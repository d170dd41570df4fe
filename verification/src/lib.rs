//! A small feed-forward neural-network engine for fixed-width tensors.
//!
//! Every scalar is a fixed-point number: an `i64` carrying 16 fractional
//! bits, saturated into a fixed range, so that the whole forward and
//! backward pass is exact integer arithmetic.  Layer widths are fixed when
//! the network is assembled and every junction between adjacent layers is
//! checked at construction time.

pub mod activation;
pub mod convolution;
pub mod fixed;
pub mod layers;
pub mod loss;
pub mod prelude;
pub mod softmax;
