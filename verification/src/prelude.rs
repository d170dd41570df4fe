//! The items most users need, re-exported in one place.

pub use crate::activation::{Act, Activation, ReLu, Sigmoid, SoftMax};
pub use crate::convolution::{ConvGeom, ConvolutionalLayer};
pub use crate::fixed::ONE;
pub use crate::layers::{ConfigError, InnerLayer, Layer, OutputLayer};
pub use crate::loss::Linear;
pub use crate::softmax::SoftMax as SoftMaxLayer;
