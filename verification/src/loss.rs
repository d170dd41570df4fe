//! Loss shaping of a prediction against the observed reality.

use vstd::prelude::*;

use crate::fixed::{bounded_seq, fsub};
use crate::layers::err_sub;

verus! {

/// The linear loss: the prediction is replaced, in place, by the
/// elementwise difference `reality - prediction`, so a positive result
/// means under-prediction.
pub struct Linear;

impl Linear {
    /// Overwrites each component of the prediction with the error
    /// `reality - prediction`.
    pub fn loss(prediction: &mut Vec<i64>, reality: &Vec<i64>)
        requires
            old(prediction)@.len() == reality@.len(),
        ensures
            final(prediction)@ == err_sub(reality@, old(prediction)@),
            final(prediction)@.len() == old(prediction)@.len(),
            bounded_seq(final(prediction)@),
    {
        let len: usize = prediction.len();
        let mut i: usize = 0;
        while i < len
            invariant
                0 <= i <= len,
                len == prediction@.len() == old(prediction)@.len() == reality@.len(),
                forall|k: int| i <= k < len ==> prediction@[k] == old(prediction)@[k],
                forall|k: int|
                    0 <= k < i ==> prediction@[k] == err_sub(reality@, old(prediction)@)[k],
                forall|k: int|
                    0 <= k < i ==> -crate::fixed::BOUND <= #[trigger] prediction@[k]
                        <= crate::fixed::BOUND,
            decreases len - i,
        {
            let v: i64 = fsub(reality[i], prediction[i]);
            prediction.set(i, v);
            i = i + 1;
        }
        proof {
            assert(prediction@ =~= err_sub(reality@, old(prediction)@));
        }
    }
}

} // verus!
