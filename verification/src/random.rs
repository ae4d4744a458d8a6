//! Random choice of a target, through `rand`.
use vstd::prelude::*;
use rand::seq::IteratorRandom;

verus! {

/// `rand::seq::IteratorRandom::choose` on the positions `0..len`, drawn with
/// `rand::thread_rng()`. The crate documents that `choose` returns `None`
/// if and only if the iterator is empty; which position comes back is left
/// to chance, so no clause says which one.
#[verifier::external_body]
pub(crate) fn choose_position(len: usize) -> (r: Option<usize>)
    ensures
        r is Some <==> len > 0,
        r matches Some(i) ==> i < len,
{
    (0..len).choose(&mut rand::thread_rng())
}

} // verus!
