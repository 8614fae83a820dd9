//! Chance, drawn from the thread-local generator of `rand`.
use vstd::prelude::*;
use rand::seq::IteratorRandom;

verus! {

/// Calls `IteratorRandom::choose` of `rand` on the positions `0..len`, with
/// the thread-local generator. The range knows its size, so the source gives
/// `None` for an empty range and otherwise the item at a position drawn below
/// `len`; which one is chance, and nothing more is claimed of it. The
/// generator panics only when the system's source of randomness cannot be
/// read, which no argument decides.
#[verifier::external_body]
pub(crate) fn pick_index(len: usize) -> (r: Option<usize>)
    ensures
        r is None <==> len == 0,
        r matches Some(i) ==> i < len,
{
    (0..len).choose(&mut rand::thread_rng())
}

/// No position occurs twice.
pub open spec fn distinct(s: Seq<usize>) -> bool {
    forall|i: int, j: int| 0 <= i < j < s.len() ==> s[i] != s[j]
}

/// Calls `IteratorRandom::choose_multiple` of `rand` on the positions
/// `0..len`, with the thread-local generator. Its source fills a reservoir
/// with the first `amount` positions and then overwrites slots with later
/// ones, so it gives `amount` positions, or all of them when there are
/// fewer, each a position of the range and none twice; which ones, and in
/// what order, is chance. The reservoir is allocated for `amount` positions
/// first; the bound on `amount` keeps its size from overflowing. Like
/// `pick_index`, it panics otherwise only when the system's source of
/// randomness cannot be read.
#[verifier::external_body]
pub(crate) fn pick_indices(len: usize, amount: usize) -> (r: Vec<usize>)
    requires
        amount <= u32::MAX,
    ensures
        r@.len() == if amount < len { amount } else { len },
        forall|i: int| 0 <= i < r@.len() ==> r@[i] < len,
        distinct(r@),
{
    (0..len).choose_multiple(&mut rand::thread_rng(), amount)
}

} // verus!
