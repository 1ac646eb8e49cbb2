//! The least position below a bound at which a predicate holds.

use vstd::prelude::*;

verus! {

/// The least `k` with `0 <= k < n` and `p(k)`, if there is one.
pub open spec fn least_below(n: int, p: spec_fn(int) -> bool) -> Option<int>
    decreases n,
{
    if n <= 0 {
        None
    } else {
        match least_below(n - 1, p) {
            Some(k) => Some(k),
            None => if p(n - 1) {
                Some(n - 1)
            } else {
                None
            },
        }
    }
}

/// What [`least_below`] gives: a position at which the predicate holds and
/// before which it does not, or nothing where it holds nowhere.
pub proof fn lemma_least_below(n: int, p: spec_fn(int) -> bool)
    ensures
        match least_below(n, p) {
            Some(k) => 0 <= k < n && p(k) && forall|j: int| 0 <= j < k ==> !#[trigger] p(j),
            None => forall|j: int| 0 <= j < n ==> !#[trigger] p(j),
        },
    decreases n,
{
    if n > 0 {
        lemma_least_below(n - 1, p);
    }
}

/// A position at which the predicate holds and before which it does not is
/// the one that [`least_below`] gives.
pub proof fn lemma_least_below_is(n: int, p: spec_fn(int) -> bool, k: int)
    requires
        0 <= k < n,
        p(k),
        forall|j: int| 0 <= j < k ==> !#[trigger] p(j),
    ensures
        least_below(n, p) == Some(k),
{
    lemma_least_below(n, p);
}

} // verus!
