use vstd::prelude::*;

use crate::request::Request;

verus! {

/// The value that the shared epoch holds before any worker changed it.
pub fn initial_epoch() -> (e: String)
    ensures
        e@ == "epoch-1"@,
{
    String::from_str("epoch-1")
}

/// The value of the shared epoch once the requests of `handled` have taken
/// effect on it, in that order, across all workers: the last `SetEpoch` wins,
/// whichever worker handled it, and `Work` leaves the cell as it is.
pub open spec fn epoch_after(initial: Seq<char>, handled: Seq<Request>) -> Seq<char>
    decreases handled.len(),
{
    if handled.len() == 0 {
        initial
    } else {
        match handled.last() {
            Request::SetEpoch { value } => value@,
            _ => epoch_after(initial, handled.drop_last()),
        }
    }
}

/// Global epoch visibility: once `SetEpoch { value }` has been handled (at
/// position `j` of the order in which requests took effect on the shared
/// cell, whatever worker handled it), a job handled later, at position `k`,
/// by any worker observes `value`, unless another `SetEpoch` took effect in
/// between.
pub proof fn lemma_epoch_visibility(
    initial: Seq<char>,
    handled: Seq<Request>,
    j: int,
    k: int,
    value: String,
)
    requires
        0 <= j < k <= handled.len(),
        handled[j] == (Request::SetEpoch { value }),
        forall|i: int| j < i < k ==> !(#[trigger] handled[i] is SetEpoch),
    ensures
        epoch_after(initial, handled.take(k)) == value@,
    decreases k - j,
{
    let prefix = handled.take(k);
    if k == j + 1 {
        assert(prefix.last() == handled[j]);
    } else {
        assert(prefix.last() == handled[k - 1]);
        assert(!(handled[k - 1] is SetEpoch));
        assert(prefix.drop_last() =~= handled.take(k - 1));
        lemma_epoch_visibility(initial, handled, j, k - 1, value);
    }
}

} // verus!
