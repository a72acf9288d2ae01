//! Selections: the places of a list whose items are wanted, in their order.
use vstd::prelude::*;

verus! {

/// Whether `chosen` are the places that `wanted` marks: all of them, each once, from the first to
/// the last.
pub open spec fn is_selection(wanted: Seq<bool>, chosen: Seq<int>) -> bool {
    &&& forall|j: int|
        0 <= j < chosen.len() ==> 0 <= #[trigger] chosen[j] < wanted.len() && wanted[chosen[j]]
    &&& forall|j: int, k: int|
        0 <= j < k < chosen.len() ==> #[trigger] chosen[j] < #[trigger] chosen[k]
    &&& forall|i: int| 0 <= i < wanted.len() && #[trigger] wanted[i] ==> chosen.contains(i)
}

/// `chosen`, once one more place is marked or not.
pub open spec fn extended(wanted: Seq<bool>, n: int, chosen: Seq<int>) -> Seq<int> {
    if wanted[n] {
        chosen.push(n)
    } else {
        chosen
    }
}

/// A selection of the first places goes on with the next place if it is marked.
pub proof fn lemma_selection_goes_on(wanted: Seq<bool>, n: int, chosen: Seq<int>)
    requires
        0 <= n < wanted.len(),
        is_selection(wanted.take(n), chosen),
    ensures
        is_selection(wanted.take(n + 1), extended(wanted, n, chosen)),
{
    let first = wanted.take(n);
    let more = wanted.take(n + 1);
    let now = extended(wanted, n, chosen);
    assert forall|j: int| 0 <= j < now.len() implies 0 <= #[trigger] now[j] < more.len()
        && more[now[j]] by {
        if j < chosen.len() {
            assert(first[chosen[j]]);
        }
    }
    assert forall|i: int| 0 <= i < more.len() && #[trigger] more[i] implies now.contains(i) by {
        if i == n {
            assert(now[chosen.len() as int] == n);
        } else {
            assert(first[i]);
            assert(chosen.contains(i));
            let j = choose|j: int| 0 <= j < chosen.len() && chosen[j] == i;
            assert(now[j] == i);
        }
    }
}

} // verus!
