//! Stable sorting: the order in which the items of a list stand once they are sorted by a key.
use vstd::prelude::*;

verus! {

/// A key that items are sorted by.
pub trait SortKey: Sized {
    /// Whether this key may stand in front of `other`.
    spec fn at_most(&self, other: &Self) -> bool;

    /// Any two keys can be compared.
    proof fn lemma_total(a: &Self, b: &Self)
        ensures
            a.at_most(b) || b.at_most(a),
    ;

    /// Keys stand in one line.
    proof fn lemma_transitive(a: &Self, b: &Self, c: &Self)
        requires
            a.at_most(b),
            b.at_most(c),
        ensures
            a.at_most(c),
    ;

    /// Whether this key may stand in front of `other`.
    fn is_at_most(&self, other: &Self) -> (le: bool)
        ensures
            le == self.at_most(other),
    ;
}

impl SortKey for u128 {
    open spec fn at_most(&self, other: &Self) -> bool {
        *self <= *other
    }

    proof fn lemma_total(a: &Self, b: &Self) {
    }

    proof fn lemma_transitive(a: &Self, b: &Self, c: &Self) {
    }

    fn is_at_most(&self, other: &Self) -> (le: bool) {
        *self <= *other
    }
}

/// Whether text `a` comes no later than `b` in the order of their characters' code points.
pub open spec fn text_at_most(a: Seq<char>, b: Seq<char>) -> bool
    decreases a.len(),
{
    if a.len() == 0 {
        true
    } else if b.len() == 0 {
        false
    } else if a[0] == b[0] {
        text_at_most(a.drop_first(), b.drop_first())
    } else {
        a[0] < b[0]
    }
}

/// Of two texts the one comes first that has the smaller character where they differ first, or that
/// ends there; of two equal texts each may stand in front of the other.
pub proof fn lemma_text_order(a: Seq<char>, b: Seq<char>, n: int)
    requires
        0 <= n <= a.len(),
        n <= b.len(),
        forall|i: int| 0 <= i < n ==> #[trigger] a[i] == b[i],
    ensures
        n == a.len() ==> text_at_most(a, b),
        n == b.len() && n < a.len() ==> !text_at_most(a, b),
        n < a.len() && n < b.len() && a[n] != b[n] ==> (text_at_most(a, b) <==> a[n] < b[n]),
    decreases n,
{
    if n > 0 {
        let x = a.drop_first();
        let y = b.drop_first();
        assert forall|i: int| 0 <= i < n - 1 implies #[trigger] x[i] == y[i] by {
            assert(a[i + 1] == b[i + 1]);
        }
        assert(a[0] == b[0]);
        lemma_text_order(x, y, n - 1);
    }
}

proof fn lemma_text_total(a: Seq<char>, b: Seq<char>)
    ensures
        text_at_most(a, b) || text_at_most(b, a),
    decreases a.len(),
{
    if a.len() > 0 && b.len() > 0 && a[0] == b[0] {
        lemma_text_total(a.drop_first(), b.drop_first());
    }
}

proof fn lemma_text_transitive(a: Seq<char>, b: Seq<char>, c: Seq<char>)
    requires
        text_at_most(a, b),
        text_at_most(b, c),
    ensures
        text_at_most(a, c),
    decreases a.len(),
{
    if a.len() > 0 && b.len() > 0 && c.len() > 0 && a[0] == b[0] && b[0] == c[0] {
        lemma_text_transitive(a.drop_first(), b.drop_first(), c.drop_first());
    }
}

impl SortKey for Vec<char> {
    open spec fn at_most(&self, other: &Self) -> bool {
        text_at_most(self@, other@)
    }

    proof fn lemma_total(a: &Self, b: &Self) {
        lemma_text_total(a@, b@);
    }

    proof fn lemma_transitive(a: &Self, b: &Self, c: &Self) {
        lemma_text_transitive(a@, b@, c@);
    }

    fn is_at_most(&self, other: &Self) -> (le: bool) {
        let mut i: usize = 0;
        assert(self@.skip(0) =~= self@);
        assert(other@.skip(0) =~= other@);
        while i < self.len() && i < other.len()
            invariant
                i <= self@.len(),
                i <= other@.len(),
                text_at_most(self@, other@) == text_at_most(
                    self@.skip(i as int),
                    other@.skip(i as int),
                ),
            decreases self@.len() - i,
        {
            if self[i] != other[i] {
                return self[i] < other[i];
            }
            assert(self@.skip(i as int).drop_first() =~= self@.skip(i + 1));
            assert(other@.skip(i as int).drop_first() =~= other@.skip(i + 1));
            i += 1;
        }
        i == self.len()
    }
}

/// Whether item `a` stands in front of item `b`: its key is smaller, or the keys are equal and
/// `a` stood in front before.
pub open spec fn stands_before<K: SortKey>(keys: Seq<K>, a: int, b: int) -> bool {
    &&& keys[a].at_most(&keys[b])
    &&& keys[b].at_most(&keys[a]) ==> a < b
}

/// Whether `order` lists the places `lo..hi`, each once, as a stable sort by `keys` puts them.
pub open spec fn is_stable_order<K: SortKey>(
    keys: Seq<K>,
    lo: int,
    hi: int,
    order: Seq<usize>,
) -> bool {
    &&& order.len() == hi - lo
    &&& forall|i: int| 0 <= i < order.len() ==> lo <= #[trigger] order[i] < hi
    &&& forall|p: usize| lo <= p < hi ==> #[trigger] order.contains(p)
    &&& forall|i: int, j: int|
        0 <= i < j < order.len() ==> stands_before(
            keys,
            #[trigger] order[i] as int,
            #[trigger] order[j] as int,
        )
}

proof fn lemma_before_transitive<K: SortKey>(keys: Seq<K>, a: int, b: int, c: int)
    requires
        stands_before(keys, a, b),
        stands_before(keys, b, c),
    ensures
        stands_before(keys, a, c),
{
    K::lemma_transitive(&keys[a], &keys[b], &keys[c]);
    if keys[c].at_most(&keys[a]) {
        K::lemma_transitive(&keys[b], &keys[c], &keys[a]);
        K::lemma_transitive(&keys[c], &keys[a], &keys[b]);
    }
}

/// Merges two neighbouring runs that are sorted already.
fn merge<K: SortKey>(
    keys: &Vec<K>,
    left: Vec<usize>,
    right: Vec<usize>,
    Ghost(lo): Ghost<int>,
    Ghost(mid): Ghost<int>,
    Ghost(hi): Ghost<int>,
) -> (order: Vec<usize>)
    requires
        0 <= lo <= mid <= hi <= keys@.len(),
        is_stable_order(keys@, lo, mid, left@),
        is_stable_order(keys@, mid, hi, right@),
    ensures
        is_stable_order(keys@, lo, hi, order@),
{
    let mut order: Vec<usize> = Vec::new();
    let mut i: usize = 0;
    let mut j: usize = 0;
    while i < left.len() || j < right.len()
        invariant
            0 <= lo <= mid <= hi <= keys@.len(),
            is_stable_order(keys@, lo, mid, left@),
            is_stable_order(keys@, mid, hi, right@),
            i <= left@.len(),
            j <= right@.len(),
            order@.len() == i + j,
            forall|k: int| 0 <= k < order@.len() ==> lo <= #[trigger] order@[k] < hi,
            forall|k: int| 0 <= k < i ==> order@.contains(#[trigger] left@[k]),
            forall|k: int| 0 <= k < j ==> order@.contains(#[trigger] right@[k]),
            forall|a: int, b: int|
                0 <= a < b < order@.len() ==> stands_before(
                    keys@,
                    #[trigger] order@[a] as int,
                    #[trigger] order@[b] as int,
                ),
            forall|a: int, k: int|
                0 <= a < order@.len() && i <= k < left@.len() ==> stands_before(
                    keys@,
                    #[trigger] order@[a] as int,
                    #[trigger] left@[k] as int,
                ),
            forall|a: int, k: int|
                0 <= a < order@.len() && j <= k < right@.len() ==> stands_before(
                    keys@,
                    #[trigger] order@[a] as int,
                    #[trigger] right@[k] as int,
                ),
        decreases left@.len() + right@.len() - i - j,
    {
        let take_left: bool = if i == left.len() {
            false
        } else if j == right.len() {
            true
        } else {
            keys[left[i]].is_at_most(&keys[right[j]])
        };
        let ghost before = order@;
        let next: usize = if take_left {
            left[i]
        } else {
            right[j]
        };
        proof {
            if i < left@.len() && j < right@.len() {
                K::lemma_total(&keys@[left@[i as int] as int], &keys@[right@[j as int] as int]);
            }
            if take_left && j < right@.len() {
                assert forall|k: int| j <= k < right@.len() implies stands_before(
                    keys@,
                    next as int,
                    #[trigger] right@[k] as int,
                ) by {
                    if k > j {
                        lemma_before_transitive(
                            keys@,
                            next as int,
                            right@[j as int] as int,
                            right@[k] as int,
                        );
                    }
                }
            }
            if !take_left && i < left@.len() {
                assert forall|k: int| i <= k < left@.len() implies stands_before(
                    keys@,
                    next as int,
                    #[trigger] left@[k] as int,
                ) by {
                    if k > i {
                        lemma_before_transitive(
                            keys@,
                            next as int,
                            left@[i as int] as int,
                            left@[k] as int,
                        );
                    }
                }
            }
        }
        order.push(next);
        proof {
            assert(order@[before.len() as int] == next);
            assert forall|x: usize| before.contains(x) implies order@.contains(x) by {
                let k = choose|k: int| 0 <= k < before.len() && before[k] == x;
                assert(order@[k] == x);
            }
        }
        if take_left {
            i += 1;
        } else {
            j += 1;
        }
    }
    proof {
        assert forall|p: usize| lo <= p < hi implies #[trigger] order@.contains(p) by {
            if p < mid {
                assert(left@.contains(p));
            } else {
                assert(right@.contains(p));
            }
        }
    }
    order
}

/// Sorts the places `lo..hi` by their keys.
fn sort_range<K: SortKey>(keys: &Vec<K>, lo: usize, hi: usize) -> (order: Vec<usize>)
    requires
        lo <= hi <= keys@.len(),
    ensures
        is_stable_order(keys@, lo as int, hi as int, order@),
    decreases hi - lo,
{
    let mut order: Vec<usize> = Vec::new();
    if hi - lo == 0 {
        return order;
    }
    if hi - lo == 1 {
        order.push(lo);
        assert(order@[0] == lo);
        return order;
    }
    let mid: usize = lo + (hi - lo) / 2;
    let left: Vec<usize> = sort_range(keys, lo, mid);
    let right: Vec<usize> = sort_range(keys, mid, hi);
    merge(keys, left, right, Ghost(lo as int), Ghost(mid as int), Ghost(hi as int))
}

/// The order in which a stable sort by `keys` puts the items that the keys belong to.
pub fn stable_order<K: SortKey>(keys: &Vec<K>) -> (order: Vec<usize>)
    ensures
        is_stable_order(keys@, 0, keys@.len() as int, order@),
{
    sort_range(keys, 0, keys.len())
}

/// A stable order lists no place twice.
pub proof fn lemma_no_place_twice<K: SortKey>(keys: Seq<K>, lo: int, hi: int, order: Seq<usize>)
    requires
        is_stable_order(keys, lo, hi, order),
    ensures
        order.no_duplicates(),
{
}

/// Putting items into an order that lists every place once keeps all of them.
pub proof fn lemma_items_are_kept<T>(items: Seq<T>, order: Seq<usize>)
    requires
        items.len() <= usize::MAX,
        order.len() == items.len(),
        order.no_duplicates(),
        forall|i: int| 0 <= i < order.len() ==> #[trigger] order[i] < items.len(),
        forall|p: usize| p < items.len() ==> #[trigger] order.contains(p),
    ensures
        Seq::new(order.len(), |i: int| items[order[i] as int]).to_multiset()
            == items.to_multiset(),
    decreases items.len(),
{
    broadcast use vstd::seq_lib::group_to_multiset_ensures;

    let after = Seq::new(order.len(), |i: int| items[order[i] as int]);
    if items.len() > 0 {
        let p = (items.len() - 1) as usize;
        assert(order.contains(p));
        let k = choose|k: int| 0 <= k < order.len() && order[k] == p;
        let rest = order.remove(k);
        assert(forall|i: int| 0 <= i < rest.len() ==> #[trigger] rest[i] < items.len() - 1);
        assert forall|q: usize| q < items.len() - 1 implies #[trigger] rest.contains(q) by {
            assert(order.contains(q));
            let j = choose|j: int| 0 <= j < order.len() && order[j] == q;
            assert(rest[if j < k {
                j
            } else {
                j - 1
            }] == q);
        }
        lemma_items_are_kept(items.drop_last(), rest);
        let kept = Seq::new(rest.len(), |i: int| items.drop_last()[rest[i] as int]);
        assert(after.remove(k) =~= kept);
        assert(items =~= items.drop_last().push(items.last()));
    }
}

/// A stable sort leaves no choice: there is one stable order for given keys.
pub proof fn lemma_stable_order_is_unique<K: SortKey>(
    keys: Seq<K>,
    a: Seq<usize>,
    b: Seq<usize>,
)
    requires
        is_stable_order(keys, 0, keys.len() as int, a),
        is_stable_order(keys, 0, keys.len() as int, b),
    ensures
        a == b,
{
    lemma_orders_agree(keys, a, b, keys.len() as int);
}

/// Two stable orders agree on their first `n` places.
proof fn lemma_orders_agree<K: SortKey>(keys: Seq<K>, a: Seq<usize>, b: Seq<usize>, n: int)
    requires
        is_stable_order(keys, 0, keys.len() as int, a),
        is_stable_order(keys, 0, keys.len() as int, b),
        0 <= n <= keys.len(),
    ensures
        forall|i: int| 0 <= i < n ==> a[i] == b[i],
    decreases n,
{
    if n > 0 {
        lemma_orders_agree(keys, a, b, n - 1);
        let m = n - 1;
        if a[m] != b[m] {
            // a[m] stands somewhere in b, behind place m; b[m] stands in a, behind place m.
            assert(b.contains(a[m]));
            assert(a.contains(b[m]));
        }
    }
}

} // verus!
