//! Stable sorting, stated as an order of positions.
use vstd::prelude::*;
use crate::text::{Dup, views};

verus! {

/// `order` lists the positions of `items` so that none comes before a smaller one, and so
/// that items of equal rank keep their places among each other.
pub open spec fn is_stable_order<A>(
    items: Seq<A>,
    le: spec_fn(A, A) -> bool,
    order: Seq<int>,
) -> bool {
    &&& order.len() == items.len()
    &&& forall|i: int| 0 <= i < order.len() ==> 0 <= #[trigger] order[i] < items.len()
    &&& forall|i: int, j: int|
        #![trigger order[i], order[j]]
        0 <= i < j < order.len() ==> {
            &&& order[i] != order[j]
            &&& le(items[order[i]], items[order[j]])
            &&& le(items[order[j]], items[order[i]]) ==> order[i] < order[j]
        }
}

/// The items at the given positions.
pub open spec fn arranged<A>(items: Seq<A>, order: Seq<int>) -> Seq<A> {
    Seq::new(order.len(), |i: int| items[order[i]])
}

/// `after` holds the items of `before`, stably sorted.
pub open spec fn stably_sorted<A>(
    before: Seq<A>,
    after: Seq<A>,
    le: spec_fn(A, A) -> bool,
) -> bool {
    exists|order: Seq<int>|
        #[trigger] is_stable_order(before, le, order) && after == arranged(before, order)
}

/// Machine positions as mathematical ones.
pub open spec fn positions(order: Seq<usize>) -> Seq<int> {
    Seq::new(order.len(), |i: int| order[i] as int)
}

/// A total preorder on the views of a type.
pub trait Ranked: View + Sized {
    spec fn le(a: Self::V, b: Self::V) -> bool;

    proof fn le_total(a: Self::V, b: Self::V)
        ensures
            Self::le(a, b) || Self::le(b, a),
    ;

    proof fn le_transitive(a: Self::V, b: Self::V, c: Self::V)
        requires
            Self::le(a, b),
            Self::le(b, c),
        ensures
            Self::le(a, c),
    ;

    fn at_most(&self, other: &Self) -> (r: bool)
        ensures
            r == Self::le(self@, other@),
    ;
}

/// A position is inserted behind everything that is not greater.
proof fn lemma_insert<K: Ranked>(all: Seq<K::V>, before: Seq<int>, n: int, p: int)
    requires
        0 <= n < all.len(),
        0 <= p <= before.len(),
        is_stable_order(all.take(n), |a: K::V, b: K::V| K::le(a, b), before),
        p > 0 ==> K::le(all[before[p - 1]], all[n]),
        forall|i: int| p <= i < before.len() ==> !K::le(all[#[trigger] before[i]], all[n]),
    ensures
        is_stable_order(all.take(n + 1), |a: K::V, b: K::V| K::le(a, b), before.insert(p, n)),
{
    let le = |a: K::V, b: K::V| K::le(a, b);
    let after = before.insert(p, n);
    let now = all.take(n + 1);
    let then = all.take(n);
    assert forall|i: int| 0 <= i < after.len() implies 0 <= #[trigger] after[i] < now.len() by {
        if i < p {
            assert(after[i] == before[i]);
        } else if i > p {
            assert(after[i] == before[i - 1]);
        }
    }
    assert forall|i: int, j: int|
        #![trigger after[i], after[j]]
        0 <= i < j < after.len() implies {
        &&& after[i] != after[j]
        &&& le(now[after[i]], now[after[j]])
        &&& le(now[after[j]], now[after[i]]) ==> after[i] < after[j]
    } by {
        if j < p {
            assert(after[i] == before[i] && after[j] == before[j]);
            assert(then[before[i]] == now[after[i]] && then[before[j]] == now[after[j]]);
        } else if j == p {
            assert(after[i] == before[i]);
            assert(0 <= before[i] < n);
            if i < p - 1 {
                assert(before[p - 1] < n);
                assert(le(then[before[i]], then[before[p - 1]]));
                K::le_transitive(all[before[i]], all[before[p - 1]], all[n]);
            }
        } else if i == p {
            assert(after[j] == before[j - 1]);
            assert(0 <= before[j - 1] < n);
            K::le_total(all[n], all[before[j - 1]]);
        } else if i < p {
            assert(after[i] == before[i] && after[j] == before[j - 1]);
            assert(then[before[i]] == now[after[i]]);
            assert(then[before[j - 1]] == now[after[j]]);
        } else {
            assert(after[i] == before[i - 1] && after[j] == before[j - 1]);
            assert(then[before[i - 1]] == now[after[i]]);
            assert(then[before[j - 1]] == now[after[j]]);
        }
    }
}

/// Whatever is to be sorted has a stable order.
pub proof fn lemma_order_exists<K: Ranked>(items: Seq<K::V>) -> (order: Seq<int>)
    ensures
        is_stable_order(items, |a: K::V, b: K::V| K::le(a, b), order),
    decreases items.len(),
{
    if items.len() == 0 {
        Seq::empty()
    } else {
        let n = items.len() - 1;
        assert(items.take(n) =~= items.drop_last());
        let before = lemma_order_exists::<K>(items.take(n));
        let p = lemma_place::<K>(items, before, n, before.len() as int);
        lemma_insert::<K>(items, before, n, p);
        assert(items.take(n + 1) =~= items);
        before.insert(p, n)
    }
}

proof fn lemma_place<K: Ranked>(all: Seq<K::V>, order: Seq<int>, n: int, from: int) -> (p: int)
    requires
        0 <= from <= order.len(),
        forall|i: int| from <= i < order.len() ==> !K::le(all[#[trigger] order[i]], all[n]),
    ensures
        0 <= p <= order.len(),
        p > 0 ==> K::le(all[order[p - 1]], all[n]),
        forall|i: int| p <= i < order.len() ==> !K::le(all[#[trigger] order[i]], all[n]),
    decreases from,
{
    if from > 0 && !K::le(all[order[from - 1]], all[n]) {
        lemma_place::<K>(all, order, n, from - 1)
    } else {
        from
    }
}

/// The positions of the keys in stable order.
pub fn order_of<K: Ranked>(keys: &Vec<K>) -> (order: Vec<usize>)
    ensures
        is_stable_order(views(keys@), |a: K::V, b: K::V| K::le(a, b), positions(order@)),
{
    let ghost all = views(keys@);
    let ghost le = |a: K::V, b: K::V| K::le(a, b);
    let mut order: Vec<usize> = Vec::new();
    let mut n: usize = 0;
    assert(all.take(0) =~= Seq::empty());
    while n < keys.len()
        invariant
            n <= keys@.len(),
            all == views(keys@),
            le == (|a: K::V, b: K::V| K::le(a, b)),
            is_stable_order(all.take(n as int), le, positions(order@)),
        decreases keys@.len() - n,
    {
        let ghost before = positions(order@);
        assert forall|i: int| 0 <= i < order@.len() implies (#[trigger] order@[i]) < n by {
            assert(before[i] < n);
        }
        let mut p: usize = order.len();
        while p > 0 && !keys[order[p - 1]].at_most(&keys[n])
            invariant
                n < keys@.len(),
                p <= order@.len(),
                all == views(keys@),
                le == (|a: K::V, b: K::V| K::le(a, b)),
                before == positions(order@),
                is_stable_order(all.take(n as int), le, before),
                forall|i: int| 0 <= i < order@.len() ==> (#[trigger] order@[i]) < n,
                forall|i: int|
                    p <= i < order@.len() ==> !K::le(all[(#[trigger] before[i])], all[n as int]),
            decreases p,
        {
            p -= 1;
        }
        order.insert(p, n);
        proof {
            lemma_insert::<K>(all, before, n as int, p as int);
            assert(positions(order@) =~= before.insert(p as int, n as int));
        }
        n += 1;
    }
    assert(all.take(all.len() as int) =~= all);
    order
}

/// Copies of the items at the given positions.
pub fn pick<T: Dup>(items: &Vec<T>, order: &Vec<usize>) -> (out: Vec<T>)
    requires
        forall|i: int| 0 <= i < order@.len() ==> (#[trigger] order@[i]) < items@.len(),
    ensures
        views(out@) == arranged(views(items@), positions(order@)),
{
    let mut out: Vec<T> = Vec::new();
    let mut i: usize = 0;
    while i < order.len()
        invariant
            i <= order@.len(),
            forall|k: int| 0 <= k < order@.len() ==> (#[trigger] order@[k]) < items@.len(),
            out@.len() == i,
            forall|k: int| 0 <= k < i ==> (#[trigger] out@[k])@ == items@[order@[k] as int]@,
        decreases order@.len() - i,
    {
        let at: usize = order[i];
        out.push(items[at].dup());
        i += 1;
    }
    assert(views(out@) =~= arranged(views(items@), positions(order@)));
    out
}

/// The items at the given positions.
pub fn pick_copies<T: Copy>(items: &Vec<T>, order: &Vec<usize>) -> (out: Vec<T>)
    requires
        forall|i: int| 0 <= i < order@.len() ==> (#[trigger] order@[i]) < items@.len(),
    ensures
        out@ == arranged(items@, positions(order@)),
{
    let mut out: Vec<T> = Vec::new();
    let mut i: usize = 0;
    while i < order.len()
        invariant
            i <= order@.len(),
            forall|k: int| 0 <= k < order@.len() ==> (#[trigger] order@[k]) < items@.len(),
            out@.len() == i,
            forall|k: int| 0 <= k < i ==> (#[trigger] out@[k]) == items@[order@[k] as int],
        decreases order@.len() - i,
    {
        let at: usize = order[i];
        out.push(items[at]);
        i += 1;
    }
    assert(out@ =~= arranged(items@, positions(order@)));
    out
}

/// A number that ranks the larger the earlier.
pub struct Descending {
    pub n: i128,
}

impl View for Descending {
    type V = int;

    open spec fn view(&self) -> int {
        self.n as int
    }
}

impl Ranked for Descending {
    open spec fn le(a: int, b: int) -> bool {
        a >= b
    }

    proof fn le_total(a: int, b: int) {
    }

    proof fn le_transitive(a: int, b: int, c: int) {
    }

    fn at_most(&self, other: &Self) -> (r: bool) {
        self.n >= other.n
    }
}

/// A number that ranks the smaller the earlier.
pub struct Ascending {
    pub n: i128,
}

impl View for Ascending {
    type V = int;

    open spec fn view(&self) -> int {
        self.n as int
    }
}

impl Ranked for Ascending {
    open spec fn le(a: int, b: int) -> bool {
        a <= b
    }

    proof fn le_total(a: int, b: int) {
    }

    proof fn le_transitive(a: int, b: int, c: int) {
    }

    fn at_most(&self, other: &Self) -> (r: bool) {
        self.n <= other.n
    }
}

/// An order of keys is an order of the items the keys belong to.
pub proof fn lemma_order_by_key<A, B>(
    items: Seq<A>,
    keys: Seq<B>,
    key: spec_fn(A) -> B,
    le: spec_fn(B, B) -> bool,
    order: Seq<int>,
)
    requires
        items.len() == keys.len(),
        forall|i: int| 0 <= i < items.len() ==> keys[i] == #[trigger] key(items[i]),
        is_stable_order(keys, le, order),
    ensures
        is_stable_order(items, |a: A, b: A| le(key(a), key(b)), order),
{
    let item_le = |a: A, b: A| le(key(a), key(b));
    assert forall|i: int, j: int|
        #![trigger order[i], order[j]]
        0 <= i < j < order.len() implies {
        &&& order[i] != order[j]
        &&& item_le(items[order[i]], items[order[j]])
        &&& item_le(items[order[j]], items[order[i]]) ==> order[i] < order[j]
    } by {
        assert(keys[order[i]] == key(items[order[i]]));
        assert(keys[order[j]] == key(items[order[j]]));
    }
}

/// Copies of the items, stably sorted by the keys they come with.
pub fn sort_by_keys<T: Dup, K: Ranked>(items: &Vec<T>, keys: &Vec<K>) -> (out: Vec<T>)
    requires
        items@.len() == keys@.len(),
    ensures
        sorted_with(
            views(items@),
            views(keys@),
            |a: K::V, b: K::V| K::le(a, b),
            views(out@),
        ),
{
    let order = order_of(keys);
    assert forall|k: int| 0 <= k < order@.len() implies (#[trigger] order@[k]) < items@.len() by {
        assert(positions(order@)[k] < views(keys@).len());
    }
    let out = pick(items, &order);
    assert(is_stable_order(
        views(keys@),
        |a: K::V, b: K::V| K::le(a, b),
        positions(order@),
    ));
    out
}

/// `after` holds the items in the stable order of the keys that belong to them.
pub open spec fn sorted_with<A, B>(
    items: Seq<A>,
    keys: Seq<B>,
    le: spec_fn(B, B) -> bool,
    after: Seq<A>,
) -> bool {
    exists|order: Seq<int>|
        #[trigger] is_stable_order(keys, le, order) && after == arranged(items, order)
}

/// Sorting by keys is sorting by the function that gives the keys.
pub proof fn lemma_sorted_with<A, B>(
    items: Seq<A>,
    keys: Seq<B>,
    key: spec_fn(A) -> B,
    le: spec_fn(B, B) -> bool,
    after: Seq<A>,
    item_le: spec_fn(A, A) -> bool,
)
    requires
        items.len() == keys.len(),
        forall|i: int| 0 <= i < items.len() ==> keys[i] == #[trigger] key(items[i]),
        sorted_with(items, keys, le, after),
        forall|a: A, b: A| #[trigger] item_le(a, b) == le(key(a), key(b)),
    ensures
        stably_sorted(items, after, item_le),
{
    let order = choose|order: Seq<int>| #[trigger]
        is_stable_order(keys, le, order) && after == arranged(items, order);
    lemma_order_by_key(items, keys, key, le, order);
    assert((|a: A, b: A| le(key(a), key(b))) =~= item_le);
    assert(is_stable_order(items, item_le, order));
}

/// Sorting neither adds nor drops anything.
pub proof fn sorting_keeps_every_item<A>(before: Seq<A>, after: Seq<A>, le: spec_fn(A, A) -> bool)
    requires
        stably_sorted(before, after, le),
    ensures
        after.to_multiset() == before.to_multiset(),
{
    let order = choose|order: Seq<int>|
        #[trigger] is_stable_order(before, le, order) && after == arranged(before, order);
    lemma_arranged_multiset(before, order);
}

/// The items at positions that are all different and all there make the same multiset.
proof fn lemma_arranged_multiset<A>(items: Seq<A>, order: Seq<int>)
    requires
        order.len() == items.len(),
        forall|i: int| 0 <= i < order.len() ==> 0 <= #[trigger] order[i] < items.len(),
        forall|i: int, j: int|
            #![trigger order[i], order[j]]
            0 <= i < j < order.len() ==> order[i] != order[j],
    ensures
        arranged(items, order).to_multiset() == items.to_multiset(),
    decreases items.len(),
{
    broadcast use vstd::seq_lib::group_to_multiset_ensures;

    let n = items.len();
    if n == 0 {
        assert(arranged(items, order) =~= items);
    } else {
        lemma_order_covers(order, n - 1);
        let k = order.index_of(n - 1);
        let rest = order.remove(k);
        let fewer = items.drop_last();
        assert forall|i: int| 0 <= i < rest.len() implies 0 <= #[trigger] rest[i] < fewer.len() by {
            if i < k {
                assert(rest[i] == order[i]);
            } else {
                assert(rest[i] == order[i + 1]);
            }
        }
        assert forall|i: int, j: int|
            #![trigger rest[i], rest[j]]
            0 <= i < j < rest.len() implies rest[i] != rest[j] by {
            let a = if i < k {
                i
            } else {
                i + 1
            };
            let b = if j < k {
                j
            } else {
                j + 1
            };
            assert(rest[i] == order[a] && rest[j] == order[b]);
        }
        lemma_arranged_multiset(fewer, rest);
        let whole = arranged(items, order);
        assert(whole.remove(k) =~= arranged(fewer, rest));
        assert(whole[k] == items.last());
        whole.to_multiset_ensures();
        fewer.to_multiset_ensures();
        assert(whole.contains(whole[k]));
        assert(whole.to_multiset() =~= whole.to_multiset().remove(whole[k]).insert(whole[k]));
        assert(items =~= fewer.push(items.last()));
    }
}

/// Different positions below `n`, `n` of them, meet every position.
proof fn lemma_order_covers(order: Seq<int>, v: int)
    requires
        forall|i: int| 0 <= i < order.len() ==> 0 <= #[trigger] order[i] < order.len(),
        forall|i: int, j: int|
            #![trigger order[i], order[j]]
            0 <= i < j < order.len() ==> order[i] != order[j],
        0 <= v < order.len(),
    ensures
        order.contains(v),
{
    let n = order.len() as int;
    let all = vstd::set_lib::set_int_range(0, n);
    vstd::set_lib::lemma_int_range(0, n);
    assert(order.no_duplicates());
    order.unique_seq_to_set();
    assert(order.to_set().subset_of(all)) by {
        assert forall|x: int| order.to_set().contains(x) implies all.contains(x) by {
            let i = choose|i: int| 0 <= i < order.len() && order[i] == x;
            assert(0 <= order[i] < order.len());
        }
    }
    vstd::set_lib::lemma_subset_equality(order.to_set(), all);
    assert(all.contains(v));
}

/// A sorted sequence is ordered pair by pair.
pub proof fn lemma_sorted_pairs<A>(before: Seq<A>, after: Seq<A>, le: spec_fn(A, A) -> bool)
    requires
        stably_sorted(before, after, le),
    ensures
        forall|i: int, j: int| 0 <= i < j < after.len() ==> le(after[i], after[j]),
{
    let order = choose|order: Seq<int>|
        #[trigger] is_stable_order(before, le, order) && after == arranged(before, order);
    assert forall|i: int, j: int| 0 <= i < j < after.len() implies le(after[i], after[j]) by {
        assert(le(before[order[i]], before[order[j]]));
    }
}

/// Two stable orders of the same items put each position in the same place.
proof fn lemma_orders_agree<A>(
    items: Seq<A>,
    le: spec_fn(A, A) -> bool,
    p: Seq<int>,
    q: Seq<int>,
    k: int,
)
    requires
        is_stable_order(items, le, p),
        is_stable_order(items, le, q),
        0 <= k < items.len(),
    ensures
        p[k] == q[k],
    decreases k,
{
    assert forall|j: int| 0 <= j < k implies p[j] == q[j] by {
        lemma_orders_agree(items, le, p, q, j);
    }
    let x = p[k];
    let y = q[k];
    lemma_order_covers(q, x);
    lemma_order_covers(p, y);
    let m = choose|m: int| 0 <= m < q.len() && q[m] == x;
    let l = choose|l: int| 0 <= l < p.len() && p[l] == y;
    if x != y {
        if m < k {
            assert(p[m] == q[m]);
        }
        if l < k {
            assert(p[l] == q[l]);
        }
        assert(k < m && k < l);
        assert(le(items[p[k]], items[p[l]]));
        assert(le(items[q[k]], items[q[m]]));
    }
}

/// There is one stable order only.
pub proof fn sorting_has_one_result<A>(
    before: Seq<A>,
    a: Seq<A>,
    b: Seq<A>,
    le: spec_fn(A, A) -> bool,
)
    requires
        stably_sorted(before, a, le),
        stably_sorted(before, b, le),
    ensures
        a == b,
{
    let p = choose|order: Seq<int>| #[trigger]
        is_stable_order(before, le, order) && a == arranged(before, order);
    let q = choose|order: Seq<int>| #[trigger]
        is_stable_order(before, le, order) && b == arranged(before, order);
    assert forall|k: int| 0 <= k < before.len() implies p[k] == q[k] by {
        lemma_orders_agree(before, le, p, q, k);
    }
    assert(p =~= q);
}

/// The numbers below `n` that are kept, in order.
pub open spec fn numbers_where(n: nat, keep: spec_fn(int) -> bool) -> Seq<int> {
    Seq::new(n, |i: int| i).filter(keep)
}

/// One number more is kept, or is not.
pub proof fn lemma_numbers_step(n: nat, keep: spec_fn(int) -> bool)
    ensures
        numbers_where(0, keep) == Seq::<int>::empty(),
        numbers_where(n + 1, keep) == if keep(n as int) {
            numbers_where(n, keep).push(n as int)
        } else {
            numbers_where(n, keep)
        },
{
    reveal(Seq::filter);
    let all = Seq::new(n + 1, |i: int| i);
    assert(all.drop_last() =~= Seq::new(n, |i: int| i));
    assert(all.last() == n);
    assert(Seq::new(0, |i: int| i) =~= Seq::<int>::empty());
}

/// What a filter keeps stood in the list.
pub proof fn lemma_filtered_from<A>(all: Seq<A>, keep: spec_fn(A) -> bool, i: int)
    requires
        0 <= i < all.filter(keep).len(),
    ensures
        all.contains(all.filter(keep)[i]),
    decreases all.len(),
{
    reveal(Seq::filter);
    if all.len() > 0 {
        let fewer = all.drop_last();
        if i < fewer.filter(keep).len() {
            lemma_filtered_from(fewer, keep, i);
            let k = choose|k: int| 0 <= k < fewer.len() && fewer[k] == fewer.filter(keep)[i];
            assert(all[k] == fewer[k]);
        } else {
            assert(all[all.len() - 1] == all.filter(keep)[i]);
        }
    }
}

/// Where all numbers are kept, they are all there.
pub proof fn lemma_numbers_all(n: nat, keep: spec_fn(int) -> bool)
    requires
        forall|i: int| 0 <= i < n ==> #[trigger] keep(i),
    ensures
        numbers_where(n, keep) == Seq::new(n, |i: int| i),
    decreases n,
{
    if n > 0 {
        let m = (n - 1) as nat;
        lemma_numbers_all(m, keep);
        lemma_numbers_step(m, keep);
        assert(keep(m as int));
        assert(Seq::new(m, |i: int| i).push(m as int) =~= Seq::new(n, |i: int| i));
    } else {
        lemma_numbers_step(0, keep);
        assert(Seq::new(0, |i: int| i) =~= Seq::<int>::empty());
    }
}

/// A filter that keeps everything changes nothing.
pub proof fn lemma_filter_all<A>(all: Seq<A>, keep: spec_fn(A) -> bool)
    requires
        forall|i: int| 0 <= i < all.len() ==> keep(#[trigger] all[i]),
    ensures
        all.filter(keep) == all,
    decreases all.len(),
{
    reveal(Seq::filter);
    if all.len() > 0 {
        let fewer = all.drop_last();
        assert forall|i: int| 0 <= i < fewer.len() implies keep(#[trigger] fewer[i]) by {
            assert(fewer[i] == all[i]);
        }
        lemma_filter_all(fewer, keep);
        assert(keep(all[all.len() - 1]));
        assert(fewer.push(all.last()) =~= all);
    }
}

} // verus!
