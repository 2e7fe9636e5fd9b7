//! Stable ranking of records by a key, highest first.

use vstd::prelude::*;

verus! {

/// A key by which records are ranked.
///
/// `outranks` is a strict weak order: it is asymmetric, and a key that
/// outranks another also outranks, or is outranked by, every third key.
pub trait RankKey: Sized {
    /// `self` ranks strictly above `other`.
    spec fn outranks(&self, other: &Self) -> bool;

    proof fn lemma_strict_weak_order(a: &Self, b: &Self, c: &Self)
        ensures
            !(a.outranks(b) && b.outranks(a)),
            a.outranks(b) ==> a.outranks(c) || c.outranks(b),
    ;

    fn ranks_above(&self, other: &Self) -> (r: bool)
        ensures
            r == self.outranks(other),
    ;
}

impl RankKey for i64 {
    open spec fn outranks(&self, other: &Self) -> bool {
        *self > *other
    }

    proof fn lemma_strict_weak_order(a: &Self, b: &Self, c: &Self) {
    }

    fn ranks_above(&self, other: &Self) -> (r: bool) {
        *self > *other
    }
}

/// A time that ranks the higher the earlier it is.
#[derive(Clone, Copy, Debug)]
pub struct Earliest(pub i64);

impl RankKey for Earliest {
    open spec fn outranks(&self, other: &Self) -> bool {
        self.0 < other.0
    }

    proof fn lemma_strict_weak_order(a: &Self, b: &Self, c: &Self) {
    }

    fn ranks_above(&self, other: &Self) -> (r: bool) {
        self.0 < other.0
    }
}

impl RankKey for usize {
    open spec fn outranks(&self, other: &Self) -> bool {
        *self > *other
    }

    proof fn lemma_strict_weak_order(a: &Self, b: &Self, c: &Self) {
    }

    fn ranks_above(&self, other: &Self) -> (r: bool) {
        *self > *other
    }
}

/// `order` lists the positions `0..keys.len()`, each once, so that a key
/// that outranks another comes first and keys that tie keep the order in
/// which they stand in `keys`.
pub open spec fn is_ranking<K: RankKey>(keys: Seq<K>, order: Seq<usize>) -> bool {
    &&& order.len() == keys.len()
    &&& forall|k: int| 0 <= k < order.len() ==> (#[trigger] order[k]) < keys.len()
    &&& forall|k: int, l: int|
        0 <= k < l < order.len() ==> {
            let a = keys[(#[trigger] order[k]) as int];
            let b = keys[(#[trigger] order[l]) as int];
            a.outranks(&b) || (!b.outranks(&a) && order[k] < order[l])
        }
}

/// A ranking lists no position twice.
pub proof fn lemma_ranking_distinct<K: RankKey>(keys: Seq<K>, order: Seq<usize>)
    requires
        is_ranking(keys, order),
    ensures
        order.no_duplicates(),
{
    assert forall|k: int, l: int| 0 <= k < order.len() && 0 <= l < order.len() && k != l implies order[k]
        != order[l] by {
        let a = keys[order[k] as int];
        let b = keys[order[l] as int];
        K::lemma_strict_weak_order(&a, &b, &a);
        if k < l {
            assert(a.outranks(&b) || (!b.outranks(&a) && order[k] < order[l]));
        } else {
            assert(b.outranks(&a) || (!a.outranks(&b) && order[l] < order[k]));
        }
    }
}

/// Where a key enters a ranking of the keys before it, looking from
/// position `p` towards the front: behind the last position whose key it
/// does not outrank.
pub open spec fn entry_point<K: RankKey>(keys: Seq<K>, order: Seq<usize>, key: K, p: nat) -> nat
    decreases p,
{
    if p > 0 && key.outranks(&keys[order[p - 1] as int]) {
        entry_point(keys, order, key, (p - 1) as nat)
    } else {
        p
    }
}

/// The ranking of `keys`: their positions, highest key first, keys that
/// tie in the order in which they stand in `keys`. Each key enters the
/// ranking of the keys before it behind all keys that it does not
/// outrank.
pub open spec fn ranking<K: RankKey>(keys: Seq<K>) -> Seq<usize>
    decreases keys.len(),
{
    if keys.len() == 0 {
        seq![]
    } else {
        let earlier = ranking(keys.drop_last());
        earlier.insert(
            entry_point(keys, earlier, keys.last(), earlier.len()) as int,
            (keys.len() - 1) as usize,
        )
    }
}

proof fn lemma_entry_point<K: RankKey>(keys: Seq<K>, order: Seq<usize>, key: K, p: nat)
    ensures
        entry_point(keys, order, key, p) <= p,
        forall|q: int|
            entry_point(keys, order, key, p) <= q < p ==> key.outranks(
                &keys[(#[trigger] order[q]) as int],
            ),
        entry_point(keys, order, key, p) > 0 ==> !key.outranks(
            &keys[order[entry_point(keys, order, key, p) - 1] as int],
        ),
    decreases p,
{
    if p > 0 && key.outranks(&keys[order[p - 1] as int]) {
        lemma_entry_point(keys, order, key, (p - 1) as nat);
    }
}

/// A ranking stays one when a further key enters it at its entry point.
proof fn lemma_insert_keeps_ranking<K: RankKey>(keys: Seq<K>, before: Seq<usize>)
    requires
        keys.len() > 0,
        keys.len() <= usize::MAX,
        is_ranking(keys.drop_last(), before),
    ensures
        is_ranking(
            keys,
            before.insert(
                entry_point(keys, before, keys.last(), before.len()) as int,
                (keys.len() - 1) as usize,
            ),
        ),
{
    let i = keys.len() - 1;
    let new_key = keys.last();
    let p = entry_point(keys, before, new_key, before.len()) as int;
    lemma_entry_point(keys, before, new_key, before.len());
    let after = before.insert(p, i as usize);
    assert forall|k: int| 0 <= k < after.len() implies (#[trigger] after[k]) < keys.len() by {
        if k < p {
            assert(after[k] == before[k]);
        } else if k > p {
            assert(after[k] == before[k - 1]);
        }
    }
    assert forall|k: int, l: int| 0 <= k < l < after.len() implies ({
        let a = keys[(#[trigger] after[k]) as int];
        let b = keys[(#[trigger] after[l]) as int];
        a.outranks(&b) || (!b.outranks(&a) && after[k] < after[l])
    }) by {
        let earlier = keys.drop_last();
        if l < p {
            assert(after[k] == before[k] && after[l] == before[l]);
            assert(earlier[before[k] as int] == keys[before[k] as int]);
            assert(earlier[before[l] as int] == keys[before[l] as int]);
        } else if k > p {
            assert(after[k] == before[k - 1] && after[l] == before[l - 1]);
            assert(earlier[before[k - 1] as int] == keys[before[k - 1] as int]);
            assert(earlier[before[l - 1] as int] == keys[before[l - 1] as int]);
        } else if k < p && l > p {
            assert(after[k] == before[k] && after[l] == before[l - 1]);
            assert(earlier[before[k] as int] == keys[before[k] as int]);
            assert(earlier[before[l - 1] as int] == keys[before[l - 1] as int]);
        } else if k == p {
            assert(after[l] == before[l - 1]);
            assert(new_key.outranks(&keys[before[l - 1] as int]));
        } else {
            // the new key stands at `l` and does not outrank what stands before it
            assert(after[k] == before[k]);
            let a = keys[before[k] as int];
            let last = keys[before[p - 1] as int];
            assert(!new_key.outranks(&last));
            if k < p - 1 {
                assert(earlier[before[k] as int] == a);
                assert(earlier[before[p - 1] as int] == last);
                K::lemma_strict_weak_order(&new_key, &a, &last);
                K::lemma_strict_weak_order(&last, &a, &new_key);
            }
            assert(!new_key.outranks(&a));
        }
    }
}

/// The ranking of keys lists every position once, a key that outranks
/// another before it, and keys that tie in the order of the keys.
pub proof fn lemma_ranking<K: RankKey>(keys: Seq<K>)
    requires
        keys.len() <= usize::MAX,
    ensures
        is_ranking(keys, ranking(keys)),
    decreases keys.len(),
{
    if keys.len() > 0 {
        lemma_ranking(keys.drop_last());
        lemma_insert_keeps_ranking(keys, ranking(keys.drop_last()));
    }
}

/// Ranks the positions of `keys`, highest key first, ties in input order.
pub fn rank_descending<K: RankKey>(keys: &Vec<K>) -> (order: Vec<usize>)
    ensures
        order@ == ranking(keys@),
        is_ranking(keys@, order@),
{
    let mut order: Vec<usize> = Vec::new();
    let n: usize = keys.len();
    let mut i: usize = 0;
    assert(keys@.take(0) =~= Seq::<K>::empty());
    while i < n
        invariant
            n == keys.len(),
            i <= n,
            order@ == ranking(keys@.take(i as int)),
        decreases n - i,
    {
        let ghost so_far = keys@.take(i as int + 1);
        proof {
            assert(so_far.drop_last() =~= keys@.take(i as int));
            lemma_ranking(keys@.take(i as int));
        }
        let mut p: usize = order.len();
        while p > 0 && keys[i].ranks_above(&keys[order[p - 1]])
            invariant
                n == keys.len(),
                i < n,
                p <= order.len(),
                order.len() == i,
                so_far == keys@.take(i as int + 1),
                is_ranking(keys@.take(i as int), order@),
                entry_point(so_far, order@, keys@[i as int], p as nat) == entry_point(
                    so_far,
                    order@,
                    keys@[i as int],
                    order@.len(),
                ),
            decreases p,
        {
            assert(so_far[order@[p - 1] as int] == keys@[order@[p - 1] as int]);
            p = p - 1;
        }
        proof {
            if p > 0 {
                assert(so_far[order@[p - 1] as int] == keys@[order@[p - 1] as int]);
            }
            assert(so_far.last() == keys@[i as int]);
        }
        order.insert(p, i);
        i = i + 1;
    }
    proof {
        assert(keys@.take(n as int) =~= keys@);
        lemma_ranking(keys@);
    }
    order
}

/// The items at the positions that `order` lists, in that order.
pub open spec fn arranged<T>(items: Seq<T>, order: Seq<usize>) -> Seq<T> {
    Seq::new(order.len(), |k: int| items[order[k] as int])
}

/// The items as their keys rank them: highest key first, items whose
/// keys tie in the order of `items`.
pub open spec fn ranked<T, K: RankKey>(items: Seq<T>, keys: Seq<K>) -> Seq<T> {
    arranged(items, ranking(keys))
}

/// Ranking loses and adds nothing: the ranked items are the items, each
/// as often as before.
pub proof fn lemma_ranked_keeps_items<T, K: RankKey>(items: Seq<T>, keys: Seq<K>)
    requires
        items.len() == keys.len(),
        keys.len() <= usize::MAX,
    ensures
        ranked(items, keys).len() == items.len(),
        ranked(items, keys).to_multiset() == items.to_multiset(),
    decreases keys.len(),
{
    broadcast use vstd::multiset::group_multiset_axioms;

    lemma_ranking(keys);
    if keys.len() == 0 {
        assert(ranked(items, keys) =~= items);
    } else {
        let n = keys.len() - 1;
        let earlier = ranking(keys.drop_last());
        let p = entry_point(keys, earlier, keys.last(), earlier.len()) as int;
        lemma_entry_point(keys, earlier, keys.last(), earlier.len());
        lemma_ranking(keys.drop_last());
        lemma_ranked_keeps_items(items.drop_last(), keys.drop_last());
        let before = ranked(items.drop_last(), keys.drop_last());
        let after = ranked(items, keys);
        assert(after =~= before.insert(p, items.last())) by {
            assert forall|k: int| 0 <= k < after.len() implies after[k] == before.insert(
                p,
                items.last(),
            )[k] by {
                if k < p {
                    assert(earlier[k] < n);
                } else if k > p {
                    assert(earlier[k - 1] < n);
                }
            }
        }
        assert(after.remove(p) =~= before);
        after.to_multiset_ensures();
        before.to_multiset_ensures();
        items.drop_last().to_multiset_ensures();
        assert(items.drop_last().push(items.last()) =~= items);
        assert(after[p] == items.last());
        assert(after.to_multiset().count(items.last()) > 0);
        assert(after.to_multiset() =~= before.to_multiset().insert(items.last()));
    }
}

/// The first `limit` elements of `s`; all of `s` where it has no more.
pub open spec fn top<T>(s: Seq<T>, limit: nat) -> Seq<T> {
    if limit < s.len() {
        s.take(limit as int)
    } else {
        s
    }
}

/// The first `limit` of the items as their keys rank them; all of them
/// where there are no more than `limit`.
pub open spec fn top_ranked<T, K: RankKey>(items: Seq<T>, keys: Seq<K>, limit: nat) -> Seq<T> {
    top(ranked(items, keys), limit)
}

/// Copies of the items at the first `limit` positions that `order` lists.
pub(crate) fn pick<T: Clone>(items: &Vec<T>, order: &Vec<usize>, limit: usize) -> (out: Vec<T>)
    requires
        forall|k: int| 0 <= k < order.len() ==> (#[trigger] order[k]) < items.len(),
    ensures
        out.len() == if limit < order.len() {
            limit
        } else {
            order.len()
        },
        forall|k: int|
            0 <= k < out.len() ==> cloned(items@[(#[trigger] order@[k]) as int], out@[k]),
{
    let mut out: Vec<T> = Vec::new();
    let mut k: usize = 0;
    while k < order.len() && k < limit
        invariant
            k <= order.len(),
            k <= limit,
            out.len() == k,
            forall|j: int| 0 <= j < order.len() ==> (#[trigger] order[j]) < items.len(),
            forall|j: int| 0 <= j < k ==> cloned(items@[(#[trigger] order@[j]) as int], out@[j]),
        decreases order.len() - k,
    {
        out.push(items[order[k]].clone());
        k = k + 1;
    }
    out
}

/// The first `limit` positions of a ranking are the positions of the
/// first `limit` items as the ranking arranges them.
pub proof fn lemma_top_arranged<T>(items: Seq<T>, order: Seq<usize>, limit: nat)
    requires
        order.len() == items.len(),
    ensures
        arranged(items, top(order, limit)) == top(arranged(items, order), limit),
{
    assert(arranged(items, top(order, limit)) =~= top(arranged(items, order), limit));
}

/// The positions of the `limit` highest keys, highest first, ties in the
/// order of `keys`; the positions of all keys where there are no more
/// than `limit`.
pub fn top_positions<K: RankKey>(keys: &Vec<K>, limit: usize) -> (best: Vec<usize>)
    ensures
        best@ == top(ranking(keys@), limit as nat),
        forall|k: int| 0 <= k < best.len() ==> (#[trigger] best[k]) < keys.len(),
        best.len() <= limit,
        best.len() <= keys.len(),
{
    let mut order = rank_descending(keys);
    let ghost full = order@;
    order.truncate(limit);
    assert(order@ =~= top(full, limit as nat));
    order
}

} // verus!
