//! Small specifications over sequences that the other modules share.

use vstd::prelude::*;

verus! {

/// `n`, or the largest `usize` where `n` is larger: counters saturate.
pub open spec fn capped(n: int) -> usize {
    if n > usize::MAX {
        usize::MAX
    } else {
        n as usize
    }
}

/// The views of the elements of `s`, in order.
pub open spec fn views<T: View>(s: Seq<T>) -> Seq<T::V> {
    Seq::new(s.len(), |i: int| s[i]@)
}

/// The least index at which `s` holds `key`; `s.len()` where it holds it
/// nowhere.
pub open spec fn position<T>(s: Seq<T>, key: T) -> int
    decreases s.len(),
{
    if s.len() == 0 {
        0
    } else if s[0] == key {
        0
    } else {
        1 + position(s.drop_first(), key)
    }
}

/// `position` is the first index at which the key stands.
pub proof fn lemma_position<T>(s: Seq<T>, key: T)
    ensures
        0 <= position(s, key) <= s.len(),
        position(s, key) < s.len() ==> s[position(s, key)] == key,
        forall|j: int| 0 <= j < position(s, key) ==> s[j] != key,
        position(s, key) == s.len() <==> !s.contains(key),
    decreases s.len(),
{
    if s.len() == 0 {
    } else if s[0] == key {
        assert(s.contains(key));
    } else {
        let rest = s.drop_first();
        lemma_position(rest, key);
        let p = position(rest, key);
        assert forall|j: int| 0 <= j < p + 1 implies s[j] != key by {
            if j > 0 {
                assert(rest[j - 1] == s[j]);
            }
        }
        if p < rest.len() {
            assert(rest[p] == s[p + 1]);
            assert(s.contains(key));
        } else {
            if s.contains(key) {
                let j = choose|j: int| 0 <= j < s.len() && s[j] == key;
                assert(rest[j - 1] == key);
                assert(rest.contains(key));
            }
        }
    }
}

/// An index that holds the key and has no earlier one that does is the
/// key's position; so is the length when no index holds it.
pub proof fn lemma_position_is<T>(s: Seq<T>, key: T, i: int)
    requires
        0 <= i <= s.len(),
        forall|j: int| 0 <= j < i ==> s[j] != key,
        i < s.len() ==> s[i] == key,
    ensures
        position(s, key) == i,
{
    lemma_position(s, key);
    let p = position(s, key);
    if p < i {
        assert(s[p] == key);
    } else if p > i {
        assert(s[i] != key);
    }
}

/// Two sequences that hold the same elements equally often still do so
/// when a function is applied to every element.
pub proof fn lemma_map_keeps_multiset<A, B>(s: Seq<A>, t: Seq<A>, f: spec_fn(A) -> B)
    requires
        s.to_multiset() == t.to_multiset(),
    ensures
        s.map_values(f).to_multiset() == t.map_values(f).to_multiset(),
    decreases s.len(),
{
    broadcast use vstd::seq_lib::group_to_multiset_ensures;
    broadcast use vstd::multiset::group_multiset_axioms;

    s.to_multiset_ensures();
    t.to_multiset_ensures();
    if s.len() == 0 {
        assert(t.len() == 0);
        assert(s.map_values(f) =~= t.map_values(f));
    } else {
        let last = s.last();
        let rest = s.drop_last();
        assert(rest.push(last) =~= s);
        rest.to_multiset_ensures();
        assert(s.to_multiset().count(last) > 0);
        assert(t.contains(last));
        let k = choose|k: int| 0 <= k < t.len() && t[k] == last;
        let others = t.remove(k);
        assert(others.to_multiset() =~= t.to_multiset().remove(last));
        assert(rest.to_multiset() =~= s.to_multiset().remove(last));
        lemma_map_keeps_multiset(rest, others, f);
        let ms = s.map_values(f);
        let mt = t.map_values(f);
        assert(ms =~= rest.map_values(f).push(f(last)));
        assert(others.map_values(f) =~= mt.remove(k));
        rest.map_values(f).to_multiset_ensures();
        mt.to_multiset_ensures();
        assert(mt.remove(k).to_multiset() =~= mt.to_multiset().remove(f(last)));
        assert(mt.to_multiset().count(f(last)) > 0);
        assert(ms.to_multiset() =~= mt.to_multiset());
    }
}

} // verus!
