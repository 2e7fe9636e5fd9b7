//! Names with counts, in the order in which the names were first met.

use vstd::prelude::*;

use crate::seq_util::{capped, lemma_position_is, position};

verus! {

/// The views of a list of names with their counts.
pub open spec fn count_views(cs: Seq<(String, usize)>) -> Seq<(Seq<char>, usize)> {
    Seq::new(cs.len(), |i: int| (cs[i].0@, cs[i].1))
}

/// The names of a list of names with counts.
pub open spec fn names(cs: Seq<(Seq<char>, usize)>) -> Seq<Seq<char>> {
    Seq::new(cs.len(), |i: int| cs[i].0)
}

/// The counts after one more occurrence of `name`: its count is one
/// higher, saturating; a name that is new stands at the end with the
/// count one.
pub open spec fn count_one(cs: Seq<(Seq<char>, usize)>, name: Seq<char>) -> Seq<
    (Seq<char>, usize),
> {
    let i = position(names(cs), name);
    if i < cs.len() {
        cs.update(i, (cs[i].0, capped(cs[i].1 + 1)))
    } else {
        cs.push((name, 1usize))
    }
}

/// Counts one more occurrence of `name`.
pub fn add_one(cs: &mut Vec<(String, usize)>, name: &String)
    ensures
        count_views(final(cs)@) == count_one(count_views(old(cs)@), name@),
{
    let ghost all = names(count_views(cs@));
    let mut i: usize = 0;
    while i < cs.len()
        invariant
            i <= cs.len(),
            cs@ == old(cs)@,
            all == names(count_views(cs@)),
            forall|j: int| 0 <= j < i ==> all[j] != name@,
        decreases cs.len() - i,
    {
        if cs[i].0 == *name {
            proof {
                assert(all[i as int] == name@);
                lemma_position_is(all, name@, i as int);
            }
            let count: usize = cs[i].1;
            cs[i].1 = count.saturating_add(1);
            assert(count_views(cs@) =~~= count_one(count_views(old(cs)@), name@));
            return ;
        }
        i = i + 1;
    }
    proof {
        lemma_position_is(all, name@, i as int);
    }
    cs.push((name.clone(), 1));
    assert(count_views(cs@) =~~= count_one(count_views(old(cs)@), name@));
}

/// Counting one more occurrence keeps every name in the list once.
pub proof fn lemma_count_one_keeps_names_distinct(cs: Seq<(Seq<char>, usize)>, name: Seq<char>)
    requires
        names(cs).no_duplicates(),
    ensures
        names(count_one(cs, name)).no_duplicates(),
        names(count_one(cs, name)) == if names(cs).contains(name) {
            names(cs)
        } else {
            names(cs).push(name)
        },
{
    crate::seq_util::lemma_position(names(cs), name);
    let i = position(names(cs), name);
    if i < cs.len() {
        assert(names(count_one(cs, name)) =~= names(cs));
    } else {
        assert(names(count_one(cs, name)) =~= names(cs).push(name));
    }
}

} // verus!
