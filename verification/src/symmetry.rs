//! The duplicated blocks of two files do not depend on which of the two
//! is searched first, as long as the blocks that the search accepts keep
//! their order in both files; they may depend on it where blocks cross.

use vstd::prelude::*;

use crate::duplicates::{
    common_run, duplicate_blocks, lemma_common_run, lemma_scan_sound, overlap, overlaps_any,
    scan, Block, MIN_BLOCK_SIZE,
};
use crate::seq_util::lemma_map_keeps_multiset;

verus! {

/// The block as the search finds it with the two files exchanged.
pub open spec fn mirrored(x: Block) -> Block {
    Block { start_a: x.start_b, start_b: x.start_a, len: x.len }
}

/// A candidate of the scan: the whole common run at a pair of start
/// offsets, of at least six lines.
pub open spec fn is_candidate(a: Seq<Seq<char>>, b: Seq<Seq<char>>, x: Block) -> bool {
    &&& x.start_a < a.len()
    &&& x.start_b < b.len()
    &&& x.len == common_run(a, x.start_a as int, b, x.start_b as int)
    &&& x.len >= MIN_BLOCK_SIZE
}

/// A candidate that no common line precedes: a common run in its whole
/// length.
pub open spec fn is_maximal(a: Seq<Seq<char>>, b: Seq<Seq<char>>, x: Block) -> bool {
    &&& is_candidate(a, b, x)
    &&& (x.start_a == 0 || x.start_b == 0 || a[x.start_a - 1] != b[x.start_b - 1])
}

/// The common runs of the two files do not cross: candidates that overlap
/// are parts of one run, that is, the offsets of the one differ from
/// those of the other by the same number of lines in both files.
pub open spec fn runs_do_not_cross(a: Seq<Seq<char>>, b: Seq<Seq<char>>) -> bool {
    forall|x: Block, y: Block|
        #![trigger is_candidate(a, b, x), is_candidate(a, b, y)]
        is_candidate(a, b, x) && is_candidate(a, b, y) && overlap(x, y) ==> x.start_a - x.start_b
            == y.start_a - y.start_b
}

/// Whether the scan has been at the start offsets of `x` when it stands
/// at offset `i` of the first file and offset `j` of the second.
pub open spec fn is_behind(x: Block, i: nat, j: nat) -> bool {
    x.start_a < i || (x.start_a == i && x.start_b < j)
}

/// The number of common lines that precede the offsets `i` and `j`.
pub open spec fn common_before(a: Seq<Seq<char>>, i: int, b: Seq<Seq<char>>, j: int) -> nat
    decreases i,
{
    if 0 < i <= a.len() && 0 < j <= b.len() && a[i - 1] == b[j - 1] {
        1 + common_before(a, i - 1, b, j - 1)
    } else {
        0
    }
}

/// The common run of two files at a pair of offsets is the same
/// whichever file is named first.
pub proof fn lemma_run_symmetric(a: Seq<Seq<char>>, i: int, b: Seq<Seq<char>>, j: int)
    ensures
        common_run(a, i, b, j) == common_run(b, j, a, i),
    decreases a.len() - i,
{
    if 0 <= i < a.len() && 0 <= j < b.len() && a[i] == b[j] {
        lemma_run_symmetric(a, i + 1, b, j + 1);
    }
}

proof fn lemma_common_before(a: Seq<Seq<char>>, i: int, b: Seq<Seq<char>>, j: int)
    requires
        0 <= i < a.len(),
        0 <= j < b.len(),
    ensures
        ({
            let t = common_before(a, i, b, j);
            &&& t <= i
            &&& t <= j
            &&& common_run(a, i - t, b, j - t) == common_run(a, i, b, j) + t
            &&& (i - t == 0 || j - t == 0 || a[i - t - 1] != b[j - t - 1])
        }),
    decreases i,
{
    if 0 < i && 0 < j && a[i - 1] == b[j - 1] {
        lemma_common_before(a, i - 1, b, j - 1);
        assert(common_run(a, i - 1, b, j - 1) == 1 + common_run(a, i, b, j));
    }
}

/// Every candidate is part of a maximal one that ends where it ends.
proof fn lemma_maximal_around(a: Seq<Seq<char>>, b: Seq<Seq<char>>, c: Block) -> (h: Block)
    requires
        is_candidate(a, b, c),
        a.len() <= usize::MAX,
        b.len() <= usize::MAX,
    ensures
        is_maximal(a, b, h),
        h.start_a <= c.start_a,
        h.start_a - h.start_b == c.start_a - c.start_b,
        h.start_a + h.len == c.start_a + c.len,
        h.start_a == c.start_a ==> h == c,
{
    let i = c.start_a as int;
    let j = c.start_b as int;
    let t = common_before(a, i, b, j);
    lemma_common_before(a, i, b, j);
    lemma_common_run(a, i, b, j);
    lemma_common_run(a, i - t, b, j - t);
    Block { start_a: (i - t) as usize, start_b: (j - t) as usize, len: (c.len + t) as usize }
}

/// A maximal candidate that begins before another candidate of its run
/// and ends behind the begin of that one is preceded by a common line.
proof fn lemma_inside_run(a: Seq<Seq<char>>, b: Seq<Seq<char>>, y: Block, i: int, j: int)
    requires
        is_candidate(a, b, y),
        y.start_a < i < y.start_a + y.len,
        y.start_a - y.start_b == i - j,
    ensures
        0 < i <= a.len(),
        0 < j <= b.len(),
        a[i - 1] == b[j - 1],
{
    lemma_common_run(a, y.start_a as int, b, y.start_b as int);
    let x = a.subrange(y.start_a as int, y.start_a + y.len);
    let z = b.subrange(y.start_b as int, y.start_b + y.len);
    assert(x[i - 1 - y.start_a] == z[i - 1 - y.start_a]);
}

/// No two maximal common runs of six lines or more share a line in
/// either file.
pub open spec fn maximal_runs_apart(a: Seq<Seq<char>>, b: Seq<Seq<char>>) -> bool {
    forall|x: Block, y: Block|
        #![trigger is_maximal(a, b, x), is_maximal(a, b, y)]
        is_maximal(a, b, x) && is_maximal(a, b, y) && x != y ==> !overlap(x, y)
}

/// Where the maximal common runs stand apart, common runs do not cross.
pub proof fn lemma_apart_runs_do_not_cross(a: Seq<Seq<char>>, b: Seq<Seq<char>>)
    requires
        maximal_runs_apart(a, b),
        a.len() <= usize::MAX,
        b.len() <= usize::MAX,
    ensures
        runs_do_not_cross(a, b),
{
    assert forall|x: Block, y: Block|
        #![trigger is_candidate(a, b, x), is_candidate(a, b, y)]
        is_candidate(a, b, x) && is_candidate(a, b, y) && overlap(x, y) implies x.start_a
        - x.start_b == y.start_a - y.start_b by {
        let hx = lemma_maximal_around(a, b, x);
        let hy = lemma_maximal_around(a, b, y);
        if hx != hy {
            assert(overlap(hx, hy));
        }
    }
}

/// Where the common runs do not cross, the scan accepts exactly the
/// maximal candidates at the offsets that it has been at.
proof fn lemma_scan_accepts_maximal(a: Seq<Seq<char>>, b: Seq<Seq<char>>, i: nat, j: nat)
    requires
        runs_do_not_cross(a, b),
        a.len() <= usize::MAX,
        b.len() <= usize::MAX,
        i < a.len() || (i == a.len() && j == 0),
        j <= b.len(),
    ensures
        forall|x: Block|
            scan(a, b, i, j).contains(x) <==> is_maximal(a, b, x) && is_behind(x, i, j),
    decreases i, j,
{
    if j == 0 {
        if i == 0 {
            assert forall|x: Block|
                scan(a, b, i, j).contains(x) <==> is_maximal(a, b, x) && is_behind(
                    x,
                    i,
                    j,
                ) by {}
        } else {
            lemma_scan_accepts_maximal(a, b, (i - 1) as nat, b.len());
            assert forall|x: Block|
                scan(a, b, i, j).contains(x) <==> is_maximal(a, b, x) && is_behind(
                    x,
                    i,
                    j,
                ) by {
                if is_maximal(a, b, x) {
                    assert(is_behind(x, i, j) <==> is_behind(x, (i - 1) as nat, b.len()));
                }
            }
        }
    } else {
        let jj = (j - 1) as nat;
        lemma_scan_accepts_maximal(a, b, i, jj);
        lemma_common_run(a, i as int, b, jj as int);
        let accepted = scan(a, b, i, jj);
        let c = Block {
            start_a: i as usize,
            start_b: jj as usize,
            len: common_run(a, i as int, b, jj as int) as usize,
        };
        if c.len >= MIN_BLOCK_SIZE {
            assert(is_candidate(a, b, c));
            let h = lemma_maximal_around(a, b, c);
            if is_maximal(a, b, c) {
                if overlaps_any(accepted, c) {
                    let k = choose|k: int| 0 <= k < accepted.len() && overlap(accepted[k], c);
                    let y = accepted[k];
                    assert(accepted.contains(y));
                    assert(is_maximal(a, b, y) && is_behind(y, i, jj));
                    assert(is_candidate(a, b, y));
                    assert(y.start_a - y.start_b == c.start_a - c.start_b);
                    lemma_inside_run(a, b, y, i as int, jj as int);
                    assert(false);
                }
                let after = scan(a, b, i, j);
                assert(after == accepted.push(c));
                assert forall|x: Block| after.contains(x) implies is_maximal(a, b, x)
                    && is_behind(x, i, j) by {
                    let k = choose|k: int| 0 <= k < after.len() && after[k] == x;
                    if k < accepted.len() {
                        assert(accepted[k] == x);
                        assert(accepted.contains(x));
                        assert(is_maximal(a, b, x) && is_behind(x, i, jj));
                    } else {
                        assert(x == c);
                    }
                }
                assert forall|x: Block| is_maximal(a, b, x) && is_behind(x, i, j) implies after.contains(
                    x,
                ) by {
                    if is_behind(x, i, jj) {
                        assert(accepted.contains(x));
                        let k = choose|k: int| 0 <= k < accepted.len() && accepted[k] == x;
                        assert(after[k] == x);
                    } else {
                        assert(x.start_a == c.start_a && x.start_b == c.start_b);
                        assert(x.len == c.len);
                        assert(x == c);
                        assert(after[accepted.len() as int] == x);
                    }
                }
            } else {
                assert(h.start_a < c.start_a);
                assert(is_behind(h, i, jj));
                assert(accepted.contains(h));
                let k = choose|k: int| 0 <= k < accepted.len() && accepted[k] == h;
                assert(overlap(accepted[k], c));
                assert(overlaps_any(accepted, c));
                let after = scan(a, b, i, j);
                assert(after == accepted);
                assert forall|x: Block| after.contains(x) implies is_maximal(a, b, x)
                    && is_behind(x, i, j) by {
                    assert(accepted.contains(x));
                    assert(is_maximal(a, b, x) && is_behind(x, i, jj));
                }
                assert forall|x: Block| is_maximal(a, b, x) && is_behind(x, i, j) implies after.contains(
                    x,
                ) by {
                    if !is_behind(x, i, jj) {
                        assert(x.start_a == c.start_a && x.start_b == c.start_b);
                        assert(x.len == c.len);
                        assert(x == c);
                    }
                    assert(accepted.contains(x));
                }
            }
        } else {
            let after = scan(a, b, i, j);
            assert(after == accepted);
            assert forall|x: Block| after.contains(x) implies is_maximal(a, b, x) && is_behind(
                x,
                i,
                j,
            ) by {
                assert(accepted.contains(x));
                assert(is_maximal(a, b, x) && is_behind(x, i, jj));
            }
            assert forall|x: Block| is_maximal(a, b, x) && is_behind(x, i, j) implies after.contains(
                x,
            ) by {
                if !is_behind(x, i, jj) {
                    assert(x.start_a == c.start_a && x.start_b == c.start_b);
                    assert(x.len == c.len);
                }
                assert(accepted.contains(x));
            }
        }
    }
}

/// Where the common runs of two files do not cross, the duplicated
/// blocks of the two are exactly their maximal common runs of six lines
/// or more.
pub proof fn lemma_blocks_are_maximal_runs(a: Seq<Seq<char>>, b: Seq<Seq<char>>)
    requires
        runs_do_not_cross(a, b),
        a.len() <= usize::MAX,
        b.len() <= usize::MAX,
    ensures
        forall|x: Block| duplicate_blocks(a, b).contains(x) <==> is_maximal(a, b, x),
{
    lemma_scan_accepts_maximal(a, b, a.len(), 0);
}

/// Runs that do not cross do not cross with the files exchanged.
pub proof fn lemma_no_crossing_symmetric(a: Seq<Seq<char>>, b: Seq<Seq<char>>)
    requires
        runs_do_not_cross(a, b),
    ensures
        runs_do_not_cross(b, a),
{
    assert forall|x: Block, y: Block|
        #![trigger is_candidate(b, a, x), is_candidate(b, a, y)]
        is_candidate(b, a, x) && is_candidate(b, a, y) && overlap(x, y) implies x.start_a
        - x.start_b == y.start_a - y.start_b by {
        lemma_run_symmetric(b, x.start_a as int, a, x.start_b as int);
        lemma_run_symmetric(b, y.start_a as int, a, y.start_b as int);
        assert(is_candidate(a, b, mirrored(x)));
        assert(is_candidate(a, b, mirrored(y)));
        assert(overlap(mirrored(x), mirrored(y)));
    }
}

/// Whether two blocks stand in opposite order in the two files: the one
/// before the other in the first file and behind it in the second.
pub open spec fn are_crossed(x: Block, y: Block) -> bool {
    (x.start_a < y.start_a && x.start_b > y.start_b) || (x.start_a > y.start_a && x.start_b
        < y.start_b)
}

/// Every block that the search accepts stands in both files on the same
/// side of every candidate that it overlaps. This holds where common
/// runs do not cross, and also where a block of one file stands several
/// times in the other.
pub open spec fn blocks_keep_order(a: Seq<Seq<char>>, b: Seq<Seq<char>>) -> bool {
    forall|y: Block, x: Block|
        #![trigger duplicate_blocks(a, b).contains(y), is_candidate(a, b, x)]
        duplicate_blocks(a, b).contains(y) && is_candidate(a, b, x) && overlap(y, x)
            ==> !are_crossed(y, x)
}

/// Whether one of the blocks overlaps the candidate and stands before it
/// in the order of the scan.
pub open spec fn is_blocked(blocks: Seq<Block>, x: Block) -> bool {
    exists|k: int|
        0 <= k < blocks.len() && overlap(#[trigger] blocks[k], x) && is_behind(
            blocks[k],
            x.start_a as nat,
            x.start_b as nat,
        )
}

/// The scan accepts candidates only, and it leaves out a candidate only
/// for a block that it has accepted before and that the candidate
/// overlaps.
proof fn lemma_scan_complete(a: Seq<Seq<char>>, b: Seq<Seq<char>>, i: nat, j: nat)
    requires
        a.len() <= usize::MAX,
        b.len() <= usize::MAX,
        i < a.len() || (i == a.len() && j == 0),
        j <= b.len(),
    ensures
        forall|y: Block| #[trigger]
            scan(a, b, i, j).contains(y) ==> is_candidate(a, b, y) && is_behind(y, i, j),
        forall|x: Block| #[trigger]
            is_candidate(a, b, x) && is_behind(x, i, j) ==> scan(a, b, i, j).contains(x)
                || is_blocked(scan(a, b, i, j), x),
    decreases i, j,
{
    let after = scan(a, b, i, j);
    if j == 0 {
        if i > 0 {
            lemma_scan_complete(a, b, (i - 1) as nat, b.len());
            let before = scan(a, b, (i - 1) as nat, b.len());
            assert(after == before);
            assert forall|y: Block| #[trigger] after.contains(y) implies is_candidate(a, b, y)
                && is_behind(y, i, j) by {
                assert(before.contains(y));
                assert(is_candidate(a, b, y) && is_behind(y, (i - 1) as nat, b.len()));
            }
            assert forall|x: Block| #[trigger]
                is_candidate(a, b, x) && is_behind(x, i, j) implies after.contains(x)
                || is_blocked(after, x) by {
                assert(is_behind(x, (i - 1) as nat, b.len()));
            }
        } else {
            assert(after =~= Seq::<Block>::empty());
            assert forall|y: Block| #[trigger] after.contains(y) implies is_candidate(a, b, y)
                && is_behind(y, i, j) by {}
        }
    } else {
        let jj = (j - 1) as nat;
        lemma_scan_complete(a, b, i, jj);
        lemma_common_run(a, i as int, b, jj as int);
        let accepted = scan(a, b, i, jj);
        let c = Block {
            start_a: i as usize,
            start_b: jj as usize,
            len: common_run(a, i as int, b, jj as int) as usize,
        };
        let taken = c.len >= MIN_BLOCK_SIZE && !overlaps_any(accepted, c);
        assert(after == if taken {
            accepted.push(c)
        } else {
            accepted
        });
        assert forall|y: Block| after.contains(y) implies is_candidate(a, b, y) && is_behind(
            y,
            i,
            j,
        ) by {
            let k = choose|k: int| 0 <= k < after.len() && after[k] == y;
            if k < accepted.len() {
                assert(accepted[k] == y);
                assert(accepted.contains(y));
                assert(is_candidate(a, b, y) && is_behind(y, i, jj));
            } else {
                assert(y == c);
                assert(is_candidate(a, b, c));
            }
            assert(is_candidate(a, b, y));
            assert(is_behind(y, i, j));
        }
        assert forall|x: Block| is_candidate(a, b, x) && is_behind(x, i, j) implies after.contains(
            x,
        ) || is_blocked(after, x) by {
            if is_behind(x, i, jj) {
                if accepted.contains(x) {
                    let k = choose|k: int| 0 <= k < accepted.len() && accepted[k] == x;
                    assert(after[k] == x);
                } else {
                    assert(is_blocked(accepted, x));
                    let k = choose|k: int|
                        0 <= k < accepted.len() && overlap(#[trigger] accepted[k], x) && is_behind(
                            accepted[k],
                            x.start_a as nat,
                            x.start_b as nat,
                        );
                    assert(after[k] == accepted[k]);
                }
            } else {
                assert(x == c);
                if taken {
                    assert(after[accepted.len() as int] == x);
                } else {
                    let k = choose|k: int| 0 <= k < accepted.len() && overlap(accepted[k], c);
                    assert(accepted.contains(accepted[k]));
                    assert(is_behind(accepted[k], i, jj));
                    assert(after[k] == accepted[k]);
                }
            }
        }
    }
}

/// Where the accepted blocks keep their order, the search with the files
/// exchanged accepts, at the offsets that it has been at, exactly the
/// blocks of the search as it stands, each with its offsets exchanged.
proof fn lemma_exchanged_scan(a: Seq<Seq<char>>, b: Seq<Seq<char>>, i: nat, j: nat)
    requires
        blocks_keep_order(a, b),
        a.len() <= usize::MAX,
        b.len() <= usize::MAX,
        i < b.len() || (i == b.len() && j == 0),
        j <= a.len(),
    ensures
        forall|m: Block| #[trigger]
            scan(b, a, i, j).contains(m) ==> duplicate_blocks(a, b).contains(mirrored(m))
                && is_behind(m, i, j),
        forall|m: Block|
            #![trigger duplicate_blocks(a, b).contains(mirrored(m))]
            duplicate_blocks(a, b).contains(mirrored(m)) && is_behind(m, i, j) ==> scan(
                b,
                a,
                i,
                j,
            ).contains(m),
    decreases i, j,
{
    let found = duplicate_blocks(a, b);
    let after = scan(b, a, i, j);
    lemma_scan_complete(a, b, a.len(), 0);
    lemma_scan_sound(a, b, a.len(), 0);
    if j == 0 {
        if i > 0 {
            lemma_exchanged_scan(a, b, (i - 1) as nat, a.len());
            let before = scan(b, a, (i - 1) as nat, a.len());
            assert(after == before);
            assert forall|m: Block| #[trigger] after.contains(m) implies found.contains(
                mirrored(m),
            ) && is_behind(m, i, j) by {
                assert(before.contains(m));
                assert(is_behind(m, (i - 1) as nat, a.len()));
            }
            assert forall|m: Block|
                #![trigger found.contains(mirrored(m))]
                found.contains(mirrored(m)) && is_behind(m, i, j) implies after.contains(m) by {
                assert(is_candidate(a, b, mirrored(m)));
                assert(is_behind(m, (i - 1) as nat, a.len()));
                assert(before.contains(m));
            }
        } else {
            assert(after =~= Seq::<Block>::empty());
            assert forall|m: Block| #[trigger] after.contains(m) implies found.contains(
                mirrored(m),
            ) && is_behind(m, i, j) by {}
        }
    } else {
        let jj = (j - 1) as nat;
        lemma_exchanged_scan(a, b, i, jj);
        lemma_common_run(b, i as int, a, jj as int);
        lemma_run_symmetric(b, i as int, a, jj as int);
        let accepted = scan(b, a, i, jj);
        let c = Block {
            start_a: i as usize,
            start_b: jj as usize,
            len: common_run(b, i as int, a, jj as int) as usize,
        };
        let x = mirrored(c);
        let taken = c.len >= MIN_BLOCK_SIZE && !overlaps_any(accepted, c);
        assert(after == if taken {
            accepted.push(c)
        } else {
            accepted
        });
        if c.len >= MIN_BLOCK_SIZE {
            assert(is_candidate(a, b, x));
            assert(is_behind(x, a.len(), 0));
            if found.contains(x) {
                if overlaps_any(accepted, c) {
                    let k = choose|k: int| 0 <= k < accepted.len() && overlap(accepted[k], c);
                    let m = accepted[k];
                    assert(accepted.contains(m));
                    let y = mirrored(m);
                    assert(found.contains(y) && is_behind(m, i, jj));
                    assert(y != x);
                    assert(overlap(y, x));
                    let p = choose|p: int| 0 <= p < found.len() && found[p] == y;
                    let q = choose|q: int| 0 <= q < found.len() && found[q] == x;
                    if p < q {
                        assert(!overlap(found[p], found[q]));
                    } else {
                        assert(!overlap(found[q], found[p]));
                    }
                    assert(false);
                }
                assert(taken);
            } else {
                assert(is_blocked(found, x));
                let k = choose|k: int|
                    0 <= k < found.len() && overlap(#[trigger] found[k], x) && is_behind(
                        found[k],
                        x.start_a as nat,
                        x.start_b as nat,
                    );
                let y = found[k];
                assert(found.contains(y));
                assert(!are_crossed(y, x));
                let m = mirrored(y);
                assert(mirrored(m) == y);
                assert(is_behind(m, i, jj));
                assert(accepted.contains(m));
                let at = choose|at: int| 0 <= at < accepted.len() && accepted[at] == m;
                assert(overlap(accepted[at], c));
                assert(!taken);
            }
        }
        assert forall|m: Block| #[trigger] after.contains(m) implies found.contains(mirrored(m))
            && is_behind(m, i, j) by {
            let k = choose|k: int| 0 <= k < after.len() && after[k] == m;
            if k < accepted.len() {
                assert(accepted[k] == m);
                assert(accepted.contains(m));
                assert(found.contains(mirrored(m)) && is_behind(m, i, jj));
            } else {
                assert(m == c);
                assert(taken);
                assert(found.contains(x));
            }
            assert(found.contains(mirrored(m)));
            assert(is_behind(m, i, j));
        }
        assert forall|m: Block|
            #![trigger found.contains(mirrored(m))]
            found.contains(mirrored(m)) && is_behind(m, i, j) implies after.contains(m) by {
            if is_behind(m, i, jj) {
                assert(accepted.contains(m));
                let k = choose|k: int| 0 <= k < accepted.len() && accepted[k] == m;
                assert(after[k] == m);
            } else {
                assert(is_candidate(a, b, mirrored(m)));
                assert(m.len == c.len);
                assert(m == c);
                assert(taken);
                assert(after[accepted.len() as int] == m);
            }
        }
    }
}

/// Duplicate detection is symmetric where the accepted blocks keep their
/// order: the search finds the same blocks whichever file comes first,
/// each block with its two start offsets exchanged.
///
/// It is not symmetric for every pair of files. Where an accepted block
/// overlaps a candidate that stands before it in one file and behind it
/// in the other, the search meets the two in a different order when the
/// files are exchanged, and may accept the one in place of the other:
/// for the lines `p x1 .. x6` and `x1 .. x6 q p x1 .. x6` it finds one
/// block of seven lines in one order and one of six in the other.
pub proof fn lemma_detection_symmetric(a: Seq<Seq<char>>, b: Seq<Seq<char>>)
    requires
        blocks_keep_order(a, b),
        a.len() <= usize::MAX,
        b.len() <= usize::MAX,
    ensures
        forall|x: Block|
            duplicate_blocks(a, b).contains(x) <==> duplicate_blocks(b, a).contains(mirrored(x)),
{
    lemma_exchanged_scan(a, b, b.len(), 0);
    lemma_scan_complete(a, b, a.len(), 0);
    let one = duplicate_blocks(a, b);
    let other = duplicate_blocks(b, a);
    assert(one == scan(a, b, a.len(), 0));
    assert(other == scan(b, a, b.len(), 0));
    assert forall|x: Block| one.contains(x) <==> other.contains(mirrored(x)) by {
        let m = mirrored(x);
        assert(mirrored(m) == x);
        if one.contains(x) {
            assert(is_candidate(a, b, x));
            assert(is_behind(m, b.len(), 0));
            assert(one.contains(mirrored(m)));
            assert(other.contains(m));
        }
        if other.contains(m) {
            assert(one.contains(mirrored(m)));
        }
    }
}

/// Common runs that do not cross keep the accepted blocks in order: the
/// blocks and the candidates that they overlap are parts of one run.
pub proof fn lemma_uncrossed_runs_keep_order(a: Seq<Seq<char>>, b: Seq<Seq<char>>)
    requires
        runs_do_not_cross(a, b),
        a.len() <= usize::MAX,
        b.len() <= usize::MAX,
    ensures
        blocks_keep_order(a, b),
{
    lemma_scan_complete(a, b, a.len(), 0);
    assert forall|y: Block, x: Block|
        #![trigger duplicate_blocks(a, b).contains(y), is_candidate(a, b, x)]
        duplicate_blocks(a, b).contains(y) && is_candidate(a, b, x) && overlap(y, x) implies !are_crossed(
        y,
        x,
    ) by {
        assert(is_candidate(a, b, y));
    }
}

/// The numbers of lines of the blocks, in their order.
pub open spec fn block_lengths(blocks: Seq<Block>) -> Seq<usize> {
    blocks.map_values(|x: Block| x.len)
}

/// No block is found twice.
proof fn lemma_blocks_distinct(a: Seq<Seq<char>>, b: Seq<Seq<char>>)
    requires
        a.len() <= usize::MAX,
        b.len() <= usize::MAX,
    ensures
        duplicate_blocks(a, b).no_duplicates(),
{
    lemma_scan_sound(a, b, a.len(), 0);
    let s = duplicate_blocks(a, b);
    assert forall|i: int, j: int| 0 <= i < s.len() && 0 <= j < s.len() && i != j implies s[i]
        != s[j] by {
        if s[i] == s[j] {
            assert(overlap(s[i], s[j]));
            if i < j {
                assert(!overlap(s[i], s[j]));
            } else {
                assert(!overlap(s[j], s[i]));
            }
        }
    }
}

/// Duplicate detection is symmetric in what it counts: where the
/// accepted blocks keep their order, the search finds equally many blocks
/// whichever file comes first, and blocks of the same numbers of lines,
/// each number equally often.
pub proof fn lemma_detection_symmetric_in_lengths(a: Seq<Seq<char>>, b: Seq<Seq<char>>)
    requires
        blocks_keep_order(a, b),
        a.len() <= usize::MAX,
        b.len() <= usize::MAX,
    ensures
        duplicate_blocks(a, b).len() == duplicate_blocks(b, a).len(),
        block_lengths(duplicate_blocks(a, b)).to_multiset() == block_lengths(
            duplicate_blocks(b, a),
        ).to_multiset(),
{
    broadcast use vstd::multiset::group_multiset_axioms;

    let one = duplicate_blocks(a, b);
    let other = duplicate_blocks(b, a);
    let turned = one.map_values(|x: Block| mirrored(x));
    lemma_detection_symmetric(a, b);
    lemma_blocks_distinct(a, b);
    lemma_blocks_distinct(b, a);
    assert forall|i: int, j: int|
        0 <= i < turned.len() && 0 <= j < turned.len() && i != j implies turned[i]
        != turned[j] by {
        assert(mirrored(turned[i]) == one[i]);
        assert(mirrored(turned[j]) == one[j]);
    }
    assert forall|x: Block| turned.contains(x) <==> other.contains(x) by {
        if turned.contains(x) {
            let k = choose|k: int| 0 <= k < turned.len() && turned[k] == x;
            assert(one.contains(one[k]));
            assert(mirrored(one[k]) == x);
        }
        if other.contains(x) {
            assert(mirrored(mirrored(x)) == x);
            assert(one.contains(mirrored(x)));
            let k = choose|k: int| 0 <= k < one.len() && one[k] == mirrored(x);
            assert(turned[k] == x);
        }
    }
    turned.to_multiset_ensures();
    other.to_multiset_ensures();
    turned.lemma_multiset_has_no_duplicates();
    other.lemma_multiset_has_no_duplicates();
    assert forall|x: Block| turned.to_multiset().count(x) == other.to_multiset().count(x) by {
        if turned.contains(x) {
            assert(turned.to_multiset().contains(x));
            assert(other.to_multiset().contains(x));
        } else {
            assert(!other.contains(x));
        }
    }
    assert(turned.to_multiset() =~= other.to_multiset());
    lemma_map_keeps_multiset(turned, other, |x: Block| x.len);
    assert(turned.map_values(|x: Block| x.len) =~= block_lengths(one));
}

} // verus!
