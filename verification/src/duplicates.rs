//! Detection of duplicated blocks: runs of at least six lines that two
//! files share, line for line, found by a scan over all pairs of start
//! offsets that accepts a run only where it overlaps no run accepted
//! before it.

use vstd::prelude::*;

use crate::analyzer::{DuplicateCode, DuplicateCodeView, RepositoryAnalysis, RepositoryAnalysisView};
use crate::complexity::same_text;
use crate::corpus::{extension_key, extension_of, SourceFile, SourceFileView};
use crate::ranking::{arranged, lemma_ranking, lemma_top_arranged, ranking, top_positions, top_ranked};
use crate::ratio::Ratio;
use crate::seq_util::{lemma_position, lemma_position_is, position, views};
use crate::text::{has_prefix, lines, split_lines, starts_with, text_chars, trim, trimmed};

verus! {

/// The least number of lines that a duplicated block has.
pub const MIN_BLOCK_SIZE: usize = 6;

/// A run of `len` lines that stands in the first file from line
/// `start_a` on and in the second from line `start_b` on.
#[derive(Clone, Copy, Debug, PartialEq, Eq, Structural)]
pub struct Block {
    pub start_a: usize,
    pub start_b: usize,
    pub len: usize,
}

/// The number of lines that `a` from `i` on and `b` from `j` on have in
/// common before they first differ or one of them ends.
pub open spec fn common_run(a: Seq<Seq<char>>, i: int, b: Seq<Seq<char>>, j: int) -> nat
    decreases a.len() - i,
{
    if 0 <= i < a.len() && 0 <= j < b.len() && a[i] == b[j] {
        1 + common_run(a, i + 1, b, j + 1)
    } else {
        0
    }
}

/// Whether the line ranges `[s, s + n)` and `[t, t + m)` share a line.
pub open spec fn ranges_overlap(s: int, n: int, t: int, m: int) -> bool {
    s < t + m && t < s + n
}

/// Whether two blocks share a line in the first file or in the second.
pub open spec fn overlap(x: Block, y: Block) -> bool {
    ranges_overlap(x.start_a as int, x.len as int, y.start_a as int, y.len as int)
        || ranges_overlap(x.start_b as int, x.len as int, y.start_b as int, y.len as int)
}

/// Whether `candidate` overlaps one of `blocks`.
pub open spec fn overlaps_any(blocks: Seq<Block>, candidate: Block) -> bool {
    exists|k: int| 0 <= k < blocks.len() && overlap(#[trigger] blocks[k], candidate)
}

/// The blocks accepted after the scan has gone through every start offset
/// of `a` below `i` with every start offset of `b`, and through offset
/// `i` of `a` with the offsets of `b` below `j`. The run at a pair of
/// offsets is a candidate if it has at least six lines; a candidate is
/// accepted if it overlaps no block accepted before it.
pub open spec fn scan(a: Seq<Seq<char>>, b: Seq<Seq<char>>, i: nat, j: nat) -> Seq<Block>
    decreases i, j,
{
    if j == 0 {
        if i == 0 {
            seq![]
        } else {
            scan(a, b, (i - 1) as nat, b.len())
        }
    } else {
        let accepted = scan(a, b, i, (j - 1) as nat);
        let candidate = Block {
            start_a: i as usize,
            start_b: (j - 1) as usize,
            len: common_run(a, i as int, b, j - 1) as usize,
        };
        if candidate.len >= MIN_BLOCK_SIZE && !overlaps_any(accepted, candidate) {
            accepted.push(candidate)
        } else {
            accepted
        }
    }
}

/// The duplicated blocks of two files, in the order in which the scan
/// accepts them.
pub open spec fn duplicate_blocks(a: Seq<Seq<char>>, b: Seq<Seq<char>>) -> Seq<Block> {
    scan(a, b, a.len(), 0)
}

/// A block is a true duplicate: its lines lie within both files, they
/// are at least six, and they are the whole common run at its offsets.
pub open spec fn is_duplicate(a: Seq<Seq<char>>, b: Seq<Seq<char>>, x: Block) -> bool {
    &&& x.len >= MIN_BLOCK_SIZE
    &&& x.start_a + x.len <= a.len()
    &&& x.start_b + x.len <= b.len()
    &&& x.len == common_run(a, x.start_a as int, b, x.start_b as int)
    &&& a.subrange(x.start_a as int, x.start_a + x.len) == b.subrange(
        x.start_b as int,
        x.start_b + x.len,
    )
}

/// No two of the blocks overlap.
pub open spec fn pairwise_disjoint(blocks: Seq<Block>) -> bool {
    forall|x: int, y: int| 0 <= x < y < blocks.len() ==> !overlap(blocks[x], blocks[y])
}

/// A common run stays within both files, and its lines agree.
pub proof fn lemma_common_run(a: Seq<Seq<char>>, i: int, b: Seq<Seq<char>>, j: int)
    requires
        0 <= i <= a.len(),
        0 <= j <= b.len(),
    ensures
        i + common_run(a, i, b, j) <= a.len(),
        j + common_run(a, i, b, j) <= b.len(),
        a.subrange(i, i + common_run(a, i, b, j)) == b.subrange(j, j + common_run(a, i, b, j)),
    decreases a.len() - i,
{
    let n = common_run(a, i, b, j);
    let x = a.subrange(i, i + n);
    let y = b.subrange(j, j + n);
    if i < a.len() && j < b.len() && a[i] == b[j] {
        lemma_common_run(a, i + 1, b, j + 1);
        let xs = a.subrange(i + 1, i + n);
        let ys = b.subrange(j + 1, j + n);
        assert forall|k: int| 0 <= k < n implies x[k] == y[k] by {
            if k > 0 {
                assert(xs[k - 1] == ys[k - 1]);
            }
        }
    }
    assert(x =~= y);
}

/// Whatever the two files hold, every block that the scan accepts is a
/// true duplicate, and no two accepted blocks overlap in either file.
pub proof fn lemma_scan_sound(a: Seq<Seq<char>>, b: Seq<Seq<char>>, i: nat, j: nat)
    requires
        i < a.len() || (i == a.len() && j == 0),
        j <= b.len(),
        a.len() <= usize::MAX,
        b.len() <= usize::MAX,
    ensures
        pairwise_disjoint(scan(a, b, i, j)),
        forall|k: int| 0 <= k < scan(a, b, i, j).len() ==> is_duplicate(a, b, #[trigger] scan(a, b, i, j)[k]),
    decreases i, j,
{
    if j == 0 {
        if i > 0 {
            lemma_scan_sound(a, b, (i - 1) as nat, b.len());
        }
    } else {
        lemma_scan_sound(a, b, i, (j - 1) as nat);
        lemma_common_run(a, i as int, b, j - 1);
    }
}

/// Whatever two files hold: every duplicated block of the two is a true
/// duplicate, and no two of their blocks overlap in either file.
pub proof fn lemma_blocks_sound(a: Seq<Seq<char>>, b: Seq<Seq<char>>)
    requires
        a.len() <= usize::MAX,
        b.len() <= usize::MAX,
    ensures
        pairwise_disjoint(duplicate_blocks(a, b)),
        forall|k: int|
            0 <= k < duplicate_blocks(a, b).len() ==> is_duplicate(
                a,
                b,
                #[trigger] duplicate_blocks(a, b)[k],
            ),
{
    lemma_scan_sound(a, b, a.len(), 0);
}

/// Whether two lines hold the same characters.
pub fn same_line(x: &Vec<char>, y: &Vec<char>) -> (same: bool)
    ensures
        same == (x@ == y@),
{
    if x.len() != y.len() {
        return false;
    }
    let mut i: usize = 0;
    while i < x.len()
        invariant
            i <= x.len(),
            x.len() == y.len(),
            forall|k: int| 0 <= k < i ==> x@[k] == y@[k],
        decreases x.len() - i,
    {
        if x[i] != y[i] {
            return false;
        }
        i = i + 1;
    }
    assert(x@ =~= y@);
    true
}

/// The length of the common run of `a` from `i` and `b` from `j`.
pub fn run_length(a: &Vec<Vec<char>>, i: usize, b: &Vec<Vec<char>>, j: usize) -> (n: usize)
    ensures
        n == common_run(views(a@), i as int, views(b@), j as int),
        i <= a.len() && j <= b.len() ==> i + n <= a.len() && j + n <= b.len(),
{
    if i >= a.len() || j >= b.len() {
        return 0;
    }
    let mut n: usize = 0;
    while i + n < a.len() && j + n < b.len() && same_line(&a[i + n], &b[j + n])
        invariant
            i + n <= a.len(),
            j + n <= b.len(),
            n + common_run(views(a@), i + n, views(b@), j + n) == common_run(
                views(a@),
                i as int,
                views(b@),
                j as int,
            ),
        decreases a.len() - i - n,
    {
        n = n + 1;
    }
    n
}

/// Whether the candidate overlaps one of the blocks.
pub fn overlaps_accepted(blocks: &Vec<Block>, candidate: &Block) -> (b: bool)
    ensures
        b == overlaps_any(blocks@, *candidate),
{
    let mut k: usize = 0;
    while k < blocks.len()
        invariant
            k <= blocks.len(),
            forall|m: int| 0 <= m < k ==> !overlap(#[trigger] blocks@[m], *candidate),
        decreases blocks.len() - k,
    {
        let x = &blocks[k];
        let in_a = (x.start_a as u128) < candidate.start_a as u128 + candidate.len as u128
            && (candidate.start_a as u128) < x.start_a as u128 + x.len as u128;
        let in_b = (x.start_b as u128) < candidate.start_b as u128 + candidate.len as u128
            && (candidate.start_b as u128) < x.start_b as u128 + x.len as u128;
        if in_a || in_b {
            assert(overlap(blocks@[k as int], *candidate));
            return true;
        }
        k = k + 1;
    }
    false
}

/// The duplicated blocks of two files, given as their lines.
pub fn find_duplicate_blocks(a: &Vec<Vec<char>>, b: &Vec<Vec<char>>) -> (blocks: Vec<Block>)
    ensures
        blocks@ == duplicate_blocks(views(a@), views(b@)),
        pairwise_disjoint(blocks@),
        forall|k: int|
            0 <= k < blocks.len() ==> is_duplicate(views(a@), views(b@), #[trigger] blocks@[k]),
{
    let ghost la = views(a@);
    let ghost lb = views(b@);
    let mut blocks: Vec<Block> = Vec::new();
    let mut i: usize = 0;
    while i < a.len()
        invariant
            i <= a.len(),
            la == views(a@),
            lb == views(b@),
            blocks@ == scan(la, lb, i as nat, 0),
        decreases a.len() - i,
    {
        let mut j: usize = 0;
        while j < b.len()
            invariant
                i < a.len(),
                j <= b.len(),
                la == views(a@),
                lb == views(b@),
                blocks@ == scan(la, lb, i as nat, j as nat),
            decreases b.len() - j,
        {
            let len = run_length(a, i, b, j);
            let candidate = Block { start_a: i, start_b: j, len };
            proof {
                lemma_scan_sound(la, lb, i as nat, j as nat);
            }
            if len >= MIN_BLOCK_SIZE && !overlaps_accepted(&blocks, &candidate) {
                blocks.push(candidate);
            }
            j = j + 1;
        }
        i = i + 1;
    }
    proof {
        assert(la.len() == a.len() && lb.len() == b.len());
        lemma_scan_sound(la, lb, a.len() as nat, 0);
    }
    blocks
}

/// How many duplicated blocks a report keeps.
pub const KEPT: usize = 10;

/// Whether files with the extension `ext`, in lower case, are searched
/// for duplicated blocks.
pub open spec fn is_source_extension(ext: Seq<char>) -> bool {
    ext == "rs"@ || ext == "js"@ || ext == "ts"@ || ext == "py"@ || ext == "java"@ || ext == "c"@
        || ext == "cpp"@ || ext == "go"@ || ext == "cs"@
}

/// Whether a trimmed line takes part in the search: it is not empty and
/// does not begin as a comment of one line.
pub open spec fn is_kept(line: Seq<char>) -> bool {
    line.len() > 0 && !starts_with(line, "//"@) && !starts_with(line, "#"@)
}

/// The lines that take part in the search, trimmed.
pub open spec fn cleaned(all: Seq<Seq<char>>) -> Seq<Seq<char>>
    decreases all.len(),
{
    if all.len() == 0 {
        seq![]
    } else {
        let before = cleaned(all.drop_last());
        let line = trimmed(all.last());
        if is_kept(line) {
            before.push(line)
        } else {
            before
        }
    }
}

/// Whether a file is searched: it has an extension of a source language
/// and text that could be read.
pub open spec fn is_searched(f: SourceFileView) -> bool {
    f.extension is Some && is_source_extension(extension_key(f)) && f.content is Some
}

/// The paths of searched files, in their order.
pub open spec fn entry_paths(e: Seq<(Seq<char>, Seq<Seq<char>>)>) -> Seq<Seq<char>> {
    Seq::new(e.len(), |i: int| e[i].0)
}

/// The searched files with one more: a file of a new path stands at the
/// end; the text of a file whose path stands there already takes the
/// place of the text held for that path, so that every path stands once.
pub open spec fn with_searched(
    e: Seq<(Seq<char>, Seq<Seq<char>>)>,
    path: Seq<char>,
    text: Seq<Seq<char>>,
) -> Seq<(Seq<char>, Seq<Seq<char>>)> {
    let i = position(entry_paths(e), path);
    if i < e.len() {
        e.update(i, (path, text))
    } else {
        e.push((path, text))
    }
}

/// The files that are searched among the first `n`, each with its path
/// and its cleaned lines, every path once.
pub open spec fn searched(files: Seq<SourceFileView>, n: nat) -> Seq<(Seq<char>, Seq<Seq<char>>)>
    decreases n,
{
    if n == 0 {
        seq![]
    } else {
        let before = searched(files, (n - 1) as nat);
        let f = files[n - 1];
        if is_searched(f) {
            with_searched(before, f.path, cleaned(lines(f.content->0)))
        } else {
            before
        }
    }
}

/// Whatever the files: no path stands twice among the searched files.
pub proof fn lemma_searched_paths_once(files: Seq<SourceFileView>, n: nat)
    ensures
        entry_paths(searched(files, n)).no_duplicates(),
    decreases n,
{
    if n > 0 {
        lemma_searched_paths_once(files, (n - 1) as nat);
        let before = searched(files, (n - 1) as nat);
        let f = files[n - 1];
        if is_searched(f) {
            let text = cleaned(lines(f.content->0));
            lemma_position(entry_paths(before), f.path);
            let i = position(entry_paths(before), f.path);
            if i < before.len() {
                assert(entry_paths(with_searched(before, f.path, text)) =~= entry_paths(before));
            } else {
                assert(entry_paths(with_searched(before, f.path, text)) =~= entry_paths(
                    before,
                ).push(f.path));
            }
        }
    }
}

/// The entry of the block at position `k` among the blocks of the
/// searched files at the positions `x` and `y`.
pub open spec fn entry_at(e: Seq<(Seq<char>, Seq<Seq<char>>)>, x: int, y: int, k: int) -> DuplicateCodeView {
    entries(e[x].0, e[y].0, duplicate_blocks(e[x].1, e[y].1))[k]
}

/// Whether `d` is the entry of a duplicated block of two of the searched
/// files, the earlier of the two first.
pub open spec fn is_entry_of(e: Seq<(Seq<char>, Seq<Seq<char>>)>, d: DuplicateCodeView) -> bool {
    exists|x: int, y: int, k: int|
        0 <= x < y < e.len() && 0 <= k < duplicate_blocks(e[x].1, e[y].1).len() && #[trigger] entry_at(
            e,
            x,
            y,
            k,
        ) == d
}

/// Where two files are searched, every entry names the two, the earlier
/// first.
pub proof fn lemma_entry_of_two(e: Seq<(Seq<char>, Seq<Seq<char>>)>, d: DuplicateCodeView)
    requires
        e.len() == 2,
        is_entry_of(e, d),
    ensures
        d.files == seq![e[0].0, e[1].0],
        d.similarity == Ratio::whole_spec(1),
{
    let (x, y, k) = choose|x: int, y: int, k: int|
        0 <= x < y < e.len() && 0 <= k < duplicate_blocks(e[x].1, e[y].1).len() && #[trigger] entry_at(
            e,
            x,
            y,
            k,
        ) == d;
    assert(x == 0 && y == 1);
}

/// What a report holds of a duplicated block: it is a block of two of
/// the searched files, named in their order and different from one
/// another; the copies are alike in full; and the block has six lines or
/// more.
pub open spec fn is_report_entry(e: Seq<(Seq<char>, Seq<Seq<char>>)>, d: DuplicateCodeView) -> bool {
    &&& is_entry_of(e, d)
    &&& d.files.len() == 2
    &&& d.files[0] != d.files[1]
    &&& d.similarity == Ratio::whole_spec(1)
    &&& d.line_count >= MIN_BLOCK_SIZE
}

/// Every entry of the pool is the entry of a block of two searched files.
pub proof fn lemma_pooled_entries(e: Seq<(Seq<char>, Seq<Seq<char>>)>, i: nat, j: nat)
    requires
        i < e.len() && i < j <= e.len() || i == e.len() && j == i + 1,
    ensures
        forall|m: int|
            0 <= m < pooled(e, i, j).len() ==> is_entry_of(e, #[trigger] pooled(e, i, j)[m]),
    decreases i, j,
{
    if j <= i + 1 {
        if i > 0 {
            lemma_pooled_entries(e, (i - 1) as nat, e.len());
            assert(pooled(e, i, j) == pooled(e, (i - 1) as nat, e.len()));
        } else {
            assert(pooled(e, i, j) =~= Seq::<DuplicateCodeView>::empty());
        }
    } else {
        lemma_pooled_entries(e, i, (j - 1) as nat);
        let before = pooled(e, i, (j - 1) as nat);
        assert(pooled(e, i, j) == before + entries(
            e[i as int].0,
            e[j - 1].0,
            duplicate_blocks(e[i as int].1, e[j - 1].1),
        ));
        let blocks = duplicate_blocks(e[i as int].1, e[j - 1].1);
        let added = entries(e[i as int].0, e[j - 1].0, blocks);
        assert forall|m: int| 0 <= m < pooled(e, i, j).len() implies is_entry_of(
            e,
            #[trigger] pooled(e, i, j)[m],
        ) by {
            if m >= before.len() {
                let k = m - before.len();
                assert(pooled(e, i, j)[m] == added[k]);
                assert(entry_at(e, i as int, j - 1, k) == added[k]);
            } else {
                assert(pooled(e, i, j)[m] == before[m]);
            }
        }
    }
}

/// What holds of every entry of a block of two searched files: it names
/// the two files, the copies are alike in full, and the block has six
/// lines or more; and it names two different files where every path
/// stands once.
pub proof fn lemma_entry(e: Seq<(Seq<char>, Seq<Seq<char>>)>, d: DuplicateCodeView)
    requires
        is_entry_of(e, d),
        forall|i: int| 0 <= i < e.len() ==> (#[trigger] e[i]).1.len() <= usize::MAX,
    ensures
        d.files.len() == 2,
        entry_paths(e).contains(d.files[0]),
        entry_paths(e).contains(d.files[1]),
        d.similarity == Ratio::whole_spec(1),
        d.line_count >= MIN_BLOCK_SIZE,
        entry_paths(e).no_duplicates() ==> d.files[0] != d.files[1],
{
    let (x, y, k) = choose|x: int, y: int, k: int|
        0 <= x < y < e.len() && 0 <= k < duplicate_blocks(e[x].1, e[y].1).len() && #[trigger] entry_at(
            e,
            x,
            y,
            k,
        ) == d;
    lemma_blocks_sound(e[x].1, e[y].1);
    assert(entry_paths(e)[x] == d.files[0]);
    assert(entry_paths(e)[y] == d.files[1]);
}

/// The blocks of a pair of files as entries of a report.
pub open spec fn entries(a: Seq<char>, b: Seq<char>, blocks: Seq<Block>) -> Seq<DuplicateCodeView> {
    Seq::new(
        blocks.len(),
        |k: int|
            DuplicateCodeView {
                files: seq![a, b],
                line_count: blocks[k].len,
                similarity: Ratio::whole_spec(1),
            },
    )
}

/// The entries of all pairs of files whose first file stands below
/// position `i`, and of the pairs of the file at `i` with the files
/// between it and position `j`; each pair with the earlier file first.
pub open spec fn pooled(e: Seq<(Seq<char>, Seq<Seq<char>>)>, i: nat, j: nat) -> Seq<
    DuplicateCodeView,
>
    decreases i, j,
{
    if j <= i + 1 {
        if i == 0 {
            seq![]
        } else {
            pooled(e, (i - 1) as nat, e.len())
        }
    } else {
        pooled(e, i, (j - 1) as nat) + entries(
            e[i as int].0,
            e[j - 1].0,
            duplicate_blocks(e[i as int].1, e[j - 1].1),
        )
    }
}

/// The entries of all pairs of files.
pub open spec fn all_entries(e: Seq<(Seq<char>, Seq<Seq<char>>)>) -> Seq<DuplicateCodeView> {
    pooled(e, e.len(), e.len() + 1)
}

/// The line counts of the entries.
pub open spec fn line_counts(d: Seq<DuplicateCodeView>) -> Seq<usize> {
    Seq::new(d.len(), |k: int| d[k].line_count)
}

/// The views of files with their lines.
pub open spec fn searched_views(e: Seq<(String, Vec<Vec<char>>)>) -> Seq<
    (Seq<char>, Seq<Seq<char>>),
> {
    Seq::new(e.len(), |k: int| (e[k].0@, views(e[k].1@)))
}

/// The lines of `content` that take part in the search, trimmed.
pub fn clean_lines(content: &str) -> (out: Vec<Vec<char>>)
    ensures
        views(out@) == cleaned(lines(content@)),
{
    let chars = text_chars(content);
    let all = split_lines(&chars);
    let slashes = text_chars("//");
    let hash = text_chars("#");
    let mut out: Vec<Vec<char>> = Vec::new();
    let mut i: usize = 0;
    assert(views(out@) =~= cleaned(views(all@).take(0)));
    while i < all.len()
        invariant
            i <= all.len(),
            slashes@ == "//"@,
            hash@ == "#"@,
            views(out@) == cleaned(views(all@).take(i as int)),
        decreases all.len() - i,
    {
        proof {
            let next = views(all@).take(i as int + 1);
            assert(next.drop_last() =~= views(all@).take(i as int));
            assert(next.last() == all@[i as int]@);
        }
        let ghost before = views(out@);
        let line = trim(&all[i]);
        if line.len() > 0 && !has_prefix(&line, &slashes) && !has_prefix(&line, &hash) {
            out.push(line);
            assert(views(out@) =~= before.push(trimmed(all@[i as int]@)));
        }
        i = i + 1;
    }
    assert(views(all@).take(all.len() as int) =~= views(all@));
    out
}

/// Whether files with the extension `ext` are searched.
pub fn searches_extension(ext: &str) -> (b: bool)
    ensures
        b == is_source_extension(ext@),
{
    same_text(ext, "rs") || same_text(ext, "js") || same_text(ext, "ts") || same_text(ext, "py")
        || same_text(ext, "java") || same_text(ext, "c") || same_text(ext, "cpp") || same_text(
        ext,
        "go",
    ) || same_text(ext, "cs")
}

impl Clone for DuplicateCode {
    fn clone(&self) -> (r: Self)
        ensures
            r@ == self@,
    {
        let mut files: Vec<String> = Vec::new();
        let mut i: usize = 0;
        while i < self.files.len()
            invariant
                i <= self.files.len(),
                views(files@) == views(self.files@).take(i as int),
            decreases self.files.len() - i,
        {
            let ghost before = views(files@);
            let path: String = self.files[i].clone();
            files.push(path);
            assert(views(files@) =~= before.push(self.files@[i as int]@));
            assert(views(files@) =~= views(self.files@).take(i as int + 1));
            i = i + 1;
        }
        assert(views(files@) =~= views(self.files@));
        DuplicateCode { files, line_count: self.line_count, similarity: self.similarity }
    }
}

/// The position of the searched file of the path `path`; the number of
/// searched files where there is none.
fn find_searched(texts: &Vec<(String, Vec<Vec<char>>)>, path: &String) -> (i: usize)
    ensures
        i == position(entry_paths(searched_views(texts@)), path@),
        i <= texts.len(),
{
    let ghost ps = entry_paths(searched_views(texts@));
    let mut i: usize = 0;
    while i < texts.len()
        invariant
            i <= texts.len(),
            ps == entry_paths(searched_views(texts@)),
            forall|j: int| 0 <= j < i ==> ps[j] != path@,
        decreases texts.len() - i,
    {
        if texts[i].0 == *path {
            proof {
                assert(ps[i as int] == path@);
                lemma_position_is(ps, path@, i as int);
            }
            return i;
        }
        i = i + 1;
    }
    proof {
        lemma_position_is(ps, path@, i as int);
    }
    i
}

/// Searches the files of the tree for duplicated blocks: every pair of
/// two searched files, the earlier file first. Returns the ten longest
/// blocks, longest first, blocks of one length in the order in which they
/// were found.
pub fn find_duplicates(files: &Vec<SourceFile>) -> (out: Vec<DuplicateCode>)
    ensures
        ({
            let all = all_entries(searched(views(files@), files@.len()));
            views(out@) == top_ranked(all, line_counts(all), KEPT as nat)
        }),
        forall|k: int|
            0 <= k < out@.len() ==> is_report_entry(
                searched(views(files@), files@.len()),
                (#[trigger] out@[k])@,
            ),
{
    let mut texts: Vec<(String, Vec<Vec<char>>)> = Vec::new();
    let mut i: usize = 0;
    while i < files.len()
        invariant
            i <= files.len(),
            searched_views(texts@) == searched(views(files@), i as nat),
        decreases files.len() - i,
    {
        let file = &files[i];
        assert(views(files@)[i as int] == file@);
        let ghost before = searched_views(texts@);
        if file.extension.is_some() {
            let ext = extension_of(file);
            if searches_extension(ext.as_str()) {
                match &file.content {
                    Some(text) => {
                        let kept = clean_lines(text.as_str());
                        let ghost kept_lines = views(kept@);
                        let at = find_searched(&texts, &file.path);
                        proof {
                            lemma_position(entry_paths(before), file@.path);
                        }
                        if at < texts.len() {
                            texts[at].1 = kept;
                            assert(searched_views(texts@)[at as int] == (file@.path, kept_lines));
                            assert(searched_views(texts@) =~= before.update(
                                at as int,
                                (file@.path, kept_lines),
                            ));
                        } else {
                            texts.push((file.path.clone(), kept));
                            assert(searched_views(texts@) =~= before.push(
                                (file@.path, kept_lines),
                            ));
                        }
                    },
                    None => {},
                }
            }
        }
        i = i + 1;
    }
    let ghost e = searched_views(texts@);
    let n: usize = texts.len();
    let mut found: Vec<DuplicateCode> = Vec::new();
    let mut i: usize = 0;
    assert(views(found@) =~= pooled(e, 0, 1));
    while i < n
        invariant
            i <= n,
            n == texts.len(),
            e == searched_views(texts@),
            views(found@) == pooled(e, i as nat, (i + 1) as nat),
        decreases n - i,
    {
        let mut j: usize = i + 1;
        while j < n
            invariant
                i < j <= n,
                n == texts.len(),
                e == searched_views(texts@),
                views(found@) == pooled(e, i as nat, j as nat),
            decreases n - j,
        {
            let blocks = find_duplicate_blocks(&texts[i].1, &texts[j].1);
            let ghost start = views(found@);
            let ghost pair = entries(e[i as int].0, e[j as int].0, blocks@);
            let mut k: usize = 0;
            while k < blocks.len()
                invariant
                    k <= blocks.len(),
                    i < j < n,
                    n == texts.len(),
                    e == searched_views(texts@),
                    pair == entries(e[i as int].0, e[j as int].0, blocks@),
                    views(found@) == start + pair.take(k as int),
                decreases blocks.len() - k,
            {
                let mut paths: Vec<String> = Vec::new();
                paths.push(texts[i].0.clone());
                paths.push(texts[j].0.clone());
                assert(views(paths@) =~= seq![e[i as int].0, e[j as int].0]);
                let ghost before = views(found@);
                found.push(
                    DuplicateCode {
                        files: paths,
                        line_count: blocks[k].len,
                        similarity: Ratio::whole(1),
                    },
                );
                assert(views(found@) =~= before.push(pair[k as int]));
                assert(pair.take(k as int + 1) =~= pair.take(k as int).push(pair[k as int]));
                assert(before.push(pair[k as int]) =~= start + pair.take(k as int + 1));
                k = k + 1;
            }
            assert(pair.take(blocks.len() as int) =~= pair);
            assert(e[i as int].1 == views(texts@[i as int].1@));
            assert(e[j as int].1 == views(texts@[j as int].1@));
            j = j + 1;
        }
        i = i + 1;
    }
    let ghost all = all_entries(e);
    assert(views(found@) == all);
    let mut keys: Vec<usize> = Vec::new();
    let mut k: usize = 0;
    while k < found.len()
        invariant
            k <= found.len(),
            keys@ == line_counts(views(found@)).take(k as int),
        decreases found.len() - k,
    {
        keys.push(found[k].line_count);
        assert(keys@ =~= line_counts(views(found@)).take(k as int + 1));
        k = k + 1;
    }
    assert(keys@ =~= line_counts(views(found@)));
    let best = top_positions(&keys, KEPT);
    let mut out: Vec<DuplicateCode> = Vec::new();
    let mut j: usize = 0;
    while j < best.len()
        invariant
            j <= best.len(),
            forall|k: int| 0 <= k < best.len() ==> (#[trigger] best[k]) < found.len(),
            views(out@) == arranged(views(found@), best@).take(j as int),
        decreases best.len() - j,
    {
        let ghost before = views(out@);
        let ghost listed = arranged(views(found@), best@);
        out.push(found[best[j]].clone());
        assert(views(out@) =~= before.push(listed[j as int]));
        assert(listed.take(j as int + 1) =~= listed.take(j as int).push(listed[j as int]));
        j = j + 1;
    }
    proof {
        assert(views(out@) =~= arranged(views(found@), best@));
        lemma_ranking(keys@);
        lemma_top_arranged(views(found@), ranking(keys@), KEPT as nat);
        lemma_pooled_entries(e, e.len(), e.len() + 1);
        lemma_searched_paths_once(views(files@), files@.len());
        assert forall|k: int| 0 <= k < out@.len() implies is_report_entry(
            e,
            (#[trigger] out@[k])@,
        ) by {
            let d = views(out@)[k];
            assert(d == views(found@)[best@[k] as int]);
            assert(is_entry_of(e, d));
            assert forall|i: int| 0 <= i < e.len() implies (#[trigger] e[i]).1.len()
                <= usize::MAX by {
                assert(e[i].1 == views(texts@[i].1@));
                assert(texts@[i].1.len() <= usize::MAX);
            }
            lemma_entry(e, d);
        }
    }
    out
}

/// Searches the files of the tree for duplicated blocks and enters the
/// ten longest in the record.
pub fn find_duplicate_code(files: &Vec<SourceFile>, analysis: &mut RepositoryAnalysis)
    ensures
        ({
            let all = all_entries(searched(views(files@), files@.len()));
            final(analysis)@.duplicate_code == top_ranked(all, line_counts(all), KEPT as nat)
        }),
        forall|k: int|
            0 <= k < final(analysis)@.duplicate_code.len() ==> is_report_entry(
                searched(views(files@), files@.len()),
                #[trigger] final(analysis)@.duplicate_code[k],
            ),
        final(analysis)@ == (RepositoryAnalysisView {
            duplicate_code: final(analysis)@.duplicate_code,
            ..old(analysis)@
        }),
{
    analysis.duplicate_code = find_duplicates(files);
    assert forall|k: int| 0 <= k < analysis@.duplicate_code.len() implies is_report_entry(
        searched(views(files@), files@.len()),
        #[trigger] analysis@.duplicate_code[k],
    ) by {
        assert(analysis@.duplicate_code[k] == analysis.duplicate_code@[k]@);
    }
    assert(analysis@ =~~= (RepositoryAnalysisView {
        duplicate_code: analysis@.duplicate_code,
        ..old(analysis)@
    }));
}

} // verus!
