//! The model of a walk over commits: what the walk accumulates, stated
//! over sequences. The executable walk is proved to compute exactly this.

use vstd::prelude::*;

use crate::ratio::Ratio;
use crate::counts::{count_one, lemma_count_one_keeps_names_distinct, names};
use crate::seq_util::{capped, position};

verus! {

/// What a `Hunk` holds, as sequences.
#[verifier::ext_equal]
pub struct HunkView {
    pub path: Seq<char>,
    pub old_lines: u32,
    pub new_lines: u32,
}

/// What a `CommitDiff` holds, as sequences.
#[verifier::ext_equal]
pub struct CommitDiffView {
    pub files: Seq<Seq<char>>,
    pub hunks: Seq<HunkView>,
}

/// What a `CommitRecord` holds, as sequences.
#[verifier::ext_equal]
pub struct CommitView {
    pub author_name: Option<Seq<char>>,
    pub author_email: Option<Seq<char>>,
    pub time: i64,
    pub date: Seq<char>,
    pub diff: Option<CommitDiffView>,
}

/// What a `Contributor` holds, as sequences.
#[verifier::ext_equal]
pub struct ContributorView {
    pub name: Seq<char>,
    pub email: Seq<char>,
    pub commit_count: usize,
    pub first_commit: Seq<char>,
    pub last_commit: Seq<char>,
    pub last_commit_time: i64,
}

/// What `FileStats` hold, as sequences.
#[verifier::ext_equal]
pub struct FileStatsView {
    pub commit_count: usize,
    pub first_commit_date: Seq<char>,
    pub last_commit_date: Seq<char>,
    pub first_commit_time: i64,
    pub last_commit_time: i64,
    pub authors: Seq<Seq<char>>,
    pub lines_added: usize,
    pub lines_removed: usize,
    pub change_frequency: Ratio,
    pub author_contributions: Seq<(Seq<char>, usize)>,
    pub last_modified_by: Seq<char>,
    pub avg_changes_per_commit: Ratio,
}

/// The author name of a commit, `Unknown` where it records none.
pub open spec fn author_name(c: CommitView) -> Seq<char> {
    match c.author_name {
        Some(n) => n,
        None => "Unknown"@,
    }
}

/// The author email of a commit, `unknown` where it records none.
pub open spec fn author_email(c: CommitView) -> Seq<char> {
    match c.author_email {
        Some(e) => e,
        None => "unknown"@,
    }
}

/// The text `name <email>` by which contributors are told apart.
pub open spec fn identity(name: Seq<char>, email: Seq<char>) -> Seq<char> {
    name + " <"@ + email + ">"@
}

/// The identities of the contributors, in their order.
pub open spec fn identities(cs: Seq<ContributorView>) -> Seq<Seq<char>> {
    Seq::new(cs.len(), |i: int| identity(cs[i].name, cs[i].email))
}

/// The contributors after one more commit: the record of the commit's
/// identity counts one commit more and moves its last commit to this one
/// if this one is more recent; a new identity gets a record at the end.
pub open spec fn credit_contributor(cs: Seq<ContributorView>, c: CommitView) -> Seq<
    ContributorView,
> {
    let i = position(identities(cs), identity(author_name(c), author_email(c)));
    if i < cs.len() {
        let more_recent = c.time > cs[i].last_commit_time;
        cs.update(
            i,
            ContributorView {
                commit_count: capped(cs[i].commit_count + 1),
                last_commit: if more_recent {
                    c.date
                } else {
                    cs[i].last_commit
                },
                last_commit_time: if more_recent {
                    c.time
                } else {
                    cs[i].last_commit_time
                },
                ..cs[i]
            },
        )
    } else {
        cs.push(
            ContributorView {
                name: author_name(c),
                email: author_email(c),
                commit_count: 1,
                first_commit: c.date,
                last_commit: c.date,
                last_commit_time: c.time,
            },
        )
    }
}

/// The lines that the hunks of `path` add: the sum of their new-side
/// line counts.
pub open spec fn added_lines(hunks: Seq<HunkView>, path: Seq<char>) -> nat
    decreases hunks.len(),
{
    if hunks.len() == 0 {
        0
    } else {
        added_lines(hunks.drop_last(), path) + if hunks.last().path == path {
            hunks.last().new_lines as nat
        } else {
            0
        }
    }
}

/// The lines that the hunks of `path` remove: the sum of their old-side
/// line counts.
pub open spec fn removed_lines(hunks: Seq<HunkView>, path: Seq<char>) -> nat
    decreases hunks.len(),
{
    if hunks.len() == 0 {
        0
    } else {
        removed_lines(hunks.drop_last(), path) + if hunks.last().path == path {
            hunks.last().old_lines as nat
        } else {
            0
        }
    }
}

/// The statistics of a file that a commit touches for the first time.
pub open spec fn first_sight(c: CommitView, added: nat, removed: nat) -> FileStatsView {
    FileStatsView {
        commit_count: 1,
        first_commit_date: c.date,
        last_commit_date: c.date,
        first_commit_time: c.time,
        last_commit_time: c.time,
        authors: seq![author_name(c)],
        lines_added: capped(added as int),
        lines_removed: capped(removed as int),
        change_frequency: Ratio::whole_spec(0),
        author_contributions: seq![(author_name(c), 1usize)],
        last_modified_by: author_name(c),
        avg_changes_per_commit: Ratio::whole_spec(0),
    }
}

/// The statistics of a file after one more commit touches it.
pub open spec fn next_sight(s: FileStatsView, c: CommitView, added: nat, removed: nat) -> FileStatsView {
    FileStatsView {
        commit_count: capped(s.commit_count + 1),
        last_commit_date: c.date,
        last_commit_time: c.time,
        authors: if s.authors.contains(author_name(c)) {
            s.authors
        } else {
            s.authors.push(author_name(c))
        },
        lines_added: capped(s.lines_added + added),
        lines_removed: capped(s.lines_removed + removed),
        author_contributions: count_one(s.author_contributions, author_name(c)),
        last_modified_by: author_name(c),
        ..s
    }
}

/// The paths of the files, in their order.
pub open spec fn paths(files: Seq<(Seq<char>, FileStatsView)>) -> Seq<Seq<char>> {
    Seq::new(files.len(), |i: int| files[i].0)
}

/// The files after commit `c` touches `path`.
pub open spec fn touch_file(
    files: Seq<(Seq<char>, FileStatsView)>,
    path: Seq<char>,
    c: CommitView,
    added: nat,
    removed: nat,
) -> Seq<(Seq<char>, FileStatsView)> {
    let i = position(paths(files), path);
    if i < files.len() {
        files.update(i, (files[i].0, next_sight(files[i].1, c, added, removed)))
    } else {
        files.push((path, first_sight(c, added, removed)))
    }
}

/// The files after commit `c` has touched the first `n` paths of its
/// diff, each path once, at its first occurrence.
pub open spec fn touch_files(
    files: Seq<(Seq<char>, FileStatsView)>,
    c: CommitView,
    d: CommitDiffView,
    n: nat,
) -> Seq<(Seq<char>, FileStatsView)>
    decreases n,
{
    if n == 0 {
        files
    } else {
        let before = touch_files(files, c, d, (n - 1) as nat);
        let path = d.files[n - 1];
        if d.files.take(n - 1).contains(path) {
            before
        } else {
            touch_file(before, path, c, added_lines(d.hunks, path), removed_lines(d.hunks, path))
        }
    }
}

/// What a walk has accumulated: the number of commits visited, the
/// contributors in the order in which the walk met them, the time and
/// date of the most recent commit, and the files in the order in which
/// the walk met them.
#[verifier::ext_equal]
pub struct HistoryView {
    pub commit_count: usize,
    pub contributors: Seq<ContributorView>,
    pub latest: Option<(i64, Seq<char>)>,
    pub files: Seq<(Seq<char>, FileStatsView)>,
}

/// The history of a walk that has visited no commit.
pub open spec fn empty_history() -> HistoryView {
    HistoryView { commit_count: 0, contributors: seq![], latest: None, files: seq![] }
}

/// The history after the walk visits one more commit.
pub open spec fn record_commit(h: HistoryView, c: CommitView) -> HistoryView {
    HistoryView {
        commit_count: capped(h.commit_count + 1),
        contributors: credit_contributor(h.contributors, c),
        latest: match h.latest {
            Some((t, d)) => if c.time > t {
                Some((c.time, c.date))
            } else {
                h.latest
            },
            None => Some((c.time, c.date)),
        },
        files: match c.diff {
            Some(d) => touch_files(h.files, c, d, d.files.len()),
            None => h.files,
        },
    }
}

/// The history after the walk has visited the first `n` of `commits`.
pub open spec fn history_after(commits: Seq<CommitView>, n: nat) -> HistoryView
    decreases n,
{
    if n == 0 {
        empty_history()
    } else {
        record_commit(history_after(commits, (n - 1) as nat), commits[n - 1])
    }
}

/// How many of `len` commits a walk of the given depth visits: all of
/// them at depth 0, else at most `depth`.
pub open spec fn visited(len: nat, depth: nat) -> nat {
    if depth > 0 && depth < len {
        depth
    } else {
        len
    }
}

/// The number of seconds in thirty days.
pub const MONTH_SECONDS: i64 = 2_592_000;

/// The number of seconds in a day.
pub const DAY_SECONDS: i64 = 86_400;

/// The seconds between two times, whichever is the earlier.
pub open spec fn elapsed_seconds(first: i64, last: i64) -> int {
    if last >= first {
        last - first
    } else {
        first - last
    }
}

/// Commits per month of thirty days, for `commits` commits between a
/// first and a last commit time, whichever of the two is the earlier:
/// the commits divided by the elapsed months, that is thirty times the
/// commits over the elapsed whole days; the number of commits itself
/// where less than a month has elapsed.
pub open spec fn frequency(commits: usize, first: i64, last: i64) -> Ratio {
    let elapsed = elapsed_seconds(first, last);
    if elapsed >= MONTH_SECONDS {
        Ratio { num: (30 * commits) as u128, den: (elapsed / (DAY_SECONDS as int)) as u128 }
    } else {
        Ratio { num: commits as u128, den: 1 }
    }
}

/// Changed lines per commit: added plus removed lines over the commits;
/// zero where there is no commit.
pub open spec fn average_changes(s: FileStatsView) -> Ratio {
    if s.commit_count > 0 {
        Ratio { num: (s.lines_added + s.lines_removed) as u128, den: s.commit_count as u128 }
    } else {
        Ratio::whole_spec(0)
    }
}

/// The statistics of a file with the two derived numbers filled in.
pub open spec fn with_rates(s: FileStatsView) -> FileStatsView {
    FileStatsView {
        change_frequency: frequency(s.commit_count, s.first_commit_time, s.last_commit_time),
        avg_changes_per_commit: average_changes(s),
        ..s
    }
}

/// The commit counts of the contributors, in their order.
pub open spec fn commit_counts(cs: Seq<ContributorView>) -> Seq<usize> {
    Seq::new(cs.len(), |i: int| cs[i].commit_count)
}

/// The date of the most recent commit of the walk; `Unknown` where the
/// walk visited none.
pub open spec fn last_activity(h: HistoryView) -> Seq<char> {
    match h.latest {
        Some((_, date)) => date,
        None => "Unknown"@,
    }
}

/// The files, each with its two derived numbers filled in.
pub open spec fn all_with_rates(files: Seq<(Seq<char>, FileStatsView)>) -> Seq<
    (Seq<char>, FileStatsView),
> {
    Seq::new(files.len(), |i: int| (files[i].0, with_rates(files[i].1)))
}

/// What holds of the statistics of every file that a walk has met: the
/// file has a commit, no author stands twice in its list of authors, and
/// the per-author counts name the same authors in the same order.
pub open spec fn is_sound_stats(s: FileStatsView) -> bool {
    &&& s.commit_count >= 1
    &&& s.authors.no_duplicates()
    &&& s.authors == names(s.author_contributions)
}

/// What holds of every history that a walk accumulates: no two
/// contributors share an identity, no path stands twice among the files,
/// and the statistics of every file are sound.
pub open spec fn is_sound(h: HistoryView) -> bool {
    &&& identities(h.contributors).no_duplicates()
    &&& paths(h.files).no_duplicates()
    &&& forall|i: int| 0 <= i < h.files.len() ==> is_sound_stats((#[trigger] h.files[i]).1)
}

proof fn lemma_credit_keeps_identities(cs: Seq<ContributorView>, c: CommitView)
    requires
        identities(cs).no_duplicates(),
    ensures
        identities(credit_contributor(cs, c)).no_duplicates(),
{
    let key = identity(author_name(c), author_email(c));
    crate::seq_util::lemma_position(identities(cs), key);
    let i = position(identities(cs), key);
    if i < cs.len() {
        assert(identities(credit_contributor(cs, c)) =~= identities(cs));
    } else {
        assert(identities(credit_contributor(cs, c)) =~= identities(cs).push(key));
    }
}

proof fn lemma_next_sight_sound(s: FileStatsView, c: CommitView, added: nat, removed: nat)
    requires
        is_sound_stats(s),
    ensures
        is_sound_stats(next_sight(s, c, added, removed)),
{
    lemma_count_one_keeps_names_distinct(s.author_contributions, author_name(c));
}

proof fn lemma_first_sight_sound(c: CommitView, added: nat, removed: nat)
    ensures
        is_sound_stats(first_sight(c, added, removed)),
{
    let s = first_sight(c, added, removed);
    assert(names(s.author_contributions) =~= s.authors);
}

proof fn lemma_touch_file_sound(
    files: Seq<(Seq<char>, FileStatsView)>,
    path: Seq<char>,
    c: CommitView,
    added: nat,
    removed: nat,
)
    requires
        paths(files).no_duplicates(),
        forall|i: int| 0 <= i < files.len() ==> is_sound_stats((#[trigger] files[i]).1),
    ensures
        paths(touch_file(files, path, c, added, removed)).no_duplicates(),
        forall|i: int|
            0 <= i < touch_file(files, path, c, added, removed).len() ==> is_sound_stats(
                (#[trigger] touch_file(files, path, c, added, removed)[i]).1,
            ),
{
    crate::seq_util::lemma_position(paths(files), path);
    let i = position(paths(files), path);
    let after = touch_file(files, path, c, added, removed);
    if i < files.len() {
        lemma_next_sight_sound(files[i].1, c, added, removed);
        assert(paths(after) =~= paths(files));
        assert forall|k: int| 0 <= k < after.len() implies is_sound_stats(
            (#[trigger] after[k]).1,
        ) by {
            if k != i {
                assert(after[k] == files[k]);
            }
        }
    } else {
        lemma_first_sight_sound(c, added, removed);
        assert(paths(after) =~= paths(files).push(path));
        assert forall|k: int| 0 <= k < after.len() implies is_sound_stats(
            (#[trigger] after[k]).1,
        ) by {
            if k < files.len() {
                assert(after[k] == files[k]);
            }
        }
    }
}

proof fn lemma_touch_files_sound(
    files: Seq<(Seq<char>, FileStatsView)>,
    c: CommitView,
    d: CommitDiffView,
    n: nat,
)
    requires
        paths(files).no_duplicates(),
        forall|i: int| 0 <= i < files.len() ==> is_sound_stats((#[trigger] files[i]).1),
    ensures
        paths(touch_files(files, c, d, n)).no_duplicates(),
        forall|i: int|
            0 <= i < touch_files(files, c, d, n).len() ==> is_sound_stats(
                (#[trigger] touch_files(files, c, d, n)[i]).1,
            ),
    decreases n,
{
    if n > 0 {
        lemma_touch_files_sound(files, c, d, (n - 1) as nat);
        let path = d.files[n - 1];
        lemma_touch_file_sound(
            touch_files(files, c, d, (n - 1) as nat),
            path,
            c,
            added_lines(d.hunks, path),
            removed_lines(d.hunks, path),
        );
    }
}

/// A commit keeps a sound history sound.
pub proof fn lemma_record_commit_sound(h: HistoryView, c: CommitView)
    requires
        is_sound(h),
    ensures
        is_sound(record_commit(h, c)),
{
    lemma_credit_keeps_identities(h.contributors, c);
    match c.diff {
        Some(d) => {
            lemma_touch_files_sound(h.files, c, d, d.files.len());
        },
        None => {},
    }
}

/// Whatever the commits, the history that a walk accumulates is sound: it
/// names every contributor and every file once, and every file has a
/// commit.
pub proof fn lemma_history_sound(commits: Seq<CommitView>, n: nat)
    ensures
        is_sound(history_after(commits, n)),
    decreases n,
{
    if n > 0 {
        lemma_history_sound(commits, (n - 1) as nat);
        lemma_record_commit_sound(history_after(commits, (n - 1) as nat), commits[n - 1]);
    }
}

/// The walk counts every commit it visits.
pub proof fn lemma_history_commit_count(commits: Seq<CommitView>, n: nat)
    ensures
        history_after(commits, n).commit_count == capped(n as int),
    decreases n,
{
    if n > 0 {
        lemma_history_commit_count(commits, (n - 1) as nat);
    }
}

/// A commit without a diff, as the first commit of a repository is, counts
/// for the walk and for its author and leaves the files as they are.
pub proof fn lemma_commit_without_diff(h: HistoryView, c: CommitView)
    requires
        c.diff is None,
    ensures
        record_commit(h, c).files == h.files,
        record_commit(h, c).commit_count == capped(h.commit_count + 1),
        record_commit(h, c).contributors == credit_contributor(h.contributors, c),
{
}

} // verus!
