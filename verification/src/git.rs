//! Commit-history aggregation: per-author and per-file rollups of a walk
//! over the commits of a repository, newest first.

use vstd::prelude::*;

use crate::clock::{format_git_time, is_date_of};
use crate::ranking::{
    arranged, lemma_ranking, lemma_ranking_distinct, pick, rank_descending, ranked, ranking,
    RankKey,
};
use crate::ratio::Ratio;
use crate::counts::{add_one, count_views};
use crate::history;
use crate::history::{
    CommitDiffView, CommitView, ContributorView, FileStatsView, HistoryView, HunkView,
};
use crate::seq_util::{capped, lemma_position_is, position, views};

verus! {

/// One changed region of a file in a diff, with the line counts of its old
/// and new side.
#[derive(Debug)]
pub struct Hunk {
    pub path: String,
    pub old_lines: u32,
    pub new_lines: u32,
}

impl View for Hunk {
    type V = HunkView;

    open spec fn view(&self) -> HunkView {
        HunkView { path: self.path@, old_lines: self.old_lines, new_lines: self.new_lines }
    }
}

/// The diff of a commit against its first parent: the paths of the files
/// it changes, and the hunks of those changes.
#[derive(Debug)]
pub struct CommitDiff {
    pub files: Vec<String>,
    pub hunks: Vec<Hunk>,
}

impl View for CommitDiff {
    type V = CommitDiffView;

    open spec fn view(&self) -> CommitDiffView {
        CommitDiffView { files: views(self.files@), hunks: views(self.hunks@) }
    }
}

/// What the walk reads of one commit. `date` is the commit time as text;
/// `diff` is `None` for a commit without a parent and for one whose diff
/// could not be computed.
#[derive(Debug)]
pub struct CommitRecord {
    pub author_name: Option<String>,
    pub author_email: Option<String>,
    pub time: i64,
    pub date: String,
    pub diff: Option<CommitDiff>,
}

/// The characters of a text that may be absent.
pub open spec fn text_of(o: Option<String>) -> Option<Seq<char>> {
    match o {
        Some(s) => Some(s@),
        None => None,
    }
}

impl View for CommitRecord {
    type V = CommitView;

    open spec fn view(&self) -> CommitView {
        CommitView {
            author_name: text_of(self.author_name),
            author_email: text_of(self.author_email),
            time: self.time,
            date: self.date@,
            diff: match self.diff {
                Some(d) => Some(d@),
                None => None,
            },
        }
    }
}

/// An author identity with the number of its commits in the walk, the
/// date of the commit that introduced it to the walk, and the date and
/// time of its most recent commit.
#[derive(Debug)]
pub struct Contributor {
    pub name: String,
    pub email: String,
    pub commit_count: usize,
    pub first_commit: String,
    pub last_commit: String,
    pub last_commit_time: i64,
}

impl View for Contributor {
    type V = ContributorView;

    open spec fn view(&self) -> ContributorView {
        ContributorView {
            name: self.name@,
            email: self.email@,
            commit_count: self.commit_count,
            first_commit: self.first_commit@,
            last_commit: self.last_commit@,
            last_commit_time: self.last_commit_time,
        }
    }
}

/// The history of one file path over the walk.
#[derive(Debug)]
pub struct FileStats {
    pub commit_count: usize,
    pub first_commit_date: String,
    pub last_commit_date: String,
    pub first_commit_time: i64,
    pub last_commit_time: i64,
    pub authors: Vec<String>,
    pub lines_added: usize,
    pub lines_removed: usize,
    /// Commits per month of thirty days.
    pub change_frequency: Ratio,
    /// Author name and the number of that author's commits to the file.
    pub author_contributions: Vec<(String, usize)>,
    pub last_modified_by: String,
    pub avg_changes_per_commit: Ratio,
}

impl View for FileStats {
    type V = FileStatsView;

    open spec fn view(&self) -> FileStatsView {
        FileStatsView {
            commit_count: self.commit_count,
            first_commit_date: self.first_commit_date@,
            last_commit_date: self.last_commit_date@,
            first_commit_time: self.first_commit_time,
            last_commit_time: self.last_commit_time,
            authors: views(self.authors@),
            lines_added: self.lines_added,
            lines_removed: self.lines_removed,
            change_frequency: self.change_frequency,
            author_contributions: count_views(self.author_contributions@),
            last_modified_by: self.last_modified_by@,
            avg_changes_per_commit: self.avg_changes_per_commit,
        }
    }
}

/// The views of a list of paths with their statistics.
pub open spec fn file_views(files: Seq<(String, FileStats)>) -> Seq<(Seq<char>, FileStatsView)> {
    Seq::new(files.len(), |i: int| (files[i].0@, files[i].1@))
}

// ---------------------------------------------------------------------
// The walk itself.
// ---------------------------------------------------------------------

fn author_name_of(commit: &CommitRecord) -> (name: String)
    ensures
        name@ == history::author_name(commit@),
{
    match &commit.author_name {
        Some(n) => n.clone(),
        None => "Unknown".to_owned(),
    }
}

fn author_email_of(commit: &CommitRecord) -> (email: String)
    ensures
        email@ == history::author_email(commit@),
{
    match &commit.author_email {
        Some(e) => e.clone(),
        None => "unknown".to_owned(),
    }
}

fn identity_text(name: &String, email: &String) -> (key: String)
    ensures
        key@ == history::identity(name@, email@),
{
    let mut key = name.clone();
    key.append(" <");
    key.append(email.as_str());
    key.append(">");
    key
}

fn find_contributor(cs: &Vec<Contributor>, key: &String) -> (i: usize)
    ensures
        i == position(history::identities(views(cs@)), key@),
        i <= cs.len(),
{
    let ghost ids = history::identities(views(cs@));
    let mut i: usize = 0;
    while i < cs.len()
        invariant
            i <= cs.len(),
            ids == history::identities(views(cs@)),
            forall|j: int| 0 <= j < i ==> ids[j] != key@,
        decreases cs.len() - i,
    {
        let id = identity_text(&cs[i].name, &cs[i].email);
        if id == *key {
            proof {
                assert(ids[i as int] == key@);
                lemma_position_is(ids, key@, i as int);
            }
            return i;
        }
        i = i + 1;
    }
    proof {
        lemma_position_is(ids, key@, i as int);
    }
    i
}

fn credit_contributor(cs: &mut Vec<Contributor>, commit: &CommitRecord)
    ensures
        views(final(cs)@) == history::credit_contributor(views(old(cs)@), commit@),
{
    let name = author_name_of(commit);
    let email = author_email_of(commit);
    let key = identity_text(&name, &email);
    let i = find_contributor(cs, &key);
    if i < cs.len() {
        let count: usize = cs[i].commit_count;
        cs[i].commit_count = count.saturating_add(1);
        if commit.time > cs[i].last_commit_time {
            cs[i].last_commit = commit.date.clone();
            cs[i].last_commit_time = commit.time;
        }
        assert(views(cs@) =~~= history::credit_contributor(views(old(cs)@), commit@));
    } else {
        cs.push(
            Contributor {
                name,
                email,
                commit_count: 1,
                first_commit: commit.date.clone(),
                last_commit: commit.date.clone(),
                last_commit_time: commit.time,
            },
        );
        assert(views(cs@) =~~= history::credit_contributor(views(old(cs)@), commit@));
    }
}

/// The added and the removed lines of `path` in `hunks`, each saturating.
fn sum_lines(hunks: &Vec<Hunk>, path: &String) -> (r: (usize, usize))
    ensures
        r.0 == capped(history::added_lines(views(hunks@), path@) as int),
        r.1 == capped(history::removed_lines(views(hunks@), path@) as int),
{
    let mut added: usize = 0;
    let mut removed: usize = 0;
    let mut i: usize = 0;
    while i < hunks.len()
        invariant
            i <= hunks.len(),
            added == capped(history::added_lines(views(hunks@).take(i as int), path@) as int),
            removed == capped(history::removed_lines(views(hunks@).take(i as int), path@) as int),
        decreases hunks.len() - i,
    {
        proof {
            let next = views(hunks@).take(i as int + 1);
            assert(next.drop_last() =~= views(hunks@).take(i as int));
            assert(next.last() == hunks@[i as int]@);
        }
        if hunks[i].path == *path {
            added = added.saturating_add(hunks[i].new_lines as usize);
            removed = removed.saturating_add(hunks[i].old_lines as usize);
        }
        i = i + 1;
    }
    assert(views(hunks@).take(hunks.len() as int) =~= views(hunks@));
    (added, removed)
}

fn find_file(files: &Vec<(String, FileStats)>, path: &String) -> (i: usize)
    ensures
        i == position(history::paths(file_views(files@)), path@),
        i <= files.len(),
{
    let ghost ps = history::paths(file_views(files@));
    let mut i: usize = 0;
    while i < files.len()
        invariant
            i <= files.len(),
            ps == history::paths(file_views(files@)),
            forall|j: int| 0 <= j < i ==> ps[j] != path@,
        decreases files.len() - i,
    {
        if files[i].0 == *path {
            proof {
                assert(ps[i as int] == path@);
                lemma_position_is(ps, path@, i as int);
            }
            return i;
        }
        i = i + 1;
    }
    proof {
        lemma_position_is(ps, path@, i as int);
    }
    i
}

fn has_author(authors: &Vec<String>, author: &String) -> (found: bool)
    ensures
        found == views(authors@).contains(author@),
{
    let mut i: usize = 0;
    while i < authors.len()
        invariant
            i <= authors.len(),
            forall|j: int| 0 <= j < i ==> views(authors@)[j] != author@,
        decreases authors.len() - i,
    {
        if authors[i] == *author {
            assert(views(authors@)[i as int] == author@);
            return true;
        }
        i = i + 1;
    }
    false
}

fn first_sight(commit: &CommitRecord, added: usize, removed: usize) -> (stats: FileStats)
    ensures
        stats@ == history::first_sight(commit@, added as nat, removed as nat),
{
    let author = author_name_of(commit);
    let mut authors: Vec<String> = Vec::new();
    authors.push(author.clone());
    let mut author_contributions: Vec<(String, usize)> = Vec::new();
    author_contributions.push((author.clone(), 1));
    let stats = FileStats {
        commit_count: 1,
        first_commit_date: commit.date.clone(),
        last_commit_date: commit.date.clone(),
        first_commit_time: commit.time,
        last_commit_time: commit.time,
        authors,
        lines_added: added,
        lines_removed: removed,
        change_frequency: Ratio::zero(),
        author_contributions,
        last_modified_by: author,
        avg_changes_per_commit: Ratio::zero(),
    };
    assert(stats@ =~~= history::first_sight(commit@, added as nat, removed as nat));
    stats
}

fn next_sight(stats: &mut FileStats, commit: &CommitRecord, added: usize, removed: usize)
    ensures
        final(stats)@ == history::next_sight(old(stats)@, commit@, added as nat, removed as nat),
{
    let author = author_name_of(commit);
    stats.commit_count = stats.commit_count.saturating_add(1);
    stats.last_commit_date = commit.date.clone();
    stats.last_commit_time = commit.time;
    stats.lines_added = stats.lines_added.saturating_add(added);
    stats.lines_removed = stats.lines_removed.saturating_add(removed);
    add_one(&mut stats.author_contributions, &author);
    if !has_author(&stats.authors, &author) {
        stats.authors.push(author.clone());
    }
    stats.last_modified_by = author;
    assert(stats@ =~~= history::next_sight(old(stats)@, commit@, added as nat, removed as nat));
}

fn touch_file(
    files: &mut Vec<(String, FileStats)>,
    path: &String,
    commit: &CommitRecord,
    added: usize,
    removed: usize,
)
    ensures
        file_views(final(files)@) == history::touch_file(
            file_views(old(files)@),
            path@,
            commit@,
            added as nat,
            removed as nat,
        ),
{
    let i = find_file(files, path);
    if i < files.len() {
        next_sight(&mut files[i].1, commit, added, removed);
    } else {
        let stats = first_sight(commit, added, removed);
        files.push((path.clone(), stats));
    }
    assert(file_views(files@) =~~= history::touch_file(
        file_views(old(files)@),
        path@,
        commit@,
        added as nat,
        removed as nat,
    ));
}

/// Whether the path at index `k` also stands at an earlier index.
fn seen_before(paths: &Vec<String>, k: usize) -> (seen: bool)
    requires
        k < paths.len(),
    ensures
        seen == views(paths@).take(k as int).contains(views(paths@)[k as int]),
{
    let ghost earlier = views(paths@).take(k as int);
    let mut j: usize = 0;
    while j < k
        invariant
            j <= k < paths.len(),
            earlier == views(paths@).take(k as int),
            forall|m: int| 0 <= m < j ==> earlier[m] != paths@[k as int]@,
        decreases k - j,
    {
        if paths[j] == paths[k] {
            assert(earlier[j as int] == paths@[k as int]@);
            return true;
        }
        j = j + 1;
    }
    false
}

proof fn lemma_capped_sum(a: usize, b: nat)
    ensures
        capped(a + capped(b as int)) == capped(a + b),
{
}

fn touch_files(files: &mut Vec<(String, FileStats)>, commit: &CommitRecord, diff: &CommitDiff)
    ensures
        file_views(final(files)@) == history::touch_files(
            file_views(old(files)@),
            commit@,
            diff@,
            diff@.files.len(),
        ),
{
    let mut k: usize = 0;
    while k < diff.files.len()
        invariant
            k <= diff.files.len(),
            file_views(files@) == history::touch_files(
                file_views(old(files)@),
                commit@,
                diff@,
                k as nat,
            ),
        decreases diff.files.len() - k,
    {
        if !seen_before(&diff.files, k) {
            let (added, removed) = sum_lines(&diff.hunks, &diff.files[k]);
            proof {
                let before = file_views(files@);
                let path = diff@.files[k as int];
                let a = history::added_lines(diff@.hunks, path);
                let r = history::removed_lines(diff@.hunks, path);
                let i = position(history::paths(before), path);
                if i < before.len() {
                    lemma_capped_sum(before[i].1.lines_added, a);
                    lemma_capped_sum(before[i].1.lines_removed, r);
                    assert(history::next_sight(before[i].1, commit@, added as nat, removed as nat)
                        == history::next_sight(before[i].1, commit@, a, r));
                } else {
                    assert(history::first_sight(commit@, added as nat, removed as nat)
                        == history::first_sight(commit@, a, r));
                }
            }
            touch_file(files, &diff.files[k], commit, added, removed);
        }
        k = k + 1;
    }
}

/// What a walk has accumulated so far.
#[derive(Debug)]
pub struct History {
    pub commit_count: usize,
    pub contributors: Vec<Contributor>,
    pub latest: Option<(i64, String)>,
    pub files: Vec<(String, FileStats)>,
}

impl View for History {
    type V = HistoryView;

    open spec fn view(&self) -> HistoryView {
        HistoryView {
            commit_count: self.commit_count,
            contributors: views(self.contributors@),
            latest: match self.latest {
                Some((t, d)) => Some((t, d@)),
                None => None,
            },
            files: file_views(self.files@),
        }
    }
}

impl History {
    /// The history of a walk that has visited no commit.
    pub fn new() -> (h: History)
        ensures
            h@ == history::empty_history(),
            history::is_sound(h@),
    {
        let h = History {
            commit_count: 0,
            contributors: Vec::new(),
            latest: None,
            files: Vec::new(),
        };
        assert(h@ =~~= history::empty_history());
        h
    }

    /// Visits one more commit.
    pub fn record_commit(&mut self, commit: &CommitRecord)
        ensures
            final(self)@ == history::record_commit(old(self)@, commit@),
            history::is_sound(old(self)@) ==> history::is_sound(final(self)@),
    {
        proof {
            if history::is_sound(self@) {
                history::lemma_record_commit_sound(self@, commit@);
            }
        }
        self.commit_count = self.commit_count.saturating_add(1);
        credit_contributor(&mut self.contributors, commit);
        let newer = match &self.latest {
            Some((t, _)) => commit.time > *t,
            None => true,
        };
        if newer {
            self.latest = Some((commit.time, commit.date.clone()));
        }
        match &commit.diff {
            Some(diff) => {
                touch_files(&mut self.files, commit, diff);
            },
            None => {},
        }
        assert(self@ =~~= history::record_commit(old(self)@, commit@));
    }
}

impl Clone for Contributor {
    fn clone(&self) -> (r: Self)
        ensures
            r@ == self@,
    {
        Contributor {
            name: self.name.clone(),
            email: self.email.clone(),
            commit_count: self.commit_count,
            first_commit: self.first_commit.clone(),
            last_commit: self.last_commit.clone(),
            last_commit_time: self.last_commit_time,
        }
    }
}

impl CommitRecord {
    /// The record of a commit, dated by its time in the local time zone:
    /// the date is that of the commit time to the second, wherever the
    /// machine stands, or `Unknown` for a time that has no date.
    pub fn new(
        author_name: Option<String>,
        author_email: Option<String>,
        time: i64,
        diff: Option<CommitDiff>,
    ) -> (c: CommitRecord)
        ensures
            c.author_name == author_name,
            c.author_email == author_email,
            c.time == time,
            c.diff == diff,
            is_date_of(c.date@, time),
    {
        CommitRecord { author_name, author_email, time, date: format_git_time(time), diff }
    }
}

/// Commits per month of thirty days; see `history::frequency`.
pub fn change_frequency(commits: usize, first: i64, last: i64) -> (r: Ratio)
    ensures
        r == history::frequency(commits, first, last),
        r.wf(),
        first == last ==> r == Ratio::whole_spec(commits as int),
        r.num <= 30 * usize::MAX,
        r.den <= 0x1_0000_0000_0000,
{
    let elapsed: i128 = if last >= first {
        last as i128 - first as i128
    } else {
        first as i128 - last as i128
    };
    if elapsed >= history::MONTH_SECONDS as i128 {
        let days: i128 = elapsed / (history::DAY_SECONDS as i128);
        Ratio { num: 30 * (commits as u128), den: days as u128 }
    } else {
        Ratio { num: commits as u128, den: 1 }
    }
}

/// Fills in the two numbers that derive from the rest: the change
/// frequency and the average number of changed lines per commit.
pub fn fill_rates(stats: &mut FileStats)
    ensures
        final(stats)@ == history::with_rates(old(stats)@),
{
    stats.change_frequency = change_frequency(
        stats.commit_count,
        stats.first_commit_time,
        stats.last_commit_time,
    );
    if stats.commit_count > 0 {
        stats.avg_changes_per_commit = Ratio {
            num: stats.lines_added as u128 + stats.lines_removed as u128,
            den: stats.commit_count as u128,
        };
    } else {
        stats.avg_changes_per_commit = Ratio::zero();
    }
}

impl History {
    /// Ends the walk: the number of commits visited, the contributors
    /// with those of most commits first, the date of the most recent
    /// commit, and the files with their derived numbers filled in.
    pub fn finish(self) -> (r: (usize, Vec<Contributor>, String, Vec<(String, FileStats)>))
        ensures
            r.0 == self@.commit_count,
            views(r.1@) == ranked(self@.contributors, history::commit_counts(self@.contributors)),
            forall|i: int, j: int|
                0 <= i < j < r.1@.len() ==> r.1@[i].commit_count >= r.1@[j].commit_count,
            r.2@ == history::last_activity(self@),
            file_views(r.3@) == history::all_with_rates(self@.files),
    {
        let History { commit_count, contributors, latest, files } = self;
        let mut files = files;
        let ghost before = file_views(files@);
        let mut i: usize = 0;
        while i < files.len()
            invariant
                i <= files.len(),
                files.len() == before.len(),
                forall|k: int| 0 <= k < i ==> file_views(files@)[k] == (before[k].0, history::with_rates(before[k].1)),
                forall|k: int| i <= k < files.len() ==> file_views(files@)[k] == before[k],
            decreases files.len() - i,
        {
            let ghost prev = file_views(files@);
            fill_rates(&mut files[i].1);
            assert forall|k: int| 0 <= k < i + 1 implies file_views(files@)[k] == (before[k].0, history::with_rates(before[k].1)) by {
                if k < i {
                    assert(file_views(files@)[k] == prev[k]);
                }
            }
            assert forall|k: int| i + 1 <= k < files.len() implies file_views(files@)[k] == before[k] by {
                assert(file_views(files@)[k] == prev[k]);
            }
            i = i + 1;
        }
        assert(file_views(files@) =~= history::all_with_rates(before));

        let mut keys: Vec<usize> = Vec::new();
        let mut k: usize = 0;
        while k < contributors.len()
            invariant
                k <= contributors.len(),
                keys@ == history::commit_counts(views(contributors@)).take(k as int),
            decreases contributors.len() - k,
        {
            keys.push(contributors[k].commit_count);
            assert(keys@ =~= history::commit_counts(views(contributors@)).take(k as int + 1));
            k = k + 1;
        }
        assert(keys@ =~= history::commit_counts(views(contributors@)));
        let order = rank_descending(&keys);
        let ranked = pick(&contributors, &order, contributors.len());
        proof {
            assert(views(ranked@) =~= arranged(views(contributors@), order@));
            assert forall|i: int, j: int| 0 <= i < j < ranked@.len() implies ranked@[i].commit_count >= ranked@[j].commit_count by {
                let a = keys@[order@[i] as int];
                let b = keys@[order@[j] as int];
                assert(a >= b);
                assert(views(ranked@)[i].commit_count == a);
                assert(views(ranked@)[j].commit_count == b);
            }
        }
        let last_activity = match latest {
            Some((_, date)) => date,
            None => "Unknown".to_owned(),
        };
        (commit_count, ranked, last_activity, files)
    }
}

/// Whether a walk of the given depth that has visited `visited` commits
/// goes on to the next one: always at depth 0, else while it has visited
/// fewer than `depth`.
pub fn within_depth(visited: usize, depth: usize) -> (go_on: bool)
    ensures
        go_on == (depth == 0 || visited < depth),
        forall|len: nat|
            len > visited ==> go_on == (#[trigger] history::visited(len, depth as nat) > visited),
{
    depth == 0 || visited < depth
}

/// Walks `commits`, newest first, as far as `depth` allows (all of them
/// at depth 0) and returns the number of commits visited, the
/// contributors with those of most commits first, the date of the most
/// recent commit and the history of every file that a diff touched.
pub fn analyze_git_repo_extended(commits: &Vec<CommitRecord>, depth: usize) -> (r: (
    usize,
    Vec<Contributor>,
    String,
    Vec<(String, FileStats)>,
))
    ensures
        ({
            let n = history::visited(commits@.len(), depth as nat);
            let h = history::history_after(views(commits@), n);
            &&& r.0 == n
            &&& views(r.1@) == ranked(h.contributors, history::commit_counts(h.contributors))
            &&& r.2@ == history::last_activity(h)
            &&& file_views(r.3@) == history::all_with_rates(h.files)
        }),
        forall|i: int, j: int|
            0 <= i < j < r.1@.len() ==> r.1@[i].commit_count >= r.1@[j].commit_count,
        forall|i: int|
            0 <= i < r.3@.len() ==> {
                let f = (#[trigger] r.3@[i]).1;
                &&& f.commit_count >= 1
                &&& f.avg_changes_per_commit.num == f.lines_added + f.lines_removed
                &&& f.avg_changes_per_commit.den == f.commit_count
                &&& f.change_frequency.wf()
                &&& f.change_frequency == history::frequency(
                    f.commit_count,
                    f.first_commit_time,
                    f.last_commit_time,
                )
                &&& f.first_commit_time == f.last_commit_time ==> f.change_frequency
                    == Ratio::whole_spec(f.commit_count as int)
                &&& history::is_sound_stats(f@)
            },
        history::paths(file_views(r.3@)).no_duplicates(),
        history::identities(views(r.1@)).no_duplicates(),
{
    let limit: usize = if depth > 0 && depth < commits.len() {
        depth
    } else {
        commits.len()
    };
    let mut h = History::new();
    let mut i: usize = 0;
    while i < limit
        invariant
            i <= limit <= commits.len(),
            h@ == history::history_after(views(commits@), i as nat),
        decreases limit - i,
    {
        h.record_commit(&commits[i]);
        i = i + 1;
    }
    proof {
        history::lemma_history_commit_count(views(commits@), limit as nat);
        history::lemma_history_sound(views(commits@), limit as nat);
    }
    let ghost model = h@;
    let ghost known: usize = h.contributors.len();
    assert(model.contributors.len() == known);
    let r = h.finish();
    proof {
        assert forall|i: int| 0 <= i < r.3@.len() implies ({
            let f = (#[trigger] r.3@[i]).1;
            &&& f.commit_count >= 1
            &&& f.avg_changes_per_commit.num == f.lines_added + f.lines_removed
            &&& f.avg_changes_per_commit.den == f.commit_count
            &&& f.change_frequency.wf()
            &&& f.change_frequency == history::frequency(
                f.commit_count,
                f.first_commit_time,
                f.last_commit_time,
            )
            &&& f.first_commit_time == f.last_commit_time ==> f.change_frequency
                == Ratio::whole_spec(f.commit_count as int)
            &&& history::is_sound_stats(f@)
        }) by {
            let v = file_views(r.3@)[i];
            assert(file_views(r.3@).len() == r.3@.len());
            assert(history::all_with_rates(model.files).len() == model.files.len());
            assert(v == (model.files[i].0, history::with_rates(model.files[i].1)));
            assert(history::is_sound_stats(model.files[i].1));
            assert(v.1 == r.3@[i].1@);
        }
        assert(history::paths(file_views(r.3@)) =~= history::paths(model.files));
        let keys = history::commit_counts(model.contributors);
        let order = ranking(keys);
        assert(keys.len() == model.contributors.len());
        lemma_ranking(keys);
        lemma_ranking_distinct(keys, order);
        let before = history::identities(model.contributors);
        let after = history::identities(views(r.1@));
        assert forall|k: int, l: int|
            0 <= k < after.len() && 0 <= l < after.len() && k != l implies after[k]
            != after[l] by {
            assert(after[k] == before[order[k] as int]);
            assert(after[l] == before[order[l] as int]);
        }
    }
    r
}

/// Walks `commits` as `analyze_git_repo_extended` does and returns the
/// number of commits visited, the contributors with those of most commits
/// first, and the date of the most recent commit.
pub fn analyze_git_repo(commits: &Vec<CommitRecord>, depth: usize) -> (r: (
    usize,
    Vec<Contributor>,
    String,
))
    ensures
        ({
            let n = history::visited(commits@.len(), depth as nat);
            let h = history::history_after(views(commits@), n);
            &&& r.0 == n
            &&& views(r.1@) == ranked(h.contributors, history::commit_counts(h.contributors))
            &&& r.2@ == history::last_activity(h)
        }),
        forall|i: int, j: int|
            0 <= i < j < r.1@.len() ==> r.1@[i].commit_count >= r.1@[j].commit_count,
{
    let (commit_count, contributors, last_activity, _) = analyze_git_repo_extended(commits, depth);
    (commit_count, contributors, last_activity)
}

/// What the change frequency of a file derives from; it ranks the higher
/// the higher that frequency is.
#[derive(Debug)]
pub struct Rate {
    pub commits: usize,
    pub first: i64,
    pub last: i64,
}

impl Rate {
    /// The change frequency that the rate stands for.
    pub open spec fn value(&self) -> Ratio {
        history::frequency(self.commits, self.first, self.last)
    }
}

proof fn lemma_ratio_order(a: Ratio, b: Ratio, c: Ratio)
    requires
        a.den > 0,
        b.den > 0,
        c.den > 0,
    ensures
        !(a.exceeds(b) && b.exceeds(a)),
        a.exceeds(b) ==> a.exceeds(c) || c.exceeds(b),
{
    let (an, ad) = (a.num as int, a.den as int);
    let (bn, bd) = (b.num as int, b.den as int);
    let (cn, cd) = (c.num as int, c.den as int);
    if a.exceeds(b) && !a.exceeds(c) && !c.exceeds(b) {
        assert(an * bd > bn * ad);
        assert(an * cd <= cn * ad);
        assert(cn * bd <= bn * cd);
        assert(false) by (nonlinear_arith)
            requires
                ad > 0,
                bd > 0,
                cd > 0,
                an >= 0,
                bn >= 0,
                cn >= 0,
                an * bd > bn * ad,
                an * cd <= cn * ad,
                cn * bd <= bn * cd,
        {
            assert((an * cd) * bd <= (cn * ad) * bd);
            assert((cn * bd) * ad <= (bn * cd) * ad);
            assert((an * bd) * cd == (an * cd) * bd);
            assert((cn * ad) * bd == (cn * bd) * ad);
            assert((bn * cd) * ad == (bn * ad) * cd);
            assert((an * bd) * cd <= (bn * ad) * cd);
        }
    }
}

impl RankKey for Rate {
    open spec fn outranks(&self, other: &Self) -> bool {
        self.value().exceeds(other.value())
    }

    proof fn lemma_strict_weak_order(a: &Self, b: &Self, c: &Self) {
        lemma_ratio_order(a.value(), b.value(), c.value());
    }

    fn ranks_above(&self, other: &Self) -> (r: bool) {
        let x = change_frequency(self.commits, self.first, self.last);
        let y = change_frequency(other.commits, other.first, other.last);
        assert(x.num * y.den <= (30 * usize::MAX) * 0x1_0000_0000_0000) by (nonlinear_arith)
            requires
                x.num <= 30 * usize::MAX,
                y.den <= 0x1_0000_0000_0000,
        ;
        assert(y.num * x.den <= (30 * usize::MAX) * 0x1_0000_0000_0000) by (nonlinear_arith)
            requires
                y.num <= 30 * usize::MAX,
                x.den <= 0x1_0000_0000_0000,
        ;
        x.num * y.den > y.num * x.den
    }
}

} // verus!
