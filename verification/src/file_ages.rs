//! The history part of the record: commits, contributors, and the files
//! by age, by number of commits and by change frequency.

use vstd::prelude::*;

use crate::analyzer::{
    pair_views, ChangedFile, ChangedFileView, RepositoryAnalysis, RepositoryAnalysisView,
};
use crate::counts::count_views;
use crate::git::{analyze_git_repo_extended, file_views, CommitRecord, FileStats, Rate};
use crate::history;
use crate::history::FileStatsView;
use crate::ranking::{
    arranged, lemma_ranking, lemma_top_arranged, ranked, ranking, top_positions, top_ranked,
    Earliest,
};
use crate::seq_util::views;

verus! {

/// How many files each list of the history part keeps.
pub const KEPT: usize = 10;

/// The author with the highest count among the first `n` entries, with
/// that count; the first of them where several share it, and `Unknown`
/// with the count zero where no count is above zero.
pub open spec fn top_author(cs: Seq<(Seq<char>, usize)>, n: nat) -> (Seq<char>, usize)
    decreases n,
{
    if n == 0 {
        ("Unknown"@, 0usize)
    } else {
        let before = top_author(cs, (n - 1) as nat);
        if cs[n - 1].1 > before.1 {
            cs[n - 1]
        } else {
            before
        }
    }
}

/// Each file with the date of its first commit.
pub open spec fn dated(files: Seq<(Seq<char>, FileStatsView)>) -> Seq<(Seq<char>, Seq<char>)> {
    Seq::new(files.len(), |i: int| (files[i].0, files[i].1.first_commit_date))
}

/// The times of the first commits.
pub open spec fn first_times(files: Seq<(Seq<char>, FileStatsView)>) -> Seq<i64> {
    Seq::new(files.len(), |i: int| files[i].1.first_commit_time)
}

/// The times of the first commits, ranking the earliest highest.
pub open spec fn earliest_first(files: Seq<(Seq<char>, FileStatsView)>) -> Seq<Earliest> {
    Seq::new(files.len(), |i: int| Earliest(files[i].1.first_commit_time))
}

/// Each file with the number of its commits.
pub open spec fn modified(files: Seq<(Seq<char>, FileStatsView)>) -> Seq<(Seq<char>, usize)> {
    Seq::new(files.len(), |i: int| (files[i].0, files[i].1.commit_count))
}

/// The numbers of commits.
pub open spec fn commit_totals(files: Seq<(Seq<char>, FileStatsView)>) -> Seq<usize> {
    Seq::new(files.len(), |i: int| files[i].1.commit_count)
}

/// The history of a file in short.
pub open spec fn in_short(path: Seq<char>, s: FileStatsView) -> ChangedFileView {
    ChangedFileView {
        path,
        commit_count: s.commit_count,
        lines_added: s.lines_added,
        lines_removed: s.lines_removed,
        change_frequency: s.change_frequency,
        top_contributor: top_author(s.author_contributions, s.author_contributions.len()).0,
        last_modified: s.last_commit_date,
        avg_changes_per_commit: s.avg_changes_per_commit,
    }
}

/// The history of each file in short.
pub open spec fn changed(files: Seq<(Seq<char>, FileStatsView)>) -> Seq<ChangedFileView> {
    Seq::new(files.len(), |i: int| in_short(files[i].0, files[i].1))
}

/// What the change frequency of each file derives from.
pub open spec fn rates(files: Seq<(Seq<char>, FileStatsView)>) -> Seq<Rate> {
    Seq::new(
        files.len(),
        |i: int|
            Rate {
                commits: files[i].1.commit_count,
                first: files[i].1.first_commit_time,
                last: files[i].1.last_commit_time,
            },
    )
}

/// The author with the most commits to a file.
pub fn top_contributor(cs: &Vec<(String, usize)>) -> (name: String)
    ensures
        name@ == top_author(count_views(cs@), cs@.len()).0,
{
    let mut best: String = "Unknown".to_owned();
    let mut most: usize = 0;
    let mut i: usize = 0;
    while i < cs.len()
        invariant
            i <= cs.len(),
            (best@, most) == top_author(count_views(cs@), i as nat),
        decreases cs.len() - i,
    {
        if cs[i].1 > most {
            most = cs[i].1;
            best = cs[i].0.clone();
        }
        i = i + 1;
    }
    best
}

/// The files in four rankings, ten of each at most: by the time of the
/// first commit, latest first and earliest first, each with the date of
/// that commit; by the number of commits; and, in short, by change
/// frequency. Files that tie stand in the order of `files`.
pub fn rank_files(files: &Vec<(String, FileStats)>) -> (r: (
    Vec<(String, String)>,
    Vec<(String, String)>,
    Vec<(String, usize)>,
    Vec<ChangedFile>,
))
    ensures
        ({
            let f = file_views(files@);
            &&& pair_views(r.0@) == top_ranked(dated(f), first_times(f), KEPT as nat)
            &&& pair_views(r.1@) == top_ranked(dated(f), earliest_first(f), KEPT as nat)
            &&& count_views(r.2@) == top_ranked(modified(f), commit_totals(f), KEPT as nat)
            &&& views(r.3@) == top_ranked(changed(f), rates(f), KEPT as nat)
        }),
{
    let ghost f = file_views(files@);
    let mut latest_keys: Vec<i64> = Vec::new();
    let mut earliest_keys: Vec<Earliest> = Vec::new();
    let mut count_keys: Vec<usize> = Vec::new();
    let mut rate_keys: Vec<Rate> = Vec::new();
    let mut i: usize = 0;
    while i < files.len()
        invariant
            i <= files.len(),
            f == file_views(files@),
            latest_keys@ == first_times(f).take(i as int),
            earliest_keys@ == earliest_first(f).take(i as int),
            count_keys@ == commit_totals(f).take(i as int),
            rate_keys@ == rates(f).take(i as int),
        decreases files.len() - i,
    {
        let s = &files[i].1;
        assert(f[i as int].1 == s@);
        latest_keys.push(s.first_commit_time);
        earliest_keys.push(Earliest(s.first_commit_time));
        count_keys.push(s.commit_count);
        rate_keys.push(
            Rate { commits: s.commit_count, first: s.first_commit_time, last: s.last_commit_time },
        );
        assert(latest_keys@ =~= first_times(f).take(i as int + 1));
        assert(earliest_keys@ =~= earliest_first(f).take(i as int + 1));
        assert(count_keys@ =~= commit_totals(f).take(i as int + 1));
        assert(rate_keys@ =~= rates(f).take(i as int + 1));
        i = i + 1;
    }
    assert(latest_keys@ =~= first_times(f));
    assert(earliest_keys@ =~= earliest_first(f));
    assert(count_keys@ =~= commit_totals(f));
    assert(rate_keys@ =~= rates(f));

    let best = top_positions(&latest_keys, KEPT);
    let mut newest: Vec<(String, String)> = Vec::new();
    let mut j: usize = 0;
    while j < best.len()
        invariant
            j <= best.len(),
            f == file_views(files@),
            forall|k: int| 0 <= k < best.len() ==> (#[trigger] best[k]) < files.len(),
            pair_views(newest@) == arranged(dated(f), best@).take(j as int),
        decreases best.len() - j,
    {
        let ghost before = pair_views(newest@);
        let ghost all = arranged(dated(f), best@);
        let file = &files[best[j]];
        assert(f[best@[j as int] as int] == (file.0@, file.1@));
        newest.push((file.0.clone(), file.1.first_commit_date.clone()));
        assert(pair_views(newest@) =~= before.push(all[j as int]));
        assert(all.take(j as int + 1) =~= all.take(j as int).push(all[j as int]));
        j = j + 1;
    }
    proof {
        assert(pair_views(newest@) =~= arranged(dated(f), best@));
        lemma_ranking(latest_keys@);
        lemma_top_arranged(dated(f), ranking(latest_keys@), KEPT as nat);
    }

    let best = top_positions(&earliest_keys, KEPT);
    let mut oldest: Vec<(String, String)> = Vec::new();
    let mut j: usize = 0;
    while j < best.len()
        invariant
            j <= best.len(),
            f == file_views(files@),
            forall|k: int| 0 <= k < best.len() ==> (#[trigger] best[k]) < files.len(),
            pair_views(oldest@) == arranged(dated(f), best@).take(j as int),
        decreases best.len() - j,
    {
        let ghost before = pair_views(oldest@);
        let ghost all = arranged(dated(f), best@);
        let file = &files[best[j]];
        assert(f[best@[j as int] as int] == (file.0@, file.1@));
        oldest.push((file.0.clone(), file.1.first_commit_date.clone()));
        assert(pair_views(oldest@) =~= before.push(all[j as int]));
        assert(all.take(j as int + 1) =~= all.take(j as int).push(all[j as int]));
        j = j + 1;
    }
    proof {
        assert(pair_views(oldest@) =~= arranged(dated(f), best@));
        lemma_ranking(earliest_keys@);
        lemma_top_arranged(dated(f), ranking(earliest_keys@), KEPT as nat);
    }

    let best = top_positions(&count_keys, KEPT);
    let mut most_modified: Vec<(String, usize)> = Vec::new();
    let mut j: usize = 0;
    while j < best.len()
        invariant
            j <= best.len(),
            f == file_views(files@),
            forall|k: int| 0 <= k < best.len() ==> (#[trigger] best[k]) < files.len(),
            count_views(most_modified@) == arranged(modified(f), best@).take(j as int),
        decreases best.len() - j,
    {
        let ghost before = count_views(most_modified@);
        let ghost all = arranged(modified(f), best@);
        let file = &files[best[j]];
        assert(f[best@[j as int] as int] == (file.0@, file.1@));
        most_modified.push((file.0.clone(), file.1.commit_count));
        assert(count_views(most_modified@) =~= before.push(all[j as int]));
        assert(all.take(j as int + 1) =~= all.take(j as int).push(all[j as int]));
        j = j + 1;
    }
    proof {
        assert(count_views(most_modified@) =~= arranged(modified(f), best@));
        lemma_ranking(count_keys@);
        lemma_top_arranged(modified(f), ranking(count_keys@), KEPT as nat);
    }

    let best = top_positions(&rate_keys, KEPT);
    let mut most_changed: Vec<ChangedFile> = Vec::new();
    let mut j: usize = 0;
    while j < best.len()
        invariant
            j <= best.len(),
            f == file_views(files@),
            forall|k: int| 0 <= k < best.len() ==> (#[trigger] best[k]) < files.len(),
            views(most_changed@) == arranged(changed(f), best@).take(j as int),
        decreases best.len() - j,
    {
        let ghost before = views(most_changed@);
        let ghost all = arranged(changed(f), best@);
        let file = &files[best[j]];
        assert(f[best@[j as int] as int] == (file.0@, file.1@));
        let s = &file.1;
        most_changed.push(
            ChangedFile {
                path: file.0.clone(),
                commit_count: s.commit_count,
                lines_added: s.lines_added,
                lines_removed: s.lines_removed,
                change_frequency: s.change_frequency,
                top_contributor: top_contributor(&s.author_contributions),
                last_modified: s.last_commit_date.clone(),
                avg_changes_per_commit: s.avg_changes_per_commit,
            },
        );
        assert(views(most_changed@) =~= before.push(all[j as int]));
        assert(all.take(j as int + 1) =~= all.take(j as int).push(all[j as int]));
        j = j + 1;
    }
    proof {
        assert(views(most_changed@) =~= arranged(changed(f), best@));
        lemma_ranking(rate_keys@);
        lemma_top_arranged(changed(f), ranking(rate_keys@), KEPT as nat);
    }
    (newest, oldest, most_modified, most_changed)
}

/// Walks `commits` as far as `depth` allows and enters the history part
/// of the record: the number of commits, the contributors, the date of
/// the last activity, and the rankings of the files that the walk met.
pub fn analyze_git_history(
    commits: &Vec<CommitRecord>,
    analysis: &mut RepositoryAnalysis,
    history_depth: usize,
)
    ensures
        ({
            let n = history::visited(commits@.len(), history_depth as nat);
            let h = history::history_after(views(commits@), n);
            let f = history::all_with_rates(h.files);
            let after = final(analysis)@;
            &&& after.commit_count == n
            &&& after.contributors == ranked(h.contributors, history::commit_counts(h.contributors))
            &&& after.last_activity == history::last_activity(h)
            &&& after.file_age_stats.newest_files == top_ranked(dated(f), first_times(f), KEPT as nat)
            &&& after.file_age_stats.oldest_files == top_ranked(dated(f), earliest_first(f), KEPT as nat)
            &&& after.file_age_stats.most_modified_files == top_ranked(modified(f), commit_totals(f), KEPT as nat)
            &&& after.most_changed_files == top_ranked(changed(f), rates(f), KEPT as nat)
        }),
        final(analysis)@ == (RepositoryAnalysisView {
            commit_count: final(analysis)@.commit_count,
            contributors: final(analysis)@.contributors,
            last_activity: final(analysis)@.last_activity,
            file_age_stats: final(analysis)@.file_age_stats,
            most_changed_files: final(analysis)@.most_changed_files,
            ..old(analysis)@
        }),
        forall|i: int, j: int|
            0 <= i < j < final(analysis)@.contributors.len() ==> final(analysis)@.contributors[i].commit_count
                >= final(analysis)@.contributors[j].commit_count,
{
    let (commit_count, contributors, last_activity, file_stats) = analyze_git_repo_extended(
        commits,
        history_depth,
    );
    let (newest, oldest, most_modified, most_changed) = rank_files(&file_stats);
    analysis.commit_count = commit_count;
    analysis.contributors = contributors;
    analysis.last_activity = last_activity;
    analysis.file_age_stats.newest_files = newest;
    analysis.file_age_stats.oldest_files = oldest;
    analysis.file_age_stats.most_modified_files = most_modified;
    analysis.most_changed_files = most_changed;
    assert forall|i: int, j: int| 0 <= i < j < analysis@.contributors.len() implies analysis@.contributors[i].commit_count
        >= analysis@.contributors[j].commit_count by {
        assert(analysis@.contributors[i] == analysis.contributors@[i]@);
        assert(analysis@.contributors[j] == analysis.contributors@[j]@);
    }
    assert(analysis@ =~~= (RepositoryAnalysisView {
        commit_count: analysis@.commit_count,
        contributors: analysis@.contributors,
        last_activity: analysis@.last_activity,
        file_age_stats: analysis@.file_age_stats,
        most_changed_files: analysis@.most_changed_files,
        ..old(analysis)@
    }));
}

} // verus!
