//! The record of an analysis, and the analysis of a whole tree.

use vstd::prelude::*;

use crate::census::{analyze_files, with_files};
use crate::code_metrics::{analyze_code_complexity, is_summary, metrics_after};
use crate::corpus::SourceFile;
use crate::counts::count_views;
use crate::duplicates::{
    all_entries, find_duplicate_code, is_report_entry, line_counts, searched,
};
use crate::file_ages::{
    analyze_git_history, changed, commit_totals, dated, earliest_first, first_times, modified,
    rates,
};
use crate::git::{CommitRecord, Contributor};
use crate::history;
use crate::history::ContributorView;
use crate::ranking::{ranked, top_ranked};
use crate::ratio::Ratio;
use crate::seq_util::views;

verus! {

/// Complexity scores and function lengths over the files of the tree.
#[derive(Debug)]
pub struct ComplexityStats {
    pub avg_complexity: Ratio,
    pub max_complexity: usize,
    /// Path and score of the files whose score is above ten, highest first,
    /// ten at most.
    pub complex_files: Vec<(String, usize)>,
    pub avg_function_length: Ratio,
    pub max_function_length: usize,
    /// Path, name and length of the functions longer than thirty lines,
    /// longest first, ten at most.
    pub long_functions: Vec<(String, String, usize)>,
}

/// The views of a list of pairs of texts.
pub open spec fn pair_views(s: Seq<(String, String)>) -> Seq<(Seq<char>, Seq<char>)> {
    Seq::new(s.len(), |i: int| (s[i].0@, s[i].1@))
}

/// The views of a list of paths and names with lengths.
pub open spec fn triple_views(s: Seq<(String, String, usize)>) -> Seq<
    (Seq<char>, Seq<char>, usize),
> {
    Seq::new(s.len(), |i: int| (s[i].0@, s[i].1@, s[i].2))
}

/// What `ComplexityStats` holds, as sequences.
#[verifier::ext_equal]
pub struct ComplexityStatsView {
    pub avg_complexity: Ratio,
    pub max_complexity: usize,
    pub complex_files: Seq<(Seq<char>, usize)>,
    pub avg_function_length: Ratio,
    pub max_function_length: usize,
    pub long_functions: Seq<(Seq<char>, Seq<char>, usize)>,
}

impl View for ComplexityStats {
    type V = ComplexityStatsView;

    open spec fn view(&self) -> ComplexityStatsView {
        ComplexityStatsView {
            avg_complexity: self.avg_complexity,
            max_complexity: self.max_complexity,
            complex_files: count_views(self.complex_files@),
            avg_function_length: self.avg_function_length,
            max_function_length: self.max_function_length,
            long_functions: triple_views(self.long_functions@),
        }
    }
}

/// The files by the date of the first commit that the walk met for them,
/// and by the number of their commits; ten of each at most.
#[derive(Debug)]
pub struct FileAgeStats {
    /// Path and date, most recent first.
    pub newest_files: Vec<(String, String)>,
    /// Path and date, earliest first.
    pub oldest_files: Vec<(String, String)>,
    /// Path and number of commits, most commits first.
    pub most_modified_files: Vec<(String, usize)>,
}

/// What `FileAgeStats` holds, as sequences.
#[verifier::ext_equal]
pub struct FileAgeStatsView {
    pub newest_files: Seq<(Seq<char>, Seq<char>)>,
    pub oldest_files: Seq<(Seq<char>, Seq<char>)>,
    pub most_modified_files: Seq<(Seq<char>, usize)>,
}

impl View for FileAgeStats {
    type V = FileAgeStatsView;

    open spec fn view(&self) -> FileAgeStatsView {
        FileAgeStatsView {
            newest_files: pair_views(self.newest_files@),
            oldest_files: pair_views(self.oldest_files@),
            most_modified_files: count_views(self.most_modified_files@),
        }
    }
}

/// A block of lines that two files share: the paths of the two files, the
/// number of lines, and how alike the two copies are. Copies are found
/// by exact match, so the similarity is always one.
#[derive(Debug)]
pub struct DuplicateCode {
    pub files: Vec<String>,
    pub line_count: usize,
    pub similarity: Ratio,
}

/// What `DuplicateCode` holds, as sequences.
#[verifier::ext_equal]
pub struct DuplicateCodeView {
    pub files: Seq<Seq<char>>,
    pub line_count: usize,
    pub similarity: Ratio,
}

impl View for DuplicateCode {
    type V = DuplicateCodeView;

    open spec fn view(&self) -> DuplicateCodeView {
        DuplicateCodeView {
            files: views(self.files@),
            line_count: self.line_count,
            similarity: self.similarity,
        }
    }
}

/// The history of one file in short, as the reports show it.
#[derive(Debug)]
pub struct ChangedFile {
    pub path: String,
    pub commit_count: usize,
    pub lines_added: usize,
    pub lines_removed: usize,
    pub change_frequency: Ratio,
    pub top_contributor: String,
    pub last_modified: String,
    pub avg_changes_per_commit: Ratio,
}

/// What `ChangedFile` holds, as sequences.
#[verifier::ext_equal]
pub struct ChangedFileView {
    pub path: Seq<char>,
    pub commit_count: usize,
    pub lines_added: usize,
    pub lines_removed: usize,
    pub change_frequency: Ratio,
    pub top_contributor: Seq<char>,
    pub last_modified: Seq<char>,
    pub avg_changes_per_commit: Ratio,
}

impl View for ChangedFile {
    type V = ChangedFileView;

    open spec fn view(&self) -> ChangedFileView {
        ChangedFileView {
            path: self.path@,
            commit_count: self.commit_count,
            lines_added: self.lines_added,
            lines_removed: self.lines_removed,
            change_frequency: self.change_frequency,
            top_contributor: self.top_contributor@,
            last_modified: self.last_modified@,
            avg_changes_per_commit: self.avg_changes_per_commit,
        }
    }
}

/// Everything that an analysis finds out about a tree and its history.
#[derive(Debug)]
pub struct RepositoryAnalysis {
    pub repo_path: String,
    pub file_count: usize,
    /// Language and number of files, in the order in which the languages
    /// were met.
    pub language_stats: Vec<(String, usize)>,
    pub total_lines: usize,
    pub code_lines: usize,
    pub comment_lines: usize,
    pub blank_lines: usize,
    pub commit_count: usize,
    pub contributors: Vec<Contributor>,
    pub last_activity: String,
    /// Extension and number of files, in the order in which the
    /// extensions were met.
    pub file_extensions: Vec<(String, usize)>,
    pub avg_file_size: Ratio,
    /// Path and size in bytes of the files whose size could be read, in
    /// the order of the scan.
    pub largest_files: Vec<(String, usize)>,
    pub complexity_stats: ComplexityStats,
    pub file_age_stats: FileAgeStats,
    pub duplicate_code: Vec<DuplicateCode>,
    pub most_changed_files: Vec<ChangedFile>,
}

/// What `RepositoryAnalysis` holds, as sequences.
#[verifier::ext_equal]
pub struct RepositoryAnalysisView {
    pub repo_path: Seq<char>,
    pub file_count: usize,
    pub language_stats: Seq<(Seq<char>, usize)>,
    pub total_lines: usize,
    pub code_lines: usize,
    pub comment_lines: usize,
    pub blank_lines: usize,
    pub commit_count: usize,
    pub contributors: Seq<ContributorView>,
    pub last_activity: Seq<char>,
    pub file_extensions: Seq<(Seq<char>, usize)>,
    pub avg_file_size: Ratio,
    pub largest_files: Seq<(Seq<char>, usize)>,
    pub complexity_stats: ComplexityStatsView,
    pub file_age_stats: FileAgeStatsView,
    pub duplicate_code: Seq<DuplicateCodeView>,
    pub most_changed_files: Seq<ChangedFileView>,
}

impl View for RepositoryAnalysis {
    type V = RepositoryAnalysisView;

    open spec fn view(&self) -> RepositoryAnalysisView {
        RepositoryAnalysisView {
            repo_path: self.repo_path@,
            file_count: self.file_count,
            language_stats: count_views(self.language_stats@),
            total_lines: self.total_lines,
            code_lines: self.code_lines,
            comment_lines: self.comment_lines,
            blank_lines: self.blank_lines,
            commit_count: self.commit_count,
            contributors: views(self.contributors@),
            last_activity: self.last_activity@,
            file_extensions: count_views(self.file_extensions@),
            avg_file_size: self.avg_file_size,
            largest_files: count_views(self.largest_files@),
            complexity_stats: self.complexity_stats@,
            file_age_stats: self.file_age_stats@,
            duplicate_code: views(self.duplicate_code@),
            most_changed_files: views(self.most_changed_files@),
        }
    }
}

/// The record of an analysis that has found nothing yet.
pub open spec fn blank_analysis(repo_path: Seq<char>) -> RepositoryAnalysisView {
    RepositoryAnalysisView {
        repo_path,
        file_count: 0,
        language_stats: seq![],
        total_lines: 0,
        code_lines: 0,
        comment_lines: 0,
        blank_lines: 0,
        commit_count: 0,
        contributors: seq![],
        last_activity: seq![],
        file_extensions: seq![],
        avg_file_size: Ratio::whole_spec(0),
        largest_files: seq![],
        complexity_stats: ComplexityStatsView {
            avg_complexity: Ratio::whole_spec(0),
            max_complexity: 0,
            complex_files: seq![],
            avg_function_length: Ratio::whole_spec(0),
            max_function_length: 0,
            long_functions: seq![],
        },
        file_age_stats: FileAgeStatsView {
            newest_files: seq![],
            oldest_files: seq![],
            most_modified_files: seq![],
        },
        duplicate_code: seq![],
        most_changed_files: seq![],
    }
}

impl RepositoryAnalysis {
    /// The record of an analysis of the tree at `repo_path` that has found
    /// nothing yet.
    pub fn new(repo_path: &str) -> (analysis: RepositoryAnalysis)
        ensures
            analysis@ == blank_analysis(repo_path@),
    {
        let analysis = RepositoryAnalysis {
            repo_path: repo_path.to_owned(),
            file_count: 0,
            language_stats: Vec::new(),
            total_lines: 0,
            code_lines: 0,
            comment_lines: 0,
            blank_lines: 0,
            commit_count: 0,
            contributors: Vec::new(),
            last_activity: String::new(),
            file_extensions: Vec::new(),
            avg_file_size: Ratio::zero(),
            largest_files: Vec::new(),
            complexity_stats: ComplexityStats {
                avg_complexity: Ratio::zero(),
                max_complexity: 0,
                complex_files: Vec::new(),
                avg_function_length: Ratio::zero(),
                max_function_length: 0,
                long_functions: Vec::new(),
            },
            file_age_stats: FileAgeStats {
                newest_files: Vec::new(),
                oldest_files: Vec::new(),
                most_modified_files: Vec::new(),
            },
            duplicate_code: Vec::new(),
            most_changed_files: Vec::new(),
        };
        assert(analysis@ =~~= blank_analysis(repo_path@));
        analysis
    }
}

/// Analyses the tree at `repo_path`, given its files and the commits of
/// its history, newest first: the census of the files, the history as
/// far as `history_depth` allows, the complexity of the code, and the
/// duplicated blocks.
pub fn analyze_repository(
    repo_path: &str,
    files: &Vec<SourceFile>,
    commits: &Vec<CommitRecord>,
    history_depth: usize,
) -> (analysis: RepositoryAnalysis)
    ensures
        ({
            let census = with_files(blank_analysis(repo_path@), views(files@), files@.len());
            let n = history::visited(commits@.len(), history_depth as nat);
            let h = history::history_after(views(commits@), n);
            let f = history::all_with_rates(h.files);
            let all = all_entries(searched(views(files@), files@.len()));
            let a = analysis@;
            &&& a == (RepositoryAnalysisView {
                commit_count: a.commit_count,
                contributors: a.contributors,
                last_activity: a.last_activity,
                file_age_stats: a.file_age_stats,
                most_changed_files: a.most_changed_files,
                complexity_stats: a.complexity_stats,
                duplicate_code: a.duplicate_code,
                ..census
            })
            &&& a.commit_count == n
            &&& a.contributors == ranked(h.contributors, history::commit_counts(h.contributors))
            &&& a.last_activity == history::last_activity(h)
            &&& a.file_age_stats.newest_files == top_ranked(dated(f), first_times(f), 10)
            &&& a.file_age_stats.oldest_files == top_ranked(dated(f), earliest_first(f), 10)
            &&& a.file_age_stats.most_modified_files == top_ranked(modified(f), commit_totals(f), 10)
            &&& a.most_changed_files == top_ranked(changed(f), rates(f), 10)
            &&& is_summary(
                census.complexity_stats,
                metrics_after(views(files@), files@.len()),
                a.complexity_stats,
            )
            &&& a.duplicate_code == top_ranked(all, line_counts(all), 10)
        }),
        forall|i: int, j: int|
            0 <= i < j < analysis@.contributors.len() ==> analysis@.contributors[i].commit_count
                >= analysis@.contributors[j].commit_count,
        forall|k: int|
            0 <= k < analysis@.duplicate_code.len() ==> is_report_entry(
                searched(views(files@), files@.len()),
                #[trigger] analysis@.duplicate_code[k],
            ),
{
    let mut analysis = RepositoryAnalysis::new(repo_path);
    analyze_files(files, &mut analysis);
    analyze_git_history(commits, &mut analysis, history_depth);
    analyze_code_complexity(files, &mut analysis);
    find_duplicate_code(files, &mut analysis);
    analysis
}

} // verus!
