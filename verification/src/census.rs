//! The census of the files of a tree: how many there are, of which
//! extensions and languages, how large, and how many lines of each kind
//! they hold.

use vstd::prelude::*;

use crate::analyzer::{RepositoryAnalysis, RepositoryAnalysisView};
use crate::corpus::{
    extension_key, extension_of, language_for, language_of, SourceFile, SourceFileView,
};
use crate::counts::{add_one, count_one, lemma_count_one_keeps_names_distinct, names};
use crate::line_types::{comment_style_of, count_line_types, tally};
use crate::seq_util::{capped, views};
use crate::text::lines;

verus! {

/// The record after the census has taken in one more file. Every file
/// counts as a file; one whose size is known joins the list of sizes; one
/// with an extension counts for its extension and for the language of
/// that extension; one whose text could be read adds its lines.
pub open spec fn with_file(a: RepositoryAnalysisView, f: SourceFileView) -> RepositoryAnalysisView {
    let ext = extension_key(f);
    let counted = RepositoryAnalysisView {
        file_count: capped(a.file_count + 1),
        largest_files: match f.size {
            Some(size) => a.largest_files.push((f.path, size)),
            None => a.largest_files,
        },
        file_extensions: if f.extension is Some {
            count_one(a.file_extensions, ext)
        } else {
            a.file_extensions
        },
        language_stats: if f.extension is Some {
            count_one(a.language_stats, language_of(ext))
        } else {
            a.language_stats
        },
        ..a
    };
    match f.content {
        Some(text) => {
            let all = lines(text);
            let t = tally(all, comment_style_of(ext), all.len());
            RepositoryAnalysisView {
                total_lines: capped(a.total_lines + all.len()),
                code_lines: capped(a.code_lines + t.code),
                comment_lines: capped(a.comment_lines + t.comment),
                blank_lines: capped(a.blank_lines + t.blank),
                ..counted
            }
        },
        None => counted,
    }
}

/// The record after the census has taken in the first `n` of `files`.
pub open spec fn with_files(a: RepositoryAnalysisView, files: Seq<SourceFileView>, n: nat) -> RepositoryAnalysisView
    decreases n,
{
    if n == 0 {
        a
    } else {
        with_file(with_files(a, files, (n - 1) as nat), files[n - 1])
    }
}

/// Every extension and every language stands once in its list.
pub open spec fn names_once(a: RepositoryAnalysisView) -> bool {
    names(a.file_extensions).no_duplicates() && names(a.language_stats).no_duplicates()
}

/// One more file keeps every extension and every language once in its
/// list.
pub proof fn lemma_with_file_keeps_names_once(a: RepositoryAnalysisView, f: SourceFileView)
    requires
        names_once(a),
    ensures
        names_once(with_file(a, f)),
{
    lemma_count_one_keeps_names_distinct(a.file_extensions, extension_key(f));
    lemma_count_one_keeps_names_distinct(a.language_stats, language_of(extension_key(f)));
}

/// The census keeps every extension and every language once in its list.
pub proof fn lemma_with_files_keeps_names_once(
    a: RepositoryAnalysisView,
    files: Seq<SourceFileView>,
    n: nat,
)
    requires
        names_once(a),
    ensures
        names_once(with_files(a, files, n)),
    decreases n,
{
    if n > 0 {
        lemma_with_files_keeps_names_once(a, files, (n - 1) as nat);
        lemma_with_file_keeps_names_once(with_files(a, files, (n - 1) as nat), files[n - 1]);
    }
}

/// Takes one more file into the census.
pub fn count_file(file: &SourceFile, analysis: &mut RepositoryAnalysis)
    ensures
        final(analysis)@ == with_file(old(analysis)@, file@),
        names_once(old(analysis)@) ==> names_once(final(analysis)@),
{
    proof {
        if names_once(analysis@) {
            lemma_with_file_keeps_names_once(analysis@, file@);
        }
    }
    let ext = extension_of(file);
    analysis.file_count = analysis.file_count.saturating_add(1);
    match file.size {
        Some(size) => {
            analysis.largest_files.push((file.path.clone(), size));
        },
        None => {},
    }
    if file.extension.is_some() {
        add_one(&mut analysis.file_extensions, &ext);
        let language = language_for(ext.as_str());
        add_one(&mut analysis.language_stats, &language);
    }
    match &file.content {
        Some(text) => {
            let (total, code, comment, blank) = count_line_types(text.as_str(), ext.as_str());
            analysis.total_lines = analysis.total_lines.saturating_add(total);
            analysis.code_lines = analysis.code_lines.saturating_add(code);
            analysis.comment_lines = analysis.comment_lines.saturating_add(comment);
            analysis.blank_lines = analysis.blank_lines.saturating_add(blank);
        },
        None => {},
    }
    assert(analysis@ =~~= with_file(old(analysis)@, file@));
}

/// Takes the files of the tree into the census.
pub fn analyze_files(files: &Vec<SourceFile>, analysis: &mut RepositoryAnalysis)
    ensures
        final(analysis)@ == with_files(old(analysis)@, views(files@), files@.len()),
        names_once(old(analysis)@) ==> names_once(final(analysis)@),
{
    proof {
        if names_once(analysis@) {
            lemma_with_files_keeps_names_once(analysis@, views(files@), files@.len());
        }
    }
    let mut i: usize = 0;
    while i < files.len()
        invariant
            i <= files.len(),
            analysis@ == with_files(old(analysis)@, views(files@), i as nat),
        decreases files.len() - i,
    {
        count_file(&files[i], analysis);
        i = i + 1;
    }
}

} // verus!
