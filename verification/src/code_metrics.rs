//! Complexity scores and function lengths over the files of a tree.

use vstd::prelude::*;

use crate::analyzer::{
    triple_views, ComplexityStatsView, RepositoryAnalysis, RepositoryAnalysisView,
};
use crate::complexity::{calculate_cyclomatic_complexity, complexity, same_text};
use crate::corpus::{extension_key, extension_of, SourceFile, SourceFileView};
use crate::counts::count_views;
use crate::functions::{all_facts, find_functions, function_spans, span_views};
use crate::pattern::{pattern_is_valid, Pattern};
use crate::ranking::{arranged, is_ranking, rank_descending, top, top_ranked};
use crate::ratio::Ratio;
use crate::seq_util::{capped, views};
use crate::text::lines;

verus! {

/// A file is complex when its score is above this.
pub const COMPLEX_ABOVE: usize = 10;

/// A function is long when it has more lines than this.
pub const LONG_ABOVE: usize = 30;

/// How many files and functions a report keeps.
pub const KEPT: usize = 10;

/// The regular expressions by which the functions of a language are
/// found: one for a declaration, one for the token that opens a block, one
/// for the end of a block. `None` for a language without them.
pub open spec fn function_sources(ext: Seq<char>) -> Option<(Seq<char>, Seq<char>, Seq<char>)> {
    if ext == "rs"@ {
        Some(("fn\\s+(\\w+)\\s*\\("@, "\\{"@, "\\}"@))
    } else if ext == "js"@ || ext == "ts"@ {
        Some(
            (
                "function\\s+(\\w+)\\s*\\(|(\\w+)\\s*=\\s*function\\s*\\(|(\\w+)\\s*:\\s*function\\s*\\(|(\\w+)\\s*\\([^)]*\\)\\s*\\{"@,
                "\\{"@,
                "\\}"@,
            ),
        )
    } else if ext == "py"@ {
        Some(("def\\s+(\\w+)\\s*\\("@, ":"@, "^\\s*$|^\\s*\\w"@))
    } else if ext == "java"@ {
        Some(
            (
                "(public|private|protected|static|\\s) +[\\w<>\\[\\]]+\\s+(\\w+) *\\([^)]*\\) *\\{?"@,
                "\\{"@,
                "\\}"@,
            ),
        )
    } else if ext == "go"@ {
        Some(("func\\s+(\\w+)\\s*\\("@, "\\{"@, "\\}"@))
    } else {
        None
    }
}

/// Whether the functions of the language with the extension `ext` can be
/// found: it has regular expressions, and they are valid.
pub open spec fn is_measurable(ext: Seq<char>) -> bool {
    match function_sources(ext) {
        Some((func, open, close)) => pattern_is_valid(func) && pattern_is_valid(open)
            && pattern_is_valid(close),
        None => false,
    }
}

/// The three patterns of a language.
pub struct FunctionPatterns {
    pub func: Pattern,
    pub open: Pattern,
    pub close: Pattern,
}

impl View for FunctionPatterns {
    type V = (Seq<char>, Seq<char>, Seq<char>);

    open spec fn view(&self) -> (Seq<char>, Seq<char>, Seq<char>) {
        (self.func@, self.open@, self.close@)
    }
}

fn compile_all(func: &str, open: &str, close: &str) -> (r: Option<FunctionPatterns>)
    ensures
        r is Some <==> pattern_is_valid(func@) && pattern_is_valid(open@) && pattern_is_valid(
            close@,
        ),
        r matches Some(p) ==> p@ == (func@, open@, close@),
{
    let func = match Pattern::new(func) {
        Ok(p) => p,
        Err(_) => {
            return None;
        },
    };
    let open = match Pattern::new(open) {
        Ok(p) => p,
        Err(_) => {
            return None;
        },
    };
    let close = match Pattern::new(close) {
        Ok(p) => p,
        Err(_) => {
            return None;
        },
    };
    Some(FunctionPatterns { func, open, close })
}

/// The patterns of the language with the extension `ext`, in lower case.
pub fn function_patterns(ext: &str) -> (r: Option<FunctionPatterns>)
    ensures
        r is Some <==> is_measurable(ext@),
        r matches Some(p) ==> function_sources(ext@) == Some(p@),
{
    if same_text(ext, "rs") {
        compile_all("fn\\s+(\\w+)\\s*\\(", "\\{", "\\}")
    } else if same_text(ext, "js") || same_text(ext, "ts") {
        compile_all(
            "function\\s+(\\w+)\\s*\\(|(\\w+)\\s*=\\s*function\\s*\\(|(\\w+)\\s*:\\s*function\\s*\\(|(\\w+)\\s*\\([^)]*\\)\\s*\\{",
            "\\{",
            "\\}",
        )
    } else if same_text(ext, "py") {
        compile_all("def\\s+(\\w+)\\s*\\(", ":", "^\\s*$|^\\s*\\w")
    } else if same_text(ext, "java") {
        compile_all(
            "(public|private|protected|static|\\s) +[\\w<>\\[\\]]+\\s+(\\w+) *\\([^)]*\\) *\\{?",
            "\\{",
            "\\}",
        )
    } else if same_text(ext, "go") {
        compile_all("func\\s+(\\w+)\\s*\\(", "\\{", "\\}")
    } else {
        None
    }
}

/// What the measurement of one file gives: its complexity score and its
/// functions with their lengths.
pub struct Measured {
    pub score: usize,
    pub spans: Seq<(Seq<char>, usize)>,
}

/// The measurement of a file; `None` for a file without an extension,
/// of a language whose functions cannot be found, or without readable
/// text.
pub open spec fn measured(f: SourceFileView) -> Option<Measured> {
    let ext = extension_key(f);
    if f.extension is Some && is_measurable(ext) && f.content is Some {
        let text = f.content->0;
        let sources = function_sources(ext)->0;
        Some(
            Measured {
                score: capped(complexity(text, ext) as int),
                spans: function_spans(all_facts(lines(text), sources.0, sources.1), ext == "py"@),
            },
        )
    } else {
        None
    }
}

/// The sum of the lengths of the first `n` of `spans`, saturating.
pub open spec fn total_length(spans: Seq<(Seq<char>, usize)>, n: nat) -> usize
    decreases n,
{
    if n == 0 {
        0
    } else {
        capped(total_length(spans, (n - 1) as nat) + spans[n - 1].1)
    }
}

/// Those of the first `n` of `spans` that are long, each with the path of
/// its file.
pub open spec fn long_spans(path: Seq<char>, spans: Seq<(Seq<char>, usize)>, n: nat) -> Seq<
    (Seq<char>, Seq<char>, usize),
>
    decreases n,
{
    if n == 0 {
        seq![]
    } else {
        let before = long_spans(path, spans, (n - 1) as nat);
        if spans[n - 1].1 > LONG_ABOVE {
            before.push((path, spans[n - 1].0, spans[n - 1].1))
        } else {
            before
        }
    }
}

/// The sums over the files measured so far: of the scores, of the files,
/// of the function lengths and of the functions, each saturating; the
/// complex files and the long functions, in the order of the scan.
pub struct Metrics {
    pub total_score: usize,
    pub file_count: usize,
    pub complex: Seq<(Seq<char>, usize)>,
    pub total_length: usize,
    pub function_count: usize,
    pub long: Seq<(Seq<char>, Seq<char>, usize)>,
}

/// The sums after one more file.
pub open spec fn with_measured(m: Metrics, f: SourceFileView) -> Metrics {
    match measured(f) {
        Some(x) => Metrics {
            total_score: capped(m.total_score + x.score),
            file_count: capped(m.file_count + 1),
            complex: if x.score > COMPLEX_ABOVE {
                m.complex.push((f.path, x.score))
            } else {
                m.complex
            },
            total_length: capped(m.total_length + total_length(x.spans, x.spans.len())),
            function_count: capped(m.function_count + x.spans.len()),
            long: m.long + long_spans(f.path, x.spans, x.spans.len()),
        },
        None => m,
    }
}

/// The sums after the first `n` of `files`.
pub open spec fn metrics_after(files: Seq<SourceFileView>, n: nat) -> Metrics
    decreases n,
{
    if n == 0 {
        Metrics {
            total_score: 0,
            file_count: 0,
            complex: seq![],
            total_length: 0,
            function_count: 0,
            long: seq![],
        }
    } else {
        with_measured(metrics_after(files, (n - 1) as nat), files[n - 1])
    }
}

/// The scores of a list of paths with scores.
pub open spec fn scores(s: Seq<(Seq<char>, usize)>) -> Seq<usize> {
    Seq::new(s.len(), |i: int| s[i].1)
}

/// The lengths of a list of paths and names with lengths.
pub open spec fn lengths(s: Seq<(Seq<char>, Seq<char>, usize)>) -> Seq<usize> {
    Seq::new(s.len(), |i: int| s[i].2)
}

/// The complexity part of the record, given the sums over all files: the
/// averages are the sums over the counts, where there is anything to
/// count; the lists hold the ten highest, highest first and else in the
/// order of the scan; each maximum is that of its list, where the list is
/// not empty.
pub open spec fn is_summary(before: ComplexityStatsView, m: Metrics, after: ComplexityStatsView) -> bool {
    &&& after.avg_complexity == if m.file_count > 0 {
        Ratio { num: m.total_score as u128, den: m.file_count as u128 }
    } else {
        before.avg_complexity
    }
    &&& after.avg_function_length == if m.function_count > 0 {
        Ratio { num: m.total_length as u128, den: m.function_count as u128 }
    } else {
        before.avg_function_length
    }
    &&& after.complex_files == top_ranked(m.complex, scores(m.complex), KEPT as nat)
    &&& after.long_functions == top_ranked(m.long, lengths(m.long), KEPT as nat)
    &&& after.max_complexity == if after.complex_files.len() > 0 {
        after.complex_files[0].1
    } else {
        before.max_complexity
    }
    &&& after.max_function_length == if after.long_functions.len() > 0 {
        after.long_functions[0].2
    } else {
        before.max_function_length
    }
}

fn clone_pair(p: &(String, usize)) -> (r: (String, usize))
    ensures
        r.0@ == p.0@,
        r.1 == p.1,
{
    (p.0.clone(), p.1)
}

fn clone_triple(p: &(String, String, usize)) -> (r: (String, String, usize))
    ensures
        r.0@ == p.0@,
        r.1@ == p.1@,
        r.2 == p.2,
{
    (p.0.clone(), p.1.clone(), p.2)
}

/// The ten entries of highest score, highest first.
fn top_by_score(items: &Vec<(String, usize)>) -> (out: Vec<(String, usize)>)
    ensures
        count_views(out@) == top_ranked(count_views(items@), scores(count_views(items@)), KEPT as nat),
{
    let mut keys: Vec<usize> = Vec::new();
    let mut k: usize = 0;
    while k < items.len()
        invariant
            k <= items.len(),
            keys@ == scores(count_views(items@)).take(k as int),
        decreases items.len() - k,
    {
        keys.push(items[k].1);
        assert(keys@ =~= scores(count_views(items@)).take(k as int + 1));
        k = k + 1;
    }
    assert(keys@ =~= scores(count_views(items@)));
    let order = rank_descending(&keys);
    let mut out: Vec<(String, usize)> = Vec::new();
    let mut j: usize = 0;
    while j < order.len() && j < KEPT
        invariant
            j <= order.len(),
            j <= KEPT,
            is_ranking(keys@, order@),
            keys@.len() == items@.len(),
            count_views(out@) == arranged(count_views(items@), order@).take(j as int),
        decreases order.len() - j,
    {
        let ghost before = count_views(out@);
        let ghost all = arranged(count_views(items@), order@);
        assert(order@[j as int] < keys@.len());
        out.push(clone_pair(&items[order[j]]));
        assert(count_views(out@) =~= before.push(all[j as int]));
        assert(all.take(j as int + 1) =~= all.take(j as int).push(all[j as int]));
        j = j + 1;
    }
    assert(count_views(out@) =~= top(arranged(count_views(items@), order@), KEPT as nat));
    out
}

/// The ten entries of greatest length, longest first.
fn top_by_length(items: &Vec<(String, String, usize)>) -> (out: Vec<(String, String, usize)>)
    ensures
        triple_views(out@) == top_ranked(triple_views(items@), lengths(triple_views(items@)), KEPT as nat),
{
    let mut keys: Vec<usize> = Vec::new();
    let mut k: usize = 0;
    while k < items.len()
        invariant
            k <= items.len(),
            keys@ == lengths(triple_views(items@)).take(k as int),
        decreases items.len() - k,
    {
        keys.push(items[k].2);
        assert(keys@ =~= lengths(triple_views(items@)).take(k as int + 1));
        k = k + 1;
    }
    assert(keys@ =~= lengths(triple_views(items@)));
    let order = rank_descending(&keys);
    let mut out: Vec<(String, String, usize)> = Vec::new();
    let mut j: usize = 0;
    while j < order.len() && j < KEPT
        invariant
            j <= order.len(),
            j <= KEPT,
            is_ranking(keys@, order@),
            keys@.len() == items@.len(),
            triple_views(out@) == arranged(triple_views(items@), order@).take(j as int),
        decreases order.len() - j,
    {
        let ghost before = triple_views(out@);
        let ghost all = arranged(triple_views(items@), order@);
        assert(order@[j as int] < keys@.len());
        out.push(clone_triple(&items[order[j]]));
        assert(triple_views(out@) =~= before.push(all[j as int]));
        assert(all.take(j as int + 1) =~= all.take(j as int).push(all[j as int]));
        j = j + 1;
    }
    assert(triple_views(out@) =~= top(arranged(triple_views(items@), order@), KEPT as nat));
    out
}

/// Measures the files of the tree and enters the complexity part of the
/// record.
pub fn analyze_code_complexity(files: &Vec<SourceFile>, analysis: &mut RepositoryAnalysis)
    ensures
        is_summary(
            old(analysis)@.complexity_stats,
            metrics_after(views(files@), files@.len()),
            final(analysis)@.complexity_stats,
        ),
        final(analysis)@ == (RepositoryAnalysisView {
            complexity_stats: final(analysis)@.complexity_stats,
            ..old(analysis)@
        }),
{
    let mut total_score: usize = 0;
    let mut file_count: usize = 0;
    let mut complex: Vec<(String, usize)> = Vec::new();
    let mut total_len: usize = 0;
    let mut function_count: usize = 0;
    let mut long: Vec<(String, String, usize)> = Vec::new();
    let mut i: usize = 0;
    while i < files.len()
        invariant
            i <= files.len(),
            ({
                let m = metrics_after(views(files@), i as nat);
                &&& total_score == m.total_score
                &&& file_count == m.file_count
                &&& count_views(complex@) == m.complex
                &&& total_len == m.total_length
                &&& function_count == m.function_count
                &&& triple_views(long@) == m.long
            }),
        decreases files.len() - i,
    {
        let file = &files[i];
        let ghost m = metrics_after(views(files@), i as nat);
        let ghost fv = views(files@)[i as int];
        assert(fv == file@);
        if file.extension.is_some() {
            let ext = extension_of(file);
            match function_patterns(ext.as_str()) {
                Some(patterns) => {
                    match &file.content {
                        Some(text) => {
                            let score = calculate_cyclomatic_complexity(
                                text.as_str(),
                                ext.as_str(),
                            );
                            total_score = total_score.saturating_add(score);
                            file_count = file_count.saturating_add(1);
                            if score > COMPLEX_ABOVE {
                                complex.push((file.path.clone(), score));
                                assert(count_views(complex@) =~= m.complex.push((fv.path, score)));
                            }
                            let spans = find_functions(
                                text.as_str(),
                                &patterns.func,
                                &patterns.open,
                                &patterns.close,
                                ext.as_str(),
                            );
                            let ghost sv = span_views(spans@);
                            assert(measured(fv) == Some(Measured { score, spans: sv }));
                            let ghost long_before = triple_views(long@);
                            let mut sum: usize = 0;
                            let mut k: usize = 0;
                            while k < spans.len()
                                invariant
                                    k <= spans.len(),
                                    sv == span_views(spans@),
                                    sum == total_length(sv, k as nat),
                                    triple_views(long@) == long_before + long_spans(
                                        file@.path,
                                        sv,
                                        k as nat,
                                    ),
                                decreases spans.len() - k,
                            {
                                let ghost so_far = long_spans(file@.path, sv, k as nat);
                                let ghost listed = triple_views(long@);
                                assert(sv[k as int] == (spans@[k as int].0@, spans@[k as int].1));
                                sum = sum.saturating_add(spans[k].1);
                                if spans[k].1 > LONG_ABOVE {
                                    long.push((file.path.clone(), spans[k].0.clone(), spans[k].1));
                                    let ghost item = (file@.path, sv[k as int].0, sv[k as int].1);
                                    assert(triple_views(long@) =~= listed.push(item));
                                    assert(long_spans(file@.path, sv, (k + 1) as nat)
                                        == so_far.push(item));
                                    assert(listed.push(item) =~= long_before + so_far.push(item));
                                }
                                k = k + 1;
                            }
                            total_len = total_len.saturating_add(sum);
                            function_count = function_count.saturating_add(spans.len());
                        },
                        None => {},
                    }
                },
                None => {},
            }
        }
        i = i + 1;
    }
    let ghost m = metrics_after(views(files@), files@.len());
    if file_count > 0 {
        analysis.complexity_stats.avg_complexity = Ratio {
            num: total_score as u128,
            den: file_count as u128,
        };
    }
    if function_count > 0 {
        analysis.complexity_stats.avg_function_length = Ratio {
            num: total_len as u128,
            den: function_count as u128,
        };
    }
    analysis.complexity_stats.complex_files = top_by_score(&complex);
    if analysis.complexity_stats.complex_files.len() > 0 {
        analysis.complexity_stats.max_complexity = analysis.complexity_stats.complex_files[0].1;
    }
    analysis.complexity_stats.long_functions = top_by_length(&long);
    if analysis.complexity_stats.long_functions.len() > 0 {
        analysis.complexity_stats.max_function_length =
            analysis.complexity_stats.long_functions[0].2;
    }
    assert(analysis@ =~~= (RepositoryAnalysisView {
        complexity_stats: analysis@.complexity_stats,
        ..old(analysis)@
    }));
}

} // verus!
