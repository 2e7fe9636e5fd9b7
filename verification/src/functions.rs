//! Detection of function bodies and their lengths: a declaration line,
//! the first line from there on that opens a block, and the line at which
//! the block ends, by brace counting or by indentation.

use vstd::prelude::*;

use crate::complexity::same_text;
use crate::pattern::{
    group_views, pattern_captures, pattern_matches, text_from_chars, Pattern,
};
use crate::seq_util::views;
use crate::text::{
    count_leading_space, count_matches, count_occurrences, is_blank, leading_space, lines,
    split_lines, text_chars, trim,
};

verus! {

/// What the scan for function bodies reads of one line.
#[derive(Debug)]
pub struct LineFacts {
    /// The name that the line declares, if it declares a function.
    pub name: Option<String>,
    /// Whether the line holds the token that opens a block.
    pub opens: bool,
    /// The number of white-space characters with which the line begins.
    pub indent: usize,
    /// Whether the line holds nothing but white space.
    pub blank: bool,
    /// The number of opening braces in the line.
    pub open_braces: usize,
    /// The number of closing braces in the line.
    pub close_braces: usize,
}

/// What `LineFacts` holds, as sequences.
#[verifier::ext_equal]
pub struct LineFactsView {
    pub name: Option<Seq<char>>,
    pub opens: bool,
    pub indent: usize,
    pub blank: bool,
    pub open_braces: usize,
    pub close_braces: usize,
}

impl View for LineFacts {
    type V = LineFactsView;

    open spec fn view(&self) -> LineFactsView {
        LineFactsView {
            name: match self.name {
                Some(n) => Some(n@),
                None => None,
            },
            opens: self.opens,
            indent: self.indent,
            blank: self.blank,
            open_braces: self.open_braces,
            close_braces: self.close_braces,
        }
    }
}

/// The views of a list of names with lengths.
pub open spec fn span_views(spans: Seq<(String, usize)>) -> Seq<(Seq<char>, usize)> {
    Seq::new(spans.len(), |i: int| (spans[i].0@, spans[i].1))
}

/// The first line from `i` on that opens a block; the number of lines
/// where none does.
pub open spec fn opening_line(facts: Seq<LineFactsView>, i: int) -> int
    decreases facts.len() - i,
{
    if i < 0 || i >= facts.len() {
        facts.len() as int
    } else if facts[i].opens {
        i
    } else {
        opening_line(facts, i + 1)
    }
}

/// Where a body ends that is delimited by indentation: the first line
/// from `e` on that is not blank and is indented no deeper than `base`;
/// the number of lines where there is none.
pub open spec fn indented_end(facts: Seq<LineFactsView>, base: usize, e: int) -> int
    decreases facts.len() - e,
{
    if e < 0 || e >= facts.len() {
        facts.len() as int
    } else if !facts[e].blank && facts[e].indent <= base {
        e
    } else {
        indented_end(facts, base, e + 1)
    }
}

/// Where a body ends that is delimited by braces: the first line from `e`
/// on behind which the count of braces that are open, `open` before that
/// line, is no longer positive; the number of lines where there is none.
pub open spec fn braced_end(facts: Seq<LineFactsView>, open: int, e: int) -> int
    decreases facts.len() - e,
{
    if e < 0 || e >= facts.len() {
        facts.len() as int
    } else {
        let after = open + facts[e].open_braces - facts[e].close_braces;
        if after <= 0 {
            e
        } else {
            braced_end(facts, after, e + 1)
        }
    }
}

/// Where the body ends that opens at line `start`.
pub open spec fn body_end(facts: Seq<LineFactsView>, indented: bool, start: int) -> int {
    if indented {
        indented_end(facts, facts[start].indent, start + 1)
    } else {
        braced_end(facts, 1, start + 1)
    }
}

/// The opening line lies at or behind the line from which it is sought,
/// or there is none.
pub proof fn lemma_opening_line(facts: Seq<LineFactsView>, i: int)
    requires
        0 <= i,
    ensures
        i <= opening_line(facts, i) || opening_line(facts, i) == facts.len(),
        opening_line(facts, i) <= facts.len(),
        opening_line(facts, i) < facts.len() ==> facts[opening_line(facts, i)].opens,
    decreases facts.len() - i,
{
    if i < facts.len() && !facts[i].opens {
        lemma_opening_line(facts, i + 1);
    }
}

/// An indented body ends at or behind the line from which its end is
/// sought.
pub proof fn lemma_indented_end(facts: Seq<LineFactsView>, base: usize, e: int)
    requires
        0 <= e <= facts.len(),
    ensures
        e <= indented_end(facts, base, e) <= facts.len(),
    decreases facts.len() - e,
{
    if e < facts.len() && !(!facts[e].blank && facts[e].indent <= base) {
        lemma_indented_end(facts, base, e + 1);
    }
}

/// A braced body ends at or behind the line from which its end is sought.
pub proof fn lemma_braced_end(facts: Seq<LineFactsView>, open: int, e: int)
    requires
        0 <= e <= facts.len(),
    ensures
        e <= braced_end(facts, open, e) <= facts.len(),
    decreases facts.len() - e,
{
    if e < facts.len() {
        let after = open + facts[e].open_braces - facts[e].close_braces;
        if after > 0 {
            lemma_braced_end(facts, after, e + 1);
        }
    }
}

/// The functions from line `i` on, each with its name and its length.
/// A line that declares a function starts one: its body opens at the
/// first line from there on that opens a block and ends where
/// `body_end` says; its length is the number of lines from the one to the
/// other, and the scan goes on at the line where the body ends. A
/// declaration that no opening line follows counts as a function of
/// length one and ends the scan.
pub open spec fn spans_from(facts: Seq<LineFactsView>, indented: bool, i: int) -> Seq<
    (Seq<char>, usize),
>
    decreases facts.len() - i,
{
    if i < 0 || i >= facts.len() {
        seq![]
    } else {
        match facts[i].name {
            None => spans_from(facts, indented, i + 1),
            Some(name) => {
                let start = opening_line(facts, i);
                if start >= facts.len() {
                    seq![(name, 1usize)]
                } else {
                    let end = body_end(facts, indented, start);
                    proof {
                        lemma_opening_line(facts, i);
                        lemma_indented_end(facts, facts[start].indent, start + 1);
                        lemma_braced_end(facts, 1, start + 1);
                    }
                    seq![(name, (end - start) as usize)] + spans_from(facts, indented, end)
                }
            },
        }
    }
}

/// The functions that the lines hold, each with its name and its length
/// in lines, in the order of their declarations.
pub open spec fn function_spans(facts: Seq<LineFactsView>, indented: bool) -> Seq<
    (Seq<char>, usize),
> {
    spans_from(facts, indented, 0)
}

/// The name that the groups of a matched declaration give: the text of
/// the first group behind group 0 that took part in the match and is not
/// empty; `anonymous` where there is none.
pub open spec fn declared_name(groups: Seq<Option<Seq<char>>>) -> Seq<char> {
    name_from(groups, 1)
}

/// The text of the first group from group `j` on that took part in the
/// match and is not empty; `anonymous` where there is none.
pub open spec fn name_from(groups: Seq<Option<Seq<char>>>, j: int) -> Seq<char>
    decreases groups.len() - j,
{
    if j < 0 || j >= groups.len() {
        "anonymous"@
    } else {
        match groups[j] {
            Some(text) => if text.len() > 0 {
                text
            } else {
                name_from(groups, j + 1)
            },
            None => name_from(groups, j + 1),
        }
    }
}

/// The name that the groups of a matched declaration give.
pub fn name_of_groups(groups: &Vec<Option<String>>) -> (name: String)
    ensures
        name@ == declared_name(group_views(groups@)),
{
    let mut j: usize = 1;
    while j < groups.len()
        invariant
            1 <= j,
            name_from(group_views(groups@), j as int) == declared_name(group_views(groups@)),
        decreases groups.len() - j,
    {
        match &groups[j] {
            Some(text) => {
                if text.as_str().unicode_len() > 0 {
                    return text.clone();
                }
            },
            None => {},
        }
        j = j + 1;
    }
    "anonymous".to_owned()
}

/// The functions that the lines hold, each with its name and its length
/// in lines; bodies are delimited by indentation if `indented`, else by
/// braces.
pub fn measure_functions(facts: &Vec<LineFacts>, indented: bool) -> (spans: Vec<(String, usize)>)
    ensures
        span_views(spans@) == function_spans(views(facts@), indented),
{
    let ghost fv = views(facts@);
    let mut spans: Vec<(String, usize)> = Vec::new();
    let n: usize = facts.len();
    let mut i: usize = 0;
    assert(span_views(spans@) + spans_from(fv, indented, 0) =~= function_spans(fv, indented));
    while i < n
        invariant
            i <= n,
            n == facts.len(),
            fv == views(facts@),
            span_views(spans@) + spans_from(fv, indented, i as int) == function_spans(
                fv,
                indented,
            ),
        decreases n - i,
    {
        let ghost before = span_views(spans@);
        match &facts[i].name {
            None => {
                i = i + 1;
            },
            Some(name) => {
                let mut start: usize = i;
                while start < n && !facts[start].opens
                    invariant
                        i <= start <= n,
                        n == facts.len(),
                        fv == views(facts@),
                        opening_line(fv, start as int) == opening_line(fv, i as int),
                    decreases n - start,
                {
                    start = start + 1;
                }
                if start >= n {
                    spans.push((name.clone(), 1));
                    proof {
                        assert(span_views(spans@) =~= before + seq![(name@, 1usize)]);
                        assert(spans_from(fv, indented, n as int) =~= Seq::<
                            (Seq<char>, usize),
                        >::empty());
                        assert(span_views(spans@) + spans_from(fv, indented, n as int)
                            =~= before + spans_from(fv, indented, i as int));
                    }
                    i = n;
                } else {
                    let mut end: usize = start + 1;
                    if indented {
                        let base: usize = facts[start].indent;
                        while end < n && !(!facts[end].blank && facts[end].indent <= base)
                            invariant
                                start < end <= n,
                                n == facts.len(),
                                fv == views(facts@),
                                indented_end(fv, base, end as int) == indented_end(
                                    fv,
                                    base,
                                    start + 1,
                                ),
                            decreases n - end,
                        {
                            end = end + 1;
                        }
                    } else {
                        let mut open: u128 = 1;
                        let mut closed: bool = false;
                        while end < n && !closed
                            invariant
                                start < end <= n,
                                n == facts.len(),
                                fv == views(facts@),
                                0 < open <= 1 + (end - start - 1) * usize::MAX,
                                !closed ==> braced_end(fv, open as int, end as int) == braced_end(
                                    fv,
                                    1,
                                    start + 1,
                                ),
                                closed ==> end < n && braced_end(fv, 1, start + 1) == end,
                            decreases n - end + if closed { 0int } else { 1int },
                        {
                            assert((end - start) * usize::MAX == (end - start - 1) * usize::MAX
                                + usize::MAX) by (nonlinear_arith);
                            assert((end - start) * usize::MAX <= usize::MAX * usize::MAX)
                                by (nonlinear_arith)
                                requires
                                    0 <= end - start <= usize::MAX,
                            ;
                            let grown: u128 = open + facts[end].open_braces as u128;
                            let shrink: u128 = facts[end].close_braces as u128;
                            if grown <= shrink {
                                closed = true;
                            } else {
                                open = grown - shrink;
                                end = end + 1;
                            }
                        }
                    }
                    proof {
                        lemma_indented_end(fv, fv[start as int].indent, start + 1);
                        lemma_braced_end(fv, 1, start + 1);
                        assert(end == body_end(fv, indented, start as int));
                    }
                    spans.push((name.clone(), end - start));
                    proof {
                        let item = (name@, (end - start) as usize);
                        assert(span_views(spans@) =~= before + seq![item]);
                        assert(spans_from(fv, indented, i as int) =~= seq![item] + spans_from(
                            fv,
                            indented,
                            end as int,
                        ));
                        assert(span_views(spans@) + spans_from(fv, indented, end as int)
                            =~= before + spans_from(fv, indented, i as int));
                    }
                    i = end;
                }
            },
        }
    }
    assert(spans_from(fv, indented, n as int) =~= Seq::<(Seq<char>, usize)>::empty());
    assert(span_views(spans@) + Seq::<(Seq<char>, usize)>::empty() =~= span_views(spans@));
    spans
}

/// What the scan reads of `line`, for a declaration pattern `func` and a
/// block-opening pattern `open`.
pub open spec fn facts_of(line: Seq<char>, func: Seq<char>, open: Seq<char>) -> LineFactsView {
    LineFactsView {
        name: match pattern_captures(func, line) {
            Some(groups) => Some(declared_name(groups)),
            None => None,
        },
        opens: pattern_matches(open, line),
        indent: leading_space(line) as usize,
        blank: is_blank(line),
        open_braces: count_matches(line, seq!['{']) as usize,
        close_braces: count_matches(line, seq!['}']) as usize,
    }
}

/// What the scan reads of each of `lines`.
pub open spec fn all_facts(lines: Seq<Seq<char>>, func: Seq<char>, open: Seq<char>) -> Seq<
    LineFactsView,
> {
    Seq::new(lines.len(), |i: int| facts_of(lines[i], func, open))
}

/// Reads of `line` what the scan needs.
pub fn read_line(line: &Vec<char>, func_pattern: &Pattern, open_pattern: &Pattern) -> (facts:
    LineFacts)
    ensures
        facts@ == facts_of(line@, func_pattern@, open_pattern@),
{
    let text = text_from_chars(line);
    let name = match func_pattern.groups(text.as_str()) {
        Some(groups) => Some(name_of_groups(&groups)),
        None => None,
    };
    let opens = open_pattern.matches(text.as_str());
    let indent = count_leading_space(line);
    let blank = trim(line).len() == 0;
    let mut open_brace: Vec<char> = Vec::new();
    open_brace.push('{');
    let mut close_brace: Vec<char> = Vec::new();
    close_brace.push('}');
    assert(open_brace@ =~= seq!['{']);
    assert(close_brace@ =~= seq!['}']);
    let open_braces = count_occurrences(line, &open_brace);
    let close_braces = count_occurrences(line, &close_brace);
    LineFacts { name, opens, indent, blank, open_braces, close_braces }
}

/// The functions in the text `content` of a file with the extension
/// `ext`, in lower case: each with its name and its length in lines. A
/// line that `func_pattern` matches declares a function, a line that
/// `open_pattern` matches opens a block; bodies are delimited by
/// indentation for the extension `py`, else by braces.
pub fn find_functions(
    content: &str,
    func_pattern: &Pattern,
    open_pattern: &Pattern,
    _close_pattern: &Pattern,
    ext: &str,
) -> (spans: Vec<(String, usize)>)
    ensures
        span_views(spans@) == function_spans(
            all_facts(lines(content@), func_pattern@, open_pattern@),
            ext@ == "py"@,
        ),
{
    let chars = text_chars(content);
    let all = split_lines(&chars);
    let mut facts: Vec<LineFacts> = Vec::new();
    let mut i: usize = 0;
    while i < all.len()
        invariant
            i <= all.len(),
            views(all@) == lines(content@),
            facts.len() == i,
            forall|k: int|
                0 <= k < i ==> (#[trigger] facts@[k])@ == facts_of(
                    lines(content@)[k],
                    func_pattern@,
                    open_pattern@,
                ),
        decreases all.len() - i,
    {
        let f = read_line(&all[i], func_pattern, open_pattern);
        assert(all@[i as int]@ == lines(content@)[i as int]);
        facts.push(f);
        i = i + 1;
    }
    assert(views(facts@) =~= all_facts(lines(content@), func_pattern@, open_pattern@));
    measure_functions(&facts, same_text(ext, "py"))
}

} // verus!
