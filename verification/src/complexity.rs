//! A line-oriented estimate of cyclomatic complexity: one, plus the
//! branching constructs and short-circuit operators that the lines
//! outside comments hold.

use vstd::prelude::*;

use crate::seq_util::{capped, views};
use crate::text::{
    contains, count_matches, count_occurrences, has_match, has_prefix, lines, split_lines,
    starts_with, text_chars, trim, trimmed,
};

verus! {

/// The language families that the estimate knows.
#[derive(Clone, Copy, Debug, PartialEq, Eq, Structural)]
pub enum Family {
    /// Languages with C-like syntax.
    CLike,
    Python,
    Ruby,
    Php,
}

/// The family of the language with the file extension `ext`, in lower
/// case; `None` for an extension that the estimate does not know.
pub open spec fn family_of(ext: Seq<char>) -> Option<Family> {
    if ext == "rs"@ || ext == "js"@ || ext == "ts"@ || ext == "java"@ || ext == "c"@ || ext
        == "cpp"@ || ext == "cs"@ || ext == "go"@ || ext == "swift"@ || ext == "kt"@ || ext
        == "scala"@ {
        Some(Family::CLike)
    } else if ext == "py"@ {
        Some(Family::Python)
    } else if ext == "rb"@ {
        Some(Family::Ruby)
    } else if ext == "php"@ {
        Some(Family::Php)
    } else {
        None
    }
}

/// The keyword that one language adds to those of the C-like family.
pub open spec fn own_keyword(ext: Seq<char>) -> Seq<Seq<char>> {
    if ext == "rs"@ {
        seq!["match "@]
    } else if ext == "go"@ {
        seq!["select "@]
    } else if ext == "swift"@ {
        seq!["guard "@]
    } else {
        seq![]
    }
}

/// The branching constructs of a family: conditionals, loops, case arms,
/// exception handlers, pattern matches, the ternary operator.
pub open spec fn branch_keywords(family: Family, ext: Seq<char>) -> Seq<Seq<char>> {
    match family {
        Family::CLike => seq![
            "if "@,
            "else if"@,
            " ? "@,
            "for "@,
            "while "@,
            "case "@,
            "catch "@,
            "switch "@,
        ] + own_keyword(ext),
        Family::Python => seq![
            "if "@,
            "elif "@,
            "for "@,
            "while "@,
            "except "@,
            "with "@,
            "comprehension"@,
        ],
        Family::Ruby => seq![
            "if "@,
            "elsif "@,
            "unless "@,
            "case "@,
            "when "@,
            "for "@,
            "while "@,
            "until "@,
            "rescue "@,
        ],
        Family::Php => seq![
            "if "@,
            "elseif "@,
            "for "@,
            "foreach "@,
            "while "@,
            "case "@,
            "catch "@,
        ],
    }
}

/// The constructs of a family that hold another of its keywords: an
/// `else if ` holds an `if `. Such a construct is one construct, though
/// two keywords occur where it stands.
pub open spec fn compound_keywords(family: Family) -> Seq<Seq<char>> {
    match family {
        Family::CLike => seq!["else if "@],
        Family::Python => seq!["elif "@],
        Family::Ruby => seq!["elsif "@],
        Family::Php => seq!["elseif "@],
    }
}

/// The short-circuit logical operators of a family.
pub open spec fn logical_operators(family: Family) -> Seq<Seq<char>> {
    match family {
        Family::CLike => seq!["&&"@, "||"@],
        Family::Python => seq![" and "@, " or "@],
        Family::Ruby => seq!["&&"@, "||"@],
        Family::Php => seq!["&&"@, "||"@, " and "@, " or "@],
    }
}

/// The texts with which a comment line of a family begins.
pub open spec fn comment_prefixes(family: Family) -> Seq<Seq<char>> {
    match family {
        Family::CLike => seq!["//"@, "/*"@, "*"@],
        Family::Python => seq!["#"@],
        Family::Ruby => seq!["#"@],
        Family::Php => seq!["//"@, "/*"@, "*"@],
    }
}

/// Whether a family has block comments between `/*` and `*/`.
pub open spec fn has_block_comments(family: Family) -> bool {
    family == Family::CLike || family == Family::Php
}

/// Whether `line` begins with one of `prefixes`.
pub open spec fn starts_with_any(line: Seq<char>, prefixes: Seq<Seq<char>>) -> bool {
    exists|i: int| 0 <= i < prefixes.len() && starts_with(line, #[trigger] prefixes[i])
}

/// The occurrences in `line` of all of `tokens` together.
pub open spec fn total_matches(line: Seq<char>, tokens: Seq<Seq<char>>) -> nat
    decreases tokens.len(),
{
    if tokens.len() == 0 {
        0
    } else {
        total_matches(line, tokens.drop_last()) + count_matches(line, tokens.last())
    }
}

/// Whether a block comment is open behind a trimmed line, given whether
/// one was open before it. A line that begins with `//` changes nothing; a
/// line that begins with `/*` and does not hold `*/` opens a comment; within
/// a comment, a line that holds `*/` closes it.
pub open spec fn block_open_after(line: Seq<char>, open: bool) -> bool {
    if starts_with(line, "//"@) {
        open
    } else if starts_with(line, "/*"@) && !contains(line, "*/"@) {
        true
    } else if open {
        !contains(line, "*/"@)
    } else {
        false
    }
}

/// The constructs in `line`: the occurrences of all of `keywords`, less
/// those of `compounds`, each of which is counted with two keywords; never
/// less than none.
pub open spec fn constructs(
    line: Seq<char>,
    keywords: Seq<Seq<char>>,
    compounds: Seq<Seq<char>>,
) -> nat {
    let all = total_matches(line, keywords);
    let twice = total_matches(line, compounds);
    if all >= twice {
        (all - twice) as nat
    } else {
        0
    }
}

/// The branching constructs in a trimmed line: one for each occurrence
/// of a keyword of the family, and one only for a construct that holds
/// two of them.
pub open spec fn branch_count(line: Seq<char>, family: Family, ext: Seq<char>) -> nat {
    constructs(line, branch_keywords(family, ext), compound_keywords(family))
}

/// What a trimmed line adds to the score: nothing if it begins as a
/// comment or stands within an open block comment; else one for each
/// occurrence of a branching construct and of a logical operator.
pub open spec fn line_score(line: Seq<char>, family: Family, ext: Seq<char>, open: bool) -> nat {
    if open || starts_with_any(line, comment_prefixes(family)) {
        0
    } else {
        branch_count(line, family, ext) + total_matches(line, logical_operators(family))
    }
}

/// The state of a scan over lines: what the lines so far add to the
/// score, and whether a block comment is open behind them.
pub struct Scan {
    pub score: nat,
    pub open: bool,
}

/// The scan after the first `n` of `lines`.
pub open spec fn scan_lines(lines: Seq<Seq<char>>, family: Family, ext: Seq<char>, n: nat) -> Scan
    decreases n,
{
    if n == 0 {
        Scan { score: 0, open: false }
    } else {
        let before = scan_lines(lines, family, ext, (n - 1) as nat);
        let line = trimmed(lines[n - 1]);
        Scan {
            score: before.score + line_score(line, family, ext, before.open),
            open: has_block_comments(family) && block_open_after(line, before.open),
        }
    }
}

/// The complexity estimate of a file: one for a language that the
/// estimate does not know, else one plus what its lines add.
pub open spec fn complexity(content: Seq<char>, ext: Seq<char>) -> nat {
    match family_of(ext) {
        Some(family) => 1 + scan_lines(lines(content), family, ext, lines(content).len()).score,
        None => 1,
    }
}

/// Whether two texts hold the same characters.
pub fn same_text(a: &str, b: &str) -> (same: bool)
    ensures
        same == (a@ == b@),
{
    let x = text_chars(a);
    let y = text_chars(b);
    if x.len() != y.len() {
        return false;
    }
    let mut i: usize = 0;
    while i < x.len()
        invariant
            i <= x.len(),
            x.len() == y.len(),
            x@ == a@,
            y@ == b@,
            forall|j: int| 0 <= j < i ==> x@[j] == y@[j],
        decreases x.len() - i,
    {
        if x[i] != y[i] {
            assert(a@[i as int] != b@[i as int]);
            return false;
        }
        i = i + 1;
    }
    assert(x@ =~= y@);
    true
}

/// The family of the language with the file extension `ext`.
pub fn family_for(ext: &str) -> (family: Option<Family>)
    ensures
        family == family_of(ext@),
{
    if same_text(ext, "rs") || same_text(ext, "js") || same_text(ext, "ts") || same_text(
        ext,
        "java",
    ) || same_text(ext, "c") || same_text(ext, "cpp") || same_text(ext, "cs") || same_text(
        ext,
        "go",
    ) || same_text(ext, "swift") || same_text(ext, "kt") || same_text(ext, "scala") {
        Some(Family::CLike)
    } else if same_text(ext, "py") {
        Some(Family::Python)
    } else if same_text(ext, "rb") {
        Some(Family::Ruby)
    } else if same_text(ext, "php") {
        Some(Family::Php)
    } else {
        None
    }
}

fn branch_keyword_list(family: Family, ext: &str) -> (list: Vec<Vec<char>>)
    ensures
        views(list@) == branch_keywords(family, ext@),
{
    let mut list: Vec<Vec<char>> = Vec::new();
    match family {
        Family::CLike => {
            list.push(text_chars("if "));
            list.push(text_chars("else if"));
            list.push(text_chars(" ? "));
            list.push(text_chars("for "));
            list.push(text_chars("while "));
            list.push(text_chars("case "));
            list.push(text_chars("catch "));
            list.push(text_chars("switch "));
            if same_text(ext, "rs") {
                list.push(text_chars("match "));
            } else if same_text(ext, "go") {
                list.push(text_chars("select "));
            } else if same_text(ext, "swift") {
                list.push(text_chars("guard "));
            }
        },
        Family::Python => {
            list.push(text_chars("if "));
            list.push(text_chars("elif "));
            list.push(text_chars("for "));
            list.push(text_chars("while "));
            list.push(text_chars("except "));
            list.push(text_chars("with "));
            list.push(text_chars("comprehension"));
        },
        Family::Ruby => {
            list.push(text_chars("if "));
            list.push(text_chars("elsif "));
            list.push(text_chars("unless "));
            list.push(text_chars("case "));
            list.push(text_chars("when "));
            list.push(text_chars("for "));
            list.push(text_chars("while "));
            list.push(text_chars("until "));
            list.push(text_chars("rescue "));
        },
        Family::Php => {
            list.push(text_chars("if "));
            list.push(text_chars("elseif "));
            list.push(text_chars("for "));
            list.push(text_chars("foreach "));
            list.push(text_chars("while "));
            list.push(text_chars("case "));
            list.push(text_chars("catch "));
        },
    }
    assert(views(list@) =~= branch_keywords(family, ext@));
    list
}

fn logical_operator_list(family: Family) -> (list: Vec<Vec<char>>)
    ensures
        views(list@) == logical_operators(family),
{
    let mut list: Vec<Vec<char>> = Vec::new();
    match family {
        Family::CLike => {
            list.push(text_chars("&&"));
            list.push(text_chars("||"));
        },
        Family::Python => {
            list.push(text_chars(" and "));
            list.push(text_chars(" or "));
        },
        Family::Ruby => {
            list.push(text_chars("&&"));
            list.push(text_chars("||"));
        },
        Family::Php => {
            list.push(text_chars("&&"));
            list.push(text_chars("||"));
            list.push(text_chars(" and "));
            list.push(text_chars(" or "));
        },
    }
    assert(views(list@) =~= logical_operators(family));
    list
}

fn compound_keyword_list(family: Family) -> (list: Vec<Vec<char>>)
    ensures
        views(list@) == compound_keywords(family),
{
    let mut list: Vec<Vec<char>> = Vec::new();
    match family {
        Family::CLike => {
            list.push(text_chars("else if "));
        },
        Family::Python => {
            list.push(text_chars("elif "));
        },
        Family::Ruby => {
            list.push(text_chars("elsif "));
        },
        Family::Php => {
            list.push(text_chars("elseif "));
        },
    }
    assert(views(list@) =~= compound_keywords(family));
    list
}

fn comment_prefix_list(family: Family) -> (list: Vec<Vec<char>>)
    ensures
        views(list@) == comment_prefixes(family),
{
    let mut list: Vec<Vec<char>> = Vec::new();
    match family {
        Family::CLike => {
            list.push(text_chars("//"));
            list.push(text_chars("/*"));
            list.push(text_chars("*"));
        },
        Family::Python => {
            list.push(text_chars("#"));
        },
        Family::Ruby => {
            list.push(text_chars("#"));
        },
        Family::Php => {
            list.push(text_chars("//"));
            list.push(text_chars("/*"));
            list.push(text_chars("*"));
        },
    }
    assert(views(list@) =~= comment_prefixes(family));
    list
}

/// Whether `line` begins with one of `prefixes`.
pub fn has_any_prefix(line: &Vec<char>, prefixes: &Vec<Vec<char>>) -> (b: bool)
    ensures
        b == starts_with_any(line@, views(prefixes@)),
{
    let mut i: usize = 0;
    while i < prefixes.len()
        invariant
            i <= prefixes.len(),
            forall|j: int| 0 <= j < i ==> !starts_with(line@, #[trigger] views(prefixes@)[j]),
        decreases prefixes.len() - i,
    {
        if has_prefix(line, &prefixes[i]) {
            assert(starts_with(line@, views(prefixes@)[i as int]));
            return true;
        }
        i = i + 1;
    }
    false
}

/// The occurrences in `line` of all of `tokens` together, saturating.
pub fn count_all(line: &Vec<char>, tokens: &Vec<Vec<char>>) -> (n: usize)
    ensures
        n == capped(total_matches(line@, views(tokens@)) as int),
{
    let mut n: usize = 0;
    let mut i: usize = 0;
    while i < tokens.len()
        invariant
            i <= tokens.len(),
            n == capped(total_matches(line@, views(tokens@).take(i as int)) as int),
        decreases tokens.len() - i,
    {
        proof {
            let next = views(tokens@).take(i as int + 1);
            assert(next.drop_last() =~= views(tokens@).take(i as int));
            assert(next.last() == tokens@[i as int]@);
        }
        n = n.saturating_add(count_occurrences(line, &tokens[i]));
        i = i + 1;
    }
    assert(views(tokens@).take(tokens.len() as int) =~= views(tokens@));
    n
}

/// The occurrences in `line` of all of `tokens` together.
fn count_exactly(line: &Vec<char>, tokens: &Vec<Vec<char>>) -> (n: u128)
    ensures
        n == total_matches(line@, views(tokens@)),
{
    let mut n: u128 = 0;
    let mut i: usize = 0;
    while i < tokens.len()
        invariant
            i <= tokens.len(),
            n == total_matches(line@, views(tokens@).take(i as int)),
            n <= i * usize::MAX,
        decreases tokens.len() - i,
    {
        proof {
            let next = views(tokens@).take(i as int + 1);
            assert(next.drop_last() =~= views(tokens@).take(i as int));
            assert(next.last() == tokens@[i as int]@);
            assert((i + 1) * usize::MAX == i * usize::MAX + usize::MAX) by (nonlinear_arith);
            assert((i + 1) * usize::MAX <= usize::MAX * usize::MAX) by (nonlinear_arith)
                requires
                    0 <= i + 1 <= usize::MAX,
            ;
        }
        n = n + count_occurrences(line, &tokens[i]) as u128;
        i = i + 1;
    }
    assert(views(tokens@).take(tokens.len() as int) =~= views(tokens@));
    n
}

/// The constructs in `line`, saturating: the occurrences of all of
/// `keywords`, less those of `compounds`.
pub fn count_constructs(line: &Vec<char>, keywords: &Vec<Vec<char>>, compounds: &Vec<Vec<char>>) -> (n:
    usize)
    ensures
        n == capped(constructs(line@, views(keywords@), views(compounds@)) as int),
{
    let all = count_exactly(line, keywords);
    let twice = count_exactly(line, compounds);
    let found: u128 = if all >= twice {
        all - twice
    } else {
        0
    };
    if found > usize::MAX as u128 {
        usize::MAX
    } else {
        found as usize
    }
}

/// Whether a block comment is open behind a trimmed line.
pub fn block_open_behind(line: &Vec<char>, open: bool) -> (after: bool)
    ensures
        after == block_open_after(line@, open),
{
    let line_comment = text_chars("//");
    let block_start = text_chars("/*");
    let block_end = text_chars("*/");
    if has_prefix(line, &line_comment) {
        open
    } else if has_prefix(line, &block_start) && !has_match(line, &block_end) {
        true
    } else if open {
        !has_match(line, &block_end)
    } else {
        false
    }
}

/// The complexity estimate of the text `content` of a file with the
/// extension `ext`, in lower case. The score saturates.
pub fn calculate_cyclomatic_complexity(content: &str, ext: &str) -> (score: usize)
    ensures
        score == capped(complexity(content@, ext@) as int),
        score >= 1,
        family_of(ext@) is None ==> score == 1,
{
    let family = match family_for(ext) {
        Some(family) => family,
        None => {
            return 1;
        },
    };
    let keywords = branch_keyword_list(family, ext);
    let compounds = compound_keyword_list(family);
    let operators = logical_operator_list(family);
    let prefixes = comment_prefix_list(family);
    let blocks: bool = match family {
        Family::CLike => true,
        Family::Php => true,
        _ => false,
    };
    let chars = text_chars(content);
    let all = split_lines(&chars);
    let mut score: usize = 1;
    let mut open: bool = false;
    let mut i: usize = 0;
    while i < all.len()
        invariant
            i <= all.len(),
            views(all@) == lines(content@),
            views(keywords@) == branch_keywords(family, ext@),
            views(compounds@) == compound_keywords(family),
            views(operators@) == logical_operators(family),
            views(prefixes@) == comment_prefixes(family),
            blocks == has_block_comments(family),
            score == capped(1 + scan_lines(lines(content@), family, ext@, i as nat).score as int),
            open == scan_lines(lines(content@), family, ext@, i as nat).open,
        decreases all.len() - i,
    {
        let line = trim(&all[i]);
        assert(line@ == trimmed(lines(content@)[i as int]));
        if !open && !has_any_prefix(&line, &prefixes) {
            score = score.saturating_add(count_constructs(&line, &keywords, &compounds));
            score = score.saturating_add(count_all(&line, &operators));
        }
        open = blocks && block_open_behind(&line, open);
        i = i + 1;
    }
    score
}

} // verus!
