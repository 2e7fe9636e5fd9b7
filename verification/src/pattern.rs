//! Regular expressions, as the `regex` crate compiles and matches them.
//!
//! What a pattern matches takes the crate's documentation to state; the
//! library gives it names and reasons about the results.

use vstd::prelude::*;

verus! {

/// `regex::Regex`, a compiled regular expression; nothing is known of what
/// it holds.
#[verifier::external_type_specification]
#[verifier::external_body]
pub struct ExRegex(regex::Regex);

/// `regex::Error`, the reason why a text is no regular expression;
/// nothing is known of what it holds.
#[verifier::external_type_specification]
#[verifier::external_body]
pub struct ExRegexError(regex::Error);

/// Whether `regex::Regex::new` accepts `source` as a regular expression.
pub uninterp spec fn pattern_is_valid(source: Seq<char>) -> bool;

/// Whether the regular expression `source` matches somewhere in `text`:
/// the result of `regex::Regex::is_match`.
pub uninterp spec fn pattern_matches(source: Seq<char>, text: Seq<char>) -> bool;

/// The capture groups of the leftmost match of the regular expression
/// `source` in `text`, as `regex::Regex::captures` finds them: `None`
/// where there is no match; else for each group of the expression, in
/// the order of their opening parentheses and with the whole match as
/// group 0, the text that it matched, or `None` for a group that took no
/// part in the match.
pub uninterp spec fn pattern_captures(source: Seq<char>, text: Seq<char>) -> Option<
    Seq<Option<Seq<char>>>,
>;

/// A compiled regular expression together with its source text. Only
/// `compile` makes one, so the compiled expression is always the one that
/// `regex::Regex::new` gave for the source.
pub struct Pattern {
    source: String,
    compiled: regex::Regex,
}

impl View for Pattern {
    type V = Seq<char>;

    closed spec fn view(&self) -> Seq<char> {
        self.source@
    }
}

/// Why a text is no pattern.
#[derive(Clone, Copy, Debug, PartialEq, Eq, Structural)]
pub enum PatternError {
    /// The text is no regular expression, or one too large to compile.
    Invalid,
}

/// The texts of the groups of a match.
pub open spec fn group_views(groups: Seq<Option<String>>) -> Seq<Option<Seq<char>>> {
    Seq::new(
        groups.len(),
        |i: int|
            match groups[i] {
                Some(s) => Some(s@),
                None => None,
            },
    )
}

/// The texts of the groups of a match, where there is one.
pub open spec fn capture_views(groups: Option<Vec<Option<String>>>) -> Option<
    Seq<Option<Seq<char>>>,
> {
    match groups {
        Some(g) => Some(group_views(g@)),
        None => None,
    }
}

/// Calls `regex::Regex::new(source)` and keeps the source text beside the
/// compiled expression. The contract gives the outcome a name: whether
/// the call succeeds depends on `source` alone, and a pattern that it
/// returns has `source` as its view.
#[verifier::external_body]
fn compile(source: &str) -> (r: Result<Pattern, regex::Error>)
    ensures
        r is Ok <==> pattern_is_valid(source@),
        r matches Ok(p) ==> p@ == source@,
{
    regex::Regex::new(source).map(|compiled| Pattern { source: source.to_string(), compiled })
}

/// Calls `regex::Regex::is_match` of the compiled expression on `text`.
/// The contract names the result: it depends on the expression's source
/// and on `text` alone.
#[verifier::external_body]
fn is_match(pattern: &Pattern, text: &str) -> (b: bool)
    ensures
        b == pattern_matches(pattern@, text@),
{
    pattern.compiled.is_match(text)
}

/// Calls `regex::Regex::captures` of the compiled expression on `text`
/// and hands out the groups of the match with `regex::Captures::iter`,
/// each as the text that `regex::Match::as_str` gives. The contract names
/// the result: it depends on the expression's source and on `text` alone.
#[verifier::external_body]
fn captures(pattern: &Pattern, text: &str) -> (groups: Option<Vec<Option<String>>>)
    ensures
        capture_views(groups) == pattern_captures(pattern@, text@),
{
    pattern.compiled.captures(text).map(
        |caps| caps.iter().map(|group| group.map(|m| m.as_str().to_string())).collect(),
    )
}

/// Collects the characters into a `String` with `String::from_iter`: the
/// text holds exactly these characters, in this order.
#[verifier::external_body]
pub(crate) fn text_from_chars(chars: &Vec<char>) -> (text: String)
    ensures
        text@ == chars@,
{
    String::from_iter(chars.iter())
}

impl Pattern {
    /// Compiles `source`; fails where it is no regular expression.
    pub fn new(source: &str) -> (r: Result<Pattern, PatternError>)
        ensures
            r is Ok <==> pattern_is_valid(source@),
            r matches Ok(p) ==> p@ == source@,
    {
        match compile(source) {
            Ok(pattern) => Ok(pattern),
            Err(_) => Err(PatternError::Invalid),
        }
    }

    /// Whether the pattern matches somewhere in `text`.
    pub fn matches(&self, text: &str) -> (b: bool)
        ensures
            b == pattern_matches(self@, text@),
    {
        is_match(self, text)
    }

    /// The groups of the leftmost match of the pattern in `text`.
    pub fn groups(&self, text: &str) -> (groups: Option<Vec<Option<String>>>)
        ensures
            capture_views(groups) == pattern_captures(self@, text@),
    {
        captures(self, text)
    }
}

} // verus!
