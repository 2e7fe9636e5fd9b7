//! Classification of the lines of a file as code, comment or blank.

use vstd::prelude::*;

use crate::complexity::{block_open_after, block_open_behind, same_text};
use crate::seq_util::views;
use crate::text::{
    contains, has_match, has_prefix, lines, split_lines, starts_with, text_chars, trim, trimmed,
};

verus! {

/// How a language writes comments.
#[derive(Clone, Copy, Debug, PartialEq, Eq, Structural)]
pub enum CommentStyle {
    /// `//` to the end of the line, and blocks between `/*` and `*/`.
    Slashes,
    /// `#` to the end of the line.
    Hash,
    /// Blocks between `<!--` and `-->`.
    Markup,
}

/// The comment style of the language with the file extension `ext`, in
/// lower case; `None` for an extension with no known comment syntax.
pub open spec fn comment_style_of(ext: Seq<char>) -> Option<CommentStyle> {
    if ext == "rs"@ || ext == "js"@ || ext == "ts"@ || ext == "jsx"@ || ext == "tsx"@ || ext
        == "java"@ || ext == "c"@ || ext == "cpp"@ || ext == "cs"@ || ext == "go"@ || ext
        == "swift"@ || ext == "kt"@ {
        Some(CommentStyle::Slashes)
    } else if ext == "py"@ || ext == "rb"@ || ext == "sh"@ {
        Some(CommentStyle::Hash)
    } else if ext == "html"@ || ext == "xml"@ {
        Some(CommentStyle::Markup)
    } else {
        None
    }
}

/// Whether a trimmed line that is not blank is a comment line, given
/// whether a block comment is open before it.
pub open spec fn is_comment_line(line: Seq<char>, style: Option<CommentStyle>, open: bool) -> bool {
    match style {
        Some(CommentStyle::Slashes) => starts_with(line, "//"@) || starts_with(line, "/*"@)
            && !contains(line, "*/"@) || open,
        Some(CommentStyle::Hash) => starts_with(line, "#"@),
        Some(CommentStyle::Markup) => starts_with(line, "<!--"@) && !contains(line, "-->"@) || open,
        None => false,
    }
}

/// Whether a block comment is open behind a trimmed line that is not
/// blank, given whether one was open before it.
pub open spec fn open_after(line: Seq<char>, style: Option<CommentStyle>, open: bool) -> bool {
    match style {
        Some(CommentStyle::Slashes) => block_open_after(line, open),
        Some(CommentStyle::Hash) => open,
        Some(CommentStyle::Markup) => if starts_with(line, "<!--"@) && !contains(line, "-->"@) {
            true
        } else if open {
            !contains(line, "-->"@)
        } else {
            false
        },
        None => open,
    }
}

/// The numbers of code, comment and blank lines among the lines seen so
/// far, and whether a block comment is open behind them.
pub struct Tally {
    pub code: nat,
    pub comment: nat,
    pub blank: nat,
    pub open: bool,
}

/// The tally of the first `n` of `lines`. A line of nothing but white
/// space is blank and leaves an open comment open; any other line is a
/// comment line or a code line.
pub open spec fn tally(lines: Seq<Seq<char>>, style: Option<CommentStyle>, n: nat) -> Tally
    decreases n,
{
    if n == 0 {
        Tally { code: 0, comment: 0, blank: 0, open: false }
    } else {
        let before = tally(lines, style, (n - 1) as nat);
        let line = trimmed(lines[n - 1]);
        if line.len() == 0 {
            Tally { blank: before.blank + 1, ..before }
        } else if is_comment_line(line, style, before.open) {
            Tally {
                comment: before.comment + 1,
                open: open_after(line, style, before.open),
                ..before
            }
        } else {
            Tally { code: before.code + 1, open: open_after(line, style, before.open), ..before }
        }
    }
}

/// The comment style of the language with the file extension `ext`.
pub fn comment_style_for(ext: &str) -> (style: Option<CommentStyle>)
    ensures
        style == comment_style_of(ext@),
{
    if same_text(ext, "rs") || same_text(ext, "js") || same_text(ext, "ts") || same_text(
        ext,
        "jsx",
    ) || same_text(ext, "tsx") || same_text(ext, "java") || same_text(ext, "c") || same_text(
        ext,
        "cpp",
    ) || same_text(ext, "cs") || same_text(ext, "go") || same_text(ext, "swift") || same_text(
        ext,
        "kt",
    ) {
        Some(CommentStyle::Slashes)
    } else if same_text(ext, "py") || same_text(ext, "rb") || same_text(ext, "sh") {
        Some(CommentStyle::Hash)
    } else if same_text(ext, "html") || same_text(ext, "xml") {
        Some(CommentStyle::Markup)
    } else {
        None
    }
}

/// Classifies a trimmed line that is not blank: whether it is a comment
/// line, and whether a block comment is open behind it.
pub fn classify_line(line: &Vec<char>, style: Option<CommentStyle>, open: bool) -> (r: (bool, bool))
    ensures
        r.0 == is_comment_line(line@, style, open),
        r.1 == open_after(line@, style, open),
{
    match style {
        Some(CommentStyle::Slashes) => {
            let line_comment = text_chars("//");
            let block_start = text_chars("/*");
            let block_end = text_chars("*/");
            let comment = has_prefix(line, &line_comment) || (has_prefix(line, &block_start)
                && !has_match(line, &block_end)) || open;
            (comment, block_open_behind(line, open))
        },
        Some(CommentStyle::Hash) => {
            let hash = text_chars("#");
            (has_prefix(line, &hash), open)
        },
        Some(CommentStyle::Markup) => {
            let block_start = text_chars("<!--");
            let block_end = text_chars("-->");
            if has_prefix(line, &block_start) && !has_match(line, &block_end) {
                (true, true)
            } else if open {
                (true, !has_match(line, &block_end))
            } else {
                (false, false)
            }
        },
        None => (false, open),
    }
}

/// Counts the lines of the text `content` of a file with the extension
/// `ext`, in lower case: all lines, code lines, comment lines and blank
/// lines, in this order.
pub fn count_line_types(content: &str, ext: &str) -> (r: (usize, usize, usize, usize))
    ensures
        ({
            let all = lines(content@);
            let t = tally(all, comment_style_of(ext@), all.len());
            &&& r.0 == all.len()
            &&& r.1 == t.code
            &&& r.2 == t.comment
            &&& r.3 == t.blank
        }),
        r.0 == r.1 + r.2 + r.3,
{
    let style = comment_style_for(ext);
    let chars = text_chars(content);
    let all = split_lines(&chars);
    let mut code: usize = 0;
    let mut comment: usize = 0;
    let mut blank: usize = 0;
    let mut open: bool = false;
    let mut i: usize = 0;
    while i < all.len()
        invariant
            i <= all.len(),
            views(all@) == lines(content@),
            style == comment_style_of(ext@),
            code == tally(lines(content@), style, i as nat).code,
            comment == tally(lines(content@), style, i as nat).comment,
            blank == tally(lines(content@), style, i as nat).blank,
            open == tally(lines(content@), style, i as nat).open,
            code + comment + blank == i,
        decreases all.len() - i,
    {
        let line = trim(&all[i]);
        assert(line@ == trimmed(lines(content@)[i as int]));
        if line.len() == 0 {
            blank = blank + 1;
        } else {
            let (is_comment, after) = classify_line(&line, style, open);
            if is_comment {
                comment = comment + 1;
            } else {
                code = code + 1;
            }
            open = after;
        }
        i = i + 1;
    }
    (all.len(), code, comment, blank)
}

} // verus!
