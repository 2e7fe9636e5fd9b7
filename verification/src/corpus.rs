//! The files of a source tree as the analysis takes them, and what it
//! knows of their names: languages by extension, and paths to ignore.

use vstd::prelude::*;

use crate::complexity::same_text;
use crate::pattern::{pattern_is_valid, pattern_matches, Pattern};
use crate::seq_util::views;

verus! {

/// One file of the tree: its path, the extension of its name if it has
/// one, its size in bytes if that could be read, and its text if it could
/// be read as text.
#[derive(Debug)]
pub struct SourceFile {
    pub path: String,
    pub extension: Option<String>,
    pub size: Option<usize>,
    pub content: Option<String>,
}

/// What `SourceFile` holds, as sequences.
#[verifier::ext_equal]
pub struct SourceFileView {
    pub path: Seq<char>,
    pub extension: Option<Seq<char>>,
    pub size: Option<usize>,
    pub content: Option<Seq<char>>,
}

impl View for SourceFile {
    type V = SourceFileView;

    open spec fn view(&self) -> SourceFileView {
        SourceFileView {
            path: self.path@,
            extension: match self.extension {
                Some(e) => Some(e@),
                None => None,
            },
            size: self.size,
            content: match self.content {
                Some(c) => Some(c@),
                None => None,
            },
        }
    }
}

/// The lower-case form of a text: the result of `str::to_lowercase`.
pub uninterp spec fn lowercased(text: Seq<char>) -> Seq<char>;

/// Calls `str::to_lowercase`, which maps each character by the Unicode
/// rules for lower case. The contract names the result: it depends on
/// `text` alone.
#[verifier::external_body]
pub(crate) fn to_lowercase(text: &str) -> (lower: String)
    ensures
        lower@ == lowercased(text@),
{
    text.to_lowercase()
}

/// The extension by which the analysis knows a file: its extension in
/// lower case; the empty text for a file without one.
pub open spec fn extension_key(file: SourceFileView) -> Seq<char> {
    match file.extension {
        Some(e) => lowercased(e),
        None => Seq::empty(),
    }
}

/// The extension by which the analysis knows `file`.
pub fn extension_of(file: &SourceFile) -> (ext: String)
    ensures
        ext@ == extension_key(file@),
{
    match &file.extension {
        Some(e) => to_lowercase(e.as_str()),
        None => String::new(),
    }
}

/// The language of the files with the extension `ext`, in lower case;
/// `Other` for an extension that stands for no known language.
pub open spec fn language_of(ext: Seq<char>) -> Seq<char> {
    if ext == "rs"@ {
        "Rust"@
    } else if ext == "js"@ {
        "JavaScript"@
    } else if ext == "ts"@ {
        "TypeScript"@
    } else if ext == "jsx"@ || ext == "tsx"@ {
        "React"@
    } else if ext == "py"@ {
        "Python"@
    } else if ext == "java"@ {
        "Java"@
    } else if ext == "c"@ || ext == "h"@ {
        "C"@
    } else if ext == "cpp"@ || ext == "hpp"@ {
        "C++"@
    } else if ext == "go"@ {
        "Go"@
    } else if ext == "rb"@ {
        "Ruby"@
    } else if ext == "php"@ {
        "PHP"@
    } else if ext == "html"@ {
        "HTML"@
    } else if ext == "css"@ {
        "CSS"@
    } else if ext == "scss"@ || ext == "sass"@ {
        "SASS"@
    } else if ext == "md"@ {
        "Markdown"@
    } else if ext == "json"@ {
        "JSON"@
    } else if ext == "yml"@ || ext == "yaml"@ {
        "YAML"@
    } else if ext == "toml"@ {
        "TOML"@
    } else if ext == "sh"@ || ext == "bash"@ {
        "Shell"@
    } else if ext == "sql"@ {
        "SQL"@
    } else if ext == "swift"@ {
        "Swift"@
    } else if ext == "kt"@ || ext == "kts"@ {
        "Kotlin"@
    } else if ext == "dart"@ {
        "Dart"@
    } else if ext == "ex"@ || ext == "exs"@ {
        "Elixir"@
    } else if ext == "hs"@ {
        "Haskell"@
    } else if ext == "clj"@ {
        "Clojure"@
    } else if ext == "fs"@ {
        "F#"@
    } else if ext == "vue"@ {
        "Vue"@
    } else if ext == "svelte"@ {
        "Svelte"@
    } else if ext == "xml"@ {
        "XML"@
    } else if ext == "gradle"@ {
        "Gradle"@
    } else if ext == "tf"@ || ext == "tfvars"@ {
        "Terraform"@
    } else if ext == "proto"@ {
        "Protocol Buffers"@
    } else if ext == "graphql"@ || ext == "gql"@ {
        "GraphQL"@
    } else if ext == "r"@ {
        "R"@
    } else if ext == "lua"@ {
        "Lua"@
    } else if ext == "pl"@ || ext == "pm"@ {
        "Perl"@
    } else if ext == "cs"@ {
        "C#"@
    } else if ext == "vb"@ {
        "Visual Basic"@
    } else if ext == "scala"@ {
        "Scala"@
    } else if ext == "groovy"@ {
        "Groovy"@
    } else if ext == "m"@ {
        "Objective-C"@
    } else if ext == "mm"@ {
        "Objective-C++"@
    } else {
        "Other"@
    }
}

/// The language of the files with the extension `ext`, in lower case.
pub fn language_for(ext: &str) -> (language: String)
    ensures
        language@ == language_of(ext@),
{
    let name: &str = if same_text(ext, "rs") {
        "Rust"
    } else if same_text(ext, "js") {
        "JavaScript"
    } else if same_text(ext, "ts") {
        "TypeScript"
    } else if same_text(ext, "jsx") || same_text(ext, "tsx") {
        "React"
    } else if same_text(ext, "py") {
        "Python"
    } else if same_text(ext, "java") {
        "Java"
    } else if same_text(ext, "c") || same_text(ext, "h") {
        "C"
    } else if same_text(ext, "cpp") || same_text(ext, "hpp") {
        "C++"
    } else if same_text(ext, "go") {
        "Go"
    } else if same_text(ext, "rb") {
        "Ruby"
    } else if same_text(ext, "php") {
        "PHP"
    } else if same_text(ext, "html") {
        "HTML"
    } else if same_text(ext, "css") {
        "CSS"
    } else if same_text(ext, "scss") || same_text(ext, "sass") {
        "SASS"
    } else if same_text(ext, "md") {
        "Markdown"
    } else if same_text(ext, "json") {
        "JSON"
    } else if same_text(ext, "yml") || same_text(ext, "yaml") {
        "YAML"
    } else if same_text(ext, "toml") {
        "TOML"
    } else if same_text(ext, "sh") || same_text(ext, "bash") {
        "Shell"
    } else if same_text(ext, "sql") {
        "SQL"
    } else if same_text(ext, "swift") {
        "Swift"
    } else if same_text(ext, "kt") || same_text(ext, "kts") {
        "Kotlin"
    } else if same_text(ext, "dart") {
        "Dart"
    } else if same_text(ext, "ex") || same_text(ext, "exs") {
        "Elixir"
    } else if same_text(ext, "hs") {
        "Haskell"
    } else if same_text(ext, "clj") {
        "Clojure"
    } else if same_text(ext, "fs") {
        "F#"
    } else if same_text(ext, "vue") {
        "Vue"
    } else if same_text(ext, "svelte") {
        "Svelte"
    } else if same_text(ext, "xml") {
        "XML"
    } else if same_text(ext, "gradle") {
        "Gradle"
    } else if same_text(ext, "tf") || same_text(ext, "tfvars") {
        "Terraform"
    } else if same_text(ext, "proto") {
        "Protocol Buffers"
    } else if same_text(ext, "graphql") || same_text(ext, "gql") {
        "GraphQL"
    } else if same_text(ext, "r") {
        "R"
    } else if same_text(ext, "lua") {
        "Lua"
    } else if same_text(ext, "pl") || same_text(ext, "pm") {
        "Perl"
    } else if same_text(ext, "cs") {
        "C#"
    } else if same_text(ext, "vb") {
        "Visual Basic"
    } else if same_text(ext, "scala") {
        "Scala"
    } else if same_text(ext, "groovy") {
        "Groovy"
    } else if same_text(ext, "m") {
        "Objective-C"
    } else if same_text(ext, "mm") {
        "Objective-C++"
    } else {
        "Other"
    };
    name.to_owned()
}

/// The regular expressions of the paths that a scan of the tree leaves
/// out: version-control data, dependencies, build output, editor files.
pub open spec fn ignored_sources() -> Seq<Seq<char>> {
    seq![
        "\\.git/"@,
        "node_modules/"@,
        "target/"@,
        "\\.DS_Store"@,
        "\\.idea/"@,
        "\\.vscode/"@,
        "dist/"@,
        "build/"@,
        "\\.cache/"@,
    ]
}

/// The sources among `sources` that are regular expressions, in order.
pub open spec fn valid_sources(sources: Seq<Seq<char>>) -> Seq<Seq<char>>
    decreases sources.len(),
{
    if sources.len() == 0 {
        seq![]
    } else {
        let before = valid_sources(sources.drop_last());
        if pattern_is_valid(sources.last()) {
            before.push(sources.last())
        } else {
            before
        }
    }
}

fn ignored_source_list() -> (list: Vec<String>)
    ensures
        views(list@) == ignored_sources(),
{
    let mut list: Vec<String> = Vec::new();
    list.push("\\.git/".to_owned());
    list.push("node_modules/".to_owned());
    list.push("target/".to_owned());
    list.push("\\.DS_Store".to_owned());
    list.push("\\.idea/".to_owned());
    list.push("\\.vscode/".to_owned());
    list.push("dist/".to_owned());
    list.push("build/".to_owned());
    list.push("\\.cache/".to_owned());
    assert(views(list@) =~= ignored_sources());
    list
}

/// The patterns of the paths that a scan of the tree leaves out.
pub fn ignore_patterns() -> (patterns: Vec<Pattern>)
    ensures
        views(patterns@) == valid_sources(ignored_sources()),
{
    let sources = ignored_source_list();
    let mut patterns: Vec<Pattern> = Vec::new();
    let mut i: usize = 0;
    assert(views(patterns@) =~= valid_sources(views(sources@).take(0)));
    while i < sources.len()
        invariant
            i <= sources.len(),
            views(patterns@) == valid_sources(views(sources@).take(i as int)),
        decreases sources.len() - i,
    {
        proof {
            let next = views(sources@).take(i as int + 1);
            assert(next.drop_last() =~= views(sources@).take(i as int));
            assert(next.last() == sources@[i as int]@);
        }
        let ghost before = views(patterns@);
        match Pattern::new(sources[i].as_str()) {
            Ok(p) => {
                patterns.push(p);
                assert(views(patterns@) =~= before.push(sources@[i as int]@));
            },
            Err(_) => {},
        }
        i = i + 1;
    }
    assert(views(sources@).take(sources.len() as int) =~= views(sources@));
    patterns
}

/// Whether one of the patterns matches somewhere in `path`.
pub open spec fn matches_any(path: Seq<char>, sources: Seq<Seq<char>>) -> bool {
    exists|i: int| 0 <= i < sources.len() && pattern_matches(#[trigger] sources[i], path)
}

/// Whether a scan of the tree leaves `path` out: whether one of
/// `patterns` matches somewhere in it.
pub fn is_ignored(path: &str, patterns: &Vec<Pattern>) -> (ignored: bool)
    ensures
        ignored == matches_any(path@, views(patterns@)),
{
    let mut i: usize = 0;
    while i < patterns.len()
        invariant
            i <= patterns.len(),
            forall|j: int| 0 <= j < i ==> !pattern_matches(#[trigger] views(patterns@)[j], path@),
        decreases patterns.len() - i,
    {
        if patterns[i].matches(path) {
            assert(pattern_matches(views(patterns@)[i as int], path@));
            return true;
        }
        i = i + 1;
    }
    false
}

} // verus!
