use repo_analyzer::code_metrics::function_patterns;
use repo_analyzer::functions::{find_functions, measure_functions, name_of_groups, LineFacts};
use repo_analyzer::pattern::{Pattern, PatternError};

fn plain() -> LineFacts {
    LineFacts { name: None, opens: false, indent: 0, blank: false, open_braces: 0, close_braces: 0 }
}

fn declares(name: &str) -> LineFacts {
    LineFacts { name: Some(name.to_string()), ..plain() }
}

fn spans(text: &str, ext: &str) -> Vec<(String, usize)> {
    let p = function_patterns(ext).expect("patterns of a known language");
    find_functions(text, &p.func, &p.open, &p.close, ext)
}

#[test]
fn a_braced_body_from_line_10_to_line_45_has_length_35() {
    let mut text = String::new();
    for i in 0..10 {
        text.push_str(&format!("// line {}\n", i));
    }
    text.push_str("fn long_one() {\n");
    for i in 11..45 {
        text.push_str(&format!("    let v{} = {};\n", i, i));
    }
    text.push_str("}\n");
    text.push_str("// after\n");
    let found = spans(&text, "rs");
    assert_eq!(found, vec![("long_one".to_string(), 35)]);
    assert!(found[0].1 > 30);
}

#[test]
fn nested_braces_are_counted() {
    let text = "fn outer() {\n    if x {\n        y();\n    }\n}\nfn next() {\n}\n";
    assert_eq!(spans(text, "rs"), vec![("outer".to_string(), 4), ("next".to_string(), 1)]);
}

#[test]
fn the_opening_brace_may_stand_on_a_later_line() {
    let text = "fn split(\n    a: u8,\n)\n{\n    body();\n}\n";
    assert_eq!(spans(text, "rs"), vec![("split".to_string(), 2)]);
}

#[test]
fn a_function_inside_a_body_is_not_found() {
    let text = "fn outer() {\n    fn inner() {\n    }\n}\n";
    assert_eq!(spans(text, "rs"), vec![("outer".to_string(), 3)]);
}

#[test]
fn a_body_that_never_closes_runs_to_the_end() {
    let text = "fn open() {\n    a();\n    b();\n";
    assert_eq!(spans(text, "rs"), vec![("open".to_string(), 3)]);
}

#[test]
fn a_declaration_without_an_opening_has_length_one() {
    let text = "x\nfn lonely(a: u8)\ny\n";
    assert_eq!(spans(text, "rs"), vec![("lonely".to_string(), 1)]);
    assert_eq!(spans("def lonely(a)\n", "py"), vec![("lonely".to_string(), 1)]);
}

#[test]
fn more_closing_than_open_braces_end_a_body() {
    let text = "fn f() {\n}}\nfn g() {\n}\n";
    assert_eq!(spans(text, "rs"), vec![("f".to_string(), 1), ("g".to_string(), 1)]);
}

#[test]
fn python_bodies_end_where_the_indentation_returns() {
    let text = "def first(a):\n    x = 1\n\n    return x\ndef second():\n    pass\n";
    assert_eq!(spans(text, "py"), vec![("first".to_string(), 4), ("second".to_string(), 2)]);
}

#[test]
fn python_methods_end_at_their_own_indentation() {
    let text = "class A:\n    def m(self):\n        return 1\n    def n(self):\n        return 2\nx = 1\n";
    assert_eq!(spans(text, "py"), vec![("m".to_string(), 2), ("n".to_string(), 2)]);
}

#[test]
fn javascript_names_come_from_the_group_that_matched() {
    let text = "function named(a) {\n}\nconst assigned = function(b) {\n}\nobj = {\n  key: function(c) {\n  }\n}\n";
    let found = spans(text, "js");
    assert_eq!(found[0], ("named".to_string(), 1));
    assert_eq!(found[1], ("assigned".to_string(), 1));
}

#[test]
fn go_functions() {
    let text = "package main\n\nfunc Add(a int, b int) int {\n\treturn a + b\n}\n";
    assert_eq!(spans(text, "go"), vec![("Add".to_string(), 2)]);
}

#[test]
fn java_takes_the_first_group_that_is_not_empty() {
    let text = "public int size() {\n    return n;\n}\n";
    assert_eq!(spans(text, "java"), vec![("public".to_string(), 2)]);
}

#[test]
fn no_patterns_for_other_languages() {
    assert!(function_patterns("rb").is_none());
    assert!(function_patterns("").is_none());
    assert!(function_patterns("RS").is_none());
    for ext in ["rs", "js", "ts", "py", "java", "go"] {
        assert!(function_patterns(ext).is_some());
    }
}

#[test]
fn the_name_is_the_first_group_with_text() {
    let groups = vec![Some("fn a(".to_string()), None, Some(String::new()), Some("a".to_string())];
    assert_eq!(name_of_groups(&groups), "a");
    let groups = vec![Some("whole".to_string()), Some("x".to_string()), Some("y".to_string())];
    assert_eq!(name_of_groups(&groups), "x");
}

#[test]
fn a_match_without_a_named_group_is_anonymous() {
    assert_eq!(name_of_groups(&vec![Some("whole".to_string())]), "anonymous");
    assert_eq!(name_of_groups(&vec![Some("whole".to_string()), None]), "anonymous");
    assert_eq!(name_of_groups(&vec![Some("w".to_string()), Some(String::new())]), "anonymous");
    assert_eq!(name_of_groups(&Vec::new()), "anonymous");
}

#[test]
fn measure_braced_bodies_from_facts() {
    let facts = vec![
        LineFacts { opens: true, open_braces: 1, ..declares("f") },
        LineFacts { opens: true, open_braces: 1, ..plain() },
        LineFacts { close_braces: 1, ..plain() },
        LineFacts { close_braces: 1, ..plain() },
        plain(),
    ];
    assert_eq!(measure_functions(&facts, false), vec![("f".to_string(), 3)]);
}

#[test]
fn the_scan_goes_on_at_the_line_where_a_body_ends() {
    let facts = vec![
        LineFacts { opens: true, ..declares("f") },
        LineFacts { close_braces: 1, opens: true, ..declares("g") },
        LineFacts { close_braces: 1, ..plain() },
    ];
    assert_eq!(
        measure_functions(&facts, false),
        vec![("f".to_string(), 1), ("g".to_string(), 1)]
    );
}

#[test]
fn measure_indented_bodies_from_facts() {
    let facts = vec![
        LineFacts { opens: true, indent: 4, ..declares("m") },
        LineFacts { indent: 8, ..plain() },
        LineFacts { blank: true, indent: 0, ..plain() },
        LineFacts { indent: 8, ..plain() },
        LineFacts { indent: 4, ..plain() },
        LineFacts { indent: 0, ..plain() },
    ];
    assert_eq!(measure_functions(&facts, true), vec![("m".to_string(), 4)]);
}

#[test]
fn no_lines_no_functions() {
    assert!(measure_functions(&Vec::new(), false).is_empty());
    assert!(spans("", "rs").is_empty());
}

#[test]
fn patterns_match_as_regular_expressions() {
    let p = Pattern::new("fn\\s+(\\w+)\\s*\\(").expect("a valid expression");
    assert!(p.matches("pub fn  run (x)"));
    assert!(!p.matches("fn\\s+(\\w+)\\s*\\("));
    assert!(!p.matches("function run(x)"));
    let groups = p.groups("pub fn  run (x)").expect("a match");
    assert_eq!(groups, vec![Some("fn  run (".to_string()), Some("run".to_string())]);
    assert_eq!(p.groups("nothing here"), None);
}

#[test]
fn groups_that_took_no_part_are_none() {
    let p = Pattern::new("(a)|(b)").expect("a valid expression");
    assert_eq!(p.groups("b"), Some(vec![Some("b".to_string()), None, Some("b".to_string())]));
}

#[test]
fn an_unclosed_group_is_no_pattern() {
    assert_eq!(Pattern::new("foo(bar").err(), Some(PatternError::Invalid));
}
