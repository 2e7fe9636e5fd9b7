use repo_analyzer::analyzer::RepositoryAnalysis;
use repo_analyzer::corpus::SourceFile;
use repo_analyzer::duplicates::{
    clean_lines, find_duplicate_blocks, find_duplicate_code, find_duplicates, overlaps_accepted,
    run_length, same_line, searches_extension, Block,
};

fn line(s: &str) -> Vec<char> {
    s.chars().collect()
}

fn lines(all: &[&str]) -> Vec<Vec<char>> {
    all.iter().map(|s| line(s)).collect()
}

fn numbered(prefix: &str, from: usize, to: usize) -> Vec<Vec<char>> {
    (from..to).map(|i| line(&format!("{}{}", prefix, i))).collect()
}

fn file(path: &str, ext: &str, text: &str) -> SourceFile {
    SourceFile {
        path: path.to_string(),
        extension: Some(ext.to_string()),
        size: Some(text.len()),
        content: Some(text.to_string()),
    }
}

fn block_text(prefix: &str, shared: usize) -> String {
    let mut text = String::new();
    for i in 0..3 {
        text.push_str(&format!("let {}_before_{} = {};\n", prefix, i, i));
    }
    for i in 0..shared {
        text.push_str(&format!("    shared_call_{}();\n", i));
    }
    for i in 0..3 {
        text.push_str(&format!("let {}_after_{} = {};\n", prefix, i, i));
    }
    text
}

#[test]
fn one_shared_block_of_eight_lines_is_reported_once() {
    let files =
        vec![file("a.rs", "rs", &block_text("a", 8)), file("b.rs", "rs", &block_text("b", 8))];
    let found = find_duplicates(&files);
    assert_eq!(found.len(), 1);
    assert_eq!(found[0].line_count, 8);
    assert_eq!(found[0].files, vec!["a.rs".to_string(), "b.rs".to_string()]);
    assert_eq!(found[0].similarity.num, 1);
    assert_eq!(found[0].similarity.den, 1);
}

#[test]
fn the_same_block_is_found_whichever_file_comes_first() {
    let a = file("a.rs", "rs", &block_text("a", 8));
    let b = file("b.rs", "rs", &block_text("b", 8));
    let one: Vec<usize> =
        find_duplicates(&vec![file("a.rs", "rs", &block_text("a", 8)), b]).iter().map(|d| d.line_count).collect();
    let other: Vec<usize> =
        find_duplicates(&vec![file("b.rs", "rs", &block_text("b", 8)), a]).iter().map(|d| d.line_count).collect();
    assert_eq!(one, vec![8]);
    assert_eq!(other, vec![8]);
}

#[test]
fn five_shared_lines_are_no_block() {
    let files =
        vec![file("a.rs", "rs", &block_text("a", 5)), file("b.rs", "rs", &block_text("b", 5))];
    assert!(find_duplicates(&files).is_empty());
}

#[test]
fn six_shared_lines_are_a_block() {
    let files =
        vec![file("a.rs", "rs", &block_text("a", 6)), file("b.rs", "rs", &block_text("b", 6))];
    let found = find_duplicates(&files);
    assert_eq!(found.len(), 1);
    assert_eq!(found[0].line_count, 6);
}

#[test]
fn a_block_at_the_very_end_of_both_files_is_found() {
    let mut a = lines(&["a0", "a1"]);
    a.extend(numbered("s", 0, 6));
    let mut b = lines(&["b0"]);
    b.extend(numbered("s", 0, 6));
    assert_eq!(find_duplicate_blocks(&a, &b), vec![Block { start_a: 2, start_b: 1, len: 6 }]);
}

#[test]
fn shifted_runs_inside_an_accepted_block_are_suppressed() {
    let a = numbered("s", 0, 10);
    let b = numbered("s", 0, 10);
    assert_eq!(find_duplicate_blocks(&a, &b), vec![Block { start_a: 0, start_b: 0, len: 10 }]);
}

#[test]
fn a_run_that_reaches_into_an_accepted_block_is_suppressed() {
    // first file: o p q r s t, four other lines, m n o p q r s, y
    let mut a = lines(&["o", "p", "q", "r", "s", "t", "x0", "x1", "x2", "x3"]);
    a.extend(lines(&["m", "n", "o", "p", "q", "r", "s", "y"]));
    // second file: three other lines, m n o p q r s t
    let b = lines(&["b0", "b1", "b2", "m", "n", "o", "p", "q", "r", "s", "t"]);
    assert_eq!(find_duplicate_blocks(&a, &b), vec![Block { start_a: 0, start_b: 5, len: 6 }]);
    assert_eq!(find_duplicate_blocks(&b, &a), vec![Block { start_a: 3, start_b: 10, len: 7 }]);
}

#[test]
fn accepted_blocks_never_overlap() {
    let mut a = numbered("s", 0, 8);
    a.extend(lines(&["gap"]));
    a.extend(numbered("t", 0, 7));
    a.extend(numbered("s", 0, 8));
    let mut b = numbered("t", 0, 7);
    b.extend(lines(&["hole"]));
    b.extend(numbered("s", 0, 8));
    let blocks = find_duplicate_blocks(&a, &b);
    assert!(!blocks.is_empty());
    for (x, first) in blocks.iter().enumerate() {
        assert!(first.len >= 6);
        for second in &blocks[x + 1..] {
            let in_a = first.start_a < second.start_a + second.len
                && second.start_a < first.start_a + first.len;
            let in_b = first.start_b < second.start_b + second.len
                && second.start_b < first.start_b + first.len;
            assert!(!in_a && !in_b);
        }
    }
    assert_eq!(
        blocks,
        vec![Block { start_a: 0, start_b: 8, len: 8 }, Block { start_a: 9, start_b: 0, len: 7 }]
    );
}

#[test]
fn run_length_stops_at_the_first_difference() {
    let a = lines(&["x", "y", "z", "w"]);
    let b = lines(&["q", "x", "y", "other"]);
    assert_eq!(run_length(&a, 0, &b, 1), 2);
    assert_eq!(run_length(&a, 0, &b, 0), 0);
    assert_eq!(run_length(&a, 4, &b, 0), 0);
    assert_eq!(run_length(&a, 9, &b, 0), 0);
    assert_eq!(run_length(&a, 0, &b, usize::MAX), 0);
    assert_eq!(run_length(&a, 2, &a, 2), 2);
}

#[test]
fn overlap_is_tested_in_both_files() {
    let accepted = vec![Block { start_a: 10, start_b: 50, len: 6 }];
    assert!(overlaps_accepted(&accepted, &Block { start_a: 15, start_b: 0, len: 6 }));
    assert!(overlaps_accepted(&accepted, &Block { start_a: 0, start_b: 45, len: 6 }));
    assert!(overlaps_accepted(&accepted, &Block { start_a: 5, start_b: 0, len: 6 }));
    assert!(!overlaps_accepted(&accepted, &Block { start_a: 16, start_b: 56, len: 6 }));
    assert!(!overlaps_accepted(&accepted, &Block { start_a: 4, start_b: 44, len: 6 }));
    assert!(!overlaps_accepted(&Vec::new(), &Block { start_a: 0, start_b: 0, len: 6 }));
    let far = vec![Block { start_a: usize::MAX - 2, start_b: 0, len: 6 }];
    assert!(overlaps_accepted(&far, &Block { start_a: usize::MAX, start_b: 90, len: usize::MAX }));
}

#[test]
fn same_line_compares_characters() {
    assert!(same_line(&line("abc"), &line("abc")));
    assert!(!same_line(&line("abc"), &line("abd")));
    assert!(!same_line(&line("abc"), &line("ab")));
}

#[test]
fn cleaning_trims_and_drops_blank_and_comment_lines() {
    let text = "  keep me  \n\n// drop\n   # drop too\n\tkeep(too);\n/* kept */\n";
    let got: Vec<String> = clean_lines(text).iter().map(|l| l.iter().collect()).collect();
    assert_eq!(got, vec!["keep me".to_string(), "keep(too);".to_string(), "/* kept */".to_string()]);
}

#[test]
fn white_space_and_comments_do_not_break_a_block() {
    let a = "x();\n  one();\ntwo();\n\nthree();\n// note\nfour();\nfive();\nsix();\nend_a();\n";
    let b = "y();\none();\n    two();\nthree();\nfour();\n# other note\nfive();\n\n\nsix();\nend_b();\n";
    let found = find_duplicates(&vec![file("a.js", "js", a), file("b.py", "py", b)]);
    assert_eq!(found.len(), 1);
    assert_eq!(found[0].line_count, 6);
}

#[test]
fn only_source_files_with_text_are_searched() {
    let text = block_text("a", 8);
    let unread = SourceFile {
        path: "c.rs".to_string(),
        extension: Some("rs".to_string()),
        size: None,
        content: None,
    };
    let no_extension = SourceFile {
        path: "Makefile".to_string(),
        extension: None,
        size: None,
        content: Some(text.clone()),
    };
    let files = vec![file("a.md", "md", &text), file("b.rs", "rs", &text), unread, no_extension];
    assert!(find_duplicates(&files).is_empty());
    for ext in ["rs", "js", "ts", "py", "java", "c", "cpp", "go", "cs"] {
        assert!(searches_extension(ext));
    }
    for ext in ["md", "rb", "php", "", "h"] {
        assert!(!searches_extension(ext));
    }
}

#[test]
fn the_extension_counts_in_lower_case() {
    let files =
        vec![file("a.RS", "RS", &block_text("a", 8)), file("b.Rs", "Rs", &block_text("b", 8))];
    assert_eq!(find_duplicates(&files).len(), 1);
}

#[test]
fn the_ten_longest_blocks_are_kept_longest_first() {
    let mut files = Vec::new();
    let mut base = String::new();
    for size in 6..18 {
        for i in 0..size {
            base.push_str(&format!("block_{}_line_{}();\n", size, i));
        }
        base.push_str(&format!("base_separator_{}();\n", size));
    }
    files.push(file("base.rs", "rs", &base));
    let mut other = String::new();
    for size in 6..18 {
        other.push_str(&format!("other_separator_{}();\n", size));
        for i in 0..size {
            other.push_str(&format!("block_{}_line_{}();\n", size, i));
        }
    }
    files.push(file("other.rs", "rs", &other));
    let found = find_duplicates(&files);
    let counts: Vec<usize> = found.iter().map(|d| d.line_count).collect();
    assert_eq!(counts, vec![17, 16, 15, 14, 13, 12, 11, 10, 9, 8]);
}

#[test]
fn blocks_of_one_length_stay_in_the_order_of_the_pairs() {
    let shared = block_text("s", 7);
    let files = vec![
        file("a.rs", "rs", &block_text("a", 7).replace("shared_call", "first")),
        file("b.rs", "rs", &shared),
        file("c.rs", "rs", &shared.replace("s_before", "c_before").replace("s_after", "c_after")),
        file("d.rs", "rs", &block_text("d", 7).replace("shared_call", "first")),
    ];
    let found = find_duplicates(&files);
    let pairs: Vec<Vec<String>> = found.iter().map(|d| d.files.clone()).collect();
    assert_eq!(
        pairs,
        vec![
            vec!["a.rs".to_string(), "d.rs".to_string()],
            vec!["b.rs".to_string(), "c.rs".to_string()],
        ]
    );
}

#[test]
fn the_record_takes_the_blocks_and_nothing_else() {
    let files =
        vec![file("a.rs", "rs", &block_text("a", 8)), file("b.rs", "rs", &block_text("b", 8))];
    let mut analysis = RepositoryAnalysis::new("repo");
    analysis.file_count = 7;
    find_duplicate_code(&files, &mut analysis);
    assert_eq!(analysis.duplicate_code.len(), 1);
    assert_eq!(analysis.duplicate_code[0].line_count, 8);
    assert_eq!(analysis.file_count, 7);
    assert_eq!(analysis.repo_path, "repo");
}

#[test]
fn a_block_that_stands_twice_in_the_other_file_is_found_once_either_way() {
    let a = numbered("x", 0, 6);
    let mut b = numbered("x", 0, 6);
    b.extend(lines(&["q"]));
    b.extend(numbered("x", 0, 6));
    assert_eq!(find_duplicate_blocks(&a, &b), vec![Block { start_a: 0, start_b: 0, len: 6 }]);
    assert_eq!(find_duplicate_blocks(&b, &a), vec![Block { start_a: 0, start_b: 0, len: 6 }]);
    let long = numbered("x", 0, 9);
    let mut twice = numbered("x", 0, 9);
    twice.extend(lines(&["q"]));
    twice.extend(numbered("x", 0, 9));
    assert_eq!(find_duplicate_blocks(&long, &twice), vec![Block { start_a: 0, start_b: 0, len: 9 }]);
    assert_eq!(find_duplicate_blocks(&twice, &long), vec![Block { start_a: 0, start_b: 0, len: 9 }]);
}

#[test]
fn crossed_blocks_are_found_in_one_order_and_not_in_the_other() {
    let mut a = lines(&["p"]);
    a.extend(numbered("x", 0, 6));
    let mut b = numbered("x", 0, 6);
    b.extend(lines(&["q", "p"]));
    b.extend(numbered("x", 0, 6));
    assert_eq!(find_duplicate_blocks(&a, &b), vec![Block { start_a: 0, start_b: 7, len: 7 }]);
    assert_eq!(find_duplicate_blocks(&b, &a), vec![Block { start_a: 0, start_b: 1, len: 6 }]);
}

#[test]
fn a_path_that_stands_twice_is_searched_once_with_its_later_text() {
    let shared = block_text("s", 8);
    let files = vec![
        file("a.rs", "rs", &shared),
        file("b.rs", "rs", &block_text("b", 8)),
        file("a.rs", "rs", &shared),
    ];
    let found = find_duplicates(&files);
    assert_eq!(found.len(), 1);
    assert_eq!(found[0].files, vec!["a.rs".to_string(), "b.rs".to_string()]);
    let replaced = vec![
        file("a.rs", "rs", &shared),
        file("b.rs", "rs", &block_text("b", 8)),
        file("a.rs", "rs", "nothing();\nin();\ncommon();\n"),
    ];
    assert!(find_duplicates(&replaced).is_empty());
    let alone = vec![file("a.rs", "rs", &shared), file("a.rs", "rs", &shared)];
    assert!(find_duplicates(&alone).is_empty());
}

#[test]
fn every_entry_names_two_different_files_and_is_alike_in_full() {
    let files = vec![
        file("a.rs", "rs", &block_text("a", 8)),
        file("b.rs", "rs", &block_text("b", 8)),
        file("c.py", "py", &block_text("c", 8)),
    ];
    let found = find_duplicates(&files);
    assert_eq!(found.len(), 3);
    for entry in &found {
        assert_eq!(entry.files.len(), 2);
        assert_ne!(entry.files[0], entry.files[1]);
        assert_eq!((entry.similarity.num, entry.similarity.den), (1, 1));
        assert!(entry.line_count >= 6);
    }
    let pairs: Vec<(&str, &str)> =
        found.iter().map(|d| (d.files[0].as_str(), d.files[1].as_str())).collect();
    assert_eq!(pairs, vec![("a.rs", "b.rs"), ("a.rs", "c.py"), ("b.rs", "c.py")]);
}
