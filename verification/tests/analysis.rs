use repo_analyzer::analyzer::{analyze_repository, RepositoryAnalysis};
use repo_analyzer::census::{analyze_files, count_file};
use repo_analyzer::code_metrics::analyze_code_complexity;
use repo_analyzer::corpus::{
    extension_of, ignore_patterns, is_ignored, language_for, SourceFile,
};
use repo_analyzer::counts::add_one;
use repo_analyzer::file_ages::{analyze_git_history, rank_files, top_contributor};
use repo_analyzer::git::{analyze_git_repo_extended, CommitDiff, CommitRecord, Hunk, Rate};
use repo_analyzer::ranking::{rank_descending, top_positions, Earliest, RankKey};
use repo_analyzer::ratio::Ratio;

const DAY: i64 = 86_400;

fn source(path: &str, ext: Option<&str>, text: Option<&str>) -> SourceFile {
    SourceFile {
        path: path.to_string(),
        extension: ext.map(|e| e.to_string()),
        size: text.map(|t| t.len()),
        content: text.map(|t| t.to_string()),
    }
}

fn change_by(name: &str, time: i64, path: &str, added: u32, removed: u32) -> CommitRecord {
    CommitRecord {
        author_name: Some(name.to_string()),
        author_email: Some(format!("{}@example.org", name)),
        time,
        date: format!("day {}", time / DAY),
        diff: Some(CommitDiff {
            files: vec![path.to_string()],
            hunks: vec![Hunk { path: path.to_string(), old_lines: removed, new_lines: added }],
        }),
    }
}

#[test]
fn the_census_counts_files_languages_and_lines() {
    let files = vec![
        source("src/main.rs", Some("rs"), Some("// top\nfn main() {\n}\n\n")),
        source("src/LIB.RS", Some("RS"), Some("fn a() {}\n")),
        source("README.md", Some("md"), Some("# Title\n\ntext\n")),
        source("Makefile", None, Some("all:\n\techo\n")),
        source("logo.png", Some("png"), None),
        SourceFile {
            path: "gone.py".to_string(),
            extension: Some("py".to_string()),
            size: None,
            content: None,
        },
    ];
    let mut a = RepositoryAnalysis::new("repo");
    analyze_files(&files, &mut a);
    assert_eq!(a.file_count, 6);
    assert_eq!(
        a.file_extensions,
        vec![
            ("rs".to_string(), 2),
            ("md".to_string(), 1),
            ("png".to_string(), 1),
            ("py".to_string(), 1)
        ]
    );
    assert_eq!(
        a.language_stats,
        vec![
            ("Rust".to_string(), 2),
            ("Markdown".to_string(), 1),
            ("Other".to_string(), 1),
            ("Python".to_string(), 1)
        ]
    );
    assert_eq!(a.total_lines, 4 + 1 + 3 + 2);
    assert_eq!(a.code_lines, 2 + 1 + 2 + 2);
    assert_eq!(a.comment_lines, 1);
    assert_eq!(a.blank_lines, 1 + 1);
    let sized: Vec<&str> = a.largest_files.iter().map(|(p, _)| p.as_str()).collect();
    assert_eq!(sized, vec!["src/main.rs", "src/LIB.RS", "README.md", "Makefile"]);
    assert_eq!(a.largest_files[1].1, 10);
    assert_eq!(a.avg_file_size, Ratio { num: 0, den: 1 });
}

#[test]
fn one_file_more_in_the_census() {
    let mut a = RepositoryAnalysis::new("repo");
    count_file(&source("a.py", Some("py"), Some("# c\nx = 1\n")), &mut a);
    count_file(&source("b.py", Some("py"), Some("y = 2\n")), &mut a);
    assert_eq!(a.file_count, 2);
    assert_eq!(a.language_stats, vec![("Python".to_string(), 2)]);
    assert_eq!((a.total_lines, a.code_lines, a.comment_lines, a.blank_lines), (3, 2, 1, 0));
}

#[test]
fn the_census_saturates() {
    let mut a = RepositoryAnalysis::new("repo");
    a.file_count = usize::MAX;
    a.total_lines = usize::MAX - 1;
    count_file(&source("a.py", Some("py"), Some("a\nb\nc\n")), &mut a);
    assert_eq!(a.file_count, usize::MAX);
    assert_eq!(a.total_lines, usize::MAX);
    assert_eq!(a.code_lines, 3);
}

#[test]
fn names_are_counted_in_the_order_met() {
    let mut counts: Vec<(String, usize)> = Vec::new();
    for name in ["b", "a", "b", "c", "b", "a"] {
        add_one(&mut counts, &name.to_string());
    }
    assert_eq!(
        counts,
        vec![("b".to_string(), 3), ("a".to_string(), 2), ("c".to_string(), 1)]
    );
    let mut full = vec![("x".to_string(), usize::MAX)];
    add_one(&mut full, &"x".to_string());
    assert_eq!(full, vec![("x".to_string(), usize::MAX)]);
}

#[test]
fn languages_by_extension() {
    let table = [
        ("rs", "Rust"),
        ("js", "JavaScript"),
        ("ts", "TypeScript"),
        ("jsx", "React"),
        ("tsx", "React"),
        ("py", "Python"),
        ("java", "Java"),
        ("c", "C"),
        ("h", "C"),
        ("cpp", "C++"),
        ("hpp", "C++"),
        ("go", "Go"),
        ("rb", "Ruby"),
        ("php", "PHP"),
        ("html", "HTML"),
        ("css", "CSS"),
        ("scss", "SASS"),
        ("sass", "SASS"),
        ("md", "Markdown"),
        ("json", "JSON"),
        ("yml", "YAML"),
        ("yaml", "YAML"),
        ("toml", "TOML"),
        ("sh", "Shell"),
        ("bash", "Shell"),
        ("sql", "SQL"),
        ("swift", "Swift"),
        ("kt", "Kotlin"),
        ("kts", "Kotlin"),
        ("dart", "Dart"),
        ("ex", "Elixir"),
        ("exs", "Elixir"),
        ("hs", "Haskell"),
        ("clj", "Clojure"),
        ("fs", "F#"),
        ("vue", "Vue"),
        ("svelte", "Svelte"),
        ("xml", "XML"),
        ("gradle", "Gradle"),
        ("tf", "Terraform"),
        ("tfvars", "Terraform"),
        ("proto", "Protocol Buffers"),
        ("graphql", "GraphQL"),
        ("gql", "GraphQL"),
        ("r", "R"),
        ("lua", "Lua"),
        ("pl", "Perl"),
        ("pm", "Perl"),
        ("cs", "C#"),
        ("vb", "Visual Basic"),
        ("scala", "Scala"),
        ("groovy", "Groovy"),
        ("m", "Objective-C"),
        ("mm", "Objective-C++"),
        ("png", "Other"),
        ("", "Other"),
        ("RS", "Other"),
    ];
    for (ext, language) in table {
        assert_eq!(language_for(ext), language, "language of {:?}", ext);
    }
}

#[test]
fn the_extension_is_taken_in_lower_case() {
    assert_eq!(extension_of(&source("A.RS", Some("RS"), None)), "rs");
    assert_eq!(extension_of(&source("a.Py", Some("Py"), None)), "py");
    assert_eq!(extension_of(&source("a.\u{212a}T", Some("\u{212a}T"), None)), "kt");
    assert_eq!(extension_of(&source("Makefile", None, None)), "");
}

#[test]
fn ignored_paths() {
    let patterns = ignore_patterns();
    assert_eq!(patterns.len(), 9);
    for path in [
        "repo/.git/config",
        "repo/node_modules/x/index.js",
        "repo/target/debug/app",
        "repo/.DS_Store",
        "repo/.idea/workspace.xml",
        "repo/.vscode/settings.json",
        "repo/dist/app.js",
        "repo/build/out.o",
        "repo/.cache/x",
    ] {
        assert!(is_ignored(path, &patterns), "{} is ignored", path);
    }
    for path in ["repo/src/main.rs", "repo/xgit/config", "repo/.github", "repo/targets", "repo/builder.rs"] {
        assert!(!is_ignored(path, &patterns), "{} is not ignored", path);
    }
    assert!(!is_ignored("repo/.git/config", &Vec::new()));
}

#[test]
fn ranking_is_stable_and_highest_first() {
    let keys: Vec<usize> = vec![3, 9, 3, 1, 9, 0, 3];
    assert_eq!(rank_descending(&keys), vec![1, 4, 0, 2, 6, 3, 5]);
    assert_eq!(rank_descending(&Vec::<usize>::new()), Vec::<usize>::new());
    assert_eq!(top_positions(&keys, 3), vec![1, 4, 0]);
    assert_eq!(top_positions(&keys, 0), Vec::<usize>::new());
    assert_eq!(top_positions(&keys, 70), vec![1, 4, 0, 2, 6, 3, 5]);
}

#[test]
fn ranking_by_time() {
    let times: Vec<i64> = vec![5, -3, 9, 5];
    assert_eq!(rank_descending(&times), vec![2, 0, 3, 1]);
    let earliest: Vec<Earliest> = times.iter().map(|t| Earliest(*t)).collect();
    assert_eq!(rank_descending(&earliest), vec![1, 0, 3, 2]);
    assert!(Earliest(1).ranks_above(&Earliest(2)));
    assert!(!Earliest(2).ranks_above(&Earliest(2)));
}

#[test]
fn ranking_by_rate() {
    let rate = |commits: usize, days: i64| Rate { commits, first: 0, last: days * DAY };
    // 4 in 60 days is 2 a month; 3 in 30 days is 3 a month; 2 within a month counts as 2
    assert!(rate(3, 30).ranks_above(&rate(4, 60)));
    assert!(!rate(4, 60).ranks_above(&rate(3, 30)));
    assert!(!rate(4, 60).ranks_above(&rate(2, 3)));
    assert!(!rate(2, 3).ranks_above(&rate(4, 60)));
    assert!(rate(5, 1).ranks_above(&rate(4, 60)));
    let keys = vec![rate(4, 60), rate(3, 30), rate(2, 3), rate(50, 3000)];
    assert_eq!(rank_descending(&keys), vec![1, 0, 2, 3]);
    let wide = Rate { commits: usize::MAX, first: i64::MIN, last: i64::MAX };
    assert!(!wide.ranks_above(&wide));
    assert!(Rate { commits: usize::MAX, first: 0, last: 0 }.ranks_above(&wide));
}

#[test]
fn the_top_contributor_is_the_first_with_the_most_commits() {
    assert_eq!(top_contributor(&Vec::new()), "Unknown");
    let counts = vec![("a".to_string(), 2), ("b".to_string(), 5), ("c".to_string(), 5)];
    assert_eq!(top_contributor(&counts), "b");
    assert_eq!(top_contributor(&vec![("z".to_string(), 0)]), "Unknown");
}

fn history() -> Vec<CommitRecord> {
    vec![
        change_by("Ann", 100 * DAY, "new.rs", 5, 0),
        change_by("Ann", 90 * DAY, "busy.rs", 1, 1),
        change_by("Bob", 80 * DAY, "busy.rs", 2, 2),
        change_by("Bob", 70 * DAY, "busy.rs", 3, 3),
        change_by("Bob", 20 * DAY, "busy.rs", 4, 4),
        change_by("Cy", 10 * DAY, "old.rs", 7, 0),
    ]
}

#[test]
fn files_are_ranked_by_age_commits_and_frequency() {
    let (_, _, _, files) = analyze_git_repo_extended(&history(), 0);
    let (newest, oldest, most_modified, most_changed) = rank_files(&files);
    assert_eq!(
        newest,
        vec![
            ("new.rs".to_string(), "day 100".to_string()),
            ("busy.rs".to_string(), "day 90".to_string()),
            ("old.rs".to_string(), "day 10".to_string()),
        ]
    );
    assert_eq!(
        oldest,
        vec![
            ("old.rs".to_string(), "day 10".to_string()),
            ("busy.rs".to_string(), "day 90".to_string()),
            ("new.rs".to_string(), "day 100".to_string()),
        ]
    );
    assert_eq!(
        most_modified,
        vec![("busy.rs".to_string(), 4), ("new.rs".to_string(), 1), ("old.rs".to_string(), 1)]
    );
    let order: Vec<&str> = most_changed.iter().map(|c| c.path.as_str()).collect();
    assert_eq!(order, vec!["busy.rs", "new.rs", "old.rs"]);
    let busy = &most_changed[0];
    assert_eq!(busy.commit_count, 4);
    assert_eq!(busy.lines_added, 10);
    assert_eq!(busy.lines_removed, 10);
    assert_eq!(busy.change_frequency, Ratio { num: 120, den: 70 });
    assert_eq!(busy.top_contributor, "Bob");
    assert_eq!(busy.last_modified, "day 20");
    assert_eq!(busy.avg_changes_per_commit, Ratio { num: 20, den: 4 });
}

#[test]
fn each_ranking_keeps_ten_files() {
    let commits: Vec<CommitRecord> =
        (0..15).map(|i| change_by("Ann", (100 - i) * DAY, &format!("f{}.rs", i), 1, 0)).collect();
    let (_, _, _, files) = analyze_git_repo_extended(&commits, 0);
    assert_eq!(files.len(), 15);
    let (newest, oldest, most_modified, most_changed) = rank_files(&files);
    assert_eq!(newest.len(), 10);
    assert_eq!(oldest.len(), 10);
    assert_eq!(most_modified.len(), 10);
    assert_eq!(most_changed.len(), 10);
    assert_eq!(newest[0].0, "f0.rs");
    assert_eq!(newest[9].0, "f9.rs");
    assert_eq!(oldest[0].0, "f14.rs");
    assert_eq!(oldest[9].0, "f5.rs");
    assert_eq!(most_modified[0].0, "f0.rs");
    assert_eq!(most_changed[9].path, "f9.rs");
}

#[test]
fn the_history_part_of_the_record() {
    let mut a = RepositoryAnalysis::new("repo");
    a.file_count = 3;
    analyze_git_history(&history(), &mut a, 0);
    assert_eq!(a.commit_count, 6);
    let names: Vec<(&str, usize)> =
        a.contributors.iter().map(|c| (c.name.as_str(), c.commit_count)).collect();
    assert_eq!(names, vec![("Bob", 3), ("Ann", 2), ("Cy", 1)]);
    assert_eq!(a.last_activity, "day 100");
    assert_eq!(a.file_age_stats.newest_files[0].0, "new.rs");
    assert_eq!(a.file_age_stats.oldest_files[0].0, "old.rs");
    assert_eq!(a.file_age_stats.most_modified_files[0], ("busy.rs".to_string(), 4));
    assert_eq!(a.most_changed_files.len(), 3);
    assert_eq!(a.file_count, 3);
    let mut shallow = RepositoryAnalysis::new("repo");
    analyze_git_history(&history(), &mut shallow, 2);
    assert_eq!(shallow.commit_count, 2);
    assert_eq!(shallow.contributors.len(), 1);
    assert_eq!(shallow.most_changed_files.len(), 2);
}

fn branchy(name: &str, branches: usize, body: usize) -> String {
    let mut text = format!("fn {}() {{\n", name);
    for i in 0..branches {
        text.push_str(&format!("    if x{} {{ y(); }}\n", i));
    }
    for i in 0..body {
        text.push_str(&format!("    z{}();\n", i));
    }
    text.push_str("}\n");
    text
}

#[test]
fn the_complexity_part_of_the_record() {
    let files = vec![
        source("plain.rs", Some("rs"), Some(&branchy("plain", 2, 3))),
        source("complex.rs", Some("rs"), Some(&branchy("complex", 15, 20))),
        source("worse.rs", Some("rs"), Some(&branchy("worse", 20, 0))),
        source("script.rb", Some("rb"), Some("if a\nend\n")),
        source("unread.rs", Some("rs"), None),
        source("noext", None, Some(&branchy("hidden", 40, 0))),
    ];
    let mut a = RepositoryAnalysis::new("repo");
    analyze_code_complexity(&files, &mut a);
    let c = &a.complexity_stats;
    // scores 3, 16 and 21 over three files
    assert_eq!(c.avg_complexity, Ratio { num: 40, den: 3 });
    assert_eq!(
        c.complex_files,
        vec![("worse.rs".to_string(), 21), ("complex.rs".to_string(), 16)]
    );
    assert_eq!(c.max_complexity, 21);
    // lengths 6, 36 and 21 over three functions
    assert_eq!(c.avg_function_length, Ratio { num: 63, den: 3 });
    assert_eq!(
        c.long_functions,
        vec![("complex.rs".to_string(), "complex".to_string(), 36)]
    );
    assert_eq!(c.max_function_length, 36);
}

#[test]
fn nothing_to_measure_leaves_the_complexity_part() {
    let files = vec![source("README.md", Some("md"), Some("if this then that\n"))];
    let mut a = RepositoryAnalysis::new("repo");
    analyze_code_complexity(&files, &mut a);
    let c = &a.complexity_stats;
    assert_eq!(c.avg_complexity, Ratio { num: 0, den: 1 });
    assert_eq!(c.avg_function_length, Ratio { num: 0, den: 1 });
    assert_eq!(c.max_complexity, 0);
    assert_eq!(c.max_function_length, 0);
    assert!(c.complex_files.is_empty());
    assert!(c.long_functions.is_empty());
}

#[test]
fn a_score_of_ten_is_not_complex_and_thirty_lines_are_not_long() {
    let files = vec![
        source("ten.rs", Some("rs"), Some(&branchy("ten", 9, 20))),
        source("eleven.rs", Some("rs"), Some(&branchy("eleven", 10, 20))),
    ];
    let mut a = RepositoryAnalysis::new("repo");
    analyze_code_complexity(&files, &mut a);
    // lengths 30 and 31
    assert_eq!(a.complexity_stats.complex_files, vec![("eleven.rs".to_string(), 11)]);
    assert_eq!(
        a.complexity_stats.long_functions,
        vec![("eleven.rs".to_string(), "eleven".to_string(), 31)]
    );
}

#[test]
fn at_most_ten_complex_files_are_kept() {
    let files: Vec<SourceFile> = (0..13)
        .map(|i| source(&format!("f{}.rs", i), Some("rs"), Some(&branchy("f", 11 + (i % 4), 0))))
        .collect();
    let mut a = RepositoryAnalysis::new("repo");
    analyze_code_complexity(&files, &mut a);
    let got: Vec<(&str, usize)> =
        a.complexity_stats.complex_files.iter().map(|(p, s)| (p.as_str(), *s)).collect();
    assert_eq!(
        got,
        vec![
            ("f3.rs", 15),
            ("f7.rs", 15),
            ("f11.rs", 15),
            ("f2.rs", 14),
            ("f6.rs", 14),
            ("f10.rs", 14),
            ("f1.rs", 13),
            ("f5.rs", 13),
            ("f9.rs", 13),
            ("f0.rs", 12),
        ]
    );
    assert_eq!(a.complexity_stats.max_complexity, 15);
}

#[test]
fn a_whole_analysis() {
    let shared: String = (0..8).map(|i| format!("    shared_{}();\n", i)).collect();
    let files = vec![
        source("a.rs", Some("rs"), Some(&format!("fn a() {{\n{}}}\n", shared))),
        source("b.rs", Some("rs"), Some(&format!("fn b() {{\n    if x && y {{ }}\n{}}}\n", shared))),
        source("notes.md", Some("md"), Some("notes\n")),
    ];
    let commits =
        vec![change_by("Ann", 3 * DAY, "a.rs", 10, 0), change_by("Bob", 2 * DAY, "b.rs", 11, 1)];
    let a = analyze_repository("repo", &files, &commits, 0);
    assert_eq!(a.repo_path, "repo");
    assert_eq!(a.file_count, 3);
    assert_eq!(a.total_lines, 10 + 11 + 1);
    assert_eq!(a.language_stats, vec![("Rust".to_string(), 2), ("Markdown".to_string(), 1)]);
    assert_eq!(a.commit_count, 2);
    assert_eq!(a.contributors.len(), 2);
    assert_eq!(a.last_activity, "day 3");
    assert_eq!(a.file_age_stats.newest_files[0].0, "a.rs");
    assert_eq!(a.most_changed_files.len(), 2);
    assert_eq!(a.complexity_stats.avg_complexity, Ratio { num: 4, den: 2 });
    assert_eq!(a.complexity_stats.avg_function_length, Ratio { num: 19, den: 2 });
    assert_eq!(a.duplicate_code.len(), 1);
    assert_eq!(a.duplicate_code[0].line_count, 9);
    assert_eq!(a.duplicate_code[0].files, vec!["a.rs".to_string(), "b.rs".to_string()]);
}

#[test]
fn an_analysis_of_nothing() {
    let a = analyze_repository("empty", &Vec::new(), &Vec::new(), 0);
    assert_eq!(a.file_count, 0);
    assert_eq!(a.commit_count, 0);
    assert_eq!(a.last_activity, "Unknown");
    assert!(a.contributors.is_empty());
    assert!(a.duplicate_code.is_empty());
    assert!(a.most_changed_files.is_empty());
    assert_eq!(a.complexity_stats.max_complexity, 0);
}
