use chrono::TimeZone;
use repo_analyzer::clock::{date_text, format_git_time};
use repo_analyzer::git::{
    analyze_git_repo, analyze_git_repo_extended, change_frequency, fill_rates, CommitDiff,
    CommitRecord, FileStats, History, Hunk,
};
use repo_analyzer::ratio::Ratio;

const DAY: i64 = 86_400;

fn hunk(path: &str, old_lines: u32, new_lines: u32) -> Hunk {
    Hunk { path: path.to_string(), old_lines, new_lines }
}

fn change(path: &str, old_lines: u32, new_lines: u32) -> CommitDiff {
    CommitDiff { files: vec![path.to_string()], hunks: vec![hunk(path, old_lines, new_lines)] }
}

fn commit(name: &str, email: &str, time: i64, diff: Option<CommitDiff>) -> CommitRecord {
    CommitRecord {
        author_name: Some(name.to_string()),
        author_email: Some(email.to_string()),
        time,
        date: format!("t{}", time),
        diff,
    }
}

fn by(name: &str, time: i64) -> CommitRecord {
    commit(name, &format!("{}@example.org", name), time, None)
}

#[test]
fn three_commits_on_one_file_one_day_apart() {
    let commits = vec![
        commit("Ann", "ann@example.org", 3 * DAY, Some(change("src/a.rs", 0, 10))),
        commit("Ann", "ann@example.org", 2 * DAY, Some(change("src/a.rs", 0, 10))),
        commit("Ann", "ann@example.org", DAY, Some(change("src/a.rs", 0, 10))),
    ];
    let (count, contributors, last_activity, files) = analyze_git_repo_extended(&commits, 0);
    assert_eq!(count, 3);
    assert_eq!(contributors.len(), 1);
    assert_eq!(contributors[0].commit_count, 3);
    assert_eq!(last_activity, format!("t{}", 3 * DAY));
    assert_eq!(files.len(), 1);
    let (path, stats) = &files[0];
    assert_eq!(path, "src/a.rs");
    assert_eq!(stats.commit_count, 3);
    assert_eq!(stats.lines_added, 30);
    assert_eq!(stats.lines_removed, 0);
    assert_eq!(stats.change_frequency, Ratio { num: 3, den: 1 });
    assert_eq!(stats.avg_changes_per_commit, Ratio { num: 30, den: 3 });
    assert_eq!(stats.first_commit_date, format!("t{}", 3 * DAY));
    assert_eq!(stats.last_commit_date, format!("t{}", DAY));
    assert_eq!(stats.authors, vec!["Ann".to_string()]);
    assert_eq!(stats.author_contributions, vec![("Ann".to_string(), 3)]);
    assert_eq!(stats.last_modified_by, "Ann");
}

#[test]
fn three_commits_oldest_first_have_the_same_frequency() {
    let commits = vec![
        commit("Ann", "ann@example.org", DAY, Some(change("src/a.rs", 0, 10))),
        commit("Ann", "ann@example.org", 2 * DAY, Some(change("src/a.rs", 0, 10))),
        commit("Ann", "ann@example.org", 3 * DAY, Some(change("src/a.rs", 0, 10))),
    ];
    let (_, _, _, files) = analyze_git_repo_extended(&commits, 0);
    assert_eq!(files[0].1.commit_count, 3);
    assert_eq!(files[0].1.lines_added, 30);
    assert_eq!(files[0].1.change_frequency, Ratio { num: 3, den: 1 });
}

#[test]
fn root_commit_adds_no_file_stats() {
    let commits = vec![commit("Ann", "ann@example.org", 100, None)];
    let (count, contributors, _, files) = analyze_git_repo_extended(&commits, 0);
    assert_eq!(count, 1);
    assert_eq!(contributors.len(), 1);
    assert_eq!(contributors[0].name, "Ann");
    assert_eq!(contributors[0].email, "ann@example.org");
    assert_eq!(contributors[0].commit_count, 1);
    assert!(files.is_empty());
}

#[test]
fn a_root_commit_behind_others_leaves_their_files() {
    let commits = vec![
        commit("Ann", "a@x", 2 * DAY, Some(change("f", 1, 2))),
        commit("Ann", "a@x", DAY, None),
    ];
    let (count, contributors, _, files) = analyze_git_repo_extended(&commits, 0);
    assert_eq!(count, 2);
    assert_eq!(contributors[0].commit_count, 2);
    assert_eq!(files.len(), 1);
    assert_eq!(files[0].1.commit_count, 1);
}

#[test]
fn no_commits_gives_unknown_activity() {
    let commits: Vec<CommitRecord> = Vec::new();
    let (count, contributors, last_activity) = analyze_git_repo(&commits, 0);
    assert_eq!(count, 0);
    assert!(contributors.is_empty());
    assert_eq!(last_activity, "Unknown");
}

#[test]
fn depth_limits_the_walk() {
    let commits = vec![by("a", 50), by("b", 40), by("c", 30), by("d", 20)];
    assert_eq!(analyze_git_repo(&commits, 0).0, 4);
    assert_eq!(analyze_git_repo(&commits, 1).0, 1);
    assert_eq!(analyze_git_repo(&commits, 3).0, 3);
    assert_eq!(analyze_git_repo(&commits, 4).0, 4);
    assert_eq!(analyze_git_repo(&commits, 9).0, 4);
    let (_, contributors, _) = analyze_git_repo(&commits, 2);
    let names: Vec<&str> = contributors.iter().map(|c| c.name.as_str()).collect();
    assert_eq!(names, vec!["a", "b"]);
}

#[test]
fn contributors_with_more_commits_come_first() {
    let commits = vec![
        by("one", 90),
        by("three", 80),
        by("two", 70),
        by("three", 60),
        by("two", 50),
        by("three", 40),
        by("solo", 30),
    ];
    let (_, contributors, _) = analyze_git_repo(&commits, 0);
    let ranked: Vec<(&str, usize)> =
        contributors.iter().map(|c| (c.name.as_str(), c.commit_count)).collect();
    assert_eq!(ranked, vec![("three", 3), ("two", 2), ("one", 1), ("solo", 1)]);
    for pair in contributors.windows(2) {
        assert!(pair[0].commit_count >= pair[1].commit_count);
    }
}

#[test]
fn contributors_that_tie_stay_in_the_order_of_the_walk() {
    let commits = vec![by("z", 9), by("m", 8), by("a", 7), by("m", 6), by("z", 5), by("a", 4)];
    let (_, contributors, _) = analyze_git_repo(&commits, 0);
    let names: Vec<&str> = contributors.iter().map(|c| c.name.as_str()).collect();
    assert_eq!(names, vec!["z", "m", "a"]);
}

#[test]
fn an_author_without_name_or_email_is_unknown() {
    let commits = vec![CommitRecord {
        author_name: None,
        author_email: None,
        time: 5,
        date: "d".to_string(),
        diff: Some(change("f", 0, 1)),
    }];
    let (_, contributors, _, files) = analyze_git_repo_extended(&commits, 0);
    assert_eq!(contributors[0].name, "Unknown");
    assert_eq!(contributors[0].email, "unknown");
    assert_eq!(files[0].1.last_modified_by, "Unknown");
    assert_eq!(files[0].1.authors, vec!["Unknown".to_string()]);
}

#[test]
fn contributors_are_told_apart_by_name_and_email() {
    let commits = vec![
        commit("Ann", "ann@one", 9, None),
        commit("Ann", "ann@two", 8, None),
        commit("Ann", "ann@one", 7, None),
    ];
    let (_, contributors, _) = analyze_git_repo(&commits, 0);
    let got: Vec<(&str, usize)> =
        contributors.iter().map(|c| (c.email.as_str(), c.commit_count)).collect();
    assert_eq!(got, vec![("ann@one", 2), ("ann@two", 1)]);
}

#[test]
fn two_identities_with_one_text_are_one_contributor() {
    let commits = vec![commit("A <b>", "c", 9, None), commit("A", "b> <c", 8, None)];
    let (_, contributors, _) = analyze_git_repo(&commits, 0);
    assert_eq!(contributors.len(), 1);
    assert_eq!(contributors[0].name, "A <b>");
    assert_eq!(contributors[0].email, "c");
    assert_eq!(contributors[0].commit_count, 2);
}

#[test]
fn the_last_commit_of_a_contributor_is_the_most_recent() {
    let commits = vec![by("a", 50), by("a", 70), by("a", 60)];
    let (_, contributors, last_activity) = analyze_git_repo(&commits, 0);
    assert_eq!(contributors[0].first_commit, "t50");
    assert_eq!(contributors[0].last_commit, "t70");
    assert_eq!(contributors[0].last_commit_time, 70);
    assert_eq!(last_activity, "t70");
}

#[test]
fn an_older_commit_does_not_move_the_last_commit() {
    let commits = vec![by("a", 50), by("a", 40)];
    let (_, contributors, last_activity) = analyze_git_repo(&commits, 0);
    assert_eq!(contributors[0].first_commit, "t50");
    assert_eq!(contributors[0].last_commit, "t50");
    assert_eq!(last_activity, "t50");
}

#[test]
fn hunks_are_summed_per_file() {
    let diff = CommitDiff {
        files: vec!["a".to_string(), "b".to_string(), "c".to_string()],
        hunks: vec![hunk("a", 1, 2), hunk("b", 10, 20), hunk("a", 3, 4), hunk("other", 7, 7)],
    };
    let commits = vec![commit("Ann", "a@x", 1, Some(diff))];
    let (_, _, _, files) = analyze_git_repo_extended(&commits, 0);
    let got: Vec<(&str, usize, usize)> =
        files.iter().map(|(p, s)| (p.as_str(), s.lines_added, s.lines_removed)).collect();
    assert_eq!(got, vec![("a", 6, 4), ("b", 20, 10), ("c", 0, 0)]);
}

#[test]
fn a_path_named_twice_in_a_diff_counts_once() {
    let diff = CommitDiff {
        files: vec!["a".to_string(), "b".to_string(), "a".to_string()],
        hunks: vec![hunk("a", 1, 2)],
    };
    let commits = vec![commit("Ann", "a@x", 1, Some(diff))];
    let (_, _, _, files) = analyze_git_repo_extended(&commits, 0);
    assert_eq!(files.len(), 2);
    assert_eq!(files[0].1.commit_count, 1);
    assert_eq!(files[0].1.lines_added, 2);
    assert_eq!(files[0].1.lines_removed, 1);
}

#[test]
fn a_file_keeps_its_authors_in_the_order_of_the_walk() {
    let commits = vec![
        commit("Ann", "a@x", 9, Some(change("f", 1, 1))),
        commit("Bob", "b@x", 8, Some(change("f", 2, 2))),
        commit("Ann", "a@x", 7, Some(change("f", 3, 3))),
        commit("Cy", "c@x", 6, Some(change("g", 4, 4))),
    ];
    let (_, _, _, files) = analyze_git_repo_extended(&commits, 0);
    assert_eq!(files.len(), 2);
    let f = &files[0].1;
    assert_eq!(f.commit_count, 3);
    assert_eq!(f.authors, vec!["Ann".to_string(), "Bob".to_string()]);
    assert_eq!(f.author_contributions, vec![("Ann".to_string(), 2), ("Bob".to_string(), 1)]);
    assert_eq!(f.last_modified_by, "Ann");
    assert_eq!(f.first_commit_time, 9);
    assert_eq!(f.last_commit_time, 7);
    assert_eq!(f.lines_added, 6);
    assert_eq!(f.lines_removed, 6);
    assert_eq!(f.avg_changes_per_commit, Ratio { num: 12, den: 3 });
    assert_eq!(files[1].0, "g");
    assert_eq!(files[1].1.authors, vec!["Cy".to_string()]);
}

#[test]
fn every_file_has_a_commit_and_its_average() {
    let commits = vec![
        commit("Ann", "a@x", 9, Some(change("f", 1, 5))),
        commit("Bob", "b@x", 8, Some(change("g", 2, 2))),
        commit("Ann", "a@x", 7, Some(change("f", 3, 0))),
    ];
    let (_, _, _, files) = analyze_git_repo_extended(&commits, 0);
    for (_, f) in &files {
        assert!(f.commit_count >= 1);
        assert_eq!(f.avg_changes_per_commit.num, (f.lines_added + f.lines_removed) as u128);
        assert_eq!(f.avg_changes_per_commit.den, f.commit_count as u128);
        assert!(f.change_frequency.den > 0);
    }
}

#[test]
fn the_frequency_is_commits_per_thirty_days() {
    assert_eq!(change_frequency(4, 0, 60 * DAY), Ratio { num: 120, den: 60 });
    assert_eq!(change_frequency(4, 0, 30 * DAY), Ratio { num: 120, den: 30 });
    assert_eq!(change_frequency(7, 10, 10 + 45 * DAY + 100), Ratio { num: 210, den: 45 });
}

#[test]
fn within_a_month_the_frequency_is_the_number_of_commits() {
    assert_eq!(change_frequency(4, 0, 30 * DAY - 1), Ratio { num: 4, den: 1 });
    assert_eq!(change_frequency(4, 0, 2 * DAY), Ratio { num: 4, den: 1 });
    assert_eq!(change_frequency(4, 5, 5), Ratio { num: 4, den: 1 });
    assert_eq!(change_frequency(0, 5, 5), Ratio { num: 0, den: 1 });
}

#[test]
fn the_frequency_is_the_same_whichever_time_is_the_earlier() {
    assert_eq!(change_frequency(4, 60 * DAY, 0), Ratio { num: 120, den: 60 });
    assert_eq!(change_frequency(4, 60 * DAY, 0), change_frequency(4, 0, 60 * DAY));
    assert_eq!(change_frequency(4, 2 * DAY, 0), Ratio { num: 4, den: 1 });
    assert_eq!(change_frequency(9, i64::MAX, i64::MIN), Ratio { num: 270, den: 213_503_982_334_601 });
}

#[test]
fn a_file_changed_over_months_has_its_commits_per_month() {
    let commits = vec![
        commit("Ann", "a@x", 100 * DAY, Some(change("f", 0, 1))),
        commit("Ann", "a@x", 70 * DAY, Some(change("f", 0, 1))),
        commit("Ann", "a@x", 10 * DAY, Some(change("f", 0, 1))),
    ];
    let (_, _, _, files) = analyze_git_repo_extended(&commits, 0);
    assert_eq!(files[0].1.first_commit_time, 100 * DAY);
    assert_eq!(files[0].1.last_commit_time, 10 * DAY);
    assert_eq!(files[0].1.change_frequency, Ratio { num: 90, den: 90 });
}

#[test]
fn the_frequency_of_the_widest_span() {
    let r = change_frequency(2, i64::MIN, i64::MAX);
    assert_eq!(r.num, 60);
    assert_eq!(r.den, 213_503_982_334_601);
}

#[test]
fn fill_rates_fills_both_numbers() {
    let mut stats = FileStats {
        commit_count: 5,
        first_commit_date: "first".to_string(),
        last_commit_date: "last".to_string(),
        first_commit_time: 0,
        last_commit_time: 90 * DAY,
        authors: Vec::new(),
        lines_added: 70,
        lines_removed: 30,
        change_frequency: Ratio { num: 0, den: 1 },
        author_contributions: Vec::new(),
        last_modified_by: "x".to_string(),
        avg_changes_per_commit: Ratio { num: 0, den: 1 },
    };
    fill_rates(&mut stats);
    assert_eq!(stats.change_frequency, Ratio { num: 150, den: 90 });
    assert_eq!(stats.avg_changes_per_commit, Ratio { num: 100, den: 5 });
    stats.commit_count = 0;
    fill_rates(&mut stats);
    assert_eq!(stats.avg_changes_per_commit, Ratio { num: 0, den: 1 });
}

#[test]
fn counters_saturate() {
    let mut h = History::new();
    h.commit_count = usize::MAX;
    h.record_commit(&by("a", 1));
    assert_eq!(h.commit_count, usize::MAX);
    let big = CommitDiff {
        files: vec!["f".to_string()],
        hunks: vec![hunk("f", u32::MAX, u32::MAX)],
    };
    h.record_commit(&commit("a", "a@example.org", 2, Some(big)));
    h.files[0].1.lines_added = usize::MAX - 1;
    h.record_commit(&commit("a", "a@example.org", 3, Some(change("f", 0, 5))));
    assert_eq!(h.files[0].1.lines_added, usize::MAX);
    assert_eq!(h.files[0].1.lines_removed, u32::MAX as usize);
}

#[test]
fn a_walk_step_by_step_is_the_walk_at_once() {
    let commits = vec![
        commit("Ann", "a@x", 9, Some(change("f", 1, 5))),
        commit("Bob", "b@x", 8, None),
        commit("Ann", "a@x", 7, Some(change("g", 3, 0))),
    ];
    let mut h = History::new();
    for c in &commits {
        h.record_commit(c);
    }
    let stepwise = h.finish();
    let at_once = analyze_git_repo_extended(&commits, 0);
    assert_eq!(stepwise.0, at_once.0);
    assert_eq!(stepwise.2, at_once.2);
    assert_eq!(stepwise.1.len(), at_once.1.len());
    assert_eq!(stepwise.3.len(), at_once.3.len());
    assert_eq!(stepwise.3[1].0, "g");
}

#[test]
fn a_new_record_is_dated_in_local_time() {
    let time: i64 = 1_700_000_000;
    let c = CommitRecord::new(Some("Ann".to_string()), None, time, None);
    let want = chrono::Local
        .timestamp_opt(time, 0)
        .single()
        .expect("a time that has a date")
        .format("%Y-%m-%d %H:%M:%S")
        .to_string();
    assert_eq!(c.date, want);
    assert_eq!(c.date.len(), 19);
    assert_eq!(c.time, time);
    assert_eq!(c.author_name, Some("Ann".to_string()));
    assert_eq!(c.author_email, None);
    assert!(c.diff.is_none());
    assert_eq!(format_git_time(time), want);
    assert_ne!(format_git_time(time), format_git_time(time + DAY));
}

#[test]
fn a_date_is_shown_as_it_is_and_a_missing_one_as_unknown() {
    assert_eq!(date_text(Some("2024-05-01 10:00:00".to_string())), "2024-05-01 10:00:00");
    assert_eq!(date_text(Some(String::new())), "");
    assert_eq!(date_text(None), "Unknown");
}

#[test]
fn a_time_without_a_date_is_unknown() {
    assert_eq!(format_git_time(i64::MAX), "Unknown");
    assert_eq!(format_git_time(i64::MIN), "Unknown");
}

fn has_date_shape(text: &str) -> bool {
    let t: Vec<char> = text.chars().collect();
    if t.len() < 19 {
        return false;
    }
    let y = t.len() - 15;
    let year = (y == 4 && t[0].is_ascii_digit()) || (y >= 5 && (t[0] == '+' || t[0] == '-'));
    let shape = "-dd-dd dd:dd:dd";
    year && t[1..y].iter().all(|c| c.is_ascii_digit())
        && shape.chars().zip(&t[y..]).all(|(s, c)| if s == 'd' { c.is_ascii_digit() } else { s == *c })
}

#[test]
fn a_time_in_the_years_0_to_9999_has_a_date_of_nineteen_characters() {
    let first: i64 = -62_167_132_800;
    let end: i64 = 253_402_214_400;
    let mut seconds = first;
    while seconds < end {
        let text = format_git_time(seconds);
        assert_eq!(text.len(), 19, "date of {}", seconds);
        assert!(has_date_shape(&text), "date of {}: {}", seconds, text);
        seconds += 86_400 * 3_653 + 3_671;
    }
    for seconds in [first, first + 1, -1, 0, 1, 1_700_000_000, end - 1] {
        let text = format_git_time(seconds);
        assert_eq!(text.len(), 19, "date of {}", seconds);
        assert!(has_date_shape(&text), "date of {}: {}", seconds, text);
    }
}

#[test]
fn a_date_of_a_far_year_has_a_sign() {
    for seconds in [
        253_402_300_800 + 2 * DAY,
        8_000_000_000_000,
        -62_167_219_200 - 2 * DAY,
        -8_000_000_000_000,
    ] {
        let text = format_git_time(seconds);
        assert!(has_date_shape(&text), "date of {}: {}", seconds, text);
        assert!(text.len() > 19);
        assert!(text.starts_with('+') || text.starts_with('-'));
    }
}

#[test]
fn every_text_is_a_date_or_unknown() {
    let mut seconds: i64 = i64::MIN;
    loop {
        let text = format_git_time(seconds);
        assert!(text == "Unknown" || has_date_shape(&text), "date of {}: {}", seconds, text);
        match seconds.checked_add(i64::MAX / 500) {
            Some(next) => seconds = next,
            None => break,
        }
    }
    let mut seconds: i64 = -9_000_000_000_000;
    while seconds < 9_000_000_000_000 {
        let text = format_git_time(seconds);
        assert!(text == "Unknown" || has_date_shape(&text), "date of {}: {}", seconds, text);
        seconds += 17_000_000_123;
    }
}

fn digits(t: &[char]) -> i128 {
    t.iter().fold(0, |n, c| 10 * n + (*c as i128 - '0' as i128))
}

fn days_from_epoch(year: i128, month: i128, day: i128) -> i128 {
    let y = if month <= 2 { year - 1 } else { year };
    let cycle = y.div_euclid(400);
    let year_of_cycle = y - cycle * 400;
    let month_from_march = if month > 2 { month - 3 } else { month + 9 };
    let day_of_year = (153 * month_from_march + 2) / 5 + day - 1;
    let day_of_cycle = year_of_cycle * 365 + year_of_cycle / 4 - year_of_cycle / 100 + day_of_year;
    cycle * 146_097 + day_of_cycle - 719_468
}

fn shown_seconds(text: &str) -> i128 {
    let t: Vec<char> = text.chars().collect();
    let y = t.len() - 15;
    let year = match t[0] {
        '-' => -digits(&t[1..y]),
        '+' => digits(&t[1..y]),
        _ => digits(&t[0..y]),
    };
    let month = digits(&t[y + 1..y + 3]);
    let day = digits(&t[y + 4..y + 6]);
    let hour = digits(&t[y + 7..y + 9]);
    let minute = digits(&t[y + 10..y + 12]);
    let second = digits(&t[y + 13..y + 15]);
    days_from_epoch(year, month, day) * 86_400 + hour * 3_600 + minute * 60 + second
}

#[test]
fn a_date_read_as_universal_time_is_as_the_calendar_has_it() {
    assert_eq!(shown_seconds("1970-01-01 00:00:00"), 0);
    assert_eq!(shown_seconds("2023-11-14 22:13:20"), 1_700_000_000);
    assert_eq!(shown_seconds("0000-01-01 00:00:00"), -62_167_219_200);
    assert_eq!(shown_seconds("9999-12-31 23:59:59"), 253_402_300_799);
    assert_eq!(shown_seconds("+10000-01-01 00:00:00"), 253_402_300_800);
    assert_eq!(shown_seconds("-0001-12-31 23:59:59"), -62_167_219_201);
    for seconds in [-8_000_000_000_000i64, -1, 0, 951_782_400, 1_700_000_000, 8_000_000_000_000] {
        let universal = chrono::Utc
            .timestamp_opt(seconds, 0)
            .single()
            .expect("a time that has a date")
            .format("%Y-%m-%d %H:%M:%S")
            .to_string();
        assert_eq!(shown_seconds(&universal), seconds as i128, "{}", universal);
    }
}

#[test]
fn the_date_of_a_time_is_less_than_a_day_from_it() {
    let mut seconds: i64 = -8_000_000_000_000;
    while seconds < 8_000_000_000_000 {
        let text = format_git_time(seconds);
        assert!(has_date_shape(&text), "date of {}: {}", seconds, text);
        let shown = shown_seconds(&text);
        assert!(seconds as i128 - 86_400 < shown && shown < seconds as i128 + 86_400);
        seconds += 15_999_999_877;
    }
    for seconds in [-62_167_132_800i64, -1, 0, 1, 1_700_000_000, 253_402_214_399] {
        let shown = shown_seconds(&format_git_time(seconds));
        assert!(seconds as i128 - 86_400 < shown && shown < seconds as i128 + 86_400);
        let dated = CommitRecord::new(None, None, seconds, None);
        assert_eq!(dated.date, format_git_time(seconds));
        assert_eq!(dated.date.len(), 19);
    }
    assert_ne!(format_git_time(0), format_git_time(86_400));
    assert_ne!(format_git_time(0), format_git_time(1));
}
