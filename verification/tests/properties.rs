use repo_analyzer::duplicates::{find_duplicate_blocks, Block};
use repo_analyzer::git::{analyze_git_repo_extended, CommitDiff, CommitRecord, Hunk};
use repo_analyzer::ranking::rank_descending;

struct Numbers(u64);

impl Numbers {
    fn next(&mut self, below: u64) -> u64 {
        self.0 = self.0.wrapping_mul(6364136223846793005).wrapping_add(1442695040888963407);
        (self.0 >> 33) % below
    }
}

fn some_lines(numbers: &mut Numbers, len: usize, alphabet: u64) -> Vec<Vec<char>> {
    (0..len).map(|_| format!("line {}", numbers.next(alphabet)).chars().collect()).collect()
}

fn overlap(x: &Block, y: &Block) -> bool {
    (x.start_a < y.start_a + y.len && y.start_a < x.start_a + x.len)
        || (x.start_b < y.start_b + y.len && y.start_b < x.start_b + x.len)
}

fn run(a: &[Vec<char>], i: usize, b: &[Vec<char>], j: usize) -> usize {
    let mut n = 0;
    while i + n < a.len() && j + n < b.len() && a[i + n] == b[j + n] {
        n += 1;
    }
    n
}

fn scan_by_hand(a: &[Vec<char>], b: &[Vec<char>]) -> Vec<Block> {
    let mut accepted: Vec<Block> = Vec::new();
    for i in 0..a.len() {
        for j in 0..b.len() {
            let candidate = Block { start_a: i, start_b: j, len: run(a, i, b, j) };
            if candidate.len >= 6 && !accepted.iter().any(|x| overlap(x, &candidate)) {
                accepted.push(candidate);
            }
        }
    }
    accepted
}

#[test]
fn ranking_is_a_stable_sort_highest_first() {
    let mut numbers = Numbers(7);
    for round in 0..200 {
        let len = (round % 23) as usize;
        let keys: Vec<usize> = (0..len).map(|_| numbers.next(6) as usize).collect();
        let mut want: Vec<usize> = (0..len).collect();
        want.sort_by(|x, y| keys[*y].cmp(&keys[*x]));
        assert_eq!(rank_descending(&keys), want, "keys {:?}", keys);
    }
}

#[test]
fn blocks_of_random_files_are_true_and_apart() {
    let mut numbers = Numbers(11);
    for _ in 0..60 {
        let a = some_lines(&mut numbers, 40, 2);
        let b = some_lines(&mut numbers, 40, 2);
        let blocks = find_duplicate_blocks(&a, &b);
        assert_eq!(blocks, scan_by_hand(&a, &b));
        for (k, x) in blocks.iter().enumerate() {
            assert!(x.len >= 6);
            assert_eq!(x.len, run(&a, x.start_a, &b, x.start_b));
            assert_eq!(a[x.start_a..x.start_a + x.len], b[x.start_b..x.start_b + x.len]);
            for y in &blocks[k + 1..] {
                assert!(!overlap(x, y));
            }
        }
    }
}

#[test]
fn runs_that_stand_apart_are_found_in_either_order() {
    let mut numbers = Numbers(5);
    for round in 0..40 {
        // shared runs of distinct lines, in different orders in the two files
        let runs: Vec<Vec<Vec<char>>> = (0..4)
            .map(|r| {
                let len = 6 + numbers.next(5) as usize;
                (0..len).map(|k| format!("run {} of {} line {}", r, round, k).chars().collect()).collect()
            })
            .collect();
        let mut a: Vec<Vec<char>> = Vec::new();
        let mut b: Vec<Vec<char>> = Vec::new();
        for (r, lines) in runs.iter().enumerate() {
            a.push(format!("only in a {}", r).chars().collect());
            a.extend(lines.iter().cloned());
        }
        for (r, lines) in runs.iter().enumerate().rev() {
            b.extend(lines.iter().cloned());
            b.push(format!("only in b {}", r).chars().collect());
        }
        let one = find_duplicate_blocks(&a, &b);
        let other = find_duplicate_blocks(&b, &a);
        assert_eq!(one.len(), 4);
        assert_eq!(other.len(), 4);
        let mut turned: Vec<Block> = other
            .iter()
            .map(|x| Block { start_a: x.start_b, start_b: x.start_a, len: x.len })
            .collect();
        turned.sort_by_key(|x| x.start_a);
        assert_eq!(one, turned);
        let mut lengths_one: Vec<usize> = one.iter().map(|x| x.len).collect();
        let mut lengths_other: Vec<usize> = other.iter().map(|x| x.len).collect();
        lengths_one.sort();
        lengths_other.sort();
        assert_eq!(lengths_one, lengths_other);
    }
}

#[test]
fn every_walk_keeps_its_books() {
    let mut numbers = Numbers(3);
    for _ in 0..40 {
        let commits: Vec<CommitRecord> = (0..30)
            .map(|k| {
                let files: Vec<String> =
                    (0..numbers.next(4)).map(|_| format!("f{}", numbers.next(5))).collect();
                let hunks: Vec<Hunk> = (0..numbers.next(6))
                    .map(|_| Hunk {
                        path: format!("f{}", numbers.next(5)),
                        old_lines: numbers.next(9) as u32,
                        new_lines: numbers.next(9) as u32,
                    })
                    .collect();
                CommitRecord {
                    author_name: Some(format!("author {}", numbers.next(4))),
                    author_email: Some("a@example.org".to_string()),
                    time: 10_000_000 - 100_000 * k + numbers.next(50_000) as i64,
                    date: format!("commit {}", k),
                    diff: if numbers.next(5) == 0 { None } else { Some(CommitDiff { files, hunks }) },
                }
            })
            .collect();
        let (count, contributors, _, files) = analyze_git_repo_extended(&commits, 0);
        assert_eq!(count, 30);
        assert_eq!(contributors.iter().map(|c| c.commit_count).sum::<usize>(), 30);
        for pair in contributors.windows(2) {
            assert!(pair[0].commit_count >= pair[1].commit_count);
        }
        for (k, (path, f)) in files.iter().enumerate() {
            assert!(f.commit_count >= 1);
            assert!(files[k + 1..].iter().all(|(other, _)| other != path));
            assert_eq!(f.avg_changes_per_commit.num, (f.lines_added + f.lines_removed) as u128);
            assert_eq!(f.avg_changes_per_commit.den, f.commit_count as u128);
            assert!(f.change_frequency.den >= 1);
            if f.first_commit_time == f.last_commit_time {
                assert_eq!(f.change_frequency.num, f.commit_count as u128);
                assert_eq!(f.change_frequency.den, 1);
            }
            assert_eq!(f.author_contributions.iter().map(|c| c.1).sum::<usize>(), f.commit_count);
            let names: Vec<&String> = f.author_contributions.iter().map(|c| &c.0).collect();
            assert_eq!(names, f.authors.iter().collect::<Vec<&String>>());
            let touching = commits
                .iter()
                .filter(|c| c.diff.as_ref().map_or(false, |d| d.files.contains(path)))
                .count();
            assert_eq!(f.commit_count, touching);
        }
    }
}
