//! What the numbers of a history count: laws that relate the history a
//! walk accumulates step by step to the commits it has visited.

use vstd::prelude::*;

use crate::history::{
    added_lines, author_email, author_name, credit_contributor, history_after, identities,
    identity, paths, removed_lines, touch_file, touch_files, CommitDiffView, CommitView,
    ContributorView, FileStatsView,
};
use crate::seq_util::{capped, lemma_position, lemma_position_is, position};

verus! {

/// Whether the diff of a commit names `path`.
pub open spec fn touches(c: CommitView, path: Seq<char>) -> bool {
    match c.diff {
        Some(d) => d.files.contains(path),
        None => false,
    }
}

/// How many of the first `n` commits touch `path`.
pub open spec fn commits_touching(commits: Seq<CommitView>, path: Seq<char>, n: nat) -> nat
    decreases n,
{
    if n == 0 {
        0
    } else {
        commits_touching(commits, path, (n - 1) as nat) + if touches(commits[n - 1], path) {
            1nat
        } else {
            0nat
        }
    }
}

/// How many of the first `n` commits are by the identity `key`.
pub open spec fn commits_by(commits: Seq<CommitView>, key: Seq<char>, n: nat) -> nat
    decreases n,
{
    if n == 0 {
        0
    } else {
        commits_by(commits, key, (n - 1) as nat) + if identity(
            author_name(commits[n - 1]),
            author_email(commits[n - 1]),
        ) == key {
            1nat
        } else {
            0nat
        }
    }
}

/// The number of commits that a history records for the identity `key`;
/// zero for an identity that it does not know.
pub open spec fn recorded_by(cs: Seq<ContributorView>, key: Seq<char>) -> nat {
    let i = position(identities(cs), key);
    if i < cs.len() {
        cs[i].commit_count as nat
    } else {
        0
    }
}

/// The number of commits that a history records for the file `path`;
/// zero for a file that it does not know.
pub open spec fn recorded_for(files: Seq<(Seq<char>, FileStatsView)>, path: Seq<char>) -> nat {
    let i = position(paths(files), path);
    if i < files.len() {
        files[i].1.commit_count as nat
    } else {
        0
    }
}

/// The lines that the first `n` commits add to `path`: the new-side
/// lines of its hunks in the diffs that name it.
pub open spec fn lines_added_to(commits: Seq<CommitView>, path: Seq<char>, n: nat) -> nat
    decreases n,
{
    if n == 0 {
        0
    } else {
        lines_added_to(commits, path, (n - 1) as nat) + match commits[n - 1].diff {
            Some(d) => if d.files.contains(path) {
                added_lines(d.hunks, path)
            } else {
                0nat
            },
            None => 0nat,
        }
    }
}

/// The lines that the first `n` commits remove from `path`: the old-side
/// lines of its hunks in the diffs that name it.
pub open spec fn lines_removed_from(commits: Seq<CommitView>, path: Seq<char>, n: nat) -> nat
    decreases n,
{
    if n == 0 {
        0
    } else {
        lines_removed_from(commits, path, (n - 1) as nat) + match commits[n - 1].diff {
            Some(d) => if d.files.contains(path) {
                removed_lines(d.hunks, path)
            } else {
                0nat
            },
            None => 0nat,
        }
    }
}

/// The added and the removed lines that a history records for the file
/// `path`; zero for a file that it does not know.
pub open spec fn recorded_lines(files: Seq<(Seq<char>, FileStatsView)>, path: Seq<char>) -> (
    nat,
    nat,
) {
    let i = position(paths(files), path);
    if i < files.len() {
        (files[i].1.lines_added as nat, files[i].1.lines_removed as nat)
    } else {
        (0, 0)
    }
}

proof fn lemma_position_push<T>(s: Seq<T>, x: T, key: T)
    ensures
        position(s.push(x), key) == if position(s, key) < s.len() {
            position(s, key)
        } else if x == key {
            s.len() as int
        } else {
            s.len() as int + 1
        },
{
    lemma_position(s, key);
    let p = position(s, key);
    let t = s.push(x);
    if p < s.len() {
        assert(t[p] == key);
        assert forall|j: int| 0 <= j < p implies t[j] != key by {
            assert(t[j] == s[j]);
        }
        lemma_position_is(t, key, p);
    } else {
        assert forall|j: int| 0 <= j < s.len() implies t[j] != key by {
            assert(t[j] == s[j]);
        }
        if x == key {
            lemma_position_is(t, key, s.len() as int);
        } else {
            lemma_position_is(t, key, s.len() as int + 1);
        }
    }
}

proof fn lemma_credit_counts(cs: Seq<ContributorView>, c: CommitView, key: Seq<char>)
    requires
        forall|i: int| 0 <= i < cs.len() ==> (#[trigger] cs[i]).commit_count >= 1,
    ensures
        forall|i: int|
            0 <= i < credit_contributor(cs, c).len() ==> (#[trigger] credit_contributor(
                cs,
                c,
            )[i]).commit_count >= 1,
        recorded_by(credit_contributor(cs, c), key) == if identity(
            author_name(c),
            author_email(c),
        ) == key {
            capped(recorded_by(cs, key) as int + 1) as nat
        } else {
            recorded_by(cs, key)
        },
{
    let own = identity(author_name(c), author_email(c));
    let ids = identities(cs);
    let after = credit_contributor(cs, c);
    lemma_position(ids, own);
    lemma_position(ids, key);
    let i = position(ids, own);
    if i < cs.len() {
        assert(identities(after) =~= ids);
    } else {
        assert(identities(after) =~= ids.push(own));
        lemma_position_push(ids, own, key);
    }
}

/// The contributor of an identity counts the commits of that identity:
/// after a walk over the first `n` commits, the record of the identity
/// `key` holds the number of those commits that are by it, saturating,
/// and there is a record exactly if there is such a commit.
pub proof fn lemma_contributor_counts_commits(commits: Seq<CommitView>, n: nat, key: Seq<char>)
    ensures
        recorded_by(history_after(commits, n).contributors, key) == capped(
            commits_by(commits, key, n) as int,
        ),
        forall|i: int|
            0 <= i < history_after(commits, n).contributors.len() ==> (#[trigger] history_after(
                commits,
                n,
            ).contributors[i]).commit_count >= 1,
        position(identities(history_after(commits, n).contributors), key) < history_after(
            commits,
            n,
        ).contributors.len() <==> commits_by(commits, key, n) > 0,
    decreases n,
{
    if n == 0 {
        assert(identities(history_after(commits, 0).contributors) =~= Seq::<Seq<char>>::empty());
    } else {
        lemma_contributor_counts_commits(commits, (n - 1) as nat, key);
        let before = history_after(commits, (n - 1) as nat).contributors;
        lemma_credit_counts(before, commits[n - 1], key);
        lemma_position(identities(before), key);
        lemma_position(identities(history_after(commits, n).contributors), key);
    }
}

proof fn lemma_touch_file_counts(
    files: Seq<(Seq<char>, FileStatsView)>,
    path: Seq<char>,
    c: CommitView,
    added: nat,
    removed: nat,
    q: Seq<char>,
)
    requires
        forall|i: int| 0 <= i < files.len() ==> (#[trigger] files[i]).1.commit_count >= 1,
    ensures
        forall|i: int|
            0 <= i < touch_file(files, path, c, added, removed).len() ==> (#[trigger] touch_file(
                files,
                path,
                c,
                added,
                removed,
            )[i]).1.commit_count >= 1,
        recorded_for(touch_file(files, path, c, added, removed), q) == if q == path {
            capped(recorded_for(files, q) as int + 1) as nat
        } else {
            recorded_for(files, q)
        },
        recorded_lines(touch_file(files, path, c, added, removed), q) == if q == path {
            (
                capped((recorded_lines(files, q).0 + added) as int) as nat,
                capped((recorded_lines(files, q).1 + removed) as int) as nat,
            )
        } else {
            recorded_lines(files, q)
        },
{
    let ps = paths(files);
    let after = touch_file(files, path, c, added, removed);
    lemma_position(ps, path);
    lemma_position(ps, q);
    let i = position(ps, path);
    if i < files.len() {
        assert(paths(after) =~= ps);
    } else {
        assert(paths(after) =~= ps.push(path));
        lemma_position_push(ps, path, q);
    }
}

proof fn lemma_touch_files_counts(
    files: Seq<(Seq<char>, FileStatsView)>,
    c: CommitView,
    d: CommitDiffView,
    n: nat,
    q: Seq<char>,
)
    requires
        n <= d.files.len(),
        forall|i: int| 0 <= i < files.len() ==> (#[trigger] files[i]).1.commit_count >= 1,
    ensures
        forall|i: int|
            0 <= i < touch_files(files, c, d, n).len() ==> (#[trigger] touch_files(
                files,
                c,
                d,
                n,
            )[i]).1.commit_count >= 1,
        recorded_for(touch_files(files, c, d, n), q) == if d.files.take(n as int).contains(q) {
            capped(recorded_for(files, q) as int + 1) as nat
        } else {
            recorded_for(files, q)
        },
        recorded_lines(touch_files(files, c, d, n), q) == if d.files.take(n as int).contains(q) {
            (
                capped((recorded_lines(files, q).0 + added_lines(d.hunks, q)) as int) as nat,
                capped((recorded_lines(files, q).1 + removed_lines(d.hunks, q)) as int) as nat,
            )
        } else {
            recorded_lines(files, q)
        },
    decreases n,
{
    if n > 0 {
        let m = (n - 1) as nat;
        lemma_touch_files_counts(files, c, d, m, q);
        let before = touch_files(files, c, d, m);
        let path = d.files[n - 1];
        let earlier = d.files.take(m as int);
        let now = d.files.take(n as int);
        assert(now =~= earlier.push(path));
        assert(now.contains(q) <==> earlier.contains(q) || q == path) by {
            if now.contains(q) {
                let k = choose|k: int| 0 <= k < now.len() && now[k] == q;
                if k < m {
                    assert(earlier[k] == q);
                }
            }
            if earlier.contains(q) {
                let k = choose|k: int| 0 <= k < earlier.len() && earlier[k] == q;
                assert(now[k] == q);
            }
            if q == path {
                assert(now[n - 1] == q);
            }
        }
        if !earlier.contains(path) {
            lemma_touch_file_counts(
                before,
                path,
                c,
                added_lines(d.hunks, path),
                removed_lines(d.hunks, path),
                q,
            );
        }
    } else {
        assert(d.files.take(0) =~= Seq::<Seq<char>>::empty());
    }
}

/// The statistics of a file count the commits that touch it and the lines
/// that they change: after a walk over the first `n` commits, the record
/// of the file `path` holds the number of those commits whose diff names
/// the path and the sums of the lines that their hunks add to it and
/// remove from it, each saturating; and there is a record exactly if
/// there is such a commit.
pub proof fn lemma_file_counts_commits(commits: Seq<CommitView>, n: nat, path: Seq<char>)
    ensures
        recorded_for(history_after(commits, n).files, path) == capped(
            commits_touching(commits, path, n) as int,
        ),
        forall|i: int|
            0 <= i < history_after(commits, n).files.len() ==> (#[trigger] history_after(
                commits,
                n,
            ).files[i]).1.commit_count >= 1,
        position(paths(history_after(commits, n).files), path) < history_after(
            commits,
            n,
        ).files.len() <==> commits_touching(commits, path, n) > 0,
        recorded_lines(history_after(commits, n).files, path) == (
            capped(lines_added_to(commits, path, n) as int) as nat,
            capped(lines_removed_from(commits, path, n) as int) as nat,
        ),
    decreases n,
{
    if n == 0 {
        assert(paths(history_after(commits, 0).files) =~= Seq::<Seq<char>>::empty());
    } else {
        lemma_file_counts_commits(commits, (n - 1) as nat, path);
        let before = history_after(commits, (n - 1) as nat).files;
        let c = commits[n - 1];
        match c.diff {
            Some(d) => {
                lemma_touch_files_counts(before, c, d, d.files.len(), path);
                assert(d.files.take(d.files.len() as int) =~= d.files);
            },
            None => {},
        }
        lemma_position(paths(before), path);
        lemma_position(paths(history_after(commits, n).files), path);
    }
}


/// The last of the first `n` commits that touches `path`, as its index;
/// `-1` where none of them does.
pub open spec fn last_touching(commits: Seq<CommitView>, path: Seq<char>, n: nat) -> int
    decreases n,
{
    if n == 0 {
        -1
    } else if touches(commits[n - 1], path) {
        n - 1
    } else {
        last_touching(commits, path, (n - 1) as nat)
    }
}

/// The first of the first `n` commits that touches `path`, as its index;
/// `-1` where none of them does.
pub open spec fn first_touching(commits: Seq<CommitView>, path: Seq<char>, n: nat) -> int
    decreases n,
{
    if n == 0 {
        -1
    } else {
        let earlier = first_touching(commits, path, (n - 1) as nat);
        if earlier >= 0 {
            earlier
        } else if touches(commits[n - 1], path) {
            n - 1
        } else {
            -1
        }
    }
}

/// Whether the statistics of a file begin with the commit `first` and end
/// with the commit `last`.
pub open spec fn spans(s: FileStatsView, first: CommitView, last: CommitView) -> bool {
    &&& s.first_commit_time == first.time
    &&& s.first_commit_date == first.date
    &&& s.last_commit_time == last.time
    &&& s.last_commit_date == last.date
    &&& s.last_modified_by == author_name(last)
}

proof fn lemma_touch_file_spans(
    files: Seq<(Seq<char>, FileStatsView)>,
    path: Seq<char>,
    c: CommitView,
    added: nat,
    removed: nat,
    q: Seq<char>,
)
    ensures
        ({
            let after = touch_file(files, path, c, added, removed);
            let i = position(paths(files), q);
            let k = position(paths(after), q);
            if q == path {
                &&& k < after.len()
                &&& after[k].1.last_commit_time == c.time
                &&& after[k].1.last_commit_date == c.date
                &&& after[k].1.last_modified_by == author_name(c)
                &&& if i < files.len() {
                    &&& after[k].1.first_commit_time == files[i].1.first_commit_time
                    &&& after[k].1.first_commit_date == files[i].1.first_commit_date
                } else {
                    &&& after[k].1.first_commit_time == c.time
                    &&& after[k].1.first_commit_date == c.date
                }
            } else {
                &&& k < after.len() <==> i < files.len()
                &&& i < files.len() ==> after[k] == files[i]
            }
        }),
{
    let ps = paths(files);
    let after = touch_file(files, path, c, added, removed);
    lemma_position(ps, path);
    lemma_position(ps, q);
    let i = position(ps, path);
    if i < files.len() {
        assert(paths(after) =~= ps);
    } else {
        assert(paths(after) =~= ps.push(path));
        lemma_position_push(ps, path, q);
    }
}

proof fn lemma_touch_files_spans(
    files: Seq<(Seq<char>, FileStatsView)>,
    c: CommitView,
    d: CommitDiffView,
    n: nat,
    q: Seq<char>,
)
    requires
        n <= d.files.len(),
    ensures
        ({
            let after = touch_files(files, c, d, n);
            let i = position(paths(files), q);
            let k = position(paths(after), q);
            if d.files.take(n as int).contains(q) {
                &&& k < after.len()
                &&& after[k].1.last_commit_time == c.time
                &&& after[k].1.last_commit_date == c.date
                &&& after[k].1.last_modified_by == author_name(c)
                &&& if i < files.len() {
                    &&& after[k].1.first_commit_time == files[i].1.first_commit_time
                    &&& after[k].1.first_commit_date == files[i].1.first_commit_date
                } else {
                    &&& after[k].1.first_commit_time == c.time
                    &&& after[k].1.first_commit_date == c.date
                }
            } else {
                &&& k < after.len() <==> i < files.len()
                &&& i < files.len() ==> after[k] == files[i]
            }
        }),
    decreases n,
{
    if n > 0 {
        let m = (n - 1) as nat;
        lemma_touch_files_spans(files, c, d, m, q);
        let before = touch_files(files, c, d, m);
        let path = d.files[n - 1];
        let earlier = d.files.take(m as int);
        let now = d.files.take(n as int);
        assert(now =~= earlier.push(path));
        assert(now.contains(q) <==> earlier.contains(q) || q == path) by {
            if now.contains(q) {
                let k = choose|k: int| 0 <= k < now.len() && now[k] == q;
                if k < m {
                    assert(earlier[k] == q);
                }
            }
            if earlier.contains(q) {
                let k = choose|k: int| 0 <= k < earlier.len() && earlier[k] == q;
                assert(now[k] == q);
            }
            if q == path {
                assert(now[n - 1] == q);
            }
        }
        if !earlier.contains(path) {
            lemma_touch_file_spans(
                before,
                path,
                c,
                added_lines(d.hunks, path),
                removed_lines(d.hunks, path),
                q,
            );
        }
    } else {
        assert(d.files.take(0) =~= Seq::<Seq<char>>::empty());
        lemma_position(paths(files), q);
    }
}

/// The statistics of a file span the commits that touch it: after a walk
/// over the first `n` commits, the record of a file that one of them
/// touches has the time and the date of the first of them that does as
/// those of its first commit, and the time, the date and the author of
/// the last of them that does as those of its last commit.
pub proof fn lemma_file_spans_commits(commits: Seq<CommitView>, n: nat, path: Seq<char>)
    requires
        n <= commits.len(),
    ensures
        ({
            let files = history_after(commits, n).files;
            let i = position(paths(files), path);
            &&& i < files.len() <==> last_touching(commits, path, n) >= 0
            &&& last_touching(commits, path, n) >= 0 <==> first_touching(commits, path, n) >= 0
            &&& first_touching(commits, path, n) < n
            &&& last_touching(commits, path, n) < n
            &&& i < files.len() ==> spans(
                files[i].1,
                commits[first_touching(commits, path, n)],
                commits[last_touching(commits, path, n)],
            )
        }),
    decreases n,
{
    if n == 0 {
        assert(paths(history_after(commits, 0).files) =~= Seq::<Seq<char>>::empty());
    } else {
        lemma_file_spans_commits(commits, (n - 1) as nat, path);
        let before = history_after(commits, (n - 1) as nat).files;
        let c = commits[n - 1];
        match c.diff {
            Some(d) => {
                lemma_touch_files_spans(before, c, d, d.files.len(), path);
                assert(d.files.take(d.files.len() as int) =~= d.files);
            },
            None => {},
        }
        lemma_position(paths(before), path);
        lemma_position(paths(history_after(commits, n).files), path);
    }
}

} // verus!
