//! The formats of a report and the files that hold them.

use vstd::prelude::*;

use crate::complexity::same_text;
use crate::corpus::{lowercased, to_lowercase};
use crate::counts::count_views;
use crate::ranking::{arranged, rank_descending, ranked};
use crate::ratio::Ratio;

verus! {

/// The formats in which a report is written.
#[derive(Clone, Copy, Debug, PartialEq, Eq, Structural)]
pub enum ReportFormat {
    Text,
    Json,
    Html,
}

/// The format that `name`, in lower case, asks for; `None` where it
/// names no format.
pub open spec fn format_named(name: Seq<char>) -> Option<ReportFormat> {
    if name == "text"@ {
        Some(ReportFormat::Text)
    } else if name == "json"@ {
        Some(ReportFormat::Json)
    } else if name == "html"@ {
        Some(ReportFormat::Html)
    } else {
        None
    }
}

/// The format in which a report is written when `name`, in lower case,
/// is asked for: text where the name is that of no format.
pub open spec fn format_used(name: Seq<char>) -> ReportFormat {
    match format_named(name) {
        Some(format) => format,
        None => ReportFormat::Text,
    }
}

/// The file that holds a report of a format, where none is given.
pub open spec fn default_path(format: ReportFormat) -> Seq<char> {
    match format {
        ReportFormat::Text => "repo_analysis.txt"@,
        ReportFormat::Json => "repo_analysis.json"@,
        ReportFormat::Html => "repo_analysis.html"@,
    }
}

impl ReportFormat {
    /// The format that `name`, in lower case, asks for.
    pub fn parse(name: &str) -> (format: Option<ReportFormat>)
        ensures
            format == format_named(name@),
    {
        if same_text(name, "text") {
            Some(ReportFormat::Text)
        } else if same_text(name, "json") {
            Some(ReportFormat::Json)
        } else if same_text(name, "html") {
            Some(ReportFormat::Html)
        } else {
            None
        }
    }

    /// The format that `name` asks for, in whatever case it is written;
    /// `None` where it names no format.
    pub fn named(name: &str) -> (format: Option<ReportFormat>)
        ensures
            format == format_named(lowercased(name@)),
    {
        let lower = to_lowercase(name);
        ReportFormat::parse(lower.as_str())
    }

    /// The format in which a report is written when `name`, in lower
    /// case, is asked for.
    pub fn select(name: &str) -> (format: ReportFormat)
        ensures
            format == format_used(name@),
    {
        match ReportFormat::parse(name) {
            Some(format) => format,
            None => ReportFormat::Text,
        }
    }

    /// The file that holds a report of this format: `given` where a path
    /// is given.
    pub fn report_path(self, given: Option<String>) -> (path: String)
        ensures
            path@ == (match given {
                Some(p) => p@,
                None => default_path(self),
            }),
    {
        match given {
            Some(p) => p,
            None => match self {
                ReportFormat::Text => "repo_analysis.txt".to_owned(),
                ReportFormat::Json => "repo_analysis.json".to_owned(),
                ReportFormat::Html => "repo_analysis.html".to_owned(),
            },
        }
    }
}


/// The counts of a list of names with counts.
pub open spec fn counts_of(stats: Seq<(Seq<char>, usize)>) -> Seq<usize> {
    Seq::new(stats.len(), |i: int| stats[i].1)
}

/// The names with their counts as a report lists them: highest count
/// first, names of one count in the order of `stats`.
pub fn by_count(stats: &Vec<(String, usize)>) -> (out: Vec<(String, usize)>)
    ensures
        count_views(out@) == ranked(count_views(stats@), counts_of(count_views(stats@))),
{
    let mut keys: Vec<usize> = Vec::new();
    let mut k: usize = 0;
    while k < stats.len()
        invariant
            k <= stats.len(),
            keys@ == counts_of(count_views(stats@)).take(k as int),
        decreases stats.len() - k,
    {
        keys.push(stats[k].1);
        assert(keys@ =~= counts_of(count_views(stats@)).take(k as int + 1));
        k = k + 1;
    }
    assert(keys@ =~= counts_of(count_views(stats@)));
    let order = rank_descending(&keys);
    let mut out: Vec<(String, usize)> = Vec::new();
    let mut j: usize = 0;
    while j < order.len()
        invariant
            j <= order.len(),
            order@.len() == stats@.len(),
            forall|i: int| 0 <= i < order.len() ==> (#[trigger] order[i]) < stats.len(),
            count_views(out@) == arranged(count_views(stats@), order@).take(j as int),
        decreases order.len() - j,
    {
        let ghost before = count_views(out@);
        let ghost all = arranged(count_views(stats@), order@);
        let entry = &stats[order[j]];
        out.push((entry.0.clone(), entry.1));
        assert(count_views(out@) =~= before.push(all[j as int]));
        assert(all.take(j as int + 1) =~= all.take(j as int).push(all[j as int]));
        j = j + 1;
    }
    assert(count_views(out@) =~= arranged(count_views(stats@), order@));
    out
}

/// The share of `count` in `total`, in percent, as an exact fraction; it
/// is a number where `total` is not zero.
pub fn share(count: usize, total: usize) -> (r: Ratio)
    ensures
        r.num == 100 * count,
        r.den == total,
        total > 0 ==> r.wf(),
{
    Ratio { num: 100 * (count as u128), den: total as u128 }
}

} // verus!
