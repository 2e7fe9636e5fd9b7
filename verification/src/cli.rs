//! The arguments of a run of the analysis, and what they ask for.

use vstd::prelude::*;

verus! {

/// The arguments of a run.
#[derive(Debug)]
pub struct Cli {
    /// Path to the repository to analyze.
    pub repo_path: Option<String>,
    /// Output format: text, json or html.
    pub output_format: String,
    /// Include detailed commit history.
    pub detailed_history: bool,
    /// Number of top contributors to show.
    pub top_contributors: usize,
    /// Clone and analyze a remote repository, given by its URL.
    pub remote_url: Option<String>,
    /// Depth of commit history to analyze, 0 for all.
    pub history_depth: usize,
    /// File to write the report to.
    pub output: Option<String>,
    /// Upload the report after writing it.
    pub upload: bool,
}

/// Where the repository of a run is found.
#[derive(Debug)]
pub enum RepoSource {
    /// A repository at a local path.
    Local(String),
    /// A repository to clone from a URL.
    Remote(String),
}

/// Why the arguments of a run cannot be followed.
#[derive(Clone, Copy, Debug, PartialEq, Eq, Structural)]
pub enum CliError {
    /// Neither a repository path nor a URL is given.
    NoRepository,
}

/// What a source holds: whether it is remote, and its path or URL.
pub open spec fn source_view(source: RepoSource) -> (bool, Seq<char>) {
    match source {
        RepoSource::Local(path) => (false, path@),
        RepoSource::Remote(url) => (true, url@),
    }
}

impl Cli {
    /// The repository that the arguments name: the local path where one
    /// is given, else the URL where one is given.
    pub open spec fn source_spec(&self) -> Option<(bool, Seq<char>)> {
        match self.repo_path {
            Some(path) => Some((false, path@)),
            None => match self.remote_url {
                Some(url) => Some((true, url@)),
                None => None,
            },
        }
    }

    /// The repository that the arguments name; an error where they name
    /// none.
    pub fn source(&self) -> (r: Result<RepoSource, CliError>)
        ensures
            match r {
                Ok(source) => self.source_spec() == Some(source_view(source)),
                Err(e) => self.source_spec() is None && e == CliError::NoRepository,
            },
    {
        match &self.repo_path {
            Some(path) => Ok(RepoSource::Local(path.clone())),
            None => match &self.remote_url {
                Some(url) => Ok(RepoSource::Remote(url.clone())),
                None => Err(CliError::NoRepository),
            },
        }
    }
}

} // verus!
