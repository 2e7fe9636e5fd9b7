//! Settings of the upload of a report, and which of several sources of a
//! setting counts.

use vstd::prelude::*;

verus! {

/// The settings that a configuration file gives.
#[derive(Debug)]
pub struct Config {
    pub api_key: Option<String>,
    pub api_url: Option<String>,
}

/// The address to which reports go where no other is set.
pub open spec fn default_api_url() -> Seq<char> {
    "https://api.analyzer.gokhanozturk.io/api/upload"@
}

/// The first of the values that is set: the one from the environment,
/// else the one from the configuration, else `fallback`.
pub open spec fn first_set(
    from_environment: Option<Seq<char>>,
    from_config: Option<Seq<char>>,
    fallback: Seq<char>,
) -> Seq<char> {
    match from_environment {
        Some(value) => value,
        None => match from_config {
            Some(value) => value,
            None => fallback,
        },
    }
}

/// The text of a setting, if it is set.
pub open spec fn setting(value: Option<String>) -> Option<Seq<char>> {
    match value {
        Some(text) => Some(text@),
        None => None,
    }
}

impl Config {
    /// The settings of a run: those of the configuration file where there
    /// is one, else those that the environment sets.
    pub fn load(from_file: Option<Config>, api_key: Option<String>, api_url: Option<String>) -> (c:
        Config)
        ensures
            c == (match from_file {
                Some(file) => file,
                None => Config { api_key, api_url },
            }),
    {
        match from_file {
            Some(file) => file,
            None => Config { api_key, api_url },
        }
    }

    /// The address that the configuration gives, if a configuration was
    /// read and gives one.
    pub open spec fn url_of(config: Option<Config>) -> Option<Seq<char>> {
        match config {
            Some(c) => setting(c.api_url),
            None => None,
        }
    }

    /// The key that the configuration gives, if a configuration was read
    /// and gives one.
    pub open spec fn key_of(config: Option<Config>) -> Option<Seq<char>> {
        match config {
            Some(c) => setting(c.api_key),
            None => None,
        }
    }

    /// The address to which a report goes: the one set in the
    /// environment, else the one of the configuration, else the default.
    pub fn resolve_api_url(from_environment: Option<String>, config: &Option<Config>) -> (url:
        String)
        ensures
            url@ == first_set(setting(from_environment), Config::url_of(*config), default_api_url()),
    {
        match from_environment {
            Some(value) => value,
            None => {
                match config {
                    Some(c) => match &c.api_url {
                        Some(value) => value.clone(),
                        None => "https://api.analyzer.gokhanozturk.io/api/upload".to_owned(),
                    },
                    None => "https://api.analyzer.gokhanozturk.io/api/upload".to_owned(),
                }
            },
        }
    }

    /// The key with which a report is sent: the one set in the
    /// environment, else the one of the configuration, else none, the
    /// empty text.
    pub fn resolve_api_key(from_environment: Option<String>, config: &Option<Config>) -> (key:
        String)
        ensures
            key@ == first_set(setting(from_environment), Config::key_of(*config), Seq::empty()),
    {
        match from_environment {
            Some(value) => value,
            None => {
                match config {
                    Some(c) => match &c.api_key {
                        Some(value) => value.clone(),
                        None => String::new(),
                    },
                    None => String::new(),
                }
            },
        }
    }
}

} // verus!
