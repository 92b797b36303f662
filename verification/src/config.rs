//! The client's configuration, and how options given on the command line and
//! in the environment take precedence over it.

use crate::opts::Format;
use vstd::prelude::*;

verus! {

/// The configuration as loaded once at startup. It is only read afterwards.
#[derive(Debug, PartialEq, Eq)]
pub struct DsConfig {
    /// The base URL of the server.
    pub docspell_url: String,
    /// The source id to use when a command names none.
    pub default_source_id: Option<String>,
    /// The output format to use when a command names none.
    pub default_format: Option<Format>,
    /// Where the session is stored, if not at the place the system suggests.
    pub session_path: Option<String>,
}

/// The first of two optional values that is present.
pub open spec fn first_present<T>(preferred: Option<T>, fallback: Option<T>) -> Option<T> {
    if preferred is Some {
        preferred
    } else {
        fallback
    }
}

/// Returns a copy of `preferred` if it is present, and of `fallback` otherwise.
pub fn prefer(preferred: &Option<String>, fallback: &Option<String>) -> (r: Option<String>)
    ensures
        r == first_present(*preferred, *fallback),
{
    match preferred {
        Some(p) => Some(p.clone()),
        None => match fallback {
            Some(f) => Some(f.clone()),
            None => None,
        },
    }
}

impl Clone for DsConfig {
    fn clone(&self) -> (r: Self)
        ensures
            r == *self,
    {
        DsConfig {
            docspell_url: self.docspell_url.clone(),
            default_source_id: self.default_source_id.clone(),
            default_format: self.default_format,
            session_path: self.session_path.clone(),
        }
    }
}

impl DsConfig {
    /// The base URL that is used when neither the command line nor a
    /// configuration file names one.
    pub open spec fn default_url() -> Seq<char> {
        "http://localhost:7880"@
    }

    /// The configuration that applies when no configuration file exists.
    pub fn new() -> (cfg: DsConfig)
        ensures
            cfg.docspell_url@ == Self::default_url(),
            cfg.default_source_id is None,
            cfg.default_format is None,
            cfg.session_path is None,
    {
        DsConfig {
            docspell_url: "http://localhost:7880".to_owned(),
            default_source_id: None,
            default_format: None,
            session_path: None,
        }
    }
}

} // verus!
