//! The settings of one search run, built from a raw argument list, and the
//! closed set of errors a run can report.

use vstd::prelude::*;

verus! {

/// Why a `Config` could not be built.
#[derive(Clone, Copy, Debug, PartialEq, Eq, Structural)]
pub enum ConfigError {
    /// Fewer than two positional arguments were given.
    MissingArguments,
}

impl ConfigError {
    /// A user-facing description of the error.
    pub fn message(&self) -> (msg: &'static str)
        ensures
            msg@ == "not enough arguments"@,
    {
        "not enough arguments"
    }
}

/// Why a run could not complete.
#[derive(Debug)]
pub enum RunError {
    /// The source named by the config could not be read; holds the
    /// description of the underlying cause.
    SourceReadFailure(String),
}

impl RunError {
    /// The description of the underlying cause.
    pub fn message(&self) -> (msg: &String)
        ensures
            match self {
                RunError::SourceReadFailure(cause) => msg@ == cause@,
            },
    {
        match self {
            RunError::SourceReadFailure(cause) => cause,
        }
    }
}

/// The settings of one search run.
#[derive(Clone, Debug, PartialEq, Eq)]
pub struct Config {
    /// The string to look for.
    pub query: String,
    /// Names the source holding the text to search.
    pub filename: String,
    /// Whether the query must match with its exact casing.
    pub case_sensitive: bool,
}

impl Config {
    /// Builds a `Config` from the raw argument list `args`, whose first entry
    /// is the program name: the query and the source name are the two entries
    /// after it, and the case policy is chosen by the caller. Fails exactly
    /// when fewer than two such entries follow.
    pub fn new(args: &[String], case_sensitive: bool) -> (result: Result<Config, ConfigError>)
        ensures
            match result {
                Ok(config) => {
                    &&& args@.len() >= 3
                    &&& config.query@ == args@[1]@
                    &&& config.filename@ == args@[2]@
                    &&& config.case_sensitive == case_sensitive
                },
                Err(e) => args@.len() < 3 && e == ConfigError::MissingArguments,
            },
    {
        if args.len() < 3 {
            return Err(ConfigError::MissingArguments);
        }
        let query = vstd::slice::slice_index_get(args, 1).clone();
        let filename = vstd::slice::slice_index_get(args, 2).clone();
        Ok(Config { query, filename, case_sensitive })
    }
}

} // verus!
