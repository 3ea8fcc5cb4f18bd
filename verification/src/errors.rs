//! The error taxonomy: bad command-line usage (including a malformed
//! URL) and a response body that was declared JSON but does not parse.
//! All are terminal: the driver reports them and exits non-zero.

use vstd::prelude::*;

verus! {

/// A command-line usage error; the process reports it and exits non-zero.
#[derive(Debug)]
pub enum UsageError {
    /// No subcommand was given.
    MissingSubcommand,
    /// The subcommand is neither `get` nor `post`.
    UnknownSubcommand(String),
    /// The required `--url` flag is missing.
    MissingUrl,
    /// The required `--body` flag is missing (for `post`).
    MissingBody,
    /// A flag that needs a value stands last, with no value after it.
    MissingValue(String),
    /// An argument that no subcommand knows.
    UnknownArgument(String),
    /// The `--url` value does not parse as an absolute URL.
    InvalidUrl(String),
}

/// The human-readable message of a usage error.
pub open spec fn usage_message(e: &UsageError) -> Seq<char> {
    match e {
        UsageError::MissingSubcommand => "missing subcommand: expected `get` or `post`"@,
        UsageError::UnknownSubcommand(s) => "unknown subcommand: "@ + s@,
        UsageError::MissingUrl => "missing required flag `--url`"@,
        UsageError::MissingBody => "missing required flag `--body`"@,
        UsageError::MissingValue(s) => "missing value for flag "@ + s@,
        UsageError::UnknownArgument(s) => "unknown argument: "@ + s@,
        UsageError::InvalidUrl(s) => "invalid URL: "@ + s@,
    }
}

impl UsageError {
    /// The message reported on the error stream.
    pub fn message(&self) -> (r: String)
        ensures
            r@ == usage_message(self),
    {
        match self {
            UsageError::MissingSubcommand => String::from_str(
                "missing subcommand: expected `get` or `post`",
            ),
            UsageError::UnknownSubcommand(s) => {
                let mut r = String::from_str("unknown subcommand: ");
                r.append(s.as_str());
                r
            },
            UsageError::MissingUrl => String::from_str("missing required flag `--url`"),
            UsageError::MissingBody => String::from_str("missing required flag `--body`"),
            UsageError::MissingValue(s) => {
                let mut r = String::from_str("missing value for flag ");
                r.append(s.as_str());
                r
            },
            UsageError::UnknownArgument(s) => {
                let mut r = String::from_str("unknown argument: ");
                r.append(s.as_str());
                r
            },
            UsageError::InvalidUrl(s) => {
                let mut r = String::from_str("invalid URL: ");
                r.append(s.as_str());
                r
            },
        }
    }
}

/// A response body that was declared `application/json` but does not
/// parse as JSON.
#[derive(Debug)]
pub struct BodyFormatError {}

impl BodyFormatError {
    /// The message reported on the error stream.
    pub fn message(&self) -> (r: String)
        ensures
            r@ == "response body is not valid JSON"@,
    {
        String::from_str("response body is not valid JSON")
    }
}

} // verus!
