//! Command-line parsing: the `get` and `post` subcommands, their flags,
//! and the help/version convenience paths.
//!
//! Grammar: the first argument picks the subcommand (`get` or `post`);
//! `-h`/`--help` or `-V`/`--version` in its place, or among the flags,
//! short-circuits to the help or version path. Both subcommands take
//! `-u <URL>`/`--url <URL>`; `post` also takes `-b <K=V,...>`/`--body
//! <K=V,...>`. A repeated flag keeps its last value. Errors are reported
//! in scan order; a missing or invalid URL is reported before a missing
//! body.

use vstd::prelude::*;
use crate::errors::UsageError;
use crate::kv::KeyValueParser;
use crate::kv::Mapping;
use crate::kv::parse_spec;
use crate::strutil::str_eq;
use crate::url_check::UrlValidator;
use crate::url_check::ValidatedUrl;
use crate::url_check::url_accepted;

verus! {

/// A fully parsed command: the one request this invocation will make.
pub enum ParsedCommand {
    Get { url: ValidatedUrl },
    Post { url: ValidatedUrl, body: Mapping },
}

impl ParsedCommand {
    /// Well-formedness: the URL was validated and the body has unique
    /// keys.
    pub open spec fn wf(&self) -> bool {
        match self {
            ParsedCommand::Get { url } => url.wf(),
            ParsedCommand::Post { url, body } => url.wf() && body.wf(),
        }
    }
}

/// What an invocation asks for: help or version text, or one request.
pub enum CliRequest {
    Help,
    Version,
    Run(ParsedCommand),
}

/// The result of scanning a subcommand's flags.
pub enum FlagScan {
    Help,
    Version,
    MissingValue(Seq<char>),
    Unknown(Seq<char>),
    Done { url: Option<Seq<char>>, body: Option<Seq<char>> },
}

/// Scan a subcommand's flag list: each flag takes the following argument
/// as its value, a later occurrence overriding an earlier one;
/// help/version short-circuit; the body flag is known only when
/// `with_body` holds.
pub open spec fn scan_flags(
    t: Seq<Seq<char>>,
    with_body: bool,
    url: Option<Seq<char>>,
    body: Option<Seq<char>>,
) -> FlagScan
    decreases t.len(),
{
    if t.len() == 0 {
        FlagScan::Done { url, body }
    } else {
        let a = t[0];
        if a == "-h"@ || a == "--help"@ {
            FlagScan::Help
        } else if a == "-V"@ || a == "--version"@ {
            FlagScan::Version
        } else if a == "-u"@ || a == "--url"@ {
            if t.len() == 1 {
                FlagScan::MissingValue(a)
            } else {
                scan_flags(t.skip(2), with_body, Some(t[1]), body)
            }
        } else if with_body && (a == "-b"@ || a == "--body"@) {
            if t.len() == 1 {
                FlagScan::MissingValue(a)
            } else {
                scan_flags(t.skip(2), with_body, url, Some(t[1]))
            }
        } else {
            FlagScan::Unknown(a)
        }
    }
}

/// The views of a list of argument strings.
pub open spec fn arg_views(args: Seq<String>) -> Seq<Seq<char>> {
    args.map_values(|a: String| a@)
}

/// The view of an optionally held string.
pub open spec fn opt_view(o: Option<String>) -> Option<Seq<char>> {
    match o {
        Some(s) => Some(s@),
        None => None,
    }
}

/// What parsing owes for one subcommand, given the scan of its flags.
pub open spec fn sub_outcome(
    r: Result<CliRequest, UsageError>,
    scan: FlagScan,
    is_post: bool,
) -> bool {
    match scan {
        FlagScan::Help => r matches Ok(CliRequest::Help),
        FlagScan::Version => r matches Ok(CliRequest::Version),
        FlagScan::MissingValue(f) => r matches Err(UsageError::MissingValue(g)) && g@ == f,
        FlagScan::Unknown(a) => r matches Err(UsageError::UnknownArgument(g)) && g@ == a,
        FlagScan::Done { url: None, body: _ } => r matches Err(UsageError::MissingUrl),
        FlagScan::Done { url: Some(u), body } => if !url_accepted(u) {
            r matches Err(UsageError::InvalidUrl(s)) && s@ == u
        } else if !is_post {
            r matches Ok(CliRequest::Run(ParsedCommand::Get { url })) && url.wf() && url@ == u
        } else {
            match body {
                None => r matches Err(UsageError::MissingBody),
                Some(b) => r matches Ok(CliRequest::Run(ParsedCommand::Post { url, body }))
                    && url.wf() && url@ == u && body.wf() && body@ == parse_spec(b),
            }
        },
    }
}

/// The command-line surface: two subcommands and the help/version paths.
pub struct CommandSpec;

impl CommandSpec {
    /// The usage text.
    pub fn usage() -> (r: String)
        ensures
            r@
                == "usage: httpc <get|post> [options]\n\n  get  -u|--url <URL>\n  post -u|--url <URL> -b|--body <K=V,K=V,...>\n\n  -h|--help     print this text\n  -V|--version  print the version"@,
    {
        String::from_str(
            "usage: httpc <get|post> [options]\n\n  get  -u|--url <URL>\n  post -u|--url <URL> -b|--body <K=V,K=V,...>\n\n  -h|--help     print this text\n  -V|--version  print the version",
        )
    }

    /// The version text.
    pub fn version_text() -> (r: String)
        ensures
            r@ == "httpc 0.1.0"@,
    {
        String::from_str("httpc 0.1.0")
    }

    /// Parse the process arguments (without the program name) into a
    /// command, a help/version request, or a usage error.
    #[verifier::loop_isolation(false)]
    pub fn parse(args: &Vec<String>) -> (r: Result<CliRequest, UsageError>)
        ensures
            ({
                let v = arg_views(args@);
                if v.len() == 0 {
                    r matches Err(UsageError::MissingSubcommand)
                } else if v[0] == "-h"@ || v[0] == "--help"@ {
                    r matches Ok(CliRequest::Help)
                } else if v[0] == "-V"@ || v[0] == "--version"@ {
                    r matches Ok(CliRequest::Version)
                } else if v[0] == "get"@ {
                    sub_outcome(r, scan_flags(v.skip(1), false, None, None), false)
                } else if v[0] == "post"@ {
                    sub_outcome(r, scan_flags(v.skip(1), true, None, None), true)
                } else {
                    r matches Err(UsageError::UnknownSubcommand(s)) && s@ == v[0]
                }
            }),
    {
        let n = args.len();
        if n == 0 {
            return Err(UsageError::MissingSubcommand);
        }
        let ghost v = arg_views(args@);
        let sub = &args[0];
        proof {
            reveal_strlit("get");
            reveal_strlit("post");
            assert(v[0] == args@[0]@);
        }
        if str_eq(sub.as_str(), "-h") || str_eq(sub.as_str(), "--help") {
            return Ok(CliRequest::Help);
        }
        if str_eq(sub.as_str(), "-V") || str_eq(sub.as_str(), "--version") {
            return Ok(CliRequest::Version);
        }
        let is_get = str_eq(sub.as_str(), "get");
        let is_post = str_eq(sub.as_str(), "post");
        if !is_get && !is_post {
            return Err(UsageError::UnknownSubcommand(sub.clone()));
        }
        let mut url: Option<String> = None;
        let mut body: Option<String> = None;
        let mut i: usize = 1;
        while i < n
            invariant
                n == args@.len(),
                1 <= i <= n,
                v == arg_views(args@),
                scan_flags(v.skip(1), is_post, None, None) == scan_flags(
                    v.skip(i as int),
                    is_post,
                    opt_view(url),
                    opt_view(body),
                ),
            decreases n - i,
        {
            let a = &args[i];
            proof {
                assert(v.skip(i as int)[0] == v[i as int]);
                assert(v[i as int] == args@[i as int]@);
            }
            if str_eq(a.as_str(), "-h") || str_eq(a.as_str(), "--help") {
                return Ok(CliRequest::Help);
            }
            if str_eq(a.as_str(), "-V") || str_eq(a.as_str(), "--version") {
                return Ok(CliRequest::Version);
            }
            if str_eq(a.as_str(), "-u") || str_eq(a.as_str(), "--url") {
                if i + 1 >= n {
                    return Err(UsageError::MissingValue(a.clone()));
                }
                url = Some(args[i + 1].clone());
                proof {
                    assert(v.skip(i as int)[1] == v[i + 1]);
                    assert(v.skip(i as int).skip(2) =~= v.skip(i + 2));
                }
                i += 2;
            } else if is_post && (str_eq(a.as_str(), "-b") || str_eq(a.as_str(), "--body")) {
                if i + 1 >= n {
                    return Err(UsageError::MissingValue(a.clone()));
                }
                body = Some(args[i + 1].clone());
                proof {
                    assert(v.skip(i as int)[1] == v[i + 1]);
                    assert(v.skip(i as int).skip(2) =~= v.skip(i + 2));
                }
                i += 2;
            } else {
                return Err(UsageError::UnknownArgument(a.clone()));
            }
        }
        proof {
            assert(v.skip(n as int) =~= Seq::<Seq<char>>::empty());
        }
        let url_str = match url {
            None => {
                return Err(UsageError::MissingUrl);
            },
            Some(u) => u,
        };
        let validated = match UrlValidator::validate(url_str.as_str()) {
            Err(e) => {
                return Err(e);
            },
            Ok(vu) => vu,
        };
        if !is_post {
            Ok(CliRequest::Run(ParsedCommand::Get { url: validated }))
        } else {
            match body {
                None => Err(UsageError::MissingBody),
                Some(b) => {
                    let m = KeyValueParser::parse(b.as_str());
                    Ok(CliRequest::Run(ParsedCommand::Post { url: validated, body: m }))
                },
            }
        }
    }
}

} // verus!
