//! Turning a parsed command into the one HTTP request it calls for.
//!
//! The transport itself (connections, TLS, redirects) is an external
//! collaborator; this module fixes exactly what is sent: the method, the
//! URL, and for `post` the JSON-encoded body.

use vstd::prelude::*;
use crate::args::ParsedCommand;
use crate::jsonenc::encode_object;
use crate::jsonenc::json_object;

verus! {

/// The two supported HTTP methods.
#[derive(Clone, Copy, Debug, PartialEq, Eq, Structural)]
pub enum HttpMethod {
    Get,
    Post,
}

/// One HTTP request: a GET carries no body; a POST carries a JSON object
/// (sent with a `Content-Type: application/json` header).
pub struct HttpRequest {
    pub method: HttpMethod,
    pub url: String,
    pub body: Option<String>,
}

/// The request dispatcher's verified half: it fixes the single request a
/// command calls for; the transport performs it.
pub struct RequestDispatcher;

impl RequestDispatcher {
    /// The one request for a parsed command: GET with no body, or POST
    /// with the key/value mapping encoded as a JSON object.
    pub fn plan(cmd: &ParsedCommand) -> (r: HttpRequest)
        ensures
            cmd matches ParsedCommand::Get { url } ==> r.method == HttpMethod::Get && r.url@
                == url@ && r.body is None,
            cmd matches ParsedCommand::Post { url, body } ==> r.method == HttpMethod::Post
                && r.url@ == url@ && (r.body matches Some(b) && b@ == json_object(
                body.entries_view(),
            )),
    {
        match cmd {
            ParsedCommand::Get { url } => HttpRequest {
                method: HttpMethod::Get,
                url: url.as_str().to_owned(),
                body: None,
            },
            ParsedCommand::Post { url, body } => HttpRequest {
                method: HttpMethod::Post,
                url: url.as_str().to_owned(),
                body: Some(encode_object(body)),
            },
        }
    }
}

} // verus!
