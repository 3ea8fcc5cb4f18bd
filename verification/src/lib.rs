//! A minimal one-shot HTTP client library: command-line parsing for a
//! single GET or POST request, comma-separated `key=value` body parsing,
//! URL validation, JSON body encoding, and response rendering with
//! JSON-aware pretty-printing.
//!
//! The HTTP transport itself and terminal coloring are external
//! collaborators; everything here is pure computation on plain values.

pub mod args;
pub mod errors;
pub mod jsonenc;
pub mod kv;
pub mod render;
pub mod request;
pub mod strutil;
pub mod url_check;

pub use args::CliRequest;
pub use args::CommandSpec;
pub use args::ParsedCommand;
pub use errors::BodyFormatError;
pub use errors::UsageError;
pub use kv::KeyValueParser;
pub use kv::Mapping;
pub use render::HttpResponse;
pub use render::Rendered;
pub use render::ResponseRenderer;
pub use request::HttpMethod;
pub use request::HttpRequest;
pub use request::RequestDispatcher;
pub use url_check::UrlValidator;
pub use url_check::ValidatedUrl;
