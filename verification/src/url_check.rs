//! URL validation: a string is accepted exactly when the URL parser
//! accepts it as an absolute URL; the accepted string is kept verbatim.

use vstd::prelude::*;
use crate::errors::UsageError;

verus! {

/// Whether the URL parser of the `url` crate accepts `s` as an absolute
/// URL.
pub uninterp spec fn url_accepted(s: Seq<char>) -> bool;

/// Relies on url::Url::parse: whether the string parses as an absolute
/// URL. The outcome depends on the characters of the input alone.
#[verifier::external_body]
fn url_parse_ok(s: &str) -> (r: bool)
    ensures
        r == url_accepted(s@),
{
    url::Url::parse(s).is_ok()
}

/// A string guaranteed, by construction, to parse as an absolute URL.
pub struct ValidatedUrl {
    url: String,
}

impl ValidatedUrl {
    /// The characters of the URL, exactly as validated.
    pub closed spec fn view(&self) -> Seq<char> {
        self.url@
    }

    /// Well-formedness: the URL parser accepted these characters.
    pub closed spec fn wf(&self) -> bool {
        url_accepted(self.url@)
    }

    /// The URL text.
    pub fn as_str(&self) -> (r: &str)
        ensures
            r@ == self@,
    {
        self.url.as_str()
    }
}

/// The URL validator.
pub struct UrlValidator;

impl UrlValidator {
    /// Validate a URL: on success the original string is passed through
    /// unchanged; a string the URL parser rejects fails with the
    /// invalid-URL usage error carrying that string.
    pub fn validate(raw: &str) -> (r: Result<ValidatedUrl, UsageError>)
        ensures
            r is Ok <==> url_accepted(raw@),
            r matches Ok(v) ==> v.wf() && v@ == raw@,
            r matches Err(e) ==> e matches UsageError::InvalidUrl(u) && u@ == raw@,
    {
        if url_parse_ok(raw) {
            Ok(ValidatedUrl { url: raw.to_owned() })
        } else {
            Err(UsageError::InvalidUrl(raw.to_owned()))
        }
    }
}

} // verus!
