//! Rendering a response: the status line, the headers in receipt order,
//! and the body — pretty-printed when the Content-Type declares JSON,
//! verbatim otherwise.
//!
//! The MIME type is the media-type token of the first Content-Type
//! header (ASCII case-insensitive, parameters such as `charset`
//! ignored). An undecodable or missing Content-Type falls through to
//! verbatim printing; only a body declared as JSON that does not parse
//! is an error.

use vstd::prelude::*;
use crate::errors::BodyFormatError;
use crate::strutil::dec_str;
use crate::strutil::eq_ci;
use crate::strutil::push_char;
use crate::strutil::str_eq_ci;
use crate::strutil::u16_to_dec;

verus! {

/// What jsonxf's pretty-printer yields for a text: the re-indented JSON,
/// or nothing when the text is rejected. The outcome depends on the
/// characters of the input alone.
pub uninterp spec fn pretty_of(s: Seq<char>) -> Option<Seq<char>>;

/// Relies on jsonxf::pretty_print: two-space-indented re-formatting of
/// JSON text, an error for text it rejects.
#[verifier::external_body]
fn json_pretty(s: &str) -> (r: Option<String>)
    ensures
        r is Some <==> pretty_of(s@) is Some,
        r matches Some(p) ==> Some(p@) == pretty_of(s@),
{
    match jsonxf::pretty_print(s) {
        Ok(p) => Some(p),
        Err(_) => None,
    }
}

/// The views of a header list.
pub open spec fn header_views(hs: Seq<(String, String)>) -> Seq<(Seq<char>, Seq<char>)> {
    hs.map_values(|h: (String, String)| (h.0@, h.1@))
}

/// The value of the first Content-Type header, if any.
pub open spec fn content_type_of(hs: Seq<(Seq<char>, Seq<char>)>) -> Option<Seq<char>>
    decreases hs.len(),
{
    if hs.len() == 0 {
        None
    } else if eq_ci(hs[0].0, "content-type"@) {
        Some(hs[0].1)
    } else {
        content_type_of(hs.skip(1))
    }
}

/// The text before the first `;`.
pub open spec fn before_semi(v: Seq<char>) -> Seq<char>
    decreases v.len(),
{
    if v.len() == 0 {
        Seq::empty()
    } else if v[0] == ';' {
        Seq::empty()
    } else {
        seq![v[0]] + before_semi(v.skip(1))
    }
}

/// Space or tab.
pub open spec fn is_ws(c: char) -> bool {
    c == ' ' || c == '\t'
}

/// The sequence without its leading spaces and tabs.
pub open spec fn trim_start(v: Seq<char>) -> Seq<char>
    decreases v.len(),
{
    if v.len() > 0 && is_ws(v[0]) {
        trim_start(v.skip(1))
    } else {
        v
    }
}

/// The sequence without its trailing spaces and tabs.
pub open spec fn trim_end(v: Seq<char>) -> Seq<char>
    decreases v.len(),
{
    if v.len() > 0 && is_ws(v.last()) {
        trim_end(v.drop_last())
    } else {
        v
    }
}

/// The media-type token of a Content-Type value: the text before any
/// parameters, trimmed.
pub open spec fn media_token(v: Seq<char>) -> Seq<char> {
    trim_end(trim_start(before_semi(v)))
}

/// Whether a Content-Type value names exactly the JSON media type.
pub open spec fn is_json_media(v: Seq<char>) -> bool {
    eq_ci(media_token(v), "application/json"@)
}

/// Whether the headers declare a JSON body.
pub open spec fn json_declared(hs: Seq<(Seq<char>, Seq<char>)>) -> bool {
    match content_type_of(hs) {
        Some(v) => is_json_media(v),
        None => false,
    }
}

proof fn lemma_before_semi_none(v: Seq<char>)
    requires
        forall|i: int| 0 <= i < v.len() ==> v[i] != ';',
    ensures
        before_semi(v) =~= v,
    decreases v.len(),
{
    if v.len() != 0 {
        assert(forall|i: int| 0 <= i < v.skip(1).len() ==> v.skip(1)[i] != ';');
        lemma_before_semi_none(v.skip(1));
        assert(seq![v[0]] + v.skip(1) =~= v);
    }
}

proof fn lemma_before_semi_at(v: Seq<char>, k: int)
    requires
        0 <= k < v.len(),
        v[k] == ';',
        forall|i: int| 0 <= i < k ==> v[i] != ';',
    ensures
        before_semi(v) =~= v.take(k),
    decreases k,
{
    if k == 0 {
        assert(v.take(0) =~= Seq::<char>::empty());
    } else {
        let t = v.skip(1);
        assert(t[k - 1] == ';');
        assert(forall|i: int| 0 <= i < k - 1 ==> t[i] != ';');
        lemma_before_semi_at(t, k - 1);
        assert(seq![v[0]] + t.take(k - 1) =~= v.take(k));
    }
}

proof fn lemma_trim_start_at(v: Seq<char>, lo: int)
    requires
        0 <= lo <= v.len(),
        forall|j: int| 0 <= j < lo ==> is_ws(v[j]),
        lo < v.len() ==> !is_ws(v[lo]),
    ensures
        trim_start(v) =~= v.skip(lo),
    decreases lo,
{
    if lo == 0 {
        assert(v.skip(0) =~= v);
    } else {
        let t = v.skip(1);
        assert(forall|j: int| 0 <= j < lo - 1 ==> is_ws(t[j]));
        assert(lo - 1 < t.len() ==> !is_ws(t[lo - 1]));
        lemma_trim_start_at(t, lo - 1);
        assert(t.skip(lo - 1) =~= v.skip(lo));
    }
}

proof fn lemma_trim_end_at(v: Seq<char>, hi: int)
    requires
        0 <= hi <= v.len(),
        forall|j: int| hi <= j < v.len() ==> is_ws(v[j]),
        hi > 0 ==> !is_ws(v[hi - 1]),
    ensures
        trim_end(v) =~= v.take(hi),
    decreases v.len(),
{
    if hi == v.len() {
        if v.len() > 0 {
            assert(!is_ws(v.last()));
        }
        assert(v.take(hi) =~= v);
    } else {
        assert(is_ws(v.last()));
        let t = v.drop_last();
        assert(forall|j: int| hi <= j < t.len() ==> is_ws(t[j]));
        lemma_trim_end_at(t, hi);
        assert(t.take(hi) =~= v.take(hi));
    }
}

fn is_ws_exec(c: char) -> (r: bool)
    ensures
        r == is_ws(c),
{
    c == ' ' || c == '\t'
}

/// Whether a Content-Type header value declares exactly the JSON media
/// type, parameters ignored.
#[verifier::loop_isolation(false)]
pub fn is_json_content_type(v: &str) -> (r: bool)
    ensures
        r == is_json_media(v@),
{
    let n = v.unicode_len();
    let mut end: usize = 0;
    while end < n && v.get_char(end) != ';'
        invariant
            end <= n,
            forall|j: int| 0 <= j < end ==> v@[j] != ';',
        decreases n - end,
    {
        end += 1;
    }
    proof {
        if end < n {
            lemma_before_semi_at(v@, end as int);
        } else {
            lemma_before_semi_none(v@);
            assert(v@.take(end as int) =~= v@);
        }
        assert(before_semi(v@) =~= v@.take(end as int));
    }
    let mut lo: usize = 0;
    while lo < end && is_ws_exec(v.get_char(lo))
        invariant
            lo <= end,
            forall|j: int| 0 <= j < lo ==> is_ws(v@[j]),
        decreases end - lo,
    {
        lo += 1;
    }
    let mut hi: usize = end;
    while hi > lo && is_ws_exec(v.get_char(hi - 1))
        invariant
            lo <= hi <= end,
            forall|j: int| hi <= j < end ==> is_ws(v@[j]),
        decreases hi,
    {
        hi -= 1;
    }
    proof {
        let b = v@.take(end as int);
        assert(forall|j: int| 0 <= j < lo ==> is_ws(b[j]));
        assert(lo < b.len() ==> !is_ws(b[lo as int]));
        lemma_trim_start_at(b, lo as int);
        let t = b.skip(lo as int);
        assert(forall|j: int| hi - lo <= j < t.len() ==> is_ws(t[j]));
        assert(hi - lo > 0 ==> !is_ws(t[hi - lo - 1]));
        lemma_trim_end_at(t, hi - lo);
        assert(t.take(hi - lo) =~= v@.subrange(lo as int, hi as int));
        assert(media_token(v@) == v@.subrange(lo as int, hi as int));
    }
    let tok = v.substring_char(lo, hi);
    str_eq_ci(tok, "application/json")
}

/// The value of the first Content-Type header.
#[verifier::loop_isolation(false)]
fn find_content_type(headers: &Vec<(String, String)>) -> (r: Option<&String>)
    ensures
        match r {
            Some(s) => content_type_of(header_views(headers@)) == Some(s@),
            None => content_type_of(header_views(headers@)) is None,
        },
{
    let ghost hv = header_views(headers@);
    proof {
        assert(hv.skip(0) =~= hv);
    }
    let n = headers.len();
    let mut i: usize = 0;
    while i < n
        invariant
            i <= n,
            content_type_of(hv) == content_type_of(hv.skip(i as int)),
        decreases n - i,
    {
        proof {
            assert(hv.skip(i as int)[0] == hv[i as int]);
        }
        if str_eq_ci(headers[i].0.as_str(), "content-type") {
            return Some(&headers[i].1);
        }
        proof {
            assert(hv.skip(i as int).skip(1) =~= hv.skip(i + 1));
        }
        i += 1;
    }
    proof {
        assert(hv.skip(n as int) =~= Seq::<(Seq<char>, Seq<char>)>::empty());
    }
    None
}

/// A response as the driver hands it over: status code, protocol
/// version, headers in receipt order (duplicates preserved), body text.
pub struct HttpResponse {
    pub status: u16,
    pub version: String,
    pub headers: Vec<(String, String)>,
    pub body: String,
}

/// The status line: the code in decimal, a space, the protocol version.
pub open spec fn status_line_spec(status: int, version: Seq<char>) -> Seq<char> {
    dec_str(status) + seq![' '] + version
}

/// The header block: one `name: value` line per header, in order.
pub open spec fn header_block(hs: Seq<(Seq<char>, Seq<char>)>) -> Seq<char>
    decreases hs.len(),
{
    if hs.len() == 0 {
        Seq::empty()
    } else {
        hs[0].0 + seq![':', ' '] + hs[0].1 + seq!['\n'] + header_block(hs.skip(1))
    }
}

/// The full rendered text: status line, header lines, a blank line after
/// the header block even when it is empty, then the body.
pub open spec fn rendered_text(
    status_line: Seq<char>,
    hs: Seq<(Seq<char>, Seq<char>)>,
    body: Seq<char>,
) -> Seq<char> {
    status_line + seq!['\n'] + header_block(hs) + seq!['\n'] + body + seq!['\n']
}

/// A rendered response, ready to print: the driver may colorize the
/// status line and the header names.
pub struct Rendered {
    pub status_line: String,
    pub headers: Vec<(String, String)>,
    pub body: String,
}

proof fn lemma_header_block_snoc(hs: Seq<(Seq<char>, Seq<char>)>, h: (Seq<char>, Seq<char>))
    ensures
        header_block(hs.push(h)) =~= header_block(hs) + (h.0 + seq![':', ' '] + h.1
            + seq!['\n']),
    decreases hs.len(),
{
    if hs.len() == 0 {
        assert(hs.push(h)[0] == h);
        assert(hs.push(h).skip(1) =~= Seq::<(Seq<char>, Seq<char>)>::empty());
        assert(header_block(hs.push(h).skip(1)) =~= Seq::<char>::empty());
        assert(header_block(hs.push(h)) == h.0 + seq![':', ' '] + h.1 + seq!['\n'] + header_block(
            hs.push(h).skip(1),
        ));
        assert(header_block(hs) =~= Seq::<char>::empty());
        assert(h.0 + seq![':', ' '] + h.1 + seq!['\n'] + Seq::<char>::empty() =~= header_block(hs)
            + (h.0 + seq![':', ' '] + h.1 + seq!['\n']));
    } else {
        assert(hs.push(h).skip(1) =~= hs.skip(1).push(h));
        lemma_header_block_snoc(hs.skip(1), h);
        assert(hs.push(h)[0] == hs[0]);
        assert(hs[0].0 + seq![':', ' '] + hs[0].1 + seq!['\n'] + (header_block(hs.skip(1)) + (h.0
            + seq![':', ' '] + h.1 + seq!['\n'])) =~= (hs[0].0 + seq![':', ' '] + hs[0].1
            + seq!['\n'] + header_block(hs.skip(1))) + (h.0 + seq![':', ' '] + h.1 + seq!['\n']));
    }
}

impl Rendered {
    /// The rendered response as plain text, uncolored.
    #[verifier::loop_isolation(false)]
    pub fn plain_text(&self) -> (r: String)
        ensures
            r@ == rendered_text(self.status_line@, header_views(self.headers@), self.body@),
    {
        let ghost hv = header_views(self.headers@);
        let mut out = self.status_line.clone();
        push_char(&mut out, '\n');
        let n = self.headers.len();
        let mut i: usize = 0;
        while i < n
            invariant
                i <= n,
                out@ == self.status_line@ + seq!['\n'] + header_block(hv.take(i as int)),
            decreases n - i,
        {
            proof {
                assert(header_block(hv.take(0)) =~= Seq::<char>::empty());
                assert(self.status_line@.push('\n') =~= self.status_line@ + seq!['\n']
                    + header_block(hv.take(0)));
            }
            out.append(self.headers[i].0.as_str());
            push_char(&mut out, ':');
            push_char(&mut out, ' ');
            out.append(self.headers[i].1.as_str());
            push_char(&mut out, '\n');
            proof {
                let h = hv[i as int];
                assert(hv.take(i + 1) =~= hv.take(i as int).push(h));
                lemma_header_block_snoc(hv.take(i as int), h);
                assert((((((self.status_line@ + seq!['\n'] + header_block(hv.take(i as int)))
                    + h.0).push(':').push(' ')) + h.1).push('\n')) =~= self.status_line@
                    + seq!['\n'] + header_block(hv.take(i + 1)));
            }
            i += 1;
        }
        proof {
            assert(hv.take(n as int) =~= hv);
        }
        push_char(&mut out, '\n');
        out.append(self.body.as_str());
        push_char(&mut out, '\n');
        proof {
            assert((((self.status_line@ + seq!['\n'] + header_block(hv)).push('\n') + self.body@)
                .push('\n')) =~= rendered_text(self.status_line@, hv, self.body@));
        }
        out
    }
}

/// The response renderer.
pub struct ResponseRenderer;

impl ResponseRenderer {
    /// Render a response: the status line and headers always; the body
    /// pretty-printed when the headers declare JSON (an error exactly
    /// when the pretty-printer rejects the declared-JSON body), verbatim
    /// otherwise.
    #[verifier::loop_isolation(false)]
    pub fn render(resp: &HttpResponse) -> (r: Result<Rendered, BodyFormatError>)
        ensures
            ({
                let hv = header_views(resp.headers@);
                &&& (json_declared(hv) ==> (r is Ok <==> pretty_of(resp.body@) is Some))
                &&& (!json_declared(hv) ==> r is Ok)
                &&& (r matches Ok(out) ==> {
                    &&& out.status_line@ == status_line_spec(resp.status as int, resp.version@)
                    &&& header_views(out.headers@) == hv
                    &&& out.body@ == (if json_declared(hv) {
                        pretty_of(resp.body@)->0
                    } else {
                        resp.body@
                    })
                })
            }),
    {
        let ghost hv = header_views(resp.headers@);
        let mut status_line = u16_to_dec(resp.status);
        push_char(&mut status_line, ' ');
        status_line.append(resp.version.as_str());
        proof {
            assert(dec_str(resp.status as int).push(' ') + resp.version@ =~= status_line_spec(
                resp.status as int,
                resp.version@,
            ));
        }
        let is_json = match find_content_type(&resp.headers) {
            Some(ct) => is_json_content_type(ct.as_str()),
            None => false,
        };
        let body = if is_json {
            match json_pretty(resp.body.as_str()) {
                Some(p) => p,
                None => {
                    return Err(BodyFormatError {  });
                },
            }
        } else {
            resp.body.clone()
        };
        let n = resp.headers.len();
        let mut headers: Vec<(String, String)> = Vec::new();
        let mut i: usize = 0;
        while i < n
            invariant
                i <= n,
                headers@.len() == i,
                forall|k: int| 0 <= k < i ==> headers@[k] == resp.headers@[k],
            decreases n - i,
        {
            headers.push((resp.headers[i].0.clone(), resp.headers[i].1.clone()));
            i += 1;
        }
        proof {
            assert(headers@ =~= resp.headers@);
        }
        Ok(Rendered { status_line, headers, body })
    }
}

} // verus!
