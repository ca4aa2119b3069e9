//! Requests, and the parser that reads one off the wire.
//!
//! Grammar, matched byte for byte and case-sensitively:
//!
//! ```text
//! request-line = method SP target SP version CRLF
//! headers      = *(header-name ":" *SP header-value CRLF)
//! request      = request-line headers CRLF [ body ]
//! ```
//!
//! A body is read only when a Content-Length header is present and is a run of decimal
//! digits; exactly that many bytes are taken. Whatever follows is handed back untouched.

use vstd::prelude::*;
use vstd::slice::{slice_subrange, slice_to_vec};
use vstd::utf8::encode_utf8;

use crate::body::Body;
use crate::error::{ErrorKind, RequestError};
use crate::headers::{
    lemma_header_lines_parse, lemma_parse_headers_end, lines_wire, parse_headers_from, table_of,
    value_fits_line, HeaderName, Headers,
};
use crate::method::{lemma_method_token, lemma_method_token_plain, method_of, Method};
use crate::path::{parse_target, Path};
use crate::version::{lemma_version_token, lemma_version_token_plain, version_of, Version};
use crate::wire::{
    crlf, crlf_at, find_byte, find_crlf, first_byte, first_crlf, lemma_first_byte,
    lemma_first_byte_at, lemma_first_byte_none, lemma_first_crlf, lemma_first_crlf_after_line,
    no_crlf, numeric, parse_decimal, SP,
};

verus! {

/// What a request holds, as plain values.
pub struct RequestView {
    pub method: Method,
    pub target: Seq<char>,
    pub version: Version,
    pub headers: Map<HeaderName, Seq<char>>,
    pub body: Option<Seq<u8>>,
}

/// The body length that a header table declares: its Content-Length, where that is a
/// run of decimal digits.
pub open spec fn declared_length(h: Map<HeaderName, Seq<char>>) -> Option<nat> {
    if h.contains_key(HeaderName::ContentLength) {
        numeric(encode_utf8(h[HeaderName::ContentLength]))
    } else {
        None
    }
}

/// What a request line (without its terminator) holds: exactly three tokens split by
/// single spaces, checked in order method, target, version.
pub open spec fn parse_request_line(line: Seq<u8>) -> Result<
    (Method, Seq<char>, Version),
    (ErrorKind, Seq<u8>),
> {
    match first_byte(line, SP, 0) {
        None => Err((ErrorKind::MalformedRequestLine, line)),
        Some(i) => match first_byte(line, SP, i + 1) {
            None => Err((ErrorKind::MalformedRequestLine, line)),
            Some(j) => if first_byte(line, SP, j + 1) is Some {
                Err((ErrorKind::MalformedRequestLine, line))
            } else {
                let m = line.subrange(0, i);
                let t = line.subrange(i + 1, j);
                let v = line.subrange(j + 1, line.len() as int);
                match method_of(m) {
                    None => Err((ErrorKind::UnknownMethod, m)),
                    Some(method) => match parse_target(t) {
                        Err(f) => Err(f),
                        Ok(target) => match version_of(v) {
                            None => Err((ErrorKind::UnrecognizedVersion, v)),
                            Some(version) => if version.supported() {
                                Ok((method, target, version))
                            } else {
                                Err((ErrorKind::UnsupportedVersion, v))
                            },
                        },
                    },
                }
            },
        },
    }
}

/// What the front of a buffer holds: a request and the number of bytes it takes, or
/// the reason it cannot be read.
pub open spec fn parse_request(b: Seq<u8>) -> Result<(RequestView, int), (ErrorKind, Seq<u8>)> {
    match first_crlf(b, 0) {
        None => Err((ErrorKind::Incomplete, Seq::empty())),
        Some(e) => match parse_request_line(b.subrange(0, e)) {
            Err(f) => Err(f),
            Ok((method, target, version)) => match parse_headers_from(b, e + 2, Map::empty()) {
                Err(f) => Err(f),
                Ok((headers, p)) => match declared_length(headers) {
                    None => Ok(
                        (RequestView { method, target, version, headers, body: None }, p),
                    ),
                    Some(n) => if p + n <= b.len() {
                        Ok(
                            (
                                RequestView {
                                    method,
                                    target,
                                    version,
                                    headers,
                                    body: Some(b.subrange(p, p + n)),
                                },
                                p + n,
                            ),
                        )
                    } else {
                        Err((ErrorKind::TruncatedBody, b.subrange(p, b.len() as int)))
                    },
                },
            },
        },
    }
}

/// The first line of a request: method, target and version.
#[derive(Clone, PartialEq, Eq, Debug)]
pub struct RequestLine {
    http_method: Method,
    request_target: Path,
    http_version: Version,
}

impl RequestLine {
    pub closed spec fn spec_method(self) -> Method {
        self.http_method
    }

    pub closed spec fn spec_target(self) -> Seq<char> {
        self.request_target@
    }

    pub closed spec fn spec_version(self) -> Version {
        self.http_version
    }

    pub fn new(http_method: Method, request_target: String, http_version: Version) -> (r:
        RequestLine)
        ensures
            r.spec_method() == http_method,
            r.spec_target() == request_target@,
            r.spec_version() == http_version,
    {
        RequestLine {
            http_method,
            request_target: Path::new(request_target.as_str()),
            http_version,
        }
    }

    pub fn method(&self) -> (r: Method)
        ensures
            r == self.spec_method(),
    {
        self.http_method
    }

    pub fn target(&self) -> (r: &Path)
        ensures
            r@ == self.spec_target(),
    {
        &self.request_target
    }

    pub fn version(&self) -> (r: Version)
        ensures
            r == self.spec_version(),
    {
        self.http_version
    }

    /// Reads a request line given without its terminator.
    pub fn from_line(line: &[u8]) -> (r: Result<RequestLine, RequestError>)
        ensures
            match parse_request_line(line@) {
                Ok((m, t, v)) => r is Ok && r->Ok_0.spec_method() == m && r->Ok_0.spec_target()
                    == t && r->Ok_0.spec_version() == v,
                Err(f) => r is Err && r->Err_0@ == f,
            },
    {
        let len = line.len();
        let i = match find_byte(line, SP, 0) {
            None => {
                return Err(RequestError::MalformedRequestLine(slice_to_vec(line)));
            },
            Some(i) => i,
        };
        proof {
            lemma_first_byte(line@, SP, 0);
        }
        let j = match find_byte(line, SP, i + 1) {
            None => {
                return Err(RequestError::MalformedRequestLine(slice_to_vec(line)));
            },
            Some(j) => j,
        };
        proof {
            lemma_first_byte(line@, SP, i + 1);
        }
        if find_byte(line, SP, j + 1).is_some() {
            return Err(RequestError::MalformedRequestLine(slice_to_vec(line)));
        }
        let http_method = Method::parse(slice_subrange(line, 0, i))?;
        let request_target = Path::parse(slice_subrange(line, i + 1, j))?;
        let http_version = Version::parse(slice_subrange(line, j + 1, len))?;
        Ok(RequestLine { http_method, request_target, http_version })
    }

    /// Reads a request line given as text without its terminator.
    pub fn try_from(text: &str) -> (r: Result<RequestLine, RequestError>)
        ensures
            match parse_request_line(encode_utf8(text@)) {
                Ok((m, t, v)) => r is Ok && r->Ok_0.spec_method() == m && r->Ok_0.spec_target()
                    == t && r->Ok_0.spec_version() == v,
                Err(f) => r is Err && r->Err_0@ == f,
            },
    {
        RequestLine::from_line(text.as_bytes())
    }

    /// Reads a request line with its terminator; hands back what follows it.
    pub fn parse(bytes: &[u8]) -> (r: Result<(&[u8], RequestLine), RequestError>)
        ensures
            match first_crlf(bytes@, 0) {
                None => r is Err && r->Err_0@ == (ErrorKind::Incomplete, Seq::<u8>::empty()),
                Some(e) => match parse_request_line(bytes@.subrange(0, e)) {
                    Ok((m, t, v)) => r is Ok && r->Ok_0.0@ == bytes@.subrange(
                        e + 2,
                        bytes@.len() as int,
                    ) && r->Ok_0.1.spec_method() == m && r->Ok_0.1.spec_target() == t
                        && r->Ok_0.1.spec_version() == v,
                    Err(f) => r is Err && r->Err_0@ == f,
                },
            },
    {
        let len = bytes.len();
        match find_crlf(bytes, 0) {
            None => Err(RequestError::Incomplete),
            Some(e) => {
                proof {
                    lemma_first_crlf(bytes@, 0);
                }
                let line = RequestLine::from_line(slice_subrange(bytes, 0, e))?;
                Ok((slice_subrange(bytes, e + 2, len), line))
            },
        }
    }
}

/// One request: method, target, version, headers and an optional body.
#[derive(Clone, PartialEq, Eq, Debug)]
pub struct Request {
    method: Method,
    target: Path,
    version: Version,
    headers: Headers,
    body: Option<Body>,
}

/// A body's bytes, where there is one.
pub open spec fn body_bytes(body: Option<Body>) -> Option<Seq<u8>> {
    match body {
        Some(b) => Some(b.bytes()),
        None => None,
    }
}

impl View for Request {
    type V = RequestView;

    closed spec fn view(&self) -> RequestView {
        RequestView {
            method: self.method,
            target: self.target@,
            version: self.version,
            headers: self.headers@,
            body: body_bytes(self.body),
        }
    }
}

impl Request {
    pub fn new(
        method: Method,
        target: Path,
        version: Version,
        headers: Headers,
        body: Option<Body>,
    ) -> (r: Request)
        ensures
            r@ == (RequestView {
                method,
                target: target@,
                version,
                headers: headers@,
                body: body_bytes(body),
            }),
    {
        Request { method, target, version, headers, body }
    }

    pub fn method(&self) -> (r: Method)
        ensures
            r == self@.method,
    {
        self.method
    }

    pub fn target(&self) -> (r: &Path)
        ensures
            r@ == self@.target,
    {
        &self.target
    }

    pub fn version(&self) -> (r: Version)
        ensures
            r == self@.version,
    {
        self.version
    }

    pub fn headers(&self) -> (r: &Headers)
        ensures
            r@ == self@.headers,
    {
        &self.headers
    }

    pub fn body(&self) -> (r: Option<&Body>)
        ensures
            match r {
                Some(b) => self@.body == Some(b.bytes()),
                None => self@.body is None,
            },
    {
        self.body.as_ref()
    }

    /// Reads one request off the front of `bytes`. On success, hands back the bytes
    /// that follow it, untouched, and the request.
    pub fn parse(bytes: &[u8]) -> (r: Result<(&[u8], Request), RequestError>)
        ensures
            match parse_request(bytes@) {
                Ok((req, n)) => r is Ok && r->Ok_0.1@ == req && r->Ok_0.0@ == bytes@.subrange(
                    n,
                    bytes@.len() as int,
                ),
                Err(f) => r is Err && r->Err_0@ == f,
            },
    {
        let len = bytes.len();
        let e = match find_crlf(bytes, 0) {
            None => {
                return Err(RequestError::Incomplete);
            },
            Some(e) => e,
        };
        proof {
            lemma_first_crlf(bytes@, 0);
        }
        let line = RequestLine::from_line(slice_subrange(bytes, 0, e))?;
        proof {
            lemma_parse_headers_end(bytes@, e + 2, Map::empty());
        }
        let (headers, p) = Headers::parse_block(bytes, e + 2)?;
        let declared = match headers.content_length() {
            None => None,
            Some(v) => parse_decimal(v.as_str().as_bytes()),
        };
        let body = match declared {
            None => None,
            Some(n) => {
                if n > len - p {
                    return Err(RequestError::TruncatedBody(slice_to_vec(slice_subrange(bytes, p, len))));
                }
                Some(Body::OctetStream(slice_to_vec(slice_subrange(bytes, p, p + n))))
            },
        };
        let end = match declared {
            None => p,
            Some(n) => p + n,
        };
        let request = Request {
            method: line.http_method,
            target: line.request_target,
            version: line.http_version,
            headers,
            body,
        };
        Ok((slice_subrange(bytes, end, len), request))
    }

    /// Reads one request from text; whatever follows it is ignored.
    pub fn try_from(text: &str) -> (r: Result<Request, RequestError>)
        ensures
            match parse_request(encode_utf8(text@)) {
                Ok((req, _)) => r is Ok && r->Ok_0@ == req,
                Err(f) => r is Err && r->Err_0@ == f,
            },
    {
        let (_, request) = Request::parse(text.as_bytes())?;
        Ok(request)
    }
}

/// A target that a request line carries unchanged: its bytes are not empty and hold
/// neither a space nor a line terminator.
pub open spec fn target_fits_line(t: Seq<char>) -> bool {
    let b = encode_utf8(t);
    b.len() > 0 && no_crlf(b) && forall|i: int| 0 <= i < b.len() ==> b[i] != SP
}

/// A request line's content on the wire, without its terminator.
pub open spec fn request_line_content(m: Method, t: Seq<char>, v: Version) -> Seq<u8> {
    m.token() + seq![SP] + encode_utf8(t) + seq![SP] + v.token()
}

/// The body that a request built from a header table carries: the given bytes where the
/// table declares a length, none otherwise.
pub open spec fn body_for(h: Map<HeaderName, Seq<char>>, body: Seq<u8>) -> Option<Seq<u8>> {
    if declared_length(h) is Some {
        Some(body)
    } else {
        None
    }
}

proof fn lemma_request_line_parse(m: Method, t: Seq<char>, v: Version)
    requires
        v.supported(),
        target_fits_line(t),
    ensures
        no_crlf(request_line_content(m, t, v)),
        parse_request_line(request_line_content(m, t, v)) == Ok::<
            (Method, Seq<char>, Version),
            (ErrorKind, Seq<u8>),
        >((m, t, v)),
{
    let mt = m.token();
    let tb = encode_utf8(t);
    let vt = v.token();
    let c = request_line_content(m, t, v);
    lemma_method_token_plain(m);
    lemma_version_token_plain(v);
    let i = mt.len() as int;
    let j = i + 1 + tb.len();
    assert forall|k: int| 0 <= k < c.len() implies (k < i ==> c[k] == mt[k]) && (i < k < j
        ==> c[k] == tb[k - i - 1]) && (j < k ==> c[k] == vt[k - j - 1]) && (k == i ==> c[k]
        == SP) && (k == j ==> c[k] == SP) by {}
    assert forall|k: int| !crlf_at(c, k) by {
        if 0 <= k && k + 1 < c.len() && i < k && k + 1 < j {
            assert(!crlf_at(tb, k - i - 1));
        }
    }
    lemma_first_byte_at(c, SP, 0, i);
    lemma_first_byte_at(c, SP, i + 1, j);
    lemma_first_byte_none(c, SP, j + 1);
    assert(c.subrange(0, i) =~= mt);
    assert(c.subrange(i + 1, j) =~= tb);
    assert(c.subrange(j + 1, c.len() as int) =~= vt);
    lemma_method_token(m);
    lemma_version_token(v);
    lemma_first_byte_none(tb, SP, 0);
    vstd::utf8::encode_utf8_valid_utf8(t);
    vstd::utf8::encode_utf8_decode_utf8(t);
    assert(parse_target(tb) == Ok::<Seq<char>, (ErrorKind, Seq<u8>)>(t));
}

/// A request as written (request line, header lines in any order, the blank line, a
/// body of the declared length) followed by any bytes at all: parsing reads exactly that
/// request and takes exactly its bytes, so that what follows is left untouched.
#[verifier::rlimit(40)]
pub proof fn lemma_parse_consumes_exactly(
    m: Method,
    t: Seq<char>,
    v: Version,
    hs: Seq<(HeaderName, Seq<char>)>,
    body: Seq<u8>,
    rest: Seq<u8>,
)
    requires
        v.supported(),
        target_fits_line(t),
        forall|i: int| 0 <= i < hs.len() ==> value_fits_line(#[trigger] hs[i].1),
        body.len() == match declared_length(table_of(hs)) {
            Some(n) => n,
            None => 0,
        },
    ensures
        ({
            let head = request_line_content(m, t, v) + crlf() + lines_wire(hs) + crlf();
            parse_request(head + body + rest) == Ok::<(RequestView, int), (ErrorKind, Seq<u8>)>(
                (
                    RequestView {
                        method: m,
                        target: t,
                        version: v,
                        headers: table_of(hs),
                        body: body_for(table_of(hs), body),
                    },
                    (head.len() + body.len()) as int,
                ),
            )
        }),
{
    let c = request_line_content(m, t, v);
    let head = c + crlf() + lines_wire(hs) + crlf();
    let b = head + body + rest;
    lemma_request_line_parse(m, t, v);
    let cl = c.len() as int;
    assert(b.subrange(0, cl) =~= c);
    assert(crlf_at(b, cl)) by {
        assert(b[cl] == head[cl] && b[cl + 1] == head[cl + 1]);
    }
    lemma_first_crlf_after_line(b, 0, c);
    let p = cl + 2;
    let lw = lines_wire(hs).len() as int;
    assert(b.subrange(p, p + lw + 2) =~= lines_wire(hs) + crlf());
    lemma_header_lines_parse(b, p, hs, Map::empty());
    let q = p + lw + 2;
    assert(q == head.len());
    assert(b.subrange(q, q + body.len()) =~= body);
    assert(first_crlf(b, 0) == Some(cl));
    assert(parse_request_line(b.subrange(0, cl)) == Ok::<
        (Method, Seq<char>, Version),
        (ErrorKind, Seq<u8>),
    >((m, t, v)));
    assert(parse_headers_from(b, cl + 2, Map::empty()) == Ok::<
        (Map<HeaderName, Seq<char>>, int),
        (ErrorKind, Seq<u8>),
    >((table_of(hs), q)));
}

} // verus!
