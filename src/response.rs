//! Responses, and their bytes on the wire.

use vstd::prelude::*;
use vstd::utf8::{decode_utf8, valid_utf8};

use crate::body::Body;
use crate::headers::{
    header_line, lemma_lines_wire_valid, lines_wire, table_entries, HeaderName, Headers,
};
use crate::request::{body_bytes, declared_length};
use crate::response_builder::ResponseBuilder;
use crate::status_line::{lemma_status_line_valid, Status, StatusLine};
use crate::text::{lossy_string, lossy_text};
use crate::wire::{
    crlf, decimal_digits, is_digit, lemma_ascii_valid_utf8, lemma_decimal_round_trip, CR, LF,
};

verus! {

/// The headers that a body determines. A body brings `Content-Type: text/plain` and its
/// byte length as Content-Length; no body brings no header at all, Content-Length
/// included.
pub open spec fn derived_headers(body: Option<Seq<u8>>) -> Map<HeaderName, Seq<char>> {
    match body {
        Some(b) => Map::empty().insert(HeaderName::ContentType, "text/plain"@).insert(
            HeaderName::ContentLength,
            decode_utf8(decimal_digits(b.len())),
        ),
        None => Map::empty(),
    }
}

/// A finished response: a status line, the headers its body determines, and the body.
#[derive(Clone, PartialEq, Eq, Debug)]
pub struct Response {
    status_line: StatusLine,
    headers: Headers,
    body: Option<Body>,
}

impl Response {
    pub closed spec fn spec_status_line(self) -> StatusLine {
        self.status_line
    }

    pub closed spec fn spec_headers(self) -> Map<HeaderName, Seq<char>> {
        self.headers@
    }

    pub closed spec fn spec_body(self) -> Option<Seq<u8>> {
        body_bytes(self.body)
    }

    /// Every response's headers are the ones its body determines.
    pub open spec fn wf(self) -> bool {
        self.spec_headers() == derived_headers(self.spec_body())
    }

    /// The response on the wire: status line, header lines, a blank line, the body's
    /// bytes as they are.
    pub open spec fn wire(self) -> Seq<u8> {
        self.spec_status_line().wire() + lines_wire(table_entries(self.spec_headers())) + crlf()
            + match self.spec_body() {
            Some(b) => b,
            None => Seq::empty(),
        }
    }

    /// Assembles a response from parts that already agree with each other.
    pub fn new(status_line: StatusLine, headers: Headers, body: Option<Body>) -> (r: Response)
        requires
            headers@ == derived_headers(body_bytes(body)),
        ensures
            r.wf(),
            r.spec_status_line() == status_line,
            r.spec_headers() == headers@,
            r.spec_body() == body_bytes(body),
    {
        Response { status_line, headers, body }
    }

    /// A builder for a 200 OK response.
    pub fn ok() -> (r: ResponseBuilder)
        ensures
            r.spec_status() == Some(Status::Success),
            r.spec_body() is None,
    {
        ResponseBuilder::default().set_status(Status::Success)
    }

    /// A builder for a 201 Created response.
    pub fn created() -> (r: ResponseBuilder)
        ensures
            r.spec_status() == Some(Status::Created),
            r.spec_body() is None,
    {
        ResponseBuilder::default().set_status(Status::Created)
    }

    /// A builder for a 404 Not Found response.
    pub fn not_found() -> (r: ResponseBuilder)
        ensures
            r.spec_status() == Some(Status::NotFound),
            r.spec_body() is None,
    {
        ResponseBuilder::default().set_status(Status::NotFound)
    }

    /// A builder for a 500 Internal Server Error response.
    pub fn internal_server_error() -> (r: ResponseBuilder)
        ensures
            r.spec_status() == Some(Status::InternalServerError),
            r.spec_body() is None,
    {
        ResponseBuilder::default().set_status(Status::InternalServerError)
    }

    /// A builder for a 400 Bad Request response.
    pub fn bad_request() -> (r: ResponseBuilder)
        ensures
            r.spec_status() == Some(Status::BadRequest),
            r.spec_body() is None,
    {
        ResponseBuilder::default().set_status(Status::BadRequest)
    }

    pub fn status_line(&self) -> (r: StatusLine)
        ensures
            r == self.spec_status_line(),
    {
        self.status_line
    }

    pub fn status(&self) -> (r: Status)
        ensures
            r == self.spec_status_line().status,
    {
        self.status_line.status
    }

    pub fn headers(&self) -> (r: &Headers)
        ensures
            r@ == self.spec_headers(),
    {
        &self.headers
    }

    pub fn body(&self) -> (r: Option<&Body>)
        ensures
            match r {
                Some(b) => self.spec_body() == Some(b.bytes()),
                None => self.spec_body() is None,
            },
    {
        self.body.as_ref()
    }

    /// The response's bytes on the wire.
    pub fn to_bytes(&self) -> (r: Vec<u8>)
        ensures
            r@ == self.wire(),
    {
        let mut out = self.status_line.to_bytes();
        let mut lines = self.headers.to_bytes();
        out.append(&mut lines);
        out.push(CR);
        out.push(LF);
        match &self.body {
            Some(b) => {
                out.extend_from_slice(b.as_bytes());
            },
            None => {},
        }
        assert(out@ =~= self.wire());
        out
    }

    /// The response as text; bytes of the body that are not UTF-8 are replaced.
    pub fn to_string(&self) -> (r: String)
        ensures
            r@ == lossy_text(self.wire()),
            valid_utf8(self.wire()) ==> r@ == decode_utf8(self.wire()),
    {
        let b = self.to_bytes();
        lossy_string(b.as_slice())
    }
}

/// Every response's Content-Length, read as a number, is its body's length in bytes,
/// and a body goes with `Content-Type: text/plain`. A response without a body carries
/// neither header.
pub proof fn lemma_content_length_matches_body(r: Response)
    requires
        r.wf(),
    ensures
        match r.spec_body() {
            Some(b) => declared_length(r.spec_headers()) == Some(b.len())
                && r.spec_headers()[HeaderName::ContentType] == "text/plain"@,
            None => !r.spec_headers().contains_key(HeaderName::ContentLength)
                && !r.spec_headers().contains_key(HeaderName::ContentType),
        },
{
    if let Some(b) = r.spec_body() {
        let digits = decimal_digits(b.len());
        lemma_decimal_round_trip(b.len());
        assert forall|i: int| 0 <= i < digits.len() implies digits[i] <= 0x7f by {
            assert(is_digit(digits[i]));
        }
        lemma_ascii_valid_utf8(digits);
        vstd::utf8::decode_utf8_encode_utf8(digits);
        assert(r.spec_headers()[HeaderName::ContentLength] == decode_utf8(digits));
    }
}

/// What a response puts on the wire: its status line; where it has a body,
/// `Content-Type: text/plain` and the body's byte length as Content-Length; the blank
/// line; the body's bytes as they are. Where the body is absent or is UTF-8, so is the
/// whole.
pub proof fn lemma_response_wire(r: Response)
    requires
        r.wf(),
    ensures
        match r.spec_body() {
            Some(b) => r.wire() == r.spec_status_line().wire() + header_line(
                HeaderName::ContentType,
                "text/plain"@,
            ) + header_line(HeaderName::ContentLength, decode_utf8(decimal_digits(b.len())))
                + crlf() + b,
            None => r.wire() == r.spec_status_line().wire() + crlf(),
        },
        (r.spec_body() matches Some(b) ==> valid_utf8(b)) ==> valid_utf8(r.wire()),
{
    let m = r.spec_headers();
    let es = table_entries(m);
    match r.spec_body() {
        Some(b) => {
            let ct = (HeaderName::ContentType, "text/plain"@);
            let cl = (HeaderName::ContentLength, decode_utf8(decimal_digits(b.len())));
            assert(es =~= seq![ct, cl]);
            assert(seq![ct, cl].drop_first() =~= seq![cl]);
            assert(seq![cl].drop_first() =~= Seq::<(HeaderName, Seq<char>)>::empty());
            assert(lines_wire(seq![cl].drop_first()) =~= Seq::<u8>::empty());
            assert(lines_wire(seq![cl]) =~= header_line(cl.0, cl.1));
            assert(lines_wire(es) =~= header_line(ct.0, ct.1) + header_line(cl.0, cl.1));
            assert(r.wire() =~= r.spec_status_line().wire() + header_line(ct.0, ct.1)
                + header_line(cl.0, cl.1) + crlf() + b);
        },
        None => {
            assert(es =~= Seq::<(HeaderName, Seq<char>)>::empty());
            assert(r.wire() =~= r.spec_status_line().wire() + crlf());
        },
    }
    let head = r.spec_status_line().wire() + lines_wire(es);
    lemma_status_line_valid(r.spec_status_line());
    lemma_lines_wire_valid(es);
    lemma_ascii_valid_utf8(crlf());
    vstd::utf8::valid_utf8_concat(r.spec_status_line().wire(), lines_wire(es));
    vstd::utf8::valid_utf8_concat(head, crlf());
    match r.spec_body() {
        Some(b) => {
            if valid_utf8(b) {
                vstd::utf8::valid_utf8_concat(head + crlf(), b);
            }
        },
        None => {
            assert(head + crlf() + Seq::<u8>::empty() =~= head + crlf());
        },
    }
}

} // verus!
