//! Response status lines.

use vstd::prelude::*;

use vstd::utf8::{decode_utf8, valid_utf8};

use crate::text::{lossy_string, lossy_text};
use crate::version::{lemma_version_token_plain, Version};
use crate::wire::{crlf, lemma_ascii_valid_utf8, CR, LF, SP};

verus! {

/// The response statuses this server sends.
#[derive(Clone, Copy, PartialEq, Eq, Structural, Debug, Hash)]
pub enum Status {
    Success,
    NotFound,
    InternalServerError,
    Created,
    BadRequest,
}

impl Status {
    pub open spec fn spec_code(self) -> u16 {
        match self {
            Status::Success => 200,
            Status::Created => 201,
            Status::BadRequest => 400,
            Status::NotFound => 404,
            Status::InternalServerError => 500,
        }
    }

    /// The code and reason phrase, as they stand on the wire.
    pub open spec fn text(self) -> Seq<u8> {
        match self {
            Status::Success => seq![50u8, 48, 48, 32, 79, 75],
            Status::Created => seq![50u8, 48, 49, 32, 67, 114, 101, 97, 116, 101, 100],
            Status::BadRequest => seq![
                52u8, 48, 48, 32, 66, 97, 100, 32, 82, 101, 113, 117, 101, 115, 116,
            ],
            Status::NotFound => seq![52u8, 48, 52, 32, 78, 111, 116, 32, 70, 111, 117, 110, 100],
            Status::InternalServerError => seq![
                53u8, 48, 48, 32, 73, 110, 116, 101, 114, 110, 97, 108, 32, 83, 101, 114, 118,
                101, 114, 32, 69, 114, 114, 111, 114,
            ],
        }
    }

    pub fn code(&self) -> (r: u16)
        ensures
            r == self.spec_code(),
    {
        match self {
            Status::Success => 200,
            Status::Created => 201,
            Status::BadRequest => 400,
            Status::NotFound => 404,
            Status::InternalServerError => 500,
        }
    }

    pub fn to_bytes(&self) -> (r: Vec<u8>)
        ensures
            r@ == self.text(),
    {
        match self {
            Status::Success => vec![50u8, 48, 48, 32, 79, 75],
            Status::Created => vec![50u8, 48, 49, 32, 67, 114, 101, 97, 116, 101, 100],
            Status::BadRequest => vec![
                52u8, 48, 48, 32, 66, 97, 100, 32, 82, 101, 113, 117, 101, 115, 116,
            ],
            Status::NotFound => vec![52u8, 48, 52, 32, 78, 111, 116, 32, 70, 111, 117, 110, 100],
            Status::InternalServerError => vec![
                53u8, 48, 48, 32, 73, 110, 116, 101, 114, 110, 97, 108, 32, 83, 101, 114, 118,
                101, 114, 32, 69, 114, 114, 111, 114,
            ],
        }
    }
}

/// The first line of a response: a version and a status.
#[derive(Clone, Copy, PartialEq, Eq, Structural, Debug, Hash)]
pub struct StatusLine {
    pub http_version: Version,
    pub status: Status,
}

impl StatusLine {
    /// The HTTP/1.1 status line of a status.
    pub open spec fn make(status: Status) -> StatusLine {
        StatusLine { http_version: Version::OnePointOne, status }
    }

    /// `version SP code SP reason CRLF`.
    pub open spec fn wire(self) -> Seq<u8> {
        self.http_version.token() + seq![SP] + self.status.text() + crlf()
    }

    pub fn make_http_1_1_status_line(status: Status) -> (r: StatusLine)
        ensures
            r == (StatusLine { http_version: Version::OnePointOne, status }),
    {
        StatusLine { http_version: Version::OnePointOne, status }
    }

    pub fn ok() -> (r: StatusLine)
        ensures
            r == (StatusLine { http_version: Version::OnePointOne, status: Status::Success }),
    {
        StatusLine::make_http_1_1_status_line(Status::Success)
    }

    pub fn not_found() -> (r: StatusLine)
        ensures
            r == (StatusLine { http_version: Version::OnePointOne, status: Status::NotFound }),
    {
        StatusLine::make_http_1_1_status_line(Status::NotFound)
    }

    pub fn internal_server_error() -> (r: StatusLine)
        ensures
            r == (StatusLine {
                http_version: Version::OnePointOne,
                status: Status::InternalServerError,
            }),
    {
        StatusLine::make_http_1_1_status_line(Status::InternalServerError)
    }

    pub fn to_bytes(&self) -> (r: Vec<u8>)
        ensures
            r@ == self.wire(),
    {
        let mut out = self.http_version.to_bytes();
        out.push(SP);
        let mut text = self.status.to_bytes();
        out.append(&mut text);
        out.push(CR);
        out.push(LF);
        assert(out@ =~= self.wire());
        out
    }

    pub fn to_string(&self) -> (r: String)
        ensures
            r@ == lossy_text(self.wire()),
            r@ == decode_utf8(self.wire()),
    {
        let b = self.to_bytes();
        proof {
            lemma_status_line_valid(*self);
        }
        lossy_string(b.as_slice())
    }
}

/// Status texts are ASCII.
pub proof fn lemma_status_text_ascii(s: Status)
    ensures
        forall|i: int| 0 <= i < s.text().len() ==> s.text()[i] <= 0x7f,
{
    let t = s.text();
    assert forall|i: int| 0 <= i < t.len() implies t[i] <= 0x7f by {
        match s {
            Status::Success => assert(t[i] == seq![50u8, 48, 48, 32, 79, 75][i]),
            Status::Created => assert(
                t[i] == seq![50u8, 48, 49, 32, 67, 114, 101, 97, 116, 101, 100][i]
            ),
            Status::BadRequest => assert(t[i] == seq![
                52u8, 48, 48, 32, 66, 97, 100, 32, 82, 101, 113, 117, 101, 115, 116,
            ][i]),
            Status::NotFound => assert(
                t[i] == seq![52u8, 48, 52, 32, 78, 111, 116, 32, 70, 111, 117, 110, 100][i]
            ),
            Status::InternalServerError => assert(t[i] == seq![
                53u8, 48, 48, 32, 73, 110, 116, 101, 114, 110, 97, 108, 32, 83, 101, 114, 118,
                101, 114, 32, 69, 114, 114, 111, 114,
            ][i]),
        }
    }
}

/// A status line on the wire is ASCII, hence valid UTF-8.
pub proof fn lemma_status_line_valid(l: StatusLine)
    ensures
        valid_utf8(l.wire()),
{
    let w = l.wire();
    let v = l.http_version.token();
    let t = l.status.text();
    lemma_version_token_plain(l.http_version);
    lemma_status_text_ascii(l.status);
    assert forall|i: int| 0 <= i < w.len() implies w[i] <= 0x7f by {
        if i < v.len() {
            assert(w[i] == v[i]);
        } else if i == v.len() {
        } else if i < v.len() + 1 + t.len() {
            assert(w[i] == t[i - v.len() - 1]);
        }
    }
    lemma_ascii_valid_utf8(w);
}

} // verus!
