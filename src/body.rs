//! Message bodies.

use vstd::prelude::*;
use vstd::utf8::encode_utf8;

verus! {

/// A message body: text, or bytes of any kind.
#[derive(Clone, PartialEq, Eq, Debug, Hash)]
pub enum Body {
    PlainText(String),
    OctetStream(Vec<u8>),
}

impl Body {
    /// The body's bytes on the wire.
    pub open spec fn bytes(self) -> Seq<u8> {
        match self {
            Body::PlainText(s) => encode_utf8(s@),
            Body::OctetStream(b) => b@,
        }
    }

    /// A text body.
    pub fn new(body: &str) -> (r: Body)
        ensures
            r is PlainText && r->PlainText_0@ == body@,
            r.bytes() == encode_utf8(body@),
    {
        Body::PlainText(body.to_owned())
    }

    /// The body's length in bytes.
    pub fn len(&self) -> (r: usize)
        ensures
            r == self.bytes().len(),
    {
        match self {
            Body::PlainText(s) => s.as_str().as_bytes().len(),
            Body::OctetStream(b) => b.len(),
        }
    }

    pub fn as_bytes(&self) -> (r: &[u8])
        ensures
            r@ == self.bytes(),
    {
        match self {
            Body::PlainText(s) => s.as_str().as_bytes(),
            Body::OctetStream(b) => b.as_slice(),
        }
    }
}

} // verus!
