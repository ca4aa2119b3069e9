//! What can go wrong while reading a request off the wire.

use vstd::prelude::*;

verus! {

/// The kinds of parse failure, without their context.
#[derive(Clone, Copy, PartialEq, Eq, Structural, Debug, Hash)]
pub enum ErrorKind {
    UnknownMethod,
    InvalidTarget,
    UnrecognizedVersion,
    UnsupportedVersion,
    MalformedRequestLine,
    MalformedHeaderLine,
    UnknownHeaderName,
    TruncatedBody,
    InvalidUtf8,
    Incomplete,
}

/// A parse failure, with the bytes that caused it.
///
/// `Incomplete` and `TruncatedBody` say that the buffer ends before the message does:
/// more input may still make it whole. Every other kind is final for the bytes given.
#[derive(Clone, PartialEq, Eq, Debug)]
pub enum RequestError {
    /// The method token is none of the eight known verbs.
    UnknownMethod(Vec<u8>),
    /// The request target is empty or holds a space.
    InvalidTarget(Vec<u8>),
    /// The version token is not one that the protocol defines.
    UnrecognizedVersion(Vec<u8>),
    /// The version is known but not served here.
    UnsupportedVersion(Vec<u8>),
    /// The request line does not hold exactly three tokens.
    MalformedRequestLine(Vec<u8>),
    /// A header line holds no colon.
    MalformedHeaderLine(Vec<u8>),
    /// A header name outside the known set.
    UnknownHeaderName(Vec<u8>),
    /// Fewer body bytes arrived than Content-Length declares; holds those that did.
    TruncatedBody(Vec<u8>),
    /// A target or header value that is not UTF-8.
    InvalidUtf8(Vec<u8>),
    /// The buffer ends inside the request line or the headers.
    Incomplete,
}

impl View for RequestError {
    type V = (ErrorKind, Seq<u8>);

    open spec fn view(&self) -> (ErrorKind, Seq<u8>) {
        match self {
            RequestError::UnknownMethod(b) => (ErrorKind::UnknownMethod, b@),
            RequestError::InvalidTarget(b) => (ErrorKind::InvalidTarget, b@),
            RequestError::UnrecognizedVersion(b) => (ErrorKind::UnrecognizedVersion, b@),
            RequestError::UnsupportedVersion(b) => (ErrorKind::UnsupportedVersion, b@),
            RequestError::MalformedRequestLine(b) => (ErrorKind::MalformedRequestLine, b@),
            RequestError::MalformedHeaderLine(b) => (ErrorKind::MalformedHeaderLine, b@),
            RequestError::UnknownHeaderName(b) => (ErrorKind::UnknownHeaderName, b@),
            RequestError::TruncatedBody(b) => (ErrorKind::TruncatedBody, b@),
            RequestError::InvalidUtf8(b) => (ErrorKind::InvalidUtf8, b@),
            RequestError::Incomplete => (ErrorKind::Incomplete, Seq::empty()),
        }
    }
}

impl ErrorKind {
    /// Whether more input may still turn the buffer into a request.
    pub open spec fn spec_needs_more_input(self) -> bool {
        self == ErrorKind::Incomplete || self == ErrorKind::TruncatedBody
    }
}

impl RequestError {
    pub fn kind(&self) -> (r: ErrorKind)
        ensures
            r == self@.0,
    {
        match self {
            RequestError::UnknownMethod(_) => ErrorKind::UnknownMethod,
            RequestError::InvalidTarget(_) => ErrorKind::InvalidTarget,
            RequestError::UnrecognizedVersion(_) => ErrorKind::UnrecognizedVersion,
            RequestError::UnsupportedVersion(_) => ErrorKind::UnsupportedVersion,
            RequestError::MalformedRequestLine(_) => ErrorKind::MalformedRequestLine,
            RequestError::MalformedHeaderLine(_) => ErrorKind::MalformedHeaderLine,
            RequestError::UnknownHeaderName(_) => ErrorKind::UnknownHeaderName,
            RequestError::TruncatedBody(_) => ErrorKind::TruncatedBody,
            RequestError::InvalidUtf8(_) => ErrorKind::InvalidUtf8,
            RequestError::Incomplete => ErrorKind::Incomplete,
        }
    }

    /// Whether the buffer only ended too early, so that reading more may complete it.
    pub fn needs_more_input(&self) -> (r: bool)
        ensures
            r == self@.0.spec_needs_more_input(),
    {
        match self {
            RequestError::Incomplete | RequestError::TruncatedBody(_) => true,
            _ => false,
        }
    }
}

} // verus!
