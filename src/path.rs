//! Request targets.

use vstd::prelude::*;
use vstd::slice::slice_to_vec;
use vstd::string::StrSliceExecFns;
use vstd::utf8::{decode_utf8, encode_utf8, valid_utf8};

use crate::error::{ErrorKind, RequestError};
use crate::text::utf8_str;
use crate::wire::{find_byte, first_byte, SP};

verus! {

broadcast use vstd::utf8::encode_utf8_decode_utf8;

/// A request target: non-empty text without spaces, kept as given.
#[derive(Clone, PartialEq, Eq, Debug, Hash)]
pub struct Path(String);

impl View for Path {
    type V = Seq<char>;

    closed spec fn view(&self) -> Seq<char> {
        self.0@
    }
}

/// Whether `p` is a prefix of `s`.
pub open spec fn text_prefix(p: Seq<char>, s: Seq<char>) -> bool {
    p.len() <= s.len() && s.subrange(0, p.len() as int) == p
}

/// What a target token means: an error where it is empty or holds a space, or is not
/// UTF-8; else its text.
pub open spec fn parse_target(t: Seq<u8>) -> Result<Seq<char>, (ErrorKind, Seq<u8>)> {
    if t.len() == 0 || first_byte(t, SP, 0) is Some {
        Err((ErrorKind::InvalidTarget, t))
    } else if !valid_utf8(t) {
        Err((ErrorKind::InvalidUtf8, t))
    } else {
        Ok(decode_utf8(t))
    }
}

impl Path {
    pub fn new(path: &str) -> (r: Path)
        ensures
            r@ == path@,
    {
        Path(path.to_owned())
    }

    /// Reads a target token.
    pub fn parse(token: &[u8]) -> (r: Result<Path, RequestError>)
        ensures
            match parse_target(token@) {
                Ok(t) => r is Ok && r->Ok_0@ == t,
                Err(f) => r is Err && r->Err_0@ == f,
            },
    {
        if token.len() == 0 || find_byte(token, SP, 0).is_some() {
            return Err(RequestError::InvalidTarget(slice_to_vec(token)));
        }
        match utf8_str(token) {
            None => Err(RequestError::InvalidUtf8(slice_to_vec(token))),
            Some(s) => {
                assert(s@ == decode_utf8(token@)) by {
                    assert(decode_utf8(encode_utf8(s@)) == s@);
                }
                Ok(Path(s.to_owned()))
            },
        }
    }

    pub fn as_str(&self) -> (r: &str)
        ensures
            r@ == self@,
    {
        self.0.as_str()
    }

    /// Whether the target starts with `pattern`.
    pub fn starts_with(&self, pattern: &str) -> (r: bool)
        ensures
            r == text_prefix(pattern@, self@),
    {
        let s = self.0.as_str();
        let n = pattern.unicode_len();
        if n > s.unicode_len() {
            return false;
        }
        let mut i: usize = 0;
        while i < n
            invariant
                n == pattern@.len(),
                n <= s@.len(),
                s@ == self@,
                i <= n,
                forall|j: int| 0 <= j < i ==> s@[j] == pattern@[j],
            decreases n - i,
        {
            if s.get_char(i) != pattern.get_char(i) {
                return false;
            }
            i = i + 1;
        }
        assert(s@.subrange(0, n as int) =~= pattern@);
        true
    }

    /// The rest of the target after `prefix`, where it starts with `prefix`.
    pub fn strip_prefix(&self, prefix: &str) -> (r: Option<Path>)
        ensures
            match r {
                Some(p) => text_prefix(prefix@, self@) && p@ == self@.subrange(
                    prefix@.len() as int,
                    self@.len() as int,
                ),
                None => !text_prefix(prefix@, self@),
            },
    {
        if !self.starts_with(prefix) {
            return None;
        }
        let s = self.0.as_str();
        let rest = s.substring_char(prefix.unicode_len(), s.unicode_len());
        Some(Path(rest.to_owned()))
    }

    /// Whether the target is exactly `text`.
    pub fn equals(&self, text: &str) -> (r: bool)
        ensures
            r == (self@ == text@),
    {
        let same = self.starts_with(text) && self.0.as_str().unicode_len() == text.unicode_len();
        proof {
            if same {
                assert(self@ =~= text@);
            }
            if self@ == text@ {
                assert(self@.subrange(0, text@.len() as int) =~= text@);
            }
        }
        same
    }
}

} // verus!
