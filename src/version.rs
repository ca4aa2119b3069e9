//! Protocol versions.

use vstd::prelude::*;
use vstd::slice::slice_to_vec;

use crate::error::{ErrorKind, RequestError};
use crate::wire::same_bytes;

verus! {

/// The protocol versions that a request line may name.
#[derive(Clone, Copy, PartialEq, Eq, Structural, Debug, Hash)]
pub enum Version {
    ZeroPointNine,
    OnePointZero,
    OnePointOne,
    Two,
    Three,
}

/// Another name for [`Version`].
pub type HttpVersion = Version;

/// The version that a token names exactly, byte for byte.
pub open spec fn version_of(t: Seq<u8>) -> Option<Version> {
    if t == Version::ZeroPointNine.token() {
        Some(Version::ZeroPointNine)
    } else if t == Version::OnePointZero.token() {
        Some(Version::OnePointZero)
    } else if t == Version::OnePointOne.token() {
        Some(Version::OnePointOne)
    } else if t == Version::Two.token() {
        Some(Version::Two)
    } else if t == Version::Three.token() {
        Some(Version::Three)
    } else {
        None
    }
}

impl Version {
    /// The version's token on the wire.
    pub open spec fn token(self) -> Seq<u8> {
        match self {
            Version::ZeroPointNine => seq![72u8, 84, 84, 80, 47, 48, 46, 57],
            Version::OnePointZero => seq![72u8, 84, 84, 80, 47, 49, 46, 48],
            Version::OnePointOne => seq![72u8, 84, 84, 80, 47, 49, 46, 49],
            Version::Two => seq![72u8, 84, 84, 80, 47, 50],
            Version::Three => seq![72u8, 84, 84, 80, 47, 51],
        }
    }

    /// Whether requests of this version are served: HTTP/1.1 alone. The other versions
    /// are recognised only to be refused.
    pub open spec fn supported(self) -> bool {
        self == Version::OnePointOne
    }

    pub fn to_bytes(&self) -> (r: Vec<u8>)
        ensures
            r@ == self.token(),
    {
        match self {
            Version::ZeroPointNine => vec![72u8, 84, 84, 80, 47, 48, 46, 57],
            Version::OnePointZero => vec![72u8, 84, 84, 80, 47, 49, 46, 48],
            Version::OnePointOne => vec![72u8, 84, 84, 80, 47, 49, 46, 49],
            Version::Two => vec![72u8, 84, 84, 80, 47, 50],
            Version::Three => vec![72u8, 84, 84, 80, 47, 51],
        }
    }

    /// Reads a version token; matching is exact and case-sensitive.
    pub fn parse(token: &[u8]) -> (r: Result<Version, RequestError>)
        ensures
            match version_of(token@) {
                Some(v) => if v.supported() {
                    r == Ok::<Version, RequestError>(v)
                } else {
                    r is Err && r->Err_0@ == (ErrorKind::UnsupportedVersion, token@)
                },
                None => r is Err && r->Err_0@ == (ErrorKind::UnrecognizedVersion, token@),
            },
    {
        let all = [
            Version::ZeroPointNine,
            Version::OnePointZero,
            Version::OnePointOne,
            Version::Two,
            Version::Three,
        ];
        let mut i: usize = 0;
        while i < 5
            invariant
                all@ == seq![
                    Version::ZeroPointNine,
                    Version::OnePointZero,
                    Version::OnePointOne,
                    Version::Two,
                    Version::Three,
                ],
                i <= 5,
                forall|j: int| 0 <= j < i ==> token@ != (#[trigger] all@[j]).token(),
            decreases 5 - i,
        {
            let v = all[i];
            if same_bytes(token, v.to_bytes().as_slice()) {
                if i != 2 {
                    return Err(RequestError::UnsupportedVersion(slice_to_vec(token)));
                }
                return Ok(v);
            }
            i = i + 1;
        }
        assert(token@ != all@[0].token());
        assert(token@ != all@[1].token());
        assert(token@ != all@[2].token());
        assert(token@ != all@[3].token());
        assert(token@ != all@[4].token());
        Err(RequestError::UnrecognizedVersion(slice_to_vec(token)))
    }
}

/// Each version's token reads back as that version.
pub proof fn lemma_version_token(v: Version)
    ensures
        version_of(v.token()) == Some(v),
{
    let t = v.token();
    if v != Version::ZeroPointNine {
        assert(t != Version::ZeroPointNine.token()) by {
            if t.len() == 8 {
                assert(t[5] != Version::ZeroPointNine.token()[5] || t[7]
                    != Version::ZeroPointNine.token()[7]);
            }
        }
    }
    if v == Version::OnePointOne || v == Version::Two || v == Version::Three {
        assert(t != Version::OnePointZero.token()) by {
            if t.len() == 8 {
                assert(t[7] != Version::OnePointZero.token()[7]);
            }
        }
    }
    if v == Version::Two || v == Version::Three {
        assert(t != Version::OnePointOne.token());
    }
    if v == Version::Three {
        assert(t != Version::Two.token()) by {
            assert(t[5] != Version::Two.token()[5]);
        }
    }
}

/// Version tokens are ASCII and hold neither a space nor a carriage return.
pub proof fn lemma_version_token_plain(v: Version)
    ensures
        v.token().len() > 0,
        forall|i: int|
            0 <= i < v.token().len() ==> v.token()[i] != 13 && v.token()[i] != 32
                && v.token()[i] <= 0x7f,
{
    let t = v.token();
    assert forall|i: int| 0 <= i < t.len() implies t[i] != 13 && t[i] != 32 && t[i] <= 0x7f by {
        match v {
            Version::ZeroPointNine => assert(t[i] == seq![72u8, 84, 84, 80, 47, 48, 46, 57][i]),
            Version::OnePointZero => assert(t[i] == seq![72u8, 84, 84, 80, 47, 49, 46, 48][i]),
            Version::OnePointOne => assert(t[i] == seq![72u8, 84, 84, 80, 47, 49, 46, 49][i]),
            Version::Two => assert(t[i] == seq![72u8, 84, 84, 80, 47, 50][i]),
            Version::Three => assert(t[i] == seq![72u8, 84, 84, 80, 47, 51][i]),
        }
    }
}

} // verus!
