//! Request methods.

use vstd::prelude::*;
use vstd::slice::slice_to_vec;

use crate::error::{ErrorKind, RequestError};
use crate::wire::same_bytes;

verus! {

/// The request verbs of HTTP/1.1.
#[derive(Clone, Copy, PartialEq, Eq, Structural, Debug, Hash)]
pub enum Method {
    Get,
    Head,
    Post,
    Put,
    Delete,
    Connect,
    Options,
    Trace,
}

/// Another name for [`Method`].
pub type HttpMethod = Method;

/// The method that a token names exactly, byte for byte.
pub open spec fn method_of(t: Seq<u8>) -> Option<Method> {
    if t == Method::Get.token() {
        Some(Method::Get)
    } else if t == Method::Head.token() {
        Some(Method::Head)
    } else if t == Method::Post.token() {
        Some(Method::Post)
    } else if t == Method::Put.token() {
        Some(Method::Put)
    } else if t == Method::Delete.token() {
        Some(Method::Delete)
    } else if t == Method::Connect.token() {
        Some(Method::Connect)
    } else if t == Method::Options.token() {
        Some(Method::Options)
    } else if t == Method::Trace.token() {
        Some(Method::Trace)
    } else {
        None
    }
}

impl Method {
    /// The method's token on the wire.
    pub open spec fn token(self) -> Seq<u8> {
        match self {
            Method::Get => seq![71u8, 69, 84],
            Method::Head => seq![72u8, 69, 65, 68],
            Method::Post => seq![80u8, 79, 83, 84],
            Method::Put => seq![80u8, 85, 84],
            Method::Delete => seq![68u8, 69, 76, 69, 84, 69],
            Method::Connect => seq![67u8, 79, 78, 78, 69, 67, 84],
            Method::Options => seq![79u8, 80, 84, 73, 79, 78, 83],
            Method::Trace => seq![84u8, 82, 65, 67, 69],
        }
    }

    pub fn to_bytes(&self) -> (r: Vec<u8>)
        ensures
            r@ == self.token(),
    {
        match self {
            Method::Get => vec![71u8, 69, 84],
            Method::Head => vec![72u8, 69, 65, 68],
            Method::Post => vec![80u8, 79, 83, 84],
            Method::Put => vec![80u8, 85, 84],
            Method::Delete => vec![68u8, 69, 76, 69, 84, 69],
            Method::Connect => vec![67u8, 79, 78, 78, 69, 67, 84],
            Method::Options => vec![79u8, 80, 84, 73, 79, 78, 83],
            Method::Trace => vec![84u8, 82, 65, 67, 69],
        }
    }

    /// Reads a method token; matching is exact and case-sensitive.
    pub fn parse(token: &[u8]) -> (r: Result<Method, RequestError>)
        ensures
            match method_of(token@) {
                Some(m) => r == Ok::<Method, RequestError>(m),
                None => r is Err && r->Err_0@ == (ErrorKind::UnknownMethod, token@),
            },
    {
        let all = [
            Method::Get,
            Method::Head,
            Method::Post,
            Method::Put,
            Method::Delete,
            Method::Connect,
            Method::Options,
            Method::Trace,
        ];
        let mut i: usize = 0;
        while i < 8
            invariant
                all@ == seq![
                    Method::Get,
                    Method::Head,
                    Method::Post,
                    Method::Put,
                    Method::Delete,
                    Method::Connect,
                    Method::Options,
                    Method::Trace,
                ],
                i <= 8,
                forall|j: int| 0 <= j < i ==> token@ != (#[trigger] all@[j]).token(),
            decreases 8 - i,
        {
            let m = all[i];
            if same_bytes(token, m.to_bytes().as_slice()) {
                return Ok(m);
            }
            i = i + 1;
        }
        assert(token@ != all@[0].token());
        assert(token@ != all@[1].token());
        assert(token@ != all@[2].token());
        assert(token@ != all@[3].token());
        assert(token@ != all@[4].token());
        assert(token@ != all@[5].token());
        assert(token@ != all@[6].token());
        assert(token@ != all@[7].token());
        Err(RequestError::UnknownMethod(slice_to_vec(token)))
    }
}

/// Each method's token reads back as that method.
pub proof fn lemma_method_token(m: Method)
    ensures
        method_of(m.token()) == Some(m),
{
    let t = m.token();
    if m != Method::Get {
        assert(t != Method::Get.token()) by {
            if t.len() == 3 {
                assert(t[0] != Method::Get.token()[0]);
            }
        }
    }
    if m != Method::Head && m != Method::Get {
        assert(t != Method::Head.token()) by {
            if t.len() == 4 {
                assert(t[0] != Method::Head.token()[0]);
            }
        }
    }
    if m != Method::Post && m != Method::Head && m != Method::Get {
        assert(t != Method::Post.token()) by {
            if t.len() == 4 {
                assert(t[0] != Method::Post.token()[0]);
            }
        }
    }
    if m != Method::Put && m != Method::Post && m != Method::Head && m != Method::Get {
        assert(t != Method::Put.token()) by {
            if t.len() == 3 {
                assert(t[0] != Method::Put.token()[0]);
            }
        }
    }
    if m == Method::Options || m == Method::Trace {
        assert(t != Method::Delete.token());
        assert(t != Method::Connect.token()) by {
            if t.len() == 7 {
                assert(t[0] != Method::Connect.token()[0]);
            }
        }
    }
    if m == Method::Trace {
        assert(t != Method::Options.token());
    }
}

/// Method tokens hold neither a space nor a carriage return.
pub proof fn lemma_method_token_plain(m: Method)
    ensures
        m.token().len() > 0,
        forall|i: int| 0 <= i < m.token().len() ==> m.token()[i] != 13 && m.token()[i] != 32,
{
    let t = m.token();
    assert forall|i: int| 0 <= i < t.len() implies t[i] != 13 && t[i] != 32 by {
        match m {
            Method::Get => assert(t[i] == seq![71u8, 69, 84][i]),
            Method::Head => assert(t[i] == seq![72u8, 69, 65, 68][i]),
            Method::Post => assert(t[i] == seq![80u8, 79, 83, 84][i]),
            Method::Put => assert(t[i] == seq![80u8, 85, 84][i]),
            Method::Delete => assert(t[i] == seq![68u8, 69, 76, 69, 84, 69][i]),
            Method::Connect => assert(t[i] == seq![67u8, 79, 78, 78, 69, 67, 84][i]),
            Method::Options => assert(t[i] == seq![79u8, 80, 84, 73, 79, 78, 83][i]),
            Method::Trace => assert(t[i] == seq![84u8, 82, 65, 67, 69][i]),
        }
    }
}

} // verus!
