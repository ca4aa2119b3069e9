//! The header table: a value for each of a closed set of names.

use vstd::prelude::*;
use vstd::slice::{slice_subrange, slice_to_vec};
use vstd::utf8::{decode_utf8, encode_utf8, valid_utf8};

use crate::error::{ErrorKind, RequestError};
use crate::text::{lossy_string, lossy_text, utf8_str};
use crate::wire::{
    crlf, crlf_at, decimal, decimal_digits, find_byte, find_crlf, first_byte, first_crlf,
    lemma_ascii_valid_utf8, lemma_first_byte, lemma_first_byte_at, lemma_first_crlf, lemma_first_crlf_after_line,
    no_crlf, same_bytes, COLON, CR, LF, SP,
};

verus! {

broadcast use vstd::utf8::encode_utf8_decode_utf8;

/// The header names that this server reads and writes.
#[derive(Clone, Copy, PartialEq, Eq, Structural, Debug, Hash)]
pub enum HeaderName {
    Host,
    UserAgent,
    Accept,
    ContentType,
    ContentLength,
}

/// The header name that a token names exactly, byte for byte.
pub open spec fn header_name_of(t: Seq<u8>) -> Option<HeaderName> {
    if t == HeaderName::Host.token() {
        Some(HeaderName::Host)
    } else if t == HeaderName::UserAgent.token() {
        Some(HeaderName::UserAgent)
    } else if t == HeaderName::Accept.token() {
        Some(HeaderName::Accept)
    } else if t == HeaderName::ContentType.token() {
        Some(HeaderName::ContentType)
    } else if t == HeaderName::ContentLength.token() {
        Some(HeaderName::ContentLength)
    } else {
        None
    }
}

impl HeaderName {
    /// The name as it stands on the wire.
    pub open spec fn token(self) -> Seq<u8> {
        match self {
            HeaderName::Host => seq![72u8, 111, 115, 116],
            HeaderName::UserAgent => seq![85u8, 115, 101, 114, 45, 65, 103, 101, 110, 116],
            HeaderName::Accept => seq![65u8, 99, 99, 101, 112, 116],
            HeaderName::ContentType => seq![
                67u8, 111, 110, 116, 101, 110, 116, 45, 84, 121, 112, 101,
            ],
            HeaderName::ContentLength => seq![
                67u8, 111, 110, 116, 101, 110, 116, 45, 76, 101, 110, 103, 116, 104,
            ],
        }
    }

    pub fn to_bytes(&self) -> (r: Vec<u8>)
        ensures
            r@ == self.token(),
    {
        match self {
            HeaderName::Host => vec![72u8, 111, 115, 116],
            HeaderName::UserAgent => vec![85u8, 115, 101, 114, 45, 65, 103, 101, 110, 116],
            HeaderName::Accept => vec![65u8, 99, 99, 101, 112, 116],
            HeaderName::ContentType => vec![
                67u8, 111, 110, 116, 101, 110, 116, 45, 84, 121, 112, 101,
            ],
            HeaderName::ContentLength => vec![
                67u8, 111, 110, 116, 101, 110, 116, 45, 76, 101, 110, 103, 116, 104,
            ],
        }
    }

    /// Reads a header name; matching is exact and case-sensitive.
    pub fn parse(token: &[u8]) -> (r: Result<HeaderName, RequestError>)
        ensures
            match header_name_of(token@) {
                Some(n) => r == Ok::<HeaderName, RequestError>(n),
                None => r is Err && r->Err_0@ == (ErrorKind::UnknownHeaderName, token@),
            },
    {
        let all = [
            HeaderName::Host,
            HeaderName::UserAgent,
            HeaderName::Accept,
            HeaderName::ContentType,
            HeaderName::ContentLength,
        ];
        let mut i: usize = 0;
        while i < 5
            invariant
                all@ == seq![
                    HeaderName::Host,
                    HeaderName::UserAgent,
                    HeaderName::Accept,
                    HeaderName::ContentType,
                    HeaderName::ContentLength,
                ],
                i <= 5,
                forall|j: int| 0 <= j < i ==> token@ != (#[trigger] all@[j]).token(),
            decreases 5 - i,
        {
            let n = all[i];
            if same_bytes(token, n.to_bytes().as_slice()) {
                return Ok(n);
            }
            i = i + 1;
        }
        assert(token@ != all@[0].token());
        assert(token@ != all@[1].token());
        assert(token@ != all@[2].token());
        assert(token@ != all@[3].token());
        assert(token@ != all@[4].token());
        Err(RequestError::UnknownHeaderName(slice_to_vec(token)))
    }
}

/// Each name's token reads back as that name.
pub proof fn lemma_header_name_token(n: HeaderName)
    ensures
        header_name_of(n.token()) == Some(n),
{
    let t = n.token();
    if n != HeaderName::Host {
        assert(t != HeaderName::Host.token()) by {
            if t.len() == 4 {
                assert(t[0] != HeaderName::Host.token()[0]);
            }
        }
    }
    if n == HeaderName::ContentLength {
        assert(t != HeaderName::ContentType.token()) by {
            assert(t.len() != HeaderName::ContentType.token().len());
        }
    }
}

/// A header's text, kept as given.
#[derive(Clone, PartialEq, Eq, Debug, Hash)]
pub struct HeaderValue(String);

impl View for HeaderValue {
    type V = Seq<char>;

    closed spec fn view(&self) -> Seq<char> {
        self.0@
    }
}

impl HeaderValue {
    pub fn new(header_value: &str) -> (r: HeaderValue)
        ensures
            r@ == header_value@,
    {
        HeaderValue(header_value.to_owned())
    }

    pub fn as_str(&self) -> (r: &str)
        ensures
            r@ == self@,
    {
        self.0.as_str()
    }

    /// The value's bytes on the wire.
    pub fn to_bytes(&self) -> (r: Vec<u8>)
        ensures
            r@ == encode_utf8(self@),
    {
        slice_to_vec(self.0.as_str().as_bytes())
    }
}

/// Media types of the bodies this server sends.
#[derive(Clone, Copy, PartialEq, Eq, Structural, Debug, Hash, Default)]
pub enum ContentType {
    #[default]
    Text,
}

impl ContentType {
    /// The header value that names the media type.
    pub fn to_header_value(&self) -> (r: HeaderValue)
        ensures
            r@ == "text/plain"@,
    {
        HeaderValue::new("text/plain")
    }
}

/// One header line's content: a name and its value.
#[derive(Clone, PartialEq, Eq, Debug)]
pub struct Header(pub HeaderName, pub HeaderValue);

/// The number of spaces that `s` starts with.
pub open spec fn leading_spaces(s: Seq<u8>) -> nat
    decreases s.len(),
{
    if s.len() > 0 && s[0] == SP {
        1 + leading_spaces(s.drop_first())
    } else {
        0
    }
}

/// What a header line (without its terminator) holds: `name ":" *SP value`.
pub open spec fn parse_header_line(line: Seq<u8>) -> Result<
    (HeaderName, Seq<char>),
    (ErrorKind, Seq<u8>),
> {
    match first_byte(line, COLON, 0) {
        None => Err((ErrorKind::MalformedHeaderLine, line)),
        Some(c) => match header_name_of(line.subrange(0, c)) {
            None => Err((ErrorKind::UnknownHeaderName, line.subrange(0, c))),
            Some(n) => {
                let raw = line.subrange(c + 1, line.len() as int);
                let v = raw.subrange(leading_spaces(raw) as int, raw.len() as int);
                if valid_utf8(v) {
                    Ok((n, decode_utf8(v)))
                } else {
                    Err((ErrorKind::InvalidUtf8, v))
                }
            },
        },
    }
}

/// The header lines from position `p` up to and including the blank line that ends
/// them, read into `acc`: the table and the position after the blank line.
pub open spec fn parse_headers_from(b: Seq<u8>, p: int, acc: Map<HeaderName, Seq<char>>) -> Result<
    (Map<HeaderName, Seq<char>>, int),
    (ErrorKind, Seq<u8>),
>
    decreases b.len() - p,
{
    if p < 0 || p > b.len() {
        Err((ErrorKind::Incomplete, Seq::empty()))
    } else if crlf_at(b, p) {
        Ok((acc, p + 2))
    } else {
        match first_crlf(b, p) {
            Some(e) => if p <= e && e + 2 <= b.len() {
                match parse_header_line(b.subrange(p, e)) {
                    Ok((n, v)) => parse_headers_from(b, e + 2, acc.insert(n, v)),
                    Err(f) => Err(f),
                }
            } else {
                Err((ErrorKind::Incomplete, Seq::empty()))
            },
            None => Err((ErrorKind::Incomplete, Seq::empty())),
        }
    }
}

/// The table that a block of header lines makes: each line sets its name, the last
/// line of a name wins.
pub open spec fn table_of(hs: Seq<(HeaderName, Seq<char>)>) -> Map<HeaderName, Seq<char>> {
    insert_all(Map::empty(), hs)
}

pub open spec fn insert_all(
    acc: Map<HeaderName, Seq<char>>,
    hs: Seq<(HeaderName, Seq<char>)>,
) -> Map<HeaderName, Seq<char>>
    decreases hs.len(),
{
    if hs.len() == 0 {
        acc
    } else {
        insert_all(acc.insert(hs[0].0, hs[0].1), hs.drop_first())
    }
}

/// One header line on the wire: `name ": " value CRLF`.
pub open spec fn header_line(n: HeaderName, v: Seq<char>) -> Seq<u8> {
    n.token() + seq![COLON, SP] + encode_utf8(v) + crlf()
}

/// Header lines on the wire, in the order given.
pub open spec fn lines_wire(hs: Seq<(HeaderName, Seq<char>)>) -> Seq<u8>
    decreases hs.len(),
{
    if hs.len() == 0 {
        Seq::empty()
    } else {
        header_line(hs[0].0, hs[0].1) + lines_wire(hs.drop_first())
    }
}

impl Header {
    pub fn new(header_name: HeaderName, header_value: HeaderValue) -> (r: Header)
        ensures
            r.0 == header_name,
            r.1 == header_value,
    {
        Header(header_name, header_value)
    }

    /// Reads the content of one header line, given without its terminator.
    pub fn parse_line(line: &[u8]) -> (r: Result<Header, RequestError>)
        ensures
            match parse_header_line(line@) {
                Ok((n, v)) => r is Ok && r->Ok_0.0 == n && r->Ok_0.1@ == v,
                Err(f) => r is Err && r->Err_0@ == f,
            },
    {
        let c = match find_byte(line, COLON, 0) {
            None => {
                return Err(RequestError::MalformedHeaderLine(slice_to_vec(line)));
            },
            Some(c) => c,
        };
        proof {
            lemma_first_byte(line@, COLON, 0);
        }
        assert(c < line@.len());
        let name = HeaderName::parse(slice_subrange(line, 0, c))?;
        let len = line.len();
        let raw = slice_subrange(line, c + 1, len);
        let mut k: usize = 0;
        assert(raw@.subrange(0, raw@.len() as int) =~= raw@);
        while k < raw.len() && raw[k] == SP
            invariant
                k <= raw@.len(),
                leading_spaces(raw@) == k + leading_spaces(raw@.subrange(k as int, raw@.len() as int)),
            decreases raw@.len() - k,
        {
            let ghost rest = raw@.subrange(k as int, raw@.len() as int);
            assert(rest.drop_first() =~= raw@.subrange(k + 1, raw@.len() as int));
            k = k + 1;
        }
        assert(leading_spaces(raw@.subrange(k as int, raw@.len() as int)) == 0);
        let v = slice_subrange(raw, k, raw.len());
        match utf8_str(v) {
            None => Err(RequestError::InvalidUtf8(slice_to_vec(v))),
            Some(s) => {
                assert(s@ == decode_utf8(v@)) by {
                    assert(decode_utf8(encode_utf8(s@)) == s@);
                }
                Ok(Header(name, HeaderValue(s.to_owned())))
            },
        }
    }

    /// Reads one header line with its terminator; hands back what follows it.
    pub fn parse(bytes: &[u8]) -> (r: Result<(&[u8], Header), RequestError>)
        ensures
            match first_crlf(bytes@, 0) {
                None => r is Err && r->Err_0@ == (ErrorKind::Incomplete, Seq::<u8>::empty()),
                Some(e) => match parse_header_line(bytes@.subrange(0, e)) {
                    Ok((n, v)) => r is Ok && r->Ok_0.0@ == bytes@.subrange(e + 2, bytes@.len() as int)
                        && r->Ok_0.1.0 == n && r->Ok_0.1.1@ == v,
                    Err(f) => r is Err && r->Err_0@ == f,
                },
            },
    {
        match find_crlf(bytes, 0) {
            None => Err(RequestError::Incomplete),
            Some(e) => {
                proof {
                    lemma_first_crlf(bytes@, 0);
                }
                let len = bytes.len();
                assert(crlf_at(bytes@, e as int));
                let header = Header::parse_line(slice_subrange(bytes, 0, e))?;
                Ok((slice_subrange(bytes, e + 2, len), header))
            },
        }
    }
}

/// The entry that an optional slot contributes to a table's lines.
pub open spec fn slot_entry(n: HeaderName, o: Option<HeaderValue>) -> Seq<(HeaderName, Seq<char>)> {
    match o {
        Some(v) => seq![(n, v@)],
        None => Seq::empty(),
    }
}

/// The entry that a table holds for a name, if any.
pub open spec fn map_entry(m: Map<HeaderName, Seq<char>>, n: HeaderName) -> Seq<
    (HeaderName, Seq<char>),
> {
    if m.contains_key(n) {
        seq![(n, m[n])]
    } else {
        Seq::empty()
    }
}

/// A table's pairs in the order they are written: Host, User-Agent, Accept,
/// Content-Type, Content-Length, each where the table holds it.
pub open spec fn table_entries(m: Map<HeaderName, Seq<char>>) -> Seq<(HeaderName, Seq<char>)> {
    map_entry(m, HeaderName::Host) + map_entry(m, HeaderName::UserAgent) + map_entry(
        m,
        HeaderName::Accept,
    ) + map_entry(m, HeaderName::ContentType) + map_entry(m, HeaderName::ContentLength)
}

/// A header table: at most one value for each name. Two tables are equal when they
/// hold the same name/value pairs, whatever order they were filled in.
#[derive(Clone, PartialEq, Eq, Debug)]
pub struct Headers {
    host: Option<HeaderValue>,
    user_agent: Option<HeaderValue>,
    accept: Option<HeaderValue>,
    content_type: Option<HeaderValue>,
    content_length: Option<HeaderValue>,
}

impl View for Headers {
    type V = Map<HeaderName, Seq<char>>;

    closed spec fn view(&self) -> Map<HeaderName, Seq<char>> {
        Map::new(|n: HeaderName| self.slot(n) is Some, |n: HeaderName| self.slot(n)->Some_0@)
    }
}

impl Default for Headers {
    fn default() -> (r: Headers)
        ensures
            r@ == Map::<HeaderName, Seq<char>>::empty(),
    {
        let r = Headers {
            host: None,
            user_agent: None,
            accept: None,
            content_type: None,
            content_length: None,
        };
        assert(r@ =~= Map::<HeaderName, Seq<char>>::empty());
        r
    }
}

/// The pairs that a list of headers holds, in order.
pub open spec fn pairs_of(hs: Seq<Header>) -> Seq<(HeaderName, Seq<char>)> {
    hs.map_values(|h: Header| (h.0, h.1@))
}

impl Headers {
    pub closed spec fn slot(self, n: HeaderName) -> Option<HeaderValue> {
        match n {
            HeaderName::Host => self.host,
            HeaderName::UserAgent => self.user_agent,
            HeaderName::Accept => self.accept,
            HeaderName::ContentType => self.content_type,
            HeaderName::ContentLength => self.content_length,
        }
    }

    /// The table's lines in the order they are written: Host, User-Agent, Accept,
    /// Content-Type, Content-Length, each where it is set.
    pub open spec fn entries(self) -> Seq<(HeaderName, Seq<char>)> {
        table_entries(self@)
    }

    /// Each slot contributes the entry that the table's view gives for its name.
    proof fn lemma_slots(self)
        ensures
            slot_entry(HeaderName::Host, self.host) == map_entry(self@, HeaderName::Host),
            slot_entry(HeaderName::UserAgent, self.user_agent) == map_entry(
                self@,
                HeaderName::UserAgent,
            ),
            slot_entry(HeaderName::Accept, self.accept) == map_entry(self@, HeaderName::Accept),
            slot_entry(HeaderName::ContentType, self.content_type) == map_entry(
                self@,
                HeaderName::ContentType,
            ),
            slot_entry(HeaderName::ContentLength, self.content_length) == map_entry(
                self@,
                HeaderName::ContentLength,
            ),
    {
        assert(slot_entry(HeaderName::Host, self.host) =~= map_entry(self@, HeaderName::Host));
        assert(slot_entry(HeaderName::UserAgent, self.user_agent) =~= map_entry(
            self@,
            HeaderName::UserAgent,
        ));
        assert(slot_entry(HeaderName::Accept, self.accept) =~= map_entry(
            self@,
            HeaderName::Accept,
        ));
        assert(slot_entry(HeaderName::ContentType, self.content_type) =~= map_entry(
            self@,
            HeaderName::ContentType,
        ));
        assert(slot_entry(HeaderName::ContentLength, self.content_length) =~= map_entry(
            self@,
            HeaderName::ContentLength,
        ));
    }

    /// The table's lines on the wire, without the blank line that ends a block.
    pub open spec fn wire(self) -> Seq<u8> {
        lines_wire(self.entries())
    }

    /// A table from a list of headers; where a name repeats, the last one wins.
    pub fn new(headers: Vec<Header>) -> (r: Headers)
        ensures
            r@ == table_of(pairs_of(headers@)),
    {
        let ghost all = pairs_of(headers@);
        let mut rest = headers;
        let mut table = Headers::default();
        assert(pairs_of(rest@) =~= all);
        while rest.len() > 0
            invariant
                table_of(all) == insert_all(table@, pairs_of(rest@)),
            decreases rest@.len(),
        {
            let ghost before = pairs_of(rest@);
            let h = rest.remove(0);
            assert(pairs_of(rest@) =~= before.drop_first());
            table.insert(h.0, h.1);
        }
        assert(pairs_of(rest@) =~= Seq::<(HeaderName, Seq<char>)>::empty());
        table
    }

    /// Sets a name's value, replacing any earlier one.
    pub(crate) fn insert(&mut self, header_name: HeaderName, header_value: HeaderValue)
        ensures
            final(self)@ == old(self)@.insert(header_name, header_value@),
    {
        match header_name {
            HeaderName::Host => self.host = Some(header_value),
            HeaderName::UserAgent => self.user_agent = Some(header_value),
            HeaderName::Accept => self.accept = Some(header_value),
            HeaderName::ContentType => self.content_type = Some(header_value),
            HeaderName::ContentLength => self.content_length = Some(header_value),
        }
        assert(final(self)@ =~= old(self)@.insert(header_name, header_value@));
    }

    fn get(&self, header_name: HeaderName) -> (r: Option<&HeaderValue>)
        ensures
            match r {
                Some(v) => self@.contains_key(header_name) && self@[header_name] == v@,
                None => !self@.contains_key(header_name),
            },
    {
        match header_name {
            HeaderName::Host => self.host.as_ref(),
            HeaderName::UserAgent => self.user_agent.as_ref(),
            HeaderName::Accept => self.accept.as_ref(),
            HeaderName::ContentType => self.content_type.as_ref(),
            HeaderName::ContentLength => self.content_length.as_ref(),
        }
    }

    pub fn set_accept(self, accept: &str) -> (r: Headers)
        ensures
            r@ == self@.insert(HeaderName::Accept, accept@),
    {
        let mut table = self;
        table.insert(HeaderName::Accept, HeaderValue::new(accept));
        table
    }

    /// Sets Content-Length to the decimal writing of `content_length`.
    pub fn set_content_length(self, content_length: usize) -> (r: Headers)
        ensures
            r@ == self@.insert(
                HeaderName::ContentLength,
                decode_utf8(decimal_digits(content_length as nat)),
            ),
    {
        let digits = decimal(content_length);
        proof {
            crate::wire::lemma_decimal_round_trip(content_length as nat);
            assert forall|i: int| 0 <= i < digits@.len() implies digits@[i] <= 0x7f by {
                assert(crate::wire::is_digit(digits@[i]));
            }
            lemma_ascii_valid_utf8(digits@);
        }
        let text = utf8_str(digits.as_slice()).unwrap();
        assert(text@ == decode_utf8(digits@)) by {
            assert(decode_utf8(encode_utf8(text@)) == text@);
        }
        let mut table = self;
        table.insert(HeaderName::ContentLength, HeaderValue::new(text));
        table
    }

    pub fn set_content_type(self, content_type: ContentType) -> (r: Headers)
        ensures
            r@ == self@.insert(HeaderName::ContentType, "text/plain"@),
    {
        let mut table = self;
        table.insert(HeaderName::ContentType, content_type.to_header_value());
        table
    }

    pub fn set_host(self, host: &str) -> (r: Headers)
        ensures
            r@ == self@.insert(HeaderName::Host, host@),
    {
        let mut table = self;
        table.insert(HeaderName::Host, HeaderValue::new(host));
        table
    }

    pub fn set_user_agent(self, user_agent: &str) -> (r: Headers)
        ensures
            r@ == self@.insert(HeaderName::UserAgent, user_agent@),
    {
        let mut table = self;
        table.insert(HeaderName::UserAgent, HeaderValue::new(user_agent));
        table
    }

    pub fn host(&self) -> (r: Option<&HeaderValue>)
        ensures
            match r {
                Some(v) => self@.contains_key(HeaderName::Host) && self@[HeaderName::Host] == v@,
                None => !self@.contains_key(HeaderName::Host),
            },
    {
        self.get(HeaderName::Host)
    }

    pub fn user_agent(&self) -> (r: Option<&HeaderValue>)
        ensures
            match r {
                Some(v) => self@.contains_key(HeaderName::UserAgent) && self@[HeaderName::UserAgent]
                    == v@,
                None => !self@.contains_key(HeaderName::UserAgent),
            },
    {
        self.get(HeaderName::UserAgent)
    }

    pub fn accept(&self) -> (r: Option<&HeaderValue>)
        ensures
            match r {
                Some(v) => self@.contains_key(HeaderName::Accept) && self@[HeaderName::Accept]
                    == v@,
                None => !self@.contains_key(HeaderName::Accept),
            },
    {
        self.get(HeaderName::Accept)
    }

    pub fn content_type(&self) -> (r: Option<&HeaderValue>)
        ensures
            match r {
                Some(v) => self@.contains_key(HeaderName::ContentType)
                    && self@[HeaderName::ContentType] == v@,
                None => !self@.contains_key(HeaderName::ContentType),
            },
    {
        self.get(HeaderName::ContentType)
    }

    pub fn content_length(&self) -> (r: Option<&HeaderValue>)
        ensures
            match r {
                Some(v) => self@.contains_key(HeaderName::ContentLength)
                    && self@[HeaderName::ContentLength] == v@,
                None => !self@.contains_key(HeaderName::ContentLength),
            },
    {
        self.get(HeaderName::ContentLength)
    }

    /// Reads header lines from `start` through the blank line that ends them; gives the
    /// table and the position after the blank line.
    pub(crate) fn parse_block(b: &[u8], start: usize) -> (r: Result<(Headers, usize), RequestError>)
        requires
            start <= b@.len(),
        ensures
            match parse_headers_from(b@, start as int, Map::empty()) {
                Ok((m, end)) => r is Ok && r->Ok_0.0@ == m && r->Ok_0.1 == end,
                Err(f) => r is Err && r->Err_0@ == f,
            },
    {
        let mut table = Headers::default();
        let mut p = start;
        let len = b.len();
        loop
            invariant
                start <= p <= b@.len(),
                len == b@.len(),
                parse_headers_from(b@, start as int, Map::empty()) == parse_headers_from(
                    b@,
                    p as int,
                    table@,
                ),
            decreases b@.len() - p,
        {
            if len - p >= 2 && b[p] == CR && b[p + 1] == LF {
                return Ok((table, p + 2));
            }
            match find_crlf(b, p) {
                None => {
                    return Err(RequestError::Incomplete);
                },
                Some(e) => {
                    proof {
                        lemma_first_crlf(b@, p as int);
                    }
                    let header = Header::parse_line(slice_subrange(b, p, e))?;
                    table.insert(header.0, header.1);
                    p = e + 2;
                },
            }
        }
    }

    /// Reads header lines through the blank line that ends them; hands back what follows.
    pub fn parse(bytes: &[u8]) -> (r: Result<(&[u8], Headers), RequestError>)
        ensures
            match parse_headers_from(bytes@, 0, Map::empty()) {
                Ok((m, end)) => r is Ok && r->Ok_0.1@ == m && r->Ok_0.0@ == bytes@.subrange(
                    end,
                    bytes@.len() as int,
                ),
                Err(f) => r is Err && r->Err_0@ == f,
            },
    {
        proof {
            lemma_parse_headers_end(bytes@, 0, Map::empty());
        }
        let (table, end) = Headers::parse_block(bytes, 0)?;
        Ok((slice_subrange(bytes, end, bytes.len()), table))
    }

    /// Reads a table from complete header lines, each ending in CRLF; the blank line
    /// after them may be left out.
    pub fn try_from(text: &str) -> (r: Result<Headers, RequestError>)
        ensures
            match parse_headers_from(encode_utf8(text@) + crlf(), 0, Map::empty()) {
                Ok((m, _)) => r is Ok && r->Ok_0@ == m,
                Err(f) => r is Err && r->Err_0@ == f,
            },
    {
        let mut bytes = slice_to_vec(text.as_bytes());
        bytes.push(CR);
        bytes.push(LF);
        assert(bytes@ =~= encode_utf8(text@) + crlf());
        let (table, _) = Headers::parse_block(bytes.as_slice(), 0)?;
        Ok(table)
    }

    /// The table's lines on the wire.
    pub fn to_bytes(&self) -> (r: Vec<u8>)
        ensures
            r@ == self.wire(),
    {
        let mut out: Vec<u8> = Vec::new();
        push_slot(&mut out, HeaderName::Host, &self.host);
        push_slot(&mut out, HeaderName::UserAgent, &self.user_agent);
        push_slot(&mut out, HeaderName::Accept, &self.accept);
        push_slot(&mut out, HeaderName::ContentType, &self.content_type);
        push_slot(&mut out, HeaderName::ContentLength, &self.content_length);
        proof {
            self.lemma_slots();
            let e1 = slot_entry(HeaderName::Host, self.host);
            let e2 = slot_entry(HeaderName::UserAgent, self.user_agent);
            let e3 = slot_entry(HeaderName::Accept, self.accept);
            let e4 = slot_entry(HeaderName::ContentType, self.content_type);
            let e5 = slot_entry(HeaderName::ContentLength, self.content_length);
            lemma_lines_wire_concat(e1, e2);
            lemma_lines_wire_concat(e1 + e2, e3);
            lemma_lines_wire_concat(e1 + e2 + e3, e4);
            lemma_lines_wire_concat(e1 + e2 + e3 + e4, e5);
            assert(out@ =~= self.wire());
        }
        out
    }

    /// The table's lines as text, one `Name: value` line each.
    pub fn to_string(&self) -> (r: String)
        ensures
            r@ == lossy_text(self.wire()),
            r@ == decode_utf8(self.wire()),
    {
        let b = self.to_bytes();
        proof {
            lemma_lines_wire_valid(self.entries());
        }
        lossy_string(b.as_slice())
    }
}

fn push_slot(out: &mut Vec<u8>, header_name: HeaderName, slot: &Option<HeaderValue>)
    ensures
        final(out)@ == old(out)@ + lines_wire(slot_entry(header_name, *slot)),
{
    let ghost start = old(out)@;
    match slot {
        None => {
            assert(lines_wire(slot_entry(header_name, *slot)) =~= Seq::<u8>::empty());
            assert(out@ =~= start + Seq::<u8>::empty());
        },
        Some(v) => {
            let mut name = header_name.to_bytes();
            out.append(&mut name);
            out.push(COLON);
            out.push(SP);
            let mut value = v.to_bytes();
            out.append(&mut value);
            out.push(CR);
            out.push(LF);
            let ghost es = slot_entry(header_name, *slot);
            assert(es.drop_first() =~= Seq::<(HeaderName, Seq<char>)>::empty());
            assert(lines_wire(es.drop_first()) =~= Seq::<u8>::empty());
            assert(lines_wire(es) =~= header_line(header_name, v@));
            assert(out@ =~= start + header_line(header_name, v@));
        },
    }
}

pub proof fn lemma_lines_wire_concat(
    a: Seq<(HeaderName, Seq<char>)>,
    b: Seq<(HeaderName, Seq<char>)>,
)
    ensures
        lines_wire(a + b) == lines_wire(a) + lines_wire(b),
    decreases a.len(),
{
    if a.len() == 0 {
        assert(a + b =~= b);
        assert(lines_wire(a) + lines_wire(b) =~= lines_wire(b));
    } else {
        lemma_lines_wire_concat(a.drop_first(), b);
        assert((a + b).drop_first() =~= a.drop_first() + b);
        assert(lines_wire(a + b) =~= lines_wire(a) + lines_wire(b));
    }
}

/// A block that reads ends within the buffer, after where it starts.
pub proof fn lemma_parse_headers_end(b: Seq<u8>, p: int, acc: Map<HeaderName, Seq<char>>)
    ensures
        parse_headers_from(b, p, acc) matches Ok((m, end)) ==> p < end <= b.len(),
    decreases b.len() - p,
{
    if 0 <= p <= b.len() && !crlf_at(b, p) {
        if let Some(e) = first_crlf(b, p) {
            if p <= e && e + 2 <= b.len() {
                if let Ok((n, v)) = parse_header_line(b.subrange(p, e)) {
                    lemma_parse_headers_end(b, e + 2, acc.insert(n, v));
                }
            }
        }
    }
}

/// A value that a header line carries unchanged: its bytes hold no line terminator and
/// do not start with a space.
pub open spec fn value_fits_line(v: Seq<char>) -> bool {
    let b = encode_utf8(v);
    no_crlf(b) && (b.len() == 0 || b[0] != SP)
}

/// Names in a list of header pairs are pairwise distinct.
pub open spec fn distinct_names(hs: Seq<(HeaderName, Seq<char>)>) -> bool {
    forall|i: int, j: int| 0 <= i < j < hs.len() ==> hs[i].0 != hs[j].0
}

proof fn lemma_name_token_plain(n: HeaderName)
    ensures
        n.token().len() > 0,
        forall|i: int|
            0 <= i < n.token().len() ==> n.token()[i] != CR && n.token()[i] != COLON
                && n.token()[i] <= 0x7f,
{
    let t = n.token();
    assert forall|i: int| 0 <= i < t.len() implies t[i] != CR && t[i] != COLON && t[i] <= 0x7f by {
        match n {
            HeaderName::Host => {
                assert(t[i] == seq![72u8, 111, 115, 116][i]);
            },
            HeaderName::UserAgent => {
                assert(t[i] == seq![85u8, 115, 101, 114, 45, 65, 103, 101, 110, 116][i]);
            },
            HeaderName::Accept => {
                assert(t[i] == seq![65u8, 99, 99, 101, 112, 116][i]);
            },
            HeaderName::ContentType => {},
            HeaderName::ContentLength => {},
        }
    }
}

/// One line as written reads back as its name and value.
proof fn lemma_header_line_parse(n: HeaderName, v: Seq<char>)
    requires
        value_fits_line(v),
    ensures
        ({
            let content = n.token() + seq![COLON, SP] + encode_utf8(v);
            no_crlf(content) && parse_header_line(content) == Ok::<
                (HeaderName, Seq<char>),
                (ErrorKind, Seq<u8>),
            >((n, v)) && header_line(n, v) == content + crlf()
        }),
{
    let t = n.token();
    let vb = encode_utf8(v);
    let content = t + seq![COLON, SP] + vb;
    lemma_name_token_plain(n);
    assert(header_line(n, v) =~= content + crlf());
    assert forall|i: int| !crlf_at(content, i) by {
        if 0 <= i && i + 1 < content.len() {
            if i >= t.len() + 2 {
                assert(content[i] == vb[i - t.len() - 2]);
                assert(content[i + 1] == vb[i + 1 - t.len() - 2]);
                assert(!crlf_at(vb, i - t.len() - 2));
            } else if i < t.len() {
                assert(content[i] == t[i]);
            }
        }
    }
    assert forall|j: int| 0 <= j < t.len() implies content[j] != COLON by {
        assert(content[j] == t[j]);
    }
    lemma_first_byte_at(content, COLON, 0, t.len() as int);
    assert(content.subrange(0, t.len() as int) =~= t);
    lemma_header_name_token(n);
    let raw = content.subrange(t.len() + 1 as int, content.len() as int);
    assert(raw =~= seq![SP] + vb);
    assert(raw.drop_first() =~= vb);
    assert(leading_spaces(vb) == 0);
    assert(leading_spaces(raw) == 1);
    assert(raw.subrange(1, raw.len() as int) =~= vb);
    vstd::utf8::encode_utf8_valid_utf8(v);
}

/// Header lines as written, then the blank line, read back as the table they make.
pub proof fn lemma_header_lines_parse(
    b: Seq<u8>,
    p: int,
    hs: Seq<(HeaderName, Seq<char>)>,
    acc: Map<HeaderName, Seq<char>>,
)
    requires
        0 <= p,
        p + lines_wire(hs).len() + 2 <= b.len(),
        b.subrange(p, p + lines_wire(hs).len() + 2) == lines_wire(hs) + crlf(),
        forall|i: int| 0 <= i < hs.len() ==> value_fits_line(#[trigger] hs[i].1),
    ensures
        parse_headers_from(b, p, acc) == Ok::<
            (Map<HeaderName, Seq<char>>, int),
            (ErrorKind, Seq<u8>),
        >((insert_all(acc, hs), p + lines_wire(hs).len() + 2)),
    decreases hs.len(),
{
    let w = lines_wire(hs) + crlf();
    if hs.len() == 0 {
        assert(b[p] == w[0] && b[p + 1] == w[1]);
    } else {
        let (n, v) = hs[0];
        let rest = hs.drop_first();
        let content = n.token() + seq![COLON, SP] + encode_utf8(v);
        lemma_header_line_parse(n, v);
        lemma_name_token_plain(n);
        let cl = content.len() as int;
        assert(lines_wire(hs) == content + crlf() + lines_wire(rest));
        assert(b[p] == w[0]);
        assert(w[0] == n.token()[0]);
        assert(b.subrange(p, p + cl) =~= content) by {
            assert forall|k: int| 0 <= k < cl implies b.subrange(p, p + cl)[k] == content[k] by {
                assert(b[p + k] == w[k]);
            }
        }
        assert(crlf_at(b, p + cl)) by {
            assert(b[p + cl] == w[cl]);
            assert(b[p + cl + 1] == w[cl + 1]);
        }
        lemma_first_crlf_after_line(b, p, content);
        let q = p + cl + 2;
        assert forall|i: int| 0 <= i < rest.len() implies value_fits_line(#[trigger] rest[i].1) by {
            assert(rest[i] == hs[i + 1]);
        }
        assert(b.subrange(q, q + lines_wire(rest).len() + 2) =~= lines_wire(rest) + crlf()) by {
            let w2 = lines_wire(rest) + crlf();
            assert forall|k: int| 0 <= k < w2.len() implies b.subrange(
                q,
                q + lines_wire(rest).len() + 2,
            )[k] == w2[k] by {
                assert(b[q + k] == w[cl + 2 + k]);
            }
        }
        lemma_header_lines_parse(b, q, rest, acc.insert(n, v));
    }
}

pub proof fn lemma_insert_all_concat(
    acc: Map<HeaderName, Seq<char>>,
    a: Seq<(HeaderName, Seq<char>)>,
    b: Seq<(HeaderName, Seq<char>)>,
)
    ensures
        insert_all(acc, a + b) == insert_all(insert_all(acc, a), b),
    decreases a.len(),
{
    if a.len() == 0 {
        assert(a + b =~= b);
    } else {
        assert((a + b).drop_first() =~= a.drop_first() + b);
        lemma_insert_all_concat(acc.insert(a[0].0, a[0].1), a.drop_first(), b);
    }
}

/// A name that no pair of the list carries keeps what it had.
pub proof fn lemma_insert_all_absent(
    acc: Map<HeaderName, Seq<char>>,
    hs: Seq<(HeaderName, Seq<char>)>,
    n: HeaderName,
)
    requires
        forall|i: int| 0 <= i < hs.len() ==> #[trigger] hs[i].0 != n,
    ensures
        insert_all(acc, hs).contains_key(n) == acc.contains_key(n),
        acc.contains_key(n) ==> insert_all(acc, hs)[n] == acc[n],
    decreases hs.len(),
{
    if hs.len() > 0 {
        let rest = hs.drop_first();
        assert(hs[0].0 != n);
        assert forall|k: int| 0 <= k < rest.len() implies #[trigger] rest[k].0 != n by {
            assert(rest[k] == hs[k + 1]);
        }
        lemma_insert_all_absent(acc.insert(hs[0].0, hs[0].1), rest, n);
    }
}

/// With distinct names, each pair of the list stands in the table.
pub proof fn lemma_insert_all_present(
    acc: Map<HeaderName, Seq<char>>,
    hs: Seq<(HeaderName, Seq<char>)>,
    i: int,
)
    requires
        distinct_names(hs),
        0 <= i < hs.len(),
    ensures
        insert_all(acc, hs).contains_key(hs[i].0),
        insert_all(acc, hs)[hs[i].0] == hs[i].1,
    decreases hs.len(),
{
    let rest = hs.drop_first();
    let acc2 = acc.insert(hs[0].0, hs[0].1);
    if i == 0 {
        assert forall|k: int| 0 <= k < rest.len() implies #[trigger] rest[k].0 != hs[0].0 by {
            assert(rest[k] == hs[k + 1]);
        }
        lemma_insert_all_absent(acc2, rest, hs[0].0);
    } else {
        assert(distinct_names(rest)) by {
            assert forall|a: int, b: int| 0 <= a < b < rest.len() implies rest[a].0
                != rest[b].0 by {
                assert(rest[a] == hs[a + 1] && rest[b] == hs[b + 1]);
            }
        }
        assert(rest[i - 1] == hs[i]);
        lemma_insert_all_present(acc2, rest, i - 1);
    }
}

/// A header table written out as lines, in any order and each name once, followed by
/// the blank line, reads back as the same table: the same name/value pairs, whatever
/// the order of the lines. What follows the blank line is left alone.
pub proof fn lemma_header_table_round_trip(
    table: Map<HeaderName, Seq<char>>,
    hs: Seq<(HeaderName, Seq<char>)>,
    rest: Seq<u8>,
)
    requires
        distinct_names(hs),
        forall|n: HeaderName, v: Seq<char>|
            #![trigger hs.contains((n, v))]
            (table.contains_key(n) && table[n] == v) <==> hs.contains((n, v)),
        forall|i: int| 0 <= i < hs.len() ==> value_fits_line(#[trigger] hs[i].1),
    ensures
        parse_headers_from(lines_wire(hs) + crlf() + rest, 0, Map::empty()) == Ok::<
            (Map<HeaderName, Seq<char>>, int),
            (ErrorKind, Seq<u8>),
        >((table, lines_wire(hs).len() + 2 as int)),
{
    let b = lines_wire(hs) + crlf() + rest;
    assert(b.subrange(0, lines_wire(hs).len() + 2 as int) =~= lines_wire(hs) + crlf());
    lemma_header_lines_parse(b, 0, hs, Map::empty());
    let got = insert_all(Map::empty(), hs);
    assert forall|n: HeaderName| #[trigger] got.contains_key(n) == table.contains_key(n) && (
    got.contains_key(n) ==> got[n] == table[n]) by {
        if exists|i: int| 0 <= i < hs.len() && hs[i].0 == n {
            let i = choose|i: int| 0 <= i < hs.len() && hs[i].0 == n;
            assert(hs[i] == (n, hs[i].1));
            assert(hs.contains((n, hs[i].1)));
            lemma_insert_all_present(Map::empty(), hs, i);
        } else {
            assert forall|i: int| 0 <= i < hs.len() implies #[trigger] hs[i].0 != n by {}
            lemma_insert_all_absent(Map::empty(), hs, n);
            if table.contains_key(n) {
                assert(hs.contains((n, table[n])));
                let k = choose|k: int| 0 <= k < hs.len() && hs[k] == (n, table[n]);
                assert(hs[k].0 == n);
            }
        }
    }
    assert(got =~= table);
}

proof fn lemma_insert_entry(acc: Map<HeaderName, Seq<char>>, m: Map<HeaderName, Seq<char>>, n: HeaderName)
    ensures
        insert_all(acc, map_entry(m, n)) == if m.contains_key(n) {
            acc.insert(n, m[n])
        } else {
            acc
        },
{
    let e = map_entry(m, n);
    if m.contains_key(n) {
        assert(e.drop_first() =~= Seq::<(HeaderName, Seq<char>)>::empty());
        assert(insert_all(acc.insert(n, m[n]), e.drop_first()) == acc.insert(n, m[n]));
    }
}

/// Every pair of `hs` stands in `m`.
pub open spec fn pairs_in(hs: Seq<(HeaderName, Seq<char>)>, m: Map<HeaderName, Seq<char>>) -> bool {
    forall|i: int|
        0 <= i < hs.len() ==> m.contains_key(#[trigger] hs[i].0) && m[hs[i].0] == hs[i].1
}

proof fn lemma_pairs_in_concat(
    a: Seq<(HeaderName, Seq<char>)>,
    b: Seq<(HeaderName, Seq<char>)>,
    m: Map<HeaderName, Seq<char>>,
)
    requires
        pairs_in(a, m),
        pairs_in(b, m),
    ensures
        pairs_in(a + b, m),
{
    assert forall|i: int| 0 <= i < (a + b).len() implies m.contains_key(#[trigger] (a + b)[i].0)
        && m[(a + b)[i].0] == (a + b)[i].1 by {
        if i < a.len() {
            assert((a + b)[i] == a[i]);
        } else {
            assert((a + b)[i] == b[i - a.len()]);
        }
    }
}

/// The position of a name in the order that tables are written in.
pub open spec fn rank(n: HeaderName) -> int {
    match n {
        HeaderName::Host => 0,
        HeaderName::UserAgent => 1,
        HeaderName::Accept => 2,
        HeaderName::ContentType => 3,
        HeaderName::ContentLength => 4,
    }
}

/// Names strictly in written order, each below `k`.
pub open spec fn ranked_below(hs: Seq<(HeaderName, Seq<char>)>, k: int) -> bool {
    &&& forall|i: int, j: int| 0 <= i < j < hs.len() ==> rank(hs[i].0) < rank(hs[j].0)
    &&& forall|i: int| 0 <= i < hs.len() ==> rank(#[trigger] hs[i].0) < k
}

proof fn lemma_ranked_extend(
    a: Seq<(HeaderName, Seq<char>)>,
    m: Map<HeaderName, Seq<char>>,
    n: HeaderName,
)
    requires
        ranked_below(a, rank(n)),
    ensures
        ranked_below(a + map_entry(m, n), rank(n) + 1),
{
    let b = map_entry(m, n);
    let c = a + b;
    assert forall|i: int| 0 <= i < c.len() implies rank(#[trigger] c[i].0) < rank(n) + 1 by {
        if i < a.len() {
            assert(c[i] == a[i]);
        } else {
            assert(c[i] == b[i - a.len()]);
        }
    }
    assert forall|i: int, j: int| 0 <= i < j < c.len() implies rank(c[i].0) < rank(c[j].0) by {
        if j < a.len() {
            assert(c[i] == a[i] && c[j] == a[j]);
        } else {
            assert(c[i] == a[i]);
            assert(c[j] == b[j - a.len()]);
        }
    }
}

/// A table's written entries list each of its pairs exactly once and nothing else, and
/// read back as the table.
pub proof fn lemma_table_entries(m: Map<HeaderName, Seq<char>>)
    ensures
        distinct_names(table_entries(m)),
        pairs_in(table_entries(m), m),
        forall|n: HeaderName| #[trigger] m.contains_key(n) ==> table_entries(m).contains((n, m[n])),
        table_of(table_entries(m)) == m,
{
    let e1 = map_entry(m, HeaderName::Host);
    let e2 = map_entry(m, HeaderName::UserAgent);
    let e3 = map_entry(m, HeaderName::Accept);
    let e4 = map_entry(m, HeaderName::ContentType);
    let e5 = map_entry(m, HeaderName::ContentLength);
    let es = table_entries(m);
    assert(pairs_in(e1, m));
    assert(pairs_in(e2, m));
    assert(pairs_in(e3, m));
    assert(pairs_in(e4, m));
    assert(pairs_in(e5, m));
    lemma_pairs_in_concat(e1, e2, m);
    lemma_pairs_in_concat(e1 + e2, e3, m);
    lemma_pairs_in_concat(e1 + e2 + e3, e4, m);
    lemma_pairs_in_concat(e1 + e2 + e3 + e4, e5, m);
    let z = Map::<HeaderName, Seq<char>>::empty();
    assert(ranked_below(Seq::<(HeaderName, Seq<char>)>::empty(), 0));
    assert(Seq::<(HeaderName, Seq<char>)>::empty() + e1 =~= e1);
    lemma_ranked_extend(Seq::empty(), m, HeaderName::Host);
    lemma_ranked_extend(e1, m, HeaderName::UserAgent);
    lemma_ranked_extend(e1 + e2, m, HeaderName::Accept);
    lemma_ranked_extend(e1 + e2 + e3, m, HeaderName::ContentType);
    lemma_ranked_extend(e1 + e2 + e3 + e4, m, HeaderName::ContentLength);
    assert(distinct_names(es)) by {
        assert forall|i: int, j: int| 0 <= i < j < es.len() implies es[i].0 != es[j].0 by {
            assert(rank(es[i].0) < rank(es[j].0));
        }
    }
    lemma_insert_all_concat(z, e1 + e2 + e3 + e4, e5);
    lemma_insert_all_concat(z, e1 + e2 + e3, e4);
    lemma_insert_all_concat(z, e1 + e2, e3);
    lemma_insert_all_concat(z, e1, e2);
    let m1 = insert_all(z, e1);
    let m2 = insert_all(m1, e2);
    let m3 = insert_all(m2, e3);
    let m4 = insert_all(m3, e4);
    lemma_insert_entry(z, m, HeaderName::Host);
    lemma_insert_entry(m1, m, HeaderName::UserAgent);
    lemma_insert_entry(m2, m, HeaderName::Accept);
    lemma_insert_entry(m3, m, HeaderName::ContentType);
    lemma_insert_entry(m4, m, HeaderName::ContentLength);
    assert(table_of(es) =~= m);
    assert forall|n: HeaderName| #[trigger] m.contains_key(n) implies es.contains((n, m[n])) by {
        if forall|i: int| 0 <= i < es.len() ==> #[trigger] es[i].0 != n {
            lemma_insert_all_absent(z, es, n);
        }
        let i = choose|i: int| 0 <= i < es.len() && es[i].0 == n;
        assert(es[i] == (n, m[n]));
    }
}

/// A header table as this library writes it, followed by the blank line, reads back as
/// the same table; what follows the blank line is left alone.
pub proof fn lemma_headers_wire_round_trip(h: Headers, rest: Seq<u8>)
    requires
        forall|n: HeaderName| h@.contains_key(n) ==> value_fits_line(#[trigger] h@[n]),
    ensures
        parse_headers_from(h.wire() + crlf() + rest, 0, Map::empty()) == Ok::<
            (Map<HeaderName, Seq<char>>, int),
            (ErrorKind, Seq<u8>),
        >((h@, h.wire().len() + 2 as int)),
{
    let m = h@;
    let hs = table_entries(m);
    lemma_table_entries(m);
    assert forall|i: int| 0 <= i < hs.len() implies value_fits_line(#[trigger] hs[i].1) by {
        assert(m.contains_key(hs[i].0));
    }
    assert forall|n: HeaderName, v: Seq<char>|
        #![trigger hs.contains((n, v))]
        (m.contains_key(n) && m[n] == v) <==> hs.contains((n, v)) by {
        if hs.contains((n, v)) {
            let i = choose|i: int| 0 <= i < hs.len() && hs[i] == (n, v);
            assert(m.contains_key(hs[i].0));
        }
    }
    lemma_header_table_round_trip(m, hs, rest);
}

/// Header lines as written are valid UTF-8.
pub proof fn lemma_lines_wire_valid(hs: Seq<(HeaderName, Seq<char>)>)
    ensures
        valid_utf8(lines_wire(hs)),
    decreases hs.len(),
{
    if hs.len() == 0 {
        assert(valid_utf8(Seq::<u8>::empty()));
    } else {
        let (n, v) = hs[0];
        lemma_name_token_plain(n);
        let sep = seq![COLON, SP];
        lemma_ascii_valid_utf8(n.token());
        lemma_ascii_valid_utf8(sep);
        lemma_ascii_valid_utf8(crlf());
        vstd::utf8::encode_utf8_valid_utf8(v);
        vstd::utf8::valid_utf8_concat(n.token(), sep);
        vstd::utf8::valid_utf8_concat(n.token() + sep, encode_utf8(v));
        vstd::utf8::valid_utf8_concat(n.token() + sep + encode_utf8(v), crlf());
        lemma_lines_wire_valid(hs.drop_first());
        vstd::utf8::valid_utf8_concat(header_line(n, v), lines_wire(hs.drop_first()));
    }
}

} // verus!
