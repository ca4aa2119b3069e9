//! Byte-level vocabulary of the wire format: line terminators, token search and
//! decimal numbers.

use vstd::prelude::*;
use vstd::utf8::valid_utf8;

verus! {

pub const CR: u8 = 13;

pub const LF: u8 = 10;

pub const SP: u8 = 32;

pub const COLON: u8 = 58;

/// The two-byte line terminator.
pub open spec fn crlf() -> Seq<u8> {
    seq![CR, LF]
}

/// Whether a line terminator starts at `i`.
pub open spec fn crlf_at(b: Seq<u8>, i: int) -> bool {
    0 <= i && i + 1 < b.len() && b[i] == CR && b[i + 1] == LF
}

/// Whether `b` holds no line terminator at all.
pub open spec fn no_crlf(b: Seq<u8>) -> bool {
    forall|i: int| !crlf_at(b, i)
}

/// The start of the first line terminator at or after `from`.
pub open spec fn first_crlf(b: Seq<u8>, from: int) -> Option<int>
    decreases b.len() - from,
{
    if from < 0 || from + 1 >= b.len() {
        None
    } else if crlf_at(b, from) {
        Some(from)
    } else {
        first_crlf(b, from + 1)
    }
}

/// The first position at or after `from` that holds `x`.
pub open spec fn first_byte(b: Seq<u8>, x: u8, from: int) -> Option<int>
    decreases b.len() - from,
{
    if from < 0 || from >= b.len() {
        None
    } else if b[from] == x {
        Some(from)
    } else {
        first_byte(b, x, from + 1)
    }
}

pub proof fn lemma_first_crlf(b: Seq<u8>, from: int)
    requires
        0 <= from,
    ensures
        match first_crlf(b, from) {
            Some(i) => from <= i && crlf_at(b, i) && forall|j: int|
                from <= j < i ==> !crlf_at(b, j),
            None => forall|j: int| from <= j ==> !crlf_at(b, j),
        },
    decreases b.len() - from,
{
    if from + 1 < b.len() && !crlf_at(b, from) {
        lemma_first_crlf(b, from + 1);
    }
}

pub proof fn lemma_first_byte(b: Seq<u8>, x: u8, from: int)
    requires
        0 <= from,
    ensures
        match first_byte(b, x, from) {
            Some(i) => from <= i < b.len() && b[i] == x && forall|j: int|
                from <= j < i ==> b[j] != x,
            None => forall|j: int| from <= j < b.len() ==> b[j] != x,
        },
    decreases b.len() - from,
{
    if from < b.len() && b[from] != x {
        lemma_first_byte(b, x, from + 1);
    }
}

/// A line that holds no terminator, followed by one, ends where that terminator stands.
pub proof fn lemma_first_crlf_after_line(b: Seq<u8>, from: int, line: Seq<u8>)
    requires
        0 <= from,
        from + line.len() + 2 <= b.len(),
        b.subrange(from, from + line.len()) == line,
        no_crlf(line),
        crlf_at(b, from + line.len()),
    ensures
        first_crlf(b, from) == Some(from + line.len()),
    decreases line.len(),
{
    if line.len() > 0 {
        assert(!crlf_at(b, from)) by {
            if line.len() >= 2 {
                assert(b[from] == line[0] && b[from + 1] == line[1]);
                assert(!crlf_at(line, 0));
            } else {
                assert(b[from + 1] == CR);
            }
        }
        let rest = line.subrange(1, line.len() as int);
        assert forall|i: int| !crlf_at(rest, i) by {
            assert(!crlf_at(line, i + 1));
        }
        assert(b.subrange(from + 1, from + 1 + rest.len()) == rest) by {
            assert(b.subrange(from + 1, from + 1 + rest.len()) =~= rest);
        }
        lemma_first_crlf_after_line(b, from + 1, rest);
    }
}

/// The start of the first line terminator at or after `from`.
pub fn find_crlf(b: &[u8], from: usize) -> (r: Option<usize>)
    requires
        from <= b@.len(),
    ensures
        match r {
            Some(i) => first_crlf(b@, from as int) == Some(i as int),
            None => first_crlf(b@, from as int) is None,
        },
{
    let mut i = from;
    while b.len() - i >= 2
        invariant
            from <= i <= b@.len(),
            first_crlf(b@, from as int) == first_crlf(b@, i as int),
        decreases b@.len() - i,
    {
        if b[i] == CR && b[i + 1] == LF {
            return Some(i);
        }
        i = i + 1;
    }
    None
}

/// The first position at or after `from` that holds `x`.
pub fn find_byte(b: &[u8], x: u8, from: usize) -> (r: Option<usize>)
    requires
        from <= b@.len(),
    ensures
        match r {
            Some(i) => first_byte(b@, x, from as int) == Some(i as int),
            None => first_byte(b@, x, from as int) is None,
        },
{
    let mut i = from;
    while i < b.len()
        invariant
            from <= i <= b@.len(),
            first_byte(b@, x, from as int) == first_byte(b@, x, i as int),
        decreases b@.len() - i,
    {
        if b[i] == x {
            return Some(i);
        }
        i = i + 1;
    }
    None
}

/// Whether two byte strings are equal.
pub fn same_bytes(a: &[u8], b: &[u8]) -> (r: bool)
    ensures
        r == (a@ == b@),
{
    if a.len() != b.len() {
        return false;
    }
    let mut i: usize = 0;
    while i < a.len()
        invariant
            a@.len() == b@.len(),
            i <= a@.len(),
            forall|j: int| 0 <= j < i ==> a@[j] == b@[j],
        decreases a@.len() - i,
    {
        if a[i] != b[i] {
            return false;
        }
        i = i + 1;
    }
    assert(a@ =~= b@);
    true
}

pub open spec fn is_digit(c: u8) -> bool {
    48 <= c <= 57
}

/// A non-empty run of decimal digits.
pub open spec fn is_decimal(s: Seq<u8>) -> bool {
    s.len() > 0 && forall|i: int| 0 <= i < s.len() ==> is_digit(#[trigger] s[i])
}

/// The number that a run of decimal digits writes.
pub open spec fn decimal_value(s: Seq<u8>) -> nat
    decreases s.len(),
{
    if s.len() == 0 {
        0
    } else {
        decimal_value(s.drop_last()) * 10 + (s.last() - 48) as nat
    }
}

/// The shortest decimal writing of `n`.
pub open spec fn decimal_digits(n: nat) -> Seq<u8>
    decreases n,
{
    if n < 10 {
        seq![(n + 48) as u8]
    } else {
        decimal_digits(n / 10).push((n % 10 + 48) as u8)
    }
}

/// What a header value means as a number: some value when it is a run of decimal digits.
pub open spec fn numeric(s: Seq<u8>) -> Option<nat> {
    if is_decimal(s) {
        Some(decimal_value(s))
    } else {
        None
    }
}

/// Reading back the decimal writing of a number gives that number.
pub proof fn lemma_decimal_round_trip(n: nat)
    ensures
        numeric(decimal_digits(n)) == Some(n),
    decreases n,
{
    let d = decimal_digits(n);
    if n >= 10 {
        lemma_decimal_round_trip(n / 10);
        let prev = decimal_digits(n / 10);
        assert(d.drop_last() =~= prev);
        assert forall|i: int| 0 <= i < d.len() implies is_digit(#[trigger] d[i]) by {
            if i < prev.len() {
                assert(d[i] == prev[i]);
            }
        }
        assert(decimal_value(d) == decimal_value(prev) * 10 + n % 10);
    } else {
        assert(d.drop_last() =~= Seq::<u8>::empty());
        assert(decimal_value(d) == decimal_value(d.drop_last()) * 10 + n);
    }
}

/// The decimal writing of `n`.
pub fn decimal(n: usize) -> (r: Vec<u8>)
    ensures
        r@ == decimal_digits(n as nat),
    decreases n,
{
    if n < 10 {
        vec![(n + 48) as u8]
    } else {
        let mut v = decimal(n / 10);
        v.push((n % 10 + 48) as u8);
        v
    }
}

/// The number that `s` writes in decimal, capped at `usize::MAX`; none when `s` is no
/// run of decimal digits.
pub fn parse_decimal(s: &[u8]) -> (r: Option<usize>)
    ensures
        match numeric(s@) {
            Some(v) => r == Some(if v <= usize::MAX { v as usize } else { usize::MAX }),
            None => r is None,
        },
{
    if s.len() == 0 {
        return None;
    }
    let mut acc: usize = 0;
    let mut capped = false;
    let mut i: usize = 0;
    while i < s.len()
        invariant
            0 < s@.len(),
            i <= s@.len(),
            forall|j: int| 0 <= j < i ==> is_digit(#[trigger] s@[j]),
            capped ==> decimal_value(s@.subrange(0, i as int)) > usize::MAX,
            !capped ==> acc == decimal_value(s@.subrange(0, i as int)),
        decreases s@.len() - i,
    {
        let c = s[i];
        if c < 48 || c > 57 {
            assert(!is_decimal(s@));
            return None;
        }
        let d = (c - 48) as usize;
        assert(s@.subrange(0, i + 1).drop_last() =~= s@.subrange(0, i as int));
        if !capped {
            if acc > (usize::MAX - d) / 10 {
                capped = true;
                assert(acc * 10 + d > usize::MAX) by (nonlinear_arith)
                    requires
                        acc > (usize::MAX - d) / 10,
                        d <= 9,
                ;
            } else {
                assert(acc * 10 + d <= usize::MAX) by (nonlinear_arith)
                    requires
                        acc <= (usize::MAX - d) / 10,
                        d <= 9,
                ;
                acc = acc * 10 + d;
            }
        } else {
            let ghost prev = decimal_value(s@.subrange(0, i as int));
            assert(prev * 10 + d > usize::MAX) by (nonlinear_arith)
                requires
                    prev > usize::MAX,
            ;
        }
        i = i + 1;
    }
    assert(s@.subrange(0, i as int) =~= s@);
    if capped {
        Some(usize::MAX)
    } else {
        Some(acc)
    }
}

/// The first `x` at or after `from` is at `k` when `k` holds one and nothing before it does.
pub proof fn lemma_first_byte_at(b: Seq<u8>, x: u8, from: int, k: int)
    requires
        0 <= from <= k < b.len(),
        b[k] == x,
        forall|j: int| from <= j < k ==> b[j] != x,
    ensures
        first_byte(b, x, from) == Some(k),
    decreases k - from,
{
    if from < k {
        lemma_first_byte_at(b, x, from + 1, k);
    }
}

/// With no `x` at or after `from`, there is no first one.
pub proof fn lemma_first_byte_none(b: Seq<u8>, x: u8, from: int)
    requires
        0 <= from,
        forall|j: int| from <= j < b.len() ==> b[j] != x,
    ensures
        first_byte(b, x, from) is None,
    decreases b.len() - from,
{
    if from < b.len() {
        lemma_first_byte_none(b, x, from + 1);
    }
}

/// A byte string made of ASCII alone is valid UTF-8.
pub proof fn lemma_ascii_valid_utf8(s: Seq<u8>)
    requires
        forall|i: int| 0 <= i < s.len() ==> s[i] <= 0x7f,
    ensures
        valid_utf8(s),
{
    assert(s.subrange(0, 0) =~= Seq::<u8>::empty());
    assert(valid_utf8(Seq::<u8>::empty()));
    vstd::utf8::partial_valid_utf8_extend_ascii_block(s, 0, s.len() as int);
    assert(s.subrange(0, s.len() as int) =~= s);
}

} // verus!
