//! Byte-level text steps of trailer parsing: white-space trimming, prefixes,
//! decimal numbers and percent escapes. All of them work on UTF-8 bytes.
use vstd::prelude::*;
use vstd::utf8::{decode_utf8, valid_utf8};

use crate::error::{Error, ErrorView};
use crate::outside::{is_utf8, string_from_utf8, utf8_error_text};

verus! {

/// A one-byte white-space character: tab, line feed, vertical tab, form feed,
/// carriage return or space.
pub open spec fn is_ascii_space(c: u8) -> bool {
    (9 <= c && c <= 13) || c == 32
}

/// A three-byte UTF-8 encoding of a Unicode white-space character
/// (U+1680, U+2000 to U+200A, U+2028, U+2029, U+202F, U+205F or U+3000).
pub open spec fn is_wide_space(a: u8, b: u8, c: u8) -> bool {
    ||| (a == 0xE1 && b == 0x9A && c == 0x80)
    ||| (a == 0xE2 && b == 0x80 && ((0x80 <= c && c <= 0x8A) || c == 0xA8 || c == 0xA9 || c == 0xAF))
    ||| (a == 0xE2 && b == 0x81 && c == 0x9F)
    ||| (a == 0xE3 && b == 0x80 && c == 0x80)
}

/// A two-byte UTF-8 encoding of a Unicode white-space character (U+0085 or U+00A0).
pub open spec fn is_narrow_space(a: u8, b: u8) -> bool {
    a == 0xC2 && (b == 0x85 || b == 0xA0)
}

/// Length of the white-space character encoded at the front of `b`, or 0 if there is none.
pub open spec fn leading_space_len(b: Seq<u8>) -> nat {
    if b.len() >= 1 && is_ascii_space(b[0]) {
        1
    } else if b.len() >= 2 && is_narrow_space(b[0], b[1]) {
        2
    } else if b.len() >= 3 && is_wide_space(b[0], b[1], b[2]) {
        3
    } else {
        0
    }
}

/// Length of the white-space character encoded at the end of `b`, or 0 if there is none.
pub open spec fn trailing_space_len(b: Seq<u8>) -> nat {
    let n = b.len() as int;
    if n >= 1 && is_ascii_space(b[n - 1]) {
        1
    } else if n >= 2 && is_narrow_space(b[n - 2], b[n - 1]) {
        2
    } else if n >= 3 && is_wide_space(b[n - 3], b[n - 2], b[n - 1]) {
        3
    } else {
        0
    }
}

/// `b` without the white-space characters at its front.
pub open spec fn trim_start(b: Seq<u8>) -> Seq<u8>
    decreases b.len(),
{
    if leading_space_len(b) == 0 {
        b
    } else {
        trim_start(b.skip(leading_space_len(b) as int))
    }
}

/// `b` without the white-space characters at its end.
pub open spec fn trim_end(b: Seq<u8>) -> Seq<u8>
    decreases b.len(),
{
    if trailing_space_len(b) == 0 {
        b
    } else {
        trim_end(b.take(b.len() - trailing_space_len(b)))
    }
}

/// `b` without white space at either end.
pub open spec fn trim(b: Seq<u8>) -> Seq<u8> {
    trim_end(trim_start(b))
}

/// Whether `b` begins with `p`.
pub open spec fn has_prefix(b: Seq<u8>, p: Seq<u8>) -> bool {
    b.len() >= p.len() && b.take(p.len() as int) == p
}

fn leading_space_at(b: &[u8], i: usize) -> (r: usize)
    requires
        i <= b@.len(),
    ensures
        r == leading_space_len(b@.skip(i as int)),
{
    let n = b.len();
    if i < n && ((9 <= b[i] && b[i] <= 13) || b[i] == 32) {
        1
    } else if n - i > 1 && b[i] == 0xC2 && (b[i + 1] == 0x85 || b[i + 1] == 0xA0) {
        2
    } else if n - i > 2 && is_wide_space_exec(b[i], b[i + 1], b[i + 2]) {
        3
    } else {
        0
    }
}

fn trailing_space_before(b: &[u8], j: usize) -> (r: usize)
    requires
        j <= b@.len(),
    ensures
        r == trailing_space_len(b@.take(j as int)),
{
    if j >= 1 && ((9 <= b[j - 1] && b[j - 1] <= 13) || b[j - 1] == 32) {
        1
    } else if j >= 2 && b[j - 2] == 0xC2 && (b[j - 1] == 0x85 || b[j - 1] == 0xA0) {
        2
    } else if j >= 3 && is_wide_space_exec(b[j - 3], b[j - 2], b[j - 1]) {
        3
    } else {
        0
    }
}

fn is_wide_space_exec(a: u8, b: u8, c: u8) -> (r: bool)
    ensures
        r == is_wide_space(a, b, c),
{
    (a == 0xE1 && b == 0x9A && c == 0x80) || (a == 0xE2 && b == 0x80 && ((0x80 <= c && c <= 0x8A)
        || c == 0xA8 || c == 0xA9 || c == 0xAF)) || (a == 0xE2 && b == 0x81 && c == 0x9F) || (a
        == 0xE3 && b == 0x80 && c == 0x80)
}

/// `b` without white space at either end.
pub fn trim_bytes(b: &[u8]) -> (r: &[u8])
    ensures
        r@ == trim(b@),
{
    let n = b.len();
    let mut i: usize = 0;
    assert(b@.skip(0) =~= b@);
    while leading_space_at(b, i) > 0
        invariant
            i <= n,
            n == b@.len(),
            trim_start(b@) == trim_start(b@.skip(i as int)),
        decreases n - i,
    {
        let k = leading_space_at(b, i);
        assert(b@.skip(i as int).skip(k as int) =~= b@.skip(i + k));
        i = i + k;
    }
    assert(trim_start(b@) =~= b@.subrange(i as int, n as int));
    let s = &b[i..n];
    let mut j: usize = s.len();
    assert(s@.take(j as int) =~= s@);
    while trailing_space_before(s, j) > 0
        invariant
            j <= s@.len(),
            trim(b@) == trim_end(s@.take(j as int)),
        decreases j,
    {
        let k = trailing_space_before(s, j);
        assert(s@.take(j as int).take(j - k) =~= s@.take(j - k));
        j = j - k;
    }
    &s[0..j]
}

/// Whether `b` begins with `p`.
pub fn starts_with_bytes(b: &[u8], p: &[u8]) -> (r: bool)
    ensures
        r == has_prefix(b@, p@),
{
    if b.len() < p.len() {
        return false;
    }
    let mut i: usize = 0;
    while i < p.len()
        invariant
            i <= p@.len() <= b@.len(),
            forall|k: int| 0 <= k < i ==> b@[k] == p@[k],
        decreases p@.len() - i,
    {
        if b[i] != p[i] {
            assert(b@.take(p@.len() as int)[i as int] != p@[i as int]);
            return false;
        }
        i = i + 1;
    }
    assert(b@.take(p@.len() as int) =~= p@);
    true
}

/// Why text is not an unsigned 32-bit decimal number.
#[derive(Debug, Clone, Copy, PartialEq, Eq, Structural)]
pub enum IntErrorKind {
    /// There is no character at all.
    Empty,
    /// A character is not a decimal digit (or a sign stands alone).
    InvalidDigit,
    /// The number does not fit in 32 bits.
    PosOverflow,
}

/// The text under which each kind of number error is shown.
pub open spec fn int_error_text(k: IntErrorKind) -> Seq<char> {
    match k {
        IntErrorKind::Empty => "cannot parse integer from empty string"@,
        IntErrorKind::InvalidDigit => "invalid digit found in string"@,
        IntErrorKind::PosOverflow => "number too large to fit in target type"@,
    }
}

impl IntErrorKind {
    /// The text under which this error is shown.
    pub fn text(&self) -> (r: &'static str)
        ensures
            r@ == int_error_text(*self),
    {
        match self {
            IntErrorKind::Empty => "cannot parse integer from empty string",
            IntErrorKind::InvalidDigit => "invalid digit found in string",
            IntErrorKind::PosOverflow => "number too large to fit in target type",
        }
    }
}

pub open spec fn is_digit(c: u8) -> bool {
    48 <= c && c <= 57
}

/// Reads decimal digits from left to right onto `acc`, stopping at the first
/// character that is not a digit or the first step that leaves 32 bits.
pub open spec fn accumulate_digits(d: Seq<u8>, acc: u32) -> Result<u32, IntErrorKind>
    decreases d.len(),
{
    if d.len() == 0 {
        Ok(acc)
    } else if !is_digit(d[0]) {
        Err(IntErrorKind::InvalidDigit)
    } else if acc * 10 + (d[0] - 48) > u32::MAX {
        Err(IntErrorKind::PosOverflow)
    } else {
        accumulate_digits(d.skip(1), (acc * 10 + (d[0] - 48)) as u32)
    }
}

/// An optional `+` followed by decimal digits, read as an unsigned 32-bit number.
pub open spec fn parse_u32_spec(s: Seq<u8>) -> Result<u32, IntErrorKind> {
    if s.len() == 0 {
        Err(IntErrorKind::Empty)
    } else if s.len() == 1 && (s[0] == 43 || s[0] == 45) {
        Err(IntErrorKind::InvalidDigit)
    } else if s[0] == 43 {
        accumulate_digits(s.skip(1), 0)
    } else {
        accumulate_digits(s, 0)
    }
}

/// Reads an optional `+` and decimal digits as an unsigned 32-bit number.
pub fn parse_u32_bytes(s: &[u8]) -> (r: Result<u32, IntErrorKind>)
    ensures
        r == parse_u32_spec(s@),
{
    let n = s.len();
    if n == 0 {
        return Err(IntErrorKind::Empty);
    }
    if n == 1 && (s[0] == 43 || s[0] == 45) {
        return Err(IntErrorKind::InvalidDigit);
    }
    let mut i: usize = if s[0] == 43 { 1 } else { 0 };
    let mut acc: u32 = 0;
    assert(s@.skip(i as int) == (if s@[0] == 43 { s@.skip(1) } else { s@ })) by {
        assert(s@.skip(0) =~= s@);
    }
    while i < n
        invariant
            i <= n,
            n == s@.len(),
            parse_u32_spec(s@) == accumulate_digits(s@.skip(i as int), acc),
        decreases n - i,
    {
        let c = s[i];
        assert(s@.skip(i as int)[0] == c);
        if c < 48 || c > 57 {
            return Err(IntErrorKind::InvalidDigit);
        }
        let v: u64 = acc as u64 * 10 + (c - 48) as u64;
        if v > 0xFFFF_FFFF {
            return Err(IntErrorKind::PosOverflow);
        }
        assert(s@.skip(i as int).skip(1) =~= s@.skip(i + 1));
        acc = v as u32;
        i = i + 1;
    }
    assert(s@.skip(n as int).len() == 0);
    Ok(acc)
}

/// The value of a hexadecimal digit character.
pub open spec fn hex_value(c: u8) -> Option<u8> {
    if 48 <= c && c <= 57 {
        Some((c - 48) as u8)
    } else if 97 <= c && c <= 102 {
        Some((c - 87) as u8)
    } else if 65 <= c && c <= 70 {
        Some((c - 55) as u8)
    } else {
        None
    }
}

/// The byte that the two characters after a `%` stand for, read as a base-16
/// number: two hex digits, or a `+` sign and one hex digit.
pub open spec fn escape_value(h0: u8, h1: u8) -> Option<u8> {
    if h0 == 43 {
        hex_value(h1)
    } else {
        match (hex_value(h0), hex_value(h1)) {
            (Some(a), Some(b)) => Some((a * 16 + b) as u8),
            _ => None,
        }
    }
}

/// How percent-decoding a byte string ends: with the decoded bytes, at an
/// escape whose characters are not a number, or at an escape whose two
/// characters are not UTF-8, where decoding aborts.
pub enum PercentScan {
    Decoded(Seq<u8>),
    BadEscape,
    Aborts,
}

pub open spec fn prepend_scan(p: Seq<u8>, o: PercentScan) -> PercentScan {
    match o {
        PercentScan::Decoded(r) => PercentScan::Decoded(p + r),
        _ => o,
    }
}

/// Percent-decoding from left to right: a `%` with at least two bytes after it
/// starts an escape, every other byte stands for itself.
pub open spec fn percent_scan(d: Seq<u8>) -> PercentScan
    decreases d.len(),
{
    if d.len() == 0 {
        PercentScan::Decoded(Seq::empty())
    } else if d[0] == 37 && d.len() > 2 {
        if !valid_utf8(d.subrange(1, 3)) {
            PercentScan::Aborts
        } else {
            match escape_value(d[1], d[2]) {
                None => PercentScan::BadEscape,
                Some(v) => prepend_scan(seq![v], percent_scan(d.skip(3))),
            }
        }
    } else {
        prepend_scan(seq![d[0]], percent_scan(d.skip(1)))
    }
}

/// The text that percent-decoding `d` gives, or the error it reports; `None`
/// where decoding aborts.
pub open spec fn percent_decode_spec(d: Seq<u8>) -> Option<Result<Seq<char>, ErrorView>> {
    match percent_scan(d) {
        PercentScan::Aborts => None,
        PercentScan::BadEscape => Some(Err(ErrorView::Decoding("Invalid percent encoding"@))),
        PercentScan::Decoded(r) => Some(
            if valid_utf8(r) {
                Ok(decode_utf8(r))
            } else {
                Err(ErrorView::Decoding(utf8_error_text(r)))
            },
        ),
    }
}

fn hex_value_exec(c: u8) -> (r: Option<u8>)
    ensures
        r == hex_value(c),
{
    if 48 <= c && c <= 57 {
        Some(c - 48)
    } else if 97 <= c && c <= 102 {
        Some(c - 87)
    } else if 65 <= c && c <= 70 {
        Some(c - 55)
    } else {
        None
    }
}

fn escape_value_exec(h0: u8, h1: u8) -> (r: Option<u8>)
    ensures
        r == escape_value(h0, h1),
{
    if h0 == 43 {
        hex_value_exec(h1)
    } else {
        match (hex_value_exec(h0), hex_value_exec(h1)) {
            (Some(a), Some(b)) => Some(a * 16 + b),
            _ => None,
        }
    }
}

proof fn lemma_prepend_push(out: Seq<u8>, v: u8, x: PercentScan)
    ensures
        prepend_scan(out, prepend_scan(seq![v], x)) == prepend_scan(out.push(v), x),
{
    if let PercentScan::Decoded(r) = x {
        assert(out + (seq![v] + r) =~= out.push(v) + r);
    }
}

/// Percent-decodes `data` into text, or says why it cannot; `None` where an
/// escape is followed by two bytes that are not UTF-8, which aborts decoding.
pub fn percent_decode_checked(data: &[u8]) -> (r: Option<Result<String, Error>>)
    ensures
        match r {
            None => percent_decode_spec(data@) is None,
            Some(Ok(s)) => percent_decode_spec(data@) == Some(Ok::<_, ErrorView>(s@)),
            Some(Err(e)) => percent_decode_spec(data@) == Some(Err::<Seq<char>, _>(e@)),
        },
{
    let n = data.len();
    let mut out: Vec<u8> = Vec::new();
    let mut i: usize = 0;
    assert(data@.skip(0) =~= data@);
    while i < n
        invariant
            i <= n,
            n == data@.len(),
            percent_scan(data@) == prepend_scan(out@, percent_scan(data@.skip(i as int))),
        decreases n - i,
    {
        let ghost rest = data@.skip(i as int);
        assert(rest[0] == data@[i as int]);
        if data[i] == 37 && n - i > 2 {
            let hex = &data[i + 1..i + 3];
            assert(hex@ =~= rest.subrange(1, 3));
            if !is_utf8(hex) {
                return None;
            }
            match escape_value_exec(data[i + 1], data[i + 2]) {
                None => {
                    return Some(Err(Error::Decoding(String::from_str("Invalid percent encoding"))));
                },
                Some(v) => {
                    proof {
                        assert(rest.skip(3) =~= data@.skip(i + 3));
                        lemma_prepend_push(out@, v, percent_scan(rest.skip(3)));
                    }
                    out.push(v);
                    i = i + 3;
                },
            }
        } else {
            proof {
                assert(rest.skip(1) =~= data@.skip(i + 1));
                lemma_prepend_push(out@, data@[i as int], percent_scan(rest.skip(1)));
            }
            out.push(data[i]);
            i = i + 1;
        }
    }
    assert(data@.skip(n as int) =~= Seq::<u8>::empty());
    assert(out@ + Seq::<u8>::empty() =~= out@);
    match string_from_utf8(out) {
        Ok(s) => Some(Ok(s)),
        Err(m) => Some(Err(Error::Decoding(m))),
    }
}

/// Percent-decodes `data` into text: `%` and two hex digits stand for one byte,
/// and the bytes must form UTF-8.
pub fn percent_decode(data: &[u8]) -> (r: Result<String, Error>)
    requires
        percent_decode_spec(data@) is Some,
    ensures
        match r {
            Ok(s) => percent_decode_spec(data@) == Some(Ok::<_, ErrorView>(s@)),
            Err(e) => percent_decode_spec(data@) == Some(Err::<Seq<char>, _>(e@)),
        },
{
    match percent_decode_checked(data) {
        Some(r) => r,
        None => {
            assert(false);
            Err(Error::decoding("Invalid percent encoding"))
        },
    }
}

/// Law: bytes without `%` come out of percent-decoding unchanged.
pub proof fn lemma_percent_plain(d: Seq<u8>)
    requires
        forall|i: int| 0 <= i < d.len() ==> d[i] != 37,
    ensures
        percent_scan(d) == PercentScan::Decoded(d),
    decreases d.len(),
{
    if d.len() > 0 {
        let rest = d.skip(1);
        assert forall|i: int| 0 <= i < rest.len() implies rest[i] != 37 by {
            assert(rest[i] == d[i + 1]);
        }
        lemma_percent_plain(rest);
        assert(seq![d[0]] + rest =~= d);
    } else {
        assert(d =~= Seq::<u8>::empty());
    }
}

} // verus!
