//! The calls this library makes into code it does not verify: UTF-8 checks of
//! the standard library and the base64 engine. Each function here states what
//! its callee does; the contracts are trusted, not proved.
use vstd::prelude::*;
use vstd::utf8::{decode_utf8, valid_utf8};

verus! {

/// The text that `std::string::FromUtf8Error` shows for a byte sequence that is
/// not UTF-8 (it names where the first bad sequence starts).
pub uninterp spec fn utf8_error_text(bytes: Seq<u8>) -> Seq<char>;

/// Calls `std::str::from_utf8`, which succeeds exactly when the bytes are UTF-8;
/// the contract states that, in terms of vstd's definition of UTF-8.
#[verifier::external_body]
pub fn is_utf8(bytes: &[u8]) -> (r: bool)
    ensures
        r == valid_utf8(bytes@),
{
    std::str::from_utf8(bytes).is_ok()
}

/// Calls `String::from_utf8`: when the bytes are UTF-8 it gives the string they
/// encode, else an error whose shown text is passed on. The contract states that
/// the string's characters are the decoding of the bytes and names the error text.
#[verifier::external_body]
pub fn string_from_utf8(bytes: Vec<u8>) -> (r: Result<String, String>)
    ensures
        r is Ok <==> valid_utf8(bytes@),
        r matches Ok(s) ==> s@ == decode_utf8(bytes@),
        r matches Err(m) ==> m@ == utf8_error_text(bytes@),
{
    match String::from_utf8(bytes) {
        Ok(s) => Ok(s),
        Err(e) => Err(e.to_string()),
    }
}

/// The character of a 6-bit value in the standard base64 alphabet
/// (`A`-`Z`, `a`-`z`, `0`-`9`, `+`, `/`).
pub open spec fn base64_symbol(v: int) -> char {
    if v < 26 {
        (65 + v) as char
    } else if v < 52 {
        (97 + v - 26) as char
    } else if v < 62 {
        (48 + v - 52) as char
    } else if v == 62 {
        '+'
    } else {
        '/'
    }
}

/// Standard base64 with padding (RFC 4648, section 4): every three bytes become
/// four characters; a last group of one or two bytes is padded with `=`.
pub open spec fn base64_standard(d: Seq<u8>) -> Seq<char>
    decreases d.len(),
{
    if d.len() == 0 {
        Seq::empty()
    } else {
        let a = d[0] as int;
        let b = if d.len() > 1 { d[1] as int } else { 0 };
        let c = if d.len() > 2 { d[2] as int } else { 0 };
        if d.len() == 1 {
            seq![base64_symbol(a / 4), base64_symbol((a % 4) * 16), '=', '=']
        } else if d.len() == 2 {
            seq![
                base64_symbol(a / 4),
                base64_symbol((a % 4) * 16 + b / 16),
                base64_symbol((b % 16) * 4),
                '=',
            ]
        } else {
            seq![
                base64_symbol(a / 4),
                base64_symbol((a % 4) * 16 + b / 16),
                base64_symbol((b % 16) * 4 + c / 64),
                base64_symbol(c % 64),
            ] + base64_standard(d.skip(3))
        }
    }
}

/// The ASCII byte of a 6-bit value in the standard base64 alphabet.
pub open spec fn base64_symbol_byte(v: int) -> u8 {
    if v < 26 {
        (65 + v) as u8
    } else if v < 52 {
        (97 + v - 26) as u8
    } else if v < 62 {
        (48 + v - 52) as u8
    } else if v == 62 {
        43
    } else {
        47
    }
}

/// The bytes of the standard base64 text of `d`: [`base64_standard`] written
/// as ASCII bytes, with `=` (61) for padding.
pub open spec fn base64_bytes(d: Seq<u8>) -> Seq<u8>
    decreases d.len(),
{
    if d.len() == 0 {
        Seq::empty()
    } else {
        let a = d[0] as int;
        let b = if d.len() > 1 { d[1] as int } else { 0 };
        let c = if d.len() > 2 { d[2] as int } else { 0 };
        if d.len() == 1 {
            seq![base64_symbol_byte(a / 4), base64_symbol_byte((a % 4) * 16), 61u8, 61u8]
        } else if d.len() == 2 {
            seq![
                base64_symbol_byte(a / 4),
                base64_symbol_byte((a % 4) * 16 + b / 16),
                base64_symbol_byte((b % 16) * 4),
                61u8,
            ]
        } else {
            seq![
                base64_symbol_byte(a / 4),
                base64_symbol_byte((a % 4) * 16 + b / 16),
                base64_symbol_byte((b % 16) * 4 + c / 64),
                base64_symbol_byte(c % 64),
            ] + base64_bytes(d.skip(3))
        }
    }
}

proof fn lemma_symbol_byte_injective(x: int, y: int)
    requires
        0 <= x < 64,
        0 <= y < 64,
    ensures
        base64_symbol_byte(x) != 61,
        base64_symbol_byte(x) == base64_symbol_byte(y) ==> x == y,
{
}

/// Different bytes have different base64 texts.
pub proof fn lemma_base64_bytes_injective(d1: Seq<u8>, d2: Seq<u8>)
    requires
        base64_bytes(d1) == base64_bytes(d2),
    ensures
        d1 == d2,
    decreases d1.len(),
{
    let e1 = base64_bytes(d1);
    let e2 = base64_bytes(d2);
    if d1.len() == 0 || d2.len() == 0 {
        if d1.len() != 0 || d2.len() != 0 {
            assert(e1.len() != e2.len());
        }
        assert(d1 =~= d2);
        return;
    }
    let a1 = d1[0] as int;
    let a2 = d2[0] as int;
    let b1 = if d1.len() > 1 { d1[1] as int } else { 0 };
    let b2 = if d2.len() > 1 { d2[1] as int } else { 0 };
    let c1 = if d1.len() > 2 { d1[2] as int } else { 0 };
    let c2 = if d2.len() > 2 { d2[2] as int } else { 0 };
    assert(e1[0] == e2[0] && e1[1] == e2[1] && e1[2] == e2[2] && e1[3] == e2[3]);
    lemma_symbol_byte_injective(a1 / 4, a2 / 4);
    lemma_symbol_byte_injective((a1 % 4) * 16 + b1 / 16, (a2 % 4) * 16 + b2 / 16);
    lemma_symbol_byte_injective((b1 % 16) * 4 + c1 / 64, (b2 % 16) * 4 + c2 / 64);
    lemma_symbol_byte_injective((b1 % 16) * 4, (b2 % 16) * 4);
    lemma_symbol_byte_injective((b1 % 16) * 4, (b2 % 16) * 4 + c2 / 64);
    lemma_symbol_byte_injective((b1 % 16) * 4 + c1 / 64, (b2 % 16) * 4);
    lemma_symbol_byte_injective(c1 % 64, c2 % 64);
    lemma_symbol_byte_injective((a1 % 4) * 16, (a2 % 4) * 16);
    lemma_symbol_byte_injective((a1 % 4) * 16, (a2 % 4) * 16 + b2 / 16);
    lemma_symbol_byte_injective((a1 % 4) * 16 + b1 / 16, (a2 % 4) * 16);
    lemma_symbol_byte_injective(c1 % 64, 0);
    lemma_symbol_byte_injective(c2 % 64, 0);
    assert(d1.len() == 1 <==> d2.len() == 1);
    assert(d1.len() == 2 <==> d2.len() == 2);
    assert(a1 == a2);
    if d1.len() >= 2 {
        assert(b1 == b2);
    }
    if d1.len() >= 3 {
        assert(c1 == c2);
        let r1 = base64_bytes(d1.skip(3));
        let r2 = base64_bytes(d2.skip(3));
        assert(r1 =~= e1.skip(4));
        assert(r2 =~= e2.skip(4));
        lemma_base64_bytes_injective(d1.skip(3), d2.skip(3));
        assert(d1 =~= seq![d1[0], d1[1], d1[2]] + d1.skip(3));
        assert(d2 =~= seq![d2[0], d2[1], d2[2]] + d2.skip(3));
    } else {
        assert(d1 =~= d2);
    }
}

/// Whether `t` is the standard base64 text of some bytes.
pub open spec fn is_base64_text(t: Seq<u8>) -> bool {
    exists|d: Seq<u8>| #[trigger] base64_bytes(d) == t
}

/// What `base64::engine::general_purpose::STANDARD` decoding gives for `data`:
/// the decoded bytes, or the text that its `DecodeError` shows.
pub uninterp spec fn base64_standard_decode(data: Seq<u8>) -> Result<Seq<u8>, Seq<char>>;

/// Calls `base64::Engine::encode` with the `STANDARD` engine (standard alphabet,
/// padding on). The contract states the standard encoding; the engine only
/// panics when the encoded text could not be allocated (more than `isize::MAX`
/// bytes), which the bound on the input excludes.
#[verifier::external_body]
pub fn base64_encode(data: &[u8]) -> (r: String)
    requires
        data@.len() <= isize::MAX / 4 * 3,
    ensures
        r@ == base64_standard(data@),
{
    base64::Engine::encode(&base64::engine::general_purpose::STANDARD, data)
}

/// Calls `base64::Engine::decode` with the `STANDARD` engine; an error is passed
/// on as the text it shows. The contract names the outcome, which depends on the
/// input alone, and states which texts decode: exactly the standard encodings of
/// bytes (the engine asks for canonical padding and no trailing bits), each back
/// to those bytes. The text of the error is named, not spelled out.
#[verifier::external_body]
pub fn base64_decode(data: &[u8]) -> (r: Result<Vec<u8>, String>)
    ensures
        r is Ok <==> is_base64_text(data@),
        is_base64_text(data@) ==> base64_bytes(r->Ok_0@) == data@,
        match r {
            Ok(v) => base64_standard_decode(data@) == Ok::<Seq<u8>, Seq<char>>(v@),
            Err(m) => base64_standard_decode(data@) == Err::<Seq<u8>, Seq<char>>(m@),
        },
{
    match base64::Engine::decode(&base64::engine::general_purpose::STANDARD, data) {
        Ok(v) => Ok(v),
        Err(e) => Err(e.to_string()),
    }
}

} // verus!
