//! Percent-encoding, as it is used in addresses and in submitted forms.
use crate::unicode::{utf8_lossy, utf8_text_lossy};
use vstd::prelude::*;
use vstd::utf8::*;

verus! {

// ---------------------------------------------------------------------------
// Encoding
// ---------------------------------------------------------------------------

/// The bytes that stand for themselves in an address.
pub open spec fn is_unreserved(b: u8) -> bool {
    ||| 0x30 <= b <= 0x39
    ||| 0x41 <= b <= 0x5a
    ||| 0x61 <= b <= 0x7a
    ||| b == 0x2d
    ||| b == 0x5f
    ||| b == 0x2e
    ||| b == 0x7e
}

/// The hexadecimal digit for a number below sixteen, in upper case.
pub open spec fn hex_digit(n: u8) -> char {
    if n < 10 {
        (48 + n) as char
    } else {
        (55 + n) as char
    }
}

/// A byte in an address: itself where that is allowed, or `%` and its two
/// hexadecimal digits.
pub open spec fn encoded_byte(b: u8) -> Seq<char> {
    if is_unreserved(b) {
        seq![b as char]
    } else {
        seq!['%', hex_digit(b / 16), hex_digit(b % 16)]
    }
}

/// The bytes of a text in an address.
pub open spec fn encoded_bytes(bytes: Seq<u8>) -> Seq<char>
    decreases bytes.len(),
{
    if bytes.len() == 0 {
        Seq::empty()
    } else {
        encoded_bytes(bytes.drop_last()) + encoded_byte(bytes.last())
    }
}

/// A text in an address.
pub open spec fn url_encoded(s: Seq<char>) -> Seq<char> {
    encoded_bytes(encode_utf8(s))
}

fn hex_digit_char(n: u8) -> (c: char)
    requires
        n < 16,
    ensures
        c == hex_digit(n),
{
    if n < 10 {
        (48 + n) as char
    } else {
        (55 + n) as char
    }
}

/// Encodes a text for an address.
pub fn url_encode(s: &str) -> (r: String)
    ensures
        r@ == url_encoded(s@),
{
    let bytes: &[u8] = s.as_bytes();
    let mut out = String::new();
    assert(bytes@.take(0) =~= Seq::empty());
    for i in 0..bytes.len()
        invariant
            bytes@ == encode_utf8(s@),
            out@ == encoded_bytes(bytes@.take(i as int)),
    {
        let ghost before = out@;
        let b: u8 = bytes[i];
        assert(bytes@.take(i + 1).drop_last() =~= bytes@.take(i as int));
        if (0x30 <= b && b <= 0x39) || (0x41 <= b && b <= 0x5a) || (0x61 <= b && b <= 0x7a) || b
            == 0x2d || b == 0x5f || b == 0x2e || b == 0x7e {
            out.push(b as char);
        } else {
            out.push('%');
            out.push(hex_digit_char(b / 16));
            out.push(hex_digit_char(b % 16));
        }
        assert(out@ =~= before + encoded_byte(b));
    }
    assert(bytes@.take(bytes@.len() as int) =~= bytes@);
    out
}

// ---------------------------------------------------------------------------
// Decoding
// ---------------------------------------------------------------------------

/// The value of a hexadecimal digit.
pub open spec fn hex_value(b: u8) -> Option<u8> {
    if 0x30 <= b <= 0x39 {
        Some((b - 0x30) as u8)
    } else if 0x41 <= b <= 0x46 {
        Some((b - 0x37) as u8)
    } else if 0x61 <= b <= 0x66 {
        Some((b - 0x57) as u8)
    } else {
        None
    }
}

/// The byte that two characters behind a `%` stand for: two hexadecimal digits,
/// or a `+` and one. Anything else stands for zero.
pub open spec fn pair_value(a: u8, b: u8) -> u8 {
    match (hex_value(a), hex_value(b)) {
        (Some(x), Some(y)) => (16 * x + y) as u8,
        (None, Some(y)) => if a == 0x2b {
            y
        } else {
            0
        },
        _ => 0,
    }
}

/// The bytes that an encoded text stands for. A `+` is a space; a `%` with less
/// than two characters behind it stands for itself.
pub open spec fn decoded_bytes(s: Seq<u8>) -> Seq<u8>
    decreases s.len(),
{
    if s.len() == 0 {
        Seq::empty()
    } else if s[0] == 0x2b {
        seq![0x20u8] + decoded_bytes(s.skip(1))
    } else if s[0] == 0x25 && s.len() > 2 {
        seq![pair_value(s[1], s[2])] + decoded_bytes(s.skip(3))
    } else {
        seq![s[0]] + decoded_bytes(s.skip(1))
    }
}

/// The text that an encoded text stands for.
pub open spec fn url_decoded(s: Seq<char>) -> Seq<char> {
    utf8_lossy(decoded_bytes(encode_utf8(s)))
}

fn hex_digit_value(b: u8) -> (r: Option<u8>)
    ensures
        r == hex_value(b),
{
    if 0x30 <= b && b <= 0x39 {
        Some(b - 0x30)
    } else if 0x41 <= b && b <= 0x46 {
        Some(b - 0x37)
    } else if 0x61 <= b && b <= 0x66 {
        Some(b - 0x57)
    } else {
        None
    }
}

fn pair_byte(a: u8, b: u8) -> (r: u8)
    ensures
        r == pair_value(a, b),
{
    match (hex_digit_value(a), hex_digit_value(b)) {
        (Some(x), Some(y)) => 16 * x + y,
        (None, Some(y)) => if a == 0x2b {
            y
        } else {
            0
        },
        _ => 0,
    }
}

/// Decodes a text that came in an address or in a form.
pub fn url_decode(s: &str) -> (r: String)
    ensures
        r@ == url_decoded(s@),
{
    let bytes: &[u8] = s.as_bytes();
    let n: usize = bytes.len();
    let mut out: Vec<u8> = Vec::new();
    let mut i: usize = 0;
    assert(bytes@.skip(0) =~= bytes@);
    while i < n
        invariant
            n == bytes@.len(),
            i <= n,
            decoded_bytes(bytes@) == out@ + decoded_bytes(bytes@.skip(i as int)),
        decreases n - i,
    {
        let ghost rest = bytes@.skip(i as int);
        let ghost before = out@;
        let b: u8 = bytes[i];
        if b == 0x2b {
            out.push(0x20);
            assert(rest.skip(1) =~= bytes@.skip(i + 1));
            assert(out@ + decoded_bytes(rest.skip(1)) =~= before + (seq![0x20u8] + decoded_bytes(
                rest.skip(1),
            )));
            i = i + 1;
        } else if b == 0x25 && n - i > 2 {
            let v: u8 = pair_byte(bytes[i + 1], bytes[i + 2]);
            out.push(v);
            assert(rest.skip(3) =~= bytes@.skip(i + 3));
            assert(out@ + decoded_bytes(rest.skip(3)) =~= before + (seq![v] + decoded_bytes(
                rest.skip(3),
            )));
            i = i + 3;
        } else {
            out.push(b);
            assert(rest.skip(1) =~= bytes@.skip(i + 1));
            assert(out@ + decoded_bytes(rest.skip(1)) =~= before + (seq![b] + decoded_bytes(
                rest.skip(1),
            )));
            i = i + 1;
        }
    }
    assert(bytes@.skip(n as int) =~= Seq::empty());
    assert(out@ =~= decoded_bytes(bytes@));
    utf8_text_lossy(&out)
}

// ---------------------------------------------------------------------------
// Laws
// ---------------------------------------------------------------------------

/// An encoded byte holds ASCII characters only, and stands for that byte.
proof fn lemma_decode_one(b: u8, rest: Seq<u8>)
    ensures
        is_ascii_chars(encoded_byte(b)),
        decoded_bytes(encode_utf8(encoded_byte(b)) + rest) == seq![b] + decoded_bytes(rest),
{
    let e = encoded_byte(b);
    assert(is_ascii_chars(e));
    is_ascii_chars_encode_utf8(e);
    let bytes = encode_utf8(e) + rest;
    if is_unreserved(b) {
        assert(encode_utf8(e) =~= seq![b]);
        assert(bytes.skip(1) =~= rest);
    } else {
        assert(encode_utf8(e).len() == 3);
        assert(bytes.skip(3) =~= rest);
        assert(pair_value(bytes[1], bytes[2]) == b);
    }
}

pub(crate) proof fn lemma_encode_utf8_concat(a: Seq<char>, b: Seq<char>)
    ensures
        encode_utf8(a + b) == encode_utf8(a) + encode_utf8(b),
    decreases a.len(),
{
    if a.len() == 0 {
        assert(a + b =~= b);
        assert(encode_utf8(a) =~= Seq::empty());
        assert(encode_utf8(a) + encode_utf8(b) =~= encode_utf8(b));
    } else {
        assert((a + b).drop_first() =~= a.drop_first() + b);
        lemma_encode_utf8_concat(a.drop_first(), b);
        assert(encode_utf8(a + b) =~= encode_utf8(a) + encode_utf8(b));
    }
}

proof fn lemma_decode_encoded_bytes(bytes: Seq<u8>, rest: Seq<u8>)
    ensures
        decoded_bytes(encode_utf8(encoded_bytes(bytes)) + rest) == bytes + decoded_bytes(rest),
    decreases bytes.len(),
{
    if bytes.len() == 0 {
        assert(encode_utf8(encoded_bytes(bytes)) + rest =~= rest);
        assert(bytes + decoded_bytes(rest) =~= decoded_bytes(rest));
    } else {
        let front = bytes.drop_last();
        let b = bytes.last();
        lemma_encode_utf8_concat(encoded_bytes(front), encoded_byte(b));
        let tail = encode_utf8(encoded_byte(b)) + rest;
        assert(encode_utf8(encoded_bytes(bytes)) + rest =~= encode_utf8(encoded_bytes(front))
            + tail);
        lemma_decode_encoded_bytes(front, tail);
        lemma_decode_one(b, rest);
        assert(front + (seq![b] + decoded_bytes(rest)) =~= bytes + decoded_bytes(rest));
    }
}

/// Decoding an encoded text gives the text back.
pub proof fn lemma_url_round_trip(s: Seq<char>)
    ensures
        url_decoded(url_encoded(s)) == s,
{
    let bytes = encode_utf8(s);
    let e = encode_utf8(encoded_bytes(bytes));
    lemma_decode_encoded_bytes(bytes, Seq::empty());
    assert(e + Seq::<u8>::empty() =~= e);
    assert(decoded_bytes(e) =~= bytes);
    encode_utf8_valid_utf8(s);
    encode_utf8_decode_utf8(s);
}

/// Unreserved bytes stand for themselves.
pub proof fn lemma_unreserved_encoded(bytes: Seq<u8>)
    requires
        forall|i: int| 0 <= i < bytes.len() ==> is_unreserved(#[trigger] bytes[i]),
    ensures
        encoded_bytes(bytes).len() == bytes.len(),
        forall|i: int|
            0 <= i < bytes.len() ==> #[trigger] encoded_bytes(bytes)[i] == bytes[i] as char,
    decreases bytes.len(),
{
    if bytes.len() > 0 {
        let front = bytes.drop_last();
        assert(is_unreserved(bytes[bytes.len() - 1]));
        lemma_unreserved_encoded(front);
        assert forall|i: int| 0 <= i < bytes.len() implies #[trigger] encoded_bytes(bytes)[i]
            == bytes[i] as char by {
            if i < front.len() {
                assert(encoded_bytes(bytes)[i] == encoded_bytes(front)[i]);
            }
        }
    }
}

/// An encoded text holds nothing but unreserved characters and `%`.
pub proof fn lemma_url_encoded_chars(s: Seq<char>, i: int)
    requires
        0 <= i < url_encoded(s).len(),
    ensures
        url_encoded(s)[i] == '%' || ((url_encoded(s)[i] as u32) < 128 && is_unreserved(
            url_encoded(s)[i] as u8,
        )),
{
    lemma_encoded_bytes_chars(encode_utf8(s), i);
}

proof fn lemma_encoded_bytes_chars(bytes: Seq<u8>, i: int)
    requires
        0 <= i < encoded_bytes(bytes).len(),
    ensures
        encoded_bytes(bytes)[i] == '%' || ((encoded_bytes(bytes)[i] as u32) < 128 && is_unreserved(
            encoded_bytes(bytes)[i] as u8,
        )),
    decreases bytes.len(),
{
    let front = encoded_bytes(bytes.drop_last());
    if i < front.len() {
        lemma_encoded_bytes_chars(bytes.drop_last(), i);
    } else {
        assert(encoded_bytes(bytes)[i] == encoded_byte(bytes.last())[i - front.len()]);
    }
}

} // verus!
