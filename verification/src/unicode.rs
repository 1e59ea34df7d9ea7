//! Letter case, character classes and the UTF-8 and UTF-16 forms of a text.
use vstd::prelude::*;
use vstd::utf8::*;

verus! {

// ---------------------------------------------------------------------------
// ASCII
// ---------------------------------------------------------------------------

/// The lower-case form of an ASCII capital; every other character as it is.
pub open spec fn ascii_lower(c: char) -> char {
    if 'A' <= c <= 'Z' {
        (c as u32 + 32) as char
    } else {
        c
    }
}

/// A text with its ASCII capitals in lower case.
pub open spec fn ascii_lowercase(s: Seq<char>) -> Seq<char> {
    s.map_values(|c: char| ascii_lower(c))
}

/// The capital of an ASCII letter; every other character as it is.
pub open spec fn ascii_upper(c: char) -> char {
    if 'a' <= c <= 'z' {
        (c as u32 - 32) as char
    } else {
        c
    }
}

/// A text with its ASCII letters in capitals.
pub open spec fn ascii_uppercase(s: Seq<char>) -> Seq<char> {
    s.map_values(|c: char| ascii_upper(c))
}

/// Of a text in ASCII, capitals and small letters have the same lower-case form.
pub proof fn lemma_uppercase_lowered(s: Seq<char>)
    requires
        is_ascii_chars(s),
    ensures
        is_ascii_chars(ascii_uppercase(s)),
        ascii_lowercase(ascii_uppercase(s)) == ascii_lowercase(s),
{
    assert(ascii_lowercase(ascii_uppercase(s)) =~= ascii_lowercase(s));
}

/// An ASCII letter or digit.
pub open spec fn is_ascii_alnum(c: char) -> bool {
    'a' <= c <= 'z' || 'A' <= c <= 'Z' || '0' <= c <= '9'
}

/// The lower-case form of an ASCII capital.
pub fn lower_ascii_char(c: char) -> (r: char)
    ensures
        r == ascii_lower(c),
{
    if 'A' <= c && c <= 'Z' {
        (c as u8 + 32) as char
    } else {
        c
    }
}

/// The characters with ASCII capitals in lower case.
pub fn lower_ascii_chars(s: &[char]) -> (r: Vec<char>)
    ensures
        r@ == ascii_lowercase(s@),
{
    let mut r: Vec<char> = Vec::new();
    for i in 0..s.len()
        invariant
            r@ == ascii_lowercase(s@.take(i as int)),
    {
        r.push(lower_ascii_char(s[i]));
        assert(r@ =~= ascii_lowercase(s@.take(i + 1)));
    }
    assert(s@.take(s@.len() as int) =~= s@);
    r
}

// ---------------------------------------------------------------------------
// Unicode properties
// ---------------------------------------------------------------------------

/// The lower-case form of a text, after the Unicode mappings.
pub uninterp spec fn unicode_lowercase(s: Seq<char>) -> Seq<char>;

/// The lower-case form of a text. Of a text in ASCII it is the text with the
/// letters `A` to `Z` in lower case.
pub open spec fn lowercase(s: Seq<char>) -> Seq<char> {
    if is_ascii_chars(s) {
        ascii_lowercase(s)
    } else {
        unicode_lowercase(s)
    }
}

/// `str::to_lowercase` depends on the text alone. On a text in ASCII it changes
/// the letters `A` to `Z` and nothing else.
pub assume_specification[ str::to_lowercase ](s: &str) -> (r: String)
    ensures
        is_ascii_chars(s@) ==> r@ == ascii_lowercase(s@),
        !is_ascii_chars(s@) ==> r@ == unicode_lowercase(s@),
;

/// The characters that Unicode counts as letters or numbers.
pub uninterp spec fn is_unicode_alnum(c: char) -> bool;

/// A letter or a number. In ASCII these are the letters `A` to `Z` and `a` to
/// `z` and the digits.
pub open spec fn is_alnum(c: char) -> bool {
    if (c as u32) < 128 {
        is_ascii_alnum(c)
    } else {
        is_unicode_alnum(c)
    }
}

/// `char::is_alphanumeric` depends on the character alone. Of the ASCII
/// characters it picks out the letters and the digits.
pub assume_specification[ char::is_alphanumeric ](c: char) -> (r: bool)
    ensures
        (c as u32) < 128 ==> r == is_ascii_alnum(c),
        (c as u32) >= 128 ==> r == is_unicode_alnum(c),
;

// ---------------------------------------------------------------------------
// UTF-8
// ---------------------------------------------------------------------------

/// `std::str::from_utf8` gives the text that the bytes encode, and fails on
/// bytes that are not valid UTF-8.
#[verifier::external_body]
pub(crate) fn utf8_text(bytes: &[u8]) -> (r: Option<String>)
    ensures
        r is Some <==> valid_utf8(bytes@),
        r matches Some(s) ==> s@ == decode_utf8(bytes@),
{
    std::str::from_utf8(bytes).ok().map(|s| s.to_owned())
}

/// The text that invalid UTF-8 gives when its invalid stretches are replaced.
pub uninterp spec fn utf8_repaired(bytes: Seq<u8>) -> Seq<char>;

/// The text that bytes encode, with invalid stretches replaced.
pub open spec fn utf8_lossy(bytes: Seq<u8>) -> Seq<char> {
    if valid_utf8(bytes) {
        decode_utf8(bytes)
    } else {
        utf8_repaired(bytes)
    }
}

/// `String::from_utf8_lossy` depends on the bytes alone. It decodes valid UTF-8
/// without any change.
#[verifier::external_body]
pub(crate) fn utf8_text_lossy(bytes: &[u8]) -> (s: String)
    ensures
        valid_utf8(bytes@) ==> s@ == decode_utf8(bytes@),
        !valid_utf8(bytes@) ==> s@ == utf8_repaired(bytes@),
{
    String::from_utf8_lossy(bytes).into_owned()
}

// ---------------------------------------------------------------------------
// UTF-16
// ---------------------------------------------------------------------------

/// The UTF-16 code units of a character: one, or a surrogate pair.
pub open spec fn utf16_units(c: char) -> Seq<u16> {
    let n = c as u32 as int;
    if n < 0x10000 {
        seq![n as u16]
    } else {
        seq![(0xd800 + (n - 0x10000) / 0x400) as u16, (0xdc00 + (n - 0x10000) % 0x400) as u16]
    }
}

/// The UTF-16 code units of a text.
pub open spec fn utf16_encoded(s: Seq<char>) -> Seq<u16>
    decreases s.len(),
{
    if s.len() == 0 {
        Seq::empty()
    } else {
        utf16_encoded(s.drop_last()) + utf16_units(s.last())
    }
}

/// The first unit of a surrogate pair.
pub open spec fn is_high_surrogate(u: u16) -> bool {
    0xd800 <= u <= 0xdbff
}

/// The second unit of a surrogate pair.
pub open spec fn is_low_surrogate(u: u16) -> bool {
    0xdc00 <= u <= 0xdfff
}

/// The character that a surrogate pair stands for.
pub open spec fn pair_char(high: u16, low: u16) -> char {
    (0x10000 + (high - 0xd800) * 0x400 + (low - 0xdc00)) as char
}

/// The text that UTF-16 code units encode. A surrogate without its partner
/// becomes U+FFFD.
pub open spec fn utf16_decoded(v: Seq<u16>) -> Seq<char>
    decreases v.len(),
{
    if v.len() == 0 {
        Seq::empty()
    } else if !is_high_surrogate(v[0]) && !is_low_surrogate(v[0]) {
        seq![v[0] as char] + utf16_decoded(v.skip(1))
    } else if is_high_surrogate(v[0]) && v.len() >= 2 && is_low_surrogate(v[1]) {
        seq![pair_char(v[0], v[1])] + utf16_decoded(v.skip(2))
    } else {
        seq!['\u{fffd}'] + utf16_decoded(v.skip(1))
    }
}

/// `char::from_u32` gives the character with that number, and fails on numbers
/// that belong to none: the surrogates and what lies above U+10FFFF.
pub assume_specification[ char::from_u32 ](n: u32) -> (r: Option<char>)
    ensures
        r is Some <==> (n < 0xd800 || 0xdfff < n <= 0x10ffff),
        r matches Some(c) ==> c as u32 == n,
;

/// The UTF-16 code units of a text.
pub fn encode_utf16_units(s: &str) -> (r: Vec<u16>)
    ensures
        r@ == utf16_encoded(s@),
{
    let v = crate::text::to_chars(s);
    let mut r: Vec<u16> = Vec::new();
    assert(v@.take(0) =~= Seq::empty());
    for i in 0..v.len()
        invariant
            v@ == s@,
            r@ == utf16_encoded(v@.take(i as int)),
    {
        assert(v@.take(i + 1).drop_last() =~= v@.take(i as int));
        let n: u32 = v[i] as u32;
        if n < 0x10000 {
            r.push(n as u16);
        } else {
            r.push((0xd800 + (n - 0x10000) / 0x400) as u16);
            r.push((0xdc00 + (n - 0x10000) % 0x400) as u16);
        }
        assert(r@ =~= utf16_encoded(v@.take(i as int)) + utf16_units(v@[i as int]));
    }
    assert(v@.take(v@.len() as int) =~= v@);
    r
}

/// The text that the units encode, with stray surrogates replaced.
pub fn decode_utf16_units(v: &[u16]) -> (s: String)
    ensures
        s@ == utf16_decoded(v@),
{
    let mut s = String::new();
    let mut i: usize = 0;
    let n: usize = v.len();
    assert(v@.skip(0) =~= v@);
    while i < n
        invariant
            n == v@.len(),
            i <= n,
            utf16_decoded(v@) == s@ + utf16_decoded(v@.skip(i as int)),
        decreases n - i,
    {
        let ghost rest = v@.skip(i as int);
        assert(rest.skip(1) =~= v@.skip(i + 1));
        let u: u16 = v[i];
        if u < 0xd800 || u > 0xdfff {
            let ghost before = s@;
            if let Some(c) = char::from_u32(u as u32) {
                s.push(c);
                proof {
                    char_u32_cast(c, u as u32);
                    assert(s@ + utf16_decoded(v@.skip(i + 1)) =~= before + (seq![c] + utf16_decoded(
                        v@.skip(i + 1),
                    )));
                }
            }
            i = i + 1;
        } else if u <= 0xdbff && i + 1 < n && 0xdc00 <= v[i + 1] && v[i + 1] <= 0xdfff {
            assert(rest.skip(2) =~= v@.skip(i + 2));
            let x: u32 = 0x10000 + (u as u32 - 0xd800) * 0x400 + (v[i + 1] as u32 - 0xdc00);
            let ghost before = s@;
            if let Some(c) = char::from_u32(x) {
                s.push(c);
                proof {
                    char_u32_cast(c, x);
                    assert(s@ + utf16_decoded(v@.skip(i + 2)) =~= before + (seq![c] + utf16_decoded(
                        v@.skip(i + 2),
                    )));
                }
            }
            i = i + 2;
        } else {
            let ghost before = s@;
            s.push('\u{fffd}');
            assert(s@ + utf16_decoded(v@.skip(i + 1)) =~= before + (seq!['\u{fffd}'] + utf16_decoded(
                v@.skip(i + 1),
            )));
            i = i + 1;
        }
    }
    assert(v@.skip(n as int) =~= Seq::empty());
    assert(s@ + Seq::<char>::empty() =~= s@);
    s
}

proof fn lemma_utf16_encoded_front(c: char, s: Seq<char>)
    ensures
        utf16_encoded(seq![c] + s) == utf16_units(c) + utf16_encoded(s),
    decreases s.len(),
{
    let t = seq![c] + s;
    if s.len() == 0 {
        assert(t.drop_last() =~= s);
        assert(utf16_encoded(s) =~= Seq::empty());
        assert(utf16_encoded(t) =~= utf16_units(c) + utf16_encoded(s));
    } else {
        assert(t.drop_last() =~= seq![c] + s.drop_last());
        assert(t.last() == s.last());
        lemma_utf16_encoded_front(c, s.drop_last());
        assert(utf16_encoded(t) =~= utf16_units(c) + utf16_encoded(s));
    }
}

/// Decoding the UTF-16 form of a text gives the text back.
pub proof fn lemma_utf16_round_trip(s: Seq<char>)
    ensures
        utf16_decoded(utf16_encoded(s)) == s,
    decreases s.len(),
{
    if s.len() > 0 {
        let c = s[0];
        let rest = s.skip(1);
        assert(s =~= seq![c] + rest);
        lemma_utf16_encoded_front(c, rest);
        lemma_utf16_round_trip(rest);
        let v = utf16_encoded(s);
        char_is_scalar(c);
        char_u32_cast(c, c as u32);
        if (c as u32) < 0x10000 {
            assert(v.skip(1) =~= utf16_encoded(rest));
        } else {
            assert(v.skip(2) =~= utf16_encoded(rest));
            assert(pair_char(v[0], v[1]) == c);
        }
    }
}

} // verus!
