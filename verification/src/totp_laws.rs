//! What one-time codes and their secrets are, said by numbers and characters.
use crate::percent::url_encoded;
use crate::text::{digit, has_part};
use crate::text_laws::lemma_part_between;
use crate::totp::{
    base32_decoded, be_bytes, code_accepted, hmac_sha1, is_base32_char, is_digit,
    lemma_code_is_six_digits, near_step, provisioning_url, secret_key, step_code, submitted_digits,
    tag_code, truncated,
};
use vstd::arithmetic::div_mod::lemma_div_denominator;
use vstd::prelude::*;
use vstd::utf8::*;

verus! {

// ---------------------------------------------------------------------------
// Which codes count
// ---------------------------------------------------------------------------

proof fn lemma_digits_picked_alike(s: Seq<char>, picked: spec_fn(char) -> bool)
    requires
        forall|c: char| #[trigger] picked(c) == ('0' <= c <= '9'),
    ensures
        s.filter(is_digit()) == s.filter(picked),
    decreases s.len(),
{
    reveal(Seq::filter);
    if s.len() > 0 {
        lemma_digits_picked_alike(s.drop_last(), picked);
        assert(is_digit()(s.last()) == picked(s.last()));
    }
}

/// At every time, for every secret that can be read: what was submitted is
/// accepted exactly if its digits are the code of the step before, of the step
/// of that time or of the step after, thirty seconds each. The first step has none
/// before it.
pub proof fn lemma_three_steps_count(
    secret: Seq<char>,
    key: Seq<u8>,
    submitted: Seq<char>,
    now: u64,
)
    requires
        secret_key(secret) == Some(key),
    ensures
        code_accepted(secret, submitted, Some(now)) <==> {
            let digits = submitted.filter(|c: char| '0' <= c <= '9');
            ||| digits == step_code(key, (now / 30) as u64)
            ||| now >= 30 && digits == step_code(key, (now / 30 - 1) as u64)
            ||| digits == step_code(key, (now / 30 + 1) as u64)
        },
{
    let picked = |c: char| '0' <= c <= '9';
    let digits = submitted.filter(picked);
    lemma_digits_picked_alike(submitted, picked);
    let step: u64 = (now / 30) as u64;
    lemma_code_is_six_digits(key, step);
    lemma_code_is_six_digits(key, (step + 1) as u64);
    if code_accepted(secret, submitted, Some(now)) {
        let other = choose|other: u64|
            near_step(step, other) && digits == #[trigger] step_code(key, other);
        assert(other == step || other + 1 == step || other == step + 1);
    }
    if digits == step_code(key, step) {
        assert(near_step(step, step));
    }
    if digits == step_code(key, (step + 1) as u64) {
        assert(near_step(step, (step + 1) as u64));
    }
    if now >= 30 && digits == step_code(key, (step - 1) as u64) {
        lemma_code_is_six_digits(key, (step - 1) as u64);
        assert(near_step(step, (step - 1) as u64));
    }
}

/// No code counts for a secret that cannot be read, nor without a clock.
pub proof fn lemma_no_code_counts(secret: Seq<char>, submitted: Seq<char>, now: Option<u64>)
    requires
        secret_key(secret) is None || now is None,
    ensures
        !code_accepted(secret, submitted, now),
{
}

/// What was submitted is accepted or refused by its digits alone, of which there
/// are six.
pub proof fn lemma_six_digits_decide(secret: Seq<char>, submitted: Seq<char>, now: Option<u64>)
    ensures
        ({
            let digits = submitted.filter(|c: char| '0' <= c <= '9');
            &&& digits.len() != 6 ==> !code_accepted(secret, submitted, now)
            &&& digits.len() == 6 ==> submitted_digits(submitted) == Some(digits)
            &&& digits.len() != 6 ==> submitted_digits(submitted) is None
        }),
{
    lemma_digits_picked_alike(submitted, |c: char| '0' <= c <= '9');
}

// ---------------------------------------------------------------------------
// Codes
// ---------------------------------------------------------------------------

/// The digits of a code are those of a number below a million: of the four bytes
/// of the tag at the place that the low half of its last byte names, the first
/// byte counting most, without the highest bit.
pub proof fn lemma_code_of_tag(tag: Seq<u8>, at: int)
    requires
        tag.len() == 20,
        0 <= at < 16,
        tag[19] % 16 == at,
    ensures
        tag_code(tag).len() == 6,
        forall|i: int| 0 <= i < 6 ==> '0' <= #[trigger] tag_code(tag)[i] <= '9',
        ({
            let code = tag_code(tag);
            let number = tag[at] * 16777216 + tag[at + 1] * 65536 + tag[at + 2] * 256 + tag[at + 3];
            (code[0] as u32 - 48) * 100000 + (code[1] as u32 - 48) * 10000 + (code[2] as u32 - 48)
                * 1000 + (code[3] as u32 - 48) * 100 + (code[4] as u32 - 48) * 10 + (code[5] as u32
                - 48) == (number % 2147483648) % 1000000
        }),
{
    let code = tag_code(tag);
    let n = truncated(tag);
    lemma_without_sign(tag[at] as int, tag[at + 1] as int, tag[at + 2] as int, tag[at + 3] as int);
    lemma_figures(n);
    lemma_digit((n / 100000 % 10) as nat);
    lemma_digit((n / 10000 % 10) as nat);
    lemma_digit((n / 1000 % 10) as nat);
    lemma_digit((n / 100 % 10) as nat);
    lemma_digit((n / 10 % 10) as nat);
    lemma_digit((n % 10) as nat);
}

proof fn lemma_digit(d: nat)
    requires
        d < 10,
    ensures
        '0' <= digit(d) <= '9',
        digit(d) as u32 == 48 + d,
{
}

proof fn lemma_without_sign(a: int, b: int, c: int, d: int)
    requires
        0 <= a < 256,
        0 <= b < 256,
        0 <= c < 256,
        0 <= d < 256,
    ensures
        ({
            let n = (a % 128) * 16777216 + b * 65536 + c * 256 + d;
            n >= 0 && (a * 16777216 + b * 65536 + c * 256 + d) % 2147483648 == n
        }),
{
}

proof fn lemma_figures(n: int)
    requires
        n >= 0,
    ensures
        (n / 100000 % 10) * 100000 + (n / 10000 % 10) * 10000 + (n / 1000 % 10) * 1000 + (n / 100
            % 10) * 100 + (n / 10 % 10) * 10 + n % 10 == n % 1000000,
{
    let a = n / 10;
    let b = a / 10;
    let c = b / 10;
    let d = c / 10;
    let e = d / 10;
    let f = e / 10;
    assert(n / 100 == b);
    assert(n / 1000 == c);
    assert(n / 10000 == d);
    assert(n / 100000 == e);
    assert(n / 1000000 == f);
}

/// The code of a step comes from the tag of the step's number, written in eight
/// bytes with the most significant first.
pub proof fn lemma_code_of_step(key: Seq<u8>, step: u64, message: Seq<u8>)
    requires
        message.len() == 8,
        step == message[0] * 0x100_0000_0000_0000 + message[1] * 0x1_0000_0000_0000 + message[2]
            * 0x100_0000_0000 + message[3] * 0x1_0000_0000 + message[4] * 0x100_0000 + message[5]
            * 0x1_0000 + message[6] * 0x100 + message[7],
    ensures
        step_code(key, step) == tag_code(hmac_sha1(key, message)),
{
    let x6 = message[0] * 0x1_0000_0000_0000 + message[1] * 0x100_0000_0000 + message[2]
        * 0x1_0000_0000 + message[3] * 0x100_0000 + message[4] * 0x1_0000 + message[5] * 0x100
        + message[6];
    let x5 = message[0] * 0x100_0000_0000 + message[1] * 0x1_0000_0000 + message[2] * 0x100_0000
        + message[3] * 0x1_0000 + message[4] * 0x100 + message[5];
    let x4 = message[0] * 0x1_0000_0000 + message[1] * 0x100_0000 + message[2] * 0x1_0000
        + message[3] * 0x100 + message[4];
    let x3 = message[0] * 0x100_0000 + message[1] * 0x1_0000 + message[2] * 0x100 + message[3];
    let x2 = message[0] * 0x1_0000 + message[1] * 0x100 + message[2];
    let x1 = message[0] * 0x100 + message[1];
    lemma_last_byte(step as int, x6, message[7] as int);
    lemma_last_byte(x6, x5, message[6] as int);
    lemma_last_byte(x5, x4, message[5] as int);
    lemma_last_byte(x4, x3, message[4] as int);
    lemma_last_byte(x3, x2, message[3] as int);
    lemma_last_byte(x2, x1, message[2] as int);
    lemma_last_byte(x1, message[0] as int, message[1] as int);
    lemma_quotients(step as int);
    assert(be_bytes(step) =~= message);
}

proof fn lemma_last_byte(x: int, q: int, r: int)
    requires
        x == q * 256 + r,
        0 <= r < 256,
    ensures
        x / 256 == q,
        x % 256 == r,
{
}

proof fn lemma_quotients(x: int)
    requires
        x >= 0,
    ensures
        x / 0x1_0000 == x / 256 / 256,
        x / 0x100_0000 == x / 256 / 256 / 256,
        x / 0x1_0000_0000 == x / 256 / 256 / 256 / 256,
        x / 0x100_0000_0000 == x / 256 / 256 / 256 / 256 / 256,
        x / 0x1_0000_0000_0000 == x / 256 / 256 / 256 / 256 / 256 / 256,
        x / 0x100_0000_0000_0000 == x / 256 / 256 / 256 / 256 / 256 / 256 / 256,
{
    lemma_div_denominator(x, 256, 256);
    lemma_div_denominator(x, 0x1_0000, 256);
    lemma_div_denominator(x, 0x100_0000, 256);
    lemma_div_denominator(x, 0x1_0000_0000, 256);
    lemma_div_denominator(x, 0x100_0000_0000, 256);
    lemma_div_denominator(x, 0x1_0000_0000_0000, 256);
}

// ---------------------------------------------------------------------------
// Secrets
// ---------------------------------------------------------------------------

/// A secret is read without padding first, and with padding only where that
/// fails. One that is no Base32 either way cannot be read.
pub proof fn lemma_secret_read(secret: Seq<char>, key: Seq<u8>)
    requires
        encode_utf8(secret).len() * 5 <= usize::MAX,
    ensures
        base32_decoded(false, secret) == Some(key) ==> secret_key(secret) == Some(key),
        base32_decoded(false, secret) is None ==> secret_key(secret) == base32_decoded(
            true,
            secret,
        ),
{
}

/// The characters of Base32: the capitals, and the digits from two to seven.
pub proof fn lemma_base32_characters(c: char)
    ensures
        is_base32_char(c) <==> 'A' <= c <= 'Z' || '2' <= c <= '7',
{
}

/// The address for an authenticator app names the issuer and the account, and
/// hands over the secret as it is, the issuer again and how codes are made.
pub proof fn lemma_provisioning_parts(secret: Seq<char>, account: Seq<char>, issuer: Seq<char>)
    ensures
        ({
            let url = provisioning_url(secret, account, issuer);
            let path = "otpauth://totp/"@ + url_encoded(issuer) + ":"@ + url_encoded(account);
            &&& (path + "?secret="@ + secret + "&"@).is_prefix_of(url)
            &&& has_part(url, "?secret="@ + secret + "&issuer="@ + url_encoded(issuer) + "&"@)
            &&& url.skip(
                (path + "?secret="@ + secret + "&issuer="@ + url_encoded(issuer)).len() as int,
            ) == "&algorithm=SHA1&digits=6&period=30"@
        }),
{
    reveal_strlit("&");
    reveal_strlit("&issuer=");
    reveal_strlit("&algorithm=SHA1&digits=6&period=30");
    let url = provisioning_url(secret, account, issuer);
    let path = "otpauth://totp/"@ + url_encoded(issuer) + ":"@ + url_encoded(account);
    let first = path + "?secret="@ + secret + "&"@;
    assert(url.subrange(0, first.len() as int) =~= first);
    let part = "?secret="@ + secret + "&issuer="@ + url_encoded(issuer) + "&"@;
    let behind = "&algorithm=SHA1&digits=6&period=30"@.skip(1);
    assert(url =~= path + part + behind);
    lemma_part_between(path, part, behind);
    let head = path + "?secret="@ + secret + "&issuer="@ + url_encoded(issuer);
    assert(url.skip(head.len() as int) =~= "&algorithm=SHA1&digits=6&period=30"@);
}

} // verus!
