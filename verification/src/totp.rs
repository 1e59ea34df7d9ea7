//! Time-based one-time codes: six digits that change every thirty seconds.
use crate::percent::{url_encode, url_encoded};
use crate::text::{digit, digit_char, lemma_utf8_injective, to_chars, to_text};
use hmac::Mac;
use vstd::prelude::*;
use vstd::utf8::*;

verus! {

// ---------------------------------------------------------------------------
// Outside functions
// ---------------------------------------------------------------------------

/// The HMAC-SHA1 tag of a message under a key.
pub uninterp spec fn hmac_sha1(key: Seq<u8>, message: Seq<u8>) -> Seq<u8>;

/// `hmac::Hmac<sha1::Sha1>` makes a tag of twenty bytes from the key and the
/// message alone. It takes keys of any length.
#[verifier::external_body]
fn hmac_sha1_tag(key: &[u8], message: &[u8]) -> (r: Vec<u8>)
    ensures
        r@ == hmac_sha1(key@, message@),
        r@.len() == 20,
{
    let mut mac = hmac::Hmac::<sha1::Sha1>::new_from_slice(key).expect("any key length");
    mac.update(message);
    mac.finalize().into_bytes().to_vec()
}

/// The bytes that a text in the base32 alphabet of RFC 4648 stands for.
pub uninterp spec fn base32_decoded(padding: bool, s: Seq<char>) -> Option<Seq<u8>>;

/// The base32 form of bytes, in the alphabet of RFC 4648.
pub uninterp spec fn base32_encoded(padding: bool, bytes: Seq<u8>) -> Seq<char>;

/// `base32::decode` depends on its arguments alone. It multiplies the number of
/// characters by five, which has to fit.
#[verifier::external_body]
fn decode_base32(padding: bool, s: &str) -> (r: Option<Vec<u8>>)
    requires
        encode_utf8(s@).len() * 5 <= usize::MAX,
    ensures
        r is Some <==> base32_decoded(padding, s@) is Some,
        r matches Some(v) ==> base32_decoded(padding, s@) == Some(v@),
{
    base32::decode(base32::Alphabet::Rfc4648 { padding }, s)
}

/// The characters that base32 uses.
pub open spec fn is_base32_char(c: char) -> bool {
    'A' <= c <= 'Z' || '2' <= c <= '7'
}

/// `base32::encode` depends on its arguments alone. Without padding it writes
/// one character of the alphabet for every five bits, and `base32::decode` reads
/// the same bytes back.
#[verifier::external_body]
fn encode_base32(padding: bool, bytes: &[u8]) -> (s: String)
    requires
        bytes@.len() <= 0x1000_0000,
    ensures
        s@ == base32_encoded(padding, bytes@),
        !padding ==> base32_decoded(padding, s@) == Some(bytes@),
        !padding ==> s@.len() == (bytes@.len() * 8 + 4) / 5,
        !padding ==> (forall|i: int| 0 <= i < s@.len() ==> is_base32_char(#[trigger] s@[i])),
{
    base32::encode(base32::Alphabet::Rfc4648 { padding }, bytes)
}

/// `getrandom::getrandom` fills a buffer with random bytes, or fails.
#[verifier::external_body]
fn random_bytes(n: usize) -> (r: Option<Vec<u8>>)
    requires
        n <= 0x1000,
    ensures
        r matches Some(v) ==> v@.len() == n,
{
    let mut v = vec![0u8; n];
    match getrandom::getrandom(&mut v) {
        Ok(()) => Some(v),
        Err(_) => None,
    }
}

/// `SystemTime::elapsed` gives the time since the Unix epoch, in whole seconds
/// here; it fails where the clock stands before the epoch.
#[verifier::external_body]
pub(crate) fn unix_seconds() -> (r: Option<u64>) {
    std::time::UNIX_EPOCH.elapsed().ok().map(|d| d.as_secs())
}

// ---------------------------------------------------------------------------
// Secrets
// ---------------------------------------------------------------------------

/// The key that a secret stands for: read without padding, and where that fails
/// with padding. A text too long to be read stands for none.
pub open spec fn secret_key(secret: Seq<char>) -> Option<Seq<u8>> {
    if encode_utf8(secret).len() * 5 > usize::MAX {
        None
    } else {
        match base32_decoded(false, secret) {
            Some(key) => Some(key),
            None => base32_decoded(true, secret),
        }
    }
}

/// The key that a secret stands for.
pub fn decode_b32(secret_b32: &str) -> (r: Option<Vec<u8>>)
    ensures
        r is Some <==> secret_key(secret_b32@) is Some,
        r matches Some(v) ==> secret_key(secret_b32@) == Some(v@),
{
    let bytes: &[u8] = secret_b32.as_bytes();
    if bytes.len() > usize::MAX / 5 {
        return None;
    }
    match decode_base32(false, secret_b32) {
        Some(key) => Some(key),
        None => decode_base32(true, secret_b32),
    }
}

/// The secret for a key of twenty bytes.
pub fn secret_from_key(key: &[u8]) -> (s: String)
    requires
        key@.len() == 20,
    ensures
        s@ == base32_encoded(false, key@),
        secret_key(s@) == Some(key@),
        s@.len() == 32,
        forall|i: int| 0 <= i < s@.len() ==> is_base32_char(#[trigger] s@[i]),
{
    let s = encode_base32(false, key);
    proof {
        assert(is_ascii_chars(s@));
        is_ascii_chars_encode_utf8(s@);
    }
    s
}

/// A new secret from twenty random bytes. There is none where the system has no
/// random bytes to give.
pub fn generate_secret_b32() -> (r: Option<String>)
    ensures
        r matches Some(s) ==> (exists|key: Seq<u8>|
            #![trigger base32_encoded(false, key)]
            key.len() == 20 && s@ == base32_encoded(false, key) && secret_key(s@) == Some(key)),
        r matches Some(s) ==> s@.len() == 32,
        r matches Some(s) ==> (forall|i: int|
            0 <= i < s@.len() ==> is_base32_char(#[trigger] s@[i])),
{
    match random_bytes(20) {
        Some(key) => Some(secret_from_key(&key)),
        None => None,
    }
}

// ---------------------------------------------------------------------------
// Codes
// ---------------------------------------------------------------------------

/// The bytes of a number, the most significant first.
pub open spec fn be_bytes(n: u64) -> Seq<u8> {
    seq![
        (n / 0x100_0000_0000_0000) as u8,
        (n / 0x1_0000_0000_0000 % 256) as u8,
        (n / 0x100_0000_0000 % 256) as u8,
        (n / 0x1_0000_0000 % 256) as u8,
        (n / 0x100_0000 % 256) as u8,
        (n / 0x1_0000 % 256) as u8,
        (n / 0x100 % 256) as u8,
        (n % 256) as u8,
    ]
}

/// The number that a tag is cut down to: four bytes, read as a number without
/// its sign bit, from the place that the last four bits of the tag name.
pub open spec fn truncated(tag: Seq<u8>) -> int {
    let at = tag[19] as int % 16;
    (tag[at] as int % 128) * 0x100_0000 + tag[at + 1] * 0x1_0000 + tag[at + 2] * 0x100 + tag[at + 3]
}

/// The last six decimal digits of a number.
pub open spec fn six_digits(n: int) -> Seq<char> {
    seq![
        digit((n / 100_000 % 10) as nat),
        digit((n / 10_000 % 10) as nat),
        digit((n / 1_000 % 10) as nat),
        digit((n / 100 % 10) as nat),
        digit((n / 10 % 10) as nat),
        digit((n % 10) as nat),
    ]
}

/// The code that a tag gives.
pub open spec fn tag_code(tag: Seq<u8>) -> Seq<char> {
    six_digits(truncated(tag))
}

/// The code of a key for a time step.
pub open spec fn step_code(key: Seq<u8>, step: u64) -> Seq<char> {
    tag_code(hmac_sha1(key, be_bytes(step)))
}

/// The number that a tag is cut down to.
fn truncate_tag(tag: &[u8]) -> (r: u32)
    requires
        tag@.len() == 20,
    ensures
        r == truncated(tag@),
{
    let at: usize = (tag[19] % 16) as usize;
    (tag[at] % 128) as u32 * 0x100_0000 + tag[at + 1] as u32 * 0x1_0000 + tag[at + 2] as u32 * 0x100
        + tag[at + 3] as u32
}

/// The code that a tag gives.
pub fn code_from_tag(tag: &[u8]) -> (r: String)
    requires
        tag@.len() == 20,
    ensures
        r@ == tag_code(tag@),
{
    let n: u32 = truncate_tag(tag);
    let mut r = String::new();
    r.push(digit_char((n / 100_000 % 10) as u8));
    r.push(digit_char((n / 10_000 % 10) as u8));
    r.push(digit_char((n / 1_000 % 10) as u8));
    r.push(digit_char((n / 100 % 10) as u8));
    r.push(digit_char((n / 10 % 10) as u8));
    r.push(digit_char((n % 10) as u8));
    assert(r@ =~= six_digits(n as int));
    r
}

/// The code of a key for a time step.
pub fn code_at(secret: &[u8], step: u64) -> (r: String)
    ensures
        r@ == step_code(secret@, step),
{
    let message = [
        (step / 0x100_0000_0000_0000) as u8,
        (step / 0x1_0000_0000_0000 % 256) as u8,
        (step / 0x100_0000_0000 % 256) as u8,
        (step / 0x1_0000_0000 % 256) as u8,
        (step / 0x100_0000 % 256) as u8,
        (step / 0x1_0000 % 256) as u8,
        (step / 0x100 % 256) as u8,
        (step % 256) as u8,
    ];
    assert(message@ =~= be_bytes(step));
    let tag = hmac_sha1_tag(secret, &message);
    code_from_tag(&tag)
}

// ---------------------------------------------------------------------------
// Checking a submitted code
// ---------------------------------------------------------------------------

/// The decimal digits.
pub open spec fn is_digit() -> spec_fn(char) -> bool {
    |c: char| '0' <= c <= '9'
}

/// The code in what was submitted: its digits, where there are six of them.
pub open spec fn submitted_digits(submitted: Seq<char>) -> Option<Seq<char>> {
    let clean = submitted.filter(is_digit());
    if clean.len() == 6 {
        Some(clean)
    } else {
        None
    }
}

/// The steps whose codes count at a step: the step itself and its neighbours.
pub open spec fn near_step(step: u64, other: u64) -> bool {
    ||| other == step
    ||| other + 1 == step
    ||| other == step + 1
}

/// The code of a key for one of the steps that count at that time.
pub open spec fn code_in_window(key: Seq<u8>, code: Seq<char>, now: u64) -> bool {
    exists|step: u64| near_step((now / 30) as u64, step) && code == #[trigger] step_code(key, step)
}

/// A submitted code is right for a secret at that time. Without a clock no code
/// is.
pub open spec fn code_accepted(
    secret: Seq<char>,
    submitted: Seq<char>,
    now: Option<u64>,
) -> bool {
    &&& submitted_digits(submitted) is Some
    &&& secret_key(secret) is Some
    &&& now is Some
    &&& code_in_window(secret_key(secret)->0, submitted_digits(submitted)->0, now->0)
}

/// The code in what was submitted.
pub fn clean_code(submitted: &str) -> (r: Option<String>)
    ensures
        r is Some <==> submitted_digits(submitted@) is Some,
        r matches Some(s) ==> submitted_digits(submitted@) == Some(s@),
{
    let v = to_chars(submitted);
    let mut clean: Vec<char> = Vec::new();
    proof {
        reveal(Seq::filter);
        assert(v@.take(0).filter(is_digit()) =~= Seq::empty());
    }
    for i in 0..v.len()
        invariant
            v@ == submitted@,
            clean@ == v@.take(i as int).filter(is_digit()),
    {
        proof {
            reveal(Seq::filter);
            assert(v@.take(i + 1).drop_last() =~= v@.take(i as int));
        }
        if '0' <= v[i] && v[i] <= '9' {
            clean.push(v[i]);
        }
    }
    assert(v@.take(v@.len() as int) =~= v@);
    if clean.len() != 6 {
        return None;
    }
    Some(to_text(&clean))
}

/// Whether two lists of bytes are the same, at a cost that depends on their
/// length alone.
pub fn constant_time_eq(a: &[u8], b: &[u8]) -> (r: bool)
    ensures
        r == (a@ == b@),
{
    if a.len() != b.len() {
        return false;
    }
    let mut r: u8 = 0;
    for i in 0..a.len()
        invariant
            a@.len() == b@.len(),
            r == 0 <==> (forall|j: int| 0 <= j < i ==> a@[j] == b@[j]),
    {
        let x: u8 = a[i];
        let y: u8 = b[i];
        let before: u8 = r;
        assert((before | (x ^ y)) == 0 <==> (before == 0 && x == y)) by (bit_vector);
        r = r | (x ^ y);
    }
    assert(r == 0 <==> a@ =~= b@);
    r == 0
}

/// Whether a submitted code is right for a secret at that time.
pub fn verify_at(secret_b32: &str, submitted: &str, now: Option<u64>) -> (r: bool)
    ensures
        r == code_accepted(secret_b32@, submitted@, now),
{
    let Some(clean) = clean_code(submitted) else {
        return false;
    };
    let Some(secret) = decode_b32(secret_b32) else {
        return false;
    };
    let Some(seconds) = now else {
        return false;
    };
    let step: u64 = seconds / 30;
    let previous: u64 = if step == 0 {
        0
    } else {
        step - 1
    };
    let current_code = code_at(&secret, step);
    if constant_time_eq(current_code.as_str().as_bytes(), clean.as_str().as_bytes()) {
        proof {
            lemma_utf8_injective(current_code@, clean@);
        }
        return true;
    }
    let previous_code = code_at(&secret, previous);
    if constant_time_eq(previous_code.as_str().as_bytes(), clean.as_str().as_bytes()) {
        proof {
            lemma_utf8_injective(previous_code@, clean@);
            assert(near_step(step, previous));
        }
        return true;
    }
    let next_code = code_at(&secret, step + 1);
    if constant_time_eq(next_code.as_str().as_bytes(), clean.as_str().as_bytes()) {
        proof {
            lemma_utf8_injective(next_code@, clean@);
            assert(near_step(step, (step + 1) as u64));
        }
        return true;
    }
    false
}

/// Whether a submitted code is right for a secret now.
pub fn verify(secret_b32: &str, submitted: &str) -> (r: bool)
    ensures
        r ==> exists|now: u64| #[trigger] code_accepted(secret_b32@, submitted@, Some(now)),
{
    let now = unix_seconds();
    verify_at(secret_b32, submitted, now)
}

// ---------------------------------------------------------------------------
// What holds of codes
// ---------------------------------------------------------------------------

/// Every code consists of six digits.
pub proof fn lemma_code_is_six_digits(key: Seq<u8>, step: u64)
    ensures
        step_code(key, step).len() == 6,
        forall|i: int| 0 <= i < 6 ==> '0' <= #[trigger] step_code(key, step)[i] <= '9',
{
    let code = step_code(key, step);
    assert forall|i: int| 0 <= i < 6 implies '0' <= #[trigger] code[i] <= '9' by {
        assert(forall|d: nat| d < 10 ==> '0' <= #[trigger] digit(d) <= '9');
    }
}

proof fn lemma_digits_kept(s: Seq<char>)
    requires
        forall|i: int| 0 <= i < s.len() ==> '0' <= #[trigger] s[i] <= '9',
    ensures
        s.filter(is_digit()) == s,
    decreases s.len(),
{
    reveal(Seq::filter);
    if s.len() > 0 {
        assert('0' <= s[s.len() - 1] <= '9');
        lemma_digits_kept(s.drop_last());
        assert(s.drop_last().push(s.last()) =~= s);
    } else {
        assert(s.filter(is_digit()) =~= s);
    }
}

/// The code of the current step is right, and so are those of the step before
/// and the step after.
pub proof fn lemma_code_near_now_accepted(secret: Seq<char>, step: u64, now: u64)
    requires
        secret_key(secret) is Some,
        near_step((now / 30) as u64, step),
    ensures
        code_accepted(secret, step_code(secret_key(secret)->0, step), Some(now)),
{
    let code = step_code(secret_key(secret)->0, step);
    lemma_code_is_six_digits(secret_key(secret)->0, step);
    lemma_digits_kept(code);
}

/// A code that is right at some time is right for that step and its neighbours
/// only: it is one of at most three.
pub proof fn lemma_accepted_code_is_near(secret: Seq<char>, submitted: Seq<char>, now: u64)
    requires
        code_accepted(secret, submitted, Some(now)),
    ensures
        exists|step: u64|
            near_step((now / 30) as u64, step) && submitted.filter(is_digit())
                == #[trigger] step_code(secret_key(secret)->0, step),
{
}

/// Whatever stands between the digits of a submitted code, such as a space, does
/// not matter.
pub proof fn lemma_separators_ignored(
    secret: Seq<char>,
    before: Seq<char>,
    separator: char,
    after: Seq<char>,
    now: Option<u64>,
)
    requires
        !('0' <= separator <= '9'),
    ensures
        code_accepted(secret, before.push(separator) + after, now) == code_accepted(
            secret,
            before + after,
            now,
        ),
{
    let with = before.push(separator) + after;
    Seq::filter_distributes_over_add(before.push(separator), after, is_digit());
    Seq::filter_distributes_over_add(before, after, is_digit());
    reveal(Seq::filter);
    assert(before.push(separator).drop_last() =~= before);
    assert(with.filter(is_digit()) == (before + after).filter(is_digit()));
}

// ---------------------------------------------------------------------------
// Provisioning
// ---------------------------------------------------------------------------

/// The address that hands a secret to an authenticator app.
pub open spec fn provisioning_url(
    secret: Seq<char>,
    account: Seq<char>,
    issuer: Seq<char>,
) -> Seq<char> {
    "otpauth://totp/"@ + url_encoded(issuer) + ":"@ + url_encoded(account) + "?secret="@ + secret
        + "&issuer="@ + url_encoded(issuer) + "&algorithm=SHA1&digits=6&period=30"@
}

/// The address that hands a secret to an authenticator app.
pub fn otpauth_url(secret_b32: &str, account: &str, issuer: &str) -> (r: String)
    ensures
        r@ == provisioning_url(secret_b32@, account@, issuer@),
{
    let issuer_enc = url_encode(issuer);
    let account_enc = url_encode(account);
    let mut r = "otpauth://totp/".to_owned();
    r.append(issuer_enc.as_str());
    r.append(":");
    r.append(account_enc.as_str());
    r.append("?secret=");
    r.append(secret_b32);
    r.append("&issuer=");
    r.append(issuer_enc.as_str());
    r.append("&algorithm=SHA1&digits=6&period=30");
    r
}

} // verus!
