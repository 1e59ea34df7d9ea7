use betwall::percent::{url_decode, url_encode};
use betwall::totp::{
    clean_code, code_at, code_from_tag, constant_time_eq, decode_b32, generate_secret_b32,
    otpauth_url, secret_from_key, verify, verify_at,
};
use std::time::{SystemTime, UNIX_EPOCH};

const KEY: &[u8] = b"12345678901234567890";
const SECRET: &str = "GEZDGNBVGY3TQOJQGEZDGNBVGY3TQOJQ";

#[test]
fn codes_follow_the_published_vectors() {
    assert_eq!(code_at(KEY, 59 / 30), "287082");
    assert_eq!(code_at(KEY, 1111111109 / 30), "081804");
    assert_eq!(code_at(KEY, 1111111111 / 30), "050471");
    assert_eq!(code_at(KEY, 1234567890 / 30), "005924");
    assert_eq!(code_at(KEY, 2000000000 / 30), "279037");
    assert_eq!(code_at(KEY, 20000000000 / 30), "353130");
    assert_eq!(code_at(KEY, 0), "755224");
}

#[test]
fn code_is_cut_from_the_tag() {
    let tag: [u8; 20] = [
        0x1f, 0x86, 0x98, 0x69, 0x0e, 0x02, 0xca, 0x16, 0x61, 0x85, 0x50, 0xef, 0x7f, 0x19, 0xda,
        0x8e, 0x94, 0x5b, 0x55, 0x5a,
    ];
    assert_eq!(code_from_tag(&tag), "872921");
    let mut low = [0u8; 20];
    low[3] = 7;
    assert_eq!(code_from_tag(&low), "000007");
}

#[test]
fn codes_are_six_digits() {
    for step in 0..200 {
        let code = code_at(b"some key", step);
        assert_eq!(code.len(), 6);
        assert!(code.chars().all(|c| c.is_ascii_digit()));
    }
}

#[test]
fn secrets_stand_for_keys() {
    assert_eq!(secret_from_key(KEY), SECRET);
    assert_eq!(secret_from_key(&[0xff; 20]), "7".repeat(32));
    assert_eq!(decode_b32(SECRET).unwrap(), KEY);
    assert_eq!(decode_b32("MZXW6===").unwrap(), b"foo");
    assert_eq!(decode_b32("MZXW6").unwrap(), b"foo");
    assert!(decode_b32("mzxw6").is_none());
    assert!(decode_b32("MZXW1").is_none());
    assert!(decode_b32("é").is_none());
    assert_eq!(decode_b32("").unwrap(), b"");
}

#[test]
fn new_secrets_are_twenty_bytes() {
    let a = generate_secret_b32().unwrap();
    let b = generate_secret_b32().unwrap();
    assert_eq!(a.len(), 32);
    assert_eq!(decode_b32(&a).unwrap().len(), 20);
    assert_ne!(a, b);
    assert!(a.chars().all(|c| c.is_ascii_uppercase() || ('2'..='7').contains(&c)));
}

#[test]
fn submitted_code_is_its_six_digits() {
    assert_eq!(clean_code("287082").unwrap(), "287082");
    assert_eq!(clean_code(" 287 082\n").unwrap(), "287082");
    assert_eq!(clean_code("2a8b7-0.8,2").unwrap(), "287082");
    assert!(clean_code("28708").is_none());
    assert!(clean_code("2870821").is_none());
    assert!(clean_code("").is_none());
    assert!(clean_code("٢٨٧٠٨٢").is_none());
}

#[test]
fn codes_near_now_are_right() {
    assert!(verify_at(SECRET, "287082", Some(59)));
    assert!(verify_at(SECRET, "287 082", Some(59)));
    assert!(verify_at(SECRET, "287082", Some(29)));
    assert!(verify_at(SECRET, "287082", Some(60)));
    assert!(verify_at(SECRET, "287082", Some(89)));
    assert!(!verify_at(SECRET, "287082", Some(90)));
    assert!(!verify_at(SECRET, "287083", Some(59)));
    assert!(verify_at(SECRET, "755224", Some(0)));
    assert!(!verify_at(SECRET, "287082", None));
    assert!(!verify_at("not base32!", "287082", Some(59)));
    assert!(!verify_at(SECRET, "28708", Some(59)));
    assert!(verify_at(SECRET, &code_at(KEY, u64::MAX / 30), Some(u64::MAX)));
}

#[test]
fn code_of_the_moment_is_right_for_a_new_secret() {
    let secret = generate_secret_b32().unwrap();
    let key = decode_b32(&secret).unwrap();
    let now = SystemTime::now().duration_since(UNIX_EPOCH).unwrap().as_secs();
    assert!(verify(&secret, &code_at(&key, now / 30)));
    assert!(!verify(&secret, "12345"));
    assert!(!verify("?", "123456"));
}

#[test]
fn comparison_looks_at_every_byte() {
    assert!(constant_time_eq(b"", b""));
    assert!(constant_time_eq(b"abc", b"abc"));
    assert!(!constant_time_eq(b"abc", b"abd"));
    assert!(!constant_time_eq(b"abc", b"ab"));
    assert!(!constant_time_eq(b"abc", b"xbc"));
}

#[test]
fn provisioning_address_is_encoded() {
    assert_eq!(
        otpauth_url("ABC", "BetWall", "BetWall"),
        "otpauth://totp/BetWall:BetWall?secret=ABC&issuer=BetWall&algorithm=SHA1&digits=6&period=30"
    );
    assert_eq!(
        otpauth_url("ABC", "a b@c", "É"),
        "otpauth://totp/%C3%89:a%20b%40c?secret=ABC&issuer=%C3%89&algorithm=SHA1&digits=6&period=30"
    );
}

#[test]
fn encoding_keeps_unreserved_characters() {
    assert_eq!(url_encode("AZaz09-_.~"), "AZaz09-_.~");
    assert_eq!(url_encode(" /?&=%+"), "%20%2F%3F%26%3D%25%2B");
    assert_eq!(url_encode("€"), "%E2%82%AC");
}

#[test]
fn decoding_gives_the_text_back() {
    for s in ["", "plain", "a b&c=d%e+f", "日本語", "\u{10ffff}\0\n", "100%"] {
        assert_eq!(url_decode(&url_encode(s)), s);
    }
}

#[test]
fn decoding_is_lenient() {
    assert_eq!(url_decode("a+b"), "a b");
    assert_eq!(url_decode("%41%62"), "Ab");
    assert_eq!(url_decode("%4"), "%4");
    assert_eq!(url_decode("%"), "%");
    assert_eq!(url_decode("%zz!"), "\0!");
    assert_eq!(url_decode("%+1!"), "\u{1}!");
    assert_eq!(url_decode("%-1!"), "\0!");
    assert_eq!(url_decode("%ff"), "\u{fffd}");
    assert_eq!(url_decode("x%é!"), "x\0!");
    assert_eq!(url_decode("%41"), "A");
}

#[test]
fn every_pair_is_read_as_a_hexadecimal_number() {
    for a in 0x20u8..0x7f {
        for b in 0x20u8..0x7f {
            let pair = [a, b];
            let text = std::str::from_utf8(&pair).unwrap();
            let value = u8::from_str_radix(text, 16).unwrap_or(0);
            let expected = String::from_utf8_lossy(&[value]).into_owned();
            assert_eq!(url_decode(&format!("%{text}")), expected);
        }
    }
}
