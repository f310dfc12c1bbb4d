use chestlog::codec::encode_token;
use chestlog::codec::parse_token;

#[test]
fn encode_zero() {
    assert_eq!(encode_token(0, 0), "0:0");
}

#[test]
fn encode_small_values() {
    assert_eq!(encode_token(61, 62), "z:10");
    assert_eq!(encode_token(10, 35), "A:Z");
    assert_eq!(encode_token(36, 9), "a:9");
}

#[test]
fn roundtrip_pairs() {
    let cases = [
        (0u64, 0u64),
        (1, 2),
        (1000, 123456789),
        (u64::MAX, u64::MAX),
        (u64::MAX - 1, 0),
        (62, 61),
    ];
    for (user, value) in cases {
        let s = encode_token(user, value);
        assert_eq!(parse_token(&s), Some((user, value)));
    }
}

#[test]
fn matches_reference_encoder() {
    for (user, value) in [(0u64, 0u64), (61, 62), (424242, u64::MAX), (1, 999999999999)] {
        let expected = format!("{}:{}", base62::encode(user), base62::encode(value));
        assert_eq!(encode_token(user, value), expected);
    }
}

#[test]
fn malformed_tokens_are_rejected() {
    // no delimiter
    assert_eq!(parse_token("abc"), None);
    assert_eq!(parse_token(""), None);
    // empty runs
    assert_eq!(parse_token(":"), None);
    assert_eq!(parse_token("a:"), None);
    assert_eq!(parse_token(":a"), None);
    // extra delimiters
    assert_eq!(parse_token("a:b:c"), None);
    assert_eq!(parse_token("::"), None);
    // characters outside the alphabet
    assert_eq!(parse_token("a!:b"), None);
    assert_eq!(parse_token("a:b "), None);
    assert_eq!(parse_token("ä:b"), None);
    // a run that overflows 64 bits
    assert_eq!(parse_token("zzzzzzzzzzzzzz:0"), None);
}

#[test]
fn reference_decoder_agrees_on_overflow_edge() {
    // u64::MAX is the largest decodable run; one more is rejected.
    let top = base62::encode(u64::MAX);
    let s = format!("{}:0", top);
    assert_eq!(parse_token(&s), Some((u64::MAX, 0)));
    let over = format!("{}:0", base62::encode(u64::MAX as u128 + 1));
    assert_eq!(parse_token(&over), None);
}
