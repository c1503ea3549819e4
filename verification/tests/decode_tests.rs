use double_rand_recovery::decoder::decode;
use double_rand_recovery::decoder::is_valid_flag;
use double_rand_recovery::RecoveryError;

fn words_of(bytes: &[u8]) -> Vec<u32> {
    assert_eq!(bytes.len() % 4, 0);
    bytes
        .chunks(4)
        .map(|c| {
            u32::from(c[0]) | u32::from(c[1]) << 8 | u32::from(c[2]) << 16 | u32::from(c[3]) << 24
        })
        .collect()
}

#[test]
fn decode_prefers_utf8_strategy() {
    // Valid UTF-8 with a brace pair: strategy one must win, even though the
    // zero byte would make strategy two return a shorter text and strategy
    // three would drop the zero byte.
    let words = words_of(b"{a}\0X{b}");
    assert_eq!(decode(&words).unwrap(), "{a}\0X{b}");
}

#[test]
fn decode_falls_back_to_nul_truncation() {
    // 0xff makes the bytes invalid UTF-8; truncation at the first zero byte
    // still shows a brace pair, so strategy two wins over strategy three.
    let words = words_of(&[b'{', b'a', b'}', 0, 0xff, b'{', b'b', b'}']);
    assert_eq!(decode(&words).unwrap(), "{a}");
}

#[test]
fn decode_falls_back_to_printable_filter() {
    // Invalid UTF-8, and the prefix before the first zero byte has no
    // closing brace: only the printable filter yields a brace pair.
    let words = words_of(&[b'{', 0, b'}', 0xff]);
    assert_eq!(decode(&words).unwrap(), "{}");
}

#[test]
fn decode_keeps_latin1_bytes_as_chars() {
    // Strategy two reads each byte as its own character, so a byte above
    // 127 becomes the Latin-1 character of that code.
    let words = words_of(&[b'{', 0xe9, b'}', 0xff]);
    assert_eq!(decode(&words).unwrap(), "{\u{e9}}\u{ff}");
}

#[test]
fn decode_rejects_braceless_words() {
    let words = words_of(b"no braces st\0\0\0\0");
    match decode(&words) {
        Err(e) => assert_eq!(e, RecoveryError::NoValidCandidate),
        Ok(_) => panic!("bytes without a brace pair must not decode"),
    }
}

#[test]
fn valid_flag_needs_marker() {
    assert!(is_valid_flag("ictf{some_flag}"));
    assert!(is_valid_flag("noise ictf{x} noise"));
    assert!(!is_valid_flag("flag{some_flag}"));
    assert!(!is_valid_flag("ictf"));
    assert!(!is_valid_flag(""));
}
