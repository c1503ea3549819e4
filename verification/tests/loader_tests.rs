use double_rand_recovery::loader::parse_ciphertext;
use double_rand_recovery::loader::parse_words;
use double_rand_recovery::RecoveryError;

#[test]
fn loader_drops_malformed_token() {
    let data = b"5, bad, 7,9".to_vec();
    assert_eq!(parse_words(&data), vec![5, 7, 9]);
}

#[test]
fn loader_token_forms() {
    assert_eq!(parse_words(&b" 42 ,+7,0007,4294967295".to_vec()), vec![42, 7, 7, 4294967295]);
    // Overflow, a sign other than plus, inner whitespace, and empty tokens
    // are all dropped.
    assert_eq!(parse_words(&b"4294967296,-5,1 2,,3".to_vec()), vec![3]);
    assert_eq!(parse_words(&b"+,++1,1+".to_vec()), Vec::<u32>::new());
    assert_eq!(parse_words(&b"".to_vec()), Vec::<u32>::new());
}

#[test]
fn loader_length_boundary() {
    let mut text = String::new();
    for i in 0..1012u32 {
        if i > 0 {
            text.push(',');
        }
        text.push_str(&i.to_string());
    }
    let exactly_1012 = text.clone().into_bytes();
    assert_eq!(parse_words(&exactly_1012).len(), 1012);
    match parse_ciphertext(&exactly_1012) {
        Err(e) => assert_eq!(e, RecoveryError::InsufficientData),
        Ok(_) => panic!("1012 words must be too few"),
    }
    text.push_str(",1012");
    let exactly_1013 = text.into_bytes();
    match parse_ciphertext(&exactly_1013) {
        Err(_) => panic!("1013 words must suffice"),
        Ok(v) => assert_eq!(v.len(), 1013),
    }
}
