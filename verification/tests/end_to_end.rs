use double_rand_recovery::decoder::is_valid_flag;
use double_rand_recovery::mt::GeneratorState;
use double_rand_recovery::pipeline::search;
use double_rand_recovery::pipeline::try_time;
use double_rand_recovery::seedstream::generate;
use double_rand_recovery::RecoveryError;

fn reference_state() -> Vec<u32> {
    let mut words: Vec<u32> = Vec::new();
    let mut acc: u32 = 0x9e37_79b9;
    for i in 0..624u32 {
        acc = acc.wrapping_mul(1_664_525).wrapping_add(1_013_904_223).wrapping_add(i);
        words.push(acc);
    }
    words
}

/// Build a ciphertext the way the attacked process builds one: the strong
/// generator's stream everywhere, the flag XOR-ed in at word offset 1000,
/// and the seed-dependent keystream XOR-ed over the first 624 words only.
fn build_ciphertext(seed: u32, flag_words: &[u32]) -> Vec<u32> {
    let mut gen = GeneratorState::from_words(reference_state());
    let stream = gen.next_words(1012);
    let keystream = generate(seed, 624);
    let mut cipher: Vec<u32> = Vec::new();
    for i in 0..1012 {
        let mut w = stream[i];
        if i >= 1000 {
            w ^= flag_words[i - 1000];
        }
        if i < 624 {
            w ^= keystream[i];
        }
        cipher.push(w);
    }
    cipher.push(0xdead_beef);
    cipher
}

fn padded_flag() -> (String, Vec<u32>) {
    let text = "ictf{state_inversion_end_to_end_demo}";
    let mut bytes = text.as_bytes().to_vec();
    while bytes.len() < 48 {
        bytes.push(b'.');
    }
    let words = bytes
        .chunks(4)
        .map(|c| {
            u32::from(c[0]) | u32::from(c[1]) << 8 | u32::from(c[2]) << 16 | u32::from(c[3]) << 24
        })
        .collect();
    (String::from_utf8(bytes).unwrap(), words)
}

#[test]
fn end_to_end_recovers_flag_at_seed() {
    let seed: u32 = 1_742_500_000;
    let (expected, flag_words) = padded_flag();
    let cipher = build_ciphertext(seed, &flag_words);

    assert_eq!(try_time(seed, &cipher).unwrap(), expected);
    assert!(is_valid_flag(&expected));

    let hits = search(seed - 3, seed + 3, &cipher);
    assert!(hits.iter().any(|(s, t)| *s == seed && *t == expected));
    for (s, t) in &hits {
        if *s == seed {
            assert_eq!(*t, expected);
        } else {
            // A coincidental hit at a wrong seed may exist, but it cannot be
            // the flag.
            assert!(!is_valid_flag(t));
        }
    }
}

#[test]
fn wrong_seed_is_no_valid_candidate() {
    let seed: u32 = 1_742_500_000;
    let (_, flag_words) = padded_flag();
    let cipher = build_ciphertext(seed, &flag_words);
    match try_time(seed + 1, &cipher) {
        Err(e) => assert_eq!(e, RecoveryError::NoValidCandidate),
        Ok(t) => assert!(!is_valid_flag(&t)),
    }
}

#[test]
fn keystream_covers_first_624_words_only() {
    // Extending the keystream past word 624 instead of continuing the
    // reconstructed generator would decrypt garbage: a ciphertext built with
    // the keystream wrongly applied across the flag region must not yield
    // the flag at the right seed.
    let seed: u32 = 1_742_500_000;
    let (expected, flag_words) = padded_flag();
    let mut gen = GeneratorState::from_words(reference_state());
    let stream = gen.next_words(1012);
    let keystream = generate(seed, 1012);
    let mut cipher: Vec<u32> = Vec::new();
    for i in 0..1012 {
        let mut w = stream[i];
        if i >= 1000 {
            w ^= flag_words[i - 1000];
        }
        w ^= keystream[i];
        cipher.push(w);
    }
    cipher.push(0);
    match try_time(seed, &cipher) {
        Err(e) => assert_eq!(e, RecoveryError::NoValidCandidate),
        Ok(t) => assert_ne!(t, expected),
    }
}
