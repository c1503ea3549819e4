use double_rand_recovery::mt::recover;
use double_rand_recovery::mt::GeneratorState;
use double_rand_recovery::RecoveryError;

fn reference_state() -> Vec<u32> {
    let mut words: Vec<u32> = Vec::new();
    let mut acc: u32 = 0x1234_5678;
    for i in 0..624u32 {
        acc = acc.wrapping_mul(1_664_525).wrapping_add(1_013_904_223).wrapping_add(i);
        words.push(acc);
    }
    words
}

#[test]
fn recover_boundary_623_fails() {
    let samples: Vec<u32> = (0..623u32).map(|i| i.wrapping_mul(2_654_435_761)).collect();
    match recover(&samples) {
        Err(e) => assert_eq!(e, RecoveryError::InsufficientSamples),
        Ok(_) => panic!("recovery from 623 samples must fail"),
    }
}

#[test]
fn recover_boundary_624_succeeds() {
    let samples: Vec<u32> = (0..624u32).map(|i| i.wrapping_mul(2_654_435_761)).collect();
    match recover(&samples) {
        Err(_) => panic!("recovery from 624 samples must succeed"),
        Ok(st) => {
            assert_eq!(st.words.len(), 624);
            assert_eq!(st.index, 624);
        },
    }
}

#[test]
fn recover_empty_fails() {
    let samples: Vec<u32> = Vec::new();
    match recover(&samples) {
        Err(e) => assert_eq!(e, RecoveryError::InsufficientSamples),
        Ok(_) => panic!("recovery from no samples must fail"),
    }
}

#[test]
fn recovered_state_continues_stream() {
    // Recover from the first 624 outputs of a known generator, then check
    // that the recovered generator reproduces the following outputs exactly.
    let mut original = GeneratorState::from_words(reference_state());
    let first = original.next_words(624);
    let after = original.next_words(1000);
    let mut recovered = match recover(&first) {
        Ok(st) => st,
        Err(_) => panic!("624 samples must recover"),
    };
    assert_eq!(recovered.next_words(1000), after);
}

#[test]
fn recovered_state_untempered_words() {
    // The recovered state array is the untempering of the samples: feeding
    // tempered words back reproduces the untempered originals.
    let state = reference_state();
    let mut gen = GeneratorState::from_words(state.clone());
    let outputs = gen.next_words(624);
    let recovered = match recover(&outputs) {
        Ok(st) => st,
        Err(_) => panic!("624 samples must recover"),
    };
    assert_eq!(recovered.words, state);
}
