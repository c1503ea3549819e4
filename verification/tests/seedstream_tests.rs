use double_rand_recovery::seedstream::generate;

#[test]
fn seedstream_matches_platform_rand() {
    // The first eight values glibc's rand() emits after srand(1), the
    // generator this module documents itself as reproducing.
    let out = generate(1, 8);
    assert_eq!(
        out,
        vec![
            1804289383, 846930886, 1681692777, 1714636915, 1957747793, 424238335, 719885386,
            1649760492
        ]
    );
}

#[test]
fn seedstream_zero_seed_acts_as_one() {
    // The platform generator replaces a zero seed with one.
    assert_eq!(generate(0, 16), generate(1, 16));
}

#[test]
fn seedstream_deterministic() {
    let a = generate(1_742_500_000, 100);
    let b = generate(1_742_500_000, 100);
    assert_eq!(a, b);
    assert_eq!(a.len(), 100);
    let c = generate(1_742_500_001, 100);
    assert_ne!(a, c);
}

#[test]
fn seedstream_outputs_are_31_bit() {
    for w in generate(0xffff_ffff, 1000) {
        assert!(w < 0x8000_0000);
    }
}
