//! The seed-dependent keystream: a bit-exact, pure reproduction of the
//! low-quality generator that the encrypting process drew from after seeding
//! it with a Unix timestamp.
//!
//! The algorithm reproduced here is glibc's default `srand`/`rand` pair: the
//! 31-word additive feedback generator (its "TYPE_3" configuration). Seeding
//! fills 31 words with a Lehmer recurrence `16807 * prev mod 2147483647`,
//! computed the way the C code computes it — Schrage's method over 32-bit
//! signed words with truncating division. The stream then follows the
//! additive recurrence with wrapping 32-bit addition, the first 310 values
//! are discarded, and each output is a sum shifted right by one (31-bit
//! outputs).
//!
//! Laid out flat: word 0 is the seed (a zero seed becomes 1), words 1..31
//! follow the Lehmer recurrence, words 31..34 copy words 0..3 (the separation
//! between the generator's two walking pointers), and every later word is
//! `word[i-3] + word[i-31]` wrapping. Output `j` is `word[344 + j] >> 1`.
//!
//! The generator is cryptographically irrelevant; it exists only to strip
//! the outer XOR layer, and must match the platform generator bit for bit.

use vstd::arithmetic::div_mod::lemma_fundamental_div_mod;
use vstd::arithmetic::div_mod::lemma_mod_pos_bound;
use vstd::prelude::*;
use vstd::wrapping::u32_specs;

verus! {

/// One step of the seeding recurrence: `16807 * prev mod 2147483647`, as
/// C's 32-bit signed arithmetic computes it. A word with its top bit set is
/// a negative `int32`; truncating division carries the sign through both
/// quotient and remainder, so that branch mirrors the computation on the
/// negated magnitude.
pub open spec fn spec_seed_word(prev: u32) -> u32 {
    if prev < 0x80000000 {
        let hi: int = prev as int / 127773;
        let lo: int = prev as int % 127773;
        let pos: int = 16807 * lo;
        let neg: int = 2836 * hi;
        if pos >= neg {
            (pos - neg) as u32
        } else {
            (2147483647 - (neg - pos)) as u32
        }
    } else {
        let a: int = 0x100000000 - prev as int;
        let hi: int = a / 127773;
        let lo: int = a % 127773;
        let pos: int = 2836 * hi;
        let neg: int = 16807 * lo;
        if pos >= neg {
            (pos - neg) as u32
        } else {
            (2147483647 - (neg - pos)) as u32
        }
    }
}

/// Word `i` of the flattened generator history for the given seed.
pub open spec fn spec_state(seed: u32, i: nat) -> u32
    decreases i,
{
    if i == 0 {
        if seed == 0 {
            1
        } else {
            seed
        }
    } else if i < 31 {
        spec_seed_word(spec_state(seed, (i - 1) as nat))
    } else if i < 34 {
        spec_state(seed, (i - 31) as nat)
    } else {
        u32_specs::wrapping_add(spec_state(seed, (i - 3) as nat), spec_state(seed, (i - 31) as nat))
    }
}

/// Output `j` of the generator seeded with `seed`: the 310 warm-up values
/// are discarded and each output keeps 31 bits.
pub open spec fn spec_rand(seed: u32, j: nat) -> u32 {
    spec_state(seed, j + 344) >> 1
}

/// One seeding step, executable.
fn seed_word(prev: u32) -> (r: u32)
    ensures
        r == spec_seed_word(prev),
{
    if prev < 0x80000000 {
        proof {
            lemma_fundamental_div_mod(prev as int, 127773);
            lemma_mod_pos_bound(prev as int, 127773);
        }
        let hi: u32 = prev / 127773;
        let lo: u32 = prev % 127773;
        let pos: u64 = 16807u64 * lo as u64;
        let neg: u64 = 2836u64 * hi as u64;
        if pos >= neg {
            (pos - neg) as u32
        } else {
            (2147483647u64 - (neg - pos)) as u32
        }
    } else {
        let a: u64 = 0x100000000u64 - prev as u64;
        proof {
            lemma_fundamental_div_mod(a as int, 127773);
            lemma_mod_pos_bound(a as int, 127773);
        }
        let hi: u64 = a / 127773;
        let lo: u64 = a % 127773;
        let pos: u64 = 2836u64 * hi;
        let neg: u64 = 16807u64 * lo;
        if pos >= neg {
            (pos - neg) as u32
        } else {
            (2147483647u64 - (neg - pos)) as u32
        }
    }
}

/// Reproduce the first `count` outputs the platform generator emits after
/// being seeded with `seed`. Deterministic, total, and free of side effects:
/// the result is a pure function of the arguments.
pub fn generate(seed: u32, count: usize) -> (r: Vec<u32>)
    requires
        count <= usize::MAX - 344,
    ensures
        r@.len() == count,
        forall|j: int| 0 <= j < count ==> r@[j] == spec_rand(seed, j as nat),
{
    let total: usize = 344 + count;
    let mut state: Vec<u32> = Vec::new();
    let first: u32 = if seed == 0 {
        1
    } else {
        seed
    };
    state.push(first);
    let mut i: usize = 1;
    while i < total
        invariant
            1 <= i <= total,
            total == 344 + count,
            state@.len() == i,
            forall|t: int| 0 <= t < i ==> state@[t] == spec_state(seed, t as nat),
        decreases total - i,
    {
        let w: u32 = if i < 31 {
            seed_word(state[i - 1])
        } else if i < 34 {
            state[i - 31]
        } else {
            state[i - 3].wrapping_add(state[i - 31])
        };
        state.push(w);
        i = i + 1;
    }
    let mut out: Vec<u32> = Vec::new();
    let mut j: usize = 0;
    while j < count
        invariant
            j <= count,
            state@.len() == total,
            total == 344 + count,
            forall|t: int| 0 <= t < total ==> state@[t] == spec_state(seed, t as nat),
            out@.len() == j,
            forall|t: int| 0 <= t < j ==> out@[t] == spec_rand(seed, t as nat),
        decreases count - j,
    {
        out.push(state[344 + j] >> 1);
        j = j + 1;
    }
    out
}

/// Determinism: the keystream is a function of seed and count alone, so any
/// two sequences that meet `generate`'s contract for the same arguments are
/// equal, element for element.
pub proof fn lemma_generate_deterministic(seed: u32, count: usize, r1: Seq<u32>, r2: Seq<u32>)
    requires
        r1.len() == count,
        r2.len() == count,
        forall|j: int| 0 <= j < count ==> r1[j] == spec_rand(seed, j as nat),
        forall|j: int| 0 <= j < count ==> r2[j] == spec_rand(seed, j as nat),
    ensures
        r1 == r2,
{
    assert(r1 =~= r2);
}

} // verus!
