//! The output transform ("tempering") of the 32-bit generator, and its
//! inverse.
//!
//! The generator never hands out a state word directly: each word passes
//! through a fixed, invertible bit-mixing transform of four shift-XOR
//! stages. The masks below are the MT19937 tempering masks, written in the
//! pre-shifted form `(y & (m >> k)) << k`, which equals the more common
//! `(y << k) & m` with `m = 0x9d2c5680` and `m = 0xefc60000`.
//!
//! The inverse undoes the four stages in reverse order. A stage
//! `y ^ ((y & m) << k)` leaves the low `k` bits untouched, so its inverse is
//! reconstructed block by block: each iteration of `x = z ^ ((x & m) << k)`
//! fixes `k` more low bits, and a fixed number of iterations recovers the
//! whole word. Both round trips are proved below for every 32-bit word.

use vstd::prelude::*;

verus! {

/// The tempering transform applied to one state word.
pub open spec fn spec_temper(x: u32) -> u32 {
    let y1: u32 = x ^ (x >> 11);
    let y2: u32 = y1 ^ ((y1 & 0x13a58ad) << 7);
    let y3: u32 = y2 ^ ((y2 & 0x1df8c) << 15);
    y3 ^ (y3 >> 18)
}

/// The inverse of [`spec_temper`], stage by stage in reverse order.
pub open spec fn spec_untemper(y: u32) -> u32 {
    let z3: u32 = y ^ (y >> 18);
    let z2: u32 = z3 ^ ((z3 & 0x1df8c) << 15);
    let a1: u32 = z2 ^ ((z2 & 0x13a58ad) << 7);
    let a2: u32 = z2 ^ ((a1 & 0x13a58ad) << 7);
    let a3: u32 = z2 ^ ((a2 & 0x13a58ad) << 7);
    let z1: u32 = z2 ^ ((a3 & 0x13a58ad) << 7);
    let b1: u32 = z1 ^ (z1 >> 11);
    z1 ^ (b1 >> 11)
}

/// Untempering a tempered word gives the word back: the transform loses no
/// information, so it is injective on all 32-bit words.
pub proof fn lemma_untemper_temper(x: u32)
    ensures
        spec_untemper(spec_temper(x)) == x,
{
    assert(spec_untemper(spec_temper(x)) == x) by (bit_vector);
}

/// Tempering an untempered word gives the word back: every 32-bit word is a
/// possible generator output, and the inverse is exact.
pub proof fn lemma_temper_untemper(y: u32)
    ensures
        spec_temper(spec_untemper(y)) == y,
{
    assert(spec_temper(spec_untemper(y)) == y) by (bit_vector);
}

/// The tempering transform, executable.
pub fn fun(word: u32) -> (r: u32)
    ensures
        r == spec_temper(word),
{
    let y1: u32 = word ^ (word >> 11);
    let y2: u32 = y1 ^ ((y1 & 0x13a58ad) << 7);
    let y3: u32 = y2 ^ ((y2 & 0x1df8c) << 15);
    y3 ^ (y3 >> 18)
}

/// The inverse transform, executable: recovers the state word behind one
/// generator output.
pub fn untemper(word: u32) -> (r: u32)
    ensures
        r == spec_untemper(word),
        spec_temper(r) == word,
{
    proof {
        lemma_temper_untemper(word);
    }
    let z3: u32 = word ^ (word >> 18);
    let z2: u32 = z3 ^ ((z3 & 0x1df8c) << 15);
    let a1: u32 = z2 ^ ((z2 & 0x13a58ad) << 7);
    let a2: u32 = z2 ^ ((a1 & 0x13a58ad) << 7);
    let a3: u32 = z2 ^ ((a2 & 0x13a58ad) << 7);
    let z1: u32 = z2 ^ ((a3 & 0x13a58ad) << 7);
    let b1: u32 = z1 ^ (z1 >> 11);
    z1 ^ (b1 >> 11)
}

} // verus!
