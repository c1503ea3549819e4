//! Recovery of a plaintext flag that was encrypted by XOR-ing it against the
//! outputs of two pseudo-random generators seeded from an unknown Unix
//! timestamp.
//!
//! The ciphertext is a sequence of 32-bit words. Its first 624 words are the
//! raw outputs of a 32-bit tempering generator (the MT19937 layout), each
//! XOR-ed once more with a word of a low-quality, libc-style keystream seeded
//! with the timestamp. Stripping that outer layer exposes 624 consecutive
//! generator outputs, which suffice to reconstruct the generator's internal
//! state; advancing the reconstructed generator to the flag's offset then
//! decrypts the flag.
//!
//! Modules, leaf first:
//! - [`temper`]: the generator's output transform and its inverse;
//! - [`mt`]: the generator state, its twist recurrence, and state recovery
//!   from 624 outputs;
//! - [`seedstream`]: the libc-style keystream reproduced as a pure function
//!   of the seed;
//! - [`decoder`]: turning decrypted words into a validated text candidate;
//! - [`loader`]: parsing the stored ciphertext into words;
//! - [`pipeline`]: the per-seed attempt and the search over a timestamp
//!   window.

use vstd::prelude::*;

pub mod decoder;
pub mod loader;
pub mod mt;
pub mod pipeline;
pub mod seedstream;
pub mod temper;

verus! {

/// The ways a recovery attempt can fail.
///
/// `FileNotFound` and `InsufficientData` concern the ciphertext source and
/// abort a whole run; `InsufficientSamples` reports too few words for state
/// recovery; `NoValidCandidate` is the expected per-seed outcome for nearly
/// every wrong seed, and a search continues past it.
#[derive(Clone, Copy, PartialEq, Eq, Structural, Debug)]
pub enum RecoveryError {
    FileNotFound,
    InsufficientData,
    InsufficientSamples,
    NoValidCandidate,
}

} // verus!
