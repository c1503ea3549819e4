//! The per-seed recovery attempt and the search over a timestamp window.
//!
//! For one candidate timestamp: reproduce the seed-dependent keystream, XOR
//! it with the first 624 ciphertext words to expose raw generator outputs,
//! reconstruct the generator state from them, advance the reconstructed
//! generator to the flag's offset, XOR the flag words free, and decode.
//!
//! The keystream strips the outer layer for the first 624 words only; words
//! past 624 were never covered by it, and reaching them takes continuing the
//! reconstructed generator, not the keystream. The flag sits at word offset
//! 1000 and is 12 words long.
//!
//! The search tries every timestamp in a closed window, newest first, and
//! reports every seed whose decode succeeds — it never stops at the first
//! hit, because the brace heuristics admit false positives, and it treats a
//! failed decode as the normal case, never as an abort.

use vstd::prelude::*;

use crate::decoder::bytes_of_words;
use crate::decoder::decode;
use crate::decoder::spec_decode;
use crate::mt::recover;
use crate::mt::spec_output;
use crate::mt::spec_recovered_state;
use crate::mt::GeneratorState;
use crate::seedstream::generate;
use crate::seedstream::spec_rand;
use crate::RecoveryError;

verus! {

/// The hypothesized raw generator outputs behind the first 624 ciphertext
/// words, for one candidate timestamp: ciphertext XOR keystream.
pub open spec fn spec_samples(t: u32, data: Seq<u32>) -> Seq<u32> {
    Seq::new(624, |i: int| data[i] ^ spec_rand(t, i as nat))
}

/// The decrypted flag words for one candidate timestamp: the 12 ciphertext
/// words at offset 1000, each XOR-ed with the reconstructed generator's
/// output for its position (output `376 + i` continues the stream at global
/// position `1000 + i`).
pub open spec fn spec_flag_words(t: u32, data: Seq<u32>) -> Seq<u32> {
    Seq::new(
        12,
        |i: int|
            data[1000 + i] ^ spec_output(spec_recovered_state(spec_samples(t, data)), 624, 376 + i),
    )
}

/// What one recovery attempt yields for a candidate timestamp: the decoded
/// flag text, or nothing.
pub open spec fn spec_try_time(t: u32, data: Seq<u32>) -> Option<Seq<char>> {
    spec_decode(bytes_of_words(spec_flag_words(t, data)))
}

/// Attempt recovery under one candidate timestamp. Succeeds exactly when
/// the decoding heuristics accept the decrypted flag words; the common
/// failure, `NoValidCandidate`, is the expected outcome for a wrong seed.
pub fn try_time(timestamp: u32, data: &Vec<u32>) -> (r: Result<String, RecoveryError>)
    requires
        data@.len() > 1012,
    ensures
        r matches Ok(s) ==> spec_try_time(timestamp, data@) == Some(s@),
        r matches Err(e) ==> e == RecoveryError::NoValidCandidate && spec_try_time(
            timestamp,
            data@,
        ) is None,
{
    let keystream: Vec<u32> = generate(timestamp, 624);
    let mut samples: Vec<u32> = Vec::new();
    let mut i: usize = 0;
    while i < 624
        invariant
            i <= 624,
            data@.len() > 1012,
            keystream@.len() == 624,
            forall|k: int| 0 <= k < 624 ==> keystream@[k] == spec_rand(timestamp, k as nat),
            samples@.len() == i,
            forall|k: int| 0 <= k < i ==> samples@[k] == spec_samples(timestamp, data@)[k],
        decreases 624 - i,
    {
        samples.push(data[i] ^ keystream[i]);
        i = i + 1;
    }
    proof {
        assert(samples@ =~= spec_samples(timestamp, data@));
    }
    let recovered: Result<GeneratorState, RecoveryError> = recover(&samples);
    let mut st: GeneratorState = match recovered {
        Ok(g) => g,
        Err(_) => {
            return Err(RecoveryError::NoValidCandidate);
        },
    };
    let advanced: Vec<u32> = st.next_words(388);
    let mut flag_words: Vec<u32> = Vec::new();
    let mut j: usize = 0;
    while j < 12
        invariant
            j <= 12,
            data@.len() > 1012,
            advanced@.len() == 388,
            forall|k: int|
                0 <= k < 388 ==> advanced@[k] == spec_output(
                    spec_recovered_state(spec_samples(timestamp, data@)),
                    624,
                    k,
                ),
            flag_words@.len() == j,
            forall|k: int| 0 <= k < j ==> flag_words@[k] == spec_flag_words(timestamp, data@)[k],
        decreases 12 - j,
    {
        flag_words.push(data[1000 + j] ^ advanced[376 + j]);
        j = j + 1;
    }
    proof {
        assert(flag_words@ =~= spec_flag_words(timestamp, data@));
    }
    decode(&flag_words)
}

/// What one seed contributes to the search report.
pub open spec fn spec_hit(t: u32, data: Seq<u32>) -> Seq<(u32, Seq<char>)> {
    match spec_try_time(t, data) {
        Some(s) => seq![(t, s)],
        None => Seq::empty(),
    }
}

/// Every seed in the closed window `[lo, hi]` whose decode succeeds, paired
/// with its decoded text, newest seed first.
pub open spec fn spec_search(lo: int, hi: int, data: Seq<u32>) -> Seq<(u32, Seq<char>)>
    decreases hi + 1 - lo,
{
    if hi < lo {
        Seq::empty()
    } else {
        spec_hit(hi as u32, data) + spec_search(lo, hi - 1, data)
    }
}

/// The window can also be peeled at its low end: searching `[lo, hi]` is
/// searching `[lo + 1, hi]` and then trying `lo`.
proof fn lemma_search_peel_low(lo: int, hi: int, data: Seq<u32>)
    requires
        lo <= hi,
    ensures
        spec_search(lo, hi, data) == spec_search(lo + 1, hi, data) + spec_hit(lo as u32, data),
    decreases hi - lo,
{
    if lo == hi {
        assert(spec_search(lo, hi - 1, data) == Seq::<(u32, Seq<char>)>::empty());
        assert(spec_search(lo + 1, hi, data) == Seq::<(u32, Seq<char>)>::empty());
        assert(spec_search(lo, hi, data) =~= spec_search(lo + 1, hi, data) + spec_hit(
            lo as u32,
            data,
        ));
    } else {
        lemma_search_peel_low(lo, hi - 1, data);
        assert(spec_search(lo, hi, data) =~= spec_search(lo + 1, hi, data) + spec_hit(
            lo as u32,
            data,
        ));
    }
}

/// The report rows match the specified rows, seed for seed and text for
/// text.
pub open spec fn report_matches(v: Seq<(u32, String)>, s: Seq<(u32, Seq<char>)>) -> bool {
    v.len() == s.len() && forall|k: int|
        0 <= k < v.len() ==> (#[trigger] v[k]).0 == s[k].0 && v[k].1@ == s[k].1
}

/// Try every seed in the closed window `[time_lo, time_hi]`, newest first,
/// and report every one whose decode succeeds. The search never stops at a
/// hit: later seeds are still tried, and a failed decode only moves on.
pub fn search(time_lo: u32, time_hi: u32, data: &Vec<u32>) -> (r: Vec<(u32, String)>)
    requires
        data@.len() > 1012,
    ensures
        report_matches(r@, spec_search(time_lo as int, time_hi as int, data@)),
{
    let mut out: Vec<(u32, String)> = Vec::new();
    if time_hi < time_lo {
        return out;
    }
    let mut cur: u32 = time_hi;
    loop
        invariant_except_break
            time_lo <= cur <= time_hi,
            data@.len() > 1012,
            report_matches(out@, spec_search(cur as int + 1, time_hi as int, data@)),
        ensures
            report_matches(out@, spec_search(time_lo as int, time_hi as int, data@)),
        decreases cur,
    {
        let ghost prev: Seq<(u32, String)> = out@;
        match try_time(cur, data) {
            Ok(s) => {
                out.push((cur, s));
            },
            Err(_) => {},
        }
        proof {
            lemma_search_peel_low(cur as int, time_hi as int, data@);
            let full = spec_search(cur as int, time_hi as int, data@);
            let upper = spec_search(cur as int + 1, time_hi as int, data@);
            assert forall|k: int| 0 <= k < out@.len() implies (#[trigger] out@[k]).0 == full[k].0
                && out@[k].1@ == full[k].1 by {
                if k < prev.len() {
                    assert(prev[k].0 == upper[k].0 && prev[k].1@ == upper[k].1);
                }
            }
        }
        if cur == time_lo {
            break ;
        }
        cur = cur - 1;
    }
    out
}

} // verus!
