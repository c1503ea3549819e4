//! The 32-bit tempering generator: its state, its twist recurrence, and the
//! recovery of a state that is output-equivalent to 624 observed outputs.
//!
//! The generator keeps 624 state words and a cursor. Each output tempers the
//! word under the cursor; when the cursor passes the last word, the whole
//! array is regenerated in place ("twisted") by a linear feedback recurrence
//! with a conditional XOR ("twist"), and the cursor wraps. The recurrence and
//! the constants are those of the MT19937 layout.
//!
//! Because the output transform is invertible ([`crate::temper`]), 624
//! consecutive outputs drawn from a fresh block determine the whole state
//! array: untempering each output yields the block, and setting the cursor
//! past its end makes the next output continue exactly where the observed
//! stream left off.

use vstd::arithmetic::div_mod::lemma_basic_div;
use vstd::arithmetic::div_mod::lemma_fundamental_div_mod;
use vstd::arithmetic::div_mod::lemma_fundamental_div_mod_converse;
use vstd::arithmetic::div_mod::lemma_mod_pos_bound;
use vstd::arithmetic::div_mod::lemma_small_mod;
use vstd::prelude::*;

use crate::temper::fun;
use crate::temper::lemma_untemper_temper;
use crate::temper::spec_temper;
use crate::temper::spec_untemper;
use crate::temper::untemper;
use crate::RecoveryError;

verus! {

/// Number of 32-bit words in the generator state.
pub const STATE_LEN: usize = 624;

/// One word of the twist recurrence: the new word at position `i`, computed
/// from the array `a` as it stands when positions `0..i` have already been
/// regenerated in place. The top bit of `a[i]` is joined with the low bits of
/// the following word, shifted down, and conditionally XOR-ed with the twist
/// constant, then XOR-ed into the word 397 positions ahead (which, for the
/// last 227 positions, is a word regenerated earlier in the same pass).
pub open spec fn twist_word(a: Seq<u32>, i: int) -> u32
    recommends
        a.len() == 624,
        0 <= i < 624,
{
    let y: u32 = (a[i] & 0x80000000) | (a[(i + 1) % 624] & 0x7fffffff);
    let mag: u32 = if y & 1 == 1 {
        0x9908b0df
    } else {
        0
    };
    a[(i + 397) % 624] ^ (y >> 1) ^ mag
}

/// The state array after the first `k` positions of a twist pass have been
/// regenerated in place.
pub open spec fn twist_prefix(s: Seq<u32>, k: nat) -> Seq<u32>
    recommends
        s.len() == 624,
        k <= 624,
    decreases k,
{
    if k == 0 {
        s
    } else {
        let prev = twist_prefix(s, (k - 1) as nat);
        prev.update(k - 1, twist_word(prev, k - 1))
    }
}

/// The state array after one whole twist pass.
pub open spec fn spec_twist(s: Seq<u32>) -> Seq<u32> {
    twist_prefix(s, 624)
}

/// The state array after `b` twist passes.
pub open spec fn spec_block(s: Seq<u32>, b: nat) -> Seq<u32>
    decreases b,
{
    if b == 0 {
        s
    } else {
        spec_twist(spec_block(s, (b - 1) as nat))
    }
}

/// Output `j` of a generator whose state array is `s` and whose cursor
/// stands at `index`: the cursor walks the current block to its end, then
/// each further block is one twist pass away.
pub open spec fn spec_output(s: Seq<u32>, index: int, j: int) -> u32
    recommends
        s.len() == 624,
        0 <= index <= 624,
        0 <= j,
{
    let pos = index + j;
    spec_temper(spec_block(s, (pos / 624) as nat)[pos % 624])
}

/// A twist pass keeps the array length.
pub proof fn lemma_twist_prefix_len(s: Seq<u32>, k: nat)
    requires
        s.len() == 624,
        k <= 624,
    ensures
        twist_prefix(s, k).len() == 624,
    decreases k,
{
    if k > 0 {
        lemma_twist_prefix_len(s, (k - 1) as nat);
    }
}

/// The blocks of a twisted array are the later blocks of the array itself.
pub proof fn lemma_block_shift(s: Seq<u32>, b: nat)
    ensures
        spec_block(spec_twist(s), b) == spec_block(s, b + 1),
    decreases b,
{
    if b == 0 {
        assert(spec_block(s, 1) == spec_twist(spec_block(s, 0)));
    } else {
        lemma_block_shift(s, (b - 1) as nat);
        assert(spec_block(s, b + 1) == spec_twist(spec_block(s, b)));
    }
}

/// The internal state of the tempering generator: 624 words and a cursor.
/// The cursor may stand one past the last word, meaning the next output
/// comes from a fresh twist pass.
pub struct GeneratorState {
    pub words: Vec<u32>,
    pub index: usize,
}

impl GeneratorState {
    /// Well-formedness: a full state array and an in-range cursor.
    pub open spec fn wf(self) -> bool {
        self.words@.len() == 624 && self.index <= 624
    }

    /// Output `j` of the stream this state will produce.
    pub open spec fn output_at(self, j: int) -> u32 {
        spec_output(self.words@, self.index as int, j)
    }

    /// A generator standing at the start of the given block.
    pub fn from_words(words: Vec<u32>) -> (r: GeneratorState)
        requires
            words@.len() == 624,
        ensures
            r.wf(),
            r.words@ == words@,
            r.index == 0,
    {
        GeneratorState { words, index: 0 }
    }

    /// Draw the next output and advance the cursor, twisting the state in
    /// place when the current block is exhausted.
    pub fn next_u32(&mut self) -> (r: u32)
        requires
            old(self).wf(),
        ensures
            final(self).wf(),
            r == old(self).output_at(0),
            forall|j: int| 0 <= j ==> final(self).output_at(j) == old(self).output_at(j + 1),
    {
        if self.index == STATE_LEN {
            twist(&mut self.words);
            self.index = 0;
            proof {
                lemma_rebase_after_twist(*old(self), *self);
            }
        }
        let ghost mid = *self;
        let y: u32 = self.words[self.index];
        self.index = self.index + 1;
        proof {
            lemma_basic_div(mid.index as int, 624);
            lemma_small_mod(mid.index as nat, 624);
            assert(mid.output_at(0) == spec_temper(mid.words@[mid.index as int]));
            assert(forall|j: int|
                0 <= j ==> #[trigger] mid.output_at(j + 1) == old(self).output_at(j + 1));
        }
        fun(y)
    }

    /// Draw the next `n` outputs in order.
    pub fn next_words(&mut self, n: usize) -> (r: Vec<u32>)
        requires
            old(self).wf(),
        ensures
            final(self).wf(),
            r@.len() == n,
            forall|k: int| 0 <= k < n ==> r@[k] == old(self).output_at(k),
            forall|j: int| 0 <= j ==> final(self).output_at(j) == old(self).output_at(j + n),
    {
        let ghost start = *self;
        let mut out: Vec<u32> = Vec::new();
        let mut k: usize = 0;
        while k < n
            invariant
                k <= n,
                self.wf(),
                out@.len() == k,
                forall|t: int| 0 <= t < k ==> out@[t] == start.output_at(t),
                forall|j: int| 0 <= j ==> #[trigger] self.output_at(j) == start.output_at(j + k),
            decreases n - k,
        {
            let w: u32 = self.next_u32();
            out.push(w);
            k = k + 1;
        }
        out
    }
}

/// Regenerate the whole state array in place: one twist pass.
fn twist(words: &mut Vec<u32>)
    requires
        old(words)@.len() == 624,
    ensures
        final(words)@ == spec_twist(old(words)@),
        final(words)@.len() == 624,
{
    let ghost orig = words@;
    let mut i: usize = 0;
    while i < STATE_LEN
        invariant
            orig.len() == 624,
            i <= 624,
            words@ == twist_prefix(orig, i as nat),
            words@.len() == 624,
        decreases 624 - i,
    {
        let y: u32 = (words[i] & 0x80000000) | (words[(i + 1) % STATE_LEN] & 0x7fffffff);
        let mag: u32 = if y & 1 == 1 {
            0x9908b0df
        } else {
            0
        };
        let w: u32 = words[(i + 397) % STATE_LEN] ^ (y >> 1) ^ mag;
        words[i] = w;
        proof {
            assert(words@ =~= twist_prefix(orig, (i + 1) as nat));
            lemma_twist_prefix_len(orig, (i + 1) as nat);
        }
        i = i + 1;
    }
}

/// After a twist pass with the cursor rewound to 0, the stream is unchanged
/// from what a cursor standing past the old block would produce.
proof fn lemma_rebase_after_twist(before: GeneratorState, after: GeneratorState)
    requires
        before.words@.len() == 624,
        before.index == 624,
        after.words@ == spec_twist(before.words@),
        after.index == 0,
    ensures
        forall|j: int| 0 <= j ==> after.output_at(j) == before.output_at(j),
{
    assert forall|j: int| 0 <= j implies after.output_at(j) == before.output_at(j) by {
        let q = j / 624;
        let r = j % 624;
        lemma_fundamental_div_mod(j, 624);
        lemma_mod_pos_bound(j, 624);
        lemma_fundamental_div_mod_converse(624 + j, 624, q + 1, r);
        lemma_block_shift(before.words@, q as nat);
    }
}

/// The state array that recovery reconstructs from 624 observed outputs:
/// each output untempered.
pub open spec fn spec_recovered_state(samples: Seq<u32>) -> Seq<u32> {
    Seq::new(624, |i: int| spec_untemper(samples[i]))
}

/// Reconstruct, from at least 624 consecutive raw outputs drawn from a fresh
/// block, a generator state whose stream continues where the observed one
/// left off: the state array is the untempered first 624 samples, and the
/// cursor stands past them, so the next output is number 624 of the observed
/// generator's stream. Fewer than 624 samples cannot fill a state array, and
/// recovery reports that rather than return a partial state.
pub fn recover(samples: &Vec<u32>) -> (r: Result<GeneratorState, RecoveryError>)
    ensures
        r is Err <==> samples@.len() < 624,
        r matches Err(e) ==> e == RecoveryError::InsufficientSamples,
        r matches Ok(st) ==> st.wf() && st.words@ == spec_recovered_state(samples@) && st.index
            == 624,
{
    if samples.len() < STATE_LEN {
        return Err(RecoveryError::InsufficientSamples);
    }
    let mut words: Vec<u32> = Vec::new();
    let mut i: usize = 0;
    while i < STATE_LEN
        invariant
            i <= 624,
            samples@.len() >= 624,
            words@.len() == i,
            forall|t: int| 0 <= t < i ==> words@[t] == spec_untemper(samples@[t]),
        decreases 624 - i,
    {
        let w: u32 = untemper(samples[i]);
        words.push(w);
        i = i + 1;
    }
    proof {
        assert(words@ =~= spec_recovered_state(samples@));
    }
    Ok(GeneratorState { words, index: STATE_LEN })
}

/// Round trip: tempering each word of a 624-word state vector and then
/// recovering from those tempered outputs reproduces the vector exactly.
pub proof fn lemma_recover_roundtrip(state: Seq<u32>)
    requires
        state.len() == 624,
    ensures
        spec_recovered_state(state.map_values(|w: u32| spec_temper(w))) == state,
{
    let tempered = state.map_values(|w: u32| spec_temper(w));
    assert forall|i: int| 0 <= i < 624 implies spec_recovered_state(tempered)[i] == state[i] by {
        lemma_untemper_temper(state[i]);
    }
    assert(spec_recovered_state(tempered) =~= state);
}

/// The first 624 outputs of a generator standing at the start of a block:
/// what an observer of the stream sees before the first twist pass.
pub open spec fn first_outputs(s: Seq<u32>) -> Seq<u32> {
    Seq::new(624, |i: int| spec_output(s, 0, i))
}

/// Output equivalence: a state recovered from the first 624 outputs of a
/// generator standing at the start of a block continues that generator's
/// stream, output for output, from position 624 on.
pub proof fn lemma_recover_continues(s: Seq<u32>)
    requires
        s.len() == 624,
    ensures
        forall|j: int|
            0 <= j ==> #[trigger] spec_output(spec_recovered_state(first_outputs(s)), 624, j)
                == spec_output(s, 0, 624 + j),
{
    let samples = first_outputs(s);
    assert forall|i: int| 0 <= i < 624 implies samples[i] == spec_temper(s[i]) by {
        lemma_basic_div(i, 624);
        lemma_small_mod(i as nat, 624);
    }
    assert(samples =~= s.map_values(|w: u32| spec_temper(w)));
    lemma_recover_roundtrip(s);
    assert forall|j: int|
        0 <= j implies #[trigger] spec_output(spec_recovered_state(samples), 624, j)
        == spec_output(s, 0, 624 + j) by {
        assert(spec_recovered_state(samples) == s);
    }
}

} // verus!
