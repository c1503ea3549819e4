//! Turning decrypted 32-bit words into a validated text candidate.
//!
//! Each word expands to four bytes, little-endian. Three decoding strategies
//! are then tried in a fixed order, and the first that accepts wins:
//!
//! 1. decode all bytes as strict UTF-8, and accept when the text holds both
//!    an opening and a closing brace;
//! 2. truncate the bytes at the first zero byte, read the rest as Latin-1
//!    (each byte is its own character), and accept on the same brace test;
//! 3. keep only the printable ASCII bytes (32 through 126), read them as
//!    characters, and accept on the same brace test.
//!
//! The order is part of the contract: bytes that several strategies would
//! accept must come back decoded by the earliest one. When none accepts, the
//! decode fails with `NoValidCandidate` — the expected outcome for nearly
//! every wrong seed.
//!
//! A separate, stricter predicate, [`is_valid_flag`], checks for the known
//! marker prefix of a true flag, since brace characters alone admit false
//! positives.

use vstd::prelude::*;
use vstd::seq_lib::*;
use vstd::utf8::decode_utf8;
use vstd::utf8::valid_utf8;

use crate::RecoveryError;

verus! {

/// The four bytes of one word, least significant first.
pub open spec fn word_bytes(w: u32) -> Seq<u8> {
    seq![
        (w & 0xff) as u8,
        ((w >> 8) & 0xff) as u8,
        ((w >> 16) & 0xff) as u8,
        ((w >> 24) & 0xff) as u8,
    ]
}

/// All words expanded to bytes, in order.
pub open spec fn bytes_of_words(ws: Seq<u32>) -> Seq<u8>
    decreases ws.len(),
{
    if ws.len() == 0 {
        Seq::empty()
    } else {
        bytes_of_words(ws.drop_last()) + word_bytes(ws.last())
    }
}

/// The bytes before the first zero byte.
pub open spec fn spec_until_nul(b: Seq<u8>) -> Seq<u8>
    decreases b.len(),
{
    if b.len() == 0 {
        Seq::empty()
    } else if b[0] == 0 {
        Seq::empty()
    } else {
        seq![b[0]] + spec_until_nul(b.drop_first())
    }
}

/// A byte in the printable ASCII range.
pub open spec fn is_printable(x: u8) -> bool {
    32 <= x && x <= 126
}

/// Only the printable ASCII bytes, in order.
pub open spec fn spec_printable(b: Seq<u8>) -> Seq<u8> {
    b.filter(|x: u8| is_printable(x))
}

/// Bytes read as Latin-1 text: each byte is its own character.
pub open spec fn spec_latin1(b: Seq<u8>) -> Seq<char> {
    b.map_values(|x: u8| x as char)
}

/// Both braces occur among the given bytes.
pub open spec fn has_brace_bytes(b: Seq<u8>) -> bool {
    b.contains(123) && b.contains(125)
}

/// Both braces occur in the given text.
pub open spec fn has_brace_chars(s: Seq<char>) -> bool {
    s.contains('{') && s.contains('}')
}

/// What decoding a byte sequence yields: the first accepting strategy's
/// text, or nothing. The Latin-1 strategies test braces on the bytes, which
/// is the same test as on their characters, since each byte is its own
/// character there.
pub open spec fn spec_decode(bytes: Seq<u8>) -> Option<Seq<char>> {
    if valid_utf8(bytes) && has_brace_chars(decode_utf8(bytes)) {
        Some(decode_utf8(bytes))
    } else if has_brace_bytes(spec_until_nul(bytes)) {
        Some(spec_latin1(spec_until_nul(bytes)))
    } else if has_brace_bytes(spec_printable(bytes)) {
        Some(spec_latin1(spec_printable(bytes)))
    } else {
        None
    }
}

/// Relies on String::from_utf8: it succeeds exactly on byte sequences that
/// are valid UTF-8, and then yields the characters those bytes encode.
#[verifier::external_body]
fn utf8_to_string(bytes: &Vec<u8>) -> (r: Option<String>)
    ensures
        r is Some <==> valid_utf8(bytes@),
        r matches Some(s) ==> s@ == decode_utf8(bytes@),
{
    String::from_utf8(bytes.clone()).ok()
}

/// Relies on String::push: it appends exactly the one given character.
#[verifier::external_body]
fn push_char(s: &mut String, c: char)
    ensures
        final(s)@ == old(s)@.push(c),
{
    s.push(c);
}

/// Expand each word to its four bytes, least significant first.
pub fn words_to_bytes(words: &Vec<u32>) -> (r: Vec<u8>)
    ensures
        r@ == bytes_of_words(words@),
{
    let mut out: Vec<u8> = Vec::new();
    let mut i: usize = 0;
    while i < words.len()
        invariant
            i <= words@.len(),
            out@ == bytes_of_words(words@.take(i as int)),
        decreases words@.len() - i,
    {
        let w: u32 = words[i];
        proof {
            assert(w & 0xff < 256 && (w >> 8) & 0xff < 256 && (w >> 16) & 0xff < 256 && (w >> 24)
                & 0xff < 256) by (bit_vector);
        }
        out.push((w & 0xff) as u8);
        out.push(((w >> 8) & 0xff) as u8);
        out.push(((w >> 16) & 0xff) as u8);
        out.push(((w >> 24) & 0xff) as u8);
        proof {
            assert(words@.take(i + 1).drop_last() =~= words@.take(i as int));
            assert(out@ =~= bytes_of_words(words@.take(i + 1)));
        }
        i = i + 1;
    }
    proof {
        assert(words@.take(words@.len() as int) =~= words@);
    }
    out
}

/// The prefix before the first zero byte equals a take of the whole, once a
/// scan has shown everything earlier to be nonzero.
proof fn lemma_until_nul_take(b: Seq<u8>, i: int)
    requires
        0 <= i <= b.len(),
        forall|t: int| 0 <= t < i ==> b[t] != 0,
        i < b.len() ==> b[i] == 0,
    ensures
        spec_until_nul(b) == b.take(i),
    decreases b.len(),
{
    if b.len() == 0 {
        assert(spec_until_nul(b) =~= b.take(i));
    } else if i == 0 {
        assert(spec_until_nul(b) =~= b.take(0));
    } else {
        lemma_until_nul_take(b.drop_first(), i - 1);
        assert(seq![b[0]] + b.drop_first().take(i - 1) =~= b.take(i));
    }
}

/// Truncate at the first zero byte.
fn take_until_nul(bytes: &Vec<u8>) -> (r: Vec<u8>)
    ensures
        r@ == spec_until_nul(bytes@),
{
    let mut out: Vec<u8> = Vec::new();
    let mut i: usize = 0;
    while i < bytes.len()
        invariant
            i <= bytes@.len(),
            out@ == bytes@.take(i as int),
            forall|t: int| 0 <= t < i ==> bytes@[t] != 0,
        decreases bytes@.len() - i,
    {
        let b: u8 = bytes[i];
        if b == 0 {
            proof {
                lemma_until_nul_take(bytes@, i as int);
            }
            return out;
        }
        out.push(b);
        proof {
            assert(out@ =~= bytes@.take(i + 1));
        }
        i = i + 1;
    }
    proof {
        lemma_until_nul_take(bytes@, bytes@.len() as int);
        assert(out@ =~= bytes@.take(bytes@.len() as int));
    }
    out
}

/// Appending one byte extends the printable filter by that byte exactly
/// when it is printable.
proof fn lemma_printable_push(s: Seq<u8>, x: u8)
    ensures
        spec_printable(s.push(x)) == if is_printable(x) {
            spec_printable(s).push(x)
        } else {
            spec_printable(s)
        },
{
    reveal(Seq::filter);
    assert(s.push(x).drop_last() =~= s);
}

/// Keep only the printable ASCII bytes.
fn printable_bytes(bytes: &Vec<u8>) -> (r: Vec<u8>)
    ensures
        r@ == spec_printable(bytes@),
{
    let mut out: Vec<u8> = Vec::new();
    let mut i: usize = 0;
    proof {
        reveal(Seq::filter);
        assert(out@ =~= spec_printable(bytes@.take(0)));
    }
    while i < bytes.len()
        invariant
            i <= bytes@.len(),
            out@ == spec_printable(bytes@.take(i as int)),
        decreases bytes@.len() - i,
    {
        let b: u8 = bytes[i];
        if b >= 32 && b <= 126 {
            out.push(b);
        }
        proof {
            assert(bytes@.take(i as int).push(bytes@[i as int]) =~= bytes@.take(i + 1));
            lemma_printable_push(bytes@.take(i as int), bytes@[i as int]);
        }
        i = i + 1;
    }
    proof {
        assert(bytes@.take(bytes@.len() as int) =~= bytes@);
    }
    out
}

/// Whether the given byte occurs.
fn contains_byte(bytes: &Vec<u8>, target: u8) -> (r: bool)
    ensures
        r == bytes@.contains(target),
{
    let mut i: usize = 0;
    while i < bytes.len()
        invariant
            i <= bytes@.len(),
            forall|t: int| 0 <= t < i ==> bytes@[t] != target,
        decreases bytes@.len() - i,
    {
        if bytes[i] == target {
            return true;
        }
        i = i + 1;
    }
    false
}

/// Whether the given character occurs in the text.
fn str_contains_char(s: &str, target: char) -> (r: bool)
    ensures
        r == s@.contains(target),
{
    let n: usize = s.unicode_len();
    let mut i: usize = 0;
    while i < n
        invariant
            n == s@.len(),
            i <= n,
            forall|t: int| 0 <= t < i ==> s@[t] != target,
        decreases n - i,
    {
        if s.get_char(i) == target {
            return true;
        }
        i = i + 1;
    }
    false
}

/// Bytes as Latin-1 text: one character per byte.
fn latin1_string(bytes: &Vec<u8>) -> (r: String)
    ensures
        r@ == spec_latin1(bytes@),
{
    let mut s: String = String::new();
    let mut i: usize = 0;
    proof {
        assert(s@ =~= spec_latin1(bytes@.take(0)));
    }
    while i < bytes.len()
        invariant
            i <= bytes@.len(),
            s@ == spec_latin1(bytes@.take(i as int)),
        decreases bytes@.len() - i,
    {
        let c: char = bytes[i] as char;
        push_char(&mut s, c);
        proof {
            assert(s@ =~= spec_latin1(bytes@.take(i + 1)));
        }
        i = i + 1;
    }
    proof {
        assert(bytes@.take(bytes@.len() as int) =~= bytes@);
    }
    s
}

/// Decode decrypted words into text: expand to bytes, try the three
/// strategies in order, and return the first accepted candidate, or
/// `NoValidCandidate` when none accepts.
pub fn decode(words: &Vec<u32>) -> (r: Result<String, RecoveryError>)
    ensures
        r matches Ok(s) ==> spec_decode(bytes_of_words(words@)) == Some(s@),
        r matches Err(e) ==> e == RecoveryError::NoValidCandidate && spec_decode(
            bytes_of_words(words@),
        ) is None,
{
    let bytes: Vec<u8> = words_to_bytes(words);
    match utf8_to_string(&bytes) {
        Some(s) => {
            let open: bool = str_contains_char(s.as_str(), '{');
            let close: bool = str_contains_char(s.as_str(), '}');
            if open && close {
                return Ok(s);
            }
        },
        None => {},
    }
    let trunc: Vec<u8> = take_until_nul(&bytes);
    if contains_byte(&trunc, 123) && contains_byte(&trunc, 125) {
        return Ok(latin1_string(&trunc));
    }
    let print: Vec<u8> = printable_bytes(&bytes);
    if contains_byte(&print, 123) && contains_byte(&print, 125) {
        return Ok(latin1_string(&print));
    }
    Err(RecoveryError::NoValidCandidate)
}

/// The marker prefix that distinguishes a true flag from a coincidental
/// brace pair.
pub open spec fn spec_marker() -> Seq<char> {
    seq!['i', 'c', 't', 'f', '{']
}

/// The marker occurs somewhere in the text.
pub open spec fn has_marker(s: Seq<char>) -> bool {
    exists|i: int| 0 <= i && i + 5 <= s.len() && #[trigger] s.subrange(i, i + 5) == spec_marker()
}

/// The stricter validation predicate: the candidate holds the known flag
/// marker, not merely a brace pair.
pub fn is_valid_flag(flag: &str) -> (r: bool)
    ensures
        r == has_marker(flag@),
{
    let n: usize = flag.unicode_len();
    if n < 5 {
        return false;
    }
    let mut i: usize = 0;
    while i <= n - 5
        invariant
            n == flag@.len(),
            5 <= n,
            i <= n,
            forall|t: int| 0 <= t < i ==> #[trigger] flag@.subrange(t, t + 5) != spec_marker(),
        decreases n - i,
    {
        let hit: bool = flag.get_char(i) == 'i' && flag.get_char(i + 1) == 'c' && flag.get_char(
            i + 2,
        ) == 't' && flag.get_char(i + 3) == 'f' && flag.get_char(i + 4) == '{';
        if hit {
            proof {
                assert(flag@.subrange(i as int, i + 5) =~= spec_marker());
            }
            return true;
        }
        proof {
            assert(flag@.subrange(i as int, i + 5) != spec_marker());
        }
        i = i + 1;
    }
    false
}

} // verus!
