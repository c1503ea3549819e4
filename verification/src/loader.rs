//! Parsing the stored ciphertext: a text of comma-separated unsigned
//! integers becomes an ordered sequence of 32-bit words.
//!
//! Parsing is non-strict: the text is split on commas, each token is
//! stripped of surrounding ASCII whitespace, and a token parses when what
//! remains is an optional plus sign followed by decimal digits whose value
//! fits 32 bits. Tokens that fail to parse are dropped silently, never
//! reported. A parse of the whole text fails only when it yields 1012 words
//! or fewer: too short to cover the 624 recovery words and a flag of 12
//! words at offset 1000.

use vstd::prelude::*;

use crate::RecoveryError;

verus! {

/// An ASCII whitespace byte: tab through carriage return, or space.
pub open spec fn is_space(x: u8) -> bool {
    x == 9 || x == 10 || x == 11 || x == 12 || x == 13 || x == 32
}

/// A decimal digit byte.
pub open spec fn is_digit(x: u8) -> bool {
    48 <= x && x <= 57
}

/// How many whitespace bytes lead the token.
pub open spec fn lead_ws(t: Seq<u8>) -> nat
    decreases t.len(),
{
    if t.len() == 0 {
        0
    } else if !is_space(t[0]) {
        0
    } else {
        1 + lead_ws(t.drop_first())
    }
}

/// How many whitespace bytes trail the token.
pub open spec fn trail_ws(t: Seq<u8>) -> nat
    decreases t.len(),
{
    if t.len() == 0 {
        0
    } else if !is_space(t.last()) {
        0
    } else {
        1 + trail_ws(t.drop_last())
    }
}

/// The token with surrounding whitespace stripped.
pub open spec fn spec_trim(t: Seq<u8>) -> Seq<u8> {
    let rest = t.skip(lead_ws(t) as int);
    rest.take(rest.len() - trail_ws(rest))
}

/// Every byte is a digit.
pub open spec fn all_digits(d: Seq<u8>) -> bool {
    forall|i: int| 0 <= i < d.len() ==> is_digit(#[trigger] d[i])
}

/// The number the digit bytes spell, most significant first.
pub open spec fn digits_value(d: Seq<u8>) -> int
    decreases d.len(),
{
    if d.len() == 0 {
        0
    } else {
        10 * digits_value(d.drop_last()) + (d.last() - 48)
    }
}

/// What a token parses to: trim, allow one leading plus sign, then demand
/// nonempty digits whose value fits 32 bits — the way the platform parses an
/// unsigned 32-bit integer from text.
pub open spec fn spec_token_u32(tok: Seq<u8>) -> Option<u32> {
    let t = spec_trim(tok);
    let d = if t.len() > 0 && t[0] == 43 {
        t.drop_first()
    } else {
        t
    };
    if d.len() == 0 || !all_digits(d) {
        None
    } else if digits_value(d) > 0xffffffff {
        None
    } else {
        Some(digits_value(d) as u32)
    }
}

/// Distance from `from` to the next comma, or to the end of the text.
pub open spec fn comma_offset(b: Seq<u8>, from: int) -> nat
    decreases b.len() - from,
{
    if from < 0 || from >= b.len() {
        0
    } else if b[from] == 44 {
        0
    } else {
        1 + comma_offset(b, from + 1)
    }
}

/// The words parsed from the text at and after position `from`: one token
/// up to the next comma, then the rest.
pub open spec fn parse_from(b: Seq<u8>, from: int) -> Seq<u32>
    recommends
        0 <= from <= b.len(),
    decreases b.len() - from,
{
    let end = from + comma_offset(b, from);
    let vals = match spec_token_u32(b.subrange(from, end)) {
        Some(v) => seq![v],
        None => Seq::empty(),
    };
    if end >= b.len() {
        vals
    } else {
        vals + parse_from(b, end + 1)
    }
}

/// The words parsed from the whole text.
pub open spec fn spec_parse(b: Seq<u8>) -> Seq<u32> {
    parse_from(b, 0)
}

/// A scan that stopped at the first whitespace break names the leading
/// whitespace count exactly.
proof fn lemma_lead_ws(t: Seq<u8>, i: int)
    requires
        0 <= i <= t.len(),
        forall|k: int| 0 <= k < i ==> is_space(#[trigger] t[k]),
        i < t.len() ==> !is_space(t[i]),
    ensures
        lead_ws(t) == i,
    decreases t.len(),
{
    if i == 0 {
    } else {
        lemma_lead_ws(t.drop_first(), i - 1);
    }
}

/// A backwards scan that stopped at the last non-whitespace byte names the
/// trailing whitespace count exactly.
proof fn lemma_trail_ws(t: Seq<u8>, j: int)
    requires
        0 <= j <= t.len(),
        forall|k: int| j <= k < t.len() ==> is_space(#[trigger] t[k]),
        j > 0 ==> !is_space(t[j - 1]),
    ensures
        trail_ws(t) == t.len() - j,
    decreases t.len(),
{
    if j < t.len() {
        lemma_trail_ws(t.drop_last(), j);
    }
}

/// A scan that found no comma before `end`, and a comma or the text's end at
/// `end`, names the comma offset exactly.
proof fn lemma_comma_offset(b: Seq<u8>, from: int, end: int)
    requires
        0 <= from <= end <= b.len(),
        forall|k: int| from <= k < end ==> b[k] != 44,
        end < b.len() ==> b[end] == 44,
    ensures
        from + comma_offset(b, from) == end,
    decreases end - from,
{
    if from < end {
        lemma_comma_offset(b, from + 1, end);
    }
}

/// The digit bytes never spell a negative number.
proof fn lemma_digits_nonneg(d: Seq<u8>)
    requires
        all_digits(d),
    ensures
        digits_value(d) >= 0,
    decreases d.len(),
{
    if d.len() > 0 {
        assert(all_digits(d.drop_last()));
        lemma_digits_nonneg(d.drop_last());
    }
}

/// Reading one more digit never shrinks the value.
proof fn lemma_digits_extend(d: Seq<u8>, i: int)
    requires
        all_digits(d.take(i + 1)),
        0 <= i < d.len(),
    ensures
        digits_value(d.take(i + 1)) >= digits_value(d.take(i)),
        digits_value(d.take(i + 1)) == 10 * digits_value(d.take(i)) + (d[i] - 48),
{
    assert(d.take(i + 1).drop_last() =~= d.take(i));
    assert forall|k: int| 0 <= k < i implies is_digit(#[trigger] d.take(i)[k]) by {
        assert(d.take(i + 1)[k] == d.take(i)[k]);
    }
    lemma_digits_nonneg(d.take(i));
}

/// An ASCII whitespace byte, executable.
fn is_space_byte(x: u8) -> (r: bool)
    ensures
        r == is_space(x),
{
    x == 9 || x == 10 || x == 11 || x == 12 || x == 13 || x == 32
}

/// Strip surrounding whitespace from the token.
fn trim_bytes(tok: &Vec<u8>) -> (r: Vec<u8>)
    ensures
        r@ == spec_trim(tok@),
{
    let n: usize = tok.len();
    let mut l: usize = 0;
    while l < n && is_space_byte(tok[l])
        invariant
            n == tok@.len(),
            l <= n,
            forall|k: int| 0 <= k < l ==> is_space(#[trigger] tok@[k]),
        decreases n - l,
    {
        l = l + 1;
    }
    proof {
        lemma_lead_ws(tok@, l as int);
    }
    let mut r: usize = n;
    while r > l && is_space_byte(tok[r - 1])
        invariant
            n == tok@.len(),
            l <= r <= n,
            forall|k: int| r <= k < n ==> is_space(#[trigger] tok@[k]),
        decreases r,
    {
        r = r - 1;
    }
    proof {
        let rest = tok@.skip(l as int);
        assert forall|k: int| r - l <= k < rest.len() implies is_space(#[trigger] rest[k]) by {
            assert(rest[k] == tok@[k + l]);
        }
        if r > l {
            assert(!is_space(rest[r - l - 1]));
        }
        lemma_trail_ws(rest, r - l);
        assert(spec_trim(tok@) =~= tok@.subrange(l as int, r as int));
    }
    let mut out: Vec<u8> = Vec::new();
    let mut i: usize = l;
    while i < r
        invariant
            l <= i <= r <= tok@.len(),
            out@ == tok@.subrange(l as int, i as int),
        decreases r - i,
    {
        out.push(tok[i]);
        proof {
            assert(out@ =~= tok@.subrange(l as int, i + 1));
        }
        i = i + 1;
    }
    out
}

/// Parse one token the way the platform parses an unsigned 32-bit integer:
/// strip whitespace, allow one plus sign, demand digits, reject overflow.
fn token_value(tok: &Vec<u8>) -> (r: Option<u32>)
    ensures
        r == spec_token_u32(tok@),
{
    let t: Vec<u8> = trim_bytes(tok);
    let start: usize = if t.len() > 0 && t[0] == 43 {
        1
    } else {
        0
    };
    let ghost d: Seq<u8> = if t@.len() > 0 && t@[0] == 43 {
        t@.drop_first()
    } else {
        t@
    };
    proof {
        assert(d =~= t@.subrange(start as int, t@.len() as int));
    }
    if t.len() == start {
        return None;
    }
    let mut val: u64 = 0;
    let mut i: usize = start;
    let mut over: bool = false;
    while i < t.len()
        invariant
            start <= i <= t@.len(),
            t@ == spec_trim(tok@),
            d == (if t@.len() > 0 && t@[0] == 43 {
                t@.drop_first()
            } else {
                t@
            }),
            d == t@.subrange(start as int, t@.len() as int),
            forall|k: int| start <= k < i ==> is_digit(#[trigger] t@[k]),
            all_digits(d.take(i - start)),
            !over ==> val == digits_value(d.take(i - start)) && val <= 0xffffffff,
            over ==> digits_value(d.take(i - start)) > 0xffffffff,
        decreases t@.len() - i,
    {
        let b: u8 = t[i];
        if b < 48 || b > 57 {
            proof {
                assert(d[i - start] == t@[i as int]);
                assert(!is_digit(d[i - start]));
                assert(!all_digits(d));
            }
            return None;
        }
        proof {
            assert(d.take(i - start).push(t@[i as int]) =~= d.take(i + 1 - start));
            assert(all_digits(d.take(i + 1 - start)));
            lemma_digits_extend(d, i - start);
        }
        if !over {
            val = 10 * val + (b - 48) as u64;
            if val > 0xffffffff {
                over = true;
            }
        }
        i = i + 1;
    }
    proof {
        assert(d.take(i - start) =~= d);
        assert(all_digits(d));
    }
    if over {
        return None;
    }
    Some(val as u32)
}

/// Parse the ciphertext text into words, dropping malformed tokens
/// silently.
pub fn parse_words(data: &Vec<u8>) -> (r: Vec<u32>)
    ensures
        r@ == spec_parse(data@),
{
    let n: usize = data.len();
    let mut out: Vec<u32> = Vec::new();
    let mut from: usize = 0;
    loop
        invariant_except_break
            from <= n,
            n == data@.len(),
            spec_parse(data@) == out@ + parse_from(data@, from as int),
        ensures
            spec_parse(data@) == out@,
        decreases n - from,
    {
        let mut end: usize = from;
        while end < n && data[end] != 44
            invariant
                from <= end <= n,
                n == data@.len(),
                forall|k: int| from <= k < end ==> data@[k] != 44,
            decreases n - end,
        {
            end = end + 1;
        }
        proof {
            lemma_comma_offset(data@, from as int, end as int);
        }
        let mut tok: Vec<u8> = Vec::new();
        let mut i: usize = from;
        while i < end
            invariant
                from <= i <= end <= n,
                n == data@.len(),
                tok@ == data@.subrange(from as int, i as int),
            decreases end - i,
        {
            tok.push(data[i]);
            proof {
                assert(tok@ =~= data@.subrange(from as int, i + 1));
            }
            i = i + 1;
        }
        let ghost prev_out: Seq<u32> = out@;
        let ghost vals: Seq<u32> = match spec_token_u32(data@.subrange(from as int, end as int)) {
            Some(v) => seq![v],
            None => Seq::empty(),
        };
        match token_value(&tok) {
            Some(v) => {
                out.push(v);
            },
            None => {},
        }
        proof {
            assert(out@ =~= prev_out + vals);
        }
        if end >= n {
            proof {
                assert(parse_from(data@, from as int) == vals);
                assert(prev_out + vals =~= out@);
            }
            break ;
        }
        proof {
            assert(parse_from(data@, from as int) == vals + parse_from(data@, end + 1));
            assert(prev_out + (vals + parse_from(data@, end + 1)) =~= out@ + parse_from(
                data@,
                end + 1,
            ));
        }
        from = end + 1;
    }
    out
}

/// Parse the ciphertext text into words and demand more than 1012 of them:
/// the parsed sequence must cover the 624 recovery words and a 12-word flag
/// at offset 1000, and anything shorter fails the whole run.
pub fn parse_ciphertext(data: &Vec<u8>) -> (r: Result<Vec<u32>, RecoveryError>)
    ensures
        r matches Ok(v) ==> v@ == spec_parse(data@) && v@.len() > 1012,
        r matches Err(e) ==> e == RecoveryError::InsufficientData && spec_parse(data@).len()
            <= 1012,
{
    let words: Vec<u32> = parse_words(data);
    if words.len() <= 1012 {
        return Err(RecoveryError::InsufficientData);
    }
    Ok(words)
}

} // verus!
