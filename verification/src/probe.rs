//! Reading what the probe says about a video: one value in each answer.

use vstd::prelude::*;
use crate::error::Error;
use crate::split::{back_run_len, lemma_back_run_len_is, lemma_run_len_is, run_len};
use crate::text::{
    copy_range, from_chars, is_space, is_space_char, parse_digits, parse_u32_spec, to_chars,
};

verus! {

/// `s` without the white space at its front and at its back.
pub open spec fn trimmed(s: Seq<char>) -> Seq<char> {
    let t = s.skip(run_len(s, |c: char| is_space(c)) as int);
    t.take(t.len() - back_run_len(t, |c: char| is_space(c)))
}

/// The positions between which `s` holds [`trimmed`].
fn trim_range(s: &[char]) -> (r: (usize, usize))
    ensures
        r.0 <= r.1 <= s.len(),
        s@.subrange(r.0 as int, r.1 as int) == trimmed(s@),
{
    let mut a: usize = 0;
    while a < s.len() && is_space_char(s[a])
        invariant
            a <= s.len(),
            forall|k: int| 0 <= k < a ==> is_space(#[trigger] s@[k]),
        decreases s.len() - a,
    {
        a += 1;
    }
    let mut b: usize = s.len();
    while b > a && is_space_char(s[b - 1])
        invariant
            a <= b <= s.len(),
            forall|k: int| b <= k < s.len() ==> is_space(#[trigger] s@[k]),
        decreases b,
    {
        b -= 1;
    }
    proof {
        let p = |c: char| is_space(c);
        lemma_run_len_is(s@, p, a as nat);
        let t = s@.skip(a as int);
        lemma_back_run_len_is(t, p, (s.len() - b) as nat);
    }
    (a, b)
}

/// The number that an answer of the probe holds: the answer without the
/// white space around it, read as an unsigned number.
pub open spec fn probe_number(output: Seq<char>) -> Result<u32, Error> {
    match parse_u32_spec(trimmed(output)) {
        Some(n) => Ok(n),
        None => Err(Error::InvalidDimension),
    }
}

/// Reads a width, a height or a whole frame rate from an answer of the
/// probe. An answer that is no number gives [`Error::InvalidDimension`].
pub fn parse_probe_number(output: &str) -> (r: Result<u32, Error>)
    ensures
        r == probe_number(output@),
{
    let s = to_chars(output);
    let (a, b) = trim_range(&s);
    match parse_number_in(&s, a, b) {
        Some(n) => Ok(n),
        None => Err(Error::InvalidDimension),
    }
}

/// Reads the characters from `a` up to `b` as an unsigned number.
fn parse_number_in(s: &[char], a: usize, b: usize) -> (r: Option<u32>)
    requires
        a <= b <= s.len(),
    ensures
        r == parse_u32_spec(s@.subrange(a as int, b as int)),
{
    let ghost t = s@.subrange(a as int, b as int);
    if a < b && s[a] == '+' {
        proof {
            assert(t.drop_first() =~= s@.subrange(a + 1, b as int));
        }
        parse_digits(s, a + 1, b)
    } else {
        parse_digits(s, a, b)
    }
}

/// Tells whether the probe found a sound stream: whether its answer holds
/// anything but white space.
pub fn probe_reports_audio(output: &str) -> (r: bool)
    ensures
        r == (trimmed(output@).len() > 0),
{
    let s = to_chars(output);
    let (a, b) = trim_range(&s);
    a < b
}

/// A frame rate as the probe gives it.
#[derive(Clone, Debug, PartialEq, Eq)]
pub enum FrameRate {
    /// A whole number of frames in a second.
    Whole(u32),
    /// A quotient: the texts before and behind the first `/`.
    Ratio { numerator: String, denominator: String },
}

/// What a [`FrameRate`] holds, as mathematical values.
pub enum FrameRateText {
    Whole(u32),
    Ratio { numerator: Seq<char>, denominator: Seq<char> },
}

impl View for FrameRate {
    type V = FrameRateText;

    open spec fn view(&self) -> FrameRateText {
        match self {
            FrameRate::Whole(n) => FrameRateText::Whole(*n),
            FrameRate::Ratio { numerator, denominator } => FrameRateText::Ratio {
                numerator: numerator@,
                denominator: denominator@,
            },
        }
    }
}

/// The number of characters of `s` before its first `/`.
pub open spec fn slash_position(s: Seq<char>) -> nat {
    run_len(s, |c: char| c != '/')
}

/// The frame rate that an answer of the probe holds. Where the answer,
/// without the white space around it, holds a `/`, it is a quotient: the
/// numerator is what stands before the first `/`, the denominator what
/// stands between the first `/` and the second, or the end. Otherwise it is
/// a whole number.
pub open spec fn probe_frame_rate(output: Seq<char>) -> Result<FrameRateText, Error> {
    let t = trimmed(output);
    let n = slash_position(t);
    if n < t.len() {
        let rest = t.skip(n as int + 1);
        Ok(
            FrameRateText::Ratio {
                numerator: t.take(n as int),
                denominator: rest.take(slash_position(rest) as int),
            },
        )
    } else {
        match parse_u32_spec(t) {
            Some(fps) => Ok(FrameRateText::Whole(fps)),
            None => Err(Error::InvalidDimension),
        }
    }
}

/// The position of the first `/` from `from` on, or `to` where there is
/// none before it.
fn find_slash(s: &[char], from: usize, to: usize) -> (r: usize)
    requires
        from <= to <= s.len(),
    ensures
        from <= r <= to,
        r - from == slash_position(s@.subrange(from as int, to as int)),
{
    let mut i: usize = from;
    while i < to && s[i] != '/'
        invariant
            from <= i <= to <= s.len(),
            forall|k: int| from <= k < i ==> #[trigger] s@[k] != '/',
        decreases to - i,
    {
        i += 1;
    }
    proof {
        let t = s@.subrange(from as int, to as int);
        let p = |c: char| c != '/';
        lemma_run_len_is(t, p, (i - from) as nat);
    }
    i
}

/// Reads the frame rate from an answer of the probe. A quotient is handed on
/// as its two texts: dividing is left to the caller. An answer that is
/// neither a quotient nor a whole number gives [`Error::InvalidDimension`].
pub fn parse_frame_rate(output: &str) -> (r: Result<FrameRate, Error>)
    ensures
        match r {
            Ok(rate) => probe_frame_rate(output@) == Ok::<FrameRateText, Error>(rate@),
            Err(e) => probe_frame_rate(output@) == Err::<FrameRateText, Error>(e),
        },
{
    let s = to_chars(output);
    let (a, b) = trim_range(&s);
    let ghost t = s@.subrange(a as int, b as int);
    let slash = find_slash(&s, a, b);
    if slash < b {
        let end = find_slash(&s, slash + 1, b);
        let numerator = copy_range(&s, a, slash);
        let denominator = copy_range(&s, slash + 1, end);
        proof {
            let n = slash_position(t);
            let rest = t.skip(n as int + 1);
            assert(rest =~= s@.subrange(slash + 1, b as int));
            assert(t.take(n as int) =~= numerator@);
            assert(rest.take(slash_position(rest) as int) =~= denominator@);
        }
        Ok(FrameRate::Ratio { numerator: from_chars(&numerator), denominator: from_chars(&denominator) })
    } else {
        match parse_number_in(&s, a, b) {
            Some(fps) => Ok(FrameRate::Whole(fps)),
            None => Err(Error::InvalidDimension),
        }
    }
}

} // verus!
