//! Background colours: `#RRGGBB` or `#RGB`, hexadecimal, in either case.

use vstd::prelude::*;
use crate::error::{ColorFault, Error};
use crate::split::{lemma_run_len_is, run_len};
use crate::text::{is_hex_digit, is_hex_digit_char, push_chars, to_chars};

verus! {

/// The number of bytes that `c` takes in UTF-8.
pub open spec fn utf8_len(c: char) -> nat {
    if (c as int) < 0x80 {
        1
    } else if (c as int) < 0x800 {
        2
    } else if (c as int) < 0x10000 {
        3
    } else {
        4
    }
}

/// The number of bytes that `s` takes in UTF-8.
pub open spec fn utf8_size(s: Seq<char>) -> nat
    decreases s.len(),
{
    if s.len() == 0 {
        0
    } else {
        utf8_size(s.drop_last()) + utf8_len(s.last())
    }
}

/// Every character of `s` is a hexadecimal digit.
pub open spec fn all_hex(s: Seq<char>) -> bool {
    forall|i: int| 0 <= i < s.len() ==> is_hex_digit(#[trigger] s[i])
}

/// `s` without the `#` characters at its front.
pub open spec fn without_hashes(s: Seq<char>) -> Seq<char> {
    s.skip(run_len(s, |c: char| c == '#') as int)
}

/// A colour as descriptors hold it: `#`, then three or six hexadecimal
/// digits.
pub open spec fn is_normalized_color(s: Seq<char>) -> bool {
    &&& (s.len() == 4 || s.len() == 7)
    &&& s[0] == '#'
    &&& all_hex(s.skip(1))
}

/// The normal form of a colour: what follows its leading `#` characters has
/// to take three or six bytes, all of them hexadecimal digits, and the normal
/// form is that text behind a single `#`.
pub open spec fn normalized_color(s: Seq<char>) -> Result<Seq<char>, ColorFault> {
    let body = without_hashes(s);
    if utf8_size(body) != 6 && utf8_size(body) != 3 {
        Err(ColorFault::Length)
    } else if !all_hex(body) {
        Err(ColorFault::Digit)
    } else {
        Ok(seq!['#'] + body)
    }
}

/// A text takes at least one byte for each character.
pub proof fn lemma_utf8_size_bounds(s: Seq<char>)
    ensures
        s.len() <= utf8_size(s) <= 4 * s.len(),
        all_hex(s) ==> utf8_size(s) == s.len(),
    decreases s.len(),
{
    if s.len() > 0 {
        lemma_utf8_size_bounds(s.drop_last());
    }
}

/// What [`normalized_color`] accepts it gives back in normal form, and a
/// colour in normal form is its own normal form.
pub proof fn lemma_normalized_color(s: Seq<char>)
    ensures
        normalized_color(s) matches Ok(c) ==> is_normalized_color(c) && normalized_color(c) == Ok::<
            Seq<char>,
            ColorFault,
        >(c),
        is_normalized_color(s) ==> normalized_color(s) == Ok::<Seq<char>, ColorFault>(s),
{
    if let Ok(c) = normalized_color(s) {
        let body = without_hashes(s);
        lemma_utf8_size_bounds(body);
        lemma_normal_form_is_fixed(c);
    }
    if is_normalized_color(s) {
        lemma_normal_form_is_fixed(s);
    }
}

/// A colour in normal form is its own normal form.
proof fn lemma_normal_form_is_fixed(c: Seq<char>)
    requires
        is_normalized_color(c),
    ensures
        normalized_color(c) == Ok::<Seq<char>, ColorFault>(c),
{
    let body = c.skip(1);
    assert(is_hex_digit(body[0]));
    lemma_run_len_is(c, |x: char| x == '#', 1);
    lemma_utf8_size_bounds(body);
    assert(seq!['#'] + body =~= c);
}

/// The number of bytes that `c` takes in UTF-8.
fn utf8_len_of(c: char) -> (r: usize)
    ensures
        r == utf8_len(c),
{
    let n: u32 = c as u32;
    if n < 0x80 {
        1
    } else if n < 0x800 {
        2
    } else if n < 0x10000 {
        3
    } else {
        4
    }
}

/// Checks a background colour and puts it into normal form, with one `#` in
/// front. `"FFFFFF"`, `"#FFF"` and `"abc123"` are accepted; `"#GGGGGG"` and
/// `"12345"` are not.
pub fn validate_color(color: &str) -> (r: Result<String, Error>)
    ensures
        match r {
            Ok(c) => normalized_color(color@) == Ok::<Seq<char>, ColorFault>(c@),
            Err(e) => e matches Error::InvalidColor(f) && normalized_color(color@) == Err::<
                Seq<char>,
                ColorFault,
            >(f),
        },
{
    let chars = to_chars(color);
    match normalize_color_chars(&chars) {
        Ok(v) => {
            let mut s = String::new();
            push_chars(&mut s, &v);
            Ok(s)
        },
        Err(f) => Err(Error::InvalidColor(f)),
    }
}

/// [`validate_color`] on characters.
pub fn normalize_color_chars(s: &[char]) -> (r: Result<Vec<char>, ColorFault>)
    ensures
        match r {
            Ok(c) => normalized_color(s@) == Ok::<Seq<char>, ColorFault>(c@),
            Err(f) => normalized_color(s@) == Err::<Seq<char>, ColorFault>(f),
        },
{
    let mut start: usize = 0;
    while start < s.len() && s[start] == '#'
        invariant
            start <= s.len(),
            forall|k: int| 0 <= k < start ==> #[trigger] s@[k] == '#',
        decreases s.len() - start,
    {
        start += 1;
    }
    proof {
        lemma_run_len_is(s@, |c: char| c == '#', start as nat);
    }
    let ghost body = s@.skip(start as int);
    let n = s.len() - start;
    proof {
        lemma_utf8_size_bounds(body);
    }
    if n > 6 {
        return Err(ColorFault::Length);
    }
    let mut size: usize = 0;
    let mut hex = true;
    let mut out: Vec<char> = Vec::new();
    out.push('#');
    let mut i: usize = 0;
    while i < n
        invariant
            i <= n <= 6,
            n == s.len() - start,
            body == s@.skip(start as int),
            size == utf8_size(body.take(i as int)),
            size <= 4 * i,
            hex == all_hex(body.take(i as int)),
            out@ == seq!['#'] + body.take(i as int),
        decreases n - i,
    {
        let c = s[start + i];
        proof {
            let t = body.take(i + 1);
            assert(t.drop_last() =~= body.take(i as int));
            assert(t.last() == c);
        }
        size = size + utf8_len_of(c);
        if !is_hex_digit_char(c) {
            hex = false;
        }
        out.push(c);
        i += 1;
    }
    proof {
        assert(body.take(n as int) =~= body);
    }
    if size != 6 && size != 3 {
        Err(ColorFault::Length)
    } else if !hex {
        Err(ColorFault::Digit)
    } else {
        Ok(out)
    }
}

} // verus!
