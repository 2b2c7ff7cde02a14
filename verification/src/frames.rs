//! Frames: what a file name says about a frame, and the one numbering into
//! which the frames of all parts are brought.
//!
//! File names are the last components of paths: they hold no separator.

use vstd::prelude::*;
use vstd::string::*;
use crate::error::Error;
use crate::order::{
    has_position, lemma_lex_le_digits, lemma_lex_le_suffix, lemma_ordered_lists_equal, lex_le,
    precedes, stable_order,
};
use crate::split::{back_run_len, lemma_back_run_len_is};
use crate::text::{
    ascii_lower, decimal_digits, digits_to_u32, is_digit, is_digit_char, lemma_zero_padded,
    lowered, parse_digits, push_zero_padded, to_ascii_lower, to_chars, zero_padded,
};

verus! {

/// The format of the frames of an animation.
#[derive(Clone, Copy, Debug, PartialEq, Eq, Structural)]
pub enum ImageFormat {
    Jpg,
    Png,
}

/// The extension of the files of a format, in small letters.
pub open spec fn format_extension(format: ImageFormat) -> Seq<char> {
    match format {
        ImageFormat::Jpg => seq!['j', 'p', 'g'],
        ImageFormat::Png => seq!['p', 'n', 'g'],
    }
}

impl ImageFormat {
    /// The extension of the files of this format: `jpg` or `png`.
    pub fn extension(&self) -> (r: &'static str)
        ensures
            r@ == format_extension(*self),
    {
        match self {
            ImageFormat::Jpg => {
                proof {
                    reveal_strlit("jpg");
                }
                "jpg"
            },
            ImageFormat::Png => {
                proof {
                    reveal_strlit("png");
                }
                "png"
            },
        }
    }
}

// ---------------------------------------------------------------------------
// Stem and extension
// ---------------------------------------------------------------------------

/// The position of the last `.` of `s`, or -1 where it has none.
pub open spec fn last_dot(s: Seq<char>) -> int
    decreases s.len(),
{
    if s.len() == 0 {
        -1
    } else if s.last() == '.' {
        s.len() - 1
    } else {
        last_dot(s.drop_last())
    }
}

/// A position that holds a `.` with none after it is [`last_dot`]; so is -1
/// where there is no `.` at all.
pub proof fn lemma_last_dot_is(s: Seq<char>, d: int)
    requires
        -1 <= d < s.len(),
        d >= 0 ==> s[d] == '.',
        forall|i: int| d < i < s.len() ==> #[trigger] s[i] != '.',
    ensures
        last_dot(s) == d,
    decreases s.len(),
{
    if s.len() > 0 && d < s.len() - 1 {
        let t = s.drop_last();
        lemma_last_dot_is(t, d);
    }
}

/// A file name splits into a stem and an extension at its last `.`, unless
/// that `.` is its first character, or the name is `..`.
pub open spec fn splits_at_dot(name: Seq<char>) -> bool {
    name != seq!['.', '.'] && last_dot(name) > 0
}

/// The stem of a file name: what stands before its last `.`, or the whole
/// name where it does not split.
pub open spec fn file_stem(name: Seq<char>) -> Seq<char> {
    if splits_at_dot(name) {
        name.take(last_dot(name))
    } else {
        name
    }
}

/// The extension of a file name: what stands behind its last `.`, where it
/// splits.
pub open spec fn file_extension(name: Seq<char>) -> Option<Seq<char>> {
    if splits_at_dot(name) {
        Some(name.skip(last_dot(name) + 1))
    } else {
        None
    }
}

/// A file name has the extension `ext`, whatever the case of its ASCII
/// letters: `ext` itself is in small letters.
pub open spec fn has_extension(name: Seq<char>, ext: Seq<char>) -> bool {
    file_extension(name) matches Some(e) && lowered(e) == ext
}

/// The position of the `.` at which a file name splits, if it splits.
fn split_point(name: &[char]) -> (r: Option<usize>)
    ensures
        match r {
            Some(d) => splits_at_dot(name@) && last_dot(name@) == d && 0 < d < name.len(),
            None => !splits_at_dot(name@),
        },
{
    let mut i: usize = name.len();
    while i > 0 && name[i - 1] != '.'
        invariant
            i <= name.len(),
            forall|k: int| i <= k < name.len() ==> #[trigger] name@[k] != '.',
        decreases i,
    {
        i -= 1;
    }
    proof {
        lemma_last_dot_is(name@, i - 1);
    }
    if i <= 1 {
        return None;
    }
    if name.len() == 2 && name[0] == '.' {
        assert(name@ =~= seq!['.', '.']);
        return None;
    }
    Some(i - 1)
}

/// Tells whether a file name has the extension `ext`.
fn name_has_extension(name: &[char], ext: &[char]) -> (r: bool)
    ensures
        r == has_extension(name@, ext@),
{
    match split_point(name) {
        None => false,
        Some(d) => {
            let ghost e = name@.skip(d + 1);
            if name.len() - (d + 1) != ext.len() {
                return false;
            }
            let mut i: usize = 0;
            while i < ext.len()
                invariant
                    i <= ext.len(),
                    d + 1 + ext.len() == name.len(),
                    e == name@.skip(d + 1),
                    file_extension(name@) == Some(e),
                    forall|k: int| 0 <= k < i ==> ascii_lower(#[trigger] e[k]) == ext@[k],
                decreases ext.len() - i,
            {
                if to_ascii_lower(name[d + 1 + i]) != ext[i] {
                    return false;
                }
                i += 1;
            }
            assert(lowered(e) =~= ext@);
            true
        },
    }
}

// ---------------------------------------------------------------------------
// Ordinals
// ---------------------------------------------------------------------------

/// The last run of decimal digits in `s`; empty where `s` holds no digit.
pub open spec fn last_digit_run(s: Seq<char>) -> Seq<char> {
    let tail = back_run_len(s, |c: char| !is_digit(c));
    let head = s.take(s.len() - tail);
    let run = back_run_len(head, |c: char| is_digit(c));
    head.skip(head.len() - run)
}

/// The ordinal of a frame: the number that the last run of digits in the stem
/// of its file name writes. It is 0 where the stem holds no digit, and where
/// the number is above `u32::MAX`.
pub open spec fn ordinal_of(name: Seq<char>) -> u32 {
    match digits_to_u32(last_digit_run(file_stem(name))) {
        Some(n) => n,
        None => 0,
    }
}

/// The ordinal of the frame with the given file name: `frame007.png` has 7,
/// `img012_2.png` has 2, `noNumbers.png` has 0.
pub fn extract_last_number(filename: &str) -> (n: u32)
    ensures
        n == ordinal_of(filename@),
{
    let name = to_chars(filename);
    ordinal_of_chars(&name)
}

/// [`extract_last_number`] on characters.
pub fn ordinal_of_chars(name: &[char]) -> (n: u32)
    ensures
        n == ordinal_of(name@),
{
    let stem_len = match split_point(name) {
        Some(d) => d,
        None => name.len(),
    };
    let ghost stem = file_stem(name@);
    let mut end: usize = stem_len;
    while end > 0 && !is_digit_char(name[end - 1])
        invariant
            end <= stem_len <= name.len(),
            forall|k: int| end <= k < stem_len ==> !is_digit(#[trigger] name@[k]),
        decreases end,
    {
        end -= 1;
    }
    let mut start: usize = end;
    while start > 0 && is_digit_char(name[start - 1])
        invariant
            start <= end <= name.len(),
            forall|k: int| start <= k < end ==> is_digit(#[trigger] name@[k]),
        decreases start,
    {
        start -= 1;
    }
    proof {
        let head = stem.take(end as int);
        lemma_back_run_len_is(stem, |c: char| !is_digit(c), (stem_len - end) as nat);
        lemma_back_run_len_is(head, |c: char| is_digit(c), (end - start) as nat);
        assert(last_digit_run(stem) =~= name@.subrange(start as int, end as int));
    }
    match parse_digits(name, start, end) {
        Some(n) => n,
        None => 0,
    }
}

// ---------------------------------------------------------------------------
// The format of a part
// ---------------------------------------------------------------------------

/// Some name among `names` has the extension `ext`.
pub open spec fn any_with_extension(names: Seq<Seq<char>>, ext: Seq<char>) -> bool {
    exists|i: int| 0 <= i < names.len() && has_extension(#[trigger] names[i], ext)
}

/// The format of the frames among the files of a part: PNG where any file is
/// one, else JPG where any file has the extension `jpg` or `jpeg`.
pub open spec fn detected_format(names: Seq<Seq<char>>) -> Result<ImageFormat, Error> {
    if any_with_extension(names, seq!['p', 'n', 'g']) {
        Ok(ImageFormat::Png)
    } else if any_with_extension(names, seq!['j', 'p', 'g']) || any_with_extension(
        names,
        seq!['j', 'p', 'e', 'g'],
    ) {
        Ok(ImageFormat::Jpg)
    } else {
        Err(Error::NoFramesFound)
    }
}

/// The characters of the extension of a format.
fn extension_chars(format: ImageFormat) -> (v: Vec<char>)
    ensures
        v@ == format_extension(format),
{
    let mut v: Vec<char> = Vec::new();
    match format {
        ImageFormat::Jpg => {
            v.push('j');
            v.push('p');
            v.push('g');
        },
        ImageFormat::Png => {
            v.push('p');
            v.push('n');
            v.push('g');
        },
    }
    v
}

/// Finds the format of the frames of a part from the names of its files.
///
/// The answer is taken from one part, the first, and holds for all of them:
/// an animation whose parts differ in format is not provided for.
pub fn detect_frame_extension(names: &Vec<String>) -> (r: Result<ImageFormat, Error>)
    ensures
        r == detected_format(names.deep_view()),
{
    let png = extension_chars(ImageFormat::Png);
    let jpg = extension_chars(ImageFormat::Jpg);
    let mut jpeg: Vec<char> = Vec::new();
    jpeg.push('j');
    jpeg.push('p');
    jpeg.push('e');
    jpeg.push('g');
    let ghost all = names.deep_view();
    let mut any_png = false;
    let mut any_jpg = false;
    let mut k: usize = 0;
    while k < names.len()
        invariant
            k <= names.len(),
            all == names.deep_view(),
            png@ == seq!['p', 'n', 'g'],
            jpg@ == seq!['j', 'p', 'g'],
            jpeg@ == seq!['j', 'p', 'e', 'g'],
            any_png == any_with_extension(all.take(k as int), png@),
            any_jpg == (any_with_extension(all.take(k as int), jpg@) || any_with_extension(
                all.take(k as int),
                jpeg@,
            )),
        decreases names.len() - k,
    {
        let name = to_chars(names[k].as_str());
        let is_png = name_has_extension(&name, &png);
        let is_jpg = name_has_extension(&name, &jpg) || name_has_extension(&name, &jpeg);
        proof {
            lemma_any_with_extension_step(all, k as int, png@);
            lemma_any_with_extension_step(all, k as int, jpg@);
            lemma_any_with_extension_step(all, k as int, jpeg@);
        }
        any_png = any_png || is_png;
        any_jpg = any_jpg || is_jpg;
        k += 1;
    }
    proof {
        assert(all.take(k as int) =~= all);
    }
    if any_png {
        Ok(ImageFormat::Png)
    } else if any_jpg {
        Ok(ImageFormat::Jpg)
    } else {
        Err(Error::NoFramesFound)
    }
}

/// Among one name more, some name has the extension if one had it before or
/// the new one has it.
proof fn lemma_any_with_extension_step(names: Seq<Seq<char>>, k: int, ext: Seq<char>)
    requires
        0 <= k < names.len(),
    ensures
        any_with_extension(names.take(k + 1), ext) == (any_with_extension(names.take(k), ext)
            || has_extension(names[k], ext)),
{
    let b = names.take(k + 1);
    if has_extension(names[k], ext) {
        assert(b[k] == names[k]);
    }
}

// ---------------------------------------------------------------------------
// The order of the frames of a part
// ---------------------------------------------------------------------------

/// Among the frames of a part, the one at position `a` of the listing comes
/// before the one at position `b`: it has the smaller ordinal, or the same
/// one and the earlier place in the listing.
pub open spec fn frame_precedes(names: Seq<Seq<char>>, a: int, b: int) -> bool {
    if a < b {
        ordinal_of(names[a]) <= ordinal_of(names[b])
    } else {
        a != b && ordinal_of(names[a]) < ordinal_of(names[b])
    }
}

/// `order` lists the positions of the names with the extension `ext`, each
/// once, each before all those that it precedes.
pub open spec fn is_frame_order(names: Seq<Seq<char>>, ext: Seq<char>, order: Seq<usize>) -> bool {
    &&& forall|i: int|
        0 <= i < order.len() ==> (#[trigger] order[i]) < names.len() && has_extension(
            names[order[i] as int],
            ext,
        )
    &&& forall|i: int, j: int|
        0 <= i < j < order.len() ==> frame_precedes(
            names,
            #[trigger] order[i] as int,
            #[trigger] order[j] as int,
        )
    &&& forall|k: int|
        0 <= k < names.len() && has_extension(#[trigger] names[k], ext) ==> has_position(order, k)
}

/// The frames of a part in the order of their ordinals: the positions, in the
/// listing `names`, of the files with the extension, sorted by ordinal, and by
/// position where ordinals are equal.
pub fn frame_order(names: &Vec<String>, extension: &str) -> (order: Vec<usize>)
    ensures
        is_frame_order(names.deep_view(), extension@, order@),
        order.len() <= names.len(),
{
    let ext = to_chars(extension);
    let ghost all = names.deep_view();
    let mut sel: Vec<usize> = Vec::new();
    let mut keys: Vec<u32> = Vec::new();
    let mut k: usize = 0;
    while k < names.len()
        invariant
            k <= names.len(),
            all == names.deep_view(),
            ext@ == extension@,
            sel.len() == keys.len(),
            sel.len() <= k,
            forall|i: int|
                0 <= i < sel.len() ==> (#[trigger] sel[i]) < k && has_extension(
                    all[sel[i] as int],
                    ext@,
                ) && keys[i] == ordinal_of(all[sel[i] as int]),
            forall|i: int, j: int| 0 <= i < j < sel.len() ==> (#[trigger] sel[i]) < (#[trigger] sel[j]),
            forall|m: int| 0 <= m < k && has_extension(#[trigger] all[m], ext@) ==> has_position(sel@, m),
        decreases names.len() - k,
    {
        let name = to_chars(names[k].as_str());
        if name_has_extension(&name, &ext) {
            let key = ordinal_of_chars(&name);
            let ghost before = sel@;
            sel.push(k);
            keys.push(key);
            proof {
                assert forall|m: int| 0 <= m < k + 1 && has_extension(#[trigger] all[m], ext@) implies has_position(
                    sel@,
                    m,
                ) by {
                    if m == k {
                        assert(sel@[before.len() as int] == m);
                    } else {
                        let i = choose|i: int| 0 <= i < before.len() && #[trigger] before[i] == m;
                        assert(sel@[i] == m);
                    }
                }
            }
        }
        k += 1;
    }
    let perm = stable_order(&keys);
    let mut order: Vec<usize> = Vec::new();
    let mut i: usize = 0;
    while i < perm.len()
        invariant
            i <= perm.len(),
            perm.len() == sel.len(),
            forall|j: int| 0 <= j < perm.len() ==> (#[trigger] perm[j]) < sel.len(),
            order.len() == i,
            forall|j: int| 0 <= j < i ==> #[trigger] order[j] == sel[perm[j] as int],
        decreases perm.len() - i,
    {
        order.push(sel[perm[i]]);
        i += 1;
    }
    proof {
        assert forall|m: int| 0 <= m < all.len() && has_extension(#[trigger] all[m], ext@) implies has_position(
            order@,
            m,
        ) by {
            let s = choose|s: int| 0 <= s < sel.len() && #[trigger] sel[s] == m;
            assert(has_position(perm@, s));
            let p = choose|p: int| 0 <= p < perm.len() && #[trigger] perm[p] == s;
            assert(order@[p] == m);
        }
        assert forall|j: int| 0 <= j < order.len() implies (#[trigger] order[j]) < all.len()
            && has_extension(all[order[j] as int], ext@) by {}
    }
    order
}

/// There is one order of the frames only: [`is_frame_order`] says of its
/// list all there is to say.
pub proof fn lemma_frame_order_unique(names: Seq<Seq<char>>, ext: Seq<char>, a: Seq<usize>, b: Seq<usize>)
    requires
        is_frame_order(names, ext, a),
        is_frame_order(names, ext, b),
    ensures
        a == b,
{
    lemma_ordered_lists_equal(a, b, |x: int, y: int| frame_precedes(names, x, y));
}

// ---------------------------------------------------------------------------
// One numbering for all frames
// ---------------------------------------------------------------------------

/// The number of digits in the file names of the frames of a run; a number
/// that needs more has more.
pub const RUN_DIGITS: u8 = 5;

/// The number of digits in the file names of the frames that are cut from a
/// video.
pub const CUT_DIGITS: u8 = 6;

/// A file name made of a number with zeros in front, a `.`, and an
/// extension.
pub open spec fn padded_name(number: nat, width: nat, ext: Seq<char>) -> Seq<char> {
    zero_padded(number, width) + seq!['.'] + ext
}

/// The file name of the frame with the given number: the number in five
/// digits or more, a `.`, and the extension.
pub open spec fn frame_name(number: nat, ext: Seq<char>) -> Seq<char> {
    padded_name(number, RUN_DIGITS as nat, ext)
}

/// The file name of the frame with the given number among the frames that
/// are cut from a video: the number in six digits or more, a `.`, and the
/// extension.
pub open spec fn cut_name(number: nat, ext: Seq<char>) -> Seq<char> {
    padded_name(number, CUT_DIGITS as nat, ext)
}

/// The file name of the frame with the given number.
pub fn frame_file_name(number: u32, extension: &str) -> (name: String)
    ensures
        name@ == frame_name(number as nat, extension@),
{
    let mut name = String::new();
    push_zero_padded(&mut name, number as u64, RUN_DIGITS as usize);
    name.push('.');
    name.append(extension);
    name
}

/// One frame that is copied into the common numbering.
#[derive(Clone, Debug, PartialEq, Eq)]
pub struct FrameCopy {
    /// The position of the file in the listing of its part.
    pub index: usize,
    /// The name of the file in its part.
    pub source: String,
    /// The name of the file in the common numbering.
    pub target: String,
}

/// The positions, in the listing of their part, of the frames that are
/// copied.
pub open spec fn copy_indices(copies: Seq<FrameCopy>) -> Seq<usize> {
    Seq::new(copies.len(), |i: int| copies[i].index)
}

/// Numbers the frames of one part: the files with the extension, in the
/// order of their ordinals, get the numbers from `start_counter` on, one
/// after the other. Returned with the copies is the number that the first
/// frame of the next part gets.
pub fn copy_frames_sequential(names: &Vec<String>, extension: &str, start_counter: u32) -> (r: (
    Vec<FrameCopy>,
    u32,
))
    requires
        start_counter + names.len() <= u32::MAX,
    ensures
        is_frame_order(names.deep_view(), extension@, copy_indices(r.0@)),
        forall|i: int|
            0 <= i < r.0.len() ==> (#[trigger] r.0[i]).source@ == names[r.0[i].index as int]@
                && r.0[i].target@ == frame_name((start_counter + i) as nat, extension@),
        r.1 == start_counter + r.0.len(),
        r.0.len() <= names.len(),
{
    let order = frame_order(names, extension);
    let mut copies: Vec<FrameCopy> = Vec::new();
    let mut counter: u32 = start_counter;
    let mut i: usize = 0;
    while i < order.len()
        invariant
            i <= order.len(),
            order.len() <= names.len(),
            start_counter + names.len() <= u32::MAX,
            is_frame_order(names.deep_view(), extension@, order@),
            copies.len() == i,
            counter == start_counter + i,
            forall|j: int|
                0 <= j < i ==> (#[trigger] copies[j]).index == order[j] && copies[j].source@
                    == names[order[j] as int]@ && copies[j].target@ == frame_name(
                    (start_counter + j) as nat,
                    extension@,
                ),
        decreases order.len() - i,
    {
        let index = order[i];
        let copy = FrameCopy {
            index,
            source: names[index].clone(),
            target: frame_file_name(counter, extension),
        };
        copies.push(copy);
        counter += 1;
        i += 1;
    }
    proof {
        assert(copy_indices(copies@) =~= order@);
    }
    (copies, counter)
}

/// A file that is named by a number carries that number: the ordinal of its
/// name is the number, and its extension is that of the format. So frames
/// that were numbered once keep their order when they are numbered again.
pub proof fn lemma_padded_name_ordinal(number: u32, width: nat, format: ImageFormat)
    ensures
        ordinal_of(padded_name(number as nat, width, format_extension(format))) == number,
        has_extension(
            padded_name(number as nat, width, format_extension(format)),
            format_extension(format),
        ),
{
    let ext = format_extension(format);
    let z = zero_padded(number as nat, width);
    let name = padded_name(number as nat, width, ext);
    lemma_zero_padded(number as nat, width);
    lemma_last_dot_is(name, z.len() as int);
    assert(file_stem(name) =~= z);
    assert(z.take(z.len() as int) =~= z);
    lemma_back_run_len_is(z, |c: char| is_digit(c), z.len());
    let e = name.skip(z.len() as int + 1);
    assert(lowered(e) =~= ext);
}

/// The frames that are cut from a video are named so that the order of their
/// names is the order of their numbers, and of their ordinals, as long as six
/// digits are enough for the numbers: cutting into parts by name keeps the
/// frames in the order in which they are put together again.
pub proof fn lemma_cut_names_in_order(a: u32, b: u32, format: ImageFormat)
    requires
        a < 1_000_000,
        b < 1_000_000,
    ensures
        lex_le(cut_name(a as nat, format_extension(format)), cut_name(b as nat, format_extension(format)))
            <==> a <= b,
        ordinal_of(cut_name(a as nat, format_extension(format))) == a,
        ordinal_of(cut_name(b as nat, format_extension(format))) == b,
{
    let ext = format_extension(format);
    let x = zero_padded(a as nat, CUT_DIGITS as nat);
    let y = zero_padded(b as nat, CUT_DIGITS as nat);
    assert(decimal_digits(a as nat).len() <= 6 && decimal_digits(b as nat).len() <= 6) by {
        reveal_with_fuel(decimal_digits, 7);
    }
    lemma_zero_padded(a as nat, CUT_DIGITS as nat);
    lemma_zero_padded(b as nat, CUT_DIGITS as nat);
    lemma_lex_le_digits(x, y);
    let t = seq!['.'] + ext;
    lemma_lex_le_suffix(x, y, t);
    assert(cut_name(a as nat, ext) =~= x + t);
    assert(cut_name(b as nat, ext) =~= y + t);
    lemma_padded_name_ordinal(a, CUT_DIGITS as nat, format);
    lemma_padded_name_ordinal(b, CUT_DIGITS as nat, format);
}

} // verus!
