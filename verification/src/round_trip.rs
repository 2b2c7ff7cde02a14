//! Writing a descriptor and reading the text back gives the descriptor.

use vstd::prelude::*;
use crate::color::{is_normalized_color, lemma_normalized_color};
use crate::descriptor::{
    descriptor_lines, directive_lines, directive_of, directive_words, directives_of,
    header_index, header_of, header_words, is_skipped, parse_desc_spec, parse_header_spec,
    part_name, serialize_spec, synthesized, DescriptorModel, Directive, Header, LoopMode,
};
use crate::error::Error;
use crate::split::{
    all_words, is_word, lemma_lines_of_joined, lemma_tokens_are_words, lemma_tokens_of_joined,
    lines, tokens,
};
use crate::text::{
    decimal_digits, is_digit, is_space, lemma_decimal_digits, lemma_parse_decimal_digits,
};

verus! {

/// A directive that a descriptor text can hold: the name of its part is a
/// word, its first number is zero exactly where the part is repeated without
/// end, and its background, if it has one, is in normal form.
pub open spec fn directive_valid(d: Directive) -> bool {
    &&& is_word(d.part_name)
    &&& (d.loop_kind == LoopMode::LoopInfinite ==> d.pause_or_count == 0)
    &&& (d.loop_kind == LoopMode::PlayFull ==> d.pause_or_count != 0)
    &&& (d.background matches Some(c) ==> is_normalized_color(c))
}

/// A descriptor whose directives are all valid.
pub open spec fn descriptor_valid(d: DescriptorModel) -> bool {
    forall|i: int| 0 <= i < d.directives.len() ==> directive_valid(#[trigger] d.directives[i])
}

/// A number in decimal digits is a word that starts with a digit.
proof fn lemma_decimal_is_word(n: nat)
    ensures
        is_word(decimal_digits(n)),
        is_digit(decimal_digits(n)[0]),
{
    lemma_decimal_digits(n);
    let s = decimal_digits(n);
    assert forall|i: int| 0 <= i < s.len() implies !is_space(#[trigger] s[i]) by {}
}

/// The tokens of a header line are words, and read back as the header.
proof fn lemma_header_words(h: Header)
    ensures
        all_words(header_words(h)),
        header_words(h).len() >= 3,
        header_words(h)[0][0] != '#',
        header_of(header_words(h)) == Some(h),
{
    match h {
        Header::Standard { width, height, fps } => {
            lemma_decimal_is_word(width as nat);
            lemma_decimal_is_word(height as nat);
            lemma_decimal_is_word(fps as nat);
            lemma_parse_decimal_digits(width);
            lemma_parse_decimal_digits(height);
            lemma_parse_decimal_digits(fps);
        },
        Header::Global { width, height, offset_x, offset_y, fps } => {
            lemma_decimal_is_word(width as nat);
            lemma_decimal_is_word(height as nat);
            lemma_decimal_is_word(offset_x as nat);
            lemma_decimal_is_word(offset_y as nat);
            lemma_decimal_is_word(fps as nat);
            lemma_parse_decimal_digits(width);
            lemma_parse_decimal_digits(height);
            lemma_parse_decimal_digits(offset_x);
            lemma_parse_decimal_digits(offset_y);
            lemma_parse_decimal_digits(fps);
        },
    }
}

/// The tokens of the line of a valid directive are words, and read back as
/// the directive.
proof fn lemma_directive_words(d: Directive)
    requires
        directive_valid(d),
    ensures
        all_words(directive_words(d)),
        directive_words(d).len() >= 4,
        directive_words(d)[0][0] != '#',
        directive_of(directive_words(d)) == Ok::<Directive, Error>(d),
{
    lemma_decimal_is_word(d.pause_or_count as nat);
    lemma_decimal_is_word(d.clock_flag as nat);
    lemma_parse_decimal_digits(d.pause_or_count);
    lemma_parse_decimal_digits(d.clock_flag);
    match d.background {
        Some(c) => {
            lemma_normalized_color(c);
        },
        None => {},
    }
}

/// The lines of valid directives, and an empty line after them, read back as
/// the directives.
proof fn lemma_directive_lines(ds: Seq<Directive>)
    requires
        forall|i: int| 0 <= i < ds.len() ==> directive_valid(#[trigger] ds[i]),
    ensures
        directives_of(directive_lines(ds).push(Seq::empty())) == Ok::<Seq<Directive>, Error>(ds),
        forall|i: int, j: int|
            0 <= i < ds.len() && 0 <= j < directive_lines(ds)[i].len()
                ==> #[trigger] directive_lines(ds)[i][j] != '\n',
    decreases ds.len(),
{
    let ls = directive_lines(ds).push(Seq::empty());
    if ds.len() == 0 {
        assert(directives_of(ls.drop_first()) == Ok::<Seq<Directive>, Error>(Seq::empty()));
        assert(ds =~= Seq::<Directive>::empty());
    } else {
        let d = ds[0];
        let rest = ds.drop_first();
        lemma_directive_lines(rest);
        lemma_directive_words(d);
        lemma_tokens_of_joined(directive_words(d));
        assert(ls.drop_first() =~= directive_lines(rest).push(Seq::empty()));
        assert(seq![d] + rest =~= ds);
        assert forall|i: int, j: int|
            0 <= i < ds.len() && 0 <= j < directive_lines(ds)[i].len() implies #[trigger] directive_lines(
            ds,
        )[i][j] != '\n' by {
            if i > 0 {
                assert(directive_lines(ds)[i] == directive_lines(rest)[i - 1]);
            }
        }
    }
}

/// Reading the text of a valid descriptor gives the descriptor back, and
/// reading only its header gives the header back: whatever the dialect of the
/// header, its numbers and the directives are.
pub proof fn lemma_parse_serialize(d: DescriptorModel)
    requires
        descriptor_valid(d),
    ensures
        parse_desc_spec(serialize_spec(d)) == Ok::<DescriptorModel, Error>(d),
        parse_header_spec(serialize_spec(d)) == Ok::<Header, Error>(d.header),
{
    let dl = directive_lines(d.directives);
    let all = descriptor_lines(d);
    lemma_header_words(d.header);
    lemma_tokens_of_joined(header_words(d.header));
    lemma_directive_lines(d.directives);
    assert forall|i: int, j: int| 0 <= i < all.len() && 0 <= j < all[i].len() implies #[trigger] all[i][j]
        != '\n' by {}
    lemma_lines_of_joined(all);
    let ls = lines(serialize_spec(d));
    assert(ls.skip(1) =~= dl.push(Seq::empty()));
}

/// The descriptor that is made for an animation is valid where its
/// background, if it has one, is in normal form; so its text reads back as
/// itself.
pub proof fn lemma_synthesized_valid(
    header: Header,
    num_parts: nat,
    kind: LoopMode,
    background: Option<Seq<char>>,
)
    requires
        background matches Some(c) ==> is_normalized_color(c),
    ensures
        descriptor_valid(synthesized(header, num_parts, kind, background)),
{
    let d = synthesized(header, num_parts, kind, background);
    assert forall|i: int| 0 <= i < d.directives.len() implies directive_valid(
        #[trigger] d.directives[i],
    ) by {
        lemma_decimal_is_word(i as nat);
    }
}

/// A directive that was read from a line is valid.
proof fn lemma_read_directive_valid(line: Seq<char>)
    ensures
        directive_of(tokens(line)) matches Ok(d) ==> directive_valid(d),
{
    let t = tokens(line);
    lemma_tokens_are_words(line);
    if let Ok(d) = directive_of(t) {
        if t.len() >= 5 {
            lemma_normalized_color(t[4]);
        }
    }
}

/// The directives that were read from lines are valid.
proof fn lemma_read_directives_valid(ls: Seq<Seq<char>>)
    ensures
        directives_of(ls) matches Ok(ds) ==> forall|i: int|
            0 <= i < ds.len() ==> directive_valid(#[trigger] ds[i]),
    decreases ls.len(),
{
    if ls.len() > 0 {
        lemma_read_directives_valid(ls.drop_first());
        if !is_skipped(ls[0]) {
            lemma_read_directive_valid(ls[0]);
        }
    }
}

/// Whatever descriptor a text reads as is valid: written and read again, it
/// is the same descriptor.
pub proof fn lemma_parsed_is_valid(text: Seq<char>)
    ensures
        parse_desc_spec(text) matches Ok(d) ==> descriptor_valid(d) && parse_desc_spec(
            serialize_spec(d),
        ) == Ok::<DescriptorModel, Error>(d),
{
    if let Ok(d) = parse_desc_spec(text) {
        let ls = lines(text);
        lemma_read_directives_valid(ls.skip(header_index(ls) as int + 1));
        lemma_parse_serialize(d);
    }
}

} // verus!
