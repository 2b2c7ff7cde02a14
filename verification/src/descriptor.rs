//! The descriptor of a boot animation: a header line, in one of two
//! dialects, and one directive line for each part.
//!
//! ```text
//! W H FPS                      the standard header
//! g W H OFFX OFFY FPS          the global header
//! p 1 0 part0                  a directive
//! c 0 0 part1 #RRGGBB          a directive with a background
//! ```
//!
//! Blank lines and lines whose first character, after any white space, is
//! `#` are passed over.

use vstd::prelude::*;
use crate::color::{normalize_color_chars, normalized_color};
use crate::error::Error;
use crate::split::{
    is_word, join_lines, join_words, lemma_join_lines_push, lemma_join_words_push, lemma_run_len_is,
    lemma_tokens_are_words, lines, run_len, split_lines, split_tokens, texts, tokens,
};
use crate::text::{
    decimal_digits, from_chars, parse_u32, parse_u32_spec, push_chars, push_decimal, to_chars,
};

verus! {

/// How a part is played.
#[derive(Clone, Copy, Debug, PartialEq, Eq, Structural)]
pub enum LoopMode {
    /// Played until the boot has finished, then cut off: `p`.
    StopOnBoot,
    /// Played to its end whatever the boot does: `c` with a count.
    PlayFull,
    /// Repeated until the boot has finished: `c 0`.
    LoopInfinite,
}

/// The header line of a descriptor.
#[derive(Clone, Copy, Debug, PartialEq, Eq, Structural)]
pub enum Header {
    /// `W H FPS`
    Standard { width: u32, height: u32, fps: u32 },
    /// `g W H OFFX OFFY FPS`
    Global { width: u32, height: u32, offset_x: u32, offset_y: u32, fps: u32 },
}

impl Header {
    /// The width that the header gives.
    pub open spec fn spec_width(self) -> u32 {
        match self {
            Header::Standard { width, .. } => width,
            Header::Global { width, .. } => width,
        }
    }

    /// The height that the header gives.
    pub open spec fn spec_height(self) -> u32 {
        match self {
            Header::Standard { height, .. } => height,
            Header::Global { height, .. } => height,
        }
    }

    /// The frame rate that the header gives.
    pub open spec fn spec_fps(self) -> u32 {
        match self {
            Header::Standard { fps, .. } => fps,
            Header::Global { fps, .. } => fps,
        }
    }

    /// The width of the animation, in pixels.
    #[verifier::when_used_as_spec(spec_width)]
    pub fn width(self) -> (r: u32)
        ensures
            r == self.spec_width(),
    {
        match self {
            Header::Standard { width, .. } => width,
            Header::Global { width, .. } => width,
        }
    }

    /// The height of the animation, in pixels.
    #[verifier::when_used_as_spec(spec_height)]
    pub fn height(self) -> (r: u32)
        ensures
            r == self.spec_height(),
    {
        match self {
            Header::Standard { height, .. } => height,
            Header::Global { height, .. } => height,
        }
    }

    /// The number of frames shown in a second.
    #[verifier::when_used_as_spec(spec_fps)]
    pub fn fps(self) -> (r: u32)
        ensures
            r == self.spec_fps(),
    {
        match self {
            Header::Standard { fps, .. } => fps,
            Header::Global { fps, .. } => fps,
        }
    }
}

/// The directive line of one part.
#[derive(Clone, Debug, PartialEq, Eq)]
pub struct PartDirective {
    pub loop_kind: LoopMode,
    /// The first number of the line.
    pub pause_or_count: u32,
    /// The second number of the line.
    pub clock_flag: u32,
    /// The directory of the part.
    pub part_name: String,
    /// The background, in normal form.
    pub background: Option<String>,
}

/// What a [`PartDirective`] holds, as mathematical values.
pub struct Directive {
    pub loop_kind: LoopMode,
    pub pause_or_count: u32,
    pub clock_flag: u32,
    pub part_name: Seq<char>,
    pub background: Option<Seq<char>>,
}

impl View for PartDirective {
    type V = Directive;

    open spec fn view(&self) -> Directive {
        Directive {
            loop_kind: self.loop_kind,
            pause_or_count: self.pause_or_count,
            clock_flag: self.clock_flag,
            part_name: self.part_name@,
            background: match self.background {
                Some(c) => Some(c@),
                None => None,
            },
        }
    }
}

/// A descriptor: the header and the directives in the order of their lines.
#[derive(Clone, Debug, PartialEq, Eq)]
pub struct Descriptor {
    pub header: Header,
    pub directives: Vec<PartDirective>,
}

/// What a [`Descriptor`] holds, as mathematical values.
pub struct DescriptorModel {
    pub header: Header,
    pub directives: Seq<Directive>,
}

/// The directives that `v` holds.
pub open spec fn directive_views(v: Seq<PartDirective>) -> Seq<Directive> {
    Seq::new(v.len(), |i: int| v[i]@)
}

impl View for Descriptor {
    type V = DescriptorModel;

    open spec fn view(&self) -> DescriptorModel {
        DescriptorModel { header: self.header, directives: directive_views(self.directives@) }
    }
}

// ---------------------------------------------------------------------------
// Reading
// ---------------------------------------------------------------------------

/// A line that is passed over: a blank one, or a comment.
pub open spec fn is_skipped(line: Seq<char>) -> bool {
    let t = tokens(line);
    t.len() == 0 || t[0][0] == '#'
}

/// A line that can be the header: no comment, and three tokens or more.
pub open spec fn is_header_line(line: Seq<char>) -> bool {
    let t = tokens(line);
    t.len() >= 3 && t[0][0] != '#'
}

/// The number of lines before the header line; the number of all lines where
/// there is none.
pub open spec fn header_index(ls: Seq<Seq<char>>) -> nat {
    run_len(ls, |l: Seq<char>| !is_header_line(l))
}

/// The header that the tokens of a header line write, if every number among
/// them can be read. A first token `g` with five tokens or more behind it
/// makes the header global.
pub open spec fn header_of(t: Seq<Seq<char>>) -> Option<Header>
    recommends
        t.len() >= 3,
{
    if t[0] == seq!['g'] && t.len() >= 6 {
        match (
            parse_u32_spec(t[1]),
            parse_u32_spec(t[2]),
            parse_u32_spec(t[3]),
            parse_u32_spec(t[4]),
            parse_u32_spec(t[5]),
        ) {
            (Some(width), Some(height), Some(offset_x), Some(offset_y), Some(fps)) => Some(
                Header::Global { width, height, offset_x, offset_y, fps },
            ),
            _ => None,
        }
    } else {
        match (parse_u32_spec(t[0]), parse_u32_spec(t[1]), parse_u32_spec(t[2])) {
            (Some(width), Some(height), Some(fps)) => Some(Header::Standard { width, height, fps }),
            _ => None,
        }
    }
}

/// The header of a descriptor text: that of its first header line.
pub open spec fn parse_header_spec(text: Seq<char>) -> Result<Header, Error> {
    let ls = lines(text);
    let k = header_index(ls);
    if k >= ls.len() {
        Err(Error::MissingDescriptor)
    } else {
        match header_of(tokens(ls[k as int])) {
            Some(h) => Ok(h),
            None => Err(Error::MalformedDescriptor),
        }
    }
}

/// The way of playing that a mode letter and a first number stand for.
pub open spec fn loop_kind_of(mode: Seq<char>, count: u32) -> LoopMode {
    if mode == seq!['p'] {
        LoopMode::StopOnBoot
    } else if count == 0 {
        LoopMode::LoopInfinite
    } else {
        LoopMode::PlayFull
    }
}

/// The directive that the tokens of a line write: a mode `p` or `c`, two
/// numbers, the name of the part and, where there is a fifth token, a
/// background. Tokens after the fifth are not looked at.
pub open spec fn directive_of(t: Seq<Seq<char>>) -> Result<Directive, Error> {
    if t.len() < 4 || (t[0] != seq!['p'] && t[0] != seq!['c']) {
        Err(Error::MalformedDescriptor)
    } else {
        match (parse_u32_spec(t[1]), parse_u32_spec(t[2])) {
            (Some(count), Some(clock)) => {
                if t.len() >= 5 {
                    match normalized_color(t[4]) {
                        Ok(c) => Ok(
                            Directive {
                                loop_kind: loop_kind_of(t[0], count),
                                pause_or_count: count,
                                clock_flag: clock,
                                part_name: t[3],
                                background: Some(c),
                            },
                        ),
                        Err(f) => Err(Error::InvalidColor(f)),
                    }
                } else {
                    Ok(
                        Directive {
                            loop_kind: loop_kind_of(t[0], count),
                            pause_or_count: count,
                            clock_flag: clock,
                            part_name: t[3],
                            background: None,
                        },
                    )
                }
            },
            _ => Err(Error::MalformedDescriptor),
        }
    }
}

/// `d` in front of the directives of `r`, where `r` holds any.
pub open spec fn with_front(d: Seq<Directive>, r: Result<Seq<Directive>, Error>) -> Result<
    Seq<Directive>,
    Error,
> {
    match r {
        Ok(x) => Ok(d + x),
        Err(e) => Err(e),
    }
}

/// The directives of the lines that follow a header: one for each line that
/// is not passed over, or the failure of the first line that cannot be read.
pub open spec fn directives_of(ls: Seq<Seq<char>>) -> Result<Seq<Directive>, Error>
    decreases ls.len(),
{
    if ls.len() == 0 {
        Ok(Seq::empty())
    } else if is_skipped(ls[0]) {
        directives_of(ls.drop_first())
    } else {
        match directive_of(tokens(ls[0])) {
            Ok(d) => with_front(seq![d], directives_of(ls.drop_first())),
            Err(e) => Err(e),
        }
    }
}

/// The descriptor that a text writes: the header of its first header line
/// and the directives of the lines after it.
pub open spec fn parse_desc_spec(text: Seq<char>) -> Result<DescriptorModel, Error> {
    let ls = lines(text);
    let k = header_index(ls);
    if k >= ls.len() {
        Err(Error::MissingDescriptor)
    } else {
        match header_of(tokens(ls[k as int])) {
            Some(header) => match directives_of(ls.skip(k as int + 1)) {
                Ok(directives) => Ok(DescriptorModel { header, directives }),
                Err(e) => Err(e),
            },
            None => Err(Error::MalformedDescriptor),
        }
    }
}

/// Finds the header line among `ls` and splits it into tokens.
fn find_header_line(ls: &Vec<Vec<char>>) -> (r: (usize, Vec<Vec<char>>))
    ensures
        r.0 == header_index(texts(ls@)),
        r.0 <= ls.len(),
        r.0 < ls.len() ==> texts(r.1@) == tokens(ls@[r.0 as int]@) && r.1.len() >= 3,
{
    let ghost p = |l: Seq<char>| !is_header_line(l);
    let mut k: usize = 0;
    while k < ls.len()
        invariant
            k <= ls.len(),
            p == |l: Seq<char>| !is_header_line(l),
            forall|j: int| 0 <= j < k ==> p(#[trigger] texts(ls@)[j]),
        decreases ls.len() - k,
    {
        let toks = split_tokens(&ls[k]);
        proof {
            lemma_tokens_are_words(ls@[k as int]@);
            if toks.len() > 0 {
                assert(is_word(texts(toks@)[0]));
            }
        }
        if toks.len() >= 3 && toks[0][0] != '#' {
            proof {
                lemma_run_len_is(texts(ls@), p, k as nat);
            }
            return (k, toks);
        }
        k += 1;
    }
    proof {
        lemma_run_len_is(texts(ls@), p, k as nat);
    }
    (k, Vec::new())
}

/// Tells whether `t` is the one character `c`.
fn is_letter(t: &Vec<char>, c: char) -> (r: bool)
    ensures
        r == (t@ == seq![c]),
{
    if t.len() == 1 && t[0] == c {
        assert(t@ =~= seq![c]);
        true
    } else {
        false
    }
}

/// Reads the header that the tokens of a header line write.
fn header_from_tokens(toks: &Vec<Vec<char>>) -> (r: Option<Header>)
    requires
        toks.len() >= 3,
    ensures
        r == header_of(texts(toks@)),
{
    if is_letter(&toks[0], 'g') && toks.len() >= 6 {
        let width = parse_u32(&toks[1]);
        let height = parse_u32(&toks[2]);
        let offset_x = parse_u32(&toks[3]);
        let offset_y = parse_u32(&toks[4]);
        let fps = parse_u32(&toks[5]);
        match (width, height, offset_x, offset_y, fps) {
            (Some(width), Some(height), Some(offset_x), Some(offset_y), Some(fps)) => Some(
                Header::Global { width, height, offset_x, offset_y, fps },
            ),
            _ => None,
        }
    } else {
        let width = parse_u32(&toks[0]);
        let height = parse_u32(&toks[1]);
        let fps = parse_u32(&toks[2]);
        match (width, height, fps) {
            (Some(width), Some(height), Some(fps)) => Some(Header::Standard { width, height, fps }),
            _ => None,
        }
    }
}

/// Reads the directive that the tokens of a line write.
fn directive_from_tokens(toks: &Vec<Vec<char>>) -> (r: Result<PartDirective, Error>)
    ensures
        match r {
            Ok(d) => directive_of(texts(toks@)) == Ok::<Directive, Error>(d@),
            Err(e) => directive_of(texts(toks@)) == Err::<Directive, Error>(e),
        },
{
    if toks.len() < 4 {
        return Err(Error::MalformedDescriptor);
    }
    let stop = is_letter(&toks[0], 'p');
    if !stop && !is_letter(&toks[0], 'c') {
        return Err(Error::MalformedDescriptor);
    }
    let count = match parse_u32(&toks[1]) {
        Some(n) => n,
        None => {
            return Err(Error::MalformedDescriptor);
        },
    };
    let clock = match parse_u32(&toks[2]) {
        Some(n) => n,
        None => {
            return Err(Error::MalformedDescriptor);
        },
    };
    let loop_kind = if stop {
        LoopMode::StopOnBoot
    } else if count == 0 {
        LoopMode::LoopInfinite
    } else {
        LoopMode::PlayFull
    };
    let background = if toks.len() >= 5 {
        match normalize_color_chars(&toks[4]) {
            Ok(c) => Some(from_chars(&c)),
            Err(f) => {
                return Err(Error::InvalidColor(f));
            },
        }
    } else {
        None
    };
    Ok(
        PartDirective {
            loop_kind,
            pause_or_count: count,
            clock_flag: clock,
            part_name: from_chars(&toks[3]),
            background,
        },
    )
}

/// Reads the header of a descriptor text and passes over everything after
/// the header line.
///
/// It fails with [`Error::MissingDescriptor`] where no line has three tokens
/// or more and is no comment, and with [`Error::MalformedDescriptor`] where
/// a number of the first such line cannot be read.
pub fn parse_header(text: &str) -> (r: Result<Header, Error>)
    ensures
        r == parse_header_spec(text@),
{
    let chars = to_chars(text);
    let ls = split_lines(&chars);
    let (k, toks) = find_header_line(&ls);
    if k >= ls.len() {
        return Err(Error::MissingDescriptor);
    }
    match header_from_tokens(&toks) {
        Some(h) => Ok(h),
        None => Err(Error::MalformedDescriptor),
    }
}

/// Reads a descriptor text: the header, and a directive from every line
/// after it that is neither blank nor a comment.
///
/// It fails as [`parse_header`] does, and with the failure of the first
/// directive line that cannot be read: [`Error::MalformedDescriptor`] for
/// fewer than four tokens, a mode other than `p` and `c` or a number that
/// cannot be read, [`Error::InvalidColor`] for a fifth token that is no
/// colour.
pub fn parse_desc(text: &str) -> (r: Result<Descriptor, Error>)
    ensures
        match r {
            Ok(d) => parse_desc_spec(text@) == Ok::<DescriptorModel, Error>(d@),
            Err(e) => parse_desc_spec(text@) == Err::<DescriptorModel, Error>(e),
        },
{
    let chars = to_chars(text);
    let ls = split_lines(&chars);
    let (k, toks) = find_header_line(&ls);
    if k >= ls.len() {
        return Err(Error::MissingDescriptor);
    }
    let header = match header_from_tokens(&toks) {
        Some(h) => h,
        None => {
            return Err(Error::MalformedDescriptor);
        },
    };
    let ghost all = texts(ls@);
    let ghost rest = all.skip(k + 1);
    let mut directives: Vec<PartDirective> = Vec::new();
    let mut i: usize = k + 1;
    while i < ls.len()
        invariant
            k < i <= ls.len(),
            all == texts(ls@),
            rest == all.skip(k + 1),
            parse_desc_spec(text@) == (match directives_of(rest) {
                Ok(ds) => Ok::<DescriptorModel, Error>(
                    DescriptorModel { header, directives: ds },
                ),
                Err(e) => Err::<DescriptorModel, Error>(e),
            }),
            directives_of(rest) == with_front(
                directive_views(directives@),
                directives_of(all.skip(i as int)),
            ),
        decreases ls.len() - i,
    {
        let ghost tail = all.skip(i as int);
        proof {
            assert(tail.drop_first() =~= all.skip(i + 1));
            lemma_tokens_are_words(ls@[i as int]@);
        }
        let line_toks = split_tokens(&ls[i]);
        if line_toks.len() > 0 && line_toks[0][0] != '#' {
            match directive_from_tokens(&line_toks) {
                Ok(d) => {
                    proof {
                        let done = directive_views(directives@);
                        let next = directives_of(all.skip(i + 1));
                        assert(directive_views(directives@.push(d)) =~= done.push(d@));
                        match next {
                            Ok(x) => {
                                assert(done + (seq![d@] + x) =~= done.push(d@) + x);
                            },
                            Err(e) => {},
                        }
                    }
                    directives.push(d);
                },
                Err(e) => {
                    return Err(e);
                },
            }
        }
        i += 1;
    }
    Ok(Descriptor { header, directives })
}

// ---------------------------------------------------------------------------
// Writing
// ---------------------------------------------------------------------------

/// The mode letter of a way of playing.
pub open spec fn mode_word(kind: LoopMode) -> Seq<char> {
    match kind {
        LoopMode::StopOnBoot => seq!['p'],
        LoopMode::PlayFull => seq!['c'],
        LoopMode::LoopInfinite => seq!['c'],
    }
}

/// The tokens of a header line.
pub open spec fn header_words(h: Header) -> Seq<Seq<char>> {
    match h {
        Header::Standard { width, height, fps } => seq![
            decimal_digits(width as nat),
            decimal_digits(height as nat),
            decimal_digits(fps as nat),
        ],
        Header::Global { width, height, offset_x, offset_y, fps } => seq![
            seq!['g'],
            decimal_digits(width as nat),
            decimal_digits(height as nat),
            decimal_digits(offset_x as nat),
            decimal_digits(offset_y as nat),
            decimal_digits(fps as nat),
        ],
    }
}

/// The tokens of a directive line: the background, where there is one, is
/// the last.
pub open spec fn directive_words(d: Directive) -> Seq<Seq<char>> {
    let base = seq![
        mode_word(d.loop_kind),
        decimal_digits(d.pause_or_count as nat),
        decimal_digits(d.clock_flag as nat),
        d.part_name,
    ];
    match d.background {
        Some(c) => base.push(c),
        None => base,
    }
}

/// The lines of the directives, in their order.
pub open spec fn directive_lines(ds: Seq<Directive>) -> Seq<Seq<char>> {
    Seq::new(ds.len(), |i: int| join_words(directive_words(ds[i])))
}

/// The lines of a descriptor: the header line, then the directive lines.
pub open spec fn descriptor_lines(d: DescriptorModel) -> Seq<Seq<char>> {
    seq![join_words(header_words(d.header))] + directive_lines(d.directives)
}

/// The text of a descriptor: its lines, each ended by a newline.
pub open spec fn serialize_spec(d: DescriptorModel) -> Seq<char> {
    join_lines(descriptor_lines(d))
}

/// The name of the directory of the part with the given index.
pub open spec fn part_name(index: nat) -> Seq<char> {
    seq!['p', 'a', 'r', 't'] + decimal_digits(index)
}

/// The directive that is written for a part when an animation is made:
/// `p 1 0`, `c 1 0` or `c 0 0`, by the way of playing.
pub open spec fn canonical_directive(
    kind: LoopMode,
    index: nat,
    background: Option<Seq<char>>,
) -> Directive {
    Directive {
        loop_kind: kind,
        pause_or_count: if kind == LoopMode::LoopInfinite {
            0
        } else {
            1
        },
        clock_flag: 0,
        part_name: part_name(index),
        background,
    }
}

/// The descriptor of an animation with the parts `0` to `num_parts`, all
/// played the same way before the same background.
pub open spec fn synthesized(
    header: Header,
    num_parts: nat,
    kind: LoopMode,
    background: Option<Seq<char>>,
) -> DescriptorModel {
    DescriptorModel {
        header,
        directives: Seq::new(
            num_parts + 1,
            |i: int| canonical_directive(kind, i as nat, background),
        ),
    }
}

/// Appends a space and the decimal digits of `n` to a line that holds the
/// words `ws`.
fn push_number_word(s: &mut String, n: u32, Ghost(start): Ghost<Seq<char>>, Ghost(ws): Ghost<
    Seq<Seq<char>>,
>)
    requires
        ws.len() > 0,
        old(s)@ == start + join_words(ws),
    ensures
        final(s)@ == start + join_words(ws.push(decimal_digits(n as nat))),
{
    s.push(' ');
    push_decimal(s, n as u64);
    proof {
        lemma_join_words_push(ws, decimal_digits(n as nat));
    }
}

/// Appends a header line, without its newline.
fn push_header_line(s: &mut String, h: &Header)
    ensures
        final(s)@ == old(s)@ + join_words(header_words(*h)),
{
    let ghost start = s@;
    match *h {
        Header::Standard { width, height, fps } => {
            push_decimal(s, width as u64);
            let ghost w1 = seq![decimal_digits(width as nat)];
            push_number_word(s, height, Ghost(start), Ghost(w1));
            push_number_word(s, fps, Ghost(start), Ghost(w1.push(decimal_digits(height as nat))));
            proof {
                assert(w1.push(decimal_digits(height as nat)).push(decimal_digits(fps as nat))
                    =~= header_words(*h));
            }
        },
        Header::Global { width, height, offset_x, offset_y, fps } => {
            s.push('g');
            let ghost w1 = seq![seq!['g']];
            assert(s@ =~= start + join_words(w1));
            push_number_word(s, width, Ghost(start), Ghost(w1));
            let ghost w2 = w1.push(decimal_digits(width as nat));
            push_number_word(s, height, Ghost(start), Ghost(w2));
            let ghost w3 = w2.push(decimal_digits(height as nat));
            push_number_word(s, offset_x, Ghost(start), Ghost(w3));
            let ghost w4 = w3.push(decimal_digits(offset_x as nat));
            push_number_word(s, offset_y, Ghost(start), Ghost(w4));
            let ghost w5 = w4.push(decimal_digits(offset_y as nat));
            push_number_word(s, fps, Ghost(start), Ghost(w5));
            proof {
                assert(w5.push(decimal_digits(fps as nat)) =~= header_words(*h));
            }
        },
    }
}

/// Appends a directive line, without its newline.
fn push_directive_line(s: &mut String, d: &PartDirective)
    ensures
        final(s)@ == old(s)@ + join_words(directive_words(d@)),
{
    let ghost start = s@;
    match d.loop_kind {
        LoopMode::StopOnBoot => s.push('p'),
        LoopMode::PlayFull => s.push('c'),
        LoopMode::LoopInfinite => s.push('c'),
    }
    let ghost w1 = seq![mode_word(d.loop_kind)];
    assert(s@ =~= start + join_words(w1));
    push_number_word(s, d.pause_or_count, Ghost(start), Ghost(w1));
    let ghost w2 = w1.push(decimal_digits(d.pause_or_count as nat));
    push_number_word(s, d.clock_flag, Ghost(start), Ghost(w2));
    let ghost w3 = w2.push(decimal_digits(d.clock_flag as nat));
    s.push(' ');
    let name = to_chars(d.part_name.as_str());
    push_chars(s, &name);
    let ghost w4 = w3.push(d.part_name@);
    proof {
        lemma_join_words_push(w3, d.part_name@);
    }
    match &d.background {
        Some(c) => {
            s.push(' ');
            let color = to_chars(c.as_str());
            push_chars(s, &color);
            proof {
                lemma_join_words_push(w4, c@);
                assert(w4.push(c@) =~= directive_words(d@));
            }
        },
        None => {
            proof {
                assert(w4 =~= directive_words(d@));
            }
        },
    }
}

impl Descriptor {
    /// The text of the descriptor: the header line in its dialect, then one
    /// line for each directive, each line ended by a newline.
    pub fn serialize(&self) -> (s: String)
        ensures
            s@ == serialize_spec(self@),
    {
        let mut s = String::new();
        push_header_line(&mut s, &self.header);
        s.push('\n');
        let ghost all = descriptor_lines(self@);
        proof {
            let first = seq![join_words(header_words(self.header))];
            lemma_join_lines_push(Seq::<Seq<char>>::empty(), first[0]);
            assert(Seq::<Seq<char>>::empty().push(first[0]) =~= all.take(1));
        }
        let mut i: usize = 0;
        while i < self.directives.len()
            invariant
                i <= self.directives.len(),
                all == descriptor_lines(self@),
                all.len() == self.directives.len() + 1,
                s@ == join_lines(all.take(i + 1)),
            decreases self.directives.len() - i,
        {
            push_directive_line(&mut s, &self.directives[i]);
            s.push('\n');
            proof {
                let line = join_words(directive_words(self.directives@[i as int]@));
                lemma_join_lines_push(all.take(i + 1), line);
                assert(all.take(i + 1).push(line) =~= all.take(i + 2));
            }
            i += 1;
        }
        proof {
            assert(all.take(i + 1) =~= all);
        }
        s
    }

    /// The descriptor of an animation that was cut into the parts `part0` to
    /// the part numbered `num_parts`: one directive for each, in the order of
    /// their numbers, all with the same way of playing and the same
    /// background.
    pub fn synthesize(
        header: Header,
        num_parts: u32,
        loop_mode: LoopMode,
        background: Option<&str>,
    ) -> (d: Descriptor)
        ensures
            d@ == synthesized(header, num_parts as nat, loop_mode, option_text(background)),
    {
        let ghost bg = option_text(background);
        let ghost want = synthesized(header, num_parts as nat, loop_mode, bg).directives;
        let mut directives: Vec<PartDirective> = Vec::new();
        let mut i: u32 = 0;
        loop
            invariant_except_break
                i <= num_parts,
                directives.len() == i,
                directive_views(directives@) == want.take(i as int),
            invariant
                bg == option_text(background),
                want == synthesized(header, num_parts as nat, loop_mode, bg).directives,
            ensures
                directive_views(directives@) == want,
            decreases num_parts - i,
        {
            let d = PartDirective::for_part(loop_mode, i, background);
            proof {
                assert(directive_views(directives@.push(d)) =~= want.take(i + 1));
            }
            directives.push(d);
            if i == num_parts {
                break ;
            }
            i += 1;
        }
        Descriptor { header, directives }
    }
}

/// The text of an optional string.
pub open spec fn option_text(s: Option<&str>) -> Option<Seq<char>> {
    match s {
        Some(c) => Some(c@),
        None => None,
    }
}

impl PartDirective {
    /// The directive that is written for the part with the given index when
    /// an animation is made.
    pub fn for_part(loop_mode: LoopMode, index: u32, background: Option<&str>) -> (d: PartDirective)
        ensures
            d@ == canonical_directive(loop_mode, index as nat, option_text(background)),
    {
        let mut name = String::new();
        name.push('p');
        name.push('a');
        name.push('r');
        name.push('t');
        push_decimal(&mut name, index as u64);
        assert(name@ =~= part_name(index as nat));
        let background = match background {
            Some(c) => Some(c.to_owned()),
            None => None,
        };
        PartDirective {
            loop_kind: loop_mode,
            pause_or_count: match loop_mode {
                LoopMode::LoopInfinite => 0,
                _ => 1,
            },
            clock_flag: 0,
            part_name: name,
            background,
        }
    }
}

} // verus!
