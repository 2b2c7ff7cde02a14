//! Splitting a text into lines and a line into tokens, and the inverse:
//! joining tokens with spaces and ending lines with newlines.

use vstd::prelude::*;
use crate::text::{is_space, is_space_char, no_space, copy_range};

verus! {

/// The number of elements at the front of `s` that satisfy `p`, up to the
/// first that does not.
pub open spec fn run_len<T>(s: Seq<T>, p: spec_fn(T) -> bool) -> nat
    decreases s.len(),
{
    if s.len() > 0 && p(s[0]) {
        1 + run_len(s.drop_first(), p)
    } else {
        0
    }
}

/// [`run_len`] stays within the sequence, everything before it satisfies the
/// predicate, and the element at it, if any, does not.
pub proof fn lemma_run_len<T>(s: Seq<T>, p: spec_fn(T) -> bool)
    ensures
        run_len(s, p) <= s.len(),
        forall|i: int| 0 <= i < run_len(s, p) ==> p(#[trigger] s[i]),
        run_len(s, p) < s.len() ==> !p(s[run_len(s, p) as int]),
    decreases s.len(),
{
    if s.len() > 0 && p(s[0]) {
        let t = s.drop_first();
        lemma_run_len(t, p);
        assert forall|i: int| 0 <= i < run_len(s, p) implies p(#[trigger] s[i]) by {
            if i > 0 {
                assert(s[i] == t[i - 1]);
            }
        }
    }
}

/// A position with the three properties of [`lemma_run_len`] is the run's
/// length.
pub proof fn lemma_run_len_is<T>(s: Seq<T>, p: spec_fn(T) -> bool, n: nat)
    requires
        n <= s.len(),
        forall|i: int| 0 <= i < n ==> p(#[trigger] s[i]),
        n < s.len() ==> !p(s[n as int]),
    ensures
        run_len(s, p) == n,
    decreases s.len(),
{
    if n > 0 {
        let t = s.drop_first();
        lemma_run_len_is(t, p, (n - 1) as nat);
    }
}

/// The number of elements at the back of `s` that satisfy `p`, down to
/// the last that does not.
pub open spec fn back_run_len<T>(s: Seq<T>, p: spec_fn(T) -> bool) -> nat
    decreases s.len(),
{
    if s.len() > 0 && p(s.last()) {
        1 + back_run_len(s.drop_last(), p)
    } else {
        0
    }
}

/// The last `n` elements satisfy the predicate and the one before them, if
/// any, does not: then `n` is the length of the run at the back.
pub proof fn lemma_back_run_len_is<T>(s: Seq<T>, p: spec_fn(T) -> bool, n: nat)
    requires
        n <= s.len(),
        forall|i: int| s.len() - n <= i < s.len() ==> p(#[trigger] s[i]),
        n < s.len() ==> !p(s[s.len() - n - 1]),
    ensures
        back_run_len(s, p) == n,
    decreases s.len(),
{
    if n > 0 {
        let t = s.drop_last();
        lemma_back_run_len_is(t, p, (n - 1) as nat);
    }
}

/// The length of the word at the front of `s`: the characters up to the first
/// that separates tokens.
pub open spec fn word_len(s: Seq<char>) -> nat {
    run_len(s, |c: char| !is_space(c))
}

/// The length of the first line of `s`: the characters up to the first
/// newline.
pub open spec fn line_len(s: Seq<char>) -> nat {
    run_len(s, |c: char| c != '\n')
}

/// The tokens of a line: its longest runs of characters that do not separate
/// tokens, from left to right.
pub open spec fn tokens(s: Seq<char>) -> Seq<Seq<char>>
    decreases s.len(),
{
    if s.len() == 0 {
        Seq::empty()
    } else if is_space(s[0]) {
        tokens(s.drop_first())
    } else {
        let n = word_len(s);
        if n >= s.len() {
            seq![s]
        } else {
            seq![s.take(n as int)] + tokens(s.skip(n as int))
        }
    }
}

/// The lines of a text: the pieces between its newlines. A text without a
/// newline is one line, and so is the empty text.
pub open spec fn lines(s: Seq<char>) -> Seq<Seq<char>>
    decreases s.len(),
{
    let n = line_len(s);
    if n >= s.len() {
        seq![s]
    } else {
        seq![s.take(n as int)] + lines(s.skip(n as int + 1))
    }
}

/// The words with one space between each two.
pub open spec fn join_words(ws: Seq<Seq<char>>) -> Seq<char>
    decreases ws.len(),
{
    if ws.len() == 0 {
        Seq::empty()
    } else if ws.len() == 1 {
        ws[0]
    } else {
        ws[0] + seq![' '] + join_words(ws.drop_first())
    }
}

/// The lines, each followed by a newline.
pub open spec fn join_lines(ls: Seq<Seq<char>>) -> Seq<char>
    decreases ls.len(),
{
    if ls.len() == 0 {
        Seq::empty()
    } else {
        ls[0] + seq!['\n'] + join_lines(ls.drop_first())
    }
}

/// A word: one character or more, none of which separates tokens.
pub open spec fn is_word(w: Seq<char>) -> bool {
    w.len() > 0 && no_space(w)
}

/// Every element of `ws` is a word.
pub open spec fn all_words(ws: Seq<Seq<char>>) -> bool {
    forall|i: int| 0 <= i < ws.len() ==> is_word(#[trigger] ws[i])
}

/// No element of `ls` holds a newline.
pub open spec fn all_single_lines(ls: Seq<Seq<char>>) -> bool {
    forall|i: int, j: int| 0 <= i < ls.len() && 0 <= j < ls[i].len() ==> #[trigger] ls[i][j] != '\n'
}

/// The tokens of words joined with spaces are those words.
pub proof fn lemma_tokens_of_joined(ws: Seq<Seq<char>>)
    requires
        all_words(ws),
    ensures
        tokens(join_words(ws)) == ws,
        forall|j: int| 0 <= j < join_words(ws).len() ==> #[trigger] join_words(ws)[j] != '\n',
        ws.len() > 0 ==> join_words(ws).len() > 0 && join_words(ws)[0] == ws[0][0],
    decreases ws.len(),
{
    let s = join_words(ws);
    let p = |c: char| !is_space(c);
    if ws.len() == 1 {
        let w = ws[0];
        lemma_run_len_is(w, p, w.len());
    } else if ws.len() > 1 {
        let w = ws[0];
        let rest = ws.drop_first();
        let r = join_words(rest);
        lemma_tokens_of_joined(rest);
        lemma_run_len_is(s, p, w.len());
        assert(s.take(w.len() as int) =~= w);
        let tail = s.skip(w.len() as int);
        assert(tail.drop_first() =~= r);
        assert(tokens(tail) == tokens(r));
    }
}

/// Every token is a word.
pub proof fn lemma_tokens_are_words(s: Seq<char>)
    ensures
        all_words(tokens(s)),
    decreases s.len(),
{
    let p = |c: char| !is_space(c);
    if s.len() > 0 && is_space(s[0]) {
        lemma_tokens_are_words(s.drop_first());
    } else if s.len() > 0 {
        let n = word_len(s);
        lemma_run_len(s, p);
        if n < s.len() {
            lemma_tokens_are_words(s.skip(n as int));
        }
    }
}

/// One more word at the end of a line adds a space and the word to its text.
pub proof fn lemma_join_words_push(ws: Seq<Seq<char>>, w: Seq<char>)
    requires
        ws.len() > 0,
    ensures
        join_words(ws.push(w)) == join_words(ws) + seq![' '] + w,
    decreases ws.len(),
{
    if ws.len() == 1 {
        assert(ws.push(w).drop_first() =~= seq![w]);
        assert(join_words(seq![w]) == w);
    } else {
        lemma_join_words_push(ws.drop_first(), w);
        assert(ws.push(w).drop_first() =~= ws.drop_first().push(w));
    }
}

/// Adding a line at the end of the lines adds it, and its newline, at the end
/// of the text.
pub proof fn lemma_join_lines_push(ls: Seq<Seq<char>>, l: Seq<char>)
    ensures
        join_lines(ls.push(l)) == join_lines(ls) + l + seq!['\n'],
    decreases ls.len(),
{
    if ls.len() == 0 {
        assert(ls.push(l).drop_first() =~= Seq::<Seq<char>>::empty());
        assert(join_lines(Seq::<Seq<char>>::empty()) =~= Seq::<char>::empty());
    } else {
        lemma_join_lines_push(ls.drop_first(), l);
        assert(ls.push(l).drop_first() =~= ls.drop_first().push(l));
    }
}

/// The lines of a text made of lines that each end in a newline are those
/// lines, and an empty one after the last newline.
pub proof fn lemma_lines_of_joined(ls: Seq<Seq<char>>)
    requires
        all_single_lines(ls),
    ensures
        lines(join_lines(ls)) == ls.push(Seq::empty()),
    decreases ls.len(),
{
    let s = join_lines(ls);
    let p = |c: char| c != '\n';
    if ls.len() > 0 {
        let l = ls[0];
        let rest = ls.drop_first();
        let r = join_lines(rest);
        assert forall|i: int, j: int| 0 <= i < rest.len() && 0 <= j < rest[i].len() implies #[trigger] rest[i][j]
            != '\n' by {}
        lemma_lines_of_joined(rest);
        lemma_run_len_is(s, p, l.len());
        assert(s.take(l.len() as int) =~= l);
        assert(s.skip(l.len() as int + 1) =~= r);
    }
}

/// The texts that the vectors of `v` hold.
pub open spec fn texts(v: Seq<Vec<char>>) -> Seq<Seq<char>> {
    Seq::new(v.len(), |i: int| v[i]@)
}

/// The position where the word that starts at `from` ends.
pub fn word_end(s: &[char], from: usize) -> (to: usize)
    requires
        from <= s.len(),
    ensures
        from <= to <= s.len(),
        to - from == word_len(s@.skip(from as int)),
{
    let mut i: usize = from;
    while i < s.len() && !is_space_char(s[i])
        invariant
            from <= i <= s.len(),
            forall|k: int| from <= k < i ==> !is_space(#[trigger] s@[k]),
        decreases s.len() - i,
    {
        i += 1;
    }
    proof {
        let t = s@.skip(from as int);
        let p = |c: char| !is_space(c);
        lemma_run_len_is(t, p, (i - from) as nat);
    }
    i
}

/// The position where the line that starts at `from` ends: that of the next
/// newline, or the end of the text.
pub fn line_end(s: &[char], from: usize) -> (to: usize)
    requires
        from <= s.len(),
    ensures
        from <= to <= s.len(),
        to - from == line_len(s@.skip(from as int)),
{
    let mut i: usize = from;
    while i < s.len() && s[i] != '\n'
        invariant
            from <= i <= s.len(),
            forall|k: int| from <= k < i ==> #[trigger] s@[k] != '\n',
        decreases s.len() - i,
    {
        i += 1;
    }
    proof {
        let t = s@.skip(from as int);
        let p = |c: char| c != '\n';
        lemma_run_len_is(t, p, (i - from) as nat);
    }
    i
}

/// Splits a line into its tokens.
pub fn split_tokens(s: &[char]) -> (r: Vec<Vec<char>>)
    ensures
        texts(r@) == tokens(s@),
{
    let mut out: Vec<Vec<char>> = Vec::new();
    let mut i: usize = 0;
    proof {
        assert(s@.skip(0) =~= s@);
    }
    while i < s.len()
        invariant
            i <= s.len(),
            tokens(s@) == texts(out@) + tokens(s@.skip(i as int)),
        decreases s.len() - i,
    {
        let ghost t = s@.skip(i as int);
        if is_space_char(s[i]) {
            proof {
                assert(t.drop_first() =~= s@.skip(i + 1));
            }
            i += 1;
        } else {
            let j = word_end(s, i);
            let w = copy_range(s, i, j);
            proof {
                assert(t.take(j - i) =~= w@);
                assert(t.skip(j - i) =~= s@.skip(j as int));
            }
            out.push(w);
            i = j;
        }
    }
    out
}

/// Splits a text into its lines.
pub fn split_lines(s: &[char]) -> (r: Vec<Vec<char>>)
    ensures
        texts(r@) == lines(s@),
{
    let mut out: Vec<Vec<char>> = Vec::new();
    let mut i: usize = 0;
    let mut done = false;
    proof {
        assert(s@.skip(0) =~= s@);
    }
    while !done
        invariant
            i <= s.len(),
            !done ==> lines(s@) == texts(out@) + lines(s@.skip(i as int)),
            done ==> lines(s@) == texts(out@),
        decreases s.len() - i + (if done { 0int } else { 1int }),
    {
        let ghost t = s@.skip(i as int);
        let j = line_end(s, i);
        let l = copy_range(s, i, j);
        proof {
            assert(t.take(j - i) =~= l@);
            if j < s.len() {
                assert(t.skip(j - i + 1) =~= s@.skip(j + 1));
            }
        }
        out.push(l);
        if j >= s.len() {
            done = true;
        } else {
            i = j + 1;
        }
    }
    out
}

} // verus!
