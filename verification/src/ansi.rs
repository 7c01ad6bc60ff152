//! The ANSI normalizer: strips terminal escape sequences from decoded text.
//!
//! The scan keeps one flag, "inside an escape sequence". The escape
//! initiator (ESC, U+001B) raises it; any character in the inclusive ASCII
//! range `@`..`~` ends the sequence; every character from the initiator to
//! the terminator inclusive is dropped from the output.

use vstd::prelude::*;

verus! {

use crate::text::{push_char, str_chars};

/// A character that ends an escape sequence: the inclusive ASCII range
/// `@`..`~`.
pub open spec fn is_escape_terminator(c: char) -> bool {
    0x40 <= (c as u32) && (c as u32) <= 0x7e
}

/// Exec mirror of [`is_escape_terminator`].
pub fn char_is_escape_terminator(c: char) -> (r: bool)
    ensures
        r == is_escape_terminator(c),
{
    let u = c as u32;
    0x40 <= u && u <= 0x7e
}

/// One step of the normalizer. The state is the text emitted so far and
/// whether the scan currently stands inside an escape sequence.
pub open spec fn strip_step(st: (Seq<char>, bool), c: char) -> (Seq<char>, bool) {
    if st.1 {
        if is_escape_terminator(c) {
            (st.0, false)
        } else {
            (st.0, true)
        }
    } else if c == '\u{1b}' {
        (st.0, true)
    } else {
        (st.0.push(c), false)
    }
}

/// The normalizer folded over a whole sequence, from an arbitrary state.
pub open spec fn strip_from(st: (Seq<char>, bool), s: Seq<char>) -> (Seq<char>, bool)
    decreases s.len(),
{
    if s.len() == 0 {
        st
    } else {
        strip_step(strip_from(st, s.drop_last()), s.last())
    }
}

/// What the normalizer emits for a sequence scanned from the start, outside
/// any escape sequence.
pub open spec fn spec_strip_ansi(s: Seq<char>) -> Seq<char> {
    strip_from((Seq::empty(), false), s).0
}

/// Folding over a concatenation is folding over both parts in turn.
pub proof fn lemma_strip_from_concat(st: (Seq<char>, bool), a: Seq<char>, b: Seq<char>)
    ensures
        strip_from(st, a + b) == strip_from(strip_from(st, a), b),
    decreases b.len(),
{
    if b.len() == 0 {
        assert(a + b =~= a);
    } else {
        assert((a + b).drop_last() =~= a + b.drop_last());
        assert((a + b).last() == b.last());
        lemma_strip_from_concat(st, a, b.drop_last());
    }
}

/// While the scan stands inside an escape sequence, characters that are not
/// terminators change nothing.
proof fn lemma_escape_swallows(st: (Seq<char>, bool), body: Seq<char>)
    requires
        st.1 == true,
        forall|i: int| 0 <= i < body.len() ==> !is_escape_terminator(#[trigger] body[i]),
    ensures
        strip_from(st, body) == st,
    decreases body.len(),
{
    if body.len() > 0 {
        lemma_escape_swallows(st, body.drop_last());
    }
}

/// Law: a complete escape sequence — the initiator, a run of non-terminator
/// characters, then a terminator — contributes nothing to the normalizer's
/// output, the terminator included: the stream normalizes exactly as if the
/// whole sequence were absent.
pub proof fn lemma_escape_sequence_stripped(
    prefix: Seq<char>,
    body: Seq<char>,
    term: char,
    suffix: Seq<char>,
)
    requires
        strip_from((Seq::empty(), false), prefix).1 == false,
        forall|i: int| 0 <= i < body.len() ==> !is_escape_terminator(#[trigger] body[i]),
        is_escape_terminator(term),
    ensures
        spec_strip_ansi(prefix + (seq!['\u{1b}'] + body + seq![term]) + suffix)
            == spec_strip_ansi(prefix + suffix),
{
    let init = (Seq::<char>::empty(), false);
    let esc = seq!['\u{1b}'] + body + seq![term];
    let st_p = strip_from(init, prefix);

    lemma_strip_from_concat(init, prefix + esc, suffix);
    lemma_strip_from_concat(init, prefix, esc);

    // The initiator raises the flag, the body is swallowed, the terminator
    // lowers the flag and emits nothing.
    assert(strip_from(st_p, seq!['\u{1b}']) == (st_p.0, true)) by {
        assert(seq!['\u{1b}'].drop_last() =~= Seq::<char>::empty());
        assert(strip_from(st_p, Seq::<char>::empty()) == st_p);
    }
    lemma_strip_from_concat(st_p, seq!['\u{1b}'], body);
    lemma_escape_swallows((st_p.0, true), body);
    lemma_strip_from_concat(st_p, seq!['\u{1b}'] + body, seq![term]);
    assert(esc =~= (seq!['\u{1b}'] + body) + seq![term]);
    assert(strip_from((st_p.0, true), seq![term]) == (st_p.0, false)) by {
        assert(seq![term].drop_last() =~= Seq::<char>::empty());
        assert(strip_from((st_p.0, true), Seq::<char>::empty()) == (st_p.0, true));
    }
    assert(strip_from(st_p, esc) == st_p);

    lemma_strip_from_concat(init, prefix, suffix);
}

/// Outside an escape sequence, text that contains no escape initiator
/// passes the normalizer through unchanged.
pub proof fn lemma_strip_from_plain(out: Seq<char>, s: Seq<char>)
    requires
        forall|i: int| 0 <= i < s.len() ==> #[trigger] s[i] != '\u{1b}',
    ensures
        strip_from((out, false), s) == (out + s, false),
    decreases s.len(),
{
    if s.len() == 0 {
        assert(out + s =~= out);
    } else {
        lemma_strip_from_plain(out, s.drop_last());
        assert((out + s.drop_last()).push(s.last()) =~= out + s);
    }
}

/// Strips escape sequences from `input`, scanned from the start.
pub fn strip_ansi(input: &str) -> (r: String)
    ensures
        r@ == spec_strip_ansi(input@),
{
    let chars = str_chars(input);
    let mut out = String::new();
    let mut in_escape = false;
    let n = chars.len();
    for i in 0..n
        invariant
            chars@ == input@,
            n == chars@.len(),
            (out@, in_escape) == strip_from((Seq::<char>::empty(), false), input@.take(i as int)),
    {
        let c = chars[i];
        proof {
            assert(input@.take(i + 1).drop_last() =~= input@.take(i as int));
            assert(input@.take(i + 1).last() == input@[i as int]);
        }
        if in_escape {
            if char_is_escape_terminator(c) {
                in_escape = false;
            }
        } else if c == '\u{1b}' {
            in_escape = true;
        } else {
            push_char(&mut out, c);
        }
    }
    proof {
        assert(input@.take(n as int) =~= input@);
    }
    out
}

} // verus!
