//! The bounded, line-oriented output buffer.
//!
//! The buffer holds at most `max_lines` completed lines plus one carry
//! string, the not-yet-terminated tail of output. Decoded text is first run
//! through the ANSI normalizer; then a newline or carriage return commits
//! the carry as a completed line (evicting the oldest lines when over
//! capacity), a backspace drops the last carry character, other control
//! characters are ignored, and everything else appends to the carry.

use vstd::prelude::*;

verus! {

use crate::ansi::{spec_strip_ansi, strip_ansi};
use crate::text::{
    char_is_control, decode_utf8_lossy, decoded_lossy, is_control_char, pop_char, push_char,
    str_chars,
};

/// Completed-line capacity used when no other is configured.
pub const DEFAULT_MAX_LINES: usize = 2000;

/// Trimming: drop the oldest completed lines while the count exceeds `max`.
pub open spec fn spec_trim(lines: Seq<Seq<char>>, max: nat) -> Seq<Seq<char>> {
    if lines.len() > max {
        lines.skip(lines.len() - max)
    } else {
        lines
    }
}

/// One normalized character applied to the buffer state (completed lines,
/// carry).
pub open spec fn feed_step(
    st: (Seq<Seq<char>>, Seq<char>),
    c: char,
    max: nat,
) -> (Seq<Seq<char>>, Seq<char>) {
    if c == '\n' || c == '\r' {
        (spec_trim(st.0.push(st.1), max), Seq::empty())
    } else if c == '\u{8}' {
        if st.1.len() > 0 {
            (st.0, st.1.drop_last())
        } else {
            st
        }
    } else if is_control_char(c) {
        st
    } else {
        (st.0, st.1.push(c))
    }
}

/// The buffer state after consuming a sequence of normalized characters.
pub open spec fn feed_chars(
    st: (Seq<Seq<char>>, Seq<char>),
    s: Seq<char>,
    max: nat,
) -> (Seq<Seq<char>>, Seq<char>)
    decreases s.len(),
{
    if s.len() == 0 {
        st
    } else {
        feed_step(feed_chars(st, s.drop_last(), max), s.last(), max)
    }
}

/// What one push of decoded text does: normalize, then consume.
pub open spec fn ingest(
    st: (Seq<Seq<char>>, Seq<char>),
    s: Seq<char>,
    max: nat,
) -> (Seq<Seq<char>>, Seq<char>) {
    feed_chars(st, spec_strip_ansi(s), max)
}

/// The lines a render draws from: the completed lines, plus the carry as a
/// final line when it is nonempty.
pub open spec fn effective_lines(st: (Seq<Seq<char>>, Seq<char>)) -> Seq<Seq<char>> {
    if st.1.len() > 0 {
        st.0.push(st.1)
    } else {
        st.0
    }
}

/// Lines joined by single newlines, with no trailing newline.
pub open spec fn joined(ls: Seq<Seq<char>>) -> Seq<char>
    decreases ls.len(),
{
    if ls.len() == 0 {
        Seq::empty()
    } else if ls.len() == 1 {
        ls[0]
    } else {
        joined(ls.drop_last()) + seq!['\n'] + ls.last()
    }
}

/// A render of height `height`: the last `height` lines, joined.
pub open spec fn spec_render(ls: Seq<Seq<char>>, height: nat) -> Seq<char> {
    joined(spec_trim(ls, height))
}

/// The same fold with no capacity bound: every committed line is kept.
/// Only the eviction law below speaks of it.
pub open spec fn feed_all(
    st: (Seq<Seq<char>>, Seq<char>),
    s: Seq<char>,
) -> (Seq<Seq<char>>, Seq<char>)
    decreases s.len(),
{
    if s.len() == 0 {
        st
    } else {
        let prev = feed_all(st, s.drop_last());
        let c = s.last();
        if c == '\n' || c == '\r' {
            (prev.0.push(prev.1), Seq::empty())
        } else if c == '\u{8}' {
            if prev.1.len() > 0 {
                (prev.0, prev.1.drop_last())
            } else {
                prev
            }
        } else if is_control_char(c) {
            prev
        } else {
            (prev.0, prev.1.push(c))
        }
    }
}

/// Law: feeding any text never leaves more completed lines than the
/// capacity allows.
pub proof fn lemma_feed_respects_capacity(st: (Seq<Seq<char>>, Seq<char>), s: Seq<char>, max: nat)
    requires
        st.0.len() <= max,
    ensures
        feed_chars(st, s, max).0.len() <= max,
    decreases s.len(),
{
    if s.len() > 0 {
        lemma_feed_respects_capacity(st, s.drop_last(), max);
    }
}

/// Law: eviction removes the oldest lines first. The completed lines of the
/// bounded fold are exactly the newest suffix of all lines the unbounded
/// fold ever completed, and the carry is unaffected by eviction.
pub proof fn lemma_eviction_oldest_first(st: (Seq<Seq<char>>, Seq<char>), s: Seq<char>, max: nat)
    requires
        st.0.len() <= max,
    ensures
        feed_chars(st, s, max).1 == feed_all(st, s).1,
        feed_chars(st, s, max).0.len() <= feed_all(st, s).0.len(),
        feed_chars(st, s, max).0 == feed_all(st, s).0.skip(
            feed_all(st, s).0.len() - feed_chars(st, s, max).0.len(),
        ),
    decreases s.len(),
{
    if s.len() == 0 {
        assert(st.0.skip(0) =~= st.0);
    } else {
        lemma_eviction_oldest_first(st, s.drop_last(), max);
        let b = feed_chars(st, s.drop_last(), max);
        let u = feed_all(st, s.drop_last());
        let k = u.0.len() - b.0.len();
        let c = s.last();
        if c == '\n' || c == '\r' {
            assert(b.0.push(b.1) =~= u.0.push(u.1).skip(k));
            let grown = b.0.push(b.1);
            let kept = spec_trim(grown, max);
            let j: int = grown.len() - kept.len();
            assert(kept =~= grown.skip(j));
            assert(kept =~= u.0.push(u.1).skip(k + j));
        } else {
            assert(b.0 =~= u.0.skip(k));
        }
    }
}

/// Law: a backspace arriving on an empty carry changes nothing.
pub proof fn lemma_backspace_empty_carry(lines: Seq<Seq<char>>, max: nat)
    ensures
        feed_step((lines, Seq::empty()), '\u{8}', max) == (lines, Seq::<char>::empty()),
{
}

/// Printable text (no control characters at all) only grows the carry.
pub proof fn lemma_feed_plain(st: (Seq<Seq<char>>, Seq<char>), s: Seq<char>, max: nat)
    requires
        forall|i: int| 0 <= i < s.len() ==> !is_control_char(#[trigger] s[i]),
    ensures
        feed_chars(st, s, max) == (st.0, st.1 + s),
    decreases s.len(),
{
    if s.len() == 0 {
        assert(st.1 + s =~= st.1);
    } else {
        lemma_feed_plain(st, s.drop_last(), max);
        assert((st.1 + s.drop_last()).push(s.last()) =~= st.1 + s);
    }
}

/// Law: pushing text free of newlines — indeed of every control character —
/// into an empty buffer and rendering with height at least one returns
/// exactly that text.
pub proof fn lemma_plain_text_round_trip(s: Seq<char>, max: nat, height: nat)
    requires
        forall|i: int| 0 <= i < s.len() ==> !is_control_char(#[trigger] s[i]),
        height >= 1,
    ensures
        spec_render(
            effective_lines(ingest((Seq::empty(), Seq::empty()), s, max)),
            height,
        ) == s,
{
    assert(is_control_char('\u{1b}'));
    crate::ansi::lemma_strip_from_plain(Seq::empty(), s);
    assert(spec_strip_ansi(s) =~= s) by {
        assert(Seq::<char>::empty() + s =~= s);
    }
    lemma_feed_plain((Seq::empty(), Seq::empty()), s, max);
    let st = ingest((Seq::<Seq<char>>::empty(), Seq::<char>::empty()), s, max);
    assert(st.1 =~= s) by {
        assert(Seq::<char>::empty() + s =~= s);
    }
    let eff = effective_lines(st);
    if s.len() == 0 {
        assert(spec_render(eff, height) =~= s);
    } else {
        assert(eff =~= seq![s]);
        assert(spec_trim(eff, height) == eff);
        assert(joined(eff) == s);
    }
}

pub struct OutputBuffer {
    pub lines: Vec<String>,
    pub carry: String,
    pub max_lines: usize,
}

impl OutputBuffer {
    /// The completed lines as character sequences.
    pub open spec fn lines_view(&self) -> Seq<Seq<char>> {
        self.lines@.map_values(|s: String| s@)
    }

    /// The whole buffer state the fold specifications speak of.
    pub open spec fn state(&self) -> (Seq<Seq<char>>, Seq<char>) {
        (self.lines_view(), self.carry@)
    }

    /// Invariant: the completed-line count never exceeds the maximum.
    pub open spec fn wf(&self) -> bool {
        self.lines@.len() <= self.max_lines
    }

    /// An empty buffer with the given completed-line capacity.
    pub fn new(max_lines: usize) -> (r: Self)
        ensures
            r.lines_view() == Seq::<Seq<char>>::empty(),
            r.carry@ == Seq::<char>::empty(),
            r.max_lines == max_lines,
            r.wf(),
    {
        let r = OutputBuffer { lines: Vec::new(), carry: String::new(), max_lines };
        proof {
            assert(r.lines_view() =~= Seq::<Seq<char>>::empty());
        }
        r
    }

    /// Appends one completed line, then evicts the oldest lines while the
    /// count exceeds the maximum.
    pub fn push_line(&mut self, line: String)
        ensures
            final(self).lines_view() == spec_trim(
                old(self).lines_view().push(line@),
                old(self).max_lines as nat,
            ),
            final(self).carry == old(self).carry,
            final(self).max_lines == old(self).max_lines,
            final(self).wf(),
    {
        self.lines.push(line);
        proof {
            assert(self.lines_view() =~= old(self).lines_view().push(line@));
        }
        self.trim();
    }

    /// Evicts the oldest completed lines while the count exceeds the
    /// maximum; the newest lines survive, in order.
    pub fn trim(&mut self)
        ensures
            final(self).lines_view() == spec_trim(
                old(self).lines_view(),
                old(self).max_lines as nat,
            ),
            final(self).carry == old(self).carry,
            final(self).max_lines == old(self).max_lines,
            final(self).wf(),
    {
        proof {
            assert(self.lines@ =~= old(self).lines@.skip(
                old(self).lines@.len() - self.lines@.len(),
            ));
        }
        while self.lines.len() > self.max_lines
            invariant
                self.lines@.len() <= old(self).lines@.len(),
                self.lines@ =~= old(self).lines@.skip(
                    old(self).lines@.len() - self.lines@.len(),
                ),
                self.lines@.len() >= self.max_lines || self.lines@.len() == old(
                    self,
                ).lines@.len(),
                self.carry == old(self).carry,
                self.max_lines == old(self).max_lines,
            decreases self.lines@.len(),
        {
            self.lines.remove(0);
            proof {
                assert(self.lines@ =~= old(self).lines@.skip(
                    old(self).lines@.len() - self.lines@.len(),
                ));
            }
        }
        proof {
            assert(self.lines_view() =~= spec_trim(
                old(self).lines_view(),
                old(self).max_lines as nat,
            ));
        }
    }

    /// Normalizes `text` and consumes it character by character.
    pub fn push_text(&mut self, text: &str)
        requires
            old(self).wf(),
        ensures
            final(self).state() == ingest(
                old(self).state(),
                text@,
                old(self).max_lines as nat,
            ),
            final(self).max_lines == old(self).max_lines,
            final(self).wf(),
    {
        let ghost max = self.max_lines as nat;
        let ghost st0 = self.state();
        let cleaned = strip_ansi(text);
        let chars = str_chars(cleaned.as_str());
        let n = chars.len();
        for i in 0..n
            invariant
                chars@ == spec_strip_ansi(text@),
                n == chars@.len(),
                self.state() == feed_chars(st0, chars@.take(i as int), max),
                self.max_lines == old(self).max_lines,
                max == self.max_lines as nat,
                self.wf(),
        {
            let c = chars[i];
            proof {
                assert(chars@.take(i + 1).drop_last() =~= chars@.take(i as int));
                assert(chars@.take(i + 1).last() == chars@[i as int]);
            }
            if c == '\n' || c == '\r' {
                let mut line = String::new();
                core::mem::swap(&mut line, &mut self.carry);
                self.push_line(line);
            } else if c == '\u{8}' {
                let _ = pop_char(&mut self.carry);
            } else if char_is_control(c) {
            } else {
                push_char(&mut self.carry, c);
            }
        }
        proof {
            assert(chars@.take(n as int) =~= chars@);
        }
    }

    /// Decodes raw output bytes permissively, then normalizes and consumes
    /// the text.
    pub fn push_bytes(&mut self, bytes: &[u8])
        requires
            old(self).wf(),
        ensures
            final(self).state() == ingest(
                old(self).state(),
                decoded_lossy(bytes@),
                old(self).max_lines as nat,
            ),
            final(self).max_lines == old(self).max_lines,
            final(self).wf(),
    {
        let text = decode_utf8_lossy(bytes);
        self.push_text(text.as_str());
    }

    /// The last `height` effective lines (completed lines, plus the carry
    /// as a final line when nonempty), joined by newlines. A height of zero
    /// or an empty buffer gives an empty string.
    pub fn render_text(&self, height: usize) -> (r: String)
        requires
            self.lines@.len() < usize::MAX,
        ensures
            r@ == spec_render(effective_lines(self.state()), height as nat),
    {
        let n_lines = self.lines.len();
        let has_carry = !self.carry.as_str().is_empty();
        let n_eff = if has_carry {
            n_lines + 1
        } else {
            n_lines
        };
        let start = if n_eff > height {
            n_eff - height
        } else {
            0
        };
        let ghost eff = effective_lines(self.state());
        proof {
            assert(eff.len() == n_eff);
        }
        let mut out = String::new();
        for i in start..n_eff
            invariant
                out@ == joined(eff.subrange(start as int, i as int)),
                eff == effective_lines(self.state()),
                eff.len() == n_eff,
                n_lines == self.lines@.len(),
                n_eff == n_lines + if self.carry@.len() > 0 { 1int } else { 0int },
                start == if n_eff > height { n_eff - height } else { 0 },
                start <= i,
        {
            proof {
                assert(eff.subrange(start as int, i + 1).drop_last() =~= eff.subrange(
                    start as int,
                    i as int,
                ));
                assert(eff.subrange(start as int, i + 1).last() == eff[i as int]);
            }
            let ghost out_before = out@;
            if i > start {
                push_char(&mut out, '\n');
            }
            if i < n_lines {
                out.append(self.lines[i].as_str());
            } else {
                out.append(self.carry.as_str());
            }
            proof {
                if i > start {
                    assert(out@ =~= out_before + seq!['\n'] + eff[i as int]);
                } else {
                    assert(out@ =~= eff[i as int]);
                }
            }
        }
        proof {
            assert(eff.subrange(start as int, n_eff as int) =~= spec_trim(eff, height as nat));
        }
        out
    }
}

} // verus!
