//! The control-protocol codec.
//!
//! A text frame, trimmed of leading and trailing whitespace, is a resize
//! command exactly when it starts with the sentinel `__RESIZE__`. The rest
//! of such a frame must supply two whitespace-separated integers, columns
//! then rows; if either fails to parse the frame is silently discarded, so
//! that a malformed control frame never leaks into the shell as keystrokes.
//! A frame without the sentinel prefix is literal input.

use vstd::prelude::*;

verus! {

use crate::text::{char_is_space, is_space_char, str_chars};

/// The reserved prefix that reclassifies a text frame as a command.
pub open spec fn sentinel() -> Seq<char> {
    seq!['_', '_', 'R', 'E', 'S', 'I', 'Z', 'E', '_', '_']
}

/// What the codec decides about one text frame.
#[derive(Clone, Copy, Debug, PartialEq, Eq, Structural)]
pub enum FrameClass {
    /// A well-formed resize command: consume the frame and resize.
    Resize { cols: u16, rows: u16 },
    /// A sentinel frame whose numbers do not parse: consume and drop it.
    Discard,
    /// Literal shell input: forward the frame verbatim.
    Input,
}

/// The sequence with its leading whitespace removed.
pub open spec fn skip_leading_space(s: Seq<char>) -> Seq<char>
    decreases s.len(),
{
    if s.len() == 0 {
        s
    } else if is_space_char(s[0]) {
        skip_leading_space(s.drop_first())
    } else {
        s
    }
}

/// The sequence with its trailing whitespace removed.
pub open spec fn drop_trailing_space(s: Seq<char>) -> Seq<char>
    decreases s.len(),
{
    if s.len() == 0 {
        s
    } else if is_space_char(s.last()) {
        drop_trailing_space(s.drop_last())
    } else {
        s
    }
}

/// The sequence trimmed of whitespace at both ends.
pub open spec fn spec_trimmed(s: Seq<char>) -> Seq<char> {
    skip_leading_space(drop_trailing_space(s))
}

/// The leading maximal run of non-whitespace characters.
pub open spec fn take_run(s: Seq<char>) -> Seq<char>
    decreases s.len(),
{
    if s.len() == 0 || is_space_char(s[0]) {
        Seq::empty()
    } else {
        seq![s[0]] + take_run(s.drop_first())
    }
}

/// The sequence with its leading non-whitespace run removed.
pub open spec fn drop_run(s: Seq<char>) -> Seq<char>
    decreases s.len(),
{
    if s.len() == 0 || is_space_char(s[0]) {
        s
    } else {
        drop_run(s.drop_first())
    }
}

/// The first whitespace-separated token.
pub open spec fn first_token(s: Seq<char>) -> Seq<char> {
    take_run(skip_leading_space(s))
}

/// What follows the first whitespace-separated token.
pub open spec fn after_first_token(s: Seq<char>) -> Seq<char> {
    drop_run(skip_leading_space(s))
}

/// An ASCII decimal digit.
pub open spec fn is_ascii_digit(c: char) -> bool {
    0x30 <= (c as u32) && (c as u32) <= 0x39
}

/// Exec mirror of [`is_ascii_digit`].
pub fn char_is_ascii_digit(c: char) -> (r: bool)
    ensures
        r == is_ascii_digit(c),
{
    let u = c as u32;
    0x30 <= u && u <= 0x39
}

/// The value of a digit string read in base ten.
pub open spec fn digits_value(s: Seq<char>) -> int
    decreases s.len(),
{
    if s.len() == 0 {
        0
    } else {
        digits_value(s.drop_last()) * 10 + ((s.last() as u32) - 0x30)
    }
}

pub open spec fn all_digits(s: Seq<char>) -> bool {
    forall|i: int| 0 <= i < s.len() ==> is_ascii_digit(#[trigger] s[i])
}

/// The digit part of an unsigned decimal literal: an optional leading `+`
/// is allowed, as `str::parse::<u16>` allows it.
pub open spec fn unsigned_body(s: Seq<char>) -> Seq<char> {
    if s.len() > 0 && s[0] == '+' {
        s.drop_first()
    } else {
        s
    }
}

/// Whether the token parses as a `u16`: at least one digit, digits only,
/// and a value within range.
pub open spec fn parses_as_u16(s: Seq<char>) -> bool {
    let b = unsigned_body(s);
    b.len() > 0 && all_digits(b) && digits_value(b) <= u16::MAX
}

/// The parsed value of a token for which [`parses_as_u16`] holds.
pub open spec fn u16_value(s: Seq<char>) -> u16 {
    digits_value(unsigned_body(s)) as u16
}

/// The codec's decision for one text frame.
pub open spec fn spec_classify(s: Seq<char>) -> FrameClass {
    let t = spec_trimmed(s);
    if t.len() >= sentinel().len() && t.take(sentinel().len() as int) == sentinel() {
        let rest = t.skip(sentinel().len() as int);
        let cols_tok = first_token(rest);
        let rows_tok = first_token(after_first_token(rest));
        if parses_as_u16(cols_tok) && parses_as_u16(rows_tok) {
            FrameClass::Resize { cols: u16_value(cols_tok), rows: u16_value(rows_tok) }
        } else {
            FrameClass::Discard
        }
    } else {
        FrameClass::Input
    }
}

/// A digit string has a nonnegative value.
proof fn lemma_digits_value_nonneg(s: Seq<char>)
    requires
        all_digits(s),
    ensures
        digits_value(s) >= 0,
    decreases s.len(),
{
    if s.len() > 0 {
        assert(all_digits(s.drop_last())) by {
            assert(forall|i: int|
                0 <= i < s.len() - 1 ==> s.drop_last()[i] == #[trigger] s[i]);
        }
        lemma_digits_value_nonneg(s.drop_last());
    }
}

/// Index form of [`skip_leading_space`]: if the first `k` characters are
/// whitespace and the next one (if any) is not, the function drops exactly
/// those `k`.
proof fn lemma_skip_leading_space_index(s: Seq<char>, k: int)
    requires
        0 <= k <= s.len(),
        forall|i: int| 0 <= i < k ==> is_space_char(#[trigger] s[i]),
        k == s.len() || !is_space_char(s[k]),
    ensures
        skip_leading_space(s) == s.skip(k),
    decreases k,
{
    if k == 0 {
        assert(s.skip(0) =~= s);
    } else {
        let d = s.drop_first();
        assert(forall|i: int| 0 <= i < k - 1 ==> is_space_char(#[trigger] d[i])) by {
            assert(forall|i: int| 0 <= i < d.len() ==> d[i] == #[trigger] s[i + 1]);
        }
        lemma_skip_leading_space_index(d, k - 1);
        assert(d.skip(k - 1) =~= s.skip(k));
    }
}

/// Index form of [`drop_trailing_space`]: if every character from `k` on is
/// whitespace and the one before `k` (if any) is not, the function keeps
/// exactly the first `k`.
proof fn lemma_drop_trailing_space_index(s: Seq<char>, k: int)
    requires
        0 <= k <= s.len(),
        forall|i: int| k <= i < s.len() ==> is_space_char(#[trigger] s[i]),
        k == 0 || !is_space_char(s[k - 1]),
    ensures
        drop_trailing_space(s) == s.take(k),
    decreases s.len(),
{
    if k == s.len() {
        if s.len() == 0 {
            assert(s.take(0) =~= s);
        } else {
            assert(s.take(k) =~= s);
        }
    } else {
        let d = s.drop_last();
        assert(forall|i: int| k <= i < d.len() ==> is_space_char(#[trigger] d[i])) by {
            assert(forall|i: int| 0 <= i < d.len() ==> d[i] == #[trigger] s[i]);
        }
        lemma_drop_trailing_space_index(d, k);
        assert(d.take(k) =~= s.take(k));
    }
}

/// Index form of [`take_run`] and [`drop_run`]: if the first `k` characters
/// are non-whitespace and the next one (if any) is whitespace, the run is
/// exactly those `k`.
proof fn lemma_run_index(s: Seq<char>, k: int)
    requires
        0 <= k <= s.len(),
        forall|i: int| 0 <= i < k ==> !is_space_char(#[trigger] s[i]),
        k == s.len() || is_space_char(s[k]),
    ensures
        take_run(s) == s.take(k),
        drop_run(s) == s.skip(k),
    decreases k,
{
    if k == 0 {
        assert(s.take(0) =~= Seq::<char>::empty());
        assert(s.skip(0) =~= s);
    } else {
        let d = s.drop_first();
        assert(forall|i: int| 0 <= i < k - 1 ==> !is_space_char(#[trigger] d[i])) by {
            assert(forall|i: int| 0 <= i < d.len() ==> d[i] == #[trigger] s[i + 1]);
        }
        lemma_run_index(d, k - 1);
        assert(seq![s[0]] + d.take(k - 1) =~= s.take(k));
        assert(d.skip(k - 1) =~= s.skip(k));
    }
}

/// Index form of [`spec_trimmed`]: if everything before `lo` and from `hi`
/// on is whitespace, and the characters at the two ends of `[lo, hi)` are
/// not, trimming keeps exactly `[lo, hi)`.
proof fn lemma_trimmed_index(s: Seq<char>, lo: int, hi: int)
    requires
        0 <= lo <= hi <= s.len(),
        forall|i: int| 0 <= i < lo ==> is_space_char(#[trigger] s[i]),
        forall|i: int| hi <= i < s.len() ==> is_space_char(#[trigger] s[i]),
        lo == hi || (!is_space_char(s[lo]) && !is_space_char(s[hi - 1])),
    ensures
        spec_trimmed(s) == s.subrange(lo, hi),
{
    if lo == hi {
        lemma_drop_trailing_space_index(s, 0);
        assert(s.take(0) =~= Seq::<char>::empty());
        assert(spec_trimmed(s) == Seq::<char>::empty());
        assert(s.subrange(lo, hi) =~= Seq::<char>::empty());
    } else {
        lemma_drop_trailing_space_index(s, hi);
        let t = s.take(hi);
        assert(forall|i: int| 0 <= i < lo ==> is_space_char(#[trigger] t[i])) by {
            assert(forall|i: int| 0 <= i < t.len() ==> t[i] == #[trigger] s[i]);
        }
        lemma_skip_leading_space_index(t, lo);
        assert(t.skip(lo) =~= s.subrange(lo, hi));
    }
}

/// Parses `chars[from..to]` as `str::parse::<u16>` would: an optional `+`,
/// then decimal digits, value at most `u16::MAX`.
fn parse_u16_range(chars: &Vec<char>, from: usize, to: usize) -> (r: Option<u16>)
    requires
        from <= to <= chars@.len(),
    ensures
        r is Some <==> parses_as_u16(chars@.subrange(from as int, to as int)),
        r is Some ==> r == Some(u16_value(chars@.subrange(from as int, to as int))),
{
    let ghost tok = chars@.subrange(from as int, to as int);
    let mut i = from;
    if i < to && chars[i] == '+' {
        i += 1;
    }
    let ghost body = unsigned_body(tok);
    proof {
        if tok.len() > 0 && tok[0] == '+' {
            assert(body =~= chars@.subrange(from + 1, to as int));
        } else {
            assert(body =~= chars@.subrange(from as int, to as int));
        }
    }
    if i == to {
        return None;
    }
    let mut val: u32 = 0;
    let mut over = false;
    for j in i..to
        invariant
            i <= j <= to,
            to <= chars@.len(),
            tok == chars@.subrange(from as int, to as int),
            body == unsigned_body(tok),
            body == chars@.subrange(i as int, to as int),
            body.len() == to - i,
            all_digits(body.take(j - i)),
            !over ==> val == digits_value(body.take(j - i)) && val <= 65535,
            over ==> digits_value(body.take(j - i)) > 65535,
    {
        let c = chars[j];
        if !char_is_ascii_digit(c) {
            proof {
                assert(body[j - i] == c);
                assert(!is_ascii_digit(body[j - i]));
                assert(!all_digits(body));
                assert(!parses_as_u16(tok));
            }
            return None;
        }
        let d = (c as u32) - 0x30;
        proof {
            assert(body.take(j - i + 1).drop_last() =~= body.take(j - i));
            assert(body.take(j - i + 1).last() == body[j - i]);
            assert(body[j - i] == c);
            assert(all_digits(body.take(j - i + 1)));
        }
        if !over {
            let next = val * 10 + d;
            if next > 65535 {
                over = true;
            }
            val = next;
        } else {
            proof {
                lemma_digits_value_nonneg(body.take(j - i));
            }
        }
    }
    proof {
        assert(body.take(to - i) =~= body);
    }
    if over {
        None
    } else {
        Some(val as u16)
    }
}

/// Classifies one inbound text frame: a well-formed resize command, a
/// malformed sentinel frame to discard, or literal shell input.
pub fn classify_frame(text: &str) -> (r: FrameClass)
    ensures
        r == spec_classify(text@),
{
    let chars = str_chars(text);
    let n = chars.len();

    let mut lo: usize = 0;
    while lo < n && char_is_space(chars[lo])
        invariant
            lo <= n,
            n == chars@.len(),
            chars@ == text@,
            forall|i: int| 0 <= i < lo ==> is_space_char(#[trigger] chars@[i]),
        decreases n - lo,
    {
        lo += 1;
    }
    let mut hi: usize = n;
    while hi > lo && char_is_space(chars[hi - 1])
        invariant
            lo <= hi <= n,
            n == chars@.len(),
            chars@ == text@,
            forall|i: int| hi <= i < n ==> is_space_char(#[trigger] chars@[i]),
        decreases hi,
    {
        hi -= 1;
    }
    proof {
        lemma_trimmed_index(chars@, lo as int, hi as int);
    }
    let ghost t = spec_trimmed(text@);

    if hi - lo < 10 {
        return FrameClass::Input;
    }
    let sent: Vec<char> = vec!['_', '_', 'R', 'E', 'S', 'I', 'Z', 'E', '_', '_'];
    proof {
        assert(sent@ =~= sentinel());
    }
    for k in 0..10usize
        invariant
            n == chars@.len(),
            chars@ == text@,
            lo + 10 <= hi <= n,
            sent@ == sentinel(),
            t == chars@.subrange(lo as int, hi as int),
            t == spec_trimmed(text@),
            forall|i: int| 0 <= i < k ==> t[i] == #[trigger] sentinel()[i],
    {
        if chars[lo + k] != sent[k] {
            proof {
                assert(t[k as int] != sentinel()[k as int]);
                assert(t.take(10)[k as int] != sentinel()[k as int]);
            }
            return FrameClass::Input;
        }
        proof {
            assert(t[k as int] == chars@[lo + k]);
        }
    }
    proof {
        assert(t.take(10) =~= sentinel());
    }

    let p0 = lo + 10;
    let mut p1 = p0;
    while p1 < hi && char_is_space(chars[p1])
        invariant
            p0 <= p1 <= hi,
            hi <= n,
            n == chars@.len(),
            chars@ == text@,
            forall|i: int| p0 <= i < p1 ==> is_space_char(#[trigger] chars@[i]),
        decreases hi - p1,
    {
        p1 += 1;
    }
    let mut p2 = p1;
    while p2 < hi && !char_is_space(chars[p2])
        invariant
            p1 <= p2 <= hi,
            hi <= n,
            n == chars@.len(),
            chars@ == text@,
            forall|i: int| p1 <= i < p2 ==> !is_space_char(#[trigger] chars@[i]),
        decreases hi - p2,
    {
        p2 += 1;
    }
    let mut p3 = p2;
    while p3 < hi && char_is_space(chars[p3])
        invariant
            p2 <= p3 <= hi,
            hi <= n,
            n == chars@.len(),
            chars@ == text@,
            forall|i: int| p2 <= i < p3 ==> is_space_char(#[trigger] chars@[i]),
        decreases hi - p3,
    {
        p3 += 1;
    }
    let mut p4 = p3;
    while p4 < hi && !char_is_space(chars[p4])
        invariant
            p3 <= p4 <= hi,
            hi <= n,
            n == chars@.len(),
            chars@ == text@,
            forall|i: int| p3 <= i < p4 ==> !is_space_char(#[trigger] chars@[i]),
        decreases hi - p4,
    {
        p4 += 1;
    }

    proof {
        let rest = t.skip(10);
        assert(rest =~= chars@.subrange(p0 as int, hi as int));
        lemma_skip_leading_space_index(rest, p1 - p0);
        assert(rest.skip(p1 - p0) =~= chars@.subrange(p1 as int, hi as int));
        let r1 = chars@.subrange(p1 as int, hi as int);
        lemma_run_index(r1, p2 - p1);
        assert(r1.take(p2 - p1) =~= chars@.subrange(p1 as int, p2 as int));
        assert(r1.skip(p2 - p1) =~= chars@.subrange(p2 as int, hi as int));
        let r2 = chars@.subrange(p2 as int, hi as int);
        lemma_skip_leading_space_index(r2, p3 - p2);
        assert(r2.skip(p3 - p2) =~= chars@.subrange(p3 as int, hi as int));
        let r3 = chars@.subrange(p3 as int, hi as int);
        lemma_run_index(r3, p4 - p3);
        assert(r3.take(p4 - p3) =~= chars@.subrange(p3 as int, p4 as int));
        assert(first_token(rest) == chars@.subrange(p1 as int, p2 as int));
        assert(first_token(after_first_token(rest)) == chars@.subrange(p3 as int, p4 as int));
    }

    let cols = parse_u16_range(&chars, p1, p2);
    let rows = parse_u16_range(&chars, p3, p4);
    match (cols, rows) {
        (Some(c), Some(w)) => FrameClass::Resize { cols: c, rows: w },
        _ => FrameClass::Discard,
    }
}

} // verus!
