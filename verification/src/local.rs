//! Decision logic of the local interactive loop.
//!
//! Each tick the loop drains the session's output channel into the buffer,
//! renders, and handles at most one key event. The loop itself — screen,
//! keyboard, pseudo-terminal — lives with the caller; this module turns
//! each event into the action the caller must perform.

use vstd::prelude::*;

verus! {

use crate::buffer::{ingest, OutputBuffer, DEFAULT_MAX_LINES};
use crate::text::{decoded_lossy, pop_char, push_char, str_chars};
use vstd::string::StringExecFns;

/// One key, as the local loop distinguishes them.
#[derive(Clone, Copy, Debug, PartialEq, Eq, Structural)]
pub enum Key {
    Char(char),
    Enter,
    Backspace,
    Other,
}

/// The modifier state of a key press. Combinations beyond a plain shift or
/// a plain control are `Other`.
#[derive(Clone, Copy, Debug, PartialEq, Eq, Structural)]
pub enum KeyModifier {
    Plain,
    Shifted,
    Control,
    Other,
}

/// What the loop must do in response to one key press.
#[derive(Clone, Debug, PartialEq, Eq)]
pub enum KeyAction {
    /// Leave the loop: send the shell a literal exit command and stop.
    Quit,
    /// Write this single control byte to the session.
    SendControl(u8),
    /// Write this completed line to the session.
    SendLine(String),
    /// Nothing to perform.
    Stay,
}

/// One observation of the session's output channel.
pub enum OutputEvent {
    /// A chunk of raw output bytes.
    Chunk(Vec<u8>),
    /// The channel closed: the shell exited.
    Closed,
}

/// The state the local loop carries between ticks.
pub struct AppState {
    pub output: OutputBuffer,
    pub input: String,
    pub shell_name: String,
    pub shell_exited: bool,
}

impl AppState {
    /// Fresh state: an output buffer at the default capacity holding the
    /// three banner lines, an empty input line, and a live session.
    pub fn new(shell_name: String) -> (r: Self)
        ensures
            r.output.lines_view() =~= seq![
                "iLonhro Terminal by Lonhro"@,
                "Theme: Pink_n_Black (cyberpunk)"@,
                "Ctrl+Q to quit. Ctrl+C sends SIGINT."@,
            ],
            r.output.carry@ == Seq::<char>::empty(),
            r.output.max_lines == DEFAULT_MAX_LINES,
            r.output.wf(),
            r.input@ == Seq::<char>::empty(),
            r.shell_name == shell_name,
            r.shell_exited == false,
    {
        let mut output = OutputBuffer::new(DEFAULT_MAX_LINES);
        output.push_line(String::from_str("iLonhro Terminal by Lonhro"));
        output.push_line(String::from_str("Theme: Pink_n_Black (cyberpunk)"));
        output.push_line(String::from_str("Ctrl+Q to quit. Ctrl+C sends SIGINT."));
        AppState { output, input: String::new(), shell_name, shell_exited: false }
    }

    /// Applies one key press: updates the input line and says what to send.
    /// Only the quit key asks to leave the loop.
    pub fn handle_key(&mut self, key: Key, modifier: KeyModifier) -> (r: KeyAction)
        ensures
            final(self).output == old(self).output,
            final(self).shell_name == old(self).shell_name,
            final(self).shell_exited == old(self).shell_exited,
            key == Key::Char('q') && modifier == KeyModifier::Control ==> r == KeyAction::Quit
                && final(self).input == old(self).input,
            key == Key::Char('c') && modifier == KeyModifier::Control ==> r
                == KeyAction::SendControl(3u8) && final(self).input == old(self).input,
            key == Key::Char('d') && modifier == KeyModifier::Control ==> r
                == KeyAction::SendControl(4u8) && final(self).input == old(self).input,
            key == Key::Enter ==> (r matches KeyAction::SendLine(line)
                && line@ == old(self).input@.push('\n'))
                && final(self).input@ == Seq::<char>::empty(),
            key == Key::Backspace ==> r == KeyAction::Stay
                && final(self).input@ == (if old(self).input@.len() > 0 {
                    old(self).input@.drop_last()
                } else {
                    old(self).input@
                }),
            key matches Key::Char(c) ==> {
                &&& (modifier == KeyModifier::Plain || modifier == KeyModifier::Shifted) ==> (r
                    == KeyAction::Stay && final(self).input@ == old(self).input@.push(c))
                &&& (modifier == KeyModifier::Control && c != 'q' && c != 'c' && c != 'd'
                    || modifier == KeyModifier::Other)
                    ==> (r == KeyAction::Stay && final(self).input == old(self).input)
            },
            key == Key::Other ==> r == KeyAction::Stay && final(self).input == old(self).input,
    {
        match (key, modifier) {
            (Key::Char('q'), KeyModifier::Control) => KeyAction::Quit,
            (Key::Char('c'), KeyModifier::Control) => KeyAction::SendControl(3),
            (Key::Char('d'), KeyModifier::Control) => KeyAction::SendControl(4),
            (Key::Enter, _) => {
                let mut line = String::new();
                core::mem::swap(&mut line, &mut self.input);
                push_char(&mut line, '\n');
                KeyAction::SendLine(line)
            },
            (Key::Backspace, _) => {
                let _ = pop_char(&mut self.input);
                KeyAction::Stay
            },
            (Key::Char(c), KeyModifier::Plain) => {
                push_char(&mut self.input, c);
                KeyAction::Stay
            },
            (Key::Char(c), KeyModifier::Shifted) => {
                push_char(&mut self.input, c);
                KeyAction::Stay
            },
            _ => KeyAction::Stay,
        }
    }

    /// Appends pasted text to the input line.
    pub fn handle_paste(&mut self, pasted: &str)
        ensures
            final(self).input@ == old(self).input@ + pasted@,
            final(self).output == old(self).output,
            final(self).shell_name == old(self).shell_name,
            final(self).shell_exited == old(self).shell_exited,
    {
        self.input.append(pasted);
    }

    /// Applies one observation of the output channel. A chunk feeds the
    /// buffer; a closed channel only marks the session exited — it never by
    /// itself ends the loop.
    pub fn apply_output_event(&mut self, event: OutputEvent)
        requires
            old(self).output.wf(),
        ensures
            final(self).input == old(self).input,
            final(self).shell_name == old(self).shell_name,
            final(self).output.max_lines == old(self).output.max_lines,
            final(self).output.wf(),
            event matches OutputEvent::Chunk(bytes) ==> final(self).output.state() == ingest(
                old(self).output.state(),
                decoded_lossy(bytes@),
                old(self).output.max_lines as nat,
            ) && final(self).shell_exited == old(self).shell_exited,
            event is Closed ==> final(self).output == old(self).output && final(self).shell_exited
                == true,
    {
        match event {
            OutputEvent::Chunk(bytes) => {
                self.output.push_bytes(bytes.as_slice());
            },
            OutputEvent::Closed => {
                self.shell_exited = true;
            },
        }
    }
}

/// Whether the loop must resize the session this tick: the pane has a
/// nonzero size that differs from the last size applied.
pub fn should_resize(last_cols: u16, last_rows: u16, cols: u16, rows: u16) -> (r: bool)
    ensures
        r == (cols > 0 && rows > 0 && (cols != last_cols || rows != last_rows)),
{
    cols > 0 && rows > 0 && (cols != last_cols || rows != last_rows)
}

/// The last `max_chars` characters of `input`; the whole string when it is
/// short enough, and empty when `max_chars` is zero.
pub open spec fn spec_tail_chars(s: Seq<char>, max_chars: nat) -> Seq<char> {
    if max_chars == 0 {
        Seq::empty()
    } else if s.len() <= max_chars {
        s
    } else {
        s.skip(s.len() - max_chars)
    }
}

/// The tail of the input line that fits the visible width.
pub fn tail_chars(input: &str, max_chars: usize) -> (r: String)
    ensures
        r@ == spec_tail_chars(input@, max_chars as nat),
{
    if max_chars == 0 {
        return String::new();
    }
    let chars = str_chars(input);
    let n = chars.len();
    if n <= max_chars {
        return String::from_str(input);
    }
    let start = n - max_chars;
    let mut out = String::new();
    for i in start..n
        invariant
            start <= i <= n,
            n == chars@.len(),
            chars@ == input@,
            out@ =~= input@.subrange(start as int, i as int),
    {
        push_char(&mut out, chars[i]);
        proof {
            assert(input@.subrange(start as int, i + 1) =~= input@.subrange(
                start as int,
                i as int,
            ).push(input@[i as int]));
        }
    }
    proof {
        assert(out@ =~= input@.skip(start as int));
    }
    out
}

} // verus!
