use ilonhro::buffer::OutputBuffer;

#[test]
fn push_plain_text_then_render_returns_it() {
    let mut b = OutputBuffer::new(10);
    b.push_text("hello");
    assert_eq!(b.render_text(3), "hello");
    assert_eq!(b.render_text(1), "hello");
}

#[test]
fn newline_commits_carry() {
    let mut b = OutputBuffer::new(10);
    b.push_bytes(b"hi\nwo");
    assert_eq!(b.lines.len(), 1);
    assert_eq!(b.lines[0], "hi");
    assert_eq!(b.carry, "wo");
    assert_eq!(b.render_text(5), "hi\nwo");
}

#[test]
fn carriage_return_commits_carry() {
    let mut b = OutputBuffer::new(10);
    b.push_text("ab\rcd");
    assert_eq!(b.lines.len(), 1);
    assert_eq!(b.lines[0], "ab");
    assert_eq!(b.carry, "cd");
}

#[test]
fn backspace_on_empty_carry_is_noop() {
    let mut b = OutputBuffer::new(10);
    b.push_text("\u{8}");
    assert_eq!(b.lines.len(), 0);
    assert_eq!(b.carry, "");
    assert_eq!(b.render_text(5), "");
}

#[test]
fn backspace_removes_last_carry_char() {
    let mut b = OutputBuffer::new(10);
    b.push_text("ab\u{8}");
    assert_eq!(b.carry, "a");
}

#[test]
fn other_control_chars_are_dropped() {
    let mut b = OutputBuffer::new(10);
    b.push_text("a\u{7}b\u{1}c");
    assert_eq!(b.carry, "abc");
}

#[test]
fn eviction_drops_oldest_first() {
    let mut b = OutputBuffer::new(2);
    b.push_line(String::from("a"));
    b.push_line(String::from("b"));
    b.push_line(String::from("c"));
    assert_eq!(b.lines, vec!["b".to_string(), "c".to_string()]);
}

#[test]
fn line_count_never_exceeds_maximum() {
    let mut b = OutputBuffer::new(3);
    for i in 0..20 {
        b.push_bytes(format!("line {}\n", i).as_bytes());
        assert!(b.lines.len() <= 3);
    }
    assert_eq!(
        b.lines,
        vec!["line 17".to_string(), "line 18".to_string(), "line 19".to_string()]
    );
}

#[test]
fn render_with_zero_height_is_empty() {
    let mut b = OutputBuffer::new(10);
    b.push_text("something\nmore");
    assert_eq!(b.render_text(0), "");
}

#[test]
fn render_of_empty_buffer_is_empty() {
    let b = OutputBuffer::new(10);
    assert_eq!(b.render_text(4), "");
}

#[test]
fn render_keeps_only_the_tail() {
    let mut b = OutputBuffer::new(10);
    b.push_bytes(b"one\ntwo\nthree\n");
    assert_eq!(b.render_text(2), "two\nthree");
    assert_eq!(b.render_text(10), "one\ntwo\nthree");
}

#[test]
fn invalid_utf8_decodes_to_replacement_chars() {
    let mut b = OutputBuffer::new(10);
    b.push_bytes(&[0xff, 0xfe, b'\n']);
    assert_eq!(b.lines.len(), 1);
    assert_eq!(b.lines[0], "\u{fffd}\u{fffd}");
}
