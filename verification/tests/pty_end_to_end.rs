use ilonhro::buffer::OutputBuffer;
use portable_pty::{native_pty_system, CommandBuilder, PtySize};
use std::io::{Read, Write};

#[test]
fn echo_shell_round_trip() {
    let pty_system = native_pty_system();
    let pair = pty_system
        .openpty(PtySize { rows: 24, cols: 80, pixel_width: 0, pixel_height: 0 })
        .expect("open pty");
    let mut cmd = CommandBuilder::new("/bin/sh");
    cmd.env("PS1", "");
    let mut child = pair.slave.spawn_command(cmd).expect("spawn shell");
    drop(pair.slave);
    let mut reader = pair.master.try_clone_reader().expect("pty reader");
    let mut writer = pair.master.take_writer().expect("pty writer");

    writer.write_all(b"echo hi\nexit\n").expect("send input");
    writer.flush().expect("flush");

    let mut buffer = OutputBuffer::new(100);
    let mut chunk = [0u8; 4096];
    loop {
        match reader.read(&mut chunk) {
            Ok(0) => break,
            Ok(n) => buffer.push_bytes(&chunk[..n]),
            Err(_) => break,
        }
    }
    child.wait().expect("reap child");
    assert!(
        buffer.lines.iter().any(|l| l == "hi"),
        "no completed line equals \"hi\": {:?}",
        buffer.lines
    );
}

#[test]
fn child_exit_ends_the_stream_and_is_reaped() {
    let pty_system = native_pty_system();
    let pair = pty_system
        .openpty(PtySize { rows: 24, cols: 80, pixel_width: 0, pixel_height: 0 })
        .expect("open pty");
    let cmd = CommandBuilder::new("/bin/sh");
    let mut child = pair.slave.spawn_command(cmd).expect("spawn shell");
    drop(pair.slave);
    let mut reader = pair.master.try_clone_reader().expect("pty reader");
    let mut writer = pair.master.take_writer().expect("pty writer");

    writer.write_all(b"exit\n").expect("send input");
    writer.flush().expect("flush");

    // The read side must observe end-of-stream once the child exits, and
    // reaping must not hang; the teardown order of the sessions relies on
    // both.
    let mut chunk = [0u8; 4096];
    loop {
        match reader.read(&mut chunk) {
            Ok(0) => break,
            Ok(_) => {},
            Err(_) => break,
        }
    }
    let _ = child.kill();
    child.wait().expect("reap child");
}
