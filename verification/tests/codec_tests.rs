use ilonhro::codec::{classify_frame, FrameClass};
use ilonhro::server::{route_frame, FrameRouting, InboundFrame, ServerConfig};

#[test]
fn resize_frame_is_consumed() {
    assert_eq!(classify_frame("__RESIZE__ 80 24"), FrameClass::Resize { cols: 80, rows: 24 });
}

#[test]
fn malformed_resize_is_discarded_not_forwarded() {
    assert_eq!(classify_frame("__RESIZE__ abc 24"), FrameClass::Discard);
    assert_eq!(classify_frame("__RESIZE__ 80"), FrameClass::Discard);
    assert_eq!(classify_frame("__RESIZE__"), FrameClass::Discard);
}

#[test]
fn plain_text_is_input() {
    assert_eq!(classify_frame("ls -la\n"), FrameClass::Input);
    assert_eq!(classify_frame(""), FrameClass::Input);
    assert_eq!(classify_frame("resize 80 24"), FrameClass::Input);
}

#[test]
fn frame_is_trimmed_before_matching() {
    assert_eq!(
        classify_frame("  __RESIZE__ 100 40  \n"),
        FrameClass::Resize { cols: 100, rows: 40 }
    );
}

#[test]
fn sentinel_needs_no_space_before_numbers() {
    assert_eq!(classify_frame("__RESIZE__80 24"), FrameClass::Resize { cols: 80, rows: 24 });
}

#[test]
fn out_of_range_numbers_are_discarded() {
    assert_eq!(classify_frame("__RESIZE__ 99999999 24"), FrameClass::Discard);
    assert_eq!(classify_frame("__RESIZE__ 80 65536"), FrameClass::Discard);
}

#[test]
fn boundary_and_signed_numbers() {
    assert_eq!(
        classify_frame("__RESIZE__ 65535 1"),
        FrameClass::Resize { cols: 65535, rows: 1 }
    );
    assert_eq!(classify_frame("__RESIZE__ +80 24"), FrameClass::Resize { cols: 80, rows: 24 });
    assert_eq!(classify_frame("__RESIZE__ -80 24"), FrameClass::Discard);
}

#[test]
fn extra_tokens_are_ignored() {
    assert_eq!(
        classify_frame("__RESIZE__ 80 24 99"),
        FrameClass::Resize { cols: 80, rows: 24 }
    );
}

#[test]
fn text_resize_routes_to_resize() {
    let r = route_frame(InboundFrame::Text("__RESIZE__ 80 24".to_string()));
    assert_eq!(r, FrameRouting::Resize(80, 24));
}

#[test]
fn text_malformed_resize_routes_to_ignore() {
    let r = route_frame(InboundFrame::Text("__RESIZE__ abc 24".to_string()));
    assert_eq!(r, FrameRouting::Ignore);
}

#[test]
fn text_input_routes_to_forward_bytes() {
    let r = route_frame(InboundFrame::Text("echo hi\n".to_string()));
    assert_eq!(r, FrameRouting::Forward(b"echo hi\n".to_vec()));
}

#[test]
fn binary_always_forwards() {
    let r = route_frame(InboundFrame::Binary(b"__RESIZE__ 80 24".to_vec()));
    assert_eq!(r, FrameRouting::Forward(b"__RESIZE__ 80 24".to_vec()));
}

#[test]
fn ping_routes_to_pong_with_payload() {
    let r = route_frame(InboundFrame::Ping(vec![1, 2, 3]));
    assert_eq!(r, FrameRouting::ReplyPong(vec![1, 2, 3]));
}

#[test]
fn pong_is_ignored_and_close_shuts_down() {
    assert_eq!(route_frame(InboundFrame::Pong), FrameRouting::Ignore);
    assert_eq!(route_frame(InboundFrame::Close), FrameRouting::Shutdown);
}

#[test]
fn open_mode_means_no_token() {
    let open = ServerConfig { token: None, shell: "/bin/sh".to_string() };
    let closed = ServerConfig { token: Some("t".to_string()), shell: "/bin/sh".to_string() };
    assert!(open.open_mode());
    assert!(!closed.open_mode());
}
