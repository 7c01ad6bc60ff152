//! Decision logic of the remote bridge server.
//!
//! The server side of a connection runs three loops: an output pump that
//! forwards session output as binary frames, a writer pump that performs
//! the transport writes, and the main loop over inbound frames. The loops
//! and the transport live with the caller; this module decides what each
//! inbound frame means.

use vstd::prelude::*;

verus! {

use crate::codec::{classify_frame, spec_classify, FrameClass};
use vstd::string::StrSliceExecFns;

/// Process-wide configuration, immutable after startup and shared read-only
/// across connections.
pub struct ServerConfig {
    /// The shared-secret token; absent in open mode.
    pub token: Option<String>,
    /// The shell every connection's session launches.
    pub shell: String,
}

impl ServerConfig {
    /// Whether the server runs in open mode: no token configured, every
    /// connection accepted. Surfaced to the operator as a startup warning.
    pub fn open_mode(&self) -> (r: bool)
        ensures
            r == (self.token is None),
    {
        self.token.is_none()
    }
}

/// One inbound transport frame, as the main per-connection loop sees it.
pub enum InboundFrame {
    Text(String),
    Binary(Vec<u8>),
    Ping(Vec<u8>),
    Pong,
    Close,
}

/// What the connection loop must do with one inbound frame.
#[derive(Clone, Debug, PartialEq, Eq)]
pub enum FrameRouting {
    /// Write these bytes to the session as literal input.
    Forward(Vec<u8>),
    /// Resize the session to this many columns and rows.
    Resize(u16, u16),
    /// Answer with a pong frame carrying this payload.
    ReplyPong(Vec<u8>),
    /// Nothing to do.
    Ignore,
    /// Leave the loop and tear the session down.
    Shutdown,
}

/// Routes one inbound frame. Text frames go through the control codec, so a
/// resize command — well-formed or not — is consumed and never forwarded;
/// binary frames are always literal input; a close frame ends the session.
pub fn route_frame(frame: InboundFrame) -> (r: FrameRouting)
    ensures
        frame matches InboundFrame::Text(t) ==> match spec_classify(t@) {
            FrameClass::Resize { cols, rows } => r == FrameRouting::Resize(cols, rows),
            FrameClass::Discard => r == FrameRouting::Ignore,
            FrameClass::Input => r matches FrameRouting::Forward(b) && b@
                == vstd::utf8::encode_utf8(t@),
        },
        frame matches InboundFrame::Binary(d) ==> r == FrameRouting::Forward(d),
        frame matches InboundFrame::Ping(p) ==> r == FrameRouting::ReplyPong(p),
        frame is Pong ==> r == FrameRouting::Ignore,
        frame is Close ==> r == FrameRouting::Shutdown,
{
    match frame {
        InboundFrame::Text(t) => match classify_frame(t.as_str()) {
            FrameClass::Resize { cols, rows } => FrameRouting::Resize(cols, rows),
            FrameClass::Discard => FrameRouting::Ignore,
            FrameClass::Input => FrameRouting::Forward(t.as_str().as_bytes_vec()),
        },
        InboundFrame::Binary(d) => FrameRouting::Forward(d),
        InboundFrame::Ping(p) => FrameRouting::ReplyPong(p),
        InboundFrame::Pong => FrameRouting::Ignore,
        InboundFrame::Close => FrameRouting::Shutdown,
    }
}

} // verus!
