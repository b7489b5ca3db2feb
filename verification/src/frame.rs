//! Frames: the messages of the channel between a client and the relay.

use vstd::prelude::*;

verus! {

/// The type of a frame.
#[derive(Clone, Copy, Debug, PartialEq, Eq, Structural)]
pub enum FrameKind {
    /// A text frame; its payload is the UTF-8 encoding of the text.
    Text,
    /// A binary frame.
    Binary,
    /// Any other frame of the channel (ping, pong, close).
    Control,
}

/// One frame, received from a client or to be sent to one.
#[derive(Debug, PartialEq, Eq)]
pub struct Frame {
    pub kind: FrameKind,
    pub payload: Vec<u8>,
}

impl Frame {
    /// A text frame with the given UTF-8 bytes.
    pub fn text(payload: Vec<u8>) -> (r: Frame)
        ensures
            r.kind == FrameKind::Text,
            r.payload == payload,
    {
        Frame { kind: FrameKind::Text, payload }
    }

    /// A binary frame with the given bytes.
    pub fn binary(payload: Vec<u8>) -> (r: Frame)
        ensures
            r.kind == FrameKind::Binary,
            r.payload == payload,
    {
        Frame { kind: FrameKind::Binary, payload }
    }

    /// A frame that is neither text nor binary; it carries nothing the
    /// relay reads.
    pub fn control() -> (r: Frame)
        ensures
            r.kind == FrameKind::Control,
            r.payload@ == Seq::<u8>::empty(),
    {
        Frame { kind: FrameKind::Control, payload: Vec::new() }
    }
}

impl Clone for Frame {
    fn clone(&self) -> (r: Frame)
        ensures
            r.kind == self.kind,
            r.payload@ == self.payload@,
    {
        let payload = self.payload.clone();
        assert(payload@ =~= self.payload@);
        Frame { kind: self.kind, payload }
    }
}

} // verus!
