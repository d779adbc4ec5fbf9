use vstd::prelude::*;

verus! {

/// One application message; each travels as one line of the wire format.
#[derive(Debug, Clone, PartialEq, Eq)]
#[allow(inconsistent_fields)]
pub enum Frame {
    Connect { id: String },
    Disconnect,
    Text { content: String },
    Binary { content: Vec<u8> },
    Ping,
    /// Acknowledgement; its tag on the wire is `Ok`.
    Ack,
}

/// The mathematical value of a `Frame`: its payloads as sequences.
#[allow(inconsistent_fields)]
pub enum FrameView {
    Connect { id: Seq<char> },
    Disconnect,
    Text { content: Seq<char> },
    Binary { content: Seq<u8> },
    Ping,
    /// Acknowledgement; its tag on the wire is `Ok`.
    Ack,
}

impl View for Frame {
    type V = FrameView;

    open spec fn view(&self) -> FrameView {
        match self {
            Frame::Connect { id } => FrameView::Connect { id: id@ },
            Frame::Disconnect => FrameView::Disconnect,
            Frame::Text { content } => FrameView::Text { content: content@ },
            Frame::Binary { content } => FrameView::Binary { content: content@ },
            Frame::Ping => FrameView::Ping,
            Frame::Ack => FrameView::Ack,
        }
    }
}

/// Why no message could be delivered.
#[derive(Debug, Clone, Copy, PartialEq, Eq, Structural)]
pub enum FrameError {
    /// A complete line was buffered but does not decode to a message.
    ParseError,
    /// The transport failed, or the peer closed the stream in the middle of a line.
    ReadError,
}

} // verus!
