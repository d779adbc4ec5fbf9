use vstd::prelude::*;

use crate::connection::{Delivery, DeliveryView, delivery_result_view};
use crate::frame::{Frame, FrameError, FrameView};

verus! {

/// What the server does after one read of a connection.
#[derive(Debug, Clone, PartialEq, Eq)]
pub enum Reaction {
    /// Write this reply, then read the next message.
    Reply(Frame),
    /// Nothing complete arrived: read again.
    ReadAgain,
    /// The connection ends now: release it.
    Close,
    /// The connection has already been closed: do nothing.
    Done,
}

pub enum ReactionView {
    Reply(FrameView),
    ReadAgain,
    Close,
    Done,
}

impl View for Reaction {
    type V = ReactionView;

    open spec fn view(&self) -> ReactionView {
        match self {
            Reaction::Reply(f) => ReactionView::Reply(f@),
            Reaction::ReadAgain => ReactionView::ReadAgain,
            Reaction::Close => ReactionView::Close,
            Reaction::Done => ReactionView::Done,
        }
    }
}

/// Whether a read outcome ends an active connection: a `Disconnect` message, a
/// clean end of stream, or any error.
pub open spec fn ends_session(o: Result<DeliveryView, FrameError>) -> bool {
    match o {
        Ok(DeliveryView::Message(FrameView::Disconnect)) => true,
        Ok(DeliveryView::Message(_)) => false,
        Ok(DeliveryView::Pending) => false,
        Ok(DeliveryView::EndOfStream) => true,
        Err(_) => true,
    }
}

/// One step of the server's per-connection state machine: from whether the
/// connection is closed and a read outcome, to whether it is closed next and
/// what to do. Every other message gets one `Ping` in reply.
pub open spec fn session_step(closed: bool, o: Result<DeliveryView, FrameError>) -> (bool, ReactionView) {
    if closed {
        (true, ReactionView::Done)
    } else if ends_session(o) {
        (true, ReactionView::Close)
    } else if o matches Ok(DeliveryView::Message(_)) {
        (false, ReactionView::Reply(FrameView::Ping))
    } else {
        (false, ReactionView::ReadAgain)
    }
}

/// The server's state for one connection: active until it is closed, and
/// closed for good.
pub struct Session {
    closed: bool,
}

impl Session {
    /// A session of a newly accepted connection.
    pub fn new() -> (r: Session)
        ensures
            !r.is_closed_spec(),
    {
        Session { closed: false }
    }

    pub closed spec fn is_closed_spec(&self) -> bool {
        self.closed
    }

    pub fn is_closed(&self) -> (r: bool)
        ensures
            r == self.is_closed_spec(),
    {
        self.closed
    }

    /// Decides what to do with the outcome of one read.
    pub fn handle(&mut self, outcome: &Result<Delivery, FrameError>) -> (r: Reaction)
        ensures
            final(self).is_closed_spec() == session_step(old(self).is_closed_spec(), delivery_result_view(*outcome)).0,
            r@ == session_step(old(self).is_closed_spec(), delivery_result_view(*outcome)).1,
    {
        if self.closed {
            return Reaction::Done;
        }
        match outcome {
            Ok(Delivery::Message(Frame::Disconnect)) => {
                self.closed = true;
                Reaction::Close
            },
            Ok(Delivery::Message(_)) => Reaction::Reply(Frame::Ping),
            Ok(Delivery::Pending) => Reaction::ReadAgain,
            Ok(Delivery::EndOfStream) => {
                self.closed = true;
                Reaction::Close
            },
            Err(_) => {
                self.closed = true;
                Reaction::Close
            },
        }
    }
}

} // verus!
