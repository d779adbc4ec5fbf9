use vstd::prelude::*;

use crate::frame::{Frame, FrameError, FrameView};
use crate::wire::{decode_frame, decoded_line, delimiter, frame_option_view};

verus! {

#[verifier::external_type_specification]
#[verifier::external_body]
pub struct ExBytesMut(bytes::BytesMut);

/// The bytes that a `BytesMut` holds.
pub uninterp spec fn buffered(b: bytes::BytesMut) -> Seq<u8>;

/// Relies on BytesMut::new: a new buffer is empty.
#[verifier::external_body]
fn buffer_new() -> (r: bytes::BytesMut)
    ensures
        buffered(r) == Seq::<u8>::empty(),
{
    bytes::BytesMut::new()
}

/// Relies on BytesMut::extend_from_slice: the bytes are appended at the end.
#[verifier::external_body]
fn buffer_extend(b: &mut bytes::BytesMut, data: &[u8])
    ensures
        buffered(*final(b)) == buffered(*old(b)) + data@,
{
    b.extend_from_slice(data)
}

/// Relies on BytesMut::split_to: the first `at` bytes are handed out and the
/// rest stay; it panics only where `at` exceeds the length.
#[verifier::external_body]
fn buffer_split_to(b: &mut bytes::BytesMut, at: usize) -> (r: bytes::BytesMut)
    requires
        at <= buffered(*old(b)).len(),
    ensures
        buffered(r) == buffered(*old(b)).subrange(0, at as int),
        buffered(*final(b)) == buffered(*old(b)).subrange(at as int, buffered(*old(b)).len() as int),
{
    b.split_to(at)
}

/// Relies on BytesMut's `Deref` to `[u8]`: the slice of the bytes it holds.
#[verifier::external_body]
fn buffer_bytes(b: &bytes::BytesMut) -> (r: &[u8])
    ensures
        r@ == buffered(*b),
{
    b
}

/// Whether `p` is the position of the first delimiter in `s`.
pub open spec fn is_first_delimiter(s: Seq<u8>, p: int) -> bool {
    &&& 0 <= p < s.len()
    &&& s[p] == delimiter()
    &&& forall|i: int| 0 <= i < p ==> s[i] != delimiter()
}

pub open spec fn has_delimiter(s: Seq<u8>) -> bool {
    exists|p: int| is_first_delimiter(s, p)
}

pub open spec fn first_delimiter(s: Seq<u8>) -> int {
    choose|p: int| is_first_delimiter(s, p)
}

/// What one extraction attempt reports on an accumulator, and what is left in it.
/// With no delimiter buffered nothing changes; otherwise the first line and its
/// delimiter are consumed, and the line decodes to a message or is malformed.
pub open spec fn extract(buf: Seq<u8>) -> (Result<Option<FrameView>, FrameError>, Seq<u8>) {
    if has_delimiter(buf) {
        let p = first_delimiter(buf);
        let outcome = match decoded_line(buf.subrange(0, p)) {
            Some(m) => Ok(Some(m)),
            None => Err(FrameError::ParseError),
        };
        (outcome, buf.subrange(p + 1, buf.len() as int))
    } else {
        (Ok(None), buf)
    }
}

pub open spec fn frame_result_view(r: Result<Option<Frame>, FrameError>) -> Result<
    Option<FrameView>,
    FrameError,
> {
    match r {
        Ok(f) => Ok(frame_option_view(f)),
        Err(e) => Err(e),
    }
}

proof fn lemma_first_delimiter_unique(s: Seq<u8>, p: int)
    requires
        is_first_delimiter(s, p),
    ensures
        has_delimiter(s),
        first_delimiter(s) == p,
{
    let q = first_delimiter(s);
    assert(is_first_delimiter(s, q));
    if q < p {
        assert(s[q] != delimiter());
    }
    if p < q {
        assert(s[p] != delimiter());
    }
}

/// What one read from the transport gave: the bytes read (none when the peer
/// has closed the stream), or a transport failure.
#[derive(Debug, Clone, PartialEq, Eq)]
pub enum ReadEvent {
    Received(Vec<u8>),
    Failed,
}

pub enum ReadEventView {
    Received(Seq<u8>),
    Failed,
}

impl View for ReadEvent {
    type V = ReadEventView;

    open spec fn view(&self) -> ReadEventView {
        match self {
            ReadEvent::Received(d) => ReadEventView::Received(d@),
            ReadEvent::Failed => ReadEventView::Failed,
        }
    }
}

/// What a read of the next message delivers when it does not fail.
#[derive(Debug, Clone, PartialEq, Eq)]
pub enum Delivery {
    /// The next message of the stream.
    Message(Frame),
    /// No complete line yet: read again.
    Pending,
    /// The peer closed the stream between two messages: no more messages.
    EndOfStream,
}

pub enum DeliveryView {
    Message(FrameView),
    Pending,
    EndOfStream,
}

impl View for Delivery {
    type V = DeliveryView;

    open spec fn view(&self) -> DeliveryView {
        match self {
            Delivery::Message(f) => DeliveryView::Message(f@),
            Delivery::Pending => DeliveryView::Pending,
            Delivery::EndOfStream => DeliveryView::EndOfStream,
        }
    }
}

pub open spec fn delivery_result_view(r: Result<Delivery, FrameError>) -> Result<DeliveryView, FrameError> {
    match r {
        Ok(d) => Ok(d@),
        Err(e) => Err(e),
    }
}

/// An extraction outcome as a delivery: no message yet means read again.
pub open spec fn delivery_of(o: Result<Option<FrameView>, FrameError>) -> Result<DeliveryView, FrameError> {
    match o {
        Ok(Some(m)) => Ok(DeliveryView::Message(m)),
        Ok(None) => Ok(DeliveryView::Pending),
        Err(e) => Err(e),
    }
}

/// What a read event does to an accumulator that held no complete line, and
/// what is delivered. Bytes are appended and one extraction is attempted. A
/// closed stream is a clean end with an empty accumulator and a truncated line
/// otherwise. A transport failure is fatal only with nothing buffered.
pub open spec fn read_step(buf: Seq<u8>, ev: ReadEventView) -> (Result<DeliveryView, FrameError>, Seq<u8>) {
    match ev {
        ReadEventView::Received(d) => if d.len() == 0 {
            if buf.len() == 0 {
                (Ok(DeliveryView::EndOfStream), buf)
            } else {
                (Err(FrameError::ReadError), buf)
            }
        } else {
            (delivery_of(extract(buf + d).0), extract(buf + d).1)
        },
        ReadEventView::Failed => if buf.len() == 0 {
            (Err(FrameError::ReadError), buf)
        } else {
            (Ok(DeliveryView::Pending), buf)
        },
    }
}

/// The codec state of one connection: the bytes received and not yet consumed.
pub struct Connection {
    buffer: bytes::BytesMut,
}

impl View for Connection {
    type V = Seq<u8>;

    closed spec fn view(&self) -> Seq<u8> {
        buffered(self.buffer)
    }
}

impl Connection {
    /// A connection with an empty accumulator.
    pub fn new() -> (r: Connection)
        ensures
            r@ == Seq::<u8>::empty(),
    {
        Connection { buffer: buffer_new() }
    }

    /// Appends received bytes to the accumulator; nothing is parsed.
    pub fn append(&mut self, data: &[u8])
        ensures
            final(self)@ == old(self)@ + data@,
    {
        buffer_extend(&mut self.buffer, data);
    }

    /// Whether the accumulator holds no bytes.
    pub fn is_empty(&self) -> (r: bool)
        ensures
            r == (self@.len() == 0),
    {
        buffer_bytes(&self.buffer).len() == 0
    }

    /// Tries to take one message out of the accumulator, without any I/O.
    pub fn parse_frame(&mut self) -> (r: Result<Option<Frame>, FrameError>)
        ensures
            frame_result_view(r) == extract(old(self)@).0,
            final(self)@ == extract(old(self)@).1,
    {
        let bytes = buffer_bytes(&self.buffer);
        let n = bytes.len();
        let mut i: usize = 0;
        while i < n && bytes[i] != 10u8
            invariant
                n == bytes@.len(),
                bytes@ == self@,
                0 <= i <= n,
                forall|j: int| 0 <= j < i ==> bytes@[j] != delimiter(),
            decreases n - i,
        {
            i = i + 1;
        }
        if i == n {
            proof {
                if has_delimiter(self@) {
                    let p = first_delimiter(self@);
                    assert(is_first_delimiter(self@, p));
                }
            }
            return Ok(None);
        }
        proof {
            lemma_first_delimiter_unique(self@, i as int);
        }
        let mut line = buffer_split_to(&mut self.buffer, i + 1);
        let text = buffer_split_to(&mut line, i);
        proof {
            assert(buffered(text) =~= old(self)@.subrange(0, i as int));
        }
        let decoded = decode_frame(buffer_bytes(&text));
        match decoded {
            Some(f) => Ok(Some(f)),
            None => Err(FrameError::ParseError),
        }
    }

    /// The first step of reading a message: deliver what is already buffered,
    /// without I/O. `None` means that no complete line is buffered and the
    /// transport must be read; the accumulator is then unchanged.
    pub fn poll_buffered(&mut self) -> (r: Option<Result<Delivery, FrameError>>)
        ensures
            extract(old(self)@).0 is Ok && extract(old(self)@).0->Ok_0 is None ==> r is None,
            !(extract(old(self)@).0 is Ok && extract(old(self)@).0->Ok_0 is None) ==> r is Some
                && delivery_result_view(r->Some_0) == delivery_of(extract(old(self)@).0),
            final(self)@ == extract(old(self)@).1,
    {
        match self.parse_frame() {
            Ok(Some(f)) => Some(Ok(Delivery::Message(f))),
            Ok(None) => None,
            Err(e) => Some(Err(e)),
        }
    }

    /// The second step of reading a message, after `poll_buffered` found no
    /// complete line: takes in what one read from the transport gave.
    pub fn after_read(&mut self, ev: ReadEvent) -> (r: Result<Delivery, FrameError>)
        ensures
            delivery_result_view(r) == read_step(old(self)@, ev@).0,
            final(self)@ == read_step(old(self)@, ev@).1,
    {
        match ev {
            ReadEvent::Received(d) => {
                if d.len() == 0 {
                    if self.is_empty() {
                        Ok(Delivery::EndOfStream)
                    } else {
                        Err(FrameError::ReadError)
                    }
                } else {
                    self.append(d.as_slice());
                    match self.parse_frame() {
                        Ok(Some(f)) => Ok(Delivery::Message(f)),
                        Ok(None) => Ok(Delivery::Pending),
                        Err(e) => Err(e),
                    }
                }
            },
            ReadEvent::Failed => {
                if self.is_empty() {
                    Err(FrameError::ReadError)
                } else {
                    Ok(Delivery::Pending)
                }
            },
        }
    }
}

} // verus!
