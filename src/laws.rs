use vstd::prelude::*;

use crate::connection::{
    DeliveryView, ReadEventView, delivery_of, extract, has_delimiter, first_delimiter,
    is_first_delimiter, read_step,
};
use crate::frame::{FrameError, FrameView};
use crate::server::{ReactionView, session_step};
use crate::wire::{decoded_line, delimiter, no_delimiter};

verus! {

/// What extracting a complete line reports: its message, or a malformed frame.
pub open spec fn line_outcome(l: Seq<u8>) -> Result<Option<FrameView>, FrameError> {
    match decoded_line(l) {
        Some(m) => Ok(Some(m)),
        None => Err(FrameError::ParseError),
    }
}

/// Feeds chunks one read at a time, each followed by one extraction attempt;
/// gives what each read delivered and the accumulator afterwards.
pub open spec fn feed(buf: Seq<u8>, chunks: Seq<Seq<u8>>) -> (
    Seq<Result<DeliveryView, FrameError>>,
    Seq<u8>,
)
    decreases chunks.len(),
{
    if chunks.len() == 0 {
        (Seq::empty(), buf)
    } else {
        let step = read_step(buf, ReadEventView::Received(chunks[0]));
        let rest = feed(step.1, chunks.drop_first());
        (seq![step.0] + rest.0, rest.1)
    }
}

/// Extracting from a buffer that starts with a complete line consumes exactly
/// that line and its delimiter.
pub proof fn lemma_extract_line(l: Seq<u8>, rest: Seq<u8>)
    requires
        no_delimiter(l),
    ensures
        extract(l.push(delimiter()) + rest) == (line_outcome(l), rest),
{
    let buf = l.push(delimiter()) + rest;
    let p = l.len() as int;
    assert(buf[p] == delimiter());
    assert forall|i: int| 0 <= i < p implies buf[i] != delimiter() by {
        assert(buf[i] == l[i]);
    }
    assert(is_first_delimiter(buf, p));
    let q = first_delimiter(buf);
    assert(is_first_delimiter(buf, q));
    if q < p {
        assert(buf[q] != delimiter());
    }
    if p < q {
        assert(buf[p] != delimiter());
    }
    assert(buf.subrange(0, p) =~= l);
    assert(buf.subrange(p + 1, buf.len() as int) =~= rest);
}

/// With no delimiter buffered, an extraction attempt reports nothing and
/// changes nothing.
pub proof fn lemma_extract_incomplete(buf: Seq<u8>)
    requires
        no_delimiter(buf),
    ensures
        extract(buf) == (Ok::<Option<FrameView>, FrameError>(None), buf),
{
    if has_delimiter(buf) {
        let p = first_delimiter(buf);
        assert(is_first_delimiter(buf, p));
    }
}

/// Two lines appended in one read come out as two results of two successive
/// extractions, in order, with no read in between, and nothing is left.
pub proof fn lemma_pipelining(l1: Seq<u8>, l2: Seq<u8>)
    requires
        no_delimiter(l1),
        no_delimiter(l2),
    ensures
        read_step(Seq::empty(), ReadEventView::Received(l1.push(delimiter()) + l2.push(delimiter())))
            == (delivery_of(line_outcome(l1)), l2.push(delimiter())),
        extract(l2.push(delimiter())) == (line_outcome(l2), Seq::<u8>::empty()),
{
    let data = l1.push(delimiter()) + l2.push(delimiter());
    assert(Seq::<u8>::empty() + data =~= data);
    lemma_extract_line(l1, l2.push(delimiter()));
    lemma_extract_line(l2, Seq::empty());
    assert(l2.push(delimiter()) + Seq::<u8>::empty() =~= l2.push(delimiter()));
}

/// A malformed line followed by its delimiter is reported once as a parse error
/// and consumed: the accumulator is left empty, and a second attempt finds
/// nothing.
pub proof fn lemma_malformed_consumed(l: Seq<u8>)
    requires
        no_delimiter(l),
        decoded_line(l) is None,
    ensures
        extract(l.push(delimiter())) == (
            Err::<Option<FrameView>, FrameError>(FrameError::ParseError),
            Seq::<u8>::empty(),
        ),
        extract(Seq::<u8>::empty()) == (Ok::<Option<FrameView>, FrameError>(None), Seq::<u8>::empty()),
{
    lemma_extract_line(l, Seq::empty());
    assert(l.push(delimiter()) + Seq::<u8>::empty() =~= l.push(delimiter()));
    lemma_extract_incomplete(Seq::empty());
}

/// An unterminated fragment followed by the end of the stream is a read error,
/// not a clean end.
pub proof fn lemma_truncation_detected(fragment: Seq<u8>)
    requires
        fragment.len() > 0,
        no_delimiter(fragment),
    ensures
        read_step(Seq::empty(), ReadEventView::Received(fragment)) == (
            Ok::<DeliveryView, FrameError>(DeliveryView::Pending),
            fragment,
        ),
        read_step(fragment, ReadEventView::Received(Seq::empty())) == (
            Err::<DeliveryView, FrameError>(FrameError::ReadError),
            fragment,
        ),
{
    assert(Seq::<u8>::empty() + fragment =~= fragment);
    lemma_extract_incomplete(fragment);
}

/// The end of the stream with an empty accumulator is a clean end: no more
/// messages, and no error.
pub proof fn lemma_clean_close()
    ensures
        read_step(Seq::empty(), ReadEventView::Received(Seq::empty())) == (
            Ok::<DeliveryView, FrameError>(DeliveryView::EndOfStream),
            Seq::<u8>::empty(),
        ),
{
}

proof fn lemma_feed_line(buf: Seq<u8>, chunks: Seq<Seq<u8>>, l: Seq<u8>)
    requires
        no_delimiter(l),
        chunks.len() > 0,
        forall|k: int| 0 <= k < chunks.len() ==> (#[trigger] chunks[k]).len() > 0,
        buf + chunks.flatten() == l.push(delimiter()),
    ensures
        feed(buf, chunks).0.len() == chunks.len(),
        forall|k: int| 0 <= k < chunks.len() - 1 ==> #[trigger] feed(buf, chunks).0[k]
            == Ok::<DeliveryView, FrameError>(DeliveryView::Pending),
        feed(buf, chunks).0.last() == delivery_of(line_outcome(l)),
        feed(buf, chunks).1 == Seq::<u8>::empty(),
    decreases chunks.len(),
{
    let c = chunks[0];
    let rest = chunks.drop_first();
    let next = buf + c;
    assert(chunks.flatten() == c + rest.flatten());
    assert(next + rest.flatten() =~= l.push(delimiter()));
    assert(c.len() > 0);
    let step = read_step(buf, ReadEventView::Received(c));
    assert(step == (delivery_of(extract(next).0), extract(next).1));
    let outs = feed(buf, chunks).0;
    assert(outs == seq![step.0] + feed(step.1, rest).0);
    if rest.len() == 0 {
        assert(rest.flatten() =~= Seq::<u8>::empty());
        assert(next =~= l.push(delimiter()) + Seq::<u8>::empty());
        lemma_extract_line(l, Seq::empty());
        assert(extract(next).1 =~= Seq::<u8>::empty());
        assert(feed(step.1, rest).0 =~= Seq::<Result<DeliveryView, FrameError>>::empty());
        assert(outs =~= seq![step.0]);
    } else {
        assert(rest[0] == chunks[1]);
        assert(rest.flatten() == rest[0] + rest.drop_first().flatten());
        assert(rest.flatten().len() > 0);
        assert(next.len() <= l.len());
        assert forall|i: int| 0 <= i < next.len() implies next[i] != delimiter() by {
            assert(next[i] == (next + rest.flatten())[i]);
            assert(l.push(delimiter())[i] == l[i]);
        }
        lemma_extract_incomplete(next);
        assert forall|k: int| 0 <= k < rest.len() implies (#[trigger] rest[k]).len() > 0 by {
            assert(rest[k] == chunks[k + 1]);
        }
        lemma_feed_line(next, rest, l);
        assert(step.1 == next);
        assert(outs.last() == feed(next, rest).0.last());
        assert forall|k: int| 0 <= k < chunks.len() - 1 implies #[trigger] outs[k]
            == Ok::<DeliveryView, FrameError>(DeliveryView::Pending) by {
            if k > 0 {
                assert(outs[k] == feed(next, rest).0[k - 1]);
            }
        }
    }
}

/// However a line and its delimiter are split into non-empty chunks, feeding
/// them one read at a time delivers nothing until the last chunk, then the
/// line's outcome exactly once, and leaves the accumulator empty.
pub proof fn lemma_delimiter_independence(l: Seq<u8>, chunks: Seq<Seq<u8>>)
    requires
        no_delimiter(l),
        forall|k: int| 0 <= k < chunks.len() ==> (#[trigger] chunks[k]).len() > 0,
        chunks.flatten() == l.push(delimiter()),
    ensures
        feed(Seq::empty(), chunks).0.len() == chunks.len(),
        forall|k: int| 0 <= k < chunks.len() - 1 ==> #[trigger] feed(Seq::empty(), chunks).0[k]
            == Ok::<DeliveryView, FrameError>(DeliveryView::Pending),
        feed(Seq::empty(), chunks).0.last() == delivery_of(line_outcome(l)),
        feed(Seq::empty(), chunks).1 == Seq::<u8>::empty(),
{
    if chunks.len() == 0 {
        assert(chunks.flatten().len() == 0);
        assert(l.push(delimiter()).len() > 0);
    }
    assert(Seq::<u8>::empty() + chunks.flatten() =~= chunks.flatten());
    lemma_feed_line(Seq::empty(), chunks, l);
}

/// The reactions of a session to a sequence of read outcomes, starting from
/// `closed`.
pub open spec fn session_run(closed: bool, outcomes: Seq<Result<DeliveryView, FrameError>>) -> Seq<
    ReactionView,
>
    decreases outcomes.len(),
{
    if outcomes.len() == 0 {
        Seq::empty()
    } else {
        let step = session_step(closed, outcomes[0]);
        seq![step.1] + session_run(step.0, outcomes.drop_first())
    }
}

proof fn lemma_session_run_len(closed: bool, outcomes: Seq<Result<DeliveryView, FrameError>>)
    ensures
        session_run(closed, outcomes).len() == outcomes.len(),
    decreases outcomes.len(),
{
    if outcomes.len() > 0 {
        lemma_session_run_len(session_step(closed, outcomes[0]).0, outcomes.drop_first());
    }
}

/// A connection is released at most once: after the reaction that closes it,
/// every later reaction is to do nothing.
pub proof fn lemma_released_once(closed: bool, outcomes: Seq<Result<DeliveryView, FrameError>>, i: int, j: int)
    requires
        0 <= i < j < outcomes.len(),
        session_run(closed, outcomes)[i] == ReactionView::Close,
    ensures
        session_run(closed, outcomes)[j] == ReactionView::Done,
    decreases outcomes.len(),
{
    let step = session_step(closed, outcomes[0]);
    let rest = outcomes.drop_first();
    let run = session_run(closed, outcomes);
    assert(run == seq![step.1] + session_run(step.0, rest));
    lemma_session_run_len(step.0, rest);
    assert(run[j] == session_run(step.0, rest)[j - 1]);
    if i == 0 {
        assert(step.0);
        lemma_closed_stays_done(rest, j - 1);
    } else {
        assert(run[i] == session_run(step.0, rest)[i - 1]);
        lemma_released_once(step.0, rest, i - 1, j - 1);
    }
}

proof fn lemma_closed_stays_done(outcomes: Seq<Result<DeliveryView, FrameError>>, k: int)
    requires
        0 <= k < outcomes.len(),
    ensures
        session_run(true, outcomes)[k] == ReactionView::Done,
    decreases outcomes.len(),
{
    let run = session_run(true, outcomes);
    lemma_session_run_len(true, outcomes.drop_first());
    assert(run == seq![ReactionView::Done] + session_run(true, outcomes.drop_first()));
    if k > 0 {
        lemma_session_run_len(true, outcomes.drop_first());
        assert(run[k] == session_run(true, outcomes.drop_first())[k - 1]);
        lemma_closed_stays_done(outcomes.drop_first(), k - 1);
    }
}

} // verus!
