//! What each step of a sink does, field by field and byte by byte.

use vstd::prelude::*;

use crate::error::PaddingError;
use crate::frame;
use crate::sink::{ContextView, FlushStep, SinkState, StepView};

verus! {

/// Once the end was requested a write is refused. Nothing else changes.
pub proof fn law_begin_refuses_after_eof(sink: SinkState, data: Seq<u8>, padding_size: u8)
    requires
        sink.eof_pending,
    ensures
        ({
            let (after, step) = sink.begin_write(data, padding_size);
            &&& step == StepView::Refuse(PaddingError::WriteAfterEof)
            &&& after.pending == sink.pending
            &&& after.encoded_frames == sink.encoded_frames
            &&& after.eof_pending
            &&& after.eof_sent == sink.eof_sent
        }),
{
}

/// A pending frame is offered before the data of a write is looked at.
pub proof fn law_begin_offers_pending_frame(sink: SinkState, data: Seq<u8>, padding_size: u8)
    requires
        !sink.eof_pending,
        sink.pending.len() > 0,
    ensures
        ({
            let (after, step) = sink.begin_write(data, padding_size);
            &&& step matches StepView::Offer { bytes, context }
            &&& bytes == sink.pending
            &&& context == ContextView::Undecided(data)
            &&& after.pending.len() == 0
            &&& after.encoded_frames == sink.encoded_frames
            &&& !after.eof_pending
            &&& after.eof_sent == sink.eof_sent
        }),
{
}

/// With nothing pending, a write makes a record of as much data as fits, while
/// fewer than eight were made.
pub proof fn law_begin_makes_record(sink: SinkState, data: Seq<u8>, padding_size: u8)
    requires
        !sink.eof_pending,
        sink.pending.len() == 0,
        sink.encoded_frames < 8,
        data.len() > 0,
    ensures
        ({
            let (after, step) = sink.begin_write(data, padding_size);
            let size: int = if data.len() <= 65535 {
                data.len() as int
            } else {
                65535
            };
            &&& step matches StepView::Offer { bytes, context }
            &&& context == ContextView::Framed(data.skip(size))
            &&& bytes.len() == 3 + size + padding_size
            &&& bytes[0] * 256 + bytes[1] == size
            &&& bytes[2] == padding_size
            &&& bytes.subrange(3, 3 + size) == data.take(size)
            &&& forall|i: int| 3 + size <= i < bytes.len() ==> #[trigger] bytes[i] == 0
            &&& after.pending.len() == 0
            &&& after.encoded_frames == sink.encoded_frames + 1
            &&& !after.eof_pending
            &&& after.eof_sent == sink.eof_sent
        }),
{
    frame::law_frame_layout(data.take(crate::sink::record_size(data)), padding_size);
}

/// With nothing pending, the data of a write is offered as it is, once eight
/// records were made, or when it is empty.
pub proof fn law_begin_forwards_data(sink: SinkState, data: Seq<u8>, padding_size: u8)
    requires
        !sink.eof_pending,
        sink.pending.len() == 0,
        sink.encoded_frames >= 8 || data.len() == 0,
    ensures
        ({
            let (after, step) = sink.begin_write(data, padding_size);
            &&& step == StepView::Forward(data)
            &&& after.pending.len() == 0
            &&& after.encoded_frames == sink.encoded_frames
            &&& !after.eof_pending
            &&& after.eof_sent == sink.eof_sent
        }),
{
}

/// What is not taken of a new record stays pending, and the write is over.
pub proof fn law_resume_ends_after_record(
    sink: SinkState,
    tail: Seq<u8>,
    rest: Seq<u8>,
    padding_size: u8,
)
    ensures
        ({
            let (after, step) = sink.resume_write(ContextView::Framed(tail), rest, padding_size);
            &&& step == StepView::Return(tail)
            &&& after.pending == rest
            &&& after.encoded_frames == sink.encoded_frames
            &&& after.eof_pending == sink.eof_pending
            &&& after.eof_sent == sink.eof_sent
        }),
{
}

/// While some of an earlier frame is not taken, no data is accepted.
pub proof fn law_resume_waits_for_earlier_frame(
    sink: SinkState,
    data: Seq<u8>,
    rest: Seq<u8>,
    padding_size: u8,
)
    requires
        rest.len() > 0,
    ensures
        ({
            let (after, step) = sink.resume_write(ContextView::Undecided(data), rest, padding_size);
            &&& step == StepView::Return(data)
            &&& after.pending == rest
            &&& after.encoded_frames == sink.encoded_frames
            &&& after.eof_pending == sink.eof_pending
            &&& after.eof_sent == sink.eof_sent
        }),
{
}

/// Once an earlier frame is taken whole, a write makes a record of as much data
/// as fits, while fewer than eight were made.
pub proof fn law_resume_makes_record(sink: SinkState, data: Seq<u8>, padding_size: u8)
    requires
        sink.encoded_frames < 8,
        data.len() > 0,
    ensures
        ({
            let (after, step) = sink.resume_write(
                ContextView::Undecided(data),
                Seq::empty(),
                padding_size,
            );
            let size: int = if data.len() <= 65535 {
                data.len() as int
            } else {
                65535
            };
            &&& step matches StepView::Offer { bytes, context }
            &&& context == ContextView::Framed(data.skip(size))
            &&& bytes.len() == 3 + size + padding_size
            &&& bytes[0] * 256 + bytes[1] == size
            &&& bytes[2] == padding_size
            &&& bytes.subrange(3, 3 + size) == data.take(size)
            &&& forall|i: int| 3 + size <= i < bytes.len() ==> #[trigger] bytes[i] == 0
            &&& after.pending.len() == 0
            &&& after.encoded_frames == sink.encoded_frames + 1
            &&& after.eof_pending == sink.eof_pending
            &&& after.eof_sent == sink.eof_sent
        }),
{
    frame::law_frame_layout(data.take(crate::sink::record_size(data)), padding_size);
}

/// Once an earlier frame is taken whole, the data of a write is offered as it
/// is, once eight records were made, or when it is empty.
pub proof fn law_resume_forwards_data(sink: SinkState, data: Seq<u8>, padding_size: u8)
    requires
        sink.encoded_frames >= 8 || data.len() == 0,
    ensures
        ({
            let (after, step) = sink.resume_write(
                ContextView::Undecided(data),
                Seq::empty(),
                padding_size,
            );
            &&& step == StepView::Forward(data)
            &&& after.pending.len() == 0
            &&& after.encoded_frames == sink.encoded_frames
            &&& after.eof_pending == sink.eof_pending
            &&& after.eof_sent == sink.eof_sent
        }),
{
}

/// To take the pending bytes out, or to put others in, changes nothing else.
pub proof fn law_only_pending_bytes_change(sink: SinkState, pending: Seq<u8>)
    ensures
        sink.with_pending(pending).pending == pending,
        sink.with_pending(pending).encoded_frames == sink.encoded_frames,
        sink.with_pending(pending).eof_pending == sink.eof_pending,
        sink.with_pending(pending).eof_sent == sink.eof_sent,
{
}

/// A request for the end is noted, whatever was written before, and changes
/// nothing else.
pub proof fn law_eof_request_is_noted(sink: SinkState)
    ensures
        sink.request_eof().eof_pending,
        sink.request_eof().pending == sink.pending,
        sink.request_eof().encoded_frames == sink.encoded_frames,
        sink.request_eof().eof_sent == sink.eof_sent,
{
}

/// That the end was forwarded is noted, and changes nothing else.
pub proof fn law_forwarded_eof_is_noted(sink: SinkState)
    ensures
        sink.forward_eof().eof_sent,
        sink.forward_eof().pending == sink.pending,
        sink.forward_eof().encoded_frames == sink.encoded_frames,
        sink.forward_eof().eof_pending == sink.eof_pending,
{
}

/// A flush drains what is pending, then forwards the end, where it was
/// requested and not forwarded yet, and is left with flushing the stream
/// underneath.
pub proof fn law_flush_order(sink: SinkState)
    ensures
        sink.flush_step() == FlushStep::DrainPending <==> sink.pending.len() > 0,
        sink.flush_step() == FlushStep::ForwardEof <==> sink.pending.len() == 0 && sink.eof_pending
            && !sink.eof_sent,
        sink.flush_step() == FlushStep::FlushInner <==> sink.pending.len() == 0 && (
        !sink.eof_pending || sink.eof_sent),
{
}

} // verus!
