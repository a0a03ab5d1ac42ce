//! The endpoint-to-client direction: padding frames are added.
//!
//! A sink decides; whoever holds it talks to the stream underneath. Each call
//! answers with a step to take on that stream, and what comes of the step is
//! handed back to the sink.

use bytes::Bytes;
use vstd::prelude::*;

use crate::bytebuf;
use crate::error::PaddingError;
use crate::frame;
use crate::frame::{encode_frame, MAX_ORIGINAL_DATA_SIZE, PADDED_FRAME_LIMIT};
use crate::random::{random_byte, Draws};

verus! {

/// Adds padding frames to the endpoint-to-client direction.
///
/// Original data is accepted once its encoded frame is buffered. A flush
/// drains that frame before later data or EOF reaches the stream underneath,
/// which is `inner`.
pub struct PaddingSink<K> {
    pub inner: K,
    pub pending_frame: Bytes,
    pub encoded_frames: usize,
    /// EOF was requested, but a buffered frame may still precede it.
    pub eof_pending: bool,
    /// EOF was forwarded to the stream underneath.
    pub eof_sent: bool,
    /// What was drawn for the sizes of the padding.
    pub draws: Draws,
}

/// What a sink remembers, apart from the stream underneath.
#[verifier::ext_equal]
pub struct SinkState {
    pub pending: Seq<u8>,
    pub encoded_frames: nat,
    pub eof_pending: bool,
    pub eof_sent: bool,
}

/// What a write is about while a frame is on its way.
pub enum WriteContext {
    /// An earlier frame is being drained; this data has not been looked at.
    Undecided(Bytes),
    /// The frame holds data of this write; this is the data behind it.
    Framed(Bytes),
}

/// What a write comes to next.
pub enum WriteStep {
    /// Offer `bytes` to the stream underneath, and resume the write with
    /// `context` and with the bytes that the stream did not take.
    Offer { bytes: Bytes, context: WriteContext },
    /// Offer the data as it is. The write returns what the stream returns.
    Forward(Bytes),
    /// The write is over: all data but this was accepted.
    Return(Bytes),
    /// The write is refused.
    Refuse(PaddingError),
}

/// What a flush comes to next.
#[derive(Copy, Clone, Debug, Eq, PartialEq, Structural)]
pub enum FlushStep {
    /// Wait until the stream underneath is writable, and offer it the pending
    /// frame.
    DrainPending,
    /// End the stream underneath.
    ForwardEof,
    /// Flush the stream underneath. The flush returns what that returns.
    FlushInner,
}

/// The bytes in a [`WriteContext`].
pub enum ContextView {
    Undecided(Seq<u8>),
    Framed(Seq<u8>),
}

/// The bytes in a [`WriteStep`].
pub enum StepView {
    Offer { bytes: Seq<u8>, context: ContextView },
    Forward(Seq<u8>),
    Return(Seq<u8>),
    Refuse(PaddingError),
}

impl View for WriteContext {
    type V = ContextView;

    open spec fn view(&self) -> ContextView {
        match *self {
            WriteContext::Undecided(data) => ContextView::Undecided(bytebuf::content(data)),
            WriteContext::Framed(tail) => ContextView::Framed(bytebuf::content(tail)),
        }
    }
}

impl View for WriteStep {
    type V = StepView;

    open spec fn view(&self) -> StepView {
        match *self {
            WriteStep::Offer { bytes, context } => StepView::Offer {
                bytes: bytebuf::content(bytes),
                context: context@,
            },
            WriteStep::Forward(data) => StepView::Forward(bytebuf::content(data)),
            WriteStep::Return(data) => StepView::Return(bytebuf::content(data)),
            WriteStep::Refuse(error) => StepView::Refuse(error),
        }
    }
}

impl<K> View for PaddingSink<K> {
    type V = SinkState;

    open spec fn view(&self) -> SinkState {
        SinkState {
            pending: bytebuf::content(self.pending_frame),
            encoded_frames: self.encoded_frames as nat,
            eof_pending: self.eof_pending,
            eof_sent: self.eof_sent,
        }
    }
}

/// How much of `data` one record takes up.
pub open spec fn record_size(data: Seq<u8>) -> int {
    if data.len() <= MAX_ORIGINAL_DATA_SIZE {
        data.len() as int
    } else {
        MAX_ORIGINAL_DATA_SIZE as int
    }
}

impl SinkState {
    /// A sink that nothing was written to.
    pub open spec fn initial() -> SinkState {
        SinkState {
            pending: Seq::empty(),
            encoded_frames: 0,
            eof_pending: false,
            eof_sent: false,
        }
    }

    /// No more than the first records are framed, and EOF is the last thing
    /// that reaches the stream underneath.
    pub open spec fn wf(self) -> bool {
        &&& self.encoded_frames <= PADDED_FRAME_LIMIT
        &&& self.eof_sent ==> self.eof_pending && self.pending.len() == 0
    }

    /// The sink with `pending` as its pending bytes.
    pub open spec fn with_pending(self, pending: Seq<u8>) -> SinkState {
        SinkState { pending, ..self }
    }

    /// A record of as much of `data` as fits is counted and offered.
    pub open spec fn frame_data(self, data: Seq<u8>, padding_size: u8) -> (SinkState, StepView) {
        (
            SinkState {
                pending: Seq::empty(),
                encoded_frames: self.encoded_frames + 1,
                ..self
            },
            StepView::Offer {
                bytes: frame::frame(data.take(record_size(data)), padding_size),
                context: ContextView::Framed(data.skip(record_size(data))),
            },
        )
    }

    /// What becomes of `data` when no frame is pending: a record, or, when
    /// there are enough of them or there is no data, the data as it is.
    pub open spec fn accept(self, data: Seq<u8>, padding_size: u8) -> (SinkState, StepView) {
        if self.encoded_frames >= PADDED_FRAME_LIMIT || data.len() == 0 {
            (self, StepView::Forward(data))
        } else {
            self.frame_data(data, padding_size)
        }
    }

    /// How a write of `data` begins. `padding_size` is used only where a
    /// record is made.
    pub open spec fn begin_write(self, data: Seq<u8>, padding_size: u8) -> (SinkState, StepView) {
        if self.eof_pending {
            (self, StepView::Refuse(PaddingError::WriteAfterEof))
        } else if self.pending.len() > 0 {
            (
                self.with_pending(Seq::empty()),
                StepView::Offer { bytes: self.pending, context: ContextView::Undecided(data) },
            )
        } else {
            self.accept(data, padding_size)
        }
    }

    /// How a write goes on when `rest` of the offered bytes was not taken.
    pub open spec fn resume_write(
        self,
        context: ContextView,
        rest: Seq<u8>,
        padding_size: u8,
    ) -> (SinkState, StepView) {
        let sink = self.with_pending(rest);
        match context {
            ContextView::Undecided(data) => if rest.len() > 0 {
                (sink, StepView::Return(data))
            } else {
                sink.accept(data, padding_size)
            },
            ContextView::Framed(tail) => (sink, StepView::Return(tail)),
        }
    }

    /// The end of the stream is requested.
    pub open spec fn request_eof(self) -> SinkState {
        SinkState { eof_pending: true, ..self }
    }

    /// The end of the stream was forwarded.
    pub open spec fn forward_eof(self) -> SinkState {
        SinkState { eof_sent: true, ..self }
    }

    /// What a flush does next.
    pub open spec fn flush_step(self) -> FlushStep {
        if self.pending.len() > 0 {
            FlushStep::DrainPending
        } else if self.eof_pending && !self.eof_sent {
            FlushStep::ForwardEof
        } else {
            FlushStep::FlushInner
        }
    }
}

impl<K> PaddingSink<K> {
    /// The state is one that calls can lead to.
    pub open spec fn wf(&self) -> bool {
        self@.wf()
    }

    /// Starts with nothing written.
    pub fn new(inner: K) -> (sink: Self)
        ensures
            sink.wf(),
            sink.inner == inner,
            sink@ == SinkState::initial(),
            bytebuf::content(sink.pending_frame).len() == 0,
            sink.encoded_frames == 0,
            !sink.eof_pending,
            !sink.eof_sent,
            sink.draws@.len() == 0,
    {
        Self {
            inner,
            pending_frame: Bytes::new(),
            encoded_frames: 0,
            eof_pending: false,
            eof_sent: false,
            draws: Draws::new(),
        }
    }

    /// Gives the pending frame out, to be offered to the stream underneath.
    /// What the stream does not take comes back by `restore_pending`.
    pub fn take_pending(&mut self) -> (frame: Option<Bytes>)
        requires
            old(self).wf(),
        ensures
            final(self).wf(),
            final(self).inner == old(self).inner,
            final(self)@ == old(self)@.with_pending(Seq::empty()),
            bytebuf::content(final(self).pending_frame).len() == 0,
            final(self).encoded_frames == old(self).encoded_frames,
            final(self).eof_pending == old(self).eof_pending,
            final(self).eof_sent == old(self).eof_sent,
            final(self).draws == old(self).draws,
            old(self)@.pending.len() == 0 ==> frame is None,
            old(self)@.pending.len() > 0 ==> (frame matches Some(bytes) && bytebuf::content(bytes)
                == old(self)@.pending),
    {
        if self.pending_frame.is_empty() {
            assert(self@ =~= old(self)@.with_pending(Seq::empty()));
            None
        } else {
            let mut frame = Bytes::new();
            std::mem::swap(&mut frame, &mut self.pending_frame);
            Some(frame)
        }
    }

    /// Takes back what the stream underneath did not take of the pending
    /// frame.
    pub fn restore_pending(&mut self, rest: Bytes)
        requires
            old(self).wf(),
            !old(self).eof_sent,
        ensures
            final(self).wf(),
            final(self).inner == old(self).inner,
            final(self)@ == old(self)@.with_pending(bytebuf::content(rest)),
            bytebuf::content(final(self).pending_frame) == bytebuf::content(rest),
            final(self).encoded_frames == old(self).encoded_frames,
            final(self).eof_pending == old(self).eof_pending,
            final(self).eof_sent == old(self).eof_sent,
            final(self).draws == old(self).draws,
    {
        self.pending_frame = rest;
    }

    /// Makes a record of as much of `data` as fits, with `padding_size` bytes
    /// of padding.
    pub fn frame_data(&mut self, data: Bytes, padding_size: u8) -> (step: WriteStep)
        requires
            old(self).wf(),
            old(self)@.pending.len() == 0,
            old(self).encoded_frames < PADDED_FRAME_LIMIT,
        ensures
            final(self).wf(),
            final(self).inner == old(self).inner,
            (final(self)@, step@) == old(self)@.frame_data(bytebuf::content(data), padding_size),
            bytebuf::content(final(self).pending_frame).len() == 0,
            final(self).encoded_frames == old(self).encoded_frames + 1,
            final(self).eof_pending == old(self).eof_pending,
            final(self).eof_sent == old(self).eof_sent,
            final(self).draws == old(self).draws,
            step matches WriteStep::Offer { bytes, context } && context matches WriteContext::Framed(
                tail,
            ) && {
                let whole = bytebuf::content(data);
                let size: int = if whole.len() <= 65535 {
                    whole.len() as int
                } else {
                    65535
                };
                let record = bytebuf::content(bytes);
                &&& bytebuf::content(tail) == whole.skip(size)
                &&& record.len() == 3 + size + padding_size
                &&& record[0] * 256 + record[1] == size
                &&& record[2] == padding_size
                &&& record.subrange(3, 3 + size) == whole.take(size)
                &&& forall|i: int| 3 + size <= i < record.len() ==> #[trigger] record[i] == 0
            },
    {
        let mut tail = data;
        let size: usize = if tail.len() <= MAX_ORIGINAL_DATA_SIZE {
            tail.len()
        } else {
            MAX_ORIGINAL_DATA_SIZE
        };
        let original_data = tail.split_to(size);
        let bytes = encode_frame(original_data, padding_size);
        self.encoded_frames += 1;
        assert(self@.pending =~= Seq::empty());
        WriteStep::Offer { bytes, context: WriteContext::Framed(tail) }
    }

    /// Decides what becomes of `data` when no frame is pending. The size of
    /// the padding is drawn at random.
    fn accept(&mut self, data: Bytes) -> (step: WriteStep)
        requires
            old(self).wf(),
            old(self)@.pending.len() == 0,
        ensures
            final(self).wf(),
            final(self).inner == old(self).inner,
            exists|padding_size: u8|
                (final(self)@, step@) == #[trigger] old(self)@.accept(
                    bytebuf::content(data),
                    padding_size,
                ),
            final(self).eof_pending == old(self).eof_pending,
            final(self).eof_sent == old(self).eof_sent,
            final(self).encoded_frames == old(self).encoded_frames ==> {
                &&& final(self).draws == old(self).draws
                &&& (final(self)@, step@) == old(self)@.accept(bytebuf::content(data), 0)
            },
            final(self).encoded_frames != old(self).encoded_frames ==> {
                &&& final(self).draws.id() == old(self).draws.id()
                &&& final(self).draws@.len() == old(self).draws@.len() + 1
                &&& final(self).draws@.drop_last() == old(self).draws@
                &&& final(self).draws@.last().bound == 256
                &&& (final(self)@, step@) == old(self)@.accept(
                    bytebuf::content(data),
                    final(self).draws@.last().value as u8,
                )
                &&& step matches WriteStep::Offer { bytes, .. } && bytebuf::content(bytes).len() > 2
                    && bytebuf::content(bytes)[2] == final(self).draws@.last().value
            },
    {
        if self.encoded_frames >= PADDED_FRAME_LIMIT || data.is_empty() {
            let step = WriteStep::Forward(data);
            assert((self@, step@) == old(self)@.accept(bytebuf::content(data), 0));
            step
        } else {
            let padding_size: u8 = random_byte(&mut self.draws);
            let step = self.frame_data(data, padding_size);
            assert((self@, step@) == old(self)@.accept(bytebuf::content(data), padding_size));
            step
        }
    }

    /// Begins a write of `data`. The size of the padding, where a record is
    /// made, is drawn at random.
    pub fn begin_write(&mut self, data: Bytes) -> (step: WriteStep)
        requires
            old(self).wf(),
        ensures
            final(self).wf(),
            final(self).inner == old(self).inner,
            exists|padding_size: u8|
                (final(self)@, step@) == #[trigger] old(self)@.begin_write(
                    bytebuf::content(data),
                    padding_size,
                ),
            final(self).eof_pending == old(self).eof_pending,
            final(self).eof_sent == old(self).eof_sent,
            final(self).encoded_frames == old(self).encoded_frames ==> {
                &&& final(self).draws == old(self).draws
                &&& (final(self)@, step@) == old(self)@.begin_write(bytebuf::content(data), 0)
            },
            final(self).encoded_frames != old(self).encoded_frames ==> {
                &&& final(self).draws.id() == old(self).draws.id()
                &&& final(self).draws@.len() == old(self).draws@.len() + 1
                &&& final(self).draws@.drop_last() == old(self).draws@
                &&& final(self).draws@.last().bound == 256
                &&& (final(self)@, step@) == old(self)@.begin_write(
                    bytebuf::content(data),
                    final(self).draws@.last().value as u8,
                )
                &&& step matches WriteStep::Offer { bytes, .. } && bytebuf::content(bytes).len() > 2
                    && bytebuf::content(bytes)[2] == final(self).draws@.last().value
            },
    {
        if self.eof_pending {
            let step = WriteStep::Refuse(PaddingError::WriteAfterEof);
            assert((self@, step@) == old(self)@.begin_write(bytebuf::content(data), 0));
            return step;
        }
        match self.take_pending() {
            Some(bytes) => {
                let step = WriteStep::Offer { bytes, context: WriteContext::Undecided(data) };
                assert((self@, step@) == old(self)@.begin_write(bytebuf::content(data), 0));
                step
            },
            None => {
                assert(self@ =~= old(self)@);
                let step = self.accept(data);
                proof {
                    let drawn = choose|padding_size: u8|
                        (self@, step@) == #[trigger] old(self)@.accept(
                            bytebuf::content(data),
                            padding_size,
                        );
                    assert((self@, step@) == old(self)@.begin_write(bytebuf::content(data), drawn));
                }
                step
            },
        }
    }

    /// Resumes a write after the stream underneath was offered a frame, of
    /// which it did not take `rest`.
    pub fn resume_write(&mut self, context: WriteContext, rest: Bytes) -> (step: WriteStep)
        requires
            old(self).wf(),
            !old(self).eof_pending,
        ensures
            final(self).wf(),
            final(self).inner == old(self).inner,
            exists|padding_size: u8|
                (final(self)@, step@) == #[trigger] old(self)@.resume_write(
                    context@,
                    bytebuf::content(rest),
                    padding_size,
                ),
            final(self).eof_pending == old(self).eof_pending,
            final(self).eof_sent == old(self).eof_sent,
            final(self).encoded_frames == old(self).encoded_frames ==> {
                &&& final(self).draws == old(self).draws
                &&& (final(self)@, step@) == old(self)@.resume_write(
                    context@,
                    bytebuf::content(rest),
                    0,
                )
            },
            final(self).encoded_frames != old(self).encoded_frames ==> {
                &&& final(self).draws.id() == old(self).draws.id()
                &&& final(self).draws@.len() == old(self).draws@.len() + 1
                &&& final(self).draws@.drop_last() == old(self).draws@
                &&& final(self).draws@.last().bound == 256
                &&& (final(self)@, step@) == old(self)@.resume_write(
                    context@,
                    bytebuf::content(rest),
                    final(self).draws@.last().value as u8,
                )
                &&& step matches WriteStep::Offer { bytes, .. } && bytebuf::content(bytes).len() > 2
                    && bytebuf::content(bytes)[2] == final(self).draws@.last().value
            },
    {
        self.restore_pending(rest);
        let ghost sink = self@;
        let step = match context {
            WriteContext::Undecided(data) => {
                if !self.pending_frame.is_empty() {
                    WriteStep::Return(data)
                } else {
                    self.accept(data)
                }
            },
            WriteContext::Framed(tail) => WriteStep::Return(tail),
        };
        proof {
            let drawn = match context@ {
                ContextView::Undecided(data) if bytebuf::content(rest).len() == 0 => choose|
                    padding_size: u8,
                | (self@, step@) == #[trigger] sink.accept(data, padding_size),
                _ => 0,
            };
            assert((self@, step@) == old(self)@.resume_write(
                context@,
                bytebuf::content(rest),
                drawn,
            ));
        }
        step
    }

    /// Requests the end of the stream.
    pub fn eof(&mut self) -> (result: Result<(), PaddingError>)
        requires
            old(self).wf(),
        ensures
            final(self).wf(),
            final(self).inner == old(self).inner,
            old(self).eof_pending ==> result == Err::<(), _>(PaddingError::RepeatedEof)
                && final(self)@ == old(self)@,
            !old(self).eof_pending ==> result == Ok::<(), PaddingError>(()) && final(self)@
                == old(self)@.request_eof(),
            final(self).eof_pending,
            final(self).eof_sent == old(self).eof_sent,
            final(self).encoded_frames == old(self).encoded_frames,
            final(self).pending_frame == old(self).pending_frame,
            final(self).draws == old(self).draws,
    {
        if self.eof_pending {
            return Err(PaddingError::RepeatedEof);
        }
        self.eof_pending = true;
        Ok(())
    }

    /// Tells what a flush does next.
    pub fn flush_step(&self) -> (step: FlushStep)
        ensures
            step == self@.flush_step(),
            step == FlushStep::DrainPending <==> bytebuf::content(self.pending_frame).len() > 0,
            step == FlushStep::ForwardEof <==> bytebuf::content(self.pending_frame).len() == 0
                && self.eof_pending && !self.eof_sent,
    {
        if !self.pending_frame.is_empty() {
            FlushStep::DrainPending
        } else if self.eof_pending && !self.eof_sent {
            FlushStep::ForwardEof
        } else {
            FlushStep::FlushInner
        }
    }

    /// Notes that the stream underneath was ended.
    pub fn eof_forwarded(&mut self)
        requires
            old(self).wf(),
            old(self)@.flush_step() == FlushStep::ForwardEof,
        ensures
            final(self).wf(),
            final(self).inner == old(self).inner,
            final(self)@ == old(self)@.forward_eof(),
            final(self).eof_sent,
            final(self).eof_pending == old(self).eof_pending,
            final(self).encoded_frames == old(self).encoded_frames,
            final(self).pending_frame == old(self).pending_frame,
            final(self).draws == old(self).draws,
    {
        self.eof_sent = true;
    }
}

} // verus!
