//! The client-to-endpoint direction: padding frames are removed.

use bytes::{Bytes, BytesMut};
use vstd::prelude::*;

use crate::bytebuf;
use crate::bytebuf::{append_bytes, drop_front, take_byte};
use crate::decoder;
use crate::decoder::{Decoder, ReadState};
use crate::error::PaddingError;
use crate::frame::PADDED_FRAME_LIMIT;

verus! {

/// What a stream has to read.
pub enum Data {
    /// Some bytes.
    Chunk(Bytes),
    /// The end of the stream.
    Eof,
}

/// What a read comes to next.
pub enum ReadStep {
    /// Account for `consumed` encoded bytes, and return `chunk`.
    Deliver { consumed: usize, chunk: Bytes },
    /// Account for `consumed` encoded bytes, and read from the stream
    /// underneath again.
    ReadAgain { consumed: usize },
    /// Return the end of the stream.
    Finish,
    /// The read fails.
    Fail(PaddingError),
}

/// Removes padding frames from the client-to-endpoint direction.
///
/// `inner` is the stream that the encoded bytes come from.
pub struct PaddingSource<S> {
    pub inner: S,
    pub state: ReadState,
    pub completed_frames: usize,
}

impl<S> View for PaddingSource<S> {
    type V = Decoder;

    open spec fn view(&self) -> Decoder {
        Decoder { state: self.state, completed_frames: self.completed_frames as nat }
    }
}

impl<S> PaddingSource<S> {
    /// The position in the stream is one that a stream can lead to.
    pub open spec fn wf(&self) -> bool {
        self@.wf()
    }

    /// Starts at the first byte of a padded stream.
    pub fn new(inner: S) -> (source: Self)
        ensures
            source.wf(),
            source.inner == inner,
            source@ == decoder::boundary(0),
            source.state == ReadState::ReadDataSizeHigh,
            source.completed_frames == 0,
    {
        Self { inner, state: ReadState::ReadDataSizeHigh, completed_frames: 0 }
    }

    /// Consumes all of `input`, and appends its payload to `output`.
    pub fn decode(&mut self, input: Bytes, output: &mut BytesMut)
        requires
            old(self).wf(),
            bytebuf::content_mut(*old(output)).len() + old(self)@.payload(
                bytebuf::content(input),
            ).len() <= isize::MAX,
        ensures
            final(self).wf(),
            final(self).inner == old(self).inner,
            final(self)@ == old(self)@.after(bytebuf::content(input)),
            bytebuf::content_mut(*final(output)) == bytebuf::content_mut(*old(output)) + old(
                self,
            )@.payload(bytebuf::content(input)),
    {
        let ghost start = self@;
        let ghost all = bytebuf::content(input);
        let ghost before = bytebuf::content_mut(*output);
        let ghost mut done: int = 0;
        let mut unread = input;
        proof {
            assert(all.skip(0) =~= all);
            assert(before + start.payload(all.take(0)) =~= before);
        }
        while !unread.is_empty()
            invariant
                self.wf(),
                self.inner == old(self).inner,
                start == old(self)@,
                all == bytebuf::content(input),
                before == bytebuf::content_mut(*old(output)),
                before.len() + start.payload(all).len() <= isize::MAX,
                0 <= done <= all.len(),
                bytebuf::content(unread) == all.skip(done),
                self@ == start.after(all.take(done)),
                bytebuf::content_mut(*output) == before + start.payload(all.take(done)),
            decreases all.len() - done,
        {
            let ghost rest = bytebuf::content(unread);
            let ghost position = self@;
            let ghost mut taken: int = 1;
            proof {
                assert(rest.take(1) =~= seq![rest[0]]);
                decoder::lemma_single_byte(position, rest[0]);
            }
            match self.state {
                ReadState::ReadDataSizeHigh => {
                    self.state = ReadState::ReadDataSizeLow { high: take_byte(&mut unread) };
                },
                ReadState::ReadDataSizeLow { high } => {
                    let low: u8 = take_byte(&mut unread);
                    let data_size: u16 = high as u16 * 256 + low as u16;
                    self.state = ReadState::ReadPaddingSize { data_size };
                },
                ReadState::ReadPaddingSize { data_size } => {
                    let padding_size: usize = take_byte(&mut unread) as usize;
                    self.start_frame(data_size as usize, padding_size);
                },
                ReadState::ReadData { remaining, padding_size } => {
                    let to_copy: usize = if remaining <= unread.len() {
                        remaining
                    } else {
                        unread.len()
                    };
                    proof {
                        taken = to_copy as int;
                        decoder::lemma_data_run(
                            position,
                            remaining,
                            padding_size,
                            rest.take(taken),
                        );
                        decoder::lemma_payload_in_two(start, all, done, taken);
                    }
                    append_bytes(output, unread.split_to(to_copy));
                    let remaining: usize = remaining - to_copy;
                    if remaining > 0 {
                        self.state = ReadState::ReadData { remaining, padding_size };
                    } else {
                        self.finish_data(padding_size);
                    }
                },
                ReadState::ReadPadding { remaining } => {
                    let to_skip: usize = if remaining <= unread.len() {
                        remaining
                    } else {
                        unread.len()
                    };
                    drop_front(&mut unread, to_skip);
                    proof {
                        taken = to_skip as int;
                        decoder::lemma_padding_run(position, remaining, rest.take(taken));
                    }
                    let remaining: usize = remaining - to_skip;
                    if remaining > 0 {
                        self.state = ReadState::ReadPadding { remaining };
                    } else {
                        self.finish_frame();
                    }
                },
                ReadState::Raw => {
                    proof {
                        decoder::law_raw_bytes_pass_unchanged(position, rest);
                        assert(rest.take(rest.len() as int) =~= rest);
                        decoder::lemma_extend(start, all, done, rest);
                        assert(all.take(done + rest.len()) =~= all);
                    }
                    append_bytes(output, unread);
                    return;
                },
            }
            proof {
                decoder::lemma_extend(start, all, done, rest.take(taken));
                done = done + taken;
            }
        }
        proof {
            assert(all.take(done) =~= all);
        }
    }

    /// Goes on behind a frame's header.
    pub fn start_frame(&mut self, data_size: usize, padding_size: usize)
        requires
            data_size == 0 && padding_size == 0 ==> old(self).completed_frames < usize::MAX,
        ensures
            final(self).inner == old(self).inner,
            final(self)@ == decoder::after_header(
                old(self)@.completed_frames,
                data_size,
                padding_size,
            ),
            data_size > 0 ==> final(self).state == (ReadState::ReadData {
                remaining: data_size,
                padding_size,
            }),
            data_size == 0 && padding_size > 0 ==> final(self).state == (ReadState::ReadPadding {
                remaining: padding_size,
            }),
            data_size > 0 || padding_size > 0 ==> final(self).completed_frames == old(
                self,
            ).completed_frames,
            data_size == 0 && padding_size == 0 ==> {
                &&& final(self).completed_frames == old(self).completed_frames + 1
                &&& final(self).completed_frames < 8 ==> final(self).state
                    == ReadState::ReadDataSizeHigh
                &&& final(self).completed_frames >= 8 ==> final(self).state == ReadState::Raw
            },
    {
        if data_size > 0 {
            self.state = ReadState::ReadData { remaining: data_size, padding_size };
        } else {
            self.finish_data(padding_size);
        }
    }

    /// Goes on behind a frame's data.
    pub fn finish_data(&mut self, padding_size: usize)
        requires
            padding_size == 0 ==> old(self).completed_frames < usize::MAX,
        ensures
            final(self).inner == old(self).inner,
            final(self)@ == decoder::after_data(old(self)@.completed_frames, padding_size),
            padding_size > 0 ==> {
                &&& final(self).state == (ReadState::ReadPadding { remaining: padding_size })
                &&& final(self).completed_frames == old(self).completed_frames
            },
            padding_size == 0 ==> {
                &&& final(self).completed_frames == old(self).completed_frames + 1
                &&& final(self).completed_frames < 8 ==> final(self).state
                    == ReadState::ReadDataSizeHigh
                &&& final(self).completed_frames >= 8 ==> final(self).state == ReadState::Raw
            },
    {
        if padding_size > 0 {
            self.state = ReadState::ReadPadding { remaining: padding_size };
        } else {
            self.finish_frame();
        }
    }

    /// Goes on behind a frame.
    pub fn finish_frame(&mut self)
        requires
            old(self).completed_frames < usize::MAX,
        ensures
            final(self).inner == old(self).inner,
            final(self)@ == decoder::boundary(old(self)@.completed_frames + 1),
            final(self).completed_frames == old(self).completed_frames + 1,
            final(self).completed_frames < 8 ==> final(self).state == ReadState::ReadDataSizeHigh,
            final(self).completed_frames >= 8 ==> final(self).state == ReadState::Raw,
    {
        self.completed_frames += 1;
        self.state = if self.completed_frames >= PADDED_FRAME_LIMIT {
            ReadState::Raw
        } else {
            ReadState::ReadDataSizeHigh
        };
    }

    /// Whether the stream stands inside a frame.
    pub fn has_partial_frame(&self) -> (partial: bool)
        ensures
            partial == self@.in_frame(),
            partial <==> self.state != ReadState::ReadDataSizeHigh && self.state != ReadState::Raw,
    {
        !matches!(self.state, ReadState::ReadDataSizeHigh | ReadState::Raw)
    }

    /// Takes what the stream underneath had to read, and tells what the read
    /// comes to. Payload is delivered as soon as there is some, and the encoded
    /// bytes are all accounted for at once.
    pub fn receive(&mut self, data: Data) -> (step: ReadStep)
        requires
            old(self).wf(),
            data matches Data::Chunk(input) ==> bytebuf::content(input).len() <= isize::MAX,
        ensures
            final(self).wf(),
            final(self).inner == old(self).inner,
            data matches Data::Chunk(input) ==> {
                let payload = old(self)@.payload(bytebuf::content(input));
                &&& final(self)@ == old(self)@.after(bytebuf::content(input))
                &&& payload.len() > 0 ==> (step matches ReadStep::Deliver { consumed, chunk }
                    && consumed == bytebuf::content(input).len() && bytebuf::content(chunk)
                    == payload)
                &&& payload.len() == 0 ==> (step matches ReadStep::ReadAgain { consumed }
                    && consumed == bytebuf::content(input).len())
            },
            data is Eof ==> {
                &&& final(self)@ == old(self)@
                &&& step is Finish <==> old(self).state == ReadState::ReadDataSizeHigh || old(
                    self,
                ).state == ReadState::Raw
                &&& step == (if old(self)@.in_frame() {
                    ReadStep::Fail(PaddingError::TruncatedFrame)
                } else {
                    ReadStep::Finish
                })
            },
    {
        match data {
            Data::Chunk(input) => {
                let consumed: usize = input.len();
                let mut output = BytesMut::with_capacity(consumed);
                proof {
                    decoder::law_payload_is_no_longer_than_input(self@, bytebuf::content(input));
                }
                self.decode(input, &mut output);
                assert(bytebuf::content_mut(output) =~= old(self)@.payload(
                    bytebuf::content(input),
                ));
                if !output.is_empty() {
                    ReadStep::Deliver { consumed, chunk: output.freeze() }
                } else {
                    ReadStep::ReadAgain { consumed }
                }
            },
            Data::Eof => {
                if self.has_partial_frame() {
                    ReadStep::Fail(PaddingError::TruncatedFrame)
                } else {
                    ReadStep::Finish
                }
            },
        }
    }

    /// Accounts for delivered bytes: there is nothing left to do, since the
    /// encoded bytes were accounted for when they were received.
    pub fn consume(&mut self, _size: usize) -> (result: Result<(), PaddingError>)
        ensures
            *final(self) == *old(self),
            result == Ok::<(), PaddingError>(()),
    {
        Ok(())
    }
}

} // verus!
