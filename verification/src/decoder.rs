//! What the receiving end of a padded stream makes of the bytes that arrive,
//! one byte after the other.

use vstd::prelude::*;

use crate::frame::PADDED_FRAME_LIMIT;

verus! {

/// What the next byte of a padded stream stands for.
#[derive(Copy, Clone, Debug, Eq, PartialEq, Structural)]
pub enum ReadState {
    /// Waiting for byte 0: the high byte of the original data size.
    ReadDataSizeHigh,
    /// Waiting for byte 1: the low byte of the original data size.
    ReadDataSizeLow { high: u8 },
    /// Waiting for byte 2: the padding size.
    ReadPaddingSize { data_size: u16 },
    /// Forwarding original data while remembering how much padding follows it.
    ReadData { remaining: usize, padding_size: usize },
    /// Discarding padding before the next frame.
    ReadPadding { remaining: usize },
    /// The first eight frames are complete; all remaining bytes are unframed.
    Raw,
}

/// A position in a padded stream: what the next byte stands for, and how many
/// frames lie behind.
pub struct Decoder {
    pub state: ReadState,
    pub completed_frames: nat,
}

/// The position between two frames, or behind the last one, after
/// `completed_frames` frames.
pub open spec fn boundary(completed_frames: nat) -> Decoder {
    Decoder {
        state: if completed_frames >= PADDED_FRAME_LIMIT {
            ReadState::Raw
        } else {
            ReadState::ReadDataSizeHigh
        },
        completed_frames,
    }
}

/// The position behind the data of a frame that ends in `padding_size` bytes
/// of padding.
pub open spec fn after_data(completed_frames: nat, padding_size: usize) -> Decoder {
    if padding_size > 0 {
        Decoder { state: ReadState::ReadPadding { remaining: padding_size }, completed_frames }
    } else {
        boundary(completed_frames + 1)
    }
}

/// The position behind the header of a frame with `data_size` bytes of data
/// and `padding_size` bytes of padding.
pub open spec fn after_header(
    completed_frames: nat,
    data_size: usize,
    padding_size: usize,
) -> Decoder {
    if data_size > 0 {
        Decoder {
            state: ReadState::ReadData { remaining: data_size, padding_size },
            completed_frames,
        }
    } else {
        after_data(completed_frames, padding_size)
    }
}

impl Decoder {
    /// Every position that a stream can lead to: nothing is awaited that has a
    /// size of zero, and framing ends with the last of the counted frames.
    pub open spec fn wf(self) -> bool {
        &&& self.state is Raw <==> self.completed_frames >= PADDED_FRAME_LIMIT
        &&& self.state matches ReadState::ReadData { remaining, .. } ==> remaining > 0
        &&& self.state matches ReadState::ReadPadding { remaining } ==> remaining > 0
    }

    /// Whether a byte at this position is payload.
    pub open spec fn at_payload(self) -> bool {
        self.state is ReadData || self.state is Raw
    }

    /// Whether this position lies inside a frame.
    pub open spec fn in_frame(self) -> bool {
        !(self.state is ReadDataSizeHigh || self.state is Raw)
    }

    /// The position behind one more byte.
    pub open spec fn after_byte(self, byte: u8) -> Decoder {
        match self.state {
            ReadState::ReadDataSizeHigh => Decoder {
                state: ReadState::ReadDataSizeLow { high: byte },
                ..self
            },
            ReadState::ReadDataSizeLow { high } => Decoder {
                state: ReadState::ReadPaddingSize { data_size: (high * 256 + byte) as u16 },
                ..self
            },
            ReadState::ReadPaddingSize { data_size } => after_header(
                self.completed_frames,
                data_size as usize,
                byte as usize,
            ),
            ReadState::ReadData { remaining, padding_size } => if remaining > 1 {
                Decoder {
                    state: ReadState::ReadData { remaining: (remaining - 1) as usize, padding_size },
                    ..self
                }
            } else {
                after_data(self.completed_frames, padding_size)
            },
            ReadState::ReadPadding { remaining } => if remaining > 1 {
                Decoder {
                    state: ReadState::ReadPadding { remaining: (remaining - 1) as usize },
                    ..self
                }
            } else {
                boundary(self.completed_frames + 1)
            },
            ReadState::Raw => self,
        }
    }

    /// The position behind `input`.
    pub open spec fn after(self, input: Seq<u8>) -> Decoder
        decreases input.len(),
    {
        if input.len() == 0 {
            self
        } else {
            self.after(input.drop_last()).after_byte(input.last())
        }
    }

    /// The payload bytes of `input`.
    pub open spec fn payload(self, input: Seq<u8>) -> Seq<u8>
        decreases input.len(),
    {
        if input.len() == 0 {
            Seq::empty()
        } else if self.after(input.drop_last()).at_payload() {
            self.payload(input.drop_last()).push(input.last())
        } else {
            self.payload(input.drop_last())
        }
    }
}

/// Decoding does not depend on how the stream is cut: to decode `first` and
/// `second` one after the other is to decode them joined.
pub proof fn law_decoding_ignores_fragmentation(
    decoder: Decoder,
    first: Seq<u8>,
    second: Seq<u8>,
)
    ensures
        decoder.after(first + second) == decoder.after(first).after(second),
        decoder.payload(first + second) == decoder.payload(first) + decoder.after(first).payload(
            second,
        ),
    decreases second.len(),
{
    if second.len() == 0 {
        assert(first + second =~= first);
        assert(decoder.payload(first) + Seq::<u8>::empty() =~= decoder.payload(first));
    } else {
        assert((first + second).drop_last() =~= first + second.drop_last());
        assert((first + second).last() == second.last());
        law_decoding_ignores_fragmentation(decoder, first, second.drop_last());
        assert(decoder.payload(first + second) =~= decoder.payload(first) + decoder.after(
            first,
        ).payload(second));
    }
}

/// What a further `run` adds to what was decoded of `input` before it.
pub proof fn lemma_extend(decoder: Decoder, input: Seq<u8>, done: int, run: Seq<u8>)
    requires
        0 <= done <= input.len(),
        run.len() <= input.len() - done,
        run == input.skip(done).take(run.len() as int),
    ensures
        decoder.after(input.take(done + run.len())) == decoder.after(input.take(done)).after(run),
        decoder.payload(input.take(done + run.len())) == decoder.payload(input.take(done))
            + decoder.after(input.take(done)).payload(run),
        input.skip(done).skip(run.len() as int) == input.skip(done + run.len()),
{
    law_decoding_ignores_fragmentation(decoder, input.take(done), run);
    assert(input.take(done) + run =~= input.take(done + run.len()));
    assert(input.skip(done).skip(run.len() as int) =~= input.skip(done + run.len()));
}

/// The payload of `count` bytes behind the first `done` ones is part of the
/// payload of all.
pub proof fn lemma_payload_in_two(decoder: Decoder, input: Seq<u8>, done: int, count: int)
    requires
        0 <= done,
        0 <= count,
        done + count <= input.len(),
    ensures
        decoder.payload(input.take(done)).len() + decoder.after(input.take(done)).payload(
            input.skip(done).take(count),
        ).len() <= decoder.payload(input).len(),
{
    lemma_extend(decoder, input, done, input.skip(done).take(count));
    let front = input.take(done + count);
    law_decoding_ignores_fragmentation(decoder, front, input.skip(done + count));
    assert(front + input.skip(done + count) =~= input);
}

/// A decoder never delivers more bytes than it is given.
pub proof fn law_payload_is_no_longer_than_input(decoder: Decoder, input: Seq<u8>)
    ensures
        decoder.payload(input).len() <= input.len(),
    decreases input.len(),
{
    if input.len() > 0 {
        law_payload_is_no_longer_than_input(decoder, input.drop_last());
    }
}

/// Every position behind a possible one is possible.
pub proof fn law_positions_stay_possible(decoder: Decoder, input: Seq<u8>)
    requires
        decoder.wf(),
    ensures
        decoder.after(input).wf(),
    decreases input.len(),
{
    if input.len() > 0 {
        law_positions_stay_possible(decoder, input.drop_last());
    }
}

/// One byte, taken as an input of its own.
pub proof fn lemma_single_byte(decoder: Decoder, byte: u8)
    ensures
        decoder.after(seq![byte]) == decoder.after_byte(byte),
        !decoder.at_payload() ==> decoder.payload(seq![byte]) == Seq::<u8>::empty(),
        decoder.at_payload() ==> decoder.payload(seq![byte]) == seq![byte],
{
    let input = seq![byte];
    assert(input.drop_last() =~= Seq::<u8>::empty());
    reveal_with_fuel(Decoder::after, 2);
    reveal_with_fuel(Decoder::payload, 2);
    assert(decoder.payload(Seq::<u8>::empty()).push(byte) =~= input);
}

/// Bytes within a frame's data are payload, and bring the end of the data
/// nearer.
pub proof fn lemma_data_run(decoder: Decoder, remaining: usize, padding_size: usize, run: Seq<u8>)
    requires
        decoder.state == (ReadState::ReadData { remaining, padding_size }),
        0 < run.len() <= remaining,
    ensures
        decoder.after(run) == (if run.len() < remaining {
            Decoder {
                state: ReadState::ReadData {
                    remaining: (remaining - run.len()) as usize,
                    padding_size,
                },
                ..decoder
            }
        } else {
            after_data(decoder.completed_frames, padding_size)
        }),
        decoder.payload(run) == run,
    decreases run.len(),
{
    reveal_with_fuel(Decoder::after, 2);
    reveal_with_fuel(Decoder::payload, 2);
    if run.len() > 1 {
        lemma_data_run(decoder, remaining, padding_size, run.drop_last());
    }
    assert(decoder.payload(run) =~= run);
}

/// Bytes within a frame's padding are discarded, whatever they are, and bring
/// the end of the frame nearer.
pub proof fn lemma_padding_run(decoder: Decoder, remaining: usize, run: Seq<u8>)
    requires
        decoder.state == (ReadState::ReadPadding { remaining }),
        0 < run.len() <= remaining,
    ensures
        decoder.after(run) == (if run.len() < remaining {
            Decoder {
                state: ReadState::ReadPadding { remaining: (remaining - run.len()) as usize },
                ..decoder
            }
        } else {
            boundary(decoder.completed_frames + 1)
        }),
        decoder.payload(run) == Seq::<u8>::empty(),
    decreases run.len(),
{
    reveal_with_fuel(Decoder::after, 2);
    reveal_with_fuel(Decoder::payload, 2);
    if run.len() > 1 {
        lemma_padding_run(decoder, remaining, run.drop_last());
    }
}

/// Behind the last frame every byte is payload, and stays so.
pub proof fn law_raw_bytes_pass_unchanged(decoder: Decoder, input: Seq<u8>)
    requires
        decoder.state is Raw,
    ensures
        decoder.after(input) == decoder,
        decoder.payload(input) == input,
    decreases input.len(),
{
    if input.len() > 0 {
        law_raw_bytes_pass_unchanged(decoder, input.drop_last());
    }
    assert(decoder.payload(input) =~= input);
}

} // verus!
