//! What the receiving end makes of frames: a padded stream, read frame by
//! frame, and the proofs that a decoder reads it so.

use vstd::prelude::*;

use crate::decoder;
use crate::decoder::{Decoder, ReadState};
use crate::frame;
use crate::frame::{FRAME_HEADER_SIZE, MAX_ORIGINAL_DATA_SIZE, PADDED_FRAME_LIMIT};

verus! {

/// A payload with the size of the padding that goes with it.
pub struct Record {
    pub data: Seq<u8>,
    pub padding_size: u8,
}

/// The payloads of `records`, joined.
pub open spec fn records_data(records: Seq<Record>) -> Seq<u8>
    decreases records.len(),
{
    if records.len() == 0 {
        Seq::empty()
    } else {
        records_data(records.drop_last()) + records.last().data
    }
}

/// The frames of `records`, joined.
pub open spec fn records_frames(records: Seq<Record>) -> Seq<u8>
    decreases records.len(),
{
    if records.len() == 0 {
        Seq::empty()
    } else {
        records_frames(records.drop_last()) + frame::frame(
            records.last().data,
            records.last().padding_size,
        )
    }
}

/// The data size that the header at the front of `stream` gives.
pub open spec fn front_data_size(stream: Seq<u8>) -> int {
    stream[0] * 256 + stream[1]
}

/// The size of the whole frame whose header is at the front of `stream`.
pub open spec fn front_frame_size(stream: Seq<u8>) -> int {
    FRAME_HEADER_SIZE + front_data_size(stream) + stream[2]
}

/// The data at the front of `stream`, as far as it is there.
pub open spec fn front_data(stream: Seq<u8>) -> Seq<u8> {
    let body = stream.skip(FRAME_HEADER_SIZE as int);
    if front_data_size(stream) <= body.len() {
        body.take(front_data_size(stream))
    } else {
        body
    }
}

/// The payload of `stream`, which begins behind `completed_frames` frames.
pub open spec fn deframed(completed_frames: nat, stream: Seq<u8>) -> Seq<u8>
    decreases stream.len(),
{
    if completed_frames >= PADDED_FRAME_LIMIT {
        stream
    } else if stream.len() < FRAME_HEADER_SIZE {
        Seq::empty()
    } else if stream.len() < front_frame_size(stream) {
        front_data(stream)
    } else {
        front_data(stream) + deframed(
            completed_frames + 1,
            stream.skip(front_frame_size(stream)),
        )
    }
}

/// Whether `stream`, which begins behind `completed_frames` frames, ends with
/// the end of a frame or behind the last one.
pub open spec fn well_framed(completed_frames: nat, stream: Seq<u8>) -> bool
    decreases stream.len(),
{
    ||| completed_frames >= PADDED_FRAME_LIMIT
    ||| stream.len() == 0
    ||| {
        &&& stream.len() >= FRAME_HEADER_SIZE
        &&& stream.len() >= front_frame_size(stream)
        &&& well_framed(completed_frames + 1, stream.skip(front_frame_size(stream)))
    }
}

/// A header leads to the data, the padding, or the end of its frame.
proof fn lemma_header(completed_frames: nat, high: u8, low: u8, padding_size: u8)
    requires
        completed_frames < PADDED_FRAME_LIMIT,
    ensures
        decoder::boundary(completed_frames).after(seq![high, low, padding_size])
            == decoder::after_header(
            completed_frames,
            (high * 256 + low) as usize,
            padding_size as usize,
        ),
        decoder::boundary(completed_frames).payload(seq![high, low, padding_size])
            == Seq::<u8>::empty(),
        decoder::boundary(completed_frames).after(seq![high]).in_frame(),
        decoder::boundary(completed_frames).payload(seq![high]) == Seq::<u8>::empty(),
        decoder::boundary(completed_frames).after(seq![high, low]).in_frame(),
        decoder::boundary(completed_frames).payload(seq![high, low]) == Seq::<u8>::empty(),
{
    let start = decoder::boundary(completed_frames);
    assert(seq![high, low, padding_size].drop_last() =~= seq![high, low]);
    assert(seq![high, low].drop_last() =~= seq![high]);
    decoder::lemma_single_byte(start, high);
    assert(start.after(seq![high, low]) == start.after(seq![high]).after_byte(low));
    assert(start.payload(seq![high, low]) == Seq::<u8>::empty());
    assert(start.after(seq![high, low, padding_size]) == start.after(seq![high, low]).after_byte(
        padding_size,
    ));
}

/// What of a frame's body is payload, and where it leads to.
proof fn lemma_body(completed_frames: nat, data_size: usize, padding_size: usize, body: Seq<u8>)
    requires
        completed_frames < PADDED_FRAME_LIMIT,
        body.len() <= data_size + padding_size,
    ensures
        ({
            let start = decoder::after_header(completed_frames, data_size, padding_size);
            &&& body.len() <= data_size ==> start.payload(body) == body
            &&& body.len() >= data_size ==> start.payload(body) == body.take(data_size as int)
            &&& body.len() < data_size + padding_size ==> start.after(body).in_frame()
            &&& body.len() == data_size + padding_size ==> start.after(body) == decoder::boundary(
                completed_frames + 1,
            )
        }),
{
    let start = decoder::after_header(completed_frames, data_size, padding_size);
    let cut: int = if body.len() <= data_size {
        body.len() as int
    } else {
        data_size as int
    };
    let data = body.take(cut);
    let padding = body.skip(cut);
    assert(data + padding =~= body);
    decoder::law_decoding_ignores_fragmentation(start, data, padding);
    if data.len() > 0 {
        decoder::lemma_data_run(start, data_size, padding_size, data);
    }
    if padding.len() > 0 {
        decoder::lemma_padding_run(
            decoder::after_data(completed_frames, padding_size),
            padding_size,
            padding,
        );
    }
    assert(start.payload(body) =~= data);
    assert(body.len() <= data_size ==> data =~= body);
}

/// What of the frame at the front of `stream` is payload, and where it leads
/// to.
proof fn lemma_front_frame(completed_frames: nat, stream: Seq<u8>)
    requires
        completed_frames < PADDED_FRAME_LIMIT,
        stream.len() >= FRAME_HEADER_SIZE,
        stream.len() <= front_frame_size(stream),
    ensures
        decoder::boundary(completed_frames).payload(stream) == front_data(stream),
        stream.len() < front_frame_size(stream) ==> decoder::boundary(completed_frames).after(
            stream,
        ).in_frame(),
        stream.len() == front_frame_size(stream) ==> decoder::boundary(completed_frames).after(
            stream,
        ) == decoder::boundary(completed_frames + 1),
{
    let start = decoder::boundary(completed_frames);
    let header = seq![stream[0], stream[1], stream[2]];
    let body = stream.skip(FRAME_HEADER_SIZE as int);
    assert(header + body =~= stream);
    lemma_header(completed_frames, stream[0], stream[1], stream[2]);
    lemma_body(
        completed_frames,
        front_data_size(stream) as usize,
        stream[2] as usize,
        body,
    );
    decoder::law_decoding_ignores_fragmentation(start, header, body);
    assert(start.payload(stream) =~= front_data(stream));
    assert(body.take(body.len() as int) =~= body);
}

/// A decoder reads a stream frame by frame: it delivers the data of each
/// frame, discards the padding, and delivers all that follows the last frame.
/// It stands inside a frame exactly when the stream ends inside one.
pub proof fn law_decoder_reads_frames(completed_frames: nat, stream: Seq<u8>)
    ensures
        decoder::boundary(completed_frames).payload(stream) == deframed(completed_frames, stream),
        decoder::boundary(completed_frames).after(stream).in_frame() <==> !well_framed(
            completed_frames,
            stream,
        ),
    decreases stream.len(),
{
    let start = decoder::boundary(completed_frames);
    if completed_frames >= PADDED_FRAME_LIMIT {
        decoder::law_raw_bytes_pass_unchanged(start, stream);
    } else if stream.len() == 0 {
    } else if stream.len() < FRAME_HEADER_SIZE {
        lemma_header(completed_frames, stream[0], stream[1], 0);
        if stream.len() == 1 {
            assert(stream =~= seq![stream[0]]);
        } else {
            assert(stream =~= seq![stream[0], stream[1]]);
        }
    } else if stream.len() < front_frame_size(stream) {
        lemma_front_frame(completed_frames, stream);
    } else {
        let size = front_frame_size(stream);
        let front = stream.take(size);
        let rest = stream.skip(size);
        assert(front + rest =~= stream);
        decoder::law_decoding_ignores_fragmentation(start, front, rest);
        lemma_front_frame(completed_frames, front);
        assert(front_data(front) =~= front_data(stream));
        law_decoder_reads_frames(completed_frames + 1, rest);
    }
}

/// A frame counts and yields its data, whatever its padding holds, and also
/// when it has no data.
pub proof fn law_padding_contents_are_ignored(
    completed_frames: nat,
    data: Seq<u8>,
    padding: Seq<u8>,
)
    requires
        completed_frames < PADDED_FRAME_LIMIT,
        data.len() <= MAX_ORIGINAL_DATA_SIZE,
        padding.len() <= u8::MAX,
    ensures
        ({
            let encoded = frame::frame_header(data.len(), padding.len() as u8) + data + padding;
            let start = decoder::boundary(completed_frames);
            &&& start.payload(encoded) == data
            &&& start.after(encoded) == decoder::boundary(completed_frames + 1)
        }),
{
    let encoded = frame::frame_header(data.len(), padding.len() as u8) + data + padding;
    assert(front_data_size(encoded) == data.len());
    assert(front_data(encoded) =~= data);
    lemma_front_frame(completed_frames, encoded);
}

/// To decode an encoded frame gives its data back.
pub proof fn law_frame_round_trip(completed_frames: nat, data: Seq<u8>, padding_size: u8)
    requires
        completed_frames < PADDED_FRAME_LIMIT,
        data.len() <= MAX_ORIGINAL_DATA_SIZE,
    ensures
        decoder::boundary(completed_frames).payload(frame::frame(data, padding_size)) == data,
        decoder::boundary(completed_frames).after(frame::frame(data, padding_size))
            == decoder::boundary(completed_frames + 1),
{
    law_padding_contents_are_ignored(completed_frames, data, frame::zeros(padding_size as nat));
}

/// A frame that is cut short leaves the decoder inside it, and yields only
/// data from its front.
pub proof fn law_truncated_frame_is_detected(
    completed_frames: nat,
    data: Seq<u8>,
    padding_size: u8,
    cut: int,
)
    requires
        completed_frames < PADDED_FRAME_LIMIT,
        data.len() <= MAX_ORIGINAL_DATA_SIZE,
        0 < cut < frame::frame(data, padding_size).len(),
    ensures
        ({
            let encoded = frame::frame(data, padding_size).take(cut);
            let start = decoder::boundary(completed_frames);
            &&& start.after(encoded).in_frame()
            &&& start.payload(encoded).is_prefix_of(data)
        }),
{
    let encoded = frame::frame(data, padding_size).take(cut);
    law_decoder_reads_frames(completed_frames, encoded);
    if cut >= FRAME_HEADER_SIZE {
        assert(front_data_size(encoded) == data.len());
        assert(front_data(encoded).is_prefix_of(data)) by {
            assert(front_data(encoded) =~= data.take(front_data(encoded).len() as int));
        }
    }
}

/// To decode the frames of up to eight records, and unframed bytes behind the
/// eighth, gives the payloads and those bytes back.
pub proof fn law_records_round_trip(records: Seq<Record>, raw: Seq<u8>)
    requires
        records.len() <= PADDED_FRAME_LIMIT,
        raw.len() > 0 ==> records.len() == PADDED_FRAME_LIMIT,
        forall|i: int|
            0 <= i < records.len() ==> (#[trigger] records[i]).data.len() <= MAX_ORIGINAL_DATA_SIZE,
    ensures
        decoder::boundary(0).payload(records_frames(records) + raw) == records_data(records) + raw,
        decoder::boundary(0).after(records_frames(records) + raw) == decoder::boundary(
            records.len(),
        ),
    decreases records.len(), raw.len(),
{
    let start = decoder::boundary(0);
    if raw.len() > 0 {
        law_records_round_trip(records, Seq::empty());
        assert(records_frames(records) + Seq::<u8>::empty() =~= records_frames(records));
        assert(records_data(records) + Seq::<u8>::empty() =~= records_data(records));
        decoder::law_decoding_ignores_fragmentation(start, records_frames(records), raw);
        decoder::law_raw_bytes_pass_unchanged(decoder::boundary(records.len()), raw);
    } else {
        assert(records_frames(records) + raw =~= records_frames(records));
        assert(records_data(records) + raw =~= records_data(records));
        if records.len() > 0 {
            let before = records.drop_last();
            let last = records.last();
            assert forall|i: int| 0 <= i < before.len() implies (#[trigger] before[i]).data.len()
                <= MAX_ORIGINAL_DATA_SIZE by {
                assert(before[i] == records[i]);
            }
            law_records_round_trip(before, raw);
            assert(records_frames(before) + raw =~= records_frames(before));
            assert(records_data(before) + raw =~= records_data(before));
            assert(last == records[records.len() - 1]);
            law_frame_round_trip(before.len(), last.data, last.padding_size);
            decoder::law_decoding_ignores_fragmentation(
                start,
                records_frames(before),
                frame::frame(last.data, last.padding_size),
            );
        }
    }
}

/// `pieces`, joined.
pub open spec fn joined(pieces: Seq<Seq<u8>>) -> Seq<u8>
    decreases pieces.len(),
{
    if pieces.len() == 0 {
        Seq::empty()
    } else {
        joined(pieces.drop_last()) + pieces.last()
    }
}

/// The position behind `chunks`, decoded one after the other.
pub open spec fn after_chunks(position: Decoder, chunks: Seq<Seq<u8>>) -> Decoder
    decreases chunks.len(),
{
    if chunks.len() == 0 {
        position
    } else {
        after_chunks(position, chunks.drop_last()).after(chunks.last())
    }
}

/// All that is delivered of `chunks`, decoded one after the other.
pub open spec fn delivered(position: Decoder, chunks: Seq<Seq<u8>>) -> Seq<u8>
    decreases chunks.len(),
{
    if chunks.len() == 0 {
        Seq::empty()
    } else {
        delivered(position, chunks.drop_last()) + after_chunks(
            position,
            chunks.drop_last(),
        ).payload(chunks.last())
    }
}

/// However a stream is cut into chunks, decoding them one after the other
/// comes to decoding the whole stream.
pub proof fn law_any_chunking_decodes_alike(position: Decoder, chunks: Seq<Seq<u8>>)
    ensures
        after_chunks(position, chunks) == position.after(joined(chunks)),
        delivered(position, chunks) == position.payload(joined(chunks)),
    decreases chunks.len(),
{
    if chunks.len() > 0 {
        law_any_chunking_decodes_alike(position, chunks.drop_last());
        decoder::law_decoding_ignores_fragmentation(
            position,
            joined(chunks.drop_last()),
            chunks.last(),
        );
    }
}

/// A fresh reader of a stream that comes in `chunks` delivers its payload, and
/// at the end of the stream it fails exactly when that cuts a frame short.
pub proof fn law_reader_delivers_stream(chunks: Seq<Seq<u8>>)
    ensures
        delivered(decoder::boundary(0), chunks) == deframed(0, joined(chunks)),
        after_chunks(decoder::boundary(0), chunks).in_frame() <==> !well_framed(0, joined(chunks)),
{
    law_any_chunking_decodes_alike(decoder::boundary(0), chunks);
    law_decoder_reads_frames(0, joined(chunks));
}

/// A whole frame, byte by byte: its first two bytes give the size of the data,
/// the high byte first, and the third the size of the padding. Just the data is
/// delivered, whatever the padding holds; one more frame lies behind, and the
/// next byte begins a frame, or is unframed if this was the eighth.
pub proof fn law_whole_frame_is_read(completed_frames: nat, stream: Seq<u8>)
    requires
        completed_frames < 8,
        stream.len() >= 3,
        stream.len() == 3 + stream[0] * 256 + stream[1] + stream[2],
    ensures
        ({
            let start = Decoder { state: ReadState::ReadDataSizeHigh, completed_frames };
            let after = start.after(stream);
            &&& start.payload(stream) == stream.subrange(3, 3 + stream[0] * 256 + stream[1])
            &&& after.completed_frames == completed_frames + 1
            &&& completed_frames < 7 ==> after.state == ReadState::ReadDataSizeHigh
            &&& completed_frames == 7 ==> after.state == ReadState::Raw
            &&& !after.in_frame()
        }),
{
    lemma_front_frame(completed_frames, stream);
    assert(front_data(stream) =~= stream.subrange(3, 3 + stream[0] * 256 + stream[1]));
}

/// A frame that is cut short, byte by byte: the data that is there is delivered
/// at once, nothing else is, and the end of the stream falls inside the frame.
pub proof fn law_cut_frame_is_read(completed_frames: nat, stream: Seq<u8>)
    requires
        completed_frames < 8,
        stream.len() > 0,
        stream.len() >= 3 ==> stream.len() < 3 + stream[0] * 256 + stream[1] + stream[2],
    ensures
        ({
            let start = Decoder { state: ReadState::ReadDataSizeHigh, completed_frames };
            let after = start.after(stream);
            let data_end = 3 + stream[0] * 256 + stream[1];
            &&& stream.len() < 3 ==> start.payload(stream).len() == 0
            &&& 3 <= stream.len() <= data_end ==> start.payload(stream) == stream.skip(3)
            &&& 3 <= stream.len() && data_end <= stream.len() ==> start.payload(stream)
                == stream.subrange(3, data_end)
            &&& after.completed_frames == completed_frames
            &&& after.state != ReadState::ReadDataSizeHigh
            &&& after.state != ReadState::Raw
            &&& after.in_frame()
        }),
{
    law_decoder_reads_frames(completed_frames, stream);
    lemma_cut_frame_does_not_count(completed_frames, stream);
    if stream.len() >= 3 {
        let data_end = 3 + stream[0] * 256 + stream[1];
        assert(stream.len() <= data_end ==> front_data(stream) =~= stream.skip(3));
        assert(data_end <= stream.len() ==> front_data(stream) =~= stream.subrange(3, data_end));
    }
}

/// A frame counts when it ends, and not before.
proof fn lemma_cut_frame_does_not_count(completed_frames: nat, stream: Seq<u8>)
    requires
        completed_frames < PADDED_FRAME_LIMIT,
        stream.len() > 0,
        stream.len() >= FRAME_HEADER_SIZE ==> stream.len() < front_frame_size(stream),
    ensures
        decoder::boundary(completed_frames).after(stream).completed_frames == completed_frames,
    decreases stream.len(),
{
    let before = stream.drop_last();
    if before.len() > 0 {
        lemma_cut_frame_does_not_count(completed_frames, before);
    }
    law_decoder_reads_frames(completed_frames, stream);
}

/// Every byte behind the eighth frame is delivered as it is.
pub proof fn law_bytes_after_eight_frames_are_read(completed_frames: nat, stream: Seq<u8>)
    requires
        completed_frames >= 8,
    ensures
        ({
            let start = Decoder { state: ReadState::Raw, completed_frames };
            &&& start.payload(stream) == stream
            &&& start.after(stream) == start
            &&& !start.after(stream).in_frame()
        }),
{
    decoder::law_raw_bytes_pass_unchanged(
        Decoder { state: ReadState::Raw, completed_frames },
        stream,
    );
}

} // verus!
