//! Whole histories of a sink: whatever is written to it, and however little
//! the stream underneath takes at a time, the stream carries the records in
//! order, and the receiving end gets back what was accepted.
//!
//! The stream underneath takes some bytes from the front of what it is offered
//! and hands the others back. Histories end where it fails: a frame that it was
//! offered then is lost.

use vstd::prelude::*;

use crate::decoder;
use crate::error::PaddingError;
use crate::frame;
use crate::frame::{MAX_ORIGINAL_DATA_SIZE, PADDED_FRAME_LIMIT};
use crate::laws;
use crate::laws::Record;
use crate::sink::{ContextView, FlushStep, SinkState, StepView};

verus! {

/// How many of `offered` bytes a stream takes that has room for `room`.
pub open spec fn taken(offered: Seq<u8>, room: nat) -> int {
    if room <= offered.len() {
        room as int
    } else {
        offered.len() as int
    }
}

/// What comes of one write.
#[verifier::ext_equal]
pub struct Written {
    /// The sink after the write.
    pub sink: SinkState,
    /// What the stream underneath took.
    pub sent: Seq<u8>,
    /// The data that was not accepted.
    pub rest: Seq<u8>,
    /// Whether a record was made.
    pub framed: bool,
}

/// The rest of a write whose next step is `step`, where that step does not
/// offer an earlier frame. The stream underneath has room for `room` bytes.
pub open spec fn conclude(sink: SinkState, step: StepView, room: nat, data: Seq<u8>) -> Written {
    match step {
        StepView::Offer { bytes, context } => {
            let (after, last) = sink.resume_write(context, bytes.skip(taken(bytes, room)), 0);
            Written {
                sink: after,
                sent: bytes.take(taken(bytes, room)),
                rest: last->Return_0,
                framed: true,
            }
        },
        StepView::Forward(bytes) => Written {
            sink,
            sent: bytes.take(taken(bytes, room)),
            rest: bytes.skip(taken(bytes, room)),
            framed: false,
        },
        StepView::Return(bytes) => Written {
            sink,
            sent: Seq::empty(),
            rest: bytes,
            framed: false,
        },
        StepView::Refuse(_) => Written { sink, sent: Seq::empty(), rest: data, framed: false },
    }
}

/// A write of `data` from begin to end, where `padding_size` is drawn and the
/// stream underneath has room for `first_room` and then for `second_room`
/// bytes.
pub open spec fn write(
    sink: SinkState,
    data: Seq<u8>,
    padding_size: u8,
    first_room: nat,
    second_room: nat,
) -> Written {
    let (begun, step) = sink.begin_write(data, padding_size);
    match step {
        StepView::Offer { bytes, context: ContextView::Undecided(undecided) } => {
            let (after, next) = begun.resume_write(
                ContextView::Undecided(undecided),
                bytes.skip(taken(bytes, first_room)),
                padding_size,
            );
            let concluded = conclude(after, next, second_room, data);
            Written { sent: bytes.take(taken(bytes, first_room)) + concluded.sent, ..concluded }
        },
        _ => conclude(begun, step, first_room, data),
    }
}

/// Something that is done with a sink.
pub enum Call {
    /// A write.
    Write { data: Seq<u8>, padding_size: u8, first_room: nat, second_room: nat },
    /// A request for the end of the stream.
    Eof,
    /// One round of a flush, while the stream underneath has room for `room`
    /// bytes.
    Flush { room: nat },
}

/// A sink with its past.
#[verifier::ext_equal]
pub struct Session {
    pub sink: SinkState,
    /// All that the stream underneath took.
    pub wire: Seq<u8>,
    /// All data that was accepted.
    pub accepted: Seq<u8>,
    /// The accepted data that was framed.
    pub records: Seq<Record>,
    /// The accepted data that was not framed.
    pub raw: Seq<u8>,
}

impl Session {
    /// A session in which nothing has happened.
    pub open spec fn initial() -> Session {
        Session {
            sink: SinkState::initial(),
            wire: Seq::empty(),
            accepted: Seq::empty(),
            records: Seq::empty(),
            raw: Seq::empty(),
        }
    }

    /// The session after one more call.
    pub open spec fn after_call(self, call: Call) -> Session {
        match call {
            Call::Write { data, padding_size, first_room, second_room } => {
                let written = write(self.sink, data, padding_size, first_room, second_room);
                let part = data.take(data.len() - written.rest.len());
                Session {
                    sink: written.sink,
                    wire: self.wire + written.sent,
                    accepted: self.accepted + part,
                    records: if written.framed {
                        self.records.push(Record { data: part, padding_size })
                    } else {
                        self.records
                    },
                    raw: if written.framed {
                        self.raw
                    } else {
                        self.raw + part
                    },
                }
            },
            Call::Eof => Session { sink: self.sink.request_eof(), ..self },
            Call::Flush { room } => match self.sink.flush_step() {
                FlushStep::DrainPending => {
                    let count = taken(self.sink.pending, room);
                    Session {
                        sink: self.sink.with_pending(self.sink.pending.skip(count)),
                        wire: self.wire + self.sink.pending.take(count),
                        ..self
                    }
                },
                FlushStep::ForwardEof => Session { sink: self.sink.forward_eof(), ..self },
                FlushStep::FlushInner => self,
            },
        }
    }

    /// The session after `calls`.
    pub open spec fn after_calls(self, calls: Seq<Call>) -> Session
        decreases calls.len(),
    {
        if calls.len() == 0 {
            self
        } else {
            self.after_calls(calls.drop_last()).after_call(calls.last())
        }
    }

    /// What holds of every session that starts with nothing done.
    pub open spec fn wf(self) -> bool {
        &&& self.sink.wf()
        &&& self.records.len() == self.sink.encoded_frames
        &&& self.raw.len() > 0 ==> self.records.len() == PADDED_FRAME_LIMIT
        &&& forall|i: int|
            0 <= i < self.records.len() ==> 0 < (#[trigger] self.records[i]).data.len()
                <= MAX_ORIGINAL_DATA_SIZE
        &&& self.wire + self.sink.pending == laws::records_frames(self.records) + self.raw
        &&& self.accepted == laws::records_data(self.records) + self.raw
    }
}

/// What one write does, in every case.
proof fn lemma_write(
    sink: SinkState,
    data: Seq<u8>,
    padding_size: u8,
    first_room: nat,
    second_room: nat,
)
    requires
        sink.wf(),
    ensures
        ({
            let written = write(sink, data, padding_size, first_room, second_room);
            let part = data.take(data.len() - written.rest.len());
            &&& written.sink.wf()
            &&& written.rest.len() <= data.len()
            &&& written.rest == data.skip(data.len() - written.rest.len())
            &&& written.framed ==> {
                &&& 0 < part.len() <= MAX_ORIGINAL_DATA_SIZE
                &&& sink.encoded_frames < PADDED_FRAME_LIMIT
                &&& written.sink.encoded_frames == sink.encoded_frames + 1
                &&& written.sent + written.sink.pending == sink.pending + frame::frame(
                    part,
                    padding_size,
                )
            }
            &&& !written.framed ==> {
                &&& written.sink.encoded_frames == sink.encoded_frames
                &&& part.len() > 0 ==> sink.encoded_frames == PADDED_FRAME_LIMIT
                &&& part.len() > 0 ==> written.sink.pending.len() == 0
                &&& written.sent + written.sink.pending == sink.pending + part
            }
        }),
{
    let written = write(sink, data, padding_size, first_room, second_room);
    let part = data.take(data.len() - written.rest.len());
    let first = sink.pending.take(taken(sink.pending, first_room));
    let left = sink.pending.skip(taken(sink.pending, first_room));
    assert(first + left =~= sink.pending);
    let size = crate::sink::record_size(data);
    let encoded = frame::frame(data.take(size), padding_size);
    let room = if sink.pending.len() > 0 {
        second_room
    } else {
        first_room
    };
    assert(encoded.take(taken(encoded, room)) + encoded.skip(taken(encoded, room)) =~= encoded);
    assert(data.take(taken(data, room)) + data.skip(taken(data, room)) =~= data);
    assert(written.rest =~= data.skip(data.len() - written.rest.len()));
    if written.framed {
        assert(part =~= data.take(size));
        assert(written.sent + written.sink.pending =~= sink.pending + encoded);
    } else {
        assert(written.sent + written.sink.pending =~= sink.pending + part);
    }
}

/// Every call keeps what holds of sessions.
proof fn lemma_call_keeps_wf(session: Session, call: Call)
    requires
        session.wf(),
    ensures
        session.after_call(call).wf(),
{
    let after = session.after_call(call);
    match call {
        Call::Write { data, padding_size, first_room, second_room } => {
            lemma_write(session.sink, data, padding_size, first_room, second_room);
            let written = write(session.sink, data, padding_size, first_room, second_room);
            let part = data.take(data.len() - written.rest.len());
            let before = laws::records_frames(session.records);
            assert(after.wire + after.sink.pending =~= session.wire + (written.sent
                + written.sink.pending));
            if written.framed {
                let encoded = frame::frame(part, padding_size);
                assert(session.raw =~= Seq::empty());
                assert(after.records.drop_last() =~= session.records);
                assert(session.wire + (session.sink.pending + encoded) =~= (session.wire
                    + session.sink.pending) + encoded);
                assert(before + session.raw + encoded =~= before + encoded + session.raw);
                assert(after.accepted =~= laws::records_data(after.records) + after.raw);
                assert forall|i: int| 0 <= i < after.records.len() implies 0 < (
                #[trigger] after.records[i]).data.len() <= MAX_ORIGINAL_DATA_SIZE by {
                    if i < session.records.len() {
                        assert(after.records[i] == session.records[i]);
                    }
                }
            } else {
                assert(session.wire + (session.sink.pending + part) =~= (session.wire
                    + session.sink.pending) + part);
                assert(before + session.raw + part =~= before + (session.raw + part));
                assert(after.accepted =~= laws::records_data(after.records) + after.raw);
            }
        },
        Call::Eof => {},
        Call::Flush { room } => {
            let count = taken(session.sink.pending, room);
            assert(session.wire + session.sink.pending.take(count) + session.sink.pending.skip(
                count,
            ) =~= session.wire + session.sink.pending);
        },
    }
}

/// Whatever is done with a fresh sink, the stream underneath carries a frame
/// for each of the first eight records, then unframed data and nothing else,
/// except for what is still pending. The records and the unframed data together
/// are what was accepted.
pub proof fn law_wire_format(calls: Seq<Call>)
    ensures
        Session::initial().after_calls(calls).wf(),
    decreases calls.len(),
{
    if calls.len() == 0 {
        let session = Session::initial();
        assert(session.wire + session.sink.pending =~= laws::records_frames(session.records)
            + session.raw);
        assert(session.accepted =~= laws::records_data(session.records) + session.raw);
    } else {
        law_wire_format(calls.drop_last());
        lemma_call_keeps_wf(
            Session::initial().after_calls(calls.drop_last()),
            calls.last(),
        );
    }
}

/// What was accepted is what the receiving end gets: all of it once nothing is
/// pending, with the receiving end outside of frames, and the front of it at
/// any time before.
pub proof fn law_accepted_data_round_trip(calls: Seq<Call>)
    ensures
        ({
            let session = Session::initial().after_calls(calls);
            let reader = decoder::boundary(0);
            &&& reader.payload(session.wire + session.sink.pending) == session.accepted
            &&& reader.after(session.wire + session.sink.pending) == decoder::boundary(
                session.sink.encoded_frames,
            )
            &&& session.sink.pending.len() == 0 ==> reader.payload(session.wire)
                == session.accepted && !reader.after(session.wire).in_frame()
            &&& reader.payload(session.wire).is_prefix_of(session.accepted)
        }),
{
    let session = Session::initial().after_calls(calls);
    let reader = decoder::boundary(0);
    law_wire_format(calls);
    laws::law_records_round_trip(session.records, session.raw);
    decoder::law_decoding_ignores_fragmentation(reader, session.wire, session.sink.pending);
    assert(session.sink.pending.len() == 0 ==> session.wire + session.sink.pending
        =~= session.wire);
}

/// From end to end: once nothing is pending, a fresh reader that gets the
/// stream in any `chunks` delivers exactly what was accepted, and takes the end
/// of the stream for a clean one.
pub proof fn law_reader_gets_what_was_accepted(calls: Seq<Call>, chunks: Seq<Seq<u8>>)
    requires
        Session::initial().after_calls(calls).sink.pending.len() == 0,
        laws::joined(chunks) == Session::initial().after_calls(calls).wire,
    ensures
        laws::delivered(decoder::boundary(0), chunks) == Session::initial().after_calls(
            calls,
        ).accepted,
        !laws::after_chunks(decoder::boundary(0), chunks).in_frame(),
{
    law_accepted_data_round_trip(calls);
    laws::law_any_chunking_decodes_alike(decoder::boundary(0), chunks);
}

/// EOF reaches the stream underneath only when it was requested and all that
/// was accepted went before it. After that nothing is sent or accepted, and
/// EOF is not forwarded again.
pub proof fn law_nothing_follows_eof(calls: Seq<Call>, later: Seq<Call>)
    requires
        Session::initial().after_calls(calls).sink.eof_sent,
    ensures
        ({
            let ended = Session::initial().after_calls(calls);
            let session = ended.after_calls(later);
            &&& ended.sink.eof_pending
            &&& decoder::boundary(0).payload(ended.wire) == ended.accepted
            &&& session.wire == ended.wire
            &&& session.accepted == ended.accepted
            &&& session.sink == ended.sink
            &&& session.sink.flush_step() == FlushStep::FlushInner
        }),
    decreases later.len(),
{
    let ended = Session::initial().after_calls(calls);
    law_wire_format(calls);
    law_accepted_data_round_trip(calls);
    if later.len() > 0 {
        law_nothing_follows_eof(calls, later.drop_last());
        let before = ended.after_calls(later.drop_last());
        let session = before.after_call(later.last());
        assert(session.wire =~= before.wire);
        assert(session.accepted =~= before.accepted);
        assert(session.sink =~= before.sink);
    }
}

/// A write after the end was requested is refused, and changes nothing.
pub proof fn law_write_after_eof_is_refused(sink: SinkState, data: Seq<u8>, padding_size: u8)
    requires
        sink.eof_pending,
    ensures
        sink.begin_write(data, padding_size) == (
            sink,
            StepView::Refuse(PaddingError::WriteAfterEof),
        ),
{
}

/// A write to a sink with nothing pending, while records are still framed,
/// makes one record. It accepts as much as a record can hold, and no more,
/// however much the stream underneath takes.
pub proof fn law_large_payload_is_split(
    sink: SinkState,
    data: Seq<u8>,
    padding_size: u8,
    first_room: nat,
    second_room: nat,
)
    requires
        !sink.eof_pending,
        sink.pending.len() == 0,
        sink.encoded_frames < PADDED_FRAME_LIMIT,
        data.len() > 0,
    ensures
        ({
            let written = write(sink, data, padding_size, first_room, second_room);
            let size = if data.len() <= MAX_ORIGINAL_DATA_SIZE {
                data.len() as int
            } else {
                MAX_ORIGINAL_DATA_SIZE as int
            };
            &&& written.framed
            &&& written.rest == data.skip(size)
            &&& written.sent + written.sink.pending == frame::frame(data.take(size), padding_size)
        }),
{
    let encoded = frame::frame(data.take(crate::sink::record_size(data)), padding_size);
    let count = taken(encoded, first_room);
    assert(encoded.take(count) + encoded.skip(count) =~= encoded);
}

/// A write to a sink that has framed all the records it frames, with nothing
/// pending, hands the data on as it is.
pub proof fn law_later_payload_is_unframed(
    sink: SinkState,
    data: Seq<u8>,
    padding_size: u8,
    first_room: nat,
    second_room: nat,
)
    requires
        !sink.eof_pending,
        sink.pending.len() == 0,
        sink.encoded_frames >= PADDED_FRAME_LIMIT,
    ensures
        ({
            let written = write(sink, data, padding_size, first_room, second_room);
            &&& !written.framed
            &&& written.sink == sink
            &&& written.sent + written.rest == data
        }),
{
    let count = taken(data, first_room);
    assert(data.take(count) + data.skip(count) =~= data);
}

/// While a frame is pending, no new data is accepted before all of that frame
/// is taken.
pub proof fn law_pending_frame_goes_first(
    sink: SinkState,
    data: Seq<u8>,
    padding_size: u8,
    first_room: nat,
    second_room: nat,
)
    requires
        !sink.eof_pending,
        first_room < sink.pending.len(),
    ensures
        write(sink, data, padding_size, first_room, second_room) == (Written {
            sink: sink.with_pending(sink.pending.skip(first_room as int)),
            sent: sink.pending.take(first_room as int),
            rest: data,
            framed: false,
        }),
{
    assert(write(sink, data, padding_size, first_room, second_room).sent =~= sink.pending.take(
        first_room as int,
    ));
}

/// A flush drains the pending frame as far as the stream underneath has room,
/// and forwards EOF, where it was requested, only behind that frame.
pub proof fn law_flush_drains_before_eof(session: Session, room: nat)
    ensures
        ({
            let after = session.after_call(Call::Flush { room });
            let pending = session.sink.pending;
            &&& pending.len() > 0 ==> {
                &&& after.wire + after.sink.pending == session.wire + pending
                &&& after.sink.eof_sent == session.sink.eof_sent
                &&& room > 0 ==> after.sink.pending.len() < pending.len()
                &&& room >= pending.len() ==> after.sink.pending.len() == 0
            }
            &&& pending.len() == 0 ==> {
                &&& after.wire == session.wire
                &&& session.sink.eof_pending ==> after.sink.eof_sent
            }
            &&& after.accepted == session.accepted
            &&& after.sink.encoded_frames == session.sink.encoded_frames
        }),
{
    let after = session.after_call(Call::Flush { room });
    assert(session.sink.pending.len() > 0 ==> after.wire + after.sink.pending =~= session.wire
        + session.sink.pending);
}

/// A write that finds room for all that is pending, with fewer than eight
/// records made, sends the pending bytes and behind them one record of as much
/// of the data as fits: up to 65535 bytes, and not less than there is.
pub proof fn law_write_drains_and_frames(
    sink: SinkState,
    data: Seq<u8>,
    padding_size: u8,
    first_room: nat,
    second_room: nat,
)
    requires
        !sink.eof_pending,
        sink.encoded_frames < 8,
        first_room >= sink.pending.len(),
        data.len() > 0,
    ensures
        ({
            let written = write(sink, data, padding_size, first_room, second_room);
            let size: int = if data.len() <= 65535 {
                data.len() as int
            } else {
                65535
            };
            let room = if sink.pending.len() > 0 {
                second_room
            } else {
                first_room
            };
            let all = written.sent + written.sink.pending;
            let record = all.skip(sink.pending.len() as int);
            &&& written.framed
            &&& written.rest == data.skip(size)
            &&& all.take(sink.pending.len() as int) == sink.pending
            &&& record.len() == 3 + size + padding_size
            &&& record[0] * 256 + record[1] == size
            &&& record[2] == padding_size
            &&& record.subrange(3, 3 + size) == data.take(size)
            &&& forall|i: int| 3 + size <= i < record.len() ==> #[trigger] record[i] == 0
            &&& written.sent.len() == sink.pending.len() + if room <= record.len() {
                room as int
            } else {
                record.len() as int
            }
            &&& written.sink.encoded_frames == sink.encoded_frames + 1
            &&& !written.sink.eof_pending
            &&& written.sink.eof_sent == sink.eof_sent
        }),
{
    let written = write(sink, data, padding_size, first_room, second_room);
    let size = crate::sink::record_size(data);
    let encoded = frame::frame(data.take(size), padding_size);
    let room = if sink.pending.len() > 0 {
        second_room
    } else {
        first_room
    };
    let count = taken(encoded, room);
    frame::law_frame_layout(data.take(size), padding_size);
    assert(encoded.take(count) + encoded.skip(count) =~= encoded);
    assert(sink.pending.take(sink.pending.len() as int) =~= sink.pending);
    assert(sink.pending.skip(sink.pending.len() as int) =~= Seq::empty());
    assert(written.sent + written.sink.pending =~= sink.pending + encoded);
    assert((sink.pending + encoded).skip(sink.pending.len() as int) =~= encoded);
    assert((sink.pending + encoded).take(sink.pending.len() as int) =~= sink.pending);
}

/// A write that finds room for all that is pending, after eight records or
/// with no data, sends the pending bytes and behind them the data as it is, as
/// far as there is room. The rest of the data is handed back.
pub proof fn law_write_drains_and_forwards(
    sink: SinkState,
    data: Seq<u8>,
    padding_size: u8,
    first_room: nat,
    second_room: nat,
)
    requires
        !sink.eof_pending,
        sink.encoded_frames >= 8 || data.len() == 0,
        first_room >= sink.pending.len(),
    ensures
        ({
            let written = write(sink, data, padding_size, first_room, second_room);
            let room = if sink.pending.len() > 0 {
                second_room
            } else {
                first_room
            };
            let count: int = if room <= data.len() {
                room as int
            } else {
                data.len() as int
            };
            &&& !written.framed
            &&& written.sent == sink.pending + data.take(count)
            &&& written.rest == data.skip(count)
            &&& written.sink.pending.len() == 0
            &&& written.sink.encoded_frames == sink.encoded_frames
            &&& !written.sink.eof_pending
            &&& written.sink.eof_sent == sink.eof_sent
        }),
{
    let written = write(sink, data, padding_size, first_room, second_room);
    let room = if sink.pending.len() > 0 {
        second_room
    } else {
        first_room
    };
    assert(sink.pending.take(sink.pending.len() as int) =~= sink.pending);
    assert(sink.pending.skip(sink.pending.len() as int) =~= Seq::empty());
    assert(written.sent =~= sink.pending + data.take(taken(data, room)));
}

/// A write that does not find room for all that is pending sends what fits of
/// it, and accepts no data. Nothing but the pending bytes changes.
pub proof fn law_write_stops_at_pending_bytes(
    sink: SinkState,
    data: Seq<u8>,
    padding_size: u8,
    first_room: nat,
    second_room: nat,
)
    requires
        !sink.eof_pending,
        first_room < sink.pending.len(),
    ensures
        ({
            let written = write(sink, data, padding_size, first_room, second_room);
            &&& !written.framed
            &&& written.sent == sink.pending.take(first_room as int)
            &&& written.rest == data
            &&& written.sink.pending == sink.pending.skip(first_room as int)
            &&& written.sink.encoded_frames == sink.encoded_frames
            &&& !written.sink.eof_pending
            &&& written.sink.eof_sent == sink.eof_sent
        }),
{
    assert(write(sink, data, padding_size, first_room, second_room).sent =~= sink.pending.take(
        first_room as int,
    ));
}

/// The size of the padding shows on the wire, whatever the payload: two writes
/// that differ only in what was drawn differ in length by as much.
pub proof fn law_drawn_size_shows_on_the_wire(
    sink: SinkState,
    data: Seq<u8>,
    one: u8,
    other: u8,
    first_room: nat,
    second_room: nat,
)
    requires
        !sink.eof_pending,
        sink.encoded_frames < 8,
        first_room >= sink.pending.len(),
        data.len() > 0,
    ensures
        ({
            let first = write(sink, data, one, first_room, second_room);
            let second = write(sink, data, other, first_room, second_room);
            (first.sent.len() + first.sink.pending.len()) - (second.sent.len()
                + second.sink.pending.len()) == one - other
        }),
{
    law_write_drains_and_frames(sink, data, one, first_room, second_room);
    law_write_drains_and_frames(sink, data, other, first_room, second_room);
}

/// A request for the end takes hold in every session, and touches neither what
/// is pending nor what was sent and accepted.
pub proof fn law_eof_request_takes_hold(session: Session)
    ensures
        ({
            let after = session.after_call(Call::Eof);
            &&& after.sink.eof_pending
            &&& after.sink.pending == session.sink.pending
            &&& after.sink.encoded_frames == session.sink.encoded_frames
            &&& after.sink.eof_sent == session.sink.eof_sent
            &&& after.wire == session.wire
            &&& after.accepted == session.accepted
        }),
{
}

/// Once the end was requested it stays so, whatever is called, and all that the
/// stream underneath still gets is what was pending then. Nothing more is
/// accepted and no more records are made.
pub proof fn law_eof_request_is_never_forgotten(session: Session, calls: Seq<Call>)
    requires
        session.sink.eof_pending,
    ensures
        ({
            let after = session.after_calls(calls);
            &&& after.sink.eof_pending
            &&& after.accepted == session.accepted
            &&& after.sink.encoded_frames == session.sink.encoded_frames
            &&& after.wire + after.sink.pending == session.wire + session.sink.pending
            &&& session.sink.eof_sent ==> after.sink.eof_sent
        }),
    decreases calls.len(),
{
    if calls.len() > 0 {
        law_eof_request_is_never_forgotten(session, calls.drop_last());
        let before = session.after_calls(calls.drop_last());
        let after = before.after_call(calls.last());
        match calls.last() {
            Call::Write { data, padding_size, first_room, second_room } => {
                law_write_is_refused_after_eof(
                    before,
                    data,
                    padding_size,
                    first_room,
                    second_room,
                );
            },
            Call::Eof => {},
            Call::Flush { room } => {
                law_flush_drains_before_eof(before, room);
            },
        }
        assert(after.wire + after.sink.pending =~= before.wire + before.sink.pending);
    }
}

/// Once the end was requested a write accepts no data, sends nothing and makes
/// no record, in every session.
pub proof fn law_write_is_refused_after_eof(
    session: Session,
    data: Seq<u8>,
    padding_size: u8,
    first_room: nat,
    second_room: nat,
)
    requires
        session.sink.eof_pending,
    ensures
        ({
            let after = session.after_call(
                Call::Write { data, padding_size, first_room, second_room },
            );
            &&& session.sink.begin_write(data, padding_size).1 == StepView::Refuse(
                PaddingError::WriteAfterEof,
            )
            &&& after.wire == session.wire
            &&& after.accepted == session.accepted
            &&& after.records == session.records
            &&& after.sink.pending == session.sink.pending
            &&& after.sink.encoded_frames == session.sink.encoded_frames
            &&& after.sink.eof_pending
            &&& after.sink.eof_sent == session.sink.eof_sent
        }),
{
    let after = session.after_call(Call::Write { data, padding_size, first_room, second_room });
    assert(after.wire =~= session.wire);
    assert(after.accepted =~= session.accepted);
}

/// One round of a flush while a frame is pending changes nothing but the
/// pending bytes: they move on to the wire, as far as there is room.
pub proof fn law_drain_moves_pending_bytes(session: Session, room: nat)
    requires
        session.sink.pending.len() > 0,
    ensures
        ({
            let after = session.after_call(Call::Flush { room });
            let count: int = if room <= session.sink.pending.len() {
                room as int
            } else {
                session.sink.pending.len() as int
            };
            &&& after.wire == session.wire + session.sink.pending.take(count)
            &&& after.sink.pending == session.sink.pending.skip(count)
            &&& after.sink.encoded_frames == session.sink.encoded_frames
            &&& after.sink.eof_pending == session.sink.eof_pending
            &&& after.sink.eof_sent == session.sink.eof_sent
            &&& after.accepted == session.accepted
        }),
{
}

/// The rounds of a flush.
pub open spec fn flush_rounds(rooms: Seq<nat>) -> Seq<Call> {
    rooms.map_values(|room: nat| Call::Flush { room })
}

/// A flush ends the stream underneath, if that was requested: rounds that each
/// have some room send all that is pending, and one round more than there are
/// pending bytes forwards the end.
pub proof fn law_flush_ends_the_stream(session: Session, rooms: Seq<nat>)
    requires
        session.sink.eof_pending,
        forall|i: int| 0 <= i < rooms.len() ==> #[trigger] rooms[i] > 0,
    ensures
        ({
            let after = session.after_calls(flush_rounds(rooms));
            let pending = session.sink.pending;
            &&& after.wire + after.sink.pending == session.wire + pending
            &&& after.accepted == session.accepted
            &&& after.sink.eof_pending
            &&& rooms.len() <= pending.len() ==> after.sink.pending.len() <= pending.len()
                - rooms.len()
            &&& rooms.len() > pending.len() ==> {
                &&& after.sink.pending.len() == 0
                &&& after.wire == session.wire + pending
                &&& after.sink.eof_sent
            }
        }),
    decreases rooms.len(),
{
    let rounds = flush_rounds(rooms);
    let after = session.after_calls(rounds);
    if rooms.len() > 0 {
        let earlier = rooms.drop_last();
        assert(rounds.drop_last() =~= flush_rounds(earlier));
        assert forall|i: int| 0 <= i < earlier.len() implies #[trigger] earlier[i] > 0 by {
            assert(earlier[i] == rooms[i]);
        }
        law_flush_ends_the_stream(session, earlier);
        let before = session.after_calls(flush_rounds(earlier));
        let room = rooms.last();
        assert(room == rooms[rooms.len() - 1]);
        assert(rounds.last() == Call::Flush { room });
        law_flush_drains_before_eof(before, room);
        law_eof_request_is_never_forgotten(session, rounds);
        assert(after.wire + after.sink.pending =~= before.wire + before.sink.pending);
    }
    if rooms.len() > session.sink.pending.len() {
        assert(after.wire + after.sink.pending =~= after.wire);
    }
}

/// How often the stream underneath is ended by `calls`.
pub open spec fn times_ended(session: Session, calls: Seq<Call>) -> nat
    decreases calls.len(),
{
    if calls.len() == 0 {
        0
    } else {
        let before = session.after_calls(calls.drop_last());
        times_ended(session, calls.drop_last()) + if calls.last() is Flush
            && before.sink.flush_step() == FlushStep::ForwardEof {
            1nat
        } else {
            0nat
        }
    }
}

/// The stream underneath is ended at most once, whatever is called, and only
/// after the end was requested.
pub proof fn law_stream_is_ended_once(session: Session, calls: Seq<Call>)
    requires
        !session.sink.eof_sent,
    ensures
        ({
            let after = session.after_calls(calls);
            &&& after.sink.eof_sent ==> times_ended(session, calls) == 1
            &&& !after.sink.eof_sent ==> times_ended(session, calls) == 0
            &&& times_ended(session, calls) > 0 ==> after.sink.eof_pending
        }),
    decreases calls.len(),
{
    if calls.len() > 0 {
        law_stream_is_ended_once(session, calls.drop_last());
        let before = session.after_calls(calls.drop_last());
        if before.sink.eof_pending {
            assert(before.after_calls(seq![calls.last()]).sink.eof_pending) by {
                law_eof_request_is_never_forgotten(before, seq![calls.last()]);
            }
            assert(seq![calls.last()].drop_last() =~= Seq::<Call>::empty());
            reveal_with_fuel(Session::after_calls, 2);
        }
    }
}

/// A request for the end leads to the end, exactly once: in any session that
/// starts with nothing done, a request and then a flush with some room in each
/// round ends the stream underneath, behind all that was accepted. No later
/// call ends it again or sends anything, and every later write is refused.
pub proof fn law_requested_eof_ends_the_stream_once(
    calls: Seq<Call>,
    rooms: Seq<nat>,
    later: Seq<Call>,
)
    requires
        forall|i: int| 0 <= i < rooms.len() ==> #[trigger] rooms[i] > 0,
        rooms.len() > Session::initial().after_calls(calls).sink.pending.len(),
    ensures
        ({
            let history = calls.push(Call::Eof) + flush_rounds(rooms);
            let ended = Session::initial().after_calls(history);
            &&& ended.sink.eof_sent
            &&& ended.wire == Session::initial().after_calls(calls).wire
                + Session::initial().after_calls(calls).sink.pending
            &&& decoder::boundary(0).payload(ended.wire) == ended.accepted
            &&& times_ended(Session::initial(), history) == 1
            &&& times_ended(Session::initial(), history + later) == 1
            &&& Session::initial().after_calls(history + later).wire == ended.wire
            &&& Session::initial().after_calls(history + later).sink.eof_pending
            &&& forall|data: Seq<u8>, padding_size: u8|
                (#[trigger] Session::initial().after_calls(history + later).sink.begin_write(
                    data,
                    padding_size,
                )).1 == StepView::Refuse(PaddingError::WriteAfterEof)
        }),
{
    let start = Session::initial();
    let requested = start.after_calls(calls.push(Call::Eof));
    let history = calls.push(Call::Eof) + flush_rounds(rooms);
    assert(calls.push(Call::Eof).drop_last() =~= calls);
    law_eof_request_takes_hold(start.after_calls(calls));
    law_flush_ends_the_stream(requested, rooms);
    lemma_calls_join(start, calls.push(Call::Eof), flush_rounds(rooms));
    lemma_calls_join(start, history, later);
    law_stream_is_ended_once(start, history);
    law_nothing_follows_eof(history, later);
    law_stream_is_ended_once(start, history + later);
}

/// Calls made one after the other.
proof fn lemma_calls_join(session: Session, first: Seq<Call>, second: Seq<Call>)
    ensures
        session.after_calls(first + second) == session.after_calls(first).after_calls(second),
    decreases second.len(),
{
    if second.len() == 0 {
        assert(first + second =~= first);
    } else {
        assert((first + second).drop_last() =~= first + second.drop_last());
        lemma_calls_join(session, first, second.drop_last());
    }
}

} // verus!
