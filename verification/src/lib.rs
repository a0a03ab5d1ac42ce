//! Optional padding for TCP CONNECT streams.
//!
//! A client requests padding by sending a `padding` header with its CONNECT
//! request. A capable endpoint puts the same header into the successful
//! response. The value of the header carries no protocol data; that of a
//! response has 30 to 62 characters, 16 random ones followed by `~` characters.
//!
//! Once negotiated, each direction independently frames its first eight payload
//! records. Later payload bytes are sent without framing. Payloads larger than
//! [`u16::MAX`] are split across records. Each padded record has this format:
//!
//! ```text
//! +------------------------------+-------------------+----------------+---------+
//! | Original data size (u16, BE) | Padding size (u8) | Original data  | Zeros   |
//! +------------------------------+-------------------+----------------+---------+
//! ```
//!
//! The padding size is drawn from 0 through 255. The end of a stream does not
//! count as a payload record and is not padded.
//!
//! - [`frame`] encodes a record, and [`header`] makes the header of a response.
//! - [`source`] removes frames from a stream; [`decoder`] says what it delivers.
//! - [`sink`] adds frames to a stream.
//! - [`step_laws`] proves what single steps of a sink do, and [`laws`] and
//!   [`session`] what holds of whole streams.
//! - [`bytebuf`], [`random`] and [`header`] state what is relied on of the
//!   crates `bytes`, `rand` and `http`.

pub mod bytebuf;
pub mod decoder;
pub mod error;
pub mod frame;
pub mod header;
pub mod laws;
pub mod random;
pub mod session;
pub mod sink;
pub mod source;
pub mod step_laws;

use vstd::prelude::*;

use crate::sink::PaddingSink;
use crate::source::PaddingSource;

verus! {

/// Wraps the client-facing halves of a negotiated TCP CONNECT stream. The two
/// directions are padded independently of each other.
pub fn wrap<S, K>(source: S, sink: K) -> (wrapped: (PaddingSource<S>, PaddingSink<K>))
    ensures
        wrapped.0.wf(),
        wrapped.0.inner == source,
        wrapped.0@ == decoder::boundary(0),
        wrapped.0.state == decoder::ReadState::ReadDataSizeHigh,
        wrapped.0.completed_frames == 0,
        wrapped.1.wf(),
        wrapped.1.inner == sink,
        wrapped.1@ == sink::SinkState::initial(),
        bytebuf::content(wrapped.1.pending_frame).len() == 0,
        wrapped.1.encoded_frames == 0,
        !wrapped.1.eof_pending,
        !wrapped.1.eof_sent,
        wrapped.1.draws@.len() == 0,
{
    (PaddingSource::new(source), PaddingSink::new(sink))
}

} // verus!
