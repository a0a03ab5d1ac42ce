//! The padded record, the unit in which a padded stream carries its first
//! payloads.

use bytes::{Bytes, BytesMut};
use vstd::prelude::*;

use crate::bytebuf;
use crate::bytebuf::{append_bytes, append_u16, append_u8};

verus! {

/// How many records of each direction are framed.
pub const PADDED_FRAME_LIMIT: usize = 8;

/// The size of a record's header: the data size and the padding size.
pub const FRAME_HEADER_SIZE: usize = 3;

/// The most data that one record can carry.
pub const MAX_ORIGINAL_DATA_SIZE: usize = 65535;

/// `count` zero bytes.
pub open spec fn zeros(count: nat) -> Seq<u8> {
    Seq::new(count, |i: int| 0u8)
}

/// The header of a record with `data_size` bytes of data, in big-endian order,
/// and `padding_size` bytes of padding.
pub open spec fn frame_header(data_size: nat, padding_size: u8) -> Seq<u8> {
    seq![(data_size / 256) as u8, (data_size % 256) as u8, padding_size]
}

/// A padded record: its header, the original data, and zeros.
pub open spec fn frame(data: Seq<u8>, padding_size: u8) -> Seq<u8> {
    frame_header(data.len(), padding_size) + data + zeros(padding_size as nat)
}

/// A record, byte by byte: two bytes with the size of the data, the high one
/// first, a byte with the size of the padding, the data as it is, and padding
/// of that size, all of it zeros.
pub proof fn law_frame_layout(data: Seq<u8>, padding_size: u8)
    requires
        data.len() <= 65535,
    ensures
        ({
            let bytes = frame(data, padding_size);
            &&& bytes.len() == 3 + data.len() + padding_size
            &&& bytes[0] * 256 + bytes[1] == data.len()
            &&& bytes[2] == padding_size
            &&& bytes.subrange(3, 3 + data.len() as int) == data
            &&& forall|i: int| 3 + data.len() <= i < bytes.len() ==> #[trigger] bytes[i] == 0
        }),
{
    assert(frame(data, padding_size).subrange(3, 3 + data.len() as int) =~= data);
}

/// Encodes `original_data` as one record with `padding_size` bytes of padding.
pub fn encode_frame(original_data: Bytes, padding_size: u8) -> (encoded: Bytes)
    requires
        bytebuf::content(original_data).len() <= MAX_ORIGINAL_DATA_SIZE,
    ensures
        bytebuf::content(encoded) == frame(
            bytebuf::content(original_data),
            padding_size,
        ),
        ({
            let data = bytebuf::content(original_data);
            let bytes = bytebuf::content(encoded);
            &&& bytes.len() == 3 + data.len() + padding_size
            &&& bytes[0] * 256 + bytes[1] == data.len()
            &&& bytes[2] == padding_size
            &&& bytes.subrange(3, 3 + data.len() as int) == data
            &&& forall|i: int| 3 + data.len() <= i < bytes.len() ==> #[trigger] bytes[i] == 0
        }),
{
    let ghost data = bytebuf::content(original_data);
    let original_data_size: u16 = original_data.len() as u16;
    let mut encoded = BytesMut::with_capacity(
        FRAME_HEADER_SIZE + original_data.len() + padding_size as usize,
    );
    append_u16(&mut encoded, original_data_size);
    append_u8(&mut encoded, padding_size);
    append_bytes(&mut encoded, original_data);
    let padded_size: usize = encoded.len() + padding_size as usize;
    encoded.resize(padded_size, 0);
    assert(bytebuf::content_mut(encoded) =~= frame(data, padding_size));
    proof {
        law_frame_layout(data, padding_size);
    }
    encoded.freeze()
}

} // verus!
