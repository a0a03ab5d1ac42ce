use std::collections::{HashSet, VecDeque};

use bytes::{BufMut, Bytes, BytesMut};
use connect_padding::decoder::ReadState;
use connect_padding::error::{ErrorKind, PaddingError};
use connect_padding::frame::{encode_frame, MAX_ORIGINAL_DATA_SIZE, PADDED_FRAME_LIMIT};
use connect_padding::header::{
    response_header, HEADER_RANDOM_CHARACTERS, HEADER_TAIL_CHARACTER, RESPONSE_HEADER_LENGTH_RANGE,
    RESPONSE_HEADER_MIN_SIZE, RESPONSE_HEADER_RANDOM_PREFIX_SIZE,
};
use connect_padding::sink::{FlushStep, PaddingSink, WriteStep};
use connect_padding::source::{Data, PaddingSource, ReadStep};

struct TestSource {
    chunks: VecDeque<Bytes>,
    consumed: usize,
}

struct TestSink {
    output: Vec<u8>,
    max_write_size: usize,
    eof: bool,
}

impl TestSource {
    fn read(&mut self) -> Data {
        match self.chunks.pop_front() {
            Some(chunk) => Data::Chunk(chunk),
            None => Data::Eof,
        }
    }
}

impl TestSink {
    fn write(&mut self, mut data: Bytes) -> Bytes {
        let to_write = data.len().min(self.max_write_size);
        self.output.extend_from_slice(&data.split_to(to_write));
        data
    }
}

fn test_source(chunks: impl IntoIterator<Item = Bytes>) -> PaddingSource<TestSource> {
    PaddingSource::new(TestSource {
        chunks: chunks.into_iter().collect(),
        consumed: 0,
    })
}

fn test_sink(max_write_size: usize) -> PaddingSink<TestSink> {
    PaddingSink::new(TestSink {
        output: Vec::new(),
        max_write_size,
        eof: false,
    })
}

fn read(source: &mut PaddingSource<TestSource>) -> Result<Data, PaddingError> {
    loop {
        let data = source.inner.read();
        match source.receive(data) {
            ReadStep::Deliver { consumed, chunk } => {
                source.inner.consumed += consumed;
                return Ok(Data::Chunk(chunk));
            }
            ReadStep::ReadAgain { consumed } => source.inner.consumed += consumed,
            ReadStep::Finish => return Ok(Data::Eof),
            ReadStep::Fail(error) => return Err(error),
        }
    }
}

fn read_all(source: &mut PaddingSource<TestSource>) -> Result<Bytes, PaddingError> {
    let mut output = BytesMut::new();
    loop {
        match read(source)? {
            Data::Chunk(data) => output.put(data),
            Data::Eof => return Ok(output.freeze()),
        }
    }
}

fn write(sink: &mut PaddingSink<TestSink>, data: Bytes) -> Result<Bytes, PaddingError> {
    let mut step = sink.begin_write(data);
    loop {
        step = match step {
            WriteStep::Offer { bytes, context } => {
                let rest = sink.inner.write(bytes);
                sink.resume_write(context, rest)
            }
            WriteStep::Forward(data) => return Ok(sink.inner.write(data)),
            WriteStep::Return(data) => return Ok(data),
            WriteStep::Refuse(error) => return Err(error),
        };
    }
}

fn flush(sink: &mut PaddingSink<TestSink>) {
    loop {
        match sink.flush_step() {
            FlushStep::DrainPending => {
                let frame = sink.take_pending().unwrap();
                let rest = sink.inner.write(frame);
                sink.restore_pending(rest);
            }
            FlushStep::ForwardEof => {
                sink.inner.eof = true;
                sink.eof_forwarded();
            }
            FlushStep::FlushInner => return,
        }
    }
}

#[test]
fn response_header_has_expected_contents() {
    let mut values = HashSet::new();
    for _ in 0..256 {
        let value = response_header();
        assert!((RESPONSE_HEADER_MIN_SIZE
            ..RESPONSE_HEADER_MIN_SIZE + RESPONSE_HEADER_LENGTH_RANGE)
            .contains(&value.len()));
        assert!(value.as_bytes()[..RESPONSE_HEADER_RANDOM_PREFIX_SIZE]
            .iter()
            .all(|byte| HEADER_RANDOM_CHARACTERS.contains(byte)));
        assert!(value.as_bytes()[RESPONSE_HEADER_RANDOM_PREFIX_SIZE..]
            .iter()
            .all(|byte| *byte == HEADER_TAIL_CHARACTER));
        assert!(value.is_sensitive());
        values.insert(value.as_bytes()[..RESPONSE_HEADER_RANDOM_PREFIX_SIZE].to_vec());
    }
    assert!(values.len() > 1);
}

#[test]
fn read_state_advances_one_header_byte_at_a_time() {
    let mut source = test_source([]);
    let mut output = BytesMut::new();

    source.decode(Bytes::from_static(&[1]), &mut output);
    assert_eq!(source.state, ReadState::ReadDataSizeLow { high: 1 });

    source.decode(Bytes::from_static(&[2]), &mut output);
    assert_eq!(
        source.state,
        ReadState::ReadPaddingSize { data_size: 0x0102 }
    );

    source.decode(Bytes::from_static(&[3]), &mut output);
    assert_eq!(
        source.state,
        ReadState::ReadData {
            remaining: 0x0102,
            padding_size: 3
        }
    );
    assert!(output.is_empty());
}

#[test]
fn frame_uses_big_endian_length_and_zero_padding() {
    let frame = encode_frame(Bytes::from_static(b"payload"), u8::MAX);
    assert_eq!(&frame[..3], &[0, 7, u8::MAX]);
    assert_eq!(&frame[3..10], b"payload");
    assert!(frame[10..].iter().all(|byte| *byte == 0));
}

#[test]
fn frame_boundaries_round_trip() {
    for (payload_size, padding_size) in [
        (0, 0),
        (0, u8::MAX),
        (1, 0),
        (1, u8::MAX),
        (MAX_ORIGINAL_DATA_SIZE, 0),
        (MAX_ORIGINAL_DATA_SIZE, u8::MAX),
    ] {
        let payload = Bytes::from(vec![42; payload_size]);
        let frame = encode_frame(payload.clone(), padding_size);
        let mut source = test_source([frame]);
        assert_eq!(read_all(&mut source).unwrap(), payload);
    }
}

#[test]
fn decoder_handles_fragmented_and_coalesced_frames() {
    let mut encoded = BytesMut::new();
    for payload in [b"one".as_slice(), b"two", b"three"] {
        encoded.put(encode_frame(Bytes::copy_from_slice(payload), 2));
    }
    let encoded = encoded.freeze();
    let fragments = [
        encoded.slice(..1),
        encoded.slice(1..7),
        encoded.slice(7..encoded.len() - 1),
        encoded.slice(encoded.len() - 1..),
    ];
    let mut source = test_source(fragments);

    assert_eq!(read_all(&mut source).unwrap(), b"onetwothree".as_slice());
    assert_eq!(source.inner.consumed, encoded.len());
}

#[test]
fn decoder_switches_to_raw_bytes_after_eight_frames() {
    let mut encoded = BytesMut::new();
    for _ in 0..PADDED_FRAME_LIMIT {
        encoded.put(encode_frame(Bytes::from_static(b"x"), 0));
    }
    encoded.put_slice(b"raw");
    let mut source = test_source([encoded.freeze()]);

    assert_eq!(read_all(&mut source).unwrap(), b"xxxxxxxxraw".as_slice());
}

#[test]
fn decoder_counts_pure_padding_and_ignores_padding_contents() {
    let mut encoded = BytesMut::new();
    for _ in 0..PADDED_FRAME_LIMIT {
        encoded.put_u16(0);
        encoded.put_u8(1);
        encoded.put_u8(42);
    }
    encoded.put_slice(b"raw");
    let mut source = test_source([encoded.freeze()]);

    assert_eq!(read_all(&mut source).unwrap(), b"raw".as_slice());
}

#[test]
fn decoder_allows_clean_eof_before_eight_frames() {
    let frame = encode_frame(Bytes::from_static(b"x"), 0);
    let mut source = test_source([frame]);

    assert_eq!(read_all(&mut source).unwrap(), b"x".as_slice());
}

#[test]
fn decoder_rejects_partial_frame_at_eof() {
    for partial_frame in [
        Bytes::from_static(&[0]),
        Bytes::from_static(&[0, 4]),
        Bytes::from_static(&[0, 4, 0, 1, 2]),
        Bytes::from_static(&[0, 1, 2, 42]),
    ] {
        let mut source = test_source([partial_frame]);
        assert_eq!(
            read_all(&mut source).unwrap_err().kind(),
            ErrorKind::UnexpectedEof
        );
    }
}

#[test]
fn sink_handles_partial_writes_and_payload_larger_than_u16() {
    let mut sink = test_sink(7);
    let payload = Bytes::from(vec![1; MAX_ORIGINAL_DATA_SIZE + 1]);

    let tail = write(&mut sink, payload).unwrap();
    assert_eq!(tail.len(), 1);
    flush(&mut sink);
    assert!(write(&mut sink, tail).unwrap().is_empty());
    sink.eof().unwrap();
    assert!(!sink.inner.eof);
    flush(&mut sink);
    assert!(sink.inner.eof);

    let encoded = Bytes::from(sink.inner.output.clone());
    let mut source = test_source([encoded]);
    assert_eq!(
        read_all(&mut source).unwrap(),
        Bytes::from(vec![1; MAX_ORIGINAL_DATA_SIZE + 1])
    );
}

#[test]
fn sink_stops_framing_after_eight_frames() {
    let mut sink = test_sink(usize::MAX);

    for _ in 0..PADDED_FRAME_LIMIT {
        assert!(write(&mut sink, Bytes::from_static(b"x")).unwrap().is_empty());
    }
    assert!(write(&mut sink, Bytes::from_static(b"raw")).unwrap().is_empty());
    flush(&mut sink);

    let encoded = Bytes::from(sink.inner.output.clone());
    let mut source = test_source([encoded]);
    assert_eq!(read_all(&mut source).unwrap(), b"xxxxxxxxraw".as_slice());
}

#[test]
fn sink_does_not_frame_eof() {
    let mut sink = test_sink(usize::MAX);

    sink.eof().unwrap();
    flush(&mut sink);

    assert!(sink.inner.output.is_empty());
    assert!(sink.inner.eof);
    assert_eq!(sink.encoded_frames, 0);
}

#[test]
fn streams_of_many_sizes_round_trip() {
    for room in [1, 2, 3, 5, 64, 100_000] {
        let mut sink = test_sink(room);
        let mut expected = Vec::new();
        for (index, size) in [1, 2, 3, 7, 255, 256, 1024, 65535, 4096, 1, 0].iter().enumerate() {
            let mut data = Bytes::from(vec![index as u8; *size]);
            expected.extend_from_slice(&data);
            while !data.is_empty() {
                data = write(&mut sink, data).unwrap();
                flush(&mut sink);
            }
        }
        assert_eq!(sink.encoded_frames, PADDED_FRAME_LIMIT);

        let encoded = Bytes::from(sink.inner.output.clone());
        let mut chunks = Vec::new();
        let mut start = 0;
        while start < encoded.len() {
            let end = encoded.len().min(start + 977);
            chunks.push(encoded.slice(start..end));
            start = end;
        }
        let mut source = test_source(chunks);
        assert_eq!(read_all(&mut source).unwrap(), Bytes::from(expected));
        assert_eq!(source.inner.consumed, encoded.len());
        assert_eq!(source.completed_frames, PADDED_FRAME_LIMIT);
    }
}

#[test]
fn wire_read_before_a_flush_is_a_front_of_the_data() {
    let mut sink = test_sink(5);
    assert!(write(&mut sink, Bytes::from_static(b"payload")).unwrap().is_empty());
    assert_eq!(sink.inner.output.len(), 5);
    assert_eq!(&sink.inner.output[3..], b"pa");
    let mut source = test_source([Bytes::from(sink.inner.output.clone())]);
    match read(&mut source) {
        Ok(Data::Chunk(chunk)) => assert_eq!(chunk, b"pa".as_slice()),
        _ => panic!("payload is delivered as soon as it arrives"),
    }
    assert_eq!(read_all(&mut source).unwrap_err(), PaddingError::TruncatedFrame);
}

#[test]
fn padding_sizes_vary() {
    let mut sizes = HashSet::new();
    for _ in 0..64 {
        let mut sink = test_sink(usize::MAX);
        write(&mut sink, Bytes::from_static(b"x")).unwrap();
        assert_eq!(&sink.inner.output[..2], &[0, 1]);
        assert_eq!(sink.inner.output.len(), 4 + sink.inner.output[2] as usize);
        sizes.insert(sink.inner.output[2]);
    }
    assert!(sizes.len() > 1);
}

#[test]
fn wire_holds_frames_and_then_raw_bytes() {
    let mut sink = test_sink(3);
    for index in 0..PADDED_FRAME_LIMIT + 2 {
        let mut data = Bytes::from(vec![index as u8; index + 1]);
        while !data.is_empty() {
            data = write(&mut sink, data).unwrap();
        }
    }
    flush(&mut sink);

    let mut wire = sink.inner.output.as_slice();
    for index in 0..PADDED_FRAME_LIMIT {
        let padding_size = wire[2] as usize;
        let frame = encode_frame(Bytes::from(vec![index as u8; index + 1]), wire[2]);
        assert_eq!(&wire[..frame.len()], &frame[..]);
        assert_eq!(frame.len(), 3 + index + 1 + padding_size);
        wire = &wire[frame.len()..];
    }
    assert_eq!(wire, [[8; 9].as_slice(), [9; 10].as_slice()].concat());
}

#[test]
fn nothing_follows_eof() {
    let mut sink = test_sink(4);
    assert!(write(&mut sink, Bytes::from_static(b"last")).unwrap().is_empty());
    sink.eof().unwrap();
    flush(&mut sink);
    assert!(sink.inner.eof);
    let wire = sink.inner.output.clone();

    assert_eq!(
        write(&mut sink, Bytes::from_static(b"more")),
        Err(PaddingError::WriteAfterEof)
    );
    assert_eq!(sink.eof(), Err(PaddingError::RepeatedEof));
    assert_eq!(sink.flush_step(), FlushStep::FlushInner);
    assert!(sink.take_pending().is_none());
    assert_eq!(sink.inner.output, wire);

    let mut source = test_source([Bytes::from(wire)]);
    assert_eq!(read_all(&mut source).unwrap(), b"last".as_slice());
}
