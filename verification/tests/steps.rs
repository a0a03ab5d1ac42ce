use bytes::{Bytes, BytesMut};
use connect_padding::decoder::ReadState;
use connect_padding::error::{ErrorKind, PaddingError};
use connect_padding::frame::{encode_frame, FRAME_HEADER_SIZE, PADDED_FRAME_LIMIT};
use connect_padding::header::{response_header_from, HEADER_NAME, HEADER_RANDOM_CHARACTERS};
use connect_padding::sink::{FlushStep, PaddingSink, WriteContext, WriteStep};
use connect_padding::source::{Data, PaddingSource, ReadStep};
use connect_padding::wrap;

#[test]
fn wrap_keeps_both_halves() {
    let (source, sink) = wrap("source", "sink");
    assert_eq!(source.inner, "source");
    assert_eq!(source.state, ReadState::ReadDataSizeHigh);
    assert_eq!(source.completed_frames, 0);
    assert_eq!(sink.inner, "sink");
    assert!(sink.pending_frame.is_empty());
    assert_eq!(sink.encoded_frames, 0);
    assert!(!sink.eof_pending);
    assert!(!sink.eof_sent);
}

#[test]
fn header_characters_and_name() {
    assert_eq!(HEADER_NAME, "padding");
    assert_eq!(&HEADER_RANDOM_CHARACTERS, b"!#$()+<>?@[]^`{}");
    let in_order: Vec<usize> = (0..16).collect();
    let value = response_header_from(30, &in_order);
    assert_eq!(value.as_bytes(), b"!#$()+<>?@[]^`{}~~~~~~~~~~~~~~");
    assert!(value.is_sensitive());

    let value = response_header_from(62, &vec![15; 16]);
    assert_eq!(value.as_bytes()[..16], [b'}'; 16]);
    assert_eq!(value.as_bytes()[16..], [b'~'; 46]);
}

#[test]
fn frame_bytes_are_exact() {
    assert_eq!(encode_frame(Bytes::from_static(b"abc"), 2), b"\x00\x03\x02abc\x00\x00".as_slice());
    assert_eq!(encode_frame(Bytes::new(), 0), b"\x00\x00\x00".as_slice());
    let long = encode_frame(Bytes::from(vec![7; 0x1234]), 1);
    assert_eq!(&long[..FRAME_HEADER_SIZE], &[0x12, 0x34, 1]);
    assert_eq!(long.len(), FRAME_HEADER_SIZE + 0x1234 + 1);
}

#[test]
fn decode_appends_and_handles_every_state() {
    let mut source = PaddingSource::new(());
    let mut output = BytesMut::from(&b"<"[..]);
    source.decode(Bytes::from_static(b"\x00\x03\x04ab"), &mut output);
    assert_eq!(source.state, ReadState::ReadData { remaining: 1, padding_size: 4 });
    source.decode(Bytes::from_static(b"czz"), &mut output);
    assert_eq!(source.state, ReadState::ReadPadding { remaining: 2 });
    assert!(source.has_partial_frame());
    source.decode(Bytes::from_static(b"zz\x00"), &mut output);
    assert_eq!(source.state, ReadState::ReadDataSizeLow { high: 0 });
    assert_eq!(source.completed_frames, 1);
    assert_eq!(&output[..], b"<abc");
}

#[test]
fn helpers_move_between_states() {
    let mut source = PaddingSource::new(());
    source.start_frame(5, 6);
    assert_eq!(source.state, ReadState::ReadData { remaining: 5, padding_size: 6 });
    source.start_frame(0, 6);
    assert_eq!(source.state, ReadState::ReadPadding { remaining: 6 });
    source.finish_data(9);
    assert_eq!(source.state, ReadState::ReadPadding { remaining: 9 });
    source.finish_data(0);
    assert_eq!(source.state, ReadState::ReadDataSizeHigh);
    assert_eq!(source.completed_frames, 1);
    assert!(!source.has_partial_frame());
    for _ in 1..PADDED_FRAME_LIMIT {
        source.finish_frame();
    }
    assert_eq!(source.state, ReadState::Raw);
    assert!(!source.has_partial_frame());
    assert!(source.consume(3).is_ok());
    assert_eq!(source.completed_frames, PADDED_FRAME_LIMIT);
}

#[test]
fn receive_accounts_for_all_encoded_bytes() {
    let mut source = PaddingSource::new(());
    assert!(matches!(
        source.receive(Data::Chunk(Bytes::from_static(b"\x00\x01"))),
        ReadStep::ReadAgain { consumed: 2 }
    ));
    assert!(matches!(
        source.receive(Data::Eof),
        ReadStep::Fail(PaddingError::TruncatedFrame)
    ));
    match source.receive(Data::Chunk(Bytes::from_static(b"\x02x\x00\x00"))) {
        ReadStep::Deliver { consumed, chunk } => {
            assert_eq!(consumed, 4);
            assert_eq!(chunk, b"x".as_slice());
        }
        _ => panic!("payload is delivered"),
    }
    assert!(matches!(source.receive(Data::Eof), ReadStep::Finish));
}

#[test]
fn frame_data_offers_exact_bytes() {
    let mut sink = PaddingSink::new(());
    match sink.frame_data(Bytes::from_static(b"hello"), 1) {
        WriteStep::Offer { bytes, context: WriteContext::Framed(tail) } => {
            assert_eq!(bytes, b"\x00\x05\x01hello\x00".as_slice());
            assert!(tail.is_empty());
        }
        _ => panic!("a frame is offered"),
    }
    assert_eq!(sink.encoded_frames, 1);
    match sink.frame_data(Bytes::from(vec![3; 65538]), 0) {
        WriteStep::Offer { bytes, context: WriteContext::Framed(tail) } => {
            assert_eq!(&bytes[..3], &[0xff, 0xff, 0]);
            assert_eq!(bytes.len(), 65538);
            assert_eq!(tail.len(), 3);
        }
        _ => panic!("a frame is offered"),
    }
    assert_eq!(sink.encoded_frames, 2);
}

#[test]
fn pending_frame_goes_before_new_data() {
    let mut sink = PaddingSink::new(());
    sink.restore_pending(Bytes::from_static(b"pending"));
    let context = match sink.begin_write(Bytes::from_static(b"data")) {
        WriteStep::Offer { bytes, context } => {
            assert_eq!(bytes, b"pending".as_slice());
            context
        }
        _ => panic!("the pending frame is offered"),
    };
    match sink.resume_write(context, Bytes::from_static(b"ing")) {
        WriteStep::Return(data) => assert_eq!(data, b"data".as_slice()),
        _ => panic!("no data is accepted"),
    }
    assert_eq!(sink.encoded_frames, 0);
    assert_eq!(sink.pending_frame, b"ing".as_slice());
}

#[test]
fn empty_data_is_forwarded_without_a_frame() {
    let mut sink = PaddingSink::new(());
    assert!(matches!(
        sink.begin_write(Bytes::new()),
        WriteStep::Forward(data) if data.is_empty()
    ));
    assert_eq!(sink.encoded_frames, 0);
}

#[test]
fn writes_and_requests_after_eof_are_refused() {
    let mut sink = PaddingSink::new(());
    assert!(sink.eof().is_ok());
    assert_eq!(sink.eof(), Err(PaddingError::RepeatedEof));
    assert!(matches!(
        sink.begin_write(Bytes::from_static(b"x")),
        WriteStep::Refuse(PaddingError::WriteAfterEof)
    ));
    assert_eq!(sink.encoded_frames, 0);
}

#[test]
fn flush_drains_before_it_forwards_eof() {
    let mut sink = PaddingSink::new(());
    assert_eq!(sink.flush_step(), FlushStep::FlushInner);
    sink.restore_pending(Bytes::from_static(b"frame"));
    sink.eof().unwrap();
    assert_eq!(sink.flush_step(), FlushStep::DrainPending);
    assert_eq!(sink.take_pending().unwrap(), b"frame".as_slice());
    sink.restore_pending(Bytes::from_static(b"me"));
    assert_eq!(sink.flush_step(), FlushStep::DrainPending);
    assert_eq!(sink.take_pending().unwrap(), b"me".as_slice());
    assert!(sink.take_pending().is_none());
    assert_eq!(sink.flush_step(), FlushStep::ForwardEof);
    sink.eof_forwarded();
    assert!(sink.eof_sent);
    assert_eq!(sink.flush_step(), FlushStep::FlushInner);
}

#[test]
fn errors_have_kinds_and_messages() {
    assert_eq!(PaddingError::TruncatedFrame.kind(), ErrorKind::UnexpectedEof);
    assert_eq!(PaddingError::TruncatedFrame.message(), None);
    assert_eq!(PaddingError::WriteAfterEof.kind(), ErrorKind::BrokenPipe);
    assert_eq!(PaddingError::WriteAfterEof.message(), Some("Cannot write after EOF"));
    assert_eq!(PaddingError::RepeatedEof.kind(), ErrorKind::BrokenPipe);
    assert_eq!(PaddingError::RepeatedEof.message(), Some("EOF has already been requested"));
}
