use agent_bus::wire::{read_frame, read_length, read_payload, write_frame, WireError, MAX_FRAME_SIZE};

fn round_trip(text: &str) -> Vec<u8> {
    let bytes = write_frame(Ok(text.as_bytes().to_vec())).unwrap();
    assert_eq!(bytes.len(), text.len() + 4);
    let (got, taken) = read_frame(&bytes).unwrap();
    assert_eq!(taken, bytes.len());
    got
}

fn json_error() -> serde_json::Error {
    serde_json::from_slice::<serde_json::Value>(b"not valid json!!").unwrap_err()
}

#[test]
fn texts_come_back_as_they_were() {
    let register = r#"{"frame":"Register","name":"alice"}"#;
    assert_eq!(round_trip(register), register.as_bytes());
    let registered = r#"{"frame":"Registered"}"#;
    assert_eq!(round_trip(registered), registered.as_bytes());
    assert_eq!(round_trip(""), b"");
}

#[test]
fn a_frame_is_its_length_and_its_text() {
    let bytes = write_frame(Ok(vec![b'x'; 0x0102])).unwrap();
    assert_eq!(&bytes[..4], &[0, 0, 1, 2]);
    assert_eq!(&bytes[4..], &[b'x'; 0x0102][..]);
}

#[test]
fn connection_closed_on_empty_input() {
    let err = read_frame(&[]).unwrap_err();
    assert!(matches!(err, WireError::ConnectionClosed));
}

#[test]
fn connection_closed_on_truncated_header() {
    let err = read_frame(&[0u8, 1]).unwrap_err(); // only 2 of 4 header bytes
    assert!(matches!(err, WireError::ConnectionClosed));
}

#[test]
fn connection_closed_on_truncated_payload() {
    // header says 100 bytes but only 5 bytes of payload
    let mut buf = Vec::new();
    buf.extend_from_slice(&100u32.to_be_bytes());
    buf.extend_from_slice(b"short");
    let err = read_frame(&buf).unwrap_err();
    assert!(matches!(err, WireError::ConnectionClosed));
}

#[test]
fn frame_too_large_on_read() {
    let huge_len = MAX_FRAME_SIZE + 1;
    let err = read_frame(&huge_len.to_be_bytes()).unwrap_err();
    match err {
        WireError::FrameTooLarge(n) => assert_eq!(n, huge_len),
        other => panic!("expected FrameTooLarge, got {:?}", other),
    }
}

#[test]
fn frame_too_large_on_write() {
    let huge_len = MAX_FRAME_SIZE as usize + 1;
    match write_frame(Ok(vec![0u8; huge_len])) {
        Err(WireError::FrameTooLarge(n)) => assert_eq!(n as usize, huge_len),
        other => panic!("expected FrameTooLarge, got {:?}", other.is_ok()),
    }
}

#[test]
fn the_longest_frame_passes() {
    let text = vec![7u8; MAX_FRAME_SIZE as usize];
    let bytes = write_frame(Ok(text.clone())).unwrap();
    assert_eq!(&bytes[..4], &[1, 0, 0, 0]);
    let (got, taken) = read_frame(&bytes).unwrap();
    assert!(got == text);
    assert_eq!(taken, bytes.len());
}

#[test]
fn invalid_json_payload() {
    let garbage = b"not valid json!!";
    let mut buf = Vec::new();
    buf.extend_from_slice(&(garbage.len() as u32).to_be_bytes());
    buf.extend_from_slice(garbage);
    let (text, _) = read_frame(&buf).unwrap();
    let err = WireError::from(serde_json::from_slice::<serde_json::Value>(&text).unwrap_err());
    assert!(matches!(err, WireError::Json(_)));
}

#[test]
fn a_frame_that_cannot_be_serialised_is_not_written() {
    assert!(matches!(write_frame(Err(json_error())), Err(WireError::Json(_))));
}

#[test]
fn frames_are_read_one_after_the_other() {
    let mut stream = Vec::new();
    for text in ["one", "", "three"] {
        stream.extend_from_slice(&write_frame(Ok(text.as_bytes().to_vec())).unwrap());
    }
    stream.extend_from_slice(b"\0");
    let mut rest = &stream[..];
    for text in ["one", "", "three"] {
        let (got, taken) = read_frame(rest).unwrap();
        assert_eq!(got, text.as_bytes());
        rest = &rest[taken..];
    }
    assert!(matches!(read_frame(rest), Err(WireError::ConnectionClosed)));
}

#[test]
fn the_length_comes_from_the_header() {
    assert_eq!(read_length(Ok([0, 0, 1, 2])).unwrap(), 0x0102);
    assert_eq!(read_length(Ok([1, 0, 0, 0])).unwrap(), MAX_FRAME_SIZE);
    assert!(matches!(read_length(Ok([1, 0, 0, 1])), Err(WireError::FrameTooLarge(0x0100_0001))));
    assert!(matches!(
        read_length(Ok([0xff, 0xff, 0xff, 0xff])),
        Err(WireError::FrameTooLarge(u32::MAX))
    ));
}

#[test]
fn an_input_that_ends_is_a_closed_connection() {
    let eof = || std::io::Error::from(std::io::ErrorKind::UnexpectedEof);
    let reset = || std::io::Error::from(std::io::ErrorKind::ConnectionReset);
    assert!(matches!(read_length(Err(eof())), Err(WireError::ConnectionClosed)));
    assert!(matches!(read_payload(Err(eof())), Err(WireError::ConnectionClosed)));
    match read_length(Err(reset())) {
        Err(WireError::Io(error)) => assert_eq!(error.kind(), std::io::ErrorKind::ConnectionReset),
        other => panic!("expected Io, got {:?}", other),
    }
    assert!(matches!(read_payload(Err(reset())), Err(WireError::Io(_))));
    assert_eq!(read_payload(Ok(vec![1, 2])).unwrap(), [1, 2]);
}

#[test]
fn io_errors_are_wrapped() {
    let error = WireError::from(std::io::Error::from(std::io::ErrorKind::BrokenPipe));
    assert!(matches!(error, WireError::Io(_)));
}
