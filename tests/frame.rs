use bytes::BytesMut;
use resp_store::buffer::RespBuffer;
use resp_store::error::RespError;
use resp_store::frame::RespFrame;

fn buffer(text: &[u8]) -> RespBuffer {
    RespBuffer::new(BytesMut::from(text))
}

fn encode(f: &RespFrame) -> Vec<u8> {
    f.to_bytes().to_vec()
}

fn round_trip(f: RespFrame) {
    let bytes = encode(&f);
    let mut b = buffer(&bytes);
    let back = RespFrame::parse_frame(&mut b).expect("the encoding parses");
    assert_eq!(back, f);
    assert!(matches!(b.get_u8(), Err(RespError::EndOfStream)));
}

#[test]
fn encodes_each_kind_exactly() {
    assert_eq!(encode(&RespFrame::Simple("OK".to_string())), b"+OK\r\n".to_vec());
    assert_eq!(encode(&RespFrame::Error("bad".to_string())), b"-bad\r\n".to_vec());
    assert_eq!(encode(&RespFrame::Integer(1024)), b":1024\r\n".to_vec());
    assert_eq!(encode(&RespFrame::Integer(0)), b":0\r\n".to_vec());
    assert_eq!(encode(&RespFrame::Bulk("hello".to_string())), b"$5\r\nhello\r\n".to_vec());
    assert_eq!(encode(&RespFrame::Bulk(String::new())), b"$0\r\n\r\n".to_vec());
    assert_eq!(encode(&RespFrame::Null), b"$-1\r\n".to_vec());
    assert_eq!(
        encode(&RespFrame::Array(vec![
            RespFrame::Bulk("GET".to_string()),
            RespFrame::Bulk("k".to_string()),
        ])),
        b"*2\r\n$3\r\nGET\r\n$1\r\nk\r\n".to_vec()
    );
    assert_eq!(encode(&RespFrame::Array(vec![])), b"*0\r\n".to_vec());
}

#[test]
fn bulk_length_counts_bytes_not_characters() {
    assert_eq!(encode(&RespFrame::Bulk("é".to_string())), "$2\r\né\r\n".as_bytes().to_vec());
}

#[test]
fn write_to_buffer_appends() {
    let mut b = BytesMut::from(&b"xy"[..]);
    RespFrame::Integer(7).write_to_buffer(&mut b);
    assert_eq!(&b[..], b"xy:7\r\n");
}

#[test]
fn round_trips_every_kind() {
    round_trip(RespFrame::Simple("PONG".to_string()));
    round_trip(RespFrame::Error("ERR wrong".to_string()));
    round_trip(RespFrame::Integer(42));
    round_trip(RespFrame::Integer(usize::MAX));
    round_trip(RespFrame::Bulk("hello world".to_string()));
    round_trip(RespFrame::Bulk("naïve ✓".to_string()));
    round_trip(RespFrame::Bulk(String::new()));
    round_trip(RespFrame::Array(vec![]));
    round_trip(RespFrame::Array(vec![
        RespFrame::Simple("a".to_string()),
        RespFrame::Integer(3),
        RespFrame::Array(vec![RespFrame::Bulk("nested".to_string()), RespFrame::Error("e".to_string())]),
    ]));
}

#[test]
fn reads_a_command_array() {
    let f = RespFrame::from_bytes(BytesMut::from(&b"*2\r\n$4\r\nECHO\r\n$5\r\nhello\r\n"[..])).unwrap();
    assert_eq!(
        f,
        RespFrame::Array(vec![RespFrame::Bulk("ECHO".to_string()), RespFrame::Bulk("hello".to_string())])
    );
}

#[test]
fn command_not_starting_with_array_gives_error_frame() {
    let f = RespFrame::from_bytes(BytesMut::from(&b"+PING\r\n"[..])).unwrap();
    assert_eq!(f, RespFrame::Error("Invalid start for command: '43' (should be '*')".to_string()));
}

#[test]
fn bulk_length_mismatch_is_refused_and_next_frame_reads() {
    let r = RespFrame::from_bytes(BytesMut::from(&b"*1\r\n$5\r\nhey\r\n"[..]));
    match r {
        Err(RespError::InvalidCharsInBulkString(n, s)) => {
            assert_eq!(n, 5);
            assert_eq!(s, "hey");
        }
        other => panic!("unexpected {:?}", other),
    }
    let e = RespFrame::from_bytes(BytesMut::from(&b"*1\r\n$5\r\nhey\r\n"[..])).unwrap_err();
    assert_eq!(e.message(), "Invalid number of chars (5) in bulk string: hey");
    let next = RespFrame::from_bytes(BytesMut::from(&b"*1\r\n$4\r\nPING\r\n"[..])).unwrap();
    assert_eq!(next, RespFrame::Array(vec![RespFrame::Bulk("PING".to_string())]));
}

#[test]
fn unknown_start_byte_is_a_parse_error() {
    let r = RespFrame::parse_frame(&mut buffer(b"!x\r\n"));
    match r {
        Err(RespError::ParseError(s)) => assert_eq!(s, "Invalid Start: !"),
        other => panic!("unexpected {:?}", other),
    }
}

#[test]
fn empty_input_is_end_of_stream() {
    assert!(matches!(RespFrame::from_bytes(BytesMut::new()), Err(RespError::EndOfStream)));
    assert!(matches!(
        RespFrame::from_bytes(BytesMut::from(&b"*2\r\n$1\r\na\r\n"[..])),
        Err(RespError::EndOfStream)
    ));
}

#[test]
fn missing_line_feed_is_invalid_end() {
    assert!(matches!(RespFrame::parse_frame(&mut buffer(b"+OK\rX")), Err(RespError::InvalidEnd)));
    assert!(matches!(RespFrame::parse_frame(&mut buffer(b"+OK")), Err(RespError::InvalidEnd)));
}

#[test]
fn non_numeric_length_is_invalid_total() {
    match RespFrame::from_bytes(BytesMut::from(&b"*x1\r\n"[..])) {
        Err(RespError::InvalidTotalForArray(s)) => assert_eq!(s, "x1"),
        other => panic!("unexpected {:?}", other),
    }
    assert!(matches!(
        RespFrame::parse_frame(&mut buffer(b":-3\r\n")),
        Err(RespError::InvalidTotalForArray(_))
    ));
    assert!(matches!(
        RespFrame::parse_frame(&mut buffer(b":99999999999999999999999\r\n")),
        Err(RespError::InvalidTotalForArray(_))
    ));
}

#[test]
fn invalid_utf8_is_reported_not_fatal() {
    assert!(matches!(
        RespFrame::parse_frame(&mut buffer(b"+\xff\xfe\r\n")),
        Err(RespError::InvalidUtf8)
    ));
    assert!(matches!(
        RespFrame::parse_frame(&mut buffer(b"$2\r\n\xc3\x28\r\n")),
        Err(RespError::InvalidUtf8)
    ));
}

#[test]
fn error_messages() {
    assert_eq!(RespError::EndOfStream.message(), "no more bytes left in the stream");
    assert_eq!(RespError::InvalidEnd.message(), "No \n after \r");
    assert_eq!(RespError::InvalidTotalForArray("ab".to_string()).message(), "Invalid total for array: ab");
    assert_eq!(RespError::ParseError("x".to_string()).message(), "Error parsing frame: x");
    assert_eq!(RespError::InvalidUtf8.message(), "Invalid UTF-8 in frame text");
}

#[test]
fn buffer_reads_consume() {
    let mut b = buffer(b"ab\r\n12\r\nz");
    assert_eq!(b.get_line().unwrap(), b"ab".to_vec());
    assert_eq!(b.get_int().unwrap(), 12);
    assert_eq!(b.get_u8().unwrap(), b'z');
    assert!(matches!(b.get_u8(), Err(RespError::EndOfStream)));
}

#[test]
fn duplicate_copies_nested_frames() {
    let f = RespFrame::Array(vec![RespFrame::Null, RespFrame::Array(vec![RespFrame::Integer(1)])]);
    assert_eq!(f.duplicate(), f);
}

#[test]
fn encoded_len_matches_encoding() {
    let frames = vec![
        RespFrame::Simple("PONG".to_string()),
        RespFrame::Error("x".to_string()),
        RespFrame::Integer(12345),
        RespFrame::Bulk("héllo".to_string()),
        RespFrame::Null,
        RespFrame::Array(vec![RespFrame::Integer(1), RespFrame::Bulk("ab".to_string())]),
    ];
    for f in frames {
        assert_eq!(f.encoded_len(), Some(encode(&f).len()));
    }
}

#[test]
fn unknown_start_byte_is_named_as_a_character() {
    let r = RespFrame::parse_frame(&mut buffer(b"?abc\r\n"));
    match r {
        Err(RespError::ParseError(s)) => assert_eq!(s, "Invalid Start: ?"),
        other => panic!("unexpected {:?}", other),
    }
}

#[test]
fn response_bytes_are_the_encoding() {
    let f = RespFrame::Bulk("v".to_string());
    assert_eq!(f.to_response_bytes().to_vec(), b"$1\r\nv\r\n".to_vec());
    assert_eq!(RespFrame::Null.to_response_bytes().to_vec(), b"$-1\r\n".to_vec());
}
