use tcp_connection::{decode_frame, encode_frame, Connection, Delivery, Frame, FrameError, ReadEvent};

fn line_of(f: &Frame) -> Vec<u8> {
    let mut line = encode_frame(f);
    assert_eq!(line.pop(), Some(b'\n'));
    line
}

fn all_kinds() -> Vec<Frame> {
    vec![
        Frame::Connect { id: "god".to_string() },
        Frame::Disconnect,
        Frame::Text { content: "Hello, server!".to_string() },
        Frame::Text { content: "two\nlines \"quoted\" \\ tab\t é ✓".to_string() },
        Frame::Text { content: String::new() },
        Frame::Binary { content: vec![0, 1, 10, 127, 128, 255] },
        Frame::Binary { content: vec![] },
        Frame::Ping,
        Frame::Ack,
    ]
}

#[test]
fn encodes_unit_messages_as_quoted_tags() {
    assert_eq!(encode_frame(&Frame::Ping), b"\"Ping\"\n".to_vec());
    assert_eq!(encode_frame(&Frame::Disconnect), b"\"Disconnect\"\n".to_vec());
    assert_eq!(encode_frame(&Frame::Ack), b"\"Ok\"\n".to_vec());
}

#[test]
fn encodes_payload_messages_as_tagged_objects() {
    assert_eq!(
        encode_frame(&Frame::Connect { id: "god".to_string() }),
        b"{\"Connect\":{\"id\":\"god\"}}\n".to_vec()
    );
    assert_eq!(
        encode_frame(&Frame::Text { content: "a\nb\"c".to_string() }),
        b"{\"Text\":{\"content\":\"a\\nb\\\"c\"}}\n".to_vec()
    );
    assert_eq!(
        encode_frame(&Frame::Binary { content: vec![1, 2, 255] }),
        b"{\"Binary\":{\"content\":[1,2,255]}}\n".to_vec()
    );
}

#[test]
fn encoded_line_has_one_delimiter_at_its_end() {
    for f in all_kinds() {
        let line = encode_frame(&f);
        assert_eq!(line.iter().filter(|b| **b == b'\n').count(), 1);
        assert_eq!(*line.last().unwrap(), b'\n');
    }
}

#[test]
fn round_trip_every_kind() {
    for f in all_kinds() {
        assert_eq!(decode_frame(&line_of(&f)), Some(f));
    }
}

#[test]
fn decodes_escaped_payloads() {
    assert_eq!(
        decode_frame(b"{\"Text\":{\"content\":\"a\\u0041\\n\"}}"),
        Some(Frame::Text { content: "aA\n".to_string() })
    );
    assert_eq!(
        decode_frame(b"{\"Binary\":{\"content\":[ 3, 4 ]}}"),
        Some(Frame::Binary { content: vec![3, 4] })
    );
}

#[test]
fn rejects_malformed_lines() {
    assert_eq!(decode_frame(b""), None);
    assert_eq!(decode_frame(b"hello"), None);
    assert_eq!(decode_frame(b"\"Pong\""), None);
    assert_eq!(decode_frame(b"{\"Text\":{\"content\":42}}"), None);
    assert_eq!(decode_frame(b"{\"Binary\":{\"content\":[256]}}"), None);
    assert_eq!(decode_frame(b"{\"Connect\":{\"id\":\"unterminated}}"), None);
}

#[test]
fn parse_frame_without_delimiter_leaves_buffer() {
    let mut c = Connection::new();
    c.append(b"\"Pi");
    assert_eq!(c.parse_frame(), Ok(None));
    assert_eq!(c.parse_frame(), Ok(None));
    assert!(!c.is_empty());
    c.append(b"ng\"\n");
    assert_eq!(c.parse_frame(), Ok(Some(Frame::Ping)));
    assert!(c.is_empty());
}

#[test]
fn empty_line_is_malformed() {
    let mut c = Connection::new();
    c.append(b"\n\"Ping\"\n");
    assert_eq!(c.parse_frame(), Err(FrameError::ParseError));
    assert_eq!(c.parse_frame(), Ok(Some(Frame::Ping)));
    assert_eq!(c.parse_frame(), Ok(None));
}

#[test]
fn invalid_utf8_line_is_malformed_not_a_crash() {
    let mut c = Connection::new();
    c.append(&[0xff, 0xfe, b'\n']);
    assert_eq!(c.parse_frame(), Err(FrameError::ParseError));
    assert!(c.is_empty());
}

#[test]
fn chunked_line_yields_one_message_at_the_last_chunk() {
    let f = Frame::Text { content: "Hello, server!".to_string() };
    let bytes = encode_frame(&f);
    for size in 1..bytes.len() + 1 {
        let mut c = Connection::new();
        let mut got = Vec::new();
        for chunk in bytes.chunks(size) {
            match c.after_read(ReadEvent::Received(chunk.to_vec())) {
                Ok(Delivery::Pending) => {}
                other => got.push(other),
            }
        }
        assert_eq!(got, vec![Ok(Delivery::Message(f.clone()))]);
        assert!(c.is_empty());
    }
}

#[test]
fn pipelined_lines_are_drained_without_reads() {
    let mut data = encode_frame(&Frame::Connect { id: "a".to_string() });
    data.extend(encode_frame(&Frame::Binary { content: vec![9] }));
    let mut c = Connection::new();
    assert_eq!(
        c.after_read(ReadEvent::Received(data)),
        Ok(Delivery::Message(Frame::Connect { id: "a".to_string() }))
    );
    assert_eq!(
        c.poll_buffered(),
        Some(Ok(Delivery::Message(Frame::Binary { content: vec![9] })))
    );
    assert_eq!(c.poll_buffered(), None);
    assert!(c.is_empty());
}

#[test]
fn malformed_line_is_consumed_once() {
    let mut c = Connection::new();
    assert_eq!(
        c.after_read(ReadEvent::Received(b"not a message\n".to_vec())),
        Err(FrameError::ParseError)
    );
    assert!(c.is_empty());
    assert_eq!(c.poll_buffered(), None);
}

#[test]
fn truncated_line_then_end_of_stream_is_read_error() {
    let mut c = Connection::new();
    assert_eq!(c.after_read(ReadEvent::Received(b"{\"Text\":".to_vec())), Ok(Delivery::Pending));
    assert_eq!(c.poll_buffered(), None);
    assert_eq!(c.after_read(ReadEvent::Received(Vec::new())), Err(FrameError::ReadError));
}

#[test]
fn end_of_stream_with_empty_buffer_is_clean() {
    let mut c = Connection::new();
    assert_eq!(c.poll_buffered(), None);
    assert_eq!(c.after_read(ReadEvent::Received(Vec::new())), Ok(Delivery::EndOfStream));
}

#[test]
fn transport_failure_is_fatal_only_when_nothing_is_buffered() {
    let mut c = Connection::new();
    assert_eq!(c.after_read(ReadEvent::Failed), Err(FrameError::ReadError));
    c.append(b"\"Pi");
    assert_eq!(c.after_read(ReadEvent::Failed), Ok(Delivery::Pending));
    assert_eq!(c.after_read(ReadEvent::Received(b"ng\"\n".to_vec())), Ok(Delivery::Message(Frame::Ping)));
}
