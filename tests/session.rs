use tcp_connection::{encode_frame, Connection, Delivery, Frame, FrameError, ReadEvent, Reaction, Session};

/// Reads one message as the server would: first what is buffered, then one read.
fn read_with(c: &mut Connection, incoming: &mut Vec<Vec<u8>>) -> Result<Delivery, FrameError> {
    if let Some(r) = c.poll_buffered() {
        return r;
    }
    let chunk = if incoming.is_empty() { Vec::new() } else { incoming.remove(0) };
    c.after_read(ReadEvent::Received(chunk))
}

#[test]
fn client_session_end_to_end() {
    let mut server_conn = Connection::new();
    let mut session = Session::new();
    let mut wire: Vec<Vec<u8>> = Vec::new();
    let mut client_conn = Connection::new();

    let sends = vec![
        Frame::Connect { id: "god".to_string() },
        Frame::Text { content: "Hello, server!".to_string() },
    ];
    for msg in sends {
        wire.push(encode_frame(&msg));
        let outcome = read_with(&mut server_conn, &mut wire);
        assert_eq!(outcome, Ok(Delivery::Message(msg)));
        let reaction = session.handle(&outcome);
        assert_eq!(reaction, Reaction::Reply(Frame::Ping));
        let reply = match reaction {
            Reaction::Reply(f) => encode_frame(&f),
            _ => unreachable!(),
        };
        assert_eq!(client_conn.after_read(ReadEvent::Received(reply)), Ok(Delivery::Message(Frame::Ping)));
        assert!(!session.is_closed());
    }

    wire.push(encode_frame(&Frame::Disconnect));
    let outcome = read_with(&mut server_conn, &mut wire);
    assert_eq!(session.handle(&outcome), Reaction::Close);
    assert!(session.is_closed());
    assert_eq!(session.handle(&Ok(Delivery::EndOfStream)), Reaction::Done);
}

#[test]
fn session_reactions() {
    let mut s = Session::new();
    assert_eq!(s.handle(&Ok(Delivery::Pending)), Reaction::ReadAgain);
    assert_eq!(s.handle(&Ok(Delivery::Message(Frame::Binary { content: vec![1] }))), Reaction::Reply(Frame::Ping));
    assert_eq!(s.handle(&Ok(Delivery::Message(Frame::Ping))), Reaction::Reply(Frame::Ping));
    assert!(!s.is_closed());
    assert_eq!(s.handle(&Err(FrameError::ParseError)), Reaction::Close);
    assert_eq!(s.handle(&Ok(Delivery::Pending)), Reaction::Done);

    let mut s = Session::new();
    assert_eq!(s.handle(&Ok(Delivery::EndOfStream)), Reaction::Close);
    let mut s = Session::new();
    assert_eq!(s.handle(&Err(FrameError::ReadError)), Reaction::Close);
}
