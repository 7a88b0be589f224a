use rep_notary::ws_io::{ReadStep, SinkPoll, WriteEvent, WriteStep, WsIoAdapter, WsMessage};

/// Reads once, with `messages` ready; nothing where the read has to wait.
fn read(
    stream: &mut WsIoAdapter,
    messages: &mut Vec<WsMessage>,
    room: usize,
) -> Result<Option<Vec<u8>>, String> {
    let mut buf = vec![0u8; room];
    let mut step = stream.poll_read(&mut buf);
    loop {
        match step {
            ReadStep::Ready(n) => {
                buf.truncate(n);
                return Ok(Some(buf));
            }
            ReadStep::Fault(e) => return Err(e),
            ReadStep::Pending => return Ok(None),
            ReadStep::NextMessage(filled) => {
                let next = if messages.is_empty() {
                    WsMessage::NotReady
                } else {
                    messages.remove(0)
                };
                step = stream.on_message(next, &mut buf, filled);
            }
        }
    }
}

fn closed_stream() -> WsIoAdapter {
    let mut stream = WsIoAdapter::new();
    assert_eq!(read(&mut stream, &mut vec![WsMessage::Close], 4), Ok(Some(vec![])));
    stream
}

#[test]
fn reads_keep_every_byte_in_order() {
    let mut stream = WsIoAdapter::new();
    let mut messages = vec![
        WsMessage::Binary(b"abcde".to_vec()),
        WsMessage::Ping,
        WsMessage::Binary(vec![]),
        WsMessage::Pong,
        WsMessage::Binary(b"fg".to_vec()),
        WsMessage::Close,
    ];
    let mut all = Vec::new();
    loop {
        let part = read(&mut stream, &mut messages, 2).unwrap().unwrap();
        if part.is_empty() {
            break;
        }
        all.extend_from_slice(&part);
    }
    assert_eq!(all, b"abcdefg".to_vec());
    assert_eq!(read(&mut stream, &mut messages, 2), Ok(Some(vec![])));
}

#[test]
fn a_read_joins_the_messages_that_are_ready() {
    let mut stream = WsIoAdapter::new();
    let mut messages = vec![WsMessage::Binary(vec![1, 2]), WsMessage::Binary(vec![3])];
    assert_eq!(read(&mut stream, &mut messages, 4), Ok(Some(vec![1, 2, 3])));
    assert_eq!(read(&mut stream, &mut messages, 4), Ok(None));
    let mut messages = vec![
        WsMessage::Binary(vec![1, 2, 3]),
        WsMessage::Ping,
        WsMessage::Binary(vec![]),
        WsMessage::Binary(vec![4, 5, 6, 7]),
        WsMessage::Binary(vec![8]),
    ];
    assert_eq!(read(&mut stream, &mut messages, 5), Ok(Some(vec![1, 2, 3, 4, 5])));
    assert_eq!(messages.len(), 1);
    assert_eq!(read(&mut stream, &mut messages, 5), Ok(Some(vec![6, 7, 8])));
}

#[test]
fn what_ends_a_read_with_bytes_shows_at_the_next() {
    let mut stream = WsIoAdapter::new();
    let mut messages = vec![WsMessage::Binary(vec![1]), WsMessage::End];
    assert_eq!(read(&mut stream, &mut messages, 4), Ok(Some(vec![1])));
    assert!(messages.is_empty());
    assert_eq!(read(&mut stream, &mut messages, 4), Ok(Some(vec![])));
    for (message, reason) in [
        (WsMessage::Fault("reset".to_string()), "reset"),
        (WsMessage::Text, "unexpected non-binary WS frame on MPC mux stream"),
    ] {
        let mut stream = WsIoAdapter::new();
        let mut messages =
            vec![WsMessage::Binary(vec![1]), message, WsMessage::Binary(vec![2])];
        assert_eq!(read(&mut stream, &mut messages, 4), Ok(Some(vec![1])));
        assert_eq!(read(&mut stream, &mut messages, 0), Ok(Some(vec![])));
        assert_eq!(read(&mut stream, &mut messages, 4), Err(reason.to_string()));
        assert_eq!(read(&mut stream, &mut messages, 4), Ok(Some(vec![2])));
    }
}

#[test]
fn an_empty_message_is_not_the_end() {
    let mut stream = WsIoAdapter::new();
    let mut messages = vec![WsMessage::Binary(vec![])];
    assert_eq!(read(&mut stream, &mut messages, 4), Ok(None));
    let mut messages = vec![WsMessage::Binary(b"x".to_vec())];
    assert_eq!(read(&mut stream, &mut messages, 4), Ok(Some(b"x".to_vec())));
}

#[test]
fn an_ended_stream_stays_at_its_end() {
    let mut stream = WsIoAdapter::new();
    let mut messages = vec![WsMessage::End, WsMessage::Binary(b"x".to_vec())];
    assert_eq!(read(&mut stream, &mut messages, 4), Ok(Some(vec![])));
    assert_eq!(read(&mut stream, &mut messages, 4), Ok(Some(vec![])));
    assert_eq!(messages.len(), 1);
}

#[test]
fn a_buffer_without_room_gets_nothing() {
    let mut stream = WsIoAdapter::new();
    assert_eq!(read(&mut stream, &mut vec![], 0), Ok(Some(vec![])));
}

#[test]
fn messages_of_the_wrong_kind_and_faults_fail_the_read() {
    for message in [WsMessage::Text, WsMessage::Frame] {
        let mut stream = WsIoAdapter::new();
        assert_eq!(
            read(&mut stream, &mut vec![message], 4),
            Err("unexpected non-binary WS frame on MPC mux stream".to_string())
        );
    }
    let mut stream = WsIoAdapter::new();
    assert_eq!(
        read(&mut stream, &mut vec![WsMessage::Fault("reset".to_string())], 4),
        Err("reset".to_string())
    );
}

#[test]
fn a_write_is_one_message_and_is_flushed() {
    assert!(matches!(WsIoAdapter::new().poll_write(b"", WriteEvent::Start), WriteStep::Ready(0)));
    assert!(matches!(WsIoAdapter::new().poll_write(b"abc", WriteEvent::Start), WriteStep::PollReady));
    match WsIoAdapter::new().poll_write(b"abc", WriteEvent::Readied(SinkPoll::Done)) {
        WriteStep::Send(data) => assert_eq!(data, b"abc".to_vec()),
        other => panic!("{other:?}"),
    }
    assert!(matches!(WsIoAdapter::new().poll_write(b"abc", WriteEvent::Sent(Ok(()))), WriteStep::Flush));
    for poll in [SinkPoll::Done, SinkPoll::Pending] {
        let step = WsIoAdapter::new().poll_write(b"abc", WriteEvent::Flushed(poll));
        assert!(matches!(step, WriteStep::Ready(3)));
    }
}

#[test]
fn a_write_that_was_not_taken_is_tried_again_or_fails() {
    let step = WsIoAdapter::new().poll_write(b"abc", WriteEvent::Readied(SinkPoll::Pending));
    assert!(matches!(step, WriteStep::Pending));
    for event in [
        WriteEvent::Readied(SinkPoll::Fault("gone".to_string())),
        WriteEvent::Sent(Err("gone".to_string())),
        WriteEvent::Flushed(SinkPoll::Fault("gone".to_string())),
    ] {
        match WsIoAdapter::new().poll_write(b"abc", event) {
            WriteStep::Fault(e) => assert_eq!(e, "gone"),
            other => panic!("{other:?}"),
        }
    }
}

#[test]
fn a_closed_stream_takes_no_bytes() {
    match closed_stream().poll_write(b"abc", WriteEvent::Start) {
        WriteStep::Fault(e) => assert_eq!(e, "write on a closed WS stream"),
        other => panic!("{other:?}"),
    }
    assert!(matches!(closed_stream().poll_write(b"", WriteEvent::Start), WriteStep::Ready(0)));
    let mut stream = WsIoAdapter::new();
    let mut messages = vec![WsMessage::Binary(vec![1]), WsMessage::End];
    assert_eq!(read(&mut stream, &mut messages, 4), Ok(Some(vec![1])));
    assert!(matches!(stream.poll_write(b"abc", WriteEvent::Start), WriteStep::Fault(_)));
}
