use phoenix_rec::client::{
    client_alive, client_step, create_client, ClientAction, ClientEvent, ClientState, PORT,
};
use phoenix_rec::data_types::DataType;
use phoenix_rec::error::RecError;
use phoenix_rec::frame::{
    closing_frame, frame_payload, length_prefix, open_payload, read_header, seal, Header,
    MAX_PAYLOAD,
};
use phoenix_rec::server::{
    accept_step, add_data, create_server, handle_client, send_packed, stop_server, AcceptAction,
    ServerAction, ServerEvent, ServerState,
};
use phoenix_rec::{get_rec_index, get_rec_len, save_data, set_server, Data, Recorder};

fn batch_bytes() -> Vec<u8> {
    let mut b = Vec::new();
    for i in 0..600u32 {
        b.push((i % 7) as u8);
        b.push(b'a');
    }
    b
}

#[test]
fn length_prefix_is_little_endian() {
    assert_eq!(length_prefix(0), vec![0, 0, 0, 0]);
    assert_eq!(length_prefix(1), vec![1, 0, 0, 0]);
    assert_eq!(length_prefix(0x01020304), vec![4, 3, 2, 1]);
    assert_eq!(length_prefix(u32::MAX), vec![255, 255, 255, 255]);
    assert_eq!(closing_frame(), vec![0, 0, 0, 0]);
}

#[test]
fn header_tells_end_payload_and_refusal() {
    assert_eq!(read_header(&vec![0, 0, 0, 0]), Ok(Header::End));
    assert_eq!(read_header(&vec![5, 0, 0, 0]), Ok(Header::Payload(5)));
    assert_eq!(read_header(&vec![4, 3, 2, 0]), Ok(Header::Payload(0x020304)));
    assert_eq!(read_header(&vec![0, 0, 0x80, 0]), Ok(Header::Payload(MAX_PAYLOAD)));
    assert_eq!(read_header(&vec![1, 0, 0x80, 0]), Err(RecError::ProtocolViolation));
    assert_eq!(read_header(&vec![255, 255, 255, 255]), Err(RecError::ProtocolViolation));
    assert_eq!(read_header(&vec![0, 0, 0]), Err(RecError::ProtocolViolation));
    assert_eq!(read_header(&vec![0, 0, 0, 0, 0]), Err(RecError::ProtocolViolation));
    assert_eq!(read_header(&vec![]), Err(RecError::ProtocolViolation));
}

#[test]
fn frame_payload_puts_the_length_in_front() {
    assert_eq!(frame_payload(vec![9, 8, 7]), Ok(vec![3, 0, 0, 0, 9, 8, 7]));
    assert_eq!(frame_payload(vec![]), Err(RecError::ProtocolViolation));
    assert_eq!(frame_payload(vec![0; MAX_PAYLOAD + 1]), Err(RecError::ProtocolViolation));
    let largest = frame_payload(vec![1; MAX_PAYLOAD]).unwrap();
    assert_eq!(largest.len(), MAX_PAYLOAD + 4);
    assert_eq!(&largest[..4], &[0, 0, 0x80, 0]);
}

#[test]
fn a_sealed_batch_opens_to_itself() {
    for batch in [vec![], vec![1u8], b"hello hello hello hello".to_vec(), batch_bytes()] {
        let frame = seal(&batch).unwrap();
        let n = match read_header(&frame[..4].to_vec()) {
            Ok(Header::Payload(n)) => n,
            other => panic!("no payload announced: {:?}", other),
        };
        assert_eq!(n, frame.len() - 4);
        assert_eq!(open_payload(n, &frame[4..].to_vec()), Ok(batch));
    }
}

#[test]
fn sealing_packs_what_repeats() {
    let batch = vec![b'x'; 10_000];
    let frame = seal(&batch).unwrap();
    assert!(frame.len() < 200);
    assert_ne!(&frame[4..], &batch[..]);
}

#[test]
fn a_payload_is_expanded() {
    assert_eq!(open_payload(4, &vec![0x11, b'a', 1, 0]), Ok(b"aaaaaa".to_vec()));
    assert_eq!(open_payload(4, &vec![0x30, b'a', b'4', b'9']), Ok(b"a49".to_vec()));
}

#[test]
fn a_payload_that_does_not_expand_is_refused() {
    assert_eq!(open_payload(4, &vec![0x10, b'a', 2, 0]), Err(RecError::CompressionError));
    assert_eq!(open_payload(1, &vec![0x40]), Err(RecError::CompressionError));
}

#[test]
fn a_payload_cut_short_is_refused() {
    assert_eq!(open_payload(5, &vec![0x11, b'a', 1, 0]), Err(RecError::ProtocolViolation));
    assert_eq!(open_payload(3, &vec![0x11, b'a', 1, 0]), Err(RecError::ProtocolViolation));
}

#[test]
fn the_collector_answers_a_greeting() {
    let mut r = Recorder::new();
    assert!(create_server(&mut r));
    let (state, action) = handle_client(&mut r, ServerState::Polling, ServerEvent::Received(b"hello".to_vec()));
    assert_eq!(state, ServerState::Polling);
    assert_eq!(action, ServerAction::Reply(b"hello".to_vec()));
    let (state, action) = handle_client(&mut r, state, ServerEvent::Received(b"hellp".to_vec()));
    assert_eq!((state, action), (ServerState::Polling, ServerAction::Poll));
    assert!(r.server);
}

#[test]
fn the_collector_serves_once() {
    let mut r = Recorder::new();
    r.stop_server = true;
    assert!(create_server(&mut r));
    assert!(r.server && !r.stop_server);
    assert!(!create_server(&mut r));
    assert!(r.server);
}

#[test]
fn the_collector_closes_on_request() {
    for token in [b"close".to_vec(), b"please close now".to_vec(), b"\0\0close".to_vec()] {
        let mut r = Recorder::new();
        create_server(&mut r);
        add_data(&mut r, Data::Command("waiting".to_string()));
        let (state, action) = handle_client(&mut r, ServerState::Polling, ServerEvent::Received(token));
        assert_eq!(state, ServerState::Stopped);
        assert_eq!(action, ServerAction::Finish(vec![0, 0, 0, 0]));
        assert!(!r.server);
        assert_eq!(r.queue.len(), 1);
        let (state, action) = handle_client(&mut r, state, ServerEvent::Idle);
        assert_eq!((state, action), (ServerState::Stopped, ServerAction::Stop));
    }
    let mut r = Recorder::new();
    create_server(&mut r);
    let (state, action) = handle_client(&mut r, ServerState::Polling, ServerEvent::Received(b"clos".to_vec()));
    assert_eq!((state, action), (ServerState::Polling, ServerAction::Poll));
    let (state, action) = handle_client(&mut r, ServerState::Polling, ServerEvent::Received(b"clo se".to_vec()));
    assert_eq!((state, action), (ServerState::Polling, ServerAction::Poll));
}

#[test]
fn the_collector_stops_when_asked() {
    let mut r = Recorder::new();
    create_server(&mut r);
    add_data(&mut r, Data::Command("unsent".to_string()));
    stop_server(&mut r);
    assert!(!r.server && r.stop_server);
    let (state, action) = handle_client(&mut r, ServerState::Polling, ServerEvent::Idle);
    assert_eq!(state, ServerState::Stopped);
    assert_eq!(action, ServerAction::Finish(vec![0, 0, 0, 0]));
    assert_eq!(r.queue.len(), 1);
}

#[test]
fn the_collector_leaves_when_the_peer_has_closed() {
    let mut r = Recorder::new();
    create_server(&mut r);
    let (state, action) = handle_client(&mut r, ServerState::Polling, ServerEvent::Closed);
    assert_eq!((state, action), (ServerState::Stopped, ServerAction::Stop));
    assert!(r.server);
}

#[test]
fn the_queue_is_cleared_only_after_the_frame_was_written() {
    let mut r = Recorder::new();
    create_server(&mut r);
    let (state, action) = handle_client(&mut r, ServerState::Polling, ServerEvent::Idle);
    assert_eq!((state, action), (ServerState::Polling, ServerAction::Poll));
    save_data(&mut r, 1, vec![DataType::Distance(10)]).unwrap();
    save_data(&mut r, 2, vec![DataType::Distance(11)]).unwrap();
    let (state, action) = handle_client(&mut r, ServerState::Polling, ServerEvent::Idle);
    assert_eq!(state, ServerState::Encoding(2));
    assert_eq!(
        action,
        ServerAction::Encode(vec![
            Data::RecordData(0, vec![DataType::Distance(10)]),
            Data::RecordData(1, vec![DataType::Distance(11)]),
        ])
    );
    assert_eq!(r.queue.len(), 2);
    let bytes = batch_bytes();
    let (state, action) = handle_client(&mut r, state, ServerEvent::Encoded(bytes.clone()));
    assert_eq!(state, ServerState::Sending(2));
    let frame = match action {
        ServerAction::Send(frame) => frame,
        other => panic!("no frame: {:?}", other),
    };
    assert_eq!(open_payload(frame.len() - 4, &frame[4..].to_vec()), Ok(bytes));
    assert_eq!(r.queue.len(), 2);
    save_data(&mut r, 3, vec![DataType::Distance(12)]).unwrap();
    let (state, action) = handle_client(&mut r, state, ServerEvent::Sent);
    assert_eq!((state, action), (ServerState::Polling, ServerAction::Poll));
    assert_eq!(r.queue, vec![Data::RecordData(2, vec![DataType::Distance(12)])]);
}

#[test]
fn the_queue_is_kept_when_a_batch_fails() {
    let mut r = Recorder::new();
    create_server(&mut r);
    add_data(&mut r, Data::Command("one".to_string()));
    let (state, _) = handle_client(&mut r, ServerState::Polling, ServerEvent::Idle);
    let (state, action) = handle_client(&mut r, state, ServerEvent::EncodeFailed);
    assert_eq!((state, action), (ServerState::Polling, ServerAction::Poll));
    assert_eq!(r.queue.len(), 1);
    let (state, _) = handle_client(&mut r, state, ServerEvent::Idle);
    let (state, _) = handle_client(&mut r, state, ServerEvent::Encoded(vec![1, 2, 3]));
    let (state, action) = handle_client(&mut r, state, ServerEvent::SendFailed);
    assert_eq!((state, action), (ServerState::Stopped, ServerAction::Stop));
    assert_eq!(r.queue.len(), 1);
    let (state, action) = handle_client(&mut r, ServerState::Polling, ServerEvent::Sent);
    assert_eq!((state, action), (ServerState::Polling, ServerAction::Poll));
    assert_eq!(r.queue.len(), 1);
    let (state, action) = handle_client(&mut r, ServerState::Polling, ServerEvent::Encoded(vec![1]));
    assert_eq!((state, action), (ServerState::Polling, ServerAction::Poll));
}

fn greeted(r: &mut Recorder, reply: &[u8]) -> (ClientState, ClientAction) {
    let state = create_client(r).expect("a session");
    assert_eq!(state, ClientState::Connecting);
    let (state, action) = client_step(r, state, ClientEvent::Connected);
    assert_eq!((state, action), (ClientState::Greeting, ClientAction::Send(b"hello".to_vec())));
    let (state, action) = client_step(r, state, ClientEvent::Sent);
    assert_eq!((state, action), (ClientState::AwaitReply, ClientAction::Read(5)));
    client_step(r, state, ClientEvent::Received(reply.to_vec()))
}

#[test]
fn the_port_is_fixed() {
    assert_eq!(PORT, 3333);
}

#[test]
fn one_session_at_a_time() {
    let mut r = Recorder::new();
    assert!(!client_alive(&r));
    assert_eq!(create_client(&mut r), Some(ClientState::Connecting));
    assert!(client_alive(&r));
    assert_eq!(create_client(&mut r), None);
    assert!(client_alive(&r));
}

#[test]
fn handshake_mismatch() {
    let mut r = Recorder::new();
    let (state, action) = greeted(&mut r, b"hello");
    assert_eq!((state, action), (ClientState::AwaitHeader, ClientAction::Read(4)));
    for reply in [&b"olleh"[..], &b"HELLO"[..], &[0u8, 0, 0, 0, 0][..], &b"hell"[..], &b""[..]] {
        let mut r = Recorder::new();
        let (state, action) = greeted(&mut r, reply);
        assert_eq!((state, action), (ClientState::AwaitHeader, ClientAction::WarnAndRead(4)));
        assert!(client_alive(&r));
    }
}

#[test]
fn frame_termination() {
    let mut r = Recorder::new();
    let (state, _) = greeted(&mut r, b"hello");
    let (state, action) = client_step(&mut r, state, ClientEvent::Received(vec![0, 0, 0, 0]));
    assert_eq!((state, action), (ClientState::Finished, ClientAction::Finish));
    assert!(!client_alive(&r));
    assert_eq!(get_rec_len(&r), 0);
}

#[test]
fn a_batch_is_replayed_as_it_is() {
    let mut sender = Recorder::new();
    set_server(&mut sender, true);
    let mut r = Recorder::new();
    let (state, _) = greeted(&mut r, b"hello");
    let bytes = batch_bytes();
    let frame = seal(&bytes).unwrap();
    let (state, action) = client_step(&mut r, state, ClientEvent::Received(frame[..4].to_vec()));
    assert_eq!(state, ClientState::AwaitPayload(frame.len() - 4));
    assert_eq!(action, ClientAction::Read(frame.len() - 4));
    let (state, action) = client_step(&mut r, state, ClientEvent::Received(frame[4..].to_vec()));
    assert_eq!((state, action), (ClientState::AwaitEntries, ClientAction::Decode(bytes)));
    let batch = vec![
        Data::Command("Turn(90)".to_string()),
        Data::RecordData(5, vec![DataType::Color(1, 2), DataType::Distance(3)]),
    ];
    let (state, action) = client_step(&mut r, state, ClientEvent::Decoded(batch.clone(), false));
    assert_eq!((state, action), (ClientState::AwaitHeader, ClientAction::Read(4)));
    assert_eq!(get_rec_len(&r), 2);
    assert_eq!(get_rec_index(&r, 0), batch[0]);
    assert_eq!(get_rec_index(&r, 1), batch[1]);
    assert!(r.queue.is_empty());
    let (state, action) = client_step(&mut r, state, ClientEvent::Received(vec![0, 0, 0, 0]));
    assert_eq!((state, action), (ClientState::Finished, ClientAction::Finish));
}

#[test]
fn the_producer_asks_to_close_when_told_to_leave() {
    let mut r = Recorder::new();
    let (_, _) = greeted(&mut r, b"hello");
    let (state, action) = client_step(&mut r, ClientState::AwaitEntries, ClientEvent::Decoded(vec![], true));
    assert_eq!((state, action), (ClientState::Closing, ClientAction::Send(b"close".to_vec())));
    assert!(client_alive(&r));
    let (state, action) = client_step(&mut r, state, ClientEvent::Sent);
    assert_eq!((state, action), (ClientState::Finished, ClientAction::Finish));
    assert!(!client_alive(&r));
}

#[test]
fn a_refused_entry_ends_the_replay() {
    let mut r = Recorder::new();
    create_client(&mut r);
    let batch = vec![
        Data::Command("kept".to_string()),
        Data::RecordData(5, vec![DataType::Distance(1), DataType::Distance(2)]),
        Data::Command("lost".to_string()),
    ];
    let (state, action) = client_step(&mut r, ClientState::AwaitEntries, ClientEvent::Decoded(batch, true));
    assert_eq!((state, action), (ClientState::Finished, ClientAction::Fail(RecError::DuplicateField)));
    assert_eq!(get_rec_len(&r), 1);
    assert_eq!(get_rec_index(&r, 0), Data::Command("kept".to_string()));
    assert!(!client_alive(&r));
}

#[test]
fn the_producer_reports_what_goes_wrong() {
    let cases = vec![
        (ClientState::Connecting, ClientEvent::Failed, RecError::TransportError),
        (ClientState::Greeting, ClientEvent::Failed, RecError::TransportError),
        (ClientState::AwaitReply, ClientEvent::Failed, RecError::TransportError),
        (ClientState::AwaitHeader, ClientEvent::Failed, RecError::TransportError),
        (ClientState::AwaitPayload(3), ClientEvent::Failed, RecError::TransportError),
        (ClientState::AwaitHeader, ClientEvent::Received(vec![1, 0, 0x80, 0]), RecError::ProtocolViolation),
        (ClientState::AwaitHeader, ClientEvent::Received(vec![1, 0]), RecError::ProtocolViolation),
        (ClientState::AwaitPayload(3), ClientEvent::Received(vec![1, 0]), RecError::ProtocolViolation),
        (ClientState::AwaitPayload(4), ClientEvent::Received(vec![0x10, b'a', 2, 0]), RecError::CompressionError),
        (ClientState::AwaitEntries, ClientEvent::DecodeFailed, RecError::ProtocolViolation),
        (ClientState::Connecting, ClientEvent::Sent, RecError::ProtocolViolation),
        (ClientState::Finished, ClientEvent::Connected, RecError::ProtocolViolation),
    ];
    for (state, event, error) in cases {
        let mut r = Recorder::new();
        create_client(&mut r);
        let (state, action) = client_step(&mut r, state, event);
        assert_eq!((state, action), (ClientState::Finished, ClientAction::Fail(error)));
        assert!(!client_alive(&r));
    }
    let mut r = Recorder::new();
    create_client(&mut r);
    let (state, action) = client_step(&mut r, ClientState::Closing, ClientEvent::Failed);
    assert_eq!((state, action), (ClientState::Finished, ClientAction::Finish));
}

#[test]
fn sealed_batches_of_many_shapes_open_to_themselves() {
    let mut seed: u32 = 12345;
    for round in 0..300usize {
        let len = (round * 37) % 2000;
        let spread = 1 + (round % 9) as u32 * 30;
        let mut batch = Vec::with_capacity(len);
        for _ in 0..len {
            seed = seed.wrapping_mul(1664525).wrapping_add(1013904223);
            batch.push(((seed >> 16) % spread) as u8);
        }
        let frame = seal(&batch).unwrap();
        assert_eq!(read_header(&frame[..4].to_vec()), Ok(Header::Payload(frame.len() - 4)));
        assert_eq!(open_payload(frame.len() - 4, &frame[4..].to_vec()), Ok(batch));
    }
}

#[test]
fn the_listener_serves_the_first_connection_and_no_other() {
    assert_eq!(accept_step(false), (AcceptAction::Retry, true));
    assert_eq!(accept_step(true), (AcceptAction::Serve, false));
}

#[test]
fn a_packed_batch_is_sent_or_waits() {
    assert_eq!(
        send_packed(3, vec![0x11, b'a', 1, 0]),
        (ServerState::Sending(3), ServerAction::Send(vec![4, 0, 0, 0, 0x11, b'a', 1, 0]))
    );
    assert_eq!(send_packed(3, vec![]), (ServerState::Polling, ServerAction::Poll));
    assert_eq!(
        send_packed(2, vec![0; MAX_PAYLOAD + 1]),
        (ServerState::Polling, ServerAction::Poll)
    );
    let (state, action) = send_packed(1, vec![7; MAX_PAYLOAD]);
    assert_eq!(state, ServerState::Sending(1));
    assert!(matches!(action, ServerAction::Send(frame) if frame.len() == MAX_PAYLOAD + 4));
}
