use rustsocket::connection::{Action, ConnState, Connection, Event};
use rustsocket::frame::{decode_frame, encode_frame, Frame, Opcode, WsError};

const REQUEST: &[u8] =
    b"GET /websocketme HTTP/1.1\r\nSec-WebSocket-Key: dGhlIHNhbXBsZSBub25jZQ==\r\n\r\n";
const RESPONSE: &[u8] = b"HTTP/1.1 101 Switching Protocols\r\nUpgrade: websocket\r\nConnection: Upgrade\r\nSec-WebSocket-Accept: s3pPLMBiTxaQ9kYGzzhZRbK+xOo=\r\n\r\n";
const MASKED_HELLO: [u8; 11] = [0x81, 0x85, 0x37, 0xfa, 0x21, 0x3d, 0x5f, 0x9f, 0x4d, 0x51, 0x58];

/// The action that answers a final frame with this opcode and payload.
fn echo_of(opcode: Opcode, payload: &[u8]) -> Action {
    let frame = Frame {
        fin: true,
        opcode,
        masked: true,
        payload_length: payload.len() as u64,
        payload: payload.to_vec(),
    };
    Action::Echo(frame, encode_frame(Opcode::Text, payload))
}

/// A connection that has been upgraded and waits for its first frame.
fn streaming(max_payload: u64) -> Connection {
    let mut conn = Connection::new(max_payload);
    assert_eq!(conn.step(Event::Data(REQUEST.to_vec())), Action::Write(RESPONSE.to_vec()));
    assert_eq!(conn.step(Event::Written), Action::Read(2));
    assert_eq!(conn.state, ConnState::Streaming);
    conn
}

/// Feeds the machine from `stream` as a driver would: every `Read` is
/// answered with exactly the bytes asked for, every `Write` is recorded.
fn drive(conn: &mut Connection, mut action: Action, stream: &[u8]) -> (Vec<Vec<u8>>, Action) {
    let mut at = 0;
    let mut written = Vec::new();
    loop {
        let event = match action {
            Action::Read(count) => {
                let count = count as usize;
                if stream.len() - at < count {
                    Event::PeerClosed
                } else {
                    at += count;
                    Event::Data(stream[at - count..at].to_vec())
                }
            }
            Action::Write(bytes) => {
                written.push(bytes);
                Event::Written
            }
            Action::Echo(frame, bytes) => {
                assert_eq!(frame.payload.len() as u64, frame.payload_length);
                assert_eq!(bytes, encode_frame(Opcode::Text, &frame.payload));
                written.push(bytes);
                Event::Written
            }
            last => return (written, last),
        };
        action = conn.step(event);
    }
}

#[test]
fn new_connection_awaits_its_request() {
    let conn = Connection::new(125);
    assert_eq!(conn.state, ConnState::AwaitingRequest);
    assert_eq!(conn.buffer, Vec::<u8>::new());
    assert_eq!(conn.max_payload, 125);
}

#[test]
fn upgrade_then_echo_hello() {
    let mut conn = Connection::new(125);
    let action = conn.step(Event::Data(REQUEST.to_vec()));
    assert_eq!(action, Action::Write(RESPONSE.to_vec()));
    assert_eq!(conn.state, ConnState::Handshaking);
    assert_eq!(conn.step(Event::Written), Action::Read(2));
    assert_eq!(conn.state, ConnState::Streaming);
    assert_eq!(conn.step(Event::Data(MASKED_HELLO[..2].to_vec())), Action::Read(4));
    assert_eq!(conn.step(Event::Data(MASKED_HELLO[2..6].to_vec())), Action::Read(5));
    let echo = conn.step(Event::Data(MASKED_HELLO[6..].to_vec()));
    assert_eq!(echo, echo_of(Opcode::Text, b"hello"));
    match echo {
        Action::Echo(frame, bytes) => {
            assert_eq!(frame.payload, b"hello".to_vec());
            assert_eq!(bytes, vec![0x81, 0x05, b'h', b'e', b'l', b'l', b'o']);
        }
        other => panic!("no echo: {:?}", other),
    }
    assert_eq!(conn.state, ConnState::Streaming);
    assert_eq!(conn.buffer, Vec::<u8>::new());
    assert_eq!(conn.step(Event::Written), Action::Read(2));
    assert_eq!(conn.step(Event::PeerClosed), Action::Close(WsError::ConnectionClosed));
    assert_eq!(conn.state, ConnState::Closed);
}

#[test]
fn request_may_arrive_in_pieces() {
    let mut conn = Connection::new(125);
    assert_eq!(conn.step(Event::Data(REQUEST[..10].to_vec())), Action::ReadRequest);
    assert_eq!(conn.state, ConnState::AwaitingRequest);
    assert_eq!(conn.buffer, REQUEST[..10].to_vec());
    assert_eq!(conn.step(Event::Data(Vec::new())), Action::ReadRequest);
    assert_eq!(conn.step(Event::Data(REQUEST[10..REQUEST.len() - 1].to_vec())), Action::ReadRequest);
    assert_eq!(
        conn.step(Event::Data(REQUEST[REQUEST.len() - 1..].to_vec())),
        Action::Write(RESPONSE.to_vec())
    );
    assert_eq!(conn.state, ConnState::Handshaking);
    assert_eq!(conn.buffer, Vec::<u8>::new());
}

#[test]
fn request_that_ends_with_the_stream_is_routed() {
    let mut conn = Connection::new(125);
    assert_eq!(conn.step(Event::Data(b"GET /missing HTTP/1.1".to_vec())), Action::ReadRequest);
    assert_eq!(conn.step(Event::PeerClosed), Action::Serve(b"/missing".to_vec()));
    assert_eq!(conn.state, ConnState::Closed);
}

#[test]
fn static_request_is_handed_on() {
    let mut conn = Connection::new(125);
    let action = conn.step(Event::Data(b"GET /about HTTP/1.1\r\nHost: x\r\n\r\n".to_vec()));
    assert_eq!(action, Action::Serve(b"/about".to_vec()));
    assert_eq!(conn.state, ConnState::Closed);
    assert_eq!(conn.step(Event::Written), Action::Close(WsError::ConnectionClosed));
}

#[test]
fn missing_resource_is_not_an_upgrade() {
    let mut conn = Connection::new(125);
    let action = conn.step(Event::Data(b"GET /missing HTTP/1.1\r\n\r\n".to_vec()));
    assert_eq!(action, Action::Serve(b"/missing".to_vec()));
    assert_eq!(conn.state, ConnState::Closed);
}

#[test]
fn request_without_a_path_is_not_found() {
    let mut conn = Connection::new(125);
    assert_eq!(
        conn.step(Event::Data(b"POST / HTTP/1.1\r\n\r\n".to_vec())),
        Action::ServeNotFound
    );
    assert_eq!(conn.state, ConnState::Closed);
    let mut silent = Connection::new(125);
    assert_eq!(silent.step(Event::PeerClosed), Action::ServeNotFound);
    assert_eq!(silent.state, ConnState::Closed);
}

#[test]
fn upgrade_without_a_key_is_answered_by_the_static_side() {
    for request in [
        b"GET /websocketme HTTP/1.1\r\n\r\n".to_vec(),
        b"GET /websocketme HTTP/1.1\r\nHost: x\r\n\r\n".to_vec(),
        b"GET /websocketme HTTP/1.1\r\nSec-WebSocket-Key:\r\n\r\n".to_vec(),
    ] {
        let mut conn = Connection::new(125);
        let action = conn.step(Event::Data(request));
        assert_eq!(action, Action::Serve(b"/websocketme".to_vec()));
        assert_eq!(conn.state, ConnState::Closed);
        assert_eq!(conn.buffer, Vec::<u8>::new());
    }
    let mut cut = Connection::new(125);
    assert_eq!(cut.step(Event::Data(b"GET /websocketme HTTP/1.1\r\n".to_vec())), Action::ReadRequest);
    assert_eq!(cut.step(Event::PeerClosed), Action::Serve(b"/websocketme".to_vec()));
}

#[test]
fn whole_head_of_1024_bytes_is_routed_at_once() {
    let mut head = b"GET /websocketme HTTP/1.1\r\nX-Fill: ".to_vec();
    head.resize(1020, b'a');
    head.extend_from_slice(b"\r\n\r\n");
    assert_eq!(head.len(), 1024);
    let mut refused = Connection::new(125);
    assert_eq!(refused.step(Event::Data(head.clone())), Action::Serve(b"/websocketme".to_vec()));
    let mut page = head.clone();
    page[5..16].copy_from_slice(b"about/x/y/z");
    let mut served = Connection::new(125);
    assert_eq!(served.step(Event::Data(page)), Action::Serve(b"/about/x/y/z".to_vec()));
    let mut keyed = b"GET /websocketme HTTP/1.1\r\nSec-WebSocket-Key: dGhlIHNhbXBsZSBub25jZQ==\r\nX-Fill: ".to_vec();
    keyed.resize(1020, b'a');
    keyed.extend_from_slice(b"\r\n\r\n");
    let mut upgraded = Connection::new(125);
    assert_eq!(upgraded.step(Event::Data(keyed)), Action::Write(RESPONSE.to_vec()));
}

#[test]
fn failure_while_the_request_is_read() {
    let mut conn = Connection::new(125);
    assert_eq!(conn.step(Event::Data(b"GET /".to_vec())), Action::ReadRequest);
    assert_eq!(conn.step(Event::Failed), Action::Close(WsError::IoFailure));
    assert_eq!(conn.state, ConnState::Closed);
    assert_eq!(conn.buffer, Vec::<u8>::new());
    let mut early = Connection::new(125);
    assert_eq!(early.step(Event::Written), Action::Close(WsError::IoFailure));
    assert_eq!(early.state, ConnState::Closed);
}

#[test]
fn failure_while_the_response_is_written() {
    for (event, reason) in [
        (Event::Failed, WsError::IoFailure),
        (Event::PeerClosed, WsError::ConnectionClosed),
        (Event::Data(vec![0x81]), WsError::IoFailure),
    ] {
        let mut conn = Connection::new(125);
        conn.step(Event::Data(REQUEST.to_vec()));
        assert_eq!(conn.state, ConnState::Handshaking);
        assert_eq!(conn.step(event), Action::Close(reason));
        assert_eq!(conn.state, ConnState::Closed);
    }
}

#[test]
fn failure_while_frames_are_streamed() {
    let mut conn = streaming(125);
    assert_eq!(conn.step(Event::Data(MASKED_HELLO[..2].to_vec())), Action::Read(4));
    assert_eq!(conn.step(Event::Failed), Action::Close(WsError::IoFailure));
    assert_eq!(conn.state, ConnState::Closed);
    assert_eq!(conn.buffer, Vec::<u8>::new());
}

#[test]
fn stream_closed_in_the_middle_of_a_frame() {
    let mut conn = streaming(125);
    assert_eq!(conn.step(Event::Data(MASKED_HELLO[..2].to_vec())), Action::Read(4));
    assert_eq!(conn.step(Event::PeerClosed), Action::Close(WsError::ConnectionClosed));
    assert_eq!(conn.state, ConnState::Closed);
}

#[test]
fn unmasked_frame_closes_without_a_reply() {
    let mut conn = streaming(125);
    let action = conn.step(Event::Data(vec![0x81, 0x05]));
    assert_eq!(action, Action::Close(WsError::ProtocolViolation));
    assert_eq!(conn.state, ConnState::Closed);
    assert_eq!(conn.buffer, Vec::<u8>::new());
}

#[test]
fn frame_over_the_limit_closes_without_a_reply() {
    let mut conn = streaming(4);
    let action = conn.step(Event::Data(MASKED_HELLO[..2].to_vec()));
    assert_eq!(action, Action::Close(WsError::ProtocolViolation));
    assert_eq!(conn.state, ConnState::Closed);
    let mut long = streaming(255);
    assert_eq!(long.step(Event::Data(vec![0x81, 0xfe])), Action::Read(2));
    assert_eq!(
        long.step(Event::Data(vec![0x01, 0x00])),
        Action::Close(WsError::ProtocolViolation)
    );
}

#[test]
fn closed_connection_stays_closed() {
    let mut conn = streaming(125);
    assert_eq!(conn.step(Event::Failed), Action::Close(WsError::IoFailure));
    for event in [
        Event::Data(REQUEST.to_vec()),
        Event::Data(MASKED_HELLO.to_vec()),
        Event::Written,
        Event::PeerClosed,
        Event::Failed,
    ] {
        assert_eq!(conn.step(event), Action::Close(WsError::ConnectionClosed));
        assert_eq!(conn.state, ConnState::Closed);
    }
}

#[test]
fn frames_are_echoed_one_after_another() {
    let mut conn = streaming(1 << 20);
    let mut stream = MASKED_HELLO.to_vec();
    stream.extend_from_slice(&[0x82, 0x80, 1, 2, 3, 4]);
    let mut long = vec![0x81, 0xfe, 0x01, 0x2c, 0, 0, 0, 0];
    long.extend_from_slice(&[0x61; 300]);
    stream.extend_from_slice(&long);
    let (written, last) = drive(&mut conn, Action::Read(2), &stream);
    assert_eq!(last, Action::Close(WsError::ConnectionClosed));
    assert_eq!(written.len(), 3);
    assert_eq!(written[0], encode_frame(Opcode::Text, b"hello"));
    assert_eq!(written[1], vec![0x81, 0x00]);
    assert_eq!(written[2], encode_frame(Opcode::Text, &[0x61; 300]));
    assert_eq!(&written[2][..4], &[0x81, 126, 0x01, 0x2c]);
}

#[test]
fn every_opcode_is_echoed_as_text() {
    let mut conn = streaming(125);
    let ping = [0x89, 0x82, 0, 0, 0, 0, b'o', b'k'];
    assert_eq!(conn.step(Event::Data(ping.to_vec())), echo_of(Opcode::Ping, b"ok"));
    let mut again = streaming(125);
    let (written, _) = drive(&mut again, Action::Read(2), &ping);
    assert_eq!(written, vec![vec![0x81, 0x02, b'o', b'k']]);
}

#[test]
fn more_than_was_asked_for_is_kept_for_the_next_frame() {
    let mut conn = streaming(125);
    let mut both = MASKED_HELLO.to_vec();
    both.extend_from_slice(&MASKED_HELLO[..3]);
    assert_eq!(
        conn.step(Event::Data(both)),
        echo_of(Opcode::Text, b"hello")
    );
    assert_eq!(conn.buffer, MASKED_HELLO[..3].to_vec());
    assert_eq!(conn.step(Event::Written), Action::Read(3));
    let mut rest = MASKED_HELLO[3..].to_vec();
    rest.extend_from_slice(&MASKED_HELLO);
    assert_eq!(
        conn.step(Event::Data(rest)),
        echo_of(Opcode::Text, b"hello")
    );
    assert_eq!(conn.buffer, MASKED_HELLO.to_vec());
    assert_eq!(
        conn.step(Event::Written),
        echo_of(Opcode::Text, b"hello")
    );
    assert_eq!(conn.buffer, Vec::<u8>::new());
    assert_eq!(conn.step(Event::Written), Action::Read(2));
}

#[test]
fn less_than_was_asked_for_is_asked_for_again() {
    let mut conn = streaming(125);
    assert_eq!(conn.step(Event::Data(vec![0x81])), Action::Read(1));
    assert_eq!(conn.step(Event::Data(Vec::new())), Action::Read(1));
    assert_eq!(conn.step(Event::Data(vec![0x85, 0x37])), Action::Read(3));
}

#[test]
fn echoed_frame_decodes_to_the_payload_again() {
    let mut conn = streaming(125);
    let (written, _) = drive(&mut conn, Action::Read(2), &MASKED_HELLO);
    let echo = &written[0];
    assert_eq!(echo[1] & 0x80, 0);
    let mut sent = vec![echo[0], echo[1] | 0x80, 0, 0, 0, 0];
    sent.extend_from_slice(&echo[2..]);
    let (frame, _) = decode_frame(&sent, 125).unwrap();
    assert_eq!(frame.payload, b"hello".to_vec());
    assert_eq!(frame.opcode, Opcode::Text);
}
