use anytls::anytls_proto::{Command, AUTH_HASH_SIZE};
use anytls::client::AnytlsClient;
use anytls::frame::{read_frame, write_frame};
use anytls::padding::PaddingScheme;
use anytls::session::{FrameAction, Session, StreamEvent};
use anytls::stream::{AnytlsProxyStream, ReadOutcome, Received, WriteError};
use anytls::tls::TlsSettings;
use anytls::udp::{AnytlsUdpSocket, UdpError};

const TEST_PASSWORD: &str = "test_password_123";

fn password_hash(password: &str) -> [u8; 32] {
    let tls = TlsSettings { insecure: false, sni: Some("localhost".to_string()), cert: None };
    AnytlsClient::new("127.0.0.1".to_string(), 443, password, &tls, Ok(()), 10_000_000_000, None, None)
        .expect("create client")
        .password_hash
}

fn new_session() -> Session {
    Session::new(0, PaddingScheme::get_default())
}

/// What a server makes of the first bytes of a client.
fn accept(bytes: &[u8], expected: &[u8; 32]) -> Option<String> {
    if &bytes[..AUTH_HASH_SIZE] != expected {
        return None;
    }
    let padding: usize = bytes[32] as usize * 256 + bytes[33] as usize;
    let frame = read_frame(&bytes[34 + padding..]).expect("settings");
    assert_eq!(frame.cmd, Command::Settings, "expected Command::Settings");
    assert_eq!(bytes.len(), 34 + padding + 7 + frame.data.len());
    Some(String::from_utf8(frame.data).unwrap())
}

fn feed(session: &mut Session, bytes: &[u8]) -> FrameAction {
    let frame = read_frame(bytes).expect("a frame");
    session.handle_frame(frame.cmd, frame.stream_id, frame.data)
}

fn delivered(action: FrameAction) -> (u64, StreamEvent) {
    match action {
        FrameAction::Deliver { sender, event } => (sender, event),
        other => panic!("{:?}", other),
    }
}

fn ready(outcome: ReadOutcome) -> Vec<u8> {
    match outcome {
        ReadOutcome::Ready(data) => data,
        other => panic!("{:?}", other),
    }
}

#[test]
fn test_anytls_tcp_echo() {
    let phash: [u8; 32] = password_hash(TEST_PASSWORD);
    let mut session = new_session();
    let hello: Vec<u8> = session.drawn_greeting(&phash);
    let settings: String = accept(&hello, &phash).expect("password hash mismatch");
    assert_eq!(
        settings,
        "v=2\nclient=quicproxy/0.1.0\npadding-md5=\
         d21190768124def9dced54773b448108fdf5e332e0c2dc0be1d93436760db401\n"
    );
    let reply: Vec<u8> = write_frame(Command::ServerSettings, 0, b"v=2\n");
    assert!(matches!(feed(&mut session, &reply), FrameAction::Continue));
    assert_eq!(session.server_version(), 2);

    let target: Vec<u8> = b"\x03\x0bexample.com\x00\x50".to_vec();
    let (syn, previous) = session.open_stream(41, target.clone());
    assert_eq!(previous, None);
    let read = read_frame(&syn.to_bytes()).unwrap();
    assert_eq!(read.cmd, Command::Syn, "expected Command::Syn");
    assert_eq!(read.data, target);
    let ack: Vec<u8> = write_frame(Command::SynAck, read.stream_id, b"");
    assert!(matches!(feed(&mut session, &ack), FrameAction::Continue));

    let mut stream = AnytlsProxyStream::new(syn.stream_id);
    let test_data: &[u8] = b"hello anytls!";
    let sent: Vec<u8> = stream.poll_write(test_data).expect("write").to_bytes();
    let (sender, event) = delivered(feed(&mut session, &sent));
    assert_eq!(sender, 41);
    assert!(stream.poll_buffered(64).is_none());
    let buf: Vec<u8> = ready(stream.poll_event(Received::Event(event), 64));
    assert_eq!(buf, test_data, "echo should match sent data");
}

#[test]
fn test_anytls_udp_echo() {
    let mut session = new_session();
    let (name, port) = AnytlsUdpSocket::target(12345);
    assert_eq!((name.as_str(), port), ("sp.v2.udp-over-tcp.arpa", 12345));
    let (syn, _) = session.open_stream(7, name.into_bytes());
    let mut socket = AnytlsUdpSocket::new(syn.stream_id);
    let test_data: &[u8] = b"hello udp!";
    let sent: Vec<u8> = socket.send_to(test_data).to_bytes();
    let (sender, event) = delivered(feed(&mut session, &sent));
    assert_eq!(sender, 7);
    assert!(socket.next_msg().is_none());
    socket.take_event(Some(event)).unwrap();
    assert_eq!(
        socket.next_msg().expect("recv UDP"),
        test_data,
        "echoed UDP payload should match sent data"
    );
    assert!(socket.next_msg().is_none());
}

#[test]
fn a_wrong_password_is_refused() {
    let right: [u8; 32] = password_hash(TEST_PASSWORD);
    let wrong: [u8; 32] = password_hash("wrong_password");
    let session = new_session();
    let hello: Vec<u8> = session.drawn_greeting(&wrong);
    assert!(accept(&hello, &right).is_none());
    assert!(accept(&hello, &wrong).is_some());
    assert!(!session.is_dead());
}

#[test]
fn a_session_is_noted_as_dead() {
    let mut session = new_session();
    session.mark_dead();
    assert!(session.is_dead());
    session.handle_frame(Command::Waste, 0, Vec::new());
    assert!(session.is_dead());
}

#[test]
fn the_greeting_pads_by_the_scheme() {
    let session = Session::new(0, PaddingScheme::parse("0=100-200").unwrap());
    let hash: [u8; 32] = [5; 32];
    let mut lengths: Vec<usize> = Vec::new();
    for _ in 0..100 {
        let bytes: Vec<u8> = session.drawn_greeting(&hash);
        let padding: usize = bytes[32] as usize * 256 + bytes[33] as usize;
        assert!(100 <= padding && padding <= 200);
        assert_eq!(bytes, Session::greeting(&hash, padding));
        lengths.push(bytes.len());
    }
    assert!(lengths.iter().any(|n| *n != lengths[0]));
}

#[test]
fn an_id_that_is_taken_again() {
    let mut session = new_session();
    session.register_stream(1, 99);
    let (syn, previous) = session.open_stream(5, Vec::new());
    assert_eq!((syn.stream_id, previous), (1, Some(99)));
    let (sender, _) = delivered(session.handle_frame(Command::Fin, 1, Vec::new()));
    assert_eq!(sender, 5);
}

#[test]
fn the_hash_of_the_password() {
    let expected: [u8; 32] = [
        103, 218, 252, 158, 202, 167, 208, 141, 53, 188, 10, 182, 125, 222, 106, 194, 154, 236,
        111, 175, 112, 193, 114, 102, 190, 134, 143, 9, 125, 38, 45, 193,
    ];
    assert_eq!(password_hash(TEST_PASSWORD), expected);
}

#[test]
fn the_first_packet() {
    let hash: [u8; 32] = [7; 32];
    let packet: Vec<u8> = Session::auth_packet(&hash, 300);
    assert_eq!(packet.len(), 334);
    assert_eq!(&packet[..32], &hash);
    assert_eq!(&packet[32..34], &[1, 44]);
    assert!(packet[34..].iter().all(|b| *b == 0));
    assert_eq!(&Session::auth_packet(&hash, 65537)[32..34], &[0, 1]);
}

#[test]
fn the_padding_behind_the_hash() {
    let bounds = |text: &str| Session::auth_bounds(&PaddingScheme::parse(text).unwrap());
    assert_eq!(bounds("0=10-20,5-6"), (10, 20));
    assert_eq!(bounds("1=10-20"), (30, 30));
    assert_eq!(bounds("0=c"), (30, 30));
    let session = Session::new(0, PaddingScheme::parse("0=10-20").unwrap());
    for _ in 0..100 {
        let n: usize = session.draw_auth_padding();
        assert!(10 <= n && n <= 20);
    }
    assert_eq!(new_session().draw_auth_padding(), 30);
}

#[test]
fn a_session_begins() {
    let session = Session::new(9, PaddingScheme::get_default());
    assert_eq!(session.session_seq(), 9);
    assert_eq!(session.server_version(), 1);
    assert_eq!(session.packet_count(), 0);
    assert!(!session.is_dead());
    assert_eq!(session.padding_scheme().stop_at, 8);
}

#[test]
fn server_versions() {
    assert_eq!(Session::parse_server_version("v=2\n"), Some(2));
    assert_eq!(Session::parse_server_version("a=1\r\n v = 7 \r\nv=9"), Some(7));
    assert_eq!(Session::parse_server_version("v=256\nv=1"), None);
    assert_eq!(Session::parse_server_version("v=x"), None);
    assert_eq!(Session::parse_server_version("v"), None);
    assert_eq!(Session::parse_server_version(""), None);
    assert_eq!(Session::parse_server_version("V=3"), None);
}

#[test]
fn stream_ids_count_up() {
    let mut session = new_session();
    assert_eq!(session.next_stream_id(), 1);
    assert_eq!(session.next_stream_id(), 2);
    assert_eq!(session.open_stream(5, Vec::new()).0.stream_id, 3);
}

#[test]
fn events_go_to_their_stream() {
    let mut session = new_session();
    assert_eq!(session.register_stream(4, 100), None);
    assert_eq!(session.register_stream(5, 200), None);
    assert_eq!(session.register_stream(4, 101), Some(100));
    let (sender, event) = delivered(session.handle_frame(Command::Psh, 4, b"abc".to_vec()));
    assert_eq!(sender, 101);
    assert!(matches!(event, StreamEvent::Data(data) if data == b"abc"));
    let (sender, event) = delivered(session.handle_frame(Command::Fin, 5, Vec::new()));
    assert_eq!(sender, 200);
    assert!(matches!(event, StreamEvent::Fin));
    assert_eq!(session.unregister_stream(4), Some(101));
    assert_eq!(session.unregister_stream(4), None);
    assert!(matches!(
        session.handle_frame(Command::Psh, 4, b"late".to_vec()),
        FrameAction::Continue
    ));
    assert!(matches!(session.handle_frame(Command::Fin, 6, Vec::new()), FrameAction::Continue));
    assert_eq!(session.packet_count(), 4);
}

#[test]
fn a_refused_stream() {
    let mut session = new_session();
    let (syn, _) = session.open_stream(1, b"t".to_vec());
    let mut stream = AnytlsProxyStream::new(syn.stream_id);
    let (sender, event) =
        delivered(session.handle_frame(Command::SynAck, syn.stream_id, b"no route".to_vec()));
    assert_eq!(sender, 1);
    match stream.poll_event(Received::Event(event), 10) {
        ReadOutcome::Refused(text) => assert_eq!(text, "no route"),
        other => panic!("{:?}", other),
    }
}

#[test]
fn a_reason_that_is_no_text() {
    let mut stream = AnytlsProxyStream::new(1);
    let event = StreamEvent::SynAckError(vec![b'a', 0xff, b'b']);
    match stream.poll_event(Received::Event(event), 10) {
        ReadOutcome::Refused(text) => assert_eq!(text, "a\u{fffd}b"),
        other => panic!("{:?}", other),
    }
}

#[test]
fn an_alert_ends_the_session() {
    let mut session = new_session();
    session.register_stream(1, 10);
    session.register_stream(2, 20);
    session.register_stream(3, 30);
    match session.handle_frame(Command::Alert, 0, b"go away".to_vec()) {
        FrameAction::Abort { recipients, refusal, message } => {
            let mut all: Vec<(u32, u64)> = recipients;
            all.sort();
            assert_eq!(all, vec![(1, 10), (2, 20), (3, 30)]);
            assert_eq!(message, "server alert: go away");
            assert!(
                matches!(refusal, StreamEvent::SynAckError(data) if data == b"server alert: go away")
            );
        }
        other => panic!("{:?}", other),
    }
    assert_eq!(session.packet_count(), 0);
}

#[test]
fn a_new_padding_scheme() {
    let mut session = new_session();
    let action = session.handle_frame(Command::UpdatePaddingScheme, 0, b"stop=2\n0=5-5".to_vec());
    assert!(matches!(action, FrameAction::Continue));
    assert_eq!(session.padding_scheme().stop_at, 2);
    assert_eq!(session.draw_auth_padding(), 5);
    session.handle_frame(Command::UpdatePaddingScheme, 0, b"stop=x".to_vec());
    assert_eq!(session.padding_scheme().stop_at, 2);
    assert_eq!(session.packet_count(), 2);
}

#[test]
fn copies_of_events() {
    let data = StreamEvent::Data(vec![1, 2]);
    assert!(matches!(data.copy(), StreamEvent::Data(bytes) if bytes == [1, 2]));
    assert!(matches!(StreamEvent::Fin.copy(), StreamEvent::Fin));
    let refusal = StreamEvent::SynAckError(vec![3]);
    assert!(matches!(refusal.copy(), StreamEvent::SynAckError(bytes) if bytes == [3]));
}

#[test]
fn heartbeats() {
    let mut session = new_session();
    match session.handle_frame(Command::HeartRequest, 77, b"x".to_vec()) {
        FrameAction::Reply(frame) => assert_eq!(frame.to_bytes(), vec![9, 0, 0, 0, 0, 0, 0]),
        other => panic!("{:?}", other),
    }
    assert!(matches!(
        session.handle_frame(Command::HeartResponse, 0, Vec::new()),
        FrameAction::Continue
    ));
}

#[test]
fn frames_that_ask_for_nothing() {
    let mut session = new_session();
    session.register_stream(1, 10);
    for command in [Command::Waste, Command::Syn, Command::Settings] {
        assert!(matches!(session.handle_frame(command, 1, b"x".to_vec()), FrameAction::Continue));
    }
    assert_eq!(session.packet_count(), 3);
}

#[test]
fn opening_fails_without_the_session() {
    assert_eq!(Session::open_outcome(true), Ok(()));
    assert_eq!(Session::open_outcome(false), Err("session write channel closed"));
}

#[test]
fn reading_in_small_steps() {
    let mut stream = AnytlsProxyStream::new(3);
    assert_eq!(stream.stream_id(), 3);
    assert!(matches!(stream.poll_event(Received::Empty, 4), ReadOutcome::Pending));
    let event = Received::Event(StreamEvent::Data(b"0123456789".to_vec()));
    assert_eq!(ready(stream.poll_event(event, 4)), b"0123");
    assert_eq!(ready(stream.poll_buffered(0).unwrap()), b"");
    assert_eq!(ready(stream.poll_buffered(4).unwrap()), b"4567");
    assert_eq!(ready(stream.poll_buffered(4).unwrap()), b"89");
    assert!(stream.poll_buffered(4).is_none());
}

#[test]
fn the_end_of_a_stream() {
    for last in [Received::Event(StreamEvent::Fin), Received::Disconnected] {
        let mut stream = AnytlsProxyStream::new(3);
        assert!(ready(stream.poll_event(last, 4)).is_empty());
        assert!(ready(stream.poll_buffered(4).unwrap()).is_empty());
        assert!(ready(stream.poll_buffered(4).unwrap()).is_empty());
    }
}

#[test]
fn shutting_a_stream_down() {
    let mut stream = AnytlsProxyStream::new(3);
    assert_eq!(stream.close().unwrap().to_bytes(), vec![3, 0, 0, 0, 3, 0, 0]);
    assert_eq!(stream.poll_shutdown().unwrap().to_bytes(), vec![3, 0, 0, 0, 3, 0, 0]);
    assert!(stream.poll_shutdown().is_none());
    assert!(stream.close().is_none());
    assert_eq!(stream.poll_write(b"x").unwrap_err(), WriteError::AlreadyClosed);
}

#[test]
fn what_a_writer_is_told() {
    assert_eq!(AnytlsProxyStream::write_outcome(5, true), Ok(5));
    assert_eq!(AnytlsProxyStream::write_outcome(5, false), Err(WriteError::SessionClosed));
    assert_eq!(WriteError::AlreadyClosed.message(), "stream already closed");
    assert_eq!(WriteError::SessionClosed.message(), "session closed");
}

#[test]
fn udp_messages_in_pieces() {
    let mut socket = AnytlsUdpSocket::new(1);
    let mut bytes: Vec<u8> = socket.send_to(b"first").data;
    bytes.extend(socket.send_to(b"").data);
    bytes.extend(socket.send_to(b"third").data);
    let mut messages: Vec<Vec<u8>> = Vec::new();
    for piece in bytes.chunks(3) {
        socket.take_event(Some(StreamEvent::Data(piece.to_vec()))).unwrap();
        while let Some(message) = socket.next_msg() {
            messages.push(message);
        }
    }
    assert_eq!(messages, vec![b"first".to_vec(), b"".to_vec(), b"third".to_vec()]);
}

#[test]
fn a_udp_packet_on_the_wire() {
    let socket = AnytlsUdpSocket::new(2);
    assert_eq!(socket.stream_id(), 2);
    assert_eq!(socket.send_to(b"ab").to_bytes(), vec![2, 0, 0, 0, 2, 0, 4, 0, 2, b'a', b'b']);
    assert_eq!(socket.close().to_bytes(), vec![3, 0, 0, 0, 2, 0, 0]);
}

#[test]
fn why_a_udp_socket_ends() {
    let mut socket = AnytlsUdpSocket::new(1);
    let closed: UdpError = socket.take_event(Some(StreamEvent::Fin)).unwrap_err();
    assert_eq!(closed.message(), "UDP stream closed by remote");
    let refused: UdpError =
        socket.take_event(Some(StreamEvent::SynAckError(b"denied".to_vec()))).unwrap_err();
    assert_eq!(refused.message(), "UDP stream error: denied");
    let gone: UdpError = socket.take_event(None).unwrap_err();
    assert_eq!(gone.message(), "UDP stream channel closed");
    let unsent: UdpError = AnytlsUdpSocket::send_outcome(3, false).unwrap_err();
    assert_eq!(unsent.message(), "UDP write channel closed");
    assert_eq!(AnytlsUdpSocket::send_outcome(3, true).unwrap(), 3);
}

#[test]
fn streams_do_not_mix() {
    let mut session = new_session();
    let first: u32 = session.open_stream(10, Vec::new()).0.stream_id;
    let second: u32 = session.open_stream(20, Vec::new()).0.stream_id;
    let mut bytes: Vec<u8> = Vec::new();
    for (command, id, data) in [
        (Command::Psh, first, "a"),
        (Command::Psh, second, "x"),
        (Command::HeartRequest, 0, ""),
        (Command::Psh, first, "b"),
        (Command::Psh, 99, "nobody"),
        (Command::Fin, second, ""),
        (Command::Psh, first, "c"),
    ] {
        bytes.extend(write_frame(command, id, data.as_bytes()));
    }
    let mut rest: &[u8] = &bytes;
    let mut told: Vec<(u64, Vec<u8>)> = Vec::new();
    while let Some(frame) = read_frame(rest) {
        rest = &rest[7 + frame.data.len()..];
        match session.handle_frame(frame.cmd, frame.stream_id, frame.data) {
            FrameAction::Deliver { sender, event: StreamEvent::Data(data) } => {
                told.push((sender, data));
            }
            FrameAction::Deliver { sender, event: StreamEvent::Fin } => {
                told.push((sender, b"fin".to_vec()));
            }
            _ => {}
        }
    }
    let of = |whose: u64| -> Vec<String> {
        told.iter()
            .filter(|(sender, _)| *sender == whose)
            .map(|(_, data)| String::from_utf8(data.clone()).unwrap())
            .collect()
    };
    assert_eq!(of(10), ["a", "b", "c"]);
    assert_eq!(of(20), ["x", "fin"]);
    assert_eq!(told.len(), 5);
}

#[test]
fn a_stream_that_came_and_went() {
    let mut session = new_session();
    let id: u32 = session.open_stream(10, Vec::new()).0.stream_id;
    assert_eq!(session.unregister_stream(id), Some(10));
    match session.handle_frame(Command::Alert, 0, Vec::new()) {
        FrameAction::Abort { recipients, message, .. } => {
            assert!(recipients.is_empty());
            assert_eq!(message, "server alert: ");
        }
        other => panic!("{:?}", other),
    }
}
