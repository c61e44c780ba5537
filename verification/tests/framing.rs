use anytls::anytls_proto::{
    Command, AGENT_NAME, AUTH_HASH_SIZE, AUTH_LENGTH_FIELD_SIZE, FRAME_HEADER_SIZE,
    PROTOCOL_VERSION, UDP_OVER_TCP_TARGET,
};
use anytls::frame::{read_frame, write_frame, FrameHeader, Outgoing};

#[test]
fn constants_of_the_protocol() {
    assert_eq!(PROTOCOL_VERSION, 2);
    assert_eq!(AGENT_NAME, "quicproxy/0.1.0");
    assert_eq!(FRAME_HEADER_SIZE, 7);
    assert_eq!(AUTH_HASH_SIZE, 32);
    assert_eq!(AUTH_LENGTH_FIELD_SIZE, 2);
    assert_eq!(UDP_OVER_TCP_TARGET, "sp.v2.udp-over-tcp.arpa");
}

#[test]
fn commands_and_their_bytes() {
    let all: Vec<(u8, Command)> = vec![
        (0, Command::Waste),
        (1, Command::Syn),
        (2, Command::Psh),
        (3, Command::Fin),
        (4, Command::Settings),
        (5, Command::Alert),
        (6, Command::UpdatePaddingScheme),
        (7, Command::SynAck),
        (8, Command::HeartRequest),
        (9, Command::HeartResponse),
        (10, Command::ServerSettings),
    ];
    for (byte, command) in all {
        assert!(Command::is_known(byte));
        assert_eq!(Command::from(byte), command);
        assert_eq!(u8::from(command), byte);
    }
    for byte in 11..=255u8 {
        assert!(!Command::is_known(byte));
    }
}

#[test]
fn a_frame_on_the_wire() {
    let bytes: Vec<u8> = write_frame(Command::Psh, 0x01020304, b"hello");
    assert_eq!(bytes, vec![2, 1, 2, 3, 4, 0, 5, b'h', b'e', b'l', b'l', b'o']);
    let header: FrameHeader = FrameHeader::parse(&bytes).unwrap();
    assert_eq!(header, FrameHeader { cmd: 2, stream_id: 0x01020304, data_len: 5 });
}

#[test]
fn a_frame_without_data() {
    let frame = Outgoing { stream_id: u32::MAX, cmd: Command::Fin, data: Vec::new() };
    assert_eq!(frame.to_bytes(), vec![3, 255, 255, 255, 255, 0, 0]);
}

#[test]
fn frames_are_read_back() {
    let mut bytes: Vec<u8> = write_frame(Command::SynAck, 7, b"no");
    bytes.extend_from_slice(b"rest");
    let frame = read_frame(&bytes).unwrap();
    assert_eq!((frame.cmd, frame.stream_id), (Command::SynAck, 7));
    assert_eq!(frame.data, b"no");
}

#[test]
fn the_longest_frame() {
    let data: Vec<u8> = vec![9; 65535];
    let bytes: Vec<u8> = write_frame(Command::Psh, 1, &data);
    assert_eq!(&bytes[5..7], &[255, 255]);
    assert_eq!(read_frame(&bytes).unwrap().data, data);
}

#[test]
fn the_length_field_wraps() {
    let data: Vec<u8> = vec![9; 65537];
    let bytes: Vec<u8> = write_frame(Command::Psh, 1, &data);
    assert_eq!(bytes.len(), 7 + 65537);
    assert_eq!(read_frame(&bytes).unwrap().data, vec![9]);
}

#[test]
fn unfinished_frames() {
    let bytes: Vec<u8> = write_frame(Command::Alert, 0, b"bye");
    for len in 0..bytes.len() {
        assert!(read_frame(&bytes[..len]).is_none());
    }
    assert!(FrameHeader::parse(&bytes[..6]).is_none());
    assert!(FrameHeader::parse(&bytes[..7]).is_some());
}

#[test]
fn a_row_of_frames() {
    let sent: Vec<Outgoing> = vec![
        Outgoing { stream_id: 1, cmd: Command::Syn, data: b"target".to_vec() },
        Outgoing { stream_id: 2, cmd: Command::Psh, data: Vec::new() },
        Outgoing { stream_id: 1, cmd: Command::Fin, data: b"x".to_vec() },
    ];
    let mut bytes: Vec<u8> = Vec::new();
    for frame in &sent {
        bytes.extend(frame.to_bytes());
    }
    let mut rest: &[u8] = &bytes;
    for frame in &sent {
        let read = read_frame(rest).unwrap();
        assert_eq!(read.cmd, frame.cmd);
        assert_eq!(read.stream_id, frame.stream_id);
        assert_eq!(read.data, frame.data);
        rest = &rest[FRAME_HEADER_SIZE + read.data.len()..];
    }
    assert!(rest.is_empty());
}

#[test]
fn a_header_with_an_unknown_command() {
    let bytes: Vec<u8> = vec![11, 0, 0, 0, 1, 0, 0];
    let header: FrameHeader = FrameHeader::parse(&bytes).unwrap();
    assert_eq!(header.cmd, 11);
    assert!(!Command::is_known(header.cmd));
    assert!(read_frame(&bytes[..6]).is_none());
}
