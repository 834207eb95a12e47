use remote_bind::cmd::{
    decode_body, decode_command, encode_command, parse_command_text, Command, CommandError,
    CommandReader, ReadStep,
};

fn frame(cmd: &Command, password: &str) -> Vec<u8> {
    encode_command(cmd, password)
}

fn read(bytes: &[u8], password: &str) -> Option<(usize, Command)> {
    decode_command(bytes, password)
}

fn chars(s: &str) -> Vec<char> {
    s.chars().collect()
}

#[test]
fn bind_frame_layout() {
    let bytes = frame(&Command::Bind { port: 9833 }, "test");
    let mut expected = vec![0xba, 0xbe, 4, 9];
    expected.extend_from_slice(b"test");
    expected.extend_from_slice(b"bind 9833");
    assert_eq!(bytes, expected);
}

#[test]
fn accept_frame_text() {
    let cmd = Command::Accept { port: 80, id: "abc".to_string(), addr: "1.2.3.4:5".to_string() };
    let bytes = frame(&cmd, "");
    assert_eq!(&bytes[..4], &[0xba, 0xbe, 0, 23]);
    assert_eq!(&bytes[4..], b"accept 80 abc 1.2.3.4:5");
}

#[test]
fn failure_and_success_frames() {
    assert_eq!(&frame(&Command::Success, "")[4..], b"success");
    assert_eq!(&frame(&Command::failure("port taken".to_string()), "")[4..], b"failure port taken");
    assert_eq!(&frame(&Command::Nothing, "")[2..], &[0, 0]);
    assert_eq!(&frame(&Command::invalid_data(), "")[2..], &[0, 0]);
}

#[test]
fn roundtrip_with_password() {
    let cmd = Command::Bind { port: 13389 };
    let bytes = frame(&cmd, "passwd");
    match read(&bytes, "passwd") {
        Some((n, Command::Bind { port })) => {
            assert_eq!(n, bytes.len());
            assert_eq!(port, 13389);
        }
        other => panic!("unexpected {:?}", other),
    }
}

#[test]
fn roundtrip_all_writable_commands() {
    let cmds = vec![
        Command::Accept { port: 1, id: "id-1".into(), addr: "9.9.9.9:1".into() },
        Command::Accept { port: 2, id: "id-2".into(), addr: "".into() },
        Command::P2pRequest { port: 3, udp_addr: "1.1.1.1:7".into() },
        Command::AcceptP2P { addr: "2.2.2.2:8".into(), udp_addr: "3.3.3.3:9".into() },
        Command::AcceptP2P { addr: "".into(), udp_addr: "".into() },
        Command::Success,
        Command::Nothing,
        Command::Failure { reason: "密码 错误".into() },
    ];
    for cmd in cmds {
        let bytes = frame(&cmd, "");
        let (n, back) = read(&bytes, "").expect("whole frame");
        assert_eq!(n, bytes.len());
        assert_eq!(format!("{:?}", back), format!("{:?}", cmd));
    }
}

#[test]
fn wrong_password_is_refused() {
    let bytes = frame(&Command::Bind { port: 1 }, "nope");
    match read(&bytes, "test") {
        Some((_, Command::Error(CommandError::PermissionDenied))) => {}
        other => panic!("unexpected {:?}", other),
    }
}

#[test]
fn p2p_request_skips_password() {
    let bytes = frame(&Command::P2pRequest { port: 7, udp_addr: "4.4.4.4:4".into() }, "");
    match read(&bytes, "test") {
        Some((_, Command::P2pRequest { port, udp_addr })) => {
            assert_eq!(port, 7);
            assert_eq!(udp_addr, "4.4.4.4:4");
        }
        other => panic!("unexpected {:?}", other),
    }
}

#[test]
fn bad_magic_is_invalid_data() {
    match read(&[0x00, 0x01, 0, 0], "") {
        Some((2, Command::Error(CommandError::InvalidData))) => {}
        other => panic!("unexpected {:?}", other),
    }
}

#[test]
fn short_stream_is_incomplete() {
    let bytes = frame(&Command::Success, "pw");
    assert!(read(&bytes[..bytes.len() - 1], "pw").is_none());
    assert!(read(&bytes[..1], "pw").is_none());
}

#[test]
fn error_is_written_as_nothing() {
    let bytes = frame(&Command::Error(CommandError::Io("x".into())), "");
    assert!(matches!(read(&bytes, ""), Some((4, Command::Nothing))));
}

#[test]
fn reader_asks_for_each_part() {
    let bytes = frame(&Command::Bind { port: 22 }, "pw");
    let mut reader = CommandReader::new("pw");
    assert_eq!(reader.want(), 2);
    assert!(matches!(reader.feed(&bytes[0..2]), ReadStep::Read(2)));
    assert!(matches!(reader.feed(&bytes[2..4]), ReadStep::Read(2)));
    assert!(matches!(reader.feed(&bytes[4..6]), ReadStep::Read(7)));
    match reader.feed(&bytes[6..]) {
        ReadStep::Done(Command::Bind { port }) => assert_eq!(port, 22),
        _ => panic!("expected bind"),
    }
}

#[test]
fn parse_text_cases() {
    assert!(matches!(parse_command_text(&chars("  bind   80 "), false), Command::Bind { port: 80 }));
    assert!(matches!(parse_command_text(&chars("bind +80"), false), Command::Bind { port: 80 }));
    assert!(matches!(parse_command_text(&chars("bind 70000"), false), Command::Error(CommandError::InvalidData)));
    assert!(matches!(parse_command_text(&chars("bind"), false), Command::Error(CommandError::InvalidData)));
    assert!(matches!(parse_command_text(&chars("accept 1"), false), Command::Error(CommandError::InvalidData)));
    assert!(matches!(parse_command_text(&chars("hello"), false), Command::Nothing));
    assert!(matches!(parse_command_text(&chars(""), false), Command::Nothing));
    assert!(matches!(parse_command_text(&chars(""), true), Command::Error(CommandError::PermissionDenied)));
    assert!(matches!(parse_command_text(&chars("success extra"), false), Command::Success));
    match parse_command_text(&chars("failure  a\tb \u{3000}c "), false) {
        Command::Failure { reason } => assert_eq!(reason, "a b c"),
        other => panic!("unexpected {:?}", other),
    }
    match parse_command_text(&chars("accept_p2p only"), false) {
        Command::AcceptP2P { addr, udp_addr } => {
            assert_eq!(addr, "only");
            assert_eq!(udp_addr, "");
        }
        other => panic!("unexpected {:?}", other),
    }
    match parse_command_text(&chars("accept 5 sid"), false) {
        Command::Accept { port, id, addr } => {
            assert_eq!(port, 5);
            assert_eq!(id, "sid");
            assert_eq!(addr, "");
        }
        other => panic!("unexpected {:?}", other),
    }
}

#[test]
fn invalid_utf8_body_is_read_lossily() {
    match decode_body(&[b'f', b'a', b'i', b'l', b'u', b'r', b'e', b' ', 0xff], false) {
        Command::Failure { reason } => assert_eq!(reason, "\u{fffd}"),
        other => panic!("unexpected {:?}", other),
    }
}

#[test]
fn error_messages() {
    assert_eq!(CommandError::InvalidData.message(), std::io::Error::from(std::io::ErrorKind::InvalidData).to_string());
    assert_eq!(CommandError::PermissionDenied.message(), std::io::Error::from(std::io::ErrorKind::PermissionDenied).to_string());
    assert_eq!(CommandError::Io("boom".into()).message(), "boom");
}

#[test]
fn constructors() {
    assert!(matches!(Command::invalid_data(), Command::Error(CommandError::InvalidData)));
    assert!(matches!(Command::permission_denied(), Command::Error(CommandError::PermissionDenied)));
    assert!(matches!(Command::success(), Command::Success));
    assert!(matches!(Command::failure("r".into()), Command::Failure { reason } if reason == "r"));
}
