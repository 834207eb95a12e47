use remote_bind::launch::{client_launch, http_body, oneport_launch, server_launch, ClientLaunch, OneportLaunch, ServerLaunch};
use remote_bind::text::{host_port, parse_i32, parse_u16, split_whitespace};

fn args(v: &[&str]) -> Vec<String> {
    v.iter().map(|s| s.to_string()).collect()
}

#[test]
fn server_command_line() {
    assert!(matches!(server_launch(Some("-h".into()), None), ServerLaunch::Help));
    assert!(matches!(server_launch(Some("--help".into()), Some("x".into())), ServerLaunch::Help));
    assert!(matches!(server_launch(None, None), ServerLaunch::Run { port: 1234, password } if password == "test"));
    assert!(matches!(server_launch(Some("1234".into()), Some("passwd".into())), ServerLaunch::Run { port: 1234, password } if password == "passwd"));
    assert!(matches!(server_launch(Some("secret".into()), None), ServerLaunch::Run { port: 1234, password } if password == "secret"));
    assert!(matches!(server_launch(Some("99999".into()), Some("p".into())), ServerLaunch::Run { port: 1234, password } if password == "p"));
    assert!(matches!(server_launch(Some("x".repeat(1024)), Some("ok".into())), ServerLaunch::PasswordTooLong));
    assert!(matches!(server_launch(Some("8".into()), Some("y".repeat(1023))), ServerLaunch::Run { port: 8, .. }));
}

#[test]
fn client_command_line() {
    assert!(matches!(client_launch(&args(&["client", "a", "b"])), ClientLaunch::Help));
    match client_launch(&args(&["client", "x.x.x.x:1234", "13389", "passwd", "127.0.0.1:3389"])) {
        ClientLaunch::Relay { server, port, password, local_service } => {
            assert_eq!((server.as_str(), port, password.as_str(), local_service.as_str()), ("x.x.x.x:1234", 13389, "passwd", "127.0.0.1:3389"));
        }
        other => panic!("unexpected {:?}", other),
    }
    match client_launch(&args(&["client", "p2p", "x.x.x.x:1234", "13389", "127.0.0.1:9833"])) {
        ClientLaunch::Direct { server, port, local_service } => {
            assert_eq!((server.as_str(), port, local_service.as_str()), ("x.x.x.x:1234", 13389, "127.0.0.1:9833"));
        }
        other => panic!("unexpected {:?}", other),
    }
    assert!(matches!(client_launch(&args(&["client", "s", "port", "pw", "l"])), ClientLaunch::BadPort(p) if p == "port"));
}

#[test]
fn oneport_command_line() {
    assert!(matches!(oneport_launch(&args(&[])), OneportLaunch::Serve { config_file: None }));
    assert!(matches!(oneport_launch(&args(&["-c", "/path/to/config.yml"])), OneportLaunch::Serve { config_file: Some(f) } if f == "/path/to/config.yml"));
    assert!(matches!(oneport_launch(&args(&["--reload"])), OneportLaunch::Reload { config_file: None }));
    assert!(matches!(oneport_launch(&args(&["--config", "a.yml", "-r", "-c", "b.yml"])), OneportLaunch::Reload { config_file: Some(f) } if f == "a.yml"));
    assert!(matches!(oneport_launch(&args(&["x", "-c"])), OneportLaunch::Serve { config_file: None }));
}

#[test]
fn http_response_body() {
    assert_eq!(http_body("HTTP/1.1 200 OK\r\nA: b\r\n\r\n1.2.3.4"), Some("1.2.3.4".to_string()));
    assert_eq!(http_body("H\r\n\r\nbody\r\n\r\nmore"), Some("body".to_string()));
    assert_eq!(http_body("no separator"), None);
}

#[test]
fn numbers_and_words() {
    assert_eq!(parse_u16(&['6', '5', '5', '3', '5']), Some(65535));
    assert_eq!(parse_u16(&['6', '5', '5', '3', '6']), None);
    assert_eq!(parse_u16(&['+']), None);
    assert_eq!(parse_u16(&['-', '1']), None);
    assert_eq!(parse_u16(&[]), None);
    assert_eq!(parse_i32(&['-', '2', '1', '4', '7', '4', '8', '3', '6', '4', '8']), Some(i32::MIN));
    assert_eq!(parse_i32(&['2', '1', '4', '7', '4', '8', '3', '6', '4', '8']), None);
    assert_eq!(parse_i32(&['-']), None);
    let w = split_whitespace(&" a\u{a0}bc  d ".chars().collect::<Vec<char>>());
    assert_eq!(w, vec![vec!['a'], vec!['b', 'c'], vec!['d']]);
    assert_eq!(host_port("0.0.0.0", 80), "0.0.0.0:80");
}
