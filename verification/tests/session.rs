use remote_bind::client::{
    bind_outcome, p2p_reply, proxy_action, BindFailure, ClientP2P, P2pReply, ProxyAction,
};
use remote_bind::cmd::{Command, CommandError};
use remote_bind::server::{
    stun_addresses, AgentSession, Forwarding, SessionAction, SessionEvent, SessionState,
};

fn start() -> AgentSession {
    let (s, a) = AgentSession::start("5.6.7.8:9".to_string());
    assert!(matches!(a, SessionAction::Read { authenticated: true }));
    s
}

#[test]
fn wrong_password_gets_failure_then_close() {
    let mut s = start();
    match s.step(SessionEvent::Read(Command::permission_denied())) {
        SessionAction::Send(Command::Failure { reason }) => assert_eq!(reason, "密码错误"),
        _ => panic!("expected failure"),
    }
    assert!(matches!(s.step(SessionEvent::Sent(true)), SessionAction::Sleep(2000)));
    assert!(matches!(s.step(SessionEvent::Done), SessionAction::End));
    assert_eq!(s.state_now(), SessionState::Ended);
}

#[test]
fn read_error_is_reported() {
    let mut s = start();
    match s.step(SessionEvent::Read(Command::Error(CommandError::Io("early eof".into())))) {
        SessionAction::Send(Command::Failure { reason }) => assert_eq!(reason, "early eof"),
        _ => panic!("expected failure"),
    }
}

#[test]
fn bind_then_keepalive_then_release() {
    let mut s = start();
    assert!(matches!(s.step(SessionEvent::Read(Command::Bind { port: 9833 })), SessionAction::BindPort(9833)));
    assert!(matches!(s.step(SessionEvent::Bound(Ok(()))), SessionAction::Send(Command::Success)));
    assert!(matches!(s.step(SessionEvent::Sent(true)), SessionAction::Register(9833)));
    assert!(matches!(s.step(SessionEvent::Done), SessionAction::Sleep(5000)));
    assert!(matches!(s.step(SessionEvent::Done), SessionAction::Send(Command::Nothing)));
    assert!(matches!(s.step(SessionEvent::Sent(true)), SessionAction::Read { authenticated: false }));
    assert!(matches!(s.step(SessionEvent::Read(Command::Nothing)), SessionAction::Sleep(5000)));
    assert!(matches!(s.step(SessionEvent::Done), SessionAction::Send(Command::Nothing)));
    assert!(matches!(s.step(SessionEvent::Sent(true)), SessionAction::Read { authenticated: false }));
    assert!(matches!(s.step(SessionEvent::Read(Command::Success)), SessionAction::Release(9833)));
    assert!(matches!(s.step(SessionEvent::Done), SessionAction::End));
}

#[test]
fn failed_ping_releases() {
    let mut s = start();
    s.step(SessionEvent::Read(Command::Bind { port: 1 }));
    s.step(SessionEvent::Bound(Ok(())));
    s.step(SessionEvent::Sent(false));
    s.step(SessionEvent::Done);
    s.step(SessionEvent::Done);
    assert!(matches!(s.step(SessionEvent::Sent(false)), SessionAction::Release(1)));
}

#[test]
fn bind_failure_is_reported() {
    let mut s = start();
    s.step(SessionEvent::Read(Command::Bind { port: 80 }));
    match s.step(SessionEvent::Bound(Err("Address already in use".into()))) {
        SessionAction::Send(Command::Failure { reason }) => assert_eq!(reason, "Address already in use"),
        _ => panic!("expected failure"),
    }
    assert!(matches!(s.step(SessionEvent::Sent(true)), SessionAction::Sleep(2000)));
}

#[test]
fn p2p_request_forwarding() {
    let mut s = start();
    match s.step(SessionEvent::Read(Command::P2pRequest { port: 3389, udp_addr: "1.1.1.1:1".into() })) {
        SessionAction::ForwardP2p { port, request: Command::AcceptP2P { addr, udp_addr } } => {
            assert_eq!(port, 3389);
            assert_eq!(addr, "5.6.7.8:9");
            assert_eq!(udp_addr, "1.1.1.1:1");
        }
        _ => panic!("expected forward"),
    }
    match s.step(SessionEvent::Forwarded(Forwarding::NoService)) {
        SessionAction::Send(Command::Failure { reason }) => assert_eq!(reason, "端口未绑定服务"),
        _ => panic!("expected failure"),
    }
}

#[test]
fn p2p_forward_undelivered_and_delivered() {
    let mut s = start();
    s.step(SessionEvent::Read(Command::P2pRequest { port: 1, udp_addr: "u".into() }));
    match s.step(SessionEvent::Forwarded(Forwarding::Undelivered)) {
        SessionAction::Send(Command::Failure { reason }) => assert_eq!(reason, "代理响应超时"),
        _ => panic!("expected failure"),
    }
    let mut t = start();
    t.step(SessionEvent::Read(Command::P2pRequest { port: 1, udp_addr: "u".into() }));
    assert!(matches!(t.step(SessionEvent::Forwarded(Forwarding::Delivered)), SessionAction::End));
}

#[test]
fn p2p_answer_returned() {
    let mut s = start();
    match s.step(SessionEvent::Read(Command::AcceptP2P { addr: "8.8.8.8:8".into(), udp_addr: "2.2.2.2:2".into() })) {
        SessionAction::ReturnP2p { peer, answer: Command::AcceptP2P { addr, udp_addr } } => {
            assert_eq!(peer, "8.8.8.8:8");
            assert_eq!(addr, "5.6.7.8:9");
            assert_eq!(udp_addr, "2.2.2.2:2");
        }
        _ => panic!("expected return"),
    }
    assert!(matches!(s.step(SessionEvent::Returned(true)), SessionAction::Sleep(2000)));
    let mut t = start();
    t.step(SessionEvent::Read(Command::AcceptP2P { addr: "a".into(), udp_addr: "b".into() }));
    assert!(matches!(t.step(SessionEvent::Returned(false)), SessionAction::End));
}

#[test]
fn accept_takes_visitor_and_other_commands_are_ignored() {
    let mut s = start();
    assert!(matches!(s.step(SessionEvent::Read(Command::Nothing)), SessionAction::Read { authenticated: true }));
    assert!(matches!(s.step(SessionEvent::Read(Command::Success)), SessionAction::Read { authenticated: true }));
    match s.step(SessionEvent::Read(Command::Accept { port: 1, id: "sid".into(), addr: "".into() })) {
        SessionAction::TakeVisitor(id) => assert_eq!(id, "sid"),
        _ => panic!("expected take"),
    }
}

#[test]
fn stun_service_addresses() {
    assert_eq!(stun_addresses("0.0.0.0", 1234), Some(("0.0.0.0:1234".to_string(), "0.0.0.0:1235".to_string())));
    assert_eq!(stun_addresses("0.0.0.0", 65535), None);
}

#[test]
fn bind_reply_meaning() {
    assert!(bind_outcome(Command::Success).is_ok());
    assert!(matches!(bind_outcome(Command::failure("taken".into())), Err(BindFailure::Refused(r)) if r == "taken"));
    assert!(matches!(bind_outcome(Command::invalid_data()), Err(BindFailure::Broken(CommandError::InvalidData))));
    assert!(matches!(bind_outcome(Command::Nothing), Err(BindFailure::Unexpected)));
}

#[test]
fn proxy_decisions() {
    match proxy_action(Command::Accept { port: 9, id: "i".into(), addr: "v:1".into() }) {
        ProxyAction::OpenSession { greeting: Command::Accept { port, id, addr }, session, visitor } => {
            assert_eq!((port, id.as_str(), addr.as_str(), visitor.as_str()), (9, "i", "", "v:1"));
            assert_eq!(session, "i");
        }
        _ => panic!("expected session"),
    }
    assert!(matches!(proxy_action(Command::Nothing), ProxyAction::Answer(Command::Nothing)));
    assert!(matches!(proxy_action(Command::Success), ProxyAction::Skip));
    assert!(matches!(proxy_action(Command::invalid_data()), ProxyAction::Stop(CommandError::InvalidData)));
    assert!(matches!(proxy_action(Command::AcceptP2P { addr: "a".into(), udp_addr: "u".into() }), ProxyAction::OpenP2pSession { .. }));
}

#[test]
fn p2p_client_parts() {
    let c = ClientP2P::new("1.2.3.4:1234".into(), 13389, "127.0.0.1:9833".into());
    assert_eq!(c.server(), "1.2.3.4:1234");
    assert_eq!(c.port(), 13389);
    assert_eq!(c.local_service(), "127.0.0.1:9833");
    assert!(matches!(p2p_reply(Command::AcceptP2P { addr: "a".into(), udp_addr: "u:1".into() }), P2pReply::Connect { peer_udp_addr } if peer_udp_addr == "u:1"));
    assert!(matches!(p2p_reply(Command::failure("no".into())), P2pReply::Refused(r) if r == "no"));
    assert!(matches!(p2p_reply(Command::Success), P2pReply::Unexpected(Command::Success)));
}

#[test]
fn ended_session_stays_ended() {
    let mut s = start();
    s.step(SessionEvent::Read(Command::Accept { port: 1, id: "x".into(), addr: "".into() }));
    assert_eq!(s.state_now(), SessionState::Ended);
    assert!(matches!(s.step(SessionEvent::Read(Command::Bind { port: 2 })), SessionAction::End));
    assert!(matches!(s.step(SessionEvent::Done), SessionAction::End));
    assert_eq!(s.state_now(), SessionState::Ended);
}
