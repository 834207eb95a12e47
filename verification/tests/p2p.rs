use remote_bind::p2p::{
    bridge_role, classify_nat, increment_port, peer_ports, second_stun_address, BridgeRole,
    NatType,
};

#[test]
fn nat_type_text() {
    assert_eq!(NatType::Server.to_string(), "Server");
    assert_eq!(NatType::Nat4Random.to_string(), "Nat4Random");
    assert_eq!(NatType::Nat4Increment(3).to_string(), "Nat4Increment:3");
    assert_eq!(NatType::Nat4Increment(-12).to_string(), "Nat4Increment:-12");
    assert_eq!(NatType::Nat4Increment(i32::MIN).to_string(), "Nat4Increment:-2147483648");
}

#[test]
fn nat_type_from_text() {
    assert_eq!(NatType::from("Server"), NatType::Server);
    assert_eq!(NatType::from("Nat4Random"), NatType::Nat4Random);
    assert_eq!(NatType::from("Nat4Increment:7"), NatType::Nat4Increment(7));
    assert_eq!(NatType::from("Nat4Increment:-7"), NatType::Nat4Increment(-7));
    assert_eq!(NatType::from("Nat4Increment:x"), NatType::Nat4Increment(0));
    assert_eq!(NatType::from("garbage"), NatType::Nat4Increment(0));
    assert_eq!(NatType::from("a:b:5"), NatType::Nat4Increment(0));
    assert_eq!(NatType::from(":+5"), NatType::Nat4Increment(5));
}

#[test]
fn nat_type_text_roundtrip() {
    for n in [NatType::Server, NatType::Nat4Random, NatType::Nat4Increment(0), NatType::Nat4Increment(9), NatType::Nat4Increment(-65535), NatType::Nat4Increment(i32::MAX)] {
        assert_eq!(NatType::from(n.to_string().as_str()), n);
    }
}

#[test]
fn classification() {
    assert_eq!(classify_nat(true, 5000, 5000), NatType::Server);
    assert_eq!(classify_nat(true, 5000, 5003), NatType::Nat4Increment(3));
    assert_eq!(classify_nat(true, 5000, 4990), NatType::Nat4Increment(-10));
    assert_eq!(classify_nat(true, 5000, 5010), NatType::Nat4Random);
    assert_eq!(classify_nat(false, 5000, 5000), NatType::Nat4Random);
}

#[test]
fn election() {
    assert_eq!(bridge_role(NatType::Nat4Random, NatType::Nat4Random, true), BridgeRole::GiveUp);
    assert_eq!(bridge_role(NatType::Server, NatType::Nat4Random, false), BridgeRole::Listen);
    assert_eq!(bridge_role(NatType::Server, NatType::Server, true), BridgeRole::Listen);
    assert_eq!(bridge_role(NatType::Server, NatType::Server, false), BridgeRole::Connect);
    assert_eq!(bridge_role(NatType::Nat4Increment(1), NatType::Nat4Random, false), BridgeRole::Listen);
    assert_eq!(bridge_role(NatType::Nat4Increment(1), NatType::Server, true), BridgeRole::Connect);
    assert_eq!(bridge_role(NatType::Nat4Random, NatType::Server, true), BridgeRole::Connect);
}

#[test]
fn election_picks_exactly_one_listener() {
    let kinds = [NatType::Server, NatType::Nat4Increment(2), NatType::Nat4Random];
    for a in kinds {
        for b in kinds {
            if a == NatType::Nat4Random && b == NatType::Nat4Random {
                continue;
            }
            for tie in [true, false] {
                let x = bridge_role(a, b, tie) == BridgeRole::Listen;
                let y = bridge_role(b, a, !tie) == BridgeRole::Listen;
                assert!(x != y);
            }
        }
    }
}

#[test]
fn ports_to_try() {
    assert_eq!(peer_ports(40000, NatType::Nat4Increment(2)), vec![40000, 40002, 40004, 40006, 40008]);
    assert_eq!(peer_ports(3, NatType::Nat4Increment(-1)), vec![3, 2, 1, 0, 65535]);
    assert_eq!(peer_ports(40000, NatType::Server), vec![40000]);
    assert_eq!(peer_ports(40000, NatType::Nat4Random), vec![40000]);
}

#[test]
fn port_increment_wraps() {
    assert_eq!(increment_port(65535, 1), 0);
    assert_eq!(increment_port(10, -11), 65535);
    assert_eq!(increment_port(1000, 5), 1005);
}

#[test]
fn second_stun() {
    assert_eq!(second_stun_address("1.2.3.4:1234"), Some("1.2.3.4:1235".to_string()));
    assert_eq!(second_stun_address("host:+09"), Some("host:10".to_string()));
    assert_eq!(second_stun_address("1.2.3.4:65535"), None);
    assert_eq!(second_stun_address("1.2.3.4"), None);
    assert_eq!(second_stun_address("h:x"), None);
}
