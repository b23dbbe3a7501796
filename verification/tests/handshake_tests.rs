//! Handshake tests: the version and mode legs, word by word.

use carpet_core::handshake::{confirm_mode, confirm_version, mode_code, role_of, Role};
use carpet_core::{is_compatible, parse_mode, FilePath, Mode, PeerResource, MAJOR_VERSION};

#[test]
fn equal_versions_exchange_no_verdict() {
    for role in [Role::Connector, Role::Host] {
        let v = confirm_version(role, &vec![MAJOR_VERSION]).expect("complete leg");
        assert_eq!(v.outgoing, vec![MAJOR_VERSION]);
        assert_eq!(v.consumed, 1);
        assert_eq!(v.peer_version, MAJOR_VERSION);
        assert!(v.outcome.is_ok());
    }
}

#[test]
fn higher_side_writes_the_verdict() {
    // Peer at 3 is below the compatibility floor: we are the arbiter and
    // write verdict 0, then fail with the update message.
    let v = confirm_version(Role::Connector, &vec![3]).expect("complete leg");
    assert_eq!(v.outgoing, vec![MAJOR_VERSION, 0]);
    assert_eq!(v.consumed, 1);
    let err = v.outcome.expect_err("incompatible peer");
    assert!(err.message.contains("please update"));
    assert!(err.message.contains("Peer's version 3"));

    // A compatible lower peer: we write verdict 1 and proceed.
    let v = confirm_version(Role::Host, &vec![8]).expect("complete leg");
    assert_eq!(v.outgoing, vec![MAJOR_VERSION, 1]);
    assert!(v.outcome.is_ok());

    // A higher peer rules: we write only our version and read its verdict.
    let v = confirm_version(Role::Host, &vec![12, 1]).expect("complete leg");
    assert_eq!(v.outgoing, vec![MAJOR_VERSION]);
    assert_eq!(v.consumed, 2);
    assert!(v.outcome.is_ok());

    let v = confirm_version(Role::Connector, &vec![12, 0]).expect("complete leg");
    assert!(v.outcome.is_err());
}

#[test]
fn version_leg_premature_close() {
    assert!(confirm_version(Role::Connector, &vec![]).is_err());
    assert!(confirm_version(Role::Host, &vec![12]).is_err());
}

#[test]
fn compatibility_floor() {
    assert!(is_compatible(MAJOR_VERSION));
    assert!(is_compatible(7));
    assert!(!is_compatible(3));
    assert!(!is_compatible(6));
}

#[test]
fn both_ends_selected_send() {
    // Host sees its own code arrive: writes verdict 0 and reports the
    // conflict.
    let m = confirm_mode(Role::Host, 1, &vec![1]).expect("complete leg");
    assert_eq!(m.outgoing, vec![0]);
    let err = m.outcome.expect_err("mode conflict");
    assert!(err.message.contains("Both ends of the transfer selected send"));

    // The connector reads that 0 and reports the same conflict.
    let m = confirm_mode(Role::Connector, 1, &vec![0]).expect("complete leg");
    assert_eq!(m.outgoing, vec![1]);
    let err = m.outcome.expect_err("mode conflict");
    assert!(err.message.contains("Both ends of the transfer selected send"));
}

#[test]
fn both_ends_selected_receive() {
    let m = confirm_mode(Role::Host, 0, &vec![0]).expect("complete leg");
    assert_eq!(m.outgoing, vec![0]);
    let err = m.outcome.expect_err("mode conflict");
    assert!(err.message.contains("Both ends of the transfer selected receive"));
}

#[test]
fn valid_mode_pairing() {
    let m = confirm_mode(Role::Host, 0, &vec![1]).expect("complete leg");
    assert_eq!(m.outgoing, vec![1]);
    assert!(m.outcome.is_ok());

    let m = confirm_mode(Role::Connector, 0, &vec![1]).expect("complete leg");
    assert_eq!(m.outgoing, vec![0]);
    assert!(m.outcome.is_ok());
}

#[test]
fn roles_follow_peer_resource() {
    assert_eq!(role_of(&PeerResource::WifiClient("192.168.4.1".to_string())), Role::Connector);
    assert_eq!(role_of(&PeerResource::LinuxHotspot), Role::Host);
}

#[test]
fn mode_codes() {
    let send = Mode::Send(vec![FilePath { components: vec![b"a".to_vec()] }]);
    let receive = Mode::Receive(FilePath { components: vec![b"r".to_vec()] });
    assert_eq!(mode_code(&send), 1);
    assert_eq!(mode_code(&receive), 0);
}

#[test]
fn mode_parsing() {
    let files = vec![FilePath { components: vec![b"a".to_vec(), b"b.txt".to_vec()] }];
    match parse_mode("send", Some(files), None) {
        Ok(Mode::Send(fs)) => assert_eq!(fs.len(), 1),
        _ => panic!("send mode expected"),
    }
    let dir = FilePath { components: vec![b"out".to_vec()] };
    match parse_mode("receive", None, Some(dir)) {
        Ok(Mode::Receive(d)) => assert_eq!(d.components, vec![b"out".to_vec()]),
        _ => panic!("receive mode expected"),
    }
    assert!(parse_mode("send", None, None).is_err());
    assert!(parse_mode("send", Some(vec![]), None).is_err());
    assert!(parse_mode("receive", None, None).is_err());
    assert!(parse_mode("sideways", None, None).is_err());
}
