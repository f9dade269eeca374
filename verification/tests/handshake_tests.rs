use flying::handshake::{Handshake, Phase, Role};
use flying::TransferError;

#[test]
fn role_flags_are_one_for_sender_zero_for_receiver() {
    let mut sender = Handshake::new(3, Role::Sender, false);
    let mut receiver = Handshake::new(3, Role::Receiver, true);
    sender.record_peer_version(3);
    receiver.record_peer_version(3);
    assert_eq!(sender.role_message(), 1);
    assert_eq!(receiver.role_message(), 0);
}

#[test]
fn one_sender_one_receiver_proceeds() {
    let mut sender = Handshake::new(3, Role::Sender, false);
    let mut receiver = Handshake::new(3, Role::Receiver, true);
    assert!(!sender.record_peer_version(receiver.version_message()));
    assert!(!receiver.record_peer_version(sender.version_message()));
    let sender_flag = sender.role_message();
    let receiver_flag = receiver.role_message();
    assert_eq!(sender.record_peer_role(receiver_flag), Ok(()));
    assert_eq!(receiver.record_peer_role(sender_flag), Ok(()));
    assert!(sender.ready());
    assert!(receiver.ready());
}

#[test]
fn both_senders_collide_before_any_file_descriptor() {
    let mut a = Handshake::new(3, Role::Sender, false);
    let mut b = Handshake::new(3, Role::Sender, true);
    a.record_peer_version(b.version_message());
    b.record_peer_version(a.version_message());
    let flag_b = b.role_message();
    assert_eq!(a.record_peer_role(flag_b), Err(TransferError::RoleCollision));
    assert_eq!(a.phase, Phase::Failed);
    assert!(!a.ready());
}

#[test]
fn both_receivers_collide_too() {
    let mut a = Handshake::new(3, Role::Receiver, true);
    let mut b = Handshake::new(3, Role::Receiver, false);
    a.record_peer_version(b.version_message());
    b.record_peer_version(a.version_message());
    let flag_b = b.role_message();
    assert_eq!(a.record_peer_role(flag_b), Err(TransferError::RoleCollision));
    assert!(!a.ready());
}

#[test]
fn version_mismatch_is_a_warning_not_an_abort() {
    let mut newer = Handshake::new(4, Role::Sender, false);
    let warn = newer.record_peer_version(3);
    assert!(warn);
    assert_eq!(newer.phase, Phase::VersionExchanged);
    assert_eq!(newer.record_peer_role(0), Ok(()));
    assert!(newer.ready());
}

#[test]
fn matching_versions_do_not_warn() {
    let mut peer = Handshake::new(3, Role::Receiver, true);
    assert!(!peer.record_peer_version(3));
}
