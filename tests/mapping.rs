use multiplayer::ids::{ClientEntityId, ReplicationError, ServerEntityId};
use multiplayer::mapping::NetworkMapping;

#[test]
fn resolve_after_register_gives_new_handle() {
    let mut m = NetworkMapping::new();
    let a = m.register(ServerEntityId(10)).unwrap();
    let b = m.register(ServerEntityId(11)).unwrap();
    assert_ne!(a, b);
    assert_eq!(m.resolve(ServerEntityId(10)), Some(a));
    assert_eq!(m.resolve(ServerEntityId(11)), Some(b));
    assert_eq!(m.len(), 2);
}

#[test]
fn resolve_after_unregister_gives_nothing() {
    let mut m = NetworkMapping::new();
    let a = m.register(ServerEntityId(3)).unwrap();
    assert_eq!(m.unregister(ServerEntityId(3)), Some(a));
    assert_eq!(m.resolve(ServerEntityId(3)), None);
    assert_eq!(m.len(), 0);
}

#[test]
fn other_keys_do_not_disturb_an_entry() {
    let mut m = NetworkMapping::new();
    let a = m.register(ServerEntityId(1)).unwrap();
    let _b = m.register(ServerEntityId(2)).unwrap();
    m.unregister(ServerEntityId(2));
    let _c = m.register(ServerEntityId(3)).unwrap();
    assert_eq!(m.resolve(ServerEntityId(1)), Some(a));
}

#[test]
fn unregister_twice_is_unregister_once() {
    let mut m = NetworkMapping::new();
    let a = m.register(ServerEntityId(5)).unwrap();
    let _b = m.register(ServerEntityId(6)).unwrap();
    assert_eq!(m.unregister(ServerEntityId(5)), Some(a));
    assert_eq!(m.unregister(ServerEntityId(5)), None);
    assert_eq!(m.len(), 1);
    assert_eq!(m.resolve(ServerEntityId(5)), None);
}

#[test]
fn duplicate_registration_is_refused() {
    let mut m = NetworkMapping::new();
    let a = m.register(ServerEntityId(9)).unwrap();
    assert_eq!(m.register(ServerEntityId(9)), Err(ReplicationError::DuplicateRegistration));
    assert_eq!(m.resolve(ServerEntityId(9)), Some(a));
    assert_eq!(m.len(), 1);
}

#[test]
fn handles_are_not_reused_after_unregister() {
    let mut m = NetworkMapping::new();
    let a = m.register(ServerEntityId(1)).unwrap();
    m.unregister(ServerEntityId(1));
    let b = m.register(ServerEntityId(1)).unwrap();
    assert_ne!(a, b);
    assert_eq!(a, ClientEntityId(0));
    assert_eq!(b, ClientEntityId(1));
}
