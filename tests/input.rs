use multiplayer::ids::{Quat, ServerEntityId, Vec3};
use multiplayer::input::{Equipment, InputSender};
use multiplayer::protocol::{ClientInput, PlayerInput};

#[test]
fn rotation_reports_are_limited_to_twenty_per_second() {
    let mut s = InputSender::new();
    let q = Quat { x: 0, y: 0, z: 0, w: 1.0f32.to_bits() };
    assert_eq!(s.rotation_report(40, q, true, true), None);
    assert_eq!(s.rotation_report(60, q, true, true), Some(ClientInput::Rotation(q)));
    assert_eq!(s.rotation_report(100, q, true, true), None);
    assert_eq!(s.rotation_report(111, q, true, true), Some(ClientInput::Rotation(q)));
    assert_eq!(s.rotation_report(500, q, false, true), None);
    assert_eq!(s.rotation_report(500, q, true, false), None);
}

#[test]
fn position_and_interact_reports_follow_their_limits() {
    let mut s = InputSender::new();
    let p = Vec3::new(1.0f32.to_bits(), 0, 0);
    assert_eq!(s.position_report(51, p, true, true), Some(ClientInput::Position(p)));
    assert_eq!(s.position_report(90, p, true, true), None);
    assert_eq!(s.interact_report(400, true), None);
    assert_eq!(s.interact_report(501, true), Some(ClientInput::Interact));
    assert_eq!(s.interact_report(900, true), None);
    assert_eq!(s.interact_report(2000, false), None);
}

#[test]
fn movement_reports_are_limited_to_twenty_per_second() {
    let mut s = InputSender::new();
    let keys = PlayerInput { up: true, down: false, left: false, right: false, interact: false };
    assert_eq!(s.movement_report(50, keys, true), None);
    assert_eq!(s.movement_report(51, keys, true), Some(ClientInput::Movement(keys)));
    assert_eq!(s.movement_report(52, keys, true), None);
    assert_eq!(s.movement_report(101, keys, true), None);
    assert_eq!(s.movement_report(102, keys, true), Some(ClientInput::Movement(keys)));
    assert_eq!(s.movement_report(500, keys, false), None);
    assert_eq!(s.movement_report(501, keys, true), Some(ClientInput::Movement(keys)));
}

#[test]
fn equip_key_takes_then_lets_go() {
    let mut e = Equipment::new();
    let item = ServerEntityId(42);
    assert_eq!(e.toggle(100, true, Some(item), true), None);
    assert_eq!(e.toggle(600, true, Some(item), true), Some(ClientInput::EquipItem { item_entity: item }));
    assert_eq!(e.equipped, Some(item));
    assert_eq!(e.toggle(800, true, Some(item), true), None);
    assert_eq!(e.toggle(1200, true, None, true), Some(ClientInput::UnequipItem));
    assert_eq!(e.equipped, None);
    assert_eq!(e.toggle(1800, true, None, true), None);
    assert_eq!(e.toggle(2400, false, Some(item), true), None);
    assert_eq!(e.toggle(2400, true, Some(item), false), None);
    assert_eq!(e.equipped, Some(item));
}
