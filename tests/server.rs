use multiplayer::ids::{PlayerId, ReplicationError, ServerEntityId, Vec3};
use multiplayer::protocol::{ClientInput, PlayerInput, ServerMessages};
use multiplayer::server::{BotId, Recipient, ServerEntityKind, ServerState};
use multiplayer::timing::{RateLimiter, RepeatingTimer};

fn v3(x: f32, y: f32, z: f32) -> Vec3 {
    Vec3::new(x.to_bits(), y.to_bits(), z.to_bits())
}

fn created(m: &ServerMessages) -> (PlayerId, ServerEntityId, Vec3) {
    match m {
        ServerMessages::PlayerCreate { id, entity, translation } => (*id, *entity, *translation),
        other => panic!("expected PlayerCreate, got {:?}", other),
    }
}

#[test]
fn connection_gets_catch_up_then_own_creation() {
    let mut s = ServerState::new();
    let first = s.client_connected(1).unwrap();
    assert_eq!(first.len(), 1);
    assert_eq!(first[0].to, Recipient::All);
    let (id, e1, t) = created(&first[0].message);
    assert_eq!((id, t), (1, v3(0.0, 2.0, 0.0)));

    let second = s.client_connected(2).unwrap();
    assert_eq!(second.len(), 2);
    assert_eq!(second[0].to, Recipient::One(2));
    assert_eq!(created(&second[0].message), (1, e1, v3(0.0, 2.0, 0.0)));
    assert_eq!(second[1].to, Recipient::All);
    let (id2, e2, _) = created(&second[1].message);
    assert_eq!(id2, 2);
    assert_ne!(e1, e2);
    assert_eq!(s.client_connected(2).unwrap_err(), ReplicationError::DuplicatePlayer);
    assert_eq!(s.entity_count(), 2);
}

#[test]
fn disconnection_removes_avatar_and_broadcasts() {
    let mut s = ServerState::new();
    s.client_connected(1).unwrap();
    s.client_connected(2).unwrap();
    let out = s.client_disconnected(1);
    assert_eq!(out.to, Recipient::All);
    assert!(matches!(out.message, ServerMessages::PlayerRemove { id: 1 }));
    assert!(s.player_entity(1).is_none());
    assert!(s.player_entity(2).is_some());
    assert_eq!(s.entity_count(), 1);
}

#[test]
fn basic_attack_spawns_one_projectile_toward_target() {
    let mut s = ServerState::new();
    s.client_connected(3).unwrap();
    assert!(s.apply_input(3, ClientInput::Position(v3(0.0, 0.0, 0.0))));
    let p = s.player_entity(3).unwrap().translation;
    let pos = [f32::from_bits(p.x), f32::from_bits(p.y), f32::from_bits(p.z)];
    let cast_at = [5.0f32, pos[1], 5.0];
    let d = [cast_at[0] - pos[0], cast_at[1] - pos[1], cast_at[2] - pos[2]];
    let len = (d[0] * d[0] + d[1] * d[1] + d[2] * d[2]).sqrt();
    let dir = [d[0] / len, d[1] / len, d[2] / len];
    let origin = v3(pos[0] + dir[0] * 0.7, 1.0, pos[2] + dir[2] * 0.7);
    let before = s.entity_count();
    let out = s.basic_attack(3, origin).unwrap().expect("one projectile");
    assert_eq!(out.to, Recipient::All);
    match out.message {
        ServerMessages::SpawnProjectile { translation, .. } => {
            assert_eq!(translation, origin);
            let x = f32::from_bits(translation.x);
            assert!((x - 0.7 * std::f32::consts::FRAC_1_SQRT_2).abs() < 1e-6);
            assert_eq!(f32::from_bits(translation.y), 1.0);
        },
        other => panic!("expected SpawnProjectile, got {:?}", other),
    }
    assert_eq!(s.entity_count(), before + 1);
    assert!(s.basic_attack(99, origin).unwrap().is_none());
    assert_eq!(s.entity_count(), before + 1);
}

#[test]
fn projectiles_expire_and_are_announced() {
    let mut s = ServerState::new();
    s.client_connected(1).unwrap();
    let a = s.spawn_projectile(v3(0.0, 1.0, 0.0)).unwrap();
    let id = match a.message {
        ServerMessages::SpawnProjectile { entity, .. } => entity,
        _ => panic!(),
    };
    assert!(s.advance_projectiles(1000).is_empty());
    assert_eq!(s.entity_count(), 2);
    let out = s.advance_projectiles(500);
    assert_eq!(out.len(), 1);
    assert!(matches!(out[0].message, ServerMessages::DespawnProjectile { entity } if entity == id));
    assert_eq!(s.entity_count(), 1);
    assert!(matches!(s.entity_at(0).kind, ServerEntityKind::Player { id: 1, .. }));
}

#[test]
fn inputs_update_the_avatar() {
    let mut s = ServerState::new();
    s.client_connected(4).unwrap();
    let keys = PlayerInput { up: true, down: false, left: false, right: true, interact: false };
    assert!(s.apply_input(4, ClientInput::Movement(keys)));
    assert!(s.apply_input(4, ClientInput::Position(v3(3.0, 0.0, 1.0))));
    let e = s.player_entity(4).unwrap();
    assert_eq!(e.kind, ServerEntityKind::Player { id: 4, input: keys });
    assert_eq!(e.translation, v3(3.0, 0.0, 1.0));
    assert!(!s.apply_input(5, ClientInput::Interact));
    assert!(!s.receive_input_payload(4, &[7, 7]));
}

#[test]
fn snapshots_follow_the_timer_and_skip_empty_worlds() {
    let mut s = ServerState::new();
    assert!(s.snapshot().is_none());
    assert!(s.sync_tick(100).is_none());
    s.client_connected(1).unwrap();
    assert!(s.sync_tick(60).is_none());
    let snap = s.sync_tick(60).expect("period elapsed");
    assert_eq!(snap.entities.len(), 1);
    assert_eq!(snap.translations[0], v3(0.0, 2.0, 0.0));
    assert!(s.sync_tick(60).is_none());
}

#[test]
fn bots_take_consecutive_identities() {
    let mut s = ServerState::new();
    let mut bots = BotId(0);
    let out = s.spawn_bot(&mut bots, v3(1.0, 0.51, -1.0)).unwrap();
    assert_eq!(created(&out.message).0, 0);
    assert_eq!(bots, BotId(1));
    s.spawn_bot(&mut bots, v3(2.0, 0.51, -2.0)).unwrap();
    assert_eq!(bots, BotId(2));
    assert_eq!(s.client_connected(1).unwrap_err(), ReplicationError::DuplicatePlayer);
}

#[test]
fn repeating_timer_wraps() {
    let mut t = RepeatingTimer::new(100);
    assert!(!t.tick(99));
    assert!(t.tick(1));
    assert!(t.tick(250));
    assert!(!t.tick(49));
    assert!(t.tick(1));
}

#[test]
fn rate_limiter_spaces_sends() {
    let mut r = RateLimiter::new(50);
    assert!(!r.try_acquire(50));
    assert!(r.try_acquire(51));
    assert!(!r.try_acquire(100));
    assert!(r.try_acquire(102));
}

#[test]
fn catch_up_announces_live_projectiles_too() {
    let mut s = ServerState::new();
    s.client_connected(1).unwrap();
    s.spawn_projectile(v3(1.0, 1.0, 1.0)).unwrap();
    let out = s.client_connected(2).unwrap();
    assert_eq!(out.len(), 3);
    assert_eq!(out[1].to, Recipient::One(2));
    assert!(matches!(out[1].message, ServerMessages::SpawnProjectile { translation, .. } if translation == v3(1.0, 1.0, 1.0)));
    assert_eq!(out[2].to, Recipient::All);
}

#[test]
fn equip_requests_are_granted_once() {
    let mut s = ServerState::new();
    s.client_connected(1).unwrap();
    s.client_connected(2).unwrap();
    let item = ServerEntityId(500);
    s.add_item(item, "Pickaxe".to_string(), "pickaxe.glb".to_string());
    let out = s.request_equip(1, item).expect("granted");
    match out.message {
        ServerMessages::EquipItem { id, item_entity, item_name, model_path } => {
            assert_eq!((id, item_entity), (1, item));
            assert_eq!(item_name, "Pickaxe");
            assert_eq!(model_path, "pickaxe.glb");
        },
        other => panic!("expected EquipItem, got {:?}", other),
    }
    assert!(s.request_equip(2, item).is_none());
    assert!(s.request_equip(1, ServerEntityId(501)).is_none());
    assert!(s.request_unequip(2).is_none());
    let out = s.request_unequip(1).expect("released");
    assert!(matches!(out.message, ServerMessages::UnequipItem { id: 1 }));
    assert!(s.request_equip(2, item).is_some());
}

#[test]
fn exhausted_bot_identities_are_refused() {
    let mut s = ServerState::new();
    let mut bots = BotId(u64::MAX);
    assert_eq!(
        s.spawn_bot(&mut bots, v3(0.0, 0.51, 0.0)).unwrap_err(),
        ReplicationError::HandleSpaceExhausted
    );
    assert_eq!(bots, BotId(u64::MAX));
    assert_eq!(s.entity_count(), 0);
}

#[test]
fn projectiles_can_be_despawned_for_any_reason() {
    let mut s = ServerState::new();
    s.client_connected(1).unwrap();
    let out = s.spawn_projectile(v3(0.0, 1.0, 0.0)).unwrap();
    let id = match out.message {
        ServerMessages::SpawnProjectile { entity, .. } => entity,
        _ => panic!(),
    };
    let avatar = s.player_entity(1).unwrap().id;
    assert!(s.despawn_projectile(avatar).is_none());
    let gone = s.despawn_projectile(id).expect("announced");
    assert_eq!(gone.to, Recipient::All);
    assert!(matches!(gone.message, ServerMessages::DespawnProjectile { entity } if entity == id));
    assert!(s.despawn_projectile(id).is_none());
    assert_eq!(s.entity_count(), 1);
    assert!(s.advance_projectiles(5000).is_empty());
}

#[test]
fn snapshot_ids_are_distinct() {
    let mut s = ServerState::new();
    s.client_connected(1).unwrap();
    s.client_connected(2).unwrap();
    s.spawn_projectile(v3(0.0, 1.0, 0.0)).unwrap();
    let snap = s.snapshot().unwrap();
    assert_eq!(snap.entities.len(), 3);
    for i in 0..3 {
        for j in 0..i {
            assert_ne!(snap.entities[i], snap.entities[j]);
        }
    }
}
