use multiplayer::client::{ClientEvent, ClientState, LocalKind};
use multiplayer::codec::{encode_server_message, encode_snapshot};
use multiplayer::ids::{ClientEntityId, Quat, ReplicationError, ServerEntityId, Vec3};
use multiplayer::protocol::{NetworkedEntities, ServerMessages};

fn v3(x: f32, y: f32, z: f32) -> Vec3 {
    Vec3::new(x.to_bits(), y.to_bits(), z.to_bits())
}

fn q4(x: f32, y: f32, z: f32, w: f32) -> Quat {
    Quat { x: x.to_bits(), y: y.to_bits(), z: z.to_bits(), w: w.to_bits() }
}

fn spawned(r: Result<ClientEvent, ReplicationError>) -> ClientEntityId {
    match r {
        Ok(ClientEvent::Spawned { handle }) => handle,
        other => panic!("expected a spawn, got {:?}", other),
    }
}

#[test]
fn own_player_create_then_remove() {
    let mut c = ClientState::new(7);
    let e1 = ServerEntityId(100);
    let h = spawned(c.apply_server_message(ServerMessages::PlayerCreate {
        id: 7,
        entity: e1,
        translation: v3(0.0, 2.0, 0.0),
    }));
    assert_eq!(c.resolve(e1), Some(h));
    let avatar = c.entity(h).unwrap();
    assert_eq!(avatar.kind, LocalKind::Player { id: 7, controlled: true });
    assert_eq!(avatar.translation, v3(0.0, 2.0, 0.0));
    assert_eq!(c.player(7).unwrap().client_entity, h);

    let r = c.apply_server_message(ServerMessages::PlayerRemove { id: 7 });
    assert_eq!(r, Ok(ClientEvent::Despawned { handle: h }));
    assert_eq!(c.resolve(e1), None);
    assert!(c.entity(h).is_none());
    assert!(c.player(7).is_none());
}

#[test]
fn remote_player_is_passive() {
    let mut c = ClientState::new(7);
    let h = spawned(c.on_player_create(8, ServerEntityId(5), v3(1.0, 0.0, 1.0)));
    assert_eq!(c.entity(h).unwrap().kind, LocalKind::Player { id: 8, controlled: false });
}

#[test]
fn double_removal_is_harmless() {
    let mut c = ClientState::new(1);
    spawned(c.on_player_create(2, ServerEntityId(20), v3(0.0, 0.0, 0.0)));
    assert!(matches!(c.on_player_remove(2), ClientEvent::Despawned { .. }));
    assert_eq!(c.on_player_remove(2), ClientEvent::Ignored);
    assert_eq!(c.on_despawn_projectile(ServerEntityId(20)), ClientEvent::Ignored);
    assert_eq!(c.mapped_count(), 0);
}

#[test]
fn two_spawns_one_despawn_leaves_the_second() {
    let mut c = ClientState::new(1);
    let a = ServerEntityId(30);
    let b = ServerEntityId(31);
    let ha = spawned(c.apply_server_message(ServerMessages::SpawnProjectile { entity: a, translation: v3(0.0, 1.0, 0.0) }));
    let hb = spawned(c.apply_server_message(ServerMessages::SpawnProjectile { entity: b, translation: v3(1.0, 1.0, 0.0) }));
    assert_eq!(
        c.apply_server_message(ServerMessages::DespawnProjectile { entity: a }),
        Ok(ClientEvent::Despawned { handle: ha })
    );
    assert_eq!(c.mapped_count(), 1);
    assert_eq!(c.resolve(a), None);
    assert_eq!(c.resolve(b), Some(hb));
    assert!(c.entity(ha).is_none());
    assert_eq!(c.entity(hb).unwrap().kind, LocalKind::Projectile);
}

#[test]
fn snapshot_with_unknown_entity_creates_nothing() {
    let mut c = ClientState::new(1);
    let known = ServerEntityId(40);
    let h = spawned(c.on_spawn_projectile(known, v3(0.0, 0.0, 0.0)));
    let mut s = NetworkedEntities::new();
    s.entities.push(ServerEntityId(999));
    s.translations.push(v3(9.0, 9.0, 9.0));
    s.rotations.push(q4(0.0, 0.0, 0.0, 1.0));
    s.entities.push(known);
    s.translations.push(v3(3.0, 1.0, 2.0));
    s.rotations.push(q4(0.0, 1.0, 0.0, 0.0));
    c.apply_snapshot(&s);
    assert_eq!(c.mapped_count(), 1);
    assert_eq!(c.resolve(ServerEntityId(999)), None);
    let e = c.entity(h).unwrap();
    assert_eq!(e.translation, v3(3.0, 1.0, 2.0));
    assert_eq!(e.rotation, q4(0.0, 1.0, 0.0, 0.0));
    assert!(c.entity(ClientEntityId(1)).is_none());
}

#[test]
fn snapshot_never_moves_the_controlled_avatar() {
    let mut c = ClientState::new(7);
    let own = ServerEntityId(1);
    let other = ServerEntityId(2);
    let h_own = spawned(c.on_player_create(7, own, v3(0.0, 2.0, 0.0)));
    let h_other = spawned(c.on_player_create(8, other, v3(0.0, 2.0, 0.0)));
    let mut s = NetworkedEntities::new();
    for (e, x) in [(own, 5.0f32), (other, 6.0f32)] {
        s.entities.push(e);
        s.translations.push(v3(x, 0.0, 0.0));
        s.rotations.push(q4(0.0, 0.0, 1.0, 0.0));
    }
    c.apply_snapshot(&s);
    let a = c.entity(h_own).unwrap();
    assert_eq!(a.translation, v3(0.0, 2.0, 0.0));
    assert_eq!(a.rotation, q4(0.0, 0.0, 0.0, 1.0));
    assert_eq!(c.entity(h_other).unwrap().translation, v3(6.0, 0.0, 0.0));
}

#[test]
fn last_snapshot_entry_wins() {
    let mut c = ClientState::new(1);
    let e = ServerEntityId(3);
    let h = spawned(c.on_spawn_projectile(e, v3(0.0, 0.0, 0.0)));
    let mut s = NetworkedEntities::new();
    for x in [1.0f32, 2.0f32] {
        s.entities.push(e);
        s.translations.push(v3(x, 0.0, 0.0));
        s.rotations.push(q4(0.0, 0.0, 0.0, 1.0));
    }
    assert!(c.apply_snapshot_payload(&encode_snapshot(&s)));
    assert_eq!(c.entity(h).unwrap().translation, v3(2.0, 0.0, 0.0));
}

#[test]
fn duplicate_create_is_an_error() {
    let mut c = ClientState::new(1);
    spawned(c.on_spawn_projectile(ServerEntityId(4), v3(0.0, 0.0, 0.0)));
    assert_eq!(
        c.on_spawn_projectile(ServerEntityId(4), v3(0.0, 0.0, 0.0)),
        Err(ReplicationError::DuplicateRegistration)
    );
    spawned(c.on_player_create(2, ServerEntityId(5), v3(0.0, 0.0, 0.0)));
    assert_eq!(
        c.on_player_create(2, ServerEntityId(6), v3(0.0, 0.0, 0.0)),
        Err(ReplicationError::DuplicatePlayer)
    );
    assert_eq!(c.mapped_count(), 2);
}

#[test]
fn equip_and_unequip_toggle_the_item() {
    let mut c = ClientState::new(1);
    let player = spawned(c.on_player_create(2, ServerEntityId(10), v3(0.0, 0.0, 0.0)));
    let item = spawned(c.on_spawn_projectile(ServerEntityId(11), v3(1.0, 0.0, 0.0)));
    let r = c.on_equip_item(2, ServerEntityId(11), "Pickaxe".to_string(), "pickaxe.glb".to_string());
    assert_eq!(r, ClientEvent::HeldItemChanged { handle: player });
    let held = c.entity(player).unwrap().held.as_ref().unwrap();
    assert_eq!(held.name, "Pickaxe");
    assert_eq!(held.model_path, "pickaxe.glb");
    assert!(!c.entity(item).unwrap().visible);
    assert_eq!(c.on_unequip_item(2), ClientEvent::HeldItemChanged { handle: player });
    assert!(c.entity(player).unwrap().held.is_none());
    assert!(c.entity(item).unwrap().visible);
    assert_eq!(c.on_unequip_item(99), ClientEvent::Ignored);
}

#[test]
fn malformed_event_payload_is_dropped() {
    let mut c = ClientState::new(1);
    assert_eq!(c.apply_server_payload(&[1, 2, 3]), Ok(ClientEvent::Ignored));
    assert!(!c.apply_snapshot_payload(&[0; 5]));
    let bytes = encode_server_message(&ServerMessages::SpawnProjectile { entity: ServerEntityId(8), translation: v3(0.0, 0.0, 0.0) });
    assert!(matches!(c.apply_server_payload(&bytes), Ok(ClientEvent::Spawned { .. })));
    assert_eq!(c.mapped_count(), 1);
}

#[test]
fn despawning_a_players_identity_clears_its_lobby_entry() {
    let mut c = ClientState::new(1);
    let h = spawned(c.on_player_create(2, ServerEntityId(50), v3(0.0, 0.0, 0.0)));
    assert_eq!(c.on_despawn_projectile(ServerEntityId(50)), ClientEvent::Despawned { handle: h });
    assert!(c.player(2).is_none());
    assert!(c.entity(h).is_none());
    spawned(c.on_player_create(2, ServerEntityId(51), v3(0.0, 0.0, 0.0)));
    assert_eq!(c.player(2).unwrap().server_entity, ServerEntityId(51));
}
