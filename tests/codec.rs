use multiplayer::codec::{
    decode_client_input, decode_player_command, decode_server_message, decode_snapshot,
    encode_client_input, encode_player_command, encode_server_message, encode_snapshot,
};
use multiplayer::ids::{Quat, ServerEntityId, Vec3};
use multiplayer::protocol::{
    ClientChannel, ClientInput, Delivery, NetworkedEntities, PlayerCommand, PlayerInput,
    ServerChannel, ServerMessages,
};

fn v3(x: f32, y: f32, z: f32) -> Vec3 {
    Vec3::new(x.to_bits(), y.to_bits(), z.to_bits())
}

fn q4(x: f32, y: f32, z: f32, w: f32) -> Quat {
    Quat { x: x.to_bits(), y: y.to_bits(), z: z.to_bits(), w: w.to_bits() }
}

fn all_server_messages() -> Vec<ServerMessages> {
    vec![
        ServerMessages::PlayerCreate { id: 7, entity: ServerEntityId(42), translation: v3(0.0, 2.0, 0.0) },
        ServerMessages::PlayerRemove { id: 7 },
        ServerMessages::SpawnProjectile { entity: ServerEntityId(3), translation: v3(0.5, 1.0, -0.5) },
        ServerMessages::DespawnProjectile { entity: ServerEntityId(3) },
        ServerMessages::EquipItem {
            id: 9,
            item_entity: ServerEntityId(77),
            item_name: "Pickaxe".to_string(),
            model_path: "pickaxe.glb".to_string(),
        },
        ServerMessages::UnequipItem { id: 9 },
    ]
}

#[test]
fn server_messages_round_trip() {
    for m in all_server_messages() {
        let bytes = encode_server_message(&m);
        let back = decode_server_message(&bytes).expect("decodes");
        assert_eq!(format!("{:?}", back), format!("{:?}", m));
    }
}

#[test]
fn equip_item_with_non_ascii_name_round_trips() {
    let m = ServerMessages::EquipItem {
        id: 1,
        item_entity: ServerEntityId(2),
        item_name: "Spitzhacke \u{e4}\u{1f528}".to_string(),
        model_path: String::new(),
    };
    let bytes = encode_server_message(&m);
    let back = decode_server_message(&bytes).unwrap();
    assert_eq!(format!("{:?}", back), format!("{:?}", m));
}

#[test]
fn client_inputs_round_trip() {
    let inputs = vec![
        ClientInput::Movement(PlayerInput { up: true, down: false, left: true, right: false, interact: true }),
        ClientInput::Rotation(q4(0.0, 0.7071, 0.0, 0.7071)),
        ClientInput::Position(v3(1.0, -2.0, 3.5)),
        ClientInput::Interact,
        ClientInput::EquipItem { item_entity: ServerEntityId(12) },
        ClientInput::UnequipItem,
    ];
    for i in inputs {
        let bytes = encode_client_input(&i);
        assert_eq!(decode_client_input(&bytes), Some(i));
    }
}

#[test]
fn player_command_round_trips() {
    let c = PlayerCommand::BasicAttack { cast_at: v3(5.0, 0.0, 5.0) };
    let bytes = encode_player_command(&c);
    assert_eq!(bytes.len(), 16);
    assert_eq!(decode_player_command(&bytes), Some(c));
}

fn snapshot_of(n: u64) -> NetworkedEntities {
    let mut s = NetworkedEntities::new();
    for i in 0..n {
        s.entities.push(ServerEntityId(i * 3 + 1));
        s.translations.push(v3(i as f32, 0.5, -(i as f32)));
        s.rotations.push(q4(0.0, 0.0, 0.0, 1.0));
    }
    s
}

#[test]
fn snapshots_of_zero_one_and_many_round_trip() {
    for n in [0u64, 1, 5] {
        let s = snapshot_of(n);
        let bytes = encode_snapshot(&s);
        assert_eq!(bytes.len() as u64, 24 + 36 * n);
        let back = decode_snapshot(&bytes).unwrap();
        assert_eq!(back.entities.len() as u64, n);
        assert_eq!(back.translations.len() as u64, n);
        assert_eq!(back.rotations.len() as u64, n);
        assert_eq!(back.entities, s.entities);
        assert_eq!(back.translations, s.translations);
        assert_eq!(back.rotations, s.rotations);
    }
}

#[test]
fn malformed_payloads_are_rejected() {
    assert!(decode_server_message(&[]).is_none());
    assert!(decode_server_message(&[9, 0, 0, 0, 0, 0, 0, 0, 0, 0, 0, 0]).is_none());
    let mut bytes = encode_server_message(&ServerMessages::PlayerRemove { id: 1 });
    bytes.push(0);
    assert!(decode_server_message(&bytes).is_none());
    let mut equip = encode_server_message(&ServerMessages::EquipItem {
        id: 1,
        item_entity: ServerEntityId(2),
        item_name: "ab".to_string(),
        model_path: "c".to_string(),
    });
    equip[28] = 0xff;
    assert!(decode_server_message(&equip).is_none());
    let mut movement = encode_client_input(&ClientInput::Movement(PlayerInput::default()));
    movement[5] = 2;
    assert!(decode_client_input(&movement).is_none());
    assert!(decode_player_command(&[1, 0, 0, 0, 0, 0, 0, 0, 0, 0, 0, 0, 0, 0, 0, 0]).is_none());
    let mut snap = encode_snapshot(&snapshot_of(2));
    snap.pop();
    assert!(decode_snapshot(&snap).is_none());
    assert!(decode_snapshot(&[255; 24]).is_none());
}

#[test]
fn encoding_matches_bincode_layout() {
    let create = ServerMessages::PlayerCreate { id: 7, entity: ServerEntityId(42), translation: v3(0.0, 2.0, 0.0) };
    let expected = bincode::serialize(&(0u32, 7u64, 42u64, [0.0f32, 2.0, 0.0])).unwrap();
    assert_eq!(encode_server_message(&create), expected);

    let equip = ServerMessages::EquipItem {
        id: 1,
        item_entity: ServerEntityId(2),
        item_name: "Ore Chunk".to_string(),
        model_path: "ore_chunk.glb".to_string(),
    };
    let expected = bincode::serialize(&(4u32, 1u64, 2u64, "Ore Chunk", "ore_chunk.glb")).unwrap();
    assert_eq!(encode_server_message(&equip), expected);

    let s = snapshot_of(2);
    let ids: Vec<u64> = s.entities.iter().map(|e| e.0).collect();
    let ts: Vec<[f32; 3]> = s
        .translations
        .iter()
        .map(|t| [f32::from_bits(t.x), f32::from_bits(t.y), f32::from_bits(t.z)])
        .collect();
    let rs: Vec<[f32; 4]> = s
        .rotations
        .iter()
        .map(|q| [f32::from_bits(q.x), f32::from_bits(q.y), f32::from_bits(q.z), f32::from_bits(q.w)])
        .collect();
    let expected = bincode::serialize(&(ids, ts, rs)).unwrap();
    assert_eq!(encode_snapshot(&s), expected);

    let movement = ClientInput::Movement(PlayerInput { up: true, down: false, left: false, right: true, interact: false });
    let expected = bincode::serialize(&(0u32, true, false, false, true, false)).unwrap();
    assert_eq!(encode_client_input(&movement), expected);

    let attack = PlayerCommand::BasicAttack { cast_at: v3(5.0, 0.0, 5.0) };
    let expected = bincode::serialize(&(0u32, [5.0f32, 0.0, 5.0])).unwrap();
    assert_eq!(encode_player_command(&attack), expected);
}

#[test]
fn channels_have_their_delivery_contracts() {
    assert_eq!(ServerChannel::ServerMessages.config().delivery, Delivery::ReliableOrdered);
    assert_eq!(ServerChannel::NetworkedEntities.config().delivery, Delivery::Unreliable);
    assert_eq!(ClientChannel::Command.config().delivery, Delivery::ReliableOrdered);
    assert_eq!(ClientChannel::Input.config().delivery, Delivery::Unreliable);
    assert_eq!(ClientChannel::Action.config().delivery, Delivery::ReliableOrdered);
    assert_eq!(ClientInput::Position(v3(0.0, 0.0, 0.0)).channel(), ClientChannel::Input);
    assert_eq!(ClientInput::Interact.channel(), ClientChannel::Action);
    let ids: Vec<u8> = ClientChannel::channels_config().iter().map(|c| c.channel_id).collect();
    assert_eq!(ids, vec![0, 1, 2]);
    assert_eq!(ServerChannel::channels_config().len(), 2);
}
