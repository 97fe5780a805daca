//! Decoding is the inverse of encoding, for every message kind.
use vstd::prelude::*;

use crate::codec::{
    bool_byte, client_input_tag, enc_quat, enc_vec3, encode_client_input_spec,
    encode_player_command_spec, encode_server_message_spec, encode_snapshot_spec, enc_ids,
    enc_quats, enc_vec3s, equip_model_bytes, equip_name_bytes, lemma_client_input_frame,
    lemma_enc_ids_len, lemma_enc_quats_len, lemma_enc_vec3s_len, lemma_server_message_frame,
    server_message_tag,
};
use crate::ids::{Quat, ServerEntityId, Vec3};
use crate::protocol::{ClientInput, NetworkedEntitiesView, PlayerCommand, ServerMessagesView};
use crate::wire::{le32, le64, lemma_le32_injective, lemma_le64_injective};
use vstd::utf8::{encode_utf8, encode_utf8_decode_utf8};

verus! {

/// The client input that `b` encodes, if any.
pub open spec fn decode_client_input_spec(b: Seq<u8>) -> Option<ClientInput> {
    if exists|m: ClientInput| encode_client_input_spec(m) == b {
        Some(choose|m: ClientInput| encode_client_input_spec(m) == b)
    } else {
        None
    }
}

/// The player command that `b` encodes, if any.
pub open spec fn decode_player_command_spec(b: Seq<u8>) -> Option<PlayerCommand> {
    if exists|m: PlayerCommand| encode_player_command_spec(m) == b {
        Some(choose|m: PlayerCommand| encode_player_command_spec(m) == b)
    } else {
        None
    }
}

/// Every length in the message fits the 64-bit length prefix.
pub open spec fn server_message_fits(m: ServerMessagesView) -> bool {
    equip_name_bytes(m).len() <= u64::MAX && equip_model_bytes(m).len() <= u64::MAX
}

/// The server event that `b` encodes, if any.
pub open spec fn decode_server_message_spec(b: Seq<u8>) -> Option<ServerMessagesView> {
    if exists|m: ServerMessagesView| server_message_fits(m) && encode_server_message_spec(m) == b {
        Some(
            choose|m: ServerMessagesView|
                server_message_fits(m) && encode_server_message_spec(m) == b,
        )
    } else {
        None
    }
}

/// Every array length in the snapshot fits the 64-bit length prefix.
pub open spec fn snapshot_fits(m: NetworkedEntitiesView) -> bool {
    m.entities.len() <= u64::MAX && m.translations.len() <= u64::MAX && m.rotations.len()
        <= u64::MAX
}

/// The snapshot that `b` encodes, if any.
pub open spec fn decode_snapshot_spec(b: Seq<u8>) -> Option<NetworkedEntitiesView> {
    if exists|m: NetworkedEntitiesView| snapshot_fits(m) && encode_snapshot_spec(m) == b {
        Some(choose|m: NetworkedEntitiesView| snapshot_fits(m) && encode_snapshot_spec(m) == b)
    } else {
        None
    }
}

proof fn lemma_vec3_injective(a: Vec3, b: Vec3)
    requires
        enc_vec3(a) == enc_vec3(b),
    ensures
        a == b,
{
    let e = enc_vec3(a);
    let f = enc_vec3(b);
    assert(e.subrange(0, 4) =~= le32(a.x) && f.subrange(0, 4) =~= le32(b.x));
    assert(e.subrange(4, 8) =~= le32(a.y) && f.subrange(4, 8) =~= le32(b.y));
    assert(e.subrange(8, 12) =~= le32(a.z) && f.subrange(8, 12) =~= le32(b.z));
    lemma_le32_injective(a.x, b.x);
    lemma_le32_injective(a.y, b.y);
    lemma_le32_injective(a.z, b.z);
}

proof fn lemma_quat_injective(a: Quat, b: Quat)
    requires
        enc_quat(a) == enc_quat(b),
    ensures
        a == b,
{
    let e = enc_quat(a);
    let f = enc_quat(b);
    assert(e.subrange(0, 4) =~= le32(a.x) && f.subrange(0, 4) =~= le32(b.x));
    assert(e.subrange(4, 8) =~= le32(a.y) && f.subrange(4, 8) =~= le32(b.y));
    assert(e.subrange(8, 12) =~= le32(a.z) && f.subrange(8, 12) =~= le32(b.z));
    assert(e.subrange(12, 16) =~= le32(a.w) && f.subrange(12, 16) =~= le32(b.w));
    lemma_le32_injective(a.x, b.x);
    lemma_le32_injective(a.y, b.y);
    lemma_le32_injective(a.z, b.z);
    lemma_le32_injective(a.w, b.w);
}

/// Distinct client inputs have distinct encodings.
pub proof fn lemma_client_input_injective(m1: ClientInput, m2: ClientInput)
    requires
        encode_client_input_spec(m1) == encode_client_input_spec(m2),
    ensures
        m1 == m2,
{
    let e = encode_client_input_spec(m1);
    lemma_client_input_frame(m1);
    lemma_client_input_frame(m2);
    lemma_le32_injective(client_input_tag(m1), client_input_tag(m2));
    match (m1, m2) {
        (ClientInput::Movement(a), ClientInput::Movement(b)) => {
            assert(e[4] == bool_byte(a.up) && e[4] == bool_byte(b.up));
            assert(e[5] == bool_byte(a.down) && e[5] == bool_byte(b.down));
            assert(e[6] == bool_byte(a.left) && e[6] == bool_byte(b.left));
            assert(e[7] == bool_byte(a.right) && e[7] == bool_byte(b.right));
            assert(e[8] == bool_byte(a.interact) && e[8] == bool_byte(b.interact));
        },
        (ClientInput::Rotation(a), ClientInput::Rotation(b)) => {
            assert(e.subrange(4, 20) =~= enc_quat(a));
            assert(encode_client_input_spec(m2).subrange(4, 20) =~= enc_quat(b));
            lemma_quat_injective(a, b);
        },
        (ClientInput::Position(a), ClientInput::Position(b)) => {
            assert(e.subrange(4, 16) =~= enc_vec3(a));
            assert(encode_client_input_spec(m2).subrange(4, 16) =~= enc_vec3(b));
            lemma_vec3_injective(a, b);
        },
        (ClientInput::EquipItem { item_entity: a }, ClientInput::EquipItem { item_entity: b }) => {
            assert(e.subrange(4, 12) =~= le64(a.0));
            assert(encode_client_input_spec(m2).subrange(4, 12) =~= le64(b.0));
            lemma_le64_injective(a.0, b.0);
        },
        _ => {},
    }
}

/// Decoding the encoding of a client input gives back that input.
pub proof fn lemma_client_input_round_trip(m: ClientInput)
    ensures
        decode_client_input_spec(encode_client_input_spec(m)) == Some(m),
{
    let b = encode_client_input_spec(m);
    let c = choose|x: ClientInput| encode_client_input_spec(x) == b;
    lemma_client_input_injective(c, m);
}

/// Distinct player commands have distinct encodings.
pub proof fn lemma_player_command_injective(m1: PlayerCommand, m2: PlayerCommand)
    requires
        encode_player_command_spec(m1) == encode_player_command_spec(m2),
    ensures
        m1 == m2,
{
    let PlayerCommand::BasicAttack { cast_at: a } = m1;
    let PlayerCommand::BasicAttack { cast_at: b } = m2;
    assert(encode_player_command_spec(m1).subrange(4, 16) =~= enc_vec3(a));
    assert(encode_player_command_spec(m2).subrange(4, 16) =~= enc_vec3(b));
    lemma_vec3_injective(a, b);
}

/// Decoding the encoding of a player command gives back that command.
pub proof fn lemma_player_command_round_trip(m: PlayerCommand)
    ensures
        decode_player_command_spec(encode_player_command_spec(m)) == Some(m),
{
    let b = encode_player_command_spec(m);
    let c = choose|x: PlayerCommand| encode_player_command_spec(x) == b;
    lemma_player_command_injective(c, m);
}

proof fn lemma_utf8_injective(s1: Seq<char>, s2: Seq<char>)
    requires
        encode_utf8(s1) == encode_utf8(s2),
    ensures
        s1 == s2,
{
    encode_utf8_decode_utf8(s1);
    encode_utf8_decode_utf8(s2);
}

proof fn lemma_two_framed_strings(
    p1: Seq<u8>,
    u1: Seq<u8>,
    v1: Seq<u8>,
    p2: Seq<u8>,
    u2: Seq<u8>,
    v2: Seq<u8>,
)
    requires
        p1.len() == p2.len(),
        u1.len() <= u64::MAX,
        u2.len() <= u64::MAX,
        v1.len() <= u64::MAX,
        v2.len() <= u64::MAX,
        p1 + (le64(u1.len() as u64) + u1) + (le64(v1.len() as u64) + v1) == p2 + (le64(
            u2.len() as u64,
        ) + u2) + (le64(v2.len() as u64) + v2),
    ensures
        p1 == p2,
        u1 == u2,
        v1 == v2,
{
    let e = p1 + (le64(u1.len() as u64) + u1) + (le64(v1.len() as u64) + v1);
    let f = p2 + (le64(u2.len() as u64) + u2) + (le64(v2.len() as u64) + v2);
    let k = p1.len() as int;
    assert(e.subrange(0, k) =~= p1 && f.subrange(0, k) =~= p2);
    assert(e.subrange(k, k + 8) =~= le64(u1.len() as u64));
    assert(f.subrange(k, k + 8) =~= le64(u2.len() as u64));
    lemma_le64_injective(u1.len() as u64, u2.len() as u64);
    let l = u1.len() as int;
    assert(e.subrange(k + 8, k + 8 + l) =~= u1 && f.subrange(k + 8, k + 8 + l) =~= u2);
    assert(e.subrange(k + 8 + l, k + 16 + l) =~= le64(v1.len() as u64));
    assert(f.subrange(k + 8 + l, k + 16 + l) =~= le64(v2.len() as u64));
    lemma_le64_injective(v1.len() as u64, v2.len() as u64);
    assert(e.subrange(k + 16 + l, e.len() as int) =~= v1);
    assert(f.subrange(k + 16 + l, f.len() as int) =~= v2);
}

proof fn lemma_equip_item_injective(m1: ServerMessagesView, m2: ServerMessagesView)
    requires
        m1 is EquipItem,
        m2 is EquipItem,
        server_message_fits(m1),
        server_message_fits(m2),
        encode_server_message_spec(m1) == encode_server_message_spec(m2),
    ensures
        m1 == m2,
{
    match (m1, m2) {
        (
            ServerMessagesView::EquipItem { id: i1, item_entity: n1, item_name: a1, model_path: b1 },
            ServerMessagesView::EquipItem { id: i2, item_entity: n2, item_name: a2, model_path: b2 },
        ) => {
            let p1 = le32(4) + le64(i1) + le64(n1.0);
            let p2 = le32(4) + le64(i2) + le64(n2.0);
            let u1 = encode_utf8(a1);
            let u2 = encode_utf8(a2);
            let v1 = encode_utf8(b1);
            let v2 = encode_utf8(b2);
            assert(encode_server_message_spec(m1) =~= p1 + (le64(u1.len() as u64) + u1) + (le64(
                v1.len() as u64,
            ) + v1));
            assert(encode_server_message_spec(m2) =~= p2 + (le64(u2.len() as u64) + u2) + (le64(
                v2.len() as u64,
            ) + v2));
            lemma_two_framed_strings(p1, u1, v1, p2, u2, v2);
            assert(p1.subrange(4, 12) =~= le64(i1) && p2.subrange(4, 12) =~= le64(i2));
            assert(p1.subrange(12, 20) =~= le64(n1.0) && p2.subrange(12, 20) =~= le64(n2.0));
            lemma_le64_injective(i1, i2);
            lemma_le64_injective(n1.0, n2.0);
            lemma_utf8_injective(a1, a2);
            lemma_utf8_injective(b1, b2);
        },
        _ => {},
    }
}

/// Distinct server events whose lengths fit have distinct encodings.
pub proof fn lemma_server_message_injective(m1: ServerMessagesView, m2: ServerMessagesView)
    requires
        server_message_fits(m1),
        server_message_fits(m2),
        encode_server_message_spec(m1) == encode_server_message_spec(m2),
    ensures
        m1 == m2,
{
    let e = encode_server_message_spec(m1);
    let f = encode_server_message_spec(m2);
    lemma_server_message_frame(m1);
    lemma_server_message_frame(m2);
    lemma_le32_injective(server_message_tag(m1), server_message_tag(m2));
    match (m1, m2) {
        (
            ServerMessagesView::PlayerCreate { id: i1, entity: n1, translation: t1 },
            ServerMessagesView::PlayerCreate { id: i2, entity: n2, translation: t2 },
        ) => {
            assert(e.subrange(4, 12) =~= le64(i1) && f.subrange(4, 12) =~= le64(i2));
            assert(e.subrange(12, 20) =~= le64(n1.0) && f.subrange(12, 20) =~= le64(n2.0));
            assert(e.subrange(20, 32) =~= enc_vec3(t1) && f.subrange(20, 32) =~= enc_vec3(t2));
            lemma_le64_injective(i1, i2);
            lemma_le64_injective(n1.0, n2.0);
            lemma_vec3_injective(t1, t2);
        },
        (ServerMessagesView::PlayerRemove { id: i1 }, ServerMessagesView::PlayerRemove { id: i2 }) => {
            assert(e.subrange(4, 12) =~= le64(i1) && f.subrange(4, 12) =~= le64(i2));
            lemma_le64_injective(i1, i2);
        },
        (
            ServerMessagesView::SpawnProjectile { entity: n1, translation: t1 },
            ServerMessagesView::SpawnProjectile { entity: n2, translation: t2 },
        ) => {
            assert(e.subrange(4, 12) =~= le64(n1.0) && f.subrange(4, 12) =~= le64(n2.0));
            assert(e.subrange(12, 24) =~= enc_vec3(t1) && f.subrange(12, 24) =~= enc_vec3(t2));
            lemma_le64_injective(n1.0, n2.0);
            lemma_vec3_injective(t1, t2);
        },
        (
            ServerMessagesView::DespawnProjectile { entity: n1 },
            ServerMessagesView::DespawnProjectile { entity: n2 },
        ) => {
            assert(e.subrange(4, 12) =~= le64(n1.0) && f.subrange(4, 12) =~= le64(n2.0));
            lemma_le64_injective(n1.0, n2.0);
        },
        (ServerMessagesView::EquipItem { .. }, ServerMessagesView::EquipItem { .. }) => {
            lemma_equip_item_injective(m1, m2);
        },
        (ServerMessagesView::UnequipItem { id: i1 }, ServerMessagesView::UnequipItem { id: i2 }) => {
            assert(e.subrange(4, 12) =~= le64(i1) && f.subrange(4, 12) =~= le64(i2));
            lemma_le64_injective(i1, i2);
        },
        _ => {},
    }
}

/// Decoding the encoding of a server event gives back that event.
pub proof fn lemma_server_message_round_trip(m: ServerMessagesView)
    requires
        server_message_fits(m),
    ensures
        decode_server_message_spec(encode_server_message_spec(m)) == Some(m),
{
    let b = encode_server_message_spec(m);
    let c = choose|x: ServerMessagesView| server_message_fits(x) && encode_server_message_spec(x) == b;
    lemma_server_message_injective(c, m);
}

proof fn lemma_ids_injective(s1: Seq<ServerEntityId>, s2: Seq<ServerEntityId>)
    requires
        s1.len() == s2.len(),
        enc_ids(s1) == enc_ids(s2),
    ensures
        s1 == s2,
    decreases s1.len(),
{
    if s1.len() > 0 {
        let (p1, p2) = (s1.drop_last(), s2.drop_last());
        lemma_enc_ids_len(p1);
        lemma_enc_ids_len(p2);
        let e = enc_ids(s1);
        let k = 8 * p1.len() as int;
        assert(e.subrange(0, k) =~= enc_ids(p1) && enc_ids(s2).subrange(0, k) =~= enc_ids(p2));
        assert(e.subrange(k, k + 8) =~= le64(s1.last().0));
        assert(enc_ids(s2).subrange(k, k + 8) =~= le64(s2.last().0));
        lemma_le64_injective(s1.last().0, s2.last().0);
        lemma_ids_injective(p1, p2);
        assert(s1 =~= p1.push(s1.last()));
        assert(s2 =~= p2.push(s2.last()));
    }
}

proof fn lemma_vec3s_injective(s1: Seq<Vec3>, s2: Seq<Vec3>)
    requires
        s1.len() == s2.len(),
        enc_vec3s(s1) == enc_vec3s(s2),
    ensures
        s1 == s2,
    decreases s1.len(),
{
    if s1.len() > 0 {
        let (p1, p2) = (s1.drop_last(), s2.drop_last());
        lemma_enc_vec3s_len(p1);
        lemma_enc_vec3s_len(p2);
        let e = enc_vec3s(s1);
        let k = 12 * p1.len() as int;
        assert(e.subrange(0, k) =~= enc_vec3s(p1) && enc_vec3s(s2).subrange(0, k) =~= enc_vec3s(
            p2,
        ));
        assert(e.subrange(k, k + 12) =~= enc_vec3(s1.last()));
        assert(enc_vec3s(s2).subrange(k, k + 12) =~= enc_vec3(s2.last()));
        lemma_vec3_injective(s1.last(), s2.last());
        lemma_vec3s_injective(p1, p2);
        assert(s1 =~= p1.push(s1.last()));
        assert(s2 =~= p2.push(s2.last()));
    }
}

proof fn lemma_quats_injective(s1: Seq<Quat>, s2: Seq<Quat>)
    requires
        s1.len() == s2.len(),
        enc_quats(s1) == enc_quats(s2),
    ensures
        s1 == s2,
    decreases s1.len(),
{
    if s1.len() > 0 {
        let (p1, p2) = (s1.drop_last(), s2.drop_last());
        lemma_enc_quats_len(p1);
        lemma_enc_quats_len(p2);
        let e = enc_quats(s1);
        let k = 16 * p1.len() as int;
        assert(e.subrange(0, k) =~= enc_quats(p1) && enc_quats(s2).subrange(0, k) =~= enc_quats(
            p2,
        ));
        assert(e.subrange(k, k + 16) =~= enc_quat(s1.last()));
        assert(enc_quats(s2).subrange(k, k + 16) =~= enc_quat(s2.last()));
        lemma_quat_injective(s1.last(), s2.last());
        lemma_quats_injective(p1, p2);
        assert(s1 =~= p1.push(s1.last()));
        assert(s2 =~= p2.push(s2.last()));
    }
}

/// Distinct snapshots whose lengths fit have distinct encodings.
pub proof fn lemma_snapshot_injective(m1: NetworkedEntitiesView, m2: NetworkedEntitiesView)
    requires
        snapshot_fits(m1),
        snapshot_fits(m2),
        encode_snapshot_spec(m1) == encode_snapshot_spec(m2),
    ensures
        m1 == m2,
{
    let e = encode_snapshot_spec(m1);
    let (x1, y1, z1) = (enc_ids(m1.entities), enc_vec3s(m1.translations), enc_quats(m1.rotations));
    let (x2, y2, z2) = (enc_ids(m2.entities), enc_vec3s(m2.translations), enc_quats(m2.rotations));
    lemma_enc_ids_len(m1.entities);
    lemma_enc_ids_len(m2.entities);
    lemma_enc_vec3s_len(m1.translations);
    lemma_enc_vec3s_len(m2.translations);
    lemma_enc_quats_len(m1.rotations);
    lemma_enc_quats_len(m2.rotations);
    let (a1, a2) = (m1.entities.len() as int, m2.entities.len() as int);
    assert(e.subrange(0, 8) =~= le64(a1 as u64));
    assert(encode_snapshot_spec(m2).subrange(0, 8) =~= le64(a2 as u64));
    lemma_le64_injective(a1 as u64, a2 as u64);
    let p = 8 + 8 * a1;
    assert(e.subrange(8, p) =~= x1 && encode_snapshot_spec(m2).subrange(8, p) =~= x2);
    lemma_ids_injective(m1.entities, m2.entities);
    let (c1, c2) = (m1.translations.len() as int, m2.translations.len() as int);
    assert(e.subrange(p, p + 8) =~= le64(c1 as u64));
    assert(encode_snapshot_spec(m2).subrange(p, p + 8) =~= le64(c2 as u64));
    lemma_le64_injective(c1 as u64, c2 as u64);
    let q = p + 8 + 12 * c1;
    assert(e.subrange(p + 8, q) =~= y1 && encode_snapshot_spec(m2).subrange(p + 8, q) =~= y2);
    lemma_vec3s_injective(m1.translations, m2.translations);
    let (d1, d2) = (m1.rotations.len() as int, m2.rotations.len() as int);
    assert(e.subrange(q, q + 8) =~= le64(d1 as u64));
    assert(encode_snapshot_spec(m2).subrange(q, q + 8) =~= le64(d2 as u64));
    lemma_le64_injective(d1 as u64, d2 as u64);
    assert(e.subrange(q + 8, e.len() as int) =~= z1);
    assert(encode_snapshot_spec(m2).subrange(q + 8, e.len() as int) =~= z2);
    lemma_quats_injective(m1.rotations, m2.rotations);
}

/// Decoding the encoding of a snapshot gives back that snapshot, array
/// lengths included.
pub proof fn lemma_snapshot_round_trip(m: NetworkedEntitiesView)
    requires
        snapshot_fits(m),
    ensures
        decode_snapshot_spec(encode_snapshot_spec(m)) == Some(m),
{
    let b = encode_snapshot_spec(m);
    let c = choose|x: NetworkedEntitiesView| snapshot_fits(x) && encode_snapshot_spec(x) == b;
    lemma_snapshot_injective(c, m);
}

} // verus!
