//! The byte encoding of every message.
//!
//! The layout is a length-implicit packing with no padding: an enum variant
//! is its index as a little-endian `u32`, followed by its fields in order;
//! integers and `f32` bit patterns are little-endian; a `bool` is one byte,
//! 0 or 1; a string or an array is its length as a little-endian `u64`,
//! followed by its UTF-8 bytes or its items. Decoding accepts exactly the
//! encodings of messages: anything else, trailing bytes included, is
//! malformed.
use vstd::prelude::*;

use crate::ids::{Quat, ServerEntityId, Vec3};
use crate::protocol::{
    ClientInput, NetworkedEntities, NetworkedEntitiesView, PlayerCommand, PlayerInput, ServerMessages,
    ServerMessagesView,
};
use vstd::utf8::{encode_utf8, encode_utf8_decode_utf8};
use crate::round_trip::{
    decode_client_input_spec, decode_player_command_spec, decode_server_message_spec,
    decode_snapshot_spec, lemma_client_input_injective, lemma_player_command_injective,
    lemma_server_message_injective, lemma_snapshot_injective, server_message_fits, snapshot_fits,
};
use crate::wire::{
    le32, le64, lemma_le32_injective, lemma_le64_injective, push_u32, push_u64, read_u32, read_u64,
};

verus! {

pub open spec fn bool_byte(b: bool) -> u8 {
    if b {
        1
    } else {
        0
    }
}

pub open spec fn enc_vec3(v: Vec3) -> Seq<u8> {
    le32(v.x) + le32(v.y) + le32(v.z)
}

pub open spec fn enc_quat(q: Quat) -> Seq<u8> {
    le32(q.x) + le32(q.y) + le32(q.z) + le32(q.w)
}

pub open spec fn enc_player_input(i: PlayerInput) -> Seq<u8> {
    seq![
        bool_byte(i.up),
        bool_byte(i.down),
        bool_byte(i.left),
        bool_byte(i.right),
        bool_byte(i.interact),
    ]
}

/// The bytes of a client input message.
pub open spec fn encode_client_input_spec(m: ClientInput) -> Seq<u8> {
    match m {
        ClientInput::Movement(i) => le32(0) + enc_player_input(i),
        ClientInput::Rotation(q) => le32(1) + enc_quat(q),
        ClientInput::Position(p) => le32(2) + enc_vec3(p),
        ClientInput::Interact => le32(3),
        ClientInput::EquipItem { item_entity } => le32(4) + le64(item_entity.0),
        ClientInput::UnequipItem => le32(5),
    }
}

/// The bytes of a player command.
pub open spec fn encode_player_command_spec(m: PlayerCommand) -> Seq<u8> {
    match m {
        PlayerCommand::BasicAttack { cast_at } => le32(0) + enc_vec3(cast_at),
    }
}

pub open spec fn client_input_tag(m: ClientInput) -> u32 {
    match m {
        ClientInput::Movement(_) => 0,
        ClientInput::Rotation(_) => 1,
        ClientInput::Position(_) => 2,
        ClientInput::Interact => 3,
        ClientInput::EquipItem { .. } => 4,
        ClientInput::UnequipItem => 5,
    }
}

/// Encoded length of the client input variant `tag`.
pub open spec fn client_input_len(tag: u32) -> int {
    if tag == 0 {
        9
    } else if tag == 1 {
        20
    } else if tag == 2 {
        16
    } else if tag == 4 {
        12
    } else {
        4
    }
}

pub proof fn lemma_client_input_frame(m: ClientInput)
    ensures
        client_input_tag(m) < 6,
        encode_client_input_spec(m).len() == client_input_len(client_input_tag(m)),
        encode_client_input_spec(m).subrange(0, 4) == le32(client_input_tag(m)),
        m is Movement ==> forall|j: int|
            4 <= j < 9 ==> #[trigger] encode_client_input_spec(m)[j] <= 1,
{
    let e = encode_client_input_spec(m);
    assert(e.subrange(0, 4) =~= le32(client_input_tag(m)));
}

fn push_vec3(out: &mut Vec<u8>, v: Vec3)
    ensures
        final(out)@ == old(out)@ + enc_vec3(v),
{
    push_u32(out, v.x);
    push_u32(out, v.y);
    push_u32(out, v.z);
    assert(out@ =~= old(out)@ + enc_vec3(v));
}

fn push_quat(out: &mut Vec<u8>, q: Quat)
    ensures
        final(out)@ == old(out)@ + enc_quat(q),
{
    push_u32(out, q.x);
    push_u32(out, q.y);
    push_u32(out, q.z);
    push_u32(out, q.w);
    assert(out@ =~= old(out)@ + enc_quat(q));
}

fn read_vec3(b: &[u8], pos: usize) -> (r: Vec3)
    requires
        pos + 12 <= b@.len(),
    ensures
        enc_vec3(r) == b@.subrange(pos as int, pos + 12),
{
    let len = b.len();
    assert(pos + 12 <= len);
    let x = read_u32(b, pos);
    let y = read_u32(b, pos + 4);
    let z = read_u32(b, pos + 8);
    let r = Vec3 { x, y, z };
    assert(enc_vec3(r) =~= b@.subrange(pos as int, pos + 12));
    r
}

fn read_quat(b: &[u8], pos: usize) -> (r: Quat)
    requires
        pos + 16 <= b@.len(),
    ensures
        enc_quat(r) == b@.subrange(pos as int, pos + 16),
{
    let len = b.len();
    assert(pos + 16 <= len);
    let x = read_u32(b, pos);
    let y = read_u32(b, pos + 4);
    let z = read_u32(b, pos + 8);
    let w = read_u32(b, pos + 12);
    let r = Quat { x, y, z, w };
    assert(enc_quat(r) =~= b@.subrange(pos as int, pos + 16));
    r
}

fn read_bool(b: &[u8], pos: usize) -> (r: Option<bool>)
    requires
        pos < b@.len(),
    ensures
        r matches Some(v) ==> bool_byte(v) == b@[pos as int],
        r is None ==> b@[pos as int] > 1,
{
    let c = b[pos];
    if c == 0 {
        Some(false)
    } else if c == 1 {
        Some(true)
    } else {
        None
    }
}

/// Encodes a client input message.
pub fn encode_client_input(m: &ClientInput) -> (r: Vec<u8>)
    ensures
        r@ == encode_client_input_spec(*m),
{
    let mut out: Vec<u8> = Vec::new();
    match *m {
        ClientInput::Movement(i) => {
            push_u32(&mut out, 0);
            out.push(if i.up { 1u8 } else { 0u8 });
            out.push(if i.down { 1u8 } else { 0u8 });
            out.push(if i.left { 1u8 } else { 0u8 });
            out.push(if i.right { 1u8 } else { 0u8 });
            out.push(if i.interact { 1u8 } else { 0u8 });
        },
        ClientInput::Rotation(q) => {
            push_u32(&mut out, 1);
            push_quat(&mut out, q);
        },
        ClientInput::Position(p) => {
            push_u32(&mut out, 2);
            push_vec3(&mut out, p);
        },
        ClientInput::Interact => {
            push_u32(&mut out, 3);
        },
        ClientInput::EquipItem { item_entity } => {
            push_u32(&mut out, 4);
            push_u64(&mut out, item_entity.0);
        },
        ClientInput::UnequipItem => {
            push_u32(&mut out, 5);
        },
    }
    assert(out@ =~= encode_client_input_spec(*m));
    out
}

fn parse_client_input(b: &[u8]) -> (r: Option<ClientInput>)
    ensures
        r matches Some(m) ==> encode_client_input_spec(m) == b@,
        r is None ==> forall|m: ClientInput| encode_client_input_spec(m) != b@,
{
    if b.len() < 4 {
        proof {
            assert forall|m: ClientInput| encode_client_input_spec(m) != b@ by {
                lemma_client_input_frame(m);
            }
        }
        return None;
    }
    let tag = read_u32(b, 0);
    let expected: usize = if tag == 0 {
        9
    } else if tag == 1 {
        20
    } else if tag == 2 {
        16
    } else if tag == 4 {
        12
    } else {
        4
    };
    if tag > 5 || b.len() != expected {
        proof {
            assert forall|m: ClientInput| encode_client_input_spec(m) != b@ by {
                lemma_client_input_frame(m);
                if encode_client_input_spec(m) == b@ {
                    lemma_le32_injective(tag, client_input_tag(m));
                }
            }
        }
        return None;
    }
    let r = if tag == 0 {
        let up = read_bool(b, 4);
        let down = read_bool(b, 5);
        let left = read_bool(b, 6);
        let right = read_bool(b, 7);
        let interact = read_bool(b, 8);
        match (up, down, left, right, interact) {
            (Some(up), Some(down), Some(left), Some(right), Some(interact)) => {
                ClientInput::Movement(PlayerInput { up, down, left, right, interact })
            },
            _ => {
                proof {
                    assert forall|m: ClientInput| encode_client_input_spec(m) != b@ by {
                        lemma_client_input_frame(m);
                        if encode_client_input_spec(m) == b@ {
                            lemma_le32_injective(tag, client_input_tag(m));
                            assert(encode_client_input_spec(m)[4] <= 1);
                            assert(encode_client_input_spec(m)[5] <= 1);
                            assert(encode_client_input_spec(m)[6] <= 1);
                            assert(encode_client_input_spec(m)[7] <= 1);
                            assert(encode_client_input_spec(m)[8] <= 1);
                        }
                    }
                }
                return None;
            },
        }
    } else if tag == 1 {
        ClientInput::Rotation(read_quat(b, 4))
    } else if tag == 2 {
        ClientInput::Position(read_vec3(b, 4))
    } else if tag == 3 {
        ClientInput::Interact
    } else if tag == 4 {
        ClientInput::EquipItem { item_entity: ServerEntityId(read_u64(b, 4)) }
    } else {
        ClientInput::UnequipItem
    };
    assert(encode_client_input_spec(r) =~= b@);
    Some(r)
}

/// Encodes a player command.
pub fn encode_player_command(m: &PlayerCommand) -> (r: Vec<u8>)
    ensures
        r@ == encode_player_command_spec(*m),
{
    let mut out: Vec<u8> = Vec::new();
    match *m {
        PlayerCommand::BasicAttack { cast_at } => {
            push_u32(&mut out, 0);
            push_vec3(&mut out, cast_at);
        },
    }
    assert(out@ =~= encode_player_command_spec(*m));
    out
}

fn parse_player_command(b: &[u8]) -> (r: Option<PlayerCommand>)
    ensures
        r matches Some(m) ==> encode_player_command_spec(m) == b@,
        r is None ==> forall|m: PlayerCommand| encode_player_command_spec(m) != b@,
{
    if b.len() != 16 {
        return None;
    }
    let tag = read_u32(b, 0);
    if tag != 0 {
        proof {
            assert forall|m: PlayerCommand| encode_player_command_spec(m) != b@ by {
                if encode_player_command_spec(m) == b@ {
                    assert(encode_player_command_spec(m).subrange(0, 4) =~= le32(0));
                    lemma_le32_injective(tag, 0);
                }
            }
        }
        return None;
    }
    let r = PlayerCommand::BasicAttack { cast_at: read_vec3(b, 4) };
    assert(encode_player_command_spec(r) =~= b@);
    Some(r)
}

/// A string: its UTF-8 length, then its UTF-8 bytes.
pub open spec fn enc_str(s: Seq<char>) -> Seq<u8> {
    le64(encode_utf8(s).len() as u64) + encode_utf8(s)
}

/// The bytes of a reliable-ordered server event.
pub open spec fn encode_server_message_spec(m: ServerMessagesView) -> Seq<u8> {
    match m {
        ServerMessagesView::PlayerCreate { id, entity, translation } => le32(0) + le64(id) + le64(
            entity.0,
        ) + enc_vec3(translation),
        ServerMessagesView::PlayerRemove { id } => le32(1) + le64(id),
        ServerMessagesView::SpawnProjectile { entity, translation } => le32(2) + le64(entity.0)
            + enc_vec3(translation),
        ServerMessagesView::DespawnProjectile { entity } => le32(3) + le64(entity.0),
        ServerMessagesView::EquipItem { id, item_entity, item_name, model_path } => le32(4) + le64(
            id,
        ) + le64(item_entity.0) + enc_str(item_name) + enc_str(model_path),
        ServerMessagesView::UnequipItem { id } => le32(5) + le64(id),
    }
}

pub open spec fn server_message_tag(m: ServerMessagesView) -> u32 {
    match m {
        ServerMessagesView::PlayerCreate { .. } => 0,
        ServerMessagesView::PlayerRemove { .. } => 1,
        ServerMessagesView::SpawnProjectile { .. } => 2,
        ServerMessagesView::DespawnProjectile { .. } => 3,
        ServerMessagesView::EquipItem { .. } => 4,
        ServerMessagesView::UnequipItem { .. } => 5,
    }
}

/// Encoded length of the fixed-size server event variant `tag`.
pub open spec fn server_message_len(tag: u32) -> int {
    if tag == 0 {
        32
    } else if tag == 2 {
        24
    } else {
        12
    }
}

/// The UTF-8 bytes of the item name of an equip event.
pub open spec fn equip_name_bytes(m: ServerMessagesView) -> Seq<u8> {
    match m {
        ServerMessagesView::EquipItem { item_name, .. } => encode_utf8(item_name),
        _ => Seq::empty(),
    }
}

/// The UTF-8 bytes of the model reference of an equip event.
pub open spec fn equip_model_bytes(m: ServerMessagesView) -> Seq<u8> {
    match m {
        ServerMessagesView::EquipItem { model_path, .. } => encode_utf8(model_path),
        _ => Seq::empty(),
    }
}

pub proof fn lemma_server_message_frame(m: ServerMessagesView)
    ensures
        server_message_tag(m) < 6,
        encode_server_message_spec(m).subrange(0, 4) == le32(server_message_tag(m)),
        !(m is EquipItem) ==> encode_server_message_spec(m).len() == server_message_len(
            server_message_tag(m),
        ),
        m is EquipItem ==> {
            let e = encode_server_message_spec(m);
            let u1 = equip_name_bytes(m);
            let u2 = equip_model_bytes(m);
            let l1 = u1.len() as int;
            &&& e.len() == 36 + u1.len() + u2.len()
            &&& e.subrange(20, 28) == le64(u1.len() as u64)
            &&& e.subrange(28, 28 + l1) == u1
            &&& e.subrange(28 + l1, 36 + l1) == le64(u2.len() as u64)
            &&& e.subrange(36 + l1, e.len() as int) == u2
        },
{
    let e = encode_server_message_spec(m);
    assert(e.subrange(0, 4) =~= le32(server_message_tag(m)));
    if let ServerMessagesView::EquipItem { id, item_entity, item_name, model_path } = m {
        let u1 = encode_utf8(item_name);
        let u2 = encode_utf8(model_path);
        let l1 = u1.len() as int;
        assert(e.subrange(20, 28) =~= le64(u1.len() as u64));
        assert(e.subrange(28, 28 + l1) =~= u1);
        assert(e.subrange(28 + l1, 36 + l1) =~= le64(u2.len() as u64));
        assert(e.subrange(36 + l1, e.len() as int) =~= u2);
    }
}

/// Relies on `String::from_utf8`: it succeeds exactly when the bytes are
/// valid UTF-8, that is when some string has them as its bytes, and the
/// string it returns has them as its bytes.
#[verifier::external_body]
fn string_from_utf8(v: Vec<u8>) -> (r: Option<String>)
    ensures
        r matches Some(s) ==> encode_utf8(s@) == v@,
        r is None ==> forall|s: Seq<char>| encode_utf8(s) != v@,
{
    String::from_utf8(v).ok()
}

fn push_bytes(out: &mut Vec<u8>, b: &[u8])
    ensures
        final(out)@ == old(out)@ + b@,
{
    let mut i: usize = 0;
    while i < b.len()
        invariant
            i <= b@.len(),
            out@ == old(out)@ + b@.subrange(0, i as int),
        decreases b@.len() - i,
    {
        out.push(b[i]);
        i = i + 1;
        assert(out@ =~= old(out)@ + b@.subrange(0, i as int));
    }
    assert(b@.subrange(0, b@.len() as int) =~= b@);
}

fn push_str(out: &mut Vec<u8>, s: &String)
    ensures
        final(out)@ == old(out)@ + enc_str(s@),
{
    let bytes = s.as_str().as_bytes();
    push_u64(out, bytes.len() as u64);
    push_bytes(out, bytes);
    assert(out@ =~= old(out)@ + enc_str(s@));
}

/// Copies `b[start..end]`.
fn copy_range(b: &[u8], start: usize, end: usize) -> (r: Vec<u8>)
    requires
        start <= end <= b@.len(),
    ensures
        r@ == b@.subrange(start as int, end as int),
{
    let mut out: Vec<u8> = Vec::new();
    let mut i: usize = start;
    while i < end
        invariant
            start <= i <= end <= b@.len(),
            out@ == b@.subrange(start as int, i as int),
        decreases end - i,
    {
        out.push(b[i]);
        i = i + 1;
        assert(out@ =~= b@.subrange(start as int, i as int));
    }
    out
}

/// Reads the `n` bytes at `pos` as a UTF-8 string.
fn read_string(b: &[u8], pos: usize, n: usize) -> (r: Option<String>)
    requires
        pos + n <= b@.len(),
    ensures
        r matches Some(s) ==> encode_utf8(s@) == b@.subrange(pos as int, pos + n),
        r is None ==> forall|s: Seq<char>| encode_utf8(s) != b@.subrange(pos as int, pos + n),
{
    let len = b.len();
    assert(pos + n <= len);
    let v = copy_range(b, pos, pos + n);
    string_from_utf8(v)
}

/// Encodes a server event.
pub fn encode_server_message(m: &ServerMessages) -> (r: Vec<u8>)
    ensures
        r@ == encode_server_message_spec(m@),
{
    let mut out: Vec<u8> = Vec::new();
    match m {
        ServerMessages::PlayerCreate { id, entity, translation } => {
            push_u32(&mut out, 0);
            push_u64(&mut out, *id);
            push_u64(&mut out, entity.0);
            push_vec3(&mut out, *translation);
        },
        ServerMessages::PlayerRemove { id } => {
            push_u32(&mut out, 1);
            push_u64(&mut out, *id);
        },
        ServerMessages::SpawnProjectile { entity, translation } => {
            push_u32(&mut out, 2);
            push_u64(&mut out, entity.0);
            push_vec3(&mut out, *translation);
        },
        ServerMessages::DespawnProjectile { entity } => {
            push_u32(&mut out, 3);
            push_u64(&mut out, entity.0);
        },
        ServerMessages::EquipItem { id, item_entity, item_name, model_path } => {
            push_u32(&mut out, 4);
            push_u64(&mut out, *id);
            push_u64(&mut out, item_entity.0);
            push_str(&mut out, item_name);
            push_str(&mut out, model_path);
        },
        ServerMessages::UnequipItem { id } => {
            push_u32(&mut out, 5);
            push_u64(&mut out, *id);
        },
    }
    assert(out@ =~= encode_server_message_spec(m@));
    out
}

fn parse_server_message(b: &[u8]) -> (r: Option<ServerMessages>)
    ensures
        r matches Some(m) ==> encode_server_message_spec(m@) == b@,
        r is None ==> forall|m: ServerMessagesView| encode_server_message_spec(m) != b@,
{
    if b.len() < 12 {
        proof {
            assert forall|m: ServerMessagesView| encode_server_message_spec(m) != b@ by {
                lemma_server_message_frame(m);
            }
        }
        return None;
    }
    let tag = read_u32(b, 0);
    if tag > 5 {
        proof {
            assert forall|m: ServerMessagesView| encode_server_message_spec(m) != b@ by {
                lemma_server_message_frame(m);
                if encode_server_message_spec(m) == b@ {
                    lemma_le32_injective(tag, server_message_tag(m));
                }
            }
        }
        return None;
    }
    if tag == 4 {
        decode_equip_item(b)
    } else {
        decode_fixed_server_message(b, tag)
    }
}

fn decode_fixed_server_message(b: &[u8], tag: u32) -> (r: Option<ServerMessages>)
    requires
        b@.len() >= 12,
        tag < 6,
        tag != 4,
        le32(tag) == b@.subrange(0, 4),
    ensures
        r matches Some(m) ==> encode_server_message_spec(m@) == b@,
        r is None ==> forall|m: ServerMessagesView| encode_server_message_spec(m) != b@,
{
    let len = b.len();
    let expected: usize = if tag == 0 {
        32
    } else if tag == 2 {
        24
    } else {
        12
    };
    if len != expected {
        proof {
            assert forall|m: ServerMessagesView| encode_server_message_spec(m) != b@ by {
                lemma_server_message_frame(m);
                if encode_server_message_spec(m) == b@ {
                    lemma_le32_injective(tag, server_message_tag(m));
                }
            }
        }
        return None;
    }
    let r = if tag == 0 {
        ServerMessages::PlayerCreate {
            id: read_u64(b, 4),
            entity: ServerEntityId(read_u64(b, 12)),
            translation: read_vec3(b, 20),
        }
    } else if tag == 1 {
        ServerMessages::PlayerRemove { id: read_u64(b, 4) }
    } else if tag == 2 {
        ServerMessages::SpawnProjectile {
            entity: ServerEntityId(read_u64(b, 4)),
            translation: read_vec3(b, 12),
        }
    } else if tag == 3 {
        ServerMessages::DespawnProjectile { entity: ServerEntityId(read_u64(b, 4)) }
    } else {
        ServerMessages::UnequipItem { id: read_u64(b, 4) }
    };
    assert(encode_server_message_spec(r@) =~= b@);
    Some(r)
}

fn decode_equip_item(b: &[u8]) -> (r: Option<ServerMessages>)
    requires
        b@.len() >= 12,
        le32(4) == b@.subrange(0, 4),
    ensures
        r matches Some(m) ==> encode_server_message_spec(m@) == b@,
        r is None ==> forall|m: ServerMessagesView| encode_server_message_spec(m) != b@,
{
    let len = b.len();
    if len < 36 {
        proof {
            assert forall|m: ServerMessagesView| encode_server_message_spec(m) != b@ by {
                lemma_server_message_frame(m);
                if encode_server_message_spec(m) == b@ {
                    lemma_le32_injective(4, server_message_tag(m));
                }
            }
        }
        return None;
    }
    let id = read_u64(b, 4);
    let item = read_u64(b, 12);
    let n1 = read_u64(b, 20);
    if n1 > (len - 36) as u64 {
        proof {
            assert forall|m: ServerMessagesView| encode_server_message_spec(m) != b@ by {
                lemma_server_message_frame(m);
                if encode_server_message_spec(m) == b@ {
                    lemma_le32_injective(4, server_message_tag(m));
                    lemma_le64_injective(n1, equip_name_bytes(m).len() as u64);
                }
            }
        }
        return None;
    }
    let n1 = n1 as usize;
    let name = read_string(b, 28, n1);
    let item_name = match name {
        Some(s) => s,
        None => {
            proof {
                assert forall|m: ServerMessagesView| encode_server_message_spec(m) != b@ by {
                    lemma_server_message_frame(m);
                    if encode_server_message_spec(m) == b@ {
                        lemma_le32_injective(4, server_message_tag(m));
                        lemma_le64_injective(n1 as u64, equip_name_bytes(m).len() as u64);
                        if let ServerMessagesView::EquipItem { item_name, .. } = m {
                            assert(encode_utf8(item_name) == b@.subrange(28, 28 + n1));
                        }
                    }
                }
            }
            return None;
        },
    };
    let p2 = 28 + n1;
    let n2 = read_u64(b, p2);
    if n2 != (len - p2 - 8) as u64 {
        proof {
            assert forall|m: ServerMessagesView| encode_server_message_spec(m) != b@ by {
                lemma_server_message_frame(m);
                if encode_server_message_spec(m) == b@ {
                    lemma_le32_injective(4, server_message_tag(m));
                    lemma_le64_injective(n1 as u64, equip_name_bytes(m).len() as u64);
                    lemma_le64_injective(n2, equip_model_bytes(m).len() as u64);
                }
            }
        }
        return None;
    }
    let n2 = n2 as usize;
    let model = read_string(b, p2 + 8, n2);
    let model_path = match model {
        Some(s) => s,
        None => {
            proof {
                assert forall|m: ServerMessagesView| encode_server_message_spec(m) != b@ by {
                    lemma_server_message_frame(m);
                    if encode_server_message_spec(m) == b@ {
                        lemma_le32_injective(4, server_message_tag(m));
                        lemma_le64_injective(n1 as u64, equip_name_bytes(m).len() as u64);
                        lemma_le64_injective(n2 as u64, equip_model_bytes(m).len() as u64);
                        if let ServerMessagesView::EquipItem { model_path, .. } = m {
                            assert(encode_utf8(model_path) == b@.subrange(p2 + 8, p2 + 8 + n2));
                        }
                    }
                }
            }
            return None;
        },
    };
    let r = ServerMessages::EquipItem { id, item_entity: ServerEntityId(item), item_name, model_path };
    proof {
        let e = encode_server_message_spec(r@);
        lemma_server_message_frame(r@);
        assert(b@ =~= b@.subrange(0, 4) + b@.subrange(4, 12) + b@.subrange(12, 20) + b@.subrange(
            20,
            28,
        ) + b@.subrange(28, p2 as int) + b@.subrange(p2 as int, p2 + 8) + b@.subrange(
            p2 + 8,
            len as int,
        ));
        assert(e =~= b@);
    }
    Some(r)
}

pub open spec fn enc_ids(s: Seq<ServerEntityId>) -> Seq<u8>
    decreases s.len(),
{
    if s.len() == 0 {
        Seq::empty()
    } else {
        enc_ids(s.drop_last()) + le64(s.last().0)
    }
}

pub open spec fn enc_vec3s(s: Seq<Vec3>) -> Seq<u8>
    decreases s.len(),
{
    if s.len() == 0 {
        Seq::empty()
    } else {
        enc_vec3s(s.drop_last()) + enc_vec3(s.last())
    }
}

pub open spec fn enc_quats(s: Seq<Quat>) -> Seq<u8>
    decreases s.len(),
{
    if s.len() == 0 {
        Seq::empty()
    } else {
        enc_quats(s.drop_last()) + enc_quat(s.last())
    }
}

/// The bytes of a snapshot: each array as its length and then its items.
pub open spec fn encode_snapshot_spec(m: NetworkedEntitiesView) -> Seq<u8> {
    le64(m.entities.len() as u64) + enc_ids(m.entities) + le64(m.translations.len() as u64)
        + enc_vec3s(m.translations) + le64(m.rotations.len() as u64) + enc_quats(m.rotations)
}

pub proof fn lemma_enc_ids_len(s: Seq<ServerEntityId>)
    ensures
        enc_ids(s).len() == 8 * s.len(),
    decreases s.len(),
{
    if s.len() > 0 {
        lemma_enc_ids_len(s.drop_last());
    }
}

pub proof fn lemma_enc_vec3s_len(s: Seq<Vec3>)
    ensures
        enc_vec3s(s).len() == 12 * s.len(),
    decreases s.len(),
{
    if s.len() > 0 {
        lemma_enc_vec3s_len(s.drop_last());
    }
}

pub proof fn lemma_enc_quats_len(s: Seq<Quat>)
    ensures
        enc_quats(s).len() == 16 * s.len(),
    decreases s.len(),
{
    if s.len() > 0 {
        lemma_enc_quats_len(s.drop_last());
    }
}

pub proof fn lemma_snapshot_frame(m: NetworkedEntitiesView)
    ensures
        ({
            let e = encode_snapshot_spec(m);
            let a = m.entities.len() as int;
            let c = m.translations.len() as int;
            let d = m.rotations.len() as int;
            let p = 8 + 8 * a;
            let q = p + 8 + 12 * c;
            &&& e.len() == q + 8 + 16 * d
            &&& e.subrange(0, 8) == le64(a as u64)
            &&& e.subrange(p, p + 8) == le64(c as u64)
            &&& e.subrange(q, q + 8) == le64(d as u64)
        }),
{
    let e = encode_snapshot_spec(m);
    let a = m.entities.len() as int;
    let c = m.translations.len() as int;
    lemma_enc_ids_len(m.entities);
    lemma_enc_vec3s_len(m.translations);
    lemma_enc_quats_len(m.rotations);
    let p = 8 + 8 * a;
    let q = p + 8 + 12 * c;
    assert(e.subrange(0, 8) =~= le64(a as u64));
    assert(e.subrange(p, p + 8) =~= le64(c as u64));
    assert(e.subrange(q, q + 8) =~= le64(m.rotations.len() as u64));
}

fn read_ids(b: &[u8], start: usize, n: usize) -> (r: Vec<ServerEntityId>)
    requires
        start + 8 * n <= b@.len(),
    ensures
        r@.len() == n,
        enc_ids(r@) == b@.subrange(start as int, start + 8 * n),
{
    let _len = b.len();
    let mut v: Vec<ServerEntityId> = Vec::new();
    let mut pos: usize = start;
    let mut i: usize = 0;
    while i < n
        invariant
            start + 8 * n <= b@.len(),
            b@.len() <= usize::MAX,
            i <= n,
            pos == start + 8 * i,
            v@.len() == i,
            enc_ids(v@) == b@.subrange(start as int, pos as int),
        decreases n - i,
    {
        let x = read_u64(b, pos);
        let ghost before = v@;
        v.push(ServerEntityId(x));
        assert(v@.drop_last() =~= before);
        assert(b@.subrange(start as int, pos + 8) =~= b@.subrange(start as int, pos as int)
            + b@.subrange(pos as int, pos + 8));
        pos = pos + 8;
        i = i + 1;
    }
    v
}

fn read_vec3s(b: &[u8], start: usize, n: usize) -> (r: Vec<Vec3>)
    requires
        start + 12 * n <= b@.len(),
    ensures
        r@.len() == n,
        enc_vec3s(r@) == b@.subrange(start as int, start + 12 * n),
{
    let _len = b.len();
    let mut v: Vec<Vec3> = Vec::new();
    let mut pos: usize = start;
    let mut i: usize = 0;
    while i < n
        invariant
            start + 12 * n <= b@.len(),
            b@.len() <= usize::MAX,
            i <= n,
            pos == start + 12 * i,
            v@.len() == i,
            enc_vec3s(v@) == b@.subrange(start as int, pos as int),
        decreases n - i,
    {
        let x = read_vec3(b, pos);
        let ghost before = v@;
        v.push(x);
        assert(v@.drop_last() =~= before);
        assert(b@.subrange(start as int, pos + 12) =~= b@.subrange(start as int, pos as int)
            + b@.subrange(pos as int, pos + 12));
        pos = pos + 12;
        i = i + 1;
    }
    v
}

fn read_quats(b: &[u8], start: usize, n: usize) -> (r: Vec<Quat>)
    requires
        start + 16 * n <= b@.len(),
    ensures
        r@.len() == n,
        enc_quats(r@) == b@.subrange(start as int, start + 16 * n),
{
    let _len = b.len();
    let mut v: Vec<Quat> = Vec::new();
    let mut pos: usize = start;
    let mut i: usize = 0;
    while i < n
        invariant
            start + 16 * n <= b@.len(),
            b@.len() <= usize::MAX,
            i <= n,
            pos == start + 16 * i,
            v@.len() == i,
            enc_quats(v@) == b@.subrange(start as int, pos as int),
        decreases n - i,
    {
        let x = read_quat(b, pos);
        let ghost before = v@;
        v.push(x);
        assert(v@.drop_last() =~= before);
        assert(b@.subrange(start as int, pos + 16) =~= b@.subrange(start as int, pos as int)
            + b@.subrange(pos as int, pos + 16));
        pos = pos + 16;
        i = i + 1;
    }
    v
}

/// Encodes a snapshot.
pub fn encode_snapshot(m: &NetworkedEntities) -> (r: Vec<u8>)
    ensures
        r@ == encode_snapshot_spec(m@),
{
    let mut out: Vec<u8> = Vec::new();
    push_u64(&mut out, m.entities.len() as u64);
    let mut i: usize = 0;
    while i < m.entities.len()
        invariant
            i <= m.entities@.len(),
            out@ == le64(m.entities@.len() as u64) + enc_ids(m.entities@.subrange(0, i as int)),
        decreases m.entities@.len() - i,
    {
        push_u64(&mut out, m.entities[i].0);
        assert(m.entities@.subrange(0, i + 1).drop_last() =~= m.entities@.subrange(0, i as int));
        i = i + 1;
    }
    assert(m.entities@.subrange(0, i as int) =~= m.entities@);
    let ghost head = out@;
    push_u64(&mut out, m.translations.len() as u64);
    let mut i: usize = 0;
    while i < m.translations.len()
        invariant
            i <= m.translations@.len(),
            out@ == head + le64(m.translations@.len() as u64) + enc_vec3s(
                m.translations@.subrange(0, i as int),
            ),
        decreases m.translations@.len() - i,
    {
        push_vec3(&mut out, m.translations[i]);
        assert(m.translations@.subrange(0, i + 1).drop_last() =~= m.translations@.subrange(
            0,
            i as int,
        ));
        i = i + 1;
    }
    assert(m.translations@.subrange(0, i as int) =~= m.translations@);
    let ghost head2 = out@;
    push_u64(&mut out, m.rotations.len() as u64);
    let mut i: usize = 0;
    while i < m.rotations.len()
        invariant
            i <= m.rotations@.len(),
            out@ == head2 + le64(m.rotations@.len() as u64) + enc_quats(
                m.rotations@.subrange(0, i as int),
            ),
        decreases m.rotations@.len() - i,
    {
        push_quat(&mut out, m.rotations[i]);
        assert(m.rotations@.subrange(0, i + 1).drop_last() =~= m.rotations@.subrange(0, i as int));
        i = i + 1;
    }
    assert(m.rotations@.subrange(0, i as int) =~= m.rotations@);
    assert(out@ =~= encode_snapshot_spec(m@));
    out
}

proof fn lemma_snapshot_bad_first_len(b: Seq<u8>, n1: u64)
    requires
        b.len() >= 24,
        b.len() <= u64::MAX,
        le64(n1) == b.subrange(0, 8),
        n1 > (b.len() - 24) / 8,
    ensures
        forall|m: NetworkedEntitiesView| encode_snapshot_spec(m) != b,
{
    assert forall|m: NetworkedEntitiesView| encode_snapshot_spec(m) != b by {
        lemma_snapshot_frame(m);
        if encode_snapshot_spec(m) == b {
            let a = m.entities.len() as int;
            let l = b.len() as int;
            assert(a <= (l - 24) / 8) by (nonlinear_arith)
                requires
                    8 * a <= l - 24,
                    a >= 0,
            ;
            lemma_le64_injective(n1, a as u64);
        }
    }
}

proof fn lemma_snapshot_bad_second_len(b: Seq<u8>, n1: u64, n2: u64)
    requires
        b.len() >= 24 + 8 * n1,
        b.len() <= u64::MAX,
        le64(n1) == b.subrange(0, 8),
        le64(n2) == b.subrange(8 + 8 * n1, 16 + 8 * n1),
        n2 > (b.len() - 24 - 8 * n1) / 12,
    ensures
        forall|m: NetworkedEntitiesView| encode_snapshot_spec(m) != b,
{
    assert forall|m: NetworkedEntitiesView| encode_snapshot_spec(m) != b by {
        lemma_snapshot_frame(m);
        if encode_snapshot_spec(m) == b {
            let a = m.entities.len() as int;
            let c = m.translations.len() as int;
            let l = b.len() as int;
            lemma_le64_injective(n1, a as u64);
            assert(a == n1);
            assert(c <= (l - 24 - 8 * n1) / 12) by (nonlinear_arith)
                requires
                    12 * c <= l - 24 - 8 * n1,
                    c >= 0,
            ;
            lemma_le64_injective(n2, c as u64);
        }
    }
}

proof fn lemma_snapshot_bad_third_len(b: Seq<u8>, n1: u64, n2: u64, n3: u64)
    requires
        b.len() >= 24 + 8 * n1 + 12 * n2,
        b.len() <= u64::MAX,
        le64(n1) == b.subrange(0, 8),
        le64(n2) == b.subrange(8 + 8 * n1, 16 + 8 * n1),
        le64(n3) == b.subrange(16 + 8 * n1 + 12 * n2, 24 + 8 * n1 + 12 * n2),
        (b.len() - 24 - 8 * n1 - 12 * n2) % 16 != 0 || n3 != (b.len() - 24 - 8 * n1 - 12 * n2)
            / 16,
    ensures
        forall|m: NetworkedEntitiesView| encode_snapshot_spec(m) != b,
{
    assert forall|m: NetworkedEntitiesView| encode_snapshot_spec(m) != b by {
        lemma_snapshot_frame(m);
        if encode_snapshot_spec(m) == b {
            let a = m.entities.len() as int;
            let c = m.translations.len() as int;
            let d = m.rotations.len() as int;
            let k = b.len() - 24 - 8 * n1 - 12 * n2;
            lemma_le64_injective(n1, a as u64);
            assert(a == n1);
            lemma_le64_injective(n2, c as u64);
            assert(c == n2);
            assert(16 * d == k);
            assert(k % 16 == 0 && d == k / 16) by (nonlinear_arith)
                requires
                    16 * d == k,
                    d >= 0,
            ;
            lemma_le64_injective(n3, d as u64);
        }
    }
}

fn parse_snapshot(b: &[u8]) -> (r: Option<NetworkedEntities>)
    ensures
        r matches Some(m) ==> encode_snapshot_spec(m@) == b@,
        r matches Some(m) ==> m@.entities.len() <= b@.len() && m@.translations.len() <= b@.len()
            && m@.rotations.len() <= b@.len(),
        r is None ==> forall|m: NetworkedEntitiesView| encode_snapshot_spec(m) != b@,
{
    let len = b.len();
    if len < 24 {
        proof {
            assert forall|m: NetworkedEntitiesView| encode_snapshot_spec(m) != b@ by {
                lemma_snapshot_frame(m);
            }
        }
        return None;
    }
    let n1 = read_u64(b, 0);
    if n1 > ((len - 24) / 8) as u64 {
        proof {
            lemma_snapshot_bad_first_len(b@, n1);
        }
        return None;
    }
    assert(8 * n1 <= len - 24) by (nonlinear_arith)
        requires
            n1 <= (len - 24) / 8,
    ;
    let n1 = n1 as usize;
    let ids = read_ids(b, 8, n1);
    let p = 8 + 8 * n1;
    let n2 = read_u64(b, p);
    if n2 > ((len - p - 16) / 12) as u64 {
        proof {
            lemma_snapshot_bad_second_len(b@, n1 as u64, n2);
        }
        return None;
    }
    assert(12 * n2 <= len - p - 16) by (nonlinear_arith)
        requires
            n2 <= (len - p - 16) / 12,
    ;
    let n2 = n2 as usize;
    let translations = read_vec3s(b, p + 8, n2);
    let q = p + 8 + 12 * n2;
    let n3 = read_u64(b, q);
    if (len - q - 8) % 16 != 0 || n3 != ((len - q - 8) / 16) as u64 {
        proof {
            lemma_snapshot_bad_third_len(b@, n1 as u64, n2 as u64, n3);
        }
        return None;
    }
    assert(16 * n3 == len - q - 8) by (nonlinear_arith)
        requires
            n3 == (len - q - 8) / 16,
            (len - q - 8) % 16 == 0,
    ;
    let n3 = n3 as usize;
    let rotations = read_quats(b, q + 8, n3);
    let r = NetworkedEntities { entities: ids, translations, rotations };
    proof {
        assert(b@ =~= b@.subrange(0, 8) + b@.subrange(8, p as int) + b@.subrange(p as int, p + 8)
            + b@.subrange(p + 8, q as int) + b@.subrange(q as int, q + 8) + b@.subrange(
            q + 8,
            len as int,
        ));
        assert(encode_snapshot_spec(r@) =~= b@);
    }
    Some(r)
}

/// Decodes a client input message: `Some(m)` exactly when `b` is the
/// encoding of `m`, `None` for a malformed payload.
pub fn decode_client_input(b: &[u8]) -> (r: Option<ClientInput>)
    ensures
        r matches Some(m) ==> decode_client_input_spec(b@) == Some(m),
        r is None ==> decode_client_input_spec(b@) is None,
{
    let r = parse_client_input(b);
    proof {
        if let Some(m) = &r {
            let c = choose|x: ClientInput| encode_client_input_spec(x) == b@;
            lemma_client_input_injective(c, *m);
        }
    }
    r
}

/// Decodes a player command: `Some(m)` exactly when `b` is the encoding of
/// `m`, `None` for a malformed payload.
pub fn decode_player_command(b: &[u8]) -> (r: Option<PlayerCommand>)
    ensures
        r matches Some(m) ==> decode_player_command_spec(b@) == Some(m),
        r is None ==> decode_player_command_spec(b@) is None,
{
    let r = parse_player_command(b);
    proof {
        if let Some(m) = &r {
            let c = choose|x: PlayerCommand| encode_player_command_spec(x) == b@;
            lemma_player_command_injective(c, *m);
        }
    }
    r
}

/// Decodes a server event: `Some(m)` exactly when `b` is the encoding of
/// `m`, `None` for a malformed payload.
pub fn decode_server_message(b: &[u8]) -> (r: Option<ServerMessages>)
    ensures
        r matches Some(m) ==> decode_server_message_spec(b@) == Some(m@),
        r is None ==> decode_server_message_spec(b@) is None,
{
    let len = b.len();
    let r = parse_server_message(b);
    proof {
        assert(b@.len() == len);
        if let Some(m) = &r {
            lemma_server_message_frame(m@);
            assert(server_message_fits(m@));
            let c = choose|x| server_message_fits(x) && encode_server_message_spec(x) == b@;
            lemma_server_message_injective(c, m@);
        }
    }
    r
}

/// Decodes a snapshot: `Some(m)` exactly when `b` is the encoding of `m`,
/// `None` for a malformed payload.
pub fn decode_snapshot(b: &[u8]) -> (r: Option<NetworkedEntities>)
    ensures
        r matches Some(m) ==> decode_snapshot_spec(b@) == Some(m@),
        r is None ==> decode_snapshot_spec(b@) is None,
{
    let len = b.len();
    let r = parse_snapshot(b);
    proof {
        assert(b@.len() == len);
        if let Some(m) = &r {
            assert(snapshot_fits(m@));
            let c = choose|x| snapshot_fits(x) && encode_snapshot_spec(x) == b@;
            lemma_snapshot_injective(c, m@);
        }
    }
    r
}

} // verus!
