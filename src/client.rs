//! The client reconciliation engine: applies server events and snapshots to
//! the client's local world through the identity mapping table.
use std::collections::HashMap;
use vstd::prelude::*;

use crate::codec::{decode_server_message, decode_snapshot};
use crate::ids::{ClientEntityId, PlayerId, Quat, ReplicationError, ServerEntityId, Vec3};
use crate::mapping::{is_injective, lookup, NetworkMapping};
use crate::protocol::{NetworkedEntities, ServerMessages, ServerMessagesView};
use crate::round_trip::{decode_server_message_spec, decode_snapshot_spec};

verus! {

broadcast use vstd::std_specs::hash::group_hash_axioms;

/// Where a player's server entity and local entity are.
#[derive(Clone, Copy, PartialEq, Eq, Structural, Debug)]
pub struct PlayerInfo {
    pub server_entity: ServerEntityId,
    pub client_entity: ClientEntityId,
}

/// What a local entity represents.
#[derive(Clone, Copy, PartialEq, Eq, Structural, Debug)]
pub enum LocalKind {
    /// A player avatar; `controlled` marks this client's own avatar, which
    /// is simulated locally and never driven by snapshots.
    Player { id: PlayerId, controlled: bool },
    /// A projectile.
    Projectile,
}

/// The view-only representation of an item held by a player.
#[derive(Debug)]
pub struct HeldItem {
    pub item_entity: ServerEntityId,
    pub name: String,
    pub model_path: String,
}

/// One object of the client's local world.
#[derive(Debug)]
pub struct LocalEntity {
    /// The server identity that this object mirrors.
    pub server: ServerEntityId,
    pub kind: LocalKind,
    pub translation: Vec3,
    pub rotation: Quat,
    /// Whether the world-space representation is shown.
    pub visible: bool,
    pub held: Option<HeldItem>,
}

/// A local entity with its transform replaced.
pub open spec fn with_transform(e: LocalEntity, translation: Vec3, rotation: Quat) -> LocalEntity {
    LocalEntity { translation, rotation, ..e }
}

/// This client's own avatar.
pub open spec fn is_controlled(e: LocalEntity) -> bool {
    e.kind matches LocalKind::Player { controlled: true, .. }
}

/// The local object that a `PlayerCreate` builds.
pub open spec fn new_player(
    server: ServerEntityId,
    id: PlayerId,
    own: PlayerId,
    translation: Vec3,
) -> LocalEntity {
    LocalEntity {
        server,
        kind: LocalKind::Player { id, controlled: id == own },
        translation,
        rotation: Quat { x: 0, y: 0, z: 0, w: 0x3f80_0000 },
        visible: true,
        held: None,
    }
}

/// The local object that a `SpawnProjectile` builds.
pub open spec fn new_projectile(server: ServerEntityId, translation: Vec3) -> LocalEntity {
    LocalEntity {
        server,
        kind: LocalKind::Projectile,
        translation,
        rotation: Quat { x: 0, y: 0, z: 0, w: 0x3f80_0000 },
        visible: true,
        held: None,
    }
}

/// What applying one event did to the local world, for the presentation
/// layer to mirror.
#[derive(Clone, Copy, PartialEq, Eq, Structural, Debug)]
pub enum ClientEvent {
    /// A local object was created.
    Spawned { handle: ClientEntityId },
    /// A local object was destroyed.
    Despawned { handle: ClientEntityId },
    /// A player's held item changed.
    HeldItemChanged { handle: ClientEntityId },
    /// The event referred to nothing tracked, or its payload was malformed,
    /// and changed nothing.
    Ignored,
}

/// The mathematical state of a client.
pub struct ClientModel {
    pub client_id: PlayerId,
    /// Server entity identity to local handle.
    pub mapping: Map<u64, u64>,
    /// Player identity to the player's entities.
    pub lobby: Map<u64, PlayerInfo>,
    /// Local handle to local object.
    pub entities: Map<u64, LocalEntity>,
}

/// Index of the last entry among the first `n` of a snapshot that resolves
/// to the local handle `h`, or -1.
pub open spec fn last_entry_for(mapping: Map<u64, u64>, ids: Seq<ServerEntityId>, n: int, h: u64) -> int
    decreases n,
{
    if n <= 0 {
        -1
    } else if lookup(mapping, ids[n - 1].0) == Some(ClientEntityId(h)) {
        n - 1
    } else {
        last_entry_for(mapping, ids, n - 1, h)
    }
}

/// Number of complete entries of a snapshot.
pub open spec fn snapshot_entries(s: crate::protocol::NetworkedEntitiesView) -> int {
    let a = s.entities.len() as int;
    let b = s.translations.len() as int;
    let c = s.rotations.len() as int;
    if a <= b && a <= c {
        a
    } else if b <= c {
        b
    } else {
        c
    }
}

/// The local world after the first `n` entries of a snapshot: each tracked
/// object that is not the controlled avatar takes the transform of the last
/// entry that names it; every other object is unchanged.
pub open spec fn after_snapshot(
    mapping: Map<u64, u64>,
    entities: Map<u64, LocalEntity>,
    s: crate::protocol::NetworkedEntitiesView,
    n: int,
) -> Map<u64, LocalEntity> {
    Map::new(
        |h: u64| entities.contains_key(h),
        |h: u64|
            {
                let i = last_entry_for(mapping, s.entities, n, h);
                if i >= 0 && !is_controlled(entities[h]) {
                    with_transform(entities[h], s.translations[i], s.rotations[i])
                } else {
                    entities[h]
                }
            },
    )
}


/// Mapping key `k` names a live local object that mirrors `k`.
pub open spec fn key_ok(m: ClientModel, k: u64) -> bool {
    let h = m.mapping[k];
    m.entities.contains_key(h) && m.entities[h].server.0 == k
}

/// Local object `h` is reached from its server identity, and a player's
/// object is that player's lobby entry.
pub open spec fn entity_ok(m: ClientModel, h: u64) -> bool {
    let e = m.entities[h];
    &&& m.mapping.contains_key(e.server.0) && m.mapping[e.server.0] == h
    &&& match e.kind {
        LocalKind::Player { id, .. } => m.lobby.contains_key(id) && m.lobby[id].client_entity.0 == h,
        LocalKind::Projectile => true,
    }
}

/// Lobby entry `id` is a mapped pair whose local object is player `id`'s.
pub open spec fn lobby_ok(m: ClientModel, id: PlayerId) -> bool {
    let info = m.lobby[id];
    &&& m.mapping.contains_key(info.server_entity.0)
    &&& m.mapping[info.server_entity.0] == info.client_entity.0
    &&& m.entities.contains_key(info.client_entity.0)
    &&& m.entities[info.client_entity.0].kind == (LocalKind::Player {
        id,
        controlled: id == m.client_id,
    })
}

/// The client's invariant: the mapping table is a bijection onto the live
/// local objects, and the lobby agrees with both.
pub open spec fn client_consistent(m: ClientModel) -> bool {
    &&& is_injective(m.mapping)
    &&& forall|k: u64| #[trigger] m.mapping.contains_key(k) ==> key_ok(m, k)
    &&& forall|h: u64| #[trigger] m.entities.contains_key(h) ==> entity_ok(m, h)
    &&& forall|id: PlayerId| #[trigger] m.lobby.contains_key(id) ==> lobby_ok(m, id)
}

/// The lobby once local object `e` is gone.
pub open spec fn lobby_without(lobby: Map<u64, PlayerInfo>, e: LocalEntity) -> Map<u64, PlayerInfo> {
    match e.kind {
        LocalKind::Player { id, .. } => lobby.remove(id),
        LocalKind::Projectile => lobby,
    }
}

proof fn lemma_consistent_insert(o: ClientModel, n: ClientModel, k: u64, h: u64, e: LocalEntity)
    requires
        client_consistent(o),
        !o.mapping.contains_key(k),
        !o.entities.contains_key(h),
        e.server.0 == k,
        n.client_id == o.client_id,
        n.mapping == o.mapping.insert(k, h),
        n.entities == o.entities.insert(h, e),
        match e.kind {
            LocalKind::Player { id, controlled } => !o.lobby.contains_key(id) && controlled == (id
                == o.client_id) && n.lobby == o.lobby.insert(
                id,
                PlayerInfo { server_entity: e.server, client_entity: ClientEntityId(h) },
            ),
            LocalKind::Projectile => n.lobby == o.lobby,
        },
    ensures
        client_consistent(n),
{
    assert forall|a: u64, b: u64|
        #![trigger n.mapping[a], n.mapping[b]]
        n.mapping.contains_key(a) && n.mapping.contains_key(b) && a != b implies n.mapping[a]
            != n.mapping[b] by {
        if a == k && b != k {
            assert(key_ok(o, b));
        } else if b == k && a != k {
            assert(key_ok(o, a));
        }
    }
    assert forall|j: u64| #[trigger] n.mapping.contains_key(j) implies key_ok(n, j) by {
        if j != k {
            assert(key_ok(o, j));
        }
    }
    assert forall|x: u64| #[trigger] n.entities.contains_key(x) implies entity_ok(n, x) by {
        if x != h {
            assert(entity_ok(o, x));
            if let LocalKind::Player { id, .. } = o.entities[x].kind {
                assert(o.lobby.contains_key(id));
            }
        }
    }
    assert forall|id: PlayerId| #[trigger] n.lobby.contains_key(id) implies lobby_ok(n, id) by {
        if o.lobby.contains_key(id) {
            assert(lobby_ok(o, id));
            assert(o.lobby[id] == n.lobby[id]);
        }
    }
}

proof fn lemma_consistent_remove(o: ClientModel, n: ClientModel, k: u64)
    requires
        client_consistent(o),
        o.mapping.contains_key(k),
        n.client_id == o.client_id,
        n.mapping == o.mapping.remove(k),
        n.entities == o.entities.remove(o.mapping[k]),
        n.lobby == lobby_without(o.lobby, o.entities[o.mapping[k]]),
    ensures
        client_consistent(n),
{
    let h = o.mapping[k];
    assert(key_ok(o, k));
    assert(entity_ok(o, h));
    assert forall|a: u64, b: u64|
        #![trigger n.mapping[a], n.mapping[b]]
        n.mapping.contains_key(a) && n.mapping.contains_key(b) && a != b implies n.mapping[a]
            != n.mapping[b] by {
        assert(o.mapping[a] != o.mapping[b]);
    }
    assert forall|j: u64| #[trigger] n.mapping.contains_key(j) implies key_ok(n, j) by {
        assert(key_ok(o, j));
        assert(o.mapping[j] != h);
    }
    assert forall|x: u64| #[trigger] n.entities.contains_key(x) implies entity_ok(n, x) by {
        assert(entity_ok(o, x));
        if let LocalKind::Player { id, .. } = o.entities[x].kind {
            if let LocalKind::Player { id: gone, .. } = o.entities[h].kind {
                if gone == id {
                    assert(o.lobby[id].client_entity.0 == h);
                }
            }
        }
    }
    assert forall|id: PlayerId| #[trigger] n.lobby.contains_key(id) implies lobby_ok(n, id) by {
        assert(lobby_ok(o, id));
        let info = o.lobby[id];
        if info.client_entity.0 == h {
            assert(o.entities[h].kind == (LocalKind::Player { id, controlled: id == o.client_id }));
        }
        if info.server_entity.0 == k {
            assert(info.client_entity.0 == h);
        }
    }
}

proof fn lemma_consistent_reshape(o: ClientModel, n: ClientModel)
    requires
        client_consistent(o),
        n.client_id == o.client_id,
        n.mapping == o.mapping,
        n.lobby == o.lobby,
        n.entities.dom() == o.entities.dom(),
        forall|x: u64| #[trigger]
            o.entities.contains_key(x) ==> n.entities[x].server == o.entities[x].server
                && n.entities[x].kind == o.entities[x].kind,
    ensures
        client_consistent(n),
{
    assert forall|j: u64| #[trigger] n.mapping.contains_key(j) implies key_ok(n, j) by {
        assert(key_ok(o, j));
    }
    assert forall|x: u64| #[trigger] n.entities.contains_key(x) implies entity_ok(n, x) by {
        assert(o.entities.contains_key(x));
        assert(entity_ok(o, x));
    }
    assert forall|id: PlayerId| #[trigger] n.lobby.contains_key(id) implies lobby_ok(n, id) by {
        assert(lobby_ok(o, id));
    }
}

/// The outcome of `PlayerCreate { id, entity, translation }` on state `o`,
/// whose table is `exhausted` or not, giving state `n` and result `r`.
pub open spec fn player_create_post(
    o: ClientModel,
    exhausted: bool,
    n: ClientModel,
    id: PlayerId,
    entity: ServerEntityId,
    translation: Vec3,
    r: Result<ClientEvent, ReplicationError>,
) -> bool {
    if o.lobby.contains_key(id) {
        r == Err::<ClientEvent, ReplicationError>(ReplicationError::DuplicatePlayer) && n == o
    } else if o.mapping.contains_key(entity.0) {
        r == Err::<ClientEvent, ReplicationError>(ReplicationError::DuplicateRegistration) && n == o
    } else if exhausted {
        r == Err::<ClientEvent, ReplicationError>(ReplicationError::HandleSpaceExhausted) && n == o
    } else {
        exists|h: u64|
            {
                &&& r == Ok::<ClientEvent, ReplicationError>(
                    ClientEvent::Spawned { handle: ClientEntityId(h) },
                )
                &&& !o.entities.contains_key(h)
                &&& n == ClientModel {
                    mapping: o.mapping.insert(entity.0, h),
                    lobby: o.lobby.insert(
                        id,
                        PlayerInfo { server_entity: entity, client_entity: ClientEntityId(h) },
                    ),
                    entities: o.entities.insert(h, new_player(entity, id, o.client_id, translation)),
                    ..o
                }
            }
    }
}

/// The outcome of `PlayerRemove { id }`: the player leaves the lobby, and
/// its server identity is unregistered and its local object destroyed.
pub open spec fn player_remove_post(o: ClientModel, n: ClientModel, id: PlayerId, r: ClientEvent) -> bool {
    if !o.lobby.contains_key(id) {
        r == ClientEvent::Ignored && n == o
    } else {
        let info = o.lobby[id];
        &&& n == ClientModel {
            mapping: o.mapping.remove(info.server_entity.0),
            entities: o.entities.remove(info.client_entity.0),
            lobby: o.lobby.remove(id),
            ..o
        }
        &&& r == ClientEvent::Despawned { handle: info.client_entity }
    }
}

/// The outcome of `SpawnProjectile { entity, translation }`.
pub open spec fn spawn_projectile_post(
    o: ClientModel,
    exhausted: bool,
    n: ClientModel,
    entity: ServerEntityId,
    translation: Vec3,
    r: Result<ClientEvent, ReplicationError>,
) -> bool {
    if o.mapping.contains_key(entity.0) {
        r == Err::<ClientEvent, ReplicationError>(ReplicationError::DuplicateRegistration) && n == o
    } else if exhausted {
        r == Err::<ClientEvent, ReplicationError>(ReplicationError::HandleSpaceExhausted) && n == o
    } else {
        exists|h: u64|
            {
                &&& r == Ok::<ClientEvent, ReplicationError>(
                    ClientEvent::Spawned { handle: ClientEntityId(h) },
                )
                &&& !o.entities.contains_key(h)
                &&& n == ClientModel {
                    mapping: o.mapping.insert(entity.0, h),
                    entities: o.entities.insert(h, new_projectile(entity, translation)),
                    ..o
                }
            }
    }
}

/// The outcome of `DespawnProjectile { entity }`: the identity is
/// unregistered and its local object destroyed; when that object was a
/// player's, the player leaves the lobby too.
pub open spec fn despawn_projectile_post(
    o: ClientModel,
    n: ClientModel,
    entity: ServerEntityId,
    r: ClientEvent,
) -> bool {
    if o.mapping.contains_key(entity.0) {
        &&& n == ClientModel {
            mapping: o.mapping.remove(entity.0),
            entities: o.entities.remove(o.mapping[entity.0]),
            lobby: lobby_without(o.lobby, o.entities[o.mapping[entity.0]]),
            ..o
        }
        &&& r == ClientEvent::Despawned { handle: ClientEntityId(o.mapping[entity.0]) }
    } else {
        r == ClientEvent::Ignored && n == o
    }
}

/// The local handle of player `id`'s object, when both are present.
pub open spec fn player_handle(o: ClientModel, id: PlayerId) -> Option<u64> {
    if o.lobby.contains_key(id) && o.entities.contains_key(o.lobby[id].client_entity.0) {
        Some(o.lobby[id].client_entity.0)
    } else {
        None
    }
}

/// `entities` with the world-space representation of the local object
/// mirroring `item` shown or hidden, unless that object is `holder`.
pub open spec fn set_item_visible(
    mapping: Map<u64, u64>,
    entities: Map<u64, LocalEntity>,
    item: ServerEntityId,
    holder: u64,
    visible: bool,
) -> Map<u64, LocalEntity> {
    if mapping.contains_key(item.0) && mapping[item.0] != holder && entities.contains_key(
        mapping[item.0],
    ) {
        let w = mapping[item.0];
        entities.insert(w, LocalEntity { visible, ..entities[w] })
    } else {
        entities
    }
}

/// `held` is the item `item_entity` with the given name and model.
pub open spec fn holds_item(
    held: Option<HeldItem>,
    item_entity: ServerEntityId,
    name: Seq<char>,
    model_path: Seq<char>,
) -> bool {
    held matches Some(x) && x.item_entity == item_entity && x.name@ == name && x.model_path@
        == model_path
}

/// The outcome of `EquipItem`: the player's object holds the item's
/// view-only representation, and the item's world representation is hidden.
pub open spec fn equip_post(
    o: ClientModel,
    n: ClientModel,
    id: PlayerId,
    item_entity: ServerEntityId,
    name: Seq<char>,
    model_path: Seq<char>,
    r: ClientEvent,
) -> bool {
    match player_handle(o, id) {
        None => r == ClientEvent::Ignored && n == o,
        Some(h) => {
            &&& r == ClientEvent::HeldItemChanged { handle: ClientEntityId(h) }
            &&& n.client_id == o.client_id && n.mapping == o.mapping && n.lobby == o.lobby
            &&& holds_item(n.entities[h].held, item_entity, name, model_path)
            &&& n.entities == set_item_visible(
                o.mapping,
                o.entities.insert(h, LocalEntity { held: n.entities[h].held, ..o.entities[h] }),
                item_entity,
                h,
                false,
            )
        },
    }
}

/// The outcome of `UnequipItem`: the player holds nothing, and the world
/// representation of what it held is shown again.
pub open spec fn unequip_post(o: ClientModel, n: ClientModel, id: PlayerId, r: ClientEvent) -> bool {
    match player_handle(o, id) {
        None => r == ClientEvent::Ignored && n == o,
        Some(h) => {
            let cleared = o.entities.insert(h, LocalEntity { held: None, ..o.entities[h] });
            &&& r == ClientEvent::HeldItemChanged { handle: ClientEntityId(h) }
            &&& n.client_id == o.client_id && n.mapping == o.mapping && n.lobby == o.lobby
            &&& n.entities == match o.entities[h].held {
                Some(x) => set_item_visible(o.mapping, cleared, x.item_entity, h, true),
                None => cleared,
            }
        },
    }
}

/// The outcome of any server event.
pub open spec fn server_message_post(
    o: ClientModel,
    exhausted: bool,
    n: ClientModel,
    m: ServerMessagesView,
    r: Result<ClientEvent, ReplicationError>,
) -> bool {
    match m {
        ServerMessagesView::PlayerCreate { id, entity, translation } => player_create_post(
            o,
            exhausted,
            n,
            id,
            entity,
            translation,
            r,
        ),
        ServerMessagesView::PlayerRemove { id } => r matches Ok(ev) && player_remove_post(
            o,
            n,
            id,
            ev,
        ),
        ServerMessagesView::SpawnProjectile { entity, translation } => spawn_projectile_post(
            o,
            exhausted,
            n,
            entity,
            translation,
            r,
        ),
        ServerMessagesView::DespawnProjectile { entity } => r matches Ok(ev)
            && despawn_projectile_post(o, n, entity, ev),
        ServerMessagesView::EquipItem { id, item_entity, item_name, model_path } => r matches Ok(
            ev,
        ) && equip_post(o, n, id, item_entity, item_name, model_path, ev),
        ServerMessagesView::UnequipItem { id } => r matches Ok(ev) && unequip_post(o, n, id, ev),
    }
}

/// A snapshot never changes the controlled avatar, whatever its entries,
/// including an entry that names the avatar's own server identity.
pub proof fn lemma_snapshot_spares_controlled(
    mapping: Map<u64, u64>,
    entities: Map<u64, LocalEntity>,
    s: crate::protocol::NetworkedEntitiesView,
    n: int,
    h: u64,
)
    requires
        entities.contains_key(h),
        is_controlled(entities[h]),
    ensures
        after_snapshot(mapping, entities, s, n)[h] == entities[h],
{
}

/// A snapshot neither creates nor destroys local objects: only
/// reliable-ordered events do.
pub proof fn lemma_snapshot_creates_nothing(
    mapping: Map<u64, u64>,
    entities: Map<u64, LocalEntity>,
    s: crate::protocol::NetworkedEntitiesView,
    n: int,
)
    ensures
        after_snapshot(mapping, entities, s, n).dom() == entities.dom(),
{
    assert(after_snapshot(mapping, entities, s, n).dom() =~= entities.dom());
}

/// Index of the last entry among the first `n` of a snapshot that names
/// server identity `s`, or -1.
pub open spec fn last_entry_naming(ids: Seq<ServerEntityId>, n: int, s: u64) -> int
    decreases n,
{
    if n <= 0 {
        -1
    } else if ids[n - 1].0 == s {
        n - 1
    } else {
        last_entry_naming(ids, n - 1, s)
    }
}

/// Under an injective table, the entry that sets the transform of the
/// object mirroring `s` is the last entry naming `s`: the last snapshot
/// entry wins.
pub proof fn lemma_last_entry_wins(mapping: Map<u64, u64>, ids: Seq<ServerEntityId>, n: int, s: u64)
    requires
        is_injective(mapping),
        mapping.contains_key(s),
    ensures
        last_entry_for(mapping, ids, n, mapping[s]) == last_entry_naming(ids, n, s),
    decreases n,
{
    if n > 0 {
        let k = ids[n - 1].0;
        if k != s && mapping.contains_key(k) {
            assert(mapping[k] != mapping[s]);
        }
        lemma_last_entry_wins(mapping, ids, n - 1, s);
    }
}

/// A snapshot entry whose server identity is not mapped sets no local
/// object's transform: it is skipped without error.
pub proof fn lemma_unknown_entry_skipped(
    mapping: Map<u64, u64>,
    ids: Seq<ServerEntityId>,
    n: int,
    i: int,
    h: u64,
)
    requires
        0 <= i < n,
        !mapping.contains_key(ids[i].0),
    ensures
        last_entry_for(mapping, ids, n, h) != i,
    decreases n,
{
    if n - 1 != i {
        lemma_unknown_entry_skipped(mapping, ids, n - 1, i, h);
    } else {
        lemma_last_entry_below(mapping, ids, n - 1, h);
    }
}

proof fn lemma_last_entry_below(mapping: Map<u64, u64>, ids: Seq<ServerEntityId>, n: int, h: u64)
    ensures
        last_entry_for(mapping, ids, n, h) < n || n <= 0,
        last_entry_for(mapping, ids, n, h) >= -1,
    decreases n,
{
    if n > 0 {
        lemma_last_entry_below(mapping, ids, n - 1, h);
    }
}

/// Server event `m`, applied in state `o`, creates or destroys what server
/// identity `e` names.
pub open spec fn names_identity(o: ClientModel, m: ServerMessagesView, e: u64) -> bool {
    match m {
        ServerMessagesView::PlayerCreate { entity, .. } => entity.0 == e,
        ServerMessagesView::PlayerRemove { id } => o.lobby.contains_key(id)
            && o.lobby[id].server_entity.0 == e,
        ServerMessagesView::SpawnProjectile { entity, .. } => entity.0 == e,
        ServerMessagesView::DespawnProjectile { entity } => entity.0 == e,
        _ => false,
    }
}

/// `models[j]` becomes `models[j + 1]` by applying `events[j]` with result
/// `results[j]`, the table being `exhausted[j]` or not, for every `j`.
pub open spec fn is_run(
    models: Seq<ClientModel>,
    exhausted: Seq<bool>,
    events: Seq<ServerMessagesView>,
    results: Seq<Result<ClientEvent, ReplicationError>>,
) -> bool {
    &&& models.len() == events.len() + 1
    &&& exhausted.len() == events.len()
    &&& results.len() == events.len()
    &&& forall|j: int|
        0 <= j < events.len() ==> server_message_post(
            #[trigger] models[j],
            exhausted[j],
            models[j + 1],
            events[j],
            results[j],
        )
}

proof fn lemma_event_keeps_entry(
    o: ClientModel,
    exhausted: bool,
    n: ClientModel,
    m: ServerMessagesView,
    r: Result<ClientEvent, ReplicationError>,
    e: u64,
)
    requires
        server_message_post(o, exhausted, n, m, r),
        !names_identity(o, m, e),
    ensures
        lookup(n.mapping, e) == lookup(o.mapping, e),
{
    match m {
        ServerMessagesView::EquipItem { id, .. } => {
            if player_handle(o, id) is None {
            }
        },
        _ => {},
    }
}

proof fn lemma_run_keeps_entry(
    models: Seq<ClientModel>,
    exhausted: Seq<bool>,
    events: Seq<ServerMessagesView>,
    results: Seq<Result<ClientEvent, ReplicationError>>,
    e: u64,
    from: int,
)
    requires
        is_run(models, exhausted, events, results),
        0 <= from <= events.len(),
        forall|k: int| from <= k < events.len() ==> !names_identity(#[trigger] models[k], events[k], e),
    ensures
        lookup(models.last().mapping, e) == lookup(models[from].mapping, e),
    decreases events.len() - from,
{
    if from < events.len() {
        assert(server_message_post(models[from], exhausted[from], models[from + 1], events[from], results[from]));
        lemma_event_keeps_entry(models[from], exhausted[from], models[from + 1], events[from], results[from], e);
        lemma_run_keeps_entry(models, exhausted, events, results, e, from + 1);
    }
}

/// Over any run of server events: after an event that registers `e`, as
/// long as no later event names `e`, resolving `e` gives the fresh handle
/// that event created; after an event that unregisters `e`, it gives
/// nothing.
pub proof fn lemma_resolve_after_events(
    models: Seq<ClientModel>,
    exhausted: Seq<bool>,
    events: Seq<ServerMessagesView>,
    results: Seq<Result<ClientEvent, ReplicationError>>,
    e: u64,
    j: int,
)
    requires
        is_run(models, exhausted, events, results),
        0 <= j < events.len(),
        forall|k: int| j < k < events.len() ==> !names_identity(#[trigger] models[k], events[k], e),
    ensures
        names_identity(models[j], events[j], e) ==> match results[j] {
            Ok(ClientEvent::Spawned { handle }) => lookup(models.last().mapping, e) == Some(handle)
                && !models[j].entities.contains_key(handle.0),
            _ => true,
        },
        names_identity(models[j], events[j], e) && (events[j] is PlayerRemove
            || events[j] is DespawnProjectile) ==> lookup(models.last().mapping, e) is None,
{
    assert(server_message_post(models[j], exhausted[j], models[j + 1], events[j], results[j]));
    lemma_run_keeps_entry(models, exhausted, events, results, e, j + 1);
}

/// The replication state of one client process.
pub struct ClientState {
    client_id: PlayerId,
    mapping: NetworkMapping,
    lobby: HashMap<u64, PlayerInfo>,
    entities: HashMap<u64, LocalEntity>,
}

impl ClientState {
    pub closed spec fn model(&self) -> ClientModel {
        ClientModel {
            client_id: self.client_id,
            mapping: self.mapping@,
            lobby: self.lobby@,
            entities: self.entities@,
        }
    }

    /// How many fresh local handles the mapping table has left.
    pub closed spec fn handles_left(&self) -> nat {
        self.mapping.handles_left()
    }

    /// The mapping table has handed out every handle.
    pub open spec fn handles_exhausted(&self) -> bool {
        self.handles_left() == 0
    }

    /// The mapping table is well formed and the state is consistent.
    pub closed spec fn wf(&self) -> bool {
        self.mapping.wf() && client_consistent(self.model())
    }

    /// The invariant seen from outside.
    pub proof fn lemma_consistent(&self)
        requires
            self.wf(),
        ensures
            client_consistent(self.model()),
    {
    }

    /// A fresh state, as at connection time, for the client whose logical
    /// player identity is `client_id`.
    pub fn new(client_id: PlayerId) -> (r: ClientState)
        ensures
            r.wf(),
            r.handles_left() == u64::MAX,
            r.model().client_id == client_id,
            r.model().mapping == Map::<u64, u64>::empty(),
            r.model().lobby == Map::<u64, PlayerInfo>::empty(),
            r.model().entities == Map::<u64, LocalEntity>::empty(),
    {
        ClientState {
            client_id,
            mapping: NetworkMapping::new(),
            lobby: HashMap::new(),
            entities: HashMap::new(),
        }
    }

    proof fn lemma_fresh_handle(&self, h: u64)
        requires
            self.wf(),
            forall|k: u64| #[trigger] self.mapping@.contains_key(k) ==> self.mapping@[k] != h,
        ensures
            !self.entities@.contains_key(h),
    {
        if self.entities@.contains_key(h) {
            assert(entity_ok(self.model(), h));
        }
    }

    /// Applies `PlayerCreate`: builds the controlled avatar when `id` is
    /// this client's own identity, a passive remote avatar otherwise, and
    /// registers it in the mapping table and the lobby.
    pub fn on_player_create(&mut self, id: PlayerId, entity: ServerEntityId, translation: Vec3) -> (r:
        Result<ClientEvent, ReplicationError>)
        requires
            old(self).wf(),
        ensures
            final(self).wf(),
            final(self).handles_left() == old(self).handles_left() - (if r matches Ok(
                ClientEvent::Spawned { .. },
            ) {
                1int
            } else {
                0int
            }),
            player_create_post(
                old(self).model(),
                old(self).handles_exhausted(),
                final(self).model(),
                id,
                entity,
                translation,
                r,
            ),
    {
        if self.lobby.contains_key(&id) {
            return Err(ReplicationError::DuplicatePlayer);
        }
        let handle = match self.mapping.register(entity) {
            Ok(h) => h,
            Err(e) => {
                return Err(e);
            },
        };
        proof {
            old(self).lemma_fresh_handle(handle.0);
        }
        let local = LocalEntity {
            server: entity,
            kind: LocalKind::Player { id, controlled: id == self.client_id },
            translation,
            rotation: Quat::identity(),
            visible: true,
            held: None,
        };
        self.entities.insert(handle.0, local);
        self.lobby.insert(id, PlayerInfo { server_entity: entity, client_entity: handle });
        proof {
            let o = old(self).model();
            assert(self.model() == ClientModel {
                mapping: o.mapping.insert(entity.0, handle.0),
                lobby: o.lobby.insert(
                    id,
                    PlayerInfo { server_entity: entity, client_entity: handle },
                ),
                entities: o.entities.insert(handle.0, new_player(entity, id, o.client_id, translation)),
                ..o
            });
            lemma_consistent_insert(o, self.model(), entity.0, handle.0, new_player(entity, id, o.client_id, translation));
        }
        Ok(ClientEvent::Spawned { handle })
    }

    /// Applies `PlayerRemove`: unregisters the player's server identity and
    /// destroys its local object. A player that is not in the lobby is a
    /// no-op, so a duplicate or late removal is harmless.
    pub fn on_player_remove(&mut self, id: PlayerId) -> (r: ClientEvent)
        requires
            old(self).wf(),
        ensures
            final(self).wf(),
            final(self).handles_left() == old(self).handles_left(),
            player_remove_post(old(self).model(), final(self).model(), id, r),
    {
        let info = match self.lobby.get(&id) {
            Some(info) => *info,
            None => {
                return ClientEvent::Ignored;
            },
        };
        proof {
            let o = old(self).model();
            assert(lobby_ok(o, id));
            assert(key_ok(o, info.server_entity.0));
        }
        let r = self.remove_server_entity(info.server_entity);
        proof {
            let o = old(self).model();
            assert(self.model().lobby == o.lobby.remove(id));
        }
        r
    }

    fn remove_server_entity(&mut self, entity: ServerEntityId) -> (r: ClientEvent)
        requires
            old(self).wf(),
        ensures
            final(self).wf(),
            final(self).handles_left() == old(self).handles_left(),
            despawn_projectile_post(old(self).model(), final(self).model(), entity, r),
    {
        match self.mapping.unregister(entity) {
            Some(handle) => {
                proof {
                    assert(key_ok(old(self).model(), entity.0));
                }
                let removed = self.entities.remove(&handle.0);
                if let Some(e) = removed {
                    if let LocalKind::Player { id, .. } = e.kind {
                        self.lobby.remove(&id);
                    }
                }
                proof {
                    let o = old(self).model();
                    assert(self.lobby@ == lobby_without(o.lobby, o.entities[handle.0]));
                    lemma_consistent_remove(o, self.model(), entity.0);
                    assert(self.model() == ClientModel {
                        mapping: o.mapping.remove(entity.0),
                        entities: o.entities.remove(handle.0),
                        lobby: lobby_without(o.lobby, o.entities[handle.0]),
                        ..o
                    });
                }
                ClientEvent::Despawned { handle }
            },
            None => {
                proof {
                    assert(self.mapping@ =~= old(self).mapping@);
                    assert(self.model() == old(self).model());
                }
                ClientEvent::Ignored
            },
        }
    }

    /// Applies `SpawnProjectile`: builds a local projectile and registers it.
    pub fn on_spawn_projectile(&mut self, entity: ServerEntityId, translation: Vec3) -> (r: Result<
        ClientEvent,
        ReplicationError,
    >)
        requires
            old(self).wf(),
        ensures
            final(self).wf(),
            final(self).handles_left() == old(self).handles_left() - (if r matches Ok(
                ClientEvent::Spawned { .. },
            ) {
                1int
            } else {
                0int
            }),
            spawn_projectile_post(
                old(self).model(),
                old(self).handles_exhausted(),
                final(self).model(),
                entity,
                translation,
                r,
            ),
    {
        let handle = match self.mapping.register(entity) {
            Ok(h) => h,
            Err(e) => {
                return Err(e);
            },
        };
        proof {
            old(self).lemma_fresh_handle(handle.0);
        }
        let local = LocalEntity {
            server: entity,
            kind: LocalKind::Projectile,
            translation,
            rotation: Quat::identity(),
            visible: true,
            held: None,
        };
        self.entities.insert(handle.0, local);
        proof {
            let o = old(self).model();
            assert(self.model() == ClientModel {
                mapping: o.mapping.insert(entity.0, handle.0),
                entities: o.entities.insert(handle.0, new_projectile(entity, translation)),
                ..o
            });
            lemma_consistent_insert(o, self.model(), entity.0, handle.0, new_projectile(entity, translation));
        }
        Ok(ClientEvent::Spawned { handle })
    }

    /// Applies `DespawnProjectile`: unregisters the identity and destroys
    /// its local object; an unknown identity is a no-op.
    pub fn on_despawn_projectile(&mut self, entity: ServerEntityId) -> (r: ClientEvent)
        requires
            old(self).wf(),
        ensures
            final(self).wf(),
            final(self).handles_left() == old(self).handles_left(),
            despawn_projectile_post(old(self).model(), final(self).model(), entity, r),
    {
        self.remove_server_entity(entity)
    }

    proof fn lemma_wf_same_servers(&self, before: &ClientState)
        requires
            before.wf(),
            self.mapping == before.mapping,
            self.lobby@ == before.lobby@,
            self.client_id == before.client_id,
            self.entities@.dom() == before.entities@.dom(),
            forall|x: u64| #[trigger]
                before.entities@.contains_key(x) ==> self.entities@[x].server
                    == before.entities@[x].server && self.entities@[x].kind
                    == before.entities@[x].kind,
        ensures
            self.wf(),
    {
        lemma_consistent_reshape(before.model(), self.model());
    }

    fn set_item_visible(&mut self, item: ServerEntityId, holder: u64, visible: bool)
        requires
            old(self).wf(),
        ensures
            final(self).wf(),
            final(self).mapping == old(self).mapping,
            final(self).lobby@ == old(self).lobby@,
            final(self).client_id == old(self).client_id,
            final(self).entities@ == set_item_visible(
                old(self).mapping@,
                old(self).entities@,
                item,
                holder,
                visible,
            ),
    {
        if let Some(w) = self.mapping.resolve(item) {
            if w.0 != holder {
                if let Some(mut e) = self.entities.remove(&w.0) {
                    e.visible = visible;
                    self.entities.insert(w.0, e);
                    proof {
                        let o = old(self).entities@;
                        assert(self.entities@ =~= o.insert(w.0, LocalEntity { visible, ..o[w.0] }));
                        self.lemma_wf_same_servers(old(self));
                    }
                    return ;
                }
            }
        }
        proof {
            assert(self.entities@ =~= old(self).entities@);
        }
    }

    /// Applies `EquipItem`: the player's local object takes a view-only
    /// representation of the item, and the item's world representation is
    /// hidden. Unknown players are a no-op.
    pub fn on_equip_item(
        &mut self,
        id: PlayerId,
        item_entity: ServerEntityId,
        item_name: String,
        model_path: String,
    ) -> (r: ClientEvent)
        requires
            old(self).wf(),
        ensures
            final(self).wf(),
            final(self).handles_left() == old(self).handles_left(),
            equip_post(
                old(self).model(),
                final(self).model(),
                id,
                item_entity,
                item_name@,
                model_path@,
                r,
            ),
    {
        let h = match self.lobby.get(&id) {
            Some(info) => info.client_entity.0,
            None => {
                return ClientEvent::Ignored;
            },
        };
        let mut e = match self.entities.remove(&h) {
            Some(e) => e,
            None => {
                proof {
                    assert(self.entities@ =~= old(self).entities@);
                }
                return ClientEvent::Ignored;
            },
        };
        e.held = Some(HeldItem { item_entity, name: item_name, model_path });
        self.entities.insert(h, e);
        proof {
            let o = old(self).entities@;
            assert(self.entities@ =~= o.insert(
                h,
                LocalEntity { held: self.entities@[h].held, ..o[h] },
            ));
            self.lemma_wf_same_servers(old(self));
        }
        let ghost mid = self.entities@;
        self.set_item_visible(item_entity, h, false);
        proof {
            assert(self.entities@[h] == mid[h]);
        }
        ClientEvent::HeldItemChanged { handle: ClientEntityId(h) }
    }

    /// Applies `UnequipItem`: the player's local object holds nothing, and
    /// the world representation of what it held is shown again. Unknown
    /// players are a no-op.
    pub fn on_unequip_item(&mut self, id: PlayerId) -> (r: ClientEvent)
        requires
            old(self).wf(),
        ensures
            final(self).wf(),
            final(self).handles_left() == old(self).handles_left(),
            unequip_post(old(self).model(), final(self).model(), id, r),
    {
        let h = match self.lobby.get(&id) {
            Some(info) => info.client_entity.0,
            None => {
                return ClientEvent::Ignored;
            },
        };
        let mut e = match self.entities.remove(&h) {
            Some(e) => e,
            None => {
                proof {
                    assert(self.entities@ =~= old(self).entities@);
                }
                return ClientEvent::Ignored;
            },
        };
        let held = e.held;
        e.held = None;
        self.entities.insert(h, e);
        proof {
            let o = old(self).entities@;
            assert(self.entities@ =~= o.insert(h, LocalEntity { held: None, ..o[h] }));
            self.lemma_wf_same_servers(old(self));
        }
        if let Some(item) = held {
            self.set_item_visible(item.item_entity, h, true);
        }
        ClientEvent::HeldItemChanged { handle: ClientEntityId(h) }
    }

    /// Applies one server event.
    pub fn apply_server_message(&mut self, msg: ServerMessages) -> (r: Result<
        ClientEvent,
        ReplicationError,
    >)
        requires
            old(self).wf(),
        ensures
            final(self).wf(),
            final(self).handles_left() == old(self).handles_left() - (if r matches Ok(
                ClientEvent::Spawned { .. },
            ) {
                1int
            } else {
                0int
            }),
            server_message_post(
                old(self).model(),
                old(self).handles_exhausted(),
                final(self).model(),
                msg@,
                r,
            ),
    {
        match msg {
            ServerMessages::PlayerCreate { id, entity, translation } => {
                self.on_player_create(id, entity, translation)
            },
            ServerMessages::PlayerRemove { id } => Ok(self.on_player_remove(id)),
            ServerMessages::SpawnProjectile { entity, translation } => {
                self.on_spawn_projectile(entity, translation)
            },
            ServerMessages::DespawnProjectile { entity } => Ok(self.on_despawn_projectile(entity)),
            ServerMessages::EquipItem { id, item_entity, item_name, model_path } => {
                Ok(self.on_equip_item(id, item_entity, item_name, model_path))
            },
            ServerMessages::UnequipItem { id } => Ok(self.on_unequip_item(id)),
        }
    }

    /// Decodes and applies one payload of the events channel. A malformed
    /// payload is dropped: the state is unchanged and the result `Ignored`.
    pub fn apply_server_payload(&mut self, bytes: &[u8]) -> (r: Result<ClientEvent, ReplicationError>)
        requires
            old(self).wf(),
        ensures
            final(self).wf(),
            final(self).handles_left() == old(self).handles_left() - (if r matches Ok(
                ClientEvent::Spawned { .. },
            ) {
                1int
            } else {
                0int
            }),
            match decode_server_message_spec(bytes@) {
                None => r == Ok::<ClientEvent, ReplicationError>(ClientEvent::Ignored)
                    && final(self).model() == old(self).model(),
                Some(m) => server_message_post(
                    old(self).model(),
                    old(self).handles_exhausted(),
                    final(self).model(),
                    m,
                    r,
                ),
            },
    {
        match decode_server_message(bytes) {
            Some(msg) => self.apply_server_message(msg),
            None => Ok(ClientEvent::Ignored),
        }
    }

    /// Applies a snapshot: every entry whose server identity resolves to a
    /// local object other than the controlled avatar overwrites that
    /// object's transform, the last entry winning. Unknown identities are
    /// skipped; nothing is created or destroyed. Entries past the shortest
    /// of the three arrays are ignored.
    pub fn apply_snapshot(&mut self, snapshot: &NetworkedEntities)
        requires
            old(self).wf(),
        ensures
            final(self).wf(),
            final(self).handles_left() == old(self).handles_left(),
            final(self).model() == (ClientModel {
                entities: after_snapshot(
                    old(self).model().mapping,
                    old(self).model().entities,
                    snapshot@,
                    snapshot_entries(snapshot@),
                ),
                ..old(self).model()
            }),
    {
        let mut n: usize = snapshot.entities.len();
        if snapshot.translations.len() < n {
            n = snapshot.translations.len();
        }
        if snapshot.rotations.len() < n {
            n = snapshot.rotations.len();
        }
        let ghost o = old(self).model();
        proof {
            assert(self.entities@ =~= after_snapshot(o.mapping, o.entities, snapshot@, 0));
        }
        let mut i: usize = 0;
        while i < n
            invariant
                i <= n,
                n == snapshot_entries(snapshot@),
                o == old(self).model(),
                old(self).wf(),
                self.wf(),
                self.mapping == old(self).mapping,
                self.lobby@ == o.lobby,
                self.client_id == o.client_id,
                self.entities@ == after_snapshot(o.mapping, o.entities, snapshot@, i as int),
            decreases n - i,
        {
            let ghost before = self.entities@;
            if let Some(h) = self.mapping.resolve(snapshot.entities[i]) {
                if let Some(mut e) = self.entities.remove(&h.0) {
                    let controlled = match e.kind {
                        LocalKind::Player { controlled, .. } => controlled,
                        LocalKind::Projectile => false,
                    };
                    if !controlled {
                        e.translation = snapshot.translations[i];
                        e.rotation = snapshot.rotations[i];
                    }
                    self.entities.insert(h.0, e);
                    proof {
                        assert(self.entities@.dom() =~= old(self).entities@.dom());
                        self.lemma_wf_same_servers(old(self));
                    }
                } else {
                    proof {
                        assert(self.entities@ =~= before);
                    }
                }
            }
            proof {
                let next = after_snapshot(o.mapping, o.entities, snapshot@, i + 1);
                assert forall|x: u64| #[trigger] self.entities@.contains_key(x) <==> next.contains_key(x) by {
                }
                assert forall|x: u64| #[trigger] next.contains_key(x) implies self.entities@[x] == next[x] by {
                    assert(o.entities[x].kind == before[x].kind);
                }
                assert(self.entities@ =~= next);
            }
            i = i + 1;
        }
    }

    /// Decodes and applies one payload of the snapshot channel. A malformed
    /// payload is dropped and the state is unchanged; the result says
    /// whether the payload was applied.
    pub fn apply_snapshot_payload(&mut self, bytes: &[u8]) -> (r: bool)
        requires
            old(self).wf(),
        ensures
            final(self).wf(),
            final(self).handles_left() == old(self).handles_left(),
            r == (decode_snapshot_spec(bytes@) is Some),
            match decode_snapshot_spec(bytes@) {
                None => final(self).model() == old(self).model(),
                Some(s) => final(self).model() == (ClientModel {
                    entities: after_snapshot(
                        old(self).model().mapping,
                        old(self).model().entities,
                        s,
                        snapshot_entries(s),
                    ),
                    ..old(self).model()
                }),
            },
    {
        match decode_snapshot(bytes) {
            Some(snapshot) => {
                self.apply_snapshot(&snapshot);
                true
            },
            None => false,
        }
    }

    /// This client's logical player identity.
    pub fn client_id(&self) -> (r: PlayerId)
        ensures
            r == self.model().client_id,
    {
        self.client_id
    }

    /// The local handle of a server identity, if tracked.
    pub fn resolve(&self, server: ServerEntityId) -> (r: Option<ClientEntityId>)
        ensures
            r == lookup(self.model().mapping, server.0),
    {
        self.mapping.resolve(server)
    }

    /// A player's entry in the lobby.
    pub fn player(&self, id: PlayerId) -> (r: Option<PlayerInfo>)
        ensures
            r == (if self.model().lobby.contains_key(id) {
                Some(self.model().lobby[id])
            } else {
                None
            }),
    {
        match self.lobby.get(&id) {
            Some(info) => Some(*info),
            None => None,
        }
    }

    /// The local object behind a handle.
    pub fn entity(&self, handle: ClientEntityId) -> (r: Option<&LocalEntity>)
        ensures
            r matches Some(e) ==> self.model().entities.contains_key(handle.0)
                && *e == self.model().entities[handle.0],
            r is None ==> !self.model().entities.contains_key(handle.0),
    {
        self.entities.get(&handle.0)
    }

    /// Number of tracked server identities.
    pub fn mapped_count(&self) -> (r: usize)
        ensures
            r == self.model().mapping.len(),
    {
        self.mapping.len()
    }
}

} // verus!
