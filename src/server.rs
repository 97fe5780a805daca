//! The server replication engine: connection lifecycle, input ingestion,
//! projectiles and snapshot production over the authoritative world.
use vstd::prelude::*;

use crate::codec::decode_client_input;
use crate::round_trip::decode_client_input_spec;
use crate::timing::{RepeatingTimer, SNAPSHOT_PERIOD_MS};
use crate::ids::{PlayerId, Quat, ReplicationError, ServerEntityId, Vec3, F32_TWO, F32_ZERO};
use crate::protocol::{
    ClientInput, NetworkedEntities, NetworkedEntitiesView, PlayerInput, ServerMessages,
    ServerMessagesView,
};

verus! {

/// Who an outgoing event is for.
#[derive(Clone, Copy, PartialEq, Eq, Structural, Debug)]
pub enum Recipient {
    /// One connection only.
    One(PlayerId),
    /// Every connection.
    All,
}

/// An event to send on the reliable-ordered events channel.
#[derive(Debug)]
pub struct Outgoing {
    pub to: Recipient,
    pub message: ServerMessages,
}

impl View for Outgoing {
    type V = (Recipient, ServerMessagesView);

    open spec fn view(&self) -> (Recipient, ServerMessagesView) {
        (self.to, self.message@)
    }
}

/// The views of a sequence of outgoing events.
pub open spec fn views(v: Seq<Outgoing>) -> Seq<(Recipient, ServerMessagesView)> {
    v.map_values(|o: Outgoing| o@)
}

/// What an authoritative entity is.
#[derive(Clone, Copy, PartialEq, Eq, Structural, Debug)]
pub enum ServerEntityKind {
    /// A player's avatar, with the movement keys it last reported.
    Player { id: PlayerId, input: PlayerInput },
    /// A projectile, with the time it has left to live.
    Projectile { remaining_ms: u64 },
}

/// An authoritative dynamic entity.
#[derive(Clone, Copy, PartialEq, Eq, Structural, Debug)]
pub struct ServerEntity {
    pub id: ServerEntityId,
    pub kind: ServerEntityKind,
    pub translation: Vec3,
    pub rotation: Quat,
}

/// Where a joining player's avatar appears: `(0, 2, 0)`.
pub open spec fn spawn_point() -> Vec3 {
    Vec3 { x: F32_ZERO, y: F32_TWO, z: F32_ZERO }
}

pub open spec fn identity_rotation() -> Quat {
    Quat { x: 0, y: 0, z: 0, w: 0x3f80_0000 }
}

/// `e` is the avatar of player `p`.
pub open spec fn is_player_of(e: ServerEntity, p: PlayerId) -> bool {
    e.kind matches ServerEntityKind::Player { id, .. } && id == p
}

/// `a` and `b` are avatars of the same player.
pub open spec fn same_player(a: ServerEntity, b: ServerEntity) -> bool {
    match (a.kind, b.kind) {
        (ServerEntityKind::Player { id: x, .. }, ServerEntityKind::Player { id: y, .. }) => x == y,
        _ => false,
    }
}

/// Entity identities are pairwise distinct, and no player has two avatars.
pub open spec fn entities_wf(s: Seq<ServerEntity>) -> bool {
    &&& forall|i: int, j: int|
        0 <= i < s.len() && 0 <= j < s.len() && i != j ==> (#[trigger] s[i]).id != (
        #[trigger] s[j]).id
    &&& forall|i: int, j: int|
        0 <= i < s.len() && 0 <= j < s.len() && i != j ==> !same_player(
            #[trigger] s[i],
            #[trigger] s[j],
        )
}

/// Player `p` has an avatar in `s`.
pub open spec fn has_player(s: Seq<ServerEntity>, p: PlayerId) -> bool {
    exists|i: int| 0 <= i < s.len() && is_player_of(#[trigger] s[i], p)
}

/// The avatar that a joining player `p` gets under identity `id`.
pub open spec fn new_player_entity(id: u64, p: PlayerId, translation: Vec3) -> ServerEntity {
    ServerEntity {
        id: ServerEntityId(id),
        kind: ServerEntityKind::Player {
            id: p,
            input: PlayerInput { up: false, down: false, left: false, right: false, interact: false },
        },
        translation,
        rotation: identity_rotation(),
    }
}

/// The creation event that announces entity `e`: `PlayerCreate` for an
/// avatar, `SpawnProjectile` for a projectile.
pub open spec fn announce(e: ServerEntity) -> ServerMessagesView {
    match e.kind {
        ServerEntityKind::Player { id, .. } => ServerMessagesView::PlayerCreate {
            id,
            entity: e.id,
            translation: e.translation,
        },
        ServerEntityKind::Projectile { .. } => ServerMessagesView::SpawnProjectile {
            entity: e.id,
            translation: e.translation,
        },
    }
}

/// The catch-up events for a joining connection `p`: one creation event per
/// live entity, in the order of `s`, to `p` alone.
pub open spec fn catch_up(s: Seq<ServerEntity>, p: PlayerId) -> Seq<(Recipient, ServerMessagesView)>
    decreases s.len(),
{
    if s.len() == 0 {
        Seq::empty()
    } else {
        catch_up(s.drop_last(), p).push((Recipient::One(p), announce(s.last())))
    }
}

/// The snapshot of `s`: every entity, in order.
pub open spec fn snapshot_of(s: Seq<ServerEntity>) -> NetworkedEntitiesView {
    NetworkedEntitiesView {
        entities: s.map_values(|e: ServerEntity| e.id),
        translations: s.map_values(|e: ServerEntity| e.translation),
        rotations: s.map_values(|e: ServerEntity| e.rotation),
    }
}

/// The entity `e` after an input report; other reports change nothing.
pub open spec fn with_input(e: ServerEntity, input: ClientInput) -> ServerEntity {
    match input {
        ClientInput::Movement(i) => match e.kind {
            ServerEntityKind::Player { id, .. } => ServerEntity {
                kind: ServerEntityKind::Player { id, input: i },
                ..e
            },
            _ => e,
        },
        ClientInput::Rotation(q) => ServerEntity { rotation: q, ..e },
        ClientInput::Position(v) => ServerEntity { translation: v, ..e },
        _ => e,
    }
}

/// `e` after `dt` milliseconds: a projectile's time left runs down.
pub open spec fn aged(e: ServerEntity, dt: u64) -> ServerEntity {
    match e.kind {
        ServerEntityKind::Projectile { remaining_ms } => ServerEntity {
            kind: ServerEntityKind::Projectile {
                remaining_ms: if remaining_ms > dt {
                    (remaining_ms - dt) as u64
                } else {
                    0
                },
            },
            ..e
        },
        _ => e,
    }
}

/// `e` is a projectile whose time runs out within `dt` milliseconds.
pub open spec fn expires(e: ServerEntity, dt: u64) -> bool {
    e.kind matches ServerEntityKind::Projectile { remaining_ms } && remaining_ms <= dt
}

/// The entities of `s` that outlive `dt` milliseconds, aged, in order.
pub open spec fn survivors(s: Seq<ServerEntity>, dt: u64) -> Seq<ServerEntity>
    decreases s.len(),
{
    if s.len() == 0 {
        Seq::empty()
    } else if expires(s.last(), dt) {
        survivors(s.drop_last(), dt)
    } else {
        survivors(s.drop_last(), dt).push(aged(s.last(), dt))
    }
}

/// One `DespawnProjectile` broadcast per projectile of `s` that expires
/// within `dt` milliseconds, in order.
pub open spec fn despawns(s: Seq<ServerEntity>, dt: u64) -> Seq<(Recipient, ServerMessagesView)>
    decreases s.len(),
{
    if s.len() == 0 {
        Seq::empty()
    } else if expires(s.last(), dt) {
        despawns(s.drop_last(), dt).push(
            (Recipient::All, ServerMessagesView::DespawnProjectile { entity: s.last().id }),
        )
    } else {
        despawns(s.drop_last(), dt)
    }
}

/// The server's authoritative world.
pub struct ServerState {
    entities: Vec<ServerEntity>,
    next_entity: u64,
    sync_timer: RepeatingTimer,
    items: Vec<ItemInfo>,
    holders: Vec<Option<PlayerId>>,
}

/// An equippable item of the world.
#[derive(Debug)]
pub struct ItemInfo {
    pub entity: ServerEntityId,
    pub name: String,
    pub model_path: String,
}

/// The next identity that `spawn_bot` gives a bot.
#[derive(Clone, Copy, PartialEq, Eq, Structural, Debug)]
pub struct BotId(pub u64);

impl ServerState {
    pub closed spec fn entities(&self) -> Seq<ServerEntity> {
        self.entities@
    }

    /// The equippable items, in registration order.
    pub closed spec fn items(&self) -> Seq<ItemInfo> {
        self.items@
    }

    /// Who holds each item, by registration order.
    pub closed spec fn holders(&self) -> Seq<Option<PlayerId>> {
        self.holders@
    }

    /// How many fresh entity identities are left.
    pub closed spec fn ids_left(&self) -> nat {
        (u64::MAX - self.next_entity) as nat
    }

    /// No fresh entity identity is left.
    pub open spec fn exhausted(&self) -> bool {
        self.ids_left() == 0
    }

    /// Identities are unique and were handed out before the next one; a
    /// player has at most one avatar.
    pub closed spec fn wf(&self) -> bool {
        let s = self.entities@;
        &&& self.items@.len() == self.holders@.len()
        &&& self.sync_timer.wf()
        &&& self.sync_timer.period() == SNAPSHOT_PERIOD_MS
        &&& forall|i: int| 0 <= i < s.len() ==> (#[trigger] s[i]).id.0 < self.next_entity
        &&& entities_wf(s)
    }

    /// The invariant seen from outside: identities are unique and a player
    /// has at most one avatar.
    pub proof fn lemma_entities_wf(&self)
        requires
            self.wf(),
        ensures
            entities_wf(self.entities()),
    {
    }

    /// An empty world.
    pub fn new() -> (r: ServerState)
        ensures
            r.wf(),
            r.ids_left() == u64::MAX,
            r.entities() == Seq::<ServerEntity>::empty(),
            r.items().len() == 0,
    {
        ServerState {
            entities: Vec::new(),
            next_entity: 0,
            sync_timer: RepeatingTimer::new(SNAPSHOT_PERIOD_MS),
            items: Vec::new(),
            holders: Vec::new(),
        }
    }

    /// Number of authoritative entities.
    pub fn entity_count(&self) -> (r: usize)
        ensures
            r == self.entities().len(),
    {
        self.entities.len()
    }

    /// The entity at position `i` of the world's order.
    pub fn entity_at(&self, i: usize) -> (r: ServerEntity)
        requires
            i < self.entities().len(),
        ensures
            r == self.entities()[i as int],
    {
        self.entities[i]
    }

    /// Position of player `p`'s avatar, if any.
    fn find_player(&self, p: PlayerId) -> (r: Option<usize>)
        ensures
            r matches Some(i) ==> i < self.entities@.len() && is_player_of(self.entities@[i as int], p),
            r is None ==> !has_player(self.entities@, p),
    {
        let mut i: usize = 0;
        while i < self.entities.len()
            invariant
                i <= self.entities@.len(),
                forall|j: int| 0 <= j < i ==> !is_player_of(#[trigger] self.entities@[j], p),
            decreases self.entities@.len() - i,
        {
            let found = match self.entities[i].kind {
                ServerEntityKind::Player { id, .. } => id == p,
                ServerEntityKind::Projectile { .. } => false,
            };
            if found {
                return Some(i);
            }
            i = i + 1;
        }
        None
    }

    /// Position of the entity `id`, if live.
    fn find_entity(&self, id: ServerEntityId) -> (r: Option<usize>)
        ensures
            r matches Some(i) ==> i < self.entities@.len() && self.entities@[i as int].id == id,
            r is None ==> forall|j: int|
                0 <= j < self.entities@.len() ==> (#[trigger] self.entities@[j]).id != id,
    {
        let mut i: usize = 0;
        while i < self.entities.len()
            invariant
                i <= self.entities@.len(),
                forall|j: int| 0 <= j < i ==> (#[trigger] self.entities@[j]).id != id,
            decreases self.entities@.len() - i,
        {
            if self.entities[i].id.0 == id.0 {
                return Some(i);
            }
            i = i + 1;
        }
        None
    }

    /// The avatar of player `p`, if connected: the server-side lobby.
    pub fn player_entity(&self, p: PlayerId) -> (r: Option<ServerEntity>)
        requires
            self.wf(),
        ensures
            r matches Some(e) ==> is_player_of(e, p) && self.entities().contains(e),
            r is None ==> !has_player(self.entities(), p),
    {
        match self.find_player(p) {
            Some(i) => Some(self.entities[i]),
            None => None,
        }
    }

    /// Appends a fresh entity; the identity comes from the counter.
    fn push_entity(&mut self, kind: ServerEntityKind, translation: Vec3) -> (r: ServerEntityId)
        requires
            old(self).wf(),
            !old(self).exhausted(),
            kind matches ServerEntityKind::Player { id, .. } ==> !has_player(old(self).entities@, id),
        ensures
            final(self).wf(),
            r.0 == old(self).next_entity,
            final(self).ids_left() == old(self).ids_left() - 1,
            forall|i: int| 0 <= i < old(self).entities@.len() ==> (#[trigger] old(self).entities@[i]).id != r,
            final(self).entities@ == old(self).entities@.push(
                ServerEntity { id: r, kind, translation, rotation: identity_rotation() },
            ),
    {
        let id = ServerEntityId(self.next_entity);
        self.entities.push(
            ServerEntity { id, kind, translation, rotation: Quat::identity() },
        );
        self.next_entity = self.next_entity + 1;
        proof {
            let s = self.entities@;
            let n = s.len() - 1;
            assert forall|i: int, j: int|
                0 <= i < s.len() && 0 <= j < s.len() && i != j implies !same_player(
                #[trigger] s[i],
                #[trigger] s[j],
            ) by {
                if i == n || j == n {
                    let k = if i == n { j } else { i };
                    assert(old(self).entities@[k] == s[k]);
                    if let ServerEntityKind::Player { id, .. } = kind {
                        assert(!is_player_of(s[k], id));
                    }
                } else {
                    assert(old(self).entities@[i] == s[i] && old(self).entities@[j] == s[j]);
                }
            }
        }
        id
    }

    proof fn lemma_wf_remove(&self, before: &ServerState, i: int)
        requires
            before.wf(),
            0 <= i < before.entities@.len(),
            self.next_entity == before.next_entity,
            self.sync_timer == before.sync_timer,
            self.items@.len() == before.items@.len(),
            self.holders@.len() == before.holders@.len(),
            self.entities@ == before.entities@.remove(i),
        ensures
            self.wf(),
    {
        let s = self.entities@;
        let o = before.entities@;
        assert forall|k: int| 0 <= k < s.len() implies #[trigger] s[k] == o[if k < i {
            k
        } else {
            k + 1
        }] by {}
        assert forall|a: int| 0 <= a < s.len() implies (#[trigger] s[a]).id.0 < self.next_entity by {
            assert(s[a] == o[if a < i { a } else { a + 1 }]);
        }
        assert forall|a: int, b: int| 0 <= a < s.len() && 0 <= b < s.len() && a != b implies (
        #[trigger] s[a]).id != (#[trigger] s[b]).id && !same_player(s[a], s[b]) by {
            let x = if a < i { a } else { a + 1 };
            let y = if b < i { b } else { b + 1 };
            assert(s[a] == o[x] && s[b] == o[y]);
        }
    }

    proof fn lemma_wf_update(&self, before: &ServerState, i: int)
        requires
            before.wf(),
            0 <= i < before.entities@.len(),
            self.next_entity == before.next_entity,
            self.sync_timer == before.sync_timer,
            self.items@.len() == before.items@.len(),
            self.holders@.len() == before.holders@.len(),
            self.entities@.len() == before.entities@.len(),
            self.entities@[i].id == before.entities@[i].id,
            forall|p: PlayerId| is_player_of(self.entities@[i], p) <==> is_player_of(before.entities@[i], p),
            forall|k: int| 0 <= k < self.entities@.len() && k != i ==> self.entities@[k] == before.entities@[k],
        ensures
            self.wf(),
    {
        let s = self.entities@;
        let o = before.entities@;
        assert forall|a: int| 0 <= a < s.len() implies (#[trigger] s[a]).id.0 < self.next_entity by {
            assert(s[a].id == o[a].id);
        }
        assert forall|a: int, b: int| 0 <= a < s.len() && 0 <= b < s.len() && a != b implies (
        #[trigger] s[a]).id != (#[trigger] s[b]).id && !same_player(s[a], s[b]) by {
            assert(s[a].id == o[a].id && s[b].id == o[b].id);
            assert(same_player(s[a], s[b]) == same_player(o[a], o[b])) by {
                if a == i {
                    assert(o[b] == s[b]);
                    if let ServerEntityKind::Player { id, .. } = o[a].kind {
                        assert(is_player_of(o[a], id));
                    }
                    if let ServerEntityKind::Player { id, .. } = s[a].kind {
                        assert(is_player_of(s[a], id));
                    }
                } else if b == i {
                    assert(o[a] == s[a]);
                    if let ServerEntityKind::Player { id, .. } = o[b].kind {
                        assert(is_player_of(o[b], id));
                    }
                    if let ServerEntityKind::Player { id, .. } = s[b].kind {
                        assert(is_player_of(s[b], id));
                    }
                }
            }
        }
    }

    /// A connection was torn down: the player's avatar is destroyed, and its
    /// removal is announced to everyone.
    pub fn client_disconnected(&mut self, client: PlayerId) -> (r: Outgoing)
        requires
            old(self).wf(),
        ensures
            final(self).wf(),
            final(self).ids_left() == old(self).ids_left(),
            r@ == (Recipient::All, ServerMessagesView::PlayerRemove { id: client }),
            !has_player(final(self).entities(), client),
            !has_player(old(self).entities(), client) ==> final(self).entities() == old(self).entities(),
            has_player(old(self).entities(), client) ==> exists|i: int|
                0 <= i < old(self).entities().len() && is_player_of(old(self).entities()[i], client)
                    && final(self).entities() == old(self).entities().remove(i),
    {
        if let Some(i) = self.find_player(client) {
            self.entities.remove(i);
            proof {
                self.lemma_wf_remove(old(self), i as int);
                let o = old(self).entities@;
                let n = self.entities@;
                assert forall|k: int| 0 <= k < n.len() implies !is_player_of(#[trigger] n[k], client) by {
                    let x = if k < i { k } else { k + 1 };
                    assert(n[k] == o[x]);
                    assert(x != i);
                    assert(!same_player(o[x], o[i as int]));
                }
            }
        }
        Outgoing { to: Recipient::All, message: ServerMessages::PlayerRemove { id: client } }
    }

    /// Applies an input report from `client` to its avatar: movement keys,
    /// absolute rotation or absolute position, taken as reported. Other
    /// inputs change nothing here. The result says whether `client` has an
    /// avatar.
    pub fn apply_input(&mut self, client: PlayerId, input: ClientInput) -> (r: bool)
        requires
            old(self).wf(),
        ensures
            final(self).wf(),
            final(self).ids_left() == old(self).ids_left(),
            r == has_player(old(self).entities(), client),
            !r ==> final(self).entities() == old(self).entities(),
            r ==> exists|i: int|
                0 <= i < old(self).entities().len() && is_player_of(old(self).entities()[i], client)
                    && final(self).entities() == old(self).entities().update(
                    i,
                    with_input(old(self).entities()[i], input),
                ),
    {
        let i = match self.find_player(client) {
            Some(i) => i,
            None => {
                return false;
            },
        };
        let e = self.entities[i];
        let updated = match input {
            ClientInput::Movement(keys) => match e.kind {
                ServerEntityKind::Player { id, .. } => ServerEntity {
                    kind: ServerEntityKind::Player { id, input: keys },
                    ..e
                },
                ServerEntityKind::Projectile { .. } => e,
            },
            ClientInput::Rotation(q) => ServerEntity { rotation: q, ..e },
            ClientInput::Position(v) => ServerEntity { translation: v, ..e },
            _ => e,
        };
        self.entities.set(i, updated);
        proof {
            self.lemma_wf_update(old(self), i as int);
        }
        true
    }

    /// Spawns an authoritative projectile at `translation` with the standard
    /// lifetime, and announces it to everyone.
    pub fn spawn_projectile(&mut self, translation: Vec3) -> (r: Result<Outgoing, ReplicationError>)
        requires
            old(self).wf(),
        ensures
            final(self).wf(),
            old(self).exhausted() <==> r is Err,
            r is Err ==> r == Err::<Outgoing, ReplicationError>(ReplicationError::HandleSpaceExhausted)
                && final(self).entities() == old(self).entities(),
            r is Err ==> final(self).ids_left() == old(self).ids_left(),
            r is Ok ==> final(self).ids_left() == old(self).ids_left() - 1,
            r matches Ok(out) ==> exists|id: u64|
                {
                    &&& forall|i: int|
                        0 <= i < old(self).entities().len() ==> (#[trigger] old(
                            self,
                        ).entities()[i]).id.0 != id
                    &&& final(self).entities() == old(self).entities().push(
                        ServerEntity {
                            id: ServerEntityId(id),
                            kind: ServerEntityKind::Projectile {
                                remaining_ms: crate::timing::PROJECTILE_LIFETIME_MS,
                            },
                            translation,
                            rotation: identity_rotation(),
                        },
                    )
                    &&& out@ == (
                        Recipient::All,
                        ServerMessagesView::SpawnProjectile { entity: ServerEntityId(id), translation },
                    )
                },
    {
        if self.next_entity == u64::MAX {
            return Err(ReplicationError::HandleSpaceExhausted);
        }
        let kind = ServerEntityKind::Projectile { remaining_ms: crate::timing::PROJECTILE_LIFETIME_MS };
        let entity = self.push_entity(kind, translation);
        let out = Outgoing {
            to: Recipient::All,
            message: ServerMessages::SpawnProjectile { entity, translation },
        };
        proof {
            let id = entity.0;
            assert(forall|i: int|
                0 <= i < old(self).entities().len() ==> (#[trigger] old(self).entities()[i]).id.0
                    != id);
            assert(out@ == (
                Recipient::All,
                ServerMessagesView::SpawnProjectile { entity: ServerEntityId(id), translation },
            ));
        }
        Ok(out)
    }

    /// A basic attack from `client`, whose projectile starts at `origin`: a
    /// connected player's attack spawns exactly one projectile, announced to
    /// everyone; an attack from a player without an avatar does nothing.
    pub fn basic_attack(&mut self, client: PlayerId, origin: Vec3) -> (r: Result<
        Option<Outgoing>,
        ReplicationError,
    >)
        requires
            old(self).wf(),
        ensures
            final(self).wf(),
            !has_player(old(self).entities(), client) ==> r == Ok::<
                Option<Outgoing>,
                ReplicationError,
            >(None) && final(self).entities() == old(self).entities(),
            r matches Ok(Some(_)) ==> final(self).ids_left() == old(self).ids_left() - 1,
            !(r matches Ok(Some(_))) ==> final(self).ids_left() == old(self).ids_left(),
            has_player(old(self).entities(), client) && old(self).exhausted() ==> r == Err::<
                Option<Outgoing>,
                ReplicationError,
            >(ReplicationError::HandleSpaceExhausted) && final(self).entities() == old(
                self,
            ).entities(),
            has_player(old(self).entities(), client) && !old(self).exhausted() ==> (r matches Ok(
                Some(out),
            ) && final(self).entities().len() == old(self).entities().len() + 1
                && final(self).entities().drop_last() == old(self).entities() && out@ == (
                Recipient::All,
                ServerMessagesView::SpawnProjectile {
                    entity: final(self).entities().last().id,
                    translation: origin,
                },
            ) && final(self).entities().last().kind == (ServerEntityKind::Projectile {
                remaining_ms: crate::timing::PROJECTILE_LIFETIME_MS,
            }) && final(self).entities().last().translation == origin),
    {
        if self.find_player(client).is_none() {
            return Ok(None);
        }
        match self.spawn_projectile(origin) {
            Ok(out) => {
                proof {
                    assert(self.entities@.drop_last() =~= old(self).entities@);
                }
                Ok(Some(out))
            },
            Err(e) => Err(e),
        }
    }

    /// Advances every projectile by `elapsed_ms`: those whose time runs out
    /// are destroyed, and each destruction is announced to everyone.
    pub fn advance_projectiles(&mut self, elapsed_ms: u64) -> (r: Vec<Outgoing>)
        requires
            old(self).wf(),
        ensures
            final(self).wf(),
            final(self).ids_left() == old(self).ids_left(),
            final(self).entities() == survivors(old(self).entities(), elapsed_ms),
            views(r@) == despawns(old(self).entities(), elapsed_ms),
    {
        let mut kept: Vec<ServerEntity> = Vec::new();
        let mut out: Vec<Outgoing> = Vec::new();
        let ghost mut idx: Seq<int> = Seq::empty();
        let ghost s = self.entities@;
        let mut i: usize = 0;
        while i < self.entities.len()
            invariant
                i <= s.len(),
                s == self.entities@,
                s == old(self).entities@,
                kept@ == survivors(s.subrange(0, i as int), elapsed_ms),
                views(out@) == despawns(s.subrange(0, i as int), elapsed_ms),
                idx.len() == kept@.len(),
                forall|k: int| 0 <= k < idx.len() ==> 0 <= #[trigger] idx[k] < i,
                forall|a: int, b: int| 0 <= a < b < idx.len() ==> idx[a] < idx[b],
                forall|k: int|
                    0 <= k < idx.len() ==> #[trigger] kept@[k] == aged(s[idx[k]], elapsed_ms),
            decreases s.len() - i,
        {
            let e = self.entities[i];
            let sub = Ghost(s.subrange(0, i + 1));
            proof {
                assert(sub@.drop_last() =~= s.subrange(0, i as int));
            }
            let (expired, aged_e) = match e.kind {
                ServerEntityKind::Projectile { remaining_ms } => {
                    if remaining_ms <= elapsed_ms {
                        (true, e)
                    } else {
                        (
                            false,
                            ServerEntity {
                                kind: ServerEntityKind::Projectile {
                                    remaining_ms: remaining_ms - elapsed_ms,
                                },
                                ..e
                            },
                        )
                    }
                },
                ServerEntityKind::Player { .. } => (false, e),
            };
            if expired {
                let ghost before = out@;
                out.push(
                    Outgoing {
                        to: Recipient::All,
                        message: ServerMessages::DespawnProjectile { entity: e.id },
                    },
                );
                proof {
                    assert(views(out@) =~= views(before).push(out@.last()@));
                }
            } else {
                kept.push(aged_e);
                proof {
                    idx = idx.push(i as int);
                }
            }
            i = i + 1;
        }
        proof {
            assert(s.subrange(0, i as int) =~= s);
        }
        self.entities = kept;
        proof {
            let k = self.entities@;
            assert forall|a: int| 0 <= a < k.len() implies (#[trigger] k[a]).id.0 < self.next_entity by {
                assert(k[a].id == s[idx[a]].id);
            }
            assert forall|a: int, b: int| 0 <= a < k.len() && 0 <= b < k.len() && a != b implies (
            #[trigger] k[a]).id != (#[trigger] k[b]).id && !same_player(k[a], k[b]) by {
                assert(idx[a] != idx[b]);
                assert(k[a].id == s[idx[a]].id && k[b].id == s[idx[b]].id);
                assert(same_player(k[a], k[b]) == same_player(s[idx[a]], s[idx[b]]));
            }
        }
        out
    }

    /// The snapshot of every authoritative entity, or `None` when there is
    /// none, so that nothing is sent.
    pub fn snapshot(&self) -> (r: Option<NetworkedEntities>)
        requires
            self.wf(),
        ensures
            r is None <==> self.entities().len() == 0,
            r matches Some(n) ==> n@ == snapshot_of(self.entities()),
            r matches Some(n) ==> n@.entities.no_duplicates(),
    {
        if self.entities.len() == 0 {
            return None;
        }
        let mut n = NetworkedEntities::new();
        let ghost s = self.entities@;
        proof {
            let e = s.subrange(0, 0);
            assert(n@.entities =~= e.map_values(|e: ServerEntity| e.id));
            assert(n@.translations =~= e.map_values(|e: ServerEntity| e.translation));
            assert(n@.rotations =~= e.map_values(|e: ServerEntity| e.rotation));
        }
        let mut i: usize = 0;
        while i < self.entities.len()
            invariant
                i <= s.len(),
                s == self.entities@,
                n@ == snapshot_of(s.subrange(0, i as int)),
            decreases s.len() - i,
        {
            let e = self.entities[i];
            n.entities.push(e.id);
            n.translations.push(e.translation);
            n.rotations.push(e.rotation);
            proof {
                let a = s.subrange(0, i as int);
                let b = s.subrange(0, i + 1);
                assert(b.map_values(|e: ServerEntity| e.id) =~= a.map_values(|e: ServerEntity| e.id).push(e.id));
                assert(b.map_values(|e: ServerEntity| e.translation) =~= a.map_values(
                    |e: ServerEntity| e.translation,
                ).push(e.translation));
                assert(b.map_values(|e: ServerEntity| e.rotation) =~= a.map_values(
                    |e: ServerEntity| e.rotation,
                ).push(e.rotation));
            }
            i = i + 1;
        }
        proof {
            assert(s.subrange(0, i as int) =~= s);
            let ids = n@.entities;
            assert forall|a: int, b: int| 0 <= a < ids.len() && 0 <= b < ids.len() && a != b implies ids[a]
                != ids[b] by {
                assert(ids[a] == s[a].id && ids[b] == s[b].id);
            }
        }
        Some(n)
    }

    /// Overwrites the transform of entity `id`, as the physics simulation
    /// moves it; the result says whether `id` is live.
    pub fn set_transform(&mut self, id: ServerEntityId, translation: Vec3, rotation: Quat) -> (r: bool)
        requires
            old(self).wf(),
        ensures
            final(self).wf(),
            final(self).ids_left() == old(self).ids_left(),
            !r ==> final(self).entities() == old(self).entities(),
            r <==> exists|i: int| 0 <= i < old(self).entities().len() && (#[trigger] old(self).entities()[i]).id == id,
            r ==> exists|i: int|
                0 <= i < old(self).entities().len() && old(self).entities()[i].id == id
                    && final(self).entities() == old(self).entities().update(
                    i,
                    ServerEntity { translation, rotation, ..old(self).entities()[i] },
                ),
    {
        let i = match self.find_entity(id) {
            Some(i) => i,
            None => {
                return false;
            },
        };
        let e = self.entities[i];
        self.entities.set(i, ServerEntity { translation, rotation, ..e });
        proof {
            self.lemma_wf_update(old(self), i as int);
        }
        true
    }

    /// Advances the snapshot timer by `delta_ms`. When a period has
    /// elapsed, the result is the snapshot to broadcast, or `None` when the
    /// world holds no dynamic entity.
    pub fn sync_tick(&mut self, delta_ms: u64) -> (r: Option<NetworkedEntities>)
        requires
            old(self).wf(),
        ensures
            final(self).wf(),
            final(self).entities() == old(self).entities(),
            final(self).ids_left() == old(self).ids_left(),
            r is Some <==> old(self).sync_elapsed() + delta_ms >= SNAPSHOT_PERIOD_MS && old(
                self,
            ).entities().len() > 0,
            r matches Some(n) ==> n@ == snapshot_of(old(self).entities()),
            r matches Some(n) ==> n@.entities.no_duplicates(),
            final(self).sync_elapsed() == (old(self).sync_elapsed() + delta_ms)
                % (SNAPSHOT_PERIOD_MS as int),
    {
        if self.sync_timer.tick(delta_ms) {
            self.snapshot()
        } else {
            None
        }
    }

    /// Time since the last snapshot period ended.
    pub closed spec fn sync_elapsed(&self) -> u64 {
        self.sync_timer.elapsed()
    }

    /// Decodes an input payload from `client` and applies it. A malformed
    /// payload is dropped; the result says whether an input was applied.
    pub fn receive_input_payload(&mut self, client: PlayerId, bytes: &[u8]) -> (r: bool)
        requires
            old(self).wf(),
        ensures
            final(self).wf(),
            final(self).ids_left() == old(self).ids_left(),
            match decode_client_input_spec(bytes@) {
                None => !r && final(self).entities() == old(self).entities(),
                Some(input) => {
                    &&& r == has_player(old(self).entities(), client)
                    &&& !r ==> final(self).entities() == old(self).entities()
                    &&& r ==> exists|i: int|
                        0 <= i < old(self).entities().len() && is_player_of(
                            old(self).entities()[i],
                            client,
                        ) && final(self).entities() == old(self).entities().update(
                            i,
                            with_input(old(self).entities()[i], input),
                        )
                },
            },
    {
        match decode_client_input(bytes) {
            Some(input) => self.apply_input(client, input),
            None => false,
        }
    }

    /// Spawns a bot: a player avatar at `translation` under the identity
    /// that `bot_id` holds, which then moves on; announced to everyone.
    ///
    /// Fails, changing nothing, when a player already has that identity or
    /// no fresh identity is left.
    pub fn spawn_bot(&mut self, bot_id: &mut BotId, translation: Vec3) -> (r: Result<
        Outgoing,
        ReplicationError,
    >)
        requires
            old(self).wf(),
        ensures
            final(self).wf(),
            has_player(old(self).entities(), old(bot_id).0) ==> r == Err::<
                Outgoing,
                ReplicationError,
            >(ReplicationError::DuplicatePlayer),
            !has_player(old(self).entities(), old(bot_id).0) && (old(self).exhausted()
                || old(bot_id).0 == u64::MAX) ==> r == Err::<Outgoing, ReplicationError>(
                ReplicationError::HandleSpaceExhausted,
            ),
            !has_player(old(self).entities(), old(bot_id).0) && !old(self).exhausted()
                && old(bot_id).0 < u64::MAX ==> r is Ok,
            r is Err ==> final(self).entities() == old(self).entities() && *final(bot_id) == *old(
                bot_id,
            ) && final(self).ids_left() == old(self).ids_left(),
            r is Ok ==> final(self).ids_left() == old(self).ids_left() - 1,
            r matches Ok(out) ==> final(bot_id).0 == old(bot_id).0 + 1 && exists|id: u64|
                {
                    &&& forall|i: int|
                        0 <= i < old(self).entities().len() ==> (#[trigger] old(
                            self,
                        ).entities()[i]).id.0 != id
                    &&& final(self).entities() == old(self).entities().push(
                        new_player_entity(id, old(bot_id).0, translation),
                    )
                    &&& out@ == (
                        Recipient::All,
                        ServerMessagesView::PlayerCreate {
                            id: old(bot_id).0,
                            entity: ServerEntityId(id),
                            translation,
                        },
                    )
                },
    {
        let player = bot_id.0;
        if self.find_player(player).is_some() {
            return Err(ReplicationError::DuplicatePlayer);
        }
        if self.next_entity == u64::MAX || player == u64::MAX {
            return Err(ReplicationError::HandleSpaceExhausted);
        }
        bot_id.0 = player + 1;
        let input = PlayerInput { up: false, down: false, left: false, right: false, interact: false };
        let entity = self.push_entity(ServerEntityKind::Player { id: player, input }, translation);
        let out = Outgoing {
            to: Recipient::All,
            message: ServerMessages::PlayerCreate { id: player, entity, translation },
        };
        proof {
            let id = entity.0;
            assert(forall|i: int|
                0 <= i < old(self).entities().len() ==> (#[trigger] old(self).entities()[i]).id.0
                    != id);
            assert(self.entities@ == old(self).entities@.push(new_player_entity(id, player, translation)));
        }
        Ok(out)
    }

    /// Registers an equippable item of the world, held by nobody.
    pub fn add_item(&mut self, entity: ServerEntityId, name: String, model_path: String)
        requires
            old(self).wf(),
        ensures
            final(self).wf(),
            final(self).entities() == old(self).entities(),
            final(self).ids_left() == old(self).ids_left(),
            final(self).items() == old(self).items().push(ItemInfo { entity, name, model_path }),
            final(self).holders() == old(self).holders().push(None),
    {
        self.items.push(ItemInfo { entity, name, model_path });
        self.holders.push(None);
    }

    /// Position of item `item` among the registered items, if any.
    fn find_item(&self, item: ServerEntityId) -> (r: Option<usize>)
        ensures
            r matches Some(i) ==> i < self.items@.len() && self.items@[i as int].entity == item,
            r matches Some(i) ==> forall|j: int|
                0 <= j < i ==> (#[trigger] self.items@[j]).entity != item,
            r is None ==> forall|j: int|
                0 <= j < self.items@.len() ==> (#[trigger] self.items@[j]).entity != item,
    {
        let mut i: usize = 0;
        while i < self.items.len()
            invariant
                i <= self.items@.len(),
                forall|j: int| 0 <= j < i ==> (#[trigger] self.items@[j]).entity != item,
            decreases self.items@.len() - i,
        {
            if self.items[i].entity.0 == item.0 {
                return Some(i);
            }
            i = i + 1;
        }
        None
    }

    /// Whether player `p` holds some item.
    fn holds_something(&self, p: PlayerId) -> (r: bool)
        ensures
            r == self.holders@.contains(Some(p)),
    {
        let mut i: usize = 0;
        while i < self.holders.len()
            invariant
                i <= self.holders@.len(),
                forall|j: int| 0 <= j < i ==> self.holders@[j] != Some(p),
            decreases self.holders@.len() - i,
        {
            if let Some(h) = self.holders[i] {
                if h == p {
                    proof {
                        assert(self.holders@[i as int] == Some(p));
                    }
                    return true;
                }
            }
            i = i + 1;
        }
        false
    }

    /// An equip request from `client` for `item`: granted when `client` has
    /// an avatar and holds nothing, and the item is registered and held by
    /// nobody; the grant is announced to everyone.
    pub fn request_equip(&mut self, client: PlayerId, item: ServerEntityId) -> (r: Option<Outgoing>)
        requires
            old(self).wf(),
        ensures
            final(self).wf(),
            final(self).entities() == old(self).entities(),
            final(self).ids_left() == old(self).ids_left(),
            final(self).items() == old(self).items(),
            r is Some <==> has_player(old(self).entities(), client) && !old(self).holders().contains(
                Some(client),
            ) && exists|i: int|
                0 <= i < old(self).items().len() && old(self).items()[i].entity == item && old(
                    self,
                ).holders()[i] is None && (forall|j: int|
                    0 <= j < i ==> (#[trigger] old(self).items()[j]).entity != item),
            r is None ==> final(self).holders() == old(self).holders(),
            r matches Some(out) ==> exists|i: int|
                0 <= i < old(self).items().len() && old(self).items()[i].entity == item
                    && final(self).holders() == old(self).holders().update(i, Some(client))
                    && out@ == (
                    Recipient::All,
                    ServerMessagesView::EquipItem {
                        id: client,
                        item_entity: item,
                        item_name: old(self).items()[i].name@,
                        model_path: old(self).items()[i].model_path@,
                    },
                ),
    {
        if self.find_player(client).is_none() || self.holds_something(client) {
            return None;
        }
        let i = match self.find_item(item) {
            Some(i) => i,
            None => {
                return None;
            },
        };
        if self.holders[i].is_some() {
            proof {
                assert forall|k: int|
                    0 <= k < old(self).items().len() && old(self).items()[k].entity == item && old(
                        self,
                    ).holders()[k] is None implies !(forall|j: int|
                    0 <= j < k ==> (#[trigger] old(self).items()[j]).entity != item) by {
                    if k > i {
                        assert(old(self).items()[i as int].entity == item);
                    }
                }
            }
            return None;
        }
        self.holders.set(i, Some(client));
        let name = self.items[i].name.clone();
        let model_path = self.items[i].model_path.clone();
        let out = Outgoing {
            to: Recipient::All,
            message: ServerMessages::EquipItem { id: client, item_entity: item, item_name: name, model_path },
        };
        proof {
            let k = i as int;
            assert(0 <= k < old(self).items().len() && old(self).items()[k].entity == item && old(
                self,
            ).holders()[k] is None && (forall|j: int|
                0 <= j < k ==> (#[trigger] old(self).items()[j]).entity != item));
            assert(out@ == (
                Recipient::All,
                ServerMessagesView::EquipItem {
                    id: client,
                    item_entity: item,
                    item_name: old(self).items()[k].name@,
                    model_path: old(self).items()[k].model_path@,
                },
            ));
        }
        Some(out)
    }

    /// An unequip request from `client`: when it holds an item, the item is
    /// released and the release announced to everyone.
    pub fn request_unequip(&mut self, client: PlayerId) -> (r: Option<Outgoing>)
        requires
            old(self).wf(),
        ensures
            final(self).wf(),
            final(self).entities() == old(self).entities(),
            final(self).ids_left() == old(self).ids_left(),
            final(self).items() == old(self).items(),
            r is Some <==> old(self).holders().contains(Some(client)),
            r is None ==> final(self).holders() == old(self).holders(),
            r matches Some(out) ==> out@ == (Recipient::All, ServerMessagesView::UnequipItem {
                id: client,
            }) && exists|i: int|
                0 <= i < old(self).holders().len() && old(self).holders()[i] == Some(client)
                    && final(self).holders() == old(self).holders().update(i, None),
    {
        let mut i: usize = 0;
        while i < self.holders.len()
            invariant
                i <= self.holders@.len(),
                self.holders@ == old(self).holders@,
                old(self).wf(),
                self.entities@ == old(self).entities@,
                self.items@ == old(self).items@,
                self.next_entity == old(self).next_entity,
                self.sync_timer == old(self).sync_timer,
                forall|j: int| 0 <= j < i ==> self.holders@[j] != Some(client),
            decreases self.holders@.len() - i,
        {
            if let Some(h) = self.holders[i] {
                if h == client {
                    self.holders.set(i, None);
                    return Some(
                        Outgoing {
                            to: Recipient::All,
                            message: ServerMessages::UnequipItem { id: client },
                        },
                    );
                }
            }
            i = i + 1;
        }
        None
    }

    /// Destroys projectile `id`, whatever the reason, and announces its
    /// removal to everyone. Anything else, or an identity that is not live,
    /// is left alone.
    pub fn despawn_projectile(&mut self, id: ServerEntityId) -> (r: Option<Outgoing>)
        requires
            old(self).wf(),
        ensures
            final(self).wf(),
            final(self).ids_left() == old(self).ids_left(),
            r is Some <==> exists|i: int|
                0 <= i < old(self).entities().len() && (#[trigger] old(self).entities()[i]).id == id
                    && old(self).entities()[i].kind is Projectile,
            r is None ==> final(self).entities() == old(self).entities(),
            r matches Some(out) ==> out@ == (
                Recipient::All,
                ServerMessagesView::DespawnProjectile { entity: id },
            ) && exists|i: int|
                0 <= i < old(self).entities().len() && old(self).entities()[i].id == id
                    && final(self).entities() == old(self).entities().remove(i),
    {
        let i = match self.find_entity(id) {
            Some(i) => i,
            None => {
                return None;
            },
        };
        let projectile = match self.entities[i].kind {
            ServerEntityKind::Projectile { .. } => true,
            ServerEntityKind::Player { .. } => false,
        };
        if !projectile {
            proof {
                assert forall|k: int|
                    0 <= k < old(self).entities().len() && (#[trigger] old(self).entities()[k]).id
                        == id implies !(old(self).entities()[k].kind is Projectile) by {
                    if k != i {
                        assert(old(self).entities@[k].id != old(self).entities@[i as int].id);
                    }
                }
            }
            return None;
        }
        self.entities.remove(i);
        proof {
            self.lemma_wf_remove(old(self), i as int);
        }
        Some(Outgoing { to: Recipient::All, message: ServerMessages::DespawnProjectile { entity: id } })
    }

    /// A connection was established: catch-up creation events for every
    /// live entity go to the new connection alone, then its own avatar is
    /// created at the spawn point and announced to everyone.
    ///
    /// Fails, changing nothing, when the player already has an avatar or no
    /// fresh entity identity is left.
    pub fn client_connected(&mut self, client: PlayerId) -> (r: Result<Vec<Outgoing>, ReplicationError>)
        requires
            old(self).wf(),
        ensures
            final(self).wf(),
            has_player(old(self).entities(), client) ==> r == Err::<Vec<Outgoing>, ReplicationError>(
                ReplicationError::DuplicatePlayer,
            ),
            !has_player(old(self).entities(), client) && old(self).exhausted() ==> r == Err::<
                Vec<Outgoing>,
                ReplicationError,
            >(ReplicationError::HandleSpaceExhausted),
            !has_player(old(self).entities(), client) && !old(self).exhausted() ==> r is Ok,
            r is Err ==> final(self).entities() == old(self).entities() && final(self).ids_left()
                == old(self).ids_left(),
            r is Ok ==> final(self).ids_left() == old(self).ids_left() - 1,
            r matches Ok(out) ==> exists|id: u64|
                {
                    &&& forall|i: int|
                        0 <= i < old(self).entities().len() ==> (#[trigger] old(
                            self,
                        ).entities()[i]).id.0 != id
                    &&& final(self).entities() == old(self).entities().push(
                        new_player_entity(id, client, spawn_point()),
                    )
                    &&& views(out@) == catch_up(old(self).entities(), client).push(
                        (
                            Recipient::All,
                            ServerMessagesView::PlayerCreate {
                                id: client,
                                entity: ServerEntityId(id),
                                translation: spawn_point(),
                            },
                        ),
                    )
                },
    {
        if self.find_player(client).is_some() {
            return Err(ReplicationError::DuplicatePlayer);
        }
        if self.next_entity == u64::MAX {
            return Err(ReplicationError::HandleSpaceExhausted);
        }
        let mut out: Vec<Outgoing> = Vec::new();
        let mut i: usize = 0;
        while i < self.entities.len()
            invariant
                i <= self.entities@.len(),
                self.entities@ == old(self).entities@,
                views(out@) == catch_up(self.entities@.subrange(0, i as int), client),
            decreases self.entities@.len() - i,
        {
            let e = self.entities[i];
            let ghost before = out@;
            let message = match e.kind {
                ServerEntityKind::Player { id, .. } => ServerMessages::PlayerCreate {
                    id,
                    entity: e.id,
                    translation: e.translation,
                },
                ServerEntityKind::Projectile { .. } => ServerMessages::SpawnProjectile {
                    entity: e.id,
                    translation: e.translation,
                },
            };
            out.push(Outgoing { to: Recipient::One(client), message });
            proof {
                assert(views(out@) =~= views(before).push(out@.last()@));
            }
            proof {
                let sub = self.entities@.subrange(0, i + 1);
                assert(sub.drop_last() =~= self.entities@.subrange(0, i as int));
                assert(views(out@) =~= catch_up(sub, client));
            }
            i = i + 1;
        }
        proof {
            assert(self.entities@.subrange(0, i as int) =~= self.entities@);
        }
        let translation = Vec3::new(F32_ZERO, F32_TWO, F32_ZERO);
        let input = PlayerInput { up: false, down: false, left: false, right: false, interact: false };
        let entity = self.push_entity(ServerEntityKind::Player { id: client, input }, translation);
        let ghost before = out@;
        out.push(
            Outgoing {
                to: Recipient::All,
                message: ServerMessages::PlayerCreate { id: client, entity, translation },
            },
        );
        proof {
            assert(views(out@) =~= views(before).push(out@.last()@));
            assert(self.entities@ == old(self).entities@.push(
                new_player_entity(entity.0, client, spawn_point()),
            ));
        }
        Ok(out)
    }
}

} // verus!
