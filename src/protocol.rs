//! Message schemas and channel configuration.
use vstd::prelude::*;

use crate::ids::{PlayerId, Quat, ServerEntityId, Vec3};

verus! {

/// How a channel delivers what is sent on it.
#[derive(Clone, Copy, PartialEq, Eq, Structural, Debug)]
pub enum Delivery {
    /// In order, exactly once; retried by the transport until acknowledged.
    ReliableOrdered,
    /// Best effort: messages may be lost, duplicated or reordered.
    Unreliable,
}

/// Transport parameters of one logical channel.
#[derive(Clone, Copy, PartialEq, Eq, Structural, Debug)]
pub struct ChannelConfig {
    pub channel_id: u8,
    pub delivery: Delivery,
    pub max_memory_usage_bytes: usize,
    /// Retransmission interval of a reliable channel, in milliseconds.
    pub resend_time_ms: u64,
}

/// Memory that each channel may hold for unsent or unacknowledged messages.
pub const CHANNEL_MEMORY_BYTES: usize = 5242880;

/// Retransmission interval of reliable channels, in milliseconds.
pub const RESEND_TIME_MS: u64 = 300;

/// Channels from the server to the clients.
#[derive(Clone, Copy, PartialEq, Eq, Structural, Debug)]
pub enum ServerChannel {
    /// Structural world changes: creation, removal, equipment.
    ServerMessages,
    /// Periodic snapshots of the dynamic entities.
    NetworkedEntities,
}

/// Channels from a client to the server.
#[derive(Clone, Copy, PartialEq, Eq, Structural, Debug)]
pub enum ClientChannel {
    /// Discrete commands such as attacks.
    Command,
    /// Continuous input that a newer report supersedes.
    Input,
    /// Discrete input that must arrive: interaction and equipment requests.
    Action,
}

impl ServerChannel {
    pub open spec fn spec_id(self) -> u8 {
        match self {
            ServerChannel::ServerMessages => 0,
            ServerChannel::NetworkedEntities => 1,
        }
    }

    pub open spec fn spec_delivery(self) -> Delivery {
        match self {
            ServerChannel::ServerMessages => Delivery::ReliableOrdered,
            ServerChannel::NetworkedEntities => Delivery::Unreliable,
        }
    }

    /// The transport's identifier of the channel.
    pub fn id(self) -> (r: u8)
        ensures
            r == self.spec_id(),
    {
        match self {
            ServerChannel::ServerMessages => 0,
            ServerChannel::NetworkedEntities => 1,
        }
    }

    /// The channel's transport parameters.
    pub fn config(self) -> (r: ChannelConfig)
        ensures
            r.channel_id == self.spec_id(),
            r.delivery == self.spec_delivery(),
            r.max_memory_usage_bytes == CHANNEL_MEMORY_BYTES,
            r.resend_time_ms == RESEND_TIME_MS,
    {
        let delivery = match self {
            ServerChannel::ServerMessages => Delivery::ReliableOrdered,
            ServerChannel::NetworkedEntities => Delivery::Unreliable,
        };
        ChannelConfig {
            channel_id: self.id(),
            delivery,
            max_memory_usage_bytes: CHANNEL_MEMORY_BYTES,
            resend_time_ms: RESEND_TIME_MS,
        }
    }

    /// All server channels, in identifier order.
    pub fn channels_config() -> (r: Vec<ChannelConfig>)
        ensures
            r@.len() == 2,
            r@[0] == ServerChannel::ServerMessages.config_spec(),
            r@[1] == ServerChannel::NetworkedEntities.config_spec(),
    {
        let mut v: Vec<ChannelConfig> = Vec::new();
        v.push(ServerChannel::ServerMessages.config());
        v.push(ServerChannel::NetworkedEntities.config());
        v
    }

    pub open spec fn config_spec(self) -> ChannelConfig {
        ChannelConfig {
            channel_id: self.spec_id(),
            delivery: self.spec_delivery(),
            max_memory_usage_bytes: CHANNEL_MEMORY_BYTES,
            resend_time_ms: RESEND_TIME_MS,
        }
    }
}

impl ClientChannel {
    pub open spec fn spec_id(self) -> u8 {
        match self {
            ClientChannel::Command => 0,
            ClientChannel::Input => 1,
            ClientChannel::Action => 2,
        }
    }

    pub open spec fn spec_delivery(self) -> Delivery {
        match self {
            ClientChannel::Command => Delivery::ReliableOrdered,
            ClientChannel::Input => Delivery::Unreliable,
            ClientChannel::Action => Delivery::ReliableOrdered,
        }
    }

    pub open spec fn config_spec(self) -> ChannelConfig {
        ChannelConfig {
            channel_id: self.spec_id(),
            delivery: self.spec_delivery(),
            max_memory_usage_bytes: CHANNEL_MEMORY_BYTES,
            resend_time_ms: RESEND_TIME_MS,
        }
    }

    /// The transport's identifier of the channel.
    pub fn id(self) -> (r: u8)
        ensures
            r == self.spec_id(),
    {
        match self {
            ClientChannel::Command => 0,
            ClientChannel::Input => 1,
            ClientChannel::Action => 2,
        }
    }

    /// The channel's transport parameters.
    pub fn config(self) -> (r: ChannelConfig)
        ensures
            r == self.config_spec(),
    {
        let delivery = match self {
            ClientChannel::Command => Delivery::ReliableOrdered,
            ClientChannel::Input => Delivery::Unreliable,
            ClientChannel::Action => Delivery::ReliableOrdered,
        };
        ChannelConfig {
            channel_id: self.id(),
            delivery,
            max_memory_usage_bytes: CHANNEL_MEMORY_BYTES,
            resend_time_ms: RESEND_TIME_MS,
        }
    }

    /// All client channels, in identifier order.
    pub fn channels_config() -> (r: Vec<ChannelConfig>)
        ensures
            r@ == seq![
                ClientChannel::Command.config_spec(),
                ClientChannel::Input.config_spec(),
                ClientChannel::Action.config_spec(),
            ],
    {
        let mut v: Vec<ChannelConfig> = Vec::new();
        v.push(ClientChannel::Command.config());
        v.push(ClientChannel::Input.config());
        v.push(ClientChannel::Action.config());
        assert(v@ =~= seq![
            ClientChannel::Command.config_spec(),
            ClientChannel::Input.config_spec(),
            ClientChannel::Action.config_spec(),
        ]);
        v
    }
}

/// The movement keys that a client holds down.
#[derive(Clone, Copy, PartialEq, Eq, Structural, Debug)]
pub struct PlayerInput {
    pub up: bool,
    pub down: bool,
    pub left: bool,
    pub right: bool,
    pub interact: bool,
}

impl Default for PlayerInput {
    /// No key held.
    fn default() -> (r: PlayerInput)
        ensures
            r == (PlayerInput { up: false, down: false, left: false, right: false, interact: false }),
    {
        PlayerInput { up: false, down: false, left: false, right: false, interact: false }
    }
}

/// Reliable-ordered events from the server.
#[derive(Debug)]
pub enum ServerMessages {
    PlayerCreate { id: PlayerId, entity: ServerEntityId, translation: Vec3 },
    PlayerRemove { id: PlayerId },
    SpawnProjectile { entity: ServerEntityId, translation: Vec3 },
    DespawnProjectile { entity: ServerEntityId },
    EquipItem { id: PlayerId, item_entity: ServerEntityId, item_name: String, model_path: String },
    UnequipItem { id: PlayerId },
}

/// The mathematical value of a `ServerMessages`: strings as their characters.
pub enum ServerMessagesView {
    PlayerCreate { id: PlayerId, entity: ServerEntityId, translation: Vec3 },
    PlayerRemove { id: PlayerId },
    SpawnProjectile { entity: ServerEntityId, translation: Vec3 },
    DespawnProjectile { entity: ServerEntityId },
    EquipItem {
        id: PlayerId,
        item_entity: ServerEntityId,
        item_name: Seq<char>,
        model_path: Seq<char>,
    },
    UnequipItem { id: PlayerId },
}

impl View for ServerMessages {
    type V = ServerMessagesView;

    open spec fn view(&self) -> ServerMessagesView {
        match self {
            ServerMessages::PlayerCreate { id, entity, translation } => ServerMessagesView::PlayerCreate {
                id: *id,
                entity: *entity,
                translation: *translation,
            },
            ServerMessages::PlayerRemove { id } => ServerMessagesView::PlayerRemove { id: *id },
            ServerMessages::SpawnProjectile { entity, translation } => ServerMessagesView::SpawnProjectile {
                entity: *entity,
                translation: *translation,
            },
            ServerMessages::DespawnProjectile { entity } => ServerMessagesView::DespawnProjectile {
                entity: *entity,
            },
            ServerMessages::EquipItem { id, item_entity, item_name, model_path } => ServerMessagesView::EquipItem {
                id: *id,
                item_entity: *item_entity,
                item_name: item_name@,
                model_path: model_path@,
            },
            ServerMessages::UnequipItem { id } => ServerMessagesView::UnequipItem { id: *id },
        }
    }
}

/// One snapshot: parallel arrays, entry `i` of each describing one entity.
#[derive(Debug)]
pub struct NetworkedEntities {
    pub entities: Vec<ServerEntityId>,
    pub translations: Vec<Vec3>,
    pub rotations: Vec<Quat>,
}

/// The mathematical value of a snapshot.
pub struct NetworkedEntitiesView {
    pub entities: Seq<ServerEntityId>,
    pub translations: Seq<Vec3>,
    pub rotations: Seq<Quat>,
}

impl View for NetworkedEntities {
    type V = NetworkedEntitiesView;

    open spec fn view(&self) -> NetworkedEntitiesView {
        NetworkedEntitiesView {
            entities: self.entities@,
            translations: self.translations@,
            rotations: self.rotations@,
        }
    }
}

impl NetworkedEntities {
    /// An empty snapshot.
    pub fn new() -> (r: NetworkedEntities)
        ensures
            r@.entities.len() == 0,
            r@.translations.len() == 0,
            r@.rotations.len() == 0,
    {
        NetworkedEntities { entities: Vec::new(), translations: Vec::new(), rotations: Vec::new() }
    }
}

/// Input reports and requests from a client.
#[derive(Clone, Copy, PartialEq, Eq, Structural, Debug)]
pub enum ClientInput {
    Movement(PlayerInput),
    Rotation(Quat),
    Position(Vec3),
    Interact,
    EquipItem { item_entity: ServerEntityId },
    UnequipItem,
}

impl ClientInput {
    pub open spec fn spec_channel(self) -> ClientChannel {
        match self {
            ClientInput::Movement(_) | ClientInput::Rotation(_) | ClientInput::Position(_) => ClientChannel::Input,
            _ => ClientChannel::Action,
        }
    }

    /// The channel the input travels on: continuous reports unreliably,
    /// discrete requests reliably.
    pub fn channel(&self) -> (r: ClientChannel)
        ensures
            r == self.spec_channel(),
    {
        match self {
            ClientInput::Movement(_) | ClientInput::Rotation(_) | ClientInput::Position(_) => ClientChannel::Input,
            _ => ClientChannel::Action,
        }
    }
}

/// Discrete commands from a client.
#[derive(Clone, Copy, PartialEq, Eq, Structural, Debug)]
pub enum PlayerCommand {
    BasicAttack { cast_at: Vec3 },
}

} // verus!
