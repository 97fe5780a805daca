//! The client's outbound input policy: which reports go out, and when.
use vstd::prelude::*;

use crate::ids::{Quat, ServerEntityId, Vec3};
use crate::protocol::{ClientInput, PlayerInput};
use crate::timing::{RateLimiter, INPUT_INTERVAL_MS, INTERACT_INTERVAL_MS};

verus! {

/// Rate limits of the reports a client sends: movement keys, rotation and
/// position at most 20 times per second each, the interaction trigger at
/// most once per half second.
pub struct InputSender {
    pub movement: RateLimiter,
    pub rotation: RateLimiter,
    pub position: RateLimiter,
    pub interact: RateLimiter,
}

impl InputSender {
    pub open spec fn wf(&self) -> bool {
        &&& self.movement.min_interval() == INPUT_INTERVAL_MS
        &&& self.rotation.min_interval() == INPUT_INTERVAL_MS
        &&& self.position.min_interval() == INPUT_INTERVAL_MS
        &&& self.interact.min_interval() == INTERACT_INTERVAL_MS
    }

    pub fn new() -> (r: InputSender)
        ensures
            r.wf(),
            r.movement.last() == 0 && r.rotation.last() == 0 && r.position.last() == 0
                && r.interact.last() == 0,
    {
        InputSender {
            movement: RateLimiter::new(INPUT_INTERVAL_MS),
            rotation: RateLimiter::new(INPUT_INTERVAL_MS),
            position: RateLimiter::new(INPUT_INTERVAL_MS),
            interact: RateLimiter::new(INTERACT_INTERVAL_MS),
        }
    }

    /// The movement report at `now_ms`: the keys held, while connected and
    /// when the rate limit lets it through.
    pub fn movement_report(&mut self, now_ms: u64, keys: PlayerInput, connected: bool) -> (r: Option<
        ClientInput,
    >)
        requires
            old(self).wf(),
        ensures
            final(self).wf(),
            final(self).rotation == old(self).rotation,
            final(self).position == old(self).position,
            final(self).interact == old(self).interact,
            !connected ==> r is None && final(self).movement == old(self).movement,
            connected ==> {
                let allowed = now_ms > old(self).movement.last() && now_ms - old(self).movement.last()
                    > INPUT_INTERVAL_MS;
                &&& r == (if allowed {
                    Some(ClientInput::Movement(keys))
                } else {
                    None
                })
                &&& final(self).movement.last() == (if allowed {
                    now_ms
                } else {
                    old(self).movement.last()
                })
            },
    {
        if connected && self.movement.try_acquire(now_ms) {
            Some(ClientInput::Movement(keys))
        } else {
            None
        }
    }

    /// The rotation report at `now_ms`, when the view turned, the client is
    /// connected and the rate limit lets it through.
    pub fn rotation_report(&mut self, now_ms: u64, rotation: Quat, turned: bool, connected: bool) -> (r:
        Option<ClientInput>)
        requires
            old(self).wf(),
        ensures
            final(self).wf(),
            final(self).movement == old(self).movement,
            final(self).position == old(self).position,
            final(self).interact == old(self).interact,
            !(turned && connected) ==> r is None && final(self).rotation == old(self).rotation,
            turned && connected ==> {
                let allowed = now_ms > old(self).rotation.last() && now_ms - old(self).rotation.last()
                    > INPUT_INTERVAL_MS;
                &&& r == (if allowed {
                    Some(ClientInput::Rotation(rotation))
                } else {
                    None
                })
                &&& final(self).rotation.last() == (if allowed {
                    now_ms
                } else {
                    old(self).rotation.last()
                })
            },
    {
        if turned && connected && self.rotation.try_acquire(now_ms) {
            Some(ClientInput::Rotation(rotation))
        } else {
            None
        }
    }

    /// The position report at `now_ms`, when the avatar moved, the client is
    /// connected and the rate limit lets it through.
    pub fn position_report(&mut self, now_ms: u64, translation: Vec3, moved: bool, connected: bool) -> (r:
        Option<ClientInput>)
        requires
            old(self).wf(),
        ensures
            final(self).wf(),
            final(self).movement == old(self).movement,
            final(self).rotation == old(self).rotation,
            final(self).interact == old(self).interact,
            !(moved && connected) ==> r is None && final(self).position == old(self).position,
            moved && connected ==> {
                let allowed = now_ms > old(self).position.last() && now_ms - old(self).position.last()
                    > INPUT_INTERVAL_MS;
                &&& r == (if allowed {
                    Some(ClientInput::Position(translation))
                } else {
                    None
                })
                &&& final(self).position.last() == (if allowed {
                    now_ms
                } else {
                    old(self).position.last()
                })
            },
    {
        if moved && connected && self.position.try_acquire(now_ms) {
            Some(ClientInput::Position(translation))
        } else {
            None
        }
    }

    /// The interaction trigger at `now_ms`, while the key is held and the
    /// rate limit lets it through.
    pub fn interact_report(&mut self, now_ms: u64, pressed: bool) -> (r: Option<ClientInput>)
        requires
            old(self).wf(),
        ensures
            final(self).wf(),
            final(self).movement == old(self).movement,
            final(self).rotation == old(self).rotation,
            final(self).position == old(self).position,
            !pressed ==> r is None && final(self).interact == old(self).interact,
            pressed ==> {
                let allowed = now_ms > old(self).interact.last() && now_ms - old(self).interact.last()
                    > INTERACT_INTERVAL_MS;
                &&& r == (if allowed {
                    Some(ClientInput::Interact)
                } else {
                    None
                })
                &&& final(self).interact.last() == (if allowed {
                    now_ms
                } else {
                    old(self).interact.last()
                })
            },
    {
        if pressed && self.interact.try_acquire(now_ms) {
            Some(ClientInput::Interact)
        } else {
            None
        }
    }
}

/// The client's own equipment: which item, if any, its player holds.
pub struct Equipment {
    pub equipped: Option<ServerEntityId>,
    pub limiter: RateLimiter,
}

impl Equipment {
    pub open spec fn wf(&self) -> bool {
        self.limiter.min_interval() == INTERACT_INTERVAL_MS
    }

    /// Nothing held.
    pub fn new() -> (r: Equipment)
        ensures
            r.wf(),
            r.equipped is None,
            r.limiter.last() == 0,
    {
        Equipment { equipped: None, limiter: RateLimiter::new(INTERACT_INTERVAL_MS) }
    }

    /// The interaction key at `now_ms`, with `candidate` the closest item in
    /// reach, if any: when the rate limit lets the press through, a held
    /// item is let go, or else the candidate is taken. The result is the
    /// request to send, while connected.
    pub fn toggle(&mut self, now_ms: u64, pressed: bool, candidate: Option<ServerEntityId>, connected: bool) -> (r:
        Option<ClientInput>)
        requires
            old(self).wf(),
        ensures
            final(self).wf(),
            !pressed ==> r is None && final(self).equipped == old(self).equipped
                && final(self).limiter == old(self).limiter,
            pressed ==> {
                let allowed = now_ms > old(self).limiter.last() && now_ms - old(self).limiter.last()
                    > INTERACT_INTERVAL_MS;
                &&& final(self).limiter.last() == (if allowed {
                    now_ms
                } else {
                    old(self).limiter.last()
                })
                &&& !allowed ==> r is None && final(self).equipped == old(self).equipped
                &&& allowed && old(self).equipped is Some ==> final(self).equipped is None && r == (
                    if connected {
                        Some(ClientInput::UnequipItem)
                    } else {
                        None
                    })
                &&& allowed && old(self).equipped is None ==> final(self).equipped == candidate
                    && r == (match candidate {
                    Some(item) => if connected {
                        Some(ClientInput::EquipItem { item_entity: item })
                    } else {
                        None
                    },
                    None => None,
                })
            },
    {
        if !pressed || !self.limiter.try_acquire(now_ms) {
            return None;
        }
        let request = match self.equipped {
            Some(_) => {
                self.equipped = None;
                ClientInput::UnequipItem
            },
            None => match candidate {
                Some(item) => {
                    self.equipped = Some(item);
                    ClientInput::EquipItem { item_entity: item }
                },
                None => {
                    return None;
                },
            },
        };
        if connected {
            Some(request)
        } else {
            None
        }
    }
}

} // verus!
