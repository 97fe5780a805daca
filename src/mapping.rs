//! The identity mapping table: one per client, from server entity identities
//! to the client's own local handles.
use std::collections::HashMap;
use vstd::prelude::*;

use crate::ids::{ClientEntityId, ReplicationError, ServerEntityId};

verus! {

broadcast use vstd::std_specs::hash::group_hash_axioms;

/// What resolving a server identity against a table gives.
pub open spec fn lookup(m: Map<u64, u64>, server: u64) -> Option<ClientEntityId> {
    if m.contains_key(server) {
        Some(ClientEntityId(m[server]))
    } else {
        None
    }
}

/// No two server identities share a local handle.
pub open spec fn is_injective(m: Map<u64, u64>) -> bool {
    forall|a: u64, b: u64|
        #![trigger m[a], m[b]]
        m.contains_key(a) && m.contains_key(b) && a != b ==> m[a] != m[b]
}

/// The bijective map from server entity identities to local handles.
///
/// The table also hands out the local handles, so that a handle is never
/// given out twice while the table lives.
pub struct NetworkMapping {
    table: HashMap<u64, u64>,
    next_handle: u64,
}

impl View for NetworkMapping {
    type V = Map<u64, u64>;

    closed spec fn view(&self) -> Map<u64, u64> {
        self.table@
    }
}

impl NetworkMapping {
    /// Every handle in the table was handed out before the next one.
    pub closed spec fn wf(&self) -> bool {
        &&& forall|k: u64| #[trigger] self.table@.contains_key(k) ==> self.table@[k] < self.next_handle
        &&& is_injective(self.table@)
    }

    /// How many fresh handles are left to hand out.
    pub closed spec fn handles_left(&self) -> nat {
        (u64::MAX - self.next_handle) as nat
    }

    /// No fresh handle is left to hand out.
    pub open spec fn exhausted(&self) -> bool {
        self.handles_left() == 0
    }

    /// A well-formed table never maps two server identities to one handle.
    pub proof fn lemma_wf_injective(&self)
        requires
            self.wf(),
        ensures
            is_injective(self@),
    {
    }

    /// An empty table, as created at connection time.
    pub fn new() -> (r: NetworkMapping)
        ensures
            r.wf(),
            r@ == Map::<u64, u64>::empty(),
            r.handles_left() == u64::MAX,
    {
        NetworkMapping { table: HashMap::new(), next_handle: 0 }
    }

    /// Number of tracked server identities.
    pub fn len(&self) -> (r: usize)
        ensures
            r == self@.len(),
    {
        self.table.len()
    }

    /// Looks up the local handle of `server`; absence means "not tracked".
    pub fn resolve(&self, server: ServerEntityId) -> (r: Option<ClientEntityId>)
        ensures
            r == lookup(self@, server.0),
    {
        match self.table.get(&server.0) {
            Some(c) => Some(ClientEntityId(*c)),
            None => None,
        }
    }

    /// Creates a fresh local handle for `server` and records the pair.
    ///
    /// Fails with `DuplicateRegistration` when `server` is already tracked,
    /// and with `HandleSpaceExhausted` when no fresh handle is left; the
    /// table is then unchanged.
    pub fn register(&mut self, server: ServerEntityId) -> (r: Result<ClientEntityId, ReplicationError>)
        requires
            old(self).wf(),
        ensures
            final(self).wf(),
            old(self)@.contains_key(server.0) ==> r == Err::<ClientEntityId, ReplicationError>(
                ReplicationError::DuplicateRegistration,
            ),
            !old(self)@.contains_key(server.0) && old(self).exhausted() ==> r == Err::<
                ClientEntityId,
                ReplicationError,
            >(ReplicationError::HandleSpaceExhausted),
            !old(self)@.contains_key(server.0) && !old(self).exhausted() ==> r is Ok,
            r is Err ==> final(self)@ == old(self)@ && final(self).handles_left() == old(self).handles_left(),
            r is Ok ==> final(self).handles_left() == old(self).handles_left() - 1,
            r matches Ok(c) ==> {
                &&& final(self)@ == old(self)@.insert(server.0, c.0)
                &&& forall|k: u64| #[trigger] old(self)@.contains_key(k) ==> old(self)@[k] != c.0
            },
    {
        if self.table.contains_key(&server.0) {
            return Err(ReplicationError::DuplicateRegistration);
        }
        if self.next_handle == u64::MAX {
            return Err(ReplicationError::HandleSpaceExhausted);
        }
        let handle = self.next_handle;
        self.table.insert(server.0, handle);
        self.next_handle = handle + 1;
        proof {
            let t = self.table@;
            assert forall|a: u64, b: u64|
                #![trigger t[a], t[b]]
                t.contains_key(a) && t.contains_key(b) && a != b implies t[a] != t[b] by {
                if a != server.0 && b != server.0 {
                    assert(old(self).table@[a] == t[a] && old(self).table@[b] == t[b]);
                }
            }
        }
        Ok(ClientEntityId(handle))
    }

    /// Removes the pair of `server` and returns its local handle, so that the
    /// caller can destroy the local object. An absent key is a no-op.
    pub fn unregister(&mut self, server: ServerEntityId) -> (r: Option<ClientEntityId>)
        requires
            old(self).wf(),
        ensures
            final(self).wf(),
            final(self)@ == old(self)@.remove(server.0),
            r == lookup(old(self)@, server.0),
            final(self).handles_left() == old(self).handles_left(),
    {
        let r = match self.table.remove(&server.0) {
            Some(c) => Some(ClientEntityId(c)),
            None => None,
        };
        proof {
            let t = self.table@;
            assert forall|a: u64, b: u64|
                #![trigger t[a], t[b]]
                t.contains_key(a) && t.contains_key(b) && a != b implies t[a] != t[b] by {
                assert(old(self).table@[a] == t[a] && old(self).table@[b] == t[b]);
            }
        }
        r
    }
}

/// One successful call on a mapping table, as seen from outside.
pub enum MappingCall {
    /// `register(server)` that returned `Ok(handle)`.
    Register { server: u64, handle: u64 },
    /// `unregister(server)`.
    Unregister { server: u64 },
}

/// The table after one call.
pub open spec fn after_call(m: Map<u64, u64>, call: MappingCall) -> Map<u64, u64> {
    match call {
        MappingCall::Register { server, handle } => m.insert(server, handle),
        MappingCall::Unregister { server } => m.remove(server),
    }
}

/// The table after a sequence of calls, first to last.
pub open spec fn after_calls(m: Map<u64, u64>, calls: Seq<MappingCall>) -> Map<u64, u64>
    decreases calls.len(),
{
    if calls.len() == 0 {
        m
    } else {
        after_calls(after_call(m, calls[0]), calls.drop_first())
    }
}

/// The server identity that a call names.
pub open spec fn call_key(call: MappingCall) -> u64 {
    match call {
        MappingCall::Register { server, .. } => server,
        MappingCall::Unregister { server } => server,
    }
}

/// Calls on other keys leave the entry of `k` as it was.
pub proof fn lemma_other_calls_keep_entry(m: Map<u64, u64>, calls: Seq<MappingCall>, k: u64)
    requires
        forall|i: int| 0 <= i < calls.len() ==> call_key(#[trigger] calls[i]) != k,
    ensures
        lookup(after_calls(m, calls), k) == lookup(m, k),
    decreases calls.len(),
{
    if calls.len() > 0 {
        let rest = calls.drop_first();
        assert forall|i: int| 0 <= i < rest.len() implies call_key(#[trigger] rest[i]) != k by {
            assert(rest[i] == calls[i + 1]);
        }
        assert(call_key(calls[0]) != k);
        lemma_other_calls_keep_entry(after_call(m, calls[0]), rest, k);
    }
}

/// Whatever other keys are registered or unregistered afterwards, resolving
/// `k` after `register(k)` gives the handle that register returned, and
/// resolving `k` after `unregister(k)` gives nothing.
pub proof fn lemma_resolve_follows_last_call(m: Map<u64, u64>, k: u64, handle: u64, later: Seq<MappingCall>)
    requires
        forall|i: int| 0 <= i < later.len() ==> call_key(#[trigger] later[i]) != k,
    ensures
        lookup(after_calls(m, seq![MappingCall::Register { server: k, handle }] + later), k)
            == Some(ClientEntityId(handle)),
        lookup(after_calls(m, seq![MappingCall::Unregister { server: k }] + later), k) is None,
{
    let reg = seq![MappingCall::Register { server: k, handle }] + later;
    let unreg = seq![MappingCall::Unregister { server: k }] + later;
    assert(reg.drop_first() =~= later);
    assert(unreg.drop_first() =~= later);
    lemma_other_calls_keep_entry(m.insert(k, handle), later, k);
    lemma_other_calls_keep_entry(m.remove(k), later, k);
}

/// Unregistering twice is unregistering once: the second call changes
/// nothing and returns nothing.
pub proof fn lemma_unregister_idempotent(m: Map<u64, u64>, k: u64)
    ensures
        m.remove(k).remove(k) == m.remove(k),
        lookup(m.remove(k), k) is None,
{
    assert(m.remove(k).remove(k) =~= m.remove(k));
}

} // verus!
