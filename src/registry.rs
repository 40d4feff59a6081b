//! The lobby registry: a concurrent map from lobby identifier to the handle of
//! the lobby's running actor, shared by every connection task. Identifiers are
//! drawn at random and claimed with an atomic insert-if-absent; a lobby leaves
//! the map when its actor stops.
use dashmap::mapref::entry::Entry;
use dashmap::DashMap;
use std::sync::Arc;
use vstd::prelude::*;

use crate::lobby::{lobby_step, LobbyActor, LobbyEffect, LobbyEvent, LobbyView};
use crate::message::{LobbyId, MemberId};

verus! {

/// The concurrent map of the dashmap crate, held opaque.
#[verifier::external_type_specification]
#[verifier::external_body]
#[verifier::reject_recursive_types(K)]
#[verifier::reject_recursive_types(V)]
#[verifier::reject_recursive_types(S)]
pub struct ExDashMap<K, V, S>(DashMap<K, V, S>);

/// Relies on `rand::random`: a value drawn from the thread-local generator.
/// Nothing is known of it.
pub assume_specification<T>[ rand::random::<T> ]() -> (r: T)
    where
        rand::distributions::Standard: rand::distributions::Distribution<T>,
;

/// Relies on `DashMap::new`: an empty map.
#[verifier::external_body]
fn empty_map<P>() -> (r: DashMap<LobbyId, P>) {
    DashMap::new()
}

/// Relies on `DashMap::entry` and `VacantEntry::insert`: the shard of `id`
/// stays locked from the lookup to the insert, so `handle` is stored only if no
/// lobby holds `id`, in one atomic step. Otherwise `handle` is handed back.
#[verifier::external_body]
fn insert_if_vacant<P>(map: &DashMap<LobbyId, P>, id: LobbyId, handle: P) -> (r: Option<P>)
    ensures
        r matches Some(p) ==> p == handle,
{
    match map.entry(id) {
        Entry::Vacant(v) => {
            v.insert(handle);
            None
        },
        Entry::Occupied(_) => Some(handle),
    }
}

/// Relies on `DashMap::get`: a copy of the handle registered under `id`, if
/// any, at the time of the call.
#[verifier::external_body]
fn lookup<P: Clone>(map: &DashMap<LobbyId, P>, id: LobbyId) -> (r: Option<P>) {
    map.get(&id).map(|entry| entry.value().clone())
}

/// Relies on `DashMap::remove`: takes out the entry of `id`, if any, and
/// returns its handle.
#[verifier::external_body]
fn take_out<P>(map: &DashMap<LobbyId, P>, id: LobbyId) -> (r: Option<P>) {
    map.remove(&id).map(|(_, handle)| handle)
}

/// The live lobbies, by identifier. Clones share one map.
#[verifier::reject_recursive_types(P)]
pub struct LobbyCollection<P> {
    lobbies: Arc<DashMap<LobbyId, P>>,
}

impl<P> Clone for LobbyCollection<P> {
    fn clone(&self) -> (r: Self) {
        LobbyCollection { lobbies: Arc::clone(&self.lobbies) }
    }
}

/// What `create` does after one draw of an identifier.
pub enum CreateStep<P> {
    /// The identifier was free and the lobby now stands under it.
    Registered(LobbyId),
    /// The identifier was taken: draw again with the handle that came back.
    Retry(P),
    /// Every allowed draw collided.
    GaveUp,
}

/// The decision after the `attempts`-th draw of `id`, whose insertion gave
/// back `outcome` (`None` when it was stored).
pub fn create_step<P>(id: LobbyId, outcome: Option<P>, attempts: u64) -> (r: CreateStep<P>)
    ensures
        match outcome {
            None => r == CreateStep::<P>::Registered(id),
            Some(h) => if attempts < u64::MAX {
                r == CreateStep::<P>::Retry(h)
            } else {
                r is GaveUp
            },
        },
{
    match outcome {
        None => CreateStep::Registered(id),
        Some(h) => if attempts < u64::MAX {
            CreateStep::Retry(h)
        } else {
            CreateStep::GaveUp
        },
    }
}

impl<P> LobbyCollection<P> {
    /// A registry with no lobby.
    pub fn new() -> (r: Self) {
        LobbyCollection { lobbies: Arc::new(empty_map()) }
    }

    /// Registers `handle` under a fresh random identifier, drawing again as
    /// long as the identifier drawn is taken, and returns the new lobby's
    /// task: an actor with no member whose first member will get 0, tied to
    /// this registry so that it leaves it when it ends. `None` only after
    /// 2^64 draws that all collided.
    pub fn create(&self, handle: P) -> (r: Option<LobbyTask<P>>)
        ensures
            r matches Some(t) ==> t.wf() && !t.has_ended() && t@ == (LobbyView {
                lobby_id: t@.lobby_id,
                next_member_id: 0,
                members: seq![],
            }),
    {
        let mut handle = handle;
        let mut attempts: u64 = 0;
        loop
            decreases u64::MAX - attempts,
        {
            let id: LobbyId = rand::random::<LobbyId>();
            let outcome = insert_if_vacant(&self.lobbies, id, handle);
            match create_step(id, outcome, attempts) {
                CreateStep::Registered(id) => {
                    return Some(
                        LobbyTask {
                            actor: LobbyActor::new(id),
                            registry: self.clone(),
                            ended: false,
                        },
                    );
                },
                CreateStep::Retry(back) => {
                    handle = back;
                },
                CreateStep::GaveUp => {
                    return None;
                },
            }
            attempts = attempts + 1;
        }
    }

    /// The handle of lobby `lobby_id`, if that lobby is live. A join with an
    /// unknown identifier (a stale invitation) gets `None` and changes
    /// nothing; its socket is then simply dropped.
    pub fn join(&self, lobby_id: LobbyId) -> (r: Option<P>)
        where
            P: Clone,
    {
        lookup(&self.lobbies, lobby_id)
    }

    fn remove(&self, lobby_id: LobbyId) -> (r: Option<P>) {
        take_out(&self.lobbies, lobby_id)
    }
}

/// A running lobby: its actor, and the registry it stands in. The task that
/// owns it hands it every event of the lobby and carries out the effects.
#[verifier::reject_recursive_types(P)]
pub struct LobbyTask<P> {
    actor: LobbyActor,
    registry: LobbyCollection<P>,
    ended: bool,
}

impl<P> View for LobbyTask<P> {
    type V = LobbyView;

    closed spec fn view(&self) -> LobbyView {
        self.actor@
    }
}

impl<P> LobbyTask<P> {
    pub closed spec fn wf(&self) -> bool {
        self.actor.wf()
    }

    /// Whether the lobby has terminated (and left the registry).
    pub closed spec fn has_ended(&self) -> bool {
        self.ended
    }

    pub fn lobby_id(&self) -> (r: LobbyId)
        ensures
            r == self@.lobby_id,
    {
        self.actor.lobby_id()
    }

    /// The current members, in order of joining.
    pub fn members(&self) -> (r: Vec<MemberId>)
        ensures
            r@ == self@.members,
    {
        self.actor.members()
    }

    pub fn is_ended(&self) -> (r: bool)
        ensures
            r == self.has_ended(),
    {
        self.ended
    }

    /// Processes one event of the lobby, exactly as the actor's step says.
    /// When the step terminates the lobby, the lobby is taken out of the
    /// registry and the task has ended: a later `join` of its identifier
    /// finds nothing.
    pub fn handle(&mut self, event: LobbyEvent) -> (r: LobbyEffect)
        requires
            old(self).wf(),
            !old(self).has_ended(),
        ensures
            final(self).wf(),
            (final(self)@, r@) == lobby_step(old(self)@, event@),
            final(self).has_ended() == (r is Terminate),
    {
        let r = self.actor.handle(event);
        if let LobbyEffect::Terminate { .. } = r {
            let _ = self.registry.remove(self.actor.lobby_id());
            self.ended = true;
        }
        r
    }
}

} // verus!
