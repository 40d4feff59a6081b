//! The lobby actor: the single writer of one lobby's member table. It assigns
//! member identifiers, welcomes new members, relays addressed signaling bytes
//! and notices when the lobby has emptied.
//!
//! The actor is a state machine: each event yields one effect, which the task
//! that runs the actor carries out on the members' sockets.
use vstd::prelude::*;

use crate::codec::{decode_message, decoded_message, enc_message, encode_message};
use crate::message::{LobbyId, MemberId, MessageView, WebSocketMessage};

verus! {

/// What the actor is told: a socket joined, a member's socket carried a
/// message addressed to `target`, or a member's socket ended.
pub enum LobbyEvent {
    Connect,
    Relay { target: MemberId, bytes: Vec<u8> },
    Disconnect { member_id: MemberId },
}

/// What the actor asks of the task that runs it.
pub enum LobbyEffect {
    /// Send `message` to the socket that has just joined, then register that
    /// socket under `member_id`.
    Welcome { member_id: MemberId, message: Vec<u8> },
    /// Every member identifier has been handed out: drop the new socket.
    Refuse,
    /// Send `bytes`, unchanged, to the socket of member `target`.
    Deliver { target: MemberId, bytes: Vec<u8> },
    /// Nothing to do: the addressee is not a member (it may just have left).
    Discard,
    /// Drop the socket of `member_id`; the lobby goes on.
    Remove { member_id: MemberId },
    /// Drop the socket of `member_id`; the lobby is empty, so stop the actor
    /// and take the lobby out of the registry.
    Terminate { member_id: MemberId },
}

pub enum LobbyEventView {
    Connect,
    Relay { target: MemberId, bytes: Seq<u8> },
    Disconnect { member_id: MemberId },
}

pub enum LobbyEffectView {
    Welcome { member_id: MemberId, message: Seq<u8> },
    Refuse,
    Deliver { target: MemberId, bytes: Seq<u8> },
    Discard,
    Remove { member_id: MemberId },
    Terminate { member_id: MemberId },
}

impl View for LobbyEvent {
    type V = LobbyEventView;

    open spec fn view(&self) -> LobbyEventView {
        match self {
            LobbyEvent::Connect => LobbyEventView::Connect,
            LobbyEvent::Relay { target, bytes } => LobbyEventView::Relay {
                target: *target,
                bytes: bytes@,
            },
            LobbyEvent::Disconnect { member_id } => LobbyEventView::Disconnect {
                member_id: *member_id,
            },
        }
    }
}

impl View for LobbyEffect {
    type V = LobbyEffectView;

    open spec fn view(&self) -> LobbyEffectView {
        match self {
            LobbyEffect::Welcome { member_id, message } => LobbyEffectView::Welcome {
                member_id: *member_id,
                message: message@,
            },
            LobbyEffect::Refuse => LobbyEffectView::Refuse,
            LobbyEffect::Deliver { target, bytes } => LobbyEffectView::Deliver {
                target: *target,
                bytes: bytes@,
            },
            LobbyEffect::Discard => LobbyEffectView::Discard,
            LobbyEffect::Remove { member_id } => LobbyEffectView::Remove { member_id: *member_id },
            LobbyEffect::Terminate { member_id } => LobbyEffectView::Terminate {
                member_id: *member_id,
            },
        }
    }
}

/// The state of a lobby: its identifier, the next member identifier to hand
/// out, and the current members in order of joining.
pub struct LobbyView {
    pub lobby_id: LobbyId,
    pub next_member_id: nat,
    pub members: Seq<MemberId>,
}

pub open spec fn strictly_increasing(s: Seq<MemberId>) -> bool {
    forall|i: int, j: int| 0 <= i < j < s.len() ==> s[i] < s[j]
}

/// A lobby state that the actor can reach: the members joined in order of
/// their identifiers, every one of which was handed out already.
pub open spec fn lobby_wf(l: LobbyView) -> bool {
    &&& l.next_member_id <= u32::MAX + 1
    &&& strictly_increasing(l.members)
    &&& forall|i: int| 0 <= i < l.members.len() ==> l.members[i] < l.next_member_id
}

/// `s` without the member `m`.
pub open spec fn without(s: Seq<MemberId>, m: MemberId) -> Seq<MemberId> {
    if s.contains(m) {
        s.remove(s.index_of(m))
    } else {
        s
    }
}

/// The greeting of a new member: the lobby, its identifier, and the members
/// that were there before it.
pub open spec fn welcome_message(l: LobbyView) -> Seq<u8> {
    enc_message(
        MessageView::ConnectSuccess {
            lobby_id: l.lobby_id,
            user_id: l.next_member_id as u32,
            peers_id: l.members,
        },
    )
}

/// One event processed by the actor: the next state and the effect.
pub open spec fn lobby_step(l: LobbyView, e: LobbyEventView) -> (LobbyView, LobbyEffectView) {
    match e {
        LobbyEventView::Connect => if l.next_member_id <= u32::MAX {
            (
                LobbyView {
                    next_member_id: l.next_member_id + 1,
                    members: l.members.push(l.next_member_id as u32),
                    ..l
                },
                LobbyEffectView::Welcome {
                    member_id: l.next_member_id as u32,
                    message: welcome_message(l),
                },
            )
        } else {
            (l, LobbyEffectView::Refuse)
        },
        LobbyEventView::Relay { target, bytes } => (
            l,
            if l.members.contains(target) {
                LobbyEffectView::Deliver { target, bytes }
            } else {
                LobbyEffectView::Discard
            },
        ),
        LobbyEventView::Disconnect { member_id } => {
            let rest = without(l.members, member_id);
            (
                LobbyView { members: rest, ..l },
                if rest.len() == 0 {
                    LobbyEffectView::Terminate { member_id }
                } else {
                    LobbyEffectView::Remove { member_id }
                },
            )
        },
    }
}

/// A lobby actor's state.
pub struct LobbyActor {
    lobby_id: LobbyId,
    next_member_id: u64,
    members: Vec<MemberId>,
}

impl View for LobbyActor {
    type V = LobbyView;

    closed spec fn view(&self) -> LobbyView {
        LobbyView {
            lobby_id: self.lobby_id,
            next_member_id: self.next_member_id as nat,
            members: self.members@,
        }
    }
}

impl LobbyActor {
    pub open spec fn wf(&self) -> bool {
        lobby_wf(self@)
    }

    /// A lobby with no member yet, whose first member will get identifier 0.
    pub fn new(lobby_id: LobbyId) -> (r: LobbyActor)
        ensures
            r.wf(),
            r@ == (LobbyView { lobby_id, next_member_id: 0, members: seq![] }),
    {
        LobbyActor { lobby_id, next_member_id: 0, members: Vec::new() }
    }

    pub fn lobby_id(&self) -> (r: LobbyId)
        ensures
            r == self@.lobby_id,
    {
        self.lobby_id
    }

    /// The current members, in order of joining.
    pub fn members(&self) -> (r: Vec<MemberId>)
        ensures
            r@ == self@.members,
    {
        let mut out: Vec<MemberId> = Vec::new();
        let mut i: usize = 0;
        while i < self.members.len()
            invariant
                i <= self.members@.len(),
                out@ == self.members@.take(i as int),
            decreases self.members@.len() - i,
        {
            out.push(self.members[i]);
            i = i + 1;
            assert(out@ =~= self.members@.take(i as int));
        }
        assert(self.members@.take(i as int) =~= self.members@);
        out
    }

    /// Whether `m` is a current member.
    pub fn is_member(&self, m: MemberId) -> (r: bool)
        ensures
            r == self@.members.contains(m),
    {
        self.position(m).is_some()
    }

    fn position(&self, m: MemberId) -> (r: Option<usize>)
        ensures
            match r {
                None => !self@.members.contains(m),
                Some(i) => i < self@.members.len() && self@.members[i as int] == m,
            },
    {
        let mut i: usize = 0;
        while i < self.members.len()
            invariant
                i <= self.members@.len(),
                forall|j: int| 0 <= j < i ==> self.members@[j] != m,
            decreases self.members@.len() - i,
        {
            if self.members[i] == m {
                return Some(i);
            }
            i = i + 1;
        }
        None
    }

    /// A socket joins: it gets the next identifier and a greeting that lists
    /// the members already there, and becomes a member itself.
    pub fn connect(&mut self) -> (r: LobbyEffect)
        requires
            old(self).wf(),
        ensures
            final(self).wf(),
            (final(self)@, r@) == lobby_step(old(self)@, LobbyEventView::Connect),
    {
        if self.next_member_id > u32::MAX as u64 {
            return LobbyEffect::Refuse;
        }
        let member_id = self.next_member_id as u32;
        let peers_id = self.members();
        let message = encode_message(
            &WebSocketMessage::ConnectSuccess { lobby_id: self.lobby_id, user_id: member_id, peers_id },
        );
        self.members.push(member_id);
        self.next_member_id = self.next_member_id + 1;
        LobbyEffect::Welcome { member_id, message }
    }

    /// A message addressed to `target`: delivered unchanged if `target` is a
    /// member, dropped otherwise.
    pub fn relay(&self, target: MemberId, bytes: Vec<u8>) -> (r: LobbyEffect)
        ensures
            r@ == lobby_step(self@, (LobbyEventView::Relay { target, bytes: bytes@ })).1,
    {
        if self.is_member(target) {
            LobbyEffect::Deliver { target, bytes }
        } else {
            LobbyEffect::Discard
        }
    }

    /// A member's socket ended: the member leaves, and the lobby ends with
    /// its last member.
    pub fn disconnect(&mut self, member_id: MemberId) -> (r: LobbyEffect)
        requires
            old(self).wf(),
        ensures
            final(self).wf(),
            (final(self)@, r@) == lobby_step(old(self)@, (LobbyEventView::Disconnect { member_id })),
            forall|x: MemberId|
                #[trigger] final(self)@.members.contains(x) <==> old(self)@.members.contains(x) && x
                    != member_id,
            final(self)@.members.len() == old(self)@.members.len() - if old(
                self,
            )@.members.contains(member_id) {
                1int
            } else {
                0int
            },
    {
        proof {
            lemma_without_members(self@.members, member_id);
        }
        let ghost old_members = self.members@;
        match self.position(member_id) {
            None => {},
            Some(i) => {
                proof {
                    lemma_index_of_unique(old_members, member_id, i as int);
                }
                self.members.remove(i);
                assert forall|a: int, b: int|
                    0 <= a < b < self.members@.len() implies self.members@[a]
                    < self.members@[b] by {
                    let a0 = if a < i { a } else { a + 1 };
                    let b0 = if b < i { b } else { b + 1 };
                    assert(self.members@[a] == old_members[a0]);
                    assert(self.members@[b] == old_members[b0]);
                }
                assert forall|a: int| 0 <= a < self.members@.len() implies self.members@[a]
                    < self.next_member_id by {
                    let a0 = if a < i { a } else { a + 1 };
                    assert(self.members@[a] == old_members[a0]);
                }
            },
        }
        if self.members.len() == 0 {
            LobbyEffect::Terminate { member_id }
        } else {
            LobbyEffect::Remove { member_id }
        }
    }

    /// Processes one event.
    pub fn handle(&mut self, event: LobbyEvent) -> (r: LobbyEffect)
        requires
            old(self).wf(),
        ensures
            final(self).wf(),
            (final(self)@, r@) == lobby_step(old(self)@, event@),
    {
        match event {
            LobbyEvent::Connect => self.connect(),
            LobbyEvent::Relay { target, bytes } => self.relay(target, bytes),
            LobbyEvent::Disconnect { member_id } => self.disconnect(member_id),
        }
    }
}

/// Taking `m` out of the members leaves every other member, and only them.
pub proof fn lemma_without_members(s: Seq<MemberId>, m: MemberId)
    requires
        strictly_increasing(s),
    ensures
        forall|x: MemberId| #[trigger] without(s, m).contains(x) <==> s.contains(x) && x != m,
        without(s, m).len() == s.len() - if s.contains(m) {
            1int
        } else {
            0int
        },
{
    if s.contains(m) {
        let i = s.index_of(m);
        let r = s.remove(i);
        assert forall|x: MemberId| #[trigger] r.contains(x) <==> s.contains(x) && x != m by {
            if r.contains(x) {
                let a = choose|a: int| 0 <= a < r.len() && r[a] == x;
                let a0 = if a < i { a } else { a + 1 };
                assert(r[a] == s[a0]);
                assert(a0 != i) by {
                    if a < i {
                        assert(s[a] < s[i]);
                    }
                }
                if a0 != i && x == m {
                    if a0 < i {
                        assert(s[a0] < s[i]);
                    } else {
                        assert(s[i] < s[a0]);
                    }
                }
            }
            if s.contains(x) && x != m {
                let b = choose|b: int| 0 <= b < s.len() && s[b] == x;
                assert(b != i);
                let b1 = if b < i { b } else { b - 1 };
                assert(r[b1] == s[b]);
            }
        }
    }
}

/// In a strictly increasing sequence, the index of an element is the only
/// index that holds it.
proof fn lemma_index_of_unique(s: Seq<MemberId>, m: MemberId, i: int)
    requires
        strictly_increasing(s),
        0 <= i < s.len(),
        s[i] == m,
    ensures
        s.contains(m),
        s.index_of(m) == i,
{
    assert(s.contains(m));
    let j = s.index_of(m);
    assert(0 <= j < s.len() && s[j] == m);
    if j < i {
        assert(s[j] < s[i]);
    } else if i < j {
        assert(s[i] < s[j]);
    }
}

/// The actor run over a sequence of events: the final state and the effects,
/// one per event, in processing order.
pub open spec fn lobby_run(l: LobbyView, events: Seq<LobbyEventView>) -> (LobbyView, Seq<LobbyEffectView>)
    decreases events.len(),
{
    if events.len() == 0 {
        (l, seq![])
    } else {
        let (l1, effects) = lobby_run(l, events.drop_last());
        let (l2, e) = lobby_step(l1, events.last());
        (l2, effects.push(e))
    }
}

proof fn lemma_without_wf(l: LobbyView, m: MemberId)
    requires
        lobby_wf(l),
    ensures
        lobby_wf(LobbyView { members: without(l.members, m), ..l }),
{
    let s = l.members;
    if s.contains(m) {
        let i = s.index_of(m);
        let r = s.remove(i);
        assert forall|a: int, b: int| 0 <= a < b < r.len() implies r[a] < r[b] by {
            let a0 = if a < i { a } else { a + 1 };
            let b0 = if b < i { b } else { b + 1 };
            assert(r[a] == s[a0]);
            assert(r[b] == s[b0]);
        }
        assert forall|a: int| 0 <= a < r.len() implies r[a] < l.next_member_id by {
            let a0 = if a < i { a } else { a + 1 };
            assert(r[a] == s[a0]);
        }
    }
}

/// Every step keeps the state reachable, keeps the lobby identifier and never
/// lowers the next member identifier.
pub proof fn lemma_step_wf(l: LobbyView, e: LobbyEventView)
    requires
        lobby_wf(l),
    ensures
        lobby_wf(lobby_step(l, e).0),
        lobby_step(l, e).0.lobby_id == l.lobby_id,
        lobby_step(l, e).0.next_member_id >= l.next_member_id,
{
    match e {
        LobbyEventView::Disconnect { member_id } => lemma_without_wf(l, member_id),
        _ => {},
    }
}

/// Along any run, the effect of the `i`-th event is the step's effect on
/// that event from the state that the events before it led to.
pub proof fn lemma_run_effects(l: LobbyView, events: Seq<LobbyEventView>)
    requires
        lobby_wf(l),
    ensures
        lobby_wf(lobby_run(l, events).0),
        lobby_run(l, events).1.len() == events.len(),
        forall|i: int|
            0 <= i < events.len() ==> #[trigger] lobby_run(l, events).1[i] == lobby_step(
                lobby_run(l, events.take(i)).0,
                events[i],
            ).1,
    decreases events.len(),
{
    if events.len() > 0 {
        let init = events.drop_last();
        lemma_run_effects(l, init);
        let (l1, effects) = lobby_run(l, init);
        lemma_step_wf(l1, events.last());
        assert forall|i: int| 0 <= i < events.len() implies #[trigger] lobby_run(l, events).1[i]
            == lobby_step(lobby_run(l, events.take(i)).0, events[i]).1 by {
            if i < events.len() - 1 {
                assert(events.take(i) =~= init.take(i));
                assert(lobby_run(l, events).1[i] == effects[i]);
            } else {
                assert(events.take(i) =~= init);
            }
        }
    }
}

/// The member identifiers that a lobby hands out strictly increase along any
/// sequence of events, whatever Disconnects come between: none is handed out
/// twice, and each is above every identifier handed out before the run.
pub proof fn lemma_member_ids_increase(l: LobbyView, events: Seq<LobbyEventView>)
    requires
        lobby_wf(l),
    ensures
        ({
            let (l2, effects) = lobby_run(l, events);
            &&& effects.len() == events.len()
            &&& lobby_wf(l2)
            &&& l2.lobby_id == l.lobby_id
            &&& l2.next_member_id >= l.next_member_id
            &&& forall|i: int|
                0 <= i < effects.len() && (#[trigger] effects[i] is Welcome) ==> l.next_member_id
                    <= effects[i]->Welcome_member_id < l2.next_member_id
            &&& forall|i: int, j: int|
                0 <= i < j < effects.len() && (#[trigger] effects[i] is Welcome) && (
                #[trigger] effects[j] is Welcome) ==> effects[i]->Welcome_member_id
                    < effects[j]->Welcome_member_id
        }),
    decreases events.len(),
{
    if events.len() > 0 {
        let init = events.drop_last();
        lemma_member_ids_increase(l, init);
        let (l1, effects1) = lobby_run(l, init);
        lemma_step_wf(l1, events.last());
        let (l2, effects) = lobby_run(l, events);
        assert(effects == effects1.push(lobby_step(l1, events.last()).1));
        assert forall|i: int|
            0 <= i < effects.len() && (#[trigger] effects[i] is Welcome) implies l.next_member_id
                <= effects[i]->Welcome_member_id < l2.next_member_id by {
            if i < effects.len() - 1 {
                assert(effects[i] == effects1[i]);
            }
        }
        assert forall|i: int, j: int|
            0 <= i < j < effects.len() && (#[trigger] effects[i] is Welcome) && (
            #[trigger] effects[j] is Welcome) implies effects[i]->Welcome_member_id
            < effects[j]->Welcome_member_id by {
            assert(effects[i] == effects1[i]);
            if j < effects.len() - 1 {
                assert(effects[j] == effects1[j]);
            }
        }
    }
}

/// A `Relay` reaches its addressee, byte for byte, exactly when the addressee
/// is a member at the time the actor processes it, and is dropped otherwise;
/// nothing else is delivered. Effects come one per event in processing order,
/// so the deliveries to one member keep the order of their events.
pub proof fn lemma_relay_delivery(l: LobbyView, events: Seq<LobbyEventView>)
    requires
        lobby_wf(l),
    ensures
        ({
            let effects = lobby_run(l, events).1;
            &&& effects.len() == events.len()
            &&& forall|i: int|
                0 <= i < events.len() && (#[trigger] events[i] is Relay) ==> if lobby_run(
                    l,
                    events.take(i),
                ).0.members.contains(events[i]->Relay_target) {
                    effects[i] == LobbyEffectView::Deliver {
                        target: events[i]->Relay_target,
                        bytes: events[i]->Relay_bytes,
                    }
                } else {
                    effects[i] == LobbyEffectView::Discard
                }
            &&& forall|i: int|
                0 <= i < events.len() && (#[trigger] effects[i] is Deliver) ==> events[i]
                    == LobbyEventView::Relay {
                    target: effects[i]->Deliver_target,
                    bytes: effects[i]->Deliver_bytes,
                }
        }),
{
    lemma_run_effects(l, events);
    let effects = lobby_run(l, events).1;
    assert forall|i: int| 0 <= i < events.len() && (#[trigger] effects[i] is Deliver) implies events[i]
        == LobbyEventView::Relay {
        target: effects[i]->Deliver_target,
        bytes: effects[i]->Deliver_bytes,
    } by {
        assert(effects[i] == lobby_step(lobby_run(l, events.take(i)).0, events[i]).1);
    }
    assert forall|i: int| 0 <= i < events.len() && (#[trigger] events[i] is Relay) implies if lobby_run(
        l,
        events.take(i),
    ).0.members.contains(events[i]->Relay_target) {
        effects[i] == LobbyEffectView::Deliver {
            target: events[i]->Relay_target,
            bytes: events[i]->Relay_bytes,
        }
    } else {
        effects[i] == LobbyEffectView::Discard
    } by {
        assert(effects[i] == lobby_step(lobby_run(l, events.take(i)).0, events[i]).1);
    }
}

/// A lobby whose only member disconnects is left empty and terminates.
pub proof fn lemma_last_member_leaves(l: LobbyView, m: MemberId)
    requires
        lobby_wf(l),
        l.members == seq![m],
    ensures
        lobby_step(l, (LobbyEventView::Disconnect { member_id: m })).0.members.len() == 0,
        lobby_step(l, (LobbyEventView::Disconnect { member_id: m })).1
            == (LobbyEffectView::Terminate { member_id: m }),
{
    lemma_index_of_unique(l.members, m, 0);
}

/// What a member's reader does with one binary frame from its socket.
pub enum InboundFrame {
    /// A handshake: hand it, unchanged, to the actor as a `Relay` to `target`.
    Relay { target: MemberId, bytes: Vec<u8> },
    /// A well-formed message that is not the reader's to forward.
    Ignore,
    /// Malformed bytes: the connection is no longer trusted; stop reading,
    /// which makes the member leave.
    Close,
}

/// Classifies one binary frame that a member sent to the relay. Only the
/// addressee inside a handshake is read; the bytes go on as they came.
pub fn classify_frame(frame: Vec<u8>) -> (r: InboundFrame)
    ensures
        match decoded_message(frame@) {
            None => r is Close,
            Some(MessageView::ConnectSuccess { .. }) => r is Ignore,
            Some(MessageView::PeerHandshake(h)) => r matches InboundFrame::Relay { target, bytes }
                && target == h.target_id && bytes@ == frame@,
        },
{
    match decode_message(frame.as_slice()) {
        None => InboundFrame::Close,
        Some(WebSocketMessage::ConnectSuccess { .. }) => InboundFrame::Ignore,
        Some(WebSocketMessage::PeerHandshake(h)) => InboundFrame::Relay {
            target: h.target_id,
            bytes: frame,
        },
    }
}

/// What a member's reader does with the next item of its socket.
pub enum ReaderStep {
    /// Hand this event to the actor and read on.
    Forward(LobbyEvent),
    /// Read on.
    Skip,
    /// Hand this event to the actor and stop reading.
    Leave(LobbyEvent),
}

/// The reader of member `member_id` got `frame`: `None` when the socket's
/// stream ended or carried anything but a binary frame. A handshake is
/// relayed as it came; a malformed frame or the end of the stream makes the
/// member leave; anything else is skipped.
pub fn reader_step(member_id: MemberId, frame: Option<Vec<u8>>) -> (r: ReaderStep)
    ensures
        match frame {
            None => r matches ReaderStep::Leave(e) && e@ == (LobbyEventView::Disconnect { member_id }),
            Some(f) => match decoded_message(f@) {
                None => r matches ReaderStep::Leave(e) && e@ == (LobbyEventView::Disconnect {
                    member_id,
                }),
                Some(MessageView::ConnectSuccess { .. }) => r is Skip,
                Some(MessageView::PeerHandshake(h)) => r matches ReaderStep::Forward(e) && e@ == (
                LobbyEventView::Relay { target: h.target_id, bytes: f@ }),
            },
        },
{
    match frame {
        None => ReaderStep::Leave(LobbyEvent::Disconnect { member_id }),
        Some(f) => match classify_frame(f) {
            InboundFrame::Relay { target, bytes } => ReaderStep::Forward(
                LobbyEvent::Relay { target, bytes },
            ),
            InboundFrame::Ignore => ReaderStep::Skip,
            InboundFrame::Close => ReaderStep::Leave(LobbyEvent::Disconnect { member_id }),
        },
    }
}

/// How many of `effects` welcome a member.
pub open spec fn welcome_count(effects: Seq<LobbyEffectView>) -> nat
    decreases effects.len(),
{
    if effects.len() == 0 {
        0
    } else {
        welcome_count(effects.drop_last()) + if effects.last() is Welcome {
            1nat
        } else {
            0nat
        }
    }
}

/// Identifiers are handed out by counting: along any run, the member
/// welcomed after `k` earlier welcomes gets the next identifier of the
/// starting state plus `k`, whatever else came between. From a new lobby
/// (next identifier 0) the `k`-th member to join gets `k`.
pub proof fn lemma_ids_count_up(l: LobbyView, events: Seq<LobbyEventView>)
    requires
        lobby_wf(l),
    ensures
        ({
            let (l2, effects) = lobby_run(l, events);
            &&& effects.len() == events.len()
            &&& l2.next_member_id == l.next_member_id + welcome_count(effects)
            &&& forall|i: int|
                0 <= i < effects.len() && (#[trigger] effects[i] is Welcome) ==> effects[i]->Welcome_member_id
                    == l.next_member_id + welcome_count(effects.take(i))
        }),
    decreases events.len(),
{
    if events.len() > 0 {
        let init = events.drop_last();
        lemma_ids_count_up(l, init);
        lemma_run_effects(l, init);
        let (l1, effects1) = lobby_run(l, init);
        let (l2, effects) = lobby_run(l, events);
        assert(effects.drop_last() =~= effects1);
        assert forall|i: int|
            0 <= i < effects.len() && (#[trigger] effects[i] is Welcome) implies effects[i]->Welcome_member_id
            == l.next_member_id + welcome_count(effects.take(i)) by {
            if i < effects.len() - 1 {
                assert(effects.take(i) =~= effects1.take(i));
                assert(effects[i] == effects1[i]);
            } else {
                assert(effects.take(i) =~= effects1);
            }
        }
    }
}

} // verus!
