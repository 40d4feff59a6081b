//! The client's peer network: the handshake state of every remote member,
//! driven by the events that the transport reports, and the framing of
//! application messages once a peer channel is open.
//!
//! The network makes no transport call itself. Each method applies one event
//! atomically and says, in its result, what the transport or the application
//! must do next.
use std::collections::BTreeMap;
use vstd::prelude::*;
use vstd::std_specs::btree::spec_btree_map_iter;
use vstd::std_specs::iter::IteratorSpec;

use crate::codec::{
    decode_envelope, decode_message, decoded_envelope, decoded_message, enc_envelope, encode_envelope,
};
use crate::message::{
    CandidateView, EnvelopeView, HandshakeView, IceCandidate, LobbyId, MemberId, MessageView,
    PeerHandshake, PeerMessage, WebSocketMessage,
};

verus! {

broadcast use vstd::laws_cmp::group_laws_cmp;

/// The handshake state of one remote member.
pub enum PeerStatus {
    /// The handshake is in progress; the local half of it is being assembled
    /// here until candidate gathering ends.
    Connecting(PeerHandshake),
    /// The peer channel is open.
    Connected,
}

pub enum PeerStatusView {
    Connecting(HandshakeView),
    Connected,
}

impl View for PeerStatus {
    type V = PeerStatusView;

    open spec fn view(&self) -> PeerStatusView {
        match self {
            PeerStatus::Connecting(h) => PeerStatusView::Connecting(h@),
            PeerStatus::Connected => PeerStatusView::Connected,
        }
    }
}

/// The state of a peer connection, as the transport reports it.
#[derive(Clone, Copy, Debug, PartialEq, Eq, Structural)]
pub enum PeerConnectionState {
    New,
    Connecting,
    Connected,
    Disconnected,
    Failed,
    Closed,
}

/// What the network tells its application.
pub enum PeerNetworkEvent {
    /// A completed local handshake, to be sent over the signaling socket.
    Handshake(PeerHandshake),
    /// The channel to this peer is open.
    Connect(MemberId),
    /// The connection to this peer is gone.
    Disconnect(MemberId),
    /// A message from a peer, with the sender that its envelope names.
    Message(MemberId, PeerMessage),
}

/// What a received handshake asks of the transport.
pub enum HandshakeRole {
    /// The peer answered a handshake of ours: hand its description and
    /// candidates to the existing connection.
    Answer(PeerHandshake),
    /// The peer made an offer: a new connection takes its description and
    /// candidates, creates an answer and gathers local candidates.
    Offer(PeerHandshake),
}

/// What a frame from the signaling socket asks of the client.
pub enum SignalOutcome {
    /// The relay welcomed the local member: create an offer for each of
    /// `offers`.
    Joined { lobby_id: LobbyId, user_id: MemberId, peers_id: Vec<MemberId>, offers: Vec<MemberId> },
    /// A handshake arrived.
    Handshake(HandshakeRole),
    /// Malformed bytes: close the signaling socket.
    Close,
}

/// The network as a map from remote member to handshake state.
pub struct NetworkView {
    pub user_id: MemberId,
    pub peers: Map<MemberId, PeerStatusView>,
}

/// The empty handshake from `source` to `target` that a new connection
/// starts with.
pub open spec fn stub(source: MemberId, target: MemberId) -> HandshakeView {
    HandshakeView {
        source_id: source,
        target_id: target,
        sdp_description: seq![],
        ice_candidates: seq![],
    }
}

pub open spec fn is_connecting(n: NetworkView, peer: MemberId) -> bool {
    n.peers.contains_key(peer) && n.peers[peer] is Connecting
}

pub open spec fn is_connected(n: NetworkView, peer: MemberId) -> bool {
    n.peers.contains_key(peer) && n.peers[peer] is Connected
}

/// `initiate_handshake(peer)`: a new Connecting state, unless one exists.
pub open spec fn initiated(n: NetworkView, peer: MemberId) -> NetworkView {
    if n.peers.contains_key(peer) {
        n
    } else {
        NetworkView {
            peers: n.peers.insert(peer, PeerStatusView::Connecting(stub(n.user_id, peer))),
            ..n
        }
    }
}

/// `initiated` for each of `peers` in turn, and the peers for which that
/// created a state, in order.
pub open spec fn initiated_all(n: NetworkView, peers: Seq<MemberId>) -> (NetworkView, Seq<MemberId>)
    decreases peers.len(),
{
    if peers.len() == 0 {
        (n, seq![])
    } else {
        let (n1, offers) = initiated_all(n, peers.drop_last());
        let p = peers.last();
        (
            initiated(n1, p),
            if n1.peers.contains_key(p) {
                offers
            } else {
                offers.push(p)
            },
        )
    }
}

/// `receive_handshake(h)`: an offer from an unknown member opens a new
/// Connecting state; an answer changes nothing here.
pub open spec fn received(n: NetworkView, h: HandshakeView) -> NetworkView {
    initiated(n, h.source_id)
}

/// The local description of `peer`'s connection is now `sdp`.
pub open spec fn described(n: NetworkView, peer: MemberId, sdp: Seq<char>) -> NetworkView {
    if is_connecting(n, peer) {
        let h = n.peers[peer]->Connecting_0;
        NetworkView {
            peers: n.peers.insert(
                peer,
                PeerStatusView::Connecting(HandshakeView { sdp_description: sdp, ..h }),
            ),
            ..n
        }
    } else {
        n
    }
}

/// A local candidate was discovered for `peer`'s connection: it joins the
/// handshake being assembled.
pub open spec fn candidate_added(n: NetworkView, peer: MemberId, c: CandidateView) -> NetworkView {
    if is_connecting(n, peer) {
        let h = n.peers[peer]->Connecting_0;
        NetworkView {
            peers: n.peers.insert(
                peer,
                PeerStatusView::Connecting(
                    HandshakeView { ice_candidates: h.ice_candidates.push(c), ..h },
                ),
            ),
            ..n
        }
    } else {
        n
    }
}

/// Candidate gathering for `peer` ended: the assembled handshake goes out,
/// once, and the state starts over from an empty handshake.
pub open spec fn gathered(n: NetworkView, peer: MemberId) -> (NetworkView, Option<HandshakeView>) {
    if is_connecting(n, peer) {
        let h = n.peers[peer]->Connecting_0;
        (
            NetworkView {
                peers: n.peers.insert(
                    peer,
                    PeerStatusView::Connecting(stub(h.source_id, h.target_id)),
                ),
                ..n
            },
            Some(h),
        )
    } else {
        (n, None)
    }
}

/// The channel to `peer` reported open.
pub open spec fn opened(n: NetworkView, peer: MemberId) -> NetworkView {
    if n.peers.contains_key(peer) {
        NetworkView { peers: n.peers.insert(peer, PeerStatusView::Connected), ..n }
    } else {
        n
    }
}

pub open spec fn is_teardown(s: PeerConnectionState) -> bool {
    s == PeerConnectionState::Closed || s == PeerConnectionState::Failed || s
        == PeerConnectionState::Disconnected
}

/// The connection to `peer` reported `s`: a closed, failed or disconnected
/// connection takes its state away.
pub open spec fn state_changed(n: NetworkView, peer: MemberId, s: PeerConnectionState) -> NetworkView {
    if is_teardown(s) {
        NetworkView { peers: n.peers.remove(peer), ..n }
    } else {
        n
    }
}

/// The peers whose channel is open.
pub open spec fn connected_peers(n: NetworkView) -> Set<MemberId> {
    n.peers.dom().filter(|k: MemberId| n.peers[k] is Connected)
}

/// The handshake state of the local member towards every remote member.
pub struct PeerNetwork {
    user_id: MemberId,
    peers: BTreeMap<MemberId, PeerStatus>,
}

impl View for PeerNetwork {
    type V = NetworkView;

    closed spec fn view(&self) -> NetworkView {
        NetworkView { user_id: self.user_id, peers: self.peers@.map_values(|s: PeerStatus| s@) }
    }
}

impl PeerNetwork {
    /// A network for local member `user_id`, with no peer yet.
    pub fn new(user_id: MemberId) -> (r: PeerNetwork)
        ensures
            r@.user_id == user_id,
            r@.peers == Map::<MemberId, PeerStatusView>::empty(),
    {
        let r = PeerNetwork { user_id, peers: BTreeMap::new() };
        assert(r@.peers =~= Map::<MemberId, PeerStatusView>::empty());
        r
    }

    pub fn user_id(&self) -> (r: MemberId)
        ensures
            r == self@.user_id,
    {
        self.user_id
    }

    /// Handshakes begun from now on name `id` as their source.
    pub fn set_user_id(&mut self, id: MemberId)
        ensures
            final(self)@ == (NetworkView { user_id: id, ..old(self)@ }),
    {
        self.user_id = id;
    }

    fn set_status(&mut self, peer_id: MemberId, status: PeerStatus)
        ensures
            final(self)@ == (NetworkView {
                peers: old(self)@.peers.insert(peer_id, status@),
                ..old(self)@
            }),
    {
        let ghost sv = status@;
        self.peers.insert(peer_id, status);
        assert(self@.peers =~= old(self)@.peers.insert(peer_id, sv));
    }

    /// Takes the status of `peer_id` out of the table.
    fn take_status(&mut self, peer_id: MemberId) -> (r: Option<PeerStatus>)
        ensures
            match r {
                None => !old(self)@.peers.contains_key(peer_id) && final(self)@ == old(self)@,
                Some(st) => old(self)@.peers.contains_key(peer_id) && old(self)@.peers[peer_id]
                    == st@ && final(self)@ == (NetworkView {
                    peers: old(self)@.peers.remove(peer_id),
                    ..old(self)@
                }),
            },
    {
        let r = self.peers.remove(&peer_id);
        assert(self@.peers =~= old(self)@.peers.remove(peer_id));
        if r.is_none() {
            assert(self@.peers =~= old(self)@.peers);
        }
        r
    }

    /// Whether the channel to `peer_id` is open.
    pub fn is_connected(&self, peer_id: MemberId) -> (r: bool)
        ensures
            r == is_connected(self@, peer_id),
    {
        match self.peers.get(&peer_id) {
            Some(PeerStatus::Connected) => true,
            _ => false,
        }
    }

    /// Whether a handshake with `peer_id` is in progress.
    pub fn is_connecting(&self, peer_id: MemberId) -> (r: bool)
        ensures
            r == is_connecting(self@, peer_id),
    {
        match self.peers.get(&peer_id) {
            Some(PeerStatus::Connecting(_)) => true,
            _ => false,
        }
    }

    /// Starts a handshake towards `peer_id`: a Connecting state with an empty
    /// handshake from the local member. The result says whether the
    /// transport must now create an offer; a peer that already has a state
    /// is left alone and the call does nothing.
    pub fn initiate_handshake(&mut self, peer_id: MemberId) -> (r: bool)
        ensures
            final(self)@ == initiated(old(self)@, peer_id),
            r == !old(self)@.peers.contains_key(peer_id),
    {
        if self.peers.contains_key(&peer_id) {
            false
        } else {
            let h = PeerHandshake {
                source_id: self.user_id,
                target_id: peer_id,
                sdp_description: String::new(),
                ice_candidates: Vec::new(),
            };
            assert(h@.ice_candidates =~= seq![]);
            self.set_status(peer_id, PeerStatus::Connecting(h));
            true
        }
    }

    /// The relay welcomed the local member as `user_id` into a lobby that
    /// already held `peers`: a handshake towards each of them begins. The
    /// result lists the peers for which the transport must create an offer,
    /// in order; a peer with a state already is skipped.
    pub fn join_lobby(&mut self, user_id: MemberId, peers: &Vec<MemberId>) -> (r: Vec<MemberId>)
        ensures
            (final(self)@, r@) == initiated_all(
                NetworkView { user_id, ..old(self)@ },
                peers@,
            ),
    {
        self.set_user_id(user_id);
        let ghost start = self@;
        let mut offers: Vec<MemberId> = Vec::new();
        let mut i: usize = 0;
        while i < peers.len()
            invariant
                i <= peers@.len(),
                (self@, offers@) == initiated_all(start, peers@.take(i as int)),
            decreases peers@.len() - i,
        {
            let p = peers[i];
            assert(peers@.take(i + 1).drop_last() =~= peers@.take(i as int));
            if self.initiate_handshake(p) {
                offers.push(p);
            }
            i = i + 1;
        }
        assert(peers@.take(i as int) =~= peers@);
        offers
    }

    /// A frame from the signaling socket. A greeting from the relay starts
    /// handshakes towards the members already in the lobby (as `join_lobby`);
    /// a handshake is received (as `receive_handshake`); bytes that are not a
    /// signaling message change nothing and ask for the socket to be closed,
    /// since the control channel can no longer be trusted.
    pub fn signal(&mut self, frame: &[u8]) -> (r: SignalOutcome)
        ensures
            match decoded_message(frame@) {
                None => r is Close && final(self)@ == old(self)@,
                Some(MessageView::ConnectSuccess { lobby_id, user_id, peers_id }) => r matches SignalOutcome::Joined {
                    lobby_id: l,
                    user_id: u,
                    peers_id: p,
                    offers,
                } && l == lobby_id && u == user_id && p@ == peers_id && (final(self)@, offers@)
                    == initiated_all((NetworkView { user_id, ..old(self)@ }), peers_id),
                Some(MessageView::PeerHandshake(h)) => r matches SignalOutcome::Handshake(role)
                    && final(self)@ == received(old(self)@, h) && (if old(
                    self,
                )@.peers.contains_key(h.source_id) {
                    role matches HandshakeRole::Answer(x) && x@ == h
                } else {
                    role matches HandshakeRole::Offer(x) && x@ == h
                }),
            },
    {
        match decode_message(frame) {
            None => SignalOutcome::Close,
            Some(WebSocketMessage::ConnectSuccess { lobby_id, user_id, peers_id }) => {
                let offers = self.join_lobby(user_id, &peers_id);
                SignalOutcome::Joined { lobby_id, user_id, peers_id, offers }
            },
            Some(WebSocketMessage::PeerHandshake(h)) => SignalOutcome::Handshake(
                self.receive_handshake(h),
            ),
        }
    }

    /// A handshake from `h.source_id`. From a member with a state it is the
    /// answer to ours; from any other member it is an offer, which opens a
    /// Connecting state whose answer is assembled like an offer of ours.
    pub fn receive_handshake(&mut self, h: PeerHandshake) -> (r: HandshakeRole)
        ensures
            final(self)@ == received(old(self)@, h@),
            old(self)@.peers.contains_key(h.source_id) ==> r == HandshakeRole::Answer(h),
            !old(self)@.peers.contains_key(h.source_id) ==> r == HandshakeRole::Offer(h),
    {
        if self.initiate_handshake(h.source_id) {
            HandshakeRole::Offer(h)
        } else {
            HandshakeRole::Answer(h)
        }
    }

    /// The transport produced the local description (offer or answer) of the
    /// connection to `peer_id`; it joins the handshake being assembled.
    pub fn set_local_description(&mut self, peer_id: MemberId, sdp: String)
        ensures
            final(self)@ == described(old(self)@, peer_id, sdp@),
    {
        match self.take_status(peer_id) {
            None => {},
            Some(PeerStatus::Connected) => {
                self.set_status(peer_id, PeerStatus::Connected);
                assert(self@.peers =~= old(self)@.peers);
            },
            Some(PeerStatus::Connecting(h)) => {
                let h2 = PeerHandshake { sdp_description: sdp, ..h };
                self.set_status(peer_id, PeerStatus::Connecting(h2));
                assert(self@.peers =~= described(old(self)@, peer_id, sdp@).peers);
            },
        }
    }

    /// Candidate discovery for `peer_id`'s connection reported `candidate`:
    /// a discovered candidate joins the handshake being assembled, and
    /// nothing is sent; the end of discovery (`None`) hands out the whole
    /// handshake, once, as a `Handshake` event.
    pub fn ice_candidate(&mut self, peer_id: MemberId, candidate: Option<IceCandidate>) -> (r: Option<PeerNetworkEvent>)
        ensures
            match candidate {
                Some(c) => final(self)@ == candidate_added(old(self)@, peer_id, c@) && r is None,
                None => {
                    let (n, out) = gathered(old(self)@, peer_id);
                    &&& final(self)@ == n
                    &&& match out {
                        None => r is None,
                        Some(hv) => r matches Some(PeerNetworkEvent::Handshake(h)) && h@ == hv,
                    }
                },
            },
    {
        match self.take_status(peer_id) {
            None => None,
            Some(PeerStatus::Connected) => {
                self.set_status(peer_id, PeerStatus::Connected);
                assert(self@.peers =~= old(self)@.peers);
                None
            },
            Some(PeerStatus::Connecting(h)) => match candidate {
                Some(c) => {
                    let ghost cv = c@;
                    let mut h2 = h;
                    h2.ice_candidates.push(c);
                    assert(h2@.ice_candidates =~= h@.ice_candidates.push(cv));
                    self.set_status(peer_id, PeerStatus::Connecting(h2));
                    assert(self@.peers =~= candidate_added(old(self)@, peer_id, cv).peers);
                    None
                },
                None => {
                    let fresh = PeerHandshake {
                        source_id: h.source_id,
                        target_id: h.target_id,
                        sdp_description: String::new(),
                        ice_candidates: Vec::new(),
                    };
                    assert(fresh@.ice_candidates =~= seq![]);
                    self.set_status(peer_id, PeerStatus::Connecting(fresh));
                    assert(self@.peers =~= gathered(old(self)@, peer_id).0.peers);
                    Some(PeerNetworkEvent::Handshake(h))
                },
            },
        }
    }

    /// The channel to `peer_id` reported open: a handshake in progress is
    /// done, the peer becomes Connected and the application hears of it. A
    /// peer without a handshake in progress is left as it is, and nothing is
    /// reported.
    pub fn channel_opened(&mut self, peer_id: MemberId) -> (r: Option<PeerNetworkEvent>)
        ensures
            is_connecting(old(self)@, peer_id) ==> final(self)@ == opened(old(self)@, peer_id) && r
                == Some(PeerNetworkEvent::Connect(peer_id)),
            !is_connecting(old(self)@, peer_id) ==> final(self)@ == old(self)@ && r is None,
    {
        let connecting = match self.peers.get(&peer_id) {
            Some(PeerStatus::Connecting(_)) => true,
            _ => false,
        };
        if connecting {
            self.set_status(peer_id, PeerStatus::Connected);
            Some(PeerNetworkEvent::Connect(peer_id))
        } else {
            None
        }
    }

    /// The connection to `peer_id` reported `state`. A closed, failed or
    /// disconnected connection loses its state, and the application hears of
    /// it when there was one.
    pub fn connection_state_changed(&mut self, peer_id: MemberId, state: PeerConnectionState) -> (r: Option<PeerNetworkEvent>)
        ensures
            final(self)@ == state_changed(old(self)@, peer_id, state),
            r is Some <==> is_teardown(state) && old(self)@.peers.contains_key(peer_id),
            r matches Some(e) ==> e == PeerNetworkEvent::Disconnect(peer_id),
    {
        if !(state == PeerConnectionState::Closed || state == PeerConnectionState::Failed || state
            == PeerConnectionState::Disconnected) {
            return None;
        }
        self.handshake_failed(peer_id)
    }

    /// A step of the handshake with `peer_id` failed on the transport's side
    /// (creating or installing a description): the peer loses its state, and
    /// the application hears of it when there was one.
    pub fn handshake_failed(&mut self, peer_id: MemberId) -> (r: Option<PeerNetworkEvent>)
        ensures
            final(self)@ == (NetworkView { peers: old(self)@.peers.remove(peer_id), ..old(self)@ }),
            r is Some <==> old(self)@.peers.contains_key(peer_id),
            r matches Some(e) ==> e == PeerNetworkEvent::Disconnect(peer_id),
    {
        match self.take_status(peer_id) {
            None => {
                assert(old(self)@.peers.remove(peer_id) =~= old(self)@.peers);
                None
            },
            Some(_) => Some(PeerNetworkEvent::Disconnect(peer_id)),
        }
    }

    /// The bytes to put on `peer_id`'s channel for `payload`: its envelope
    /// from the local member, if that channel is open. For any other peer
    /// there is nothing to send, and nothing is queued.
    pub fn send(&self, peer_id: MemberId, payload: &PeerMessage) -> (r: Option<Vec<u8>>)
        ensures
            is_connected(self@, peer_id) ==> (r matches Some(b) && b@ == enc_envelope(
                EnvelopeView { sender_id: self@.user_id, payload: payload@ },
            )),
            !is_connected(self@, peer_id) ==> r is None,
    {
        if self.is_connected(peer_id) {
            Some(encode_envelope(self.user_id, payload))
        } else {
            None
        }
    }

    /// The envelope of `payload` from the local member, and every peer whose
    /// channel is open, each once: the envelope goes to each of them.
    pub fn broadcast(&self, payload: &PeerMessage) -> (r: (Vec<u8>, Vec<MemberId>))
        ensures
            r.0@ == enc_envelope(EnvelopeView { sender_id: self@.user_id, payload: payload@ }),
            r.1@.to_set() == connected_peers(self@),
            r.1@.no_duplicates(),
    {
        broadcast use vstd::std_specs::btree::group_btree_axioms;

        let probe = self.peers.iter();
        let ghost v = probe.remaining();
        assert(v.no_duplicates());
        let ghost mut done: int = 0;
        let mut targets: Vec<MemberId> = Vec::new();
        for kv in it: self.peers.iter()
            invariant
                it.seq() == v,
                v == spec_btree_map_iter(&self.peers).remaining(),
                v.no_duplicates(),
                done == it.index(),
                targets@.no_duplicates(),
                forall|k: MemberId|
                    #[trigger] targets@.contains(k) <==> exists|j: int|
                        0 <= j < done && *v[j].0 == k && *v[j].1 is Connected,
        {
            let ghost j = it.index();
            assert(kv == v[j]);
            let (k, status) = kv;
            let ghost prev = targets@;
            let open = match status {
                PeerStatus::Connected => true,
                PeerStatus::Connecting(_) => false,
            };
            if open {
                assert forall|a: int| 0 <= a < prev.len() implies prev[a] != *k by {
                    assert(prev.contains(prev[a]));
                    let i = choose|i: int| 0 <= i < j && *v[i].0 == prev[a] && *v[i].1 is Connected;
                    if prev[a] == *k {
                        assert(self.peers@.contains_key(*v[i].0));
                        assert(self.peers@.contains_key(*v[j].0));
                        assert(v[i] == v[j]);
                    }
                }
                targets.push(*k);
            }
            assert forall|q: MemberId| #[trigger] targets@.contains(q) <==> exists|i: int|
                0 <= i < j + 1 && *v[i].0 == q && *v[i].1 is Connected by {
                if targets@.contains(q) && !(open && q == *k) {
                    let a = choose|a: int| 0 <= a < targets@.len() && targets@[a] == q;
                    assert(prev[a] == q);
                    assert(prev.contains(q));
                }
                if exists|i: int| 0 <= i < j + 1 && *v[i].0 == q && *v[i].1 is Connected {
                    let i = choose|i: int| 0 <= i < j + 1 && *v[i].0 == q && *v[i].1 is Connected;
                    if i < j {
                        assert(prev.contains(q));
                        let a = choose|a: int| 0 <= a < prev.len() && prev[a] == q;
                        assert(targets@[a] == q);
                    } else {
                        assert(targets@[targets@.len() - 1] == q);
                    }
                }
            }
            proof {
                done = j + 1;
            }
        }
        assert(done == v.len());
        assert forall|m: MemberId| #[trigger] targets@.to_set().contains(m) == connected_peers(self@).contains(m) by {
            if self.peers@.contains_key(m) && self@.peers[m] is Connected {
                assert(v.contains((&m, &self.peers@[m])));
                let i = choose|i: int| 0 <= i < v.len() && v[i] == (&m, &self.peers@[m]);
                assert(*v[i].0 == m);
                assert(targets@.contains(m));
            }
            if targets@.contains(m) {
                let i = choose|i: int| 0 <= i < done && *v[i].0 == m && *v[i].1 is Connected;
                assert(self.peers@.contains_key(*v[i].0));
            }
        }
        assert(targets@.to_set() =~= connected_peers(self@));
        (encode_envelope(self.user_id, payload), targets)
    }

    /// Bytes received on a peer channel: the message and its sender, or
    /// `None` for bytes that are not an envelope. A bad frame is dropped on
    /// its own; the connection stays.
    pub fn receive_message(&self, bytes: &[u8]) -> (r: Option<PeerNetworkEvent>)
        ensures
            match decoded_envelope(bytes@) {
                None => r is None,
                Some(e) => r matches Some(PeerNetworkEvent::Message(sender, p)) && sender
                    == e.sender_id && p@ == e.payload,
            },
    {
        match decode_envelope(bytes) {
            None => None,
            Some(e) => Some(PeerNetworkEvent::Message(e.sender_id, e.payload)),
        }
    }
}

/// `candidate_added` for each of `cs` in turn.
pub open spec fn candidates_added(n: NetworkView, peer: MemberId, cs: Seq<CandidateView>) -> NetworkView
    decreases cs.len(),
{
    if cs.len() == 0 {
        n
    } else {
        candidate_added(candidates_added(n, peer, cs.drop_last()), peer, cs.last())
    }
}

/// Candidates discovered for a connection in progress are held back: after
/// any number of them the connection is still in progress, and the end of
/// discovery then hands out a single handshake that carries all of them, in
/// the order of discovery, after those it held already.
pub proof fn lemma_candidates_batched(n: NetworkView, peer: MemberId, cs: Seq<CandidateView>)
    requires
        is_connecting(n, peer),
    ensures
        ({
            let n1 = candidates_added(n, peer, cs);
            let h = n.peers[peer]->Connecting_0;
            &&& is_connecting(n1, peer)
            &&& n1.peers[peer] == PeerStatusView::Connecting(
                HandshakeView { ice_candidates: h.ice_candidates + cs, ..h },
            )
            &&& gathered(n1, peer).1 == Some(
                HandshakeView { ice_candidates: h.ice_candidates + cs, ..h },
            )
        }),
    decreases cs.len(),
{
    let h = n.peers[peer]->Connecting_0;
    if cs.len() == 0 {
        assert(h.ice_candidates + cs =~= h.ice_candidates);
    } else {
        lemma_candidates_batched(n, peer, cs.drop_last());
        assert(h.ice_candidates + cs.drop_last() + seq![cs.last()] =~= h.ice_candidates + cs);
        assert((h.ice_candidates + cs.drop_last()).push(cs.last()) =~= h.ice_candidates + cs);
    }
}

/// After `initiate_handshake(p)`, a handshake from `p` is taken as the answer
/// to ours: it leaves `p` Connecting. Only the channel's open report then
/// makes `p` Connected.
pub proof fn lemma_answer_waits_for_open(n: NetworkView, h: HandshakeView)
    requires
        !n.peers.contains_key(h.source_id),
    ensures
        ({
            let p = h.source_id;
            let n1 = initiated(n, p);
            let n2 = received(n1, h);
            &&& is_connecting(n1, p)
            &&& n1.peers.contains_key(h.source_id)
            &&& n2 == n1
            &&& is_connecting(n2, p) && !is_connected(n2, p)
            &&& is_connected(opened(n2, p), p)
        }),
{
}

} // verus!
