//! The game client's lobby roster: who is in the lobby and under which name,
//! kept up to date from the peer network's events. A member's name travels
//! by a ping/pong exchange as soon as the channel to it opens.
use std::collections::BTreeMap;
use vstd::prelude::*;

use crate::message::{MemberId, PeerMessage, PeerMessageView, WebSocketMessage};
use crate::peer_network::PeerNetworkEvent;

verus! {

broadcast use vstd::laws_cmp::group_laws_cmp;

/// The name shown for a member until it has told its own.
pub const CONNECTING_NAME: &'static str = "Connecting...";

/// What the roster asks the client to send.
pub enum RosterAction {
    /// Send `1` over the channel to peer `0`.
    SendPeer(MemberId, PeerMessage),
    /// Send this message over the signaling socket.
    SendSignal(WebSocketMessage),
}

pub struct RosterView {
    pub username: Seq<char>,
    pub user_id: MemberId,
    pub users: Map<MemberId, Seq<char>>,
}

/// The roster of the lobby as the local member sees it.
pub struct LobbyRoster {
    username: String,
    user_id: MemberId,
    users: BTreeMap<MemberId, String>,
}

impl View for LobbyRoster {
    type V = RosterView;

    closed spec fn view(&self) -> RosterView {
        RosterView {
            username: self.username@,
            user_id: self.user_id,
            users: self.users@.map_values(|s: String| s@),
        }
    }
}

/// `peers` shown as connecting, in turn, on top of `users`.
pub open spec fn with_connecting(users: Map<MemberId, Seq<char>>, peers: Seq<MemberId>) -> Map<MemberId, Seq<char>>
    decreases peers.len(),
{
    if peers.len() == 0 {
        users
    } else {
        with_connecting(users, peers.drop_last()).insert(peers.last(), CONNECTING_NAME@)
    }
}

impl LobbyRoster {
    /// The roster of a member that joined as `user_id` under `username`,
    /// with the members already there shown as connecting.
    pub fn new(username: String, user_id: MemberId, peers_id: &Vec<MemberId>) -> (r: LobbyRoster)
        ensures
            r@.username == username@,
            r@.user_id == user_id,
            r@.users == with_connecting(Map::empty(), peers_id@).insert(user_id, username@),
    {
        let mut users: BTreeMap<MemberId, String> = BTreeMap::new();
        let mut i: usize = 0;
        while i < peers_id.len()
            invariant
                i <= peers_id@.len(),
                users@.map_values(|s: String| s@) == with_connecting(Map::empty(), peers_id@.take(i as int)),
            decreases peers_id@.len() - i,
        {
            let ghost before = users@;
            users.insert(peers_id[i], CONNECTING_NAME.to_owned());
            assert(peers_id@.take(i + 1).drop_last() =~= peers_id@.take(i as int));
            assert(users@.map_values(|s: String| s@) =~= before.map_values(|s: String| s@).insert(
                peers_id@[i as int],
                CONNECTING_NAME@,
            ));
            i = i + 1;
        }
        assert(peers_id@.take(i as int) =~= peers_id@);
        let ghost before = users@;
        users.insert(user_id, username.clone());
        assert(users@.map_values(|s: String| s@) =~= before.map_values(|s: String| s@).insert(
            user_id,
            username@,
        ));
        LobbyRoster { username, user_id, users }
    }

    /// The name shown for `id`, if `id` is in the roster.
    pub fn name_of(&self, id: MemberId) -> (r: Option<String>)
        ensures
            match r {
                None => !self@.users.contains_key(id),
                Some(s) => self@.users.contains_key(id) && s@ == self@.users[id],
            },
    {
        match self.users.get(&id) {
            None => None,
            Some(s) => Some(s.clone()),
        }
    }

    /// Reacts to one event of the peer network. A peer whose channel opened
    /// joins the roster as connecting and is pinged; a peer that left goes;
    /// a ping is answered with the local name; a pong names its sender, if
    /// it is in the roster; a completed handshake goes to the signaling socket.
    pub fn peer_network_event(&mut self, event: PeerNetworkEvent) -> (r: Option<RosterAction>)
        ensures
            final(self)@.username == old(self)@.username,
            final(self)@.user_id == old(self)@.user_id,
            match event {
                PeerNetworkEvent::Connect(p) => final(self)@.users == old(self)@.users.insert(
                    p,
                    CONNECTING_NAME@,
                ) && (r matches Some(RosterAction::SendPeer(q, PeerMessage::Ping)) && q == p),
                PeerNetworkEvent::Disconnect(p) => final(self)@.users == old(self)@.users.remove(p)
                    && r is None,
                PeerNetworkEvent::Message(p, m) => match m@ {
                    PeerMessageView::Ping => final(self)@.users == old(self)@.users && (r matches Some(
                        RosterAction::SendPeer(q, PeerMessage::Pong(name)),
                    ) && q == p && name@ == old(self)@.username),
                    PeerMessageView::Pong(name) => r is None && final(self)@.users == if old(
                        self,
                    )@.users.contains_key(p) {
                        old(self)@.users.insert(p, name)
                    } else {
                        old(self)@.users
                    },
                },
                PeerNetworkEvent::Handshake(h) => final(self)@.users == old(self)@.users && (r matches Some(
                    RosterAction::SendSignal(WebSocketMessage::PeerHandshake(h2)),
                ) && h2 == h),
            },
    {
        let ghost before = self.users@;
        match event {
            PeerNetworkEvent::Connect(p) => {
                self.users.insert(p, CONNECTING_NAME.to_owned());
                assert(self@.users =~= before.map_values(|s: String| s@).insert(p, CONNECTING_NAME@));
                Some(RosterAction::SendPeer(p, PeerMessage::Ping))
            },
            PeerNetworkEvent::Disconnect(p) => {
                self.users.remove(&p);
                assert(self@.users =~= before.map_values(|s: String| s@).remove(p));
                None
            },
            PeerNetworkEvent::Message(p, PeerMessage::Ping) => {
                Some(RosterAction::SendPeer(p, PeerMessage::Pong(self.username.clone())))
            },
            PeerNetworkEvent::Message(p, PeerMessage::Pong(name)) => {
                if self.users.contains_key(&p) {
                    let ghost n = name@;
                    self.users.insert(p, name);
                    assert(self@.users =~= before.map_values(|s: String| s@).insert(p, n));
                }
                None
            },
            PeerNetworkEvent::Handshake(h) => Some(
                RosterAction::SendSignal(WebSocketMessage::PeerHandshake(h)),
            ),
        }
    }
}

} // verus!
