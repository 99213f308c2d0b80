//! The session state of a player: hosting or joined, the connected peers,
//! the player list everybody sees, the room PIN and the banned addresses.
//! Sockets live outside; every decision about them is taken here.
use vstd::prelude::*;
use crate::protocol::{NetMessage, PlayerInfo, PlayerView, copy_players, players_view, strings_view};
use crate::saves::{base64_decode, base64_encode, base64_len, base64_standard, base64_standard_decoded};
use crate::text::{before_char, concat2, concat3, prefix_before, trim, trimmed};

verus! {

/// The protocol version both sides announce.
pub open spec fn protocol_version() -> Seq<char> {
    "0.1.0"@
}

/// A peer connected to the host: its id, its player name and the address
/// it connected from (`ip:port`).
#[derive(Debug, Clone, PartialEq)]
pub struct PeerInfo {
    pub id: u32,
    pub name: String,
    pub addr: String,
}

/// The mathematical value of a [`PeerInfo`].
pub struct PeerView {
    pub id: u32,
    pub name: Seq<char>,
    pub addr: Seq<char>,
}

impl View for PeerInfo {
    type V = PeerView;

    open spec fn view(&self) -> PeerView {
        PeerView { id: self.id, name: self.name@, addr: self.addr@ }
    }
}

/// The views of a list of peers.
pub open spec fn peers_view(v: Seq<PeerInfo>) -> Seq<PeerView> {
    v.map_values(|p: PeerInfo| p@)
}

/// The session state of one player.
pub struct NetworkManager {
    pub is_hosting: bool,
    pub is_connected: bool,
    pub banned_addrs: Vec<String>,
    pub room_pin: String,
    pub local_name: String,
    pub local_id: u32,
    pub peers: Vec<PeerInfo>,
    pub client_attached: bool,
    pub player_list: Vec<PlayerInfo>,
    pub next_player_id: u32,
}

/// The mathematical value of a [`NetworkManager`].
pub struct NetView {
    pub is_hosting: bool,
    pub is_connected: bool,
    pub banned: Seq<Seq<char>>,
    pub room_pin: Seq<char>,
    pub local_name: Seq<char>,
    pub local_id: u32,
    pub peers: Seq<PeerView>,
    pub client_attached: bool,
    pub players: Seq<PlayerView>,
    pub next_player_id: u32,
}

impl View for NetworkManager {
    type V = NetView;

    open spec fn view(&self) -> NetView {
        NetView {
            is_hosting: self.is_hosting,
            is_connected: self.is_connected,
            banned: strings_view(self.banned_addrs@),
            room_pin: self.room_pin@,
            local_name: self.local_name@,
            local_id: self.local_id,
            peers: peers_view(self.peers@),
            client_attached: self.client_attached,
            players: players_view(self.player_list@),
            next_player_id: self.next_player_id,
        }
    }
}

/// The state of a freshly started player: not hosting, not joined, named
/// "Builder", id 1, the next id to hand out 2.
pub open spec fn initial_view() -> NetView {
    NetView {
        is_hosting: false,
        is_connected: false,
        banned: Seq::empty(),
        room_pin: Seq::empty(),
        local_name: "Builder"@,
        local_id: 1,
        peers: Seq::empty(),
        client_attached: false,
        players: Seq::empty(),
        next_player_id: 2,
    }
}

/// Index of the first player with id `id` in `list[i..]`, or `list.len()`.
pub open spec fn index_of_id(list: Seq<PlayerView>, id: u32, i: int) -> int
    decreases list.len() - i,
{
    if i < 0 || i >= list.len() {
        list.len() as int
    } else if list[i].id == id {
        i
    } else {
        index_of_id(list, id, i + 1)
    }
}

/// Index of the first peer named `name` in `peers[i..]`, or `peers.len()`.
pub open spec fn index_of_name(peers: Seq<PeerView>, name: Seq<char>, i: int) -> int
    decreases peers.len() - i,
{
    if i < 0 || i >= peers.len() {
        peers.len() as int
    } else if peers[i].name == name {
        i
    } else {
        index_of_name(peers, name, i + 1)
    }
}

/// `list` with the entry of player `id` set to `name` and `is_host`; an
/// entry is appended when there is none.
pub open spec fn self_updated(list: Seq<PlayerView>, id: u32, name: Seq<char>, is_host: bool) -> Seq<
    PlayerView,
> {
    let k = index_of_id(list, id, 0);
    let entry = PlayerView { id, name, is_host };
    if k < list.len() {
        list.update(k, entry)
    } else {
        list.push(entry)
    }
}

/// The player-list entries of the peers, in order.
pub open spec fn peer_entries(peers: Seq<PeerView>) -> Seq<PlayerView> {
    peers.map_values(|p: PeerView| PlayerView { id: p.id, name: p.name, is_host: false })
}

/// The player list a host publishes: itself first, then every peer.
pub open spec fn host_list(v: NetView) -> Seq<PlayerView> {
    seq![PlayerView { id: v.local_id, name: v.local_name, is_host: true }] + peer_entries(v.peers)
}

/// `v` with the published player list recomputed.
pub open spec fn with_host_list(v: NetView) -> NetView {
    NetView { players: host_list(v), ..v }
}

/// `peers` without the peers whose id is `id`.
pub open spec fn without_id(peers: Seq<PeerView>, id: u32) -> Seq<PeerView>
    decreases peers.len(),
{
    if peers.len() == 0 {
        peers
    } else {
        let rest = without_id(peers.drop_last(), id);
        if peers.last().id == id {
            rest
        } else {
            rest.push(peers.last())
        }
    }
}

/// `peers` keeping those whose delivery flag is set.
pub open spec fn delivered_to(peers: Seq<PeerView>, delivered: Seq<bool>) -> Seq<PeerView>
    decreases peers.len(),
{
    if peers.len() == 0 || delivered.len() != peers.len() {
        Seq::empty()
    } else {
        let rest = delivered_to(peers.drop_last(), delivered.drop_last());
        if delivered.last() {
            rest.push(peers.last())
        } else {
            rest
        }
    }
}

/// The state after leaving every session.
pub open spec fn disconnected(v: NetView) -> NetView {
    NetView {
        is_hosting: false,
        is_connected: false,
        local_id: 1,
        client_attached: false,
        peers: Seq::empty(),
        players: Seq::empty(),
        banned: Seq::empty(),
        ..v
    }
}

/// The state after the connection to the host is gone.
pub open spec fn client_dropped(v: NetView) -> NetView {
    NetView { is_connected: false, client_attached: false, players: Seq::empty(), ..v }
}

/// The state after this player is renamed `name`.
pub open spec fn after_set_name(v: NetView, name: Seq<char>) -> NetView {
    NetView { local_name: name, players: self_updated(v.players, v.local_id, name, v.is_hosting), ..v }
}

/// The state after the host admits a peer named `name` from `addr`.
pub open spec fn after_admit(v: NetView, name: Seq<char>, addr: Seq<char>) -> NetView {
    with_host_list(
        NetView {
            peers: v.peers.push(PeerView { id: v.next_player_id, name, addr }),
            next_player_id: v.next_player_id.wrapping_add(1),
            ..v
        },
    )
}

/// Index of the peer that a kick or a ban of `name` removes.
pub open spec fn removal_index(v: NetView, name: Seq<char>) -> int {
    index_of_name(v.peers, name, 0)
}

/// A kick or a ban of `name` removes somebody: this player hosts and a
/// peer has that name.
pub open spec fn can_remove(v: NetView, name: Seq<char>) -> bool {
    v.is_hosting && removal_index(v, name) < v.peers.len()
}

/// The address that a ban of `name` refuses.
pub open spec fn ban_address(v: NetView, name: Seq<char>) -> Seq<char> {
    before_char(v.peers[removal_index(v, name)].addr, ':')
}

/// The state after the host kicks `name`.
pub open spec fn after_kick(v: NetView, name: Seq<char>) -> NetView {
    if can_remove(v, name) {
        with_host_list(NetView { peers: v.peers.remove(removal_index(v, name)), ..v })
    } else {
        v
    }
}

/// The state after the host bans `name`.
pub open spec fn after_ban(v: NetView, name: Seq<char>) -> NetView {
    if can_remove(v, name) {
        with_host_list(
            NetView {
                peers: v.peers.remove(removal_index(v, name)),
                banned: v.banned.push(ban_address(v, name)),
                ..v
            },
        )
    } else {
        v
    }
}

/// The player list sent after a change of the peers.
pub open spec fn is_list_update(m: NetMessage, list: Seq<PlayerView>) -> bool {
    match m {
        NetMessage::PlayerListUpdate { players } => players_view(players@) == list,
        _ => false,
    }
}

/// What the host decides about a handshake.
pub enum HandshakeVerdict {
    /// Admit the player with this name.
    Accept { player_name: String },
    /// Send `reply` and close the connection.
    WrongPin { reply: NetMessage },
    /// Close the connection without a reply.
    Invalid,
}

/// What the first line from a host means to a joining client.
pub enum HandshakeEvent {
    /// The host closed the connection.
    Closed,
    /// A line arrived: the message it holds, if it parsed.
    Line { message: Option<NetMessage> },
    /// No line before the read timeout.
    TimedOut,
    /// The read failed with this error text.
    Failed { error: String },
}

/// What a joining client does next.
pub enum HandshakeStep {
    /// Read the next line.
    Continue,
    /// The host admitted us.
    Accepted { assigned_id: u32, host_name: String },
    /// Joining failed with this message.
    Failed { reason: String },
}

/// What an admitted peer is sent and everybody learns.
pub struct Admission {
    pub assigned_id: u32,
    /// The acknowledgement for the new peer.
    pub ack: NetMessage,
    /// The new player list, for every peer.
    pub list_update: NetMessage,
}

/// What follows a kick or a ban.
pub struct Removal {
    /// The peer that was removed; its connection is closed after `notice`.
    pub peer: PeerInfo,
    /// The message for the removed peer.
    pub notice: NetMessage,
    /// The new player list, for every remaining peer.
    pub list_update: NetMessage,
    /// The address part before the first `:` of the peer's address.
    pub ip: String,
}

/// What a client does with a message from its host.
pub struct ClientEffect {
    /// A save glade to write: its name and the zip bytes.
    pub save: Option<(String, Vec<u8>)>,
    /// A chat line to show.
    pub chat: Option<String>,
}

impl NetworkManager {
    /// A fresh session state.
    pub fn new() -> (r: NetworkManager)
        ensures
            r@ == initial_view(),
    {
        let r = NetworkManager {
            is_hosting: false,
            is_connected: false,
            banned_addrs: Vec::new(),
            room_pin: String::new(),
            local_name: String::from_str("Builder"),
            local_id: 1,
            peers: Vec::new(),
            client_attached: false,
            player_list: Vec::new(),
            next_player_id: 2,
        };
        assert(r@.banned =~= Seq::<Seq<char>>::empty());
        assert(r@.peers =~= Seq::<PeerView>::empty());
        assert(r@.players =~= Seq::<PlayerView>::empty());
        r
    }

    /// Hosting or joined.
    pub fn is_active(&self) -> (r: bool)
        ensures
            r == (self.is_hosting || self.is_connected),
    {
        self.is_hosting || self.is_connected
    }

    /// Hosting a session.
    pub fn is_hosting(&self) -> (r: bool)
        ensures
            r == self.is_hosting,
    {
        self.is_hosting
    }

    /// The player name of this player.
    pub fn get_local_name(&self) -> (r: String)
        ensures
            r@ == self.local_name@,
    {
        self.local_name.clone()
    }

    /// The player list as last published or received.
    pub fn get_player_list(&self) -> (r: Vec<PlayerInfo>)
        ensures
            players_view(r@) == self@.players,
    {
        copy_players(&self.player_list)
    }

    /// Sets the PIN that joining players must give.
    pub fn set_room_pin(&mut self, pin: String)
        ensures
            final(self)@ == (NetView { room_pin: pin@, ..old(self)@ }),
    {
        self.room_pin = pin;
    }

    /// Index of the first player with id `id`, or the list's length when
    /// there is none.
    fn find_player(&self, id: u32) -> (r: usize)
        ensures
            r == index_of_id(self@.players, id, 0),
    {
        let mut i: usize = 0;
        while i < self.player_list.len()
            invariant
                i <= self.player_list@.len(),
                index_of_id(self@.players, id, 0) == index_of_id(self@.players, id, i as int),
            decreases self.player_list@.len() - i,
        {
            if self.player_list[i].id == id {
                return i;
            }
            i = i + 1;
        }
        i
    }

    /// Sets this player's own entry in the player list to the current name
    /// and hosting flag, adding the entry when it is missing.
    fn update_self_in_player_list(&mut self)
        ensures
            final(self)@ == (NetView {
                players: self_updated(
                    old(self)@.players,
                    old(self).local_id,
                    old(self).local_name@,
                    old(self).is_hosting,
                ),
                ..old(self)@
            }),
    {
        let name = self.local_name.clone();
        let id: u32 = self.local_id;
        let is_host: bool = self.is_hosting;
        let k = self.find_player(id);
        let ghost before = self@;
        let entry = PlayerInfo { id, name, is_host };
        if k < self.player_list.len() {
            self.player_list.set(k, entry);
        } else {
            self.player_list.push(entry);
        }
        proof {
            let expect = self_updated(before.players, id, before.local_name, is_host);
            assert(self@.players =~= expect);
        }
    }

    /// Sets this player's name, and its own entry in the player list.
    pub fn set_local_name(&mut self, name: String)
        ensures
            final(self)@ == after_set_name(old(self)@, name@),
    {
        self.local_name = name;
        self.update_self_in_player_list();
    }

    /// Recomputes the published player list (this host, then every peer) and
    /// returns the message that announces it.
    fn rebuild_player_list(&mut self) -> (m: NetMessage)
        ensures
            final(self)@ == with_host_list(old(self)@),
            is_list_update(m, host_list(old(self)@)),
    {
        let mut list: Vec<PlayerInfo> = Vec::new();
        list.push(PlayerInfo { id: self.local_id, name: self.local_name.clone(), is_host: true });
        let mut i: usize = 0;
        while i < self.peers.len()
            invariant
                i <= self.peers@.len(),
                list@.len() == i + 1,
                list@[0]@ == (PlayerView { id: self.local_id, name: self.local_name@, is_host: true }),
                forall|k: int|
                    0 <= k < i ==> #[trigger] list@[k + 1]@ == (PlayerView {
                        id: self.peers@[k].id,
                        name: self.peers@[k].name@,
                        is_host: false,
                    }),
            decreases self.peers@.len() - i,
        {
            let p = &self.peers[i];
            list.push(PlayerInfo { id: p.id, name: p.name.clone(), is_host: false });
            i = i + 1;
        }
        proof {
            let v = self@;
            assert forall|k: int| 0 <= k < list@.len() implies #[trigger] players_view(list@)[k]
                == host_list(v)[k] by {
                if k > 0 {
                    assert(list@[(k - 1) + 1]@ == host_list(v)[k]);
                }
            }
            assert(players_view(list@) =~= host_list(v));
        }
        let copy = copy_players(&list);
        self.player_list = list;
        NetMessage::PlayerListUpdate { players: copy }
    }

    /// Starts hosting once the listening socket is set up: `listening` is
    /// the outcome of binding it. The PIN is recorded either way; on success
    /// this player becomes host with id 1 and the only entry of the list.
    pub fn start_host(&mut self, pin: String, listening: Result<(), String>) -> (r: Result<
        (),
        String,
    >)
        ensures
            match listening {
                Err(e) => r == Err::<(), String>(e) && final(self)@ == (NetView {
                    room_pin: pin@,
                    ..old(self)@
                }),
                Ok(()) => r is Ok && final(self)@ == (NetView {
                    room_pin: pin@,
                    is_hosting: true,
                    local_id: 1,
                    players: seq![PlayerView { id: 1, name: old(self)@.local_name, is_host: true }],
                    ..old(self)@
                }),
            },
    {
        self.room_pin = pin;
        match listening {
            Err(e) => Err(e),
            Ok(()) => {
                self.is_hosting = true;
                self.local_id = 1;
                let mut list: Vec<PlayerInfo> = Vec::new();
                list.push(PlayerInfo { id: 1, name: self.local_name.clone(), is_host: true });
                self.player_list = list;
                proof {
                    assert(self@.players =~= seq![
                        PlayerView { id: 1, name: self@.local_name, is_host: true },
                    ]);
                }
                Ok(())
            },
        }
    }

    /// Whether connections from `ip` are refused.
    pub fn is_banned(&self, ip: &str) -> (r: bool)
        ensures
            r == self@.banned.contains(ip@),
    {
        let mut i: usize = 0;
        while i < self.banned_addrs.len()
            invariant
                i <= self.banned_addrs@.len(),
                forall|k: int| 0 <= k < i ==> self.banned_addrs@[k]@ != ip@,
            decreases self.banned_addrs@.len() - i,
        {
            if string_eq_str(&self.banned_addrs[i], ip) {
                proof {
                    assert(self@.banned[i as int] == ip@);
                }
                return true;
            }
            i = i + 1;
        }
        proof {
            if self@.banned.contains(ip@) {
                let k = choose|k: int| 0 <= k < self@.banned.len() && self@.banned[k] == ip@;
                assert(self.banned_addrs@[k]@ == ip@);
            }
        }
        false
    }

    /// The host's verdict on the first message of a new connection
    /// (`None` when it was not a message).
    pub fn check_handshake(&self, msg: Option<NetMessage>) -> (r: HandshakeVerdict)
        ensures
            match msg {
                Some(NetMessage::Handshake { player_name, pin, .. }) => if self.room_pin@.len()
                    > 0 && pin@ != self.room_pin@ {
                    match r {
                        HandshakeVerdict::WrongPin { reply } => match reply {
                            NetMessage::HandshakeReject { reason } => reason@ == "Wrong PIN"@,
                            _ => false,
                        },
                        _ => false,
                    }
                } else {
                    match r {
                        HandshakeVerdict::Accept { player_name: n } => n@ == player_name@,
                        _ => false,
                    }
                },
                _ => r is Invalid,
            },
    {
        match msg {
            Some(NetMessage::Handshake { player_name, pin, .. }) => {
                let expected = &self.room_pin;
                if expected.unicode_len() > 0 && !string_eq_str(&pin, expected.as_str()) {
                    HandshakeVerdict::WrongPin {
                        reply: NetMessage::HandshakeReject { reason: String::from_str("Wrong PIN") },
                    }
                } else {
                    HandshakeVerdict::Accept { player_name }
                }
            },
            _ => HandshakeVerdict::Invalid,
        }
    }

    /// Admits a peer that passed the handshake: it gets the next id, is
    /// added after the other peers, and the player list is republished.
    pub fn admit_peer(&mut self, player_name: String, addr: String) -> (r: Admission)
        ensures
            r.assigned_id == old(self).next_player_id,
            final(self)@ == after_admit(old(self)@, player_name@, addr@),
            match r.ack {
                NetMessage::HandshakeAck { assigned_id, server_version, host_name } => assigned_id
                    == old(self).next_player_id && server_version@ == protocol_version()
                    && host_name@ == old(self).local_name@,
                _ => false,
            },
            is_list_update(r.list_update, final(self)@.players),
    {
        let assigned_id: u32 = self.next_player_id;
        self.next_player_id = self.next_player_id.wrapping_add(1);
        let ack = NetMessage::HandshakeAck {
            assigned_id,
            server_version: String::from_str("0.1.0"),
            host_name: self.local_name.clone(),
        };
        let ghost before = self@;
        self.peers.push(PeerInfo { id: assigned_id, name: player_name, addr });
        proof {
            assert(self@.peers =~= before.peers.push(
                PeerView { id: assigned_id, name: self.peers@.last().name@, addr: self.peers@.last().addr@ },
            ));
        }
        let list_update = self.rebuild_player_list();
        Admission { assigned_id, ack, list_update }
    }

    /// Forgets the peer `id` whose connection ended, and republishes the
    /// player list.
    pub fn peer_disconnected(&mut self, id: u32) -> (m: NetMessage)
        ensures
            final(self)@ == with_host_list(
                NetView { peers: without_id(old(self)@.peers, id), ..old(self)@ },
            ),
            is_list_update(m, final(self)@.players),
    {
        let mut kept: Vec<PeerInfo> = Vec::new();
        let mut i: usize = 0;
        while i < self.peers.len()
            invariant
                i <= self.peers@.len(),
                peers_view(kept@) == without_id(peers_view(self.peers@).subrange(0, i as int), id),
            decreases self.peers@.len() - i,
        {
            let ghost pre = peers_view(self.peers@).subrange(0, i as int);
            let p = &self.peers[i];
            if p.id != id {
                kept.push(PeerInfo { id: p.id, name: p.name.clone(), addr: p.addr.clone() });
            }
            proof {
                let nxt = peers_view(self.peers@).subrange(0, i + 1);
                assert(nxt.drop_last() =~= pre);
                assert(peers_view(kept@) =~= without_id(nxt, id));
            }
            i = i + 1;
        }
        proof {
            assert(peers_view(self.peers@).subrange(0, self.peers@.len() as int) =~= peers_view(
                self.peers@,
            ));
        }
        self.peers = kept;
        self.rebuild_player_list()
    }

    /// Records which peers the last broadcast reached (`delivered[i]` for
    /// peer `i`) and forgets the others.
    pub fn broadcast_message(&mut self, delivered: &Vec<bool>)
        requires
            delivered@.len() == old(self).peers@.len(),
        ensures
            final(self)@ == (NetView {
                peers: delivered_to(old(self)@.peers, delivered@),
                ..old(self)@
            }),
    {
        let mut kept: Vec<PeerInfo> = Vec::new();
        let mut i: usize = 0;
        while i < self.peers.len()
            invariant
                i <= self.peers@.len(),
                delivered@.len() == self.peers@.len(),
                peers_view(kept@) == delivered_to(
                    peers_view(self.peers@).subrange(0, i as int),
                    delivered@.subrange(0, i as int),
                ),
            decreases self.peers@.len() - i,
        {
            let ghost pre = peers_view(self.peers@).subrange(0, i as int);
            let ghost dpre = delivered@.subrange(0, i as int);
            let p = &self.peers[i];
            if delivered[i] {
                kept.push(PeerInfo { id: p.id, name: p.name.clone(), addr: p.addr.clone() });
            }
            proof {
                let nxt = peers_view(self.peers@).subrange(0, i + 1);
                let dnxt = delivered@.subrange(0, i + 1);
                assert(nxt.drop_last() =~= pre);
                assert(dnxt.drop_last() =~= dpre);
                assert(peers_view(kept@) =~= delivered_to(nxt, dnxt));
            }
            i = i + 1;
        }
        proof {
            assert(peers_view(self.peers@).subrange(0, self.peers@.len() as int) =~= peers_view(
                self.peers@,
            ));
            assert(delivered@.subrange(0, delivered@.len() as int) =~= delivered@);
        }
        self.peers = kept;
    }

    /// Index of the first peer named `name`.
    fn find_peer(&self, name: &str) -> (r: usize)
        ensures
            r == index_of_name(self@.peers, name@, 0),
    {
        let mut i: usize = 0;
        while i < self.peers.len()
            invariant
                i <= self.peers@.len(),
                index_of_name(self@.peers, name@, 0) == index_of_name(self@.peers, name@, i as int),
            decreases self.peers@.len() - i,
        {
            if string_eq_str(&self.peers[i].name, name) {
                return i;
            }
            i = i + 1;
        }
        i
    }

    /// Removes the peer at `k`, republishes the list, and says what to send.
    fn remove_peer(&mut self, k: usize, notice: NetMessage) -> (r: Removal)
        requires
            k < old(self).peers@.len(),
        ensures
            final(self)@ == with_host_list(
                NetView { peers: old(self)@.peers.remove(k as int), ..old(self)@ },
            ),
            r.peer@ == old(self)@.peers[k as int],
            r.ip@ == before_char(old(self)@.peers[k as int].addr, ':'),
            r.notice == notice,
            is_list_update(r.list_update, final(self)@.players),
    {
        let ghost before = self@;
        let peer = self.peers.remove(k);
        proof {
            assert(self@.peers =~= before.peers.remove(k as int));
        }
        let ip = prefix_before(peer.addr.as_str(), ':');
        let list_update = self.rebuild_player_list();
        Removal { peer, notice, list_update, ip }
    }

    /// The host removes the first peer named `player_name` and tells it so;
    /// `None` (and no change) when not hosting or when there is no such peer.
    pub fn kick_player(&mut self, player_name: &str) -> (r: Option<Removal>)
        ensures
            final(self)@ == after_kick(old(self)@, player_name@),
            ({
                let k = removal_index(old(self)@, player_name@);
                if can_remove(old(self)@, player_name@) {
                    r matches Some(rm) && rm.peer@ == old(self)@.peers[k] && match rm.notice {
                        NetMessage::YouKicked { reason } => reason@ == "Kicked by host"@,
                        _ => false,
                    } && is_list_update(rm.list_update, final(self)@.players)
                } else {
                    r is None
                }
            }),
    {
        if !self.is_hosting {
            return None;
        }
        let k = self.find_peer(player_name);
        proof {
            lemma_index_of_name_bound(self@.peers, player_name@, 0);
        }
        if k >= self.peers.len() {
            return None;
        }
        let notice = NetMessage::YouKicked { reason: String::from_str("Kicked by host") };
        Some(self.remove_peer(k, notice))
    }

    /// The host removes the first peer named `player_name`, tells it so and
    /// refuses its address (the part before the first `:`) from then on;
    /// `None` (and no change) when not hosting or when there is no such peer.
    pub fn ban_player(&mut self, player_name: &str) -> (r: Option<Removal>)
        ensures
            final(self)@ == after_ban(old(self)@, player_name@),
            ({
                let k = removal_index(old(self)@, player_name@);
                if can_remove(old(self)@, player_name@) {
                    r matches Some(rm) && rm.peer@ == old(self)@.peers[k] && rm.ip@ == ban_address(
                        old(self)@,
                        player_name@,
                    ) && match rm.notice {
                        NetMessage::YouBanned { reason } => reason@ == "Banned by host"@,
                        _ => false,
                    } && is_list_update(rm.list_update, final(self)@.players)
                } else {
                    r is None
                }
            }),
    {
        if !self.is_hosting {
            return None;
        }
        let k = self.find_peer(player_name);
        proof {
            lemma_index_of_name_bound(self@.peers, player_name@, 0);
        }
        if k >= self.peers.len() {
            return None;
        }
        let notice = NetMessage::YouBanned { reason: String::from_str("Banned by host") };
        let rm = self.remove_peer(k, notice);
        let ghost mid = self@;
        self.banned_addrs.push(rm.ip.clone());
        proof {
            assert(self@.banned =~= mid.banned.push(rm.ip@));
        }
        Some(rm)
    }

    /// Leaves every session: stops hosting, drops the host connection, the
    /// peers, the player list and the banned addresses; the id returns to 1.
    pub fn disconnect(&mut self)
        ensures
            final(self)@ == disconnected(old(self)@),
    {
        self.is_hosting = false;
        self.is_connected = false;
        self.local_id = 1;
        self.client_attached = false;
        self.peers = Vec::new();
        self.player_list = Vec::new();
        self.banned_addrs = Vec::new();
        assert(self@.peers =~= Seq::<PeerView>::empty());
        assert(self@.players =~= Seq::<PlayerView>::empty());
        assert(self@.banned =~= Seq::<Seq<char>>::empty());
    }

    /// Starts joining a host: clears the player list (the host's list will
    /// replace it) and returns the handshake to send.
    pub fn begin_connect(&mut self, pin: String) -> (m: NetMessage)
        ensures
            final(self)@ == (NetView { players: Seq::empty(), ..old(self)@ }),
            match m {
                NetMessage::Handshake { client_version, player_name, pin: p } => client_version@
                    == protocol_version() && player_name@ == old(self).local_name@ && p@ == pin@,
                _ => false,
            },
    {
        self.player_list = Vec::new();
        assert(self@.players =~= Seq::<PlayerView>::empty());
        NetMessage::Handshake {
            client_version: String::from_str("0.1.0"),
            player_name: self.local_name.clone(),
            pin,
        }
    }

    /// Completes joining once the host assigned `assigned_id`.
    pub fn complete_connection(&mut self, assigned_id: u32)
        ensures
            ({
                let v = NetView {
                    client_attached: true,
                    is_connected: true,
                    local_id: assigned_id,
                    ..old(self)@
                };
                final(self)@ == (NetView {
                    players: self_updated(v.players, assigned_id, v.local_name, v.is_hosting),
                    ..v
                })
            }),
    {
        self.client_attached = true;
        self.is_connected = true;
        self.local_id = assigned_id;
        self.update_self_in_player_list();
    }

    /// The connection to the host ended: not joined any more, and no list.
    pub fn client_lost(&mut self)
        ensures
            final(self)@ == client_dropped(old(self)@),
    {
        self.is_connected = false;
        self.client_attached = false;
        self.player_list = Vec::new();
        assert(self@.players =~= Seq::<PlayerView>::empty());
    }

    /// Reacts to a message: a kick or a ban ends the session as a client; a
    /// chat message gives the line `[sender] text` to show.
    pub fn handle_incoming_message(&mut self, msg: &NetMessage) -> (chat: Option<String>)
        ensures
            match *msg {
                NetMessage::YouKicked { .. } | NetMessage::YouBanned { .. } => final(self)@
                    == client_dropped(old(self)@) && chat is None,
                NetMessage::ChatMessage { sender, text } => final(self)@ == old(self)@
                    && (chat matches Some(c) && c@ == seq!['['] + sender@ + "] "@ + text@),
                _ => final(self)@ == old(self)@ && chat is None,
            },
    {
        match msg {
            NetMessage::YouKicked { .. } => {
                self.client_lost();
                None
            },
            NetMessage::YouBanned { .. } => {
                self.client_lost();
                None
            },
            NetMessage::ChatMessage { sender, text } => {
                let head = concat3("[", sender.as_str(), "] ");
                proof {
                    reveal_strlit("[");
                    assert("["@ =~= seq!['[']);
                }
                Some(head.concat(text.as_str()))
            },
            _ => None,
        }
    }
}

/// `m` carries the glade `name` packed as `bytes`, in base64.
pub open spec fn is_save_sync(m: NetMessage, name: Seq<char>, bytes: Seq<u8>) -> bool {
    match m {
        NetMessage::SyncSaveState { glade_name, save_bytes_base64 } => {
            &&& glade_name@ == name
            &&& save_bytes_base64@ == base64_standard(bytes)
            &&& base64_standard_decoded(save_bytes_base64@) == Some(bytes)
        },
        _ => false,
    }
}

/// The glade that a message carries, when it is a save sync whose base64
/// text decodes.
pub open spec fn sync_payload(m: NetMessage) -> Option<(Seq<char>, Seq<u8>)> {
    match m {
        NetMessage::SyncSaveState { glade_name, save_bytes_base64 } => match base64_standard_decoded(
            save_bytes_base64@,
        ) {
            Some(b) => Some((glade_name@, b)),
            None => None,
        },
        _ => None,
    }
}

/// The state of a client after a message from its host: a player list
/// replaces its own, a kick or a ban ends the session.
pub open spec fn client_after(v: NetView, m: NetMessage) -> NetView {
    match m {
        NetMessage::PlayerListUpdate { players } => NetView { players: players_view(players@), ..v },
        NetMessage::YouKicked { .. } | NetMessage::YouBanned { .. } => client_dropped(v),
        _ => v,
    }
}

/// The message that sends the glade `glade_name`, packed as `zip_bytes`.
pub fn save_sync_message(glade_name: String, zip_bytes: &Vec<u8>) -> (m: NetMessage)
    requires
        base64_len(zip_bytes@.len()) <= usize::MAX,
    ensures
        is_save_sync(m, glade_name@, zip_bytes@),
{
    let text = base64_encode(zip_bytes.as_slice());
    NetMessage::SyncSaveState { glade_name, save_bytes_base64: text }
}

impl NetworkManager {
    /// What a client does with a message from its host: take over a player
    /// list, hand out a received glade to be written, and react as
    /// [`NetworkManager::handle_incoming_message`] does.
    pub fn receive_as_client(&mut self, msg: NetMessage) -> (e: ClientEffect)
        ensures
            final(self)@ == client_after(old(self)@, msg),
            match e.save {
                Some(pair) => sync_payload(msg) == Some((pair.0@, pair.1@)),
                None => sync_payload(msg) is None,
            },
            match msg {
                NetMessage::ChatMessage { sender, text } => e.chat matches Some(c) && c@ == seq![
                    '[',
                ] + sender@ + "] "@ + text@,
                _ => e.chat is None,
            },
    {
        let mut save: Option<(String, Vec<u8>)> = None;
        match &msg {
            NetMessage::PlayerListUpdate { players } => {
                self.player_list = copy_players(players);
            },
            NetMessage::SyncSaveState { glade_name, save_bytes_base64 } => {
                match base64_decode(save_bytes_base64.as_str()) {
                    Some(bytes) => {
                        save = Some((glade_name.clone(), bytes));
                    },
                    None => {},
                }
            },
            _ => {},
        }
        let chat = self.handle_incoming_message(&msg);
        ClientEffect { save, chat }
    }
}

/// A client decodes from a save sync exactly the glade name and bytes the
/// host packed into it.
pub proof fn law_sync_round_trip(m: NetMessage, name: Seq<char>, bytes: Seq<u8>)
    requires
        is_save_sync(m, name, bytes),
    ensures
        sync_payload(m) == Some((name, bytes)),
{
}

/// `a` and `b` hold the same text.
pub fn string_eq_str(a: &String, b: &str) -> (r: bool)
    ensures
        r == (a@ == b@),
{
    let other = b.to_owned();
    *a == other
}

proof fn lemma_index_of_name_bound(peers: Seq<PeerView>, name: Seq<char>, i: int)
    requires
        0 <= i,
    ensures
        i <= index_of_name(peers, name, i) <= peers.len() || index_of_name(peers, name, i)
            == peers.len(),
        index_of_name(peers, name, i) < peers.len() ==> peers[index_of_name(peers, name, i)].name
            == name,
    decreases peers.len() - i,
{
    if i < peers.len() && peers[i].name != name {
        lemma_index_of_name_bound(peers, name, i + 1);
    }
}

/// The text of a received line with surrounding whitespace removed, or
/// `None` for a blank line.
pub fn frame_line(line: &str) -> (r: Option<String>)
    ensures
        match r {
            Some(t) => t@ == trimmed(line@) && t@.len() > 0,
            None => trimmed(line@).len() == 0,
        },
{
    let t = trim(line);
    if t.unicode_len() == 0 {
        None
    } else {
        Some(t)
    }
}

/// What a joining client does with the host's reply.
pub fn handshake_reply(event: HandshakeEvent) -> (r: HandshakeStep)
    ensures
        match event {
            HandshakeEvent::Closed => r matches HandshakeStep::Failed { reason } && reason@
                == "Host closed the connection — session may not exist."@,
            HandshakeEvent::TimedOut => r matches HandshakeStep::Failed { reason } && reason@
                == "No response from host — the session doesn't exist or is unreachable."@,
            HandshakeEvent::Failed { error } => r matches HandshakeStep::Failed { reason }
                && reason@ == "Connection error: "@ + error@,
            HandshakeEvent::Line { message } => match message {
                Some(NetMessage::HandshakeAck { assigned_id, host_name, .. }) => r matches HandshakeStep::Accepted {
                    assigned_id: id,
                    host_name: h,
                } && id == assigned_id && h@ == host_name@,
                Some(NetMessage::HandshakeReject { reason }) => r matches HandshakeStep::Failed {
                    reason: why,
                } && why@ == "Rejected: "@ + reason@,
                _ => r is Continue,
            },
        },
{
    match event {
        HandshakeEvent::Closed => HandshakeStep::Failed {
            reason: String::from_str("Host closed the connection — session may not exist."),
        },
        HandshakeEvent::TimedOut => HandshakeStep::Failed {
            reason: String::from_str(
                "No response from host — the session doesn't exist or is unreachable.",
            ),
        },
        HandshakeEvent::Failed { error } => HandshakeStep::Failed {
            reason: concat2("Connection error: ", error.as_str()),
        },
        HandshakeEvent::Line { message } => match message {
            Some(NetMessage::HandshakeAck { assigned_id, host_name, .. }) => HandshakeStep::Accepted {
                assigned_id,
                host_name,
            },
            Some(NetMessage::HandshakeReject { reason }) => HandshakeStep::Failed {
                reason: concat2("Rejected: ", reason.as_str()),
            },
            _ => HandshakeStep::Continue,
        },
    }
}

/// After a rename, this player's own entry in the player list carries the
/// new name, its id and its hosting flag.
pub proof fn law_rename_shows_in_list(v: NetView, name: Seq<char>)
    ensures
        ({
            let w = after_set_name(v, name);
            &&& w.local_name == name
            &&& exists|k: int|
                0 <= k < w.players.len() && #[trigger] w.players[k] == (PlayerView {
                    id: v.local_id,
                    name,
                    is_host: v.is_hosting,
                })
        }),
{
    let w = after_set_name(v, name);
    lemma_index_of_id_bound(v.players, v.local_id, 0);
    let k = index_of_id(v.players, v.local_id, 0);
    if k < v.players.len() {
        assert(w.players[k] == (PlayerView { id: v.local_id, name, is_host: v.is_hosting }));
    } else {
        assert(w.players[v.players.len() as int] == (PlayerView {
            id: v.local_id,
            name,
            is_host: v.is_hosting,
        }));
    }
}

/// The list a host publishes starts with the host itself, marked as host,
/// followed by every peer in order, none marked as host.
pub proof fn law_host_list_shape(v: NetView)
    ensures
        host_list(v).len() == v.peers.len() + 1,
        host_list(v)[0] == (PlayerView { id: v.local_id, name: v.local_name, is_host: true }),
        forall|k: int|
            0 <= k < v.peers.len() ==> #[trigger] host_list(v)[k + 1] == (PlayerView {
                id: v.peers[k].id,
                name: v.peers[k].name,
                is_host: false,
            }),
{
}

/// A ban makes the banned player's address refused from then on.
pub proof fn law_ban_refuses_address(v: NetView, name: Seq<char>)
    requires
        can_remove(v, name),
    ensures
        after_ban(v, name).banned.contains(ban_address(v, name)),
        after_ban(v, name).peers.len() + 1 == v.peers.len(),
{
    let w = after_ban(v, name);
    lemma_index_of_name_bound(v.peers, name, 0);
    assert(w.banned[v.banned.len() as int] == ban_address(v, name));
}

/// Kicking a player right after admitting it, by a name no other peer
/// has, gives back the peers and the player list from before; only the
/// next id has moved on.
pub proof fn law_admit_then_kick(v: NetView, name: Seq<char>, addr: Seq<char>)
    requires
        v.is_hosting,
        forall|k: int| 0 <= k < v.peers.len() ==> #[trigger] v.peers[k].name != name,
    ensures
        after_kick(after_admit(v, name, addr), name) == with_host_list(
            NetView { next_player_id: v.next_player_id.wrapping_add(1), ..v },
        ),
{
    let a = after_admit(v, name, addr);
    lemma_index_of_name_absent(a.peers, name, 0, v.peers.len() as int);
    assert(a.peers.remove(v.peers.len() as int) =~= v.peers);
}

/// Leaving leaves nothing behind: not hosting, not joined, no peers, no
/// players, no bans, and the id back to 1; the name and PIN stay.
pub proof fn law_disconnect_leaves_nothing(v: NetView)
    ensures
        !disconnected(v).is_hosting && !disconnected(v).is_connected,
        !disconnected(v).client_attached,
        disconnected(v).peers.len() == 0,
        disconnected(v).players.len() == 0,
        disconnected(v).banned.len() == 0,
        disconnected(v).local_id == 1,
        disconnected(v).local_name == v.local_name,
        disconnected(v).room_pin == v.room_pin,
{
}

/// Every peer id is below the next id to hand out.
pub open spec fn ids_below_next(v: NetView) -> bool {
    forall|k: int| 0 <= k < v.peers.len() ==> #[trigger] v.peers[k].id < v.next_player_id
}

/// Admitting a peer, while ids have not run out, keeps every peer id below
/// the next one and gives the new peer an id no other peer has.
pub proof fn law_admit_gives_fresh_id(v: NetView, name: Seq<char>, addr: Seq<char>)
    requires
        ids_below_next(v),
        v.next_player_id < u32::MAX,
    ensures
        ids_below_next(after_admit(v, name, addr)),
        forall|k: int| 0 <= k < v.peers.len() ==> #[trigger] v.peers[k].id != v.next_player_id,
{
    let w = after_admit(v, name, addr);
    assert forall|k: int| 0 <= k < w.peers.len() implies #[trigger] w.peers[k].id < w.next_player_id by {
        if k < v.peers.len() {
            assert(w.peers[k] == v.peers[k]);
        }
    }
}

/// The state after the host admits, one after another, the players
/// `joins`, each given by its name and its address.
pub open spec fn after_admits(v: NetView, joins: Seq<(Seq<char>, Seq<char>)>) -> NetView
    decreases joins.len(),
{
    if joins.len() == 0 {
        v
    } else {
        after_admit(after_admits(v, joins.drop_last()), joins.last().0, joins.last().1)
    }
}

/// The peers that admitting `joins` adds, numbered from `first` on.
pub open spec fn numbered_peers(first: int, joins: Seq<(Seq<char>, Seq<char>)>) -> Seq<PeerView> {
    Seq::new(
        joins.len(),
        |i: int| PeerView { id: (first + i) as u32, name: joins[i].0, addr: joins[i].1 },
    )
}

proof fn lemma_after_admits(v: NetView, joins: Seq<(Seq<char>, Seq<char>)>)
    requires
        v.next_player_id + joins.len() <= u32::MAX,
    ensures
        ({
            let w = after_admits(v, joins);
            &&& w.next_player_id == v.next_player_id + joins.len()
            &&& w.peers == v.peers + numbered_peers(v.next_player_id as int, joins)
            &&& w.local_id == v.local_id
            &&& w.local_name == v.local_name
            &&& w.is_hosting == v.is_hosting
            &&& (joins.len() > 0 || v.players == host_list(v)) ==> w.players == host_list(w)
        }),
    decreases joins.len(),
{
    if joins.len() > 0 {
        let front = joins.drop_last();
        lemma_after_admits(v, front);
        let u = after_admits(v, front);
        let w = after_admits(v, joins);
        assert(w.peers =~= v.peers + numbered_peers(v.next_player_id as int, joins)) by {
            assert(numbered_peers(v.next_player_id as int, joins) =~= numbered_peers(
                v.next_player_id as int,
                front,
            ).push(PeerView { id: u.next_player_id, name: joins.last().0, addr: joins.last().1 }));
        }
    }
}

/// Admitting players one after another on a host that has just started
/// (its own id 1, no peers, the next id 2, its list published) numbers
/// them 2, 3, 4, ... in the order they came: the `i`-th admission hands
/// out id `i + 2`, no id twice and never the host's; the published list is
/// then the host followed by every admitted player in that order. Ids are
/// taken to stay below `u32::MAX`.
pub proof fn law_admissions_number_players_in_order(
    v: NetView,
    joins: Seq<(Seq<char>, Seq<char>)>,
)
    requires
        v.is_hosting,
        v.local_id == 1,
        v.peers.len() == 0,
        v.next_player_id == 2,
        v.players == host_list(v),
        joins.len() + 2 <= u32::MAX,
    ensures
        forall|i: int|
            0 <= i < joins.len() ==> #[trigger] after_admits(v, joins.take(i)).next_player_id == i
                + 2,
        ({
            let w = after_admits(v, joins);
            &&& w.next_player_id == joins.len() + 2
            &&& w.peers.len() == joins.len()
            &&& w.players.len() == joins.len() + 1
            &&& w.players[0] == (PlayerView { id: 1, name: v.local_name, is_host: true })
            &&& forall|i: int|
                0 <= i < joins.len() ==> w.peers[i] == (PeerView {
                    id: (i + 2) as u32,
                    name: (#[trigger] joins[i]).0,
                    addr: joins[i].1,
                }) && w.players[i + 1] == (PlayerView {
                    id: (i + 2) as u32,
                    name: joins[i].0,
                    is_host: false,
                })
        }),
{
    assert forall|i: int| 0 <= i < joins.len() implies #[trigger] after_admits(
        v,
        joins.take(i),
    ).next_player_id == i + 2 by {
        lemma_after_admits(v, joins.take(i));
    }
    lemma_after_admits(v, joins);
    let w = after_admits(v, joins);
    assert(v.peers + numbered_peers(2, joins) =~= numbered_peers(2, joins));
    assert forall|i: int| 0 <= i < joins.len() implies w.peers[i] == (PeerView {
        id: (i + 2) as u32,
        name: (#[trigger] joins[i]).0,
        addr: joins[i].1,
    }) && w.players[i + 1] == (PlayerView { id: (i + 2) as u32, name: joins[i].0, is_host: false }) by {
        law_host_list_shape(w);
    }
    law_host_list_shape(w);
}

/// Kicking and banning keep every peer id below the next one.
pub proof fn law_removal_keeps_ids_below_next(v: NetView, name: Seq<char>)
    requires
        ids_below_next(v),
    ensures
        ids_below_next(after_kick(v, name)),
        ids_below_next(after_ban(v, name)),
{
    lemma_index_of_name_bound(v.peers, name, 0);
    if can_remove(v, name) {
        let i = removal_index(v, name);
        let rest = v.peers.remove(i);
        assert forall|k: int| 0 <= k < rest.len() implies #[trigger] rest[k].id < v.next_player_id by {
            if k < i {
                assert(rest[k] == v.peers[k]);
            } else {
                assert(rest[k] == v.peers[k + 1]);
            }
        }
    }
}

proof fn lemma_index_of_name_first(peers: Seq<PeerView>, name: Seq<char>, i: int)
    requires
        0 <= i,
    ensures
        forall|k: int|
            i <= k < index_of_name(peers, name, i) && k < peers.len() ==> (#[trigger] peers[k]).name
                != name,
        (exists|k: int| i <= k < peers.len() && (#[trigger] peers[k]).name == name) ==> i
            <= index_of_name(peers, name, i) < peers.len(),
    decreases peers.len() - i,
{
    lemma_index_of_name_bound(peers, name, i);
    if i < peers.len() && peers[i].name != name {
        lemma_index_of_name_first(peers, name, i + 1);
        if exists|k: int| i <= k < peers.len() && (#[trigger] peers[k]).name == name {
            let k = choose|k: int| i <= k < peers.len() && (#[trigger] peers[k]).name == name;
            assert(k != i);
        }
    }
}

/// Kicking or banning `name` on a host where a peer has that name removes
/// exactly the first peer of that name, keeps every other peer in its
/// order, and republishes the list; a ban also refuses that peer's address
/// (its text before the first `:`). Otherwise nothing changes.
pub proof fn law_removal_takes_the_first_peer_of_that_name(v: NetView, name: Seq<char>)
    ensures
        (v.is_hosting && exists|k: int| 0 <= k < v.peers.len() && (#[trigger] v.peers[k]).name == name)
            ==> exists|i: int|
            0 <= i < v.peers.len() && (#[trigger] v.peers[i]).name == name && (forall|k: int|
                0 <= k < i ==> (#[trigger] v.peers[k]).name != name) && after_kick(v, name)
                == with_host_list(NetView { peers: v.peers.remove(i), ..v }) && after_ban(v, name)
                == with_host_list(
                NetView {
                    peers: v.peers.remove(i),
                    banned: v.banned.push(before_char(v.peers[i].addr, ':')),
                    ..v
                },
            ),
        !(v.is_hosting && exists|k: int| 0 <= k < v.peers.len() && (#[trigger] v.peers[k]).name
            == name) ==> after_kick(v, name) == v && after_ban(v, name) == v,
{
    lemma_index_of_name_first(v.peers, name, 0);
    lemma_index_of_name_bound(v.peers, name, 0);
    let i = index_of_name(v.peers, name, 0);
    if v.is_hosting && exists|k: int| 0 <= k < v.peers.len() && (#[trigger] v.peers[k]).name == name {
        assert(v.peers[i].name == name);
        assert(forall|k: int| 0 <= k < i ==> (#[trigger] v.peers[k]).name != name);
    } else {
        if i < v.peers.len() {
            assert(v.peers[i].name == name);
        }
    }
}

/// When a peer's connection ends, every other peer stays, in its order,
/// and only peers with that id go: the peers kept are the old peers whose
/// id differs.
pub proof fn law_disconnect_keeps_every_other_peer(peers: Seq<PeerView>, id: u32)
    ensures
        without_id(peers, id) == peers.filter(|p: PeerView| p.id != id),
        forall|k: int|
            0 <= k < peers.len() && (#[trigger] peers[k]).id != id ==> without_id(peers, id).contains(
                peers[k],
            ),
        forall|k: int|
            0 <= k < without_id(peers, id).len() ==> (#[trigger] without_id(peers, id)[k]).id != id
                && peers.contains(without_id(peers, id)[k]),
    decreases peers.len(),
{
    let pred = |p: PeerView| p.id != id;
    reveal(Seq::filter);
    if peers.len() > 0 {
        law_disconnect_keeps_every_other_peer(peers.drop_last(), id);
    }
    assert(without_id(peers, id) == peers.filter(pred));
    assert forall|k: int| 0 <= k < peers.len() && (#[trigger] peers[k]).id != id implies without_id(
        peers,
        id,
    ).contains(peers[k]) by {
        peers.lemma_filter_contains(pred, k);
    }
    assert forall|k: int| 0 <= k < without_id(peers, id).len() implies (#[trigger] without_id(
        peers,
        id,
    )[k]).id != id && peers.contains(without_id(peers, id)[k]) by {
        peers.lemma_filter_pred(pred, k);
        assert(peers.filter(pred).contains(peers.filter(pred)[k]));
        peers.lemma_filter_contains_rev(pred, peers.filter(pred)[k]);
    }
}

/// After a broadcast, exactly the peers that the message reached stay, in
/// their order.
pub proof fn law_broadcast_keeps_the_peers_reached(peers: Seq<PeerView>, delivered: Seq<bool>)
    requires
        delivered.len() == peers.len(),
    ensures
        delivered_to(peers, delivered) == peers.zip_with(delivered).filter(
            |pd: (PeerView, bool)| pd.1,
        ).map_values(|pd: (PeerView, bool)| pd.0),
    decreases peers.len(),
{
    reveal(Seq::filter);
    if peers.len() > 0 {
        law_broadcast_keeps_the_peers_reached(peers.drop_last(), delivered.drop_last());
        assert(peers.zip_with(delivered).drop_last() =~= peers.drop_last().zip_with(
            delivered.drop_last(),
        ));
        let z = peers.zip_with(delivered);
        let f = |pd: (PeerView, bool)| pd.1;
        let g = |pd: (PeerView, bool)| pd.0;
        assert(z.last() == (peers.last(), delivered.last()));
        if delivered.last() {
            assert(z.filter(f) == z.drop_last().filter(f).push(z.last()));
            assert(z.filter(f).map_values(g) =~= z.drop_last().filter(f).map_values(g).push(peers.last()));
        } else {
            assert(z.filter(f) == z.drop_last().filter(f));
        }
    } else {
        assert(peers.zip_with(delivered).filter(|pd: (PeerView, bool)| pd.1) =~= Seq::empty());
    }
}

/// A client follows its host: a player list from the host becomes its
/// list and nothing else changes; a kick or a ban ends its session (no
/// longer joined, no connection, no list) and keeps its name, id, PIN and
/// the rest; any other message leaves it as it was.
pub proof fn law_client_follows_its_host(v: NetView, m: NetMessage)
    ensures
        match m {
            NetMessage::PlayerListUpdate { players } => client_after(v, m) == (NetView {
                players: players_view(players@),
                ..v
            }),
            NetMessage::YouKicked { .. } | NetMessage::YouBanned { .. } => {
                let w = client_after(v, m);
                &&& !w.is_connected
                &&& !w.client_attached
                &&& w.players.len() == 0
                &&& w == (NetView {
                    is_connected: false,
                    client_attached: false,
                    players: Seq::empty(),
                    ..v
                })
            },
            _ => client_after(v, m) == v,
        },
{
}

proof fn lemma_index_of_id_first(list: Seq<PlayerView>, id: u32, i: int)
    requires
        0 <= i,
    ensures
        forall|k: int|
            i <= k < index_of_id(list, id, i) && k < list.len() ==> (#[trigger] list[k]).id != id,
        index_of_id(list, id, i) < list.len() ==> i <= index_of_id(list, id, i) && list[index_of_id(
            list,
            id,
            i,
        )].id == id,
        (exists|k: int| i <= k < list.len() && (#[trigger] list[k]).id == id) ==> index_of_id(
            list,
            id,
            i,
        ) < list.len(),
        index_of_id(list, id, i) <= list.len(),
    decreases list.len() - i,
{
    if i < list.len() && list[i].id != id {
        lemma_index_of_id_first(list, id, i + 1);
        if exists|k: int| i <= k < list.len() && (#[trigger] list[k]).id == id {
            let k = choose|k: int| i <= k < list.len() && (#[trigger] list[k]).id == id;
            assert(k != i);
        }
    }
}

/// A rename touches only this player's own entry: when the list has an
/// entry with this player's id, the first such entry takes the new name
/// and hosting flag and every other entry stays; otherwise the entry is
/// added at the end.
pub proof fn law_rename_changes_only_own_entry(
    list: Seq<PlayerView>,
    id: u32,
    name: Seq<char>,
    is_host: bool,
)
    ensures
        (exists|k: int| 0 <= k < list.len() && (#[trigger] list[k]).id == id) ==> exists|k: int|
            0 <= k < list.len() && (#[trigger] list[k]).id == id && (forall|j: int|
                0 <= j < k ==> (#[trigger] list[j]).id != id) && self_updated(list, id, name, is_host)
                == list.update(k, PlayerView { id, name, is_host }),
        !(exists|k: int| 0 <= k < list.len() && (#[trigger] list[k]).id == id) ==> self_updated(
            list,
            id,
            name,
            is_host,
        ) == list.push(PlayerView { id, name, is_host }),
{
    lemma_index_of_id_first(list, id, 0);
    let k = index_of_id(list, id, 0);
    if k < list.len() {
        assert(list[k].id == id);
    }
}

proof fn lemma_index_of_name_absent(peers: Seq<PeerView>, name: Seq<char>, i: int, n: int)
    requires
        0 <= i <= n < peers.len(),
        forall|k: int| 0 <= k < n ==> #[trigger] peers[k].name != name,
        peers[n].name == name,
    ensures
        index_of_name(peers, name, i) == n,
    decreases n - i,
{
    if i < n {
        lemma_index_of_name_absent(peers, name, i + 1, n);
    }
}

proof fn lemma_index_of_id_bound(list: Seq<PlayerView>, id: u32, i: int)
    requires
        0 <= i,
    ensures
        index_of_id(list, id, i) <= list.len(),
        index_of_id(list, id, i) < list.len() ==> index_of_id(list, id, i) >= 0,
    decreases list.len() - i,
{
    if i < list.len() && list[i].id != id {
        lemma_index_of_id_bound(list, id, i + 1);
    }
}

} // verus!
