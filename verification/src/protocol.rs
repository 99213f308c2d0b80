//! The messages that host and clients exchange, one JSON object per line.
use vstd::prelude::*;

verus! {

/// The kind of edit a player made in the glade.
#[derive(Debug, Clone, PartialEq)]
pub enum EditCategory {
    Wall,
    Roof,
    Terrain,
    Path,
    Garden,
    Water,
    Stairs,
    Decorator,
    AutoClutter,
    Color,
    Undo,
    Redo,
    Custom(String),
}

/// A point in world space. Each coordinate is an `f32` held as its IEEE-754
/// bit pattern (`f32::to_bits`), so that the value travels unchanged.
#[derive(Debug, Clone, Copy, PartialEq)]
pub struct Vector3D {
    pub x: u32,
    pub y: u32,
    pub z: u32,
}

/// Where a player's cursor and camera are and what tool they hold.
#[derive(Debug, Clone, PartialEq)]
pub struct CursorState {
    pub position: Vector3D,
    pub camera_position: Vector3D,
    pub active_tool: String,
    pub is_clicking: bool,
}

/// One edit, broadcast to the other players.
#[derive(Debug, Clone, PartialEq)]
pub struct ActionPayload {
    pub edit_category: EditCategory,
    pub action_id: u64,
    pub timestamp: u64,
    pub data_hex: String,
}

/// One entry of the player list that everybody sees.
#[derive(Debug, Clone, PartialEq)]
pub struct PlayerInfo {
    pub id: u32,
    pub name: String,
    pub is_host: bool,
}

/// The mathematical value of a [`PlayerInfo`].
pub struct PlayerView {
    pub id: u32,
    pub name: Seq<char>,
    pub is_host: bool,
}

impl View for PlayerInfo {
    type V = PlayerView;

    open spec fn view(&self) -> PlayerView {
        PlayerView { id: self.id, name: self.name@, is_host: self.is_host }
    }
}

/// The views of a list of players.
pub open spec fn players_view(v: Seq<PlayerInfo>) -> Seq<PlayerView> {
    v.map_values(|p: PlayerInfo| p@)
}

/// The views of a list of strings.
pub open spec fn strings_view(v: Seq<String>) -> Seq<Seq<char>> {
    v.map_values(|s: String| s@)
}

impl PlayerInfo {
    /// A player entry built from its parts.
    pub fn new(id: u32, name: String, is_host: bool) -> (r: PlayerInfo)
        ensures
            r.id == id,
            r.name@ == name@,
            r.is_host == is_host,
    {
        PlayerInfo { id, name, is_host }
    }

    /// An equal copy of this entry.
    pub fn duplicate(&self) -> (r: PlayerInfo)
        ensures
            r@ == self@,
    {
        PlayerInfo { id: self.id, name: self.name.clone(), is_host: self.is_host }
    }
}

/// An equal copy of a list of players.
pub fn copy_players(v: &Vec<PlayerInfo>) -> (r: Vec<PlayerInfo>)
    ensures
        players_view(r@) == players_view(v@),
{
    let mut r: Vec<PlayerInfo> = Vec::new();
    let mut i: usize = 0;
    while i < v.len()
        invariant
            i <= v@.len(),
            r@.len() == i,
            forall|k: int| 0 <= k < i ==> #[trigger] r@[k]@ == v@[k]@,
        decreases v@.len() - i,
    {
        r.push(v[i].duplicate());
        i = i + 1;
    }
    assert(players_view(r@) =~= players_view(v@));
    r
}

/// An equal copy of a list of strings.
pub fn copy_strings(v: &Vec<String>) -> (r: Vec<String>)
    ensures
        strings_view(r@) == strings_view(v@),
{
    let mut r: Vec<String> = Vec::new();
    let mut i: usize = 0;
    while i < v.len()
        invariant
            i <= v@.len(),
            r@.len() == i,
            forall|k: int| 0 <= k < i ==> #[trigger] r@[k]@ == v@[k]@,
        decreases v@.len() - i,
    {
        r.push(v[i].clone());
        i = i + 1;
    }
    assert(strings_view(r@) =~= strings_view(v@));
    r
}

/// Every message of the protocol.
#[derive(Debug, Clone, PartialEq)]
pub enum NetMessage {
    Handshake { client_version: String, player_name: String, pin: String },
    HandshakeReject { reason: String },
    HandshakeAck { assigned_id: u32, server_version: String, host_name: String },
    SyncSaveState { glade_name: String, save_bytes_base64: String },
    BroadcastAction(ActionPayload),
    CursorStream(CursorState),
    ChatMessage { sender: String, text: String },
    PlayerListUpdate { players: Vec<PlayerInfo> },
    YouKicked { reason: String },
    YouBanned { reason: String },
    Ping,
    Pong,
}

} // verus!
