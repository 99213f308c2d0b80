//! The decisions of the overlay menu: what a click does, which fields
//! show, what the dialog lists, the status line, and the little pieces of
//! arithmetic around the game window.
use vstd::prelude::*;
use crate::protocol::{PlayerInfo, players_view};
use crate::text::{concat2, concat3, decimal, format_u16, parse_u16, parse_u16_spec, stripped, trim, trim_char, trimmed};

verus! {

/// Which part of the dialog is showing.
#[derive(Debug, Clone, Copy, PartialEq, Eq, Structural)]
pub enum DialogMode {
    Idle,
    HostSetup,
    JoinSetup,
}

/// The menu state that the decisions read and change.
pub struct UiState {
    pub status_text: String,
    pub last_game_pos: (i32, i32),
    pub last_player_count: usize,
    pub dialog_mode: DialogMode,
}

/// What a click in the overlay does.
#[derive(Debug, Clone, Copy, PartialEq, Eq, Structural)]
pub enum ClickAction {
    /// Open the menu (the star button was clicked).
    OpenMenu,
    /// Close the menu.
    CloseMenu,
    /// The dialog mode changed: lay out the fields and repaint.
    ModeChanged,
    /// Start hosting with the fields' values.
    StartHost,
    /// Join with the fields' values.
    Connect,
    /// A click in the player list, at these coordinates.
    PlayerListClick { x: i32, y: i32 },
    /// Nothing.
    Nothing,
}

/// `(x, y)` lies in the rectangle, edges included.
pub open spec fn in_rect(x: i32, y: i32, left: i32, top: i32, right: i32, bottom: i32) -> bool {
    left <= x && x <= right && top <= y && y <= bottom
}

/// The first row of the player list, as clicks see it.
pub const CLICK_LIST_TOP: i32 = 240;

/// The bottom of the player list.
pub const PLAYER_LIST_BOTTOM: i32 = 410;

/// The height of a player row.
pub const PLAYER_ROW_H: i32 = 28;

/// What a click at `(x, y)` does, and the dialog mode after it.
pub open spec fn click_outcome(mode: DialogMode, x: i32, y: i32, menu_open: bool, hosting: bool) -> (
    ClickAction,
    DialogMode,
) {
    if !menu_open {
        (ClickAction::OpenMenu, mode)
    } else if in_rect(x, y, 375, 15, 405, 45) {
        (ClickAction::CloseMenu, DialogMode::Idle)
    } else {
        match mode {
            DialogMode::Idle => if in_rect(x, y, 30, 115, 390, 155) {
                (ClickAction::ModeChanged, DialogMode::HostSetup)
            } else if in_rect(x, y, 30, 165, 390, 205) {
                (ClickAction::ModeChanged, DialogMode::JoinSetup)
            } else if CLICK_LIST_TOP <= y && y <= PLAYER_LIST_BOTTOM && hosting {
                (ClickAction::PlayerListClick { x, y }, mode)
            } else {
                (ClickAction::Nothing, mode)
            },
            DialogMode::HostSetup => if in_rect(x, y, 30, 170, 390, 210) {
                (ClickAction::StartHost, mode)
            } else if in_rect(x, y, 30, 220, 390, 250) {
                (ClickAction::ModeChanged, DialogMode::Idle)
            } else {
                (ClickAction::Nothing, mode)
            },
            DialogMode::JoinSetup => if in_rect(x, y, 30, 170, 390, 210) {
                (ClickAction::Connect, mode)
            } else if in_rect(x, y, 30, 220, 390, 250) {
                (ClickAction::ModeChanged, DialogMode::Idle)
            } else {
                (ClickAction::Nothing, mode)
            },
        }
    }
}

/// A click while the menu is closed opens it and leaves the dialog alone;
/// with the menu open, a click in the close box (375..405, 15..45) closes
/// it and brings the dialog back to its first page.
pub proof fn law_clicks_open_and_close_the_menu(
    mode: DialogMode,
    x: i32,
    y: i32,
    menu_open: bool,
    hosting: bool,
)
    ensures
        !menu_open ==> click_outcome(mode, x, y, menu_open, hosting) == (ClickAction::OpenMenu, mode),
        menu_open && 375 <= x <= 405 && 15 <= y <= 45 ==> click_outcome(mode, x, y, menu_open, hosting)
            == (ClickAction::CloseMenu, DialogMode::Idle),
{
}

/// On the first page, with the menu open, "Host Multiplayer Game"
/// (30..390, 115..155) opens the host setup and "Join Friend" (30..390,
/// 165..205) the join setup; for a host, a click in the player list
/// (rows from 240 to 410) goes to the list; anything else does nothing.
pub proof fn law_clicks_on_the_first_page(x: i32, y: i32, hosting: bool)
    ensures
        30 <= x <= 390 && 115 <= y <= 155 ==> click_outcome(DialogMode::Idle, x, y, true, hosting)
            == (ClickAction::ModeChanged, DialogMode::HostSetup),
        30 <= x <= 390 && 165 <= y <= 205 ==> click_outcome(DialogMode::Idle, x, y, true, hosting)
            == (ClickAction::ModeChanged, DialogMode::JoinSetup),
        hosting && 240 <= y <= 410 ==> click_outcome(DialogMode::Idle, x, y, true, hosting) == (
            ClickAction::PlayerListClick { x, y },
            DialogMode::Idle,
        ),
        !(30 <= x <= 390 && (115 <= y <= 155 || 165 <= y <= 205)) && !(375 <= x <= 405 && 15 <= y
            <= 45) && !(hosting && 240 <= y <= 410) ==> click_outcome(
            DialogMode::Idle,
            x,
            y,
            true,
            hosting,
        ) == (ClickAction::Nothing, DialogMode::Idle),
{
}

/// In either setup page, with the menu open, the confirming button
/// (30..390, 170..210) starts hosting or connects and stays on the page,
/// "← Back" (30..390, 220..250) returns to the first page, and any other
/// click outside the close box does nothing.
pub proof fn law_clicks_on_a_setup_page(mode: DialogMode, x: i32, y: i32, hosting: bool)
    requires
        mode != DialogMode::Idle,
    ensures
        30 <= x <= 390 && 170 <= y <= 210 ==> click_outcome(mode, x, y, true, hosting) == (
            if mode == DialogMode::HostSetup {
                ClickAction::StartHost
            } else {
                ClickAction::Connect
            },
            mode,
        ),
        30 <= x <= 390 && 220 <= y <= 250 ==> click_outcome(mode, x, y, true, hosting) == (
            ClickAction::ModeChanged,
            DialogMode::Idle,
        ),
        !(30 <= x <= 390 && (170 <= y <= 210 || 220 <= y <= 250)) && !(375 <= x <= 405 && 15 <= y
            <= 45) ==> click_outcome(mode, x, y, true, hosting) == (ClickAction::Nothing, mode),
{
}

/// Where an input field sits.
#[derive(Debug, Clone, Copy, PartialEq, Eq, Structural)]
pub struct FieldRect {
    pub left: i32,
    pub top: i32,
    pub width: i32,
    pub height: i32,
}

/// Which input fields show, and where.
#[derive(Debug, Clone, Copy, PartialEq, Eq, Structural)]
pub struct FieldLayout {
    /// The IP field, when shown.
    pub ip: Option<FieldRect>,
    /// The port field, when shown.
    pub port: Option<FieldRect>,
}

/// The fields shown in each mode: none when idle, the port when setting
/// up a host, the IP and the port when setting up a join.
pub fn field_layout(mode: DialogMode) -> (r: FieldLayout)
    ensures
        r == match mode {
            DialogMode::Idle => FieldLayout { ip: None, port: None },
            DialogMode::HostSetup => FieldLayout { ip: None, port: Some(FieldRect { left: 110, top: 133, width: 200, height: 28 }) },
            DialogMode::JoinSetup => FieldLayout {
                ip: Some(FieldRect { left: 30, top: 133, width: 240, height: 28 }),
                port: Some(FieldRect { left: 290, top: 133, width: 100, height: 28 }),
            },
        },
{
    match mode {
        DialogMode::Idle => FieldLayout { ip: None, port: None },
        DialogMode::HostSetup => FieldLayout { ip: None, port: Some(FieldRect { left: 110, top: 133, width: 200, height: 28 }) },
        DialogMode::JoinSetup => FieldLayout {
            ip: Some(FieldRect { left: 30, top: 133, width: 240, height: 28 }),
            port: Some(FieldRect { left: 290, top: 133, width: 100, height: 28 }),
        },
    }
}

/// The text of an input field: its buffer without the NULs at either end,
/// then without surrounding whitespace.
pub open spec fn field_value(raw: Seq<char>) -> Seq<char> {
    trimmed(stripped(raw, '\0'))
}

/// Reads an input field's buffer.
pub fn field_text(raw: &str) -> (r: String)
    ensures
        r@ == field_value(raw@),
{
    let s = trim_char(raw, '\0');
    trim(s.as_str())
}

/// The field's text, or `default` when it is empty.
pub open spec fn value_or(raw: Seq<char>, default: Seq<char>) -> Seq<char> {
    if field_value(raw).len() == 0 {
        default
    } else {
        field_value(raw)
    }
}

/// The name and port to host with: the name field, or "Host"; the port
/// field as a number, or 7777.
pub fn host_request(name_raw: &str, port_raw: &str) -> (r: (String, u16))
    ensures
        r.0@ == value_or(name_raw@, "Host"@),
        r.1 == match parse_u16_spec(field_value(port_raw@)) {
            Some(p) => p,
            None => 7777,
        },
{
    let name = field_text(name_raw);
    let name = if name.unicode_len() == 0 {
        String::from_str("Host")
    } else {
        name
    };
    let port_text = field_text(port_raw);
    let port: u16 = match parse_u16(port_text.as_str()) {
        Some(p) => p,
        None => 7777,
    };
    (name, port)
}

/// The name and address to join with: the name field, or "Guest"; the IP
/// and port fields joined by `:`.
pub fn join_request(name_raw: &str, ip_raw: &str, port_raw: &str) -> (r: (String, String))
    ensures
        r.0@ == value_or(name_raw@, "Guest"@),
        r.1@ == field_value(ip_raw@) + ":"@ + field_value(port_raw@),
{
    let name = field_text(name_raw);
    let name = if name.unicode_len() == 0 {
        String::from_str("Guest")
    } else {
        name
    };
    let ip = field_text(ip_raw);
    let port = field_text(port_raw);
    (name, concat3(ip.as_str(), ":", port.as_str()))
}

impl UiState {
    /// The menu state at start: ready, idle, no players seen.
    pub fn new(game_pos: (i32, i32)) -> (r: UiState)
        ensures
            r.status_text@ == "Ready to play"@,
            r.last_game_pos == game_pos,
            r.last_player_count == 0,
            r.dialog_mode == DialogMode::Idle,
    {
        UiState {
            status_text: String::from_str("Ready to play"),
            last_game_pos: game_pos,
            last_player_count: 0,
            dialog_mode: DialogMode::Idle,
        }
    }

    /// Handles a click at `(x, y)`.
    pub fn on_click(&mut self, x: i32, y: i32, menu_open: bool, hosting: bool) -> (a: ClickAction)
        ensures
            (a, final(self).dialog_mode) == click_outcome(old(self).dialog_mode, x, y, menu_open, hosting),
            final(self).status_text == old(self).status_text,
            final(self).last_game_pos == old(self).last_game_pos,
            final(self).last_player_count == old(self).last_player_count,
    {
        if !menu_open {
            return ClickAction::OpenMenu;
        }
        if 375 <= x && x <= 405 && 15 <= y && y <= 45 {
            self.dialog_mode = DialogMode::Idle;
            return ClickAction::CloseMenu;
        }
        let in_wide: bool = 30 <= x && x <= 390;
        match self.dialog_mode {
            DialogMode::Idle => {
                if in_wide && 115 <= y && y <= 155 {
                    self.dialog_mode = DialogMode::HostSetup;
                    ClickAction::ModeChanged
                } else if in_wide && 165 <= y && y <= 205 {
                    self.dialog_mode = DialogMode::JoinSetup;
                    ClickAction::ModeChanged
                } else if CLICK_LIST_TOP <= y && y <= PLAYER_LIST_BOTTOM && hosting {
                    ClickAction::PlayerListClick { x, y }
                } else {
                    ClickAction::Nothing
                }
            },
            DialogMode::HostSetup => {
                if in_wide && 170 <= y && y <= 210 {
                    ClickAction::StartHost
                } else if in_wide && 220 <= y && y <= 250 {
                    self.dialog_mode = DialogMode::Idle;
                    ClickAction::ModeChanged
                } else {
                    ClickAction::Nothing
                }
            },
            DialogMode::JoinSetup => {
                if in_wide && 170 <= y && y <= 210 {
                    ClickAction::Connect
                } else if in_wide && 220 <= y && y <= 250 {
                    self.dialog_mode = DialogMode::Idle;
                    ClickAction::ModeChanged
                } else {
                    ClickAction::Nothing
                }
            },
        }
    }

    /// The menu closed: back to the idle dialog.
    pub fn close_menu(&mut self)
        ensures
            final(self).dialog_mode == DialogMode::Idle,
            final(self).status_text == old(self).status_text,
            final(self).last_game_pos == old(self).last_game_pos,
            final(self).last_player_count == old(self).last_player_count,
    {
        self.dialog_mode = DialogMode::Idle;
    }

    /// Hosting on `port` was tried, with this outcome.
    pub fn host_started(&mut self, port: u16, outcome: Result<(), String>)
        ensures
            final(self).dialog_mode == old(self).dialog_mode,
            final(self).last_game_pos == old(self).last_game_pos,
            match outcome {
                Ok(()) => final(self).status_text@ == "Host active on port "@ + decimal(port as nat)
                    && final(self).last_player_count == 0,
                Err(e) => final(self).status_text@ == "Error: "@ + e@ && final(self).last_player_count
                    == old(self).last_player_count,
            },
    {
        match outcome {
            Ok(()) => {
                let p = format_u16(port);
                self.status_text = concat2("Host active on port ", p.as_str());
                self.last_player_count = 0;
            },
            Err(e) => {
                self.status_text = concat2("Error: ", e.as_str());
            },
        }
    }

    /// Joining `addr` has begun.
    pub fn connecting(&mut self, addr: &str)
        ensures
            final(self).status_text@ == "Connecting to "@ + addr@ + "..."@,
            final(self).dialog_mode == old(self).dialog_mode,
            final(self).last_game_pos == old(self).last_game_pos,
            final(self).last_player_count == old(self).last_player_count,
    {
        self.status_text = concat3("Connecting to ", addr, "...");
    }

    /// Joining ended with this outcome.
    pub fn connect_finished(&mut self, outcome: Result<(), String>)
        ensures
            final(self).dialog_mode == old(self).dialog_mode,
            final(self).last_game_pos == old(self).last_game_pos,
            match outcome {
                Ok(()) => final(self).status_text@ == "Connected successfully!"@
                    && final(self).last_player_count == 0,
                Err(e) => final(self).status_text@ == "Connection failed: "@ + e@
                    && final(self).last_player_count == old(self).last_player_count,
            },
    {
        match outcome {
            Ok(()) => {
                self.status_text = String::from_str("Connected successfully!");
                self.last_player_count = 0;
            },
            Err(e) => {
                self.status_text = concat2("Connection failed: ", e.as_str());
            },
        }
    }

    /// A kick of `name` was sent.
    pub fn kick_requested(&mut self, name: &str)
        ensures
            final(self).status_text@ == "Kicked "@ + name@,
            final(self).dialog_mode == old(self).dialog_mode,
            final(self).last_game_pos == old(self).last_game_pos,
            final(self).last_player_count == old(self).last_player_count,
    {
        self.status_text = concat2("Kicked ", name);
    }

    /// The kick went through: the list is repainted on the next tick.
    pub fn kick_done(&mut self)
        ensures
            final(self).last_player_count == 0,
            final(self).status_text == old(self).status_text,
            final(self).dialog_mode == old(self).dialog_mode,
            final(self).last_game_pos == old(self).last_game_pos,
    {
        self.last_player_count = 0;
    }

    /// One refresh tick while the game window is known: the overlay shows
    /// when the game is not minimized and this process has the foreground;
    /// it follows the game window when it moved; an open menu is repainted
    /// when the number of players changed.
    pub fn timer_tick(
        &mut self,
        minimized: bool,
        foreground_is_ours: bool,
        game_pos: (i32, i32),
        menu_open: bool,
        player_count: usize,
    ) -> (t: TimerActions)
        ensures
            t.visible == (!minimized && foreground_is_ours),
            t.moved == (game_pos != old(self).last_game_pos),
            final(self).last_game_pos == game_pos,
            t.repaint == (menu_open && player_count != old(self).last_player_count),
            final(self).last_player_count == if t.repaint {
                player_count
            } else {
                old(self).last_player_count
            },
            final(self).status_text == old(self).status_text,
            final(self).dialog_mode == old(self).dialog_mode,
    {
        let visible: bool = !minimized && foreground_is_ours;
        let moved: bool = game_pos.0 != self.last_game_pos.0 || game_pos.1 != self.last_game_pos.1;
        self.last_game_pos = game_pos;
        let repaint: bool = menu_open && player_count != self.last_player_count;
        if repaint {
            self.last_player_count = player_count;
        }
        TimerActions { visible, moved, repaint }
    }
}

/// What a refresh tick does.
#[derive(Debug, Clone, Copy, PartialEq, Eq, Structural)]
pub struct TimerActions {
    /// Show the overlay (else hide it).
    pub visible: bool,
    /// The game window moved: move the open menu, or redraw the button.
    pub moved: bool,
    /// Repaint the open menu.
    pub repaint: bool,
}

/// The row of the player list under a click at `y`, for a list whose first
/// row starts at `list_top`.
pub open spec fn clicked_row(y: i32, list_top: i32) -> int {
    (y - list_top) / (PLAYER_ROW_H as int)
}

/// The player a click in the list kicks: the row's player, if it is not
/// the host and not this player, and the click is on its "[Kick]" label
/// (`x` between 320 and 385).
pub fn kick_target(players: &Vec<PlayerInfo>, local_name: &str, x: i32, y: i32, list_top: i32) -> (r:
    Option<String>)
    requires
        list_top <= y,
    ensures
        ({
            let row = clicked_row(y, list_top);
            if row < players@.len() && !players@[row].is_host && players@[row].name@ != local_name@
                && 320 <= x && x <= 385 {
                r matches Some(n) && n@ == players@[row].name@
            } else {
                r is None
            }
        }),
{
    let offset: i64 = (y as i64) - (list_top as i64);
    let row: usize = (offset / 28) as usize;
    if row < players.len() {
        let p = &players[row];
        let other = local_name.to_owned();
        if !p.is_host && !(p.name == other) && 320 <= x && x <= 385 {
            return Some(p.name.clone());
        }
    }
    None
}

/// One row of the dialog's player list.
pub struct PlayerRow {
    pub y_top: i32,
    pub y_bottom: i32,
    /// Rows 0, 2, 4, ... have a shaded background.
    pub shaded: bool,
    pub label: String,
    /// Show the "[Kick]" label.
    pub kick: bool,
}

/// What the dialog shows below its buttons.
pub struct DialogLayout {
    /// Top of the "Connected Players" heading.
    pub header_y: i32,
    /// Top of the first row.
    pub list_top: i32,
    pub rows: Vec<PlayerRow>,
    /// The line shown in place of an empty list (20 pixels high from
    /// `list_top`).
    pub placeholder: Option<String>,
    /// The buttons of the current mode, top first.
    pub buttons: Vec<DialogButton>,
    /// The status line at the bottom.
    pub status_line: String,
}

/// How a dialog button is painted: green and amber buttons are rounded by
/// 16 pixels with light text, the grey "back" button by 12 with dark text.
#[derive(Debug, Clone, Copy, PartialEq, Eq, Structural)]
pub enum ButtonStyle {
    Green,
    Amber,
    Gray,
}

/// A button of the dialog, spanning x from 30 to 390.
pub struct DialogButton {
    pub caption: String,
    pub top: i32,
    pub bottom: i32,
    pub style: ButtonStyle,
}

/// The value of a dialog button.
pub open spec fn button_view(b: DialogButton) -> (Seq<char>, i32, i32, ButtonStyle) {
    (b.caption@, b.top, b.bottom, b.style)
}

/// The buttons of each mode: hosting and joining when idle, then the
/// confirming button of the chosen setup above a way back.
pub open spec fn buttons_of(mode: DialogMode) -> Seq<(Seq<char>, i32, i32, ButtonStyle)> {
    match mode {
        DialogMode::Idle => seq![
            ("Host Multiplayer Game"@, 115, 155, ButtonStyle::Green),
            ("Join Friend"@, 165, 205, ButtonStyle::Amber),
        ],
        DialogMode::HostSetup => seq![
            ("▶ Start Hosting"@, 170, 210, ButtonStyle::Green),
            ("← Back"@, 220, 250, ButtonStyle::Gray),
        ],
        DialogMode::JoinSetup => seq![
            ("▶ Connect"@, 170, 210, ButtonStyle::Amber),
            ("← Back"@, 220, 250, ButtonStyle::Gray),
        ],
    }
}

/// The buttons of the dialog in `mode`.
pub fn dialog_buttons(mode: DialogMode) -> (r: Vec<DialogButton>)
    ensures
        r@.map_values(|b: DialogButton| button_view(b)) == buttons_of(mode),
{
    let (first, first_top, first_style, second, second_top, second_style) = match mode {
        DialogMode::Idle => (
            String::from_str("Host Multiplayer Game"),
            115,
            ButtonStyle::Green,
            String::from_str("Join Friend"),
            165,
            ButtonStyle::Amber,
        ),
        DialogMode::HostSetup => (
            String::from_str("▶ Start Hosting"),
            170,
            ButtonStyle::Green,
            String::from_str("← Back"),
            220,
            ButtonStyle::Gray,
        ),
        DialogMode::JoinSetup => (
            String::from_str("▶ Connect"),
            170,
            ButtonStyle::Amber,
            String::from_str("← Back"),
            220,
            ButtonStyle::Gray,
        ),
    };
    let mut r: Vec<DialogButton> = Vec::new();
    r.push(DialogButton { caption: first, top: first_top, bottom: first_top + 40, style: first_style });
    let second_bottom: i32 = if second_style == ButtonStyle::Gray {
        second_top + 30
    } else {
        second_top + 40
    };
    r.push(DialogButton { caption: second, top: second_top, bottom: second_bottom, style: second_style });
    assert(r@.map_values(|b: DialogButton| button_view(b)) =~= buttons_of(mode));
    r
}

/// The heading's top in each mode.
pub open spec fn header_y_of(mode: DialogMode) -> i32 {
    if mode == DialogMode::Idle {
        215
    } else {
        260
    }
}

/// The label of a player in the list: the host as "★ name (Host)".
pub open spec fn player_label(name: Seq<char>, is_host: bool) -> Seq<char> {
    if is_host {
        "★ "@ + name + " (Host)"@
    } else {
        name
    }
}

/// The player list and status line of the dialog. `viewer_hosts` is
/// whether this player hosts (only a host sees "[Kick]"). The rows'
/// coordinates must fit in `i32`.
pub fn dialog_layout(
    mode: DialogMode,
    players: &Vec<PlayerInfo>,
    viewer_hosts: bool,
    local_name: &str,
    status: &str,
) -> (d: DialogLayout)
    requires
        players@.len() * 28 + header_y_of(mode) + 32 <= i32::MAX,
    ensures
        d.header_y == header_y_of(mode),
        d.list_top == header_y_of(mode) + 32,
        d.status_line@ == "● Status: "@ + status@,
        d.rows@.len() == players@.len(),
        players@.len() == 0 ==> (d.placeholder matches Some(t) && t@ == "No players connected"@),
        players@.len() > 0 ==> d.placeholder is None,
        d.buttons@.map_values(|b: DialogButton| button_view(b)) == buttons_of(mode),
        forall|i: int|
            0 <= i < players@.len() ==> {
                let row = #[trigger] d.rows@[i];
                let p = players@[i];
                &&& row.y_top == d.list_top + i * 28
                &&& row.y_bottom == row.y_top + 24
                &&& row.shaded == (i % 2 == 0)
                &&& row.label@ == player_label(p.name@, p.is_host)
                &&& row.kick == (viewer_hosts && !p.is_host && p.name@ != local_name@)
            },
{
    let header_y: i32 = if mode == DialogMode::Idle {
        215
    } else {
        260
    };
    let list_top: i32 = header_y + 32;
    let mut rows: Vec<PlayerRow> = Vec::new();
    let mut i: usize = 0;
    while i < players.len()
        invariant
            i <= players@.len(),
            players@.len() * 28 + header_y_of(mode) + 32 <= i32::MAX,
            list_top == header_y_of(mode) + 32,
            rows@.len() == i,
            forall|k: int|
                0 <= k < i ==> {
                    let row = #[trigger] rows@[k];
                    let p = players@[k];
                    &&& row.y_top == list_top + k * 28
                    &&& row.y_bottom == row.y_top + 24
                    &&& row.shaded == (k % 2 == 0)
                    &&& row.label@ == player_label(p.name@, p.is_host)
                    &&& row.kick == (viewer_hosts && !p.is_host && p.name@ != local_name@)
                },
        decreases players@.len() - i,
    {
        let p = &players[i];
        let y_top: i32 = list_top + (i as i32) * PLAYER_ROW_H;
        let y_bottom: i32 = y_top + PLAYER_ROW_H - 4;
        let label = if p.is_host {
            concat3("★ ", p.name.as_str(), " (Host)")
        } else {
            p.name.clone()
        };
        let other = local_name.to_owned();
        let kick: bool = viewer_hosts && !p.is_host && !(p.name == other);
        rows.push(PlayerRow { y_top, y_bottom, shaded: i % 2 == 0, label, kick });
        i = i + 1;
    }
    let placeholder = if players.len() == 0 {
        Some(String::from_str("No players connected"))
    } else {
        None
    };
    DialogLayout {
        header_y,
        list_top,
        rows,
        placeholder,
        buttons: dialog_buttons(mode),
        status_line: concat2("● Status: ", status),
    }
}

/// The click position packed in a mouse message's `lparam`: the low 16
/// bits are x, the next 16 bits y.
pub fn decode_click(lparam: isize) -> (r: (i32, i32))
    ensures
        r.0 == (lparam & 0xFFFF) as i32,
        r.1 == ((lparam >> 16) & 0xFFFF) as i32,
{
    let x: isize = lparam & 0xFFFF;
    let y: isize = (lparam >> 16) & 0xFFFF;
    assert(0 <= x <= 0xFFFF) by (bit_vector)
        requires
            x == lparam & 0xFFFF,
    ;
    assert(0 <= y <= 0xFFFF) by (bit_vector)
        requires
            y == (lparam >> 16) & 0xFFFF,
    ;
    (x as i32, y as i32)
}

/// A window of this process is the game's: visible, and larger than 200
/// pixels each way.
pub fn is_game_window(
    window_pid: u32,
    own_pid: u32,
    visible: bool,
    left: i32,
    top: i32,
    right: i32,
    bottom: i32,
) -> (r: bool)
    ensures
        r == (window_pid == own_pid && visible && right - left > 200 && bottom - top > 200),
{
    let width: i64 = (right as i64) - (left as i64);
    let height: i64 = (bottom as i64) - (top as i64);
    window_pid == own_pid && visible && width > 200 && height > 200
}

/// Pixels with their red and blue bytes swapped: RGBA to BGRA and back.
pub open spec fn swap_red_blue(src: Seq<u8>) -> Seq<u8> {
    Seq::new(
        src.len(),
        |i: int|
            if i % 4 == 0 {
                src[i + 2]
            } else if i % 4 == 2 {
                src[i - 2]
            } else {
                src[i]
            },
    )
}

/// Converts RGBA pixels to the BGRA order of a device-independent bitmap.
pub fn rgba_to_bgra(src: &[u8]) -> (dst: Vec<u8>)
    requires
        src@.len() % 4 == 0,
    ensures
        dst@ == swap_red_blue(src@),
{
    let n: usize = src.len() / 4;
    assert(n * 4 <= src.len());
    let mut dst: Vec<u8> = Vec::new();
    let mut i: usize = 0;
    while i < n
        invariant
            n * 4 == src@.len(),
            n * 4 <= usize::MAX,
            i <= n,
            dst@.len() == i * 4,
            forall|k: int| 0 <= k < i * 4 ==> #[trigger] dst@[k] == swap_red_blue(src@)[k],
        decreases n - i,
    {
        let b: usize = i * 4;
        dst.push(src[b + 2]);
        dst.push(src[b + 1]);
        dst.push(src[b]);
        dst.push(src[b + 3]);
        proof {
            assert forall|k: int| 0 <= k < (i + 1) * 4 implies #[trigger] dst@[k] == swap_red_blue(
                src@,
            )[k] by {
                if k >= i * 4 {
                    assert(k - b == 0 || k - b == 1 || k - b == 2 || k - b == 3);
                    assert(k % 4 == k - b);
                }
            }
        }
        i = i + 1;
    }
    assert(dst@ =~= swap_red_blue(src@));
    dst
}

/// Swapping red and blue twice gives the pixels back.
pub proof fn law_swap_red_blue_involution(src: Seq<u8>)
    requires
        src.len() % 4 == 0,
    ensures
        swap_red_blue(swap_red_blue(src)) == src,
{
    let once = swap_red_blue(src);
    assert forall|i: int| 0 <= i < src.len() implies #[trigger] swap_red_blue(once)[i] == src[i] by {
        if i % 4 == 0 {
            assert((i + 2) % 4 == 2);
        } else if i % 4 == 2 {
            assert((i - 2) % 4 == 0);
        }
    }
    assert(swap_red_blue(once) =~= src);
}


/// Pixel by pixel, the conversion exchanges the first and third bytes and
/// keeps the second and fourth.
pub proof fn law_swap_exchanges_red_and_blue(src: Seq<u8>)
    requires
        src.len() % 4 == 0,
    ensures
        swap_red_blue(src).len() == src.len(),
        forall|p: int|
            0 <= p < src.len() / 4 ==> #[trigger] swap_red_blue(src)[4 * p] == src[4 * p + 2]
                && swap_red_blue(src)[4 * p + 1] == src[4 * p + 1] && swap_red_blue(src)[4 * p + 2]
                == src[4 * p] && swap_red_blue(src)[4 * p + 3] == src[4 * p + 3],
{
    assert forall|p: int| 0 <= p < src.len() / 4 implies #[trigger] swap_red_blue(src)[4 * p]
        == src[4 * p + 2] && swap_red_blue(src)[4 * p + 1] == src[4 * p + 1] && swap_red_blue(src)[4
        * p + 2] == src[4 * p] && swap_red_blue(src)[4 * p + 3] == src[4 * p + 3] by {
        assert((4 * p) % 4 == 0) by (nonlinear_arith);
        assert((4 * p + 1) % 4 == 1) by (nonlinear_arith);
        assert((4 * p + 2) % 4 == 2) by (nonlinear_arith);
        assert((4 * p + 3) % 4 == 3) by (nonlinear_arith);
        assert(4 * p + 3 < src.len()) by (nonlinear_arith)
            requires
                0 <= p < src.len() / 4,
                src.len() % 4 == 0,
        ;
    }
}

/// A click picks the row drawn under it: a click at or below the top of
/// row `i` (`list_top + 28 i`) and above the next row's top is on row `i`,
/// which covers the row's label from its top to its bottom (`+ 24`).
pub proof fn law_click_picks_the_row_under_it(y: i32, list_top: i32, i: int)
    requires
        0 <= i,
        list_top + 28 * i <= y < list_top + 28 * (i + 1),
    ensures
        clicked_row(y, list_top) == i,
{
    assert((y - list_top) / 28 == i) by (nonlinear_arith)
        requires
            0 <= i,
            28 * i <= y - list_top < 28 * (i + 1),
    ;
}

} // verus!
