use gladesync::protocol::PlayerInfo;
use gladesync::ui::{
    decode_click, dialog_layout, field_layout, field_text, host_request, is_game_window,
    join_request, kick_target, rgba_to_bgra, ButtonStyle, ClickAction, DialogMode, FieldRect,
    UiState,
};

#[test]
fn clicks_walk_through_the_dialog() {
    let mut ui = UiState::new((0, 0));
    assert_eq!(ui.status_text, "Ready to play");
    assert_eq!(ui.on_click(10, 10, false, false), ClickAction::OpenMenu);
    assert_eq!(ui.on_click(100, 130, true, false), ClickAction::ModeChanged);
    assert_eq!(ui.dialog_mode, DialogMode::HostSetup);
    assert_eq!(ui.on_click(100, 190, true, false), ClickAction::StartHost);
    assert_eq!(ui.on_click(100, 230, true, false), ClickAction::ModeChanged);
    assert_eq!(ui.dialog_mode, DialogMode::Idle);
    assert_eq!(ui.on_click(100, 180, true, false), ClickAction::ModeChanged);
    assert_eq!(ui.dialog_mode, DialogMode::JoinSetup);
    assert_eq!(ui.on_click(30, 170, true, false), ClickAction::Connect);
    assert_eq!(ui.on_click(390, 45, true, false), ClickAction::CloseMenu);
    assert_eq!(ui.dialog_mode, DialogMode::Idle);
    assert_eq!(ui.on_click(350, 300, true, true), ClickAction::PlayerListClick { x: 350, y: 300 });
    assert_eq!(ui.on_click(350, 300, true, false), ClickAction::Nothing);
    assert_eq!(ui.on_click(5, 5, true, true), ClickAction::Nothing);
}

#[test]
fn fields_per_mode() {
    assert_eq!(field_layout(DialogMode::Idle).ip, None);
    assert_eq!(field_layout(DialogMode::Idle).port, None);
    assert_eq!(field_layout(DialogMode::HostSetup).port, Some(FieldRect { left: 110, top: 133, width: 200, height: 28 }));
    assert_eq!(field_layout(DialogMode::JoinSetup).ip, Some(FieldRect { left: 30, top: 133, width: 240, height: 28 }));
}

#[test]
fn field_values_and_defaults() {
    assert_eq!(field_text(" Ann \0\0\0"), "Ann");
    assert_eq!(host_request("\0\0", "\0"), ("Host".to_string(), 7777));
    assert_eq!(host_request("Zoe\0", "9000\0\0"), ("Zoe".to_string(), 9000));
    assert_eq!(host_request("Zoe", "port"), ("Zoe".to_string(), 7777));
    assert_eq!(join_request("", "127.0.0.1\0", "7777\0"), ("Guest".to_string(), "127.0.0.1:7777".to_string()));
}

#[test]
fn status_lines() {
    let mut ui = UiState::new((0, 0));
    ui.last_player_count = 3;
    ui.host_started(7777, Err("busy".to_string()));
    assert_eq!(ui.status_text, "Error: busy");
    assert_eq!(ui.last_player_count, 3);
    ui.host_started(8080, Ok(()));
    assert_eq!(ui.status_text, "Host active on port 8080");
    assert_eq!(ui.last_player_count, 0);
    ui.connecting("1.2.3.4:5");
    assert_eq!(ui.status_text, "Connecting to 1.2.3.4:5...");
    ui.connect_finished(Err("no".to_string()));
    assert_eq!(ui.status_text, "Connection failed: no");
    ui.connect_finished(Ok(()));
    assert_eq!(ui.status_text, "Connected successfully!");
    ui.kick_requested("Bob");
    assert_eq!(ui.status_text, "Kicked Bob");
}

#[test]
fn kick_clicks_pick_the_row() {
    let players = vec![
        PlayerInfo { id: 1, name: "H".to_string(), is_host: true },
        PlayerInfo { id: 2, name: "Ann".to_string(), is_host: false },
        PlayerInfo { id: 3, name: "Me".to_string(), is_host: false },
    ];
    assert_eq!(kick_target(&players, "Me", 330, 240 + 28, 240), Some("Ann".to_string()));
    assert_eq!(kick_target(&players, "Me", 330, 240, 240), None);
    assert_eq!(kick_target(&players, "Me", 330, 240 + 56, 240), None);
    assert_eq!(kick_target(&players, "Me", 300, 240 + 28, 240), None);
    assert_eq!(kick_target(&players, "Me", 330, 240 + 84, 240), None);
}

#[test]
fn dialog_rows() {
    let players = vec![
        PlayerInfo { id: 1, name: "H".to_string(), is_host: true },
        PlayerInfo { id: 2, name: "Ann".to_string(), is_host: false },
    ];
    let d = dialog_layout(DialogMode::Idle, &players, true, "H", "ok");
    assert_eq!(d.header_y, 215);
    assert_eq!(d.list_top, 247);
    assert_eq!(d.status_line, "● Status: ok");
    assert_eq!(d.rows[0].label, "★ H (Host)");
    assert!(d.rows[0].shaded && !d.rows[0].kick);
    assert_eq!(d.rows[1].y_top, 275);
    assert_eq!(d.rows[1].y_bottom, 299);
    assert!(!d.rows[1].shaded && d.rows[1].kick);
    let d = dialog_layout(DialogMode::HostSetup, &players, false, "H", "");
    assert_eq!(d.header_y, 260);
    assert!(!d.rows[1].kick);
}

#[test]
fn timer_follows_the_game_window() {
    let mut ui = UiState::new((10, 10));
    let t = ui.timer_tick(false, true, (10, 10), true, 0);
    assert!(t.visible && !t.moved && !t.repaint);
    let t = ui.timer_tick(true, true, (20, 10), true, 2);
    assert!(!t.visible && t.moved && t.repaint);
    assert_eq!(ui.last_game_pos, (20, 10));
    assert_eq!(ui.last_player_count, 2);
    let t = ui.timer_tick(false, false, (20, 10), false, 5);
    assert!(!t.visible && !t.repaint);
    assert_eq!(ui.last_player_count, 2);
}

#[test]
fn small_window_helpers() {
    assert_eq!(decode_click(0x0123_0045), (0x45, 0x123));
    assert_eq!(decode_click(0x0001_FFFF), (0xFFFF, 1));
    assert!(is_game_window(7, 7, true, 0, 0, 800, 600));
    assert!(!is_game_window(7, 8, true, 0, 0, 800, 600));
    assert!(!is_game_window(7, 7, false, 0, 0, 800, 600));
    assert!(!is_game_window(7, 7, true, 0, 0, 200, 600));
}

#[test]
fn pixel_swizzle_swaps_red_and_blue() {
    let px = vec![1u8, 2, 3, 4, 10, 20, 30, 40];
    let out = rgba_to_bgra(&px);
    assert_eq!(out, vec![3, 2, 1, 4, 30, 20, 10, 40]);
    assert_eq!(rgba_to_bgra(&out), px);
    assert!(rgba_to_bgra(&[]).is_empty());
}

#[test]
fn empty_list_placeholder_and_buttons_per_mode() {
    let d = dialog_layout(DialogMode::Idle, &Vec::new(), false, "H", "x");
    assert!(d.rows.is_empty());
    assert_eq!(d.placeholder.as_deref(), Some("No players connected"));
    let b: Vec<(String, i32, i32, ButtonStyle)> =
        d.buttons.into_iter().map(|b| (b.caption, b.top, b.bottom, b.style)).collect();
    assert_eq!(
        b,
        vec![
            ("Host Multiplayer Game".to_string(), 115, 155, ButtonStyle::Green),
            ("Join Friend".to_string(), 165, 205, ButtonStyle::Amber),
        ]
    );
    let players = vec![PlayerInfo { id: 1, name: "H".to_string(), is_host: true }];
    let d = dialog_layout(DialogMode::HostSetup, &players, true, "H", "");
    assert!(d.placeholder.is_none());
    assert_eq!(d.buttons[0].caption, "▶ Start Hosting");
    assert_eq!((d.buttons[1].caption.as_str(), d.buttons[1].top, d.buttons[1].bottom), ("← Back", 220, 250));
    assert_eq!(d.buttons[1].style, ButtonStyle::Gray);
    let d = dialog_layout(DialogMode::JoinSetup, &players, false, "H", "");
    assert_eq!((d.buttons[0].caption.as_str(), d.buttons[0].style), ("▶ Connect", ButtonStyle::Amber));
    assert_eq!((d.buttons[0].top, d.buttons[0].bottom), (170, 210));
}
