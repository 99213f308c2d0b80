use gladesync::network::{
    frame_line, handshake_reply, save_sync_message, HandshakeEvent, HandshakeStep,
    HandshakeVerdict, NetworkManager, PeerInfo,
};
use gladesync::protocol::{NetMessage, PlayerInfo};

fn player(id: u32, name: &str, is_host: bool) -> PlayerInfo {
    PlayerInfo { id, name: name.to_string(), is_host }
}

fn hosting(name: &str) -> NetworkManager {
    let mut net = NetworkManager::new();
    net.set_local_name(name.to_string());
    assert_eq!(net.start_host("".to_string(), Ok(())), Ok(()));
    net
}

#[test]
fn a_new_player_is_idle_builder() {
    let net = NetworkManager::new();
    assert!(!net.is_active());
    assert!(!net.is_hosting());
    assert_eq!(net.get_local_name(), "Builder");
    assert_eq!(net.local_id, 1);
    assert_eq!(net.next_player_id, 2);
    assert!(net.get_player_list().is_empty());
}

#[test]
fn rename_shows_in_own_list_entry() {
    let mut net = NetworkManager::new();
    net.set_local_name("Ann".to_string());
    assert_eq!(net.get_local_name(), "Ann");
    assert_eq!(net.get_player_list(), vec![player(1, "Ann", false)]);
    net.set_local_name("Bea".to_string());
    assert_eq!(net.get_player_list(), vec![player(1, "Bea", false)]);
}

#[test]
fn failed_listen_keeps_the_pin_only() {
    let mut net = NetworkManager::new();
    let r = net.start_host("1234".to_string(), Err("port in use".to_string()));
    assert_eq!(r, Err("port in use".to_string()));
    assert_eq!(net.room_pin, "1234");
    assert!(!net.is_hosting());
}

#[test]
fn host_list_is_host_then_peers() {
    let mut net = hosting("Hoster");
    assert_eq!(net.get_player_list(), vec![player(1, "Hoster", true)]);
    let a = net.admit_peer("Ann".to_string(), "10.0.0.2:5000".to_string());
    assert_eq!(a.assigned_id, 2);
    match a.ack {
        NetMessage::HandshakeAck { assigned_id, server_version, host_name } => {
            assert_eq!(assigned_id, 2);
            assert_eq!(server_version, "0.1.0");
            assert_eq!(host_name, "Hoster");
        }
        other => panic!("unexpected {:?}", other),
    }
    let b = net.admit_peer("Bob".to_string(), "10.0.0.3:5001".to_string());
    assert_eq!(b.assigned_id, 3);
    let expected = vec![player(1, "Hoster", true), player(2, "Ann", false), player(3, "Bob", false)];
    assert_eq!(net.get_player_list(), expected);
    assert_eq!(b.list_update, NetMessage::PlayerListUpdate { players: expected });
}

#[test]
fn handshake_pin_rules() {
    let mut net = hosting("H");
    let hs = |pin: &str| {
        Some(NetMessage::Handshake {
            client_version: "0.1.0".to_string(),
            player_name: "Ann".to_string(),
            pin: pin.to_string(),
        })
    };
    // No PIN set: anything goes.
    assert!(matches!(net.check_handshake(hs("whatever")), HandshakeVerdict::Accept { ref player_name } if player_name == "Ann"));
    net.set_room_pin("42".to_string());
    assert!(matches!(net.check_handshake(hs("42")), HandshakeVerdict::Accept { .. }));
    match net.check_handshake(hs("41")) {
        HandshakeVerdict::WrongPin { reply } => {
            assert_eq!(reply, NetMessage::HandshakeReject { reason: "Wrong PIN".to_string() })
        }
        _ => panic!("wrong pin accepted"),
    }
    assert!(matches!(net.check_handshake(Some(NetMessage::Ping)), HandshakeVerdict::Invalid));
    assert!(matches!(net.check_handshake(None), HandshakeVerdict::Invalid));
}

#[test]
fn kick_removes_first_peer_with_the_name() {
    let mut net = hosting("H");
    net.admit_peer("Ann".to_string(), "1.1.1.1:1".to_string());
    net.admit_peer("Bob".to_string(), "2.2.2.2:2".to_string());
    let rm = net.kick_player("Ann").expect("Ann is connected");
    assert_eq!(rm.peer, PeerInfo { id: 2, name: "Ann".to_string(), addr: "1.1.1.1:1".to_string() });
    assert_eq!(rm.notice, NetMessage::YouKicked { reason: "Kicked by host".to_string() });
    assert_eq!(net.get_player_list(), vec![player(1, "H", true), player(3, "Bob", false)]);
    assert!(net.kick_player("Ann").is_none());
    assert!(net.banned_addrs.is_empty());
}

#[test]
fn admit_then_kick_restores_the_list() {
    let mut net = hosting("H");
    net.admit_peer("Ann".to_string(), "1.1.1.1:1".to_string());
    let before = net.get_player_list();
    net.admit_peer("Zed".to_string(), "9.9.9.9:9".to_string());
    net.kick_player("Zed").unwrap();
    assert_eq!(net.get_player_list(), before);
    assert_eq!(net.next_player_id, 4);
}

#[test]
fn ban_refuses_the_address() {
    let mut net = hosting("H");
    net.admit_peer("Ann".to_string(), "10.0.0.2:51234".to_string());
    assert!(!net.is_banned("10.0.0.2"));
    let rm = net.ban_player("Ann").unwrap();
    assert_eq!(rm.ip, "10.0.0.2");
    assert_eq!(rm.notice, NetMessage::YouBanned { reason: "Banned by host".to_string() });
    assert!(net.is_banned("10.0.0.2"));
    assert!(!net.is_banned("10.0.0.3"));
    assert_eq!(net.get_player_list(), vec![player(1, "H", true)]);
}

#[test]
fn only_a_host_kicks_or_bans() {
    let mut net = NetworkManager::new();
    net.peers.push(PeerInfo { id: 5, name: "Ann".to_string(), addr: "1.2.3.4:5".to_string() });
    assert!(net.kick_player("Ann").is_none());
    assert!(net.ban_player("Ann").is_none());
    assert_eq!(net.peers.len(), 1);
}

#[test]
fn disconnects_and_failed_deliveries_drop_peers() {
    let mut net = hosting("H");
    net.admit_peer("A".to_string(), "a:1".to_string());
    net.admit_peer("B".to_string(), "b:1".to_string());
    net.admit_peer("C".to_string(), "c:1".to_string());
    net.broadcast_message(&vec![true, false, true]);
    let names: Vec<String> = net.peers.iter().map(|p| p.name.clone()).collect();
    assert_eq!(names, vec!["A".to_string(), "C".to_string()]);
    let update = net.peer_disconnected(2);
    assert_eq!(update, NetMessage::PlayerListUpdate { players: vec![player(1, "H", true), player(4, "C", false)] });
}

#[test]
fn disconnect_resets_the_session() {
    let mut net = hosting("H");
    net.admit_peer("A".to_string(), "a:1".to_string());
    net.ban_player("A");
    net.disconnect();
    assert!(!net.is_active());
    assert_eq!(net.local_id, 1);
    assert!(net.peers.is_empty());
    assert!(net.banned_addrs.is_empty());
    assert!(net.get_player_list().is_empty());
    assert_eq!(net.get_local_name(), "H");
}

#[test]
fn client_handshake_steps() {
    let mut net = NetworkManager::new();
    net.set_local_name("Ann".to_string());
    let hs = net.begin_connect("7".to_string());
    assert_eq!(
        hs,
        NetMessage::Handshake { client_version: "0.1.0".to_string(), player_name: "Ann".to_string(), pin: "7".to_string() }
    );
    assert!(net.get_player_list().is_empty());
    assert!(matches!(handshake_reply(HandshakeEvent::Line { message: None }), HandshakeStep::Continue));
    assert!(matches!(handshake_reply(HandshakeEvent::Line { message: Some(NetMessage::Ping) }), HandshakeStep::Continue));
    match handshake_reply(HandshakeEvent::Line {
        message: Some(NetMessage::HandshakeAck { assigned_id: 9, server_version: "0.1.0".to_string(), host_name: "H".to_string() }),
    }) {
        HandshakeStep::Accepted { assigned_id, host_name } => {
            assert_eq!(assigned_id, 9);
            assert_eq!(host_name, "H");
        }
        _ => panic!("not accepted"),
    }
    let fail = |e: HandshakeEvent| match handshake_reply(e) {
        HandshakeStep::Failed { reason } => reason,
        _ => panic!("not a failure"),
    };
    assert_eq!(fail(HandshakeEvent::Line { message: Some(NetMessage::HandshakeReject { reason: "Wrong PIN".to_string() }) }), "Rejected: Wrong PIN");
    assert_eq!(fail(HandshakeEvent::Closed), "Host closed the connection — session may not exist.");
    assert_eq!(fail(HandshakeEvent::TimedOut), "No response from host — the session doesn't exist or is unreachable.");
    assert_eq!(fail(HandshakeEvent::Failed { error: "reset".to_string() }), "Connection error: reset");
    net.complete_connection(9);
    assert!(net.is_active());
    assert_eq!(net.get_player_list(), vec![player(9, "Ann", false)]);
}

#[test]
fn client_reacts_to_host_messages() {
    let mut net = NetworkManager::new();
    net.complete_connection(4);
    let list = vec![player(1, "H", true), player(4, "Builder", false)];
    let e = net.receive_as_client(NetMessage::PlayerListUpdate { players: list.clone() });
    assert!(e.save.is_none() && e.chat.is_none());
    assert_eq!(net.get_player_list(), list);
    let e = net.receive_as_client(NetMessage::ChatMessage { sender: "H".to_string(), text: "hi".to_string() });
    assert_eq!(e.chat, Some("[H] hi".to_string()));
    let e = net.receive_as_client(NetMessage::SyncSaveState { glade_name: "g".to_string(), save_bytes_base64: "not base64!".to_string() });
    assert!(e.save.is_none());
    net.receive_as_client(NetMessage::YouKicked { reason: "x".to_string() });
    assert!(!net.is_active());
    assert!(!net.client_attached);
    assert!(net.get_player_list().is_empty());
}

#[test]
fn save_sync_round_trip() {
    let bytes: Vec<u8> = (0u8..=255).chain([0xFA, 0xEC, 0x20, 0x55, 0].iter().cloned()).collect();
    let msg = save_sync_message("glade-uuid".to_string(), &bytes);
    match &msg {
        NetMessage::SyncSaveState { glade_name, save_bytes_base64 } => {
            assert_eq!(glade_name, "glade-uuid");
            assert_eq!(save_bytes_base64.len() % 4, 0);
            assert_ne!(save_bytes_base64.as_bytes(), &bytes[..]);
        }
        _ => panic!("not a save sync"),
    }
    let mut client = NetworkManager::new();
    let e = client.receive_as_client(msg);
    assert_eq!(e.save, Some(("glade-uuid".to_string(), bytes)));
}

#[test]
fn base64_matches_the_documented_examples() {
    let msg = save_sync_message("g".to_string(), &b"\xFF\xEC\x20\x55\0".to_vec());
    assert_eq!(msg, NetMessage::SyncSaveState { glade_name: "g".to_string(), save_bytes_base64: "/+wgVQA=".to_string() });
    let msg = save_sync_message("g".to_string(), &b"fo".to_vec());
    assert_eq!(msg, NetMessage::SyncSaveState { glade_name: "g".to_string(), save_bytes_base64: "Zm8=".to_string() });
}

#[test]
fn lines_are_framed_by_trimming() {
    assert_eq!(frame_line("  {\"Ping\":null}\r\n"), Some("{\"Ping\":null}".to_string()));
    assert_eq!(frame_line(" \r\n"), None);
}

#[test]
fn admissions_number_players_in_order() {
    let mut net = hosting("Hoster");
    let names = ["Ann", "Bob", "Cid", "Dee", "Eve"];
    let mut expected = vec![player(1, "Hoster", true)];
    for (i, name) in names.iter().enumerate() {
        let a = net.admit_peer(name.to_string(), format!("10.0.0.{}:5000", i));
        let id = i as u32 + 2;
        assert_eq!(a.assigned_id, id);
        match a.ack {
            NetMessage::HandshakeAck { assigned_id, .. } => assert_eq!(assigned_id, id),
            other => panic!("unexpected ack {:?}", other),
        }
        expected.push(player(id, name, false));
        assert_eq!(a.list_update, NetMessage::PlayerListUpdate { players: expected.clone() });
    }
    assert_eq!(net.get_player_list(), expected);
    assert_eq!(net.next_player_id, 7);
}
