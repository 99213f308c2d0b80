use gladesync::hook::{log_msg, DebugConsole, HookEngine, SyncLoop, MAX_LOG_ENTRIES, SYNC_INTERVAL_NS};
use gladesync::protocol::{ActionPayload, EditCategory, NetMessage};

#[test]
fn log_keeps_the_latest_five_hundred() {
    let mut c = DebugConsole::new();
    for i in 0..(MAX_LOG_ENTRIES + 3) {
        assert!(!log_msg(&mut c, &format!("line {}", i)));
    }
    let e = c.entries();
    assert_eq!(e.len(), MAX_LOG_ENTRIES);
    assert_eq!(e[0], "line 3");
    assert_eq!(e[MAX_LOG_ENTRIES - 1], format!("line {}", MAX_LOG_ENTRIES + 2));
}

#[test]
fn console_toggle_dumps_the_log() {
    let mut c = DebugConsole::new();
    log_msg(&mut c, "hello");
    assert!(c.toggle_debug_console(false).is_empty());
    assert!(!c.is_open());
    let lines = c.toggle_debug_console(true);
    assert!(c.is_open());
    assert_eq!(lines.len(), 8);
    assert_eq!(lines[1], "  GladeSync Debug Console");
    assert_eq!(lines[5], "hello");
    assert_eq!(lines[7], "--- End of log buffer (new messages below) ---");
    assert!(log_msg(&mut c, "echoed"));
    assert_eq!(c.toggle_debug_console(true), vec!["[GladeSync] Closing console...".to_string()]);
    assert!(!c.is_open());
    assert_eq!(c.entries().len(), 2);
}

#[test]
fn local_edit_message() {
    let engine = HookEngine::new(0x1400_0000);
    let m = engine.on_local_edit(EditCategory::Wall, "beef".to_string(), 1_700_000_000_123);
    assert_eq!(
        m,
        NetMessage::BroadcastAction(ActionPayload {
            edit_category: EditCategory::Wall,
            action_id: 1_700_000_000_123,
            timestamp: 1_700_000_000_123,
            data_hex: "beef".to_string(),
        })
    );
}

#[test]
fn keys_act_on_press_only() {
    let mut s = SyncLoop::new();
    let a = s.on_keys(true, false, true);
    assert!(a.manual_sync && !a.manual_ignored && !a.toggle_console);
    let a = s.on_keys(true, true, true);
    assert!(!a.manual_sync && a.toggle_console);
    let a = s.on_keys(false, true, false);
    assert!(!a.manual_sync && !a.toggle_console);
    let a = s.on_keys(true, false, false);
    assert!(a.manual_ignored && !a.manual_sync);
}

#[test]
fn automatic_sync_is_rate_limited_and_change_driven() {
    let mut s = SyncLoop::new();
    let d = s.poll(false, 0);
    assert!(!d.check_save && !d.log_save_dir);
    let d = s.poll(true, 10);
    assert!(d.log_save_dir && d.check_save);
    assert!(s.observe_save(500, 10));
    let d = s.poll(true, 10 + SYNC_INTERVAL_NS - 1);
    assert!(!d.log_save_dir && !d.check_save);
    let d = s.poll(true, 10 + SYNC_INTERVAL_NS);
    assert!(d.check_save);
    assert!(!s.observe_save(500, 10 + SYNC_INTERVAL_NS));
    assert!(!s.observe_save(499, 10 + SYNC_INTERVAL_NS));
    assert!(s.observe_save(501, 10 + SYNC_INTERVAL_NS));
    // A clock that went back counts as no time passed.
    assert!(!s.poll(true, 0).check_save);
}

#[test]
fn manual_sync_resends_after_the_interval() {
    let mut s = SyncLoop::new();
    s.poll(true, 0);
    assert!(s.observe_save(7, 0));
    s.manual_sync_sent(100);
    assert!(!s.poll(true, 100 + SYNC_INTERVAL_NS - 1).check_save);
    assert!(s.poll(true, 100 + SYNC_INTERVAL_NS).check_save);
    assert!(s.observe_save(7, 100 + SYNC_INTERVAL_NS));
}

#[test]
fn any_run_of_calls_keeps_the_latest_messages() {
    let mut c = DebugConsole::new();
    let mut logged: Vec<String> = Vec::new();
    for i in 0..1234 {
        if i % 97 == 0 {
            c.toggle_debug_console(i % 2 == 0);
        }
        let m = format!("msg {}", i);
        log_msg(&mut c, &m);
        logged.push(m);
        let e = c.entries();
        assert!(e.len() <= MAX_LOG_ENTRIES);
        let keep = logged.len().min(MAX_LOG_ENTRIES);
        assert_eq!(e[..], logged[logged.len() - keep..]);
    }
}
