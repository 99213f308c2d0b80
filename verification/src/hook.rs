//! The debug log kept for the console window, local edits, and the timing
//! rules of the host's save-sync loop.
use vstd::prelude::*;
use crate::protocol::{ActionPayload, EditCategory, NetMessage, copy_strings, strings_view};

verus! {

/// How many log lines the debug log keeps.
pub const MAX_LOG_ENTRIES: usize = 500;

/// The last `n` elements of `s` (all of `s` when it is shorter).
pub open spec fn keep_last(s: Seq<Seq<char>>, n: nat) -> Seq<Seq<char>> {
    if s.len() > n {
        s.subrange(s.len() - n, s.len() as int)
    } else {
        s
    }
}

/// The lines printed when the debug console opens, before the log.
pub open spec fn console_header() -> Seq<Seq<char>> {
    seq![
        "========================================"@,
        "  GladeSync Debug Console"@,
        "  F12 = close | F10 = manual sync"@,
        "========================================"@,
        ""@,
    ]
}

/// The lines printed when the debug console opens, after the log.
pub open spec fn console_footer() -> Seq<Seq<char>> {
    seq![""@, "--- End of log buffer (new messages below) ---"@]
}

/// The debug log (the latest messages, oldest first) and whether the
/// console window is open.
pub struct DebugConsole {
    entries: Vec<String>,
    open: bool,
}

impl DebugConsole {
    /// The logged messages, oldest first.
    pub closed spec fn log(&self) -> Seq<Seq<char>> {
        strings_view(self.entries@)
    }

    /// The console window is open.
    pub closed spec fn window_open(&self) -> bool {
        self.open
    }

    /// The log holds no more than [`MAX_LOG_ENTRIES`] messages.
    pub open spec fn wf(&self) -> bool {
        self.log().len() <= MAX_LOG_ENTRIES
    }

    /// An empty log with the window closed.
    pub fn new() -> (r: DebugConsole)
        ensures
            r.log() == Seq::<Seq<char>>::empty(),
            !r.window_open(),
            r.wf(),
    {
        let r = DebugConsole { entries: Vec::new(), open: false };
        assert(r.log() =~= Seq::<Seq<char>>::empty());
        r
    }

    /// Whether the console window is open.
    pub fn is_open(&self) -> (r: bool)
        ensures
            r == self.window_open(),
    {
        self.open
    }

    /// The logged messages, oldest first.
    pub fn entries(&self) -> (r: Vec<String>)
        ensures
            strings_view(r@) == self.log(),
    {
        copy_strings(&self.entries)
    }

    /// Opens or closes the console window. Closing returns the farewell
    /// line to print. Opening happens only when the window could be
    /// created (`allocated`), and returns the header, every logged message
    /// and the footer; otherwise nothing changes and nothing is printed.
    pub fn toggle_debug_console(&mut self, allocated: bool) -> (lines: Vec<String>)
        requires
            old(self).wf(),
        ensures
            final(self).wf(),
            final(self).log() == old(self).log(),
            old(self).window_open() ==> !final(self).window_open() && strings_view(lines@)
                == seq!["[GladeSync] Closing console..."@],
            !old(self).window_open() && allocated ==> final(self).window_open() && strings_view(
                lines@,
            ) == console_header() + old(self).log() + console_footer(),
            !old(self).window_open() && !allocated ==> !final(self).window_open() && lines@.len()
                == 0,
    {
        let mut lines: Vec<String> = Vec::new();
        if self.open {
            lines.push(String::from_str("[GladeSync] Closing console..."));
            self.open = false;
            assert(strings_view(lines@) =~= seq!["[GladeSync] Closing console..."@]);
            return lines;
        }
        if !allocated {
            return lines;
        }
        self.open = true;
        lines.push(String::from_str("========================================"));
        lines.push(String::from_str("  GladeSync Debug Console"));
        lines.push(String::from_str("  F12 = close | F10 = manual sync"));
        lines.push(String::from_str("========================================"));
        lines.push(String::from_str(""));
        assert(strings_view(lines@) =~= console_header());
        let mut i: usize = 0;
        while i < self.entries.len()
            invariant
                i <= self.entries@.len(),
                strings_view(lines@) == console_header() + strings_view(self.entries@).subrange(
                    0,
                    i as int,
                ),
            decreases self.entries@.len() - i,
        {
            let ghost before = strings_view(lines@);
            let ghost sv = strings_view(self.entries@);
            lines.push(self.entries[i].clone());
            assert(strings_view(lines@) =~= before.push(sv[i as int]));
            assert(console_header() + sv.subrange(0, i + 1) =~= (console_header() + sv.subrange(
                0,
                i as int,
            )).push(sv[i as int]));
            i = i + 1;
        }
        assert(strings_view(self.entries@).subrange(0, self.entries@.len() as int) =~= strings_view(
            self.entries@,
        ));
        let ghost mid = strings_view(lines@);
        lines.push(String::from_str(""));
        lines.push(String::from_str("--- End of log buffer (new messages below) ---"));
        assert(strings_view(lines@) =~= mid + console_footer());
        lines
    }
}

/// Logs `msg`: it becomes the newest entry, and the oldest entry is
/// dropped once more than [`MAX_LOG_ENTRIES`] are kept. Returns whether
/// the line is also to be written to the open console window.
pub fn log_msg(console: &mut DebugConsole, msg: &str) -> (echo: bool)
    requires
        old(console).wf(),
    ensures
        final(console).wf(),
        final(console).log() == keep_last(old(console).log().push(msg@), MAX_LOG_ENTRIES as nat),
        final(console).window_open() == old(console).window_open(),
        echo == old(console).window_open(),
{
    let ghost before = console.log();
    console.entries.push(msg.to_owned());
    assert(strings_view(console.entries@) =~= before.push(msg@));
    if console.entries.len() > MAX_LOG_ENTRIES {
        console.entries.remove(0);
        assert(strings_view(console.entries@) =~= before.push(msg@).subrange(1, before.len() + 1 as int));
    }
    console.open
}

/// The log always holds the latest [`MAX_LOG_ENTRIES`] messages ever
/// logged: logging `m` on top of the kept part of a history keeps the
/// same as the history with `m` appended.
pub proof fn law_log_keeps_latest(history: Seq<Seq<char>>, m: Seq<char>)
    ensures
        keep_last(keep_last(history, MAX_LOG_ENTRIES as nat).push(m), MAX_LOG_ENTRIES as nat)
            == keep_last(history.push(m), MAX_LOG_ENTRIES as nat),
{
    let n = MAX_LOG_ENTRIES as nat;
    let k = keep_last(history, n);
    if history.len() > n {
        assert(keep_last(k.push(m), n) =~= keep_last(history.push(m), n));
    } else {
        assert(k == history);
    }
}

/// The log after a run of calls on a debug log holding `log`: `Some(m)`
/// is a [`log_msg`] of `m`, `None` a call that leaves the log as it is
/// (opening or closing the window, reading the entries).
pub open spec fn log_after_run(log: Seq<Seq<char>>, run: Seq<Option<Seq<char>>>) -> Seq<
    Seq<char>,
>
    decreases run.len(),
{
    if run.len() == 0 {
        log
    } else {
        let before = log_after_run(log, run.drop_last());
        match run.last() {
            Some(m) => keep_last(before.push(m), MAX_LOG_ENTRIES as nat),
            None => before,
        }
    }
}

/// The messages that a run of calls logs, in order.
pub open spec fn logged_in(run: Seq<Option<Seq<char>>>) -> Seq<Seq<char>>
    decreases run.len(),
{
    if run.len() == 0 {
        Seq::empty()
    } else {
        let rest = logged_in(run.drop_last());
        match run.last() {
            Some(m) => rest.push(m),
            None => rest,
        }
    }
}

/// Whatever run of calls follows, the log holds at most
/// [`MAX_LOG_ENTRIES`] messages: the latest of everything ever logged,
/// oldest first. From a fresh log (`history` empty) that is the latest
/// `min(n, MAX_LOG_ENTRIES)` of the `n` messages the run logged.
pub proof fn law_log_holds_latest_of_any_run(
    history: Seq<Seq<char>>,
    run: Seq<Option<Seq<char>>>,
)
    ensures
        log_after_run(keep_last(history, MAX_LOG_ENTRIES as nat), run) == keep_last(
            history + logged_in(run),
            MAX_LOG_ENTRIES as nat,
        ),
        log_after_run(keep_last(history, MAX_LOG_ENTRIES as nat), run).len() <= MAX_LOG_ENTRIES,
        log_after_run(Seq::empty(), run) == keep_last(logged_in(run), MAX_LOG_ENTRIES as nat),
    decreases run.len(),
{
    let n = MAX_LOG_ENTRIES as nat;
    if run.len() > 0 {
        let front = run.drop_last();
        law_log_holds_latest_of_any_run(history, front);
        match run.last() {
            Some(m) => {
                law_log_keeps_latest(history + logged_in(front), m);
                assert((history + logged_in(front)).push(m) =~= history + logged_in(run));
            },
            None => {},
        }
    } else {
        assert(history + logged_in(run) =~= history);
    }
    assert(keep_last(Seq::<Seq<char>>::empty(), n) == Seq::<Seq<char>>::empty());
    assert(Seq::<Seq<char>>::empty() + logged_in(run) =~= logged_in(run));
    if run.len() > 0 {
        law_log_holds_latest_of_any_run(Seq::empty(), run.drop_last());
        match run.last() {
            Some(m) => {
                law_log_keeps_latest(logged_in(run.drop_last()), m);
            },
            None => {},
        }
    }
}

/// The game process, for sending local edits.
pub struct HookEngine {
    pub base_address: usize,
}

impl HookEngine {
    /// The engine for the game module loaded at `base_address`.
    pub fn new(base_address: usize) -> (r: HookEngine)
        ensures
            r.base_address == base_address,
    {
        HookEngine { base_address }
    }

    /// The message announcing a local edit made at `now_ms` (milliseconds
    /// since the Unix epoch), which serves as both its id and its time.
    pub fn on_local_edit(&self, category: EditCategory, hex_data: String, now_ms: u64) -> (m:
        NetMessage)
        ensures
            match m {
                NetMessage::BroadcastAction(p) => p.edit_category == category && p.action_id
                    == now_ms && p.timestamp == now_ms && p.data_hex@ == hex_data@,
                _ => false,
            },
    {
        NetMessage::BroadcastAction(
            ActionPayload {
                edit_category: category,
                action_id: now_ms,
                timestamp: now_ms,
                data_hex: hex_data,
            },
        )
    }
}

/// The least time between two automatic save syncs, in nanoseconds.
pub const SYNC_INTERVAL_NS: u128 = 1_500_000_000;

/// The time from `earlier` to `now`, or 0 when the clock went back.
pub open spec fn elapsed(now: u128, earlier: u128) -> u128 {
    if now >= earlier {
        (now - earlier) as u128
    } else {
        0
    }
}

/// The state of the host's save-sync loop (times in nanoseconds since the
/// Unix epoch).
#[derive(Debug, Clone, Copy, PartialEq, Eq, Structural)]
pub struct SyncLoop {
    /// The save time last sent automatically (cleared by a manual sync).
    pub last_save_mtime: Option<u128>,
    /// When a save was last sent.
    pub last_sync_time: Option<u128>,
    /// The save folder has been reported since hosting began.
    pub save_dir_logged: bool,
    pub f10_was_down: bool,
    pub f12_was_down: bool,
}

/// What the keys do in one turn of the loop.
#[derive(Debug, Clone, Copy, PartialEq, Eq, Structural)]
pub struct KeyActions {
    /// F10 was just pressed while hosting: send the latest save now.
    pub manual_sync: bool,
    /// F10 was just pressed while not hosting: nothing is sent.
    pub manual_ignored: bool,
    /// F12 was just pressed: open or close the console window.
    pub toggle_console: bool,
}

/// What the rest of the turn does.
#[derive(Debug, Clone, Copy, PartialEq, Eq, Structural)]
pub struct PollDecision {
    /// Report the save folder (first turn of a hosting session).
    pub log_save_dir: bool,
    /// Look at the latest save's time.
    pub check_save: bool,
}

/// Whether a turn at `now` looks at the save, as a host.
pub open spec fn poll_checks(s: SyncLoop, now: u128) -> bool {
    match s.last_sync_time {
        Some(last) => elapsed(now, last) >= SYNC_INTERVAL_NS,
        None => true,
    }
}

/// A save of time `mtime` is new to the loop.
pub open spec fn save_is_new(s: SyncLoop, mtime: u128) -> bool {
    match s.last_save_mtime {
        None => true,
        Some(last) => mtime > last,
    }
}

/// The loop after seeing a save of time `mtime` at `now`.
pub open spec fn after_observe(s: SyncLoop, mtime: u128, now: u128) -> SyncLoop {
    if save_is_new(s, mtime) {
        SyncLoop { last_save_mtime: Some(mtime), last_sync_time: Some(now), ..s }
    } else {
        s
    }
}

impl SyncLoop {
    /// The loop before its first turn.
    pub fn new() -> (r: SyncLoop)
        ensures
            r == (SyncLoop {
                last_save_mtime: None,
                last_sync_time: None,
                save_dir_logged: false,
                f10_was_down: false,
                f12_was_down: false,
            }),
    {
        SyncLoop {
            last_save_mtime: None,
            last_sync_time: None,
            save_dir_logged: false,
            f10_was_down: false,
            f12_was_down: false,
        }
    }

    /// Reads the keys: a key acts when it goes down, not while it is held.
    pub fn on_keys(&mut self, f10_down: bool, f12_down: bool, hosting: bool) -> (a: KeyActions)
        ensures
            a.manual_sync == (f10_down && !old(self).f10_was_down && hosting),
            a.manual_ignored == (f10_down && !old(self).f10_was_down && !hosting),
            a.toggle_console == (f12_down && !old(self).f12_was_down),
            *final(self) == (SyncLoop { f10_was_down: f10_down, f12_was_down: f12_down, ..*old(self) }),
    {
        let pressed10: bool = f10_down && !self.f10_was_down;
        let pressed12: bool = f12_down && !self.f12_was_down;
        self.f10_was_down = f10_down;
        self.f12_was_down = f12_down;
        KeyActions {
            manual_sync: pressed10 && hosting,
            manual_ignored: pressed10 && !hosting,
            toggle_console: pressed12,
        }
    }

    /// A manual sync sent the save at `now`: the next automatic turn sends
    /// the save again once the interval has passed.
    pub fn manual_sync_sent(&mut self, now: u128)
        ensures
            *final(self) == (SyncLoop {
                last_sync_time: Some(now),
                last_save_mtime: None,
                ..*old(self)
            }),
    {
        self.last_sync_time = Some(now);
        self.last_save_mtime = None;
    }

    /// The rest of a turn at `now`: nothing unless hosting; the save folder
    /// is reported on the first hosting turn; the save is looked at unless
    /// the last sync was less than [`SYNC_INTERVAL_NS`] ago.
    pub fn poll(&mut self, hosting: bool, now: u128) -> (d: PollDecision)
        ensures
            !hosting ==> *final(self) == *old(self) && !d.log_save_dir && !d.check_save,
            hosting ==> *final(self) == (SyncLoop { save_dir_logged: true, ..*old(self) })
                && d.log_save_dir == !old(self).save_dir_logged && d.check_save == poll_checks(
                *old(self),
                now,
            ),
    {
        if !hosting {
            return PollDecision { log_save_dir: false, check_save: false };
        }
        let log_save_dir: bool = !self.save_dir_logged;
        self.save_dir_logged = true;
        let check_save: bool = match self.last_sync_time {
            Some(last) => {
                let gone: u128 = if now >= last {
                    now - last
                } else {
                    0
                };
                gone >= SYNC_INTERVAL_NS
            },
            None => true,
        };
        PollDecision { log_save_dir, check_save }
    }

    /// Looks at the latest save's time `mtime` at `now`: a newer save (or
    /// the first one seen) is to be sent, and is remembered together with
    /// the time of sending.
    pub fn observe_save(&mut self, mtime: u128, now: u128) -> (send: bool)
        ensures
            send == save_is_new(*old(self), mtime),
            *final(self) == after_observe(*old(self), mtime, now),
    {
        let new_save: bool = match self.last_save_mtime {
            None => true,
            Some(last) => mtime > last,
        };
        if new_save {
            self.last_save_mtime = Some(mtime);
            self.last_sync_time = Some(now);
        }
        new_save
    }
}

/// After a save is sent automatically at `t`, no turn earlier than `t`
/// plus the interval looks at the save again.
pub proof fn law_sync_rate_limited(s: SyncLoop, mtime: u128, t: u128, later: u128)
    requires
        save_is_new(s, mtime),
        t <= later,
        later - t < SYNC_INTERVAL_NS,
    ensures
        !poll_checks(after_observe(s, mtime, t), later),
{
}

/// A save that was sent is not new any more: seeing the same save time
/// again sends nothing.
pub proof fn law_same_save_not_resent(s: SyncLoop, mtime: u128, t: u128)
    ensures
        !save_is_new(after_observe(s, mtime, t), mtime),
{
}


/// The log keeps the newest messages: at most `n` of them, the last ones
/// of `s` in their order.
pub proof fn law_log_keeps_the_newest(s: Seq<Seq<char>>, n: nat)
    ensures
        keep_last(s, n).len() == if s.len() <= n {
            s.len()
        } else {
            n
        },
        forall|i: int|
            0 <= i < keep_last(s, n).len() ==> #[trigger] keep_last(s, n)[i] == s[s.len() - keep_last(
                s,
                n,
            ).len() + i],
{
}

/// Saves are sent as they get newer: the first save seen is sent, and
/// after one is sent, any later save time is sent again while the same or
/// an older one is not.
pub proof fn law_newer_saves_are_sent(s: SyncLoop, m1: u128, m2: u128, t: u128)
    ensures
        s.last_save_mtime is None ==> save_is_new(s, m1),
        save_is_new(s, m1) ==> after_observe(s, m1, t).last_save_mtime == Some(m1)
            && after_observe(s, m1, t).last_sync_time == Some(t),
        !save_is_new(s, m1) ==> after_observe(s, m1, t) == s,
        save_is_new(s, m1) ==> (save_is_new(after_observe(s, m1, t), m2) <==> m2 > m1),
        s.last_save_mtime matches Some(last) ==> (save_is_new(s, m1) <==> m1 > last),
{
}

/// The automatic sync looks at the save on a host's first turn, and again
/// once the interval has passed since the last save was sent; a clock
/// that went back counts as no time passed.
pub proof fn law_sync_checks_after_the_interval(s: SyncLoop, now: u128)
    ensures
        s.last_sync_time is None ==> poll_checks(s, now),
        s.last_sync_time matches Some(last) ==> (poll_checks(s, now) <==> now >= last && now - last
            >= SYNC_INTERVAL_NS),
{
}

} // verus!
