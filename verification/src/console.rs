//! The commands of the text console: `host [port]`, `join <ip:port>`
//! (or `connect`), `status`, `border` (or `zone`) and `help`.
use vstd::prelude::*;
use crate::text::{
    concat2, contains_char, has_char, keyword_eq, lemma_trimmed_has_word, matches_keyword,
    parse_u16, parse_u16_spec, split_words, trim, trimmed, words, decimal, lemma_parse_decimal_u16,
};

verus! {

/// The port used when none (or no valid one) is given.
pub const DEFAULT_PORT: u16 = 7777;

/// A console command.
#[derive(Debug, Clone, PartialEq)]
pub enum ConsoleCommand {
    /// Host a session on this port.
    Host { port: u16 },
    /// Join the host at this address.
    Join { addr: String },
    /// `join` without an address: show the usage.
    JoinUsage,
    Status,
    Border,
    Help,
    Unknown,
}

/// The command a line asks for; `None` for a blank line. The first word
/// names the command, in any ASCII case.
pub open spec fn command_holds(line: Seq<char>, c: Option<ConsoleCommand>) -> bool {
    let w = words(trimmed(line));
    if trimmed(line).len() == 0 {
        c is None
    } else if matches_keyword(w[0], "host"@) {
        c == Some(
            ConsoleCommand::Host {
                port: if w.len() > 1 {
                    match parse_u16_spec(w[1]) {
                        Some(p) => p,
                        None => DEFAULT_PORT,
                    }
                } else {
                    DEFAULT_PORT
                },
            },
        )
    } else if matches_keyword(w[0], "join"@) || matches_keyword(w[0], "connect"@) {
        if w.len() < 2 {
            c == Some(ConsoleCommand::JoinUsage)
        } else {
            c matches Some(ConsoleCommand::Join { addr }) && addr@ == if has_char(w[1], ':') {
                w[1]
            } else {
                w[1] + ":7777"@
            }
        }
    } else if matches_keyword(w[0], "status"@) {
        c == Some(ConsoleCommand::Status)
    } else if matches_keyword(w[0], "border"@) || matches_keyword(w[0], "zone"@) {
        c == Some(ConsoleCommand::Border)
    } else if matches_keyword(w[0], "help"@) {
        c == Some(ConsoleCommand::Help)
    } else {
        c == Some(ConsoleCommand::Unknown)
    }
}

/// Reads one console line.
pub fn parse_console_command(line: &str) -> (c: Option<ConsoleCommand>)
    ensures
        command_holds(line@, c),
{
    let t = trim(line);
    if t.unicode_len() == 0 {
        return None;
    }
    proof {
        lemma_trimmed_has_word(line@);
    }
    let parts = split_words(t.as_str());
    let first = parts[0].as_str();
    if keyword_eq(first, "host") {
        let port: u16 = if parts.len() > 1 {
            match parse_u16(parts[1].as_str()) {
                Some(p) => p,
                None => DEFAULT_PORT,
            }
        } else {
            DEFAULT_PORT
        };
        Some(ConsoleCommand::Host { port })
    } else if keyword_eq(first, "join") || keyword_eq(first, "connect") {
        if parts.len() < 2 {
            Some(ConsoleCommand::JoinUsage)
        } else {
            let target = parts[1].as_str();
            let addr = if contains_char(target, ':') {
                target.to_owned()
            } else {
                concat2(target, ":7777")
            };
            Some(ConsoleCommand::Join { addr })
        }
    } else if keyword_eq(first, "status") {
        Some(ConsoleCommand::Status)
    } else if keyword_eq(first, "border") || keyword_eq(first, "zone") {
        Some(ConsoleCommand::Border)
    } else if keyword_eq(first, "help") {
        Some(ConsoleCommand::Help)
    } else {
        Some(ConsoleCommand::Unknown)
    }
}


/// What the hosting and joining commands ask for: `host` alone hosts on
/// port 7777 and `host <n>` on port `n`; `join` alone asks for the usage,
/// `join <h>` joins `h` at port 7777 when `h` names no port, and `h` as
/// given when it does.
pub proof fn law_console_host_and_join(line: Seq<char>, c: Option<ConsoleCommand>, p: u16, h: Seq<char>)
    requires
        command_holds(line, c),
    ensures
        words(trimmed(line)) == seq!["host"@] ==> c == Some(ConsoleCommand::Host { port: 7777 }),
        words(trimmed(line)) == seq!["host"@, decimal(p as nat)] ==> c == Some(
            ConsoleCommand::Host { port: p },
        ),
        words(trimmed(line)) == seq!["join"@] ==> c == Some(ConsoleCommand::JoinUsage),
        words(trimmed(line)) == seq!["join"@, h] && !has_char(h, ':') ==> (c matches Some(
            ConsoleCommand::Join { addr },
        ) && addr@ == h + ":7777"@),
        words(trimmed(line)) == seq!["join"@, h] && has_char(h, ':') ==> (c matches Some(
            ConsoleCommand::Join { addr },
        ) && addr@ == h),
{
    reveal_strlit("host");
    reveal_strlit("join");
    lemma_parse_decimal_u16(p);
    if words(trimmed(line)).len() > 0 && trimmed(line).len() == 0 {
        assert(words(trimmed(line)) == Seq::<Seq<char>>::empty());
    }
    assert(matches_keyword("host"@, "host"@));
    assert(matches_keyword("join"@, "join"@));
    assert(!matches_keyword("join"@, "host"@)) by {
        assert(crate::text::lower_code("join"@[0]) != "host"@[0] as u32);
    }
}

} // verus!
