use gladesync::console::{parse_console_command, ConsoleCommand};

#[test]
fn blank_lines_are_no_command() {
    assert_eq!(parse_console_command(""), None);
    assert_eq!(parse_console_command("   \t"), None);
}

#[test]
fn host_takes_an_optional_port() {
    assert_eq!(parse_console_command("host"), Some(ConsoleCommand::Host { port: 7777 }));
    assert_eq!(parse_console_command("HOST 9000"), Some(ConsoleCommand::Host { port: 9000 }));
    assert_eq!(parse_console_command("host notaport"), Some(ConsoleCommand::Host { port: 7777 }));
    assert_eq!(parse_console_command("host 70000"), Some(ConsoleCommand::Host { port: 7777 }));
}

#[test]
fn join_adds_the_default_port() {
    assert_eq!(
        parse_console_command("join 127.0.0.1"),
        Some(ConsoleCommand::Join { addr: "127.0.0.1:7777".to_string() })
    );
    assert_eq!(
        parse_console_command("  Connect 10.0.0.5:8000 "),
        Some(ConsoleCommand::Join { addr: "10.0.0.5:8000".to_string() })
    );
    assert_eq!(parse_console_command("join"), Some(ConsoleCommand::JoinUsage));
}

#[test]
fn other_commands() {
    assert_eq!(parse_console_command("status"), Some(ConsoleCommand::Status));
    assert_eq!(parse_console_command("Border"), Some(ConsoleCommand::Border));
    assert_eq!(parse_console_command("zone"), Some(ConsoleCommand::Border));
    assert_eq!(parse_console_command("help me"), Some(ConsoleCommand::Help));
    assert_eq!(parse_console_command("dance"), Some(ConsoleCommand::Unknown));
}
