use starling_server::cli::{parse_cli, CliCommand, Usage};
use starling_server::console::{parse_console_line, ConsoleCommand};
use starling_server::lifecycle::{parse_pid, parse_u32};

fn args(a: &[&str]) -> Vec<String> {
    a.iter().map(|s| s.to_string()).collect()
}

#[test]
fn console_lines_map_to_commands() {
    assert_eq!(parse_console_line(""), ConsoleCommand::Empty);
    assert_eq!(parse_console_line("   "), ConsoleCommand::Unknown);
    assert_eq!(parse_console_line("?"), ConsoleCommand::Help);
    assert_eq!(parse_console_line("  s  "), ConsoleCommand::Status);
    assert_eq!(parse_console_line("members"), ConsoleCommand::Members);
    assert_eq!(parse_console_line("i"), ConsoleCommand::Invite);
    assert_eq!(parse_console_line("logs"), ConsoleCommand::Logs);
    assert_eq!(parse_console_line("exit"), ConsoleCommand::Quit);
    assert_eq!(parse_console_line("channel add news"), ConsoleCommand::ChannelAdd("news".into()));
    assert_eq!(parse_console_line("channel add"), ConsoleCommand::ChannelAddUsage);
    assert_eq!(parse_console_line("channel\tremove  old"), ConsoleCommand::ChannelRemove("old".into()));
    assert_eq!(parse_console_line("channel remove"), ConsoleCommand::ChannelRemoveUsage);
    assert_eq!(parse_console_line("channel list"), ConsoleCommand::ChannelUnknown);
    assert_eq!(parse_console_line("dance"), ConsoleCommand::Unknown);
}

#[test]
fn command_line_dispatch() {
    assert_eq!(parse_cli(&args(&["starling"])), CliCommand::Usage(Usage::Root));
    assert_eq!(parse_cli(&args(&["starling", "--version"])), CliCommand::Version);
    assert_eq!(parse_cli(&args(&["starling", "flock"])), CliCommand::Usage(Usage::Root));
    assert_eq!(parse_cli(&args(&["starling", "roost", "create", "r"])), CliCommand::Create("r".into()));
    assert_eq!(parse_cli(&args(&["starling", "roost", "create"])), CliCommand::Usage(Usage::Create));
    assert_eq!(
        parse_cli(&args(&["starling", "roost", "destroy", "r", "--force"])),
        CliCommand::Destroy { name: "r".into(), force: true }
    );
    assert_eq!(
        parse_cli(&args(&["starling", "roost", "destroy", "r", "force"])),
        CliCommand::Destroy { name: "r".into(), force: false }
    );
    assert_eq!(parse_cli(&args(&["starling", "roost", "logs", "r"])), CliCommand::Logs("r".into()));
    assert_eq!(
        parse_cli(&args(&["starling", "roost", "channel", "add", "r", "c"])),
        CliCommand::ChannelAdd { name: "r".into(), channel: "c".into() }
    );
    assert_eq!(
        parse_cli(&args(&["starling", "roost", "channel", "remove", "r"])),
        CliCommand::Usage(Usage::ChannelRemove)
    );
    assert_eq!(parse_cli(&args(&["starling", "roost", "channel"])), CliCommand::Usage(Usage::Channel));
    assert_eq!(parse_cli(&args(&["starling", "roost", "fly"])), CliCommand::Usage(Usage::Root));
}

#[test]
fn open_reads_flags_and_the_last_name() {
    assert_eq!(
        parse_cli(&args(&["starling", "roost", "open", "--silent", "a", "--bg", "b"])),
        CliCommand::Open { name: "b".into(), silent: true, background: true }
    );
    assert_eq!(
        parse_cli(&args(&["starling", "roost", "open", "a", "--background"])),
        CliCommand::Open { name: "a".into(), silent: false, background: true }
    );
    assert_eq!(
        parse_cli(&args(&["starling", "roost", "open", "a", "--loud", "b"])),
        CliCommand::UnknownFlag("--loud".into())
    );
    assert_eq!(parse_cli(&args(&["starling", "roost", "open", "--silent"])), CliCommand::Usage(Usage::Open));
    assert_eq!(Usage::Open.text(), "Usage: starling roost open <name> [--silent] [--bg|--background]");
}

#[test]
fn pids_parse_like_u32_from_str() {
    assert_eq!(parse_u32("4242"), Some(4242));
    assert_eq!(parse_u32("+7"), Some(7));
    assert_eq!(parse_u32("+"), None);
    assert_eq!(parse_u32(""), None);
    assert_eq!(parse_u32("-1"), None);
    assert_eq!(parse_u32("4294967295"), Some(u32::MAX));
    assert_eq!(parse_u32("4294967296"), None);
    assert_eq!(parse_u32("12a"), None);
    assert_eq!(parse_pid("  1234\n"), Some(1234));
    assert_eq!(parse_pid("\t\n"), None);
    for s in ["0", "00012", "+0", "99999999999", " 1", "x"] {
        assert_eq!(parse_u32(s), s.parse::<u32>().ok(), "{s:?}");
    }
}

#[test]
fn console_words_split_at_unicode_white_space() {
    assert_eq!(
        parse_console_line("channel\u{a0}add\u{3000}x"),
        ConsoleCommand::ChannelAdd("x".into())
    );
    assert_eq!(parse_console_line("\u{2028}q"), ConsoleCommand::Quit);
}
