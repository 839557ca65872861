//! The `starling roost ...` command line.

use vstd::prelude::*;
use vstd::string::StringSliceAdditionalSpecFns;

use crate::bytes_order::has_prefix;
use crate::text::{str_eq, string_views};

verus! {

/// Which usage line to print before exiting with status 1.
#[derive(Clone, Copy, Debug, PartialEq, Eq, Structural)]
pub enum Usage {
    Root,
    Create,
    Close,
    Destroy,
    Invite,
    Status,
    Doctor,
    Logs,
    Members,
    Open,
    ChannelAdd,
    ChannelRemove,
    Channel,
}

/// The usage line of each command.
pub open spec fn usage_line(u: Usage) -> Seq<char> {
    match u {
        Usage::Root => "Usage: starling roost <command> [args]"@,
        Usage::Create => "Usage: starling roost create <name>"@,
        Usage::Close => "Usage: starling roost close <name>"@,
        Usage::Destroy => "Usage: starling roost destroy <name> [--force]"@,
        Usage::Invite => "Usage: starling roost invite <name>"@,
        Usage::Status => "Usage: starling roost status <name>"@,
        Usage::Doctor => "Usage: starling roost doctor <name>"@,
        Usage::Logs => "Usage: starling roost logs <name>"@,
        Usage::Members => "Usage: starling roost members <name>"@,
        Usage::Open => "Usage: starling roost open <name> [--silent] [--bg|--background]"@,
        Usage::ChannelAdd => "Usage: starling roost channel add <name> <channel>"@,
        Usage::ChannelRemove => "Usage: starling roost channel remove <name> <channel>"@,
        Usage::Channel => "Usage: starling roost channel add|remove <name> <channel>"@,
    }
}

impl Usage {
    /// The usage line.
    pub fn text(&self) -> (r: &'static str)
        ensures
            r@ == usage_line(*self),
    {
        match self {
            Usage::Root => "Usage: starling roost <command> [args]",
            Usage::Create => "Usage: starling roost create <name>",
            Usage::Close => "Usage: starling roost close <name>",
            Usage::Destroy => "Usage: starling roost destroy <name> [--force]",
            Usage::Invite => "Usage: starling roost invite <name>",
            Usage::Status => "Usage: starling roost status <name>",
            Usage::Doctor => "Usage: starling roost doctor <name>",
            Usage::Logs => "Usage: starling roost logs <name>",
            Usage::Members => "Usage: starling roost members <name>",
            Usage::Open => "Usage: starling roost open <name> [--silent] [--bg|--background]",
            Usage::ChannelAdd => "Usage: starling roost channel add <name> <channel>",
            Usage::ChannelRemove => "Usage: starling roost channel remove <name> <channel>",
            Usage::Channel => "Usage: starling roost channel add|remove <name> <channel>",
        }
    }
}

/// What the command line asks for.
#[derive(Debug, PartialEq, Eq)]
pub enum CliCommand {
    Version,
    Create(String),
    Open { name: String, silent: bool, background: bool },
    Close(String),
    Destroy { name: String, force: bool },
    Invite(String),
    Status(String),
    Doctor(String),
    Logs(String),
    Members(String),
    ChannelAdd { name: String, channel: String },
    ChannelRemove { name: String, channel: String },
    /// A flag that `open` does not know.
    UnknownFlag(String),
    /// Print this usage and exit with status 1.
    Usage(Usage),
}

/// The argument starts with `--`.
pub open spec fn is_flag(arg: Seq<char>) -> bool {
    has_prefix(vstd::utf8::encode_utf8(arg), seq![0x2du8, 0x2du8])
}

/// Whether an argument starts with `--`.
pub fn starts_with_dashes(arg: &str) -> (r: bool)
    ensures
        r == is_flag(arg@),
{
    let b = arg.as_bytes();
    let r = b.len() >= 2 && b[0] == 0x2d && b[1] == 0x2d;
    proof {
        if b@.len() >= 2 {
            if r {
                assert(b@.subrange(0, 2) =~= seq![0x2du8, 0x2du8]);
            } else {
                assert(b@.subrange(0, 2)[0] == b@[0]);
                assert(b@.subrange(0, 2)[1] == b@[1]);
            }
        }
    }
    r
}

/// How the arguments of `open` from index `i` on are read.
pub enum OpenScan {
    Flags { name: Option<Seq<char>>, silent: bool, background: bool },
    Unknown(Seq<char>),
}

/// Reads the arguments of `open` from index `i` on, given what was read
/// before: `--silent`, `--bg` or `--background` set their flag, any other
/// argument starting with `--` is an unknown flag, and every other argument
/// is the roost name (the last one wins).
pub open spec fn open_scan(args: Seq<Seq<char>>, i: int, name: Option<Seq<char>>, silent: bool, background: bool) -> OpenScan
    decreases args.len() - i,
{
    if i >= args.len() {
        OpenScan::Flags { name, silent, background }
    } else if args[i] == "--silent"@ {
        open_scan(args, i + 1, name, true, background)
    } else if args[i] == "--bg"@ || args[i] == "--background"@ {
        open_scan(args, i + 1, name, silent, true)
    } else if !is_flag(args[i]) {
        open_scan(args, i + 1, Some(args[i]), silent, background)
    } else {
        OpenScan::Unknown(args[i])
    }
}

/// The argument at index `i` equals `w`.
pub open spec fn arg_is(args: Seq<Seq<char>>, i: int, w: Seq<char>) -> bool {
    i < args.len() && args[i] == w
}

/// The name of a command that takes only a roost name at index 3.
pub open spec fn name_of(c: CliCommand) -> Option<Seq<char>> {
    match c {
        CliCommand::Create(n) => Some(n@),
        CliCommand::Close(n) => Some(n@),
        CliCommand::Invite(n) => Some(n@),
        CliCommand::Status(n) => Some(n@),
        CliCommand::Doctor(n) => Some(n@),
        CliCommand::Logs(n) => Some(n@),
        CliCommand::Members(n) => Some(n@),
        _ => None,
    }
}

/// `c` is the command `is_kind` when the roost name at index 3 is there,
/// and the usage otherwise.
pub open spec fn named(args: Seq<Seq<char>>, c: CliCommand, is_kind: bool, usage: Usage) -> bool {
    if args.len() > 3 {
        is_kind && name_of(c) == Some(args[3])
    } else {
        c == CliCommand::Usage(usage)
    }
}

/// `c` is what the command line `args` asks for (`args[0]` is the program).
pub open spec fn cli_spec(args: Seq<Seq<char>>, c: CliCommand) -> bool {
    if args.len() <= 1 {
        c == CliCommand::Usage(Usage::Root)
    } else if args[1] == "--version"@ {
        c == CliCommand::Version
    } else if args[1] != "roost"@ {
        c == CliCommand::Usage(Usage::Root)
    } else if arg_is(args, 2, "create"@) {
        named(args, c, c is Create, Usage::Create)
    } else if arg_is(args, 2, "open"@) {
        match open_scan(args, 3, None, false, false) {
            OpenScan::Unknown(a) => c matches CliCommand::UnknownFlag(f) && f@ == a,
            OpenScan::Flags { name: None, .. } => c == CliCommand::Usage(Usage::Open),
            OpenScan::Flags { name: Some(n), silent, background } => c matches CliCommand::Open {
                name: cn,
                silent: cs,
                background: cb,
            } && cn@ == n && cs == silent && cb == background,
        }
    } else if arg_is(args, 2, "close"@) {
        named(args, c, c is Close, Usage::Close)
    } else if arg_is(args, 2, "destroy"@) {
        if args.len() > 3 {
            c matches CliCommand::Destroy { name, force } && name@ == args[3] && force == arg_is(
                args,
                4,
                "--force"@,
            )
        } else {
            c == CliCommand::Usage(Usage::Destroy)
        }
    } else if arg_is(args, 2, "invite"@) {
        named(args, c, c is Invite, Usage::Invite)
    } else if arg_is(args, 2, "status"@) {
        named(args, c, c is Status, Usage::Status)
    } else if arg_is(args, 2, "doctor"@) {
        named(args, c, c is Doctor, Usage::Doctor)
    } else if arg_is(args, 2, "logs"@) {
        named(args, c, c is Logs, Usage::Logs)
    } else if arg_is(args, 2, "members"@) {
        named(args, c, c is Members, Usage::Members)
    } else if arg_is(args, 2, "channel"@) {
        if arg_is(args, 3, "add"@) {
            if args.len() > 5 {
                c matches CliCommand::ChannelAdd { name, channel } && name@ == args[4]
                    && channel@ == args[5]
            } else {
                c == CliCommand::Usage(Usage::ChannelAdd)
            }
        } else if arg_is(args, 3, "remove"@) {
            if args.len() > 5 {
                c matches CliCommand::ChannelRemove { name, channel } && name@ == args[4]
                    && channel@ == args[5]
            } else {
                c == CliCommand::Usage(Usage::ChannelRemove)
            }
        } else {
            c == CliCommand::Usage(Usage::Channel)
        }
    } else {
        c == CliCommand::Usage(Usage::Root)
    }
}

/// The words of `starling roost`, each different from the others.
proof fn lemma_subcommand_words()
    ensures
        "roost"@ != "--version"@,
        "create"@ != "open"@ && "create"@ != "close"@ && "create"@ != "destroy"@ && "create"@ != "invite"@
            && "create"@ != "status"@ && "create"@ != "doctor"@ && "create"@ != "logs"@ && "create"@
            != "members"@,
        "close"@ != "open"@ && "close"@ != "destroy"@ && "close"@ != "invite"@ && "close"@ != "status"@
            && "close"@ != "doctor"@ && "close"@ != "logs"@ && "close"@ != "members"@,
        "invite"@ != "open"@ && "invite"@ != "destroy"@ && "invite"@ != "status"@ && "invite"@ != "doctor"@
            && "invite"@ != "logs"@ && "invite"@ != "members"@,
        "status"@ != "open"@ && "status"@ != "destroy"@ && "status"@ != "doctor"@ && "status"@ != "logs"@
            && "status"@ != "members"@,
        "doctor"@ != "open"@ && "doctor"@ != "destroy"@ && "doctor"@ != "logs"@ && "doctor"@ != "members"@,
        "logs"@ != "open"@ && "logs"@ != "destroy"@ && "logs"@ != "members"@,
        "members"@ != "open"@ && "members"@ != "destroy"@,
        "destroy"@ != "open"@,
{
    reveal_strlit("roost");
    reveal_strlit("--version");
    reveal_strlit("create");
    reveal_strlit("open");
    reveal_strlit("close");
    reveal_strlit("destroy");
    reveal_strlit("invite");
    reveal_strlit("status");
    reveal_strlit("doctor");
    reveal_strlit("logs");
    reveal_strlit("members");
    assert("roost"@[0] != "--version"@[0]);
    assert("create"@[1] != "close"@[1]);
    assert("create"@[0] != "invite"@[0]);
    assert("create"@[0] != "status"@[0]);
    assert("create"@[0] != "doctor"@[0]);
    assert("close"@[0] != "invite"@[0]);
    assert("close"@[0] != "status"@[0]);
    assert("close"@[0] != "doctor"@[0]);
    assert("invite"@[0] != "status"@[0]);
    assert("invite"@[0] != "doctor"@[0]);
    assert("status"@[0] != "doctor"@[0]);
    assert("logs"@[0] != "open"@[0]);
    assert("destroy"@[0] != "members"@[0]);
    assert("create"@.len() == 6 && "invite"@.len() == 6 && "status"@.len() == 6 && "doctor"@.len() == 6);
    assert("open"@.len() == 4 && "logs"@.len() == 4 && "close"@.len() == 5);
    assert("destroy"@.len() == 7 && "members"@.len() == 7);
}

/// `starling roost <word> <name>`, for each command word that takes only a
/// roost name, gives the command of that word carrying the name; without a
/// name it gives that command's usage. No two words give the same command.
pub proof fn law_subcommand_words(args: Seq<Seq<char>>, c: CliCommand)
    requires
        cli_spec(args, c),
        args.len() > 2,
        args[1] == "roost"@,
    ensures
        args.len() > 3 && args[2] == "create"@ ==> c is Create && name_of(c) == Some(args[3]),
        args.len() > 3 && args[2] == "close"@ ==> c is Close && name_of(c) == Some(args[3]),
        args.len() > 3 && args[2] == "invite"@ ==> c is Invite && name_of(c) == Some(args[3]),
        args.len() > 3 && args[2] == "status"@ ==> c is Status && name_of(c) == Some(args[3]),
        args.len() > 3 && args[2] == "doctor"@ ==> c is Doctor && name_of(c) == Some(args[3]),
        args.len() > 3 && args[2] == "logs"@ ==> c is Logs && name_of(c) == Some(args[3]),
        args.len() > 3 && args[2] == "members"@ ==> c is Members && name_of(c) == Some(args[3]),
        args.len() > 3 && args[2] == "destroy"@ ==> (c matches CliCommand::Destroy { name, force } && name@
            == args[3] && force == (args.len() > 4 && args[4] == "--force"@)),
        args.len() == 3 ==> (args[2] == "create"@ ==> c == CliCommand::Usage(Usage::Create)),
        args.len() == 3 ==> (args[2] == "close"@ ==> c == CliCommand::Usage(Usage::Close)),
        args.len() == 3 ==> (args[2] == "invite"@ ==> c == CliCommand::Usage(Usage::Invite)),
        args.len() == 3 ==> (args[2] == "status"@ ==> c == CliCommand::Usage(Usage::Status)),
        args.len() == 3 ==> (args[2] == "doctor"@ ==> c == CliCommand::Usage(Usage::Doctor)),
        args.len() == 3 ==> (args[2] == "logs"@ ==> c == CliCommand::Usage(Usage::Logs)),
        args.len() == 3 ==> (args[2] == "members"@ ==> c == CliCommand::Usage(Usage::Members)),
{
    lemma_subcommand_words();
}

fn arg_eq(args: &Vec<String>, i: usize, w: &str) -> (r: bool)
    ensures
        r == arg_is(string_views(args@), i as int, w@),
{
    i < args.len() && str_eq(args[i].as_str(), w)
}

/// Reads the arguments of `open`.
fn parse_open(args: &Vec<String>) -> (r: CliCommand)
    requires
        args@.len() >= 3,
    ensures
        match open_scan(string_views(args@), 3, None, false, false) {
            OpenScan::Unknown(a) => r matches CliCommand::UnknownFlag(f) && f@ == a,
            OpenScan::Flags { name: None, .. } => r == CliCommand::Usage(Usage::Open),
            OpenScan::Flags { name: Some(n), silent, background } => r matches CliCommand::Open {
                name: cn,
                silent: cs,
                background: cb,
            } && cn@ == n && cs == silent && cb == background,
        },
{
    let ghost a = string_views(args@);
    let mut name: Option<String> = None;
    let mut silent = false;
    let mut background = false;
    let mut i: usize = 3;
    while i < args.len()
        invariant
            3 <= i <= args@.len(),
            a == string_views(args@),
            open_scan(a, 3, None, false, false) == open_scan(
                a,
                i as int,
                match name {
                    Some(n) => Some(n@),
                    None => None,
                },
                silent,
                background,
            ),
        decreases args@.len() - i,
    {
        let arg = args[i].as_str();
        assert(a[i as int] == arg@);
        if str_eq(arg, "--silent") {
            silent = true;
        } else if str_eq(arg, "--bg") || str_eq(arg, "--background") {
            background = true;
        } else if !starts_with_dashes(arg) {
            name = Some(args[i].clone());
        } else {
            return CliCommand::UnknownFlag(args[i].clone());
        }
        i = i + 1;
    }
    match name {
        Some(n) => CliCommand::Open { name: n, silent, background },
        None => CliCommand::Usage(Usage::Open),
    }
}

fn name_at_3(args: &Vec<String>, usage: Usage) -> (r: Result<String, CliCommand>)
    ensures
        match r {
            Ok(n) => args@.len() > 3 && n@ == args@[3]@,
            Err(c) => args@.len() <= 3 && c == CliCommand::Usage(usage),
        },
{
    if args.len() > 3 {
        Ok(args[3].clone())
    } else {
        Err(CliCommand::Usage(usage))
    }
}

/// Interprets the command line (`args[0]` is the program).
pub fn parse_cli(args: &Vec<String>) -> (r: CliCommand)
    ensures
        cli_spec(string_views(args@), r),
{
    let ghost a = string_views(args@);
    if args.len() <= 1 {
        return CliCommand::Usage(Usage::Root);
    }
    assert(a[1] == args@[1]@);
    if str_eq(args[1].as_str(), "--version") {
        return CliCommand::Version;
    }
    if !str_eq(args[1].as_str(), "roost") {
        return CliCommand::Usage(Usage::Root);
    }
    if args.len() > 3 {
        assert(a[3] == args@[3]@);
    }
    if args.len() > 5 {
        assert(a[4] == args@[4]@);
        assert(a[5] == args@[5]@);
    }
    if arg_eq(args, 2, "create") {
        match name_at_3(args, Usage::Create) {
            Ok(n) => CliCommand::Create(n),
            Err(c) => c,
        }
    } else if arg_eq(args, 2, "open") {
        parse_open(args)
    } else if arg_eq(args, 2, "close") {
        match name_at_3(args, Usage::Close) {
            Ok(n) => CliCommand::Close(n),
            Err(c) => c,
        }
    } else if arg_eq(args, 2, "destroy") {
        match name_at_3(args, Usage::Destroy) {
            Ok(n) => CliCommand::Destroy { name: n, force: arg_eq(args, 4, "--force") },
            Err(c) => c,
        }
    } else if arg_eq(args, 2, "invite") {
        match name_at_3(args, Usage::Invite) {
            Ok(n) => CliCommand::Invite(n),
            Err(c) => c,
        }
    } else if arg_eq(args, 2, "status") {
        match name_at_3(args, Usage::Status) {
            Ok(n) => CliCommand::Status(n),
            Err(c) => c,
        }
    } else if arg_eq(args, 2, "doctor") {
        match name_at_3(args, Usage::Doctor) {
            Ok(n) => CliCommand::Doctor(n),
            Err(c) => c,
        }
    } else if arg_eq(args, 2, "logs") {
        match name_at_3(args, Usage::Logs) {
            Ok(n) => CliCommand::Logs(n),
            Err(c) => c,
        }
    } else if arg_eq(args, 2, "members") {
        match name_at_3(args, Usage::Members) {
            Ok(n) => CliCommand::Members(n),
            Err(c) => c,
        }
    } else if arg_eq(args, 2, "channel") {
        if arg_eq(args, 3, "add") {
            if args.len() > 5 {
                CliCommand::ChannelAdd { name: args[4].clone(), channel: args[5].clone() }
            } else {
                CliCommand::Usage(Usage::ChannelAdd)
            }
        } else if arg_eq(args, 3, "remove") {
            if args.len() > 5 {
                CliCommand::ChannelRemove { name: args[4].clone(), channel: args[5].clone() }
            } else {
                CliCommand::Usage(Usage::ChannelRemove)
            }
        } else {
            CliCommand::Usage(Usage::Channel)
        }
    } else {
        CliCommand::Usage(Usage::Root)
    }
}

} // verus!
