//! The interactive console of a running roost.

use vstd::prelude::*;

use crate::text::{is_white_space, str_eq, string_views};

verus! {

/// A console line, as the roost understands it.
#[derive(Debug, PartialEq, Eq)]
pub enum ConsoleCommand {
    /// An empty line: nothing to do.
    Empty,
    /// `help`, `h` or `?`.
    Help,
    /// `status` or `s`.
    Status,
    /// `members` or `m`.
    Members,
    /// `invite` or `i`.
    Invite,
    /// `logs` or `l`.
    Logs,
    /// `quit`, `exit` or `q`.
    Quit,
    /// `channel add <name>`.
    ChannelAdd(String),
    /// `channel add` without a name.
    ChannelAddUsage,
    /// `channel remove <name>`.
    ChannelRemove(String),
    /// `channel remove` without a name.
    ChannelRemoveUsage,
    /// `channel` followed by anything else.
    ChannelUnknown,
    /// Any other line.
    Unknown,
}

/// The words of a line as `str::split_whitespace` yields them: the maximal
/// runs of characters that are not white space, in order.
pub open spec fn whitespace_words(line: Seq<char>) -> Seq<Seq<char>>
    decreases line.len(),
{
    if line.len() == 0 {
        Seq::empty()
    } else {
        let words = whitespace_words(line.drop_last());
        if is_white_space(line.last()) {
            words
        } else if line.len() >= 2 && !is_white_space(line[line.len() - 2]) {
            words.update(words.len() - 1, words.last().push(line.last()))
        } else {
            words.push(seq![line.last()])
        }
    }
}

/// Calls `str::split_whitespace` and collects the words.
#[verifier::external_body]
fn split_words(line: &str) -> (r: Vec<String>)
    ensures
        string_views(r@) == whitespace_words(line@),
{
    line.split_whitespace().map(|w| w.to_string()).collect()
}

/// The first word is one of the given spellings.
pub open spec fn first_is(words: Seq<Seq<char>>, a: Seq<char>) -> bool {
    words.len() > 0 && words[0] == a
}

/// What a console line of these words asks for.
pub open spec fn console_spec(words: Seq<Seq<char>>) -> ConsoleCommand {
    if first_is(words, "help"@) || first_is(words, "h"@) || first_is(words, "?"@) {
        ConsoleCommand::Help
    } else if first_is(words, "status"@) || first_is(words, "s"@) {
        ConsoleCommand::Status
    } else if first_is(words, "members"@) || first_is(words, "m"@) {
        ConsoleCommand::Members
    } else if first_is(words, "invite"@) || first_is(words, "i"@) {
        ConsoleCommand::Invite
    } else if first_is(words, "logs"@) || first_is(words, "l"@) {
        ConsoleCommand::Logs
    } else if first_is(words, "quit"@) || first_is(words, "exit"@) || first_is(words, "q"@) {
        ConsoleCommand::Quit
    } else if first_is(words, "channel"@) {
        if words.len() > 1 && words[1] == "add"@ {
            if words.len() > 2 {
                ConsoleCommand::ChannelAdd(arbitrary())
            } else {
                ConsoleCommand::ChannelAddUsage
            }
        } else if words.len() > 1 && words[1] == "remove"@ {
            if words.len() > 2 {
                ConsoleCommand::ChannelRemove(arbitrary())
            } else {
                ConsoleCommand::ChannelRemoveUsage
            }
        } else {
            ConsoleCommand::ChannelUnknown
        }
    } else {
        ConsoleCommand::Unknown
    }
}

/// The command and its argument agree with `console_spec`.
pub open spec fn console_matches(words: Seq<Seq<char>>, c: ConsoleCommand) -> bool {
    match c {
        ConsoleCommand::ChannelAdd(name) => console_spec(words) is ChannelAdd && name@ == words[2],
        ConsoleCommand::ChannelRemove(name) => console_spec(words) is ChannelRemove && name@
            == words[2],
        _ => c == console_spec(words),
    }
}

/// The console's spellings, each different from the others.
proof fn lemma_console_words()
    ensures
        ({
            let w = seq!["help"@, "h"@, "?"@, "status"@, "s"@, "members"@, "m"@, "invite"@, "i"@, "logs"@, "l"@,
                "quit"@, "exit"@, "q"@, "channel"@];
            forall|a: int, b: int| 0 <= a < b < w.len() ==> #[trigger] w[a] != #[trigger] w[b]
        }),
        "add"@ != "remove"@,
{
    reveal_strlit("help");
    reveal_strlit("h");
    reveal_strlit("?");
    reveal_strlit("status");
    reveal_strlit("s");
    reveal_strlit("members");
    reveal_strlit("m");
    reveal_strlit("invite");
    reveal_strlit("i");
    reveal_strlit("logs");
    reveal_strlit("l");
    reveal_strlit("quit");
    reveal_strlit("exit");
    reveal_strlit("q");
    reveal_strlit("channel");
    reveal_strlit("add");
    reveal_strlit("remove");
    let w = seq!["help"@, "h"@, "?"@, "status"@, "s"@, "members"@, "m"@, "invite"@, "i"@, "logs"@, "l"@,
        "quit"@, "exit"@, "q"@, "channel"@];
    assert forall|a: int, b: int| 0 <= a < b < w.len() implies #[trigger] w[a] != #[trigger] w[b] by {
        assert(w[a].len() != w[b].len() || w[a][0] != w[b][0]);
    }
    assert("add"@.len() != "remove"@.len());
}

/// A console line is read by its first word, whichever of the spellings in
/// the help it is: `help`, `h` or `?` ask for help; `status` or `s` for the
/// status; `members` or `m` for the members; `invite` or `i` for the invite
/// code; `logs` or `l` for the log path; `quit`, `exit` or `q` shut the roost
/// down; `channel add <name>` and `channel remove <name>` carry the name.
pub proof fn law_console_spellings(words: Seq<Seq<char>>, c: ConsoleCommand)
    requires
        console_matches(words, c),
        words.len() > 0,
    ensures
        words[0] == "help"@ || words[0] == "h"@ || words[0] == "?"@ ==> c == ConsoleCommand::Help,
        words[0] == "status"@ || words[0] == "s"@ ==> c == ConsoleCommand::Status,
        words[0] == "members"@ || words[0] == "m"@ ==> c == ConsoleCommand::Members,
        words[0] == "invite"@ || words[0] == "i"@ ==> c == ConsoleCommand::Invite,
        words[0] == "logs"@ || words[0] == "l"@ ==> c == ConsoleCommand::Logs,
        words[0] == "quit"@ || words[0] == "exit"@ || words[0] == "q"@ ==> c == ConsoleCommand::Quit,
        words[0] == "channel"@ && words.len() > 2 && words[1] == "add"@ ==> (c matches ConsoleCommand::ChannelAdd(
            n,
        ) && n@ == words[2]),
        words[0] == "channel"@ && words.len() > 2 && words[1] == "remove"@ ==> (c matches ConsoleCommand::ChannelRemove(
            n,
        ) && n@ == words[2]),
        words[0] == "channel"@ && words.len() == 2 && words[1] == "add"@ ==> c == ConsoleCommand::ChannelAddUsage,
        words[0] == "channel"@ && words.len() == 2 && words[1] == "remove"@ ==> c
            == ConsoleCommand::ChannelRemoveUsage,
{
    lemma_console_words();
    let w = seq!["help"@, "h"@, "?"@, "status"@, "s"@, "members"@, "m"@, "invite"@, "i"@, "logs"@, "l"@,
        "quit"@, "exit"@, "q"@, "channel"@];
    assert(w[0] == "help"@ && w[1] == "h"@ && w[2] == "?"@ && w[3] == "status"@ && w[4] == "s"@);
    assert(w[5] == "members"@ && w[6] == "m"@ && w[7] == "invite"@ && w[8] == "i"@ && w[9] == "logs"@);
    assert(w[10] == "l"@ && w[11] == "quit"@ && w[12] == "exit"@ && w[13] == "q"@ && w[14] == "channel"@);
}

fn first_word_is(words: &Vec<String>, w: &str) -> (r: bool)
    ensures
        r == first_is(string_views(words@), w@),
{
    words.len() > 0 && str_eq(words[0].as_str(), w)
}

/// Interprets the words of a console line.
pub fn parse_console_words(words: &Vec<String>) -> (r: ConsoleCommand)
    ensures
        console_matches(string_views(words@), r),
{
    let ghost ws = string_views(words@);
    if first_word_is(words, "help") || first_word_is(words, "h") || first_word_is(words, "?") {
        ConsoleCommand::Help
    } else if first_word_is(words, "status") || first_word_is(words, "s") {
        ConsoleCommand::Status
    } else if first_word_is(words, "members") || first_word_is(words, "m") {
        ConsoleCommand::Members
    } else if first_word_is(words, "invite") || first_word_is(words, "i") {
        ConsoleCommand::Invite
    } else if first_word_is(words, "logs") || first_word_is(words, "l") {
        ConsoleCommand::Logs
    } else if first_word_is(words, "quit") || first_word_is(words, "exit") || first_word_is(
        words,
        "q",
    ) {
        ConsoleCommand::Quit
    } else if first_word_is(words, "channel") {
        if words.len() > 1 && str_eq(words[1].as_str(), "add") {
            if words.len() > 2 {
                assert(ws[2] == words@[2]@);
                ConsoleCommand::ChannelAdd(words[2].clone())
            } else {
                ConsoleCommand::ChannelAddUsage
            }
        } else if words.len() > 1 && str_eq(words[1].as_str(), "remove") {
            if words.len() > 2 {
                assert(ws[2] == words@[2]@);
                ConsoleCommand::ChannelRemove(words[2].clone())
            } else {
                ConsoleCommand::ChannelRemoveUsage
            }
        } else {
            ConsoleCommand::ChannelUnknown
        }
    } else {
        ConsoleCommand::Unknown
    }
}

/// Interprets a console line: an empty line is nothing to do, otherwise its
/// whitespace-separated words decide.
pub fn parse_console_line(line: &str) -> (r: ConsoleCommand)
    ensures
        line@.len() == 0 ==> r == ConsoleCommand::Empty,
        line@.len() > 0 ==> console_matches(whitespace_words(line@), r),
{
    if line.is_empty() {
        return ConsoleCommand::Empty;
    }
    let words = split_words(line);
    parse_console_words(&words)
}

} // verus!
