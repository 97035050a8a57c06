//! Console command parsing.
//!
//! A line of user input starting with a slash is a command: send a message,
//! list the discovered peers, ask for help, or quit. The parser trims the
//! line, splits the command word from its arguments at the first space, and
//! reports precisely why an input is not a command.

use vstd::prelude::*;
use crate::text::{chars_to_string, str_chars};
use crate::validation::is_space_char;
use vstd::string::StringExecFns;

verus! {

/// User commands.
#[derive(Debug, Clone, PartialEq, Eq)]
pub enum Command {
    /// Send a message to a peer
    Send { to: String, content: String },
    /// List discovered peers
    Peers,
    /// Quit the application
    Quit,
    /// Display help
    Help,
}

/// The mathematical value of a command.
pub enum CommandView {
    Send { to: Seq<char>, content: Seq<char> },
    Peers,
    Quit,
    Help,
}

impl View for Command {
    type V = CommandView;

    open spec fn view(&self) -> CommandView {
        match self {
            Command::Send { to, content } => CommandView::Send { to: to@, content: content@ },
            Command::Peers => CommandView::Peers,
            Command::Quit => CommandView::Quit,
            Command::Help => CommandView::Help,
        }
    }
}

/// Errors that can occur during command parsing.
#[derive(Debug, Clone, PartialEq, Eq)]
pub enum CommandParseError {
    /// Command not recognized
    UnknownCommand(String),
    /// Command is missing required arguments
    MissingArguments { command: String, usage: String },
    /// Input doesn't start with the command prefix
    NotACommand,
}

/// The mathematical value of a parse error.
pub enum CommandParseErrorView {
    UnknownCommand(Seq<char>),
    MissingArguments { command: Seq<char>, usage: Seq<char> },
    NotACommand,
}

impl View for CommandParseError {
    type V = CommandParseErrorView;

    open spec fn view(&self) -> CommandParseErrorView {
        match self {
            CommandParseError::UnknownCommand(s) => CommandParseErrorView::UnknownCommand(s@),
            CommandParseError::MissingArguments { command, usage } =>
                CommandParseErrorView::MissingArguments { command: command@, usage: usage@ },
            CommandParseError::NotACommand => CommandParseErrorView::NotACommand,
        }
    }
}

/// The input with leading whitespace removed.
pub open spec fn spec_trim_start(s: Seq<char>) -> Seq<char>
    decreases s.len(),
{
    if s.len() > 0 && is_space_char(s[0]) {
        spec_trim_start(s.drop_first())
    } else {
        s
    }
}

/// The input with trailing whitespace removed.
pub open spec fn spec_trim_end(s: Seq<char>) -> Seq<char>
    decreases s.len(),
{
    if s.len() > 0 && is_space_char(s.last()) {
        spec_trim_end(s.drop_last())
    } else {
        s
    }
}

/// The input with surrounding whitespace removed.
pub open spec fn spec_trim(s: Seq<char>) -> Seq<char> {
    spec_trim_end(spec_trim_start(s))
}

/// The missing-arguments error of the send command.
pub open spec fn send_missing_args() -> CommandParseErrorView {
    CommandParseErrorView::MissingArguments {
        command: "/send"@,
        usage: "<nickname> <message>"@,
    }
}

/// The meaning of a command word and what follows it.
pub open spec fn spec_dispatch(cmd: Seq<char>, tail: Option<Seq<char>>) -> Result<
    CommandView,
    CommandParseErrorView,
> {
    if cmd == "send"@ {
        match tail {
            None => Err(send_missing_args()),
            Some(t) => match t.index_of_first(' ') {
                None => Err(send_missing_args()),
                Some(j) => Ok(
                    CommandView::Send { to: t.take(j), content: t.skip(j + 1) },
                ),
            },
        }
    } else if cmd == "peers"@ {
        Ok(CommandView::Peers)
    } else if cmd == "quit"@ || cmd == "exit"@ || cmd == "q"@ {
        Ok(CommandView::Quit)
    } else if cmd == "help"@ || cmd == "h"@ {
        Ok(CommandView::Help)
    } else {
        Err(CommandParseErrorView::UnknownCommand(cmd))
    }
}

/// The meaning of a line of input: the command it holds, or the first reason
/// it is not one.
pub open spec fn spec_parse_command(input: Seq<char>) -> Result<
    CommandView,
    CommandParseErrorView,
> {
    let t = spec_trim(input);
    if t.len() == 0 || t[0] != '/' {
        Err(CommandParseErrorView::NotACommand)
    } else {
        let rest = t.drop_first();
        match rest.index_of_first(' ') {
            Some(i) => spec_dispatch(rest.take(i), Some(rest.skip(i + 1))),
            None => spec_dispatch(rest, None),
        }
    }
}

/// Copies the characters between `a` and `b` out of `v`.
fn subvec(v: &Vec<char>, a: usize, b: usize) -> (r: Vec<char>)
    requires
        a <= b <= v@.len(),
    ensures
        r@ == v@.subrange(a as int, b as int),
{
    let mut r: Vec<char> = Vec::new();
    let mut i: usize = a;
    proof {
        assert(r@ =~= v@.subrange(a as int, a as int));
    }
    while i < b
        invariant
            a <= i <= b <= v@.len(),
            r@ == v@.subrange(a as int, i as int),
        decreases b - i,
    {
        r.push(v[i]);
        proof {
            assert(v@.subrange(a as int, i + 1) =~= v@.subrange(a as int, i as int).push(
                v@[i as int],
            ));
        }
        i = i + 1;
    }
    r
}

/// Decides whether a character is whitespace, for trimming.
fn trim_space_char(c: char) -> (r: bool)
    ensures
        r == is_space_char(c),
{
    let u = c as u32;
    u == 0x09 || u == 0x0A || u == 0x0B || u == 0x0C || u == 0x0D || u == 0x20 || u == 0x85 || u
        == 0xA0 || u == 0x1680 || (0x2000 <= u && u <= 0x200A) || u == 0x2028 || u == 0x2029 || u
        == 0x202F || u == 0x205F || u == 0x3000
}

/// Removes surrounding whitespace.
fn trim_chars(v: &Vec<char>) -> (r: Vec<char>)
    ensures
        r@ == spec_trim(v@),
{
    let n = v.len();
    let mut start: usize = 0;
    proof {
        assert(v@.skip(0) =~= v@);
    }
    while start < n && trim_space_char(v[start])
        invariant
            start <= n,
            n == v@.len(),
            spec_trim_start(v@) == spec_trim_start(v@.skip(start as int)),
        decreases n - start,
    {
        proof {
            assert(v@.skip(start as int)[0] == v@[start as int]);
            assert(v@.skip(start as int).drop_first() =~= v@.skip(start + 1));
        }
        start = start + 1;
    }
    proof {
        if start < n {
            assert(v@.skip(start as int)[0] == v@[start as int]);
        } else {
            assert(v@.skip(start as int).len() == 0);
        }
        assert(spec_trim_start(v@) == v@.skip(start as int));
    }
    let mut e: usize = n;
    proof {
        assert(v@.subrange(start as int, e as int) =~= v@.skip(start as int));
    }
    while e > start && trim_space_char(v[e - 1])
        invariant
            start <= e <= n,
            n == v@.len(),
            spec_trim_end(v@.skip(start as int)) == spec_trim_end(
                v@.subrange(start as int, e as int),
            ),
        decreases e,
    {
        proof {
            assert(v@.subrange(start as int, e as int).last() == v@[e - 1]);
            assert(v@.subrange(start as int, e as int).drop_last() =~= v@.subrange(
                start as int,
                e - 1,
            ));
        }
        e = e - 1;
    }
    proof {
        if e > start {
            assert(v@.subrange(start as int, e as int).last() == v@[e - 1]);
        } else {
            assert(v@.subrange(start as int, e as int).len() == 0);
        }
        assert(spec_trim_end(v@.skip(start as int)) == v@.subrange(start as int, e as int));
    }
    subvec(v, start, e)
}

/// Finds the first space in `v`.
fn find_space(v: &Vec<char>) -> (r: Option<usize>)
    ensures
        match r {
            Some(i) => i < v@.len() && v@[i as int] == ' ' && (forall|j: int|
                0 <= j < i ==> v@[j] != ' '),
            None => forall|j: int| 0 <= j < v@.len() ==> v@[j] != ' ',
        },
{
    let n = v.len();
    let mut i: usize = 0;
    while i < n
        invariant
            i <= n,
            n == v@.len(),
            forall|j: int| 0 <= j < i ==> v@[j] != ' ',
        decreases n - i,
    {
        if v[i] == ' ' {
            return Some(i);
        }
        i = i + 1;
    }
    None
}

proof fn lemma_find_space_agrees(s: Seq<char>, r: Option<usize>)
    requires
        match r {
            Some(i) => i < s.len() && s[i as int] == ' ' && (forall|j: int|
                0 <= j < i ==> s[j] != ' '),
            None => forall|j: int| 0 <= j < s.len() ==> s[j] != ' ',
        },
    ensures
        match r {
            Some(i) => s.index_of_first(' ') == Some(i as int),
            None => s.index_of_first(' ') is None,
        },
{
    s.index_of_first_ensures(' ');
    match r {
        Some(i) => {
            assert(s.contains(' '));
            let k = s.index_of_first(' ')->0;
            assert(s[k] == ' ');
            if k < i {
                assert(s[k] != ' ');
            }
            if i < k {
                assert(s[i as int] != ' ');
            }
        },
        None => {
            if s.contains(' ') {
                let w = choose|w: int| 0 <= w < s.len() && s[w] == ' ';
                assert(s[w] != ' ');
            }
        },
    }
}

fn dispatch(cmd: Vec<char>, tail: Option<Vec<char>>) -> (r: Result<Command, CommandParseError>)
    ensures
        ({
            let tailv = match tail {
                Some(t) => Some(t@),
                None => None,
            };
            match r {
                Ok(c) => spec_dispatch(cmd@, tailv) == Ok::<CommandView, CommandParseErrorView>(c@),
                Err(e) => spec_dispatch(cmd@, tailv) == Err::<CommandView, CommandParseErrorView>(e@),
            }
        }),
{
    let lit_send = str_chars("send");
    if crate::text::chars_eq(&cmd, &lit_send) {
        match tail {
            None => Err(
                CommandParseError::MissingArguments {
                    command: String::from_str("/send"),
                    usage: String::from_str("<nickname> <message>"),
                },
            ),
            Some(t) => {
                let sp = find_space(&t);
                proof {
                    lemma_find_space_agrees(t@, sp);
                }
                match sp {
                    None => Err(
                        CommandParseError::MissingArguments {
                            command: String::from_str("/send"),
                            usage: String::from_str("<nickname> <message>"),
                        },
                    ),
                    Some(j) => {
                        let tl = t.len();
                        let to_chars = subvec(&t, 0, j);
                        let content_chars = subvec(&t, j + 1, tl);
                        proof {
                            assert(t@.subrange(0, j as int) =~= t@.take(j as int));
                            assert(t@.subrange(j + 1, t@.len() as int) =~= t@.skip(j + 1));
                        }
                        Ok(
                            Command::Send {
                                to: chars_to_string(&to_chars),
                                content: chars_to_string(&content_chars),
                            },
                        )
                    },
                }
            },
        }
    } else {
        let lit_peers = str_chars("peers");
        if crate::text::chars_eq(&cmd, &lit_peers) {
            return Ok(Command::Peers);
        }
        let lit_quit = str_chars("quit");
        let lit_exit = str_chars("exit");
        let lit_q = str_chars("q");
        if crate::text::chars_eq(&cmd, &lit_quit) || crate::text::chars_eq(&cmd, &lit_exit)
            || crate::text::chars_eq(&cmd, &lit_q) {
            return Ok(Command::Quit);
        }
        let lit_help = str_chars("help");
        let lit_h = str_chars("h");
        if crate::text::chars_eq(&cmd, &lit_help) || crate::text::chars_eq(&cmd, &lit_h) {
            return Ok(Command::Help);
        }
        Err(CommandParseError::UnknownCommand(chars_to_string(&cmd)))
    }
}

/// The help text the console shows.
pub open spec fn spec_help_text() -> Seq<char> {
    "Available commands:\n  /send <nickname> <message>  Send a message to a peer\n  /peers                      List discovered peers\n  /quit                       Exit the application\n  /help                       Show this help"@
}

impl Command {
    /// Parses a command from user input.
    pub fn parse(input: &str) -> (r: Result<Command, CommandParseError>)
        ensures
            match r {
                Ok(c) => spec_parse_command(input@) == Ok::<CommandView, CommandParseErrorView>(c@),
                Err(e) => spec_parse_command(input@) == Err::<CommandView, CommandParseErrorView>(e@),
            },
    {
        let v0 = str_chars(input);
        let t = trim_chars(&v0);
        let n = t.len();
        if n == 0 {
            return Err(CommandParseError::NotACommand);
        }
        if t[0] != '/' {
            return Err(CommandParseError::NotACommand);
        }
        let rest = subvec(&t, 1, n);
        proof {
            assert(rest@ =~= t@.drop_first());
        }
        let sp = find_space(&rest);
        proof {
            lemma_find_space_agrees(rest@, sp);
        }
        match sp {
            Some(i) => {
                let cmd = subvec(&rest, 0, i);
                let tail = subvec(&rest, i + 1, rest.len());
                proof {
                    assert(rest@.subrange(0, i as int) =~= rest@.take(i as int));
                    assert(rest@.subrange(i + 1, rest@.len() as int) =~= rest@.skip(i + 1));
                }
                dispatch(cmd, Some(tail))
            },
            None => dispatch(rest, None),
        }
    }

    /// The help text listing the available commands.
    pub fn help_text() -> (r: &'static str)
        ensures
            r@ == spec_help_text(),
    {
        "Available commands:\n  /send <nickname> <message>  Send a message to a peer\n  /peers                      List discovered peers\n  /quit                       Exit the application\n  /help                       Show this help"
    }
}


/// The human-readable rendering of a parse error.
pub open spec fn spec_parse_error_message(e: CommandParseErrorView) -> Seq<char> {
    match e {
        CommandParseErrorView::UnknownCommand(cmd) => "Unknown command: "@ + cmd,
        CommandParseErrorView::MissingArguments { command, usage } => "Usage: "@ + command + " "@
            + usage,
        CommandParseErrorView::NotACommand => "Commands must start with /"@,
    }
}

impl CommandParseError {
    /// Renders the error as a human-readable message.
    pub fn message(&self) -> (r: String)
        ensures
            r@ == spec_parse_error_message(self@),
    {
        match self {
            CommandParseError::UnknownCommand(cmd) => {
                let mut m = String::from_str("Unknown command: ");
                m.append(cmd.as_str());
                m
            },
            CommandParseError::MissingArguments { command, usage } => {
                let mut m = String::from_str("Usage: ");
                m.append(command.as_str());
                m.append(" ");
                m.append(usage.as_str());
                m
            },
            CommandParseError::NotACommand => String::from_str("Commands must start with /"),
        }
    }
}

} // verus!
