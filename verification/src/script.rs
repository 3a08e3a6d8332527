//! Which control command a name selects, and how a script of commands is
//! cut into commands and words.

use crate::commands::args_view;
use crate::text::{
    is_ws, lemma_split_on_absent, lemma_split_on_first, lemma_trim_fixed,
    decimal, push_decimal, push_str, split_chars, split_on, str_chars, str_eq, string_from_chars, trim, trim_chars,
};
use vstd::prelude::*;

verus! {

/// A control command.
#[derive(Clone, Copy, Debug, PartialEq, Eq, Structural)]
pub enum Command {
    Load,
    Unload,
    Server,
    Client,
    ClientAdd,
    ClientDel,
    ServerAdd,
    ServerDel,
    Status,
    Dump,
    /// Accepted and reported as obsolete.
    Reaper,
    Version,
    /// Runs a script (only from the command line).
    Script,
    /// The text interface (only from the command line; not provided).
    Tui,
    /// A name that selects no command.
    Unknown,
}

/// The command that `name` selects; `script` and `tui` only do so on the
/// command line, not inside a script.
pub open spec fn spec_command_named(name: Seq<char>, command_line: bool) -> Command {
    if name == "load"@ {
        Command::Load
    } else if name == "unload"@ {
        Command::Unload
    } else if name == "server"@ {
        Command::Server
    } else if name == "client"@ {
        Command::Client
    } else if name == "client-add"@ {
        Command::ClientAdd
    } else if name == "client-del"@ {
        Command::ClientDel
    } else if name == "server-add"@ {
        Command::ServerAdd
    } else if name == "server-del"@ {
        Command::ServerDel
    } else if name == "status"@ {
        Command::Status
    } else if name == "dump"@ {
        Command::Dump
    } else if name == "reaper"@ {
        Command::Reaper
    } else if name == "version"@ {
        Command::Version
    } else if command_line && name == "script"@ {
        Command::Script
    } else if command_line && name == "tui"@ {
        Command::Tui
    } else {
        Command::Unknown
    }
}

/// The command names: each of `load`, `unload`, `server`, `client`,
/// `client-add`, `client-del`, `server-add`, `server-del`, `status`,
/// `dump`, `reaper` and `version` selects the command of that name, on the
/// command line and in a script alike; `script` and `tui` select their
/// commands on the command line only; every other word selects nothing.
pub proof fn lemma_command_names(command_line: bool)
    ensures
        spec_command_named("load"@, command_line) == Command::Load,
        spec_command_named("unload"@, command_line) == Command::Unload,
        spec_command_named("server"@, command_line) == Command::Server,
        spec_command_named("client"@, command_line) == Command::Client,
        spec_command_named("client-add"@, command_line) == Command::ClientAdd,
        spec_command_named("client-del"@, command_line) == Command::ClientDel,
        spec_command_named("server-add"@, command_line) == Command::ServerAdd,
        spec_command_named("server-del"@, command_line) == Command::ServerDel,
        spec_command_named("status"@, command_line) == Command::Status,
        spec_command_named("dump"@, command_line) == Command::Dump,
        spec_command_named("reaper"@, command_line) == Command::Reaper,
        spec_command_named("version"@, command_line) == Command::Version,
        spec_command_named("script"@, true) == Command::Script,
        spec_command_named("tui"@, true) == Command::Tui,
        spec_command_named("script"@, false) == Command::Unknown,
        spec_command_named("tui"@, false) == Command::Unknown,
        forall|name: Seq<char>|
            name != "load"@ && name != "unload"@ && name != "server"@ && name != "client"@ && name != "client-add"@ && name != "client-del"@ && name != "server-add"@ && name != "server-del"@ && name != "status"@ && name != "dump"@ && name != "reaper"@ && name != "version"@ && name != "script"@ && name != "tui"@ ==> spec_command_named(name, command_line) == Command::Unknown,
{
    reveal_strlit("load");
    reveal_strlit("unload");
    reveal_strlit("server");
    reveal_strlit("client");
    reveal_strlit("client-add");
    reveal_strlit("client-del");
    reveal_strlit("server-add");
    reveal_strlit("server-del");
    reveal_strlit("status");
    reveal_strlit("dump");
    reveal_strlit("reaper");
    reveal_strlit("version");
    reveal_strlit("script");
    reveal_strlit("tui");
    assert("unload"@.len() != "load"@.len());
    assert("server"@.len() != "load"@.len());
    assert("server"@[0] != "unload"@[0]);
    assert("client"@.len() != "load"@.len());
    assert("client"@[0] != "unload"@[0]);
    assert("client"@[0] != "server"@[0]);
    assert("client-add"@.len() != "load"@.len());
    assert("client-add"@.len() != "unload"@.len());
    assert("client-add"@.len() != "server"@.len());
    assert("client-add"@.len() != "client"@.len());
    assert("client-del"@.len() != "load"@.len());
    assert("client-del"@.len() != "unload"@.len());
    assert("client-del"@.len() != "server"@.len());
    assert("client-del"@.len() != "client"@.len());
    assert("client-del"@[7] != "client-add"@[7]);
    assert("server-add"@.len() != "load"@.len());
    assert("server-add"@.len() != "unload"@.len());
    assert("server-add"@.len() != "server"@.len());
    assert("server-add"@.len() != "client"@.len());
    assert("server-add"@[0] != "client-add"@[0]);
    assert("server-add"@[0] != "client-del"@[0]);
    assert("server-del"@.len() != "load"@.len());
    assert("server-del"@.len() != "unload"@.len());
    assert("server-del"@.len() != "server"@.len());
    assert("server-del"@.len() != "client"@.len());
    assert("server-del"@[0] != "client-add"@[0]);
    assert("server-del"@[0] != "client-del"@[0]);
    assert("server-del"@[7] != "server-add"@[7]);
    assert("status"@.len() != "load"@.len());
    assert("status"@[0] != "unload"@[0]);
    assert("status"@[1] != "server"@[1]);
    assert("status"@[0] != "client"@[0]);
    assert("status"@.len() != "client-add"@.len());
    assert("status"@.len() != "client-del"@.len());
    assert("status"@.len() != "server-add"@.len());
    assert("status"@.len() != "server-del"@.len());
    assert("dump"@[0] != "load"@[0]);
    assert("dump"@.len() != "unload"@.len());
    assert("dump"@.len() != "server"@.len());
    assert("dump"@.len() != "client"@.len());
    assert("dump"@.len() != "client-add"@.len());
    assert("dump"@.len() != "client-del"@.len());
    assert("dump"@.len() != "server-add"@.len());
    assert("dump"@.len() != "server-del"@.len());
    assert("dump"@.len() != "status"@.len());
    assert("reaper"@.len() != "load"@.len());
    assert("reaper"@[0] != "unload"@[0]);
    assert("reaper"@[0] != "server"@[0]);
    assert("reaper"@[0] != "client"@[0]);
    assert("reaper"@.len() != "client-add"@.len());
    assert("reaper"@.len() != "client-del"@.len());
    assert("reaper"@.len() != "server-add"@.len());
    assert("reaper"@.len() != "server-del"@.len());
    assert("reaper"@[0] != "status"@[0]);
    assert("reaper"@.len() != "dump"@.len());
    assert("version"@.len() != "load"@.len());
    assert("version"@.len() != "unload"@.len());
    assert("version"@.len() != "server"@.len());
    assert("version"@.len() != "client"@.len());
    assert("version"@.len() != "client-add"@.len());
    assert("version"@.len() != "client-del"@.len());
    assert("version"@.len() != "server-add"@.len());
    assert("version"@.len() != "server-del"@.len());
    assert("version"@.len() != "status"@.len());
    assert("version"@.len() != "dump"@.len());
    assert("version"@.len() != "reaper"@.len());
    assert("script"@.len() != "load"@.len());
    assert("script"@[0] != "unload"@[0]);
    assert("script"@[1] != "server"@[1]);
    assert("script"@[0] != "client"@[0]);
    assert("script"@.len() != "client-add"@.len());
    assert("script"@.len() != "client-del"@.len());
    assert("script"@.len() != "server-add"@.len());
    assert("script"@.len() != "server-del"@.len());
    assert("script"@[1] != "status"@[1]);
    assert("script"@.len() != "dump"@.len());
    assert("script"@[0] != "reaper"@[0]);
    assert("script"@.len() != "version"@.len());
    assert("tui"@.len() != "load"@.len());
    assert("tui"@.len() != "unload"@.len());
    assert("tui"@.len() != "server"@.len());
    assert("tui"@.len() != "client"@.len());
    assert("tui"@.len() != "client-add"@.len());
    assert("tui"@.len() != "client-del"@.len());
    assert("tui"@.len() != "server-add"@.len());
    assert("tui"@.len() != "server-del"@.len());
    assert("tui"@.len() != "status"@.len());
    assert("tui"@.len() != "dump"@.len());
    assert("tui"@.len() != "reaper"@.len());
    assert("tui"@.len() != "version"@.len());
    assert("tui"@.len() != "script"@.len());
}

/// The command that `name` selects.
pub fn command_named(name: &str, command_line: bool) -> (c: Command)
    ensures
        c == spec_command_named(name@, command_line),
{
    if str_eq(name, "load") {
        Command::Load
    } else if str_eq(name, "unload") {
        Command::Unload
    } else if str_eq(name, "server") {
        Command::Server
    } else if str_eq(name, "client") {
        Command::Client
    } else if str_eq(name, "client-add") {
        Command::ClientAdd
    } else if str_eq(name, "client-del") {
        Command::ClientDel
    } else if str_eq(name, "server-add") {
        Command::ServerAdd
    } else if str_eq(name, "server-del") {
        Command::ServerDel
    } else if str_eq(name, "status") {
        Command::Status
    } else if str_eq(name, "dump") {
        Command::Dump
    } else if str_eq(name, "reaper") {
        Command::Reaper
    } else if str_eq(name, "version") {
        Command::Version
    } else if command_line && str_eq(name, "script") {
        Command::Script
    } else if command_line && str_eq(name, "tui") {
        Command::Tui
    } else {
        Command::Unknown
    }
}

/// The command and arguments that the words after the program's options
/// select: `status` when there are none.
pub open spec fn spec_invocation(words: Seq<Seq<char>>) -> (Command, Seq<Seq<char>>) {
    if words.len() == 0 {
        (Command::Status, seq![])
    } else {
        (spec_command_named(words[0], true), words.drop_first())
    }
}

/// All words but the first.
fn after_first(words: &[String]) -> (r: Vec<String>)
    requires
        words@.len() >= 1,
    ensures
        args_view(r@) == args_view(words@).drop_first(),
{
    let ghost a = args_view(words@);
    let mut rest: Vec<String> = Vec::new();
    let mut i: usize = 1;
    while i < words.len()
        invariant
            a == args_view(words@),
            1 <= i <= words@.len(),
            args_view(rest@) == a.subrange(1, i as int),
        decreases words@.len() - i,
    {
        assert(a[i as int] == words@[i as int]@);
        let ghost before = rest@;
        rest.push(words[i].clone());
        assert(args_view(rest@) =~= args_view(before).push(a[i as int]));
        assert(args_view(rest@) =~= a.subrange(1, i + 1));
        i = i + 1;
    }
    assert(a.subrange(1, a.len() as int) =~= a.drop_first());
    rest
}

/// The command and arguments that the words after the program's options
/// select.
pub fn invocation(words: &[String]) -> (r: (Command, Vec<String>))
    ensures
        r.0 == spec_invocation(args_view(words@)).0,
        args_view(r.1@) == spec_invocation(args_view(words@)).1,
{
    if words.len() == 0 {
        let v: Vec<String> = Vec::new();
        assert(args_view(v@) =~= seq![]);
        return (Command::Status, v);
    }
    assert(args_view(words@)[0] == words@[0]@);
    let c = command_named(words[0].as_str(), true);
    (c, after_first(words))
}

/// The commands on one line of a script: nothing on an empty line or a
/// comment (`#` after leading white space); otherwise the `;`-separated
/// pieces of the line, each without surrounding white space (possibly
/// empty).
pub open spec fn line_commands(line: Seq<char>) -> Seq<Seq<char>> {
    let t = trim(line);
    if t.len() == 0 || t[0] == '#' {
        seq![]
    } else {
        split_on(t, ';').map_values(|p: Seq<char>| trim(p))
    }
}

/// How a script line is cut: two commands joined by `;` (each without
/// white space at its ends, without `;` in it, the first not empty and not
/// beginning with `#`) are those two commands, in order; a line whose first
/// character that is not white space is `#` holds no command.
pub proof fn lemma_line_commands(a: Seq<char>, b: Seq<char>, c: Seq<char>)
    requires
        a.len() > 0 && !is_ws(a[0]) && !is_ws(a.last()) && a[0] != '#',
        b.len() == 0 || (!is_ws(b[0]) && !is_ws(b.last())),
        forall|i: int| 0 <= i < a.len() ==> a[i] != ';',
        forall|i: int| 0 <= i < b.len() ==> b[i] != ';',
    ensures
        line_commands(a + seq![';'] + b) == seq![a, b],
        trim(c).len() > 0 && trim(c)[0] == '#' ==> line_commands(c) == Seq::<Seq<char>>::empty(),
{
    let line = a + seq![';'] + b;
    assert(line[0] == a[0]);
    assert(!is_ws(line.last())) by {
        if b.len() > 0 {
            assert(line.last() == b.last());
        } else {
            assert(line.last() == ';');
        }
    }
    lemma_trim_fixed(line);
    lemma_trim_fixed(a);
    lemma_trim_fixed(b);
    lemma_split_on_first(a, ';', b);
    lemma_split_on_absent(b, ';');
    assert(seq![a] + seq![b] =~= seq![a, b]);
    assert(seq![a, b].map_values(|p: Seq<char>| trim(p)) =~= seq![a, b]);
}

/// The commands on one line of a script.
pub fn script_line_commands(line: &str) -> (r: Vec<String>)
    ensures
        args_view(r@) == line_commands(line@),
{
    let chars = str_chars(line);
    let t = trim_chars(chars.as_slice());
    let mut r: Vec<String> = Vec::new();
    if t.len() == 0 || t[0] == '#' {
        assert(args_view(r@) =~= line_commands(line@));
        return r;
    }
    let pieces = split_chars(t.as_slice(), ';');
    let ghost ps = split_on(t@, ';');
    assert(pieces@.map_values(|p: Vec<char>| p@) == ps);
    let mut i: usize = 0;
    while i < pieces.len()
        invariant
            ps == split_on(trim(line@), ';'),
            pieces@.map_values(|p: Vec<char>| p@) == ps,
            i <= pieces@.len(),
            args_view(r@) == ps.take(i as int).map_values(|p: Seq<char>| trim(p)),
        decreases pieces@.len() - i,
    {
        assert(pieces@.map_values(|p: Vec<char>| p@)[i as int] == pieces@[i as int]@);
        let p = trim_chars(pieces[i].as_slice());
        let s = string_from_chars(p.as_slice());
        let ghost before = r@;
        r.push(s);
        assert(ps.take(i + 1) =~= ps.take(i as int).push(ps[i as int]));
        assert(args_view(r@) =~= args_view(before).push(trim(ps[i as int])));
        assert(args_view(r@) =~= ps.take(i + 1).map_values(|p: Seq<char>| trim(p)));
        i = i + 1;
    }
    assert(ps.take(pieces@.len() as int) =~= ps);
    r
}

/// How a shell splits `line` into words (quotes and backslashes as a
/// POSIX shell reads them), or `None` where the line is not well formed
/// (an unclosed quote, a trailing backslash).
pub uninterp spec fn shell_words(line: Seq<char>) -> Option<Seq<Seq<char>>>;

/// `shlex::split`: the words of `line` as a shell splits them, or `None`
/// where the line is not well formed. What the words are is named, not
/// stated.
#[verifier::external_body]
fn shlex_split(line: &str) -> (r: Option<Vec<String>>)
    ensures
        match r {
            Some(w) => shell_words(line@) == Some(args_view(w@)),
            None => shell_words(line@) is None,
        },
{
    shlex::split(line)
}

/// The command that the words of one script command select, with the
/// word that names it and its arguments; nothing for no words.
pub open spec fn spec_words_command(words: Seq<Seq<char>>) -> Option<(Command, Seq<char>, Seq<Seq<char>>)> {
    if words.len() == 0 {
        None
    } else {
        Some((spec_command_named(words[0], false), words[0], words.drop_first()))
    }
}

/// The command that the words of one script command select, with the
/// word that names it and its arguments.
pub fn words_command(words: Vec<String>) -> (r: Option<(Command, String, Vec<String>)>)
    ensures
        match spec_words_command(args_view(words@)) {
            Some((c, name, rest)) => r matches Some((d, n, v)) && d == c && n@ == name && args_view(v@)
                == rest,
            None => r is None,
        },
{
    if words.len() == 0 {
        return None;
    }
    assert(args_view(words@)[0] == words@[0]@);
    let c = command_named(words[0].as_str(), false);
    let name = words[0].clone();
    Some((c, name, after_first(words.as_slice())))
}

/// Why a script command could not be read.
#[derive(Clone, Copy, Debug, PartialEq, Eq, Structural)]
pub enum ScriptError {
    /// The command is not well formed (an unclosed quote, a trailing
    /// backslash).
    Parse,
}

/// Reads one command of a script: `Err` where it is not well formed,
/// nothing where it has no words; otherwise the command, the word that
/// names it and its arguments.
pub fn script_command(sub: &str) -> (r: Result<Option<(Command, String, Vec<String>)>, ScriptError>)
    ensures
        match shell_words(sub@) {
            None => r == Err::<Option<(Command, String, Vec<String>)>, ScriptError>(ScriptError::Parse),
            Some(words) => match spec_words_command(words) {
                Some((c, name, rest)) => r matches Ok(Some((d, n, v))) && d == c && n@ == name && args_view(v@)
                    == rest,
                None => r matches Ok(None),
            },
        },
{
    match shlex_split(sub) {
        None => Err(ScriptError::Parse),
        Some(words) => Ok(words_command(words)),
    }
}

/// What a script does with one of its commands.
#[derive(Debug)]
pub enum ScriptStep {
    /// Nothing: the command is empty or has no words.
    Skip,
    /// The command is unknown: the message is reported and the script
    /// goes on.
    Report(String),
    /// The command is run: the command, the word that names it and its
    /// arguments.
    Run(Command, String, Vec<String>),
}

/// The message for the unknown command `name`, command `cmd_no` of line
/// `line_no` (both counted from 1).
pub open spec fn unknown_command_text(line_no: nat, cmd_no: nat, name: Seq<char>) -> Seq<char> {
    "Line "@ + decimal(line_no) + " (cmd "@ + decimal(cmd_no) + "): Unknown command '"@ + name + "'"@
}

/// The message for the unknown command `name`, command `cmd_no` of line
/// `line_no`.
pub fn unknown_command_message(line_no: u64, cmd_no: u64, name: &str) -> (s: String)
    ensures
        s@ == unknown_command_text(line_no as nat, cmd_no as nat, name@),
{
    let mut s = String::new();
    push_str(&mut s, "Line ");
    push_decimal(&mut s, line_no);
    push_str(&mut s, " (cmd ");
    push_decimal(&mut s, cmd_no);
    push_str(&mut s, "): Unknown command '");
    push_str(&mut s, name);
    push_str(&mut s, "'");
    assert(s@ =~= unknown_command_text(line_no as nat, cmd_no as nat, name@));
    s
}

/// Decides what to do with `sub`, command `cmd_no` of line `line_no` of a
/// script: an empty command or one without words is skipped, one that is
/// not well formed stops the script, an unknown one is reported, and any
/// other is run.
pub fn script_step(sub: &str, line_no: u64, cmd_no: u64) -> (r: Result<ScriptStep, ScriptError>)
    ensures
        sub@.len() == 0 ==> (r matches Ok(ScriptStep::Skip)),
        sub@.len() > 0 ==> match shell_words(sub@) {
            None => r == Err::<ScriptStep, ScriptError>(ScriptError::Parse),
            Some(words) => match spec_words_command(words) {
                None => r matches Ok(ScriptStep::Skip),
                Some((c, name, rest)) => if c == Command::Unknown {
                    r matches Ok(ScriptStep::Report(m)) && m@ == unknown_command_text(
                        line_no as nat,
                        cmd_no as nat,
                        name,
                    )
                } else {
                    r matches Ok(ScriptStep::Run(d, n, v)) && d == c && n@ == name && args_view(v@) == rest
                },
            },
        },
{
    if sub.unicode_len() == 0 {
        return Ok(ScriptStep::Skip);
    }
    match script_command(sub) {
        Err(e) => Err(e),
        Ok(None) => Ok(ScriptStep::Skip),
        Ok(Some((c, name, args))) => {
            if c == Command::Unknown {
                Ok(ScriptStep::Report(unknown_command_message(line_no, cmd_no, name.as_str())))
            } else {
                Ok(ScriptStep::Run(c, name, args))
            }
        },
    }
}

/// The message with which a script stops when command `cmd_no` of line
/// `line_no`, named `name`, fails with `err`.
pub open spec fn script_failure_text(line_no: nat, cmd_no: nat, name: Seq<char>, err: Seq<char>) -> Seq<char> {
    "line "@ + decimal(line_no) + " (cmd "@ + decimal(cmd_no) + ") ["@ + name + "]: "@ + err
}

/// The message with which a script stops when command `cmd_no` of line
/// `line_no`, named `name`, fails with `err`.
pub fn script_failure_message(line_no: u64, cmd_no: u64, name: &str, err: &str) -> (s: String)
    ensures
        s@ == script_failure_text(line_no as nat, cmd_no as nat, name@, err@),
{
    let mut s = String::new();
    push_str(&mut s, "line ");
    push_decimal(&mut s, line_no);
    push_str(&mut s, " (cmd ");
    push_decimal(&mut s, cmd_no);
    push_str(&mut s, ") [");
    push_str(&mut s, name);
    push_str(&mut s, "]: ");
    push_str(&mut s, err);
    assert(s@ =~= script_failure_text(line_no as nat, cmd_no as nat, name@, err@));
    s
}

} // verus!
