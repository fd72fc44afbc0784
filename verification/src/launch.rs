//! Deciding the command line that starts a chosen application: directly, or
//! wrapped in a terminal emulator.

use crate::application::{ApplicationBody, BodyView};
use vstd::prelude::*;
use vstd::string::StringExecFns;

verus! {

/// The terminal emulator to use: the one asked for explicitly, else the one
/// the environment names, else `xterm`.
pub open spec fn terminal_choice(
    explicit: Option<Seq<char>>,
    environment: Option<Seq<char>>,
) -> Seq<char> {
    match explicit {
        Some(terminal) => terminal,
        None => match environment {
            Some(terminal) => terminal,
            None => "xterm"@,
        },
    }
}

/// The command line that starts an application: its own command, or, where it
/// needs a terminal, the terminal emulator asked to execute (`-e`) that
/// command.
pub open spec fn launch_argv(body: BodyView, terminal: Seq<char>) -> Seq<Seq<char>> {
    if body.term {
        seq![terminal, "-e"@] + body.command
    } else {
        body.command
    }
}

/// The pieces written one after the other with `separator` between each two.
pub open spec fn joined(pieces: Seq<Seq<char>>, separator: Seq<char>) -> Seq<char>
    decreases pieces.len(),
{
    if pieces.len() == 0 {
        Seq::empty()
    } else if pieces.len() == 1 {
        pieces[0]
    } else {
        joined(pieces.drop_last(), separator) + separator + pieces.last()
    }
}

/// A terminal emulator and how it was arrived at.
#[derive(Debug, PartialEq, Eq)]
pub struct Terminal {
    /// The program to run.
    pub program: String,
    /// Whether the program is the fallback, assumed because neither the caller
    /// nor the environment named one.
    pub assumed: bool,
}

/// A command line to spawn.
#[derive(Debug, PartialEq, Eq)]
pub struct Launch {
    /// The program followed by its arguments.
    pub argv: Vec<String>,
    /// Whether the terminal emulator in `argv` is the assumed fallback, which
    /// deserves a warning.
    pub assumed_terminal: bool,
}

/// Picks the terminal emulator: `explicit` if given, else `environment` if
/// given, else the fallback `xterm`.
pub fn resolve_terminal(explicit: Option<&str>, environment: Option<&str>) -> (terminal: Terminal)
    ensures
        terminal.program@ == terminal_choice(explicit.deep_view(), environment.deep_view()),
        terminal.assumed == (explicit is None && environment is None),
{
    match explicit {
        Some(program) => Terminal { program: program.to_owned(), assumed: false },
        None => match environment {
            Some(program) => Terminal { program: program.to_owned(), assumed: false },
            None => Terminal { program: "xterm".to_owned(), assumed: true },
        },
    }
}

/// Decides how to start an application.  One that needs no terminal is
/// started by its own command, which must name a program.  One that needs a
/// terminal is started as `<terminal> -e <command...>`, with the terminal that
/// [`resolve_terminal`] picks.
pub fn dispatch(
    body: &ApplicationBody,
    terminal_override: Option<&str>,
    terminal_environment: Option<&str>,
) -> (launch: Launch)
    requires
        body.term || body.command.len() > 0,
    ensures
        launch.argv.deep_view() == launch_argv(
            body@,
            terminal_choice(terminal_override.deep_view(), terminal_environment.deep_view()),
        ),
        launch.argv.len() > 0,
        launch.assumed_terminal == (body.term && terminal_override is None
            && terminal_environment is None),
{
    let mut argv: Vec<String> = Vec::new();
    let mut assumed_terminal = false;
    if body.term {
        let terminal = resolve_terminal(terminal_override, terminal_environment);
        assumed_terminal = terminal.assumed;
        argv.push(terminal.program);
        argv.push("-e".to_owned());
    }
    let ghost prefix = argv.deep_view();
    assert(prefix =~= if body.term {
        seq![
            terminal_choice(terminal_override.deep_view(), terminal_environment.deep_view()),
            "-e"@,
        ]
    } else {
        Seq::empty()
    });
    let mut i: usize = 0;
    while i < body.command.len()
        invariant
            i <= body.command.len(),
            argv.deep_view() == prefix + body.command.deep_view().take(i as int),
        decreases body.command.len() - i,
    {
        let ghost before = argv.deep_view();
        let token = body.command[i].clone();
        argv.push(token);
        proof {
            assert(argv.deep_view() =~= before.push(token@));
            assert(body.command.deep_view().take(i + 1) =~= body.command.deep_view().take(
                i as int,
            ).push(token@));
        }
        i += 1;
    }
    proof {
        assert(Seq::<Seq<char>>::empty() + body.command.deep_view()
            =~= body.command.deep_view());
    }
    Launch { argv, assumed_terminal }
}

/// Writes a command line as one text, its words separated by single spaces,
/// as diagnostics show it.
pub fn command_line(argv: &Vec<String>) -> (line: String)
    ensures
        line@ == joined(argv.deep_view(), " "@),
{
    let mut line = String::new();
    let mut i: usize = 0;
    while i < argv.len()
        invariant
            i <= argv.len(),
            line@ == joined(argv.deep_view().take(i as int), " "@),
        decreases argv.len() - i,
    {
        proof {
            let all = argv.deep_view();
            assert(all.take(i + 1).drop_last() =~= all.take(i as int));
        }
        if i > 0 {
            line.append(" ");
        }
        line.append(argv[i].as_str());
        i += 1;
    }
    proof {
        assert(argv.deep_view().take(i as int) =~= argv.deep_view());
    }
    line
}

} // verus!
