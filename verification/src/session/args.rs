//! The command line.

use crate::text::{concat5, copied, same, views};
use vstd::prelude::*;

verus! {

/// The help text.
pub const USAGE: &'static str = "Usage: tessera-comp [--backend auto|winit|udev] [--spawn <command>]...

  --backend <name>    How to show the screen:
                        auto   a window if a desktop session is running, else the hardware (default)
                        winit  a window inside the current desktop
                        udev   the hardware directly, from a TTY: Tessera is the session
  --nested            The same as --backend winit
  --spawn <command>   Run a shell command connected to this compositor once it starts (repeatable)
  -h, --help          Show this help

Logging is controlled with RUST_LOG, e.g. RUST_LOG=debug. When Tessera is the
session and nothing is attached to the terminal, the log goes to
$XDG_STATE_HOME/tessera/tessera.log.";

/// Overrides the refusal to take the screen from a running desktop session.
pub const FORCE_UDEV_ENV: &'static str = "TESSERA_FORCE_UDEV";

/// How the session talks to the screen.
#[derive(Debug, Clone, Copy, PartialEq, Eq, Structural)]
pub enum Backend {
    /// A window inside another desktop.
    Winit,
    /// Real hardware.
    Udev,
}

/// What the command line asks for.
#[derive(Debug, PartialEq, Eq)]
pub enum Invocation {
    /// To show the help text.
    Help,
    /// To start a session.
    Run {
        backend: Backend,
        /// Commands to run once it has started.
        spawn: Vec<String>,
    },
}

/// What the arguments ask for, before it is settled which backend to use.
pub enum Asked {
    Help,
    Run { wanted: Option<Backend>, spawn: Seq<Seq<char>> },
    Wrong(Seq<char>),
}

/// The backend that a name stands for, or nothing for one that is not known.
pub open spec fn backend_named(name: Seq<char>) -> Option<Option<Backend>> {
    if name == "auto"@ {
        Some(None)
    } else if name == "winit"@ || name == "nested"@ {
        Some(Some(Backend::Winit))
    } else if name == "udev"@ || name == "tty"@ {
        Some(Some(Backend::Udev))
    } else {
        None
    }
}

/// What the arguments `args[from..]` ask for, after those before them.
pub open spec fn asked(
    args: Seq<Seq<char>>,
    from: int,
    wanted: Option<Backend>,
    spawn: Seq<Seq<char>>,
) -> Asked
    decreases args.len() - from,
{
    if from < 0 || from >= args.len() {
        Asked::Run { wanted, spawn }
    } else if args[from] == "--nested"@ {
        asked(args, from + 1, Some(Backend::Winit), spawn)
    } else if args[from] == "--backend"@ {
        if from + 1 >= args.len() {
            Asked::Wrong("--backend needs a name"@)
        } else {
            match backend_named(args[from + 1]) {
                Some(backend) => asked(args, from + 2, backend, spawn),
                None => Asked::Wrong(
                    "unknown backend `"@ + args[from + 1] + "`\n\n"@ + USAGE@ + ""@,
                ),
            }
        }
    } else if args[from] == "--spawn"@ {
        if from + 1 >= args.len() {
            Asked::Wrong("--spawn needs a command"@)
        } else {
            asked(args, from + 2, wanted, spawn.push(args[from + 1]))
        }
    } else if args[from] == "-h"@ || args[from] == "--help"@ {
        Asked::Help
    } else {
        Asked::Wrong("unknown argument `"@ + args[from] + "`\n\n"@ + USAGE@ + ""@)
    }
}

/// The backend to use: the one that was asked for, else a window inside a desktop session, and
/// the hardware on a bare terminal.
pub open spec fn settled(wanted: Option<Backend>, on_tty: bool) -> Backend {
    match wanted {
        Some(backend) => backend,
        None => if on_tty {
            Backend::Udev
        } else {
            Backend::Winit
        },
    }
}

/// The message for a window without a desktop session to open it in.
pub open spec fn no_desktop() -> Seq<char> {
    "no desktop session to open a window in. From a TTY, run without --nested to use the hardware directly."@
}

/// The message for taking the screen from a running desktop session.
pub open spec fn screen_taken() -> Seq<char> {
    "refusing to take the screen while a desktop session is running: it would fight the session for the display and could leave you with a black screen.\n\nSwitch to a TTY (Ctrl+Alt+F3), log in there, and run it again. Set TESSERA_FORCE_UDEV=1 to override."@
}

/// Why a backend cannot be used here, if it cannot. Two sessions cannot both drive the screen, so
/// taking it from a running one has to be asked for twice.
pub open spec fn refused(backend: Backend, on_tty: bool, forced: bool) -> Option<Seq<char>> {
    if backend == Backend::Winit && on_tty {
        Some(no_desktop())
    } else if backend == Backend::Udev && !on_tty && !forced {
        Some(screen_taken())
    } else {
        None
    }
}

/// Reads the command line, without the program's own name.
pub fn parse_args(args: &Vec<String>, on_tty: bool, forced: bool) -> (r: Result<
    Invocation,
    String,
>)
    ensures
        match asked(views(args@), 0, None, Seq::empty()) {
            Asked::Help => r == Ok::<Invocation, String>(Invocation::Help),
            Asked::Wrong(message) => r matches Err(why) && why@ == message,
            Asked::Run { wanted, spawn } => match refused(
                settled(wanted, on_tty),
                on_tty,
                forced,
            ) {
                Some(message) => r matches Err(why) && why@ == message,
                None => r matches Ok(Invocation::Run { backend, spawn: commands }) && backend
                    == settled(wanted, on_tty) && views(commands@) == spawn,
            },
        },
{
    let ghost all = views(args@);
    let mut wanted: Option<Backend> = None;
    let mut spawn: Vec<String> = Vec::new();
    let mut i: usize = 0;
    assert(views(spawn@) =~= Seq::empty());
    while i < args.len()
        invariant
            i <= args@.len(),
            all == views(args@),
            asked(all, 0, None, Seq::empty()) == asked(all, i as int, wanted, views(spawn@)),
        decreases args@.len() - i,
    {
        let arg = args[i].as_str();
        assert(all[i as int] == arg@);
        if same(arg, "--nested") {
            proof {
                assert(arg@ == "--nested"@);
            }
            wanted = Some(Backend::Winit);
            i = i + 1;
        } else if same(arg, "--backend") {
            if i + 1 >= args.len() {
                return Err(copied("--backend needs a name"));
            }
            let name = args[i + 1].as_str();
            assert(all[i + 1] == name@);
            if same(name, "auto") {
                wanted = None;
            } else if same(name, "winit") || same(name, "nested") {
                wanted = Some(Backend::Winit);
            } else if same(name, "udev") || same(name, "tty") {
                wanted = Some(Backend::Udev);
            } else {
                return Err(concat5("unknown backend `", name, "`\n\n", USAGE, ""));
            }
            i = i + 2;
        } else if same(arg, "--spawn") {
            if i + 1 >= args.len() {
                return Err(copied("--spawn needs a command"));
            }
            let command = copied(args[i + 1].as_str());
            assert(all[i + 1] == command@);
            let ghost before = spawn@;
            let ghost text = command@;
            spawn.push(command);
            assert(views(spawn@) =~= views(before).push(text));
            i = i + 2;
        } else if same(arg, "-h") || same(arg, "--help") {
            return Ok(Invocation::Help);
        } else {
            return Err(concat5("unknown argument `", arg, "`\n\n", USAGE, ""));
        }
    }
    let backend = match wanted {
        Some(backend) => backend,
        None => if on_tty {
            Backend::Udev
        } else {
            Backend::Winit
        },
    };
    if backend == Backend::Winit && on_tty {
        return Err(
            copied(
                "no desktop session to open a window in. From a TTY, run without --nested to use the hardware directly.",
            ),
        );
    }
    if backend == Backend::Udev && !on_tty && !forced {
        return Err(
            copied(
                "refusing to take the screen while a desktop session is running: it would fight the session for the display and could leave you with a black screen.\n\nSwitch to a TTY (Ctrl+Alt+F3), log in there, and run it again. Set TESSERA_FORCE_UDEV=1 to override.",
            ),
        );
    }
    Ok(Invocation::Run { backend, spawn })
}

/// Tells whether the log goes to a file: when the session is ours, and nothing is attached to
/// the terminal.
pub fn logs_to_file(backend: Backend, terminal: bool) -> (r: bool)
    ensures
        r == (backend == Backend::Udev && !terminal),
{
    backend == Backend::Udev && !terminal
}

/// The screen is never taken from a running desktop session unless that is forced.
pub proof fn running_desktops_are_left_alone(wanted: Option<Backend>, on_tty: bool)
    ensures
        !on_tty && settled(wanted, on_tty) == Backend::Udev ==> refused(
            settled(wanted, on_tty),
            on_tty,
            false,
        ) is Some,
{
}

/// A window inside a desktop needs one that is running; the screen is taken only where none is,
/// or by force. Left to choose, it takes the one that is possible.
pub proof fn each_backend_has_its_place(on_tty: bool, forced: bool)
    ensures
        refused(Backend::Winit, on_tty, forced) is None <==> !on_tty,
        refused(Backend::Udev, on_tty, forced) is None <==> on_tty || forced,
        refused(settled(None, on_tty), on_tty, forced) is None,
        settled(Some(Backend::Winit), on_tty) == Backend::Winit,
        settled(Some(Backend::Udev), on_tty) == Backend::Udev,
{
}

/// Both names of a backend, and the flag for the one inside a desktop, ask for the same.
pub proof fn backends_have_two_names(args: Seq<Seq<char>>, spawn: Seq<Seq<char>>)
    ensures
        backend_named("winit"@) == backend_named("nested"@),
        backend_named("udev"@) == backend_named("tty"@),
        backend_named("winit"@) == Some(Some(Backend::Winit)),
        backend_named("udev"@) == Some(Some(Backend::Udev)),
        backend_named("auto"@) == Some(None::<Backend>),
        asked(seq!["--nested"@] + args, 0, None, spawn) == asked(
            seq!["--nested"@] + args,
            1,
            Some(Backend::Winit),
            spawn,
        ),
{
    reveal_strlit("auto");
    reveal_strlit("winit");
    reveal_strlit("nested");
    reveal_strlit("udev");
    reveal_strlit("tty");
    assert("winit"@.len() != "udev"@.len() && "winit"@.len() != "auto"@.len());
    assert("tty"@.len() != "auto"@.len() && "tty"@.len() != "winit"@.len());
    assert("udev"@[0] != "auto"@[0]);
}

/// The arguments that ask for commands to be run.
pub open spec fn asking_for(commands: Seq<Seq<char>>) -> Seq<Seq<char>>
    decreases commands.len(),
{
    if commands.len() == 0 {
        Seq::empty()
    } else {
        asking_for(commands.drop_last()).push("--spawn"@).push(commands.last())
    }
}

proof fn asking_takes_two(commands: Seq<Seq<char>>, i: int)
    requires
        0 <= i < commands.len(),
    ensures
        asking_for(commands).len() == 2 * commands.len(),
        asking_for(commands)[2 * i] == "--spawn"@,
        asking_for(commands)[2 * i + 1] == commands[i],
    decreases commands.len(),
{
    let less = commands.drop_last();
    if i < less.len() {
        asking_takes_two(less, i);
    } else if less.len() > 0 {
        asking_takes_two(less, 0);
    } else {
        assert(asking_for(less).len() == 0);
    }
}

proof fn asked_from(
    commands: Seq<Seq<char>>,
    wanted: Option<Backend>,
    first: Seq<Seq<char>>,
    i: int,
)
    requires
        0 <= i <= commands.len(),
    ensures
        asked(asking_for(commands), 2 * i, wanted, first + commands.take(i)) == (Asked::Run {
            wanted,
            spawn: first + commands,
        }),
    decreases commands.len() - i,
{
    if commands.len() > 0 {
        asking_takes_two(commands, if i < commands.len() { i } else { 0 });
    }
    reveal_strlit("--nested");
    reveal_strlit("--backend");
    reveal_strlit("--spawn");
    if i < commands.len() {
        asked_from(commands, wanted, first, i + 1);
        assert((first + commands.take(i)).push(commands[i]) =~= first + commands.take(i + 1));
        assert("--spawn"@.len() != "--nested"@.len() && "--spawn"@.len() != "--backend"@.len());
    } else {
        assert(commands.take(i) =~= commands);
    }
}

/// Every command that is asked for is run, in the order in which they were asked for, and none is
/// read as an argument of its own.
pub proof fn commands_are_run_in_order(commands: Seq<Seq<char>>)
    ensures
        asked(asking_for(commands), 0, None, Seq::empty()) == (Asked::Run {
            wanted: None,
            spawn: commands,
        }),
{
    asked_from(commands, None, Seq::empty(), 0);
    assert(Seq::<Seq<char>>::empty() + commands.take(0) =~= Seq::empty());
    assert(Seq::<Seq<char>>::empty() + commands =~= commands);
}

/// Arguments are read one after the other. A flag with a value takes the argument behind it and
/// is wrong without one; a backend must be known; help is shown whatever follows; and anything
/// else is wrong.
pub proof fn arguments_are_read_in_order(
    args: Seq<Seq<char>>,
    from: int,
    wanted: Option<Backend>,
    spawn: Seq<Seq<char>>,
)
    requires
        0 <= from < args.len(),
    ensures
        ({
            let read = asked(args, from, wanted, spawn);
            let arg = args[from];
            let more = from + 1 < args.len();
            &&& arg == "--nested"@ ==> read == asked(args, from + 1, Some(Backend::Winit), spawn)
            &&& arg == "--backend"@ && more ==> match backend_named(args[from + 1]) {
                Some(backend) => read == asked(args, from + 2, backend, spawn),
                None => read is Wrong,
            }
            &&& arg == "--spawn"@ && more ==> read == asked(
                args,
                from + 2,
                wanted,
                spawn.push(args[from + 1]),
            )
            &&& (arg == "--backend"@ || arg == "--spawn"@) && !more ==> read is Wrong
            &&& arg == "-h"@ || arg == "--help"@ ==> read is Help
            &&& arg != "--nested"@ && arg != "--backend"@ && arg != "--spawn"@ && arg != "-h"@
                && arg != "--help"@ ==> read is Wrong
            &&& asked(args, args.len() as int, wanted, spawn) == (Asked::Run { wanted, spawn })
        }),
{
    reveal_strlit("--nested");
    reveal_strlit("--backend");
    reveal_strlit("--spawn");
    reveal_strlit("--help");
    reveal_strlit("-h");
    assert("--nested"@.len() == 8 && "--backend"@.len() == 9 && "--spawn"@.len() == 7
        && "--help"@.len() == 6 && "-h"@.len() == 2);
}

} // verus!
