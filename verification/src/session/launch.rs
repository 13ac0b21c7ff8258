//! What programs are started with.

use crate::config::paths::str_view;
use crate::ipc::SOCKET_ENV;
use crate::session::settings::{Behaviour, BehaviourModel};
use crate::text::{chars_of, concat5, copied, join, joined, views};
use vstd::prelude::*;

verus! {

/// A variable of the environment, and what it is set to; nothing takes it away.
#[derive(Debug, PartialEq, Eq)]
pub struct Variable {
    pub name: String,
    pub value: Option<String>,
}

/// A variable of the environment, and what it is set to.
pub type Assignment = (Seq<char>, Option<Seq<char>>);

/// What variables are set to.
pub open spec fn assignments(variables: Seq<Variable>) -> Seq<Assignment> {
    Seq::new(
        variables.len(),
        |i: int| (variables[i].name@, crate::text::opt_view(variables[i].value)),
    )
}

fn set(variables: &mut Vec<Variable>, name: &str, value: &str)
    ensures
        assignments(final(variables)@) == assignments(old(variables)@).push(
            (name@, Some(value@)),
        ),
{
    let ghost before = variables@;
    variables.push(Variable { name: copied(name), value: Some(copied(value)) });
    assert(assignments(variables@) =~= assignments(before).push((name@, Some(value@))));
}

fn unset(variables: &mut Vec<Variable>, name: &str)
    ensures
        assignments(final(variables)@) == assignments(old(variables)@).push((name@, None)),
{
    let ghost before = variables@;
    variables.push(Variable { name: copied(name), value: None });
    assert(assignments(variables@) =~= assignments(before).push((name@, None)));
}

/// The variables that every program is started with. Without them X11-capable programs would
/// open on the host desktop, and toolkits that guess wrongly would not start at all.
pub open spec fn base_variables(display: Seq<char>, nested: bool) -> Seq<Assignment> {
    seq![
        ("WAYLAND_DISPLAY"@, Some(display)),
        ("DISPLAY"@, None),
        ("XDG_SESSION_TYPE"@, Some("wayland"@)),
        (
            "TESSERA_BACKEND"@,
            Some(
                if nested {
                    "nested"@
                } else {
                    "session"@
                },
            ),
        ),
        ("QT_QPA_PLATFORM"@, Some("wayland"@)),
        ("GDK_BACKEND"@, Some("wayland"@)),
        ("SDL_VIDEODRIVER"@, Some("wayland"@)),
        ("CLUTTER_BACKEND"@, Some("wayland"@)),
        ("MOZ_ENABLE_WAYLAND"@, Some("1"@)),
    ]
}

/// A variable that is set only where there is something to set it to.
pub open spec fn if_any(name: Seq<char>, value: Option<Seq<char>>) -> Seq<Assignment> {
    match value {
        Some(value) => seq![(name, Some(value))],
        None => Seq::empty(),
    }
}

/// A variable that is set unless it would be empty.
pub open spec fn unless_empty(name: Seq<char>, value: Seq<char>) -> Seq<Assignment> {
    if value.len() > 0 {
        seq![(name, Some(value))]
    } else {
        Seq::empty()
    }
}

/// The variables that a program is started with.
pub open spec fn client_variables(
    display: Seq<char>,
    nested: bool,
    behaviour: BehaviourModel,
    socket: Option<Seq<char>>,
    token: Option<Seq<char>>,
) -> Seq<Assignment> {
    base_variables(display, nested) + unless_empty(
        "QT_QPA_PLATFORMTHEME"@,
        behaviour.qt_platform_theme,
    ) + unless_empty("GTK_THEME"@, behaviour.gtk_theme) + if_any(SOCKET_ENV@, socket) + if_any(
        "XDG_ACTIVATION_TOKEN"@,
        token,
    )
}

/// The variables that a program is started with, in the order in which they are set.
pub fn spawn_environment(
    display: &str,
    nested: bool,
    behaviour: &Behaviour,
    socket: Option<&str>,
    token: Option<&str>,
) -> (r: Vec<Variable>)
    ensures
        assignments(r@) == client_variables(
            display@,
            nested,
            behaviour@,
            str_view(socket),
            str_view(token),
        ),
{
    let mut out: Vec<Variable> = Vec::new();
    assert(assignments(out@) =~= Seq::empty());
    set(&mut out, "WAYLAND_DISPLAY", display);
    unset(&mut out, "DISPLAY");
    set(&mut out, "XDG_SESSION_TYPE", "wayland");
    set(
        &mut out,
        "TESSERA_BACKEND",
        if nested {
            "nested"
        } else {
            "session"
        },
    );
    set(&mut out, "QT_QPA_PLATFORM", "wayland");
    set(&mut out, "GDK_BACKEND", "wayland");
    set(&mut out, "SDL_VIDEODRIVER", "wayland");
    set(&mut out, "CLUTTER_BACKEND", "wayland");
    set(&mut out, "MOZ_ENABLE_WAYLAND", "1");
    let ghost base = base_variables(display@, nested);
    assert(assignments(out@) =~= base);
    let ghost qt = unless_empty("QT_QPA_PLATFORMTHEME"@, behaviour@.qt_platform_theme);
    let ghost gtk = unless_empty("GTK_THEME"@, behaviour@.gtk_theme);
    let ghost sock = if_any(SOCKET_ENV@, str_view(socket));
    let ghost tok = if_any("XDG_ACTIVATION_TOKEN"@, str_view(token));
    if chars_of(behaviour.qt_platform_theme.as_str()).len() > 0 {
        set(&mut out, "QT_QPA_PLATFORMTHEME", behaviour.qt_platform_theme.as_str());
    }
    assert(assignments(out@) =~= base + qt);
    if chars_of(behaviour.gtk_theme.as_str()).len() > 0 {
        set(&mut out, "GTK_THEME", behaviour.gtk_theme.as_str());
    }
    assert(assignments(out@) =~= base + qt + gtk);
    if let Some(socket) = socket {
        set(&mut out, SOCKET_ENV, socket);
    }
    assert(assignments(out@) =~= base + qt + gtk + sock);
    if let Some(token) = token {
        set(&mut out, "XDG_ACTIVATION_TOKEN", token);
    }
    assert(assignments(out@) =~= base + qt + gtk + sock + tok);
    out
}

/// The variables that a background script is started with.
pub open spec fn script_variables(
    display: Seq<char>,
    name: Seq<char>,
    socket: Option<Seq<char>>,
) -> Seq<Assignment> {
    seq![
        ("WAYLAND_DISPLAY"@, Some(display)),
        ("TESSERA_SCRIPT"@, Some(name)),
        ("DISPLAY"@, None),
    ] + if_any(SOCKET_ENV@, socket)
}

/// The variables that a background script is started with, in the order in which they are set.
pub fn script_environment(display: &str, name: &str, socket: Option<&str>) -> (r: Vec<Variable>)
    ensures
        assignments(r@) == script_variables(display@, name@, str_view(socket)),
{
    let mut out: Vec<Variable> = Vec::new();
    assert(assignments(out@) =~= Seq::empty());
    set(&mut out, "WAYLAND_DISPLAY", display);
    set(&mut out, "TESSERA_SCRIPT", name);
    unset(&mut out, "DISPLAY");
    let ghost base = script_variables(display@, name@, None);
    assert(assignments(out@) =~= base);
    if let Some(socket) = socket {
        set(&mut out, SOCKET_ENV, socket);
    }
    assert(assignments(out@) =~= script_variables(display@, name@, str_view(socket)));
    out
}

/// The program and arguments that run a command line in a shell.
pub fn shell_command(command: &str) -> (r: Vec<String>)
    ensures
        views(r@) == seq!["/bin/sh"@, "-c"@, command@],
{
    let mut out: Vec<String> = Vec::new();
    out.push(copied("/bin/sh"));
    out.push(copied("-c"));
    out.push(copied(command));
    assert(views(out@) =~= seq!["/bin/sh"@, "-c"@, command@]);
    out
}

/// The message for a program that could not be started.
pub fn spawn_failure(argv: &Vec<String>, why: &str) -> (r: String)
    ensures
        r@ == "could not run `"@ + joined(views(argv@), " "@) + "`: "@ + why@ + ""@,
{
    let command = join(argv, " ");
    concat5("could not run `", command.as_str(), "`: ", why, "")
}

/// The program and arguments that run a script in a terminal.
pub open spec fn in_terminal(terminal: Seq<Seq<char>>, path: Seq<char>) -> Seq<Seq<char>> {
    terminal.push("-e"@).push(path)
}

/// The program and arguments that run a script in a terminal.
pub fn terminal_command(terminal: &Vec<String>, path: &str) -> (r: Vec<String>)
    ensures
        views(r@) == in_terminal(views(terminal@), path@),
{
    let mut out = crate::text::copied_all(terminal);
    let ghost before = views(out@);
    out.push(copied("-e"));
    out.push(copied(path));
    assert(views(out@) =~= before.push("-e"@).push(path@));
    out
}

/// The launcher's program: the file beside our own where there is one, else the bare name, which
/// is left for the usual lookup.
pub fn launcher_program(command: &str, beside_us: Option<&str>) -> (r: String)
    ensures
        r@ == (match beside_us {
            Some(path) => path@,
            None => command@,
        }),
{
    match beside_us {
        Some(path) => copied(path),
        None => copied(command),
    }
}

/// Programs are pointed at this session and at no other: its display is the only one that they
/// are given, the one of the desktop around it is taken away, and they learn whether the session
/// is nested.
pub proof fn programs_find_their_session(
    display: Seq<char>,
    nested: bool,
    behaviour: BehaviourModel,
    socket: Option<Seq<char>>,
    token: Option<Seq<char>>,
)
    ensures
        ({
            let all = client_variables(display, nested, behaviour, socket, token);
            &&& all.contains(("WAYLAND_DISPLAY"@, Some(display)))
            &&& all.contains(("DISPLAY"@, None))
            &&& nested ==> all.contains(("TESSERA_BACKEND"@, Some("nested"@)))
            &&& !nested ==> all.contains(("TESSERA_BACKEND"@, Some("session"@)))
            &&& socket is Some ==> all.contains(("TESSERA_SOCKET"@, socket))
            &&& token is Some ==> all.contains(("XDG_ACTIVATION_TOKEN"@, token))
            &&& behaviour.gtk_theme.len() > 0 ==> all.contains(
                ("GTK_THEME"@, Some(behaviour.gtk_theme)),
            )
            &&& behaviour.qt_platform_theme.len() > 0 ==> all.contains(
                ("QT_QPA_PLATFORMTHEME"@, Some(behaviour.qt_platform_theme)),
            )
        }),
{
    let all = client_variables(display, nested, behaviour, socket, token);
    let base = base_variables(display, nested);
    let qt = unless_empty("QT_QPA_PLATFORMTHEME"@, behaviour.qt_platform_theme);
    let gtk = unless_empty("GTK_THEME"@, behaviour.gtk_theme);
    let to_socket = if_any(SOCKET_ENV@, socket);
    let to_token = if_any("XDG_ACTIVATION_TOKEN"@, token);
    assert(all[0] == base[0]);
    assert(all[1] == base[1]);
    assert(all[3] == base[3]);
    let n = base.len() as int;
    if qt.len() > 0 {
        assert(all[n] == qt[0]);
    }
    let n = n + qt.len();
    if gtk.len() > 0 {
        assert(all[n] == gtk[0]);
    }
    let n = n + gtk.len();
    if to_socket.len() > 0 {
        assert(all[n] == to_socket[0]);
    }
    let n = n + to_socket.len();
    if to_token.len() > 0 {
        assert(all[n] == to_token[0]);
    }
}

/// A theme that is not set is not passed on: an empty one would take the program's own away.
pub proof fn empty_themes_are_not_passed_on(
    display: Seq<char>,
    nested: bool,
    behaviour: BehaviourModel,
    other: BehaviourModel,
    socket: Option<Seq<char>>,
    token: Option<Seq<char>>,
)
    requires
        behaviour.gtk_theme.len() == 0,
        behaviour.qt_platform_theme.len() == 0,
        other.gtk_theme.len() > 0,
        other.qt_platform_theme.len() > 0,
    ensures
        client_variables(display, nested, behaviour, None, None).len() == base_variables(
            display,
            nested,
        ).len(),
        client_variables(display, nested, other, socket, token).len() == client_variables(
            display,
            nested,
            behaviour,
            socket,
            token,
        ).len() + 2,
        client_variables(display, nested, behaviour, socket, token).len() == base_variables(
            display,
            nested,
        ).len() + (if socket is Some {
            1int
        } else {
            0
        }) + (if token is Some {
            1int
        } else {
            0
        }),
{
}

} // verus!
