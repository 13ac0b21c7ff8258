//! The messages exchanged with the window manager over its control socket.
//!
//! Wayland gives clients no say over where their windows go, so requests like "open this
//! program next to me" travel over a socket of their own. A message is one JSON object on a
//! line of its own.

use crate::config::paths::{join_path, joined_path, str_view};
use crate::text::{chars_of, concat3, copied, decimal_int, integer_text, same, trim, trimmed};
use vstd::prelude::*;

verus! {

/// The environment variable that names the socket, set for every process that the window
/// manager starts.
pub const SOCKET_ENV: &'static str = "TESSERA_SOCKET";

/// The number by which clients name a window. Numbers are not reused within a session.
#[derive(Debug, Clone, Copy, PartialEq, Eq, Hash, Structural)]
pub struct WindowId(pub u64);

/// Which side of the anchor window a new window goes.
#[derive(Debug, Clone, Copy, PartialEq, Eq, Structural)]
pub enum Side {
    /// To the left of the anchor.
    Left,
    /// To the right of the anchor, as in "a terminal to the right of the launcher".
    Right,
    /// Above the anchor.
    Above,
    /// Below the anchor.
    Below,
}

impl Default for Side {
    fn default() -> (r: Self)
        ensures
            r == Side::Right,
    {
        Side::Right
    }
}

/// The name of a side, as it is written in messages and settings.
pub open spec fn side_name(side: Side) -> Seq<char> {
    match side {
        Side::Left => "left"@,
        Side::Right => "right"@,
        Side::Above => "above"@,
        Side::Below => "below"@,
    }
}

impl Side {
    /// The other side: left and right, above and below.
    pub open spec fn facing(self) -> Side {
        match self {
            Side::Left => Side::Right,
            Side::Right => Side::Left,
            Side::Above => Side::Below,
            Side::Below => Side::Above,
        }
    }

    /// The other side: left and right, above and below.
    pub fn opposite(self) -> (r: Self)
        ensures
            r == self.facing(),
    {
        match self {
            Side::Left => Side::Right,
            Side::Right => Side::Left,
            Side::Above => Side::Below,
            Side::Below => Side::Above,
        }
    }

    /// Parses `left`, `right`, `above` or `below`, as written in messages and settings.
    pub fn from_name(name: &str) -> (r: Option<Self>)
        ensures
            match r {
                Some(side) => name@ == side_name(side),
                None => forall|side: Side| name@ != #[trigger] side_name(side),
            },
    {
        if same(name, "left") {
            Some(Side::Left)
        } else if same(name, "right") {
            Some(Side::Right)
        } else if same(name, "above") {
            Some(Side::Above)
        } else if same(name, "below") {
            Some(Side::Below)
        } else {
            None
        }
    }
}

/// The opposite of the opposite side is the side itself, and never the side it is opposite to.
pub proof fn opposite_undoes_itself(side: Side)
    ensures
        side.facing().facing() == side,
        side.facing() != side,
{
}

/// No two sides share a name, so a name reads back as the side that it was written for.
pub proof fn side_names_differ(a: Side, b: Side)
    ensures
        side_name(a) == side_name(b) ==> a == b,
{
    reveal_strlit("left");
    reveal_strlit("right");
    reveal_strlit("above");
    reveal_strlit("below");
    if side_name(a) == side_name(b) {
        assert(side_name(a)[0] == side_name(b)[0]);
    }
}

/// Where a newly spawned window should go.
#[derive(Debug, Clone, Copy, PartialEq, Eq, Structural)]
pub enum Placement {
    /// Tile it the usual way: split the focused window along its longer side.
    Auto,
    /// Split the window of whoever asks, putting the new one on `side` with `ratio` of that
    /// space. The asker is known from the credentials of the connection, so it never names a
    /// window of its own.
    BesideCaller {
        /// Which side of the asker's window to use.
        side: Side,
        /// The new window's share of the space, in millionths.
        ratio: i32,
    },
    /// Put it on this workspace instead of the active one.
    Workspace {
        /// The number of the workspace as shown to the user, from one to nine.
        number: u8,
    },
}

impl Placement {
    /// The placement of a request that names none.
    pub fn auto() -> (r: Self)
        ensures
            r == Placement::Auto,
    {
        Placement::Auto
    }
}

/// A request from a client of the window manager.
#[derive(Debug, PartialEq, Eq)]
pub enum Request {
    /// Run a program as a client and place its window.
    Spawn {
        /// Program and arguments, not passed through a shell.
        argv: Vec<String>,
        /// Where the window should go once it appears.
        placement: Placement,
    },
    /// List the windows.
    ListWindows,
    /// Give keyboard focus to a window, switching workspace if needed.
    Focus {
        window: WindowId,
    },
    /// Read the configuration file again and apply what can be applied now.
    ReloadConfig,
    /// List the scripts in the scripts folder, with their state.
    ListScripts,
    /// Run a script. Refused if it is already running in the background.
    RunScript {
        /// The script's file name.
        name: String,
        /// How to run it; the script's own header decides when absent.
        mode: Option<RunMode>,
    },
    /// Stop a running script.
    StopScript {
        /// The script's file name.
        name: String,
    },
    /// The last lines that a script printed, from its most recent background run.
    ScriptOutput {
        /// The script's file name.
        name: String,
        /// How many lines, counting back from the newest.
        tail: usize,
    },
    /// Keep this connection open and send every [`Event`] down it, one per line.
    Subscribe,
    /// End the session.
    Quit,
}

/// How many lines a request for output asks for when it does not say.
pub fn default_tail() -> (r: usize)
    ensures
        r == 500,
{
    500
}

/// How a script runs.
#[derive(Debug, Clone, Copy, PartialEq, Eq, Structural)]
pub enum RunMode {
    /// In the background, with its output captured.
    Background,
    /// In a terminal tiled beside the caller, showing its own output.
    Terminal,
}

impl Default for RunMode {
    fn default() -> (r: Self)
        ensures
            r == RunMode::Background,
    {
        RunMode::Background
    }
}

/// How a process ended.
#[derive(Debug, Clone, Copy, PartialEq, Eq, Structural)]
pub enum ExitStatus {
    /// It exited by itself with this code; zero is success.
    Code {
        code: i32,
    },
    /// It was killed by this signal.
    Signal {
        signal: i32,
    },
}

/// The usual name of a Linux signal number.
pub open spec fn name_of_signal(signal: int) -> Option<Seq<char>> {
    if signal == 1 {
        Some("SIGHUP"@)
    } else if signal == 2 {
        Some("SIGINT"@)
    } else if signal == 3 {
        Some("SIGQUIT"@)
    } else if signal == 6 {
        Some("SIGABRT"@)
    } else if signal == 9 {
        Some("SIGKILL"@)
    } else if signal == 11 {
        Some("SIGSEGV"@)
    } else if signal == 13 {
        Some("SIGPIPE"@)
    } else if signal == 14 {
        Some("SIGALRM"@)
    } else if signal == 15 {
        Some("SIGTERM"@)
    } else {
        None
    }
}

/// The usual name of a Linux signal number.
pub fn signal_name(signal: i32) -> (r: Option<&'static str>)
    ensures
        str_view(r) == name_of_signal(signal as int),
{
    match signal {
        1 => Some("SIGHUP"),
        2 => Some("SIGINT"),
        3 => Some("SIGQUIT"),
        6 => Some("SIGABRT"),
        9 => Some("SIGKILL"),
        11 => Some("SIGSEGV"),
        13 => Some("SIGPIPE"),
        14 => Some("SIGALRM"),
        15 => Some("SIGTERM"),
        _ => None,
    }
}

impl ExitStatus {
    /// Whether it exited with code zero.
    pub fn success(self) -> (r: bool)
        ensures
            r == (self == ExitStatus::Code { code: 0 }),
    {
        match self {
            ExitStatus::Code { code } => code == 0,
            ExitStatus::Signal { .. } => false,
        }
    }

    /// A short description of how the process ended.
    pub open spec fn description(self) -> Seq<char> {
        match self {
            ExitStatus::Code { code } => if code == 0 {
                "ok"@
            } else {
                "exit "@ + decimal_int(code as int)
            },
            ExitStatus::Signal { signal } => match name_of_signal(signal as int) {
                Some(name) => name,
                None => "signal "@ + decimal_int(signal as int),
            },
        }
    }

    /// A short description: `ok`, `exit 1`, `SIGTERM`.
    pub fn describe(self) -> (r: String)
        ensures
            r@ == self.description(),
    {
        match self {
            ExitStatus::Code { code } => {
                if code == 0 {
                    copied("ok")
                } else {
                    let number = integer_text(code as i64);
                    let mut out = copied("exit ");
                    out.append(number.as_str());
                    out
                }
            },
            ExitStatus::Signal { signal } => match signal_name(signal) {
                Some(name) => copied(name),
                None => {
                    let number = integer_text(signal as i64);
                    let mut out = copied("signal ");
                    out.append(number.as_str());
                    out
                },
            },
        }
    }
}

/// Where a script is in its life.
#[derive(Debug, Clone, Copy, PartialEq, Eq, Structural)]
pub enum ScriptState {
    /// Not run since the session started.
    NeverRun,
    /// Running in the background.
    Running {
        pid: u32,
        /// When it started, in milliseconds since the Unix epoch.
        started_at_ms: u64,
    },
    /// Opened in a terminal, whose output is not captured.
    InTerminal {
        /// When it was opened, in milliseconds since the Unix epoch.
        started_at_ms: u64,
    },
    /// Finished.
    Exited {
        exit: ExitStatus,
        /// When it started, in milliseconds since the Unix epoch.
        started_at_ms: u64,
        /// How long it ran.
        duration_ms: u64,
    },
}

/// One script in a listing.
#[derive(Debug, PartialEq, Eq)]
pub struct ScriptInfo {
    /// The file name, which identifies the script in requests.
    pub name: String,
    /// What to call it: the header's `name`, or the file name.
    pub title: String,
    /// The header's `description`, if any.
    pub description: Option<String>,
    /// Full path to the file.
    pub path: String,
    /// How it runs by default.
    pub mode: RunMode,
    /// The key binding in effect, if any. One that clashed is absent here and explained in
    /// `problems`.
    pub bind: Option<String>,
    /// Runs when the session starts.
    pub autostart: bool,
    /// Header lines that could not be read, and clashing bindings.
    pub problems: Vec<String>,
    /// Running, finished, or never run.
    pub state: ScriptState,
}

/// One line of captured output.
#[derive(Debug, PartialEq, Eq)]
pub struct OutputLine {
    /// The text, without its newline.
    pub text: String,
    /// True when it came from stderr.
    pub stderr: bool,
}

/// Milliseconds since the Unix epoch, the time format used in messages, from the time that has
/// passed since then. A clock that stands before the epoch has none, and counts as zero.
pub fn unix_millis(elapsed_ms: Option<u128>) -> (r: u64)
    ensures
        r as int == match elapsed_ms {
            Some(ms) => ms as int % 0x1_0000_0000_0000_0000,
            None => 0,
        },
{
    match elapsed_ms {
        Some(ms) => {
            assert(ms as u64 == ms % 0x1_0000_0000_0000_0000u128) by (bit_vector);
            #[verifier::truncate] (ms as u64)
        },
        None => 0,
    }
}

/// One window in a listing.
#[derive(Debug, PartialEq, Eq)]
pub struct WindowInfo {
    /// Stable number for use in requests.
    pub id: WindowId,
    /// The window's app id, if it set one.
    pub app_id: Option<String>,
    /// The window's title, if it set one.
    pub title: Option<String>,
    /// Workspace number, from one to nine.
    pub workspace: u8,
    /// Whether this window has keyboard focus.
    pub focused: bool,
}

/// The answer to a [`Request`].
#[derive(Debug, PartialEq, Eq)]
pub enum Response {
    /// The request succeeded and has no result.
    Done,
    /// A program was started; its window will appear shortly.
    Spawned {
        pid: u32,
    },
    /// The configuration was reloaded.
    ConfigApplied {
        /// Settings that changed and are already in effect.
        live: Vec<String>,
        /// Settings that changed but only take effect after a restart.
        needs_restart: Vec<String>,
    },
    /// The windows, in tiling order.
    Windows {
        windows: Vec<WindowInfo>,
    },
    /// The scripts in the scripts folder, sorted by title.
    Scripts {
        scripts: Vec<ScriptInfo>,
    },
    /// A script's captured output.
    ScriptOutput {
        /// The script's file name.
        name: String,
        /// Oldest first.
        lines: Vec<OutputLine>,
        /// Whether it is still running, so more may follow.
        running: bool,
    },
    /// The request could not be carried out.
    Error {
        /// Why, in terms a person can act on.
        message: String,
    },
}

/// Something that happened, sent to clients that subscribed.
#[derive(Debug, PartialEq, Eq)]
pub enum Event {
    /// A window was mapped.
    WindowOpened {
        id: WindowId,
        /// Its app id, if it set one.
        app_id: Option<String>,
    },
    /// A window went away.
    WindowClosed {
        id: WindowId,
    },
    /// A script started, in the background or in a terminal.
    ScriptStarted {
        /// The script's file name.
        name: String,
        /// Process id of the script, or of its terminal.
        pid: u32,
    },
    /// A background script finished.
    ScriptExited {
        /// The script's file name.
        name: String,
        exit: ExitStatus,
        /// How long it ran.
        duration_ms: u64,
    },
    /// Scripts were added, removed or edited; ask for the list again.
    ScriptsChanged,
}

/// The path of the socket for a Wayland display.
pub open spec fn socket_place(runtime_dir: Option<Seq<char>>, display: Seq<char>) -> Seq<char> {
    joined_path(
        match runtime_dir {
            Some(dir) => dir,
            None => "/tmp"@,
        },
        "tessera-"@ + display + ".sock"@,
    )
}

/// The path of the socket for a Wayland display: `tessera-<display>.sock` in the runtime
/// folder, falling back to `/tmp` when there is none.
pub fn socket_path(runtime_dir: Option<&str>, wayland_display: &str) -> (r: String)
    ensures
        r@ == socket_place(str_view(runtime_dir), wayland_display@),
{
    let name = concat3("tessera-", wayland_display, ".sock");
    match runtime_dir {
        Some(dir) => join_path(dir, name.as_str()),
        None => join_path("/tmp", name.as_str()),
    }
}

/// The byte that ends a line.
pub const NEWLINE: u8 = 10;

/// One message as it is written: its JSON on a line of its own.
pub fn write_message(json: Vec<u8>) -> (r: Vec<u8>)
    ensures
        r@ == json@.push(NEWLINE),
{
    let mut line = json;
    line.push(NEWLINE);
    line
}

/// Whether a line that was read holds a message. An empty line, as at the end of the input, and
/// one of spaces alone hold none.
pub fn read_message(line: &str) -> (r: bool)
    ensures
        r == (trim(line@).len() > 0),
{
    let chars = chars_of(line);
    let text = trimmed(&chars);
    text.len() > 0
}

/// Where the first line of `bytes[from..]` ends, or the end of the bytes.
pub open spec fn line_end(bytes: Seq<u8>, from: int) -> int
    decreases bytes.len() - from,
{
    if from < 0 || from >= bytes.len() {
        bytes.len() as int
    } else if bytes[from] == NEWLINE {
        from
    } else {
        line_end(bytes, from + 1)
    }
}

/// The whole lines of `bytes[from..]`, each with its newline.
pub open spec fn whole_lines(bytes: Seq<u8>, from: int) -> Seq<Seq<u8>>
    decreases bytes.len() - from,
    when 0 <= from <= bytes.len()
    via whole_lines_shrink
{
    let end = line_end(bytes, from);
    if end >= bytes.len() {
        Seq::empty()
    } else {
        seq![bytes.subrange(from, end + 1)] + whole_lines(bytes, end + 1)
    }
}

#[via_fn]
proof fn whole_lines_shrink(bytes: Seq<u8>, from: int) {
    line_end_is_first(bytes, from);
}

proof fn line_end_is_first(bytes: Seq<u8>, from: int)
    requires
        0 <= from <= bytes.len(),
    ensures
        from <= line_end(bytes, from) <= bytes.len(),
        forall|k: int| from <= k < line_end(bytes, from) ==> bytes[k] != NEWLINE,
        line_end(bytes, from) < bytes.len() ==> bytes[line_end(bytes, from)] == NEWLINE,
    decreases bytes.len() - from,
{
    if from < bytes.len() && bytes[from] != NEWLINE {
        line_end_is_first(bytes, from + 1);
    }
}

/// What follows the last whole line of `bytes[from..]`.
pub open spec fn unfinished(bytes: Seq<u8>, from: int) -> Seq<u8>
    decreases bytes.len() - from,
    when 0 <= from <= bytes.len()
    via unfinished_shrinks
{
    let end = line_end(bytes, from);
    if end >= bytes.len() {
        bytes.subrange(from, bytes.len() as int)
    } else {
        unfinished(bytes, end + 1)
    }
}

#[via_fn]
proof fn unfinished_shrinks(bytes: Seq<u8>, from: int) {
    line_end_is_first(bytes, from);
}

/// What a sequence of byte vectors holds.
pub open spec fn byte_views(lines: Seq<Vec<u8>>) -> Seq<Seq<u8>> {
    Seq::new(lines.len(), |i: int| lines[i]@)
}

/// Takes the whole lines out of what a connection has sent so far, and keeps the rest for when
/// more arrives.
pub fn take_lines(buffer: &mut Vec<u8>) -> (r: Vec<Vec<u8>>)
    ensures
        byte_views(r@) == whole_lines(old(buffer)@, 0),
        final(buffer)@ == unfinished(old(buffer)@, 0),
{
    let mut lines: Vec<Vec<u8>> = Vec::new();
    let mut line: Vec<u8> = Vec::new();
    let ghost bytes = buffer@;
    let ghost mut start: int = 0;
    let mut i: usize = 0;
    proof {
        assert(byte_views(lines@) =~= Seq::empty());
        assert(whole_lines(bytes, 0) =~= byte_views(lines@) + whole_lines(bytes, start));
    }
    while i < buffer.len()
        invariant
            buffer@ == bytes,
            0 <= start <= i <= bytes.len(),
            line@ == bytes.subrange(start, i as int),
            line_end(bytes, start) == line_end(bytes, i as int),
            whole_lines(bytes, 0) == byte_views(lines@) + whole_lines(bytes, start),
            unfinished(bytes, 0) == unfinished(bytes, start),
        decreases bytes.len() - i,
    {
        let byte = buffer[i];
        line.push(byte);
        assert(line@ =~= bytes.subrange(start, i + 1));
        if byte == NEWLINE {
            let ghost before = lines@;
            let ghost taken = line@;
            lines.push(line);
            line = Vec::new();
            proof {
                assert(line_end(bytes, start) == i);
                assert(byte_views(lines@) =~= byte_views(before).push(taken));
                assert(byte_views(before) + (seq![taken] + whole_lines(bytes, i + 1))
                    =~= byte_views(lines@) + whole_lines(bytes, i + 1));
                start = i + 1;
                assert(line@ =~= bytes.subrange(start, i + 1));
            }
        }
        i = i + 1;
    }
    proof {
        line_end_is_first(bytes, start);
        assert(whole_lines(bytes, start) =~= Seq::empty());
        assert(byte_views(lines@) + Seq::<Seq<u8>>::empty() =~= byte_views(lines@));
    }
    *buffer = line;
    lines
}

/// The lines of several messages, one after another.
pub open spec fn written(messages: Seq<Seq<u8>>) -> Seq<u8>
    decreases messages.len(),
{
    if messages.len() == 0 {
        Seq::empty()
    } else {
        messages[0].push(NEWLINE) + written(messages.drop_first())
    }
}

/// The messages without the newlines that end them.
pub open spec fn on_lines(messages: Seq<Seq<u8>>) -> Seq<Seq<u8>> {
    Seq::new(messages.len(), |i: int| messages[i].push(NEWLINE))
}

proof fn lines_shift(head: Seq<u8>, rest: Seq<u8>, from: int)
    requires
        0 <= from <= rest.len(),
    ensures
        whole_lines(head + rest, head.len() + from) == whole_lines(rest, from),
        unfinished(head + rest, head.len() + from) == unfinished(rest, from),
    decreases rest.len() - from,
{
    let all = head + rest;
    end_shifts(head, rest, from);
    line_end_is_first(rest, from);
    let end = line_end(rest, from);
    if end < rest.len() {
        lines_shift(head, rest, end + 1);
        assert(all.subrange(head.len() + from, head.len() + end + 1) =~= rest.subrange(
            from,
            end + 1,
        ));
    } else {
        assert(all.subrange(head.len() + from, all.len() as int) =~= rest.subrange(
            from,
            rest.len() as int,
        ));
    }
}

proof fn end_shifts(head: Seq<u8>, rest: Seq<u8>, from: int)
    requires
        0 <= from <= rest.len(),
    ensures
        line_end(head + rest, head.len() + from) == head.len() + line_end(rest, from),
    decreases rest.len() - from,
{
    if from < rest.len() && rest[from] != NEWLINE {
        end_shifts(head, rest, from + 1);
    }
}

proof fn end_before_newline(bytes: Seq<u8>, from: int, at: int)
    requires
        0 <= from <= at < bytes.len(),
        bytes[at] == NEWLINE,
        forall|k: int| from <= k < at ==> bytes[k] != NEWLINE,
    ensures
        line_end(bytes, from) == at,
    decreases at - from,
{
    if from < at {
        end_before_newline(bytes, from + 1, at);
    }
}

/// Messages whose JSON has no newline in it are read back one by one, in the order in which they
/// were written, whatever follows them; and what follows without a newline waits for more.
pub proof fn written_messages_read_back(messages: Seq<Seq<u8>>, rest: Seq<u8>)
    requires
        forall|i: int, k: int|
            0 <= i < messages.len() && 0 <= k < messages[i].len() ==> #[trigger] messages[i][k]
                != NEWLINE,
        forall|k: int| 0 <= k < rest.len() ==> rest[k] != NEWLINE,
    ensures
        whole_lines(written(messages) + rest, 0) == on_lines(messages),
        unfinished(written(messages) + rest, 0) == rest,
    decreases messages.len(),
{
    let all = written(messages) + rest;
    if messages.len() == 0 {
        assert(all =~= rest);
        line_end_is_first(rest, 0);
        assert(whole_lines(rest, 0) =~= on_lines(messages));
        assert(rest.subrange(0, rest.len() as int) =~= rest);
    } else {
        let head = messages[0].push(NEWLINE);
        let others = messages.drop_first();
        let tail = written(others) + rest;
        assert forall|i: int, k: int|
            0 <= i < others.len() && 0 <= k < others[i].len() implies #[trigger] others[i][k]
            != NEWLINE by {
            assert(others[i] == messages[i + 1]);
            assert(messages[i + 1][k] != NEWLINE);
        }
        written_messages_read_back(others, rest);
        assert(all =~= head + tail);
        assert forall|k: int| 0 <= k < messages[0].len() implies all[k] != NEWLINE by {
            assert(messages[0][k] != NEWLINE);
        }
        end_before_newline(all, 0, messages[0].len() as int);
        lines_shift(head, tail, 0);
        assert(all.subrange(0, head.len() as int) =~= head);
        assert(seq![head] + on_lines(others) =~= on_lines(messages));
    }
}

/// Lines come out the same whether bytes arrive at once or in two parts: what is left of the
/// first part goes in front of the second.
pub proof fn lines_arrive_in_parts(first: Seq<u8>, second: Seq<u8>)
    ensures
        whole_lines(first + second, 0) == whole_lines(first, 0) + whole_lines(
            unfinished(first, 0) + second,
            0,
        ),
        unfinished(first + second, 0) == unfinished(unfinished(first, 0) + second, 0),
    decreases first.len(),
{
    line_end_is_first(first, 0);
    let end = line_end(first, 0);
    if end >= first.len() {
        assert(first.subrange(0, first.len() as int) =~= first);
        assert(whole_lines(first, 0) =~= Seq::empty());
        assert(Seq::<Seq<u8>>::empty() + whole_lines(first + second, 0) =~= whole_lines(
            first + second,
            0,
        ));
    } else {
        let head = first.subrange(0, end + 1);
        let rest = first.subrange(end + 1, first.len() as int);
        assert(first =~= head + rest);
        assert(first + second =~= head + (rest + second));
        end_before_newline(first + second, 0, end);
        assert((first + second).subrange(0, end + 1) =~= head);
        lines_shift(head, rest, 0);
        lines_shift(head, rest + second, 0);
        lines_arrive_in_parts(rest, second);
        assert(seq![head] + (whole_lines(rest, 0) + whole_lines(unfinished(rest, 0) + second, 0))
            =~= (seq![head] + whole_lines(rest, 0)) + whole_lines(
            unfinished(rest, 0) + second,
            0,
        ));
    }
}

/// The other side of left is right, and that of above is below, by their names too.
pub proof fn sides_face_across(side: Side)
    ensures
        side_name(side) == "left"@ ==> side_name(side.facing()) == "right"@,
        side_name(side) == "right"@ ==> side_name(side.facing()) == "left"@,
        side_name(side) == "above"@ ==> side_name(side.facing()) == "below"@,
        side_name(side) == "below"@ ==> side_name(side.facing()) == "above"@,
{
    side_names_differ(side, Side::Left);
    side_names_differ(side, Side::Right);
    side_names_differ(side, Side::Above);
    side_names_differ(side, Side::Below);
}

/// What is told of an end tells it from others: a success from every failure, and failures with
/// different codes from each other.
pub proof fn codes_are_told_apart(a: i32, b: i32)
    ensures
        a != 0 ==> (ExitStatus::Code { code: a }).description() != (ExitStatus::Code {
            code: 0,
        }).description(),
        a != b && a >= 0 && b >= 0 ==> (ExitStatus::Code { code: a }).description() != (
        ExitStatus::Code { code: b }).description(),
{
    reveal_strlit("ok");
    reveal_strlit("exit ");
    let start = "exit "@;
    let one = start + decimal_int(a as int);
    let two = start + decimal_int(b as int);
    assert(one[0] == 'e' && two[0] == 'e' && "ok"@[0] == 'o');
    if a != b && a >= 0 && b >= 0 && one == two {
        assert(one.skip(start.len() as int) =~= decimal_int(a as int));
        assert(two.skip(start.len() as int) =~= decimal_int(b as int));
        crate::text::decimal_reads_back(a as nat);
        crate::text::decimal_reads_back(b as nat);
    }
}

} // verus!
