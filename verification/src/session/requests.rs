//! Requests over the control socket: what each asks for, and what it is answered.

use crate::ipc::{Placement, Request, Response, RunMode, WindowId, WindowInfo};
use crate::layout::tree::root_ids;
use crate::scripts::list::{place_named, shows, Scripts, ScriptsModel};
use crate::scripts::output::line_views;
use crate::session::desk::{Desk, DeskModel};
use crate::session::input::WORKSPACE_COUNT;
use crate::text::{concat3, copied, copied_opt, decimal, number_text, opt_view, views};
use vstd::prelude::*;

verus! {

/// The listening socket.
#[derive(Debug)]
pub struct IpcServer {
    path: String,
}

impl View for IpcServer {
    type V = Seq<char>;

    closed spec fn view(&self) -> Seq<char> {
        self.path@
    }
}

impl IpcServer {
    /// A socket that is listened on at a path.
    pub fn at(path: String) -> (r: Self)
        ensures
            r@ == path@,
    {
        IpcServer { path }
    }

    /// Where the socket lives; handed to children in the environment.
    pub fn path(&self) -> (r: &str)
        ensures
            r@ == self@,
    {
        self.path.as_str()
    }
}

/// What a window calls itself.
#[derive(Debug, PartialEq, Eq)]
pub struct WindowDetails {
    pub window: WindowId,
    pub app_id: Option<String>,
    pub title: Option<String>,
}

/// The place of the first of `details[from..]` that is about a window.
pub open spec fn details_place(details: Seq<WindowDetails>, window: WindowId, from: int) -> Option<
    int,
>
    decreases details.len() - from,
{
    if from < 0 || from >= details.len() {
        None
    } else if details[from].window == window {
        Some(from)
    } else {
        details_place(details, window, from + 1)
    }
}

/// One window in a listing.
#[verifier::ext_equal]
pub struct InfoModel {
    pub id: WindowId,
    pub app_id: Option<Seq<char>>,
    pub title: Option<Seq<char>>,
    pub workspace: int,
    pub focused: bool,
}

/// What a listing holds.
pub open spec fn info_views(infos: Seq<WindowInfo>) -> Seq<InfoModel> {
    Seq::new(
        infos.len(),
        |i: int|
            InfoModel {
                id: infos[i].id,
                app_id: opt_view(infos[i].app_id),
                title: opt_view(infos[i].title),
                workspace: infos[i].workspace as int,
                focused: infos[i].focused,
            },
    )
}

/// How a window on workspace `index` is listed.
pub open spec fn listed(
    desk: DeskModel,
    details: Seq<WindowDetails>,
    window: WindowId,
    index: int,
) -> InfoModel {
    let place = details_place(details, window, 0);
    InfoModel {
        id: window,
        app_id: match place {
            Some(i) => opt_view(details[i].app_id),
            None => None,
        },
        title: match place {
            Some(i) => opt_view(details[i].title),
            None => None,
        },
        workspace: index + 1,
        focused: desk.focus == Some(window),
    }
}

/// How the windows of a workspace are listed.
pub open spec fn workspace_list(desk: DeskModel, details: Seq<WindowDetails>, index: int) -> Seq<
    InfoModel,
> {
    root_ids(desk.workspaces[index]).map_values(
        |window: WindowId| listed(desk, details, window, index),
    )
}

/// How the windows of the first `n` workspaces are listed: workspace by workspace, each in tiling
/// order.
pub open spec fn listing(desk: DeskModel, details: Seq<WindowDetails>, n: int) -> Seq<InfoModel>
    decreases n,
{
    if n <= 0 {
        Seq::empty()
    } else {
        listing(desk, details, n - 1) + workspace_list(desk, details, n - 1)
    }
}

fn find_details(details: &Vec<WindowDetails>, window: WindowId) -> (r: Option<usize>)
    ensures
        (match r {
            Some(i) => Some(i as int),
            None => None,
        }) == details_place(details@, window, 0),
        r matches Some(i) ==> i < details@.len(),
{
    let mut i: usize = 0;
    while i < details.len()
        invariant
            i <= details@.len(),
            details_place(details@, window, 0) == details_place(details@, window, i as int),
        decreases details@.len() - i,
    {
        if details[i].window == window {
            return Some(i);
        }
        i = i + 1;
    }
    None
}

fn describe(
    desk: &Desk,
    details: &Vec<WindowDetails>,
    window: WindowId,
    index: usize,
) -> (r: WindowInfo)
    requires
        index < WORKSPACE_COUNT,
    ensures
        (InfoModel {
            id: r.id,
            app_id: opt_view(r.app_id),
            title: opt_view(r.title),
            workspace: r.workspace as int,
            focused: r.focused,
        }) == listed(desk@, details@, window, index as int),
{
    let (app_id, title) = match find_details(details, window) {
        Some(i) => (copied_opt(&details[i].app_id), copied_opt(&details[i].title)),
        None => (None, None),
    };
    let focused = match desk.focus() {
        Some(focus) => focus == window,
        None => false,
    };
    WindowInfo { id: window, app_id, title, workspace: (index + 1) as u8, focused }
}

/// Every window, workspace by workspace, each in tiling order.
pub fn window_list(desk: &Desk, details: &Vec<WindowDetails>) -> (r: Vec<WindowInfo>)
    requires
        desk@.wf(),
    ensures
        info_views(r@) == listing(desk@, details@, WORKSPACE_COUNT as int),
{
    let mut out: Vec<WindowInfo> = Vec::new();
    let mut index: usize = 0;
    assert(info_views(out@) =~= Seq::empty());
    while index < WORKSPACE_COUNT
        invariant
            index <= WORKSPACE_COUNT,
            desk@.wf(),
            info_views(out@) == listing(desk@, details@, index as int),
        decreases WORKSPACE_COUNT - index,
    {
        let ids = desk.windows_on(index);
        let ghost before = info_views(out@);
        let ghost shown = workspace_list(desk@, details@, index as int);
        let mut i: usize = 0;
        assert(before + shown.take(0) =~= before);
        while i < ids.len()
            invariant
                i <= ids@.len(),
                index < WORKSPACE_COUNT,
                ids@ == root_ids(desk@.workspaces[index as int]),
                shown == workspace_list(desk@, details@, index as int),
                info_views(out@) == before + shown.take(i as int),
            decreases ids@.len() - i,
        {
            let info = describe(desk, details, ids[i], index);
            let ghost earlier = info_views(out@);
            out.push(info);
            proof {
                assert(info_views(out@) =~= earlier.push(shown[i as int]));
                assert(shown.take(i + 1) =~= shown.take(i as int).push(shown[i as int]));
                assert(before + shown.take(i + 1) =~= (before + shown.take(i as int)).push(
                    shown[i as int],
                ));
            }
            i = i + 1;
        }
        assert(shown.take(shown.len() as int) =~= shown);
        index = index + 1;
    }
    out
}

/// The answer to a request about a script that is not there.
pub open spec fn unknown_script(name: Seq<char>) -> Seq<char> {
    "no script called `"@ + name + "` in the scripts folder"@
}

/// The answer to a request about a script that is not there.
pub fn no_such_script(name: &str) -> (r: Response)
    ensures
        r matches Response::Error { message } && message@ == unknown_script(name@),
{
    Response::Error { message: concat3("no script called `", name, "` in the scripts folder") }
}

/// The answer to a line that is no request.
pub fn not_understood(why: &str) -> (r: Response)
    ensures
        r matches Response::Error { message } && message@
            == "could not understand the request: "@ + why@ + ""@,
{
    Response::Error { message: concat3("could not understand the request: ", why, "") }
}

/// What a request asks for.
#[derive(Debug, PartialEq, Eq)]
pub enum Task {
    /// Nothing but an answer.
    Answer(Response),
    /// Focus a window wherever it is; the answer is that it was done.
    Focus(WindowId),
    /// Read the configuration again.
    Reload,
    /// End the session, after the answer that it will be done.
    Quit,
    /// Run the script at this place in the list.
    Run { index: usize, mode: Option<RunMode> },
    /// Stop the script at this place in the list.
    Stop { index: usize },
    /// Start a program.
    Spawn { argv: Vec<String>, placement: Placement },
}

/// True when a task is the answer that something is wrong.
pub open spec fn complains(task: Task, why: Seq<char>) -> bool {
    task matches Task::Answer(Response::Error { message }) && message@ == why
}

/// True when a task is what a request asks for.
pub open spec fn asks_for(
    request: Request,
    task: Task,
    desk: DeskModel,
    scripts: ScriptsModel,
    details: Seq<WindowDetails>,
) -> bool {
    match request {
        Request::ListWindows => task matches Task::Answer(Response::Windows { windows })
            && info_views(windows@) == listing(desk, details, WORKSPACE_COUNT as int),
        Request::Focus { window } => if desk.holds(window) {
            task == Task::Focus(window)
        } else {
            complains(task, "no window with id "@ + decimal(window.0 as nat) + ""@)
        },
        Request::ReloadConfig => task == Task::Reload,
        Request::Subscribe => task == Task::Answer(Response::Done),
        Request::Quit => task == Task::Quit,
        Request::ListScripts => task matches Task::Answer(Response::Scripts { scripts: infos })
            && infos@.len() == scripts.list.len() && forall|i: int|
            0 <= i < infos@.len() ==> shows(#[trigger] infos@[i], scripts.list[i]),
        Request::RunScript { name, mode } => match place_named(scripts.list, name@, 0) {
            Some(i) => task == (Task::Run { index: i as usize, mode }),
            None => complains(task, unknown_script(name@)),
        },
        Request::StopScript { name } => match place_named(scripts.list, name@, 0) {
            Some(i) => task == (Task::Stop { index: i as usize }),
            None => complains(task, unknown_script(name@)),
        },
        Request::ScriptOutput { name, tail } => match place_named(scripts.list, name@, 0) {
            Some(i) => task matches Task::Answer(
                Response::ScriptOutput { name: at, lines, running },
            ) && at@ == name@ && running == (scripts.list[i].run is Some) && line_views(lines@)
                == if scripts.list[i].output.lines.len() > tail {
                scripts.list[i].output.lines.skip(scripts.list[i].output.lines.len() - tail)
            } else {
                scripts.list[i].output.lines
            },
            None => complains(task, unknown_script(name@)),
        },
        Request::Spawn { argv, placement } => if argv@.len() == 0 {
            complains(task, "spawn needs a command"@)
        } else {
            task matches Task::Spawn { argv: command, placement: place } && views(command@)
                == views(argv@) && place == placement
        },
    }
}

/// Decides what a request asks for.
pub fn handle_ipc_request(
    request: Request,
    desk: &Desk,
    scripts: &Scripts,
    details: &Vec<WindowDetails>,
) -> (r: Task)
    requires
        desk@.wf(),
    ensures
        asks_for(request, r, desk@, scripts@, details@),
{
    match request {
        Request::ListWindows => Task::Answer(
            Response::Windows { windows: window_list(desk, details) },
        ),
        Request::Focus { window } => {
            if desk.holds(window) {
                Task::Focus(window)
            } else {
                let number = number_text(window.0);
                Task::Answer(
                    Response::Error {
                        message: concat3("no window with id ", number.as_str(), ""),
                    },
                )
            }
        },
        Request::ReloadConfig => Task::Reload,
        Request::Subscribe => Task::Answer(Response::Done),
        Request::Quit => Task::Quit,
        Request::ListScripts => Task::Answer(
            Response::Scripts { scripts: scripts.script_infos() },
        ),
        Request::RunScript { name, mode } => match scripts.script_index(name.as_str()) {
            Some(index) => Task::Run { index, mode },
            None => Task::Answer(no_such_script(name.as_str())),
        },
        Request::StopScript { name } => match scripts.script_index(name.as_str()) {
            Some(index) => Task::Stop { index },
            None => Task::Answer(no_such_script(name.as_str())),
        },
        Request::ScriptOutput { name, tail } => match scripts.script_index(name.as_str()) {
            Some(index) => {
                let (lines, running) = scripts.script_output(index, tail);
                Task::Answer(Response::ScriptOutput { name, lines, running })
            },
            None => Task::Answer(no_such_script(name.as_str())),
        },
        Request::Spawn { argv, placement } => {
            if argv.len() == 0 {
                Task::Answer(Response::Error { message: copied("spawn needs a command") })
            } else {
                Task::Spawn { argv, placement }
            }
        },
    }
}

/// The answer once a program or a script was started, or could not be.
pub fn started(outcome: Result<u32, String>) -> (r: Response)
    ensures
        match outcome {
            Ok(pid) => r == (Response::Spawned { pid }),
            Err(why) => r matches Response::Error { message } && message@ == why@,
        },
{
    match outcome {
        Ok(pid) => Response::Spawned { pid },
        Err(message) => Response::Error { message },
    }
}

/// The answer once something was done, or could not be.
pub fn done(outcome: Result<(), String>) -> (r: Response)
    ensures
        match outcome {
            Ok(()) => r == Response::Done,
            Err(why) => r matches Response::Error { message } && message@ == why@,
        },
{
    match outcome {
        Ok(()) => Response::Done,
        Err(message) => Response::Error { message },
    }
}

/// A listing has one entry for each window of each workspace.
pub proof fn every_window_is_listed(
    desk: DeskModel,
    details: Seq<WindowDetails>,
    index: int,
    k: int,
    n: int,
)
    requires
        desk.wf(),
        0 <= index < n <= WORKSPACE_COUNT,
        0 <= k < root_ids(desk.workspaces[index]).len(),
    ensures
        listing(desk, details, n).contains(
            listed(desk, details, root_ids(desk.workspaces[index])[k], index),
        ),
    decreases n,
{
    let all = listing(desk, details, n);
    let before = listing(desk, details, n - 1);
    let last = workspace_list(desk, details, n - 1);
    let wanted = listed(desk, details, root_ids(desk.workspaces[index])[k], index);
    if index == n - 1 {
        assert(last[k] == wanted);
        assert(all[before.len() + k] == wanted);
    } else {
        every_window_is_listed(desk, details, index, k, n - 1);
        let j = choose|j: int| 0 <= j < before.len() && before[j] == wanted;
        assert(all[j] == wanted);
    }
}

/// True when an entry of the list tells of a window on a workspace: its number, the number of
/// the workspace, whether it is focused, and what is known of it.
pub open spec fn tells_of(
    desk: DeskModel,
    details: Seq<WindowDetails>,
    info: InfoModel,
    index: int,
) -> bool {
    &&& desk.is_on(index, info.id)
    &&& info.workspace == index + 1
    &&& info.focused <==> desk.focus == Some(info.id)
    &&& (forall|i: int| 0 <= i < details.len() ==> (#[trigger] details[i]).window != info.id)
        ==> info.app_id is None && info.title is None
    &&& forall|i: int|
        0 <= i < details.len() && (#[trigger] details[i]).window == info.id && (forall|j: int|
            0 <= j < i ==> (#[trigger] details[j]).window != info.id) ==> info.app_id == opt_view(
            details[i].app_id,
        ) && info.title == opt_view(details[i].title)
}

proof fn details_are_found(details: Seq<WindowDetails>, window: WindowId, from: int)
    requires
        0 <= from <= details.len(),
    ensures
        match details_place(details, window, from) {
            Some(i) => {
                &&& from <= i < details.len()
                &&& details[i].window == window
                &&& forall|j: int| from <= j < i ==> (#[trigger] details[j]).window != window
            },
            None => forall|j: int|
                from <= j < details.len() ==> (#[trigger] details[j]).window != window,
        },
    decreases details.len() - from,
{
    if from < details.len() {
        details_are_found(details, window, from + 1);
    }
}

/// The list tells of windows that there are, workspace by workspace: entry `k` tells of a window
/// on its workspace, and those of a workspace stand before those of the next.
pub proof fn the_list_goes_by_workspace(
    desk: DeskModel,
    details: Seq<WindowDetails>,
    n: int,
    k: int,
    m: int,
)
    requires
        desk.wf(),
        0 <= n <= 9,
        0 <= k <= m < listing(desk, details, n).len(),
    ensures
        1 <= listing(desk, details, n)[k].workspace <= n,
        tells_of(
            desk,
            details,
            listing(desk, details, n)[k],
            listing(desk, details, n)[k].workspace - 1,
        ),
        listing(desk, details, n)[k].workspace <= listing(desk, details, n)[m].workspace,
    decreases n,
{
    if n > 0 {
        let before = listing(desk, details, n - 1);
        let here = workspace_list(desk, details, n - 1);
        if m < before.len() {
            the_list_goes_by_workspace(desk, details, n - 1, k, m);
        } else if k < before.len() {
            the_list_goes_by_workspace(desk, details, n - 1, k, k);
        } else {
            let ids = root_ids(desk.workspaces[n - 1]);
            let window = ids[k - before.len()];
            assert(here[k - before.len()] == listed(desk, details, window, n - 1));
            assert(desk.workspaces[n - 1] matches Some(node) ==> node.wf());
            crate::layout::laws::ids_name_each_window_once(desk.workspaces[n - 1]->0);
            assert(ids.contains(window));
            assert(desk.is_on(n - 1, window));
            details_are_found(details, window, 0);
        }
    }
}

/// The answer with a script's output holds its newest lines, as many as were asked for where there
/// are so many, in their order.
pub proof fn the_newest_output_is_answered(
    name: String,
    tail: usize,
    task: Task,
    desk: DeskModel,
    scripts: ScriptsModel,
    details: Seq<WindowDetails>,
    i: int,
    k: int,
)
    requires
        asks_for(Request::ScriptOutput { name, tail }, task, desk, scripts, details),
        place_named(scripts.list, name@, 0) == Some(i),
        0 <= k < scripts.list[i].output.lines.len(),
    ensures
        task matches Task::Answer(Response::ScriptOutput { name: at, lines, running }) && {
            let all = scripts.list[i].output.lines;
            let shown = line_views(lines@);
            &&& at@ == name@
            &&& running <==> scripts.list[i].run is Some
            &&& shown.len() == if all.len() < tail {
                all.len() as int
            } else {
                tail as int
            }
            &&& all.len() - k <= tail ==> shown[shown.len() - (all.len() - k)] == all[k]
        },
{
}

/// Each request is done for what it is: only the one for quitting quits and only the one for
/// reloading reloads; a window is focused only if there is one of that number; a script is run or
/// stopped only under the name it was asked for by; and a program is started with the words and
/// in the place that were asked for. What cannot be done is answered with an error.
pub proof fn requests_are_done_for_what_they_are(
    request: Request,
    task: Task,
    desk: DeskModel,
    scripts: ScriptsModel,
    details: Seq<WindowDetails>,
    window: WindowId,
)
    requires
        asks_for(request, task, desk, scripts, details),
        scripts.list.len() <= usize::MAX,
    ensures
        task is Quit <==> request is Quit,
        task is Reload <==> request is ReloadConfig,
        task == Task::Focus(window) <==> request == (Request::Focus { window }) && desk.holds(
            window,
        ),
        request == (Request::Focus { window }) && !desk.holds(window) ==> (task matches
            Task::Answer(Response::Error { .. })),
        task matches Task::Run { index, mode } ==> (request matches Request::RunScript {
            name,
            mode: asked,
        } && index < scripts.list.len() && scripts.list[index as int].found.name == name@ && mode
            == asked),
        task matches Task::Stop { index } ==> (request matches Request::StopScript { name }
            && index < scripts.list.len() && scripts.list[index as int].found.name == name@),
        task matches Task::Spawn { argv, placement } ==> (request matches Request::Spawn {
            argv: words,
            placement: place,
        } && words@.len() > 0 && views(argv@) == views(words@) && placement == place),
        request matches Request::Spawn { argv, .. } ==> (argv@.len() == 0 ==> (task matches
            Task::Answer(Response::Error { .. }))),
{
    match request {
        Request::RunScript { name, .. } => crate::scripts::list::scripts_are_found_by_name(
            scripts.list,
            name@,
            0,
        ),
        Request::StopScript { name } => crate::scripts::list::scripts_are_found_by_name(
            scripts.list,
            name@,
            0,
        ),
        _ => {},
    }
}

/// Errors say what was wrong: the number of the window that is not there, the name of the script
/// that is not there, or that a command was left out.
pub proof fn errors_say_what_was_wrong(
    request: Request,
    message: String,
    desk: DeskModel,
    scripts: ScriptsModel,
    details: Seq<WindowDetails>,
)
    requires
        asks_for(
            request,
            Task::Answer(Response::Error { message }),
            desk,
            scripts,
            details,
        ),
    ensures
        match request {
            Request::Focus { window } => !desk.holds(window) && message@ == "no window with id "@
                + decimal(window.0 as nat) + ""@,
            Request::RunScript { name, .. } => message@ == unknown_script(name@),
            Request::StopScript { name } => message@ == unknown_script(name@),
            Request::ScriptOutput { name, .. } => message@ == unknown_script(name@),
            Request::Spawn { argv, .. } => argv@.len() == 0 && message@ == "spawn needs a command"@,
            _ => false,
        },
{
}

} // verus!
