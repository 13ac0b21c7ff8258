//! What key bindings do: to the windows, and to the world outside.

use crate::config::values::ConfigValues;
use crate::ipc::{Placement as AskedPlacement, WindowId};
use crate::layout::geometry::Rect;
use crate::layout::tree::{root_ids, Node};
use crate::session::desk::{
    no_change, sending_moves_one_window, Change, ChangeModel, Desk, DeskModel,
};
use crate::session::effects::{has_someone, is_nearest, lies_to, tiles_of};
use crate::session::input::{Action, RESIZE_STEP};
use crate::session::pending::PendingKind;
use crate::session::placing::{
    beside_launcher, beside_launcher_or_auto, beside_share, launcher_among, launcher_beside,
    launcher_side_of, launcher_window, resolve_placement, resolved, share_of, terminal_side,
    toggle_launcher, Toggle, WindowApp,
};
use vstd::prelude::*;

verus! {

/// What is left to be done for a binding.
#[derive(Debug, PartialEq, Eq)]
pub enum Effect {
    /// End the session.
    Quit,
    /// Ask this window, if any, to close.
    Close(Option<WindowId>),
    /// Start the terminal, whose window goes here.
    Terminal(PendingKind),
    /// Focus or start the launcher.
    Launcher(Toggle),
    /// Open or close the application overlay.
    AppsOverlay,
    /// Bring the screen up to date with the windows.
    Show(Change),
    /// Run the script at this place in the script list.
    Script(usize),
    /// Switch to this virtual terminal.
    SwitchVt(i32),
}

/// The windows after a binding was carried out.
pub open spec fn acted(desk: DeskModel, action: Action, area: Rect) -> DeskModel {
    match action {
        Action::Focus(dir) => match desk.beside_focus(dir, area) {
            Some(next) => desk.focused(Some(next)),
            None => desk,
        },
        Action::Swap(dir) => desk.swapped(dir, area),
        Action::Resize(dir) => desk.resized(dir, RESIZE_STEP as int),
        Action::Workspace(index) => desk.switched(index as int),
        Action::MoveToWorkspace(index) => desk.focus_sent(index as int, area),
        _ => desk,
    }
}

/// What a binding changes on screen.
pub open spec fn change_of(desk: DeskModel, action: Action, area: Rect) -> ChangeModel {
    match action {
        Action::Focus(dir) => ChangeModel {
            refocus: desk.beside_focus(dir, area) is Some,
            ..no_change()
        },
        Action::Swap(dir) => ChangeModel {
            relayout: desk.beside_focus(dir, area) is Some,
            ..no_change()
        },
        Action::Resize(dir) => ChangeModel {
            relayout: desk.edge_moved(dir, RESIZE_STEP as int) is Some,
            ..no_change()
        },
        Action::Workspace(index) => if desk.can_switch(index as int) {
            ChangeModel { hidden: root_ids(desk.shown()), relayout: true, refocus: true }
        } else {
            no_change()
        },
        Action::MoveToWorkspace(index) => if desk.focus is Some && desk.can_switch(index as int) {
            ChangeModel { hidden: seq![desk.focus->0], relayout: true, refocus: true }
        } else {
            no_change()
        },
        _ => no_change(),
    }
}

/// True when an effect is that of a binding.
pub open spec fn is_effect(
    effect: Effect,
    desk: DeskModel,
    action: Action,
    values: ConfigValues,
    apps: Seq<WindowApp>,
    area: Rect,
) -> bool {
    match action {
        Action::Quit => effect == Effect::Quit,
        Action::CloseWindow => effect == Effect::Close(desk.focus),
        Action::SpawnTerminal => effect == Effect::Terminal(
            beside_launcher(values, launcher_among(apps, 0)),
        ),
        Action::ToggleLauncher => effect == Effect::Launcher(
            match launcher_among(apps, 0) {
                Some(window) => Toggle::Focus(window),
                None => Toggle::Open(launcher_beside(values, desk.focus)),
            },
        ),
        Action::ToggleAppsOverlay => effect == Effect::AppsOverlay,
        Action::RunScript(index) => effect == Effect::Script(index),
        Action::SwitchVt(vt) => effect == Effect::SwitchVt(vt),
        _ => effect matches Effect::Show(change) && change@ == change_of(desk, action, area),
    }
}

/// Carries out a binding on the windows, and tells what is left to be done. `apps` are the
/// windows on screen.
pub fn run_action(
    action: Action,
    desk: &mut Desk,
    values: &ConfigValues,
    apps: &Vec<WindowApp>,
    area: Rect,
) -> (r: Effect)
    requires
        old(desk)@.wf(),
        old(desk)@.fits(area),
    ensures
        final(desk)@ == acted(old(desk)@, action, area),
        final(desk)@.wf(),
        is_effect(r, old(desk)@, action, *values, apps@, area),
{
    match action {
        Action::Quit => Effect::Quit,
        Action::CloseWindow => Effect::Close(desk.focus()),
        Action::SpawnTerminal => Effect::Terminal(
            beside_launcher_or_auto(values, launcher_window(apps)),
        ),
        Action::ToggleLauncher => Effect::Launcher(toggle_launcher(desk, values, apps)),
        Action::ToggleAppsOverlay => Effect::AppsOverlay,
        Action::Focus(dir) => Effect::Show(desk.focus_direction(dir, area)),
        Action::Swap(dir) => Effect::Show(desk.swap_direction(dir, area)),
        Action::Resize(dir) => Effect::Show(desk.resize_direction(dir, RESIZE_STEP)),
        Action::Workspace(index) => Effect::Show(desk.switch_workspace(index)),
        Action::MoveToWorkspace(index) => Effect::Show(
            desk.move_focused_to_workspace(index, area),
        ),
        Action::RunScript(index) => Effect::Script(index),
        Action::SwitchVt(vt) => Effect::SwitchVt(vt),
    }
}

/// Where the terminal of a script goes.
pub open spec fn script_place_of(
    values: ConfigValues,
    launcher: Option<WindowId>,
    asked: bool,
    caller: Option<WindowId>,
) -> PendingKind {
    if asked {
        resolved(
            AskedPlacement::BesideCaller {
                side: launcher_side_of(values).facing(),
                ratio: share_of(values.integer_at("launcher.beside_share"@)) as i32,
            },
            caller,
        )
    } else {
        beside_launcher(values, launcher)
    }
}

/// Where the terminal of a script goes: beside the window of whoever `asked` for it, if that
/// has one; and where a terminal goes that is opened with a key, if nobody asked.
pub fn script_place(
    values: &ConfigValues,
    launcher: Option<WindowId>,
    asked: bool,
    caller: Option<WindowId>,
) -> (r: PendingKind)
    ensures
        r == script_place_of(*values, launcher, asked, caller),
{
    if asked {
        let placement = AskedPlacement::BesideCaller {
            side: terminal_side(values),
            ratio: beside_share(values),
        };
        resolve_placement(placement, caller)
    } else {
        beside_launcher_or_auto(values, launcher)
    }
}

/// A binding moves windows only between the workspace on screen and the one that it names: the
/// windows of every other workspace stay where they are.
pub proof fn bindings_leave_other_workspaces_alone(
    desk: DeskModel,
    action: Action,
    area: Rect,
    i: int,
    window: WindowId,
)
    requires
        desk.wf(),
        0 <= i < desk.workspaces.len(),
        i != desk.active,
        action matches Action::MoveToWorkspace(index) ==> index != i,
    ensures
        acted(desk, action, area).is_on(i, window) == desk.is_on(i, window),
{
    if let Action::MoveToWorkspace(index) = action {
        if desk.focus is Some && desk.can_switch(index as int) {
            sending_moves_one_window(desk, desk.focus->0, index as int, area, i, window);
        }
    }
}

/// The screen is told of everything that a binding changes: of every window that is no longer
/// shown, and of no other; to place the tiles again when they are others; and to hand the focus
/// over when another window has it.
pub proof fn the_screen_is_told_of_every_change(
    desk: DeskModel,
    action: Action,
    area: Rect,
    window: WindowId,
)
    requires
        desk.wf(),
    ensures
        ({
            let after = acted(desk, action, area);
            let change = change_of(desk, action, area);
            &&& change.hidden.contains(window) <==> desk.is_on(desk.active, window) && !after.is_on(
                after.active,
                window,
            )
            &&& !change.relayout ==> after.shown() == desk.shown() && after.active == desk.active
            &&& !change.refocus ==> after.focus == desk.focus && after.active == desk.active
        }),
{
    let after = acted(desk, action, area);
    let change = change_of(desk, action, area);
    assert(desk.workspaces[desk.active] matches Some(node) ==> node.wf());
    match action {
        Action::Swap(dir) => {
            if desk.beside_focus(dir, area) is Some {
                let node = desk.shown()->0;
                let other = desk.beside_focus(dir, area)->0;
                crate::layout::laws::ids_name_each_window_once(node);
                crate::session::effects::neighbours_are_shown(desk, dir, area);
                crate::layout::tree::exchange_has(node, desk.focus->0, other, window);
                assert(desk.is_on(desk.active, desk.focus->0));
            }
        },
        Action::Resize(dir) => {
            if desk.edge_moved(dir, RESIZE_STEP as int) is Some {
                crate::layout::tree::nudge_has(
                    desk.shown()->0,
                    desk.focus->0,
                    dir,
                    RESIZE_STEP as int,
                    window,
                );
            }
        },
        Action::Workspace(index) => {
            if desk.can_switch(index as int) {
                if let Some(node) = desk.shown() {
                    crate::layout::laws::ids_name_each_window_once(node);
                }
                if desk.is_on(desk.active, window) && after.is_on(after.active, window) {
                    assert(desk.is_on(index as int, window));
                }
                assert(root_ids(desk.shown()).contains(window) == desk.is_on(
                    desk.active,
                    window,
                ));
            }
        },
        Action::MoveToWorkspace(index) => {
            if desk.focus is Some && desk.can_switch(index as int) {
                assert(desk.is_on(desk.active, desk.focus->0));
                sending_moves_one_window(
                    desk,
                    desk.focus->0,
                    index as int,
                    area,
                    desk.active,
                    window,
                );
                assert(change.hidden[0] == desk.focus->0);
                if change.hidden.contains(window) {
                    assert(window == desk.focus->0);
                }
            }
        },
        _ => {},
    }
}

/// A script that opens beside its caller, and one that opens beside the launcher, stand on the
/// side that faces the launcher's and take the same share; without either it is tiled the usual
/// way.
pub proof fn scripts_open_where_terminals_do(values: ConfigValues, anchor: WindowId)
    ensures
        script_place_of(values, None, true, Some(anchor)) == script_place_of(
            values,
            Some(anchor),
            false,
            None,
        ),
        script_place_of(values, Some(anchor), true, None) == PendingKind::Auto,
        script_place_of(values, None, false, Some(anchor)) == PendingKind::Auto,
        script_place_of(values, Some(anchor), false, None) == beside_launcher(
            values,
            Some(anchor),
        ),
{
}

/// Bindings act in the direction of their key: the focus goes to a window nearest on that side, a
/// swap puts the focused window on that side of where it was, and the workspace of a number is
/// shown or gets the focused window.
pub proof fn bindings_act_in_their_direction(
    desk: DeskModel,
    dir: crate::layout::geometry::Direction,
    index: usize,
    area: Rect,
    i: int,
)
    requires
        desk.wf(),
        desk.focus is Some,
        index < 9,
        0 <= i < tiles_of(desk, area).len(),
        tiles_of(desk, area)[i].0 == desk.focus->0,
    ensures
        ({
            let before = tiles_of(desk, area);
            let moved = acted(desk, Action::Focus(dir), area);
            let swapped = acted(desk, Action::Swap(dir), area);
            let after = tiles_of(swapped, area);
            let f = desk.focus->0;
            &&& moved.workspaces == desk.workspaces && moved.active == desk.active
            &&& has_someone(before, i, dir) ==> moved.focus is Some && is_nearest(
                before,
                i,
                dir,
                moved.focus->0,
            )
            &&& !has_someone(before, i, dir) ==> moved == desk && swapped == desk
            &&& has_someone(before, i, dir) ==> exists|k: int|
                0 <= k < after.len() && (#[trigger] after[k]).0 == f && lies_to(
                    before[i].1,
                    after[k].1,
                    dir,
                )
            &&& acted(desk, Action::Workspace(index), area).active == index
            &&& acted(desk, Action::Workspace(index), area).workspaces == desk.workspaces
            &&& acted(desk, Action::MoveToWorkspace(index), area).is_on(index as int, f)
            &&& acted(desk, Action::MoveToWorkspace(index), area).active == desk.active
        }),
{
    let before = tiles_of(desk, area);
    let f = desk.focus->0;
    crate::session::effects::the_focus_moves_to_the_nearest(desk, dir, area, i);
    crate::session::effects::swapping_trades_with_the_nearest(desk, dir, area, i);
    let after = tiles_of(acted(desk, Action::Swap(dir), area), area);
    if let Some(next) = desk.beside_focus(dir, area) {
        let p = choose|p: int|
            0 <= p < before.len() && p != i && before[p].0 == next && #[trigger] lies_to(
                before[i].1,
                before[p].1,
                dir,
            );
        assert(lies_to(before[i].1, before[p].1, dir));
        let k = choose|k: int|
            {
                &&& 0 <= k < before.len() && k != i
                &&& #[trigger] is_nearest(before, i, dir, before[k].0)
                &&& after.len() == before.len()
                &&& after[k] == (before[i].0, before[k].1)
                &&& after[i] == (before[k].0, before[i].1)
            };
        let q = choose|q: int|
            0 <= q < before.len() && q != i && before[q].0 == before[k].0 && #[trigger] lies_to(
                before[i].1,
                before[q].1,
                dir,
            );
        let opts = crate::layout::tree::LayoutOptions { gaps: desk.opts.gaps, snap: None };
        crate::layout::laws::layout_has_a_tile_per_window(desk.shown(), area, opts);
        assert(desk.workspaces[desk.active] matches Some(node) ==> node.wf());
        crate::layout::laws::ids_name_each_window_once(desk.shown()->0);
        assert(before[q].0 == root_ids(desk.shown())[q]);
        assert(before[k].0 == root_ids(desk.shown())[k]);
        assert(q == k);
        assert(after[k].0 == f);
    }
    assert(desk.is_on(desk.active, f));
    if index != desk.active {
        sending_moves_one_window(desk, f, index as int, area, index as int, f);
    }
}

/// Resizing by a binding moves the closest edge by a twentieth of the split's length, to the
/// right or down for those keys and back for the others, within a tenth of either end.
pub proof fn resizing_moves_by_a_twentieth(
    desk: DeskModel,
    dir: crate::layout::geometry::Direction,
    area: Rect,
) -> (r: (i32, Node, Node))
    requires
        desk.wf(),
        desk.focus is Some,
    ensures
        ({
            let after = acted(desk, Action::Resize(dir), area);
            let node = desk.shown()->0;
            let (ratio, a, b) = r;
            let asked = if dir is Right || dir is Down {
                ratio + 50_000
            } else {
                ratio - 50_000
            };
            let edge = if asked < 100_000 {
                100_000
            } else if asked > 900_000 {
                900_000
            } else {
                asked
            };
            let axis = crate::layout::effects::edges_of(dir);
            &&& after.focus == desk.focus
            &&& !crate::layout::effects::has_edge(node, desk.focus->0, axis) ==> after == desk
            &&& crate::layout::effects::has_edge(node, desk.focus->0, axis) ==> {
                &&& after.shown() is Some
                &&& a.has(desk.focus->0) || b.has(desk.focus->0)
                &&& crate::layout::effects::differs_at(
                    node,
                    after.shown()->0,
                    Node::Split { axis, ratio, a: Box::new(a), b: Box::new(b) },
                    Node::Split { axis, ratio: edge as i32, a: Box::new(a), b: Box::new(b) },
                )
            }
        }),
{
    let node = desk.shown()->0;
    assert(desk.is_on(desk.active, desk.focus->0));
    assert(desk.workspaces[desk.active] matches Some(node) ==> node.wf());
    crate::layout::effects::the_closest_edge_moves(
        node,
        desk.focus->0,
        dir,
        RESIZE_STEP as int,
    )
}

/// Each binding has an effect of its own: only the one for quitting quits, only the one for
/// closing closes, and that the focused window; scripts and terminals go by their number; and
/// what moves windows only shows.
pub proof fn bindings_have_their_own_effect(
    effect: Effect,
    desk: DeskModel,
    action: Action,
    values: ConfigValues,
    apps: Seq<WindowApp>,
    area: Rect,
    index: usize,
    vt: i32,
)
    requires
        is_effect(effect, desk, action, values, apps, area),
    ensures
        effect is Quit <==> action is Quit,
        effect is Close <==> action is CloseWindow,
        effect == Effect::Close(desk.focus) <==> action is CloseWindow,
        effect is Terminal <==> action is SpawnTerminal,
        effect is Launcher <==> action is ToggleLauncher,
        effect is AppsOverlay <==> action is ToggleAppsOverlay,
        effect == Effect::Script(index) <==> action == Action::RunScript(index),
        effect == Effect::SwitchVt(vt) <==> action == Action::SwitchVt(vt),
        effect is Show <==> action is Focus || action is Swap || action is Resize || action
            is Workspace || action is MoveToWorkspace,
        effect matches Effect::Show(change) ==> change@ == change_of(desk, action, area),
{
}

/// The launcher is focused where it is open and opened where it is not, beside the focused window
/// on its own side.
pub proof fn the_launcher_opens_once(
    effect: Effect,
    desk: DeskModel,
    values: ConfigValues,
    apps: Seq<WindowApp>,
    area: Rect,
)
    requires
        is_effect(effect, desk, Action::ToggleLauncher, values, apps, area),
    ensures
        match launcher_among(apps, 0) {
            Some(window) => effect == Effect::Launcher(Toggle::Focus(window)),
            None => match desk.focus {
                None => effect == Effect::Launcher(Toggle::Open(PendingKind::Auto)),
                Some(focus) => effect matches Effect::Launcher(
                    Toggle::Open(PendingKind::Beside { anchor, .. }),
                ) && anchor == focus,
            },
        },
{
}

} // verus!
