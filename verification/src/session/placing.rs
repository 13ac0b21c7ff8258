//! Where new windows go: beside the launcher, beside whoever asked, or where they were promised.

use crate::config::paths::str_view;
use crate::config::values::ConfigValues;
use crate::ipc::{side_name, Placement as AskedPlacement, Side, WindowId};
use crate::layout::geometry::Direction;
use crate::layout::effects::a_window_stands_beside_its_anchor;
use crate::layout::tree::{
    inserted, laid_out, layout_fits, plain_options, root_has, Node, Placement,
};
use crate::session::desk::Desk;
use crate::session::input::WORKSPACE_COUNT;
use crate::session::pending::{
    match_pending, meta_views, pending_match, MetaModel, PendingKind, PendingMeta,
    PendingPlacement, PLACEMENT_TIMEOUT,
};
use crate::text::{copied_opt, opt_view, same};
use vstd::prelude::*;

verus! {

/// The app id by which the launcher identifies itself.
pub const LAUNCHER_APP_ID: &'static str = "tessera.launcher";

/// The direction of a side.
pub open spec fn towards(side: Side) -> Direction {
    match side {
        Side::Left => Direction::Left,
        Side::Right => Direction::Right,
        Side::Above => Direction::Up,
        Side::Below => Direction::Down,
    }
}

impl From<Side> for Direction {
    fn from(side: Side) -> (r: Self) {
        match side {
            Side::Left => Direction::Left,
            Side::Right => Direction::Right,
            Side::Above => Direction::Up,
            Side::Below => Direction::Down,
        }
    }
}

impl vstd::std_specs::convert::FromSpecImpl<Side> for Direction {
    open spec fn obeys_from_spec() -> bool {
        true
    }

    open spec fn from_spec(side: Side) -> Direction {
        towards(side)
    }
}

/// The side that the settings name; left where they name none.
pub open spec fn launcher_side_of(values: ConfigValues) -> Side {
    let name = values.text_at("launcher.side"@);
    if name == side_name(Side::Right) {
        Side::Right
    } else if name == side_name(Side::Above) {
        Side::Above
    } else if name == side_name(Side::Below) {
        Side::Below
    } else {
        Side::Left
    }
}

/// Which side of the focused window the launcher opens on.
pub fn launcher_side(values: &ConfigValues) -> (r: Side)
    ensures
        r == launcher_side_of(*values),
{
    let name = values.text("launcher.side");
    proof {
        crate::ipc::side_names_differ(Side::Left, Side::Right);
        crate::ipc::side_names_differ(Side::Left, Side::Above);
        crate::ipc::side_names_differ(Side::Left, Side::Below);
        crate::ipc::side_names_differ(Side::Right, Side::Above);
        crate::ipc::side_names_differ(Side::Right, Side::Below);
        crate::ipc::side_names_differ(Side::Above, Side::Below);
    }
    match Side::from_name(name.as_str()) {
        Some(side) => side,
        None => {
            proof {
                assert(name@ != side_name(Side::Right));
                assert(name@ != side_name(Side::Above));
                assert(name@ != side_name(Side::Below));
            }
            Side::Left
        },
    }
}

/// Terminals beside the launcher go on its other side, keeping it at its edge.
pub fn terminal_side(values: &ConfigValues) -> (r: Side)
    ensures
        r == launcher_side_of(*values).facing(),
{
    launcher_side(values).opposite()
}

/// A percentage as a share in millionths, between nothing and everything.
pub open spec fn share_of(percent: int) -> int {
    if percent < 0 {
        0
    } else if percent > 100 {
        1_000_000
    } else {
        percent * 10_000
    }
}

/// A terminal's share of the launcher's tile, in millionths.
pub fn beside_share(values: &ConfigValues) -> (r: i32)
    ensures
        r == share_of(values.integer_at("launcher.beside_share"@)),
{
    let percent: i64 = values.integer("launcher.beside_share");
    if percent < 0 {
        0
    } else if percent > 100 {
        1_000_000
    } else {
        percent as i32 * 10_000
    }
}

/// Where a terminal opened without a caller goes.
pub open spec fn beside_launcher(values: ConfigValues, launcher: Option<WindowId>) -> PendingKind {
    match launcher {
        Some(anchor) => PendingKind::Beside {
            anchor,
            side: towards(launcher_side_of(values).facing()),
            ratio: share_of(values.integer_at("launcher.beside_share"@)) as i32,
        },
        None => PendingKind::Auto,
    }
}

/// Where a terminal opened without a caller goes: beside the launcher at its configured share
/// when the launcher is open on this workspace, otherwise tiled the usual way.
pub fn beside_launcher_or_auto(values: &ConfigValues, launcher: Option<WindowId>) -> (r:
    PendingKind)
    ensures
        r == beside_launcher(*values, launcher),
{
    match launcher {
        Some(anchor) => PendingKind::Beside {
            anchor,
            side: Direction::from(terminal_side(values)),
            ratio: beside_share(values),
        },
        None => PendingKind::Auto,
    }
}

/// Where the launcher goes when it opens beside a window.
pub open spec fn launcher_beside(values: ConfigValues, focus: Option<WindowId>) -> PendingKind {
    match focus {
        Some(anchor) => PendingKind::Beside {
            anchor,
            side: towards(launcher_side_of(values)),
            ratio: (1_000_000 - share_of(values.integer_at("launcher.beside_share"@))) as i32,
        },
        None => PendingKind::Auto,
    }
}

/// Where the launcher goes when it opens: on its configured side of the focused window, taking
/// what the terminal share leaves, so that opening the launcher next to a terminal gives the same
/// split as opening a terminal next to the launcher. With nothing focused it is tiled the usual
/// way.
pub fn launcher_placement(desk: &Desk, values: &ConfigValues) -> (r: PendingKind)
    requires
        desk@.wf(),
    ensures
        r == launcher_beside(*values, desk@.focus),
{
    match desk.focus() {
        Some(anchor) => PendingKind::Beside {
            anchor,
            side: Direction::from(launcher_side(values)),
            ratio: 1_000_000 - beside_share(values),
        },
        None => PendingKind::Auto,
    }
}

/// Opening the launcher beside a terminal and opening a terminal beside the launcher give the
/// same split: the two sit on opposite sides, and their shares make up the whole.
pub proof fn launcher_and_terminal_share_a_tile(
    values: ConfigValues,
    terminal: WindowId,
    launcher: WindowId,
)
    ensures
        match (
            launcher_beside(values, Some(terminal)),
            beside_launcher(values, Some(launcher)),
        ) {
            (
                PendingKind::Beside { side: a, ratio: x, .. },
                PendingKind::Beside { side: b, ratio: y, .. },
            ) => a != b && a.spec_axis() == b.spec_axis() && x + y == 1_000_000,
            _ => false,
        },
{
}

/// A window and the app id that it set.
#[derive(Debug, PartialEq, Eq)]
pub struct WindowApp {
    pub window: WindowId,
    pub app_id: Option<String>,
}

/// The first of `apps[from..]` that is the launcher.
pub open spec fn launcher_among(apps: Seq<WindowApp>, from: int) -> Option<WindowId>
    decreases apps.len() - from,
{
    if from < 0 || from >= apps.len() {
        None
    } else if opt_view(apps[from].app_id) == Some(LAUNCHER_APP_ID@) {
        Some(apps[from].window)
    } else {
        launcher_among(apps, from + 1)
    }
}

/// Tells whether an app id is the launcher's.
pub fn is_launcher(app_id: &Option<String>) -> (r: bool)
    ensures
        r == (opt_view(*app_id) == Some(LAUNCHER_APP_ID@)),
{
    match app_id {
        Some(id) => same(id.as_str(), LAUNCHER_APP_ID),
        None => false,
    }
}

/// The launcher's window among those on screen.
pub fn launcher_window(apps: &Vec<WindowApp>) -> (r: Option<WindowId>)
    ensures
        r == launcher_among(apps@, 0),
{
    let mut i: usize = 0;
    while i < apps.len()
        invariant
            i <= apps@.len(),
            launcher_among(apps@, 0) == launcher_among(apps@, i as int),
        decreases apps@.len() - i,
    {
        if is_launcher(&apps[i].app_id) {
            return Some(apps[i].window);
        }
        i = i + 1;
    }
    None
}

/// What the launcher's key does.
#[derive(Debug, Clone, Copy, PartialEq, Eq, Structural)]
pub enum Toggle {
    /// Focus the launcher, which is open on this workspace.
    Focus(WindowId),
    /// Start the launcher, whose window goes here.
    Open(PendingKind),
}

/// Focuses the launcher if it is open on this workspace, otherwise starts it.
pub fn toggle_launcher(desk: &Desk, values: &ConfigValues, apps: &Vec<WindowApp>) -> (r: Toggle)
    requires
        desk@.wf(),
    ensures
        r == (match launcher_among(apps@, 0) {
            Some(window) => Toggle::Focus(window),
            None => Toggle::Open(launcher_beside(*values, desk@.focus)),
        }),
{
    match launcher_window(apps) {
        Some(window) => Toggle::Focus(window),
        None => Toggle::Open(launcher_placement(desk, values)),
    }
}

/// A window and the process behind it.
#[derive(Debug, Clone, Copy, PartialEq, Eq, Structural)]
pub struct WindowOwner {
    pub window: WindowId,
    pub pid: Option<u32>,
}

/// The first of `owners[from..]` whose process this is.
pub open spec fn exact_owner(owners: Seq<WindowOwner>, pid: u32, from: int) -> Option<WindowId>
    decreases owners.len() - from,
{
    if from < 0 || from >= owners.len() {
        None
    } else if owners[from].pid == Some(pid) {
        Some(owners[from].window)
    } else {
        exact_owner(owners, pid, from + 1)
    }
}

/// True when `r` is the first of `owners[from..]` of whose process this is a descendant, as far
/// as `descends` tells.
pub open spec fn ancestor_owner<F: Fn(u32, u32) -> bool>(
    descends: F,
    owners: Seq<WindowOwner>,
    pid: u32,
    from: int,
    r: Option<WindowId>,
) -> bool
    decreases owners.len() - from,
{
    if from < 0 || from >= owners.len() {
        r is None
    } else {
        match owners[from].pid {
            None => ancestor_owner(descends, owners, pid, from + 1, r),
            Some(owner) => {
                ||| call_ensures(descends, (pid, owner), true) && r == Some(owners[from].window)
                ||| call_ensures(descends, (pid, owner), false) && ancestor_owner(
                    descends,
                    owners,
                    pid,
                    from + 1,
                    r,
                )
            },
        }
    }
}

/// The window of a process among those on screen.
///
/// A caller may be a child of the window that it should anchor on: a script run from a terminal
/// asks for a tile beside that terminal. So an exact match is tried first, then ancestry.
pub fn window_of_process<F: Fn(u32, u32) -> bool>(
    owners: &Vec<WindowOwner>,
    pid: u32,
    is_descendant: F,
) -> (r: Option<WindowId>)
    requires
        forall|child: u32, ancestor: u32| call_requires(is_descendant, (child, ancestor)),
    ensures
        exact_owner(owners@, pid, 0) is Some ==> r == exact_owner(owners@, pid, 0),
        exact_owner(owners@, pid, 0) is None ==> ancestor_owner(
            is_descendant,
            owners@,
            pid,
            0,
            r,
        ),
{
    let mut i: usize = 0;
    while i < owners.len()
        invariant
            i <= owners@.len(),
            exact_owner(owners@, pid, 0) == exact_owner(owners@, pid, i as int),
        decreases owners@.len() - i,
    {
        if let Some(owner) = owners[i].pid {
            if owner == pid {
                return Some(owners[i].window);
            }
        }
        i = i + 1;
    }
    i = 0;
    while i < owners.len()
        invariant
            i <= owners@.len(),
            exact_owner(owners@, pid, 0) is None,
            forall|child: u32, ancestor: u32| call_requires(is_descendant, (child, ancestor)),
            forall|r: Option<WindowId>|
                ancestor_owner(is_descendant, owners@, pid, i as int, r)
                    ==> #[trigger] ancestor_owner(is_descendant, owners@, pid, 0, r),
        decreases owners@.len() - i,
    {
        if let Some(owner) = owners[i].pid {
            if is_descendant(pid, owner) {
                assert(ancestor_owner(
                    is_descendant,
                    owners@,
                    pid,
                    i as int,
                    Some(owners@[i as int].window),
                ));
                return Some(owners[i].window);
            }
        }
        proof {
            assert forall|r: Option<WindowId>|
                ancestor_owner(is_descendant, owners@, pid, i + 1, r) implies #[trigger]
            ancestor_owner(is_descendant, owners@, pid, 0, r) by {
                assert(ancestor_owner(is_descendant, owners@, pid, i as int, r));
            }
        }
        i = i + 1;
    }
    assert(ancestor_owner(is_descendant, owners@, pid, i as int, None));
    None
}

/// The workspace that a number stands for: from one to nine, with numbers outside taken as the
/// nearest.
pub open spec fn workspace_numbered(number: int) -> int {
    if number < 1 {
        0
    } else if number > WORKSPACE_COUNT {
        WORKSPACE_COUNT - 1
    } else {
        number - 1
    }
}

/// What was asked for, in terms of windows, where the asker's window is known if it has one.
pub open spec fn resolved(placement: AskedPlacement, caller: Option<WindowId>) -> PendingKind {
    match placement {
        AskedPlacement::Auto => PendingKind::Auto,
        AskedPlacement::Workspace { number } => PendingKind::Workspace(
            workspace_numbered(number as int) as usize,
        ),
        AskedPlacement::BesideCaller { side, ratio } => match caller {
            Some(anchor) => PendingKind::Beside { anchor, side: towards(side), ratio },
            None => PendingKind::Auto,
        },
    }
}

/// Turns what was asked for into terms of windows. The asker never names a window of its own.
pub fn resolve_placement(placement: AskedPlacement, caller: Option<WindowId>) -> (r: PendingKind)
    ensures
        r == resolved(placement, caller),
{
    match placement {
        AskedPlacement::Auto => PendingKind::Auto,
        AskedPlacement::Workspace { number } => {
            let index: usize = if number < 1 {
                0
            } else if number as usize > WORKSPACE_COUNT {
                WORKSPACE_COUNT - 1
            } else {
                number as usize - 1
            };
            PendingKind::Workspace(index)
        },
        AskedPlacement::BesideCaller { side, ratio } => match caller {
            Some(anchor) => PendingKind::Beside { anchor, side: Direction::from(side), ratio },
            None => PendingKind::Auto,
        },
    }
}

/// A spawn that is still waited for.
pub struct PendingModel {
    pub meta: MetaModel,
    pub kind: PendingKind,
}

impl View for PendingPlacement {
    type V = PendingModel;

    open spec fn view(&self) -> PendingModel {
        PendingModel {
            meta: MetaModel {
                pid: self.pid,
                token: opt_view(self.token),
                deadline: self.deadline,
            },
            kind: self.kind,
        }
    }
}

/// What spawns hold.
pub open spec fn pending_views(pending: Seq<PendingPlacement>) -> Seq<PendingModel> {
    Seq::new(pending.len(), |i: int| pending[i]@)
}

/// What matching looks at.
pub open spec fn metas_of(pending: Seq<PendingModel>) -> Seq<MetaModel> {
    Seq::new(pending.len(), |i: int| pending[i].meta)
}

/// Those of the first `n` spawns that have not expired.
pub open spec fn still_live(pending: Seq<PendingModel>, now: u64, n: int) -> Seq<PendingModel>
    decreases n,
{
    if n <= 0 {
        Seq::empty()
    } else {
        let before = still_live(pending, now, n - 1);
        if pending[n - 1].meta.live(now) {
            before.push(pending[n - 1])
        } else {
            before
        }
    }
}

/// Where a window goes that was promised a place: split beside another, as long as that is still
/// on screen; or on a workspace.
pub open spec fn promised(kind: PendingKind, shown: Option<Node>) -> (Placement, Option<usize>) {
    match kind {
        PendingKind::Auto => (Placement::Auto, None),
        PendingKind::Beside { anchor, side, ratio } => if root_has(shown, anchor) {
            (Placement::Beside { anchor, side, ratio }, None)
        } else {
            (Placement::Auto, None)
        },
        PendingKind::Workspace(index) => (Placement::Auto, Some(index)),
    }
}

/// True when `r` is where a new window goes and `after` are the spawns that are still waited
/// for, where the window belongs to the spawn at `at`.
pub open spec fn place_taken(
    live: Seq<PendingModel>,
    shown: Option<Node>,
    at: Option<int>,
    after: Seq<PendingModel>,
    r: (Placement, Option<usize>),
) -> bool {
    match at {
        None => r == (Placement::Auto, None::<usize>) && after == live,
        Some(i) => 0 <= i < live.len() && r == promised(live[i].kind, shown) && after
            == live.remove(i),
    }
}

/// The spawns that are still waited for.
#[derive(Debug)]
pub struct Waiting {
    pending: Vec<PendingPlacement>,
}

impl View for Waiting {
    type V = Seq<PendingModel>;

    closed spec fn view(&self) -> Seq<PendingModel> {
        pending_views(self.pending@)
    }
}

impl Waiting {
    /// Nothing is waited for yet.
    pub fn new() -> (r: Self)
        ensures
            r@ == Seq::<PendingModel>::empty(),
    {
        let r = Waiting { pending: Vec::new() };
        assert(r@ =~= Seq::empty());
        r
    }

    /// Remembers where the window of a program that was just started should go.
    pub fn remember(&mut self, pid: u32, token: Option<String>, kind: PendingKind, now: u64)
        requires
            now + PLACEMENT_TIMEOUT <= u64::MAX,
        ensures
            final(self)@ == old(self)@.push(
                PendingModel {
                    meta: MetaModel {
                        pid,
                        token: opt_view(token),
                        deadline: (now + PLACEMENT_TIMEOUT) as u64,
                    },
                    kind,
                },
            ),
    {
        let ghost before = self.pending@;
        let entry = PendingPlacement { pid, token, kind, deadline: now + PLACEMENT_TIMEOUT };
        let ghost model = entry@;
        self.pending.push(entry);
        assert(self@ =~= pending_views(before).push(model));
    }

    fn drop_expired(&mut self, now: u64)
        ensures
            final(self)@ == still_live(old(self)@, now, old(self)@.len() as int),
    {
        let ghost all = self@;
        let mut rest: Vec<PendingPlacement> = Vec::new();
        std::mem::swap(&mut rest, &mut self.pending);
        let mut live: Vec<PendingPlacement> = Vec::new();
        proof {
            assert(pending_views(rest@) =~= all);
            assert(all.skip(0) =~= all);
            assert(pending_views(live@) =~= Seq::empty());
        }
        let ghost mut done: int = 0;
        while rest.len() > 0
            invariant
                0 <= done <= all.len(),
                pending_views(rest@) == all.skip(done),
                pending_views(live@) == still_live(all, now, done),
            decreases rest@.len(),
        {
            let ghost before = rest@;
            let entry = rest.remove(0);
            proof {
                let listed = pending_views(before);
                assert(listed.len() == all.len() - done);
                assert(listed[0] == all.skip(done)[0]);
                assert(entry@ == all[done]);
                assert forall|k: int| 0 <= k < rest@.len() implies pending_views(rest@)[k]
                    == all.skip(done + 1)[k] by {
                    assert(rest@[k] == before[k + 1]);
                    assert(listed[k + 1] == all.skip(done)[k + 1]);
                }
                assert(pending_views(rest@) =~= all.skip(done + 1));
                done = done + 1;
            }
            if entry.deadline > now {
                let ghost kept = live@;
                let ghost model = entry@;
                live.push(entry);
                assert(pending_views(live@) =~= pending_views(kept).push(model));
            }
        }
        self.pending = live;
    }

    /// Picks the place that a newly mapped window was promised, if any, and drops spawns that
    /// never produced a window.
    pub fn take_placement_for<F: Fn(u32, u32) -> bool>(
        &mut self,
        desk: &Desk,
        pid: Option<u32>,
        token: Option<&str>,
        now: u64,
        is_descendant: F,
    ) -> (r: (Placement, Option<usize>))
        requires
            desk@.wf(),
            forall|child: u32, ancestor: u32| call_requires(is_descendant, (child, ancestor)),
        ensures
            exists|at: Option<int>|
                #![trigger place_taken(
                    still_live(old(self)@, now, old(self)@.len() as int),
                    desk@.shown(),
                    at,
                    final(self)@,
                    r,
                )]
                pending_match(
                    is_descendant,
                    metas_of(still_live(old(self)@, now, old(self)@.len() as int)),
                    pid,
                    str_view(token),
                    now,
                    at,
                ) && place_taken(
                    still_live(old(self)@, now, old(self)@.len() as int),
                    desk@.shown(),
                    at,
                    final(self)@,
                    r,
                ),
            r.0 matches Placement::Beside { anchor, .. } ==> root_has(desk@.shown(), anchor),
    {
        self.drop_expired(now);
        let ghost live = self@;
        let mut metas: Vec<PendingMeta> = Vec::new();
        let mut i: usize = 0;
        while i < self.pending.len()
            invariant
                i <= self.pending@.len(),
                self@ == live,
                metas@.len() == i,
                forall|j: int| 0 <= j < i ==> (#[trigger] metas@[j])@ == live[j].meta,
            decreases self.pending@.len() - i,
        {
            let entry = &self.pending[i];
            assert(live[i as int] == entry@);
            metas.push(
                PendingMeta {
                    pid: entry.pid,
                    token: copied_opt(&entry.token),
                    deadline: entry.deadline,
                },
            );
            i = i + 1;
        }
        assert(meta_views(metas@) =~= metas_of(live));
        let at = match_pending(&metas, pid, token, now, is_descendant);
        match at {
            None => {
                let r = (Placement::Auto, None);
                assert(place_taken(live, desk@.shown(), None, self@, r));
                r
            },
            Some(index) => {
                let ghost before = self.pending@;
                let entry = self.pending.remove(index);
                proof {
                    assert(self@ =~= live.remove(index as int));
                    assert(entry@ == live[index as int]);
                }
                let r = match entry.kind {
                    PendingKind::Auto => (Placement::Auto, None),
                    PendingKind::Beside { anchor, side, ratio } => {
                        // The anchor may have closed while the window was waited for.
                        if desk.is_shown(anchor) {
                            (Placement::Beside { anchor, side, ratio }, None)
                        } else {
                            (Placement::Auto, None)
                        }
                    },
                    PendingKind::Workspace(index) => (Placement::Auto, Some(index)),
                };
                assert(place_taken(live, desk@.shown(), Some(index as int), self@, r));
                r
            },
        }
    }
}

/// A program that asks for a place beside its own window gets it on that side: the new tile and
/// the caller's share what was the caller's tile, the new one on the left, on the right, above or
/// below as it was asked.
pub proof fn callers_get_the_side_they_ask_for(
    node: Node,
    id: WindowId,
    caller: WindowId,
    side: Side,
    ratio: i32,
    focused: Option<WindowId>,
    area: crate::layout::geometry::Rect,
) -> (r: (int, int, int))
    requires
        node.wf(),
        node.has(caller),
        !node.has(id),
        area.w >= 0,
        area.h >= 0,
        layout_fits(Some(node), area, plain_options()),
        ({
            let kind = resolved(AskedPlacement::BesideCaller { side, ratio }, Some(caller));
            layout_fits(
                inserted(Some(node), id, promised(kind, Some(node)).0, focused, area),
                area,
                plain_options(),
            )
        }),
    ensures
        ({
            let kind = resolved(AskedPlacement::BesideCaller { side, ratio }, Some(caller));
            let place = promised(kind, Some(node)).0;
            let before = laid_out(Some(node), area, plain_options());
            let after = laid_out(
                inserted(Some(node), id, place, focused, area),
                area,
                plain_options(),
            );
            let (k, old_place, new_place) = r;
            let t = before[k].1;
            let kept = after[old_place].1;
            let new = after[new_place].1;
            &&& promised(kind, Some(node)).1 is None
            &&& before[k].0 == caller
            &&& after[old_place].0 == caller
            &&& after[new_place].0 == id
            &&& match side {
                Side::Left => new.x == t.x && new.x + new.w == kept.x && kept.w + new.w == t.w,
                Side::Right => kept.x == t.x && kept.x + kept.w == new.x && kept.w + new.w == t.w,
                Side::Above => new.y == t.y && new.y + new.h == kept.y && kept.h + new.h == t.h,
                Side::Below => kept.y == t.y && kept.y + kept.h == new.y && kept.h + new.h == t.h,
            }
        }),
{
    a_window_stands_beside_its_anchor(
        node,
        id,
        caller,
        towards(side),
        ratio,
        focused,
        area,
    )
}

/// A caller without a window gets the usual place; so does one whose window is not on screen
/// when its new window opens.
pub proof fn lost_callers_get_the_usual_place(
    side: Side,
    ratio: i32,
    anchor: WindowId,
    shown: Option<Node>,
)
    requires
        !root_has(shown, anchor),
    ensures
        ({
            let beside = AskedPlacement::BesideCaller { side, ratio };
            &&& promised(resolved(beside, None), shown) == promised(
                resolved(AskedPlacement::Auto, None),
                shown,
            )
            &&& promised(resolved(beside, Some(anchor)), shown) == promised(
                resolved(AskedPlacement::Auto, Some(anchor)),
                shown,
            )
        }),
{
}

/// Workspaces are asked for by the number on their key; a number beyond either end means the one
/// at that end.
pub proof fn workspaces_go_by_their_number(
    number: u8,
    caller: Option<WindowId>,
    shown: Option<Node>,
)
    ensures
        ({
            let (place, index) = promised(
                resolved(AskedPlacement::Workspace { number }, caller),
                shown,
            );
            &&& place == Placement::Auto
            &&& index is Some
            &&& 1 <= number <= 9 ==> index->0 + 1 == number
            &&& number > 9 ==> index->0 == 8
            &&& number == 0 ==> index->0 == 0
        }),
{
}

/// The share of a percentage: as many hundredths of the whole, at least nothing and at most
/// everything.
pub proof fn shares_are_hundredths(percent: int)
    ensures
        0 <= share_of(percent) <= 1_000_000,
        0 <= percent <= 100 ==> 100 * share_of(percent) == 1_000_000 * percent,
        percent > 100 ==> share_of(percent) == 1_000_000,
        percent < 0 ==> share_of(percent) == 0,
{
}

/// The launcher stands on the side that is set, and a terminal on the other one, with the share
/// that is set.
pub proof fn terminals_face_the_launcher(values: ConfigValues, launcher: WindowId)
    ensures
        ({
            let name = values.text_at("launcher.side"@);
            let percent = values.integer_at("launcher.beside_share"@);
            let kind = beside_launcher(values, Some(launcher));
            &&& kind matches PendingKind::Beside { anchor, side, ratio } && {
                &&& anchor == launcher
                &&& side == if name == "right"@ {
                    Direction::Left
                } else if name == "above"@ {
                    Direction::Down
                } else if name == "below"@ {
                    Direction::Up
                } else {
                    Direction::Right
                }
                &&& 0 <= percent <= 100 ==> 100 * ratio == 1_000_000 * percent
            }
            &&& beside_launcher(values, None) == PendingKind::Auto
        }),
{
    crate::ipc::side_names_differ(Side::Right, Side::Above);
    crate::ipc::side_names_differ(Side::Right, Side::Below);
    crate::ipc::side_names_differ(Side::Above, Side::Below);
}

/// Spawns whose time is up are dropped, and the others stay in their order.
pub proof fn waiting_spawns_stay_in_order(pending: Seq<PendingModel>, now: u64)
    ensures
        still_live(pending, now, pending.len() as int) == pending.filter(
            |spawn: PendingModel| spawn.meta.deadline > now,
        ),
{
    live_so_far(pending, now, pending.len() as int);
    assert(pending.take(pending.len() as int) =~= pending);
}

proof fn live_so_far(pending: Seq<PendingModel>, now: u64, n: int)
    requires
        0 <= n <= pending.len(),
    ensures
        still_live(pending, now, n) == pending.take(n).filter(
            |spawn: PendingModel| spawn.meta.deadline > now,
        ),
    decreases n,
{
    reveal(Seq::filter);
    if n > 0 {
        live_so_far(pending, now, n - 1);
        assert(pending.take(n).drop_last() =~= pending.take(n - 1));
        assert(pending.take(n).last() == pending[n - 1]);
    }
}

/// The launcher is the first window on screen with its app id.
pub proof fn the_launcher_is_the_first_of_its_name(apps: Seq<WindowApp>, from: int)
    requires
        0 <= from <= apps.len(),
    ensures
        match launcher_among(apps, from) {
            None => forall|i: int|
                from <= i < apps.len() ==> opt_view((#[trigger] apps[i]).app_id) != Some(
                    "tessera.launcher"@,
                ),
            Some(window) => exists|i: int|
                from <= i < apps.len() && (#[trigger] apps[i]).window == window && opt_view(
                    apps[i].app_id,
                ) == Some("tessera.launcher"@) && forall|j: int|
                    from <= j < i ==> opt_view((#[trigger] apps[j]).app_id) != Some(
                        "tessera.launcher"@,
                    ),
        },
    decreases apps.len() - from,
{
    if from < apps.len() {
        the_launcher_is_the_first_of_its_name(apps, from + 1);
        if opt_view(apps[from].app_id) != Some("tessera.launcher"@) {
            if let Some(window) = launcher_among(apps, from + 1) {
                let i = choose|i: int|
                    from + 1 <= i < apps.len() && (#[trigger] apps[i]).window == window
                        && opt_view(apps[i].app_id) == Some("tessera.launcher"@) && forall|j: int|
                        from + 1 <= j < i ==> opt_view((#[trigger] apps[j]).app_id) != Some(
                            "tessera.launcher"@,
                        );
                assert(apps[i].window == window);
            }
        } else {
            assert(apps[from].window == launcher_among(apps, from)->0);
        }
    }
}

/// The window of a process is the first that belongs to the process itself, if one does.
pub proof fn a_process_owns_its_first_window(owners: Seq<WindowOwner>, pid: u32, from: int)
    requires
        0 <= from <= owners.len(),
    ensures
        match exact_owner(owners, pid, from) {
            None => forall|i: int|
                from <= i < owners.len() ==> (#[trigger] owners[i]).pid != Some(pid),
            Some(window) => exists|i: int|
                from <= i < owners.len() && (#[trigger] owners[i]).window == window
                    && owners[i].pid == Some(pid) && forall|j: int|
                    from <= j < i ==> (#[trigger] owners[j]).pid != Some(pid),
        },
    decreases owners.len() - from,
{
    if from < owners.len() {
        a_process_owns_its_first_window(owners, pid, from + 1);
        if owners[from].pid != Some(pid) {
            if let Some(window) = exact_owner(owners, pid, from + 1) {
                let i = choose|i: int|
                    from + 1 <= i < owners.len() && (#[trigger] owners[i]).window == window
                        && owners[i].pid == Some(pid) && forall|j: int|
                        from + 1 <= j < i ==> (#[trigger] owners[j]).pid != Some(pid);
                assert(owners[i].window == window);
            }
        } else {
            assert(owners[from].window == exact_owner(owners, pid, from)->0);
        }
    }
}

/// Else it is the first whose process it comes from.
pub proof fn else_the_window_it_comes_from<F: Fn(u32, u32) -> bool>(
    descends: F,
    comes_from: spec_fn(u32, u32) -> bool,
    owners: Seq<WindowOwner>,
    pid: u32,
    from: int,
    r: Option<WindowId>,
)
    requires
        0 <= from <= owners.len(),
        ancestor_owner(descends, owners, pid, from, r),
        forall|child: u32, ancestor: u32, answer: bool| #[trigger]
            call_ensures(descends, (child, ancestor), answer) ==> answer == comes_from(
                child,
                ancestor,
            ),
    ensures
        match r {
            None => forall|i: int|
                from <= i < owners.len() && (#[trigger] owners[i]).pid is Some ==> !comes_from(
                    pid,
                    owners[i].pid->0,
                ),
            Some(window) => exists|i: int|
                from <= i < owners.len() && (#[trigger] owners[i]).window == window
                    && owners[i].pid is Some && comes_from(pid, owners[i].pid->0) && forall|j: int|
                    from <= j < i && (#[trigger] owners[j]).pid is Some ==> !comes_from(
                        pid,
                        owners[j].pid->0,
                    ),
        },
    decreases owners.len() - from,
{
    if from < owners.len() {
        if owners[from].pid is Some && call_ensures(
            descends,
            (pid, owners[from].pid->0),
            true,
        ) && r == Some(owners[from].window) {
            assert(owners[from].window == r->0);
        } else {
            else_the_window_it_comes_from(descends, comes_from, owners, pid, from + 1, r);
            if let Some(window) = r {
                let i = choose|i: int|
                    from + 1 <= i < owners.len() && (#[trigger] owners[i]).window == window
                        && owners[i].pid is Some && comes_from(pid, owners[i].pid->0) && forall|
                        j: int,
                    |
                        from + 1 <= j < i && (#[trigger] owners[j]).pid is Some ==> !comes_from(
                            pid,
                            owners[j].pid->0,
                        );
                assert(owners[i].window == window);
            }
        }
    }
}

/// A window that was waited for gets what its spawn was promised, and that spawn is waited for no
/// longer; all others still are, in their order. A window that nobody waited for is tiled the
/// usual way.
pub proof fn promises_are_kept_once(
    live: Seq<PendingModel>,
    shown: Option<Node>,
    at: Option<int>,
    after: Seq<PendingModel>,
    r: (Placement, Option<usize>),
    k: int,
)
    requires
        place_taken(live, shown, at, after, r),
        0 <= k < live.len(),
    ensures
        at matches Some(i) ==> {
            &&& after.len() + 1 == live.len()
            &&& k < i ==> after[k] == live[k]
            &&& k > i ==> after[k - 1] == live[k]
            &&& k == i ==> r == promised(live[k].kind, shown)
        },
        at is None ==> after == live && r.0 == Placement::Auto && r.1 is None,
{
}

} // verus!
