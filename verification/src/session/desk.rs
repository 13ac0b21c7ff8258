//! The windows of a session: which workspace each is on, which is focused, and how that changes.

use crate::ipc::WindowId;
use crate::layout::geometry::{Axis, Direction, Rect};
use crate::layout::laws::{
    ids_name_each_window_once, insert_adds_one_window, remove_drops_one_window,
    screens_can_be_laid_out,
};
use crate::layout::tree::{
    auto_target, beside_ratio, exchange_has, ids_are_never_empty, inserted, laid_out, layout_fits,
    longer_side, neighbor_of, nudge_has, plain_tile, removed, root_has, root_ids, LayoutOptions,
    LayoutTree, Node, Placement, DEFAULT_RATIO,
};
use crate::session::input::WORKSPACE_COUNT;
use vstd::prelude::*;

verus! {

/// What the screen has to be told after a change.
#[derive(Debug, PartialEq, Eq)]
pub struct Change {
    /// Windows that are no longer shown.
    pub hidden: Vec<WindowId>,
    /// Whether the tiles have to be placed again.
    pub relayout: bool,
    /// Whether the focus has to be handed over again.
    pub refocus: bool,
}

/// What the screen has to be told after a change.
#[verifier::ext_equal]
pub struct ChangeModel {
    pub hidden: Seq<WindowId>,
    pub relayout: bool,
    pub refocus: bool,
}

impl View for Change {
    type V = ChangeModel;

    open spec fn view(&self) -> ChangeModel {
        ChangeModel { hidden: self.hidden@, relayout: self.relayout, refocus: self.refocus }
    }
}

/// Nothing to tell.
pub open spec fn no_change() -> ChangeModel {
    ChangeModel { hidden: Seq::empty(), relayout: false, refocus: false }
}

impl Change {
    fn nothing() -> (r: Self)
        ensures
            r@ == no_change(),
    {
        let r = Change { hidden: Vec::new(), relayout: false, refocus: false };
        assert(r@ =~= no_change());
        r
    }
}

/// The windows of a session.
#[verifier::ext_equal]
pub struct DeskModel {
    /// The tiling tree of each workspace.
    pub workspaces: Seq<Option<Node>>,
    /// The workspace on screen.
    pub active: int,
    /// Gaps and cell snapping.
    pub opts: LayoutOptions,
    /// No gaps when a workspace holds a single window.
    pub smart_gaps: bool,
    /// New windows take the focus.
    pub focus_new_windows: bool,
    /// The focused window, if any.
    pub focus: Option<WindowId>,
    /// The next number to hand out.
    pub next_id: int,
}

/// The first of the windows beside a window, looking right, left, down and up.
pub open spec fn first_neighbor(
    root: Option<Node>,
    window: WindowId,
    area: Rect,
    gaps: int,
) -> Option<WindowId> {
    let right = neighbor_of(root, window, Direction::Right, area, gaps);
    let left = neighbor_of(root, window, Direction::Left, area, gaps);
    let down = neighbor_of(root, window, Direction::Down, area, gaps);
    if right is Some {
        right
    } else if left is Some {
        left
    } else if down is Some {
        down
    } else {
        neighbor_of(root, window, Direction::Up, area, gaps)
    }
}

/// The first window of a workspace.
pub open spec fn first_window(root: Option<Node>) -> Option<WindowId> {
    if root_ids(root).len() > 0 {
        Some(root_ids(root)[0])
    } else {
        None
    }
}

/// True when the tiles of so many windows, with gaps between them, stay within what can be
/// counted.
pub open spec fn has_room(area: Rect, gaps: int, windows: int) -> bool {
    &&& 0 <= gaps
    &&& 2 * gaps <= i32::MAX
    &&& area.w >= 0
    &&& area.h >= 0
    &&& area.x + area.w + gaps * (windows + 1) <= i32::MAX
    &&& area.y + area.h + gaps * (windows + 1) <= i32::MAX
}

impl DeskModel {
    /// The tree on screen.
    pub open spec fn shown(self) -> Option<Node> {
        self.workspaces[self.active]
    }

    /// True when a window is on workspace `i`.
    pub open spec fn is_on(self, i: int, window: WindowId) -> bool {
        0 <= i < self.workspaces.len() && root_has(self.workspaces[i], window)
    }

    /// True when a window is on some workspace.
    pub open spec fn holds(self, window: WindowId) -> bool {
        exists|i: int| self.is_on(i, window)
    }

    /// There are as many workspaces as number keys, one of them on screen; no window is on two
    /// of them; every window has a number that was handed out; and the focused window is on
    /// screen.
    pub open spec fn wf(self) -> bool {
        &&& self.workspaces.len() == WORKSPACE_COUNT
        &&& 0 <= self.active < WORKSPACE_COUNT
        &&& forall|i: int|
            0 <= i < self.workspaces.len() ==> (#[trigger] self.workspaces[i] matches Some(node)
                ==> node.wf())
        &&& forall|i: int, j: int, window: WindowId| #[trigger]
            self.is_on(i, window) && #[trigger] self.is_on(j, window) ==> i == j
        &&& forall|i: int, window: WindowId| #[trigger]
            self.is_on(i, window) ==> window.0 < self.next_id
        &&& self.focus matches Some(window) ==> self.is_on(self.active, window)
        &&& 0 <= self.next_id
    }

    /// True when every workspace can be laid out in an area.
    pub open spec fn fits(self, area: Rect) -> bool {
        forall|i: int|
            0 <= i < self.workspaces.len() ==> has_room(
                area,
                self.opts.gaps as int,
                root_ids(#[trigger] self.workspaces[i]).len() as int,
            )
    }

    /// The options with which the workspace on screen is laid out.
    pub open spec fn shown_opts(self) -> LayoutOptions {
        if self.smart_gaps && root_ids(self.shown()).len() == 1 {
            LayoutOptions { gaps: 0, ..self.opts }
        } else {
            self.opts
        }
    }

    /// The same windows with another one focused.
    pub open spec fn focused(self, window: Option<WindowId>) -> DeskModel {
        DeskModel { focus: window, ..self }
    }

    /// The windows with another tree on screen.
    pub open spec fn with_shown(self, root: Option<Node>) -> DeskModel {
        DeskModel { workspaces: self.workspaces.update(self.active, root), ..self }
    }

    /// True when a window that was just mapped takes the focus. With nothing focused it always
    /// does, or the keyboard would go nowhere.
    pub open spec fn new_takes_focus(self) -> bool {
        self.focus_new_windows || self.focus is None
    }

    /// The windows after one was mapped.
    pub open spec fn mapped(self, window: WindowId, placement: Placement, area: Rect) -> DeskModel {
        let after = self.with_shown(inserted(self.shown(), window, placement, self.focus, area));
        if self.new_takes_focus() {
            after.focused(Some(window))
        } else {
            after
        }
    }

    /// The trees without a window.
    pub open spec fn trees_without(self, window: WindowId) -> Seq<Option<Node>> {
        Seq::new(
            self.workspaces.len(),
            |i: int|
                if root_has(self.workspaces[i], window) {
                    removed(self.workspaces[i], window)
                } else {
                    self.workspaces[i]
                },
        )
    }

    /// The window that takes the focus when the focused one goes: its nearest neighbour, else
    /// the first that is left.
    pub open spec fn heir(self, window: WindowId, area: Rect) -> Option<WindowId> {
        let beside = if root_has(self.shown(), window) {
            first_neighbor(self.shown(), window, area, self.opts.gaps as int)
        } else {
            None
        };
        if beside is Some {
            beside
        } else {
            first_window(self.trees_without(window)[self.active])
        }
    }

    /// The windows after one was unmapped.
    pub open spec fn unmapped(self, window: WindowId, area: Rect) -> DeskModel {
        let after = DeskModel { workspaces: self.trees_without(window), ..self };
        if self.focus == Some(window) {
            after.focused(self.heir(window, area))
        } else {
            after
        }
    }

    /// The window next to the focused one.
    pub open spec fn beside_focus(self, dir: Direction, area: Rect) -> Option<WindowId> {
        match self.focus {
            None => None,
            Some(window) => neighbor_of(
                self.shown(),
                window,
                dir,
                area,
                self.opts.gaps as int,
            ),
        }
    }

    /// The windows after the focused one traded places with its neighbour.
    pub open spec fn swapped(self, dir: Direction, area: Rect) -> DeskModel {
        match self.beside_focus(dir, area) {
            None => self,
            Some(other) => self.with_shown(
                Some(self.shown()->0.exchanged(self.focus->0, other)),
            ),
        }
    }

    /// The tree on screen after the edge nearest the focused window was moved, if it has one.
    pub open spec fn edge_moved(self, dir: Direction, step: int) -> Option<Node> {
        if self.focus is Some && self.shown() is Some {
            self.shown()->0.nudged(self.focus->0, dir, step)
        } else {
            None
        }
    }

    /// The windows after the edge nearest the focused window was moved.
    pub open spec fn resized(self, dir: Direction, step: int) -> DeskModel {
        match self.edge_moved(dir, step) {
            None => self,
            Some(node) => self.with_shown(Some(node)),
        }
    }

    /// True when another workspace can be shown.
    pub open spec fn can_switch(self, index: int) -> bool {
        0 <= index < self.workspaces.len() && index != self.active
    }

    /// The windows after another workspace was shown.
    pub open spec fn switched(self, index: int) -> DeskModel {
        if self.can_switch(index) {
            DeskModel { active: index, focus: first_window(self.workspaces[index]), ..self }
        } else {
            self
        }
    }

    /// The windows after one was sent to another workspace.
    pub open spec fn sent(self, window: WindowId, index: int, area: Rect) -> DeskModel {
        let after = self.unmapped(window, area);
        DeskModel {
            workspaces: after.workspaces.update(
                index,
                inserted(after.workspaces[index], window, Placement::Auto, None, area),
            ),
            ..after
        }
    }

    /// The windows after the focused one was sent to another workspace.
    pub open spec fn focus_sent(self, index: int, area: Rect) -> DeskModel {
        if self.focus is Some && self.can_switch(index) {
            self.sent(self.focus->0, index, area)
        } else {
            self
        }
    }

    /// The workspace of a window among `from..`, counting up.
    pub open spec fn workspace_of(self, window: WindowId, from: int) -> Option<int>
        decreases self.workspaces.len() - from,
    {
        if from < 0 || from >= self.workspaces.len() {
            None
        } else if root_has(self.workspaces[from], window) {
            Some(from)
        } else {
            self.workspace_of(window, from + 1)
        }
    }

    /// The windows after one was focused wherever it is.
    pub open spec fn focused_anywhere(self, window: WindowId) -> DeskModel {
        match self.workspace_of(window, 0) {
            Some(index) => self.switched(index).focused(Some(window)),
            None => self.focused(Some(window)),
        }
    }

    /// The windows after a new one opened, on the workspace that it was promised if there is
    /// one.
    pub open spec fn opened(
        self,
        placement: Placement,
        workspace: Option<usize>,
        area: Rect,
    ) -> DeskModel {
        let window = WindowId(self.next_id as u64);
        let numbered = DeskModel { next_id: self.next_id + 1, ..self };
        let shown = numbered.mapped(window, placement, area);
        match workspace {
            Some(index) => if shown.can_switch(index as int) {
                shown.sent(window, index as int, area)
            } else {
                shown
            },
            None => shown,
        }
    }
}

/// What trees hold.
pub open spec fn roots(trees: Seq<LayoutTree>) -> Seq<Option<Node>> {
    Seq::new(trees.len(), |i: int| trees[i]@)
}

/// The windows of a session.
#[derive(Debug)]
pub struct Desk {
    /// One tiling tree per workspace.
    workspaces: Vec<LayoutTree>,
    /// The workspace on screen.
    active_workspace: usize,
    /// Gaps and cell snapping used when a layout is applied.
    layout_opts: LayoutOptions,
    /// No gaps when a workspace holds a single window.
    smart_gaps: bool,
    /// New windows take the focus.
    focus_new_windows: bool,
    /// The focused window, if any: the one beside which new windows are tiled, and on which
    /// bindings act.
    focus: Option<WindowId>,
    /// The next number to hand out.
    next_window_id: u64,
}

impl View for Desk {
    type V = DeskModel;

    closed spec fn view(&self) -> DeskModel {
        DeskModel {
            workspaces: roots(self.workspaces@),
            active: self.active_workspace as int,
            opts: self.layout_opts,
            smart_gaps: self.smart_gaps,
            focus_new_windows: self.focus_new_windows,
            focus: self.focus,
            next_id: self.next_window_id as int,
        }
    }
}

/// The windows of a session that has just begun.
pub open spec fn empty_desk() -> DeskModel {
    DeskModel {
        workspaces: Seq::new(WORKSPACE_COUNT as nat, |i: int| None),
        active: 0,
        opts: LayoutOptions { gaps: 8, snap: None },
        smart_gaps: false,
        focus_new_windows: true,
        focus: None,
        next_id: 1,
    }
}

proof fn depth_below_count(node: Node)
    ensures
        node.depth() < node.ids().len(),
    decreases node,
{
    if let Node::Split { a, b, .. } = node {
        depth_below_count(*a);
        depth_below_count(*b);
    }
}

proof fn room_is_enough(root: Option<Node>, area: Rect, opts: LayoutOptions)
    requires
        has_room(area, opts.gaps as int, root_ids(root).len() as int),
    ensures
        layout_fits(root, area, opts),
{
    if let Some(node) = root {
        depth_below_count(node);
        let gap = opts.gaps as int;
        let d = node.depth() as int;
        let n = node.ids().len() as int;
        assert(0 <= gap * (d + 2) <= gap * (n + 1)) by (nonlinear_arith)
            requires
                0 <= gap,
                0 <= d < n,
        ;
    }
    screens_can_be_laid_out(root, area, opts);
}

proof fn less_gap_is_room(area: Rect, gaps: int, windows: int)
    requires
        has_room(area, gaps, windows),
        windows >= 0,
    ensures
        has_room(area, 0, windows),
{
    assert(gaps * (windows + 1) >= 0) by (nonlinear_arith)
        requires
            gaps >= 0,
            windows >= 0,
    ;
}

proof fn fewer_windows_fit(area: Rect, gaps: int, windows: int, fewer: int)
    requires
        has_room(area, gaps, windows),
        fewer <= windows,
    ensures
        has_room(area, gaps, fewer),
{
    assert(gaps * (fewer + 1) <= gaps * (windows + 1)) by (nonlinear_arith)
        requires
            gaps >= 0,
            fewer <= windows,
    ;
}

fn is_roomy(area: Rect, gaps: i32, windows: i128) -> (r: bool)
    requires
        0 <= windows <= 0x1_0000_0000_0000_0000,
    ensures
        r == has_room(area, gaps as int, windows as int),
{
    let gap: i128 = gaps as i128;
    assert(-0x8000_0000 * 0x1_0000_0000_0000_0001 <= gap * (windows + 1) <= 0x8000_0000
        * 0x1_0000_0000_0000_0001) by (nonlinear_arith)
        requires
            -0x8000_0000 <= gap <= 0x7fff_ffff,
            0 <= windows <= 0x1_0000_0000_0000_0000,
    ;
    let spread: i128 = gap * (windows + 1);
    let right: i128 = area.x as i128 + area.w as i128 + spread;
    let bottom: i128 = area.y as i128 + area.h as i128 + spread;
    0 <= gap && 2 * gap <= 0x7fff_ffff && area.w >= 0 && area.h >= 0 && right <= 0x7fff_ffff
        && bottom <= 0x7fff_ffff
}

impl Desk {
    /// The windows of a session that has just begun.
    pub fn new() -> (r: Self)
        ensures
            r@ == empty_desk(),
            r@.wf(),
    {
        let mut workspaces: Vec<LayoutTree> = Vec::new();
        let mut i: usize = 0;
        while i < WORKSPACE_COUNT
            invariant
                i <= WORKSPACE_COUNT,
                workspaces@.len() == i,
                forall|j: int| 0 <= j < i ==> (#[trigger] workspaces@[j])@ == None::<Node>,
            decreases WORKSPACE_COUNT - i,
        {
            workspaces.push(LayoutTree::new());
            i = i + 1;
        }
        let r = Desk {
            workspaces,
            active_workspace: 0,
            layout_opts: LayoutOptions { gaps: 8, snap: None },
            smart_gaps: false,
            focus_new_windows: true,
            focus: None,
            next_window_id: 1,
        };
        assert(r@ =~= empty_desk());
        r
    }

    /// Makes other settings the ones in effect.
    pub fn configure(&mut self, layout_opts: LayoutOptions, smart_gaps: bool, focus_new: bool)
        ensures
            final(self)@ == (DeskModel {
                opts: layout_opts,
                smart_gaps,
                focus_new_windows: focus_new,
                ..old(self)@
            }),
            old(self)@.wf() ==> final(self)@.wf(),
    {
        self.layout_opts = layout_opts;
        self.smart_gaps = smart_gaps;
        self.focus_new_windows = focus_new;
        proof {
            let before = old(self)@;
            let after = self@;
            assert forall|i: int, window: WindowId| #[trigger]
                after.is_on(i, window) == before.is_on(i, window) by {}
        }
    }

    /// The workspace on screen, counted from zero.
    pub fn active_workspace(&self) -> (r: usize)
        ensures
            r == self@.active,
    {
        self.active_workspace
    }

    /// The focused window, if any.
    pub fn focus(&self) -> (r: Option<WindowId>)
        ensures
            r == self@.focus,
    {
        self.focus
    }

    /// The windows on screen, in tiling order.
    pub fn shown(&self) -> (r: Vec<WindowId>)
        requires
            self@.wf(),
        ensures
            r@ == root_ids(self@.shown()),
    {
        self.workspaces[self.active_workspace].ids()
    }

    /// The windows of a workspace, in tiling order.
    pub fn windows_on(&self, index: usize) -> (r: Vec<WindowId>)
        requires
            index < self@.workspaces.len(),
        ensures
            r@ == root_ids(self@.workspaces[index as int]),
    {
        self.workspaces[index].ids()
    }

    /// Tells whether a window is on screen.
    pub fn is_shown(&self, window: WindowId) -> (r: bool)
        requires
            self@.wf(),
        ensures
            r == root_has(self@.shown(), window),
    {
        self.workspaces[self.active_workspace].contains(window)
    }

    /// Tells whether every workspace can be laid out in an area.
    pub fn has_room_in(&self, area: Rect) -> (r: bool)
        ensures
            r == self@.fits(area),
    {
        let mut i: usize = 0;
        while i < self.workspaces.len()
            invariant
                i <= self.workspaces@.len(),
                forall|j: int|
                    0 <= j < i ==> has_room(
                        area,
                        self@.opts.gaps as int,
                        root_ids(#[trigger] self@.workspaces[j]).len() as int,
                    ),
            decreases self.workspaces@.len() - i,
        {
            let windows: i128 = self.workspaces[i].len() as i128;
            assert(self@.workspaces[i as int] == self.workspaces@[i as int]@);
            if !is_roomy(area, self.layout_opts.gaps, windows) {
                return false;
            }
            i = i + 1;
        }
        true
    }

    /// Tells whether one more window can be opened in an area.
    pub fn can_open_in(&self, area: Rect) -> (r: bool)
        requires
            self@.wf(),
        ensures
            r == (self@.fits(area) && has_room(
                area,
                self@.opts.gaps as int,
                root_ids(self@.shown()).len() as int + 1,
            ) && self@.next_id < u64::MAX),
    {
        let windows: i128 = self.workspaces[self.active_workspace].len() as i128;
        assert(self@.shown() == self.workspaces@[self.active_workspace as int]@);
        self.next_window_id < u64::MAX && self.has_room_in(area) && is_roomy(
            area,
            self.layout_opts.gaps,
            windows + 1,
        )
    }

    /// The tile of every window on screen.
    pub fn layout(&self, area: Rect) -> (r: Vec<(WindowId, Rect)>)
        requires
            self@.wf(),
            self@.fits(area),
        ensures
            r@ == laid_out(self@.shown(), area, self@.shown_opts()),
    {
        let workspace = &self.workspaces[self.active_workspace];
        let mut opts = self.layout_opts;
        assert(self@.shown() == workspace@);
        if self.smart_gaps && workspace.len() == 1 {
            opts.gaps = 0;
            proof {
                less_gap_is_room(
                    area,
                    self@.opts.gaps as int,
                    root_ids(self@.workspaces[self@.active]).len() as int,
                );
            }
        }
        proof {
            room_is_enough(workspace@, area, opts);
        }
        workspace.layout(area, opts)
    }

    fn take_number(&mut self) -> (r: WindowId)
        requires
            old(self)@.next_id < u64::MAX,
        ensures
            final(self)@ == (DeskModel { next_id: old(self)@.next_id + 1, ..old(self)@ }),
            r.0 == old(self)@.next_id,
    {
        let id = WindowId(self.next_window_id);
        self.next_window_id = self.next_window_id + 1;
        id
    }

    /// Adds a window to the workspace on screen, and focuses it if new windows take the focus or
    /// nothing has it.
    fn map_window(&mut self, window: WindowId, placement: Placement, area: Rect) -> (r: Change)
        requires
            old(self)@.wf(),
            old(self)@.fits(area),
            !old(self)@.holds(window),
            window.0 < old(self)@.next_id,
            placement matches Placement::Beside { anchor, .. } ==> root_has(
                old(self)@.shown(),
                anchor,
            ),
        ensures
            final(self)@ == old(self)@.mapped(window, placement, area),
            final(self)@.wf(),
            r@ == (ChangeModel {
                hidden: Seq::empty(),
                relayout: true,
                refocus: old(self)@.new_takes_focus(),
            }),
    {
        let ghost before = self@;
        let active = self.active_workspace;
        let focus = self.focus;
        proof {
            assert(before.shown() == self.workspaces@[active as int]@);
            less_gap_is_room(
                area,
                before.opts.gaps as int,
                root_ids(before.workspaces[before.active]).len() as int,
            );
            room_is_enough(
                before.shown(),
                area,
                crate::layout::tree::plain_options(),
            );
        }
        self.workspaces[active].insert(window, placement, focus, area);
        let refocus = self.focus_new_windows || self.focus.is_none();
        if refocus {
            self.focus = Some(window);
        }
        proof {
            let after = before.mapped(window, placement, area);
            assert(self@.workspaces =~= after.workspaces);
            assert(self@ =~= after);
            assert forall|i: int, other: WindowId| #[trigger]
                after.is_on(i, other) == (before.is_on(i, other) || (i == before.active && other
                == window)) by {
                insert_adds_one_window(before.shown(), window, placement, focus, area, other);
            }
            assert(!before.is_on(before.active, window));
            assert(after.is_on(before.active, window));
            assert forall|i: int, j: int, other: WindowId| #[trigger]
                after.is_on(i, other) && #[trigger] after.is_on(j, other) implies i == j by {
                if other == window {
                    assert(!before.is_on(i, window) && !before.is_on(j, window));
                }
            }
            assert forall|i: int| 0 <= i < after.workspaces.len() implies (
            #[trigger] after.workspaces[i] matches Some(node) ==> node.wf()) by {
                assert(before.workspaces[i] matches Some(node) ==> node.wf());
            }
            if let Some(focused) = before.focus {
                assert(after.is_on(before.active, focused));
            }
        }
        let r = Change { hidden: Vec::new(), relayout: true, refocus };
        assert(r.hidden@ =~= Seq::empty());
        r
    }

    fn beside(&self, window: WindowId, area: Rect) -> (r: Option<WindowId>)
        requires
            self@.wf(),
            self@.fits(area),
        ensures
            r == first_neighbor(self@.shown(), window, area, self@.opts.gaps as int),
    {
        let workspace = &self.workspaces[self.active_workspace];
        let opts = self.layout_opts;
        proof {
            assert(self@.shown() == workspace@);
            assert(self@.workspaces[self@.active] == workspace@);
            room_is_enough(workspace@, area, (LayoutOptions { snap: None, ..opts }));
        }
        let right = workspace.neighbor(window, Direction::Right, area, opts);
        if right.is_some() {
            return right;
        }
        let left = workspace.neighbor(window, Direction::Left, area, opts);
        if left.is_some() {
            return left;
        }
        let down = workspace.neighbor(window, Direction::Down, area, opts);
        if down.is_some() {
            return down;
        }
        workspace.neighbor(window, Direction::Up, area, opts)
    }

    /// Removes a window from wherever it is, and focuses its nearest neighbour if it was
    /// focused.
    pub fn unmap_window(&mut self, window: WindowId, area: Rect) -> (r: Change)
        requires
            old(self)@.wf(),
            old(self)@.fits(area),
        ensures
            final(self)@ == old(self)@.unmapped(window, area),
            final(self)@.wf(),
            r@ == (ChangeModel {
                hidden: seq![window],
                relayout: true,
                refocus: old(self)@.focus == Some(window),
            }),
    {
        let ghost before = self@;
        let active = self.active_workspace;
        let next = if self.workspaces[active].contains(window) {
            self.beside(window, area)
        } else {
            None
        };
        let mut i: usize = 0;
        while i < self.workspaces.len()
            invariant
                i <= self.workspaces@.len(),
                before.wf(),
                self.workspaces@.len() == before.workspaces.len(),
                self@ == (DeskModel { workspaces: self@.workspaces, ..before }),
                self.active_workspace == active,
                forall|j: int|
                    0 <= j < self.workspaces@.len() ==> (#[trigger] self.workspaces@[j])@ == if j
                        < i {
                        before.trees_without(window)[j]
                    } else {
                        before.workspaces[j]
                    },
            decreases self.workspaces@.len() - i,
        {
            if self.workspaces[i].contains(window) {
                self.workspaces[i].remove(window);
            }
            i = i + 1;
        }
        proof {
            assert(self@.workspaces =~= before.trees_without(window));
        }
        let refocus = match self.focus {
            Some(focused) => focused == window,
            None => false,
        };
        if refocus {
            let heir = match next {
                Some(next) => Some(next),
                None => {
                    let left = self.workspaces[active].ids();
                    if left.len() > 0 {
                        Some(left[0])
                    } else {
                        None
                    }
                },
            };
            self.focus = heir;
        }
        proof {
            let after = before.unmapped(window, area);
            assert(self@ =~= after);
            unmapping_keeps_order(before, window, area);
        }
        let mut hidden: Vec<WindowId> = Vec::new();
        hidden.push(window);
        let r = Change { hidden, relayout: true, refocus };
        assert(r.hidden@ =~= seq![window]);
        r
    }

    /// A window has closed, on screen or on a hidden workspace: its sibling reclaims the space,
    /// and if it had the focus that moves to the nearest neighbour. A window that is on no
    /// workspace changes nothing.
    pub fn close_window(&mut self, window: WindowId, area: Rect) -> (r: Change)
        requires
            old(self)@.wf(),
            old(self)@.fits(area),
        ensures
            final(self)@.wf(),
            old(self)@.holds(window) ==> {
                &&& final(self)@ == old(self)@.unmapped(window, area)
                &&& r@ == (ChangeModel {
                    hidden: seq![window],
                    relayout: true,
                    refocus: old(self)@.focus == Some(window),
                })
            },
            !old(self)@.holds(window) ==> final(self)@ == old(self)@ && r@ == no_change(),
    {
        if self.holds(window) {
            self.unmap_window(window, area)
        } else {
            Change::nothing()
        }
    }

    /// Focuses a window on screen, or nothing.
    pub fn focus_window(&mut self, window: Option<WindowId>) -> (r: Change)
        requires
            old(self)@.wf(),
            window matches Some(id) ==> root_has(old(self)@.shown(), id),
        ensures
            final(self)@ == old(self)@.focused(window),
            final(self)@.wf(),
            r@ == (ChangeModel { refocus: true, ..no_change() }),
    {
        self.focus = window;
        proof {
            same_places(old(self)@, self@);
        }
        let r = Change { hidden: Vec::new(), relayout: false, refocus: true };
        assert(r.hidden@ =~= Seq::empty());
        r
    }

    /// Moves the focus to the neighbouring window.
    pub fn focus_direction(&mut self, dir: Direction, area: Rect) -> (r: Change)
        requires
            old(self)@.wf(),
            old(self)@.fits(area),
        ensures
            final(self)@ == (match old(self)@.beside_focus(dir, area) {
                Some(next) => old(self)@.focused(Some(next)),
                None => old(self)@,
            }),
            final(self)@.wf(),
            r@ == (ChangeModel {
                refocus: old(self)@.beside_focus(dir, area) is Some,
                ..no_change()
            }),
    {
        let ghost before = self@;
        let window = match self.focus {
            Some(window) => window,
            None => {
                return Change::nothing();
            },
        };
        let workspace = &self.workspaces[self.active_workspace];
        proof {
            assert(self@.workspaces[self@.active] == workspace@);
            room_is_enough(
                workspace@,
                area,
                (LayoutOptions { snap: None, ..self.layout_opts }),
            );
        }
        match workspace.neighbor(window, dir, area, self.layout_opts) {
            Some(next) => {
                proof {
                    neighbors_are_there(
                        before.shown(),
                        window,
                        dir,
                        area,
                        before.opts.gaps as int,
                    );
                }
                self.focus_window(Some(next))
            },
            None => Change::nothing(),
        }
    }

    /// Swaps the focused window with its neighbour.
    pub fn swap_direction(&mut self, dir: Direction, area: Rect) -> (r: Change)
        requires
            old(self)@.wf(),
            old(self)@.fits(area),
        ensures
            final(self)@ == old(self)@.swapped(dir, area),
            final(self)@.wf(),
            r@ == (ChangeModel {
                relayout: old(self)@.beside_focus(dir, area) is Some,
                ..no_change()
            }),
    {
        let ghost before = self@;
        let window = match self.focus {
            Some(window) => window,
            None => {
                return Change::nothing();
            },
        };
        let active = self.active_workspace;
        let opts = self.layout_opts;
        proof {
            assert(self@.workspaces[self@.active] == self.workspaces@[active as int]@);
            room_is_enough(
                self.workspaces@[active as int]@,
                area,
                (LayoutOptions { snap: None, ..opts }),
            );
        }
        let moved = self.workspaces[active].swap(window, dir, area, opts);
        proof {
            let after = before.swapped(dir, area);
            assert(self@.workspaces =~= after.workspaces);
            assert(self@ =~= after);
            if let Some(other) = before.beside_focus(dir, area) {
                neighbors_are_there(before.shown(), window, dir, area, before.opts.gaps as int);
                let node = before.shown()->0;
                assert forall|i: int, id: WindowId| #[trigger]
                    after.is_on(i, id) == before.is_on(i, id) by {
                    exchange_has(node, window, other, id);
                    assert(before.is_on(before.active, window));
                    assert(before.is_on(before.active, other));
                }
                assert forall|i: int| 0 <= i < after.workspaces.len() implies (
                #[trigger] after.workspaces[i] matches Some(node) ==> node.wf()) by {
                    assert(before.workspaces[i] matches Some(node) ==> node.wf());
                    assert(after.workspaces[i] == self.workspaces@[i]@);
                }
                assert(after.is_on(after.active, window));
            } else {
                assert(after == before);
            }
        }
        let r = Change { hidden: Vec::new(), relayout: moved, refocus: false };
        assert(r.hidden@ =~= Seq::empty());
        r
    }

    /// Moves the edge nearest the focused window.
    pub fn resize_direction(&mut self, dir: Direction, step: i32) -> (r: Change)
        requires
            old(self)@.wf(),
        ensures
            final(self)@ == old(self)@.resized(dir, step as int),
            final(self)@.wf(),
            r@ == (ChangeModel {
                relayout: old(self)@.edge_moved(dir, step as int) is Some,
                ..no_change()
            }),
    {
        let ghost before = self@;
        let window = match self.focus {
            Some(window) => window,
            None => {
                return Change::nothing();
            },
        };
        let active = self.active_workspace;
        proof {
            assert(before.workspaces[before.active] == self.workspaces@[active as int]@);
        }
        let moved = self.workspaces[active].resize(window, dir, step);
        proof {
            let after = before.resized(dir, step as int);
            assert(self@.workspaces =~= after.workspaces);
            assert(self@ =~= after);
            if before.edge_moved(dir, step as int) is Some {
                let node = before.shown()->0;
                assert forall|i: int, id: WindowId| #[trigger]
                    after.is_on(i, id) == before.is_on(i, id) by {
                    nudge_has(node, window, dir, step as int, id);
                }
                assert forall|i: int| 0 <= i < after.workspaces.len() implies (
                #[trigger] after.workspaces[i] matches Some(node) ==> node.wf()) by {
                    assert(before.workspaces[i] matches Some(node) ==> node.wf());
                    assert(after.workspaces[i] == self.workspaces@[i]@);
                }
                assert(before.is_on(before.active, window));
                assert(after.is_on(after.active, window));
            } else {
                assert(after == before);
            }
        }
        let r = Change { hidden: Vec::new(), relayout: moved, refocus: false };
        assert(r.hidden@ =~= Seq::empty());
        r
    }

    /// Shows another workspace, hiding the windows of the one on screen.
    pub fn switch_workspace(&mut self, index: usize) -> (r: Change)
        requires
            old(self)@.wf(),
        ensures
            final(self)@ == old(self)@.switched(index as int),
            final(self)@.wf(),
            r@ == (if old(self)@.can_switch(index as int) {
                ChangeModel {
                    hidden: root_ids(old(self)@.shown()),
                    relayout: true,
                    refocus: true,
                }
            } else {
                no_change()
            }),
    {
        let ghost before = self@;
        if index >= self.workspaces.len() || index == self.active_workspace {
            return Change::nothing();
        }
        let hidden = self.workspaces[self.active_workspace].ids();
        self.active_workspace = index;
        let left = self.workspaces[index].ids();
        self.focus = if left.len() > 0 {
            Some(left[0])
        } else {
            None
        };
        proof {
            let after = before.switched(index as int);
            assert(self@ =~= after);
            assert forall|i: int, id: WindowId| #[trigger]
                after.is_on(i, id) == before.is_on(i, id) by {}
            first_is_there(before.workspaces[index as int]);
        }
        let r = Change { hidden, relayout: true, refocus: true };
        assert(r@ =~= (ChangeModel {
            hidden: root_ids(before.shown()),
            relayout: true,
            refocus: true,
        }));
        r
    }

    /// Sends a window on screen to another workspace and stays put.
    fn send_window(&mut self, window: WindowId, index: usize, area: Rect) -> (r: Change)
        requires
            old(self)@.wf(),
            old(self)@.fits(area),
            old(self)@.can_switch(index as int),
            root_has(old(self)@.shown(), window),
        ensures
            final(self)@ == old(self)@.sent(window, index as int, area),
            final(self)@.wf(),
            final(self)@.is_on(index as int, window),
            r@ == (ChangeModel {
                hidden: seq![window],
                relayout: true,
                refocus: old(self)@.focus == Some(window),
            }),
    {
        let ghost before = self@;
        proof {
            assert(before.workspaces[0] == before.workspaces[0]);
            less_gap_is_room(
                area,
                before.opts.gaps as int,
                root_ids(before.workspaces[0]).len() as int,
            );
            assert(before.is_on(before.active, window));
        }
        let r = self.unmap_window(window, area);
        let ghost without = self@;
        proof {
            assert(without.workspaces[index as int] == self.workspaces@[index as int]@);
            room_is_enough(
                without.workspaces[index as int],
                area,
                crate::layout::tree::plain_options(),
            );
        }
        self.workspaces[index].insert(window, Placement::Auto, None, area);
        proof {
            let after = before.sent(window, index as int, area);
            assert(self@.workspaces =~= after.workspaces);
            assert(self@ =~= after);
            assert forall|i: int, other: WindowId| #[trigger]
                after.is_on(i, other) == (without.is_on(i, other) || (i == index && other
                == window)) by {
                insert_adds_one_window(
                    without.workspaces[index as int],
                    window,
                    Placement::Auto,
                    None,
                    area,
                    other,
                );
            }
            assert forall|i: int| !(#[trigger] without.is_on(i, window)) by {
                gone_everywhere(before, window, area, i);
            }
            assert forall|i: int, j: int, other: WindowId| #[trigger]
                after.is_on(i, other) && #[trigger] after.is_on(j, other) implies i == j by {
                if other == window {
                    assert(!without.is_on(i, window) && !without.is_on(j, window));
                }
            }
            assert forall|i: int| 0 <= i < after.workspaces.len() implies (
            #[trigger] after.workspaces[i] matches Some(node) ==> node.wf()) by {
                assert(without.workspaces[i] matches Some(node) ==> node.wf());
                assert(after.workspaces[i] == self.workspaces@[i]@);
            }
            if let Some(focused) = without.focus {
                assert(after.is_on(without.active, focused));
            }
        }
        r
    }

    /// Sends the focused window to another workspace and stays put.
    pub fn move_focused_to_workspace(&mut self, index: usize, area: Rect) -> (r: Change)
        requires
            old(self)@.wf(),
            old(self)@.fits(area),
        ensures
            final(self)@ == old(self)@.focus_sent(index as int, area),
            final(self)@.wf(),
            r@ == (if old(self)@.focus is Some && old(self)@.can_switch(index as int) {
                ChangeModel {
                    hidden: seq![old(self)@.focus->0],
                    relayout: true,
                    refocus: true,
                }
            } else {
                no_change()
            }),
    {
        let window = match self.focus {
            Some(window) => window,
            None => {
                return Change::nothing();
            },
        };
        if index >= self.workspaces.len() || index == self.active_workspace {
            return Change::nothing();
        }
        assert(self@.is_on(self@.active, window));
        self.send_window(window, index, area)
    }

    /// Opens a new window where it was promised a place: split beside another, on a workspace
    /// of its own, or tiled the usual way.
    pub fn open_window(
        &mut self,
        placement: Placement,
        workspace: Option<usize>,
        area: Rect,
    ) -> (r: (WindowId, Change))
        requires
            old(self)@.wf(),
            old(self)@.fits(area),
            old(self)@.next_id < u64::MAX,
            placement matches Placement::Beside { anchor, .. } ==> root_has(
                old(self)@.shown(),
                anchor,
            ),
            has_room(
                area,
                old(self)@.opts.gaps as int,
                root_ids(old(self)@.shown()).len() as int + 1,
            ),
        ensures
            r.0.0 == old(self)@.next_id,
            !old(self)@.holds(r.0),
            final(self)@ == old(self)@.opened(placement, workspace, area),
            final(self)@.wf(),
            final(self)@.holds(r.0),
            r.1@.relayout,
            workspace is Some && old(self)@.can_switch(workspace->0 as int) ==> {
                &&& final(self)@.is_on(workspace->0 as int, r.0)
                &&& r.1@.hidden == seq![r.0]
            },
            workspace is None || !old(self)@.can_switch(workspace->0 as int) ==> {
                &&& final(self)@.is_on(old(self)@.active, r.0)
                &&& r.1@.hidden == Seq::<WindowId>::empty()
            },
            r.1@.refocus == old(self)@.new_takes_focus(),
    {
        let ghost start = self@;
        let window = self.take_number();
        let ghost numbered = self@;
        proof {
            assert forall|i: int, id: WindowId| #[trigger]
                numbered.is_on(i, id) == start.is_on(i, id) by {}
            assert forall|i: int| !(#[trigger] start.is_on(i, window)) by {}
            assert(!start.holds(window));
            assert(!numbered.holds(window));
        }
        let shown = self.map_window(window, placement, area);
        let ghost mapped = self@;
        proof {
            insert_adds_one_window(
                numbered.shown(),
                window,
                placement,
                numbered.focus,
                area,
                window,
            );
            assert(mapped.is_on(start.active, window));
            inserting_adds_one(numbered.shown(), window, placement, numbered.focus, area);
            assert forall|i: int| 0 <= i < mapped.workspaces.len() implies has_room(
                area,
                mapped.opts.gaps as int,
                root_ids(#[trigger] mapped.workspaces[i]).len() as int,
            ) by {
                assert(has_room(
                    area,
                    start.opts.gaps as int,
                    root_ids(start.workspaces[i]).len() as int,
                ));
                if i == start.active {
                    fewer_windows_fit(
                        area,
                        start.opts.gaps as int,
                        root_ids(start.shown()).len() as int + 1,
                        root_ids(mapped.workspaces[i]).len() as int,
                    );
                }
            }
        }
        if let Some(index) = workspace {
            if index < self.workspaces.len() && index != self.active_workspace {
                let moved = self.send_window(window, index, area);
                let refocus = shown.refocus || moved.refocus;
                return (window, Change { hidden: moved.hidden, relayout: true, refocus });
            }
        }
        (window, shown)
    }

    fn find_workspace(&self, window: WindowId) -> (r: Option<usize>)
        ensures
            (match r {
                Some(index) => Some(index as int),
                None => None,
            }) == self@.workspace_of(window, 0),
            r matches Some(index) ==> self@.is_on(index as int, window),
    {
        let mut i: usize = 0;
        while i < self.workspaces.len()
            invariant
                i <= self.workspaces@.len(),
                self@.workspace_of(window, 0) == self@.workspace_of(window, i as int),
            decreases self.workspaces@.len() - i,
        {
            assert(self@.workspaces[i as int] == self.workspaces@[i as int]@);
            if self.workspaces[i].contains(window) {
                return Some(i);
            }
            i = i + 1;
        }
        None
    }

    /// Tells whether a window is on some workspace.
    pub fn holds(&self, window: WindowId) -> (r: bool)
        ensures
            r == self@.holds(window),
    {
        let found = self.find_workspace(window);
        proof {
            if self@.holds(window) {
                let i = choose|i: int| self@.is_on(i, window);
                found_if_there(self@, window, 0, i);
            }
        }
        found.is_some()
    }

    /// Focuses a window wherever it is, switching workspace if necessary.
    pub fn focus_anywhere(&mut self, window: WindowId) -> (r: Change)
        requires
            old(self)@.wf(),
            old(self)@.holds(window),
        ensures
            final(self)@ == old(self)@.focused_anywhere(window),
            final(self)@.wf(),
            final(self)@.is_on(final(self)@.active, window),
            final(self)@.focus == Some(window),
            r@ == (if root_has(old(self)@.shown(), window) {
                ChangeModel { refocus: true, ..no_change() }
            } else {
                ChangeModel {
                    hidden: root_ids(old(self)@.shown()),
                    relayout: true,
                    refocus: true,
                }
            }),
    {
        let ghost before = self@;
        proof {
            let i = choose|i: int| before.is_on(i, window);
            found_if_there(before, window, 0, i);
        }
        let mut change = Change::nothing();
        if let Some(index) = self.find_workspace(window) {
            proof {
                assert(before.is_on(index as int, window));
                if root_has(before.shown(), window) {
                    assert(before.is_on(before.active, window));
                }
            }
            change = self.switch_workspace(index);
        }
        proof {
            assert(root_has(self@.shown(), window));
        }
        let focused = self.focus_window(Some(window));
        change.refocus = focused.refocus;
        proof {
            assert(self@.is_on(self@.active, window));
            assert(change@ =~= (if root_has(before.shown(), window) {
                ChangeModel { refocus: true, ..no_change() }
            } else {
                ChangeModel { hidden: root_ids(before.shown()), relayout: true, refocus: true }
            }));
        }
        change
    }
}

proof fn same_places(before: DeskModel, after: DeskModel)
    requires
        before.workspaces == after.workspaces,
    ensures
        forall|i: int, id: WindowId| #[trigger] after.is_on(i, id) == before.is_on(i, id),
{
}

proof fn first_is_there(root: Option<Node>)
    ensures
        first_window(root) matches Some(id) ==> root_has(root, id),
{
    if let Some(node) = root {
        ids_name_each_window_once(node);
        ids_are_never_empty(node);
        assert(node.ids().contains(node.ids()[0]));
        assert(node.has(node.ids()[0]));
    }
}

proof fn neighbors_are_there(
    root: Option<Node>,
    window: WindowId,
    dir: Direction,
    area: Rect,
    gaps: int,
)
    ensures
        neighbor_of(root, window, dir, area, gaps) matches Some(id) ==> root_has(root, id) && id
            != window,
{
    if let Some(id) = neighbor_of(root, window, dir, area, gaps) {
        let tiles = crate::layout::tree::bare_tiles(root, area, gaps);
        let me = crate::layout::tree::tile_from(tiles, window, 0)->0;
        crate::layout::laws::nearest_is_least(tiles, window, me, dir, tiles.len() as int);
        let k = crate::layout::tree::nearest(tiles, window, me, dir, tiles.len() as int)->0;
        if let Some(node) = root {
            crate::layout::laws::tiles_follow_ids(node, area.spec_inset(gaps), gaps);
            ids_name_each_window_once(node);
            assert(tiles[k].0 == node.ids()[k]);
            assert(node.ids().contains(id));
            assert(node.has(id));
        }
    }
}

proof fn gone_everywhere(before: DeskModel, window: WindowId, area: Rect, i: int)
    requires
        before.wf(),
    ensures
        !before.unmapped(window, area).is_on(i, window),
{
    if 0 <= i < before.workspaces.len() {
        assert(before.workspaces[i] matches Some(node) ==> node.wf());
        remove_drops_one_window(before.workspaces[i], window, window);
    }
}

proof fn found_if_there(desk: DeskModel, window: WindowId, from: int, i: int)
    requires
        desk.is_on(i, window),
        0 <= from <= i,
    ensures
        desk.workspace_of(window, from) is Some,
    decreases i - from,
{
    if from < i && !root_has(desk.workspaces[from], window) {
        found_if_there(desk, window, from + 1, i);
    }
}

proof fn inserting_adds_one(
    root: Option<Node>,
    id: WindowId,
    placement: Placement,
    focused: Option<WindowId>,
    area: Rect,
)
    ensures
        root_ids(inserted(root, id, placement, focused, area)).len() <= root_ids(root).len() + 1,
{
    if let Some(node) = root {
        if !node.has(id) {
            match placement {
                Placement::Auto => {
                    let target = auto_target(node, focused);
                    growing_adds_one(
                        node,
                        target,
                        id,
                        longer_side(plain_tile(root, target, area)),
                        DEFAULT_RATIO,
                        true,
                    );
                },
                Placement::Beside { anchor, side, ratio } => {
                    growing_adds_one(
                        node,
                        anchor,
                        id,
                        side.spec_axis(),
                        beside_ratio(side, ratio as int) as i32,
                        side.forward(),
                    );
                },
            }
        }
    }
}

proof fn growing_adds_one(
    node: Node,
    target: WindowId,
    new: WindowId,
    axis: Axis,
    ratio: i32,
    new_is_second: bool,
)
    ensures
        node.grown(target, new, axis, ratio, new_is_second).ids().len() <= node.ids().len() + 1,
    decreases node,
{
    reveal_with_fuel(Node::ids, 2);
    if let Node::Split { a, b, .. } = node {
        growing_adds_one(*a, target, new, axis, ratio, new_is_second);
        growing_adds_one(*b, target, new, axis, ratio, new_is_second);
    }
}

proof fn unmapping_keeps_order(before: DeskModel, window: WindowId, area: Rect)
    requires
        before.wf(),
    ensures
        before.unmapped(window, area).wf(),
{
    let after = before.unmapped(window, area);
    assert forall|i: int, other: WindowId| #[trigger]
        after.is_on(i, other) == (before.is_on(i, other) && other != window) by {
        if 0 <= i < before.workspaces.len() {
            assert(before.workspaces[i] matches Some(node) ==> node.wf());
            remove_drops_one_window(before.workspaces[i], window, other);
        }
    }
    assert forall|i: int| 0 <= i < after.workspaces.len() implies (
    #[trigger] after.workspaces[i] matches Some(node) ==> node.wf()) by {
        assert(before.workspaces[i] matches Some(node) ==> node.wf());
        crate::layout::laws::remove_keeps_wf(before.workspaces[i], window);
    }
    if let Some(focused) = after.focus {
        if before.focus == Some(window) {
            let gaps = before.opts.gaps as int;
            neighbors_are_there(before.shown(), window, Direction::Right, area, gaps);
            neighbors_are_there(before.shown(), window, Direction::Left, area, gaps);
            neighbors_are_there(before.shown(), window, Direction::Down, area, gaps);
            neighbors_are_there(before.shown(), window, Direction::Up, area, gaps);
            first_is_there(before.trees_without(window)[before.active]);
            if first_neighbor(before.shown(), window, area, gaps) is Some && root_has(
                before.shown(),
                window,
            ) {
                assert(before.is_on(before.active, focused));
            }
            assert(after.is_on(after.active, focused));
        } else {
            assert(before.is_on(before.active, focused));
            assert(after.is_on(after.active, focused));
        }
    }
}

/// Numbers are not reused: a new window takes the next number, and nothing else ever lowers it.
pub proof fn numbers_are_not_reused(
    desk: DeskModel,
    placement: Placement,
    workspace: Option<usize>,
    area: Rect,
    window: WindowId,
    dir: Direction,
    index: int,
    step: int,
)
    ensures
        desk.opened(placement, workspace, area).next_id == desk.next_id + 1,
        desk.unmapped(window, area).next_id == desk.next_id,
        desk.swapped(dir, area).next_id == desk.next_id,
        desk.resized(dir, step).next_id == desk.next_id,
        desk.switched(index).next_id == desk.next_id,
        desk.focus_sent(index, area).next_id == desk.next_id,
        desk.focused_anywhere(window).next_id == desk.next_id,
{
}

/// Showing another workspace and coming back moves no window.
pub proof fn switching_moves_no_window(desk: DeskModel, index: int)
    requires
        desk.wf(),
    ensures
        desk.switched(index).workspaces == desk.workspaces,
        desk.switched(index).switched(desk.active).active == desk.active,
{
}

/// A window that is sent to another workspace is there and nowhere else, and every other window
/// stays on its workspace.
pub proof fn sending_moves_one_window(
    desk: DeskModel,
    window: WindowId,
    index: int,
    area: Rect,
    i: int,
    other: WindowId,
)
    requires
        desk.wf(),
        desk.can_switch(index),
    ensures
        desk.sent(window, index, area).is_on(i, window) == (i == index),
        other != window ==> desk.sent(window, index, area).is_on(i, other) == desk.is_on(
            i,
            other,
        ),
{
    let without = desk.unmapped(window, area);
    insert_adds_one_window(
        without.workspaces[index],
        window,
        Placement::Auto,
        None,
        area,
        other,
    );
    insert_adds_one_window(
        without.workspaces[index],
        window,
        Placement::Auto,
        None,
        area,
        window,
    );
    gone_everywhere(desk, window, area, i);
    gone_everywhere(desk, window, area, index);
    if 0 <= i < desk.workspaces.len() {
        assert(desk.workspaces[i] matches Some(node) ==> node.wf());
        remove_drops_one_window(desk.workspaces[i], window, other);
    }
}

/// Closing a window takes no other window away, and leaves none without the focus while another
/// is on screen and the closed one had it.
pub proof fn closing_hands_the_focus_on(
    desk: DeskModel,
    window: WindowId,
    area: Rect,
    i: int,
    other: WindowId,
)
    requires
        desk.wf(),
    ensures
        desk.unmapped(window, area).is_on(i, other) == (desk.is_on(i, other) && other != window),
        desk.focus == Some(window) && other != window && desk.is_on(desk.active, other)
            ==> desk.unmapped(window, area).focus is Some,
{
    if 0 <= i < desk.workspaces.len() {
        assert(desk.workspaces[i] matches Some(node) ==> node.wf());
        remove_drops_one_window(desk.workspaces[i], window, other);
    }
    if other != window && desk.is_on(desk.active, other) {
        let root = desk.trees_without(window)[desk.active];
        assert(desk.workspaces[desk.active] matches Some(node) ==> node.wf());
        remove_drops_one_window(desk.workspaces[desk.active], window, other);
        assert(root_has(root, other));
        ids_are_never_empty(root->0);
    }
}

/// With smart gaps a window that is alone on screen fills it.
pub proof fn a_lone_window_fills_the_screen(desk: DeskModel, window: WindowId, area: Rect)
    requires
        desk.smart_gaps,
        desk.opts.snap is None,
        desk.shown() == Some(Node::Leaf(window)),
        area.w >= 0,
        area.h >= 0,
    ensures
        laid_out(desk.shown(), area, desk.shown_opts()) == seq![(window, area)],
{
    reveal_with_fuel(Node::ids, 2);
    reveal_with_fuel(Node::tiles, 2);
    assert(root_ids(desk.shown()).len() == 1);
    assert(area.spec_inset(0) == area);
    assert(laid_out(desk.shown(), area, desk.shown_opts()) =~= seq![(window, area)]);
}

} // verus!
