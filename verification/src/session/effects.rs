//! What each operation on the windows of a session does, said of the tiles on screen.

use crate::ipc::WindowId;
use crate::layout::effects::{
    share_a_column, share_a_row, swapped_windows_trade_tiles, the_neighbour_is_the_nearest,
};
use crate::layout::geometry::{Direction, Rect};
use crate::layout::laws::{
    ids_name_each_window_once, insert_adds_one_window, layout_has_a_tile_per_window,
    tiles_follow_ids,
};
use crate::layout::tree::{
    ids_are_never_empty, inserted, laid_out, neighbor_of, removed, root_has, root_ids,
    LayoutOptions, Node, Placement,
};
use crate::session::desk::DeskModel;
use vstd::prelude::*;

verus! {

/// True when `other` lies wholly on one side of `me`, level with some of it.
pub open spec fn lies_to(me: Rect, other: Rect, dir: Direction) -> bool {
    match dir {
        Direction::Right => other.x >= me.x + me.w && share_a_row(me, other),
        Direction::Left => other.x + other.w <= me.x && share_a_row(me, other),
        Direction::Down => other.y >= me.y + me.h && share_a_column(me, other),
        Direction::Up => other.y + other.h <= me.y && share_a_column(me, other),
    }
}

/// How far `other` is from `me` on that side.
pub open spec fn how_far(me: Rect, other: Rect, dir: Direction) -> int {
    match dir {
        Direction::Right => other.x - (me.x + me.w),
        Direction::Left => me.x - (other.x + other.w),
        Direction::Down => other.y - (me.y + me.h),
        Direction::Up => me.y - (other.y + other.h),
    }
}

/// The tiles on screen, before they are cut to whole cells.
pub open spec fn tiles_of(desk: DeskModel, area: Rect) -> Seq<(WindowId, Rect)> {
    laid_out(desk.shown(), area, (LayoutOptions { gaps: desk.opts.gaps, snap: None }))
}

/// True when some tile lies on that side of tile `i`.
pub open spec fn has_someone(tiles: Seq<(WindowId, Rect)>, i: int, dir: Direction) -> bool {
    exists|j: int|
        0 <= j < tiles.len() && j != i && #[trigger] lies_to(tiles[i].1, tiles[j].1, dir)
}

/// True when a window's tile is one of those nearest to tile `i` on that side.
pub open spec fn is_nearest(
    tiles: Seq<(WindowId, Rect)>,
    i: int,
    dir: Direction,
    window: WindowId,
) -> bool {
    exists|k: int|
        0 <= k < tiles.len() && k != i && tiles[k].0 == window && #[trigger] lies_to(
            tiles[i].1,
            tiles[k].1,
            dir,
        ) && forall|j: int|
            0 <= j < tiles.len() && j != i && #[trigger] lies_to(tiles[i].1, tiles[j].1, dir)
                ==> how_far(tiles[i].1, tiles[k].1, dir) <= how_far(
                tiles[i].1,
                tiles[j].1,
                dir,
            )
}

proof fn neighbours(desk: DeskModel, window: WindowId, dir: Direction, area: Rect, i: int)
    requires
        desk.wf(),
        0 <= i < tiles_of(desk, area).len(),
        tiles_of(desk, area)[i].0 == window,
    ensures
        ({
            let tiles = tiles_of(desk, area);
            match neighbor_of(desk.shown(), window, dir, area, desk.opts.gaps as int) {
                None => !has_someone(tiles, i, dir),
                Some(other) => has_someone(tiles, i, dir) && is_nearest(tiles, i, dir, other),
            }
        }),
{
    let opts = LayoutOptions { gaps: desk.opts.gaps, snap: None };
    let tiles = tiles_of(desk, area);
    assert(desk.workspaces[desk.active] matches Some(node) ==> node.wf());
    layout_has_a_tile_per_window(desk.shown(), area, opts);
    let node = desk.shown()->0;
    ids_name_each_window_once(node);
    let found = neighbor_of(desk.shown(), window, dir, area, desk.opts.gaps as int);
    match found {
        None => {
            assert forall|j: int|
                0 <= j < tiles.len() && j != i implies !#[trigger] lies_to(
                tiles[i].1,
                tiles[j].1,
                dir,
            ) by {
                the_neighbour_is_the_nearest(node, window, dir, area, opts, i, j);
            }
        },
        Some(other) => {
            // With a second tile there is a witness; without one there is no neighbour.
            if tiles.len() == 1 {
                crate::layout::laws::nearest_is_least(
                    crate::layout::tree::bare_tiles(desk.shown(), area, desk.opts.gaps as int),
                    window,
                    tiles[i].1,
                    dir,
                    1,
                );
                only_tile(desk.shown(), area, desk.opts.gaps, window, dir);
            } else {
                let j0: int = if i == 0 {
                    1
                } else {
                    0
                };
                the_neighbour_is_the_nearest(node, window, dir, area, opts, i, j0);
                let k = choose|k: int|
                    0 <= k < tiles.len() && k != i && (#[trigger] tiles[k]).0 == other && lies_to(
                        tiles[i].1,
                        tiles[k].1,
                        dir,
                    );
                assert(lies_to(tiles[i].1, tiles[k].1, dir));
                assert forall|j: int|
                    0 <= j < tiles.len() && j != i && #[trigger] lies_to(
                        tiles[i].1,
                        tiles[j].1,
                        dir,
                    ) implies how_far(tiles[i].1, tiles[k].1, dir) <= how_far(
                    tiles[i].1,
                    tiles[j].1,
                    dir,
                ) by {
                    the_neighbour_is_the_nearest(node, window, dir, area, opts, i, j);
                    assert(tiles[k].0 == node.ids()[k]);
                    assert forall|m: int|
                        0 <= m < tiles.len() && (#[trigger] tiles[m]).0 == other implies m == k by {
                        assert(tiles[m].0 == node.ids()[m]);
                    }
                }
            }
        },
    }
}

proof fn only_tile(root: Option<Node>, area: Rect, gaps: i32, window: WindowId, dir: Direction)
    requires
        laid_out(root, area, (LayoutOptions { gaps, snap: None })).len() == 1,
        laid_out(root, area, (LayoutOptions { gaps, snap: None }))[0].0 == window,
    ensures
        neighbor_of(root, window, dir, area, gaps as int) is None,
{
    let tiles = crate::layout::tree::bare_tiles(root, area, gaps as int);
    assert(laid_out(root, area, (LayoutOptions { gaps, snap: None })) =~= tiles);
    let me = crate::layout::tree::tile_from(tiles, window, 0);
    if me is Some {
        crate::layout::laws::nearest_is_least(tiles, window, me->0, dir, 1);
    }
}

/// Moving the focus in a direction takes it to a window nearest to the focused one on that
/// side, and leaves it where it is when there is none.
pub proof fn the_focus_moves_to_the_nearest(desk: DeskModel, dir: Direction, area: Rect, i: int)
    requires
        desk.wf(),
        desk.focus is Some,
        0 <= i < tiles_of(desk, area).len(),
        tiles_of(desk, area)[i].0 == desk.focus->0,
    ensures
        match desk.beside_focus(dir, area) {
            None => !has_someone(tiles_of(desk, area), i, dir),
            Some(next) => is_nearest(tiles_of(desk, area), i, dir, next),
        },
{
    neighbours(desk, desk.focus->0, dir, area, i);
}

/// Swapping in a direction puts the focused window where its nearest neighbour on that side
/// was, and the neighbour where the focused window was. Every other window keeps its tile, the
/// focus stays on the same window, and no other workspace changes.
pub proof fn swapping_trades_with_the_nearest(desk: DeskModel, dir: Direction, area: Rect, i: int)
    requires
        desk.wf(),
        desk.focus is Some,
        0 <= i < tiles_of(desk, area).len(),
        tiles_of(desk, area)[i].0 == desk.focus->0,
    ensures
        ({
            let before = tiles_of(desk, area);
            let after = tiles_of(desk.swapped(dir, area), area);
            &&& desk.swapped(dir, area).focus == desk.focus
            &&& desk.swapped(dir, area).active == desk.active
            &&& forall|w: int|
                0 <= w < desk.workspaces.len() && w != desk.active ==> #[trigger] desk.swapped(
                    dir,
                    area,
                ).workspaces[w] == desk.workspaces[w]
            &&& !has_someone(before, i, dir) ==> after == before
            &&& has_someone(before, i, dir) ==> exists|k: int|
                {
                    &&& 0 <= k < before.len() && k != i
                    &&& #[trigger] is_nearest(before, i, dir, before[k].0)
                    &&& after.len() == before.len()
                    &&& after[k] == (before[i].0, before[k].1)
                    &&& after[i] == (before[k].0, before[i].1)
                    &&& forall|j: int|
                        0 <= j < before.len() && j != i && j != k ==> #[trigger] after[j]
                            == before[j]
                }
        }),
{
    let before = tiles_of(desk, area);
    let after = tiles_of(desk.swapped(dir, area), area);
    let f = desk.focus->0;
    neighbours(desk, f, dir, area, i);
    if let Some(other) = desk.beside_focus(dir, area) {
        let gap = desk.opts.gaps as int;
        let inner = area.spec_inset(gap);
        let node = desk.shown()->0;
        assert(desk.workspaces[desk.active] matches Some(node) ==> node.wf());
        let k = choose|k: int|
            0 <= k < before.len() && k != i && before[k].0 == other && #[trigger] lies_to(
                before[i].1,
                before[k].1,
                dir,
            );
        ids_name_each_window_once(node);
        tiles_follow_ids(node, inner, gap);
        assert(before =~= node.tiles(inner, gap));
        assert(desk.swapped(dir, area).shown() == Some(node.exchanged(f, other)));
        assert(after =~= node.exchanged(f, other).tiles(inner, gap)) by {
            swapped_windows_trade_tiles(node, f, other, inner, gap, i);
        }
        swapped_windows_trade_tiles(node, f, other, inner, gap, i);
        swapped_windows_trade_tiles(node, f, other, inner, gap, k);
        assert forall|j: int|
            0 <= j < before.len() && j != i && j != k implies #[trigger] after[j] == before[j] by {
            swapped_windows_trade_tiles(node, f, other, inner, gap, j);
            assert(before[j].0 == node.ids()[j]);
            assert(before[i].0 == node.ids()[i]);
            assert(before[k].0 == node.ids()[k]);
        }
        assert(is_nearest(before, i, dir, before[k].0));
    }
}

/// Showing another workspace puts exactly its windows on screen and focuses the first of its
/// tiles; an empty one takes the focus away. A number that no workspace has, or that of the
/// workspace on screen, changes nothing.
pub proof fn switching_shows_the_other_workspace(desk: DeskModel, index: int, area: Rect)
    requires
        desk.wf(),
    ensures
        ({
            let after = desk.switched(index);
            let tiles = tiles_of(after, area);
            &&& after.workspaces == desk.workspaces
            &&& 0 <= index < 9 ==> after.active == index
            &&& 0 <= index < 9 && index != desk.active ==> {
                &&& tiles.len() == 0 ==> after.focus is None
                &&& tiles.len() > 0 ==> after.focus == Some(tiles[0].0)
            }
            &&& !(0 <= index < 9) || index == desk.active ==> after == desk
        }),
{
    let after = desk.switched(index);
    let opts = LayoutOptions { gaps: after.opts.gaps, snap: None };
    layout_has_a_tile_per_window(after.shown(), area, opts);
}

/// Focusing a window by name shows the workspace that it is on. No window moves, and if the
/// window is on screen already nothing but the focus changes.
pub proof fn focusing_shows_the_window(desk: DeskModel, window: WindowId, i: int)
    requires
        desk.wf(),
        desk.is_on(i, window),
    ensures
        desk.focused_anywhere(window).active == i,
        desk.focused_anywhere(window).focus == Some(window),
        desk.focused_anywhere(window).workspaces == desk.workspaces,
{
    first_home(desk, window, i, 0);
}

proof fn first_home(desk: DeskModel, window: WindowId, i: int, from: int)
    requires
        desk.wf(),
        desk.is_on(i, window),
        0 <= from <= i,
    ensures
        desk.workspace_of(window, from) == Some(i),
    decreases i - from,
{
    if root_has(desk.workspaces[from], window) {
        assert(desk.is_on(from, window));
    } else {
        first_home(desk, window, i, from + 1);
    }
}

proof fn first_that_stays(node: Node, id: WindowId)
    requires
        node.wf(),
        node.has(id),
        node.without(id) is Some,
    ensures
        node.ids().len() >= 2,
        node.without(id)->0.ids().len() >= 1,
        node.without(id)->0.ids()[0] == if node.ids()[0] == id {
            node.ids()[1]
        } else {
            node.ids()[0]
        },
    decreases node,
{
    if let Node::Split { a, b, .. } = node {
        ids_are_never_empty(*a);
        ids_are_never_empty(*b);
        ids_name_each_window_once(node);
        ids_name_each_window_once(*a);
        if a.has(id) {
            if a.without(id) is Some {
                first_that_stays(*a, id);
            } else {
                gone_means_alone(*a, id);
            }
        } else {
            assert(a.ids().contains(a.ids()[0]));
            if b.without(id) is Some {
                first_that_stays(*b, id);
            }
        }
    }
}

proof fn gone_means_alone(node: Node, id: WindowId)
    requires
        node.wf(),
        node.has(id),
    ensures
        node.without(id) is None <==> node == Node::Leaf(id),
        node == Node::Leaf(id) ==> node.ids() == seq![id],
{
    crate::layout::effects::the_sibling_takes_over(node, id);
}

/// Closing the focused window hands the focus to a window nearest to it on the right, else on
/// the left, else below, else above, else to the first tile that is left. Closing another
/// window leaves the focus where it is.
pub proof fn closing_focuses_the_nearest(desk: DeskModel, window: WindowId, area: Rect, i: int)
    requires
        desk.wf(),
        0 <= i < tiles_of(desk, area).len(),
        tiles_of(desk, area)[i].0 == window,
    ensures
        ({
            let tiles = tiles_of(desk, area);
            let right = has_someone(tiles, i, Direction::Right);
            let left = has_someone(tiles, i, Direction::Left);
            let below = has_someone(tiles, i, Direction::Down);
            let above = has_someone(tiles, i, Direction::Up);
            let heir = desk.unmapped(window, area).focus;
            &&& desk.focus != Some(window) ==> heir == desk.focus
            &&& desk.focus == Some(window) ==> {
                &&& right ==> heir is Some && is_nearest(tiles, i, Direction::Right, heir->0)
                &&& !right && left ==> heir is Some && is_nearest(
                    tiles,
                    i,
                    Direction::Left,
                    heir->0,
                )
                &&& !right && !left && below ==> heir is Some && is_nearest(
                    tiles,
                    i,
                    Direction::Down,
                    heir->0,
                )
                &&& !right && !left && !below && above ==> heir is Some && is_nearest(
                    tiles,
                    i,
                    Direction::Up,
                    heir->0,
                )
                &&& !right && !left && !below && !above ==> heir == if tiles.len() == 1 {
                    None
                } else if i == 0 {
                    Some(tiles[1].0)
                } else {
                    Some(tiles[0].0)
                }
            }
        }),
{
    let tiles = tiles_of(desk, area);
    let opts = LayoutOptions { gaps: desk.opts.gaps, snap: None };
    layout_has_a_tile_per_window(desk.shown(), area, opts);
    let node = desk.shown()->0;
    assert(desk.workspaces[desk.active] matches Some(node) ==> node.wf());
    ids_name_each_window_once(node);
    assert(tiles[i].0 == node.ids()[i]);
    assert(node.ids().contains(window));
    assert(root_has(desk.shown(), window));
    if desk.focus == Some(window) {
        neighbours(desk, window, Direction::Right, area, i);
        neighbours(desk, window, Direction::Left, area, i);
        neighbours(desk, window, Direction::Down, area, i);
        neighbours(desk, window, Direction::Up, area, i);
        gone_means_alone(node, window);
        let rest = desk.trees_without(window)[desk.active];
        assert(rest == removed(desk.shown(), window));
        if node.without(window) is Some {
            first_that_stays(node, window);
            if i > 0 {
                assert(node.ids()[0] != node.ids()[i]);
            }
        } else {
            assert(tiles.len() == 1);
        }
    }
}

/// Sending the focused window away changes its workspace and the one that it goes to, and no
/// other: it is taken out of the first, and tiled on the second as a window that opens there
/// with nothing focused. The workspace on screen stays on screen, and the focus goes where it
/// would go if the window were closed.
pub proof fn sending_changes_two_workspaces(desk: DeskModel, index: int, area: Rect, i: int)
    requires
        desk.wf(),
        desk.focus is Some,
        0 <= index < 9,
        index != desk.active,
        0 <= i < 9,
    ensures
        ({
            let window = desk.focus->0;
            let after = desk.focus_sent(index, area);
            &&& after.active == desk.active
            &&& after.focus == desk.unmapped(window, area).focus
            &&& i != index && i != desk.active ==> after.workspaces[i] == desk.workspaces[i]
            &&& after.workspaces[desk.active] == removed(desk.shown(), window)
            &&& after.workspaces[index] == inserted(
                desk.workspaces[index],
                window,
                Placement::Auto,
                None,
                area,
            )
        }),
{
    let window = desk.focus->0;
    assert(desk.is_on(desk.active, window));
    if root_has(desk.workspaces[i], window) {
        assert(desk.is_on(i, window));
    }
    if root_has(desk.workspaces[index], window) {
        assert(desk.is_on(index, window));
    }
}

/// A request to send the focused window where it is already, to a workspace that does not exist
/// or with nothing focused changes nothing.
pub proof fn sending_nowhere_changes_nothing(desk: DeskModel, index: int, area: Rect)
    requires
        desk.wf(),
        desk.focus is None || index == desk.active || index < 0 || index >= 9,
    ensures
        desk.focus_sent(index, area) == desk,
{
}

/// A window that opens on screen is tiled there as it was promised, next to the focused window
/// if it was promised nothing. It takes the focus if new windows do or nothing has it, and
/// otherwise the focus stays. No other workspace changes.
pub proof fn opening_tiles_the_window_on_screen(
    desk: DeskModel,
    placement: Placement,
    area: Rect,
    i: int,
)
    requires
        desk.wf(),
        desk.next_id < u64::MAX,
        0 <= i < 9,
    ensures
        ({
            let window = WindowId(desk.next_id as u64);
            let after = desk.opened(placement, None, area);
            &&& after.active == desk.active
            &&& i != desk.active ==> after.workspaces[i] == desk.workspaces[i]
            &&& after.shown() == inserted(desk.shown(), window, placement, desk.focus, area)
            &&& desk.focus_new_windows ==> after.focus == Some(window)
            &&& desk.focus is None ==> after.focus == Some(window)
            &&& !desk.focus_new_windows && desk.focus is Some ==> after.focus == desk.focus
        }),
{
}

/// A window that opens on a workspace of its own leaves the tiles on screen as they were, and
/// is tiled on its workspace as one that opens there with nothing focused.
pub proof fn opening_elsewhere_keeps_the_screen(
    desk: DeskModel,
    workspace: usize,
    area: Rect,
    i: int,
)
    requires
        desk.wf(),
        desk.next_id < u64::MAX,
        workspace < 9,
        workspace != desk.active,
        0 <= i < 9,
    ensures
        ({
            let window = WindowId(desk.next_id as u64);
            let after = desk.opened(Placement::Auto, Some(workspace), area);
            &&& after.active == desk.active
            &&& i != workspace ==> after.workspaces[i] == desk.workspaces[i]
            &&& after.workspaces[workspace as int] == inserted(
                desk.workspaces[workspace as int],
                window,
                Placement::Auto,
                None,
                area,
            )
        }),
{
    let window = WindowId(desk.next_id as u64);
    let numbered = DeskModel { next_id: desk.next_id + 1, ..desk };
    let shown = numbered.mapped(window, Placement::Auto, area);
    assert forall|w: int| 0 <= w < 9 implies !#[trigger] root_has(desk.workspaces[w], window) by {
        if root_has(desk.workspaces[w], window) {
            assert(desk.is_on(w, window));
        }
    }
    assert(desk.workspaces[desk.active] matches Some(node) ==> node.wf());
    crate::layout::laws::remove_undoes_insert(
        desk.shown(),
        window,
        Placement::Auto,
        desk.focus,
        area,
    );
    insert_adds_one_window(desk.shown(), window, Placement::Auto, desk.focus, area, window);
    assert(shown.workspaces[desk.active] == inserted(
        desk.shown(),
        window,
        Placement::Auto,
        desk.focus,
        area,
    ));
    assert(shown.unmapped(window, area).workspaces[i] == desk.workspaces[i]);
    assert(shown.unmapped(window, area).workspaces[workspace as int]
        == desk.workspaces[workspace as int]);
}

/// Moving an edge changes no workspace but the one on screen, and neither the focus nor the
/// number of tiles.
pub proof fn resizing_stays_on_screen(desk: DeskModel, dir: Direction, step: int, i: int)
    requires
        desk.wf(),
        0 <= i < 9,
    ensures
        desk.resized(dir, step).focus == desk.focus,
        desk.resized(dir, step).active == desk.active,
        i != desk.active ==> desk.resized(dir, step).workspaces[i] == desk.workspaces[i],
        desk.focus is Some && desk.shown() is Some ==> desk.resized(dir, step).shown() == match (
        desk.shown()->0.nudged(desk.focus->0, dir, step)) {
            Some(node) => Some(node),
            None => desk.shown(),
        },
        desk.focus is None || desk.shown() is None ==> desk.resized(dir, step) == desk,
{
}

/// The gap along the edges of the screen goes only where it was asked to: with smart gaps and
/// one window alone.
pub proof fn smart_gaps_are_for_one_window(desk: DeskModel, area: Rect)
    requires
        desk.wf(),
    ensures
        ({
            let windows = tiles_of(desk, area).len();
            let gaps = desk.shown_opts().gaps;
            &&& desk.smart_gaps && windows == 1 ==> gaps == 0
            &&& !desk.smart_gaps || windows != 1 ==> gaps == desk.opts.gaps
            &&& desk.shown_opts().snap == desk.opts.snap
        }),
{
    let opts = LayoutOptions { gaps: desk.opts.gaps, snap: None };
    layout_has_a_tile_per_window(desk.shown(), area, opts);
}

/// The window beside the focused one is on screen, and is another window.
pub proof fn neighbours_are_shown(desk: DeskModel, dir: Direction, area: Rect)
    requires
        desk.wf(),
    ensures
        desk.beside_focus(dir, area) matches Some(other) ==> desk.is_on(desk.active, other)
            && desk.focus != Some(other),
{
    if desk.beside_focus(dir, area) is Some {
        let f = desk.focus->0;
        let opts = LayoutOptions { gaps: desk.opts.gaps, snap: None };
        let node = desk.shown()->0;
        assert(desk.workspaces[desk.active] matches Some(node) ==> node.wf());
        assert(desk.is_on(desk.active, f));
        ids_name_each_window_once(node);
        layout_has_a_tile_per_window(desk.shown(), area, opts);
        let tiles = tiles_of(desk, area);
        assert(node.ids().contains(f));
        let i = choose|i: int| 0 <= i < node.ids().len() && node.ids()[i] == f;
        assert(tiles[i].0 == f);
        neighbours(desk, f, dir, area, i);
        let other = desk.beside_focus(dir, area)->0;
        let k = choose|k: int|
            0 <= k < tiles.len() && k != i && tiles[k].0 == other && #[trigger] lies_to(
                tiles[i].1,
                tiles[k].1,
                dir,
            );
        assert(tiles[k].0 == node.ids()[k]);
        assert(node.ids().contains(other));
    }
}

/// A session begins with nine empty workspaces, the first of them on screen, and nothing focused;
/// there is a gap even round a window alone, and new windows take the focus.
pub proof fn sessions_begin_empty(i: int)
    requires
        0 <= i < 9,
    ensures
        ({
            let desk = crate::session::desk::empty_desk();
            &&& desk.wf()
            &&& desk.workspaces.len() == 9
            &&& desk.workspaces[i] is None
            &&& desk.active == 0
            &&& desk.focus is None
            &&& !desk.smart_gaps && desk.opts.gaps > 0 && desk.opts.snap is None
            &&& desk.focus_new_windows
            &&& desk.next_id > 0
        }),
{
}

} // verus!
