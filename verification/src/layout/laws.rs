//! What holds of the tiling as a whole.

use crate::ipc::WindowId;
use crate::layout::geometry::{fits_i32, first_part, Axis, Direction, Rect};
use crate::layout::tree::{
    auto_target, bare_tiles, beside_ratio, exchanged_id, grown_has, ids_are_never_empty, inserted,
    is_candidate, laid_out, layout_fits, longer_side, nearer, nearest, plain_options, plain_tile,
    removed, root_has, root_ids, without_has, without_keeps_wf, LayoutOptions, Node, Placement,
    DEFAULT_RATIO,
};
use vstd::prelude::*;

verus! {

/// The list of windows holds exactly the windows of the tree, each once.
pub proof fn ids_name_each_window_once(node: Node)
    ensures
        forall|id: WindowId| node.ids().contains(id) == #[trigger] node.has(id),
        node.wf() ==> node.ids().no_duplicates(),
    decreases node,
{
    if let Node::Split { a, b, .. } = node {
        ids_name_each_window_once(*a);
        ids_name_each_window_once(*b);
        let left = a.ids();
        let right = b.ids();
        assert forall|id: WindowId| node.ids().contains(id) == #[trigger] node.has(id) by {
            assert(a.has(id) == left.contains(id));
            assert(b.has(id) == right.contains(id));
            if left.contains(id) {
                let i = choose|i: int| 0 <= i < left.len() && left[i] == id;
                assert((left + right)[i] == id);
            }
            if right.contains(id) {
                let i = choose|i: int| 0 <= i < right.len() && right[i] == id;
                assert((left + right)[left.len() + i] == id);
            }
            if node.ids().contains(id) {
                let i = choose|i: int| 0 <= i < node.ids().len() && node.ids()[i] == id;
                if i < left.len() {
                    assert(left[i] == id);
                } else {
                    assert(right[i - left.len()] == id);
                }
            }
        }
        if node.wf() {
            assert forall|i: int, j: int|
                0 <= i < left.len() && 0 <= j < right.len() implies left[i] != right[j] by {
                assert(left.contains(left[i]) && right.contains(right[j]));
                assert(a.has(left[i]) && b.has(right[j]));
            }
            assert forall|i: int, j: int|
                0 <= i < node.ids().len() && 0 <= j < node.ids().len() && i
                    != j implies node.ids()[i] != node.ids()[j] by {
                if i < left.len() && j >= left.len() {
                    assert(left[i] != right[j - left.len()]);
                } else if j < left.len() && i >= left.len() {
                    assert(left[j] != right[i - left.len()]);
                } else if i < left.len() {
                    assert(left[i] != left[j]);
                } else {
                    assert(right[i - left.len()] != right[j - left.len()]);
                }
            }
        }
    } else {
        assert forall|id: WindowId| node.ids().contains(id) == #[trigger] node.has(id) by {
            assert(node.has(node.ids()[0]));
        }
    }
}

/// Inserting a window adds it and nothing else: the windows afterwards are those from before,
/// and the new one unless it was to stand beside a window that is not there.
pub proof fn insert_adds_one_window(
    root: Option<Node>,
    id: WindowId,
    placement: Placement,
    focused: Option<WindowId>,
    area: Rect,
    other: WindowId,
)
    ensures
        root_has(inserted(root, id, placement, focused, area), other) == (root_has(root, other) || (
        other == id && match placement {
            Placement::Auto => true,
            Placement::Beside { anchor, .. } => root is None || root_has(root, anchor),
        })),
{
    if let Some(node) = root {
        ids_are_never_empty(node);
        if !node.has(id) {
            match placement {
                Placement::Auto => {
                    let target = auto_target(node, focused);
                    let axis = longer_side(plain_tile(root, target, area));
                    grown_has(node, target, id, axis, DEFAULT_RATIO, true, other);
                },
                Placement::Beside { anchor, side, ratio } => {
                    if node.has(anchor) {
                        let share = beside_ratio(side, ratio as int) as i32;
                        grown_has(
                            node,
                            anchor,
                            id,
                            side.spec_axis(),
                            share,
                            side.forward(),
                            other,
                        );
                    }
                },
            }
        }
    }
}

/// Removing a window takes it away and nothing else.
pub proof fn remove_drops_one_window(root: Option<Node>, id: WindowId, other: WindowId)
    requires
        root matches Some(node) ==> node.wf(),
    ensures
        root_has(removed(root, id), other) == (root_has(root, other) && other != id),
{
    if let Some(node) = root {
        without_has(node, id, other);
    }
}

/// A tree stays well formed when a window leaves it.
pub proof fn remove_keeps_wf(root: Option<Node>, id: WindowId)
    requires
        root matches Some(node) ==> node.wf(),
    ensures
        removed(root, id) matches Some(node) ==> node.wf(),
{
    if let Some(node) = root {
        without_keeps_wf(node, id);
    }
}

proof fn without_absent(node: Node, id: WindowId)
    requires
        !node.has(id),
    ensures
        node.without(id) == Some(node),
{
}

proof fn without_undoes_grown(
    node: Node,
    target: WindowId,
    new: WindowId,
    axis: Axis,
    ratio: i32,
    new_is_second: bool,
)
    requires
        !node.has(new),
        node.has(target),
    ensures
        node.grown(target, new, axis, ratio, new_is_second).without(new) == Some(node),
    decreases node,
{
    reveal_with_fuel(Node::has, 3);
    reveal_with_fuel(Node::without, 3);
    if let Node::Split { a, b, .. } = node {
        if a.has(target) {
            without_undoes_grown(*a, target, new, axis, ratio, new_is_second);
            grown_has(*a, target, new, axis, ratio, new_is_second, new);
        } else {
            without_undoes_grown(*b, target, new, axis, ratio, new_is_second);
            grown_has(*b, target, new, axis, ratio, new_is_second, new);
        }
    }
}

/// A window that comes and goes leaves the tree as it was: the others get back exactly the
/// space they had.
pub proof fn remove_undoes_insert(
    root: Option<Node>,
    id: WindowId,
    placement: Placement,
    focused: Option<WindowId>,
    area: Rect,
)
    requires
        !root_has(root, id),
    ensures
        removed(inserted(root, id, placement, focused, area), id) == root,
{
    if let Some(node) = root {
        ids_are_never_empty(node);
        match placement {
            Placement::Auto => {
                let target = auto_target(node, focused);
                let axis = longer_side(plain_tile(root, target, area));
                without_undoes_grown(node, target, id, axis, DEFAULT_RATIO, true);
            },
            Placement::Beside { anchor, side, ratio } => {
                if node.has(anchor) {
                    let share = beside_ratio(side, ratio as int) as i32;
                    without_undoes_grown(
                        node,
                        anchor,
                        id,
                        side.spec_axis(),
                        share,
                        side.forward(),
                    );
                } else {
                    without_absent(node, id);
                }
            },
        }
    }
}

/// Moving an edge keeps the windows and their order.
pub proof fn resize_keeps_windows(node: Node, id: WindowId, dir: Direction, delta: int)
    ensures
        node.nudged(id, dir, delta) matches Some(moved) ==> moved.ids() == node.ids(),
    decreases node,
{
    if let Node::Split { a, b, .. } = node {
        resize_keeps_windows(*a, id, dir, delta);
        resize_keeps_windows(*b, id, dir, delta);
    }
}

/// A window that is not in the tree has no edge to move.
pub proof fn resize_needs_the_window(node: Node, id: WindowId, dir: Direction, delta: int)
    requires
        !node.has(id),
    ensures
        node.nudged(id, dir, delta) is None,
{
}

/// Swapping twice changes nothing.
pub proof fn exchange_undoes_itself(node: Node, x: WindowId, y: WindowId)
    ensures
        node.exchanged(x, y).exchanged(x, y) == node,
    decreases node,
{
    if let Node::Split { a, b, .. } = node {
        exchange_undoes_itself(*a, x, y);
        exchange_undoes_itself(*b, x, y);
    }
}

/// Swapping two windows moves no edge: every tile stays where it was, and only the names of the
/// two windows trade places.
pub proof fn exchange_keeps_rectangles(node: Node, x: WindowId, y: WindowId, rect: Rect, gap: int)
    ensures
        node.exchanged(x, y).tiles(rect, gap) == node.tiles(rect, gap).map_values(
            |tile: (WindowId, Rect)| (exchanged_id(tile.0, x, y), tile.1),
        ),
    decreases node,
{
    let rename = |tile: (WindowId, Rect)| (exchanged_id(tile.0, x, y), tile.1);
    match node {
        Node::Leaf(id) => {
            assert(node.exchanged(x, y).tiles(rect, gap) =~= node.tiles(rect, gap).map_values(
                rename,
            ));
        },
        Node::Split { axis, ratio, a, b } => {
            let (first, second) = rect.spec_split(axis, ratio as int, gap);
            exchange_keeps_rectangles(*a, x, y, first, gap);
            exchange_keeps_rectangles(*b, x, y, second, gap);
            assert((a.tiles(first, gap) + b.tiles(second, gap)).map_values(rename) =~= a.tiles(
                first,
                gap,
            ).map_values(rename) + b.tiles(second, gap).map_values(rename));
        },
    }
}

/// There is one tile per window, in the order of the windows.
pub proof fn tiles_follow_ids(node: Node, rect: Rect, gap: int)
    ensures
        node.tiles(rect, gap).len() == node.ids().len(),
        forall|i: int| 0 <= i < node.ids().len() ==> #[trigger] node.tiles(rect, gap)[i].0
            == node.ids()[i],
    decreases node,
{
    if let Node::Split { axis, ratio, a, b } = node {
        let (first, second) = rect.spec_split(axis, ratio as int, gap);
        tiles_follow_ids(*a, first, gap);
        tiles_follow_ids(*b, second, gap);
        assert forall|i: int| 0 <= i < node.ids().len() implies #[trigger] node.tiles(
            rect,
            gap,
        )[i].0 == node.ids()[i] by {
            if i < a.ids().len() {
                assert(a.tiles(first, gap)[i].0 == a.ids()[i]);
            } else {
                assert(b.tiles(second, gap)[i - a.ids().len()].0 == b.ids()[i - a.ids().len()]);
            }
        }
    }
}

/// A layout has one rectangle per window, in tree order.
pub proof fn layout_has_a_tile_per_window(root: Option<Node>, area: Rect, opts: LayoutOptions)
    ensures
        laid_out(root, area, opts).len() == root_ids(root).len(),
        forall|i: int| 0 <= i < root_ids(root).len() ==> #[trigger] laid_out(
            root,
            area,
            opts,
        )[i].0 == root_ids(root)[i],
{
    if let Some(node) = root {
        tiles_follow_ids(node, area.spec_inset(opts.gaps as int), opts.gaps as int);
        assert forall|i: int| 0 <= i < root_ids(root).len() implies #[trigger] laid_out(
            root,
            area,
            opts,
        )[i].0 == root_ids(root)[i] by {
            assert(bare_tiles(root, area, opts.gaps as int)[i].0 == node.ids()[i]);
        }
    }
}

proof fn first_part_is_a_part(available: int, ratio: int)
    requires
        available >= 0,
    ensures
        0 <= first_part(available, ratio) <= available,
{
}

proof fn split_stays_inside(rect: Rect, axis: Axis, ratio: int, gap: int)
    requires
        gap >= 0,
        rect.w >= 0,
        rect.h >= 0,
        rect.split_fits(axis, ratio, gap),
    ensures
        ({
            let (first, second) = rect.spec_split(axis, ratio, gap);
            &&& first.w >= 0 && first.h >= 0 && second.w >= 0 && second.h >= 0
            &&& (gap > 0 && first.is_blank()) || rect.encloses(first)
            &&& (gap > 0 && second.is_blank()) || rect.encloses(second)
            &&& first.apart_from(second)
        }),
{
    first_part_is_a_part(rect.room(axis, gap), ratio);
}

proof fn tiles_stay_inside(node: Node, rect: Rect, gap: int)
    requires
        gap >= 0,
        rect.w >= 0,
        rect.h >= 0,
        node.tiles_fit(rect, gap),
    ensures
        forall|i: int|
            0 <= i < node.tiles(rect, gap).len() ==> {
                let tile = (#[trigger] node.tiles(rect, gap)[i]).1;
                tile.w >= 0 && tile.h >= 0 && ((gap > 0 && tile.is_blank()) || rect.encloses(
                    tile,
                ))
            },
    decreases node,
{
    if let Node::Split { axis, ratio, a, b } = node {
        let (first, second) = rect.spec_split(axis, ratio as int, gap);
        split_stays_inside(rect, axis, ratio as int, gap);
        tiles_stay_inside(*a, first, gap);
        tiles_stay_inside(*b, second, gap);
        assert forall|i: int| 0 <= i < node.tiles(rect, gap).len() implies {
            let tile = (#[trigger] node.tiles(rect, gap)[i]).1;
            tile.w >= 0 && tile.h >= 0 && ((gap > 0 && tile.is_blank()) || rect.encloses(tile))
        } by {
            let count = a.tiles(first, gap).len();
            if i < count {
                assert(node.tiles(rect, gap)[i] == a.tiles(first, gap)[i]);
            } else {
                assert(node.tiles(rect, gap)[i] == b.tiles(second, gap)[i - count]);
            }
        }
    }
}

proof fn tiles_stay_apart(node: Node, rect: Rect, gap: int)
    requires
        gap >= 0,
        rect.w >= 0,
        rect.h >= 0,
        node.tiles_fit(rect, gap),
    ensures
        forall|i: int, j: int|
            0 <= i < j < node.tiles(rect, gap).len() ==> (#[trigger] node.tiles(
                rect,
                gap,
            )[i]).1.apart_from((#[trigger] node.tiles(rect, gap)[j]).1),
    decreases node,
{
    if let Node::Split { axis, ratio, a, b } = node {
        let (first, second) = rect.spec_split(axis, ratio as int, gap);
        split_stays_inside(rect, axis, ratio as int, gap);
        tiles_stay_inside(*a, first, gap);
        tiles_stay_inside(*b, second, gap);
        tiles_stay_apart(*a, first, gap);
        tiles_stay_apart(*b, second, gap);
        let tiles = node.tiles(rect, gap);
        let left = a.tiles(first, gap);
        let right = b.tiles(second, gap);
        assert forall|i: int, j: int| 0 <= i < j < tiles.len() implies (
        #[trigger] tiles[i]).1.apart_from((#[trigger] tiles[j]).1) by {
            let count = left.len() as int;
            if j < count {
                assert(left[i].1.apart_from(left[j].1));
            } else if i >= count {
                assert(right[i - count].1.apart_from(right[j - count].1));
            } else {
                assert(tiles[i] == left[i] && tiles[j] == right[j - count]);
            }
        }
    }
}

proof fn snap_stays_inside(rect: Rect, cell_w: int, cell_h: int)
    requires
        rect.w >= 0,
        rect.h >= 0,
        rect.snap_fits(cell_w, cell_h),
    ensures
        rect.encloses(rect.spec_snap(cell_w, cell_h)),
        rect.spec_snap(cell_w, cell_h).w >= 0,
        rect.spec_snap(cell_w, cell_h).h >= 0,
{
    if 0 < cell_w <= rect.w {
        crate::layout::geometry::snapped_is_whole_cells(rect.w as int, cell_w);
    }
    if 0 < cell_h <= rect.h {
        crate::layout::geometry::snapped_is_whole_cells(rect.h as int, cell_h);
    }
}

/// Tiles never have a negative size, never leave the area inside the outer gap, and never
/// overlap, with or without snapping. Only where there are gaps can a tile that was squeezed to
/// nothing, and covers no pixel, stand outside.
pub proof fn tiles_never_overlap(root: Option<Node>, area: Rect, opts: LayoutOptions)
    requires
        opts.gaps >= 0,
        layout_fits(root, area, opts),
    ensures
        forall|i: int|
            0 <= i < laid_out(root, area, opts).len() ==> {
                let tile = (#[trigger] laid_out(root, area, opts)[i]).1;
                &&& tile.w >= 0 && tile.h >= 0
                &&& (opts.gaps > 0 && tile.is_blank()) || area.spec_inset(
                    opts.gaps as int,
                ).encloses(tile)
            },
        forall|i: int, j: int|
            0 <= i < j < laid_out(root, area, opts).len() ==> (#[trigger] laid_out(
                root,
                area,
                opts,
            )[i]).1.apart_from((#[trigger] laid_out(root, area, opts)[j]).1),
{
    if let Some(node) = root {
        let gap = opts.gaps as int;
        let inner = area.spec_inset(gap);
        tiles_stay_inside(node, inner, gap);
        tiles_stay_apart(node, inner, gap);
        let bare = bare_tiles(root, area, gap);
        let out = laid_out(root, area, opts);
        assert forall|i: int| 0 <= i < out.len() implies {
            let tile = (#[trigger] out[i]).1;
            &&& tile.w >= 0 && tile.h >= 0
            &&& bare[i].1.w >= 0 && bare[i].1.h >= 0
            &&& bare[i].1.encloses(tile)
            &&& (gap > 0 && bare[i].1.is_blank()) || inner.encloses(bare[i].1)
        } by {
            let plain = node.tiles(inner, gap)[i];
            assert(plain == bare[i]);
            if let Some((cell_w, cell_h)) = opts.snap {
                assert(bare_tiles(root, area, opts.gaps as int)[i].1.snap_fits(
                    cell_w as int,
                    cell_h as int,
                ));
                snap_stays_inside(bare[i].1, cell_w as int, cell_h as int);
            }
        }
        assert forall|i: int, j: int| 0 <= i < j < out.len() implies (
        #[trigger] out[i]).1.apart_from((#[trigger] out[j]).1) by {
            assert(node.tiles(inner, gap)[i].1.apart_from(node.tiles(inner, gap)[j].1));
        }
    }
}

/// True when two rectangles have the pixels of a third between them: each of its pixels is in one
/// of the two, and no other pixel is in either.
pub open spec fn share_out(whole: Rect, a: Rect, b: Rect) -> bool {
    &&& a.w >= 0 && a.h >= 0 && b.w >= 0 && b.h >= 0
    &&& forall|px: int, py: int|
        #![trigger whole.covers(px, py)]
        whole.covers(px, py) == (a.covers(px, py) || b.covers(px, py)) && !(a.covers(px, py)
            && b.covers(px, py))
}

/// True when `after` are the tiles `before` with the one at `k`, that of `target`, shared out
/// between it and `new`. Every other tile stays as it was, and in its order.
pub open spec fn tile_is_shared(
    before: Seq<(WindowId, Rect)>,
    after: Seq<(WindowId, Rect)>,
    k: int,
    target: WindowId,
    new: WindowId,
) -> bool {
    &&& 0 <= k < before.len()
    &&& after.len() == before.len() + 1
    &&& before[k].0 == target
    &&& forall|i: int| 0 <= i < k ==> #[trigger] after[i] == before[i]
    &&& forall|i: int| k < i < before.len() ==> after[i + 1] == #[trigger] before[i]
    &&& (after[k].0 == target && after[k + 1].0 == new) || (after[k].0 == new && after[k + 1].0
        == target)
    &&& share_out(before[k].1, after[k].1, after[k + 1].1)
}

proof fn split_shares_out(rect: Rect, axis: Axis, ratio: int)
    requires
        rect.w >= 0,
        rect.h >= 0,
        rect.split_fits(axis, ratio, 0),
    ensures
        share_out(
            rect,
            rect.spec_split(axis, ratio, 0).0,
            rect.spec_split(axis, ratio, 0).1,
        ),
{
    split_stays_inside(rect, axis, ratio, 0);
    first_part_is_a_part(rect.room(axis, 0), ratio);
}

proof fn growing_shares_a_tile(
    node: Node,
    target: WindowId,
    new: WindowId,
    axis: Axis,
    ratio: i32,
    new_is_second: bool,
    rect: Rect,
) -> (k: int)
    requires
        node.has(target),
        rect.w >= 0,
        rect.h >= 0,
        node.grown(target, new, axis, ratio, new_is_second).tiles_fit(rect, 0),
    ensures
        tile_is_shared(
            node.tiles(rect, 0),
            node.grown(target, new, axis, ratio, new_is_second).tiles(rect, 0),
            k,
            target,
            new,
        ),
    decreases node,
{
    let grown = node.grown(target, new, axis, ratio, new_is_second);
    let before = node.tiles(rect, 0);
    let after = grown.tiles(rect, 0);
    match node {
        Node::Leaf(_) => {
            reveal_with_fuel(Node::tiles, 3);
            split_shares_out(rect, axis, ratio as int);
            0
        },
        Node::Split { axis: own_axis, ratio: own_ratio, a, b } => {
            let (first, second) = rect.spec_split(own_axis, own_ratio as int, 0);
            split_stays_inside(rect, own_axis, own_ratio as int, 0);
            let left = a.tiles(first, 0);
            let right = b.tiles(second, 0);
            assert(before == left + right);
            if a.has(target) {
                let k = growing_shares_a_tile(
                    *a,
                    target,
                    new,
                    axis,
                    ratio,
                    new_is_second,
                    first,
                );
                let more = a.grown(target, new, axis, ratio, new_is_second).tiles(first, 0);
                assert(after == more + right);
                assert forall|i: int| k < i < before.len() implies after[i + 1]
                    == #[trigger] before[i] by {
                    if i < left.len() {
                        assert(more[i + 1] == left[i]);
                    }
                }
                k
            } else {
                let k = growing_shares_a_tile(
                    *b,
                    target,
                    new,
                    axis,
                    ratio,
                    new_is_second,
                    second,
                );
                let more = b.grown(target, new, axis, ratio, new_is_second).tiles(second, 0);
                let n = left.len() as int;
                assert(after == left + more);
                assert(after[n + k] == more[k] && after[n + k + 1] == more[k + 1]);
                assert forall|i: int| n + k < i < before.len() implies after[i + 1]
                    == #[trigger] before[i] by {
                    assert(more[i - n + 1] == right[i - n]);
                }
                assert forall|i: int| 0 <= i < n + k implies #[trigger] after[i] == before[i] by {
                    if i >= n {
                        assert(more[i - n] == right[i - n]);
                    }
                }
                n + k
            }
        },
    }
}

/// The window whose tile a new window shares: the focused one or else the last, or the anchor if
/// it is there.
pub open spec fn insert_target(
    node: Node,
    placement: Placement,
    focused: Option<WindowId>,
) -> Option<WindowId> {
    match placement {
        Placement::Auto => Some(auto_target(node, focused)),
        Placement::Beside { anchor, .. } => if node.has(anchor) {
            Some(anchor)
        } else {
            None
        },
    }
}

/// Without gaps a new window takes its tile from one other window only: every other tile stays
/// as it was, and the new window and the one that it was put beside together fill what was the
/// tile of the latter.
pub proof fn insert_shares_one_tile(
    node: Node,
    id: WindowId,
    placement: Placement,
    focused: Option<WindowId>,
    area: Rect,
)
    requires
        area.w >= 0,
        area.h >= 0,
        !node.has(id),
        insert_target(node, placement, focused) is Some,
        layout_fits(
            inserted(Some(node), id, placement, focused, area),
            area,
            plain_options(),
        ),
    ensures
        exists|k: int| #[trigger]
            tile_is_shared(
                laid_out(Some(node), area, plain_options()),
                laid_out(
                    inserted(Some(node), id, placement, focused, area),
                    area,
                    plain_options(),
                ),
                k,
                insert_target(node, placement, focused)->0,
                id,
            ),
{
    ids_are_never_empty(node);
    let root = Some(node);
    let grown = inserted(root, id, placement, focused, area)->0;
    let inner = area.spec_inset(0);
    assert(inner == area);
    let k = match placement {
        Placement::Auto => {
            let target = auto_target(node, focused);
            let axis = longer_side(plain_tile(root, target, area));
            growing_shares_a_tile(node, target, id, axis, DEFAULT_RATIO, true, area)
        },
        Placement::Beside { anchor, side, ratio } => {
            let share = beside_ratio(side, ratio as int) as i32;
            growing_shares_a_tile(
                node,
                anchor,
                id,
                side.spec_axis(),
                share,
                side.forward(),
                area,
            )
        },
    };
    assert(laid_out(root, area, plain_options()) =~= node.tiles(area, 0));
    assert(laid_out(Some(grown), area, plain_options()) =~= grown.tiles(area, 0));
    assert(tile_is_shared(
        laid_out(root, area, plain_options()),
        laid_out(Some(grown), area, plain_options()),
        k,
        insert_target(node, placement, focused)->0,
        id,
    ));
}

/// The pixels of a list of tiles, added up.
pub open spec fn total_pixels(tiles: Seq<(WindowId, Rect)>) -> int
    decreases tiles.len(),
{
    if tiles.len() == 0 {
        0
    } else {
        total_pixels(tiles.drop_last()) + tiles.last().1.pixels()
    }
}

proof fn total_pixels_adds(s: Seq<(WindowId, Rect)>, t: Seq<(WindowId, Rect)>)
    ensures
        total_pixels(s + t) == total_pixels(s) + total_pixels(t),
    decreases t.len(),
{
    if t.len() == 0 {
        assert(s + t =~= s);
    } else {
        total_pixels_adds(s, t.drop_last());
        assert((s + t).drop_last() =~= s + t.drop_last());
        assert((s + t).last() == t.last());
    }
}

proof fn tiles_fill_rect(node: Node, rect: Rect)
    requires
        rect.w >= 0,
        rect.h >= 0,
        node.tiles_fit(rect, 0),
    ensures
        total_pixels(node.tiles(rect, 0)) == rect.pixels(),
    decreases node,
{
    match node {
        Node::Leaf(id) => {
            reveal_with_fuel(total_pixels, 2);
            assert(node.tiles(rect, 0).drop_last() =~= seq![]);
        },
        Node::Split { axis, ratio, a, b } => {
            let (first, second) = rect.spec_split(axis, ratio as int, 0);
            split_stays_inside(rect, axis, ratio as int, 0);
            tiles_fill_rect(*a, first);
            tiles_fill_rect(*b, second);
            total_pixels_adds(a.tiles(first, 0), b.tiles(second, 0));
            assert(first.pixels() + second.pixels() == rect.pixels()) by {
                match axis {
                    Axis::Horizontal => {
                        assert(first.w * rect.h + second.w * rect.h == (first.w + second.w)
                            * rect.h) by (nonlinear_arith);
                        assert(first.w + second.w == rect.w);
                    },
                    Axis::Vertical => {
                        assert(rect.w * first.h + rect.w * second.h == rect.w * (first.h
                            + second.h)) by (nonlinear_arith);
                        assert(first.h + second.h == rect.h);
                    },
                }
            }
        },
    }
}

/// Without gaps and snapping the tiles use every pixel of the area: together with the tiles not
/// overlapping, each pixel belongs to exactly one window.
pub proof fn tiles_fill_the_area(node: Node, area: Rect)
    requires
        area.w >= 0,
        area.h >= 0,
        layout_fits(Some(node), area, (LayoutOptions { gaps: 0, snap: None })),
    ensures
        total_pixels(laid_out(Some(node), area, (LayoutOptions { gaps: 0, snap: None })))
            == area.pixels(),
{
    assert(area.spec_inset(0) == area);
    tiles_fill_rect(node, area);
    assert(laid_out(Some(node), area, (LayoutOptions { gaps: 0, snap: None })) =~= node.tiles(
        area,
        0,
    ));
}

/// The neighbour that is found is a candidate, no candidate is nearer, and of equally near ones
/// it is the first in tree order; none is found only if there is no candidate.
pub proof fn nearest_is_least(
    tiles: Seq<(WindowId, Rect)>,
    id: WindowId,
    me: Rect,
    dir: Direction,
    n: int,
)
    requires
        0 <= n <= tiles.len(),
    ensures
        match nearest(tiles, id, me, dir, n) {
            None => forall|j: int| 0 <= j < n ==> !#[trigger] is_candidate(tiles, id, me, dir, j),
            Some(k) => {
                &&& 0 <= k < n
                &&& is_candidate(tiles, id, me, dir, k)
                &&& forall|j: int|
                    0 <= j < n && #[trigger] is_candidate(tiles, id, me, dir, j) ==> !nearer(
                        me,
                        tiles[j].1,
                        tiles[k].1,
                        dir,
                    ) && (j < k ==> nearer(me, tiles[k].1, tiles[j].1, dir))
            },
        },
    decreases n,
{
    if n > 0 {
        nearest_is_least(tiles, id, me, dir, n - 1);
    }
}

proof fn tiles_fit_on(node: Node, rect: Rect, gap: int)
    requires
        gap >= 0,
        rect.w >= 0,
        rect.h >= 0,
        fits_i32(rect.x + rect.w + gap * node.depth()),
        fits_i32(rect.y + rect.h + gap * node.depth()),
        fits_i32(gap),
    ensures
        node.tiles_fit(rect, gap),
    decreases node,
{
    if let Node::Split { axis, ratio, a, b } = node {
        let d = node.depth() as int;
        let da = a.depth() as int;
        let db = b.depth() as int;
        assert(gap * d >= gap * da + gap && gap * d >= gap * db + gap && gap * da >= 0 && gap * db
            >= 0) by (nonlinear_arith)
            requires
                gap >= 0,
                da >= 0,
                db >= 0,
                d >= da + 1,
                d >= db + 1,
        ;
        first_part_is_a_part(rect.room(axis, gap), ratio as int);
        let (first, second) = rect.spec_split(axis, ratio as int, gap);
        tiles_fit_on(*a, first, gap);
        tiles_fit_on(*b, second, gap);
    }
}

/// Every layout of an ordinary screen can be written down: the far edges, moved out by the gap
/// once per level of the tree, stay within 32 bits.
pub proof fn screens_can_be_laid_out(root: Option<Node>, area: Rect, opts: LayoutOptions)
    requires
        opts.gaps >= 0,
        2 * opts.gaps <= i32::MAX,
        area.w >= 0,
        area.h >= 0,
        root matches Some(node) ==> {
            &&& fits_i32(area.x + area.w + opts.gaps * (node.depth() + 2))
            &&& fits_i32(area.y + area.h + opts.gaps * (node.depth() + 2))
        },
    ensures
        layout_fits(root, area, opts),
{
    if let Some(node) = root {
        let gap = opts.gaps as int;
        let inner = area.spec_inset(gap);
        let d = node.depth() as int;
        assert(gap * (d + 2) == gap * d + 2 * gap && gap * d >= 0) by (nonlinear_arith)
            requires
                gap >= 0,
                d >= 0,
        ;
        tiles_fit_on(node, inner, gap);
        if let Some((cell_w, cell_h)) = opts.snap {
            tiles_reach(node, inner, gap);
            let bare = bare_tiles(root, area, opts.gaps as int);
            assert forall|i: int| 0 <= i < bare.len() implies (
            #[trigger] bare[i]).1.snap_fits(cell_w as int, cell_h as int) by {
                let tile = node.tiles(inner, gap)[i].1;
                if 0 < cell_w <= tile.w {
                    crate::layout::geometry::snapped_is_whole_cells(tile.w as int, cell_w as int);
                }
                if 0 < cell_h <= tile.h {
                    crate::layout::geometry::snapped_is_whole_cells(tile.h as int, cell_h as int);
                }
            }
        }
    }
}

proof fn tiles_reach(node: Node, rect: Rect, gap: int)
    requires
        gap >= 0,
        rect.w >= 0,
        rect.h >= 0,
        fits_i32(rect.x + rect.w + gap * node.depth()),
        fits_i32(rect.y + rect.h + gap * node.depth()),
        fits_i32(gap),
    ensures
        forall|i: int|
            0 <= i < node.tiles(rect, gap).len() ==> {
                let tile = (#[trigger] node.tiles(rect, gap)[i]).1;
                &&& tile.w >= 0 && tile.h >= 0
                &&& tile.x + tile.w <= i32::MAX
                &&& tile.y + tile.h <= i32::MAX
            },
    decreases node,
{
    if let Node::Split { axis, ratio, a, b } = node {
        let d = node.depth() as int;
        let da = a.depth() as int;
        let db = b.depth() as int;
        assert(gap * d >= gap * da + gap && gap * d >= gap * db + gap && gap * da >= 0 && gap * db
            >= 0) by (nonlinear_arith)
            requires
                gap >= 0,
                da >= 0,
                db >= 0,
                d >= da + 1,
                d >= db + 1,
        ;
        first_part_is_a_part(rect.room(axis, gap), ratio as int);
        let (first, second) = rect.spec_split(axis, ratio as int, gap);
        tiles_reach(*a, first, gap);
        tiles_reach(*b, second, gap);
        let tiles = node.tiles(rect, gap);
        let left = a.tiles(first, gap);
        let right = b.tiles(second, gap);
        assert forall|i: int| 0 <= i < tiles.len() implies {
            let tile = (#[trigger] tiles[i]).1;
            &&& tile.w >= 0 && tile.h >= 0
            &&& tile.x + tile.w <= i32::MAX
            &&& tile.y + tile.h <= i32::MAX
        } by {
            if i < left.len() {
                assert(tiles[i] == left[i]);
            } else {
                assert(tiles[i] == right[i - left.len()]);
            }
        }
    }
}

} // verus!
