//! What each operation on a workspace does, said of its tree and of the tiles on screen.

use crate::ipc::WindowId;
use crate::layout::geometry::{first_part, Axis, Direction, Rect};
use crate::layout::tree::{
    auto_target, bare_tiles, beside_ratio, ids_are_never_empty, inserted, laid_out, layout_fits,
    longer_side, nearest, neighbor_of, plain_options, plain_tile, removed, tile_from, LayoutOptions,
    Node, Placement, DEFAULT_RATIO,
};
use crate::layout::laws::{ids_name_each_window_once, nearest_is_least, tiles_follow_ids};
use vstd::prelude::*;

verus! {

/// True when `after` is `before` with one part of it, `x`, replaced by `y`, and nothing else
/// changed: every other part has the same axis, the same share and the same windows.
pub open spec fn differs_at(before: Node, after: Node, x: Node, y: Node) -> bool
    decreases before,
{
    ||| before == x && after == y
    ||| match (before, after) {
        (
            Node::Split { axis, ratio, a, b },
            Node::Split { axis: new_axis, ratio: new_ratio, a: new_a, b: new_b },
        ) => {
            &&& axis == new_axis
            &&& ratio == new_ratio
            &&& (*a == *new_a && differs_at(*b, *new_b, x, y)) || (*b == *new_b && differs_at(
                *a,
                *new_a,
                x,
                y,
            ))
        },
        _ => false,
    }
}

/// True when `after` are the tiles `before` with those of one part exchanged for others.
pub open spec fn tiles_differ_at(
    before: Seq<(WindowId, Rect)>,
    after: Seq<(WindowId, Rect)>,
    front: Seq<(WindowId, Rect)>,
    old_part: Seq<(WindowId, Rect)>,
    new_part: Seq<(WindowId, Rect)>,
    back: Seq<(WindowId, Rect)>,
) -> bool {
    before == front + old_part + back && after == front + new_part + back
}

/// A change of one part of a tree stays where that part is: the part fills the same rectangle
/// before and after, and every tile outside it stays as it was.
#[verifier::spinoff_prover]
#[verifier::rlimit(60)]
pub proof fn a_change_stays_in_its_place(
    before: Node,
    after: Node,
    x: Node,
    y: Node,
    rect: Rect,
    gap: int,
) -> (r: (Seq<(WindowId, Rect)>, Rect, Seq<(WindowId, Rect)>))
    requires
        differs_at(before, after, x, y),
    ensures
        tiles_differ_at(
            before.tiles(rect, gap),
            after.tiles(rect, gap),
            r.0,
            x.tiles(r.1, gap),
            y.tiles(r.1, gap),
            r.2,
        ),
        after.tiles_fit(rect, gap) ==> y.tiles_fit(r.1, gap),
    decreases before,
{
    let none = Seq::<(WindowId, Rect)>::empty();
    if before == x && after == y {
        assert(none + x.tiles(rect, gap) + none =~= x.tiles(rect, gap));
        assert(none + y.tiles(rect, gap) + none =~= y.tiles(rect, gap));
        (none, rect, none)
    } else {
        match (before, after) {
            (Node::Split { axis, ratio, a, b }, Node::Split { a: new_a, b: new_b, .. }) => {
                let (first, second) = rect.spec_split(axis, ratio as int, gap);
                if *a == *new_a && differs_at(*b, *new_b, x, y) {
                    let (front, at, back) = a_change_stays_in_its_place(
                        *b,
                        *new_b,
                        x,
                        y,
                        second,
                        gap,
                    );
                    let left = a.tiles(first, gap);
                    assert(left + (front + x.tiles(at, gap) + back) =~= (left + front) + x.tiles(
                        at,
                        gap,
                    ) + back);
                    assert(left + (front + y.tiles(at, gap) + back) =~= (left + front) + y.tiles(
                        at,
                        gap,
                    ) + back);
                    (left + front, at, back)
                } else {
                    let (front, at, back) = a_change_stays_in_its_place(
                        *a,
                        *new_a,
                        x,
                        y,
                        first,
                        gap,
                    );
                    let right = b.tiles(second, gap);
                    assert((front + x.tiles(at, gap) + back) + right =~= front + x.tiles(at, gap)
                        + (back + right));
                    assert((front + y.tiles(at, gap) + back) + right =~= front + y.tiles(at, gap)
                        + (back + right));
                    (front, at, back + right)
                }
            },
            _ => (none, rect, none),
        }
    }
}

proof fn growing_changes_one_leaf(
    node: Node,
    target: WindowId,
    new: WindowId,
    axis: Axis,
    ratio: i32,
    new_is_second: bool,
)
    requires
        node.has(target),
    ensures
        differs_at(
            node,
            node.grown(target, new, axis, ratio, new_is_second),
            Node::Leaf(target),
            if new_is_second {
                Node::Split {
                    axis,
                    ratio,
                    a: Box::new(Node::Leaf(target)),
                    b: Box::new(Node::Leaf(new)),
                }
            } else {
                Node::Split {
                    axis,
                    ratio,
                    a: Box::new(Node::Leaf(new)),
                    b: Box::new(Node::Leaf(target)),
                }
            },
        ),
    decreases node,
{
    if let Node::Split { a, b, .. } = node {
        if a.has(target) {
            growing_changes_one_leaf(*a, target, new, axis, ratio, new_is_second);
        } else {
            growing_changes_one_leaf(*b, target, new, axis, ratio, new_is_second);
        }
    }
}

/// A share of a length in whole pixels is never more than half a pixel off.
proof fn part_is_its_share(available: int, ratio: int)
    requires
        0 <= available,
        0 <= ratio <= 1_000_000,
    ensures
        0 <= first_part(available, ratio) <= available,
        -1_000_000 <= 2 * (1_000_000 * first_part(available, ratio) - available * ratio)
            <= 1_000_000,
{
    let top = 2 * available * ratio + 1_000_000;
    assert(0 <= available * ratio <= available * 1_000_000 && 2 * available * ratio == 2 * (
    available * ratio)) by (nonlinear_arith)
        requires
            0 <= available,
            0 <= ratio <= 1_000_000,
    ;
    vstd::arithmetic::div_mod::lemma_fundamental_div_mod(top, 2_000_000);
}

/// A split divides a rectangle into two with the gap between them. Side by side they have its
/// full height, one above the other its full width. The first starts at the corner of the
/// rectangle, the second ends where the rectangle does, and the first gets its share of the
/// room, to the nearest pixel.
pub proof fn a_split_divides_a_rectangle(rect: Rect, axis: Axis, ratio: int, gap: int)
    requires
        rect.w >= 0,
        rect.h >= 0,
        gap >= 0,
        0 <= ratio <= 1_000_000,
        rect.split_fits(axis, ratio, gap),
    ensures
        ({
            let (first, second) = rect.spec_split(axis, ratio, gap);
            &&& first.x == rect.x && first.y == rect.y
            &&& match axis {
                Axis::Horizontal => {
                    &&& second.y == rect.y && first.h == rect.h && second.h == rect.h
                    &&& second.x == first.x + first.w + gap
                    &&& first.w >= 0 && second.w >= 0
                    &&& gap <= rect.w ==> {
                        &&& second.x + second.w == rect.x + rect.w
                        &&& -1_000_000 <= 2 * (1_000_000 * first.w - (rect.w - gap) * ratio)
                            <= 1_000_000
                    }
                    &&& gap >= rect.w ==> first.w == 0 && second.w == 0
                },
                Axis::Vertical => {
                    &&& second.x == rect.x && first.w == rect.w && second.w == rect.w
                    &&& second.y == first.y + first.h + gap
                    &&& first.h >= 0 && second.h >= 0
                    &&& gap <= rect.h ==> {
                        &&& second.y + second.h == rect.y + rect.h
                        &&& -1_000_000 <= 2 * (1_000_000 * first.h - (rect.h - gap) * ratio)
                            <= 1_000_000
                    }
                    &&& gap >= rect.h ==> first.h == 0 && second.h == 0
                },
            }
        }),
{
    part_is_its_share(rect.room(axis, gap), ratio);
}

proof fn found_tile(tiles: Seq<(WindowId, Rect)>, id: WindowId, k: int, from: int)
    requires
        0 <= from <= k < tiles.len(),
        tiles[k].0 == id,
        forall|i: int| 0 <= i < k ==> (#[trigger] tiles[i]).0 != id,
    ensures
        tile_from(tiles, id, from) == Some(tiles[k].1),
    decreases k - from,
{
    if from < k {
        found_tile(tiles, id, k, from + 1);
    }
}

/// The place of a window's tile. No window has two.
proof fn place_of_tile(node: Node, id: WindowId, rect: Rect, gap: int) -> (k: int)
    requires
        node.wf(),
        node.has(id),
    ensures
        0 <= k < node.tiles(rect, gap).len(),
        node.tiles(rect, gap)[k].0 == id,
        forall|i: int|
            0 <= i < node.tiles(rect, gap).len() && (#[trigger] node.tiles(rect, gap)[i]).0 == id
                ==> i == k,
{
    ids_name_each_window_once(node);
    tiles_follow_ids(node, rect, gap);
    let ids = node.ids();
    assert(ids.contains(id));
    let k = choose|k: int| 0 <= k < ids.len() && ids[k] == id;
    assert(node.tiles(rect, gap)[k].0 == ids[k]);
    assert forall|i: int|
        0 <= i < node.tiles(rect, gap).len() && (#[trigger] node.tiles(rect, gap)[i]).0
            == id implies i == k by {
        assert(node.tiles(rect, gap)[i].0 == ids[i]);
    }
    k
}

/// True when the tiles changed at one place only: the tile of `target` at `k` is now the two
/// tiles `one` and `two`, and every other tile is the same, in the same order.
pub open spec fn tile_was_split(
    before: Seq<(WindowId, Rect)>,
    after: Seq<(WindowId, Rect)>,
    k: int,
    one: (WindowId, Rect),
    two: (WindowId, Rect),
) -> bool {
    &&& 0 <= k < before.len()
    &&& after.len() == before.len() + 1
    &&& after[k] == one
    &&& after[k + 1] == two
    &&& forall|i: int| 0 <= i < k ==> #[trigger] after[i] == before[i]
    &&& forall|i: int| k < i < before.len() ==> after[i + 1] == #[trigger] before[i]
}

proof fn grown_tiles(
    node: Node,
    target: WindowId,
    new: WindowId,
    axis: Axis,
    ratio: i32,
    new_is_second: bool,
    area: Rect,
) -> (k: int)
    requires
        node.wf(),
        node.has(target),
    ensures
        ({
            let before = node.tiles(area, 0);
            let after = node.grown(target, new, axis, ratio, new_is_second).tiles(area, 0);
            let (first, second) = before[k].1.spec_split(axis, ratio as int, 0);
            &&& 0 <= k < before.len()
            &&& before[k].0 == target
            &&& tile_from(before, target, 0) == Some(before[k].1)
            &&& if new_is_second {
                tile_was_split(before, after, k, (target, first), (new, second))
            } else {
                tile_was_split(before, after, k, (new, first), (target, second))
            }
            &&& node.grown(target, new, axis, ratio, new_is_second).tiles_fit(area, 0)
                ==> before[k].1.split_fits(axis, ratio as int, 0)
        }),
{
    reveal_with_fuel(Node::tiles, 3);
    reveal_with_fuel(Node::tiles_fit, 2);
    growing_changes_one_leaf(node, target, new, axis, ratio, new_is_second);
    let grown = node.grown(target, new, axis, ratio, new_is_second);
    let part = if new_is_second {
        Node::Split {
            axis,
            ratio,
            a: Box::new(Node::Leaf(target)),
            b: Box::new(Node::Leaf(new)),
        }
    } else {
        Node::Split {
            axis,
            ratio,
            a: Box::new(Node::Leaf(new)),
            b: Box::new(Node::Leaf(target)),
        }
    };
    let (front, at, back) = a_change_stays_in_its_place(
        node,
        grown,
        Node::Leaf(target),
        part,
        area,
        0,
    );
    let before = node.tiles(area, 0);
    let after = grown.tiles(area, 0);
    let k = front.len() as int;
    assert(before[k] == (target, at));
    let home = place_of_tile(node, target, area, 0);
    assert(home == k);
    found_tile(before, target, k, 0);
    assert(part.tiles(at, 0).len() == 2);
    assert forall|i: int| k < i < before.len() implies after[i + 1] == #[trigger] before[i] by {
        assert(before[i] == back[i - k - 1]);
        assert(after[i + 1] == back[i + 1 - k - 2]);
    }
    k
}

proof fn grown_keeps_fit(node: Node, area: Rect)
    requires
        layout_fits(Some(node), area, plain_options()),
    ensures
        area.w >= 0 && area.h >= 0 ==> area.spec_inset(0) == area,
        area.w >= 0 && area.h >= 0 ==> laid_out(Some(node), area, plain_options()) == node.tiles(
            area,
            0,
        ),
{
    if area.w >= 0 && area.h >= 0 {
        assert(laid_out(Some(node), area, plain_options()) =~= node.tiles(area, 0));
    }
}

/// A window that is opened automatically while the window `f` has the focus takes half of the
/// tile of `f` and of no other: a wide tile is halved into left and right, a tall one into top
/// and bottom, `f` stays at the corner and the new window stands behind it. An odd pixel goes
/// to `f`. Every other window keeps its tile.
pub proof fn the_focused_window_is_halved(node: Node, id: WindowId, f: WindowId, area: Rect) -> (k:
    int)
    requires
        node.wf(),
        node.has(f),
        !node.has(id),
        area.w >= 0,
        area.h >= 0,
        layout_fits(Some(node), area, plain_options()),
        layout_fits(
            inserted(Some(node), id, Placement::Auto, Some(f), area),
            area,
            plain_options(),
        ),
    ensures
        ({
            let before = laid_out(Some(node), area, plain_options());
            let after = laid_out(
                inserted(Some(node), id, Placement::Auto, Some(f), area),
                area,
                plain_options(),
            );
            let t = before[k].1;
            let half_w = ((t.w + 1) / 2) as i32;
            let half_h = ((t.h + 1) / 2) as i32;
            &&& 0 <= k < before.len()
            &&& before[k].0 == f
            &&& t.w >= t.h ==> tile_was_split(
                before,
                after,
                k,
                (f, Rect { x: t.x, y: t.y, w: half_w, h: t.h }),
                (
                    id,
                    Rect { x: (t.x + half_w) as i32, y: t.y, w: (t.w - half_w) as i32, h: t.h },
                ),
            )
            &&& t.w < t.h ==> tile_was_split(
                before,
                after,
                k,
                (f, Rect { x: t.x, y: t.y, w: t.w, h: half_h }),
                (
                    id,
                    Rect { x: t.x, y: (t.y + half_h) as i32, w: t.w, h: (t.h - half_h) as i32 },
                ),
            )
        }),
{
    let axis = longer_side(plain_tile(Some(node), f, area));
    grown_keeps_fit(node, area);
    grown_keeps_fit(node.grown(f, id, axis, DEFAULT_RATIO, true), area);
    let k = grown_tiles(node, f, id, axis, DEFAULT_RATIO, true, area);
    let t = node.tiles(area, 0)[k].1;
    halves_of(node, area, k);
    assert(first_part(t.w as int, 500_000) == (t.w + 1) / 2);
    assert(first_part(t.h as int, 500_000) == (t.h + 1) / 2);
    k
}

proof fn halves_of(node: Node, area: Rect, k: int)
    requires
        area.w >= 0,
        area.h >= 0,
        0 <= k < node.tiles(area, 0).len(),
        layout_fits(Some(node), area, plain_options()),
    ensures
        node.tiles(area, 0)[k].1.w >= 0,
        node.tiles(area, 0)[k].1.h >= 0,
{
    crate::layout::laws::tiles_never_overlap(Some(node), area, plain_options());
    grown_keeps_fit(node, area);
    assert(laid_out(Some(node), area, plain_options())[k].1.w >= 0);
}

/// Where no window has the focus, or one that is not on this workspace, a window that is opened
/// automatically takes half of the tile of the last window.
pub proof fn without_a_focus_the_last_window_is_halved(
    node: Node,
    id: WindowId,
    focused: Option<WindowId>,
    area: Rect,
)
    requires
        focused matches Some(f) ==> !node.has(f),
    ensures
        node.has(node.ids().last()),
        inserted(Some(node), id, Placement::Auto, focused, area) == inserted(
            Some(node),
            id,
            Placement::Auto,
            Some(node.ids().last()),
            area,
        ),
{
    ids_are_never_empty(node);
}

/// A window that is opened beside another takes its share of the tile of that window, on the
/// side asked for and across the whole tile: the share is kept between a tenth and nine tenths,
/// and is met to the nearest pixel. Every other window keeps its tile.
pub proof fn a_window_stands_beside_its_anchor(
    node: Node,
    id: WindowId,
    anchor: WindowId,
    side: Direction,
    ratio: i32,
    focused: Option<WindowId>,
    area: Rect,
) -> (r: (int, int, int))
    requires
        node.wf(),
        node.has(anchor),
        !node.has(id),
        area.w >= 0,
        area.h >= 0,
        layout_fits(Some(node), area, plain_options()),
        layout_fits(
            inserted(
                Some(node),
                id,
                Placement::Beside { anchor, side, ratio },
                focused,
                area,
            ),
            area,
            plain_options(),
        ),
    ensures
        ({
            let before = laid_out(Some(node), area, plain_options());
            let after = laid_out(
                inserted(
                    Some(node),
                    id,
                    Placement::Beside { anchor, side, ratio },
                    focused,
                    area,
                ),
                area,
                plain_options(),
            );
            let (k, old_place, new_place) = r;
            let share = if ratio < 100_000 {
                100_000
            } else if ratio > 900_000 {
                900_000
            } else {
                ratio as int
            };
            let t = before[k].1;
            let kept = after[old_place].1;
            let new = after[new_place].1;
            &&& 0 <= k < before.len()
            &&& before[k].0 == anchor
            &&& after[old_place].0 == anchor
            &&& after[new_place].0 == id
            &&& (old_place == k && new_place == k + 1) || (old_place == k + 1 && new_place == k)
            &&& tile_was_split(before, after, k, after[k], after[k + 1])
            &&& match side {
                Direction::Right => {
                    &&& kept.x == t.x
                    &&& new.x == kept.x + kept.w
                },
                Direction::Left => {
                    &&& new.x == t.x
                    &&& kept.x == new.x + new.w
                },
                Direction::Down => {
                    &&& kept.y == t.y
                    &&& new.y == kept.y + kept.h
                },
                Direction::Up => {
                    &&& new.y == t.y
                    &&& kept.y == new.y + new.h
                },
            }
            &&& if side is Left || side is Right {
                &&& kept.y == t.y && kept.h == t.h && new.y == t.y && new.h == t.h
                &&& kept.w + new.w == t.w
                &&& -1_000_000 <= 2 * (1_000_000 * new.w - t.w * share) <= 1_000_000
            } else {
                &&& kept.x == t.x && kept.w == t.w && new.x == t.x && new.w == t.w
                &&& kept.h + new.h == t.h
                &&& -1_000_000 <= 2 * (1_000_000 * new.h - t.h * share) <= 1_000_000
            }
        }),
{
    let axis = side.spec_axis();
    let cut = beside_ratio(side, ratio as int) as i32;
    let second = side.forward();
    let share = if ratio < 100_000 {
        100_000
    } else if ratio > 900_000 {
        900_000
    } else {
        ratio as int
    };
    let grown = node.grown(anchor, id, axis, cut, second);
    grown_keeps_fit(node, area);
    grown_keeps_fit(grown, area);
    let k = grown_tiles(node, anchor, id, axis, cut, second, area);
    let t = node.tiles(area, 0)[k].1;
    halves_of(node, area, k);
    let room = if side is Left || side is Right {
        t.w as int
    } else {
        t.h as int
    };
    part_is_its_share(room, cut as int);
    assert(room * (1_000_000 - share) == 1_000_000 * room - room * share) by (nonlinear_arith);
    if second {
        (k, k, k + 1)
    } else {
        (k, k + 1, k)
    }
}

/// A window that goes leaves its space to its sibling: the split of the two is replaced by the
/// sibling as it stands, be it a window or a whole split, and nothing else in the tree changes.
/// Nothing is left only of a tree that was that one window.
pub proof fn the_sibling_takes_over(node: Node, id: WindowId) -> (r: (Axis, i32, Node, bool))
    requires
        node.wf(),
        node.has(id),
    ensures
        match removed(Some(node), id) {
            None => node == Node::Leaf(id),
            Some(rest) => {
                let (axis, ratio, sibling, first) = r;
                let pair = if first {
                    Node::Split {
                        axis,
                        ratio,
                        a: Box::new(Node::Leaf(id)),
                        b: Box::new(sibling),
                    }
                } else {
                    Node::Split {
                        axis,
                        ratio,
                        a: Box::new(sibling),
                        b: Box::new(Node::Leaf(id)),
                    }
                };
                differs_at(node, rest, pair, sibling)
            },
        },
    decreases node,
{
    match node {
        Node::Leaf(_) => (Axis::Horizontal, 0, node, true),
        Node::Split { axis, ratio, a, b } => {
            if a.has(id) {
                let r = the_sibling_takes_over(*a, id);
                if a.without(id) is None {
                    (axis, ratio, *b, true)
                } else {
                    r
                }
            } else {
                let r = the_sibling_takes_over(*b, id);
                if b.without(id) is None {
                    (axis, ratio, *a, false)
                } else {
                    r
                }
            }
        },
    }
}

/// Removing a window that is not there changes nothing.
pub proof fn removing_a_stranger_changes_nothing(root: Option<Node>, id: WindowId)
    requires
        root matches Some(node) ==> !node.has(id),
    ensures
        removed(root, id) == root,
{
}

/// True when a window is enclosed by a split along an axis: there is an edge to move.
pub open spec fn has_edge(node: Node, id: WindowId, axis: Axis) -> bool
    decreases node,
{
    match node {
        Node::Leaf(_) => false,
        Node::Split { axis: own, a, b, .. } => {
            ||| own == axis && (a.has(id) || b.has(id))
            ||| has_edge(*a, id, axis)
            ||| has_edge(*b, id, axis)
        },
    }
}

/// Left and right move edges between windows side by side, up and down those between windows
/// one above the other.
pub open spec fn edges_of(dir: Direction) -> Axis {
    if dir is Left || dir is Right {
        Axis::Horizontal
    } else {
        Axis::Vertical
    }
}

/// Moving an edge changes the share of one split only, the closest one that encloses the window
/// along that axis: neither of its sides encloses the window along the axis. The edge moves
/// towards `dir`, and stays between a tenth and nine tenths. There is no edge only where no split
/// encloses the window along the axis.
pub proof fn the_closest_edge_moves(node: Node, id: WindowId, dir: Direction, delta: int) -> (r: (
    i32,
    Node,
    Node,
))
    requires
        node.wf(),
    ensures
        node.nudged(id, dir, delta) is Some <==> has_edge(node, id, edges_of(dir)),
        node.nudged(id, dir, delta) matches Some(moved) ==> {
            let (ratio, a, b) = r;
            let asked = if dir is Right || dir is Down {
                ratio + delta
            } else {
                ratio - delta
            };
            let edge = if asked < 100_000 {
                100_000
            } else if asked > 900_000 {
                900_000
            } else {
                asked
            };
            &&& a.has(id) || b.has(id)
            &&& !has_edge(a, id, edges_of(dir))
            &&& !has_edge(b, id, edges_of(dir))
            &&& differs_at(
                node,
                moved,
                Node::Split { axis: edges_of(dir), ratio, a: Box::new(a), b: Box::new(b) },
                Node::Split {
                    axis: edges_of(dir),
                    ratio: edge as i32,
                    a: Box::new(a),
                    b: Box::new(b),
                },
            )
        },
    decreases node,
{
    match node {
        Node::Leaf(_) => (0, node, node),
        Node::Split { axis, ratio, a, b } => {
            let in_a = the_closest_edge_moves(*a, id, dir, delta);
            let in_b = the_closest_edge_moves(*b, id, dir, delta);
            no_edge_without_window(*a, id, edges_of(dir));
            no_edge_without_window(*b, id, edges_of(dir));
            assert(!(a.has(id) && b.has(id)));
            if a.has(id) && a.nudged(id, dir, delta) is Some {
                in_a
            } else if b.has(id) && b.nudged(id, dir, delta) is Some {
                in_b
            } else {
                (ratio, *a, *b)
            }
        },
    }
}

proof fn no_edge_without_window(node: Node, id: WindowId, axis: Axis)
    ensures
        !node.has(id) ==> !has_edge(node, id, axis),
    decreases node,
{
    if let Node::Split { a, b, .. } = node {
        no_edge_without_window(*a, id, axis);
        no_edge_without_window(*b, id, axis);
    }
}

/// Swapping two windows trades their tiles: where the one stood stands the other, and every
/// other window keeps its tile.
pub proof fn swapped_windows_trade_tiles(
    node: Node,
    x: WindowId,
    y: WindowId,
    rect: Rect,
    gap: int,
    i: int,
)
    requires
        0 <= i < node.tiles(rect, gap).len(),
    ensures
        ({
            let before = node.tiles(rect, gap);
            let after = node.exchanged(x, y).tiles(rect, gap);
            &&& after.len() == before.len()
            &&& after[i].1 == before[i].1
            &&& before[i].0 == x ==> after[i].0 == y
            &&& before[i].0 == y ==> after[i].0 == x
            &&& before[i].0 != x && before[i].0 != y ==> after[i].0 == before[i].0
        }),
{
    crate::layout::laws::exchange_keeps_rectangles(node, x, y, rect, gap);
}

/// True when the two rectangles have a row in common.
pub open spec fn share_a_row(a: Rect, b: Rect) -> bool {
    a.y < b.y + b.h && b.y < a.y + a.h
}

/// True when the two rectangles have a column in common.
pub open spec fn share_a_column(a: Rect, b: Rect) -> bool {
    a.x < b.x + b.w && b.x < a.x + a.w
}

/// How far apart two numbers are.
pub open spec fn apart(a: int, b: int) -> int {
    if a < b {
        b - a
    } else {
        a - b
    }
}

/// The neighbour to the right of a window is the one whose left edge is nearest to the window's
/// right edge, among the windows that lie wholly to its right and share a row with it; of
/// equally near ones it is the one whose top is nearest to the window's top. So no window that
/// faces it lies between the two. There is none only if no window lies there. The other three
/// directions are the same, turned.
pub proof fn the_neighbour_is_the_nearest(
    node: Node,
    id: WindowId,
    dir: Direction,
    area: Rect,
    opts: LayoutOptions,
    i: int,
    j: int,
)
    requires
        node.wf(),
        opts.snap is None,
        0 <= i < laid_out(Some(node), area, opts).len(),
        0 <= j < laid_out(Some(node), area, opts).len(),
        laid_out(Some(node), area, opts)[i].0 == id,
        i != j,
    ensures
        ({
            let tiles = laid_out(Some(node), area, opts);
            let m = tiles[i].1;
            let u = tiles[j].1;
            let found = neighbor_of(Some(node), id, dir, area, opts.gaps as int);
            let there = match dir {
                Direction::Right => u.x >= m.x + m.w && share_a_row(m, u),
                Direction::Left => u.x + u.w <= m.x && share_a_row(m, u),
                Direction::Down => u.y >= m.y + m.h && share_a_column(m, u),
                Direction::Up => u.y + u.h <= m.y && share_a_column(m, u),
            };
            match found {
                None => !there,
                Some(other) => exists|k: int|
                    0 <= k < tiles.len() && k != i && (#[trigger] tiles[k]).0 == other && {
                        let t = tiles[k].1;
                        match dir {
                            Direction::Right => {
                                &&& t.x >= m.x + m.w && share_a_row(m, t)
                                &&& there ==> t.x <= u.x
                                &&& there && t.x == u.x ==> apart(t.y as int, m.y as int) <= apart(
                                    u.y as int,
                                    m.y as int,
                                )
                                &&& there && t.x == u.x && apart(t.y as int, m.y as int) == apart(
                                    u.y as int,
                                    m.y as int,
                                ) ==> k <= j
                            },
                            Direction::Left => {
                                &&& t.x + t.w <= m.x && share_a_row(m, t)
                                &&& there ==> t.x + t.w >= u.x + u.w
                                &&& there && t.x + t.w == u.x + u.w ==> apart(
                                    t.y as int,
                                    m.y as int,
                                ) <= apart(u.y as int, m.y as int)
                                &&& there && t.x + t.w == u.x + u.w && apart(
                                    t.y as int,
                                    m.y as int,
                                ) == apart(u.y as int, m.y as int) ==> k <= j
                            },
                            Direction::Down => {
                                &&& t.y >= m.y + m.h && share_a_column(m, t)
                                &&& there ==> t.y <= u.y
                                &&& there && t.y == u.y ==> apart(t.x as int, m.x as int) <= apart(
                                    u.x as int,
                                    m.x as int,
                                )
                                &&& there && t.y == u.y && apart(t.x as int, m.x as int) == apart(
                                    u.x as int,
                                    m.x as int,
                                ) ==> k <= j
                            },
                            Direction::Up => {
                                &&& t.y + t.h <= m.y && share_a_column(m, t)
                                &&& there ==> t.y + t.h >= u.y + u.h
                                &&& there && t.y + t.h == u.y + u.h ==> apart(
                                    t.x as int,
                                    m.x as int,
                                ) <= apart(u.x as int, m.x as int)
                                &&& there && t.y + t.h == u.y + u.h && apart(
                                    t.x as int,
                                    m.x as int,
                                ) == apart(u.x as int, m.x as int) ==> k <= j
                            },
                        }
                    },
            }
        }),
{
    let gap = opts.gaps as int;
    let inner = area.spec_inset(gap);
    let tiles = bare_tiles(Some(node), area, gap);
    let shown = laid_out(Some(node), area, opts);
    assert(shown =~= tiles);
    assert(tiles == node.tiles(inner, gap));
    tiles_follow_ids(node, inner, gap);
    ids_name_each_window_once(node);
    assert(tiles[i].0 == node.ids()[i]);
    assert(node.ids().contains(id));
    let home = place_of_tile(node, id, inner, gap);
    found_tile(tiles, id, i, 0);
    let m = tiles[i].1;
    nearest_is_least(tiles, id, m, dir, tiles.len() as int);
    assert(tiles[j].0 == node.ids()[j]);
    assert(tiles[j].0 != id);
    let candidate = crate::layout::tree::is_candidate(tiles, id, m, dir, j);
    if let Some(k) = nearest(tiles, id, m, dir, tiles.len() as int) {
        assert(crate::layout::tree::is_candidate(tiles, id, m, dir, k));
        assert(shown[k] == tiles[k]);
        assert(k != i);
        assert(shown[k].0 == tiles[k].0);
    }
}

/// A window that is not on the workspace has no neighbour.
pub proof fn strangers_have_no_neighbour(
    root: Option<Node>,
    id: WindowId,
    dir: Direction,
    area: Rect,
    gaps: int,
)
    requires
        root matches Some(node) ==> !node.has(id),
    ensures
        neighbor_of(root, id, dir, area, gaps) is None,
{
    if let Some(node) = root {
        let tiles = bare_tiles(root, area, gaps);
        tiles_follow_ids(node, area.spec_inset(gaps), gaps);
        ids_name_each_window_once(node);
        assert forall|i: int| 0 <= i < tiles.len() implies (#[trigger] tiles[i]).0 != id by {
            assert(tiles[i].0 == node.ids()[i]);
            assert(node.ids().contains(node.ids()[i]));
        }
        no_tile(tiles, id, 0);
    }
}

proof fn no_tile(tiles: Seq<(WindowId, Rect)>, id: WindowId, from: int)
    requires
        0 <= from,
        forall|i: int| 0 <= i < tiles.len() ==> (#[trigger] tiles[i]).0 != id,
    ensures
        tile_from(tiles, id, from) is None,
    decreases tiles.len() - from,
{
    if from < tiles.len() {
        no_tile(tiles, id, from + 1);
    }
}

/// True when there are at least `gap` pixels between two rectangles, across or down.
pub open spec fn gap_between(a: Rect, b: Rect, gap: int) -> bool {
    ||| a.x + a.w + gap <= b.x
    ||| b.x + b.w + gap <= a.x
    ||| a.y + a.h + gap <= b.y
    ||| b.y + b.h + gap <= a.y
}

/// True when something of a rectangle can be seen.
pub open spec fn visible(a: Rect) -> bool {
    a.w > 0 && a.h > 0
}

/// True when `inner` lies within `outer`.
pub open spec fn inside(outer: Rect, inner: Rect) -> bool {
    &&& outer.x <= inner.x && inner.x + inner.w <= outer.x + outer.w
    &&& outer.y <= inner.y && inner.y + inner.h <= outer.y + outer.h
}

proof fn visible_tiles_lie_inside(node: Node, rect: Rect, gap: int, i: int)
    requires
        rect.w >= 0,
        rect.h >= 0,
        gap >= 0,
        node.wf(),
        node.tiles_fit(rect, gap),
        0 <= i < node.tiles(rect, gap).len(),
        visible(node.tiles(rect, gap)[i].1),
    ensures
        visible(rect),
        inside(rect, node.tiles(rect, gap)[i].1),
    decreases node,
{
    if let Node::Split { axis, ratio, a, b } = node {
        let (first, second) = rect.spec_split(axis, ratio as int, gap);
        a_split_divides_a_rectangle(rect, axis, ratio as int, gap);
        let left = a.tiles(first, gap);
        if i < left.len() {
            visible_tiles_lie_inside(*a, first, gap, i);
        } else {
            visible_tiles_lie_inside(*b, second, gap, i - left.len());
        }
    }
}

proof fn visible_tiles_are_apart(node: Node, rect: Rect, gap: int, i: int, j: int)
    requires
        rect.w >= 0,
        rect.h >= 0,
        gap >= 0,
        node.wf(),
        node.tiles_fit(rect, gap),
        0 <= i < j < node.tiles(rect, gap).len(),
        visible(node.tiles(rect, gap)[i].1),
        visible(node.tiles(rect, gap)[j].1),
    ensures
        gap_between(node.tiles(rect, gap)[i].1, node.tiles(rect, gap)[j].1, gap),
    decreases node,
{
    if let Node::Split { axis, ratio, a, b } = node {
        let (first, second) = rect.spec_split(axis, ratio as int, gap);
        a_split_divides_a_rectangle(rect, axis, ratio as int, gap);
        let left = a.tiles(first, gap);
        if j < left.len() {
            visible_tiles_are_apart(*a, first, gap, i, j);
        } else if i >= left.len() {
            visible_tiles_are_apart(*b, second, gap, i - left.len(), j - left.len());
        } else {
            visible_tiles_lie_inside(*a, first, gap, i);
            visible_tiles_lie_inside(*b, second, gap, j - left.len());
        }
    }
}

/// Windows keep the gap: there are at least `gaps` pixels between any two tiles that can be
/// seen, and between such a tile and each edge of the screen.
pub proof fn tiles_keep_the_gap(node: Node, area: Rect, gaps: i32, i: int, j: int)
    requires
        node.wf(),
        gaps >= 0,
        layout_fits(Some(node), area, (LayoutOptions { gaps, snap: None })),
        0 <= i < j < laid_out(Some(node), area, (LayoutOptions { gaps, snap: None })).len(),
    ensures
        ({
            let tiles = laid_out(Some(node), area, (LayoutOptions { gaps, snap: None }));
            let t = tiles[i].1;
            let u = tiles[j].1;
            &&& visible(t) ==> {
                &&& t.x >= area.x + gaps
                &&& t.y >= area.y + gaps
                &&& t.x + t.w + gaps <= area.x + area.w
                &&& t.y + t.h + gaps <= area.y + area.h
            }
            &&& visible(u) ==> {
                &&& u.x >= area.x + gaps
                &&& u.y >= area.y + gaps
                &&& u.x + u.w + gaps <= area.x + area.w
                &&& u.y + u.h + gaps <= area.y + area.h
            }
            &&& visible(t) && visible(u) ==> gap_between(t, u, gaps as int)
        }),
{
    let opts = LayoutOptions { gaps, snap: None };
    let inner = area.spec_inset(gaps as int);
    let tiles = node.tiles(inner, gaps as int);
    assert(laid_out(Some(node), area, opts) =~= tiles);
    if visible(tiles[i].1) {
        visible_tiles_lie_inside(node, inner, gaps as int, i);
    }
    if visible(tiles[j].1) {
        visible_tiles_lie_inside(node, inner, gaps as int, j);
    }
    if visible(tiles[i].1) && visible(tiles[j].1) {
        visible_tiles_are_apart(node, inner, gaps as int, i, j);
    }
}

/// A window alone on its workspace has the whole screen but for the gap along its edges.
pub proof fn one_window_has_the_screen(id: WindowId, area: Rect, gaps: i32)
    requires
        gaps >= 0,
        2 * gaps <= area.w,
        2 * gaps <= area.h,
        layout_fits(Some(Node::Leaf(id)), area, (LayoutOptions { gaps, snap: None })),
    ensures
        ({
            let tiles = laid_out(
                Some(Node::Leaf(id)),
                area,
                (LayoutOptions { gaps, snap: None }),
            );
            let t = tiles[0].1;
            &&& tiles.len() == 1
            &&& tiles[0].0 == id
            &&& t.x == area.x + gaps
            &&& t.y == area.y + gaps
            &&& t.x + t.w == area.x + area.w - gaps
            &&& t.y + t.h == area.y + area.h - gaps
        }),
{
    reveal_with_fuel(Node::tiles, 2);
}

/// Snapping to cells keeps every window where it is: a tile as long as a cell or longer shrinks
/// to the most whole cells that it has room for, in its middle, and another one stays.
pub proof fn snapping_stays_inside_the_tile(
    node: Node,
    area: Rect,
    gaps: i32,
    cell_w: i32,
    cell_h: i32,
    i: int,
)
    requires
        cell_w > 0,
        cell_h > 0,
        gaps >= 0,
        node.wf(),
        layout_fits(Some(node), area, (LayoutOptions { gaps, snap: Some((cell_w, cell_h)) })),
        0 <= i < laid_out(Some(node), area, (LayoutOptions { gaps, snap: None })).len(),
    ensures
        ({
            let plain = laid_out(Some(node), area, (LayoutOptions { gaps, snap: None }));
            let cells = laid_out(
                Some(node),
                area,
                (LayoutOptions { gaps, snap: Some((cell_w, cell_h)) }),
            );
            let t = plain[i].1;
            let s = cells[i].1;
            &&& cells.len() == plain.len()
            &&& cells[i].0 == plain[i].0
            &&& t.w >= cell_w ==> whole_cells_in_the_middle(
                t.x as int,
                t.w as int,
                s.x as int,
                s.w as int,
                cell_w as int,
            )
            &&& t.w < cell_w ==> s.x == t.x && s.w == t.w
            &&& t.h >= cell_h ==> whole_cells_in_the_middle(
                t.y as int,
                t.h as int,
                s.y as int,
                s.h as int,
                cell_h as int,
            )
            &&& t.h < cell_h ==> s.y == t.y && s.h == t.h
        }),
{
    let opts = LayoutOptions { gaps, snap: Some((cell_w, cell_h)) };
    let plain = laid_out(Some(node), area, (LayoutOptions { gaps, snap: None }));
    let tiles = bare_tiles(Some(node), area, gaps as int);
    assert(plain =~= tiles);
    let t = tiles[i].1;
    assert(t.snap_fits(cell_w as int, cell_h as int));
    if t.w >= cell_w {
        crate::layout::geometry::snapped_is_whole_cells(t.w as int, cell_w as int);
    }
    if t.h >= cell_h {
        crate::layout::geometry::snapped_is_whole_cells(t.h as int, cell_h as int);
    }
}

/// True when a stretch from `x` on was cut to whole cells in its middle, as many as fit; of an
/// odd rest the end has one pixel more.
pub open spec fn whole_cells_in_the_middle(
    x: int,
    length: int,
    new_x: int,
    new_length: int,
    cell: int,
) -> bool {
    let before = new_x - x;
    let behind = (x + length) - (new_x + new_length);
    &&& new_length % cell == 0
    &&& 0 <= before <= behind <= before + 1
    &&& before + behind < cell
}

/// The windows of the first part of a split come before those of the second, in the list of
/// windows and in that of the tiles.
pub proof fn the_first_part_comes_first(
    axis: Axis,
    ratio: i32,
    a: Node,
    b: Node,
    rect: Rect,
    gap: int,
    i: int,
)
    requires
        0 <= i < a.ids().len() + b.ids().len(),
    ensures
        ({
            let node = Node::Split { axis, ratio, a: Box::new(a), b: Box::new(b) };
            let n = a.ids().len();
            &&& node.ids().len() == n + b.ids().len()
            &&& i < n ==> node.ids()[i] == a.ids()[i] && node.tiles(rect, gap)[i].0 == a.ids()[i]
            &&& i >= n ==> node.ids()[i] == b.ids()[i - n] && node.tiles(rect, gap)[i].0
                == b.ids()[i - n]
        }),
{
    let node = Node::Split { axis, ratio, a: Box::new(a), b: Box::new(b) };
    tiles_follow_ids(node, rect, gap);
}

/// A window that is there already is not inserted again, and one beside a window that is not
/// there is not inserted at all; an empty workspace is filled by its first window.
pub proof fn some_windows_are_not_inserted(
    root: Option<Node>,
    id: WindowId,
    placement: Placement,
    focused: Option<WindowId>,
    area: Rect,
)
    ensures
        root matches Some(node) && node.has(id) ==> inserted(root, id, placement, focused, area)
            == root,
        root matches Some(node) && placement matches Placement::Beside { anchor, .. } && !node.has(
            anchor,
        ) ==> inserted(root, id, placement, focused, area) == root,
        root is None ==> inserted(root, id, placement, focused, area) == Some(Node::Leaf(id)),
{
}

} // verus!
