//! The split tree of a workspace, and the rectangles that it produces.

use tessera::ipc::WindowId;
use tessera::layout::geometry::{Axis, Direction, Rect};
use tessera::layout::tree::{LayoutOptions, LayoutTree, Placement};

const AREA: Rect = Rect { x: 0, y: 0, w: 1000, h: 800 };
const A: WindowId = WindowId(1);
const B: WindowId = WindowId(2);
const C: WindowId = WindowId(3);
const ONLY: WindowId = WindowId(4);
const GHOST: WindowId = WindowId(99);

fn opts(gaps: i32) -> LayoutOptions {
    LayoutOptions { gaps, snap: None }
}

/// Builds a tree the way the session does: each new window splits the previous one.
fn dwindle(ids: &[WindowId]) -> LayoutTree {
    let mut tree = LayoutTree::new();
    let mut focus: Option<WindowId> = None;
    for id in ids {
        tree.insert(*id, Placement::Auto, focus, AREA);
        focus = Some(*id);
    }
    tree
}

fn rect(tree: &LayoutTree, id: WindowId, opts: LayoutOptions) -> Rect {
    tree.layout(AREA, opts)
        .into_iter()
        .find(|(other, _)| *other == id)
        .unwrap_or_else(|| panic!("{id:?} is not in the tree"))
        .1
}

#[test]
fn empty_tree_has_no_windows() {
    let tree: LayoutTree = LayoutTree::new();
    assert!(tree.is_empty());
    assert_eq!(tree.len(), 0);
    assert!(tree.layout(AREA, opts(0)).is_empty());
    assert!(!tree.contains(A));
}

#[test]
fn first_window_fills_the_area() {
    let tree = dwindle(&[A]);
    assert_eq!(rect(&tree, A, opts(0)), AREA);
}

#[test]
fn second_window_splits_the_longer_side() {
    // 1000x800 is wider than tall, so the split is left/right.
    let tree = dwindle(&[A, B]);
    assert_eq!(rect(&tree, A, opts(0)), Rect::new(0, 0, 500, 800));
    assert_eq!(rect(&tree, B, opts(0)), Rect::new(500, 0, 500, 800));
}

#[test]
fn third_window_dwindles_into_the_focused_tile() {
    // b's tile is 500x800, taller than wide, so it splits top/bottom.
    let tree = dwindle(&[A, B, C]);
    assert_eq!(rect(&tree, A, opts(0)), Rect::new(0, 0, 500, 800));
    assert_eq!(rect(&tree, B, opts(0)), Rect::new(500, 0, 500, 400));
    assert_eq!(rect(&tree, C, opts(0)), Rect::new(500, 400, 500, 400));
    assert_eq!(tree.ids(), vec![A, B, C]);
}

#[test]
fn auto_insert_without_focus_splits_the_last_window() {
    let mut tree = dwindle(&[A, B]);
    tree.insert(C, Placement::Auto, None, AREA);
    assert_eq!(rect(&tree, B, opts(0)), Rect::new(500, 0, 500, 400));
    assert_eq!(rect(&tree, C, opts(0)), Rect::new(500, 400, 500, 400));
}

#[test]
fn beside_gives_the_new_window_its_share() {
    let mut tree = dwindle(&[A]);
    tree.insert(B,
        Placement::Beside {
            anchor: A,
            side: Direction::Right,
            ratio: 600_000,
        },
        None,
        AREA,
    );
    // The new window takes 60% on the right; this is the §8 tiled-terminal case.
    assert_eq!(rect(&tree, A, opts(0)), Rect::new(0, 0, 400, 800));
    assert_eq!(rect(&tree, B, opts(0)), Rect::new(400, 0, 600, 800));
}

#[test]
fn beside_can_place_the_new_window_first() {
    let mut tree = dwindle(&[A]);
    tree.insert(B,
        Placement::Beside {
            anchor: A,
            side: Direction::Left,
            ratio: 250_000,
        },
        None,
        AREA,
    );
    assert_eq!(rect(&tree, B, opts(0)), Rect::new(0, 0, 250, 800));
    assert_eq!(rect(&tree, A, opts(0)), Rect::new(250, 0, 750, 800));
}

#[test]
fn beside_clamps_extreme_ratios() {
    let mut tree = dwindle(&[A]);
    tree.insert(B,
        Placement::Beside {
            anchor: A,
            side: Direction::Right,
            ratio: 990_000,
        },
        None,
        AREA,
    );
    assert_eq!(rect(&tree, B, opts(0)).w, 900);
}

#[test]
fn beside_an_unknown_anchor_does_nothing() {
    let mut tree = dwindle(&[A]);
    tree.insert(B,
        Placement::Beside {
            anchor: GHOST,
            side: Direction::Right,
            ratio: 500_000,
        },
        None,
        AREA,
    );
    assert_eq!(tree.ids(), vec![A]);
}

#[test]
fn inserting_a_duplicate_id_is_ignored() {
    let mut tree = dwindle(&[A, B]);
    tree.insert(B, Placement::Auto, Some(A), AREA);
    assert_eq!(tree.ids(), vec![A, B]);
}

#[test]
fn removing_the_only_window_empties_the_tree() {
    let mut tree = dwindle(&[A]);
    assert!(tree.remove(A));
    assert!(tree.is_empty());
    assert!(!tree.remove(A));
}

#[test]
fn removing_a_deep_leaf_gives_its_space_to_its_sibling() {
    let mut tree = dwindle(&[A, B, C]);
    assert!(tree.remove(C));
    assert_eq!(tree.ids(), vec![A, B]);
    // b reclaims the whole right half.
    assert_eq!(rect(&tree, B, opts(0)), Rect::new(500, 0, 500, 800));
    assert_eq!(rect(&tree, A, opts(0)), Rect::new(0, 0, 500, 800));
}

#[test]
fn removing_a_middle_window_lets_the_others_reclaim_the_space() {
    let mut tree = dwindle(&[A, B, C]);
    assert!(tree.remove(B));
    assert_eq!(rect(&tree, C, opts(0)), Rect::new(500, 0, 500, 800));
}

#[test]
fn removing_an_unknown_window_reports_false() {
    let mut tree = dwindle(&[A, B]);
    assert!(!tree.remove(GHOST));
    assert_eq!(tree.len(), 2);
}

#[test]
fn neighbor_finds_the_window_sharing_an_edge() {
    let tree = dwindle(&[A, B, C]);
    // a is the left half; b is top-right, c is bottom-right.
    assert_eq!(
        tree.neighbor(A, Direction::Right, AREA, opts(0)),
        Some(B)
    );
    assert_eq!(
        tree.neighbor(B, Direction::Left, AREA, opts(0)),
        Some(A)
    );
    assert_eq!(
        tree.neighbor(B, Direction::Down, AREA, opts(0)),
        Some(C)
    );
    assert_eq!(tree.neighbor(C, Direction::Up, AREA, opts(0)), Some(B));
}

#[test]
fn neighbor_stops_at_the_screen_edge() {
    let tree = dwindle(&[A, B, C]);
    assert_eq!(tree.neighbor(A, Direction::Left, AREA, opts(0)), None);
    assert_eq!(tree.neighbor(A, Direction::Up, AREA, opts(0)), None);
    assert_eq!(tree.neighbor(C, Direction::Down, AREA, opts(0)), None);
    assert_eq!(tree.neighbor(GHOST, Direction::Up, AREA, opts(0)), None);
}

#[test]
fn neighbor_still_works_across_gaps() {
    let tree = dwindle(&[A, B]);
    assert_eq!(
        tree.neighbor(A, Direction::Right, AREA, opts(10)),
        Some(B)
    );
}

#[test]
fn swap_exchanges_two_tiles() {
    let mut tree = dwindle(&[A, B, C]);
    let before = rect(&tree, A, opts(0));
    assert!(tree.swap(A, Direction::Right, AREA, opts(0)));
    assert_eq!(rect(&tree, B, opts(0)), before);
    assert_eq!(rect(&tree, A, opts(0)), Rect::new(500, 0, 500, 400));
    assert_eq!(tree.len(), 3);
}

#[test]
fn swap_without_a_neighbour_changes_nothing() {
    let mut tree = dwindle(&[A, B]);
    let before = tree.clone();
    assert!(!tree.swap(A, Direction::Left, AREA, opts(0)));
    assert_eq!(tree, before);
}

#[test]
fn resize_moves_the_edge_in_the_given_direction() {
    let mut tree = dwindle(&[A, B]);
    assert!(tree.resize(A, Direction::Right, 50_000));
    assert_eq!(rect(&tree, A, opts(0)).w, 550);
    assert!(tree.resize(A, Direction::Left, 50_000));
    assert_eq!(rect(&tree, A, opts(0)).w, 500);
}

#[test]
fn resize_clamps_between_10_and_90_percent() {
    let mut tree = dwindle(&[A, B]);
    for _ in 0..20 {
        assert!(tree.resize(A, Direction::Right, 50_000));
    }
    assert_eq!(rect(&tree, A, opts(0)).w, 900);
    for _ in 0..40 {
        assert!(tree.resize(A, Direction::Left, 50_000));
    }
    assert_eq!(rect(&tree, A, opts(0)).w, 100);
}

#[test]
fn resize_uses_the_split_closest_to_the_window() {
    let mut tree = dwindle(&[A, B, C]);
    // c sits in the inner top/bottom split, so Down moves that edge...
    assert!(tree.resize(C, Direction::Down, 50_000));
    assert_eq!(rect(&tree, B, opts(0)).h, 440);
    assert_eq!(rect(&tree, A, opts(0)).w, 500);
    // ...while Right has to climb to the outer left/right split.
    assert!(tree.resize(C, Direction::Right, 50_000));
    assert_eq!(rect(&tree, A, opts(0)).w, 550);
}

#[test]
fn resize_reports_false_when_no_split_matches() {
    let mut tree = dwindle(&[A, B]);
    assert!(!tree.resize(A, Direction::Up, 50_000));
    assert!(!tree.resize(GHOST, Direction::Right, 50_000));
    let single = dwindle(&[ONLY]);
    assert!(!single.clone().resize(ONLY, Direction::Right, 50_000));
}

#[test]
fn gaps_surround_every_tile() {
    let tree = dwindle(&[A, B]);
    let a = rect(&tree, A, opts(10));
    let b = rect(&tree, B, opts(10));
    assert_eq!(a, Rect::new(10, 10, 485, 780));
    assert_eq!(b, Rect::new(505, 10, 485, 780));
    // Equal gaps at both screen edges and between the tiles.
    assert_eq!(a.x, AREA.w - b.right());
    assert_eq!(b.x - a.right(), 10);
}

#[test]
fn snapping_shrinks_tiles_to_whole_cells_and_centres_the_remainder() {
    let tree = dwindle(&[A]);
    let snapped = rect(
        &tree,
        A,
        LayoutOptions {
            gaps: 0,
            snap: Some((12, 17)),
        },
    );
    // 1000 = 83 cells of 12 + 4 spare: 2px joins the gap on each side.
    assert_eq!((snapped.x, snapped.w), (2, 996));
    assert_eq!(snapped.w % 12, 0);
    // 800 = 47 cells of 17 + 1 spare, which cannot be split evenly.
    assert_eq!((snapped.y, snapped.h), (0, 799));
    assert_eq!(snapped.h % 17, 0);
}

#[test]
fn snapping_keeps_tiles_that_are_smaller_than_one_cell() {
    let tree = dwindle(&[A]);
    let snapped = tree.layout(
        Rect::new(0, 0, 10, 10),
        LayoutOptions {
            gaps: 0,
            snap: Some((100, 100)),
        },
    );
    assert_eq!(snapped[0].1, Rect::new(0, 0, 10, 10));
}

#[test]
fn a_tiny_area_never_produces_negative_sizes() {
    let tree = dwindle(&[A, B, C]);
    for (_, rect) in tree.layout(Rect::new(0, 0, 4, 4), opts(8)) {
        assert!(rect.w >= 0 && rect.h >= 0, "{rect:?}");
    }
}

#[test]
fn removing_a_window_undoes_inserting_it() {
    let mut tree = dwindle(&[A, B]);
    let before = tree.clone();
    tree.insert(C, Placement::Auto, Some(A), AREA);
    assert_ne!(tree, before);
    assert!(tree.remove(C));
    assert_eq!(tree, before);
}

#[test]
fn swapping_twice_changes_nothing() {
    let mut tree = dwindle(&[A, B, C]);
    let before = tree.clone();
    assert!(tree.swap(B, Direction::Down, AREA, opts(0)));
    assert_eq!(tree.ids(), vec![A, C, B]);
    assert!(tree.swap(B, Direction::Up, AREA, opts(0)));
    assert_eq!(tree, before);
}

#[test]
fn tiles_cover_the_area_without_overlapping() {
    let tree = dwindle(&[A, B, C]);
    let tiles = tree.layout(AREA, opts(0));
    let pixels: i64 = tiles.iter().map(|(_, r)| r.w as i64 * r.h as i64).sum();
    assert_eq!(pixels, 1000 * 800);
    for (i, (_, p)) in tiles.iter().enumerate() {
        for (_, q) in &tiles[i + 1..] {
            assert!(p.right() <= q.x || q.right() <= p.x || p.bottom() <= q.y || q.bottom() <= p.y);
        }
    }
}

#[test]
fn directions_have_an_axis_and_a_way() {
    assert_eq!(Direction::Left.axis(), Axis::Horizontal);
    assert_eq!(Direction::Down.axis(), Axis::Vertical);
    assert!(Direction::Right.is_forward() && Direction::Down.is_forward());
    assert!(!Direction::Left.is_forward() && !Direction::Up.is_forward());
}

#[test]
fn rectangles_split_and_shrink() {
    let area = Rect::new(0, 0, 100, 50);
    assert_eq!(area.inset(10), Rect::new(10, 10, 80, 30));
    assert_eq!(area.inset(40), Rect::new(40, 40, 20, 0));
    let (left, right) = area.split(Axis::Horizontal, 250_000, 4);
    assert_eq!(left, Rect::new(0, 0, 24, 50));
    assert_eq!(right, Rect::new(28, 0, 72, 50));
    assert_eq!(Rect::new(0, 0, 25, 25).snap_to_cells(10, 7), Rect::new(2, 2, 20, 21));
}

#[test]
fn a_new_window_takes_its_tile_from_one_other() {
    let before = dwindle(&[A, B, C]);
    let mut after = dwindle(&[A, B, C]);
    after.insert(
        ONLY,
        Placement::Beside { anchor: B, side: Direction::Up, ratio: 300_000 },
        Some(A),
        AREA,
    );
    assert_eq!(rect(&after, A, opts(0)), rect(&before, A, opts(0)));
    assert_eq!(rect(&after, C, opts(0)), rect(&before, C, opts(0)));
    assert_eq!(rect(&before, B, opts(0)), Rect::new(500, 0, 500, 400));
    assert_eq!(rect(&after, ONLY, opts(0)), Rect::new(500, 0, 500, 120));
    assert_eq!(rect(&after, B, opts(0)), Rect::new(500, 120, 500, 280));
}
