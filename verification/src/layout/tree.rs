//! The tiling model: one binary split tree per workspace.
//!
//! Leaves are windows; inner nodes split their area along an axis at a ratio.

use crate::ipc::WindowId;
use crate::layout::geometry::{Axis, Direction, Rect, RATIO_SCALE};
use vstd::prelude::*;

verus! {

/// The smallest share that a split leaves to either of its sides.
pub const MIN_RATIO: i32 = 100_000;

/// The largest share that a split gives to either of its sides.
pub const MAX_RATIO: i32 = 900_000;

/// The share of each side when a window is split automatically.
pub const DEFAULT_RATIO: i32 = 500_000;

/// How a new window enters the tree.
#[derive(Debug, Clone, Copy, PartialEq, Eq, Structural)]
pub enum Placement {
    /// Split the focused window along its longer side ("dwindle").
    Auto,
    /// Split `anchor`, putting the new window on `side` with `ratio` of that space.
    Beside { anchor: WindowId, side: Direction, ratio: i32 },
}

/// Gaps and cell snapping applied when turning the tree into rectangles.
#[derive(Debug, Clone, Copy, PartialEq, Eq)]
pub struct LayoutOptions {
    /// Pixels between tiles, and between tiles and the screen edge.
    pub gaps: i32,
    /// Cell size for "snap to cell grid"; tiles shrink to whole cells.
    pub snap: Option<(i32, i32)>,
}

impl Default for LayoutOptions {
    fn default() -> (r: Self)
        ensures
            r == plain_options(),
    {
        LayoutOptions { gaps: 0, snap: None }
    }
}

pub open spec fn plain_options() -> LayoutOptions {
    LayoutOptions { gaps: 0, snap: None }
}

/// A ratio kept between the smallest and the largest share.
pub open spec fn clamped(ratio: int) -> int {
    if ratio < MIN_RATIO {
        MIN_RATIO as int
    } else if ratio > MAX_RATIO {
        MAX_RATIO as int
    } else {
        ratio
    }
}

fn clamp_ratio(ratio: i64) -> (r: i32)
    ensures
        r == clamped(ratio as int),
{
    if ratio < MIN_RATIO as i64 {
        MIN_RATIO
    } else if ratio > MAX_RATIO as i64 {
        MAX_RATIO
    } else {
        ratio as i32
    }
}

/// A window, or an area divided between two nodes.
#[derive(Debug, PartialEq, Eq)]
pub enum Node {
    Leaf(WindowId),
    Split { axis: Axis, ratio: i32, a: Box<Node>, b: Box<Node> },
}

impl Clone for Node {
    fn clone(&self) -> (r: Self)
        ensures
            r == *self,
        decreases self,
    {
        match self {
            Node::Leaf(id) => Node::Leaf(*id),
            Node::Split { axis, ratio, a, b } => Node::Split {
                axis: *axis,
                ratio: *ratio,
                a: Box::new((&**a).clone()),
                b: Box::new((&**b).clone()),
            },
        }
    }
}

impl Node {
    /// Every window, in tree order (left/top to right/bottom).
    pub open spec fn ids(self) -> Seq<WindowId>
        decreases self,
    {
        match self {
            Node::Leaf(id) => seq![id],
            Node::Split { a, b, .. } => a.ids() + b.ids(),
        }
    }

    /// True when `id` is one of the windows.
    pub open spec fn has(self, id: WindowId) -> bool
        decreases self,
    {
        match self {
            Node::Leaf(leaf) => leaf == id,
            Node::Split { a, b, .. } => a.has(id) || b.has(id),
        }
    }

    /// No window stands in two places, and every ratio is within its limits.
    pub open spec fn wf(self) -> bool
        decreases self,
    {
        match self {
            Node::Leaf(_) => true,
            Node::Split { ratio, a, b, .. } => {
                &&& MIN_RATIO <= ratio <= MAX_RATIO
                &&& a.wf()
                &&& b.wf()
                &&& forall|id: WindowId| !(#[trigger] a.has(id) && #[trigger] b.has(id))
            },
        }
    }

    /// How many splits lie between the root and its deepest window.
    pub open spec fn depth(self) -> nat
        decreases self,
    {
        match self {
            Node::Leaf(_) => 0,
            Node::Split { a, b, .. } => if a.depth() > b.depth() {
                a.depth() + 1
            } else {
                b.depth() + 1
            },
        }
    }

    /// The rectangle of each window when the node fills `rect`.
    pub open spec fn tiles(self, rect: Rect, gap: int) -> Seq<(WindowId, Rect)>
        decreases self,
    {
        match self {
            Node::Leaf(id) => seq![(id, rect)],
            Node::Split { axis, ratio, a, b } => {
                let (first, second) = rect.spec_split(axis, ratio as int, gap);
                a.tiles(first, gap) + b.tiles(second, gap)
            },
        }
    }

    /// True when every rectangle of `tiles` has 32-bit coordinates.
    pub open spec fn tiles_fit(self, rect: Rect, gap: int) -> bool
        decreases self,
    {
        match self {
            Node::Leaf(_) => true,
            Node::Split { axis, ratio, a, b } => {
                let (first, second) = rect.spec_split(axis, ratio as int, gap);
                &&& rect.split_fits(axis, ratio as int, gap)
                &&& a.tiles_fit(first, gap)
                &&& b.tiles_fit(second, gap)
            },
        }
    }

    /// The node with the leaf of `target` turned into a split of it and `new`.
    pub open spec fn grown(
        self,
        target: WindowId,
        new: WindowId,
        axis: Axis,
        ratio: i32,
        new_is_second: bool,
    ) -> Node
        decreases self,
    {
        match self {
            Node::Leaf(leaf) => if leaf != target {
                self
            } else if new_is_second {
                Node::Split {
                    axis,
                    ratio,
                    a: Box::new(Node::Leaf(leaf)),
                    b: Box::new(Node::Leaf(new)),
                }
            } else {
                Node::Split {
                    axis,
                    ratio,
                    a: Box::new(Node::Leaf(new)),
                    b: Box::new(Node::Leaf(leaf)),
                }
            },
            Node::Split { axis: own_axis, ratio: own_ratio, a, b } => if a.has(target) {
                Node::Split {
                    axis: own_axis,
                    ratio: own_ratio,
                    a: Box::new(a.grown(target, new, axis, ratio, new_is_second)),
                    b,
                }
            } else if b.has(target) {
                Node::Split {
                    axis: own_axis,
                    ratio: own_ratio,
                    a,
                    b: Box::new(b.grown(target, new, axis, ratio, new_is_second)),
                }
            } else {
                self
            },
        }
    }

    /// What is left when `id` goes: the sibling of its leaf takes the place of their split.
    pub open spec fn without(self, id: WindowId) -> Option<Node>
        decreases self,
    {
        match self {
            Node::Leaf(leaf) => if leaf == id {
                None
            } else {
                Some(self)
            },
            Node::Split { axis, ratio, a, b } => if a.has(id) {
                match a.without(id) {
                    None => Some(*b),
                    Some(rest) => Some(Node::Split { axis, ratio, a: Box::new(rest), b }),
                }
            } else if b.has(id) {
                match b.without(id) {
                    None => Some(*a),
                    Some(rest) => Some(Node::Split { axis, ratio, a, b: Box::new(rest) }),
                }
            } else {
                Some(self)
            },
        }
    }

    /// The node with the edge nearest `id` on the axis of `dir` moved, if there is such an edge.
    pub open spec fn nudged(self, id: WindowId, dir: Direction, delta: int) -> Option<Node>
        decreases self,
    {
        match self {
            Node::Leaf(_) => None,
            Node::Split { axis, ratio, a, b } => if a.has(id) || b.has(id) {
                let inner = if a.has(id) {
                    a.nudged(id, dir, delta)
                } else {
                    b.nudged(id, dir, delta)
                };
                match inner {
                    Some(moved) => if a.has(id) {
                        Some(Node::Split { axis, ratio, a: Box::new(moved), b })
                    } else {
                        Some(Node::Split { axis, ratio, a, b: Box::new(moved) })
                    },
                    None => if axis != dir.spec_axis() {
                        None
                    } else {
                        Some(
                            Node::Split { axis, ratio: edge_after(ratio, dir, delta) as i32, a, b },
                        )
                    },
                }
            } else {
                None
            },
        }
    }

    /// The node with `x` and `y` in each other's place.
    pub open spec fn exchanged(self, x: WindowId, y: WindowId) -> Node
        decreases self,
    {
        match self {
            Node::Leaf(leaf) => Node::Leaf(exchanged_id(leaf, x, y)),
            Node::Split { axis, ratio, a, b } => Node::Split {
                axis,
                ratio,
                a: Box::new(a.exchanged(x, y)),
                b: Box::new(b.exchanged(x, y)),
            },
        }
    }

    fn contains(&self, id: WindowId) -> (r: bool)
        ensures
            r == self.has(id),
        decreases self,
    {
        match self {
            Node::Leaf(leaf) => *leaf == id,
            Node::Split { a, b, .. } => a.contains(id) || b.contains(id),
        }
    }

    fn collect(&self, out: &mut Vec<WindowId>)
        ensures
            final(out)@ == old(out)@ + self.ids(),
        decreases self,
    {
        match self {
            Node::Leaf(id) => out.push(*id),
            Node::Split { a, b, .. } => {
                a.collect(out);
                b.collect(out);
            },
        }
    }

    fn layout(&self, rect: Rect, gaps: i32, out: &mut Vec<(WindowId, Rect)>)
        requires
            self.tiles_fit(rect, gaps as int),
        ensures
            final(out)@ == old(out)@ + self.tiles(rect, gaps as int),
        decreases self,
    {
        match self {
            Node::Leaf(id) => out.push((*id, rect)),
            Node::Split { axis, ratio, a, b } => {
                let (first, second) = rect.split(*axis, *ratio, gaps);
                a.layout(first, gaps, out);
                b.layout(second, gaps, out);
            },
        }
    }

    /// Turns the leaf holding `target` into a split containing it and `new`.
    fn split_leaf(
        self,
        target: WindowId,
        new: WindowId,
        axis: Axis,
        ratio: i32,
        new_is_second: bool,
    ) -> (r: Node)
        ensures
            r == self.grown(target, new, axis, ratio, new_is_second),
        decreases self,
    {
        match self {
            Node::Leaf(leaf) => {
                if leaf != target {
                    return Node::Leaf(leaf);
                }
                if new_is_second {
                    Node::Split {
                        axis,
                        ratio,
                        a: Box::new(Node::Leaf(leaf)),
                        b: Box::new(Node::Leaf(new)),
                    }
                } else {
                    Node::Split {
                        axis,
                        ratio,
                        a: Box::new(Node::Leaf(new)),
                        b: Box::new(Node::Leaf(leaf)),
                    }
                }
            },
            Node::Split { axis: own_axis, ratio: own_ratio, a, b } => {
                if a.contains(target) {
                    let grown = (*a).split_leaf(target, new, axis, ratio, new_is_second);
                    Node::Split { axis: own_axis, ratio: own_ratio, a: Box::new(grown), b }
                } else if b.contains(target) {
                    let grown = (*b).split_leaf(target, new, axis, ratio, new_is_second);
                    Node::Split { axis: own_axis, ratio: own_ratio, a, b: Box::new(grown) }
                } else {
                    Node::Split { axis: own_axis, ratio: own_ratio, a, b }
                }
            },
        }
    }

    /// Removes `id`; nothing is left when this node itself was its leaf.
    fn remove(self, id: WindowId) -> (r: Option<Node>)
        ensures
            r == self.without(id),
        decreases self,
    {
        match self {
            Node::Leaf(leaf) => {
                if leaf == id {
                    None
                } else {
                    Some(Node::Leaf(leaf))
                }
            },
            Node::Split { axis, ratio, a, b } => {
                if a.contains(id) {
                    match (*a).remove(id) {
                        // `a` was the leaf: this split collapses into `b`.
                        None => Some(*b),
                        Some(rest) => Some(Node::Split { axis, ratio, a: Box::new(rest), b }),
                    }
                } else if b.contains(id) {
                    match (*b).remove(id) {
                        None => Some(*a),
                        Some(rest) => Some(Node::Split { axis, ratio, a, b: Box::new(rest) }),
                    }
                } else {
                    Some(Node::Split { axis, ratio, a, b })
                }
            },
        }
    }

    /// Moves the shared edge of the closest enclosing split on `dir`'s axis; the flag says
    /// whether there was one.
    fn resize(self, id: WindowId, dir: Direction, delta: i32) -> (r: (Node, bool))
        ensures
            r.1 == self.nudged(id, dir, delta as int).is_some(),
            r.1 ==> Some(r.0) == self.nudged(id, dir, delta as int),
            !r.1 ==> r.0 == self,
        decreases self,
    {
        match self {
            Node::Leaf(leaf) => (Node::Leaf(leaf), false),
            Node::Split { axis, ratio, a, b } => {
                let in_a = a.contains(id);
                if !in_a && !b.contains(id) {
                    return (Node::Split { axis, ratio, a, b }, false);
                }
                // Deeper splits win, so resizing moves the edge nearest the window.
                let (a, b, moved) = if in_a {
                    let (inner, moved) = (*a).resize(id, dir, delta);
                    (Box::new(inner), b, moved)
                } else {
                    let (inner, moved) = (*b).resize(id, dir, delta);
                    (a, Box::new(inner), moved)
                };
                if moved {
                    return (Node::Split { axis, ratio, a, b }, true);
                }
                if axis != dir.axis() {
                    return (Node::Split { axis, ratio, a, b }, false);
                }
                let signed: i64 = if dir.is_forward() {
                    delta as i64
                } else {
                    -(delta as i64)
                };
                let edge: i32 = clamp_ratio(ratio as i64 + signed);
                (Node::Split { axis, ratio: edge, a, b }, true)
            },
        }
    }

    /// Puts `x` and `y` in each other's place.
    fn exchange(self, x: WindowId, y: WindowId) -> (r: Node)
        ensures
            r == self.exchanged(x, y),
        decreases self,
    {
        match self {
            Node::Leaf(leaf) => {
                let other = if leaf == x {
                    y
                } else if leaf == y {
                    x
                } else {
                    leaf
                };
                Node::Leaf(other)
            },
            Node::Split { axis, ratio, a, b } => {
                let a = (*a).exchange(x, y);
                let b = (*b).exchange(x, y);
                Node::Split { axis, ratio, a: Box::new(a), b: Box::new(b) }
            },
        }
    }
}

/// Where a split's edge ends up when it is moved by `delta` towards `dir`.
pub open spec fn edge_after(ratio: i32, dir: Direction, delta: int) -> int {
    clamped(
        if dir.forward() {
            ratio + delta
        } else {
            ratio - delta
        },
    )
}

/// `y` for `x`, `x` for `y`, and any other window for itself.
pub open spec fn exchanged_id(id: WindowId, x: WindowId, y: WindowId) -> WindowId {
    if id == x {
        y
    } else if id == y {
        x
    } else {
        id
    }
}

/// True when `root` holds `id`.
pub open spec fn root_has(root: Option<Node>, id: WindowId) -> bool {
    root is Some && root->0.has(id)
}

/// Every window of a workspace, in tree order.
pub open spec fn root_ids(root: Option<Node>) -> Seq<WindowId> {
    match root {
        None => seq![],
        Some(node) => node.ids(),
    }
}

/// The rectangle of every window, with gaps but not yet snapped.
pub open spec fn bare_tiles(root: Option<Node>, area: Rect, gaps: int) -> Seq<(WindowId, Rect)> {
    match root {
        None => seq![],
        Some(node) => node.tiles(area.spec_inset(gaps), gaps),
    }
}

/// A tile shrunk to whole cells where snapping is on.
pub open spec fn snapped_tile(
    tile: (WindowId, Rect),
    snap: Option<(i32, i32)>,
) -> (WindowId, Rect) {
    match snap {
        None => tile,
        Some((cell_w, cell_h)) => (tile.0, tile.1.spec_snap(cell_w as int, cell_h as int)),
    }
}

/// The rectangle of every window, in tree order.
pub open spec fn laid_out(root: Option<Node>, area: Rect, opts: LayoutOptions) -> Seq<
    (WindowId, Rect),
> {
    bare_tiles(root, area, opts.gaps as int).map_values(
        |tile: (WindowId, Rect)| snapped_tile(tile, opts.snap),
    )
}

/// True when every rectangle of the layout has 32-bit coordinates.
pub open spec fn layout_fits(root: Option<Node>, area: Rect, opts: LayoutOptions) -> bool {
    root matches Some(node) ==> {
        &&& area.inset_fits(opts.gaps as int)
        &&& node.tiles_fit(area.spec_inset(opts.gaps as int), opts.gaps as int)
        &&& opts.snap matches Some((cell_w, cell_h)) ==> forall|i: int|
            #![trigger bare_tiles(root, area, opts.gaps as int)[i]]
            0 <= i < bare_tiles(root, area, opts.gaps as int).len() ==> bare_tiles(
                root,
                area,
                opts.gaps as int,
            )[i].1.snap_fits(cell_w as int, cell_h as int)
    }
}

/// The rectangle of the first tile of `id` at or after `start`.
pub open spec fn tile_from(tiles: Seq<(WindowId, Rect)>, id: WindowId, start: int) -> Option<Rect>
    decreases tiles.len() - start,
{
    if start < 0 || start >= tiles.len() {
        None
    } else if tiles[start].0 == id {
        Some(tiles[start].1)
    } else {
        tile_from(tiles, id, start + 1)
    }
}

/// How far `rect` lies from `me` in a direction; negative when it does not lie there.
pub open spec fn distance(me: Rect, rect: Rect, dir: Direction) -> int {
    match dir {
        Direction::Right => rect.x - (me.x + me.w),
        Direction::Left => me.x - (rect.x + rect.w),
        Direction::Down => rect.y - (me.y + me.h),
        Direction::Up => me.y - (rect.y + rect.h),
    }
}

/// True when the two rectangles face each other across `axis`.
pub open spec fn faces(me: Rect, rect: Rect, axis: Axis) -> bool {
    match axis {
        Axis::Horizontal => rect.y < me.y + me.h && me.y < rect.y + rect.h,
        Axis::Vertical => rect.x < me.x + me.w && me.x < rect.x + rect.w,
    }
}

/// How far `rect` is shifted sideways from `me`.
pub open spec fn offset(me: Rect, rect: Rect, axis: Axis) -> int {
    let d = match axis {
        Axis::Horizontal => rect.y - me.y,
        Axis::Vertical => rect.x - me.x,
    };
    if d < 0 {
        -d
    } else {
        d
    }
}

/// True when `rect` lies in direction `dir` of `me`, sharing part of that edge.
pub open spec fn lies_beside(me: Rect, rect: Rect, dir: Direction) -> bool {
    distance(me, rect, dir) >= 0 && faces(me, rect, dir.spec_axis())
}

/// True when `p` is a strictly better neighbour of `me` than `q`: closer, or as close and less
/// shifted.
pub open spec fn nearer(me: Rect, p: Rect, q: Rect, dir: Direction) -> bool {
    ||| distance(me, p, dir) < distance(me, q, dir)
    ||| {
        &&& distance(me, p, dir) == distance(me, q, dir)
        &&& offset(me, p, dir.spec_axis()) < offset(me, q, dir.spec_axis())
    }
}

/// True when tile `k` is another window that lies in direction `dir` of `me`.
pub open spec fn is_candidate(
    tiles: Seq<(WindowId, Rect)>,
    id: WindowId,
    me: Rect,
    dir: Direction,
    k: int,
) -> bool {
    tiles[k].0 != id && lies_beside(me, tiles[k].1, dir)
}

/// The place of the nearest candidate among the first `n` tiles, the earliest of equals.
pub open spec fn nearest(
    tiles: Seq<(WindowId, Rect)>,
    id: WindowId,
    me: Rect,
    dir: Direction,
    n: int,
) -> Option<int>
    decreases n,
{
    if n <= 0 {
        None
    } else {
        let before = nearest(tiles, id, me, dir, n - 1);
        if is_candidate(tiles, id, me, dir, n - 1) && (before is None || nearer(
            me,
            tiles[n - 1].1,
            tiles[before->0].1,
            dir,
        )) {
            Some(n - 1)
        } else {
            before
        }
    }
}

/// The window next to `id` in `dir`: the nearest of those that share that edge.
pub open spec fn neighbor_of(
    root: Option<Node>,
    id: WindowId,
    dir: Direction,
    area: Rect,
    gaps: int,
) -> Option<WindowId> {
    let tiles = bare_tiles(root, area, gaps);
    match tile_from(tiles, id, 0) {
        None => None,
        Some(me) => match nearest(tiles, id, me, dir, tiles.len() as int) {
            None => None,
            Some(k) => Some(tiles[k].0),
        },
    }
}

/// The window that an automatic placement splits.
pub open spec fn auto_target(node: Node, focused: Option<WindowId>) -> WindowId {
    if focused is Some && node.has(focused->0) {
        focused->0
    } else {
        node.ids().last()
    }
}

/// The axis along which a tile is longer; a square counts as wide.
pub open spec fn longer_side(rect: Rect) -> Axis {
    if rect.w >= rect.h {
        Axis::Horizontal
    } else {
        Axis::Vertical
    }
}

/// The rectangle of `id` in a layout without gaps, or the whole area if it has none.
pub open spec fn plain_tile(root: Option<Node>, id: WindowId, area: Rect) -> Rect {
    match tile_from(bare_tiles(root, area, 0), id, 0) {
        None => area,
        Some(rect) => rect,
    }
}

/// The share that the first side of a split gets when a new window enters on `side`.
pub open spec fn beside_ratio(side: Direction, ratio: int) -> int {
    if side.forward() {
        RATIO_SCALE - clamped(ratio)
    } else {
        clamped(ratio)
    }
}

/// The tree after a window entered it. A window that is already there, and an anchor that is
/// not, leave the tree as it was.
pub open spec fn inserted(
    root: Option<Node>,
    id: WindowId,
    placement: Placement,
    focused: Option<WindowId>,
    area: Rect,
) -> Option<Node> {
    match root {
        None => Some(Node::Leaf(id)),
        Some(node) => if node.has(id) {
            root
        } else {
            match placement {
                Placement::Auto => {
                    let target = auto_target(node, focused);
                    Some(
                        node.grown(
                            target,
                            id,
                            longer_side(plain_tile(root, target, area)),
                            DEFAULT_RATIO,
                            true,
                        ),
                    )
                },
                Placement::Beside { anchor, side, ratio } => if node.has(anchor) {
                    Some(
                        node.grown(
                            anchor,
                            id,
                            side.spec_axis(),
                            beside_ratio(side, ratio as int) as i32,
                            side.forward(),
                        ),
                    )
                } else {
                    root
                },
            }
        },
    }
}

/// The tree after a window left it.
pub open spec fn removed(root: Option<Node>, id: WindowId) -> Option<Node> {
    match root {
        None => None,
        Some(node) => node.without(id),
    }
}

/// One workspace's windows, tiled.
#[derive(Debug, PartialEq, Eq)]
pub struct LayoutTree {
    root: Option<Node>,
}

impl Clone for LayoutTree {
    fn clone(&self) -> (r: Self)
        ensures
            r@ == self@,
    {
        let root = match &self.root {
            None => None,
            Some(root) => Some(root.clone()),
        };
        Self { root }
    }
}

impl View for LayoutTree {
    type V = Option<Node>;

    closed spec fn view(&self) -> Option<Node> {
        self.root
    }
}

impl Default for LayoutTree {
    fn default() -> (r: Self)
        ensures
            r@ == None::<Node>,
            r.wf(),
    {
        Self { root: None }
    }
}

impl LayoutTree {
    /// No window stands in two places, and every ratio is within its limits.
    pub open spec fn wf(&self) -> bool {
        self@ matches Some(node) ==> node.wf()
    }

    /// A workspace without windows.
    pub fn new() -> (r: Self)
        ensures
            r@ == None::<Node>,
            r.wf(),
    {
        Self::default()
    }

    /// True when the workspace has no windows.
    pub fn is_empty(&self) -> (r: bool)
        ensures
            r == (self@ is None),
            r == (root_ids(self@).len() == 0),
    {
        proof {
            if let Some(node) = self@ {
                ids_are_never_empty(node);
            }
        }
        self.root.is_none()
    }

    /// True when `id` is one of the windows.
    pub fn contains(&self, id: WindowId) -> (r: bool)
        ensures
            r == root_has(self@, id),
    {
        match &self.root {
            None => false,
            Some(root) => root.contains(id),
        }
    }

    /// Every window, in tree order (left/top to right/bottom).
    pub fn ids(&self) -> (r: Vec<WindowId>)
        ensures
            r@ == root_ids(self@),
    {
        let mut out: Vec<WindowId> = Vec::new();
        if let Some(root) = &self.root {
            root.collect(&mut out);
        }
        out
    }

    /// The number of windows.
    pub fn len(&self) -> (r: usize)
        ensures
            r == root_ids(self@).len(),
    {
        self.ids().len()
    }

    /// Rectangles for every window, with gaps applied and optional cell snapping.
    pub fn layout(&self, area: Rect, opts: LayoutOptions) -> (r: Vec<(WindowId, Rect)>)
        requires
            layout_fits(self@, area, opts),
        ensures
            r@ == laid_out(self@, area, opts),
    {
        let mut out: Vec<(WindowId, Rect)> = Vec::new();
        if let Some(root) = &self.root {
            root.layout(area.inset(opts.gaps), opts.gaps, &mut out);
        }
        let ghost bare = out@;
        assert(bare =~= bare_tiles(self@, area, opts.gaps as int));
        if let Some((cell_w, cell_h)) = opts.snap {
            let mut i: usize = 0;
            while i < out.len()
                invariant
                    i <= out.len(),
                    out.len() == bare.len(),
                    forall|j: int|
                        0 <= j < bare.len() ==> (#[trigger] bare[j]).1.snap_fits(
                            cell_w as int,
                            cell_h as int,
                        ),
                    forall|j: int| i <= j < bare.len() ==> out@[j] == bare[j],
                    forall|j: int|
                        0 <= j < i ==> #[trigger] out@[j] == (
                            bare[j].0,
                            bare[j].1.spec_snap(cell_w as int, cell_h as int),
                        ),
                decreases out.len() - i,
            {
                let (id, rect) = out[i];
                assert(bare[i as int].1.snap_fits(cell_w as int, cell_h as int));
                out.set(i, (id, rect.snap_to_cells(cell_w, cell_h)));
                i = i + 1;
            }
        }
        assert(out@ =~= laid_out(self@, area, opts));
        out
    }

    /// Adds a window. `focused` decides which leaf `Placement::Auto` splits; `area` is only
    /// used to pick the split axis.
    pub fn insert(
        &mut self,
        id: WindowId,
        placement: Placement,
        focused: Option<WindowId>,
        area: Rect,
    )
        requires
            placement is Auto && !root_has(old(self)@, id) ==> layout_fits(
                old(self)@,
                area,
                plain_options(),
            ),
        ensures
            final(self)@ == inserted(old(self)@, id, placement, focused, area),
            old(self).wf() ==> final(self).wf(),
    {
        proof {
            insert_keeps_wf(self@, id, placement, focused, area);
        }
        if self.contains(id) {
            return;
        }
        if self.root.is_none() {
            self.root = Some(Node::Leaf(id));
            return;
        }
        let (target, axis, ratio, new_is_second) = match placement {
            Placement::Auto => {
                let target = self.auto_target_id(focused);
                // Split the target tile along its longer side.
                let rect = self.rect_of(target, area);
                let axis = if rect.w >= rect.h {
                    Axis::Horizontal
                } else {
                    Axis::Vertical
                };
                (target, axis, DEFAULT_RATIO, true)
            },
            Placement::Beside { anchor, side, ratio } => {
                if !self.contains(anchor) {
                    return;
                }
                let new_is_second = side.is_forward();
                // `ratio` is the new window's share of the anchor's space.
                let share: i32 = clamp_ratio(ratio as i64);
                let split_ratio: i32 = if new_is_second {
                    RATIO_SCALE - share
                } else {
                    share
                };
                (anchor, side.axis(), split_ratio, new_is_second)
            },
        };
        if let Some(root) = self.root.take() {
            self.root = Some(root.split_leaf(target, id, axis, ratio, new_is_second));
        }
    }

    fn auto_target_id(&self, focused: Option<WindowId>) -> (r: WindowId)
        requires
            self@ is Some,
        ensures
            r == auto_target(self@->0, focused),
    {
        if let Some(id) = focused {
            if self.contains(id) {
                return id;
            }
        }
        let ids = self.ids();
        proof {
            ids_are_never_empty(self@->0);
        }
        ids[ids.len() - 1]
    }

    /// Removes a window; its sibling takes over the space. True if it was there.
    pub fn remove(&mut self, id: WindowId) -> (r: bool)
        ensures
            r == root_has(old(self)@, id),
            final(self)@ == removed(old(self)@, id),
            old(self).wf() ==> final(self).wf(),
    {
        proof {
            if let Some(node) = self@ {
                without_keeps_wf(node, id);
            }
        }
        let there = self.contains(id);
        if let Some(root) = self.root.take() {
            self.root = root.remove(id);
        }
        there
    }

    /// The window next to `id` in `dir`, by the rectangles `area` produces.
    pub fn neighbor(&self, id: WindowId, dir: Direction, area: Rect, opts: LayoutOptions) -> (r:
        Option<WindowId>)
        requires
            layout_fits(self@, area, (LayoutOptions { snap: None, ..opts })),
        ensures
            r == neighbor_of(self@, id, dir, area, opts.gaps as int),
    {
        // Snapping leaves ragged edges; adjacency is clearer without it.
        let rects = self.layout(area, LayoutOptions { gaps: opts.gaps, snap: None });
        let ghost tiles = bare_tiles(self@, area, opts.gaps as int);
        assert(rects@ =~= tiles);
        let me = match find_tile(&rects, id) {
            None => {
                return None;
            },
            Some(me) => me,
        };
        let mut best: Option<usize> = None;
        let mut i: usize = 0;
        while i < rects.len()
            invariant
                i <= rects.len(),
                rects@ == tiles,
                match best {
                    None => nearest(tiles, id, me, dir, i as int) is None,
                    Some(k) => k < i && nearest(tiles, id, me, dir, i as int) == Some(k as int),
                },
            decreases rects.len() - i,
        {
            let (other, rect) = rects[i];
            if other != id && is_beside(me, rect, dir) {
                let better = match best {
                    None => true,
                    Some(k) => is_nearer(me, rect, rects[k].1, dir),
                };
                if better {
                    best = Some(i);
                }
            }
            i = i + 1;
        }
        match best {
            None => None,
            Some(k) => Some(rects[k].0),
        }
    }

    /// Swaps `id` with its neighbour in `dir`. True if there was one.
    pub fn swap(&mut self, id: WindowId, dir: Direction, area: Rect, opts: LayoutOptions) -> (r:
        bool)
        requires
            layout_fits(old(self)@, area, (LayoutOptions { snap: None, ..opts })),
        ensures
            match neighbor_of(old(self)@, id, dir, area, opts.gaps as int) {
                None => !r && *final(self) == *old(self),
                Some(other) => r && old(self)@ is Some && final(self)@ == Some(
                    old(self)@->0.exchanged(id, other),
                ),
            },
            old(self).wf() ==> final(self).wf(),
    {
        let other = match self.neighbor(id, dir, area, opts) {
            None => {
                return false;
            },
            Some(other) => other,
        };
        match self.root.take() {
            None => {
                assert(false);
                false
            },
            Some(root) => {
                proof {
                    exchange_keeps_wf(root, id, other);
                }
                self.root = Some(root.exchange(id, other));
                true
            },
        }
    }

    /// Moves the edge nearest `id` on `dir`'s axis by `delta`, clamped to 10–90%. The edge
    /// always moves in `dir`, so Right/Down grow the split's first child.
    pub fn resize(&mut self, id: WindowId, dir: Direction, delta: i32) -> (r: bool)
        ensures
            r == (old(self)@ is Some && old(self)@->0.nudged(id, dir, delta as int) is Some),
            r ==> final(self)@ == old(self)@->0.nudged(id, dir, delta as int),
            !r ==> final(self)@ == old(self)@,
            old(self).wf() ==> final(self).wf(),
    {
        match self.root.take() {
            None => false,
            Some(root) => {
                proof {
                    nudge_keeps_wf(root, id, dir, delta as int);
                }
                let (root, moved) = root.resize(id, dir, delta);
                self.root = Some(root);
                moved
            },
        }
    }

    fn rect_of(&self, id: WindowId, area: Rect) -> (r: Rect)
        requires
            layout_fits(self@, area, plain_options()),
        ensures
            r == plain_tile(self@, id, area),
    {
        let rects = self.layout(area, LayoutOptions::default());
        assert(rects@ =~= bare_tiles(self@, area, 0));
        match find_tile(&rects, id) {
            None => area,
            Some(rect) => rect,
        }
    }
}

fn find_tile(tiles: &Vec<(WindowId, Rect)>, id: WindowId) -> (r: Option<Rect>)
    ensures
        r == tile_from(tiles@, id, 0),
{
    let mut i: usize = 0;
    while i < tiles.len()
        invariant
            i <= tiles.len(),
            tile_from(tiles@, id, 0) == tile_from(tiles@, id, i as int),
        decreases tiles.len() - i,
    {
        let (other, rect) = tiles[i];
        if other == id {
            return Some(rect);
        }
        i = i + 1;
    }
    None
}

fn gap_between(me: Rect, rect: Rect, dir: Direction) -> (r: i64)
    ensures
        r == distance(me, rect, dir),
{
    match dir {
        Direction::Right => rect.x as i64 - (me.x as i64 + me.w as i64),
        Direction::Left => me.x as i64 - (rect.x as i64 + rect.w as i64),
        Direction::Down => rect.y as i64 - (me.y as i64 + me.h as i64),
        Direction::Up => me.y as i64 - (rect.y as i64 + rect.h as i64),
    }
}

fn shift_between(me: Rect, rect: Rect, axis: Axis) -> (r: i64)
    ensures
        r == offset(me, rect, axis),
{
    let d: i64 = match axis {
        Axis::Horizontal => rect.y as i64 - me.y as i64,
        Axis::Vertical => rect.x as i64 - me.x as i64,
    };
    if d < 0 {
        -d
    } else {
        d
    }
}

fn is_beside(me: Rect, rect: Rect, dir: Direction) -> (r: bool)
    ensures
        r == lies_beside(me, rect, dir),
{
    if gap_between(me, rect, dir) < 0 {
        return false;
    }
    // Only windows that actually share an edge with this one.
    match dir.axis() {
        Axis::Horizontal => (rect.y as i64) < me.y as i64 + me.h as i64 && (me.y as i64)
            < rect.y as i64 + rect.h as i64,
        Axis::Vertical => (rect.x as i64) < me.x as i64 + me.w as i64 && (me.x as i64)
            < rect.x as i64 + rect.w as i64,
    }
}

fn is_nearer(me: Rect, p: Rect, q: Rect, dir: Direction) -> (r: bool)
    ensures
        r == nearer(me, p, q, dir),
{
    let gap_p: i64 = gap_between(me, p, dir);
    let gap_q: i64 = gap_between(me, q, dir);
    gap_p < gap_q || (gap_p == gap_q && shift_between(me, p, dir.axis()) < shift_between(
        me,
        q,
        dir.axis(),
    ))
}

pub proof fn ids_are_never_empty(node: Node)
    ensures
        node.ids().len() > 0,
        node.has(node.ids().last()),
    decreases node,
{
    if let Node::Split { a, b, .. } = node {
        ids_are_never_empty(*a);
        ids_are_never_empty(*b);
    }
}

pub proof fn grown_has(
    node: Node,
    target: WindowId,
    new: WindowId,
    axis: Axis,
    ratio: i32,
    new_is_second: bool,
    id: WindowId,
)
    requires
        node.has(target),
    ensures
        node.grown(target, new, axis, ratio, new_is_second).has(id) == (node.has(id) || id == new),
    decreases node,
{
    reveal_with_fuel(Node::has, 3);
    if let Node::Split { a, b, .. } = node {
        if a.has(target) {
            grown_has(*a, target, new, axis, ratio, new_is_second, id);
        } else {
            grown_has(*b, target, new, axis, ratio, new_is_second, id);
        }
    }
}

proof fn grow_keeps_wf(
    node: Node,
    target: WindowId,
    new: WindowId,
    axis: Axis,
    ratio: i32,
    new_is_second: bool,
)
    requires
        node.wf(),
        node.has(target),
        !node.has(new),
        MIN_RATIO <= ratio <= MAX_RATIO,
    ensures
        node.grown(target, new, axis, ratio, new_is_second).wf(),
    decreases node,
{
    reveal_with_fuel(Node::wf, 2);
    if let Node::Split { a, b, .. } = node {
        if a.has(target) {
            let grown = a.grown(target, new, axis, ratio, new_is_second);
            grow_keeps_wf(*a, target, new, axis, ratio, new_is_second);
            assert forall|id: WindowId| !(#[trigger] grown.has(id) && #[trigger] b.has(id)) by {
                grown_has(*a, target, new, axis, ratio, new_is_second, id);
            }
        } else {
            let grown = b.grown(target, new, axis, ratio, new_is_second);
            grow_keeps_wf(*b, target, new, axis, ratio, new_is_second);
            assert forall|id: WindowId| !(#[trigger] a.has(id) && #[trigger] grown.has(id)) by {
                grown_has(*b, target, new, axis, ratio, new_is_second, id);
            }
        }
    }
}

proof fn insert_keeps_wf(
    root: Option<Node>,
    id: WindowId,
    placement: Placement,
    focused: Option<WindowId>,
    area: Rect,
)
    ensures
        (root matches Some(node) ==> node.wf()) ==> (inserted(
            root,
            id,
            placement,
            focused,
            area,
        ) matches Some(node) ==> node.wf()),
{
    if let Some(node) = root {
        if node.wf() && !node.has(id) {
            match placement {
                Placement::Auto => {
                    let target = auto_target(node, focused);
                    ids_are_never_empty(node);
                    grow_keeps_wf(
                        node,
                        target,
                        id,
                        longer_side(plain_tile(root, target, area)),
                        DEFAULT_RATIO,
                        true,
                    );
                },
                Placement::Beside { anchor, side, ratio } => {
                    if node.has(anchor) {
                        grow_keeps_wf(
                            node,
                            anchor,
                            id,
                            side.spec_axis(),
                            beside_ratio(side, ratio as int) as i32,
                            side.forward(),
                        );
                    }
                },
            }
        }
    }
}

pub proof fn without_has(node: Node, id: WindowId, other: WindowId)
    requires
        node.wf(),
    ensures
        match node.without(id) {
            None => node.has(other) == (other == id),
            Some(rest) => rest.has(other) == (node.has(other) && other != id),
        },
    decreases node,
{
    if let Node::Split { a, b, .. } = node {
        without_has(*a, id, other);
        without_has(*b, id, other);
        without_has(*a, id, id);
        without_has(*b, id, id);
        assert(!(a.has(id) && b.has(id)));
    }
}

pub proof fn without_keeps_wf(node: Node, id: WindowId)
    ensures
        node.wf() ==> (node.without(id) matches Some(rest) ==> rest.wf()),
    decreases node,
{
    if let Node::Split { axis, ratio, a, b } = node {
        without_keeps_wf(*a, id);
        without_keeps_wf(*b, id);
        if node.wf() {
            if let Some(rest) = a.without(id) {
                assert forall|other: WindowId|
                    !(#[trigger] rest.has(other) && #[trigger] b.has(other)) by {
                    without_has(*a, id, other);
                }
            }
            if let Some(rest) = b.without(id) {
                assert forall|other: WindowId|
                    !(#[trigger] a.has(other) && #[trigger] rest.has(other)) by {
                    without_has(*b, id, other);
                }
            }
        }
    }
}

pub proof fn exchange_has(node: Node, x: WindowId, y: WindowId, id: WindowId)
    ensures
        node.exchanged(x, y).has(id) == node.has(exchanged_id(id, x, y)),
    decreases node,
{
    if let Node::Split { a, b, .. } = node {
        exchange_has(*a, x, y, id);
        exchange_has(*b, x, y, id);
    }
}

proof fn exchange_keeps_wf(node: Node, x: WindowId, y: WindowId)
    ensures
        node.wf() ==> node.exchanged(x, y).wf(),
    decreases node,
{
    if let Node::Split { a, b, .. } = node {
        exchange_keeps_wf(*a, x, y);
        exchange_keeps_wf(*b, x, y);
        if node.wf() {
            let a2 = a.exchanged(x, y);
            let b2 = b.exchanged(x, y);
            assert forall|id: WindowId| !(#[trigger] a2.has(id) && #[trigger] b2.has(id)) by {
                exchange_has(*a, x, y, id);
                exchange_has(*b, x, y, id);
            }
        }
    }
}

pub proof fn nudge_has(node: Node, id: WindowId, dir: Direction, delta: int, other: WindowId)
    ensures
        node.nudged(id, dir, delta) matches Some(moved) ==> moved.has(other) == node.has(other),
    decreases node,
{
    if let Node::Split { a, b, .. } = node {
        nudge_has(*a, id, dir, delta, other);
        nudge_has(*b, id, dir, delta, other);
    }
}

proof fn nudge_keeps_wf(node: Node, id: WindowId, dir: Direction, delta: int)
    ensures
        node.nudged(id, dir, delta) matches Some(moved) ==> (node.wf() ==> moved.wf()),
    decreases node,
{
    if let Node::Split { a, b, .. } = node {
        nudge_keeps_wf(*a, id, dir, delta);
        nudge_keeps_wf(*b, id, dir, delta);
        if node.wf() {
            if let Some(moved) = a.nudged(id, dir, delta) {
                assert forall|other: WindowId|
                    !(#[trigger] moved.has(other) && #[trigger] b.has(other)) by {
                    nudge_has(*a, id, dir, delta, other);
                }
            }
            if let Some(moved) = b.nudged(id, dir, delta) {
                assert forall|other: WindowId|
                    !(#[trigger] a.has(other) && #[trigger] moved.has(other)) by {
                    nudge_has(*b, id, dir, delta, other);
                }
            }
        }
    }
}

} // verus!
