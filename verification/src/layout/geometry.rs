//! Rectangles, axes and directions on the pixel grid.

use vstd::prelude::*;

verus! {

/// Ratios are whole millionths of a length.
pub const RATIO_SCALE: i32 = 1_000_000;

/// Which way a split divides its area.
#[derive(Debug, Clone, Copy, PartialEq, Eq, Structural)]
pub enum Axis {
    /// Children sit side by side (left | right).
    Horizontal,
    /// Children sit one above the other (top / bottom).
    Vertical,
}

/// A direction for focus, swapping, resizing and placement.
#[derive(Debug, Clone, Copy, PartialEq, Eq, Structural)]
pub enum Direction {
    Left,
    Right,
    Up,
    Down,
}

impl Direction {
    pub open spec fn spec_axis(self) -> Axis {
        match self {
            Direction::Left | Direction::Right => Axis::Horizontal,
            Direction::Up | Direction::Down => Axis::Vertical,
        }
    }

    /// The axis along which the direction points.
    pub fn axis(self) -> (r: Axis)
        ensures
            r == self.spec_axis(),
    {
        match self {
            Direction::Left | Direction::Right => Axis::Horizontal,
            Direction::Up | Direction::Down => Axis::Vertical,
        }
    }

    pub open spec fn forward(self) -> bool {
        self is Right || self is Down
    }

    /// True for the directions that point at the second child of a split.
    pub fn is_forward(self) -> (r: bool)
        ensures
            r == self.forward(),
    {
        matches!(self, Direction::Right | Direction::Down)
    }
}

pub open spec fn fits_i32(n: int) -> bool {
    i32::MIN <= n <= i32::MAX
}

pub open spec fn at_least_zero(n: int) -> int {
    if n < 0 {
        0
    } else {
        n
    }
}

/// The length of the first of two parts: `ratio` millionths of `available`, rounded to the
/// nearest pixel (halves up) and kept within `0..=available`.
pub open spec fn first_part(available: int, ratio: int) -> int {
    let rounded = (2 * available * ratio + RATIO_SCALE) / (2 * RATIO_SCALE as int);
    if rounded < 0 {
        0
    } else if rounded > available {
        available
    } else {
        rounded
    }
}

fn part_of(available: i32, ratio: i32) -> (r: i32)
    requires
        available >= 0,
    ensures
        r == first_part(available as int, ratio as int),
        0 <= r <= available,
{
    let ghost product: int = available as int * ratio as int;
    assert(-0x4000_0000_0000_0000 <= product <= 0x4000_0000_0000_0000) by (nonlinear_arith)
        requires
            product == available as int * ratio as int,
            0 <= available <= 0x7fff_ffff,
            -0x8000_0000 <= ratio <= 0x7fff_ffff,
    ;
    assert(2 * available as int * ratio as int == 2 * product) by (nonlinear_arith)
        requires
            product == available as int * ratio as int,
    ;
    let scaled: i64 = available as i64 * ratio as i64;
    let doubled: i128 = 2 * (scaled as i128) + RATIO_SCALE as i128;
    if doubled < 0 {
        assert((doubled as int) / (2 * RATIO_SCALE as int) < 0) by (nonlinear_arith)
            requires
                doubled < 0,
        ;
        return 0;
    }
    let rounded: i128 = doubled / (2 * RATIO_SCALE as i128);
    if rounded > available as i128 {
        available
    } else {
        rounded as i32
    }
}

/// A rectangle in pixels: the corner nearest the origin, and a size.
#[derive(Debug, Clone, Copy, PartialEq, Eq, Structural)]
pub struct Rect {
    pub x: i32,
    pub y: i32,
    pub w: i32,
    pub h: i32,
}

impl Default for Rect {
    fn default() -> (r: Self)
        ensures
            r == (Rect { x: 0, y: 0, w: 0, h: 0 }),
    {
        Rect { x: 0, y: 0, w: 0, h: 0 }
    }
}

impl Rect {
    /// Builds a rectangle from its corner and size.
    pub fn new(x: i32, y: i32, w: i32, h: i32) -> (r: Self)
        ensures
            r == (Rect { x, y, w, h }),
    {
        Self { x, y, w, h }
    }

    /// The first column to the right of the rectangle.
    pub fn right(self) -> (r: i32)
        requires
            fits_i32(self.x + self.w),
        ensures
            r == self.x + self.w,
    {
        self.x + self.w
    }

    /// The first row below the rectangle.
    pub fn bottom(self) -> (r: i32)
        requires
            fits_i32(self.y + self.h),
        ensures
            r == self.y + self.h,
    {
        self.y + self.h
    }

    /// True when the rectangle covers no pixel.
    pub open spec fn is_blank(self) -> bool {
        self.w <= 0 || self.h <= 0
    }

    /// True when every pixel of `inner` is a pixel of this rectangle.
    pub open spec fn encloses(self, inner: Rect) -> bool {
        &&& self.x <= inner.x
        &&& self.y <= inner.y
        &&& inner.x + inner.w <= self.x + self.w
        &&& inner.y + inner.h <= self.y + self.h
    }

    /// True for the pixels of the rectangle.
    pub open spec fn covers(self, px: int, py: int) -> bool {
        self.x <= px < self.x + self.w && self.y <= py < self.y + self.h
    }

    /// True when the two rectangles have no pixel in common.
    pub open spec fn apart_from(self, other: Rect) -> bool {
        ||| self.is_blank()
        ||| other.is_blank()
        ||| self.x + self.w <= other.x
        ||| other.x + other.w <= self.x
        ||| self.y + self.h <= other.y
        ||| other.y + other.h <= self.y
    }

    /// The number of pixels in the rectangle.
    pub open spec fn pixels(self) -> int {
        self.w * self.h
    }

    pub open spec fn inset_fits(self, d: int) -> bool {
        &&& fits_i32(self.x + d)
        &&& fits_i32(self.y + d)
        &&& fits_i32(2 * d)
        &&& fits_i32(self.w - 2 * d)
        &&& fits_i32(self.h - 2 * d)
    }

    pub open spec fn spec_inset(self, d: int) -> Rect {
        Rect {
            x: (self.x + d) as i32,
            y: (self.y + d) as i32,
            w: at_least_zero(self.w - 2 * d) as i32,
            h: at_least_zero(self.h - 2 * d) as i32,
        }
    }

    /// The rectangle `d` pixels inside this one; sizes stop at zero.
    pub fn inset(self, d: i32) -> (r: Self)
        requires
            self.inset_fits(d as int),
        ensures
            r == self.spec_inset(d as int),
            r.w >= 0,
            r.h >= 0,
    {
        let w: i32 = self.w - 2 * d;
        let h: i32 = self.h - 2 * d;
        Self {
            x: self.x + d,
            y: self.y + d,
            w: if w < 0 { 0 } else { w },
            h: if h < 0 { 0 } else { h },
        }
    }

    /// The length that a split along `axis` has to hand out.
    pub open spec fn room(self, axis: Axis, gap: int) -> int {
        match axis {
            Axis::Horizontal => at_least_zero(self.w - gap),
            Axis::Vertical => at_least_zero(self.h - gap),
        }
    }

    /// Where the second part of a split starts along its axis.
    pub open spec fn second_start(self, axis: Axis, ratio: int, gap: int) -> int {
        match axis {
            Axis::Horizontal => self.x + first_part(self.room(axis, gap), ratio) + gap,
            Axis::Vertical => self.y + first_part(self.room(axis, gap), ratio) + gap,
        }
    }

    /// True when a split can be written down in 32-bit coordinates.
    pub open spec fn split_fits(self, axis: Axis, ratio: int, gap: int) -> bool {
        &&& fits_i32(self.w - gap)
        &&& fits_i32(self.h - gap)
        &&& match axis {
            Axis::Horizontal => fits_i32(self.x + first_part(self.room(axis, gap), ratio)),
            Axis::Vertical => fits_i32(self.y + first_part(self.room(axis, gap), ratio)),
        }
        &&& fits_i32(self.second_start(axis, ratio, gap))
    }

    pub open spec fn spec_split(self, axis: Axis, ratio: int, gap: int) -> (Rect, Rect) {
        let room = self.room(axis, gap);
        let first = first_part(room, ratio);
        match axis {
            Axis::Horizontal => (
                Rect { x: self.x, y: self.y, w: first as i32, h: self.h },
                Rect {
                    x: self.second_start(axis, ratio, gap) as i32,
                    y: self.y,
                    w: (room - first) as i32,
                    h: self.h,
                },
            ),
            Axis::Vertical => (
                Rect { x: self.x, y: self.y, w: self.w, h: first as i32 },
                Rect {
                    x: self.x,
                    y: self.second_start(axis, ratio, gap) as i32,
                    w: self.w,
                    h: (room - first) as i32,
                },
            ),
        }
    }

    /// Splits into two rectangles with `gap` pixels between them.
    pub fn split(self, axis: Axis, ratio: i32, gap: i32) -> (r: (Self, Self))
        requires
            self.split_fits(axis, ratio as int, gap as int),
        ensures
            r == self.spec_split(axis, ratio as int, gap as int),
    {
        match axis {
            Axis::Horizontal => {
                let left: i32 = self.w - gap;
                let available: i32 = if left < 0 { 0 } else { left };
                let first: i32 = part_of(available, ratio);
                (
                    Rect::new(self.x, self.y, first, self.h),
                    Rect::new(self.x + first + gap, self.y, available - first, self.h),
                )
            },
            Axis::Vertical => {
                let left: i32 = self.h - gap;
                let available: i32 = if left < 0 { 0 } else { left };
                let first: i32 = part_of(available, ratio);
                (
                    Rect::new(self.x, self.y, self.w, first),
                    Rect::new(self.x, self.y + first + gap, self.w, available - first),
                )
            },
        }
    }

    pub open spec fn snap_fits(self, cell_w: int, cell_h: int) -> bool {
        &&& fits_i32(self.x + snapped(self.w as int, cell_w).1)
        &&& fits_i32(self.y + snapped(self.h as int, cell_h).1)
    }

    pub open spec fn spec_snap(self, cell_w: int, cell_h: int) -> Rect {
        Rect {
            x: (self.x + snapped(self.w as int, cell_w).1) as i32,
            y: (self.y + snapped(self.h as int, cell_h).1) as i32,
            w: snapped(self.w as int, cell_w).0 as i32,
            h: snapped(self.h as int, cell_h).0 as i32,
        }
    }

    /// Shrinks to whole cells, centring the leftover pixels so they join the gaps.
    pub fn snap_to_cells(self, cell_w: i32, cell_h: i32) -> (r: Self)
        requires
            self.snap_fits(cell_w as int, cell_h as int),
        ensures
            r == self.spec_snap(cell_w as int, cell_h as int),
    {
        let (w, dx) = snap_length(self.w, cell_w);
        let (h, dy) = snap_length(self.h, cell_h);
        Rect::new(self.x + dx, self.y + dy, w, h)
    }
}

/// A length cut to whole cells, with half of what was cut off. A length shorter than one cell,
/// and a cell that has no size, leave the length alone.
pub open spec fn snapped(length: int, cell: int) -> (int, int) {
    if cell <= 0 || length < cell {
        (length, 0)
    } else {
        ((length / cell) * cell, (length % cell) / 2)
    }
}

fn snap_length(length: i32, cell: i32) -> (r: (i32, i32))
    ensures
        (r.0 as int, r.1 as int) == snapped(length as int, cell as int),
{
    if cell <= 0 || length < cell {
        return (length, 0);
    }
    let spare: i32 = length % cell;
    proof {
        vstd::arithmetic::div_mod::lemma_fundamental_div_mod(length as int, cell as int);
        assert((length as int / cell as int) * cell as int == cell as int * (length as int
            / cell as int)) by (nonlinear_arith);
    }
    (length - spare, spare / 2)
}

/// A snapped length is a whole number of cells, no longer than the length, and its margin is
/// half of the pixels that were left over.
pub proof fn snapped_is_whole_cells(length: int, cell: int)
    requires
        0 < cell <= length,
    ensures
        snapped(length, cell).0 % cell == 0,
        0 < snapped(length, cell).0 <= length,
        length - snapped(length, cell).0 < cell,
        snapped(length, cell).1 == (length - snapped(length, cell).0) / 2,
{
    vstd::arithmetic::div_mod::lemma_fundamental_div_mod(length, cell);
    vstd::arithmetic::div_mod::lemma_mod_multiples_basic(length / cell, cell);
    assert((length / cell) * cell == cell * (length / cell)) by (nonlinear_arith);
}

} // verus!
