//! What painting shows, pixel by pixel.

use crate::cells::boxdraw::{drawing_of, Arms, Block, Drawn, Weight};
use crate::cells::color::{argb, blended, Rgb};
use crate::cells::font::{CellMetrics, Font};
use crate::cells::grid::{Cell, GridModel};
use crate::cells::paint::{
    block_parts, bottom_margin, cell_corner, cell_damage, damage_fits, down_strokes, filled_areas_show,
    filling_keeps_shape, hundredths, in_area, left_strokes, level_stroke, line_strokes,
    margins, right_margin,
    painted_damage, place_of_pixel, right_strokes, row_damage, run_damage, runs,
    runs_hold_the_dirty_cells, shade_alpha, stroke_thickness, up_strokes, upright_stroke,
    with_cell_painted, with_cells_painted, Area, CellArea, Damage, Image,
};
use vstd::prelude::*;

verus! {

/// The word of the pixel at (`px`, `py`).
pub open spec fn pixel(image: Image, px: int, py: int) -> u32 {
    image.words[py * image.stride + px]
}

/// True when the buffer holds the pixel at (`px`, `py`) and it is shown.
pub open spec fn is_shown(image: Image, px: int, py: int) -> bool {
    &&& image.wf()
    &&& 0 <= px < image.width
    &&& 0 <= py < image.height
    &&& py * image.stride + px < image.words.len()
}

/// True when a pixel lies in one of the areas.
pub open spec fn in_some(areas: Seq<Area>, px: int, py: int) -> bool {
    exists|k: int| 0 <= k < areas.len() && #[trigger] in_area(areas[k], px, py)
}

proof fn fills_show(image: Image, areas: Seq<Area>, color: Rgb, px: int, py: int)
    requires
        is_shown(image, px, py),
    ensures
        is_shown(image.filled_all(areas, color), px, py),
        pixel(image.filled_all(areas, color), px, py) == if in_some(areas, px, py) {
            argb(color)
        } else {
            pixel(image, px, py)
        },
    decreases areas.len(),
{
    filling_keeps_shape(image, areas, color);
    if areas.len() > 0 {
        let less = areas.drop_last();
        fills_show(image, less, color, px, py);
        filling_keeps_shape(image, less, color);
        filled_areas_show(image.filled_all(less, color), areas.last(), color, px, py);
        if in_some(less, px, py) {
            let k = choose|k: int| 0 <= k < less.len() && #[trigger] in_area(less[k], px, py);
            assert(in_area(areas[k], px, py));
        }
        if in_area(areas.last(), px, py) {
            assert(in_area(areas[areas.len() - 1], px, py));
        }
        if in_some(areas, px, py) && !in_area(areas.last(), px, py) {
            let k = choose|k: int| 0 <= k < areas.len() && #[trigger] in_area(areas[k], px, py);
            assert(in_area(less[k], px, py));
        }
    }
}

proof fn in_joined(a: Seq<Area>, b: Seq<Area>, px: int, py: int)
    ensures
        in_some(a + b, px, py) == (in_some(a, px, py) || in_some(b, px, py)),
{
    let all = a + b;
    if in_some(a, px, py) {
        let k = choose|k: int| 0 <= k < a.len() && #[trigger] in_area(a[k], px, py);
        assert(in_area(all[k], px, py));
    }
    if in_some(b, px, py) {
        let k = choose|k: int| 0 <= k < b.len() && #[trigger] in_area(b[k], px, py);
        assert(in_area(all[a.len() + k], px, py));
    }
    if in_some(all, px, py) {
        let k = choose|k: int| 0 <= k < all.len() && #[trigger] in_area(all[k], px, py);
        if k < a.len() {
            assert(in_area(a[k], px, py));
        } else {
            assert(in_area(b[k - a.len()], px, py));
        }
    }
}

proof fn in_one(area: Area, px: int, py: int)
    ensures
        in_some(seq![area], px, py) == in_area(area, px, py),
        !in_some(Seq::<Area>::empty(), px, py),
{
    if in_area(area, px, py) {
        assert(in_area(seq![area][0], px, py));
    }
}

/// The thickness of a thin line in a cell: a twelfth of its height, and at least a pixel.
pub open spec fn thin(h: int) -> int {
    if h < 24 {
        1
    } else {
        h / 12
    }
}

/// The thickness of a single line: nothing where there is none, and twice that of a thin line
/// where it is heavy.
pub open spec fn line_width(weight: Weight, h: int) -> int {
    if weight is Heavy {
        2 * thin(h)
    } else if weight is Light {
        thin(h)
    } else {
        0
    }
}

/// True when a coordinate lies on a line of some width round the middle of a length.
pub open spec fn on_middle(at: int, length: int, width: int) -> bool {
    length / 2 - width / 2 <= at < length / 2 - width / 2 + width
}

proof fn strokes_of_cell(cell: CellArea, arms: Arms, px: int, py: int)
    ensures
        in_some(line_strokes(cell, arms), px, py) == (in_some(left_strokes(cell, arms.left), px, py)
            || in_some(right_strokes(cell, arms.right), px, py) || in_some(
            up_strokes(cell, arms.up),
            px,
            py,
        ) || in_some(down_strokes(cell, arms.down), px, py)),
{
    let a = left_strokes(cell, arms.left);
    let b = right_strokes(cell, arms.right);
    let c = up_strokes(cell, arms.up);
    let d = down_strokes(cell, arms.down);
    in_joined(a, b, px, py);
    in_joined(a + b, c, px, py);
    in_joined(a + b + c, d, px, py);
}

proof fn bars_hold(cell: CellArea, weight: Weight, from: int, to: int, off: int, px: int, py: int)
    requires
        cell.3 >= 0,
    ensures
        in_some(level_stroke(cell, weight, from, to, off), px, py) <==> ({
            let t = stroke_thickness(weight, cell.3);
            let top = if cell.1 + cell.3 / 2 - t / 2 + off < cell.1 {
                cell.1
            } else {
                cell.1 + cell.3 / 2 - t / 2 + off
            };
            !(weight is Empty) && from <= px < to && top <= py < top + t
        }),
        in_some(upright_stroke(cell, weight, from, to, off), px, py) <==> ({
            let t = stroke_thickness(weight, cell.3);
            let left = if cell.0 + cell.2 / 2 - t / 2 + off < cell.0 {
                cell.0
            } else {
                cell.0 + cell.2 / 2 - t / 2 + off
            };
            !(weight is Empty) && from <= py < to && left <= px < left + t
        }),
{
    let t = stroke_thickness(weight, cell.3);
    let level = level_stroke(cell, weight, from, to, off);
    let upright = upright_stroke(cell, weight, from, to, off);
    if !(weight is Empty) {
        in_one(level[0], px, py);
        in_one(upright[0], px, py);
        assert(level =~= seq![level[0]]);
        assert(upright =~= seq![upright[0]]);
    } else {
        in_one((0, 0, 0, 0), px, py);
    }
}

/// True when an arm is one line or none.
pub open spec fn is_single(weight: Weight) -> bool {
    !(weight is Double)
}

/// A cell with a line-drawing character shows each of its arms at its own edge, and no line at
/// an edge that it has no arm to: along the bottom edge exactly the pixels of the lower arm have
/// the foreground colour, a line as wide as the arm is strong in the middle of the edge, and the
/// others the background colour; along the other edges the same.
pub proof fn arms_show_at_their_own_edges(
    image: Image,
    font: Font,
    cell: Cell,
    arms: Arms,
    x: int,
    y: int,
    px: int,
    py: int,
)
    requires
        drawing_of(cell.ch) == Some(Drawn::Lines(arms)),
        !cell.attrs.underline,
        is_single(arms.up) && is_single(arms.right) && is_single(arms.down) && is_single(arms.left),
        x >= 0,
        y >= 0,
        8 <= font.spec_metrics().width,
        8 <= font.spec_metrics().height,
        font.spec_metrics().width / 2 + 2 * thin(font.spec_metrics().height as int)
            < font.spec_metrics().width,
        x <= px < x + font.spec_metrics().width,
        y <= py < y + font.spec_metrics().height,
        is_shown(image, px, py),
    ensures
        ({
            let w = font.spec_metrics().width as int;
            let h = font.spec_metrics().height as int;
            let shown = pixel(with_cell_painted(image, font, cell, x, y), px, py);
            &&& py == y + h - 1 ==> shown == argb(
                if on_middle(px - x, w, line_width(arms.down, h)) {
                    cell.fg
                } else {
                    cell.bg
                },
            )
            &&& py == y ==> shown == argb(
                if on_middle(px - x, w, line_width(arms.up, h)) {
                    cell.fg
                } else {
                    cell.bg
                },
            )
            &&& px == x ==> shown == argb(
                if on_middle(py - y, h, line_width(arms.left, h)) {
                    cell.fg
                } else {
                    cell.bg
                },
            )
            &&& px == x + w - 1 ==> shown == argb(
                if on_middle(py - y, h, line_width(arms.right, h)) {
                    cell.fg
                } else {
                    cell.bg
                },
            )
        }),
{
    let w = font.spec_metrics().width as int;
    let h = font.spec_metrics().height as int;
    let area = (x, y, w, h);
    let ground = image.filled(area, cell.bg);
    filled_areas_show(image, area, cell.bg, px, py);
    fills_show(ground, line_strokes(area, arms), cell.fg, px, py);
    strokes_of_cell(area, arms, px, py);
    bars_hold(area, arms.left, x, x + w / 2 + stroke_thickness(arms.left, h), 0, px, py);
    bars_hold(area, arms.right, x + w / 2, x + w, 0, px, py);
    bars_hold(area, arms.up, y, y + h / 2 + stroke_thickness(arms.up, h), 0, px, py);
    bars_hold(area, arms.down, y + h / 2, y + h, 0, px, py);
    assert(thin(h) <= h / 8);
    assert(line_width(arms.left, h) == stroke_thickness(arms.left, h));
    assert(line_width(arms.right, h) == stroke_thickness(arms.right, h));
    assert(line_width(arms.up, h) == stroke_thickness(arms.up, h));
    assert(line_width(arms.down, h) == stroke_thickness(arms.down, h));
}

/// The two lines of a double arm, each as wide as a thin line, on either side of the middle.
pub open spec fn on_double(at: int, length: int, h: int) -> bool {
    on_middle(at - 2 * thin(h), length, thin(h)) || on_middle(at + 2 * thin(h), length, thin(h))
}

/// A cell with a character of double lines shows the two lines of each of its arms at its own
/// edge, one on either side of the middle, and no line at an edge that it has no arm to.
pub proof fn double_arms_show_at_their_own_edges(
    image: Image,
    font: Font,
    cell: Cell,
    arms: Arms,
    x: int,
    y: int,
    px: int,
    py: int,
)
    requires
        drawing_of(cell.ch) == Some(Drawn::Lines(arms)),
        !cell.attrs.underline,
        arms.up is Double || arms.up is Empty,
        arms.right is Double || arms.right is Empty,
        arms.down is Double || arms.down is Empty,
        arms.left is Double || arms.left is Empty,
        x >= 0,
        y >= 0,
        8 <= font.spec_metrics().height,
        8 * thin(font.spec_metrics().height as int) <= font.spec_metrics().width,
        x <= px < x + font.spec_metrics().width,
        y <= py < y + font.spec_metrics().height,
        is_shown(image, px, py),
    ensures
        ({
            let w = font.spec_metrics().width as int;
            let h = font.spec_metrics().height as int;
            let shown = pixel(with_cell_painted(image, font, cell, x, y), px, py);
            &&& py == y + h - 1 ==> shown == argb(
                if arms.down is Double && on_double(px - x, w, h) {
                    cell.fg
                } else {
                    cell.bg
                },
            )
            &&& py == y ==> shown == argb(
                if arms.up is Double && on_double(px - x, w, h) {
                    cell.fg
                } else {
                    cell.bg
                },
            )
            &&& px == x ==> shown == argb(
                if arms.left is Double && on_double(py - y, h, h) {
                    cell.fg
                } else {
                    cell.bg
                },
            )
            &&& px == x + w - 1 ==> shown == argb(
                if arms.right is Double && on_double(py - y, h, h) {
                    cell.fg
                } else {
                    cell.bg
                },
            )
        }),
{
    let w = font.spec_metrics().width as int;
    let h = font.spec_metrics().height as int;
    let area = (x, y, w, h);
    let ground = image.filled(area, cell.bg);
    let s = 2 * thin(h);
    let l = Weight::Light;
    filled_areas_show(image, area, cell.bg, px, py);
    fills_show(ground, line_strokes(area, arms), cell.fg, px, py);
    strokes_of_cell(area, arms, px, py);
    assert(stroke_thickness(l, h) == thin(h));
    let cx = x + w / 2;
    let cy = y + h / 2;
    bars_hold(area, l, x, cx + s, -s, px, py);
    bars_hold(area, l, x, cx + s, s, px, py);
    bars_hold(area, l, cx - s, x + w, -s, px, py);
    bars_hold(area, l, cx - s, x + w, s, px, py);
    bars_hold(area, l, y, cy + s, -s, px, py);
    bars_hold(area, l, y, cy + s, s, px, py);
    bars_hold(area, l, cy - s, y + h, -s, px, py);
    bars_hold(area, l, cy - s, y + h, s, px, py);
    in_joined(
        level_stroke(area, l, x, cx + s, -s),
        level_stroke(area, l, x, cx + s, s),
        px,
        py,
    );
    in_joined(
        level_stroke(area, l, cx - s, x + w, -s),
        level_stroke(area, l, cx - s, x + w, s),
        px,
        py,
    );
    in_joined(
        upright_stroke(area, l, y, cy + s, -s),
        upright_stroke(area, l, y, cy + s, s),
        px,
        py,
    );
    in_joined(
        upright_stroke(area, l, cy - s, y + h, -s),
        upright_stroke(area, l, cy - s, y + h, s),
        px,
        py,
    );
    in_one((0, 0, 0, 0), px, py);
    assert(cx - s >= 0 && cy - s >= 0);
    assert(left_strokes(area, Weight::Empty) =~= Seq::empty());
    assert(right_strokes(area, Weight::Empty) =~= Seq::empty());
    assert(up_strokes(area, Weight::Empty) =~= Seq::empty());
    assert(down_strokes(area, Weight::Empty) =~= Seq::empty());
}

/// A cell with a block character has the foreground colour on the part that the block fills,
/// counted in hundredths from its edges and met to the nearest pixel, and the background colour
/// on the rest.
pub proof fn blocks_fill_from_their_edges(
    image: Image,
    font: Font,
    cell: Cell,
    left: u8,
    right: u8,
    top: u8,
    bottom: u8,
    x: int,
    y: int,
    px: int,
    py: int,
)
    requires
        drawing_of(cell.ch) == Some(Drawn::Block(Block::Partial { left, right, top, bottom })),
        !cell.attrs.underline,
        x <= px < x + font.spec_metrics().width,
        y <= py < y + font.spec_metrics().height,
        is_shown(image, px, py),
    ensures
        ({
            let w = font.spec_metrics().width as int;
            let h = font.spec_metrics().height as int;
            let from_left = px - x;
            let from_right = x + w - 1 - px;
            let from_top = py - y;
            let from_bottom = y + h - 1 - py;
            let filled = {
                ||| 100 * (from_left + 1) <= w * left + 50
                ||| 100 * (from_right + 1) <= w * right + 50
                ||| 100 * (from_top + 1) <= h * top + 50
                ||| 100 * (from_bottom + 1) <= h * bottom + 50
            };
            pixel(with_cell_painted(image, font, cell, x, y), px, py) == argb(
                if filled {
                    cell.fg
                } else {
                    cell.bg
                },
            )
        }),
{
    let w = font.spec_metrics().width as int;
    let h = font.spec_metrics().height as int;
    let area = (x, y, w, h);
    let ground = image.filled(area, cell.bg);
    filled_areas_show(image, area, cell.bg, px, py);
    fills_show(ground, block_parts(area, left, right, top, bottom), cell.fg, px, py);
    let none = Seq::<Area>::empty();
    let l: Area = (x, y, hundredths(w, left as int), h);
    let r: Area = (x + w - hundredths(w, right as int), y, hundredths(w, right as int), h);
    let t: Area = (x, y, w, hundredths(h, top as int));
    let b: Area = (x, y + h - hundredths(h, bottom as int), w, hundredths(h, bottom as int));
    let ls = if left > 0 {
        seq![l]
    } else {
        none
    };
    let rs = if right > 0 {
        seq![r]
    } else {
        none
    };
    let ts = if top > 0 {
        seq![t]
    } else {
        none
    };
    let bs = if bottom > 0 {
        seq![b]
    } else {
        none
    };
    in_one(l, px, py);
    in_one(r, px, py);
    in_one(t, px, py);
    in_one(b, px, py);
    in_joined(ls, rs, px, py);
    in_joined(ls + rs, ts, px, py);
    in_joined(ls + rs + ts, bs, px, py);
    assert(block_parts(area, left, right, top, bottom) =~= ls + rs + ts + bs);
    assert(w * 0 == 0 && h * 0 == 0) by (nonlinear_arith);
}

/// A cell with a shade character shows its foreground colour laid over its background, with
/// its share of full coverage.
pub proof fn shades_are_laid_over_the_background(
    image: Image,
    font: Font,
    cell: Cell,
    level: u8,
    x: int,
    y: int,
    px: int,
    py: int,
)
    requires
        drawing_of(cell.ch) == Some(Drawn::Block(Block::Shade(level))),
        0 < level <= 100,
        !cell.attrs.underline,
        x <= px < x + font.spec_metrics().width,
        y <= py < y + font.spec_metrics().height,
        is_shown(image, px, py),
    ensures
        exists|alpha: u8|
            -50 <= 100 * alpha - 255 * level <= 50 && pixel(
                with_cell_painted(image, font, cell, x, y),
                px,
                py,
            ) == argb(#[trigger] blended(cell.fg, cell.bg, alpha)),
{
    let w = font.spec_metrics().width as int;
    let h = font.spec_metrics().height as int;
    let area = (x, y, w, h);
    let ground = image.filled(area, cell.bg);
    filled_areas_show(image, area, cell.bg, px, py);
    place_of_pixel(px, py, image.stride);
    in_bounds(image, px, py);
    crate::cells::color::packed_colours_come_back(cell.bg);
    let alpha = shade_alpha(level) as u8;
    assert(alpha > 0);
    assert(-50 <= 100 * alpha - 255 * level <= 50);
    assert(pixel(ground, px, py) == argb(cell.bg));
    assert(pixel(with_cell_painted(image, font, cell, x, y), px, py) == argb(
        blended(cell.fg, cell.bg, alpha),
    ));
}

proof fn in_bounds(image: Image, px: int, py: int)
    requires
        is_shown(image, px, py),
    ensures
        0 <= py * image.stride + px < image.words.len(),
        image.stride > 0,
{
    assert(0 <= py * image.stride) by (nonlinear_arith)
        requires
            0 <= py,
            0 <= image.stride,
    ;
}

/// A cell with a letter shows its glyph at the pen: the bitmap starts `left` pixels right of the
/// cell's edge and `top` pixels above the baseline, and each of its pixels is the foreground
/// colour laid over the background with the coverage that the bitmap has there. Every other
/// pixel of the cell has the background colour, and so has a cell without a glyph.
pub proof fn glyphs_stand_on_the_baseline(
    image: Image,
    font: Font,
    cell: Cell,
    x: int,
    y: int,
    px: int,
    py: int,
)
    requires
        font.wf(),
        drawing_of(cell.ch) is None,
        !cell.attrs.underline,
        x <= px < x + font.spec_metrics().width,
        y <= py < y + font.spec_metrics().height,
        is_shown(image, px, py),
    ensures
        ({
            let shown = pixel(with_cell_painted(image, font, cell, x, y), px, py);
            match font.glyph_of(cell.ch, cell.attrs.bold) {
                None => shown == argb(cell.bg),
                Some(glyph) => {
                    let gx = px - (x + glyph.left);
                    let gy = py - (y + font.spec_metrics().baseline - glyph.top);
                    if 0 <= gx < glyph.width && 0 <= gy < glyph.height
                        && glyph.coverage@[gy * glyph.width + gx] > 0 {
                        shown == argb(
                            blended(cell.fg, cell.bg, glyph.coverage@[gy * glyph.width + gx]),
                        )
                    } else {
                        shown == argb(cell.bg)
                    }
                },
            }
        }),
{
    let w = font.spec_metrics().width as int;
    let h = font.spec_metrics().height as int;
    let area = (x, y, w, h);
    let ground = image.filled(area, cell.bg);
    filled_areas_show(image, area, cell.bg, px, py);
    place_of_pixel(px, py, image.stride);
    in_bounds(image, px, py);
    crate::cells::color::packed_colours_come_back(cell.bg);
    assert(pixel(ground, px, py) == argb(cell.bg));
}

/// An underlined cell shows a line of its foreground colour, one pixel high and as wide as the
/// cell, at the height that the font asks for; the rest of the cell is as without it.
pub proof fn underlines_run_across_the_cell(
    image: Image,
    font: Font,
    cell: Cell,
    x: int,
    y: int,
    px: int,
    py: int,
)
    requires
        cell.attrs.underline,
        is_shown(image, px, py),
    ensures
        ({
            let plain = Cell { attrs: crate::cells::grid::Attrs { underline: false, ..cell.attrs }, ..cell };
            pixel(with_cell_painted(image, font, cell, x, y), px, py) == if x <= px < x
                + font.spec_metrics().width && py == y + font.spec_metrics().underline {
                argb(cell.fg)
            } else {
                pixel(with_cell_painted(image, font, plain, x, y), px, py)
            }
        }),
{
    let plain = Cell { attrs: crate::cells::grid::Attrs { underline: false, ..cell.attrs }, ..cell };
    let inked = with_cell_painted(image, font, plain, x, y);
    crate::cells::paint::cell_keeps_shape(image, font, plain, x, y);
    let w = font.spec_metrics().width as int;
    filled_areas_show(inked, (x, y + font.spec_metrics().underline, w, 1), cell.fg, px, py);
}

/// A grid in which one cell is dirty paints that cell and no other, as many cell widths from the
/// left as it has columns before it and as many cell heights from the top as it has rows above.
pub proof fn a_dirty_cell_is_painted_in_its_place(
    image: Image,
    grid: GridModel,
    font: Font,
    col: int,
    row: int,
)
    requires
        grid.wf(),
        grid.inside(col, row),
        grid.cols * font.spec_metrics().width <= i32::MAX,
        grid.rows * font.spec_metrics().height <= i32::MAX,
        grid.dirty_at(col, row),
        forall|c: int, r: int|
            grid.inside(c, r) && #[trigger] grid.dirty_at(c, r) ==> c == col && r == row,
    ensures
        with_cells_painted(image, grid, font, grid.cols * grid.rows) == with_cell_painted(
            image,
            font,
            grid.at(col, row),
            col * font.spec_metrics().width,
            row * font.spec_metrics().height,
        ),
{
    let place = row * grid.cols + col;
    cell_corner(grid, font.spec_metrics(), col, row);
    crate::cells::grid::places_are_inside(col, row, grid.cols, grid.rows);
    assert forall|i: int| 0 <= i < grid.cols * grid.rows && i != place implies
        !#[trigger] grid.dirty[i] by {
        let c = i % grid.cols;
        let r = i / grid.cols;
        vstd::arithmetic::div_mod::lemma_fundamental_div_mod(i, grid.cols);
        vstd::arithmetic::div_mod::lemma_mod_bound(i, grid.cols);
        assert(r * grid.cols == grid.cols * r) by (nonlinear_arith);
        assert(0 <= r < grid.rows) by (nonlinear_arith)
            requires
                i == grid.cols * r + c,
                0 <= c < grid.cols,
                0 <= i < grid.cols * grid.rows,
                grid.cols > 0,
        ;
        assert(grid.inside(c, r));
        assert(grid.place(c, r) == i);
        if grid.dirty[i] {
            assert(grid.dirty_at(c, r));
        }
    }
    one_cell_painted(image, grid, font, place, grid.cols * grid.rows);
}

proof fn one_cell_painted(image: Image, grid: GridModel, font: Font, place: int, n: int)
    requires
        0 <= place < grid.cols * grid.rows,
        0 <= n <= grid.cols * grid.rows,
        grid.dirty[place],
        forall|i: int| 0 <= i < grid.cols * grid.rows && i != place ==> !#[trigger] grid.dirty[i],
    ensures
        with_cells_painted(image, grid, font, n) == if n <= place {
            image
        } else {
            with_cell_painted(
                image,
                font,
                grid.cells[place],
                (place % grid.cols) * font.spec_metrics().width,
                (place / grid.cols) * font.spec_metrics().height,
            )
        },
    decreases n,
{
    if n > 0 {
        one_cell_painted(image, grid, font, place, n - 1);
    }
}

/// The line-drawing characters with an arm up.
pub open spec fn with_arm_up() -> Seq<char> {
    seq![
        '│', '┃', '║', '└', '┗', '╚', '┘', '┛', '╝', '├', '┣', '╠', '┤', '┫', '╣', '┴', '┻',
        '╩', '┼', '╋', '╬',
    ]
}

/// The line-drawing characters with an arm down.
pub open spec fn with_arm_down() -> Seq<char> {
    seq![
        '│', '┃', '║', '┌', '┏', '╔', '┐', '┓', '╗', '├', '┣', '╠', '┤', '┫', '╣', '┬', '┳',
        '╦', '┼', '╋', '╬',
    ]
}

/// The line-drawing characters with an arm to the left.
pub open spec fn with_arm_left() -> Seq<char> {
    seq![
        '─', '━', '═', '┐', '┓', '╗', '┘', '┛', '╝', '┤', '┫', '╣', '┬', '┳', '╦', '┴', '┻',
        '╩', '┼', '╋', '╬',
    ]
}

/// The line-drawing characters with an arm to the right.
pub open spec fn with_arm_right() -> Seq<char> {
    seq![
        '─', '━', '═', '┌', '┏', '╔', '└', '┗', '╚', '├', '┣', '╠', '┬', '┳', '╦', '┴', '┻',
        '╩', '┼', '╋', '╬',
    ]
}

/// The line-drawing characters of heavy lines.
pub open spec fn of_heavy_lines() -> Seq<char> {
    seq!['━', '┃', '┏', '┓', '┗', '┛', '┣', '┫', '┳', '┻', '╋']
}

/// The line-drawing characters of double lines.
pub open spec fn of_double_lines() -> Seq<char> {
    seq!['═', '║', '╔', '╗', '╚', '╝', '╠', '╣', '╦', '╩', '╬']
}

/// A line-drawing character has the arms that its shape shows, all of one strength.
pub proof fn arms_follow_the_shape(ch: char)
    ensures
        ({
            let up = with_arm_up().contains(ch);
            let right = with_arm_right().contains(ch);
            let down = with_arm_down().contains(ch);
            let left = with_arm_left().contains(ch);
            let strength = if of_heavy_lines().contains(ch) {
                Weight::Heavy
            } else if of_double_lines().contains(ch) {
                Weight::Double
            } else {
                Weight::Light
            };
            match drawing_of(ch) {
                Some(Drawn::Lines(arms)) => {
                    &&& arms.up == if up { strength } else { Weight::Empty }
                    &&& arms.right == if right { strength } else { Weight::Empty }
                    &&& arms.down == if down { strength } else { Weight::Empty }
                    &&& arms.left == if left { strength } else { Weight::Empty }
                    &&& up || right || down || left
                },
                _ => !up && !right && !down && !left,
            }
        }),
{
    assert(holds_char(with_arm_up(), ch, 21) == with_arm_up().contains(ch)) by {
        search(with_arm_up(), ch, 21);
    }
    assert(holds_char(with_arm_right(), ch, 21) == with_arm_right().contains(ch)) by {
        search(with_arm_right(), ch, 21);
    }
    assert(holds_char(with_arm_down(), ch, 21) == with_arm_down().contains(ch)) by {
        search(with_arm_down(), ch, 21);
    }
    assert(holds_char(with_arm_left(), ch, 21) == with_arm_left().contains(ch)) by {
        search(with_arm_left(), ch, 21);
    }
    assert(holds_char(of_heavy_lines(), ch, 11) == of_heavy_lines().contains(ch)) by {
        search(of_heavy_lines(), ch, 11);
    }
    assert(holds_char(of_double_lines(), ch, 11) == of_double_lines().contains(ch)) by {
        search(of_double_lines(), ch, 11);
    }
    reveal_with_fuel(holds_char, 22);
}

spec fn holds_char(text: Seq<char>, ch: char, n: nat) -> bool
    decreases n,
{
    n > 0 && (text[n - 1] == ch || holds_char(text, ch, (n - 1) as nat))
}

proof fn search(text: Seq<char>, ch: char, n: nat)
    requires
        n <= text.len(),
    ensures
        holds_char(text, ch, n) == text.take(n as int).contains(ch),
        n == text.len() ==> holds_char(text, ch, n) == text.contains(ch),
    decreases n,
{
    if n > 0 {
        search(text, ch, (n - 1) as nat);
        let less = text.take(n - 1);
        let all = text.take(n as int);
        if text[n - 1] == ch {
            assert(all[n - 1] == ch);
        }
        if less.contains(ch) {
            let k = choose|k: int| 0 <= k < less.len() && less[k] == ch;
            assert(all[k] == ch);
        }
        if all.contains(ch) && text[n - 1] != ch {
            let k = choose|k: int| 0 <= k < all.len() && all[k] == ch;
            assert(less[k] == ch);
        }
    }
    if n == text.len() {
        assert(text.take(n as int) =~= text);
    }
}

/// The half blocks fill their own half of the cell: the upper one the rows from the top on, the
/// lower one those above the bottom edge, and likewise left and right. Of an odd length the half
/// has the middle pixel too. The full block fills the cell.
pub proof fn half_blocks_fill_their_half(
    image: Image,
    font: Font,
    cell: Cell,
    x: int,
    y: int,
    px: int,
    py: int,
)
    requires
        cell.ch == '█' || cell.ch == '▀' || cell.ch == '▄' || cell.ch == '▌' || cell.ch == '▐',
        !cell.attrs.underline,
        x <= px < x + font.spec_metrics().width,
        y <= py < y + font.spec_metrics().height,
        is_shown(image, px, py),
    ensures
        ({
            let w = font.spec_metrics().width as int;
            let h = font.spec_metrics().height as int;
            let filled = {
                ||| cell.ch == '█'
                ||| cell.ch == '▀' && 2 * (py - y) < h
                ||| cell.ch == '▄' && 2 * (y + h - 1 - py) < h
                ||| cell.ch == '▌' && 2 * (px - x) < w
                ||| cell.ch == '▐' && 2 * (x + w - 1 - px) < w
            };
            pixel(with_cell_painted(image, font, cell, x, y), px, py) == argb(
                if filled {
                    cell.fg
                } else {
                    cell.bg
                },
            )
        }),
{
    if let Some(Drawn::Block(Block::Partial { left, right, top, bottom })) = drawing_of(cell.ch) {
        blocks_fill_from_their_edges(
            image,
            font,
            cell,
            left,
            right,
            top,
            bottom,
            x,
            y,
            px,
            py,
        );
    }
}

/// The three shades are a quarter, a half and three quarters.
pub proof fn shades_grow_by_quarters(ch: char)
    ensures
        match drawing_of(ch) {
            Some(Drawn::Block(Block::Shade(level))) => {
                &&& ch == '░' || ch == '▒' || ch == '▓'
                &&& 4 * level == 100 * (ch as int - '░' as int + 1)
            },
            _ => ch != '░' && ch != '▒' && ch != '▓',
        },
{
}

proof fn runs_stay_on_the_row(grid: GridModel, row: int, col: int, start: Option<int>, k: int)
    requires
        0 <= col <= grid.cols + 1,
        start matches Some(s) ==> 0 <= s < col && col <= grid.cols,
        0 <= k < runs(grid, row, col, start).len(),
    ensures
        0 <= runs(grid, row, col, start)[k].0 < runs(grid, row, col, start)[k].1 <= grid.cols,
    decreases grid.cols + 1 - col,
{
    if col <= grid.cols {
        if col < grid.cols && grid.dirty_at(col, row) {
            runs_stay_on_the_row(
                grid,
                row,
                col + 1,
                Some(
                    match start {
                        Some(start) => start,
                        None => col,
                    },
                ),
                k,
            );
        } else {
            let rest = runs(grid, row, col + 1, None);
            match start {
                Some(s) => {
                    if k > 0 {
                        runs_stay_on_the_row(grid, row, col + 1, None, k - 1);
                        assert(runs(grid, row, col, start)[k] == rest[k - 1]);
                    }
                },
                None => runs_stay_on_the_row(grid, row, col + 1, None, k),
            }
        }
    }
}

proof fn rows_are_damaged(grid: GridModel, metrics: CellMetrics, row: int, n: int, damage: Damage)
    requires
        0 <= row < n,
        row_damage(grid, metrics, row).contains(damage),
    ensures
        cell_damage(grid, metrics, n).contains(damage),
    decreases n,
{
    let before = cell_damage(grid, metrics, n - 1);
    let last = row_damage(grid, metrics, n - 1);
    if row < n - 1 {
        rows_are_damaged(grid, metrics, row, n - 1, damage);
        let k = choose|k: int| 0 <= k < before.len() && before[k] == damage;
        assert((before + last)[k] == damage);
    } else {
        let k = choose|k: int| 0 <= k < last.len() && last[k] == damage;
        assert((before + last)[before.len() + k] == damage);
    }
}

/// The damage that is reported holds every cell that was painted: a rectangle of it covers the
/// cell from its left to its right edge and is exactly as high as the cell's row.
pub proof fn painted_cells_are_reported(
    image: Image,
    grid: GridModel,
    font: Font,
    col: int,
    row: int,
)
    requires
        damage_fits(image, grid, font.spec_metrics()),
        grid.wf(),
        grid.inside(col, row),
        grid.dirty_at(col, row),
    ensures
        exists|k: int|
            #![trigger painted_damage(image, grid, font)[k]]
            {
                let all = painted_damage(image, grid, font);
                let w = font.spec_metrics().width as int;
                let h = font.spec_metrics().height as int;
                &&& 0 <= k < all.len()
                &&& all[k].x <= col * w
                &&& (col + 1) * w <= all[k].x + all[k].width
                &&& all[k].y == row * h
                &&& all[k].height == h
            },
{
    let metrics = font.spec_metrics();
    let w = metrics.width as int;
    let h = metrics.height as int;
    let all = painted_damage(image, grid, font);
    let parts = runs(grid, row, 0, None);
    runs_hold_the_dirty_cells(grid, row, col);
    let i = choose|i: int| 0 <= i < parts.len() && (#[trigger] parts[i]).0 <= col < parts[i].1;
    runs_stay_on_the_row(grid, row, 0, None, i);
    let (a, b) = parts[i];
    let damage = run_damage(metrics, row, parts[i]);
    let of_row = row_damage(grid, metrics, row);
    assert(of_row[i] == damage);
    rows_are_damaged(grid, metrics, row, grid.rows, damage);
    let cells = cell_damage(grid, metrics, grid.rows);
    let k = choose|k: int| 0 <= k < cells.len() && cells[k] == damage;
    assert(all[k] == damage);
    assert(0 <= a * w <= col * w && (col + 1) * w <= b * w <= grid.cols * w && (b - a) * w == b * w
        - a * w) by (nonlinear_arith)
        requires
            0 <= a <= col < b <= grid.cols,
            0 <= w,
    ;
    assert(0 <= row * h && row * h + h <= grid.rows * h) by (nonlinear_arith)
        requires
            0 <= row < grid.rows,
            0 <= h,
    ;
}

/// The margins are what the cells leave of the picture: a pixel of it lies in a margin exactly
/// when it is right of the last column or below the last row; and no margin is empty across.
pub proof fn margins_are_what_the_cells_leave(
    image: Image,
    grid: GridModel,
    metrics: CellMetrics,
    px: int,
    py: int,
)
    requires
        0 <= px < image.width,
        0 <= py < image.height,
        grid.wf(),
    ensures
        in_some(margins(grid, metrics, image), px, py) <==> px >= grid.cols * metrics.width || py
            >= grid.rows * metrics.height,
        right_margin(grid, metrics, image) is Some <==> grid.cols * metrics.width < image.width,
        bottom_margin(grid, metrics, image) is Some <==> grid.rows * metrics.height < image.height,
{
    let none = Seq::<Area>::empty();
    let right = right_margin(grid, metrics, image);
    let bottom = bottom_margin(grid, metrics, image);
    let rs = if right is Some {
        seq![right->0]
    } else {
        none
    };
    let bs = if bottom is Some {
        seq![bottom->0]
    } else {
        none
    };
    assert(0 <= grid.cols * metrics.width && 0 <= grid.rows * metrics.height) by (nonlinear_arith)
        requires
            0 <= grid.cols,
            0 <= grid.rows,
            0 <= metrics.width,
            0 <= metrics.height,
    ;
    in_one(right->0, px, py);
    in_one(bottom->0, px, py);
    in_joined(rs, bs, px, py);
    assert(margins(grid, metrics, image) =~= rs + bs);
}

} // verus!
