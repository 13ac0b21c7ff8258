//! Turns dirty cells into pixels.

use crate::cells::boxdraw::{arms, classify, drawing_of, Arms, Block, Drawn, Weight};
use crate::cells::color::{argb, blended, blending_covers_both_ends, rgb_of, Rgb};
use crate::cells::font::{is_needed, CellMetrics, Font, Glyph};
use crate::cells::grid::{places_are_inside, Cell, Grid, GridModel};
use vstd::prelude::*;

verus! {

/// A rectangle of changed pixels.
#[derive(Debug, Clone, Copy, PartialEq, Eq, Structural)]
pub struct Damage {
    /// Left edge in buffer pixels.
    pub x: i32,
    /// Top edge in buffer pixels.
    pub y: i32,
    /// Width in pixels.
    pub width: i32,
    /// Height in pixels.
    pub height: i32,
}

/// A mutable buffer of `Argb8888` pixels.
#[derive(Debug)]
pub struct Surface {
    pixels: Vec<u32>,
    stride: usize,
    /// Width in pixels.
    pub width: u32,
    /// Height in pixels.
    pub height: u32,
}

/// What a surface holds: its words, row by row, `stride` words to a row.
#[verifier::ext_equal]
pub struct Image {
    pub words: Seq<u32>,
    pub stride: int,
    pub width: int,
    pub height: int,
}

impl View for Surface {
    type V = Image;

    closed spec fn view(&self) -> Image {
        Image {
            words: self.pixels@,
            stride: self.stride as int,
            width: self.width as int,
            height: self.height as int,
        }
    }
}

/// A rectangle of the plane: left, top, width, height.
pub type Area = (int, int, int, int);

/// True for the pixels of an area.
pub open spec fn in_area(area: Area, px: int, py: int) -> bool {
    area.0 <= px < area.0 + area.2 && area.1 <= py < area.1 + area.3
}

/// A word after a colour was laid over it. No coverage leaves the word alone.
pub open spec fn tinted(word: u32, color: Rgb, alpha: u8) -> u32 {
    if alpha == 0 {
        word
    } else {
        argb(blended(color, rgb_of(word), alpha))
    }
}

/// The coverage of each pixel of an area, counted from its corner.
pub type Mask = spec_fn(int, int) -> u8;

impl Image {
    /// A row holds at least the pixels that are shown.
    pub open spec fn wf(self) -> bool {
        &&& 0 <= self.width <= self.stride
        &&& 0 <= self.height
    }

    /// True when the word at `i` is a pixel that is shown.
    pub open spec fn shows(self, i: int) -> bool {
        self.stride > 0 && i % self.stride < self.width && i / self.stride < self.height
    }

    /// The image with a colour laid over an area.
    pub open spec fn covered(self, area: Area, mask: Mask, color: Rgb) -> Image {
        Image {
            words: Seq::new(
                self.words.len(),
                |i: int|
                    if self.shows(i) && in_area(area, i % self.stride, i / self.stride) {
                        tinted(
                            self.words[i],
                            color,
                            mask(i % self.stride - area.0, i / self.stride - area.1),
                        )
                    } else {
                        self.words[i]
                    },
            ),
            ..self
        }
    }

    /// The image with an area filled.
    pub open spec fn filled(self, area: Area, color: Rgb) -> Image {
        self.covered(area, |gx: int, gy: int| 255u8, color)
    }

    /// The image with areas filled one after the other.
    pub open spec fn filled_all(self, areas: Seq<Area>, color: Rgb) -> Image
        decreases areas.len(),
    {
        if areas.len() == 0 {
            self
        } else {
            self.filled_all(areas.drop_last(), color).filled(areas.last(), color)
        }
    }
}

/// The coverage that a mask in memory gives, or one value everywhere.
pub open spec fn mask_of(bytes: Option<Seq<u8>>, alpha: u8, w: int) -> Mask {
    |gx: int, gy: int|
        match bytes {
            Some(bytes) => bytes[gy * w + gx],
            None => alpha,
        }
}

/// What an optional borrowed mask holds.
pub open spec fn mask_view(mask: Option<&Vec<u8>>) -> Option<Seq<u8>> {
    match mask {
        Some(bytes) => Some(bytes@),
        None => None,
    }
}

/// The image after the pixels before (`px`, `py`) in reading order were covered.
spec fn partly(before: Image, after: Image, px: int, py: int) -> Seq<u32> {
    Seq::new(
        before.words.len(),
        |i: int|
            if i / before.stride < py || (i / before.stride == py && i % before.stride < px) {
                after.words[i]
            } else {
                before.words[i]
            },
    )
}

impl Surface {
    /// Wraps a buffer. `stride` is the length of one row in pixels, which may exceed `width`.
    pub fn new(pixels: Vec<u32>, stride: usize, width: u32, height: u32) -> (r: Self)
        requires
            width <= stride,
        ensures
            r@ == (Image {
                words: pixels@,
                stride: stride as int,
                width: width as int,
                height: height as int,
            }),
            r@.wf(),
    {
        Self { pixels, stride, width, height }
    }

    /// The words of the buffer.
    pub fn into_pixels(self) -> (r: Vec<u32>)
        ensures
            r@ == self@.words,
    {
        self.pixels
    }

    /// The colour of a pixel; black where the buffer has none.
    pub fn get(&self, x: u32, y: u32) -> (r: Rgb)
        ensures
            r == (if y * self@.stride + x < self@.words.len() {
                rgb_of(self@.words[y * self@.stride + x])
            } else {
                Rgb(0, 0, 0)
            }),
    {
        proof {
            assert(0 <= y * self.stride <= 0xffff_ffff * 0xffff_ffff_ffff_ffff) by (nonlinear_arith)
                requires
                    0 <= y <= 0xffff_ffff,
                    0 <= self.stride <= 0xffff_ffff_ffff_ffff,
            ;
        }
        let offset: u128 = y as u128 * self.stride as u128 + x as u128;
        if offset < self.pixels.len() as u128 {
            Rgb::from_argb8888(self.pixels[offset as usize])
        } else {
            Rgb(0, 0, 0)
        }
    }

    /// Lays a colour over an area, with one coverage for all of it or one per pixel.
    fn cover(
        &mut self,
        x: i64,
        y: i64,
        w: i64,
        h: i64,
        mask: Option<&Vec<u8>>,
        alpha: u8,
        color: Rgb,
    )
        requires
            old(self)@.wf(),
            -0x1000_0000_0000_0000 <= x <= 0x1000_0000_0000_0000,
            -0x1000_0000_0000_0000 <= y <= 0x1000_0000_0000_0000,
            0 <= w <= 0x1000_0000_0000_0000,
            0 <= h <= 0x1000_0000_0000_0000,
            mask matches Some(bytes) ==> bytes@.len() == w * h,
        ensures
            final(self)@.wf(),
            final(self)@ == old(self)@.covered(
                (x as int, y as int, w as int, h as int),
                mask_of(mask_view(mask), alpha, w as int),
                color,
            ),
    {
        let ghost before = self@;
        let ghost area = (x as int, y as int, w as int, h as int);
        let ghost cover = mask_of(mask_view(mask), alpha, w as int);
        let ghost after = before.covered(area, cover, color);
        let width: i64 = self.width as i64;
        let height: i64 = self.height as i64;
        let x0: i64 = if x < 0 {
            0
        } else {
            x
        };
        let y0: i64 = if y < 0 {
            0
        } else {
            y
        };
        let x1: i64 = if x + w < width {
            x + w
        } else {
            width
        };
        let y1: i64 = if y + h < height {
            y + h
        } else {
            height
        };
        if x0 >= x1 || y0 >= y1 {
            assert(after.words =~= before.words);
            assert(self@ =~= after);
            return;
        }
        let stride: usize = self.stride;
        let mut py: i64 = y0;
        proof {
            rows_above_stay(before, area, cover, color, y0 as int);
        }
        while py < y1
            invariant
                before.wf(),
                after == before.covered(area, cover, color),
                area == (x as int, y as int, w as int, h as int),
                cover == mask_of(mask_view(mask), alpha, w as int),
                mask matches Some(bytes) ==> bytes@.len() == w * h,
                -0x1000_0000_0000_0000 <= x <= 0x1000_0000_0000_0000,
                -0x1000_0000_0000_0000 <= y <= 0x1000_0000_0000_0000,
                0 <= w <= 0x1000_0000_0000_0000,
                0 <= h <= 0x1000_0000_0000_0000,
                x0 == (if x < 0 {
                    0
                } else {
                    x as int
                }),
                y0 == (if y < 0 {
                    0
                } else {
                    y as int
                }),
                x1 <= x + w,
                x1 <= before.width,
                x1 == x + w || x1 == before.width,
                y1 <= y + h,
                y1 <= before.height,
                y1 == y + h || y1 == before.height,
                0 <= x0 < x1,
                0 <= y0 <= py <= y1,
                y1 <= 0xffff_ffff,
                x1 <= 0xffff_ffff,
                stride == before.stride,
                stride > 0,
                self@.stride == before.stride,
                self@.width == before.width,
                self@.height == before.height,
                self@.words == partly(before, after, 0, py as int),
            decreases y1 - py,
        {
            let mut px: i64 = x0;
            proof {
                columns_left_stay(before, area, cover, color, x0 as int, py as int);
            }
            while px < x1
                invariant
                    before.wf(),
                    after == before.covered(area, cover, color),
                    area == (x as int, y as int, w as int, h as int),
                    cover == mask_of(mask_view(mask), alpha, w as int),
                    mask matches Some(bytes) ==> bytes@.len() == w * h,
                    -0x1000_0000_0000_0000 <= x <= 0x1000_0000_0000_0000,
                    -0x1000_0000_0000_0000 <= y <= 0x1000_0000_0000_0000,
                    0 <= w <= 0x1000_0000_0000_0000,
                    0 <= h <= 0x1000_0000_0000_0000,
                    x <= x0,
                    y <= y0,
                    x1 <= x + w,
                    x1 <= before.width,
                    y1 <= y + h,
                    y1 <= before.height,
                    0 <= x0 <= px <= x1,
                    0 <= y0 <= py < y1,
                    y1 <= 0xffff_ffff,
                    x1 <= 0xffff_ffff,
                    stride == before.stride,
                    stride > 0,
                    self@.stride == before.stride,
                    self@.width == before.width,
                    self@.height == before.height,
                    self@.words == partly(before, after, px as int, py as int),
                decreases x1 - px,
            {
                proof {
                    assert(0 <= py * stride <= 0xffff_ffff * 0xffff_ffff_ffff_ffff)
                        by (nonlinear_arith)
                        requires
                            0 <= py <= 0xffff_ffff,
                            0 <= stride <= 0xffff_ffff_ffff_ffff,
                    ;
                }
                let offset: u128 = py as u128 * stride as u128 + px as u128;
                let ghost place = py * stride + px;
                proof {
                    place_of_pixel(px as int, py as int, stride as int);
                }
                if offset < self.pixels.len() as u128 {
                    let i: usize = offset as usize;
                    let gx: i64 = px - x;
                    let gy: i64 = py - y;
                    let a: u8 = match mask {
                        Some(bytes) => {
                            let len: usize = bytes.len();
                            proof {
                                mask_index(gx as int, gy as int, w as int, h as int);
                                assert(gy * w + gx < len);
                            }
                            let at: i128 = gy as i128 * w as i128 + gx as i128;
                            bytes[at as usize]
                        },
                        None => alpha,
                    };
                    assert(a == cover(gx as int, gy as int));
                    assert(before.shows(i as int));
                    assert(self.pixels@[i as int] == before.words[i as int]);
                    assert(after.words[i as int] == tinted(before.words[i as int], color, a));
                    if a != 0 {
                        let under = Rgb::from_argb8888(self.pixels[i]);
                        let word: u32 = color.blend(under, a).to_argb8888();
                        self.pixels.set(i, word);
                    }
                }
                proof {
                    next_pixel(before, after, px as int, py as int);
                    assert(self@.words =~= partly(before, after, px + 1, py as int));
                }
                px = px + 1;
            }
            proof {
                next_row(before, area, cover, color, x1 as int, py as int);
            }
            py = py + 1;
        }
        proof {
            rows_below_stay(before, area, cover, color, y1 as int);
            assert(self@ =~= after);
        }
    }

    /// Fills an area.
    fn fill(&mut self, x: i64, y: i64, w: i64, h: i64, color: Rgb)
        requires
            old(self)@.wf(),
            -0x1000_0000_0000_0000 <= x <= 0x1000_0000_0000_0000,
            -0x1000_0000_0000_0000 <= y <= 0x1000_0000_0000_0000,
            0 <= w <= 0x1000_0000_0000_0000,
            0 <= h <= 0x1000_0000_0000_0000,
        ensures
            final(self)@.wf(),
            final(self)@ == old(self)@.filled((x as int, y as int, w as int, h as int), color),
    {
        self.cover(x, y, w, h, None, 255, color);
        assert(self@ =~= old(self)@.filled((x as int, y as int, w as int, h as int), color));
    }
}

/// The thickness of a thin stroke.
pub open spec fn light_thickness(cell_h: int) -> int {
    if cell_h / 12 < 1 {
        1
    } else {
        cell_h / 12
    }
}

/// Stroke thickness for a weight, in pixels.
pub open spec fn stroke_thickness(weight: Weight, cell_h: int) -> int {
    match weight {
        Weight::Empty => 0,
        Weight::Light => light_thickness(cell_h),
        Weight::Double => light_thickness(cell_h),
        Weight::Heavy => 2 * light_thickness(cell_h),
    }
}

/// Stroke thickness for a weight, in pixels.
pub fn thickness(weight: Weight, cell_h: u32) -> (r: u32)
    ensures
        r == stroke_thickness(weight, cell_h as int),
{
    let light: u32 = if cell_h / 12 < 1 {
        1
    } else {
        cell_h / 12
    };
    match weight {
        Weight::Empty => 0,
        Weight::Light => light,
        Weight::Double => light,
        Weight::Heavy => light * 2,
    }
}

pub open spec fn larger(a: int, b: int) -> int {
    if a < b {
        b
    } else {
        a
    }
}

/// A cell on the surface: left, top, width, height.
pub type CellArea = Area;

/// The horizontal stroke of one arm, shifted down by `offset`; it never starts above the cell.
pub open spec fn level_stroke(
    cell: CellArea,
    weight: Weight,
    from: int,
    to: int,
    offset: int,
) -> Seq<Area> {
    let t = stroke_thickness(weight, cell.3);
    if weight is Empty {
        seq![]
    } else {
        seq![
            (
                from,
                larger(cell.1 + cell.3 / 2 - t / 2 + offset, cell.1),
                larger(to - from, 0),
                t,
            ),
        ]
    }
}

/// The vertical stroke of one arm, shifted right by `offset`; it never starts left of the cell.
pub open spec fn upright_stroke(
    cell: CellArea,
    weight: Weight,
    from: int,
    to: int,
    offset: int,
) -> Seq<Area> {
    let t = stroke_thickness(weight, cell.3);
    if weight is Empty {
        seq![]
    } else {
        seq![
            (
                larger(cell.0 + cell.2 / 2 - t / 2 + offset, cell.0),
                from,
                t,
                larger(to - from, 0),
            ),
        ]
    }
}

/// How far the two strokes of a double line lie from the centre.
pub open spec fn separation(cell_h: int) -> int {
    2 * light_thickness(cell_h)
}

/// The strokes of the left arm: from the left edge to just past the centre.
pub open spec fn left_strokes(cell: CellArea, weight: Weight) -> Seq<Area> {
    let centre = cell.0 + cell.2 / 2;
    let sep = separation(cell.3);
    if weight is Double {
        level_stroke(cell, Weight::Light, cell.0, centre + sep, -sep) + level_stroke(
            cell,
            Weight::Light,
            cell.0,
            centre + sep,
            sep,
        )
    } else {
        level_stroke(cell, weight, cell.0, centre + stroke_thickness(weight, cell.3), 0)
    }
}

/// The strokes of the right arm: from the centre to the right edge.
pub open spec fn right_strokes(cell: CellArea, weight: Weight) -> Seq<Area> {
    let centre = cell.0 + cell.2 / 2;
    let sep = separation(cell.3);
    let start = larger(centre - sep, 0);
    if weight is Double {
        level_stroke(cell, Weight::Light, start, cell.0 + cell.2, -sep) + level_stroke(
            cell,
            Weight::Light,
            start,
            cell.0 + cell.2,
            sep,
        )
    } else {
        level_stroke(cell, weight, centre, cell.0 + cell.2, 0)
    }
}

/// The strokes of the upper arm: from the top edge to just past the centre.
pub open spec fn up_strokes(cell: CellArea, weight: Weight) -> Seq<Area> {
    let centre = cell.1 + cell.3 / 2;
    let sep = separation(cell.3);
    if weight is Double {
        upright_stroke(cell, Weight::Light, cell.1, centre + sep, -sep) + upright_stroke(
            cell,
            Weight::Light,
            cell.1,
            centre + sep,
            sep,
        )
    } else {
        upright_stroke(cell, weight, cell.1, centre + stroke_thickness(weight, cell.3), 0)
    }
}

/// The strokes of the lower arm: from the centre to the bottom edge.
pub open spec fn down_strokes(cell: CellArea, weight: Weight) -> Seq<Area> {
    let centre = cell.1 + cell.3 / 2;
    let sep = separation(cell.3);
    let start = larger(centre - sep, 0);
    if weight is Double {
        upright_stroke(cell, Weight::Light, start, cell.1 + cell.3, -sep) + upright_stroke(
            cell,
            Weight::Light,
            start,
            cell.1 + cell.3,
            sep,
        )
    } else {
        upright_stroke(cell, weight, centre, cell.1 + cell.3, 0)
    }
}

/// The strokes of a line-drawing character.
pub open spec fn line_strokes(cell: CellArea, arms: Arms) -> Seq<Area> {
    left_strokes(cell, arms.left) + right_strokes(cell, arms.right) + up_strokes(cell, arms.up)
        + down_strokes(cell, arms.down)
}

/// Hundredths of a length, rounded to the nearest pixel (halves up).
pub open spec fn hundredths(length: int, share: int) -> int {
    (length * share + 50) / 100
}

/// The filled parts of a block character.
pub open spec fn block_parts(
    cell: CellArea,
    left: u8,
    right: u8,
    top: u8,
    bottom: u8,
) -> Seq<Area> {
    let (x, y, w, h) = cell;
    (if left > 0 {
        seq![(x, y, hundredths(w, left as int), h)]
    } else {
        seq![]
    }) + (if right > 0 {
        seq![(x + w - hundredths(w, right as int), y, hundredths(w, right as int), h)]
    } else {
        seq![]
    }) + (if top > 0 {
        seq![(x, y, w, hundredths(h, top as int))]
    } else {
        seq![]
    }) + (if bottom > 0 {
        seq![(x, y + h - hundredths(h, bottom as int), w, hundredths(h, bottom as int))]
    } else {
        seq![]
    })
}

/// The coverage of a shade character.
pub open spec fn shade_alpha(level: u8) -> int {
    if hundredths(255, level as int) > 255 {
        255
    } else {
        hundredths(255, level as int)
    }
}

/// The image with a block character drawn.
pub open spec fn with_block(image: Image, cell: CellArea, block: Block, fg: Rgb) -> Image {
    match block {
        Block::Partial { left, right, top, bottom } => image.filled_all(
            block_parts(cell, left, right, top, bottom),
            fg,
        ),
        Block::Shade(level) => image.covered(
            cell,
            |gx: int, gy: int| shade_alpha(level) as u8,
            fg,
        ),
    }
}

/// The image with a glyph drawn, its pen at the cell's left edge and baseline.
pub open spec fn with_glyph(
    image: Image,
    cell: CellArea,
    baseline: int,
    glyph: Glyph,
    fg: Rgb,
) -> Image {
    image.covered(
        (
            cell.0 + glyph.left,
            cell.1 + baseline - glyph.top,
            glyph.width as int,
            glyph.height as int,
        ),
        mask_of(Some(glyph.coverage@), 0, glyph.width as int),
        fg,
    )
}

/// The image with one cell painted: its background, then what it shows, then its underline.
pub open spec fn with_cell_painted(image: Image, font: Font, cell: Cell, x: int, y: int) -> Image {
    let metrics = font.spec_metrics();
    let area = (x, y, metrics.width as int, metrics.height as int);
    let ground = image.filled(area, cell.bg);
    let inked = match drawing_of(cell.ch) {
        Some(Drawn::Lines(arms)) => ground.filled_all(line_strokes(area, arms), cell.fg),
        Some(Drawn::Block(block)) => with_block(ground, area, block, cell.fg),
        None => match font.glyph_of(cell.ch, cell.attrs.bold) {
            Some(glyph) => with_glyph(ground, area, metrics.baseline as int, glyph, cell.fg),
            None => ground,
        },
    };
    if cell.attrs.underline {
        inked.filled((x, y + metrics.underline, metrics.width as int, 1), cell.fg)
    } else {
        inked
    }
}

proof fn filled_all_joins(image: Image, a: Seq<Area>, b: Seq<Area>, color: Rgb)
    ensures
        image.filled_all(a + b, color) == image.filled_all(a, color).filled_all(b, color),
    decreases b.len(),
{
    if b.len() == 0 {
        assert(a + b =~= a);
    } else {
        filled_all_joins(image, a, b.drop_last(), color);
        assert((a + b).drop_last() =~= a + b.drop_last());
        assert((a + b).last() == b.last());
    }
}

proof fn filled_all_one(image: Image, area: Area, color: Rgb)
    ensures
        image.filled_all(seq![area], color) == image.filled(area, color),
        image.filled_all(seq![], color) == image,
{
    reveal_with_fuel(Image::filled_all, 2);
    assert(seq![area].drop_last() =~= seq![]);
}

impl Surface {
    fn level_bar(
        &mut self,
        x: i64,
        y: i64,
        w: u32,
        h: u32,
        weight: Weight,
        from: i64,
        to: i64,
        offset: i64,
        fg: Rgb,
    )
        requires
            old(self)@.wf(),
            0 <= x <= 0x1_0000_0000_0000,
            0 <= y <= 0x1_0000_0000_0000,
            0 <= from <= 0x2_0000_0000_0000,
            0 <= to <= 0x2_0000_0000_0000,
            -0x1_0000_0000 <= offset <= 0x1_0000_0000,
        ensures
            final(self)@.wf(),
            final(self)@ == old(self)@.filled_all(
                level_stroke(
                    (x as int, y as int, w as int, h as int),
                    weight,
                    from as int,
                    to as int,
                    offset as int,
                ),
                fg,
            ),
    {
        if weight == Weight::Empty {
            return;
        }
        let t: i64 = thickness(weight, h) as i64;
        let middle: i64 = y + (h / 2) as i64 - t / 2 + offset;
        let top: i64 = if middle < y {
            y
        } else {
            middle
        };
        let length: i64 = if to < from {
            0
        } else {
            to - from
        };
        proof {
            filled_all_one(self@, (from as int, top as int, length as int, t as int), fg);
        }
        self.fill(from, top, length, t, fg);
    }

    fn upright_bar(
        &mut self,
        x: i64,
        y: i64,
        w: u32,
        h: u32,
        weight: Weight,
        from: i64,
        to: i64,
        offset: i64,
        fg: Rgb,
    )
        requires
            old(self)@.wf(),
            0 <= x <= 0x1_0000_0000_0000,
            0 <= y <= 0x1_0000_0000_0000,
            0 <= from <= 0x2_0000_0000_0000,
            0 <= to <= 0x2_0000_0000_0000,
            -0x1_0000_0000 <= offset <= 0x1_0000_0000,
        ensures
            final(self)@.wf(),
            final(self)@ == old(self)@.filled_all(
                upright_stroke(
                    (x as int, y as int, w as int, h as int),
                    weight,
                    from as int,
                    to as int,
                    offset as int,
                ),
                fg,
            ),
    {
        if weight == Weight::Empty {
            return;
        }
        let t: i64 = thickness(weight, h) as i64;
        let middle: i64 = x + (w / 2) as i64 - t / 2 + offset;
        let left: i64 = if middle < x {
            x
        } else {
            middle
        };
        let length: i64 = if to < from {
            0
        } else {
            to - from
        };
        proof {
            filled_all_one(self@, (left as int, from as int, t as int, length as int), fg);
        }
        self.fill(left, from, t, length, fg);
    }

    fn draw_level_arms(&mut self, left: Weight, right: Weight, fg: Rgb, x: i64, y: i64, w: u32, h: u32)
        requires
            old(self)@.wf(),
            0 <= x <= 0x1_0000_0000_0000,
            0 <= y <= 0x1_0000_0000_0000,
        ensures
            final(self)@.wf(),
            final(self)@ == old(self)@.filled_all(
                left_strokes((x as int, y as int, w as int, h as int), left) + right_strokes(
                    (x as int, y as int, w as int, h as int),
                    right,
                ),
                fg,
            ),
    {
        let ghost start = self@;
        let ghost cell = (x as int, y as int, w as int, h as int);
        let centre: i64 = x + (w / 2) as i64;
        let sep: i64 = thickness(Weight::Light, h) as i64 * 2;
        let edge: i64 = x + w as i64;
        if left == Weight::Double {
            proof {
                filled_all_joins(
                    start,
                    level_stroke(cell, Weight::Light, x as int, centre + sep, -sep as int),
                    level_stroke(cell, Weight::Light, x as int, centre + sep, sep as int),
                    fg,
                );
            }
            self.level_bar(x, y, w, h, Weight::Light, x, centre + sep, -sep, fg);
            self.level_bar(x, y, w, h, Weight::Light, x, centre + sep, sep, fg);
        } else {
            let reach: i64 = centre + thickness(left, h) as i64;
            self.level_bar(x, y, w, h, left, x, reach, 0, fg);
        }
        assert(self@ == start.filled_all(left_strokes(cell, left), fg));
        let ghost mid = self@;
        if right == Weight::Double {
            let inner: i64 = if centre < sep {
                0
            } else {
                centre - sep
            };
            proof {
                filled_all_joins(
                    mid,
                    level_stroke(cell, Weight::Light, inner as int, edge as int, -sep as int),
                    level_stroke(cell, Weight::Light, inner as int, edge as int, sep as int),
                    fg,
                );
            }
            self.level_bar(x, y, w, h, Weight::Light, inner, edge, -sep, fg);
            self.level_bar(x, y, w, h, Weight::Light, inner, edge, sep, fg);
        } else {
            self.level_bar(x, y, w, h, right, centre, edge, 0, fg);
        }
        proof {
            filled_all_joins(start, left_strokes(cell, left), right_strokes(cell, right), fg);
        }
    }

    fn draw_upright_arms(&mut self, up: Weight, down: Weight, fg: Rgb, x: i64, y: i64, w: u32, h: u32)
        requires
            old(self)@.wf(),
            0 <= x <= 0x1_0000_0000_0000,
            0 <= y <= 0x1_0000_0000_0000,
        ensures
            final(self)@.wf(),
            final(self)@ == old(self)@.filled_all(
                up_strokes((x as int, y as int, w as int, h as int), up) + down_strokes(
                    (x as int, y as int, w as int, h as int),
                    down,
                ),
                fg,
            ),
    {
        let ghost start = self@;
        let ghost cell = (x as int, y as int, w as int, h as int);
        let centre: i64 = y + (h / 2) as i64;
        let sep: i64 = thickness(Weight::Light, h) as i64 * 2;
        let edge: i64 = y + h as i64;
        if up == Weight::Double {
            proof {
                filled_all_joins(
                    start,
                    upright_stroke(cell, Weight::Light, y as int, centre + sep, -sep as int),
                    upright_stroke(cell, Weight::Light, y as int, centre + sep, sep as int),
                    fg,
                );
            }
            self.upright_bar(x, y, w, h, Weight::Light, y, centre + sep, -sep, fg);
            self.upright_bar(x, y, w, h, Weight::Light, y, centre + sep, sep, fg);
        } else {
            let reach: i64 = centre + thickness(up, h) as i64;
            self.upright_bar(x, y, w, h, up, y, reach, 0, fg);
        }
        assert(self@ == start.filled_all(up_strokes(cell, up), fg));
        let ghost mid = self@;
        if down == Weight::Double {
            let inner: i64 = if centre < sep {
                0
            } else {
                centre - sep
            };
            proof {
                filled_all_joins(
                    mid,
                    upright_stroke(cell, Weight::Light, inner as int, edge as int, -sep as int),
                    upright_stroke(cell, Weight::Light, inner as int, edge as int, sep as int),
                    fg,
                );
            }
            self.upright_bar(x, y, w, h, Weight::Light, inner, edge, -sep, fg);
            self.upright_bar(x, y, w, h, Weight::Light, inner, edge, sep, fg);
        } else {
            self.upright_bar(x, y, w, h, down, centre, edge, 0, fg);
        }
        proof {
            filled_all_joins(start, up_strokes(cell, up), down_strokes(cell, down), fg);
        }
    }

    /// Draws a line-drawing character. Each arm reaches from the centre to the cell edge, so
    /// neighbours meet exactly.
    fn draw_lines(&mut self, arms: Arms, fg: Rgb, x: i64, y: i64, w: u32, h: u32)
        requires
            old(self)@.wf(),
            0 <= x <= 0x1_0000_0000_0000,
            0 <= y <= 0x1_0000_0000_0000,
        ensures
            final(self)@.wf(),
            final(self)@ == old(self)@.filled_all(
                line_strokes((x as int, y as int, w as int, h as int), arms),
                fg,
            ),
    {
        let ghost start = self@;
        let ghost cell = (x as int, y as int, w as int, h as int);
        self.draw_level_arms(arms.left, arms.right, fg, x, y, w, h);
        self.draw_upright_arms(arms.up, arms.down, fg, x, y, w, h);
        proof {
            let level = left_strokes(cell, arms.left) + right_strokes(cell, arms.right);
            let upright = up_strokes(cell, arms.up) + down_strokes(cell, arms.down);
            filled_all_joins(start, level, upright, fg);
            assert(line_strokes(cell, arms) =~= level + upright);
        }
    }

    /// Draws a block character.
    fn draw_block(&mut self, block: Block, fg: Rgb, x: i64, y: i64, w: u32, h: u32)
        requires
            old(self)@.wf(),
            0 <= x <= 0x1_0000_0000_0000,
            0 <= y <= 0x1_0000_0000_0000,
        ensures
            final(self)@.wf(),
            final(self)@ == with_block(
                old(self)@,
                (x as int, y as int, w as int, h as int),
                block,
                fg,
            ),
    {
        let ghost start = self@;
        let ghost cell = (x as int, y as int, w as int, h as int);
        match block {
            Block::Partial { left, right, top, bottom } => {
                let ghost none = Seq::<Area>::empty();
                let ghost mut done = none;
                proof {
                    filled_all_one(start, cell, fg);
                }
                if left > 0 {
                    let part: i64 = part_of(w, left);
                    self.fill(x, y, part, h as i64, fg);
                    proof {
                        let area = (x as int, y as int, part as int, h as int);
                        filled_all_one(start, area, fg);
                        done = seq![area];
                    }
                }
                assert(self@ == start.filled_all(done, fg));
                let ghost first = done;
                if right > 0 {
                    let part: i64 = part_of(w, right);
                    let ghost mid = self@;
                    self.fill(x + w as i64 - part, y, part, h as i64, fg);
                    proof {
                        let area = (x + w - part, y as int, part as int, h as int);
                        filled_all_one(mid, area, fg);
                        filled_all_joins(start, first, seq![area], fg);
                        done = first + seq![area];
                    }
                }
                assert(self@ == start.filled_all(done, fg));
                let ghost second = done;
                if top > 0 {
                    let part: i64 = part_of(h, top);
                    let ghost mid = self@;
                    self.fill(x, y, w as i64, part, fg);
                    proof {
                        let area = (x as int, y as int, w as int, part as int);
                        filled_all_one(mid, area, fg);
                        filled_all_joins(start, second, seq![area], fg);
                        done = second + seq![area];
                    }
                }
                assert(self@ == start.filled_all(done, fg));
                let ghost third = done;
                if bottom > 0 {
                    let part: i64 = part_of(h, bottom);
                    let ghost mid = self@;
                    self.fill(x, y + h as i64 - part, w as i64, part, fg);
                    proof {
                        let area = (x as int, y + h - part, w as int, part as int);
                        filled_all_one(mid, area, fg);
                        filled_all_joins(start, third, seq![area], fg);
                        done = third + seq![area];
                    }
                }
                assert(done =~= block_parts(cell, left, right, top, bottom));
            },
            Block::Shade(level) => {
                let alpha: u32 = (255 * level as u32 + 50) / 100;
                let alpha: u8 = if alpha > 255 {
                    255
                } else {
                    alpha as u8
                };
                self.cover(x, y, w as i64, h as i64, None, alpha, fg);
                assert(self@ =~= with_block(start, cell, block, fg));
            },
        }
    }

    /// Paints one cell with its corner at (`x`, `y`).
    fn paint_cell(&mut self, font: &Font, cell: &Cell, x: i64, y: i64)
        requires
            old(self)@.wf(),
            font.wf(),
            drawing_of(cell.ch) is None ==> font.knows(cell.ch, cell.attrs.bold),
            0 <= x <= 0x1_0000_0000_0000,
            0 <= y <= 0x1_0000_0000_0000,
        ensures
            final(self)@.wf(),
            final(self)@ == with_cell_painted(old(self)@, *font, *cell, x as int, y as int),
    {
        let metrics = font.metrics();
        self.fill(x, y, metrics.width as i64, metrics.height as i64, cell.bg);
        match classify(cell.ch) {
            Some(Drawn::Lines(arms)) => self.draw_lines(
                arms,
                cell.fg,
                x,
                y,
                metrics.width,
                metrics.height,
            ),
            Some(Drawn::Block(block)) => self.draw_block(
                block,
                cell.fg,
                x,
                y,
                metrics.width,
                metrics.height,
            ),
            None => {
                if let Some(glyph) = font.glyph(cell.ch, cell.attrs.bold) {
                    let pen_x: i64 = x + glyph.left as i64;
                    let pen_y: i64 = y + metrics.baseline as i64 - glyph.top as i64;
                    self.cover(
                        pen_x,
                        pen_y,
                        glyph.width as i64,
                        glyph.height as i64,
                        Some(&glyph.coverage),
                        0,
                        cell.fg,
                    );
                }
            },
        }
        if cell.attrs.underline {
            self.fill(x, y + metrics.underline as i64, metrics.width as i64, 1, cell.fg);
        }
    }
}

fn part_of(length: u32, share: u8) -> (r: i64)
    ensures
        r == hundredths(length as int, share as int),
        0 <= r <= 0x10_0000_0000,
{
    assert(0 <= length * share <= 0xffff_ffff * 255) by (nonlinear_arith)
        requires
            0 <= length <= 0xffff_ffff,
            0 <= share <= 255,
    ;
    (length as i64 * share as i64 + 50) / 100
}

/// The image with the dirty cells among the first `n`, in reading order, painted.
pub open spec fn with_cells_painted(image: Image, grid: GridModel, font: Font, n: int) -> Image
    decreases n,
{
    if n <= 0 {
        image
    } else {
        let before = with_cells_painted(image, grid, font, n - 1);
        if grid.dirty[n - 1] {
            with_cell_painted(
                before,
                font,
                grid.cells[n - 1],
                ((n - 1) % grid.cols) * font.spec_metrics().width,
                ((n - 1) / grid.cols) * font.spec_metrics().height,
            )
        } else {
            before
        }
    }
}

/// The runs of dirty cells in a row, from `col` on, as first column and column behind the last;
/// `start` is where an open run began.
pub open spec fn runs(grid: GridModel, row: int, col: int, start: Option<int>) -> Seq<(int, int)>
    decreases grid.cols + 1 - col,
{
    if col < 0 || col > grid.cols {
        seq![]
    } else if col < grid.cols && grid.dirty_at(col, row) {
        runs(
            grid,
            row,
            col + 1,
            Some(
                match start {
                    Some(start) => start,
                    None => col,
                },
            ),
        )
    } else {
        match start {
            Some(start) => seq![(start, col)] + runs(grid, row, col + 1, None),
            None => runs(grid, row, col + 1, None),
        }
    }
}

/// The damage of a run of cells.
pub open spec fn run_damage(metrics: CellMetrics, row: int, run: (int, int)) -> Damage {
    Damage {
        x: (run.0 * metrics.width) as i32,
        y: (row * metrics.height) as i32,
        width: ((run.1 - run.0) * metrics.width) as i32,
        height: metrics.height as i32,
    }
}

/// The damage of the runs of one row.
pub open spec fn row_damage(grid: GridModel, metrics: CellMetrics, row: int) -> Seq<Damage> {
    runs(grid, row, 0, None).map_values(|run: (int, int)| run_damage(metrics, row, run))
}

/// The damage of the dirty cells in the first `n` rows.
pub open spec fn cell_damage(grid: GridModel, metrics: CellMetrics, n: int) -> Seq<Damage>
    decreases n,
{
    if n <= 0 {
        seq![]
    } else {
        cell_damage(grid, metrics, n - 1) + row_damage(grid, metrics, n - 1)
    }
}

/// The strip to the right of the last whole column, if there is one.
pub open spec fn right_margin(grid: GridModel, metrics: CellMetrics, image: Image) -> Option<Area> {
    let used = grid.cols * metrics.width;
    if used < image.width {
        Some((used, 0, image.width - used, image.height))
    } else {
        None
    }
}

/// The strip below the last whole row, as far as the columns go, if there is one.
pub open spec fn bottom_margin(grid: GridModel, metrics: CellMetrics, image: Image) -> Option<
    Area,
> {
    let used = grid.rows * metrics.height;
    let across = grid.cols * metrics.width;
    if used < image.height {
        Some(
            (
                0,
                used,
                if across < image.width {
                    across
                } else {
                    image.width
                },
                image.height - used,
            ),
        )
    } else {
        None
    }
}

/// The margins that there are.
pub open spec fn margins(grid: GridModel, metrics: CellMetrics, image: Image) -> Seq<Area> {
    (match right_margin(grid, metrics, image) {
        Some(area) => seq![area],
        None => seq![],
    }) + (match bottom_margin(grid, metrics, image) {
        Some(area) => seq![area],
        None => seq![],
    })
}

/// The damage of an area.
pub open spec fn area_damage(area: Area) -> Damage {
    Damage { x: area.0 as i32, y: area.1 as i32, width: area.2 as i32, height: area.3 as i32 }
}

/// The damage of a list of areas.
pub open spec fn areas_damage(areas: Seq<Area>) -> Seq<Damage> {
    areas.map_values(|area: Area| area_damage(area))
}

/// The image after the dirty cells of a grid were painted, and the margins if any cell was.
pub open spec fn painted(image: Image, grid: GridModel, font: Font) -> Image {
    let cells = with_cells_painted(image, grid, font, grid.cols * grid.rows);
    if cell_damage(grid, font.spec_metrics(), grid.rows).len() == 0 {
        cells
    } else {
        cells.filled_all(margins(grid, font.spec_metrics(), cells), grid.blank.bg)
    }
}

/// The damage of painting a grid.
pub open spec fn painted_damage(image: Image, grid: GridModel, font: Font) -> Seq<Damage> {
    let cells = cell_damage(grid, font.spec_metrics(), grid.rows);
    if cells.len() == 0 {
        cells
    } else {
        cells + areas_damage(margins(grid, font.spec_metrics(), image))
    }
}

/// True when every corner of the grid and of the surface has 32-bit coordinates.
pub open spec fn damage_fits(image: Image, grid: GridModel, metrics: CellMetrics) -> bool {
    &&& grid.cols * metrics.width <= i32::MAX
    &&& grid.rows * metrics.height <= i32::MAX
    &&& image.width <= i32::MAX
    &&& image.height <= i32::MAX
}

proof fn painting_keeps_shape(image: Image, grid: GridModel, font: Font, n: int)
    requires
        image.wf(),
    ensures
        with_cells_painted(image, grid, font, n).width == image.width,
        with_cells_painted(image, grid, font, n).height == image.height,
        with_cells_painted(image, grid, font, n).stride == image.stride,
        with_cells_painted(image, grid, font, n).words.len() == image.words.len(),
    decreases n,
{
    if n > 0 {
        painting_keeps_shape(image, grid, font, n - 1);
        let before = with_cells_painted(image, grid, font, n - 1);
        if grid.dirty[n - 1] {
            let x = ((n - 1) % grid.cols) * font.spec_metrics().width;
            let y = ((n - 1) / grid.cols) * font.spec_metrics().height;
            cell_keeps_shape(before, font, grid.cells[n - 1], x, y);
        }
    }
}

pub(crate) proof fn filling_keeps_shape(image: Image, areas: Seq<Area>, color: Rgb)
    ensures
        image.filled_all(areas, color).width == image.width,
        image.filled_all(areas, color).height == image.height,
        image.filled_all(areas, color).stride == image.stride,
        image.filled_all(areas, color).words.len() == image.words.len(),
    decreases areas.len(),
{
    if areas.len() > 0 {
        filling_keeps_shape(image, areas.drop_last(), color);
    }
}

pub(crate) proof fn cell_keeps_shape(image: Image, font: Font, cell: Cell, x: int, y: int)
    ensures
        with_cell_painted(image, font, cell, x, y).width == image.width,
        with_cell_painted(image, font, cell, x, y).height == image.height,
        with_cell_painted(image, font, cell, x, y).stride == image.stride,
        with_cell_painted(image, font, cell, x, y).words.len() == image.words.len(),
{
    let metrics = font.spec_metrics();
    let area = (x, y, metrics.width as int, metrics.height as int);
    let ground = image.filled(area, cell.bg);
    match drawing_of(cell.ch) {
        Some(Drawn::Lines(arms)) => filling_keeps_shape(ground, line_strokes(area, arms), cell.fg),
        Some(Drawn::Block(block)) => match block {
            Block::Partial { left, right, top, bottom } => filling_keeps_shape(
                ground,
                block_parts(area, left, right, top, bottom),
                cell.fg,
            ),
            Block::Shade(_) => {},
        },
        None => {},
    }
}

pub(crate) proof fn cell_corner(grid: GridModel, metrics: CellMetrics, col: int, row: int)
    requires
        grid.wf(),
        grid.inside(col, row),
        grid.cols * metrics.width <= i32::MAX,
        grid.rows * metrics.height <= i32::MAX,
    ensures
        0 <= col * metrics.width <= i32::MAX,
        0 <= row * metrics.height <= i32::MAX,
        (row * grid.cols + col) % grid.cols == col,
        (row * grid.cols + col) / grid.cols == row,
{
    places_are_inside(col, row, grid.cols, grid.rows);
    let (cols, rows, w, h) = (grid.cols, grid.rows, metrics.width as int, metrics.height as int);
    assert(0 <= col * w <= cols * w) by (nonlinear_arith)
        requires
            0 <= col < cols,
            0 <= w,
    ;
    assert(0 <= row * h <= rows * h) by (nonlinear_arith)
        requires
            0 <= row < rows,
            0 <= h,
    ;
}

fn damage_of_run(metrics: CellMetrics, row: u16, start: u16, end: u16) -> (r: Damage)
    requires
        start <= end,
        end * metrics.width <= i32::MAX,
        row * metrics.height <= i32::MAX,
        metrics.height <= i32::MAX,
    ensures
        r == run_damage(metrics, row as int, (start as int, end as int)),
{
    proof {
        let (s, e, w) = (start as int, end as int, metrics.width as int);
        assert(0 <= s * w <= e * w && 0 <= (e - s) * w <= e * w) by (nonlinear_arith)
            requires
                0 <= s <= e,
                0 <= w,
        ;
        assert(0 <= row * metrics.height) by (nonlinear_arith)
            requires
                0 <= row,
                0 <= metrics.height,
        ;
    }
    Damage {
        x: (start as i64 * metrics.width as i64) as i32,
        y: (row as i64 * metrics.height as i64) as i32,
        width: ((end - start) as i64 * metrics.width as i64) as i32,
        height: metrics.height as i32,
    }
}

/// Paints the dirty cells of one row and notes their damage.
fn paint_row(grid: &Grid, font: &Font, surface: &mut Surface, row: u16, damage: &mut Vec<Damage>)
    requires
        grid@.wf(),
        font.wf(),
        font.covers(grid@),
        old(surface)@.wf(),
        row < grid@.rows,
        grid@.cols * font.spec_metrics().width <= i32::MAX,
        grid@.rows * font.spec_metrics().height <= i32::MAX,
    ensures
        final(surface)@.wf(),
        forall|image: Image|
            old(surface)@ == with_cells_painted(image, grid@, *font, row * grid@.cols)
                ==> final(surface)@ == #[trigger] with_cells_painted(
                image,
                grid@,
                *font,
                (row + 1) * grid@.cols,
            ),
        final(damage)@ == old(damage)@ + row_damage(grid@, font.spec_metrics(), row as int),
{
    let metrics = font.metrics();
    let ghost model = grid@;
    let ghost base = row * model.cols;
    let ghost to_damage = |run: (int, int)| run_damage(metrics, row as int, run);
    let ghost noted = damage@;
    let mut run_start: Option<u16> = None;
    let mut col: u16 = 0;
    proof {
        let (r, rows, h) = (row as int, model.rows, metrics.height as int);
        assert(h <= rows * h && r * h <= rows * h) by (nonlinear_arith)
            requires
                0 <= r < rows,
                0 <= h,
        ;
        assert(damage@ + runs(model, row as int, 0, None).map_values(to_damage) =~= noted
            + row_damage(model, metrics, row as int));
    }
    while col < grid.cols()
        invariant
            grid@ == model,
            model.wf(),
            font.wf(),
            font.covers(model),
            surface@.wf(),
            row < model.rows,
            col <= model.cols,
            metrics == font.spec_metrics(),
            base == row * model.cols,
            to_damage == (|run: (int, int)| run_damage(metrics, row as int, run)),
            model.cols * metrics.width <= i32::MAX,
            model.rows * metrics.height <= i32::MAX,
            metrics.height <= i32::MAX,
            row * metrics.height <= i32::MAX,
            run_start matches Some(start) ==> start <= col,
            forall|image: Image|
                old(surface)@ == with_cells_painted(image, model, *font, base) ==> surface@
                    == #[trigger] with_cells_painted(image, model, *font, base + col),
            damage@ + runs(
                model,
                row as int,
                col as int,
                match run_start {
                    Some(start) => Some(start as int),
                    None => None,
                },
            ).map_values(to_damage) == noted + row_damage(model, metrics, row as int),
        decreases model.cols - col,
    {
        let ghost before = surface@;
        proof {
            cell_corner(model, metrics, col as int, row as int);
            assert(model.place(col as int, row as int) == base + col);
        }
        if grid.is_dirty(col, row) {
            if let Some(cell) = grid.cell(col, row) {
                let x: i64 = col as i64 * metrics.width as i64;
                let y: i64 = row as i64 * metrics.height as i64;
                assert(drawing_of(cell.ch) is None ==> is_needed(model, col as int, row as int));
                surface.paint_cell(font, cell, x, y);
            }
            if run_start.is_none() {
                run_start = Some(col);
            }
        } else {
            if let Some(start) = run_start {
                proof {
                    let (c, w, cols) = (col as int, metrics.width as int, model.cols);
                    assert(c * w <= cols * w) by (nonlinear_arith)
                        requires
                            0 <= c <= cols,
                            0 <= w,
                    ;
                }
                let ghost so_far = damage@;
                let one = damage_of_run(metrics, row, start, col);
                damage.push(one);
                proof {
                    let rest = runs(model, row as int, col + 1, None);
                    let run = (start as int, col as int);
                    assert((seq![run] + rest).map_values(to_damage) =~= seq![to_damage(run)]
                        + rest.map_values(to_damage));
                    assert(so_far + (seq![to_damage(run)] + rest.map_values(to_damage))
                        =~= so_far.push(one) + rest.map_values(to_damage));
                }
                run_start = None;
            }
        }
        assert forall|image: Image|
            old(surface)@ == with_cells_painted(image, model, *font, base) implies surface@
            == #[trigger] with_cells_painted(image, model, *font, base + (col + 1)) by {
            let n = base + col + 1;
            assert(before == with_cells_painted(image, model, *font, n - 1));
        }
        col = col + 1;
    }
    if let Some(start) = run_start {
        let ghost so_far = damage@;
        let one = damage_of_run(metrics, row, start, col);
        damage.push(one);
        proof {
            let rest = runs(model, row as int, col + 1, None);
            let run = (start as int, col as int);
            assert(rest =~= seq![]);
            assert((seq![run] + rest).map_values(to_damage) =~= seq![to_damage(run)]);
            assert(so_far + seq![to_damage(run)] =~= so_far.push(one));
        }
    } else {
        proof {
            let rest = runs(model, row as int, col + 1, None);
            assert(rest =~= seq![]);
            assert(rest.map_values(to_damage) =~= seq![]);
            assert(damage@ + Seq::<Damage>::empty() =~= damage@);
        }
    }
    assert(base + model.cols == (row + 1) * model.cols) by (nonlinear_arith)
        requires
            base == row * model.cols,
    ;
}

/// Paints the dirty cells of `grid` into `surface`, returning the damaged areas.
///
/// One damage rectangle per run of dirty cells in a row, which keeps the list short for the
/// common case of a single changed line. The font holds the glyphs of these cells already; see
/// [`Font::missing`].
pub fn paint(grid: &Grid, font: &Font, surface: &mut Surface) -> (r: Vec<Damage>)
    requires
        grid@.wf(),
        font.wf(),
        font.covers(grid@),
        old(surface)@.wf(),
        damage_fits(old(surface)@, grid@, font.spec_metrics()),
    ensures
        final(surface)@.wf(),
        final(surface)@ == painted(old(surface)@, grid@, *font),
        r@ == painted_damage(old(surface)@, grid@, *font),
{
    let metrics = font.metrics();
    let ghost model = grid@;
    let ghost image = surface@;
    let mut damage: Vec<Damage> = Vec::new();
    let mut row: u16 = 0;
    while row < grid.rows()
        invariant
            grid@ == model,
            model.wf(),
            font.wf(),
            font.covers(model),
            surface@.wf(),
            row <= model.rows,
            metrics == font.spec_metrics(),
            damage_fits(image, model, metrics),
            surface@ == with_cells_painted(image, model, *font, row * model.cols),
            damage@ == cell_damage(model, metrics, row as int),
        decreases model.rows - row,
    {
        paint_row(grid, font, surface, row, &mut damage);
        row = row + 1;
    }
    proof {
        assert(row * model.cols == model.cols * model.rows) by (nonlinear_arith)
            requires
                row == model.rows,
        ;
        painting_keeps_shape(image, model, *font, model.cols * model.rows);
    }
    if damage.len() > 0 {
        paint_margins(grid, surface, metrics, &mut damage);
    }
    damage
}

/// Fills the strips beyond the last whole cells. A surface is rarely an exact multiple of the
/// cell size, and those pixels would otherwise show whatever the buffer happened to contain.
fn paint_margins(
    grid: &Grid,
    surface: &mut Surface,
    metrics: CellMetrics,
    damage: &mut Vec<Damage>,
)
    requires
        grid@.wf(),
        old(surface)@.wf(),
        damage_fits(old(surface)@, grid@, metrics),
    ensures
        final(surface)@.wf(),
        final(surface)@ == old(surface)@.filled_all(
            margins(grid@, metrics, old(surface)@),
            grid@.blank.bg,
        ),
        final(damage)@ == old(damage)@ + areas_damage(margins(grid@, metrics, old(surface)@)),
{
    proof {
        let (cols, rows, w, h) = (
            grid@.cols,
            grid@.rows,
            metrics.width as int,
            metrics.height as int,
        );
        assert(cols * w >= 0 && rows * h >= 0) by (nonlinear_arith)
            requires
                0 <= cols,
                0 <= rows,
                0 <= w,
                0 <= h,
        ;
    }
    let ghost start = surface@;
    let ghost noted = damage@;
    let used_w: i64 = grid.cols() as i64 * metrics.width as i64;
    let used_h: i64 = grid.rows() as i64 * metrics.height as i64;
    let background = grid.background();
    let width: i64 = surface.width as i64;
    let height: i64 = surface.height as i64;
    let ghost right = match right_margin(grid@, metrics, start) {
        Some(area) => seq![area],
        None => seq![],
    };
    let ghost bottom = match bottom_margin(grid@, metrics, start) {
        Some(area) => seq![area],
        None => seq![],
    };
    proof {
        filled_all_one(start, (used_w as int, 0, width - used_w, height as int), background);
        assert(areas_damage(Seq::<Area>::empty()) =~= Seq::<Damage>::empty());
        assert(noted + Seq::<Damage>::empty() =~= noted);
    }
    if used_w < width {
        surface.fill(used_w, 0, width - used_w, height, background);
        damage.push(
            Damage {
                x: used_w as i32,
                y: 0,
                width: (width - used_w) as i32,
                height: height as i32,
            },
        );
        assert(damage@ =~= noted + areas_damage(right));
    }
    assert(surface@ == start.filled_all(right, background));
    let ghost mid = surface@;
    let across: i64 = if used_w < width {
        used_w
    } else {
        width
    };
    proof {
        filled_all_one(
            mid,
            (0, used_h as int, across as int, height - used_h),
            background,
        );
    }
    if used_h < height {
        surface.fill(0, used_h, across, height - used_h, background);
        damage.push(
            Damage {
                x: 0,
                y: used_h as i32,
                width: across as i32,
                height: (height - used_h) as i32,
            },
        );
    }
    proof {
        filled_all_joins(start, right, bottom, background);
        assert(damage@ =~= noted + areas_damage(right + bottom));
    }
}

pub(crate) proof fn place_of_pixel(px: int, py: int, stride: int)
    requires
        0 <= px < stride || px == 0,
        0 < stride,
        0 <= py,
    ensures
        px < stride ==> (py * stride + px) % stride == px && (py * stride + px) / stride == py,
{
    if px < stride {
        vstd::arithmetic::div_mod::lemma_fundamental_div_mod_converse(
            py * stride + px,
            stride,
            py,
            px,
        );
    }
}

proof fn mask_index(gx: int, gy: int, w: int, h: int)
    requires
        0 <= gx < w,
        0 <= gy < h,
    ensures
        0 <= gy * w,
        0 <= gy * w + gx < w * h,
{
    assert(gy * w + gx < w * h && gy * w >= 0) by (nonlinear_arith)
        requires
            0 <= gx < w,
            0 <= gy < h,
    ;
}

proof fn rows_above_stay(before: Image, area: Area, mask: Mask, color: Rgb, y0: int)
    requires
        before.wf(),
        before.stride > 0,
        y0 == (if area.1 < 0 {
            0
        } else {
            area.1
        }),
    ensures
        partly(before, before.covered(area, mask, color), 0, y0) == before.words,
{
    let after = before.covered(area, mask, color);
    let mid = partly(before, after, 0, y0);
    assert forall|i: int| 0 <= i < before.words.len() implies mid[i] == before.words[i] by {
        vstd::arithmetic::div_mod::lemma_fundamental_div_mod(i, before.stride);
        vstd::arithmetic::div_mod::lemma_div_pos_is_pos(i, before.stride);
        vstd::arithmetic::div_mod::lemma_mod_bound(i, before.stride);
    }
    assert(mid =~= before.words);
}

proof fn columns_left_stay(
    before: Image,
    area: Area,
    mask: Mask,
    color: Rgb,
    x0: int,
    py: int,
)
    requires
        before.wf(),
        before.stride > 0,
        x0 == (if area.0 < 0 {
            0
        } else {
            area.0
        }),
    ensures
        partly(before, before.covered(area, mask, color), 0, py) == partly(
            before,
            before.covered(area, mask, color),
            x0,
            py,
        ),
{
    let after = before.covered(area, mask, color);
    let a = partly(before, after, 0, py);
    let b = partly(before, after, x0, py);
    assert forall|i: int| 0 <= i < before.words.len() implies a[i] == b[i] by {
        vstd::arithmetic::div_mod::lemma_mod_bound(i, before.stride);
    }
    assert(a =~= b);
}

proof fn next_pixel(before: Image, after: Image, px: int, py: int)
    requires
        before.stride > 0,
    ensures
        forall|i: int|
            #![trigger i / before.stride]
            i / before.stride == py && i % before.stride == px ==> i == py * before.stride + px,
{
    assert forall|i: int| #![trigger i / before.stride]
        i / before.stride == py && i % before.stride == px implies i == py * before.stride + px by {
        vstd::arithmetic::div_mod::lemma_fundamental_div_mod(i, before.stride);
        assert(before.stride * (i / before.stride) == py * before.stride) by (nonlinear_arith)
            requires
                i / before.stride == py,
        ;
    }
}

proof fn next_row(before: Image, area: Area, mask: Mask, color: Rgb, x1: int, py: int)
    requires
        before.wf(),
        before.stride > 0,
        x1 == area.0 + area.2 || x1 == before.width,
    ensures
        partly(before, before.covered(area, mask, color), x1, py) == partly(
            before,
            before.covered(area, mask, color),
            0,
            py + 1,
        ),
{
    let after = before.covered(area, mask, color);
    let a = partly(before, after, x1, py);
    let b = partly(before, after, 0, py + 1);
    assert forall|i: int| 0 <= i < before.words.len() implies a[i] == b[i] by {
        vstd::arithmetic::div_mod::lemma_mod_bound(i, before.stride);
    }
    assert(a =~= b);
}

proof fn rows_below_stay(before: Image, area: Area, mask: Mask, color: Rgb, y1: int)
    requires
        before.wf(),
        before.stride > 0,
        y1 == area.1 + area.3 || y1 == before.height,
    ensures
        partly(before, before.covered(area, mask, color), 0, y1) == before.covered(
            area,
            mask,
            color,
        ).words,
{
    let after = before.covered(area, mask, color);
    let mid = partly(before, after, 0, y1);
    assert forall|i: int| 0 <= i < before.words.len() implies mid[i] == after.words[i] by {
        vstd::arithmetic::div_mod::lemma_mod_bound(i, before.stride);
    }
    assert(mid =~= after.words);
}

/// A filled area shows its colour on every pixel that is shown, and nothing else changes.
pub proof fn filled_areas_show(image: Image, area: Area, color: Rgb, px: int, py: int)
    requires
        image.wf(),
        0 <= px < image.width,
        0 <= py < image.height,
        py * image.stride + px < image.words.len(),
    ensures
        image.filled(area, color).words[py * image.stride + px] == (if in_area(area, px, py) {
            argb(color)
        } else {
            image.words[py * image.stride + px]
        }),
{
    place_of_pixel(px, py, image.stride);
    assert(0 <= py * image.stride) by (nonlinear_arith)
        requires
            0 <= py,
            0 <= image.stride,
    ;
    blending_covers_both_ends(color, rgb_of(image.words[py * image.stride + px]));
}

proof fn no_runs_in_clean_rows(grid: GridModel, row: int, col: int)
    requires
        grid.wf(),
        0 <= row < grid.rows,
        0 <= col,
        forall|i: int| 0 <= i < grid.dirty.len() ==> !#[trigger] grid.dirty[i],
    ensures
        runs(grid, row, col, None) == Seq::<(int, int)>::empty(),
    decreases grid.cols + 1 - col,
{
    if col <= grid.cols {
        if col < grid.cols {
            places_are_inside(col, row, grid.cols, grid.rows);
        }
        no_runs_in_clean_rows(grid, row, col + 1);
    }
}

proof fn no_damage_in_clean_grids(grid: GridModel, metrics: CellMetrics, n: int)
    requires
        grid.wf(),
        0 <= n <= grid.rows,
        forall|i: int| 0 <= i < grid.dirty.len() ==> !#[trigger] grid.dirty[i],
    ensures
        cell_damage(grid, metrics, n) == Seq::<Damage>::empty(),
    decreases n,
{
    if n > 0 {
        no_damage_in_clean_grids(grid, metrics, n - 1);
        no_runs_in_clean_rows(grid, n - 1, 0);
        assert(row_damage(grid, metrics, n - 1) =~= Seq::<Damage>::empty());
    }
}

proof fn clean_cells_stay(image: Image, grid: GridModel, font: Font, n: int)
    requires
        n <= grid.dirty.len(),
        forall|i: int| 0 <= i < grid.dirty.len() ==> !#[trigger] grid.dirty[i],
    ensures
        with_cells_painted(image, grid, font, n) == image,
    decreases n,
{
    if n > 0 {
        clean_cells_stay(image, grid, font, n - 1);
    }
}

/// A grid with no dirty cell paints nothing and damages nothing.
pub proof fn clean_grids_paint_nothing(image: Image, grid: GridModel, font: Font)
    requires
        grid.wf(),
        forall|i: int| 0 <= i < grid.dirty.len() ==> !#[trigger] grid.dirty[i],
    ensures
        painted(image, grid, font) == image,
        painted_damage(image, grid, font) == Seq::<Damage>::empty(),
{
    no_damage_in_clean_grids(grid, font.spec_metrics(), grid.rows);
    clean_cells_stay(image, grid, font, grid.cols * grid.rows);
}

/// True when a column lies in one of the runs.
pub open spec fn in_some_run(runs: Seq<(int, int)>, c: int) -> bool {
    exists|k: int| 0 <= k < runs.len() && (#[trigger] runs[k]).0 <= c < runs[k].1
}

proof fn in_longer_runs(run: (int, int), rest: Seq<(int, int)>, c: int)
    ensures
        in_some_run(seq![run] + rest, c) == (run.0 <= c < run.1 || in_some_run(rest, c)),
{
    let all = seq![run] + rest;
    if run.0 <= c < run.1 {
        assert(all[0] == run);
    }
    if in_some_run(rest, c) {
        let k = choose|k: int| 0 <= k < rest.len() && (#[trigger] rest[k]).0 <= c < rest[k].1;
        assert(all[k + 1] == rest[k]);
    }
    if in_some_run(all, c) {
        let k = choose|k: int| 0 <= k < all.len() && (#[trigger] all[k]).0 <= c < all[k].1;
        if k > 0 {
            assert(all[k] == rest[k - 1]);
        }
    }
}

proof fn runs_from_cover(grid: GridModel, row: int, col: int, start: Option<int>, c: int)
    requires
        0 <= col <= grid.cols + 1,
        start matches Some(start) ==> 0 <= start < col <= grid.cols,
        0 <= c < grid.cols,
    ensures
        in_some_run(runs(grid, row, col, start), c) == (start is Some && start->0 <= c < col || c
            >= col && grid.dirty_at(c, row)),
    decreases grid.cols + 1 - col,
{
    if col <= grid.cols {
        if col < grid.cols && grid.dirty_at(col, row) {
            let next = match start {
                Some(start) => start,
                None => col,
            };
            runs_from_cover(grid, row, col + 1, Some(next), c);
        } else {
            runs_from_cover(grid, row, col + 1, None, c);
            if let Some(start) = start {
                in_longer_runs((start, col), runs(grid, row, col + 1, None), c);
            }
        }
    }
}

/// The runs of a row hold exactly its dirty cells.
pub proof fn runs_hold_the_dirty_cells(grid: GridModel, row: int, c: int)
    requires
        0 <= c < grid.cols,
    ensures
        in_some_run(runs(grid, row, 0, None), c) == grid.dirty_at(c, row),
{
    runs_from_cover(grid, row, 0, None, c);
}

/// Every arm of a line character reaches the edge of its cell.
pub proof fn arms_reach_the_edges(cell: CellArea, weight: Weight)
    requires
        cell.0 >= 0,
        cell.1 >= 0,
        cell.2 > 0,
        cell.3 > 0,
        !(weight is Empty),
    ensures
        left_strokes(cell, weight).len() > 0,
        forall|k: int|
            0 <= k < left_strokes(cell, weight).len() ==> {
                let stroke = #[trigger] left_strokes(cell, weight)[k];
                stroke.0 == cell.0 && stroke.2 > 0 && stroke.3 > 0
            },
        right_strokes(cell, weight).len() > 0,
        forall|k: int|
            0 <= k < right_strokes(cell, weight).len() ==> {
                let stroke = #[trigger] right_strokes(cell, weight)[k];
                stroke.0 + stroke.2 == cell.0 + cell.2 && stroke.2 > 0 && stroke.3 > 0
            },
        up_strokes(cell, weight).len() > 0,
        forall|k: int|
            0 <= k < up_strokes(cell, weight).len() ==> {
                let stroke = #[trigger] up_strokes(cell, weight)[k];
                stroke.1 == cell.1 && stroke.2 > 0 && stroke.3 > 0
            },
        down_strokes(cell, weight).len() > 0,
        forall|k: int|
            0 <= k < down_strokes(cell, weight).len() ==> {
                let stroke = #[trigger] down_strokes(cell, weight)[k];
                stroke.1 + stroke.3 == cell.1 + cell.3 && stroke.2 > 0 && stroke.3 > 0
            },
{
}

/// Lines of neighbouring cells join: where one cell has an arm to the right and the next one
/// an equal arm to the left, the strokes have the same height and thickness and meet at the
/// edge between them; the same holds downwards.
pub proof fn neighbouring_lines_join(cell: CellArea, weight: Weight, k: int)
    requires
        cell.0 >= 0,
        cell.1 >= 0,
        cell.2 > 0,
        cell.3 > 0,
        !(weight is Empty),
        0 <= k < right_strokes(cell, weight).len(),
    ensures
        ({
            let beside = (cell.0 + cell.2, cell.1, cell.2, cell.3);
            let here = right_strokes(cell, weight)[k];
            let there = left_strokes(beside, weight)[k];
            &&& left_strokes(beside, weight).len() == right_strokes(cell, weight).len()
            &&& here.1 == there.1 && here.3 == there.3
            &&& here.0 + here.2 == there.0
        }),
        ({
            let below = (cell.0, cell.1 + cell.3, cell.2, cell.3);
            let here = down_strokes(cell, weight)[k];
            let there = up_strokes(below, weight)[k];
            &&& up_strokes(below, weight).len() == down_strokes(cell, weight).len()
            &&& here.0 == there.0 && here.2 == there.2
            &&& here.1 + here.3 == there.1
        }),
{
}

/// Whenever anything was painted, the pixels beyond the last whole cells show the background.
pub proof fn margins_show_the_background(
    image: Image,
    grid: GridModel,
    font: Font,
    px: int,
    py: int,
)
    requires
        grid.wf(),
        image.wf(),
        painted_damage(image, grid, font).len() > 0,
        0 <= px < image.width,
        0 <= py < image.height,
        py * image.stride + px < image.words.len(),
        px >= grid.cols * font.spec_metrics().width || py >= grid.rows
            * font.spec_metrics().height,
    ensures
        painted(image, grid, font).words[py * image.stride + px] == argb(grid.blank.bg),
{
    let metrics = font.spec_metrics();
    let color = grid.blank.bg;
    painting_keeps_shape(image, grid, font, grid.cols * grid.rows);
    let cells = with_cells_painted(image, grid, font, grid.cols * grid.rows);
    let right = match right_margin(grid, metrics, cells) {
        Some(area) => seq![area],
        None => seq![],
    };
    let bottom = match bottom_margin(grid, metrics, cells) {
        Some(area) => seq![area],
        None => seq![],
    };
    filled_all_joins(cells, right, bottom, color);
    let mid = cells.filled_all(right, color);
    filling_keeps_shape(cells, right, color);
    if let Some(area) = right_margin(grid, metrics, cells) {
        filled_all_one(cells, area, color);
        filled_areas_show(cells, area, color, px, py);
    } else {
        filled_all_one(cells, (0, 0, 0, 0), color);
    }
    if let Some(area) = bottom_margin(grid, metrics, cells) {
        filled_all_one(mid, area, color);
        filled_areas_show(mid, area, color, px, py);
    } else {
        filled_all_one(mid, (0, 0, 0, 0), color);
    }
}

} // verus!
