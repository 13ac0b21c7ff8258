//! Cell metrics and the glyph atlas.
//!
//! Finding a font and turning its outlines into coverage is done elsewhere; the atlas holds the
//! results, and says which are still missing.

use crate::cells::boxdraw::{classify, drawing_of};
use crate::cells::grid::{Grid, GridModel};
use crate::text::concat3;
use vstd::prelude::*;

verus! {

/// Why a font could not be used.
#[derive(Debug, PartialEq, Eq)]
pub enum FontError {
    /// Nothing on the system matched the requested family, not even a fallback.
    NotFound(String),
    /// The font file was found but could not be read or parsed.
    Unreadable(String),
}

impl FontError {
    /// The message shown to a person.
    pub fn to_text(&self) -> (r: String)
        ensures
            r@ == (match self {
                FontError::NotFound(family) => "no font matching `"@ + family@
                    + "` is installed"@,
                FontError::Unreadable(family) => "the font data for `"@ + family@
                    + "` could not be read"@,
            }),
    {
        match self {
            FontError::NotFound(family) => concat3(
                "no font matching `",
                family.as_str(),
                "` is installed",
            ),
            FontError::Unreadable(family) => concat3(
                "the font data for `",
                family.as_str(),
                "` could not be read",
            ),
        }
    }
}

/// Cell geometry derived from the font, all in whole pixels.
#[derive(Debug, Clone, Copy, PartialEq, Eq, Structural)]
pub struct CellMetrics {
    /// Advance width of one cell; every glyph in a monospace font shares it.
    pub width: u32,
    /// Full line height: ascent + descent + line gap.
    pub height: u32,
    /// Distance from the top of the cell down to the text baseline.
    pub baseline: u32,
    /// Where an underline sits, measured from the top of the cell.
    pub underline: u32,
}

impl CellMetrics {
    /// Metrics from measured lengths: a cell has at least one pixel each way, and the underline
    /// stays inside it.
    pub fn measured(width: u32, height: u32, baseline: u32, underline: u32) -> (r: Self)
        ensures
            r.width == (if width == 0 {
                1
            } else {
                width as int
            }),
            r.height == (if height == 0 {
                1
            } else {
                height as int
            }),
            r.baseline == baseline,
            r.underline == (if underline < r.height {
                underline as int
            } else {
                r.height - 1
            }),
    {
        let width: u32 = if width == 0 {
            1
        } else {
            width
        };
        let height: u32 = if height == 0 {
            1
        } else {
            height
        };
        let underline: u32 = if underline < height {
            underline
        } else {
            height - 1
        };
        CellMetrics { width, height, baseline, underline }
    }
}

/// A rasterised glyph: 8-bit coverage plus where it sits relative to the pen.
#[derive(Debug, PartialEq, Eq)]
pub struct Glyph {
    /// Width of the coverage bitmap in pixels.
    pub width: u32,
    /// Height of the coverage bitmap in pixels.
    pub height: u32,
    /// Horizontal offset from the pen position.
    pub left: i32,
    /// Height above the baseline of the bitmap's top row.
    pub top: i32,
    /// One alpha byte per pixel, `width * height` long.
    pub coverage: Vec<u8>,
}

impl Glyph {
    /// There is one alpha byte per pixel.
    pub open spec fn wf(self) -> bool {
        self.coverage@.len() == self.width * self.height
    }
}

/// One entry of the atlas; a blank glyph has no shape.
#[derive(Debug, PartialEq, Eq)]
pub struct Shape {
    pub ch: char,
    pub bold: bool,
    pub glyph: Option<Glyph>,
}

/// The place of a character in an atlas.
pub open spec fn shape_place(shapes: Seq<Shape>, ch: char, bold: bool, from: int) -> Option<int>
    decreases shapes.len() - from,
{
    if from < 0 || from >= shapes.len() {
        None
    } else if shapes[from].ch == ch && shapes[from].bold == bold {
        Some(from)
    } else {
        shape_place(shapes, ch, bold, from + 1)
    }
}

/// A monospace font: its metrics, and the glyphs that were rasterised so far.
pub struct Font {
    metrics: CellMetrics,
    atlas: Vec<Shape>,
}

impl Font {
    /// The glyphs that were rasterised so far.
    pub closed spec fn shapes(&self) -> Seq<Shape> {
        self.atlas@
    }

    pub closed spec fn spec_metrics(&self) -> CellMetrics {
        self.metrics
    }

    /// Every glyph has one alpha byte per pixel.
    pub open spec fn wf(&self) -> bool {
        forall|i: int|
            0 <= i < self.shapes().len() ==> ((#[trigger] self.shapes()[i]).glyph matches Some(
                glyph,
            ) ==> glyph.wf())
    }

    /// True when a character was rasterised already.
    pub open spec fn knows(&self, ch: char, bold: bool) -> bool {
        shape_place(self.shapes(), ch, bold, 0) is Some
    }

    /// True when every glyph that painting a grid needs was rasterised already.
    pub open spec fn covers(&self, grid: GridModel) -> bool {
        forall|c: int, r: int|
            grid.inside(c, r) && #[trigger] is_needed(grid, c, r) ==> self.knows(
                grid.at(c, r).ch,
                grid.at(c, r).attrs.bold,
            )
    }

    /// The glyph of a character; `None` for blank ones, and for those not rasterised yet.
    pub open spec fn glyph_of(&self, ch: char, bold: bool) -> Option<Glyph> {
        match shape_place(self.shapes(), ch, bold, 0) {
            Some(i) => self.shapes()[i].glyph,
            None => None,
        }
    }

    /// A font with these metrics and no glyphs yet.
    pub fn new(metrics: CellMetrics) -> (r: Self)
        ensures
            r.wf(),
            r.spec_metrics() == metrics,
            r.shapes() == Seq::<Shape>::empty(),
    {
        Font { metrics, atlas: Vec::new() }
    }

    /// The cell geometry this font and size produce.
    pub fn metrics(&self) -> (r: CellMetrics)
        ensures
            r == self.spec_metrics(),
    {
        self.metrics
    }

    fn find(&self, ch: char, bold: bool) -> (r: Option<usize>)
        ensures
            match r {
                Some(i) => i < self.shapes().len() && shape_place(self.shapes(), ch, bold, 0)
                    == Some(i as int),
                None => shape_place(self.shapes(), ch, bold, 0) is None,
            },
    {
        let mut i: usize = 0;
        while i < self.atlas.len()
            invariant
                i <= self.atlas.len(),
                shape_place(self.shapes(), ch, bold, 0) == shape_place(
                    self.shapes(),
                    ch,
                    bold,
                    i as int,
                ),
            decreases self.atlas.len() - i,
        {
            if self.atlas[i].ch == ch && self.atlas[i].bold == bold {
                return Some(i);
            }
            i = i + 1;
        }
        None
    }

    /// The rasterised glyph of `ch`. Returns `None` for blank glyphs.
    pub fn glyph(&self, ch: char, bold: bool) -> (r: Option<&Glyph>)
        requires
            self.wf(),
            self.knows(ch, bold),
        ensures
            match r {
                Some(glyph) => self.glyph_of(ch, bold) == Some(*glyph) && glyph.wf(),
                None => self.glyph_of(ch, bold) is None,
            },
    {
        match self.find(ch, bold) {
            None => None,
            Some(i) => {
                assert(self.shapes()[i as int] == self.atlas@[i as int]);
                match &self.atlas[i].glyph {
                    Some(glyph) => Some(glyph),
                    None => None,
                }
            },
        }
    }

    /// Keeps a rasterised glyph. One that is there already stays.
    pub fn keep(&mut self, ch: char, bold: bool, glyph: Option<Glyph>)
        requires
            old(self).wf(),
            glyph matches Some(glyph) ==> glyph.wf(),
        ensures
            final(self).wf(),
            final(self).spec_metrics() == old(self).spec_metrics(),
            final(self).shapes() == (if old(self).knows(ch, bold) {
                old(self).shapes()
            } else {
                old(self).shapes().push(Shape { ch, bold, glyph })
            }),
    {
        if self.find(ch, bold).is_none() {
            let ghost before = self.shapes();
            self.atlas.push(Shape { ch, bold, glyph });
            assert forall|i: int| 0 <= i < self.shapes().len() implies ((
            #[trigger] self.shapes()[i]).glyph matches Some(glyph) ==> glyph.wf()) by {
                if i < before.len() {
                    assert(self.shapes()[i] == before[i]);
                }
            }
        }
    }

    /// A dirty cell of a grid whose glyph is not rasterised yet: its character and whether it
    /// is bold. `None` when the grid can be painted.
    pub fn missing(&self, grid: &Grid) -> (r: Option<(char, bool)>)
        requires
            grid@.wf(),
        ensures
            match r {
                Some((ch, bold)) => !self.knows(ch, bold) && exists|c: int, r: int|
                    grid@.inside(c, r) && #[trigger] is_needed(grid@, c, r) && grid@.at(c, r).ch
                        == ch && grid@.at(c, r).attrs.bold == bold,
                None => self.covers(grid@),
            },
    {
        let mut row: u16 = 0;
        while row < grid.rows()
            invariant
                grid@.wf(),
                forall|c: int, r: int|
                    grid@.inside(c, r) && r < row && #[trigger] is_needed(grid@, c, r)
                        ==> self.knows(grid@.at(c, r).ch, grid@.at(c, r).attrs.bold),
            decreases grid@.rows - row,
        {
            let mut col: u16 = 0;
            while col < grid.cols()
                invariant
                    grid@.wf(),
                    row < grid@.rows,
                    col <= grid@.cols,
                    forall|c: int|
                        0 <= c < col && #[trigger] is_needed(grid@, c, row as int) ==> self.knows(
                            grid@.at(c, row as int).ch,
                            grid@.at(c, row as int).attrs.bold,
                        ),
                decreases grid@.cols - col,
            {
                if grid.is_dirty(col, row) {
                    if let Some(cell) = grid.cell(col, row) {
                        let ch = cell.ch;
                        let bold = cell.attrs.bold;
                        if classify(ch).is_none() && self.find(ch, bold).is_none() {
                            assert(grid@.inside(col as int, row as int) && is_needed(
                                grid@,
                                col as int,
                                row as int,
                            ));
                            return Some((ch, bold));
                        }
                    }
                }
                col = col + 1;
            }
            row = row + 1;
        }
        None
    }
}

/// True when painting a cell needs a glyph: it is dirty and not drawn as lines or blocks.
pub open spec fn is_needed(grid: GridModel, col: int, row: int) -> bool {
    grid.dirty_at(col, row) && drawing_of(grid.at(col, row).ch) is None
}

/// A glyph that was kept is the one that is found for its character in its weight; the first one
/// stays, and no other character is touched.
pub proof fn kept_glyphs_are_found(
    shapes: Seq<Shape>,
    shape: Shape,
    ch: char,
    bold: bool,
    from: int,
)
    requires
        0 <= from <= shapes.len(),
    ensures
        match shape_place(shapes, ch, bold, from) {
            Some(i) => {
                &&& from <= i < shapes.len()
                &&& shapes[i].ch == ch && shapes[i].bold == bold
                &&& forall|j: int|
                    from <= j < i ==> (#[trigger] shapes[j]).ch != ch || shapes[j].bold != bold
                &&& shape_place(shapes.push(shape), ch, bold, from) == Some(i)
            },
            None => {
                &&& forall|j: int|
                    from <= j < shapes.len() ==> (#[trigger] shapes[j]).ch != ch || shapes[j].bold
                        != bold
                &&& shape_place(shapes.push(shape), ch, bold, from) == if shape.ch == ch
                    && shape.bold == bold {
                    Some(shapes.len() as int)
                } else {
                    None
                }
            },
        },
    decreases shapes.len() - from,
{
    let more = shapes.push(shape);
    if from < shapes.len() {
        assert(more[from] == shapes[from]);
        kept_glyphs_are_found(shapes, shape, ch, bold, from + 1);
    } else {
        assert(more[from] == shape);
        assert(shape_place(more, ch, bold, from + 1) is None);
    }
}

/// Glyphs are asked for where they are about to be painted and only there: not for characters
/// that are drawn as lines or blocks, and not for cells that stay as they are.
pub proof fn drawn_characters_need_no_glyph(grid: GridModel, col: int, row: int)
    ensures
        drawing_of(grid.at(col, row).ch) is Some ==> !is_needed(grid, col, row),
        !grid.dirty_at(col, row) ==> !is_needed(grid, col, row),
        grid.dirty_at(col, row) && drawing_of(grid.at(col, row).ch) is None ==> is_needed(
            grid,
            col,
            row,
        ),
{
}

} // verus!
