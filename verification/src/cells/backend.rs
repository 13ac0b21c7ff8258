//! Drawing of screens into a [`Grid`] instead of a terminal.

use crate::cells::color::{indexed_color, Palette, Rgb};
use crate::cells::font::CellMetrics;
use crate::cells::grid::{Attrs, Cell, Grid, GridModel};
use crate::text::chars_of;
use vstd::prelude::*;

verus! {

/// A colour that a screen asks for.
#[derive(Debug, Clone, Copy, PartialEq, Eq, Structural)]
pub enum Color {
    /// The default.
    Reset,
    Black,
    Red,
    Green,
    Yellow,
    Blue,
    Magenta,
    Cyan,
    Gray,
    DarkGray,
    LightRed,
    LightGreen,
    LightYellow,
    LightBlue,
    LightMagenta,
    LightCyan,
    White,
    /// An xterm 256-colour index.
    Indexed(u8),
    /// A colour of its own.
    Rgb(u8, u8, u8),
}

/// One cell that a screen draws.
#[derive(Debug, PartialEq, Eq)]
pub struct DrawnCell {
    pub col: u16,
    pub row: u16,
    /// The text of the cell; only its first character is shown.
    pub symbol: String,
    pub fg: Color,
    pub bg: Color,
    pub bold: bool,
    pub underlined: bool,
    /// Foreground and background trade places.
    pub reversed: bool,
}

/// The colour that a request stands for.
pub open spec fn resolved(palette: Palette, color: Color, fallback: Rgb) -> Rgb {
    match color {
        Color::Reset => fallback,
        Color::Black => palette.ansi@[0],
        Color::Red => palette.ansi@[1],
        Color::Green => palette.ansi@[2],
        Color::Yellow => palette.ansi@[3],
        Color::Blue => palette.ansi@[4],
        Color::Magenta => palette.ansi@[5],
        Color::Cyan => palette.ansi@[6],
        Color::Gray => palette.ansi@[7],
        Color::DarkGray => palette.ansi@[8],
        Color::LightRed => palette.ansi@[9],
        Color::LightGreen => palette.ansi@[10],
        Color::LightYellow => palette.ansi@[11],
        Color::LightBlue => palette.ansi@[12],
        Color::LightMagenta => palette.ansi@[13],
        Color::LightCyan => palette.ansi@[14],
        Color::White => palette.ansi@[15],
        Color::Indexed(index) => indexed_color(palette, index),
        Color::Rgb(r, g, b) => Rgb(r, g, b),
    }
}

/// The grid cell that a drawn cell becomes. A cell without text is blank.
pub open spec fn grid_cell(palette: Palette, drawn: DrawnCell) -> Cell {
    let fg = resolved(palette, drawn.fg, palette.foreground);
    let bg = resolved(palette, drawn.bg, palette.background);
    Cell {
        ch: if drawn.symbol@.len() > 0 {
            drawn.symbol@[0]
        } else {
            ' '
        },
        fg: if drawn.reversed {
            bg
        } else {
            fg
        },
        bg: if drawn.reversed {
            fg
        } else {
            bg
        },
        attrs: Attrs { bold: drawn.bold, underline: drawn.underlined },
    }
}

/// The grid after the cells `content[from..]` were drawn.
pub open spec fn with_drawn(
    grid: GridModel,
    palette: Palette,
    content: Seq<DrawnCell>,
    from: int,
) -> GridModel
    decreases content.len() - from,
{
    if from < 0 || from >= content.len() {
        grid
    } else {
        with_drawn(
            grid.with_cell(
                content[from].col as int,
                content[from].row as int,
                grid_cell(palette, content[from]),
            ),
            palette,
            content,
            from + 1,
        )
    }
}

/// How many whole cells fit into a length: at least one, and as many as can be counted.
pub open spec fn cells_in(length: int, cell: int) -> int {
    if length / cell < 1 {
        1
    } else if length / cell > u16::MAX {
        u16::MAX as int
    } else {
        length / cell
    }
}

fn fitting(length: u32, cell: u32) -> (r: u16)
    requires
        cell > 0,
    ensures
        r == cells_in(length as int, cell as int),
{
    let n: u32 = length / cell;
    if n < 1 {
        1
    } else if n > 0xFFFF {
        0xFFFF
    } else {
        n as u16
    }
}

/// The length of some cells, as far as it can be counted.
pub open spec fn clipped_length(cells: int, cell: int) -> int {
    if cells * cell > u16::MAX {
        u16::MAX as int
    } else {
        cells * cell
    }
}

fn clip_length(cells: u16, cell: u32) -> (r: u16)
    ensures
        r == clipped_length(cells as int, cell as int),
{
    assert(0 <= cells * cell <= 0xffff * 0xffff_ffff) by (nonlinear_arith)
        requires
            0 <= cells <= 0xffff,
            0 <= cell <= 0xffff_ffff,
    ;
    let n: u64 = cells as u64 * cell as u64;
    if n > 0xFFFF {
        0xFFFF
    } else {
        n as u16
    }
}

/// Wraps a [`Grid`] so that screens can be drawn into it.
#[derive(Debug)]
pub struct CellBackend {
    /// The cells that were drawn, ready to be painted.
    pub grid: Grid,
    /// How named colours resolve to real colours.
    pub palette: Palette,
    pub metrics: CellMetrics,
    /// Where the cursor stands.
    pub cursor: (u16, u16),
    pub cursor_visible: bool,
}

impl CellBackend {
    /// The grid is well formed, and cells have a size.
    pub open spec fn wf(&self) -> bool {
        &&& self.grid@.wf()
        &&& self.metrics.width > 0
        &&& self.metrics.height > 0
    }

    /// Wraps a grid so that screens can be drawn into it.
    pub fn new(grid: Grid, palette: Palette, metrics: CellMetrics) -> (r: Self)
        ensures
            r.grid == grid,
            r.palette == palette,
            r.metrics == metrics,
            r.cursor == (0u16, 0u16),
            !r.cursor_visible,
    {
        Self { grid, palette, metrics, cursor: (0, 0), cursor_visible: false }
    }

    /// Whether a visible cursor was asked for.
    pub fn cursor_visible(&self) -> (r: bool)
        ensures
            r == self.cursor_visible,
    {
        self.cursor_visible
    }

    /// Resizes the grid to fit a surface of this pixel size, returning the new grid size.
    pub fn resize_to_pixels(&mut self, width: u32, height: u32) -> (r: (u16, u16))
        requires
            old(self).wf(),
        ensures
            final(self).wf(),
            r.0 == cells_in(width as int, old(self).metrics.width as int),
            r.1 == cells_in(height as int, old(self).metrics.height as int),
            final(self).grid@ == old(self).grid@.resized(r.0 as int, r.1 as int),
            final(self).palette == old(self).palette,
            final(self).metrics == old(self).metrics,
            final(self).cursor == old(self).cursor,
            final(self).cursor_visible == old(self).cursor_visible,
    {
        let cols: u16 = fitting(width, self.metrics.width);
        let rows: u16 = fitting(height, self.metrics.height);
        self.grid.resize(cols, rows);
        (cols, rows)
    }

    fn resolve(&self, color: Color, fallback: Rgb) -> (r: Rgb)
        ensures
            r == resolved(self.palette, color, fallback),
    {
        match color {
            Color::Reset => fallback,
            Color::Black => self.palette.ansi[0],
            Color::Red => self.palette.ansi[1],
            Color::Green => self.palette.ansi[2],
            Color::Yellow => self.palette.ansi[3],
            Color::Blue => self.palette.ansi[4],
            Color::Magenta => self.palette.ansi[5],
            Color::Cyan => self.palette.ansi[6],
            Color::Gray => self.palette.ansi[7],
            Color::DarkGray => self.palette.ansi[8],
            Color::LightRed => self.palette.ansi[9],
            Color::LightGreen => self.palette.ansi[10],
            Color::LightYellow => self.palette.ansi[11],
            Color::LightBlue => self.palette.ansi[12],
            Color::LightMagenta => self.palette.ansi[13],
            Color::LightCyan => self.palette.ansi[14],
            Color::White => self.palette.ansi[15],
            Color::Indexed(index) => self.palette.indexed(index),
            Color::Rgb(r, g, b) => Rgb(r, g, b),
        }
    }

    /// Draws cells into the grid, in order.
    pub fn draw(&mut self, content: &Vec<DrawnCell>)
        requires
            old(self).wf(),
        ensures
            final(self).wf(),
            final(self).grid@ == with_drawn(
                old(self).grid@,
                old(self).palette,
                content@,
                0,
            ),
            final(self).palette == old(self).palette,
            final(self).metrics == old(self).metrics,
            final(self).cursor == old(self).cursor,
            final(self).cursor_visible == old(self).cursor_visible,
    {
        let ghost after = with_drawn(self.grid@, self.palette, content@, 0);
        let mut i: usize = 0;
        while i < content.len()
            invariant
                i <= content.len(),
                self.wf(),
                self.palette == old(self).palette,
                self.metrics == old(self).metrics,
                self.cursor == old(self).cursor,
                self.cursor_visible == old(self).cursor_visible,
                after == with_drawn(self.grid@, self.palette, content@, i as int),
            decreases content.len() - i,
        {
            let drawn = &content[i];
            let fg = self.resolve(drawn.fg, self.palette.foreground);
            let bg = self.resolve(drawn.bg, self.palette.background);
            // The trailing cell of a wide glyph has no text; it is painted as background.
            let symbol = chars_of(drawn.symbol.as_str());
            let ch = if symbol.len() > 0 {
                symbol[0]
            } else {
                ' '
            };
            let cell = Cell {
                ch,
                fg: if drawn.reversed {
                    bg
                } else {
                    fg
                },
                bg: if drawn.reversed {
                    fg
                } else {
                    bg
                },
                attrs: Attrs { bold: drawn.bold, underline: drawn.underlined },
            };
            self.grid.set(drawn.col, drawn.row, cell);
            i = i + 1;
        }
    }

    /// Blanks the grid. Screens are redrawn whole, so clearing a part of one clears it all.
    pub fn clear(&mut self)
        requires
            old(self).wf(),
        ensures
            final(self).wf(),
            final(self).grid@ == old(self).grid@.cleared(),
            final(self).palette == old(self).palette,
            final(self).metrics == old(self).metrics,
            final(self).cursor == old(self).cursor,
            final(self).cursor_visible == old(self).cursor_visible,
    {
        self.grid.clear();
    }

    /// The size of the grid in columns and rows.
    pub fn size(&self) -> (r: (u16, u16))
        ensures
            r.0 == self.grid@.cols,
            r.1 == self.grid@.rows,
    {
        (self.grid.cols(), self.grid.rows())
    }

    /// The size of the grid in cells, and in pixels as far as those can be counted.
    pub fn window_size(&self) -> (r: ((u16, u16), (u16, u16)))
        ensures
            (r.0).0 == self.grid@.cols,
            (r.0).1 == self.grid@.rows,
            (r.1).0 == clipped_length(self.grid@.cols, self.metrics.width as int),
            (r.1).1 == clipped_length(self.grid@.rows, self.metrics.height as int),
    {
        let (cols, rows) = self.size();
        (
            (cols, rows),
            (clip_length(cols, self.metrics.width), clip_length(rows, self.metrics.height)),
        )
    }
}

/// The named colours, in the order of their numbers.
pub open spec fn named_colors() -> Seq<Color> {
    seq![
        Color::Black,
        Color::Red,
        Color::Green,
        Color::Yellow,
        Color::Blue,
        Color::Magenta,
        Color::Cyan,
        Color::Gray,
        Color::DarkGray,
        Color::LightRed,
        Color::LightGreen,
        Color::LightYellow,
        Color::LightBlue,
        Color::LightMagenta,
        Color::LightCyan,
        Color::White,
    ]
}

/// A named colour is the numbered one of its place, whatever the palette; a colour given in full
/// is taken as it is; and no colour means the one that the place has anyway.
pub proof fn names_are_numbers(palette: Palette, fallback: Rgb, i: u8, r: u8, g: u8, b: u8)
    requires
        i < 16,
    ensures
        resolved(palette, named_colors()[i as int], fallback) == resolved(
            palette,
            Color::Indexed(i),
            fallback,
        ),
        resolved(palette, Color::Indexed(i), fallback) == palette.ansi@[i as int],
        resolved(palette, Color::Rgb(r, g, b), fallback) == Rgb(r, g, b),
        resolved(palette, Color::Reset, fallback) == fallback,
{
}

/// A reversed cell has the colours of a plain one the other way round, and all else alike; a
/// cell without a symbol is blank.
pub proof fn reversing_swaps_the_colours(palette: Palette, drawn: DrawnCell, plain: DrawnCell)
    requires
        drawn.reversed,
        !plain.reversed,
        plain.symbol@ == drawn.symbol@,
        plain.fg == drawn.fg,
        plain.bg == drawn.bg,
        plain.bold == drawn.bold,
        plain.underlined == drawn.underlined,
    ensures
        grid_cell(palette, drawn).fg == grid_cell(palette, plain).bg,
        grid_cell(palette, drawn).bg == grid_cell(palette, plain).fg,
        grid_cell(palette, drawn).ch == grid_cell(palette, plain).ch,
        grid_cell(palette, drawn).attrs == grid_cell(palette, plain).attrs,
        grid_cell(palette, plain).fg == resolved(palette, plain.fg, palette.foreground),
        grid_cell(palette, plain).bg == resolved(palette, plain.bg, palette.background),
        grid_cell(palette, plain).attrs.bold == plain.bold,
        grid_cell(palette, plain).attrs.underline == plain.underlined,
        plain.symbol@.len() == 0 ==> grid_cell(palette, plain).ch == ' ',
        plain.symbol@.len() > 0 ==> grid_cell(palette, plain).ch == plain.symbol@[0],
{
}

/// What is drawn shows: a cell of the grid holds what was drawn there last, and what it held
/// where nothing was.
pub proof fn drawing_shows_the_last(
    grid: GridModel,
    palette: Palette,
    content: Seq<DrawnCell>,
    from: int,
    c: int,
    r: int,
    k: int,
)
    requires
        grid.wf(),
        grid.inside(c, r),
        0 <= from <= content.len(),
        from <= k <= content.len(),
        forall|i: int|
            (if k < content.len() {
                k
            } else {
                from - 1
            }) < i < content.len() ==> (#[trigger] content[i]).col != c || content[i].row != r,
        k < content.len() ==> content[k].col == c && content[k].row == r,
    ensures
        with_drawn(grid, palette, content, from).at(c, r) == if k < content.len() {
            grid_cell(palette, content[k])
        } else {
            grid.at(c, r)
        },
    decreases content.len() - from,
{
    if from < content.len() {
        let col = content[from].col as int;
        let row = content[from].row as int;
        let cell = grid_cell(palette, content[from]);
        let next = grid.with_cell(col, row, cell);
        crate::cells::grid::written_cells_read_back(grid, col, row, cell, c, r);
        assert(next.wf() && next.inside(c, r)) by {
            if grid.inside(col, row) {
                crate::cells::grid::places_are_inside(col, row, grid.cols, grid.rows);
            }
        }
        if k == from {
            drawing_shows_the_last(next, palette, content, from + 1, c, r, content.len() as int);
        } else {
            drawing_shows_the_last(next, palette, content, from + 1, c, r, k);
        }
    }
}

/// As many whole cells stand in a length as fit, but at least one, and no more than a grid can
/// have.
pub proof fn as_many_cells_as_fit(length: int, cell: int)
    requires
        0 <= length,
        0 < cell,
    ensures
        1 <= cells_in(length, cell) <= u16::MAX,
        cells_in(length, cell) > 1 ==> cells_in(length, cell) * cell <= length,
        cells_in(length, cell) < u16::MAX ==> length < (cells_in(length, cell) + 1) * cell,
{
    let n = length / cell;
    vstd::arithmetic::div_mod::lemma_fundamental_div_mod(length, cell);
    vstd::arithmetic::div_mod::lemma_mod_bound(length, cell);
    assert(cell * n == n * cell) by (nonlinear_arith);
    assert((n + 1) * cell == n * cell + cell) by (nonlinear_arith);
    let m = cells_in(length, cell);
    if m > 1 {
        assert(m * cell <= n * cell) by (nonlinear_arith)
            requires
                m <= n,
                cell > 0,
        ;
    }
    if m < u16::MAX {
        assert((n + 1) * cell <= (m + 1) * cell) by (nonlinear_arith)
            requires
                n <= m,
                cell > 0,
        ;
    }
}

/// The size in pixels is that of the cells, as far as it can be told.
pub proof fn pixels_are_told_as_far_as_they_go(cells: int, cell: int)
    ensures
        cells * cell <= 65_535 ==> clipped_length(cells, cell) == cells * cell,
        cells * cell > 65_535 ==> clipped_length(cells, cell) == 65_535,
{
}

} // verus!
