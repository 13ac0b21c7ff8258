//! The character grid: what screens are drawn into, and what the painter reads.

use crate::cells::color::Rgb;
use crate::text::chars_of;
use vstd::prelude::*;

verus! {

/// Per-cell style flags.
#[derive(Debug, Clone, Copy, PartialEq, Eq, Structural)]
pub struct Attrs {
    /// Draw with the bold face, falling back to the regular one.
    pub bold: bool,
    /// Draw a line under the cell.
    pub underline: bool,
}

pub open spec fn plain_attrs() -> Attrs {
    Attrs { bold: false, underline: false }
}

impl Default for Attrs {
    fn default() -> (r: Self)
        ensures
            r == plain_attrs(),
    {
        Attrs { bold: false, underline: false }
    }
}

/// One character cell: what to draw, in which colours.
#[derive(Debug, Clone, Copy, PartialEq, Eq, Structural)]
pub struct Cell {
    /// The character to draw. Wide characters occupy the first cell only.
    pub ch: char,
    /// Colour of the glyph or line.
    pub fg: Rgb,
    /// Colour behind it.
    pub bg: Rgb,
    /// Bold and underline flags.
    pub attrs: Attrs,
}

pub open spec fn blank_cell(fg: Rgb, bg: Rgb) -> Cell {
    Cell { ch: ' ', fg, bg, attrs: plain_attrs() }
}

impl Cell {
    /// An empty cell in the given colours.
    pub fn blank(fg: Rgb, bg: Rgb) -> (r: Self)
        ensures
            r == blank_cell(fg, bg),
    {
        Self { ch: ' ', fg, bg, attrs: Attrs::default() }
    }
}

/// A grid of character cells with per-cell dirty tracking.
#[derive(Debug)]
pub struct Grid {
    cols: u16,
    rows: u16,
    cells: Vec<Cell>,
    dirty: Vec<bool>,
    blank: Cell,
}

/// What a grid holds: its cells and their flags, row by row.
#[verifier::ext_equal]
pub struct GridModel {
    pub cols: int,
    pub rows: int,
    pub cells: Seq<Cell>,
    pub dirty: Seq<bool>,
    pub blank: Cell,
}

impl View for Grid {
    type V = GridModel;

    closed spec fn view(&self) -> GridModel {
        GridModel {
            cols: self.cols as int,
            rows: self.rows as int,
            cells: self.cells@,
            dirty: self.dirty@,
            blank: self.blank,
        }
    }
}

impl GridModel {
    /// There is one cell and one flag per position.
    pub open spec fn wf(self) -> bool {
        &&& 0 <= self.cols <= u16::MAX
        &&& 0 <= self.rows <= u16::MAX
        &&& self.cells.len() == self.cols * self.rows
        &&& self.dirty.len() == self.cols * self.rows
    }

    /// True for positions inside the grid.
    pub open spec fn inside(self, col: int, row: int) -> bool {
        0 <= col < self.cols && 0 <= row < self.rows
    }

    /// The place of a position in the lists.
    pub open spec fn place(self, col: int, row: int) -> int {
        row * self.cols + col
    }

    /// The cell at a position.
    pub open spec fn at(self, col: int, row: int) -> Cell {
        self.cells[self.place(col, row)]
    }

    /// Whether the cell at a position changed since it was last painted.
    pub open spec fn dirty_at(self, col: int, row: int) -> bool {
        self.dirty[self.place(col, row)]
    }

    /// The grid with one cell written. A position outside changes nothing, and a cell that is
    /// written as it was does not become dirty.
    pub open spec fn with_cell(self, col: int, row: int, cell: Cell) -> GridModel {
        if self.inside(col, row) && self.at(col, row) != cell {
            GridModel {
                cells: self.cells.update(self.place(col, row), cell),
                dirty: self.dirty.update(self.place(col, row), true),
                ..self
            }
        } else {
            self
        }
    }

    /// The grid with the text `text[from..]` written from `col + from` on.
    pub open spec fn with_text(
        self,
        col: int,
        row: int,
        text: Seq<char>,
        from: int,
        fg: Rgb,
        bg: Rgb,
    ) -> GridModel
        decreases text.len() - from,
    {
        if from < 0 || from >= text.len() {
            self
        } else {
            self.with_cell(
                col + from,
                row,
                Cell { ch: text[from], fg, bg, attrs: plain_attrs() },
            ).with_text(col, row, text, from + 1, fg, bg)
        }
    }

    /// The grid with every cell blank; cells that were blank already do not become dirty.
    pub open spec fn cleared(self) -> GridModel {
        GridModel {
            cells: Seq::new(self.cells.len(), |i: int| self.blank),
            dirty: Seq::new(
                self.dirty.len(),
                |i: int| self.dirty[i] || self.cells[i] != self.blank,
            ),
            ..self
        }
    }

    /// The grid in another size: cells that still fit stay, new ones are blank, and everything
    /// is dirty.
    pub open spec fn resized(self, cols: int, rows: int) -> GridModel {
        if cols == self.cols && rows == self.rows {
            self
        } else {
            GridModel {
                cols,
                rows,
                cells: Seq::new(
                    (cols * rows) as nat,
                    |i: int|
                        if i % cols < self.cols && i / cols < self.rows {
                            self.at(i % cols, i / cols)
                        } else {
                            self.blank
                        },
                ),
                dirty: Seq::new((cols * rows) as nat, |i: int| true),
                blank: self.blank,
            }
        }
    }
}

/// Positions inside a grid have a place in its lists.
pub proof fn places_are_inside(col: int, row: int, cols: int, rows: int)
    requires
        0 <= col < cols,
        0 <= row < rows,
    ensures
        0 <= row * cols + col < cols * rows,
        (row * cols + col) % cols == col,
        (row * cols + col) / cols == row,
{
    assert(row * cols + col < cols * rows && row * cols >= 0) by (nonlinear_arith)
        requires
            0 <= col < cols,
            0 <= row < rows,
    ;
    vstd::arithmetic::div_mod::lemma_fundamental_div_mod_converse(
        row * cols + col,
        cols,
        row,
        col,
    );
}

/// Different positions have different places.
pub proof fn places_are_distinct(c1: int, r1: int, c2: int, r2: int, cols: int, rows: int)
    requires
        0 <= c1 < cols,
        0 <= r1 < rows,
        0 <= c2 < cols,
        0 <= r2 < rows,
        r1 * cols + c1 == r2 * cols + c2,
    ensures
        c1 == c2,
        r1 == r2,
{
    places_are_inside(c1, r1, cols, rows);
    places_are_inside(c2, r2, cols, rows);
}

fn cell_count(cols: u16, rows: u16) -> (r: usize)
    ensures
        r == cols * rows,
{
    assert(cols * rows <= 0xffff * 0xffff) by (nonlinear_arith)
        requires
            0 <= cols <= 0xffff,
            0 <= rows <= 0xffff,
    ;
    cols as usize * rows as usize
}

impl Grid {
    /// A grid of blank cells, marked entirely dirty so the first paint draws it all.
    pub fn new(cols: u16, rows: u16, fg: Rgb, bg: Rgb) -> (r: Self)
        ensures
            r@.wf(),
            r@ == (GridModel {
                cols: cols as int,
                rows: rows as int,
                cells: Seq::new((cols * rows) as nat, |i: int| blank_cell(fg, bg)),
                dirty: Seq::new((cols * rows) as nat, |i: int| true),
                blank: blank_cell(fg, bg),
            }),
    {
        let blank = Cell::blank(fg, bg);
        let count: usize = cell_count(cols, rows);
        let r = Self { cols, rows, cells: vec![blank; count], dirty: vec![true; count], blank };
        assert(r@ =~= (GridModel {
            cols: cols as int,
            rows: rows as int,
            cells: Seq::new((cols * rows) as nat, |i: int| blank_cell(fg, bg)),
            dirty: Seq::new((cols * rows) as nat, |i: int| true),
            blank: blank_cell(fg, bg),
        }));
        r
    }

    /// Number of columns.
    pub fn cols(&self) -> (r: u16)
        ensures
            r == self@.cols,
    {
        self.cols
    }

    /// Number of rows.
    pub fn rows(&self) -> (r: u16)
        ensures
            r == self@.rows,
    {
        self.rows
    }

    /// The colour behind everything, used for the pixels beyond the last whole cell.
    pub fn background(&self) -> (r: Rgb)
        ensures
            r == self@.blank.bg,
    {
        self.blank.bg
    }

    fn index(&self, col: u16, row: u16) -> (r: Option<usize>)
        requires
            self@.wf(),
        ensures
            match r {
                Some(i) => self@.inside(col as int, row as int) && i == self@.place(
                    col as int,
                    row as int,
                ) && i < self@.cells.len(),
                None => !self@.inside(col as int, row as int),
            },
    {
        if col < self.cols && row < self.rows {
            proof {
                places_are_inside(col as int, row as int, self@.cols, self@.rows);
                assert(row * self.cols <= 0xffff * 0xffff) by (nonlinear_arith)
                    requires
                        0 <= row <= 0xffff,
                        0 <= self.cols <= 0xffff,
                ;
            }
            Some(row as usize * self.cols as usize + col as usize)
        } else {
            None
        }
    }

    /// The cell at this position, or `None` when it is outside the grid.
    pub fn cell(&self, col: u16, row: u16) -> (r: Option<&Cell>)
        requires
            self@.wf(),
        ensures
            match r {
                Some(cell) => self@.inside(col as int, row as int) && *cell == self@.at(
                    col as int,
                    row as int,
                ),
                None => !self@.inside(col as int, row as int),
            },
    {
        match self.index(col, row) {
            Some(i) => Some(&self.cells[i]),
            None => None,
        }
    }

    /// Whether this cell changed since the last paint.
    pub fn is_dirty(&self, col: u16, row: u16) -> (r: bool)
        requires
            self@.wf(),
        ensures
            r == (self@.inside(col as int, row as int) && self@.dirty_at(col as int, row as int)),
    {
        match self.index(col, row) {
            Some(i) => self.dirty[i],
            None => false,
        }
    }

    /// Whether anything needs repainting.
    pub fn any_dirty(&self) -> (r: bool)
        ensures
            r == self@.dirty.contains(true),
    {
        let mut i: usize = 0;
        while i < self.dirty.len()
            invariant
                i <= self.dirty.len(),
                forall|j: int| 0 <= j < i ==> !self.dirty@[j],
            decreases self.dirty.len() - i,
        {
            if self.dirty[i] {
                assert(self@.dirty[i as int]);
                return true;
            }
            i = i + 1;
        }
        false
    }

    /// Writes a cell, marking it dirty only when something actually changed.
    pub fn set(&mut self, col: u16, row: u16, cell: Cell)
        requires
            old(self)@.wf(),
        ensures
            final(self)@.wf(),
            final(self)@ == old(self)@.with_cell(col as int, row as int, cell),
    {
        if let Some(i) = self.index(col, row) {
            if self.cells[i] != cell {
                self.cells.set(i, cell);
                self.dirty.set(i, true);
            }
        }
    }

    /// Resets every cell to the blank cell.
    pub fn clear(&mut self)
        requires
            old(self)@.wf(),
        ensures
            final(self)@.wf(),
            final(self)@ == old(self)@.cleared(),
    {
        let ghost before = self@;
        let count: usize = self.cells.len();
        let mut i: usize = 0;
        while i < count
            invariant
                i <= count,
                count == self.cells.len(),
                before.wf(),
                before.cells.len() == count,
                self@.cols == before.cols,
                self@.rows == before.rows,
                self@.blank == before.blank,
                self.cells@.len() == before.cells.len(),
                self.dirty@.len() == before.dirty.len(),
                forall|j: int| 0 <= j < i ==> self.cells@[j] == before.blank,
                forall|j: int|
                    0 <= j < i ==> self.dirty@[j] == (before.dirty[j] || before.cells[j]
                        != before.blank),
                forall|j: int| i <= j < count ==> self.cells@[j] == before.cells[j],
                forall|j: int| i <= j < count ==> self.dirty@[j] == before.dirty[j],
            decreases count - i,
        {
            if self.cells[i] != self.blank {
                let blank = self.blank;
                self.cells.set(i, blank);
                self.dirty.set(i, true);
            }
            i = i + 1;
        }
        assert(self@ =~= before.cleared());
    }

    /// Resizes the grid, keeping the cells that still fit. Everything is redrawn after this.
    pub fn resize(&mut self, cols: u16, rows: u16)
        requires
            old(self)@.wf(),
        ensures
            final(self)@.wf(),
            final(self)@ == old(self)@.resized(cols as int, rows as int),
    {
        if cols == self.cols && rows == self.rows {
            return;
        }
        let ghost before = self@;
        let ghost after = before.resized(cols as int, rows as int);
        let count: usize = cell_count(cols, rows);
        let mut cells: Vec<Cell> = Vec::new();
        let mut row: u16 = 0;
        while row < rows
            invariant
                row <= rows,
                before == self@,
                before.wf(),
                after == before.resized(cols as int, rows as int),
                !(cols == self.cols && rows == self.rows),
                cells@ == after.cells.take(row * cols),
                after.cells.len() == cols * rows,
            decreases rows - row,
        {
            let mut col: u16 = 0;
            proof {
                assert(row * cols + cols == (row + 1) * cols) by (nonlinear_arith);
                assert((row + 1) * cols <= cols * rows) by (nonlinear_arith)
                    requires
                        row < rows,
                        0 <= cols,
                ;
            }
            while col < cols
                invariant
                    col <= cols,
                    row < rows,
                    before == self@,
                    before.wf(),
                    after == before.resized(cols as int, rows as int),
                    !(cols == self.cols && rows == self.rows),
                    row * cols + cols == (row + 1) * cols,
                    (row + 1) * cols <= cols * rows,
                    after.cells.len() == cols * rows,
                    cells@ == after.cells.take(row * cols + col),
                decreases cols - col,
            {
                let cell = match self.cell(col, row) {
                    Some(cell) => *cell,
                    None => self.blank,
                };
                proof {
                    places_are_inside(col as int, row as int, cols as int, rows as int);
                    assert(after.cells[row * cols + col] == cell);
                }
                cells.push(cell);
                assert(cells@ =~= after.cells.take(row * cols + (col + 1)));
                col = col + 1;
            }
            row = row + 1;
        }
        proof {
            assert(rows * cols == cols * rows) by (nonlinear_arith);
            assert(after.cells.take(rows * cols) =~= after.cells);
        }
        self.cells = cells;
        self.dirty = vec![true; count];
        self.cols = cols;
        self.rows = rows;
        assert(self@ =~= after);
    }

    fn mark_all(&mut self, flag: bool)
        requires
            old(self)@.wf(),
        ensures
            final(self)@.wf(),
            final(self)@ == (GridModel {
                dirty: Seq::new(old(self)@.dirty.len(), |i: int| flag),
                ..old(self)@
            }),
    {
        let count: usize = self.dirty.len();
        self.dirty = vec![flag; count];
        assert(self@ =~= (GridModel {
            dirty: Seq::new(old(self)@.dirty.len(), |i: int| flag),
            ..old(self)@
        }));
    }

    /// Marks everything dirty, e.g. after attaching a buffer that was never shown.
    pub fn mark_all_dirty(&mut self)
        requires
            old(self)@.wf(),
        ensures
            final(self)@.wf(),
            final(self)@ == (GridModel {
                dirty: Seq::new(old(self)@.dirty.len(), |i: int| true),
                ..old(self)@
            }),
    {
        self.mark_all(true);
    }

    /// Marks everything clean; call after a successful paint.
    pub fn clear_dirty(&mut self)
        requires
            old(self)@.wf(),
        ensures
            final(self)@.wf(),
            final(self)@ == (GridModel {
                dirty: Seq::new(old(self)@.dirty.len(), |i: int| false),
                ..old(self)@
            }),
    {
        self.mark_all(false);
    }

    /// Writes a text from a position on, cut off at the end of the row.
    pub fn write_str(&mut self, col: u16, row: u16, text: &str, fg: Rgb, bg: Rgb)
        requires
            old(self)@.wf(),
            text@.len() > 0 ==> col + text@.len() - 1 <= u16::MAX,
        ensures
            final(self)@.wf(),
            final(self)@ == old(self)@.with_text(col as int, row as int, text@, 0, fg, bg),
    {
        let chars = chars_of(text);
        let ghost after = self@.with_text(col as int, row as int, text@, 0, fg, bg);
        let mut i: usize = 0;
        while i < chars.len()
            invariant
                i <= chars.len(),
                chars@ == text@,
                text@.len() > 0 ==> col + text@.len() - 1 <= u16::MAX,
                self@.wf(),
                after == self@.with_text(col as int, row as int, text@, i as int, fg, bg),
            decreases chars.len() - i,
        {
            let cell = Cell { ch: chars[i], fg, bg, attrs: Attrs::default() };
            self.set(col + i as u16, row, cell);
            i = i + 1;
        }
    }
}

proof fn writing_keeps_wf(grid: GridModel, col: int, row: int, cell: Cell)
    requires
        grid.wf(),
    ensures
        grid.with_cell(col, row, cell).wf(),
        grid.with_cell(col, row, cell).cols == grid.cols,
        grid.with_cell(col, row, cell).rows == grid.rows,
{
    if grid.inside(col, row) {
        places_are_inside(col, row, grid.cols, grid.rows);
        let place = grid.place(col, row);
        assert(0 <= place < grid.cells.len());
        assert(grid.cells.update(place, cell).len() == grid.cells.len());
        assert(grid.dirty.update(place, true).len() == grid.dirty.len());
    }
}

/// Reading a cell gives back what was written to it, and no other cell changes.
pub proof fn written_cells_read_back(
    grid: GridModel,
    col: int,
    row: int,
    cell: Cell,
    c: int,
    r: int,
)
    requires
        grid.wf(),
        grid.inside(c, r),
    ensures
        grid.with_cell(col, row, cell).at(c, r) == (if c == col && r == row {
            cell
        } else {
            grid.at(c, r)
        }),
        grid.with_cell(col, row, cell).dirty_at(c, r) == (grid.dirty_at(c, r) || (c == col && r
            == row && grid.at(c, r) != cell)),
{
    places_are_inside(c, r, grid.cols, grid.rows);
    if grid.inside(col, row) {
        places_are_inside(col, row, grid.cols, grid.rows);
        if grid.place(c, r) == grid.place(col, row) {
            places_are_distinct(c, r, col, row, grid.cols, grid.rows);
        }
    }
}

/// Writing the same cell again changes nothing, so it stays clean.
pub proof fn writing_twice_is_writing_once(grid: GridModel, col: int, row: int, cell: Cell)
    requires
        grid.wf(),
    ensures
        grid.with_cell(col, row, cell).with_cell(col, row, cell) == grid.with_cell(
            col,
            row,
            cell,
        ),
{
    if grid.inside(col, row) {
        places_are_inside(col, row, grid.cols, grid.rows);
    }
}

/// Resizing keeps every cell that is inside both sizes, and blanks the others.
pub proof fn resizing_keeps_overlapping_cells(
    grid: GridModel,
    cols: int,
    rows: int,
    c: int,
    r: int,
)
    requires
        grid.wf(),
        0 <= c < cols,
        0 <= r < rows,
    ensures
        grid.resized(cols, rows).at(c, r) == (if grid.inside(c, r) {
            grid.at(c, r)
        } else {
            grid.blank
        }),
        cols != grid.cols || rows != grid.rows ==> grid.resized(cols, rows).dirty_at(c, r),
{
    places_are_inside(c, r, cols, rows);
}

/// A text that is written into a row shows in the cells from its start on, as far as the row
/// goes, and nowhere else.
pub proof fn written_text_shows(
    grid: GridModel,
    col: int,
    row: int,
    text: Seq<char>,
    from: int,
    fg: Rgb,
    bg: Rgb,
    c: int,
    r: int,
)
    requires
        grid.wf(),
        grid.inside(c, r),
        0 <= from <= text.len(),
        0 <= col,
    ensures
        grid.with_text(col, row, text, from, fg, bg).at(c, r) == (if r == row && col + from <= c
            < col + text.len() {
            Cell { ch: text[c - col], fg, bg, attrs: plain_attrs() }
        } else {
            grid.at(c, r)
        }),
    decreases text.len() - from,
{
    if from < text.len() {
        let cell = Cell { ch: text[from], fg, bg, attrs: plain_attrs() };
        let next = grid.with_cell(col + from, row, cell);
        written_cells_read_back(grid, col + from, row, cell, c, r);
        writing_keeps_wf(grid, col + from, row, cell);
        written_text_shows(next, col, row, text, from + 1, fg, bg, c, r);
    }
}

/// Clearing makes every cell blank, and marks those that were not so far.
pub proof fn clearing_blanks_every_cell(grid: GridModel, c: int, r: int)
    requires
        grid.wf(),
        grid.inside(c, r),
    ensures
        grid.cleared().at(c, r) == grid.blank,
        grid.cleared().dirty_at(c, r) <==> grid.dirty_at(c, r) || grid.at(c, r) != grid.blank,
        grid.cleared().cols == grid.cols && grid.cleared().rows == grid.rows,
        grid.cleared().cleared().cells == grid.cleared().cells,
{
    places_are_inside(c, r, grid.cols, grid.rows);
}

/// Blank cells and written text are plain: neither bold nor underlined.
pub proof fn written_text_is_plain(
    grid: GridModel,
    col: int,
    row: int,
    text: Seq<char>,
    fg: Rgb,
    bg: Rgb,
    i: int,
)
    requires
        grid.wf(),
        0 <= col,
        0 <= i < text.len(),
        grid.inside(col + i, row),
    ensures
        ({
            let cell = grid.with_text(col, row, text, 0, fg, bg).at(col + i, row);
            &&& cell.ch == text[i] && cell.fg == fg && cell.bg == bg
            &&& !cell.attrs.bold && !cell.attrs.underline
        }),
        blank_cell(fg, bg).ch == ' ',
        !blank_cell(fg, bg).attrs.bold && !blank_cell(fg, bg).attrs.underline,
        blank_cell(fg, bg).fg == fg && blank_cell(fg, bg).bg == bg,
{
    written_text_shows(grid, col, row, text, 0, fg, bg, col + i, row);
}

} // verus!
