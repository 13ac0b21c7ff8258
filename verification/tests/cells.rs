//! The character grid, its colours, and how they become pixels.

use ratatui::backend::{Backend, ClearType, WindowSize};
use ratatui::layout::{Position, Size};
use ratatui::style::{Color as StyleColor, Modifier, Style};
use ratatui::widgets::{Block as BlockWidget, Paragraph};
use ratatui::Terminal;
use std::convert::Infallible;
use tessera::cells::backend::{CellBackend, Color, DrawnCell};
use tessera::cells::boxdraw::{classify, Arms, Block, Drawn, Weight};
use tessera::cells::color::{Palette, Rgb};
use tessera::cells::font::{CellMetrics, Font, FontError, Glyph};
use tessera::cells::grid::{Attrs, Cell, Grid};
use tessera::cells::paint::{paint, thickness, Damage, Surface};

fn plain() -> Attrs {
    Attrs { bold: false, underline: false }
}

/// A backend for screens, over the library's own.
struct Screen(CellBackend);

fn color(color: StyleColor) -> Color {
    match color {
        StyleColor::Reset => Color::Reset,
        StyleColor::Black => Color::Black,
        StyleColor::Red => Color::Red,
        StyleColor::Green => Color::Green,
        StyleColor::Yellow => Color::Yellow,
        StyleColor::Blue => Color::Blue,
        StyleColor::Magenta => Color::Magenta,
        StyleColor::Cyan => Color::Cyan,
        StyleColor::Gray => Color::Gray,
        StyleColor::DarkGray => Color::DarkGray,
        StyleColor::LightRed => Color::LightRed,
        StyleColor::LightGreen => Color::LightGreen,
        StyleColor::LightYellow => Color::LightYellow,
        StyleColor::LightBlue => Color::LightBlue,
        StyleColor::LightMagenta => Color::LightMagenta,
        StyleColor::LightCyan => Color::LightCyan,
        StyleColor::White => Color::White,
        StyleColor::Indexed(index) => Color::Indexed(index),
        StyleColor::Rgb(r, g, b) => Color::Rgb(r, g, b),
    }
}

impl Backend for Screen {
    type Error = Infallible;

    fn draw<'a, I>(&mut self, content: I) -> Result<(), Self::Error>
    where
        I: Iterator<Item = (u16, u16, &'a ratatui::buffer::Cell)>,
    {
        let cells: Vec<DrawnCell> = content
            .map(|(col, row, cell)| DrawnCell {
                col,
                row,
                symbol: cell.symbol().to_string(),
                fg: color(cell.fg),
                bg: color(cell.bg),
                bold: cell.modifier.contains(Modifier::BOLD),
                underlined: cell.modifier.contains(Modifier::UNDERLINED),
                reversed: cell.modifier.contains(Modifier::REVERSED),
            })
            .collect();
        self.0.draw(&cells);
        Ok(())
    }

    fn hide_cursor(&mut self) -> Result<(), Self::Error> {
        self.0.cursor_visible = false;
        Ok(())
    }

    fn show_cursor(&mut self) -> Result<(), Self::Error> {
        self.0.cursor_visible = true;
        Ok(())
    }

    fn get_cursor_position(&mut self) -> Result<Position, Self::Error> {
        Ok(Position::new(self.0.cursor.0, self.0.cursor.1))
    }

    fn set_cursor_position<P: Into<Position>>(&mut self, position: P) -> Result<(), Self::Error> {
        let position = position.into();
        self.0.cursor = (position.x, position.y);
        Ok(())
    }

    fn clear(&mut self) -> Result<(), Self::Error> {
        self.0.clear();
        Ok(())
    }

    fn clear_region(&mut self, _clear_type: ClearType) -> Result<(), Self::Error> {
        self.0.clear();
        Ok(())
    }

    fn size(&self) -> Result<Size, Self::Error> {
        let (cols, rows) = self.0.size();
        Ok(Size::new(cols, rows))
    }

    fn window_size(&mut self) -> Result<WindowSize, Self::Error> {
        let (cells, pixels) = self.0.window_size();
        Ok(WindowSize {
            columns_rows: Size::new(cells.0, cells.1),
            pixels: Size::new(pixels.0, pixels.1),
        })
    }

    fn flush(&mut self) -> Result<(), Self::Error> {
        Ok(())
    }
}

fn backend(cols: u16, rows: u16) -> CellBackend {
    let palette = Palette::default();
    let metrics = CellMetrics { width: 8, height: 16, baseline: 12, underline: 13 };
    CellBackend::new(
        Grid::new(cols, rows, palette.foreground, palette.background),
        palette,
        metrics,
    )
}

#[test]
fn widgets_land_in_the_grid() {
    let mut terminal = Terminal::new(Screen(backend(12, 3))).unwrap();
    terminal
        .draw(|frame| {
            frame.render_widget(Paragraph::new("hi"), frame.area());
        })
        .unwrap();

    let grid = &terminal.backend().0.grid;
    assert_eq!(grid.cell(0, 0).unwrap().ch, 'h');
    assert_eq!(grid.cell(1, 0).unwrap().ch, 'i');
}

#[test]
fn blocks_draw_box_characters_the_painter_knows() {
    let mut terminal = Terminal::new(Screen(backend(6, 3))).unwrap();
    terminal
        .draw(|frame| {
            frame.render_widget(BlockWidget::bordered(), frame.area());
        })
        .unwrap();

    let grid = &terminal.backend().0.grid;
    assert_eq!(grid.cell(0, 0).unwrap().ch, '┌');
    assert_eq!(grid.cell(5, 2).unwrap().ch, '┘');
    assert!(classify(grid.cell(1, 0).unwrap().ch).is_some());
}

#[test]
fn named_colours_come_from_the_palette_and_reverse_swaps_them() {
    let mut terminal = Terminal::new(Screen(backend(4, 1))).unwrap();
    terminal
        .draw(|frame| {
            frame.render_widget(
                Paragraph::new("ab").style(Style::new().fg(StyleColor::Red).bg(StyleColor::Blue)),
                frame.area(),
            );
        })
        .unwrap();

    let palette = Palette::default();
    let cell = terminal.backend().0.grid.cell(0, 0).unwrap();
    assert_eq!(cell.fg, palette.ansi[1]);
    assert_eq!(cell.bg, palette.ansi[4]);

    terminal
        .draw(|frame| {
            frame.render_widget(
                Paragraph::new("ab").style(
                    Style::new()
                        .fg(StyleColor::Red)
                        .bg(StyleColor::Blue)
                        .add_modifier(Modifier::REVERSED),
                ),
                frame.area(),
            );
        })
        .unwrap();
    let cell = terminal.backend().0.grid.cell(0, 0).unwrap();
    assert_eq!((cell.fg, cell.bg), (palette.ansi[4], palette.ansi[1]));
}

#[test]
fn pixel_size_decides_the_grid_size() {
    let mut backend = backend(1, 1);
    // 8x16 cells: 800x600 pixels is 100 columns by 37 rows, remainder ignored.
    assert_eq!(backend.resize_to_pixels(800, 600), (100, 37));
    assert_eq!(backend.size(), (100, 37));
    // Never zero, however small the window gets.
    assert_eq!(backend.resize_to_pixels(1, 1), (1, 1));
}

#[test]
fn a_cell_without_text_is_blank_and_the_cursor_starts_hidden() {
    let mut backend = backend(2, 1);
    assert!(!backend.cursor_visible());
    backend.draw(&vec![DrawnCell {
        col: 1,
        row: 0,
        symbol: String::new(),
        fg: Color::Rgb(1, 2, 3),
        bg: Color::Indexed(232),
        bold: true,
        underlined: true,
        reversed: false,
    }]);
    let cell = backend.grid.cell(1, 0).unwrap();
    assert_eq!(cell.ch, ' ');
    assert_eq!(cell.fg, Rgb(1, 2, 3));
    assert_eq!(cell.bg, Rgb(8, 8, 8));
    assert_eq!(cell.attrs, Attrs { bold: true, underline: true });
    assert_eq!(backend.window_size(), ((2, 1), (16, 16)));
    backend.clear();
    assert_eq!(backend.grid.cell(1, 0).unwrap().attrs, plain());
}

#[test]
fn line_characters_report_their_arms() {
    let (n, l, h, d) = (Weight::Empty, Weight::Light, Weight::Heavy, Weight::Double);
    assert_eq!(classify('─'), Some(Drawn::Lines(Arms::new(n, l, n, l))));
    assert_eq!(classify('┼'), Some(Drawn::Lines(Arms::new(l, l, l, l))));
    assert_eq!(classify('╔'), Some(Drawn::Lines(Arms::new(n, d, d, n))));
    assert_eq!(classify('┗'), Some(Drawn::Lines(Arms::new(h, h, n, n))));
}

#[test]
fn block_characters_report_their_coverage() {
    assert!(
        matches!(classify('█'), Some(Drawn::Block(Block::Partial { left, .. })) if left == 100)
    );
    assert!(matches!(classify('▒'), Some(Drawn::Block(Block::Shade(s))) if s == 50));
}

#[test]
fn ordinary_text_is_left_to_the_font() {
    assert_eq!(classify('A'), None);
    assert_eq!(classify(' '), None);
    assert_eq!(classify('→'), None);
}

#[test]
fn packs_argb_with_opaque_alpha() {
    assert_eq!(Rgb(0x12, 0x34, 0x56).to_argb8888(), 0xFF12_3456);
}

#[test]
fn packed_colours_read_back() {
    assert_eq!(Rgb::from_argb8888(0xFF12_3456), Rgb(0x12, 0x34, 0x56));
    assert_eq!(Rgb::black(), Rgb(0, 0, 0));
    assert_eq!(Rgb::white(), Rgb(0xFF, 0xFF, 0xFF));
}

#[test]
fn blending_covers_the_endpoints_and_the_middle() {
    let fg = Rgb(200, 100, 0);
    let bg = Rgb(0, 0, 100);
    assert_eq!(fg.blend(bg, 255), fg);
    assert_eq!(fg.blend(bg, 0), bg);
    assert_eq!(fg.blend(bg, 128), Rgb(100, 50, 50));
}

#[test]
fn indexed_colours_cover_cube_and_greys() {
    let palette = Palette::default();
    assert_eq!(palette.indexed(1), palette.ansi[1]);
    assert_eq!(palette.indexed(16), Rgb(0, 0, 0));
    assert_eq!(palette.indexed(231), Rgb(255, 255, 255));
    assert_eq!(palette.indexed(232), Rgb(8, 8, 8));
    assert_eq!(palette.indexed(255), Rgb(238, 238, 238));
}

fn grid() -> Grid {
    Grid::new(4, 3, Rgb::black(), Rgb::white())
}

#[test]
fn new_grids_start_fully_dirty() {
    let grid = grid();
    assert_eq!((grid.cols(), grid.rows()), (4, 3));
    assert!(grid.any_dirty());
    assert!(grid.is_dirty(3, 2));
    assert_eq!(grid.cell(0, 0).unwrap().ch, ' ');
}

#[test]
fn writing_the_same_cell_twice_only_dirties_it_once() {
    let mut grid = grid();
    grid.clear_dirty();
    let cell = Cell { ch: 'x', fg: Rgb::black(), bg: Rgb::white(), attrs: plain() };
    grid.set(1, 1, cell);
    assert!(grid.is_dirty(1, 1));
    grid.clear_dirty();
    let cell = Cell { ch: 'x', fg: Rgb::black(), bg: Rgb::white(), attrs: plain() };
    grid.set(1, 1, cell);
    assert!(!grid.is_dirty(1, 1), "unchanged cell should stay clean");
}

#[test]
fn out_of_bounds_writes_are_ignored() {
    let mut grid = grid();
    grid.set(99, 99, Cell::blank(Rgb::white(), Rgb::black()));
    assert!(grid.cell(99, 99).is_none());
    assert!(!grid.is_dirty(99, 99));
}

#[test]
fn resize_keeps_overlapping_cells() {
    let mut grid = grid();
    grid.write_str(0, 0, "ab", Rgb::black(), Rgb::white());
    grid.resize(8, 2);
    assert_eq!((grid.cols(), grid.rows()), (8, 2));
    assert_eq!(grid.cell(1, 0).unwrap().ch, 'b');
    assert_eq!(grid.cell(7, 1).unwrap().ch, ' ');
    assert!(grid.is_dirty(7, 1));
}

#[test]
fn clear_resets_to_blank() {
    let mut grid = grid();
    grid.write_str(0, 0, "hi", Rgb::black(), Rgb::white());
    grid.clear_dirty();
    grid.clear();
    assert_eq!(grid.cell(0, 0).unwrap().ch, ' ');
    assert!(grid.is_dirty(0, 0));
}

#[test]
fn marking_everything_dirty_redraws_everything() {
    let mut grid = grid();
    grid.clear_dirty();
    assert!(!grid.any_dirty());
    grid.mark_all_dirty();
    assert!(grid.is_dirty(0, 0) && grid.is_dirty(3, 2));
    assert_eq!(grid.background(), Rgb::white());
}

/// A font that holds a few characters, all of them blank.
fn font() -> Font {
    let mut font = Font::new(CellMetrics { width: 10, height: 20, baseline: 15, underline: 17 });
    for ch in [' ', 'a', 'b'] {
        font.keep(ch, false, None);
    }
    font
}

struct Canvas {
    surface: Surface,
}

impl Canvas {
    fn new(width: u32, height: u32) -> Self {
        Self::filled(width, height, 0)
    }

    fn filled(width: u32, height: u32, word: u32) -> Self {
        let pixels = vec![word; (width * height) as usize];
        Canvas { surface: Surface::new(pixels, width as usize, width, height) }
    }

    fn at(&self, x: u32, y: u32) -> Rgb {
        self.surface.get(x, y)
    }

    fn brightest(&self) -> u8 {
        (0..self.surface.height)
            .flat_map(|y| (0..self.surface.width).map(move |x| (x, y)))
            .map(|(x, y)| self.at(x, y).0)
            .max()
            .unwrap_or(0)
    }
}

#[test]
fn painting_fills_the_background_of_every_cell() {
    let font = font();
    let metrics = font.metrics();
    let mut grid = Grid::new(2, 1, Rgb::white(), Rgb(0x16, 0x36, 0xA0));
    let mut canvas = Canvas::new(metrics.width * 2, metrics.height);

    paint(&grid, &font, &mut canvas.surface);
    assert_eq!(canvas.at(0, 0), Rgb(0x16, 0x36, 0xA0));
    assert_eq!(canvas.at(metrics.width + 1, 0), Rgb(0x16, 0x36, 0xA0));

    grid.clear_dirty();
    assert!(paint(&grid, &font, &mut canvas.surface).is_empty());
}

#[test]
fn glyphs_are_drawn_in_the_foreground_colour() {
    let mut font = font();
    let metrics = font.metrics();
    let mut grid = Grid::new(1, 1, Rgb::white(), Rgb::black());
    grid.set(0, 0, Cell { ch: 'M', fg: Rgb::white(), bg: Rgb::black(), attrs: plain() });
    assert_eq!(font.missing(&grid), Some(('M', false)));
    font.keep(
        'M',
        false,
        Some(Glyph { width: 2, height: 2, left: 1, top: 4, coverage: vec![250, 0, 0, 128] }),
    );
    assert_eq!(font.missing(&grid), None);
    let mut canvas = Canvas::new(metrics.width, metrics.height);
    paint(&grid, &font, &mut canvas.surface);
    assert!(
        canvas.brightest() > 200,
        "the glyph should be visible; brightest pixel was {}",
        canvas.brightest()
    );
    // The bitmap starts one pixel right of the pen and four above the baseline.
    assert_eq!(canvas.at(1, 11), Rgb(250, 250, 250));
    assert_eq!(canvas.at(2, 11), Rgb::black());
    assert_eq!(canvas.at(2, 12), Rgb(128, 128, 128));
}

#[test]
fn box_lines_reach_the_cell_edges_so_neighbours_join() {
    let font = font();
    let metrics = font.metrics();
    let mut grid = Grid::new(1, 1, Rgb::white(), Rgb::black());
    grid.set(0, 0, Cell { ch: '─', fg: Rgb::white(), bg: Rgb::black(), attrs: plain() });
    let mut canvas = Canvas::new(metrics.width, metrics.height);
    paint(&grid, &font, &mut canvas.surface);

    let mid = metrics.height / 2;
    let lit =
        |x: u32| (mid.saturating_sub(2)..=(mid + 2)).any(|y| canvas.at(x, y) == Rgb::white());
    assert!(lit(0), "line should touch the left edge");
    assert!(lit(metrics.width - 1), "line should touch the right edge");
}

#[test]
fn leftover_pixels_beyond_the_last_cell_are_filled() {
    let font = font();
    let metrics = font.metrics();
    let background = Rgb(0x16, 0x36, 0xA0);
    let grid = Grid::new(2, 1, Rgb::white(), background);
    // A surface a few pixels wider and taller than two whole cells.
    let mut canvas = Canvas::filled(metrics.width * 2 + 5, metrics.height + 3, 0x7F7F_7F7F);

    paint(&grid, &font, &mut canvas.surface);
    assert_eq!(canvas.at(metrics.width * 2 + 4, 0), background, "right margin");
    assert_eq!(canvas.at(0, metrics.height + 2), background, "bottom margin");
}

#[test]
fn damage_covers_one_run_per_row() {
    let font = font();
    let metrics = font.metrics();
    let mut grid = Grid::new(4, 2, Rgb::white(), Rgb::black());
    grid.clear_dirty();
    grid.write_str(1, 1, "ab", Rgb::white(), Rgb::black());

    let mut canvas = Canvas::new(metrics.width * 4, metrics.height * 2);
    let damage = paint(&grid, &font, &mut canvas.surface);
    // The surface is an exact multiple of the cell size here, so there are no margins.
    assert_eq!(
        damage,
        vec![Damage {
            x: metrics.width as i32,
            y: metrics.height as i32,
            width: metrics.width as i32 * 2,
            height: metrics.height as i32,
        }]
    );
}

#[test]
fn underline_draws_below_the_baseline() {
    let font = font();
    let metrics = font.metrics();
    let mut grid = Grid::new(1, 1, Rgb::white(), Rgb::black());
    grid.set(
        0,
        0,
        Cell {
            ch: ' ',
            fg: Rgb::white(),
            bg: Rgb::black(),
            attrs: Attrs { bold: false, underline: true },
        },
    );
    let mut canvas = Canvas::new(metrics.width, metrics.height);
    paint(&grid, &font, &mut canvas.surface);
    assert_eq!(canvas.at(0, metrics.underline), Rgb::white());
    assert_eq!(canvas.at(0, 0), Rgb::black());
}

#[test]
fn blocks_and_shades_cover_their_part_of_the_cell() {
    let font = font();
    let mut grid = Grid::new(2, 1, Rgb::white(), Rgb::black());
    grid.write_str(0, 0, "▀▒", Rgb::white(), Rgb::black());
    let mut canvas = Canvas::new(20, 20);
    paint(&grid, &font, &mut canvas.surface);
    assert_eq!(canvas.at(0, 0), Rgb::white());
    assert_eq!(canvas.at(9, 9), Rgb::white());
    assert_eq!(canvas.at(0, 10), Rgb::black());
    let shade = canvas.at(15, 10).0;
    assert!(shade > 100 && shade < 150, "half covered: {shade}");
}

#[test]
fn heavy_lines_are_thicker_than_light_ones() {
    assert!(thickness(Weight::Heavy, 20) > thickness(Weight::Light, 20));
    assert!(thickness(Weight::Light, 1) >= 1, "a line is never invisible");
}

#[test]
fn measured_cells_are_never_empty() {
    let metrics = CellMetrics::measured(0, 0, 5, 9);
    assert!(metrics.width >= 1 && metrics.height >= 1);
    assert!(metrics.underline < metrics.height);
}

#[test]
fn a_missing_font_says_which() {
    let text = FontError::NotFound("Nope".to_string()).to_text();
    assert!(text.contains("Nope"), "{text}");
}

#[test]
fn a_surface_hands_its_pixels_back() {
    let words: Vec<u32> = vec![0xFF00_0001, 0xFF12_3456, 7, 8];
    let surface = Surface::new(words.clone(), 2, 2, 2);
    let color = surface.get(1, 0);
    assert_eq!((color.0, color.1, color.2), (0x12, 0x34, 0x56));
    assert_eq!(surface.into_pixels(), words);
}
