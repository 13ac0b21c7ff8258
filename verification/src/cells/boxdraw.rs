//! Box-drawing characters drawn as geometry rather than glyphs.
//!
//! Fonts round the ends of these strokes and rarely line up between cells, so terminals draw
//! them by hand: lines are built from the cell's own width and height, so they always join.

use vstd::prelude::*;

verus! {

/// Stroke weight of one arm of a box-drawing character.
#[derive(Debug, Clone, Copy, PartialEq, Eq, Structural)]
pub enum Weight {
    /// No line in this direction.
    Empty,
    /// A single thin line, e.g. `─`.
    Light,
    /// A single thick line, e.g. `━`.
    Heavy,
    /// Two parallel thin lines, e.g. `═`.
    Double,
}

/// The four arms of a line-drawing character, clockwise from the top.
#[derive(Debug, Clone, Copy, PartialEq, Eq, Structural)]
pub struct Arms {
    /// Line running from the centre of the cell to its top edge.
    pub up: Weight,
    /// Line running from the centre to the right edge.
    pub right: Weight,
    /// Line running from the centre to the bottom edge.
    pub down: Weight,
    /// Line running from the centre to the left edge.
    pub left: Weight,
}

impl Arms {
    /// The four arms, clockwise from the top.
    pub fn new(up: Weight, right: Weight, down: Weight, left: Weight) -> (r: Self)
        ensures
            r == arms(up, right, down, left),
    {
        Self { up, right, down, left }
    }
}

pub open spec fn arms(up: Weight, right: Weight, down: Weight, left: Weight) -> Arms {
    Arms { up, right, down, left }
}

/// How much of a cell a block character fills, in hundredths.
#[derive(Debug, Clone, Copy, PartialEq, Eq, Structural)]
pub enum Block {
    /// Part of the cell filled from an edge.
    Partial {
        /// Hundredths of the cell filled from the left edge.
        left: u8,
        /// Hundredths filled from the right edge.
        right: u8,
        /// Hundredths filled from the top edge.
        top: u8,
        /// Hundredths filled from the bottom edge.
        bottom: u8,
    },
    /// Uniform coverage, for the shade characters.
    Shade(u8),
}

/// What, if anything, this character should be drawn as instead of a glyph.
#[derive(Debug, Clone, Copy, PartialEq, Eq, Structural)]
pub enum Drawn {
    /// A line-drawing character, described by its four arms.
    Lines(Arms),
    /// A block or shade character, described by its coverage.
    Block(Block),
}

/// The arms of a line-drawing character.
pub open spec fn arms_of(ch: char) -> Option<Arms> {
    let (n, l, h, d) = (Weight::Empty, Weight::Light, Weight::Heavy, Weight::Double);
    if ch == '─' {
        Some(arms(n, l, n, l))
    } else if ch == '━' {
        Some(arms(n, h, n, h))
    } else if ch == '│' {
        Some(arms(l, n, l, n))
    } else if ch == '┃' {
        Some(arms(h, n, h, n))
    } else if ch == '┌' {
        Some(arms(n, l, l, n))
    } else if ch == '┏' {
        Some(arms(n, h, h, n))
    } else if ch == '┐' {
        Some(arms(n, n, l, l))
    } else if ch == '┓' {
        Some(arms(n, n, h, h))
    } else if ch == '└' {
        Some(arms(l, l, n, n))
    } else if ch == '┗' {
        Some(arms(h, h, n, n))
    } else if ch == '┘' {
        Some(arms(l, n, n, l))
    } else if ch == '┛' {
        Some(arms(h, n, n, h))
    } else if ch == '├' {
        Some(arms(l, l, l, n))
    } else if ch == '┣' {
        Some(arms(h, h, h, n))
    } else if ch == '┤' {
        Some(arms(l, n, l, l))
    } else if ch == '┫' {
        Some(arms(h, n, h, h))
    } else if ch == '┬' {
        Some(arms(n, l, l, l))
    } else if ch == '┳' {
        Some(arms(n, h, h, h))
    } else if ch == '┴' {
        Some(arms(l, l, n, l))
    } else if ch == '┻' {
        Some(arms(h, h, n, h))
    } else if ch == '┼' {
        Some(arms(l, l, l, l))
    } else if ch == '╋' {
        Some(arms(h, h, h, h))
    } else if ch == '═' {
        Some(arms(n, d, n, d))
    } else if ch == '║' {
        Some(arms(d, n, d, n))
    } else if ch == '╔' {
        Some(arms(n, d, d, n))
    } else if ch == '╗' {
        Some(arms(n, n, d, d))
    } else if ch == '╚' {
        Some(arms(d, d, n, n))
    } else if ch == '╝' {
        Some(arms(d, n, n, d))
    } else if ch == '╠' {
        Some(arms(d, d, d, n))
    } else if ch == '╣' {
        Some(arms(d, n, d, d))
    } else if ch == '╦' {
        Some(arms(n, d, d, d))
    } else if ch == '╩' {
        Some(arms(d, d, n, d))
    } else if ch == '╬' {
        Some(arms(d, d, d, d))
    } else {
        None
    }
}

/// The coverage of a block or shade character.
pub open spec fn block_of(ch: char) -> Option<Block> {
    if ch == '█' {
        Some(Block::Partial { left: 100, right: 0, top: 0, bottom: 0 })
    } else if ch == '▀' {
        Some(Block::Partial { left: 0, right: 0, top: 50, bottom: 0 })
    } else if ch == '▄' {
        Some(Block::Partial { left: 0, right: 0, top: 0, bottom: 50 })
    } else if ch == '▌' {
        Some(Block::Partial { left: 50, right: 0, top: 0, bottom: 0 })
    } else if ch == '▐' {
        Some(Block::Partial { left: 0, right: 50, top: 0, bottom: 0 })
    } else if ch == '░' {
        Some(Block::Shade(25))
    } else if ch == '▒' {
        Some(Block::Shade(50))
    } else if ch == '▓' {
        Some(Block::Shade(75))
    } else {
        None
    }
}

/// What a character is drawn as instead of a glyph.
pub open spec fn drawing_of(ch: char) -> Option<Drawn> {
    match arms_of(ch) {
        Some(arms) => Some(Drawn::Lines(arms)),
        None => match block_of(ch) {
            Some(block) => Some(Drawn::Block(block)),
            None => None,
        },
    }
}

/// Returns the geometry for box-drawing and block characters, or `None` for normal text.
pub fn classify(ch: char) -> (r: Option<Drawn>)
    ensures
        r == drawing_of(ch),
{
    let (n, l, h, d) = (Weight::Empty, Weight::Light, Weight::Heavy, Weight::Double);
    let arms = match ch {
        '─' => Arms::new(n, l, n, l),
        '━' => Arms::new(n, h, n, h),
        '│' => Arms::new(l, n, l, n),
        '┃' => Arms::new(h, n, h, n),
        '┌' => Arms::new(n, l, l, n),
        '┏' => Arms::new(n, h, h, n),
        '┐' => Arms::new(n, n, l, l),
        '┓' => Arms::new(n, n, h, h),
        '└' => Arms::new(l, l, n, n),
        '┗' => Arms::new(h, h, n, n),
        '┘' => Arms::new(l, n, n, l),
        '┛' => Arms::new(h, n, n, h),
        '├' => Arms::new(l, l, l, n),
        '┣' => Arms::new(h, h, h, n),
        '┤' => Arms::new(l, n, l, l),
        '┫' => Arms::new(h, n, h, h),
        '┬' => Arms::new(n, l, l, l),
        '┳' => Arms::new(n, h, h, h),
        '┴' => Arms::new(l, l, n, l),
        '┻' => Arms::new(h, h, n, h),
        '┼' => Arms::new(l, l, l, l),
        '╋' => Arms::new(h, h, h, h),
        '═' => Arms::new(n, d, n, d),
        '║' => Arms::new(d, n, d, n),
        '╔' => Arms::new(n, d, d, n),
        '╗' => Arms::new(n, n, d, d),
        '╚' => Arms::new(d, d, n, n),
        '╝' => Arms::new(d, n, n, d),
        '╠' => Arms::new(d, d, d, n),
        '╣' => Arms::new(d, n, d, d),
        '╦' => Arms::new(n, d, d, d),
        '╩' => Arms::new(d, d, n, d),
        '╬' => Arms::new(d, d, d, d),
        _ => {
            let block = match ch {
                '█' => Block::Partial { left: 100, right: 0, top: 0, bottom: 0 },
                '▀' => Block::Partial { left: 0, right: 0, top: 50, bottom: 0 },
                '▄' => Block::Partial { left: 0, right: 0, top: 0, bottom: 50 },
                '▌' => Block::Partial { left: 50, right: 0, top: 0, bottom: 0 },
                '▐' => Block::Partial { left: 0, right: 50, top: 0, bottom: 0 },
                '░' => Block::Shade(25),
                '▒' => Block::Shade(50),
                '▓' => Block::Shade(75),
                _ => {
                    return None;
                },
            };
            return Some(Drawn::Block(block));
        },
    };
    Some(Drawn::Lines(arms))
}

} // verus!
