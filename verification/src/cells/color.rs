//! Colours, and the palette that named colours map onto.

use vstd::prelude::*;

verus! {

/// An opaque 8-bit-per-channel colour.
#[derive(Debug, Clone, Copy, PartialEq, Eq, Structural)]
pub struct Rgb(pub u8, pub u8, pub u8);

impl Default for Rgb {
    fn default() -> (r: Self)
        ensures
            r == Rgb(0, 0, 0),
    {
        Rgb(0, 0, 0)
    }
}

/// One channel of a colour laid over another: the average weighted by the coverage, rounded to
/// the nearest value.
pub open spec fn mixed(src: u8, dst: u8, alpha: u8) -> int {
    (src * alpha + dst * (255 - alpha) + 127) / 255
}

/// The word that holds a colour: opaque alpha, then red, green and blue.
pub open spec fn argb(color: Rgb) -> u32 {
    (0xFF00_0000 + color.0 * 0x1_0000 + color.1 * 0x100 + color.2) as u32
}

/// The colour that a word holds; its alpha is ignored.
pub open spec fn rgb_of(word: u32) -> Rgb {
    Rgb(
        ((word / 0x1_0000) % 0x100) as u8,
        ((word / 0x100) % 0x100) as u8,
        (word % 0x100) as u8,
    )
}

/// A colour laid over another.
pub open spec fn blended(src: Rgb, dst: Rgb, alpha: u8) -> Rgb {
    Rgb(
        mixed(src.0, dst.0, alpha) as u8,
        mixed(src.1, dst.1, alpha) as u8,
        mixed(src.2, dst.2, alpha) as u8,
    )
}

fn mix(src: u8, dst: u8, alpha: u8) -> (r: u8)
    ensures
        r == mixed(src, dst, alpha),
{
    assert(0 <= src * alpha <= 255 * alpha) by (nonlinear_arith)
        requires
            0 <= src <= 255,
            0 <= alpha <= 255,
    ;
    assert(0 <= dst * (255 - alpha) <= 255 * (255 - alpha)) by (nonlinear_arith)
        requires
            0 <= dst <= 255,
            0 <= alpha <= 255,
    ;
    let over: u32 = src as u32 * alpha as u32;
    let under: u32 = dst as u32 * (255 - alpha) as u32;
    ((over + under + 127) / 255) as u8
}

impl Rgb {
    /// Solid black.
    pub fn black() -> (r: Rgb)
        ensures
            r == Rgb(0, 0, 0),
    {
        Rgb(0, 0, 0)
    }

    /// Solid white.
    pub fn white() -> (r: Rgb)
        ensures
            r == Rgb(0xFF, 0xFF, 0xFF),
    {
        Rgb(0xFF, 0xFF, 0xFF)
    }

    /// Packs into the `Argb8888` word that shared-memory buffers hold (alpha always opaque).
    pub fn to_argb8888(self) -> (r: u32)
        ensures
            r == argb(self),
    {
        0xFF00_0000 + self.0 as u32 * 0x1_0000 + self.1 as u32 * 0x100 + self.2 as u32
    }

    /// The colour in an `Argb8888` word.
    pub fn from_argb8888(word: u32) -> (r: Rgb)
        ensures
            r == rgb_of(word),
    {
        Rgb(
            ((word / 0x1_0000) % 0x100) as u8,
            ((word / 0x100) % 0x100) as u8,
            (word % 0x100) as u8,
        )
    }

    /// Blends `self` over `dst` with coverage `alpha` (0–255).
    pub fn blend(self, dst: Rgb, alpha: u8) -> (r: Rgb)
        ensures
            r == blended(self, dst, alpha),
    {
        Rgb(mix(self.0, dst.0, alpha), mix(self.1, dst.1, alpha), mix(self.2, dst.2, alpha))
    }
}

/// Full coverage gives the colour itself, and no coverage what was below it.
pub proof fn blending_covers_both_ends(src: Rgb, dst: Rgb)
    ensures
        blended(src, dst, 255) == src,
        blended(src, dst, 0) == dst,
{
    mixing_covers_both_ends(src.0, dst.0);
    mixing_covers_both_ends(src.1, dst.1);
    mixing_covers_both_ends(src.2, dst.2);
}

proof fn mixing_covers_both_ends(src: u8, dst: u8)
    ensures
        mixed(src, dst, 255) == src,
        mixed(src, dst, 0) == dst,
{
    assert(src * 255 + dst * (255 - 255) == src * 255) by (nonlinear_arith);
    assert(src * 0 + dst * (255 - 0) == dst * 255) by (nonlinear_arith);
}

/// Each channel of a blend lies between those of the two colours.
pub proof fn blending_stays_between(src: u8, dst: u8, alpha: u8)
    ensures
        src <= dst ==> src <= mixed(src, dst, alpha) <= dst,
        dst <= src ==> dst <= mixed(src, dst, alpha) <= src,
{
    let (s, d, a) = (src as int, dst as int, alpha as int);
    assert(s * a + d * (255 - a) == 255 * s + (d - s) * (255 - a)) by (nonlinear_arith);
    assert(s * a + d * (255 - a) == 255 * d + (s - d) * a) by (nonlinear_arith);
    if s <= d {
        assert((d - s) * (255 - a) >= 0) by (nonlinear_arith)
            requires
                s <= d,
                0 <= a <= 255,
        ;
        assert((s - d) * a <= 0) by (nonlinear_arith)
            requires
                s <= d,
                0 <= a <= 255,
        ;
    } else {
        assert((s - d) * a >= 0) by (nonlinear_arith)
            requires
                d <= s,
                0 <= a <= 255,
        ;
        assert((d - s) * (255 - a) <= 0) by (nonlinear_arith)
            requires
                d <= s,
                0 <= a <= 255,
        ;
    }
}

/// A colour that was packed into a word comes out of it unchanged.
pub proof fn packed_colours_come_back(color: Rgb)
    ensures
        rgb_of(argb(color)) == color,
{
}

/// The sixteen ANSI colours, used when a cell asks for a named colour. These are the classic
/// VGA values that the kernel's menuconfig is drawn in.
#[derive(Debug, Clone, Copy, PartialEq, Eq)]
pub struct Palette {
    /// The sixteen ANSI colours, in the usual order: black, red, green, yellow, blue, magenta,
    /// cyan, white, then the eight bright variants.
    pub ansi: [Rgb; 16],
    /// Colour for text that asks for the default foreground.
    pub foreground: Rgb,
    /// Colour behind text that asks for the default background.
    pub background: Rgb,
}

impl Default for Palette {
    fn default() -> (r: Self)
        ensures
            r.ansi@ == seq![
                Rgb(0x10, 0x10, 0x10),
                Rgb(0xA5, 0x1E, 0x1E),
                Rgb(0x2E, 0x8B, 0x57),
                Rgb(0xB0, 0x8A, 0x2A),
                Rgb(0x16, 0x36, 0xA0),
                Rgb(0x8B, 0x3A, 0x8B),
                Rgb(0x2A, 0x8B, 0x8B),
                Rgb(0xC4, 0xC6, 0xCC),
                Rgb(0x6B, 0x6E, 0x76),
                Rgb(0xE0, 0x5A, 0x4A),
                Rgb(0x5A, 0xC4, 0x8A),
                Rgb(0xFF, 0xE2, 0x7A),
                Rgb(0x5A, 0x7A, 0xE0),
                Rgb(0xC4, 0x7A, 0xC4),
                Rgb(0x6F, 0xCB, 0xCB),
                Rgb(0xFF, 0xFF, 0xFF),
            ],
            r.foreground == Rgb(0x10, 0x10, 0x10),
            r.background == Rgb(0xC4, 0xC6, 0xCC),
    {
        let r = Self {
            ansi: [
                Rgb(0x10, 0x10, 0x10),  // black
                Rgb(0xA5, 0x1E, 0x1E),  // red
                Rgb(0x2E, 0x8B, 0x57),  // green
                Rgb(0xB0, 0x8A, 0x2A),  // yellow
                Rgb(0x16, 0x36, 0xA0),  // blue
                Rgb(0x8B, 0x3A, 0x8B),  // magenta
                Rgb(0x2A, 0x8B, 0x8B),  // cyan
                Rgb(0xC4, 0xC6, 0xCC),  // white (the dialog grey)
                Rgb(0x6B, 0x6E, 0x76),  // bright black
                Rgb(0xE0, 0x5A, 0x4A),
                Rgb(0x5A, 0xC4, 0x8A),
                Rgb(0xFF, 0xE2, 0x7A),
                Rgb(0x5A, 0x7A, 0xE0),
                Rgb(0xC4, 0x7A, 0xC4),
                Rgb(0x6F, 0xCB, 0xCB),
                Rgb(0xFF, 0xFF, 0xFF),  // bright white
            ],
            foreground: Rgb(0x10, 0x10, 0x10),
            background: Rgb(0xC4, 0xC6, 0xCC),
        };
        r
    }
}

/// One step of the colour cube.
pub open spec fn cube_level(v: int) -> int {
    if v == 0 {
        0
    } else {
        55 + v * 40
    }
}

fn level(v: u8) -> (r: u8)
    requires
        v < 6,
    ensures
        r == cube_level(v as int),
{
    if v == 0 {
        0
    } else {
        55 + v * 40
    }
}

/// The colour of an xterm 256-colour index: the sixteen named colours, then a cube of six
/// levels per channel, then greys.
pub open spec fn indexed_color(palette: Palette, index: u8) -> Rgb {
    if index < 16 {
        palette.ansi@[index as int]
    } else if index < 232 {
        Rgb(
            cube_level((index - 16) / 36) as u8,
            cube_level(((index - 16) / 6) % 6) as u8,
            cube_level((index - 16) % 6) as u8,
        )
    } else {
        let grey = (8 + (index - 232) * 10) as u8;
        Rgb(grey, grey, grey)
    }
}

impl Palette {
    /// Resolves an xterm 256-colour index.
    pub fn indexed(&self, index: u8) -> (r: Rgb)
        ensures
            r == indexed_color(*self, index),
    {
        if index < 16 {
            self.ansi[index as usize]
        } else if index < 232 {
            let index: u8 = index - 16;
            Rgb(level(index / 36), level((index / 6) % 6), level(index % 6))
        } else {
            let value: u8 = 8 + (index - 232) * 10;
            Rgb(value, value, value)
        }
    }
}

/// A packed colour is opaque and holds, from its highest byte down, red, green and blue.
pub proof fn packed_colours_are_opaque(color: Rgb)
    ensures
        argb(color) as int / 0x100_0000 == 255,
        argb(color) as int / 0x1_0000 % 0x100 == color.0,
        argb(color) as int / 0x100 % 0x100 == color.1,
        argb(color) as int % 0x100 == color.2,
{
}

/// A blend is the mean of the two colours, weighed by the coverage, to the nearest step of each
/// channel.
pub proof fn blends_are_weighed_means(src: Rgb, dst: Rgb, alpha: u8)
    ensures
        ({
            let mean = blended(src, dst, alpha);
            &&& -127 <= 255 * mean.0 - (src.0 * alpha + dst.0 * (255 - alpha)) <= 127
            &&& -127 <= 255 * mean.1 - (src.1 * alpha + dst.1 * (255 - alpha)) <= 127
            &&& -127 <= 255 * mean.2 - (src.2 * alpha + dst.2 * (255 - alpha)) <= 127
        }),
{
    blending_stays_between(src.0, dst.0, alpha);
    blending_stays_between(src.1, dst.1, alpha);
    blending_stays_between(src.2, dst.2, alpha);
}

/// The numbered colours behind the first sixteen are a cube of six levels of red, green and blue,
/// of which blue changes fastest, and a ramp of greys. The levels start at nothing and end at the
/// full channel; all but the first step are alike, and so are those of the greys.
pub proof fn numbered_colours_are_a_cube_and_a_ramp(
    palette: Palette,
    r: u8,
    g: u8,
    b: u8,
    grey: u8,
)
    requires
        r < 6,
        g < 6,
        b < 6,
        grey < 24,
    ensures
        ({
            let color = indexed_color(palette, (16 + 36 * r + 6 * g + b) as u8);
            let shade = indexed_color(palette, (232 + grey) as u8);
            &&& r == 0 ==> color.0 == 0
            &&& g == 0 ==> color.1 == 0
            &&& b == 0 ==> color.2 == 0
            &&& r > 0 ==> color.0 == 255 - 40 * (5 - r)
            &&& g > 0 ==> color.1 == 255 - 40 * (5 - g)
            &&& b > 0 ==> color.2 == 255 - 40 * (5 - b)
            &&& shade.0 == 8 + 10 * grey && shade.1 == shade.0 && shade.2 == shade.0
        }),
{
    let index = (16 + 36 * r + 6 * g + b) as u8;
    assert((index - 16) / 36 == r);
    assert(((index - 16) / 6) % 6 == g);
    assert((index - 16) % 6 == b);
}

} // verus!
