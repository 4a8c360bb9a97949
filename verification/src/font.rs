//! The bitmap font: a 5×7 base glyph per character, drawn at integer scales.
//!
//! Each glyph is seven row bytes; in a row byte the leftmost column is the
//! most significant bit and only the top five bits are used. Printable ASCII
//! and the degree sign have glyphs; any other character is drawn as `?`.
use vstd::prelude::*;
use crate::render::bit_at;

verus! {

/// Width of a base glyph in pixels.
pub const GLYPH_WIDTH: u32 = 5;
/// Height of a base glyph in pixels.
pub const GLYPH_HEIGHT: u32 = 7;
/// Horizontal advance of the base font: glyph plus one pixel of spacing.
pub const CELL_WIDTH: u32 = 6;
/// Line height of the base font: glyph plus two pixels of spacing.
pub const CELL_HEIGHT: u32 = 9;

/// Row bytes of all glyphs: seven per glyph, printable ASCII in code order,
/// then the degree sign and the ellipsis.
pub const FONT_ROWS: [u8; 679] = [
    0x00, 0x00, 0x00, 0x00, 0x00, 0x00, 0x00,
    0x20, 0x20, 0x20, 0x20, 0x20, 0x00, 0x20,
    0x50, 0x50, 0x50, 0x00, 0x00, 0x00, 0x00,
    0x50, 0x50, 0xF8, 0x50, 0xF8, 0x50, 0x50,
    0x20, 0x78, 0xA0, 0x70, 0x28, 0xF0, 0x20,
    0xC0, 0xC8, 0x10, 0x20, 0x40, 0x98, 0x18,
    0x60, 0x90, 0xA0, 0x40, 0xA8, 0x90, 0x68,
    0x20, 0x20, 0x40, 0x00, 0x00, 0x00, 0x00,
    0x10, 0x20, 0x40, 0x40, 0x40, 0x20, 0x10,
    0x40, 0x20, 0x10, 0x10, 0x10, 0x20, 0x40,
    0x00, 0x20, 0xA8, 0x70, 0xA8, 0x20, 0x00,
    0x00, 0x20, 0x20, 0xF8, 0x20, 0x20, 0x00,
    0x00, 0x00, 0x00, 0x00, 0x60, 0x20, 0x40,
    0x00, 0x00, 0x00, 0xF8, 0x00, 0x00, 0x00,
    0x00, 0x00, 0x00, 0x00, 0x00, 0x60, 0x60,
    0x00, 0x08, 0x10, 0x20, 0x40, 0x80, 0x00,
    0x70, 0x88, 0x98, 0xA8, 0xC8, 0x88, 0x70,
    0x20, 0x60, 0x20, 0x20, 0x20, 0x20, 0x70,
    0x70, 0x88, 0x08, 0x10, 0x20, 0x40, 0xF8,
    0xF8, 0x10, 0x20, 0x10, 0x08, 0x88, 0x70,
    0x10, 0x30, 0x50, 0x90, 0xF8, 0x10, 0x10,
    0xF8, 0x80, 0xF0, 0x08, 0x08, 0x88, 0x70,
    0x30, 0x40, 0x80, 0xF0, 0x88, 0x88, 0x70,
    0xF8, 0x08, 0x10, 0x20, 0x40, 0x40, 0x40,
    0x70, 0x88, 0x88, 0x70, 0x88, 0x88, 0x70,
    0x70, 0x88, 0x88, 0x78, 0x08, 0x10, 0x60,
    0x00, 0x60, 0x60, 0x00, 0x60, 0x60, 0x00,
    0x00, 0x60, 0x60, 0x00, 0x60, 0x20, 0x40,
    0x10, 0x20, 0x40, 0x80, 0x40, 0x20, 0x10,
    0x00, 0x00, 0xF8, 0x00, 0xF8, 0x00, 0x00,
    0x40, 0x20, 0x10, 0x08, 0x10, 0x20, 0x40,
    0x70, 0x88, 0x08, 0x10, 0x20, 0x00, 0x20,
    0x70, 0x88, 0x08, 0x68, 0xA8, 0xA8, 0x70,
    0x70, 0x88, 0x88, 0xF8, 0x88, 0x88, 0x88,
    0xF0, 0x88, 0x88, 0xF0, 0x88, 0x88, 0xF0,
    0x70, 0x88, 0x80, 0x80, 0x80, 0x88, 0x70,
    0xE0, 0x90, 0x88, 0x88, 0x88, 0x90, 0xE0,
    0xF8, 0x80, 0x80, 0xF0, 0x80, 0x80, 0xF8,
    0xF8, 0x80, 0x80, 0xF0, 0x80, 0x80, 0x80,
    0x70, 0x88, 0x80, 0xB8, 0x88, 0x88, 0x78,
    0x88, 0x88, 0x88, 0xF8, 0x88, 0x88, 0x88,
    0x70, 0x20, 0x20, 0x20, 0x20, 0x20, 0x70,
    0x38, 0x10, 0x10, 0x10, 0x10, 0x90, 0x60,
    0x88, 0x90, 0xA0, 0xC0, 0xA0, 0x90, 0x88,
    0x80, 0x80, 0x80, 0x80, 0x80, 0x80, 0xF8,
    0x88, 0xD8, 0xA8, 0xA8, 0x88, 0x88, 0x88,
    0x88, 0x88, 0xC8, 0xA8, 0x98, 0x88, 0x88,
    0x70, 0x88, 0x88, 0x88, 0x88, 0x88, 0x70,
    0xF0, 0x88, 0x88, 0xF0, 0x80, 0x80, 0x80,
    0x70, 0x88, 0x88, 0x88, 0xA8, 0x90, 0x68,
    0xF0, 0x88, 0x88, 0xF0, 0xA0, 0x90, 0x88,
    0x78, 0x80, 0x80, 0x70, 0x08, 0x08, 0xF0,
    0xF8, 0x20, 0x20, 0x20, 0x20, 0x20, 0x20,
    0x88, 0x88, 0x88, 0x88, 0x88, 0x88, 0x70,
    0x88, 0x88, 0x88, 0x88, 0x88, 0x50, 0x20,
    0x88, 0x88, 0x88, 0xA8, 0xA8, 0xA8, 0x50,
    0x88, 0x88, 0x50, 0x20, 0x50, 0x88, 0x88,
    0x88, 0x88, 0x88, 0x50, 0x20, 0x20, 0x20,
    0xF8, 0x08, 0x10, 0x20, 0x40, 0x80, 0xF8,
    0x70, 0x40, 0x40, 0x40, 0x40, 0x40, 0x70,
    0x00, 0x80, 0x40, 0x20, 0x10, 0x08, 0x00,
    0x70, 0x10, 0x10, 0x10, 0x10, 0x10, 0x70,
    0x20, 0x50, 0x88, 0x00, 0x00, 0x00, 0x00,
    0x00, 0x00, 0x00, 0x00, 0x00, 0x00, 0xF8,
    0x40, 0x20, 0x10, 0x00, 0x00, 0x00, 0x00,
    0x00, 0x00, 0x70, 0x08, 0x78, 0x88, 0x78,
    0x80, 0x80, 0xB0, 0xC8, 0x88, 0x88, 0xF0,
    0x00, 0x00, 0x70, 0x80, 0x80, 0x88, 0x70,
    0x08, 0x08, 0x68, 0x98, 0x88, 0x88, 0x78,
    0x00, 0x00, 0x70, 0x88, 0xF8, 0x80, 0x70,
    0x30, 0x48, 0x40, 0xE0, 0x40, 0x40, 0x40,
    0x00, 0x78, 0x88, 0x88, 0x78, 0x08, 0x70,
    0x80, 0x80, 0xB0, 0xC8, 0x88, 0x88, 0x88,
    0x20, 0x00, 0x60, 0x20, 0x20, 0x20, 0x70,
    0x10, 0x00, 0x30, 0x10, 0x10, 0x90, 0x60,
    0x80, 0x80, 0x90, 0xA0, 0xC0, 0xA0, 0x90,
    0x60, 0x20, 0x20, 0x20, 0x20, 0x20, 0x70,
    0x00, 0x00, 0xD0, 0xA8, 0xA8, 0x88, 0x88,
    0x00, 0x00, 0xB0, 0xC8, 0x88, 0x88, 0x88,
    0x00, 0x00, 0x70, 0x88, 0x88, 0x88, 0x70,
    0x00, 0x00, 0xF0, 0x88, 0xF0, 0x80, 0x80,
    0x00, 0x00, 0x68, 0x98, 0x78, 0x08, 0x08,
    0x00, 0x00, 0xB0, 0xC8, 0x80, 0x80, 0x80,
    0x00, 0x00, 0x70, 0x80, 0x70, 0x08, 0xF0,
    0x40, 0x40, 0xE0, 0x40, 0x40, 0x48, 0x30,
    0x00, 0x00, 0x88, 0x88, 0x88, 0x98, 0x68,
    0x00, 0x00, 0x88, 0x88, 0x88, 0x50, 0x20,
    0x00, 0x00, 0x88, 0x88, 0xA8, 0xA8, 0x50,
    0x00, 0x00, 0x88, 0x50, 0x20, 0x50, 0x88,
    0x00, 0x00, 0x88, 0x88, 0x78, 0x08, 0x70,
    0x00, 0x00, 0xF8, 0x10, 0x20, 0x40, 0xF8,
    0x10, 0x20, 0x20, 0x40, 0x20, 0x20, 0x10,
    0x20, 0x20, 0x20, 0x20, 0x20, 0x20, 0x20,
    0x40, 0x20, 0x20, 0x10, 0x20, 0x20, 0x40,
    0x00, 0x00, 0x40, 0xA8, 0x10, 0x00, 0x00,
    0x60, 0x90, 0x90, 0x60, 0x00, 0x00, 0x00,
    0x00, 0x00, 0x00, 0x00, 0x00, 0x00, 0xA8,
];

/// Which glyph of [`FONT_ROWS`] draws `c`.
pub open spec fn glyph_index(c: char) -> int {
    if ' ' <= c && c <= '~' {
        c as int - 32
    } else if c == '\u{B0}' {
        95
    } else if c == '\u{2026}' {
        96
    } else {
        '?' as int - 32
    }
}

/// Row byte `row` (0 = top) of the glyph for `c`.
pub open spec fn glyph_row(c: char, row: int) -> u8 {
    FONT_ROWS@[glyph_index(c) * 7 + row]
}

/// Whether base pixel (col, row) of the glyph for `c` is ink.
pub open spec fn glyph_on(c: char, col: int, row: int) -> bool {
    bit_at(glyph_row(c, row), col as u8)
}

/// The seven row bytes of the glyph for `ch`.
pub fn glyph(ch: char) -> (g: [u8; 7])
    ensures
        forall|r: int| 0 <= r < 7 ==> #[trigger] g@[r] == glyph_row(ch, r),
{
    let idx: usize = if ' ' <= ch && ch <= '~' {
        (ch as u32 - 32) as usize
    } else if ch == '\u{B0}' {
        95
    } else if ch == '\u{2026}' {
        96
    } else {
        ('?' as u32 - 32) as usize
    };
    assert(idx == glyph_index(ch));
    let base = idx * 7;
    [
        FONT_ROWS[base],
        FONT_ROWS[base + 1],
        FONT_ROWS[base + 2],
        FONT_ROWS[base + 3],
        FONT_ROWS[base + 4],
        FONT_ROWS[base + 5],
        FONT_ROWS[base + 6],
    ]
}

/// The five type sizes of the display, from the decision text down to
/// timestamps. Each draws the base glyph at an integer scale.
#[derive(Debug, Clone, Copy, PartialEq, Eq, Structural)]
pub enum FontSize {
    Hero,
    Large,
    Medium,
    Small,
    Micro,
}

impl FontSize {
    pub open spec fn spec_scale(&self) -> u32 {
        match self {
            FontSize::Hero => 14,
            FontSize::Large => 8,
            FontSize::Medium => 4,
            FontSize::Small => 3,
            FontSize::Micro => 2,
        }
    }

    /// Pixels per base-glyph pixel.
    #[verifier::when_used_as_spec(spec_scale)]
    pub fn scale(&self) -> (s: u32)
        ensures
            s == self.spec_scale(),
    {
        match self {
            FontSize::Hero => 14,
            FontSize::Large => 8,
            FontSize::Medium => 4,
            FontSize::Small => 3,
            FontSize::Micro => 2,
        }
    }

    pub open spec fn spec_gap(&self) -> u32 {
        if self.spec_scale() < 4 { self.spec_scale() } else { 4 }
    }

    /// Spacing after a glyph and below a line: one base pixel, at most four.
    #[verifier::when_used_as_spec(spec_gap)]
    pub fn gap(&self) -> (g: u32)
        ensures
            g == self.spec_gap(),
    {
        let s = self.scale();
        if s < 4 { s } else { 4 }
    }

    pub open spec fn spec_glyph_w(&self) -> u32 {
        (GLYPH_WIDTH * self.spec_scale()) as u32
    }

    /// Width of a scaled glyph in pixels.
    #[verifier::when_used_as_spec(spec_glyph_w)]
    pub fn glyph_w(&self) -> (w: u32)
        ensures
            w == self.spec_glyph_w(),
    {
        GLYPH_WIDTH * self.scale()
    }

    pub open spec fn spec_glyph_h(&self) -> u32 {
        (GLYPH_HEIGHT * self.spec_scale()) as u32
    }

    /// Height of a scaled glyph in pixels.
    #[verifier::when_used_as_spec(spec_glyph_h)]
    pub fn glyph_h(&self) -> (h: u32)
        ensures
            h == self.spec_glyph_h(),
    {
        GLYPH_HEIGHT * self.scale()
    }

    pub open spec fn spec_cell_w(&self) -> u32 {
        (self.spec_glyph_w() + self.spec_gap()) as u32
    }

    /// Horizontal advance per character.
    #[verifier::when_used_as_spec(spec_cell_w)]
    pub fn cell_w(&self) -> (w: u32)
        ensures
            w == self.spec_cell_w(),
    {
        self.glyph_w() + self.gap()
    }

    pub open spec fn spec_cell_h(&self) -> u32 {
        (self.spec_glyph_h() + self.spec_gap()) as u32
    }

    /// Line height.
    #[verifier::when_used_as_spec(spec_cell_h)]
    pub fn cell_h(&self) -> (h: u32)
        ensures
            h == self.spec_cell_h(),
    {
        self.glyph_h() + self.gap()
    }
}

} // verus!
