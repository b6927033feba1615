//! Grid character cells: a character with independent foreground and
//! background color, the atomic unit of rendering.

use vstd::prelude::*;

verus! {

/// A terminal color: unset (inherit the ambient terminal default), one of
/// the sixteen named ANSI colors, an 8-bit palette index, or a 24-bit RGB
/// triple.
#[derive(Copy, Clone, Eq, PartialEq, Structural, Debug)]
pub enum Color {
    Unset,
    Black,
    Red,
    Green,
    Yellow,
    Blue,
    Magenta,
    Cyan,
    White,
    BrightBlack,
    BrightRed,
    BrightGreen,
    BrightYellow,
    BrightBlue,
    BrightMagenta,
    BrightCyan,
    BrightWhite,
    Bits8(u8),
    Custom(u8, u8, u8),
}

impl Color {
    /// Splits a packed `0xRRGGBB` value into a 24-bit RGB color.
    pub fn rgb(rgb: u32) -> (c: Color)
        ensures
            c == Color::Custom(
                ((rgb >> 16u32) & 0xFFu32) as u8,
                ((rgb >> 8u32) & 0xFFu32) as u8,
                (rgb & 0xFFu32) as u8,
            ),
    {
        Color::Custom(
            ((rgb >> 16u32) & 0xFFu32) as u8,
            ((rgb >> 8u32) & 0xFFu32) as u8,
            (rgb & 0xFFu32) as u8,
        )
    }
}

impl Default for Color {
    /// The default color is unset: it resolves to the ambient terminal
    /// default, never to black.
    fn default() -> (c: Self)
        ensures
            c == Color::Unset,
    {
        Color::Unset
    }
}

/// One cell of the character grid: a character with a foreground and a
/// background color.
#[derive(Copy, Clone, Eq, PartialEq, Structural, Debug)]
pub struct VChar {
    pub ch: char,
    pub foreground: Color,
    pub background: Color,
}

impl VChar {
    /// The empty cell: a space with both colors unset. Out-of-range
    /// coordinates of every widget resolve to this cell.
    pub open spec fn spec_space() -> VChar {
        VChar { ch: ' ', foreground: Color::Unset, background: Color::Unset }
    }

    /// A cell with an unset background.
    pub fn new(ch: char, foreground: Color) -> (r: VChar)
        ensures
            r == (VChar { ch, foreground, background: Color::Unset }),
    {
        VChar { ch, foreground, background: Color::Unset }
    }

    /// A cell with both colors given.
    pub fn full(ch: char, foreground: Color, background: Color) -> (r: VChar)
        ensures
            r == (VChar { ch, foreground, background }),
    {
        VChar { ch, foreground, background }
    }

    /// The empty cell, as an executable value.
    pub fn space() -> (r: VChar)
        ensures
            r == VChar::spec_space(),
    {
        VChar { ch: ' ', foreground: Color::Unset, background: Color::Unset }
    }
}

/// The effective cell behind an optional cell: an absent cell renders as
/// the empty cell.
pub open spec fn eff_cell(c: Option<VChar>) -> VChar {
    match c {
        Option::Some(v) => v,
        Option::None => VChar::spec_space(),
    }
}

/// True when an optional cell renders as empty space with unset colors.
pub open spec fn cell_is_empty(c: Option<VChar>) -> bool {
    eff_cell(c) == VChar::spec_space()
}

} // verus!
