//! Color themes for the composed interface: one truecolor scheme and one
//! restricted to the named terminal colors. Which one applies is the
//! caller's choice, made from its environment.

use vstd::prelude::*;
use crate::cell::Color;

verus! {

/// The colors the interface draws with.
pub struct Theme {
    pub background: Color,
    pub textback1: Color,
    pub textback2: Color,
    pub text: Color,
    pub heading: Color,
    pub error: Color,
}

impl Theme {
    /// The truecolor scheme, built on the solarized palette.
    pub fn solarized() -> (t: Theme)
        ensures
            t.background == Color::Custom(0x2a, 0xa1, 0x98),
            t.textback1 == Color::Custom(0xfd, 0xf6, 0xe3),
            t.textback2 == Color::Custom(0xee, 0xe8, 0xd5),
            t.text == Color::Custom(0x65, 0x7b, 0x83),
            t.heading == Color::Custom(0x58, 0x6e, 0x75),
            t.error == Color::Custom(0xdc, 0x32, 0x2f),
    {
        Theme {
            background: Color::Custom(0x2a, 0xa1, 0x98),
            textback1: Color::Custom(0xfd, 0xf6, 0xe3),
            textback2: Color::Custom(0xee, 0xe8, 0xd5),
            text: Color::Custom(0x65, 0x7b, 0x83),
            heading: Color::Custom(0x58, 0x6e, 0x75),
            error: Color::Custom(0xdc, 0x32, 0x2f),
        }
    }

    /// The fallback scheme for terminals without truecolor support.
    pub fn simple() -> (t: Theme)
        ensures
            t.background == Color::Cyan,
            t.textback1 == Color::Blue,
            t.textback2 == Color::Magenta,
            t.text == Color::White,
            t.heading == Color::White,
            t.error == Color::Red,
    {
        Theme {
            background: Color::Cyan,
            textback1: Color::Blue,
            textback2: Color::Magenta,
            text: Color::White,
            heading: Color::White,
            error: Color::Red,
        }
    }
}

} // verus!
