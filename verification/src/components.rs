use crate::geometry::Point;
use vstd::prelude::*;

verus! {

/// The code of a glyph in the font: a position in code page 437.
pub type FontCharType = u16;

/// A colour as red, green and blue.
#[derive(Clone, Copy, Debug, PartialEq, Eq, Structural)]
pub struct Rgb {
    pub r: u8,
    pub g: u8,
    pub b: u8,
}

/// A foreground and a background colour.
#[derive(Clone, Copy, Debug, PartialEq, Eq, Structural)]
pub struct ColorPair {
    pub fg: Rgb,
    pub bg: Rgb,
}

/// How an entity appears on the screen.
#[derive(Clone, Copy, Debug, PartialEq, Eq, Structural)]
pub struct Render {
    pub color: ColorPair,
    pub glyph: FontCharType,
}

/// Marks the entity that the player steers.
#[derive(Clone, Copy, Debug, PartialEq, Eq, Structural)]
pub struct Player;

/// Marks an entity that is removed when the player walks into it.
#[derive(Clone, Copy, Debug, PartialEq, Eq, Structural)]
pub struct Enemy;

/// One glyph to draw: where, in window coordinates, in which colours, and
/// which glyph.
#[derive(Clone, Copy, Debug, PartialEq, Eq, Structural)]
pub struct DrawCommand {
    pub pos: Point,
    pub color: ColorPair,
    pub glyph: FontCharType,
}

/// The glyph code that `to_cp437` gives for a character.
pub uninterp spec fn cp437(c: char) -> FontCharType;

/// Calls `to_cp437`, which looks a character up in code page 437. The
/// contract claims only that the code depends on nothing but the character.
#[verifier::external_body]
pub(crate) fn glyph_code(c: char) -> (code: FontCharType)
    ensures
        code == cp437(c),
{
    bracket_lib::prelude::to_cp437(c)
}

impl Rgb {
    /// White: all three parts at their highest.
    pub open spec fn spec_white() -> Rgb {
        Rgb { r: 255, g: 255, b: 255 }
    }

    /// Black: all three parts at zero.
    pub open spec fn spec_black() -> Rgb {
        Rgb { r: 0, g: 0, b: 0 }
    }

    /// White.
    pub fn white() -> (color: Rgb)
        ensures
            color == Self::spec_white(),
    {
        Rgb { r: 255, g: 255, b: 255 }
    }

    /// Black.
    pub fn black() -> (color: Rgb)
        ensures
            color == Self::spec_black(),
    {
        Rgb { r: 0, g: 0, b: 0 }
    }
}

impl ColorPair {
    /// White on black: the colours of everything in the dungeon.
    pub open spec fn spec_white_on_black() -> ColorPair {
        ColorPair { fg: Rgb::spec_white(), bg: Rgb::spec_black() }
    }

    /// The pair of the two colours.
    pub fn new(fg: Rgb, bg: Rgb) -> (pair: ColorPair)
        ensures
            pair.fg == fg,
            pair.bg == bg,
    {
        ColorPair { fg, bg }
    }

    /// White on black.
    pub fn white_on_black() -> (pair: ColorPair)
        ensures
            pair == Self::spec_white_on_black(),
    {
        ColorPair { fg: Rgb::white(), bg: Rgb::black() }
    }
}

} // verus!
