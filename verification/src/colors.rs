//! The colours of the game.
use vstd::prelude::*;

verus! {

/// A colour with eight bits for each of red, green, blue and alpha.
#[derive(Clone, Copy, Debug, PartialEq, Eq, Structural)]
pub struct Color {
    pub r: u8,
    pub g: u8,
    pub b: u8,
    pub a: u8,
}

/// The colour of an empty cell.
#[verifier::allow_in_spec]
pub fn dark_grey() -> Color
    returns
        (Color { r: 26, g: 31, b: 40, a: 255 }),
{
    Color { r: 26, g: 31, b: 40, a: 255 }
}

#[verifier::allow_in_spec]
pub fn green() -> Color
    returns
        (Color { r: 47, g: 230, b: 23, a: 255 }),
{
    Color { r: 47, g: 230, b: 23, a: 255 }
}

#[verifier::allow_in_spec]
pub fn red() -> Color
    returns
        (Color { r: 232, g: 18, b: 18, a: 255 }),
{
    Color { r: 232, g: 18, b: 18, a: 255 }
}

#[verifier::allow_in_spec]
pub fn orange() -> Color
    returns
        (Color { r: 226, g: 116, b: 17, a: 255 }),
{
    Color { r: 226, g: 116, b: 17, a: 255 }
}

#[verifier::allow_in_spec]
pub fn yellow() -> Color
    returns
        (Color { r: 237, g: 234, b: 4, a: 255 }),
{
    Color { r: 237, g: 234, b: 4, a: 255 }
}

#[verifier::allow_in_spec]
pub fn purple() -> Color
    returns
        (Color { r: 116, g: 0, b: 247, a: 255 }),
{
    Color { r: 116, g: 0, b: 247, a: 255 }
}

#[verifier::allow_in_spec]
pub fn cyan() -> Color
    returns
        (Color { r: 21, g: 204, b: 209, a: 255 }),
{
    Color { r: 21, g: 204, b: 209, a: 255 }
}

#[verifier::allow_in_spec]
pub fn blue() -> Color
    returns
        (Color { r: 13, g: 64, b: 216, a: 255 }),
{
    Color { r: 13, g: 64, b: 216, a: 255 }
}

/// The colour of the side panels.
#[verifier::allow_in_spec]
pub fn light_blue() -> Color
    returns
        (Color { r: 59, g: 85, b: 162, a: 255 }),
{
    Color { r: 59, g: 85, b: 162, a: 255 }
}

/// The colour of the window background.
#[verifier::allow_in_spec]
pub fn dark_blue() -> Color
    returns
        (Color { r: 44, g: 44, b: 127, a: 255 }),
{
    Color { r: 44, g: 44, b: 127, a: 255 }
}

/// One colour per cell value: entry 0 paints an empty cell, entry `k` a cell
/// that holds the id `k` of a block kind.
pub open spec fn palette() -> Seq<Color> {
    seq![dark_grey(), green(), red(), orange(), yellow(), purple(), cyan(), blue()]
}

/// The palette as a vector, indexed by cell value.
pub fn get_cell_colors() -> (colors: Vec<Color>)
    ensures
        colors@ == palette(),
{
    vec![dark_grey(), green(), red(), orange(), yellow(), purple(), cyan(), blue()]
}

} // verus!
