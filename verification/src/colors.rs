use vstd::prelude::*;

verus! {

/// A display color, kept as plain channel values so that contracts can
/// speak about it; the rendering layer converts it to whatever its
/// console library uses.
#[derive(Clone, Copy, Debug, PartialEq, Eq, Structural)]
pub struct Rgb {
    pub r: u8,
    pub g: u8,
    pub b: u8,
}

pub fn white() -> (c: Rgb)
    ensures
        c == (Rgb { r: 255, g: 255, b: 255 }),
{
    Rgb { r: 255, g: 255, b: 255 }
}

pub fn red() -> (c: Rgb)
    ensures
        c == (Rgb { r: 255, g: 0, b: 0 }),
{
    Rgb { r: 255, g: 0, b: 0 }
}

pub fn dark_red() -> (c: Rgb)
    ensures
        c == (Rgb { r: 191, g: 0, b: 0 }),
{
    Rgb { r: 191, g: 0, b: 0 }
}

pub fn orange() -> (c: Rgb)
    ensures
        c == (Rgb { r: 255, g: 127, b: 0 }),
{
    Rgb { r: 255, g: 127, b: 0 }
}

pub fn light_blue() -> (c: Rgb)
    ensures
        c == (Rgb { r: 63, g: 63, b: 255 }),
{
    Rgb { r: 63, g: 63, b: 255 }
}

pub fn desaturated_green() -> (c: Rgb)
    ensures
        c == (Rgb { r: 63, g: 127, b: 63 }),
{
    Rgb { r: 63, g: 127, b: 63 }
}

pub fn darker_green() -> (c: Rgb)
    ensures
        c == (Rgb { r: 0, g: 127, b: 0 }),
{
    Rgb { r: 0, g: 127, b: 0 }
}

} // verus!
