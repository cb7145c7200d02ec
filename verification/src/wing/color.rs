//! The console's fixed twelve-entry color palette.

use vstd::prelude::*;

verus! {

/// A color of the console's fixed palette. The device encodes each color as
/// a small integer between 1 and 12.
#[derive(Copy, Clone, Debug, PartialEq, Eq, Structural)]
pub enum WingColor {
    GrayBlue,
    MediumBlue,
    DarkBlue,
    Turquoise,
    Green,
    OliveGreen,
    Yellow,
    Orange,
    Red,
    Coral,
    Pink,
    Mauve,
}

/// The device encoding of a palette color.
pub open spec fn color_code(c: WingColor) -> u8 {
    match c {
        WingColor::GrayBlue => 1,
        WingColor::MediumBlue => 2,
        WingColor::DarkBlue => 3,
        WingColor::Turquoise => 4,
        WingColor::Green => 5,
        WingColor::OliveGreen => 6,
        WingColor::Yellow => 7,
        WingColor::Orange => 8,
        WingColor::Red => 9,
        WingColor::Coral => 10,
        WingColor::Pink => 11,
        WingColor::Mauve => 12,
    }
}

impl WingColor {
    /// The integer the device uses for this color.
    pub fn to_u8(self) -> (r: u8)
        ensures
            r == color_code(self),
    {
        match self {
            WingColor::GrayBlue => 1,
            WingColor::MediumBlue => 2,
            WingColor::DarkBlue => 3,
            WingColor::Turquoise => 4,
            WingColor::Green => 5,
            WingColor::OliveGreen => 6,
            WingColor::Yellow => 7,
            WingColor::Orange => 8,
            WingColor::Red => 9,
            WingColor::Coral => 10,
            WingColor::Pink => 11,
            WingColor::Mauve => 12,
        }
    }

    /// Decodes a device color integer; values outside the palette yield
    /// nothing.
    pub fn from_u8(value: u8) -> (r: Option<WingColor>)
        ensures
            (1 <= value <= 12) <==> r is Some,
            r matches Some(c) ==> color_code(c) == value,
    {
        match value {
            1 => Some(WingColor::GrayBlue),
            2 => Some(WingColor::MediumBlue),
            3 => Some(WingColor::DarkBlue),
            4 => Some(WingColor::Turquoise),
            5 => Some(WingColor::Green),
            6 => Some(WingColor::OliveGreen),
            7 => Some(WingColor::Yellow),
            8 => Some(WingColor::Orange),
            9 => Some(WingColor::Red),
            10 => Some(WingColor::Coral),
            11 => Some(WingColor::Pink),
            12 => Some(WingColor::Mauve),
            _ => None,
        }
    }
}

} // verus!
