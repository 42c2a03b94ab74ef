//! The fixed 16-color palette of the remote canvas protocol.
//!
//! The declaration order of the variants is the protocol's palette
//! order: it fixes each color's numeric wire code and it is the order
//! used to break ties during quantization, so it must not change.

use vstd::prelude::*;

verus! {

/// One of the 16 colors the remote canvas accepts.
#[derive(Copy, Clone, Debug, Hash, PartialEq, Eq, Structural)]
pub enum PixelColor {
    White,
    LightGray,
    Gray,
    Black,
    Pink,
    Red,
    Orange,
    Brown,
    Yellow,
    LightGreen,
    Green,
    Sky,
    Teal,
    Blue,
    Magenta,
    Purple,
}

/// The palette in its fixed declaration order. Position in this
/// sequence is the color's wire code and its tie-break rank.
pub open spec fn palette() -> Seq<PixelColor> {
    seq![
        PixelColor::White,
        PixelColor::LightGray,
        PixelColor::Gray,
        PixelColor::Black,
        PixelColor::Pink,
        PixelColor::Red,
        PixelColor::Orange,
        PixelColor::Brown,
        PixelColor::Yellow,
        PixelColor::LightGreen,
        PixelColor::Green,
        PixelColor::Sky,
        PixelColor::Teal,
        PixelColor::Blue,
        PixelColor::Magenta,
        PixelColor::Purple,
    ]
}

/// The numeric wire code of a color: its position in the palette.
pub open spec fn color_code(c: PixelColor) -> int {
    match c {
        PixelColor::White => 0,
        PixelColor::LightGray => 1,
        PixelColor::Gray => 2,
        PixelColor::Black => 3,
        PixelColor::Pink => 4,
        PixelColor::Red => 5,
        PixelColor::Orange => 6,
        PixelColor::Brown => 7,
        PixelColor::Yellow => 8,
        PixelColor::LightGreen => 9,
        PixelColor::Green => 10,
        PixelColor::Sky => 11,
        PixelColor::Teal => 12,
        PixelColor::Blue => 13,
        PixelColor::Magenta => 14,
        PixelColor::Purple => 15,
    }
}

/// The RGB triple of a color, as the three-element channel sequence.
pub open spec fn color_channels(c: PixelColor) -> Seq<u8> {
    match c {
        PixelColor::White => seq![255u8, 255u8, 255u8],
        PixelColor::LightGray => seq![228u8, 228u8, 228u8],
        PixelColor::Gray => seq![136u8, 136u8, 136u8],
        PixelColor::Black => seq![34u8, 34u8, 34u8],
        PixelColor::Pink => seq![255u8, 167u8, 209u8],
        PixelColor::Red => seq![229u8, 0u8, 0u8],
        PixelColor::Orange => seq![229u8, 149u8, 0u8],
        PixelColor::Brown => seq![160u8, 106u8, 66u8],
        PixelColor::Yellow => seq![229u8, 217u8, 0u8],
        PixelColor::LightGreen => seq![148u8, 224u8, 68u8],
        PixelColor::Green => seq![2u8, 190u8, 1u8],
        PixelColor::Sky => seq![0u8, 211u8, 211u8],
        PixelColor::Teal => seq![0u8, 131u8, 199u8],
        PixelColor::Blue => seq![0u8, 0u8, 234u8],
        PixelColor::Magenta => seq![207u8, 110u8, 228u8],
        PixelColor::Purple => seq![130u8, 0u8, 128u8],
    }
}

impl PixelColor {
    /// The color's RGB triple as a three-byte vector.
    pub fn get_channels(self) -> (r: Vec<u8>)
        ensures
            r@ == color_channels(self),
    {
        match self {
            PixelColor::White => vec![255, 255, 255],
            PixelColor::LightGray => vec![228, 228, 228],
            PixelColor::Gray => vec![136, 136, 136],
            PixelColor::Black => vec![34, 34, 34],
            PixelColor::Pink => vec![255, 167, 209],
            PixelColor::Red => vec![229, 0, 0],
            PixelColor::Orange => vec![229, 149, 0],
            PixelColor::Brown => vec![160, 106, 66],
            PixelColor::Yellow => vec![229, 217, 0],
            PixelColor::LightGreen => vec![148, 224, 68],
            PixelColor::Green => vec![2, 190, 1],
            PixelColor::Sky => vec![0, 211, 211],
            PixelColor::Teal => vec![0, 131, 199],
            PixelColor::Blue => vec![0, 0, 234],
            PixelColor::Magenta => vec![207, 110, 228],
            PixelColor::Purple => vec![130, 0, 128],
        }
    }

    /// The color's numeric wire code.
    pub fn code(self) -> (r: u8)
        ensures
            r as int == color_code(self),
    {
        match self {
            PixelColor::White => 0,
            PixelColor::LightGray => 1,
            PixelColor::Gray => 2,
            PixelColor::Black => 3,
            PixelColor::Pink => 4,
            PixelColor::Red => 5,
            PixelColor::Orange => 6,
            PixelColor::Brown => 7,
            PixelColor::Yellow => 8,
            PixelColor::LightGreen => 9,
            PixelColor::Green => 10,
            PixelColor::Sky => 11,
            PixelColor::Teal => 12,
            PixelColor::Blue => 13,
            PixelColor::Magenta => 14,
            PixelColor::Purple => 15,
        }
    }

    /// The palette in its fixed declaration order, as a vector.
    pub fn all() -> (r: Vec<PixelColor>)
        ensures
            r@ == palette(),
    {
        let r = vec![
            PixelColor::White,
            PixelColor::LightGray,
            PixelColor::Gray,
            PixelColor::Black,
            PixelColor::Pink,
            PixelColor::Red,
            PixelColor::Orange,
            PixelColor::Brown,
            PixelColor::Yellow,
            PixelColor::LightGreen,
            PixelColor::Green,
            PixelColor::Sky,
            PixelColor::Teal,
            PixelColor::Blue,
            PixelColor::Magenta,
            PixelColor::Purple,
        ];
        assert(r@ =~= palette());
        r
    }
}

} // verus!
