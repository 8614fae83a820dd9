//! The palette of the user interface.
use vstd::prelude::*;

verus! {

/// A colour with 8-bit red, green, blue and alpha channels (not premultiplied).
#[derive(Clone, Copy, Debug, PartialEq, Eq)]
pub struct Color32 {
    pub r: u8,
    pub g: u8,
    pub b: u8,
    pub a: u8,
}

/// An opaque colour given by its three channels.
pub open spec fn opaque(r: u8, g: u8, b: u8) -> Color32 {
    Color32 { r, g, b, a: 255 }
}

impl Color32 {
    /// An opaque colour from its red, green and blue channels.
    pub fn from_rgb(r: u8, g: u8, b: u8) -> (c: Color32)
        ensures
            c == opaque(r, g, b),
    {
        Color32 { r, g, b, a: 255 }
    }
}

/// `#6F6F6F`
pub fn light_gray() -> (c: Color32)
    ensures
        c == opaque(0x6F, 0x6F, 0x6F),
{
    Color32::from_rgb(0x6F, 0x6F, 0x6F)
}

/// `#393939`
pub fn dark_gray() -> (c: Color32)
    ensures
        c == opaque(0x39, 0x39, 0x39),
{
    Color32::from_rgb(0x39, 0x39, 0x39)
}

/// `#000000`
pub fn black() -> (c: Color32)
    ensures
        c == opaque(0, 0, 0),
{
    Color32::from_rgb(0, 0, 0)
}

/// `#202020`
pub fn light_black() -> (c: Color32)
    ensures
        c == opaque(0x20, 0x20, 0x20),
{
    Color32::from_rgb(0x20, 0x20, 0x20)
}

/// `#ffffff`
pub fn white() -> (c: Color32)
    ensures
        c == opaque(0xFF, 0xFF, 0xFF),
{
    Color32::from_rgb(0xFF, 0xFF, 0xFF)
}

/// `#D98F00`
pub fn yellow() -> (c: Color32)
    ensures
        c == opaque(0xD9, 0x8F, 0x00),
{
    Color32::from_rgb(0xD9, 0x8F, 0x00)
}

/// `#E53935`
pub fn red() -> (c: Color32)
    ensures
        c == opaque(0xE5, 0x39, 0x35),
{
    Color32::from_rgb(0xE5, 0x39, 0x35)
}

} // verus!
