//! Key colours.
use vstd::prelude::*;

verus! {

/// A colour of a key, one byte per channel.
#[derive(Clone, Copy, Debug, PartialEq, Eq, Structural)]
pub struct Color {
    pub r: u8,
    pub g: u8,
    pub b: u8,
}

impl From<(u8, u8, u8)> for Color {
    /// The channels in the order red, green, blue.
    fn from(t: (u8, u8, u8)) -> (c: Color) {
        Color { r: t.0, g: t.1, b: t.2 }
    }
}

impl vstd::std_specs::convert::FromSpecImpl<(u8, u8, u8)> for Color {
    open spec fn obeys_from_spec() -> bool {
        true
    }

    open spec fn from_spec(t: (u8, u8, u8)) -> Color {
        Color { r: t.0, g: t.1, b: t.2 }
    }
}

impl From<u32> for Color {
    /// Red from the lowest byte, green from the next, blue from the third;
    /// the highest byte is not used.
    fn from(t: u32) -> (c: Color) {
        Color { r: (t % 256) as u8, g: ((t / 256) % 256) as u8, b: ((t / 65536) % 256) as u8 }
    }
}

impl vstd::std_specs::convert::FromSpecImpl<u32> for Color {
    open spec fn obeys_from_spec() -> bool {
        true
    }

    open spec fn from_spec(t: u32) -> Color {
        Color { r: (t % 256) as u8, g: ((t / 256) % 256) as u8, b: ((t / 65536) % 256) as u8 }
    }
}

} // verus!
