use vstd::prelude::*;

verus! {

/// A color with four 8-bit channels: alpha, red, green and blue.
#[derive(Clone, Copy, Debug, PartialEq, Eq, Structural)]
pub struct Color {
    pub a: u8,
    pub r: u8,
    pub g: u8,
    pub b: u8,
}

/// The packed form of four channels: `alpha << 24 | red << 16 | green << 8 | blue`.
pub open spec fn argb(a: u8, r: u8, g: u8, b: u8) -> u32 {
    ((a as u32) << 24u32) | ((r as u32) << 16u32) | ((g as u32) << 8u32) | (b as u32)
}

/// The packed form of a color.
pub open spec fn packed(c: Color) -> u32 {
    argb(c.a, c.r, c.g, c.b)
}

/// The color whose packed form is `v`.
pub open spec fn unpacked(v: u32) -> Color {
    Color { a: (v >> 24u32) as u8, r: (v >> 16u32) as u8, g: (v >> 8u32) as u8, b: v as u8 }
}

impl Color {
    /// An opaque color from its red, green and blue channels.
    pub fn rgb(r: u8, g: u8, b: u8) -> (c: Color)
        ensures
            c == (Color { a: 255, r, g, b }),
    {
        Color { a: 255, r, g, b }
    }

    /// A color from all four channels.
    pub fn argb(a: u8, r: u8, g: u8, b: u8) -> (c: Color)
        ensures
            c == (Color { a, r, g, b }),
    {
        Color { a, r, g, b }
    }

    /// Packs four channels into one integer, alpha in the highest byte.
    pub fn to_argb(a: u8, r: u8, g: u8, b: u8) -> (v: u32)
        ensures
            v == argb(a, r, g, b),
    {
        ((a as u32) << 24u32) | ((r as u32) << 16u32) | ((g as u32) << 8u32) | (b as u32)
    }

    /// The packed form of this color.
    pub fn to_u32(&self) -> (v: u32)
        ensures
            v == packed(*self),
    {
        Color::to_argb(self.a, self.r, self.g, self.b)
    }

    /// Reads the four channels back out of a packed value.
    pub fn from_argb(v: u32) -> (c: Color)
        ensures
            c == unpacked(v),
    {
        Color { a: (v >> 24u32) as u8, r: (v >> 16u32) as u8, g: (v >> 8u32) as u8, b: v as u8 }
    }
}

/// Unpacking a packed color gives back every channel unchanged.
pub proof fn lemma_unpack_pack(c: Color)
    ensures
        unpacked(packed(c)) == c,
{
    let (a, r, g, b) = (c.a, c.r, c.g, c.b);
    assert(((((a as u32) << 24u32) | ((r as u32) << 16u32) | ((g as u32) << 8u32) | (b as u32))
        >> 24u32) as u8 == a) by (bit_vector);
    assert(((((a as u32) << 24u32) | ((r as u32) << 16u32) | ((g as u32) << 8u32) | (b as u32))
        >> 16u32) as u8 == r) by (bit_vector);
    assert(((((a as u32) << 24u32) | ((r as u32) << 16u32) | ((g as u32) << 8u32) | (b as u32))
        >> 8u32) as u8 == g) by (bit_vector);
    assert((((a as u32) << 24u32) | ((r as u32) << 16u32) | ((g as u32) << 8u32) | (b as u32))
        as u8 == b) by (bit_vector);
}

/// Packing the channels read out of a value gives back that value.
pub proof fn lemma_pack_unpack(v: u32)
    ensures
        packed(unpacked(v)) == v,
{
    assert(((((v >> 24u32) as u8) as u32) << 24u32) | ((((v >> 16u32) as u8) as u32) << 16u32)
        | ((((v >> 8u32) as u8) as u32) << 8u32) | ((v as u8) as u32) == v) by (bit_vector);
}

} // verus!
