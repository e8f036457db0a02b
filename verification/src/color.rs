//! Colors: three 8-bit channels, packed into 24 bits of a `u32` as
//! `red << 16 | green << 8 | blue`.

use vstd::prelude::*;

verus! {

/// A representation of a color: red, green and blue channels.
#[derive(Clone, Copy, Debug, PartialEq, Eq, Structural)]
pub struct Color(pub u8, pub u8, pub u8);

// Color implementation
impl Color {
    /// The packed 24-bit value of the color.
    pub open spec fn packed(self) -> u32 {
        ((self.0 as int) * 65536 + (self.1 as int) * 256 + (self.2 as int)) as u32
    }

    /// Instantiate a new color from its red, green and blue values.
    pub fn new(r: u8, g: u8, b: u8) -> (c: Color)
        ensures
            c == (Color(r, g, b)),
    {
        Color(r, g, b)
    }

    /// Instantiate a color from the packed representation: bits 16 to 23
    /// are the red channel, 8 to 15 the green one, 0 to 7 the blue one.
    pub fn from_u8_rgb(u8_rgb: u32) -> (c: Color)
        ensures
            c.0 as int == ((u8_rgb as int) / 65536) % 256,
            c.1 as int == ((u8_rgb as int) / 256) % 256,
            c.2 as int == (u8_rgb as int) % 256,
    {
        let r: u32 = (u8_rgb >> 16) & 255;
        let g: u32 = (u8_rgb >> 8) & 255;
        let b: u32 = u8_rgb & 255;
        proof {
            lemma_unpack_channels(u8_rgb);
        }
        Color(r as u8, g as u8, b as u8)
    }

    /// Convert the color into its packed representation.
    pub fn to_u8_rgb(&self) -> (u: u32)
        ensures
            u == self.packed(),
    {
        let r: u32 = self.0 as u32;
        let g: u32 = self.1 as u32;
        let b: u32 = self.2 as u32;
        proof {
            lemma_pack_channels(r, g, b);
        }
        (r << 16) | (g << 8) | b
    }

    /// Get one of the color's channels, or nothing if the index is not
    /// zero, one or two.
    pub fn get(&self, index: usize) -> (r: Option<u8>)
        ensures
            index == 0 ==> r == Some(self.0),
            index == 1 ==> r == Some(self.1),
            index == 2 ==> r == Some(self.2),
            index >= 3 ==> r is None,
    {
        match index {
            0 => Some(self.0),
            1 => Some(self.1),
            2 => Some(self.2),
            _ => None,
        }
    }

    /// Replace one of the color's channels. Returns whether the index
    /// named a channel.
    pub fn set(&mut self, index: usize, value: u8) -> (r: bool)
        ensures
            r == (index < 3),
            index == 0 ==> *final(self) == (Color(value, old(self).1, old(self).2)),
            index == 1 ==> *final(self) == (Color(old(self).0, value, old(self).2)),
            index == 2 ==> *final(self) == (Color(old(self).0, old(self).1, value)),
            index >= 3 ==> *final(self) == *old(self),
    {
        match index {
            0 => {
                self.0 = value;
                true
            },
            1 => {
                self.1 = value;
                true
            },
            2 => {
                self.2 = value;
                true
            },
            _ => false,
        }
    }
}

/// Shifting and masking a packed color recovers its channels, as the
/// quotient-and-remainder reading of the bit layout.
proof fn lemma_unpack_channels(u: u32)
    by (bit_vector)
    ensures
        ((u >> 16) & 255) as int == ((u as int) / 65536) % 256,
        ((u >> 8) & 255) as int == ((u as int) / 256) % 256,
        (u & 255) as int == (u as int) % 256,
        ((u >> 16) & 255) < 256,
        ((u >> 8) & 255) < 256,
        (u & 255) < 256,
{
}

/// Packing three channels below 256 by shifts is the base-256 sum.
proof fn lemma_pack_channels(r: u32, g: u32, b: u32)
    by (bit_vector)
    requires
        r < 256,
        g < 256,
        b < 256,
    ensures
        ((r << 16) | (g << 8) | b) as int == (r as int) * 65536 + (g as int) * 256 + (b as int),
{
}

/// Unpacking a packed color recovers its channels: the round trip from a
/// color to its packed representation and back is the identity.
pub proof fn lemma_color_round_trip(c: Color)
    ensures
        ((c.packed() as int) / 65536) % 256 == c.0 as int,
        ((c.packed() as int) / 256) % 256 == c.1 as int,
        (c.packed() as int) % 256 == c.2 as int,
{
    let p: int = (c.0 as int) * 65536 + (c.1 as int) * 256 + (c.2 as int);
    assert(c.packed() as int == p);
    assert(p / 65536 == c.0 as int) by (nonlinear_arith)
        requires
            p == (c.0 as int) * 65536 + (c.1 as int) * 256 + (c.2 as int),
            c.1 < 256,
            c.2 < 256,
            c.0 < 256,
    ;
    assert((c.0 as int) % 256 == c.0 as int);
    assert(p / 256 == (c.0 as int) * 256 + (c.1 as int)) by (nonlinear_arith)
        requires
            p == (c.0 as int) * 65536 + (c.1 as int) * 256 + (c.2 as int),
            c.1 < 256,
            c.2 < 256,
    ;
    assert(((c.0 as int) * 256 + (c.1 as int)) % 256 == c.1 as int) by (nonlinear_arith)
        requires
            c.1 < 256,
    ;
    assert(p % 256 == c.2 as int) by (nonlinear_arith)
        requires
            p == (c.0 as int) * 65536 + (c.1 as int) * 256 + (c.2 as int),
            c.2 < 256,
    ;
}

} // verus!
