//! The pixel model: four 8-bit channels packed into one 32-bit word.
//!
//! The byte order inside the word is fixed: blue in the lowest byte, then
//! green, red, and alpha in the highest byte.

use vstd::prelude::*;

verus! {

/// The bits of a pixel word that hold colour; the alpha byte is left out.
pub const RGB_MASK: u32 = 0x00ff_ffff;

/// Channel orders in which foreign pixel words may arrive.
#[derive(Debug, Copy, Clone, PartialEq, Eq, Structural)]
pub enum PixelFormat {
    BGRA,
    RGBA,
    ARGB,
    ABGR,
}

/// Names one of the four channels of a pixel.
#[derive(Debug, Copy, Clone, PartialEq, Eq, Structural)]
pub enum ColorChannel {
    R,
    B,
    G,
    A,
}

/// The unpacked form of a pixel.
#[derive(Debug, Copy, Clone, PartialEq, Eq, Structural)]
pub struct Channel {
    pub b: u8,
    pub g: u8,
    pub r: u8,
    pub a: u8,
}

impl Channel {
    /// The channels in the order red, green, blue, alpha.
    pub fn new(r: u8, g: u8, b: u8, a: u8) -> (c: Channel)
        ensures
            c == (Channel { b, g, r, a }),
    {
        Channel { b, g, r, a }
    }

    /// The word that stores these channels.
    pub open spec fn word(self) -> u32 {
        (self.b as int + self.g as int * 0x100 + self.r as int * 0x1_0000 + self.a as int
            * 0x100_0000) as u32
    }

    /// The channel that `c` names.
    pub open spec fn get(self, c: ColorChannel) -> u8 {
        match c {
            ColorChannel::R => self.r,
            ColorChannel::G => self.g,
            ColorChannel::B => self.b,
            ColorChannel::A => self.a,
        }
    }
}

/// A packed pixel. Two pixels are equal when their words are.
#[derive(Debug, Copy, Clone, PartialEq, Eq, Structural)]
pub struct Pixel {
    pub word: u32,
}

impl View for Pixel {
    type V = Channel;

    /// The four channels held in the word.
    open spec fn view(&self) -> Channel {
        Channel {
            b: (self.word as int % 0x100) as u8,
            g: (self.word as int / 0x100 % 0x100) as u8,
            r: (self.word as int / 0x1_0000 % 0x100) as u8,
            a: (self.word as int / 0x100_0000) as u8,
        }
    }
}

/// The pixel that stores the channels `c`.
pub open spec fn packed(c: Channel) -> Pixel {
    Pixel { word: c.word() }
}

/// Unpacking a packed quadruple gives the quadruple back.
pub proof fn lemma_unpack_pack(c: Channel)
    ensures
        (Pixel { word: c.word() })@ == c,
{
    let w: u32 = c.word();
    let (b, g, r, a) = (c.b as u32, c.g as u32, c.r as u32, c.a as u32);
    assert(w == b + g * 0x100 + r * 0x1_0000 + a * 0x100_0000);
    assert(w % 0x100 == b && w / 0x100 % 0x100 == g && w / 0x1_0000 % 0x100 == r && w
        / 0x100_0000 == a) by (bit_vector)
        requires
            w == b + g * 0x100 + r * 0x1_0000 + a * 0x100_0000,
            b < 0x100,
            g < 0x100,
            r < 0x100,
            a < 0x100,
    ;
}

/// Packing the channels of a word gives the word back, so pixels with equal
/// channels are equal.
pub proof fn lemma_pack_unpack(p: Pixel)
    ensures
        p@.word() == p.word,
{
    let w: u32 = p.word;
    assert(w % 0x100 + (w / 0x100 % 0x100) * 0x100 + (w / 0x1_0000 % 0x100) * 0x1_0000 + (w
        / 0x100_0000) * 0x100_0000 == w) by (bit_vector);
}

impl Pixel {
    /// Packs four channels, alpha given.
    pub fn pixel(r: u8, g: u8, b: u8, a: u8) -> (p: Pixel)
        ensures
            p@ == (Channel { b, g, r, a }),
            p == packed(Channel { b, g, r, a }),
    {
        let word: u32 = (b as u32) | ((g as u32) << 8) | ((r as u32) << 16) | ((a as u32) << 24);
        assert(word % 0x100 == b && word / 0x100 % 0x100 == g && word / 0x1_0000 % 0x100 == r
            && word / 0x100_0000 == a) by (bit_vector)
            requires
                word == (b as u32) | ((g as u32) << 8) | ((r as u32) << 16) | ((a as u32) << 24),
        ;
        proof {
            lemma_pack_unpack(Pixel { word });
        }
        Pixel { word }
    }

    /// Packs an opaque colour.
    pub fn color(r: u8, g: u8, b: u8) -> (p: Pixel)
        ensures
            p@ == (Channel { b, g, r, a: 0xff }),
            p == packed(Channel { b, g, r, a: 0xff }),
    {
        Pixel::pixel(r, g, b, 0xff)
    }

    /// Unpacks the four channels.
    pub fn rgba(&self) -> (c: Channel)
        ensures
            c == self@,
    {
        let w = self.word;
        let b = (w & 0xff) as u8;
        let g = ((w >> 8) & 0xff) as u8;
        let r = ((w >> 16) & 0xff) as u8;
        let a = ((w >> 24) & 0xff) as u8;
        assert(w & 0xff == w % 0x100 && (w >> 8) & 0xff == w / 0x100 % 0x100 && (w >> 16) & 0xff
            == w / 0x1_0000 % 0x100 && (w >> 24) & 0xff == w / 0x100_0000) by (bit_vector);
        Channel { b, g, r, a }
    }

    /// Packs already unpacked channels.
    pub fn from_rgba(c: Channel) -> (p: Pixel)
        ensures
            p@ == c,
            p == packed(c),
    {
        Pixel::pixel(c.r, c.g, c.b, c.a)
    }
}

} // verus!
