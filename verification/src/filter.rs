//! Filters that work on every pixel of a buffer by itself: noise,
//! desaturation, channel masks, palettes and dissolving.

use vstd::prelude::*;
use crate::blend::lerp8;
use crate::blend::lerp8_spec;
use crate::blend::mul8;
use crate::blend::mul8_spec;
use crate::buffer::word_byte;
use crate::buffer::Buffer;
use crate::pixel::packed;
use crate::pixel::Channel;
use crate::pixel::ColorChannel;
use crate::pixel::Pixel;
use crate::rand::RandState;

verus! {

/// The lower bound that the noise filter works with: at most 254.
pub open spec fn noise_low(low: u8) -> u8 {
    if low > 0xfe {
        0xfe
    } else {
        low
    }
}

/// The upper bound that the noise filter works with: above the lower bound.
pub open spec fn noise_high(low: u8, high: u8) -> u8 {
    if high >= noise_low(low) + 1 {
        high
    } else {
        (noise_low(low) + 1) as u8
    }
}

/// A random byte brought into the range from `low` up to, but not
/// including, `high`.
pub open spec fn noise_level(byte: u8, low: u8, high: u8) -> u8 {
    (noise_low(low) + byte % ((noise_high(low, high) - noise_low(low)) as u8)) as u8
}

/// The opaque pixel that the noise filter makes of the random number `r`:
/// grey from its lowest byte, or coloured with one byte for each colour
/// channel.
pub open spec fn noise_pixel(r: u32, low: u8, high: u8, grey: bool) -> Pixel {
    if grey {
        let v = noise_level(word_byte(r, 0), low, high);
        packed(Channel { r: v, g: v, b: v, a: 0xff })
    } else {
        packed(
            Channel {
                r: noise_level(word_byte(r, 2), low, high),
                g: noise_level(word_byte(r, 1), low, high),
                b: noise_level(word_byte(r, 0), low, high),
                a: 0xff,
            },
        )
    }
}

/// The mean of the three colour channels, in fixed point: their sum times
/// 341 / 1024.
pub open spec fn grey_level(c: Channel) -> int {
    ((c.r + c.g + c.b) * 341) / 1024
}

/// The channels `c` with their colour moved toward grey by `amount`; from
/// 254 on the colour is the grey itself.
pub open spec fn desaturated(c: Channel, amount: u8) -> Channel {
    let avg = grey_level(c);
    if amount >= 0xfe {
        Channel { r: avg as u8, g: avg as u8, b: avg as u8, a: c.a }
    } else {
        Channel {
            r: lerp8_spec(c.r as int, avg, amount as int) as u8,
            g: lerp8_spec(c.g as int, avg, amount as int) as u8,
            b: lerp8_spec(c.b as int, avg, amount as int) as u8,
            a: c.a,
        }
    }
}

/// The channels `c` with the channel `ch` multiplied by the same channel of
/// the mask `m`.
pub open spec fn masked(c: Channel, m: Channel, ch: ColorChannel) -> Channel {
    match ch {
        ColorChannel::R => Channel { r: mul8_spec(c.r as int, m.r as int) as u8, ..c },
        ColorChannel::G => Channel { g: mul8_spec(c.g as int, m.g as int) as u8, ..c },
        ColorChannel::B => Channel { b: mul8_spec(c.b as int, m.b as int) as u8, ..c },
        ColorChannel::A => Channel { a: mul8_spec(c.a as int, m.a as int) as u8, ..c },
    }
}

/// The brightest colour channel.
pub open spec fn brightest(c: Channel) -> u8 {
    if c.r >= c.b && c.r >= c.g {
        c.r
    } else if c.b >= c.g {
        c.b
    } else {
        c.g
    }
}

/// The palette entry that stands for the brightness `level`, for a palette
/// of `n` colours: the levels from 0 to 255 are spread evenly over the
/// entries.
pub open spec fn palette_index(level: int, n: int) -> int {
    (level * n) / 256
}

/// The channels `c` with their colour taken from the palette.
pub open spec fn paletted(c: Channel, palette: Seq<Pixel>) -> Channel {
    let e = palette[palette_index(brightest(c) as int, palette.len() as int)]@;
    Channel { r: e.r, g: e.g, b: e.b, a: c.a }
}

/// The next state of the 64-bit xorshift generator.
pub open spec fn xorshift64_next(x: u64) -> u64 {
    let a = x ^ (x >> 12);
    let b = a ^ (a << 25);
    b ^ (b >> 27)
}

/// The number that the generator hands out in the state `x`.
pub open spec fn xorshift64_out(x: u64) -> u64 {
    x.wrapping_mul(2685821657736338717u64)
}

/// The state of the generator after `n` numbers are drawn from `x`.
pub open spec fn xorshift64_after(x: u64, n: nat) -> u64
    decreases n,
{
    if n == 0 {
        x
    } else {
        xorshift64_next(xorshift64_after(x, (n - 1) as nat))
    }
}

/// The state that the dissolve filter starts its generator in.
pub open spec fn dissolve_seed(seed: u32) -> u64 {
    0x1_0000_0000u64 | seed as u64
}

/// The channels `c` after a draw `r` of the dissolve filter: transparent
/// where `amount` is above the lowest byte of `r`.
pub open spec fn dissolved(c: Channel, amount: u8, r: u64) -> Channel {
    if amount as u64 > r & 0xff {
        Channel { a: 0, ..c }
    } else {
        c
    }
}

impl Buffer {
    /// Picks the channel that `c` names.
    pub fn get_channel(px: Pixel, c: ColorChannel) -> (v: u8)
        ensures
            v == px@.get(c),
    {
        let ch = px.rgba();
        match c {
            ColorChannel::R => ch.r,
            ColorChannel::G => ch.g,
            ColorChannel::B => ch.b,
            ColorChannel::A => ch.a,
        }
    }

    /// Whether two buffers have the same size.
    pub fn check_buffer_size(a: &Buffer, b: &Buffer) -> (same: bool)
        ensures
            same == (a.w == b.w && a.h == b.h),
    {
        a.w == b.w && a.h == b.h
    }

    /// Advances the 64-bit xorshift generator and hands out its next number.
    pub fn xorshift64star(x: &mut u64) -> (r: u64)
        ensures
            *final(x) == xorshift64_next(*old(x)),
            r == xorshift64_out(*final(x)),
    {
        *x = *x ^ (*x >> 12);
        *x = *x ^ (*x << 25);
        *x = *x ^ (*x >> 27);
        (*x).wrapping_mul(2685821657736338717u64)
    }

    /// Fills the buffer with opaque noise from a generator seeded with
    /// `seed`: grey levels, or colours with an independent level for each
    /// channel. The levels lie from `low` up to, but not including, `high`;
    /// `low` is at most 254 and `high` is raised above `low` where it is
    /// not.
    pub fn noise(&mut self, seed: u32, low: u8, high: u8, grey: bool)
        requires
            old(self).wf(),
        ensures
            final(self).wf(),
            final(self).same_frame(old(self)),
            forall|i: int|
                0 <= i < final(self).pixels@.len() ==> #[trigger] final(self).pixels@[i]
                    == noise_pixel(
                    RandState::seeded(seed).after((i + 1) as nat).w,
                    low,
                    high,
                    grey,
                ),
    {
        let mut s = RandState::new(seed);
        let lo: u8 = if low > 0xfe { 0xfe } else { low };
        let hi: u8 = if high >= lo + 1 { high } else { lo + 1 };
        let span: u8 = hi - lo;
        let n: usize = self.pixels.len();
        let mut i: usize = 0;
        while i < n
            invariant
                self.wf(),
                self.same_frame(old(self)),
                n == self.pixels@.len(),
                i <= n,
                lo == noise_low(low),
                hi == noise_high(low, high),
                span == hi - lo,
                span >= 1,
                s == RandState::seeded(seed).after(i as nat),
                forall|j: int|
                    0 <= j < i ==> #[trigger] self.pixels@[j] == noise_pixel(
                        RandState::seeded(seed).after((j + 1) as nat).w,
                        low,
                        high,
                        grey,
                    ),
            decreases n - i,
        {
            let r: u32 = s.rand();
            assert(r & 0xff == r % 0x100 && (r >> 8) & 0xff == r / 0x100 % 0x100 && (r >> 16)
                & 0xff == r / 0x1_0000 % 0x100) by (bit_vector);
            let b0: u8 = (r & 0xff) as u8;
            let b1: u8 = ((r >> 8) & 0xff) as u8;
            let b2: u8 = ((r >> 16) & 0xff) as u8;
            let p = if grey {
                let v: u8 = lo + b0 % span;
                Pixel::pixel(v, v, v, 0xff)
            } else {
                Pixel::pixel(lo + b2 % span, lo + b1 % span, lo + b0 % span, 0xff)
            };
            self.pixels.set(i, p);
            i += 1;
        }
    }

    /// Moves the colour of every pixel toward its grey level by `amount`.
    pub fn desaturate(&mut self, amount: u8)
        requires
            old(self).wf(),
        ensures
            final(self).wf(),
            final(self).same_frame(old(self)),
            forall|i: int|
                0 <= i < final(self).pixels@.len() ==> #[trigger] final(self).pixels@[i] == packed(
                    desaturated(old(self).pixels@[i]@, amount),
                ),
    {
        let n: usize = self.pixels.len();
        let mut i: usize = 0;
        while i < n
            invariant
                self.wf(),
                self.same_frame(old(self)),
                n == self.pixels@.len(),
                n == old(self).pixels@.len(),
                i <= n,
                forall|j: int|
                    0 <= j < i ==> #[trigger] self.pixels@[j] == packed(
                        desaturated(old(self).pixels@[j]@, amount),
                    ),
                forall|j: int| i <= j < n ==> #[trigger] self.pixels@[j] == old(self).pixels@[j],
            decreases n - i,
        {
            let c = self.pixels[i].rgba();
            let sum: u32 = (c.r as u32 + c.g as u32 + c.b as u32) * 341;
            assert(sum >> 10 == sum / 1024) by (bit_vector);
            let avg: u8 = (sum >> 10) as u8;
            let out = if amount >= 0xfe {
                /* full amount? don't bother with pixel lerping, just write pixel avg */
                Channel { r: avg, g: avg, b: avg, a: c.a }
            } else {
                Channel {
                    r: lerp8(c.r, avg, amount),
                    g: lerp8(c.g, avg, amount),
                    b: lerp8(c.b, avg, amount),
                    a: c.a,
                }
            };
            self.pixels.set(i, Pixel::from_rgba(out));
            i += 1;
        }
    }

    /// Multiplies one channel of every pixel by the same channel of the
    /// pixel at the same place in `mask`; the alpha channel where none is
    /// named.
    pub fn mask(&mut self, mask: &Buffer, channel: Option<ColorChannel>)
        requires
            old(self).wf(),
            mask.wf(),
            mask.w == old(self).w,
            mask.h == old(self).h,
        ensures
            final(self).wf(),
            final(self).same_frame(old(self)),
            forall|i: int|
                0 <= i < final(self).pixels@.len() ==> #[trigger] final(self).pixels@[i] == packed(
                    masked(
                        old(self).pixels@[i]@,
                        mask.pixels@[i]@,
                        match channel {
                            Some(ch) => ch,
                            None => ColorChannel::A,
                        },
                    ),
                ),
    {
        let channel = match channel {
            Some(ch) => ch,
            None => ColorChannel::A,
        };
        let n: usize = self.pixels.len();
        let mut i: usize = 0;
        while i < n
            invariant
                self.wf(),
                self.same_frame(old(self)),
                n == self.pixels@.len(),
                n == old(self).pixels@.len(),
                n == mask.pixels@.len(),
                i <= n,
                forall|j: int|
                    0 <= j < i ==> #[trigger] self.pixels@[j] == packed(
                        masked(old(self).pixels@[j]@, mask.pixels@[j]@, channel),
                    ),
                forall|j: int| i <= j < n ==> #[trigger] self.pixels@[j] == old(self).pixels@[j],
            decreases n - i,
        {
            let c = self.pixels[i].rgba();
            let m = mask.pixels[i].rgba();
            let out = match channel {
                ColorChannel::R => Channel { r: mul8(c.r, m.r), g: c.g, b: c.b, a: c.a },
                ColorChannel::G => Channel { r: c.r, g: mul8(c.g, m.g), b: c.b, a: c.a },
                ColorChannel::B => Channel { r: c.r, g: c.g, b: mul8(c.b, m.b), a: c.a },
                ColorChannel::A => Channel { r: c.r, g: c.g, b: c.b, a: mul8(c.a, m.a) },
            };
            self.pixels.set(i, Pixel::from_rgba(out));
            i += 1;
        }
    }

    /// Replaces the colour of every pixel by the palette entry that stands
    /// for the level of its brightest channel; the alpha stays. The palette
    /// has to hold a colour.
    pub fn palette(&mut self, palette: &[Pixel])
        requires
            old(self).wf(),
            palette@.len() > 0,
        ensures
            final(self).wf(),
            final(self).same_frame(old(self)),
            forall|i: int|
                0 <= i < final(self).pixels@.len() ==> #[trigger] final(self).pixels@[i] == packed(
                    paletted(old(self).pixels@[i]@, palette@),
                ),
    {
        let ncolors: usize = palette.len();
        /* load palette from table */
        let mut pal: Vec<Pixel> = Vec::new();
        let mut k: usize = 0;
        while k < 256
            invariant
                k <= 256,
                pal@.len() == k,
                ncolors == palette@.len(),
                ncolors > 0,
                forall|j: int|
                    0 <= j < k ==> #[trigger] pal@[j] == palette@[palette_index(j, ncolors as int)],
            decreases 256 - k,
        {
            assert(0 <= k * ncolors <= 255 * ncolors && (k * ncolors) / 256 < ncolors)
                by (nonlinear_arith)
                requires
                    0 <= k <= 255,
                    ncolors > 0,
            ;
            let at: u128 = (k as u128 * ncolors as u128) / 256;
            pal.push(palette[at as usize]);
            k += 1;
        }
        /* convert each pixel to palette color based on its brightest channel */
        let n: usize = self.pixels.len();
        let mut i: usize = 0;
        while i < n
            invariant
                self.wf(),
                self.same_frame(old(self)),
                n == self.pixels@.len(),
                n == old(self).pixels@.len(),
                i <= n,
                pal@.len() == 256,
                forall|j: int|
                    0 <= j < 256 ==> #[trigger] pal@[j] == palette@[palette_index(
                        j,
                        palette@.len() as int,
                    )],
                forall|j: int|
                    0 <= j < i ==> #[trigger] self.pixels@[j] == packed(
                        paletted(old(self).pixels@[j]@, palette@),
                    ),
                forall|j: int| i <= j < n ==> #[trigger] self.pixels@[j] == old(self).pixels@[j],
            decreases n - i,
        {
            let c = self.pixels[i].rgba();
            let idx: u8 = if c.r >= c.b && c.r >= c.g {
                c.r
            } else if c.b >= c.g {
                c.b
            } else {
                c.g
            };
            let e = pal[idx as usize].rgba();
            self.pixels.set(i, Pixel::from_rgba(Channel { r: e.r, g: e.g, b: e.b, a: c.a }));
            i += 1;
        }
    }

    /// Makes pixels transparent at random: each pixel with the chance
    /// `amount / 256`, decided by a generator seeded with `seed`.
    pub fn dissolve(&mut self, amount: u8, seed: u32)
        requires
            old(self).wf(),
        ensures
            final(self).wf(),
            final(self).same_frame(old(self)),
            forall|i: int|
                0 <= i < final(self).pixels@.len() ==> #[trigger] final(self).pixels@[i] == packed(
                    dissolved(
                        old(self).pixels@[i]@,
                        amount,
                        xorshift64_out(xorshift64_after(dissolve_seed(seed), (i + 1) as nat)),
                    ),
                ),
    {
        let mut state: u64 = (1u64 << 32) | seed as u64;
        assert(1u64 << 32 == 0x1_0000_0000u64) by (bit_vector);
        let n: usize = self.pixels.len();
        let mut i: usize = 0;
        while i < n
            invariant
                self.wf(),
                self.same_frame(old(self)),
                n == self.pixels@.len(),
                n == old(self).pixels@.len(),
                i <= n,
                state == xorshift64_after(dissolve_seed(seed), i as nat),
                forall|j: int|
                    0 <= j < i ==> #[trigger] self.pixels@[j] == packed(
                        dissolved(
                            old(self).pixels@[j]@,
                            amount,
                            xorshift64_out(xorshift64_after(dissolve_seed(seed), (j + 1) as nat)),
                        ),
                    ),
                forall|j: int| i <= j < n ==> #[trigger] self.pixels@[j] == old(self).pixels@[j],
            decreases n - i,
        {
            let r: u64 = Buffer::xorshift64star(&mut state);
            let c = self.pixels[i].rgba();
            let out = if amount as u64 > (r & 0xff) {
                Channel { r: c.r, g: c.g, b: c.b, a: 0 }
            } else {
                c
            };
            self.pixels.set(i, Pixel::from_rgba(out));
            i += 1;
        }
    }
}

} // verus!
