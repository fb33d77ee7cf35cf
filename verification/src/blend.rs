//! The compositing rule: how one source pixel changes one destination pixel
//! under a draw mode.

use vstd::prelude::*;
use crate::pixel::Channel;
use crate::pixel::Pixel;
use crate::pixel::RGB_MASK;

verus! {

/// The formulas by which source and destination colours combine.
#[derive(Debug, Copy, Clone, PartialEq, Eq, Structural)]
pub enum BlendMode {
    ALPHA,
    COLOR,
    ADD,
    SUBTRACT,
    MULTIPLY,
    LIGHTEN,
    DARKEN,
    SCREEN,
    DIFFERENCE,
}

/// The compositing state of a buffer: tint, blend formula and global alpha.
/// A tint whose word is `RGB_MASK` leaves the source colours alone.
#[derive(Debug, Copy, Clone, PartialEq, Eq, Structural)]
pub struct DrawMode {
    pub color: Pixel,
    pub blend: BlendMode,
    pub alpha: u8,
}

impl DrawMode {
    /// A mode with the given tint, blend formula and global alpha. The tint
    /// is taken as it is, alpha included.
    pub fn new(color: Pixel, blend: BlendMode, alpha: u8) -> (m: DrawMode)
        ensures
            m == (DrawMode { color, blend, alpha }),
    {
        DrawMode { color, blend, alpha }
    }
}

/// An entry of the reciprocal table: the low eight bits of `(a << 8) / b`,
/// and zero in row zero and in column zero.
pub open spec fn div8_entry(a: int, b: int) -> int {
    if a == 0 || b == 0 {
        0
    } else {
        (a * 256 / b) % 256
    }
}

/// The product of two 8-bit fractions, as an 8-bit fraction.
pub open spec fn mul8_spec(a: int, b: int) -> int {
    (a * b) / 256
}

/// The value a fraction `p / 256` of the way from `a` to `b`, rounded down.
pub open spec fn lerp8_spec(a: int, b: int, p: int) -> int {
    a + ((b - a) * p) / 256
}

/// The alpha with which a source pixel acts under a mode.
pub open spec fn effective_alpha(m: DrawMode, s: Channel) -> int {
    mul8_spec(s.a as int, m.alpha as int)
}

/// The source colours after the tint of the mode.
pub open spec fn tinted(m: DrawMode, s: Channel) -> Channel {
    if m.color.word != RGB_MASK {
        Channel {
            r: mul8_spec(s.r as int, m.color@.r as int) as u8,
            g: mul8_spec(s.g as int, m.color@.g as int) as u8,
            b: mul8_spec(s.b as int, m.color@.b as int) as u8,
            a: s.a,
        }
    } else {
        s
    }
}

/// One colour channel under a per-channel formula. The remaining modes do
/// not work channel by channel and keep the source value here.
pub open spec fn mix_channel(blend: BlendMode, d: int, s: int) -> int {
    match blend {
        BlendMode::ADD => if d + s > 255 {
            255
        } else {
            d + s
        },
        BlendMode::SUBTRACT => if d - s < 0 {
            0
        } else {
            d - s
        },
        BlendMode::MULTIPLY => mul8_spec(s, d),
        BlendMode::SCREEN => 255 - mul8_spec(255 - d, 255 - s),
        BlendMode::DIFFERENCE => if s >= d {
            s - d
        } else {
            d - s
        },
        _ => s,
    }
}

/// The sum of the three colour channels.
pub open spec fn brightness(c: Channel) -> int {
    c.r + c.g + c.b
}

/// The candidate pixel: the tinted source `s` after the blend formula of the
/// mode, against the destination `d`.
pub open spec fn mixed(m: DrawMode, d: Channel, s: Channel) -> Channel {
    match m.blend {
        BlendMode::ALPHA => s,
        BlendMode::COLOR => m.color@,
        BlendMode::LIGHTEN => if brightness(s) > brightness(d) {
            s
        } else {
            d
        },
        BlendMode::DARKEN => if brightness(s) < brightness(d) {
            s
        } else {
            d
        },
        _ => Channel {
            r: mix_channel(m.blend, d.r as int, s.r as int) as u8,
            g: mix_channel(m.blend, d.g as int, s.g as int) as u8,
            b: mix_channel(m.blend, d.b as int, s.b as int) as u8,
            a: s.a,
        },
    }
}

/// The alpha of a translucent destination after a translucent write.
pub open spec fn over_alpha(da: int, alpha: int) -> int {
    255 - mul8_spec(255 - da, 255 - alpha)
}

/// One colour channel of a translucent destination after a translucent
/// write: both colours are weighted by their alpha, added, and divided by
/// the new alpha through the reciprocal table.
pub open spec fn over_channel(d: int, s: int, da: int, alpha: int) -> int {
    let z = mul8_spec(da, 255 - alpha);
    div8_entry(mul8_spec(d, z) + mul8_spec(s, alpha), over_alpha(da, alpha))
}

/// The destination after the candidate `s` is written with `alpha`.
pub open spec fn written(d: Channel, s: Channel, alpha: int) -> Channel {
    if alpha >= 254 {
        s
    } else if d.a >= 254 {
        Channel {
            r: lerp8_spec(d.r as int, s.r as int, alpha) as u8,
            g: lerp8_spec(d.g as int, s.g as int, alpha) as u8,
            b: lerp8_spec(d.b as int, s.b as int, alpha) as u8,
            a: d.a,
        }
    } else {
        Channel {
            r: over_channel(d.r as int, s.r as int, d.a as int, alpha) as u8,
            g: over_channel(d.g as int, s.g as int, d.a as int, alpha) as u8,
            b: over_channel(d.b as int, s.b as int, d.a as int, alpha) as u8,
            a: over_alpha(d.a as int, alpha) as u8,
        }
    }
}

/// The destination pixel `d` after the source pixel `s` is composited onto
/// it under the mode `m`.
pub open spec fn blend(m: DrawMode, d: Pixel, s: Pixel) -> Pixel {
    if effective_alpha(m, s@) <= 1 {
        d
    } else {
        Pixel { word: written(d@, mixed(m, d@, tinted(m, s@)), effective_alpha(m, s@)).word() }
    }
}

/// A product of two bytes, shifted down by eight bits, is a byte again.
pub proof fn lemma_mul8_range(a: int, b: int)
    requires
        0 <= a <= 255,
        0 <= b <= 255,
    ensures
        0 <= a * b <= 255 * 255,
        0 <= mul8_spec(a, b) <= 254,
        mul8_spec(a, b) <= a,
        mul8_spec(a, b) <= b,
        a > 0 ==> mul8_spec(a, b) < a,
        b > 0 ==> mul8_spec(a, b) < b,
{
    assert(0 <= a * b <= 255 * 255 && a * b <= 255 * a && a * b <= 255 * b) by (nonlinear_arith)
        requires
            0 <= a <= 255,
            0 <= b <= 255,
    ;
}

/// An interpolated value lies between its two ends.
pub proof fn lemma_lerp8_range(a: int, b: int, p: int)
    requires
        0 <= a <= 255,
        0 <= b <= 255,
        0 <= p <= 255,
    ensures
        a <= b ==> a <= lerp8_spec(a, b, p) <= b,
        b <= a ==> b <= lerp8_spec(a, b, p) <= a,
{
    if a <= b {
        assert(0 <= (b - a) * p <= (b - a) * 255) by (nonlinear_arith)
            requires
                a <= b,
                0 <= p <= 255,
        ;
    } else {
        assert((b - a) * 255 <= (b - a) * p <= 0) by (nonlinear_arith)
            requires
                b < a,
                0 <= p <= 255,
        ;
    }
}

/// Multiplies two 8-bit fractions.
pub fn mul8(a: u8, b: u8) -> (r: u8)
    ensures
        r == mul8_spec(a as int, b as int),
{
    proof {
        lemma_mul8_range(a as int, b as int);
    }
    let x: u32 = a as u32 * b as u32;
    assert(x >> 8 == x / 256) by (bit_vector);
    (x >> 8) as u8
}

/// Interpolates from `a` to `b` by the fraction `p / 256`.
pub fn lerp8(a: u8, b: u8, p: u8) -> (r: u8)
    ensures
        r == lerp8_spec(a as int, b as int, p as int),
{
    proof {
        lemma_lerp8_range(a as int, b as int, p as int);
        assert(-255 * 255 <= (b - a) * p <= 255 * 255) by (nonlinear_arith)
            requires
                -255 <= b - a <= 255,
                0 <= p <= 255,
        ;
    }
    let x: i32 = (b as i32 - a as i32) * p as i32;
    assert(x >> 8 == x as int / 256) by (bit_vector);
    (a as i32 + (x >> 8)) as u8
}

/// Looks up the reciprocal table without building it.
pub fn div8(a: u8, b: u8) -> (q: u8)
    ensures
        q == div8_entry(a as int, b as int),
        b == 0 ==> q == 0,
        1 <= a < b ==> q == (a * 256) / (b as int),
{
    proof {
        lemma_div8_entry(a as int, b as int);
    }
    if a == 0 || b == 0 {
        0
    } else {
        let n: u32 = (a as u32) << 8;
        assert(n == a as u32 * 256) by (bit_vector)
            requires
                n == (a as u32) << 8,
        ;
        let q: u32 = n / (b as u32);
        assert(q & 0xff == q % 256) by (bit_vector);
        (q & 0xff) as u8
    }
}

/// Applies the blend formula of `m` to the tinted source `s`.
fn mix(m: &DrawMode, d: Channel, s: Channel) -> (c: Channel)
    ensures
        c == mixed(*m, d, s),
{
    match m.blend {
        BlendMode::ALPHA => s,
        BlendMode::COLOR => m.color.rgba(),
        BlendMode::ADD => Channel {
            r: if d.r as u32 + s.r as u32 > 255 { 255 } else { d.r + s.r },
            g: if d.g as u32 + s.g as u32 > 255 { 255 } else { d.g + s.g },
            b: if d.b as u32 + s.b as u32 > 255 { 255 } else { d.b + s.b },
            a: s.a,
        },
        BlendMode::SUBTRACT => Channel {
            r: if d.r < s.r { 0 } else { d.r - s.r },
            g: if d.g < s.g { 0 } else { d.g - s.g },
            b: if d.b < s.b { 0 } else { d.b - s.b },
            a: s.a,
        },
        BlendMode::MULTIPLY => Channel {
            r: mul8(s.r, d.r),
            g: mul8(s.g, d.g),
            b: mul8(s.b, d.b),
            a: s.a,
        },
        BlendMode::LIGHTEN => {
            if s.r as u32 + s.g as u32 + s.b as u32 > d.r as u32 + d.g as u32 + d.b as u32 {
                s
            } else {
                d
            }
        },
        BlendMode::DARKEN => {
            if (s.r as u32 + s.g as u32 + s.b as u32) < d.r as u32 + d.g as u32 + d.b as u32 {
                s
            } else {
                d
            }
        },
        BlendMode::SCREEN => Channel {
            r: 0xff - mul8(0xff - d.r, 0xff - s.r),
            g: 0xff - mul8(0xff - d.g, 0xff - s.g),
            b: 0xff - mul8(0xff - d.b, 0xff - s.b),
            a: s.a,
        },
        BlendMode::DIFFERENCE => Channel {
            r: if s.r >= d.r { s.r - d.r } else { d.r - s.r },
            g: if s.g >= d.g { s.g - d.g } else { d.g - s.g },
            b: if s.b >= d.b { s.b - d.b } else { d.b - s.b },
            a: s.a,
        },
    }
}

/// The weighted colours of a translucent write add up to a table row.
pub proof fn lemma_over_index(d: int, s: int, da: int, alpha: int)
    requires
        0 <= d <= 255,
        0 <= s <= 255,
        0 <= da <= 255,
        1 <= alpha <= 255,
    ensures
        0 <= mul8_spec(d, mul8_spec(da, 255 - alpha)) + mul8_spec(s, alpha) <= 255,
        0 <= over_alpha(da, alpha) <= 255,
{
    lemma_mul8_range(da, 255 - alpha);
    lemma_mul8_range(d, mul8_spec(da, 255 - alpha));
    lemma_mul8_range(s, alpha);
    lemma_mul8_range(255 - da, 255 - alpha);
}

/// One colour channel of a translucent write onto a translucent destination.
fn over(d: u8, s: u8, da: u8, alpha: u8) -> (r: u8)
    requires
        1 <= alpha,
    ensures
        r == over_channel(d as int, s as int, da as int, alpha as int),
{
    proof {
        lemma_over_index(d as int, s as int, da as int, alpha as int);
    }
    let a: u8 = 0xff - mul8(0xff - da, 0xff - alpha);
    let z: u8 = mul8(da, 0xff - alpha);
    div8(mul8(d, z) + mul8(s, alpha), a)
}

/// Composites the source pixel `s` onto the destination pixel `d`.
///
/// A source whose effective alpha is 0 or 1 changes nothing. One whose
/// effective alpha is 254 or 255 replaces the destination by the candidate
/// pixel, alpha included. In between, an opaque destination moves toward the
/// candidate and stays opaque, and a translucent one is composited with it.
pub fn blend_pixel(m: &DrawMode, d: &mut Pixel, s: Pixel)
    ensures
        *final(d) == blend(*m, *old(d), s),
        effective_alpha(*m, s@) <= 1 ==> *final(d) == *old(d),
        effective_alpha(*m, s@) >= 254 ==> final(d)@ == mixed(*m, old(d)@, tinted(*m, s@)),
{
    let mut sc = s.rgba();
    let dc = d.rgba();
    let alpha = mul8(sc.a, m.alpha);
    if alpha <= 1 {
        return ;
    }
    if m.color.word != RGB_MASK {
        let tint = m.color.rgba();
        sc = Channel { r: mul8(sc.r, tint.r), g: mul8(sc.g, tint.g), b: mul8(sc.b, tint.b), a: sc.a };
    }
    let sc = mix(m, dc, sc);
    let out = if alpha >= 254 {
        sc
    } else if dc.a >= 254 {
        Channel {
            r: lerp8(dc.r, sc.r, alpha),
            g: lerp8(dc.g, sc.g, alpha),
            b: lerp8(dc.b, sc.b, alpha),
            a: dc.a,
        }
    } else {
        Channel {
            r: over(dc.r, sc.r, dc.a, alpha),
            g: over(dc.g, sc.g, dc.a, alpha),
            b: over(dc.b, sc.b, dc.a, alpha),
            a: 0xff - mul8(0xff - dc.a, 0xff - alpha),
        }
    };
    *d = Pixel::from_rgba(out);
    proof {
        crate::pixel::lemma_pack_unpack(*d);
    }
}

/// A source whose effective alpha is at most 1 leaves every destination as
/// it is, whatever the blend mode.
pub proof fn lemma_blend_transparent(m: DrawMode, d: Pixel, s: Pixel)
    requires
        effective_alpha(m, s@) <= 1,
    ensures
        blend(m, d, s) == d,
{
}

/// A source whose effective alpha is at least 254 makes the destination the
/// candidate pixel: the tinted source after the blend formula.
pub proof fn lemma_blend_opaque(m: DrawMode, d: Pixel, s: Pixel)
    requires
        effective_alpha(m, s@) >= 254,
    ensures
        blend(m, d, s)@ == mixed(m, d@, tinted(m, s@)),
        blend(m, d, s).word == mixed(m, d@, tinted(m, s@)).word(),
{
    crate::pixel::lemma_unpack_pack(mixed(m, d@, tinted(m, s@)));
}

/// Where the quotient fits in eight bits the reciprocal table holds
/// `(a << 8) / b` itself; in general it holds the low eight bits of it, and
/// zero in column zero.
pub proof fn lemma_div8_entry(a: int, b: int)
    requires
        0 <= a <= 255,
        0 <= b <= 255,
    ensures
        b == 0 ==> div8_entry(a, b) == 0,
        b >= 1 ==> div8_entry(a, b) == (a * 256 / b) % 256,
        1 <= a < b ==> div8_entry(a, b) == a * 256 / b,
{
    if 1 <= a < b {
        assert(0 <= a * 256 / b < 256) by (nonlinear_arith)
            requires
                1 <= a < b,
        ;
    }
}

/// Builds the reciprocal table: 256 rows of 256 entries, row `a` and column
/// `b` holding `div8_entry(a, b)`.
pub fn div8_table() -> (t: Vec<Vec<u8>>)
    ensures
        t@.len() == 256,
        forall|a: int| 0 <= a < 256 ==> (#[trigger] t@[a])@.len() == 256,
        forall|a: int, b: int|
            0 <= a < 256 && 0 <= b < 256 ==> #[trigger] t@[a]@[b] == div8_entry(a, b),
        forall|a: int| 0 <= a < 256 ==> (#[trigger] t@[a])@[0] == 0,
        forall|a: int, b: int|
            1 <= a < b < 256 ==> #[trigger] t@[a]@[b] == (a * 256) / b,
{
    let mut t: Vec<Vec<u8>> = Vec::new();
    let mut a: usize = 0;
    while a < 256
        invariant
            a <= 256,
            t@.len() == a,
            forall|i: int| 0 <= i < a ==> (#[trigger] t@[i])@.len() == 256,
            forall|i: int, j: int|
                0 <= i < a && 0 <= j < 256 ==> #[trigger] t@[i]@[j] == div8_entry(i, j),
        decreases 256 - a,
    {
        let mut row: Vec<u8> = Vec::new();
        let mut b: usize = 0;
        while b < 256
            invariant
                a < 256,
                b <= 256,
                row@.len() == b,
                forall|j: int| 0 <= j < b ==> #[trigger] row@[j] == div8_entry(a as int, j),
            decreases 256 - b,
        {
            row.push(div8(a as u8, b as u8));
            b += 1;
        }
        t.push(row);
        a += 1;
    }
    proof {
        assert forall|a: int, b: int| 1 <= a < b < 256 implies #[trigger] t@[a]@[b] == (a * 256)
            / b by {
            lemma_div8_entry(a, b);
        }
    }
    t
}

} // verus!
