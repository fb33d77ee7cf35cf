//! The box blur: every pixel becomes a weighted sum of the pixels in a
//! window around it.

use vstd::prelude::*;
use crate::buffer::Buffer;
use crate::pixel::packed;
use crate::pixel::Channel;
use crate::pixel::ColorChannel;
use crate::pixel::Pixel;

verus! {

/// The weight of one pixel along an axis of the window, in fixed point:
/// 256 over the number of pixels that the window is wide. A window of
/// negative radius holds no pixel.
pub open spec fn blur_weight(radius: int) -> int {
    if radius < 0 {
        0
    } else {
        256int / (2 * radius + 1)
    }
}

/// The sum of the channel `ch` over the first `n` pixels of the window row
/// `ky` rows below the cell `(x, y)`. Places outside the grid count as
/// zero.
pub open spec fn row_sum(src: Buffer, ch: ColorChannel, x: int, y: int, rx: int, ky: int, n: nat) -> int
    decreases n,
{
    if n == 0 {
        0
    } else {
        row_sum(src, ch, x, y, rx, ky, (n - 1) as nat) + src.sample(x - rx + (n - 1), y + ky)@.get(ch)
    }
}

/// The number of pixels that a window of the given radius is wide.
pub open spec fn window_len(radius: int) -> nat {
    if radius < 0 {
        0
    } else {
        (2 * radius + 1) as nat
    }
}

/// One whole row of the window, weighted.
pub open spec fn row_part(src: Buffer, ch: ColorChannel, x: int, y: int, rx: int, ky: int) -> int {
    (row_sum(src, ch, x, y, rx, ky, window_len(rx)) * blur_weight(rx)) / 256
}

/// The sum of the weighted rows over the first `n` rows of the window
/// around the cell `(x, y)`.
pub open spec fn window_sum(src: Buffer, ch: ColorChannel, x: int, y: int, rx: int, ry: int, n: nat) -> int
    decreases n,
{
    if n == 0 {
        0
    } else {
        window_sum(src, ch, x, y, rx, ry, (n - 1) as nat) + row_part(
            src,
            ch,
            x,
            y,
            rx,
            -ry + (n - 1),
        )
    }
}

/// The blurred level of the channel `ch` at the cell `(x, y)`.
pub open spec fn blur_level(src: Buffer, ch: ColorChannel, x: int, y: int, rx: int, ry: int) -> int {
    (window_sum(src, ch, x, y, rx, ry, window_len(ry)) * blur_weight(ry)) / 256
}

/// What a blur of `src` makes of a buffer: every cell holds the blurred
/// colour of `src` at its place, opaque.
pub open spec fn blurred(before: Buffer, after: Buffer, src: Buffer, rx: int, ry: int) -> bool {
    &&& after.wf()
    &&& after.same_frame(&before)
    &&& forall|px: int, py: int|
        before.has(px, py) ==> #[trigger] after.at(px, py) == packed(
            Channel {
                r: blur_level(src, ColorChannel::R, px, py, rx, ry) as u8,
                g: blur_level(src, ColorChannel::G, px, py, rx, ry) as u8,
                b: blur_level(src, ColorChannel::B, px, py, rx, ry) as u8,
                a: 0xff,
            },
        )
}

/// A window as wide as its weight allows sums up to no more than one pixel
/// at full level.
pub proof fn lemma_weighted(sum: int, n: int, weight: int)
    requires
        0 <= sum <= 255 * n,
        0 <= n,
        0 <= weight,
        weight * n <= 256,
    ensures
        0 <= sum * weight <= 255 * 256,
        0 <= (sum * weight) / 256 <= 255,
{
    assert(0 <= sum * weight <= 255 * n * weight && 255 * n * weight == 255 * (weight * n))
        by (nonlinear_arith)
        requires
            0 <= sum <= 255 * n,
            0 <= n,
            0 <= weight,
    ;
}

/// The weight of a window times its width is at most 256.
pub proof fn lemma_weight(radius: int)
    ensures
        0 <= blur_weight(radius) <= 256,
        blur_weight(radius) * window_len(radius) <= 256,
{
    if radius >= 0 {
        let d = 2 * radius + 1;
        assert(0 <= 256int / d <= 256 && (256int / d) * d <= 256) by (nonlinear_arith)
            requires
                d >= 1,
        ;
    }
}

/// The sum over `n` pixels of a row is at most `n` pixels at full level.
pub proof fn lemma_row_sum(src: Buffer, ch: ColorChannel, x: int, y: int, rx: int, ky: int, n: nat)
    ensures
        0 <= row_sum(src, ch, x, y, rx, ky, n) <= 255 * n,
    decreases n,
{
    if n > 0 {
        lemma_row_sum(src, ch, x, y, rx, ky, (n - 1) as nat);
    }
}

/// The sum over `n` weighted rows is at most `n` pixels at full level.
pub proof fn lemma_window_sum(src: Buffer, ch: ColorChannel, x: int, y: int, rx: int, ry: int, n: nat)
    ensures
        0 <= window_sum(src, ch, x, y, rx, ry, n) <= 255 * n,
    decreases n,
{
    if n > 0 {
        lemma_window_sum(src, ch, x, y, rx, ry, (n - 1) as nat);
        lemma_row_sum(src, ch, x, y, rx, -ry + (n - 1), window_len(rx));
        lemma_weight(rx);
        lemma_weighted(
            row_sum(src, ch, x, y, rx, -ry + (n - 1), window_len(rx)),
            window_len(rx) as int,
            blur_weight(rx),
        );
    }
}

/// A blurred level is a byte: no blur makes a channel brighter than 255.
pub proof fn lemma_blur_level(src: Buffer, ch: ColorChannel, x: int, y: int, rx: int, ry: int)
    ensures
        0 <= blur_level(src, ch, x, y, rx, ry) <= 255,
{
    lemma_window_sum(src, ch, x, y, rx, ry, window_len(ry));
    lemma_weight(ry);
    lemma_weighted(
        window_sum(src, ch, x, y, rx, ry, window_len(ry)),
        window_len(ry) as int,
        blur_weight(ry),
    );
}

/// The weight of a window, computed.
fn weight_of(radius: i32) -> (w: u64)
    ensures
        w == blur_weight(radius as int),
        w <= 256,
{
    proof {
        lemma_weight(radius as int);
    }
    if radius < 0 {
        0
    } else {
        256 / (2 * radius as u64 + 1)
    }
}

impl Buffer {
    /// The weighted sums of one row of the window around `(x, y)`, for the
    /// three colour channels. Inside `src` the pixels are read directly.
    fn blur_row(&self, x: i32, y: i32, rx: i32, ky: i64, wx: u64, direct: bool) -> (sums: (u64, u64, u64))
        requires
            self.wf(),
            0 <= x < self.w,
            0 <= y < self.h,
            -0x8000_0000 <= ky <= 0x8000_0000,
            wx == blur_weight(rx as int),
            direct ==> rx >= 0 && 0 <= x - rx && x + rx < self.w && 0 <= y + ky < self.h,
        ensures
            sums.0 == row_part(*self, ColorChannel::R, x as int, y as int, rx as int, ky as int),
            sums.1 == row_part(*self, ColorChannel::G, x as int, y as int, rx as int, ky as int),
            sums.2 == row_part(*self, ColorChannel::B, x as int, y as int, rx as int, ky as int),
            sums.0 <= 255 && sums.1 <= 255 && sums.2 <= 255,
    {
        let (mut r2, mut g2, mut b2): (u64, u64, u64) = (0, 0, 0);
        let mut kx: i64 = -(rx as i64);
        let ghost mut n: nat = 0;
        while kx <= rx as i64
            invariant
                self.wf(),
                0 <= x < self.w,
                0 <= y < self.h,
                -0x8000_0000 <= ky <= 0x8000_0000,
                direct ==> rx >= 0 && 0 <= x - rx && x + rx < self.w && 0 <= y + ky < self.h,
                n <= window_len(rx as int),
                kx == -rx + n,
                rx >= 0 || n == 0,
                r2 == row_sum(*self, ColorChannel::R, x as int, y as int, rx as int, ky as int, n),
                g2 == row_sum(*self, ColorChannel::G, x as int, y as int, rx as int, ky as int, n),
                b2 == row_sum(*self, ColorChannel::B, x as int, y as int, rx as int, ky as int, n),
                r2 <= 255 * n && g2 <= 255 * n && b2 <= 255 * n,
            decreases rx - kx + 1,
        {
            let p2: Pixel = if direct {
                self.peek((x as i64 + kx) as i32, (y as i64 + ky) as i32)
            } else {
                self.sample_at(x as i64 + kx, y as i64 + ky)
            };
            let c = p2.rgba();
            r2 += c.r as u64;
            g2 += c.g as u64;
            b2 += c.b as u64;
            kx += 1;
            proof {
                n = n + 1;
            }
        }
        proof {
            lemma_weight(rx as int);
            lemma_weighted(r2 as int, window_len(rx as int) as int, wx as int);
            lemma_weighted(g2 as int, window_len(rx as int) as int, wx as int);
            lemma_weighted(b2 as int, window_len(rx as int) as int, wx as int);
        }
        assert((r2 * wx) as u64 >> 8 == (r2 * wx) as u64 / 256 && (g2 * wx) as u64 >> 8 == (g2
            * wx) as u64 / 256 && (b2 * wx) as u64 >> 8 == (b2 * wx) as u64 / 256) by (bit_vector);
        ((r2 * wx) >> 8, (g2 * wx) >> 8, (b2 * wx) >> 8)
    }

    /// Fills the buffer with a blur of `src`: every pixel becomes the sum
    /// of the pixels of `src` in the window of `radius_x` columns and
    /// `radius_y` rows to each side of it, each weighted by one over the
    /// size of the window, and opaque. Places outside `src` count as black.
    pub fn blur(&mut self, src: &Buffer, radius_x: i32, radius_y: i32)
        requires
            old(self).wf(),
            src.wf(),
            src.w == old(self).w && src.h == old(self).h,
        ensures
            blurred(*old(self), *final(self), *src, radius_x as int, radius_y as int),
    {
        let (w, h) = src.get_size();
        let dx: u64 = weight_of(radius_x);
        let dy: u64 = weight_of(radius_y);
        /* do blur */
        let mut y: i32 = 0;
        while y < self.h
            invariant
                self.wf(),
                src.wf(),
                src.w == self.w && src.h == self.h,
                w == src.w && h == src.h,
                self.same_frame(old(self)),
                0 <= y <= self.h,
                dx == blur_weight(radius_x as int),
                dy == blur_weight(radius_y as int),
                forall|px: int, py: int|
                    self.has(px, py) && py < y ==> #[trigger] self.at(px, py) == packed(
                        Channel {
                            r: blur_level(*src, ColorChannel::R, px, py, radius_x as int, radius_y as int) as u8,
                            g: blur_level(*src, ColorChannel::G, px, py, radius_x as int, radius_y as int) as u8,
                            b: blur_level(*src, ColorChannel::B, px, py, radius_x as int, radius_y as int) as u8,
                            a: 0xff,
                        },
                    ),
            decreases self.h - y,
        {
            let in_bounds_y: bool = radius_y >= 0 && y >= radius_y && (y as i64) < h as i64
                - radius_y as i64;
            let mut x: i32 = 0;
            while x < self.w
                invariant
                    self.wf(),
                    src.wf(),
                    src.w == self.w && src.h == self.h,
                    w == src.w && h == src.h,
                    self.same_frame(old(self)),
                    0 <= y < self.h,
                    0 <= x <= self.w,
                    dx == blur_weight(radius_x as int),
                    dy == blur_weight(radius_y as int),
                    in_bounds_y ==> radius_y >= 0 && 0 <= y - radius_y && y + radius_y < h,
                    forall|px: int, py: int|
                        self.has(px, py) && (py < y || (py == y && px < x)) ==> #[trigger] self.at(
                            px,
                            py,
                        ) == packed(
                            Channel {
                                r: blur_level(*src, ColorChannel::R, px, py, radius_x as int, radius_y as int) as u8,
                                g: blur_level(*src, ColorChannel::G, px, py, radius_x as int, radius_y as int) as u8,
                                b: blur_level(*src, ColorChannel::B, px, py, radius_x as int, radius_y as int) as u8,
                                a: 0xff,
                            },
                        ),
                decreases self.w - x,
            {
                /* are the pixels that will be used in bounds? */
                let in_bounds: bool = in_bounds_y && radius_x >= 0 && x >= radius_x && (x as i64)
                    < w as i64 - radius_x as i64;
                /* blur pixel */
                let (mut r, mut g, mut b): (u64, u64, u64) = (0, 0, 0);
                let mut ky: i64 = -(radius_y as i64);
                let ghost mut n: nat = 0;
                while ky <= radius_y as i64
                    invariant
                        src.wf(),
                        0 <= x < src.w,
                        0 <= y < src.h,
                        w == src.w && h == src.h,
                        dx == blur_weight(radius_x as int),
                        in_bounds ==> radius_x >= 0 && 0 <= x - radius_x && x + radius_x < w
                            && radius_y >= 0 && 0 <= y - radius_y && y + radius_y < h,
                        n <= window_len(radius_y as int),
                        ky == -radius_y + n,
                        radius_y >= 0 || n == 0,
                        r == window_sum(*src, ColorChannel::R, x as int, y as int, radius_x as int, radius_y as int, n),
                        g == window_sum(*src, ColorChannel::G, x as int, y as int, radius_x as int, radius_y as int, n),
                        b == window_sum(*src, ColorChannel::B, x as int, y as int, radius_x as int, radius_y as int, n),
                        r <= 255 * n && g <= 255 * n && b <= 255 * n,
                    decreases radius_y - ky + 1,
                {
                    let (r2, g2, b2) = src.blur_row(x, y, radius_x, ky, dx, in_bounds);
                    r += r2;
                    g += g2;
                    b += b2;
                    ky += 1;
                    proof {
                        n = n + 1;
                    }
                }
                proof {
                    lemma_weight(radius_y as int);
                    lemma_weighted(r as int, window_len(radius_y as int) as int, dy as int);
                    lemma_weighted(g as int, window_len(radius_y as int) as int, dy as int);
                    lemma_weighted(b as int, window_len(radius_y as int) as int, dy as int);
                }
                assert((r * dy) as u64 >> 8 == (r * dy) as u64 / 256 && (g * dy) as u64 >> 8 == (g
                    * dy) as u64 / 256 && (b * dy) as u64 >> 8 == (b * dy) as u64 / 256)
                    by (bit_vector);
                let p = Pixel::pixel(
                    ((r * dy) >> 8) as u8,
                    ((g * dy) >> 8) as u8,
                    ((b * dy) >> 8) as u8,
                    0xff,
                );
                self.put(x, y, p);
                x += 1;
            }
            y += 1;
        }
    }
}

} // verus!
