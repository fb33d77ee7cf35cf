//! The pixel buffer: a grid of pixels with a clip rectangle and a draw mode.

use vstd::prelude::*;
use crate::blend::blend;
use crate::blend::blend_pixel;
use crate::blend::BlendMode;
use crate::blend::DrawMode;
use crate::pixel::Channel;
use crate::pixel::Pixel;
use crate::pixel::PixelFormat;
use crate::pixel::RGB_MASK;
use crate::rect::clip_rect;
use crate::rect::clipped;
use crate::rect::Rect;

verus! {

/// A grid of `w` by `h` pixels, stored row by row, with the rectangle that
/// drawing is confined to and the mode that drawing composites with.
#[derive(Debug)]
pub struct Buffer {
    pub mode: DrawMode,
    pub clip: Rect,
    pub pixels: Vec<Pixel>,
    pub w: i32,
    pub h: i32,
}

/// Opaque black, the colour of a fresh buffer.
pub open spec fn black() -> Pixel {
    Pixel { word: 0xff00_0000 }
}

/// The mode of a fresh buffer: no tint, plain alpha blending, full alpha.
pub open spec fn plain_mode() -> DrawMode {
    DrawMode { color: Pixel { word: RGB_MASK }, blend: BlendMode::ALPHA, alpha: 0xff }
}

/// In a grid `w` wide, a cell inside a grid of `h` rows has its place inside
/// the row-major storage.
pub proof fn lemma_cell_index(x: int, y: int, w: int, h: int)
    requires
        0 <= x < w,
        0 <= y < h,
    ensures
        0 <= y * w <= (h - 1) * w,
        0 <= x + y * w < w * h,
{
    assert(0 <= y * w <= (h - 1) * w && (h - 1) * w + w == w * h) by (nonlinear_arith)
        requires
            0 <= x < w,
            0 <= y < h,
    ;
}

/// Two cells of a row-major grid that share their place are the same cell.
pub proof fn lemma_cell_unique(x1: int, y1: int, x2: int, y2: int, w: int)
    requires
        0 <= x1 < w,
        0 <= x2 < w,
        x1 + y1 * w == x2 + y2 * w,
    ensures
        x1 == x2,
        y1 == y2,
{
    assert(y1 == y2) by (nonlinear_arith)
        requires
            0 <= x1 < w,
            0 <= x2 < w,
            x1 + y1 * w == x2 + y2 * w,
    ;
}

impl Buffer {
    /// The invariant of a buffer: at least one pixel, storage of exactly
    /// `w * h` pixels, and a clip rectangle inside the grid.
    pub open spec fn wf(&self) -> bool {
        &&& self.w >= 1
        &&& self.h >= 1
        &&& self.w * self.h <= i32::MAX
        &&& self.pixels@.len() == self.w * self.h
        &&& self.clip.within(self.w as int, self.h as int)
    }

    /// Whether `(x, y)` is a cell of the grid.
    pub open spec fn has(&self, x: int, y: int) -> bool {
        0 <= x < self.w && 0 <= y < self.h
    }

    /// The pixel in column `x` of row `y`.
    pub open spec fn at(&self, x: int, y: int) -> Pixel
        recommends
            self.has(x, y),
    {
        self.pixels@[x + y * self.w]
    }

    /// The whole grid as a rectangle.
    pub open spec fn bounds(&self) -> Rect {
        Rect { x: 0, y: 0, w: self.w, h: self.h }
    }

    /// Whether the rectangle `sub` selects cells of this buffer only. A
    /// rectangle without area selects none, wherever it lies to the right
    /// of and below the origin.
    pub open spec fn holds(&self, sub: Rect) -> bool {
        &&& 0 <= sub.x
        &&& 0 <= sub.y
        &&& sub.x + sub.w <= self.w
        &&& sub.y + sub.h <= self.h
    }

    /// Whether two buffers have the same size, clip rectangle and mode.
    pub open spec fn same_frame(&self, other: &Buffer) -> bool {
        &&& self.w == other.w
        &&& self.h == other.h
        &&& self.clip == other.clip
        &&& self.mode == other.mode
    }

    /// Checks the invariant at run time.
    pub fn is_valid(&self) -> (ok: bool)
        ensures
            ok == self.wf(),
    {
        if self.w < 1 || self.h < 1 {
            return false;
        }
        assert(1 <= self.w * self.h <= 0x7fff_ffff * 0x7fff_ffff) by (nonlinear_arith)
            requires
                1 <= self.w <= 0x7fff_ffff,
                1 <= self.h <= 0x7fff_ffff,
        ;
        let n: i64 = self.w as i64 * self.h as i64;
        if n > i32::MAX as i64 {
            return false;
        }
        if self.pixels.len() as u64 != n as u64 {
            return false;
        }
        let c = self.clip;
        c.x >= 0 && c.y >= 0 && c.w >= 0 && c.h >= 0 && (c.w == 0 || c.x as i64 + c.w as i64
            <= self.w as i64) && (c.h == 0 || c.y as i64 + c.h as i64 <= self.h as i64)
    }

    /// Reads a cell known to exist.
    pub(crate) fn peek(&self, x: i32, y: i32) -> (p: Pixel)
        requires
            self.wf(),
            self.has(x as int, y as int),
        ensures
            p == self.at(x as int, y as int),
    {
        proof {
            lemma_cell_index(x as int, y as int, self.w as int, self.h as int);
        }
        self.pixels[(x + y * self.w) as usize]
    }

    /// Writes a cell known to exist; every other cell stays as it is.
    pub(crate) fn put(&mut self, x: i32, y: i32, c: Pixel)
        requires
            old(self).wf(),
            old(self).has(x as int, y as int),
        ensures
            final(self).wf(),
            final(self).same_frame(old(self)),
            final(self).at(x as int, y as int) == c,
            final(self).pixels@ == old(self).pixels@.update(x + y * old(self).w, c),
            forall|px: int, py: int|
                old(self).has(px, py) && !(px == x && py == y) ==> #[trigger] final(self).at(px, py)
                    == old(self).at(px, py),
    {
        proof {
            lemma_cell_index(x as int, y as int, self.w as int, self.h as int);
        }
        let i = (x + y * self.w) as usize;
        self.pixels.set(i, c);
        proof {
            assert forall|px: int, py: int|
                old(self).has(px, py) && !(px == x && py == y) implies #[trigger] self.at(px, py)
                == old(self).at(px, py) by {
                lemma_cell_index(px, py, self.w as int, self.h as int);
                if px + py * self.w == x + y * self.w {
                    lemma_cell_unique(px, py, x as int, y as int, self.w as int);
                }
            }
        }
    }

    /// Composites `s` onto a cell known to exist, under the mode of the
    /// buffer; every other cell stays as it is.
    pub(crate) fn blend_at(&mut self, x: i32, y: i32, s: Pixel)
        requires
            old(self).wf(),
            old(self).has(x as int, y as int),
        ensures
            final(self).wf(),
            final(self).same_frame(old(self)),
            final(self).at(x as int, y as int) == blend(
                old(self).mode,
                old(self).at(x as int, y as int),
                s,
            ),
            forall|px: int, py: int|
                old(self).has(px, py) && !(px == x && py == y) ==> #[trigger] final(self).at(px, py)
                    == old(self).at(px, py),
    {
        let mut d = self.peek(x, y);
        blend_pixel(&self.mode, &mut d, s);
        self.put(x, y, d);
    }

    /// A buffer of `w` by `h` opaque black pixels, with the clip rectangle
    /// covering all of it and the plain mode.
    pub fn new(w: i32, h: i32) -> (buf: Buffer)
        requires
            w >= 1,
            h >= 1,
            w * h <= i32::MAX,
        ensures
            buf.wf(),
            buf.w == w,
            buf.h == h,
            buf.clip == buf.bounds(),
            buf.mode == plain_mode(),
            forall|i: int| 0 <= i < w * h ==> #[trigger] buf.pixels@[i] == black(),
    {
        assert(w * h >= 1) by (nonlinear_arith)
            requires
                w >= 1,
                h >= 1,
        ;
        let black = Pixel::color(0, 0, 0);
        proof {
            crate::pixel::lemma_pack_unpack(black);
        }
        let mut buf = Buffer {
            w,
            h,
            clip: Rect::new(0, 0, w, h),
            pixels: vec![black; (w * h) as usize],
            mode: DrawMode::new(black, BlendMode::ALPHA, 0xff),
        };
        buf.reset();
        buf
    }

    /// Sets the blend formula.
    pub fn set_blend(&mut self, blend: BlendMode)
        ensures
            *final(self) == (Buffer {
                mode: DrawMode { blend, ..old(self).mode },
                ..*old(self)
            }),
    {
        self.mode.blend = blend;
    }

    /// Sets the global alpha.
    pub fn set_alpha(&mut self, alpha: u8)
        ensures
            *final(self) == (Buffer {
                mode: DrawMode { alpha, ..old(self).mode },
                ..*old(self)
            }),
    {
        self.mode.alpha = alpha;
    }

    /// Sets the tint to the colour channels of `c`; the alpha of `c` is
    /// dropped.
    pub fn set_color(&mut self, c: Pixel)
        ensures
            final(self).mode.color@ == (Channel { a: 0, ..c@ }),
            final(self).mode.color.word == c.word & RGB_MASK,
            *final(self) == (Buffer {
                mode: DrawMode { color: final(self).mode.color, ..old(self).mode },
                ..*old(self)
            }),
    {
        let w = c.word;
        assert((w & 0x00ff_ffff) % 0x100 == w % 0x100 && (w & 0x00ff_ffff) / 0x100 % 0x100 == w
            / 0x100 % 0x100 && (w & 0x00ff_ffff) / 0x1_0000 % 0x100 == w / 0x1_0000 % 0x100 && (w
            & 0x00ff_ffff) / 0x100_0000 == 0) by (bit_vector);
        self.mode.color = Pixel { word: c.word & RGB_MASK };
    }

    /// Sets the clip rectangle to the part of `r` that lies in the grid.
    pub fn set_clip(&mut self, r: Rect)
        requires
            old(self).w >= 1,
            old(self).h >= 1,
        ensures
            final(self).clip == clipped(r, old(self).bounds()),
            final(self).clip.within(old(self).w as int, old(self).h as int),
            *final(self) == (Buffer { clip: final(self).clip, ..*old(self) }),
    {
        let mut c = r;
        let bounds = Rect { x: 0, y: 0, w: self.w, h: self.h };
        clip_rect(&mut c, &bounds);
        self.clip = c;
    }

    /// Back to the plain mode and a clip rectangle covering the whole grid.
    pub fn reset(&mut self)
        requires
            old(self).w >= 1,
            old(self).h >= 1,
        ensures
            *final(self) == (Buffer {
                mode: plain_mode(),
                clip: old(self).bounds(),
                ..*old(self)
            }),
    {
        self.set_blend(BlendMode::ALPHA);
        self.set_alpha(0xff);
        self.set_color(Pixel::color(0xff, 0xff, 0xff));
        let (w, h) = (self.w, self.h);
        self.set_clip(Rect { x: 0, y: 0, w, h });
        assert(self.mode.color.word == RGB_MASK) by {
            crate::pixel::lemma_pack_unpack(self.mode.color);
        }
    }

    /// Width and height.
    pub fn get_size(&self) -> (size: (i32, i32))
        ensures
            size == (self.w, self.h),
    {
        (self.w, self.h)
    }

    /// The pixel at `(x, y)`, or the zero word outside the grid.
    pub fn get_pixel(&self, x: i32, y: i32) -> (p: Pixel)
        requires
            self.wf(),
        ensures
            p == self.sample(x as int, y as int),
    {
        if x >= 0 && y >= 0 && x < self.w && y < self.h {
            return self.peek(x, y);
        }
        Pixel { word: 0 }
    }

    /// Reads the pixel at a place given in wide coordinates.
    pub(crate) fn sample_at(&self, x: i64, y: i64) -> (p: Pixel)
        requires
            self.wf(),
        ensures
            p == self.sample(x as int, y as int),
    {
        if x >= 0 && y >= 0 && x < self.w as i64 && y < self.h as i64 {
            return self.peek(x as i32, y as i32);
        }
        Pixel { word: 0 }
    }

    /// What `get_pixel` reads: the pixel of the cell, or the zero word where
    /// there is no such cell.
    pub open spec fn sample(&self, x: int, y: int) -> Pixel {
        if self.has(x, y) {
            self.at(x, y)
        } else {
            Pixel { word: 0 }
        }
    }

    /// Overwrites the pixel at `(x, y)`; outside the grid nothing happens.
    /// Neither the clip rectangle nor the mode plays a part.
    pub fn set_pixel(&mut self, c: Pixel, x: i32, y: i32)
        requires
            old(self).wf(),
        ensures
            final(self).wf(),
            final(self).same_frame(old(self)),
            forall|px: int, py: int|
                old(self).has(px, py) ==> #[trigger] final(self).at(px, py) == (if px == x && py
                    == y {
                    c
                } else {
                    old(self).at(px, py)
                }),
    {
        if x >= 0 && y >= 0 && x < self.w && y < self.h {
            self.put(x, y, c);
        }
    }
}

/// The byte of `word` that starts at bit `8 * k`.
pub open spec fn word_byte(word: u32, k: int) -> u8 {
    if k == 0 {
        (word as int % 0x100) as u8
    } else if k == 1 {
        (word as int / 0x100 % 0x100) as u8
    } else if k == 2 {
        (word as int / 0x1_0000 % 0x100) as u8
    } else {
        (word as int / 0x100_0000) as u8
    }
}

/// The channels of a foreign pixel word that is laid out as `fmt` says.
pub open spec fn decoded(word: u32, fmt: PixelFormat) -> Channel {
    match fmt {
        PixelFormat::BGRA => Channel {
            r: word_byte(word, 2),
            g: word_byte(word, 1),
            b: word_byte(word, 0),
            a: word_byte(word, 3),
        },
        PixelFormat::RGBA => Channel {
            r: word_byte(word, 0),
            g: word_byte(word, 1),
            b: word_byte(word, 2),
            a: word_byte(word, 3),
        },
        PixelFormat::ARGB => Channel {
            r: word_byte(word, 1),
            g: word_byte(word, 2),
            b: word_byte(word, 3),
            a: word_byte(word, 0),
        },
        PixelFormat::ABGR => Channel {
            r: word_byte(word, 3),
            g: word_byte(word, 2),
            b: word_byte(word, 1),
            a: word_byte(word, 0),
        },
    }
}

/// The pixel that an 8-bit value stands for: the palette entry with this
/// number, or white with the value as its alpha where there is no palette.
pub open spec fn indexed(value: u8, pal: Option<Seq<Pixel>>) -> Pixel {
    match pal {
        Some(pal) => pal[value as int],
        None => crate::pixel::packed(Channel { r: 0xff, g: 0xff, b: 0xff, a: value }),
    }
}

/// One byte of a pixel word.
fn byte_of(word: u32, k: u32) -> (b: u8)
    requires
        k < 4,
    ensures
        b == word_byte(word, k as int),
{
    assert(word & 0xff == word % 0x100 && (word >> 8) & 0xff == word / 0x100 % 0x100 && (word
        >> 16) & 0xff == word / 0x1_0000 % 0x100 && (word >> 24) & 0xff == word / 0x100_0000)
        by (bit_vector);
    if k == 0 {
        (word & 0xff) as u8
    } else if k == 1 {
        ((word >> 8) & 0xff) as u8
    } else if k == 2 {
        ((word >> 16) & 0xff) as u8
    } else {
        ((word >> 24) & 0xff) as u8
    }
}

impl Buffer {
    /// A fresh buffer of the same size with the same pixels. Mode and clip
    /// rectangle are not copied: the new buffer has the plain mode and a
    /// clip rectangle covering its whole grid.
    pub fn clone(&mut self) -> (buf: Buffer)
        requires
            old(self).wf(),
        ensures
            *final(self) == *old(self),
            buf.wf(),
            buf.w == old(self).w,
            buf.h == old(self).h,
            buf.pixels@ == old(self).pixels@,
            buf.clip == buf.bounds(),
            buf.mode == plain_mode(),
    {
        let mut pixels: Vec<Pixel> = Vec::new();
        let mut i: usize = 0;
        while i < self.pixels.len()
            invariant
                *self == *old(self),
                i <= self.pixels@.len(),
                pixels@ == self.pixels@.subrange(0, i as int),
            decreases self.pixels@.len() - i,
        {
            pixels.push(self.pixels[i]);
            proof {
                assert(pixels@ =~= self.pixels@.subrange(0, i + 1));
            }
            i += 1;
        }
        proof {
            assert(pixels@ =~= self.pixels@);
        }
        let mut buf = Buffer {
            w: self.w,
            h: self.h,
            clip: Rect::new(0, 0, self.w, self.h),
            pixels,
            mode: self.mode,
        };
        buf.reset();
        buf
    }

    /// Changes the size of the grid to `w` by `h`. The storage is cut or
    /// extended at its end, with opaque black: pixels keep their place in
    /// the storage, not in the grid. The clip rectangle covers the whole
    /// new grid.
    pub fn resize(&mut self, w: i32, h: i32)
        requires
            w >= 1,
            h >= 1,
            w * h <= i32::MAX,
        ensures
            final(self).wf(),
            final(self).w == w,
            final(self).h == h,
            final(self).mode == old(self).mode,
            final(self).clip == final(self).bounds(),
            forall|i: int|
                0 <= i < w * h ==> #[trigger] final(self).pixels@[i] == (if i < old(
                    self,
                ).pixels@.len() {
                    old(self).pixels@[i]
                } else {
                    black()
                }),
    {
        assert(w * h >= 1) by (nonlinear_arith)
            requires
                w >= 1,
                h >= 1,
        ;
        let black = Pixel::color(0, 0, 0);
        proof {
            crate::pixel::lemma_pack_unpack(black);
        }
        self.w = w;
        self.h = h;
        let ghost stored = self.pixels@;
        self.pixels.resize((w * h) as usize, black);
        proof {
            assert forall|i: int| 0 <= i < w * h implies #[trigger] self.pixels@[i] == (if i
                < stored.len() {
                stored[i]
            } else {
                black
            }) by {
                if i < stored.len() {
                    if w * h <= stored.len() {
                        assert(self.pixels@[i] == stored.subrange(0, w * h)[i]);
                    } else {
                        assert(self.pixels@.subrange(0, stored.len() as int)[i] == stored[i]);
                    }
                }
            }
        }
        self.clip = Rect::new(0, 0, self.w, self.h);
    }

    /// Sets every pixel to `c`.
    pub fn clear(&mut self, c: Pixel)
        requires
            old(self).wf(),
        ensures
            final(self).wf(),
            final(self).same_frame(old(self)),
            forall|i: int| 0 <= i < final(self).pixels@.len() ==> #[trigger] final(self).pixels@[i] == c,
    {
        assert(self.w * self.h >= 1) by (nonlinear_arith)
            requires
                self.w >= 1,
                self.h >= 1,
        ;
        self.pixels = vec![c; (self.w * self.h) as usize];
    }

    /// The pixels as bytes, row by row: four bytes for each pixel, the
    /// lowest byte of its word first (blue, green, red, alpha).
    pub fn to_bytes(&self) -> (bytes: Vec<u8>)
        ensures
            bytes@.len() == 4 * self.pixels@.len(),
            forall|i: int, k: int|
                0 <= i < self.pixels@.len() && 0 <= k < 4 ==> #[trigger] bytes@[4 * i + k]
                    == word_byte(self.pixels@[i].word, k),
    {
        let mut bytes: Vec<u8> = Vec::new();
        let n: usize = self.pixels.len();
        let mut i: usize = 0;
        while i < n
            invariant
                n == self.pixels@.len(),
                i <= n,
                bytes@.len() == 4 * i,
                forall|j: int, k: int|
                    0 <= j < i && 0 <= k < 4 ==> #[trigger] bytes@[4 * j + k] == word_byte(
                        self.pixels@[j].word,
                        k,
                    ),
            decreases n - i,
        {
            let word = self.pixels[i].word;
            let ghost done = bytes@;
            bytes.push(byte_of(word, 0));
            bytes.push(byte_of(word, 1));
            bytes.push(byte_of(word, 2));
            bytes.push(byte_of(word, 3));
            proof {
                assert forall|j: int, k: int| 0 <= j < i + 1 && 0 <= k < 4 implies #[trigger] bytes@[4
                    * j + k] == word_byte(self.pixels@[j].word, k) by {
                    if j < i {
                        assert(bytes@[4 * j + k] == done[4 * j + k]);
                    }
                }
            }
            i += 1;
        }
        bytes
    }

    /// Loads the grid from foreign pixel words laid out as `fmt` says, one
    /// word per pixel, row by row. Words beyond the size of the grid are
    /// not read.
    pub fn load_pixels(&mut self, src: &[u32], fmt: PixelFormat)
        requires
            old(self).wf(),
            src@.len() >= old(self).w * old(self).h,
        ensures
            final(self).wf(),
            final(self).same_frame(old(self)),
            forall|i: int|
                0 <= i < final(self).pixels@.len() ==> #[trigger] final(self).pixels@[i]
                    == crate::pixel::packed(decoded(src@[i], fmt)),
    {
        let (sr, sg, sb, sa): (u32, u32, u32, u32) = match fmt {
            PixelFormat::BGRA => (2, 1, 0, 3),
            PixelFormat::RGBA => (0, 1, 2, 3),
            PixelFormat::ARGB => (1, 2, 3, 0),
            PixelFormat::ABGR => (3, 2, 1, 0),
        };
        let n: usize = self.pixels.len();
        let mut i: usize = 0;
        while i < n
            invariant
                self.wf(),
                self.same_frame(old(self)),
                n == self.pixels@.len(),
                n <= src@.len(),
                i <= n,
                sr < 4 && sg < 4 && sb < 4 && sa < 4,
                forall|word: u32| #[trigger]
                    decoded(word, fmt) == (Channel {
                        r: word_byte(word, sr as int),
                        g: word_byte(word, sg as int),
                        b: word_byte(word, sb as int),
                        a: word_byte(word, sa as int),
                    }),
                forall|j: int|
                    0 <= j < i ==> #[trigger] self.pixels@[j] == crate::pixel::packed(
                        decoded(src@[j], fmt),
                    ),
            decreases n - i,
        {
            let word = src[i];
            let p = Pixel::pixel(byte_of(word, sr), byte_of(word, sg), byte_of(word, sb), byte_of(word, sa));
            self.pixels.set(i, p);
            i += 1;
        }
    }

    /// Loads the grid from 8-bit values, one per pixel, row by row: each
    /// value picks its entry of the palette or, without a palette, becomes
    /// the alpha of a white pixel.
    pub fn load_pixels8(&mut self, src: &[u8], pal: Option<&[Pixel]>)
        requires
            old(self).wf(),
            src@.len() >= old(self).w * old(self).h,
            pal matches Some(pal) ==> forall|i: int|
                0 <= i < old(self).w * old(self).h ==> (#[trigger] src@[i]) < pal@.len(),
        ensures
            final(self).wf(),
            final(self).same_frame(old(self)),
            forall|i: int|
                0 <= i < final(self).pixels@.len() ==> #[trigger] final(self).pixels@[i] == indexed(
                    src@[i],
                    match pal {
                        Some(pal) => Some(pal@),
                        None => None,
                    },
                ),
    {
        let n: usize = self.pixels.len();
        let mut i: usize = 0;
        while i < n
            invariant
                self.wf(),
                self.same_frame(old(self)),
                n == self.pixels@.len(),
                n == old(self).w * old(self).h,
                n <= src@.len(),
                i <= n,
                pal matches Some(pal) ==> forall|j: int| 0 <= j < n ==> (#[trigger] src@[j]) < pal@.len(),
                forall|j: int|
                    0 <= j < i ==> #[trigger] self.pixels@[j] == indexed(
                        src@[j],
                        match pal {
                            Some(pal) => Some(pal@),
                            None => None,
                        },
                    ),
            decreases n - i,
        {
            let p = match pal {
                Some(pal) => pal[src[i] as usize],
                None => Pixel::pixel(0xff, 0xff, 0xff, src[i]),
            };
            self.pixels.set(i, p);
            i += 1;
        }
    }
}

} // verus!
