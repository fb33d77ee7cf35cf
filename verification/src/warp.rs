//! Filters that fill a buffer with pixels of another buffer read at
//! displaced places: waves and displacement maps.

use vstd::prelude::*;
use crate::buffer::Buffer;
use crate::pixel::ColorChannel;
use crate::pixel::Pixel;

verus! {

/// The number of fraction bits of an angle and of a sine.
pub const FX_BITS_10: u32 = 10;

/// A full turn, and the sine of a right angle, in fixed point.
pub const FX_UNIT_10: u32 = 1024;

/// A table of the sine over one full turn, in 1024 steps.
#[derive(Debug)]
pub struct SinTable {
    pub values: Vec<i32>,
}

impl SinTable {
    /// A table covers the full turn.
    pub open spec fn wf(&self) -> bool {
        self.values@.len() == 1024
    }

    /// Takes over a table of 1024 values; a list of any other length is no
    /// table.
    pub fn new(values: Vec<i32>) -> (t: Option<SinTable>)
        ensures
            t is Some <==> values@.len() == 1024,
            t matches Some(t) ==> t.wf() && t.values@ == values@,
    {
        if values.len() == 1024 {
            Some(SinTable { values })
        } else {
            None
        }
    }
}

/// The sine of the angle `n`, a full turn being 1024; angles wrap around.
pub fn fxsin(table: &SinTable, n: i32) -> (v: i32)
    requires
        table.wf(),
    ensures
        v == table.values@[n as int % 1024],
{
    assert(n & 1023 == n as int % 1024) by (bit_vector);
    table.values[(n & 1023) as usize]
}

/// The angle of a wave at the position `t` along its axis.
pub open spec fn wave_phase(offset: int, scale: int, t: int) -> int {
    (offset * 1024 + t * scale) % 1024
}

/// How far a wave displaces the reading at the position `t` along its
/// axis: the sine of the angle times `amount`, taken as an unsigned 32-bit
/// number and cut down by ten bits. A negative product therefore displaces
/// far to the positive side.
pub open spec fn wave_shift(table: Seq<i32>, offset: int, scale: int, amount: int, t: int) -> int {
    ((table[wave_phase(offset, scale, t)] * amount) % 0x1_0000_0000) / 1024
}

/// What a wave filter over `src` makes of a buffer: every cell holds the
/// pixel that `src` has at the cell displaced along the row by the wave
/// over the rows, and along the column by the wave over the columns; the
/// zero word where `src` has no such cell.
pub open spec fn waved(
    before: Buffer,
    after: Buffer,
    src: Buffer,
    table: Seq<i32>,
    amount_x: int,
    amount_y: int,
    scale_x: int,
    scale_y: int,
    offset_x: int,
    offset_y: int,
) -> bool {
    &&& after.wf()
    &&& after.same_frame(&before)
    &&& forall|px: int, py: int|
        before.has(px, py) ==> #[trigger] after.at(px, py) == src.sample(
            px + wave_shift(table, offset_x, scale_x, amount_x, py),
            py + wave_shift(table, offset_y, scale_y, amount_y, px),
        )
}

/// The displacement of one reading, computed.
fn wave_offset(table: &SinTable, offset: i32, scale: i32, amount: i32, t: i32) -> (d: i64)
    requires
        table.wf(),
        t >= 0,
    ensures
        d == wave_shift(table.values@, offset as int, scale as int, amount as int, t as int),
        0 <= d < 0x40_0000,
{
    assert(-0x4000_0000_0000_0000 <= t * scale <= 0x4000_0000_0000_0000) by (nonlinear_arith)
        requires
            0 <= t <= 0x7fff_ffff,
            -0x8000_0000 <= scale <= 0x7fff_ffff,
    ;
    let angle: i64 = offset as i64 * 1024 + t as i64 * scale as i64;
    assert(angle & 1023 == angle as int % 1024) by (bit_vector);
    let sin: i32 = table.values[(angle & 1023) as usize];
    assert(-0x4000_0000_0000_0000 <= sin * amount <= 0x4000_0000_0000_0000) by (nonlinear_arith)
        requires
            -0x8000_0000 <= sin <= 0x7fff_ffff,
            -0x8000_0000 <= amount <= 0x7fff_ffff,
    ;
    let product: i64 = sin as i64 * amount as i64;
    let low: u32 = #[verifier::truncate]
    (product as u32);
    assert(low == product as int % 0x1_0000_0000) by (bit_vector)
        requires
            low == product as u32,
    ;
    assert(low >> 10 == low / 1024 && low >> 10 < 0x40_0000) by (bit_vector);
    (low >> FX_BITS_10) as i64
}

/// An amount taken seven bits up, as a 32-bit number holds it.
pub open spec fn displace_scale(scale: i32) -> int {
    (scale << 7) as int
}

/// How far the level `level` of a displacement map moves a reading: the
/// level less 128, times the scale, cut down by fourteen bits.
pub open spec fn displace_shift(level: u8, scale: i32) -> int {
    ((level - 128) * displace_scale(scale)) / 16384
}

/// What a displacement of `src` by `map` makes of a buffer: every cell holds
/// the pixel that `src` has at the cell moved by what the map says at this
/// cell, one channel of the map moving along the row and one along the
/// column; the zero word where `src` has no such cell.
pub open spec fn displaced(
    before: Buffer,
    after: Buffer,
    src: Buffer,
    map: Buffer,
    channel_x: ColorChannel,
    channel_y: ColorChannel,
    scale_x: i32,
    scale_y: i32,
) -> bool {
    &&& after.wf()
    &&& after.same_frame(&before)
    &&& forall|px: int, py: int|
        before.has(px, py) ==> #[trigger] after.at(px, py) == src.sample(
            px + displace_shift(map.at(px, py)@.get(channel_x), scale_x),
            py + displace_shift(map.at(px, py)@.get(channel_y), scale_y),
        )
}

/// The move of one reading, computed.
fn displace_offset(level: u8, scale: i32) -> (d: i64)
    ensures
        d == displace_shift(level, scale),
        -0x100_0000_0000 <= d <= 0x100_0000_0000,
{
    let wide: i32 = scale << 7;
    assert(-0x40_0000_0000 <= (level - 128) * wide <= 0x40_0000_0000) by (nonlinear_arith)
        requires
            -128 <= level - 128 <= 127,
            -0x8000_0000 <= wide <= 0x7fff_ffff,
    ;
    let product: i64 = (level as i64 - 128) * wide as i64;
    assert(product >> 14 == product as int / 16384) by (bit_vector);
    product >> 14
}

impl Buffer {
    /// Fills the buffer with the pixels of `src` read along two waves: the
    /// wave over the rows moves the reading along the row, the wave over
    /// the columns moves it along the column. `amount` is the height of a
    /// wave, `scale` its angle per pixel and `offset` its angle at the
    /// origin, in full turns.
    pub fn wave(
        &mut self,
        src: &Buffer,
        table: &SinTable,
        amount_x: i32,
        amount_y: i32,
        scale_x: i32,
        scale_y: i32,
        offset_x: i32,
        offset_y: i32,
    )
        requires
            old(self).wf(),
            src.wf(),
            table.wf(),
        ensures
            waved(
                *old(self),
                *final(self),
                *src,
                table.values@,
                amount_x as int,
                amount_y as int,
                scale_x as int,
                scale_y as int,
                offset_x as int,
                offset_y as int,
            ),
    {
        let mut y: i32 = 0;
        while y < self.h
            invariant
                self.wf(),
                src.wf(),
                table.wf(),
                self.same_frame(old(self)),
                0 <= y <= self.h,
                forall|px: int, py: int|
                    self.has(px, py) && py < y ==> #[trigger] self.at(px, py) == src.sample(
                        px + wave_shift(table.values@, offset_x as int, scale_x as int, amount_x as int, py),
                        py + wave_shift(table.values@, offset_y as int, scale_y as int, amount_y as int, px),
                    ),
            decreases self.h - y,
        {
            let ox: i64 = wave_offset(table, offset_x, scale_x, amount_x, y);
            let mut x: i32 = 0;
            while x < self.w
                invariant
                    self.wf(),
                    src.wf(),
                    table.wf(),
                    self.same_frame(old(self)),
                    0 <= y < self.h,
                    0 <= x <= self.w,
                    0 <= ox < 0x40_0000,
                    ox == wave_shift(
                        table.values@,
                        offset_x as int,
                        scale_x as int,
                        amount_x as int,
                        y as int,
                    ),
                    forall|px: int, py: int|
                        self.has(px, py) && (py < y || (py == y && px < x)) ==> #[trigger] self.at(
                            px,
                            py,
                        ) == src.sample(
                            px + wave_shift(table.values@, offset_x as int, scale_x as int, amount_x as int, py),
                            py + wave_shift(table.values@, offset_y as int, scale_y as int, amount_y as int, px),
                        ),
                decreases self.w - x,
            {
                let oy: i64 = wave_offset(table, offset_y, scale_y, amount_y, x);
                let p: Pixel = src.sample_at(x as i64 + ox, y as i64 + oy);
                self.put(x, y, p);
                x += 1;
            }
            y += 1;
        }
    }

    /// Fills the buffer with the pixels of `src` read at places moved by
    /// the displacement map `map`: at every cell the channel `channel_x` of
    /// the map moves the reading along the row and the channel `channel_y`
    /// along the column, a level of 128 standing for no move.
    pub fn displace(
        &mut self,
        src: &Buffer,
        map: &Buffer,
        channel_x: ColorChannel,
        channel_y: ColorChannel,
        scale_x: i32,
        scale_y: i32,
    )
        requires
            old(self).wf(),
            src.wf(),
            map.wf(),
            src.w == old(self).w && src.h == old(self).h,
            map.w == old(self).w && map.h == old(self).h,
        ensures
            displaced(*old(self), *final(self), *src, *map, channel_x, channel_y, scale_x, scale_y),
    {
        let mut y: i32 = 0;
        while y < self.h
            invariant
                self.wf(),
                src.wf(),
                map.wf(),
                map.w == self.w && map.h == self.h,
                self.same_frame(old(self)),
                0 <= y <= self.h,
                forall|px: int, py: int|
                    self.has(px, py) && py < y ==> #[trigger] self.at(px, py) == src.sample(
                        px + displace_shift(map.at(px, py)@.get(channel_x), scale_x),
                        py + displace_shift(map.at(px, py)@.get(channel_y), scale_y),
                    ),
            decreases self.h - y,
        {
            let mut x: i32 = 0;
            while x < self.w
                invariant
                    self.wf(),
                    src.wf(),
                    map.wf(),
                    map.w == self.w && map.h == self.h,
                    self.same_frame(old(self)),
                    0 <= y < self.h,
                    0 <= x <= self.w,
                    forall|px: int, py: int|
                        self.has(px, py) && (py < y || (py == y && px < x)) ==> #[trigger] self.at(
                            px,
                            py,
                        ) == src.sample(
                            px + displace_shift(map.at(px, py)@.get(channel_x), scale_x),
                            py + displace_shift(map.at(px, py)@.get(channel_y), scale_y),
                        ),
                decreases self.w - x,
            {
                let m: Pixel = map.peek(x, y);
                let cx: i64 = displace_offset(Buffer::get_channel(m, channel_x), scale_x);
                let cy: i64 = displace_offset(Buffer::get_channel(m, channel_y), scale_y);
                let p: Pixel = src.sample_at(x as i64 + cx, y as i64 + cy);
                self.put(x, y, p);
                x += 1;
            }
            y += 1;
        }
    }
}

} // verus!
