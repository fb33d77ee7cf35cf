//! Raw copies between buffers: pixels are overwritten, never blended.

use vstd::prelude::*;
use crate::buffer::Buffer;
use crate::pixel::Pixel;
use crate::fixed::fx_pixel;
use crate::fixed::fx_walk;
use crate::fixed::lemma_fx_walk_bound;
use crate::fixed::lemma_fx_walk_next;
use crate::placement::scaled_base;
use crate::placement::span_end;
use crate::placement::span_start;
use crate::placement::Scaling;
use crate::rect::clip_rect_offset;
use crate::rect::Rect;

verus! {

/// Whether a blit of the source rectangle `sub` to `(x, y)`, confined to
/// `clip`, reaches the destination cell `(px, py)`.
pub open spec fn blit_hits(clip: Rect, x: int, y: int, sub: Rect, px: int, py: int) -> bool {
    &&& clip.contains(px, py)
    &&& x <= px < x + sub.w
    &&& y <= py < y + sub.h
}

/// What a copy of the rectangle `sub` of `src` to `(x, y)` makes of the
/// buffer `before`: the cells that lie both in the clip rectangle and under
/// the copy hold the source pixel that falls on them, and every other cell
/// holds what it held.
pub open spec fn copied(before: Buffer, after: Buffer, src: Buffer, x: int, y: int, sub: Rect) -> bool {
    &&& after.wf()
    &&& after.same_frame(&before)
    &&& forall|px: int, py: int|
        before.has(px, py) ==> #[trigger] after.at(px, py) == (if blit_hits(
            before.clip,
            x,
            y,
            sub,
            px,
            py,
        ) {
            src.at(sub.x + (px - x), sub.y + (py - y))
        } else {
            before.at(px, py)
        })
}

/// A copy changes no cell outside the clip rectangle, and none that the
/// copied rectangle does not cover.
pub proof fn lemma_copy_confined(
    before: Buffer,
    after: Buffer,
    src: Buffer,
    x: int,
    y: int,
    sub: Rect,
    px: int,
    py: int,
)
    requires
        copied(before, after, src, x, y, sub),
        before.has(px, py),
        !before.clip.contains(px, py) || !(x <= px < x + sub.w && y <= py < y + sub.h),
    ensures
        after.at(px, py) == before.at(px, py),
{
}

/// A copy of a whole source that lies inside the grid of a destination
/// whose clip rectangle covers its whole grid reproduces every source pixel
/// at its place.
pub proof fn lemma_copy_round_trip(
    before: Buffer,
    after: Buffer,
    src: Buffer,
    x: int,
    y: int,
    sx: int,
    sy: int,
)
    requires
        before.wf(),
        src.wf(),
        before.clip == before.bounds(),
        0 <= x,
        0 <= y,
        x + src.w <= before.w,
        y + src.h <= before.h,
        copied(before, after, src, x, y, src.bounds()),
        src.has(sx, sy),
    ensures
        after.has(x + sx, y + sy),
        after.at(x + sx, y + sy) == src.at(sx, sy),
{
    assert(before.has(x + sx, y + sy));
    assert(blit_hits(before.clip, x, y, src.bounds(), x + sx, y + sy));
}

/// Copies the rectangle `sub` of `src` to `(x, y)` in `b`, cut to the clip
/// rectangle of `b`.
pub fn basic(b: &mut Buffer, src: &Buffer, x: i32, y: i32, sub: Rect)
    requires
        old(b).wf(),
        src.wf(),
        src.holds(sub),
    ensures
        copied(*old(b), *final(b), *src, x as int, y as int, sub),
{
    let clip = b.clip;
    if sub.w <= 0 || sub.h <= 0 {
        return ;
    }
    /* Entirely left of or above the clip rectangle? */
    if x as i64 + sub.w as i64 <= clip.x as i64 || y as i64 + sub.h as i64 <= clip.y as i64 {
        return ;
    }
    let mut cx = x;
    let mut cy = y;
    let mut s = sub;
    /* Clip to destination buffer */
    clip_rect_offset(&mut s, &mut cx, &mut cy, clip);
    /* Clipped off screen? */
    if s.w <= 0 || s.h <= 0 {
        return ;
    }
    /* Copy pixels */
    let mut i: i32 = 0;
    while i < s.h
        invariant
            0 <= i <= s.h,
            0 < s.w,
            b.wf(),
            src.wf(),
            b.same_frame(old(b)),
            0 <= cx && cx + s.w <= b.w,
            0 <= cy && cy + s.h <= b.h,
            0 <= s.x && s.x + s.w <= src.w,
            0 <= s.y && s.y + s.h <= src.h,
            forall|px: int, py: int|
                b.has(px, py) ==> #[trigger] b.at(px, py) == (if cx <= px < cx + s.w && cy <= py
                    < cy + i {
                    src.at(s.x + (px - cx), s.y + (py - cy))
                } else {
                    old(b).at(px, py)
                }),
        decreases s.h - i,
    {
        let mut j: i32 = 0;
        while j < s.w
            invariant
                0 <= i < s.h,
                0 <= j <= s.w,
                b.wf(),
                src.wf(),
                b.same_frame(old(b)),
                0 <= cx && cx + s.w <= b.w,
                0 <= cy && cy + s.h <= b.h,
                0 <= s.x && s.x + s.w <= src.w,
                0 <= s.y && s.y + s.h <= src.h,
                forall|px: int, py: int|
                    b.has(px, py) ==> #[trigger] b.at(px, py) == (if cx <= px < cx + s.w && (cy
                        <= py < cy + i || (py == cy + i && px < cx + j)) {
                        src.at(s.x + (px - cx), s.y + (py - cy))
                    } else {
                        old(b).at(px, py)
                    }),
            decreases s.w - j,
        {
            let p: Pixel = src.peek(s.x + j, s.y + i);
            b.put(cx + j, cy + i, p);
            j += 1;
        }
        i += 1;
    }
}

/// What a copy of the rectangle `sub` of `src`, scaled by `plan`, to
/// `(x, y)` makes of the buffer `before`: the cells that lie both in the
/// clip rectangle and under the scaled image, and whose sample is a cell of
/// the source, hold the source pixel sampled for them, and every other cell
/// holds what it held.
pub open spec fn scaled_copied(
    before: Buffer,
    after: Buffer,
    src: Buffer,
    x: int,
    y: int,
    sub: Rect,
    plan: Scaling,
) -> bool {
    &&& after.wf()
    &&& after.same_frame(&before)
    &&& forall|px: int, py: int|
        before.has(px, py) ==> #[trigger] after.at(px, py) == (if blit_hits(
            before.clip,
            x,
            y,
            plan.footprint(x, y),
            px,
            py,
        ) && plan.upright().reads(src.w as int, src.h as int, sub, x, y, before.clip, px, py) {
            src.at(
                plan.upright().col(sub, x, before.clip, px),
                plan.upright().row(sub, y, before.clip, py),
            )
        } else {
            before.at(px, py)
        })
}

/// A scaled copy changes no cell outside the clip rectangle, and none that
/// the scaled image does not cover.
pub proof fn lemma_scaled_copy_confined(
    before: Buffer,
    after: Buffer,
    src: Buffer,
    x: int,
    y: int,
    sub: Rect,
    plan: Scaling,
    px: int,
    py: int,
)
    requires
        scaled_copied(before, after, src, x, y, sub, plan),
        before.has(px, py),
        !before.clip.contains(px, py) || !(x <= px < x + plan.width && y <= py < y + plan.height),
    ensures
        after.at(px, py) == before.at(px, py),
{
}

/// Copies the rectangle `sub` of `src`, scaled as `plan` says, to `(x, y)`
/// in `b`, cut to the clip rectangle of `b`. A copy is never mirrored: the
/// flip flags of `plan` play no part. A pixel of the image for which `plan`
/// samples outside `src` is left out.
pub fn scaled(b: &mut Buffer, src: &Buffer, x: i32, y: i32, sub: Rect, plan: &Scaling)
    requires
        old(b).wf(),
        src.wf(),
    ensures
        scaled_copied(*old(b), *final(b), *src, x as int, y as int, sub, *plan),
{
    let clip = b.clip;
    /* Adjust for clipping */
    let x0: i32 = if x >= clip.x { x } else { clip.x };
    let y0: i32 = if y >= clip.y { y } else { clip.y };
    let xe: i64 = x as i64 + plan.width as i64;
    let ye: i64 = y as i64 + plan.height as i64;
    let xc: i64 = clip.x as i64 + clip.w as i64;
    let yc: i64 = clip.y as i64 + clip.h as i64;
    let x1: i64 = if xe <= xc { xe } else { xc };
    let y1: i64 = if ye <= yc { ye } else { yc };
    /* Clipped completely offscreen? */
    if x0 as i64 >= x1 || y0 as i64 >= y1 {
        return ;
    }
    let x1: i32 = x1 as i32;
    let y1: i32 = y1 as i32;
    let sub_x: i64 = if clip.x > x { sub.x as i64 + plan.skip_x as i64 } else { sub.x as i64 };
    let sub_y: i64 = if clip.y > y { sub.y as i64 + plan.skip_y as i64 } else { sub.y as i64 };
    let osx: i64 = 0;
    let osy: i64 = 0;
    let ix: i64 = plan.ix as i64;
    let iy: i64 = plan.iy as i64;
    /* Copy */
    let mut sy: i64 = osy;
    let mut py: i32 = y0;
    while py < y1
        invariant
            y0 <= py <= y1,
            x0 < x1,
            b.wf(),
            src.wf(),
            b.same_frame(old(b)),
            clip == b.clip,
            x0 == span_start(x as int, clip.x as int),
            y0 == span_start(y as int, clip.y as int),
            x1 == span_end(x as int, plan.width as int, clip.x as int, clip.w as int),
            y1 == span_end(y as int, plan.height as int, clip.y as int, clip.h as int),
            sub_x == scaled_base(sub.x as int, plan.skip_x as int, x as int, clip.x as int),
            sub_y == scaled_base(sub.y as int, plan.skip_y as int, y as int, clip.y as int),
            osx == 0,
            osy == 0,
            ix == plan.ix,
            iy == plan.iy,
            sy == fx_walk(osy as int, iy as int, py - y0),
            forall|qx: int, qy: int|
                b.has(qx, qy) ==> #[trigger] b.at(qx, qy) == (if x0 <= qx < x1 && y0 <= qy < py
                    && plan.upright().reads(src.w as int, src.h as int, sub, x as int, y as int, clip, qx, qy) {
                    src.at(
                        plan.upright().col(sub, x as int, clip, qx),
                        plan.upright().row(sub, y as int, clip, qy),
                    )
                } else {
                    old(b).at(qx, qy)
                }),
        decreases y1 - py,
    {
        let row: i64 = sub_y + fx_pixel(sy);
        if row >= 0 && row < src.h as i64 {
            let row: i32 = row as i32;
            let mut sx: i64 = osx;
            let mut px: i32 = x0;
            while px < x1
                invariant
                    y0 <= py < y1,
                    x0 <= px <= x1,
                    b.wf(),
                    src.wf(),
                    b.same_frame(old(b)),
                    clip == b.clip,
                    x0 == span_start(x as int, clip.x as int),
                    y0 == span_start(y as int, clip.y as int),
                    x1 == span_end(x as int, plan.width as int, clip.x as int, clip.w as int),
                    y1 == span_end(y as int, plan.height as int, clip.y as int, clip.h as int),
                    sub_x == scaled_base(sub.x as int, plan.skip_x as int, x as int, clip.x as int),
                    osx == 0,
                    ix == plan.ix,
                    0 <= row < src.h,
                    row == plan.upright().row(sub, y as int, clip, py as int),
                    sx == fx_walk(osx as int, ix as int, px - x0),
                    forall|qx: int, qy: int|
                        b.has(qx, qy) ==> #[trigger] b.at(qx, qy) == (if x0 <= qx < x1 && (y0 <= qy
                            < py || (qy == py && qx < px)) && plan.upright().reads(
                            src.w as int,
                            src.h as int,
                            sub,
                            x as int,
                            y as int,
                            clip,
                            qx,
                            qy,
                        ) {
                            src.at(
                                plan.upright().col(sub, x as int, clip, qx),
                                plan.upright().row(sub, y as int, clip, qy),
                            )
                        } else {
                            old(b).at(qx, qy)
                        }),
                decreases x1 - px,
            {
                proof {
                    lemma_fx_walk_next(osx as int, ix as int, px - x0);
                    lemma_fx_walk_bound(osx as int, ix as int, px - x0, 0x8000_0000, 0x8000_0000);
                    lemma_fx_walk_bound(osx as int, ix as int, px - x0 + 1, 0x8000_0000, 0x8000_0000);
                }
                let col: i64 = sub_x + fx_pixel(sx);
                if col >= 0 && col < src.w as i64 {
                    b.put(px, py, src.peek(col as i32, row));
                }
                sx += ix;
                px += 1;
            }
        }
        proof {
            lemma_fx_walk_next(osy as int, iy as int, py - y0);
            lemma_fx_walk_bound(osy as int, iy as int, py - y0, 0x8000_0000, 0x8000_0000);
            lemma_fx_walk_bound(osy as int, iy as int, py - y0 + 1, 0x8000_0000, 0x8000_0000);
        }
        sy += iy;
        py += 1;
    }
}

} // verus!
