//! Blended blits between buffers: every pixel that arrives is composited
//! onto the pixel it meets, under the mode of the destination.

use vstd::prelude::*;
use crate::blend::blend;
use crate::buffer::Buffer;
use crate::copy::blit_hits;
use crate::fixed::fx_floor;
use crate::fixed::fx_pixel;
use crate::fixed::fx_pixel_wide;
use crate::fixed::fx_walk;
use crate::fixed::lemma_fx_walk_add;
use crate::fixed::lemma_fx_walk_between;
use crate::fixed::lemma_fx_walk_bound;
use crate::fixed::lemma_fx_walk_next;
use crate::placement::edge_step;
use crate::placement::lemma_edge_step_bound;
use crate::placement::line_hi;
use crate::placement::line_hits;
use crate::placement::line_inside;
use crate::placement::line_lo;
use crate::placement::line_span;
use crate::placement::scaled_base;
use crate::placement::scaled_origin;
use crate::placement::span_end;
use crate::placement::span_start;
use crate::placement::Rotation;
use crate::placement::Scaling;
use crate::placement::Walk;
use crate::rect::clip_rect_offset;
use crate::rect::lemma_div_magnitude;
use crate::rect::Point;
use crate::rect::Rect;
use crate::upright::is_level_exact;
use crate::upright::is_upright;
use crate::upright::lemma_rotate_level_exact;
use crate::upright::level_scaling;
use crate::upright::lemma_rotate_upright;

verus! {

/// What drawing the rectangle `sub` of `src` at `(x, y)` makes of the buffer
/// `before`: the cells that lie both in the clip rectangle and under the
/// drawing hold their old pixel composited with the source pixel that falls
/// on them, and every other cell holds what it held.
pub open spec fn drawn(before: Buffer, after: Buffer, src: Buffer, x: int, y: int, sub: Rect) -> bool {
    &&& after.wf()
    &&& after.same_frame(&before)
    &&& forall|px: int, py: int|
        before.has(px, py) ==> #[trigger] after.at(px, py) == (if blit_hits(
            before.clip,
            x,
            y,
            sub,
            px,
            py,
        ) {
            blend(before.mode, before.at(px, py), src.at(sub.x + (px - x), sub.y + (py - y)))
        } else {
            before.at(px, py)
        })
}

/// A drawing changes no cell outside the clip rectangle, and none that the
/// drawn rectangle does not cover.
pub proof fn lemma_draw_confined(
    before: Buffer,
    after: Buffer,
    src: Buffer,
    x: int,
    y: int,
    sub: Rect,
    px: int,
    py: int,
)
    requires
        drawn(before, after, src, x, y, sub),
        before.has(px, py),
        !before.clip.contains(px, py) || !(x <= px < x + sub.w && y <= py < y + sub.h),
    ensures
        after.at(px, py) == before.at(px, py),
{
}

/// Draws the rectangle `sub` of `src` at `(x, y)` in `b`, cut to the clip
/// rectangle of `b`.
pub fn basic(b: &mut Buffer, src: &Buffer, x: i32, y: i32, sub: Rect)
    requires
        old(b).wf(),
        src.wf(),
        src.holds(sub),
    ensures
        drawn(*old(b), *final(b), *src, x as int, y as int, sub),
{
    let clip = b.clip;
    if sub.w <= 0 || sub.h <= 0 {
        return ;
    }
    /* Entirely left of or above the clip rectangle? */
    if x as i64 + sub.w as i64 <= clip.x as i64 || y as i64 + sub.h as i64 <= clip.y as i64 {
        return ;
    }
    let mut cx = x;
    let mut cy = y;
    let mut s = sub;
    /* Clip to destination buffer */
    clip_rect_offset(&mut s, &mut cx, &mut cy, clip);
    /* Clipped off screen? */
    if s.w <= 0 || s.h <= 0 {
        return ;
    }
    /* Draw */
    let mut i: i32 = 0;
    while i < s.h
        invariant
            0 <= i <= s.h,
            0 < s.w,
            b.wf(),
            src.wf(),
            b.same_frame(old(b)),
            0 <= cx && cx + s.w <= b.w,
            0 <= cy && cy + s.h <= b.h,
            0 <= s.x && s.x + s.w <= src.w,
            0 <= s.y && s.y + s.h <= src.h,
            forall|px: int, py: int|
                b.has(px, py) ==> #[trigger] b.at(px, py) == (if cx <= px < cx + s.w && cy <= py
                    < cy + i {
                    blend(b.mode, old(b).at(px, py), src.at(s.x + (px - cx), s.y + (py - cy)))
                } else {
                    old(b).at(px, py)
                }),
        decreases s.h - i,
    {
        let mut j: i32 = 0;
        while j < s.w
            invariant
                0 <= i < s.h,
                0 <= j <= s.w,
                b.wf(),
                src.wf(),
                b.same_frame(old(b)),
                0 <= cx && cx + s.w <= b.w,
                0 <= cy && cy + s.h <= b.h,
                0 <= s.x && s.x + s.w <= src.w,
                0 <= s.y && s.y + s.h <= src.h,
                forall|px: int, py: int|
                    b.has(px, py) ==> #[trigger] b.at(px, py) == (if cx <= px < cx + s.w && (cy
                        <= py < cy + i || (py == cy + i && px < cx + j)) {
                        blend(b.mode, old(b).at(px, py), src.at(s.x + (px - cx), s.y + (py - cy)))
                    } else {
                        old(b).at(px, py)
                    }),
            decreases s.w - j,
        {
            b.blend_at(cx + j, cy + i, src.peek(s.x + j, s.y + i));
            j += 1;
        }
        i += 1;
    }
}

/// What drawing the rectangle `sub` of `src`, scaled by `plan`, at `(x, y)`
/// makes of the buffer `before`: the cells that lie both in the clip
/// rectangle and under the scaled image, and whose sample is a cell of the
/// source, hold their old pixel composited with the source pixel sampled
/// for them, and every other cell holds what it held.
pub open spec fn scaled_drawn(
    before: Buffer,
    after: Buffer,
    src: Buffer,
    x: int,
    y: int,
    sub: Rect,
    plan: Scaling,
) -> bool {
    &&& after.wf()
    &&& after.same_frame(&before)
    &&& forall|px: int, py: int|
        before.has(px, py) ==> #[trigger] after.at(px, py) == (if blit_hits(
            before.clip,
            x,
            y,
            plan.footprint(x, y),
            px,
            py,
        ) && plan.reads(src.w as int, src.h as int, sub, x, y, before.clip, px, py) {
            blend(
                before.mode,
                before.at(px, py),
                src.at(plan.col(sub, x, before.clip, px), plan.row(sub, y, before.clip, py)),
            )
        } else {
            before.at(px, py)
        })
}

/// A scaled drawing changes no cell outside the clip rectangle, and none
/// that the scaled image does not cover.
pub proof fn lemma_scaled_draw_confined(
    before: Buffer,
    after: Buffer,
    src: Buffer,
    x: int,
    y: int,
    sub: Rect,
    plan: Scaling,
    px: int,
    py: int,
)
    requires
        scaled_drawn(before, after, src, x, y, sub, plan),
        before.has(px, py),
        !before.clip.contains(px, py) || !(x <= px < x + plan.width && y <= py < y + plan.height),
    ensures
        after.at(px, py) == before.at(px, py),
{
}

/// Draws the rectangle `sub` of `src`, scaled and perhaps mirrored as `plan`
/// says, at `(x, y)` in `b`, cut to the clip rectangle of `b`. A pixel of
/// the image for which `plan` samples outside `src` is left out.
pub fn scaled(b: &mut Buffer, src: &Buffer, x: i32, y: i32, sub: Rect, plan: &Scaling)
    requires
        old(b).wf(),
        src.wf(),
    ensures
        scaled_drawn(*old(b), *final(b), *src, x as int, y as int, sub, *plan),
{
    let clip = b.clip;
    /* Adjust for clipping */
    let x0: i32 = if x >= clip.x { x } else { clip.x };
    let y0: i32 = if y >= clip.y { y } else { clip.y };
    let xe: i64 = x as i64 + plan.width as i64;
    let ye: i64 = y as i64 + plan.height as i64;
    let xc: i64 = clip.x as i64 + clip.w as i64;
    let yc: i64 = clip.y as i64 + clip.h as i64;
    let x1: i64 = if xe <= xc { xe } else { xc };
    let y1: i64 = if ye <= yc { ye } else { yc };
    /* Clipped completely offscreen? */
    if x0 as i64 >= x1 || y0 as i64 >= y1 {
        return ;
    }
    let x1: i32 = x1 as i32;
    let y1: i32 = y1 as i32;
    let sub_x: i64 = if clip.x > x { sub.x as i64 + plan.skip_x as i64 } else { sub.x as i64 };
    let sub_y: i64 = if clip.y > y { sub.y as i64 + plan.skip_y as i64 } else { sub.y as i64 };
    let osx: i64 = if plan.flip_x { sub.w as i64 * 4096 - 1 } else { 0 };
    let osy: i64 = if plan.flip_y { sub.h as i64 * 4096 - 1 } else { 0 };
    let ix: i64 = plan.ix as i64;
    let iy: i64 = plan.iy as i64;
    /* Draw */
    let mut sy: i64 = osy;
    let mut py: i32 = y0;
    while py < y1
        invariant
            y0 <= py <= y1,
            x0 < x1,
            b.wf(),
            src.wf(),
            b.same_frame(old(b)),
            clip == b.clip,
            x0 == span_start(x as int, clip.x as int),
            y0 == span_start(y as int, clip.y as int),
            x1 == span_end(x as int, plan.width as int, clip.x as int, clip.w as int),
            y1 == span_end(y as int, plan.height as int, clip.y as int, clip.h as int),
            sub_x == scaled_base(sub.x as int, plan.skip_x as int, x as int, clip.x as int),
            sub_y == scaled_base(sub.y as int, plan.skip_y as int, y as int, clip.y as int),
            osx == scaled_origin(plan.flip_x, sub.w as int),
            osy == scaled_origin(plan.flip_y, sub.h as int),
            ix == plan.ix,
            iy == plan.iy,
            sy == fx_walk(osy as int, iy as int, py - y0),
            forall|qx: int, qy: int|
                b.has(qx, qy) ==> #[trigger] b.at(qx, qy) == (if x0 <= qx < x1 && y0 <= qy < py
                    && plan.reads(src.w as int, src.h as int, sub, x as int, y as int, clip, qx, qy) {
                    blend(
                        b.mode,
                        old(b).at(qx, qy),
                        src.at(plan.col(sub, x as int, clip, qx), plan.row(sub, y as int, clip, qy)),
                    )
                } else {
                    old(b).at(qx, qy)
                }),
        decreases y1 - py,
    {
        let row: i64 = sub_y + fx_pixel(sy);
        if row >= 0 && row < src.h as i64 {
            let row: i32 = row as i32;
            let mut sx: i64 = osx;
            let mut px: i32 = x0;
            while px < x1
                invariant
                    y0 <= py < y1,
                    x0 <= px <= x1,
                    b.wf(),
                    src.wf(),
                    b.same_frame(old(b)),
                    clip == b.clip,
                    x0 == span_start(x as int, clip.x as int),
                    y0 == span_start(y as int, clip.y as int),
                    x1 == span_end(x as int, plan.width as int, clip.x as int, clip.w as int),
                    y1 == span_end(y as int, plan.height as int, clip.y as int, clip.h as int),
                    sub_x == scaled_base(sub.x as int, plan.skip_x as int, x as int, clip.x as int),
                    osx == scaled_origin(plan.flip_x, sub.w as int),
                    ix == plan.ix,
                    0 <= row < src.h,
                    row == plan.row(sub, y as int, clip, py as int),
                    sx == fx_walk(osx as int, ix as int, px - x0),
                    forall|qx: int, qy: int|
                        b.has(qx, qy) ==> #[trigger] b.at(qx, qy) == (if x0 <= qx < x1 && (y0 <= qy
                            < py || (qy == py && qx < px)) && plan.reads(
                            src.w as int,
                            src.h as int,
                            sub,
                            x as int,
                            y as int,
                            clip,
                            qx,
                            qy,
                        ) {
                            blend(
                                b.mode,
                                old(b).at(qx, qy),
                                src.at(
                                    plan.col(sub, x as int, clip, qx),
                                    plan.row(sub, y as int, clip, qy),
                                ),
                            )
                        } else {
                            old(b).at(qx, qy)
                        }),
                decreases x1 - px,
            {
                proof {
                    lemma_fx_walk_next(osx as int, ix as int, px - x0);
                    lemma_fx_walk_bound(osx as int, ix as int, px - x0, 0x8000_0000, 0x8000_0000);
                    lemma_fx_walk_bound(osx as int, ix as int, px - x0 + 1, 0x8000_0000, 0x8000_0000);
                }
                let col: i64 = sub_x + fx_pixel(sx);
                if col >= 0 && col < src.w as i64 {
                    b.blend_at(px, py, src.peek(col as i32, row));
                }
                sx += ix;
                px += 1;
            }
        }
        proof {
            lemma_fx_walk_next(osy as int, iy as int, py - y0);
            lemma_fx_walk_bound(osy as int, iy as int, py - y0, 0x8000_0000, 0x8000_0000);
            lemma_fx_walk_bound(osy as int, iy as int, py - y0 + 1, 0x8000_0000, 0x8000_0000);
        }
        sy += iy;
        py += 1;
    }
}

/// What one scanline makes of the buffer `before`. The scanline runs in
/// the row `dy` from the column `left` to the column `right`, and the
/// sample of the column `left` is at the fixed-point source position
/// `(sx, sy)`, which moves by `(sxi, syi)` per column. The cells of the span
/// that is left of it hold their old pixel composited with the source pixel
/// sampled for them; every other cell holds what it held.
pub open spec fn scanned(
    before: Buffer,
    after: Buffer,
    src: Buffer,
    sub: Rect,
    dy: int,
    left: int,
    right: int,
    sx: int,
    sy: int,
    sxi: int,
    syi: int,
) -> bool {
    &&& after.wf()
    &&& after.same_frame(&before)
    &&& forall|px: int, py: int|
        before.has(px, py) ==> #[trigger] after.at(px, py) == (if line_hits(
            before.clip,
            sub,
            dy,
            left,
            right,
            sx,
            sy,
            sxi,
            syi,
            px,
            py,
        ) {
            blend(
                before.mode,
                before.at(px, py),
                src.at(fx_floor(fx_walk(sx, sxi, px - left)), fx_floor(fx_walk(sy, syi, px - left))),
            )
        } else {
            before.at(px, py)
        })
}

/// Whether the fixed-point source position `(cx, cy)` lies in `sub`.
fn sample_in(sub: &Rect, cx: i128, cy: i128) -> (inside: bool)
    ensures
        inside == sub.contains(fx_floor(cx as int), fx_floor(cy as int)),
{
    let col = fx_pixel_wide(cx);
    let row = fx_pixel_wide(cy);
    !(col < sub.x as i128 || row < sub.y as i128 || col >= sub.x as i128 + sub.w as i128 || row
        >= sub.y as i128 + sub.h as i128)
}

/// Draws one scanline of a rotated image.
///
/// The scanline is cut to the clip rectangle, and then shortened from both
/// ends until its first and its last pixel sample inside `sub`: rounding
/// along a slanted edge may carry the ends of a scanline past the source
/// rectangle.
fn scan_line(
    b: &mut Buffer,
    src: &Buffer,
    sub: &Rect,
    dy: i64,
    left: i128,
    right: i128,
    sx: i128,
    sy: i128,
    sxi: i64,
    syi: i64,
)
    requires
        old(b).wf(),
        src.wf(),
        src.holds(*sub),
        -0x1_0000_0000_0000_0000_0000 <= left <= 0x1_0000_0000_0000_0000_0000,
        -0x1_0000_0000_0000_0000_0000 <= right <= 0x1_0000_0000_0000_0000_0000,
        -0x1_0000_0000_0000_0000_0000 <= sx <= 0x1_0000_0000_0000_0000_0000,
        -0x1_0000_0000_0000_0000_0000 <= sy <= 0x1_0000_0000_0000_0000_0000,
        -0x8000_0000 <= sxi <= 0x8000_0000,
        -0x8000_0000 <= syi <= 0x8000_0000,
    ensures
        scanned(
            *old(b),
            *final(b),
            *src,
            *sub,
            dy as int,
            left as int,
            right as int,
            sx as int,
            sy as int,
            sxi as int,
            syi as int,
        ),
{
    let clip = b.clip;
    /* Adjust for clipping */
    if dy < clip.y as i64 || dy >= clip.y as i64 + clip.h as i64 {
        return ;
    }
    let l0: i128 = if left >= clip.x as i128 { left } else { clip.x as i128 };
    let edge: i128 = clip.x as i128 + clip.w as i128;
    let r0: i128 = if right <= edge { right } else { edge };
    if l0 >= r0 {
        return ;
    }
    let ghost lo = line_lo(*sub, sx as int, sy as int, sxi as int, syi as int, left as int, l0 as int, r0 as int);
    let d: i128 = l0 - left;
    proof {
        lemma_fx_walk_bound(0, sxi as int, d as int, 0x2_0000_0000_0000_0000_0000, 0x8000_0000);
        lemma_fx_walk_bound(0, syi as int, d as int, 0x2_0000_0000_0000_0000_0000, 0x8000_0000);
    }
    let mut cx: i128 = sx + d * sxi as i128;
    let mut cy: i128 = sy + d * syi as i128;
    let mut cur: i32 = l0 as i32;
    let r0: i32 = r0 as i32;
    let ghost span = line_span(
        *sub,
        sx as int,
        sy as int,
        sxi as int,
        syi as int,
        left as int,
        right as int,
        clip.x as int,
        clip.w as int,
    );
    /* Does the scanline go out of bounds of the source rectangle? If so
     * the scanline and the source coordinates move inward, from the left. */
    let mut out: bool = !sample_in(sub, cx, cy);
    while out
        invariant
            0 <= clip.x <= l0 <= cur < r0 <= clip.x + clip.w,
            left <= l0,
            -0x1_0000_0000_0000_0000_0000 <= left,
            -0x1_0000_0000_0000_0000_0000 <= sx <= 0x1_0000_0000_0000_0000_0000,
            -0x1_0000_0000_0000_0000_0000 <= sy <= 0x1_0000_0000_0000_0000_0000,
            -0x8000_0000 <= sxi <= 0x8000_0000,
            -0x8000_0000 <= syi <= 0x8000_0000,
            cx == fx_walk(sx as int, sxi as int, cur - left),
            cy == fx_walk(sy as int, syi as int, cur - left),
            out == !line_inside(*sub, sx as int, sy as int, sxi as int, syi as int, cur - left),
            lo == line_lo(
                *sub,
                sx as int,
                sy as int,
                sxi as int,
                syi as int,
                left as int,
                cur as int,
                r0 as int,
            ),
            span == line_span(
                *sub,
                sx as int,
                sy as int,
                sxi as int,
                syi as int,
                left as int,
                right as int,
                clip.x as int,
                clip.w as int,
            ),
            clip == old(b).clip,
            span.0 == lo,
            lo >= r0 ==> span.1 == lo,
            *b == *old(b),
            b.wf(),
        decreases r0 - cur,
    {
        proof {
            lemma_fx_walk_next(sx as int, sxi as int, cur - left);
            lemma_fx_walk_next(sy as int, syi as int, cur - left);
            lemma_fx_walk_bound(
                sx as int,
                sxi as int,
                cur - left + 1,
                0x2_0000_0000_0000_0000_0000,
                0x8000_0000,
            );
            lemma_fx_walk_bound(
                sy as int,
                syi as int,
                cur - left + 1,
                0x2_0000_0000_0000_0000_0000,
                0x8000_0000,
            );
        }
        cur += 1;
        cx += sxi as i128;
        cy += syi as i128;
        assert(lo == line_lo(
            *sub,
            sx as int,
            sy as int,
            sxi as int,
            syi as int,
            left as int,
            cur as int,
            r0 as int,
        ));
        if cur >= r0 {
            return ;
        }
        out = !sample_in(sub, cx, cy);
    }
    /* And from the right. */
    let ghost hi = line_hi(*sub, sx as int, sy as int, sxi as int, syi as int, left as int, cur as int, r0 as int);
    let mut r: i32 = r0;
    let mut found: bool = false;
    while r > cur && !found
        invariant
            0 <= clip.x <= cur <= r <= r0 <= clip.x + clip.w,
            left <= cur,
            -0x1_0000_0000_0000_0000_0000 <= left,
            -0x1_0000_0000_0000_0000_0000 <= sx <= 0x1_0000_0000_0000_0000_0000,
            -0x1_0000_0000_0000_0000_0000 <= sy <= 0x1_0000_0000_0000_0000_0000,
            -0x8000_0000 <= sxi <= 0x8000_0000,
            -0x8000_0000 <= syi <= 0x8000_0000,
            cx == fx_walk(sx as int, sxi as int, cur - left),
            cy == fx_walk(sy as int, syi as int, cur - left),
            found ==> cur < r && line_inside(
                *sub,
                sx as int,
                sy as int,
                sxi as int,
                syi as int,
                r - 1 - left,
            ),
            hi == (if found {
                r as int
            } else {
                line_hi(
                    *sub,
                    sx as int,
                    sy as int,
                    sxi as int,
                    syi as int,
                    left as int,
                    cur as int,
                    r as int,
                )
            }),
        decreases r - cur + (if found { 0int } else { 1int }),
    {
        proof {
            lemma_fx_walk_add(sx as int, sxi as int, cur - left, r - 1 - cur);
            lemma_fx_walk_add(sy as int, syi as int, cur - left, r - 1 - cur);
            lemma_fx_walk_bound(0, sxi as int, r - 1 - cur, 0x1_0000_0000, 0x8000_0000);
            lemma_fx_walk_bound(0, syi as int, r - 1 - cur, 0x1_0000_0000, 0x8000_0000);
            lemma_fx_walk_bound(
                sx as int,
                sxi as int,
                cur - left,
                0x2_0000_0000_0000_0000_0000,
                0x8000_0000,
            );
            lemma_fx_walk_bound(
                sy as int,
                syi as int,
                cur - left,
                0x2_0000_0000_0000_0000_0000,
                0x8000_0000,
            );
        }
        let ex: i128 = cx + (r - 1 - cur) as i128 * sxi as i128;
        let ey: i128 = cy + (r - 1 - cur) as i128 * syi as i128;
        if sample_in(sub, ex, ey) {
            found = true;
        } else {
            r -= 1;
        }
    }
    if !found {
        return ;
    }
    /* Draw */
    let row: i32 = dy as i32;
    let mut dx: i32 = cur;
    while dx < r
        invariant
            0 <= clip.x <= cur <= dx <= r <= clip.x + clip.w,
            clip == old(b).clip,
            clip.y <= row < clip.y + clip.h,
            row == dy,
            left <= cur,
            -0x1_0000_0000_0000_0000_0000 <= left,
            -0x1_0000_0000_0000_0000_0000 <= sx <= 0x1_0000_0000_0000_0000_0000,
            -0x1_0000_0000_0000_0000_0000 <= sy <= 0x1_0000_0000_0000_0000_0000,
            -0x8000_0000 <= sxi <= 0x8000_0000,
            -0x8000_0000 <= syi <= 0x8000_0000,
            cx == fx_walk(sx as int, sxi as int, dx - left),
            cy == fx_walk(sy as int, syi as int, dx - left),
            line_inside(*sub, sx as int, sy as int, sxi as int, syi as int, cur - left),
            line_inside(*sub, sx as int, sy as int, sxi as int, syi as int, r - 1 - left),
            src.wf(),
            src.holds(*sub),
            b.wf(),
            old(b).wf(),
            b.same_frame(old(b)),
            forall|qx: int, qy: int|
                b.has(qx, qy) ==> #[trigger] b.at(qx, qy) == (if qy == row && cur <= qx < dx {
                    blend(
                        b.mode,
                        old(b).at(qx, qy),
                        src.at(
                            fx_floor(fx_walk(sx as int, sxi as int, qx - left)),
                            fx_floor(fx_walk(sy as int, syi as int, qx - left)),
                        ),
                    )
                } else {
                    old(b).at(qx, qy)
                }),
        decreases r - dx,
    {
        proof {
            lemma_fx_walk_between(sx as int, sxi as int, cur - left, dx - left, r - 1 - left);
            lemma_fx_walk_between(sy as int, syi as int, cur - left, dx - left, r - 1 - left);
            lemma_fx_walk_next(sx as int, sxi as int, dx - left);
            lemma_fx_walk_next(sy as int, syi as int, dx - left);
            lemma_fx_walk_bound(
                sx as int,
                sxi as int,
                dx - left + 1,
                0x2_0000_0000_0000_0000_0000,
                0x8000_0000,
            );
            lemma_fx_walk_bound(
                sy as int,
                syi as int,
                dx - left + 1,
                0x2_0000_0000_0000_0000_0000,
                0x8000_0000,
            );
        }
        let col: i32 = fx_pixel_wide(cx) as i32;
        let line: i32 = fx_pixel_wide(cy) as i32;
        b.blend_at(dx, row, src.peek(col, line));
        cx += sxi as i128;
        cy += syi as i128;
        dx += 1;
    }
}

/// What drawing the rectangle `sub` of `src`, rotated and scaled as `plan`
/// says, makes of the buffer `before`: the cells that a scanline of the
/// rasterizer reaches hold their old pixel composited with the source pixel
/// sampled for them, and every other cell holds what it held. No scanline
/// reaches a cell outside the clip rectangle.
pub open spec fn rotated(before: Buffer, after: Buffer, src: Buffer, sub: Rect, plan: Rotation) -> bool {
    &&& after.wf()
    &&& after.same_frame(&before)
    &&& forall|px: int, py: int|
        before.has(px, py) ==> #[trigger] after.at(px, py) == (if plan.hits(
            before.clip,
            sub,
            px,
            py,
        ) {
            blend(
                before.mode,
                before.at(px, py),
                src.at(plan.source_col(sub, px, py), plan.source_row(sub, px, py)),
            )
        } else {
            before.at(px, py)
        })
}

/// A rotated drawing changes no cell outside the clip rectangle.
pub proof fn lemma_rotate_confined(
    before: Buffer,
    after: Buffer,
    src: Buffer,
    sub: Rect,
    plan: Rotation,
    px: int,
    py: int,
)
    requires
        rotated(before, after, src, sub, plan),
        before.has(px, py),
        !before.clip.contains(px, py),
    ensures
        after.at(px, py) == before.at(px, py),
{
    if plan.hits(before.clip, sub, px, py) {
        plan.lemma_hits_in_clip(before.clip, sub, px, py);
    }
}

/// The fixed-point step per row of the edge from `a` to `b`.
fn edge(a: Point, b: Point) -> (step: i64)
    ensures
        step == edge_step(a, b),
{
    let n: i64 = (b.x as i64 - a.x as i64) * 4096;
    let d: i64 = b.y as i64 - a.y as i64;
    if d == 0 {
        n
    } else {
        proof {
            if n >= 0 {
                lemma_div_magnitude(n as int, d as int);
            } else {
                lemma_div_magnitude(-(n as int), d as int);
            }
        }
        n / d
    }
}

/// Draws the rectangle `sub` of `src` into `b` as the rotation `plan`
/// places it, cut to the clip rectangle of `b`.
///
/// The image is rasterized from its top corner down, one scanline per row.
/// The ends of the scanline follow the two upper edges and, from the row of
/// the left or right corner on, the lower edge on that side. A placement
/// that is upright is drawn as the plain blit draws it, and one that is
/// level as the scaling blit draws it.
pub fn rotate_scaled(b: &mut Buffer, src: &Buffer, sub: Rect, plan: &Rotation)
    requires
        old(b).wf(),
        src.wf(),
        src.holds(sub),
    ensures
        rotated(*old(b), *final(b), *src, sub, *plan),
        is_upright(*plan, plan.p0.x as int, plan.p0.y as int, sub) && sub.w >= 1 && sub.h >= 1
            ==> drawn(*old(b), *final(b), *src, plan.p0.x as int, plan.p0.y as int, sub),
        is_level_exact(*plan, sub) && old(b).clip.x <= plan.p0.x && old(b).clip.y <= plan.p0.y
            ==> scaled_drawn(
            *old(b),
            *final(b),
            *src,
            plan.p0.x as int,
            plan.p0.y as int,
            sub,
            level_scaling(*plan),
        ),
{
    rotate_rows(b, src, sub, plan);
    proof {
        if is_level_exact(*plan, sub) && old(b).clip.x <= plan.p0.x && old(b).clip.y <= plan.p0.y {
            lemma_rotate_level_exact(
                *old(b),
                *b,
                *src,
                sub,
                *plan,
                level_scaling(*plan),
                plan.p0.x as int,
                plan.p0.y as int,
            );
        }
        if is_upright(*plan, plan.p0.x as int, plan.p0.y as int, sub) && sub.w >= 1 && sub.h >= 1 {
            lemma_rotate_upright(
                *old(b),
                *b,
                *src,
                sub,
                *plan,
                plan.p0.x as int,
                plan.p0.y as int,
            );
        }
    }
}

/// The rasterizer of `rotate_scaled`.
fn rotate_rows(b: &mut Buffer, src: &Buffer, sub: Rect, plan: &Rotation)
    requires
        old(b).wf(),
        src.wf(),
        src.holds(sub),
    ensures
        rotated(*old(b), *final(b), *src, sub, *plan),
{
    let clip = b.clip;
    /* Set named points based on rotation */
    let q: i64 = plan.quadrant as i64;
    let top = plan.corner_at(-q);
    let right = plan.corner_at(-q + 1);
    let bottom = plan.corner_at(-q + 2);
    let left = plan.corner_at(-q + 3);
    /* Clipped completely off screen? */
    if bottom.y < clip.y || top.y as i64 >= clip.y as i64 + clip.h as i64 {
        return ;
    }
    if right.x < clip.x || left.x as i64 >= clip.x as i64 + clip.w as i64 {
        return ;
    }
    /* Destination */
    let mut xr: i128 = top.x as i128 * 4096;
    let mut xl: i128 = xr;
    let mut il: i64 = edge(top, left);
    let mut ir: i64 = edge(top, right);
    /* Source */
    let sxi: i64 = if plan.flip_x { -(plan.sxi as i64) } else { plan.sxi as i64 };
    let syi: i64 = if plan.flip_y { -(plan.syi as i64) } else { plan.syi as i64 };
    let mut sxoi: i64 = plan.sxoi as i64;
    let mut syoi: i64 = plan.syoi as i64;
    let far_x: i128 = (sub.x as i128 + sub.w as i128) * 4096 - 1;
    let far_y: i128 = (sub.y as i128 + sub.h as i128) * 4096 - 1;
    let mut sx: i128 = if plan.quadrant == 2 || plan.quadrant == 3 { far_x } else { sub.x as i128 * 4096 };
    let mut sy: i128 = if plan.quadrant == 1 || plan.quadrant == 2 { far_y } else { sub.y as i128 * 4096 };
    /* Adjust for right-angled rotation */
    let first: i64 = if left.y == top.y || right.y == top.y { top.y as i64 - 1 } else { top.y as i64 };
    let mut dy: i64 = first;
    let ghost mut w: Walk = plan.start(sub);
    proof {
        lemma_edge_step_bound(top, left);
        lemma_edge_step_bound(top, right);
        lemma_edge_step_bound(left, bottom);
        lemma_edge_step_bound(right, bottom);
    }
    /* Draw */
    while dy <= bottom.y as i64
        invariant
            b.wf(),
            src.wf(),
            src.holds(sub),
            b.same_frame(old(b)),
            clip == b.clip,
            plan.visible(clip),
            top == plan.top(),
            right == plan.right(),
            bottom == plan.bottom(),
            left == plan.left(),
            first == plan.first_row(),
            first <= dy,
            dy <= bottom.y + 1 || dy == first,
            sxi == plan.line_sxi(),
            syi == plan.line_syi(),
            w == plan.walk(sub, (dy - first) as nat),
            w.dy == dy,
            w.xl == xl,
            w.xr == xr,
            w.il == il,
            w.ir == ir,
            w.sx == sx,
            w.sy == sy,
            w.sxoi == sxoi,
            w.syoi == syoi,
            -0x1000_0000_0000 <= il <= 0x1000_0000_0000,
            -0x1000_0000_0000 <= ir <= 0x1000_0000_0000,
            -0x8000_0000 <= sxoi <= 0x8000_0000,
            -0x8000_0000 <= syoi <= 0x8000_0000,
            -0x1000_0000_0000 <= edge_step(left, bottom) <= 0x1000_0000_0000,
            -0x1000_0000_0000 <= edge_step(right, bottom) <= 0x1000_0000_0000,
            -0x1000_0000_0000 * (dy - first + 1) <= xl <= 0x1000_0000_0000 * (dy - first + 1),
            -0x1000_0000_0000 * (dy - first + 1) <= xr <= 0x1000_0000_0000 * (dy - first + 1),
            -0x1000_0000_0000 * (dy - first + 1) <= sx <= 0x1000_0000_0000 * (dy - first + 1),
            -0x1000_0000_0000 * (dy - first + 1) <= sy <= 0x1000_0000_0000 * (dy - first + 1),
            forall|qx: int, qy: int|
                b.has(qx, qy) ==> #[trigger] b.at(qx, qy) == (if qy < dy && plan.hits(
                    clip,
                    sub,
                    qx,
                    qy,
                ) {
                    blend(
                        b.mode,
                        old(b).at(qx, qy),
                        src.at(plan.source_col(sub, qx, qy), plan.source_row(sub, qx, qy)),
                    )
                } else {
                    old(b).at(qx, qy)
                }),
        decreases bottom.y + 1 - dy,
    {
        /* Invert source iterators & increments if we are scaled negatively */
        let tsx: i128 = if plan.flip_x {
            (sub.x as i128 * 2 + sub.w as i128) * 4096 - sx - 1
        } else {
            sx
        };
        let tsy: i128 = if plan.flip_y {
            (sub.y as i128 * 2 + sub.h as i128) * 4096 - sy - 1
        } else {
            sy
        };
        let ghost pre = *b;
        /* Draw row */
        scan_line(b, src, &sub, dy, fx_pixel_wide(xl), fx_pixel_wide(xr), tsx, tsy, sxi, syi);
        /* The source waits on the row above the top corner */
        if dy >= top.y as i64 {
            sx += sxoi as i128;
            sy += syoi as i128;
        }
        xl += il as i128;
        xr += ir as i128;
        dy += 1;
        /* Modify increments if we've reached the left or right corner */
        if dy == left.y as i64 {
            il = edge(left, bottom);
            sxoi = plan.sxoi_below as i64;
            syoi = plan.syoi_below as i64;
        }
        if dy == right.y as i64 {
            ir = edge(right, bottom);
        }
        proof {
            w = plan.step(w);
        }
    }
}

} // verus!
