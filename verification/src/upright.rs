//! The rotating blit at no angle: what it draws is what the plain blit
//! draws, and for a scaled image what the scaling blit draws.

use vstd::prelude::*;
use crate::blend::blend;
use crate::buffer::Buffer;
use crate::copy::blit_hits;
use crate::draw::drawn;
use crate::draw::rotated;
use crate::draw::scaled_drawn;
use crate::fixed::fx_floor;
use crate::fixed::fx_walk;
use crate::fixed::lemma_fx_walk_add;
use crate::fixed::lemma_fx_walk_next;
use crate::placement::edge_step;
use crate::placement::line_hi;
use crate::placement::line_inside;
use crate::placement::line_lo;
use crate::placement::line_span;
use crate::placement::scaled_origin;
use crate::placement::Rotation;
use crate::placement::Scaling;
use crate::rect::lemma_div_magnitude;
use crate::rect::max_int;
use crate::rect::min_int;
use crate::rect::Rect;

verus! {

/// Whether `plan` places the rectangle `sub` level: turned by no angle,
/// scaled to `width` by `height` pixels, with its first corner at `(x, y)`.
/// Along each axis the source step is the extent of `sub` in fixed point
/// over the extent of the image, rounded down. The steps that the
/// rasterizer takes below the lower corners are left open: no scanline that
/// draws depends on them.
pub open spec fn is_level(plan: Rotation, x: int, y: int, width: int, height: int, sub: Rect) -> bool {
    &&& width >= 1
    &&& height >= 1
    &&& plan.p0.x == x && plan.p0.y == y
    &&& plan.p1.x == x + width && plan.p1.y == y
    &&& plan.p2.x == x + width && plan.p2.y == y + height
    &&& plan.p3.x == x && plan.p3.y == y + height
    &&& plan.quadrant == 0
    &&& plan.sxi == (sub.w * 4096) / width
    &&& plan.syi == 0
    &&& plan.sxoi == 0
    &&& plan.syoi == (sub.h * 4096) / height
}

/// Whether `plan` places the rectangle `sub` upright: level, at its own
/// size and not mirrored.
pub open spec fn is_upright(plan: Rotation, x: int, y: int, sub: Rect) -> bool {
    &&& plan.p0.x == x && plan.p0.y == y
    &&& plan.p1.x == x + sub.w && plan.p1.y == y
    &&& plan.p2.x == x + sub.w && plan.p2.y == y + sub.h
    &&& plan.p3.x == x && plan.p3.y == y + sub.h
    &&& plan.quadrant == 0
    &&& !plan.flip_x
    &&& !plan.flip_y
    &&& plan.sxi == 4096
    &&& plan.syi == 0
    &&& plan.sxoi == 0
    &&& plan.syoi == 4096
}

/// The step of an axis with its sign: negative where the axis is mirrored.
pub open spec fn signed_step(flip: bool, step: int) -> int {
    if flip {
        -step
    } else {
        step
    }
}

/// The source coordinate that a level placement samples `k` pixels along an
/// axis: the walk starts at the near end of the `len` source pixels from
/// `start` on, or at the far end where the axis is mirrored.
pub open spec fn level_sample(start: int, len: int, flip: bool, step: int, k: int) -> int {
    start + fx_floor(fx_walk(scaled_origin(flip, len), signed_step(flip, step), k))
}

/// Whether the scaling `s` scales as the level placement `plan` does: to
/// the same extent, mirrored alike and with the same steps.
pub open spec fn scales_alike(s: Scaling, plan: Rotation, width: int, height: int) -> bool {
    &&& s.width == width
    &&& s.height == height
    &&& s.flip_x == plan.flip_x
    &&& s.flip_y == plan.flip_y
    &&& s.ix == signed_step(plan.flip_x, plan.sxi as int)
    &&& s.iy == signed_step(plan.flip_y, plan.syoi as int)
}

/// Whether the source pixels that `s` skips where the clip rectangle cuts
/// off the left or the top of an image at `(x, y)` are exactly the pixels
/// that the cut-off part stands for. Where they are not, the scaling blit
/// drifts against a blit that samples from the uncut corner.
pub open spec fn skips_exactly(s: Scaling, clip: Rect, x: int, y: int) -> bool {
    &&& clip.x > x ==> (clip.x - x) * s.ix == s.skip_x * 4096
    &&& clip.y > y ==> (clip.y - y) * s.iy == s.skip_y * 4096
}

/// An upright placement is level.
pub proof fn lemma_upright_is_level(plan: Rotation, x: int, y: int, sub: Rect)
    requires
        is_upright(plan, x, y, sub),
        sub.w >= 1,
        sub.h >= 1,
    ensures
        is_level(plan, x, y, sub.w as int, sub.h as int, sub),
        sub.h * plan.syoi == sub.h * 4096,
{
    let w = sub.w as int;
    let h = sub.h as int;
    assert((w * 4096) / w == 4096) by (nonlinear_arith)
        requires
            w >= 1,
    ;
    assert((h * 4096) / h == 4096) by (nonlinear_arith)
        requires
            h >= 1,
    ;
}

/// Along an axis of a level placement every pixel of the image samples
/// inside the source rectangle.
pub proof fn lemma_level_axis(len: int, extent: int, step: int, flip: bool, k: int)
    requires
        len >= 1,
        extent >= 1,
        step == (len * 4096) / extent,
        0 <= k < extent,
    ensures
        0 <= fx_floor(fx_walk(scaled_origin(flip, len), signed_step(flip, step), k)) < len,
{
    assert(0 <= k * step < len * 4096 && k * (-step) == -(k * step)) by (nonlinear_arith)
        requires
            len >= 1,
            extent >= 1,
            step == (len * 4096) / extent,
            0 <= k < extent,
    ;
}

/// The state of the rasterizer of a level placement, row by row: from the
/// second scanline on the scanline runs from `x` to `x + width`, and the
/// source position has moved down by one step for every scanline after the
/// second.
pub proof fn lemma_level_walk(
    plan: Rotation,
    x: int,
    y: int,
    width: int,
    height: int,
    sub: Rect,
    n: nat,
)
    requires
        is_level(plan, x, y, width, height, sub),
        n <= height + 1,
    ensures
        plan.top().y == y,
        plan.first_row() == y - 1,
        plan.bottom().y == y + height,
        plan.walk(sub, n).dy == y - 1 + n,
        plan.walk(sub, n).xl == x * 4096,
        plan.walk(sub, n).xr == (if n == 0 {
            x * 4096
        } else {
            (x + width) * 4096
        }),
        plan.walk(sub, n).sx == sub.x * 4096,
        plan.walk(sub, n).sy == (if n == 0 {
            sub.y * 4096
        } else {
            fx_walk(sub.y * 4096, plan.syoi as int, n - 1)
        }),
        plan.walk(sub, n).ir == (if n == 0 {
            width * 4096
        } else {
            0
        }),
        n <= height ==> plan.walk(sub, n).il == 0 && plan.walk(sub, n).sxoi == 0 && plan.walk(
            sub,
            n,
        ).syoi == plan.syoi,
    decreases n,
{
    lemma_div_magnitude(0, height);
    assert(plan.top() == plan.p0);
    assert(plan.right() == plan.p1);
    assert(plan.bottom() == plan.p2);
    assert(plan.left() == plan.p3);
    assert(edge_step(plan.top(), plan.left()) == 0);
    assert(edge_step(plan.top(), plan.right()) == width * 4096);
    assert(edge_step(plan.right(), plan.bottom()) == 0);
    if n > 0 {
        lemma_level_walk(plan, x, y, width, height, sub, (n - 1) as nat);
        let w = plan.walk(sub, (n - 1) as nat);
        assert(plan.walk(sub, n) == plan.step(w));
        if n >= 2 {
            lemma_fx_walk_next(sub.y * 4096, plan.syoi as int, n - 2);
        } else {
            lemma_fx_walk_next(sub.y * 4096, plan.syoi as int, 0);
        }
    }
}

/// Where no column of a scanline samples inside `sub`, the search from the
/// left runs through to the end.
pub proof fn lemma_line_lo_none(
    sub: Rect,
    sx: int,
    sy: int,
    sxi: int,
    syi: int,
    left: int,
    l: int,
    r: int,
)
    requires
        forall|k: int| !line_inside(sub, sx, sy, sxi, syi, k),
    ensures
        line_lo(sub, sx, sy, sxi, syi, left, l, r) >= r,
    decreases r - l,
{
    if l < r {
        lemma_line_lo_none(sub, sx, sy, sxi, syi, left, l + 1, r);
    }
}

/// The span of a scanline from `x` to `x + width` all of whose columns
/// sample inside `sub`: what the clip columns leave of it.
pub proof fn lemma_level_span(
    sub: Rect,
    sx: int,
    sy: int,
    sxi: int,
    x: int,
    width: int,
    clip_x: int,
    clip_w: int,
)
    requires
        forall|k: int| 0 <= k < width ==> line_inside(sub, sx, sy, sxi, 0, k),
    ensures
        ({
            let span = line_span(sub, sx, sy, sxi, 0, x, x + width, clip_x, clip_w);
            let l0 = max_int(x, clip_x);
            let r0 = min_int(x + width, clip_x + clip_w);
            if l0 < r0 {
                span == (l0, r0)
            } else {
                span.0 >= span.1
            }
        }),
{
    let l0 = max_int(x, clip_x);
    let r0 = min_int(x + width, clip_x + clip_w);
    let lo = line_lo(sub, sx, sy, sxi, 0, x, l0, r0);
    if l0 < r0 {
        assert(line_inside(sub, sx, sy, sxi, 0, l0 - x));
        assert(lo == l0);
        assert(line_inside(sub, sx, sy, sxi, 0, r0 - 1 - x));
        assert(line_hi(sub, sx, sy, sxi, 0, x, lo, r0) == r0);
    } else {
        assert(lo == l0);
    }
}

/// The cells that a level placement draws, and what it reads for them. In
/// every row but the one below the image the cells are those of the image
/// inside the clip rectangle, and the same holds of that row where the
/// steps down the image add up to the height of `sub` exactly; a cell
/// `(px, py)` reads the source pixel `px - x` steps along and `py - y`
/// steps down.
pub proof fn lemma_level_hits(
    plan: Rotation,
    clip: Rect,
    x: int,
    y: int,
    width: int,
    height: int,
    sub: Rect,
    px: int,
    py: int,
)
    requires
        is_level(plan, x, y, width, height, sub),
        sub.w >= 1,
        sub.h >= 1,
        py != y + height || height * plan.syoi == sub.h * 4096,
    ensures
        plan.hits(clip, sub, px, py) <==> clip.contains(px, py) && x <= px < x + width && y <= py
            < y + height,
        plan.hits(clip, sub, px, py) ==> plan.source_col(sub, px, py) == level_sample(
            sub.x as int,
            sub.w as int,
            plan.flip_x,
            plan.sxi as int,
            px - x,
        ) && plan.source_row(sub, px, py) == level_sample(
            sub.y as int,
            sub.h as int,
            plan.flip_y,
            plan.syoi as int,
            py - y,
        ),
        plan.hits(clip, sub, px, py) ==> sub.contains(
            plan.source_col(sub, px, py),
            plan.source_row(sub, px, py),
        ),
{
    lemma_level_walk(plan, x, y, width, height, sub, 0);
    let n = py - (y - 1);
    if 0 <= n <= height + 1 {
        lemma_level_walk(plan, x, y, width, height, sub, n as nat);
        let w = plan.walk(sub, n as nat);
        assert(w == plan.row_state(sub, py));
        let sx = plan.line_sx(sub, w);
        let sy = plan.line_sy(sub, w);
        let sxi = plan.line_sxi();
        let ox = scaled_origin(plan.flip_x, sub.w as int);
        let oy = scaled_origin(plan.flip_y, sub.h as int);
        let stepx = signed_step(plan.flip_x, plan.sxi as int);
        let stepy = signed_step(plan.flip_y, plan.syoi as int);
        assert(plan.line_syi() == 0);
        assert(sxi == stepx);
        assert(sx == sub.x * 4096 + ox);
        assert(fx_floor(w.xl) == x);
        let left = x;
        let right = fx_floor(w.xr);
        let span = line_span(sub, sx, sy, sxi, 0, left, right, clip.x as int, clip.w as int);
        if n == 0 {
            assert(right == x);
            let l0 = max_int(left, clip.x as int);
            let r0 = min_int(right, clip.x + clip.w);
            assert(line_lo(sub, sx, sy, sxi, 0, left, l0, r0) == l0);
            assert(span.0 >= span.1);
        } else {
            assert(right == x + width);
            // the source row of this scanline
            assert(fx_walk(sub.y * 4096, plan.syoi as int, n - 1) == sub.y * 4096 + (n - 1)
                * plan.syoi);
            assert((n - 1) * (-plan.syoi) == -((n - 1) * plan.syoi)) by (nonlinear_arith);
            assert(sy == sub.y * 4096 + fx_walk(oy, stepy, n - 1));
            assert forall|k: int| fx_walk(sy, 0, k) == sy by {
                assert(fx_walk(sy, 0, k) == sy) by (nonlinear_arith)
                    requires
                        fx_walk(sy, 0, k) == sy + k * 0,
                ;
            }
            let row = sub.y + fx_floor(fx_walk(oy, stepy, n - 1));
            assert(fx_floor(sy) == row);
            assert forall|k: int| fx_floor(#[trigger] fx_walk(sx, sxi, k)) == sub.x + fx_floor(
                fx_walk(ox, stepx, k),
            ) by {
                assert(fx_walk(sx, sxi, k) == sub.x * 4096 + fx_walk(ox, stepx, k));
            }
            if n <= height {
                lemma_level_axis(sub.h as int, height, plan.syoi as int, plan.flip_y, n - 1);
                assert forall|k: int| 0 <= k < width implies line_inside(sub, sx, sy, sxi, 0, k) by {
                    lemma_level_axis(sub.w as int, width, plan.sxi as int, plan.flip_x, k);
                    assert(fx_floor(fx_walk(sx, sxi, k)) == sub.x + fx_floor(fx_walk(ox, stepx, k)));
                }
                lemma_level_span(sub, sx, sy, sxi, x, width, clip.x as int, clip.w as int);
                if clip.contains(px, py) && x <= px < x + width {
                    assert(span.0 <= px < span.1);
                    assert(plan.visible(clip));
                    lemma_level_axis(sub.w as int, width, plan.sxi as int, plan.flip_x, px - x);
                    assert(fx_floor(fx_walk(sx, sxi, px - x)) == sub.x + fx_floor(
                        fx_walk(ox, stepx, px - x),
                    ));
                }
            } else {
                // the row below the image: its source row lies outside `sub`
                assert(n - 1 == height);
                assert(fx_walk(oy, stepy, height) == oy + height * stepy);
                assert(height * (-plan.syoi) == -(height * plan.syoi)) by (nonlinear_arith);
                assert(row < sub.y || row >= sub.y + sub.h);
                assert forall|k: int| !line_inside(sub, sx, sy, sxi, 0, k) by {}
                let l0 = max_int(left, clip.x as int);
                let r0 = min_int(right, clip.x + clip.w);
                lemma_line_lo_none(sub, sx, sy, sxi, 0, left, l0, r0);
                assert(span.0 >= span.1);
            }
        }
    }
}

/// The cells that an upright placement draws are the cells that the plain
/// blit draws, and it reads for each of them the source pixel that the
/// plain blit reads.
pub proof fn lemma_upright_hits(plan: Rotation, clip: Rect, x: int, y: int, sub: Rect, px: int, py: int)
    requires
        is_upright(plan, x, y, sub),
        sub.w >= 1,
        sub.h >= 1,
    ensures
        plan.hits(clip, sub, px, py) <==> blit_hits(clip, x, y, sub, px, py),
        plan.hits(clip, sub, px, py) ==> plan.source_col(sub, px, py) == sub.x + (px - x)
            && plan.source_row(sub, px, py) == sub.y + (py - y),
{
    lemma_upright_is_level(plan, x, y, sub);
    lemma_level_hits(plan, clip, x, y, sub.w as int, sub.h as int, sub, px, py);
    assert(fx_walk(0, 4096, px - x) == (px - x) * 4096);
    assert(fx_walk(0, 4096, py - y) == (py - y) * 4096);
}

/// Rotation by no angle draws what the plain blit draws: for an upright
/// placement of `sub` at `(x, y)` the rotating blit and the plain blit of
/// `sub` at `(x, y)` make the same of every buffer. The scanline that the
/// rasterizer starts above the image draws nothing and reads nothing.
pub proof fn lemma_rotate_upright(
    before: Buffer,
    after: Buffer,
    src: Buffer,
    sub: Rect,
    plan: Rotation,
    x: int,
    y: int,
)
    requires
        before.wf(),
        src.wf(),
        src.holds(sub),
        sub.w >= 1,
        sub.h >= 1,
        is_upright(plan, x, y, sub),
    ensures
        rotated(before, after, src, sub, plan) <==> drawn(before, after, src, x, y, sub),
{
    if rotated(before, after, src, sub, plan) {
        assert forall|px: int, py: int| before.has(px, py) implies #[trigger] after.at(px, py) == (
        if blit_hits(before.clip, x, y, sub, px, py) {
            blend(before.mode, before.at(px, py), src.at(sub.x + (px - x), sub.y + (py - y)))
        } else {
            before.at(px, py)
        }) by {
            lemma_upright_hits(plan, before.clip, x, y, sub, px, py);
        }
    }
    if drawn(before, after, src, x, y, sub) {
        assert forall|px: int, py: int| before.has(px, py) implies #[trigger] after.at(px, py) == (
        if plan.hits(before.clip, sub, px, py) {
            blend(
                before.mode,
                before.at(px, py),
                src.at(plan.source_col(sub, px, py), plan.source_row(sub, px, py)),
            )
        } else {
            before.at(px, py)
        }) by {
            lemma_upright_hits(plan, before.clip, x, y, sub, px, py);
        }
    }
}

/// Rotation by no angle draws what the scaling blit draws: for a level
/// placement of `sub` at `(x, y)` and a scaling that scales alike, the
/// rotating blit and the scaling blit at `(x, y)` leave the same pixel in
/// every cell, but for the cells of one row: the row below the image,
/// where the rasterizer draws one more scanline unless the steps down the
/// image add up to the height of `sub` exactly.
pub proof fn lemma_rotate_level(
    before: Buffer,
    turned: Buffer,
    scaled: Buffer,
    src: Buffer,
    sub: Rect,
    plan: Rotation,
    s: Scaling,
    x: int,
    y: int,
    px: int,
    py: int,
)
    requires
        before.wf(),
        src.wf(),
        src.holds(sub),
        sub.w >= 1,
        sub.h >= 1,
        is_level(plan, x, y, s.width as int, s.height as int, sub),
        scales_alike(s, plan, s.width as int, s.height as int),
        skips_exactly(s, before.clip, x, y),
        rotated(before, turned, src, sub, plan),
        scaled_drawn(before, scaled, src, x, y, sub, s),
        before.has(px, py),
        py != y + s.height || s.height * plan.syoi == sub.h * 4096,
    ensures
        turned.at(px, py) == scaled.at(px, py),
{
    let clip = before.clip;
    lemma_level_hits(plan, clip, x, y, s.width as int, s.height as int, sub, px, py);
    assert(plan.hits(clip, sub, px, py) <==> blit_hits(clip, x, y, s.footprint(x, y), px, py));
    if plan.hits(clip, sub, px, py) {
        lemma_scaled_sample(
            sub.x as int,
            sub.w as int,
            s.flip_x,
            s.ix as int,
            s.skip_x as int,
            x,
            clip.x as int,
            px,
        );
        lemma_scaled_sample(
            sub.y as int,
            sub.h as int,
            s.flip_y,
            s.iy as int,
            s.skip_y as int,
            y,
            clip.y as int,
            py,
        );
    }
}

/// The scaling that scales as the level placement `plan` does and skips no
/// source pixel.
pub open spec fn level_scaling(plan: Rotation) -> Scaling {
    Scaling {
        width: (plan.p1.x - plan.p0.x) as i32,
        height: (plan.p3.y - plan.p0.y) as i32,
        flip_x: plan.flip_x,
        flip_y: plan.flip_y,
        ix: signed_step(plan.flip_x, plan.sxi as int) as i32,
        iy: signed_step(plan.flip_y, plan.syoi as int) as i32,
        skip_x: 0,
        skip_y: 0,
    }
}

/// Whether `plan` places `sub` level with steps down the image that add up
/// to the height of `sub` exactly, so that the rasterizer draws no row
/// below the image.
pub open spec fn is_level_exact(plan: Rotation, sub: Rect) -> bool {
    let width = plan.p1.x - plan.p0.x;
    let height = plan.p3.y - plan.p0.y;
    &&& sub.w >= 1
    &&& sub.h >= 1
    &&& is_level(plan, plan.p0.x as int, plan.p0.y as int, width, height, sub)
    &&& scales_alike(level_scaling(plan), plan, width, height)
    &&& height * plan.syoi == sub.h * 4096
}

/// Where the steps down the image add up to the height of `sub` exactly,
/// rotation by no angle draws what the scaling blit draws in every cell:
/// what the rotating blit makes of a buffer is what the scaling blit makes
/// of it.
pub proof fn lemma_rotate_level_exact(
    before: Buffer,
    after: Buffer,
    src: Buffer,
    sub: Rect,
    plan: Rotation,
    s: Scaling,
    x: int,
    y: int,
)
    requires
        before.wf(),
        src.wf(),
        src.holds(sub),
        sub.w >= 1,
        sub.h >= 1,
        is_level(plan, x, y, s.width as int, s.height as int, sub),
        scales_alike(s, plan, s.width as int, s.height as int),
        skips_exactly(s, before.clip, x, y),
        s.height * plan.syoi == sub.h * 4096,
        rotated(before, after, src, sub, plan),
    ensures
        scaled_drawn(before, after, src, x, y, sub, s),
{
    let clip = before.clip;
    assert forall|px: int, py: int| before.has(px, py) implies #[trigger] after.at(px, py) == (
    if blit_hits(clip, x, y, s.footprint(x, y), px, py) && s.reads(
        src.w as int,
        src.h as int,
        sub,
        x,
        y,
        clip,
        px,
        py,
    ) {
        blend(
            before.mode,
            before.at(px, py),
            src.at(s.col(sub, x, clip, px), s.row(sub, y, clip, py)),
        )
    } else {
        before.at(px, py)
    }) by {
        lemma_level_hits(plan, clip, x, y, s.width as int, s.height as int, sub, px, py);
        if plan.hits(clip, sub, px, py) {
            lemma_scaled_sample(
                sub.x as int,
                sub.w as int,
                s.flip_x,
                s.ix as int,
                s.skip_x as int,
                x,
                clip.x as int,
                px,
            );
            lemma_scaled_sample(
                sub.y as int,
                sub.h as int,
                s.flip_y,
                s.iy as int,
                s.skip_y as int,
                y,
                clip.y as int,
                py,
            );
        }
    }
}

/// Where the skipped source pixels are exactly what the cut-off part of a
/// span stands for, the scaling blit samples along the axis what a walk
/// from the uncut start of the span samples.
pub proof fn lemma_scaled_sample(
    start: int,
    len: int,
    flip: bool,
    step: int,
    skip: int,
    pos: int,
    lo: int,
    p: int,
)
    requires
        lo > pos ==> (lo - pos) * step == skip * 4096,
    ensures
        crate::placement::scaled_sample(start, len, flip, step, skip, pos, lo, p) == start
            + fx_floor(fx_walk(scaled_origin(flip, len), step, p - pos)),
{
    if lo > pos {
        lemma_fx_walk_add(scaled_origin(flip, len), step, lo - pos, p - lo);
    }
}

} // verus!
