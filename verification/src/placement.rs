//! How a source is placed on a destination once a transform is resolved to
//! whole numbers: extents, fixed-point steps and corner points.

use vstd::prelude::*;
use crate::buffer::Buffer;
use crate::fixed::fx_floor;
use crate::fixed::fx_pixel;
use crate::fixed::fx_walk;
use crate::fixed::lemma_fx_walk_between;
use crate::fixed::lemma_fx_walk_bound;
use crate::rect::lemma_div_magnitude;
use crate::rect::max_int;
use crate::rect::min_int;
use crate::rect::xdiv;
use crate::rect::Point;
use crate::rect::Rect;

verus! {

/// An axis-aligned scaling of a source rectangle.
///
/// The scaled image covers `width` by `height` destination pixels. From one
/// destination pixel to the next the source position moves by `ix`
/// horizontally and from one row to the next by `iy` vertically, both in
/// fixed point; a mirrored axis starts at the far edge of the source
/// rectangle and has a negative step. `skip_x` and `skip_y` are the whole
/// source pixels by which the source rectangle moves when the clip
/// rectangle cuts off the left or the top of the image.
#[derive(Debug, Copy, Clone, PartialEq, Eq, Structural)]
pub struct Scaling {
    pub width: i32,
    pub height: i32,
    pub flip_x: bool,
    pub flip_y: bool,
    pub ix: i32,
    pub iy: i32,
    pub skip_x: i32,
    pub skip_y: i32,
}

/// Where a span placed at `pos` begins once it is cut to start at `lo`.
pub open spec fn span_start(pos: int, lo: int) -> int {
    max_int(pos, lo)
}

/// Where a span of `len` pixels placed at `pos` ends once it is cut to the
/// interval `[lo, lo + extent)`.
pub open spec fn span_end(pos: int, len: int, lo: int, extent: int) -> int {
    min_int(pos + len, lo + extent)
}

/// The fixed-point source position of the first pixel of an axis: zero, or
/// the last position inside `len` source pixels where the axis is mirrored.
pub open spec fn scaled_origin(flip: bool, len: int) -> int {
    if flip {
        len * 4096 - 1
    } else {
        0
    }
}

/// The source coordinate that the sampling of an axis starts from: `start`,
/// moved by `skip` where the clip interval cuts off the head of the span.
pub open spec fn scaled_base(start: int, skip: int, pos: int, lo: int) -> int {
    if lo > pos {
        start + skip
    } else {
        start
    }
}

/// The source coordinate sampled for the destination coordinate `p` along
/// one axis.
pub open spec fn scaled_sample(
    start: int,
    len: int,
    flip: bool,
    step: int,
    skip: int,
    pos: int,
    lo: int,
    p: int,
) -> int {
    scaled_base(start, skip, pos, lo) + fx_floor(
        fx_walk(scaled_origin(flip, len), step, p - span_start(pos, lo)),
    )
}

/// Whether the samples of one axis stay inside `[0, limit)`: the first and
/// the last do, and the others lie between them.
pub open spec fn axis_inside(
    start: int,
    len: int,
    flip: bool,
    step: int,
    skip: int,
    pos: int,
    lo: int,
    first: int,
    end: int,
    limit: int,
) -> bool {
    &&& 0 <= scaled_sample(start, len, flip, step, skip, pos, lo, first) < limit
    &&& 0 <= scaled_sample(start, len, flip, step, skip, pos, lo, end - 1) < limit
}

/// Every sample between the first and the last of an axis stays inside the
/// limit that these two respect.
pub proof fn lemma_axis_inside(
    start: int,
    len: int,
    flip: bool,
    step: int,
    skip: int,
    pos: int,
    lo: int,
    first: int,
    end: int,
    limit: int,
    p: int,
)
    requires
        first == span_start(pos, lo),
        axis_inside(start, len, flip, step, skip, pos, lo, first, end, limit),
        first <= p < end,
    ensures
        0 <= scaled_sample(start, len, flip, step, skip, pos, lo, p) < limit,
{
    lemma_fx_walk_between(scaled_origin(flip, len), step, 0, p - first, end - 1 - first);
}

/// The sample of one axis, computed.
fn sample_axis(
    start: i32,
    len: i32,
    flip: bool,
    step: i32,
    skip: i32,
    pos: i32,
    lo: i32,
    p: i32,
) -> (s: i64)
    requires
        pos <= p,
        0 <= lo <= p,
    ensures
        s == scaled_sample(
            start as int,
            len as int,
            flip,
            step as int,
            skip as int,
            pos as int,
            lo as int,
            p as int,
        ),
{
    let base: i64 = if lo > pos {
        start as i64 + skip as i64
    } else {
        start as i64
    };
    let origin: i64 = if flip {
        len as i64 * 4096 - 1
    } else {
        0
    };
    let first: i64 = if pos >= lo {
        pos as i64
    } else {
        lo as i64
    };
    let k: i64 = p as i64 - first;
    proof {
        lemma_fx_walk_bound(0, step as int, k as int, 0x8000_0000, 0x8000_0000);
    }
    base + fx_pixel(origin + k * step as i64)
}

impl Scaling {
    /// The destination rectangle that the scaled image covers when it is
    /// placed at `(x, y)`.
    pub open spec fn footprint(&self, x: int, y: int) -> Rect {
        Rect { x: x as i32, y: y as i32, w: self.width, h: self.height }
    }

    /// The source column sampled for the destination column `px`.
    pub open spec fn col(&self, sub: Rect, x: int, clip: Rect, px: int) -> int {
        scaled_sample(
            sub.x as int,
            sub.w as int,
            self.flip_x,
            self.ix as int,
            self.skip_x as int,
            x,
            clip.x as int,
            px,
        )
    }

    /// The source row sampled for the destination row `py`.
    pub open spec fn row(&self, sub: Rect, y: int, clip: Rect, py: int) -> int {
        scaled_sample(
            sub.y as int,
            sub.h as int,
            self.flip_y,
            self.iy as int,
            self.skip_y as int,
            y,
            clip.y as int,
            py,
        )
    }

    /// Whether the sample for the destination cell `(px, py)` is a cell of
    /// the `w` by `h` source. A cell whose sample is none is not drawn.
    pub open spec fn reads(
        &self,
        w: int,
        h: int,
        sub: Rect,
        x: int,
        y: int,
        clip: Rect,
        px: int,
        py: int,
    ) -> bool {
        &&& 0 <= self.col(sub, x, clip, px) < w
        &&& 0 <= self.row(sub, y, clip, py) < h
    }

    /// Where a blit reads cells of the source only, every cell under the
    /// image and in the clip rectangle has its sample in the source.
    pub proof fn lemma_inside_reads(
        &self,
        clip: Rect,
        w: int,
        h: int,
        x: int,
        y: int,
        sub: Rect,
        px: int,
        py: int,
    )
        requires
            self.inside(clip, w, h, x, y, sub),
            clip.contains(px, py),
            x <= px < x + self.width,
            y <= py < y + self.height,
        ensures
            self.reads(w, h, sub, x, y, clip, px, py),
    {
        let x0 = span_start(x, clip.x as int);
        let x1 = span_end(x, self.width as int, clip.x as int, clip.w as int);
        let y0 = span_start(y, clip.y as int);
        let y1 = span_end(y, self.height as int, clip.y as int, clip.h as int);
        lemma_axis_inside(
            sub.x as int,
            sub.w as int,
            self.flip_x,
            self.ix as int,
            self.skip_x as int,
            x,
            clip.x as int,
            x0,
            x1,
            w,
            px,
        );
        lemma_axis_inside(
            sub.y as int,
            sub.h as int,
            self.flip_y,
            self.iy as int,
            self.skip_y as int,
            y,
            clip.y as int,
            y0,
            y1,
            h,
            py,
        );
    }

    /// Whether a blit at `(x, y)` into a buffer with the clip rectangle
    /// `clip` samples cells of the `w` by `h` source only, so that no pixel
    /// of the visible image is left out. Where the clip rectangle leaves
    /// nothing of the image visible nothing is sampled.
    pub open spec fn inside(&self, clip: Rect, w: int, h: int, x: int, y: int, sub: Rect) -> bool {
        let x0 = span_start(x, clip.x as int);
        let x1 = span_end(x, self.width as int, clip.x as int, clip.w as int);
        let y0 = span_start(y, clip.y as int);
        let y1 = span_end(y, self.height as int, clip.y as int, clip.h as int);
        x0 < x1 && y0 < y1 ==> {
            &&& axis_inside(
                sub.x as int,
                sub.w as int,
                self.flip_x,
                self.ix as int,
                self.skip_x as int,
                x,
                clip.x as int,
                x0,
                x1,
                w,
            )
            &&& axis_inside(
                sub.y as int,
                sub.h as int,
                self.flip_y,
                self.iy as int,
                self.skip_y as int,
                y,
                clip.y as int,
                y0,
                y1,
                h,
            )
        }
    }

    /// The same scaling with neither axis mirrored.
    pub open spec fn upright(&self) -> Scaling {
        Scaling { flip_x: false, flip_y: false, ..*self }
    }

    /// Whether a scaled blit of `src` into `b` would draw every pixel of the
    /// image that the clip rectangle of `b` leaves visible.
    pub fn fits(&self, b: &Buffer, src: &Buffer, x: i32, y: i32, sub: Rect) -> (ok: bool)
        requires
            b.wf(),
            src.wf(),
        ensures
            ok == self.inside(b.clip, src.w as int, src.h as int, x as int, y as int, sub),
    {
        let clip = b.clip;
        let x0: i32 = if x >= clip.x { x } else { clip.x };
        let y0: i32 = if y >= clip.y { y } else { clip.y };
        let xe: i64 = x as i64 + self.width as i64;
        let ye: i64 = y as i64 + self.height as i64;
        let x1: i64 = if xe <= clip.x as i64 + clip.w as i64 { xe } else { clip.x as i64 + clip.w as i64 };
        let y1: i64 = if ye <= clip.y as i64 + clip.h as i64 { ye } else { clip.y as i64 + clip.h as i64 };
        if x0 as i64 >= x1 || y0 as i64 >= y1 {
            return true;
        }
        let xl: i32 = (x1 - 1) as i32;
        let yl: i32 = (y1 - 1) as i32;
        let c0 = sample_axis(sub.x, sub.w, self.flip_x, self.ix, self.skip_x, x, clip.x, x0);
        let c1 = sample_axis(sub.x, sub.w, self.flip_x, self.ix, self.skip_x, x, clip.x, xl);
        let r0 = sample_axis(sub.y, sub.h, self.flip_y, self.iy, self.skip_y, y, clip.y, y0);
        let r1 = sample_axis(sub.y, sub.h, self.flip_y, self.iy, self.skip_y, y, clip.y, yl);
        0 <= c0 && c0 < src.w as i64 && 0 <= c1 && c1 < src.w as i64 && 0 <= r0 && r0 < src.h as i64
            && 0 <= r1 && r1 < src.h as i64
    }
}

/// A rotated and scaled placement of a source rectangle.
///
/// `p0` to `p3` are the corners of the image on the destination: the
/// corner of the source origin first, then the others in the order in
/// which the source rectangle is walked around (along its top edge first).
/// `quadrant` counts the quarter turns of the rotation, rounded down.
/// The source position moves by `(sxi, syi)` from one pixel of a scanline to
/// the next, by `(sxoi, syoi)` from one scanline to the next above the left
/// corner of the image, and by `(sxoi_below, syoi_below)` from there on; all
/// three are in fixed point. A mirrored axis is sampled from its far end.
#[derive(Debug, Copy, Clone, PartialEq, Eq, Structural)]
pub struct Rotation {
    pub p0: Point,
    pub p1: Point,
    pub p2: Point,
    pub p3: Point,
    pub quadrant: i32,
    pub flip_x: bool,
    pub flip_y: bool,
    pub sxi: i32,
    pub syi: i32,
    pub sxoi: i32,
    pub syoi: i32,
    pub sxoi_below: i32,
    pub syoi_below: i32,
}

/// The state of the rasterizer before it draws the scanline `dy`: the
/// fixed-point ends `xl` and `xr` of the scanline with their steps per row
/// `il` and `ir`, and the fixed-point source position `(sx, sy)` of the
/// left end with its step per row.
pub struct Walk {
    pub dy: int,
    pub xl: int,
    pub xr: int,
    pub il: int,
    pub ir: int,
    pub sx: int,
    pub sy: int,
    pub sxoi: int,
    pub syoi: int,
}

/// The fixed-point step per row of the edge from `a` to `b`. A level edge
/// has the whole horizontal distance as its step.
pub open spec fn edge_step(a: Point, b: Point) -> int {
    xdiv((b.x - a.x) * 4096, b.y - a.y)
}

/// The step of an edge is no larger in magnitude than its horizontal
/// distance in fixed point.
pub proof fn lemma_edge_step_bound(a: Point, b: Point)
    ensures
        -0x1000_0000_0000 <= edge_step(a, b) <= 0x1000_0000_0000,
{
    let n = (b.x - a.x) * 4096;
    let d = b.y - a.y;
    if d != 0 {
        if n >= 0 {
            lemma_div_magnitude(n, d);
        } else {
            lemma_div_magnitude(-n, d);
        }
    }
}

/// Whether the sample `k` pixels along a scanline lies in `sub`.
pub open spec fn line_inside(sub: Rect, sx: int, sy: int, sxi: int, syi: int, k: int) -> bool {
    sub.contains(fx_floor(fx_walk(sx, sxi, k)), fx_floor(fx_walk(sy, syi, k)))
}

/// The first destination column from `l` on, and before `r`, whose sample
/// lies in `sub`; a column at or beyond `r` where there is none. Samples
/// are counted from the column `left`.
pub open spec fn line_lo(
    sub: Rect,
    sx: int,
    sy: int,
    sxi: int,
    syi: int,
    left: int,
    l: int,
    r: int,
) -> int
    decreases r - l,
{
    if l >= r {
        l
    } else if line_inside(sub, sx, sy, sxi, syi, l - left) {
        l
    } else {
        line_lo(sub, sx, sy, sxi, syi, left, l + 1, r)
    }
}

/// The end of the span that starts at `lo` and may reach the column `r`:
/// the column after the last one before `r`, and not before `lo`, whose
/// sample lies in `sub`; `lo` where there is none.
pub open spec fn line_hi(
    sub: Rect,
    sx: int,
    sy: int,
    sxi: int,
    syi: int,
    left: int,
    lo: int,
    r: int,
) -> int
    decreases r - lo,
{
    if r <= lo {
        lo
    } else if line_inside(sub, sx, sy, sxi, syi, r - 1 - left) {
        r
    } else {
        line_hi(sub, sx, sy, sxi, syi, left, lo, r - 1)
    }
}

/// The columns `[lo, hi)` that a scanline from `left` to `right` draws
/// inside the clip columns `[clip_x, clip_x + clip_w)`: the scanline is cut
/// to the clip columns, then shortened from both ends until the samples of
/// its first and of its last column lie in `sub`.
pub open spec fn line_span(
    sub: Rect,
    sx: int,
    sy: int,
    sxi: int,
    syi: int,
    left: int,
    right: int,
    clip_x: int,
    clip_w: int,
) -> (int, int) {
    let l0 = max_int(left, clip_x);
    let r0 = min_int(right, clip_x + clip_w);
    let lo = line_lo(sub, sx, sy, sxi, syi, left, l0, r0);
    if lo < r0 {
        (lo, line_hi(sub, sx, sy, sxi, syi, left, lo, r0))
    } else {
        (lo, lo)
    }
}

/// The search from the left ends at or after its start, and on a column
/// whose sample lies in `sub` where it ends before `r`.
pub proof fn lemma_line_lo(
    sub: Rect,
    sx: int,
    sy: int,
    sxi: int,
    syi: int,
    left: int,
    l: int,
    r: int,
)
    ensures
        l <= line_lo(sub, sx, sy, sxi, syi, left, l, r),
        line_lo(sub, sx, sy, sxi, syi, left, l, r) < r ==> line_inside(
            sub,
            sx,
            sy,
            sxi,
            syi,
            line_lo(sub, sx, sy, sxi, syi, left, l, r) - left,
        ),
    decreases r - l,
{
    if l < r && !line_inside(sub, sx, sy, sxi, syi, l - left) {
        lemma_line_lo(sub, sx, sy, sxi, syi, left, l + 1, r);
    }
}

/// The search from the right ends between `lo` and its start.
pub proof fn lemma_line_hi(
    sub: Rect,
    sx: int,
    sy: int,
    sxi: int,
    syi: int,
    left: int,
    lo: int,
    r: int,
)
    ensures
        line_hi(sub, sx, sy, sxi, syi, left, lo, r) <= max_int(lo, r),
        lo <= line_hi(sub, sx, sy, sxi, syi, left, lo, r),
    decreases r - lo,
{
    if r > lo && !line_inside(sub, sx, sy, sxi, syi, r - 1 - left) {
        lemma_line_hi(sub, sx, sy, sxi, syi, left, lo, r - 1);
    }
}

/// The span of a scanline lies within the clip columns.
pub proof fn lemma_line_span_in_clip(
    sub: Rect,
    sx: int,
    sy: int,
    sxi: int,
    syi: int,
    left: int,
    right: int,
    clip_x: int,
    clip_w: int,
)
    ensures
        ({
            let span = line_span(sub, sx, sy, sxi, syi, left, right, clip_x, clip_w);
            span.0 < span.1 ==> clip_x <= span.0 && span.1 <= clip_x + clip_w
        }),
{
    let l0 = max_int(left, clip_x);
    let r0 = min_int(right, clip_x + clip_w);
    lemma_line_lo(sub, sx, sy, sxi, syi, left, l0, r0);
    let lo = line_lo(sub, sx, sy, sxi, syi, left, l0, r0);
    lemma_line_hi(sub, sx, sy, sxi, syi, left, lo, r0);
}

/// Whether the scanline of the row `dy` draws the cell `(px, py)`.
pub open spec fn line_hits(
    clip: Rect,
    sub: Rect,
    dy: int,
    left: int,
    right: int,
    sx: int,
    sy: int,
    sxi: int,
    syi: int,
    px: int,
    py: int,
) -> bool {
    let span = line_span(sub, sx, sy, sxi, syi, left, right, clip.x as int, clip.w as int);
    &&& py == dy
    &&& clip.y <= dy < clip.y + clip.h
    &&& span.0 <= px < span.1
}

impl Rotation {
    /// The corner with the number `i`, counted modulo four.
    pub open spec fn corner(&self, i: int) -> Point {
        if i % 4 == 0 {
            self.p0
        } else if i % 4 == 1 {
            self.p1
        } else if i % 4 == 2 {
            self.p2
        } else {
            self.p3
        }
    }

    /// The corner with the least row.
    pub open spec fn top(&self) -> Point {
        self.corner(-(self.quadrant as int))
    }

    /// The corner with the greatest column.
    pub open spec fn right(&self) -> Point {
        self.corner(-(self.quadrant as int) + 1)
    }

    /// The corner with the greatest row.
    pub open spec fn bottom(&self) -> Point {
        self.corner(-(self.quadrant as int) + 2)
    }

    /// The corner with the least column.
    pub open spec fn left(&self) -> Point {
        self.corner(-(self.quadrant as int) + 3)
    }

    /// Whether the box around the corners meets the clip rectangle.
    pub open spec fn visible(&self, clip: Rect) -> bool {
        &&& self.bottom().y >= clip.y
        &&& self.top().y < clip.y + clip.h
        &&& self.right().x >= clip.x
        &&& self.left().x < clip.x + clip.w
    }

    /// The row of the first scanline. Where the top edge is level the
    /// rasterizer starts one row above the top corner: on that row the two
    /// ends of the scanline still fall together and nothing is drawn, and
    /// the step to the next row opens the scanline to the width of the
    /// level edge.
    pub open spec fn first_row(&self) -> int {
        if self.left().y == self.top().y || self.right().y == self.top().y {
            self.top().y - 1
        } else {
            self.top().y as int
        }
    }

    /// The source position that the rasterizer starts from: the corner of
    /// `sub` that the rotation turns to the top.
    pub open spec fn source_start(&self, sub: Rect) -> (int, int) {
        if self.quadrant == 1 {
            (sub.x * 4096, (sub.y + sub.h) * 4096 - 1)
        } else if self.quadrant == 2 {
            ((sub.x + sub.w) * 4096 - 1, (sub.y + sub.h) * 4096 - 1)
        } else if self.quadrant == 3 {
            ((sub.x + sub.w) * 4096 - 1, sub.y * 4096)
        } else {
            (sub.x * 4096, sub.y * 4096)
        }
    }

    /// The state before the first scanline.
    pub open spec fn start(&self, sub: Rect) -> Walk {
        Walk {
            dy: self.first_row(),
            xl: self.top().x * 4096,
            xr: self.top().x * 4096,
            il: edge_step(self.top(), self.left()),
            ir: edge_step(self.top(), self.right()),
            sx: self.source_start(sub).0,
            sy: self.source_start(sub).1,
            sxoi: self.sxoi as int,
            syoi: self.syoi as int,
        }
    }

    /// The state one scanline further down. On reaching the row of the left
    /// corner the left end and the source position take the steps of the
    /// lower edge, on reaching the row of the right corner the right end
    /// does. On the row above the top corner only the ends of the scanline
    /// move: the source position waits for the first row of the image.
    pub open spec fn step(&self, w: Walk) -> Walk {
        let at_left = w.dy + 1 == self.left().y;
        let at_right = w.dy + 1 == self.right().y;
        let early = w.dy < self.top().y;
        Walk {
            dy: w.dy + 1,
            xl: w.xl + w.il,
            xr: w.xr + w.ir,
            il: if at_left {
                edge_step(self.left(), self.bottom())
            } else {
                w.il
            },
            ir: if at_right {
                edge_step(self.right(), self.bottom())
            } else {
                w.ir
            },
            sx: if early {
                w.sx
            } else {
                w.sx + w.sxoi
            },
            sy: if early {
                w.sy
            } else {
                w.sy + w.syoi
            },
            sxoi: if at_left {
                self.sxoi_below as int
            } else {
                w.sxoi
            },
            syoi: if at_left {
                self.syoi_below as int
            } else {
                w.syoi
            },
        }
    }

    /// The state before the scanline `n` rows below the first.
    pub open spec fn walk(&self, sub: Rect, n: nat) -> Walk
        decreases n,
    {
        if n == 0 {
            self.start(sub)
        } else {
            self.step(self.walk(sub, (n - 1) as nat))
        }
    }

    /// The state before the scanline of the row `py`.
    pub open spec fn row_state(&self, sub: Rect, py: int) -> Walk {
        self.walk(sub, (py - self.first_row()) as nat)
    }

    /// Whether the rasterizer draws the cell `(px, py)`: the image is
    /// visible at all, the row has a scanline, and the span that is left of
    /// this scanline holds the column.
    pub open spec fn hits(&self, clip: Rect, sub: Rect, px: int, py: int) -> bool {
        let w = self.row_state(sub, py);
        &&& self.visible(clip)
        &&& self.first_row() <= py <= self.bottom().y
        &&& line_hits(
            clip,
            sub,
            py,
            fx_floor(w.xl),
            fx_floor(w.xr),
            self.line_sx(sub, w),
            self.line_sy(sub, w),
            self.line_sxi(),
            self.line_syi(),
            px,
            py,
        )
    }

    /// The source column sampled for the cell `(px, py)`.
    pub open spec fn source_col(&self, sub: Rect, px: int, py: int) -> int {
        let w = self.row_state(sub, py);
        fx_floor(fx_walk(self.line_sx(sub, w), self.line_sxi(), px - fx_floor(w.xl)))
    }

    /// The source row sampled for the cell `(px, py)`.
    pub open spec fn source_row(&self, sub: Rect, px: int, py: int) -> int {
        let w = self.row_state(sub, py);
        fx_floor(fx_walk(self.line_sy(sub, w), self.line_syi(), px - fx_floor(w.xl)))
    }

    /// A cell that the rasterizer draws lies in the clip rectangle.
    pub proof fn lemma_hits_in_clip(&self, clip: Rect, sub: Rect, px: int, py: int)
        requires
            self.hits(clip, sub, px, py),
        ensures
            clip.contains(px, py),
    {
        let w = self.row_state(sub, py);
        lemma_line_span_in_clip(
            sub,
            self.line_sx(sub, w),
            self.line_sy(sub, w),
            self.line_sxi(),
            self.line_syi(),
            fx_floor(w.xl),
            fx_floor(w.xr),
            clip.x as int,
            clip.w as int,
        );
    }

    /// How many rows the left corner lies below the top corner, and the
    /// bottom corner below the left corner: the heights of the two edges
    /// that the left end of the scanlines follows. The source steps per
    /// scanline are taken over these heights.
    pub fn spans(&self) -> (s: (i64, i64))
        ensures
            s.0 == self.left().y - self.top().y,
            s.1 == self.bottom().y - self.left().y,
    {
        let q: i64 = self.quadrant as i64;
        let top = self.corner_at(-q);
        let bottom = self.corner_at(-q + 2);
        let left = self.corner_at(-q + 3);
        (left.y as i64 - top.y as i64, bottom.y as i64 - left.y as i64)
    }

    /// Picks a corner by its number, counted modulo four.
    pub fn corner_at(&self, i: i64) -> (p: Point)
        ensures
            p == self.corner(i as int),
    {
        let m: i64 = i % 4;
        if m == 0 {
            self.p0
        } else if m == 1 || m == -3 {
            self.p1
        } else if m == 2 || m == -2 {
            self.p2
        } else {
            self.p3
        }
    }

    /// The source position of the left end of a scanline along one axis:
    /// the position of the state, or its mirror image in the source
    /// rectangle where the axis is mirrored.
    pub open spec fn line_origin(flip: bool, start: int, len: int, pos: int) -> int {
        if flip {
            (start * 2 + len) * 4096 - pos - 1
        } else {
            pos
        }
    }

    /// The source step per pixel of a scanline along one axis.
    pub open spec fn line_step(flip: bool, step: int) -> int {
        if flip {
            -step
        } else {
            step
        }
    }

    /// The source position of the left end of the scanline of the state `w`.
    pub open spec fn line_sx(&self, sub: Rect, w: Walk) -> int {
        Self::line_origin(self.flip_x, sub.x as int, sub.w as int, w.sx)
    }

    /// The same along the rows of the source.
    pub open spec fn line_sy(&self, sub: Rect, w: Walk) -> int {
        Self::line_origin(self.flip_y, sub.y as int, sub.h as int, w.sy)
    }

    /// The source step per pixel along a scanline.
    pub open spec fn line_sxi(&self) -> int {
        Self::line_step(self.flip_x, self.sxi as int)
    }

    /// The same along the rows of the source.
    pub open spec fn line_syi(&self) -> int {
        Self::line_step(self.flip_y, self.syi as int)
    }
}

} // verus!
