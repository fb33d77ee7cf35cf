//! Drawing primitives of a buffer: single pixels, filled rectangles, boxes,
//! lines, discs and rings. All of them composite under the mode of the
//! buffer and stay inside its clip rectangle.

use vstd::prelude::*;
use crate::blend::blend;
use crate::blend::DrawMode;
use crate::buffer::Buffer;
use crate::pixel::Pixel;
use crate::rect::Rect;

verus! {

/// Whether `(px, py)` lies in the `w` by `h` cells whose first is `(x, y)`.
pub open spec fn in_span(x: int, y: int, w: int, h: int, px: int, py: int) -> bool {
    x <= px < x + w && y <= py < y + h
}

/// The pixel `p` of the cell `(px, py)` after the colour `c` is drawn on the
/// `w` by `h` cells whose first is `(x, y)`.
pub open spec fn fill_cell(
    mode: DrawMode,
    clip: Rect,
    c: Pixel,
    x: int,
    y: int,
    w: int,
    h: int,
    p: Pixel,
    px: int,
    py: int,
) -> Pixel {
    if clip.contains(px, py) && in_span(x, y, w, h, px, py) {
        blend(mode, p, c)
    } else {
        p
    }
}

/// What drawing the colour `c` on the `w` by `h` cells whose first is
/// `(x, y)` makes of the buffer `before`: the cells among them that lie in
/// the clip rectangle hold their old pixel composited with `c`, and every
/// other cell holds what it held.
pub open spec fn filled(before: Buffer, after: Buffer, c: Pixel, x: int, y: int, w: int, h: int) -> bool {
    &&& after.wf()
    &&& after.same_frame(&before)
    &&& forall|px: int, py: int|
        before.has(px, py) ==> #[trigger] after.at(px, py) == fill_cell(
            before.mode,
            before.clip,
            c,
            x,
            y,
            w,
            h,
            before.at(px, py),
            px,
            py,
        )
}

impl Buffer {
    /// Draws `c` on the cell `(x, y)` if the clip rectangle holds it.
    pub(crate) fn plot(&mut self, c: Pixel, x: i64, y: i64)
        requires
            old(self).wf(),
        ensures
            filled(*old(self), *final(self), c, x as int, y as int, 1, 1),
    {
        let clip = self.clip;
        if x >= clip.x as i64 && x < clip.x as i64 + clip.w as i64 && y >= clip.y as i64 && y
            < clip.y as i64 + clip.h as i64 {
            self.blend_at(x as i32, y as i32, c);
        }
    }

    /// Draws `c` on the `w` by `h` cells whose first is `(x, y)`, as far as
    /// the clip rectangle holds them.
    pub(crate) fn fill(&mut self, c: Pixel, x: i64, y: i64, w: i64, h: i64)
        requires
            old(self).wf(),
            -0x100_0000_0000 <= x <= 0x100_0000_0000,
            -0x100_0000_0000 <= y <= 0x100_0000_0000,
            -0x100_0000_0000 <= w <= 0x100_0000_0000,
            -0x100_0000_0000 <= h <= 0x100_0000_0000,
        ensures
            filled(*old(self), *final(self), c, x as int, y as int, w as int, h as int),
    {
        let clip = self.clip;
        let x0: i64 = if x >= clip.x as i64 { x } else { clip.x as i64 };
        let y0: i64 = if y >= clip.y as i64 { y } else { clip.y as i64 };
        let xc: i64 = clip.x as i64 + clip.w as i64;
        let yc: i64 = clip.y as i64 + clip.h as i64;
        let x1: i64 = if x + w <= xc { x + w } else { xc };
        let y1: i64 = if y + h <= yc { y + h } else { yc };
        if x0 >= x1 || y0 >= y1 {
            return ;
        }
        let x0: i32 = x0 as i32;
        let y0: i32 = y0 as i32;
        let x1: i32 = x1 as i32;
        let y1: i32 = y1 as i32;
        let mut py: i32 = y0;
        while py < y1
            invariant
                0 <= y0 <= py <= y1 <= self.h,
                0 <= x0 < x1 <= self.w,
                self.wf(),
                self.same_frame(old(self)),
                forall|qx: int, qy: int|
                    self.has(qx, qy) ==> #[trigger] self.at(qx, qy) == (if x0 <= qx < x1 && y0
                        <= qy < py {
                        blend(self.mode, old(self).at(qx, qy), c)
                    } else {
                        old(self).at(qx, qy)
                    }),
            decreases y1 - py,
        {
            let mut px: i32 = x0;
            while px < x1
                invariant
                    0 <= y0 <= py < y1 <= self.h,
                    0 <= x0 <= px <= x1 <= self.w,
                    self.wf(),
                    self.same_frame(old(self)),
                    forall|qx: int, qy: int|
                        self.has(qx, qy) ==> #[trigger] self.at(qx, qy) == (if x0 <= qx < x1 && (y0
                            <= qy < py || (qy == py && qx < px)) {
                            blend(self.mode, old(self).at(qx, qy), c)
                        } else {
                            old(self).at(qx, qy)
                        }),
                decreases x1 - px,
            {
                self.blend_at(px, py, c);
                px += 1;
            }
            py += 1;
        }
    }

    /// Composites the colour `c` onto the pixel at `(x, y)`, if the clip
    /// rectangle holds it.
    pub fn draw_pixel(&mut self, c: Pixel, x: i32, y: i32)
        requires
            old(self).wf(),
        ensures
            filled(*old(self), *final(self), c, x as int, y as int, 1, 1),
    {
        self.plot(c, x as i64, y as i64);
    }

    /// Composites the colour `c` onto the `w` by `h` pixels whose first is
    /// `(x, y)`, as far as the clip rectangle holds them.
    pub fn draw_rect(&mut self, c: Pixel, x: i32, y: i32, w: i32, h: i32)
        requires
            old(self).wf(),
        ensures
            filled(*old(self), *final(self), c, x as int, y as int, w as int, h as int),
    {
        self.fill(c, x as i64, y as i64, w as i64, h as i64);
    }

    /// Draws the outline of the `w` by `h` rectangle whose first pixel is
    /// `(x, y)`, one pixel wide: the top side without its first pixel, the
    /// bottom side without its last, the left side without its last and the
    /// right side without its first, in this order.
    pub fn draw_box(&mut self, c: Pixel, x: i32, y: i32, w: i32, h: i32)
        requires
            old(self).wf(),
        ensures
            final(self).wf(),
            final(self).same_frame(old(self)),
            forall|px: int, py: int|
                old(self).has(px, py) ==> #[trigger] final(self).at(px, py) == box_cell(
                    old(self).mode,
                    old(self).clip,
                    c,
                    x as int,
                    y as int,
                    w as int,
                    h as int,
                    old(self).at(px, py),
                    px,
                    py,
                ),
    {
        let (x, y, w, h) = (x as i64, y as i64, w as i64, h as i64);
        self.fill(c, x + 1, y, w - 1, 1);
        self.fill(c, x, y + h - 1, w - 1, 1);
        self.fill(c, x, y, 1, h - 1);
        self.fill(c, x + w - 1, y + 1, 1, h - 1);
    }
}

/// The pixel `p` of the cell `(px, py)` after the four sides of a box are
/// drawn over it one after the other.
pub open spec fn box_cell(
    mode: DrawMode,
    clip: Rect,
    c: Pixel,
    x: int,
    y: int,
    w: int,
    h: int,
    p: Pixel,
    px: int,
    py: int,
) -> Pixel {
    let top = fill_cell(mode, clip, c, x + 1, y, w - 1, 1, p, px, py);
    let bottom = fill_cell(mode, clip, c, x, y + h - 1, w - 1, 1, top, px, py);
    let left = fill_cell(mode, clip, c, x, y, 1, h - 1, bottom, px, py);
    fill_cell(mode, clip, c, x + w - 1, y + 1, 1, h - 1, left, px, py)
}

/// The distance between two coordinates.
pub open spec fn span_abs(a: int, b: int) -> int {
    if a >= b {
        a - b
    } else {
        b - a
    }
}

/// Whether a line is walked along its rows: it covers more rows than
/// columns.
pub open spec fn line_steep(x0: int, y0: int, x1: int, y1: int) -> bool {
    span_abs(y1, y0) > span_abs(x1, x0)
}

/// The ends of a line as it is walked: `(a0, b0)` and `(a1, b1)` with
/// `a0 <= a1`, `a` being the coordinate that grows by one with every step
/// (the row of a steep line, the column of any other).
pub open spec fn line_ends(x0: int, y0: int, x1: int, y1: int) -> (int, int, int, int) {
    let (p0, q0, p1, q1) = if line_steep(x0, y0, x1, y1) {
        (y0, x0, y1, x1)
    } else {
        (x0, y0, x1, y1)
    };
    if p0 > p1 {
        (p1, q1, p0, q0)
    } else {
        (p0, q0, p1, q1)
    }
}

/// After `k` steps along a line that is `deltax` long and `deltay` across:
/// how often the line moved across, and the error term that decides the
/// next move.
pub open spec fn line_walk(deltax: int, deltay: int, k: nat) -> (int, int)
    decreases k,
{
    if k == 0 {
        (0, deltax / 2)
    } else {
        let (moves, error) = line_walk(deltax, deltay, (k - 1) as nat);
        if error - deltay < 0 {
            (moves + 1, error - deltay + deltax)
        } else {
            (moves, error - deltay)
        }
    }
}

/// Whether the line from `(x0, y0)` to `(x1, y1)` passes through the cell
/// `(px, py)`.
pub open spec fn line_hits(x0: int, y0: int, x1: int, y1: int, px: int, py: int) -> bool {
    let (a0, b0, a1, b1) = line_ends(x0, y0, x1, y1);
    let (u, v) = if line_steep(x0, y0, x1, y1) {
        (py, px)
    } else {
        (px, py)
    };
    let moves = line_walk(a1 - a0, span_abs(b1, b0), (u - a0) as nat).0;
    &&& a0 <= u <= a1
    &&& v == (if b0 < b1 {
        b0 + moves
    } else {
        b0 - moves
    })
}

impl Buffer {
    /// Draws a line from `(x0, y0)` to `(x1, y1)`, both ends included, one
    /// pixel for every column that it covers, or for every row where it
    /// covers more rows than columns.
    pub fn draw_line(&mut self, c: Pixel, x0: i32, y0: i32, x1: i32, y1: i32)
        requires
            old(self).wf(),
        ensures
            final(self).wf(),
            final(self).same_frame(old(self)),
            forall|px: int, py: int|
                old(self).has(px, py) ==> #[trigger] final(self).at(px, py) == (if old(
                    self,
                ).clip.contains(px, py) && line_hits(
                    x0 as int,
                    y0 as int,
                    x1 as int,
                    y1 as int,
                    px,
                    py,
                ) {
                    blend(old(self).mode, old(self).at(px, py), c)
                } else {
                    old(self).at(px, py)
                }),
    {
        let ghost ends = line_ends(x0 as int, y0 as int, x1 as int, y1 as int);
        let ady: i64 = if y1 >= y0 { y1 as i64 - y0 as i64 } else { y0 as i64 - y1 as i64 };
        let adx: i64 = if x1 >= x0 { x1 as i64 - x0 as i64 } else { x0 as i64 - x1 as i64 };
        let steep: bool = ady > adx;
        let (p0, q0, p1, q1) = if steep {
            (y0 as i64, x0 as i64, y1 as i64, x1 as i64)
        } else {
            (x0 as i64, y0 as i64, x1 as i64, y1 as i64)
        };
        let (a0, b0, a1, b1) = if p0 > p1 {
            (p1, q1, p0, q0)
        } else {
            (p0, q0, p1, q1)
        };
        let deltax: i64 = a1 - a0;
        let deltay: i64 = if b1 >= b0 { b1 - b0 } else { b0 - b1 };
        let up: bool = b0 < b1;
        let mut error: i64 = deltax / 2;
        let mut moves: i64 = 0;
        let mut a: i64 = a0;
        while a <= a1
            invariant
                self.wf(),
                self.same_frame(old(self)),
                ends == (a0 as int, b0 as int, a1 as int, b1 as int),
                ends == line_ends(x0 as int, y0 as int, x1 as int, y1 as int),
                steep == line_steep(x0 as int, y0 as int, x1 as int, y1 as int),
                up == (b0 < b1),
                -0x8000_0000 <= a0 <= a <= a1 + 1 <= 0x8000_0000,
                -0x8000_0000 <= b0 <= 0x8000_0000,
                deltax == a1 - a0,
                deltay == span_abs(b1 as int, b0 as int),
                0 <= deltay <= deltax,
                (moves as int, error as int) == line_walk(
                    deltax as int,
                    deltay as int,
                    (a - a0) as nat,
                ),
                0 <= moves <= a - a0,
                0 <= error,
                error < deltax || deltax == 0,
                forall|px: int, py: int|
                    self.has(px, py) ==> #[trigger] self.at(px, py) == (if self.clip.contains(
                        px,
                        py,
                    ) && (if steep {
                        py
                    } else {
                        px
                    }) < a && line_hits(x0 as int, y0 as int, x1 as int, y1 as int, px, py) {
                        blend(self.mode, old(self).at(px, py), c)
                    } else {
                        old(self).at(px, py)
                    }),
            decreases a1 + 1 - a,
        {
            let b: i64 = if up { b0 + moves } else { b0 - moves };
            if steep {
                self.plot(c, b, a);
            } else {
                self.plot(c, a, b);
            }
            error -= deltay;
            if error < 0 {
                moves += 1;
                error += deltax;
            }
            a += 1;
        }
    }
}

/// Whether the box around a circle of radius `r` about `(x, y)` reaches the
/// clip rectangle; a circle whose box does not is not drawn at all.
pub open spec fn circle_visible(clip: Rect, x: int, y: int, r: int) -> bool {
    &&& x + r >= clip.x
    &&& x - r <= clip.x + clip.w
    &&& y + r >= clip.y
    &&& y - r <= clip.y + clip.h
}

/// The error term of the midpoint walk around a circle after one more
/// step, from the offsets `(dx, dy)` before it.
pub open spec fn circle_error(dx: int, dy: int, err: int) -> int {
    if err < 0 {
        err + 2 * (dy + 1) + 1
    } else {
        err + 2 * ((dy + 1) - (dx - 1) + 1)
    }
}

/// The horizontal offset of the midpoint walk after one more step.
pub open spec fn circle_dx(dx: int, err: int) -> int {
    if err < 0 {
        dx
    } else {
        dx - 1
    }
}

/// The pixel `p` of the cell `(px, py)` after the eight points of a ring
/// with the offsets `(dx, dy)` are drawn one after the other. Points that
/// fall together are drawn as often as they occur.
pub open spec fn ring_points(
    mode: DrawMode,
    clip: Rect,
    c: Pixel,
    x: int,
    y: int,
    dx: int,
    dy: int,
    p: Pixel,
    px: int,
    py: int,
) -> Pixel {
    let p1 = fill_cell(mode, clip, c, dx + x, dy + y, 1, 1, p, px, py);
    let p2 = fill_cell(mode, clip, c, dy + x, dx + y, 1, 1, p1, px, py);
    let p3 = fill_cell(mode, clip, c, -dx + x, dy + y, 1, 1, p2, px, py);
    let p4 = fill_cell(mode, clip, c, -dy + x, dx + y, 1, 1, p3, px, py);
    let p5 = fill_cell(mode, clip, c, -dx + x, -dy + y, 1, 1, p4, px, py);
    let p6 = fill_cell(mode, clip, c, -dy + x, -dx + y, 1, 1, p5, px, py);
    let p7 = fill_cell(mode, clip, c, dx + x, -dy + y, 1, 1, p6, px, py);
    fill_cell(mode, clip, c, dy + x, -dx + y, 1, 1, p7, px, py)
}

/// The pixel `p` of the cell `(px, py)` after the rest of a ring is drawn,
/// from the offsets `(dx, dy)` on until the walk has covered an eighth of
/// the circle.
pub open spec fn ring_rest(
    mode: DrawMode,
    clip: Rect,
    c: Pixel,
    x: int,
    y: int,
    dx: int,
    dy: int,
    err: int,
    p: Pixel,
    px: int,
    py: int,
) -> Pixel
    decreases dx - dy + 2,
{
    if dx < dy {
        p
    } else {
        ring_rest(
            mode,
            clip,
            c,
            x,
            y,
            circle_dx(dx, err),
            dy + 1,
            circle_error(dx, dy, err),
            ring_points(mode, clip, c, x, y, dx, dy, p, px, py),
            px,
            py,
        )
    }
}

/// The pixel `p` of the cell `(px, py)`, and whether its row is taken, after
/// a row of a disc is drawn: `len` pixels from `(xs, row)` on. A row that is
/// taken, or that lies above the grid, is left alone; any other row is
/// taken now, however much of it the disc covers.
pub open spec fn disc_row(
    mode: DrawMode,
    clip: Rect,
    c: Pixel,
    xs: int,
    row: int,
    len: int,
    state: (Pixel, bool),
    px: int,
    py: int,
) -> (Pixel, bool) {
    if py == row && row >= 0 && !state.1 {
        (fill_cell(mode, clip, c, xs, row, len, 1, state.0, px, py), true)
    } else {
        state
    }
}

/// The state of the cell `(px, py)` after the four rows that belong to the
/// offsets `(dx, dy)` are drawn one after the other.
pub open spec fn disc_rows(
    mode: DrawMode,
    clip: Rect,
    c: Pixel,
    x: int,
    y: int,
    dx: int,
    dy: int,
    state: (Pixel, bool),
    px: int,
    py: int,
) -> (Pixel, bool) {
    let s1 = disc_row(mode, clip, c, x - dx, y + dy, 2 * dx, state, px, py);
    let s2 = disc_row(mode, clip, c, x - dx, y - dy, 2 * dx, s1, px, py);
    let s3 = disc_row(mode, clip, c, x - dy, y + dx, 2 * dy, s2, px, py);
    disc_row(mode, clip, c, x - dy, y - dx, 2 * dy, s3, px, py)
}

/// The state of the cell `(px, py)` after the rest of a disc is drawn, from
/// the offsets `(dx, dy)` on.
pub open spec fn disc_rest(
    mode: DrawMode,
    clip: Rect,
    c: Pixel,
    x: int,
    y: int,
    dx: int,
    dy: int,
    err: int,
    state: (Pixel, bool),
    px: int,
    py: int,
) -> (Pixel, bool)
    decreases dx - dy + 2,
{
    if dx < dy {
        state
    } else {
        disc_rest(
            mode,
            clip,
            c,
            x,
            y,
            circle_dx(dx, err),
            dy + 1,
            circle_error(dx, dy, err),
            disc_rows(mode, clip, c, x, y, dx, dy, state, px, py),
            px,
            py,
        )
    }
}

impl Buffer {
    /// Draws one row of a disc unless the row is taken.
    fn take_row(&mut self, rows: &mut Vec<bool>, c: Pixel, xs: i64, row: i64, len: i64)
        requires
            old(self).wf(),
            old(rows)@.len() == old(self).h,
            -0x10_0000_0000 <= xs <= 0x10_0000_0000,
            -0x10_0000_0000 <= len <= 0x10_0000_0000,
        ensures
            final(self).wf(),
            final(self).same_frame(old(self)),
            final(rows)@.len() == old(rows)@.len(),
            forall|px: int, py: int|
                old(self).has(px, py) ==> (#[trigger] final(self).at(px, py), final(rows)@[py])
                    == disc_row(
                    old(self).mode,
                    old(self).clip,
                    c,
                    xs as int,
                    row as int,
                    len as int,
                    (old(self).at(px, py), old(rows)@[py]),
                    px,
                    py,
                ),
    {
        if row >= 0 && row < self.h as i64 && !rows[row as usize] {
            self.fill(c, xs, row, len, 1);
            rows.set(row as usize, true);
        }
    }

    /// Draws a filled circle of the given radius about `(x, y)`, row by
    /// row. Every row is drawn once: by its first span, however short.
    pub fn draw_circle(&mut self, c: Pixel, x: i32, y: i32, radius: i32)
        requires
            old(self).wf(),
        ensures
            final(self).wf(),
            final(self).same_frame(old(self)),
            forall|px: int, py: int|
                old(self).has(px, py) ==> #[trigger] final(self).at(px, py) == (if circle_visible(
                    old(self).clip,
                    x as int,
                    y as int,
                    span_abs(radius as int, 0),
                ) {
                    disc_rest(
                        old(self).mode,
                        old(self).clip,
                        c,
                        x as int,
                        y as int,
                        span_abs(radius as int, 0),
                        0,
                        1 - span_abs(radius as int, 0),
                        (old(self).at(px, py), false),
                        px,
                        py,
                    ).0
                } else {
                    old(self).at(px, py)
                }),
    {
        let clip = self.clip;
        let (x, y) = (x as i64, y as i64);
        let r: i64 = if radius >= 0 { radius as i64 } else { -(radius as i64) };
        let mut dx: i64 = r;
        let mut dy: i64 = 0;
        let mut radius_error: i64 = 1 - dx;
        /* Clipped completely off-screen? */
        if x + dx < clip.x as i64 || x - dx > clip.x as i64 + clip.w as i64 || y + dx
            < clip.y as i64 || y - dx > clip.y as i64 + clip.h as i64 {
            return ;
        }
        /* the rows that have been drawn, so that none is drawn twice */
        let mut rows: Vec<bool> = vec![false; self.h as usize];
        while dx >= dy
            invariant
                self.wf(),
                self.same_frame(old(self)),
                clip == self.clip,
                rows@.len() == self.h,
                0 <= r <= 0x8000_0000,
                0 <= dy <= r + 1,
                -1 <= dx <= r,
                -0x8_0000_0000 <= radius_error <= 0x8_0000_0000 + 6 * dy,
                -0x8000_0000 <= x < 0x8000_0000,
                -0x8000_0000 <= y < 0x8000_0000,
                forall|px: int, py: int|
                    self.has(px, py) ==> disc_rest(
                        self.mode,
                        clip,
                        c,
                        x as int,
                        y as int,
                        r as int,
                        0,
                        1 - r,
                        (old(self).at(px, py), false),
                        px,
                        py,
                    ).0 == disc_rest(
                        self.mode,
                        clip,
                        c,
                        x as int,
                        y as int,
                        dx as int,
                        dy as int,
                        radius_error as int,
                        (#[trigger] self.at(px, py), rows@[py]),
                        px,
                        py,
                    ).0,
            decreases dx - dy + 2,
        {
            self.take_row(&mut rows, c, x - dx, y + dy, 2 * dx);
            self.take_row(&mut rows, c, x - dx, y - dy, 2 * dx);
            self.take_row(&mut rows, c, x - dy, y + dx, 2 * dy);
            self.take_row(&mut rows, c, x - dy, y - dx, 2 * dy);
            dy += 1;
            if radius_error < 0 {
                radius_error += 2 * dy + 1;
            } else {
                dx -= 1;
                radius_error += 2 * (dy - dx + 1);
            }
        }
    }

    /// Draws the outline of a circle of the given radius about `(x, y)`,
    /// eight points at a time.
    pub fn draw_ring(&mut self, c: Pixel, x: i32, y: i32, radius: i32)
        requires
            old(self).wf(),
        ensures
            final(self).wf(),
            final(self).same_frame(old(self)),
            forall|px: int, py: int|
                old(self).has(px, py) ==> #[trigger] final(self).at(px, py) == (if circle_visible(
                    old(self).clip,
                    x as int,
                    y as int,
                    span_abs(radius as int, 0),
                ) {
                    ring_rest(
                        old(self).mode,
                        old(self).clip,
                        c,
                        x as int,
                        y as int,
                        span_abs(radius as int, 0),
                        0,
                        1 - span_abs(radius as int, 0),
                        old(self).at(px, py),
                        px,
                        py,
                    )
                } else {
                    old(self).at(px, py)
                }),
    {
        let clip = self.clip;
        let (x, y) = (x as i64, y as i64);
        let r: i64 = if radius >= 0 { radius as i64 } else { -(radius as i64) };
        let mut dx: i64 = r;
        let mut dy: i64 = 0;
        let mut radius_error: i64 = 1 - dx;
        /* Clipped completely off-screen? */
        if x + dx < clip.x as i64 || x - dx > clip.x as i64 + clip.w as i64 || y + dx
            < clip.y as i64 || y - dx > clip.y as i64 + clip.h as i64 {
            return ;
        }
        /* Draw */
        while dx >= dy
            invariant
                self.wf(),
                self.same_frame(old(self)),
                clip == self.clip,
                0 <= r <= 0x8000_0000,
                0 <= dy <= r + 1,
                -1 <= dx <= r,
                -0x8_0000_0000 <= radius_error <= 0x8_0000_0000 + 6 * dy,
                -0x8000_0000 <= x < 0x8000_0000,
                -0x8000_0000 <= y < 0x8000_0000,
                forall|px: int, py: int|
                    self.has(px, py) ==> ring_rest(
                        self.mode,
                        clip,
                        c,
                        x as int,
                        y as int,
                        r as int,
                        0,
                        1 - r,
                        old(self).at(px, py),
                        px,
                        py,
                    ) == ring_rest(
                        self.mode,
                        clip,
                        c,
                        x as int,
                        y as int,
                        dx as int,
                        dy as int,
                        radius_error as int,
                        #[trigger] self.at(px, py),
                        px,
                        py,
                    ),
            decreases dx - dy + 2,
        {
            self.plot(c, dx + x, dy + y);
            self.plot(c, dy + x, dx + y);
            self.plot(c, -dx + x, dy + y);
            self.plot(c, -dy + x, dx + y);
            self.plot(c, -dx + x, -dy + y);
            self.plot(c, -dy + x, -dx + y);
            self.plot(c, dx + x, -dy + y);
            self.plot(c, dy + x, -dx + y);
            dy += 1;
            if radius_error < 0 {
                radius_error += 2 * dy + 1;
            } else {
                dx -= 1;
                radius_error += 2 * (dy - dx + 1);
            }
        }
    }
}

} // verus!
