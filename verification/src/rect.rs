//! Integer rectangles, points and the clipping arithmetic of the blitters.

use vstd::prelude::*;

verus! {

/// A point of the pixel grid.
#[derive(Debug, Copy, Clone, PartialEq, Eq, Structural)]
pub struct Point {
    pub x: i32,
    pub y: i32,
}

impl Point {
    /// The point in column `x` and row `y`.
    pub fn new(x: i32, y: i32) -> (p: Point)
        ensures
            p == (Point { x, y }),
    {
        Point { x, y }
    }
}

/// An axis-aligned rectangle: the pixels `(px, py)` with
/// `x <= px < x + w` and `y <= py < y + h`.
#[derive(Debug, Copy, Clone, PartialEq, Eq, Structural)]
pub struct Rect {
    pub x: i32,
    pub y: i32,
    pub w: i32,
    pub h: i32,
}

impl Rect {
    /// The rectangle of `w` by `h` pixels whose first pixel is `(x, y)`.
    pub fn new(x: i32, y: i32, w: i32, h: i32) -> (r: Rect)
        ensures
            r == (Rect { x, y, w, h }),
    {
        Rect { x, y, w, h }
    }

    /// Whether the pixel `(px, py)` lies in the rectangle.
    pub open spec fn contains(self, px: int, py: int) -> bool {
        self.x <= px < self.x + self.w && self.y <= py < self.y + self.h
    }

    /// A rectangle without area holds no pixel.
    pub open spec fn is_empty(self) -> bool {
        self.w <= 0 || self.h <= 0
    }

    /// Whether the rectangle has no negative extent and holds no pixel
    /// outside the grid `[0, w) x [0, h)`.
    pub open spec fn within(self, w: int, h: int) -> bool {
        &&& 0 <= self.x
        &&& 0 <= self.y
        &&& 0 <= self.w
        &&& 0 <= self.h
        &&& self.w > 0 ==> self.x + self.w <= w
        &&& self.h > 0 ==> self.y + self.h <= h
    }
}

/// The greater of two numbers.
pub open spec fn max_int(a: int, b: int) -> int {
    if a >= b {
        a
    } else {
        b
    }
}

/// The lesser of two numbers.
pub open spec fn min_int(a: int, b: int) -> int {
    if a <= b {
        a
    } else {
        b
    }
}

/// Division that rounds toward zero, as the machine does.
pub open spec fn trunc_div(n: int, d: int) -> int
    recommends
        d != 0,
{
    if n >= 0 {
        n / d
    } else {
        -((-n) / d)
    }
}

/// What `xdiv_i32` computes: the dividend itself where the divisor is zero.
pub open spec fn xdiv(n: int, d: int) -> int {
    if d == 0 {
        n
    } else {
        trunc_div(n, d)
    }
}

/// A quotient is no larger in magnitude than its dividend.
pub proof fn lemma_div_magnitude(n: int, d: int)
    requires
        n >= 0,
        d != 0,
    ensures
        -n <= n / d <= n,
{
    if d > 0 {
        assert(0 <= n / d <= n) by (nonlinear_arith)
            requires
                n >= 0,
                d > 0,
        ;
    } else {
        assert(-n <= n / d <= 0) by (nonlinear_arith)
            requires
                n >= 0,
                d < 0,
        ;
    }
}

/// Safe division: a zero divisor hands the dividend back unchanged.
pub fn xdiv_i32(n: i32, x: i32) -> (q: i32)
    requires
        !(n == i32::MIN && x == -1),
    ensures
        q == xdiv(n as int, x as int),
{
    if x == 0 {
        n
    } else {
        proof {
            if n >= 0 {
                lemma_div_magnitude(n as int, x as int);
            } else {
                lemma_div_magnitude(-(n as int), x as int);
                if n == i32::MIN {
                    assert((-(n as int)) / (x as int) > -0x8000_0000) by (nonlinear_arith)
                        requires
                            x != 0,
                            x != -1,
                            n == i32::MIN,
                            -0x8000_0000 <= x < 0x8000_0000,
                    ;
                }
            }
        }
        n / x
    }
}

/// The first coordinate that two intervals starting at `a` and `b` share.
pub open spec fn clip_start(a: int, b: int) -> int {
    max_int(a, b)
}

/// The length of what the intervals `[a, a + alen)` and `[b, b + blen)`
/// share; zero where they share nothing.
pub open spec fn clip_len(a: int, alen: int, b: int, blen: int) -> int {
    max_int(0, min_int(a + alen, b + blen) - max_int(a, b))
}

/// What two rectangles share. Where they share nothing the result has no
/// area, and never a negative extent.
pub open spec fn clipped(r: Rect, to: Rect) -> Rect {
    Rect {
        x: clip_start(r.x as int, to.x as int) as i32,
        y: clip_start(r.y as int, to.y as int) as i32,
        w: clip_len(r.x as int, r.w as int, to.x as int, to.w as int) as i32,
        h: clip_len(r.y as int, r.h as int, to.y as int, to.h as int) as i32,
    }
}

/// Intersects `r` with `to`.
pub fn clip_rect(r: &mut Rect, to: &Rect)
    ensures
        *final(r) == clipped(*old(r), *to),
{
    let x1: i64 = if r.x >= to.x { r.x as i64 } else { to.x as i64 };
    let y1: i64 = if r.y >= to.y { r.y as i64 } else { to.y as i64 };
    let rx2: i64 = r.x as i64 + r.w as i64;
    let tx2: i64 = to.x as i64 + to.w as i64;
    let ry2: i64 = r.y as i64 + r.h as i64;
    let ty2: i64 = to.y as i64 + to.h as i64;
    let x2: i64 = if rx2 <= tx2 { rx2 } else { tx2 };
    let y2: i64 = if ry2 <= ty2 { ry2 } else { ty2 };
    let w: i64 = if x2 - x1 >= 0 { x2 - x1 } else { 0 };
    let h: i64 = if y2 - y1 >= 0 { y2 - y1 } else { 0 };
    r.x = x1 as i32;
    r.y = y1 as i32;
    r.w = w as i32;
    r.h = h as i32;
}

/// A pixel lies in the clipped rectangle exactly when it lies in both
/// rectangles, and the clipped rectangle has no negative extent.
pub proof fn lemma_clipped(r: Rect, to: Rect, px: int, py: int)
    ensures
        clipped(r, to).contains(px, py) <==> r.contains(px, py) && to.contains(px, py),
        clipped(r, to).w >= 0,
        clipped(r, to).h >= 0,
{
}

/// How far a span placed at `pos` starts before the clip edge `lo`.
pub open spec fn lead(pos: int, lo: int) -> int {
    max_int(0, lo - pos)
}

/// The length left of a span of `len` pixels placed at `pos` once it is cut
/// to the interval `[lo, lo + extent)`. It may be negative: the span is then
/// empty.
pub open spec fn offset_clip_len(len: int, pos: int, lo: int, extent: int) -> int {
    let len1 = len - lead(pos, lo);
    let pos1 = pos + lead(pos, lo);
    len1 - max_int(0, pos1 + len1 - (lo + extent))
}

/// Whether clipping the span leaves numbers that a 32-bit coordinate holds.
pub open spec fn offset_clip_fits(start: int, len: int, pos: int, lo: int, extent: int) -> bool {
    &&& start + lead(pos, lo) <= i32::MAX
    &&& i32::MIN <= offset_clip_len(len, pos, lo, extent)
}

/// Clips the blit of the source rectangle `r` to the destination position
/// `(x, y)` against `to`: the source rectangle shrinks and the destination
/// position moves by the same amount, so that what stays visible keeps its
/// place.
pub fn clip_rect_offset(r: &mut Rect, x: &mut i32, y: &mut i32, to: Rect)
    requires
        offset_clip_fits(
            old(r).x as int,
            old(r).w as int,
            *old(x) as int,
            to.x as int,
            to.w as int,
        ),
        offset_clip_fits(
            old(r).y as int,
            old(r).h as int,
            *old(y) as int,
            to.y as int,
            to.h as int,
        ),
    ensures
        *final(x) == *old(x) + lead(*old(x) as int, to.x as int),
        *final(y) == *old(y) + lead(*old(y) as int, to.y as int),
        final(r).x == old(r).x + lead(*old(x) as int, to.x as int),
        final(r).y == old(r).y + lead(*old(y) as int, to.y as int),
        final(r).w == offset_clip_len(
            old(r).w as int,
            *old(x) as int,
            to.x as int,
            to.w as int,
        ),
        final(r).h == offset_clip_len(
            old(r).h as int,
            *old(y) as int,
            to.y as int,
            to.h as int,
        ),
{
    let mut w: i64 = r.w as i64;
    let mut h: i64 = r.h as i64;
    let d: i64 = to.x as i64 - *x as i64;
    if d > 0 {
        *x = to.x;
        w = w - d;
        r.x = (r.x as i64 + d) as i32;
    }
    let d: i64 = to.y as i64 - *y as i64;
    if d > 0 {
        *y = to.y;
        h = h - d;
        r.y = (r.y as i64 + d) as i32;
    }
    let d: i64 = (*x as i64 + w) - (to.x as i64 + to.w as i64);
    if d > 0 {
        w = w - d;
    }
    let d: i64 = (*y as i64 + h) - (to.y as i64 + to.h as i64);
    if d > 0 {
        h = h - d;
    }
    r.w = w as i32;
    r.h = h as i32;
}

/// Along one axis, the clipped span covers exactly the destination
/// coordinates that the unclipped span and the clip interval share, and
/// every one of them still reads the source coordinate it read before.
pub proof fn lemma_offset_clip_exact(start: int, len: int, pos: int, lo: int, extent: int, p: int)
    ensures
        (pos + lead(pos, lo) <= p < pos + lead(pos, lo) + offset_clip_len(len, pos, lo, extent))
            <==> (pos <= p < pos + len && lo <= p < lo + extent),
        (start + lead(pos, lo)) - (pos + lead(pos, lo)) == start - pos,
{
}

} // verus!
