//! Flood fill: recolouring the region of equally coloured pixels around a
//! seed.

use vstd::prelude::*;
use crate::buffer::lemma_cell_index;
use crate::buffer::Buffer;
use crate::pixel::Pixel;

verus! {

/// Whether two cells share a side.
pub open spec fn adjacent(ax: int, ay: int, bx: int, by: int) -> bool {
    ||| (ax == bx && (ay == by + 1 || by == ay + 1))
    ||| (ay == by && (ax == bx + 1 || bx == ax + 1))
}

/// Whether `path` is a chain of cells of `buf`, each of the colour `o` and
/// each sharing a side with the next.
pub open spec fn is_path(buf: Buffer, o: Pixel, path: Seq<(int, int)>) -> bool {
    &&& path.len() > 0
    &&& forall|i: int|
        0 <= i < path.len() ==> buf.has((#[trigger] path[i]).0, path[i].1) && buf.at(
            path[i].0,
            path[i].1,
        ) == o
    &&& forall|i: int|
        0 <= i < path.len() - 1 ==> adjacent(
            (#[trigger] path[i]).0,
            path[i].1,
            path[i + 1].0,
            path[i + 1].1,
        )
}

/// Whether the cell `(px, py)` belongs to the region of the seed `(x, y)`:
/// a chain of cells of the seed's colour leads from the seed to it.
pub open spec fn reaches(buf: Buffer, x: int, y: int, px: int, py: int) -> bool {
    exists|path: Seq<(int, int)>|
        #[trigger] is_path(buf, buf.at(x, y), path) && path[0] == (x, y) && path.last() == (
            px,
            py,
        )
}

/// What a flood fill with the colour `c` from the seed `(x, y)` makes of the
/// buffer `before`: the cells of the seed's region hold `c`, and every
/// other cell holds what it held. A seed outside the grid has no region.
pub open spec fn flooded(before: Buffer, after: Buffer, c: Pixel, x: int, y: int) -> bool {
    &&& after.wf()
    &&& after.same_frame(&before)
    &&& forall|px: int, py: int|
        before.has(px, py) ==> #[trigger] after.at(px, py) == (if before.has(x, y) && reaches(
            before,
            x,
            y,
            px,
            py,
        ) {
            c
        } else {
            before.at(px, py)
        })
}

/// A seed belongs to its own region.
pub proof fn lemma_reaches_seed(buf: Buffer, x: int, y: int)
    requires
        buf.has(x, y),
    ensures
        reaches(buf, x, y, x, y),
{
    let path = seq![(x, y)];
    assert(is_path(buf, buf.at(x, y), path));
}

/// A cell of the seed's colour beside a cell of the region belongs to the
/// region.
pub proof fn lemma_reaches_next(buf: Buffer, x: int, y: int, px: int, py: int, nx: int, ny: int)
    requires
        reaches(buf, x, y, px, py),
        adjacent(px, py, nx, ny),
        buf.has(nx, ny),
        buf.at(nx, ny) == buf.at(x, y),
    ensures
        reaches(buf, x, y, nx, ny),
{
    let path = choose|path: Seq<(int, int)>|
        #[trigger] is_path(buf, buf.at(x, y), path) && path[0] == (x, y) && path.last() == (
            px,
            py,
        );
    let longer = path.push((nx, ny));
    assert forall|i: int| 0 <= i < longer.len() - 1 implies adjacent(
        (#[trigger] longer[i]).0,
        longer[i].1,
        longer[i + 1].0,
        longer[i + 1].1,
    ) by {
        if i < path.len() - 1 {
            assert(longer[i] == path[i]);
            assert(longer[i + 1] == path[i + 1]);
        }
    }
    assert forall|i: int| 0 <= i < longer.len() implies buf.has((#[trigger] longer[i]).0, longer[i].1)
        && buf.at(longer[i].0, longer[i].1) == buf.at(x, y) by {
        if i < path.len() {
            assert(longer[i] == path[i]);
        }
    }
    assert(is_path(buf, buf.at(x, y), longer));
    assert(longer[0] == path[0]);
}

/// How many pixels of `s` have the colour `o`.
pub open spec fn count_of(s: Seq<Pixel>, o: Pixel) -> nat
    decreases s.len(),
{
    if s.len() == 0 {
        0
    } else {
        count_of(s.drop_last(), o) + (if s.last() == o {
            1nat
        } else {
            0nat
        })
    }
}

/// Recolouring one pixel of the colour `o` leaves one pixel less of it.
pub proof fn lemma_count_recolour(s: Seq<Pixel>, o: Pixel, i: int, c: Pixel)
    requires
        0 <= i < s.len(),
        s[i] == o,
        c != o,
    ensures
        count_of(s.update(i, c), o) + 1 == count_of(s, o),
    decreases s.len(),
{
    let t = s.update(i, c);
    if i == s.len() - 1 {
        assert(t.drop_last() =~= s.drop_last());
    } else {
        assert(t.drop_last() =~= s.drop_last().update(i, c));
        lemma_count_recolour(s.drop_last(), o, i, c);
    }
}

/// Whether the fill has recoloured the cell `(px, py)`.
pub open spec fn soaked(before: Buffer, cur: Buffer, c: Pixel, x: int, y: int, px: int, py: int) -> bool {
    before.at(px, py) == before.at(x, y) && cur.at(px, py) == c
}

/// Whether the cell `(px, py)` waits on the stack.
pub open spec fn waiting(stack: Seq<(i32, i32)>, px: int, py: int) -> bool {
    exists|i: int| 0 <= i < stack.len() && (#[trigger] stack[i]).0 == px && stack[i].1 == py
}

/// Whether the fill is complete around every recoloured cell: each cell of
/// the seed's colour beside it is recoloured too, or waits on the stack, or
/// is the cell `(ex, ey)` that is being worked on.
pub open spec fn closed(
    before: Buffer,
    cur: Buffer,
    c: Pixel,
    x: int,
    y: int,
    stack: Seq<(i32, i32)>,
    ex: int,
    ey: int,
) -> bool {
    forall|px: int, py: int, nx: int, ny: int|
        before.has(px, py) && #[trigger] soaked(before, cur, c, x, y, px, py) && before.has(nx, ny)
            && #[trigger] adjacent(px, py, nx, ny) && before.at(nx, ny) == before.at(x, y)
            ==> soaked(before, cur, c, x, y, nx, ny) || waiting(stack, nx, ny) || (nx == ex && ny
            == ey)
}

/// Where the seed is recoloured and the fill is complete around every
/// recoloured cell, every cell of a chain from the seed is recoloured.
pub proof fn lemma_closed_covers(
    before: Buffer,
    cur: Buffer,
    c: Pixel,
    x: int,
    y: int,
    path: Seq<(int, int)>,
    i: int,
)
    requires
        before.has(x, y),
        soaked(before, cur, c, x, y, x, y),
        closed(before, cur, c, x, y, Seq::empty(), -1, -1),
        is_path(before, before.at(x, y), path),
        path[0] == (x, y),
        0 <= i < path.len(),
    ensures
        soaked(before, cur, c, x, y, path[i].0, path[i].1),
    decreases i,
{
    if i > 0 {
        lemma_closed_covers(before, cur, c, x, y, path, i - 1);
        let p = path[i - 1];
        let n = path[i];
        assert(adjacent(p.0, p.1, n.0, n.1));
        assert(before.has(p.0, p.1));
        assert(before.has(n.0, n.1));
        assert(!waiting(Seq::<(i32, i32)>::empty(), n.0, n.1));
    }
}

/// A cell that waits on a stack still waits after more is pushed.
pub proof fn lemma_waiting_grows(old_stack: Seq<(i32, i32)>, stack: Seq<(i32, i32)>, px: int, py: int)
    requires
        old_stack.len() <= stack.len(),
        forall|i: int| 0 <= i < old_stack.len() ==> #[trigger] stack[i] == old_stack[i],
        waiting(old_stack, px, py),
    ensures
        waiting(stack, px, py),
{
    let i = choose|i: int|
        0 <= i < old_stack.len() && (#[trigger] old_stack[i]).0 == px && old_stack[i].1 == py;
    assert(stack[i] == old_stack[i]);
}

/// Whether every cell is either untouched, or recoloured and part of the
/// region of the seed.
pub open spec fn sound(before: Buffer, cur: Buffer, c: Pixel, x: int, y: int) -> bool {
    forall|px: int, py: int|
        before.has(px, py) ==> #[trigger] cur.at(px, py) == before.at(px, py) || (soaked(
            before,
            cur,
            c,
            x,
            y,
            px,
            py,
        ) && reaches(before, x, y, px, py))
}

/// Whether every cell of the seed's colour that waits on the stack belongs
/// to the region of the seed.
pub open spec fn stack_sound(before: Buffer, x: int, y: int, stack: Seq<(i32, i32)>) -> bool {
    forall|i: int|
        0 <= i < stack.len() && before.has((#[trigger] stack[i]).0 as int, stack[i].1 as int)
            && before.at(stack[i].0 as int, stack[i].1 as int) == before.at(x, y) ==> reaches(
            before,
            x,
            y,
            stack[i].0 as int,
            stack[i].1 as int,
        )
}

impl Buffer {
    /// Recolours the run of the seed's colour `o` that holds `(sx, sy)` in
    /// its row, and puts the cells above and below the run on the stack.
    fn fill_run(
        &mut self,
        stack: &mut Vec<(i32, i32)>,
        Ghost(before): Ghost<Buffer>,
        c: Pixel,
        o: Pixel,
        Ghost(x): Ghost<int>,
        Ghost(y): Ghost<int>,
        sx: i32,
        sy: i32,
    )
        requires
            old(self).wf(),
            before.wf(),
            old(self).same_frame(&before),
            before.has(x, y),
            o == before.at(x, y),
            c != o,
            old(self).has(sx as int, sy as int),
            old(self).at(sx as int, sy as int) == o,
            reaches(before, x, y, sx as int, sy as int),
            sound(before, *old(self), c, x, y),
            stack_sound(before, x, y, old(stack)@),
            closed(before, *old(self), c, x, y, old(stack)@, sx as int, sy as int),
            soaked(before, *old(self), c, x, y, x, y) || waiting(old(stack)@, x, y) || (x == sx
                && y == sy),
        ensures
            final(self).wf(),
            final(self).same_frame(&before),
            sound(before, *final(self), c, x, y),
            stack_sound(before, x, y, final(stack)@),
            closed(before, *final(self), c, x, y, final(stack)@, -1, -1),
            soaked(before, *final(self), c, x, y, x, y) || waiting(final(stack)@, x, y),
            2 * count_of(final(self).pixels@, o) + final(stack)@.len() == 2 * count_of(
                old(self).pixels@,
                o,
            ) + old(stack)@.len(),
    {
        let ghost snap = *self;
        let ghost old_stack = stack@;
        /* Fill left */
        let mut il: i32 = sx;
        while il >= 0 && self.peek(il, sy).word == o.word
            invariant
                self.wf(),
                before.wf(),
                snap.wf(),
                self.same_frame(&before),
                snap.same_frame(&before),
                before.has(x, y),
                o == before.at(x, y),
                c != o,
                snap.has(sx as int, sy as int),
                -1 <= il <= sx,
                reaches(before, x, y, sx as int, sy as int),
                sound(before, snap, c, x, y),
                sound(before, *self, c, x, y),
                il < sx ==> soaked(before, *self, c, x, y, sx as int, sy as int),
                il == sx ==> self.at(sx as int, sy as int) == o,
                forall|col: int|
                    il < col <= sx ==> #[trigger] soaked(before, *self, c, x, y, col, sy as int)
                        && snap.at(col, sy as int) == o,
                forall|px: int, py: int|
                    before.has(px, py) && !(py == sy && il < px <= sx) ==> #[trigger] self.at(
                        px,
                        py,
                    ) == snap.at(px, py),
                count_of(self.pixels@, o) + (sx - il) == count_of(snap.pixels@, o),
            decreases il + 1,
        {
            proof {
                lemma_cell_index(il as int, sy as int, self.w as int, self.h as int);
                lemma_count_recolour(self.pixels@, o, il + sy * self.w, c);
                if il < sx {
                    assert(soaked(before, *self, c, x, y, il + 1, sy as int));
                    lemma_reaches_next(before, x, y, il + 1, sy as int, il as int, sy as int);
                }
            }
            let ghost prev = *self;
            self.put(il, sy, c);
            proof {
                assert(prev.at(il as int, sy as int) == before.at(il as int, sy as int));
                assert forall|col: int| il - 1 < col <= sx implies #[trigger] soaked(
                    before,
                    *self,
                    c,
                    x,
                    y,
                    col,
                    sy as int,
                ) && snap.at(col, sy as int) == o by {
                    if col > il {
                        assert(soaked(before, prev, c, x, y, col, sy as int));
                        assert(self.at(col, sy as int) == prev.at(col, sy as int));
                    } else {
                        assert(prev.at(il as int, sy as int) == snap.at(il as int, sy as int));
                    }
                }
                assert forall|px: int, py: int| before.has(px, py) implies #[trigger] self.at(px, py)
                    == before.at(px, py) || (soaked(before, *self, c, x, y, px, py) && reaches(
                    before,
                    x,
                    y,
                    px,
                    py,
                )) by {
                    if !(px == il && py == sy) {
                        assert(self.at(px, py) == prev.at(px, py));
                    }
                }
            }
            il -= 1;
        }
        /* Fill right */
        let mut ir: i32 = sx + 1;
        while ir < self.w && self.peek(ir, sy).word == o.word
            invariant
                self.wf(),
                before.wf(),
                snap.wf(),
                self.same_frame(&before),
                snap.same_frame(&before),
                before.has(x, y),
                o == before.at(x, y),
                c != o,
                snap.has(sx as int, sy as int),
                -1 <= il < sx < ir <= self.w,
                il >= 0 ==> self.at(il as int, sy as int) != o,
                sound(before, snap, c, x, y),
                sound(before, *self, c, x, y),
                forall|col: int|
                    il < col < ir ==> #[trigger] soaked(before, *self, c, x, y, col, sy as int)
                        && snap.at(col, sy as int) == o,
                forall|px: int, py: int|
                    before.has(px, py) && !(py == sy && il < px < ir) ==> #[trigger] self.at(
                        px,
                        py,
                    ) == snap.at(px, py),
                count_of(self.pixels@, o) + (ir - 1 - il) == count_of(snap.pixels@, o),
            decreases self.w - ir,
        {
            proof {
                lemma_cell_index(ir as int, sy as int, self.w as int, self.h as int);
                lemma_count_recolour(self.pixels@, o, ir + sy * self.w, c);
                assert(soaked(before, *self, c, x, y, ir - 1, sy as int));
                assert(self.at(ir - 1, sy as int) != before.at(ir - 1, sy as int));
                lemma_reaches_next(before, x, y, ir - 1, sy as int, ir as int, sy as int);
            }
            let ghost prev = *self;
            self.put(ir, sy, c);
            proof {
                assert(prev.at(ir as int, sy as int) == before.at(ir as int, sy as int));
                assert forall|col: int| il < col < ir + 1 implies #[trigger] soaked(
                    before,
                    *self,
                    c,
                    x,
                    y,
                    col,
                    sy as int,
                ) && snap.at(col, sy as int) == o by {
                    if col < ir {
                        assert(soaked(before, prev, c, x, y, col, sy as int));
                        assert(self.at(col, sy as int) == prev.at(col, sy as int));
                    } else {
                        assert(prev.at(ir as int, sy as int) == snap.at(ir as int, sy as int));
                    }
                }
                assert forall|px: int, py: int| before.has(px, py) implies #[trigger] self.at(px, py)
                    == before.at(px, py) || (soaked(before, *self, c, x, y, px, py) && reaches(
                    before,
                    x,
                    y,
                    px,
                    py,
                )) by {
                    if !(px == ir && py == sy) {
                        assert(self.at(px, py) == prev.at(px, py));
                    }
                }
            }
            ir += 1;
        }
        /* Fill up and down */
        let mut col: i32 = il + 1;
        while col < ir
            invariant
                self.wf(),
                before.wf(),
                self.same_frame(&before),
                before.has(x, y),
                o == before.at(x, y),
                c != o,
                before.has(sx as int, sy as int),
                -1 <= il < col <= ir <= self.w,
                sound(before, *self, c, x, y),
                forall|k: int|
                    il < k < ir ==> #[trigger] soaked(before, *self, c, x, y, k, sy as int),
                stack@.len() == old_stack.len() + 2 * (col - (il + 1)),
                forall|i: int| 0 <= i < old_stack.len() ==> #[trigger] stack@[i] == old_stack[i],
                stack_sound(before, x, y, stack@),
                forall|k: int| il < k < col ==> #[trigger] waiting(stack@, k, sy - 1),
                forall|k: int| il < k < col ==> #[trigger] waiting(stack@, k, sy + 1),
            decreases ir - col,
        {
            let ghost mid = stack@;
            stack.push((col, sy - 1));
            stack.push((col, sy + 1));
            proof {
                assert(soaked(before, *self, c, x, y, col as int, sy as int));
                assert(self.at(col as int, sy as int) != before.at(col as int, sy as int));
                assert(stack@[mid.len() as int] == (col, (sy - 1) as i32));
                assert(stack@[mid.len() as int + 1] == (col, (sy + 1) as i32));
                assert(waiting(stack@, col as int, sy - 1));
                assert(waiting(stack@, col as int, sy + 1));
                assert forall|k: int| il < k < col + 1 implies #[trigger] waiting(
                    stack@,
                    k,
                    sy - 1,
                ) by {
                    if k < col {
                        lemma_waiting_grows(mid, stack@, k, sy - 1);
                    }
                }
                assert forall|k: int| il < k < col + 1 implies #[trigger] waiting(
                    stack@,
                    k,
                    sy + 1,
                ) by {
                    if k < col {
                        lemma_waiting_grows(mid, stack@, k, sy + 1);
                    }
                }
                assert forall|i: int|
                    0 <= i < stack@.len() && before.has(
                        (#[trigger] stack@[i]).0 as int,
                        stack@[i].1 as int,
                    ) && before.at(stack@[i].0 as int, stack@[i].1 as int) == before.at(
                        x,
                        y,
                    ) implies reaches(before, x, y, stack@[i].0 as int, stack@[i].1 as int) by {
                    if i < mid.len() {
                        assert(stack@[i] == mid[i]);
                    } else if i == mid.len() {
                        lemma_reaches_next(before, x, y, col as int, sy as int, col as int, sy - 1);
                    } else {
                        lemma_reaches_next(before, x, y, col as int, sy as int, col as int, sy + 1);
                    }
                }
            }
            col += 1;
        }
        proof {
            assert forall|px: int, py: int, nx: int, ny: int|
                before.has(px, py) && #[trigger] soaked(before, *self, c, x, y, px, py)
                    && before.has(nx, ny) && #[trigger] adjacent(px, py, nx, ny) && before.at(
                    nx,
                    ny,
                ) == before.at(x, y) implies soaked(before, *self, c, x, y, nx, ny) || waiting(
                stack@,
                nx,
                ny,
            ) || (nx == -1 && ny == -1) by {
                if py == sy && il < px < ir {
                    if ny == sy {
                        if il < nx < ir {
                            assert(soaked(before, *self, c, x, y, nx, sy as int));
                        } else {
                            assert(self.at(nx, ny) != o);
                        }
                    } else {
                        assert(waiting(stack@, px, sy - 1) && waiting(stack@, px, sy + 1));
                    }
                } else {
                    assert(self.at(px, py) == snap.at(px, py));
                    assert(soaked(before, snap, c, x, y, px, py));
                    if soaked(before, snap, c, x, y, nx, ny) {
                        if ny == sy && il < nx < ir {
                            assert(soaked(before, *self, c, x, y, nx, sy as int));
                        } else {
                            assert(self.at(nx, ny) == snap.at(nx, ny));
                        }
                    } else if waiting(old_stack, nx, ny) {
                        lemma_waiting_grows(old_stack, stack@, nx, ny);
                    } else {
                        assert(nx == sx && ny == sy);
                        assert(soaked(before, *self, c, x, y, sx as int, sy as int));
                    }
                }
            }
            if !soaked(before, *self, c, x, y, x, y) {
                if x == sx && y == sy {
                    assert(soaked(before, *self, c, x, y, sx as int, sy as int));
                } else if soaked(before, snap, c, x, y, x, y) {
                    if y == sy && il < x < ir {
                        assert(soaked(before, *self, c, x, y, x, sy as int));
                    } else {
                        assert(self.at(x, y) == snap.at(x, y));
                    }
                } else {
                    lemma_waiting_grows(old_stack, stack@, x, y);
                }
            }
        }
    }

    /// Recolours the region of the seed `(x, y)` with `c`: the seed and
    /// every pixel that a chain of side-by-side pixels of the seed's colour
    /// joins to it. A seed outside the grid changes nothing.
    ///
    /// The fill keeps the cells it still has to look at on a stack of its
    /// own, so the size of the region does not matter.
    pub fn flood_fill(&mut self, c: Pixel, x: i32, y: i32)
        requires
            old(self).wf(),
        ensures
            flooded(*old(self), *final(self), c, x as int, y as int),
    {
        if x < 0 || y < 0 || x >= self.w || y >= self.h {
            return ;
        }
        let o = self.peek(x, y);
        let ghost before = *self;
        if o.word == c.word {
            proof {
                assert forall|px: int, py: int|
                    before.has(px, py) && reaches(before, x as int, y as int, px, py) implies before.at(
                    px,
                    py,
                ) == c by {
                    let path = choose|path: Seq<(int, int)>|
                        #[trigger] is_path(before, before.at(x as int, y as int), path) && path[0]
                            == (x as int, y as int) && path.last() == (px, py);
                    assert(path[path.len() - 1] == (px, py));
                }
            }
            return ;
        }
        let mut stack: Vec<(i32, i32)> = Vec::new();
        stack.push((x, y));
        proof {
            assert(stack@[0] == (x, y));
            lemma_reaches_seed(before, x as int, y as int);
        }
        while stack.len() > 0
            invariant
                self.wf(),
                before.wf(),
                before == *old(self),
                self.same_frame(&before),
                before.has(x as int, y as int),
                o == before.at(x as int, y as int),
                c != o,
                sound(before, *self, c, x as int, y as int),
                stack_sound(before, x as int, y as int, stack@),
                closed(before, *self, c, x as int, y as int, stack@, -1, -1),
                soaked(before, *self, c, x as int, y as int, x as int, y as int) || waiting(
                    stack@,
                    x as int,
                    y as int,
                ),
            decreases 2 * count_of(self.pixels@, o) + stack@.len(),
        {
            let ghost full = stack@;
            let (sx, sy) = stack.pop().unwrap();
            let inside: bool = sx >= 0 && sy >= 0 && sx < self.w && sy < self.h;
            let fresh: bool = inside && self.peek(sx, sy).word == o.word;
            proof {
                assert(full[full.len() - 1] == (sx, sy));
                assert forall|px: int, py: int| waiting(full, px, py) implies waiting(stack@, px, py)
                    || (px == sx && py == sy) by {
                    let i = choose|i: int|
                        0 <= i < full.len() && (#[trigger] full[i]).0 == px && full[i].1 == py;
                    if i < full.len() - 1 {
                        assert(stack@[i] == full[i]);
                    }
                }
                assert forall|i: int|
                    0 <= i < stack@.len() && before.has(
                        (#[trigger] stack@[i]).0 as int,
                        stack@[i].1 as int,
                    ) && before.at(stack@[i].0 as int, stack@[i].1 as int) == before.at(
                        x as int,
                        y as int,
                    ) implies reaches(
                    before,
                    x as int,
                    y as int,
                    stack@[i].0 as int,
                    stack@[i].1 as int,
                ) by {
                    assert(stack@[i] == full[i]);
                }
                assert(closed(before, *self, c, x as int, y as int, stack@, sx as int, sy as int));
            }
            if fresh {
                self.fill_run(&mut stack, Ghost(before), c, o, Ghost(x as int), Ghost(y as int), sx, sy);
            } else {
                proof {
                    assert forall|px: int, py: int, nx: int, ny: int|
                        before.has(px, py) && #[trigger] soaked(
                            before,
                            *self,
                            c,
                            x as int,
                            y as int,
                            px,
                            py,
                        ) && before.has(nx, ny) && #[trigger] adjacent(px, py, nx, ny) && before.at(
                            nx,
                            ny,
                        ) == before.at(x as int, y as int) implies soaked(
                        before,
                        *self,
                        c,
                        x as int,
                        y as int,
                        nx,
                        ny,
                    ) || waiting(stack@, nx, ny) || (nx == -1 && ny == -1) by {
                        if nx == sx && ny == sy {
                            assert(self.at(nx, ny) != before.at(nx, ny));
                        }
                    }
                    if x == sx && y == sy {
                        assert(self.at(x as int, y as int) != before.at(x as int, y as int));
                    }
                }
            }
        }
        proof {
            assert forall|px: int, py: int| before.has(px, py) implies #[trigger] self.at(px, py)
                == (if before.has(x as int, y as int) && reaches(
                before,
                x as int,
                y as int,
                px,
                py,
            ) {
                c
            } else {
                before.at(px, py)
            }) by {
                if reaches(before, x as int, y as int, px, py) {
                    let path = choose|path: Seq<(int, int)>|
                        #[trigger] is_path(before, before.at(x as int, y as int), path) && path[0]
                            == (x as int, y as int) && path.last() == (px, py);
                    assert(!waiting(stack@, x as int, y as int));
                    assert(stack@ =~= Seq::<(i32, i32)>::empty());
                    lemma_closed_covers(
                        before,
                        *self,
                        c,
                        x as int,
                        y as int,
                        path,
                        path.len() - 1,
                    );
                    assert(path[path.len() - 1] == (px, py));
                }
            }
        }
    }
}

} // verus!
