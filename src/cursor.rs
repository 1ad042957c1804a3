//! The cursor inside a viewport of `size_x` columns and `size_y` rows, and
//! the movements that shift it or the viewport.
use std::ops::Range;
use vstd::arithmetic::div_mod::{lemma_fundamental_div_mod_converse, lemma_mod_multiples_basic};
use vstd::prelude::*;

verus! {

/// The largest number of columns or rows of a viewport.
pub const MAX_DIM: usize = 0xfff;

/// The largest index shift that one movement may ask for.
pub const MAX_SHIFT: i64 = 0x3fff_ffff;

/// The quotient of `t` by `d`, rounded down.
fn floor_div(t: i64, d: i64) -> (q: i64)
    requires
        1 <= d <= MAX_DIM,
        -MAX_SHIFT * 4 <= t <= MAX_SHIFT * 4,
    ensures
        0 <= t - q * d < d,
        q == (t as int) / (d as int),
        t - q * d == (t as int) % (d as int),
{
    let q: i64 = if t >= 0 {
        t / d
    } else {
        -((-t - 1) / d) - 1
    };
    assert(0 <= t - q * d < d) by (nonlinear_arith)
        requires
            d >= 1,
            t >= 0 ==> q == (t as int) / (d as int),
            t < 0 ==> q == -((-t - 1) as int / (d as int)) - 1,
    ;
    proof {
        lemma_fundamental_div_mod_converse(t as int, d as int, q as int, t - q * d);
    }
    q
}

/// A movement intent.
#[derive(Clone, Copy, Debug, PartialEq, Eq, Structural)]
pub enum Move {
    /// move the cursor by columns, scrolling where it leaves the view
    CursorX(isize),
    /// move the cursor by rows, scrolling where it leaves the view
    CursorY(isize),
    /// shift the view by columns, the cursor keeping its place on screen
    ViewX(isize),
    /// shift the view by rows, the cursor keeping its place on screen
    ViewY(isize),
    /// move by columns and rows with no regard to the buffer's bounds
    Unbounded(isize, isize),
}

impl Move {
    /// The shift of the cursor's index that this movement asks for.
    pub open spec fn shift(self, size_x: int) -> int {
        match self {
            Move::CursorX(d) => d as int,
            Move::CursorY(d) => d * size_x,
            Move::ViewX(d) => d as int,
            Move::ViewY(d) => d * size_x,
            Move::Unbounded(c, r) => c + r * size_x,
        }
    }

    /// The same movement in a right-to-left layout: relative column moves
    /// are reflected; a move to a given cell is not.
    pub fn reflect_rtl(self) -> (r: Move)
        requires
            match self {
                Move::CursorX(d) => d != isize::MIN,
                Move::ViewX(d) => d != isize::MIN,
                _ => true,
            },
        ensures
            r == match self {
                Move::CursorX(d) => Move::CursorX((-d) as isize),
                Move::ViewX(d) => Move::ViewX((-d) as isize),
                other => other,
            },
    {
        match self {
            Move::CursorX(d) => Move::CursorX(-d),
            Move::ViewX(d) => Move::ViewX(-d),
            other => other,
        }
    }
}

/// What `Cursor::mov` does: `c0` becomes `c1` and the view shifts by `r`,
/// for the buffer bounds `lo..hi` relative to the first cell in view.
pub open spec fn moved(c0: Cursor, c1: Cursor, m: Move, lo: int, hi: int, r: int) -> bool {
    let t = c0.index() + m.shift(c0.size_x as int);
    let size = c0.size();
    let sx = c0.size_x as int;
    let in_bounds = lo <= t < hi;
    match m {
        Move::ViewX(_) | Move::ViewY(_) => if in_bounds {
            r == m.shift(sx) && c1.index() == c0.index()
        } else {
            r == 0 && c1 == c0
        },
        Move::CursorX(_) | Move::CursorY(_) => if !in_bounds {
            r == 0 && c1 == c0
        } else {
            &&& r + c1.index() == t
            &&& r % sx == 0
            &&& 0 <= t < size ==> r == 0
            &&& t >= size ==> c1.y == c0.size_y - 1
            &&& t < 0 ==> c1.y == 0
        },
        Move::Unbounded(_, _) => {
            &&& r + c1.index() == t
            &&& r % sx == 0
            &&& 0 <= t < size ==> r == 0
            &&& !(0 <= t < size) ==> c1.y == c0.size_y / 2
        },
    }
}

/// A cursor at column `x` and row `y` of a viewport.
#[derive(Clone, Copy, Debug)]
pub struct Cursor {
    pub size_x: usize,
    pub size_y: usize,
    pub x: usize,
    pub y: usize,
}

impl Cursor {
    pub open spec fn wf(&self) -> bool {
        &&& 1 <= self.size_x <= MAX_DIM
        &&& 1 <= self.size_y <= MAX_DIM
        &&& self.x < self.size_x
        &&& self.y < self.size_y
    }

    /// The number of cells in view.
    pub open spec fn size(&self) -> int {
        self.size_x * self.size_y
    }

    /// The cursor's offset from the first cell in view.
    pub open spec fn index(&self) -> int {
        self.y * self.size_x + self.x
    }

    /// The cursor's offset lies in the view.
    pub proof fn lemma_index_in_view(&self)
        requires
            self.wf(),
        ensures
            0 <= self.index() < self.size(),
            self.size() <= MAX_DIM * MAX_DIM,
    {
        assert(self.y * self.size_x + self.x < self.size_y * self.size_x) by (nonlinear_arith)
            requires
                self.y < self.size_y,
                self.x < self.size_x,
        ;
        assert(self.size_x * self.size_y <= MAX_DIM * MAX_DIM) by (nonlinear_arith)
            requires
                self.size_x <= MAX_DIM,
                self.size_y <= MAX_DIM,
        ;
        assert(self.y * self.size_x >= 0) by (nonlinear_arith);
    }

    /// A cursor in the top left cell of a view of `size_x` by `size_y` cells.
    pub fn new(size_x: usize, size_y: usize) -> (r: Cursor)
        requires
            1 <= size_x <= MAX_DIM,
            1 <= size_y <= MAX_DIM,
        ensures
            r.wf(),
            r.size_x == size_x,
            r.size_y == size_y,
            r.index() == 0,
    {
        Cursor { size_x, size_y, x: 0, y: 0 }
    }

    pub fn get_size_x(&self) -> (r: usize)
        ensures
            r == self.size_x,
    {
        self.size_x
    }

    pub fn get_size_y(&self) -> (r: usize)
        ensures
            r == self.size_y,
    {
        self.size_y
    }

    /// The number of cells on one row.
    pub fn bytes_per_row(&self) -> (r: usize)
        ensures
            r == self.size_x,
    {
        self.size_x
    }

    pub fn get_size(&self) -> (r: usize)
        requires
            self.wf(),
        ensures
            r == self.size(),
    {
        proof {
            self.lemma_index_in_view();
        }
        self.size_x * self.size_y
    }

    pub fn get_index(&self) -> (r: usize)
        requires
            self.wf(),
        ensures
            r == self.index(),
    {
        proof {
            self.lemma_index_in_view();
        }
        self.y * self.size_x + self.x
    }

    /// Splits an index shift into columns and rows, for `Move::Unbounded`.
    pub fn jump(&self, diff: isize) -> (r: (isize, isize))
        requires
            self.wf(),
            -MAX_SHIFT <= diff <= MAX_SHIFT,
        ensures
            r.0 + r.1 * self.size_x == diff,
            0 <= r.0 < self.size_x,
    {
        let sx = self.size_x as i64;
        let q = floor_div(diff as i64, sx);
        assert(-MAX_SHIFT <= q <= MAX_SHIFT) by (nonlinear_arith)
            requires
                0 <= diff - q * sx < sx,
                1 <= sx,
                -MAX_SHIFT <= diff <= MAX_SHIFT,
        ;
        ((diff as i64 - q * sx) as isize, q as isize)
    }

    /// The number of rows that the view scrolled, where a shift of its first
    /// cell by `index_diff` is a whole number of rows.
    pub fn full_row_move(&self, index_diff: isize) -> (r: Option<isize>)
        requires
            self.wf(),
            -MAX_SHIFT <= index_diff <= MAX_SHIFT,
        ensures
            r.is_some() == ((index_diff as int) % (self.size_x as int) == 0),
            r matches Some(v) ==> v * self.size_x == index_diff,
    {
        let sx = self.size_x as i64;
        let q = floor_div(index_diff as i64, sx);
        if index_diff as i64 - q * sx == 0 {
            assert(-MAX_SHIFT <= q <= MAX_SHIFT) by (nonlinear_arith)
                requires
                    index_diff == q * sx,
                    1 <= sx,
                    -MAX_SHIFT <= index_diff <= MAX_SHIFT,
            ;
            Some(q as isize)
        } else {
            None
        }
    }

    /// Gives the view `size_x` columns and `size_y` rows, keeping the cursor
    /// where it was as far as the new size allows. Returns how far the first
    /// cell in view must shift so that the cursor stays on the same cell.
    pub fn resize(&mut self, size_x: usize, size_y: usize) -> (r: isize)
        requires
            old(self).wf(),
            1 <= size_x <= MAX_DIM,
            1 <= size_y <= MAX_DIM,
        ensures
            final(self).wf(),
            final(self).size_x == size_x,
            final(self).size_y == size_y,
            final(self).x == if old(self).x < size_x { old(self).x } else { (size_x - 1) as usize },
            final(self).y == if old(self).y < size_y { old(self).y } else { (size_y - 1) as usize },
            r + final(self).index() == old(self).index(),
    {
        proof {
            self.lemma_index_in_view();
        }
        let old_index = self.get_index();
        self.size_x = size_x;
        self.size_y = size_y;
        if self.x >= size_x {
            self.x = size_x - 1;
        }
        if self.y >= size_y {
            self.y = size_y - 1;
        }
        let new_index = self.get_index();
        proof {
            self.lemma_index_in_view();
            assert(MAX_DIM * MAX_DIM < 0x100_0000);
        }
        old_index as isize - new_index as isize
    }

    /// Places the cursor on offset `t` of the view.
    fn place(&mut self, t: i64)
        requires
            old(self).wf(),
            0 <= t < old(self).size(),
        ensures
            final(self).wf(),
            final(self).size_x == old(self).size_x,
            final(self).size_y == old(self).size_y,
            final(self).index() == t,
    {
        let sx = self.size_x as i64;
        let y = t / sx;
        let x = t % sx;
        assert(y < self.size_y) by (nonlinear_arith)
            requires
                t < self.size_x * self.size_y,
                y == (t as int) / (self.size_x as int),
                self.size_x >= 1,
                t >= 0,
        ;
        assert(y * sx + x == t) by (nonlinear_arith)
            requires
                y == (t as int) / (sx as int),
                x == (t as int) % (sx as int),
                sx >= 1,
        ;
        self.y = y as usize;
        self.x = x as usize;
    }

    /// Applies `movement`; `bounds` are the buffer's bounds relative to the
    /// first cell in view. Returns how far the view shifted. A movement of
    /// the cursor or of the view that would bring the cursor outside the
    /// bounds does nothing.
    pub fn mov(&mut self, movement: Move, bounds: Range<isize>) -> (r: isize)
        requires
            old(self).wf(),
            -MAX_SHIFT <= movement.shift(old(self).size_x as int) <= MAX_SHIFT,
            movement matches Move::Unbounded(c, _) ==> -MAX_SHIFT <= c <= MAX_SHIFT,
        ensures
            final(self).wf(),
            final(self).size_x == old(self).size_x,
            final(self).size_y == old(self).size_y,
            moved(*old(self), *final(self), movement, bounds.start as int, bounds.end as int, r as int),
    {
        proof {
            self.lemma_index_in_view();
        }
        let sx = self.size_x as i64;
        let sy = self.size_y as i64;
        let size = sx * sy;
        assert(size == self.size());
        assert(sy * sx == size) by (nonlinear_arith)
            requires
                size == sx * sy,
        ;
        assert(size <= MAX_DIM * MAX_DIM);
        assert(sx <= sx * sy) by (nonlinear_arith)
            requires
                sx >= 1,
                sy >= 1,
        ;
        let idx = (self.y as i64) * sx + (self.x as i64);
        let shift: i64 = match movement {
            Move::CursorX(d) => d as i64,
            Move::CursorY(d) => {
                assert(-MAX_SHIFT <= d * sx <= MAX_SHIFT);
                (d as i64) * sx
            },
            Move::ViewX(d) => d as i64,
            Move::ViewY(d) => {
                assert(-MAX_SHIFT <= d * sx <= MAX_SHIFT);
                (d as i64) * sx
            },
            Move::Unbounded(c, row) => {
                assert(-MAX_SHIFT <= c + row * sx <= MAX_SHIFT);
                assert(-2 * MAX_SHIFT <= row * sx <= 2 * MAX_SHIFT);
                (c as i64) + (row as i64) * sx
            },
        };
        let t = idx + shift;
        let in_bounds = (bounds.start as i64) <= t && t < (bounds.end as i64);
        match movement {
            Move::ViewX(_) | Move::ViewY(_) => {
                if in_bounds {
                    shift as isize
                } else {
                    0
                }
            },
            Move::CursorX(_) | Move::CursorY(_) => {
                if !in_bounds {
                    0
                } else if 0 <= t && t < size {
                    self.place(t);
                    assert(0int % (sx as int) == 0);
                    0
                } else if t >= size {
                    let k = (t - size) / sx + 1;
                    assert(sx <= k * sx <= t - size + sx && t - size < k * sx) by (nonlinear_arith)
                        requires
                            k == (t - size) as int / (sx as int) + 1,
                            t - size >= 0,
                            sx >= 1,
                    ;
                    let d = k * sx;
                    assert(0 <= size - sx <= t - d < size);
                    self.place(t - d);
                    proof {
                        lemma_mod_multiples_basic(k as int, sx as int);
                    }
                    assert(self.y == sy - 1) by (nonlinear_arith)
                        requires
                            self.y * sx + self.x == t - d,
                            size - sx <= t - d < size,
                            size == sy * sx,
                            self.x < sx,
                            0 <= self.x,
                            0 <= self.y,
                    ;
                    d as isize
                } else {
                    let k = (-t - 1) / sx + 1;
                    assert(sx <= k * sx <= -t - 1 + sx && -t - 1 < k * sx) by (nonlinear_arith)
                        requires
                            k == (-t - 1) as int / (sx as int) + 1,
                            -t - 1 >= 0,
                            sx >= 1,
                    ;
                    let d = k * sx;
                    assert(0 <= t + d < sx <= size);
                    self.place(t + d);
                    proof {
                        lemma_mod_multiples_basic(-k, sx as int);
                        assert(-(k * sx) == (-k) * sx) by (nonlinear_arith);
                    }
                    assert(self.y == 0) by (nonlinear_arith)
                        requires
                            self.y * sx + self.x == t + d,
                            0 <= t + d < sx,
                            0 <= self.x,
                            0 <= self.y,
                    ;
                    -d as isize
                }
            },
            Move::Unbounded(_, _) => {
                if 0 <= t && t < size {
                    self.place(t);
                    assert(0int % (sx as int) == 0);
                    0
                } else {
                    let q: i64 = if t >= 0 {
                        t / sx
                    } else {
                        -((-t - 1) / sx) - 1
                    };
                    assert(0 <= t - q * sx < sx) by (nonlinear_arith)
                        requires
                            sx >= 1,
                            t >= 0 ==> q == (t as int) / (sx as int),
                            t < 0 ==> q == -((-t - 1) as int / (sx as int)) - 1,
                    ;
                    let col = t - q * sx;
                    assert(0 <= (sy / 2) * sx + col < sy * sx) by (nonlinear_arith)
                        requires
                            0 <= col < sx,
                            sy >= 1,
                            sx >= 1,
                    ;
                    assert(0 <= (sy / 2) * sx <= size) by (nonlinear_arith)
                        requires
                            sy * sx == size,
                            sy >= 1,
                            sx >= 1,
                    ;
                    let mid = (sy / 2) * sx + col;
                    assert(-MAX_SHIFT - size <= t - mid <= MAX_SHIFT + size);
                    self.place(mid);
                    assert(t - mid == (q - sy / 2) * sx) by (nonlinear_arith)
                        requires
                            col == t - q * sx,
                            mid == (sy / 2) * sx + col,
                    ;
                    proof {
                        lemma_mod_multiples_basic(q - sy / 2, sx as int);
                    }
                    assert(self.y == sy / 2) by (nonlinear_arith)
                        requires
                            self.y * sx + self.x == (sy / 2) * sx + col,
                            0 <= self.x < sx,
                            0 <= col < sx,
                            sx >= 1,
                    ;
                    (t - mid) as isize
                }
            },
        }
    }
}

} // verus!
