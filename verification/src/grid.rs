//! Uniform spatial grid: the broad phase of collision detection.
//!
//! The grid partitions the region `[0, width) x [0, height)` into square
//! cells and buckets ball identities by the cell containing their center, so
//! collision resolution need only test balls of the same or adjacent cells
//! instead of all pairs. It is rebuilt from current positions whenever
//! bodies have moved. `lemma_grid_sound` shows the 3 x 3 neighborhood misses
//! no pair of centers within one cell size of each other, so with a cell
//! size at least the largest ball diameter it misses no overlapping pair.

use vstd::prelude::*;
use vstd::arithmetic::div_mod::lemma_div_is_ordered;
use vstd::arithmetic::div_mod::lemma_div_nonincreasing;
use vstd::arithmetic::div_mod::lemma_div_pos_is_pos;
use vstd::arithmetic::div_mod::lemma_fundamental_div_mod;
use vstd::arithmetic::div_mod::lemma_fundamental_div_mod_converse;
use vstd::arithmetic::div_mod::lemma_hoist_over_denominator;
use vstd::arithmetic::div_mod::lemma_mod_bound;
use crate::ball::Ball;
use crate::point_2d::Point2D;
use crate::point_2d::dist_sq;

verus! {

/// One cell: the identities of the balls whose centers lie in it.
pub struct Cell {
    pub balls: Vec<u32>,
}

/// How many cells a dimension of `extent` coordinate units needs:
/// `extent / cell_size` rounded up.
pub open spec fn cell_count(extent: int, cell_size: int) -> int {
    extent / cell_size + if extent % cell_size == 0 {
        0int
    } else {
        1int
    }
}

/// The cell coordinate holding `coord`, clamped into `0 .. dim` so that
/// positions outside the covered region land in the border cells.
pub open spec fn cell_index(coord: int, cell_size: int, dim: int) -> int {
    if coord < 0 {
        0
    } else if coord / cell_size >= dim {
        dim - 1
    } else {
        coord / cell_size
    }
}

/// A dimension of at least one unit needs at least one cell, and never
/// more cells than units.
proof fn lemma_cell_count_pos(extent: int, cs: int)
    requires
        1 <= cs,
        1 <= extent,
    ensures
        1 <= cell_count(extent, cs) <= extent,
{
    lemma_div_pos_is_pos(extent, cs);
    lemma_div_nonincreasing(extent, cs);
    if extent % cs == 0 {
        lemma_fundamental_div_mod(extent, cs);
        if extent / cs <= 0 {
            assert(cs * (extent / cs) <= 0) by (nonlinear_arith)
                requires cs >= 1, extent / cs <= 0;
        }
    } else {
        lemma_mod_bound(extent, 1);
        if cs == 1 {
            lemma_fundamental_div_mod(extent, 1);
        }
        vstd::arithmetic::div_mod::lemma_div_decreases(extent, cs);
    }
}

/// The identities, in order, of the balls whose center falls in cell
/// `(r, c)` of a grid with the given geometry.
pub open spec fn bucket_ids(
    balls: Seq<Ball>,
    cell_size: int,
    rows: int,
    cols: int,
    r: int,
    c: int,
) -> Seq<u32>
    decreases balls.len(),
{
    if balls.len() == 0 {
        Seq::empty()
    } else {
        let prefix = bucket_ids(balls.drop_last(), cell_size, rows, cols, r, c);
        let b = balls.last();
        let p = b.verlet_object.position_current;
        if cell_index(p.y as int, cell_size, rows) == r && cell_index(p.x as int, cell_size, cols)
            == c {
            prefix.push(b.characteristics.id)
        } else {
            prefix
        }
    }
}

/// Some cell of the rectangle `[r_lo, r_hi] x [c_lo, c_hi]` holds `id`.
pub open spec fn id_in_region(g: Grid, r_lo: int, r_hi: int, c_lo: int, c_hi: int, id: u32) -> bool {
    exists|r2: int, c2: int|
        r_lo <= r2 <= r_hi && c_lo <= c2 <= c_hi && g.cell_ids(r2, c2).contains(id)
}

/// A uniform partition of `[0, width) x [0, height)` into square cells.
pub struct Grid {
    /// `rows * cols` cells, row-major: cell `(row, col)` is entry
    /// `row * cols + col`.
    pub cells: Vec<Cell>,
    pub width: usize,
    pub height: usize,
    pub cell_size: usize,
}

impl Grid {
    pub open spec fn spec_cols(self) -> int {
        cell_count(self.width as int, self.cell_size as int)
    }

    pub open spec fn spec_rows(self) -> int {
        cell_count(self.height as int, self.cell_size as int)
    }

    pub open spec fn wf(self) -> bool {
        &&& 1 <= self.cell_size
        &&& 1 <= self.width <= 1_000_000_000
        &&& 1 <= self.height <= 1_000_000_000
        &&& self.spec_rows() * self.spec_cols() <= 1_000_000_000
        &&& self.cells@.len() == self.spec_rows() * self.spec_cols()
    }

    /// The contents of cell `(row, col)`.
    pub open spec fn cell_ids(self, row: int, col: int) -> Seq<u32> {
        self.cells@[row * self.spec_cols() + col].balls@
    }

    /// The cell coordinates, `(row, col)`, of a position.
    pub open spec fn spec_cell_of(self, position: Point2D) -> (int, int) {
        (
            cell_index(position.y as int, self.cell_size as int, self.spec_rows()),
            cell_index(position.x as int, self.cell_size as int, self.spec_cols()),
        )
    }

    /// An empty grid covering `[0, width) x [0, height)`.
    pub fn new(width: usize, height: usize, cell_size: usize) -> (g: Grid)
        requires
            1 <= cell_size,
            1 <= width <= 1_000_000_000,
            1 <= height <= 1_000_000_000,
            cell_count(height as int, cell_size as int) * cell_count(
                width as int,
                cell_size as int,
            ) <= 1_000_000_000,
        ensures
            g.width == width,
            g.height == height,
            g.cell_size == cell_size,
            g.wf(),
            forall|r: int, c: int|
                0 <= r < g.spec_rows() && 0 <= c < g.spec_cols() ==> g.cell_ids(r, c)
                    == Seq::<u32>::empty(),
    {
        proof {
            lemma_cell_count_pos(width as int, cell_size as int);
            lemma_cell_count_pos(height as int, cell_size as int);
        }
        let grid_width = width / cell_size + (if width % cell_size == 0 { 0 } else { 1 });
        let grid_height = height / cell_size + (if height % cell_size == 0 { 0 } else { 1 });
        let total = grid_height * grid_width;
        let mut cells: Vec<Cell> = Vec::new();
        let mut k: usize = 0;
        while k < total
            invariant
                k <= total,
                cells@.len() == k,
                forall|t: int| 0 <= t < k ==> (#[trigger] cells@[t]).balls@ == Seq::<u32>::empty(),
            decreases total - k,
        {
            cells.push(Cell { balls: Vec::new() });
            k += 1;
        }
        let g = Grid { cells, width, height, cell_size };
        proof {
            assert(g.spec_cols() == grid_width as int && g.spec_rows() == grid_height as int);
            assert(g.cells@.len() == total as int);
            assert(g.wf());
            assert forall|r: int, c: int|
                0 <= r < g.spec_rows() && 0 <= c < g.spec_cols() implies g.cell_ids(r, c)
                == Seq::<u32>::empty() by {
                assert(0 <= r * g.spec_cols() + c < g.spec_rows() * g.spec_cols())
                    by (nonlinear_arith)
                    requires
                        0 <= r < g.spec_rows(),
                        0 <= c < g.spec_cols();
            }
        }
        g
    }

    /// A grid over `[0, width) x [0, height)` rebuilt from the given balls:
    /// each cell holds, in insertion order, the identities of exactly the
    /// balls whose center falls in it. Rebuild once per sub-step, after
    /// integration has moved bodies, before the next collision pass.
    pub fn build(balls: &Vec<Ball>, width: usize, height: usize, cell_size: usize) -> (g: Grid)
        requires
            1 <= cell_size,
            1 <= width <= 1_000_000_000,
            1 <= height <= 1_000_000_000,
            cell_count(height as int, cell_size as int) * cell_count(
                width as int,
                cell_size as int,
            ) <= 1_000_000_000,
            forall|k: int| 0 <= k < balls@.len() ==> (#[trigger] balls@[k]).wf(),
        ensures
            g.width == width,
            g.height == height,
            g.cell_size == cell_size,
            g.wf(),
            forall|r: int, c: int|
                0 <= r < g.spec_rows() && 0 <= c < g.spec_cols() ==> g.cell_ids(r, c)
                    == bucket_ids(balls@, cell_size as int, g.spec_rows(), g.spec_cols(), r, c),
    {
        let mut g = Grid::new(width, height, cell_size);
        let ghost rows = g.spec_rows();
        let ghost cols = g.spec_cols();
        let mut k: usize = 0;
        while k < balls.len()
            invariant
                k <= balls@.len(),
                g.wf(),
                g.width == width,
                g.height == height,
                g.cell_size == cell_size,
                rows == g.spec_rows(),
                cols == g.spec_cols(),
                forall|t: int| 0 <= t < balls@.len() ==> (#[trigger] balls@[t]).wf(),
                forall|r: int, c: int|
                    0 <= r < rows && 0 <= c < cols ==> g.cell_ids(r, c) == bucket_ids(
                        balls@.take(k as int),
                        cell_size as int,
                        rows,
                        cols,
                        r,
                        c,
                    ),
            decreases balls@.len() - k,
        {
            let ghost g_before = g;
            let b = &balls[k];
            g.add_ball(b);
            proof {
                let taken = balls@.take(k as int + 1);
                assert(taken.drop_last() =~= balls@.take(k as int));
                assert(taken.last() == balls@[k as int]);
                let (r0, c0) = g_before.spec_cell_of(b.verlet_object.position_current);
                assert forall|r: int, c: int|
                    0 <= r < rows && 0 <= c < cols implies g.cell_ids(r, c) == bucket_ids(
                    taken,
                    cell_size as int,
                    rows,
                    cols,
                    r,
                    c,
                ) by {
                    if r == r0 && c == c0 {
                        assert(g.cell_ids(r, c) == g_before.cell_ids(r, c).push(
                            b.characteristics.id,
                        ));
                    } else {
                        assert(g.cell_ids(r, c) == g_before.cell_ids(r, c));
                    }
                }
            }
            k += 1;
        }
        proof {
            assert(balls@.take(balls@.len() as int) =~= balls@);
        }
        g
    }

    /// The cell coordinate holding `coord`, clamped into `0 .. dim`.
    fn index_in_dim(coord: i64, cell_size: usize, dim: usize) -> (idx: usize)
        requires
            1 <= cell_size,
            1 <= dim,
        ensures
            idx as int == cell_index(coord as int, cell_size as int, dim as int),
            idx < dim,
    {
        if coord < 0 {
            0
        } else {
            proof {
                lemma_div_pos_is_pos(coord as int, cell_size as int);
            }
            let q = (coord as u64) / (cell_size as u64);
            if q >= dim as u64 {
                dim - 1
            } else {
                q as usize
            }
        }
    }

    /// Puts the ball's identity into the cell holding its current center;
    /// every other cell keeps its contents.
    pub fn add_ball(&mut self, ball: &Ball)
        requires
            old(self).wf(),
            ball.wf(),
        ensures
            final(self).wf(),
            final(self).width == old(self).width,
            final(self).height == old(self).height,
            final(self).cell_size == old(self).cell_size,
            ({
                let (r, c) = old(self).spec_cell_of(ball.verlet_object.position_current);
                &&& final(self).cell_ids(r, c) == old(self).cell_ids(r, c).push(
                    ball.characteristics.id,
                )
                &&& forall|r2: int, c2: int|
                    0 <= r2 < old(self).spec_rows() && 0 <= c2 < old(self).spec_cols() && !(r2 == r
                        && c2 == c) ==> final(self).cell_ids(r2, c2) == old(self).cell_ids(r2, c2)
            }),
    {
        let cols = self.width / self.cell_size + (if self.width % self.cell_size == 0 {
            0
        } else {
            1
        });
        let rows = self.height / self.cell_size + (if self.height % self.cell_size == 0 {
            0
        } else {
            1
        });
        proof {
            lemma_cell_count_pos(self.width as int, self.cell_size as int);
            lemma_cell_count_pos(self.height as int, self.cell_size as int);
        }
        let position = ball.verlet_object.position_current;
        let row = Self::index_in_dim(position.y, self.cell_size, rows);
        let col = Self::index_in_dim(position.x, self.cell_size, cols);
        proof {
            assert((row as int) * (cols as int) + (col as int) < (rows as int) * (cols as int)
                && 0 <= (row as int) * (cols as int) + col as int)
                by (nonlinear_arith)
                requires
                    0 <= row as int && (row as int) < rows as int,
                    0 <= col as int && (col as int) < cols as int;
        }
        let idx = row * cols + col;
        self.cells[idx].balls.push(ball.characteristics.id);
        proof {
            let g0 = *old(self);
            let (r, c) = g0.spec_cell_of(position);
            assert(r == row as int && c == col as int);
            assert forall|r2: int, c2: int|
                0 <= r2 < g0.spec_rows() && 0 <= c2 < g0.spec_cols() && !(r2 == r && c2 == c)
                implies final(self).cell_ids(r2, c2) == g0.cell_ids(r2, c2) by {
                assert(0 <= r2 * g0.spec_cols() + c2 < g0.spec_rows() * g0.spec_cols()
                    && r2 * g0.spec_cols() + c2 != r * g0.spec_cols() + c)
                    by (nonlinear_arith)
                    requires
                        0 <= r2 < g0.spec_rows(),
                        0 <= c2 < g0.spec_cols(),
                        0 <= r < g0.spec_rows(),
                        0 <= c < g0.spec_cols(),
                        !(r2 == r && c2 == c);
            }
        }
    }

    /// The identities in the cell of `position` and the up to eight cells
    /// around it: every ball bucketed in that 3 x 3 neighborhood, and
    /// nothing else.
    pub fn neighbors_of(&self, position: Point2D) -> (v: Vec<u32>)
        requires
            self.wf(),
            position.in_world(),
        ensures
            ({
                let (r, c) = self.spec_cell_of(position);
                &&& forall|r2: int, c2: int, t: int|
                    0 <= r2 < self.spec_rows() && 0 <= c2 < self.spec_cols() && r - 1 <= r2 <= r
                        + 1 && c - 1 <= c2 <= c + 1 && 0 <= t < self.cell_ids(r2, c2).len()
                        ==> v@.contains(#[trigger] self.cell_ids(r2, c2)[t])
                &&& forall|t: int|
                    0 <= t < v@.len() ==> id_in_region(
                        *self,
                        if r == 0 { 0int } else { r - 1 },
                        if r + 1 >= self.spec_rows() { self.spec_rows() - 1 } else { r + 1 },
                        if c == 0 { 0int } else { c - 1 },
                        if c + 1 >= self.spec_cols() { self.spec_cols() - 1 } else { c + 1 },
                        #[trigger] v@[t],
                    )
            }),
    {
        let cols = self.width / self.cell_size + (if self.width % self.cell_size == 0 {
            0
        } else {
            1
        });
        let rows = self.height / self.cell_size + (if self.height % self.cell_size == 0 {
            0
        } else {
            1
        });
        proof {
            lemma_cell_count_pos(self.width as int, self.cell_size as int);
            lemma_cell_count_pos(self.height as int, self.cell_size as int);
        }
        let row = Self::index_in_dim(position.y, self.cell_size, rows);
        let col = Self::index_in_dim(position.x, self.cell_size, cols);
        let r_lo = if row == 0 { 0 } else { row - 1 };
        let r_hi = if row + 1 >= rows { rows - 1 } else { row + 1 };
        let c_lo = if col == 0 { 0 } else { col - 1 };
        let c_hi = if col + 1 >= cols { cols - 1 } else { col + 1 };
        let ghost r = row as int;
        let ghost c = col as int;
        let mut v: Vec<u32> = Vec::new();
        let mut rr = r_lo;
        while rr <= r_hi
            invariant
                self.wf(),
                rows as int == self.spec_rows(),
                cols as int == self.spec_cols(),
                0 <= r < rows,
                0 <= c < cols,
                r_lo as int == (if r == 0 { 0int } else { r - 1 }),
                r_hi as int == (if r + 1 >= rows as int { rows as int - 1 } else { r + 1 }),
                c_lo as int == (if c == 0 { 0int } else { c - 1 }),
                c_hi as int == (if c + 1 >= cols as int { cols as int - 1 } else { c + 1 }),
                r_lo <= rr,
                rr <= r_hi + 1,
                forall|r2: int, c2: int, t: int|
                    r_lo <= r2 < rr && c_lo as int <= c2 <= c_hi as int && 0 <= t < self.cell_ids(
                        r2,
                        c2,
                    ).len() ==> v@.contains(#[trigger] self.cell_ids(r2, c2)[t]),
                forall|t: int|
                    0 <= t < v@.len() ==> id_in_region(
                        *self,
                        r_lo as int,
                        r_hi as int,
                        c_lo as int,
                        c_hi as int,
                        #[trigger] v@[t],
                    ),
            decreases r_hi + 1 - rr,
        {
            let mut cc = c_lo;
            while cc <= c_hi
                invariant
                    self.wf(),
                    rows as int == self.spec_rows(),
                    cols as int == self.spec_cols(),
                    0 <= r < rows,
                    0 <= c < cols,
                    r_lo as int == (if r == 0 { 0int } else { r - 1 }),
                    r_hi as int == (if r + 1 >= rows as int { rows as int - 1 } else { r + 1 }),
                    c_lo as int == (if c == 0 { 0int } else { c - 1 }),
                    c_hi as int == (if c + 1 >= cols as int { cols as int - 1 } else { c + 1 }),
                    r_lo <= rr <= r_hi,
                    c_lo <= cc,
                    cc <= c_hi + 1,
                    forall|r2: int, c2: int, t: int|
                        r_lo <= r2 < rr && c_lo as int <= c2 <= c_hi as int && 0 <= t
                            < self.cell_ids(r2, c2).len() ==> v@.contains(
                            #[trigger] self.cell_ids(r2, c2)[t],
                        ),
                    forall|c2: int, t: int|
                        c_lo <= c2 < cc && 0 <= t < self.cell_ids(rr as int, c2).len()
                            ==> v@.contains(#[trigger] self.cell_ids(rr as int, c2)[t]),
                    forall|t: int|
                        0 <= t < v@.len() ==> id_in_region(
                            *self,
                            r_lo as int,
                            r_hi as int,
                            c_lo as int,
                            c_hi as int,
                            #[trigger] v@[t],
                        ),
                decreases c_hi + 1 - cc,
            {
                proof {
                    assert(0 <= (rr as int) * (cols as int) + cc as int
                        && (rr as int) * (cols as int) + (cc as int) < (rows as int) * (cols as int))
                        by (nonlinear_arith)
                        requires
                            0 <= rr as int && (rr as int) < rows as int,
                            0 <= cc as int && (cc as int) < cols as int;
                }
                let ghost v0 = v@;
                let idx = rr * cols + cc;
                let cell = &self.cells[idx];
                v.extend_from_slice(cell.balls.as_slice());
                proof {
                    assert(v@ == v0 + self.cell_ids(rr as int, cc as int));
                    assert forall|c2: int, t: int|
                        c_lo <= c2 < cc + 1 && 0 <= t < self.cell_ids(rr as int, c2).len()
                        implies v@.contains(#[trigger] self.cell_ids(rr as int, c2)[t]) by {
                        if c2 < cc {
                            assert(v0.contains(self.cell_ids(rr as int, c2)[t]));
                            let w = choose|w: int| 0 <= w < v0.len() && v0[w] == self.cell_ids(
                                rr as int,
                                c2,
                            )[t];
                            assert(v@[w] == self.cell_ids(rr as int, c2)[t]);
                        } else {
                            assert(v@[v0.len() + t] == self.cell_ids(rr as int, c2)[t]);
                        }
                    }
                    assert forall|r2: int, c2: int, t: int|
                        r_lo <= r2 < rr && c_lo as int <= c2 <= c_hi as int && 0 <= t
                            < self.cell_ids(r2, c2).len() implies v@.contains(
                        #[trigger] self.cell_ids(r2, c2)[t],
                    ) by {
                        assert(v0.contains(self.cell_ids(r2, c2)[t]));
                        let w = choose|w: int| 0 <= w < v0.len() && v0[w] == self.cell_ids(
                            r2,
                            c2,
                        )[t];
                        assert(v@[w] == self.cell_ids(r2, c2)[t]);
                    }
                    assert forall|t: int| 0 <= t < v@.len() implies id_in_region(
                        *self,
                        r_lo as int,
                        r_hi as int,
                        c_lo as int,
                        c_hi as int,
                        #[trigger] v@[t],
                    ) by {
                        if t < v0.len() {
                            assert(v@[t] == v0[t]);
                            assert(id_in_region(
                                *self,
                                r_lo as int,
                                r_hi as int,
                                c_lo as int,
                                c_hi as int,
                                v0[t],
                            ));
                        } else {
                            let u = t - v0.len();
                            assert(self.cell_ids(rr as int, cc as int)[u] == v@[t]);
                            assert(self.cell_ids(rr as int, cc as int).contains(v@[t]));
                            assert(r_lo as int <= rr as int <= r_hi as int
                                && c_lo as int <= cc as int <= c_hi as int);
                        }
                    }
                }
                cc += 1;
            }
            rr += 1;
        }
        proof {
            let (r9, c9) = self.spec_cell_of(position);
            assert(r9 == r && c9 == c);
            assert forall|r2: int, c2: int, t: int|
                0 <= r2 < self.spec_rows() && 0 <= c2 < self.spec_cols() && r - 1 <= r2 <= r + 1
                    && c - 1 <= c2 <= c + 1 && 0 <= t < self.cell_ids(r2, c2).len() implies
                v@.contains(#[trigger] self.cell_ids(r2, c2)[t]) by {
                assert(r_lo as int <= r2 <= r_hi as int && c_lo as int <= c2 <= c_hi as int);
            }
        }
        v
    }
}

/// One axis: cells of in-extent coordinates at most one cell size apart
/// differ by at most one, and never clamp.
proof fn lemma_cell_index_close(a: int, b: int, cs: int, extent: int)
    requires
        1 <= cs,
        0 <= a < extent,
        0 <= b < extent,
        a <= b,
        b - a <= cs,
    ensures
        cell_index(a, cs, cell_count(extent, cs)) == a / cs,
        cell_index(b, cs, cell_count(extent, cs)) == b / cs,
        a / cs <= b / cs <= a / cs + 1,
{
    lemma_div_pos_is_pos(a, cs);
    lemma_div_pos_is_pos(b, cs);
    lemma_div_is_ordered(a, b, cs);
    lemma_div_is_ordered(b, a + cs, cs);
    lemma_hoist_over_denominator(a, 1, cs as nat);
    assert((a + cs) / cs == a / cs + 1);
    lemma_div_is_ordered(a, extent - 1, cs);
    lemma_div_is_ordered(b, extent - 1, cs);
    if extent % cs == 0 {
        lemma_fundamental_div_mod(extent, cs);
        assert(extent == cs * (extent / cs));
        assert(extent - 1 == (extent / cs - 1) * cs + (cs - 1)) by (nonlinear_arith)
            requires extent == cs * (extent / cs);
        lemma_fundamental_div_mod_converse(extent - 1, cs, extent / cs - 1, cs - 1);
        assert((extent - 1) / cs == extent / cs - 1);
    } else {
        lemma_mod_bound(extent, cs);
        lemma_fundamental_div_mod(extent, cs);
        assert(extent - 1 == (extent / cs) * cs + (extent % cs - 1)) by (nonlinear_arith)
            requires extent == cs * (extent / cs) + extent % cs;
        lemma_fundamental_div_mod_converse(
            extent - 1,
            cs,
            extent / cs,
            extent % cs - 1,
        );
        assert((extent - 1) / cs == extent / cs);
    }
}

/// Law (broad-phase soundness): two centers in the covered region within one
/// cell size of each other (in the exact squared sense) land in the same or
/// adjacent cells, so the 3 x 3 neighborhood search misses no overlapping
/// pair once the cell size is at least the sum of any two radii.
pub proof fn lemma_grid_sound(g: Grid, p: Point2D, q: Point2D)
    requires
        g.wf(),
        0 <= p.x && p.x < g.width as int,
        0 <= p.y && p.y < g.height as int,
        0 <= q.x && q.x < g.width as int,
        0 <= q.y && q.y < g.height as int,
        dist_sq(p, q) <= g.cell_size as int * (g.cell_size as int),
    ensures
        ({
            let (rp, cp) = g.spec_cell_of(p);
            let (rq, cq) = g.spec_cell_of(q);
            &&& rp - 1 <= rq <= rp + 1
            &&& cp - 1 <= cq <= cp + 1
        }),
{
    let cs = g.cell_size as int;
    let dx = q.x - p.x;
    let dy = q.y - p.y;
    assert(dist_sq(p, q) == dx * dx + dy * dy);
    assert(-cs <= dx <= cs && -cs <= dy <= cs) by (nonlinear_arith)
        requires
            dx * dx + dy * dy <= cs * cs,
            cs >= 1;
    if p.x <= q.x {
        lemma_cell_index_close(p.x as int, q.x as int, cs, g.width as int);
    } else {
        lemma_cell_index_close(q.x as int, p.x as int, cs, g.width as int);
    }
    if p.y <= q.y {
        lemma_cell_index_close(p.y as int, q.y as int, cs, g.height as int);
    } else {
        lemma_cell_index_close(q.y as int, p.y as int, cs, g.height as int);
    }
}

} // verus!
