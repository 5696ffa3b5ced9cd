//! The world: the flat arena of grains plus the uniform spatial grid that
//! indexes them by cell.
//!
//! The grid is a flat vector of cells; cell `(cx, cy)` lives at index
//! `cx * (grid_max_y + 1) + cy` and holds the arena indices of the grains
//! currently filed under it.

use vstd::prelude::*;
use crate::fixed::{SCALE, SAND_RADIUS, POS_LIMIT, DT_LIMIT, MAX_EXTENT};
use crate::sand::{Sand, SandV, sand_bounded, update_model};

verus! {

/// Mathematical image of a world.
pub ghost struct WorldV {
    pub width: int,
    pub height: int,
    pub grid_size: int,
    pub grid_max_x: int,
    pub grid_max_y: int,
    pub grids: Seq<Seq<usize>>,
    pub sands: Seq<SandV>,
    pub next_id: int,
}

pub struct World {
    pub width: usize,
    pub height: usize,
    pub grid_size: usize,
    pub grid_max_x: usize,
    pub grid_max_y: usize,
    pub grids: Vec<Vec<usize>>,
    pub sands: Vec<Sand>,
    pub next_id: usize,
}

impl View for World {
    type V = WorldV;

    open spec fn view(&self) -> WorldV {
        WorldV {
            width: self.width as int,
            height: self.height as int,
            grid_size: self.grid_size as int,
            grid_max_x: self.grid_max_x as int,
            grid_max_y: self.grid_max_y as int,
            grids: self.grids@.map_values(|cell: Vec<usize>| cell@),
            sands: self.sands@.map_values(|s: Sand| s@),
            next_id: self.next_id as int,
        }
    }
}

impl WorldV {
    /// Cell column of a position `x` (in sub-units): truncate toward zero,
    /// then clamp into `[0, grid_max_x]`.  A negative position files under
    /// column 0; a position beyond the right edge under the last column.
    pub open spec fn cell_x(self, x: int) -> int {
        let c = if x <= 0 { 0 } else { x / (self.grid_size * SCALE) };
        if c > self.grid_max_x { self.grid_max_x } else { c }
    }

    /// Cell row of a position `y`, clamped into `[0, grid_max_y]`.
    pub open spec fn cell_y(self, y: int) -> int {
        let c = if y <= 0 { 0 } else { y / (self.grid_size * SCALE) };
        if c > self.grid_max_y { self.grid_max_y } else { c }
    }

    /// Flat index of cell `(cx, cy)`.
    pub open spec fn cell_index(self, cx: int, cy: int) -> int {
        cx * (self.grid_max_y + 1) + cy
    }

    /// The cell a grain currently belongs in, as a flat index.
    pub open spec fn sand_cell(self, i: int) -> int {
        self.cell_index(self.cell_x(self.sands[i].x), self.cell_y(self.sands[i].y))
    }

    /// Index `i` is filed somewhere in the grid.
    pub open spec fn grid_has(self, i: usize) -> bool {
        exists|c: int| 0 <= c < self.grids.len() && #[trigger] self.grids[c].contains(i)
    }

    /// Construction-time configuration is sane and the grid has the right
    /// shape; every stored index points into the arena; grains are bounded;
    /// ids are unique and below `next_id`; every grain is filed somewhere.
    pub open spec fn wf(self) -> bool {
        &&& 1 <= self.grid_size <= MAX_EXTENT
        &&& 4 <= self.width <= MAX_EXTENT
        &&& 4 <= self.height <= MAX_EXTENT
        &&& self.grid_max_x == self.width / self.grid_size
        &&& self.grid_max_y == self.height / self.grid_size
        &&& self.grid_max_x <= self.width
        &&& self.grid_max_y <= self.height
        &&& self.grids.len() == (self.grid_max_x + 1) * (self.grid_max_y + 1)
        &&& forall|c: int, k: int|
            0 <= c < self.grids.len() && 0 <= k < self.grids[c].len()
                ==> (#[trigger] self.grids[c][k]) < self.sands.len()
        &&& forall|i: int| 0 <= i < self.sands.len() ==> sand_bounded(#[trigger] self.sands[i])
        &&& forall|i: int| 0 <= i < self.sands.len() ==> (#[trigger] self.sands[i].id) < self.next_id
        &&& forall|i: int, j: int|
            0 <= i < self.sands.len() && 0 <= j < self.sands.len() && i != j
                ==> self.sands[i].id != self.sands[j].id
        &&& forall|i: usize| 0 <= i < self.sands.len() ==> #[trigger] self.grid_has(i)
    }

    /// No arena index is filed twice: each grain has at most one entry in
    /// the whole grid.
    pub open spec fn grid_distinct(self) -> bool {
        forall|c1: int, k1: int, c2: int, k2: int|
            0 <= c1 < self.grids.len() && 0 <= k1 < self.grids[c1].len()
                && 0 <= c2 < self.grids.len() && 0 <= k2 < self.grids[c2].len()
                && (#[trigger] self.grids[c1][k1]) == (#[trigger] self.grids[c2][k2])
                ==> c1 == c2 && k1 == k2
    }

    /// The grid's post-rebuild invariant: every membership is current, that
    /// is, each index sits exactly in the cell its grain's position maps to.
    pub open spec fn placed(self) -> bool {
        forall|c: int, k: int|
            0 <= c < self.grids.len() && 0 <= k < self.grids[c].len()
                ==> self.sand_cell(#[trigger] self.grids[c][k] as int) == c
    }

    /// Contents of cells `(cx, cy)` through `(cx, y1)` of one column,
    /// concatenated in row order.
    pub open spec fn row_cells(self, cx: int, cy: int, y1: int) -> Seq<usize>
        decreases y1 + 1 - cy,
    {
        if cy > y1 {
            Seq::empty()
        } else {
            self.grids[self.cell_index(cx, cy)] + self.row_cells(cx, cy + 1, y1)
        }
    }

    /// Contents of the rectangle of cells `[cx, x1] x [y0, y1]`,
    /// concatenated column by column.
    pub open spec fn block_cells(self, cx: int, x1: int, y0: int, y1: int) -> Seq<usize>
        decreases x1 + 1 - cx,
    {
        if cx > x1 {
            Seq::empty()
        } else {
            self.row_cells(cx, y0, y1) + self.block_cells(cx + 1, x1, y0, y1)
        }
    }

    /// Everything filed under the 3x3 block of cells centred on the cell
    /// containing `(x, y)`, clamped (never wrapped) at the grid edges.
    pub open spec fn nearby(self, x: int, y: int) -> Seq<usize> {
        let cx = self.cell_x(x);
        let cy = self.cell_y(y);
        let x0 = if cx == 0 { 0 } else { cx - 1 };
        let x1 = if cx + 1 > self.grid_max_x { self.grid_max_x } else { cx + 1 };
        let y0 = if cy == 0 { 0 } else { cy - 1 };
        let y1 = if cy + 1 > self.grid_max_y { self.grid_max_y } else { cy + 1 };
        self.block_cells(x0, x1, y0, y1)
    }

    /// The grains named by a sequence of arena indices.
    pub open spec fn views_of(self, idxs: Seq<usize>) -> Seq<SandV> {
        idxs.map_values(|i: usize| self.sands[i as int])
    }
}

/// The world after the first `k` grains took one frame of physics, each
/// against the world as the grains before it had already left it.
pub open spec fn step_upto(w: WorldV, dt: int, k: int) -> WorldV
    decreases k,
{
    if k <= 0 {
        w
    } else {
        let w1 = step_upto(w, dt, k - 1);
        WorldV {
            sands: w1.sands.update(k - 1, update_model(w1.sands[k - 1], w1, dt)),
            ..w1
        }
    }
}

/// Two worlds share plane extents, cell size and grid shape.
pub open spec fn same_config(a: WorldV, b: WorldV) -> bool {
    &&& a.width == b.width
    &&& a.height == b.height
    &&& a.grid_size == b.grid_size
    &&& a.grid_max_x == b.grid_max_x
    &&& a.grid_max_y == b.grid_max_y
}

impl World {
    /// A fresh vector of `count` empty cells.
    fn new_grid(count: usize) -> (g: Vec<Vec<usize>>)
        ensures
            g@.len() == count,
            forall|c: int| 0 <= c < count ==> (#[trigger] g@[c])@.len() == 0,
    {
        let mut g: Vec<Vec<usize>> = Vec::new();
        let mut c: usize = 0;
        while c < count
            invariant
                c <= count,
                g@.len() == c,
                forall|j: int| 0 <= j < c ==> (#[trigger] g@[j])@.len() == 0,
            decreases count - c,
        {
            g.push(Vec::new());
            c = c + 1;
        }
        g
    }

    /// An empty world over a `width` x `height` plane (in length units)
    /// partitioned into square cells of side `grid_size`.
    pub fn new(width: usize, height: usize, grid_size: usize) -> (w: World)
        requires
            1 <= grid_size <= MAX_EXTENT,
            4 <= width <= MAX_EXTENT,
            4 <= height <= MAX_EXTENT,
        ensures
            w@.wf(),
            w@.placed(),
            w@.grid_distinct(),
            w@.width == width as int,
            w@.height == height as int,
            w@.grid_size == grid_size as int,
            w@.sands.len() == 0,
            w@.next_id == 0,
    {
        let grid_max_x = width / grid_size;
        let grid_max_y = height / grid_size;
        proof {
            vstd::arithmetic::div_mod::lemma_div_nonincreasing(width as int, grid_size as int);
            vstd::arithmetic::div_mod::lemma_div_pos_is_pos(width as int, grid_size as int);
            vstd::arithmetic::div_mod::lemma_div_nonincreasing(height as int, grid_size as int);
            vstd::arithmetic::div_mod::lemma_div_pos_is_pos(height as int, grid_size as int);
            crate::fixed::lemma_mul_bounds_pos(
                grid_max_x as int + 1, grid_max_y as int + 1,
                1, MAX_EXTENT as int + 1, 1, MAX_EXTENT as int + 1);
        }
        let count = (grid_max_x + 1) * (grid_max_y + 1);
        let w = World {
            width,
            height,
            grid_size,
            grid_max_x,
            grid_max_y,
            grids: Self::new_grid(count),
            sands: Vec::new(),
            next_id: 0,
        };
        w
    }

    /// `num - 1`, floored at zero.
    fn try_minus_1(num: usize) -> (r: usize)
        ensures
            r as int == if num == 0 { 0int } else { num as int - 1 },
    {
        if num == 0 {
            num
        } else {
            num - 1
        }
    }

    /// Cell column of a position, clamped into the grid.
    fn cell_x_of(&self, x: i64) -> (c: usize)
        requires
            self@.wf(),
        ensures
            c as int == self@.cell_x(x as int),
            c as int <= self@.grid_max_x,
    {
        if x <= 0 {
            0
        } else {
            let d: u64 = (self.grid_size as u64) * (SCALE as u64);
            let q: u64 = (x as u64) / d;
            if q > self.grid_max_x as u64 {
                self.grid_max_x
            } else {
                q as usize
            }
        }
    }

    /// Cell row of a position, clamped into the grid.
    fn cell_y_of(&self, y: i64) -> (c: usize)
        requires
            self@.wf(),
        ensures
            c as int == self@.cell_y(y as int),
            c as int <= self@.grid_max_y,
    {
        if y <= 0 {
            0
        } else {
            let d: u64 = (self.grid_size as u64) * (SCALE as u64);
            let q: u64 = (y as u64) / d;
            if q > self.grid_max_y as u64 {
                self.grid_max_y
            } else {
                q as usize
            }
        }
    }

    /// Flat index of cell `(cx, cy)`.
    fn cell_index_of(&self, cx: usize, cy: usize) -> (c: usize)
        requires
            self@.wf(),
            cx as int <= self@.grid_max_x,
            cy as int <= self@.grid_max_y,
        ensures
            c as int == self@.cell_index(cx as int, cy as int),
            (c as int) < self@.grids.len(),
    {
        proof {
            lemma_cell_index_bound(cx as int, cy as int,
                self@.grid_max_x, self@.grid_max_y);
            crate::fixed::lemma_mul_bounds_pos(
                cx as int, self@.grid_max_y + 1,
                0, MAX_EXTENT as int, 1, MAX_EXTENT as int + 1);
        }
        cx * (self.grid_max_y + 1) + cy
    }

    /// A fresh copy of one cell's contents.
    fn copy_cell(v: &Vec<usize>) -> (r: Vec<usize>)
        ensures
            r@ == v@,
    {
        let mut r: Vec<usize> = Vec::new();
        let mut k: usize = 0;
        while k < v.len()
            invariant
                k <= v.len(),
                r@ == v@.take(k as int),
            decreases v.len() - k,
        {
            let e = v[k];
            r.push(e);
            proof {
                assert(v@.take(k as int + 1) =~= v@.take(k as int).push(v@[k as int]));
            }
            k = k + 1;
        }
        proof {
            assert(v@.take(v@.len() as int) =~= v@);
        }
        r
    }

    /// File a grain: append it to the arena and its arena index to the cell
    /// its position maps to, and nowhere else.  The grain's `id` must be
    /// fresh, which the caller guarantees by taking it at or above
    /// `next_id`.
    pub fn add_sand(&mut self, sand: Sand)
        requires
            old(self)@.wf(),
            sand_bounded(sand@),
            old(self)@.next_id <= sand@.id,
            sand.id < usize::MAX,
        ensures
            final(self)@.wf(),
            same_config(old(self)@, final(self)@),
            final(self)@.sands == old(self)@.sands.push(sand@),
            final(self)@.next_id == sand@.id + 1,
            ({
                let c = old(self)@.cell_index(
                    old(self)@.cell_x(sand@.x), old(self)@.cell_y(sand@.y));
                final(self)@.grids == old(self)@.grids.update(
                    c, old(self)@.grids[c].push(old(self)@.sands.len() as usize))
            }),
            old(self)@.placed() ==> final(self)@.placed(),
            old(self)@.grid_distinct() ==> final(self)@.grid_distinct(),
    {
        let cx = self.cell_x_of(sand.x);
        let cy = self.cell_y_of(sand.y);
        let c = self.cell_index_of(cx, cy);
        let n = self.sands.len();
        let mut cell = Self::copy_cell(&self.grids[c]);
        cell.push(n);
        let ghost old_w = self@;
        self.grids[c] = cell;
        self.sands.push(sand);
        self.next_id = sand.id + 1;
        proof {
            let w = self@;
            let target = old_w.grids.update(c as int, old_w.grids[c as int].push(n));
            assert forall|j: int| 0 <= j < w.grids.len() implies w.grids[j] == target[j] by {
                if j == c as int {
                    assert(w.grids[j] =~= old_w.grids[j].push(n));
                } else {
                    assert(w.grids[j] =~= old_w.grids[j]);
                }
            }
            assert(w.grids =~= target);
            assert(w.sands =~= old_w.sands.push(sand@));
            assert forall|i: usize| 0 <= i < w.sands.len() implies #[trigger] w.grid_has(i) by {
                if i < old_w.sands.len() {
                    assert(old_w.grid_has(i));
                    let cw = choose|cc: int|
                        0 <= cc < old_w.grids.len() && #[trigger] old_w.grids[cc].contains(i);
                    assert(w.grids[cw].contains(i)) by {
                        let k = choose|k: int| 0 <= k < old_w.grids[cw].len()
                            && old_w.grids[cw][k] == i;
                        assert(w.grids[cw][k] == i);
                    }
                } else {
                    assert(w.grids[c as int][old_w.grids[c as int].len() as int] == i);
                    assert(w.grids[c as int].contains(i));
                }
            }
            assert(w.wf());
            if old_w.placed() {
                assert forall|cc: int, k: int|
                    0 <= cc < w.grids.len() && 0 <= k < w.grids[cc].len()
                    implies w.sand_cell(#[trigger] w.grids[cc][k] as int) == cc by {
                    let i = w.grids[cc][k];
                    if cc == c as int && k == old_w.grids[cc].len() {
                        assert(i == n);
                        assert(w.sands[i as int] == sand@);
                    } else {
                        assert(old_w.grids[cc][k] == i);
                        assert(old_w.sand_cell(i as int) == cc);
                        assert(w.sands[i as int] == old_w.sands[i as int]);
                    }
                }
            }
        }
    }

    /// Every grain filed under the 3x3 block of cells centred on the cell
    /// containing `(x, y)`, by arena index, cells concatenated in scan
    /// order.  The block is clamped at the grid edges, never wrapped.
    pub fn get_nearby(&self, x: i64, y: i64) -> (r: Vec<usize>)
        requires
            self@.wf(),
        ensures
            r@ == self@.nearby(x as int, y as int),
            forall|k: int| 0 <= k < r@.len() ==> (#[trigger] r@[k]) < self@.sands.len(),
    {
        let cx = self.cell_x_of(x);
        let cy = self.cell_y_of(y);
        let x0 = Self::try_minus_1(cx);
        let x1 = if cx + 1 > self.grid_max_x { self.grid_max_x } else { cx + 1 };
        let y0 = Self::try_minus_1(cy);
        let y1 = if cy + 1 > self.grid_max_y { self.grid_max_y } else { cy + 1 };
        let mut r: Vec<usize> = Vec::new();
        let mut cxi = x0;
        while cxi <= x1
            invariant
                self@.wf(),
                x0 <= cxi,
                cxi <= x1 + 1,
                x1 as int <= self@.grid_max_x,
                y0 <= y1,
                y1 as int <= self@.grid_max_y,
                self@.nearby(x as int, y as int) ==
                    r@ + self@.block_cells(cxi as int, x1 as int, y0 as int, y1 as int),
                forall|k: int| 0 <= k < r@.len() ==> (#[trigger] r@[k]) < self@.sands.len(),
            decreases x1 + 1 - cxi,
        {
            let mut cyi = y0;
            while cyi <= y1
                invariant
                    self@.wf(),
                    x0 <= cxi <= x1,
                    x1 as int <= self@.grid_max_x,
                    y0 <= cyi,
                    cyi <= y1 + 1,
                    y1 as int <= self@.grid_max_y,
                    self@.nearby(x as int, y as int) ==
                        r@ + self@.row_cells(cxi as int, cyi as int, y1 as int)
                           + self@.block_cells(cxi as int + 1, x1 as int, y0 as int, y1 as int),
                    forall|k: int| 0 <= k < r@.len() ==> (#[trigger] r@[k]) < self@.sands.len(),
                decreases y1 + 1 - cyi,
            {
                let c = self.cell_index_of(cxi, cyi);
                let ghost r_entry = r@;
                let mut k: usize = 0;
                let cell_len = self.grids[c].len();
                while k < cell_len
                    invariant
                        self@.wf(),
                        (c as int) < self@.grids.len(),
                        c as int == self@.cell_index(cxi as int, cyi as int),
                        cell_len == self@.grids[c as int].len(),
                        k <= cell_len,
                        r@ == r_entry + self@.grids[c as int].take(k as int),
                        forall|j: int| 0 <= j < r@.len() ==> (#[trigger] r@[j]) < self@.sands.len(),
                    decreases cell_len - k,
                {
                    let e = self.grids[c][k];
                    r.push(e);
                    proof {
                        let cellv = self@.grids[c as int];
                        assert(cellv.take(k as int + 1) =~= cellv.take(k as int).push(cellv[k as int]));
                        assert(r@ =~= r_entry + cellv.take(k as int + 1));
                    }
                    k = k + 1;
                }
                proof {
                    let cellv = self@.grids[c as int];
                    assert(cellv.take(cellv.len() as int) =~= cellv);
                    assert(self@.row_cells(cxi as int, cyi as int, y1 as int) ==
                        cellv + self@.row_cells(cxi as int, cyi as int + 1, y1 as int));
                    assert(r_entry + cellv + self@.row_cells(cxi as int, cyi as int + 1, y1 as int)
                        =~= (r_entry + cellv) + self@.row_cells(cxi as int, cyi as int + 1, y1 as int));
                    assert((r_entry + self@.row_cells(cxi as int, cyi as int, y1 as int)
                           + self@.block_cells(cxi as int + 1, x1 as int, y0 as int, y1 as int))
                        =~= (r@ + self@.row_cells(cxi as int, cyi as int + 1, y1 as int)
                           + self@.block_cells(cxi as int + 1, x1 as int, y0 as int, y1 as int)));
                }
                cyi = cyi + 1;
            }
            proof {
                assert(self@.row_cells(cxi as int, cyi as int, y1 as int) =~= Seq::empty());
                assert((r@ + Seq::<usize>::empty()
                       + self@.block_cells(cxi as int + 1, x1 as int, y0 as int, y1 as int))
                    =~= (r@ + self@.block_cells(cxi as int + 1, x1 as int, y0 as int, y1 as int)));
            }
            cxi = cxi + 1;
        }
        proof {
            assert(self@.block_cells(cxi as int, x1 as int, y0 as int, y1 as int) =~= Seq::empty());
            assert(r@ + Seq::<usize>::empty() =~= r@);
        }
        r
    }

    /// Restore the grid's cell-membership invariant: scan every cell and
    /// move (never copy) each index whose grain's position now maps to a
    /// different cell.  When nothing has moved cells, this is a no-op.
    pub fn recreate_grid(&mut self)
        requires
            old(self)@.wf(),
        ensures
            final(self)@.wf(),
            final(self)@.placed(),
            same_config(old(self)@, final(self)@),
            final(self)@.sands == old(self)@.sands,
            final(self)@.next_id == old(self)@.next_id,
            old(self)@.placed() ==> final(self)@.grids == old(self)@.grids,
            old(self)@.grid_distinct() ==> final(self)@.grid_distinct(),
    {
        let ghost w0 = old(self)@;
        let n_cells = self.grids.len();
        let mut c: usize = 0;
        while c < n_cells
            invariant
                self@.wf(),
                same_config(w0, self@),
                self@.sands == w0.sands,
                self@.next_id == w0.next_id,
                n_cells == self@.grids.len(),
                c <= n_cells,
                forall|cc: int, k: int|
                    0 <= cc < c && 0 <= k < self@.grids[cc].len()
                        ==> self@.sand_cell(#[trigger] self@.grids[cc][k] as int) == cc,
                w0.placed() ==> self@.grids == w0.grids,
                w0.grid_distinct() ==> self@.grid_distinct(),
            decreases n_cells - c,
        {
            let mut cell = Self::copy_cell(&self.grids[c]);
            let ghost cell0 = self@.grids[c as int];
            proof {
                assert(self@.grids.update(c as int, cell@) =~= self@.grids);
            }
            let mut k = cell.len();
            while k > 0
                invariant
                    self@.wf(),
                    same_config(w0, self@),
                    self@.sands == w0.sands,
                    self@.next_id == w0.next_id,
                    n_cells == self@.grids.len(),
                    c < n_cells,
                    k <= cell@.len(),
                    self@.grids[c as int] == cell0,
                    // the hybrid world, with the working copy in place of
                    // cell `c`, stays well-formed
                    (WorldV { grids: self@.grids.update(c as int, cell@), ..self@ }).wf(),
                    forall|j: int| k <= j < cell@.len()
                        ==> self@.sand_cell(#[trigger] cell@[j] as int) == c,
                    forall|cc: int, kk: int|
                        0 <= cc < c && 0 <= kk < self@.grids[cc].len()
                            ==> self@.sand_cell(#[trigger] self@.grids[cc][kk] as int) == cc,
                    w0.placed() ==> self@.grids == w0.grids && cell@ == cell0,
                    w0.grid_distinct() ==>
                        (WorldV { grids: self@.grids.update(c as int, cell@), ..self@ }).grid_distinct(),
                decreases k,
            {
                let ghost w_enter = self@;
                let ghost hy = WorldV { grids: w_enter.grids.update(c as int, cell@), ..w_enter };
                k = k - 1;
                let i = cell[k];
                proof {
                    assert(hy.grids[c as int][k as int] == i);
                    assert(i < self@.sands.len());
                }
                let sd = self.sands[i];
                proof {
                    assert(sd@ == self@.sands[i as int]);
                }
                let cx = self.cell_x_of(sd.x);
                let cy = self.cell_y_of(sd.y);
                let t = self.cell_index_of(cx, cy);
                proof {
                    assert(t as int == self@.sand_cell(i as int));
                }
                if t != c {
                    proof {
                        if w0.placed() {
                            assert(w0.grids[c as int][k as int] == i);
                            assert(false);
                        }
                    }
                    let ghost cell_pre = cell@;
                    let e = cell.swap_remove(k);
                    let mut tc = Self::copy_cell(&self.grids[t]);
                    tc.push(e);
                    self.grids[t] = tc;
                    proof {
                        assert(e == i);
                        let tgt = w_enter.grids.update(
                            t as int, w_enter.grids[t as int].push(e));
                        assert forall|j: int| 0 <= j < self@.grids.len()
                            implies self@.grids[j] == tgt[j] by {
                            if j == t as int {
                                assert(self@.grids[j] =~= w_enter.grids[j].push(e));
                            } else {
                                assert(self@.grids[j] =~= w_enter.grids[j]);
                            }
                        }
                        assert(self@.grids =~= tgt);
                        assert(cell@ =~= cell_pre.update(k as int, cell_pre.last()).drop_last());
                        assert(hy.wf());
                        let hy2 = WorldV { grids: self@.grids.update(c as int, cell@), ..self@ };
                        assert(hy2.grids[c as int] == cell@);
                        assert(hy2.grids[t as int] == hy.grids[t as int].push(e));
                        // validity of every stored index in the new hybrid
                        assert forall|cc: int, kk: int|
                            0 <= cc < hy2.grids.len() && 0 <= kk < hy2.grids[cc].len()
                            implies (#[trigger] hy2.grids[cc][kk]) < hy2.sands.len() by {
                            if cc == t as int && kk == hy.grids[cc].len() {
                                assert(hy2.grids[cc][kk] == e);
                            } else if cc == c as int {
                                if kk == k as int {
                                    assert(hy2.grids[cc][kk] == cell_pre.last());
                                    assert(hy.grids[cc][cell_pre.len() - 1] == cell_pre.last());
                                } else {
                                    assert(hy2.grids[cc][kk] == hy.grids[cc][kk]);
                                }
                            } else {
                                assert(hy2.grids[cc][kk] == hy.grids[cc][kk]);
                            }
                        }
                        // every grain is still filed somewhere in the hybrid
                        assert forall|ii: usize| 0 <= ii < hy2.sands.len()
                            implies #[trigger] hy2.grid_has(ii) by {
                            assert(hy.grid_has(ii));
                            let cc = choose|cc: int|
                                0 <= cc < hy.grids.len() && #[trigger] hy.grids[cc].contains(ii);
                            let kk = choose|kk: int|
                                0 <= kk < hy.grids[cc].len() && hy.grids[cc][kk] == ii;
                            if cc == c as int {
                                if kk == k as int {
                                    assert(ii == e);
                                    assert(hy2.grids[t as int][hy.grids[t as int].len() as int] == e);
                                    assert(hy2.grids[t as int].contains(ii));
                                } else if kk == cell_pre.len() - 1 {
                                    if k as int == cell_pre.len() - 1 {
                                        assert(ii == e);
                                        assert(hy2.grids[t as int][hy.grids[t as int].len() as int] == e);
                                        assert(hy2.grids[t as int].contains(ii));
                                    } else {
                                        assert(hy2.grids[cc][k as int] == ii);
                                        assert(hy2.grids[cc].contains(ii));
                                    }
                                } else {
                                    assert(hy2.grids[cc][kk] == ii);
                                    assert(hy2.grids[cc].contains(ii));
                                }
                            } else if cc == t as int {
                                assert(hy2.grids[cc][kk] == ii);
                                assert(hy2.grids[cc].contains(ii));
                            } else {
                                assert(hy2.grids[cc][kk] == ii);
                                assert(hy2.grids[cc].contains(ii));
                            }
                        }
                        assert(hy2.wf());
                        // the verified suffix of the working copy
                        assert forall|j: int| k <= j < cell@.len()
                            implies self@.sand_cell(#[trigger] cell@[j] as int) == c as int by {
                            if j == k as int {
                                assert(cell@[j] == cell_pre.last());
                                assert(w_enter.sand_cell(cell_pre.last() as int) == c as int);
                            } else {
                                assert(cell@[j] == cell_pre[j]);
                                assert(w_enter.sand_cell(cell_pre[j] as int) == c as int);
                            }
                        }
                        // already-scanned cells stay placed: the push carried
                        // the index into exactly the cell its grain maps to
                        assert forall|cc: int, kk: int|
                            0 <= cc < c && 0 <= kk < self@.grids[cc].len()
                            implies self@.sand_cell(#[trigger] self@.grids[cc][kk] as int) == cc by {
                            if cc == t as int && kk == w_enter.grids[cc].len() {
                                assert(self@.grids[cc][kk] == e);
                                assert(self@.sand_cell(e as int) == t as int);
                            } else {
                                assert(self@.grids[cc][kk] == w_enter.grids[cc][kk]);
                                assert(w_enter.sand_cell(w_enter.grids[cc][kk] as int) == cc);
                            }
                        }
                        // the real grid only gained an entry: still well-formed
                        assert forall|cc: int, kk: int|
                            0 <= cc < self@.grids.len() && 0 <= kk < self@.grids[cc].len()
                            implies (#[trigger] self@.grids[cc][kk]) < self@.sands.len() by {
                            if cc == t as int && kk == w_enter.grids[cc].len() {
                                assert(self@.grids[cc][kk] == e);
                            } else {
                                assert(self@.grids[cc][kk] == w_enter.grids[cc][kk]);
                            }
                        }
                        assert forall|ii: usize| 0 <= ii < self@.sands.len()
                            implies #[trigger] self@.grid_has(ii) by {
                            assert(w_enter.grid_has(ii));
                            let cc = choose|cc: int|
                                0 <= cc < w_enter.grids.len()
                                    && #[trigger] w_enter.grids[cc].contains(ii);
                            let kk = choose|kk: int|
                                0 <= kk < w_enter.grids[cc].len() && w_enter.grids[cc][kk] == ii;
                            assert(self@.grids[cc][kk] == ii);
                            assert(self@.grids[cc].contains(ii));
                        }
                        assert(self@.wf());
                        assert(self@.grids[c as int] == cell0);
                        if w0.grid_distinct() {
                            let tlen = hy.grids[t as int].len();
                            assert forall|c1: int, k1: int, c2: int, k2: int|
                                0 <= c1 < hy2.grids.len() && 0 <= k1 < hy2.grids[c1].len()
                                    && 0 <= c2 < hy2.grids.len() && 0 <= k2 < hy2.grids[c2].len()
                                    && (#[trigger] hy2.grids[c1][k1]) == (#[trigger] hy2.grids[c2][k2])
                                implies c1 == c2 && k1 == k2 by {
                                // trace both entries back to where they sat
                                // before the move
                                let s1c = if c1 == t as int && k1 == tlen { c as int } else { c1 };
                                let s1k = if c1 == t as int && k1 == tlen {
                                    k as int
                                } else if c1 == c as int && k1 == k as int {
                                    cell_pre.len() - 1
                                } else {
                                    k1
                                };
                                let s2c = if c2 == t as int && k2 == tlen { c as int } else { c2 };
                                let s2k = if c2 == t as int && k2 == tlen {
                                    k as int
                                } else if c2 == c as int && k2 == k as int {
                                    cell_pre.len() - 1
                                } else {
                                    k2
                                };
                                assert(0 <= s1c < hy.grids.len() && 0 <= s1k < hy.grids[s1c].len());
                                assert(0 <= s2c < hy.grids.len() && 0 <= s2k < hy.grids[s2c].len());
                                assert(hy.grids[s1c][s1k] == hy2.grids[c1][k1]);
                                assert(hy.grids[s2c][s2k] == hy2.grids[c2][k2]);
                                assert(s1c == s2c && s1k == s2k);
                            }
                            assert(hy2.grid_distinct());
                        }
                    }
                } else {
                    proof {
                        assert(cell@[k as int] == i);
                        assert(self@.sand_cell(cell@[k as int] as int) == c as int);
                    }
                }
            }
            let ghost w_exit = self@;
            let ghost hy_exit = WorldV { grids: w_exit.grids.update(c as int, cell@), ..w_exit };
            self.grids[c] = cell;
            proof {
                assert forall|j: int| 0 <= j < self@.grids.len()
                    implies self@.grids[j] == hy_exit.grids[j] by {
                    if j == c as int {
                        assert(self@.grids[j] =~= cell@);
                    } else {
                        assert(self@.grids[j] =~= w_exit.grids[j]);
                    }
                }
                assert(self@.grids =~= hy_exit.grids);
                assert(hy_exit.wf());
                assert(self@ == hy_exit);
                assert(self@.wf());
                // cells scanned so far, now including `c`, are placed
                assert forall|cc: int, kk: int|
                    0 <= cc < c + 1 && 0 <= kk < self@.grids[cc].len()
                    implies self@.sand_cell(#[trigger] self@.grids[cc][kk] as int) == cc by {
                    if cc == c as int {
                        assert(self@.grids[cc][kk] == cell@[kk]);
                        assert(w_exit.sand_cell(cell@[kk] as int) == c as int);
                    } else {
                        assert(self@.grids[cc][kk] == w_exit.grids[cc][kk]);
                        assert(w_exit.sand_cell(w_exit.grids[cc][kk] as int) == cc);
                    }
                }
                if w0.placed() {
                    assert(cell@ == cell0);
                    assert(self@.grids =~= w0.grids);
                }
            }
            c = c + 1;
        }
    }

    /// Append `count` fresh grains at `(x, y)`, each with the next unused
    /// id and zero velocity, filing each into the cell its position maps to.
    pub fn spawn(&mut self, x: i64, y: i64, count: usize)
        requires
            old(self)@.wf(),
            -POS_LIMIT <= x <= POS_LIMIT,
            -POS_LIMIT <= y <= POS_LIMIT,
            old(self)@.next_id + count < usize::MAX,
        ensures
            final(self)@.wf(),
            same_config(old(self)@, final(self)@),
            final(self)@.sands.len() == old(self)@.sands.len() + count,
            forall|i: int| 0 <= i < old(self)@.sands.len()
                ==> (#[trigger] final(self)@.sands[i]) == old(self)@.sands[i],
            forall|j: int| 0 <= j < count
                ==> #[trigger] final(self)@.sands[old(self)@.sands.len() + j] == (SandV {
                    x: x as int,
                    y: y as int,
                    delta_x: 0,
                    delta_y: 0,
                    id: old(self)@.next_id + j,
                }),
            final(self)@.next_id == old(self)@.next_id + count,
            old(self)@.placed() ==> final(self)@.placed(),
            old(self)@.grid_distinct() ==> final(self)@.grid_distinct(),
    {
        let ghost w0 = old(self)@;
        let mut j: usize = 0;
        while j < count
            invariant
                self@.wf(),
                same_config(w0, self@),
                j <= count,
                w0.next_id + count < usize::MAX,
                -POS_LIMIT <= x <= POS_LIMIT,
                -POS_LIMIT <= y <= POS_LIMIT,
                self@.sands.len() == w0.sands.len() + j,
                forall|i: int| 0 <= i < w0.sands.len() ==> (#[trigger] self@.sands[i]) == w0.sands[i],
                forall|jj: int| 0 <= jj < j
                    ==> #[trigger] self@.sands[w0.sands.len() + jj] == (SandV {
                        x: x as int,
                        y: y as int,
                        delta_x: 0,
                        delta_y: 0,
                        id: w0.next_id + jj,
                    }),
                self@.next_id == w0.next_id + j,
                w0.placed() ==> self@.placed(),
                w0.grid_distinct() ==> self@.grid_distinct(),
            decreases count - j,
        {
            let id = self.next_id;
            let s = Sand::new(x, y, id);
            self.add_sand(s);
            j = j + 1;
        }
    }

    /// One frame: every grain takes one update, in arena order, each seeing
    /// the world as the grains before it already left it; then the grid is
    /// rebuilt.  No grain is skipped or updated twice, every grain keeps its
    /// id, and every grain ends inside the plane's `2r` margins.
    pub fn step_frame(&mut self, dt: i64)
        requires
            old(self)@.wf(),
            0 <= dt <= DT_LIMIT,
        ensures
            final(self)@.wf(),
            final(self)@.placed(),
            same_config(old(self)@, final(self)@),
            old(self)@.grid_distinct() ==> final(self)@.grid_distinct(),
            final(self)@.next_id == old(self)@.next_id,
            final(self)@.sands ==
                step_upto(old(self)@, dt as int, old(self)@.sands.len() as int).sands,
            final(self)@.sands.len() == old(self)@.sands.len(),
            forall|i: int| 0 <= i < old(self)@.sands.len()
                ==> final(self)@.sands[i].id == old(self)@.sands[i].id,
            forall|i: int| 0 <= i < final(self)@.sands.len()
                ==> 2 * (SAND_RADIUS as int) <= (#[trigger] final(self)@.sands[i]).x
                    <= final(self)@.width * (SCALE as int) - 2 * (SAND_RADIUS as int)
                 && 2 * (SAND_RADIUS as int) <= final(self)@.sands[i].y
                    <= final(self)@.height * (SCALE as int) - 2 * (SAND_RADIUS as int),
    {
        let ghost w0 = old(self)@;
        let n = self.sands.len();
        let mut i: usize = 0;
        while i < n
            invariant
                self@.wf(),
                0 <= dt <= DT_LIMIT,
                i <= n,
                n == w0.sands.len(),
                self@.sands.len() == n,
                same_config(w0, self@),
                self@.next_id == w0.next_id,
                self@.grids == w0.grids,
                self@ == step_upto(w0, dt as int, i as int),
                forall|j: int| 0 <= j < i
                    ==> (#[trigger] self@.sands[j]).id == w0.sands[j].id,
                forall|j: int| i <= j < n
                    ==> (#[trigger] self@.sands[j]) == w0.sands[j],
                forall|j: int| 0 <= j < i
                    ==> 2 * (SAND_RADIUS as int) <= (#[trigger] self@.sands[j]).x
                        <= self@.width * (SCALE as int) - 2 * (SAND_RADIUS as int)
                     && 2 * (SAND_RADIUS as int) <= self@.sands[j].y
                        <= self@.height * (SCALE as int) - 2 * (SAND_RADIUS as int),
            decreases n - i,
        {
            let ghost w_pre = self@;
            let mut s = self.sands[i];
            proof {
                assert(s@ == w_pre.sands[i as int]);
                assert(sand_bounded(s@));
            }
            s.update(dt, self);
            self.sands[i] = s;
            proof {
                assert forall|j: int| 0 <= j < self@.sands.len()
                    implies self@.sands[j] == w_pre.sands.update(i as int, s@)[j] by {
                    if j == i as int {
                        assert(self@.sands[j] == s@);
                    } else {
                        assert(self@.sands[j] == w_pre.sands[j]);
                    }
                }
                assert(self@.sands =~= w_pre.sands.update(i as int, s@));
                assert(s@ == update_model(w_pre.sands[i as int], w_pre, dt as int));
                assert(self@ == (WorldV {
                    sands: w_pre.sands.update(i as int, update_model(w_pre.sands[i as int], w_pre, dt as int)),
                    ..w_pre
                }));
                assert(self@ == step_upto(w0, dt as int, i as int + 1));
                assert forall|ii: usize| 0 <= ii < self@.sands.len()
                    implies #[trigger] self@.grid_has(ii) by {
                    assert(w_pre.grid_has(ii));
                    let cc = choose|cc: int|
                        0 <= cc < w_pre.grids.len() && #[trigger] w_pre.grids[cc].contains(ii);
                    assert(self@.grids[cc].contains(ii));
                }
                assert(self@.wf());
            }
            i = i + 1;
        }
        self.recreate_grid();
    }
}

/// Cell `(cx, cy)` of a well-formed world maps to a flat index inside the
/// grid vector.
pub proof fn lemma_cell_index_bound(cx: int, cy: int, gmx: int, gmy: int)
    by (nonlinear_arith)
    requires
        0 <= cx <= gmx,
        0 <= cy <= gmy,
    ensures
        0 <= cx * (gmy + 1) + cy < (gmx + 1) * (gmy + 1),
        cx * (gmy + 1) + cy <= gmx * (gmy + 1) + gmy,
{
}

/// Cell coordinates of any position land inside the grid.
pub proof fn lemma_cell_range(w: WorldV, x: int, y: int)
    requires
        w.wf(),
    ensures
        0 <= w.cell_x(x) <= w.grid_max_x,
        0 <= w.cell_y(y) <= w.grid_max_y,
{
    if x > 0 {
        vstd::arithmetic::div_mod::lemma_div_pos_is_pos(x, w.grid_size * (SCALE as int));
    }
    if y > 0 {
        vstd::arithmetic::div_mod::lemma_div_pos_is_pos(y, w.grid_size * (SCALE as int));
    }
}

/// An index filed under one cell of a column appears in that column's
/// concatenation.
proof fn lemma_row_cells_contains(w: WorldV, cx: int, y0: int, cy: int, y1: int, e: usize)
    requires
        y0 <= cy <= y1,
        w.grids[w.cell_index(cx, cy)].contains(e),
    ensures
        w.row_cells(cx, y0, y1).contains(e),
    decreases cy - y0,
{
    let a = w.grids[w.cell_index(cx, y0)];
    let b = w.row_cells(cx, y0 + 1, y1);
    if y0 == cy {
        let kk = choose|kk: int| 0 <= kk < a.len() && a[kk] == e;
        assert(w.row_cells(cx, y0, y1)[kk] == e);
    } else {
        lemma_row_cells_contains(w, cx, y0 + 1, cy, y1, e);
        let kk = choose|kk: int| 0 <= kk < b.len() && b[kk] == e;
        assert(w.row_cells(cx, y0, y1)[a.len() + kk] == e);
    }
}

/// An index filed under one cell of a rectangle appears in the rectangle's
/// concatenation.
proof fn lemma_block_cells_contains(
    w: WorldV, x0: int, x1: int, y0: int, y1: int, cx: int, cy: int, e: usize,
)
    requires
        x0 <= cx <= x1,
        y0 <= cy <= y1,
        w.grids[w.cell_index(cx, cy)].contains(e),
    ensures
        w.block_cells(x0, x1, y0, y1).contains(e),
    decreases cx - x0,
{
    let a = w.row_cells(x0, y0, y1);
    let b = w.block_cells(x0 + 1, x1, y0, y1);
    if x0 == cx {
        lemma_row_cells_contains(w, cx, y0, cy, y1, e);
        let kk = choose|kk: int| 0 <= kk < a.len() && a[kk] == e;
        assert(w.block_cells(x0, x1, y0, y1)[kk] == e);
    } else {
        lemma_block_cells_contains(w, x0 + 1, x1, y0, y1, cx, cy, e);
        let kk = choose|kk: int| 0 <= kk < b.len() && b[kk] == e;
        assert(w.block_cells(x0, x1, y0, y1)[a.len() + kk] == e);
    }
}

/// An index in a column's concatenation is filed under one of its cells.
proof fn lemma_row_cells_sound(w: WorldV, cx: int, y0: int, y1: int, e: usize)
    requires
        w.row_cells(cx, y0, y1).contains(e),
    ensures
        exists|cy: int|
            #![auto]
            y0 <= cy <= y1 && w.grids[w.cell_index(cx, cy)].contains(e),
    decreases y1 + 1 - y0,
{
    assert(y0 <= y1);
    let a = w.grids[w.cell_index(cx, y0)];
    let b = w.row_cells(cx, y0 + 1, y1);
    let kk = choose|kk: int|
        0 <= kk < w.row_cells(cx, y0, y1).len() && w.row_cells(cx, y0, y1)[kk] == e;
    if kk < a.len() {
        assert(a[kk] == e);
        assert(a.contains(e));
    } else {
        assert(b[kk - a.len()] == e);
        assert(b.contains(e));
        lemma_row_cells_sound(w, cx, y0 + 1, y1, e);
    }
}

/// An index in a rectangle's concatenation is filed under one of its cells.
proof fn lemma_block_cells_sound(w: WorldV, x0: int, x1: int, y0: int, y1: int, e: usize)
    requires
        w.block_cells(x0, x1, y0, y1).contains(e),
    ensures
        exists|cx: int, cy: int|
            #![auto]
            x0 <= cx <= x1 && y0 <= cy <= y1 && w.grids[w.cell_index(cx, cy)].contains(e),
    decreases x1 + 1 - x0,
{
    assert(x0 <= x1);
    let a = w.row_cells(x0, y0, y1);
    let b = w.block_cells(x0 + 1, x1, y0, y1);
    let kk = choose|kk: int|
        0 <= kk < w.block_cells(x0, x1, y0, y1).len()
            && w.block_cells(x0, x1, y0, y1)[kk] == e;
    if kk < a.len() {
        assert(a[kk] == e);
        assert(a.contains(e));
        lemma_row_cells_sound(w, x0, y0, y1, e);
    } else {
        assert(b[kk - a.len()] == e);
        assert(b.contains(e));
        lemma_block_cells_sound(w, x0 + 1, x1, y0, y1, e);
    }
}

/// Neighbourhood law: with the grid's membership invariant restored, the
/// neighbourhood of `(x, y)` holds every grain whose cell equals the cell
/// containing `(x, y)`, and nothing farther than one cell away on either
/// axis.
pub proof fn lemma_nearby_complete_and_close(w: WorldV, x: int, y: int)
    requires
        w.wf(),
        w.placed(),
    ensures
        forall|i: usize|
            i < w.sands.len()
                && w.cell_x(w.sands[i as int].x) == w.cell_x(x)
                && w.cell_y(w.sands[i as int].y) == w.cell_y(y)
                ==> #[trigger] w.nearby(x, y).contains(i),
        forall|k: int|
            0 <= k < w.nearby(x, y).len() ==> {
                let i = #[trigger] w.nearby(x, y)[k];
                &&& i < w.sands.len()
                &&& w.cell_x(x) - 1 <= w.cell_x(w.sands[i as int].x) <= w.cell_x(x) + 1
                &&& w.cell_y(y) - 1 <= w.cell_y(w.sands[i as int].y) <= w.cell_y(y) + 1
            },
{
    let cx = w.cell_x(x);
    let cy = w.cell_y(y);
    lemma_cell_range(w, x, y);
    let x0 = if cx == 0 { 0int } else { cx - 1 };
    let x1 = if cx + 1 > w.grid_max_x { w.grid_max_x } else { cx + 1 };
    let y0 = if cy == 0 { 0int } else { cy - 1 };
    let y1 = if cy + 1 > w.grid_max_y { w.grid_max_y } else { cy + 1 };
    assert(w.nearby(x, y) == w.block_cells(x0, x1, y0, y1));

    assert forall|i: usize|
        i < w.sands.len()
            && w.cell_x(w.sands[i as int].x) == cx
            && w.cell_y(w.sands[i as int].y) == cy
        implies #[trigger] w.nearby(x, y).contains(i) by {
        assert(w.grid_has(i));
        let c = choose|c: int| 0 <= c < w.grids.len() && #[trigger] w.grids[c].contains(i);
        let kk = choose|kk: int| 0 <= kk < w.grids[c].len() && w.grids[c][kk] == i;
        assert(w.sand_cell(i as int) == c);
        lemma_cell_index_bound(cx, cy, w.grid_max_x, w.grid_max_y);
        assert(c == w.cell_index(cx, cy));
        lemma_block_cells_contains(w, x0, x1, y0, y1, cx, cy, i);
    }

    assert forall|k: int| 0 <= k < w.nearby(x, y).len() implies {
        let i = #[trigger] w.nearby(x, y)[k];
        &&& i < w.sands.len()
        &&& cx - 1 <= w.cell_x(w.sands[i as int].x) <= cx + 1
        &&& cy - 1 <= w.cell_y(w.sands[i as int].y) <= cy + 1
    } by {
        let i = w.nearby(x, y)[k];
        assert(w.nearby(x, y).contains(i));
        lemma_block_cells_sound(w, x0, x1, y0, y1, i);
        let (cxx, cyy) = choose|cxx: int, cyy: int|
            #![auto]
            x0 <= cxx <= x1 && y0 <= cyy <= y1
                && w.grids[w.cell_index(cxx, cyy)].contains(i);
        lemma_cell_index_bound(cxx, cyy, w.grid_max_x, w.grid_max_y);
        let c = w.cell_index(cxx, cyy);
        let kk = choose|kk: int| 0 <= kk < w.grids[c].len() && w.grids[c][kk] == i;
        assert(i < w.sands.len());
        assert(w.sand_cell(i as int) == c);
        lemma_cell_range(w, w.sands[i as int].x, w.sands[i as int].y);
        lemma_cell_index_inj(
            w.cell_x(w.sands[i as int].x), w.cell_y(w.sands[i as int].y),
            cxx, cyy, w.grid_max_y);
    }
}

/// Distinct cell coordinates map to distinct flat indices.
pub proof fn lemma_cell_index_inj(cx1: int, cy1: int, cx2: int, cy2: int, gmy: int)
    by (nonlinear_arith)
    requires
        0 <= cy1 <= gmy,
        0 <= cy2 <= gmy,
        0 <= cx1,
        0 <= cx2,
        cx1 * (gmy + 1) + cy1 == cx2 * (gmy + 1) + cy2,
    ensures
        cx1 == cx2 && cy1 == cy2,
{
}

} // verus!

