//! The grid automaton: storage, row-major addressing, neighbour counting and
//! the generational transition rule.

use vstd::arithmetic::div_mod::lemma_fundamental_div_mod;
use vstd::arithmetic::div_mod::lemma_fundamental_div_mod_converse;
use vstd::arithmetic::div_mod::lemma_mod_bound;
use vstd::prelude::*;

verus! {

/// The state of one cell. A cell carries no other data.
#[derive(Clone, Copy, PartialEq, Eq, Debug, Structural)]
pub enum CellState {
    Alive,
    Dead,
}

/// The only failure of the grid: a coordinate at or beyond a dimension.
#[derive(Clone, Copy, PartialEq, Eq, Debug, Structural)]
pub enum CellsErr {
    OOB,
}

/// A rectangular grid of cell states, `x` wide and `y` tall, stored as one
/// dense row-major vector of `x * y` cells. The dimensions are fixed at
/// construction; zero-sized dimensions give a valid empty grid on which every
/// coordinate access is out of bounds.
#[derive(Clone, Debug)]
pub struct Cells {
    x: usize,
    y: usize,
    map: Vec<CellState>,
}

/// The Life rule for one cell: with exactly three live neighbours the cell is
/// alive in the next generation, with exactly two it keeps its state, and in
/// every other case it is dead.
pub open spec fn transition(cur: CellState, n: int) -> CellState {
    if n == 3 {
        CellState::Alive
    } else if n == 2 {
        cur
    } else {
        CellState::Dead
    }
}

impl Cells {
    /// The grid's width.
    pub closed spec fn spec_x(self) -> int {
        self.x as int
    }

    /// The grid's height.
    pub closed spec fn spec_y(self) -> int {
        self.y as int
    }

    /// The cells in storage order: row `y` occupies indices
    /// `[y * width, (y + 1) * width)`.
    pub closed spec fn grid(self) -> Seq<CellState> {
        self.map@
    }

    /// Well-formedness: the storage holds exactly one slot per coordinate.
    pub open spec fn wf(self) -> bool {
        self.grid().len() == self.spec_x() * self.spec_y()
    }

    /// Whether `(x, y)` lies on the grid.
    pub open spec fn in_bounds(self, x: int, y: int) -> bool {
        0 <= x < self.spec_x() && 0 <= y < self.spec_y()
    }

    /// Row-major storage index of `(x, y)`.
    pub open spec fn spec_c2i(self, x: int, y: int) -> int {
        y * self.spec_x() + x
    }

    /// The coordinate stored at index `i`: the inverse of `spec_c2i`.
    pub open spec fn spec_i2c(self, i: int) -> (int, int) {
        (i % self.spec_x(), i / self.spec_x())
    }

    /// The state stored for the in-bounds coordinate `(x, y)`.
    pub open spec fn cell_at(self, x: int, y: int) -> CellState {
        self.grid()[self.spec_c2i(x, y)]
    }

    /// Whether `(x, y)` holds a live cell. A coordinate off the grid never
    /// does: the grid is bounded, not toroidal.
    pub open spec fn live_at(self, x: int, y: int) -> bool {
        self.in_bounds(x, y) && self.cell_at(x, y) == CellState::Alive
    }

    /// One if `(x, y)` holds a live cell, zero otherwise.
    pub open spec fn one_if_live(self, x: int, y: int) -> int {
        if self.live_at(x, y) {
            1
        } else {
            0
        }
    }

    /// How many of the eight grid-adjacent neighbours of `(x, y)` are alive.
    /// Each of the eight distinct adjacent coordinates is counted exactly
    /// once; the four orthogonal and the four diagonal neighbours.
    pub open spec fn neighbor_count(self, x: int, y: int) -> int {
        self.one_if_live(x - 1, y - 1) + self.one_if_live(x, y - 1) + self.one_if_live(x + 1, y - 1)
            + self.one_if_live(x - 1, y) + self.one_if_live(x + 1, y)
            + self.one_if_live(x - 1, y + 1) + self.one_if_live(x, y + 1)
            + self.one_if_live(x + 1, y + 1)
    }

    /// The state `(x, y)` takes in the next generation, from this
    /// generation's own state and neighbour count alone.
    pub open spec fn next_cell(self, x: int, y: int) -> CellState {
        transition(self.cell_at(x, y), self.neighbor_count(x, y))
    }

    /// Whether every cell on the grid is dead.
    pub open spec fn all_dead(self) -> bool {
        forall|x: int, y: int| self.in_bounds(x, y) ==> self.cell_at(x, y) == CellState::Dead
    }

    /// A row-major index of an in-bounds coordinate lies within the storage.
    pub proof fn lemma_c2i_in_range(self, x: int, y: int)
        requires
            self.wf(),
            self.in_bounds(x, y),
        ensures
            0 <= self.spec_c2i(x, y) < self.grid().len(),
    {
        assert(0 <= y * self.spec_x() + x < self.spec_x() * self.spec_y()) by (nonlinear_arith)
            requires
                0 <= x < self.spec_x(),
                0 <= y < self.spec_y(),
        ;
    }

    /// Index-to-coordinate inverts coordinate-to-index: the storage mapping
    /// is a bijection between coordinates and indices.
    pub proof fn lemma_i2c_c2i(self, x: int, y: int)
        requires
            self.in_bounds(x, y),
        ensures
            self.spec_i2c(self.spec_c2i(x, y)) == (x, y),
    {
        lemma_fundamental_div_mod_converse(y * self.spec_x() + x, self.spec_x(), y, x);
    }

    /// Every storage index decodes to an in-bounds coordinate, and encoding
    /// that coordinate gives the index back.
    pub proof fn lemma_c2i_i2c(self, i: int)
        requires
            self.wf(),
            0 <= i < self.grid().len(),
        ensures
            self.in_bounds(self.spec_i2c(i).0, self.spec_i2c(i).1),
            self.spec_c2i(self.spec_i2c(i).0, self.spec_i2c(i).1) == i,
    {
        let w = self.spec_x();
        let h = self.spec_y();
        assert(w > 0 && h > 0) by (nonlinear_arith)
            requires
                0 <= i < w * h,
                w >= 0,
                h >= 0,
        ;
        lemma_mod_bound(i, w);
        lemma_fundamental_div_mod(i, w);
        let q = i / w;
        let r = i % w;
        assert(q * w + r == i) by (nonlinear_arith)
            requires
                i == w * q + r,
        ;
        assert(0 <= q < h) by (nonlinear_arith)
            requires
                i == w * q + r,
                0 <= r < w,
                0 <= i < w * h,
        ;
    }

    /// Builds a grid of the given dimensions with every cell dead.
    pub fn new(x: usize, y: usize) -> (r: Self)
        requires
            x * y <= usize::MAX,
        ensures
            r.wf(),
            r.spec_x() == x as int,
            r.spec_y() == y as int,
            forall|i: int| 0 <= i < r.grid().len() ==> r.grid()[i] == CellState::Dead,
    {
        let n = x * y;
        let mut map: Vec<CellState> = Vec::new();
        let mut i: usize = 0;
        while i < n
            invariant
                i <= n,
                map@.len() == i as int,
                forall|j: int| 0 <= j < i ==> map@[j] == CellState::Dead,
            decreases n - i,
        {
            map.push(CellState::Dead);
            i = i + 1;
        }
        Cells { x, y, map }
    }

    /// The fixed width.
    pub fn x(&self) -> (r: usize)
        ensures
            r as int == self.spec_x(),
    {
        self.x
    }

    /// The fixed height.
    pub fn y(&self) -> (r: usize)
        ensures
            r as int == self.spec_y(),
    {
        self.y
    }

    /// Row-major storage index of the in-bounds coordinate `(x, y)`.
    pub fn c2i(&self, x: usize, y: usize) -> (i: usize)
        requires
            self.wf(),
            self.in_bounds(x as int, y as int),
        ensures
            i as int == self.spec_c2i(x as int, y as int),
            i < self.grid().len(),
    {
        proof {
            self.lemma_c2i_in_range(x as int, y as int);
            assert(self.grid().len() == self.map.len());
        }
        y * self.x + x
    }

    /// The coordinate stored at `index`: the inverse of `c2i`.
    pub fn i2c(&self, index: usize) -> (r: (usize, usize))
        requires
            self.wf(),
            (index as int) < self.grid().len(),
        ensures
            (r.0 as int, r.1 as int) == self.spec_i2c(index as int),
            self.in_bounds(r.0 as int, r.1 as int),
    {
        proof {
            self.lemma_c2i_i2c(index as int);
        }
        (index % self.x, index / self.x)
    }

    /// Writes `alive` into the cell at `(x, y)`. Succeeds exactly on
    /// in-bounds coordinates, replacing that one cell and nothing else; an
    /// out-of-bounds coordinate is rejected and the grid is left unchanged.
    pub fn set(&mut self, x: usize, y: usize, alive: CellState) -> (r: Result<(), CellsErr>)
        requires
            old(self).wf(),
        ensures
            final(self).wf(),
            final(self).spec_x() == old(self).spec_x(),
            final(self).spec_y() == old(self).spec_y(),
            old(self).in_bounds(x as int, y as int) ==> {
                &&& r == Ok::<(), CellsErr>(())
                &&& final(self).grid() == old(self).grid().update(
                    old(self).spec_c2i(x as int, y as int),
                    alive,
                )
                &&& final(self).cell_at(x as int, y as int) == alive
            },
            !old(self).in_bounds(x as int, y as int) ==> {
                &&& r == Err::<(), CellsErr>(CellsErr::OOB)
                &&& *final(self) == *old(self)
            },
            forall|i: int, j: int|
                old(self).in_bounds(i, j) && (i, j) != (x as int, y as int) ==> final(self).cell_at(
                    i,
                    j,
                ) == old(self).cell_at(i, j),
    {
        let ghost pre = *self;
        if x < self.x && y < self.y {
            let index = self.c2i(x, y);
            self.map[index] = alive;
            proof {
                assert forall|i: int, j: int|
                    pre.in_bounds(i, j) && (i, j) != (x as int, y as int) implies self.cell_at(i, j)
                    == pre.cell_at(i, j) by {
                    pre.lemma_i2c_c2i(i, j);
                    pre.lemma_i2c_c2i(x as int, y as int);
                    pre.lemma_c2i_in_range(i, j);
                }
            }
            Ok(())
        } else {
            Err(CellsErr::OOB)
        }
    }

    /// Reads the cell at `(x, y)`. Succeeds exactly on in-bounds coordinates
    /// and never changes the grid; an out-of-bounds coordinate is rejected.
    pub fn get(&self, x: usize, y: usize) -> (r: Result<CellState, CellsErr>)
        requires
            self.wf(),
        ensures
            self.in_bounds(x as int, y as int) ==> r == Ok::<CellState, CellsErr>(
                self.cell_at(x as int, y as int),
            ),
            !self.in_bounds(x as int, y as int) ==> r == Err::<CellState, CellsErr>(CellsErr::OOB),
    {
        if x < self.x && y < self.y {
            let index = self.c2i(x, y);
            Ok(self.map[index])
        } else {
            Err(CellsErr::OOB)
        }
    }

    /// One if the coordinate holds a live cell, zero otherwise; a coordinate
    /// off the grid counts zero.
    fn live(&self, x: usize, y: usize) -> (r: usize)
        requires
            self.wf(),
        ensures
            r as int == self.one_if_live(x as int, y as int),
    {
        if x < self.x && y < self.y {
            let index = self.c2i(x, y);
            match self.map[index] {
                CellState::Alive => 1,
                CellState::Dead => 0,
            }
        } else {
            0
        }
    }

    /// Counts the live cells among the eight grid-adjacent neighbours of the
    /// in-bounds coordinate `(x, y)`, each examined exactly once; neighbours
    /// off the grid count as dead.
    pub fn count_neighbors(&self, x: usize, y: usize) -> (r: usize)
        requires
            self.wf(),
            self.in_bounds(x as int, y as int),
        ensures
            r as int == self.neighbor_count(x as int, y as int),
            r <= 8,
    {
        let mut lives: usize = 0;
        if x > 0 {
            if y > 0 {
                lives = lives + self.live(x - 1, y - 1);
            }
            lives = lives + self.live(x - 1, y);
            lives = lives + self.live(x - 1, y + 1);
        }
        if y > 0 {
            lives = lives + self.live(x, y - 1);
            lives = lives + self.live(x + 1, y - 1);
        }
        lives = lives + self.live(x + 1, y);
        lives = lives + self.live(x, y + 1);
        lives = lives + self.live(x + 1, y + 1);
        lives
    }

    /// Computes the whole next generation into fresh storage, reading only
    /// this generation: slot `i` receives the transition of the cell whose
    /// coordinate is stored at `i`.
    fn next_generation(&self) -> (next: Vec<CellState>)
        requires
            self.wf(),
        ensures
            next@.len() == self.grid().len(),
            forall|i: int|
                0 <= i < next@.len() ==> next@[i] == self.next_cell(
                    self.spec_i2c(i).0,
                    self.spec_i2c(i).1,
                ),
    {
        let n = self.map.len();
        let mut next: Vec<CellState> = Vec::new();
        let mut i: usize = 0;
        while i < n
            invariant
                self.wf(),
                n as int == self.grid().len(),
                i <= n,
                next@.len() == i as int,
                forall|j: int|
                    0 <= j < i ==> next@[j] == self.next_cell(
                        self.spec_i2c(j).0,
                        self.spec_i2c(j).1,
                    ),
            decreases n - i,
        {
            let (cx, cy) = self.i2c(i);
            let count = self.count_neighbors(cx, cy);
            proof {
                self.lemma_c2i_i2c(i as int);
            }
            let cell = if count == 3 {
                CellState::Alive
            } else if count == 2 {
                self.map[i]
            } else {
                CellState::Dead
            };
            next.push(cell);
            i = i + 1;
        }
        next
    }

    /// Advances the grid one generation: every cell simultaneously takes the
    /// state the Life rule gives it from this generation's snapshot. The
    /// dimensions never change and the operation cannot fail.
    pub fn reduce(&mut self)
        requires
            old(self).wf(),
        ensures
            final(self).wf(),
            final(self).spec_x() == old(self).spec_x(),
            final(self).spec_y() == old(self).spec_y(),
            final(self).grid().len() == old(self).grid().len(),
            forall|i: int|
                0 <= i < final(self).grid().len() ==> final(self).grid()[i] == old(self).next_cell(
                    old(self).spec_i2c(i).0,
                    old(self).spec_i2c(i).1,
                ),
            forall|x: int, y: int|
                old(self).in_bounds(x, y) ==> final(self).cell_at(x, y) == old(self).next_cell(
                    x,
                    y,
                ),
    {
        let ghost pre = *self;
        let next = self.next_generation();
        self.map = next;
        proof {
            assert forall|x: int, y: int| pre.in_bounds(x, y) implies self.cell_at(x, y)
                == pre.next_cell(x, y) by {
                pre.lemma_c2i_in_range(x, y);
                pre.lemma_i2c_c2i(x, y);
            }
        }
    }

    /// Determinism of the step: two grids with the same dimensions and the
    /// same cells agree, at every coordinate, on the next generation's state.
    pub proof fn lemma_step_deterministic(a: Cells, b: Cells, x: int, y: int)
        requires
            a.spec_x() == b.spec_x(),
            a.spec_y() == b.spec_y(),
            a.grid() == b.grid(),
        ensures
            a.next_cell(x, y) == b.next_cell(x, y),
    {
    }

    /// The all-dead grid is absorbing: every cell of its next generation is
    /// dead again, whatever the grid's size.
    pub proof fn lemma_all_dead_absorbing(self, x: int, y: int)
        requires
            self.all_dead(),
            self.in_bounds(x, y),
        ensures
            self.next_cell(x, y) == CellState::Dead,
    {
        assert(self.one_if_live(x - 1, y - 1) == 0);
        assert(self.one_if_live(x, y - 1) == 0);
        assert(self.one_if_live(x + 1, y - 1) == 0);
        assert(self.one_if_live(x - 1, y) == 0);
        assert(self.one_if_live(x + 1, y) == 0);
        assert(self.one_if_live(x - 1, y + 1) == 0);
        assert(self.one_if_live(x, y + 1) == 0);
        assert(self.one_if_live(x + 1, y + 1) == 0);
    }

    /// Still life: each of the four cells of a 2x2 block of live cells whose
    /// adjacent surroundings hold no live cell has exactly three live
    /// neighbours, so it is alive again in the next generation, wherever the
    /// block stands on the grid.
    pub proof fn lemma_block_still_life(self, bx: int, by: int, x: int, y: int)
        requires
            self.live_at(bx, by),
            self.live_at(bx + 1, by),
            self.live_at(bx, by + 1),
            self.live_at(bx + 1, by + 1),
            forall|i: int, j: int|
                bx - 1 <= i <= bx + 2 && by - 1 <= j <= by + 2 && !(bx <= i <= bx + 1 && by <= j
                    <= by + 1) ==> !self.live_at(i, j),
            bx <= x <= bx + 1,
            by <= y <= by + 1,
        ensures
            self.next_cell(x, y) == CellState::Alive,
    {
        assert(self.neighbor_count(x, y) == 3);
    }

    /// The grid does not wrap around: a coordinate outside
    /// `[0, width) x [0, height)` never counts as live, so an edge cell's
    /// neighbour count draws nothing from the opposite edge.
    pub proof fn lemma_no_wraparound(self, x: int, y: int)
        requires
            !self.in_bounds(x, y),
        ensures
            !self.live_at(x, y),
            self.one_if_live(x, y) == 0,
    {
    }

    /// Locality: a cell's next state is computed from the cells at distance
    /// at most one from it alone. With `lemma_no_wraparound` this rules out
    /// any influence between opposite edges: two equally sized grids that
    /// agree on a cell's immediate surroundings agree on its next state,
    /// whatever stands anywhere else.
    pub proof fn lemma_next_cell_local(a: Cells, b: Cells, x: int, y: int)
        requires
            a.spec_x() == b.spec_x(),
            a.spec_y() == b.spec_y(),
            a.in_bounds(x, y),
            forall|i: int, j: int|
                x - 1 <= i <= x + 1 && y - 1 <= j <= y + 1 && a.in_bounds(i, j) ==> a.cell_at(i, j)
                    == b.cell_at(i, j),
        ensures
            a.next_cell(x, y) == b.next_cell(x, y),
    {
    }

}

} // verus!
