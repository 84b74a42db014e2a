//! The rules of the automaton, stated over `Grid`, a plain value that holds
//! the dimensions of a toroidal grid and the liveness of each of its cells.

use vstd::arithmetic::div_mod::{lemma_fundamental_div_mod, lemma_fundamental_div_mod_converse};
use vstd::prelude::*;

verus! {

/// A grid as a value: `cells[row * width + col]` tells whether the cell at
/// `(row, col)` is alive.
pub ghost struct Grid {
    pub width: nat,
    pub height: nat,
    pub cells: Seq<bool>,
}

/// The rule of Life: a live cell stays alive with two or three live
/// neighbours, a dead cell comes alive with exactly three.
pub open spec fn next_state(alive: bool, live_neighbors: nat) -> bool {
    if alive {
        live_neighbors == 2 || live_neighbors == 3
    } else {
        live_neighbors == 3
    }
}

/// The five cells of the glider, as `(row, col)` pairs.
pub open spec fn glider() -> Seq<(u32, u32)> {
    seq![(0u32, 0u32), (1u32, 1u32), (2u32, 0u32), (2u32, 1u32), (1u32, 2u32)]
}

impl Grid {
    /// Non-zero dimensions whose product fits in a `u32`, and one cell per
    /// position.
    pub open spec fn valid(self) -> bool {
        &&& self.width >= 1
        &&& self.height >= 1
        &&& self.width * self.height <= u32::MAX
        &&& self.cells.len() == self.width * self.height
    }

    pub open spec fn in_bounds(self, row: int, col: int) -> bool {
        0 <= row < self.height && 0 <= col < self.width
    }

    /// The row-major position of `(row, col)` in `cells`.
    pub open spec fn index(self, row: int, col: int) -> int {
        row * self.width + col
    }

    pub open spec fn alive(self, row: int, col: int) -> bool {
        self.cells[self.index(row, col)]
    }

    /// 1 when the cell at offset `(drow, dcol)` from `(row, col)`, taken
    /// around the torus, is alive; the offset `(0, 0)` never counts.
    pub open spec fn neighbor(self, row: int, col: int, drow: int, dcol: int) -> nat {
        if drow == 0 && dcol == 0 {
            0
        } else if self.alive((row + drow) % (self.height as int), (col + dcol) % (self.width as int)) {
            1
        } else {
            0
        }
    }

    /// The live cells among the column offsets `width - 1`, `0` and `1` at row
    /// offset `drow`.
    pub open spec fn neighbors_in_row(self, row: int, col: int, drow: int) -> nat {
        self.neighbor(row, col, drow, self.width - 1) + self.neighbor(row, col, drow, 0)
            + self.neighbor(row, col, drow, 1)
    }

    /// The live neighbours of `(row, col)`: the row offsets `height - 1`, `0`
    /// and `1`, each with the three column offsets, but for `(0, 0)`.
    pub open spec fn neighbor_count(self, row: int, col: int) -> nat {
        self.neighbors_in_row(row, col, self.height - 1) + self.neighbors_in_row(row, col, 0)
            + self.neighbors_in_row(row, col, 1)
    }

    /// The next generation: every cell follows the rule of Life from the
    /// current generation alone.
    pub open spec fn step(self) -> Grid {
        Grid {
            width: self.width,
            height: self.height,
            cells: Seq::new(
                self.cells.len(),
                |i: int|
                    next_state(
                        self.cells[i],
                        self.neighbor_count(i / (self.width as int), i % (self.width as int)),
                    ),
            ),
        }
    }

    /// The cell at `(row, col)` inverted.
    pub open spec fn toggled(self, row: int, col: int) -> Grid {
        Grid {
            width: self.width,
            height: self.height,
            cells: self.cells.update(self.index(row, col), !self.alive(row, col)),
        }
    }

    /// Every cell dead, the dimensions kept.
    pub open spec fn cleared(self) -> Grid {
        Grid { width: self.width, height: self.height, cells: Seq::new(self.cells.len(), |i: int| false) }
    }

    /// A `width` by `height` grid with every cell dead.
    pub open spec fn blank(width: nat, height: nat) -> Grid {
        Grid { width, height, cells: Seq::new(width * height, |i: int| false) }
    }

    /// Whether the cell at `index` is one of `coords`.
    pub open spec fn listed(self, coords: Seq<(u32, u32)>, index: int) -> bool {
        exists|k: int|
            0 <= k < coords.len() && #[trigger] self.index(coords[k].0 as int, coords[k].1 as int)
                == index
    }

    /// The cells at `coords` made alive, the others kept.
    pub open spec fn with_live(self, coords: Seq<(u32, u32)>) -> Grid {
        Grid {
            width: self.width,
            height: self.height,
            cells: Seq::new(self.cells.len(), |i: int| self.cells[i] || self.listed(coords, i)),
        }
    }

    pub open spec fn all_in_bounds(self, coords: Seq<(u32, u32)>) -> bool {
        forall|k: int| 0 <= k < coords.len() ==> self.in_bounds(#[trigger] coords[k].0 as int, coords[k].1 as int)
    }
}

/// An in-bounds `(row, col)` has its index within `cells`, and the index
/// gives back the row and the column.
pub proof fn lemma_index_in_range(g: Grid, row: int, col: int)
    requires
        g.valid(),
        g.in_bounds(row, col),
    ensures
        0 <= g.index(row, col) < g.cells.len(),
        g.index(row, col) / (g.width as int) == row,
        g.index(row, col) % (g.width as int) == col,
{
    let w = g.width as int;
    let h = g.height as int;
    assert(0 <= row * w + col < w * h) by (nonlinear_arith)
        requires
            0 <= row < h,
            0 <= col < w,
    ;
    lemma_fundamental_div_mod_converse(row * w + col, w, row, col);
}

/// Every index of `cells` is the index of an in-bounds `(row, col)`.
pub proof fn lemma_cell_of_index(g: Grid, i: int)
    requires
        g.valid(),
        0 <= i < g.cells.len(),
    ensures
        g.in_bounds(i / (g.width as int), i % (g.width as int)),
        g.index(i / (g.width as int), i % (g.width as int)) == i,
{
    let w = g.width as int;
    let h = g.height as int;
    lemma_fundamental_div_mod(i, w);
    let q = i / w;
    let r = i % w;
    assert(0 <= r < w);
    assert(0 <= q < h) by (nonlinear_arith)
        requires
            i == w * q + r,
            0 <= r < w,
            0 <= i < w * h,
            w >= 1,
    ;
    assert(q * w == w * q) by (nonlinear_arith);
}

/// The three row (or column) offsets, taken around a dimension `n`.
pub proof fn lemma_wrap(x: int, n: int)
    requires
        0 <= x < n,
    ensures
        (x + (n - 1)) % n == if x == 0 { n - 1 } else { x - 1 },
        (x + 0) % n == x,
        (x + 1) % n == if x + 1 == n { 0 } else { x + 1 },
{
    if x == 0 {
        lemma_fundamental_div_mod_converse(x + (n - 1), n, 0, n - 1);
    } else {
        lemma_fundamental_div_mod_converse(x + (n - 1), n, 1, x - 1);
    }
    lemma_fundamental_div_mod_converse(x, n, 0, x);
    if x + 1 == n {
        lemma_fundamental_div_mod_converse(x + 1, n, 1, 0);
    } else {
        lemma_fundamental_div_mod_converse(x + 1, n, 0, x + 1);
    }
}

/// In the next generation, the cell at `(row, col)` follows the rule of Life
/// from its own state and its live neighbours.
pub proof fn lemma_step_at(g: Grid, row: int, col: int)
    requires
        g.valid(),
        g.in_bounds(row, col),
    ensures
        g.step().valid(),
        g.step().alive(row, col) == next_state(g.alive(row, col), g.neighbor_count(row, col)),
{
    lemma_index_in_range(g, row, col);
}

/// Whether a cell with `live_neighbors` live neighbours is alive in the next
/// generation, given whether it is alive now.
pub fn get_state(cell: bool, live_neighbors: u8) -> (r: bool)
    ensures
        r == next_state(cell, live_neighbors as nat),
{
    match (cell, live_neighbors) {
        // A live cell with fewer than two live neighbours dies.
        (true, x) if x < 2 => false,
        // A live cell with two or three live neighbours lives on.
        (true, 2) | (true, 3) => true,
        // A live cell with more than three live neighbours dies.
        (true, x) if x > 3 => false,
        // A dead cell with exactly three live neighbours comes alive.
        (false, 3) => true,
        // Every other cell keeps its state.
        (otherwise, _) => otherwise,
    }
}

} // verus!
