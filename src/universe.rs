//! The universe: a toroidal grid whose cells are packed one bit each in a
//! `FixedBitSet`, row-major.

use crate::bitset::{
    bits_of, bitset_as_slice, bitset_clear, bitset_clone, bitset_contains, bitset_len,
    bitset_set, bitset_toggle, bitset_with_capacity,
};
use crate::life::{get_state, glider, lemma_index_in_range, Grid};
use fixedbitset::FixedBitSet;
use vstd::prelude::*;

verus! {

/// Why an operation on a universe was refused.
#[derive(Debug, Clone, Copy, PartialEq, Eq, Structural)]
pub enum UniverseError {
    /// A coordinate lies outside the grid.
    IndexOutOfRange,
    /// A dimension is zero, or the grid would have more than `u32::MAX` cells.
    InvalidDimensions,
}

/// The side of a fresh universe.
pub const DEFAULT_SIDE: u32 = 64;

pub struct Universe {
    width: u32,
    height: u32,
    cells: FixedBitSet,
}

impl View for Universe {
    type V = Grid;

    closed spec fn view(&self) -> Grid {
        Grid { width: self.width as nat, height: self.height as nat, cells: bits_of(self.cells) }
    }
}

/// The number of cells of a `width` by `height` grid.
fn area(width: u32, height: u32) -> (r: u64)
    ensures
        r == width * height,
{
    proof {
        assert(width * height <= u32::MAX * u32::MAX) by (nonlinear_arith)
            requires
                width <= u32::MAX,
                height <= u32::MAX,
        ;
    }
    width as u64 * height as u64
}

impl Universe {
    /// The universe is well formed: its grid is valid.
    pub open spec fn wf(&self) -> bool {
        self@.valid()
    }

    fn get_index(&self, row: u32, col: u32) -> (r: usize)
        requires
            self.wf(),
            self@.in_bounds(row as int, col as int),
        ensures
            r == self@.index(row as int, col as int),
            r < self@.cells.len(),
    {
        proof {
            lemma_index_in_range(self@, row as int, col as int);
        }
        (row * self.width + col) as usize
    }

    /// The liveness of the cell at offset `(drow, dcol)` from `(row, col)`,
    /// around the torus, as 0 or 1; the offset `(0, 0)` gives 0.
    fn neighbor(&self, row: u32, col: u32, drow: u32, dcol: u32) -> (r: u8)
        requires
            self.wf(),
            self@.in_bounds(row as int, col as int),
        ensures
            r == self@.neighbor(row as int, col as int, drow as int, dcol as int),
    {
        if drow == 0 && dcol == 0 {
            return 0;
        }
        let neighbor_row = ((row as u64 + drow as u64) % self.height as u64) as u32;
        let neighbor_col = ((col as u64 + dcol as u64) % self.width as u64) as u32;
        let idx = self.get_index(neighbor_row, neighbor_col);
        if bitset_contains(&self.cells, idx) {
            1
        } else {
            0
        }
    }

    /// The live cells among the three column offsets at row offset `drow`.
    fn neighbors_in_row(&self, row: u32, col: u32, drow: u32) -> (r: u8)
        requires
            self.wf(),
            self@.in_bounds(row as int, col as int),
        ensures
            r == self@.neighbors_in_row(row as int, col as int, drow as int),
    {
        let left = self.width - 1;
        self.neighbor(row, col, drow, left) + self.neighbor(row, col, drow, 0) + self.neighbor(
            row,
            col,
            drow,
            1,
        )
    }

    /// The live cells among the eight cells around `(row, col)`, around the
    /// torus: row offsets `height - 1`, `0`, `1` by column offsets `width - 1`,
    /// `0`, `1`, but for `(0, 0)`.
    pub fn live_neighbor_count(&self, row: u32, col: u32) -> (r: u8)
        requires
            self.wf(),
            self@.in_bounds(row as int, col as int),
        ensures
            r == self@.neighbor_count(row as int, col as int),
            r <= 8,
    {
        let up = self.height - 1;
        self.neighbors_in_row(row, col, up) + self.neighbors_in_row(row, col, 0)
            + self.neighbors_in_row(row, col, 1)
    }

    /// Advances the grid by one generation: every cell's next state is taken
    /// from the current generation alone, then the new generation replaces it.
    pub fn tick(&mut self)
        requires
            old(self).wf(),
        ensures
            final(self).wf(),
            final(self)@ == old(self)@.step(),
    {
        let ghost g = self@;
        let mut next = bitset_clone(&self.cells);
        let mut row: u32 = 0;
        while row < self.height
            invariant
                self@ == g,
                g.valid(),
                row <= g.height,
                bits_of(next).len() == g.cells.len(),
                forall|i: int|
                    0 <= i < row * g.width ==> #[trigger] bits_of(next)[i] == g.step().cells[i],
            decreases g.height - row,
        {
            let mut col: u32 = 0;
            while col < self.width
                invariant
                    self@ == g,
                    g.valid(),
                    row < g.height,
                    col <= g.width,
                    bits_of(next).len() == g.cells.len(),
                    forall|i: int|
                        0 <= i < row * g.width + col ==> #[trigger] bits_of(next)[i]
                            == g.step().cells[i],
                decreases g.width - col,
            {
                let idx = self.get_index(row, col);
                proof {
                    lemma_index_in_range(g, row as int, col as int);
                }
                let cell = bitset_contains(&self.cells, idx);
                let live_neighbors = self.live_neighbor_count(row, col);
                let next_cell = get_state(cell, live_neighbors);
                bitset_set(&mut next, idx, next_cell);
                col += 1;
            }
            assert((row + 1) * g.width == row * g.width + g.width) by (nonlinear_arith);
            row += 1;
        }
        proof {
            assert(row == g.height);
            assert(row * g.width == g.width * g.height) by (nonlinear_arith)
                requires
                    row == g.height,
            ;
            assert(bits_of(next) =~= g.step().cells);
        }
        self.cells = next;
    }

    /// A 64 by 64 universe with every cell dead.
    pub fn new() -> (r: Universe)
        ensures
            r.wf(),
            r@ == Grid::blank(64, 64),
    {
        let width = DEFAULT_SIDE;
        let height = DEFAULT_SIDE;
        let size = (width * height) as usize;
        let cells = bitset_with_capacity(size);
        Universe { width, height, cells }
    }

    /// Replaces the cells with `width * height` dead ones.
    fn reset(&mut self)
        requires
            old(self).width >= 1,
            old(self).height >= 1,
            old(self).width * old(self).height <= u32::MAX,
        ensures
            final(self).wf(),
            final(self)@ == Grid::blank(old(self).width as nat, old(self).height as nat),
            final(self).width == old(self).width,
            final(self).height == old(self).height,
    {
        self.cells = bitset_with_capacity((self.width * self.height) as usize);
    }

    /// The packed cell states; bit `row * width + col` is the cell at
    /// `(row, col)`.
    pub fn get_cells(&self) -> (r: &FixedBitSet)
        requires
            self.wf(),
        ensures
            bits_of(*r) == self@.cells,
    {
        &self.cells
    }

    /// Makes alive every cell listed in `cells`, as `(row, col)` pairs, and
    /// leaves the others as they are. When a pair lies outside the grid
    /// nothing changes and `IndexOutOfRange` is returned.
    pub fn set_cells(&mut self, cells: &[(u32, u32)]) -> (r: Result<(), UniverseError>)
        requires
            old(self).wf(),
        ensures
            final(self).wf(),
            r is Ok <==> old(self)@.all_in_bounds(cells@),
            r is Ok ==> final(self)@ == old(self)@.with_live(cells@),
            r is Err ==> r == Err::<(), UniverseError>(UniverseError::IndexOutOfRange)
                && final(self)@ == old(self)@,
    {
        let ghost g = self@;
        let n = cells.len();
        let mut i: usize = 0;
        while i < n
            invariant
                self@ == g,
                self.wf(),
                n == cells@.len(),
                i <= n,
                forall|k: int| 0 <= k < i ==> g.in_bounds(#[trigger] cells@[k].0 as int, cells@[k].1 as int),
            decreases n - i,
        {
            let (row, col) = cells[i];
            if row >= self.height || col >= self.width {
                return Err(UniverseError::IndexOutOfRange);
            }
            i += 1;
        }
        proof {
            assert(g.with_live(cells@.subrange(0, 0)).cells =~= g.cells);
        }
        let mut i: usize = 0;
        while i < n
            invariant
                self.wf(),
                self.width == g.width,
                self.height == g.height,
                n == cells@.len(),
                i <= n,
                g.valid(),
                g.all_in_bounds(cells@),
                self@ == g.with_live(cells@.subrange(0, i as int)),
            decreases n - i,
        {
            let (row, col) = cells[i];
            let idx = self.get_index(row, col);
            let ghost before = self@;
            bitset_set(&mut self.cells, idx, true);
            proof {
                let done = cells@.subrange(0, i as int);
                let more = cells@.subrange(0, i + 1);
                assert(more[i as int] == (row, col));
                assert forall|j: int| 0 <= j < g.cells.len() implies g.listed(more, j) == (g.listed(done, j) || j == idx) by {
                    if j == idx {
                        assert(g.index(more[i as int].0 as int, more[i as int].1 as int) == j);
                    }
                    if g.listed(done, j) {
                        let k = choose|k: int| 0 <= k < done.len() && #[trigger] g.index(done[k].0 as int, done[k].1 as int) == j;
                        assert(more[k] == done[k]);
                    }
                    if g.listed(more, j) && j != idx {
                        let k = choose|k: int| 0 <= k < more.len() && #[trigger] g.index(more[k].0 as int, more[k].1 as int) == j;
                        assert(k < i);
                        assert(more[k] == done[k]);
                        assert(g.index(done[k].0 as int, done[k].1 as int) == j);
                    }
                }
                assert(self@.cells =~= g.with_live(more).cells);
            }
            i += 1;
        }
        proof {
            assert(cells@.subrange(0, n as int) =~= cells@);
        }
        Ok(())
    }

    /// Sets the width and kills every cell. A zero width, or a grid of more
    /// than `u32::MAX` cells, is refused with `InvalidDimensions`, and then
    /// nothing changes.
    pub fn set_width(&mut self, width: u32) -> (r: Result<(), UniverseError>)
        requires
            old(self).wf(),
        ensures
            final(self).wf(),
            r is Ok <==> width >= 1 && width * old(self)@.height <= u32::MAX,
            r is Ok ==> final(self)@ == Grid::blank(width as nat, old(self)@.height),
            r is Err ==> r == Err::<(), UniverseError>(UniverseError::InvalidDimensions)
                && final(self)@ == old(self)@,
    {
        if width == 0 || area(width, self.height) > u32::MAX as u64 {
            return Err(UniverseError::InvalidDimensions);
        }
        self.width = width;
        self.reset();
        Ok(())
    }

    /// Sets the height and kills every cell. A zero height, or a grid of more
    /// than `u32::MAX` cells, is refused with `InvalidDimensions`, and then
    /// nothing changes.
    pub fn set_height(&mut self, height: u32) -> (r: Result<(), UniverseError>)
        requires
            old(self).wf(),
        ensures
            final(self).wf(),
            r is Ok <==> height >= 1 && old(self)@.width * height <= u32::MAX,
            r is Ok ==> final(self)@ == Grid::blank(old(self)@.width, height as nat),
            r is Err ==> r == Err::<(), UniverseError>(UniverseError::InvalidDimensions)
                && final(self)@ == old(self)@,
    {
        if height == 0 || area(self.width, height) > u32::MAX as u64 {
            return Err(UniverseError::InvalidDimensions);
        }
        self.height = height;
        self.reset();
        Ok(())
    }

    /// Gives each cell, in row-major order, the state that the caller drew
    /// for it: `alive[row * width + col]`.
    pub fn fill_random(&mut self, alive: &[bool])
        requires
            old(self).wf(),
            alive@.len() == old(self)@.cells.len(),
        ensures
            final(self).wf(),
            final(self)@ == (Grid { cells: alive@, ..old(self)@ }),
    {
        let ghost g = self@;
        let n = bitset_len(&self.cells);
        let mut i: usize = 0;
        while i < n
            invariant
                self.width == g.width,
                self.height == g.height,
                g.valid(),
                n == g.cells.len(),
                alive@.len() == n,
                i <= n,
                bits_of(self.cells).len() == n,
                forall|j: int| 0 <= j < i ==> #[trigger] bits_of(self.cells)[j] == alive@[j],
            decreases n - i,
        {
            bitset_set(&mut self.cells, i, alive[i]);
            i += 1;
        }
        proof {
            assert(bits_of(self.cells) =~= alive@);
        }
    }

    /// Makes alive the five cells of a glider at the top left corner,
    /// `(0, 0)`, `(1, 1)`, `(2, 0)`, `(2, 1)` and `(1, 2)`, and leaves the
    /// others as they are. A grid narrower or shorter than three cells is
    /// refused with `IndexOutOfRange`, and then nothing changes.
    pub fn create_glider(&mut self) -> (r: Result<(), UniverseError>)
        requires
            old(self).wf(),
        ensures
            final(self).wf(),
            r is Ok <==> old(self)@.width >= 3 && old(self)@.height >= 3,
            r is Ok ==> final(self)@ == old(self)@.with_live(glider()),
            r is Err ==> r == Err::<(), UniverseError>(UniverseError::IndexOutOfRange)
                && final(self)@ == old(self)@,
    {
        let glider_cells: Vec<(u32, u32)> = vec![(0, 0), (1, 1), (2, 0), (2, 1), (1, 2)];
        proof {
            assert(glider_cells@ =~= glider());
            let g = self@;
            if g.all_in_bounds(glider()) {
                assert(g.in_bounds(glider()[2].0 as int, glider()[2].1 as int));
                assert(g.in_bounds(glider()[4].0 as int, glider()[4].1 as int));
            }
        }
        self.set_cells(glider_cells.as_slice())
    }

    /// Inverts the cell at `(row, col)`. Outside the grid nothing changes
    /// and `IndexOutOfRange` is returned.
    pub fn toggle_cell(&mut self, row: u32, col: u32) -> (r: Result<(), UniverseError>)
        requires
            old(self).wf(),
        ensures
            final(self).wf(),
            r is Ok <==> old(self)@.in_bounds(row as int, col as int),
            r is Ok ==> final(self)@ == old(self)@.toggled(row as int, col as int),
            r is Err ==> r == Err::<(), UniverseError>(UniverseError::IndexOutOfRange)
                && final(self)@ == old(self)@,
    {
        if row >= self.height || col >= self.width {
            return Err(UniverseError::IndexOutOfRange);
        }
        let idx = self.get_index(row, col);
        bitset_toggle(&mut self.cells, idx);
        Ok(())
    }

    pub fn width(&self) -> (r: u32)
        ensures
            r == self@.width,
    {
        self.width
    }

    pub fn height(&self) -> (r: u32)
        ensures
            r == self@.height,
    {
        self.height
    }

    /// The packed cell states as `u32` blocks: the cell at row-major index
    /// `i` is bit `i % 32` of block `i / 32`.
    pub fn cells(&self) -> (r: &[u32])
        requires
            self.wf(),
        ensures
            r@.len() == (self@.cells.len() + 31) / 32,
            forall|i: int|
                0 <= i < self@.cells.len() ==> #[trigger] self@.cells[i] == ((r@[i / 32] >> ((i
                    % 32) as u32)) & 1u32 == 1u32),
    {
        bitset_as_slice(&self.cells)
    }

    /// Kills every cell; the dimensions stay.
    pub fn clear(&mut self)
        requires
            old(self).wf(),
        ensures
            final(self).wf(),
            final(self)@ == old(self)@.cleared(),
    {
        bitset_clear(&mut self.cells);
    }
}

} // verus!
