//! What holds of the grid operations and of the rule of Life over every grid.

use crate::life::{glider, lemma_cell_of_index, lemma_step_at, lemma_wrap, Grid};
use vstd::prelude::*;

verus! {

/// Toggling the same in-bounds cell twice gives back the grid one started
/// with.
pub proof fn lemma_toggle_twice(g: Grid, row: int, col: int)
    requires
        g.valid(),
        g.in_bounds(row, col),
    ensures
        g.toggled(row, col).toggled(row, col) == g,
{
    crate::life::lemma_index_in_range(g, row, col);
    assert(g.toggled(row, col).toggled(row, col).cells =~= g.cells);
}

/// After a clear the buffer still holds `width * height` cells, and every
/// one of them is dead.
pub proof fn lemma_cleared_all_dead(g: Grid)
    requires
        g.valid(),
    ensures
        g.cleared().valid(),
        g.cleared().cells.len() == g.width * g.height,
        forall|i: int| 0 <= i < g.cleared().cells.len() ==> !#[trigger] g.cleared().cells[i],
{
}

/// A grid that was just resized to `width` by `height` holds `width * height`
/// cells, every one of them dead.
pub proof fn lemma_resized_all_dead(width: nat, height: nat)
    ensures
        Grid::blank(width, height).cells.len() == width * height,
        forall|i: int|
            0 <= i < width * height ==> !#[trigger] Grid::blank(width, height).cells[i],
{
}

/// Whether `(row, col)` is one of the eight cells around `(0, 0)` on a grid
/// of at least three by three, edges wrapping.
pub open spec fn touches_origin(g: Grid, row: int, col: int) -> bool {
    &&& (row == 0 || row == 1 || row == g.height - 1)
    &&& (col == 0 || col == 1 || col == g.width - 1)
    &&& !(row == 0 && col == 0)
}

/// With `(0, 0)` the one live cell of a grid of at least three by three,
/// a cell has one live neighbour when it lies next to `(0, 0)`, edges
/// wrapping, and none elsewhere.
pub proof fn lemma_origin_neighbors(g: Grid, row: int, col: int)
    requires
        g.valid(),
        g.width >= 3,
        g.height >= 3,
        g.in_bounds(row, col),
        forall|r: int, c: int| g.in_bounds(r, c) ==> #[trigger] g.alive(r, c) == (r == 0 && c == 0),
    ensures
        g.neighbor_count(row, col) == if touches_origin(g, row, col) { 1nat } else { 0nat },
{
    lemma_wrap(row, g.height as int);
    lemma_wrap(col, g.width as int);
}

/// A cell that is the only live one of its grid is dead in the next
/// generation.
pub proof fn lemma_lone_cell_dies(g: Grid, row: int, col: int)
    requires
        g.valid(),
        g.in_bounds(row, col),
        forall|r: int, c: int| g.in_bounds(r, c) ==> #[trigger] g.alive(r, c) == (r == row && c == col),
    ensures
        !g.step().alive(row, col),
{
    lemma_wrap(row, g.height as int);
    lemma_wrap(col, g.width as int);
    lemma_step_at(g, row, col);
}

/// Whether `(r, c)` is one of the four cells of the two by two block whose
/// top left cell is `(row, col)`, edges wrapping.
pub open spec fn in_block(g: Grid, row: int, col: int, r: int, c: int) -> bool {
    &&& (r == row || r == (row + 1) % (g.height as int))
    &&& (c == col || c == (col + 1) % (g.width as int))
}

/// A two by two block of live cells, with every other cell dead, is left
/// as it is by a generation: each of its cells has three live neighbours,
/// and no dead cell has three.
pub proof fn lemma_block_stable(g: Grid, row: int, col: int)
    requires
        g.valid(),
        g.width >= 3,
        g.height >= 3,
        g.in_bounds(row, col),
        forall|r: int, c: int| g.in_bounds(r, c) ==> #[trigger] g.alive(r, c) == in_block(g, row, col, r, c),
    ensures
        g.step() == g,
{
    let w = g.width as int;
    let h = g.height as int;
    lemma_wrap(row, h);
    lemma_wrap(col, w);
    assert forall|i: int| 0 <= i < g.cells.len() implies g.step().cells[i] == g.cells[i] by {
        let r = i / w;
        let c = i % w;
        lemma_cell_of_index(g, i);
        lemma_wrap(r, h);
        lemma_wrap(c, w);
        lemma_step_at(g, r, c);
    }
    assert(g.step().cells =~= g.cells);
}

/// `coords` moved down and right by one cell, edges wrapping.
pub open spec fn shifted(coords: Seq<(u32, u32)>, width: nat, height: nat) -> Seq<(u32, u32)> {
    coords.map_values(
        |p: (u32, u32)| (((p.0 + 1) % (height as int)) as u32, ((p.1 + 1) % (width as int)) as u32),
    )
}

/// The live cells of the glider after `k` generations, for `k` up to four.
spec fn glider_phase(k: int, r: int, c: int) -> bool {
    if k == 0 {
        (r == 0 && c == 0) || (r == 1 && c == 1) || (r == 1 && c == 2) || (r == 2 && c == 0) || (r
            == 2 && c == 1)
    } else if k == 1 {
        (r == 0 && c == 1) || (r == 1 && c == 2) || (r == 2 && c == 0) || (r == 2 && c == 1) || (r
            == 2 && c == 2)
    } else if k == 2 {
        (r == 1 && c == 0) || (r == 1 && c == 2) || (r == 2 && c == 1) || (r == 2 && c == 2) || (r
            == 3 && c == 1)
    } else if k == 3 {
        (r == 1 && c == 2) || (r == 2 && c == 0) || (r == 2 && c == 2) || (r == 3 && c == 1) || (r
            == 3 && c == 2)
    } else {
        (r == 1 && c == 1) || (r == 2 && c == 2) || (r == 2 && c == 3) || (r == 3 && c == 1) || (r
            == 3 && c == 2)
    }
}

/// Two grids of the same valid shape that agree on every cell are equal.
proof fn lemma_same_cells(a: Grid, b: Grid)
    requires
        a.valid(),
        b.valid(),
        a.width == b.width,
        a.height == b.height,
        forall|r: int, c: int| a.in_bounds(r, c) ==> #[trigger] a.alive(r, c) == b.alive(r, c),
    ensures
        a == b,
{
    assert forall|i: int| 0 <= i < a.cells.len() implies a.cells[i] == b.cells[i] by {
        lemma_cell_of_index(a, i);
        assert(a.alive(i / (a.width as int), i % (a.width as int)) == b.alive(
            i / (a.width as int),
            i % (a.width as int),
        ));
    }
    assert(a.cells =~= b.cells);
}

/// On a grid of dead cells, the cells made alive from a list of in-bounds
/// coordinates are exactly the listed ones.
proof fn lemma_live_listed(g: Grid, coords: Seq<(u32, u32)>, r: int, c: int)
    requires
        g.valid(),
        g.all_in_bounds(coords),
        g.in_bounds(r, c),
        forall|i: int| 0 <= i < g.cells.len() ==> !#[trigger] g.cells[i],
    ensures
        g.with_live(coords).valid(),
        g.with_live(coords).alive(r, c) <==> exists|k: int|
            0 <= k < coords.len() && #[trigger] coords[k] == (r as u32, c as u32),
{
    crate::life::lemma_index_in_range(g, r, c);
    let i = g.index(r, c);
    if g.listed(coords, i) {
        let k = choose|k: int|
            0 <= k < coords.len() && #[trigger] g.index(coords[k].0 as int, coords[k].1 as int) == i;
        assert(g.in_bounds(coords[k].0 as int, coords[k].1 as int));
        crate::life::lemma_index_in_range(g, coords[k].0 as int, coords[k].1 as int);
        assert(coords[k] == (r as u32, c as u32));
    }
    if exists|k: int| 0 <= k < coords.len() && #[trigger] coords[k] == (r as u32, c as u32) {
        let k = choose|k: int| 0 <= k < coords.len() && #[trigger] coords[k] == (r as u32, c as u32);
        assert(g.index(coords[k].0 as int, coords[k].1 as int) == i);
    }
}

/// One generation takes phase `k` of the glider to phase `k + 1`.
proof fn lemma_glider_phase_step(g: Grid, k: int)
    requires
        g.valid(),
        g.width >= 5,
        g.height >= 5,
        0 <= k < 4,
        forall|r: int, c: int| g.in_bounds(r, c) ==> #[trigger] g.alive(r, c) == glider_phase(k, r, c),
    ensures
        g.step().valid(),
        forall|r: int, c: int|
            g.in_bounds(r, c) ==> #[trigger] g.step().alive(r, c) == glider_phase(k + 1, r, c),
{
    assert forall|r: int, c: int| g.in_bounds(r, c) implies #[trigger] g.step().alive(r, c)
        == glider_phase(k + 1, r, c) by {
        lemma_wrap(r, g.height as int);
        lemma_wrap(c, g.width as int);
        lemma_step_at(g, r, c);
    }
    lemma_step_at(g, 0, 0);
}

/// On a grid of at least five by five with every cell dead, a glider at the
/// top left corner is, four generations later, the same glider moved down
/// and right by one cell.
pub proof fn lemma_glider_moves(g: Grid)
    requires
        g.valid(),
        g.width >= 5,
        g.height >= 5,
    ensures
        g.cleared().with_live(glider()).step().step().step().step() == g.cleared().with_live(
            shifted(glider(), g.width, g.height),
        ),
{
    let blank = g.cleared();
    let moved = shifted(glider(), g.width, g.height);
    let g0 = blank.with_live(glider());
    let target = blank.with_live(moved);
    let w = g.width as int;
    let h = g.height as int;
    assert forall|k: int| 0 <= k < 5 implies #[trigger] moved[k] == (
    (glider()[k].0 + 1) as u32, (glider()[k].1 + 1) as u32) by {
        lemma_wrap(glider()[k].0 as int, h);
        lemma_wrap(glider()[k].1 as int, w);
    }
    assert(h <= u32::MAX && w <= u32::MAX) by (nonlinear_arith)
        requires
            w >= 1,
            h >= 1,
            w * h <= u32::MAX,
    ;
    assert(glider()[0] == (0u32, 0u32));
    assert(glider()[1] == (1u32, 1u32));
    assert(glider()[2] == (2u32, 0u32));
    assert(glider()[3] == (2u32, 1u32));
    assert(glider()[4] == (1u32, 2u32));
    assert(blank.all_in_bounds(glider()));
    assert(blank.all_in_bounds(moved));
    assert forall|r: int, c: int| g0.in_bounds(r, c) implies #[trigger] g0.alive(r, c)
        == glider_phase(0, r, c) by {
        lemma_live_listed(blank, glider(), r, c);
        if exists|k: int| 0 <= k < glider().len() && #[trigger] glider()[k] == (r as u32, c as u32) {
            let k = choose|k: int| 0 <= k < glider().len() && #[trigger] glider()[k] == (r as u32, c as u32);
            assert(k == 0 || k == 1 || k == 2 || k == 3 || k == 4);
        }
        if glider_phase(0, r, c) {
            if r == 0 && c == 0 { assert(glider()[0] == (r as u32, c as u32)); }
            if r == 1 && c == 1 { assert(glider()[1] == (r as u32, c as u32)); }
            if r == 2 && c == 0 { assert(glider()[2] == (r as u32, c as u32)); }
            if r == 2 && c == 1 { assert(glider()[3] == (r as u32, c as u32)); }
            if r == 1 && c == 2 { assert(glider()[4] == (r as u32, c as u32)); }
        }
    }
    assert forall|r: int, c: int| target.in_bounds(r, c) implies #[trigger] target.alive(r, c)
        == glider_phase(4, r, c) by {
        lemma_live_listed(blank, moved, r, c);
        if exists|k: int| 0 <= k < moved.len() && #[trigger] moved[k] == (r as u32, c as u32) {
            let k = choose|k: int| 0 <= k < moved.len() && #[trigger] moved[k] == (r as u32, c as u32);
            assert(k == 0 || k == 1 || k == 2 || k == 3 || k == 4);
        }
        if glider_phase(4, r, c) {
            if r == 1 && c == 1 { assert(moved[0] == (r as u32, c as u32)); }
            if r == 2 && c == 2 { assert(moved[1] == (r as u32, c as u32)); }
            if r == 3 && c == 1 { assert(moved[2] == (r as u32, c as u32)); }
            if r == 3 && c == 2 { assert(moved[3] == (r as u32, c as u32)); }
            if r == 2 && c == 3 { assert(moved[4] == (r as u32, c as u32)); }
        }
    }
    lemma_glider_phase_step(g0, 0);
    lemma_glider_phase_step(g0.step(), 1);
    lemma_glider_phase_step(g0.step().step(), 2);
    lemma_glider_phase_step(g0.step().step().step(), 3);
    lemma_same_cells(g0.step().step().step().step(), target);
}

} // verus!
