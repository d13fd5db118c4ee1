//! Game of Life transition rules and neighbour-counting strategies.
//!
//! A transition rule maps a cell's current state and its live-neighbour count
//! to the cell's next state. A neighbour-counting strategy maps a grid and a
//! coordinate to the number of live cells among the eight surrounding
//! positions; the torus strategy wraps at the edges, the terminal strategy
//! treats everything outside the grid as dead.

use crate::grid::{Cell, Grid};
use vstd::arithmetic::div_mod::lemma_fundamental_div_mod_converse;
use vstd::prelude::*;

verus! {

/// The available transition rules, dispatched per cell by
/// [`crate::world::World`].
#[derive(PartialEq, Eq, Structural, Clone, Copy, Debug)]
pub enum Rules {
    /// The standard Game of Life rule: a live cell with two or three live
    /// neighbours stays live, a dead cell with exactly three live neighbours
    /// becomes live, and every other cell is dead.
    Standard,
}

/// The available neighbour-counting strategies.
#[derive(PartialEq, Eq, Structural, Clone, Copy, Debug)]
pub enum Neighbours {
    /// Wrap at the edges: the grid is a torus.
    Torus,
    /// Treat off-grid positions as dead: the world ends at the edges.
    Terminal,
}

/// The standard rule, as seen by specifications.
pub open spec fn spec_standard_rule(cell: Cell, neighbours: int) -> Cell {
    if (cell == Cell::Live && (neighbours == 2 || neighbours == 3)) || (cell == Cell::Dead
        && neighbours == 3) {
        Cell::Live
    } else {
        Cell::Dead
    }
}

/// What a rule returns, as seen by specifications.
pub open spec fn spec_rule(rules: Rules, cell: Cell, neighbours: int) -> Cell {
    match rules {
        Rules::Standard => spec_standard_rule(cell, neighbours),
    }
}

/// The torus-wrapped coordinate `i + d` within a dimension of size `dim`:
/// plain modular arithmetic over `[0, dim)`.
pub open spec fn spec_wrap(dim: int, i: int, d: int) -> int {
    (i + d) % dim
}

/// 1 when the torus-wrapped neighbour of `(x, y)` at offset `(dx, dy)` is
/// live, else 0.
pub open spec fn spec_torus_live(g: &Grid, x: int, y: int, dx: int, dy: int) -> int {
    if g.spec_cell(
        spec_wrap(g.spec_width() as int, x, dx),
        spec_wrap(g.spec_height() as int, y, dy),
    ).spec_is_live() {
        1
    } else {
        0
    }
}

/// The number of live cells among the eight torus-wrapped neighbours of
/// `(x, y)`.
pub open spec fn spec_torus_neighbours(g: &Grid, x: int, y: int) -> int {
    spec_torus_live(g, x, y, -1, -1) + spec_torus_live(g, x, y, 0, -1) + spec_torus_live(
        g,
        x,
        y,
        1,
        -1,
    ) + spec_torus_live(g, x, y, -1, 0) + spec_torus_live(g, x, y, 1, 0) + spec_torus_live(
        g,
        x,
        y,
        -1,
        1,
    ) + spec_torus_live(g, x, y, 0, 1) + spec_torus_live(g, x, y, 1, 1)
}

/// 1 when the neighbour of `(x, y)` at offset `(dx, dy)` lies inside the grid
/// and is live, else 0: off-grid positions count as dead.
pub open spec fn spec_terminal_live(g: &Grid, x: int, y: int, dx: int, dy: int) -> int {
    if 0 <= x + dx < g.spec_width() && 0 <= y + dy < g.spec_height() && g.spec_cell(
        x + dx,
        y + dy,
    ).spec_is_live() {
        1
    } else {
        0
    }
}

/// The number of live cells among the eight neighbours of `(x, y)` in a world
/// that ends at the grid edges.
pub open spec fn spec_terminal_neighbours(g: &Grid, x: int, y: int) -> int {
    spec_terminal_live(g, x, y, -1, -1) + spec_terminal_live(g, x, y, 0, -1) + spec_terminal_live(
        g,
        x,
        y,
        1,
        -1,
    ) + spec_terminal_live(g, x, y, -1, 0) + spec_terminal_live(g, x, y, 1, 0)
        + spec_terminal_live(g, x, y, -1, 1) + spec_terminal_live(g, x, y, 0, 1)
        + spec_terminal_live(g, x, y, 1, 1)
}

/// What a neighbour-counting strategy returns, as seen by specifications.
pub open spec fn spec_neighbours(nb: Neighbours, g: &Grid, x: int, y: int) -> int {
    match nb {
        Neighbours::Torus => spec_torus_neighbours(g, x, y),
        Neighbours::Terminal => spec_terminal_neighbours(g, x, y),
    }
}

/// Implements the standard Game of Life rule.
pub fn standard_rules(cell: &Cell, neighbours: usize) -> (r: Cell)
    ensures
        r == spec_standard_rule(*cell, neighbours as int),
{
    match (*cell, neighbours) {
        (Cell::Live, 3) | (Cell::Live, 2) | (Cell::Dead, 3) => Cell::Live,
        _ => Cell::Dead,
    }
}

impl Rules {
    /// Applies this rule to a cell with the given live-neighbour count.
    pub fn apply(&self, cell: &Cell, neighbours: usize) -> (r: Cell)
        ensures
            r == spec_rule(*self, *cell, neighbours as int),
    {
        match self {
            Rules::Standard => standard_rules(cell, neighbours),
        }
    }
}

/// Calculates the torus-wrapped index `current_index + delta` within a
/// dimension of `dimension_size`: the result is the mathematical
/// `(current_index + delta) mod dimension_size`, so `-1` wraps to
/// `dimension_size - 1` and `dimension_size` wraps to `0`.
pub fn offset_in_dim(dimension_size: usize, current_index: usize, delta: isize) -> (r: usize)
    requires
        1 <= dimension_size,
        current_index < dimension_size,
        -(dimension_size as int) <= delta <= dimension_size as int,
    ensures
        r < dimension_size,
        r as int == spec_wrap(dimension_size as int, current_index as int, delta as int),
{
    let dim = dimension_size;
    if delta < 0 {
        // `delta + 1` avoids the one negation that could overflow.
        let to_subtract: usize = ((-(delta + 1)) as usize) + 1;
        let r = if current_index >= to_subtract {
            current_index - to_subtract
        } else {
            // wrap to the end of the dimension
            dim - (to_subtract - current_index)
        };
        proof {
            let d = dim as int;
            let s = current_index + delta;
            if current_index >= to_subtract {
                lemma_fundamental_div_mod_converse(s, d, 0, s);
            } else {
                lemma_fundamental_div_mod_converse(s, d, -1, s + d);
            }
        }
        r
    } else {
        let to_add = delta as usize;
        let delta_to_end = dim - current_index;
        let r = if delta_to_end > to_add {
            current_index + to_add
        } else {
            // wrap to the beginning of the dimension
            to_add - delta_to_end
        };
        proof {
            let d = dim as int;
            let s = current_index + delta;
            if delta_to_end > to_add {
                lemma_fundamental_div_mod_converse(s, d, 0, s);
            } else {
                lemma_fundamental_div_mod_converse(s, d, 1, s - d);
            }
        }
        r
    }
}

/// Implements neighbour counting for a torus world.
pub fn torus_neighbours(grid: &Grid, x: usize, y: usize) -> (n: usize)
    requires
        grid.wf(),
        x < grid.spec_width(),
        y < grid.spec_height(),
    ensures
        n == spec_torus_neighbours(grid, x as int, y as int),
        n <= 8,
{
    let w = grid.width();
    let h = grid.height();
    let xl = offset_in_dim(w, x, -1);
    let xr = offset_in_dim(w, x, 1);
    let yu = offset_in_dim(h, y, -1);
    let yd = offset_in_dim(h, y, 1);
    let mut count: usize = 0;
    if grid.cell_at(xl, yu).is_live() {
        count += 1;
    }
    if grid.cell_at(x, yu).is_live() {
        count += 1;
    }
    if grid.cell_at(xr, yu).is_live() {
        count += 1;
    }
    if grid.cell_at(xl, y).is_live() {
        count += 1;
    }
    if grid.cell_at(xr, y).is_live() {
        count += 1;
    }
    if grid.cell_at(xl, yd).is_live() {
        count += 1;
    }
    if grid.cell_at(x, yd).is_live() {
        count += 1;
    }
    if grid.cell_at(xr, yd).is_live() {
        count += 1;
    }
    proof {
        lemma_fundamental_div_mod_converse(x as int, w as int, 0, x as int);
        lemma_fundamental_div_mod_converse(y as int, h as int, 0, y as int);
    }
    count
}

/// Implements neighbour counting for a terminal world.
pub fn terminal_neighbours(grid: &Grid, x: usize, y: usize) -> (n: usize)
    requires
        grid.wf(),
        x < grid.spec_width(),
        y < grid.spec_height(),
    ensures
        n == spec_terminal_neighbours(grid, x as int, y as int),
        n <= 8,
{
    let w = grid.width();
    let h = grid.height();
    let mut count: usize = 0;
    if x > 0 && y > 0 && grid.cell_at(x - 1, y - 1).is_live() {
        count += 1;
    }
    if y > 0 && grid.cell_at(x, y - 1).is_live() {
        count += 1;
    }
    if x + 1 < w && y > 0 && grid.cell_at(x + 1, y - 1).is_live() {
        count += 1;
    }
    if x > 0 && grid.cell_at(x - 1, y).is_live() {
        count += 1;
    }
    if x + 1 < w && grid.cell_at(x + 1, y).is_live() {
        count += 1;
    }
    if x > 0 && y + 1 < h && grid.cell_at(x - 1, y + 1).is_live() {
        count += 1;
    }
    if y + 1 < h && grid.cell_at(x, y + 1).is_live() {
        count += 1;
    }
    if x + 1 < w && y + 1 < h && grid.cell_at(x + 1, y + 1).is_live() {
        count += 1;
    }
    count
}

impl Neighbours {
    /// Counts the live neighbours of `(x, y)` under this strategy.
    pub fn count(&self, grid: &Grid, x: usize, y: usize) -> (n: usize)
        requires
            grid.wf(),
            x < grid.spec_width(),
            y < grid.spec_height(),
        ensures
            n == spec_neighbours(*self, grid, x as int, y as int),
            n <= 8,
    {
        match self {
            Neighbours::Torus => torus_neighbours(grid, x, y),
            Neighbours::Terminal => terminal_neighbours(grid, x, y),
        }
    }
}

/// Law: away from every edge the two strategies agree — wrapping can only
/// matter for cells in the first or last row or column.
pub proof fn lemma_terminal_matches_torus_interior(g: &Grid, x: int, y: int)
    requires
        g.wf(),
        1 <= x < g.spec_width() - 1,
        1 <= y < g.spec_height() - 1,
    ensures
        spec_terminal_neighbours(g, x, y) == spec_torus_neighbours(g, x, y),
{
    let w = g.spec_width() as int;
    let h = g.spec_height() as int;
    lemma_fundamental_div_mod_converse(x - 1, w, 0, x - 1);
    lemma_fundamental_div_mod_converse(x, w, 0, x);
    lemma_fundamental_div_mod_converse(x + 1, w, 0, x + 1);
    lemma_fundamental_div_mod_converse(y - 1, h, 0, y - 1);
    lemma_fundamental_div_mod_converse(y, h, 0, y);
    lemma_fundamental_div_mod_converse(y + 1, h, 0, y + 1);
}

} // verus!
