//! A Game of Life world: a [`Grid`] combined with a transition rule, a
//! neighbour-counting strategy and a generation counter, able to advance
//! itself one generation at a time.

use crate::grid::Grid;
use crate::rules::{self, Neighbours, Rules};
use vstd::prelude::*;

verus! {

/// Hosts a basic Game of Life simulation. Includes functions for modifying
/// the world and stepping the simulation both immutably and in place.
///
/// The mutating step keeps a second buffer (`prev`) of the same dimensions as
/// the live grid and swaps the two after each pass, so no per-step allocation
/// happens after the first call.
#[derive(Clone)]
pub struct World {
    gen: i64,
    rules: Rules,
    neighbours: Neighbours,
    curr: Grid,
    prev: Option<Grid>,
}

impl World {
    /// The generation counter, as seen by specifications.
    pub closed spec fn spec_gen(&self) -> i64 {
        self.gen
    }

    /// The transition rule in force, as seen by specifications.
    pub closed spec fn spec_rules(&self) -> Rules {
        self.rules
    }

    /// The neighbour-counting strategy in force, as seen by specifications.
    pub closed spec fn spec_neighbours(&self) -> Neighbours {
        self.neighbours
    }

    /// The live grid, as seen by specifications.
    pub closed spec fn spec_grid(&self) -> Grid {
        self.curr
    }

    /// The scratch buffer, as seen by specifications.
    pub closed spec fn spec_prev(&self) -> Option<Grid> {
        self.prev
    }

    /// Well-formedness: the live grid is well-formed, and the scratch buffer,
    /// when present, is well-formed with the same dimensions, and the
    /// generation counter has not run backwards past its start.
    pub open spec fn wf(&self) -> bool {
        &&& self.spec_grid().wf()
        &&& self.spec_gen() >= 0
        &&& match self.spec_prev() {
            Some(p) => p.wf() && p.spec_width() == self.spec_grid().spec_width()
                && p.spec_height() == self.spec_grid().spec_height(),
            None => true,
        }
    }

    /// The state that the cell at `(x, y)` takes in the next generation:
    /// the world's rule applied to the cell's current state and the live
    /// count that the world's strategy finds around it.
    pub open spec fn spec_next_cell(&self, x: int, y: int) -> crate::grid::Cell {
        rules::spec_rule(
            self.spec_rules(),
            self.spec_grid().spec_cell(x, y),
            rules::spec_neighbours(self.spec_neighbours(), &self.spec_grid(), x, y),
        )
    }

    /// True when `g` holds exactly the next generation of this world.
    pub open spec fn spec_stepped(&self, g: Grid) -> bool {
        &&& g.wf()
        &&& g.spec_width() == self.spec_grid().spec_width()
        &&& g.spec_height() == self.spec_grid().spec_height()
        &&& forall|x: int, y: int|
            0 <= x < g.spec_width() && 0 <= y < g.spec_height() ==> g.spec_cell(x, y)
                == self.spec_next_cell(x, y)
    }

    /// Constructs a new world around the given grid, at generation 0, with
    /// the standard rule and the torus strategy, and no scratch buffer yet.
    pub fn new(grid: Grid) -> (w: World)
        requires
            grid.wf(),
        ensures
            w.wf(),
            w.spec_gen() == 0,
            w.spec_rules() == Rules::Standard,
            w.spec_neighbours() == Neighbours::Torus,
            w.spec_grid() == grid,
            w.spec_prev() is None,
    {
        World { gen: 0, rules: Rules::Standard, neighbours: Neighbours::Torus, curr: grid, prev: None }
    }

    /// Sets the transition rule. Does not reset the generation or the grid.
    pub fn set_rules(&mut self, rules: Rules)
        ensures
            final(self).spec_rules() == rules,
            final(self).spec_gen() == old(self).spec_gen(),
            final(self).spec_neighbours() == old(self).spec_neighbours(),
            final(self).spec_grid() == old(self).spec_grid(),
            final(self).spec_prev() == old(self).spec_prev(),
    {
        self.rules = rules;
    }

    /// Sets the neighbour-counting strategy. Does not reset the generation or
    /// the grid.
    pub fn set_neighbours(&mut self, neighbours: Neighbours)
        ensures
            final(self).spec_neighbours() == neighbours,
            final(self).spec_gen() == old(self).spec_gen(),
            final(self).spec_rules() == old(self).spec_rules(),
            final(self).spec_grid() == old(self).spec_grid(),
            final(self).spec_prev() == old(self).spec_prev(),
    {
        self.neighbours = neighbours;
    }

    /// The current generation: 0 at construction, exactly one more per step.
    pub fn generation(&self) -> (g: i64)
        ensures
            g == self.spec_gen(),
    {
        self.gen
    }

    /// The width of the live grid.
    pub fn width(&self) -> (w: usize)
        ensures
            w == self.spec_grid().spec_width(),
    {
        self.curr.width()
    }

    /// The height of the live grid.
    pub fn height(&self) -> (h: usize)
        ensures
            h == self.spec_grid().spec_height(),
    {
        self.curr.height()
    }

    /// A borrow of the live grid.
    pub fn grid(&self) -> (g: &Grid)
        ensures
            *g == self.spec_grid(),
    {
        &self.curr
    }

    /// A mutable borrow of the live grid.
    ///
    /// The caller may edit cells freely; to keep the world well-formed the
    /// grid's dimensions must be left unchanged whenever a scratch buffer
    /// already exists.
    pub fn grid_mut(&mut self) -> (g: &mut Grid)
        ensures
            *g == old(self).spec_grid(),
            final(self).spec_grid() == *final(g),
            final(self).spec_gen() == old(self).spec_gen(),
            final(self).spec_rules() == old(self).spec_rules(),
            final(self).spec_neighbours() == old(self).spec_neighbours(),
            final(self).spec_prev() == old(self).spec_prev(),
    {
        &mut self.curr
    }

    /// Executes a single step of this world in place.
    ///
    /// The next generation is computed from the live grid into the scratch
    /// buffer (allocated on the first call, reused ever after) and the two
    /// buffers are swapped, so the scratch buffer comes to hold the previous
    /// generation. The generation counter grows by exactly 1.
    pub fn step_mut(&mut self)
        requires
            old(self).wf(),
            old(self).spec_gen() < i64::MAX,
        ensures
            final(self).wf(),
            final(self).spec_gen() == old(self).spec_gen() + 1,
            final(self).spec_rules() == old(self).spec_rules(),
            final(self).spec_neighbours() == old(self).spec_neighbours(),
            old(self).spec_stepped(final(self).spec_grid()),
            final(self).spec_prev() == Some(old(self).spec_grid()),
    {
        // A well-formed grid's cell count, which shows that width * height
        // fits in `usize`.
        let _size: usize = self.curr.size();
        let mut next: Grid = match self.prev.take() {
            Some(g) => g,
            None => Grid::create_dead(self.curr.width(), self.curr.height()),
        };
        compute_next(&self.curr, self.rules, self.neighbours, &mut next);
        core::mem::swap(&mut self.curr, &mut next);
        self.prev = Some(next);
        self.gen = self.gen + 1;
    }

    /// Executes a single step of this world and returns the new, stepped
    /// world, leaving this one untouched.
    ///
    /// The returned world carries the same rule and strategy, a generation
    /// counter one higher, and no scratch buffer yet.
    pub fn step(&self) -> (w: World)
        requires
            self.wf(),
            self.spec_gen() < i64::MAX,
        ensures
            w.wf(),
            w.spec_gen() == self.spec_gen() + 1,
            w.spec_rules() == self.spec_rules(),
            w.spec_neighbours() == self.spec_neighbours(),
            self.spec_stepped(w.spec_grid()),
            w.spec_prev() is None,
    {
        // A well-formed grid's cell count, which shows that width * height
        // fits in `usize`.
        let _size: usize = self.curr.size();
        let mut next = Grid::create_dead(self.curr.width(), self.curr.height());
        compute_next(&self.curr, self.rules, self.neighbours, &mut next);
        World {
            gen: self.gen + 1,
            rules: self.rules,
            neighbours: self.neighbours,
            curr: next,
            prev: None,
        }
    }
}

/// Writes the next generation of `curr` under the given rule and strategy
/// into `out`, which must already have the same dimensions.
fn compute_next(curr: &Grid, rules: Rules, neighbours: Neighbours, out: &mut Grid)
    requires
        curr.wf(),
        old(out).wf(),
        old(out).spec_width() == curr.spec_width(),
        old(out).spec_height() == curr.spec_height(),
    ensures
        final(out).wf(),
        final(out).spec_width() == curr.spec_width(),
        final(out).spec_height() == curr.spec_height(),
        forall|x: int, y: int|
            0 <= x < curr.spec_width() && 0 <= y < curr.spec_height() ==> final(out).spec_cell(
                x,
                y,
            ) == rules::spec_rule(
                rules,
                curr.spec_cell(x, y),
                rules::spec_neighbours(neighbours, curr, x, y),
            ),
{
    let w = curr.width();
    let h = curr.height();
    let mut y: usize = 0;
    while y < h
        invariant
            curr.wf(),
            out.wf(),
            out.spec_width() == curr.spec_width(),
            out.spec_height() == curr.spec_height(),
            w == curr.spec_width(),
            h == curr.spec_height(),
            y <= h,
            forall|px: int, py: int|
                0 <= px < w && 0 <= py < y ==> out.spec_cell(px, py) == rules::spec_rule(
                    rules,
                    curr.spec_cell(px, py),
                    rules::spec_neighbours(neighbours, curr, px, py),
                ),
        decreases h - y,
    {
        let mut x: usize = 0;
        while x < w
            invariant
                curr.wf(),
                out.wf(),
                out.spec_width() == curr.spec_width(),
                out.spec_height() == curr.spec_height(),
                w == curr.spec_width(),
                h == curr.spec_height(),
                y < h,
                x <= w,
                forall|px: int, py: int|
                    0 <= px < w && 0 <= py < y ==> out.spec_cell(px, py) == rules::spec_rule(
                        rules,
                        curr.spec_cell(px, py),
                        rules::spec_neighbours(neighbours, curr, px, py),
                    ),
                forall|px: int|
                    0 <= px < x ==> out.spec_cell(px, y as int) == rules::spec_rule(
                        rules,
                        curr.spec_cell(px, y as int),
                        rules::spec_neighbours(neighbours, curr, px, y as int),
                    ),
            decreases w - x,
        {
            let cell = curr.cell_at(x, y);
            let n = neighbours.count(curr, x, y);
            let next_cell = rules.apply(&cell, n);
            out.set_cell(x, y, next_cell);
            x += 1;
        }
        y += 1;
    }
}

} // verus!
