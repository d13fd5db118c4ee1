use gol::grid::Cell::{Dead as X, Live as O};
use gol::grid::Cell::{Dead, Live};
use gol::grid::Grid;
use gol::rules::{Neighbours, Rules};
use gol::world::World;

fn make_square_grid() -> Grid {
    Grid::from_raw(3, 3, vec![
        O, O, O, //
        O, X, O, //
        O, O, O, //
    ])
}

fn make_pipe_grid() -> Grid {
    Grid::from_raw(4, 4, vec![
        X, X, X, O, //
        X, X, X, O, //
        X, X, X, O, //
        X, X, X, X, //
    ])
}

fn make_lonely_grid() -> Grid {
    Grid::from_raw(3, 3, vec![
        X, X, X, //
        X, O, X, //
        X, X, X, //
    ])
}

fn make_oblong_grid() -> Grid {
    Grid::from_raw(5, 3, vec![
        X, X, O, X, X, //
        X, O, X, O, X, //
        X, X, O, X, X, //
    ])
}

fn make_glider_grid() -> Grid {
    Grid::from_raw(6, 5, vec![
        X, X, X, X, X, X, //
        X, X, X, O, X, X, //
        X, O, X, O, X, X, //
        X, X, O, O, X, X, //
        X, X, X, X, X, X, //
    ])
}

fn make_square_world() -> World {
    World::new(make_square_grid())
}

fn make_pipe_world() -> World {
    World::new(make_pipe_grid())
}

fn make_lonely_world() -> World {
    World::new(make_lonely_grid())
}

fn make_oblong_world() -> World {
    World::new(make_oblong_grid())
}

fn make_glider_world() -> World {
    World::new(make_glider_grid())
}

#[test]
fn can_create_world_with_grid() {
    let grid = Grid::from_fn(10, 10, |_x: usize, _y: usize| Dead);
    let w = World::new(grid.clone());
    assert_eq!(0, w.generation());
    assert_eq!(&grid, w.grid());
}

#[test]
fn can_step_pipe_world_mutably() {

    let mut w = make_pipe_world();

    w.step_mut();

    let expected = Grid::from_raw(4, 4, vec![
        X, X, X, X, //
        O, X, O, O, //
        X, X, X, X, //
        X, X, X, X, //
    ]);

    assert_eq!(w.grid(), &expected);
}

#[test]
fn can_step_pipe_world_immutably() {

    let w = make_pipe_world();

    let w2 = w.step();

    let expected = Grid::from_raw(4, 4, vec![
        X, X, X, X, //
        O, X, O, O, //
        X, X, X, X, //
        X, X, X, X, //
    ]);

    assert_eq!(w2.grid(), &expected);
}

#[test]
fn can_increment_generation() {
    //initial generation
    let w = make_square_world();
    assert_eq!(w.generation(), 0);

    //immutable step
    let w_two = w.step();
    assert_eq!(w_two.generation(), 1);

    //mutable step
    let mut w_mut = w;
    w_mut.step_mut();
    assert_eq!(w_mut.generation(), 1);
}

#[test]
fn can_step_glider_world() {

    //Step the glider twice, and assert we got the correct output
    let mut w = make_glider_world();

    w.step_mut();
    w.step_mut();

    let expected = Grid::from_raw(6, 5, vec![
        X, X, X, X, X, X, //
        X, X, X, O, X, X, //
        X, X, X, X, O, X, //
        X, X, O, O, O, X, //
        X, X, X, X, X, X, //
    ]);

    assert_eq!(w.grid(), &expected);
}

#[test]
fn can_step_lonely_world() {

    //Step the lonely world twice, and assert that every
    //cell died and that none came back to life
    let mut w = make_lonely_world();

    w.step_mut();
    w.step_mut();

    let expected = Grid::from_raw(3, 3, vec![
        X, X, X, //
        X, X, X, //
        X, X, X, //
    ]);

    assert_eq!(w.grid(), &expected);
}

#[test]
fn can_iterate_rows_in_oblong_world_correctly() {

    let w = make_oblong_world();

    let mut iter = w.grid().iter_rows();

    assert_eq!(iter.next().unwrap(), &[X, X, O, X, X]);
    assert_eq!(iter.next().unwrap(), &[X, O, X, O, X]);
    assert_eq!(iter.next().unwrap(), &[X, X, O, X, X]);
    assert!(iter.next().is_none());
}

#[test]
fn can_get_and_set_cell_in_grid() {
    let mut grid = Grid::create_dead(10, 10);

    assert_eq!(Dead, grid.cell_at(2, 2));

    grid.set_cell(2, 2, Live);

    assert_eq!(Live, grid.cell_at(2, 2));
}

#[test]
fn can_set_region_in_world() {

    let new_data = Grid::from_raw(3, 3, vec![
        O, O, O, //
        O, X, O, //
        O, O, O, //
    ]);

    //write from top left
    let mut w = make_lonely_world();
    w.grid_mut().write_cells(0, 0, &new_data);

    //NOTE: Overwrites entire world
    assert_eq!(w.grid(), &new_data);

    //write from bottom right
    let mut w = make_lonely_world();
    w.grid_mut().write_cells(2, 2, &new_data);

    //NOTE: Overwrites bottom corner
    let expected = Grid::from_raw(3, 3, vec![
        X, X, X, //
        X, O, X, //
        X, X, O, //
    ]);
    assert_eq!(w.grid(), &expected);
}

#[test]
fn block_pattern_is_stable() {

    // A 2x2 block embedded in dead space survives a step unchanged: each
    // live cell has exactly three live neighbours and every dead cell has at
    // most two.
    let block = Grid::from_raw(4, 4, vec![
        X, X, X, X, //
        X, O, O, X, //
        X, O, O, X, //
        X, X, X, X, //
    ]);
    let mut w = World::new(block.clone());
    w.step_mut();
    assert_eq!(w.grid(), &block);
    let w2 = w.step();
    assert_eq!(w2.grid(), &block);
}

#[test]
fn stepping_keeps_dimensions_and_counts_generations() {
    let mut w = make_glider_world();
    let (width, height) = (w.width(), w.height());
    for expected_gen in 1..=6i64 {
        w.step_mut();
        assert_eq!(w.generation(), expected_gen);
        assert_eq!(w.width(), width);
        assert_eq!(w.height(), height);
    }
}

#[test]
fn terminal_world_lets_the_edges_die() {

    // A full live column on the edge: under the torus it feeds itself through
    // the wrap, but in a terminal world the corner cells keep only one
    // neighbour each and die.
    let grid = Grid::from_raw(3, 3, vec![
        O, X, X, //
        O, X, X, //
        O, X, X, //
    ]);
    let mut torus = World::new(grid.clone());
    torus.step_mut();
    let mut terminal = World::new(grid);
    terminal.set_neighbours(Neighbours::Terminal);
    terminal.step_mut();

    let expected_terminal = Grid::from_raw(3, 3, vec![
        X, X, X, //
        O, O, X, //
        X, X, X, //
    ]);
    assert_eq!(terminal.grid(), &expected_terminal);
    assert_ne!(torus.grid(), &expected_terminal);
}

#[test]
fn setters_keep_generation_and_grid() {

    let mut w = make_oblong_world();
    w.step_mut();
    let before = w.grid().clone();
    w.set_rules(Rules::Standard);
    w.set_neighbours(Neighbours::Terminal);
    assert_eq!(w.generation(), 1);
    assert_eq!(w.grid(), &before);
}
