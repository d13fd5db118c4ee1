use gol::grid::Cell::{Dead as X, Live as O};
use gol::grid::{Cell, Grid};
use gol::rules::{offset_in_dim, standard_rules, terminal_neighbours, torus_neighbours};

fn make_square_grid() -> Grid {
    let state = vec![
        O, O, O, //
        O, X, O, //
        O, O, O, //
    ];
    Grid::from_raw(3, 3, state)
}

fn make_pipe_grid() -> Grid {
    let state = vec![
        X, X, X, O, //
        X, X, X, O, //
        X, X, X, O, //
        X, X, X, X, //
    ];
    Grid::from_raw(4, 4, state)
}

fn make_lonely_grid() -> Grid {
    let state = vec![
        X, X, X, //
        X, O, X, //
        X, X, X, //
    ];
    Grid::from_raw(3, 3, state)
}

fn make_oblong_grid() -> Grid {
    let state = vec![
        X, X, O, X, X, //
        X, O, X, O, X, //
        X, X, O, X, X, //
    ];
    Grid::from_raw(5, 3, state)
}

#[test]
fn can_count_torus_neighbours_on_square_grid() {
    let g = make_square_grid();

    let neighbours = torus_neighbours(&g, 1, 1);

    assert_eq!(neighbours, 8);
}

#[test]
fn can_count_torus_neighbours_on_pipe_grid() {
    let g = make_pipe_grid();

    let neighbours = torus_neighbours(&g, 2, 1);
    assert_eq!(neighbours, 3);

    let neighbours = torus_neighbours(&g, 0, 1);
    assert_eq!(neighbours, 3);
}

#[test]
fn can_count_torus_neighbours_on_lonely_grid() {
    let g = make_lonely_grid();

    let neighbours = torus_neighbours(&g, 1, 1);

    assert_eq!(neighbours, 0);
}

#[test]
fn can_count_torus_neighbours_on_oblong_grid() {
    let g = make_oblong_grid();

    let neighbours = torus_neighbours(&g, 2, 1);
    assert_eq!(neighbours, 4);

    let neighbours = torus_neighbours(&g, 4, 2);
    assert_eq!(neighbours, 1);

    let neighbours = torus_neighbours(&g, 0, 0);
    assert_eq!(neighbours, 1);
}

#[test]
fn can_count_terminal_neighbours_on_oblong_grid() {
    let g = make_oblong_grid();

    let neighbours = terminal_neighbours(&g, 0, 0);
    assert_eq!(neighbours, 1);

    let neighbours = terminal_neighbours(&g, 4, 2);
    assert_eq!(neighbours, 1);

    let neighbours = terminal_neighbours(&g, 2, 1);
    assert_eq!(neighbours, 4);
}

#[test]
fn can_calculate_index() {
    //Verify that offset_in_dim correctly wraps the world

    //Middle of dimension
    assert_eq!(offset_in_dim(10, 5, 6), 1);
    assert_eq!(offset_in_dim(10, 5, 4), 9);
    assert_eq!(offset_in_dim(10, 5, 1), 6);
    assert_eq!(offset_in_dim(10, 5, 0), 5);
    assert_eq!(offset_in_dim(10, 5, -1), 4);
    assert_eq!(offset_in_dim(10, 5, -4), 1);
    assert_eq!(offset_in_dim(10, 5, -6), 9);

    //End of dimension
    assert_eq!(offset_in_dim(10, 9, 2), 1);
    assert_eq!(offset_in_dim(10, 9, 1), 0);
    assert_eq!(offset_in_dim(10, 9, 0), 9);
    assert_eq!(offset_in_dim(10, 9, -1), 8);
    assert_eq!(offset_in_dim(10, 9, -2), 7);

    //Start of dimension
    assert_eq!(offset_in_dim(10, 0, 2), 2);
    assert_eq!(offset_in_dim(10, 0, 1), 1);
    assert_eq!(offset_in_dim(10, 0, 0), 0);
    assert_eq!(offset_in_dim(10, 0, -1), 9);
    assert_eq!(offset_in_dim(10, 0, -2), 8);
}

#[test]
fn edge_wrap_sees_full_live_column() {
    // A single live column at x = 3: column 0 sees it as its wrapped left
    // neighbour.
    let g = Grid::from_raw(4, 4, vec![
        X, X, X, O, //
        X, X, X, O, //
        X, X, X, O, //
        X, X, X, O, //
    ]);
    assert_eq!(torus_neighbours(&g, 0, 1), 3);
}

#[test]
fn standard_rules_match_the_classic_table() {
    for n in 0..=8usize {
        let live_next = standard_rules(&Cell::Live, n);
        let dead_next = standard_rules(&Cell::Dead, n);
        if n == 2 || n == 3 {
            assert_eq!(live_next, Cell::Live);
        } else {
            assert_eq!(live_next, Cell::Dead);
        }
        if n == 3 {
            assert_eq!(dead_next, Cell::Live);
        } else {
            assert_eq!(dead_next, Cell::Dead);
        }
    }
}

#[test]
fn strategies_agree_away_from_the_edges() {
    let g = make_oblong_grid();
    for x in 1..4usize {
        assert_eq!(torus_neighbours(&g, x, 1), terminal_neighbours(&g, x, 1));
    }
}
