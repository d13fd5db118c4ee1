use gol::grid::Cell::{Dead as X, Live as O};
use gol::grid::Cell::{Dead, Live};
use gol::grid::{Cell, Grid, GridParseError};

fn make_oblong_grid() -> Grid {
    let state = vec![
        X, X, O, X, X, //
        X, O, X, O, X, //
        X, X, O, X, X, //
    ];
    Grid::from_raw(5, 3, state)
}

#[test]
fn grid_can_create_grid_from_fn() {

    let grid = Grid::from_fn(2, 2, |x: usize, y: usize| match (x, y) {
        (0, 0) => Live,
        (1, 0) => Dead,
        (0, 1) => Dead,
        (1, 1) => Live,
        ____ => unreachable!(),
    });

    assert_eq!(grid.width(), 2);
    assert_eq!(grid.height(), 2);
    assert_eq!(grid.cells().len(), 4);
    assert_eq!(grid.cells()[0], Live);
    assert_eq!(grid.cells()[1], Dead);
    assert_eq!(grid.cells()[2], Dead);
    assert_eq!(grid.cells()[3], Live);
}

#[test]
fn grid_can_create_dead_grid() {

    let grid = Grid::create_dead(10, 10);

    assert_eq!(grid.width(), 10);
    assert_eq!(grid.height(), 10);
    assert_eq!(grid.cells().len(), 100);

    for cell in grid.cells() {
        assert_eq!(&Dead, cell)
    }
}

#[test]
fn grid_can_debug_grid() {
    let output = make_oblong_grid().render_debug();
    assert_eq!(output, "!5x3 grid:\n..O..\n.O.O.\n..O..");
}

#[test]
fn grid_can_display_grid() {
    let output = make_oblong_grid().render();
    assert_eq!(output, "..O..\n.O.O.\n..O..");
}

#[test]
fn grid_can_grid_index_rangefull() {
    let grid = Grid::create_dead(2, 3);
    assert_eq!(grid.cells()[..], [X, X, X, X, X, X]);
}

#[test]
fn grid_can_grid_indexmut_rangefull() {
    let mut grid = Grid::create_dead(3, 3);
    grid.cells_mut()[..].copy_from_slice(&[X, O, X, O, X, O, X, O, X]);
    assert_eq!(grid.cells()[1..=3], [O, X, O]);
}

#[test]
fn grid_test_parse_plaintext() {
    let tests: Vec<(&str, Result<Grid, &str>)> = vec![
        (
            "
.O
O.
",
            Ok(Grid::from_raw(2, 2, vec![
                X, O, //
                O, X, //
            ])),
        ),
        (
            "
                    .O.
                    ..O
                    OOO
                ",
            Ok(Grid::from_raw(3, 3, vec![
                X, O, X, //
                X, X, O, //
                O, O, O, //
            ])),
        ),
        (".", Ok(Grid::from_raw(1, 1, vec![X]))),
        (
            "
                    ...
                    OOO
                    ...
                ",
            Ok(Grid::from_raw(3, 3, vec![
                X, X, X, //
                O, O, O, //
                X, X, X, //
            ])),
        ),
        (
            "
                    ...
                    OzO
                    ...
                ",
            Err("found character z, expected 'O' or '.'"),
        ),
    ];
    for (input, expected) in tests {
        let actual = Grid::from_str(input);
        match expected {
            Ok(expected_grid) => assert_eq!(actual.unwrap(), expected_grid),
            Err(message) => assert_eq!(actual.unwrap_err().description(), message),
        }
    }
}

#[test]
fn parse_reports_inconsistent_width() {
    let actual = Grid::from_str(".O.\nOO\n...");
    assert_eq!(
        actual.unwrap_err(),
        GridParseError::WidthMismatch { expected: 3, found: 2 }
    );
    let message = Grid::from_str(".O.\nOO\n...").unwrap_err().description();
    assert_eq!(message, "expected width 3, found 2");
}

#[test]
fn test_shrink_nop() {
    let expected = Grid::from_raw(2, 1, vec![O, X]);
    let mut input = expected.clone();
    input.shrink((expected.width(), expected.height()), (0, 0));
    assert_eq!(input, expected);
}

#[test]
fn test_shrink_no_offset() {
    let mut input = Grid::from_raw(3, 3, vec![
        O, X, X, //
        X, X, X, //
        X, X, O, //
    ]);
    let expected = Grid::from_raw(2, 2, vec![
        O, X, //
        X, X, //
    ]);

    input.shrink((expected.width(), expected.height()), (0, 0));
    assert_eq!(input, expected);
}

#[test]
fn test_shrink_offset() {
    let mut input = Grid::from_raw(3, 3, vec![
        O, X, X, //
        O, X, X, //
        X, X, O, //
    ]);
    let expected = Grid::from_raw(2, 2, vec![
        O, X, //
        X, X, //
    ]);

    input.shrink((expected.width(), expected.height()), (0, 1));
    assert_eq!(input, expected);
}

#[test]
fn test_write_cells() {
    let expected = Grid::from_raw(3, 3, vec![
        O, X, X, //
        X, X, X, //
        X, X, O, //
    ]);

    let mut g = Grid::create_dead(3, 3);
    g.write_cells(0, 0, &expected);
    assert_eq!(g, expected);
}

#[test]
fn test_write_cells_offset() {
    let new_data = Grid::from_raw(3, 3, vec![
        O, O, O, //
        O, X, O, //
        O, O, O, //
    ]);

    let mut g = Grid::create_dead(5, 5);
    g.write_cells(2, 2, &new_data);

    let expected = Grid::from_raw(5, 5, vec![
        X, X, X, X, X, //
        X, X, X, X, X, //
        X, X, O, O, O, //
        X, X, O, X, O, //
        X, X, O, O, O, //
    ]);
    assert_eq!(&g, &expected);
}

#[test]
fn write_cells_clips_out_of_range() {
    let stamp = Grid::from_raw(3, 3, vec![
        O, O, O, //
        O, O, O, //
        O, O, O, //
    ]);

    let mut g = Grid::create_dead(4, 4);
    g.write_cells(2, 2, &stamp);

    let expected = Grid::from_raw(4, 4, vec![
        X, X, X, X, //
        X, X, X, X, //
        X, X, O, O, //
        X, X, O, O, //
    ]);
    assert_eq!(&g, &expected);
}

#[test]
fn iter_cells_visits_every_cell_in_row_major_order() {
    let g = make_oblong_grid();
    let mut it = g.iter_cells();
    let mut seen: Vec<(usize, usize, Cell)> = Vec::new();
    while let Some(t) = it.next() {
        seen.push(t);
    }
    assert_eq!(seen.len(), g.width() * g.height());
    assert_eq!(seen[0], (0, 0, X));
    assert_eq!(seen[2], (2, 0, O));
    assert_eq!(seen[5], (0, 1, X));
    assert_eq!(seen[6], (1, 1, O));
    assert_eq!(seen[14], (4, 2, X));
}

#[test]
fn iter_rows_is_restartable() {
    let g = make_oblong_grid();
    let mut first = g.iter_rows();
    assert_eq!(first.next().unwrap(), &[X, X, O, X, X]);
    let mut second = g.iter_rows();
    assert_eq!(second.next().unwrap(), &[X, X, O, X, X]);
}

#[test]
fn render_and_parse_round_trip() {
    let g = make_oblong_grid();
    let text = g.render();
    let back = Grid::from_str(&text).unwrap();
    assert_eq!(back, g);
}

#[test]
fn can_shrink_to_empty() {
    let mut g = make_oblong_grid();
    g.shrink((0, 0), (1, 1));
    assert_eq!(g.width(), 0);
    assert_eq!(g.height(), 0);
    assert_eq!(g.cells().len(), 0);
}
