use gol::grid::Cell::{Dead as X, Live as O};
use gol::grid::Grid;

fn trim_lines(s: &str) -> String {
    s.lines().fold(String::new(), |mut acc, line| {
        let line = line.trim();
        if !line.is_empty() {
            if !acc.is_empty() {
                acc.push('\n');
            }
            acc.push_str(line)
        }
        acc
    })
}

#[test]
fn cells_test_cells() {
    let g: Grid = Grid::from_str(
        "
        .O.
        ..O
        OOO
    ",
    )
    .unwrap();

    let expected_range = vec![
        X, O, //
        X, X, //
    ];
    let view = g.range((0, 0), (2, 2));
    assert_eq!(view.cells(), expected_range);

    let expected_range = vec![
        O, X, //
        X, O, //
    ];
    let view = g.range((1, 0), (3, 2));
    assert_eq!(view.cells(), expected_range);

    let expected_range = vec![
        X, X, //
        O, O, //
    ];
    let view = g.range((0, 1), (2, 3));
    assert_eq!(view.cells(), expected_range);

    let expected_range = vec![
        X, O, //
        O, O, //
    ];
    let view = g.range((1, 1), (3, 3));
    assert_eq!(view.cells(), expected_range);
}

#[test]
fn debug_test_cells() {
    let input = trim_lines(
        "
        !GridView: (0, 0)..(3, 3)
        .O.
        ..O
        OOO
    ",
    );
    let p = gol::plaintext_simple::parse_plaintext(&input).unwrap();
    let g = p.grid;

    assert_eq!(
        g.range((0, 0), (g.width(), g.height())).render_debug(),
        input
    );
    assert_eq!(
        g.range((1, 0), (g.width(), g.height())).render_debug(),
        trim_lines(
            "
                !GridView: (1, 0)..(3, 3)
                O.
                .O
                OO
            ",
        )
    );
}

#[test]
fn display_test_cells() {
    let input = trim_lines(
        "
        .O.
        ..O
        OOO
    ",
    );
    let g: Grid = Grid::from_str(&input).unwrap();

    assert_eq!(g.range((0, 0), (g.width(), g.height())).render(), input);
    assert_eq!(
        g.range((1, 1), (g.width(), g.height())).render(),
        trim_lines(
            "
                .O
                OO
            ",
        )
    );
}

#[test]
fn test_eq() {
    let g: Grid = Grid::from_str(
        "
        .O.
        O.O
        OOO
    ",
    )
    .unwrap();
    let view1 = g.range((0, 1), (0, 2));
    let view2 = g.range((2, 1), (2, 2));
    assert!(view1.eq(&view2));
}

#[test]
fn views_of_different_shapes_with_equal_cells_compare_equal() {
    // Equality compares the flattened cell sequence only, not the shape.
    let g: Grid = Grid::from_str("OO\nOO").unwrap();
    let row = g.range((0, 0), (2, 1));
    let column = g.range((0, 0), (1, 2));
    assert!(row.eq(&column));
}

#[test]
fn views_with_different_cells_compare_unequal() {
    let g: Grid = Grid::from_str(".O\nO.").unwrap();
    let top = g.range((0, 0), (2, 1));
    let bottom = g.range((0, 1), (2, 2));
    assert!(top != bottom);
}
