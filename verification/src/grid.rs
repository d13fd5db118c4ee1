//! The grid module provides [`Grid`], an addressable rectangle of [`Cell`]s
//! stored in row-major order.

use crate::text::{
    is_ws, push_char, spec_digits_of, spec_is_ws, spec_lines, spec_lines_from, split_lines,
    usize_to_string,
};
use vstd::prelude::*;
use vstd::string::StringExecFns;

verus! {

/// A single cell, alive or dead.
#[derive(PartialEq, Eq, Structural, Clone, Copy, Debug, Hash)]
pub enum Cell {
    Live,
    Dead,
}

impl DeepView for Cell {
    type V = Cell;

    /// A cell is its own abstraction.
    open spec fn deep_view(&self) -> Cell {
        *self
    }
}

impl Cell {
    /// True exactly when the cell is [`Cell::Live`].
    pub open spec fn spec_is_live(&self) -> bool {
        *self == Cell::Live
    }

    /// True exactly when the cell is [`Cell::Dead`].
    pub open spec fn spec_is_dead(&self) -> bool {
        *self == Cell::Dead
    }

    /// Reports whether the cell is alive.
    pub fn is_live(&self) -> (r: bool)
        ensures
            r == self.spec_is_live(),
    {
        match *self {
            Cell::Live => true,
            _ => false,
        }
    }

    /// Reports whether the cell is dead.
    pub fn is_dead(&self) -> (r: bool)
        ensures
            r == self.spec_is_dead(),
    {
        match *self {
            Cell::Dead => true,
            _ => false,
        }
    }
}

/// An addressable grid of [`Cell`]s.
///
/// A grid owns a flat buffer of cells in row-major order (the cell at `(x, y)`
/// sits at index `y * width + x`), together with its `width` and `height`.
/// Every grid satisfies [`Grid::wf`]: the buffer holds exactly
/// `width * height` cells.
#[derive(PartialEq, Eq, Hash, Clone, Debug)]
pub struct Grid {
    width: usize,
    height: usize,
    cells: Vec<Cell>,
}

impl Grid {
    /// The width, as seen by specifications.
    pub closed spec fn spec_width(&self) -> usize {
        self.width
    }

    /// The height, as seen by specifications.
    pub closed spec fn spec_height(&self) -> usize {
        self.height
    }

    /// The flat row-major cell buffer, as seen by specifications.
    pub closed spec fn cell_seq(&self) -> Seq<Cell> {
        self.cells@
    }

    /// Well-formedness: the buffer holds exactly `width * height` cells.
    pub open spec fn wf(&self) -> bool {
        self.cell_seq().len() == self.spec_width() * self.spec_height()
    }

    /// The cell at `(x, y)`, as seen by specifications.
    pub open spec fn spec_cell(&self, x: int, y: int) -> Cell {
        self.cell_seq()[y * self.spec_width() + x]
    }

    /// Row `y` of the grid: the `width` cells starting at index `y * width`.
    pub open spec fn spec_row(&self, y: int) -> Seq<Cell> {
        self.cell_seq().subrange(
            y * self.spec_width(),
            y * self.spec_width() + self.spec_width(),
        )
    }

    /// Constructs a grid from raw components.
    ///
    /// The buffer must hold exactly `width * height` cells.
    pub fn from_raw(width: usize, height: usize, state: Vec<Cell>) -> (g: Grid)
        requires
            state@.len() == width * height,
        ensures
            g.wf(),
            g.spec_width() == width,
            g.spec_height() == height,
            g.cell_seq() == state@,
    {
        Grid { width, height, cells: state }
    }

    /// Constructs a dead grid of `width` and `height`.
    pub fn create_dead(width: usize, height: usize) -> (g: Grid)
        requires
            width * height <= usize::MAX,
        ensures
            g.wf(),
            g.spec_width() == width,
            g.spec_height() == height,
            forall|i: int| 0 <= i < g.cell_seq().len() ==> g.cell_seq()[i] == Cell::Dead,
    {
        let count = width * height;
        let mut cells: Vec<Cell> = Vec::new();
        let mut i: usize = 0;
        while i < count
            invariant
                i <= count,
                cells@.len() == i,
                forall|j: int| 0 <= j < i ==> cells@[j] == Cell::Dead,
            decreases count - i,
        {
            cells.push(Cell::Dead);
            i += 1;
        }
        Grid { width, height, cells }
    }

    /// The number of cells in this grid, `width * height`.
    pub fn size(&self) -> (s: usize)
        requires
            self.wf(),
        ensures
            s == self.spec_width() * self.spec_height(),
            s == self.cell_seq().len(),
    {
        // The buffer's length bounds the row-major index within `usize`.
        let _len: usize = self.cells.len();
        self.width * self.height
    }

    /// The width of this grid.
    pub fn width(&self) -> (w: usize)
        ensures
            w == self.spec_width(),
    {
        self.width
    }

    /// The height of this grid.
    pub fn height(&self) -> (h: usize)
        ensures
            h == self.spec_height(),
    {
        self.height
    }

    /// The contiguous row-major buffer of cells.
    pub fn cells(&self) -> (c: &Vec<Cell>)
        ensures
            c@ == self.cell_seq(),
    {
        &self.cells
    }

    /// The cell at the given coordinates.
    ///
    /// Coordinates must lie inside the grid; no wrapping is performed here —
    /// wrapping, if desired, is the caller's (neighbour-counter's)
    /// responsibility.
    pub fn cell_at(&self, x: usize, y: usize) -> (c: Cell)
        requires
            self.wf(),
            x < self.spec_width(),
            y < self.spec_height(),
        ensures
            c == self.spec_cell(x as int, y as int),
    {
        proof {
            lemma_row_major_index_bound(
                x as int,
                y as int,
                self.spec_width() as int,
                self.spec_height() as int,
            );
        }
        // The buffer's length bounds the row-major index within `usize`.
        let _len: usize = self.cells.len();
        self.cells[y * self.width + x]
    }

    /// Overwrites the cell at the given coordinates with the given value.
    ///
    /// Coordinates must lie inside the grid.
    pub fn set_cell(&mut self, x: usize, y: usize, cell: Cell)
        requires
            old(self).wf(),
            x < old(self).spec_width(),
            y < old(self).spec_height(),
        ensures
            final(self).wf(),
            final(self).spec_width() == old(self).spec_width(),
            final(self).spec_height() == old(self).spec_height(),
            final(self).cell_seq() == old(self).cell_seq().update(
                y * old(self).spec_width() + x,
                cell,
            ),
            forall|gx: int, gy: int|
                0 <= gx < old(self).spec_width() && 0 <= gy < old(self).spec_height()
                    ==> final(self).spec_cell(gx, gy) == (if gx == x && gy == y {
                    cell
                } else {
                    old(self).spec_cell(gx, gy)
                }),
    {
        proof {
            lemma_row_major_index_bound(
                x as int,
                y as int,
                self.spec_width() as int,
                self.spec_height() as int,
            );
        }
        // The buffer's length bounds the row-major index within `usize`.
        let _len: usize = self.cells.len();
        let i = y * self.width + x;
        self.cells.set(i, cell);
        proof {
            assert forall|gx: int, gy: int|
                0 <= gx < old(self).spec_width() && 0 <= gy < old(self).spec_height()
                    implies self.spec_cell(gx, gy) == (if gx == x && gy == y {
                    cell
                } else {
                    old(self).spec_cell(gx, gy)
                }) by {
                let w = old(self).spec_width() as int;
                let h = old(self).spec_height() as int;
                lemma_row_major_index_bound(gx, gy, w, h);
                if gy * w + gx == y * w + x {
                    lemma_row_major_index_injective(gx, gy, x as int, y as int, w);
                }
            }
        }
    }

    /// Constructs a grid of `width` and `height` using a factory function.
    ///
    /// The factory is invoked for each of the `width * height` coordinates in
    /// row-major order (`x` varies fastest), and the results are collected in
    /// that order.
    pub fn from_fn<F: Fn(usize, usize) -> Cell>(width: usize, height: usize, f: F) -> (g: Grid)
        requires
            width * height <= usize::MAX,
            forall|x: usize, y: usize|
                x < width && y < height ==> call_requires(f, (x, y)),
        ensures
            g.wf(),
            g.spec_width() == width,
            g.spec_height() == height,
            forall|x: usize, y: usize|
                x < width && y < height ==> call_ensures(
                    f,
                    (x, y),
                    #[trigger] g.spec_cell(x as int, y as int),
                ),
    {
        let count = width * height;
        let mut cells: Vec<Cell> = Vec::new();
        let mut i: usize = 0;
        while i < count
            invariant
                i <= count,
                count == width * height,
                count <= usize::MAX,
                cells@.len() == i,
                forall|x: usize, y: usize|
                    x < width && y < height ==> call_requires(f, (x, y)),
                forall|j: int|
                    0 <= j < i ==> call_ensures(
                        f,
                        (((j % (width as int)) as usize), ((j / (width as int)) as usize)),
                        #[trigger] cells@[j],
                    ),
            decreases count - i,
        {
            proof {
                lemma_row_major_index_decompose(i as int, width as int, height as int);
            }
            let x = i % width;
            let y = i / width;
            let c = f(x, y);
            cells.push(c);
            i += 1;
        }
        let g = Grid { width, height, cells };
        proof {
            assert forall|x: usize, y: usize| x < width && y < height implies call_ensures(
                f,
                (x, y),
                #[trigger] g.spec_cell(x as int, y as int),
            ) by {
                let w = width as int;
                let j = y * w + x;
                lemma_row_major_index_bound(x as int, y as int, w, height as int);
                lemma_row_major_index_recompose(x as int, y as int, w);
            }
        }
        g
    }

    /// Overwrites the cells starting at coordinates `(x, y)` with the data in
    /// the given grid.
    ///
    /// Writes that would fall outside this grid are silently clipped: every
    /// in-range destination cell is overwritten and every out-of-range source
    /// cell is ignored, so a partial overlap writes exactly the overlapping
    /// rectangle.
    pub fn write_cells(&mut self, x: usize, y: usize, data: &Grid)
        requires
            old(self).wf(),
            data.wf(),
        ensures
            final(self).wf(),
            final(self).spec_width() == old(self).spec_width(),
            final(self).spec_height() == old(self).spec_height(),
            forall|gx: int, gy: int|
                0 <= gx < old(self).spec_width() && 0 <= gy < old(self).spec_height()
                    ==> final(self).spec_cell(gx, gy) == (if x <= gx < x + data.spec_width() && y
                    <= gy < y + data.spec_height() {
                    data.spec_cell(gx - x, gy - y)
                } else {
                    old(self).spec_cell(gx, gy)
                }),
    {
        let w = self.width;
        let h = self.height;
        let mut data_y: usize = 0;
        while data_y < data.height()
            invariant
                old(self).wf(),
                data.wf(),
                self.wf(),
                self.spec_width() == old(self).spec_width(),
                self.spec_height() == old(self).spec_height(),
                w == self.spec_width(),
                h == self.spec_height(),
                data_y <= data.spec_height(),
                forall|gx: int, gy: int|
                    0 <= gx < w && 0 <= gy < h ==> self.spec_cell(gx, gy) == (if x <= gx < x
                        + data.spec_width() && y <= gy < y + data_y {
                        data.spec_cell(gx - x, gy - y)
                    } else {
                        old(self).spec_cell(gx, gy)
                    }),
            decreases data.spec_height() - data_y,
        {
            let mut data_x: usize = 0;
            while data_x < data.width()
                invariant
                    old(self).wf(),
                    data.wf(),
                    self.wf(),
                    self.spec_width() == old(self).spec_width(),
                    self.spec_height() == old(self).spec_height(),
                    w == self.spec_width(),
                    h == self.spec_height(),
                    data_y < data.spec_height(),
                    data_x <= data.spec_width(),
                    forall|gx: int, gy: int|
                        0 <= gx < w && 0 <= gy < h ==> self.spec_cell(gx, gy) == (if (x <= gx < x
                            + data.spec_width() && y <= gy < y + data_y) || (x <= gx < x + data_x
                            && gy == y + data_y) {
                            data.spec_cell(gx - x, gy - y)
                        } else {
                            old(self).spec_cell(gx, gy)
                        }),
                decreases data.spec_width() - data_x,
            {
                if x < w && data_x < w - x && y < h && data_y < h - y {
                    let cell = data.cell_at(data_x, data_y);
                    self.set_cell(x + data_x, y + data_y, cell);
                }
                data_x += 1;
            }
            data_y += 1;
        }
    }

    /// Shrinks this grid in place to the sub-rectangle of dimensions
    /// `new_size` whose top-left corner sits at `offset`.
    ///
    /// The requested rectangle must lie inside the current grid; the kept
    /// cells retain their relative positions and all others are discarded.
    pub fn shrink(&mut self, new_size: (usize, usize), offset: (usize, usize))
        requires
            old(self).wf(),
            offset.0 + new_size.0 <= old(self).spec_width(),
            offset.1 + new_size.1 <= old(self).spec_height(),
        ensures
            final(self).wf(),
            final(self).spec_width() == new_size.0,
            final(self).spec_height() == new_size.1,
            forall|gx: int, gy: int|
                0 <= gx < new_size.0 && 0 <= gy < new_size.1 ==> final(self).spec_cell(gx, gy)
                    == old(self).spec_cell(offset.0 + gx, offset.1 + gy),
    {
        let (new_w, new_h) = new_size;
        let (off_x, off_y) = offset;
        let mut cells: Vec<Cell> = Vec::new();
        let mut gy: usize = 0;
        while gy < new_h
            invariant
                self.wf(),
                self == old(self),
                off_x + new_w <= self.spec_width(),
                off_y + new_h <= self.spec_height(),
                gy <= new_h,
                cells@.len() == gy * new_w,
                forall|k: int|
                    0 <= k < cells@.len() ==> #[trigger] cells@[k] == self.spec_cell(
                        off_x + k % (new_w as int),
                        off_y + k / (new_w as int),
                    ),
            decreases new_h - gy,
        {
            let mut gx: usize = 0;
            while gx < new_w
                invariant
                    self.wf(),
                    self == old(self),
                    off_x + new_w <= self.spec_width(),
                    off_y + new_h <= self.spec_height(),
                    gy < new_h,
                    gx <= new_w,
                    cells@.len() == gy * new_w + gx,
                    forall|k: int|
                        0 <= k < cells@.len() ==> #[trigger] cells@[k] == self.spec_cell(
                            off_x + k % (new_w as int),
                            off_y + k / (new_w as int),
                        ),
                decreases new_w - gx,
            {
                proof {
                    lemma_row_major_index_bound(gx as int, gy as int, new_w as int, new_h as int);
                    lemma_row_major_index_recompose(gx as int, gy as int, new_w as int);
                }
                let c = self.cell_at(off_x + gx, off_y + gy);
                cells.push(c);
                gx += 1;
            }
            gy += 1;
            proof {
                assert((gy - 1) * new_w + new_w == gy * new_w) by (nonlinear_arith);
            }
        }
        proof {
            assert(new_h * new_w == new_w * new_h) by (nonlinear_arith);
        }
        let g = Grid { width: new_w, height: new_h, cells };
        proof {
            assert forall|gx: int, gy2: int|
                0 <= gx < new_w && 0 <= gy2 < new_h implies g.spec_cell(gx, gy2) == self.spec_cell(
                off_x + gx,
                off_y + gy2,
            ) by {
                lemma_row_major_index_bound(gx, gy2, new_w as int, new_h as int);
                lemma_row_major_index_recompose(gx, gy2, new_w as int);
            }
        }
        *self = g;
    }

    /// A mutable borrow of the contiguous row-major buffer of cells.
    ///
    /// The caller may overwrite cells but must leave the length unchanged to
    /// keep the grid well-formed.
    pub fn cells_mut(&mut self) -> (c: &mut Vec<Cell>)
        ensures
            c@ == old(self).cell_seq(),
            final(self).cell_seq() == final(c)@,
            final(self).spec_width() == old(self).spec_width(),
            final(self).spec_height() == old(self).spec_height(),
    {
        &mut self.cells
    }
}

/// Why a grid could not be read from text.
#[derive(PartialEq, Eq, Structural, Clone, Copy, Debug)]
pub enum GridParseError {
    /// The body held a character other than `'O'`, `'.'` or whitespace.
    UnexpectedChar(char),
    /// A row's length disagreed with the width fixed by the first row.
    WidthMismatch { expected: usize, found: usize },
}

impl GridParseError {
    /// The error's message, as seen by specifications.
    pub open spec fn spec_description(&self) -> Seq<char> {
        match *self {
            GridParseError::UnexpectedChar(c) => "found character "@ + seq![c]
                + ", expected 'O' or '.'"@,
            GridParseError::WidthMismatch { expected, found } => "expected width "@
                + spec_digits_of(expected as int) + ", found "@ + spec_digits_of(found as int),
        }
    }

    /// A human-readable message for this error.
    pub fn description(&self) -> (r: String)
        ensures
            r@ == self.spec_description(),
    {
        match *self {
            GridParseError::UnexpectedChar(c) => {
                let mut s = String::from_str("found character ");
                push_char(&mut s, c);
                let r = s.concat(", expected 'O' or '.'");
                proof {
                    assert(r@ =~= self.spec_description());
                }
                r
            },
            GridParseError::WidthMismatch { expected, found } => {
                let mut s = String::from_str("expected width ");
                s.append(usize_to_string(expected).as_str());
                s.append(", found ");
                s.append(usize_to_string(found).as_str());
                proof {
                    assert(s@ =~= self.spec_description());
                }
                s
            },
        }
    }
}

/// The character that renders a cell: `'O'` for live, `'.'` for dead.
pub open spec fn spec_cell_char(c: Cell) -> char {
    if c == Cell::Live {
        'O'
    } else {
        '.'
    }
}

/// The first character of `line` that is neither `'O'`, `'.'` nor
/// whitespace, if any.
pub open spec fn spec_first_bad_char(line: Seq<char>) -> Option<char>
    decreases line.len(),
{
    if line.len() == 0 {
        None
    } else if line[0] == 'O' || line[0] == '.' || spec_is_ws(line[0]) {
        spec_first_bad_char(line.drop_first())
    } else {
        Some(line[0])
    }
}

/// The cells spelled by a body line: every `'O'` a live cell, every `'.'` a
/// dead cell, whitespace skipped.
pub open spec fn spec_line_cells(line: Seq<char>) -> Seq<Cell>
    decreases line.len(),
{
    if line.len() == 0 {
        Seq::empty()
    } else {
        let rest = spec_line_cells(line.drop_last());
        if line.last() == 'O' {
            rest.push(Cell::Live)
        } else if line.last() == '.' {
            rest.push(Cell::Dead)
        } else {
            rest
        }
    }
}

/// What parsing the given body lines yields, starting from the rows in `acc`
/// and the row width `width` fixed so far (0 while `acc` is empty):
/// the fixed width and the parsed rows on success, and otherwise the first
/// error met reading the lines in order, each line scanned left to right.
/// A line whose cells are empty is skipped; the first non-empty row fixes the
/// width; every later non-empty row must match it.
pub open spec fn spec_parse_rows(lines: Seq<Seq<char>>, width: int, acc: Seq<Seq<Cell>>) -> Result<
    (int, Seq<Seq<Cell>>),
    GridParseError,
>
    decreases lines.len(),
{
    if lines.len() == 0 {
        Ok((width, acc))
    } else {
        let line = lines[0];
        match spec_first_bad_char(line) {
            Some(c) => Err(GridParseError::UnexpectedChar(c)),
            None => {
                let row = spec_line_cells(line);
                if row.len() == 0 {
                    spec_parse_rows(lines.drop_first(), width, acc)
                } else if acc.len() == 0 {
                    spec_parse_rows(lines.drop_first(), row.len() as int, acc.push(row))
                } else if row.len() != width {
                    Err(
                        GridParseError::WidthMismatch {
                            expected: width as usize,
                            found: row.len() as usize,
                        },
                    )
                } else {
                    spec_parse_rows(lines.drop_first(), width, acc.push(row))
                }
            },
        }
    }
}

/// What parsing a whole body yields: its lines fed through
/// [`spec_parse_rows`] with nothing fixed yet.
pub open spec fn spec_parse_grid(s: Seq<char>) -> Result<(int, Seq<Seq<Cell>>), GridParseError> {
    spec_parse_rows(spec_lines(s), 0, Seq::empty())
}

impl Grid {
    /// Reads a grid from lines of `'O'` and `'.'` characters.
    ///
    /// Whitespace anywhere in a line is skipped; a line with no cells at all
    /// is ignored; any other character is an error. The first line with cells
    /// fixes the width and every later one must match it exactly.
    #[verifier::rlimit(50)]
    pub fn from_str(s: &str) -> (r: Result<Grid, GridParseError>)
        ensures
            match spec_parse_grid(s@) {
                Ok(p) => {
                    &&& r is Ok
                    &&& r matches Ok(g) ==> {
                        &&& g.wf()
                        &&& g.spec_width() == p.0
                        &&& g.spec_height() == p.1.len()
                        &&& g.cell_seq() == p.1.flatten()
                        &&& forall|y: int| 0 <= y < p.1.len() ==> g.spec_row(y) == p.1[y]
                    }
                },
                Err(e) => r == Err::<Grid, GridParseError>(e),
            },
    {
        broadcast use Seq::lemma_flatten_push;

        let lines = split_lines(s);
        let mut cells: Vec<Cell> = Vec::new();
        let mut width: usize = 0;
        let mut height: usize = 0;
        let ghost mut rows: Seq<Seq<Cell>> = Seq::empty();
        let mut li: usize = 0;
        proof {
            assert(lines.deep_view().subrange(0, lines.deep_view().len() as int) =~= lines.deep_view());
        }
        while li < lines.len()
            invariant
                lines.deep_view() == spec_lines(s@),
                li <= lines@.len(),
                lines@.len() == lines.deep_view().len(),
                spec_parse_grid(s@) == spec_parse_rows(
                    lines.deep_view().subrange(li as int, lines.deep_view().len() as int),
                    width as int,
                    rows,
                ),
                cells@ == rows.flatten(),
                rows.len() == height,
                forall|i: int| 0 <= i < rows.len() ==> (#[trigger] rows[i]).len() == width,
                rows.len() == 0 ==> width == 0,
                cells@.len() == height * width,
            decreases lines@.len() - li,
        {
            let ghost rest = lines.deep_view().subrange(li as int, lines.deep_view().len() as int);
            let line: &str = lines[li].as_str();
            proof {
                assert(rest[0] == line@);
                assert(rest.drop_first() =~= lines.deep_view().subrange(
                    li + 1,
                    lines.deep_view().len() as int,
                ));
            }
            let llen = line.unicode_len();
            let mut row: Vec<Cell> = Vec::new();
            let mut j: usize = 0;
            proof {
                assert(line@.subrange(0, llen as int) =~= line@);
                assert(line@.subrange(0, 0) =~= Seq::<char>::empty());
            }
            while j < llen
                invariant
                    llen == line@.len(),
                    j <= llen,
                    spec_first_bad_char(line@) == spec_first_bad_char(
                        line@.subrange(j as int, llen as int),
                    ),
                    row@ == spec_line_cells(line@.subrange(0, j as int)),
                    spec_parse_grid(s@) == spec_parse_rows(rest, width as int, rows),
                    rest.len() > 0,
                    rest[0] == line@,
                decreases llen - j,
            {
                let c = line.get_char(j);
                proof {
                    assert(line@.subrange(j as int, llen as int)[0] == c);
                    assert(line@.subrange(j as int, llen as int).drop_first() =~= line@.subrange(
                        j + 1,
                        llen as int,
                    ));
                    assert(line@.subrange(0, j + 1).drop_last() =~= line@.subrange(0, j as int));
                    assert(line@.subrange(0, j + 1).last() == c);
                }
                if c == 'O' {
                    row.push(Cell::Live);
                } else if c == '.' {
                    row.push(Cell::Dead);
                } else if is_ws(c) {
                } else {
                    proof {
                        assert(spec_first_bad_char(line@.subrange(j as int, llen as int)) == Some(
                            c,
                        ));
                        assert(rest.len() > 0);
                        assert(spec_first_bad_char(rest[0]) == Some(c));
                        assert(spec_parse_rows(rest, width as int, rows) == Err::<
                            (int, Seq<Seq<Cell>>),
                            GridParseError,
                        >(GridParseError::UnexpectedChar(c)));
                    }
                    return Err(GridParseError::UnexpectedChar(c));
                }
                j += 1;
            }
            proof {
                assert(line@.subrange(llen as int, llen as int) =~= Seq::<char>::empty());
                assert(line@.subrange(0, llen as int) =~= line@);
            }
            proof {
                assert(spec_first_bad_char(line@) is None);
                assert(row@ == spec_line_cells(line@));
            }
            if row.len() == 0 {
            } else if height == 0 {
                width = row.len();
                height = 1;
                let ghost old_rows = rows;
                let ghost row_view = row@;
                proof {
                    rows = rows.push(row@);
                    old_rows.lemma_flatten_push(row@);
                    assert(old_rows =~= Seq::<Seq<Cell>>::empty());
                    assert(rows.flatten() =~= old_rows.flatten() + row@);
                }
                cells.append(&mut row);
                proof {
                    assert(cells@.len() == row_view.len());
                    assert(cells@.len() == height * width) by (nonlinear_arith)
                        requires
                            height == 1 && cells@.len() == width,
                    ;
                }
            } else if row.len() != width {
                proof {
                    assert(spec_parse_rows(rest, width as int, rows) == Err::<
                        (int, Seq<Seq<Cell>>),
                        GridParseError,
                    >(GridParseError::WidthMismatch { expected: width, found: row@.len() as usize }));
                }
                return Err(GridParseError::WidthMismatch { expected: width, found: row.len() });
            } else {
                let ghost old_rows = rows;
                proof {
                    rows = rows.push(row@);
                    old_rows.lemma_flatten_push(row@);
                    assert(rows.flatten() =~= old_rows.flatten() + row@);
                }
                cells.append(&mut row);
                // The buffer's length bounds the new row count within `usize`.
                let _len: usize = cells.len();
                proof {
                    assert(cells@.len() == (height + 1) * width) by (nonlinear_arith)
                        requires
                            cells@.len() == height * width + width,
                    ;
                    assert(height + 1 <= (height + 1) * width) by (nonlinear_arith)
                        requires
                            width >= 1 && height >= 0,
                    ;
                }
                height = height + 1;
            }
            li += 1;
        }
        proof {
            assert(lines.deep_view().subrange(
                lines.deep_view().len() as int,
                lines.deep_view().len() as int,
            ) =~= Seq::<Seq<char>>::empty());
            assert(height * width == width * height) by (nonlinear_arith);
        }
        let g = Grid::from_raw(width, height, cells);
        proof {
            assert forall|y: int| 0 <= y < rows.len() implies g.spec_row(y) == rows[y] by {
                lemma_flatten_row(rows, width as int, y);
                assert(0 <= y * width && y * width + width <= rows.len() * width)
                    by (nonlinear_arith)
                    requires
                        0 <= y < rows.len() && width >= 0,
                ;
                assert(g.spec_row(y) =~= rows[y]);
            }
        }
        Ok(g)
    }
}

/// Inside the flattening of equal-width rows, row `y` occupies exactly the
/// index range of row-major row `y`.
pub(crate) proof fn lemma_flatten_row(rows: Seq<Seq<Cell>>, width: int, y: int)
    requires
        forall|i: int| 0 <= i < rows.len() ==> (#[trigger] rows[i]).len() == width,
        0 <= y < rows.len(),
    ensures
        rows.flatten().len() == rows.len() * width,
        forall|x: int| 0 <= x < width ==> rows.flatten()[y * width + x] == rows[y][x],
    decreases rows.len(),
{
    broadcast use Seq::lemma_flatten_push;

    let last = rows.len() - 1;
    let front = rows.drop_last();
    assert(front.push(rows.last()) =~= rows);
    assert(front.push(rows.last()).flatten() == front.flatten() + rows.last());
    assert(width >= 0);
    if rows.len() == 1 {
        assert(front.flatten() =~= Seq::<Cell>::empty());
        assert(rows.flatten() =~= rows[0]);
        assert(rows.flatten().len() == rows.len() * width) by (nonlinear_arith)
            requires
                rows.flatten().len() == width && rows.len() == 1,
        ;
        assert forall|x: int| 0 <= x < width implies rows.flatten()[y * width + x]
            == rows[y][x] by {
            assert(y == 0);
            assert(y * width + x == x) by (nonlinear_arith)
                requires
                    y == 0,
            ;
        }
    } else {
        if y < last {
            lemma_flatten_row(front, width, y);
        } else {
            lemma_flatten_row(front, width, 0);
        }
        assert(front.flatten().len() == last * width);
        assert(last * width + width == rows.len() * width) by (nonlinear_arith)
            requires
                last == rows.len() - 1,
        ;
        if y == last {
            assert forall|x: int| 0 <= x < width implies rows.flatten()[y * width + x]
                == rows[y][x] by {
                assert(rows.flatten()[last * width + x] == rows.last()[x]);
            }
        } else {
            assert forall|x: int| 0 <= x < width implies rows.flatten()[y * width + x]
                == rows[y][x] by {
                assert(0 <= y * width + x < last * width) by (nonlinear_arith)
                    requires
                        0 <= y < last && 0 <= x < width,
                ;
                assert(rows.flatten()[y * width + x] == front.flatten()[y * width + x]);
                assert(front.flatten()[y * width + x] == front[y][x]);
            }
        }
    }
}

/// Row `y` of a grid rendered as text: one character per cell.
pub open spec fn spec_render_row(g: &Grid, y: int) -> Seq<char> {
    Seq::new(g.spec_width() as nat, |x: int| spec_cell_char(g.spec_cell(x, y)))
}

/// The first `n` rows of a grid rendered as text, joined by `'\n'`, with no
/// trailing line break.
pub open spec fn spec_render_rows(g: &Grid, n: int) -> Seq<char>
    decreases n,
{
    if n <= 0 {
        Seq::empty()
    } else if n == 1 {
        spec_render_row(g, 0)
    } else {
        spec_render_rows(g, n - 1) + seq!['\n'] + spec_render_row(g, n - 1)
    }
}

/// A whole grid rendered as text: live cells as `'O'`, dead cells as `'.'`,
/// rows joined by `'\n'`, no trailing line break.
pub open spec fn spec_render(g: &Grid) -> Seq<char> {
    spec_render_rows(g, g.spec_height() as int)
}

/// A grid rendered with its debug header: `!WxH grid:` on a line of its own,
/// then the rendered rows.
pub open spec fn spec_render_debug(g: &Grid) -> Seq<char> {
    seq!['!'] + spec_digits_of(g.spec_width() as int) + seq!['x'] + spec_digits_of(
        g.spec_height() as int,
    ) + " grid:\n"@ + spec_render(g)
}

impl Grid {
    /// Renders this grid as text: `'O'` for live cells, `'.'` for dead ones,
    /// rows joined by `'\n'`, no trailing line break.
    pub fn render(&self) -> (r: String)
        requires
            self.wf(),
        ensures
            r@ == spec_render(self),
    {
        let w = self.width();
        let h = self.height();
        let mut out = String::new();
        let mut y: usize = 0;
        while y < h
            invariant
                self.wf(),
                w == self.spec_width(),
                h == self.spec_height(),
                y <= h,
                out@ == spec_render_rows(self, y as int),
            decreases h - y,
        {
            if y != 0 {
                push_char(&mut out, '\n');
            }
            let ghost prefix = out@;
            let mut x: usize = 0;
            while x < w
                invariant
                    self.wf(),
                    w == self.spec_width(),
                    h == self.spec_height(),
                    y < h,
                    x <= w,
                    out@ == prefix + spec_render_row(self, y as int).subrange(0, x as int),
                decreases w - x,
            {
                proof {
                    lemma_row_major_index_bound(x as int, y as int, w as int, h as int);
                    assert(spec_render_row(self, y as int).subrange(0, x + 1) =~= spec_render_row(
                        self,
                        y as int,
                    ).subrange(0, x as int).push(spec_cell_char(self.spec_cell(x as int, y as int))));
                }
                if self.cell_at(x, y).is_live() {
                    push_char(&mut out, 'O');
                } else {
                    push_char(&mut out, '.');
                }
                x += 1;
            }
            proof {
                assert(spec_render_row(self, y as int).subrange(0, w as int) =~= spec_render_row(
                    self,
                    y as int,
                ));
                if y == 0 {
                    assert(prefix =~= Seq::<char>::empty());
                    assert(out@ =~= spec_render_rows(self, 1));
                } else {
                    assert(out@ =~= spec_render_rows(self, y + 1));
                }
            }
            y += 1;
        }
        out
    }

    /// Renders this grid with a `!WxH grid:` header line in front.
    pub fn render_debug(&self) -> (r: String)
        requires
            self.wf(),
        ensures
            r@ == spec_render_debug(self),
    {
        let mut out = String::new();
        push_char(&mut out, '!');
        out.append(usize_to_string(self.width()).as_str());
        push_char(&mut out, 'x');
        out.append(usize_to_string(self.height()).as_str());
        out.append(" grid:\n");
        out.append(self.render().as_str());
        proof {
            assert(out@ =~= spec_render_debug(self));
        }
        out
    }

    /// Returns an iterator over the rows of this grid.
    ///
    /// Each call returns a fresh iterator starting at the first row.
    pub fn iter_rows(&self) -> (it: RowIter<'_>)
        requires
            self.wf(),
        ensures
            it.wf(),
            it.spec_grid() == *self,
            it.spec_row() == 0,
    {
        RowIter { grid: self, row: 0 }
    }

    /// Returns an iterator over the cells of this grid in row-major order.
    ///
    /// Each call returns a fresh iterator starting at the first cell.
    pub fn iter_cells(&self) -> (it: CellIter<'_>)
        requires
            self.wf(),
        ensures
            it.wf(),
            it.spec_grid() == *self,
            it.spec_index() == 0,
    {
        CellIter { grid: self, index: 0 }
    }
}

/// Iterator over the rows of a [`Grid`], top to bottom.
///
/// Each row comes out as a borrowed slice of length `width`.
pub struct RowIter<'a> {
    grid: &'a Grid,
    row: usize,
}

impl<'a> RowIter<'a> {
    /// The grid being walked, as seen by specifications.
    pub closed spec fn spec_grid(&self) -> Grid {
        *self.grid
    }

    /// The index of the next row to yield.
    pub closed spec fn spec_row(&self) -> int {
        self.row as int
    }

    /// Well-formedness: the grid is well-formed and the cursor has not run
    /// past the last row.
    pub open spec fn wf(&self) -> bool {
        self.spec_grid().wf() && 0 <= self.spec_row() <= self.spec_grid().spec_height()
    }

    /// The next row, or `None` once every row has been yielded.
    pub fn next(&mut self) -> (r: Option<&'a [Cell]>)
        requires
            old(self).wf(),
        ensures
            final(self).wf(),
            final(self).spec_grid() == old(self).spec_grid(),
            old(self).spec_row() < old(self).spec_grid().spec_height() ==> {
                &&& r is Some
                &&& final(self).spec_row() == old(self).spec_row() + 1
            },
            r matches Some(s) ==> s@ == old(self).spec_grid().spec_row(old(self).spec_row()),
            old(self).spec_row() >= old(self).spec_grid().spec_height() ==> {
                &&& r is None
                &&& final(self).spec_row() == old(self).spec_row()
            },
    {
        let g: &'a Grid = self.grid;
        let row = self.row;
        if row == g.height {
            return None;
        }
        // The buffer's length bounds the row's end index within `usize`.
        let _len: usize = g.cells.len();
        proof {
            let w = g.spec_width() as int;
            let h = g.spec_height() as int;
            assert(row * w + w <= h * w) by (nonlinear_arith)
                requires
                    0 <= row < h,
                    0 <= w,
            ;
            assert(w * h == h * w) by (nonlinear_arith);
        }
        self.row = row + 1;
        let start = row * g.width;
        let end = start + g.width;
        Some(vstd::slice::slice_subrange(g.cells.as_slice(), start, end))
    }
}

/// Iterator over the cells of a [`Grid`] in row-major order.
///
/// Each cell comes out as a `(x, y, cell)` triple.
pub struct CellIter<'a> {
    grid: &'a Grid,
    index: usize,
}

impl<'a> CellIter<'a> {
    /// The grid being walked, as seen by specifications.
    pub closed spec fn spec_grid(&self) -> Grid {
        *self.grid
    }

    /// The flat row-major index of the next cell to yield.
    pub closed spec fn spec_index(&self) -> int {
        self.index as int
    }

    /// Well-formedness: the grid is well-formed and the cursor has not run
    /// past the last cell.
    pub open spec fn wf(&self) -> bool {
        self.spec_grid().wf() && 0 <= self.spec_index() <= self.spec_grid().cell_seq().len()
    }

    /// The next `(x, y, cell)` triple, or `None` once every cell has been
    /// yielded.
    pub fn next(&mut self) -> (r: Option<(usize, usize, Cell)>)
        requires
            old(self).wf(),
        ensures
            final(self).wf(),
            final(self).spec_grid() == old(self).spec_grid(),
            old(self).spec_index() < old(self).spec_grid().cell_seq().len() ==> {
                &&& r is Some
                &&& final(self).spec_index() == old(self).spec_index() + 1
            },
            r matches Some(t) ==> {
                &&& t.0 < old(self).spec_grid().spec_width()
                &&& t.1 < old(self).spec_grid().spec_height()
                &&& old(self).spec_index() == t.1 * old(self).spec_grid().spec_width() + t.0
                &&& t.2 == old(self).spec_grid().spec_cell(t.0 as int, t.1 as int)
            },
            old(self).spec_index() >= old(self).spec_grid().cell_seq().len() ==> {
                &&& r is None
                &&& final(self).spec_index() == old(self).spec_index()
            },
    {
        let g: &'a Grid = self.grid;
        let len = g.cells.len();
        let index = self.index;
        if index < len {
            proof {
                lemma_row_major_index_decompose(
                    index as int,
                    g.spec_width() as int,
                    g.spec_height() as int,
                );
            }
            self.index = index + 1;
            let x = index % g.width;
            let y = index / g.width;
            Some((x, y, g.cells[index]))
        } else {
            None
        }
    }
}

/// Law: a well-formed grid holds exactly `width * height` cells, which is
/// therefore the number of elements that a full walk of [`Grid::iter_cells`]
/// yields (its iterator stops exactly at `cell_seq().len()`).
pub proof fn lemma_dimension_invariant(g: &Grid)
    requires
        g.wf(),
    ensures
        g.cell_seq().len() == g.spec_width() * g.spec_height(),
{
}

/// Scanning characters that hold no line break only lengthens the current
/// line.
proof fn lemma_lines_from_no_newline(cur: Seq<char>, s: Seq<char>, t: Seq<char>)
    requires
        forall|i: int| 0 <= i < s.len() ==> s[i] != '\n',
    ensures
        spec_lines_from(cur, s + t) == spec_lines_from(cur + s, t),
    decreases s.len(),
{
    if s.len() == 0 {
        assert(cur + s =~= cur);
        assert(s + t =~= t);
    } else {
        assert((s + t)[0] == s[0]);
        assert((s + t).drop_first() =~= s.drop_first() + t);
        lemma_lines_from_no_newline(cur.push(s[0]), s.drop_first(), t);
        assert(cur.push(s[0]) + s.drop_first() =~= cur + s);
    }
}

/// The rows of a rendered grid come back unchanged from line splitting: the
/// text of the first `n` rows followed by `t` splits into those `n - 1` whole
/// rows, with row `n - 1` still open in front of `t`.
proof fn lemma_lines_of_render(g: &Grid, n: int, t: Seq<char>)
    requires
        g.wf(),
        0 < g.spec_width(),
        1 <= n <= g.spec_height(),
    ensures
        spec_lines_from(Seq::empty(), spec_render_rows(g, n) + t) == Seq::new(
            (n - 1) as nat,
            |y: int| spec_render_row(g, y),
        ) + spec_lines_from(spec_render_row(g, n - 1), t),
    decreases n,
{
    assert forall|y: int, i: int|
        0 <= y < g.spec_height() && 0 <= i < spec_render_row(g, y).len() implies #[trigger] spec_render_row(
        g,
        y,
    )[i] != '\n' by {
        assert(spec_render_row(g, y)[i] == spec_cell_char(g.spec_cell(i, y)));
    }
    if n == 1 {
        lemma_lines_from_no_newline(Seq::empty(), spec_render_row(g, 0), t);
        assert(Seq::empty() + spec_render_row(g, 0) =~= spec_render_row(g, 0));
        assert(spec_render_rows(g, 1) + t =~= spec_render_row(g, 0) + t);
        assert(Seq::new(0, |y: int| spec_render_row(g, y)) + spec_lines_from(
            spec_render_row(g, 0),
            t,
        ) =~= spec_lines_from(spec_render_row(g, 0), t));
    } else {
        let t2 = seq!['\n'] + (spec_render_row(g, n - 1) + t);
        assert(spec_render_rows(g, n) + t =~= spec_render_rows(g, n - 1) + t2);
        lemma_lines_of_render(g, n - 1, t2);
        assert(t2[0] == '\n');
        assert(t2.drop_first() =~= spec_render_row(g, n - 1) + t);
        assert(spec_lines_from(spec_render_row(g, n - 2), t2) == seq![
            spec_render_row(g, n - 2),
        ] + spec_lines_from(Seq::empty(), spec_render_row(g, n - 1) + t));
        lemma_lines_from_no_newline(Seq::empty(), spec_render_row(g, n - 1), t);
        assert(Seq::empty() + spec_render_row(g, n - 1) =~= spec_render_row(g, n - 1));
        assert(Seq::new((n - 2) as nat, |y: int| spec_render_row(g, y)) + seq![
            spec_render_row(g, n - 2),
        ] =~= Seq::new((n - 1) as nat, |y: int| spec_render_row(g, y)));
        assert(Seq::new((n - 2) as nat, |y: int| spec_render_row(g, y)) + (seq![
            spec_render_row(g, n - 2),
        ] + spec_lines_from(Seq::empty(), spec_render_row(g, n - 1) + t)) =~= (Seq::new(
            (n - 2) as nat,
            |y: int| spec_render_row(g, y),
        ) + seq![spec_render_row(g, n - 2)]) + spec_lines_from(
            Seq::empty(),
            spec_render_row(g, n - 1) + t,
        ));
    }
}

/// A line made only of `'O'` and `'.'` characters holds no bad character.
proof fn lemma_all_cells_no_bad(s: Seq<char>)
    requires
        forall|i: int| 0 <= i < s.len() ==> s[i] == 'O' || s[i] == '.',
    ensures
        spec_first_bad_char(s) is None,
    decreases s.len(),
{
    if s.len() > 0 {
        lemma_all_cells_no_bad(s.drop_first());
    }
}

/// A line made only of `'O'` and `'.'` characters spells one cell per
/// character.
proof fn lemma_all_cells_line_cells(s: Seq<char>)
    requires
        forall|i: int| 0 <= i < s.len() ==> s[i] == 'O' || s[i] == '.',
    ensures
        spec_line_cells(s).len() == s.len(),
        forall|i: int|
            0 <= i < s.len() ==> spec_line_cells(s)[i] == (if s[i] == 'O' {
                Cell::Live
            } else {
                Cell::Dead
            }),
    decreases s.len(),
{
    if s.len() > 0 {
        lemma_all_cells_line_cells(s.drop_last());
        let rest = spec_line_cells(s.drop_last());
        assert(s.last() == s[s.len() - 1]);
        assert forall|i: int|
            0 <= i < s.len() implies spec_line_cells(s)[i] == (if s[i] == 'O' {
            Cell::Live
        } else {
            Cell::Dead
        }) by {
            if i < s.len() - 1 {
                assert(spec_line_cells(s)[i] == rest[i]);
                assert(s.drop_last()[i] == s[i]);
            }
        }
    }
}

/// A rendered row scans without error and spells back the grid row it
/// renders.
proof fn lemma_render_row_cells(g: &Grid, y: int)
    requires
        g.wf(),
        0 < g.spec_width(),
        0 <= y < g.spec_height(),
    ensures
        spec_first_bad_char(spec_render_row(g, y)) is None,
        spec_line_cells(spec_render_row(g, y)) == g.spec_row(y),
        spec_line_cells(spec_render_row(g, y)).len() == g.spec_width(),
{
    let w = g.spec_width() as int;
    let h = g.spec_height() as int;
    let row = spec_render_row(g, y);
    assert forall|i: int| 0 <= i < row.len() implies row[i] == 'O' || row[i] == '.' by {
        assert(row[i] == spec_cell_char(g.spec_cell(i, y)));
    }
    lemma_all_cells_no_bad(row);
    lemma_all_cells_line_cells(row);
    assert(0 <= y * w && y * w + w <= h * w) by (nonlinear_arith)
        requires
            0 <= y < h && 0 < w,
    ;
    assert(w * h == h * w) by (nonlinear_arith);
    assert(g.cell_seq().len() == h * w);
    assert(g.spec_row(y).len() == w);
    assert forall|i: int| 0 <= i < w implies spec_line_cells(row)[i] == g.spec_row(y)[i] by {
        assert(row[i] == spec_cell_char(g.spec_cell(i, y)));
        assert(g.spec_row(y)[i] == g.cell_seq()[y * w + i]);
        assert(g.spec_cell(i, y) == g.cell_seq()[y * w + i]);
    }
    assert(spec_line_cells(row) =~= g.spec_row(y));
}

/// Feeding equal-width, error-free lines through the row parser appends their
/// cells to the rows read so far.
proof fn lemma_parse_rows_uniform(lines: Seq<Seq<char>>, width: int, acc: Seq<Seq<Cell>>)
    requires
        0 < width,
        0 < acc.len(),
        forall|i: int| 0 <= i < lines.len() ==> spec_first_bad_char(#[trigger] lines[i]) is None,
        forall|i: int|
            0 <= i < lines.len() ==> spec_line_cells(#[trigger] lines[i]).len() == width,
    ensures
        spec_parse_rows(lines, width, acc) == Ok::<(int, Seq<Seq<Cell>>), GridParseError>(
            (width, acc + lines.map_values(|l: Seq<char>| spec_line_cells(l))),
        ),
    decreases lines.len(),
{
    let f = |l: Seq<char>| spec_line_cells(l);
    if lines.len() == 0 {
        assert(acc + lines.map_values(f) =~= acc);
    } else {
        let row = spec_line_cells(lines[0]);
        lemma_parse_rows_uniform(lines.drop_first(), width, acc.push(row));
        assert(lines.drop_first().map_values(f) =~= lines.map_values(f).drop_first());
        assert(acc.push(row) + lines.map_values(f).drop_first() =~= acc + lines.map_values(f));
    }
}

/// Law: rendering a grid and parsing the text back yields the grid again —
/// the same width, one parsed row per grid row, and the same cells in the
/// same order. (A grid with no cells at all renders as empty text, which
/// parses to the zero-by-zero grid, so both dimensions must be positive.)
pub proof fn lemma_render_parse_round_trip(g: &Grid)
    requires
        g.wf(),
        0 < g.spec_width(),
        0 < g.spec_height(),
    ensures
        spec_parse_grid(spec_render(g)) matches Ok(p) && {
            &&& p.0 == g.spec_width()
            &&& p.1.len() == g.spec_height()
            &&& forall|y: int| 0 <= y < p.1.len() ==> p.1[y] == g.spec_row(y)
            &&& p.1.flatten() == g.cell_seq()
        },
{
    let w = g.spec_width() as int;
    let h = g.spec_height() as int;
    let rendered_rows = Seq::new(h as nat, |y: int| spec_render_row(g, y));
    assert(w * h == h * w) by (nonlinear_arith);

    // The rendered text splits back into the rendered rows.
    lemma_lines_of_render(g, h, Seq::empty());
    assert(spec_render(g) + Seq::<char>::empty() =~= spec_render(g));
    assert(spec_render_row(g, h - 1).len() == w);
    assert(spec_lines_from(spec_render_row(g, h - 1), Seq::empty()) =~= seq![
        spec_render_row(g, h - 1),
    ]);
    assert(spec_lines(spec_render(g)) =~= rendered_rows);

    // Each rendered row parses back to the grid row it came from.
    assert forall|y: int| 0 <= y < h implies {
        &&& spec_first_bad_char(#[trigger] rendered_rows[y]) is None
        &&& spec_line_cells(rendered_rows[y]) == g.spec_row(y)
    } by {
        lemma_render_row_cells(g, y);
        assert(rendered_rows[y] == spec_render_row(g, y));
    }

    // The row parser accepts them all and keeps their order.
    let row0 = spec_line_cells(rendered_rows[0]);
    let rest = rendered_rows.drop_first();
    lemma_render_row_cells(g, 0);
    assert(rendered_rows[0] == spec_render_row(g, 0));
    assert(row0.len() == w);
    assert(Seq::<Seq<Cell>>::empty().push(row0) =~= seq![row0]);
    assert(spec_parse_grid(spec_render(g)) == spec_parse_rows(rest, w, seq![row0]));
    assert forall|i: int| 0 <= i < rest.len() implies spec_first_bad_char(
        #[trigger] rest[i],
    ) is None && spec_line_cells(rest[i]).len() == w by {
        assert(rest[i] == rendered_rows[i + 1]);
        lemma_render_row_cells(g, i + 1);
        assert(rendered_rows[i + 1] == spec_render_row(g, i + 1));
    }
    lemma_parse_rows_uniform(rest, w, seq![row0]);
    let f = |l: Seq<char>| spec_line_cells(l);
    let rows = seq![row0] + rest.map_values(f);
    assert(rows =~= rendered_rows.map_values(f)) by {
        assert(rest.map_values(f) =~= rendered_rows.map_values(f).drop_first());
    }
    assert forall|y: int| 0 <= y < h implies rows[y] == g.spec_row(y) by {
        assert(rows[y] == spec_line_cells(rendered_rows[y]));
    }

    // Flattening the parsed rows restores the cell buffer.
    assert forall|i: int| 0 <= i < rows.len() implies (#[trigger] rows[i]).len() == w by {
        assert(rows[i] == g.spec_row(i));
    }
    lemma_flatten_row(rows, w, 0);
    assert(rows.flatten() =~= g.cell_seq()) by {
        assert(rows.flatten().len() == h * w);
        assert(h * w == w * h) by (nonlinear_arith);
        assert forall|k: int| 0 <= k < g.cell_seq().len() implies rows.flatten()[k]
            == g.cell_seq()[k] by {
            lemma_row_major_index_decompose(k, w, h);
            let x = k % w;
            let y = k / w;
            lemma_flatten_row(rows, w, y);
            assert(rows.flatten()[y * w + x] == rows[y][x]);
            assert(rows[y] == g.spec_row(y));
            assert(0 <= y * w && y * w + w <= h * w) by (nonlinear_arith)
                requires
                    0 <= y < h && 0 < w,
            ;
            assert(g.spec_row(y)[x] == g.cell_seq()[y * w + x]);
        }
    }
}

/// A row-major index stays inside the buffer: `y * w + x < w * h` whenever
/// `x < w` and `y < h`.
pub(crate) proof fn lemma_row_major_index_bound(x: int, y: int, w: int, h: int)
    requires
        0 <= x < w,
        0 <= y < h,
    ensures
        0 <= y * w + x < w * h,
{
    assert(0 <= y * w + x < w * h) by (nonlinear_arith)
        requires
            0 <= x < w,
            0 <= y < h,
    ;
}

/// The row-major index map is injective on in-range coordinates.
pub(crate) proof fn lemma_row_major_index_injective(x1: int, y1: int, x2: int, y2: int, w: int)
    requires
        0 <= x1 < w,
        0 <= x2 < w,
        0 <= y1,
        0 <= y2,
        y1 * w + x1 == y2 * w + x2,
    ensures
        x1 == x2,
        y1 == y2,
{
    assert(x1 == x2 && y1 == y2) by (nonlinear_arith)
        requires
            0 <= x1 < w,
            0 <= x2 < w,
            0 <= y1,
            0 <= y2,
            y1 * w + x1 == y2 * w + x2,
    ;
}

/// A flat index below `w * h` decomposes into in-range coordinates
/// `(i % w, i / w)`.
pub(crate) proof fn lemma_row_major_index_decompose(i: int, w: int, h: int)
    requires
        0 <= i < w * h,
        0 <= w,
        0 <= h,
    ensures
        0 <= i % w < w,
        0 <= i / w < h,
        (i / w) * w + (i % w) == i,
{
    assert(w > 0) by (nonlinear_arith)
        requires
            0 <= i < w * h,
            0 <= w,
    ;
    assert(0 <= i % w < w && 0 <= i / w && (i / w) * w + (i % w) == i) by (nonlinear_arith)
        requires
            0 <= i && w > 0,
    ;
    assert(i / w < h) by (nonlinear_arith)
        requires
            0 <= i < w * h && w > 0 && (i / w) * w + (i % w) == i && 0 <= i % w < w,
    ;
}

/// Dividing a row-major index back out recovers the coordinates.
pub(crate) proof fn lemma_row_major_index_recompose(x: int, y: int, w: int)
    requires
        0 <= x < w,
        0 <= y,
    ensures
        (y * w + x) % w == x,
        (y * w + x) / w == y,
{
    assert((y * w + x) % w == x && (y * w + x) / w == y) by (nonlinear_arith)
        requires
            0 <= x < w,
            0 <= y,
    ;
}

} // verus!
