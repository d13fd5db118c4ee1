//! A read-only rectangular window over a [`Grid`]'s cells.

use crate::grid::{spec_cell_char, Cell, Grid};
use crate::text::{push_char, spec_digits_of, usize_to_string};
use vstd::prelude::*;
use vstd::string::StringExecFns;

verus! {

/// A borrowed, read-only view of the rectangle `[start, end)` (in both axes)
/// of a grid.
///
/// Two views are equal exactly when their flattened cell sequences are equal,
/// whatever the rectangles' shapes.
pub struct GridView<'g> {
    grid: &'g Grid,
    start: (usize, usize),
    end: (usize, usize),
}

impl<'g> GridView<'g> {
    /// The grid under the view, as seen by specifications.
    pub closed spec fn spec_grid(&self) -> Grid {
        *self.grid
    }

    /// The rectangle's inclusive corner, as seen by specifications.
    pub closed spec fn spec_start(&self) -> (usize, usize) {
        self.start
    }

    /// The rectangle's exclusive corner, as seen by specifications.
    pub closed spec fn spec_end(&self) -> (usize, usize) {
        self.end
    }

    /// The width of the viewed rectangle.
    pub open spec fn spec_width(&self) -> int {
        self.spec_end().0 - self.spec_start().0
    }

    /// The height of the viewed rectangle.
    pub open spec fn spec_height(&self) -> int {
        self.spec_end().1 - self.spec_start().1
    }

    /// Every view keeps its rectangle inside its well-formed grid.
    #[verifier::type_invariant]
    pub closed spec fn rect_in_grid(&self) -> bool {
        &&& self.spec_grid().wf()
        &&& self.spec_start().0 <= self.spec_end().0 <= self.spec_grid().spec_width()
        &&& self.spec_start().1 <= self.spec_end().1 <= self.spec_grid().spec_height()
    }

    /// The cell of the view at view-relative coordinates `(x, y)`.
    pub open spec fn spec_cell(&self, x: int, y: int) -> Cell {
        self.spec_grid().spec_cell(self.spec_start().0 + x, self.spec_start().1 + y)
    }

    /// The cells inside the rectangle, row by row.
    pub open spec fn spec_cells(&self) -> Seq<Cell> {
        Seq::new(
            (self.spec_width() * self.spec_height()) as nat,
            |k: int| self.spec_cell(k % self.spec_width(), k / self.spec_width()),
        )
    }

    /// The cells inside the rectangle, row by row.
    pub fn cells(&self) -> (r: Vec<Cell>)
        ensures
            r@ == self.spec_cells(),
    {
        proof {
            use_type_invariant(self);
        }
        let w = self.end.0 - self.start.0;
        let h = self.end.1 - self.start.1;
        let mut out: Vec<Cell> = Vec::new();
        let mut y: usize = 0;
        proof {
            assert(self.spec_cells().len() == w * h) by (nonlinear_arith)
                requires
                    w == self.spec_width() && h == self.spec_height(),
            ;
        }
        while y < h
            invariant
                self.rect_in_grid(),
                w == self.spec_width(),
                h == self.spec_height(),
                y <= h,
                out@.len() == y * w,
                forall|k: int|
                    0 <= k < out@.len() ==> #[trigger] out@[k] == self.spec_cells()[k],
                self.spec_cells().len() == w * h,
            decreases h - y,
        {
            let mut x: usize = 0;
            while x < w
                invariant
                    self.rect_in_grid(),
                    w == self.spec_width(),
                    h == self.spec_height(),
                    y < h,
                    x <= w,
                    out@.len() == y * w + x,
                    forall|k: int|
                        0 <= k < out@.len() ==> #[trigger] out@[k] == self.spec_cells()[k],
                    self.spec_cells().len() == w * h,
                decreases w - x,
            {
                proof {
                    crate::grid::lemma_row_major_index_bound(x as int, y as int, w as int, h as int);
                    crate::grid::lemma_row_major_index_recompose(x as int, y as int, w as int);
                }
                let c = self.grid.cell_at(self.start.0 + x, self.start.1 + y);
                out.push(c);
                x += 1;
            }
            y += 1;
            proof {
                assert((y - 1) * w + w == y * w) by (nonlinear_arith);
            }
        }
        proof {
            assert(h * w == w * h) by (nonlinear_arith);
            assert(out@ =~= self.spec_cells());
        }
        out
    }

    /// Renders the rectangle as rows of `'O'` and `'.'`, joined by `'\n'`,
    /// with no trailing line break.
    pub fn render(&self) -> (r: String)
        ensures
            r@ == spec_view_render(self),
    {
        proof {
            use_type_invariant(self);
        }
        let w = self.end.0 - self.start.0;
        let h = self.end.1 - self.start.1;
        let mut out = String::new();
        let mut y: usize = 0;
        while y < h
            invariant
                self.rect_in_grid(),
                w == self.spec_width(),
                h == self.spec_height(),
                y <= h,
                out@ == spec_view_render_rows(self, y as int),
            decreases h - y,
        {
            if y != 0 {
                push_char(&mut out, '\n');
            }
            let ghost prefix = out@;
            let mut x: usize = 0;
            while x < w
                invariant
                    self.rect_in_grid(),
                    w == self.spec_width(),
                    h == self.spec_height(),
                    y < h,
                    x <= w,
                    out@ == prefix + spec_view_render_row(self, y as int).subrange(0, x as int),
                decreases w - x,
            {
                proof {
                    assert(spec_view_render_row(self, y as int).subrange(0, x + 1)
                        =~= spec_view_render_row(self, y as int).subrange(0, x as int).push(
                        spec_cell_char(self.spec_cell(x as int, y as int)),
                    ));
                }
                if self.grid.cell_at(self.start.0 + x, self.start.1 + y).is_live() {
                    push_char(&mut out, 'O');
                } else {
                    push_char(&mut out, '.');
                }
                x += 1;
            }
            proof {
                assert(spec_view_render_row(self, y as int).subrange(0, w as int)
                    =~= spec_view_render_row(self, y as int));
                if y == 0 {
                    assert(prefix =~= Seq::<char>::empty());
                    assert(out@ =~= spec_view_render_rows(self, 1));
                } else {
                    assert(out@ =~= spec_view_render_rows(self, y + 1));
                }
            }
            y += 1;
        }
        out
    }

    /// Renders the view with a `!GridView: (x0, y0)..(x1, y1)` header line in
    /// front.
    pub fn render_debug(&self) -> (r: String)
        ensures
            r@ == spec_view_render_debug(self),
    {
        let mut out = String::from_str("!GridView: ");
        out.append(corner_string(self.start).as_str());
        out.append("..");
        out.append(corner_string(self.end).as_str());
        push_char(&mut out, '\n');
        out.append(self.render().as_str());
        proof {
            assert(out@ =~= spec_view_render_debug(self));
        }
        out
    }
}

/// Row `y` of a view rendered as text: one character per cell.
pub open spec fn spec_view_render_row(v: &GridView<'_>, y: int) -> Seq<char> {
    Seq::new(v.spec_width() as nat, |x: int| spec_cell_char(v.spec_cell(x, y)))
}

/// The first `n` rows of a view rendered as text, joined by `'\n'`.
pub open spec fn spec_view_render_rows(v: &GridView<'_>, n: int) -> Seq<char>
    decreases n,
{
    if n <= 0 {
        Seq::empty()
    } else if n == 1 {
        spec_view_render_row(v, 0)
    } else {
        spec_view_render_rows(v, n - 1) + seq!['\n'] + spec_view_render_row(v, n - 1)
    }
}

/// A whole view rendered as text.
pub open spec fn spec_view_render(v: &GridView<'_>) -> Seq<char> {
    spec_view_render_rows(v, v.spec_height())
}

/// A coordinate pair written the way the debug header shows it: `(x, y)`.
pub open spec fn spec_corner(c: (usize, usize)) -> Seq<char> {
    seq!['('] + spec_digits_of(c.0 as int) + ", "@ + spec_digits_of(c.1 as int) + seq![')']
}

/// A view rendered with its `!GridView: (x0, y0)..(x1, y1)` header.
pub open spec fn spec_view_render_debug(v: &GridView<'_>) -> Seq<char> {
    "!GridView: "@ + spec_corner(v.spec_start()) + ".."@ + spec_corner(v.spec_end()) + seq!['\n']
        + spec_view_render(v)
}

/// Writes a coordinate pair as the debug header shows it.
fn corner_string(c: (usize, usize)) -> (r: String)
    ensures
        r@ == spec_corner(c),
{
    let mut out = String::new();
    push_char(&mut out, '(');
    out.append(usize_to_string(c.0).as_str());
    out.append(", ");
    out.append(usize_to_string(c.1).as_str());
    push_char(&mut out, ')');
    proof {
        assert(out@ =~= spec_corner(c));
    }
    out
}

impl Grid {
    /// A read-only view of the rectangle `[start, end)` of this grid.
    pub fn range<'g>(&'g self, start: (usize, usize), end: (usize, usize)) -> (v: GridView<'g>)
        requires
            self.wf(),
            start.0 <= end.0 <= self.spec_width(),
            start.1 <= end.1 <= self.spec_height(),
        ensures
            v.spec_grid() == *self,
            v.spec_start() == start,
            v.spec_end() == end,
    {
        GridView { grid: self, start, end }
    }
}

impl<'g> PartialEq for GridView<'g> {
    /// Two views are equal exactly when their flattened cell sequences are
    /// equal, element by element, whatever the rectangles' shapes.
    fn eq(&self, other: &GridView<'g>) -> (r: bool) {
        proof {
            use_type_invariant(self);
            use_type_invariant(other);
        }
        let a = self.cells();
        let b = other.cells();
        if a.len() != b.len() {
            return false;
        }
        let mut i: usize = 0;
        while i < a.len()
            invariant
                a@ == self.spec_cells(),
                b@ == other.spec_cells(),
                a@.len() == b@.len(),
                i <= a@.len(),
                forall|j: int| 0 <= j < i ==> a@[j] == b@[j],
            decreases a@.len() - i,
        {
            if a[i] != b[i] {
                return false;
            }
            i += 1;
        }
        proof {
            assert(self.spec_cells() =~= other.spec_cells());
        }
        true
    }
}

impl<'g> vstd::std_specs::cmp::PartialEqSpecImpl for GridView<'g> {
    open spec fn obeys_eq_spec() -> bool {
        true
    }

    open spec fn eq_spec(&self, other: &GridView<'g>) -> bool {
        self.spec_cells() == other.spec_cells()
    }
}

} // verus!
