//! Parsing of the plaintext pattern notation with a header block: a first
//! `!Name:` line, further `!` lines collected as a comment, an optional
//! `!Padding:` line, and a body of `'O'`/`'.'` rows.
//!
//! # Optional padding syntax
//!
//! ```text
//! !Name: Example
//! !Padding: 5,10,5
//! !
//! .O.
//! O.O
//! .O.
//! ```
//!
//! The padding line asks for the given number of dead rows and columns around
//! the parsed body, expanded CSS-style: here 5 above, 10 right, 5 below and
//! 10 left.

use crate::grid::{Cell, Grid};
use crate::padding::spec_parse_padding;
use crate::text::{
    has_prefix, push_char, spec_has_prefix, spec_lines, spec_trim, split_lines, trim,
};
use vstd::prelude::*;
use vstd::string::StringExecFns;

verus! {

/// The contents of a plaintext pattern file: its name, its comment lines
/// joined by `'\n'`, and the parsed (and possibly padded) grid.
#[derive(Debug)]
pub struct PlainText {
    pub name: String,
    pub comment: String,
    pub data: Grid,
}

/// Describes padding in the order `top`, `right`, `bottom`, `left`.
#[derive(PartialEq, Eq, Structural, Clone, Copy, Debug)]
pub struct Padding {
    pub top: usize,
    pub right: usize,
    pub bottom: usize,
    pub left: usize,
}

impl Padding {
    /// Constructs a new instance of the padding description.
    pub fn new(top: usize, right: usize, bottom: usize, left: usize) -> (p: Padding)
        ensures
            p == (Padding { top, right, bottom, left }),
    {
        Padding { top, right, bottom, left }
    }

    /// Reads a CSS-style `top[,right[,bottom[,left]]]` expression, reporting
    /// any failure as a bare error.
    pub fn from_str(s: &str) -> (r: Result<Padding, ()>)
        ensures
            match spec_parse_padding(s@) {
                Ok(t) => r == Ok::<Padding, ()>(
                    Padding {
                        top: t.0 as usize,
                        right: t.1 as usize,
                        bottom: t.2 as usize,
                        left: t.3 as usize,
                    },
                ),
                Err(_) => r is Err,
            },
    {
        match crate::padding::Padding::from_str(s) {
            Ok(p) => Ok(Padding { top: p.top, right: p.right, bottom: p.bottom, left: p.left }),
            Err(_) => Err(()),
        }
    }
}

/// Why a plaintext pattern could not be read.
#[derive(PartialEq, Eq, Structural, Clone, Copy, Debug)]
pub enum Error {
    /// The first line did not start with `!Name:`.
    NameLineMissing,
    /// The body held an invalid character, a row of the wrong width, or asked
    /// for a padded grid too large for this machine.
    Invalid,
}

/// The suffix of `s` after its first `k` characters, and empty when `s` has
/// no more than `k` characters.
pub open spec fn spec_after(s: Seq<char>, k: int) -> Seq<char> {
    if s.len() > k {
        s.subrange(k, s.len() as int)
    } else {
        Seq::empty()
    }
}

/// The cells spelled by a trimmed body line, or `None` if any character is
/// neither `'O'` nor `'.'`.
pub open spec fn spec_body_row(t: Seq<char>) -> Option<Seq<Cell>>
    decreases t.len(),
{
    if t.len() == 0 {
        Some(Seq::empty())
    } else {
        match spec_body_row(t.drop_last()) {
            None => None,
            Some(rest) => if t.last() == 'O' {
                Some(rest.push(Cell::Live))
            } else if t.last() == '.' {
                Some(rest.push(Cell::Dead))
            } else {
                None
            },
        }
    }
}

/// One character that is neither `'O'` nor `'.'` spoils a whole body line.
pub(crate) proof fn lemma_body_row_bad(t: Seq<char>, j: int)
    requires
        0 <= j < t.len(),
        t[j] != 'O',
        t[j] != '.',
    ensures
        spec_body_row(t) is None,
    decreases t.len(),
{
    if j < t.len() - 1 {
        lemma_body_row_bad(t.drop_last(), j);
    }
}

/// What reading the body lines yields, with the rows in `acc` already read
/// and the width fixed by the first row (0 while `acc` is empty): each line
/// is trimmed and must spell only `'O'` and `'.'`; every row after the first
/// must have the first row's length; every row, the empty one included, is
/// kept.
pub open spec fn spec_pt_body(lines: Seq<Seq<char>>, width: int, acc: Seq<Seq<Cell>>) -> Result<
    (int, Seq<Seq<Cell>>),
    Error,
>
    decreases lines.len(),
{
    if lines.len() == 0 {
        Ok((width, acc))
    } else {
        match spec_body_row(spec_trim(lines[0])) {
            None => Err(Error::Invalid),
            Some(row) => {
                if acc.len() == 0 {
                    spec_pt_body(lines.drop_first(), row.len() as int, acc.push(row))
                } else if row.len() != width {
                    Err(Error::Invalid)
                } else {
                    spec_pt_body(lines.drop_first(), width, acc.push(row))
                }
            },
        }
    }
}

/// What reading the lines after the name line yields: leading `!` lines form
/// the header — a readable `!Padding:` line replaces the padding, an
/// unreadable one is ignored, and every other `!` line joins the comment —
/// and the first line without `!`, if any, starts the body.
pub open spec fn spec_pt_header(
    lines: Seq<Seq<char>>,
    comment: Seq<char>,
    padding: Padding,
) -> Result<(Seq<char>, Padding, int, Seq<Seq<Cell>>), Error>
    decreases lines.len(),
{
    if lines.len() == 0 {
        Ok((comment, padding, 0, Seq::empty()))
    } else if spec_has_prefix(lines[0], "!"@) {
        if spec_has_prefix(lines[0], "!Padding:"@) {
            let padding2 = match spec_parse_padding(spec_trim(spec_after(lines[0], 9))) {
                Ok(t) => Padding {
                    top: t.0 as usize,
                    right: t.1 as usize,
                    bottom: t.2 as usize,
                    left: t.3 as usize,
                },
                Err(_) => padding,
            };
            spec_pt_header(lines.drop_first(), comment, padding2)
        } else {
            let part = spec_trim(spec_after(lines[0], 1));
            let comment2 = if comment.len() == 0 {
                part
            } else {
                comment + seq!['\n'] + part
            };
            spec_pt_header(lines.drop_first(), comment2, padding)
        }
    } else {
        match spec_pt_body(lines, 0, Seq::empty()) {
            Ok((width, rows)) => Ok((comment, padding, width, rows)),
            Err(e) => Err(e),
        }
    }
}

/// The width of a grid padded left and right.
pub open spec fn spec_padded_width(width: int, p: Padding) -> int {
    width + p.left + p.right
}

/// The height of a grid padded above and below.
pub open spec fn spec_padded_height(height: int, p: Padding) -> int {
    height + p.top + p.bottom
}

/// The cell at `(x, y)` of the padded grid: the parsed rows sit at offset
/// `(left, top)` and every cell around them is dead.
pub open spec fn spec_padded_cell(
    rows: Seq<Seq<Cell>>,
    width: int,
    p: Padding,
    x: int,
    y: int,
) -> Cell {
    if p.left <= x < p.left + width && p.top <= y < p.top + rows.len() {
        rows[y - p.top][x - p.left]
    } else {
        Cell::Dead
    }
}

/// What reading a whole plaintext pattern yields: the trimmed name after
/// `!Name:` on the first line, the comment, the padding in force, and the
/// body's width and rows — or the first error met. An input whose padded
/// dimensions cannot fit in this machine's `usize` is also an error.
pub open spec fn spec_parse_plaintext(s: Seq<char>) -> Result<
    (Seq<char>, Seq<char>, Padding, int, Seq<Seq<Cell>>),
    Error,
> {
    let lines = spec_lines(s);
    if lines.len() == 0 {
        Ok(
            (
                Seq::empty(),
                Seq::empty(),
                Padding { top: 0, right: 0, bottom: 0, left: 0 },
                0,
                Seq::empty(),
            ),
        )
    } else if !spec_has_prefix(lines[0], "!Name:"@) {
        Err(Error::NameLineMissing)
    } else {
        match spec_pt_header(
            lines.drop_first(),
            Seq::empty(),
            Padding { top: 0, right: 0, bottom: 0, left: 0 },
        ) {
            Err(e) => Err(e),
            Ok((comment, padding, width, rows)) => {
                if spec_padded_width(width, padding) > usize::MAX || spec_padded_height(
                    rows.len() as int,
                    padding,
                ) > usize::MAX || spec_padded_width(width, padding) * spec_padded_height(
                    rows.len() as int,
                    padding,
                ) > usize::MAX {
                    Err(Error::Invalid)
                } else {
                    Ok((spec_trim(spec_after(lines[0], 6)), comment, padding, width, rows))
                }
            },
        }
    }
}

/// The suffix of `source` after its first `from` characters, or `None` when
/// the string has no more than `from` characters.
pub fn sub_string_from(source: &str, from: usize) -> (r: Option<&str>)
    ensures
        from < source@.len() ==> (r matches Some(t) && t@ == source@.subrange(
            from as int,
            source@.len() as int,
        )),
        from >= source@.len() ==> r is None,
{
    let len = source.unicode_len();
    if from >= len {
        None
    } else {
        Some(source.substring_char(from, len))
    }
}

/// Builds the final grid from the parsed rows: the rows sit at offset
/// `(left, top)` inside a grid padded with dead cells on all four sides.
pub fn pad_and_create_grid(rows: Vec<Vec<Cell>>, width: usize, p: Padding) -> (g: Grid)
    requires
        forall|i: int|
            0 <= i < rows.deep_view().len() ==> (#[trigger] rows.deep_view()[i]).len() == width,
        width + p.left + p.right <= usize::MAX,
        rows.deep_view().len() + p.top + p.bottom <= usize::MAX,
        (width + p.left + p.right) * (rows.deep_view().len() + p.top + p.bottom) <= usize::MAX,
    ensures
        g.wf(),
        g.spec_width() == spec_padded_width(width as int, p),
        g.spec_height() == spec_padded_height(rows.deep_view().len() as int, p),
        forall|x: int, y: int|
            0 <= x < g.spec_width() && 0 <= y < g.spec_height() ==> g.spec_cell(x, y)
                == spec_padded_cell(rows.deep_view(), width as int, p, x, y),
{
    let total_w = width + p.left + p.right;
    let total_h = rows.len() + p.top + p.bottom;
    let ghost rs = rows.deep_view();
    let mut cells: Vec<Cell> = Vec::new();
    let mut gy: usize = 0;
    while gy < total_h
        invariant
            forall|i: int| 0 <= i < rs.len() ==> (#[trigger] rs[i]).len() == width,
            rs == rows.deep_view(),
            rs.len() == rows@.len(),
            total_w == width + p.left + p.right,
            total_h == rs.len() + p.top + p.bottom,
            total_w * total_h <= usize::MAX,
            gy <= total_h,
            cells@.len() == gy * total_w,
            forall|k: int|
                0 <= k < cells@.len() ==> #[trigger] cells@[k] == spec_padded_cell(
                    rs,
                    width as int,
                    p,
                    k % (total_w as int),
                    k / (total_w as int),
                ),
        decreases total_h - gy,
    {
        let mut gx: usize = 0;
        while gx < total_w
            invariant
                forall|i: int| 0 <= i < rs.len() ==> (#[trigger] rs[i]).len() == width,
                rs == rows.deep_view(),
                rs.len() == rows@.len(),
                total_w == width + p.left + p.right,
                total_h == rs.len() + p.top + p.bottom,
                total_w * total_h <= usize::MAX,
                gy < total_h,
                gx <= total_w,
                cells@.len() == gy * total_w + gx,
                forall|k: int|
                    0 <= k < cells@.len() ==> #[trigger] cells@[k] == spec_padded_cell(
                        rs,
                        width as int,
                        p,
                        k % (total_w as int),
                        k / (total_w as int),
                    ),
            decreases total_w - gx,
        {
            proof {
                crate::grid::lemma_row_major_index_bound(
                    gx as int,
                    gy as int,
                    total_w as int,
                    total_h as int,
                );
                crate::grid::lemma_row_major_index_recompose(gx as int, gy as int, total_w as int);
            }
            let c = if p.left <= gx && gx < p.left + width && p.top <= gy && gy < p.top
                + rows.len() {
                proof {
                    assert(rs[gy - p.top] == rows@[gy - p.top].deep_view());
                }
                rows[gy - p.top][gx - p.left]
            } else {
                Cell::Dead
            };
            cells.push(c);
            gx += 1;
        }
        gy += 1;
        proof {
            assert((gy - 1) * total_w + total_w == gy * total_w) by (nonlinear_arith);
        }
    }
    proof {
        assert(total_h * total_w == total_w * total_h) by (nonlinear_arith);
    }
    let g = Grid::from_raw(total_w, total_h, cells);
    proof {
        assert forall|x: int, y: int|
            0 <= x < g.spec_width() && 0 <= y < g.spec_height() implies g.spec_cell(x, y)
            == spec_padded_cell(rs, width as int, p, x, y) by {
            crate::grid::lemma_row_major_index_bound(x, y, total_w as int, total_h as int);
            crate::grid::lemma_row_major_index_recompose(x, y, total_w as int);
        }
    }
    g
}

/// Parses the plaintext pattern format.
///
/// The first line must start with `!Name:`; the trimmed rest of that line is
/// the pattern's name. Further leading `!` lines are header lines: a readable
/// `!Padding:` expression replaces the padding in force (an unreadable one is
/// ignored), and every other `!` line, stripped of its `!` and trimmed, joins
/// the comment, one line per header line. All remaining lines form the body:
/// each is trimmed and must spell cells with `'O'` and `'.'` only, and every
/// row must have the first row's length. The returned grid is the body padded
/// with dead cells as the padding in force asks.
pub fn parse_plaintext(input: &str) -> (r: Result<PlainText, Error>)
    ensures
        match spec_parse_plaintext(input@) {
            Ok(t) => r matches Ok(pt) && {
                &&& pt.name@ == t.0
                &&& pt.comment@ == t.1
                &&& pt.data.wf()
                &&& pt.data.spec_width() == spec_padded_width(t.3, t.2)
                &&& pt.data.spec_height() == spec_padded_height(t.4.len() as int, t.2)
                &&& forall|x: int, y: int|
                    0 <= x < pt.data.spec_width() && 0 <= y < pt.data.spec_height()
                        ==> pt.data.spec_cell(x, y) == spec_padded_cell(t.4, t.3, t.2, x, y)
            },
            Err(e) => r matches Err(e2) && e2 == e,
        },
{
    let lines = split_lines(input);
    let ghost ls = lines.deep_view();
    if lines.len() == 0 {
        proof {
            assert(ls.len() == lines@.len());
        }
        let empty_rows: Vec<Vec<Cell>> = Vec::new();
        proof {
            assert(empty_rows.deep_view() =~= Seq::<Seq<Cell>>::empty());
        }
        let g = pad_and_create_grid(empty_rows, 0, Padding::new(0, 0, 0, 0));
        return Ok(PlainText { name: String::new(), comment: String::new(), data: g });
    }
    proof {
        assert(ls.len() == lines@.len());
        assert(ls[0] == lines@[0]@);
    }
    let first = lines[0].as_str();
    if !has_prefix(first, "!Name:") {
        return Err(Error::NameLineMissing);
    }
    let name_rest = match sub_string_from(first, 6) {
        Some(t) => t,
        None => "",
    };
    proof {
        reveal_strlit("");
        assert(name_rest@ == spec_after(ls[0], 6));
    }
    let name = String::from_str(trim(name_rest));
    let mut comment = String::new();
    let mut padding = Padding::new(0, 0, 0, 0);
    let mut li: usize = 1;
    let ghost target = spec_pt_header(
        ls.drop_first(),
        Seq::empty(),
        Padding { top: 0, right: 0, bottom: 0, left: 0 },
    );
    proof {
        assert(ls.drop_first() =~= ls.subrange(1, ls.len() as int));
    }
    loop
        invariant
            ls == lines.deep_view(),
            ls.len() == lines@.len(),
            1 <= li <= ls.len(),
            target == spec_pt_header(ls.subrange(li as int, ls.len() as int), comment@, padding),
        ensures
            ls == lines.deep_view(),
            ls.len() == lines@.len(),
            1 <= li <= ls.len(),
            target == spec_pt_header(ls.subrange(li as int, ls.len() as int), comment@, padding),
            li < ls.len() ==> !spec_has_prefix(ls[li as int], "!"@),
        decreases ls.len() - li,
    {
        if li >= lines.len() {
            break;
        }
        let line = lines[li].as_str();
        proof {
            assert(ls[li as int] == lines@[li as int]@);
            assert(ls.subrange(li as int, ls.len() as int)[0] == ls[li as int]);
            assert(ls.subrange(li as int, ls.len() as int).drop_first() =~= ls.subrange(
                li + 1,
                ls.len() as int,
            ));
        }
        if !has_prefix(line, "!") {
            break;
        }
        if has_prefix(line, "!Padding:") {
            let rest = match sub_string_from(line, 9) {
                Some(t) => t,
                None => "",
            };
            proof {
                reveal_strlit("");
                assert(rest@ == spec_after(ls[li as int], 9));
            }
            match Padding::from_str(trim(rest)) {
                Ok(p) => {
                    padding = p;
                },
                Err(_) => {},
            }
        } else {
            let ghost old_comment = comment@;
            if !comment.as_str().is_empty() {
                push_char(&mut comment, '\n');
            }
            let rest = match sub_string_from(line, 1) {
                Some(t) => t,
                None => "",
            };
            proof {
                reveal_strlit("");
                assert(rest@ == spec_after(ls[li as int], 1));
            }
            comment.append(trim(rest));
            proof {
                if old_comment.len() == 0 {
                    assert(comment@ =~= spec_trim(spec_after(ls[li as int], 1)));
                } else {
                    assert(comment@ =~= old_comment + seq!['\n'] + spec_trim(
                        spec_after(ls[li as int], 1),
                    ));
                }
            }
        }
        li += 1;
    }
    // Body phase. Whether the header ended at a body line or at the end of
    // the input, what remains of the target is the body fold.
    let mut rows: Vec<Vec<Cell>> = Vec::new();
    let mut width: usize = 0;
    proof {
        if li >= ls.len() {
            assert(ls.subrange(li as int, ls.len() as int) =~= Seq::<Seq<char>>::empty());
        } else {
            assert(ls.subrange(li as int, ls.len() as int)[0] == ls[li as int]);
        }
        assert(rows.deep_view() =~= Seq::<Seq<Cell>>::empty());
        assert(target == (match spec_pt_body(
            ls.subrange(li as int, ls.len() as int),
            width as int,
            rows.deep_view(),
        ) {
            Ok((w2, rows2)) => Ok::<(Seq<char>, Padding, int, Seq<Seq<Cell>>), Error>(
                (comment@, padding, w2, rows2),
            ),
            Err(e) => Err(e),
        }));
    }
    while li < lines.len()
        invariant
            spec_lines(input@) == ls,
            ls == lines.deep_view(),
            ls.len() == lines@.len(),
            1 <= li <= ls.len(),
            spec_has_prefix(ls[0], "!Name:"@),
            target == spec_pt_header(
                ls.drop_first(),
                Seq::empty(),
                Padding { top: 0, right: 0, bottom: 0, left: 0 },
            ),
            target == (match spec_pt_body(
                ls.subrange(li as int, ls.len() as int),
                width as int,
                rows.deep_view(),
            ) {
                Ok((w2, rows2)) => Ok::<(Seq<char>, Padding, int, Seq<Seq<Cell>>), Error>(
                    (comment@, padding, w2, rows2),
                ),
                Err(e) => Err(e),
            }),
            rows.deep_view().len() == 0 ==> width == 0,
            forall|i: int|
                0 <= i < rows.deep_view().len() ==> (#[trigger] rows.deep_view()[i]).len()
                    == width,
        decreases ls.len() - li,
    {
        let ghost rest_lines = ls.subrange(li as int, ls.len() as int);
        proof {
            assert(ls[li as int] == lines@[li as int]@);
            assert(rest_lines[0] == ls[li as int]);
            assert(rest_lines.drop_first() =~= ls.subrange(li + 1, ls.len() as int));
        }
        let t = trim(lines[li].as_str());
        let tlen = t.unicode_len();
        let mut row: Vec<Cell> = Vec::new();
        let mut j: usize = 0;
        proof {
            assert(t@.subrange(0, 0) =~= Seq::<char>::empty());
        }
        while j < tlen
            invariant
                spec_lines(input@) == ls,
                ls.len() >= 1,
                spec_has_prefix(ls[0], "!Name:"@),
                target == spec_pt_header(
                    ls.drop_first(),
                    Seq::empty(),
                    Padding { top: 0, right: 0, bottom: 0, left: 0 },
                ),
                li < ls.len(),
                rest_lines == ls.subrange(li as int, ls.len() as int),
                t@ == spec_trim(ls[li as int]),
                target == (match spec_pt_body(rest_lines, width as int, rows.deep_view()) {
                    Ok((w2, rows2)) => Ok::<(Seq<char>, Padding, int, Seq<Seq<Cell>>), Error>(
                        (comment@, padding, w2, rows2),
                    ),
                    Err(e) => Err(e),
                }),
                tlen == t@.len(),
                j <= tlen,
                spec_body_row(t@.subrange(0, j as int)) == Some(row@),
                forall|i: int| 0 <= i < j ==> t@[i] == 'O' || t@[i] == '.',
            decreases tlen - j,
        {
            let c = t.get_char(j);
            proof {
                assert(t@.subrange(0, j + 1).drop_last() =~= t@.subrange(0, j as int));
                assert(t@.subrange(0, j + 1).last() == c);
            }
            if c == 'O' {
                row.push(Cell::Live);
            } else if c == '.' {
                row.push(Cell::Dead);
            } else {
                proof {
                    lemma_body_row_bad(t@, j as int);
                    assert(rest_lines[0] == ls[li as int]);
                    assert(spec_pt_body(rest_lines, width as int, rows.deep_view()) == Err::<
                        (int, Seq<Seq<Cell>>),
                        Error,
                    >(Error::Invalid));
                }
                return Err(Error::Invalid);
            }
            j += 1;
        }
        proof {
            assert(t@.subrange(0, tlen as int) =~= t@);
            assert(spec_body_row(t@) == Some(row@));
        }
        let ghost old_rows = rows.deep_view();
        let ghost row_view = row@;
        if rows.len() == 0 {
            width = row.len();
        } else if row.len() != width {
            proof {
                assert(spec_pt_body(rest_lines, width as int, rows.deep_view()) == Err::<
                    (int, Seq<Seq<Cell>>),
                    Error,
                >(Error::Invalid));
            }
            return Err(Error::Invalid);
        }
        rows.push(row);
        proof {
            assert(rows.deep_view() =~~= old_rows.push(row_view));
        }
        li += 1;
    }
    proof {
        assert(ls.subrange(ls.len() as int, ls.len() as int) =~= Seq::<Seq<char>>::empty());
    }
    // Machine limits on the padded dimensions.
    let wl = match width.checked_add(padding.left) {
        Some(v) => v,
        None => {
            return Err(Error::Invalid);
        },
    };
    let total_w = match wl.checked_add(padding.right) {
        Some(v) => v,
        None => {
            return Err(Error::Invalid);
        },
    };
    let ht = match rows.len().checked_add(padding.top) {
        Some(v) => v,
        None => {
            return Err(Error::Invalid);
        },
    };
    let total_h = match ht.checked_add(padding.bottom) {
        Some(v) => v,
        None => {
            return Err(Error::Invalid);
        },
    };
    match total_w.checked_mul(total_h) {
        Some(_) => {},
        None => {
            return Err(Error::Invalid);
        },
    }
    let g = pad_and_create_grid(rows, width, padding);
    Ok(PlainText { name, comment, data: g })
}

/// Law: the padding expression `1,2` reads as one dead row above and below
/// and two dead columns right and left, CSS-style.
pub proof fn lemma_padding_one_two_reads_as_1_2_1_2()
    ensures
        spec_parse_padding("1,2"@) == Ok::<(int, int, int, int), crate::padding::ParseError>(
            (1, 2, 1, 2),
        ),
{
    reveal_strlit("1,2");
    let s = "1,2"@;
    let one = seq!['1'];
    let two = seq!['2'];
    assert(s.len() == 3 && s[0] == '1' && s[1] == ',' && s[2] == '2');

    // The comma split yields the two parts.
    let s1 = s.drop_first();
    let s2 = s1.drop_first();
    let s3 = s2.drop_first();
    assert(s1[0] == ',' && s2[0] == '2');
    assert(s3 =~= Seq::<char>::empty());
    assert(Seq::<char>::empty().push('1') =~= one);
    assert(Seq::<char>::empty().push('2') =~= two);
    assert(crate::text::spec_split_commas_from(two, s3) =~= seq![two]);
    assert(crate::text::spec_split_commas_from(Seq::empty(), s2) =~= seq![two]);
    assert(crate::text::spec_split_commas_from(one, s1) =~= seq![one] + seq![two]);
    assert(crate::text::spec_split_commas(s) =~= seq![one, two]);

    // Each part is a single digit.
    lemma_single_digit_part(one, 1);
    lemma_single_digit_part(two, 2);
    assert(crate::padding::spec_part_val(seq![one, two][0]) == Ok::<int, crate::text::IntError>(1));
    assert(crate::padding::spec_part_val(seq![one, two][1]) == Ok::<int, crate::text::IntError>(2));
}

/// A one-digit part reads as that digit's value.
proof fn lemma_single_digit_part(p: Seq<char>, v: int)
    requires
        p.len() == 1,
        crate::text::spec_is_digit(p[0]),
        crate::text::spec_digit_val(p[0]) == v,
    ensures
        crate::padding::spec_part_val(p) == Ok::<int, crate::text::IntError>(v),
{
    assert(crate::text::spec_trim_start(p) == p);
    assert(crate::text::spec_trim(p) == p);
    assert(p.drop_last() =~= Seq::<char>::empty());
    assert(crate::text::spec_digits_val(Seq::<char>::empty()) == 0);
    assert(p.last() == p[0]);
    assert(crate::text::spec_digits_val(p) == v);
    assert(forall|j: int| 0 <= j < p.len() ==> crate::text::spec_is_digit(p[j]));
}

/// Law: a body of width `w` and height `h` padded under `!Padding: 1,2` —
/// one dead row above and below, two dead columns left and right — comes out
/// `w + 4` wide and `h + 2` high, with the original cells at offset `(2, 1)`
/// and every cell outside that rectangle dead.
pub proof fn lemma_padding_expansion(rows: Seq<Seq<Cell>>, width: int)
    requires
        forall|i: int| 0 <= i < rows.len() ==> (#[trigger] rows[i]).len() == width,
    ensures
        spec_padded_width(width, Padding { top: 1, right: 2, bottom: 1, left: 2 }) == width + 4,
        spec_padded_height(rows.len() as int, Padding { top: 1, right: 2, bottom: 1, left: 2 })
            == rows.len() + 2,
        forall|x: int, y: int|
            0 <= x < width && 0 <= y < rows.len() ==> spec_padded_cell(
                rows,
                width,
                Padding { top: 1, right: 2, bottom: 1, left: 2 },
                x + 2,
                y + 1,
            ) == rows[y][x],
        forall|x: int, y: int|
            !(2 <= x < 2 + width && 1 <= y < 1 + rows.len()) ==> spec_padded_cell(
                rows,
                width,
                Padding { top: 1, right: 2, bottom: 1, left: 2 },
                x,
                y,
            ) == Cell::Dead,
{
}

} // verus!
