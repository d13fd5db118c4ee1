//! Parsing of the bare plaintext pattern notation, where no header is
//! required: every line starting with `!` joins the comment, wherever it
//! stands, and all other non-blank lines form the body.

use crate::grid::{lemma_flatten_row, Cell, Grid};
use crate::plaintext::{spec_after, spec_body_row};
use crate::text::{
    push_char, spec_lines, spec_trim, spec_trim_start, split_lines, trim, trim_start,
};
use vstd::prelude::*;
use vstd::string::StringExecFns;

verus! {

/// The contents of a bare plaintext pattern file: its comment lines joined by
/// `'\n'`, and the parsed grid.
#[derive(Debug)]
pub struct PlainText {
    pub comment: String,
    pub grid: Grid,
}

/// Why a bare plaintext pattern could not be read.
#[derive(PartialEq, Eq, Structural, Clone, Copy, Debug)]
pub enum ParseError {
    /// The body held an invalid character or a row of the wrong width.
    Invalid,
}

/// What reading the lines yields, with the comment, the fixed width (0 while
/// no row was read) and the rows read so far: blank lines are skipped, `!`
/// lines join the comment, and every other line is trimmed and must spell a
/// row of `'O'` and `'.'` cells of the first row's length.
pub open spec fn spec_simple(
    lines: Seq<Seq<char>>,
    comment: Seq<char>,
    width: int,
    acc: Seq<Seq<Cell>>,
) -> Result<(Seq<char>, int, Seq<Seq<Cell>>), ParseError>
    decreases lines.len(),
{
    if lines.len() == 0 {
        Ok((comment, width, acc))
    } else {
        let l = spec_trim_start(lines[0]);
        if l.len() == 0 {
            spec_simple(lines.drop_first(), comment, width, acc)
        } else if l[0] == '!' {
            let part = spec_trim(spec_after(l, 1));
            let comment2 = if comment.len() == 0 {
                part
            } else {
                comment + seq!['\n'] + part
            };
            spec_simple(lines.drop_first(), comment2, width, acc)
        } else {
            match spec_body_row(spec_trim(l)) {
                None => Err(ParseError::Invalid),
                Some(row) => {
                    if acc.len() == 0 {
                        spec_simple(lines.drop_first(), comment, row.len() as int, acc.push(row))
                    } else if row.len() != width {
                        Err(ParseError::Invalid)
                    } else {
                        spec_simple(lines.drop_first(), comment, width, acc.push(row))
                    }
                },
            }
        }
    }
}

/// What reading a whole bare plaintext pattern yields.
pub open spec fn spec_parse_simple(s: Seq<char>) -> Result<
    (Seq<char>, int, Seq<Seq<Cell>>),
    ParseError,
> {
    spec_simple(spec_lines(s), Seq::empty(), 0, Seq::empty())
}

/// The suffix of `source` after its first `from` characters, or `None` when
/// the string has no more than `from` characters.
pub fn sub_string_from(source: &str, from: usize) -> (r: Option<&str>)
    ensures
        from < source@.len() ==> (r matches Some(t) && t@ == source@.subrange(
            from as int,
            source@.len() as int,
        )),
        from >= source@.len() ==> r is None,
{
    let len = source.unicode_len();
    if from >= len {
        None
    } else {
        Some(source.substring_char(from, len))
    }
}

/// Parses the bare plaintext pattern format.
///
/// Blank lines are skipped. Every line whose left-trimmed text starts with
/// `!`, wherever it stands, is stripped of the `!`, trimmed and joined to the
/// comment, one line per `!` line. Every other line is trimmed and must spell
/// cells with `'O'` and `'.'` only; the first such row fixes the grid's width
/// and every later row must match it.
pub fn parse_plaintext(input: &str) -> (r: Result<PlainText, ParseError>)
    ensures
        match spec_parse_simple(input@) {
            Ok(t) => r matches Ok(pt) && {
                &&& pt.comment@ == t.0
                &&& pt.grid.wf()
                &&& pt.grid.spec_width() == t.1
                &&& pt.grid.spec_height() == t.2.len()
                &&& pt.grid.cell_seq() == t.2.flatten()
                &&& forall|y: int| 0 <= y < t.2.len() ==> pt.grid.spec_row(y) == t.2[y]
            },
            Err(e) => r matches Err(e2) && e2 == e,
        },
{
    broadcast use Seq::lemma_flatten_push;

    let lines = split_lines(input);
    let ghost ls = lines.deep_view();
    let ghost target = spec_parse_simple(input@);
    let mut comment = String::new();
    let mut cells: Vec<Cell> = Vec::new();
    let mut width: usize = 0;
    let mut height: usize = 0;
    let ghost mut rows: Seq<Seq<Cell>> = Seq::empty();
    let mut li: usize = 0;
    proof {
        assert(ls.subrange(0, ls.len() as int) =~= ls);
    }
    while li < lines.len()
        invariant
            ls == lines.deep_view(),
            ls.len() == lines@.len(),
            li <= ls.len(),
            target == spec_parse_simple(input@),
            target == spec_simple(
                ls.subrange(li as int, ls.len() as int),
                comment@,
                width as int,
                rows,
            ),
            cells@ == rows.flatten(),
            rows.len() == height,
            height <= li,
            rows.len() == 0 ==> width == 0,
            forall|i: int| 0 <= i < rows.len() ==> (#[trigger] rows[i]).len() == width,
            cells@.len() == height * width,
        decreases ls.len() - li,
    {
        let ghost rest_lines = ls.subrange(li as int, ls.len() as int);
        proof {
            assert(ls[li as int] == lines@[li as int]@);
            assert(rest_lines[0] == ls[li as int]);
            assert(rest_lines.drop_first() =~= ls.subrange(li + 1, ls.len() as int));
        }
        let l = trim_start(lines[li].as_str());
        if l.is_empty() {
        } else if l.get_char(0) == '!' {
            let ghost old_comment = comment@;
            if !comment.as_str().is_empty() {
                push_char(&mut comment, '\n');
            }
            let rest = match sub_string_from(l, 1) {
                Some(t) => t,
                None => "",
            };
            proof {
                reveal_strlit("");
                assert(rest@ == spec_after(l@, 1));
            }
            comment.append(trim(rest));
            proof {
                if old_comment.len() == 0 {
                    assert(comment@ =~= spec_trim(spec_after(l@, 1)));
                } else {
                    assert(comment@ =~= old_comment + seq!['\n'] + spec_trim(spec_after(l@, 1)));
                }
            }
        } else {
            let t = trim(l);
            let tlen = t.unicode_len();
            let mut row: Vec<Cell> = Vec::new();
            let mut j: usize = 0;
            proof {
                assert(t@.subrange(0, 0) =~= Seq::<char>::empty());
            }
            while j < tlen
                invariant
                    target == spec_parse_simple(input@),
                    li < ls.len(),
                    rest_lines == ls.subrange(li as int, ls.len() as int),
                    spec_trim_start(rest_lines[0]).len() > 0,
                    spec_trim_start(rest_lines[0])[0] != '!',
                    t@ == spec_trim(spec_trim_start(rest_lines[0])),
                    target == spec_simple(rest_lines, comment@, width as int, rows),
                    tlen == t@.len(),
                    j <= tlen,
                    spec_body_row(t@.subrange(0, j as int)) == Some(row@),
                decreases tlen - j,
            {
                let c = t.get_char(j);
                proof {
                    assert(t@.subrange(0, j + 1).drop_last() =~= t@.subrange(0, j as int));
                    assert(t@.subrange(0, j + 1).last() == c);
                }
                if c == 'O' {
                    row.push(Cell::Live);
                } else if c == '.' {
                    row.push(Cell::Dead);
                } else {
                    proof {
                        crate::plaintext::lemma_body_row_bad(t@, j as int);
                        assert(spec_simple(rest_lines, comment@, width as int, rows) == Err::<
                            (Seq<char>, int, Seq<Seq<Cell>>),
                            ParseError,
                        >(ParseError::Invalid));
                    }
                    return Err(ParseError::Invalid);
                }
                j += 1;
            }
            proof {
                assert(t@.subrange(0, tlen as int) =~= t@);
                assert(spec_body_row(t@) == Some(row@));
            }
            if height == 0 {
                width = row.len();
                height = 1;
                let ghost old_rows = rows;
                let ghost row_view = row@;
                proof {
                    rows = rows.push(row@);
                    old_rows.lemma_flatten_push(row@);
                    assert(old_rows =~= Seq::<Seq<Cell>>::empty());
                    assert(rows.flatten() =~= old_rows.flatten() + row@);
                }
                cells.append(&mut row);
                proof {
                    assert(cells@.len() == row_view.len());
                    assert(cells@.len() == height * width) by (nonlinear_arith)
                        requires
                            height == 1 && cells@.len() == width,
                    ;
                }
            } else if row.len() != width {
                proof {
                    assert(spec_simple(rest_lines, comment@, width as int, rows) == Err::<
                        (Seq<char>, int, Seq<Seq<Cell>>),
                        ParseError,
                    >(ParseError::Invalid));
                }
                return Err(ParseError::Invalid);
            } else {
                let ghost old_rows = rows;
                proof {
                    rows = rows.push(row@);
                    old_rows.lemma_flatten_push(row@);
                    assert(rows.flatten() =~= old_rows.flatten() + row@);
                }
                cells.append(&mut row);
                proof {
                    assert(cells@.len() == (height + 1) * width) by (nonlinear_arith)
                        requires
                            cells@.len() == height * width + width,
                    ;
                }
                height = height + 1;
            }
        }
        li += 1;
    }
    proof {
        assert(ls.subrange(ls.len() as int, ls.len() as int) =~= Seq::<Seq<char>>::empty());
        assert(height * width == width * height) by (nonlinear_arith);
    }
    let g = Grid::from_raw(width, height, cells);
    proof {
        assert forall|y: int| 0 <= y < rows.len() implies g.spec_row(y) == rows[y] by {
            lemma_flatten_row(rows, width as int, y);
            assert(0 <= y * width && y * width + width <= rows.len() * width)
                by (nonlinear_arith)
                requires
                    0 <= y < rows.len() && width >= 0,
            ;
            assert(g.spec_row(y) =~= rows[y]);
        }
    }
    Ok(PlainText { comment, grid: g })
}

} // verus!
