//! Parsing of a padding expression: a comma-separated list of one to four
//! non-negative integers, expanded the way CSS shorthand is — one value
//! `(t, t, t, t)`, two `(t, r, t, r)`, three `(t, r, b, r)`, four
//! `(t, r, b, l)`.

use crate::text::{lemma_split_commas_from_len, parse_usize, spec_digits_val, spec_is_digit,
    spec_split_commas, spec_trim, split_commas, trim, IntError};
use vstd::prelude::*;

verus! {

/// Describes padding in the order `top`, `right`, `bottom`, `left`.
#[derive(PartialEq, Eq, Structural, Clone, Copy, Debug)]
pub struct Padding {
    pub top: usize,
    pub right: usize,
    pub bottom: usize,
    pub left: usize,
}

/// Why a padding expression could not be read.
#[derive(PartialEq, Eq, Structural, Clone, Copy, Debug)]
pub enum ParseError {
    /// More than four comma-separated parts.
    TooManyParts,
    /// A part was not a plain non-negative integer.
    InvalidPart(IntError),
}

/// What reading one part yields: the part is trimmed and must then be a
/// non-empty string of decimal digits whose value fits in a `usize`.
pub open spec fn spec_part_val(p: Seq<char>) -> Result<int, IntError> {
    let t = spec_trim(p);
    if t.len() == 0 {
        Err(IntError::Empty)
    } else if exists|j: int| 0 <= j < t.len() && !spec_is_digit(t[j]) {
        Err(IntError::InvalidDigit)
    } else if spec_digits_val(t) > usize::MAX {
        Err(IntError::Overflow)
    } else {
        Ok(spec_digits_val(t))
    }
}

/// What reading a whole padding expression yields: the comma-separated parts
/// are read in order; the first unreadable part among the first four is the
/// error; more than four parts is an error after that; the present values are
/// expanded CSS-style to `(top, right, bottom, left)`.
pub open spec fn spec_parse_padding(s: Seq<char>) -> Result<(int, int, int, int), ParseError> {
    let parts = spec_split_commas(s);
    match spec_part_val(parts[0]) {
        Err(e) => Err(ParseError::InvalidPart(e)),
        Ok(top) => {
            let right = if parts.len() > 1 {
                spec_part_val(parts[1])
            } else {
                Ok(top)
            };
            match right {
                Err(e) => Err(ParseError::InvalidPart(e)),
                Ok(right) => {
                    let bottom = if parts.len() > 2 {
                        spec_part_val(parts[2])
                    } else {
                        Ok(top)
                    };
                    match bottom {
                        Err(e) => Err(ParseError::InvalidPart(e)),
                        Ok(bottom) => {
                            let left = if parts.len() > 3 {
                                spec_part_val(parts[3])
                            } else {
                                Ok(right)
                            };
                            match left {
                                Err(e) => Err(ParseError::InvalidPart(e)),
                                Ok(left) => {
                                    if parts.len() > 4 {
                                        Err(ParseError::TooManyParts)
                                    } else {
                                        Ok((top, right, bottom, left))
                                    }
                                },
                            }
                        },
                    }
                },
            }
        },
    }
}

/// Reads one trimmed part as a non-negative integer.
pub(crate) fn parse_part(p: &str) -> (r: Result<usize, IntError>)
    ensures
        match spec_part_val(p@) {
            Ok(v) => r == Ok::<usize, IntError>(v as usize),
            Err(e) => r == Err::<usize, IntError>(e),
        },
{
    parse_usize(trim(p))
}

impl Padding {
    /// Constructs a new instance of the padding description.
    pub fn new(top: usize, right: usize, bottom: usize, left: usize) -> (p: Padding)
        ensures
            p == (Padding { top, right, bottom, left }),
    {
        Padding { top, right, bottom, left }
    }

    /// Reads a CSS-style `top[,right[,bottom[,left]]]` expression.
    pub fn from_str(s: &str) -> (r: Result<Padding, ParseError>)
        ensures
            match spec_parse_padding(s@) {
                Ok(t) => r == Ok::<Padding, ParseError>(
                    Padding {
                        top: t.0 as usize,
                        right: t.1 as usize,
                        bottom: t.2 as usize,
                        left: t.3 as usize,
                    },
                ),
                Err(e) => r == Err::<Padding, ParseError>(e),
            },
    {
        let parts = split_commas(s);
        proof {
            lemma_split_commas_from_len(Seq::empty(), s@);
            assert(parts@.len() == parts.deep_view().len());
        }
        let top = match parse_part(parts[0].as_str()) {
            Ok(v) => v,
            Err(e) => {
                return Err(ParseError::InvalidPart(e));
            },
        };
        let right = if parts.len() > 1 {
            match parse_part(parts[1].as_str()) {
                Ok(v) => v,
                Err(e) => {
                    return Err(ParseError::InvalidPart(e));
                },
            }
        } else {
            top
        };
        let bottom = if parts.len() > 2 {
            match parse_part(parts[2].as_str()) {
                Ok(v) => v,
                Err(e) => {
                    return Err(ParseError::InvalidPart(e));
                },
            }
        } else {
            top
        };
        let left = if parts.len() > 3 {
            match parse_part(parts[3].as_str()) {
                Ok(v) => v,
                Err(e) => {
                    return Err(ParseError::InvalidPart(e));
                },
            }
        } else {
            right
        };
        if parts.len() > 4 {
            return Err(ParseError::TooManyParts);
        }
        Ok(Padding { top, right, bottom, left })
    }
}

} // verus!
