//! Small verified text utilities shared by the grid and plaintext parsers:
//! line splitting, whitespace trimming, and decimal reading and writing of
//! `usize` values.

use vstd::prelude::*;

verus! {

/// The whitespace characters that the parsers ignore: space, tab, line feed,
/// vertical tab, form feed and carriage return.
pub open spec fn spec_is_ws(c: char) -> bool {
    c == ' ' || c == '\t' || c == '\n' || c == '\u{b}' || c == '\u{c}' || c == '\r'
}

/// Reports whether `c` is one of the whitespace characters the parsers
/// ignore.
pub fn is_ws(c: char) -> (r: bool)
    ensures
        r == spec_is_ws(c),
{
    c == ' ' || c == '\t' || c == '\n' || c == '\u{b}' || c == '\u{c}' || c == '\r'
}

/// The lines produced from `rest` when the characters in `cur` have already
/// been read since the last line break: each `'\n'` closes a line, and a last
/// line is produced only when at least one character follows the final
/// `'\n'` (so a trailing line break adds no empty line).
pub open spec fn spec_lines_from(cur: Seq<char>, rest: Seq<char>) -> Seq<Seq<char>>
    decreases rest.len(),
{
    if rest.len() == 0 {
        if cur.len() == 0 {
            Seq::empty()
        } else {
            seq![cur]
        }
    } else if rest[0] == '\n' {
        seq![cur] + spec_lines_from(Seq::empty(), rest.drop_first())
    } else {
        spec_lines_from(cur.push(rest[0]), rest.drop_first())
    }
}

/// The lines of `s`, split at `'\n'`, with no trailing empty line when `s`
/// ends in `'\n'`.
pub open spec fn spec_lines(s: Seq<char>) -> Seq<Seq<char>> {
    spec_lines_from(Seq::empty(), s)
}

/// Splits `s` into its lines.
pub fn split_lines(s: &str) -> (r: Vec<String>)
    ensures
        r.deep_view() == spec_lines(s@),
{
    let len = s.unicode_len();
    let mut lines: Vec<String> = Vec::new();
    let mut cur = String::new();
    let mut i: usize = 0;
    proof {
        assert(s@.subrange(0, len as int) =~= s@);
        assert(lines.deep_view() + spec_lines_from(cur@, s@) =~= spec_lines_from(cur@, s@));
    }
    while i < len
        invariant
            len == s@.len(),
            i <= len,
            spec_lines(s@) == lines.deep_view() + spec_lines_from(cur@, s@.subrange(i as int, len as int)),
        decreases len - i,
    {
        let c = s.get_char(i);
        let ghost lines_view = lines.deep_view();
        let ghost cur_view = cur@;
        proof {
            assert(s@.subrange(i as int, len as int).drop_first() =~= s@.subrange(
                i + 1,
                len as int,
            ));
            assert(s@.subrange(i as int, len as int)[0] == c);
        }
        if c == '\n' {
            lines.push(cur);
            cur = String::new();
            proof {
                assert(lines.deep_view() =~= lines_view.push(cur_view));
                assert(lines.deep_view() + spec_lines_from(cur@, s@.subrange(i + 1, len as int))
                    =~= lines_view + (seq![cur_view] + spec_lines_from(
                    Seq::empty(),
                    s@.subrange(i + 1, len as int),
                )));
            }
        } else {
            push_char(&mut cur, c);
        }
        i += 1;
    }
    proof {
        assert(s@.subrange(len as int, len as int) =~= Seq::<char>::empty());
        if cur@.len() == 0 {
            assert(lines.deep_view() + spec_lines_from(cur@, s@.subrange(len as int, len as int))
                =~= lines.deep_view());
        }
    }
    if !cur.as_str().is_empty() {
        let ghost lines_view = lines.deep_view();
        let ghost cur_view = cur@;
        lines.push(cur);
        proof {
            assert(lines.deep_view() =~= lines_view.push(cur_view));
            assert(lines_view + spec_lines_from(cur_view, s@.subrange(len as int, len as int))
                =~= lines_view.push(cur_view));
        }
    }
    lines
}

/// Appends one character to a string.
///
/// Relies on `String::push`: appends the given `char` to the end of the
/// string.
#[verifier::external_body]
pub fn push_char(s: &mut String, c: char)
    ensures
        final(s)@ == old(s)@.push(c),
{
    s.push(c)
}

/// The parts produced from `rest` when the characters in `cur` have already
/// been read since the last comma: each `','` closes a part, and the final
/// part is always produced, so an empty input has one empty part.
pub open spec fn spec_split_commas_from(cur: Seq<char>, rest: Seq<char>) -> Seq<Seq<char>>
    decreases rest.len(),
{
    if rest.len() == 0 {
        seq![cur]
    } else if rest[0] == ',' {
        seq![cur] + spec_split_commas_from(Seq::empty(), rest.drop_first())
    } else {
        spec_split_commas_from(cur.push(rest[0]), rest.drop_first())
    }
}

/// The comma-separated parts of `s`. There is always at least one part.
pub open spec fn spec_split_commas(s: Seq<char>) -> Seq<Seq<char>> {
    spec_split_commas_from(Seq::empty(), s)
}

/// Splitting at commas always yields at least one part.
pub proof fn lemma_split_commas_from_len(cur: Seq<char>, rest: Seq<char>)
    ensures
        spec_split_commas_from(cur, rest).len() >= 1,
    decreases rest.len(),
{
    if rest.len() > 0 && rest[0] != ',' {
        lemma_split_commas_from_len(cur.push(rest[0]), rest.drop_first());
    }
}

/// Splits `s` at commas.
pub fn split_commas(s: &str) -> (r: Vec<String>)
    ensures
        r.deep_view() == spec_split_commas(s@),
{
    let len = s.unicode_len();
    let mut parts: Vec<String> = Vec::new();
    let mut cur = String::new();
    let mut i: usize = 0;
    proof {
        assert(s@.subrange(0, len as int) =~= s@);
        assert(parts.deep_view() + spec_split_commas_from(cur@, s@) =~= spec_split_commas_from(
            cur@,
            s@,
        ));
    }
    while i < len
        invariant
            len == s@.len(),
            i <= len,
            spec_split_commas(s@) == parts.deep_view() + spec_split_commas_from(
                cur@,
                s@.subrange(i as int, len as int),
            ),
        decreases len - i,
    {
        let c = s.get_char(i);
        let ghost parts_view = parts.deep_view();
        let ghost cur_view = cur@;
        proof {
            assert(s@.subrange(i as int, len as int).drop_first() =~= s@.subrange(
                i + 1,
                len as int,
            ));
            assert(s@.subrange(i as int, len as int)[0] == c);
        }
        if c == ',' {
            parts.push(cur);
            cur = String::new();
            proof {
                assert(parts.deep_view() =~= parts_view.push(cur_view));
                assert(parts.deep_view() + spec_split_commas_from(
                    cur@,
                    s@.subrange(i + 1, len as int),
                ) =~= parts_view + (seq![cur_view] + spec_split_commas_from(
                    Seq::empty(),
                    s@.subrange(i + 1, len as int),
                )));
            }
        } else {
            push_char(&mut cur, c);
        }
        i += 1;
    }
    proof {
        assert(s@.subrange(len as int, len as int) =~= Seq::<char>::empty());
    }
    let ghost parts_view = parts.deep_view();
    let ghost cur_view = cur@;
    parts.push(cur);
    proof {
        assert(parts.deep_view() =~= parts_view.push(cur_view));
        assert(parts_view + spec_split_commas_from(cur_view, Seq::empty()) =~= parts_view.push(
            cur_view,
        ));
    }
    parts
}

/// `s` with the ignored whitespace characters removed from the front.
pub open spec fn spec_trim_start(s: Seq<char>) -> Seq<char>
    decreases s.len(),
{
    if s.len() > 0 && spec_is_ws(s[0]) {
        spec_trim_start(s.drop_first())
    } else {
        s
    }
}

/// `s` with the ignored whitespace characters removed from the back.
pub open spec fn spec_trim_end(s: Seq<char>) -> Seq<char>
    decreases s.len(),
{
    if s.len() > 0 && spec_is_ws(s.last()) {
        spec_trim_end(s.drop_last())
    } else {
        s
    }
}

/// `s` with the ignored whitespace characters removed from both ends.
pub open spec fn spec_trim(s: Seq<char>) -> Seq<char> {
    spec_trim_end(spec_trim_start(s))
}

/// Removes leading whitespace.
pub fn trim_start(s: &str) -> (r: &str)
    ensures
        r@ == spec_trim_start(s@),
{
    let len = s.unicode_len();
    let mut start: usize = 0;
    proof {
        assert(s@.subrange(0, len as int) =~= s@);
    }
    while start < len && is_ws(s.get_char(start))
        invariant
            len == s@.len(),
            start <= len,
            spec_trim_start(s@) == spec_trim_start(s@.subrange(start as int, len as int)),
        decreases len - start,
    {
        proof {
            assert(s@.subrange(start as int, len as int).drop_first() =~= s@.subrange(
                start + 1,
                len as int,
            ));
        }
        start += 1;
    }
    proof {
        assert(spec_trim_start(s@) =~= s@.subrange(start as int, len as int));
    }
    s.substring_char(start, len)
}

/// Removes leading and trailing whitespace.
pub fn trim(s: &str) -> (r: &str)
    ensures
        r@ == spec_trim(s@),
{
    let len = s.unicode_len();
    let mut start: usize = 0;
    proof {
        assert(s@.subrange(0, len as int) =~= s@);
    }
    while start < len && is_ws(s.get_char(start))
        invariant
            len == s@.len(),
            start <= len,
            spec_trim_start(s@) == spec_trim_start(s@.subrange(start as int, len as int)),
        decreases len - start,
    {
        proof {
            assert(s@.subrange(start as int, len as int).drop_first() =~= s@.subrange(
                start + 1,
                len as int,
            ));
        }
        start += 1;
    }
    proof {
        assert(spec_trim_start(s@) =~= s@.subrange(start as int, len as int));
    }
    let mut end: usize = len;
    while end > start && is_ws(s.get_char(end - 1))
        invariant
            len == s@.len(),
            start <= end <= len,
            spec_trim_start(s@) == s@.subrange(start as int, len as int),
            spec_trim_end(spec_trim_start(s@)) == spec_trim_end(
                s@.subrange(start as int, end as int),
            ),
        decreases end,
    {
        proof {
            assert(s@.subrange(start as int, end as int).drop_last() =~= s@.subrange(
                start as int,
                end - 1,
            ));
            assert(s@.subrange(start as int, end as int).last() == s@[end - 1]);
        }
        end -= 1;
    }
    proof {
        if end > start {
            assert(s@.subrange(start as int, end as int).last() == s@[end - 1]);
        }
        assert(spec_trim_end(s@.subrange(start as int, end as int)) =~= s@.subrange(
            start as int,
            end as int,
        ));
    }
    s.substring_char(start, end)
}

/// Why a decimal number could not be read.
#[derive(PartialEq, Eq, Structural, Clone, Copy, Debug)]
pub enum IntError {
    /// The input was empty.
    Empty,
    /// The input held a character that is no decimal digit.
    InvalidDigit,
    /// The value does not fit in a `usize`.
    Overflow,
}

/// True exactly for the ten decimal digit characters.
pub open spec fn spec_is_digit(c: char) -> bool {
    c == '0' || c == '1' || c == '2' || c == '3' || c == '4' || c == '5' || c == '6' || c == '7'
        || c == '8' || c == '9'
}

/// The numeric value of a decimal digit character, and 0 for any other
/// character.
pub open spec fn spec_digit_val(c: char) -> int {
    if c == '0' {
        0
    } else if c == '1' {
        1
    } else if c == '2' {
        2
    } else if c == '3' {
        3
    } else if c == '4' {
        4
    } else if c == '5' {
        5
    } else if c == '6' {
        6
    } else if c == '7' {
        7
    } else if c == '8' {
        8
    } else if c == '9' {
        9
    } else {
        0
    }
}

/// The decimal digit character for a value below ten.
pub open spec fn spec_digit_char(d: int) -> char {
    if d == 0 {
        '0'
    } else if d == 1 {
        '1'
    } else if d == 2 {
        '2'
    } else if d == 3 {
        '3'
    } else if d == 4 {
        '4'
    } else if d == 5 {
        '5'
    } else if d == 6 {
        '6'
    } else if d == 7 {
        '7'
    } else if d == 8 {
        '8'
    } else {
        '9'
    }
}

/// The value of a sequence of decimal digits, most significant first.
pub open spec fn spec_digits_val(s: Seq<char>) -> int
    decreases s.len(),
{
    if s.len() == 0 {
        0
    } else {
        spec_digits_val(s.drop_last()) * 10 + spec_digit_val(s.last())
    }
}

/// A digit string never has a negative value.
pub proof fn lemma_digits_val_nonneg(s: Seq<char>)
    ensures
        spec_digits_val(s) >= 0,
    decreases s.len(),
{
    if s.len() > 0 {
        lemma_digits_val_nonneg(s.drop_last());
    }
}

/// The numeric value of a digit character, or `None` for any other character.
pub fn digit_val(c: char) -> (r: Option<usize>)
    ensures
        spec_is_digit(c) ==> r == Some(spec_digit_val(c) as usize),
        !spec_is_digit(c) ==> r is None,
{
    match c {
        '0' => Some(0),
        '1' => Some(1),
        '2' => Some(2),
        '3' => Some(3),
        '4' => Some(4),
        '5' => Some(5),
        '6' => Some(6),
        '7' => Some(7),
        '8' => Some(8),
        '9' => Some(9),
        _ => None,
    }
}

/// The digit character for a value below ten.
pub fn digit_char(d: usize) -> (c: char)
    requires
        d < 10,
    ensures
        c == spec_digit_char(d as int),
{
    match d {
        0 => '0',
        1 => '1',
        2 => '2',
        3 => '3',
        4 => '4',
        5 => '5',
        6 => '6',
        7 => '7',
        8 => '8',
        _ => '9',
    }
}

/// Reads a non-negative decimal number.
///
/// Succeeds exactly on a non-empty, all-digit input whose value fits in a
/// `usize`; an empty input, any non-digit character, and a too-large value
/// each report their own error, with a non-digit reported ahead of overflow.
pub fn parse_usize(s: &str) -> (r: Result<usize, IntError>)
    ensures
        s@.len() == 0 ==> r == Err::<usize, IntError>(IntError::Empty),
        s@.len() > 0 && (exists|j: int| 0 <= j < s@.len() && !spec_is_digit(s@[j])) ==> r
            == Err::<usize, IntError>(IntError::InvalidDigit),
        s@.len() > 0 && (forall|j: int| 0 <= j < s@.len() ==> spec_is_digit(s@[j]))
            && spec_digits_val(s@) <= usize::MAX ==> r == Ok::<usize, IntError>(
            spec_digits_val(s@) as usize,
        ),
        s@.len() > 0 && (forall|j: int| 0 <= j < s@.len() ==> spec_is_digit(s@[j]))
            && spec_digits_val(s@) > usize::MAX ==> r == Err::<usize, IntError>(IntError::Overflow),
{
    let len = s.unicode_len();
    if len == 0 {
        return Err(IntError::Empty);
    }
    let mut acc: usize = 0;
    let mut overflow = false;
    let mut i: usize = 0;
    proof {
        assert(s@.subrange(0, 0) =~= Seq::<char>::empty());
    }
    while i < len
        invariant
            len == s@.len(),
            i <= len,
            forall|j: int| 0 <= j < i ==> spec_is_digit(s@[j]),
            !overflow ==> acc == spec_digits_val(s@.subrange(0, i as int)),
            overflow ==> spec_digits_val(s@.subrange(0, i as int)) > usize::MAX,
        decreases len - i,
    {
        let c = s.get_char(i);
        proof {
            assert(s@.subrange(0, i + 1).drop_last() =~= s@.subrange(0, i as int));
            assert(s@.subrange(0, i + 1).last() == s@[i as int]);
        }
        let d = match digit_val(c) {
            Some(d) => d,
            None => {
                return Err(IntError::InvalidDigit);
            },
        };
        if overflow {
            proof {
                lemma_digits_val_nonneg(s@.subrange(0, i as int));
                assert(spec_digits_val(s@.subrange(0, i + 1)) > usize::MAX);
            }
        } else {
            match acc.checked_mul(10) {
                Some(m) => match m.checked_add(d) {
                    Some(v) => {
                        acc = v;
                    },
                    None => {
                        overflow = true;
                    },
                },
                None => {
                    proof {
                        lemma_digits_val_nonneg(s@.subrange(0, i as int));
                    }
                    overflow = true;
                },
            }
        }
        i += 1;
    }
    proof {
        assert(s@.subrange(0, len as int) =~= s@);
    }
    if overflow {
        Err(IntError::Overflow)
    } else {
        Ok(acc)
    }
}

/// The decimal digits of a non-negative number, most significant first.
pub open spec fn spec_digits_of(n: int) -> Seq<char>
    decreases n,
{
    if n < 10 {
        seq![spec_digit_char(n)]
    } else {
        spec_digits_of(n / 10).push(spec_digit_char(n % 10))
    }
}

/// Writes a number in decimal.
pub fn usize_to_string(n: usize) -> (r: String)
    ensures
        r@ == spec_digits_of(n as int),
    decreases n,
{
    if n < 10 {
        let mut s = String::new();
        push_char(&mut s, digit_char(n));
        proof {
            assert(s@ =~= spec_digits_of(n as int));
        }
        s
    } else {
        let mut s = usize_to_string(n / 10);
        push_char(&mut s, digit_char(n % 10));
        s
    }
}

/// True exactly when `p` is a prefix of `s`.
pub open spec fn spec_has_prefix(s: Seq<char>, p: Seq<char>) -> bool {
    s.len() >= p.len() && s.subrange(0, p.len() as int) == p
}

/// Reports whether `s` starts with `p`.
pub fn has_prefix(s: &str, p: &str) -> (r: bool)
    ensures
        r == spec_has_prefix(s@, p@),
{
    let slen = s.unicode_len();
    let plen = p.unicode_len();
    if plen > slen {
        proof {
            assert(!spec_has_prefix(s@, p@));
        }
        return false;
    }
    let mut i: usize = 0;
    while i < plen
        invariant
            slen == s@.len(),
            plen == p@.len(),
            plen <= slen,
            i <= plen,
            forall|j: int| 0 <= j < i ==> s@[j] == p@[j],
        decreases plen - i,
    {
        if s.get_char(i) != p.get_char(i) {
            proof {
                assert(s@.subrange(0, plen as int)[i as int] != p@[i as int]);
            }
            return false;
        }
        i += 1;
    }
    proof {
        assert(s@.subrange(0, plen as int) =~= p@);
    }
    true
}

} // verus!
