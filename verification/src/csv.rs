//! The record layout shared by the game's CSV data files: a header line,
//! then one record per non-blank line, fields separated by commas, white
//! space around lines and fields ignored.

use vstd::prelude::*;

use crate::text::{
    decimal, joined, pieces, push_decimal, push_joined, split, split_range, trim, trim_range,
    FloatErrorKind, IntErrorKind, substring,
};

verus! {

/// Why a CSV data file was refused. Lines are numbered from 1, columns from 0.
#[allow(inconsistent_fields)]
#[derive(Debug)]
pub enum CsvError {
    /// A data line does not hold the number of columns of the format.
    ColumnCount { line: usize, expected: usize, found: usize },
    /// A column that holds a floating-point number does not.
    InvalidFloat { line: usize, column: usize, text: String, kind: FloatErrorKind },
    /// A column that holds an unsigned integer does not.
    InvalidInteger { line: usize, column: usize, text: String, kind: IntErrorKind },
}

/// [`CsvError`] with its texts as character sequences.
#[allow(inconsistent_fields)]
pub ghost enum CsvFault {
    ColumnCount { line: nat, expected: nat, found: nat },
    InvalidFloat { line: nat, column: nat, text: Seq<char>, kind: FloatErrorKind },
    InvalidInteger { line: nat, column: nat, text: Seq<char>, kind: IntErrorKind },
}

impl View for CsvError {
    type V = CsvFault;

    open spec fn view(&self) -> CsvFault {
        match self {
            CsvError::ColumnCount { line, expected, found } => CsvFault::ColumnCount {
                line: *line as nat,
                expected: *expected as nat,
                found: *found as nat,
            },
            CsvError::InvalidFloat { line, column, text, kind } => CsvFault::InvalidFloat {
                line: *line as nat,
                column: *column as nat,
                text: text@,
                kind: *kind,
            },
            CsvError::InvalidInteger { line, column, text, kind } => CsvFault::InvalidInteger {
                line: *line as nat,
                column: *column as nat,
                text: text@,
                kind: *kind,
            },
        }
    }
}

/// Whether the line at index `i` of a file holds a record: the first line
/// is the header, and blank lines hold nothing.
pub open spec fn is_record_line(lines: Seq<Seq<char>>, i: int) -> bool {
    i != 0 && trim(lines[i]).len() != 0
}

/// The fields of a record line: the comma-separated pieces of the trimmed
/// line, each trimmed.
pub open spec fn fields(line: Seq<char>) -> Seq<Seq<char>> {
    split(trim(line), ',').map_values(|p: Seq<char>| trim(p))
}

/// The fields of the line `s[line_lo..line_hi]`, as position pairs.
pub fn field_ranges(s: &Vec<char>, line_lo: usize, line_hi: usize) -> (r: Vec<(usize, usize)>)
    requires
        line_lo <= line_hi <= s@.len(),
    ensures
        forall|k: int| 0 <= k < r@.len() ==> (#[trigger] r@[k]).0 <= r@[k].1 <= s@.len(),
        pieces(s@, r@) == fields(s@.subrange(line_lo as int, line_hi as int)),
{
    let (lo, hi) = trim_range(s, line_lo, line_hi);
    let parts = split_range(s, lo, hi, ',');
    let mut r: Vec<(usize, usize)> = Vec::new();
    let mut j: usize = 0;
    while j < parts.len()
        invariant
            j <= parts@.len(),
            forall|k: int| 0 <= k < parts@.len() ==> lo <= (#[trigger] parts@[k]).0 <= parts@[k].1 <= hi,
            pieces(s@, parts@) == split(s@.subrange(lo as int, hi as int), ','),
            forall|k: int| 0 <= k < r@.len() ==> (#[trigger] r@[k]).0 <= r@[k].1 <= s@.len(),
            pieces(s@, r@) == pieces(s@, parts@).take(j as int).map_values(|p: Seq<char>| trim(p)),
            hi <= s@.len(),
        decreases parts@.len() - j,
    {
        let t = trim_range(s, parts[j].0, parts[j].1);
        let ghost before = r@;
        r.push(t);
        proof {
            assert(pieces(s@, r@) =~= pieces(s@, before).push(s@.subrange(t.0 as int, t.1 as int)));
            assert(pieces(s@, parts@).take(j + 1) =~= pieces(s@, parts@).take(j as int).push(
                pieces(s@, parts@)[j as int],
            ));
            assert(pieces(s@, parts@).take(j + 1).map_values(|p: Seq<char>| trim(p)) =~= pieces(
                s@,
                parts@,
            ).take(j as int).map_values(|p: Seq<char>| trim(p)).push(trim(pieces(s@, parts@)[j as int])));
        }
        j = j + 1;
    }
    proof {
        assert(pieces(s@, parts@).take(j as int) =~= pieces(s@, parts@));
    }
    r
}

/// An error for a float column, with the column's text.
pub fn float_error(text: &str, line: usize, column: usize, at: (usize, usize), kind: FloatErrorKind) -> (e: CsvError)
    requires
        at.0 <= at.1 <= text@.len(),
    ensures
        e@ == (CsvFault::InvalidFloat {
            line: line as nat,
            column: column as nat,
            text: text@.subrange(at.0 as int, at.1 as int),
            kind,
        }),
{
    CsvError::InvalidFloat { line, column, text: substring(text, at.0, at.1), kind }
}

/// An error for an integer column, with the column's text.
pub fn integer_error(text: &str, line: usize, column: usize, at: (usize, usize), kind: IntErrorKind) -> (e: CsvError)
    requires
        at.0 <= at.1 <= text@.len(),
    ensures
        e@ == (CsvFault::InvalidInteger {
            line: line as nat,
            column: column as nat,
            text: text@.subrange(at.0 as int, at.1 as int),
            kind,
        }),
{
    CsvError::InvalidInteger { line, column, text: substring(text, at.0, at.1), kind }
}

/// Why `f32::from_str` refuses a text of the error kind `k`, as it says.
pub open spec fn float_reason(k: FloatErrorKind) -> Seq<char> {
    match k {
        FloatErrorKind::Empty => "cannot parse float from empty string"@,
        FloatErrorKind::Invalid => "invalid float literal"@,
    }
}

/// Why `u32::from_str` refuses a text of the error kind `k`, as it says.
pub open spec fn int_reason(k: IntErrorKind) -> Seq<char> {
    match k {
        IntErrorKind::Empty => "cannot parse integer from empty string"@,
        IntErrorKind::InvalidDigit => "invalid digit found in string"@,
        IntErrorKind::PosOverflow => "number too large to fit in target type"@,
    }
}

/// The text that reports the fault `f` of a file whose columns are named
/// `columns`.
pub open spec fn fault_message(f: CsvFault, columns: Seq<Seq<char>>) -> Seq<char> {
    match f {
        CsvFault::ColumnCount { line, expected, found } => "line "@ + decimal(line) + ": expected "@
            + decimal(expected) + " columns ("@ + joined(columns, ',') + "), got "@ + decimal(found),
        CsvFault::InvalidFloat { line, column, text, kind } => "line "@ + decimal(line) + ": invalid `"@
            + columns[column as int] + "` value '"@ + text + "': "@ + float_reason(kind),
        CsvFault::InvalidInteger { line, column, text, kind } => "line "@ + decimal(line)
            + ": invalid `"@ + columns[column as int] + "` value '"@ + text + "': "@ + int_reason(kind),
    }
}

/// The column that the fault `f` names, if any, is one of `n` columns.
pub open spec fn names_column_below(f: CsvFault, n: nat) -> bool {
    match f {
        CsvFault::ColumnCount { .. } => true,
        CsvFault::InvalidFloat { column, .. } => column < n,
        CsvFault::InvalidInteger { column, .. } => column < n,
    }
}

impl CsvError {
    /// The text that reports this error, for a file whose columns are named
    /// `columns`.
    pub fn message(&self, columns: &[&str]) -> (m: String)
        requires
            names_column_below(self@, columns@.len()),
        ensures
            m@ == fault_message(self@, columns@.map_values(|c: &str| c@)),
    {
        let mut m = "line ".to_owned();
        match self {
            CsvError::ColumnCount { line, expected, found } => {
                push_decimal(&mut m, *line);
                m.append(": expected ");
                push_decimal(&mut m, *expected);
                m.append(" columns (");
                push_joined(&mut m, columns);
                m.append("), got ");
                push_decimal(&mut m, *found);
            },
            CsvError::InvalidFloat { line, column, text, kind } => {
                push_decimal(&mut m, *line);
                m.append(": invalid `");
                m.append(columns[*column]);
                m.append("` value '");
                m.append(text.as_str());
                m.append("': ");
                match kind {
                    FloatErrorKind::Empty => m.append("cannot parse float from empty string"),
                    FloatErrorKind::Invalid => m.append("invalid float literal"),
                }
            },
            CsvError::InvalidInteger { line, column, text, kind } => {
                push_decimal(&mut m, *line);
                m.append(": invalid `");
                m.append(columns[*column]);
                m.append("` value '");
                m.append(text.as_str());
                m.append("': ");
                match kind {
                    IntErrorKind::Empty => m.append("cannot parse integer from empty string"),
                    IntErrorKind::InvalidDigit => m.append("invalid digit found in string"),
                    IntErrorKind::PosOverflow => m.append("number too large to fit in target type"),
                }
            },
        }
        m
    }
}

} // verus!
