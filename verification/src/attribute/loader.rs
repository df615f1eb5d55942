//! Reading an [`AttributeTemplate`] from a CSV data file.
//!
//! The file has a header line and then one line per attribute with four
//! columns, `name,base,min,max`, the last three floating-point numbers:
//!
//! ```csv
//! name,base,min,max
//! hp,100,0,100
//! armor,30,0,3.40282347e+38
//! ```
//!
//! Blank lines are skipped. A name given twice keeps its last definition.

use vstd::prelude::*;

use crate::attribute::{AttributeDefinition, AttributeTemplate};
use crate::csv::{fields, float_error, field_ranges, is_record_line, CsvError, CsvFault};
use crate::text::{
    check_float_range, check_float_spec, chars_of, line_ranges, lines, pieces, substring,
    trim_range, FloatLiteral, lemma_lines_insert, lemma_trim_blank, lemma_split_nonempty, split, trim,
};

verus! {

/// An attribute definition by its texts: name, base, min, max.
pub type AttributeRecord = (Seq<char>, Seq<char>, Seq<char>, Seq<char>);

/// The definition that the fields `f` of line `line` give, or why they give
/// none. The float columns are checked from left to right.
pub open spec fn attribute_record(line: nat, f: Seq<Seq<char>>) -> Result<AttributeRecord, CsvFault> {
    if f.len() != 4 {
        Err(CsvFault::ColumnCount { line, expected: 4, found: f.len() })
    } else if check_float_spec(f[1]) is Err {
        Err(CsvFault::InvalidFloat { line, column: 1, text: f[1], kind: check_float_spec(f[1])->Err_0 })
    } else if check_float_spec(f[2]) is Err {
        Err(CsvFault::InvalidFloat { line, column: 2, text: f[2], kind: check_float_spec(f[2])->Err_0 })
    } else if check_float_spec(f[3]) is Err {
        Err(CsvFault::InvalidFloat { line, column: 3, text: f[3], kind: check_float_spec(f[3])->Err_0 })
    } else {
        Ok((f[0], f[1], f[2], f[3]))
    }
}

/// The definitions of the lines from index `i` on, added to `acc`; the first
/// faulty record line stops the reading.
pub open spec fn attribute_csv_from(
    ls: Seq<Seq<char>>,
    i: int,
    acc: Map<Seq<char>, AttributeRecord>,
) -> Result<Map<Seq<char>, AttributeRecord>, CsvFault>
    decreases ls.len() - i,
{
    if i < 0 || i >= ls.len() {
        Ok(acc)
    } else if !is_record_line(ls, i) {
        attribute_csv_from(ls, i + 1, acc)
    } else {
        match attribute_record((i + 1) as nat, fields(ls[i])) {
            Err(e) => Err(e),
            Ok(r) => attribute_csv_from(ls, i + 1, acc.insert(r.0, r)),
        }
    }
}

/// The attribute definitions, by name, that the CSV text `content` holds,
/// or the fault that refuses it.
pub open spec fn attribute_csv(content: Seq<char>) -> Result<Map<Seq<char>, AttributeRecord>, CsvFault> {
    attribute_csv_from(lines(content), 0, Map::empty())
}

/// The texts of a definition read from a file.
pub open spec fn record_of(d: AttributeDefinition<FloatLiteral>) -> AttributeRecord {
    (d.name@, d.base@, d.min@, d.max@)
}

/// Reads an attribute template from CSV text.
pub fn parse_csv(content: &str) -> (r: Result<AttributeTemplate<FloatLiteral>, CsvError>)
    ensures
        match attribute_csv(content@) {
            Ok(m) => r is Ok && r->Ok_0.definitions@.map_values(|d: AttributeDefinition<FloatLiteral>| record_of(d)) == m,
            Err(f) => r is Err && r->Err_0@ == f,
        },
{
    let s = chars_of(content);
    let ls = line_ranges(&s);
    let ghost lv = lines(s@);
    let mut template: AttributeTemplate<FloatLiteral> = AttributeTemplate::new();
    let mut idx: usize = 0;
    proof {
        assert(template.definitions@.map_values(|d: AttributeDefinition<FloatLiteral>| record_of(d)) =~= Map::<Seq<char>, AttributeRecord>::empty());
    }
    while idx < ls.len()
        invariant
            idx <= ls@.len(),
            s@ == content@,
            lv == lines(s@),
            pieces(s@, ls@) == lv,
            forall|k: int| 0 <= k < ls@.len() ==> (#[trigger] ls@[k]).0 <= ls@[k].1 <= s@.len(),
            attribute_csv(content@) == attribute_csv_from(
                lv,
                idx as int,
                template.definitions@.map_values(|d: AttributeDefinition<FloatLiteral>| record_of(d)),
            ),
        decreases ls@.len() - idx,
    {
        let ghost acc = template.definitions@.map_values(|d: AttributeDefinition<FloatLiteral>| record_of(d));
        let (lo, hi) = ls[idx];
        proof {
            assert(lv[idx as int] == s@.subrange(lo as int, hi as int));
        }
        let (a, b) = trim_range(&s, lo, hi);
        if a == b || idx == 0 {
            idx = idx + 1;
            continue;
        }
        let line = idx + 1;
        let f = field_ranges(&s, lo, hi);
        let ghost fv = fields(lv[idx as int]);
        if f.len() != 4 {
            return Err(CsvError::ColumnCount { line, expected: 4, found: f.len() });
        }
        proof {
            assert(fv[0] == s@.subrange(f@[0].0 as int, f@[0].1 as int));
            assert(fv[1] == s@.subrange(f@[1].0 as int, f@[1].1 as int));
            assert(fv[2] == s@.subrange(f@[2].0 as int, f@[2].1 as int));
            assert(fv[3] == s@.subrange(f@[3].0 as int, f@[3].1 as int));
        }
        if let Err(kind) = check_float_range(&s, f[1].0, f[1].1) {
            return Err(float_error(content, line, 1, f[1], kind));
        }
        if let Err(kind) = check_float_range(&s, f[2].0, f[2].1) {
            return Err(float_error(content, line, 2, f[2], kind));
        }
        if let Err(kind) = check_float_range(&s, f[3].0, f[3].1) {
            return Err(float_error(content, line, 3, f[3], kind));
        }
        let def = AttributeDefinition {
            name: substring(content, f[0].0, f[0].1),
            base: FloatLiteral::from_range(content, f[1].0, f[1].1),
            min: FloatLiteral::from_range(content, f[2].0, f[2].1),
            max: FloatLiteral::from_range(content, f[3].0, f[3].1),
        };
        let ghost rec = record_of(def);
        template.define(def);
        proof {
            assert(template.definitions@.map_values(|d: AttributeDefinition<FloatLiteral>| record_of(d)) =~= acc.insert(rec.0, rec));
        }
        idx = idx + 1;
    }
    Ok(template)
}

/// Where a line stands does not change what record it holds, only the line
/// number that a fault reports.
proof fn lemma_record_line_number(l1: nat, l2: nat, f: Seq<Seq<char>>)
    ensures
        attribute_record(l1, f) is Ok <==> attribute_record(l2, f) is Ok,
        attribute_record(l1, f) is Ok ==> attribute_record(l1, f) == attribute_record(l2, f),
{
}

/// Past the inserted line `w` at `k`, reading the longer list from `j` and
/// the shorter one from `j - 1` succeed or fail together, with the same
/// definitions.
proof fn lemma_read_after(ls: Seq<Seq<char>>, k: int, w: Seq<char>, j: int, acc: Map<Seq<char>, AttributeRecord>)
    requires
        1 <= k <= ls.len(),
        k < j <= ls.len() + 1,
    ensures
        attribute_csv_from(ls.insert(k, w), j, acc) is Ok <==> attribute_csv_from(ls, j - 1, acc) is Ok,
        attribute_csv_from(ls.insert(k, w), j, acc) is Ok ==> attribute_csv_from(ls.insert(k, w), j, acc) == attribute_csv_from(ls, j - 1, acc),
    decreases ls.len() + 1 - j,
{
    let l2 = ls.insert(k, w);
    if j < l2.len() {
        assert(l2[j] == ls[j - 1]);
        assert(is_record_line(l2, j) == is_record_line(ls, j - 1));
        if is_record_line(l2, j) {
            lemma_record_line_number((j + 1) as nat, j as nat, fields(ls[j - 1]));
            match attribute_record((j + 1) as nat, fields(l2[j])) {
                Err(_) => {},
                Ok(r) => {
                    lemma_read_after(ls, k, w, j + 1, acc.insert(r.0, r));
                },
            }
        } else {
            lemma_read_after(ls, k, w, j + 1, acc);
        }
    }
}

/// Up to the inserted blank line `w` at `k`, reading the longer and the
/// shorter list from `j` succeed or fail together, with the same
/// definitions.
proof fn lemma_read_before(ls: Seq<Seq<char>>, k: int, w: Seq<char>, j: int, acc: Map<Seq<char>, AttributeRecord>)
    requires
        1 <= k <= ls.len(),
        0 <= j <= k,
        trim(w).len() == 0,
    ensures
        attribute_csv_from(ls.insert(k, w), j, acc) is Ok <==> attribute_csv_from(ls, j, acc) is Ok,
        attribute_csv_from(ls.insert(k, w), j, acc) is Ok ==> attribute_csv_from(ls.insert(k, w), j, acc) == attribute_csv_from(ls, j, acc),
    decreases k - j,
{
    let l2 = ls.insert(k, w);
    if j == k {
        assert(l2[k] == w);
        assert(!is_record_line(l2, k));
        lemma_read_after(ls, k, w, k + 1, acc);
    } else {
        assert(l2[j] == ls[j]);
        assert(is_record_line(l2, j) == is_record_line(ls, j));
        if is_record_line(l2, j) {
            match attribute_record((j + 1) as nat, fields(l2[j])) {
                Err(_) => {},
                Ok(r) => {
                    lemma_read_before(ls, k, w, j + 1, acc.insert(r.0, r));
                },
            }
        } else {
            lemma_read_before(ls, k, w, j + 1, acc);
        }
    }
}

/// A blank line (spaces, tabs, a carriage return) after the header holds
/// no record and no fault: inserting one anywhere after the first line
/// neither makes a file fail nor changes the definitions it gives.
pub proof fn law_blank_line_ignored(x: Seq<char>, w: Seq<char>, y: Seq<char>)
    requires
        forall|j: int| 0 <= j < w.len() ==> w[j] == ' ' || w[j] == '\t' || w[j] == '\r',
    ensures
        attribute_csv(x + seq!['\n'] + w + seq!['\n'] + y) is Ok <==> attribute_csv(x + seq!['\n'] + y) is Ok,
        attribute_csv(x + seq!['\n'] + y) is Ok ==> attribute_csv(x + seq!['\n'] + w + seq!['\n'] + y) == attribute_csv(
            x + seq!['\n'] + y,
        ),
{
    assert(!w.contains('\n')) by {
        if w.contains('\n') {
            let j = choose|j: int| 0 <= j < w.len() && w[j] == '\n';
            assert(w[j] == ' ' || w[j] == '\t' || w[j] == '\r');
        }
    }
    lemma_lines_insert(x, w, y);
    lemma_trim_blank(w);
    lemma_split_nonempty(x, '\n');
    let k = split(x, '\n').len() as int;
    lemma_read_before(lines(x + seq!['\n'] + y), k, w, 0, Map::empty());
}

} // verus!
