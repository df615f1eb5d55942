//! Reading a [`DroppedItemTemplate`] from a CSV data file.
//!
//! The file has a header line and then one line per item with five
//! columns, `name,item_type,min_amount,max_amount,weight`: two texts, two
//! unsigned integers and a floating-point number:
//!
//! ```csv
//! name,item_type,min_amount,max_amount,weight
//! gold,gold,1,10,100.0
//! wood,material,1,3,40.0
//! ```
//!
//! Blank lines are skipped. A name given twice keeps its last definition.

use vstd::prelude::*;

use crate::csv::{fields, float_error, integer_error, field_ranges, is_record_line, CsvError, CsvFault};
use crate::dropped_items::{DroppedItemDefinition, DroppedItemTemplate};
use crate::text::{
    check_float_range, check_float_spec, chars_of, line_ranges, lines, parse_u32_range,
    parse_u32_spec, pieces, substring, trim_range, FloatLiteral, lemma_lines_insert, lemma_trim_blank,
    lemma_split_nonempty, split, trim,
};

verus! {

/// A dropped-item definition by its values: name, type, least and greatest
/// amount, and the weight's text.
pub type DroppedItemRecord = (Seq<char>, Seq<char>, u32, u32, Seq<char>);

/// The definition that the fields `f` of line `line` give, or why they give
/// none. The number columns are checked from left to right.
pub open spec fn dropped_item_record(line: nat, f: Seq<Seq<char>>) -> Result<DroppedItemRecord, CsvFault> {
    if f.len() != 5 {
        Err(CsvFault::ColumnCount { line, expected: 5, found: f.len() })
    } else if parse_u32_spec(f[2]) is Err {
        Err(CsvFault::InvalidInteger { line, column: 2, text: f[2], kind: parse_u32_spec(f[2])->Err_0 })
    } else if parse_u32_spec(f[3]) is Err {
        Err(CsvFault::InvalidInteger { line, column: 3, text: f[3], kind: parse_u32_spec(f[3])->Err_0 })
    } else if check_float_spec(f[4]) is Err {
        Err(CsvFault::InvalidFloat { line, column: 4, text: f[4], kind: check_float_spec(f[4])->Err_0 })
    } else {
        Ok((f[0], f[1], parse_u32_spec(f[2])->Ok_0, parse_u32_spec(f[3])->Ok_0, f[4]))
    }
}

/// The definitions of the lines from index `i` on, added to `acc`; the first
/// faulty record line stops the reading.
pub open spec fn dropped_item_csv_from(
    ls: Seq<Seq<char>>,
    i: int,
    acc: Map<Seq<char>, DroppedItemRecord>,
) -> Result<Map<Seq<char>, DroppedItemRecord>, CsvFault>
    decreases ls.len() - i,
{
    if i < 0 || i >= ls.len() {
        Ok(acc)
    } else if !is_record_line(ls, i) {
        dropped_item_csv_from(ls, i + 1, acc)
    } else {
        match dropped_item_record((i + 1) as nat, fields(ls[i])) {
            Err(e) => Err(e),
            Ok(r) => dropped_item_csv_from(ls, i + 1, acc.insert(r.0, r)),
        }
    }
}

/// The dropped-item definitions, by name, that the CSV text `content`
/// holds, or the fault that refuses it.
pub open spec fn dropped_item_csv(content: Seq<char>) -> Result<Map<Seq<char>, DroppedItemRecord>, CsvFault> {
    dropped_item_csv_from(lines(content), 0, Map::empty())
}

/// The values of a definition read from a file.
pub open spec fn record_of(d: DroppedItemDefinition<FloatLiteral>) -> DroppedItemRecord {
    (d.name@, d.item_type@, d.min_amount, d.max_amount, d.weight@)
}

/// Reads a dropped-item template from CSV text.
pub fn parse_csv(content: &str) -> (r: Result<DroppedItemTemplate<FloatLiteral>, CsvError>)
    ensures
        match dropped_item_csv(content@) {
            Ok(m) => r is Ok && r->Ok_0.definitions@.map_values(|d: DroppedItemDefinition<FloatLiteral>| record_of(d)) == m,
            Err(f) => r is Err && r->Err_0@ == f,
        },
{
    let s = chars_of(content);
    let ls = line_ranges(&s);
    let ghost lv = lines(s@);
    let mut template: DroppedItemTemplate<FloatLiteral> = DroppedItemTemplate::new();
    let mut idx: usize = 0;
    proof {
        assert(template.definitions@.map_values(|d: DroppedItemDefinition<FloatLiteral>| record_of(d)) =~= Map::<Seq<char>, DroppedItemRecord>::empty());
    }
    while idx < ls.len()
        invariant
            idx <= ls@.len(),
            s@ == content@,
            lv == lines(s@),
            pieces(s@, ls@) == lv,
            forall|k: int| 0 <= k < ls@.len() ==> (#[trigger] ls@[k]).0 <= ls@[k].1 <= s@.len(),
            dropped_item_csv(content@) == dropped_item_csv_from(
                lv,
                idx as int,
                template.definitions@.map_values(|d: DroppedItemDefinition<FloatLiteral>| record_of(d)),
            ),
        decreases ls@.len() - idx,
    {
        let ghost acc = template.definitions@.map_values(|d: DroppedItemDefinition<FloatLiteral>| record_of(d));
        let (lo, hi) = ls[idx];
        proof {
            assert(lv[idx as int] == s@.subrange(lo as int, hi as int));
        }
        let (a, b) = trim_range(&s, lo, hi);
        if a == b || idx == 0 {
            idx = idx + 1;
            continue;
        }
        let line = idx + 1;
        let f = field_ranges(&s, lo, hi);
        let ghost fv = fields(lv[idx as int]);
        if f.len() != 5 {
            return Err(CsvError::ColumnCount { line, expected: 5, found: f.len() });
        }
        proof {
            assert(fv[0] == s@.subrange(f@[0].0 as int, f@[0].1 as int));
            assert(fv[1] == s@.subrange(f@[1].0 as int, f@[1].1 as int));
            assert(fv[2] == s@.subrange(f@[2].0 as int, f@[2].1 as int));
            assert(fv[3] == s@.subrange(f@[3].0 as int, f@[3].1 as int));
            assert(fv[4] == s@.subrange(f@[4].0 as int, f@[4].1 as int));
        }
        let min_amount = match parse_u32_range(&s, f[2].0, f[2].1) {
            Ok(v) => v,
            Err(kind) => {
                return Err(integer_error(content, line, 2, f[2], kind));
            },
        };
        let max_amount = match parse_u32_range(&s, f[3].0, f[3].1) {
            Ok(v) => v,
            Err(kind) => {
                return Err(integer_error(content, line, 3, f[3], kind));
            },
        };
        if let Err(kind) = check_float_range(&s, f[4].0, f[4].1) {
            return Err(float_error(content, line, 4, f[4], kind));
        }
        let def = DroppedItemDefinition {
            name: substring(content, f[0].0, f[0].1),
            item_type: substring(content, f[1].0, f[1].1),
            min_amount,
            max_amount,
            weight: FloatLiteral::from_range(content, f[4].0, f[4].1),
        };
        let ghost rec = record_of(def);
        template.define(def);
        proof {
            assert(template.definitions@.map_values(|d: DroppedItemDefinition<FloatLiteral>| record_of(d)) =~= acc.insert(rec.0, rec));
        }
        idx = idx + 1;
    }
    Ok(template)
}

/// Where a line stands does not change what record it holds, only the line
/// number that a fault reports.
proof fn lemma_record_line_number(l1: nat, l2: nat, f: Seq<Seq<char>>)
    ensures
        dropped_item_record(l1, f) is Ok <==> dropped_item_record(l2, f) is Ok,
        dropped_item_record(l1, f) is Ok ==> dropped_item_record(l1, f) == dropped_item_record(l2, f),
{
}

/// Past the inserted line `w` at `k`, reading the longer list from `j` and
/// the shorter one from `j - 1` succeed or fail together, with the same
/// definitions.
proof fn lemma_read_after(ls: Seq<Seq<char>>, k: int, w: Seq<char>, j: int, acc: Map<Seq<char>, DroppedItemRecord>)
    requires
        1 <= k <= ls.len(),
        k < j <= ls.len() + 1,
    ensures
        dropped_item_csv_from(ls.insert(k, w), j, acc) is Ok <==> dropped_item_csv_from(ls, j - 1, acc) is Ok,
        dropped_item_csv_from(ls.insert(k, w), j, acc) is Ok ==> dropped_item_csv_from(ls.insert(k, w), j, acc) == dropped_item_csv_from(ls, j - 1, acc),
    decreases ls.len() + 1 - j,
{
    let l2 = ls.insert(k, w);
    if j < l2.len() {
        assert(l2[j] == ls[j - 1]);
        assert(is_record_line(l2, j) == is_record_line(ls, j - 1));
        if is_record_line(l2, j) {
            lemma_record_line_number((j + 1) as nat, j as nat, fields(ls[j - 1]));
            match dropped_item_record((j + 1) as nat, fields(l2[j])) {
                Err(_) => {},
                Ok(r) => {
                    lemma_read_after(ls, k, w, j + 1, acc.insert(r.0, r));
                },
            }
        } else {
            lemma_read_after(ls, k, w, j + 1, acc);
        }
    }
}

/// Up to the inserted blank line `w` at `k`, reading the longer and the
/// shorter list from `j` succeed or fail together, with the same
/// definitions.
proof fn lemma_read_before(ls: Seq<Seq<char>>, k: int, w: Seq<char>, j: int, acc: Map<Seq<char>, DroppedItemRecord>)
    requires
        1 <= k <= ls.len(),
        0 <= j <= k,
        trim(w).len() == 0,
    ensures
        dropped_item_csv_from(ls.insert(k, w), j, acc) is Ok <==> dropped_item_csv_from(ls, j, acc) is Ok,
        dropped_item_csv_from(ls.insert(k, w), j, acc) is Ok ==> dropped_item_csv_from(ls.insert(k, w), j, acc) == dropped_item_csv_from(ls, j, acc),
    decreases k - j,
{
    let l2 = ls.insert(k, w);
    if j == k {
        assert(l2[k] == w);
        assert(!is_record_line(l2, k));
        lemma_read_after(ls, k, w, k + 1, acc);
    } else {
        assert(l2[j] == ls[j]);
        assert(is_record_line(l2, j) == is_record_line(ls, j));
        if is_record_line(l2, j) {
            match dropped_item_record((j + 1) as nat, fields(l2[j])) {
                Err(_) => {},
                Ok(r) => {
                    lemma_read_before(ls, k, w, j + 1, acc.insert(r.0, r));
                },
            }
        } else {
            lemma_read_before(ls, k, w, j + 1, acc);
        }
    }
}

/// A blank line (spaces, tabs, a carriage return) after the header holds
/// no record and no fault: inserting one anywhere after the first line
/// neither makes a file fail nor changes the definitions it gives.
pub proof fn law_blank_line_ignored(x: Seq<char>, w: Seq<char>, y: Seq<char>)
    requires
        forall|j: int| 0 <= j < w.len() ==> w[j] == ' ' || w[j] == '\t' || w[j] == '\r',
    ensures
        dropped_item_csv(x + seq!['\n'] + w + seq!['\n'] + y) is Ok <==> dropped_item_csv(x + seq!['\n'] + y) is Ok,
        dropped_item_csv(x + seq!['\n'] + y) is Ok ==> dropped_item_csv(x + seq!['\n'] + w + seq!['\n'] + y) == dropped_item_csv(
            x + seq!['\n'] + y,
        ),
{
    assert(!w.contains('\n')) by {
        if w.contains('\n') {
            let j = choose|j: int| 0 <= j < w.len() && w[j] == '\n';
            assert(w[j] == ' ' || w[j] == '\t' || w[j] == '\r');
        }
    }
    lemma_lines_insert(x, w, y);
    lemma_trim_blank(w);
    lemma_split_nonempty(x, '\n');
    let k = split(x, '\n').len() as int;
    lemma_read_before(lines(x + seq!['\n'] + y), k, w, 0, Map::empty());
}

} // verus!
