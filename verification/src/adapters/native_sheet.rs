//! Spreadsheets read natively (no LibreOffice): the first sheet's rows
//! become CSV, or objects keyed by the header row as JSON/YAML/text.
use vstd::prelude::*;

use crate::adapters::native_text::{
    string_object, string_object_value, string_seq, value_written, write_value, Written,
};
use crate::entries::{
    assoc, entries_from_pairs, entry_view, entry_views, holds_map, lemma_sorted_entries,
    sorted_entries, Entry,
};
use crate::error::ConverterError;
use crate::serial::{
    array_value, csv_written, debug_quoted, debug_text, rows_chars, sheet_cells, sheet_names_of,
    sheet_rows_of, value_json, values_json, workbook_sheets, write_csv, JsonView,
};
use crate::text::{dec, push_dec, push_str, str_is};

verus! {

/// What reading the first sheet of an xlsx workbook held in bytes gives:
/// its rows, or the error's text.
pub open spec fn first_sheet_spec(b: Seq<u8>) -> Result<Seq<Seq<Seq<char>>>, Seq<char>> {
    match workbook_sheets(b) {
        Err(e) => Err("cannot open workbook: "@ + e),
        Ok(names) => if names.len() == 0 {
            Err("workbook has no sheets"@)
        } else {
            match sheet_cells(b, names[0]) {
                Ok(rows) => Ok(rows),
                Err(e) => Err("cannot read sheet "@ + debug_quoted(names[0]) + ": "@ + e),
            }
        },
    }
}

/// The rows of the first sheet of an xlsx workbook held in `data`.
pub fn first_sheet_rows(data: &[u8]) -> (r: Result<Vec<Vec<String>>, ConverterError>)
    ensures
        match first_sheet_spec(data@) {
            Ok(rows) => r matches Ok(v) && rows_chars(v@) == rows,
            Err(m) => r matches Err(ConverterError::Parse(t)) && t@ == m,
        },
{
    let names = match sheet_names_of(data) {
        Ok(n) => n,
        Err(e) => {
            let mut m = String::new();
            push_str(&mut m, "cannot open workbook: ");
            push_str(&mut m, e.as_str());
            return Err(ConverterError::Parse(m));
        },
    };
    if names.len() == 0 {
        return Err(ConverterError::Parse("workbook has no sheets".to_owned()));
    }
    assert(names@.map_values(|s: String| s@)[0] == names@[0]@);
    match sheet_rows_of(data, names[0].as_str()) {
        Ok(rows) => Ok(rows),
        Err(e) => {
            let mut m = String::new();
            push_str(&mut m, "cannot read sheet ");
            let q = debug_text(names[0].as_str());
            push_str(&mut m, q.as_str());
            push_str(&mut m, ": ");
            push_str(&mut m, e.as_str());
            Err(ConverterError::Parse(m))
        },
    }
}

/// The key of the `i`-th column: its header, or `col{i}` when the header is empty.
pub open spec fn column_key(h: Seq<char>, i: nat) -> Seq<char> {
    if h.len() == 0 {
        "col"@ + dec(i)
    } else {
        h
    }
}

/// The field of the `i`-th column of a row, empty when the row is shorter.
pub open spec fn column_field(row: Seq<Seq<char>>, i: int) -> Seq<char> {
    if 0 <= i < row.len() {
        row[i]
    } else {
        Seq::empty()
    }
}

/// The pairs of one data row: each header column's key and the row's field.
pub open spec fn sheet_pairs(headers: Seq<Seq<char>>, row: Seq<Seq<char>>) -> Seq<(Seq<char>, Seq<char>)> {
    Seq::new(headers.len(), |i: int| (column_key(headers[i], i as nat), column_field(row, i)))
}

/// One data row as a key-sorted object (a later column with the same key wins).
pub fn sheet_object(headers: &Vec<String>, row: &Vec<String>) -> (r: Vec<Entry>)
    ensures
        holds_map(entry_views(r@), assoc(sheet_pairs(string_seq(headers@), string_seq(row@)))),
{
    let ghost target = sheet_pairs(string_seq(headers@), string_seq(row@));
    let mut pairs: Vec<Entry> = Vec::new();
    let mut i: usize = 0;
    while i < headers.len()
        invariant
            i <= headers.len(),
            target == sheet_pairs(string_seq(headers@), string_seq(row@)),
            entry_views(pairs@) == target.take(i as int),
        decreases headers.len() - i,
    {
        let key = if headers[i].as_str().is_empty() {
            let mut k = String::new();
            push_str(&mut k, "col");
            push_dec(&mut k, i as u64);
            k
        } else {
            headers[i].clone()
        };
        let field = if i < row.len() {
            row[i].clone()
        } else {
            String::new()
        };
        let ghost before = pairs@;
        pairs.push((key, field));
        assert(entry_views(pairs@) == entry_views(before).push(entry_view(pairs@[i as int])));
        assert(target.take(i + 1) == target.take(i as int).push(target[i as int]));
        i += 1;
    }
    assert(target.take(headers.len() as int) == target);
    entries_from_pairs(&pairs)
}

/// The characters of a list of rows.
pub open spec fn sheet_view(rows: Seq<Vec<String>>) -> Seq<Seq<Seq<char>>> {
    rows.map_values(|row: Vec<String>| string_seq(row@))
}

/// The JSON value of a sheet: an array holding, for each row after the
/// header row, its object keyed by the header's columns.
pub open spec fn sheet_json(rows: Seq<Seq<Seq<char>>>) -> JsonView {
    JsonView::Array(rows.skip(1).map_values(
        |row: Seq<Seq<char>>| string_object(sorted_entries(sheet_pairs(rows[0], row))),
    ))
}

/// What converting the first sheet's `rows` gives.
pub open spec fn sheet_conversion(
    from: Seq<char>,
    to: Seq<char>,
    rows: Seq<Seq<Seq<char>>>,
    r: Result<Written, ConverterError>,
) -> bool {
    if from == to {
        r matches Ok(Written::CopyInput)
    } else if to == "csv"@ {
        match csv_written(rows, 44u8) {
            Ok(b) => r matches Ok(Written::Bytes(x)) && x@ == b,
            Err(e) => r matches Err(ConverterError::Parse(m)) && m@ == e,
        }
    } else if to == "json"@ || to == "yaml"@ || to == "txt"@ || to == "md"@ {
        if rows.len() == 0 {
            r matches Ok(Written::Text(s)) && s@ == "[]"@
        } else {
            value_written(sheet_json(rows), to, r)
        }
    } else {
        r matches Err(ConverterError::Parse(m)) && m@ == "native_sheet cannot emit "@ + to
    }
}

/// Converts the rows of a workbook's first sheet (`rows[0]` is the header row).
pub fn convert(from: &str, to: &str, rows: &Vec<Vec<String>>) -> (r: Result<Written, ConverterError>)
    ensures
        sheet_conversion(from@, to@, sheet_view(rows@), r),
{
    if str_is(from, to) {
        return Ok(Written::CopyInput);
    }
    if str_is(to, "csv") {
        assert(sheet_view(rows@) == rows@.map_values(|row: Vec<String>| row@.map_values(|s: String| s@)));
        return match write_csv(rows, 44) {
            Ok(b) => Ok(Written::Bytes(b)),
            Err(e) => Err(ConverterError::Parse(e)),
        };
    }
    if str_is(to, "json") || str_is(to, "yaml") || str_is(to, "txt") || str_is(to, "md") {
        if rows.len() == 0 {
            return Ok(Written::Text("[]".to_owned()));
        }
        let headers = &rows[0];
        let ghost sv = sheet_view(rows@);
        let ghost h = sv[0];
        let ghost body = sv.skip(1);
        let mut items: Vec<serde_json::Value> = Vec::new();
        let mut i: usize = 1;
        while i < rows.len()
            invariant
                1 <= i <= rows.len(),
                sv == sheet_view(rows@),
                h == sv[0],
                h == string_seq(headers@),
                body == sv.skip(1),
                values_json(items@) == body.take(i - 1).map_values(
                    |row: Seq<Seq<char>>| string_object(sorted_entries(sheet_pairs(h, row))),
                ),
            decreases rows.len() - i,
        {
            let obj = sheet_object(headers, &rows[i]);
            assert(body[i - 1] == string_seq(rows@[i as int]@));
            proof {
                lemma_sorted_entries(entry_views(obj@), sheet_pairs(h, body[i - 1]));
            }
            let ghost before = items@;
            items.push(string_object_value(&obj));
            assert(values_json(items@) == values_json(before).push(value_json(items@[i - 1])));
            assert(body.take(i as int).map_values(|row: Seq<Seq<char>>| string_object(sorted_entries(sheet_pairs(h, row))))
                == body.take(i - 1).map_values(|row: Seq<Seq<char>>| string_object(sorted_entries(sheet_pairs(h, row)))).push(
                string_object(sorted_entries(sheet_pairs(h, body[i - 1]))),
            ));
            i += 1;
        }
        assert(body.take(rows.len() - 1) == body);
        let all = array_value(items);
        assert(value_json(all) == sheet_json(sv));
        return write_value(all, to);
    }
    let mut m = String::new();
    push_str(&mut m, "native_sheet cannot emit ");
    push_str(&mut m, to);
    Err(ConverterError::Parse(m))
}

/// The sheet read is the one the workbook lists first: when the workbook
/// lists sheets, reading succeeds with exactly the cells of the sheet at
/// index 0, and fails, naming that sheet, exactly when that sheet cannot
/// be read.
pub proof fn law_reads_first_listed_sheet(b: Seq<u8>, names: Seq<Seq<char>>)
    requires
        workbook_sheets(b) == Ok::<Seq<Seq<char>>, Seq<char>>(names),
        names.len() > 0,
    ensures
        match sheet_cells(b, names[0]) {
            Ok(rows) => first_sheet_spec(b) == Ok::<Seq<Seq<Seq<char>>>, Seq<char>>(rows),
            Err(e) => first_sheet_spec(b) == Err::<Seq<Seq<Seq<char>>>, Seq<char>>(
                "cannot read sheet "@ + debug_quoted(names[0]) + ": "@ + e,
            ),
        },
{
}

} // verus!
