//! Conversions between text-ish formats without external tools: structured
//! data (JSON, YAML, TOML, XML, CSV/TSV) through a common JSON value, and
//! plain text to base64, HTML, Markdown and between subtitle formats.
use vstd::prelude::*;

use crate::entries::{
    assoc, entries_from_pairs, entry_view, entry_views, has_key, holds_map, keys_sorted,
    lemma_assoc_distinct, lemma_same_keys, lemma_sorted_entries, lemma_sorted_entries_hold,
    sorted_entries, Entry,
};
use crate::error::ConverterError;
use crate::serial::{
    array_items, array_value, b64_decode_error, b64_encode, base64_decode, base64_encode, csv_read, csv_written,
    entries_json, json_parse, json_pretty, json_pretty_text, lemma_b64_injective, lemma_b64_no_ws,
    lossy_text, object_entries, object_value, parse_json, parse_toml, parse_xml, parse_yaml,
    read_csv, string_value, toml_emit, toml_parse, toml_text, utf8_lossy,
    value_as_str, value_json, value_kind, values_json, write_csv, xml_emit, xml_parse, xml_text,
    yaml_emit, yaml_parse, yaml_text, JsonKind, JsonView,
};
use crate::text::{
    chars_of, is_ws, lex_lt, occurs_at, occurs_at_exec, push_chars, push_str, starts_with, str_is,
    string_from_chars, trim, trim_chars, trim_start, ws_prefix_len, ws_suffix_len,
};

verus! {

/// What a conversion leaves to write to the output file.
#[derive(Debug)]
pub enum Written {
    /// The input file, unchanged.
    CopyInput,
    /// Text, written as UTF-8.
    Text(String),
    /// Raw bytes.
    Bytes(Vec<u8>),
}

/// `s` with every non-overlapping occurrence of the non-empty `pat`, from
/// left to right, replaced by `rep` (what `str::replace` does).
pub open spec fn replace_seq(s: Seq<char>, pat: Seq<char>, rep: Seq<char>) -> Seq<char>
    decreases s.len(),
{
    if s.len() == 0 || pat.len() == 0 {
        s
    } else if starts_with(s, pat) {
        rep + replace_seq(s.skip(pat.len() as int), pat, rep)
    } else {
        seq![s[0]] + replace_seq(s.drop_first(), pat, rep)
    }
}

/// Executable `replace_seq`.
pub fn replace_all(v: &Vec<char>, pat: &Vec<char>, rep: &Vec<char>) -> (r: Vec<char>)
    requires
        pat.len() > 0,
    ensures
        r@ == replace_seq(v@, pat@, rep@),
{
    let mut out: Vec<char> = Vec::new();
    let mut i: usize = 0;
    assert(v@.skip(0) == v@);
    while i < v.len()
        invariant
            i <= v.len(),
            pat.len() > 0,
            out@ + replace_seq(v@.skip(i as int), pat@, rep@) == replace_seq(v@, pat@, rep@),
        decreases v.len() - i,
    {
        let ghost rest = v@.skip(i as int);
        let hit = occurs_at_exec(v, pat, i);
        proof {
            if hit {
                assert(rest.take(pat.len() as int) == v@.subrange(i as int, i + pat.len()));
                assert(rest.skip(pat.len() as int) == v@.skip(i + pat.len()));
            } else {
                if pat.len() <= rest.len() {
                    assert(rest.take(pat.len() as int) == v@.subrange(i as int, i + pat.len()));
                }
                assert(rest.drop_first() == v@.skip(i + 1));
                assert(rest[0] == v@[i as int]);
            }
        }
        if hit {
            let ghost before = out@;
            let mut j: usize = 0;
            while j < rep.len()
                invariant
                    j <= rep.len(),
                    out@ == before + rep@.take(j as int),
                decreases rep.len() - j,
            {
                out.push(rep[j]);
                assert(rep@.take(j + 1) == rep@.take(j as int).push(rep@[j as int]));
                j += 1;
            }
            assert(rep@.take(rep.len() as int) == rep@);
            assert(out@ + replace_seq(v@.skip(i + pat.len()), pat@, rep@) == before + (rep@ + replace_seq(v@.skip(i + pat.len()), pat@, rep@)));
            i += pat.len();
        } else {
            let ghost before = out@;
            out.push(v[i]);
            assert(out@ + replace_seq(v@.skip(i + 1), pat@, rep@) == before + (seq![v@[i as int]] + replace_seq(v@.skip(i + 1), pat@, rep@)));
            i += 1;
        }
    }
    assert(v@.skip(i as int).len() == 0);
    assert(out@ + replace_seq(v@.skip(i as int), pat@, rep@) == out@);
    out
}

/// `s` with `&` and `<` escaped for HTML.
pub open spec fn html_escape(s: Seq<char>) -> Seq<char> {
    replace_seq(replace_seq(s, seq!['&'], "&amp;"@), seq!['<'], "&lt;"@)
}

/// The text that a plain-text conversion writes, when it writes text.
pub open spec fn raw_text(from: Seq<char>, to: Seq<char>, text: Seq<char>) -> Seq<char> {
    if to == "html"@ {
        "<!doctype html><html><body><pre>"@ + html_escape(text) + "</pre></body></html>"@
    } else if to == "md"@ {
        "# Converted from "@ + from + "\n\n```\n"@ + text + "\n```\n"@
    } else if to == "srt"@ && from == "vtt"@ {
        replace_seq(replace_seq(text, "WEBVTT\n"@, Seq::empty()), seq!['.'], seq![','])
    } else if to == "vtt"@ && from == "srt"@ {
        "WEBVTT\n\n"@ + replace_seq(text, seq![','], seq!['.'])
    } else {
        text
    }
}

/// What decoding the base64 text `text` gives: the bytes whose encoding is
/// the text without surrounding whitespace, or a parse error when no bytes
/// have that encoding.
pub open spec fn decodes_b64(text: Seq<char>, r: Result<Written, ConverterError>) -> bool {
    match r {
        Ok(Written::Bytes(b)) => b64_encode(b@) == trim(text),
        Err(ConverterError::Parse(m)) => m@ == "invalid base64: "@ + b64_decode_error(trim(text))
            && forall|b: Seq<u8>| b64_encode(b) != trim(text),
        _ => false,
    }
}

/// What a plain-text conversion of the bytes `raw` gives.
pub open spec fn raw_conversion(
    from: Seq<char>,
    to: Seq<char>,
    raw: Seq<u8>,
    r: Result<Written, ConverterError>,
) -> bool {
    let text = utf8_lossy(raw);
    if to == "b64"@ {
        r matches Ok(Written::Text(s)) && s@ == b64_encode(raw)
    } else if from == "b64"@ {
        decodes_b64(text, r)
    } else {
        r matches Ok(Written::Text(s)) && s@ == raw_text(from, to, text)
    }
}

/// Whether the format is read as structured data.
pub open spec fn is_structured(f: Seq<char>) -> bool {
    f == "json"@ || f == "yaml"@ || f == "toml"@ || f == "xml"@ || f == "csv"@ || f == "tsv"@
}

/// Whether `r` refuses to write the target `to`.
pub open spec fn refused_target(to: Seq<char>, r: Result<Written, ConverterError>) -> bool {
    r matches Err(ConverterError::Parse(m)) && m@ == "native_text cannot emit "@ + to
}

/// What a writer's text result gives: the text, or a parse error with
/// `prefix` before the writer's error.
pub open spec fn text_written(
    res: Result<Seq<char>, Seq<char>>,
    prefix: Seq<char>,
    r: Result<Written, ConverterError>,
) -> bool {
    match res {
        Ok(s) => r matches Ok(Written::Text(t)) && t@ == s,
        Err(e) => r matches Err(ConverterError::Parse(m)) && m@ == prefix + e,
    }
}

/// The TOML document for a JSON value: TOML needs a table at its root, so
/// an array goes under `items` and any other non-object under `value`.
pub open spec fn toml_doc(j: JsonView) -> JsonView {
    match j {
        JsonView::Object(_) => j,
        JsonView::Array(_) => JsonView::Object(seq![("items"@, j)]),
        _ => JsonView::Object(seq![("value"@, j)]),
    }
}

/// The text of a JSON string, else empty.
pub open spec fn str_field(j: JsonView) -> Seq<char> {
    match j {
        JsonView::Str(s) => s,
        _ => Seq::empty(),
    }
}

/// The CSV row of a JSON value: an object's entries, in its order, with
/// their string values (any other value an empty field); nothing for a
/// value that is not an object.
pub open spec fn json_row(j: JsonView) -> Seq<(Seq<char>, Seq<char>)> {
    match j {
        JsonView::Object(es) => es.map_values(|e: (Seq<char>, JsonView)| (e.0, str_field(e.1))),
        _ => Seq::empty(),
    }
}

/// The CSV rows of a JSON value: one per element of an array, one for an
/// object, none otherwise.
pub open spec fn json_rows(j: JsonView) -> Seq<Seq<(Seq<char>, Seq<char>)>> {
    match j {
        JsonView::Array(items) => items.map_values(|x: JsonView| json_row(x)),
        JsonView::Object(_) => seq![json_row(j)],
        _ => Seq::empty(),
    }
}

/// What writing the JSON value `j` as `to` gives.
pub open spec fn value_written(j: JsonView, to: Seq<char>, r: Result<Written, ConverterError>) -> bool {
    if to == "json"@ || to == "txt"@ || to == "md"@ {
        text_written(json_pretty_text(j), Seq::empty(), r)
    } else if to == "yaml"@ {
        text_written(yaml_emit(j), Seq::empty(), r)
    } else if to == "toml"@ {
        text_written(toml_emit(toml_doc(j)), "cannot represent as TOML (needs a table at root): "@, r)
    } else if to == "xml"@ {
        text_written(xml_emit(j), Seq::empty(), r)
    } else if to == "csv"@ || to == "tsv"@ {
        match csv_written(csv_records_spec(json_rows(j)), if to == "tsv"@ { 9u8 } else { 44u8 }) {
            Ok(b) => r matches Ok(Written::Bytes(x)) && x@ == b,
            Err(e) => r matches Err(ConverterError::Parse(m)) && m@ == e,
        }
    } else {
        refused_target(to, r)
    }
}

/// An object of string values, keyed as the entries are.
pub open spec fn string_object(e: Seq<(Seq<char>, Seq<char>)>) -> JsonView {
    JsonView::Object(e.map_values(|p: (Seq<char>, Seq<char>)| (p.0, JsonView::Str(p.1))))
}

/// The JSON value that CSV reads as: an array holding, for each record,
/// the object of its fields keyed by the header row (a later duplicate
/// header wins; surplus fields or headers are dropped).
pub open spec fn csv_json(h: Seq<Seq<char>>, recs: Seq<Seq<Seq<char>>>) -> JsonView {
    JsonView::Array(recs.map_values(|rec: Seq<Seq<char>>| string_object(sorted_entries(zip_pairs(h, rec)))))
}

/// What reading structured input gives: its JSON value, or the error's
/// text. JSON and XML are parsed into a JSON value; YAML and TOML into a
/// document that is then converted to one; CSV and TSV (tab-separated)
/// become an array of objects keyed by the header row.
pub open spec fn structured_read(from: Seq<char>, input: Seq<char>, raw: Seq<u8>) -> Result<JsonView, Seq<char>> {
    let text = utf8_lossy(raw);
    if from == "json"@ {
        match json_parse(text) {
            Ok(j) => Ok(j),
            Err(e) => Err("invalid JSON in "@ + input + ": "@ + e),
        }
    } else if from == "yaml"@ {
        match yaml_parse(text) {
            Ok(c) => c,
            Err(e) => Err("invalid YAML: "@ + e),
        }
    } else if from == "toml"@ {
        match toml_parse(text) {
            Ok(c) => c,
            Err(e) => Err("invalid TOML: "@ + e),
        }
    } else if from == "xml"@ {
        match xml_parse(text) {
            Ok(j) => Ok(j),
            Err(e) => Err("invalid XML: "@ + e),
        }
    } else {
        match csv_read(raw, if from == "tsv"@ { 9u8 } else { 44u8 }) {
            Ok((h, recs)) => Ok(csv_json(h, recs)),
            Err(e) => Err(e),
        }
    }
}

/// What converting structured input gives: the reading error, else what
/// writing the value read gives.
pub open spec fn structured_conversion(
    from: Seq<char>,
    to: Seq<char>,
    input: Seq<char>,
    raw: Seq<u8>,
    r: Result<Written, ConverterError>,
) -> bool {
    match structured_read(from, input, raw) {
        Ok(j) => value_written(j, to, r),
        Err(msg) => r matches Err(ConverterError::Parse(m)) && m@ == msg,
    }
}

/// What `convert` gives for `from -> to` on the input named `input` holding `raw`.
pub open spec fn text_conversion(
    from: Seq<char>,
    to: Seq<char>,
    input: Seq<char>,
    raw: Seq<u8>,
    r: Result<Written, ConverterError>,
) -> bool {
    if from == to {
        r matches Ok(Written::CopyInput)
    } else if is_structured(from) {
        structured_conversion(from, to, input, raw, r)
    } else {
        raw_conversion(from, to, raw, r)
    }
}

/// The pairs `(h[i], f[i])` for the positions that both lists have.
pub open spec fn zip_pairs(h: Seq<Seq<char>>, f: Seq<Seq<char>>) -> Seq<(Seq<char>, Seq<char>)> {
    Seq::new(if h.len() <= f.len() { h.len() } else { f.len() }, |i: int| (h[i], f[i]))
}

/// The characters of a list of strings.
pub open spec fn string_seq(v: Seq<String>) -> Seq<Seq<char>> {
    v.map_values(|s: String| s@)
}

/// One CSV record as a key-sorted map from header to field (a later
/// duplicate header wins; surplus fields or headers are dropped).
pub fn record_entries(headers: &Vec<String>, record: &Vec<String>) -> (r: Vec<Entry>)
    ensures
        holds_map(entry_views(r@), assoc(zip_pairs(string_seq(headers@), string_seq(record@)))),
{
    let n = if headers.len() <= record.len() {
        headers.len()
    } else {
        record.len()
    };
    let mut pairs: Vec<Entry> = Vec::new();
    let mut i: usize = 0;
    while i < n
        invariant
            i <= n,
            n <= headers.len(),
            n <= record.len(),
            entry_views(pairs@) == zip_pairs(string_seq(headers@), string_seq(record@)).take(
                i as int,
            ),
        decreases n - i,
    {
        let ghost before = pairs@;
        pairs.push((headers[i].clone(), record[i].clone()));
        assert(entry_views(pairs@) == entry_views(before).push(entry_view(pairs@[i as int])));
        assert(zip_pairs(string_seq(headers@), string_seq(record@)).take(i + 1) == zip_pairs(
            string_seq(headers@),
            string_seq(record@),
        ).take(i as int).push((headers@[i as int]@, record@[i as int]@)));
        i += 1;
    }
    assert(zip_pairs(string_seq(headers@), string_seq(record@)).take(n as int) == zip_pairs(
        string_seq(headers@),
        string_seq(record@),
    ));
    entries_from_pairs(&pairs)
}

/// The keys of a row.
pub open spec fn row_keys(row: Seq<(Seq<char>, Seq<char>)>) -> Seq<Seq<char>> {
    row.map_values(|e: (Seq<char>, Seq<char>)| e.0)
}

/// The values of a row.
pub open spec fn row_values(row: Seq<(Seq<char>, Seq<char>)>) -> Seq<Seq<char>> {
    row.map_values(|e: (Seq<char>, Seq<char>)| e.1)
}

/// The CSV records for rows: the first row's keys as the header, then each
/// row's values.
pub open spec fn csv_records_spec(rows: Seq<Seq<(Seq<char>, Seq<char>)>>) -> Seq<Seq<Seq<char>>> {
    if rows.len() == 0 {
        Seq::empty()
    } else {
        seq![row_keys(rows[0])] + rows.map_values(|row: Seq<(Seq<char>, Seq<char>)>| row_values(row))
    }
}

/// The characters of a list of rows.
pub open spec fn rows_view(rows: Seq<Vec<Entry>>) -> Seq<Seq<(Seq<char>, Seq<char>)>> {
    rows.map_values(|row: Vec<Entry>| entry_views(row@))
}

/// The characters of a list of records.
pub open spec fn records_view(recs: Seq<Vec<String>>) -> Seq<Seq<Seq<char>>> {
    recs.map_values(|rec: Vec<String>| string_seq(rec@))
}

fn row_part(row: &Vec<Entry>, keys: bool) -> (r: Vec<String>)
    ensures
        string_seq(r@) == if keys {
            row_keys(entry_views(row@))
        } else {
            row_values(entry_views(row@))
        },
{
    let mut out: Vec<String> = Vec::new();
    let mut i: usize = 0;
    let ghost target = if keys {
        row_keys(entry_views(row@))
    } else {
        row_values(entry_views(row@))
    };
    while i < row.len()
        invariant
            i <= row.len(),
            target == if keys {
                row_keys(entry_views(row@))
            } else {
                row_values(entry_views(row@))
            },
            string_seq(out@) == target.take(i as int),
        decreases row.len() - i,
    {
        let ghost before = out@;
        if keys {
            out.push(row[i].0.clone());
        } else {
            out.push(row[i].1.clone());
        }
        assert(string_seq(out@) == string_seq(before).push(out@[i as int]@));
        assert(target.take(i + 1) == target.take(i as int).push(target[i as int]));
        i += 1;
    }
    assert(target.take(row.len() as int) == target);
    out
}

/// The CSV records of rows: a header from the first row, then the values.
pub fn csv_records(rows: &Vec<Vec<Entry>>) -> (r: Vec<Vec<String>>)
    ensures
        records_view(r@) == csv_records_spec(rows_view(rows@)),
{
    let mut out: Vec<Vec<String>> = Vec::new();
    if rows.len() == 0 {
        assert(records_view(out@) =~= csv_records_spec(rows_view(rows@)));
        return out;
    }
    out.push(row_part(&rows[0], true));
    let ghost rv = rows_view(rows@);
    let mut i: usize = 0;
    while i < rows.len()
        invariant
            i <= rows.len(),
            rows.len() > 0,
            rv == rows_view(rows@),
            out.len() == i + 1,
            records_view(out@) == (seq![row_keys(rv[0])] + rv.map_values(
                |row: Seq<(Seq<char>, Seq<char>)>| row_values(row),
            )).take(i + 1),
        decreases rows.len() - i,
    {
        let ghost before = out@;
        out.push(row_part(&rows[i], false));
        assert(records_view(out@) == records_view(before).push(out@[i + 1]@.map_values(|s: String| s@)));
        assert((seq![row_keys(rv[0])] + rv.map_values(|row: Seq<(Seq<char>, Seq<char>)>| row_values(row))).take(i + 2)
            == (seq![row_keys(rv[0])] + rv.map_values(|row: Seq<(Seq<char>, Seq<char>)>| row_values(row))).take(i + 1).push(row_values(rv[i as int])));
        i += 1;
    }
    assert((seq![row_keys(rv[0])] + rv.map_values(|row: Seq<(Seq<char>, Seq<char>)>| row_values(row))).take(rows.len() + 1)
        == seq![row_keys(rv[0])] + rv.map_values(|row: Seq<(Seq<char>, Seq<char>)>| row_values(row)));
    out
}

/// How a JSON value is made a TOML document, which needs a table at its root.
#[derive(Debug, Clone, Copy, PartialEq, Eq, Structural)]
pub enum TomlRoot {
    /// An object is the table itself.
    AsIs,
    /// An array goes under the key `items`.
    Items,
    /// Any other value goes under the key `value`.
    Value,
}

/// The TOML root for a JSON value of the given kind.
pub fn toml_root(kind: JsonKind) -> (r: TomlRoot)
    ensures
        r == (match kind {
            JsonKind::Object => TomlRoot::AsIs,
            JsonKind::Array => TomlRoot::Items,
            _ => TomlRoot::Value,
        }),
{
    match kind {
        JsonKind::Object => TomlRoot::AsIs,
        JsonKind::Array => TomlRoot::Items,
        _ => TomlRoot::Value,
    }
}

fn parse_error(prefix: &str, e: &String) -> (r: ConverterError)
    ensures
        r matches ConverterError::Parse(m) && m@ == prefix@ + e@,
{
    let mut m = String::new();
    push_str(&mut m, prefix);
    push_str(&mut m, e.as_str());
    ConverterError::Parse(m)
}

/// The CSV row of a JSON value.
fn csv_row_of(v: &serde_json::Value) -> (r: Vec<Entry>)
    ensures
        entry_views(r@) == json_row(value_json(*v)),
{
    let entries = object_entries(v);
    let ghost target = entries_json(entries@).map_values(|e: (Seq<char>, JsonView)| (e.0, str_field(e.1)));
    let mut row: Vec<Entry> = Vec::new();
    let mut i: usize = 0;
    while i < entries.len()
        invariant
            i <= entries.len(),
            target == entries_json(entries@).map_values(|e: (Seq<char>, JsonView)| (e.0, str_field(e.1))),
            entry_views(row@) == target.take(i as int),
        decreases entries.len() - i,
    {
        let ghost before = row@;
        let field = match value_as_str(&entries[i].1) {
            Some(t) => t,
            None => String::new(),
        };
        row.push((entries[i].0.clone(), field));
        assert(entry_views(row@) == entry_views(before).push(entry_view(row@[i as int])));
        assert(target.take(i + 1) == target.take(i as int).push(target[i as int]));
        i += 1;
    }
    assert(target.take(entries.len() as int) == target);
    proof {
        if !(value_json(*v) is Object) {
            assert(target =~= Seq::<(Seq<char>, Seq<char>)>::empty());
        }
    }
    row
}

/// The JSON object of string fields, for entries with increasing keys.
pub fn string_object_value(row: &Vec<Entry>) -> (r: serde_json::Value)
    requires
        keys_sorted(entry_views(row@)),
    ensures
        value_json(r) == string_object(entry_views(row@)),
{
    let ghost target = entry_views(row@).map_values(|p: (Seq<char>, Seq<char>)| (p.0, JsonView::Str(p.1)));
    let mut fields: Vec<(String, serde_json::Value)> = Vec::new();
    let mut j: usize = 0;
    while j < row.len()
        invariant
            j <= row.len(),
            target == entry_views(row@).map_values(|p: (Seq<char>, Seq<char>)| (p.0, JsonView::Str(p.1))),
            entries_json(fields@) == target.take(j as int),
        decreases row.len() - j,
    {
        let ghost before = fields@;
        fields.push((row[j].0.clone(), string_value(row[j].1.clone())));
        assert(entries_json(fields@) == entries_json(before).push((fields@[j as int].0@, value_json(fields@[j as int].1))));
        assert(target.take(j + 1) == target.take(j as int).push(target[j as int]));
        j += 1;
    }
    assert(target.take(row.len() as int) == target);
    assert(keys_sorted(entries_json(fields@))) by {
        assert forall|a: int, b: int| 0 <= a < b < entries_json(fields@).len() implies lex_lt(
            #[trigger] entries_json(fields@)[a].0,
            #[trigger] entries_json(fields@)[b].0,
        ) by {
            assert(entries_json(fields@)[a].0 == entry_views(row@)[a].0);
            assert(entries_json(fields@)[b].0 == entry_views(row@)[b].0);
        }
    }
    object_value(fields)
}

proof fn lemma_targets_not_csv()
    ensures
        "json"@ != "csv"@,
        "txt"@ != "csv"@,
        "md"@ != "csv"@,
        "yaml"@ != "csv"@,
        "toml"@ != "csv"@,
        "xml"@ != "csv"@,
{
    reveal_strlit("json");
    reveal_strlit("txt");
    reveal_strlit("md");
    reveal_strlit("yaml");
    reveal_strlit("toml");
    reveal_strlit("xml");
    reveal_strlit("csv");
    assert("json"@[0] != "csv"@[0]);
    assert("txt"@[0] != "csv"@[0]);
    assert("md"@[0] != "csv"@[0]);
    assert("yaml"@[0] != "csv"@[0]);
    assert("toml"@[0] != "csv"@[0]);
    assert("xml"@[0] != "csv"@[0]);
}

/// Writes a JSON value as `to`.
pub fn write_value(v: serde_json::Value, to: &str) -> (r: Result<Written, ConverterError>)
    ensures
        value_written(value_json(v), to@, r),
{
    proof {
        lemma_targets_not_csv();
    }
    if str_is(to, "json") || str_is(to, "txt") || str_is(to, "md") {
        match json_pretty(&v) {
            Ok(s) => Ok(Written::Text(s)),
            Err(e) => Err(ConverterError::Parse(e)),
        }
    } else if str_is(to, "yaml") {
        match yaml_text(&v) {
            Ok(s) => Ok(Written::Text(s)),
            Err(e) => Err(ConverterError::Parse(e)),
        }
    } else if str_is(to, "toml") {
        let ghost j = value_json(v);
        let root = toml_root(value_kind(&v));
        let doc = match root {
            TomlRoot::AsIs => v,
            _ => {
                let key = if root == TomlRoot::Items {
                    "items".to_owned()
                } else {
                    "value".to_owned()
                };
                let ghost k = key@;
                let mut es: Vec<(String, serde_json::Value)> = Vec::new();
                es.push((key, v));
                assert(entries_json(es@) =~= seq![(k, j)]);
                object_value(es)
            },
        };
        assert(value_json(doc) == toml_doc(j));
        match toml_text(&doc) {
            Ok(s) => Ok(Written::Text(s)),
            Err(e) => Err(parse_error("cannot represent as TOML (needs a table at root): ", &e)),
        }
    } else if str_is(to, "xml") {
        match xml_text(&v) {
            Ok(s) => Ok(Written::Text(s)),
            Err(e) => Err(ConverterError::Parse(e)),
        }
    } else if str_is(to, "csv") || str_is(to, "tsv") {
        let delim: u8 = if str_is(to, "tsv") {
            9
        } else {
            44
        };
        let ghost j = value_json(v);
        let mut rows: Vec<Vec<Entry>> = Vec::new();
        match value_kind(&v) {
            JsonKind::Array => {
                let items = array_items(&v);
                let ghost xs = values_json(items@);
                let mut i: usize = 0;
                while i < items.len()
                    invariant
                        i <= items.len(),
                        xs == values_json(items@),
                        rows_view(rows@) == xs.take(i as int).map_values(|x: JsonView| json_row(x)),
                    decreases items.len() - i,
                {
                    let ghost before = rows@;
                    rows.push(csv_row_of(&items[i]));
                    assert(rows_view(rows@) == rows_view(before).push(json_row(xs[i as int])));
                    assert(xs.take(i + 1).map_values(|x: JsonView| json_row(x)) == xs.take(i as int).map_values(
                        |x: JsonView| json_row(x),
                    ).push(json_row(xs[i as int])));
                    i += 1;
                }
                assert(xs.take(items.len() as int) == xs);
            },
            JsonKind::Object => {
                rows.push(csv_row_of(&v));
                assert(rows_view(rows@) =~= seq![json_row(j)]);
            },
            _ => {
                assert(rows_view(rows@) =~= json_rows(j));
            },
        }
        assert(rows_view(rows@) == json_rows(j));
        let records = csv_records(&rows);
        assert(records@.map_values(|row: Vec<String>| row@.map_values(|s: String| s@)) =~= records_view(
            records@,
        ));
        match write_csv(&records, delim) {
            Ok(b) => Ok(Written::Bytes(b)),
            Err(e) => Err(ConverterError::Parse(e)),
        }
    } else {
        Err(parse_error("native_text cannot emit ", &to.to_owned()))
    }
}

/// The JSON value of CSV records, keyed by the header row.
fn rows_value(headers: &Vec<String>, records: &Vec<Vec<String>>) -> (r: serde_json::Value)
    ensures
        value_json(r) == csv_json(string_seq(headers@), records_view(records@)),
{
    let ghost h = string_seq(headers@);
    let ghost recs = records_view(records@);
    let mut items: Vec<serde_json::Value> = Vec::new();
    let mut i: usize = 0;
    while i < records.len()
        invariant
            i <= records.len(),
            h == string_seq(headers@),
            recs == records_view(records@),
            values_json(items@) == recs.take(i as int).map_values(
                |rec: Seq<Seq<char>>| string_object(sorted_entries(zip_pairs(h, rec))),
            ),
        decreases records.len() - i,
    {
        let row = record_entries(headers, &records[i]);
        assert(recs[i as int] == string_seq(records@[i as int]@));
        proof {
            lemma_sorted_entries(entry_views(row@), zip_pairs(h, recs[i as int]));
        }
        let ghost before = items@;
        items.push(string_object_value(&row));
        assert(values_json(items@) == values_json(before).push(value_json(items@[i as int])));
        assert(recs.take(i + 1).map_values(|rec: Seq<Seq<char>>| string_object(sorted_entries(zip_pairs(h, rec))))
            == recs.take(i as int).map_values(|rec: Seq<Seq<char>>| string_object(sorted_entries(zip_pairs(h, rec)))).push(
            string_object(sorted_entries(zip_pairs(h, recs[i as int]))),
        ));
        i += 1;
    }
    assert(recs.take(records.len() as int) == recs);
    array_value(items)
}

/// The lossy UTF-8 text of bytes.
fn text_of(raw: &Vec<u8>) -> (r: String)
    ensures
        r@ == utf8_lossy(raw@),
{
    lossy_text(raw.as_slice())
}

/// Converts structured input.
fn convert_structured(from: &str, to: &str, input: &str, raw: &Vec<u8>) -> (r: Result<Written, ConverterError>)
    requires
        is_structured(from@),
    ensures
        structured_conversion(from@, to@, input@, raw@, r),
{
    let value = if str_is(from, "json") {
        let text = text_of(raw);
        match parse_json(text.as_str()) {
            Ok(v) => {
                assert(structured_read(from@, input@, raw@) == Ok::<JsonView, Seq<char>>(value_json(v)));
                v
            },
            Err(e) => {
                let mut m = String::new();
                push_str(&mut m, "invalid JSON in ");
                push_str(&mut m, input);
                push_str(&mut m, ": ");
                push_str(&mut m, e.as_str());
                return Err(ConverterError::Parse(m));
            },
        }
    } else if str_is(from, "yaml") {
        let text = text_of(raw);
        match parse_yaml(text.as_str()) {
            Ok(Ok(v)) => v,
            Ok(Err(e)) => {
                return Err(ConverterError::Parse(e));
            },
            Err(e) => {
                return Err(parse_error("invalid YAML: ", &e));
            },
        }
    } else if str_is(from, "toml") {
        let text = text_of(raw);
        match parse_toml(text.as_str()) {
            Ok(Ok(v)) => v,
            Ok(Err(e)) => {
                return Err(ConverterError::Parse(e));
            },
            Err(e) => {
                return Err(parse_error("invalid TOML: ", &e));
            },
        }
    } else if str_is(from, "xml") {
        let text = text_of(raw);
        match parse_xml(text.as_str()) {
            Ok(v) => {
                assert(structured_read(from@, input@, raw@) == Ok::<JsonView, Seq<char>>(value_json(v)));
                v
            },
            Err(e) => {
                return Err(parse_error("invalid XML: ", &e));
            },
        }
    } else {
        let delim: u8 = if str_is(from, "tsv") {
            9
        } else {
            44
        };
        match read_csv(raw.as_slice(), delim) {
            Ok((headers, records)) => {
                let v = rows_value(&headers, &records);
                assert(string_seq(headers@) =~= headers@.map_values(|s: String| s@));
                assert(records_view(records@) =~= records@.map_values(
                    |row: Vec<String>| row@.map_values(|s: String| s@),
                ));
                assert(structured_read(from@, input@, raw@) == Ok::<JsonView, Seq<char>>(value_json(v)));
                v
            },
            Err(e) => {
                return Err(ConverterError::Parse(e));
            },
        }
    };
    write_value(value, to)
}

/// Converts plain text.
fn convert_raw(from: &str, to: &str, raw: &Vec<u8>) -> (r: Result<Written, ConverterError>)
    requires
        raw.len() <= usize::MAX / 2,
    ensures
        raw_conversion(from@, to@, raw@, r),
{
    if str_is(to, "b64") {
        return Ok(Written::Text(base64_encode(raw.as_slice())));
    }
    let text = text_of(raw);
    if str_is(from, "b64") {
        let tv = chars_of(text.as_str());
        let trimmed = string_from_chars(&trim_chars(&tv));
        return match base64_decode(trimmed.as_str()) {
            Ok(b) => Ok(Written::Bytes(b)),
            Err(e) => Err(parse_error("invalid base64: ", &e)),
        };
    }
    let tv = chars_of(text.as_str());
    let mut out = String::new();
    if str_is(to, "html") {
        let amp_pat = vec!['&'];
        let lt_pat = vec!['<'];
        assert(amp_pat@ == seq!['&']);
        assert(lt_pat@ == seq!['<']);
        let amp = replace_all(&tv, &amp_pat, &chars_of("&amp;"));
        let esc = replace_all(&amp, &lt_pat, &chars_of("&lt;"));
        push_str(&mut out, "<!doctype html><html><body><pre>");
        push_chars(&mut out, &esc);
        push_str(&mut out, "</pre></body></html>");
    } else if str_is(to, "md") {
        push_str(&mut out, "# Converted from ");
        push_str(&mut out, from);
        push_str(&mut out, "\n\n```\n");
        push_chars(&mut out, &tv);
        push_str(&mut out, "\n```\n");
    } else if str_is(to, "srt") && str_is(from, "vtt") {
        let header = chars_of("WEBVTT\n");
        proof {
            reveal_strlit("WEBVTT\n");
        }
        let dot = vec!['.'];
        let comma = vec![','];
        assert(dot@ == seq!['.']);
        assert(comma@ == seq![',']);
        let empty: Vec<char> = Vec::new();
        assert(empty@ == Seq::<char>::empty());
        let stripped = replace_all(&tv, &header, &empty);
        let commas = replace_all(&stripped, &dot, &comma);
        push_chars(&mut out, &commas);
    } else if str_is(to, "vtt") && str_is(from, "srt") {
        let dot = vec!['.'];
        let comma = vec![','];
        assert(dot@ == seq!['.']);
        assert(comma@ == seq![',']);
        let dots = replace_all(&tv, &comma, &dot);
        push_str(&mut out, "WEBVTT\n\n");
        push_chars(&mut out, &dots);
    } else {
        push_chars(&mut out, &tv);
    }
    Ok(Written::Text(out))
}

/// Converts between text-ish formats without external tools; `input`
/// names the input file and `raw` holds its bytes.
pub fn convert(from: &str, to: &str, input: &str, raw: &Vec<u8>) -> (r: Result<Written, ConverterError>)
    requires
        raw.len() <= usize::MAX / 2,
    ensures
        text_conversion(from@, to@, input@, raw@, r),
{
    if str_is(from, to) {
        return Ok(Written::CopyInput);
    }
    if str_is(from, "json") || str_is(from, "yaml") || str_is(from, "toml") || str_is(from, "xml")
        || str_is(from, "csv") || str_is(from, "tsv") {
        convert_structured(from, to, input, raw)
    } else {
        convert_raw(from, to, raw)
    }
}

/// SubRip to WebVTT output always starts with the `WEBVTT` header.
pub proof fn law_vtt_has_header(text: Seq<char>)
    ensures
        starts_with(raw_text("srt"@, "vtt"@, text), "WEBVTT"@),
{
    reveal_strlit("srt");
    reveal_strlit("vtt");
    reveal_strlit("html");
    reveal_strlit("md");
    reveal_strlit("WEBVTT");
    reveal_strlit("WEBVTT\n\n");
    assert("vtt"@[0] != "html"@[0]);
    assert("vtt"@[0] != "md"@[0]);
    assert("vtt"@ != "srt"@) by {
        assert("vtt"@[0] != "srt"@[0]);
    }
    let out = "WEBVTT\n\n"@ + replace_seq(text, seq![','], seq!['.']);
    assert(out.take(6) =~= "WEBVTT"@);
}

/// Decoding the base64 text that encoding wrote gives back the bytes.
pub proof fn law_base64_round_trip(raw: Seq<u8>, r: Result<Written, ConverterError>)
    requires
        decodes_b64(b64_encode(raw), r),
    ensures
        r matches Ok(Written::Bytes(b)) && b@ == raw,
{
    let e = b64_encode(raw);
    lemma_b64_no_ws(raw);
    if e.len() > 0 {
        assert(!is_ws(e[0]));
        assert(!is_ws(e.last()));
    }
    assert(ws_prefix_len(e) == 0);
    assert(trim_start(e) =~= e);
    assert(ws_suffix_len(e) == 0);
    assert(trim(e) =~= e);
    match r {
        Ok(Written::Bytes(b)) => {
            lemma_b64_injective(b@, raw);
        },
        _ => {
            assert(b64_encode(raw) == trim(e));
        },
    }
}

/// The table that CSV records give back once read as a JSON value and
/// written as CSV again.
pub open spec fn csv_round_trip(h: Seq<Seq<char>>, recs: Seq<Seq<Seq<char>>>) -> Seq<Seq<Seq<char>>> {
    csv_records_spec(json_rows(csv_json(h, recs)))
}

/// Whether a name is in the header.
pub open spec fn in_header(h: Seq<Seq<char>>, x: Seq<char>) -> bool {
    exists|c: int| 0 <= c < h.len() && #[trigger] h[c] == x
}

/// Whether the field of record `i` in column `c` sits in the table `out`
/// (a header row, then the records) under the same name.
pub open spec fn cell_kept(
    out: Seq<Seq<Seq<char>>>,
    h: Seq<Seq<char>>,
    recs: Seq<Seq<Seq<char>>>,
    i: int,
    c: int,
) -> bool {
    exists|k: int| 0 <= k < out[0].len() && out[0][k] == h[c] && #[trigger] out[i + 1][k] == recs[i][c]
}

/// A full record with distinct header names becomes the key-sorted entries
/// of the header's names, each with its own field.
proof fn lemma_record_object(h: Seq<Seq<char>>, rec: Seq<Seq<char>>)
    requires
        forall|a: int, b: int| 0 <= a < b < h.len() ==> #[trigger] h[a] != #[trigger] h[b],
        rec.len() == h.len(),
    ensures
        keys_sorted(sorted_entries(zip_pairs(h, rec))),
        forall|x: Seq<char>| #[trigger] has_key(sorted_entries(zip_pairs(h, rec)), x) <==> in_header(h, x),
        forall|c: int| 0 <= c < h.len() ==> exists|k: int| 0 <= k < sorted_entries(zip_pairs(h, rec)).len()
            && #[trigger] sorted_entries(zip_pairs(h, rec))[k].0 == #[trigger] h[c]
            && sorted_entries(zip_pairs(h, rec))[k].1 == rec[c],
{
    let p = zip_pairs(h, rec);
    let se = sorted_entries(p);
    assert(p.len() == h.len());
    assert forall|a: int, b: int| 0 <= a < b < p.len() implies #[trigger] p[a].0 != #[trigger] p[b].0 by {
        assert(p[a].0 == h[a] && p[b].0 == h[b]);
    }
    lemma_assoc_distinct(p);
    lemma_sorted_entries_hold(p);
    let m = assoc(p);
    assert forall|x: Seq<char>| #[trigger] has_key(se, x) <==> in_header(h, x) by {
        if has_key(se, x) {
            let k = choose|k: int| 0 <= k < se.len() && #[trigger] se[k].0 == x;
            assert(m.dom().contains(se[k].0));
            let c = choose|c: int| 0 <= c < p.len() && #[trigger] p[c].0 == x;
            assert(h[c] == x);
        }
        if in_header(h, x) {
            let c = choose|c: int| 0 <= c < h.len() && #[trigger] h[c] == x;
            assert(p[c].0 == x);
            assert(m.dom().contains(x));
        }
    }
    assert forall|c: int| 0 <= c < h.len() implies exists|k: int| 0 <= k < se.len() && #[trigger] se[k].0 == #[trigger] h[c]
        && se[k].1 == rec[c] by {
        assert(p[c].0 == h[c]);
        assert(m.dom().contains(h[c]));
        let k = choose|k: int| 0 <= k < se.len() && #[trigger] se[k].0 == h[c];
        assert(m[p[c].0] == p[c].1);
    }
}

/// CSV read as a JSON value and written back as CSV keeps every cell under
/// its header's name: with distinct header names and every record as long
/// as the header, the records come back in order, as long as the new
/// header, whose names are the old ones, and each field sits under the name
/// it was under.
pub proof fn law_csv_cells_survive_json(h: Seq<Seq<char>>, recs: Seq<Seq<Seq<char>>>)
    requires
        recs.len() > 0,
        forall|a: int, b: int| 0 <= a < b < h.len() ==> #[trigger] h[a] != #[trigger] h[b],
        forall|i: int| 0 <= i < recs.len() ==> #[trigger] recs[i].len() == h.len(),
    ensures
        csv_round_trip(h, recs).len() == recs.len() + 1,
        forall|i: int| 0 <= i < recs.len() ==> #[trigger] csv_round_trip(h, recs)[i + 1].len() == csv_round_trip(h, recs)[0].len(),
        forall|k: int| 0 <= k < csv_round_trip(h, recs)[0].len() ==> in_header(h, #[trigger] csv_round_trip(h, recs)[0][k]),
        forall|i: int, c: int|
            0 <= i < recs.len() && 0 <= c < h.len() ==> #[trigger] cell_kept(csv_round_trip(h, recs), h, recs, i, c),
{
    let out = csv_round_trip(h, recs);
    let items = recs.map_values(|rec: Seq<Seq<char>>| string_object(sorted_entries(zip_pairs(h, rec))));
    let rows = json_rows(csv_json(h, recs));
    assert(rows == items.map_values(|x: JsonView| json_row(x)));
    assert forall|i: int| 0 <= i < recs.len() implies #[trigger] rows[i] == sorted_entries(zip_pairs(h, recs[i])) by {
        let e = sorted_entries(zip_pairs(h, recs[i]));
        assert(items[i] == string_object(e));
        assert(json_row(string_object(e)) =~= e);
    }
    let se0 = sorted_entries(zip_pairs(h, recs[0]));
    lemma_record_object(h, recs[0]);
    assert(out[0] == row_keys(rows[0]));
    assert forall|i: int| 0 <= i < recs.len() implies #[trigger] out[i + 1] == row_values(rows[i]) by {}
    assert forall|i: int| 0 <= i < recs.len() implies #[trigger] out[i + 1].len() == out[0].len() by {
        let se = sorted_entries(zip_pairs(h, recs[i]));
        lemma_record_object(h, recs[i]);
        lemma_same_keys(se0, se);
    }
    assert forall|k: int| 0 <= k < out[0].len() implies in_header(h, #[trigger] out[0][k]) by {
        assert(out[0][k] == se0[k].0);
        assert(has_key(se0, se0[k].0));
    }
    assert forall|i: int, c: int|
        0 <= i < recs.len() && 0 <= c < h.len() implies #[trigger] cell_kept(out, h, recs, i, c) by {
        let se = sorted_entries(zip_pairs(h, recs[i]));
        lemma_record_object(h, recs[i]);
        lemma_same_keys(se0, se);
        let k = choose|k: int| 0 <= k < se.len() && #[trigger] se[k].0 == #[trigger] h[c] && se[k].1 == recs[i][c];
        assert(out[0][k] == se0[k].0);
        assert(out[i + 1][k] == se[k].1);
    }
}

} // verus!
