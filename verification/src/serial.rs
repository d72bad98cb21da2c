//! Calls into the data-format crates (serde_json, serde_yaml, toml,
//! quick-xml, csv, base64) and the byte sniffers (infer, image), with what
//! each call is known to return.
use vstd::prelude::*;

use base64::Engine;

use crate::entries::keys_sorted;
use crate::text::{dec, is_ws};

verus! {

/// A JSON value of serde_json: the common shape that structured formats
/// are converted through.
#[verifier::external_type_specification]
#[verifier::external_body]
pub struct ExJsonValue(serde_json::Value);

/// A JSON value as plain data: a number by the text that its `Display`
/// writes, an object by its entries in the map's order.
pub enum JsonView {
    Null,
    Bool(bool),
    Number(Seq<char>),
    Str(Seq<char>),
    Array(Seq<JsonView>),
    Object(Seq<(Seq<char>, JsonView)>),
}

/// The variant of a JSON value.
pub open spec fn json_kind(j: JsonView) -> JsonKind {
    match j {
        JsonView::Null => JsonKind::Null,
        JsonView::Bool(_) => JsonKind::Bool,
        JsonView::Number(_) => JsonKind::Number,
        JsonView::Str(_) => JsonKind::Str,
        JsonView::Array(_) => JsonKind::Array,
        JsonView::Object(_) => JsonKind::Object,
    }
}

/// What a `serde_json::Value` holds (its map keeps an object's entries
/// ordered by key).
pub uninterp spec fn value_json(v: serde_json::Value) -> JsonView;

/// The values that a list of `serde_json::Value`s hold.
pub open spec fn values_json(v: Seq<serde_json::Value>) -> Seq<JsonView> {
    v.map_values(|x: serde_json::Value| value_json(x))
}

/// The keys and held values of a list of object entries.
pub open spec fn entries_json(v: Seq<(String, serde_json::Value)>) -> Seq<(Seq<char>, JsonView)> {
    v.map_values(|e: (String, serde_json::Value)| (e.0@, value_json(e.1)))
}

/// What `serde_json::from_str::<serde_json::Value>` gives for a text: the
/// value, or the error's text.
pub uninterp spec fn json_parse(s: Seq<char>) -> Result<JsonView, Seq<char>>;

/// What `quick_xml::de::from_str::<serde_json::Value>` gives for a text.
pub uninterp spec fn xml_parse(s: Seq<char>) -> Result<JsonView, Seq<char>>;

/// What `serde_yaml::from_str::<serde_yaml::Value>` gives for a text: the
/// error's text, or what `serde_json::to_value` makes of the document (the
/// JSON value, or the error's text).
pub uninterp spec fn yaml_parse(s: Seq<char>) -> Result<Result<JsonView, Seq<char>>, Seq<char>>;

/// What parsing a text as a `toml::Value` document gives: the error's text,
/// or what `serde_json::to_value` makes of the document.
pub uninterp spec fn toml_parse(s: Seq<char>) -> Result<Result<JsonView, Seq<char>>, Seq<char>>;

/// What `serde_json::to_string_pretty` writes for a value.
pub uninterp spec fn json_pretty_text(j: JsonView) -> Result<Seq<char>, Seq<char>>;

/// What `serde_yaml::to_string` writes for a JSON value.
pub uninterp spec fn yaml_emit(j: JsonView) -> Result<Seq<char>, Seq<char>>;

/// What `toml::to_string` writes for a JSON value.
pub uninterp spec fn toml_emit(j: JsonView) -> Result<Seq<char>, Seq<char>>;

/// What `quick_xml::se::to_string` writes for a JSON value.
pub uninterp spec fn xml_emit(j: JsonView) -> Result<Seq<char>, Seq<char>>;

/// A text result as the characters of its text or error.
pub open spec fn text_view(r: Result<String, String>) -> Result<Seq<char>, Seq<char>> {
    match r {
        Ok(s) => Ok(s@),
        Err(e) => Err(e@),
    }
}

/// The text that `String::from_utf8_lossy` makes of bytes.
pub uninterp spec fn utf8_lossy(b: Seq<u8>) -> Seq<char>;

/// The MIME type and extension that `infer::get` finds in bytes.
pub uninterp spec fn infer_type(b: Seq<u8>) -> Option<(Seq<char>, Seq<char>)>;

/// Whether `image::guess_format` recognizes the bytes' signature.
pub uninterp spec fn image_signature(b: Seq<u8>) -> bool;

/// What `csv` reads from bytes with a delimiter: the header fields and the
/// records' fields, or the first error's text.
pub uninterp spec fn csv_read(b: Seq<u8>, delimiter: u8) -> Result<(Seq<Seq<char>>, Seq<Seq<Seq<char>>>), Seq<char>>;

/// What a `csv::Writer` with the given delimiter writes for a list of
/// records: the bytes, or the error's text.
pub uninterp spec fn csv_written(records: Seq<Seq<Seq<char>>>, delimiter: u8) -> Result<Seq<u8>, Seq<char>>;

/// `serde_json::from_str` into a JSON value.
#[verifier::external_body]
pub fn parse_json(s: &str) -> (r: Result<serde_json::Value, String>)
    ensures
        match r {
            Ok(v) => json_parse(s@) == Ok::<JsonView, Seq<char>>(value_json(v)),
            Err(m) => json_parse(s@) == Err::<JsonView, Seq<char>>(m@),
        },
{
    serde_json::from_str::<serde_json::Value>(s).map_err(|e| e.to_string())
}

/// A parsed document as JSON: the parse error's text, or the conversion's
/// JSON value or error text.
pub open spec fn doc_view(r: Result<Result<serde_json::Value, String>, String>) -> Result<Result<JsonView, Seq<char>>, Seq<char>> {
    match r {
        Ok(Ok(v)) => Ok(Ok(value_json(v))),
        Ok(Err(m)) => Ok(Err(m@)),
        Err(m) => Err(m@),
    }
}

/// `serde_yaml::from_str` into a YAML value, which `serde_json::to_value`
/// then converts.
#[verifier::external_body]
pub fn parse_yaml(s: &str) -> (r: Result<Result<serde_json::Value, String>, String>)
    ensures
        doc_view(r) == yaml_parse(s@),
{
    match serde_yaml::from_str::<serde_yaml::Value>(s) {
        Ok(y) => Ok(serde_json::to_value(y).map_err(|e| e.to_string())),
        Err(e) => Err(e.to_string()),
    }
}

/// `str::parse::<toml::Value>`: a TOML document, which `serde_json::to_value`
/// then converts.
#[verifier::external_body]
pub fn parse_toml(s: &str) -> (r: Result<Result<serde_json::Value, String>, String>)
    ensures
        doc_view(r) == toml_parse(s@),
{
    match s.parse::<toml::Value>() {
        Ok(t) => Ok(serde_json::to_value(t).map_err(|e| e.to_string())),
        Err(e) => Err(e.to_string()),
    }
}

/// `quick_xml::de::from_str` into a JSON value.
#[verifier::external_body]
pub fn parse_xml(s: &str) -> (r: Result<serde_json::Value, String>)
    ensures
        match r {
            Ok(v) => xml_parse(s@) == Ok::<JsonView, Seq<char>>(value_json(v)),
            Err(m) => xml_parse(s@) == Err::<JsonView, Seq<char>>(m@),
        },
{
    quick_xml::de::from_str::<serde_json::Value>(s).map_err(|e| e.to_string())
}

/// `serde_json::to_string_pretty`.
#[verifier::external_body]
pub fn json_pretty(v: &serde_json::Value) -> (r: Result<String, String>)
    ensures
        text_view(r) == json_pretty_text(value_json(*v)),
{
    serde_json::to_string_pretty(v).map_err(|e| e.to_string())
}

/// `serde_yaml::to_string`.
#[verifier::external_body]
pub fn yaml_text(v: &serde_json::Value) -> (r: Result<String, String>)
    ensures
        text_view(r) == yaml_emit(value_json(*v)),
{
    serde_yaml::to_string(v).map_err(|e| e.to_string())
}

/// `toml::to_string`.
#[verifier::external_body]
pub fn toml_text(v: &serde_json::Value) -> (r: Result<String, String>)
    ensures
        text_view(r) == toml_emit(value_json(*v)),
{
    toml::to_string(v).map_err(|e| e.to_string())
}

/// `quick_xml::se::to_string`.
#[verifier::external_body]
pub fn xml_text(v: &serde_json::Value) -> (r: Result<String, String>)
    ensures
        text_view(r) == xml_emit(value_json(*v)),
{
    quick_xml::se::to_string(v).map_err(|e| e.to_string())
}

/// The variant of a JSON value.
#[derive(Debug, Clone, Copy, PartialEq, Eq, Structural)]
pub enum JsonKind {
    Null,
    Bool,
    Number,
    Str,
    Array,
    Object,
}

/// Which variant of `serde_json::Value` a value is.
#[verifier::external_body]
pub fn value_kind(v: &serde_json::Value) -> (r: JsonKind)
    ensures
        r == json_kind(value_json(*v)),
{
    match v {
        serde_json::Value::Null => JsonKind::Null,
        serde_json::Value::Bool(_) => JsonKind::Bool,
        serde_json::Value::Number(_) => JsonKind::Number,
        serde_json::Value::String(_) => JsonKind::Str,
        serde_json::Value::Array(_) => JsonKind::Array,
        serde_json::Value::Object(_) => JsonKind::Object,
    }
}

/// The elements of a JSON array (empty for another value).
#[verifier::external_body]
pub fn array_items(v: &serde_json::Value) -> (r: Vec<serde_json::Value>)
    ensures
        match value_json(*v) {
            JsonView::Array(items) => values_json(r@) == items,
            _ => r@.len() == 0,
        },
{
    v.as_array().cloned().unwrap_or_default()
}

/// The entries of a JSON object, in the map's order (empty for another
/// value). The map is a `BTreeMap`: its keys come out strictly increasing.
#[verifier::external_body]
pub fn object_entries(v: &serde_json::Value) -> (r: Vec<(String, serde_json::Value)>)
    ensures
        match value_json(*v) {
            JsonView::Object(es) => entries_json(r@) == es && keys_sorted(es),
            _ => r@.len() == 0,
        },
{
    v.as_object().map(|m| m.iter().map(|(k, x)| (k.clone(), x.clone())).collect()).unwrap_or_default()
}

/// `serde_json::Value::as_str`: the text of a JSON string.
#[verifier::external_body]
pub fn value_as_str(v: &serde_json::Value) -> (r: Option<String>)
    ensures
        match value_json(*v) {
            JsonView::Str(t) => r matches Some(s) && s@ == t,
            _ => r is None,
        },
{
    v.as_str().map(|s| s.to_string())
}

/// A JSON string.
#[verifier::external_body]
pub fn string_value(s: String) -> (r: serde_json::Value)
    ensures
        value_json(r) == JsonView::Str(s@),
{
    serde_json::Value::String(s)
}

/// A JSON number from an unsigned integer; its text is the decimal digits.
#[verifier::external_body]
pub fn int_value(n: u64) -> (r: serde_json::Value)
    ensures
        value_json(r) == JsonView::Number(dec(n as nat)),
{
    serde_json::Value::from(n)
}

/// A JSON boolean.
#[verifier::external_body]
pub fn bool_value(b: bool) -> (r: serde_json::Value)
    ensures
        value_json(r) == JsonView::Bool(b),
{
    serde_json::Value::Bool(b)
}

/// A JSON array.
#[verifier::external_body]
pub fn array_value(items: Vec<serde_json::Value>) -> (r: serde_json::Value)
    ensures
        value_json(r) == JsonView::Array(values_json(items@)),
{
    serde_json::Value::Array(items)
}

/// A JSON object from entries whose keys are strictly increasing: the map
/// holds them in that order.
#[verifier::external_body]
pub fn object_value(entries: Vec<(String, serde_json::Value)>) -> (r: serde_json::Value)
    requires
        keys_sorted(entries_json(entries@)),
    ensures
        value_json(r) == JsonView::Object(entries_json(entries@)),
{
    serde_json::Value::Object(entries.into_iter().collect())
}

/// Reads CSV with a header row: the header fields and every record's fields.
#[verifier::external_body]
pub fn read_csv(data: &[u8], delimiter: u8) -> (r: Result<(Vec<String>, Vec<Vec<String>>), String>)
    ensures
        match r {
            Ok((h, rows)) => csv_read(data@, delimiter) == Ok::<
                (Seq<Seq<char>>, Seq<Seq<Seq<char>>>),
                Seq<char>,
            >((h@.map_values(|s: String| s@), rows@.map_values(|row: Vec<String>| row@.map_values(|s: String| s@)))),
            Err(m) => csv_read(data@, delimiter) matches Err(e) && e == m@,
        },
{
    let mut rdr = csv::ReaderBuilder::new().delimiter(delimiter).from_reader(data);
    let headers: Vec<String> = rdr.headers().map_err(|e| e.to_string())?.iter().map(|s| s.to_string()).collect();
    let mut rows = Vec::new();
    for rec in rdr.records() {
        rows.push(rec.map_err(|e| e.to_string())?.iter().map(|s| s.to_string()).collect());
    }
    Ok((headers, rows))
}

/// Writes records with a delimiter (quoted where needed).
#[verifier::external_body]
pub fn write_csv(records: &Vec<Vec<String>>, delimiter: u8) -> (r: Result<Vec<u8>, String>)
    ensures
        match r {
            Ok(b) => csv_written(records@.map_values(|row: Vec<String>| row@.map_values(|s: String| s@)), delimiter) == Ok::<Seq<u8>, Seq<char>>(b@),
            Err(m) => csv_written(records@.map_values(|row: Vec<String>| row@.map_values(|s: String| s@)), delimiter) == Err::<Seq<u8>, Seq<char>>(m@),
        },
{
    let mut wtr = csv::WriterBuilder::new().delimiter(delimiter).from_writer(Vec::new());
    for rec in records {
        wtr.write_record(rec).map_err(|e| e.to_string())?;
    }
    wtr.into_inner().map_err(|e| e.to_string())
}

/// The sheet names that `calamine` finds in an xlsx workbook held in bytes,
/// or the error's text when it cannot open the workbook.
pub uninterp spec fn workbook_sheets(b: Seq<u8>) -> Result<Seq<Seq<char>>, Seq<char>>;

/// The cells of the named sheet of an xlsx workbook held in bytes, row by
/// row, each as its `Display` writes it; or the error's text.
pub uninterp spec fn sheet_cells(b: Seq<u8>, name: Seq<char>) -> Result<Seq<Seq<Seq<char>>>, Seq<char>>;

/// The text that `{:?}` writes for a string.
pub uninterp spec fn debug_quoted(s: Seq<char>) -> Seq<char>;

/// What re-encoding image bytes as the format of the extension `to` gives:
/// the decoding error's text, or the encoded bytes or the encoding error's
/// text (an unknown extension is an encoding error).
pub uninterp spec fn image_recoded(b: Seq<u8>, to: Seq<char>) -> Result<Result<Seq<u8>, Seq<char>>, Seq<char>>;

/// The characters of rows of strings.
pub open spec fn rows_chars(v: Seq<Vec<String>>) -> Seq<Seq<Seq<char>>> {
    v.map_values(|row: Vec<String>| row@.map_values(|s: String| s@))
}

/// `calamine::open_workbook_from_rs` as `Xlsx` over the bytes, then `sheet_names`.
#[verifier::external_body]
pub fn sheet_names_of(data: &[u8]) -> (r: Result<Vec<String>, String>)
    ensures
        match r {
            Ok(v) => workbook_sheets(data@) == Ok::<Seq<Seq<char>>, Seq<char>>(v@.map_values(|s: String| s@)),
            Err(m) => workbook_sheets(data@) == Err::<Seq<Seq<char>>, Seq<char>>(m@),
        },
{
    match calamine::open_workbook_from_rs::<calamine::Xlsx<_>, _>(std::io::Cursor::new(data.to_vec())) {
        Ok(wb) => Ok(calamine::Reader::sheet_names(&wb)),
        Err(e) => Err(e.to_string()),
    }
}

/// `calamine::open_workbook_from_rs` as `Xlsx` over the bytes, then `worksheet_range` of the
/// sheet `name`, each cell as its `Display` writes it.
#[verifier::external_body]
pub fn sheet_rows_of(data: &[u8], name: &str) -> (r: Result<Vec<Vec<String>>, String>)
    ensures
        match r {
            Ok(v) => sheet_cells(data@, name@) == Ok::<Seq<Seq<Seq<char>>>, Seq<char>>(rows_chars(v@)),
            Err(m) => sheet_cells(data@, name@) == Err::<Seq<Seq<Seq<char>>>, Seq<char>>(m@),
        },
{
    let mut wb = calamine::open_workbook_from_rs::<calamine::Xlsx<_>, _>(std::io::Cursor::new(data.to_vec()))
        .map_err(|e| e.to_string())?;
    let range = calamine::Reader::worksheet_range(&mut wb, name).map_err(|e| e.to_string())?;
    Ok(range.rows().map(|row| row.iter().map(|c| c.to_string()).collect()).collect())
}

/// `format!("{:?}", s)`: the string quoted as `Debug` writes it.
#[verifier::external_body]
pub fn debug_text(s: &str) -> (r: String)
    ensures
        r@ == debug_quoted(s@),
{
    format!("{:?}", s)
}

/// `image::load_from_memory`, then `DynamicImage::write_to` in the format
/// that `ImageFormat::from_extension` finds for `to`; where it finds none,
/// the `ImageError::Unsupported` text for that extension, as
/// `ImageFormat::from_path` gives it. Claimed: the result is what
/// `image_recoded` names for these bytes and this extension.
#[verifier::external_body]
pub fn recode_image(data: &[u8], to: &str) -> (r: Result<Result<Vec<u8>, String>, String>)
    ensures
        match r {
            Ok(Ok(b)) => image_recoded(data@, to@) == Ok::<Result<Seq<u8>, Seq<char>>, Seq<char>>(Ok(b@)),
            Ok(Err(m)) => image_recoded(data@, to@) == Ok::<Result<Seq<u8>, Seq<char>>, Seq<char>>(Err(m@)),
            Err(m) => image_recoded(data@, to@) == Err::<Result<Seq<u8>, Seq<char>>, Seq<char>>(m@),
        },
{
    let img = image::load_from_memory(data).map_err(|e| e.to_string())?;
    let format = match image::ImageFormat::from_extension(to) {
        Some(f) => f,
        None => {
            let hint = image::error::ImageFormatHint::PathExtension(std::path::PathBuf::from(to));
            return Ok(Err(image::ImageError::Unsupported(hint.into()).to_string()));
        },
    };
    let mut out = std::io::Cursor::new(Vec::new());
    Ok(img.write_to(&mut out, format).map(|_| out.into_inner()).map_err(|e| e.to_string()))
}

/// `String::from_utf8_lossy`: valid UTF-8 is decoded unchanged.
#[verifier::external_body]
pub fn lossy_text(b: &[u8]) -> (r: String)
    ensures
        r@ == utf8_lossy(b@),
        vstd::utf8::valid_utf8(b@) ==> r@ == vstd::utf8::decode_utf8(b@),
{
    String::from_utf8_lossy(b).to_string()
}

/// `infer::get`: the MIME type and extension of a recognized signature.
#[verifier::external_body]
pub fn infer_get(b: &[u8]) -> (r: Option<(String, String)>)
    ensures
        match r {
            Some((m, e)) => infer_type(b@) == Some((m@, e@)),
            None => infer_type(b@) is None,
        },
{
    infer::get(b).map(|k| (k.mime_type().to_string(), k.extension().to_string()))
}

/// Whether `image::guess_format` recognizes the bytes.
#[verifier::external_body]
pub fn image_guess(b: &[u8]) -> (r: bool)
    ensures
        r == image_signature(b@),
{
    image::guess_format(b).is_ok()
}

/// The character of a 6-bit value in the standard base64 alphabet.
pub open spec fn b64_char(n: nat) -> char {
    if n < 26 {
        ((n + 'A' as int) as u32) as char
    } else if n < 52 {
        ((n - 26 + 'a' as int) as u32) as char
    } else if n < 62 {
        ((n - 52 + '0' as int) as u32) as char
    } else if n == 62 {
        '+'
    } else {
        '/'
    }
}

/// Standard base64 with `=` padding (RFC 4648, section 4).
pub open spec fn b64_encode(b: Seq<u8>) -> Seq<char>
    decreases b.len(),
{
    if b.len() == 0 {
        Seq::empty()
    } else if b.len() == 1 {
        seq![b64_char((b[0] / 4) as nat), b64_char(((b[0] % 4) * 16) as nat), '=', '=']
    } else if b.len() == 2 {
        seq![
            b64_char((b[0] / 4) as nat),
            b64_char(((b[0] % 4) * 16 + b[1] / 16) as nat),
            b64_char(((b[1] % 16) * 4) as nat),
            '=',
        ]
    } else {
        seq![
            b64_char((b[0] / 4) as nat),
            b64_char(((b[0] % 4) * 16 + b[1] / 16) as nat),
            b64_char(((b[1] % 16) * 4 + b[2] / 64) as nat),
            b64_char((b[2] % 64) as nat),
        ] + b64_encode(b.skip(3))
    }
}

/// Distinct 6-bit values have distinct characters, none of them `=`.
pub proof fn lemma_b64_char(n: nat, m: nat)
    requires
        n < 64,
        m < 64,
    ensures
        b64_char(n) != '=',
        b64_char(n) == b64_char(m) ==> n == m,
{
}

/// The four 6-bit groups of three bytes determine the bytes.
proof fn lemma_groups_determine(a0: u8, a1: u8, a2: u8, b0: u8, b1: u8, b2: u8)
    requires
        a0 / 4 == b0 / 4,
        (a0 % 4) * 16 + a1 / 16 == (b0 % 4) * 16 + b1 / 16,
        (a1 % 16) * 4 + a2 / 64 == (b1 % 16) * 4 + b2 / 64,
        a2 % 64 == b2 % 64,
    ensures
        a0 == b0,
        a1 == b1,
        a2 == b2,
{
}

/// Where the encoding holds `=`: the last two places for one trailing
/// byte, the last place for two.
proof fn lemma_b64_padding(a: Seq<u8>)
    requires
        a.len() > 0,
    ensures
        b64_encode(a).len() >= 4,
        b64_encode(a)[0] != '=',
        b64_encode(a)[1] != '=',
        (b64_encode(a)[2] == '=') <==> a.len() == 1,
        (b64_encode(a)[3] == '=') <==> a.len() <= 2,
{
    let e = b64_encode(a);
    lemma_b64_char((a[0] / 4) as nat, 0);
    if a.len() == 1 {
        lemma_b64_char(((a[0] % 4) * 16) as nat, 0);
    } else if a.len() == 2 {
        lemma_b64_char(((a[0] % 4) * 16 + a[1] / 16) as nat, 0);
        lemma_b64_char(((a[1] % 16) * 4) as nat, 0);
    } else {
        lemma_b64_char(((a[0] % 4) * 16 + a[1] / 16) as nat, 0);
        lemma_b64_char(((a[1] % 16) * 4 + a[2] / 64) as nat, 0);
        lemma_b64_char((a[2] % 64) as nat, 0);
    }
}

/// No two byte strings have the same encoding.
pub proof fn lemma_b64_injective(a: Seq<u8>, b: Seq<u8>)
    requires
        b64_encode(a) == b64_encode(b),
    ensures
        a == b,
    decreases a.len(),
{
    let ea = b64_encode(a);
    let eb = b64_encode(b);
    if a.len() == 0 || b.len() == 0 {
        if a.len() != 0 {
            lemma_b64_padding(a);
        }
        if b.len() != 0 {
            lemma_b64_padding(b);
        }
        assert(a =~= b);
    } else {
        lemma_b64_padding(a);
        lemma_b64_padding(b);
        assert(ea[2] == eb[2] && ea[3] == eb[3]);
        assert(a.len() == 1 <==> b.len() == 1);
        assert(a.len() <= 2 <==> b.len() <= 2);
        lemma_b64_char((a[0] / 4) as nat, (b[0] / 4) as nat);
        assert(ea[0] == eb[0]);
        if a.len() == 1 {
            lemma_b64_char(((a[0] % 4) * 16) as nat, ((b[0] % 4) * 16) as nat);
            assert(ea[1] == eb[1]);
            lemma_groups_determine(a[0], 0, 0, b[0], 0, 0);
            assert(a =~= b);
        } else if a.len() == 2 {
            lemma_b64_char(((a[0] % 4) * 16 + a[1] / 16) as nat, ((b[0] % 4) * 16 + b[1] / 16) as nat);
            lemma_b64_char(((a[1] % 16) * 4) as nat, ((b[1] % 16) * 4) as nat);
            assert(ea[1] == eb[1]);
            assert(ea[2] == eb[2]);
            lemma_groups_determine(a[0], a[1], 0, b[0], b[1], 0);
            assert(a =~= b);
        } else {
            lemma_b64_char(((a[0] % 4) * 16 + a[1] / 16) as nat, ((b[0] % 4) * 16 + b[1] / 16) as nat);
            lemma_b64_char(((a[1] % 16) * 4 + a[2] / 64) as nat, ((b[1] % 16) * 4 + b[2] / 64) as nat);
            lemma_b64_char((a[2] % 64) as nat, (b[2] % 64) as nat);
            assert(ea[1] == eb[1]);
            assert(ea[2] == eb[2]);
            assert(ea[3] == eb[3]);
            lemma_groups_determine(a[0], a[1], a[2], b[0], b[1], b[2]);
            assert(ea.skip(4) =~= b64_encode(a.skip(3)));
            assert(eb.skip(4) =~= b64_encode(b.skip(3)));
            lemma_b64_injective(a.skip(3), b.skip(3));
            assert(a =~= a.take(3) + a.skip(3));
            assert(b =~= b.take(3) + b.skip(3));
            assert(a.take(3) =~= b.take(3));
        }
    }
}

/// An encoding holds no whitespace.
pub proof fn lemma_b64_no_ws(b: Seq<u8>)
    ensures
        forall|i: int| 0 <= i < b64_encode(b).len() ==> !is_ws(#[trigger] b64_encode(b)[i]),
    decreases b.len(),
{
    let e = b64_encode(b);
    if b.len() >= 3 {
        lemma_b64_no_ws(b.skip(3));
        let rest = b64_encode(b.skip(3));
        assert forall|i: int| 0 <= i < e.len() implies !is_ws(#[trigger] e[i]) by {
            if i >= 4 {
                assert(e[i] == rest[i - 4]);
            }
        }
    }
}

/// The `base64` crate's `STANDARD` engine: encodes with padding.
#[verifier::external_body]
pub fn base64_encode(b: &[u8]) -> (r: String)
    requires
        b.len() <= usize::MAX / 2,
    ensures
        r@ == b64_encode(b@),
{
    base64::engine::general_purpose::STANDARD.encode(b)
}

/// The error's text when the `base64` crate's `STANDARD` engine rejects a text.
pub uninterp spec fn b64_decode_error(s: Seq<char>) -> Seq<char>;

/// The `base64` crate's `STANDARD` engine: decodes exactly the canonical
/// padded encodings (no trailing bits, padding to a multiple of four).
#[verifier::external_body]
pub fn base64_decode(s: &str) -> (r: Result<Vec<u8>, String>)
    ensures
        match r {
            Ok(b) => b64_encode(b@) == s@,
            Err(m) => m@ == b64_decode_error(s@) && forall|b: Seq<u8>| b64_encode(b) != s@,
        },
{
    base64::engine::general_purpose::STANDARD.decode(s).map_err(|e| e.to_string())
}

} // verus!
