//! Conversion presets: the built-in ones and where custom ones are kept.
use vstd::prelude::*;

use crate::paths::{join_path, path_join};
use crate::serial::{
    bool_value, entries_json, int_value, object_value, string_value, value_json, JsonView,
};
use crate::text::{dec, lex_lt};

verus! {

/// A named conversion with its options.
#[derive(Debug)]
pub struct Preset {
    pub name: String,
    pub from: String,
    pub to: String,
    pub options: serde_json::Value,
}

/// The name, source, target and options of a preset.
pub open spec fn preset_key(p: Preset) -> (Seq<char>, Seq<char>, Seq<char>, JsonView) {
    (p.name@, p.from@, p.to@, value_json(p.options))
}

/// The built-in presets, in order (an object's keys in the map's order).
pub open spec fn builtin_table() -> Seq<(Seq<char>, Seq<char>, Seq<char>, JsonView)> {
    seq![
        ("Audio MP3 320k"@, "wav"@, "mp3"@, JsonView::Object(
            seq![("bitrate"@, JsonView::Str("320k"@)), ("codec"@, JsonView::Str("libmp3lame"@))],
        )),
        ("Video H264 1080p"@, "mkv"@, "mp4"@, JsonView::Object(
            seq![("codec"@, JsonView::Str("libx264"@)), ("crf"@, JsonView::Number(dec(20)))],
        )),
        ("Image WebP q80"@, "png"@, "webp"@, JsonView::Object(seq![("quality"@, JsonView::Number(dec(80)))])),
        ("Doc to PDF"@, "docx"@, "pdf"@, JsonView::Object(Seq::empty())),
        ("Data JSON pretty"@, "csv"@, "json"@, JsonView::Object(seq![("pretty"@, JsonView::Bool(true))])),
        ("Bundle ZIP"@, "txt"@, "zip"@, JsonView::Object(Seq::empty())),
    ]
}

/// The keys of a list of presets.
pub open spec fn preset_keys(v: Seq<Preset>) -> Seq<(Seq<char>, Seq<char>, Seq<char>, JsonView)> {
    v.map_values(|p: Preset| preset_key(p))
}

fn preset(name: &str, from: &str, to: &str, options: serde_json::Value) -> (r: Preset)
    ensures
        preset_key(r) == (name@, from@, to@, value_json(options)),
{
    Preset { name: name.to_owned(), from: from.to_owned(), to: to.to_owned(), options }
}

/// Options with no entries.
fn no_options() -> (r: serde_json::Value)
    ensures
        value_json(r) == JsonView::Object(Seq::empty()),
{
    let es: Vec<(String, serde_json::Value)> = Vec::new();
    assert(entries_json(es@) =~= Seq::empty());
    object_value(es)
}

/// Options with one entry.
fn one_option(k: &str, v: serde_json::Value) -> (r: serde_json::Value)
    ensures
        value_json(r) == JsonView::Object(seq![(k@, value_json(v))]),
{
    let mut es: Vec<(String, serde_json::Value)> = Vec::new();
    let ghost j = value_json(v);
    es.push((k.to_owned(), v));
    assert(entries_json(es@) =~= seq![(k@, j)]);
    object_value(es)
}

/// Options with two entries, the first key before the second.
fn two_options(k1: &str, v1: serde_json::Value, k2: &str, v2: serde_json::Value) -> (r: serde_json::Value)
    requires
        lex_lt(k1@, k2@),
    ensures
        value_json(r) == JsonView::Object(seq![(k1@, value_json(v1)), (k2@, value_json(v2))]),
{
    let mut es: Vec<(String, serde_json::Value)> = Vec::new();
    let ghost j1 = value_json(v1);
    let ghost j2 = value_json(v2);
    es.push((k1.to_owned(), v1));
    es.push((k2.to_owned(), v2));
    assert(entries_json(es@) =~= seq![(k1@, j1), (k2@, j2)]);
    object_value(es)
}

/// The built-in presets.
pub fn builtin_presets() -> (r: Vec<Preset>)
    ensures
        preset_keys(r@) == builtin_table(),
{
    proof {
        reveal_strlit("bitrate");
        reveal_strlit("codec");
        reveal_strlit("crf");
        reveal_with_fuel(lex_lt, 2);
        assert(lex_lt("bitrate"@, "codec"@));
        assert(lex_lt("codec"@.drop_first(), "crf"@.drop_first()));
        assert(lex_lt("codec"@, "crf"@));
    }
    let mut r: Vec<Preset> = Vec::new();
    r.push(preset("Audio MP3 320k", "wav", "mp3", two_options(
        "bitrate",
        string_value("320k".to_owned()),
        "codec",
        string_value("libmp3lame".to_owned()),
    )));
    r.push(preset("Video H264 1080p", "mkv", "mp4", two_options(
        "codec",
        string_value("libx264".to_owned()),
        "crf",
        int_value(20),
    )));
    r.push(preset("Image WebP q80", "png", "webp", one_option("quality", int_value(80))));
    r.push(preset("Doc to PDF", "docx", "pdf", no_options()));
    r.push(preset("Data JSON pretty", "csv", "json", one_option("pretty", bool_value(true))));
    r.push(preset("Bundle ZIP", "txt", "zip", no_options()));
    assert(preset_keys(r@) =~= builtin_table());
    r
}

/// Every preset: the built-in ones, then the custom ones.
pub fn all_presets(custom: Vec<Preset>) -> (r: Vec<Preset>)
    ensures
        preset_keys(r@) == builtin_table() + preset_keys(custom@),
{
    let mut v = builtin_presets();
    let ghost b = v@;
    let mut c = custom;
    v.append(&mut c);
    assert(preset_keys(v@) =~= preset_keys(b) + preset_keys(custom@));
    v
}

/// The directory that application data goes under: `APPDATA`, else
/// `HOME/.config`, else the current directory.
pub open spec fn data_dir(appdata: Option<Seq<char>>, home: Option<Seq<char>>) -> Seq<char> {
    match appdata {
        Some(a) => a,
        None => match home {
            Some(h) => path_join(h, ".config"@),
            None => "."@,
        },
    }
}

/// The file that custom presets are kept in, given the `APPDATA` and
/// `HOME` variables (when set).
pub fn presets_file(appdata: Option<&str>, home: Option<&str>) -> (r: String)
    ensures
        r@ == path_join(
            path_join(
                data_dir(
                    match appdata {
                        Some(a) => Some(a@),
                        None => None,
                    },
                    match home {
                        Some(h) => Some(h@),
                        None => None,
                    },
                ),
                "omniconvert"@,
            ),
            "presets.json"@,
        ),
{
    let dir = match appdata {
        Some(a) => a.to_owned(),
        None => match home {
            Some(h) => join_path(h, ".config"),
            None => ".".to_owned(),
        },
    };
    let app = join_path(dir.as_str(), "omniconvert");
    join_path(app.as_str(), "presets.json")
}

} // verus!
