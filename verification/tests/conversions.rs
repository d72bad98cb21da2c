use omni_core::adapters::native_archive::{
    file_name, gz_stem, is_archive, listing, plan as archive_plan, safe_name, ArchiveKind, ArchivePlan,
    emit_kind,
};
use omni_core::adapters::native_sheet;
use omni_core::adapters::native_text::{convert, csv_records, record_entries, toml_root, write_value, TomlRoot, Written};
use omni_core::error::ConverterError;
use omni_core::serial::JsonKind;

fn text(w: Written) -> String {
    match w {
        Written::Text(s) => s,
        other => panic!("expected text, got {other:?}"),
    }
}

#[test]
fn text_to_html_escapes() {
    let out = text(convert("txt", "html", "a.txt", &b"a < b & c".to_vec()).unwrap());
    assert_eq!(out, "<!doctype html><html><body><pre>a &lt; b &amp; c</pre></body></html>");
}

#[test]
fn text_to_markdown_fences() {
    let out = text(convert("srt", "md", "a.srt", &b"x".to_vec()).unwrap());
    assert_eq!(out, "# Converted from srt\n\n```\nx\n```\n");
}

#[test]
fn subtitles_convert_both_ways() {
    let vtt = text(convert("srt", "vtt", "a.srt", &b"00:00:01,500 --> 00:00:02,000\nHi, there\n".to_vec()).unwrap());
    assert_eq!(vtt, "WEBVTT\n\n00:00:01.500 --> 00:00:02.000\nHi. there\n");
    let srt = text(convert("vtt", "srt", "a.vtt", &vtt.clone().into_bytes()).unwrap());
    assert_eq!(srt, "\n00:00:01,500 --> 00:00:02,000\nHi, there\n");
}

#[test]
fn base64_both_ways() {
    let enc = text(convert("txt", "b64", "a.txt", &b"hello".to_vec()).unwrap());
    assert_eq!(enc, "aGVsbG8=");
    match convert("b64", "txt", "a.b64", &b"  aGVsbG8=\n".to_vec()).unwrap() {
        Written::Bytes(b) => assert_eq!(b, b"hello".to_vec()),
        other => panic!("unexpected {other:?}"),
    }
    match convert("b64", "txt", "a.b64", &b"aGVsbG8".to_vec()) {
        Err(ConverterError::Parse(m)) => assert!(m.starts_with("invalid base64: ")),
        other => panic!("unexpected {other:?}"),
    }
    assert_eq!(text(convert("txt", "b64", "e", &Vec::new()).unwrap()), "");
    assert_eq!(text(convert("md", "b64", "e", &b"ab".to_vec()).unwrap()), "YWI=");
}

#[test]
fn same_format_copies_and_passthrough() {
    assert!(matches!(convert("txt", "txt", "a", &b"x".to_vec()).unwrap(), Written::CopyInput));
    assert_eq!(text(convert("html", "txt", "a", &b"<b>x</b>".to_vec()).unwrap()), "<b>x</b>");
}

#[test]
fn structured_errors() {
    match convert("json", "yaml", "bad.json", &b"{nope".to_vec()) {
        Err(ConverterError::Parse(m)) => assert!(m.starts_with("invalid JSON in bad.json: "), "{m}"),
        other => panic!("unexpected {other:?}"),
    }
    match convert("json", "png", "a.json", &b"{}".to_vec()) {
        Err(ConverterError::Parse(m)) => assert_eq!(m, "native_text cannot emit png"),
        other => panic!("unexpected {other:?}"),
    }
    match convert("toml", "json", "a.toml", &b"= broken".to_vec()) {
        Err(ConverterError::Parse(m)) => assert!(m.starts_with("invalid TOML: "), "{m}"),
        other => panic!("unexpected {other:?}"),
    }
}

#[test]
fn arrays_become_toml_items() {
    let out = text(convert("json", "toml", "a.json", &b"[1,2]".to_vec()).unwrap());
    assert_eq!(out.trim(), "items = [1, 2]");
    let out = text(convert("json", "toml", "a.json", &b"5".to_vec()).unwrap());
    assert_eq!(out.trim(), "value = 5");
    assert_eq!(toml_root(JsonKind::Object), TomlRoot::AsIs);
    assert_eq!(toml_root(JsonKind::Array), TomlRoot::Items);
    assert_eq!(toml_root(JsonKind::Null), TomlRoot::Value);
}

#[test]
fn tsv_reads_tabs() {
    let out = text(convert("tsv", "json", "a.tsv", &b"a\tb\n1\t2\n".to_vec()).unwrap());
    let v: serde_json::Value = serde_json::from_str(&out).unwrap();
    assert_eq!(v, serde_json::from_str::<serde_json::Value>(r#"[{"a":"1","b":"2"}]"#).unwrap());
}

#[test]
fn record_entries_sort_and_keep_last() {
    let h = vec!["b".to_string(), "a".to_string(), "b".to_string()];
    let r = vec!["1".to_string(), "2".to_string(), "3".to_string()];
    let e = record_entries(&h, &r);
    assert_eq!(e, vec![("a".to_string(), "2".to_string()), ("b".to_string(), "3".to_string())]);
    let short = record_entries(&h, &vec!["9".to_string()]);
    assert_eq!(short, vec![("b".to_string(), "9".to_string())]);
}

#[test]
fn json_to_csv_rows_and_records() {
    match convert("json", "csv", "a.json", &br#"[{"z":"1","a":2},{"a":"x","z":"y"}]"#.to_vec()).unwrap() {
        Written::Bytes(b) => assert_eq!(String::from_utf8(b).unwrap(), "a,z\n,1\nx,y\n"),
        other => panic!("unexpected {other:?}"),
    }
    match convert("json", "csv", "a.json", &br#"{"k":"v"}"#.to_vec()).unwrap() {
        Written::Bytes(b) => assert_eq!(String::from_utf8(b).unwrap(), "k\nv\n"),
        other => panic!("unexpected {other:?}"),
    }
    match convert("json", "csv", "a.json", &b"7".to_vec()).unwrap() {
        Written::Bytes(b) => assert!(b.is_empty()),
        other => panic!("unexpected {other:?}"),
    }
    let row = vec![("a".to_string(), String::new()), ("z".to_string(), "1".to_string())];
    let recs = csv_records(&vec![row.clone(), vec![("q".to_string(), "w".to_string())]]);
    assert_eq!(recs, vec![vec!["a".to_string(), "z".to_string()], vec![String::new(), "1".to_string()], vec!["w".to_string()]]);
    assert!(csv_records(&Vec::new()).is_empty());
}

#[test]
fn write_value_targets() {
    let v: serde_json::Value = serde_json::from_str(r#"{"b":[1,true,null],"a":"x"}"#).unwrap();
    assert_eq!(text(write_value(v.clone(), "json").unwrap()), "{\n  \"a\": \"x\",\n  \"b\": [\n    1,\n    true,\n    null\n  ]\n}");
    assert_eq!(text(write_value(v.clone(), "yaml").unwrap()), "a: x\nb:\n- 1\n- true\n- null\n");
    match write_value(v, "pdf") {
        Err(ConverterError::Parse(m)) => assert_eq!(m, "native_text cannot emit pdf"),
        other => panic!("unexpected {other:?}"),
    }
    let s: serde_json::Value = serde_json::from_str(r#""hi""#).unwrap();
    assert_eq!(text(write_value(s, "toml").unwrap()).trim(), "value = \"hi\"");
}

#[test]
fn archive_helpers() {
    assert!(is_archive("zip") && is_archive("7z") && !is_archive("rar") && !is_archive("txt"));
    assert_eq!(file_name("/tmp/x/hello.txt"), "hello.txt");
    assert_eq!(file_name("/"), "file");
    assert_eq!(gz_stem("/tmp/data.csv.gz"), "data.csv");
    assert_eq!(safe_name("a/b.txt"), Some("a/b.txt".to_string()));
    assert_eq!(safe_name("dir\\f.txt"), Some("dir/f.txt".to_string()));
    assert_eq!(safe_name("/etc/passwd"), None);
    assert_eq!(safe_name("../up"), None);
    assert_eq!(safe_name(""), None);
    let l = listing(&vec![("hello.txt".to_string(), 18), ("b".to_string(), 0)]);
    assert_eq!(l, "Archive contents:\n- hello.txt (18 bytes)\n- b (0 bytes)\n");
}

#[test]
fn archive_plans() {
    assert_eq!(archive_plan("zip", "zip").unwrap(), ArchivePlan::CopyInput);
    assert_eq!(archive_plan("txt", "zip").unwrap(), ArchivePlan::PackSingle(ArchiveKind::Zip));
    assert_eq!(archive_plan("gz", "txt").unwrap(), ArchivePlan::Gunzip);
    assert_eq!(archive_plan("zip", "txt").unwrap(), ArchivePlan::List(ArchiveKind::Zip));
    assert_eq!(archive_plan("tar", "7z").unwrap(), ArchivePlan::Repack(ArchiveKind::Tar, "7z".to_string()));
    match archive_plan("txt", "md") {
        Err(ConverterError::Parse(m)) => assert_eq!(m, "native_archive cannot do txt->md"),
        other => panic!("unexpected {other:?}"),
    }
    match emit_kind("md") {
        Err(ConverterError::Parse(m)) => assert_eq!(m, "native_archive cannot emit md"),
        other => panic!("unexpected {other:?}"),
    }
    assert_eq!(emit_kind("gz").unwrap(), ArchiveKind::Gz);
}

#[test]
fn sheet_conversions() {
    let rows = vec![
        vec!["name".to_string(), String::new()],
        vec!["ada".to_string(), "36".to_string()],
        vec!["grace".to_string()],
    ];
    let obj = native_sheet::sheet_object(&rows[0], &rows[2]);
    assert_eq!(obj, vec![("col1".to_string(), String::new()), ("name".to_string(), "grace".to_string())]);
    match native_sheet::convert("xlsx", "json", &rows).unwrap() {
        Written::Text(s) => {
            let v: serde_json::Value = serde_json::from_str(&s).unwrap();
            assert_eq!(v[0]["name"], serde_json::Value::String("ada".into()));
            assert_eq!(v[0]["col1"], serde_json::Value::String("36".into()));
            assert_eq!(v.as_array().unwrap().len(), 2);
        }
        other => panic!("unexpected {other:?}"),
    }
    match native_sheet::convert("xlsx", "csv", &vec![vec!["a".to_string(), "b".to_string()]]).unwrap() {
        Written::Bytes(b) => assert_eq!(b, b"a,b\n".to_vec()),
        other => panic!("unexpected {other:?}"),
    }
    match native_sheet::convert("xlsx", "yaml", &Vec::new()).unwrap() {
        Written::Text(s) => assert_eq!(s, "[]"),
        other => panic!("unexpected {other:?}"),
    }
    match native_sheet::convert("xlsx", "pdf", &rows) {
        Err(ConverterError::Parse(m)) => assert_eq!(m, "native_sheet cannot emit pdf"),
        other => panic!("unexpected {other:?}"),
    }
}

#[test]
fn base64_round_trip_gives_back_bytes() {
    let raw: Vec<u8> = vec![0, 1, 2, 250, 255, 10, 13, 61];
    let enc = text(convert("txt", "b64", "a.bin", &raw).unwrap());
    match convert("b64", "txt", "a.b64", &enc.into_bytes()).unwrap() {
        Written::Bytes(b) => assert_eq!(b, raw),
        other => panic!("expected bytes, got {other:?}"),
    }
}

#[test]
fn xml_reads_and_writes() {
    let out = text(convert("xml", "json", "a.xml", &b"<note><to>ada</to></note>".to_vec()).unwrap());
    let v: serde_json::Value = serde_json::from_str(&out).unwrap();
    assert_eq!(v["to"]["$text"], serde_json::Value::String("ada".into()));
    match convert("xml", "json", "a.xml", &b"<note><to>ada</note>".to_vec()) {
        Err(ConverterError::Parse(m)) => assert!(m.starts_with("invalid XML: "), "{m}"),
        other => panic!("unexpected {other:?}"),
    }
    match convert("json", "xml", "a.json", &br#"{"note":{"to":"ada"}}"#.to_vec()) {
        Err(ConverterError::Parse(m)) => assert_eq!(m, "unsupported value: cannot serialize map without defined root tag"),
        other => panic!("unexpected {other:?}"),
    }
}

#[test]
fn json_to_tsv_uses_tabs() {
    match convert("json", "tsv", "a.json", &br#"[{"a":"1","b":"x y"}]"#.to_vec()).unwrap() {
        Written::Bytes(b) => assert_eq!(String::from_utf8(b).unwrap(), "a\tb\n1\tx y\n"),
        other => panic!("unexpected {other:?}"),
    }
}
