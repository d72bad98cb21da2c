use std::io::Write;

use omni_core::adapters::native_archive::{
    file_name, listed_entries, listing, pack, plan as archive_plan, sorted_listing, unpack, ArchiveKind,
    ArchivePlan,
};
use omni_core::adapters::native_text::{convert, Written};
use omni_core::deps::check_all;
use omni_core::detect::detect_bytes;
use omni_core::engine::plan;
use omni_core::registry::ConversionGraph;

const STAMP: (u16, u8, u8, u8, u8, u8) = (2024, 5, 17, 12, 30, 0);

fn text_of(w: Written) -> String {
    match w {
        Written::Text(s) => s,
        Written::Bytes(b) => String::from_utf8(b).expect("utf8 output"),
        Written::CopyInput => panic!("unexpected copy"),
    }
}

fn bytes_of(w: Written) -> Vec<u8> {
    match w {
        Written::Text(s) => s.into_bytes(),
        Written::Bytes(b) => b,
        Written::CopyInput => panic!("unexpected copy"),
    }
}

#[test]
fn csv_to_json_to_csv_preserves_rows() {
    let csv_in = b"name,age\nada,36\ngrace,85\n".to_vec();
    let json = bytes_of(convert("csv", "json", "in.csv", &csv_in).expect("csv->json"));
    let back = bytes_of(convert("json", "csv", "mid.json", &json).expect("json->csv"));
    let mut rdr = csv::Reader::from_reader(back.as_slice());
    let headers = rdr.headers().expect("headers").clone();
    let rows: Vec<_> = rdr.records().map(|r| r.expect("record")).collect();
    assert_eq!(rows.len(), 2, "both rows survive the round trip");
    let name_col = headers.iter().position(|h| h == "name").expect("name col");
    let age_col = headers.iter().position(|h| h == "age").expect("age col");
    assert_eq!(&rows[0][name_col], "ada");
    assert_eq!(&rows[1][age_col], "85");
}

#[test]
fn json_to_yaml_to_json_preserves_value() {
    let src = br#"{"name":"ada","tags":["a","b"],"n":36}"#.to_vec();
    let yaml = bytes_of(convert("json", "yaml", "in.json", &src).expect("json->yaml"));
    let back = text_of(convert("yaml", "json", "mid.yaml", &yaml).expect("yaml->json"));
    let v_src: serde_json::Value = serde_json::from_slice(&src).unwrap();
    let v_back: serde_json::Value = serde_json::from_str(&back).unwrap();
    assert_eq!(v_src, v_back, "value identical after yaml round trip");
}

#[test]
fn json_object_to_toml_to_json_preserves_value() {
    let src = br#"{"title":"doc","n":7}"#.to_vec();
    let toml = bytes_of(convert("json", "toml", "in.json", &src).expect("json->toml"));
    let back = text_of(convert("toml", "json", "mid.toml", &toml).expect("toml->json"));
    let v_src: serde_json::Value = serde_json::from_slice(&src).unwrap();
    let v_back: serde_json::Value = serde_json::from_str(&back).unwrap();
    assert_eq!(v_src, v_back, "object survives toml (tables map 1:1)");
}

#[test]
fn srt_vtt_round_trip_keeps_cues() {
    let src = b"1\n00:00:00,000 --> 00:00:01,000\nHi\n".to_vec();
    let vtt = text_of(convert("srt", "vtt", "in.srt", &src).expect("srt->vtt"));
    assert!(vtt.starts_with("WEBVTT"));
    let back = text_of(convert("vtt", "srt", "mid.vtt", &vtt.into_bytes()).expect("vtt->srt"));
    assert!(back.contains("Hi"), "cue text survives");
}

#[test]
fn detect_ignores_wrong_extension_reads_content() {
    let bytes = br#"{"real":"json"}"#.to_vec();
    let det = detect_bytes("mystery.bin", &bytes);
    assert_eq!(det.format_id, "json", "content beats extension");
    let out = text_of(convert(&det.format_id, "yaml", "mystery.bin", &bytes).expect("bin-disguised json converts"));
    assert!(out.contains("real"));
}

#[test]
fn impossible_pair_fails_with_actionable_error() {
    let bytes = b"not a real png, but extension routes it".to_vec();
    let det = detect_bytes("in.png", &bytes);
    let graph = ConversionGraph::new();
    let statuses = check_all(&vec![None; 10]);
    let err = plan(&graph, &statuses, &det.format_id, "mp3").expect_err("png->mp3 must fail without ffmpeg graph edge");
    let msg = err.message();
    assert!(msg.len() > 20, "error explains itself: {msg}");
    assert!(
        msg.contains("ffmpeg") || msg.contains("not supported"),
        "error names the missing tool or the gap: {msg}"
    );
}

#[test]
fn txt_to_zip_lists_original_name() {
    let content = b"hello omniconvert\n".to_vec();
    assert_eq!(archive_plan("txt", "zip").expect("txt->zip"), ArchivePlan::PackSingle(ArchiveKind::Zip));
    let stored = file_name("/tmp/work/hello.txt");
    let zip = pack(ArchiveKind::Zip, &vec![(stored, content)], STAMP).expect("txt->zip");
    assert_eq!(archive_plan("zip", "txt").expect("zip->txt listing"), ArchivePlan::List(ArchiveKind::Zip));
    let entries = unpack(ArchiveKind::Zip, "out.zip", &zip).expect("zip->txt listing");
    let text = listing(&listed_entries(ArchiveKind::Zip, &entries));
    assert!(text.contains("hello.txt"), "listing names the bundled file: {text}");
}

#[test]
fn archives_pack_and_unpack() {
    let files = vec![("a.txt".to_string(), b"one".to_vec()), ("d/b.txt".to_string(), b"two".to_vec())];
    for kind in [ArchiveKind::Zip, ArchiveKind::Tar] {
        let bytes = pack(kind, &files, STAMP).expect("pack");
        let back = unpack(kind, "x", &bytes).expect("unpack");
        let got: Vec<(String, Vec<u8>)> = back.into_iter().filter(|e| e.1).map(|e| (e.0, e.2)).collect();
        assert_eq!(got, files);
    }
    let gz = pack(ArchiveKind::Gz, &vec![("data.csv".to_string(), b"a,b\n".to_vec())], STAMP).expect("gz");
    let back = unpack(ArchiveKind::Gz, "/tmp/data.csv.gz", &gz).expect("gunzip");
    assert_eq!(back, vec![("data.csv".to_string(), true, b"a,b\n".to_vec())]);
    let tgz = pack(ArchiveKind::Gz, &files, STAMP).expect("tar.gz");
    let inner = unpack(ArchiveKind::Gz, "x.tar.gz", &tgz).expect("gunzip");
    let listed = unpack(ArchiveKind::Tar, "x.tar", &inner[0].2).expect("tar inside");
    assert_eq!(listed_entries(ArchiveKind::Tar, &listed), vec![("a.txt".to_string(), 3), ("d/b.txt".to_string(), 3)]);
    match unpack(ArchiveKind::Gz, "bad.gz", &b"nope".to_vec()) {
        Err(omni_core::error::ConverterError::Parse(m)) => assert!(m.starts_with("invalid gzip bad.gz: "), "{m}"),
        other => panic!("unexpected {other:?}"),
    }
    let evil = pack(ArchiveKind::Zip, &vec![("../evil".to_string(), b"x".to_vec()), ("ok".to_string(), b"y".to_vec())], STAMP).expect("zip");
    let kept = unpack(ArchiveKind::Zip, "e.zip", &evil).expect("unpack");
    assert_eq!(kept, vec![("ok".to_string(), true, b"y".to_vec())]);
}

#[test]
fn zip_entries_carry_the_given_stamp() {
    let files = vec![("a.txt".to_string(), b"one".to_vec())];
    let first = pack(ArchiveKind::Zip, &files, STAMP).expect("zip");
    let again = pack(ArchiveKind::Zip, &files, STAMP).expect("zip");
    assert_eq!(first, again, "the same files and stamp give the same archive");
    let mut zip = zip::ZipArchive::new(std::io::Cursor::new(first)).expect("read back");
    let entry = zip.by_index(0).expect("entry");
    let when = entry.last_modified().expect("stamp");
    assert_eq!((when.year(), when.month(), when.day(), when.hour(), when.minute(), when.second()), STAMP);
    match pack(ArchiveKind::Zip, &files, (1970, 1, 1, 0, 0, 0)) {
        Err(omni_core::error::ConverterError::Zip(m)) => assert!(m.contains("1980"), "{m}"),
        other => panic!("unexpected {other:?}"),
    }
}

#[test]
fn found_entries_list_sorted_with_forward_slashes() {
    let found = vec![
        ("sub\\b.txt".to_string(), 4),
        ("a.txt".to_string(), 9),
        ("sub/a.txt".to_string(), 2),
        ("a.txt".to_string(), 1),
    ];
    assert_eq!(
        sorted_listing(&found),
        vec![
            ("a.txt".to_string(), 1),
            ("a.txt".to_string(), 9),
            ("sub/a.txt".to_string(), 2),
            ("sub/b.txt".to_string(), 4),
        ]
    );
    assert_eq!(sorted_listing(&vec![]), vec![]);
}

#[test]
fn zip_directories_and_unsafe_names_are_not_read() {
    let mut w = zip::ZipWriter::new(std::io::Cursor::new(Vec::new()));
    let opts = zip::write::SimpleFileOptions::default();
    w.add_directory("docs/", opts).expect("dir");
    w.start_file("docs/readme.txt", opts).expect("entry");
    w.write_all(b"hi").expect("write");
    w.start_file("/etc/passwd", opts).expect("entry");
    w.write_all(b"root").expect("write");
    let bytes = w.finish().expect("finish").into_inner();
    let entries = unpack(ArchiveKind::Zip, "d.zip", &bytes).expect("unpack");
    assert_eq!(
        entries,
        vec![("docs/".to_string(), false, vec![]), ("docs/readme.txt".to_string(), true, b"hi".to_vec())]
    );
    assert_eq!(listed_entries(ArchiveKind::Zip, &entries), vec![("docs/readme.txt".to_string(), 2)]);
    match unpack(ArchiveKind::Zip, "bad.zip", &b"not a zip".to_vec()) {
        Err(omni_core::error::ConverterError::Zip(_)) => {}
        other => panic!("unexpected {other:?}"),
    }
}

#[test]
fn xlsx_detected_by_container_not_as_zip() {
    let mut w = zip::ZipWriter::new(std::io::Cursor::new(Vec::new()));
    let opts = zip::write::SimpleFileOptions::default().compression_method(zip::CompressionMethod::Stored);
    w.start_file("xl/workbook.xml", opts).expect("entry");
    w.write_all(b"<workbook/>").expect("write");
    let bytes = w.finish().expect("finish").into_inner();
    let det = detect_bytes("sample.xlsx", &bytes);
    assert_eq!(det.format_id, "xlsx", "zip container resolved via extension+probe, got {}", det.format_id);
}

fn sample_sheet() -> Vec<Vec<String>> {
    vec![
        vec!["name".to_string(), "age".to_string()],
        vec!["ada".to_string(), "36".to_string()],
        vec!["grace".to_string(), "85".to_string()],
    ]
}

#[test]
fn xlsx_to_csv_reads_first_sheet() {
    let out = omni_core::adapters::native_sheet::convert("xlsx", "csv", &sample_sheet()).expect("xlsx->csv");
    let text = text_of(out);
    assert!(text.contains("ada") && text.contains("grace"), "rows present: {text}");
    assert!(text.contains("name"), "header present: {text}");
}

#[test]
fn xlsx_to_json_maps_header_to_values() {
    let out = omni_core::adapters::native_sheet::convert("xlsx", "json", &sample_sheet()).expect("xlsx->json");
    let v: serde_json::Value = serde_json::from_str(&text_of(out)).expect("valid json");
    let rows = v.as_array().expect("array of objects");
    assert_eq!(rows.len(), 2);
    assert_eq!(rows[0]["name"], serde_json::Value::String("ada".into()));
}

#[test]
fn magic_bytes_beat_any_name() {
    let png = vec![0x89, b'P', b'N', b'G', 0x0D, 0x0A, 0x1A, 0x0A, 0, 0, 0, 13, b'I', b'H', b'D', b'R'];
    let a = detect_bytes("notes.txt", &png);
    let b = detect_bytes("blob", &png);
    assert_eq!((a.format_id.as_str(), a.confidence_pct), ("png", 95));
    assert_eq!((a.format_id, a.mime, a.method), (b.format_id, b.mime, b.method));
}

#[test]
fn png_to_jpg_to_png_preserves_dimensions() {
    let img = image::RgbImage::from_pixel(16, 12, image::Rgb([200u8, 100, 50]));
    let mut png = std::io::Cursor::new(Vec::new());
    img.write_to(&mut png, image::ImageFormat::Png).expect("write png");
    let jpg = bytes_of(omni_core::adapters::native_image::convert("png", "jpg", &png.into_inner()).expect("png->jpg"));
    assert!(!jpg.is_empty());
    let back = bytes_of(omni_core::adapters::native_image::convert("jpg", "png", &jpg).expect("jpg->png"));
    let round = image::load_from_memory(&back).expect("open round-tripped png");
    assert_eq!((round.width(), round.height()), (16, 12));
}

#[test]
fn image_and_sheet_errors() {
    match omni_core::adapters::native_image::convert("png", "jpg", &b"not an image".to_vec()) {
        Err(omni_core::error::ConverterError::Parse(m)) => assert!(m.starts_with("cannot decode image: "), "{m}"),
        other => panic!("unexpected {other:?}"),
    }
    assert!(matches!(
        omni_core::adapters::native_image::convert("png", "png", &Vec::new()),
        Ok(Written::CopyInput)
    ));
    match omni_core::adapters::native_sheet::first_sheet_rows(b"not a workbook") {
        Err(omni_core::error::ConverterError::Parse(m)) => assert!(m.starts_with("cannot open workbook: "), "{m}"),
        other => panic!("unexpected {other:?}"),
    }
}
