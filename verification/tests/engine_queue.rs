use omni_core::adapters::external::tool_outcome;
use omni_core::adapters::external::{
    external_command, ffmpeg_failure, tool_binary, tool_failed, tool_missing, ProgressTracker,
};
use omni_core::deps::check_all;
use omni_core::detect::{detect_bytes, is_probably_text, sniff_text_or_binary};
use omni_core::engine::{ext_of, ext_or_bin, output_name, plan, source_format, target_format, OmniEngine, Step};
use omni_core::error::ConverterError;
use omni_core::presets::{all_presets, builtin_presets, presets_file};
use omni_core::queue::{JobBook, JobState};
use omni_core::registry::ConversionGraph;

#[test]
fn extensions_and_formats() {
    assert_eq!(ext_of("/a/b/Photo.JPG"), "jpg");
    assert_eq!(ext_of("/a/b/noext"), "");
    assert_eq!(ext_or_bin("/a/b/noext"), "bin");
    assert_eq!(ext_or_bin("x.Csv"), "csv");
    assert_eq!(source_format(Some("json".to_string()), "x.bin"), "json");
    assert_eq!(source_format(None, "x.TSV"), "tsv");
    assert_eq!(target_format("json", "out"), "json");
    assert_eq!(target_format("json", "out.YAML"), "yaml");
}

#[test]
fn plans_pick_adapters() {
    let g = ConversionGraph::new();
    let none = check_all(&vec![None; 10]);
    assert_eq!(plan(&g, &none, "csv", "json").unwrap(), Step::NativeText);
    assert_eq!(plan(&g, &none, "png", "jpg").unwrap(), Step::NativeImage);
    assert_eq!(plan(&g, &none, "txt", "zip").unwrap(), Step::NativeArchive);
    assert_eq!(plan(&g, &none, "xlsx", "csv").unwrap(), Step::NativeSheet);
    assert_eq!(plan(&g, &none, "mp4", "mp4").unwrap(), Step::Copy);
    match plan(&g, &none, "mp3", "wav") {
        Err(ConverterError::ToolMissing { tool, .. }) => assert_eq!(tool, "ffmpeg"),
        other => panic!("unexpected {other:?}"),
    }
    let mut found = vec![None; 10];
    found[0] = Some("/bin/ffmpeg".to_string());
    let some = check_all(&found);
    assert_eq!(plan(&g, &some, "mp3", "wav").unwrap(), Step::External("ffmpeg".to_string()));
}

#[test]
fn engine_targets() {
    let e = OmniEngine::new();
    assert_eq!(e.supported_targets("srt"), vec!["b64", "html", "m3u", "md", "srt", "txt", "vtt", "zip"]);
}

#[test]
fn detection_paths() {
    let png = [0x89u8, b'P', b'N', b'G', 0x0D, 0x0A, 0x1A, 0x0A, 0, 0, 0, 0].to_vec();
    let d = detect_bytes("x.dat", &png);
    assert_eq!((d.format_id.as_str(), d.mime.as_str(), d.confidence_pct), ("png", "image/png", 95));
    assert_eq!(d.method, "magic-bytes:png");
    let d = detect_bytes("notes.md", &b"hello world".to_vec());
    assert_eq!((d.format_id.as_str(), d.confidence_pct), ("md", 50));
    assert_eq!(d.method, "extension+content-sniff");
    assert_eq!(sniff_text_or_binary("x", &b"  <html><body>".to_vec()), "html");
    assert_eq!(sniff_text_or_binary("x", &b"<note/>".to_vec()), "xml");
    assert_eq!(sniff_text_or_binary("x", &b"key: value\n".to_vec()), "yaml");
    assert_eq!(sniff_text_or_binary("x", &b"# Title\n".to_vec()), "md");
    assert_eq!(sniff_text_or_binary("x", &b"plain".to_vec()), "txt");
    assert_eq!(sniff_text_or_binary("x", &[1u8, 2, 3, 4].to_vec()), "bin");
    assert_eq!(sniff_text_or_binary("x.mp3", &[1u8, 2, 3, 4].to_vec()), "mp3");
    assert!(is_probably_text(&Vec::new()));
    let mut mostly = vec![b'a'; 20];
    mostly[0] = 1;
    assert!(!is_probably_text(&mostly));
    mostly.push(b'a');
    assert!(is_probably_text(&mostly));
}

#[test]
fn external_commands() {
    assert_eq!(tool_binary("ghostscript"), "gs");
    assert_eq!(tool_binary("magick"), "magick");
    let c = external_command("ffmpeg", "mp3", "in.wav", "out.mp3");
    assert_eq!(c.bin, "ffmpeg");
    assert!(c.with_progress);
    assert_eq!(c.args, vec!["-y", "-hide_banner", "-nostats", "-progress", "pipe:1", "-i", "in.wav", "out.mp3"]);
    let c = external_command("libreoffice", "pdf", "/d/in.docx", "/o/out.pdf");
    assert_eq!(c.args, vec!["--headless", "--convert-to", "pdf", "--outdir", "/o", "/d/in.docx"]);
    let c = external_command("7z", "zip", "a.rar", "/o/b.zip");
    assert_eq!(c.args, vec!["x", "a.rar", "-o/o"]);
    let c = external_command("pandoc", "pdf", "a.md", "b.pdf");
    assert_eq!(c.args, vec!["a.md", "-o", "b.pdf"]);
    assert!(!c.with_progress);
    match tool_missing("blender") {
        ConverterError::ToolMissing { tool, install_hint } => {
            assert_eq!(tool, "blender");
            assert!(install_hint.contains("blender"));
        }
        other => panic!("unexpected {other:?}"),
    }
    match tool_failed("magick", "exit status: 1") {
        ConverterError::ToolFailed { tool, stderr } => {
            assert_eq!(tool, "magick");
            assert_eq!(stderr, "exit status exit status: 1");
        }
        other => panic!("unexpected {other:?}"),
    }
    assert_eq!(ffmpeg_failure("exit status: 1", "a\nb\nc\nd\ne\nf\ng"), "exit exit status: 1\nc\nd\ne\nf\ng");
    assert_eq!(ffmpeg_failure("x", ""), "exit x\n");
    assert_eq!(ffmpeg_failure("x", "a\r\nb\n"), "exit x\na\nb");
}

#[test]
fn progress_tracking() {
    let mut t = ProgressTracker::new();
    assert_eq!(t.on_line("out_time_us=1000000", ""), None);
    let stderr = "Duration: 00:00:10.00, start: 0";
    assert_eq!(t.on_line("out_time_us=5000000", stderr), Some("omni: 50% (00:00:05/00:00:10)".to_string()));
    assert_eq!(t.on_line("out_time_us=5000001", stderr), None);
    assert_eq!(t.on_line("frame=3", stderr), None);
    assert_eq!(t.on_line("progress=end", stderr), Some("omni: 100%".to_string()));
    assert_eq!(t.total, Some(10_000_000));
}

#[test]
fn job_book_lifecycle() {
    let mut b = JobBook::new();
    let (id1, j1) = b.submit("a.csv".to_string(), "a.json".to_string());
    let (id2, _) = b.submit("b.csv".to_string(), "b.json".to_string());
    assert_eq!(id1, "job-1");
    assert_eq!(id2, "job-2");
    assert_eq!(j1.state, JobState::Queued);
    assert_eq!(j1.progress_pct, 0);
    let c = b.cancel("job-2").expect("job-2 exists");
    assert_eq!(c.state, JobState::Cancelled);
    assert!(b.cancel("job-9").is_none());
    let (id3, _) = b.submit("c.csv".to_string(), "c.json".to_string());
    assert_eq!(b.runnable_ids(), vec!["job-1", "job-3"]);
    let s = b.start("job-1").expect("job-1");
    assert_eq!((s.state.clone(), s.progress_pct), (JobState::Running, 10));
    assert!(b.start("job-2").is_none());
    assert!(b.start("job-1").is_none());
    assert_eq!(b.runnable_ids(), vec![id3.clone()]);
    let done = b.finish("job-1", Ok(())).unwrap();
    assert_eq!((done.state, done.progress_pct), (JobState::Done, 100));
    assert!(b.start("job-1").is_none());
    let failed = b.finish("job-3", Err("boom".to_string())).unwrap();
    assert_eq!((failed.state, failed.progress_pct), (JobState::Failed("boom".to_string()), 0));
    assert_eq!(b.list()[1].state, JobState::Cancelled);
    let all = b.list();
    assert_eq!(all.len(), 3);
    assert_eq!(all[0].input, "a.csv");
    assert_eq!(b.ids(), vec!["job-1", "job-2", "job-3"]);
}

#[test]
fn preset_lists() {
    let b = builtin_presets();
    assert_eq!(b.len(), 6);
    assert_eq!((b[0].name.as_str(), b[0].from.as_str(), b[0].to.as_str()), ("Audio MP3 320k", "wav", "mp3"));
    assert_eq!(b[1].options["crf"], serde_json::Value::from(20));
    assert_eq!(b[0].options.to_string(), r#"{"bitrate":"320k","codec":"libmp3lame"}"#);
    assert_eq!(b[2].options.to_string(), r#"{"quality":80}"#);
    assert_eq!(b[3].options.to_string(), "{}");
    assert_eq!(b[4].options.to_string(), r#"{"pretty":true}"#);
    assert_eq!(all_presets(Vec::new()).len(), 6);
    let p = presets_file(None, Some("/home/u"));
    assert_eq!(p, "/home/u/.config/omniconvert/presets.json");
    assert_eq!(presets_file(Some("/appdata"), Some("/home/u")), "/appdata/omniconvert/presets.json");
    assert_eq!(presets_file(None, None), "./omniconvert/presets.json");
}

#[test]
fn error_messages() {
    let e = ConverterError::ToolMissing { tool: "ffmpeg".into(), install_hint: "get it".into() };
    assert_eq!(e.message(), "external tool 'ffmpeg' not found. Install: get it");
    assert_eq!(ConverterError::Cancelled.message(), "cancelled");
    let e = ConverterError::NotSupported { from: "a".into(), to: "b".into(), reason: "r".into(), hint: "h".into() };
    assert_eq!(e.message(), "conversion a -> b not supported: r. Hint: h");
}

#[test]
fn output_name_uses_stem_and_target() {
    assert_eq!(output_name("in/photo.final.png", "jpg"), "photo.final.jpg");
    assert_eq!(output_name("notes", "md"), "notes.md");
    assert_eq!(output_name("", "txt"), "file.txt");
}

#[test]
fn tool_outcomes() {
    assert!(tool_outcome("ffmpeg", Some((true, "exit status: 0".to_string()))).is_ok());
    match tool_outcome("ffmpeg", Some((false, "exit status: 1".to_string()))) {
        Err(ConverterError::ToolFailed { tool, stderr }) => assert_eq!((tool.as_str(), stderr.as_str()), ("ffmpeg", "exit status exit status: 1")),
        other => panic!("unexpected {other:?}"),
    }
    assert!(matches!(tool_outcome("pandoc", None), Err(ConverterError::ToolMissing { .. })));
}
