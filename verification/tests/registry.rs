use omni_core::error::ConverterError;
use omni_core::registry::ConversionGraph;

#[test]
fn route_prefers_native_edges() {
    let g = ConversionGraph::new();
    let e = g.find_route("png", "jpg").expect("png->jpg");
    assert_eq!(e.via, "native_image");
    assert!(e.needs_tool.is_none());
    let e = g.find_route("md", "html").expect("md->html");
    assert_eq!(e.via, "native_text");
}

#[test]
fn route_falls_back_to_tools() {
    let g = ConversionGraph::new();
    let e = g.find_route("mp3", "wav").expect("mp3->wav");
    assert_eq!(e.via, "ffmpeg");
    assert_eq!(e.needs_tool.as_deref(), Some("ffmpeg"));
    let e = g.find_route("pdf", "ps").expect("pdf->ps");
    assert_eq!(e.via, "ghostscript");
    assert_eq!(e.needs_tool.as_deref(), Some("gs"));
    assert!(g.find_route("png", "mp3").is_none());
}

#[test]
fn same_format_routes_to_copy() {
    let g = ConversionGraph::new();
    for id in ["txt", "json", "png", "mp4", "bin", "zip"] {
        let e = g.find_route(id, id).expect("copy edge");
        assert_eq!(e.via, "copy", "{id}");
    }
    assert!(g.find_route("ods", "ods").is_none());
}

#[test]
fn supported_targets_sorted_and_unique() {
    let g = ConversionGraph::new();
    let t = g.supported_targets("csv");
    assert_eq!(t, vec!["csv", "json", "md", "toml", "tsv", "txt", "xml", "yaml", "zip"]);
    let t = g.supported_targets("ogg");
    assert_eq!(t, vec!["flac", "mp3", "ogg", "wav", "zip"]);
    assert!(g.supported_targets("nope").is_empty());
}

#[test]
fn explain_missing_tool() {
    let g = ConversionGraph::new();
    match g.explain_why_not("mp3", "wav") {
        ConverterError::ToolMissing { tool, install_hint } => {
            assert_eq!(tool, "ffmpeg");
            assert_eq!(install_hint, "brew install ffmpeg | apt install ffmpeg | choco install ffmpeg");
        }
        other => panic!("unexpected {other:?}"),
    }
}

#[test]
fn explain_unknown_pair() {
    let g = ConversionGraph::new();
    match g.explain_why_not("ogg", "png") {
        ConverterError::NotSupported { from, to, reason, hint } => {
            assert_eq!(from, "ogg");
            assert_eq!(to, "png");
            assert_eq!(reason, "no adapter registered for this pair yet");
            assert_eq!(
                hint,
                "supported targets from 'ogg': [flac, mp3, ogg, wav, zip]. To add this pair, implement the Adapter trait (see README)."
            );
        }
        other => panic!("unexpected {other:?}"),
    }
    match g.explain_why_not("qqq", "zzz") {
        ConverterError::NotSupported { hint, .. } => {
            assert_eq!(hint, "supported targets from 'qqq': []. To add this pair, implement the Adapter trait (see README).");
        }
        other => panic!("unexpected {other:?}"),
    }
}

#[test]
fn explain_tool_without_known_hint() {
    let g = ConversionGraph::new();
    match g.explain_why_not("pdf", "ps") {
        ConverterError::ToolMissing { tool, install_hint } => {
            assert_eq!(tool, "gs");
            assert_eq!(install_hint, "brew install ghostscript | apt install ghostscript | choco install ghostscript");
        }
        other => panic!("unexpected {other:?}"),
    }
}

#[test]
fn out_of_the_box_pairs_need_no_tool() {
    let g = ConversionGraph::new();
    let pairs = [
        ("txt", "m3u"), ("vtt", "html"), ("csv", "json"), ("tsv", "yaml"), ("xml", "md"),
        ("txt", "toml"), ("bmp", "zip"), ("json", "zip"), ("webp", "ico"), ("ods", "md"),
        ("xlsx", "csv"),
    ];
    for (a, b) in pairs {
        let e = g.find_route(a, b).unwrap_or_else(|| panic!("{a}->{b}"));
        assert!(e.needs_tool.is_none(), "{a}->{b} via {}", e.via);
    }
}

#[test]
fn data_formats_reach_tsv_and_anything_reaches_zip() {
    let g = ConversionGraph::new();
    for a in ["json", "yaml", "toml", "xml", "csv"] {
        let e = g.find_route(a, "tsv").unwrap_or_else(|| panic!("{a}->tsv"));
        assert_eq!(e.via, "native_data");
        assert!(e.needs_tool.is_none());
    }
    for a in ["mp3", "pdf", "docx", "ttf", "bin", "tsv"] {
        let e = g.find_route(a, "zip").unwrap_or_else(|| panic!("{a}->zip"));
        assert_eq!(e.via, "native_archive");
        assert!(e.needs_tool.is_none());
    }
}
