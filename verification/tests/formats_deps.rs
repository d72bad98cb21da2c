use omni_core::deps::{check_all, install_hint_for, known_tools};
use omni_core::formats::{all_formats, find_by_extension};

#[test]
fn formats_table() {
    let f = all_formats();
    assert_eq!(f.len(), 51);
    assert_eq!(f[0].id, "txt");
    assert_eq!(f[50].id, "bin");
    assert_eq!(f[1].extensions, vec!["md", "markdown"]);
}

#[test]
fn find_by_extension_is_case_insensitive() {
    assert_eq!(find_by_extension("JPEG").map(|f| f.id), Some("jpg".to_string()));
    assert_eq!(find_by_extension("yml").map(|f| f.id), Some("yaml".to_string()));
    assert_eq!(find_by_extension("tgz").map(|f| f.id), Some("gz".to_string()));
    assert_eq!(find_by_extension("pptx").map(|f| f.name), Some("PowerPoint".to_string()));
    assert!(find_by_extension("nope").is_none());
    assert!(find_by_extension("").is_none());
}

#[test]
fn install_hints() {
    assert_eq!(install_hint_for("pandoc"), "brew install pandoc | apt install pandoc | choco install pandoc");
    assert_eq!(install_hint_for("frob"), "install 'frob' via your package manager");
    assert_eq!(known_tools().len(), 10);
}

#[test]
fn tool_statuses() {
    let mut found = vec![None; 10];
    found[0] = Some("/usr/bin/ffmpeg".to_string());
    let st = check_all(&found);
    assert_eq!(st.len(), 10);
    assert_eq!(st[0].binary, "ffmpeg");
    assert!(st[0].installed);
    assert_eq!(st[0].path.as_deref(), Some("/usr/bin/ffmpeg"));
    assert!(!st[1].installed);
    assert_eq!(st[1].label, "ImageMagick (images)");
    assert_eq!(st[9].install_hint, "brew install fontforge | apt install fontforge | choco install fontforge");
}
