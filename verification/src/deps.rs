//! The external tools the engine can hand work to, and their install hints.
use vstd::prelude::*;

use crate::text::push_str;

verus! {

/// An external tool: its binary, label, install hint and the formats it handles.
#[derive(Debug, Clone)]
pub struct ToolInfo {
    pub binary: String,
    pub label: String,
    pub install: String,
    pub handles: Vec<String>,
}

/// Whether an external tool is installed, and where.
#[derive(Debug)]
pub struct ToolStatus {
    pub binary: String,
    pub label: String,
    pub installed: bool,
    pub path: Option<String>,
    pub install_hint: String,
}

/// A known external tool.
pub struct ToolStatic {
    pub binary: &'static str,
    pub label: &'static str,
    pub install: &'static str,
}

/// The value of a `ToolStatic`: binary, label and install hint.
pub struct ToolView {
    pub binary: Seq<char>,
    pub label: Seq<char>,
    pub install: Seq<char>,
}

impl View for ToolStatic {
    type V = ToolView;

    open spec fn view(&self) -> ToolView {
        ToolView { binary: self.binary@, label: self.label@, install: self.install@ }
    }
}

/// The value of a tool entry.
pub open spec fn tool_view(binary: Seq<char>, label: Seq<char>, install: Seq<char>) -> ToolView {
    ToolView { binary, label, install }
}

/// The known external tools, in order.
pub open spec fn tool_table() -> Seq<ToolView> {
    seq![
        tool_view("ffmpeg"@, "FFmpeg (audio/video)"@, "brew install ffmpeg | apt install ffmpeg | choco install ffmpeg"@),
        tool_view("magick"@, "ImageMagick (images)"@, "brew install imagemagick | apt install imagemagick | choco install imagemagick"@),
        tool_view("pandoc"@, "Pandoc (documents)"@, "brew install pandoc | apt install pandoc | choco install pandoc"@),
        tool_view("libreoffice"@, "LibreOffice (office docs)"@, "brew install --cask libreoffice | apt install libreoffice | choco install libreoffice"@),
        tool_view("7z"@, "7-Zip (archives)"@, "brew install p7zip | apt install p7zip-full | choco install 7zip"@),
        tool_view("gs"@, "Ghostscript (PDF/PS)"@, "brew install ghostscript | apt install ghostscript | choco install ghostscript"@),
        tool_view("inkscape"@, "Inkscape (vector)"@, "brew install --cask inkscape | apt install inkscape | choco install inkscape"@),
        tool_view("ebook-convert"@, "Calibre (ebooks)"@, "brew install --cask calibre | apt install calibre | choco install calibre"@),
        tool_view("blender"@, "Blender (3D)"@, "brew install --cask blender | apt install blender | choco install blender"@),
        tool_view("fontforge"@, "FontForge (fonts)"@, "brew install fontforge | apt install fontforge | choco install fontforge"@),
    ]
}

/// The views of a list of tools.
pub open spec fn tool_views(v: Seq<ToolStatic>) -> Seq<ToolView> {
    v.map_values(|t: ToolStatic| t@)
}

/// The known external tools.
pub fn known_tools() -> (r: Vec<ToolStatic>)
    ensures
        tool_views(r@) == tool_table(),
{
    let mut r: Vec<ToolStatic> = Vec::new();
    r.push(ToolStatic { binary: "ffmpeg", label: "FFmpeg (audio/video)", install: "brew install ffmpeg | apt install ffmpeg | choco install ffmpeg" });
    r.push(ToolStatic { binary: "magick", label: "ImageMagick (images)", install: "brew install imagemagick | apt install imagemagick | choco install imagemagick" });
    r.push(ToolStatic { binary: "pandoc", label: "Pandoc (documents)", install: "brew install pandoc | apt install pandoc | choco install pandoc" });
    r.push(ToolStatic { binary: "libreoffice", label: "LibreOffice (office docs)", install: "brew install --cask libreoffice | apt install libreoffice | choco install libreoffice" });
    r.push(ToolStatic { binary: "7z", label: "7-Zip (archives)", install: "brew install p7zip | apt install p7zip-full | choco install 7zip" });
    r.push(ToolStatic { binary: "gs", label: "Ghostscript (PDF/PS)", install: "brew install ghostscript | apt install ghostscript | choco install ghostscript" });
    r.push(ToolStatic { binary: "inkscape", label: "Inkscape (vector)", install: "brew install --cask inkscape | apt install inkscape | choco install inkscape" });
    r.push(ToolStatic { binary: "ebook-convert", label: "Calibre (ebooks)", install: "brew install --cask calibre | apt install calibre | choco install calibre" });
    r.push(ToolStatic { binary: "blender", label: "Blender (3D)", install: "brew install --cask blender | apt install blender | choco install blender" });
    r.push(ToolStatic { binary: "fontforge", label: "FontForge (fonts)", install: "brew install fontforge | apt install fontforge | choco install fontforge" });
    assert(tool_views(r@) =~= tool_table());
    r
}

/// The first known tool whose binary is `bin`.
pub open spec fn first_tool(t: Seq<ToolView>, bin: Seq<char>) -> Option<ToolView>
    decreases t.len(),
{
    if t.len() == 0 {
        None
    } else if t[0].binary == bin {
        Some(t[0])
    } else {
        first_tool(t.drop_first(), bin)
    }
}

/// A binary listed in the table is found in it.
pub proof fn lemma_first_tool_some(t: Seq<ToolView>, bin: Seq<char>, k: int)
    requires
        0 <= k < t.len(),
        t[k].binary == bin,
    ensures
        first_tool(t, bin) is Some,
    decreases t.len(),
{
    if t[0].binary != bin {
        lemma_first_tool_some(t.drop_first(), bin, k - 1);
    }
}

/// The known tool whose binary is `bin`.
pub open spec fn tool_named(bin: Seq<char>) -> Option<ToolView> {
    first_tool(tool_table(), bin)
}

/// Looks a tool up by its binary name.
pub fn find_tool(bin: &str) -> (r: Option<ToolStatic>)
    ensures
        match r {
            Some(t) => tool_named(bin@) == Some(t@),
            None => tool_named(bin@) is None,
        },
{
    let tools = known_tools();
    let ghost t = tool_table();
    let b = bin.to_owned();
    let mut i: usize = 0;
    assert(t.skip(0) == t);
    while i < tools.len()
        invariant
            i <= tools.len(),
            tool_views(tools@) == t,
            t == tool_table(),
            b@ == bin@,
            first_tool(t, bin@) == first_tool(t.skip(i as int), bin@),
        decreases tools.len() - i,
    {
        assert(tool_views(tools@)[i as int] == tools@[i as int]@);
        assert(t.skip(i as int)[0] == t[i as int]);
        assert(t.skip(i as int).drop_first() == t.skip(i + 1));
        let cand = tools[i].binary.to_owned();
        if cand == b {
            let found = ToolStatic {
                binary: tools[i].binary,
                label: tools[i].label,
                install: tools[i].install,
            };
            return Some(found);
        }
        i += 1;
    }
    assert(t.skip(i as int).len() == 0);
    None
}

/// What `install_hint_for` returns: the known install line, or a generic one.
pub open spec fn install_hint_spec(tool: Seq<char>) -> Seq<char> {
    match tool_named(tool) {
        Some(t) => t.install,
        None => "install '"@ + tool + "' via your package manager"@,
    }
}

/// How to install a tool.
pub fn install_hint_for(tool: &str) -> (r: String)
    ensures
        r@ == install_hint_spec(tool@),
{
    match find_tool(tool) {
        Some(t) => t.install.to_owned(),
        None => {
            let mut s = String::new();
            push_str(&mut s, "install '");
            push_str(&mut s, tool);
            push_str(&mut s, "' via your package manager");
            s
        },
    }
}

/// The status of the known tool `t`, given where it was found (if anywhere).
pub open spec fn status_of(t: ToolView, found: Option<Seq<char>>, s: ToolStatus) -> bool {
    &&& s.binary@ == t.binary
    &&& s.label@ == t.label
    &&& s.installed == (found is Some)
    &&& (match (s.path, found) {
        (Some(p), Some(q)) => p@ == q,
        (None, None) => true,
        _ => false,
    })
    &&& s.install_hint@ == t.install
}

/// The optional string's characters.
pub open spec fn opt_view(o: Option<String>) -> Option<Seq<char>> {
    match o {
        Some(s) => Some(s@),
        None => None,
    }
}

/// The status of every known tool, given where each was found on the
/// search path (`found[i]` for the i-th known tool; `None` when absent).
pub fn check_all(found: &Vec<Option<String>>) -> (r: Vec<ToolStatus>)
    requires
        found.len() == tool_table().len(),
    ensures
        r.len() == tool_table().len(),
        forall|i: int|
            0 <= i < r.len() ==> status_of(tool_table()[i], opt_view(found@[i]), #[trigger] r@[i]),
{
    let tools = known_tools();
    let mut r: Vec<ToolStatus> = Vec::new();
    let mut i: usize = 0;
    while i < tools.len()
        invariant
            tool_views(tools@) == tool_table(),
            found.len() == tools.len(),
            i <= tools.len(),
            r.len() == i,
            forall|j: int|
                0 <= j < i ==> status_of(tool_table()[j], opt_view(found@[j]), #[trigger] r@[j]),
        decreases tools.len() - i,
    {
        assert(tool_views(tools@)[i as int] == tools@[i as int]@);
        let path = match &found[i] {
            Some(p) => Some(p.clone()),
            None => None,
        };
        let st = ToolStatus {
            binary: tools[i].binary.to_owned(),
            label: tools[i].label.to_owned(),
            installed: found[i].is_some(),
            path,
            install_hint: tools[i].install.to_owned(),
        };
        r.push(st);
        i += 1;
    }
    r
}

} // verus!
