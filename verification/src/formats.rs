//! The formats the engine knows about.
use vstd::prelude::*;

use crate::text::{ascii_lower, ascii_upper, is_ascii, lemma_ascii_case, lowercase, to_lowercase};

verus! {

/// A file format: its id, display name, category, file extensions, MIME
/// type and description.
#[derive(Debug)]
pub struct Format {
    pub id: String,
    pub name: String,
    pub category: String,
    pub extensions: Vec<String>,
    pub mime: String,
    pub description: String,
}

/// The value of a `Format`.
pub struct FormatView {
    pub id: Seq<char>,
    pub name: Seq<char>,
    pub category: Seq<char>,
    pub extensions: Seq<Seq<char>>,
    pub mime: Seq<char>,
    pub description: Seq<char>,
}

/// The character sequences of a list of strings.
pub open spec fn string_views(v: Seq<String>) -> Seq<Seq<char>> {
    v.map_values(|s: String| s@)
}

impl View for Format {
    type V = FormatView;

    open spec fn view(&self) -> FormatView {
        FormatView {
            id: self.id@,
            name: self.name@,
            category: self.category@,
            extensions: string_views(self.extensions@),
            mime: self.mime@,
            description: self.description@,
        }
    }
}

/// A copy of a list of strings.
pub fn copy_strings(v: &Vec<String>) -> (r: Vec<String>)
    ensures
        string_views(r@) == string_views(v@),
{
    let mut r: Vec<String> = Vec::new();
    let mut i: usize = 0;
    while i < v.len()
        invariant
            i <= v.len(),
            string_views(r@) == string_views(v@).take(i as int),
        decreases v.len() - i,
    {
        let ghost before = r@;
        r.push(v[i].clone());
        assert(string_views(r@) == string_views(before).push(v@[i as int]@));
        assert(string_views(v@).take(i + 1) == string_views(v@).take(i as int).push(
            v@[i as int]@,
        ));
        i += 1;
    }
    assert(string_views(v@).take(v.len() as int) == string_views(v@));
    r
}

impl Format {
    /// A copy of the format.
    pub fn duplicate(&self) -> (r: Format)
        ensures
            r@ == self@,
    {
        Format {
            id: self.id.clone(),
            name: self.name.clone(),
            category: self.category.clone(),
            extensions: copy_strings(&self.extensions),
            mime: self.mime.clone(),
            description: self.description.clone(),
        }
    }
}

/// The value of a format entry.
pub open spec fn format_view(
    id: Seq<char>,
    name: Seq<char>,
    category: Seq<char>,
    extensions: Seq<Seq<char>>,
    mime: Seq<char>,
    description: Seq<char>,
) -> FormatView {
    FormatView { id, name, category, extensions, mime, description }
}

fn f1(id: &str, name: &str, cat: &str, e1: &str, mime: &str, desc: &str) -> (r: Format)
    ensures
        r@ == format_view(id@, name@, cat@, seq![e1@], mime@, desc@),
{
    let mut exts: Vec<String> = Vec::new();
    exts.push(e1.to_owned());
    assert(string_views(exts@) == seq![e1@]);
    Format {
        id: id.to_owned(),
        name: name.to_owned(),
        category: cat.to_owned(),
        extensions: exts,
        mime: mime.to_owned(),
        description: desc.to_owned(),
    }
}

fn f2(id: &str, name: &str, cat: &str, e1: &str, e2: &str, mime: &str, desc: &str) -> (r: Format)
    ensures
        r@ == format_view(id@, name@, cat@, seq![e1@, e2@], mime@, desc@),
{
    let mut exts: Vec<String> = Vec::new();
    exts.push(e1.to_owned());
    exts.push(e2.to_owned());
    assert(string_views(exts@) == seq![e1@, e2@]);
    Format {
        id: id.to_owned(),
        name: name.to_owned(),
        category: cat.to_owned(),
        extensions: exts,
        mime: mime.to_owned(),
        description: desc.to_owned(),
    }
}

/// The views of a list of formats.
pub open spec fn format_views(v: Seq<Format>) -> Seq<FormatView> {
    v.map_values(|x: Format| x@)
}

/// Every format the engine knows about, in order.
pub open spec fn format_table() -> Seq<FormatView> {
    seq![
        format_view("txt"@, "Plain Text"@, "document"@, seq!["txt"@], "text/plain"@, "UTF-8 plain text"@),
        format_view("md"@, "Markdown"@, "document"@, seq!["md"@, "markdown"@], "text/markdown"@, "Markdown text"@),
        format_view("html"@, "HTML"@, "document"@, seq!["html"@, "htm"@], "text/html"@, "Hypertext document"@),
        format_view("json"@, "JSON"@, "data"@, seq!["json"@], "application/json"@, "JSON data"@),
        format_view("yaml"@, "YAML"@, "data"@, seq!["yaml"@, "yml"@], "application/yaml"@, "YAML data"@),
        format_view("toml"@, "TOML"@, "data"@, seq!["toml"@], "application/toml"@, "TOML config"@),
        format_view("xml"@, "XML"@, "data"@, seq!["xml"@], "application/xml"@, "XML data"@),
        format_view("csv"@, "CSV"@, "spreadsheet"@, seq!["csv"@], "text/csv"@, "Comma-separated values"@),
        format_view("tsv"@, "TSV"@, "spreadsheet"@, seq!["tsv"@], "text/tab-separated-values"@, "Tab-separated values"@),
        format_view("png"@, "PNG Image"@, "image"@, seq!["png"@], "image/png"@, "Portable network graphics"@),
        format_view("jpg"@, "JPEG Image"@, "image"@, seq!["jpg"@, "jpeg"@], "image/jpeg"@, "JPEG photo"@),
        format_view("bmp"@, "BMP Image"@, "image"@, seq!["bmp"@], "image/bmp"@, "Bitmap"@),
        format_view("ico"@, "ICO Icon"@, "image"@, seq!["ico"@], "image/x-icon"@, "Windows icon"@),
        format_view("gif"@, "GIF"@, "image"@, seq!["gif"@], "image/gif"@, "Animated image (needs ImageMagick)"@),
        format_view("webp"@, "WebP"@, "image"@, seq!["webp"@], "image/webp"@, "Web image (needs ImageMagick)"@),
        format_view("tiff"@, "TIFF"@, "image"@, seq!["tif"@, "tiff"@], "image/tiff"@, "Tagged image (needs ImageMagick)"@),
        format_view("svg"@, "SVG Vector"@, "image"@, seq!["svg"@], "image/svg+xml"@, "Vector graphics (needs Inkscape/rsvg)"@),
        format_view("pdf"@, "PDF"@, "document"@, seq!["pdf"@], "application/pdf"@, "Portable document (needs LibreOffice/Ghostscript)"@),
        format_view("docx"@, "Word OOXML"@, "document"@, seq!["docx"@], "application/vnd.openxmlformats-officedocument.wordprocessingml.document"@, "Word doc (needs Pandoc/LibreOffice)"@),
        format_view("doc"@, "Word Legacy"@, "document"@, seq!["doc"@], "application/msword"@, "Legacy Word (needs LibreOffice)"@),
        format_view("xls"@, "Excel Legacy"@, "spreadsheet"@, seq!["xls"@], "application/vnd.ms-excel"@, "Legacy Excel (needs LibreOffice)"@),
        format_view("xlsx"@, "Excel OOXML"@, "spreadsheet"@, seq!["xlsx"@], "application/vnd.openxmlformats-officedocument.spreadsheetml.sheet"@, "Excel workbook (needs LibreOffice)"@),
        format_view("pptx"@, "PowerPoint"@, "presentation"@, seq!["pptx"@, "ppt"@], "application/vnd.openxmlformats-officedocument.presentationml.presentation"@, "Slides (needs LibreOffice)"@),
        format_view("epub"@, "EPUB Ebook"@, "ebook"@, seq!["epub"@], "application/epub+zip"@, "Ebook (needs Pandoc/Calibre)"@),
        format_view("mobi"@, "MOBI Ebook"@, "ebook"@, seq!["mobi"@], "application/x-mobipocket-ebook"@, "Kindle ebook (needs Calibre)"@),
        format_view("zip"@, "ZIP Archive"@, "archive"@, seq!["zip"@], "application/zip"@, "Zip archive"@),
        format_view("tar"@, "TAR Archive"@, "archive"@, seq!["tar"@], "application/x-tar"@, "Tape archive (needs 7-Zip)"@),
        format_view("gz"@, "GZIP"@, "archive"@, seq!["gz"@, "tgz"@], "application/gzip"@, "Gzip (needs 7-Zip)"@),
        format_view("7z"@, "7-Zip"@, "archive"@, seq!["7z"@], "application/x-7z-compressed"@, "7-Zip archive (needs 7-Zip)"@),
        format_view("mp3"@, "MP3 Audio"@, "audio"@, seq!["mp3"@], "audio/mpeg"@, "MP3 audio (needs FFmpeg)"@),
        format_view("wav"@, "WAV Audio"@, "audio"@, seq!["wav"@], "audio/wav"@, "Waveform audio (needs FFmpeg)"@),
        format_view("flac"@, "FLAC Audio"@, "audio"@, seq!["flac"@], "audio/flac"@, "Lossless audio (needs FFmpeg)"@),
        format_view("ogg"@, "OGG Audio"@, "audio"@, seq!["ogg"@, "oga"@], "audio/ogg"@, "Ogg audio (needs FFmpeg)"@),
        format_view("mp4"@, "MP4 Video"@, "video"@, seq!["mp4"@, "m4v"@], "video/mp4"@, "MP4 video (needs FFmpeg)"@),
        format_view("mkv"@, "MKV Video"@, "video"@, seq!["mkv"@], "video/x-matroska"@, "Matroska video (needs FFmpeg)"@),
        format_view("avi"@, "AVI Video"@, "video"@, seq!["avi"@], "video/x-msvideo"@, "AVI video (needs FFmpeg)"@),
        format_view("webm"@, "WebM Video"@, "video"@, seq!["webm"@], "video/webm"@, "Web video (needs FFmpeg)"@),
        format_view("mov"@, "QuickTime"@, "video"@, seq!["mov"@], "video/quicktime"@, "QuickTime (needs FFmpeg)"@),
        format_view("srt"@, "SubRip Subtitles"@, "subtitle"@, seq!["srt"@], "application/x-subrip"@, "Subtitles (native)"@),
        format_view("vtt"@, "WebVTT Subtitles"@, "subtitle"@, seq!["vtt"@], "text/vtt"@, "Web subtitles (native)"@),
        format_view("m3u"@, "M3U Playlist"@, "playlist"@, seq!["m3u"@, "m3u8"@], "audio/x-mpegurl"@, "Playlist (native)"@),
        format_view("obj"@, "Wavefront OBJ"@, "3d"@, seq!["obj"@], "model/obj"@, "3D model (needs Blender)"@),
        format_view("fbx"@, "FBX Model"@, "3d"@, seq!["fbx"@], "application/octet-stream"@, "Filmbox 3D (needs Blender)"@),
        format_view("gltf"@, "glTF Model"@, "3d"@, seq!["gltf"@, "glb"@], "model/gltf+json"@, "GL transmit (needs Blender)"@),
        format_view("stl"@, "STL Model"@, "3d"@, seq!["stl"@], "model/stl"@, "Stereolithography (needs Blender)"@),
        format_view("ttf"@, "TrueType Font"@, "font"@, seq!["ttf"@], "font/ttf"@, "Font (needs FontForge)"@),
        format_view("otf"@, "OpenType Font"@, "font"@, seq!["otf"@], "font/otf"@, "Font (needs FontForge)"@),
        format_view("woff"@, "WOFF Font"@, "font"@, seq!["woff"@], "font/woff"@, "Web font (needs FontForge)"@),
        format_view("woff2"@, "WOFF2 Font"@, "font"@, seq!["woff2"@], "font/woff2"@, "Web font v2 (needs FontForge)"@),
        format_view("b64"@, "Base64 Text"@, "data"@, seq!["b64"@, "base64"@], "text/plain"@, "Base64-encoded blob (native)"@),
        format_view("bin"@, "Raw Binary"@, "binary"@, seq!["bin"@, "dat"@], "application/octet-stream"@, "Opaque bytes (copy-only)"@),
    ]
}

/// Every format the engine knows about. Designed to grow to "all of them".
pub fn all_formats() -> (r: Vec<Format>)
    ensures
        format_views(r@) == format_table(),
{
    let mut r: Vec<Format> = Vec::new();
    r.push(f1("txt", "Plain Text", "document", "txt", "text/plain", "UTF-8 plain text"));
    r.push(f2("md", "Markdown", "document", "md", "markdown", "text/markdown", "Markdown text"));
    r.push(f2("html", "HTML", "document", "html", "htm", "text/html", "Hypertext document"));
    r.push(f1("json", "JSON", "data", "json", "application/json", "JSON data"));
    r.push(f2("yaml", "YAML", "data", "yaml", "yml", "application/yaml", "YAML data"));
    r.push(f1("toml", "TOML", "data", "toml", "application/toml", "TOML config"));
    r.push(f1("xml", "XML", "data", "xml", "application/xml", "XML data"));
    r.push(f1("csv", "CSV", "spreadsheet", "csv", "text/csv", "Comma-separated values"));
    r.push(f1("tsv", "TSV", "spreadsheet", "tsv", "text/tab-separated-values", "Tab-separated values"));
    r.push(f1("png", "PNG Image", "image", "png", "image/png", "Portable network graphics"));
    r.push(f2("jpg", "JPEG Image", "image", "jpg", "jpeg", "image/jpeg", "JPEG photo"));
    r.push(f1("bmp", "BMP Image", "image", "bmp", "image/bmp", "Bitmap"));
    r.push(f1("ico", "ICO Icon", "image", "ico", "image/x-icon", "Windows icon"));
    r.push(f1("gif", "GIF", "image", "gif", "image/gif", "Animated image (needs ImageMagick)"));
    r.push(f1("webp", "WebP", "image", "webp", "image/webp", "Web image (needs ImageMagick)"));
    r.push(f2("tiff", "TIFF", "image", "tif", "tiff", "image/tiff", "Tagged image (needs ImageMagick)"));
    r.push(f1("svg", "SVG Vector", "image", "svg", "image/svg+xml", "Vector graphics (needs Inkscape/rsvg)"));
    r.push(f1("pdf", "PDF", "document", "pdf", "application/pdf", "Portable document (needs LibreOffice/Ghostscript)"));
    r.push(f1("docx", "Word OOXML", "document", "docx", "application/vnd.openxmlformats-officedocument.wordprocessingml.document", "Word doc (needs Pandoc/LibreOffice)"));
    r.push(f1("doc", "Word Legacy", "document", "doc", "application/msword", "Legacy Word (needs LibreOffice)"));
    r.push(f1("xls", "Excel Legacy", "spreadsheet", "xls", "application/vnd.ms-excel", "Legacy Excel (needs LibreOffice)"));
    r.push(f1("xlsx", "Excel OOXML", "spreadsheet", "xlsx", "application/vnd.openxmlformats-officedocument.spreadsheetml.sheet", "Excel workbook (needs LibreOffice)"));
    r.push(f2("pptx", "PowerPoint", "presentation", "pptx", "ppt", "application/vnd.openxmlformats-officedocument.presentationml.presentation", "Slides (needs LibreOffice)"));
    r.push(f1("epub", "EPUB Ebook", "ebook", "epub", "application/epub+zip", "Ebook (needs Pandoc/Calibre)"));
    r.push(f1("mobi", "MOBI Ebook", "ebook", "mobi", "application/x-mobipocket-ebook", "Kindle ebook (needs Calibre)"));
    r.push(f1("zip", "ZIP Archive", "archive", "zip", "application/zip", "Zip archive"));
    r.push(f1("tar", "TAR Archive", "archive", "tar", "application/x-tar", "Tape archive (needs 7-Zip)"));
    r.push(f2("gz", "GZIP", "archive", "gz", "tgz", "application/gzip", "Gzip (needs 7-Zip)"));
    r.push(f1("7z", "7-Zip", "archive", "7z", "application/x-7z-compressed", "7-Zip archive (needs 7-Zip)"));
    r.push(f1("mp3", "MP3 Audio", "audio", "mp3", "audio/mpeg", "MP3 audio (needs FFmpeg)"));
    r.push(f1("wav", "WAV Audio", "audio", "wav", "audio/wav", "Waveform audio (needs FFmpeg)"));
    r.push(f1("flac", "FLAC Audio", "audio", "flac", "audio/flac", "Lossless audio (needs FFmpeg)"));
    r.push(f2("ogg", "OGG Audio", "audio", "ogg", "oga", "audio/ogg", "Ogg audio (needs FFmpeg)"));
    r.push(f2("mp4", "MP4 Video", "video", "mp4", "m4v", "video/mp4", "MP4 video (needs FFmpeg)"));
    r.push(f1("mkv", "MKV Video", "video", "mkv", "video/x-matroska", "Matroska video (needs FFmpeg)"));
    r.push(f1("avi", "AVI Video", "video", "avi", "video/x-msvideo", "AVI video (needs FFmpeg)"));
    r.push(f1("webm", "WebM Video", "video", "webm", "video/webm", "Web video (needs FFmpeg)"));
    r.push(f1("mov", "QuickTime", "video", "mov", "video/quicktime", "QuickTime (needs FFmpeg)"));
    r.push(f1("srt", "SubRip Subtitles", "subtitle", "srt", "application/x-subrip", "Subtitles (native)"));
    r.push(f1("vtt", "WebVTT Subtitles", "subtitle", "vtt", "text/vtt", "Web subtitles (native)"));
    r.push(f2("m3u", "M3U Playlist", "playlist", "m3u", "m3u8", "audio/x-mpegurl", "Playlist (native)"));
    r.push(f1("obj", "Wavefront OBJ", "3d", "obj", "model/obj", "3D model (needs Blender)"));
    r.push(f1("fbx", "FBX Model", "3d", "fbx", "application/octet-stream", "Filmbox 3D (needs Blender)"));
    r.push(f2("gltf", "glTF Model", "3d", "gltf", "glb", "model/gltf+json", "GL transmit (needs Blender)"));
    r.push(f1("stl", "STL Model", "3d", "stl", "model/stl", "Stereolithography (needs Blender)"));
    r.push(f1("ttf", "TrueType Font", "font", "ttf", "font/ttf", "Font (needs FontForge)"));
    r.push(f1("otf", "OpenType Font", "font", "otf", "font/otf", "Font (needs FontForge)"));
    r.push(f1("woff", "WOFF Font", "font", "woff", "font/woff", "Web font (needs FontForge)"));
    r.push(f1("woff2", "WOFF2 Font", "font", "woff2", "font/woff2", "Web font v2 (needs FontForge)"));
    r.push(f2("b64", "Base64 Text", "data", "b64", "base64", "text/plain", "Base64-encoded blob (native)"));
    r.push(f2("bin", "Raw Binary", "binary", "bin", "dat", "application/octet-stream", "Opaque bytes (copy-only)"));
    assert(format_views(r@) =~= format_table());
    r
}

/// Whether a format is named by `e`, as one of its extensions or its id.
pub open spec fn format_named(f: FormatView, e: Seq<char>) -> bool {
    f.extensions.contains(e) || f.id == e
}

/// The first format of `t` named by `e`.
pub open spec fn first_named(t: Seq<FormatView>, e: Seq<char>) -> Option<FormatView>
    decreases t.len(),
{
    if t.len() == 0 {
        None
    } else if format_named(t[0], e) {
        Some(t[0])
    } else {
        first_named(t.drop_first(), e)
    }
}

/// What `find_by_extension` returns: the first known format whose
/// extensions or id hold the lowercased `ext`.
pub open spec fn format_for_extension(ext: Seq<char>) -> Option<FormatView> {
    first_named(format_table(), lowercase(ext))
}

/// Whether a format is named by `e`.
fn named_exec(f: &Format, e: &String) -> (r: bool)
    ensures
        r == format_named(f@, e@),
{
    let mut i: usize = 0;
    while i < f.extensions.len()
        invariant
            i <= f.extensions.len(),
            forall|j: int| 0 <= j < i ==> f.extensions@[j]@ != e@,
        decreases f.extensions.len() - i,
    {
        if f.extensions[i] == *e {
            assert(string_views(f.extensions@)[i as int] == e@);
            return true;
        }
        i += 1;
    }
    assert(!string_views(f.extensions@).contains(e@)) by {
        if string_views(f.extensions@).contains(e@) {
            let k = choose|k: int|
                0 <= k < string_views(f.extensions@).len() && string_views(f.extensions@)[k]
                    == e@;
            assert(f.extensions@[k]@ == e@);
        }
    }
    f.id == *e
}

/// The format that a file extension (or format id) names, case-insensitively.
pub fn find_by_extension(ext: &str) -> (r: Option<Format>)
    ensures
        match r {
            Some(x) => format_for_extension(ext@) == Some(x@),
            None => format_for_extension(ext@) is None,
        },
        is_ascii(ext@) ==> match r {
            Some(x) => first_named(format_table(), ascii_lower(ext@)) == Some(x@),
            None => first_named(format_table(), ascii_lower(ext@)) is None,
        },
{
    let e = to_lowercase(ext);
    let table = all_formats();
    let ghost t = format_table();
    let mut i: usize = 0;
    assert(t.skip(0) == t);
    while i < table.len()
        invariant
            i <= table.len(),
            format_views(table@) == t,
            t == format_table(),
            e@ == lowercase(ext@),
            is_ascii(ext@) ==> e@ == ascii_lower(ext@),
            first_named(t, e@) == first_named(t.skip(i as int), e@),
        decreases table.len() - i,
    {
        assert(format_views(table@)[i as int] == table@[i as int]@);
        assert(t.skip(i as int)[0] == t[i as int]);
        assert(t.skip(i as int).drop_first() == t.skip(i + 1));
        if named_exec(&table[i], &e) {
            return Some(table[i].duplicate());
        }
        i += 1;
    }
    assert(t.skip(i as int).len() == 0);
    None
}

/// Lookup ignores ASCII case: an ASCII extension and its uppercase form
/// name the same format (or none).
pub proof fn law_lookup_ignores_case(e: Seq<char>)
    requires
        is_ascii(e),
    ensures
        is_ascii(ascii_upper(e)),
        first_named(format_table(), ascii_lower(ascii_upper(e))) == first_named(format_table(), ascii_lower(e)),
{
    lemma_ascii_case(e);
}

/// The first format named by `e` is one of `t` and is named by `e`; there
/// is none exactly when no format of `t` is named by `e`.
pub proof fn lemma_first_named(t: Seq<FormatView>, e: Seq<char>)
    ensures
        match first_named(t, e) {
            Some(f) => exists|i: int| 0 <= i < t.len() && t[i] == f && format_named(f, e),
            None => forall|i: int| 0 <= i < t.len() ==> !format_named(#[trigger] t[i], e),
        },
    decreases t.len(),
{
    if t.len() > 0 {
        lemma_first_named(t.drop_first(), e);
        if format_named(t[0], e) {
            assert(t[0] == t[0]);
        } else {
            match first_named(t.drop_first(), e) {
                Some(f) => {
                    let j = choose|j: int| 0 <= j < t.drop_first().len() && t.drop_first()[j] == f && format_named(f, e);
                    assert(t[j + 1] == f);
                },
                None => {
                    assert forall|i: int| 0 <= i < t.len() implies !format_named(#[trigger] t[i], e) by {
                        if i > 0 {
                            assert(t[i] == t.drop_first()[i - 1]);
                        }
                    }
                },
            }
        }
    }
}

/// A format found for an extension is a known format named by the
/// lowercased extension (as an extension or as its id); none is found
/// exactly when no known format is so named.
pub proof fn law_found_format_is_named(ext: Seq<char>)
    ensures
        match format_for_extension(ext) {
            Some(f) => exists|i: int|
                0 <= i < format_table().len() && format_table()[i] == f && format_named(f, lowercase(ext)),
            None => true,
        },
        format_for_extension(ext) is None <==> forall|i: int|
            0 <= i < format_table().len() ==> !format_named(#[trigger] format_table()[i], lowercase(ext)),
{
    lemma_first_named(format_table(), lowercase(ext));
}

} // verus!
