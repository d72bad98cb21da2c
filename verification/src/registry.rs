//! The conversion graph: every format is a node, every adapter an edge.
use vstd::prelude::*;

use crate::deps::{find_tool, lemma_first_tool_some, tool_named, tool_table};
use crate::adapters::external::binary_for;
use crate::error::ConverterError;
use crate::formats::{all_formats, format_table, format_views, FormatView};
use crate::text::{
    chars_of, lemma_lex_asymmetric, lemma_lex_irreflexive, lemma_lex_total,
    lemma_lex_transitive, lex_less, lex_lt, push_str,
};

verus! {

/// A conversion `from -> to` done by the adapter `via`, possibly needing an
/// external tool.
#[derive(Debug)]
pub struct Edge {
    pub from: String,
    pub to: String,
    pub via: String,
    pub needs_tool: Option<String>,
}

/// The value of an `Edge`.
pub struct EdgeView {
    pub from: Seq<char>,
    pub to: Seq<char>,
    pub via: Seq<char>,
    pub tool: Option<Seq<char>>,
}

/// The characters of an optional string.
pub open spec fn opt_string_view(o: Option<String>) -> Option<Seq<char>> {
    match o {
        Some(s) => Some(s@),
        None => None,
    }
}

/// The characters of an optional string slice.
pub open spec fn opt_str_view(o: Option<&str>) -> Option<Seq<char>> {
    match o {
        Some(s) => Some(s@),
        None => None,
    }
}

impl View for Edge {
    type V = EdgeView;

    open spec fn view(&self) -> EdgeView {
        EdgeView {
            from: self.from@,
            to: self.to@,
            via: self.via@,
            tool: opt_string_view(self.needs_tool),
        }
    }
}

impl Edge {
    /// A copy of the edge.
    pub fn duplicate(&self) -> (r: Edge)
        ensures
            r@ == self@,
    {
        Edge {
            from: self.from.clone(),
            to: self.to.clone(),
            via: self.via.clone(),
            needs_tool: match &self.needs_tool {
                Some(t) => Some(t.clone()),
                None => None,
            },
        }
    }
}

/// The value of an edge.
pub open spec fn edge(from: Seq<char>, to: Seq<char>, via: Seq<char>, tool: Option<Seq<char>>) -> EdgeView {
    EdgeView { from, to, via, tool }
}

/// The edges `a -> b` for every `b` of `bs`, in order, leaving out `a -> a`
/// when `distinct`.
pub open spec fn row(
    a: Seq<char>,
    bs: Seq<Seq<char>>,
    via: Seq<char>,
    tool: Option<Seq<char>>,
    distinct: bool,
) -> Seq<EdgeView>
    decreases bs.len(),
{
    if bs.len() == 0 {
        Seq::empty()
    } else {
        row(a, bs.drop_last(), via, tool, distinct) + if distinct && a == bs.last() {
            Seq::<EdgeView>::empty()
        } else {
            seq![edge(a, bs.last(), via, tool)]
        }
    }
}

/// The edges `a -> b` for every `a` of `as_` and `b` of `bs`, row by row,
/// leaving out `a -> a` when `distinct`.
pub open spec fn grid(
    as_: Seq<Seq<char>>,
    bs: Seq<Seq<char>>,
    via: Seq<char>,
    tool: Option<Seq<char>>,
    distinct: bool,
) -> Seq<EdgeView>
    decreases as_.len(),
{
    if as_.len() == 0 {
        Seq::empty()
    } else {
        grid(as_.drop_last(), bs, via, tool, distinct) + row(as_.last(), bs, via, tool, distinct)
    }
}

/// The structured data formats read natively.
pub open spec fn data_sources() -> Seq<Seq<char>> {
    seq!["json"@, "yaml"@, "toml"@, "xml"@, "csv"@, "tsv"@]
}

/// The structured data formats written natively.
pub open spec fn data_targets() -> Seq<Seq<char>> {
    seq!["json"@, "yaml"@, "toml"@, "xml"@, "csv"@, "tsv"@]
}

/// For every data format `a`: `a` to the other data formats, then the text
/// bridge `a -> txt`, `a -> md`, `txt -> a`.
pub open spec fn data_bridge(as_: Seq<Seq<char>>) -> Seq<EdgeView>
    decreases as_.len(),
{
    if as_.len() == 0 {
        Seq::empty()
    } else {
        let a = as_.last();
        data_bridge(as_.drop_last()) + row(a, data_targets(), "native_data"@, None, true) + seq![
            edge(a, "txt"@, "native_data"@, None),
            edge(a, "md"@, "native_data"@, None),
            edge("txt"@, a, "native_data"@, None),
        ]
    }
}

/// `f -> f` by copying, for every known format `f`.
pub open spec fn copy_edges(t: Seq<FormatView>) -> Seq<EdgeView> {
    t.map_values(|f: FormatView| edge(f.id, f.id, "copy"@, None))
}

pub open spec fn text_kinds() -> Seq<Seq<char>> {
    seq!["txt"@, "md"@, "html"@, "b64"@, "srt"@, "vtt"@, "m3u"@]
}

/// `f -> zip` (bundling the file) for every known format `f`.
pub open spec fn bundle_edges(t: Seq<FormatView>) -> Seq<EdgeView> {
    t.map_values(|f: FormatView| edge(f.id, "zip"@, "native_archive"@, None))
}

pub open spec fn image_sources() -> Seq<Seq<char>> {
    seq!["png"@, "jpg"@, "bmp"@, "ico"@, "gif"@, "webp"@, "tiff"@]
}

pub open spec fn image_targets() -> Seq<Seq<char>> {
    seq!["png"@, "jpg"@, "bmp"@, "ico"@]
}

pub open spec fn sheet_sources() -> Seq<Seq<char>> {
    seq!["xlsx"@, "xls"@, "ods"@]
}

pub open spec fn sheet_targets() -> Seq<Seq<char>> {
    seq!["csv"@, "json"@, "yaml"@, "txt"@, "md"@]
}

/// The native (pure-Rust, always available) edges, in registration order.
pub open spec fn native_edges() -> Seq<EdgeView> {
    grid(text_kinds(), text_kinds(), "native_text"@, None, true) + data_bridge(data_sources())
        + copy_edges(format_table()) + bundle_edges(format_table())
        + seq![edge("zip"@, "txt"@, "native_archive"@, None)] + grid(
        image_sources(),
        image_targets(),
        "native_image"@,
        None,
        true,
    ) + seq![
        edge("srt"@, "vtt"@, "native_text"@, None),
        edge("vtt"@, "srt"@, "native_text"@, None),
    ] + grid(sheet_sources(), sheet_targets(), "native_sheet"@, None, false)
}

pub open spec fn audio_kinds() -> Seq<Seq<char>> {
    seq!["mp3"@, "wav"@, "flac"@, "ogg"@]
}

pub open spec fn video_kinds() -> Seq<Seq<char>> {
    seq!["mp4"@, "mkv"@, "avi"@, "webm"@, "mov"@]
}

pub open spec fn magick_sources() -> Seq<Seq<char>> {
    seq!["png"@, "jpg"@, "gif"@, "webp"@, "tiff"@, "svg"@, "bmp"@, "pdf"@]
}

pub open spec fn magick_targets() -> Seq<Seq<char>> {
    seq!["png"@, "jpg"@, "gif"@, "webp"@, "tiff"@, "bmp"@, "pdf"@]
}

pub open spec fn pandoc_sources() -> Seq<Seq<char>> {
    seq!["md"@, "html"@, "docx"@, "epub"@, "txt"@, "pdf"@]
}

pub open spec fn pandoc_targets() -> Seq<Seq<char>> {
    seq!["md"@, "html"@, "docx"@, "epub"@, "pdf"@, "txt"@]
}

pub open spec fn office_sources() -> Seq<Seq<char>> {
    seq!["doc"@, "xls"@, "xlsx"@, "pptx"@, "odt"@, "pdf"@, "docx"@, "html"@]
}

pub open spec fn office_targets() -> Seq<Seq<char>> {
    seq!["pdf"@, "docx"@, "xlsx"@, "html"@, "txt"@]
}

pub open spec fn archive_sources() -> Seq<Seq<char>> {
    seq!["zip"@, "tar"@, "gz"@, "7z"@, "rar"@]
}

pub open spec fn archive_targets() -> Seq<Seq<char>> {
    seq!["zip"@, "tar"@, "gz"@, "7z"@]
}

pub open spec fn ebook_sources() -> Seq<Seq<char>> {
    seq!["epub"@, "mobi"@, "azw3"@, "pdf"@, "txt"@]
}

pub open spec fn ebook_targets() -> Seq<Seq<char>> {
    seq!["epub"@, "mobi"@, "pdf"@, "txt"@]
}

pub open spec fn vector_sources() -> Seq<Seq<char>> {
    seq!["svg"@, "pdf"@, "eps"@, "ps"@]
}

pub open spec fn vector_targets() -> Seq<Seq<char>> {
    seq!["svg"@, "pdf"@, "png"@, "eps"@]
}

pub open spec fn print_sources() -> Seq<Seq<char>> {
    seq!["pdf"@, "ps"@, "eps"@]
}

pub open spec fn print_targets() -> Seq<Seq<char>> {
    seq!["pdf"@, "ps"@, "png"@]
}

pub open spec fn model_sources() -> Seq<Seq<char>> {
    seq!["obj"@, "fbx"@, "gltf"@, "stl"@, "dae"@, "ply"@]
}

pub open spec fn model_targets() -> Seq<Seq<char>> {
    seq!["obj"@, "fbx"@, "gltf"@, "stl"@]
}

pub open spec fn font_kinds() -> Seq<Seq<char>> {
    seq!["ttf"@, "otf"@, "woff"@, "woff2"@]
}

pub open spec fn cad_sources() -> Seq<Seq<char>> {
    seq!["dxf"@, "dwg"@, "step"@]
}

pub open spec fn cad_targets() -> Seq<Seq<char>> {
    seq!["obj"@, "stl"@, "pdf"@]
}

/// The external-tool edges, in registration order.
pub open spec fn external_edges() -> Seq<EdgeView> {
    grid(audio_kinds(), audio_kinds(), "ffmpeg"@, Some("ffmpeg"@), true) + grid(
        video_kinds(),
        video_kinds(),
        "ffmpeg"@,
        Some("ffmpeg"@),
        true,
    ) + grid(video_kinds(), audio_kinds(), "ffmpeg"@, Some("ffmpeg"@), false) + grid(
        magick_sources(),
        magick_targets(),
        "magick"@,
        Some("magick"@),
        true,
    ) + grid(pandoc_sources(), pandoc_targets(), "pandoc"@, Some("pandoc"@), true) + grid(
        office_sources(),
        office_targets(),
        "libreoffice"@,
        Some("libreoffice"@),
        true,
    ) + grid(archive_sources(), archive_targets(), "7z"@, Some("7z"@), true) + grid(
        ebook_sources(),
        ebook_targets(),
        "ebook-convert"@,
        Some("ebook-convert"@),
        true,
    ) + grid(vector_sources(), vector_targets(), "inkscape"@, Some("inkscape"@), true) + grid(
        print_sources(),
        print_targets(),
        "ghostscript"@,
        Some("gs"@),
        true,
    ) + grid(model_sources(), model_targets(), "blender"@, Some("blender"@), true) + grid(
        font_kinds(),
        font_kinds(),
        "fontforge"@,
        Some("fontforge"@),
        true,
    ) + grid(cad_sources(), cad_targets(), "blender"@, Some("blender"@), false)
}

/// Every edge of the graph that `ConversionGraph::new` builds, in order.
pub open spec fn graph_edges() -> Seq<EdgeView> {
    native_edges() + external_edges()
}

/// The views of a list of edges.
pub open spec fn edge_views(v: Seq<Edge>) -> Seq<EdgeView> {
    v.map_values(|e: Edge| e@)
}

/// The characters of a list of string slices.
pub open spec fn str_views(v: Seq<&str>) -> Seq<Seq<char>> {
    v.map_values(|s: &str| s@)
}

/// The graph of format conversions.
#[derive(Debug)]
pub struct ConversionGraph {
    edges: Vec<Edge>,
}

impl View for ConversionGraph {
    type V = Seq<EdgeView>;

    closed spec fn view(&self) -> Seq<EdgeView> {
        edge_views(self.edges@)
    }
}

impl ConversionGraph {
    /// The graph with every native and external edge registered.
    pub fn new() -> (g: Self)
        ensures
            g@ == graph_edges(),
    {
        let mut g = Self { edges: Vec::new() };
        assert(g@ =~= Seq::<EdgeView>::empty());
        g.register_native();
        g.register_external();
        assert(g@ =~= graph_edges());
        g
    }

    fn add(&mut self, from: &str, to: &str, via: &str, needs_tool: Option<&str>)
        ensures
            final(self)@ == old(self)@.push(edge(from@, to@, via@, opt_str_view(needs_tool))),
    {
        let ghost before = self.edges@;
        let e = Edge {
            from: from.to_owned(),
            to: to.to_owned(),
            via: via.to_owned(),
            needs_tool: match needs_tool {
                Some(s) => Some(s.to_owned()),
                None => None,
            },
        };
        self.edges.push(e);
        assert(edge_views(self.edges@) =~= edge_views(before).push(
            edge(from@, to@, via@, opt_str_view(needs_tool)),
        ));
    }

    fn add_row(&mut self, a: &str, bs: &Vec<&str>, via: &str, tool: Option<&str>, distinct: bool)
        ensures
            final(self)@ == old(self)@ + row(a@, str_views(bs@), via@, opt_str_view(tool), distinct),
    {
        let ghost start = self@;
        let ghost sb = str_views(bs@);
        let a_s = a.to_owned();
        let mut j: usize = 0;
        assert(sb.take(0) =~= Seq::<Seq<char>>::empty());
        assert(start == start + row(a@, sb.take(0), via@, opt_str_view(tool), distinct));
        while j < bs.len()
            invariant
                j <= bs.len(),
                sb == str_views(bs@),
                a_s@ == a@,
                self@ == start + row(a@, sb.take(j as int), via@, opt_str_view(tool), distinct),
            decreases bs.len() - j,
        {
            assert(sb.take(j + 1).drop_last() == sb.take(j as int));
            assert(sb.take(j + 1).last() == bs@[j as int]@);
            let b_s = bs[j].to_owned();
            if distinct && a_s == b_s {
                assert(self@ == start + row(a@, sb.take(j + 1), via@, opt_str_view(tool), distinct));
            } else {
                self.add(a, bs[j], via, tool);
                assert(self@ =~= start + row(
                    a@,
                    sb.take(j + 1),
                    via@,
                    opt_str_view(tool),
                    distinct,
                ));
            }
            j += 1;
        }
        assert(sb.take(bs.len() as int) == sb);
    }

    fn add_grid(
        &mut self,
        as_: &Vec<&str>,
        bs: &Vec<&str>,
        via: &str,
        tool: Option<&str>,
        distinct: bool,
    )
        ensures
            final(self)@ == old(self)@ + grid(
                str_views(as_@),
                str_views(bs@),
                via@,
                opt_str_view(tool),
                distinct,
            ),
    {
        let ghost start = self@;
        let ghost sa = str_views(as_@);
        let ghost sb = str_views(bs@);
        let mut i: usize = 0;
        assert(sa.take(0) =~= Seq::<Seq<char>>::empty());
        assert(start == start + grid(sa.take(0), sb, via@, opt_str_view(tool), distinct));
        while i < as_.len()
            invariant
                i <= as_.len(),
                sa == str_views(as_@),
                sb == str_views(bs@),
                self@ == start + grid(sa.take(i as int), sb, via@, opt_str_view(tool), distinct),
            decreases as_.len() - i,
        {
            assert(sa.take(i + 1).drop_last() == sa.take(i as int));
            assert(sa.take(i + 1).last() == as_@[i as int]@);
            self.add_row(as_[i], bs, via, tool, distinct);
            assert(self@ =~= start + grid(sa.take(i + 1), sb, via@, opt_str_view(tool), distinct));
            i += 1;
        }
        assert(sa.take(as_.len() as int) == sa);
    }

    fn add_data_bridge(&mut self)
        ensures
            final(self)@ == old(self)@ + data_bridge(data_sources()),
    {
        let srcs = vec!["json", "yaml", "toml", "xml", "csv", "tsv"];
        let tgts = vec!["json", "yaml", "toml", "xml", "csv", "tsv"];
        assert(str_views(srcs@) =~= data_sources());
        assert(str_views(tgts@) =~= data_targets());
        let ghost start = self@;
        let ghost sa = data_sources();
        let mut i: usize = 0;
        assert(sa.take(0) =~= Seq::<Seq<char>>::empty());
        assert(start == start + data_bridge(sa.take(0)));
        while i < srcs.len()
            invariant
                i <= srcs.len(),
                sa == str_views(srcs@),
                sa == data_sources(),
                str_views(tgts@) == data_targets(),
                self@ == start + data_bridge(sa.take(i as int)),
            decreases srcs.len() - i,
        {
            let a = srcs[i];
            assert(sa.take(i + 1).drop_last() == sa.take(i as int));
            assert(sa.take(i + 1).last() == a@);
            self.add_row(a, &tgts, "native_data", None, true);
            self.add(a, "txt", "native_data", None);
            self.add(a, "md", "native_data", None);
            self.add("txt", a, "native_data", None);
            assert(self@ =~= start + data_bridge(sa.take(i + 1)));
            i += 1;
        }
        assert(sa.take(srcs.len() as int) == sa);
    }

    fn add_copies(&mut self)
        ensures
            final(self)@ == old(self)@ + copy_edges(format_table()),
    {
        let fmts = all_formats();
        let ghost start = self@;
        let ghost t = format_table();
        let mut i: usize = 0;
        while i < fmts.len()
            invariant
                i <= fmts.len(),
                format_views(fmts@) == t,
                self@ == start + copy_edges(t.take(i as int)),
            decreases fmts.len() - i,
        {
            assert(format_views(fmts@)[i as int] == fmts@[i as int]@);
            let id = fmts[i].id.as_str();
            self.add(id, id, "copy", None);
            assert(t.take(i + 1) == t.take(i as int).push(t[i as int]));
            assert(self@ =~= start + copy_edges(t.take(i + 1)));
            i += 1;
        }
        assert(t.take(fmts.len() as int) == t);
    }

    fn add_bundles(&mut self)
        ensures
            final(self)@ == old(self)@ + bundle_edges(format_table()),
    {
        let fmts = all_formats();
        let ghost start = self@;
        let ghost t = format_table();
        let mut i: usize = 0;
        while i < fmts.len()
            invariant
                i <= fmts.len(),
                format_views(fmts@) == t,
                self@ == start + bundle_edges(t.take(i as int)),
            decreases fmts.len() - i,
        {
            assert(format_views(fmts@)[i as int] == fmts@[i as int]@);
            self.add(fmts[i].id.as_str(), "zip", "native_archive", None);
            assert(t.take(i + 1) == t.take(i as int).push(t[i as int]));
            assert(self@ =~= start + bundle_edges(t.take(i + 1)));
            i += 1;
        }
        assert(t.take(fmts.len() as int) == t);
    }

    /// Native (pure-Rust, always available) edges.
    #[verifier::spinoff_prover]
    #[verifier::rlimit(50)]
    fn register_native(&mut self)
        ensures
            final(self)@ == old(self)@ + native_edges(),
    {
        let ghost start = self@;
        let text = vec!["txt", "md", "html", "b64", "srt", "vtt", "m3u"];
        assert(str_views(text@) =~= text_kinds());
        self.add_grid(&text, &text, "native_text", None, true);
        self.add_data_bridge();
        self.add_copies();
        self.add_bundles();
        self.add("zip", "txt", "native_archive", None);
        let imgs = vec!["png", "jpg", "bmp", "ico", "gif", "webp", "tiff"];
        let img_out = vec!["png", "jpg", "bmp", "ico"];
        assert(str_views(imgs@) =~= image_sources());
        assert(str_views(img_out@) =~= image_targets());
        self.add_grid(&imgs, &img_out, "native_image", None, true);
        self.add("srt", "vtt", "native_text", None);
        self.add("vtt", "srt", "native_text", None);
        let sheets = vec!["xlsx", "xls", "ods"];
        let sheet_out = vec!["csv", "json", "yaml", "txt", "md"];
        assert(str_views(sheets@) =~= sheet_sources());
        assert(str_views(sheet_out@) =~= sheet_targets());
        self.add_grid(&sheets, &sheet_out, "native_sheet", None, false);
        assert(self@ =~= start + native_edges());
    }

    /// External-tool edges. Available only when the tool is installed;
    /// otherwise `explain_why_not` produces a clear install message.
    #[verifier::spinoff_prover]
    #[verifier::rlimit(50)]
    fn register_external(&mut self)
        ensures
            final(self)@ == old(self)@ + external_edges(),
    {
        let ghost start = self@;
        let audio = vec!["mp3", "wav", "flac", "ogg"];
        let video = vec!["mp4", "mkv", "avi", "webm", "mov"];
        assert(str_views(audio@) =~= audio_kinds());
        assert(str_views(video@) =~= video_kinds());
        self.add_grid(&audio, &audio, "ffmpeg", Some("ffmpeg"), true);
        self.add_grid(&video, &video, "ffmpeg", Some("ffmpeg"), true);
        self.add_grid(&video, &audio, "ffmpeg", Some("ffmpeg"), false);
        let a = vec!["png", "jpg", "gif", "webp", "tiff", "svg", "bmp", "pdf"];
        let b = vec!["png", "jpg", "gif", "webp", "tiff", "bmp", "pdf"];
        assert(str_views(a@) =~= magick_sources());
        assert(str_views(b@) =~= magick_targets());
        self.add_grid(&a, &b, "magick", Some("magick"), true);
        let a = vec!["md", "html", "docx", "epub", "txt", "pdf"];
        let b = vec!["md", "html", "docx", "epub", "pdf", "txt"];
        assert(str_views(a@) =~= pandoc_sources());
        assert(str_views(b@) =~= pandoc_targets());
        self.add_grid(&a, &b, "pandoc", Some("pandoc"), true);
        let a = vec!["doc", "xls", "xlsx", "pptx", "odt", "pdf", "docx", "html"];
        let b = vec!["pdf", "docx", "xlsx", "html", "txt"];
        assert(str_views(a@) =~= office_sources());
        assert(str_views(b@) =~= office_targets());
        self.add_grid(&a, &b, "libreoffice", Some("libreoffice"), true);
        let a = vec!["zip", "tar", "gz", "7z", "rar"];
        let b = vec!["zip", "tar", "gz", "7z"];
        assert(str_views(a@) =~= archive_sources());
        assert(str_views(b@) =~= archive_targets());
        self.add_grid(&a, &b, "7z", Some("7z"), true);
        let a = vec!["epub", "mobi", "azw3", "pdf", "txt"];
        let b = vec!["epub", "mobi", "pdf", "txt"];
        assert(str_views(a@) =~= ebook_sources());
        assert(str_views(b@) =~= ebook_targets());
        self.add_grid(&a, &b, "ebook-convert", Some("ebook-convert"), true);
        let a = vec!["svg", "pdf", "eps", "ps"];
        let b = vec!["svg", "pdf", "png", "eps"];
        assert(str_views(a@) =~= vector_sources());
        assert(str_views(b@) =~= vector_targets());
        self.add_grid(&a, &b, "inkscape", Some("inkscape"), true);
        let a = vec!["pdf", "ps", "eps"];
        let b = vec!["pdf", "ps", "png"];
        assert(str_views(a@) =~= print_sources());
        assert(str_views(b@) =~= print_targets());
        self.add_grid(&a, &b, "ghostscript", Some("gs"), true);
        let a = vec!["obj", "fbx", "gltf", "stl", "dae", "ply"];
        let b = vec!["obj", "fbx", "gltf", "stl"];
        assert(str_views(a@) =~= model_sources());
        assert(str_views(b@) =~= model_targets());
        self.add_grid(&a, &b, "blender", Some("blender"), true);
        let fonts = vec!["ttf", "otf", "woff", "woff2"];
        assert(str_views(fonts@) =~= font_kinds());
        self.add_grid(&fonts, &fonts, "fontforge", Some("fontforge"), true);
        let a = vec!["dxf", "dwg", "step"];
        let b = vec!["obj", "stl", "pdf"];
        assert(str_views(a@) =~= cad_sources());
        assert(str_views(b@) =~= cad_targets());
        self.add_grid(&a, &b, "blender", Some("blender"), false);
        assert(self@ =~= start + external_edges());
    }
}

/// Whether `e` goes `from -> to`.
pub open spec fn connects(e: EdgeView, from: Seq<char>, to: Seq<char>) -> bool {
    e.from == from && e.to == to
}

/// Whether `e` goes `from -> to` and, when `native_only`, needs no tool.
pub open spec fn edge_fits(e: EdgeView, from: Seq<char>, to: Seq<char>, native_only: bool) -> bool {
    connects(e, from, to) && (!native_only || e.tool is None)
}

/// The index of the first edge at or after `i` that fits.
pub open spec fn first_fit_from(
    es: Seq<EdgeView>,
    from: Seq<char>,
    to: Seq<char>,
    native_only: bool,
    i: int,
) -> Option<int>
    decreases es.len() - i,
{
    if i < 0 || i >= es.len() {
        None
    } else if edge_fits(es[i], from, to, native_only) {
        Some(i)
    } else {
        first_fit_from(es, from, to, native_only, i + 1)
    }
}

/// The index of the first edge that fits.
pub open spec fn first_fit(es: Seq<EdgeView>, from: Seq<char>, to: Seq<char>, native_only: bool) -> Option<int> {
    first_fit_from(es, from, to, native_only, 0)
}

/// The index of the edge that `find_route` picks: for `from == to` the first
/// edge between them; otherwise the first native edge, else the first edge.
pub open spec fn route(es: Seq<EdgeView>, from: Seq<char>, to: Seq<char>) -> Option<int> {
    if from == to {
        first_fit(es, from, to, false)
    } else {
        match first_fit(es, from, to, true) {
            Some(i) => Some(i),
            None => first_fit(es, from, to, false),
        }
    }
}

pub proof fn lemma_first_fit_from(
    es: Seq<EdgeView>,
    from: Seq<char>,
    to: Seq<char>,
    native_only: bool,
    i: int,
)
    requires
        0 <= i,
    ensures
        first_fit_from(es, from, to, native_only, i) matches Some(k) ==> i <= k < es.len()
            && edge_fits(es[k], from, to, native_only) && forall|j: int|
            i <= j < k ==> !edge_fits(#[trigger] es[j], from, to, native_only),
        first_fit_from(es, from, to, native_only, i) is None ==> forall|j: int|
            i <= j < es.len() ==> !edge_fits(#[trigger] es[j], from, to, native_only),
    decreases es.len() - i,
{
    if i < es.len() && !edge_fits(es[i], from, to, native_only) {
        lemma_first_fit_from(es, from, to, native_only, i + 1);
    }
}

/// The first fitting edge at or after `start`.
fn first_fit_exec(
    edges: &Vec<Edge>,
    from: &String,
    to: &String,
    native_only: bool,
) -> (r: Option<usize>)
    ensures
        match r {
            Some(k) => k < edges.len() && first_fit(edge_views(edges@), from@, to@, native_only)
                == Some(k as int),
            None => first_fit(edge_views(edges@), from@, to@, native_only) is None,
        },
{
    let ghost es = edge_views(edges@);
    let mut i: usize = 0;
    while i < edges.len()
        invariant
            i <= edges.len(),
            es == edge_views(edges@),
            first_fit(es, from@, to@, native_only) == first_fit_from(
                es,
                from@,
                to@,
                native_only,
                i as int,
            ),
        decreases edges.len() - i,
    {
        assert(es[i as int] == edges@[i as int]@);
        let e = &edges[i];
        if e.from == *from && e.to == *to && (!native_only || e.needs_tool.is_none()) {
            return Some(i);
        }
        i += 1;
    }
    None
}

/// Whether `x` is the target of an edge out of `from`.
pub open spec fn is_target(es: Seq<EdgeView>, from: Seq<char>, x: Seq<char>) -> bool {
    exists|i: int| 0 <= i < es.len() && es[i].from == from && #[trigger] es[i].to == x
}

/// Whether the sequence is strictly increasing in the order of strings.
pub open spec fn strictly_sorted(s: Seq<Seq<char>>) -> bool {
    forall|i: int, j: int| 0 <= i < j < s.len() ==> lex_lt(#[trigger] s[i], #[trigger] s[j])
}

/// Whether `s` lists, in increasing order and once each, the targets of the
/// edges out of `from`.
pub open spec fn lists_targets(s: Seq<Seq<char>>, es: Seq<EdgeView>, from: Seq<char>) -> bool {
    &&& strictly_sorted(s)
    &&& forall|x: Seq<char>| #[trigger] s.contains(x) <==> is_target(es, from, x)
}

/// The sorted list of the targets of the edges out of `from`.
pub open spec fn target_list(es: Seq<EdgeView>, from: Seq<char>) -> Seq<Seq<char>> {
    choose|s: Seq<Seq<char>>| lists_targets(s, es, from)
}

/// Two strictly sorted sequences with the same elements are equal.
pub proof fn lemma_sorted_unique(a: Seq<Seq<char>>, b: Seq<Seq<char>>)
    requires
        strictly_sorted(a),
        strictly_sorted(b),
        forall|x: Seq<char>| a.contains(x) <==> b.contains(x),
    ensures
        a == b,
    decreases a.len() + b.len(),
{
    if a.len() == 0 {
        if b.len() > 0 {
            assert(b.contains(b[0]));
        }
        assert(a =~= b);
    } else if b.len() == 0 {
        assert(a.contains(a[0]));
    } else {
        assert(a.contains(a[0]));
        assert(b.contains(b[0]));
        let j = choose|j: int| 0 <= j < b.len() && b[j] == a[0];
        let k = choose|k: int| 0 <= k < a.len() && a[k] == b[0];
        if j > 0 {
            assert(lex_lt(b[0], b[j]));
            if k > 0 {
                assert(lex_lt(a[0], a[k]));
                lemma_lex_asymmetric(a[0], a[k]);
            } else {
                lemma_lex_irreflexive(a[0]);
            }
        }
        assert(a[0] == b[0]);
        let ta = a.drop_first();
        let tb = b.drop_first();
        assert(strictly_sorted(ta)) by {
            assert forall|i: int, l: int| 0 <= i < l < ta.len() implies lex_lt(
                #[trigger] ta[i],
                #[trigger] ta[l],
            ) by {
                assert(ta[i] == a[i + 1] && ta[l] == a[l + 1]);
            }
        }
        assert(strictly_sorted(tb)) by {
            assert forall|i: int, l: int| 0 <= i < l < tb.len() implies lex_lt(
                #[trigger] tb[i],
                #[trigger] tb[l],
            ) by {
                assert(tb[i] == b[i + 1] && tb[l] == b[l + 1]);
            }
        }
        assert forall|x: Seq<char>| ta.contains(x) implies tb.contains(x) by {
            let i = choose|i: int| 0 <= i < ta.len() && ta[i] == x;
            assert(a[i + 1] == x);
            assert(lex_lt(a[0], a[i + 1]));
            lemma_lex_irreflexive(x);
            assert(b.contains(x));
            let m = choose|m: int| 0 <= m < b.len() && b[m] == x;
            assert(m != 0);
            assert(tb[m - 1] == x);
        }
        assert forall|x: Seq<char>| tb.contains(x) implies ta.contains(x) by {
            let i = choose|i: int| 0 <= i < tb.len() && tb[i] == x;
            assert(b[i + 1] == x);
            assert(lex_lt(b[0], b[i + 1]));
            lemma_lex_irreflexive(x);
            assert(a.contains(x));
            let m = choose|m: int| 0 <= m < a.len() && a[m] == x;
            assert(m != 0);
            assert(ta[m - 1] == x);
        }
        lemma_sorted_unique(ta, tb);
        assert(a =~= seq![a[0]] + ta);
        assert(b =~= seq![b[0]] + tb);
    }
}

/// A list of the targets is `target_list`.
pub proof fn lemma_target_list(s: Seq<Seq<char>>, es: Seq<EdgeView>, from: Seq<char>)
    requires
        lists_targets(s, es, from),
    ensures
        target_list(es, from) == s,
{
    let t = target_list(es, from);
    assert(lists_targets(t, es, from));
    lemma_sorted_unique(s, t);
}

/// Inserts `t` into the strictly sorted `out`, unless it is there already.
fn insert_sorted(out: &mut Vec<String>, t: &String)
    requires
        strictly_sorted(string_seq(old(out)@)),
    ensures
        strictly_sorted(string_seq(final(out)@)),
        forall|x: Seq<char>| #[trigger]
            string_seq(final(out)@).contains(x) <==> (string_seq(old(out)@).contains(x) || x
                == t@),
{
    let tc = chars_of(t.as_str());
    let mut k: usize = 0;
    let mut stop = false;
    while k < out.len() && !stop
        invariant
            k <= out.len(),
            tc@ == t@,
            strictly_sorted(string_seq(out@)),
            forall|j: int| 0 <= j < k ==> lex_lt(#[trigger] string_seq(out@)[j], t@),
            stop ==> k < out.len() && !lex_lt(string_seq(out@)[k as int], t@),
        decreases out.len() - k + (if stop { 0int } else { 1int }),
    {
        let oc = chars_of(out[k].as_str());
        assert(string_seq(out@)[k as int] == oc@);
        if !lex_less(&oc, &tc) {
            stop = true;
        } else {
            k += 1;
        }
    }
    let ghost old_s = string_seq(out@);
    if k < out.len() && out[k] == *t {
        assert(old_s[k as int] == t@);
        return;
    }
    proof {
        if k < out.len() {
            lemma_lex_total(old_s[k as int], t@);
        }
    }
    out.insert(k, t.clone());
    let ghost new_s = string_seq(out@);
    proof {
        assert(new_s =~= old_s.insert(k as int, t@));
        assert forall|i: int, j: int| 0 <= i < j < new_s.len() implies lex_lt(
            #[trigger] new_s[i],
            #[trigger] new_s[j],
        ) by {
            if j < k {
            } else if j == k {
            } else if i < k {
                assert(new_s[j] == old_s[j - 1]);
                if i < k {
                    assert(lex_lt(old_s[i], t@));
                    assert(lex_lt(t@, old_s[k as int]));
                    if j - 1 > k {
                        lemma_lex_transitive(t@, old_s[k as int], old_s[j - 1]);
                    }
                    lemma_lex_transitive(old_s[i], t@, old_s[j - 1]);
                }
            } else if i == k {
                assert(new_s[j] == old_s[j - 1]);
                if j - 1 > k {
                    lemma_lex_transitive(t@, old_s[k as int], old_s[j - 1]);
                }
            } else {
                assert(new_s[i] == old_s[i - 1]);
                assert(new_s[j] == old_s[j - 1]);
            }
        }
        assert forall|x: Seq<char>| #[trigger] new_s.contains(x) <==> (old_s.contains(x) || x
            == t@) by {
            if new_s.contains(x) {
                let i = choose|i: int| 0 <= i < new_s.len() && new_s[i] == x;
                if i < k {
                    assert(old_s[i] == x);
                } else if i > k {
                    assert(old_s[i - 1] == x);
                }
            }
            if old_s.contains(x) {
                let i = choose|i: int| 0 <= i < old_s.len() && old_s[i] == x;
                if i < k {
                    assert(new_s[i] == x);
                } else {
                    assert(new_s[i + 1] == x);
                }
            }
            if x == t@ {
                assert(new_s[k as int] == x);
            }
        }
    }
}

/// The characters of a list of strings.
pub open spec fn string_seq(v: Seq<String>) -> Seq<Seq<char>> {
    v.map_values(|s: String| s@)
}

/// Joins `items` with `sep` between them.
pub open spec fn join(items: Seq<Seq<char>>, sep: Seq<char>) -> Seq<char>
    decreases items.len(),
{
    if items.len() == 0 {
        Seq::empty()
    } else if items.len() == 1 {
        items[0]
    } else {
        join(items.drop_last(), sep) + sep + items.last()
    }
}

/// Joins strings with a separator.
pub fn join_strings(items: &Vec<String>, sep: &str) -> (r: String)
    ensures
        r@ == join(string_seq(items@), sep@),
{
    let ghost s = string_seq(items@);
    let mut r = String::new();
    let mut i: usize = 0;
    while i < items.len()
        invariant
            i <= items.len(),
            s == string_seq(items@),
            r@ == join(s.take(i as int), sep@),
        decreases items.len() - i,
    {
        assert(s.take(i + 1).drop_last() == s.take(i as int));
        assert(s.take(i + 1).last() == items@[i as int]@);
        if i > 0 {
            push_str(&mut r, sep);
        }
        push_str(&mut r, items[i].as_str());
        proof {
            if i == 0 {
                assert(s.take(1) =~= seq![items@[0]@]);
            }
        }
        i += 1;
    }
    assert(s.take(items.len() as int) == s);
    r
}

/// The install line that `explain_why_not` gives for a tool.
pub open spec fn registry_install_hint(tool: Seq<char>) -> Seq<char> {
    match tool_named(tool) {
        Some(t) => t.install,
        None => "install "@ + tool + " and retry"@,
    }
}

/// The hint of a `NotSupported` error: what `from` converts to.
pub open spec fn not_supported_hint(es: Seq<EdgeView>, from: Seq<char>) -> Seq<char> {
    "supported targets from '"@ + from + "': ["@ + join(target_list(es, from), ", "@)
        + "]. To add this pair, implement the Adapter trait (see README)."@
}

/// What `explain_why_not` answers for `from -> to`: the missing tool when
/// the first edge between them needs one, else that the pair is not supported.
pub open spec fn explains(es: Seq<EdgeView>, from: Seq<char>, to: Seq<char>, r: ConverterError) -> bool {
    match first_fit(es, from, to, false) {
        Some(i) if es[i].tool is Some => r matches ConverterError::ToolMissing {
            tool,
            install_hint,
        } && tool@ == es[i].tool->0 && install_hint@ == registry_install_hint(es[i].tool->0),
        _ => r matches ConverterError::NotSupported { from: f, to: t, reason, hint } && f@ == from
            && t@ == to && reason@ == "no adapter registered for this pair yet"@ && hint@
            == not_supported_hint(es, from),
    }
}

impl ConversionGraph {
    /// The edge used for `from -> to`: native edges first, then any.
    pub fn find_route(&self, from: &str, to: &str) -> (r: Option<&Edge>)
        ensures
            match r {
                Some(e) => route(self@, from@, to@) matches Some(i) && e@ == self@[i],
                None => route(self@, from@, to@) is None,
            },
    {
        let f = from.to_owned();
        let t = to.to_owned();
        if f == t {
            return match first_fit_exec(&self.edges, &f, &t, false) {
                Some(i) => Some(&self.edges[i]),
                None => None,
            };
        }
        match first_fit_exec(&self.edges, &f, &t, true) {
            Some(i) => Some(&self.edges[i]),
            None => match first_fit_exec(&self.edges, &f, &t, false) {
                Some(i) => Some(&self.edges[i]),
                None => None,
            },
        }
    }

    /// The formats that `from` converts to directly, sorted, each once.
    pub fn supported_targets(&self, from: &str) -> (r: Vec<String>)
        ensures
            lists_targets(string_seq(r@), self@, from@),
            string_seq(r@) == target_list(self@, from@),
    {
        let f = from.to_owned();
        let ghost es = self@;
        let mut out: Vec<String> = Vec::new();
        let mut i: usize = 0;
        while i < self.edges.len()
            invariant
                i <= self.edges.len(),
                es == edge_views(self.edges@),
                f@ == from@,
                strictly_sorted(string_seq(out@)),
                forall|x: Seq<char>| #[trigger]
                    string_seq(out@).contains(x) <==> exists|k: int|
                        0 <= k < i && es[k].from == from@ && #[trigger] es[k].to == x,
            decreases self.edges.len() - i,
        {
            assert(es[i as int] == self.edges@[i as int]@);
            let ghost before = string_seq(out@);
            let hit = self.edges[i].from == f;
            if hit {
                insert_sorted(&mut out, &self.edges[i].to);
            }
            proof {
                assert forall|x: Seq<char>| #[trigger] string_seq(out@).contains(x) implies exists|k: int|
                    0 <= k < i + 1 && es[k].from == from@ && #[trigger] es[k].to == x by {
                    if before.contains(x) {
                        let k = choose|k: int| 0 <= k < i && es[k].from == from@ && #[trigger] es[k].to == x;
                        assert(es[k].to == x);
                    } else {
                        assert(hit && x == es[i as int].to);
                        assert(es[i as int].to == x);
                    }
                }
                assert forall|x: Seq<char>| (exists|k: int|
                    0 <= k < i + 1 && es[k].from == from@ && #[trigger] es[k].to == x) implies #[trigger] string_seq(out@).contains(x) by {
                    let k = choose|k: int| 0 <= k < i + 1 && es[k].from == from@ && #[trigger] es[k].to == x;
                    if k < i {
                        assert(es[k].to == x);
                        assert(before.contains(x));
                    } else {
                        assert(hit);
                    }
                }
            }
            i += 1;
        }
        proof {
            assert forall|x: Seq<char>| #[trigger] string_seq(out@).contains(x) <==> is_target(
                es,
                from@,
                x,
            ) by {
                if is_target(es, from@, x) {
                    let k = choose|k: int| 0 <= k < es.len() && es[k].from == from@ && #[trigger] es[k].to == x;
                    assert(es[k].to == x);
                }
            }
            lemma_target_list(string_seq(out@), es, from@);
        }
        out
    }

    /// Why `from -> to` cannot be converted: the missing tool with its
    /// install line, or which targets `from` supports.
    pub fn explain_why_not(&self, from: &str, to: &str) -> (r: ConverterError)
        ensures
            explains(self@, from@, to@, r),
    {
        let f = from.to_owned();
        let t = to.to_owned();
        match first_fit_exec(&self.edges, &f, &t, false) {
            Some(i) => {
                assert(self@[i as int] == self.edges@[i as int]@);
                match &self.edges[i].needs_tool {
                    Some(tool) => {
                        let hint = match find_tool(tool.as_str()) {
                            Some(k) => k.install.to_owned(),
                            None => {
                                let mut h = String::new();
                                push_str(&mut h, "install ");
                                push_str(&mut h, tool.as_str());
                                push_str(&mut h, " and retry");
                                h
                            },
                        };
                        return ConverterError::ToolMissing { tool: tool.clone(), install_hint: hint };
                    },
                    None => {},
                }
            },
            None => {},
        }
        let targets = self.supported_targets(from);
        let mut hint = String::new();
        push_str(&mut hint, "supported targets from '");
        push_str(&mut hint, from);
        push_str(&mut hint, "': [");
        let joined = join_strings(&targets, ", ");
        push_str(&mut hint, joined.as_str());
        push_str(&mut hint, "]. To add this pair, implement the Adapter trait (see README).");
        ConverterError::NotSupported {
            from: f,
            to: t,
            reason: "no adapter registered for this pair yet".to_owned(),
            hint,
        }
    }
}

/// The edge `find_route` returns goes from `from` to `to`.
pub proof fn law_route_connects(g: ConversionGraph, from: Seq<char>, to: Seq<char>)
    ensures
        route(g@, from, to) matches Some(i) ==> 0 <= i < g@.len() && connects(g@[i], from, to),
{
    lemma_first_fit_from(g@, from, to, true, 0);
    lemma_first_fit_from(g@, from, to, false, 0);
}

/// `find_route` finds an edge whenever the graph has one from `from` to `to`.
pub proof fn law_route_complete(g: ConversionGraph, from: Seq<char>, to: Seq<char>)
    ensures
        (exists|i: int| 0 <= i < g@.len() && connects(#[trigger] g@[i], from, to)) ==> route(
            g@,
            from,
            to,
        ) is Some,
{
    lemma_first_fit_from(g@, from, to, true, 0);
    lemma_first_fit_from(g@, from, to, false, 0);
    if exists|i: int| 0 <= i < g@.len() && connects(#[trigger] g@[i], from, to) {
        let i = choose|i: int| 0 <= i < g@.len() && connects(#[trigger] g@[i], from, to);
        assert(edge_fits(g@[i], from, to, false));
    }
}

/// Between different formats, a native edge (one that needs no tool) is
/// preferred: when one exists, the route needs no tool.
pub proof fn law_route_prefers_native(g: ConversionGraph, from: Seq<char>, to: Seq<char>)
    requires
        from != to,
        exists|i: int| 0 <= i < g@.len() && connects(#[trigger] g@[i], from, to) && g@[i].tool is None,
    ensures
        route(g@, from, to) matches Some(i) && g@[i].tool is None,
{
    lemma_first_fit_from(g@, from, to, true, 0);
    let i = choose|i: int| 0 <= i < g@.len() && connects(#[trigger] g@[i], from, to) && g@[i].tool is None;
    assert(edge_fits(g@[i], from, to, true));
}

/// A pair without a route is explained as not supported (never as a
/// missing tool).
pub proof fn law_no_route_not_supported(
    g: ConversionGraph,
    from: Seq<char>,
    to: Seq<char>,
    r: ConverterError,
)
    requires
        route(g@, from, to) is None,
        explains(g@, from, to, r),
    ensures
        r is NotSupported,
{
}

/// A missing-tool answer names the tool of an edge from `from` to `to`.
pub proof fn law_tool_missing_names_edge_tool(
    g: ConversionGraph,
    from: Seq<char>,
    to: Seq<char>,
    r: ConverterError,
)
    requires
        explains(g@, from, to, r),
        r is ToolMissing,
    ensures
        exists|i: int|
            0 <= i < g@.len() && connects(#[trigger] g@[i], from, to) && g@[i].tool == Some(
                r->ToolMissing_tool@,
            ),
{
    lemma_first_fit_from(g@, from, to, false, 0);
    let i = first_fit(g@, from, to, false)->0;
    assert(connects(g@[i], from, to));
}

/// An edge from a format to itself.
pub open spec fn is_self_edge(e: EdgeView) -> bool {
    e.from == e.to
}

proof fn lemma_row_no_self(a: Seq<char>, bs: Seq<Seq<char>>, via: Seq<char>, tool: Option<Seq<char>>)
    ensures
        forall|i: int| 0 <= i < row(a, bs, via, tool, true).len() ==> !is_self_edge(#[trigger] row(a, bs, via, tool, true)[i]),
    decreases bs.len(),
{
    if bs.len() > 0 {
        lemma_row_no_self(a, bs.drop_last(), via, tool);
        let init = row(a, bs.drop_last(), via, tool, true);
        assert forall|i: int| 0 <= i < row(a, bs, via, tool, true).len() implies !is_self_edge(#[trigger] row(a, bs, via, tool, true)[i]) by {
            if i < init.len() {
                assert(row(a, bs, via, tool, true)[i] == init[i]);
            }
        }
    }
}

proof fn lemma_grid_no_self(as_: Seq<Seq<char>>, bs: Seq<Seq<char>>, via: Seq<char>, tool: Option<Seq<char>>)
    ensures
        forall|i: int| 0 <= i < grid(as_, bs, via, tool, true).len() ==> !is_self_edge(#[trigger] grid(as_, bs, via, tool, true)[i]),
    decreases as_.len(),
{
    if as_.len() > 0 {
        lemma_grid_no_self(as_.drop_last(), bs, via, tool);
        lemma_row_no_self(as_.last(), bs, via, tool);
        let init = grid(as_.drop_last(), bs, via, tool, true);
        let r = row(as_.last(), bs, via, tool, true);
        assert forall|i: int| 0 <= i < grid(as_, bs, via, tool, true).len() implies !is_self_edge(#[trigger] grid(as_, bs, via, tool, true)[i]) by {
            if i < init.len() {
                assert(grid(as_, bs, via, tool, true)[i] == init[i]);
            } else {
                assert(grid(as_, bs, via, tool, true)[i] == r[i - init.len()]);
            }
        }
    }
}

proof fn lemma_bridge_no_self(as_: Seq<Seq<char>>)
    requires
        forall|i: int| 0 <= i < as_.len() ==> #[trigger] as_[i] != "txt"@ && as_[i] != "md"@,
    ensures
        forall|i: int| 0 <= i < data_bridge(as_).len() ==> !is_self_edge(#[trigger] data_bridge(as_)[i]),
    decreases as_.len(),
{
    if as_.len() > 0 {
        let a = as_.last();
        assert(as_[as_.len() - 1] == a);
        lemma_bridge_no_self(as_.drop_last());
        lemma_row_no_self(a, data_targets(), "native_data"@, None);
        let init = data_bridge(as_.drop_last());
        let r = row(a, data_targets(), "native_data"@, None, true);
        let tail = seq![
            edge(a, "txt"@, "native_data"@, None),
            edge(a, "md"@, "native_data"@, None),
            edge("txt"@, a, "native_data"@, None),
        ];
        assert forall|i: int| 0 <= i < data_bridge(as_).len() implies !is_self_edge(#[trigger] data_bridge(as_)[i]) by {
            if i < init.len() {
                assert(data_bridge(as_)[i] == init[i]);
            } else if i < init.len() + r.len() {
                assert(data_bridge(as_)[i] == r[i - init.len()]);
            } else {
                assert(data_bridge(as_)[i] == tail[i - init.len() - r.len()]);
            }
        }
    }
}

proof fn lemma_data_not_text()
    ensures
        forall|i: int| 0 <= i < data_sources().len() ==> #[trigger] data_sources()[i] != "txt"@ && data_sources()[i] != "md"@,
{
    reveal_strlit("json");
    reveal_strlit("yaml");
    reveal_strlit("toml");
    reveal_strlit("xml");
    reveal_strlit("csv");
    reveal_strlit("tsv");
    reveal_strlit("txt");
    reveal_strlit("md");
    assert("json"@[0] != "txt"@[0] && "json"@[0] != "md"@[0]);
    assert("yaml"@[0] != "txt"@[0] && "yaml"@[0] != "md"@[0]);
    assert("json"@ != "txt"@ && "json"@ != "md"@);
    assert("yaml"@ != "txt"@ && "yaml"@ != "md"@);
    assert("toml"@[1] != "txt"@[1]);
    assert("toml"@ != "txt"@ && "toml"@ != "md"@);
    assert("xml"@[0] != "txt"@[0]);
    assert("xml"@ != "txt"@ && "xml"@ != "md"@);
    assert("csv"@[0] != "txt"@[0]);
    assert("csv"@ != "txt"@ && "csv"@ != "md"@);
    assert("tsv"@[1] != "txt"@[1]);
    assert("tsv"@ != "txt"@ && "tsv"@ != "md"@);
    let ds = data_sources();
    assert forall|i: int| 0 <= i < ds.len() implies #[trigger] ds[i] != "txt"@ && ds[i] != "md"@ by {
        if i == 0 {
            assert(ds[0] == "json"@);
        } else if i == 1 {
            assert(ds[1] == "yaml"@);
        } else if i == 2 {
            assert(ds[2] == "toml"@);
        } else if i == 3 {
            assert(ds[3] == "xml"@);
        } else if i == 4 {
            assert(ds[4] == "csv"@);
        } else {
            assert(ds[5] == "tsv"@);
        }
    }
}

/// Identical formats convert by copying: for every known format, the route
/// from it to itself is the copy edge, which needs no tool.
pub proof fn law_same_format_is_copy(f: Seq<char>)
    requires
        exists|i: int| 0 <= i < format_table().len() && #[trigger] format_table()[i].id == f,
    ensures
        route(graph_edges(), f, f) matches Some(k) && graph_edges()[k].via == "copy"@
            && graph_edges()[k].tool is None,
{
    let es = graph_edges();
    let g = grid(text_kinds(), text_kinds(), "native_text"@, None, true);
    let d = data_bridge(data_sources());
    let c = copy_edges(format_table());
    lemma_grid_no_self(text_kinds(), text_kinds(), "native_text"@, None);
    lemma_data_not_text();
    lemma_bridge_no_self(data_sources());
    let p = g.len() + d.len();
    let i = choose|i: int| 0 <= i < format_table().len() && #[trigger] format_table()[i].id == f;
    assert(es[p + i] == c[i]);
    assert(edge_fits(es[p + i], f, f, false));
    lemma_first_fit_from(es, f, f, false, 0);
    let k = first_fit(es, f, f, false)->0;
    assert(k <= p + i);
    if k < g.len() {
        assert(es[k] == g[k]);
    } else if k < p {
        assert(es[k] == d[k - g.len()]);
    }
    assert(k >= p);
    assert(es[k] == c[k - p]);
}

/// The position of `a -> bs[j]` in a row.
proof fn lemma_row_has(
    a: Seq<char>,
    bs: Seq<Seq<char>>,
    via: Seq<char>,
    tool: Option<Seq<char>>,
    distinct: bool,
    j: int,
) -> (i: int)
    requires
        0 <= j < bs.len(),
        !(distinct && a == bs[j]),
    ensures
        0 <= i < row(a, bs, via, tool, distinct).len(),
        row(a, bs, via, tool, distinct)[i] == edge(a, bs[j], via, tool),
    decreases bs.len(),
{
    let init = row(a, bs.drop_last(), via, tool, distinct);
    if j == bs.len() - 1 {
        assert(row(a, bs, via, tool, distinct)[init.len() as int] == edge(a, bs[j], via, tool));
        init.len() as int
    } else {
        let i = lemma_row_has(a, bs.drop_last(), via, tool, distinct, j);
        assert(row(a, bs, via, tool, distinct)[i] == init[i]);
        i
    }
}

/// The position of `as_[ia] -> bs[jb]` in a grid.
proof fn lemma_grid_has(
    as_: Seq<Seq<char>>,
    bs: Seq<Seq<char>>,
    via: Seq<char>,
    tool: Option<Seq<char>>,
    distinct: bool,
    ia: int,
    jb: int,
) -> (i: int)
    requires
        0 <= ia < as_.len(),
        0 <= jb < bs.len(),
        !(distinct && as_[ia] == bs[jb]),
    ensures
        0 <= i < grid(as_, bs, via, tool, distinct).len(),
        grid(as_, bs, via, tool, distinct)[i] == edge(as_[ia], bs[jb], via, tool),
    decreases as_.len(),
{
    let init = grid(as_.drop_last(), bs, via, tool, distinct);
    if ia == as_.len() - 1 {
        let k = lemma_row_has(as_.last(), bs, via, tool, distinct, jb);
        assert(grid(as_, bs, via, tool, distinct)[init.len() + k] == row(as_.last(), bs, via, tool, distinct)[k]);
        init.len() + k
    } else {
        let i = lemma_grid_has(as_.drop_last(), bs, via, tool, distinct, ia, jb);
        assert(grid(as_, bs, via, tool, distinct)[i] == init[i]);
        i
    }
}

/// The position of a bridge edge of `as_[ia]`: to another data format, to
/// `txt` or `md` (not `reverse`), or from `txt` (`reverse`).
proof fn lemma_bridge_has(as_: Seq<Seq<char>>, ia: int, b: Seq<char>, reverse: bool) -> (i: int)
    requires
        0 <= ia < as_.len(),
        !reverse ==> (data_targets().contains(b) && b != as_[ia]) || b == "txt"@ || b == "md"@,
    ensures
        0 <= i < data_bridge(as_).len(),
        data_bridge(as_)[i] == if reverse {
            edge("txt"@, as_[ia], "native_data"@, None)
        } else {
            edge(as_[ia], b, "native_data"@, None)
        },
    decreases as_.len(),
{
    let a = as_.last();
    let init = data_bridge(as_.drop_last());
    let r = row(a, data_targets(), "native_data"@, None, true);
    let whole = data_bridge(as_);
    let base: int = (init.len() + r.len()) as int;
    if ia == as_.len() - 1 {
        if reverse {
            assert(whole[base + 2] == edge("txt"@, a, "native_data"@, None));
            base + 2
        } else if b == "txt"@ {
            assert(whole[base] == edge(a, "txt"@, "native_data"@, None));
            base
        } else if b == "md"@ {
            assert(whole[base + 1] == edge(a, "md"@, "native_data"@, None));
            base + 1
        } else {
            let jb = choose|jb: int| 0 <= jb < data_targets().len() && data_targets()[jb] == b;
            let k = lemma_row_has(a, data_targets(), "native_data"@, None, true, jb);
            assert(whole[init.len() + k] == r[k]);
            init.len() + k
        }
    } else {
        let i = lemma_bridge_has(as_.drop_last(), ia, b, reverse);
        assert(whole[i] == init[i]);
        i
    }
}

/// Whether `f` is the id of a known format.
pub open spec fn is_known_format(f: Seq<char>) -> bool {
    exists|i: int| 0 <= i < format_table().len() && #[trigger] format_table()[i].id == f
}

/// The pairs that convert without any external tool: among the text
/// formats; from a data format to another data format, `txt` or `md`; from
/// `txt` to a data format; from any known format into `zip`; among the
/// images; from a spreadsheet to its table formats.
pub open spec fn works_natively(from: Seq<char>, to: Seq<char>) -> bool {
    &&& from != to
    &&& {
        ||| text_kinds().contains(from) && text_kinds().contains(to)
        ||| data_sources().contains(from) && (data_targets().contains(to) || to == "txt"@ || to
            == "md"@)
        ||| from == "txt"@ && data_sources().contains(to)
        ||| is_known_format(from) && to == "zip"@
        ||| image_sources().contains(from) && image_targets().contains(to)
        ||| sheet_sources().contains(from) && sheet_targets().contains(to)
    }
}

/// Every pair that works out of the box is routed to an edge that needs no
/// external tool.
#[verifier::rlimit(50)]
pub proof fn law_works_without_tools(from: Seq<char>, to: Seq<char>)
    requires
        works_natively(from, to),
    ensures
        route(graph_edges(), from, to) matches Some(k) && graph_edges()[k].tool is None,
{
    let es = graph_edges();
    let n = native_edges();
    let g = grid(text_kinds(), text_kinds(), "native_text"@, None, true);
    let d = data_bridge(data_sources());
    let c = copy_edges(format_table());
    let z = bundle_edges(format_table());
    let zt = seq![edge("zip"@, "txt"@, "native_archive"@, None)];
    let im = grid(image_sources(), image_targets(), "native_image"@, None, true);
    let st = seq![edge("srt"@, "vtt"@, "native_text"@, None), edge("vtt"@, "srt"@, "native_text"@, None)];
    let sh = grid(sheet_sources(), sheet_targets(), "native_sheet"@, None, false);
    assert(n == g + d + c + z + zt + im + st + sh);
    let pos: int = if text_kinds().contains(from) && text_kinds().contains(to) {
        let ia = choose|ia: int| 0 <= ia < text_kinds().len() && text_kinds()[ia] == from;
        let jb = choose|jb: int| 0 <= jb < text_kinds().len() && text_kinds()[jb] == to;
        let i = lemma_grid_has(text_kinds(), text_kinds(), "native_text"@, None, true, ia, jb);
        assert(n[i] == g[i]);
        i
    } else if data_sources().contains(from) && (data_targets().contains(to) || to == "txt"@ || to
        == "md"@) {
        let ia = choose|ia: int| 0 <= ia < data_sources().len() && data_sources()[ia] == from;
        let i = lemma_bridge_has(data_sources(), ia, to, false);
        assert(n[g.len() + i] == d[i]);
        g.len() + i
    } else if from == "txt"@ && data_sources().contains(to) {
        let ia = choose|ia: int| 0 <= ia < data_sources().len() && data_sources()[ia] == to;
        let i = lemma_bridge_has(data_sources(), ia, to, true);
        assert(n[g.len() + i] == d[i]);
        g.len() + i
    } else if is_known_format(from) && to == "zip"@ {
        let ia = choose|ia: int| 0 <= ia < format_table().len() && #[trigger] format_table()[ia].id == from;
        let p = g.len() + d.len() + c.len();
        assert(n[p + ia] == z[ia]);
        p + ia
    } else if image_sources().contains(from) && image_targets().contains(to) {
        let ia = choose|ia: int| 0 <= ia < image_sources().len() && image_sources()[ia] == from;
        let jb = choose|jb: int| 0 <= jb < image_targets().len() && image_targets()[jb] == to;
        let i = lemma_grid_has(image_sources(), image_targets(), "native_image"@, None, true, ia, jb);
        let p = g.len() + d.len() + c.len() + z.len() + zt.len();
        assert(n[p + i] == im[i]);
        p + i
    } else {
        let ia = choose|ia: int| 0 <= ia < sheet_sources().len() && sheet_sources()[ia] == from;
        let jb = choose|jb: int| 0 <= jb < sheet_targets().len() && sheet_targets()[jb] == to;
        let i = lemma_grid_has(sheet_sources(), sheet_targets(), "native_sheet"@, None, false, ia, jb);
        let p = g.len() + d.len() + c.len() + z.len() + zt.len() + im.len() + st.len();
        assert(n[p + i] == sh[i]);
        p + i
    };
    assert(0 <= pos < n.len());
    assert(es[pos] == n[pos]);
    assert(edge_fits(es[pos], from, to, true));
    lemma_first_fit_from(es, from, to, true, 0);
}

/// Whether every edge needs the binary that runs its adapter, and that
/// binary is a known tool (with an install line).
pub open spec fn tools_known(es: Seq<EdgeView>) -> bool {
    forall|i: int|
        0 <= i < es.len() ==> (#[trigger] es[i]).tool == Some(binary_for(es[i].via)) && tool_named(binary_for(es[i].via)) is Some
}

proof fn lemma_grid_tool(
    as_: Seq<Seq<char>>,
    bs: Seq<Seq<char>>,
    via: Seq<char>,
    tool: Option<Seq<char>>,
    distinct: bool,
)
    ensures
        forall|i: int|
            0 <= i < grid(as_, bs, via, tool, distinct).len() ==> (#[trigger] grid(as_, bs, via, tool, distinct)[i]).tool == tool
                && grid(as_, bs, via, tool, distinct)[i].via == via,
    decreases as_.len(),
{
    if as_.len() > 0 {
        lemma_grid_tool(as_.drop_last(), bs, via, tool, distinct);
        lemma_row_tool(as_.last(), bs, via, tool, distinct);
        let init = grid(as_.drop_last(), bs, via, tool, distinct);
        let r = row(as_.last(), bs, via, tool, distinct);
        assert forall|i: int| 0 <= i < grid(as_, bs, via, tool, distinct).len() implies (#[trigger] grid(as_, bs, via, tool, distinct)[i]).tool == tool
            && grid(as_, bs, via, tool, distinct)[i].via == via by {
            if i < init.len() {
                assert(grid(as_, bs, via, tool, distinct)[i] == init[i]);
            } else {
                assert(grid(as_, bs, via, tool, distinct)[i] == r[i - init.len()]);
            }
        }
    }
}

proof fn lemma_row_tool(a: Seq<char>, bs: Seq<Seq<char>>, via: Seq<char>, tool: Option<Seq<char>>, distinct: bool)
    ensures
        forall|i: int|
            0 <= i < row(a, bs, via, tool, distinct).len() ==> (#[trigger] row(a, bs, via, tool, distinct)[i]).tool == tool
                && row(a, bs, via, tool, distinct)[i].via == via,
    decreases bs.len(),
{
    if bs.len() > 0 {
        lemma_row_tool(a, bs.drop_last(), via, tool, distinct);
        let init = row(a, bs.drop_last(), via, tool, distinct);
        assert forall|i: int| 0 <= i < row(a, bs, via, tool, distinct).len() implies (#[trigger] row(a, bs, via, tool, distinct)[i]).tool == tool
            && row(a, bs, via, tool, distinct)[i].via == via by {
            if i < init.len() {
                assert(row(a, bs, via, tool, distinct)[i] == init[i]);
            }
        }
    }
}

proof fn lemma_grid_known(as_: Seq<Seq<char>>, bs: Seq<Seq<char>>, via: Seq<char>, t: Seq<char>, distinct: bool, k: int)
    requires
        0 <= k < tool_table().len(),
        tool_table()[k].binary == t,
        binary_for(via) == t,
    ensures
        tools_known(grid(as_, bs, via, Some(t), distinct)),
{
    lemma_grid_tool(as_, bs, via, Some(t), distinct);
    lemma_first_tool_some(tool_table(), t, k);
}

proof fn lemma_known_concat(a: Seq<EdgeView>, b: Seq<EdgeView>)
    requires
        tools_known(a),
        tools_known(b),
    ensures
        tools_known(a + b),
{
    assert forall|i: int| 0 <= i < (a + b).len() implies (#[trigger] (a + b)[i]).tool == Some(binary_for((a + b)[i].via))
        && tool_named(binary_for((a + b)[i].via)) is Some by {
        if i < a.len() {
            assert((a + b)[i] == a[i]);
        } else {
            assert((a + b)[i] == b[i - a.len()]);
        }
    }
}

/// Every edge to an external adapter needs the binary that runs that
/// adapter (`gs` for ghostscript, else the adapter's own name), and that
/// binary is a known tool, so a missing tool is always answered with its
/// install line.
pub proof fn law_external_tools_known()
    ensures
        tools_known(external_edges()),
{
    let e1 = grid(audio_kinds(), audio_kinds(), "ffmpeg"@, Some("ffmpeg"@), true);
    let e2 = grid(video_kinds(), video_kinds(), "ffmpeg"@, Some("ffmpeg"@), true);
    let e3 = grid(video_kinds(), audio_kinds(), "ffmpeg"@, Some("ffmpeg"@), false);
    let e4 = grid(magick_sources(), magick_targets(), "magick"@, Some("magick"@), true);
    let e5 = grid(pandoc_sources(), pandoc_targets(), "pandoc"@, Some("pandoc"@), true);
    let e6 = grid(office_sources(), office_targets(), "libreoffice"@, Some("libreoffice"@), true);
    let e7 = grid(archive_sources(), archive_targets(), "7z"@, Some("7z"@), true);
    let e8 = grid(ebook_sources(), ebook_targets(), "ebook-convert"@, Some("ebook-convert"@), true);
    let e9 = grid(vector_sources(), vector_targets(), "inkscape"@, Some("inkscape"@), true);
    let e10 = grid(print_sources(), print_targets(), "ghostscript"@, Some("gs"@), true);
    let e11 = grid(model_sources(), model_targets(), "blender"@, Some("blender"@), true);
    let e12 = grid(font_kinds(), font_kinds(), "fontforge"@, Some("fontforge"@), true);
    let e13 = grid(cad_sources(), cad_targets(), "blender"@, Some("blender"@), false);
    reveal_strlit("ghostscript");
    reveal_strlit("ffmpeg");
    reveal_strlit("magick");
    reveal_strlit("pandoc");
    reveal_strlit("libreoffice");
    reveal_strlit("7z");
    reveal_strlit("ebook-convert");
    reveal_strlit("inkscape");
    reveal_strlit("blender");
    reveal_strlit("fontforge");
    assert("ffmpeg"@.len() != "ghostscript"@.len());
    assert("libreoffice"@[0] != "ghostscript"@[0]);
    lemma_grid_known(audio_kinds(), audio_kinds(), "ffmpeg"@, "ffmpeg"@, true, 0);
    lemma_grid_known(video_kinds(), video_kinds(), "ffmpeg"@, "ffmpeg"@, true, 0);
    lemma_grid_known(video_kinds(), audio_kinds(), "ffmpeg"@, "ffmpeg"@, false, 0);
    lemma_grid_known(magick_sources(), magick_targets(), "magick"@, "magick"@, true, 1);
    lemma_grid_known(pandoc_sources(), pandoc_targets(), "pandoc"@, "pandoc"@, true, 2);
    lemma_grid_known(office_sources(), office_targets(), "libreoffice"@, "libreoffice"@, true, 3);
    lemma_grid_known(archive_sources(), archive_targets(), "7z"@, "7z"@, true, 4);
    lemma_grid_known(ebook_sources(), ebook_targets(), "ebook-convert"@, "ebook-convert"@, true, 7);
    lemma_grid_known(vector_sources(), vector_targets(), "inkscape"@, "inkscape"@, true, 6);
    lemma_grid_known(print_sources(), print_targets(), "ghostscript"@, "gs"@, true, 5);
    lemma_grid_known(model_sources(), model_targets(), "blender"@, "blender"@, true, 8);
    lemma_grid_known(font_kinds(), font_kinds(), "fontforge"@, "fontforge"@, true, 9);
    lemma_grid_known(cad_sources(), cad_targets(), "blender"@, "blender"@, false, 8);
    lemma_known_concat(e1, e2);
    lemma_known_concat(e1 + e2, e3);
    lemma_known_concat(e1 + e2 + e3, e4);
    lemma_known_concat(e1 + e2 + e3 + e4, e5);
    lemma_known_concat(e1 + e2 + e3 + e4 + e5, e6);
    lemma_known_concat(e1 + e2 + e3 + e4 + e5 + e6, e7);
    lemma_known_concat(e1 + e2 + e3 + e4 + e5 + e6 + e7, e8);
    lemma_known_concat(e1 + e2 + e3 + e4 + e5 + e6 + e7 + e8, e9);
    lemma_known_concat(e1 + e2 + e3 + e4 + e5 + e6 + e7 + e8 + e9, e10);
    lemma_known_concat(e1 + e2 + e3 + e4 + e5 + e6 + e7 + e8 + e9 + e10, e11);
    lemma_known_concat(e1 + e2 + e3 + e4 + e5 + e6 + e7 + e8 + e9 + e10 + e11, e12);
    lemma_known_concat(e1 + e2 + e3 + e4 + e5 + e6 + e7 + e8 + e9 + e10 + e11 + e12, e13);
}

/// Pandoc links the documents: from each of md, html, docx, epub, txt and
/// pdf to each of md, html, docx, epub, pdf and txt (a different format),
/// the built graph holds an edge through pandoc that needs the pandoc
/// tool, so a route between the two exists.
pub proof fn law_pandoc_links_documents(g: ConversionGraph, a: Seq<char>, b: Seq<char>)
    requires
        g@ == graph_edges(),
        seq!["md"@, "html"@, "docx"@, "epub"@, "txt"@, "pdf"@].contains(a),
        seq!["md"@, "html"@, "docx"@, "epub"@, "pdf"@, "txt"@].contains(b),
        a != b,
    ensures
        exists|k: int| 0 <= k < g@.len() && g@[k] == edge(a, b, "pandoc"@, Some("pandoc"@)),
        route(g@, a, b) is Some,
{
    let srcs = seq!["md"@, "html"@, "docx"@, "epub"@, "txt"@, "pdf"@];
    let dsts = seq!["md"@, "html"@, "docx"@, "epub"@, "pdf"@, "txt"@];
    assert(pandoc_sources() == srcs);
    assert(pandoc_targets() == dsts);
    let ia = choose|ia: int| 0 <= ia < srcs.len() && srcs[ia] == a;
    let jb = choose|jb: int| 0 <= jb < dsts.len() && dsts[jb] == b;
    let i = lemma_grid_has(pandoc_sources(), pandoc_targets(), "pandoc"@, Some("pandoc"@), true, ia, jb);
    let e1 = grid(audio_kinds(), audio_kinds(), "ffmpeg"@, Some("ffmpeg"@), true);
    let e2 = grid(video_kinds(), video_kinds(), "ffmpeg"@, Some("ffmpeg"@), true);
    let e3 = grid(video_kinds(), audio_kinds(), "ffmpeg"@, Some("ffmpeg"@), false);
    let e4 = grid(magick_sources(), magick_targets(), "magick"@, Some("magick"@), true);
    let e5 = grid(pandoc_sources(), pandoc_targets(), "pandoc"@, Some("pandoc"@), true);
    let ext = external_edges();
    let pre = e1 + e2 + e3 + e4;
    let q = pre.len() + i;
    assert((pre + e5)[q] == e5[i]);
    assert(ext[q] == (pre + e5)[q]) by {
        let e6 = grid(office_sources(), office_targets(), "libreoffice"@, Some("libreoffice"@), true);
        let e7 = grid(archive_sources(), archive_targets(), "7z"@, Some("7z"@), true);
        let e8 = grid(ebook_sources(), ebook_targets(), "ebook-convert"@, Some("ebook-convert"@), true);
        let e9 = grid(vector_sources(), vector_targets(), "inkscape"@, Some("inkscape"@), true);
        let e10 = grid(print_sources(), print_targets(), "ghostscript"@, Some("gs"@), true);
        let e11 = grid(model_sources(), model_targets(), "blender"@, Some("blender"@), true);
        let e12 = grid(font_kinds(), font_kinds(), "fontforge"@, Some("fontforge"@), true);
        let e13 = grid(cad_sources(), cad_targets(), "blender"@, Some("blender"@), false);
        let p5 = pre + e5;
        assert((p5 + e6)[q] == p5[q]);
        assert((p5 + e6 + e7)[q] == p5[q]);
        assert((p5 + e6 + e7 + e8)[q] == p5[q]);
        assert((p5 + e6 + e7 + e8 + e9)[q] == p5[q]);
        assert((p5 + e6 + e7 + e8 + e9 + e10)[q] == p5[q]);
        assert((p5 + e6 + e7 + e8 + e9 + e10 + e11)[q] == p5[q]);
        assert((p5 + e6 + e7 + e8 + e9 + e10 + e11 + e12)[q] == p5[q]);
        assert((p5 + e6 + e7 + e8 + e9 + e10 + e11 + e12 + e13)[q] == p5[q]);
        assert(ext == p5 + e6 + e7 + e8 + e9 + e10 + e11 + e12 + e13);
    }
    let k = native_edges().len() + q;
    assert(graph_edges()[k] == ext[q]);
    assert(g@[k] == edge(a, b, "pandoc"@, Some("pandoc"@)));
    assert(connects(g@[k], a, b));
    law_route_complete(g, a, b);
}

} // verus!
