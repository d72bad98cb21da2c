//! The universal engine: routes a `(from, to)` pair to the adapter that
//! converts it. New format pairs are a new adapter plus a registry edge.
use vstd::prelude::*;

use crate::deps::ToolStatus;
use crate::error::ConverterError;
use crate::paths::{extension_of, file_stem_of, path_extension, path_file_stem};
use crate::registry::{explains, route, ConversionGraph, EdgeView};
use crate::text::{lowercase, push_str, str_is, to_lowercase};

verus! {

/// The engine: the conversion graph.
pub struct OmniEngine {
    graph: ConversionGraph,
}

impl View for OmniEngine {
    type V = Seq<EdgeView>;

    closed spec fn view(&self) -> Seq<EdgeView> {
        self.graph@
    }
}

impl OmniEngine {
    /// An engine over the full conversion graph.
    pub fn new() -> (r: Self)
        ensures
            r@ == crate::registry::graph_edges(),
    {
        Self { graph: ConversionGraph::new() }
    }

    /// The formats that `from` converts to directly, sorted, each once.
    pub fn supported_targets(&self, from: &str) -> (r: Vec<String>)
        ensures
            crate::registry::string_seq(r@) == crate::registry::target_list(self@, from@),
    {
        self.graph.supported_targets(from)
    }

    /// The engine's conversion graph.
    pub fn graph(&self) -> (r: &ConversionGraph)
        ensures
            r@ == self@,
    {
        &self.graph
    }
}

impl Default for OmniEngine {
    fn default() -> (r: Self)
        ensures
            r@ == crate::registry::graph_edges(),
    {
        Self::new()
    }
}

/// The lowercased extension of a path, or the empty string.
pub open spec fn ext_spec(p: Seq<char>) -> Seq<char> {
    match path_extension(p) {
        Some(e) => lowercase(e),
        None => lowercase(""@),
    }
}

/// The lowercased extension of a path (empty when it has none).
pub fn ext_of(p: &str) -> (r: String)
    ensures
        r@ == ext_spec(p@),
{
    match extension_of(p) {
        Some(e) => to_lowercase(e.as_str()),
        None => to_lowercase(""),
    }
}

/// The format named by a path's extension, `bin` when it has none.
pub open spec fn ext_or_bin_spec(p: Seq<char>) -> Seq<char> {
    if ext_spec(p).len() == 0 {
        "bin"@
    } else {
        ext_spec(p)
    }
}

/// The lowercased extension of a path, or `bin`.
pub fn ext_or_bin(p: &str) -> (r: String)
    ensures
        r@ == ext_or_bin_spec(p@),
{
    let e = ext_of(p);
    if e.as_str().is_empty() {
        "bin".to_owned()
    } else {
        e
    }
}

/// The source format: the detected one, else the input's extension (or `bin`).
pub open spec fn source_format_spec(detected: Option<Seq<char>>, input: Seq<char>) -> Seq<char> {
    match detected {
        Some(d) => d,
        None => ext_or_bin_spec(input),
    }
}

/// The source format of a conversion.
pub fn source_format(detected: Option<String>, input: &str) -> (r: String)
    ensures
        r@ == source_format_spec(crate::registry::opt_string_view(detected), input@),
{
    match detected {
        Some(d) => d,
        None => ext_or_bin(input),
    }
}

/// The target format: the output's extension, or the source format when the
/// output has none.
pub open spec fn target_format_spec(from: Seq<char>, output: Seq<char>) -> Seq<char> {
    if ext_spec(output).len() == 0 {
        from
    } else {
        ext_spec(output)
    }
}

/// The target format of a conversion.
pub fn target_format(from: &str, output: &str) -> (r: String)
    ensures
        r@ == target_format_spec(from@, output@),
{
    let e = ext_of(output);
    if e.as_str().is_empty() {
        from.to_owned()
    } else {
        e
    }
}

/// The file name a dropped or batch-converted file is written under: its
/// file stem (else `file`), a dot and the target extension.
pub open spec fn output_name_spec(input: Seq<char>, to: Seq<char>) -> Seq<char> {
    let stem = match path_file_stem(input) {
        Some(s) => s,
        None => "file"@,
    };
    stem + "."@ + to
}

/// The output file name for converting `input` to the extension `to`.
pub fn output_name(input: &str, to: &str) -> (r: String)
    ensures
        r@ == output_name_spec(input@, to@),
{
    let mut out = match file_stem_of(input) {
        Some(s) => s,
        None => "file".to_owned(),
    };
    push_str(&mut out, ".");
    push_str(&mut out, to);
    out
}

/// Which adapter carries out a conversion.
#[derive(Debug, Clone, PartialEq, Eq)]
pub enum Step {
    /// Text and structured data, natively.
    NativeText,
    /// Raster images, natively.
    NativeImage,
    /// Archives, natively.
    NativeArchive,
    /// Spreadsheets, natively.
    NativeSheet,
    /// A plain copy.
    Copy,
    /// An external tool, by the edge's adapter name.
    External(String),
}

/// Whether `s` is the step for an edge through `via` that needs no tool.
pub open spec fn native_step(via: Seq<char>, s: Step) -> bool {
    if via == "native_text"@ || via == "native_data"@ {
        s is NativeText
    } else if via == "native_image"@ {
        s is NativeImage
    } else if via == "native_archive"@ {
        s is NativeArchive
    } else if via == "native_sheet"@ {
        s is NativeSheet
    } else if via == "copy"@ {
        s is Copy
    } else {
        s matches Step::External(v) && v@ == via
    }
}

/// Whether the statuses report the tool `bin` as installed.
pub open spec fn tool_installed(st: Seq<ToolStatus>, bin: Seq<char>) -> bool {
    exists|k: int| 0 <= k < st.len() && #[trigger] st[k].binary@ == bin && st[k].installed
}

/// What `plan` decides for `from -> to`, given the tools' statuses.
pub open spec fn plans(
    es: Seq<EdgeView>,
    st: Seq<ToolStatus>,
    from: Seq<char>,
    to: Seq<char>,
    r: Result<Step, ConverterError>,
) -> bool {
    match route(es, from, to) {
        None => r matches Err(e) && explains(es, from, to, e),
        Some(i) => match es[i].tool {
            Some(t) => if tool_installed(st, t) {
                r matches Ok(Step::External(v)) && v@ == es[i].via
            } else {
                r matches Err(e) && explains(es, from, to, e)
            },
            None => r matches Ok(s) && native_step(es[i].via, s),
        },
    }
}

/// The step for a tool-free edge.
fn step_for(via: &String) -> (s: Step)
    ensures
        native_step(via@, s),
{
    if str_is(via.as_str(), "native_text") || str_is(via.as_str(), "native_data") {
        Step::NativeText
    } else if str_is(via.as_str(), "native_image") {
        Step::NativeImage
    } else if str_is(via.as_str(), "native_archive") {
        Step::NativeArchive
    } else if str_is(via.as_str(), "native_sheet") {
        Step::NativeSheet
    } else if str_is(via.as_str(), "copy") {
        Step::Copy
    } else {
        Step::External(via.clone())
    }
}

/// Whether the statuses report the tool `bin` as installed.
pub fn reports_installed(statuses: &Vec<ToolStatus>, bin: &String) -> (r: bool)
    ensures
        r == tool_installed(statuses@, bin@),
{
    let mut k: usize = 0;
    while k < statuses.len()
        invariant
            k <= statuses.len(),
            forall|j: int|
                0 <= j < k ==> !(#[trigger] statuses@[j].binary@ == bin@ && statuses@[j].installed),
        decreases statuses.len() - k,
    {
        if statuses[k].binary == *bin && statuses[k].installed {
            assert(statuses@[k as int].binary@ == bin@);
            return true;
        }
        k += 1;
    }
    false
}

/// Decides how to convert `from -> to`: the adapter of the route's edge,
/// or why it cannot be done (no route, or the edge's tool is missing).
pub fn plan(
    graph: &ConversionGraph,
    statuses: &Vec<ToolStatus>,
    from: &str,
    to: &str,
) -> (r: Result<Step, ConverterError>)
    ensures
        plans(graph@, statuses@, from@, to@, r),
{
    match graph.find_route(from, to) {
        None => Err(graph.explain_why_not(from, to)),
        Some(edge) => match &edge.needs_tool {
            Some(tool) => {
                if reports_installed(statuses, tool) {
                    Ok(Step::External(edge.via.clone()))
                } else {
                    Err(graph.explain_why_not(from, to))
                }
            },
            None => Ok(step_for(&edge.via)),
        },
    }
}

/// Missing tools degrade gracefully: when the chosen route needs a tool
/// that is not installed, the plan fails with `ToolMissing` naming that tool.
pub proof fn law_missing_tool_is_reported(
    es: Seq<EdgeView>,
    st: Seq<ToolStatus>,
    from: Seq<char>,
    to: Seq<char>,
    r: Result<Step, ConverterError>,
)
    requires
        plans(es, st, from, to, r),
        route(es, from, to) is Some,
        es[route(es, from, to)->0].tool is Some,
        !tool_installed(st, es[route(es, from, to)->0].tool->0),
    ensures
        r matches Err(ConverterError::ToolMissing { tool, .. }) && tool@ == es[route(
            es,
            from,
            to,
        )->0].tool->0,
{
    crate::registry::lemma_first_fit_from(es, from, to, true, 0);
    crate::registry::lemma_first_fit_from(es, from, to, false, 0);
}

/// An installed tool is never reported missing: when the route's edge
/// needs a tool and some status names that binary as installed, the plan
/// runs that edge's adapter.
pub proof fn law_installed_tool_runs(
    es: Seq<EdgeView>,
    st: Seq<ToolStatus>,
    from: Seq<char>,
    to: Seq<char>,
    r: Result<Step, ConverterError>,
    k: int,
)
    requires
        plans(es, st, from, to, r),
        route(es, from, to) is Some,
        es[route(es, from, to)->0].tool is Some,
        0 <= k < st.len(),
        st[k].binary@ == es[route(es, from, to)->0].tool->0,
        st[k].installed,
    ensures
        r matches Ok(Step::External(v)) && v@ == es[route(es, from, to)->0].via,
{
    assert(st[k].binary@ == es[route(es, from, to)->0].tool->0);
}

} // verus!
