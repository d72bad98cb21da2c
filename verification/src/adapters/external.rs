//! Hand a conversion to a best-in-class external tool (ffmpeg, magick,
//! pandoc, ...): which binary, with which arguments, how its progress is
//! reported and how its failure is described. Running the tool happens
//! where processes can be started.
use vstd::prelude::*;

use crate::adapters::ffmpeg_progress::{hms, parse_duration, parse_progress_line, percent, percent_spec, duration_of, progress_event, fmt_hms, ProgressEvent};
use crate::deps::{install_hint_for, install_hint_spec};
use crate::error::ConverterError;
use crate::paths::{parent_of, path_parent};
use crate::registry::{join, join_strings, string_seq};
use crate::text::{
    chars_of, dec, ends_with, lemma_split_on_len, push_dec, push_str, slice_chars, split_chars,
    split_on, str_is, string_from_chars, views,
};

verus! {

/// The binary that runs an adapter: `gs` for `ghostscript`, else the
/// adapter's own name.
pub open spec fn binary_for(via: Seq<char>) -> Seq<char> {
    if via == "ghostscript"@ {
        "gs"@
    } else {
        via
    }
}

/// The binary that runs an adapter.
pub fn tool_binary(via: &str) -> (r: String)
    ensures
        r@ == binary_for(via@),
{
    if str_is(via, "ghostscript") {
        "gs".to_owned()
    } else {
        via.to_owned()
    }
}

/// A command to run: the binary, its arguments, and whether its progress
/// output is followed (ffmpeg's `-progress pipe:1`).
#[derive(Debug)]
pub struct ExternalCommand {
    pub bin: String,
    pub args: Vec<String>,
    pub with_progress: bool,
}

/// The directory that a tool writes into: the output's parent, else `.`.
pub open spec fn out_dir(output: Seq<char>) -> Seq<char> {
    match path_parent(output) {
        Some(p) => p,
        None => "."@,
    }
}

/// The arguments for an adapter converting `input` to `output` (as `to`).
pub open spec fn args_for(via: Seq<char>, to: Seq<char>, input: Seq<char>, output: Seq<char>) -> Seq<Seq<char>> {
    if via == "ffmpeg"@ {
        seq!["-y"@, "-hide_banner"@, "-nostats"@, "-progress"@, "pipe:1"@, "-i"@, input, output]
    } else if via == "magick"@ {
        seq![input, output]
    } else if via == "pandoc"@ {
        seq![input, "-o"@, output]
    } else if via == "libreoffice"@ {
        seq!["--headless"@, "--convert-to"@, to, "--outdir"@, out_dir(output), input]
    } else if via == "7z"@ {
        seq!["x"@, input, "-o"@ + out_dir(output)]
    } else {
        seq![input, output]
    }
}

/// Whether `c` is the command for the adapter `via`.
pub open spec fn command_for(via: Seq<char>, to: Seq<char>, input: Seq<char>, output: Seq<char>, c: ExternalCommand) -> bool {
    &&& c.bin@ == binary_for(via)
    &&& string_seq(c.args@) == args_for(via, to, input, output)
    &&& c.with_progress == (via == "ffmpeg"@)
}

fn strings(v: Vec<&str>) -> (r: Vec<String>)
    ensures
        string_seq(r@) == v@.map_values(|s: &str| s@),
{
    let mut r: Vec<String> = Vec::new();
    let mut i: usize = 0;
    while i < v.len()
        invariant
            i <= v.len(),
            string_seq(r@) == v@.map_values(|s: &str| s@).take(i as int),
        decreases v.len() - i,
    {
        let ghost before = r@;
        r.push(v[i].to_owned());
        assert(string_seq(r@) == string_seq(before).push(v@[i as int]@));
        assert(v@.map_values(|s: &str| s@).take(i + 1) == v@.map_values(|s: &str| s@).take(i as int).push(v@[i as int]@));
        i += 1;
    }
    assert(v@.map_values(|s: &str| s@).take(v.len() as int) == v@.map_values(|s: &str| s@));
    r
}

fn output_dir(output: &str) -> (r: String)
    ensures
        r@ == out_dir(output@),
{
    match parent_of(output) {
        Some(p) => p,
        None => ".".to_owned(),
    }
}

/// The command that converts `input` into `output` with the adapter `via`.
pub fn external_command(via: &str, to: &str, input: &str, output: &str) -> (c: ExternalCommand)
    ensures
        command_for(via@, to@, input@, output@, c),
{
    let bin = tool_binary(via);
    if str_is(via, "ffmpeg") {
        let args = strings(vec!["-y", "-hide_banner", "-nostats", "-progress", "pipe:1", "-i", input, output]);
        assert(string_seq(args@) =~= args_for(via@, to@, input@, output@));
        return ExternalCommand { bin, args, with_progress: true };
    }
    let args = if str_is(via, "magick") {
        let a = strings(vec![input, output]);
        assert(string_seq(a@) =~= args_for(via@, to@, input@, output@));
        a
    } else if str_is(via, "pandoc") {
        let a = strings(vec![input, "-o", output]);
        assert(string_seq(a@) =~= args_for(via@, to@, input@, output@));
        a
    } else if str_is(via, "libreoffice") {
        let dir = output_dir(output);
        let a = strings(vec!["--headless", "--convert-to", to, "--outdir", dir.as_str(), input]);
        assert(string_seq(a@) =~= args_for(via@, to@, input@, output@));
        a
    } else if str_is(via, "7z") {
        let mut o = String::new();
        push_str(&mut o, "-o");
        let dir = output_dir(output);
        push_str(&mut o, dir.as_str());
        let a = strings(vec!["x", input, o.as_str()]);
        assert(string_seq(a@) =~= args_for(via@, to@, input@, output@));
        a
    } else {
        let a = strings(vec![input, output]);
        assert(string_seq(a@) =~= args_for(via@, to@, input@, output@));
        a
    };
    ExternalCommand { bin, args, with_progress: false }
}

/// The error for a tool that is not installed (or could not be started).
pub fn tool_missing(tool: &str) -> (r: ConverterError)
    ensures
        r matches ConverterError::ToolMissing { tool: t, install_hint } && t@ == tool@
            && install_hint@ == install_hint_spec(tool@),
{
    ConverterError::ToolMissing { tool: tool.to_owned(), install_hint: install_hint_for(tool) }
}

/// The error for a tool that exited unsuccessfully with the given status text.
pub fn tool_failed(tool: &str, status: &str) -> (r: ConverterError)
    ensures
        r matches ConverterError::ToolFailed { tool: t, stderr } && t@ == tool@ && stderr@
            == "exit status "@ + status@,
{
    let mut s = String::new();
    push_str(&mut s, "exit status ");
    push_str(&mut s, status);
    ConverterError::ToolFailed { tool: tool.to_owned(), stderr: s }
}

/// What running a tool gives: `None` when it could not be started (the
/// tool is missing), else whether it exited successfully and its status text.
pub open spec fn tool_result(tool: Seq<char>, run: Option<(bool, Seq<char>)>, r: Result<(), ConverterError>) -> bool {
    match run {
        None => r matches Err(ConverterError::ToolMissing { tool: t, install_hint }) && t@ == tool
            && install_hint@ == install_hint_spec(tool),
        Some((true, _)) => r is Ok,
        Some((false, status)) => r matches Err(ConverterError::ToolFailed { tool: t, stderr }) && t@ == tool
            && stderr@ == "exit status "@ + status,
    }
}

/// The outcome of running `tool`: missing when it could not be started,
/// failed when it exited unsuccessfully.
pub fn tool_outcome(tool: &str, run: Option<(bool, String)>) -> (r: Result<(), ConverterError>)
    ensures
        tool_result(
            tool@,
            match run {
                Some((ok, st)) => Some((ok, st@)),
                None => None,
            },
            r,
        ),
{
    match run {
        None => Err(tool_missing(tool)),
        Some((true, _)) => Ok(()),
        Some((false, status)) => Err(tool_failed(tool, status.as_str())),
    }
}

/// A line without its trailing carriage return, if any.
pub open spec fn strip_cr(l: Seq<char>) -> Seq<char> {
    if l.len() > 0 && l.last() == '\r' {
        l.drop_last()
    } else {
        l
    }
}

/// The lines of a text as `str::lines` yields them: split at `\n` (a `\r`
/// before it removed), without an empty piece after a final `\n`.
pub open spec fn text_lines(t: Seq<char>) -> Seq<Seq<char>> {
    let pieces = split_on(t, '\n');
    let n = pieces.len();
    if t.len() == 0 {
        Seq::empty()
    } else if t.last() == '\n' {
        pieces.take(n - 1).map_values(|l: Seq<char>| strip_cr(l))
    } else {
        pieces.take(n - 1).map_values(|l: Seq<char>| strip_cr(l)).push(pieces[n - 1])
    }
}

/// The last (up to) five lines.
pub open spec fn last_five(lines: Seq<Seq<char>>) -> Seq<Seq<char>> {
    if lines.len() <= 5 {
        lines
    } else {
        lines.skip(lines.len() - 5)
    }
}

/// The `stderr` text of a failed ffmpeg run: the exit status, then the last
/// five lines that ffmpeg printed.
pub open spec fn ffmpeg_failure_text(status: Seq<char>, stderr: Seq<char>) -> Seq<char> {
    "exit "@ + status + "\n"@ + join(last_five(text_lines(stderr)), "\n"@)
}

fn text_lines_exec(t: &Vec<char>) -> (r: Vec<String>)
    ensures
        string_seq(r@) == text_lines(t@),
{
    let mut out: Vec<String> = Vec::new();
    if t.len() == 0 {
        assert(string_seq(out@) =~= text_lines(t@));
        return out;
    }
    let pieces = split_chars(t, '\n');
    let ghost p = split_on(t@, '\n');
    proof {
        lemma_split_on_len(t@, '\n');
    }
    let n = pieces.len();
    let mut i: usize = 0;
    while i + 1 < n
        invariant
            n == pieces@.len(),
            n >= 1,
            p == split_on(t@, '\n'),
            views(pieces@) == p,
            i < n,
            string_seq(out@) == p.take(i as int).map_values(|l: Seq<char>| strip_cr(l)),
        decreases n - i,
    {
        let piece = &pieces[i];
        assert(views(pieces@)[i as int] == piece@);
        let line = if piece.len() > 0 && piece[piece.len() - 1] == '\r' {
            assert(piece@.drop_last() == piece@.subrange(0, piece.len() - 1));
            slice_chars(piece, 0, piece.len() - 1)
        } else {
            assert(piece@.subrange(0, piece@.len() as int) == piece@);
            slice_chars(piece, 0, piece.len())
        };
        let ghost before = out@;
        out.push(string_from_chars(&line));
        assert(string_seq(out@) == string_seq(before).push(strip_cr(p[i as int])));
        assert(p.take(i + 1).map_values(|l: Seq<char>| strip_cr(l)) == p.take(i as int).map_values(|l: Seq<char>| strip_cr(l)).push(strip_cr(p[i as int])));
        i += 1;
    }
    if t[t.len() - 1] != '\n' {
        let ghost before = out@;
        assert(views(pieces@)[n - 1] == pieces@[n - 1]@);
        out.push(string_from_chars(&pieces[n - 1]));
        assert(string_seq(out@) == string_seq(before).push(p[n - 1]));
    }
    out
}

/// The error text of a failed ffmpeg run.
pub fn ffmpeg_failure(status: &str, stderr: &str) -> (r: String)
    ensures
        r@ == ffmpeg_failure_text(status@, stderr@),
{
    let lines = text_lines_exec(&chars_of(stderr));
    let ghost ls = string_seq(lines@);
    let mut tail: Vec<String> = Vec::new();
    let start: usize = if lines.len() <= 5 {
        0
    } else {
        lines.len() - 5
    };
    let mut i = start;
    while i < lines.len()
        invariant
            start <= i <= lines.len(),
            ls == string_seq(lines@),
            start == if lines.len() <= 5 { 0 } else { lines.len() - 5 },
            string_seq(tail@) == ls.subrange(start as int, i as int),
        decreases lines.len() - i,
    {
        let ghost before = tail@;
        tail.push(lines[i].clone());
        assert(string_seq(tail@) == string_seq(before).push(ls[i as int]));
        assert(ls.subrange(start as int, i + 1) == ls.subrange(start as int, i as int).push(ls[i as int]));
        i += 1;
    }
    assert(ls.subrange(start as int, lines.len() as int) == last_five(ls));
    let mut s = String::new();
    push_str(&mut s, "exit ");
    push_str(&mut s, status);
    push_str(&mut s, "\n");
    let joined = join_strings(&tail, "\n");
    push_str(&mut s, joined.as_str());
    s
}

/// What an ffmpeg run's progress reporting remembers: the total duration
/// once known, and the last percentage reported.
#[derive(Debug)]
pub struct ProgressTracker {
    pub total: Option<u64>,
    pub last_pct: Option<u32>,
}

/// The report line for `p` percent at `us` of `total` microseconds.
pub open spec fn progress_report(p: nat, us: nat, total: nat) -> Seq<char> {
    "omni: "@ + dec(p) + "% ("@ + hms(us) + "/"@ + hms(total) + ")"@
}

/// What one line of ffmpeg's progress output does, given the stderr text
/// printed so far: the tracker after it, and the report printed (if any).
/// A time fixes the total (the stderr's duration) if not yet known, and
/// reports a new whole percentage; the end reports 100%.
pub open spec fn progress_step(
    total: Option<u64>,
    last: Option<u32>,
    line: Seq<char>,
    stderr: Seq<char>,
    new_total: Option<u64>,
    new_last: Option<u32>,
    report: Option<Seq<char>>,
) -> bool {
    match progress_event(line) {
        Some(ProgressEvent::Time(us)) => {
            let t: Option<nat> = match total {
                Some(x) => Some(x as nat),
                None => duration_of(stderr),
            };
            &&& (match (t, new_total) {
                (Some(a), Some(b)) => a == b,
                (None, None) => true,
                _ => false,
            })
            &&& match t {
                Some(tt) => match percent_spec(us as nat, tt) {
                    Some(p) => if last == Some(p as u32) {
                        new_last == last && report is None
                    } else {
                        new_last == Some(p as u32) && report == Some(progress_report(p, us as nat, tt))
                    },
                    None => new_last == last && report is None,
                },
                None => new_last == last && report is None,
            }
        },
        Some(ProgressEvent::End) => new_total == total && new_last == last && report == Some(
            "omni: 100%"@,
        ),
        None => new_total == total && new_last == last && report is None,
    }
}

impl ProgressTracker {
    /// A tracker that knows nothing yet.
    pub fn new() -> (r: Self)
        ensures
            r.total is None,
            r.last_pct is None,
    {
        ProgressTracker { total: None, last_pct: None }
    }

    /// Takes one line of ffmpeg's `-progress` output, with the stderr text
    /// printed so far; returns the report to print, if any.
    pub fn on_line(&mut self, line: &str, stderr: &str) -> (r: Option<String>)
        ensures
            progress_step(
                old(self).total,
                old(self).last_pct,
                line@,
                stderr@,
                final(self).total,
                final(self).last_pct,
                match r {
                    Some(s) => Some(s@),
                    None => None,
                },
            ),
    {
        match parse_progress_line(line) {
            Some(ProgressEvent::Time(us)) => {
                if self.total.is_none() {
                    self.total = parse_duration(stderr);
                }
                match self.total {
                    Some(t) => match percent(us, t) {
                        Some(p) => {
                            if self.last_pct == Some(p) {
                                None
                            } else {
                                self.last_pct = Some(p);
                                let mut s = String::new();
                                push_str(&mut s, "omni: ");
                                push_dec(&mut s, p as u64);
                                push_str(&mut s, "% (");
                                let a = fmt_hms(us);
                                push_str(&mut s, a.as_str());
                                push_str(&mut s, "/");
                                let b = fmt_hms(t);
                                push_str(&mut s, b.as_str());
                                push_str(&mut s, ")");
                                Some(s)
                            }
                        },
                        None => None,
                    },
                    None => None,
                }
            },
            Some(ProgressEvent::End) => Some("omni: 100%".to_owned()),
            None => None,
        }
    }
}

/// Tools read the input and write the output in that order: magick takes
/// exactly `input output`, pandoc `input -o output`, ffmpeg ends with
/// `-i input output`, and every other adapter but libreoffice and 7z takes
/// the input first and the output last.
pub proof fn law_input_before_output(tool: Seq<char>, to: Seq<char>, input: Seq<char>, output: Seq<char>)
    ensures
        tool == "magick"@ ==> args_for(tool, to, input, output) == seq![input, output],
        tool == "pandoc"@ ==> args_for(tool, to, input, output) == seq![input, "-o"@, output],
        tool == "ffmpeg"@ ==> (args_for(tool, to, input, output).len() == 8
            && args_for(tool, to, input, output)[5] == "-i"@
            && args_for(tool, to, input, output)[6] == input
            && args_for(tool, to, input, output)[7] == output),
        tool != "ffmpeg"@ && tool != "libreoffice"@ && tool != "7z"@ ==> (args_for(tool, to, input, output).len() >= 2
            && args_for(tool, to, input, output)[0] == input
            && args_for(tool, to, input, output).last() == output),
{
    reveal_strlit("magick");
    reveal_strlit("pandoc");
    reveal_strlit("ffmpeg");
    reveal_strlit("libreoffice");
    reveal_strlit("7z");
    assert("magick"@[0] != "ffmpeg"@[0]);
    assert("pandoc"@[0] != "ffmpeg"@[0]);
    assert("pandoc"@[0] != "magick"@[0]);
}

} // verus!
