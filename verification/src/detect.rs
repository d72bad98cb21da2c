//! File type detection by content (magic bytes) first, extension as fallback.
use vstd::prelude::*;

use crate::formats::{all_formats, find_by_extension, format_for_extension, format_table, format_views, FormatView};
use crate::paths::{extension_of, path_extension};
use crate::serial::{image_guess, image_signature, infer_get, infer_type, json_parse, lossy_text, parse_json, parse_yaml, utf8_lossy, yaml_parse};
use crate::text::{
    chars_of, contains, contains_exec, has_char, has_char_exec, lowercase, push_str, split_chars,
    split_on, starts_with, starts_with_exec, to_lowercase, trim_start, views, lemma_split_on_len,
    is_ws_char, is_ws, ws_prefix_len, slice_chars, lemma_ws_prefix_len,
};

verus! {

/// What detection found: the format id, MIME type, confidence in percent
/// and how it was found.
#[derive(Debug)]
pub struct Detected {
    pub format_id: String,
    pub mime: String,
    pub confidence_pct: u32,
    pub method: String,
}

/// Whether a byte is a control character that plain text does not hold.
pub open spec fn is_nontext(b: u8) -> bool {
    b == 0 || b < 9 || (b > 13 && b < 32 && b != 27)
}

/// How many bytes of `s` are not text.
pub open spec fn nontext_count(s: Seq<u8>) -> nat
    decreases s.len(),
{
    if s.len() == 0 {
        0
    } else {
        nontext_count(s.drop_last()) + if is_nontext(s.last()) {
            1nat
        } else {
            0nat
        }
    }
}

/// The first `n` elements of `s`, or all of it.
pub open spec fn prefix<T>(s: Seq<T>, n: nat) -> Seq<T> {
    if s.len() <= n {
        s
    } else {
        s.take(n as int)
    }
}

/// Whether bytes look like text: empty, or fewer than one in twenty of
/// the first 4096 bytes are control characters.
pub open spec fn probably_text(b: Seq<u8>) -> bool {
    b.len() == 0 || 20 * nontext_count(prefix(b, 4096)) < prefix(b, 4096).len()
}

/// Whether bytes look like text.
pub fn is_probably_text(bytes: &Vec<u8>) -> (r: bool)
    ensures
        r == probably_text(bytes@),
{
    if bytes.len() == 0 {
        return true;
    }
    let n: usize = if bytes.len() <= 4096 {
        bytes.len()
    } else {
        4096
    };
    let ghost s = prefix(bytes@, 4096);
    assert(s == bytes@.take(n as int));
    let mut count: usize = 0;
    let mut i: usize = 0;
    while i < n
        invariant
            i <= n,
            n <= bytes.len(),
            n <= 4096,
            count <= i,
            count == nontext_count(bytes@.take(i as int)),
        decreases n - i,
    {
        assert(bytes@.take(i + 1).drop_last() == bytes@.take(i as int));
        let b = bytes[i];
        if b == 0 || b < 9 || (b > 13 && b < 32 && b != 27) {
            count += 1;
        }
        i += 1;
    }
    20 * count < n
}

/// The id of the format that a path's extension names.
pub open spec fn ext_format(path: Seq<char>) -> Option<Seq<char>> {
    match path_extension(path) {
        Some(e) => match format_for_extension(e) {
            Some(f) => Some(f.id),
            None => None,
        },
        None => None,
    }
}

fn ext_format_exec(path: &str) -> (r: Option<String>)
    ensures
        match r {
            Some(id) => ext_format(path@) == Some(id@),
            None => ext_format(path@) is None,
        },
{
    match extension_of(path) {
        Some(e) => match find_by_extension(e.as_str()) {
            Some(f) => Some(f.id),
            None => None,
        },
        None => None,
    }
}

/// The text head of a file: its first 2048 bytes, decoded lossily.
pub open spec fn head_text(bytes: Seq<u8>) -> Seq<char> {
    utf8_lossy(prefix(bytes, 2048))
}

/// What content sniffing names a file whose magic bytes said nothing
/// conclusive: JSON, HTML/XML, YAML or CSV by their look, then for text
/// the extension's format or Markdown or plain text, and for binary data
/// the extension's format or `bin`.
pub open spec fn sniff(path: Seq<char>, bytes: Seq<u8>) -> Seq<char> {
    let head = head_text(bytes);
    let t = trim_start(head);
    if (starts_with(t, seq!['{']) || starts_with(t, seq!['['])) && json_parse(head) is Ok {
        "json"@
    } else if starts_with(t, seq!['<']) {
        if contains(t, "<html"@) {
            "html"@
        } else {
            "xml"@
        }
    } else if (contains(t, "---"@) || contains(t, ": "@)) && yaml_parse(head) is Ok {
        "yaml"@
    } else if has_char(split_on(head, '\n')[0], ',') {
        "csv"@
    } else if probably_text(bytes) {
        match ext_format(path) {
            Some(id) => id,
            None => if contains(head, "# "@) || contains(head, "```"@) || contains(head, "[]("@) {
                "md"@
            } else {
                "txt"@
            },
        }
    } else {
        match ext_format(path) {
            Some(id) => id,
            None => "bin"@,
        }
    }
}

fn prefix_bytes(bytes: &Vec<u8>, n: usize) -> (r: Vec<u8>)
    ensures
        r@ == prefix(bytes@, n as nat),
{
    let m = if bytes.len() <= n {
        bytes.len()
    } else {
        n
    };
    let mut r: Vec<u8> = Vec::new();
    let mut i: usize = 0;
    while i < m
        invariant
            i <= m,
            m <= bytes.len(),
            r@ == bytes@.take(i as int),
        decreases m - i,
    {
        r.push(bytes[i]);
        assert(bytes@.take(i + 1) == bytes@.take(i as int).push(bytes@[i as int]));
        i += 1;
    }
    assert(bytes@.len() <= n ==> bytes@.take(m as int) == bytes@);
    r
}

fn trim_start_chars(v: &Vec<char>) -> (r: Vec<char>)
    ensures
        r@ == trim_start(v@),
{
    let mut lo: usize = 0;
    while lo < v.len() && is_ws_char(v[lo])
        invariant
            lo <= v.len(),
            forall|j: int| 0 <= j < lo ==> is_ws(#[trigger] v@[j]),
        decreases v.len() - lo,
    {
        lo += 1;
    }
    proof {
        lemma_ws_prefix_len(v@);
        crate::text::lemma_ws_prefix_at(v@, lo as int);
    }
    slice_chars(v, lo, v.len())
}

/// The format id that content sniffing gives.
pub fn sniff_text_or_binary(path: &str, bytes: &Vec<u8>) -> (r: String)
    ensures
        r@ == sniff(path@, bytes@),
{
    let head_bytes = prefix_bytes(bytes, 2048);
    let head = lossy_text(head_bytes.as_slice());
    let hv = chars_of(head.as_str());
    let t = trim_start_chars(&hv);
    let open_brace = vec!['{'];
    let open_bracket = vec!['['];
    let lt = vec!['<'];
    assert(open_brace@ == seq!['{']);
    assert(open_bracket@ == seq!['[']);
    assert(lt@ == seq!['<']);
    if (starts_with_exec(&t, &open_brace) || starts_with_exec(&t, &open_bracket)) && parse_json(
        head.as_str(),
    ).is_ok() {
        return "json".to_owned();
    }
    if starts_with_exec(&t, &lt) {
        if contains_exec(&t, &chars_of("<html")) {
            return "html".to_owned();
        }
        return "xml".to_owned();
    }
    if (contains_exec(&t, &chars_of("---")) || contains_exec(&t, &chars_of(": "))) && parse_yaml(
        head.as_str(),
    ).is_ok() {
        return "yaml".to_owned();
    }
    let lines = split_chars(&hv, '\n');
    proof {
        lemma_split_on_len(hv@, '\n');
        assert(views(lines@)[0] == lines@[0]@);
    }
    if has_char_exec(&lines[0], ',') {
        return "csv".to_owned();
    }
    if is_probably_text(bytes) {
        match ext_format_exec(path) {
            Some(id) => id,
            None => {
                if contains_exec(&hv, &chars_of("# ")) || contains_exec(&hv, &chars_of("```"))
                    || contains_exec(&hv, &chars_of("[](")) {
                    "md".to_owned()
                } else {
                    "txt".to_owned()
                }
            },
        }
    } else {
        match ext_format_exec(path) {
            Some(id) => id,
            None => "bin".to_owned(),
        }
    }
}

/// The first known format with the MIME type `mime`.
pub open spec fn first_with_mime(t: Seq<FormatView>, mime: Seq<char>) -> Option<FormatView>
    decreases t.len(),
{
    if t.len() == 0 {
        None
    } else if t[0].mime == mime {
        Some(t[0])
    } else {
        first_with_mime(t.drop_first(), mime)
    }
}

fn format_by_mime(mime: &String) -> (r: Option<String>)
    ensures
        match r {
            Some(id) => first_with_mime(format_table(), mime@) matches Some(f) && f.id == id@,
            None => first_with_mime(format_table(), mime@) is None,
        },
{
    let table = all_formats();
    let ghost t = format_table();
    let mut i: usize = 0;
    assert(t.skip(0) == t);
    while i < table.len()
        invariant
            i <= table.len(),
            format_views(table@) == t,
            t == format_table(),
            first_with_mime(t, mime@) == first_with_mime(t.skip(i as int), mime@),
        decreases table.len() - i,
    {
        assert(format_views(table@)[i as int] == table@[i as int]@);
        assert(t.skip(i as int)[0] == t[i as int]);
        assert(t.skip(i as int).drop_first() == t.skip(i + 1));
        if table[i].mime == *mime {
            return Some(table[i].id.clone());
        }
        i += 1;
    }
    assert(t.skip(i as int).len() == 0);
    None
}

/// Whether `d` holds the given id, MIME type, confidence and method.
pub open spec fn detected_as(d: Detected, id: Seq<char>, mime: Seq<char>, pct: nat, method: Seq<char>) -> bool {
    d.format_id@ == id && d.mime@ == mime && d.confidence_pct == pct && d.method@ == method
}

/// What `detect` finds: a signature known to `infer` with a known MIME type
/// (95%), one with another MIME type (70%, sniffed), an image signature with
/// a known extension (80%), else content sniffing (50%).
pub open spec fn detection(path: Seq<char>, bytes: Seq<u8>, d: Detected) -> bool {
    match infer_type(bytes) {
        Some((mime, ext)) => match first_with_mime(format_table(), mime) {
            Some(f) => detected_as(d, f.id, mime, 95, "magic-bytes:"@ + ext),
            None => detected_as(d, sniff(path, bytes), mime, 70, "magic-bytes+sniff"@),
        },
        None => {
            let e = lowercase(
                match path_extension(path) {
                    Some(x) => x,
                    None => "png"@,
                },
            );
            if image_signature(bytes) && format_for_extension(e) is Some {
                let f = format_for_extension(e)->0;
                detected_as(d, f.id, f.mime, 80, "image-sniff+extension"@)
            } else {
                detected_as(d, sniff(path, bytes), "text/plain"@, 50, "extension+content-sniff"@)
            }
        },
    }
}

/// Detects the type of the file at `path` holding `bytes`: by content
/// (magic bytes) first, the extension as fallback.
pub fn detect_bytes(path: &str, bytes: &Vec<u8>) -> (d: Detected)
    ensures
        detection(path@, bytes@, d),
{
    match infer_get(bytes.as_slice()) {
        Some((mime, ext)) => {
            match format_by_mime(&mime) {
                Some(id) => {
                    let mut method = String::new();
                    push_str(&mut method, "magic-bytes:");
                    push_str(&mut method, ext.as_str());
                    Detected { format_id: id, mime, confidence_pct: 95, method }
                },
                None => Detected {
                    format_id: sniff_text_or_binary(path, bytes),
                    mime,
                    confidence_pct: 70,
                    method: "magic-bytes+sniff".to_owned(),
                },
            }
        },
        None => {
            let ext = match extension_of(path) {
                Some(x) => to_lowercase(x.as_str()),
                None => to_lowercase("png"),
            };
            if image_guess(bytes.as_slice()) {
                match find_by_extension(ext.as_str()) {
                    Some(f) => {
                        return Detected {
                            format_id: f.id,
                            mime: f.mime,
                            confidence_pct: 80,
                            method: "image-sniff+extension".to_owned(),
                        };
                    },
                    None => {},
                }
            }
            Detected {
                format_id: sniff_text_or_binary(path, bytes),
                mime: "text/plain".to_owned(),
                confidence_pct: 50,
                method: "extension+content-sniff".to_owned(),
            }
        },
    }
}

/// Content beats extension: when no signature is recognized and the head
/// of the file looks like JSON and parses, the file is JSON, whatever its
/// name says.
pub proof fn law_json_content_beats_extension(path: Seq<char>, bytes: Seq<u8>, d: Detected)
    requires
        detection(path, bytes, d),
        infer_type(bytes) is None,
        !image_signature(bytes),
        starts_with(trim_start(head_text(bytes)), seq!['{']) || starts_with(
            trim_start(head_text(bytes)),
            seq!['['],
        ),
        json_parse(head_text(bytes)) is Ok,
    ensures
        d.format_id@ == "json"@,
{
}

/// Magic bytes come first: when `infer` recognizes a signature whose MIME
/// type is a known format's, the file is that format, with 95% confidence,
/// whatever its name; two names for the same bytes are detected alike.
pub proof fn law_magic_bytes_first(p1: Seq<char>, p2: Seq<char>, bytes: Seq<u8>, d1: Detected, d2: Detected)
    requires
        detection(p1, bytes, d1),
        detection(p2, bytes, d2),
        infer_type(bytes) matches Some((mime, _)) && first_with_mime(format_table(), mime) is Some,
    ensures
        d1.format_id@ == first_with_mime(format_table(), (infer_type(bytes)->0).0)->0.id,
        d1.confidence_pct == 95,
        d1.format_id@ == d2.format_id@,
        d1.mime@ == d2.mime@,
        d1.method@ == d2.method@,
{
}

/// A comma on the first line makes text CSV: when the head of the bytes is
/// neither JSON nor markup (it does not open with `<`) nor YAML, and a `,`
/// comes before its first line break, the content is sniffed as `csv`.
pub proof fn law_comma_first_line_is_csv(path: Seq<char>, bytes: Seq<u8>, k: int)
    requires
        0 <= k < head_text(bytes).len(),
        head_text(bytes)[k] == ',',
        forall|m: int| 0 <= m < k ==> head_text(bytes)[m] != '\n',
        json_parse(head_text(bytes)) is Err,
        !starts_with(trim_start(head_text(bytes)), seq!['<']),
        yaml_parse(head_text(bytes)) is Err,
    ensures
        sniff(path, bytes) == "csv"@,
{
    crate::text::lemma_split_on_first_has(head_text(bytes), '\n', k);
}

} // verus!
