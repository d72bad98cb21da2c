//! Native archives, no external tools: zip, tar, gz and 7z. A plain file
//! becomes a one-entry archive; an archive becomes a listing in text (a gz
//! file its decompressed bytes); an archive becomes another by repacking
//! its entries. Zip, tar and gz archives are read and written here as
//! bytes; 7z, whose crate works on paths, is packed where the files are.
use vstd::prelude::*;

use crate::error::ConverterError;
use crate::paths::{
    file_name_of, file_stem_of, has_parent_dir, is_absolute, path_file_name, path_file_stem,
    path_has_parent_dir, path_is_absolute,
};
use crate::text::{
    chars_of, dec, lemma_lex_asymmetric, lemma_lex_irreflexive, lemma_lex_total, lemma_lex_transitive, lex_less,
    lex_lt, push_char, push_chars, push_dec, push_str, str_is, string_from_chars,
};
use crate::adapters::native_text::{replace_all, replace_seq};

verus! {

/// The archive formats handled natively.
#[derive(Debug, Clone, Copy, PartialEq, Eq, Structural)]
pub enum ArchiveKind {
    Zip,
    Tar,
    Gz,
    SevenZ,
}

/// The archive kind a format id names.
pub open spec fn kind_of(f: Seq<char>) -> Option<ArchiveKind> {
    if f == "zip"@ {
        Some(ArchiveKind::Zip)
    } else if f == "tar"@ {
        Some(ArchiveKind::Tar)
    } else if f == "gz"@ {
        Some(ArchiveKind::Gz)
    } else if f == "7z"@ {
        Some(ArchiveKind::SevenZ)
    } else {
        None
    }
}

/// The archive kind a format id names, if any.
pub fn archive_kind(f: &str) -> (r: Option<ArchiveKind>)
    ensures
        r == kind_of(f@),
{
    if str_is(f, "zip") {
        Some(ArchiveKind::Zip)
    } else if str_is(f, "tar") {
        Some(ArchiveKind::Tar)
    } else if str_is(f, "gz") {
        Some(ArchiveKind::Gz)
    } else if str_is(f, "7z") {
        Some(ArchiveKind::SevenZ)
    } else {
        None
    }
}

/// Whether a format is an archive handled natively.
pub fn is_archive(f: &str) -> (r: bool)
    ensures
        r == (kind_of(f@) is Some),
{
    archive_kind(f).is_some()
}

/// The name an input file is stored under: its file name, else `file`.
pub open spec fn stored_name(input: Seq<char>) -> Seq<char> {
    match path_file_name(input) {
        Some(n) => n,
        None => "file"@,
    }
}

/// The file name of a path, or `file`.
pub fn file_name(input: &str) -> (r: String)
    ensures
        r@ == stored_name(input@),
{
    match file_name_of(input) {
        Some(n) => n,
        None => "file".to_owned(),
    }
}

/// The name a gz file's content is unpacked under: its file stem, else `content`.
pub open spec fn gz_entry_name(input: Seq<char>) -> Seq<char> {
    match path_file_stem(input) {
        Some(n) => n,
        None => "content"@,
    }
}

/// The file stem of a gz input, or `content`.
pub fn gz_stem(input: &str) -> (r: String)
    ensures
        r@ == gz_entry_name(input@),
{
    match file_stem_of(input) {
        Some(n) => n,
        None => "content".to_owned(),
    }
}

/// What `safe_name` gives: entry names that are absolute or climb out with
/// `..` are refused; others have `\` turned into `/`, and must not be empty.
pub open spec fn safe_name_spec(raw: Seq<char>) -> Option<Seq<char>> {
    if path_is_absolute(raw) || path_has_parent_dir(raw) {
        None
    } else {
        let s = replace_seq(raw, seq!['\\'], seq!['/']);
        if s.len() == 0 {
            None
        } else {
            Some(s)
        }
    }
}

/// The name an archive entry is unpacked under, when it is safe to.
pub fn safe_name(raw: &str) -> (r: Option<String>)
    ensures
        match r {
            Some(s) => safe_name_spec(raw@) == Some(s@),
            None => safe_name_spec(raw@) is None,
        },
{
    if is_absolute(raw) || has_parent_dir(raw) {
        return None;
    }
    let v = chars_of(raw);
    let bs = vec!['\\'];
    let sl = vec!['/'];
    assert(bs@ == seq!['\\']);
    assert(sl@ == seq!['/']);
    let s = replace_all(&v, &bs, &sl);
    if s.len() == 0 {
        None
    } else {
        let mut out = String::new();
        push_chars(&mut out, &s);
        Some(out)
    }
}

/// One line of a listing.
pub open spec fn listing_line(name: Seq<char>, size: nat) -> Seq<char> {
    "- "@ + name + " ("@ + dec(size) + " bytes)\n"@
}

/// The lines of a listing.
pub open spec fn listing_lines(entries: Seq<(Seq<char>, nat)>) -> Seq<char>
    decreases entries.len(),
{
    if entries.len() == 0 {
        Seq::empty()
    } else {
        listing_lines(entries.drop_last()) + listing_line(entries.last().0, entries.last().1)
    }
}

/// The characters and sizes of a list of entries.
pub open spec fn entry_list(entries: Seq<(String, u64)>) -> Seq<(Seq<char>, nat)> {
    entries.map_values(|e: (String, u64)| (e.0@, e.1 as nat))
}

/// What `listing` writes: a heading, then one line per entry.
pub open spec fn listing_spec(entries: Seq<(String, u64)>) -> Seq<char> {
    "Archive contents:\n"@ + listing_lines(entry_list(entries))
}

/// The text listing of archive entries with their sizes in bytes.
pub fn listing(entries: &Vec<(String, u64)>) -> (r: String)
    ensures
        r@ == listing_spec(entries@),
{
    let ghost es = entry_list(entries@);
    let mut s = String::new();
    push_str(&mut s, "Archive contents:\n");
    let mut i: usize = 0;
    while i < entries.len()
        invariant
            i <= entries.len(),
            es == entry_list(entries@),
            s@ == "Archive contents:\n"@ + listing_lines(es.take(i as int)),
        decreases entries.len() - i,
    {
        let ghost before = s@;
        push_str(&mut s, "- ");
        push_str(&mut s, entries[i].0.as_str());
        push_str(&mut s, " (");
        push_dec(&mut s, entries[i].1);
        push_str(&mut s, " bytes)\n");
        assert(es.take(i + 1).drop_last() == es.take(i as int));
        assert(es.take(i + 1).last() == (entries@[i as int].0@, entries@[i as int].1 as nat));
        assert(s@ == before + listing_line(entries@[i as int].0@, entries@[i as int].1 as nat));
        i += 1;
    }
    assert(es.take(entries.len() as int) == es);
    s
}

/// The order of listed entries, as `(String, u64)` tuples compare: by
/// name, then by size.
pub open spec fn entry_before(a: (Seq<char>, nat), b: (Seq<char>, nat)) -> bool {
    lex_lt(a.0, b.0) || (a.0 == b.0 && a.1 < b.1)
}

/// Whether listed entries are in order.
pub open spec fn entries_sorted(s: Seq<(Seq<char>, nat)>) -> bool {
    forall|i: int, j: int| 0 <= i < j < s.len() ==> !entry_before(#[trigger] s[j], #[trigger] s[i])
}

/// A listed entry with its path's separators written as `/`.
pub open spec fn slashed(e: (Seq<char>, nat)) -> (Seq<char>, nat) {
    (replace_seq(e.0, seq!['\\'], seq!['/']), e.1)
}

proof fn lemma_before_order(a: (Seq<char>, nat), b: (Seq<char>, nat), c: (Seq<char>, nat))
    ensures
        !entry_before(a, a),
        entry_before(a, b) ==> !entry_before(b, a),
        entry_before(a, b) && entry_before(b, c) ==> entry_before(a, c),
        a == b || entry_before(a, b) || entry_before(b, a),
{
    lemma_lex_irreflexive(a.0);
    lemma_lex_total(a.0, b.0);
    if lex_lt(a.0, b.0) {
        lemma_lex_asymmetric(a.0, b.0);
    }
    if lex_lt(a.0, b.0) && lex_lt(b.0, c.0) {
        lemma_lex_transitive(a.0, b.0, c.0);
    }
}

fn before_exec(a: &(String, u64), b: &(String, u64)) -> (r: bool)
    ensures
        r == entry_before((a.0@, a.1 as nat), (b.0@, b.1 as nat)),
{
    let x = chars_of(a.0.as_str());
    let y = chars_of(b.0.as_str());
    lex_less(&x, &y) || (str_is(a.0.as_str(), b.0.as_str()) && a.1 < b.1)
}

/// The listing of entries found on disk: each path with `\\` written as `/`,
/// the entries sorted by name, then size.
pub fn sorted_listing(entries: &Vec<(String, u64)>) -> (r: Vec<(String, u64)>)
    ensures
        entries_sorted(entry_list(r@)),
        entry_list(r@).to_multiset() == entry_list(entries@).map_values(|e: (Seq<char>, nat)| slashed(e)).to_multiset(),
{
    let ghost target = entry_list(entries@).map_values(|e: (Seq<char>, nat)| slashed(e));
    let mut out: Vec<(String, u64)> = Vec::new();
    let back: Vec<char> = vec!['\\'];
    let fwd: Vec<char> = vec!['/'];
    let mut i: usize = 0;
    assert(entry_list(out@).to_multiset() =~= target.take(0).to_multiset()) by {
        assert(entry_list(out@) =~= target.take(0));
    }
    while i < entries.len()
        invariant
            i <= entries.len(),
            target == entry_list(entries@).map_values(|e: (Seq<char>, nat)| slashed(e)),
            back@ == seq!['\\'],
            fwd@ == seq!['/'],
            entries_sorted(entry_list(out@)),
            entry_list(out@).to_multiset() == target.take(i as int).to_multiset(),
        decreases entries.len() - i,
    {
        let name = string_from_chars(&replace_all(&chars_of(entries[i].0.as_str()), &back, &fwd));
        let x = (name, entries[i].1);
        let ghost xv = (x.0@, x.1 as nat);
        assert(xv == target[i as int]);
        let ghost old_list = entry_list(out@);
        let mut p: usize = 0;
        while p < out.len() && !before_exec(&x, &out[p])
            invariant
                p <= out.len(),
                old_list == entry_list(out@),
                xv == (x.0@, x.1 as nat),
                forall|m: int| 0 <= m < p ==> !entry_before(xv, #[trigger] old_list[m]),
            decreases out.len() - p,
        {
            p += 1;
        }
        out.insert(p, x);
        proof {
            let nl = old_list.insert(p as int, xv);
            assert(entry_list(out@) =~= nl);
            assert forall|a: int, b: int| 0 <= a < b < nl.len() implies !entry_before(#[trigger] nl[b], #[trigger] nl[a]) by {
                if b < p {
                    assert(nl[a] == old_list[a] && nl[b] == old_list[b]);
                } else if a > p {
                    assert(nl[a] == old_list[a - 1] && nl[b] == old_list[b - 1]);
                } else if a == p {
                    assert(nl[b] == old_list[b - 1]);
                    assert(entry_before(xv, old_list[p as int]));
                    lemma_before_order(nl[b], xv, old_list[p as int]);
                    lemma_before_order(xv, old_list[p as int], nl[b]);
                    if b - 1 > p {
                        assert(!entry_before(old_list[b - 1], old_list[p as int]));
                    }
                    lemma_before_order(old_list[b - 1], old_list[p as int], old_list[b - 1]);
                } else if b == p {
                    assert(nl[a] == old_list[a]);
                    assert(!entry_before(xv, old_list[a]));
                } else {
                    assert(nl[a] == old_list[a] && nl[b] == old_list[b - 1]);
                }
            }
            vstd::seq_lib::to_multiset_insert(old_list, p as int, xv);
            assert(target.take(i + 1) =~= target.take(i as int).push(xv));
            vstd::seq_lib::to_multiset_build(target.take(i as int), xv);
        }
        i += 1;
    }
    assert(target.take(entries.len() as int) =~= target);
    out
}

/// What an archive conversion does.
#[derive(Debug, Clone, PartialEq, Eq)]
pub enum ArchivePlan {
    /// Same format: copy the input.
    CopyInput,
    /// Bundle the plain input file into a one-entry archive.
    PackSingle(ArchiveKind),
    /// Decompress a gz file into the text output.
    Gunzip,
    /// Unpack an archive and write the listing of its entries.
    List(ArchiveKind),
    /// Unpack an archive and pack its entries as the target format.
    Repack(ArchiveKind, String),
}

/// What `plan` decides for `from -> to`.
pub open spec fn archive_plan_spec(from: Seq<char>, to: Seq<char>, r: Result<ArchivePlan, ConverterError>) -> bool {
    if from == to {
        r == Ok::<ArchivePlan, ConverterError>(ArchivePlan::CopyInput)
    } else if kind_of(from) is None && kind_of(to) is None {
        r matches Err(ConverterError::Parse(m)) && m@ == "native_archive cannot do "@ + from + "->"@ + to
    } else if kind_of(from) is None {
        r == Ok::<ArchivePlan, ConverterError>(ArchivePlan::PackSingle(kind_of(to)->0))
    } else if to == "txt"@ {
        if from == "gz"@ {
            r == Ok::<ArchivePlan, ConverterError>(ArchivePlan::Gunzip)
        } else {
            r == Ok::<ArchivePlan, ConverterError>(ArchivePlan::List(kind_of(from)->0))
        }
    } else {
        r matches Ok(ArchivePlan::Repack(k, t)) && k == kind_of(from)->0 && t@ == to
    }
}

/// Decides what an archive conversion `from -> to` does.
pub fn plan(from: &str, to: &str) -> (r: Result<ArchivePlan, ConverterError>)
    ensures
        archive_plan_spec(from@, to@, r),
{
    if str_is(from, to) {
        return Ok(ArchivePlan::CopyInput);
    }
    let fk = archive_kind(from);
    let tk = archive_kind(to);
    match (fk, tk) {
        (None, None) => {
            let mut m = String::new();
            push_str(&mut m, "native_archive cannot do ");
            push_str(&mut m, from);
            push_str(&mut m, "->");
            push_str(&mut m, to);
            Err(ConverterError::Parse(m))
        },
        (None, Some(k)) => Ok(ArchivePlan::PackSingle(k)),
        (Some(k), _) => {
            if str_is(to, "txt") {
                if str_is(from, "gz") {
                    Ok(ArchivePlan::Gunzip)
                } else {
                    Ok(ArchivePlan::List(k))
                }
            } else {
                Ok(ArchivePlan::Repack(k, to.to_owned()))
            }
        },
    }
}

/// The archive kind to pack as, or why `to` cannot be written.
pub open spec fn emit_spec(to: Seq<char>, r: Result<ArchiveKind, ConverterError>) -> bool {
    match kind_of(to) {
        Some(k) => r == Ok::<ArchiveKind, ConverterError>(k),
        None => r matches Err(ConverterError::Parse(m)) && m@ == "native_archive cannot emit "@ + to,
    }
}

/// The archive kind to pack as `to`.
pub fn emit_kind(to: &str) -> (r: Result<ArchiveKind, ConverterError>)
    ensures
        emit_spec(to@, r),
{
    match archive_kind(to) {
        Some(k) => Ok(k),
        None => {
            let mut m = String::new();
            push_str(&mut m, "native_archive cannot emit ");
            push_str(&mut m, to);
            Err(ConverterError::Parse(m))
        },
    }
}

/// The entries that `zip::ZipArchive` finds in an archive held in bytes, in
/// the archive's order: each name and whether it is a file (not a
/// directory); or the first error's text, from opening the archive, from
/// `by_index` or from `name`.
pub uninterp spec fn zip_entries(b: Seq<u8>) -> Result<Seq<(Seq<char>, bool)>, Seq<char>>;

/// What reading the entry at `i` of a zip archive held in bytes gives: the
/// archive's error text (opening it or `by_index`), or the result of
/// reading the entry, its bytes or the read error's text.
pub uninterp spec fn zip_entry_data(b: Seq<u8>, i: nat) -> Result<Result<Seq<u8>, Seq<char>>, Seq<char>>;

/// The entries that the `tar` crate reads from an archive held in bytes, in
/// the archive's order: each path (as `to_string_lossy` writes it), whether
/// it is a regular file and its bytes; or the first error's text.
pub uninterp spec fn tar_read(b: Seq<u8>) -> Result<Seq<(Seq<char>, bool, Seq<u8>)>, Seq<char>>;

/// What `flate2`'s `GzDecoder` reads from bytes: the decompressed bytes, or
/// the error's text.
pub uninterp spec fn gz_decoded(b: Seq<u8>) -> Result<Seq<u8>, Seq<char>>;

/// What a `zip::ZipWriter` (deflated entries) writes for named files, in
/// order, each entry stamped with the modification time `stamp` (year,
/// month, day, hour, minute, second): the archive's bytes, or the first
/// error's text (a stamp out of the MS-DOS range is such an error).
pub uninterp spec fn zip_written(files: Seq<(Seq<char>, Seq<u8>)>, stamp: (u16, u8, u8, u8, u8, u8)) -> Result<Seq<u8>, Seq<char>>;

/// What a `tar::Builder` writes for named files, in order (GNU headers,
/// mode 644): the archive's bytes, or the first error's text.
pub uninterp spec fn tar_written(files: Seq<(Seq<char>, Seq<u8>)>) -> Result<Seq<u8>, Seq<char>>;

/// What `flate2`'s `GzEncoder` (default compression) writes for bytes.
pub uninterp spec fn gz_written(b: Seq<u8>) -> Result<Seq<u8>, Seq<char>>;

/// The characters of unpacked entries.
pub open spec fn entries_view(v: Seq<(String, bool, Vec<u8>)>) -> Seq<(Seq<char>, bool, Seq<u8>)> {
    v.map_values(|e: (String, bool, Vec<u8>)| (e.0@, e.1, e.2@))
}

/// The characters of named files.
pub open spec fn files_view(v: Seq<(String, Vec<u8>)>) -> Seq<(Seq<char>, Seq<u8>)> {
    v.map_values(|e: (String, Vec<u8>)| (e.0@, e.1@))
}

/// The names and kinds of entries in a zip archive.
pub open spec fn names_view(v: Seq<(String, bool)>) -> Seq<(Seq<char>, bool)> {
    v.map_values(|e: (String, bool)| (e.0@, e.1))
}

/// Opens the archive with `zip::ZipArchive::new` and takes, for each index,
/// `by_index`, its `name` and `is_dir`. Claimed: the result is what
/// `zip_entries` names for these bytes.
#[verifier::external_body]
fn zip_names(data: &[u8]) -> (r: Result<Vec<(String, bool)>, String>)
    ensures
        match r {
            Ok(v) => zip_entries(data@) == Ok::<Seq<(Seq<char>, bool)>, Seq<char>>(names_view(v@)),
            Err(m) => zip_entries(data@) == Err::<Seq<(Seq<char>, bool)>, Seq<char>>(m@),
        },
{
    let mut zip = zip::ZipArchive::new(std::io::Cursor::new(data)).map_err(|e| e.to_string())?;
    let mut out = Vec::new();
    for i in 0..zip.len() {
        let f = zip.by_index(i).map_err(|e| e.to_string())?;
        out.push((f.name().map_err(|e| e.to_string())?.to_string(), !f.is_dir()));
    }
    Ok(out)
}

/// Opens the archive with `zip::ZipArchive::new`, takes the entry `i` with
/// `by_index` and reads it to the end. Claimed: the result is what
/// `zip_entry_data` names for these bytes and this index.
#[verifier::external_body]
fn zip_entry_bytes(data: &[u8], i: usize) -> (r: Result<Result<Vec<u8>, String>, String>)
    ensures
        match r {
            Ok(Ok(b)) => zip_entry_data(data@, i as nat) == Ok::<Result<Seq<u8>, Seq<char>>, Seq<char>>(Ok(b@)),
            Ok(Err(m)) => zip_entry_data(data@, i as nat) == Ok::<Result<Seq<u8>, Seq<char>>, Seq<char>>(Err(m@)),
            Err(m) => zip_entry_data(data@, i as nat) == Err::<Result<Seq<u8>, Seq<char>>, Seq<char>>(m@),
        },
{
    let mut zip = zip::ZipArchive::new(std::io::Cursor::new(data)).map_err(|e| e.to_string())?;
    let mut f = zip.by_index(i).map_err(|e| e.to_string())?;
    let mut bytes = Vec::new();
    Ok(std::io::Read::read_to_end(&mut f, &mut bytes).map(|_| bytes).map_err(|e| e.to_string()))
}

/// Walks `tar::Archive::entries` over the bytes, taking each entry's
/// `path` (through `to_string_lossy`), whether its header's type is a file,
/// and its bytes. Claimed: the result is what `tar_read` names for these
/// bytes.
#[verifier::external_body]
fn read_tar(data: &[u8]) -> (r: Result<Vec<(String, bool, Vec<u8>)>, String>)
    ensures
        match r {
            Ok(v) => tar_read(data@) == Ok::<Seq<(Seq<char>, bool, Seq<u8>)>, Seq<char>>(entries_view(v@)),
            Err(m) => tar_read(data@) == Err::<Seq<(Seq<char>, bool, Seq<u8>)>, Seq<char>>(m@),
        },
{
    let mut ar = tar::Archive::new(std::io::Cursor::new(data.to_vec()));
    let mut out = Vec::new();
    for entry in ar.entries().map_err(|e| e.to_string())? {
        let mut entry = entry.map_err(|e| e.to_string())?;
        let name = entry.path().map_err(|e| e.to_string())?.to_string_lossy().to_string();
        let is_file = entry.header().entry_type().is_file();
        let mut bytes = Vec::new();
        std::io::Read::read_to_end(&mut entry, &mut bytes).map_err(|e| e.to_string())?;
        out.push((name, is_file, bytes));
    }
    Ok(out)
}

/// Reads the bytes through `flate2::read::GzDecoder` to the end. Claimed:
/// the result is what `gz_decoded` names for these bytes.
#[verifier::external_body]
fn gunzip_bytes(data: &[u8]) -> (r: Result<Vec<u8>, String>)
    ensures
        match r {
            Ok(b) => gz_decoded(data@) == Ok::<Seq<u8>, Seq<char>>(b@),
            Err(m) => gz_decoded(data@) == Err::<Seq<u8>, Seq<char>>(m@),
        },
{
    let mut dec = flate2::read::GzDecoder::new(data);
    let mut bytes = Vec::new();
    std::io::Read::read_to_end(&mut dec, &mut bytes).map_err(|e| e.to_string())?;
    Ok(bytes)
}

/// Writes named files into a zip archive with `zip::ZipWriter`, each entry
/// deflated and stamped with `stamp` through `zip::DateTime::from_date_and_time`
/// and `last_modified_time`. Claimed: the result is what `zip_written` names
/// for these files and this stamp; the bytes themselves are not described.
#[verifier::external_body]
fn write_zip(files: &Vec<(String, Vec<u8>)>, stamp: (u16, u8, u8, u8, u8, u8)) -> (r: Result<Vec<u8>, String>)
    ensures
        match r {
            Ok(b) => zip_written(files_view(files@), stamp) == Ok::<Seq<u8>, Seq<char>>(b@),
            Err(m) => zip_written(files_view(files@), stamp) == Err::<Seq<u8>, Seq<char>>(m@),
        },
{
    let (y, mo, d, h, mi, se) = stamp;
    let when = zip::DateTime::from_date_and_time(y, mo, d, h, mi, se).map_err(|e| e.to_string())?;
    let mut zip = zip::ZipWriter::new(std::io::Cursor::new(Vec::new()));
    let opts = zip::write::SimpleFileOptions::default()
        .compression_method(zip::CompressionMethod::Deflated)
        .last_modified_time(when);
    for (name, data) in files {
        zip.start_file(name.as_str(), opts).map_err(|e| e.to_string())?;
        std::io::Write::write_all(&mut zip, data).map_err(|e| e.to_string())?;
    }
    Ok(zip.finish().map_err(|e| e.to_string())?.into_inner())
}

/// Appends each named file to a `tar::Builder` under a GNU header with
/// its size, mode 644 and modification time 0, then takes the bytes with
/// `into_inner`. Claimed: the result is what `tar_written` names for these
/// files.
#[verifier::external_body]
fn write_tar(files: &Vec<(String, Vec<u8>)>) -> (r: Result<Vec<u8>, String>)
    ensures
        match r {
            Ok(b) => tar_written(files_view(files@)) == Ok::<Seq<u8>, Seq<char>>(b@),
            Err(m) => tar_written(files_view(files@)) == Err::<Seq<u8>, Seq<char>>(m@),
        },
{
    let mut tar = tar::Builder::new(Vec::new());
    for (name, data) in files {
        let mut header = tar::Header::new_gnu();
        header.set_size(data.len() as u64);
        header.set_mode(0o644);
        header.set_cksum();
        tar.append_data(&mut header, name.as_str(), data.as_slice()).map_err(|e| e.to_string())?;
    }
    tar.into_inner().map_err(|e| e.to_string())
}

/// Writes the bytes through `flate2::write::GzEncoder` at the default
/// compression and finishes it. Claimed: the result is what `gz_written`
/// names for these bytes.
#[verifier::external_body]
fn gzip_bytes(data: &[u8]) -> (r: Result<Vec<u8>, String>)
    ensures
        match r {
            Ok(b) => gz_written(data@) == Ok::<Seq<u8>, Seq<char>>(b@),
            Err(m) => gz_written(data@) == Err::<Seq<u8>, Seq<char>>(m@),
        },
{
    let mut enc = flate2::write::GzEncoder::new(Vec::new(), flate2::Compression::default());
    std::io::Write::write_all(&mut enc, data).map_err(|e| e.to_string())?;
    enc.finish().map_err(|e| e.to_string())
}

/// The entries kept for unpacking: those whose name is safe, under their
/// safe name, in order.
pub open spec fn kept_entries(es: Seq<(Seq<char>, bool, Seq<u8>)>) -> Seq<(Seq<char>, bool, Seq<u8>)>
    decreases es.len(),
{
    if es.len() == 0 {
        Seq::empty()
    } else {
        let rest = kept_entries(es.drop_last());
        let e = es.last();
        match safe_name_spec(e.0) {
            Some(n) => rest.push((n, e.1, e.2)),
            None => rest,
        }
    }
}

fn keep_safe(es: &Vec<(String, bool, Vec<u8>)>) -> (r: Vec<(String, bool, Vec<u8>)>)
    ensures
        entries_view(r@) == kept_entries(entries_view(es@)),
{
    let ghost v = entries_view(es@);
    let mut out: Vec<(String, bool, Vec<u8>)> = Vec::new();
    let mut i: usize = 0;
    while i < es.len()
        invariant
            i <= es.len(),
            v == entries_view(es@),
            entries_view(out@) == kept_entries(v.take(i as int)),
        decreases es.len() - i,
    {
        assert(v.take(i + 1).drop_last() == v.take(i as int));
        assert(v.take(i + 1).last() == (es@[i as int].0@, es@[i as int].1, es@[i as int].2@));
        match safe_name(es[i].0.as_str()) {
            Some(n) => {
                let ghost before = out@;
                out.push((n, es[i].1, es[i].2.clone()));
                assert(entries_view(out@) =~= entries_view(before).push((out@[before.len() as int].0@, es@[i as int].1, es@[i as int].2@)));
            },
            None => {},
        }
        i += 1;
    }
    assert(v.take(es.len() as int) == v);
    out
}

/// What unpacking the first `n` entries `names` of the zip archive `b`
/// gives: the entries kept, a safe name each, with a file's bytes (a
/// directory's are empty); or the first error, `(true, text)` for a failed
/// read, `(false, text)` for the archive's own error. Entries with an unsafe
/// name, and directories, are never read.
pub open spec fn zip_gather(b: Seq<u8>, names: Seq<(Seq<char>, bool)>, n: int) -> Result<Seq<(Seq<char>, bool, Seq<u8>)>, (bool, Seq<char>)>
    decreases n,
{
    if n <= 0 {
        Ok(Seq::empty())
    } else {
        match zip_gather(b, names, n - 1) {
            Err(e) => Err(e),
            Ok(acc) => match safe_name_spec(names[n - 1].0) {
                None => Ok(acc),
                Some(s) => if !names[n - 1].1 {
                    Ok(acc.push((s, false, Seq::<u8>::empty())))
                } else {
                    match zip_entry_data(b, (n - 1) as nat) {
                        Ok(Ok(d)) => Ok(acc.push((s, true, d))),
                        Ok(Err(m)) => Err((true, m)),
                        Err(m) => Err((false, m)),
                    }
                },
            },
        }
    }
}

/// Once unpacking a zip archive fails, it fails the same way whatever
/// entries follow.
proof fn lemma_gather_err(b: Seq<u8>, names: Seq<(Seq<char>, bool)>, n: int, m: int)
    requires
        n <= m,
        zip_gather(b, names, n) is Err,
    ensures
        zip_gather(b, names, m) == zip_gather(b, names, n),
    decreases m - n,
{
    if n < m {
        lemma_gather_err(b, names, n, m - 1);
    }
}

/// Unpacks the entries `names` of the zip archive `data`, reading only the
/// files kept.
fn gather_zip(data: &Vec<u8>, names: &Vec<(String, bool)>) -> (r: Result<Vec<(String, bool, Vec<u8>)>, ConverterError>)
    ensures
        match zip_gather(data@, names_view(names@), names@.len() as int) {
            Ok(es) => r matches Ok(v) && entries_view(v@) == es,
            Err((true, e)) => r matches Err(ConverterError::Io(m)) && m@ == e,
            Err((false, e)) => r matches Err(ConverterError::Zip(m)) && m@ == e,
        },
{
    let ghost nv = names_view(names@);
    let mut out: Vec<(String, bool, Vec<u8>)> = Vec::new();
    assert(entries_view(out@) =~= Seq::<(Seq<char>, bool, Seq<u8>)>::empty());
    let mut i: usize = 0;
    while i < names.len()
        invariant
            i <= names.len(),
            nv == names_view(names@),
            zip_gather(data@, nv, i as int) == Ok::<Seq<(Seq<char>, bool, Seq<u8>)>, (bool, Seq<char>)>(entries_view(out@)),
        decreases names.len() - i,
    {
        assert(nv[i as int] == (names@[i as int].0@, names@[i as int].1));
        match safe_name(names[i].0.as_str()) {
            Some(n) => {
                let ghost before = out@;
                if names[i].1 {
                    match zip_entry_bytes(data.as_slice(), i) {
                        Ok(Ok(b)) => {
                            let ghost bv = b@;
                            out.push((n, true, b));
                            assert(entries_view(out@) =~= entries_view(before).push((out@[before.len() as int].0@, true, bv)));
                        },
                        Ok(Err(m)) => {
                            proof {
                                lemma_gather_err(data@, nv, i + 1, names@.len() as int);
                            }
                            return Err(ConverterError::Io(m));
                        },
                        Err(m) => {
                            proof {
                                lemma_gather_err(data@, nv, i + 1, names@.len() as int);
                            }
                            return Err(ConverterError::Zip(m));
                        },
                    }
                } else {
                    out.push((n, false, Vec::new()));
                    assert(entries_view(out@) =~= entries_view(before).push((out@[before.len() as int].0@, false, Seq::<u8>::empty())));
                }
            },
            None => {},
        }
        i += 1;
    }
    Ok(out)
}

/// What unpacking the archive bytes `b` of the input `input` gives: the
/// entries kept (a gz file is one file named after the input's stem), or
/// the reading error.
pub open spec fn unpack_result(
    kind: ArchiveKind,
    input: Seq<char>,
    b: Seq<u8>,
    r: Result<Vec<(String, bool, Vec<u8>)>, ConverterError>,
) -> bool {
    match kind {
        ArchiveKind::Zip => match zip_entries(b) {
            Ok(names) => match zip_gather(b, names, names.len() as int) {
                Ok(es) => r matches Ok(v) && entries_view(v@) == es,
                Err((true, e)) => r matches Err(ConverterError::Io(m)) && m@ == e,
                Err((false, e)) => r matches Err(ConverterError::Zip(m)) && m@ == e,
            },
            Err(e) => r matches Err(ConverterError::Zip(m)) && m@ == e,
        },
        ArchiveKind::Tar => match tar_read(b) {
            Ok(es) => r matches Ok(v) && entries_view(v@) == kept_entries(es),
            Err(e) => r matches Err(ConverterError::Parse(m)) && m@ == e,
        },
        _ => match gz_decoded(b) {
            Ok(d) => r matches Ok(v) && entries_view(v@) == seq![(gz_entry_name(input), true, d)],
            Err(e) => r matches Err(ConverterError::Parse(m)) && m@ == "invalid gzip "@ + input + ": "@ + e,
        },
    }
}

/// Unpacks the bytes `data` of the archive `input` (zip, tar or gz).
pub fn unpack(kind: ArchiveKind, input: &str, data: &Vec<u8>) -> (r: Result<Vec<(String, bool, Vec<u8>)>, ConverterError>)
    requires
        kind != ArchiveKind::SevenZ,
    ensures
        unpack_result(kind, input@, data@, r),
{
    match kind {
        ArchiveKind::Zip => match zip_names(data.as_slice()) {
            Ok(names) => gather_zip(data, &names),
            Err(m) => Err(ConverterError::Zip(m)),
        },
        ArchiveKind::Tar => match read_tar(data.as_slice()) {
            Ok(es) => Ok(keep_safe(&es)),
            Err(m) => Err(ConverterError::Parse(m)),
        },
        _ => match gunzip_bytes(data.as_slice()) {
            Ok(d) => {
                let ghost dv = d@;
                let mut v: Vec<(String, bool, Vec<u8>)> = Vec::new();
                v.push((gz_stem(input), true, d));
                assert(entries_view(v@) =~= seq![(gz_entry_name(input@), true, dv)]);
                Ok(v)
            },
            Err(e) => {
                let mut m = String::new();
                push_str(&mut m, "invalid gzip ");
                push_str(&mut m, input);
                push_str(&mut m, ": ");
                push_str(&mut m, e.as_str());
                Err(ConverterError::Parse(m))
            },
        },
    }
}

/// The entries a listing shows: for zip only its files, for tar and gz
/// every entry; each with its size.
pub open spec fn listed(kind: ArchiveKind, es: Seq<(Seq<char>, bool, Seq<u8>)>) -> Seq<(Seq<char>, nat)>
    decreases es.len(),
{
    if es.len() == 0 {
        Seq::empty()
    } else {
        let rest = listed(kind, es.drop_last());
        let e = es.last();
        if kind == ArchiveKind::Zip && !e.1 {
            rest
        } else {
            rest.push((e.0, e.2.len()))
        }
    }
}

/// The names and sizes that the listing of unpacked entries shows.
pub fn listed_entries(kind: ArchiveKind, es: &Vec<(String, bool, Vec<u8>)>) -> (r: Vec<(String, u64)>)
    requires
        forall|i: int| 0 <= i < es@.len() ==> (#[trigger] es@[i]).2@.len() <= u64::MAX,
    ensures
        entry_list(r@) == listed(kind, entries_view(es@)),
{
    let ghost v = entries_view(es@);
    let mut out: Vec<(String, u64)> = Vec::new();
    let mut i: usize = 0;
    while i < es.len()
        invariant
            i <= es.len(),
            v == entries_view(es@),
            forall|k: int| 0 <= k < es@.len() ==> (#[trigger] es@[k]).2@.len() <= u64::MAX,
            entry_list(out@) == listed(kind, v.take(i as int)),
        decreases es.len() - i,
    {
        assert(v.take(i + 1).drop_last() == v.take(i as int));
        assert(v.take(i + 1).last() == (es@[i as int].0@, es@[i as int].1, es@[i as int].2@));
        if !(kind == ArchiveKind::Zip && !es[i].1) {
            let ghost before = out@;
            let size = es[i].2.len() as u64;
            out.push((es[i].0.clone(), size));
            assert(entry_list(out@) =~= entry_list(before).push((es@[i as int].0@, es@[i as int].2@.len())));
        }
        i += 1;
    }
    assert(v.take(es.len() as int) == v);
    out
}

/// What packing named files as `kind` gives: the archive's bytes, or the
/// writer's error. A gz archive of one file compresses that file; of any
/// other number, a tar archive of them.
pub open spec fn pack_result(
    kind: ArchiveKind,
    files: Seq<(Seq<char>, Seq<u8>)>,
    stamp: (u16, u8, u8, u8, u8, u8),
    r: Result<Vec<u8>, ConverterError>,
) -> bool {
    match kind {
        ArchiveKind::Zip => match zip_written(files, stamp) {
            Ok(b) => r matches Ok(x) && x@ == b,
            Err(e) => r matches Err(ConverterError::Zip(m)) && m@ == e,
        },
        ArchiveKind::Tar => match tar_written(files) {
            Ok(b) => r matches Ok(x) && x@ == b,
            Err(e) => r matches Err(ConverterError::Parse(m)) && m@ == e,
        },
        _ => if files.len() == 1 {
            match gz_written(files[0].1) {
                Ok(b) => r matches Ok(x) && x@ == b,
                Err(e) => r matches Err(ConverterError::Io(m)) && m@ == e,
            }
        } else {
            match tar_written(files) {
                Ok(t) => match gz_written(t) {
                    Ok(b) => r matches Ok(x) && x@ == b,
                    Err(e) => r matches Err(ConverterError::Io(m)) && m@ == e,
                },
                Err(e) => r matches Err(ConverterError::Parse(m)) && m@ == e,
            }
        },
    }
}

/// Packs named files as a zip, tar or gz archive; zip entries carry the
/// modification time `stamp` (year, month, day, hour, minute, second).
pub fn pack(kind: ArchiveKind, files: &Vec<(String, Vec<u8>)>, stamp: (u16, u8, u8, u8, u8, u8)) -> (r: Result<Vec<u8>, ConverterError>)
    requires
        kind != ArchiveKind::SevenZ,
    ensures
        pack_result(kind, files_view(files@), stamp, r),
{
    match kind {
        ArchiveKind::Zip => match write_zip(files, stamp) {
            Ok(b) => Ok(b),
            Err(m) => Err(ConverterError::Zip(m)),
        },
        ArchiveKind::Tar => match write_tar(files) {
            Ok(b) => Ok(b),
            Err(m) => Err(ConverterError::Parse(m)),
        },
        _ => {
            if files.len() == 1 {
                assert(files_view(files@)[0].1 == files@[0].1@);
                match gzip_bytes(files[0].1.as_slice()) {
                    Ok(b) => Ok(b),
                    Err(m) => Err(ConverterError::Io(m)),
                }
            } else {
                match write_tar(files) {
                    Ok(t) => match gzip_bytes(t.as_slice()) {
                        Ok(b) => Ok(b),
                        Err(m) => Err(ConverterError::Io(m)),
                    },
                    Err(m) => Err(ConverterError::Parse(m)),
                }
            }
        },
    }
}

} // verus!
