//! File-name parts of paths, as `std::path::Path` computes them.
use vstd::prelude::*;

verus! {

/// The extension of the last component of a path, as `Path::extension`
/// gives it (text after the final `.` of the file name, if any).
pub uninterp spec fn path_extension(p: Seq<char>) -> Option<Seq<char>>;

/// The last component of a path, as `Path::file_name` gives it.
pub uninterp spec fn path_file_name(p: Seq<char>) -> Option<Seq<char>>;

/// The file name without its extension, as `Path::file_stem` gives it.
pub uninterp spec fn path_file_stem(p: Seq<char>) -> Option<Seq<char>>;

/// `Path::extension` of `p`; a path made from a string has string parts.
#[verifier::external_body]
pub fn extension_of(p: &str) -> (r: Option<String>)
    ensures
        match r {
            Some(e) => path_extension(p@) == Some(e@),
            None => path_extension(p@) is None,
        },
{
    std::path::Path::new(p).extension().and_then(|s| s.to_str()).map(|s| s.to_string())
}

/// `Path::file_name` of `p`.
#[verifier::external_body]
pub fn file_name_of(p: &str) -> (r: Option<String>)
    ensures
        match r {
            Some(e) => path_file_name(p@) == Some(e@),
            None => path_file_name(p@) is None,
        },
{
    std::path::Path::new(p).file_name().and_then(|s| s.to_str()).map(|s| s.to_string())
}

/// `Path::file_stem` of `p`.
#[verifier::external_body]
pub fn file_stem_of(p: &str) -> (r: Option<String>)
    ensures
        match r {
            Some(e) => path_file_stem(p@) == Some(e@),
            None => path_file_stem(p@) is None,
        },
{
    std::path::Path::new(p).file_stem().and_then(|s| s.to_str()).map(|s| s.to_string())
}

/// Whether a path is absolute, as `Path::is_absolute` decides.
pub uninterp spec fn path_is_absolute(p: Seq<char>) -> bool;

/// Whether a path has a `..` component, as `Path::components` splits it.
pub uninterp spec fn path_has_parent_dir(p: Seq<char>) -> bool;

/// `Path::is_absolute` of `p`.
#[verifier::external_body]
pub fn is_absolute(p: &str) -> (r: bool)
    ensures
        r == path_is_absolute(p@),
{
    std::path::Path::new(p).is_absolute()
}

/// Whether `Path::components` of `p` yields a parent-directory component.
#[verifier::external_body]
pub fn has_parent_dir(p: &str) -> (r: bool)
    ensures
        r == path_has_parent_dir(p@),
{
    std::path::Path::new(p).components().any(|c| matches!(c, std::path::Component::ParentDir))
}

/// The parent of a path, as `Path::parent` gives it.
pub uninterp spec fn path_parent(p: Seq<char>) -> Option<Seq<char>>;

/// `Path::parent` of `p`.
#[verifier::external_body]
pub fn parent_of(p: &str) -> (r: Option<String>)
    ensures
        match r {
            Some(e) => path_parent(p@) == Some(e@),
            None => path_parent(p@) is None,
        },
{
    std::path::Path::new(p).parent().and_then(|s| s.to_str()).map(|s| s.to_string())
}

/// A path with a component appended, as `Path::join` builds it.
pub uninterp spec fn path_join(base: Seq<char>, part: Seq<char>) -> Seq<char>;

/// `Path::join` of `base` and `part`.
#[verifier::external_body]
pub fn join_path(base: &str, part: &str) -> (r: String)
    ensures
        r@ == path_join(base@, part@),
{
    std::path::Path::new(base).join(part).to_string_lossy().to_string()
}

} // verus!
