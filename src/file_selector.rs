//! How a file chosen from a folder is shown.
use vstd::prelude::*;
use vstd::string::StringExecFns;

verus! {

/// Choosing image files from a folder.
pub struct FileSelector;

/// Names the path relative to a base, as `std::path::Path::strip_prefix`
/// finds it when the base is a leading run of whole components.
pub uninterp spec fn relative_of(path: Seq<char>, base: Seq<char>) -> Option<Seq<char>>;

/// Names the final component of a path, as `std::path::Path::file_name`
/// gives it.
pub uninterp spec fn file_name_of(path: Seq<char>) -> Option<Seq<char>>;

/// Relies on `std::path::Path::strip_prefix`: the rest of `path` when
/// `base` is a prefix of it by whole components. The result depends on
/// the two paths alone.
#[verifier::external_body]
fn strip_base(path: &str, base: &str) -> (r: Option<String>)
    ensures
        match relative_of(path@, base@) {
            Some(s) => r is Some && r->0@ == s,
            None => r is None,
        },
{
    let rest = std::path::Path::new(path).strip_prefix(base).ok()?;
    Some(rest.display().to_string())
}

/// Relies on `std::path::Path::file_name`: the final component, unless
/// the path ends in "..". The result depends on the path alone.
#[verifier::external_body]
fn final_component(path: &str) -> (r: Option<String>)
    ensures
        match file_name_of(path@) {
            Some(s) => r is Some && r->0@ == s,
            None => r is None,
        },
{
    let name = std::path::Path::new(path).file_name()?;
    Some(name.to_string_lossy().to_string())
}

/// How a file is shown: relative to the base folder, or by its name alone
/// when it lies elsewhere.
pub open spec fn display_spec(path: Seq<char>, base: Seq<char>) -> Seq<char> {
    match relative_of(path, base) {
        Some(s) => s,
        None => match file_name_of(path) {
            Some(n) => n,
            None => Seq::empty(),
        },
    }
}

impl FileSelector {
    pub fn new() -> (r: FileSelector) {
        FileSelector
    }

    /// The path relative to the base folder, or the file name when the file
    /// lies outside it.
    pub fn format_file_for_display(file_path: &str, base_path: &str) -> (r: String)
        ensures
            r@ == display_spec(file_path@, base_path@),
    {
        match strip_base(file_path, base_path) {
            Some(s) => s,
            None => match final_component(file_path) {
                Some(n) => n,
                None => String::new(),
            },
        }
    }
}

} // verus!
