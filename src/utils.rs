//! Path helpers: cleaning pasted paths and classifying files by extension.
use vstd::prelude::*;
use vstd::string::{StrSliceExecFns, StringExecFns};
use crate::file_types::{extension_lowercase, lower_extension, type_for_extension, FileType};
use crate::readout::push_char;

verus! {

/// Names the text with leading and trailing white space removed, as
/// `str::trim` gives it.
pub uninterp spec fn trim_of(s: Seq<char>) -> Seq<char>;

/// Relies on `str::trim`: removes leading and trailing Unicode white space.
/// The result depends on the characters alone.
#[verifier::external_body]
pub(crate) fn trim_text(s: &str) -> (r: String)
    ensures
        r@ == trim_of(s@),
{
    s.trim().to_string()
}

/// Whether a text is wrapped in a pair of double or of single quotes.
pub open spec fn is_quoted(t: Seq<char>) -> bool {
    t.len() >= 2 && ((t[0] == '"' && t.last() == '"') || (t[0] == '\'' && t.last() == '\''))
}

/// The text with every backslash-space pair turned into a space.
pub open spec fn unescape_spaces(t: Seq<char>) -> Seq<char>
    decreases t.len(),
{
    if t.len() == 0 {
        t
    } else if t.len() >= 2 && t[0] == '\\' && t[1] == ' ' {
        seq![' '] + unescape_spaces(t.skip(2))
    } else {
        seq![t[0]] + unescape_spaces(t.skip(1))
    }
}

/// A trimmed path without its surrounding quotes, or with escaped spaces
/// unescaped when it has none.
pub open spec fn unquote_spec(t: Seq<char>) -> Seq<char> {
    if is_quoted(t) {
        t.subrange(1, t.len() - 1)
    } else {
        unescape_spaces(t)
    }
}

/// Removes a surrounding pair of quotes from a trimmed path, or else turns
/// each backslash-escaped space into a space.
pub fn unquote_path(t: &str) -> (r: String)
    ensures
        r@ == unquote_spec(t@),
{
    let n = t.unicode_len();
    if n >= 2 {
        let first = t.get_char(0);
        let last = t.get_char(n - 1);
        if (first == '"' && last == '"') || (first == '\'' && last == '\'') {
            return String::from_str(t.substring_char(1, n - 1));
        }
    }
    let mut out = String::new();
    let mut i: usize = 0;
    assert(t@.skip(0) =~= t@);
    assert(out@ + unescape_spaces(t@) =~= unescape_spaces(t@));
    while i < n
        invariant
            n == t@.len(),
            i <= n,
            out@ + unescape_spaces(t@.skip(i as int)) == unescape_spaces(t@),
        decreases n - i,
    {
        let ghost rest = t@.skip(i as int);
        let ghost before = out@;
        let c = t.get_char(i);
        if c == '\\' && i + 1 < n && t.get_char(i + 1) == ' ' {
            push_char(&mut out, ' ');
            assert(rest.skip(2) =~= t@.skip(i + 2));
            i = i + 2;
        } else {
            push_char(&mut out, c);
            assert(rest.skip(1) =~= t@.skip(i + 1));
            i = i + 1;
        }
        assert(out@ + unescape_spaces(t@.skip(i as int)) =~= before + unescape_spaces(rest));
    }
    assert(t@.skip(i as int) =~= Seq::<char>::empty());
    assert(out@ + Seq::<char>::empty() =~= out@);
    out
}

/// Cleans a path as pasted by a user: trims it, then removes surrounding
/// quotes or unescapes backslash-escaped spaces.
pub fn clean_path(input: &str) -> (r: String)
    ensures
        r@ == unquote_spec(trim_of(input@)),
{
    let t = trim_text(input);
    unquote_path(t.as_str())
}

/// Whether a path has the extension of a supported image format, in any
/// letter case.
pub fn is_supported_image_format(path: &str) -> (r: bool)
    ensures
        r == match lower_extension(path@) {
            Some(e) => type_for_extension(e) is Some,
            None => false,
        },
{
    FileType::from_path(path).is_some()
}

/// Category name of a lowercase extension: every extension that is not
/// JPEG, TIFF or DNG counts as raw.
pub open spec fn category_of(e: Seq<char>) -> Seq<char> {
    match type_for_extension(e) {
        Some(t) => t.spec_name(),
        None => "raw"@,
    }
}

/// Category name of a path's extension; none without an extension.
pub fn get_file_type(path: &str) -> (r: Option<String>)
    ensures
        match lower_extension(path@) {
            Some(e) => r is Some && r->0@ == category_of(e),
            None => r is None,
        },
{
    match extension_lowercase(path) {
        Some(e) => match FileType::from_extension(e.as_str()) {
            Some(t) => Some(String::from_str(t.as_str())),
            None => Some(String::from_str("raw")),
        },
        None => None,
    }
}

} // verus!
