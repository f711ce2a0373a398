//! Classification of image files by extension.
use vstd::prelude::*;
use crate::tags::str_eq;

verus! {

/// The kinds of image file that metadata is handled for.
#[derive(Debug, Clone, Copy, PartialEq, Eq, Structural)]
pub enum FileType {
    /// JPEG: metadata is embedded in an APP1 segment.
    Jpeg,
    /// TIFF: metadata lives in the file's own directories.
    Tiff,
    /// Adobe digital negative.
    Dng,
    /// Camera raw files: metadata goes to an XMP sidecar.
    Raw,
}

/// Names the extension of a path, as `std::path::Path::extension` finds it.
pub uninterp spec fn extension_of(path: Seq<char>) -> Option<Seq<char>>;

/// Names the lowercase mapping of a string, as `str::to_lowercase` gives it.
pub uninterp spec fn lower_of(s: Seq<char>) -> Seq<char>;

/// Relies on `std::path::Path::extension`: the text after the last dot of
/// the final path component, when there is one that is not its first
/// character. The result depends on the path alone.
#[verifier::external_body]
fn path_extension(path: &str) -> (r: Option<String>)
    ensures
        match extension_of(path@) {
            Some(e) => r is Some && r->0@ == e,
            None => r is None,
        },
{
    let ext = std::path::Path::new(path).extension()?;
    Some(ext.to_str()?.to_string())
}

/// Relies on `str::to_lowercase`: the lowercase mapping of every character.
/// The result depends on the characters alone.
#[verifier::external_body]
fn lowercase(s: &str) -> (r: String)
    ensures
        r@ == lower_of(s@),
{
    s.to_lowercase()
}

pub open spec fn is_raw_extension(e: Seq<char>) -> bool {
    e == "cr2"@ || e == "cr3"@ || e == "nef"@ || e == "nrw"@ || e == "arw"@ || e == "srf"@ || e
        == "sr2"@ || e == "orf"@ || e == "rw2"@ || e == "raf"@ || e == "srw"@ || e == "pef"@ || e
        == "x3f"@ || e == "erf"@ || e == "mef"@ || e == "mrw"@ || e == "dcr"@ || e == "kdc"@ || e
        == "3fr"@ || e == "fff"@ || e == "iiq"@ || e == "k25"@ || e == "rwl"@
}

/// The file type of a lowercase extension.
pub open spec fn type_for_extension(e: Seq<char>) -> Option<FileType> {
    if e == "jpg"@ || e == "jpeg"@ {
        Some(FileType::Jpeg)
    } else if e == "tif"@ || e == "tiff"@ {
        Some(FileType::Tiff)
    } else if e == "dng"@ {
        Some(FileType::Dng)
    } else if is_raw_extension(e) {
        Some(FileType::Raw)
    } else {
        None
    }
}

/// The lowercase extension of a path.
pub open spec fn lower_extension(path: Seq<char>) -> Option<Seq<char>> {
    match extension_of(path) {
        Some(e) => Some(lower_of(e)),
        None => None,
    }
}

/// The lowercase extension of a path, if it has one.
pub fn extension_lowercase(path: &str) -> (r: Option<String>)
    ensures
        match lower_extension(path@) {
            Some(e) => r is Some && r->0@ == e,
            None => r is None,
        },
{
    match path_extension(path) {
        Some(e) => Some(lowercase(e.as_str())),
        None => None,
    }
}

fn is_raw_ext(e: &str) -> (r: bool)
    ensures
        r == is_raw_extension(e@),
{
    str_eq(e, "cr2") || str_eq(e, "cr3") || str_eq(e, "nef") || str_eq(e, "nrw") || str_eq(e, "arw")
        || str_eq(e, "srf") || str_eq(e, "sr2") || str_eq(e, "orf") || str_eq(e, "rw2") || str_eq(
        e,
        "raf",
    ) || str_eq(e, "srw") || str_eq(e, "pef") || str_eq(e, "x3f") || str_eq(e, "erf") || str_eq(
        e,
        "mef",
    ) || str_eq(e, "mrw") || str_eq(e, "dcr") || str_eq(e, "kdc") || str_eq(e, "3fr") || str_eq(
        e,
        "fff",
    ) || str_eq(e, "iiq") || str_eq(e, "k25") || str_eq(e, "rwl")
}

impl FileType {
    /// The file type of a lowercase extension.
    pub fn from_extension(ext: &str) -> (r: Option<FileType>)
        ensures
            r == type_for_extension(ext@),
    {
        if str_eq(ext, "jpg") || str_eq(ext, "jpeg") {
            Some(FileType::Jpeg)
        } else if str_eq(ext, "tif") || str_eq(ext, "tiff") {
            Some(FileType::Tiff)
        } else if str_eq(ext, "dng") {
            Some(FileType::Dng)
        } else if is_raw_ext(ext) {
            Some(FileType::Raw)
        } else {
            None
        }
    }

    /// The file type of a path, from its extension in any letter case.
    pub fn from_path(path: &str) -> (r: Option<FileType>)
        ensures
            r == match lower_extension(path@) {
                Some(e) => type_for_extension(e),
                None => None,
            },
    {
        match extension_lowercase(path) {
            Some(e) => FileType::from_extension(e.as_str()),
            None => None,
        }
    }

    /// Whether metadata can be embedded in the file itself.
    pub fn supports_direct_exif(&self) -> (r: bool)
        ensures
            r == (*self == FileType::Jpeg || *self == FileType::Tiff),
    {
        match self {
            FileType::Jpeg | FileType::Tiff => true,
            _ => false,
        }
    }

    /// Whether the file is a digital negative.
    pub fn supports_dng_processing(&self) -> (r: bool)
        ensures
            r == (*self == FileType::Dng),
    {
        match self {
            FileType::Dng => true,
            _ => false,
        }
    }

    /// Whether metadata goes to an XMP sidecar file.
    pub fn requires_sidecar(&self) -> (r: bool)
        ensures
            r == (*self == FileType::Raw),
    {
        match self {
            FileType::Raw => true,
            _ => false,
        }
    }

    pub open spec fn spec_name(self) -> Seq<char> {
        match self {
            FileType::Jpeg => "jpeg"@,
            FileType::Tiff => "tiff"@,
            FileType::Dng => "dng"@,
            FileType::Raw => "raw"@,
        }
    }

    /// Lowercase name of the file type.
    pub fn as_str(&self) -> (r: &'static str)
        ensures
            r@ == self.spec_name(),
    {
        match self {
            FileType::Jpeg => "jpeg",
            FileType::Tiff => "tiff",
            FileType::Dng => "dng",
            FileType::Raw => "raw",
        }
    }
}

} // verus!
