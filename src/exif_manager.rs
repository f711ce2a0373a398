//! Dispatch of metadata operations by file type, and the bookkeeping of a
//! batch of files.
use vstd::prelude::*;
use vstd::string::StringExecFns;
use crate::file_types::{lower_extension, type_for_extension, FileType};
use crate::processors::{read_spec, tiff_read_spec, ExifError, JpegProcessor, RawProcessor, TiffProcessor};
use crate::readout::rows_view;
use vstd::utf8::{decode_utf8, valid_utf8};

verus! {

/// The outcome for one file of a batch.
#[derive(Debug, Clone)]
pub struct FileResult {
    pub name: String,
    pub success: bool,
    /// Category of the file's extension ("jpeg", "tiff", "dng", "raw").
    pub file_type: Option<String>,
    /// Why the file failed.
    pub error: Option<String>,
}

/// Counts and per-file outcomes of a batch.
#[derive(Debug, Clone)]
pub struct ProcessingStats {
    pub processed: usize,
    pub failed: usize,
    pub files: Vec<FileResult>,
}

/// The outcome of a batch.
#[derive(Debug, Clone)]
pub struct ProcessingResult {
    /// Whether any file was attempted.
    pub success: bool,
    pub message: String,
    pub results: ProcessingStats,
}

impl ProcessingStats {
    /// No file attempted yet.
    pub fn new() -> (r: ProcessingStats)
        ensures
            r.processed == 0,
            r.failed == 0,
            r.files@.len() == 0,
    {
        ProcessingStats { processed: 0, failed: 0, files: Vec::new() }
    }

    /// Records the outcome of one file: a success when `error` is none.
    pub fn record(&mut self, name: String, file_type: Option<String>, error: Option<String>)
        requires
            old(self).processed + old(self).failed < usize::MAX,
        ensures
            final(self).processed == old(self).processed + if error is None {
                1usize
            } else {
                0usize
            },
            final(self).failed == old(self).failed + if error is None {
                0usize
            } else {
                1usize
            },
            final(self).files@.len() == old(self).files@.len() + 1,
            final(self).files@.take(old(self).files@.len() as int) == old(self).files@,
            final(self).files@.last().name == name,
            final(self).files@.last().success == (error is None),
            final(self).files@.last().file_type == file_type,
            final(self).files@.last().error == error,
    {
        let success = error.is_none();
        if success {
            self.processed = self.processed + 1;
        } else {
            self.failed = self.failed + 1;
        }
        self.files.push(FileResult { name, success, file_type, error });
        assert(self.files@.take(old(self).files@.len() as int) =~= old(self).files@);
    }
}

impl ProcessingResult {
    /// Closes a batch: it succeeded when any file was attempted; otherwise
    /// the message says why nothing was done.
    pub fn finish(stats: ProcessingStats, nothing_message: &str) -> (r: ProcessingResult)
        ensures
            r.success == (stats.processed > 0 || stats.failed > 0),
            r.success ==> r.message@ == "Processing completed"@,
            !r.success ==> r.message@ == nothing_message@,
            r.results == stats,
    {
        if stats.processed > 0 || stats.failed > 0 {
            ProcessingResult { success: true, message: String::from_str("Processing completed"), results: stats }
        } else {
            ProcessingResult { success: false, message: String::from_str(nothing_message), results: stats }
        }
    }
}

/// Metadata operations on files of any supported type.
pub struct ExifManager;

/// The file type of a path, from its extension.
pub open spec fn path_type(path: Seq<char>) -> Option<FileType> {
    match lower_extension(path) {
        Some(e) => type_for_extension(e),
        None => None,
    }
}

impl ExifManager {
    pub fn new() -> (r: ExifManager) {
        ExifManager
    }

    /// The metadata readout of a file, dispatched on its extension: a JPEG
    /// stream's EXIF segment, a TIFF or DNG file's first directory, or for a
    /// raw file the text of its XMP sidecar, whose bytes `data` then holds.
    pub fn read_exif_data(path: &str, data: &[u8]) -> (r: Result<Vec<(String, String)>, ExifError>)
        ensures
            match path_type(path@) {
                None => r == Err::<Vec<(String, String)>, ExifError>(ExifError::UnsupportedFileType),
                Some(FileType::Jpeg) => match read_spec(data@) {
                    Ok(rows) => r is Ok && rows_view(r->Ok_0@) == rows,
                    Err(e) => r is Err && r->Err_0 == e,
                },
                Some(FileType::Raw) => if valid_utf8(data@) {
                    r is Ok && rows_view(r->Ok_0@) == seq![("XMP Content"@, decode_utf8(data@))]
                } else {
                    r == Err::<Vec<(String, String)>, ExifError>(ExifError::InvalidText)
                },
                Some(_) => match tiff_read_spec(data@) {
                    Ok(rows) => r is Ok && rows_view(r->Ok_0@) == rows,
                    Err(e) => r is Err && r->Err_0 == e,
                },
            },
    {
        match FileType::from_path(path) {
            None => Err(ExifError::UnsupportedFileType),
            Some(FileType::Jpeg) => JpegProcessor::read_exif(data),
            Some(FileType::Raw) => RawProcessor::read_exif(data),
            Some(_) => TiffProcessor::read_exif(data),
        }
    }
}

} // verus!
