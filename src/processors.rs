//! Metadata operations on whole files held in memory: JPEG streams, TIFF
//! structures, and the XMP sidecars of raw files.
use vstd::prelude::*;
use vstd::string::StringExecFns;
use vstd::utf8::{decode_utf8, valid_utf8};
use crate::codec::{
    entries_view, parse, parse_spec, serialize, serialize_spec, CodecError, EntryView, IfdEntry,
};
use crate::container::{
    erase_from, erase_segments, exif_payload, exif_tiff, has_soi, replace_exif_segment,
    replace_spec, ContainerError,
};
use crate::merge::{field_entries, merge, merge_spec, Field, FieldValue};
use crate::iptc::{iptc_from, read_iptc_data};
use crate::readout::{
    entry_rows, format_value, readout_spec, row_of, rows_view, sort_by_name, sort_rows, tag_display_name,
    tag_readout, tag_to_name, value_text,
};

verus! {

/// Why metadata could not be read from a file.
#[derive(Debug, Clone, Copy, PartialEq, Eq, Structural)]
pub enum ExifError {
    /// The JPEG stream could not be rewritten or read.
    Container(ContainerError),
    /// The embedded TIFF structure could not be read.
    Codec(CodecError),
    /// The file's extension is not one of a supported image format.
    UnsupportedFileType,
    /// A sidecar file is not valid UTF-8.
    InvalidText,
}

/// JPEG files: metadata lives in the APP1 segment.
pub struct JpegProcessor;

/// TIFF and DNG files: metadata lives in the file's first directory.
pub struct TiffProcessor;

/// Raw camera files: metadata lives in an XMP sidecar.
pub struct RawProcessor;

/// The entries of the EXIF data in a JPEG stream's first APP1 segment,
/// when it has such data and it can be read.
pub open spec fn existing_entries(d: Seq<u8>) -> Seq<EntryView> {
    match exif_payload(d) {
        Some(t) => match parse_spec(t) {
            Ok((es, _)) => es,
            Err(_) => Seq::empty(),
        },
        None => Seq::empty(),
    }
}

/// What applying a field set to a JPEG stream yields.
pub open spec fn apply_spec(d: Seq<u8>, fs: Seq<Field>) -> Result<Seq<u8>, ContainerError> {
    if !has_soi(d) {
        Err(ContainerError::NotAContainer)
    } else {
        match serialize_spec(merge_spec(existing_entries(d), field_entries(fs))) {
            Ok(t) => replace_spec(d, t),
            Err(_) => Err(ContainerError::SegmentTooLarge),
        }
    }
}

/// What reading the metadata of a JPEG stream yields: the lines of its
/// EXIF entries and of its IPTC records, sorted by name.
pub open spec fn read_spec(d: Seq<u8>) -> Result<Seq<(Seq<char>, Seq<char>)>, ExifError> {
    if !has_soi(d) {
        Err(ExifError::Container(ContainerError::NotAContainer))
    } else {
        match exif_payload(d) {
            None => Ok(sort_rows(iptc_from(d, 0))),
            Some(t) => match parse_spec(t) {
                Ok((es, _)) => Ok(sort_rows(es.map_values(|x: EntryView| row_of(x)) + iptc_from(d, 0))),
                Err(c) => Err(ExifError::Codec(c)),
            },
        }
    }
}

/// The three date fields that a creation date sets.
pub open spec fn date_fields_spec(date: Seq<char>, f: Seq<Field>) -> bool {
    f.len() == 3 && f[0].name@ == "DateTime"@ && f[1].name@ == "DateTimeOriginal"@ && f[2].name@
        == "DateTimeDigitized"@ && (forall|i: int|
        0 <= i < 3 ==> (#[trigger] f[i].value matches FieldValue::Text(s) && s@ == date))
}

impl JpegProcessor {
    /// Merges a field set into the first APP1 segment of a JPEG stream,
    /// which the new EXIF segment replaces. Existing fields that the set
    /// does not carry are kept; when the first APP1 segment is missing,
    /// holds no EXIF data or cannot be read, the set is written alone.
    pub fn apply_exif(data: &[u8], fields: &[Field]) -> (r: Result<Vec<u8>, ContainerError>)
        ensures
            match apply_spec(data@, fields@) {
                Ok(b) => r is Ok && r->Ok_0@ == b,
                Err(e) => r == Err::<Vec<u8>, ContainerError>(e),
            },
    {
        if data.len() < 2 || data[0] != 0xFF || data[1] != 0xD8 {
            return Err(ContainerError::NotAContainer);
        }
        let existing = match exif_tiff(data) {
            Some(t) => match parse(t.as_slice()) {
                Ok(p) => Some(p),
                Err(_) => None,
            },
            None => None,
        };
        let ghost ex = existing_entries(data@);
        assert(match existing {
            Some(p) => entries_view(p.entries@) == ex,
            None => ex == Seq::<EntryView>::empty(),
        });
        let merged = merge(existing, fields);
        let tiff = match serialize(merged.as_slice()) {
            Ok(t) => t,
            Err(_) => {
                return Err(ContainerError::SegmentTooLarge);
            },
        };
        replace_exif_segment(data, tiff.as_slice())
    }

    /// Sets the three date fields to `date` ("YYYY:MM:DD HH:MM:SS"),
    /// keeping every other field.
    pub fn set_creation_date(data: &[u8], date: &str) -> (r: Result<Vec<u8>, ContainerError>)
        ensures
            exists|f: Seq<Field>|
                date_fields_spec(date@, f) && match apply_spec(data@, f) {
                    Ok(b) => r is Ok && r->Ok_0@ == b,
                    Err(e) => r == Err::<Vec<u8>, ContainerError>(e),
                },
    {
        let mut fields: Vec<Field> = Vec::new();
        fields.push(
            Field { name: String::from_str("DateTime"), value: FieldValue::Text(String::from_str(date)) },
        );
        fields.push(
            Field {
                name: String::from_str("DateTimeOriginal"),
                value: FieldValue::Text(String::from_str(date)),
            },
        );
        fields.push(
            Field {
                name: String::from_str("DateTimeDigitized"),
                value: FieldValue::Text(String::from_str(date)),
            },
        );
        assert(date_fields_spec(date@, fields@));
        JpegProcessor::apply_exif(data, fields.as_slice())
    }

    /// Removes every APP1 and APP0 segment, leaving the other segments and
    /// the scan data as they were.
    pub fn erase_exif(data: &[u8]) -> (r: Result<Vec<u8>, ContainerError>)
        ensures
            match r {
                Ok(out) => has_soi(data@) && out@ == data@.subrange(0, 2) + erase_from(data@, 2, true),
                Err(e) => !has_soi(data@) && e == ContainerError::NotAContainer,
            },
    {
        erase_segments(data, true)
    }

    /// The readout of a JPEG stream: the lines of its EXIF segment, none
    /// when it has no such segment, and of its IPTC records, sorted by name.
    pub fn read_exif(data: &[u8]) -> (r: Result<Vec<(String, String)>, ExifError>)
        ensures
            match read_spec(data@) {
                Ok(rows) => r is Ok && rows_view(r->Ok_0@) == rows,
                Err(e) => r is Err && r->Err_0 == e,
            },
    {
        if data.len() < 2 || data[0] != 0xFF || data[1] != 0xD8 {
            return Err(ExifError::Container(ContainerError::NotAContainer));
        }
        let mut rows = match exif_tiff(data) {
            None => Vec::new(),
            Some(t) => match parse(t.as_slice()) {
                Ok(p) => entry_rows(p.entries.as_slice()),
                Err(c) => {
                    return Err(ExifError::Codec(c));
                },
            },
        };
        let mut iptc = read_iptc_data(data);
        let ghost a = rows_view(rows@);
        rows.append(&mut iptc);
        assert(rows_view(rows@) =~= a + iptc_from(data@, 0));
        Ok(sort_by_name(rows))
    }

    /// Display name of a tag.
    pub fn format_tag_name(tag: u16) -> (r: String)
        ensures
            r@ == tag_display_name(tag),
    {
        tag_to_name(tag)
    }

    /// Display text of an entry's value.
    pub fn format_exif_value(value: &IfdEntry) -> (r: String)
        ensures
            r@ == value_text(value@),
    {
        format_value(value)
    }
}

/// What reading a TIFF structure yields.
pub open spec fn tiff_read_spec(d: Seq<u8>) -> Result<Seq<(Seq<char>, Seq<char>)>, ExifError> {
    match parse_spec(d) {
        Ok((es, _)) => Ok(readout_spec(es)),
        Err(c) => Err(ExifError::Codec(c)),
    }
}

impl TiffProcessor {
    /// The readout of the first directory of a TIFF structure.
    pub fn read_exif(data: &[u8]) -> (r: Result<Vec<(String, String)>, ExifError>)
        ensures
            match tiff_read_spec(data@) {
                Ok(rows) => r is Ok && rows_view(r->Ok_0@) == rows,
                Err(e) => r is Err && r->Err_0 == e,
            },
    {
        match parse(data) {
            Ok(p) => Ok(tag_readout(p.entries.as_slice())),
            Err(c) => Err(ExifError::Codec(c)),
        }
    }
}

/// Relies on `String::from_utf8`: succeeds exactly on valid UTF-8 and then
/// holds the decoded characters.
#[verifier::external_body]
fn utf8_string(bytes: Vec<u8>) -> (r: Option<String>)
    ensures
        r is Some <==> valid_utf8(bytes@),
        r matches Some(s) ==> s@ == decode_utf8(bytes@),
{
    String::from_utf8(bytes).ok()
}

impl RawProcessor {
    /// The readout of a raw file's XMP sidecar: one line holding its text.
    pub fn read_exif(sidecar: &[u8]) -> (r: Result<Vec<(String, String)>, ExifError>)
        ensures
            valid_utf8(sidecar@) ==> r is Ok && rows_view(r->Ok_0@) == seq![
                ("XMP Content"@, decode_utf8(sidecar@)),
            ],
            !valid_utf8(sidecar@) ==> r == Err::<Vec<(String, String)>, ExifError>(
                ExifError::InvalidText,
            ),
    {
        let mut bytes: Vec<u8> = Vec::new();
        crate::bytes::push_all(&mut bytes, sidecar);
        match utf8_string(bytes) {
            Some(text) => {
                let mut rows: Vec<(String, String)> = Vec::new();
                rows.push((String::from_str("XMP Content"), text));
                assert(rows_view(rows@) =~= seq![("XMP Content"@, decode_utf8(sidecar@))]);
                Ok(rows)
            },
            None => Err(ExifError::InvalidText),
        }
    }
}

} // verus!
