//! IPTC records carried in Photoshop 3.0 resources of JPEG APP13 segments,
//! rendered as readout lines.
use vstd::prelude::*;
use vstd::string::StringExecFns;
use crate::readout::{digits, display_text, push_digits, truncate_for_display};
use crate::utils::{trim_of, trim_text};

verus! {

/// Names the text that `String::from_utf8_lossy` makes of some bytes.
pub uninterp spec fn lossy_of(bytes: Seq<u8>) -> Seq<char>;

/// Relies on `String::from_utf8_lossy`: the bytes decoded as UTF-8, with
/// each invalid sequence replaced. The result depends on the bytes alone.
#[verifier::external_body]
fn lossy_text(bytes: &[u8]) -> (r: String)
    ensures
        r@ == lossy_of(bytes@),
{
    String::from_utf8_lossy(bytes).into_owned()
}

/// Display name of an IPTC dataset.
pub open spec fn iptc_tag_name(record: u8, dataset: u8) -> Seq<char> {
    if record != 2 {
        "Record "@ + digits(record as nat) + " Dataset "@ + digits(dataset as nat)
    } else {
        match dataset {
            5 => "Object Name"@,
            15 => "Category"@,
            20 => "Supplemental Categories"@,
            25 => "Keywords"@,
            40 => "Special Instructions"@,
            55 => "Date Created"@,
            60 => "Time Created"@,
            62 => "Digital Creation Date"@,
            63 => "Digital Creation Time"@,
            80 => "Byline"@,
            85 => "Byline Title"@,
            90 => "City"@,
            92 => "Sublocation"@,
            95 => "Province/State"@,
            100 => "Country/Primary Location Code"@,
            101 => "Country/Primary Location Name"@,
            103 => "Original Transmission Reference"@,
            105 => "Headline"@,
            110 => "Credit"@,
            115 => "Source"@,
            116 => "Copyright Notice"@,
            118 => "Contact"@,
            120 => "Caption/Abstract"@,
            122 => "Caption Writer/Editor"@,
            _ => "Record "@ + digits(record as nat) + " Dataset "@ + digits(dataset as nat),
        }
    }
}

fn known_dataset(dataset: u8) -> (r: Option<&'static str>)
    ensures
        match r {
            Some(n) => iptc_tag_name(2, dataset) == n@,
            None => iptc_tag_name(2, dataset) == "Record "@ + digits(2) + " Dataset "@ + digits(dataset as nat),
        },
{
    match dataset {
        5 => Some("Object Name"),
        15 => Some("Category"),
        20 => Some("Supplemental Categories"),
        25 => Some("Keywords"),
        40 => Some("Special Instructions"),
        55 => Some("Date Created"),
        60 => Some("Time Created"),
        62 => Some("Digital Creation Date"),
        63 => Some("Digital Creation Time"),
        80 => Some("Byline"),
        85 => Some("Byline Title"),
        90 => Some("City"),
        92 => Some("Sublocation"),
        95 => Some("Province/State"),
        100 => Some("Country/Primary Location Code"),
        101 => Some("Country/Primary Location Name"),
        103 => Some("Original Transmission Reference"),
        105 => Some("Headline"),
        110 => Some("Credit"),
        115 => Some("Source"),
        116 => Some("Copyright Notice"),
        118 => Some("Contact"),
        120 => Some("Caption/Abstract"),
        122 => Some("Caption Writer/Editor"),
        _ => None,
    }
}

/// Display name of an IPTC record and dataset.
pub fn format_iptc_tag(record: u8, dataset: u8) -> (r: String)
    ensures
        r@ == iptc_tag_name(record, dataset),
{
    if record == 2 {
        match known_dataset(dataset) {
            Some(n) => {
                return String::from_str(n);
            },
            None => {},
        }
    }
    let mut s = String::from_str("Record ");
    push_digits(&mut s, record as u64);
    s.append(" Dataset ");
    push_digits(&mut s, dataset as u64);
    s
}

/// The readout lines of the IPTC records from position `i` of `data`: a
/// record starts with 0x1C, then record and dataset numbers and a 16-bit
/// big-endian length; records with no text after trimming are left out.
pub open spec fn iptc_rows_from(data: Seq<u8>, i: int) -> Seq<(Seq<char>, Seq<char>)>
    decreases data.len() - i,
{
    if i < 0 || i + 8 >= data.len() {
        Seq::empty()
    } else if data[i] == 0x1C {
        let len = 256 * (data[i + 3] as int) + (data[i + 4] as int);
        if i + 5 + len <= data.len() {
            let v = trim_of(lossy_of(data.subrange(i + 5, i + 5 + len)));
            (if v.len() > 0 {
                seq![("IPTC: "@ + iptc_tag_name(data[i + 1], data[i + 2]), display_text(v))]
            } else {
                Seq::empty()
            }) + iptc_rows_from(data, i + 5 + len)
        } else {
            Seq::empty()
        }
    } else {
        iptc_rows_from(data, i + 1)
    }
}

/// The readout lines of the IPTC records in a Photoshop resource block.
pub fn parse_iptc_records(data: &[u8]) -> (r: Vec<(String, String)>)
    ensures
        crate::readout::rows_view(r@) == iptc_rows_from(data@, 0),
{
    let mut out: Vec<(String, String)> = Vec::new();
    let mut i: usize = 0;
    while data.len() > 8 && i < data.len() - 8
        invariant
            i <= data@.len(),
            crate::readout::rows_view(out@) + iptc_rows_from(data@, i as int) == iptc_rows_from(data@, 0),
        decreases data@.len() - i,
    {
        let ghost before = crate::readout::rows_view(out@);
        if data[i] == 0x1C {
            let len: usize = 256 * (data[i + 3] as usize) + (data[i + 4] as usize);
            if len > data.len() - i - 5 {
                assert(iptc_rows_from(data@, i as int) =~= Seq::empty());
                assert(before + Seq::empty() =~= before);
                return out;
            }
            let raw = lossy_text(&data[i + 5..i + 5 + len]);
            let value = trim_text(raw.as_str());
            let ghost v = value@;
            if value.unicode_len() > 0 {
                let name = format_iptc_tag(data[i + 1], data[i + 2]);
                let mut label = String::from_str("IPTC: ");
                label.append(name.as_str());
                let shown = truncate_for_display(value.as_str());
                out.push((label, shown));
                assert(crate::readout::rows_view(out@) =~= before + seq![(label@, shown@)]);
            } else {
                assert(crate::readout::rows_view(out@) =~= before + Seq::empty());
            }
            i = i + 5 + len;
        } else {
            i = i + 1;
        }
    }
    assert(iptc_rows_from(data@, i as int) =~= Seq::empty());
    assert(crate::readout::rows_view(out@) + Seq::empty() =~= crate::readout::rows_view(out@));
    out
}

/// The identifier that opens a Photoshop 3.0 resource block.
pub open spec fn photoshop_id() -> Seq<u8> {
    seq![0x50u8, 0x68u8, 0x6Fu8, 0x74u8, 0x6Fu8, 0x73u8, 0x68u8, 0x6Fu8, 0x70u8, 0x20u8, 0x33u8, 0x2Eu8, 0x30u8, 0u8]
}

/// The IPTC lines of the APP13 segment whose marker is at `i`, when the
/// segment lies inside the stream and holds a Photoshop resource block.
pub open spec fn app13_rows(d: Seq<u8>, i: int) -> Seq<(Seq<char>, Seq<char>)> {
    if 0 <= i && i + 4 < d.len() {
        let end = i + 2 + 256 * (d[i + 2] as int) + (d[i + 3] as int);
        if i + 18 <= end && end <= d.len() && d.subrange(i + 4, i + 18) == photoshop_id() {
            iptc_rows_from(d.subrange(i + 18, end), 0)
        } else {
            Seq::empty()
        }
    } else {
        Seq::empty()
    }
}

/// The IPTC lines of every APP13 marker from position `i` on.
pub open spec fn iptc_from(d: Seq<u8>, i: int) -> Seq<(Seq<char>, Seq<char>)>
    decreases d.len() - i,
{
    if i < 0 || i + 1 >= d.len() {
        Seq::empty()
    } else if d[i] == 0xFF && d[i + 1] == 0xED {
        app13_rows(d, i) + iptc_from(d, i + 2)
    } else {
        iptc_from(d, i + 1)
    }
}

fn is_photoshop_block(d: &[u8], start: usize) -> (r: bool)
    requires
        start + 14 <= d@.len(),
    ensures
        r == (d@.subrange(start as int, start + 14) == photoshop_id()),
{
    let id: [u8; 14] = [0x50, 0x68, 0x6F, 0x74, 0x6F, 0x73, 0x68, 0x6F, 0x70, 0x20, 0x33, 0x2E, 0x30, 0];
    assert(id@ =~= photoshop_id());
    let n = d.len();
    let mut k: usize = 0;
    while k < 14
        invariant
            k <= 14,
            start + 14 <= d@.len(),
            n == d@.len(),
            id@ == photoshop_id(),
            forall|j: int| 0 <= j < k ==> d@[start + j] == photoshop_id()[j],
        decreases 14 - k,
    {
        if d[start + k] != id[k] {
            assert(d@.subrange(start as int, start + 14)[k as int] != photoshop_id()[k as int]);
            return false;
        }
        k = k + 1;
    }
    assert(d@.subrange(start as int, start + 14) =~= photoshop_id());
    true
}

/// The IPTC lines of every APP13 segment in a JPEG stream that holds a
/// Photoshop resource block.
pub fn read_iptc_data(d: &[u8]) -> (r: Vec<(String, String)>)
    ensures
        crate::readout::rows_view(r@) == iptc_from(d@, 0),
{
    let mut out: Vec<(String, String)> = Vec::new();
    let mut i: usize = 0;
    while d.len() > 1 && i < d.len() - 1
        invariant
            i <= d@.len(),
            crate::readout::rows_view(out@) + iptc_from(d@, i as int) == iptc_from(d@, 0),
        decreases d@.len() - i,
    {
        if d[i] == 0xFF && d[i + 1] == 0xED {
            let ghost before = crate::readout::rows_view(out@);
            if d.len() - i > 4 {
                let seg_len: usize = 256 * (d[i + 2] as usize) + (d[i + 3] as usize);
                if seg_len >= 16 && seg_len <= d.len() - i - 2 && is_photoshop_block(d, i + 4) {
                    let end = i + 2 + seg_len;
                    let block = &d[i + 18..end];
                    let mut rows = parse_iptc_records(block);
                    out.append(&mut rows);
                }
            }
            assert(crate::readout::rows_view(out@) =~= before + app13_rows(d@, i as int));
            i = i + 2;
        } else {
            i = i + 1;
        }
    }
    assert(iptc_from(d@, i as int) =~= Seq::empty());
    assert(crate::readout::rows_view(out@) + Seq::empty() =~= crate::readout::rows_view(out@));
    out
}

} // verus!
