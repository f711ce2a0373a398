//! The field set and the XMP sidecar text that a selection of equipment
//! becomes.
use vstd::prelude::*;
use vstd::string::{StrSliceExecFns, StringExecFns};
use crate::merge::{Field, FieldValue};
use crate::models::{Lens, Selection};
use crate::readout::{digits, push_char, push_digits};
use crate::tags::str_eq;

verus! {

/// Conversion of a selection into metadata.
pub struct ExifTags;

pub open spec fn is_digit(c: char) -> bool {
    '0' <= c && c <= '9'
}

pub open spec fn all_digits(s: Seq<char>) -> bool {
    forall|i: int| 0 <= i < s.len() ==> #[trigger] is_digit(s[i])
}

pub open spec fn digit_value(c: char) -> nat {
    (c as u32 - 48) as nat
}

/// The number that a run of decimal digits writes.
pub open spec fn number_of(s: Seq<char>) -> nat
    decreases s.len(),
{
    if s.len() == 0 {
        0
    } else {
        number_of(s.drop_last()) * 10 + digit_value(s.last())
    }
}

/// Thousandths of the fraction written by the digits `f`, rounded half up.
pub open spec fn frac_millis(f: Seq<char>) -> nat {
    let a: nat = if f.len() >= 1 {
        digit_value(f[0]) * 100
    } else {
        0
    };
    let b: nat = if f.len() >= 2 {
        digit_value(f[1]) * 10
    } else {
        0
    };
    let c: nat = if f.len() >= 3 {
        digit_value(f[2])
    } else {
        0
    };
    let up: nat = if f.len() >= 4 && digit_value(f[3]) >= 5 {
        1
    } else {
        0
    };
    a + b + c + up
}

/// Whether `d` is the position of the point of a decimal: digits, a point,
/// digits, with a digit on at least one side.
pub open spec fn point_at(s: Seq<char>, d: int) -> bool {
    0 <= d < s.len() && s.len() >= 2 && s[d] == '.' && all_digits(s.take(d)) && all_digits(
        s.skip(d + 1),
    )
}

/// The text without a leading plus sign.
pub open spec fn unsigned_part(s: Seq<char>) -> Seq<char> {
    if s.len() > 0 && s[0] == '+' {
        s.skip(1)
    } else {
        s
    }
}

/// Thousandths of a decimal written with an optional plus sign, then
/// digits, a point and digits, either side of the point possibly empty
/// (but not both), or digits alone; rounded half up at the fourth decimal.
pub open spec fn decimal_millis(s: Seq<char>) -> Option<nat> {
    unsigned_millis(unsigned_part(s))
}

/// Thousandths of an unsigned decimal.
pub open spec fn unsigned_millis(s: Seq<char>) -> Option<nat> {
    if s.len() > 0 && all_digits(s) {
        Some(number_of(s) * 1000)
    } else if exists|d: int| point_at(s, d) {
        let d = choose|d: int| point_at(s, d);
        Some(number_of(s.take(d)) * 1000 + frac_millis(s.skip(d + 1)))
    } else {
        None
    }
}

/// The value, in thousandths and rounded half up, that a rational reads as.
pub open spec fn rational_millis(num: nat, den: nat) -> nat {
    if den == 0 {
        0
    } else {
        (num * 1000 + den / 2) / den
    }
}

/// A focal length stored as thousandths over 1000 reads back exactly.
pub proof fn law_rational_reads_back(m: nat)
    ensures
        rational_millis(m, 1000) == m,
{
    assert((m * 1000 + 500) / 1000 == m) by (nonlinear_arith);
}

proof fn lemma_point_unique(s: Seq<char>, d: int, e: int)
    requires
        point_at(s, d),
        point_at(s, e),
    ensures
        d == e,
{
    if d < e {
        assert(is_digit(s.take(e)[d]));
    } else if e < d {
        assert(is_digit(s.take(d)[e]));
    }
}

fn digits_value(s: &str, from: usize, to: usize) -> (r: Option<u64>)
    requires
        from <= to <= s@.len(),
    ensures
        match r {
            Some(v) => all_digits(s@.subrange(from as int, to as int)) && v == number_of(
                s@.subrange(from as int, to as int),
            ),
            None => !all_digits(s@.subrange(from as int, to as int)) || number_of(
                s@.subrange(from as int, to as int),
            ) > 10_000_000_000,
        },
{
    let mut v: u64 = 0;
    let mut i: usize = from;
    while i < to
        invariant
            from <= i <= to <= s@.len(),
            all_digits(s@.subrange(from as int, i as int)),
            v == number_of(s@.subrange(from as int, i as int)),
            v <= 10_000_000_000,
        decreases to - i,
    {
        let c = s.get_char(i);
        assert(s@.subrange(from as int, i + 1).drop_last() =~= s@.subrange(from as int, i as int));
        if !('0' <= c && c <= '9') {
            assert(!is_digit(s@.subrange(from as int, to as int)[i - from]));
            return None;
        }
        let nv = v * 10 + (c as u64 - 48);
        i = i + 1;
        if nv > 10_000_000_000 {
            proof {
                lemma_number_grows(s@.subrange(from as int, to as int), i - from);
                assert(s@.subrange(from as int, to as int).take(i - from) =~= s@.subrange(
                    from as int,
                    i as int,
                ));
            }
            return None;
        }
        v = nv;
    }
    Some(v)
}

proof fn lemma_number_grows(s: Seq<char>, k: int)
    requires
        0 <= k <= s.len(),
        all_digits(s.take(k)),
    ensures
        all_digits(s) ==> number_of(s.take(k)) <= number_of(s),
    decreases s.len(),
{
    if k < s.len() && all_digits(s) {
        assert(s.drop_last().take(k) =~= s.take(k));
        assert(all_digits(s.drop_last()));
        lemma_number_grows(s.drop_last(), k);
    } else if k == s.len() {
        assert(s.take(k) =~= s);
    }
}

fn digits_only(s: &str, from: usize, to: usize) -> (r: bool)
    requires
        from <= to <= s@.len(),
    ensures
        r == all_digits(s@.subrange(from as int, to as int)),
{
    let mut i: usize = from;
    while i < to
        invariant
            from <= i <= to <= s@.len(),
            all_digits(s@.subrange(from as int, i as int)),
        decreases to - i,
    {
        let c = s.get_char(i);
        if !('0' <= c && c <= '9') {
            assert(!is_digit(s@.subrange(from as int, to as int)[i - from]));
            return false;
        }
        i = i + 1;
        assert forall|k: int| 0 <= k < i - from implies #[trigger] is_digit(
            s@.subrange(from as int, i as int)[k],
        ) by {
            if k < i - 1 - from {
                assert(s@.subrange(from as int, i as int)[k] == s@.subrange(from as int, i - 1)[k]);
            }
        }
    }
    true
}

fn digit_at(s: &str, i: usize) -> (r: u64)
    requires
        i < s@.len(),
        is_digit(s@[i as int]),
    ensures
        r == digit_value(s@[i as int]),
        r <= 9,
{
    s.get_char(i) as u64 - 48
}

/// Thousandths of a focal length written as a decimal (see
/// `decimal_millis`), when they fit 32 bits.
pub fn focal_length_millis(text: &str) -> (r: Option<u32>)
    ensures
        match r {
            Some(m) => decimal_millis(text@) == Some(m as nat),
            None => decimal_millis(text@) is None || decimal_millis(text@)->0 > 0xFFFF_FFFF,
        },
{
    let n = text.unicode_len();
    if n > 0 && text.get_char(0) == '+' {
        unsigned_focal_millis(text.substring_char(1, n))
    } else {
        unsigned_focal_millis(text)
    }
}

fn unsigned_focal_millis(text: &str) -> (r: Option<u32>)
    ensures
        match r {
            Some(m) => unsigned_millis(text@) == Some(m as nat),
            None => unsigned_millis(text@) is None || unsigned_millis(text@)->0 > 0xFFFF_FFFF,
        },
{
    let n = text.unicode_len();
    let mut d: usize = 0;
    while d < n && text.get_char(d) != '.'
        invariant
            n == text@.len(),
            d <= n,
            forall|k: int| 0 <= k < d ==> text@[k] != '.',
        decreases n - d,
    {
        d = d + 1;
    }
    if d == n {
        assert(text@.subrange(0, n as int) =~= text@);
        if n == 0 {
            return None;
        }
        match digits_value(text, 0, n) {
            Some(v) => {
                if v > 4_294_967 {
                    return None;
                }
                return Some((v * 1000) as u32);
            },
            None => {
                assert forall|e: int| !point_at(text@, e) by {
                    if 0 <= e < n && text@[e] == '.' {
                    }
                }
                return None;
            },
        }
    }
    assert forall|e: int| point_at(text@, e) implies e == d by {
        if e < d {
        } else if e > d {
            assert(!is_digit(text@.take(e)[d as int]));
        }
    }
    assert(!all_digits(text@)) by {
        assert(!is_digit(text@[d as int]));
    }
    if n < 2 {
        return None;
    }
    let int_part = digits_value(text, 0, d);
    let frac_ok = digits_only(text, d + 1, n);
    assert(text@.subrange(0, d as int) =~= text@.take(d as int));
    assert(text@.subrange(d + 1, n as int) =~= text@.skip(d + 1));
    if !frac_ok {
        assert(!point_at(text@, d as int));
        return None;
    }
    match int_part {
        Some(a) => {
            assert(point_at(text@, d as int));
            let ghost f = text@.skip(d + 1);
            let mut frac: u64 = 0;
            if n - d > 1 {
                assert(is_digit(f[0]) && f[0] == text@[d + 1]);
                frac = digit_at(text, d + 1) * 100;
            }
            if n - d > 2 {
                assert(is_digit(f[1]) && f[1] == text@[d + 2]);
                frac = frac + digit_at(text, d + 2) * 10;
            }
            if n - d > 3 {
                assert(is_digit(f[2]) && f[2] == text@[d + 3]);
                frac = frac + digit_at(text, d + 3);
            }
            if n - d > 4 {
                assert(is_digit(f[3]) && f[3] == text@[d + 4]);
                if digit_at(text, d + 4) >= 5 {
                    frac = frac + 1;
                }
            }
            assert(frac == frac_millis(f));
            if a > 4_294_967 {
                return None;
            }
            let total = a * 1000 + frac;
            if total > 0xFFFF_FFFF {
                return None;
            }
            Some(total as u32)
        },
        None => {
            proof {
                if all_digits(text@.take(d as int)) {
                    assert(point_at(text@, d as int));
                } else {
                    assert(!point_at(text@, d as int));
                }
            }
            None
        },
    }
}

/// Whether a field has the given key and text.
pub open spec fn is_text_field(f: Field, key: Seq<char>, text: Seq<char>) -> bool {
    f.name@ == key && (f.value matches FieldValue::Text(s) && s@ == text)
}

/// The film text written to metadata: "Maker Name (ISO n)".
pub open spec fn film_text(sel: Selection) -> Seq<char> {
    sel.film.maker@ + " "@ + sel.film.name@ + " (ISO "@ + digits(sel.film.iso as nat) + ")"@
}

/// The fields written for a lens.
pub open spec fn lens_fields_ok(fs: Seq<Field>, lens: Lens) -> bool {
    &&& fs.len() >= 2
    &&& is_text_field(fs[0], "LensMake"@, lens.maker@)
    &&& is_text_field(fs[1], "LensModel"@, lens.model@ + " "@ + lens.focal_length@ + "mm f/"@ + lens.aperture@)
    &&& match decimal_millis(lens.focal_length@) {
        Some(m) if m <= 0xFFFF_FFFF => fs.len() == 3 && fs[2].name@ == "FocalLength"@
            && fs[2].value == FieldValue::Rational(m as u32, 1000),
        _ => fs.len() == 2,
    }
}

fn text_field(key: &str, text: String) -> (r: Field)
    ensures
        is_text_field(r, key@, text@),
{
    Field { name: String::from_str(key), value: FieldValue::Text(text) }
}

/// The field set written for a selection: make, model, artist, film,
/// EXIF version 0232, the film's ISO rating, the ISO shot (the shot ISO
/// when given, else the film's), and for a lens its make, complete model
/// and focal length in thousandths of a millimetre.
pub open spec fn exif_object_ok(r: Seq<Field>, selection: Selection, shot_iso: Option<u32>) -> bool {
    &&& r.len() >= 7
    &&& is_text_field(r[0], "Make"@, selection.camera.maker@)
    &&& is_text_field(r[1], "Model"@, selection.camera.model@)
    &&& is_text_field(r[2], "Artist"@, selection.photographer.name@)
    &&& is_text_field(r[3], "Film"@, film_text(selection))
    &&& r[4].name@ == "ExifVersion"@ && (r[4].value matches FieldValue::Bytes(b) && b@ == seq![
        0x30u8,
        0x32u8,
        0x33u8,
        0x32u8,
    ])
    &&& r[5].name@ == "ISOSpeedRatings"@ && r[5].value == FieldValue::Short(selection.film.iso)
    &&& r[6].name@ == "ISOSpeed"@ && r[6].value == FieldValue::Short(
        match shot_iso {
            Some(i) => i,
            None => selection.film.iso,
        },
    )
    &&& match selection.lens {
        Some(l) => lens_fields_ok(r.skip(7), l),
        None => r.len() == 7,
    }
}

impl ExifTags {
    /// The field set written for a selection, with the ISO shot when it
    /// differs from the film's rating (push or pull processing).
    pub fn create_exif_object_with_iso(selection: &Selection, shot_iso: Option<u32>) -> (r: Vec<Field>)
        ensures
            exif_object_ok(r@, *selection, shot_iso),
    {
        let mut fs: Vec<Field> = Vec::new();
        fs.push(text_field("Make", String::from_str(selection.camera.maker.as_str())));
        fs.push(text_field("Model", String::from_str(selection.camera.model.as_str())));
        fs.push(text_field("Artist", String::from_str(selection.photographer.name.as_str())));
        fs.push(text_field("Film", selection.film.display_name()));
        let mut version: Vec<u8> = Vec::new();
        version.push(0x30);
        version.push(0x32);
        version.push(0x33);
        version.push(0x32);
        assert(version@ =~= seq![0x30u8, 0x32u8, 0x33u8, 0x32u8]);
        fs.push(Field { name: String::from_str("ExifVersion"), value: FieldValue::Bytes(version) });
        fs.push(
            Field { name: String::from_str("ISOSpeedRatings"), value: FieldValue::Short(selection.film.iso) },
        );
        let iso = match shot_iso {
            Some(i) => i,
            None => selection.film.iso,
        };
        fs.push(Field { name: String::from_str("ISOSpeed"), value: FieldValue::Short(iso) });
        let ghost head = fs@;
        match &selection.lens {
            Some(lens) => {
                fs.push(text_field("LensMake", String::from_str(lens.maker.as_str())));
                fs.push(text_field("LensModel", lens.complete_lens_model()));
                match focal_length_millis(lens.focal_length.as_str()) {
                    Some(m) => {
                        fs.push(
                            Field {
                                name: String::from_str("FocalLength"),
                                value: FieldValue::Rational(m, 1000),
                            },
                        );
                    },
                    None => {},
                }
                assert(fs@.skip(7)[0] == fs@[7]);
                assert(fs@.skip(7)[1] == fs@[8]);
                assert(fs@.len() == 10 ==> fs@.skip(7)[2] == fs@[9]);
            },
            None => {},
        }
        assert(fs@[0] == head[0] && fs@[1] == head[1] && fs@[2] == head[2] && fs@[3] == head[3]
            && fs@[4] == head[4] && fs@[5] == head[5] && fs@[6] == head[6]);
        fs
    }

    /// The field set written for a selection shot at the film's rating.
    pub fn create_exif_object(selection: &Selection) -> (r: Vec<Field>)
        ensures
            exif_object_ok(r@, *selection, None),
    {
        ExifTags::create_exif_object_with_iso(selection, None)
    }
}

/// Opening of the sidecar document, up to the camera make.
pub const XMP_HEAD: &'static str = "<?xml version=\"1.0\" encoding=\"UTF-8\"?>\n<x:xmpmeta xmlns:x=\"adobe:ns:meta/\" x:xmptk=\"Adobe XMP Core\">\n  <rdf:RDF xmlns:rdf=\"http://www.w3.org/1999/02/22-rdf-syntax-ns#\">\n    <rdf:Description rdf:about=\"\"\n        xmlns:tiff=\"http://ns.adobe.com/tiff/1.0/\"\n        xmlns:exif=\"http://ns.adobe.com/exif/1.0/\"\n        xmlns:dc=\"http://purl.org/dc/elements/1.1/\"\n        xmlns:aux=\"http://ns.adobe.com/exif/1.0/aux/\">\n      <tiff:Make>";
/// Between the camera make and model.
pub const XMP_MODEL: &'static str = "</tiff:Make>\n      <tiff:Model>";
/// After the camera model, before the lens lines.
pub const XMP_AFTER_MODEL: &'static str = "</tiff:Model>\n";
/// Opening of the lens lines.
pub const XMP_LENS: &'static str = "      <aux:LensModel>";
pub const XMP_FOCAL: &'static str = "</aux:LensModel>\n      <exif:FocalLength>";
pub const XMP_F_NUMBER: &'static str = "</exif:FocalLength>\n      <exif:FNumber>";
pub const XMP_LENS_END: &'static str = "</exif:FNumber>";
/// Between the lens lines and the ISO.
pub const XMP_ISO: &'static str = "\n      <exif:ISOSpeedRatings>\n        <rdf:Bag>\n          <rdf:li>";
/// Between the ISO and the creator.
pub const XMP_CREATOR: &'static str = "</rdf:li>\n        </rdf:Bag>\n      </exif:ISOSpeedRatings>\n      <dc:creator>\n        <rdf:Bag>\n          <rdf:li>";
/// Closing of the document.
pub const XMP_TAIL: &'static str = "</rdf:li>\n        </rdf:Bag>\n      </dc:creator>\n    </rdf:Description>\n  </rdf:RDF>\n</x:xmpmeta>";

/// A character as XML character data: the five markup characters become
/// entity references.
pub open spec fn xml_escape_char(c: char) -> Seq<char> {
    if c == '&' {
        "&amp;"@
    } else if c == '<' {
        "&lt;"@
    } else if c == '>' {
        "&gt;"@
    } else if c == '"' {
        "&quot;"@
    } else if c == '\'' {
        "&apos;"@
    } else {
        seq![c]
    }
}

/// A text as XML character data.
pub open spec fn xml_escape(s: Seq<char>) -> Seq<char>
    decreases s.len(),
{
    if s.len() == 0 {
        Seq::empty()
    } else {
        xml_escape(s.drop_last()) + xml_escape_char(s.last())
    }
}

/// Appends a text as XML character data.
fn push_escaped(out: &mut String, t: &str)
    ensures
        final(out)@ == old(out)@ + xml_escape(t@),
{
    let ghost start = out@;
    let n = t.unicode_len();
    let mut i: usize = 0;
    assert(t@.take(0) =~= Seq::<char>::empty());
    while i < n
        invariant
            n == t@.len(),
            i <= n,
            out@ == start + xml_escape(t@.take(i as int)),
        decreases n - i,
    {
        let c = t.get_char(i);
        let ghost before = out@;
        if c == '&' {
            out.append("&amp;");
        } else if c == '<' {
            out.append("&lt;");
        } else if c == '>' {
            out.append("&gt;");
        } else if c == '"' {
            out.append("&quot;");
        } else if c == '\'' {
            out.append("&apos;");
        } else {
            push_char(out, c);
            assert(out@ =~= before + seq![c]);
        }
        assert(t@.take(i + 1).drop_last() =~= t@.take(i as int));
        i = i + 1;
        assert(out@ =~= start + xml_escape(t@.take(i as int)));
    }
    assert(t@.take(i as int) =~= t@);
}

/// The sidecar lines of a lens: model with aperture, focal length, f-number.
pub open spec fn xmp_lens_text(lens: Option<Lens>) -> Seq<char> {
    match lens {
        Some(l) => XMP_LENS@ + xml_escape(l.model@ + " f/"@ + l.aperture@) + XMP_FOCAL@ + xml_escape(
            l.focal_length@,
        ) + XMP_F_NUMBER@ + xml_escape(l.aperture@) + XMP_LENS_END@,
        None => Seq::empty(),
    }
}

/// The XMP sidecar document of a selection with the given ISO; every
/// value is written as XML character data.
pub open spec fn xmp_text(sel: Selection, iso: u32) -> Seq<char> {
    XMP_HEAD@ + xml_escape(sel.camera.maker@) + XMP_MODEL@ + xml_escape(sel.camera.model@)
        + XMP_AFTER_MODEL@ + xmp_lens_text(sel.lens) + XMP_ISO@ + digits(iso as nat) + XMP_CREATOR@
        + xml_escape(sel.photographer.name@) + XMP_TAIL@
}

impl ExifTags {
    /// The XMP sidecar document for a selection, with the shot ISO when
    /// given and else the film's.
    pub fn create_xmp_metadata_with_iso(selection: &Selection, shot_iso: Option<u32>) -> (r: String)
        ensures
            r@ == xmp_text(
                *selection,
                match shot_iso {
                    Some(i) => i,
                    None => selection.film.iso,
                },
            ),
    {
        let iso = match shot_iso {
            Some(i) => i,
            None => selection.film.iso,
        };
        let mut s = String::from_str(XMP_HEAD);
        push_escaped(&mut s, selection.camera.maker.as_str());
        s.append(XMP_MODEL);
        push_escaped(&mut s, selection.camera.model.as_str());
        s.append(XMP_AFTER_MODEL);
        match &selection.lens {
            Some(l) => {
                s.append(XMP_LENS);
                push_escaped(&mut s, l.lens_model_with_aperture().as_str());
                s.append(XMP_FOCAL);
                push_escaped(&mut s, l.focal_length.as_str());
                s.append(XMP_F_NUMBER);
                push_escaped(&mut s, l.aperture.as_str());
                s.append(XMP_LENS_END);
            },
            None => {},
        }
        s.append(XMP_ISO);
        push_digits(&mut s, iso as u64);
        s.append(XMP_CREATOR);
        push_escaped(&mut s, selection.photographer.name.as_str());
        s.append(XMP_TAIL);
        assert(s@ =~= xmp_text(*selection, iso));
        s
    }

    /// The XMP sidecar document for a selection with the film's ISO.
    pub fn create_xmp_metadata(selection: &Selection) -> (r: String)
        ensures
            r@ == xmp_text(*selection, selection.film.iso),
    {
        ExifTags::create_xmp_metadata_with_iso(selection, None)
    }
}

/// The value that a selection gives a key of its field set, as text: the
/// same text that the field set writes for a text key, the decimal number
/// for a numeric one. `iso` is the ISO shot: the film's rating stays under
/// ISOSpeedRatings.
pub open spec fn tag_value_spec(tag: Seq<char>, sel: Selection, iso: u32) -> Option<Seq<char>> {
    if tag == "Make"@ {
        Some(sel.camera.maker@)
    } else if tag == "Model"@ {
        Some(sel.camera.model@)
    } else if tag == "LensMake"@ {
        match sel.lens {
            Some(l) => Some(l.maker@),
            None => None,
        }
    } else if tag == "LensModel"@ {
        match sel.lens {
            Some(l) => Some(l.model@ + " "@ + l.focal_length@ + "mm f/"@ + l.aperture@),
            None => None,
        }
    } else if tag == "FocalLength"@ {
        match sel.lens {
            Some(l) => Some(l.focal_length@),
            None => None,
        }
    } else if tag == "FNumber"@ {
        match sel.lens {
            Some(l) => Some(l.aperture@),
            None => None,
        }
    } else if tag == "ISOSpeedRatings"@ {
        Some(digits(sel.film.iso as nat))
    } else if tag == "ISOSpeed"@ {
        Some(digits(iso as nat))
    } else if tag == "Artist"@ {
        Some(sel.photographer.name@)
    } else if tag == "Film"@ {
        Some(film_text(sel))
    } else if tag == "ExifVersion"@ {
        Some("0232"@)
    } else {
        None
    }
}

impl ExifTags {
    /// The value that a selection gives a key, with the shot ISO when given.
    pub fn get_tag_value_with_iso(tag: &str, selection: &Selection, shot_iso: Option<u32>) -> (r: Option<String>)
        ensures
            match tag_value_spec(
                tag@,
                *selection,
                match shot_iso {
                    Some(i) => i,
                    None => selection.film.iso,
                },
            ) {
                Some(v) => r is Some && r->0@ == v,
                None => r is None,
            },
    {
        let iso = match shot_iso {
            Some(i) => i,
            None => selection.film.iso,
        };
        if str_eq(tag, "Make") {
            Some(selection.camera.maker.clone())
        } else if str_eq(tag, "Model") {
            Some(selection.camera.model.clone())
        } else if str_eq(tag, "LensMake") {
            match &selection.lens {
                Some(l) => Some(l.maker.clone()),
                None => None,
            }
        } else if str_eq(tag, "LensModel") {
            match &selection.lens {
                Some(l) => Some(l.complete_lens_model()),
                None => None,
            }
        } else if str_eq(tag, "FocalLength") {
            match &selection.lens {
                Some(l) => Some(l.focal_length.clone()),
                None => None,
            }
        } else if str_eq(tag, "FNumber") {
            match &selection.lens {
                Some(l) => Some(l.aperture.clone()),
                None => None,
            }
        } else if str_eq(tag, "ISOSpeedRatings") {
            let mut s = String::new();
            push_digits(&mut s, selection.film.iso as u64);
            assert(s@ =~= digits(selection.film.iso as nat));
            Some(s)
        } else if str_eq(tag, "ISOSpeed") {
            let mut s = String::new();
            push_digits(&mut s, iso as u64);
            assert(s@ =~= digits(iso as nat));
            Some(s)
        } else if str_eq(tag, "Artist") {
            Some(selection.photographer.name.clone())
        } else if str_eq(tag, "Film") {
            Some(selection.film.display_name())
        } else if str_eq(tag, "ExifVersion") {
            Some(String::from_str("0232"))
        } else {
            None
        }
    }

    /// The value that a selection gives a key, with the film's ISO.
    pub fn get_tag_value(tag: &str, selection: &Selection) -> (r: Option<String>)
        ensures
            match tag_value_spec(tag@, *selection, selection.film.iso) {
                Some(v) => r is Some && r->0@ == v,
                None => r is None,
            },
    {
        ExifTags::get_tag_value_with_iso(tag, selection, None)
    }
}

/// Looking up a key of a selection's field set gives the text that the
/// field set writes under it, for every text field.
pub proof fn law_lookup_matches_field_set(r: Seq<Field>, sel: Selection, shot_iso: Option<u32>)
    requires
        exif_object_ok(r, sel, shot_iso),
    ensures
        forall|i: int|
            0 <= i < r.len() ==> ((#[trigger] r[i]).value matches FieldValue::Text(t) ==> tag_value_spec(
                r[i].name@,
                sel,
                match shot_iso {
                    Some(x) => x,
                    None => sel.film.iso,
                },
            ) == Some(t@)),
{
    reveal_strlit("Make");
    reveal_strlit("Model");
    reveal_strlit("LensMake");
    reveal_strlit("LensModel");
    reveal_strlit("FocalLength");
    reveal_strlit("FNumber");
    reveal_strlit("ISOSpeedRatings");
    reveal_strlit("ISOSpeed");
    reveal_strlit("Artist");
    reveal_strlit("Film");
    reveal_strlit("ExifVersion");
    let iso = match shot_iso {
        Some(x) => x,
        None => sel.film.iso,
    };
    assert("Make"@.len() == 4 && "Model"@.len() == 5 && "LensMake"@.len() == 8 && "LensModel"@.len()
        == 9 && "FocalLength"@.len() == 11 && "FNumber"@.len() == 7 && "ISOSpeedRatings"@.len() == 15
        && "ISOSpeed"@.len() == 8 && "Artist"@.len() == 6 && "Film"@.len() == 4);
    assert("Film"@[0] != "Make"@[0]);
    assert forall|i: int| 0 <= i < r.len() implies ((#[trigger] r[i]).value matches FieldValue::Text(t)
        ==> tag_value_spec(r[i].name@, sel, iso) == Some(t@)) by {
        if i >= 7 {
            let l = sel.lens->0;
            let rest = r.skip(7);
            assert(r[i] == rest[i - 7]);
        }
    }
}

/// Opening of a date-only sidecar, up to the original date.
pub const XMP_DATE_HEAD: &'static str = "<?xml version=\"1.0\" encoding=\"UTF-8\"?>\n<x:xmpmeta xmlns:x=\"adobe:ns:meta/\" x:xmptk=\"Adobe XMP Core\">\n  <rdf:RDF xmlns:rdf=\"http://www.w3.org/1999/02/22-rdf-syntax-ns#\">\n    <rdf:Description rdf:about=\"\"\n        xmlns:exif=\"http://ns.adobe.com/exif/1.0/\">\n      <exif:DateTimeOriginal>";
/// Between the original and the digitized date.
pub const XMP_DATE_MID: &'static str = "</exif:DateTimeOriginal>\n      <exif:DateTimeDigitized>";
/// Closing of a date-only sidecar.
pub const XMP_DATE_TAIL: &'static str = "</exif:DateTimeDigitized>\n    </rdf:Description>\n  </rdf:RDF>\n</x:xmpmeta>";

impl ExifTags {
    /// The XMP sidecar that records a creation date, for raw files.
    pub fn create_xmp_date(date: &str) -> (r: String)
        ensures
            r@ == XMP_DATE_HEAD@ + xml_escape(date@) + XMP_DATE_MID@ + xml_escape(date@) + XMP_DATE_TAIL@,
    {
        let mut s = String::from_str(XMP_DATE_HEAD);
        push_escaped(&mut s, date);
        s.append(XMP_DATE_MID);
        push_escaped(&mut s, date);
        s.append(XMP_DATE_TAIL);
        s
    }
}

} // verus!
