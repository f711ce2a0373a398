//! The registry of tag identifiers and the field-set keys that name them,
//! and the TIFF field types with their element widths.
use vstd::prelude::*;
use vstd::string::StringSliceAdditionalSpecFns;

verus! {

/// The twelve TIFF field types.
#[derive(Debug, Clone, Copy, PartialEq, Eq, Structural)]
pub enum FieldType {
    Byte,
    Ascii,
    Short,
    Long,
    Rational,
    SByte,
    Undefined,
    SShort,
    SLong,
    SRational,
    Float,
    Double,
}

/// The field type that a raw type code stands for, if it is one of the twelve.
pub open spec fn field_type_of(code: u16) -> Option<FieldType> {
    match code {
        1 => Some(FieldType::Byte),
        2 => Some(FieldType::Ascii),
        3 => Some(FieldType::Short),
        4 => Some(FieldType::Long),
        5 => Some(FieldType::Rational),
        6 => Some(FieldType::SByte),
        7 => Some(FieldType::Undefined),
        8 => Some(FieldType::SShort),
        9 => Some(FieldType::SLong),
        10 => Some(FieldType::SRational),
        11 => Some(FieldType::Float),
        12 => Some(FieldType::Double),
        _ => None,
    }
}

impl FieldType {
    pub open spec fn spec_code(self) -> u16 {
        match self {
            FieldType::Byte => 1,
            FieldType::Ascii => 2,
            FieldType::Short => 3,
            FieldType::Long => 4,
            FieldType::Rational => 5,
            FieldType::SByte => 6,
            FieldType::Undefined => 7,
            FieldType::SShort => 8,
            FieldType::SLong => 9,
            FieldType::SRational => 10,
            FieldType::Float => 11,
            FieldType::Double => 12,
        }
    }

    pub open spec fn spec_size(self) -> u32 {
        match self {
            FieldType::Byte | FieldType::Ascii | FieldType::SByte | FieldType::Undefined => 1,
            FieldType::Short | FieldType::SShort => 2,
            FieldType::Long | FieldType::SLong | FieldType::Float => 4,
            FieldType::Rational | FieldType::SRational | FieldType::Double => 8,
        }
    }

    /// Width of the unit whose bytes a change of byte order reverses: a
    /// rational is two 4-byte halves.
    pub open spec fn spec_unit(self) -> u32 {
        match self {
            FieldType::Rational | FieldType::SRational => 4,
            _ => self.spec_size(),
        }
    }

    /// Decodes a raw type code.
    pub fn from_code(code: u16) -> (r: Option<FieldType>)
        ensures
            r == field_type_of(code),
    {
        match code {
            1 => Some(FieldType::Byte),
            2 => Some(FieldType::Ascii),
            3 => Some(FieldType::Short),
            4 => Some(FieldType::Long),
            5 => Some(FieldType::Rational),
            6 => Some(FieldType::SByte),
            7 => Some(FieldType::Undefined),
            8 => Some(FieldType::SShort),
            9 => Some(FieldType::SLong),
            10 => Some(FieldType::SRational),
            11 => Some(FieldType::Float),
            12 => Some(FieldType::Double),
            _ => None,
        }
    }

    /// The raw type code written into a directory entry.
    pub fn code(&self) -> (r: u16)
        ensures
            r == self.spec_code(),
            field_type_of(r) == Some(*self),
    {
        match self {
            FieldType::Byte => 1,
            FieldType::Ascii => 2,
            FieldType::Short => 3,
            FieldType::Long => 4,
            FieldType::Rational => 5,
            FieldType::SByte => 6,
            FieldType::Undefined => 7,
            FieldType::SShort => 8,
            FieldType::SLong => 9,
            FieldType::SRational => 10,
            FieldType::Float => 11,
            FieldType::Double => 12,
        }
    }

    /// Bytes taken by one element of this type.
    pub fn element_size(&self) -> (r: u32)
        ensures
            r == self.spec_size(),
    {
        match self {
            FieldType::Byte | FieldType::Ascii | FieldType::SByte | FieldType::Undefined => 1,
            FieldType::Short | FieldType::SShort => 2,
            FieldType::Long | FieldType::SLong | FieldType::Float => 4,
            FieldType::Rational | FieldType::SRational | FieldType::Double => 8,
        }
    }

    /// Width of the unit that a change of byte order reverses.
    pub fn order_unit(&self) -> (r: u32)
        ensures
            r == self.spec_unit(),
    {
        match self {
            FieldType::Rational | FieldType::SRational => 4,
            _ => self.element_size(),
        }
    }
}

/// Bytes taken by one element of the given type.
pub fn type_byte_size(t: FieldType) -> (r: u32)
    ensures
        r == t.spec_size(),
{
    t.element_size()
}

pub const TAG_IMAGE_DESCRIPTION: u16 = 0x010E;
pub const TAG_MAKE: u16 = 0x010F;
pub const TAG_MODEL: u16 = 0x0110;
pub const TAG_SOFTWARE: u16 = 0x0131;
pub const TAG_DATE_TIME: u16 = 0x0132;
pub const TAG_ARTIST: u16 = 0x013B;
pub const TAG_FILM: u16 = 0x0289;
pub const TAG_COPYRIGHT: u16 = 0x8298;
pub const TAG_F_NUMBER: u16 = 0x829D;
pub const TAG_ISO_SPEED_RATINGS: u16 = 0x8827;
pub const TAG_ISO_SPEED: u16 = 0x8833;
pub const TAG_EXIF_VERSION: u16 = 0x9000;
pub const TAG_DATE_TIME_ORIGINAL: u16 = 0x9003;
pub const TAG_DATE_TIME_DIGITIZED: u16 = 0x9004;
pub const TAG_FOCAL_LENGTH: u16 = 0x920A;
pub const TAG_LENS_MAKE: u16 = 0xA433;
pub const TAG_LENS_MODEL: u16 = 0xA434;

/// The tag that a field-set key stands for.
pub open spec fn tag_for_key(key: Seq<char>) -> Option<u16> {
    if key == "Make"@ {
        Some(TAG_MAKE)
    } else if key == "Model"@ {
        Some(TAG_MODEL)
    } else if key == "Artist"@ {
        Some(TAG_ARTIST)
    } else if key == "Copyright"@ {
        Some(TAG_COPYRIGHT)
    } else if key == "Software"@ {
        Some(TAG_SOFTWARE)
    } else if key == "ImageDescription"@ {
        Some(TAG_IMAGE_DESCRIPTION)
    } else if key == "LensMake"@ {
        Some(TAG_LENS_MAKE)
    } else if key == "LensModel"@ {
        Some(TAG_LENS_MODEL)
    } else if key == "FocalLength"@ {
        Some(TAG_FOCAL_LENGTH)
    } else if key == "FNumber"@ || key == "Aperture"@ {
        Some(TAG_F_NUMBER)
    } else if key == "ISOSpeedRatings"@ || key == "IsoSpeedRatings"@ {
        Some(TAG_ISO_SPEED_RATINGS)
    } else if key == "ISOSpeed"@ || key == "IsoSpeed"@ {
        Some(TAG_ISO_SPEED)
    } else if key == "Film"@ {
        Some(TAG_FILM)
    } else if key == "DateTime"@ {
        Some(TAG_DATE_TIME)
    } else if key == "DateTimeOriginal"@ {
        Some(TAG_DATE_TIME_ORIGINAL)
    } else if key == "DateTimeDigitized"@ {
        Some(TAG_DATE_TIME_DIGITIZED)
    } else if key == "ExifVersion"@ {
        Some(TAG_EXIF_VERSION)
    } else {
        None
    }
}

/// Whether two strings hold the same characters.
pub fn str_eq(a: &str, b: &str) -> (r: bool)
    ensures
        r == (a@ == b@),
{
    let x = a.as_bytes();
    let y = b.as_bytes();
    proof {
        vstd::utf8::encode_utf8_decode_utf8(a@);
        vstd::utf8::encode_utf8_decode_utf8(b@);
    }
    if x.len() != y.len() {
        return false;
    }
    let mut i: usize = 0;
    while i < x.len()
        invariant
            x@ == a.spec_bytes(),
            y@ == b.spec_bytes(),
            x@.len() == y@.len(),
            i <= x@.len(),
            forall|k: int| 0 <= k < i ==> x@[k] == y@[k],
        decreases x@.len() - i,
    {
        if x[i] != y[i] {
            assert(x@ != y@);
            return false;
        }
        i = i + 1;
    }
    assert(x@ =~= y@);
    true
}

/// Resolves a field-set key to its tag.
pub fn name_to_tag(name: &str) -> (r: Option<u16>)
    ensures
        r == tag_for_key(name@),
{
    if str_eq(name, "Make") {
        Some(TAG_MAKE)
    } else if str_eq(name, "Model") {
        Some(TAG_MODEL)
    } else if str_eq(name, "Artist") {
        Some(TAG_ARTIST)
    } else if str_eq(name, "Copyright") {
        Some(TAG_COPYRIGHT)
    } else if str_eq(name, "Software") {
        Some(TAG_SOFTWARE)
    } else if str_eq(name, "ImageDescription") {
        Some(TAG_IMAGE_DESCRIPTION)
    } else if str_eq(name, "LensMake") {
        Some(TAG_LENS_MAKE)
    } else if str_eq(name, "LensModel") {
        Some(TAG_LENS_MODEL)
    } else if str_eq(name, "FocalLength") {
        Some(TAG_FOCAL_LENGTH)
    } else if str_eq(name, "FNumber") || str_eq(name, "Aperture") {
        Some(TAG_F_NUMBER)
    } else if str_eq(name, "ISOSpeedRatings") || str_eq(name, "IsoSpeedRatings") {
        Some(TAG_ISO_SPEED_RATINGS)
    } else if str_eq(name, "ISOSpeed") || str_eq(name, "IsoSpeed") {
        Some(TAG_ISO_SPEED)
    } else if str_eq(name, "Film") {
        Some(TAG_FILM)
    } else if str_eq(name, "DateTime") {
        Some(TAG_DATE_TIME)
    } else if str_eq(name, "DateTimeOriginal") {
        Some(TAG_DATE_TIME_ORIGINAL)
    } else if str_eq(name, "DateTimeDigitized") {
        Some(TAG_DATE_TIME_DIGITIZED)
    } else if str_eq(name, "ExifVersion") {
        Some(TAG_EXIF_VERSION)
    } else {
        None
    }
}

} // verus!
