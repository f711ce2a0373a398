//! Human-readable rendering of directory entries: tag names, values, the
//! display truncation and the sorted readout of a directory.
use vstd::prelude::*;
use vstd::string::{StringExecFns, StringSliceAdditionalSpecFns};
use vstd::utf8::{decode_utf8, encode_utf8, is_char_boundary};
use crate::bytes::{get_le16, get_le32};
use crate::codec::{entries_view, EntryView, IfdEntry};
use crate::tags::{field_type_of, FieldType};

verus! {

/// Display name of a tag in the registry.
pub open spec fn known_tag_name(t: u16) -> Option<Seq<char>> {
    match t {
        0x010E => Some("Image Description"@),
        0x010F => Some("Make"@),
        0x0110 => Some("Model"@),
        0x0112 => Some("Orientation"@),
        0x011A => Some("X Resolution"@),
        0x011B => Some("Y Resolution"@),
        0x0128 => Some("Resolution Unit"@),
        0x0131 => Some("Software"@),
        0x0132 => Some("Date/Time"@),
        0x013B => Some("Artist"@),
        0x0289 => Some("Film"@),
        0x8298 => Some("Copyright"@),
        0x829A => Some("Exposure Time"@),
        0x829D => Some("F-Number"@),
        0x8822 => Some("Exposure Program"@),
        0x8827 => Some("ISO Speed"@),
        0x8833 => Some("ISOSpeed"@),
        0x9000 => Some("EXIF Version"@),
        0x9003 => Some("Date/Time Original"@),
        0x9004 => Some("Date/Time Digitized"@),
        0x9101 => Some("Components Configuration"@),
        0x9102 => Some("Compressed Bits Per Pixel"@),
        0x9201 => Some("Shutter Speed Value"@),
        0x9202 => Some("Aperture Value"@),
        0x9203 => Some("Brightness Value"@),
        0x9204 => Some("Exposure Bias Value"@),
        0x9205 => Some("Max Aperture Value"@),
        0x9206 => Some("Subject Distance"@),
        0x9207 => Some("Metering Mode"@),
        0x9208 => Some("Light Source"@),
        0x9209 => Some("Flash"@),
        0x920A => Some("Focal Length"@),
        0x927C => Some("Maker Note"@),
        0x9286 => Some("User Comment"@),
        0xA000 => Some("Flashpix Version"@),
        0xA001 => Some("Color Space"@),
        0xA002 => Some("Pixel X Dimension"@),
        0xA003 => Some("Pixel Y Dimension"@),
        0xA004 => Some("Related Sound File"@),
        0xA20E => Some("Focal Plane X Resolution"@),
        0xA20F => Some("Focal Plane Y Resolution"@),
        0xA210 => Some("Focal Plane Resolution Unit"@),
        0xA214 => Some("Subject Location"@),
        0xA215 => Some("Exposure Index"@),
        0xA217 => Some("Sensing Method"@),
        0xA300 => Some("File Source"@),
        0xA301 => Some("Scene Type"@),
        0xA302 => Some("CFA Pattern"@),
        0xA401 => Some("Custom Rendered"@),
        0xA402 => Some("Exposure Mode"@),
        0xA403 => Some("White Balance"@),
        0xA404 => Some("Digital Zoom Ratio"@),
        0xA405 => Some("Focal Length (35mm equiv)"@),
        0xA406 => Some("Scene Capture Type"@),
        0xA407 => Some("Gain Control"@),
        0xA408 => Some("Contrast"@),
        0xA409 => Some("Saturation"@),
        0xA40A => Some("Sharpness"@),
        0xA40B => Some("Device Setting Description"@),
        0xA40C => Some("Subject Distance Range"@),
        0xA420 => Some("Image Unique ID"@),
        0xA432 => Some("Lens Specification"@),
        0xA433 => Some("Lens Make"@),
        0xA434 => Some("Lens Model"@),
        0xA435 => Some("Lens Serial Number"@),
        _ => None,
    }
}

/// Display name of a tag in the registry.
pub fn registered_tag_name(t: u16) -> (r: Option<&'static str>)
    ensures
        match known_tag_name(t) {
            Some(n) => r is Some && r->0@ == n,
            None => r is None,
        },
{
    match t {
        0x010E => Some("Image Description"),
        0x010F => Some("Make"),
        0x0110 => Some("Model"),
        0x0112 => Some("Orientation"),
        0x011A => Some("X Resolution"),
        0x011B => Some("Y Resolution"),
        0x0128 => Some("Resolution Unit"),
        0x0131 => Some("Software"),
        0x0132 => Some("Date/Time"),
        0x013B => Some("Artist"),
        0x0289 => Some("Film"),
        0x8298 => Some("Copyright"),
        0x829A => Some("Exposure Time"),
        0x829D => Some("F-Number"),
        0x8822 => Some("Exposure Program"),
        0x8827 => Some("ISO Speed"),
        0x8833 => Some("ISOSpeed"),
        0x9000 => Some("EXIF Version"),
        0x9003 => Some("Date/Time Original"),
        0x9004 => Some("Date/Time Digitized"),
        0x9101 => Some("Components Configuration"),
        0x9102 => Some("Compressed Bits Per Pixel"),
        0x9201 => Some("Shutter Speed Value"),
        0x9202 => Some("Aperture Value"),
        0x9203 => Some("Brightness Value"),
        0x9204 => Some("Exposure Bias Value"),
        0x9205 => Some("Max Aperture Value"),
        0x9206 => Some("Subject Distance"),
        0x9207 => Some("Metering Mode"),
        0x9208 => Some("Light Source"),
        0x9209 => Some("Flash"),
        0x920A => Some("Focal Length"),
        0x927C => Some("Maker Note"),
        0x9286 => Some("User Comment"),
        0xA000 => Some("Flashpix Version"),
        0xA001 => Some("Color Space"),
        0xA002 => Some("Pixel X Dimension"),
        0xA003 => Some("Pixel Y Dimension"),
        0xA004 => Some("Related Sound File"),
        0xA20E => Some("Focal Plane X Resolution"),
        0xA20F => Some("Focal Plane Y Resolution"),
        0xA210 => Some("Focal Plane Resolution Unit"),
        0xA214 => Some("Subject Location"),
        0xA215 => Some("Exposure Index"),
        0xA217 => Some("Sensing Method"),
        0xA300 => Some("File Source"),
        0xA301 => Some("Scene Type"),
        0xA302 => Some("CFA Pattern"),
        0xA401 => Some("Custom Rendered"),
        0xA402 => Some("Exposure Mode"),
        0xA403 => Some("White Balance"),
        0xA404 => Some("Digital Zoom Ratio"),
        0xA405 => Some("Focal Length (35mm equiv)"),
        0xA406 => Some("Scene Capture Type"),
        0xA407 => Some("Gain Control"),
        0xA408 => Some("Contrast"),
        0xA409 => Some("Saturation"),
        0xA40A => Some("Sharpness"),
        0xA40B => Some("Device Setting Description"),
        0xA40C => Some("Subject Distance Range"),
        0xA420 => Some("Image Unique ID"),
        0xA432 => Some("Lens Specification"),
        0xA433 => Some("Lens Make"),
        0xA434 => Some("Lens Model"),
        0xA435 => Some("Lens Serial Number"),
        _ => None,
    }
}

/// Relies on `String::push`: appends one character.
#[verifier::external_body]
pub(crate) fn push_char(s: &mut String, c: char)
    ensures
        final(s)@ == old(s)@.push(c),
{
    s.push(c)
}

/// Each byte as the character with that code.
pub open spec fn byte_chars(b: Seq<u8>) -> Seq<char>
    decreases b.len(),
{
    if b.len() == 0 {
        Seq::empty()
    } else {
        byte_chars(b.drop_last()).push(b.last() as char)
    }
}

/// Decimal digits of `n`.
pub open spec fn digits(n: nat) -> Seq<char>
    decreases n,
{
    if n < 10 {
        seq![((48 + n) as u8) as char]
    } else {
        digits(n / 10).push(((48 + n % 10) as u8) as char)
    }
}

/// Decimal rendering of a signed value.
pub open spec fn signed_digits(v: int) -> Seq<char> {
    if v < 0 {
        "-"@ + digits((-v) as nat)
    } else {
        digits(v as nat)
    }
}

fn push_bytes_as_chars(s: &mut String, b: &[u8])
    ensures
        final(s)@ == old(s)@ + byte_chars(b@),
{
    let ghost start = s@;
    let mut i: usize = 0;
    while i < b.len()
        invariant
            i <= b@.len(),
            s@ == start + byte_chars(b@.take(i as int)),
        decreases b@.len() - i,
    {
        push_char(s, b[i] as char);
        i = i + 1;
        assert(b@.take(i as int).drop_last() =~= b@.take(i - 1));
        assert(s@ =~= start + byte_chars(b@.take(i as int)));
    }
    assert(b@.take(i as int) =~= b@);
}

pub(crate) fn push_digits(s: &mut String, n: u64)
    ensures
        final(s)@ == old(s)@ + digits(n as nat),
    decreases n,
{
    if n >= 10 {
        push_digits(s, n / 10);
    }
    push_char(s, ((48 + n % 10) as u8) as char);
    assert(final(s)@ =~= old(s)@ + digits(n as nat));
}

fn push_signed_digits(s: &mut String, v: i64)
    ensures
        final(s)@ == old(s)@ + signed_digits(v as int),
{
    if v < 0 {
        s.append("-");
        let m: u64 = if v == i64::MIN {
            9223372036854775808u64
        } else {
            (-v) as u64
        };
        push_digits(s, m);
        assert(final(s)@ =~= old(s)@ + signed_digits(v as int));
    } else {
        push_digits(s, v as u64);
    }
}

/// Display name of a tag: its registry name, or "Tag " and its number.
pub open spec fn tag_display_name(t: u16) -> Seq<char> {
    match known_tag_name(t) {
        Some(n) => n,
        None => "Tag "@ + digits(t as nat),
    }
}

/// Display name of a tag: its registry name, or "Tag " and its number.
pub fn tag_to_name(tag: u16) -> (r: String)
    ensures
        r@ == tag_display_name(tag),
{
    match registered_tag_name(tag) {
        Some(n) => String::from_str(n),
        None => {
            let mut s = String::from_str("Tag ");
            push_digits(&mut s, tag as u64);
            s
        },
    }
}

// ---------------------------------------------------------------------------
// ASCII values
// ---------------------------------------------------------------------------

/// An ASCII graphic character or ASCII white space.
pub open spec fn printable(b: u8) -> bool {
    (0x21 <= b && b <= 0x7E) || is_space(b)
}

pub open spec fn is_space(b: u8) -> bool {
    b == 0x20 || b == 0x09 || b == 0x0A || b == 0x0C || b == 0x0D
}

pub open spec fn keep_printable(s: Seq<u8>) -> Seq<u8>
    decreases s.len(),
{
    if s.len() == 0 {
        Seq::empty()
    } else {
        keep_printable(s.drop_last()) + if printable(s.last()) {
            seq![s.last()]
        } else {
            Seq::empty()
        }
    }
}

pub open spec fn trim_start(s: Seq<u8>) -> Seq<u8>
    decreases s.len(),
{
    if s.len() > 0 && is_space(s[0]) {
        trim_start(s.drop_first())
    } else {
        s
    }
}

pub open spec fn trim_end(s: Seq<u8>) -> Seq<u8>
    decreases s.len(),
{
    if s.len() > 0 && is_space(s.last()) {
        trim_end(s.drop_last())
    } else {
        s
    }
}

/// One NUL-separated string of an ASCII value, as displayed: printable
/// characters only, without surrounding white space.
pub open spec fn clean_piece(s: Seq<u8>) -> Seq<u8> {
    trim_end(trim_start(keep_printable(s)))
}

/// The NUL-separated strings of an ASCII value.
pub open spec fn nul_pieces(b: Seq<u8>) -> Seq<Seq<u8>>
    decreases b.len(),
{
    if b.len() == 0 {
        seq![Seq::empty()]
    } else {
        let p = nul_pieces(b.drop_last());
        if b.last() == 0 {
            p.push(Seq::empty())
        } else {
            p.update(p.len() - 1, p.last().push(b.last()))
        }
    }
}

/// The non-empty cleaned pieces, separated by ", ".
pub open spec fn join_pieces(ps: Seq<Seq<u8>>) -> Seq<u8>
    decreases ps.len(),
{
    if ps.len() == 0 {
        Seq::empty()
    } else {
        join_step(join_pieces(ps.drop_last()), clean_piece(ps.last()))
    }
}

pub open spec fn join_step(j: Seq<u8>, c: Seq<u8>) -> Seq<u8> {
    if c.len() == 0 {
        j
    } else if j.len() == 0 {
        c
    } else {
        j + seq![0x2Cu8, 0x20u8] + c
    }
}

/// Display text of an ASCII value.
pub open spec fn ascii_text(b: Seq<u8>) -> Seq<char> {
    let t = join_pieces(nul_pieces(b));
    if t.len() == 0 {
        "<binary data>"@
    } else {
        byte_chars(t)
    }
}

proof fn lemma_nul_pieces_nonempty(b: Seq<u8>)
    ensures
        nul_pieces(b).len() >= 1,
    decreases b.len(),
{
    if b.len() > 0 {
        lemma_nul_pieces_nonempty(b.drop_last());
    }
}

fn clean(s: &[u8]) -> (r: Vec<u8>)
    ensures
        r@ == clean_piece(s@),
{
    let mut f: Vec<u8> = Vec::new();
    let mut i: usize = 0;
    while i < s.len()
        invariant
            i <= s@.len(),
            f@ == keep_printable(s@.take(i as int)),
        decreases s@.len() - i,
    {
        let b = s[i];
        if (0x21 <= b && b <= 0x7E) || b == 0x20 || b == 0x09 || b == 0x0A || b == 0x0C || b == 0x0D {
            f.push(b);
        }
        i = i + 1;
        assert(s@.take(i as int).drop_last() =~= s@.take(i - 1));
        assert(f@ =~= keep_printable(s@.take(i as int)));
    }
    assert(s@.take(i as int) =~= s@);
    let ghost k = f@;
    let mut a: usize = 0;
    assert(k.skip(0) =~= k);
    while a < f.len() && (f[a] == 0x20 || f[a] == 0x09 || f[a] == 0x0A || f[a] == 0x0C || f[a] == 0x0D)
        invariant
            a <= f@.len(),
            k == f@,
            trim_start(k) == trim_start(k.skip(a as int)),
        decreases f@.len() - a,
    {
        assert(k.skip(a as int).drop_first() =~= k.skip(a + 1));
        a = a + 1;
    }
    assert(trim_start(k.skip(a as int)) == k.skip(a as int));
    let ghost m = k.skip(a as int);
    let mut z: usize = f.len();
    assert(m.take((z - a) as int) =~= m);
    while z > a && (f[z - 1] == 0x20 || f[z - 1] == 0x09 || f[z - 1] == 0x0A || f[z - 1] == 0x0C
        || f[z - 1] == 0x0D)
        invariant
            a <= z <= f@.len(),
            k == f@,
            m == k.skip(a as int),
            trim_end(m) == trim_end(m.take(z - a)),
        decreases z,
    {
        assert(m.take(z - a).drop_last() =~= m.take(z - 1 - a));
        z = z - 1;
    }
    assert(trim_end(m.take(z - a)) == m.take(z - a));
    let mut out: Vec<u8> = Vec::new();
    let mut j: usize = a;
    while j < z
        invariant
            a <= j <= z <= f@.len(),
            out@ == f@.subrange(a as int, j as int),
        decreases z - j,
    {
        out.push(f[j]);
        j = j + 1;
        assert(out@ =~= f@.subrange(a as int, j as int));
    }
    assert(out@ =~= m.take(z - a));
    out
}

fn append_piece(out: &mut Vec<u8>, piece: &[u8])
    ensures
        final(out)@ == join_step(old(out)@, clean_piece(piece@)),
{
    let c = clean(piece);
    if c.len() == 0 {
        return;
    }
    if out.len() > 0 {
        out.push(0x2C);
        out.push(0x20);
    }
    let mut i: usize = 0;
    let ghost start = out@;
    while i < c.len()
        invariant
            i <= c@.len(),
            out@ == start + c@.take(i as int),
        decreases c@.len() - i,
    {
        out.push(c[i]);
        i = i + 1;
        assert(out@ =~= start + c@.take(i as int));
    }
    assert(c@.take(i as int) =~= c@);
    assert(final(out)@ =~= join_step(old(out)@, clean_piece(piece@)));
}

fn ascii_value_text(b: &[u8]) -> (r: String)
    ensures
        r@ == ascii_text(b@),
{
    let mut out: Vec<u8> = Vec::new();
    let mut cur: Vec<u8> = Vec::new();
    let ghost mut done: Seq<Seq<u8>> = Seq::empty();
    let mut i: usize = 0;
    assert(b@.take(0) =~= Seq::<u8>::empty());
    while i < b.len()
        invariant
            i <= b@.len(),
            nul_pieces(b@.take(i as int)) == done.push(cur@),
            out@ == join_pieces(done),
        decreases b@.len() - i,
    {
        assert(b@.take(i + 1).drop_last() =~= b@.take(i as int));
        if b[i] == 0 {
            append_piece(&mut out, cur.as_slice());
            proof {
                assert(done.push(cur@).drop_last() =~= done);
                done = done.push(cur@);
            }
            cur = Vec::new();
        } else {
            let ghost p = done.push(cur@);
            cur.push(b[i]);
            assert(p.update(p.len() - 1, p.last().push(b@[i as int])) =~= done.push(cur@));
        }
        i = i + 1;
    }
    assert(b@.take(i as int) =~= b@);
    append_piece(&mut out, cur.as_slice());
    assert(done.push(cur@).drop_last() =~= done);
    if out.len() == 0 {
        String::from_str("<binary data>")
    } else {
        let mut s = String::new();
        push_bytes_as_chars(&mut s, out.as_slice());
        s
    }
}

// ---------------------------------------------------------------------------
// Numeric values
// ---------------------------------------------------------------------------

pub open spec fn s8(x: u8) -> int {
    if x >= 128 {
        x - 256
    } else {
        x as int
    }
}

pub open spec fn s16(n: nat) -> int {
    if n >= 32768 {
        n - 65536
    } else {
        n as int
    }
}

pub open spec fn s32(n: nat) -> int {
    if n >= 2147483648 {
        n - 4294967296
    } else {
        n as int
    }
}

pub open spec fn u16_at(v: Seq<u8>, i: int) -> nat {
    get_le16(v[i], v[i + 1])
}

pub open spec fn u32_at(v: Seq<u8>, i: int) -> nat {
    get_le32(v[i], v[i + 1], v[i + 2], v[i + 3])
}

/// Display text of one element, whose bytes are `v`.
pub open spec fn elem_text(t: FieldType, v: Seq<u8>) -> Seq<char> {
    match t {
        FieldType::SByte => signed_digits(s8(v[0])),
        FieldType::Short => digits(u16_at(v, 0)),
        FieldType::SShort => signed_digits(s16(u16_at(v, 0))),
        FieldType::Long | FieldType::Float => digits(u32_at(v, 0)),
        FieldType::SLong => signed_digits(s32(u32_at(v, 0))),
        FieldType::Rational | FieldType::Double => digits(u32_at(v, 0)) + "/"@ + digits(
            u32_at(v, 4),
        ),
        FieldType::SRational => signed_digits(s32(u32_at(v, 0))) + "/"@ + signed_digits(
            s32(u32_at(v, 4)),
        ),
        _ => digits(v[0] as nat),
    }
}

/// The elements of `v`, `w` bytes each, separated by ", ".
pub open spec fn elems_text(t: FieldType, v: Seq<u8>, w: nat) -> Seq<char>
    decreases v.len(),
{
    if w == 0 || v.len() < w {
        Seq::empty()
    } else {
        elem_text(t, v.take(w as int)) + if v.len() - w >= w {
            ", "@ + elems_text(t, v.skip(w as int), w)
        } else {
            Seq::empty()
        }
    }
}

pub open spec fn elems_after(t: FieldType, v: Seq<u8>, pos: int, w: nat) -> Seq<char> {
    if v.len() - pos >= w {
        ", "@ + elems_text(t, v.skip(pos), w)
    } else {
        Seq::empty()
    }
}

fn read_u32(v: &[u8], i: usize) -> (r: u32)
    requires
        i + 4 <= v@.len(),
    ensures
        r as nat == u32_at(v@, i as int),
{
    v[i] as u32 + 256 * (v[i + 1] as u32) + 65536 * (v[i + 2] as u32) + 16777216 * (v[i + 3] as u32)
}

fn push_elem(s: &mut String, t: FieldType, v: &[u8], pos: usize)
    requires
        pos + t.spec_size() <= v@.len(),
    ensures
        final(s)@ == old(s)@ + elem_text(t, v@.subrange(pos as int, pos + t.spec_size())),
{
    let ghost e = v@.subrange(pos as int, pos + t.spec_size());
    let _n = v.len();
    match t {
        FieldType::SByte => {
            let x = v[pos];
            let n: i64 = if x >= 128 {
                x as i64 - 256
            } else {
                x as i64
            };
            push_signed_digits(s, n);
        },
        FieldType::Short => {
            push_digits(s, v[pos] as u64 + 256 * (v[pos + 1] as u64));
        },
        FieldType::SShort => {
            let n: i64 = v[pos] as i64 + 256 * (v[pos + 1] as i64);
            push_signed_digits(
                s,
                if n >= 32768 {
                    n - 65536
                } else {
                    n
                },
            );
        },
        FieldType::Long | FieldType::Float => {
            push_digits(s, read_u32(v, pos) as u64);
        },
        FieldType::SLong => {
            let n = read_u32(v, pos) as i64;
            push_signed_digits(
                s,
                if n >= 2147483648 {
                    n - 4294967296
                } else {
                    n
                },
            );
        },
        FieldType::Rational | FieldType::Double => {
            push_digits(s, read_u32(v, pos) as u64);
            s.append("/");
            push_digits(s, read_u32(v, pos + 4) as u64);
        },
        FieldType::SRational => {
            let p = read_u32(v, pos) as i64;
            let q = read_u32(v, pos + 4) as i64;
            push_signed_digits(
                s,
                if p >= 2147483648 {
                    p - 4294967296
                } else {
                    p
                },
            );
            s.append("/");
            push_signed_digits(
                s,
                if q >= 2147483648 {
                    q - 4294967296
                } else {
                    q
                },
            );
        },
        _ => {
            push_digits(s, v[pos] as u64);
        },
    }
    assert(final(s)@ =~= old(s)@ + elem_text(t, e));
}

fn push_elems(s: &mut String, t: FieldType, v: &[u8])
    ensures
        final(s)@ == old(s)@ + elems_text(t, v@, t.spec_size() as nat),
{
    let w = t.element_size() as usize;
    let ghost start = s@;
    let ghost total = elems_text(t, v@, w as nat);
    let mut pos: usize = 0;
    while v.len() - pos >= w
        invariant
            1 <= w <= 8,
            w == t.spec_size(),
            pos <= v@.len(),
            total == elems_text(t, v@, w as nat),
            if pos == 0 {
                s@ == start
            } else {
                s@ + elems_after(t, v@, pos as int, w as nat) == start + total
            },
        decreases v@.len() - pos,
    {
        let ghost rest = v@.skip(pos as int);
        assert(rest.take(w as int) =~= v@.subrange(pos as int, pos + w));
        assert(rest.skip(w as int) =~= v@.skip(pos + w));
        if pos > 0 {
            s.append(", ");
        }
        push_elem(s, t, v, pos);
        pos = pos + w;
        if pos == w {
            assert(v@.skip(0) =~= v@);
        }
        assert(s@ + elems_after(t, v@, pos as int, w as nat) =~= start + total);
    }
    if pos == 0 {
        assert(total =~= Seq::<char>::empty());
    } else {
        assert(elems_after(t, v@, pos as int, w as nat) =~= Seq::<char>::empty());
    }
    assert(s@ =~= start + total);
}

/// Display text of an entry's value.
pub open spec fn value_text(e: EntryView) -> Seq<char> {
    match field_type_of(e.field_type) {
        None => "Unknown(tag="@ + digits(e.tag as nat) + ", type="@ + digits(e.field_type as nat)
            + ", count="@ + digits(e.count as nat) + ")"@,
        Some(FieldType::Ascii) => ascii_text(e.value),
        Some(FieldType::Byte) => "["@ + elems_text(FieldType::Byte, e.value, 1) + "]"@,
        Some(FieldType::SByte) => "["@ + elems_text(FieldType::SByte, e.value, 1) + "]"@,
        Some(FieldType::Undefined) => "Undefined("@ + digits(e.value.len()) + " bytes)"@,
        Some(FieldType::Float) => "Float("@ + digits(e.count as nat) + " values)"@,
        Some(FieldType::Double) => "Double("@ + digits(e.count as nat) + " values)"@,
        Some(t) => elems_text(t, e.value, t.spec_size() as nat),
    }
}

/// Renders an entry's value for display.
pub fn format_value(e: &IfdEntry) -> (r: String)
    ensures
        r@ == value_text(e@),
{
    let mut s = String::new();
    match FieldType::from_code(e.field_type) {
        None => {
            s.append("Unknown(tag=");
            push_digits(&mut s, e.tag as u64);
            s.append(", type=");
            push_digits(&mut s, e.field_type as u64);
            s.append(", count=");
            push_digits(&mut s, e.count as u64);
            s.append(")");
        },
        Some(FieldType::Ascii) => {
            return ascii_value_text(e.value.as_slice());
        },
        Some(FieldType::Byte) => {
            s.append("[");
            push_elems(&mut s, FieldType::Byte, e.value.as_slice());
            s.append("]");
        },
        Some(FieldType::SByte) => {
            s.append("[");
            push_elems(&mut s, FieldType::SByte, e.value.as_slice());
            s.append("]");
        },
        Some(FieldType::Undefined) => {
            s.append("Undefined(");
            push_digits(&mut s, e.value.len() as u64);
            s.append(" bytes)");
        },
        Some(FieldType::Float) => {
            s.append("Float(");
            push_digits(&mut s, e.count as u64);
            s.append(" values)");
        },
        Some(FieldType::Double) => {
            s.append("Double(");
            push_digits(&mut s, e.count as u64);
            s.append(" values)");
        },
        Some(t) => {
            push_elems(&mut s, t, e.value.as_slice());
        },
    }
    assert(s@ =~= value_text(e@));
    s
}

// ---------------------------------------------------------------------------
// Truncation and the readout
// ---------------------------------------------------------------------------

/// Longest value, in UTF-8 bytes, that is displayed whole.
pub const DISPLAY_LIMIT: usize = 50;

/// The largest character boundary of `b` at or before `i`.
pub open spec fn boundary_at_or_before(b: Seq<u8>, i: int) -> int
    decreases i,
{
    if i <= 0 {
        0
    } else if is_char_boundary(b, i) {
        i
    } else {
        boundary_at_or_before(b, i - 1)
    }
}

/// A value as displayed: one over 50 UTF-8 bytes is cut at the last
/// character boundary at or before byte 50 and ends with an ellipsis.
pub open spec fn display_text(s: Seq<char>) -> Seq<char> {
    let b = encode_utf8(s);
    if b.len() <= 50 {
        s
    } else {
        decode_utf8(b.take(boundary_at_or_before(b, 50))) + "\u{2026}"@
    }
}

/// Shortens a value for display, never splitting a character.
pub fn truncate_for_display(value: &str) -> (r: String)
    ensures
        r@ == display_text(value@),
{
    let b = value.as_bytes();
    if b.len() <= DISPLAY_LIMIT {
        return String::from_str(value);
    }
    let mut cut: usize = DISPLAY_LIMIT;
    while cut > 0 && !value.is_char_boundary(cut)
        invariant
            cut <= 50,
            b@ == value.spec_bytes(),
            boundary_at_or_before(b@, cut as int) == boundary_at_or_before(b@, 50),
        decreases cut,
    {
        cut = cut - 1;
    }
    proof {
        vstd::utf8::encode_utf8_valid_utf8(value@);
        vstd::utf8::is_char_boundary_start_end_of_seq(b@);
    }
    let (head, _) = value.split_at(cut);
    proof {
        vstd::utf8::encode_utf8_decode_utf8(head@);
    }
    let mut r = String::from_str(head);
    r.append("\u{2026}");
    r
}

/// A value of more than 50 ASCII characters is shown as its first 50
/// characters followed by an ellipsis.
pub proof fn law_ascii_truncation(s: Seq<char>)
    requires
        vstd::utf8::is_ascii_chars(s),
        s.len() > 50,
    ensures
        display_text(s) == s.take(50) + "\u{2026}"@,
{
    let b = encode_utf8(s);
    vstd::utf8::is_ascii_chars_encode_utf8(s);
    vstd::utf8::is_ascii_chars_nat_bound(s);
    vstd::utf8::encode_utf8_valid_utf8(s);
    vstd::utf8::is_char_boundary_iff_not_is_continuation_byte(b, 50);
    assert(b[50] == s[50] as u8);
    assert(!vstd::utf8::is_continuation_byte(b[50]));
    assert(boundary_at_or_before(b, 50) == 50);
    let p = s.take(50);
    assert(vstd::utf8::is_ascii_chars(p));
    vstd::utf8::is_ascii_chars_encode_utf8(p);
    assert(encode_utf8(p) =~= b.take(50));
    vstd::utf8::encode_utf8_decode_utf8(p);
}

proof fn lemma_boundary_before(b: Seq<u8>, i: int)
    requires
        vstd::utf8::valid_utf8(b),
        i <= b.len(),
    ensures
        0 <= boundary_at_or_before(b, i),
        i >= 0 ==> boundary_at_or_before(b, i) <= i,
        is_char_boundary(b, boundary_at_or_before(b, i)),
    decreases i,
{
    if i <= 0 {
        vstd::utf8::is_char_boundary_start_end_of_seq(b);
    } else if !is_char_boundary(b, i) {
        lemma_boundary_before(b, i - 1);
    }
}

/// A shortened value is a prefix of the value, never splitting a
/// character, whose UTF-8 encoding takes at most 50 bytes, followed by an
/// ellipsis.
pub proof fn law_truncation_keeps_whole_characters(s: Seq<char>)
    requires
        encode_utf8(s).len() > 50,
    ensures
        exists|k: int|
            0 <= k <= s.len() && display_text(s) == s.take(k) + "\u{2026}"@ && encode_utf8(
                s.take(k),
            ).len() <= 50,
{
    let b = encode_utf8(s);
    vstd::utf8::encode_utf8_valid_utf8(s);
    vstd::utf8::encode_utf8_decode_utf8(s);
    lemma_boundary_before(b, 50);
    let cut = boundary_at_or_before(b, 50);
    vstd::utf8::decode_utf8_split(b, cut);
    vstd::utf8::valid_utf8_split(b, cut);
    assert(b.subrange(0, cut) =~= b.take(cut));
    let p = decode_utf8(b.take(cut));
    vstd::utf8::decode_utf8_encode_utf8(b.take(cut));
    assert(s =~= p + decode_utf8(b.subrange(cut, b.len() as int)));
    assert(s.take(p.len() as int) =~= p);
}

/// One readout line: display name and displayed value.
pub open spec fn row_of(e: EntryView) -> (Seq<char>, Seq<char>) {
    (tag_display_name(e.tag), display_text(value_text(e)))
}

/// Byte-wise lexicographic order.
pub open spec fn bytes_le(a: Seq<u8>, b: Seq<u8>) -> bool
    decreases a.len(),
{
    if a.len() == 0 {
        true
    } else if b.len() == 0 {
        false
    } else if a[0] != b[0] {
        a[0] < b[0]
    } else {
        bytes_le(a.drop_first(), b.drop_first())
    }
}

pub open spec fn name_le(a: Seq<char>, b: Seq<char>) -> bool {
    bytes_le(encode_utf8(a), encode_utf8(b))
}

/// Where a line with name `n` goes in sorted lines: after every line
/// whose name does not exceed it.
pub open spec fn upper_pos(acc: Seq<(Seq<char>, Seq<char>)>, n: Seq<char>) -> nat
    decreases acc.len(),
{
    if acc.len() == 0 {
        0
    } else if name_le(acc.last().0, n) {
        acc.len()
    } else {
        upper_pos(acc.drop_last(), n)
    }
}

/// The lines stably sorted by name.
pub open spec fn sort_rows(rs: Seq<(Seq<char>, Seq<char>)>) -> Seq<(Seq<char>, Seq<char>)>
    decreases rs.len(),
{
    if rs.len() == 0 {
        Seq::empty()
    } else {
        let acc = sort_rows(rs.drop_last());
        acc.insert(upper_pos(acc, rs.last().0) as int, rs.last())
    }
}

proof fn lemma_bytes_le_total(a: Seq<u8>, b: Seq<u8>)
    ensures
        bytes_le(a, b) || bytes_le(b, a),
    decreases a.len(),
{
    if a.len() > 0 && b.len() > 0 && a[0] == b[0] {
        lemma_bytes_le_total(a.drop_first(), b.drop_first());
    }
}

proof fn lemma_bytes_le_trans(a: Seq<u8>, b: Seq<u8>, c: Seq<u8>)
    requires
        bytes_le(a, b),
        bytes_le(b, c),
    ensures
        bytes_le(a, c),
    decreases a.len(),
{
    if a.len() > 0 && b.len() > 0 && c.len() > 0 && a[0] == b[0] && b[0] == c[0] {
        lemma_bytes_le_trans(a.drop_first(), b.drop_first(), c.drop_first());
    }
}

/// Lines in non-decreasing name order.
pub open spec fn sorted_by_name(rs: Seq<(Seq<char>, Seq<char>)>) -> bool {
    forall|i: int, j: int| 0 <= i < j < rs.len() ==> name_le(#[trigger] rs[i].0, #[trigger] rs[j].0)
}

proof fn lemma_upper_pos(acc: Seq<(Seq<char>, Seq<char>)>, n: Seq<char>)
    requires
        sorted_by_name(acc),
    ensures
        upper_pos(acc, n) <= acc.len(),
        forall|j: int| 0 <= j < upper_pos(acc, n) ==> name_le(#[trigger] acc[j].0, n),
        forall|j: int| upper_pos(acc, n) <= j < acc.len() ==> name_le(n, #[trigger] acc[j].0),
    decreases acc.len(),
{
    if acc.len() > 0 {
        let d = acc.drop_last();
        assert(sorted_by_name(d));
        lemma_upper_pos(d, n);
        if name_le(acc.last().0, n) {
            assert forall|j: int| 0 <= j < acc.len() implies name_le(#[trigger] acc[j].0, n) by {
                if j < acc.len() - 1 {
                    lemma_bytes_le_trans(
                        encode_utf8(acc[j].0),
                        encode_utf8(acc[acc.len() - 1].0),
                        encode_utf8(n),
                    );
                }
            }
        } else {
            lemma_bytes_le_total(encode_utf8(acc.last().0), encode_utf8(n));
            assert forall|j: int| 0 <= j < upper_pos(acc, n) implies name_le(#[trigger] acc[j].0, n) by {
                assert(acc[j] == d[j]);
            }
            assert forall|j: int| upper_pos(acc, n) <= j < acc.len() implies name_le(n, #[trigger] acc[j].0) by {
                if j < acc.len() - 1 {
                    assert(acc[j] == d[j]);
                }
            }
        }
    }
}

/// The readout order is sorted: every line's name is at most the next one's,
/// comparing names byte by byte.
pub proof fn law_sorted_rows(rs: Seq<(Seq<char>, Seq<char>)>)
    ensures
        sorted_by_name(sort_rows(rs)),
        sort_rows(rs).len() == rs.len(),
    decreases rs.len(),
{
    if rs.len() > 0 {
        let acc = sort_rows(rs.drop_last());
        law_sorted_rows(rs.drop_last());
        let x = rs.last();
        lemma_upper_pos(acc, x.0);
        let p = upper_pos(acc, x.0) as int;
        let r = acc.insert(p, x);
        assert forall|i: int, j: int| 0 <= i < j < r.len() implies name_le(#[trigger] r[i].0, #[trigger] r[j].0) by {
            if j < p {
                assert(r[i] == acc[i] && r[j] == acc[j]);
            } else if j == p {
                assert(r[i] == acc[i]);
            } else if i == p {
                assert(r[j] == acc[j - 1]);
            } else if i < p {
                assert(r[i] == acc[i] && r[j] == acc[j - 1]);
            } else {
                assert(r[i] == acc[i - 1] && r[j] == acc[j - 1]);
            }
        }
    }
}

proof fn lemma_sort_rows_members(rs: Seq<(Seq<char>, Seq<char>)>)
    ensures
        sort_rows(rs).len() == rs.len(),
        forall|k: int|
            0 <= k < sort_rows(rs).len() ==> exists|j: int|
                0 <= j < rs.len() && #[trigger] rs[j] == #[trigger] sort_rows(rs)[k],
    decreases rs.len(),
{
    if rs.len() > 0 {
        let d = rs.drop_last();
        lemma_sort_rows_members(d);
        let acc = sort_rows(d);
        let p = upper_pos(acc, rs.last().0) as int;
        lemma_upper_pos_bound(acc, rs.last().0);
        let r = acc.insert(p, rs.last());
        assert forall|k: int| 0 <= k < r.len() implies exists|j: int|
            0 <= j < rs.len() && #[trigger] rs[j] == #[trigger] r[k] by {
            if k == p {
                assert(rs[rs.len() - 1] == r[k]);
            } else {
                let k0 = if k < p {
                    k
                } else {
                    k - 1
                };
                assert(r[k] == acc[k0]);
                let j = choose|j: int| 0 <= j < d.len() && #[trigger] d[j] == #[trigger] acc[k0];
                assert(rs[j] == r[k]);
            }
        }
    }
}

proof fn lemma_upper_pos_bound(acc: Seq<(Seq<char>, Seq<char>)>, n: Seq<char>)
    ensures
        upper_pos(acc, n) <= acc.len(),
    decreases acc.len(),
{
    if acc.len() > 0 {
        lemma_upper_pos_bound(acc.drop_last(), n);
    }
}

/// Every readout line is an entry's display name with its value text as
/// displayed: whole when it takes at most 50 bytes, else cut at a
/// character boundary and ended with an ellipsis (see
/// `law_truncation_keeps_whole_characters`).
pub proof fn law_readout_lines(es: Seq<EntryView>)
    ensures
        readout_spec(es).len() == es.len(),
        forall|k: int|
            0 <= k < readout_spec(es).len() ==> exists|j: int|
                0 <= j < es.len() && #[trigger] readout_spec(es)[k] == (
                    tag_display_name(es[j].tag),
                    display_text(value_text(es[j])),
                ),
{
    let rs = es.map_values(|e: EntryView| row_of(e));
    lemma_sort_rows_members(rs);
    assert forall|k: int| 0 <= k < readout_spec(es).len() implies exists|j: int|
        0 <= j < es.len() && #[trigger] readout_spec(es)[k] == (
            tag_display_name(es[j].tag),
            display_text(value_text(es[j])),
        ) by {
        let j = choose|j: int| 0 <= j < rs.len() && #[trigger] rs[j] == #[trigger] sort_rows(rs)[k];
        assert(rs[j] == row_of(es[j]));
    }
}

/// The readout of a directory: one line per entry, sorted by name.
pub open spec fn readout_spec(es: Seq<EntryView>) -> Seq<(Seq<char>, Seq<char>)> {
    sort_rows(es.map_values(|e: EntryView| row_of(e)))
}

pub open spec fn rows_view(v: Seq<(String, String)>) -> Seq<(Seq<char>, Seq<char>)> {
    v.map_values(|p: (String, String)| (p.0@, p.1@))
}

fn name_le_exec(a: &String, b: &String) -> (r: bool)
    ensures
        r == name_le(a@, b@),
{
    let x = a.as_str().as_bytes();
    let y = b.as_str().as_bytes();
    let mut i: usize = 0;
    assert(x@.skip(0) =~= x@);
    assert(y@.skip(0) =~= y@);
    while i < x.len() && i < y.len() && x[i] == y[i]
        invariant
            i <= x@.len(),
            i <= y@.len(),
            x@ == encode_utf8(a@),
            y@ == encode_utf8(b@),
            bytes_le(x@, y@) == bytes_le(x@.skip(i as int), y@.skip(i as int)),
        decreases x@.len() - i,
    {
        assert(x@.skip(i as int).drop_first() =~= x@.skip(i + 1));
        assert(y@.skip(i as int).drop_first() =~= y@.skip(i + 1));
        i = i + 1;
    }
    if i == x.len() {
        true
    } else if i == y.len() {
        false
    } else {
        x[i] < y[i]
    }
}

/// Inserts a line after every line whose name does not exceed its own.
pub fn insert_by_name(acc: &mut Vec<(String, String)>, name: String, value: String)
    ensures
        rows_view(final(acc)@) == rows_view(old(acc)@).insert(
            upper_pos(rows_view(old(acc)@), name@) as int,
            (name@, value@),
        ),
{
    let ghost a = rows_view(acc@);
    let ghost nv = (name@, value@);
    let mut p: usize = acc.len();
    assert(a.take(p as int) =~= a);
    while p > 0 && !name_le_exec(&acc[p - 1].0, &name)
        invariant
            p <= acc@.len(),
            a == rows_view(acc@),
            upper_pos(a, name@) == upper_pos(a.take(p as int), name@),
        decreases p,
    {
        assert(a.take(p as int).drop_last() =~= a.take(p - 1));
        p = p - 1;
    }
    if p > 0 {
        assert(a.take(p as int).last() == a[p - 1]);
    }
    assert(upper_pos(a.take(p as int), name@) == p);
    acc.insert(p, (name, value));
    assert(rows_view(acc@) =~= a.insert(p as int, nv));
}

/// Lines stably sorted by name.
pub fn sort_by_name(lines: Vec<(String, String)>) -> (r: Vec<(String, String)>)
    ensures
        rows_view(r@) == sort_rows(rows_view(lines@)),
{
    let ghost rows = rows_view(lines@);
    let mut acc: Vec<(String, String)> = Vec::new();
    let mut rest = lines;
    let ghost mut i: int = 0;
    assert(rows.skip(0) =~= rows);
    while rest.len() > 0
        invariant
            0 <= i <= rows.len(),
            rest@.len() == rows.len() - i,
            rows_view(rest@) == rows.skip(i),
            rows_view(acc@) == sort_rows(rows.take(i)),
        decreases rest@.len(),
    {
        let ghost before = rest@;
        assert(rows_view(before)[0] == rows[i]);
        let (name, value) = rest.remove(0);
        assert(rows.take(i + 1).drop_last() =~= rows.take(i));
        assert(rows.skip(i)[0] == rows[i]);
        assert(rows.take(i + 1).last() == (name@, value@));
        insert_by_name(&mut acc, name, value);
        proof {
            assert(rest@ =~= before.subrange(1, before.len() as int));
            assert forall|k: int| 0 <= k < rest@.len() implies #[trigger] rows_view(rest@)[k] == rows.skip(i + 1)[k] by {
                assert(rest@[k] == before[k + 1]);
                assert(rows_view(before)[k + 1] == rows.skip(i)[k + 1]);
            }
            assert(rows_view(rest@) =~= rows.skip(i + 1));
            i = i + 1;
        }
    }
    assert(rows.take(i) =~= rows);
    acc
}

/// Each entry's display name and displayed value, in entry order.
pub fn entry_rows(entries: &[IfdEntry]) -> (r: Vec<(String, String)>)
    ensures
        rows_view(r@) == entries_view(entries@).map_values(|e: EntryView| row_of(e)),
{
    let ghost rows = entries_view(entries@).map_values(|e: EntryView| row_of(e));
    let mut out: Vec<(String, String)> = Vec::new();
    let mut i: usize = 0;
    while i < entries.len()
        invariant
            i <= entries@.len(),
            rows == entries_view(entries@).map_values(|e: EntryView| row_of(e)),
            rows.len() == entries@.len(),
            out@.len() == i,
            rows_view(out@) == rows.take(i as int),
        decreases entries@.len() - i,
    {
        let name = tag_to_name(entries[i].tag);
        let text = format_value(&entries[i]);
        let value = truncate_for_display(text.as_str());
        assert(rows[i as int] == (name@, value@));
        let ghost prev = out@;
        let ghost pv = (name@, value@);
        out.push((name, value));
        assert(rows_view(out@)[i as int] == pv);
        assert forall|k: int| 0 <= k < i implies #[trigger] rows_view(out@)[k] == rows_view(prev)[k] by {
            assert(out@[k] == prev[k]);
        }
        i = i + 1;
        assert(rows_view(out@) =~= rows.take(i as int));
    }
    assert(rows.take(i as int) =~= rows);
    out
}

/// The readout of a directory: each entry's display name and displayed
/// value, stably sorted by name.
pub fn tag_readout(entries: &[IfdEntry]) -> (r: Vec<(String, String)>)
    ensures
        rows_view(r@) == readout_spec(entries_view(entries@)),
{
    sort_by_name(entry_rows(entries))
}

} // verus!
