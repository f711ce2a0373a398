//! JPEG marker scanning: finds, replaces and removes the APP1 segment that
//! carries EXIF data, leaving every other segment and the scan data as
//! they were.
use vstd::prelude::*;
use crate::bytes::push_all;

verus! {

/// Why a JPEG stream could not be rewritten.
#[derive(Debug, Clone, Copy, PartialEq, Eq, Structural)]
pub enum ContainerError {
    /// The stream does not start with the start-of-image marker 0xFFD8.
    NotAContainer,
    /// The new APP1 segment would exceed the 16-bit segment length.
    SegmentTooLarge,
}

/// What the marker scan finds at a position.
#[derive(Debug, Clone, Copy, PartialEq, Eq, Structural)]
pub enum Step {
    /// No further marker structure: the rest is copied as it is (this
    /// includes the start of scan, after which entropy-coded data follows).
    Stop,
    /// A 0xFF fill byte.
    Fill,
    /// A marker without a length field.
    Standalone,
    /// A segment with the given marker code that ends before `end`.
    Segment(u8, usize),
}

pub const MARKER_APP0: u8 = 0xE0;
pub const MARKER_APP1: u8 = 0xE1;
pub const MARKER_SOS: u8 = 0xDA;

pub open spec fn is_standalone(m: u8) -> bool {
    m == 0xD8 || m == 0xD9 || m == 0x01 || (0xD0 <= m && m <= 0xD7)
}

/// Whether `d` starts with the start-of-image marker.
pub open spec fn has_soi(d: Seq<u8>) -> bool {
    d.len() >= 2 && d[0] == 0xFF && d[1] == 0xD8
}

/// The marker scan at `pos`.
pub open spec fn step_at(d: Seq<u8>, pos: int) -> Step {
    if pos < 0 || pos + 2 > d.len() || d[pos] != 0xFF {
        Step::Stop
    } else if d[pos + 1] == 0xFF {
        Step::Fill
    } else if is_standalone(d[pos + 1]) {
        Step::Standalone
    } else if d[pos + 1] == MARKER_SOS || pos + 4 > d.len() {
        Step::Stop
    } else {
        let len = 256 * (d[pos + 2] as int) + (d[pos + 3] as int);
        if len < 2 || pos + 2 + len > d.len() {
            Step::Stop
        } else {
            Step::Segment(d[pos + 1], (pos + 2 + len) as usize)
        }
    }
}

pub open spec fn step_end(d: Seq<u8>, pos: int) -> int {
    match step_at(d, pos) {
        Step::Stop => d.len() as int,
        Step::Fill => pos + 1,
        Step::Standalone => pos + 2,
        Step::Segment(_, _) => pos + 2 + 256 * (d[pos + 2] as int) + (d[pos + 3] as int),
    }
}

/// Whether a segment with marker `m` is removed by an erase.
pub open spec fn erased_marker(m: u8, full: bool) -> bool {
    m == MARKER_APP1 || (full && m == MARKER_APP0)
}

/// Whether the fill bytes from `pos` on lead up to a segment that an erase
/// removes: fill bytes belong to the marker that follows them.
pub open spec fn fill_dropped(d: Seq<u8>, pos: int, full: bool) -> bool
    decreases d.len() - pos,
{
    if pos < 0 || pos >= d.len() {
        false
    } else {
        match step_at(d, pos) {
            Step::Fill => fill_dropped(d, pos + 1, full),
            Step::Segment(m, _) => erased_marker(m, full),
            _ => false,
        }
    }
}

/// The stream from `pos` on with every APP1 segment removed, and every
/// APP0 segment too when `full` is set, each with the fill bytes before it.
pub open spec fn erase_from(d: Seq<u8>, pos: int, full: bool) -> Seq<u8>
    decreases d.len() - pos,
{
    if pos < 0 || pos >= d.len() {
        Seq::empty()
    } else {
        match step_at(d, pos) {
            Step::Stop => d.subrange(pos, d.len() as int),
            Step::Segment(m, _) => if erased_marker(m, full) {
                erase_from(d, step_end(d, pos), full)
            } else {
                d.subrange(pos, step_end(d, pos)) + erase_from(d, step_end(d, pos), full)
            },
            Step::Fill => if fill_dropped(d, pos + 1, full) {
                erase_from(d, pos + 1, full)
            } else {
                seq![d[pos]] + erase_from(d, pos + 1, full)
            },
            _ => d.subrange(pos, step_end(d, pos)) + erase_from(d, step_end(d, pos), full),
        }
    }
}

/// Whether the segment occupying `d[start..end]` carries EXIF data.
pub open spec fn is_exif_segment(d: Seq<u8>, start: int, end: int) -> bool {
    start + 10 <= end && d.subrange(start + 4, start + 10) == seq![0x45u8, 0x78u8, 0x69u8, 0x66u8, 0u8, 0u8]
}

/// Bounds of the first APP1 segment from `pos` on, whatever it holds.
pub open spec fn app1_segment_from(d: Seq<u8>, pos: int) -> Option<(int, int)>
    decreases d.len() - pos,
{
    if pos < 0 || pos >= d.len() {
        None
    } else {
        match step_at(d, pos) {
            Step::Stop => None,
            Step::Segment(m, _) => if m == MARKER_APP1 {
                Some((pos, step_end(d, pos)))
            } else {
                app1_segment_from(d, step_end(d, pos))
            },
            _ => app1_segment_from(d, step_end(d, pos)),
        }
    }
}

/// The TIFF structure of a stream's first APP1 segment, when that segment
/// carries EXIF data; a first APP1 with other content (such as XMP) holds
/// no readable metadata.
pub open spec fn exif_payload(d: Seq<u8>) -> Option<Seq<u8>> {
    match app1_segment_from(d, 2) {
        Some((s, e)) => if is_exif_segment(d, s, e) {
            Some(d.subrange(s + 10, e))
        } else {
            None
        },
        None => None,
    }
}

/// The APP1 segment that wraps a TIFF structure.
pub open spec fn app1_segment(tiff: Seq<u8>) -> Seq<u8> {
    let len = tiff.len() + 8;
    seq![0xFFu8, MARKER_APP1, (len / 256) as u8, (len % 256) as u8, 0x45u8, 0x78u8, 0x69u8, 0x66u8, 0u8, 0u8]
        + tiff
}

/// The stream with its first APP1 segment replaced by one wrapping
/// `tiff`, or, without an APP1 segment, with such a segment placed right
/// after the start-of-image marker.
pub open spec fn replace_spec(d: Seq<u8>, tiff: Seq<u8>) -> Result<Seq<u8>, ContainerError> {
    if !has_soi(d) {
        Err(ContainerError::NotAContainer)
    } else if tiff.len() + 8 > 0xFFFF {
        Err(ContainerError::SegmentTooLarge)
    } else {
        match app1_segment_from(d, 2) {
            Some((s, e)) => Ok(d.subrange(0, s) + app1_segment(tiff) + d.subrange(e, d.len() as int)),
            None => Ok(d.subrange(0, 2) + app1_segment(tiff) + d.subrange(2, d.len() as int)),
        }
    }
}

/// Scans the marker at `pos`.
pub fn step(d: &[u8], pos: usize) -> (r: Step)
    ensures
        r == step_at(d@, pos as int),
        match r {
            Step::Segment(_, end) => pos + 4 <= end <= d@.len() && end == step_end(d@, pos as int),
            _ => true,
        },
{
    if pos >= d.len() || d.len() - pos < 2 || d[pos] != 0xFF {
        return Step::Stop;
    }
    let m = d[pos + 1];
    if m == 0xFF {
        Step::Fill
    } else if m == 0xD8 || m == 0xD9 || m == 0x01 || (0xD0 <= m && m <= 0xD7) {
        Step::Standalone
    } else if m == MARKER_SOS || d.len() - pos < 4 {
        Step::Stop
    } else {
        let len: usize = 256 * (d[pos + 2] as usize) + (d[pos + 3] as usize);
        if len < 2 || d.len() - pos - 2 < len {
            Step::Stop
        } else {
            Step::Segment(m, pos + 2 + len)
        }
    }
}

/// Removes every APP1 segment, and every APP0 segment too when `full` is set.
pub fn erase_segments(d: &[u8], full: bool) -> (r: Result<Vec<u8>, ContainerError>)
    ensures
        match r {
            Ok(out) => has_soi(d@) && out@ == d@.subrange(0, 2) + erase_from(d@, 2, full),
            Err(e) => !has_soi(d@) && e == ContainerError::NotAContainer,
        },
{
    if d.len() < 2 || d[0] != 0xFF || d[1] != 0xD8 {
        return Err(ContainerError::NotAContainer);
    }
    let mut out: Vec<u8> = Vec::new();
    out.push(0xFF);
    out.push(0xD8);
    assert(out@ =~= d@.subrange(0, 2));
    let mut pos: usize = 2;
    while pos < d.len()
        invariant
            2 <= pos <= d@.len(),
            out@ + erase_from(d@, pos as int, full) == d@.subrange(0, 2) + erase_from(d@, 2, full),
        decreases d@.len() - pos,
    {
        let ghost p0 = pos as int;
        let ghost before = out@;
        match step(d, pos) {
            Step::Stop => {
                push_all(&mut out, &d[pos..d.len()]);
                pos = d.len();
            },
            Step::Fill => {
                let mut q: usize = pos + 1;
                while q < d.len() && step(d, q) == Step::Fill
                    invariant
                        p0 + 1 <= q <= d@.len(),
                        fill_dropped(d@, p0 + 1, full) == fill_dropped(d@, q as int, full),
                    decreases d@.len() - q,
                {
                    q = q + 1;
                }
                let dropped = if q < d.len() {
                    match step(d, q) {
                        Step::Segment(m, _) => m == MARKER_APP1 || (full && m == MARKER_APP0),
                        _ => false,
                    }
                } else {
                    false
                };
                if !dropped {
                    out.push(d[pos]);
                }
                pos = pos + 1;
            },
            Step::Standalone => {
                out.push(d[pos]);
                out.push(d[pos + 1]);
                pos = pos + 2;
                assert(d@.subrange(p0, p0 + 2) =~= seq![d@[p0], d@[p0 + 1]]);
            },
            Step::Segment(m, end) => {
                if !(m == MARKER_APP1 || (full && m == MARKER_APP0)) {
                    push_all(&mut out, &d[pos..end]);
                }
                pos = end;
            },
        }
        assert(out@ + erase_from(d@, pos as int, full) =~= before + erase_from(d@, p0, full));
    }
    assert(erase_from(d@, pos as int, full) =~= Seq::<u8>::empty());
    assert(out@ =~= out@ + erase_from(d@, pos as int, full));
    Ok(out)
}

/// Locates the first APP1 segment, whatever it holds.
pub fn find_app1_segment(d: &[u8]) -> (r: Option<(usize, usize)>)
    ensures
        match app1_segment_from(d@, 2) {
            Some((s, e)) => r == Some((s as usize, e as usize)),
            None => r is None,
        },
        r matches Some((s, e)) ==> app1_segment_from(d@, 2) == Some((s as int, e as int)) && 2 <= s
            && s + 4 <= e <= d@.len(),
{
    if d.len() <= 2 {
        return None;
    }
    let mut pos: usize = 2;
    while pos < d.len()
        invariant
            2 <= pos <= d@.len(),
            app1_segment_from(d@, pos as int) == app1_segment_from(d@, 2),
        decreases d@.len() - pos,
    {
        match step(d, pos) {
            Step::Stop => {
                return None;
            },
            Step::Fill => {
                pos = pos + 1;
            },
            Step::Standalone => {
                pos = pos + 2;
            },
            Step::Segment(m, end) => {
                if m == MARKER_APP1 {
                    return Some((pos, end));
                }
                pos = end;
            },
        }
    }
    None
}

/// The TIFF structure inside the first APP1 segment, when that segment
/// carries EXIF data (its payload starts with "Exif" and two NULs).
pub fn exif_tiff(d: &[u8]) -> (r: Option<Vec<u8>>)
    ensures
        match exif_payload(d@) {
            Some(t) => r is Some && r->0@ == t,
            None => r is None,
        },
{
    match find_app1_segment(d) {
        Some((s, e)) => {
            if e - s >= 10 && d[s + 4] == 0x45 && d[s + 5] == 0x78 && d[s + 6] == 0x69 && d[s + 7]
                == 0x66 && d[s + 8] == 0 && d[s + 9] == 0 {
                assert(d@.subrange(s + 4, s + 10) =~= seq![0x45u8, 0x78u8, 0x69u8, 0x66u8, 0u8, 0u8]);
                let mut out: Vec<u8> = Vec::new();
                push_all(&mut out, &d[s + 10..e]);
                Some(out)
            } else {
                if e - s >= 10 {
                    assert(d@.subrange(s + 4, s + 10)[0] == d@[s + 4]);
                    assert(d@.subrange(s + 4, s + 10)[1] == d@[s + 5]);
                    assert(d@.subrange(s + 4, s + 10)[2] == d@[s + 6]);
                    assert(d@.subrange(s + 4, s + 10)[3] == d@[s + 7]);
                    assert(d@.subrange(s + 4, s + 10)[4] == d@[s + 8]);
                    assert(d@.subrange(s + 4, s + 10)[5] == d@[s + 9]);
                }
                None
            }
        },
        None => None,
    }
}

/// Wraps a TIFF structure in an APP1 segment with the EXIF identifier.
pub fn make_app1_segment(tiff: &[u8]) -> (r: Result<Vec<u8>, ContainerError>)
    ensures
        match r {
            Ok(seg) => tiff@.len() + 8 <= 0xFFFF && seg@ == app1_segment(tiff@),
            Err(e) => tiff@.len() + 8 > 0xFFFF && e == ContainerError::SegmentTooLarge,
        },
{
    if tiff.len() > 0xFFFF - 8 {
        return Err(ContainerError::SegmentTooLarge);
    }
    let len: usize = tiff.len() + 8;
    let mut out: Vec<u8> = Vec::new();
    out.push(0xFF);
    out.push(MARKER_APP1);
    out.push((len / 256) as u8);
    out.push((len % 256) as u8);
    out.push(0x45);
    out.push(0x78);
    out.push(0x69);
    out.push(0x66);
    out.push(0);
    out.push(0);
    push_all(&mut out, tiff);
    assert(out@ =~= app1_segment(tiff@));
    Ok(out)
}

/// Replaces the EXIF segment of a JPEG stream with one wrapping `tiff`;
/// without one, the new segment goes right after the start-of-image marker.
pub fn replace_exif_segment(d: &[u8], tiff: &[u8]) -> (r: Result<Vec<u8>, ContainerError>)
    ensures
        match replace_spec(d@, tiff@) {
            Ok(b) => r is Ok && r->Ok_0@ == b,
            Err(e) => r == Err::<Vec<u8>, ContainerError>(e),
        },
{
    if d.len() < 2 || d[0] != 0xFF || d[1] != 0xD8 {
        return Err(ContainerError::NotAContainer);
    }
    let seg = make_app1_segment(tiff)?;
    let (s, e) = match find_app1_segment(d) {
        Some((s, e)) => (s, e),
        None => (2, 2),
    };
    let mut out: Vec<u8> = Vec::new();
    push_all(&mut out, &d[0..s]);
    push_all(&mut out, seg.as_slice());
    push_all(&mut out, &d[e..d.len()]);
    Ok(out)
}

/// Whether the marker scan from `pos` meets a segment that an erase removes.
pub open spec fn scan_has_erased(s: Seq<u8>, pos: int, full: bool) -> bool
    decreases s.len() - pos,
{
    if pos < 0 || pos >= s.len() {
        false
    } else {
        match step_at(s, pos) {
            Step::Stop => false,
            Step::Segment(m, _) => erased_marker(m, full) || scan_has_erased(s, step_end(s, pos), full),
            _ => scan_has_erased(s, step_end(s, pos), full),
        }
    }
}

pub open spec fn seg_marker(st: Step) -> u8 {
    match st {
        Step::Segment(m, _) => m,
        _ => 0,
    }
}

proof fn lemma_step_shift(a: Seq<u8>, t: Seq<u8>, q: int)
    requires
        0 <= q,
    ensures
        (step_at(a + t, a.len() + q) is Stop) == (step_at(t, q) is Stop),
        (step_at(a + t, a.len() + q) is Fill) == (step_at(t, q) is Fill),
        (step_at(a + t, a.len() + q) is Standalone) == (step_at(t, q) is Standalone),
        (step_at(a + t, a.len() + q) is Segment) == (step_at(t, q) is Segment),
        seg_marker(step_at(a + t, a.len() + q)) == seg_marker(step_at(t, q)),
        !(step_at(t, q) is Stop) ==> step_end(a + t, a.len() + q) == a.len() + step_end(t, q),
{
    let u = a + t;
    let n = a.len() as int;
    if q + 4 <= t.len() {
        assert(u[n + q] == t[q] && u[n + q + 1] == t[q + 1] && u[n + q + 2] == t[q + 2] && u[n + q + 3]
            == t[q + 3]);
    } else if q + 2 <= t.len() {
        assert(u[n + q] == t[q] && u[n + q + 1] == t[q + 1]);
    }
}

proof fn lemma_scan_shift(a: Seq<u8>, t: Seq<u8>, q: int, full: bool)
    requires
        0 <= q,
    ensures
        scan_has_erased(a + t, a.len() + q, full) == scan_has_erased(t, q, full),
    decreases t.len() - q,
{
    if q < t.len() {
        lemma_step_shift(a, t, q);
        if !(step_at(t, q) is Stop) {
            lemma_scan_shift(a, t, step_end(t, q), full);
        }
    }
}

proof fn lemma_erase_starts_ff(d: Seq<u8>, x: int, full: bool)
    requires
        0 <= x < d.len(),
        d[x] == 0xFF,
        !fill_dropped(d, x, full),
    ensures
        erase_from(d, x, full).len() >= 1,
        erase_from(d, x, full)[0] == 0xFF,
{
}

proof fn lemma_erase_clean(d: Seq<u8>, p: int, full: bool)
    requires
        0 <= p,
    ensures
        !scan_has_erased(erase_from(d, p, full), 0, full),
    decreases d.len() - p,
{
    if p < d.len() {
        let out = erase_from(d, p, full);
        match step_at(d, p) {
            Step::Stop => {
                let a = d.take(p);
                assert(a + out =~= d);
                lemma_scan_shift(a, out, 0, full);
            },
            Step::Fill => {
                lemma_erase_clean(d, p + 1, full);
                if !fill_dropped(d, p + 1, full) {
                    let rest = erase_from(d, p + 1, full);
                    lemma_erase_starts_ff(d, p + 1, full);
                    assert(out[0] == 0xFF && out[1] == 0xFF);
                    lemma_scan_shift(seq![d[p]], rest, 0, full);
                }
            },
            Step::Standalone => {
                let rest = erase_from(d, p + 2, full);
                lemma_erase_clean(d, p + 2, full);
                assert(out[0] == d[p] && out[1] == d[p + 1]);
                lemma_scan_shift(d.subrange(p, p + 2), rest, 0, full);
            },
            Step::Segment(m, _) => {
                let e = step_end(d, p);
                lemma_erase_clean(d, e, full);
                if !erased_marker(m, full) {
                    let a = d.subrange(p, e);
                    let rest = erase_from(d, e, full);
                    assert(out == a + rest);
                    assert(out[0] == d[p] && out[1] == d[p + 1] && out[2] == d[p + 2] && out[3] == d[p
                        + 3]);
                    assert(step_end(out, 0) == e - p);
                    lemma_scan_shift(a, rest, 0, full);
                }
            },
        }
    }
}

proof fn lemma_app1_found_is_erased(s: Seq<u8>, pos: int, full: bool)
    requires
        app1_segment_from(s, pos) is Some,
    ensures
        scan_has_erased(s, pos, full),
    decreases s.len() - pos,
{
    if pos >= 0 && pos < s.len() {
        match step_at(s, pos) {
            Step::Stop => {},
            Step::Segment(m, _) => {
                if m != MARKER_APP1 {
                    lemma_app1_found_is_erased(s, step_end(s, pos), full);
                }
            },
            _ => {
                lemma_app1_found_is_erased(s, step_end(s, pos), full);
            },
        }
    }
}

/// After an erase, the marker scan of the stream meets no APP1 segment,
/// and no APP0 segment when `full` is set; in particular no EXIF data is
/// left. Everything from the start of scan on is copied unchanged.
pub proof fn law_erase_leaves_no_app1(d: Seq<u8>, full: bool)
    requires
        has_soi(d),
    ensures
        !scan_has_erased(d.subrange(0, 2) + erase_from(d, 2, full), 2, full),
        app1_segment_from(d.subrange(0, 2) + erase_from(d, 2, full), 2) is None,
{
    let a = d.subrange(0, 2);
    let out = erase_from(d, 2, full);
    lemma_erase_clean(d, 2, full);
    lemma_scan_shift(a, out, 0, full);
    if app1_segment_from(a + out, 2) is Some {
        lemma_app1_found_is_erased(a + out, 2, full);
    }
}

} // verus!
