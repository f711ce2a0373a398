//! The image file directory codec: parses a TIFF-headed buffer into its
//! first directory's entries and serialises entries back into bytes.
use vstd::prelude::*;
use crate::bytes::{
    get_le16, get_le32, le16, le32, lemma_le16_roundtrip, lemma_le32_roundtrip, push_all, push_le16,
    push_le32, zeros,
};
use crate::tags::{field_type_of, FieldType};

verus! {

/// Byte order declared by a TIFF header.
#[derive(Debug, Clone, Copy, PartialEq, Eq, Structural)]
pub enum ByteOrder {
    LittleEndian,
    BigEndian,
}

/// Why a directory could not be read or written.
#[derive(Debug, Clone, Copy, PartialEq, Eq, Structural)]
pub enum CodecError {
    /// The buffer does not start with a TIFF header ("II" or "MM", then 42).
    InvalidHeader,
    /// The directory, or a value it points to, runs past the end of the buffer.
    TruncatedPayload,
    /// The entries do not fit the 16-bit entry count or the 32-bit offsets.
    TooLarge,
}

/// One directory entry. `value` holds the payload bytes with every
/// multi-byte unit in little-endian order; for a type code outside the
/// twelve known types it holds the raw 4-byte value slot unchanged.
#[derive(Debug, Clone)]
pub struct IfdEntry {
    pub tag: u16,
    pub field_type: u16,
    pub count: u32,
    pub value: Vec<u8>,
}

/// What an entry holds, with its payload as a sequence.
pub struct EntryView {
    pub tag: u16,
    pub field_type: u16,
    pub count: u32,
    pub value: Seq<u8>,
}

impl View for IfdEntry {
    type V = EntryView;

    open spec fn view(&self) -> EntryView {
        EntryView { tag: self.tag, field_type: self.field_type, count: self.count, value: self.value@ }
    }
}

/// The entries of a directory, in the order in which they were stored.
#[derive(Debug, Clone)]
pub struct ParsedIfd {
    pub entries: Vec<IfdEntry>,
    pub byte_order: ByteOrder,
}

pub open spec fn entries_view(v: Seq<IfdEntry>) -> Seq<EntryView> {
    v.map_values(|e: IfdEntry| e@)
}

pub proof fn lemma_view_push(v: Seq<IfdEntry>, e: IfdEntry)
    ensures
        entries_view(v.push(e)) == entries_view(v).push(e@),
{
    assert(entries_view(v.push(e)) =~= entries_view(v).push(e@));
}

/// Payload size of an entry: `count` elements of its type, or the 4-byte
/// slot for an unknown type.
pub open spec fn payload_len(field_type: u16, count: u32) -> int {
    match field_type_of(field_type) {
        Some(t) => count as int * t.spec_size() as int,
        None => 4,
    }
}

/// The payload length agrees with the type and the count.
pub open spec fn well_formed(e: EntryView) -> bool {
    e.value.len() == payload_len(e.field_type, e.count)
}

pub open spec fn all_well_formed(es: Seq<EntryView>) -> bool {
    forall|i: int| 0 <= i < es.len() ==> #[trigger] well_formed(es[i])
}

/// A 16-bit value read at `pos` in the given order.
pub open spec fn rd16(b: Seq<u8>, pos: int, o: ByteOrder) -> nat {
    match o {
        ByteOrder::LittleEndian => get_le16(b[pos], b[pos + 1]),
        ByteOrder::BigEndian => get_le16(b[pos + 1], b[pos]),
    }
}

/// A 32-bit value read at `pos` in the given order.
pub open spec fn rd32(b: Seq<u8>, pos: int, o: ByteOrder) -> nat {
    match o {
        ByteOrder::LittleEndian => get_le32(b[pos], b[pos + 1], b[pos + 2], b[pos + 3]),
        ByteOrder::BigEndian => get_le32(b[pos + 3], b[pos + 2], b[pos + 1], b[pos]),
    }
}

/// The byte order of a valid TIFF header at the start of `b`.
pub open spec fn header_order(b: Seq<u8>) -> Option<ByteOrder> {
    if b.len() < 8 {
        None
    } else if b[0] == 0x49 && b[1] == 0x49 && rd16(b, 2, ByteOrder::LittleEndian) == 42 {
        Some(ByteOrder::LittleEndian)
    } else if b[0] == 0x4D && b[1] == 0x4D && rd16(b, 2, ByteOrder::BigEndian) == 42 {
        Some(ByteOrder::BigEndian)
    } else {
        None
    }
}

/// The bytes of `s` in reverse order.
pub open spec fn reversed(s: Seq<u8>) -> Seq<u8> {
    Seq::new(s.len(), |k: int| s[s.len() - 1 - k])
}

/// Reverses each `unit`-byte group of `s`; a shorter tail is kept as it is.
pub open spec fn swap_units(s: Seq<u8>, unit: nat) -> Seq<u8>
    decreases s.len(),
{
    if unit == 0 || s.len() < unit {
        s
    } else {
        reversed(s.take(unit as int)) + swap_units(s.skip(unit as int), unit)
    }
}

/// Position of the `i`-th record of a directory that starts at `off`.
pub open spec fn record_pos(off: int, i: int) -> int {
    off + 2 + 12 * i
}

/// The entry stored in the 12-byte record at `pos`.
pub open spec fn entry_at(b: Seq<u8>, o: ByteOrder, pos: int) -> EntryView {
    let ft = rd16(b, pos + 2, o) as u16;
    let count = rd32(b, pos + 4, o) as u32;
    let value = match field_type_of(ft) {
        None => b.subrange(pos + 8, pos + 12),
        Some(t) => {
            let len = payload_len(ft, count);
            let src = if len <= 4 {
                b.subrange(pos + 8, pos + 8 + len)
            } else {
                b.subrange(rd32(b, pos + 8, o) as int, rd32(b, pos + 8, o) + len)
            };
            match o {
                ByteOrder::LittleEndian => src,
                ByteOrder::BigEndian => swap_units(src, t.spec_unit() as nat),
            }
        },
    };
    EntryView { tag: rd16(b, pos, o) as u16, field_type: ft, count, value }
}

/// The payload of the record at `pos` lies inside the buffer.
pub open spec fn entry_fits(b: Seq<u8>, o: ByteOrder, pos: int) -> bool {
    let ft = rd16(b, pos + 2, o) as u16;
    let len = payload_len(ft, rd32(b, pos + 4, o) as u32);
    field_type_of(ft) is None || len <= 4 || rd32(b, pos + 8, o) + len <= b.len()
}

/// What parsing `b` yields: the entries of the first directory and the
/// header's byte order, or the first reason it cannot be read.
pub open spec fn parse_spec(b: Seq<u8>) -> Result<(Seq<EntryView>, ByteOrder), CodecError> {
    match header_order(b) {
        None => Err(CodecError::InvalidHeader),
        Some(o) => {
            let off = rd32(b, 4, o) as int;
            if off + 2 > b.len() {
                Err(CodecError::TruncatedPayload)
            } else {
                let n = rd16(b, off, o) as int;
                if record_pos(off, n) > b.len() {
                    Err(CodecError::TruncatedPayload)
                } else if exists|i: int| 0 <= i < n && !#[trigger] entry_fits(b, o, record_pos(off, i)) {
                    Err(CodecError::TruncatedPayload)
                } else {
                    Ok((Seq::new(n as nat, |i: int| entry_at(b, o, record_pos(off, i))), o))
                }
            }
        },
    }
}

fn read16(b: &[u8], pos: usize, o: ByteOrder) -> (r: u16)
    requires
        pos + 2 <= b@.len(),
    ensures
        r as nat == rd16(b@, pos as int, o),
{
    match o {
        ByteOrder::LittleEndian => b[pos] as u16 + 256 * (b[pos + 1] as u16),
        ByteOrder::BigEndian => b[pos + 1] as u16 + 256 * (b[pos] as u16),
    }
}

fn read32(b: &[u8], pos: usize, o: ByteOrder) -> (r: u32)
    requires
        pos + 4 <= b@.len(),
    ensures
        r as nat == rd32(b@, pos as int, o),
{
    match o {
        ByteOrder::LittleEndian => b[pos] as u32 + 256 * (b[pos + 1] as u32) + 65536 * (
        b[pos + 2] as u32) + 16777216 * (b[pos + 3] as u32),
        ByteOrder::BigEndian => b[pos + 3] as u32 + 256 * (b[pos + 2] as u32) + 65536 * (
        b[pos + 1] as u32) + 16777216 * (b[pos] as u32),
    }
}

/// Copies `b[start..end]`, reversing each `unit`-byte group when `swap` is set.
fn copy_payload(b: &[u8], start: usize, end: usize, unit: usize, swap: bool) -> (r: Vec<u8>)
    requires
        start <= end <= b@.len(),
        unit > 0,
    ensures
        r@ == (if swap {
            swap_units(b@.subrange(start as int, end as int), unit as nat)
        } else {
            b@.subrange(start as int, end as int)
        }),
{
    let ghost src = b@.subrange(start as int, end as int);
    let mut out: Vec<u8> = Vec::new();
    let mut i: usize = start;
    if !swap {
        while i < end
            invariant
                start <= i <= end <= b@.len(),
                out@ == b@.subrange(start as int, i as int),
            decreases end - i,
        {
            out.push(b[i]);
            i = i + 1;
            assert(out@ =~= b@.subrange(start as int, i as int));
        }
        return out;
    }
    while i < end
        invariant
            start <= i <= end <= b@.len(),
            unit > 0,
            src == b@.subrange(start as int, end as int),
            out@ + swap_units(b@.subrange(i as int, end as int), unit as nat) == swap_units(
                src,
                unit as nat,
            ),
        decreases end - i,
    {
        let ghost rest = b@.subrange(i as int, end as int);
        if end - i < unit {
            let i0 = i;
            let ghost before = out@;
            while i < end
                invariant
                    start <= i0 <= i <= end <= b@.len(),
                    out@ == before + b@.subrange(i0 as int, i as int),
                decreases end - i,
            {
                out.push(b[i]);
                i = i + 1;
                assert(out@ =~= before + b@.subrange(i0 as int, i as int));
            }
            assert(b@.subrange(i0 as int, end as int) =~= rest);
            assert(swap_units(b@.subrange(end as int, end as int), unit as nat) =~= Seq::<
                u8,
            >::empty());
            assert(out@ + swap_units(b@.subrange(i as int, end as int), unit as nat) =~= out@);
        } else {
            let ghost before = out@;
            let mut j: usize = 0;
            while j < unit
                invariant
                    i + unit <= end <= b@.len(),
                    j <= unit,
                    out@ == before + reversed(b@.subrange(i as int, (i + unit) as int)).take(
                        j as int,
                    ),
                decreases unit - j,
            {
                out.push(b[i + unit - 1 - j]);
                j = j + 1;
                assert(out@ =~= before + reversed(b@.subrange(i as int, (i + unit) as int)).take(
                    j as int,
                ));
            }
            assert(rest.take(unit as int) =~= b@.subrange(i as int, (i + unit) as int));
            assert(rest.skip(unit as int) =~= b@.subrange((i + unit) as int, end as int));
            i = i + unit;
            assert(reversed(b@.subrange((i - unit) as int, i as int)).take(unit as int)
                =~= reversed(b@.subrange((i - unit) as int, i as int)));
            assert(out@ + swap_units(b@.subrange(i as int, end as int), unit as nat) =~= before
                + swap_units(rest, unit as nat));
        }
    }
    assert(swap_units(b@.subrange(i as int, end as int), unit as nat) =~= Seq::<u8>::empty());
    assert(out@ =~= out@ + Seq::<u8>::empty());
    out
}

/// Bytes taken by `count` elements of type `t`.
fn payload_size(t: FieldType, count: u32) -> (r: u64)
    ensures
        r == count as int * t.spec_size() as int,
        r <= 8 * 0xFFFF_FFFFu64,
{
    match t.element_size() {
        1 => count as u64,
        2 => count as u64 * 2,
        4 => count as u64 * 4,
        _ => count as u64 * 8,
    }
}

/// Parses the first directory of a TIFF-headed buffer.
pub fn parse(buf: &[u8]) -> (r: Result<ParsedIfd, CodecError>)
    ensures
        match parse_spec(buf@) {
            Ok((es, o)) => r is Ok && entries_view(r->Ok_0.entries@) == es && r->Ok_0.byte_order
                == o,
            Err(e) => r == Err::<ParsedIfd, CodecError>(e),
        },
{
    let ghost b = buf@;
    if buf.len() < 8 {
        return Err(CodecError::InvalidHeader);
    }
    let o = if buf[0] == 0x49 && buf[1] == 0x49 && read16(buf, 2, ByteOrder::LittleEndian) == 42 {
        ByteOrder::LittleEndian
    } else if buf[0] == 0x4D && buf[1] == 0x4D && read16(buf, 2, ByteOrder::BigEndian) == 42 {
        ByteOrder::BigEndian
    } else {
        return Err(CodecError::InvalidHeader);
    };
    assert(header_order(b) == Some(o));
    let off = read32(buf, 4, o);
    if off as u64 + 2 > buf.len() as u64 {
        return Err(CodecError::TruncatedPayload);
    }
    let off = off as usize;
    let n = read16(buf, off, o);
    if off as u64 + 2 + 12 * (n as u64) > buf.len() as u64 {
        return Err(CodecError::TruncatedPayload);
    }
    let ghost want = Seq::new(n as nat, |i: int| entry_at(b, o, record_pos(off as int, i)));
    let mut entries: Vec<IfdEntry> = Vec::new();
    let mut i: usize = 0;
    while i < n as usize
        invariant
            b == buf@,
            b.len() <= usize::MAX,
            header_order(b) == Some(o),
            off as nat == rd32(b, 4, o),
            n as nat == rd16(b, off as int, o),
            record_pos(off as int, n as int) <= b.len(),
            i <= n,
            want == Seq::new(n as nat, |i: int| entry_at(b, o, record_pos(off as int, i))),
            entries_view(entries@) == want.take(i as int),
            forall|k: int| 0 <= k < i ==> #[trigger] entry_fits(b, o, record_pos(off as int, k)),
        decreases n - i,
    {
        let pos = off + 2 + 12 * i;
        assert(pos as int == record_pos(off as int, i as int));
        let tag = read16(buf, pos, o);
        let ft = read16(buf, pos + 2, o);
        let count = read32(buf, pos + 4, o);
        let value = match FieldType::from_code(ft) {
            None => copy_payload(buf, pos + 8, pos + 12, 1, false),
            Some(t) => {
                let len: u64 = payload_size(t, count);
                let swap = o == ByteOrder::BigEndian;
                if len <= 4 {
                    copy_payload(buf, pos + 8, pos + 8 + len as usize, t.order_unit() as usize, swap)
                } else {
                    let at = read32(buf, pos + 8, o);
                    if at as u64 + len > buf.len() as u64 {
                        assert(!entry_fits(b, o, record_pos(off as int, i as int)));
                        return Err(CodecError::TruncatedPayload);
                    }
                    copy_payload(
                        buf,
                        at as usize,
                        (at as u64 + len) as usize,
                        t.order_unit() as usize,
                        swap,
                    )
                }
            },
        };
        let e = IfdEntry { tag, field_type: ft, count, value };
        assert(e@ == entry_at(b, o, record_pos(off as int, i as int)));
        let ghost prev = entries@;
        let ghost ev = e@;
        assert(entries_view(prev).len() == prev.len());
        assert(prev.len() == i);
        entries.push(e);
        assert(entries@.len() == prev.len() + 1);
        assert(entries@[prev.len() as int]@ == ev);
        i = i + 1;
        assert forall|k: int| 0 <= k < i implies #[trigger] entries_view(entries@)[k] == want.take(
            i as int,
        )[k] by {
            if k < i - 1 {
                assert(entries@[k] == prev[k]);
                assert(entries_view(prev)[k] == want.take(i - 1)[k]);
            } else {
                assert(want[k] == entry_at(b, o, record_pos(off as int, k)));
            }
        }
        assert(entries_view(entries@) =~= want.take(i as int));
    }
    assert(want.take(n as int) =~= want);
    Ok(ParsedIfd { entries, byte_order: o })
}


// ---------------------------------------------------------------------------
// Serialisation
// ---------------------------------------------------------------------------

/// A payload of at most four bytes sits in the entry's value slot.
pub open spec fn is_inline(e: EntryView) -> bool {
    e.value.len() <= 4
}

/// The 4-byte value slot: the payload padded with zeros, or the offset `at`.
pub open spec fn slot(e: EntryView, at: int) -> Seq<u8> {
    if is_inline(e) {
        e.value + zeros((4 - e.value.len()) as nat)
    } else {
        le32(at as u32)
    }
}

/// The 12-byte record of an entry whose out-of-line payload starts at `at`.
pub open spec fn record(e: EntryView, at: int) -> Seq<u8> {
    le16(e.tag) + le16(e.field_type) + le32(e.count) + slot(e, at)
}

/// Bytes that the entries place after the directory.
pub open spec fn overflow_size(es: Seq<EntryView>) -> nat
    decreases es.len(),
{
    if es.len() == 0 {
        0
    } else {
        overflow_size(es.drop_last()) + if is_inline(es.last()) {
            0
        } else {
            es.last().value.len()
        }
    }
}

/// The out-of-line payloads, in entry order.
pub open spec fn overflow_bytes(es: Seq<EntryView>) -> Seq<u8>
    decreases es.len(),
{
    if es.len() == 0 {
        Seq::empty()
    } else {
        overflow_bytes(es.drop_last()) + if is_inline(es.last()) {
            Seq::empty()
        } else {
            es.last().value
        }
    }
}

/// Header, entry count, `n` records and the next-directory pointer.
pub open spec fn table_size(n: nat) -> nat {
    8 + 2 + 12 * n + 4
}

/// The records of `es`, whose out-of-line payloads start at `base`.
pub open spec fn records(es: Seq<EntryView>, base: int) -> Seq<u8>
    decreases es.len(),
{
    if es.len() == 0 {
        Seq::empty()
    } else {
        records(es.drop_last(), base) + record(es.last(), base + overflow_size(es.drop_last()))
    }
}

/// Little-endian TIFF header pointing at a directory right after it.
pub open spec fn tiff_header() -> Seq<u8> {
    seq![0x49u8, 0x49u8, 42u8, 0u8, 8u8, 0u8, 0u8, 0u8]
}

/// The bytes of a single-directory TIFF structure holding `es` in order.
pub open spec fn encode(es: Seq<EntryView>) -> Seq<u8> {
    tiff_header() + le16(es.len() as u16) + records(es, table_size(es.len()) as int) + le32(0)
        + overflow_bytes(es)
}

/// The entry count fits 16 bits and every offset fits 32 bits.
pub open spec fn fits(es: Seq<EntryView>) -> bool {
    es.len() <= 0xFFFF && table_size(es.len()) + overflow_size(es) <= 0xFFFF_FFFF
}

/// Index of the first entry of a sorted list whose tag is not below `t`.
pub open spec fn lower_bound(acc: Seq<EntryView>, t: u16) -> nat
    decreases acc.len(),
{
    if acc.len() == 0 {
        0
    } else if acc.last().tag < t {
        acc.len()
    } else {
        lower_bound(acc.drop_last(), t)
    }
}

/// Puts `e` in tag order, replacing an entry with the same tag.
pub open spec fn insert_entry(acc: Seq<EntryView>, e: EntryView) -> Seq<EntryView> {
    let p = lower_bound(acc, e.tag) as int;
    if p < acc.len() && acc[p].tag == e.tag {
        acc.update(p, e)
    } else {
        acc.insert(p, e)
    }
}

/// The entries sorted by tag, where of entries sharing a tag the last one stays.
pub open spec fn normalize(es: Seq<EntryView>) -> Seq<EntryView>
    decreases es.len(),
{
    if es.len() == 0 {
        Seq::empty()
    } else {
        insert_entry(normalize(es.drop_last()), es.last())
    }
}

pub open spec fn strictly_sorted(es: Seq<EntryView>) -> bool {
    forall|i: int, j: int| 0 <= i < j < es.len() ==> #[trigger] es[i].tag < #[trigger] es[j].tag
}

/// What serialising `es` yields.
pub open spec fn serialize_spec(es: Seq<EntryView>) -> Result<Seq<u8>, CodecError> {
    if fits(normalize(es)) {
        Ok(encode(normalize(es)))
    } else {
        Err(CodecError::TooLarge)
    }
}

pub(crate) fn copy_entry(e: &IfdEntry) -> (r: IfdEntry)
    ensures
        r@ == e@,
{
    let mut value: Vec<u8> = Vec::new();
    push_all(&mut value, e.value.as_slice());
    IfdEntry { tag: e.tag, field_type: e.field_type, count: e.count, value }
}

/// Sorts entries by tag; of entries sharing a tag the last one supplied stays.
pub fn normalize_entries(entries: &[IfdEntry]) -> (r: Vec<IfdEntry>)
    ensures
        entries_view(r@) == normalize(entries_view(entries@)),
{
    let ghost es = entries_view(entries@);
    let mut acc: Vec<IfdEntry> = Vec::new();
    let mut i: usize = 0;
    while i < entries.len()
        invariant
            i <= entries@.len(),
            es == entries_view(entries@),
            entries_view(acc@) == normalize(es.take(i as int)),
        decreases entries@.len() - i,
    {
        let e = copy_entry(&entries[i]);
        let t = e.tag;
        let ghost a = entries_view(acc@);
        let mut p: usize = acc.len();
        assert(a.take(p as int) =~= a);
        while p > 0 && acc[p - 1].tag >= t
            invariant
                p <= acc@.len(),
                a == entries_view(acc@),
                lower_bound(a, t) == lower_bound(a.take(p as int), t),
            decreases p,
        {
            assert(a.take(p as int).drop_last() =~= a.take(p - 1));
            p = p - 1;
        }
        if p > 0 {
            assert(a.take(p as int).last().tag < t);
        }
        assert(lower_bound(a.take(p as int), t) == p);
        assert(es.take(i + 1).drop_last() =~= es.take(i as int));
        assert(es.take(i + 1).last() == e@);
        if p < acc.len() && acc[p].tag == t {
            let ghost before = acc@;
            acc.set(p, e);
            assert(entries_view(acc@) =~= a.update(p as int, e@));
        } else {
            let ghost before = acc@;
            acc.insert(p, e);
            assert(entries_view(acc@) =~= a.insert(p as int, e@));
        }
        i = i + 1;
    }
    assert(es.take(i as int) =~= es);
    acc
}

/// Serialises entries as a little-endian TIFF structure with one directory:
/// records in ascending tag order, payloads over four bytes placed after the
/// directory at offsets counted from the header.
pub fn serialize(entries: &[IfdEntry]) -> (r: Result<Vec<u8>, CodecError>)
    ensures
        match serialize_spec(entries_view(entries@)) {
            Ok(b) => r is Ok && r->Ok_0@ == b,
            Err(e) => r == Err::<Vec<u8>, CodecError>(e),
        },
{
    let ns = normalize_entries(entries);
    let ghost nv = entries_view(ns@);
    let n = ns.len();
    if n > 0xFFFF {
        return Err(CodecError::TooLarge);
    }
    let base: u64 = 14 + 12 * n as u64;
    let mut total: u64 = base;
    let mut i: usize = 0;
    while i < n
        invariant
            n == ns@.len(),
            nv == entries_view(ns@),
            nv == normalize(entries_view(entries@)),
            n <= 0xFFFF,
            base == table_size(n as nat),
            i <= n,
            total == base + overflow_size(nv.take(i as int)),
            total <= 0xFFFF_FFFF,
        decreases n - i,
    {
        assert(nv.take(i + 1).drop_last() =~= nv.take(i as int));
        assert(nv.take(i + 1).last() == ns@[i as int]@);
        let len = ns[i].value.len();
        assert(overflow_size(nv.take(i + 1)) == overflow_size(nv.take(i as int)) + if len > 4 {
            len as nat
        } else {
            0
        });
        if len > 4 {
            if len as u64 > 0xFFFF_FFFF - total {
                proof {
                    lemma_overflow_prefix(nv, i + 1);
                }
                assert(base + overflow_size(nv.take(i + 1)) > 0xFFFF_FFFF);
                assert(!fits(nv));
                return Err(CodecError::TooLarge);
            }
            total = total + len as u64;
        }
        i = i + 1;
    }
    assert(nv.take(n as int) =~= nv);
    let mut out: Vec<u8> = Vec::new();
    out.push(0x49);
    out.push(0x49);
    out.push(42);
    out.push(0);
    out.push(8);
    out.push(0);
    out.push(0);
    out.push(0);
    push_le16(&mut out, n as u16);
    let ghost head = out@;
    assert(head =~= tiff_header() + le16(n as u16));
    let mut cursor: u64 = base;
    i = 0;
    while i < n
        invariant
            n == ns@.len(),
            nv == entries_view(ns@),
            n <= 0xFFFF,
            base == table_size(n as nat),
            i <= n,
            base + overflow_size(nv) <= 0xFFFF_FFFF,
            nv == normalize(entries_view(entries@)),
            cursor == base + overflow_size(nv.take(i as int)),
            out@ == head + records(nv.take(i as int), base as int),
        decreases n - i,
    {
        proof {
            lemma_overflow_prefix(nv, i as int);
        }
        assert(nv.take(i + 1).drop_last() =~= nv.take(i as int));
        assert(nv.take(i + 1).last() == ns@[i as int]@);
        let e = &ns[i];
        proof {
            lemma_overflow_prefix(nv, i + 1);
        }
        assert(overflow_size(nv.take(i + 1)) == overflow_size(nv.take(i as int)) + if e.value.len()
            > 4 {
            e.value.len() as nat
        } else {
            0
        });
        let ghost before = out@;
        push_record(&mut out, e, cursor as u32);
        if e.value.len() > 4 {
            cursor = cursor + e.value.len() as u64;
        }
        assert(out@ =~= before + record(e@, cursor_before(base, nv, i)));
        i = i + 1;
    }
    assert(nv.take(n as int) =~= nv);
    push_le32(&mut out, 0);
    let ghost mid = out@;
    i = 0;
    while i < n
        invariant
            n == ns@.len(),
            nv == entries_view(ns@),
            i <= n,
            nv == normalize(entries_view(entries@)),
            fits(nv),
            out@ == mid + overflow_bytes(nv.take(i as int)),
        decreases n - i,
    {
        assert(nv.take(i + 1).drop_last() =~= nv.take(i as int));
        assert(nv.take(i + 1).last() == ns@[i as int]@);
        let e = &ns[i];
        if e.value.len() > 4 {
            push_all(&mut out, e.value.as_slice());
        }
        assert(out@ =~= mid + overflow_bytes(nv.take(i + 1)));
        i = i + 1;
    }
    assert(nv.take(n as int) =~= nv);
    assert(out@ =~= encode(nv));
    Ok(out)
}

/// Appends the record of `e`, pointing at `at` when its payload is out of line.
fn push_record(out: &mut Vec<u8>, e: &IfdEntry, at: u32)
    ensures
        final(out)@ == old(out)@ + record(e@, at as int),
{
    let ghost before = out@;
    push_le16(out, e.tag);
    push_le16(out, e.field_type);
    push_le32(out, e.count);
    let len = e.value.len();
    if len <= 4 {
        push_all(out, e.value.as_slice());
        let mut k: usize = len;
        while k < 4
            invariant
                len == e.value@.len(),
                len <= k <= 4,
                out@ == before + le16(e.tag) + le16(e.field_type) + le32(e.count) + e.value@ + zeros(
                    (k - len) as nat,
                ),
            decreases 4 - k,
        {
            out.push(0);
            k = k + 1;
            assert(out@ =~= before + le16(e.tag) + le16(e.field_type) + le32(e.count) + e.value@
                + zeros((k - len) as nat));
        }
        assert(out@ =~= before + record(e@, at as int));
    } else {
        push_le32(out, at);
        assert(out@ =~= before + record(e@, at as int));
    }
}

pub open spec fn cursor_before(base: u64, es: Seq<EntryView>, i: usize) -> int {
    base + overflow_size(es.take(i as int))
}

proof fn lemma_overflow_prefix(es: Seq<EntryView>, i: int)
    requires
        0 <= i <= es.len(),
    ensures
        overflow_size(es.take(i)) <= overflow_size(es),
    decreases es.len(),
{
    if i < es.len() {
        assert(es.drop_last().take(i) =~= es.take(i));
        lemma_overflow_prefix(es.drop_last(), i);
    } else {
        assert(es.take(i) =~= es);
    }
}


// ---------------------------------------------------------------------------
// Laws of the codec
// ---------------------------------------------------------------------------

pub proof fn lemma_lower_bound(acc: Seq<EntryView>, t: u16)
    requires
        strictly_sorted(acc),
    ensures
        lower_bound(acc, t) <= acc.len(),
        forall|j: int| 0 <= j < lower_bound(acc, t) ==> #[trigger] acc[j].tag < t,
        forall|j: int| lower_bound(acc, t) <= j < acc.len() ==> #[trigger] acc[j].tag >= t,
    decreases acc.len(),
{
    if acc.len() > 0 {
        let d = acc.drop_last();
        assert(strictly_sorted(d));
        lemma_lower_bound(d, t);
        if acc.last().tag < t {
            assert forall|j: int| 0 <= j < acc.len() implies #[trigger] acc[j].tag < t by {
                if j < acc.len() - 1 {
                    assert(acc[j].tag < acc[acc.len() - 1].tag);
                }
            }
        } else {
            assert forall|j: int| 0 <= j < lower_bound(acc, t) implies #[trigger] acc[j].tag < t by {
                assert(acc[j] == d[j]);
            }
            assert forall|j: int| lower_bound(acc, t) <= j < acc.len() implies #[trigger] acc[j].tag
                >= t by {
                if j < acc.len() - 1 {
                    assert(acc[j] == d[j]);
                }
            }
        }
    }
}

proof fn lemma_insert_sorted(acc: Seq<EntryView>, e: EntryView)
    requires
        strictly_sorted(acc),
    ensures
        strictly_sorted(insert_entry(acc, e)),
        insert_entry(acc, e).len() <= acc.len() + 1,
        forall|k: int|
            0 <= k < insert_entry(acc, e).len() ==> #[trigger] insert_entry(acc, e)[k] == e || exists|
                j: int,
            |
                0 <= j < acc.len() && #[trigger] acc[j] == insert_entry(acc, e)[k],
{
    lemma_lower_bound(acc, e.tag);
    let p = lower_bound(acc, e.tag) as int;
    let r = insert_entry(acc, e);
    if p < acc.len() && acc[p].tag == e.tag {
        assert forall|i: int, j: int| 0 <= i < j < r.len() implies #[trigger] r[i].tag
            < #[trigger] r[j].tag by {
            assert(acc[i].tag < acc[j].tag || i == p || j == p);
            if i == p {
                assert(acc[p].tag < acc[j].tag);
            }
            if j == p {
                assert(acc[i].tag < acc[p].tag);
            }
        }
        assert forall|k: int| 0 <= k < r.len() implies #[trigger] r[k] == e || exists|j: int|
            0 <= j < acc.len() && #[trigger] acc[j] == r[k] by {
            if k != p {
                assert(acc[k] == r[k]);
            }
        }
    } else {
        assert forall|i: int, j: int| 0 <= i < j < r.len() implies #[trigger] r[i].tag
            < #[trigger] r[j].tag by {
            if j < p {
                assert(acc[i].tag < acc[j].tag);
            } else if j == p {
                assert(r[i] == acc[i]);
            } else if i == p {
                assert(r[j] == acc[j - 1]);
                if j - 1 == p {
                    assert(acc[p].tag != e.tag);
                }
            } else if i < p {
                assert(acc[i].tag < acc[j - 1].tag);
            } else {
                assert(acc[i - 1].tag < acc[j - 1].tag);
            }
        }
        assert forall|k: int| 0 <= k < r.len() implies #[trigger] r[k] == e || exists|j: int|
            0 <= j < acc.len() && #[trigger] acc[j] == r[k] by {
            if k < p {
                assert(acc[k] == r[k]);
            } else if k > p {
                assert(acc[k - 1] == r[k]);
            }
        }
    }
}

/// Normalising puts the entries in strictly ascending tag order, keeps
/// only entries that were supplied, and never lengthens the list.
pub proof fn lemma_normalize_sorted(es: Seq<EntryView>)
    ensures
        strictly_sorted(normalize(es)),
        normalize(es).len() <= es.len(),
        forall|k: int|
            0 <= k < normalize(es).len() ==> exists|j: int|
                0 <= j < es.len() && #[trigger] es[j] == #[trigger] normalize(es)[k],
    decreases es.len(),
{
    if es.len() > 0 {
        let d = es.drop_last();
        lemma_normalize_sorted(d);
        lemma_insert_sorted(normalize(d), es.last());
        assert forall|k: int| 0 <= k < normalize(es).len() implies exists|j: int|
            0 <= j < es.len() && #[trigger] es[j] == #[trigger] normalize(es)[k] by {
            if normalize(es)[k] == es.last() {
                assert(es[es.len() - 1] == normalize(es)[k]);
            } else {
                let j0 = choose|j: int|
                    0 <= j < normalize(d).len() && #[trigger] normalize(d)[j] == normalize(es)[k];
                let j1 = choose|j: int| 0 <= j < d.len() && #[trigger] d[j] == normalize(d)[j0];
                assert(es[j1] == normalize(es)[k]);
            }
        }
    }
}

/// A list already in strictly ascending tag order is its own normal form.
pub proof fn lemma_normalize_sorted_id(ns: Seq<EntryView>)
    requires
        strictly_sorted(ns),
    ensures
        normalize(ns) == ns,
    decreases ns.len(),
{
    if ns.len() > 0 {
        let d = ns.drop_last();
        assert(strictly_sorted(d));
        lemma_normalize_sorted_id(d);
        lemma_lower_bound(d, ns.last().tag);
        if d.len() > 0 {
            assert(d[d.len() - 1].tag < ns[ns.len() - 1].tag);
        }
        assert(lower_bound(d, ns.last().tag) == d.len());
        assert(d.insert(d.len() as int, ns.last()) =~= ns);
    }
}

proof fn lemma_records_len(es: Seq<EntryView>, base: int)
    ensures
        records(es, base).len() == 12 * es.len(),
    decreases es.len(),
{
    if es.len() > 0 {
        lemma_records_len(es.drop_last(), base);
    }
}

proof fn lemma_overflow_len(es: Seq<EntryView>)
    ensures
        overflow_bytes(es).len() == overflow_size(es),
    decreases es.len(),
{
    if es.len() > 0 {
        lemma_overflow_len(es.drop_last());
    }
}

proof fn lemma_record_at(es: Seq<EntryView>, base: int, i: int)
    requires
        0 <= i < es.len(),
    ensures
        records(es, base).subrange(12 * i, 12 * i + 12) == record(
            es[i],
            base + overflow_size(es.take(i)),
        ),
    decreases es.len(),
{
    let d = es.drop_last();
    lemma_records_len(d, base);
    if i == es.len() - 1 {
        assert(es.take(i) =~= d);
        assert(records(es, base).subrange(12 * i, 12 * i + 12) =~= record(
            es[i],
            base + overflow_size(es.take(i)),
        ));
    } else {
        lemma_record_at(d, base, i);
        assert(d.take(i) =~= es.take(i));
        assert(records(es, base).subrange(12 * i, 12 * i + 12) =~= records(d, base).subrange(
            12 * i,
            12 * i + 12,
        ));
    }
}

proof fn lemma_overflow_at(es: Seq<EntryView>, i: int)
    requires
        0 <= i < es.len(),
        !is_inline(es[i]),
    ensures
        overflow_size(es.take(i)) + es[i].value.len() <= overflow_size(es),
        overflow_bytes(es).subrange(
            overflow_size(es.take(i)) as int,
            (overflow_size(es.take(i)) + es[i].value.len()) as int,
        ) == es[i].value,
    decreases es.len(),
{
    let d = es.drop_last();
    lemma_overflow_len(d);
    if i == es.len() - 1 {
        assert(es.take(i) =~= d);
        assert(overflow_bytes(es).subrange(
            overflow_size(es.take(i)) as int,
            (overflow_size(es.take(i)) + es[i].value.len()) as int,
        ) =~= es[i].value);
    } else {
        lemma_overflow_at(d, i);
        assert(d.take(i) =~= es.take(i));
        assert(overflow_bytes(es).subrange(
            overflow_size(es.take(i)) as int,
            (overflow_size(es.take(i)) + es[i].value.len()) as int,
        ) =~= overflow_bytes(d).subrange(
            overflow_size(es.take(i)) as int,
            (overflow_size(es.take(i)) + es[i].value.len()) as int,
        ));
    }
}

proof fn lemma_encode_layout(ns: Seq<EntryView>)
    ensures
        encode(ns).len() == table_size(ns.len()) + overflow_size(ns),
        encode(ns).subrange(0, 10) == tiff_header() + le16(ns.len() as u16),
        encode(ns).subrange(10, 10 + 12 * ns.len() as int) == records(
            ns,
            table_size(ns.len()) as int,
        ),
        encode(ns).subrange(table_size(ns.len()) as int, encode(ns).len() as int) == overflow_bytes(
            ns,
        ),
{
    let base = table_size(ns.len()) as int;
    lemma_records_len(ns, base);
    lemma_overflow_len(ns);
    let b = encode(ns);
    assert(b.subrange(0, 10) =~= tiff_header() + le16(ns.len() as u16));
    assert(b.subrange(10, 10 + 12 * ns.len() as int) =~= records(ns, base));
    assert(b.subrange(base, b.len() as int) =~= overflow_bytes(ns));
}

proof fn lemma_record_bytes(ns: Seq<EntryView>, i: int)
    requires
        0 <= i < ns.len(),
    ensures
        encode(ns).len() == table_size(ns.len()) + overflow_size(ns),
        encode(ns).subrange(record_pos(8, i), record_pos(8, i) + 12) == record(
            ns[i],
            (table_size(ns.len()) + overflow_size(ns.take(i))) as int,
        ),
{
    let b = encode(ns);
    let n = ns.len();
    let base = table_size(n) as int;
    lemma_encode_layout(ns);
    lemma_records_len(ns, base);
    lemma_record_at(ns, base, i);
    assert(b.subrange(10, 10 + 12 * n as int).subrange(12 * i, 12 * i + 12) =~= b.subrange(
        record_pos(8, i),
        record_pos(8, i) + 12,
    ));
}

proof fn lemma_out_of_line_bytes(ns: Seq<EntryView>, i: int)
    requires
        0 <= i < ns.len(),
        !is_inline(ns[i]),
    ensures
        table_size(ns.len()) + overflow_size(ns.take(i)) + ns[i].value.len() <= encode(ns).len(),
        encode(ns).subrange(
            (table_size(ns.len()) + overflow_size(ns.take(i))) as int,
            (table_size(ns.len()) + overflow_size(ns.take(i)) + ns[i].value.len()) as int,
        ) == ns[i].value,
{
    let b = encode(ns);
    let base = table_size(ns.len()) as int;
    let o = overflow_size(ns.take(i)) as int;
    let len = ns[i].value.len() as int;
    lemma_encode_layout(ns);
    lemma_overflow_len(ns);
    lemma_overflow_at(ns, i);
    assert(b.subrange(base, b.len() as int).subrange(o, o + len) =~= b.subrange(
        base + o,
        base + o + len,
    ));
}

proof fn lemma_record_fields(b: Seq<u8>, pos: int, e: EntryView, at: int)
    requires
        0 <= pos,
        pos + 12 <= b.len(),
        b.subrange(pos, pos + 12) == record(e, at),
    ensures
        rd16(b, pos, ByteOrder::LittleEndian) == e.tag,
        rd16(b, pos + 2, ByteOrder::LittleEndian) == e.field_type,
        rd32(b, pos + 4, ByteOrder::LittleEndian) == e.count,
        is_inline(e) ==> b.subrange(pos + 8, pos + 8 + e.value.len()) == e.value,
        is_inline(e) && e.value.len() == 4 ==> b.subrange(pos + 8, pos + 12) == e.value,
        !is_inline(e) && 0 <= at <= 0xFFFF_FFFF ==> rd32(b, pos + 8, ByteOrder::LittleEndian) == at,
{
    let rec = record(e, at);
    lemma_le16_roundtrip(e.tag);
    lemma_le16_roundtrip(e.field_type);
    lemma_le32_roundtrip(e.count);
    assert forall|k: int| 0 <= k < 12 implies b[pos + k] == #[trigger] rec[k] by {
        assert(b.subrange(pos, pos + 12)[k] == b[pos + k]);
    }
    assert(b[pos] == rec[0] && b[pos + 1] == rec[1]);
    assert(b[pos + 2] == rec[2] && b[pos + 3] == rec[3]);
    assert(b[pos + 4] == rec[4] && b[pos + 5] == rec[5] && b[pos + 6] == rec[6] && b[pos + 7]
        == rec[7]);
    assert(b[pos + 8] == rec[8] && b[pos + 9] == rec[9] && b[pos + 10] == rec[10] && b[pos + 11]
        == rec[11]);
    if is_inline(e) {
        assert(slot(e, at) =~= rec.subrange(8, 12));
        assert(b.subrange(pos + 8, pos + 12) =~= slot(e, at));
        assert(slot(e, at).subrange(0, e.value.len() as int) =~= e.value);
        assert(b.subrange(pos + 8, pos + 8 + e.value.len()) =~= e.value);
        if e.value.len() == 4 {
            assert(b.subrange(pos + 8, pos + 12) =~= e.value);
        }
    } else if 0 <= at <= 0xFFFF_FFFF {
        lemma_le32_roundtrip(at as u32);
    }
}

proof fn lemma_entry_decodes(ns: Seq<EntryView>, i: int)
    requires
        fits(ns),
        0 <= i < ns.len(),
        well_formed(ns[i]),
    ensures
        entry_at(encode(ns), ByteOrder::LittleEndian, record_pos(8, i)) == ns[i],
        entry_fits(encode(ns), ByteOrder::LittleEndian, record_pos(8, i)),
{
    let b = encode(ns);
    let e = ns[i];
    let at = (table_size(ns.len()) + overflow_size(ns.take(i))) as int;
    lemma_overflow_prefix(ns, i);
    lemma_record_bytes(ns, i);
    lemma_record_fields(b, record_pos(8, i), e, at);
    if !is_inline(e) {
        lemma_out_of_line_bytes(ns, i);
    }
    let got = entry_at(b, ByteOrder::LittleEndian, record_pos(8, i));
    assert(got.value =~= e.value);
}

/// Parsing the bytes of a single directory gives back its entries, in
/// little-endian order.
pub proof fn lemma_parse_encode(ns: Seq<EntryView>)
    requires
        fits(ns),
        all_well_formed(ns),
    ensures
        parse_spec(encode(ns)) == Ok::<(Seq<EntryView>, ByteOrder), CodecError>(
            (ns, ByteOrder::LittleEndian),
        ),
{
    let b = encode(ns);
    let n = ns.len();
    let o = ByteOrder::LittleEndian;
    lemma_encode_layout(ns);
    lemma_le16_roundtrip(n as u16);
    let h = b.subrange(0, 10);
    assert(b[0] == h[0] && b[1] == h[1] && b[2] == h[2] && b[3] == h[3]);
    assert(b[4] == h[4] && b[5] == h[5] && b[6] == h[6] && b[7] == h[7]);
    assert(b[8] == h[8] && b[9] == h[9]);
    assert(header_order(b) == Some(o));
    assert(rd32(b, 4, o) == 8);
    assert(rd16(b, 8, o) == n);
    assert forall|i: int| 0 <= i < n implies #[trigger] entry_fits(b, o, record_pos(8, i)) by {
        lemma_entry_decodes(ns, i);
    }
    let got = Seq::new(n as nat, |i: int| entry_at(b, o, record_pos(8, i)));
    assert forall|i: int| 0 <= i < n implies #[trigger] got[i] == ns[i] by {
        lemma_entry_decodes(ns, i);
    }
    assert(got =~= ns);
}

/// Round trip: serialising, parsing the result and serialising the parsed
/// entries again gives the same bytes, and the parsed entries are the
/// normal form of the input.
pub proof fn law_round_trip(es: Seq<EntryView>)
    requires
        all_well_formed(es),
        serialize_spec(es) is Ok,
    ensures
        parse_spec(serialize_spec(es)->Ok_0) == Ok::<(Seq<EntryView>, ByteOrder), CodecError>(
            (normalize(es), ByteOrder::LittleEndian),
        ),
        serialize_spec(normalize(es)) == serialize_spec(es),
{
    let ns = normalize(es);
    lemma_normalize_sorted(es);
    assert forall|k: int| 0 <= k < ns.len() implies #[trigger] well_formed(ns[k]) by {
        let j = choose|j: int| 0 <= j < es.len() && #[trigger] es[j] == #[trigger] ns[k];
        assert(well_formed(es[j]));
    }
    lemma_parse_encode(ns);
    lemma_normalize_sorted_id(ns);
}

/// Serialised directories list their entries in strictly ascending tag
/// order, as read back from the bytes.
pub proof fn law_serialized_tags_ascending(es: Seq<EntryView>)
    requires
        all_well_formed(es),
        serialize_spec(es) is Ok,
    ensures
        parse_spec(serialize_spec(es)->Ok_0) is Ok,
        strictly_sorted(parse_spec(serialize_spec(es)->Ok_0)->Ok_0.0),
{
    law_round_trip(es);
    lemma_normalize_sorted(es);
}

proof fn lemma_swap_units_len(s: Seq<u8>, unit: nat)
    ensures
        swap_units(s, unit).len() == s.len(),
    decreases s.len(),
{
    if unit > 0 && s.len() >= unit {
        lemma_swap_units_len(s.skip(unit as int), unit);
    }
}

/// Every entry that parsing yields has a payload of the size that its type
/// and count call for.
pub proof fn lemma_parsed_well_formed(b: Seq<u8>)
    requires
        parse_spec(b) is Ok,
    ensures
        all_well_formed(parse_spec(b)->Ok_0.0),
{
    let o = header_order(b)->0;
    let off = rd32(b, 4, o) as int;
    let es = parse_spec(b)->Ok_0.0;
    assert forall|i: int| 0 <= i < es.len() implies #[trigger] well_formed(es[i]) by {
        let pos = record_pos(off, i);
        assert(entry_fits(b, o, pos));
        let ft = rd16(b, pos + 2, o) as u16;
        match field_type_of(ft) {
            Some(t) => {
                let len = payload_len(ft, rd32(b, pos + 4, o) as u32);
                let src = if len <= 4 {
                    b.subrange(pos + 8, pos + 8 + len)
                } else {
                    b.subrange(rd32(b, pos + 8, o) as int, rd32(b, pos + 8, o) + len)
                };
                lemma_swap_units_len(src, t.spec_unit() as nat);
            },
            None => {},
        }
    }
}

/// Round trip for every directory that parses: its entries serialise,
/// parse back to their normal form, and serialise again to the same bytes.
pub proof fn law_parsed_round_trip(b: Seq<u8>)
    requires
        parse_spec(b) is Ok,
        serialize_spec(parse_spec(b)->Ok_0.0) is Ok,
    ensures
        parse_spec(serialize_spec(parse_spec(b)->Ok_0.0)->Ok_0) == Ok::<(Seq<EntryView>, ByteOrder), CodecError>(
            (normalize(parse_spec(b)->Ok_0.0), ByteOrder::LittleEndian),
        ),
        serialize_spec(normalize(parse_spec(b)->Ok_0.0)) == serialize_spec(parse_spec(b)->Ok_0.0),
{
    lemma_parsed_well_formed(b);
    law_round_trip(parse_spec(b)->Ok_0.0);
}

} // verus!
