//! Field sets and the merge of a field set into an existing directory:
//! overriding tags replace existing entries, every other entry is kept.
use vstd::prelude::*;
use vstd::string::StringSliceAdditionalSpecFns;
use vstd::utf8::encode_utf8;
use crate::bytes::{le16, le32, push_all, push_le16, push_le32};
use crate::codec::{
    copy_entry, entries_view, insert_entry, lemma_lower_bound, lemma_normalize_sorted, lemma_view_push, lower_bound,
    normalize, EntryView, IfdEntry, ParsedIfd,
};
use crate::tags::{name_to_tag, tag_for_key};

verus! {

/// A value that a field set assigns to a key.
#[derive(Debug, Clone)]
pub enum FieldValue {
    /// Written as ASCII with a terminating NUL.
    Text(String),
    /// Written as SHORT, saturating at 65535.
    Short(u32),
    /// Written as LONG.
    Long(u32),
    /// Written as RATIONAL: numerator and denominator.
    Rational(u32, u32),
    /// Written as UNDEFINED bytes.
    Bytes(Vec<u8>),
}

/// One key of a field set and its value.
#[derive(Debug, Clone)]
pub struct Field {
    pub name: String,
    pub value: FieldValue,
}

/// The entry that a value becomes under `tag`, when its size can be written.
pub open spec fn value_entry(tag: u16, v: FieldValue) -> Option<EntryView> {
    match v {
        FieldValue::Text(s) => {
            let b = encode_utf8(s@);
            if b.len() + 1 <= 0xFFFF_FFFF {
                Some(EntryView { tag, field_type: 2, count: (b.len() + 1) as u32, value: b.push(0) })
            } else {
                None
            }
        },
        FieldValue::Short(n) => Some(
            EntryView {
                tag,
                field_type: 3,
                count: 1,
                value: le16(if n > 0xFFFF {
                    0xFFFFu16
                } else {
                    n as u16
                }),
            },
        ),
        FieldValue::Long(n) => Some(EntryView { tag, field_type: 4, count: 1, value: le32(n) }),
        FieldValue::Rational(p, q) => Some(
            EntryView { tag, field_type: 5, count: 1, value: le32(p) + le32(q) },
        ),
        FieldValue::Bytes(b) => if b@.len() <= 0xFFFF_FFFF {
            Some(EntryView { tag, field_type: 7, count: b@.len() as u32, value: b@ })
        } else {
            None
        },
    }
}

/// The entry that a field becomes: its key must name a known tag.
pub open spec fn field_entry(f: Field) -> Option<EntryView> {
    match tag_for_key(f.name@) {
        Some(t) => value_entry(t, f.value),
        None => None,
    }
}

/// The entries of a field set, in its order; fields with an unknown key
/// are left out.
pub open spec fn field_entries(fs: Seq<Field>) -> Seq<EntryView>
    decreases fs.len(),
{
    if fs.len() == 0 {
        Seq::empty()
    } else {
        field_entries(fs.drop_last()) + match field_entry(fs.last()) {
            Some(e) => seq![e],
            None => Seq::empty(),
        }
    }
}

/// Whether some entry has tag `t`.
pub open spec fn has_tag(es: Seq<EntryView>, t: u16) -> bool {
    exists|i: int| 0 <= i < es.len() && #[trigger] es[i].tag == t
}

/// The last entry with tag `t`.
pub open spec fn last_with_tag(es: Seq<EntryView>, t: u16) -> Option<EntryView>
    decreases es.len(),
{
    if es.len() == 0 {
        None
    } else if es.last().tag == t {
        Some(es.last())
    } else {
        last_with_tag(es.drop_last(), t)
    }
}

/// Whether an existing entry with tag `t` is carried into a merge.
pub open spec fn carried(ov: Seq<EntryView>, t: u16) -> bool {
    !has_tag(ov, t)
}

/// The existing entries whose tag no override carries.
pub open spec fn kept(ex: Seq<EntryView>, ov: Seq<EntryView>) -> Seq<EntryView>
    decreases ex.len(),
{
    if ex.len() == 0 {
        Seq::empty()
    } else {
        kept(ex.drop_last(), ov) + if carried(ov, ex.last().tag) {
            seq![ex.last()]
        } else {
            Seq::empty()
        }
    }
}

/// The merged entry list: kept existing entries, then the overrides.
pub open spec fn merge_spec(ex: Seq<EntryView>, ov: Seq<EntryView>) -> Seq<EntryView> {
    kept(ex, ov) + ov
}

/// The entry that a value becomes under `tag`.
pub fn value_to_entry(tag: u16, v: &FieldValue) -> (r: Option<IfdEntry>)
    ensures
        match value_entry(tag, *v) {
            Some(e) => r is Some && r->0@ == e,
            None => r is None,
        },
{
    let mut value: Vec<u8> = Vec::new();
    match v {
        FieldValue::Text(s) => {
            let b = s.as_str().as_bytes();
            if b.len() >= 0xFFFF_FFFF {
                return None;
            }
            push_all(&mut value, b);
            value.push(0);
            Some(IfdEntry { tag, field_type: 2, count: (b.len() + 1) as u32, value })
        },
        FieldValue::Short(n) => {
            let s: u16 = if *n > 0xFFFF {
                0xFFFF
            } else {
                *n as u16
            };
            push_le16(&mut value, s);
            Some(IfdEntry { tag, field_type: 3, count: 1, value })
        },
        FieldValue::Long(n) => {
            push_le32(&mut value, *n);
            Some(IfdEntry { tag, field_type: 4, count: 1, value })
        },
        FieldValue::Rational(p, q) => {
            push_le32(&mut value, *p);
            push_le32(&mut value, *q);
            Some(IfdEntry { tag, field_type: 5, count: 1, value })
        },
        FieldValue::Bytes(b) => {
            if b.len() > 0xFFFF_FFFF {
                return None;
            }
            push_all(&mut value, b.as_slice());
            Some(IfdEntry { tag, field_type: 7, count: b.len() as u32, value })
        },
    }
}

/// The entries of a field set, in its order, leaving out unknown keys.
pub fn fields_to_entries(fields: &[Field]) -> (r: Vec<IfdEntry>)
    ensures
        entries_view(r@) == field_entries(fields@),
{
    let mut out: Vec<IfdEntry> = Vec::new();
    let mut i: usize = 0;
    while i < fields.len()
        invariant
            i <= fields@.len(),
            entries_view(out@) == field_entries(fields@.take(i as int)),
        decreases fields@.len() - i,
    {
        assert(fields@.take(i + 1).drop_last() =~= fields@.take(i as int));
        let f = &fields[i];
        let ghost before = out@;
        match name_to_tag(f.name.as_str()) {
            Some(t) => match value_to_entry(t, &f.value) {
                Some(e) => {
                    out.push(e);
                },
                None => {},
            },
            None => {},
        }
        i = i + 1;
        assert(entries_view(out@) =~= field_entries(fields@.take(i as int)));
    }
    assert(fields@.take(i as int) =~= fields@);
    out
}

/// Whether some entry carries tag `t`.
pub fn contains_tag(es: &[IfdEntry], t: u16) -> (r: bool)
    ensures
        r == has_tag(entries_view(es@), t),
{
    let mut i: usize = 0;
    while i < es.len()
        invariant
            i <= es@.len(),
            forall|k: int| 0 <= k < i ==> es@[k].tag != t,
        decreases es@.len() - i,
    {
        if es[i].tag == t {
            assert(entries_view(es@)[i as int].tag == t);
            return true;
        }
        i = i + 1;
    }
    assert forall|k: int| 0 <= k < es@.len() implies #[trigger] entries_view(es@)[k].tag != t by {
        assert(entries_view(es@)[k] == es@[k]@);
    }
    false
}

/// Merges a field set into the entries of an existing directory: every
/// existing entry whose tag the field set does not carry is kept in its
/// order, followed by the field set's entries.
pub fn merge(existing: Option<ParsedIfd>, overrides: &[Field]) -> (r: Vec<IfdEntry>)
    ensures
        entries_view(r@) == merge_spec(
            match existing {
                Some(p) => entries_view(p.entries@),
                None => Seq::empty(),
            },
            field_entries(overrides@),
        ),
{
    let ov = fields_to_entries(overrides);
    let ghost ovv = entries_view(ov@);
    let ex: Vec<IfdEntry> = match existing {
        Some(p) => p.entries,
        None => Vec::new(),
    };
    let ghost exv = entries_view(ex@);
    let mut out: Vec<IfdEntry> = Vec::new();
    let mut i: usize = 0;
    while i < ex.len()
        invariant
            i <= ex@.len(),
            exv == entries_view(ex@),
            ovv == entries_view(ov@),
            entries_view(out@) == kept(exv.take(i as int), ovv),
        decreases ex@.len() - i,
    {
        assert(exv.take(i + 1).drop_last() =~= exv.take(i as int));
        assert(exv.take(i + 1).last() == ex@[i as int]@);
        if !contains_tag(ov.as_slice(), ex[i].tag) {
            let e = copy_entry(&ex[i]);
            out.push(e);
        }
        i = i + 1;
        assert(entries_view(out@) =~= kept(exv.take(i as int), ovv));
    }
    assert(exv.take(i as int) =~= exv);
    let mut j: usize = 0;
    let ghost k = entries_view(out@);
    while j < ov.len()
        invariant
            j <= ov@.len(),
            ovv == entries_view(ov@),
            entries_view(out@) == k + ovv.take(j as int),
        decreases ov@.len() - j,
    {
        let e = copy_entry(&ov[j]);
        proof {
            lemma_view_push(out@, e);
        }
        out.push(e);
        j = j + 1;
        assert(entries_view(out@) =~= k + ovv.take(j as int));
    }
    assert(ovv.take(j as int) =~= ovv);
    out
}

proof fn lemma_last_some(es: Seq<EntryView>, t: u16)
    ensures
        last_with_tag(es, t) is Some <==> has_tag(es, t),
        last_with_tag(es, t) matches Some(e) ==> e.tag == t,
    decreases es.len(),
{
    if es.len() > 0 {
        let d = es.drop_last();
        lemma_last_some(d, t);
        if has_tag(d, t) {
            let i = choose|i: int| 0 <= i < d.len() && #[trigger] d[i].tag == t;
            assert(es[i].tag == t);
        }
        if has_tag(es, t) && es.last().tag != t {
            let i = choose|i: int| 0 <= i < es.len() && #[trigger] es[i].tag == t;
            assert(d[i].tag == t);
        }
    }
}

proof fn lemma_last_concat(a: Seq<EntryView>, b: Seq<EntryView>, t: u16)
    ensures
        last_with_tag(a + b, t) == if last_with_tag(b, t) is Some {
            last_with_tag(b, t)
        } else {
            last_with_tag(a, t)
        },
    decreases b.len(),
{
    if b.len() == 0 {
        assert(a + b =~= a);
    } else {
        assert((a + b).drop_last() =~= a + b.drop_last());
        lemma_last_concat(a, b.drop_last(), t);
    }
}

proof fn lemma_kept_last(ex: Seq<EntryView>, ov: Seq<EntryView>, t: u16)
    ensures
        !carried(ov, t) ==> last_with_tag(kept(ex, ov), t) is None,
        carried(ov, t) ==> last_with_tag(kept(ex, ov), t) == last_with_tag(ex, t),
    decreases ex.len(),
{
    if ex.len() > 0 {
        let d = ex.drop_last();
        lemma_kept_last(d, ov, t);
        let tail: Seq<EntryView> = if carried(ov, ex.last().tag) {
            seq![ex.last()]
        } else {
            Seq::empty()
        };
        assert(kept(ex, ov) == kept(d, ov) + tail);
        lemma_last_concat(kept(d, ov), tail, t);
        assert(seq![ex.last()].drop_last() =~= Seq::<EntryView>::empty());
        if !carried(ov, t) && carried(ov, ex.last().tag) {
            assert(ex.last().tag != t);
        }
        let x = ex.last();
        assert(last_with_tag(Seq::<EntryView>::empty(), t) is None);
        assert(last_with_tag(seq![x], t) == if x.tag == t {
            Some(x)
        } else {
            None
        }) by {
            assert(seq![x].last() == x);
        }
        assert(last_with_tag(ex, t) == if x.tag == t {
            Some(x)
        } else {
            last_with_tag(d, t)
        });
    }
}

proof fn lemma_normalize_holds_last(es: Seq<EntryView>, t: u16)
    ensures
        match last_with_tag(es, t) {
            Some(e) => exists|k: int| 0 <= k < normalize(es).len() && #[trigger] normalize(es)[k] == e,
            None => forall|k: int| 0 <= k < normalize(es).len() ==> #[trigger] normalize(es)[k].tag != t,
        },
    decreases es.len(),
{
    if es.len() > 0 {
        let d = es.drop_last();
        let e = es.last();
        lemma_normalize_holds_last(d, t);
        let acc = normalize(d);
        lemma_normalize_sorted(d);
        lemma_lower_bound(acc, e.tag);
        let p = lower_bound(acc, e.tag) as int;
        let r = insert_entry(acc, e);
        assert(r == normalize(es));
        if e.tag == t {
            assert(r[p] == e);
        } else {
            match last_with_tag(d, t) {
                Some(x) => {
                    let k = choose|k: int| 0 <= k < acc.len() && #[trigger] acc[k] == x;
                    lemma_last_some(d, t);
                    if p < acc.len() && acc[p].tag == e.tag {
                        assert(r[k] == x);
                    } else if k < p {
                        assert(r[k] == x);
                    } else {
                        assert(r[k + 1] == x);
                    }
                },
                None => {
                    assert forall|k: int| 0 <= k < r.len() implies #[trigger] r[k].tag != t by {
                        if p < acc.len() && acc[p].tag == e.tag {
                            if k != p {
                                assert(r[k] == acc[k]);
                            }
                        } else if k < p {
                            assert(r[k] == acc[k]);
                        } else if k > p {
                            assert(r[k] == acc[k - 1]);
                        }
                    }
                },
            }
        }
    }
}

/// Overrides win and everything else is preserved: in the directory that
/// serialising a merge writes, a tag carried by the field set holds the
/// field set's last entry for it; any other tag of the existing entries
/// holds the last existing entry for it; no other tag appears.
pub proof fn law_merge_precedence(ex: Seq<EntryView>, ov: Seq<EntryView>, t: u16)
    ensures
        has_tag(ov, t) ==> exists|k: int|
            0 <= k < normalize(merge_spec(ex, ov)).len() && #[trigger] normalize(
                merge_spec(ex, ov),
            )[k] == last_with_tag(ov, t)->0,
        carried(ov, t) && has_tag(ex, t) ==> exists|k: int|
            0 <= k < normalize(merge_spec(ex, ov)).len() && #[trigger] normalize(
                merge_spec(ex, ov),
            )[k] == last_with_tag(ex, t)->0,
        !has_tag(ov, t) && !has_tag(ex, t) ==> forall|k: int|
            0 <= k < normalize(merge_spec(ex, ov)).len() ==> #[trigger] normalize(
                merge_spec(ex, ov),
            )[k].tag != t,
{
    let m = merge_spec(ex, ov);
    lemma_last_some(ov, t);
    lemma_last_some(ex, t);
    lemma_kept_last(ex, ov, t);
    lemma_last_concat(kept(ex, ov), ov, t);
    lemma_normalize_holds_last(m, t);
}

} // verus!
