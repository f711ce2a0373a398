//! Text layout of the metadata table and completion of typed paths.
use vstd::prelude::*;
use vstd::string::{StrSliceExecFns, StringExecFns};
use crate::readout::{digits, push_char};
use crate::models::Selection;

verus! {

/// Layout helpers for the terminal interface.
pub struct PromptUtils;

/// `s` followed by spaces up to `w` characters.
pub open spec fn padded(s: Seq<char>, w: nat) -> Seq<char> {
    if s.len() >= w {
        s
    } else {
        s + Seq::new((w - s.len()) as nat, |i: int| ' ')
    }
}

/// A run of `n` horizontal box-drawing lines.
pub open spec fn rule(n: nat) -> Seq<char> {
    Seq::new(n, |i: int| '\u{2500}')
}

fn push_padded(out: &mut String, s: &str, w: usize)
    ensures
        final(out)@ == old(out)@ + padded(s@, w as nat),
{
    out.append(s);
    let n = s.unicode_len();
    let ghost mid = out@;
    let mut k: usize = n;
    while k < w
        invariant
            n == s@.len(),
            n <= k <= w || (n > w && k == n),
            out@ == mid + Seq::new((k - n) as nat, |i: int| ' '),
        decreases w - k,
    {
        push_char(out, ' ');
        k = k + 1;
        assert(out@ =~= mid + Seq::new((k - n) as nat, |i: int| ' '));
    }
    if n >= w {
        assert(out@ =~= mid);
    }
    assert(final(out)@ =~= old(out)@ + padded(s@, w as nat));
}

/// Longest prefix shared by all of `ss`.
pub open spec fn shares_prefix(ss: Seq<String>, p: Seq<char>) -> bool {
    forall|j: int| 0 <= j < ss.len() ==> #[trigger] ss[j]@.len() >= p.len() && ss[j]@.take(
        p.len() as int,
    ) == p
}

impl PromptUtils {
    /// Header of the metadata table: the two column titles padded to their
    /// widths, and a rule under them.
    pub fn format_table_header(tag_width: usize, value_width: usize) -> (r: String)
        requires
            tag_width + value_width + 3 <= usize::MAX,
        ensures
            r@ == " "@ + padded("EXIF Tag"@, tag_width as nat) + " \u{2502} "@ + padded(
                "Value"@,
                value_width as nat,
            ) + " \n"@ + rule((tag_width + value_width + 3) as nat),
    {
        let mut s = String::from_str(" ");
        push_padded(&mut s, "EXIF Tag", tag_width);
        s.append(" \u{2502} ");
        push_padded(&mut s, "Value", value_width);
        s.append(" \n");
        let n = tag_width + value_width + 3;
        let ghost mid = s@;
        let mut k: usize = 0;
        while k < n
            invariant
                k <= n,
                s@ == mid + rule(k as nat),
            decreases n - k,
        {
            push_char(&mut s, '\u{2500}');
            k = k + 1;
            assert(s@ =~= mid + rule(k as nat));
        }
        s
    }

    /// One row of the metadata table, each cell padded to its width.
    pub fn format_table_row(tag: &str, value: &str, tag_width: usize, value_width: usize) -> (r: String)
        ensures
            r@ == " "@ + padded(tag@, tag_width as nat) + " \u{2502} "@ + padded(
                value@,
                value_width as nat,
            ) + " "@,
    {
        let mut s = String::from_str(" ");
        push_padded(&mut s, tag, tag_width);
        s.append(" \u{2502} ");
        push_padded(&mut s, value, value_width);
        s.append(" ");
        s
    }

    /// Summary of a selection, one line per item.
    pub fn display_selection(selection: &Selection) -> (r: String)
        ensures
            r@ == "Selected Configuration:\n  Setup: "@ + selection.setup.name@ + "\n  Camera: "@
                + selection.camera.maker@ + " "@ + selection.camera.model@ + "\n  Lens: "@ + match selection.lens {
                Some(l) => l.maker@ + " "@ + l.model@ + " "@ + l.focal_length@ + "mm f/"@ + l.aperture@,
                None => "None (camera only)"@,
            } + "\n  Film: "@ + selection.film.maker@ + " "@ + selection.film.name@ + " (ISO "@ + digits(
                selection.film.iso as nat,
            ) + ")"@ + "\n  Photographer: "@ + match selection.photographer.email {
                Some(e) => selection.photographer.name@ + " <"@ + e@ + ">"@,
                None => selection.photographer.name@,
            },
    {
        let mut s = String::from_str("Selected Configuration:\n  Setup: ");
        s.append(selection.setup.display_name().as_str());
        s.append("\n  Camera: ");
        s.append(selection.camera.display_name().as_str());
        s.append("\n  Lens: ");
        match &selection.lens {
            Some(l) => s.append(l.display_name().as_str()),
            None => s.append("None (camera only)"),
        }
        s.append("\n  Film: ");
        s.append(selection.film.display_name().as_str());
        s.append("\n  Photographer: ");
        s.append(selection.photographer.display_name().as_str());
        s
    }

    /// Footer of the metadata table: nothing.
    pub fn format_table_footer(tag_width: usize, value_width: usize) -> (r: String)
        ensures
            r@.len() == 0,
    {
        String::new()
    }
}

/// The longest prefix that all of `strings` share; empty for no strings.
pub fn find_common_prefix(strings: &[String]) -> (r: String)
    ensures
        strings@.len() == 0 ==> r@.len() == 0,
        strings@.len() > 0 ==> shares_prefix(strings@, r@) && r@ == strings@[0]@.take(r@.len() as int)
            && (r@.len() == strings@[0]@.len() || !shares_prefix(
            strings@,
            strings@[0]@.take(r@.len() + 1int),
        )),
{
    if strings.len() == 0 {
        return String::new();
    }
    let first = strings[0].as_str();
    let n = first.unicode_len();
    let mut prefix = String::new();
    let mut i: usize = 0;
    assert forall|j: int| 0 <= j < strings@.len() implies #[trigger] strings@[j]@.len() >= 0
        && strings@[j]@.take(0) == prefix@ by {
        assert(strings@[j]@.take(0) =~= prefix@);
    }
    assert(strings@[0]@.take(0) =~= prefix@);
    while i < n
        invariant
            n == strings@[0]@.len(),
            first@ == strings@[0]@,
            strings@.len() > 0,
            i <= n,
            prefix@ == strings@[0]@.take(i as int),
            shares_prefix(strings@, prefix@),
        decreases n - i,
    {
        let ch = first.get_char(i);
        let mut j: usize = 0;
        let mut all = true;
        while j < strings.len()
            invariant
                j <= strings@.len(),
                i < n == strings@[0]@.len(),
                ch == strings@[0]@[i as int],
                all ==> forall|k: int| #![trigger strings@[k]] 0 <= k < j ==> strings@[k]@.len() > i && strings@[k]@[i as int] == ch,
                !all ==> !shares_prefix(strings@, strings@[0]@.take(i + 1)),
            decreases strings@.len() - j,
        {
            let s = strings[j].as_str();
            if all {
                let len = s.unicode_len();
                if i >= len || s.get_char(i) != ch {
                    all = false;
                    assert(strings@[0]@.take(i + 1)[i as int] == ch);
                    assert(!(strings@[j as int]@.len() >= i + 1 && strings@[j as int]@.take(i + 1)
                        == strings@[0]@.take(i + 1)));
                } else {
                    assert(strings@[j as int]@.len() > i && strings@[j as int]@[i as int] == ch);
                }
            }
            j = j + 1;
        }
        if !all {
            return prefix;
        }
        let ghost old_prefix = prefix@;
        push_char(&mut prefix, ch);
        assert(prefix@ =~= strings@[0]@.take(i + 1));
        assert forall|k: int| 0 <= k < strings@.len() implies #[trigger] strings@[k]@.len() >= i + 1
            && strings@[k]@.take(i + 1) == prefix@ by {
            assert(strings@[k]@.take(i as int) == old_prefix);
            assert(strings@[k]@.take(i + 1) =~= old_prefix.push(ch));
        }
        i = i + 1;
    }
    prefix
}

} // verus!
