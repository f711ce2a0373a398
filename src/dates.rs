//! Creation dates: finding a file's date in its readout, telling whether a
//! batch shares one date, and spreading a batch one second apart.
use vstd::prelude::*;
use crate::readout::rows_view;
use crate::tags::str_eq;

verus! {

/// The layout of EXIF dates, "YYYY:MM:DD HH:MM:SS", in chrono's notation.
pub const EXIF_DATE_FORMAT: &'static str = "%Y:%m:%d %H:%M:%S";

/// Names the seconds since the Unix epoch of a date text read as UTC with
/// a chrono format, as chrono parses it.
pub uninterp spec fn parsed_seconds(text: Seq<char>, format: Seq<char>) -> Option<i64>;

/// Names the text of a time in seconds since the Unix epoch, in UTC,
/// written with a chrono format, as chrono formats it.
pub uninterp spec fn formatted_time(seconds: i64, format: Seq<char>) -> Option<Seq<char>>;

/// Relies on `chrono::NaiveDateTime::parse_from_str` and
/// `and_utc().timestamp()`. The result depends on the two texts alone.
#[verifier::external_body]
fn parse_date(text: &str, format: &str) -> (r: Option<i64>)
    ensures
        r == parsed_seconds(text@, format@),
{
    let date = chrono::NaiveDateTime::parse_from_str(text, format).ok()?;
    Some(date.and_utc().timestamp())
}

/// Relies on `chrono::DateTime::from_timestamp` and `format`: none for a
/// time outside chrono's range. Only the EXIF date layout is admitted,
/// whose specifiers chrono always knows, so formatting cannot fail. The
/// result depends on the arguments alone.
#[verifier::external_body]
fn format_date(seconds: i64, format: &str) -> (r: Option<String>)
    requires
        format@ == EXIF_DATE_FORMAT@,
    ensures
        match formatted_time(seconds, format@) {
            Some(t) => r is Some && r->0@ == t,
            None => r is None,
        },
{
    let time = chrono::DateTime::from_timestamp(seconds, 0)?;
    Some(time.format(format).to_string())
}

/// Seconds since the Unix epoch of an EXIF date read as UTC.
pub open spec fn exif_date_seconds(text: Seq<char>) -> Option<i64> {
    parsed_seconds(text, EXIF_DATE_FORMAT@)
}

/// The EXIF date text of a time in seconds since the Unix epoch, in UTC.
pub open spec fn exif_date_text(seconds: i64) -> Option<Seq<char>> {
    formatted_time(seconds, EXIF_DATE_FORMAT@)
}

/// Whether a readout line names one of the three creation dates.
pub open spec fn is_date_name(n: Seq<char>) -> bool {
    n == "Date/Time Original"@ || n == "Date/Time"@ || n == "Date/Time Digitized"@
}

/// The first date line of a readout whose value is a valid EXIF date.
pub open spec fn creation_date_spec(rows: Seq<(Seq<char>, Seq<char>)>) -> Option<i64>
    decreases rows.len(),
{
    if rows.len() == 0 {
        None
    } else if is_date_name(rows[0].0) && exif_date_seconds(rows[0].1) is Some {
        exif_date_seconds(rows[0].1)
    } else {
        creation_date_spec(rows.drop_first())
    }
}

/// The creation date of a file, from its readout.
pub fn creation_date(rows: &[(String, String)]) -> (r: Option<i64>)
    ensures
        r == creation_date_spec(rows_view(rows@)),
{
    let ghost all = rows_view(rows@);
    let mut i: usize = 0;
    assert(all.skip(0) =~= all);
    while i < rows.len()
        invariant
            i <= rows@.len(),
            all == rows_view(rows@),
            creation_date_spec(all) == creation_date_spec(all.skip(i as int)),
        decreases rows@.len() - i,
    {
        let (name, value) = (&rows[i].0, &rows[i].1);
        assert(all.skip(i as int)[0] == (name@, value@));
        assert(all.skip(i as int).drop_first() =~= all.skip(i + 1));
        if str_eq(name.as_str(), "Date/Time Original") || str_eq(name.as_str(), "Date/Time")
            || str_eq(name.as_str(), "Date/Time Digitized") {
            let d = parse_date(value.as_str(), EXIF_DATE_FORMAT);
            if d.is_some() {
                return d;
            }
        }
        i = i + 1;
    }
    None
}

/// Whether a batch of two or more files all have dates within one second
/// of the first; a file without a date makes the answer no.
pub open spec fn identical_dates_spec(dates: Seq<Option<i64>>) -> bool {
    dates.len() > 1 && (forall|i: int| 0 <= i < dates.len() ==> #[trigger] dates[i] is Some) && (
    forall|i: int|
        #![trigger dates[i]]
        0 <= i < dates.len() ==> -1 <= dates[i]->0 - dates[0]->0 <= 1)
}

/// Whether a batch shares one creation date, to the second.
pub fn dates_identical(dates: &[Option<i64>]) -> (r: bool)
    ensures
        r == identical_dates_spec(dates@),
{
    if dates.len() <= 1 {
        return false;
    }
    let first = match dates[0] {
        Some(d) => d,
        None => {
            return false;
        },
    };
    let mut i: usize = 0;
    while i < dates.len()
        invariant
            i <= dates@.len(),
            dates@.len() > 1,
            dates@[0] == Some(first),
            forall|k: int| 0 <= k < i ==> #[trigger] dates@[k] is Some,
            forall|k: int| #![trigger dates@[k]] 0 <= k < i ==> -1 <= dates@[k]->0 - first <= 1,
        decreases dates@.len() - i,
    {
        match dates[i] {
            Some(d) => {
                if (d as i128) - (first as i128) > 1 || (d as i128) - (first as i128) < -1 {
                    return false;
                }
            },
            None => {
                return false;
            },
        }
        i = i + 1;
    }
    true
}

/// The date text that the file at `index` of a batch gets: the base date
/// moved on by `index` seconds.
pub fn shifted_date_text(base: i64, index: usize) -> (r: Option<String>)
    ensures
        base + index <= i64::MAX ==> match exif_date_text((base + index) as i64) {
            Some(t) => r is Some && r->0@ == t,
            None => r is None,
        },
        base + index > i64::MAX ==> r is None,
{
    let t: i128 = base as i128 + index as i128;
    if t > 0x7FFF_FFFF_FFFF_FFFFi128 {
        return None;
    }
    format_date(t as i64, EXIF_DATE_FORMAT)
}

/// What to do about creation dates before applying metadata to a batch.
#[derive(Debug, Clone, Copy, PartialEq, Eq, Structural)]
pub enum DateAction {
    /// Leave the dates alone.
    Keep,
    /// Spread the dates one second apart.
    Spread,
    /// Ask whether to spread the dates.
    Ask,
}

/// The date decision: only an apply to two or more files with the option
/// on touches dates; shared dates are spread, differing ones need a
/// question.
pub fn date_action(applying: bool, file_count: usize, one_sec: bool, identical: bool) -> (r: DateAction)
    ensures
        !(applying && file_count > 1 && one_sec) ==> r == DateAction::Keep,
        applying && file_count > 1 && one_sec && identical ==> r == DateAction::Spread,
        applying && file_count > 1 && one_sec && !identical ==> r == DateAction::Ask,
{
    if !(applying && file_count > 1 && one_sec) {
        DateAction::Keep
    } else if identical {
        DateAction::Spread
    } else {
        DateAction::Ask
    }
}

} // verus!
