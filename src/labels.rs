//! Labels of date separators: "Today", "Yesterday", or the date in words.

use vstd::prelude::*;
use chrono::Datelike;
use crate::rows::CalendarDate;
use crate::media::translate;
use crate::text::owned;

verus! {

/// How a separator's date reads relative to today.
#[derive(Clone, Copy, Debug, PartialEq, Eq, Structural)]
pub enum DateLabel {
    /// The date is today.
    Today,
    /// The date is the day before today.
    Yesterday,
    /// Another day of the current year: month and day.
    ThisYear,
    /// A day of another year: month, day and year.
    OtherYear,
}

/// The day before `d`, as chrono's `NaiveDate::pred_opt` gives it; `None`
/// where `d` is not a real date or has no day before it.
pub uninterp spec fn day_before(d: CalendarDate) -> Option<CalendarDate>;

/// `d` written with a chrono format pattern; `None` where `d` is not a real date.
pub uninterp spec fn date_text(d: CalendarDate, pattern: Seq<char>) -> Option<Seq<char>>;

/// Pattern for a date of the current year, e.g. "February 23".
pub open spec fn this_year_pattern() -> Seq<char> {
    "%B %-e"@
}

/// Pattern for a date of another year, e.g. "February 23, 2024".
pub open spec fn other_year_pattern() -> Seq<char> {
    "%B %-e, %Y"@
}

/// Relies on chrono's `Local::now` and `DateTime::date_naive`: today's date in
/// the machine's time zone. It depends on the clock, so only the range of the
/// month and of the day is stated. chrono expects readable time zone data.
#[verifier::external_body]
fn today_local() -> (r: CalendarDate)
    ensures
        r.is_valid(),
{
    let d = chrono::Local::now().date_naive();
    CalendarDate { year: d.year(), month: d.month(), day: d.day() }
}

/// Relies on chrono's `NaiveDate::from_ymd_opt` and `NaiveDate::pred_opt`.
#[verifier::external_body]
fn previous_day(d: CalendarDate) -> (r: Option<CalendarDate>)
    ensures
        r == day_before(d),
{
    match chrono::NaiveDate::from_ymd_opt(d.year, d.month, d.day) {
        Some(n) => match n.pred_opt() {
            Some(p) => Some(CalendarDate { year: p.year(), month: p.month(), day: p.day() }),
            None => None,
        },
        None => None,
    }
}

/// Relies on chrono's `NaiveDate::from_ymd_opt` and `NaiveDate::format`, with
/// one of the two patterns this library uses (chrono fails on malformed ones).
#[verifier::external_body]
fn format_date(d: CalendarDate, pattern: &str) -> (r: Option<String>)
    requires
        pattern@ == this_year_pattern() || pattern@ == other_year_pattern(),
    ensures
        match r {
            Some(s) => date_text(d, pattern@) == Some(s@),
            None => date_text(d, pattern@) is None,
        },
{
    match chrono::NaiveDate::from_ymd_opt(d.year, d.month, d.day) {
        Some(n) => Some(n.format(pattern).to_string()),
        None => None,
    }
}

/// How `date` reads when today is `today` and the day before is `yesterday`.
pub open spec fn label_of(
    date: CalendarDate,
    today: CalendarDate,
    yesterday: Option<CalendarDate>,
) -> DateLabel {
    if date == today {
        DateLabel::Today
    } else if yesterday == Some(date) {
        DateLabel::Yesterday
    } else if date.year == today.year {
        DateLabel::ThisYear
    } else {
        DateLabel::OtherYear
    }
}

/// The text of a dated label; empty where the date is not a real one.
pub open spec fn text_or_empty(t: Option<Seq<char>>) -> Seq<char> {
    match t {
        Some(s) => s,
        None => Seq::empty(),
    }
}

/// How `date` reads when today is `today`.
pub fn date_label(date: CalendarDate, today: CalendarDate) -> (r: DateLabel)
    ensures
        r == label_of(date, today, day_before(today)),
{
    if date == today {
        return DateLabel::Today;
    }
    let yesterday = previous_day(today);
    match yesterday {
        Some(y) => if y == date {
            return DateLabel::Yesterday;
        },
        None => {},
    }
    if date.year == today.year {
        DateLabel::ThisYear
    } else {
        DateLabel::OtherYear
    }
}

/// The month-and-day text of a date that does not read as today or yesterday.
pub fn dated_text(date: CalendarDate, label: DateLabel) -> (r: String)
    ensures
        label == DateLabel::OtherYear ==> r@ == text_or_empty(date_text(date, other_year_pattern())),
        label != DateLabel::OtherYear ==> r@ == text_or_empty(date_text(date, this_year_pattern())),
{
    let text = if label == DateLabel::OtherYear {
        format_date(date, "%B %-e, %Y")
    } else {
        format_date(date, "%B %-e")
    };
    match text {
        Some(t) => t,
        None => String::new(),
    }
}

/// The label of `date` when today is `today`, given the words for today and
/// for yesterday.
pub open spec fn label_text(
    date: CalendarDate,
    today: CalendarDate,
    today_word: Seq<char>,
    yesterday_word: Seq<char>,
) -> Seq<char> {
    match label_of(date, today, day_before(today)) {
        DateLabel::Today => today_word,
        DateLabel::Yesterday => yesterday_word,
        DateLabel::ThisYear => text_or_empty(date_text(date, this_year_pattern())),
        DateLabel::OtherYear => text_or_empty(date_text(date, other_year_pattern())),
    }
}

/// The label of `date` when today is `today`: the given word for today or
/// for yesterday, a date of this year as "February 23", another as
/// "February 23, 2024".
pub fn date_label_text(
    date: CalendarDate,
    today: CalendarDate,
    today_word: &str,
    yesterday_word: &str,
) -> (r: String)
    ensures
        r@ == label_text(date, today, today_word@, yesterday_word@),
{
    let label = date_label(date, today);
    match label {
        DateLabel::Today => owned(today_word),
        DateLabel::Yesterday => owned(yesterday_word),
        _ => dated_text(date, label),
    }
}

/// Formats a date into a human-readable label for date separators, relative
/// to today's date on this machine, with "Today" and "Yesterday" translated
/// to the current locale.
pub fn format_date_label(date: CalendarDate) -> (r: String)
    ensures
        exists|today: CalendarDate, today_word: Seq<char>, yesterday_word: Seq<char>|
            today.is_valid() && r@ == label_text(date, today, today_word, yesterday_word),
{
    proof {
        reveal_strlit("Today");
        reveal_strlit("Yesterday");
    }
    let today = today_local();
    let today_word = translate("Today");
    let yesterday_word = translate("Yesterday");
    date_label_text(date, today, today_word.as_str(), yesterday_word.as_str())
}

} // verus!
