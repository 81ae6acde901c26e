//! Dates and times: the dates that feeds give as RFC 2822 text, and the two
//! forms in which a rendering shows an instant. No clock is read here:
//! whoever renders or ingests says what time it is.

use vstd::prelude::*;
use vstd::string::*;

verus! {

/// What `chrono` reads from a date in RFC 2822 form: the instant as seconds
/// since the epoch, its nanoseconds, and the offset from UTC in seconds that
/// the text names; `None` where it takes the text for no such date.
pub uninterp spec fn rfc2822_instant(text: Seq<char>) -> Option<(int, int, int)>;

/// How `chrono` writes an instant, seen at an offset from UTC, after a
/// pattern; `None` where it cannot hold the instant or the offset.
pub uninterp spec fn instant_text(
    seconds: int,
    nanos: int,
    offset: int,
    pattern: Seq<char>,
) -> Option<Seq<char>>;

/// The pattern that writes the day of an instant, as in `2024-01-31`.
pub open spec fn date_pattern() -> Seq<char> {
    "%Y-%m-%d"@
}

/// The pattern that writes the time of day of an instant, as in `23:59:59`.
pub open spec fn time_pattern() -> Seq<char> {
    "%H:%M:%S"@
}

/// Reads a date in RFC 2822 form by `chrono::DateTime::parse_from_rfc2822`
/// and hands out what the parsed date holds: its seconds since the epoch, its
/// nanoseconds and its offset from UTC. The contract only names the result.
#[verifier::external_body]
pub(crate) fn parse_rfc2822(text: &str) -> (instant: Option<(i64, u32, i32)>)
    ensures
        (match instant {
            Some((seconds, nanos, offset)) => rfc2822_instant(text@) == Some(
                (seconds as int, nanos as int, offset as int),
            ),
            None => rfc2822_instant(text@).is_none(),
        }),
{
    match chrono::DateTime::parse_from_rfc2822(text) {
        Ok(date) => Some(
            (date.timestamp(), date.timestamp_subsec_nanos(), date.offset().local_minus_utc()),
        ),
        Err(_) => None,
    }
}

/// Writes an instant, seen at an offset from UTC, after one of the two
/// patterns, by `chrono::DateTime::format`. The instant is built by
/// `DateTime::from_timestamp` and the offset by `FixedOffset::east_opt`; where
/// either refuses its argument the result is `None`. The contract only names
/// the result.
#[verifier::external_body]
pub(crate) fn format_instant(seconds: i64, nanos: u32, offset: i32, pattern: &str) -> (text: Option<
    String,
>)
    requires
        pattern@ == date_pattern() || pattern@ == time_pattern(),
    ensures
        (match text {
            Some(t) => instant_text(seconds as int, nanos as int, offset as int, pattern@) == Some(
                t@,
            ),
            None => instant_text(seconds as int, nanos as int, offset as int, pattern@).is_none(),
        }),
{
    let zone = chrono::FixedOffset::east_opt(offset)?;
    let instant = chrono::DateTime::from_timestamp(seconds, nanos)?;
    Some(instant.with_timezone(&zone).format(pattern).to_string())
}

/// The text of an instant after a pattern, or the empty text where there is
/// none.
pub open spec fn instant_text_or_empty(
    seconds: int,
    nanos: int,
    offset: int,
    pattern: Seq<char>,
) -> Seq<char> {
    match instant_text(seconds, nanos, offset, pattern) {
        Some(t) => t,
        None => Seq::empty(),
    }
}

/// The text of a date in RFC 2822 form after a pattern: empty where the text
/// is no such date.
pub open spec fn rfc2822_text(date: Seq<char>, pattern: Seq<char>) -> Seq<char> {
    match rfc2822_instant(date) {
        Some((seconds, nanos, offset)) => instant_text_or_empty(seconds, nanos, offset, pattern),
        None => Seq::empty(),
    }
}

/// The two forms in which an instant is shown: its day and its time of day.
#[derive(Debug, Clone, Copy, PartialEq, Eq)]
pub enum Pattern {
    Date,
    Time,
}

impl Pattern {
    /// The pattern of the form.
    pub open spec fn spec_text(self) -> Seq<char> {
        match self {
            Pattern::Date => date_pattern(),
            Pattern::Time => time_pattern(),
        }
    }

    /// The pattern of the form.
    pub fn text(&self) -> (pattern: &'static str)
        ensures
            pattern@ == self.spec_text(),
    {
        match self {
            Pattern::Date => "%Y-%m-%d",
            Pattern::Time => "%H:%M:%S",
        }
    }
}

/// The text of an instant that may be missing, after a pattern: empty where
/// the instant is missing or has no text.
pub open spec fn text_of(instant: Option<(int, int, int)>, pattern: Seq<char>) -> Seq<char> {
    match instant {
        Some((seconds, nanos, offset)) => instant_text_or_empty(seconds, nanos, offset, pattern),
        None => Seq::empty(),
    }
}

/// An instant as mathematical integers.
pub open spec fn instant_of(instant: Option<(i64, u32, i32)>) -> Option<(int, int, int)> {
    match instant {
        Some((seconds, nanos, offset)) => Some((seconds as int, nanos as int, offset as int)),
        None => None,
    }
}

/// The text, or the empty text where there is none.
pub fn text_or_empty(text: Option<String>) -> (shown: String)
    ensures
        shown@ == (match text {
            Some(t) => t@,
            None => Seq::<char>::empty(),
        }),
{
    match text {
        Some(text) => text,
        None => String::new(),
    }
}

/// Writes an instant in one of the two forms: its seconds since the epoch
/// and its nanoseconds, seen at an offset from UTC in seconds. Where the
/// instant is missing, or is one that cannot be written, the text is empty.
pub fn text_of_instant(instant: Option<(i64, u32, i32)>, pattern: Pattern) -> (text: String)
    ensures
        text@ == text_of(instant_of(instant), pattern.spec_text()),
{
    match instant {
        Some((seconds, nanos, offset)) => text_or_empty(
            format_instant(seconds, nanos, offset, pattern.text()),
        ),
        None => String::new(),
    }
}

/// Writes an instant of UTC in one of the two forms; the empty text where
/// the instant is out of range.
pub fn format_utc(seconds: i64, pattern: Pattern) -> (text: String)
    ensures
        text@ == instant_text_or_empty(seconds as int, 0, 0, pattern.spec_text()),
{
    text_of_instant(Some((seconds, 0, 0)), pattern)
}

/// Writes a date given in RFC 2822 form in one of the two forms, at the
/// offset that the date names; the empty text where it is no such date.
pub fn format_datetime(datetime: &str, pattern: Pattern) -> (text: String)
    ensures
        text@ == rfc2822_text(datetime@, pattern.spec_text()),
{
    text_of_instant(parse_rfc2822(datetime), pattern)
}

/// The seconds since the epoch that a date in RFC 2822 form stands for.
pub(crate) fn rfc2822_timestamp(datetime: &str) -> (seconds: Option<i64>)
    ensures
        (match seconds {
            Some(s) => rfc2822_instant(datetime@).is_some() && rfc2822_instant(datetime@).unwrap().0
                == s,
            None => rfc2822_instant(datetime@).is_none(),
        }),
{
    match parse_rfc2822(datetime) {
        Some((seconds, _, _)) => Some(seconds),
        None => None,
    }
}

} // verus!
