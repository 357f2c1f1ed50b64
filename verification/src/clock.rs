//! Dates and times: reading the clock, parsing and formatting completion stamps.
use chrono::{DateTime, Duration, Local, NaiveDateTime};
use vstd::prelude::*;

verus! {

/// A date and a time of day, in no particular time zone: the seconds since the start of
/// 1970, and the nanoseconds since the last whole second. A leap second is the second
/// before it with a thousand million nanoseconds or more.
#[derive(Clone, Copy, PartialEq, Eq, Debug, Structural)]
pub struct Moment {
    pub secs: i64,
    pub nanos: u32,
}

/// The first second of the calendar.
pub const FIRST_SECOND: i64 = -8_334_601_228_800;

/// The last second of the calendar.
pub const LAST_SECOND: i64 = 8_210_266_876_799;

/// The number of seconds in a day.
pub const DAY: i64 = 86_400;

/// The number of days that done tasks stay in the todo file.
pub const KEPT_DAYS: i64 = 7;

/// Whether the calendar has this moment: it lies in the calendar's range, and a leap
/// second stands only at the end of a minute.
pub open spec fn on_calendar(at: Moment) -> bool {
    &&& FIRST_SECOND <= at.secs <= LAST_SECOND
    &&& at.nanos < 2_000_000_000
    &&& at.nanos >= 1_000_000_000 ==> (at.secs as int) % 60 == 59
}

/// The format of the time in a completion stamp.
pub open spec fn stamp_format() -> Seq<char> {
    "%Y-%m-%d %H:%M"@
}

/// The format in which a completion time is shown.
pub open spec fn shown_format() -> Seq<char> {
    "%b %-d, %H:%M"@
}

/// The format of a month's heading in the history of done tasks.
pub open spec fn month_format() -> Seq<char> {
    "## %Y-%m"@
}

/// What `NaiveDateTime::parse_from_str` reads in `text`.
pub uninterp spec fn parsed(text: Seq<char>, format: Seq<char>) -> Option<Moment>;

/// What `NaiveDateTime::format` writes for the moment `at`.
pub uninterp spec fn formatted(at: Moment, format: Seq<char>) -> Seq<char>;

/// Calls `NaiveDateTime::parse_from_str`. Its result is a function of the two strings, an
/// error being `None`, and a moment that it gives is on the calendar.
#[verifier::external_body]
fn parse_moment(text: &str, format: &str) -> (r: Option<Moment>)
    ensures
        r == parsed(text@, format@),
        r matches Some(at) ==> on_calendar(at),
{
    match NaiveDateTime::parse_from_str(text, format) {
        Ok(at) => Some(
            Moment { secs: at.and_utc().timestamp(), nanos: at.and_utc().timestamp_subsec_nanos() },
        ),
        Err(_) => None,
    }
}

/// Whether a text holds only what years, months, days, hours and minutes are written with
/// in a completion stamp: digits, signs, a blank and a colon.
pub open spec fn stamp_chars(s: Seq<char>) -> bool {
    forall|i: int|
        0 <= i < s.len() ==> {
            let c = #[trigger] s[i];
            ('0' <= c && c <= '9') || c == '-' || c == '+' || c == ' ' || c == ':'
        }
}

/// The start of the minute that a moment lies in.
pub open spec fn whole_minute(at: Moment) -> Moment {
    Moment { secs: (at.secs - (at.secs as int) % 60) as i64, nanos: 0 }
}

/// Calls `NaiveDateTime::format`. The text is a function of the moment and the format.
/// A moment off the calendar has no `NaiveDateTime`, and a format with an unknown
/// directive panics: both are left out. A stamp is made of numbers with their signs and of
/// what the format puts between them; it gives the minute that the moment lies in to
/// `NaiveDateTime::parse_from_str`, which takes missing seconds for none. A month's heading
/// starts as its format does.
#[verifier::external_body]
fn format_moment(at: Moment, format: &str) -> (r: String)
    requires
        on_calendar(at),
        format@ == stamp_format() || format@ == shown_format() || format@ == month_format(),
    ensures
        r@ == formatted(at, format@),
        format@ == stamp_format() ==> stamp_chars(r@) && parsed(r@, format@) == Some(
            whole_minute(at),
        ),
        format@ == month_format() ==> "## "@.is_prefix_of(r@),
{
    let utc = DateTime::from_timestamp(at.secs, at.nanos).unwrap();
    utc.naive_utc().format(format).to_string()
}

/// Calls `Local::now` for the present local date and time. Every outcome is on the
/// calendar and no leap second, and no earlier than a day before the start of 1970: the
/// clock counts from there in UTC, and no zone is a day or more behind UTC.
#[verifier::external_body]
fn now() -> (r: Moment)
    ensures
        on_calendar(r),
        r.nanos < 1_000_000_000,
        r.secs >= -DAY,
{
    let at = Local::now().naive_local().and_utc();
    Moment { secs: at.timestamp(), nanos: at.timestamp_subsec_nanos() }
}

/// Subtracts whole days with `NaiveDateTime`'s operator `-`. Every day has the same
/// number of seconds, unless the moment itself is a leap second, which is left out. So is
/// a result before the calendar's start, which panics.
#[verifier::external_body]
fn minus_days(at: Moment, days: i64) -> (r: Moment)
    requires
        on_calendar(at),
        at.nanos < 1_000_000_000,
        0 <= days <= 1_000_000,
        at.secs - days * DAY >= FIRST_SECOND,
    ensures
        r.secs == at.secs - days * DAY,
        r.nanos == at.nanos,
{
    let utc = DateTime::from_timestamp(at.secs, at.nanos).unwrap();
    let then = (utc.naive_utc() - Duration::days(days)).and_utc();
    Moment { secs: then.timestamp(), nanos: then.timestamp_subsec_nanos() }
}

/// Whether `a` is before `b`.
pub open spec fn sooner(a: Moment, b: Moment) -> bool {
    a.secs < b.secs || (a.secs == b.secs && a.nanos < b.nanos)
}

/// Whether `a` is before `b`.
pub fn is_sooner(a: Moment, b: Moment) -> (r: bool)
    ensures
        r == sooner(a, b),
{
    a.secs < b.secs || (a.secs == b.secs && a.nanos < b.nanos)
}

/// The moment that the text of a completion stamp names, if it names one.
pub fn stamp_moment(stamp: &str) -> (r: Option<Moment>)
    ensures
        r == parsed(stamp@, stamp_format()),
        r matches Some(at) ==> on_calendar(at),
{
    parse_moment(stamp, "%Y-%m-%d %H:%M")
}

/// The heading of the month that a moment lies in.
pub fn month_heading(at: Moment) -> (r: String)
    requires
        on_calendar(at),
    ensures
        r@ == formatted(at, month_format()),
        "## "@.is_prefix_of(r@),
{
    format_moment(at, "## %Y-%m")
}

/// How a completion stamp that names the moment `at`, or none, is shown.
pub open spec fn shown_as(at: Option<Moment>, stamp: Seq<char>) -> Seq<char> {
    match at {
        Some(at) => formatted(at, shown_format()),
        None => stamp,
    }
}

/// Shows the moment that a stamp names, or the stamp as it stands where it names none.
pub fn show_moment(at: Option<Moment>, stamp: &str) -> (r: String)
    requires
        at matches Some(m) ==> on_calendar(m),
    ensures
        r@ == shown_as(at, stamp@),
{
    match at {
        Some(m) => format_moment(m, "%b %-d, %H:%M"),
        None => stamp.to_string(),
    }
}

/// How a completion stamp is shown.
pub open spec fn shown(stamp: Seq<char>) -> Seq<char> {
    shown_as(parsed(stamp, stamp_format()), stamp)
}

/// How a completion stamp is shown.
pub fn fmt_stamp(stamp: &str) -> (r: String)
    ensures
        r@ == shown(stamp@),
{
    show_moment(stamp_moment(stamp), stamp)
}

/// Whether a text is the moment `at` in the stamp's format, which is read as the minute
/// that the moment lies in.
pub open spec fn stamps(s: Seq<char>, at: Moment) -> bool {
    &&& on_calendar(at)
    &&& s == formatted(at, stamp_format())
    &&& stamp_chars(s)
    &&& parsed(s, stamp_format()) == Some(whole_minute(at))
}

/// A text that a completion stamp can hold: some moment in the stamp's format.
pub open spec fn stamp_text(s: Seq<char>) -> bool {
    exists|at: Moment| #[trigger] stamps(s, at)
}

/// The present local time in the stamp's format.
pub fn stamp_now() -> (r: String)
    ensures
        stamp_text(r@),
{
    let at: Moment = now();
    let text: String = format_moment(at, "%Y-%m-%d %H:%M");
    assert(stamps(text@, at));
    text
}

/// Whether `cutoff` lies the kept number of days before the moment `at`.
pub open spec fn kept_days_before(cutoff: Moment, at: Moment) -> bool {
    cutoff.secs == at.secs - KEPT_DAYS * DAY && cutoff.nanos == at.nanos
}

/// The moment before which a done task leaves the todo file.
pub fn rotation_cutoff() -> (r: Moment)
    ensures
        exists|at: Moment| on_calendar(at) && #[trigger] kept_days_before(r, at),
{
    let at: Moment = now();
    let cutoff: Moment = minus_days(at, KEPT_DAYS);
    assert(kept_days_before(cutoff, at));
    cutoff
}

} // verus!
