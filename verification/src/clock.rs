//! Instants and timestamps: parsing the stored timestamp formats, reading
//! the clock, and the decisions that compare instants.
use chrono::{DateTime, NaiveDateTime, Utc};
use vstd::prelude::*;

verus! {

/// An instant in UTC: seconds since the Unix epoch and the nanoseconds past
/// that second (above 999,999,999 only during a leap second).
#[derive(Debug, Clone, Copy, PartialEq, Eq, Structural)]
pub struct UtcInstant {
    pub seconds: i64,
    pub nanos: u32,
}

/// `a` is not later than `b`.
pub open spec fn instant_le(a: UtcInstant, b: UtcInstant) -> bool {
    a.seconds < b.seconds || (a.seconds == b.seconds && a.nanos <= b.nanos)
}

pub fn instant_not_after(a: UtcInstant, b: UtcInstant) -> (r: bool)
    ensures
        r == instant_le(a, b),
{
    a.seconds < b.seconds || (a.seconds == b.seconds && a.nanos <= b.nanos)
}

/// The instant chrono's RFC 3339 parser reads from a text, if it accepts it.
pub uninterp spec fn rfc3339_instant(text: Seq<char>) -> Option<UtcInstant>;

/// The instant chrono's `NaiveDateTime::parse_from_str` reads from a text in
/// a format, taken as UTC, if it accepts it.
pub uninterp spec fn naive_utc_instant(text: Seq<char>, format: Seq<char>) -> Option<UtcInstant>;

/// Calls `chrono::DateTime::parse_from_rfc3339` and takes the parsed
/// instant in UTC.  The result is named, not described.
#[verifier::external_body]
pub(crate) fn parse_rfc3339_instant(value: &str) -> (r: Option<UtcInstant>)
    ensures
        r == rfc3339_instant(value@),
{
    match DateTime::parse_from_rfc3339(value) {
        Ok(parsed) => Some(UtcInstant {
            seconds: parsed.timestamp(),
            nanos: parsed.timestamp_subsec_nanos(),
        }),
        Err(_) => None,
    }
}

/// Calls `chrono::NaiveDateTime::parse_from_str` and reads the result as a
/// UTC instant.  The result is named, not described.
#[verifier::external_body]
fn parse_naive_utc_instant(value: &str, format: &str) -> (r: Option<UtcInstant>)
    ensures
        r == naive_utc_instant(value@, format@),
{
    match NaiveDateTime::parse_from_str(value, format) {
        Ok(parsed) => {
            let utc = parsed.and_utc();
            Some(UtcInstant { seconds: utc.timestamp(), nanos: utc.timestamp_subsec_nanos() })
        },
        Err(_) => None,
    }
}

/// The current instant (`chrono::Utc::now`); nothing is known of it.
#[verifier::external_body]
pub(crate) fn now_instant() -> (r: UtcInstant) {
    let now = Utc::now();
    UtcInstant { seconds: now.timestamp(), nanos: now.timestamp_subsec_nanos() }
}

/// The current instant in RFC 3339 form (`chrono::Utc::now().to_rfc3339()`);
/// nothing is known of it.
#[verifier::external_body]
pub(crate) fn now_rfc3339() -> (r: String) {
    Utc::now().to_rfc3339()
}

/// A file time stamp as `%Y%m%d-%H%M%S` writes it for a year from 0 to
/// 9999: eight digits, a dash, six digits.
pub open spec fn file_stamp_shape(s: Seq<char>) -> bool {
    &&& s.len() == 15
    &&& forall|i: int| 0 <= i < 15 ==> if i == 8 {
        s[i] == '-'
    } else {
        '0' <= #[trigger] s[i] <= '9'
    }
}

/// The format of the time stamps in exported file names.
pub const FILE_STAMP_FORMAT: &'static str = "%Y%m%d-%H%M%S";

/// The current UTC time as `chrono::Utc::now().format(format)` writes it,
/// for the file stamp format only.  Every specifier of that format is one
/// chrono knows, so the formatting does not fail.  chrono writes a year from 0 to 9999 as four
/// digits and any other year with a sign and at least four digits, so the
/// stamp has the file stamp shape or is longer and starts with a sign.
/// Which time it reads is not stated.
#[verifier::external_body]
pub(crate) fn now_file_stamp(format: &str) -> (r: String)
    requires
        format@ == FILE_STAMP_FORMAT@,
    ensures
        file_stamp_shape(r@) || (r@.len() > 15 && (r@[0] == '+' || r@[0] == '-')),
{
    Utc::now().format(format).to_string()
}

/// The RFC 3339 form chrono gives an instant
/// (`DateTime::<Utc>::from_timestamp(..).to_rfc3339()`), if chrono can
/// represent it.
pub uninterp spec fn utc_rfc3339(seconds: i64, nanos: u32) -> Option<Seq<char>>;

/// Calls `chrono::DateTime::<Utc>::from_timestamp` and formats the instant
/// with `to_rfc3339`.  The result is named, not described.
#[verifier::external_body]
pub(crate) fn format_utc_rfc3339(seconds: i64, nanos: u32) -> (r: Option<String>)
    ensures
        match r {
            Some(t) => utc_rfc3339(seconds, nanos) == Some(t@),
            None => utc_rfc3339(seconds, nanos) is None,
        },
{
    DateTime::<Utc>::from_timestamp(seconds, nanos).map(|d| d.to_rfc3339())
}

/// The current instant (`chrono::Utc::now`) in RFC 3339 form with its
/// seconds since the epoch; nothing is known of it.
#[verifier::external_body]
pub(crate) fn now_rfc3339_seconds() -> (r: (String, i64)) {
    let now = Utc::now();
    (now.to_rfc3339(), now.timestamp())
}

/// The format of timestamps written without a zone.
pub const PLAIN_TIMESTAMP_FORMAT: &'static str = "%Y-%m-%d %H:%M:%S";

/// A stored timestamp: RFC 3339, or else the plain `YYYY-MM-DD HH:MM:SS`
/// form read as UTC.
pub open spec fn scheduler_timestamp(value: Seq<char>) -> Option<UtcInstant> {
    match rfc3339_instant(value) {
        Some(t) => Some(t),
        None => naive_utc_instant(value, PLAIN_TIMESTAMP_FORMAT@),
    }
}

pub fn parse_scheduler_timestamp(value: &str) -> (r: Option<UtcInstant>)
    ensures
        r == scheduler_timestamp(value@),
{
    match parse_rfc3339_instant(value) {
        Some(t) => Some(t),
        None => parse_naive_utc_instant(value, PLAIN_TIMESTAMP_FORMAT),
    }
}

/// The state of a mail share at instant `now`: revoked shares stay revoked,
/// a share whose expiry has been reached is expired, any other is active.
pub open spec fn share_status(expires: Option<UtcInstant>, revoked: bool, now: UtcInstant) -> Seq<
    char,
> {
    if revoked {
        "revoked"@
    } else if expires matches Some(t) && instant_le(t, now) {
        "expired"@
    } else {
        "active"@
    }
}

pub fn share_status_at(expires: Option<UtcInstant>, revoked: bool, now: UtcInstant) -> (r:
    &'static str)
    ensures
        r@ == share_status(expires, revoked, now),
{
    if revoked {
        return "revoked";
    }
    match expires {
        Some(t) => if instant_not_after(t, now) {
            "expired"
        } else {
            "active"
        },
        None => "active",
    }
}

pub open spec fn opt_timestamp(value: Option<&str>) -> Option<UtcInstant> {
    match value {
        Some(v) => scheduler_timestamp(v@),
        None => None,
    }
}

/// The state of a share as of now, from its stored expiry and revocation
/// timestamps.
pub fn share_record_status(expires_at: Option<&str>, revoked_at: Option<&str>) -> (r:
    &'static str)
    ensures
        exists|now: UtcInstant| r@ == #[trigger] share_status(opt_timestamp(expires_at), revoked_at is Some, now),
        revoked_at is Some ==> r@ == "revoked"@,
        revoked_at is None && opt_timestamp(expires_at) is None ==> r@ == "active"@,
{
    let expires = match expires_at {
        Some(v) => parse_scheduler_timestamp(v),
        None => None,
    };
    let now = now_instant();
    share_status_at(expires, revoked_at.is_some(), now)
}

/// The nanoseconds from `from` to `to`.
pub open spec fn elapsed_nanos(from: UtcInstant, to: UtcInstant) -> int {
    (to.seconds - from.seconds) * 1_000_000_000 + (to.nanos - from.nanos)
}

/// The whole minutes in a span of nanoseconds, rounded toward zero.
pub open spec fn whole_minutes(nanos: int) -> int {
    if nanos >= 0 {
        nanos / 60_000_000_000
    } else {
        -((-nanos) / 60_000_000_000)
    }
}

/// The whole minutes chrono counts from one instant to another, if chrono
/// can represent both.
pub uninterp spec fn chrono_minutes(from: UtcInstant, to: UtcInstant) -> Option<i64>;

/// Builds both instants with `chrono::DateTime::<Utc>::from_timestamp` and
/// counts `to.signed_duration_since(from).num_minutes()`; `None` where
/// chrono cannot represent an instant.  Away from leap seconds the count is
/// the span in whole minutes rounded toward zero; within a leap second
/// chrono's own accounting decides, and only the name is stated.
#[verifier::external_body]
fn minutes_between(from: UtcInstant, to: UtcInstant) -> (r: Option<i64>)
    ensures
        r == chrono_minutes(from, to),
        from.nanos < 1_000_000_000 && to.nanos < 1_000_000_000 ==> (r matches Some(m) ==> m
            == whole_minutes(elapsed_nanos(from, to))),
{
    let start = DateTime::<Utc>::from_timestamp(from.seconds, from.nanos)?;
    let end = DateTime::<Utc>::from_timestamp(to.seconds, to.nanos)?;
    Some(end.signed_duration_since(start).num_minutes())
}

/// Whether a scheduled job is due at `now`: never with an interval below one
/// minute; always when it has not run, or its last run cannot be read;
/// otherwise once whole minutes of at least the interval have passed.
pub open spec fn job_due(last_run: Option<&str>, interval_minutes: int, now: UtcInstant) -> bool {
    if interval_minutes <= 0 {
        false
    } else {
        match opt_timestamp(last_run) {
            None => true,
            Some(t) => match chrono_minutes(t, now) {
                Some(m) => m >= interval_minutes,
                None => true,
            },
        }
    }
}

/// Decides whether a scheduled job runs at `now`, from the stored time of its
/// last run and its interval in minutes.
pub fn scheduler_due(last_run: Option<&str>, interval_minutes: i64, now: UtcInstant) -> (r: bool)
    ensures
        r == job_due(last_run, interval_minutes as int, now),
{
    if interval_minutes <= 0 {
        return false;
    }
    let last = match last_run {
        Some(v) => parse_scheduler_timestamp(v),
        None => None,
    };
    match last {
        None => true,
        Some(t) => match minutes_between(t, now) {
            Some(m) => m >= interval_minutes,
            None => true,
        },
    }
}

} // verus!
