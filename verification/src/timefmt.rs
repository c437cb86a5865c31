//! Timestamps: parsing the RFC 3339 text a record carries into an epoch
//! microsecond count, and rendering a timestamp in the configured style.
//! The calendar arithmetic itself is chrono's, behind trusted contracts.
use vstd::prelude::*;

verus! {

/// What chrono reads out of an RFC 3339 text: the instant in microseconds
/// since the Unix epoch, a function of the text alone.
pub uninterp spec fn rfc3339_micros(s: Seq<char>) -> Option<i64>;

/// Relies on `DateTime::parse_from_rfc3339` and `DateTime::timestamp_micros`:
/// the instant the text denotes, a pure function of the text.
#[verifier::external_body]
fn parse_rfc3339(s: &str) -> (r: Option<i64>)
    ensures
        r == rfc3339_micros(s@),
{
    match chrono::DateTime::parse_from_rfc3339(s) {
        Result::Ok(t) => Option::Some(t.timestamp_micros()),
        Result::Err(_) => Option::None,
    }
}

/// Parse the timestamp text of a record: empty text has no timestamp,
/// anything else reads as RFC 3339.
pub fn str_time_to_datetime(system_time_str: &str) -> (r: Option<i64>)
    ensures
        r == if system_time_str@.len() == 0 {
            Option::None::<i64>
        } else {
            rfc3339_micros(system_time_str@)
        },
{
    if system_time_str.is_empty() {
        Option::None
    } else {
        parse_rfc3339(system_time_str)
    }
}

/// Which textual form timestamps take in the output.
pub struct TimeFormatOptions {
    pub utc: bool,
    pub rfc_2822: bool,
    pub rfc_3339: bool,
    pub us_time: bool,
    pub us_military_time: bool,
    pub european_time: bool,
}

/// The chrono format pattern the options pick.
pub open spec fn time_pattern(o: TimeFormatOptions, date_only: bool) -> Seq<char> {
    if o.rfc_2822 {
        if date_only {
            "%a, %e %b %Y"@
        } else {
            "%a, %e %b %Y %H:%M:%S %:z"@
        }
    } else if o.rfc_3339 {
        if date_only {
            "%Y-%m-%d"@
        } else {
            "%Y-%m-%d %H:%M:%S%.6f%:z"@
        }
    } else if o.us_time {
        if date_only {
            "%m-%d-%Y"@
        } else {
            "%m-%d-%Y %I:%M:%S%.3f %p %:z"@
        }
    } else if o.us_military_time {
        if date_only {
            "%m-%d-%Y"@
        } else {
            "%m-%d-%Y %H:%M:%S%.3f %:z"@
        }
    } else if o.european_time {
        if date_only {
            "%d-%m-%Y"@
        } else {
            "%d-%m-%Y %H:%M:%S%.3f %:z"@
        }
    } else if date_only {
        "%Y-%m-%d"@
    } else {
        "%Y-%m-%d %H:%M:%S%.3f %:z"@
    }
}

/// The format patterns this library ever hands to chrono; formatting with
/// any of them cannot fail.
pub open spec fn is_time_pattern(p: Seq<char>) -> bool {
    ||| p == "%a, %e %b %Y"@
    ||| p == "%a, %e %b %Y %H:%M:%S %:z"@
    ||| p == "%Y-%m-%d"@
    ||| p == "%Y-%m-%d %H:%M:%S%.6f%:z"@
    ||| p == "%m-%d-%Y"@
    ||| p == "%m-%d-%Y %I:%M:%S%.3f %p %:z"@
    ||| p == "%m-%d-%Y %H:%M:%S%.3f %:z"@
    ||| p == "%d-%m-%Y"@
    ||| p == "%d-%m-%Y %H:%M:%S%.3f %:z"@
    ||| p == "%Y-%m-%d %H:%M:%S%.3f %:z"@
}

/// Pick the chrono format pattern for the options.
fn pattern_for(o: &TimeFormatOptions, date_only: bool) -> (r: &'static str)
    ensures
        r@ == time_pattern(*o, date_only),
        is_time_pattern(r@),
{
    if o.rfc_2822 {
        if date_only {
            "%a, %e %b %Y"
        } else {
            "%a, %e %b %Y %H:%M:%S %:z"
        }
    } else if o.rfc_3339 {
        if date_only {
            "%Y-%m-%d"
        } else {
            "%Y-%m-%d %H:%M:%S%.6f%:z"
        }
    } else if o.us_time {
        if date_only {
            "%m-%d-%Y"
        } else {
            "%m-%d-%Y %I:%M:%S%.3f %p %:z"
        }
    } else if o.us_military_time {
        if date_only {
            "%m-%d-%Y"
        } else {
            "%m-%d-%Y %H:%M:%S%.3f %:z"
        }
    } else if o.european_time {
        if date_only {
            "%d-%m-%Y"
        } else {
            "%d-%m-%Y %H:%M:%S%.3f %:z"
        }
    } else if date_only {
        "%Y-%m-%d"
    } else {
        "%Y-%m-%d %H:%M:%S%.3f %:z"
    }
}

/// What chrono renders for an instant under a pattern in UTC: a function
/// of the two alone.
pub uninterp spec fn utc_formatted(t: i64, pattern: Seq<char>) -> Seq<char>;

/// Relies on `DateTime::from_timestamp_micros` and `DateTime::format`:
/// the UTC rendering of the instant, a pure function of instant and
/// pattern; an instant out of chrono's range renders empty.
#[verifier::external_body]
fn format_utc(t: i64, pattern: &str) -> (r: String)
    requires
        is_time_pattern(pattern@),
    ensures
        r@ == utc_formatted(t, pattern@),
{
    match chrono::DateTime::from_timestamp_micros(t) {
        Option::Some(dt) => dt.format(pattern).to_string(),
        Option::None => String::new(),
    }
}

/// Relies on `DateTime::with_timezone` and `DateTime::format`: the
/// rendering in the machine's local time zone, which depends on the
/// machine; nothing is assumed of it.
#[verifier::external_body]
fn format_local(t: i64, pattern: &str) -> String
    requires
        is_time_pattern(pattern@),
{
    match chrono::DateTime::from_timestamp_micros(t) {
        Option::Some(dt) => dt.with_timezone(&chrono::Local).format(pattern).to_string(),
        Option::None => String::new(),
    }
}

/// Render a timestamp in the configured style: in UTC where asked, in the
/// machine's local time zone otherwise.
pub fn format_time(time: i64, date_only: bool, opts: &TimeFormatOptions) -> (r: String)
    ensures
        opts.utc ==> r@ == utc_formatted(time, time_pattern(*opts, date_only)),
{
    let pattern = pattern_for(opts, date_only);
    if opts.utc {
        format_utc(time, pattern)
    } else {
        format_local(time, pattern)
    }
}

} // verus!
