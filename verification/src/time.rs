//! Points in time (UTC) and the parsing of the time stamps that the mod portal
//! returns (`chrono`).
use vstd::prelude::*;

verus! {

/// A point in time: seconds since the Unix epoch (UTC) and the nanoseconds
/// within that second (above 999 999 999 only for a leap second), ordered as
/// `chrono::DateTime<Utc>` orders.
#[derive(Clone, Copy, Debug, PartialEq, Eq, Structural)]
pub struct UtcTime {
    pub secs: i64,
    pub nanos: u32,
}

/// `a` is not later than `b`.
pub open spec fn time_le(a: UtcTime, b: UtcTime) -> bool {
    a.secs < b.secs || (a.secs == b.secs && a.nanos <= b.nanos)
}

/// A point in time from `(seconds, nanoseconds)`.
pub open spec fn time_of(p: (i64, u32)) -> UtcTime {
    UtcTime { secs: p.0, nanos: p.1 }
}

impl UtcTime {
    /// `self >= other`.
    pub fn at_or_after(&self, other: &UtcTime) -> (r: bool)
        ensures
            r == time_le(*other, *self),
    {
        self.secs > other.secs || (self.secs == other.secs && self.nanos >= other.nanos)
    }
}

/// What `DateTime::parse_from_rfc3339` makes of a text, as UTC seconds and
/// nanoseconds.
pub uninterp spec fn spec_rfc3339(s: Seq<char>) -> Option<(i64, u32)>;

/// What `NaiveDateTime::parse_from_str(s, fmt)` makes of a text, read as UTC.
pub uninterp spec fn spec_naive_utc(s: Seq<char>, fmt: Seq<char>) -> Option<(i64, u32)>;

/// What `<DateTime<Utc> as FromStr>::from_str` makes of a text: the point in
/// time, or the text of the parse error.
pub uninterp spec fn spec_utc_from_str(s: Seq<char>) -> Result<(i64, u32), Seq<char>>;

/// `DateTime::parse_from_rfc3339`, taken to UTC.
#[verifier::external_body]
pub(crate) fn rfc3339_parse(s: &str) -> (r: Option<(i64, u32)>)
    ensures
        r == spec_rfc3339(s@),
{
    match chrono::DateTime::parse_from_rfc3339(s) {
        Ok(dt) => Some((dt.timestamp(), dt.timestamp_subsec_nanos())),
        Err(_) => None,
    }
}

/// `NaiveDateTime::parse_from_str`, read as UTC.
#[verifier::external_body]
pub(crate) fn naive_utc_parse(s: &str, fmt: &str) -> (r: Option<(i64, u32)>)
    ensures
        r == spec_naive_utc(s@, fmt@),
{
    match chrono::NaiveDateTime::parse_from_str(s, fmt) {
        Ok(naive) => {
            let dt = naive.and_utc();
            Some((dt.timestamp(), dt.timestamp_subsec_nanos()))
        },
        Err(_) => None,
    }
}

/// `<DateTime<Utc> as FromStr>::from_str`; the error as its text.
#[verifier::external_body]
pub(crate) fn utc_from_str(s: &str) -> (r: Result<(i64, u32), String>)
    ensures
        match r {
            Ok(p) => spec_utc_from_str(s@) == Ok::<(i64, u32), Seq<char>>(p),
            Err(e) => spec_utc_from_str(s@) == Err::<(i64, u32), Seq<char>>(e@),
        },
{
    match <chrono::DateTime<chrono::Utc> as std::str::FromStr>::from_str(s) {
        Ok(dt) => Ok((dt.timestamp(), dt.timestamp_subsec_nanos())),
        Err(e) => Err(e.to_string()),
    }
}

/// `%Y-%m-%dT%H:%M:%S%.fZ`
pub open spec fn fmt_fraction_z() -> Seq<char> {
    seq!['%', 'Y', '-', '%', 'm', '-', '%', 'd', 'T', '%', 'H', ':', '%', 'M', ':', '%', 'S', '%', '.', 'f', 'Z']
}

/// `%Y-%m-%dT%H:%M:%S%.f`
pub open spec fn fmt_fraction() -> Seq<char> {
    seq!['%', 'Y', '-', '%', 'm', '-', '%', 'd', 'T', '%', 'H', ':', '%', 'M', ':', '%', 'S', '%', '.', 'f']
}

/// `%Y-%m-%dT%H:%M:%S`
pub open spec fn fmt_plain() -> Seq<char> {
    seq!['%', 'Y', '-', '%', 'm', '-', '%', 'd', 'T', '%', 'H', ':', '%', 'M', ':', '%', 'S']
}

/// The reading of a portal time stamp: RFC 3339 first; failing that, a naive
/// date-time with fractional seconds and a `Z`; failing that, a naive
/// date-time without fraction or zone; failing that, one with a fraction but
/// no zone (as in `2026-07-23T23:31:36.025000`); the naive forms taken as UTC.
pub open spec fn iso8601_view(s: Option<Seq<char>>) -> Option<UtcTime> {
    match s {
        None => None,
        Some(t) => match spec_rfc3339(t) {
            Some(p) => Some(time_of(p)),
            None => match spec_naive_utc(t, fmt_fraction_z()) {
                Some(p) => Some(time_of(p)),
                None => match spec_naive_utc(t, fmt_plain()) {
                    Some(p) => Some(time_of(p)),
                    None => match spec_naive_utc(t, fmt_fraction()) {
                        Some(p) => Some(time_of(p)),
                        None => None,
                    },
                },
            },
        },
    }
}

/// Reads an ISO 8601 / RFC 3339 time stamp as the mod portal writes it,
/// accepting the looser forms it also uses, fractional seconds without a
/// zone among them.
pub fn parse_iso8601(s: Option<&str>) -> (r: Option<UtcTime>)
    ensures
        r == iso8601_view(s.deep_view()),
{
    proof {
        reveal_strlit("%Y-%m-%dT%H:%M:%S%.fZ");
        reveal_strlit("%Y-%m-%dT%H:%M:%S");
        reveal_strlit("%Y-%m-%dT%H:%M:%S%.f");
        assert("%Y-%m-%dT%H:%M:%S%.fZ"@ =~= fmt_fraction_z());
        assert("%Y-%m-%dT%H:%M:%S"@ =~= fmt_plain());
        assert("%Y-%m-%dT%H:%M:%S%.f"@ =~= fmt_fraction());
    }
    let t = match s {
        Some(t) => t,
        None => return None,
    };
    let parsed = match rfc3339_parse(t) {
        Some(p) => Some(p),
        None => match naive_utc_parse(t, "%Y-%m-%dT%H:%M:%S%.fZ") {
            Some(p) => Some(p),
            None => match naive_utc_parse(t, "%Y-%m-%dT%H:%M:%S") {
                Some(p) => Some(p),
                None => naive_utc_parse(t, "%Y-%m-%dT%H:%M:%S%.f"),
            },
        },
    };
    match parsed {
        Some((secs, nanos)) => Some(UtcTime { secs, nanos }),
        None => None,
    }
}

} // verus!
