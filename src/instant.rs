use chrono::Datelike;
use vstd::prelude::*;

verus! {

/// Seconds since the Unix epoch of the earliest representable instant (-262143-01-01T00:00:00Z).
pub const MIN_TIMESTAMP: i64 = -8334601315200;

/// Seconds since the Unix epoch of the last second of the latest representable day
/// (262142-12-31T23:59:59Z).
pub const MAX_TIMESTAMP: i64 = 8210266876799;

pub const SECS_PER_DAY: i64 = 86400;

/// A point in time in UTC: whole seconds since 1970-01-01T00:00:00Z plus a nanosecond part.
/// A leap second is carried as a nanosecond part of a billion or more on a 59th second.
#[derive(Clone, Copy, Debug, PartialEq, Eq, Structural)]
pub struct Instant {
    pub secs: i64,
    pub nanos: u32,
}

impl Instant {
    pub open spec fn wf(self) -> bool {
        &&& MIN_TIMESTAMP <= self.secs <= MAX_TIMESTAMP
        &&& self.nanos < 2_000_000_000
        &&& (self.nanos >= 1_000_000_000 ==> self.secs as int % 60 == 59)
    }

    /// Chronological order: by seconds, then by the nanosecond part.
    pub open spec fn spec_le(self, other: Instant) -> bool {
        self.secs < other.secs || (self.secs == other.secs && self.nanos <= other.nanos)
    }

    /// Days since 1970-01-01 (rounded down).
    pub open spec fn day_number(self) -> int {
        self.secs as int / 86400
    }

    /// Seconds since midnight.
    pub open spec fn second_of_day(self) -> int {
        self.secs as int % 86400
    }

    /// Weekday with Monday as 0 and Sunday as 6 (1970-01-01 was a Thursday).
    pub open spec fn spec_weekday(self) -> int {
        (self.day_number() + 3) % 7
    }

    pub open spec fn spec_next_day(self) -> Option<Instant> {
        if self.secs as int + 86400 <= MAX_TIMESTAMP {
            Some(Instant { secs: (self.secs as int + 86400) as i64, nanos: self.nanos })
        } else {
            None
        }
    }

    /// The same day and minute of the hour, second and fraction, at hour `h`.
    pub open spec fn spec_with_hour(self, h: int) -> Option<Instant> {
        if 0 <= h < 24 {
            Some(Instant {
                secs: (self.secs as int - self.second_of_day() + h * 3600 + self.second_of_day() % 3600) as i64,
                nanos: self.nanos,
            })
        } else {
            None
        }
    }

    /// The same day, hour, second and fraction, at minute `m`.
    pub open spec fn spec_with_minute(self, m: int) -> Option<Instant> {
        if 0 <= m < 60 {
            Some(Instant {
                secs: (self.secs as int - self.second_of_day() % 3600 + m * 60 + self.second_of_day() % 60) as i64,
                nanos: self.nanos,
            })
        } else {
            None
        }
    }

    /// Offset from the earliest representable instant, which falls on a midnight.
    fn offset(&self) -> (r: u64)
        requires
            self.wf(),
        ensures
            r == self.secs - MIN_TIMESTAMP,
            r % 86400 == self.second_of_day(),
            (r / 86400 + 2) % 7 == self.spec_weekday(),
    {
        let r = (self.secs - MIN_TIMESTAMP) as u64;
        proof {
            let s = self.secs as int;
            let k: int = -96465293;
            assert(MIN_TIMESTAMP == k * 86400);
            assert(r as int == s - k * 86400);
            vstd::arithmetic::div_mod::lemma_fundamental_div_mod(s, 86400);
            let q = s / 86400;
            let m = s % 86400;
            assert(0 <= m < 86400);
            assert(r as int == (q - k) * 86400 + m) by (nonlinear_arith)
                requires s == q * 86400 + m, r as int == s - k * 86400;
            vstd::arithmetic::div_mod::lemma_fundamental_div_mod_converse(r as int, 86400, q - k, m);
            assert((q - k + 2) % 7 == (q + 3) % 7) by {
                vstd::arithmetic::div_mod::lemma_mod_add_multiples_vanish(q + 3, 7);
                assert(q - k + 2 == (q + 3) + 7 * 13780756);
                vstd::arithmetic::div_mod::lemma_mod_multiples_vanish(13780756, q + 3, 7);
            }
        }
        r
    }

    /// The weekday, Monday as 0 through Sunday as 6.
    pub fn weekday(&self) -> (r: u8)
        requires
            self.wf(),
        ensures
            r as int == self.spec_weekday(),
            r < 7,
    {
        let o = self.offset();
        ((o / 86400 + 2) % 7) as u8
    }

    /// The instant one calendar day later, if it is representable.
    pub fn next_day(&self) -> (r: Option<Instant>)
        requires
            self.wf(),
        ensures
            r == self.spec_next_day(),
            r matches Some(n) ==> n.wf(),
    {
        if self.secs <= MAX_TIMESTAMP - SECS_PER_DAY {
            proof {
                assert((self.secs + 86400) % 60 == self.secs % 60) by {
                    vstd::arithmetic::div_mod::lemma_mod_add_multiples_vanish(self.secs as int, 60);
                    assert(86400 == 60 * 1440);
                    vstd::arithmetic::div_mod::lemma_mod_multiples_vanish(1440, self.secs as int, 60);
                }
            }
            Some(Instant { secs: self.secs + SECS_PER_DAY, nanos: self.nanos })
        } else {
            None
        }
    }

    /// The same instant with its hour set to `h`, if `h` names an hour.
    pub fn with_hour(&self, h: u32) -> (r: Option<Instant>)
        requires
            self.wf(),
        ensures
            r == self.spec_with_hour(h as int),
            r matches Some(n) ==> n.wf(),
    {
        if h >= 24 {
            return None;
        }
        let o = self.offset();
        let sod = (o % 86400) as i64;
        let rest = sod % 3600;
        let secs = self.secs - sod + (h as i64) * 3600 + rest;
        proof {
            lemma_same_minute_second(sod as int, h as int * 3600 + rest as int, self.secs as int);
        }
        Some(Instant { secs, nanos: self.nanos })
    }

    /// The same instant with its minute set to `m`, if `m` names a minute.
    pub fn with_minute(&self, m: u32) -> (r: Option<Instant>)
        requires
            self.wf(),
        ensures
            r == self.spec_with_minute(m as int),
            r matches Some(n) ==> n.wf(),
    {
        if m >= 60 {
            return None;
        }
        let o = self.offset();
        let sod = (o % 86400) as i64;
        let secs = self.secs - sod % 3600 + (m as i64) * 60 + sod % 60;
        proof {
            let hours = sod - sod % 3600;
            assert(hours % 3600 == 0) by {
                vstd::arithmetic::div_mod::lemma_fundamental_div_mod(sod as int, 3600);
                vstd::arithmetic::div_mod::lemma_mod_multiples_basic(sod as int / 3600, 3600);
            }
            assert(sod % 60 == (sod % 3600) % 60) by {
                vstd::arithmetic::div_mod::lemma_mod_mod(sod as int, 60, 60);
                assert(3600 == 60 * 60);
                vstd::arithmetic::div_mod::lemma_mod_mod(sod as int, 60, 60);
                vstd::arithmetic::div_mod::lemma_mod_breakdown(sod as int, 60, 60);
            }
            lemma_same_minute_second(sod as int, hours + m as int * 60 + sod % 60, self.secs as int);
        }
        Some(Instant { secs, nanos: self.nanos })
    }

    /// Whether `self` comes no later than `other`.
    pub fn le(&self, other: &Instant) -> (r: bool)
        ensures
            r == self.spec_le(*other),
    {
        self.secs < other.secs || (self.secs == other.secs && self.nanos <= other.nanos)
    }

    /// Reads an RFC 3339 date-time (`2023-05-10T08:30:00Z`, any offset) as an instant in UTC.
    pub fn parse(text: &str) -> (r: Option<Instant>)
        ensures
            r == rfc3339_instant(text@),
            r matches Some(i) ==> i.wf(),
            text@.len() == 0 ==> r is None,
    {
        parse_rfc3339(text)
    }

    /// The instant in the iCalendar UTC form `YYYYMMDDTHHMMSSZ`.
    pub fn to_utc_stamp(&self) -> (r: String)
        requires
            self.wf(),
        ensures
            r@ == utc_stamp(*self),
    {
        format_utc_stamp(self)
    }

    /// The same month, day and time of day in year `year`, where that date exists.
    pub fn with_year(&self, year: i32) -> (r: Option<Instant>)
        requires
            self.wf(),
        ensures
            r == year_replaced(*self, year as int),
            r matches Some(n) ==> n.wf() && n.second_of_day() == self.second_of_day() && n.nanos
                == self.nanos,
    {
        replace_year(self, year)
    }
}

/// Replacing the time of day `sod` of `secs` by `new_sod`, both under a day and with the
/// same second of the minute, stays on the same day and keeps the second of the minute.
proof fn lemma_same_minute_second(sod: int, new_sod: int, secs: int)
    requires
        0 <= sod < 86400,
        0 <= new_sod < 86400,
        sod == secs % 86400,
        new_sod % 60 == sod % 60,
    ensures
        (secs - sod + new_sod) % 60 == secs % 60,
        (secs - sod + new_sod) / 86400 == secs / 86400,
{
    vstd::arithmetic::div_mod::lemma_fundamental_div_mod(secs, 86400);
    let q = secs / 86400;
    assert(secs - sod + new_sod == q * 86400 + new_sod);
    vstd::arithmetic::div_mod::lemma_fundamental_div_mod_converse(secs - sod + new_sod, 86400, q, new_sod);
    assert(86400 == 1440 * 60);
    vstd::arithmetic::div_mod::lemma_mod_multiples_vanish(q * 1440, new_sod, 60);
    vstd::arithmetic::div_mod::lemma_mod_multiples_vanish(q * 1440, sod, 60);
    assert(q * 86400 == (q * 1440) * 60) by (nonlinear_arith);
    assert(secs == (q * 1440) * 60 + sod);
}

/// The instant that an RFC 3339 date-time text denotes, if it denotes one.
pub uninterp spec fn rfc3339_instant(text: Seq<char>) -> Option<Instant>;

/// The text of an instant in the form `YYYYMMDDTHHMMSSZ`.
pub uninterp spec fn utc_stamp(i: Instant) -> Seq<char>;

/// The instant with the same month, day and time of day in another year, if that date exists.
pub uninterp spec fn year_replaced(i: Instant, year: int) -> Option<Instant>;

/// Relies on chrono's `FromStr` for `DateTime<Utc>` (relaxed RFC 3339, converted to UTC), whose
/// result depends on the text alone (an empty text is none), and on `timestamp` / `timestamp_subsec_nanos`. A
/// `DateTime<Utc>` lies within `MIN_UTC..=MAX_UTC`, and its fraction is under two billion
/// nanoseconds, at or above one billion only on a 59th second.
#[verifier::external_body]
fn parse_rfc3339(text: &str) -> (r: Option<Instant>)
    ensures
        r == rfc3339_instant(text@),
        r matches Some(i) ==> i.wf(),
        text@.len() == 0 ==> r is None,
{
    text.parse::<chrono::DateTime<chrono::Utc>>().ok().map(
        |d| Instant { secs: d.timestamp(), nanos: d.timestamp_subsec_nanos() },
    )
}

/// Relies on chrono's `DateTime::from_timestamp`, which is `Some` for every well-formed instant,
/// and on `format` with the pattern `%Y%m%dT%H%M%SZ`.
#[verifier::external_body]
fn format_utc_stamp(i: &Instant) -> (r: String)
    requires
        i.wf(),
    ensures
        r@ == utc_stamp(*i),
{
    chrono::DateTime::from_timestamp(i.secs, i.nanos).map(
        |d| d.format("%Y%m%dT%H%M%SZ").to_string(),
    ).unwrap_or_default()
}

/// Relies on chrono's `Datelike::with_year` for `DateTime<Utc>`: it keeps month, day and time of
/// day, and gives `None` where the date does not exist in that year or leaves the range.
#[verifier::external_body]
fn replace_year(i: &Instant, year: i32) -> (r: Option<Instant>)
    requires
        i.wf(),
    ensures
        r == year_replaced(*i, year as int),
        r matches Some(n) ==> n.wf() && n.second_of_day() == i.second_of_day() && n.nanos
            == i.nanos,
{
    chrono::DateTime::from_timestamp(i.secs, i.nanos).and_then(|d| d.with_year(year)).map(
        |d| Instant { secs: d.timestamp(), nanos: d.timestamp_subsec_nanos() },
    )
}

/// Relies on chrono's `Utc::now` and `Datelike::year`: the year of the present date in UTC.
#[verifier::external_body]
pub(crate) fn current_year() -> (r: i32) {
    chrono::Utc::now().year()
}

} // verus!
