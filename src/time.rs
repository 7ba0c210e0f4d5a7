//! Instants as milliseconds since the Unix epoch, and the calendar facts the
//! statistics read from them (UTC day, hour of day, day of week).

use vstd::prelude::*;

verus! {

pub const MS_PER_DAY: i64 = 86_400_000;

pub const MS_PER_HOUR: i64 = 3_600_000;

pub const MS_PER_MINUTE: i64 = 60_000;

/// What an RFC 3339 timestamp denotes: the instant in milliseconds since the
/// epoch and the calendar year in the offset it gives; `None` when the text
/// is not such a timestamp.
pub uninterp spec fn rfc3339_parts(s: Seq<char>) -> Option<(i64, i32)>;

pub open spec fn rfc3339_millis(s: Seq<char>) -> Option<i64> {
    match rfc3339_parts(s) {
        Some(p) => Some(p.0),
        None => None,
    }
}

pub open spec fn rfc3339_local_year(s: Seq<char>) -> Option<i32> {
    match rfc3339_parts(s) {
        Some(p) => Some(p.1),
        None => None,
    }
}

/// The UTC calendar year of an instant given in milliseconds, or `None`
/// outside the representable range.
pub uninterp spec fn utc_year_of(ms: i64) -> Option<i32>;

/// Relies on `chrono::DateTime::parse_from_rfc3339`, read back through
/// `timestamp_millis` and `Datelike::year`: the parse depends on the text
/// alone.
#[verifier::external_body]
pub(crate) fn parse_rfc3339(s: &str) -> (r: Option<(i64, i32)>)
    ensures
        r == rfc3339_parts(s@),
{
    chrono::DateTime::parse_from_rfc3339(s).ok().map(|dt| (dt.timestamp_millis(), chrono::Datelike::year(&dt)))
}

/// Relies on `chrono::DateTime::from_timestamp_millis` and `Datelike::year`
/// on the UTC date-time it builds.
#[verifier::external_body]
pub(crate) fn utc_year(ms: i64) -> (r: Option<i32>)
    ensures
        r == utc_year_of(ms),
{
    chrono::DateTime::from_timestamp_millis(ms).map(|dt| chrono::Datelike::year(&dt))
}

/// The UTC day (days since 1970-01-01) that an instant falls on.
pub open spec fn day_of(ms: int) -> int {
    ms / (MS_PER_DAY as int)
}

/// The UTC hour of day (0 to 23) of an instant.
pub open spec fn hour_of(ms: int) -> int {
    (ms % (MS_PER_DAY as int)) / (MS_PER_HOUR as int)
}

/// The day of the week of a day number, 0 for Sunday to 6 for Saturday
/// (1970-01-01 was a Thursday).
pub open spec fn weekday_of(day: int) -> int {
    (day + 4) % 7
}

pub open spec fn is_weekend_day(day: int) -> bool {
    weekday_of(day) == 0 || weekday_of(day) == 6
}

pub fn day_number(ms: i64) -> (d: i64)
    ensures
        d == day_of(ms as int),
{
    if ms >= 0 {
        let d = ms / MS_PER_DAY;
        assert(d == day_of(ms as int)) by (nonlinear_arith)
            requires
                ms >= 0,
                d == ms / 86_400_000,
        ;
        d
    } else {
        let m: i64 = -(ms + 1);
        let q = m / MS_PER_DAY;
        let d = -q - 1;
        assert(d == day_of(ms as int)) by (nonlinear_arith)
            requires
                ms < 0,
                m == -(ms + 1),
                q == m / 86_400_000,
                d == -q - 1,
        {
            let r = m % 86_400_000;
            assert(m == q * 86_400_000 + r);
            assert(ms == d * 86_400_000 + (86_400_000 - r - 1));
            vstd::arithmetic::div_mod::lemma_fundamental_div_mod_converse(
                ms as int,
                86_400_000,
                d as int,
                86_400_000 - r - 1,
            );
        }
        d
    }
}

pub fn hour_number(ms: i64) -> (h: u8)
    ensures
        h == hour_of(ms as int),
        h < 24,
{
    let d = day_number(ms);
    let wide: i128 = ms as i128 - (d as i128) * (MS_PER_DAY as i128);
    assert(wide == ms as int % (MS_PER_DAY as int) && 0 <= wide < MS_PER_DAY) by (nonlinear_arith)
        requires
            d == (ms as int) / 86_400_000,
            wide == ms - d * 86_400_000,
    ;
    let within = wide as i64;
    (within / MS_PER_HOUR) as u8
}

pub fn is_weekend(day: i64) -> (r: bool)
    ensures
        r == is_weekend_day(day as int),
{
    let w = if day >= 0 {
        ((day % 7) + 4) % 7
    } else {
        let back = (-(day + 1)) % 7;
        (6 - back + 4) % 7
    };
    assert(w == weekday_of(day as int)) by (nonlinear_arith)
        requires
            day >= 0 ==> w == ((day % 7) + 4) % 7,
            day < 0 ==> w == (6 - ((-(day + 1)) % 7) + 4) % 7,
    ;
    w == 0 || w == 6
}

} // verus!
