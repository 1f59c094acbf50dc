use vstd::prelude::*;
use vstd::string::StrSliceExecFns;

use crate::digits::{digit_val, digit_of, is_digit};

verus! {

/// An absolute UTC timestamp with minute precision, kept as plain
/// calendar fields in the proleptic Gregorian calendar.
#[derive(Clone, Copy, Debug, PartialEq, Eq, Structural)]
pub struct Timestamp {
    pub year: u32,
    pub month: u8,
    pub day: u8,
    pub hour: u8,
    pub minute: u8,
}

/// Whether `y` is a leap year in the proleptic Gregorian calendar.
pub open spec fn spec_is_leap(y: int) -> bool {
    y % 4 == 0 && (y % 100 != 0 || y % 400 == 0)
}

/// The number of days in month `m` of year `y`.
pub open spec fn spec_days_in_month(y: int, m: int) -> int {
    if m == 2 {
        if spec_is_leap(y) {
            29
        } else {
            28
        }
    } else if m == 4 || m == 6 || m == 9 || m == 11 {
        30
    } else {
        31
    }
}

/// The number of days in the months of year `y` strictly before month `m`.
pub open spec fn days_before_month(y: int, m: int) -> int
    decreases m,
{
    if m <= 1 {
        0
    } else {
        days_before_month(y, m - 1) + spec_days_in_month(y, m - 1)
    }
}

/// The number of days in all years strictly before year `y` (counted
/// from year 0, which is a leap year).
pub open spec fn days_before_year(y: int) -> int
    decreases y,
{
    if y <= 0 {
        0
    } else {
        days_before_year(y - 1) + if spec_is_leap(y - 1) {
            366int
        } else {
            365int
        }
    }
}

impl Timestamp {
    /// The calendar fields are in range: a date that exists, an hour
    /// below 24 and a minute below 60.
    pub open spec fn wf(self) -> bool {
        &&& 1 <= self.month <= 12
        &&& 1 <= self.day <= spec_days_in_month(self.year as int, self.month as int)
        &&& self.hour <= 23
        &&& self.minute <= 59
    }

    /// The day index of this timestamp's date, counted from the first
    /// day of year 0.
    pub open spec fn total_days(self) -> int {
        days_before_year(self.year as int) + days_before_month(
            self.year as int,
            self.month as int,
        ) + (self.day as int - 1)
    }

    /// The minute index of this timestamp, counted from midnight on the
    /// first day of year 0. Two well-formed timestamps are equal exactly
    /// when their minute indices are equal.
    pub open spec fn total_minutes(self) -> int {
        (self.total_days() * 24 + self.hour as int) * 60 + self.minute as int
    }
}

/// The number of days in month `m` of year `y`.
pub fn days_in_month(y: u32, m: u8) -> (r: u8)
    ensures
        r as int == spec_days_in_month(y as int, m as int),
{
    if m == 2 {
        if is_leap(y) {
            29
        } else {
            28
        }
    } else if m == 4 || m == 6 || m == 9 || m == 11 {
        30
    } else {
        31
    }
}

/// Whether `y` is a leap year.
pub fn is_leap(y: u32) -> (r: bool)
    ensures
        r == spec_is_leap(y as int),
{
    y % 4 == 0 && (y % 100 != 0 || y % 400 == 0)
}

/// All twelve months of year `y` together hold 365 days, or 366 in a
/// leap year.
pub proof fn lemma_year_days(y: int)
    ensures
        days_before_month(y, 12) + 31 == if spec_is_leap(y) {
            366int
        } else {
            365int
        },
{
    assert(days_before_month(y, 1) == 0);
    assert(days_before_month(y, 2) == 31);
    assert(days_before_month(y, 3) == days_before_month(y, 2) + spec_days_in_month(y, 2));
    assert(days_before_month(y, 4) == days_before_month(y, 3) + 31);
    assert(days_before_month(y, 5) == days_before_month(y, 4) + 30);
    assert(days_before_month(y, 6) == days_before_month(y, 5) + 31);
    assert(days_before_month(y, 7) == days_before_month(y, 6) + 30);
    assert(days_before_month(y, 8) == days_before_month(y, 7) + 31);
    assert(days_before_month(y, 9) == days_before_month(y, 8) + 31);
    assert(days_before_month(y, 10) == days_before_month(y, 9) + 30);
    assert(days_before_month(y, 11) == days_before_month(y, 10) + 31);
    assert(days_before_month(y, 12) == days_before_month(y, 11) + 30);
}

/// Months never lose days as the month number grows.
proof fn lemma_days_before_month_monotone(y: int, m1: int, m2: int)
    requires
        m1 <= m2,
    ensures
        days_before_month(y, m1) <= days_before_month(y, m2),
    decreases m2 - m1,
{
    if m1 < m2 {
        lemma_days_before_month_monotone(y, m1, m2 - 1);
        assert(spec_days_in_month(y, m2 - 1) >= 28);
    }
}

/// Years never lose days as the year number grows.
proof fn lemma_days_before_year_monotone(y1: int, y2: int)
    requires
        y1 <= y2,
    ensures
        days_before_year(y1) <= days_before_year(y2),
    decreases y2 - y1,
{
    if y1 < y2 {
        lemma_days_before_year_monotone(y1, y2 - 1);
    }
}

/// A well-formed timestamp's day index lies within its own year.
proof fn lemma_total_days_within_year(t: Timestamp)
    requires
        t.wf(),
    ensures
        days_before_year(t.year as int) <= t.total_days() < days_before_year(t.year as int + 1),
{
    let y = t.year as int;
    let m = t.month as int;
    lemma_days_before_month_monotone(y, 1, m);
    lemma_days_before_month_monotone(y, m + 1, 13);
    assert(days_before_month(y, m + 1) == days_before_month(y, m) + spec_days_in_month(y, m));
    lemma_year_days(y);
    assert(days_before_month(y, 13) == days_before_month(y, 12) + 31);
    assert(days_before_year(y + 1) == days_before_year(y) + if spec_is_leap(y) {
        366int
    } else {
        365int
    });
}

/// Two well-formed timestamps with the same minute index are the same
/// timestamp: a well-formed timestamp is identified completely by its
/// distance in minutes from the calendar's origin.
pub proof fn lemma_total_minutes_injective(a: Timestamp, b: Timestamp)
    requires
        a.wf(),
        b.wf(),
        a.total_minutes() == b.total_minutes(),
    ensures
        a == b,
{
    let da = a.total_days();
    let db = b.total_days();
    assert(a.total_minutes() == da * 1440 + a.hour * 60 + a.minute);
    assert(b.total_minutes() == db * 1440 + b.hour * 60 + b.minute);
    assert(0 <= a.hour * 60 + a.minute < 1440);
    assert(0 <= b.hour * 60 + b.minute < 1440);
    if da < db {
        assert(da * 1440 + 1440 <= db * 1440);
        assert(false);
    }
    if db < da {
        assert(db * 1440 + 1440 <= da * 1440);
        assert(false);
    }
    assert(da == db);
    assert(a.hour * 60 + a.minute == b.hour * 60 + b.minute);
    assert(a.hour == b.hour && a.minute == b.minute);

    lemma_total_days_within_year(a);
    lemma_total_days_within_year(b);
    if a.year < b.year {
        lemma_days_before_year_monotone(a.year as int + 1, b.year as int);
        assert(false);
    }
    if b.year < a.year {
        lemma_days_before_year_monotone(b.year as int + 1, a.year as int);
        assert(false);
    }
    assert(a.year == b.year);

    let y = a.year as int;
    let ma = a.month as int;
    let mb = b.month as int;
    if ma < mb {
        assert(days_before_month(y, ma + 1) == days_before_month(y, ma) + spec_days_in_month(
            y,
            ma,
        ));
        lemma_days_before_month_monotone(y, ma + 1, mb);
        assert(false);
    }
    if mb < ma {
        assert(days_before_month(y, mb + 1) == days_before_month(y, mb) + spec_days_in_month(
            y,
            mb,
        ));
        lemma_days_before_month_monotone(y, mb + 1, ma);
        assert(false);
    }
    assert(a.month == b.month);
    assert(a.day == b.day);
}

/// The string shape `YYYY-MM-DDTHH:MMZ`: a minute-precision UTC
/// timestamp as the provider encodes it.
pub open spec fn ts_shape(s: Seq<char>) -> bool {
    &&& s.len() == 17
    &&& is_digit(s[0])
    &&& is_digit(s[1])
    &&& is_digit(s[2])
    &&& is_digit(s[3])
    &&& s[4] == '-'
    &&& is_digit(s[5])
    &&& is_digit(s[6])
    &&& s[7] == '-'
    &&& is_digit(s[8])
    &&& is_digit(s[9])
    &&& s[10] == 'T'
    &&& is_digit(s[11])
    &&& is_digit(s[12])
    &&& s[13] == ':'
    &&& is_digit(s[14])
    &&& is_digit(s[15])
    &&& s[16] == 'Z'
}

/// The calendar fields read from a string of shape `YYYY-MM-DDTHH:MMZ`.
pub open spec fn ts_fields(s: Seq<char>) -> Timestamp {
    Timestamp {
        year: (digit_val(s[0]) * 1000 + digit_val(s[1]) * 100 + digit_val(s[2]) * 10 + digit_val(
            s[3],
        )) as u32,
        month: (digit_val(s[5]) * 10 + digit_val(s[6])) as u8,
        day: (digit_val(s[8]) * 10 + digit_val(s[9])) as u8,
        hour: (digit_val(s[11]) * 10 + digit_val(s[12])) as u8,
        minute: (digit_val(s[14]) * 10 + digit_val(s[15])) as u8,
    }
}

/// A timestamp string parses exactly when it has the wire shape and its
/// fields form a well-formed timestamp.
pub open spec fn spec_parse_timestamp(s: Seq<char>) -> Option<Timestamp> {
    if ts_shape(s) && ts_fields(s).wf() {
        Some(ts_fields(s))
    } else {
        None
    }
}

/// Reads a `YYYY-MM-DDTHH:MMZ` timestamp string, rejecting any string
/// of another shape and any calendar fields out of range.
pub fn parse_timestamp(s: &str) -> (r: Option<Timestamp>)
    ensures
        r == spec_parse_timestamp(s@),
{
    if s.unicode_len() != 17 {
        return None;
    }
    if s.get_char(4) != '-' || s.get_char(7) != '-' || s.get_char(10) != 'T' || s.get_char(13)
        != ':' || s.get_char(16) != 'Z' {
        return None;
    }
    let mut k: usize = 0;
    while k < 16
        invariant
            s@.len() == 17,
            k <= 16,
            forall|j: int| 0 <= j < k && j != 4 && j != 7 && j != 10 && j != 13 ==> is_digit(
                #[trigger] s@[j],
            ),
        decreases 16 - k,
    {
        if !(k == 4 || k == 7 || k == 10 || k == 13) {
            let c = s.get_char(k);
            if !(c >= '0' && c <= '9') {
                return None;
            }
        }
        k += 1;
    }
    let year: u32 = digit_of(s.get_char(0)) * 1000 + digit_of(s.get_char(1)) * 100 + digit_of(
        s.get_char(2),
    ) * 10 + digit_of(s.get_char(3));
    let month: u8 = (digit_of(s.get_char(5)) * 10 + digit_of(s.get_char(6))) as u8;
    let day: u8 = (digit_of(s.get_char(8)) * 10 + digit_of(s.get_char(9))) as u8;
    let hour: u8 = (digit_of(s.get_char(11)) * 10 + digit_of(s.get_char(12))) as u8;
    let minute: u8 = (digit_of(s.get_char(14)) * 10 + digit_of(s.get_char(15))) as u8;
    let t = Timestamp { year, month, day, hour, minute };
    if month < 1 || month > 12 {
        return None;
    }
    if day < 1 || day > days_in_month(year, month) {
        return None;
    }
    if hour > 23 || minute > 59 {
        return None;
    }
    Some(t)
}

/// The timestamp a whole number of hours after `t`, carrying over into
/// later days, months and years as the calendar requires.
pub fn add_hours(t: &Timestamp, hours: u32) -> (r: Timestamp)
    requires
        t.wf(),
        t.year <= 20000,
    ensures
        r.wf(),
        r.total_minutes() == t.total_minutes() + 60 * (hours as int),
        r.minute == t.minute,
{
    let total: u64 = t.hour as u64 + hours as u64;
    let new_hour: u8 = (total % 24) as u8;
    let mut day_add: u64 = total / 24;
    let ghost d0: int = day_add as int;
    proof {
        assert(24 * (total as int / 24) + total as int % 24 == total as int);
        assert(d0 <= 178956971);
    }
    let mut y: u32 = t.year;
    let mut m: u8 = t.month;
    let mut d: u8 = t.day;
    while day_add > 0
        invariant
            1 <= m <= 12,
            1 <= d <= spec_days_in_month(y as int, m as int),
            day_add <= d0,
            y <= 20000 + (d0 - day_add),
            d0 <= 178956971,
            days_before_year(y as int) + days_before_month(y as int, m as int) + (d as int - 1)
                == t.total_days() + (d0 - day_add),
        decreases day_add,
    {
        let dim = days_in_month(y, m);
        if d < dim {
            d += 1;
        } else if m < 12 {
            m += 1;
            d = 1;
        } else {
            proof {
                lemma_year_days(y as int);
            }
            y += 1;
            m = 1;
            d = 1;
        }
        day_add -= 1;
    }
    let r = Timestamp { year: y, month: m, day: d, hour: new_hour, minute: t.minute };
    proof {
        assert(total as int == t.hour + hours);
        assert(24 * (total as int / 24) + total as int % 24 == total as int);
        assert(r.total_days() == t.total_days() + total as int / 24);
        assert(r.total_minutes() == ((t.total_days() + total as int / 24) * 24 + total as int % 24)
            * 60 + t.minute);
        assert((t.total_days() + total as int / 24) * 24 == t.total_days() * 24 + (total as int / 24)
            * 24);
        assert(r.total_minutes() == (t.total_days() * 24 + t.hour + hours) * 60 + t.minute);
        assert((t.total_days() * 24 + t.hour + hours) * 60 == (t.total_days() * 24 + t.hour) * 60
            + hours * 60);
    }
    r
}

} // verus!
