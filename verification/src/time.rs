//! Points in time: an instant together with the local offset it is shown in.
use crate::text;
use vstd::prelude::*;

verus! {

/// The first second that a [`Timestamp`] can hold.
pub const MIN_SECS: i64 = -8_334_601_000_000;

/// The last second that a [`Timestamp`] can hold.
pub const MAX_SECS: i64 = 8_210_266_000_000;

/// A point in time: seconds since the Unix epoch, the nanoseconds within the
/// second, and the offset of local time from UTC in seconds.
#[derive(Clone, Copy, Debug)]
pub struct Timestamp {
    secs: i64,
    nanos: u32,
    offset: i32,
}

/// The numbers behind a [`Timestamp`].
pub struct TimeModel {
    pub secs: int,
    pub nanos: int,
    pub offset: int,
}

/// The numbers that make a [`Timestamp`].
pub open spec fn valid_time(secs: int, nanos: int, offset: int) -> bool {
    &&& MIN_SECS <= secs <= MAX_SECS
    &&& 0 <= nanos < 1_000_000_000
    &&& -86_400 < offset < 86_400
}

impl View for Timestamp {
    type V = TimeModel;

    closed spec fn view(&self) -> TimeModel {
        TimeModel { secs: self.secs as int, nanos: self.nanos as int, offset: self.offset as int }
    }
}

impl TimeModel {
    /// Seconds of the local clock since the start of 1 January 1970.
    pub open spec fn local(self) -> int {
        self.secs + self.offset
    }

    /// Number of the local calendar day; day 0 is 1 January 1970.
    pub open spec fn day(self) -> int {
        self.local() / 86_400
    }

    /// Hour of the local day.
    pub open spec fn hour(self) -> int {
        self.local() % 86_400 / 3600
    }

    /// Minute of the local hour.
    pub open spec fn minute(self) -> int {
        self.local() % 3600 / 60
    }

    /// Second of the local minute.
    pub open spec fn second(self) -> int {
        self.local() % 60
    }

    /// Nanoseconds since the Unix epoch.
    pub open spec fn instant(self) -> int {
        self.secs * 1_000_000_000 + self.nanos
    }

    /// `HH:MM` of the local clock.
    pub open spec fn hm(self) -> Seq<char> {
        two(self.hour()) + seq![':'] + two(self.minute())
    }

    /// `HH:MM:SS` of the local clock.
    pub open spec fn hms(self) -> Seq<char> {
        self.hm() + seq![':'] + two(self.second())
    }
}

/// A number below one hundred in two digits.
pub open spec fn two(n: int) -> Seq<char> {
    seq![text::digit((n / 10) as nat), text::digit((n % 10) as nat)]
}

/// Whether a year of the Gregorian calendar, carried on in both directions, has 366
/// days. The year before year 1 is year 0.
pub open spec fn is_leap(year: int) -> bool {
    year % 4 == 0 && (year % 100 != 0 || year % 400 == 0)
}

/// Days of a year before its month `month`, of 1 to 12; for 13 all of them.
pub open spec fn days_before_month(year: int, month: int) -> int {
    let leap_day: int = if is_leap(year) && month > 2 {
        1
    } else {
        0
    };
    leap_day + seq![0int, 31, 59, 90, 120, 151, 181, 212, 243, 273, 304, 334, 365][month - 1]
}

/// Number of the first day of a year; day 0 is 1 January 1970. From year 1 to 1969
/// there are 477 leap years.
pub open spec fn first_day(year: int) -> int {
    365 * (year - 1970) + (year - 1) / 4 - (year - 1) / 100 + (year - 1) / 400 - 477
}

/// Whether the day with this number has this year, month and day of the month.
pub open spec fn is_date(day: int, date: (int, int, int)) -> bool {
    let (y, m, d) = date;
    &&& 1 <= m <= 12
    &&& 1 <= d <= days_before_month(y, m + 1) - days_before_month(y, m)
    &&& day == first_day(y) + days_before_month(y, m) + d - 1
}

/// The year, the month and the day of the month of the day with this number. Years
/// are counted from March on, so that a leap day is the last of its year: 400 years
/// have 146097 days; the first three hundreds of them have 36524 each, and the last
/// one has the rest; four years have 1461 days, the first three 365 each. Five
/// months, from March or from August on, have 153.
pub open spec fn civil(day: int) -> (int, int, int) {
    let z = day + 719_468;
    let rest = z % 146_097;
    let hundreds = at_most_three(rest / 36_524);
    let fours = (rest - 36_524 * hundreds) / 1461;
    let left = rest - 36_524 * hundreds - 1461 * fours;
    let ones = at_most_three(left / 365);
    let year = 400 * (z / 146_097) + 100 * hundreds + 4 * fours + ones;
    let yday = left - 365 * ones;
    let month = (5 * yday + 2) / 153;
    let mday = yday - (153 * month + 2) / 5 + 1;
    if month < 10 {
        (year, month + 3, mday)
    } else {
        (year + 1, month - 9, mday)
    }
}

/// The number, but three where it is more.
pub open spec fn at_most_three(n: int) -> int {
    if n < 3 {
        n
    } else {
        3
    }
}

/// A number in at least four digits.
pub open spec fn four(n: nat) -> Seq<char> {
    if n < 1000 {
        seq!['0', text::digit(n / 100)] + two((n % 100) as int)
    } else {
        text::decimal(n)
    }
}

/// A year in at least four digits, with a sign where it is before year 0 or behind
/// year 9999.
pub open spec fn year_text(year: int) -> Seq<char> {
    if year < 0 {
        seq!['-'] + four((-year) as nat)
    } else if year > 9999 {
        seq!['+'] + four(year as nat)
    } else {
        four(year as nat)
    }
}

/// `YYYY-MM-DD` of the day with this number.
pub open spec fn date_text(day: int) -> Seq<char> {
    let (y, m, d) = civil(day);
    year_text(y) + seq!['-'] + two(m) + seq!['-'] + two(d)
}

/// Whole milliseconds from `prev` to `next`, cut towards zero.
pub open spec fn millis_between(prev: TimeModel, next: TimeModel) -> int {
    let d = next.instant() - prev.instant();
    if d >= 0 {
        d / 1_000_000
    } else {
        -((-d) / 1_000_000)
    }
}

/// `DateTime::signed_duration_since` and `TimeDelta::num_milliseconds` of chrono:
/// the whole milliseconds between two instants, cut towards zero.
#[verifier::external_body]
fn chrono_millis(prev: &Timestamp, next: &Timestamp) -> (ms: i64)
    requires
        valid_time(prev@.secs, prev@.nanos, prev@.offset),
        valid_time(next@.secs, next@.nanos, next@.offset),
    ensures
        ms == millis_between(prev@, next@),
{
    let a = chrono::DateTime::from_timestamp(prev.secs, prev.nanos).unwrap();
    let b = chrono::DateTime::from_timestamp(next.secs, next.nanos).unwrap();
    b.signed_duration_since(a).num_milliseconds()
}

/// `DateTime::format` of chrono, with the local offset, for three patterns. The
/// two patterns of the clock give the two-digit numbers of the local time of day;
/// the pattern of the date gives year, month and day of the local day in the
/// Gregorian calendar.
#[verifier::external_body]
fn chrono_format(t: &Timestamp, pattern: &str) -> (r: String)
    requires
        valid_time(t@.secs, t@.nanos, t@.offset),
        pattern@ == "%H:%M"@ || pattern@ == "%H:%M:%S"@ || pattern@ == "%Y-%m-%d"@,
    ensures
        pattern@ == "%H:%M"@ ==> r@ == t@.hm(),
        pattern@ == "%H:%M:%S"@ ==> r@ == t@.hms(),
        pattern@ == "%Y-%m-%d"@ ==> r@ == date_text(t@.day()),
{
    let zone = chrono::FixedOffset::east_opt(t.offset).unwrap();
    let utc = chrono::DateTime::from_timestamp(t.secs, t.nanos).unwrap();
    utc.with_timezone(&zone).format(pattern).to_string()
}

/// `DateTime::date_naive` of chrono, compared with `==`: whether two points in time
/// fall on the same calendar day, each in its own local offset.
#[verifier::external_body]
fn chrono_same_day(a: &Timestamp, b: &Timestamp) -> (r: bool)
    requires
        valid_time(a@.secs, a@.nanos, a@.offset),
        valid_time(b@.secs, b@.nanos, b@.offset),
    ensures
        r == (a@.day() == b@.day()),
{
    let za = chrono::FixedOffset::east_opt(a.offset).unwrap();
    let zb = chrono::FixedOffset::east_opt(b.offset).unwrap();
    let ta = chrono::DateTime::from_timestamp(a.secs, a.nanos).unwrap();
    let tb = chrono::DateTime::from_timestamp(b.secs, b.nanos).unwrap();
    ta.with_timezone(&za).date_naive() == tb.with_timezone(&zb).date_naive()
}

impl Timestamp {
    #[verifier::type_invariant]
    spec fn inv(self) -> bool {
        valid_time(self.secs as int, self.nanos as int, self.offset as int)
    }

    /// A point in time, where the numbers make one.
    pub fn new(secs: i64, nanos: u32, offset: i32) -> (r: Option<Timestamp>)
        ensures
            match r {
                Some(t) => valid_time(secs as int, nanos as int, offset as int) && t@ == (
                TimeModel { secs: secs as int, nanos: nanos as int, offset: offset as int }),
                None => !valid_time(secs as int, nanos as int, offset as int),
            },
    {
        if MIN_SECS <= secs && secs <= MAX_SECS && nanos < 1_000_000_000 && -86_400 < offset
            && offset < 86_400 {
            Some(Timestamp { secs, nanos, offset })
        } else {
            None
        }
    }

    /// Seconds since the Unix epoch.
    pub fn secs(&self) -> (r: i64)
        ensures
            r == self@.secs,
    {
        self.secs
    }

    /// Nanoseconds within the second.
    pub fn nanos(&self) -> (r: u32)
        ensures
            r == self@.nanos,
    {
        self.nanos
    }

    /// Offset of local time from UTC, in seconds.
    pub fn offset(&self) -> (r: i32)
        ensures
            r == self@.offset,
    {
        self.offset
    }

    /// Whole milliseconds from this point in time to a later one; negative when
    /// `next` is earlier.
    pub fn millis_until(&self, next: &Timestamp) -> (ms: i64)
        ensures
            ms == millis_between(self@, next@),
    {
        proof {
            use_type_invariant(self);
            use_type_invariant(next);
        }
        chrono_millis(self, next)
    }

    /// `HH:MM` of the local clock.
    pub fn hm(&self) -> (r: String)
        ensures
            r@ == self@.hm(),
    {
        proof {
            use_type_invariant(self);
        }
        chrono_format(self, "%H:%M")
    }

    /// `HH:MM:SS` of the local clock.
    pub fn hms(&self) -> (r: String)
        ensures
            r@ == self@.hms(),
    {
        proof {
            use_type_invariant(self);
        }
        chrono_format(self, "%H:%M:%S")
    }

    /// `YYYY-MM-DD` of the local calendar.
    pub fn date(&self) -> (r: String)
        ensures
            r@ == date_text(self@.day()),
    {
        proof {
            use_type_invariant(self);
        }
        chrono_format(self, "%Y-%m-%d")
    }

    /// Whether both fall on the same day of the local calendar.
    pub fn same_day(&self, other: &Timestamp) -> (r: bool)
        ensures
            r == (self@.day() == other@.day()),
    {
        proof {
            use_type_invariant(self);
            use_type_invariant(other);
        }
        chrono_same_day(self, other)
    }
}

/// Every day has exactly one date, the one that is written for it.
pub proof fn every_day_has_one_date(day: int, date: (int, int, int))
    ensures
        is_date(day, civil(day)),
        is_date(day, date) ==> date == civil(day),
{
    lemma_civil_is_date(day);
    let (y, m, d) = date;
    if is_date(day, date) {
        let c = civil(day);
        lemma_within_year(day, date);
        lemma_within_year(day, c);
        if y < c.0 {
            lemma_years_follow(y, c.0);
        } else if y > c.0 {
            lemma_years_follow(c.0, y);
        }
    }
}

proof fn lemma_civil_is_date(day: int)
    ensures
        is_date(day, civil(day)),
{
    let z = day + 719_468;
    let era = z / 146_097;
    let rest = z % 146_097;
    let hundreds = at_most_three(rest / 36_524);
    let within = rest - 36_524 * hundreds;
    let fours = within / 1461;
    let left = within - 1461 * fours;
    let ones = at_most_three(left / 365);
    let year = 400 * era + 100 * hundreds + 4 * fours + ones;
    let yday = left - 365 * ones;
    assert(0 <= hundreds <= 3 && 0 <= within <= 36_524);
    assert(within == 36_524 ==> hundreds == 3);
    assert(0 <= fours <= 24 && 0 <= left <= 1460);
    assert(0 <= ones <= 3 && 0 <= yday <= 365);
    assert(year / 4 == 100 * era + 25 * hundreds + fours);
    assert(year / 100 == 4 * era + hundreds);
    assert(year / 400 == era);
    assert(day + 719_468 == 365 * year + year / 4 - year / 100 + year / 400 + yday);
    assert(yday == 365 ==> is_leap(year + 1));
    let month = (5 * yday + 2) / 153;
    assert(0 <= month <= 11);
    assert(first_day(year + 1) == 365 * year + year / 4 - year / 100 + year / 400 - 719_162);
    assert(first_day(year + 1) == first_day(year) + days_before_month(year, 13));
}

proof fn lemma_within_year(day: int, date: (int, int, int))
    requires
        is_date(day, date),
    ensures
        first_day(date.0) <= day < first_day(date.0 + 1),
{
}

proof fn lemma_years_follow(a: int, b: int)
    requires
        a < b,
    ensures
        first_day(a + 1) <= first_day(b),
    decreases b - a,
{
    if a + 1 < b {
        lemma_years_follow(a, b - 1);
    }
}

/// The local clock: days, hours, minutes and seconds together are the local seconds,
/// each within its bounds, and each is written in two digits that stand for it.
pub proof fn clock_counts_local_seconds(t: TimeModel)
    ensures
        t.day() * 86_400 + t.hour() * 3600 + t.minute() * 60 + t.second() == t.secs + t.offset,
        0 <= t.hour() < 24,
        0 <= t.minute() < 60,
        0 <= t.second() < 60,
        t.hms().len() == 8,
        t.hms()[2] == ':',
        t.hms()[5] == ':',
        t.hms().take(5) == t.hm(),
        text::number_in(t.hms().subrange(0, 2)) == t.hour(),
        text::number_in(t.hms().subrange(3, 5)) == t.minute(),
        text::number_in(t.hms().subrange(6, 8)) == t.second(),
{
    lemma_parts_of_a_day(t.local());
    lemma_clock_is_written(t);
}

proof fn lemma_parts_of_a_day(local: int)
    ensures
        local / 86_400 * 86_400 + local % 86_400 / 3600 * 3600 + local % 3600 / 60 * 60 + local % 60
            == local,
        0 <= local % 86_400 / 3600 < 24,
        0 <= local % 3600 / 60 < 60,
        0 <= local % 60 < 60,
{
    let q = local / 86_400;
    let r = local % 86_400;
    let h = r / 3600;
    let rest = r % 3600;
    vstd::arithmetic::div_mod::lemma_fundamental_div_mod_converse(local, 3600, 24 * q + h, rest);
    let m = rest / 60;
    let s = rest % 60;
    vstd::arithmetic::div_mod::lemma_fundamental_div_mod_converse(
        local,
        60,
        1440 * q + 60 * h + m,
        s,
    );
}

proof fn lemma_clock_is_written(t: TimeModel)
    requires
        0 <= t.hour() < 24,
        0 <= t.minute() < 60,
        0 <= t.second() < 60,
    ensures
        t.hms().len() == 8,
        t.hms()[2] == ':',
        t.hms()[5] == ':',
        t.hms().take(5) == t.hm(),
        text::number_in(t.hms().subrange(0, 2)) == t.hour(),
        text::number_in(t.hms().subrange(3, 5)) == t.minute(),
        text::number_in(t.hms().subrange(6, 8)) == t.second(),
{
    lemma_two_stands_for(t.hour());
    lemma_two_stands_for(t.minute());
    lemma_two_stands_for(t.second());
    assert(t.hms().take(5) =~= t.hm());
    assert(t.hms().subrange(0, 2) =~= two(t.hour()));
    assert(t.hms().subrange(3, 5) =~= two(t.minute()));
    assert(t.hms().subrange(6, 8) =~= two(t.second()));
}

proof fn lemma_two_stands_for(n: int)
    requires
        0 <= n < 100,
    ensures
        two(n).len() == 2,
        text::number_in(two(n)) == n,
{
    let s = two(n);
    assert(s.drop_last().drop_last() =~= Seq::<char>::empty());
    assert(text::number_in(s.drop_last().drop_last()) == 0);
    assert(s.drop_last().last() == s[0]);
    assert(text::number_in(s.drop_last()) == n / 10);
}

/// The time between two instants in whole milliseconds: what is left of it is less
/// than a millisecond, and turning the two round turns the sign.
pub proof fn millis_are_cut_towards_zero(prev: TimeModel, next: TimeModel)
    ensures
        ({
            let ms = millis_between(prev, next);
            let ns = (next.secs - prev.secs) * 1_000_000_000 + (next.nanos - prev.nanos);
            &&& ns >= 0 ==> 0 <= ns - ms * 1_000_000 < 1_000_000
            &&& ns < 0 ==> 0 <= ms * 1_000_000 - ns < 1_000_000
            &&& millis_between(next, prev) == -ms
        }),
{
}

/// A date is written as its year in four digits, its month and its day of the month
/// in two each, with dashes between them; a year that needs more digits, or lies before
/// year 0, has a sign.
pub proof fn dates_are_written_in_full(day: int)
    ensures
        ({
            let (y, m, d) = civil(day);
            let s = date_text(day);
            let n = s.len() as int;
            &&& n >= 10
            &&& s[n - 3] == '-' && s[n - 6] == '-'
            &&& text::number_in(s.subrange(n - 5, n - 3)) == m
            &&& text::number_in(s.subrange(n - 2, n)) == d
            &&& 0 <= y <= 9999 ==> n == 10 && text::number_in(s.subrange(0, 4)) == y
            &&& y > 9999 ==> s[0] == '+' && text::number_in(s.subrange(1, n - 6)) == y
            &&& y < 0 ==> s[0] == '-' && text::number_in(s.subrange(1, n - 6)) == -y
        }),
{
    let (y, m, d) = civil(day);
    let s = date_text(day);
    let n = s.len() as int;
    lemma_civil_is_date(day);
    assert(1 <= m <= 12 && 1 <= d <= 31);
    lemma_two_stands_for(m);
    lemma_two_stands_for(d);
    lemma_four_stands_for(
        if y < 0 {
            (-y) as nat
        } else {
            y as nat
        },
    );
    assert(s.subrange(n - 5, n - 3) =~= two(m));
    assert(s.subrange(n - 2, n) =~= two(d));
    if y < 0 {
        assert(s.subrange(1, n - 6) =~= four((-y) as nat));
    } else if y > 9999 {
        assert(s.subrange(1, n - 6) =~= four(y as nat));
    } else {
        assert(s.subrange(0, 4) =~= four(y as nat));
    }
}

proof fn lemma_four_stands_for(n: nat)
    ensures
        four(n).len() >= 4,
        n <= 9999 ==> four(n).len() == 4,
        text::number_in(four(n)) == n,
{
    if n < 1000 {
        let s = four(n);
        lemma_two_stands_for((n % 100) as int);
        let rest = two((n % 100) as int);
        assert(s.len() == 4);
        let three = s.drop_last();
        let pair = three.drop_last();
        let one = pair.drop_last();
        assert(one.drop_last() =~= Seq::<char>::empty());
        assert(text::number_in(one.drop_last()) == 0);
        assert(one.last() == '0');
        assert(text::number_in(one) == 0);
        assert(pair.last() == text::digit(n / 100));
        assert(text::number_in(pair) == n / 100);
        assert(three.last() == rest[0]);
        assert(s.last() == rest[1]);
        assert(text::number_in(three) == 10 * (n / 100) + (n % 100) / 10);
        assert(text::number_in(s) == n);
    } else {
        text::decimal_stands_for_its_number(n);
        lemma_decimal_length(n);
    }
}

proof fn lemma_decimal_length(n: nat)
    requires
        n >= 1000,
    ensures
        text::decimal(n).len() >= 4,
        n <= 9999 ==> text::decimal(n).len() == 4,
{
    reveal_with_fuel(text::decimal, 5);
}

} // verus!
