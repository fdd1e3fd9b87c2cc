//! Proleptic Gregorian calendar arithmetic and the exchange timestamps
//! counted in milliseconds from the start of 1 January of year 1.
use chrono::Datelike;
use vstd::arithmetic::div_mod::{lemma_fundamental_div_mod, lemma_fundamental_div_mod_converse};
use vstd::prelude::*;

use crate::error::ExportError;
use crate::text::{fixed_digits, is_digit, lemma_fixed_digits_shape, nat_text, push_fixed, push_nat};

verus! {

/// Milliseconds in one day.
pub const MS_PER_DAY: i64 = 86_400_000;

/// The earliest year that the calendar backend represents.
pub const MIN_YEAR: i32 = -262143;

/// The latest year that the calendar backend represents.
pub const MAX_YEAR: i32 = 262142;

pub open spec fn is_leap_year(y: int) -> bool {
    y % 4 == 0 && (y % 100 != 0 || y % 400 == 0)
}

pub open spec fn year_length(y: int) -> int {
    if is_leap_year(y) {
        366
    } else {
        365
    }
}

pub open spec fn days_in_month(y: int, m: int) -> int {
    if m == 2 {
        if is_leap_year(y) {
            29
        } else {
            28
        }
    } else if m == 4 || m == 6 || m == 9 || m == 11 {
        30
    } else {
        31
    }
}

/// Days of year `y` that come before the first of month `m`.
pub open spec fn days_before_month(y: int, m: int) -> int {
    let l: int = if is_leap_year(y) {
        1
    } else {
        0
    };
    if m <= 1 {
        0
    } else if m == 2 {
        31
    } else if m == 3 {
        59 + l
    } else if m == 4 {
        90 + l
    } else if m == 5 {
        120 + l
    } else if m == 6 {
        151 + l
    } else if m == 7 {
        181 + l
    } else if m == 8 {
        212 + l
    } else if m == 9 {
        243 + l
    } else if m == 10 {
        273 + l
    } else if m == 11 {
        304 + l
    } else {
        334 + l
    }
}

/// Days from 1 January of year 1 to 1 January of year `y` (negative before it).
pub open spec fn days_before_year(y: int) -> int {
    let p = y - 1;
    365 * p + p / 4 - p / 100 + p / 400
}

pub open spec fn is_valid_date(y: int, m: int, d: int) -> bool {
    1 <= m <= 12 && 1 <= d <= days_in_month(y, m)
}

/// The day number of a date, 1 January of year 1 being day 1.
pub open spec fn ce_day(y: int, m: int, d: int) -> int {
    days_before_year(y) + days_before_month(y, m) + d
}

/// The first day number that the calendar backend represents.
pub open spec fn first_ce_day() -> int {
    ce_day(MIN_YEAR as int, 1, 1)
}

/// The last day number that the calendar backend represents.
pub open spec fn last_ce_day() -> int {
    ce_day(MAX_YEAR as int, 12, 31)
}

/// Relies on chrono::NaiveDate::from_num_days_from_ce_opt, which gives the
/// proleptic Gregorian date of a day number (1 January of year 1 being day 1)
/// and `None` where that date falls outside chrono's years.
#[verifier::external_body]
fn date_of_ce_day(days: i32) -> (r: Option<(i32, u32, u32)>)
    ensures
        match r {
            Some((y, m, d)) => MIN_YEAR <= y <= MAX_YEAR && is_valid_date(y as int, m as int, d as int)
                && ce_day(y as int, m as int, d as int) == days,
            None => days < first_ce_day() || days > last_ce_day(),
        },
{
    match chrono::NaiveDate::from_num_days_from_ce_opt(days) {
        Some(d) => Some((d.year(), d.month(), d.day())),
        None => None,
    }
}

/// A UTC instant with millisecond resolution, as calendar fields.
#[derive(Clone, Copy, Debug, PartialEq, Eq, Structural)]
pub struct UtcTime {
    pub year: i32,
    pub month: u32,
    pub day: u32,
    pub hour: u32,
    pub minute: u32,
    pub second: u32,
    pub millisecond: u32,
}

impl UtcTime {
    /// The fields name a real date and a time of day.
    pub open spec fn wf(self) -> bool {
        &&& is_valid_date(self.year as int, self.month as int, self.day as int)
        &&& self.hour < 24
        &&& self.minute < 60
        &&& self.second < 60
        &&& self.millisecond < 1000
    }

    /// Milliseconds since the start of 1 January of year 1.
    pub open spec fn ce_millis(self) -> int {
        (ce_day(self.year as int, self.month as int, self.day as int) - 1) * MS_PER_DAY
            + self.hour * 3_600_000 + self.minute * 60_000 + self.second * 1000
            + self.millisecond
    }
}

/// A year as four digits, zero-padded; outside 0 to 9999 with a sign in front.
pub open spec fn year_text(y: int) -> Seq<char> {
    if 0 <= y <= 9999 {
        fixed_digits(y as nat, 4)
    } else {
        let a: nat = if y < 0 {
            (-y) as nat
        } else {
            y as nat
        };
        let sign = if y < 0 {
            '-'
        } else {
            '+'
        };
        seq![sign] + if a < 10000 {
            fixed_digits(a, 4)
        } else {
            nat_text(a)
        }
    }
}

/// `DD.MM.YYYY HH:MM:SS.mmm`.
pub open spec fn time_text(t: UtcTime) -> Seq<char> {
    fixed_digits(t.day as nat, 2) + seq!['.'] + fixed_digits(t.month as nat, 2) + seq!['.']
        + year_text(t.year as int) + seq![' '] + fixed_digits(t.hour as nat, 2) + seq![':']
        + fixed_digits(t.minute as nat, 2) + seq![':'] + fixed_digits(t.second as nat, 2)
        + seq!['.'] + fixed_digits(t.millisecond as nat, 3)
}

fn push_year(s: &mut String, y: i32)
    ensures
        final(s)@ == old(s)@ + year_text(y as int),
{
    let ghost s0 = s@;
    proof {
        reveal_strlit("-");
        reveal_strlit("+");
    }
    if 0 <= y && y <= 9999 {
        push_fixed(s, y as u64, 4);
    } else {
        let a: u64 = if y < 0 {
            s.append("-");
            (0i64 - y as i64) as u64
        } else {
            s.append("+");
            y as u64
        };
        let ghost s1 = s@;
        if a < 10000 {
            push_fixed(s, a, 4);
        } else {
            push_nat(s, a);
        }
        assert(s@ =~= s0 + year_text(y as int));
    }
}

impl UtcTime {
    /// The instant as `DD.MM.YYYY HH:MM:SS.mmm`.
    pub fn to_text(&self) -> (r: String)
        ensures
            r@ == time_text(*self),
    {
        proof {
            reveal_strlit(".");
            reveal_strlit(":");
            reveal_strlit(" ");
            assert("."@ =~= seq!['.']);
            assert(":"@ =~= seq![':']);
            assert(" "@ =~= seq![' ']);
        }
        let mut s = String::new();
        push_fixed(&mut s, self.day as u64, 2);
        s.append(".");
        push_fixed(&mut s, self.month as u64, 2);
        s.append(".");
        push_year(&mut s, self.year);
        s.append(" ");
        push_fixed(&mut s, self.hour as u64, 2);
        s.append(":");
        push_fixed(&mut s, self.minute as u64, 2);
        s.append(":");
        push_fixed(&mut s, self.second as u64, 2);
        s.append(".");
        push_fixed(&mut s, self.millisecond as u64, 3);
        assert(s@ =~= time_text(*self));
        s
    }
}

/// Milliseconds since the start of 1 January of year 1.
#[derive(Clone, Copy, Debug, PartialEq, Eq, Structural)]
pub struct CeTime {
    pub ms: i64,
}

/// Whether the instant `ms` milliseconds after the start of 1 January of
/// year 1 has a representable date.
pub open spec fn ce_millis_in_range(ms: int) -> bool {
    first_ce_day() <= ms / (MS_PER_DAY as int) + 1 <= last_ce_day()
}

impl CeTime {
    pub fn new(ms: i64) -> (r: CeTime)
        ensures
            r.ms == ms,
    {
        CeTime { ms }
    }

    /// The calendar instant `self.ms` milliseconds after midnight, UTC, at
    /// the start of 1 January of year 1.
    pub fn to_utc(self) -> (r: Result<UtcTime, ExportError>)
        ensures
            match r {
                Ok(t) => ce_millis_in_range(self.ms as int) && t.wf() && t.ce_millis() == self.ms
                    && t == utc_of_millis(self.ms as int),
                Err(e) => !ce_millis_in_range(self.ms as int) && e == ExportError::TimestampOutOfRange,
            },
    {
        let ms = self.ms;
        assert(i64::MIN <= (ms as int) / (MS_PER_DAY as int) <= i64::MAX) by (nonlinear_arith)
            requires
                i64::MIN <= ms <= i64::MAX,
        ;
        let q: i64 = match ms.checked_div_euclid(MS_PER_DAY) {
            Some(q) => q,
            None => return Err(ExportError::TimestampOutOfRange),
        };
        let r: i64 = match ms.checked_rem_euclid(MS_PER_DAY) {
            Some(r) => r,
            None => return Err(ExportError::TimestampOutOfRange),
        };
        proof {
            lemma_fundamental_div_mod(ms as int, MS_PER_DAY as int);
        }
        if q >= i32::MAX as i64 || q < i32::MIN as i64 {
            return Err(ExportError::TimestampOutOfRange);
        }
        let (year, month, day) = match date_of_ce_day((q + 1) as i32) {
            Some(date) => date,
            None => return Err(ExportError::TimestampOutOfRange),
        };
        let r: u32 = r as u32;
        let hour = r / 3_600_000;
        let r1 = r % 3_600_000;
        let minute = r1 / 60_000;
        let r2 = r1 % 60_000;
        let second = r2 / 1000;
        let millisecond = r2 % 1000;
        proof {
            lemma_fundamental_div_mod(r as int, 3_600_000);
            lemma_fundamental_div_mod(r1 as int, 60_000);
            lemma_fundamental_div_mod(r2 as int, 1000);
        }
        let t = UtcTime { year, month, day, hour, minute, second, millisecond };
        proof {
            let c = utc_of_millis(ms as int);
            assert(t.ce_millis() == ms);
            assert(c.wf() && c.ce_millis() == ms);
            lemma_ce_millis_injective(t, c);
        }
        Ok(t)
    }
}

proof fn lemma_div_step(x: int, d: int)
    requires
        d > 0,
    ensures
        (x + 1) / d == x / d + (if (x + 1) % d == 0 {
            1int
        } else {
            0int
        }),
{
    let q = x / d;
    let r = x % d;
    lemma_fundamental_div_mod(x, d);
    assert(x == q * d + r) by (nonlinear_arith)
        requires
            x == d * q + r,
    ;
    if r == d - 1 {
        assert(x + 1 == (q + 1) * d + 0) by (nonlinear_arith)
            requires
                x == q * d + r,
                r == d - 1,
        ;
        lemma_fundamental_div_mod_converse(x + 1, d, q + 1, 0);
    } else {
        lemma_fundamental_div_mod_converse(x + 1, d, q, r + 1);
    }
}

proof fn lemma_year_step(y: int)
    ensures
        days_before_year(y + 1) == days_before_year(y) + year_length(y),
{
    let p = y - 1;
    lemma_div_step(p, 4);
    lemma_div_step(p, 100);
    lemma_div_step(p, 400);
    lemma_mod_of_multiple(y, 4, 25);
    lemma_mod_of_multiple(y, 100, 4);
    let a = (p + 1) / 4 - p / 4;
    let b = (p + 1) / 100 - p / 100;
    let c = (p + 1) / 400 - p / 400;
    assert(days_before_year(y + 1) == days_before_year(y) + 365 + a - b + c);
}

proof fn lemma_mod_of_multiple(y: int, a: int, k: int)
    requires
        a > 0,
        k > 0,
    ensures
        y % (a * k) == 0 ==> y % a == 0,
{
    if y % (a * k) == 0 {
        assert(a * k > 0) by (nonlinear_arith)
            requires
                a > 0,
                k > 0,
        ;
        let q = y / (a * k);
        lemma_fundamental_div_mod(y, a * k);
        assert(y == (q * k) * a + 0) by (nonlinear_arith)
            requires
                y == (a * k) * q + y % (a * k),
                y % (a * k) == 0,
        ;
        lemma_fundamental_div_mod_converse(y, a, q * k, 0);
    }
}

proof fn lemma_years_ordered(a: int, b: int)
    requires
        a < b,
    ensures
        days_before_year(a) + year_length(a) <= days_before_year(b),
    decreases b - a,
{
    lemma_year_step(a);
    if b > a + 1 {
        lemma_years_ordered(a + 1, b);
    }
}

proof fn lemma_dates_ordered(y1: int, m1: int, d1: int, y2: int, m2: int, d2: int)
    requires
        is_valid_date(y1, m1, d1),
        is_valid_date(y2, m2, d2),
        (y1, m1, d1) != (y2, m2, d2),
        y1 < y2 || (y1 == y2 && (m1 < m2 || (m1 == m2 && d1 < d2))),
    ensures
        ce_day(y1, m1, d1) < ce_day(y2, m2, d2),
{
    if y1 < y2 {
        lemma_years_ordered(y1, y2);
    }
}

/// Two valid dates with the same day number are the same date.
proof fn lemma_ce_day_injective(y1: int, m1: int, d1: int, y2: int, m2: int, d2: int)
    requires
        is_valid_date(y1, m1, d1),
        is_valid_date(y2, m2, d2),
        ce_day(y1, m1, d1) == ce_day(y2, m2, d2),
    ensures
        y1 == y2 && m1 == m2 && d1 == d2,
{
    if (y1, m1, d1) != (y2, m2, d2) {
        if y1 < y2 || (y1 == y2 && (m1 < m2 || (m1 == m2 && d1 < d2))) {
            lemma_dates_ordered(y1, m1, d1, y2, m2, d2);
        } else {
            lemma_dates_ordered(y2, m2, d2, y1, m1, d1);
        }
    }
}

/// A well-formed instant is fixed by its millisecond count.
pub proof fn lemma_ce_millis_injective(a: UtcTime, b: UtcTime)
    requires
        a.wf(),
        b.wf(),
        a.ce_millis() == b.ce_millis(),
    ensures
        a == b,
{
    let ca = a.hour * 3_600_000 + a.minute * 60_000 + a.second * 1000 + a.millisecond;
    let cb = b.hour * 3_600_000 + b.minute * 60_000 + b.second * 1000 + b.millisecond;
    let da = ce_day(a.year as int, a.month as int, a.day as int) - 1;
    let db = ce_day(b.year as int, b.month as int, b.day as int) - 1;
    let ms = a.ce_millis();
    lemma_fundamental_div_mod_converse(ms, MS_PER_DAY as int, da, ca);
    lemma_fundamental_div_mod_converse(ms, MS_PER_DAY as int, db, cb);
    let ra = a.minute * 60_000 + a.second * 1000 + a.millisecond;
    let rb = b.minute * 60_000 + b.second * 1000 + b.millisecond;
    lemma_fundamental_div_mod_converse(ca, 3_600_000, a.hour as int, ra);
    lemma_fundamental_div_mod_converse(ca, 3_600_000, b.hour as int, rb);
    let sa = a.second * 1000 + a.millisecond;
    let sb = b.second * 1000 + b.millisecond;
    lemma_fundamental_div_mod_converse(ra, 60_000, a.minute as int, sa);
    lemma_fundamental_div_mod_converse(ra, 60_000, b.minute as int, sb);
    lemma_fundamental_div_mod_converse(sa, 1000, a.second as int, a.millisecond as int);
    lemma_fundamental_div_mod_converse(sa, 1000, b.second as int, b.millisecond as int);
    lemma_ce_day_injective(
        a.year as int,
        a.month as int,
        a.day as int,
        b.year as int,
        b.month as int,
        b.day as int,
    );
}

/// The well-formed instant `ms` milliseconds after the start of 1 January of
/// year 1 (it is unique: see `lemma_ce_millis_injective`).
pub open spec fn utc_of_millis(ms: int) -> UtcTime {
    choose|t: UtcTime| t.wf() && t.ce_millis() == ms
}

/// The text of an instant depends on its millisecond count alone, and always
/// has a two-digit day and month and three millisecond digits:
/// `DD.MM.` in front and `.mmm` at the end.
pub proof fn lemma_time_text_determined(a: UtcTime, b: UtcTime)
    requires
        a.wf(),
        b.wf(),
        a.ce_millis() == b.ce_millis(),
    ensures
        time_text(a) == time_text(b),
        time_text(a).len() >= 20,
        time_text(a)[2] == '.',
        time_text(a)[5] == '.',
        time_text(a)[time_text(a).len() - 4] == '.',
        forall|i: int|
            (0 <= i < 2 || 3 <= i < 5 || time_text(a).len() - 3 <= i < time_text(a).len())
                ==> is_digit(#[trigger] time_text(a)[i]),
{
    lemma_ce_millis_injective(a, b);
    lemma_fixed_digits_shape(a.day as nat, 2);
    lemma_fixed_digits_shape(a.month as nat, 2);
    lemma_fixed_digits_shape(a.hour as nat, 2);
    lemma_fixed_digits_shape(a.minute as nat, 2);
    lemma_fixed_digits_shape(a.second as nat, 2);
    lemma_fixed_digits_shape(a.millisecond as nat, 3);
    let y = a.year as int;
    if !(0 <= y <= 9999) {
        let m: nat = if y < 0 {
            (-y) as nat
        } else {
            y as nat
        };
        if m < 10000 {
            lemma_fixed_digits_shape(m, 4);
        } else {
            crate::text::lemma_nat_text_nonempty(m);
        }
    } else {
        lemma_fixed_digits_shape(y as nat, 4);
    }
    let s = time_text(a);
    let dd = fixed_digits(a.day as nat, 2);
    let mm = fixed_digits(a.month as nat, 2);
    let ms = fixed_digits(a.millisecond as nat, 3);
    let head = dd + seq!['.'] + mm + seq!['.'];
    let rest = year_text(y) + seq![' '] + fixed_digits(a.hour as nat, 2) + seq![':']
        + fixed_digits(a.minute as nat, 2) + seq![':'] + fixed_digits(a.second as nat, 2);
    assert(s =~= head + rest + seq!['.'] + ms);
    assert forall|i: int|
        (0 <= i < 2 || 3 <= i < 5 || s.len() - 3 <= i < s.len()) implies is_digit(#[trigger] s[i]) by {
        if 0 <= i < 2 {
            assert(s[i] == dd[i]);
        } else if 3 <= i < 5 {
            assert(s[i] == mm[i - 3]);
        } else {
            assert(s[i] == ms[i - (s.len() - 3)]);
        }
    }
}

} // verus!
