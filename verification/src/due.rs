//! The due brief: a schema declares the deadline axis of a type, and the
//! engine renders what is due next as one deterministic markdown brief.
//!
//! The brief depends on the store and on today's date alone: filter, sort,
//! render. The date is an argument, taken once per invocation by the caller.

use crate::engine::{schema_of, Engine, MountedBackend};
use crate::entity::{meta_value, section_body, Entity, MetadataValue};
use crate::schema::{DueAxis, Schema};
use crate::sort::{is_strict_order, sorted, stable_sort, views, Ranked};
use crate::text::{
    before, byte_prefix, byte_prefix_of, chars_of, debug_form, debug_quoted, decimal, decimal_of,
    join, join_list, lex_less, lines, lines_of, listed, next_char, next_of, number, own, pad_zeros,
    padded, parse_number, same, slice_of, texts, trim, trimmed,
};
use crate::workspace::MountCapability;
use std::sync::Arc;
use vstd::prelude::*;

verus! {

/// The window that applies where none is given.
pub const DEFAULT_DUE_WINDOW: &'static str = "90d";

/// A relative window: days, calendar months or calendar years.
#[derive(Debug, Clone, Copy, PartialEq, Eq, Structural)]
pub enum DueWindow {
    Days(u32),
    Months(u32),
    Years(u32),
}

/// What is said of an input that is no window.
pub open spec fn window_error(input: Seq<char>) -> Seq<char> {
    "invalid window "@ + debug_form(input)
        + ": expected <N>d (days), <N>m (months), or <N>y (years) — e.g. 90d, 6m, 2y"@
}

/// The window that `input` writes: a number that fits in 32 bits, then one
/// of the units `d`, `m` and `y`.
pub open spec fn window_of(input: Seq<char>) -> Option<DueWindow> {
    if input.len() == 0 {
        None
    } else {
        match number(input.drop_last(), u32::MAX as nat) {
            None => None,
            Some(n) => if input.last() == 'd' {
                Some(DueWindow::Days(n as u32))
            } else if input.last() == 'm' {
                Some(DueWindow::Months(n as u32))
            } else if input.last() == 'y' {
                Some(DueWindow::Years(n as u32))
            } else {
                None
            },
        }
    }
}

/// Parse a relative window (`90d`, `6m`, `2y`). The error names the accepted
/// forms.
pub fn parse_due_window(input: &str) -> (r: Result<DueWindow, String>)
    ensures
        match r {
            Ok(w) => window_of(input@) == Some(w),
            Err(e) => window_of(input@) is None && e@ == window_error(input@),
        },
{
    let x = chars_of(input);
    let refusal = "invalid window ".to_owned().concat(&debug_quoted(input)).concat(
        ": expected <N>d (days), <N>m (months), or <N>y (years) — e.g. 90d, 6m, 2y",
    );
    if x.len() == 0 {
        return Err(refusal);
    }
    let last: usize = x.len() - 1;
    let num = slice_of(&x, 0, last);
    assert(num@ =~= input@.drop_last());
    let n: u32 = match parse_number(&num, u32::MAX as u64) {
        Some(n) => n as u32,
        None => {
            return Err(refusal);
        },
    };
    if x[last] == 'd' {
        Ok(DueWindow::Days(n))
    } else if x[last] == 'm' {
        Ok(DueWindow::Months(n))
    } else if x[last] == 'y' {
        Ok(DueWindow::Years(n))
    } else {
        Err(refusal)
    }
}

// ---------------------------------------------------------------------
// The civil calendar
// ---------------------------------------------------------------------

/// A civil date: year, month, day.
pub type Ymd = (i64, u32, u32);

/// Years up to this distance from the year zero have day numbers that fit in
/// 64 bits.
pub const YEAR_LIMIT: i64 = 25_252_734_927_760_000;

/// Whether a year is a leap year of the Gregorian calendar.
pub open spec fn is_leap(y: int) -> bool {
    (y % 4 == 0 && y % 100 != 0) || y % 400 == 0
}

/// The number of days in a month.
pub open spec fn days_in_month(y: int, m: int) -> int {
    if m == 4 || m == 6 || m == 9 || m == 11 {
        30
    } else if m == 2 {
        if is_leap(y) {
            29
        } else {
            28
        }
    } else {
        31
    }
}

/// Days from the first day of the year 1 to the first day of the year `y`.
pub open spec fn days_before_year(y: int) -> int {
    365 * (y - 1) + (y - 1) / 4 - (y - 1) / 100 + (y - 1) / 400
}

/// Days from the first day of a year to the first day of its month `m`.
pub open spec fn days_before_month(y: int, m: int) -> int
    decreases m,
{
    if m <= 1 {
        0
    } else {
        days_before_month(y, m - 1) + days_in_month(y, m - 1)
    }
}

/// Days from 1970-01-01 to a date of the Gregorian calendar.
pub open spec fn day_number(y: int, m: int, d: int) -> int {
    days_before_year(y) + days_before_month(y, m) + d - 1 - days_before_year(1970)
}

/// Whether a date exists.
pub open spec fn is_date(y: int, m: int, d: int) -> bool {
    1 <= m <= 12 && 1 <= d <= days_in_month(y, m)
}

/// The months of a year, written out.
pub proof fn lemma_months(y: int)
    ensures
        days_before_month(y, 1) == 0,
        days_before_month(y, 2) == 31,
        days_before_month(y, 3) == 59 + (if is_leap(y) { 1int } else { 0 }),
        days_before_month(y, 4) == 90 + (if is_leap(y) { 1int } else { 0 }),
        days_before_month(y, 5) == 120 + (if is_leap(y) { 1int } else { 0 }),
        days_before_month(y, 6) == 151 + (if is_leap(y) { 1int } else { 0 }),
        days_before_month(y, 7) == 181 + (if is_leap(y) { 1int } else { 0 }),
        days_before_month(y, 8) == 212 + (if is_leap(y) { 1int } else { 0 }),
        days_before_month(y, 9) == 243 + (if is_leap(y) { 1int } else { 0 }),
        days_before_month(y, 10) == 273 + (if is_leap(y) { 1int } else { 0 }),
        days_before_month(y, 11) == 304 + (if is_leap(y) { 1int } else { 0 }),
        days_before_month(y, 12) == 334 + (if is_leap(y) { 1int } else { 0 }),
        days_before_month(y, 13) == 365 + (if is_leap(y) { 1int } else { 0 }),
{
    reveal_with_fuel(days_before_month, 14);
}

/// A year has 365 days, a leap year one more.
#[verifier::spinoff_prover]
pub proof fn lemma_year_step(y: int)
    ensures
        days_before_year(y + 1) == days_before_year(y) + 365 + (if is_leap(y) { 1int } else { 0 }),
{
}

/// The days before a year, counted by eras of 400 years.
proof fn lemma_era(era: int, yoe: int)
    requires
        0 <= yoe < 400,
    ensures
        days_before_year(400 * era + yoe + 1) == 146097 * era + 365 * yoe + yoe / 4 - yoe / 100,
{
    assert((400 * era + yoe) / 4 == 100 * era + yoe / 4);
    assert((400 * era + yoe) / 100 == 4 * era + yoe / 100);
    assert((400 * era + yoe) / 400 == era);
}

/// The days before a month, counted from March on.
proof fn lemma_march(y: int, m: int)
    requires
        1 <= m <= 12,
    ensures
        m > 2 ==> days_before_month(y, m) == (153 * (m - 3) + 2) / 5 + 59 + (if is_leap(y) {
            1int
        } else {
            0
        }),
        m <= 2 ==> days_before_month(y, m) == (153 * (m + 9) + 2) / 5 - 306,
{
    lemma_months(y);
}

/// `a / b` rounded down.
fn floor_div(a: i64, b: i64) -> (r: i64)
    requires
        0 < b,
    ensures
        r as int == (a as int) / (b as int),
{
    if a >= 0 {
        a / b
    } else {
        let q: i64 = (-(a + 1)) / b;
        proof {
            let n = -(a as int) - 1;
            let k = b as int;
            assert(-1 - n / k == (-1 - n) / k) by (nonlinear_arith)
                requires
                    k > 0,
                    n >= 0,
            ;
            assert(n / k <= n) by (nonlinear_arith)
                requires
                    k > 0,
                    n >= 0,
            ;
        }
        -1 - q
    }
}

/// The day number of a date; a day past the end of its month counts on.
pub fn days_from_civil(y: i64, m: u32, d: u32) -> (r: i64)
    requires
        -YEAR_LIMIT <= y <= YEAR_LIMIT,
        1 <= m <= 12,
        d <= 31,
    ensures
        r == day_number(y as int, m as int, d as int),
{
    let yy: i64 = if m <= 2 {
        y - 1
    } else {
        y
    };
    let era: i64 = floor_div(yy, 400);
    let yoe: i64 = yy - era * 400;
    assert(0 <= yoe < 400);
    let mp: i64 = ((m + 9) % 12) as i64;
    let doy: i64 = (153 * mp + 2) / 5 + d as i64 - 1;
    let doe: i64 = yoe * 365 + yoe / 4 - yoe / 100 + doy;
    proof {
        lemma_era(era as int, yoe as int);
        lemma_march(y as int, m as int);
        lemma_year_step(y as int);
        assert(yy == 400 * era + yoe);
        assert(days_before_year(1970) == 719162);
    }
    era * 146097 + doe - 719468
}

/// The month and day that stand `doy` days after the first of March, as
/// (months after March, day of the month).
fn march_day(doy: i64) -> (r: (i64, i64))
    requires
        0 <= doy <= 365,
    ensures
        0 <= r.0 <= 11,
        1 <= r.1 <= 31,
        doy == (153 * r.0 + 2) / 5 + r.1 - 1,
        doy < (153 * (r.0 + 1) + 2) / 5,
{
    let mp: i64 = (5 * doy + 2) / 153;
    let d: i64 = doy - (153 * mp + 2) / 5 + 1;
    (mp, d)
}

/// The date that a decomposition of a day number gives: `c` centuries, `q`
/// groups of four years, `k` years and the month `mp` after March.
#[verifier::spinoff_prover]
#[verifier::rlimit(60)]
proof fn lemma_decomposed(era: int, c: int, q: int, k: int, doy: int, mp: int, d: int)
    requires
        0 <= c <= 3,
        0 <= q <= 24,
        0 <= k <= 3,
        0 <= doy <= 365,
        doy == 365 ==> k == 3 && (q == 24 ==> c == 3),
        0 <= mp <= 11,
        doy == (153 * mp + 2) / 5 + d - 1,
        doy < (153 * (mp + 1) + 2) / 5,
        1 <= d,
    ensures
        ({
            let y = 400 * era + 100 * c + 4 * q + k;
            let m = if mp < 10 {
                mp + 3
            } else {
                mp - 9
            };
            let yr = if m <= 2 {
                y + 1
            } else {
                y
            };
            is_date(yr, m, d) && day_number(yr, m, d) == 146097 * era + 36524 * c + 1461 * q + 365
                * k + doy - 719468
        }),
{
    let yoe = 100 * c + 4 * q + k;
    let y = 400 * era + yoe;
    let m = if mp < 10 {
        mp + 3
    } else {
        mp - 9
    };
    let yr = if m <= 2 {
        y + 1
    } else {
        y
    };
    lemma_era(era, yoe);
    lemma_march(yr, m);
    lemma_year_step(yr);
    assert(days_before_year(1970) == 719162);
    assert(yoe / 4 == 25 * c + q);
    assert(yoe / 100 == c);
    if doy == 365 {
        assert((y + 1) % 4 == 0);
        if q == 24 {
            assert(y + 1 == 400 * (era + 1));
            assert((y + 1) % 400 == 0);
        } else {
            assert(y + 1 == 100 * (4 * era + c) + 4 * (q + 1));
            assert((y + 1) % 100 == 4 * (q + 1));
        }
    }
}

/// The date whose day number is `z`.
pub open spec fn date_of(z: int) -> (int, int, int) {
    choose|t: (int, int, int)| is_date(t.0, t.1, t.2) && #[trigger] day_number(t.0, t.1, t.2) == z
}

/// The date with a day number.
fn civil_from_days(z: i64) -> (r: (i64, u32, u32))
    requires
        z <= i64::MAX - 719468,
    ensures
        is_date(r.0 as int, r.1 as int, r.2 as int),
        day_number(r.0 as int, r.1 as int, r.2 as int) == z,
        (r.0 as int, r.1 as int, r.2 as int) == date_of(z as int),
        -30_000_000_000_000_000 < r.0,
{
    let z1: i64 = z + 719468;
    let era: i64 = floor_div(z1, 146097);
    let doe: i64 = z1 - era * 146097;
    assert(0 <= doe < 146097);
    let c: i64 = if doe >= 3 * 36524 {
        3
    } else {
        doe / 36524
    };
    let in_century: i64 = doe - c * 36524;
    let q: i64 = in_century / 1461;
    let in_group: i64 = in_century - q * 1461;
    let k: i64 = if in_group >= 3 * 365 {
        3
    } else {
        in_group / 365
    };
    let doy: i64 = in_group - k * 365;
    let yoe: i64 = 100 * c + 4 * q + k;
    let (mp, d) = march_day(doy);
    let y: i64 = yoe + era * 400;
    let m: i64 = if mp < 10 {
        mp + 3
    } else {
        mp - 9
    };
    let yr: i64 = if m <= 2 {
        y + 1
    } else {
        y
    };
    proof {
        lemma_decomposed(
            era as int,
            c as int,
            q as int,
            k as int,
            doy as int,
            mp as int,
            d as int,
        );
        law_date_of(yr as int, m as int, d as int);
    }
    (yr, m as u32, d as u32)
}

/// The civil date of a number of days since 1970-01-01.
pub fn civil_from_days_pub(days_since_epoch: i64) -> (r: (i64, u32, u32))
    requires
        days_since_epoch <= i64::MAX - 719468,
    ensures
        is_date(r.0 as int, r.1 as int, r.2 as int),
        day_number(r.0 as int, r.1 as int, r.2 as int) == days_since_epoch,
        (r.0 as int, r.1 as int, r.2 as int) == date_of(days_since_epoch as int),
{
    civil_from_days(days_since_epoch)
}

/// Later years start later.
proof fn lemma_years_grow(y1: int, y2: int)
    requires
        y1 <= y2,
    ensures
        days_before_year(y1) + 365 * (y2 - y1) <= days_before_year(y2),
    decreases y2 - y1,
{
    if y1 < y2 {
        lemma_years_grow(y1, y2 - 1);
        lemma_year_step(y2 - 1);
    }
}

/// Two dates with one day number are one date: the day number determines
/// year, month and day, so converting a date to its number and back gives
/// the date again.
pub proof fn law_day_number_injective(y1: int, m1: int, d1: int, y2: int, m2: int, d2: int)
    requires
        is_date(y1, m1, d1),
        is_date(y2, m2, d2),
        day_number(y1, m1, d1) == day_number(y2, m2, d2),
    ensures
        y1 == y2,
        m1 == m2,
        d1 == d2,
{
    lemma_months(y1);
    lemma_months(y2);
    if y1 < y2 {
        lemma_years_grow(y1 + 1, y2);
        lemma_year_step(y1);
    } else if y2 < y1 {
        lemma_years_grow(y2 + 1, y1);
        lemma_year_step(y2);
    }
}

/// Converting a date to its day number and back gives the date again.
pub proof fn law_date_of(y: int, m: int, d: int)
    requires
        is_date(y, m, d),
    ensures
        date_of(day_number(y, m, d)) == (y, m, d),
{
    let t = (y, m, d);
    assert(is_date(t.0, t.1, t.2) && day_number(t.0, t.1, t.2) == day_number(y, m, d));
    let u = date_of(day_number(y, m, d));
    law_day_number_injective(y, m, d, u.0, u.1, u.2);
}

/// Day numbers follow the calendar: the later of two dates has the larger
/// number.
pub proof fn law_day_number_monotone(y1: int, m1: int, d1: int, y2: int, m2: int, d2: int)
    requires
        is_date(y1, m1, d1),
        is_date(y2, m2, d2),
        y1 < y2 || (y1 == y2 && (m1 < m2 || (m1 == m2 && d1 < d2))),
    ensures
        day_number(y1, m1, d1) < day_number(y2, m2, d2),
{
    lemma_months(y1);
    lemma_months(y2);
    if y1 < y2 {
        lemma_years_grow(y1 + 1, y2);
        lemma_year_step(y1);
    }
}

/// The last day of a month.
pub fn last_day_of_month(y: i64, m: u32) -> (r: u32)
    requires
        1 <= m <= 12,
    ensures
        r == days_in_month(y as int, m as int),
{
    if m == 1 || m == 3 || m == 5 || m == 7 || m == 8 || m == 10 || m == 12 {
        31
    } else if m == 4 || m == 6 || m == 9 || m == 11 {
        30
    } else {
        let y4: Option<i64> = y.checked_rem_euclid(4);
        let y100: Option<i64> = y.checked_rem_euclid(100);
        let y400: Option<i64> = y.checked_rem_euclid(400);
        if (y4 == Some(0i64) && y100 != Some(0i64)) || y400 == Some(0i64) {
            29
        } else {
            28
        }
    }
}

/// The decimal form of a year: a minus sign where it is negative, and zeros
/// in front up to four characters.
pub open spec fn year_text(y: int) -> Seq<char> {
    if y < 0 {
        "-"@ + pad_zeros(decimal((-y) as nat), 3)
    } else {
        pad_zeros(decimal(y as nat), 4)
    }
}

/// A date in the form `YYYY-MM-DD`.
pub open spec fn iso_date(y: int, m: int, d: int) -> Seq<char> {
    year_text(y) + "-"@ + pad_zeros(decimal(m as nat), 2) + "-"@ + pad_zeros(decimal(d as nat), 2)
}

/// A date in the form `YYYY-MM-DD`.
fn format_date(y: i64, m: u32, d: u32) -> (r: String)
    requires
        y > i64::MIN,
    ensures
        r@ == iso_date(y as int, m as int, d as int),
{
    let year = if y < 0 {
        "-".to_owned().concat(&padded((-y) as u64, 3))
    } else {
        padded(y as u64, 4)
    };
    year.concat("-").concat(&padded(m as u64, 2)).concat("-").concat(&padded(d as u64, 2))
}

/// The smaller of two numbers.
pub open spec fn at_most(a: int, b: int) -> int {
    if a < b {
        a
    } else {
        b
    }
}

/// The date that lies a window after `(y, m, d)`: so many days later, or the
/// same day so many months or years later, clamped to the end of its month.
pub open spec fn shifted(y: int, m: int, d: int, window: DueWindow) -> (int, int, int) {
    match window {
        DueWindow::Days(n) => date_of(day_number(y, m, d) + n),
        DueWindow::Months(n) => {
            let total = y * 12 + (m - 1) + n;
            let ny = total / 12;
            let nm = total % 12 + 1;
            (ny, nm, at_most(d, days_in_month(ny, nm)))
        },
        DueWindow::Years(n) => (y + n, m, at_most(d, days_in_month(y + n, m))),
    }
}

/// `today + window` in the form `YYYY-MM-DD`.
pub open spec fn end_text(y: int, m: int, d: int, window: DueWindow) -> Seq<char> {
    let end = shifted(y, m, d, window);
    iso_date(end.0, end.1, end.2)
}

/// Whether the end of a window fits the machine: the day number of a window
/// in days, the month count of one in months, the year of one in years.
pub open spec fn window_fits(y: int, m: int, window: DueWindow) -> bool {
    match window {
        DueWindow::Days(n) => -YEAR_LIMIT <= y <= YEAR_LIMIT - 20_000_000,
        DueWindow::Months(n) => i64::MIN <= 12 * y && 12 * y + (m - 1) + n <= i64::MAX,
        DueWindow::Years(n) => i64::MIN < y && y + n <= i64::MAX,
    }
}

/// `today + window` as an ISO date. Month and year addition clamps the day
/// of the month (Jan 31 + 1m = Feb 28 or 29).
pub fn window_end(today: (i64, u32, u32), window: &DueWindow) -> (r: String)
    requires
        window_fits(today.0 as int, today.1 as int, *window),
        1 <= today.1 <= 12,
        today.2 <= 31,
    ensures
        r@ == end_text(today.0 as int, today.1 as int, today.2 as int, *window),
{
    let (y, m, d) = today;
    let end: (i64, u32, u32) = match window {
        DueWindow::Days(n) => {
            proof {
                lemma_years_grow(y as int, YEAR_LIMIT - 20_000_000);
                lemma_months(y as int);
            }
            civil_from_days(days_from_civil(y, m, d) + *n as i64)
        },
        DueWindow::Months(n) => {
            let total: i64 = (y * 12 + (m as i64 - 1)) + *n as i64;
            let ny: i64 = floor_div(total, 12);
            let nm: u32 = (total - ny * 12 + 1) as u32;
            let last = last_day_of_month(ny, nm);
            (
                ny,
                nm,
                if d < last {
                    d
                } else {
                    last
                },
            )
        },
        DueWindow::Years(n) => {
            let ny: i64 = y + *n as i64;
            let last = last_day_of_month(ny, m);
            (
                ny,
                m,
                if d < last {
                    d
                } else {
                    last
                },
            )
        },
    };
    format_date(end.0, end.1, end.2)
}

/// The date that a text of the form `YYYY-MM-DD...` writes: a year up to
/// the first dash, a month up to the second, and two characters of a day.
pub open spec fn ymd_of(s: Seq<char>) -> Option<(int, int, int)> {
    let a = next_char(s, '-', 0);
    let b = next_char(s, '-', a + 1);
    if a >= s.len() || b >= s.len() || s.len() - (b + 1) < 2 {
        None
    } else {
        match (
            number(s.subrange(0, a), i64::MAX as nat),
            number(s.subrange(a + 1, b), u32::MAX as nat),
            number(s.subrange(b + 1, b + 3), u32::MAX as nat),
        ) {
            (Some(y), Some(m), Some(d)) => if 1 <= m <= 12 && 1 <= d <= 31 {
                Some((y as int, m as int, d as int))
            } else {
                None
            },
            _ => None,
        }
    }
}

/// The date that a text writes.
fn parse_ymd(s: &str) -> (r: Option<(i64, u32, u32)>)
    ensures
        match r {
            Some(t) => ymd_of(s@) == Some((t.0 as int, t.1 as int, t.2 as int)) && t.0 >= 0 && 1
                <= t.1 <= 12 && 1 <= t.2 <= 31,
            None => ymd_of(s@) is None,
        },
{
    let x = chars_of(s);
    let n: usize = x.len();
    let a = next_of(&x, '-', 0);
    if a >= n {
        return None;
    }
    let b = next_of(&x, '-', a + 1);
    if b >= n || n - (b + 1) < 2 {
        return None;
    }
    let y: i64 = match parse_number(&slice_of(&x, 0, a), i64::MAX as u64) {
        Some(y) => y as i64,
        None => {
            return None;
        },
    };
    let m: u32 = match parse_number(&slice_of(&x, a + 1, b), u32::MAX as u64) {
        Some(m) => m as u32,
        None => {
            return None;
        },
    };
    let d: u32 = match parse_number(&slice_of(&x, b + 1, b + 3), u32::MAX as u64) {
        Some(d) => d as u32,
        None => {
            return None;
        },
    };
    if 1 <= m && m <= 12 && 1 <= d && d <= 31 {
        Some((y, m, d))
    } else {
        None
    }
}

// ---------------------------------------------------------------------
// The brief
// ---------------------------------------------------------------------

/// One entry of the brief, as it reads.
pub struct DueLine {
    pub mem: Seq<char>,
    pub third_party: bool,
    pub id: Seq<char>,
    pub title: Seq<char>,
    pub date: Seq<char>,
    pub status: Seq<char>,
    pub lead: Option<(Seq<char>, Seq<char>)>,
    pub overdue: bool,
}

/// One entry of the brief.
struct DueEntry {
    mem: String,
    third_party: bool,
    id: String,
    title: String,
    date: String,
    status: String,
    lead: Option<(String, String)>,
    overdue: bool,
}

impl View for DueEntry {
    type V = DueLine;

    closed spec fn view(&self) -> DueLine {
        DueLine {
            mem: self.mem@,
            third_party: self.third_party,
            id: self.id@,
            title: self.title@,
            date: self.date@,
            status: self.status@,
            lead: match self.lead {
                Some(l) => Some((l.0@, l.1@)),
                None => None,
            },
            overdue: self.overdue,
        }
    }
}

/// The order of the brief: overdue entries first, each block by date, entries
/// of one date by id.
pub open spec fn due_before(a: DueLine, b: DueLine) -> bool {
    if a.overdue != b.overdue {
        a.overdue
    } else if a.date != b.date {
        lex_less(a.date, b.date)
    } else {
        lex_less(a.id, b.id)
    }
}

impl Ranked for DueEntry {
    closed spec fn ranks_before(a: DueLine, b: DueLine) -> bool {
        due_before(a, b)
    }

    fn goes_before(&self, other: &Self) -> (r: bool) {
        if self.overdue != other.overdue {
            self.overdue
        } else if !same(&self.date, &other.date) {
            before(&self.date, &other.date)
        } else {
            before(&self.id, &other.id)
        }
    }
}

/// The order of the brief is a strict order.
pub proof fn law_due_order()
    ensures
        is_strict_order(|a: DueLine, b: DueLine| due_before(a, b)),
{
    let less = |a: DueLine, b: DueLine| due_before(a, b);
    assert forall|a: DueLine| !#[trigger] less(a, a) by {
        crate::text::lemma_lex_irreflexive(a.id);
    }
    assert forall|a: DueLine, b: DueLine, c: DueLine| #[trigger]
        less(a, b) && #[trigger] less(b, c) implies less(a, c) by {
        if a.date != b.date && b.date != c.date && lex_less(a.date, b.date) && lex_less(
            b.date,
            c.date,
        ) {
            crate::text::lemma_lex_transitive(a.date, b.date, c.date);
            crate::text::lemma_lex_irreflexive(a.date);
        }
        if lex_less(a.id, b.id) && lex_less(b.id, c.id) {
            crate::text::lemma_lex_transitive(a.id, b.id, c.id);
        }
    }
    assert forall|a: DueLine, b: DueLine, c: DueLine| #[trigger]
        less(a, c) && !#[trigger] less(b, c) implies less(a, b) by {
        crate::text::lemma_lex_total(a.date, b.date);
        crate::text::lemma_lex_total(b.date, c.date);
        crate::text::lemma_lex_total(a.id, b.id);
        crate::text::lemma_lex_total(b.id, c.id);
        if lex_less(b.date, a.date) && lex_less(a.date, c.date) {
            crate::text::lemma_lex_transitive(b.date, a.date, c.date);
        }
        if lex_less(b.id, a.id) && lex_less(a.id, c.id) {
            crate::text::lemma_lex_transitive(b.id, a.id, c.id);
        }
        if lex_less(c.date, b.date) && lex_less(a.date, c.date) {
            crate::text::lemma_lex_transitive(a.date, c.date, b.date);
        }
        if lex_less(c.id, b.id) && lex_less(a.id, c.id) {
            crate::text::lemma_lex_transitive(a.id, c.id, b.id);
        }
        crate::text::lemma_lex_irreflexive(a.date);
        crate::text::lemma_lex_irreflexive(a.id);
    }
}

/// In the brief an overdue entry never stands behind one that is not, and
/// within each block the dates ascend.
pub proof fn law_brief_is_ordered(entries: Seq<DueLine>, i: int, j: int)
    requires
        0 <= i < j < entries.len(),
    ensures
        ({
            let out = sorted(entries, |a: DueLine, b: DueLine| due_before(a, b));
            &&& out.len() == entries.len()
            &&& out.to_multiset() == entries.to_multiset()
            &&& out[j].overdue ==> out[i].overdue
            &&& out[i].overdue == out[j].overdue ==> !lex_less(out[j].date, out[i].date)
            &&& out[i].overdue == out[j].overdue && out[i].date == out[j].date ==> !lex_less(
                out[j].id,
                out[i].id,
            )
        }),
{
    let less = |a: DueLine, b: DueLine| due_before(a, b);
    let out = sorted(entries, less);
    law_due_order();
    crate::sort::law_sorted_keeps(entries, less);
    crate::sort::law_sorted_is_ordered(entries, less);
    assert(!less(out[j], out[i]));
    if out[i].date == out[j].date {
        crate::text::lemma_lex_irreflexive(out[i].date);
    }
}

/// Whether some type of a schema declares a deadline axis.
pub open spec fn declares_due(schema: Schema) -> bool {
    exists|i: int| 0 <= i < schema.types@.len() && (#[trigger] schema.types@[i]).due is Some
}

/// The lead section of an entity under an axis, trimmed, where it has text.
pub open spec fn lead_of(e: Entity, due: DueAxis) -> Option<(Seq<char>, Seq<char>)> {
    match due.lead_section {
        None => None,
        Some(key) => match section_body(e.sections@, key@, 0) {
            Some(body) => if trim(body).len() == 0 {
                None
            } else {
                Some((key@, trim(body)))
            },
            None => None,
        },
    }
}

/// What a brief takes its entries by: today, and the last day of the window,
/// both in ISO form.
pub struct Span {
    pub today: Seq<char>,
    pub end: Seq<char>,
}

/// The entry of an entity: it is of the mem and written, its type declares an
/// axis, its status is open, and its date is a date in the window.
pub open spec fn due_line(
    e: Entity,
    schema: Schema,
    mem: Seq<char>,
    third_party: bool,
    span: Span,
) -> Option<DueLine> {
    if e.mem@ != mem || e.stub {
        None
    } else {
        match schema.type_named(e.entity_type@) {
            None => None,
            Some(td) => match td.due {
                None => None,
                Some(due) => match (
                    meta_value(e.metadata@, due.status_field@, 0),
                    meta_value(e.metadata@, due.date_field@, 0),
                ) {
                    (Some(MetadataValue::String(status)), Some(MetadataValue::String(date))) => {
                        let day = byte_prefix(date@, 10);
                        if !texts(due.open_values@).contains(status@) || ymd_of(day) is None
                            || lex_less(span.end, day) {
                            None
                        } else {
                            Some(
                                DueLine {
                                    mem,
                                    third_party,
                                    id: e.id.0@,
                                    title: e.title@,
                                    date: day,
                                    status: status@,
                                    lead: lead_of(e, due),
                                    overdue: lex_less(day, span.today),
                                },
                            )
                        }
                    },
                    _ => None,
                },
            },
        }
    }
}

/// The entries of the entities of one mem.
pub open spec fn mem_lines(
    es: Seq<Entity>,
    schema: Schema,
    mem: Seq<char>,
    third_party: bool,
    span: Span,
) -> Seq<DueLine>
    decreases es.len(),
{
    if es.len() == 0 {
        Seq::empty()
    } else {
        let head = mem_lines(es.drop_last(), schema, mem, third_party, span);
        match due_line(es.last(), schema, mem, third_party, span) {
            Some(l) => head.push(l),
            None => head,
        }
    }
}

/// Whether the brief looks at a mount: it passes the filter, and its schema
/// declares an axis.
pub open spec fn takes_part<B>(
    m: MountedBackend<B>,
    schemas: Seq<(String, Arc<Schema>)>,
    filter: Option<Seq<char>>,
) -> bool {
    &&& match filter {
        Some(f) => m.mount.mem@ == f,
        None => true,
    }
    &&& match schema_of(schemas, m.mount.mem@) {
        Some(s) => declares_due(*s),
        None => false,
    }
}

/// The entries of every mount that takes part.
pub open spec fn all_lines<B>(
    mounts: Seq<MountedBackend<B>>,
    es: Seq<Entity>,
    schemas: Seq<(String, Arc<Schema>)>,
    filter: Option<Seq<char>>,
    span: Span,
) -> Seq<DueLine>
    decreases mounts.len(),
{
    if mounts.len() == 0 {
        Seq::empty()
    } else {
        let head = all_lines(mounts.drop_last(), es, schemas, filter, span);
        let m = mounts.last();
        if takes_part(m, schemas, filter) {
            head + mem_lines(
                es,
                *schema_of(schemas, m.mount.mem@)->0,
                m.mount.mem@,
                m.mount.capability == MountCapability::ReadOnly,
                span,
            )
        } else {
            head
        }
    }
}

/// Whether an entry is that of an entity at some mount that takes part.
pub open spec fn is_owed<B>(
    mounts: Seq<MountedBackend<B>>,
    es: Seq<Entity>,
    schemas: Seq<(String, Arc<Schema>)>,
    filter: Option<Seq<char>>,
    span: Span,
    l: DueLine,
) -> bool {
    exists|i: int|
        0 <= i < mounts.len() && takes_part(#[trigger] mounts[i], schemas, filter) && is_line_of(
            es,
            *schema_of(schemas, mounts[i].mount.mem@)->0,
            mounts[i].mount.mem@,
            mounts[i].mount.capability == MountCapability::ReadOnly,
            span,
            l,
        )
}

/// Whether an entry is that of one of the entities.
pub open spec fn is_line_of(
    es: Seq<Entity>,
    schema: Schema,
    mem: Seq<char>,
    third_party: bool,
    span: Span,
    l: DueLine,
) -> bool {
    exists|j: int|
        0 <= j < es.len() && due_line(#[trigger] es[j], schema, mem, third_party, span) == Some(l)
}

proof fn lemma_mem_lines(
    es: Seq<Entity>,
    schema: Schema,
    mem: Seq<char>,
    third_party: bool,
    span: Span,
    l: DueLine,
)
    ensures
        mem_lines(es, schema, mem, third_party, span).contains(l) <==> is_line_of(
            es,
            schema,
            mem,
            third_party,
            span,
            l,
        ),
    decreases es.len(),
{
    if es.len() > 0 {
        let front = es.drop_last();
        let head = mem_lines(front, schema, mem, third_party, span);
        let all = mem_lines(es, schema, mem, third_party, span);
        lemma_mem_lines(front, schema, mem, third_party, span, l);
        if is_line_of(es, schema, mem, third_party, span, l) {
            let j = choose|j: int|
                0 <= j < es.len() && due_line(#[trigger] es[j], schema, mem, third_party, span)
                    == Some(l);
            if j < front.len() {
                assert(front[j] == es[j]);
                let k = choose|k: int| 0 <= k < head.len() && head[k] == l;
                assert(all[k] == l);
            } else {
                assert(all[head.len() as int] == l);
            }
        }
        if all.contains(l) {
            let k = choose|k: int| 0 <= k < all.len() && all[k] == l;
            if k < head.len() {
                assert(head[k] == l);
                let j = choose|j: int|
                    0 <= j < front.len() && due_line(
                        #[trigger] front[j],
                        schema,
                        mem,
                        third_party,
                        span,
                    ) == Some(l);
                assert(es[j] == front[j]);
            } else {
                assert(due_line(es[es.len() - 1], schema, mem, third_party, span) == Some(l));
            }
        }
    }
}

proof fn lemma_all_lines<B>(
    mounts: Seq<MountedBackend<B>>,
    es: Seq<Entity>,
    schemas: Seq<(String, Arc<Schema>)>,
    filter: Option<Seq<char>>,
    span: Span,
    l: DueLine,
)
    ensures
        all_lines(mounts, es, schemas, filter, span).contains(l) <==> is_owed(
            mounts,
            es,
            schemas,
            filter,
            span,
            l,
        ),
    decreases mounts.len(),
{
    if mounts.len() > 0 {
        let front = mounts.drop_last();
        let m = mounts.last();
        let head = all_lines(front, es, schemas, filter, span);
        let all = all_lines(mounts, es, schemas, filter, span);
        let schema = *schema_of(schemas, m.mount.mem@)->0;
        let foreign = m.mount.capability == MountCapability::ReadOnly;
        let tail = mem_lines(es, schema, m.mount.mem@, foreign, span);
        lemma_all_lines(front, es, schemas, filter, span, l);
        lemma_mem_lines(es, schema, m.mount.mem@, foreign, span, l);
        if is_owed(mounts, es, schemas, filter, span, l) {
            let i = choose|i: int|
                0 <= i < mounts.len() && takes_part(#[trigger] mounts[i], schemas, filter)
                    && is_line_of(
                    es,
                    *schema_of(schemas, mounts[i].mount.mem@)->0,
                    mounts[i].mount.mem@,
                    mounts[i].mount.capability == MountCapability::ReadOnly,
                    span,
                    l,
                );
            if i < front.len() {
                assert(front[i] == mounts[i]);
                let k = choose|k: int| 0 <= k < head.len() && head[k] == l;
                assert(all[k] == l);
            } else {
                let k = choose|k: int| 0 <= k < tail.len() && tail[k] == l;
                assert(all[head.len() + k] == l);
            }
        }
        if all.contains(l) {
            let k = choose|k: int| 0 <= k < all.len() && all[k] == l;
            if k < head.len() {
                assert(head[k] == l);
                assert(is_owed(front, es, schemas, filter, span, l));
                let i = choose|i: int|
                    0 <= i < front.len() && takes_part(#[trigger] front[i], schemas, filter)
                        && is_line_of(
                        es,
                        *schema_of(schemas, front[i].mount.mem@)->0,
                        front[i].mount.mem@,
                        front[i].mount.capability == MountCapability::ReadOnly,
                        span,
                        l,
                    );
                assert(mounts[i] == front[i]);
            } else {
                assert(tail[k - head.len()] == l);
                assert(takes_part(mounts[mounts.len() - 1], schemas, filter));
            }
        }
    }
}

/// The brief holds the entry of every open entity in the window and no other
/// entry. None lies past the end of the window, and an entry is a third
/// party's where its mem is mounted read-only.
pub proof fn law_brief_holds_what_is_owed<B>(
    mounts: Seq<MountedBackend<B>>,
    es: Seq<Entity>,
    schemas: Seq<(String, Arc<Schema>)>,
    filter: Option<Seq<char>>,
    span: Span,
    l: DueLine,
)
    ensures
        all_lines(mounts, es, schemas, filter, span).contains(l) <==> is_owed(
            mounts,
            es,
            schemas,
            filter,
            span,
            l,
        ),
        is_owed(mounts, es, schemas, filter, span, l) ==> !lex_less(span.end, l.date)
            && exists|i: int|
            0 <= i < mounts.len() && (#[trigger] mounts[i]).mount.mem@ == l.mem && l.third_party
                == (mounts[i].mount.capability == MountCapability::ReadOnly),
{
    lemma_all_lines(mounts, es, schemas, filter, span, l);
}

/// The mems that take part, in mount order.
pub open spec fn declaring<B>(
    mounts: Seq<MountedBackend<B>>,
    schemas: Seq<(String, Arc<Schema>)>,
    filter: Option<Seq<char>>,
) -> Seq<Seq<char>>
    decreases mounts.len(),
{
    if mounts.len() == 0 {
        Seq::empty()
    } else {
        let head = declaring(mounts.drop_last(), schemas, filter);
        if takes_part(mounts.last(), schemas, filter) {
            head.push(mounts.last().mount.mem@)
        } else {
            head
        }
    }
}

/// A list without the items that equal the one before them.
pub open spec fn dedup(s: Seq<Seq<char>>) -> Seq<Seq<char>>
    decreases s.len(),
{
    if s.len() == 0 {
        s
    } else {
        let head = dedup(s.drop_last());
        if s.len() > 1 && s[s.len() - 2] == s.last() {
            head
        } else {
            head.push(s.last())
        }
    }
}

/// How many entries are overdue.
pub open spec fn overdue_count(s: Seq<DueLine>) -> nat
    decreases s.len(),
{
    if s.len() == 0 {
        0
    } else {
        overdue_count(s.drop_last()) + (if s.last().overdue {
            1nat
        } else {
            0nat
        })
    }
}

/// Lines under a prefix, each with its line feed.
pub open spec fn prefixed(ls: Seq<Seq<char>>, prefix: Seq<char>) -> Seq<char>
    decreases ls.len(),
{
    if ls.len() == 0 {
        Seq::empty()
    } else {
        prefixed(ls.drop_last(), prefix) + (prefix + ls.last() + "\n"@)
    }
}

/// A lead section in the brief. Third-party content is quoted.
pub open spec fn lead_text(key: Seq<char>, body: Seq<char>, third_party: bool) -> Seq<char> {
    if third_party {
        "  - "@ + key + " (third-party, quoted):\n"@ + prefixed(lines(body), "    > "@)
    } else {
        "  - "@ + key + ":\n"@ + prefixed(lines(body), "    "@)
    }
}

/// An entry in the brief.
pub open spec fn entry_text(l: DueLine) -> Seq<char> {
    "- `"@ + l.id + "` — "@ + l.title + " — **"@ + l.date + "**"@ + (if l.overdue {
        " **OVERDUE**"@
    } else {
        ""@
    }) + " (status: "@ + l.status + ", mem: "@ + l.mem + (if l.third_party {
        " [third-party]"@
    } else {
        ""@
    }) + ")\n"@ + (match l.lead {
        Some(x) => lead_text(x.0, x.1, l.third_party),
        None => Seq::empty(),
    })
}

/// The entries of the brief.
pub open spec fn entries_text(s: Seq<DueLine>) -> Seq<char>
    decreases s.len(),
{
    if s.len() == 0 {
        Seq::empty()
    } else {
        entries_text(s.drop_last()) + entry_text(s.last())
    }
}

/// A window as it was given.
pub open spec fn window_label(w: DueWindow) -> Seq<char> {
    match w {
        DueWindow::Days(n) => decimal(n as nat) + "d"@,
        DueWindow::Months(n) => decimal(n as nat) + "m"@,
        DueWindow::Years(n) => decimal(n as nat) + "y"@,
    }
}

/// The brief over the mems `mems` and the entries `entries`.
pub open spec fn brief_text(
    span: Span,
    window: DueWindow,
    mems: Seq<Seq<char>>,
    entries: Seq<DueLine>,
) -> Seq<char> {
    let head = "# Due brief — "@ + span.today + ", window "@ + window_label(window) + " (through "@
        + span.end + ")\n\n"@;
    if mems.len() == 0 {
        head
            + "No mounted mem's schema declares a due axis (`due:` on a type). Nothing to render.\n"@
    } else {
        let named = head + ("Mems: "@ + join(
            dedup(sorted(mems, |a: Seq<char>, b: Seq<char>| lex_less(a, b))),
            ", "@,
        ) + "\n\n"@);
        if entries.len() == 0 {
            named + "Nothing open is due in this window.\n"@
        } else {
            let out = sorted(entries, |a: DueLine, b: DueLine| due_before(a, b));
            named + (decimal(out.len()) + " entr"@ + (if out.len() == 1 {
                "y"@
            } else {
                "ies"@
            }) + " ("@ + decimal(overdue_count(out)) + " overdue)\n\n"@) + entries_text(out)
        }
    }
}

/// The span of a brief: today and the end of the window.
pub open spec fn span_of(t: (int, int, int), window: DueWindow) -> Span {
    Span { today: iso_date(t.0, t.1, t.2), end: end_text(t.0, t.1, t.2, window) }
}

/// The entry of an entity.
fn entry_of(
    e: &Entity,
    schema: &Schema,
    mem: &str,
    third_party: bool,
    today: &str,
    end: &str,
) -> (r: Option<DueEntry>)
    ensures
        match r {
            Some(d) => due_line(
                *e,
                *schema,
                mem@,
                third_party,
                (Span { today: today@, end: end@ }),
            ) == Some(d@),
            None => due_line(
                *e,
                *schema,
                mem@,
                third_party,
                (Span { today: today@, end: end@ }),
            ) is None,
        },
{
    if !same(&e.mem, mem) || e.stub {
        return None;
    }
    let td = match schema.get_type(&e.entity_type) {
        Some(td) => td,
        None => {
            return None;
        },
    };
    let due = match &td.due {
        Some(due) => due,
        None => {
            return None;
        },
    };
    let status = match e.meta(&due.status_field) {
        Some(MetadataValue::String(s)) => s,
        _ => {
            return None;
        },
    };
    if !listed(&due.open_values, status) {
        return None;
    }
    let date = match e.meta(&due.date_field) {
        Some(MetadataValue::String(s)) => s,
        _ => {
            return None;
        },
    };
    let day = byte_prefix_of(date, 10);
    if parse_ymd(&day).is_none() {
        return None;
    }
    if before(end, &day) {
        return None;
    }
    let lead: Option<(String, String)> = match &due.lead_section {
        None => None,
        Some(key) => match e.section(key) {
            Some(body) => {
                let t = trimmed(body);
                if t.as_str().is_empty() {
                    None
                } else {
                    Some((key.clone(), t))
                }
            },
            None => None,
        },
    };
    let overdue = before(&day, today);
    Some(
        DueEntry {
            mem: own(mem),
            third_party,
            id: e.id.0.clone(),
            title: e.title.clone(),
            date: day,
            status: status.clone(),
            lead,
            overdue,
        },
    )
}

/// Whether some type of a schema declares a deadline axis.
fn has_due(schema: &Schema) -> (r: bool)
    ensures
        r == declares_due(*schema),
{
    for i in 0..schema.types.len()
        invariant
            forall|k: int| 0 <= k < i ==> (#[trigger] schema.types@[k]).due is None,
    {
        if schema.types[i].due.is_some() {
            return true;
        }
    }
    false
}

/// Lines under a prefix, each with its line feed.
fn prefixed_of(ls: &Vec<String>, prefix: &str) -> (r: String)
    ensures
        r@ == prefixed(texts(ls@), prefix@),
{
    let mut out = String::new();
    for i in 0..ls.len()
        invariant
            out@ == prefixed(texts(ls@).take(i as int), prefix@),
    {
        let line = own(prefix).concat(&ls[i]).concat("\n");
        out.append(&line);
        assert(texts(ls@).take(i + 1).drop_last() =~= texts(ls@).take(i as int));
    }
    assert(texts(ls@).take(ls@.len() as int) =~= texts(ls@));
    out
}

/// An entry in the brief.
fn entry_text_of(e: &DueEntry) -> (r: String)
    ensures
        r@ == entry_text(e@),
{
    let marker = if e.overdue {
        " **OVERDUE**"
    } else {
        ""
    };
    let origin = if e.third_party {
        " [third-party]"
    } else {
        ""
    };
    let lead = match &e.lead {
        Some(l) => if e.third_party {
            "  - ".to_owned().concat(&l.0).concat(" (third-party, quoted):\n").concat(
                &prefixed_of(&lines_of(&l.1), "    > "),
            )
        } else {
            "  - ".to_owned().concat(&l.0).concat(":\n").concat(
                &prefixed_of(&lines_of(&l.1), "    "),
            )
        },
        None => String::new(),
    };
    "- `".to_owned().concat(&e.id).concat("` — ").concat(&e.title).concat(" — **").concat(
        &e.date,
    ).concat("**").concat(marker).concat(" (status: ").concat(&e.status).concat(
        ", mem: ",
    ).concat(&e.mem).concat(origin).concat(")\n").concat(&lead)
}

/// A list without the items that equal the one before them.
fn dedup_of(v: &Vec<String>) -> (r: Vec<String>)
    ensures
        texts(r@) == dedup(texts(v@)),
{
    let mut out: Vec<String> = Vec::new();
    assert(texts(out@) =~= dedup(texts(v@).take(0)));
    for i in 0..v.len()
        invariant
            texts(out@) == dedup(texts(v@).take(i as int)),
    {
        let ghost done = texts(out@);
        let ghost now = texts(v@).take(i + 1);
        assert(now.drop_last() =~= texts(v@).take(i as int));
        assert(now.last() == v@[i as int]@);
        if i > 0 {
            assert(now[now.len() - 2] == v@[i - 1]@);
        }
        if !(i > 0 && same(&v[i - 1], &v[i])) {
            out.push(v[i].clone());
            assert(texts(out@) =~= done.push(v@[i as int]@));
        }
    }
    assert(texts(v@).take(v@.len() as int) =~= texts(v@));
    out
}

impl<B, H> Engine<B, H> {
    /// Render the due brief: every open entity whose declared due date falls
    /// on or before `today + window`, across every mem whose schema declares
    /// an axis, read-only mounts included, optionally of one mem alone.
    /// `today` is a date in ISO form; a text that is none is refused.
    pub fn render_due_brief(
        &self,
        today: &str,
        window: &DueWindow,
        mem_filter: Option<&str>,
    ) -> (r: Result<String, String>)
        requires
            ymd_of(today@) matches Some(t) ==> window_fits(t.0, t.1, *window),
        ensures
            match r {
                Ok(out) => ymd_of(today@) matches Some(t) && out@ == ({
                    let filter = match mem_filter {
                        Some(f) => Some(f@),
                        None => None,
                    };
                    let span = span_of(t, *window);
                    brief_text(
                        span,
                        *window,
                        declaring(self.mounts@, self.schemas@, filter),
                        all_lines(
                            self.mounts@,
                            self.store.entities@,
                            self.schemas@,
                            filter,
                            span,
                        ),
                    )
                }),
                Err(e) => ymd_of(today@) is None && e@ == "invalid date "@ + debug_form(today@)
                    + ": expected YYYY-MM-DD"@,
            },
    {
        let ymd = match parse_ymd(today) {
            Some(t) => t,
            None => {
                return Err(
                    "invalid date ".to_owned().concat(&debug_quoted(today)).concat(
                        ": expected YYYY-MM-DD",
                    ),
                );
            },
        };
        let today_iso = format_date(ymd.0, ymd.1, ymd.2);
        let end = window_end(ymd, window);
        let ghost span = Span { today: today_iso@, end: end@ };
        let ghost filter: Option<Seq<char>> = match mem_filter {
            Some(f) => Some(f@),
            None => None,
        };
        let mut entries: Vec<DueEntry> = Vec::new();
        let mut mems: Vec<String> = Vec::new();
        assert(views(entries@) =~= all_lines(
            self.mounts@.take(0),
            self.store.entities@,
            self.schemas@,
            filter,
            span,
        ));
        assert(texts(mems@) =~= declaring(self.mounts@.take(0), self.schemas@, filter));
        for i in 0..self.mounts.len()
            invariant
                span == (Span { today: today_iso@, end: end@ }),
                filter == (match mem_filter {
                    Some(f) => Some(f@),
                    None => None,
                }),
                views(entries@) == all_lines(
                    self.mounts@.take(i as int),
                    self.store.entities@,
                    self.schemas@,
                    filter,
                    span,
                ),
                texts(mems@) == declaring(self.mounts@.take(i as int), self.schemas@, filter),
        {
            let m = &self.mounts[i];
            proof {
                assert(self.mounts@.take(i + 1).drop_last() =~= self.mounts@.take(i as int));
                assert(self.mounts@.take(i + 1).last() == *m);
            }
            let passes = match mem_filter {
                Some(f) => same(&m.mount.mem, f),
                None => true,
            };
            if passes {
                if let Some(schema) = self.schema_for(&m.mount.mem) {
                    if has_due(schema) {
                        let ghost named = texts(mems@);
                        mems.push(m.mount.mem.clone());
                        assert(texts(mems@) =~= named.push(m.mount.mem@));
                        let third_party = m.mount.capability == MountCapability::ReadOnly;
                        let ghost head = views(entries@);
                        let ghost es = self.store.entities@;
                        assert(head + mem_lines(
                            es.take(0),
                            **schema,
                            m.mount.mem@,
                            third_party,
                            span,
                        ) =~= head);
                        for j in 0..self.store.entities.len()
                            invariant
                                span == (Span { today: today_iso@, end: end@ }),
                                es == self.store.entities@,
                                views(entries@) == head + mem_lines(
                                    es.take(j as int),
                                    **schema,
                                    m.mount.mem@,
                                    third_party,
                                    span,
                                ),
                        {
                            let ghost done = views(entries@);
                            proof {
                                assert(es.take(j + 1).drop_last() =~= es.take(j as int));
                            }
                            let found = entry_of(
                                &self.store.entities[j],
                                schema,
                                &m.mount.mem,
                                third_party,
                                &today_iso,
                                &end,
                            );
                            if let Some(d) = found {
                                entries.push(d);
                                assert(views(entries@) =~= done.push(d@));
                            }
                            assert(views(entries@) =~= head + mem_lines(
                                es.take(j + 1),
                                **schema,
                                m.mount.mem@,
                                third_party,
                                span,
                            ));
                        }
                        assert(es.take(es.len() as int) =~= es);
                    }
                }
            }
        }
        assert(self.mounts@.take(self.mounts@.len() as int) =~= self.mounts@);
        let label = match window {
            DueWindow::Days(n) => decimal_of(*n as u64).concat("d"),
            DueWindow::Months(n) => decimal_of(*n as u64).concat("m"),
            DueWindow::Years(n) => decimal_of(*n as u64).concat("y"),
        };
        let mut out = "# Due brief — ".to_owned().concat(&today_iso).concat(", window ").concat(
            &label,
        ).concat(" (through ").concat(&end).concat(")\n\n");
        let ghost all = views(entries@);
        let ghost named = texts(mems@);
        assert(span == span_of((ymd.0 as int, ymd.1 as int, ymd.2 as int), *window));
        if mems.len() == 0 {
            out.append(
                "No mounted mem's schema declares a due axis (`due:` on a type). Nothing to render.\n",
            );
            return Ok(out);
        }
        let sorted_mems = stable_sort(mems);
        proof {
            assert(texts(sorted_mems@) =~= views(sorted_mems@));
            assert(named =~= views(mems@));
            assert((|a: Seq<char>, b: Seq<char>| <String as Ranked>::ranks_before(a, b))
                =~= (|a: Seq<char>, b: Seq<char>| lex_less(a, b)));
        }
        let mem_line = "Mems: ".to_owned().concat(
            &join_list(&dedup_of(&sorted_mems), ", "),
        ).concat("\n\n");
        out.append(&mem_line);
        if entries.len() == 0 {
            out.append("Nothing open is due in this window.\n");
            return Ok(out);
        }
        let entries = stable_sort(entries);
        proof {
            assert((|a: DueLine, b: DueLine| <DueEntry as Ranked>::ranks_before(a, b))
                =~= (|a: DueLine, b: DueLine| due_before(a, b)));
            crate::sort::law_sorted_keeps(all, |a: DueLine, b: DueLine| due_before(a, b));
        }
        let ghost ordered = views(entries@);
        let mut late: u64 = 0;
        for i in 0..entries.len()
            invariant
                ordered == views(entries@),
                late == overdue_count(ordered.take(i as int)),
                late <= i,
        {
            assert(ordered.take(i + 1).drop_last() =~= ordered.take(i as int));
            if entries[i].overdue {
                late = late + 1;
            }
        }
        assert(ordered.take(ordered.len() as int) =~= ordered);
        let plural = if entries.len() == 1 {
            "y"
        } else {
            "ies"
        };
        let count_line = decimal_of(entries.len() as u64).concat(" entr").concat(plural).concat(
            " (",
        ).concat(&decimal_of(late)).concat(" overdue)\n\n");
        out.append(&count_line);
        let mut body = String::new();
        for i in 0..entries.len()
            invariant
                ordered == views(entries@),
                body@ == entries_text(ordered.take(i as int)),
        {
            let text = entry_text_of(&entries[i]);
            body.append(&text);
            assert(ordered.take(i + 1).drop_last() =~= ordered.take(i as int));
        }
        assert(ordered.take(ordered.len() as int) =~= ordered);
        out.append(&body);
        Ok(out)
    }
}

} // verus!
