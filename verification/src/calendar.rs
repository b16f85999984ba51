use vstd::prelude::*;

verus! {

/// The whole-day part of the Julian date of a calendar day, by Meeus'
/// formula: with January and February counted as months 13 and 14 of the
/// previous year, `a = floor(y / 100)`, `b = 2 - a + floor(a / 4)` and
/// `floor(365.25 (y + 4716)) + floor(30.6001 (m + 1)) + day + b`, where the
/// two products are written as exact fractions (`1461/4`, `306001/10000`).
/// The Julian date at midnight of that day is this value minus 1524.5.
pub open spec fn julian_day_base(year: int, month: int, day: int) -> int {
    let y = if month <= 2 { year - 1 } else { year };
    let m = if month <= 2 { month + 12 } else { month };
    let a = y / 100;
    let b = 2 - a + a / 4;
    (1461 * (y + 4716)) / 4 + (306001 * (m + 1)) / 10000 + day + b
}

/// Division rounding toward negative infinity, for a positive divisor.
fn floor_div(x: i64, d: i64) -> (q: i64)
    requires
        d > 0,
        x > i64::MIN + d,
    ensures
        q == x / d,
{
    if x >= 0 {
        x / d
    } else {
        let p = -x;
        let t = (p + d - 1) / d;
        proof {
            let xi = x as int;
            let di = d as int;
            let ti = t as int;
            assert(ti * di <= p + di - 1 < ti * di + di) by (nonlinear_arith)
                requires
                    ti == (p + di - 1) / di,
                    di > 0,
                    p + di - 1 >= 0,
            ;
            assert((-ti) * di <= xi < (-ti) * di + di) by (nonlinear_arith)
                requires
                    ti * di <= -xi + di - 1 < ti * di + di,
            ;
            vstd::arithmetic::div_mod::lemma_div_pos_is_pos(p + di - 1, di);
            assert(xi / di == -ti) by {
                vstd::arithmetic::div_mod::lemma_fundamental_div_mod(xi, di);
                let q0 = xi / di;
                let r0 = xi % di;
                assert(0 <= r0 < di);
                assert(q0 == -ti) by (nonlinear_arith)
                    requires
                        xi == di * q0 + r0,
                        0 <= r0 < di,
                        (-ti) * di <= xi < (-ti) * di + di,
                        di > 0,
                ;
            }
        }
        -t
    }
}

/// The whole-day part of the Julian date of a day of the proleptic
/// Gregorian calendar (as `chrono` gives years, months 1 to 12 and days).
pub fn julian_day_number(year: i32, month: u32, day: u32) -> (n: i64)
    requires
        1 <= month <= 12,
        1 <= day <= 31,
    ensures
        n == julian_day_base(year as int, month as int, day as int),
{
    let (y, m): (i64, i64) = if month <= 2 {
        (year as i64 - 1, month as i64 + 12)
    } else {
        (year as i64, month as i64)
    };
    let a = floor_div(y, 100);
    let b = 2 - a + floor_div(a, 4);
    floor_div(1461 * (y + 4716), 4) + (306001 * (m + 1)) / 10000 + day as i64 + b
}

/// Gregorian leap years: divisible by 4, except centuries not divisible by
/// 400.
pub open spec fn is_leap_year(y: int) -> bool {
    (y % 4 == 0 && y % 100 != 0) || y % 400 == 0
}

/// Days in month `m` (1 to 12) of year `y`.
pub open spec fn days_in_month(y: int, m: int) -> int {
    if m == 2 {
        if is_leap_year(y) {
            29
        } else {
            28
        }
    } else if m == 4 || m == 6 || m == 9 || m == 11 {
        30
    } else {
        31
    }
}

/// The calendar day after `(y, m, d)`.
pub open spec fn next_day(y: int, m: int, d: int) -> (int, int, int) {
    if d < days_in_month(y, m) {
        (y, m, d + 1)
    } else if m < 12 {
        (y, m + 1, 1)
    } else {
        (y + 1, 1, 1)
    }
}

/// One more in `x` raises `x / d` by one exactly when `x + 1` is a
/// multiple of `d`.
proof fn lemma_div_step(x: int, d: int)
    requires
        d > 0,
    ensures
        (x + 1) / d == x / d + (if (x + 1) % d == 0 {
            1int
        } else {
            0int
        }),
{
    vstd::arithmetic::div_mod::lemma_fundamental_div_mod(x, d);
    let q = x / d;
    let r = x % d;
    if r + 1 < d {
        assert(x + 1 == q * d + (r + 1)) by (nonlinear_arith)
            requires
                x == d * q + r,
        ;
        vstd::arithmetic::div_mod::lemma_fundamental_div_mod_converse(x + 1, d, q, r + 1);
    } else {
        assert(x + 1 == (q + 1) * d + 0) by (nonlinear_arith)
            requires
                x == d * q + r,
                r + 1 == d,
        ;
        vstd::arithmetic::div_mod::lemma_fundamental_div_mod_converse(x + 1, d, q + 1, 0);
    }
}

/// `floor(365.25 y)` grows by 366 into a year `y + 1` divisible by 4, else by
/// 365.
proof fn lemma_quarter_days_step(y: int)
    ensures
        (1461 * (y + 1)) / 4 == (1461 * y) / 4 + 365 + (if (y + 1) % 4 == 0 {
            1int
        } else {
            0int
        }),
{
    vstd::arithmetic::div_mod::lemma_hoist_over_denominator(y, 365 * y, 4);
    vstd::arithmetic::div_mod::lemma_hoist_over_denominator(y + 1, 365 * (y + 1), 4);
    assert(y + (365 * y) * 4 == 1461 * y);
    assert((y + 1) + (365 * (y + 1)) * 4 == 1461 * (y + 1));
    lemma_div_step(y, 4);
}

/// A multiple of 100 is a multiple of 400 exactly when its hundreds are a
/// multiple of 4.
proof fn lemma_century_leap(y: int)
    requires
        y % 100 == 0,
    ensures
        (y / 100) % 4 == 0 <==> y % 400 == 0,
{
    vstd::arithmetic::div_mod::lemma_fundamental_div_mod(y, 100);
    let a = y / 100;
    vstd::arithmetic::div_mod::lemma_fundamental_div_mod(a, 4);
    let q = a / 4;
    let r = a % 4;
    assert(y == 400 * q + 100 * r) by (nonlinear_arith)
        requires
            y == 100 * a + 0,
            a == 4 * q + r,
    ;
    vstd::arithmetic::div_mod::lemma_fundamental_div_mod_converse(y, 400, q, 100 * r);
}

/// A year divisible by 4 shifted by a multiple of 4 stays so.
proof fn lemma_mod4_shift(y: int)
    ensures
        (y + 4716) % 4 == y % 4,
{
    vstd::arithmetic::div_mod::lemma_fundamental_div_mod(y, 4);
    vstd::arithmetic::div_mod::lemma_fundamental_div_mod_converse(
        y + 4716,
        4,
        y / 4 + 1179,
        y % 4,
    );
}

/// February has 28 days, 29 in leap years: the day numbers of 1 February
/// and 1 March are that far apart.
pub proof fn lemma_february_length(y: int)
    ensures
        julian_day_base(y, 3, 1) == julian_day_base(y, 2, 1) + days_in_month(y, 2),
{
    lemma_quarter_days_step(y + 4715);
    lemma_mod4_shift(y);
    assert((306001 * 15int) / 10000 == 459);
    assert((306001 * 4int) / 10000 == 122);
    lemma_div_step(y - 1, 100);
    let a1 = (y - 1) / 100;
    let a = y / 100;
    if y % 100 == 0 {
        assert(a == a1 + 1);
        lemma_div_step(a1, 4);
        lemma_century_leap(y);
    } else {
        assert(a == a1);
    }
}

/// Day numbers count days: the day after any date of the proleptic
/// Gregorian calendar has the next day number.
pub proof fn lemma_next_day_number(y: int, m: int, d: int)
    requires
        1 <= m <= 12,
        1 <= d <= days_in_month(y, m),
    ensures
        julian_day_base(next_day(y, m, d).0, next_day(y, m, d).1, next_day(y, m, d).2)
            == julian_day_base(y, m, d) + 1,
{
    if d < days_in_month(y, m) {
    } else if m == 2 {
        lemma_february_length(y);
    } else if m < 12 {
        assert((306001 * 3int) / 10000 == 91);
        assert((306001 * 4int) / 10000 == 122);
        assert((306001 * 5int) / 10000 == 153);
        assert((306001 * 6int) / 10000 == 183);
        assert((306001 * 7int) / 10000 == 214);
        assert((306001 * 8int) / 10000 == 244);
        assert((306001 * 9int) / 10000 == 275);
        assert((306001 * 10int) / 10000 == 306);
        assert((306001 * 11int) / 10000 == 336);
        assert((306001 * 12int) / 10000 == 367);
        assert((306001 * 13int) / 10000 == 397);
        assert((306001 * 14int) / 10000 == 428);
        assert((306001 * 15int) / 10000 == 459);
    } else {
        assert((306001 * 13int) / 10000 == 397);
        assert((306001 * 14int) / 10000 == 428);
    }
}

/// `(y, m, d)` is a date of the proleptic Gregorian calendar.
pub open spec fn valid_date(y: int, m: int, d: int) -> bool {
    1 <= m <= 12 && 1 <= d <= days_in_month(y, m)
}

/// The date `n` days after `(y, m, d)`.
pub open spec fn days_later(y: int, m: int, d: int, n: nat) -> (int, int, int)
    decreases n,
{
    if n == 0 {
        (y, m, d)
    } else {
        let next = next_day(y, m, d);
        days_later(next.0, next.1, next.2, (n - 1) as nat)
    }
}

/// The day after a date is a date.
pub proof fn lemma_next_day_valid(y: int, m: int, d: int)
    requires
        valid_date(y, m, d),
    ensures
        valid_date(next_day(y, m, d).0, next_day(y, m, d).1, next_day(y, m, d).2),
{
}

/// Day numbers count days over any span: the date `n` days after a date
/// has a day number `n` higher.
pub proof fn lemma_days_later_number(y: int, m: int, d: int, n: nat)
    requires
        valid_date(y, m, d),
    ensures
        valid_date(days_later(y, m, d, n).0, days_later(y, m, d, n).1, days_later(y, m, d, n).2),
        julian_day_base(days_later(y, m, d, n).0, days_later(y, m, d, n).1, days_later(y, m, d, n).2)
            == julian_day_base(y, m, d) + n,
    decreases n,
{
    if n > 0 {
        let next = next_day(y, m, d);
        lemma_next_day_number(y, m, d);
        lemma_next_day_valid(y, m, d);
        lemma_days_later_number(next.0, next.1, next.2, (n - 1) as nat);
    }
}

} // verus!
