//! Calendar arithmetic and wiki paths for the daily standup page.
//!
//! The standup page for a day lives at `{root}/{yyyy}/Q{n}/{dd.MM.yyyy}`.
//! The target path is a function of the date alone; the source page is the
//! path whose last segment is the latest date, compared as dates and never
//! as strings.

use vstd::prelude::*;

use crate::text::{
    chars_of, dec, int_text, push_char, push_int, push_padded, push_str, string_from_chars, zpad,
    all_digits, digits_value, is_digit, char_is_digit, digit_value, digit_char, texts, push_decimal, pow10,
    lemma_zpad_dec, lemma_zpad_dec_len, lemma_digits_unique,
};

verus! {

/// A proleptic-Gregorian calendar date.
#[derive(Debug, Clone, Copy, PartialEq, Eq, Structural, PartialOrd, Ord)]
pub struct Ymd {
    pub y: i32,
    pub m: u32,
    pub d: u32,
}

// ---------------------------------------------------------------------------
// The calendar, as mathematics.
// ---------------------------------------------------------------------------

/// Gregorian leap-year rule.
pub open spec fn leap(y: int) -> bool {
    (y % 4 == 0 && y % 100 != 0) || y % 400 == 0
}

/// Length of month `m` of year `y`; zero when `m` is not a month.
pub open spec fn month_len(y: int, m: int) -> int {
    if m == 1 || m == 3 || m == 5 || m == 7 || m == 8 || m == 10 || m == 12 {
        31
    } else if m == 4 || m == 6 || m == 9 || m == 11 {
        30
    } else if m == 2 {
        if leap(y) { 29 } else { 28 }
    } else {
        0
    }
}

/// Number of days in year `y`.
pub open spec fn year_len(y: int) -> int {
    if leap(y) { 366 } else { 365 }
}

/// A real date of the proleptic Gregorian calendar (any year, year 0 and
/// those before it included).
pub open spec fn is_date(y: int, m: int, d: int) -> bool {
    1 <= m <= 12 && 1 <= d <= month_len(y, m)
}

/// A real calendar date with a four-digit year, the domain of the page names.
pub open spec fn valid_ymd(t: Ymd) -> bool {
    is_date(t.y as int, t.m as int, t.d as int) && 1 <= t.y <= 9999
}

/// Days in the years `1 ..= y - 1` (the closed form of their sum).
pub open spec fn days_before_year(y: int) -> int {
    let p = y - 1;
    365 * p + p / 4 - p / 100 + p / 400
}

/// Days in the months `1 ..= m - 1` of year `y`.
pub open spec fn days_before_month(y: int, m: int) -> int
    decreases m,
{
    if m <= 1 {
        0
    } else {
        days_before_month(y, m - 1) + month_len(y, m - 1)
    }
}

/// Days from 1970-01-01 to the given date (negative before it).
pub open spec fn day_number(y: int, m: int, d: int) -> int {
    days_before_year(y) + days_before_month(y, m) + d - 1 - 719162
}

/// Chronological (lexicographic) order of dates.
pub open spec fn date_lt(y1: int, m1: int, d1: int, y2: int, m2: int, d2: int) -> bool {
    y1 < y2 || (y1 == y2 && (m1 < m2 || (m1 == m2 && d1 < d2)))
}

/// `a` comes strictly before `b` in calendar order.
pub open spec fn ymd_lt(a: Ymd, b: Ymd) -> bool {
    date_lt(a.y as int, a.m as int, a.d as int, b.y as int, b.m as int, b.d as int)
}

/// The one date whose day number is `s`.
pub open spec fn date_of_day(s: int) -> (int, int, int) {
    choose|t: (int, int, int)| is_date(t.0, t.1, t.2) && day_number(t.0, t.1, t.2) == s
}

// ---------------------------------------------------------------------------
// Facts about the calendar.
// ---------------------------------------------------------------------------

/// The closed form of `days_before_year` adds up the year lengths.
pub proof fn lemma_year_step(y: int)
    ensures
        days_before_year(y + 1) == days_before_year(y) + year_len(y),
{
    let p = y - 1;
    lemma_div_step(p, 4);
    lemma_div_step(p, 100);
    lemma_div_step(p, 400);
}

/// Floor division advances by one exactly at multiples of `k`.
proof fn lemma_div_step(p: int, k: int)
    requires
        k > 0,
    ensures
        (p + 1) / k == p / k + (if (p + 1) % k == 0 { 1int } else { 0int }),
{
    vstd::arithmetic::div_mod::lemma_fundamental_div_mod(p, k);
    vstd::arithmetic::div_mod::lemma_fundamental_div_mod(p + 1, k);
    assert((p + 1) / k == p / k + (if (p + 1) % k == 0 { 1int } else { 0int })) by (nonlinear_arith)
        requires
            k > 0,
            p == k * (p / k) + p % k,
            0 <= p % k < k,
            p + 1 == k * ((p + 1) / k) + (p + 1) % k,
            0 <= (p + 1) % k < k,
    ;
}

/// Days before month `m` in a common year (`m` in `1 ..= 13`).
pub open spec fn common_days_before(m: int) -> int {
    if m == 1 { 0 } else if m == 2 { 31 } else if m == 3 { 59 } else if m == 4 { 90 }
    else if m == 5 { 120 } else if m == 6 { 151 } else if m == 7 { 181 } else if m == 8 { 212 }
    else if m == 9 { 243 } else if m == 10 { 273 } else if m == 11 { 304 } else if m == 12 { 334 }
    else { 365 }
}

/// `days_before_month` as a table.
pub proof fn lemma_days_before_month(y: int, m: int)
    requires
        1 <= m <= 13,
    ensures
        days_before_month(y, m) == common_days_before(m) + (if m >= 3 && leap(y) { 1int } else { 0int }),
{
    reveal_with_fuel(days_before_month, 13);
}

/// A date's offset inside its year is below the year's length.
pub proof fn lemma_offset_in_year(y: int, m: int, d: int)
    requires
        is_date(y, m, d),
    ensures
        0 <= days_before_month(y, m) + d - 1 < year_len(y),
{
    lemma_days_before_month(y, m);
}

/// The closed form of `days_before_year` is monotone.
pub proof fn lemma_days_before_year_monotone(a: int, b: int)
    requires
        a <= b,
    ensures
        days_before_year(a) <= days_before_year(b),
    decreases b - a,
{
    if a < b {
        lemma_days_before_year_monotone(a, b - 1);
        lemma_year_step(b - 1);
    }
}

/// Day numbers follow calendar order.
pub proof fn lemma_day_number_strictly_monotone(y1: int, m1: int, d1: int, y2: int, m2: int, d2: int)
    requires
        is_date(y1, m1, d1),
        is_date(y2, m2, d2),
        date_lt(y1, m1, d1, y2, m2, d2),
    ensures
        day_number(y1, m1, d1) < day_number(y2, m2, d2),
{
    lemma_days_before_month(y1, m1);
    lemma_days_before_month(y2, m2);
    if y1 < y2 {
        lemma_offset_in_year(y1, m1, d1);
        lemma_year_step(y1);
        lemma_days_before_year_monotone(y1 + 1, y2);
    } else if m1 < m2 {
        lemma_days_before_month(y1, m1 + 1);
    }
}

/// Two dates with the same day number are the same date.
pub proof fn lemma_day_number_injective(y1: int, m1: int, d1: int, y2: int, m2: int, d2: int)
    requires
        is_date(y1, m1, d1),
        is_date(y2, m2, d2),
        day_number(y1, m1, d1) == day_number(y2, m2, d2),
    ensures
        y1 == y2 && m1 == m2 && d1 == d2,
{
    if date_lt(y1, m1, d1, y2, m2, d2) {
        lemma_day_number_strictly_monotone(y1, m1, d1, y2, m2, d2);
    } else if date_lt(y2, m2, d2, y1, m1, d1) {
        lemma_day_number_strictly_monotone(y2, m2, d2, y1, m1, d1);
    }
}


// ---------------------------------------------------------------------------
// Facts behind the day-number algorithms, which count years from March so
// that the leap day falls at the end of a (shifted) year.
// ---------------------------------------------------------------------------

/// Days from the start of a 400-year cycle to March 1st of its year `r`.
pub open spec fn cycle_days(r: int) -> int {
    365 * r + r / 4 - r / 100
}

/// Whole 400-year cycles have 146097 days.
pub proof fn lemma_era(e: int, r: int)
    requires
        0 <= r < 400,
    ensures
        days_before_year(400 * e + r + 1) == e * 146097 + cycle_days(r),
{
    assert((400 * e + r) / 4 == 100 * e + r / 4);
    assert((400 * e + r) / 100 == 4 * e + r / 100);
    assert((400 * e + r) / 400 == e);
}

/// Leap years repeat every 400 years.
pub proof fn lemma_leap_period(e: int, r: int)
    ensures
        leap(400 * e + r) == leap(r),
{
    vstd::arithmetic::div_mod::lemma_mod_multiples_vanish(100 * e, r, 4);
    vstd::arithmetic::div_mod::lemma_mod_multiples_vanish(4 * e, r, 100);
    vstd::arithmetic::div_mod::lemma_mod_multiples_vanish(e, r, 400);
}

/// Day numbers, counted with years that begin on March 1st.
pub proof fn lemma_shifted(y: int, m: int, d: int)
    requires
        1 <= m <= 12,
    ensures
        ({
            let ys = if m <= 2 { y - 1 } else { y };
            let mp = if m > 2 { m - 3 } else { m + 9 };
            day_number(y, m, d) == days_before_year(ys + 1) + (153 * mp + 2) / 5 + d - 1 - 719468
        }),
{
    lemma_days_before_month(y, m);
    lemma_year_step(y);
    assert(m == 1 || m == 2 || m == 3 || m == 4 || m == 5 || m == 6 || m == 7 || m == 8 || m == 9
        || m == 10 || m == 11 || m == 12);
}

/// Splitting the day of a 400-year cycle into its (shifted) year and the
/// day of that year.
pub proof fn lemma_year_of_cycle(doe: int)
    requires
        0 <= doe <= 146096,
    ensures
        ({
            let yoe = (doe - doe / 1460 + doe / 36524 - doe / 146096) / 365;
            &&& 0 <= yoe <= 399
            &&& cycle_days(yoe) <= doe
            &&& doe - cycle_days(yoe) < year_len(yoe + 1)
        }),
{
    let c = if doe / 36524 > 3 { 3 } else { doe / 36524 };
    let rest = doe - 36524 * c;
    assert(0 <= c <= 3 && 0 <= rest <= 36524) by {
        assert(doe / 36524 <= 4);
    }
    let b = rest / 1461;
    let rest2 = rest - 1461 * b;
    assert(0 <= b <= 24 && 0 <= rest2 < 1461);
    let a = if rest2 / 365 > 3 { 3 } else { rest2 / 365 };
    let r = rest2 - 365 * a;
    assert(0 <= a <= 3 && 0 <= r <= 365 && (r == 365 ==> a == 3));
    let y = 100 * c + 4 * b + a;
    assert(y / 4 == 25 * c + b);
    assert(y / 100 == c);
    assert(doe == cycle_days(y) + r);
    assert(r == 365 ==> (b < 24 || c == 3)) by {
        if r == 365 && b == 24 {
            assert(rest == 36524 && c == 3);
        }
    }
    assert(year_len(y + 1) == 366 <==> (a == 3 && (b < 24 || c == 3)));
    assert(doe / 146096 == (if c == 3 && b == 24 && a == 3 && r == 365 { 1int } else { 0int }));
    assert(doe / 36524 == c + (if c == 3 && b == 24 && a == 3 && r == 365 { 1int } else { 0int }));
    assert(doe / 1460 == 25 * c + b + (24 * c + b + 365 * a + r) / 1460);
    let yoe = (doe - doe / 1460 + doe / 36524 - doe / 146096) / 365;
    assert(yoe == y);
}


/// Every day on or after 0001-01-01 has exactly one date.
pub proof fn lemma_date_of_day(s: int, y: int, m: int, d: int)
    requires
        is_date(y, m, d),
        day_number(y, m, d) == s,
    ensures
        date_of_day(s) == (y, m, d),
{
    let w = (y, m, d);
    assert(is_date(w.0, w.1, w.2) && day_number(w.0, w.1, w.2) == s);
    let t = date_of_day(s);
    assert(is_date(t.0, t.1, t.2) && day_number(t.0, t.1, t.2) == s);
    lemma_day_number_injective(t.0, t.1, t.2, y, m, d);
}

// ---------------------------------------------------------------------------
// Executable calendar.
// ---------------------------------------------------------------------------

fn divides(y: i32, k: u64) -> (r: bool)
    requires
        k == 4 || k == 100 || k == 400,
    ensures
        r == ((y as int) % (k as int) == 0),
{
    // Shift by a multiple of 400 so that the remainder is taken of a
    // non-negative number.
    let t: u64 = (y as i64 + 2147484000i64) as u64;
    assert((t as int) % (k as int) == (y as int) % (k as int)) by (nonlinear_arith)
        requires
            t == y + 2147484000,
            k == 4 || k == 100 || k == 400,
    ;
    t % k == 0
}

/// Gregorian leap-year rule.
pub fn is_leap(y: i32) -> (r: bool)
    ensures
        r == leap(y as int),
{
    (divides(y, 4) && !divides(y, 100)) || divides(y, 400)
}

/// Days in `m` (1..=12) for year `y`; `0` for an out-of-range month so
/// callers that forget to validate get a rejecting answer, not a panic.
pub fn days_in_month(y: i32, m: u32) -> (r: u32)
    ensures
        r as int == month_len(y as int, m as int),
{
    match m {
        1 | 3 | 5 | 7 | 8 | 10 | 12 => 31,
        4 | 6 | 9 | 11 => 30,
        2 => if is_leap(y) { 29 } else { 28 },
        _ => 0,
    }
}

/// Calendar quarter of a month number.
pub open spec fn quarter_of(m: int) -> int {
    if 1 <= m <= 3 { 1 } else if 4 <= m <= 6 { 2 } else if 7 <= m <= 9 { 3 } else { 4 }
}

/// Calendar quarter (1..=4) for month `m` (1..=12); months outside that
/// range are counted as `Q4`.
pub fn quarter(m: u32) -> (q: u32)
    ensures
        q as int == quarter_of(m as int),
{
    match m {
        1..=3 => 1,
        4..=6 => 2,
        7..=9 => 3,
        _ => 4,
    }
}

/// Day number relative to 1970-01-01 (Howard Hinnant's algorithm), for a
/// month `1 ..= 12` of any year; the day is counted on from the month's
/// first, so a real date gets its own day number. No step overflows.
pub fn days_from_civil(date: Ymd) -> (r: i64)
    requires
        1 <= date.m <= 12,
    ensures
        r as int == day_number(date.y as int, date.m as int, date.d as int),
{
    let m = date.m as i64;
    let d = date.d as i64;
    let y = if date.m <= 2 { date.y as i64 - 1 } else { date.y as i64 };
    // Floor division by 400, on a shifted, non-negative year.
    let era = (y + 3_200_000_000) / 400 - 8_000_000;
    let yoe = y - era * 400;
    let mp = if m > 2 { m - 3 } else { m + 9 };
    let doy = (153 * mp + 2) / 5 + d - 1;
    let doe = yoe * 365 + yoe / 4 - yoe / 100 + doy;
    proof {
        lemma_shifted(date.y as int, date.m as int, date.d as int);
        lemma_era(era as int, yoe as int);
    }
    era * 146_097 + doe - 719_468
}

/// What `civil_from_days` returns for day number `s`: the date of that day,
/// with the year replaced by `0` when it does not fit in an `i32`.
pub open spec fn civil_result(s: int) -> Ymd {
    let t = date_of_day(s);
    Ymd { y: if i32::MIN <= t.0 <= i32::MAX { t.0 as i32 } else { 0 }, m: t.1 as u32, d: t.2 as u32 }
}

/// The number of whole 400-year cycles (146097 days) in `z`, rounded
/// down.
fn cycles_before(z: i64) -> (era: i64)
    ensures
        0 <= z - era * 146097 < 146097,
{
    if z >= 0 {
        let era = z / 146_097;
        proof {
            vstd::arithmetic::div_mod::lemma_fundamental_div_mod(z as int, 146097);
        }
        era
    } else {
        let w = -(z + 1);
        let era = -(w / 146_097) - 1;
        proof {
            vstd::arithmetic::div_mod::lemma_fundamental_div_mod(w as int, 146097);
            assert(0 <= z - era * 146097 < 146097) by (nonlinear_arith)
                requires
                    w == -(z + 1),
                    w >= 0,
                    era == -(w / 146097) - 1,
                    w == 146097 * (w / 146097) + w % 146097,
                    0 <= w % 146097 < 146097,
            ;
        }
        era
    }
}

/// Inverse of [`days_from_civil`]: the date of day number `serial`, for
/// every day number whose shift to 0000-03-01 fits an `i64`.
pub fn civil_from_days(serial: i64) -> (r: Ymd)
    requires
        serial <= i64::MAX - 719468,
    ensures
        r == civil_result(serial as int),
{
    let z = serial + 719_468;
    let era = cycles_before(z);
    let doe = z - era * 146_097;
    let yoe = (doe - doe / 1460 + doe / 36_524 - doe / 146_096) / 365;
    proof {
        lemma_year_of_cycle(doe as int);
    }
    let y = yoe + era * 400;
    let doy = doe - (365 * yoe + yoe / 4 - yoe / 100);
    let mp = (5 * doy + 2) / 153;
    let d = doy - (153 * mp + 2) / 5 + 1;
    let m = if mp < 10 { mp + 3 } else { mp - 9 };
    let y = if m <= 2 { y + 1 } else { y };
    proof {
        let ys = if m <= 2 { y - 1 } else { y as int };
        lemma_leap_period(era as int, yoe + 1);
        assert(mp <= 11);
        assert(1 <= d <= month_len(y as int, m as int)) by {
            if m == 2 {
                assert(y == 400 * era + yoe + 1);
            }
        }
        lemma_shifted(y as int, m as int, d as int);
        lemma_era(era as int, yoe as int);
        lemma_date_of_day(serial as int, y as int, m as int, d as int);
    }
    Ymd {
        y: if i32::MIN as i64 <= y && y <= i32::MAX as i64 { y as i32 } else { 0 },
        m: m as u32,
        d: d as u32,
    }
}


// ---------------------------------------------------------------------------
// Page names.
// ---------------------------------------------------------------------------

/// The year as `{:04}` writes it: zero-padded to four characters, the sign
/// counting as one of them.
pub open spec fn year_text(y: int) -> Seq<char> {
    if y < 0 {
        seq!['-'] + zpad(dec((-y) as nat), 3)
    } else {
        zpad(dec(y as nat), 4)
    }
}

/// `dd.MM.yyyy`, each field zero-padded.
pub open spec fn date_text(t: Ymd) -> Seq<char> {
    zpad(dec(t.d as nat), 2) + seq!['.'] + zpad(dec(t.m as nat), 2) + seq!['.'] + year_text(
        t.y as int,
    )
}

/// Render as `dd.MM.yyyy` with zero-padded day/month and a 4-digit year.
pub fn fmt_date(date: Ymd) -> (r: String)
    ensures
        r@ == date_text(date),
{
    let mut out = String::new();
    push_padded(&mut out, date.d as u64, 2);
    push_char(&mut out, '.');
    push_padded(&mut out, date.m as u64, 2);
    push_char(&mut out, '.');
    if date.y < 0 {
        push_char(&mut out, '-');
        push_padded(&mut out, (-(date.y as i64)) as u64, 3);
    } else {
        push_padded(&mut out, date.y as u64, 4);
    }
    out
}

/// `s` has the shape `dd.MM.yyyy`: ten characters, `.` at the third and the
/// sixth, decimal digits everywhere else.
pub open spec fn date_shape(s: Seq<char>) -> bool {
    &&& s.len() == 10
    &&& s[2] == '.'
    &&& s[5] == '.'
    &&& all_digits(s.subrange(0, 2))
    &&& all_digits(s.subrange(3, 5))
    &&& all_digits(s.subrange(6, 10))
}

/// What `parse_date` accepts: a text of the shape `dd.MM.yyyy` (two-digit
/// day and month, four-digit year, nothing else) that names a real date in
/// years `1 ..= 9999`.
pub open spec fn parse_date_text(s: Seq<char>) -> Option<Ymd> {
    if date_shape(s) {
        let d = digits_value(s.subrange(0, 2));
        let m = digits_value(s.subrange(3, 5));
        let y = digits_value(s.subrange(6, 10));
        if 1 <= y <= 9999 && is_date(y as int, m as int, d as int) {
            Some(Ymd { y: y as i32, m: m as u32, d: d as u32 })
        } else {
            None
        }
    } else {
        None
    }
}

/// The value of the digits `v[a..b]` (at most four of them), or `None` when
/// one of them is not a decimal digit.
fn digits_field(v: &Vec<char>, a: usize, b: usize) -> (r: Option<u32>)
    requires
        a <= b <= v.len(),
        b - a <= 4,
    ensures
        match r {
            Some(n) => all_digits(v@.subrange(a as int, b as int)) && n == digits_value(
                v@.subrange(a as int, b as int),
            ),
            None => !all_digits(v@.subrange(a as int, b as int)),
        },
{
    let mut acc: u32 = 0;
    let mut i: usize = a;
    assert(v@.subrange(a as int, a as int) =~= Seq::<char>::empty());
    while i < b
        invariant
            a <= i <= b <= v.len(),
            b - a <= 4,
            all_digits(v@.subrange(a as int, i as int)),
            acc == digits_value(v@.subrange(a as int, i as int)),
            acc < pow10((i - a) as nat),
        decreases b - i,
    {
        let c = v[i];
        if !char_is_digit(c) {
            assert(v@.subrange(a as int, b as int)[i - a] == c);
            return None;
        }
        let ghost prev = v@.subrange(a as int, i as int);
        let ghost next = v@.subrange(a as int, i + 1);
        assert(next.drop_last() == prev);
        assert(next.last() == c);
        assert(all_digits(next)) by {
            assert forall|k: int| 0 <= k < next.len() implies is_digit(#[trigger] next[k]) by {
                if k < next.len() - 1 {
                    assert(next[k] == prev[k]);
                }
            }
        }
        assert(pow10((i + 1 - a) as nat) == 10 * pow10((i - a) as nat));
        assert(pow10(4) == 10000) by {
            reveal_with_fuel(pow10, 5);
        }
        assert(pow10((i - a) as nat) <= 1000) by {
            reveal_with_fuel(pow10, 5);
        }
        acc = acc * 10 + digit_value(c);
        i = i + 1;
    }
    Some(acc)
}

/// Parse a strict `dd.MM.yyyy` string: exactly the texts that `fmt_date`
/// writes for a date in years `1 ..= 9999` are accepted, and each gives
/// that date back; anything else (a field without its zero padding, a sign,
/// another separator, an impossible date) is `None`.
pub fn parse_date(s: &str) -> (r: Option<Ymd>)
    ensures
        r == parse_date_text(s@),
        match r {
            Some(t) => valid_ymd(t) && date_text(t) == s@,
            None => forall|t: Ymd| valid_ymd(t) ==> date_text(t) != s@,
        },
{
    proof {
        assert forall|t: Ymd| valid_ymd(t) && date_text(t) == s@ implies parse_date_text(s@) == Some(
            t,
        ) by {
            law_date_text_roundtrip(t);
        }
        if parse_date_text(s@) is Some {
            law_parse_date_text_inverse(s@);
        }
    }
    let v = chars_of(s);
    if v.len() != 10 || v[2] != '.' || v[5] != '.' {
        return None;
    }
    let d = match digits_field(&v, 0, 2) {
        Some(n) => n,
        None => return None,
    };
    let m = match digits_field(&v, 3, 5) {
        Some(n) => n,
        None => return None,
    };
    let y = match digits_field(&v, 6, 10) {
        Some(n) => n,
        None => return None,
    };
    if y < 1 || y > 9999 || m < 1 || m > 12 {
        return None;
    }
    if d < 1 || d > days_in_month(y as i32, m) {
        return None;
    }
    Some(Ymd { y: y as i32, m, d })
}


/// The last `/`-separated segment of `s` (all of `s` when it has no `/`).
pub open spec fn leaf_text(s: Seq<char>) -> Seq<char>
    decreases s.len(),
{
    if s.len() == 0 || s.last() == '/' {
        Seq::empty()
    } else {
        leaf_text(s.drop_last()).push(s.last())
    }
}

/// The final `/`-separated segment of `path` (the page's own name).
pub fn leaf(path: &str) -> (r: String)
    ensures
        r@ == leaf_text(path@),
{
    let v = chars_of(path);
    let n = v.len();
    let mut j: usize = n;
    assert(v@.subrange(n as int, n as int) =~= Seq::<char>::empty());
    assert(v@.subrange(0, n as int) == v@);
    while j > 0 && v[j - 1] != '/'
        invariant
            j <= n == v@.len(),
            leaf_text(v@) == leaf_text(v@.subrange(0, j as int)) + v@.subrange(j as int, n as int),
        decreases j,
    {
        let ghost pre = v@.subrange(0, j as int);
        assert(pre.drop_last() == v@.subrange(0, j - 1));
        assert(pre.last() == v@[j - 1]);
        assert(v@.subrange(j - 1, n as int) == seq![v@[j - 1]] + v@.subrange(j as int, n as int));
        assert(leaf_text(pre) == leaf_text(v@.subrange(0, j - 1)).push(v@[j - 1]));
        assert(leaf_text(v@.subrange(0, j - 1)).push(v@[j - 1]) + v@.subrange(j as int, n as int)
            =~= leaf_text(v@.subrange(0, j - 1)) + v@.subrange(j - 1, n as int));
        j = j - 1;
    }
    let mut out: Vec<char> = Vec::new();
    let mut i: usize = j;
    while i < n
        invariant
            j <= i <= n == v@.len(),
            out@ == v@.subrange(j as int, i as int),
        decreases n - i,
    {
        out.push(v[i]);
        assert(v@.subrange(j as int, i + 1) == v@.subrange(j as int, i as int).push(v@[i as int]));
        i = i + 1;
    }
    assert(leaf_text(v@.subrange(0, j as int)) =~= Seq::<char>::empty());
    assert(leaf_text(v@) =~= out@);
    string_from_chars(out.as_slice())
}

/// `root` without one trailing `/`.
pub open spec fn strip_slash(root: Seq<char>) -> Seq<char> {
    if root.len() > 0 && root.last() == '/' {
        root.drop_last()
    } else {
        root
    }
}

/// `{root}/{year}/Q{quarter}/{dd.MM.yyyy}`, with one trailing `/` of `root`
/// dropped.
pub open spec fn daily_path_text(root: Seq<char>, t: Ymd) -> Seq<char> {
    strip_slash(root) + seq!['/'] + int_text(t.y as int) + seq!['/', 'Q'] + dec(
        quarter_of(t.m as int) as nat,
    ) + seq!['/'] + date_text(t)
}

/// The target wiki path for `date` under `root`:
/// `{root}/{year}/Q{quarter}/{dd.MM.yyyy}`. A single trailing `/` on `root`
/// is tolerated so the configured `daily_path` may be written either way.
pub fn daily_page_path(root: &str, date: Ymd) -> (r: String)
    ensures
        r@ == daily_path_text(root@, date),
{
    let v = chars_of(root);
    let n = if v.len() > 0 && v[v.len() - 1] == '/' { v.len() - 1 } else { v.len() };
    let mut out: Vec<char> = Vec::new();
    let mut i: usize = 0;
    while i < n
        invariant
            n <= v@.len(),
            i <= n,
            out@ == v@.subrange(0, i as int),
        decreases n - i,
    {
        out.push(v[i]);
        assert(v@.subrange(0, i + 1) == v@.subrange(0, i as int).push(v@[i as int]));
        i = i + 1;
    }
    assert(out@ == strip_slash(root@)) by {
        if v@.len() > 0 && v@.last() == '/' {
            assert(v@.subrange(0, n as int) == v@.drop_last());
        } else {
            assert(v@.subrange(0, n as int) == v@);
        }
    }
    let mut r = string_from_chars(out.as_slice());
    push_char(&mut r, '/');
    push_int(&mut r, date.y as i64);
    push_char(&mut r, '/');
    push_char(&mut r, 'Q');
    push_decimal(&mut r, quarter(date.m) as u64);
    push_char(&mut r, '/');
    let d = fmt_date(date);
    push_str(&mut r, d.as_str());
    assert(r@ =~= daily_path_text(root@, date));
    r
}

/// The date named by the last segment of `p`, if it names one.
pub open spec fn leaf_date(p: Seq<char>) -> Option<Ymd> {
    parse_date_text(leaf_text(p))
}

/// `ps[i]` names the latest date among `ps`, and no later path names the
/// same date.
pub open spec fn is_latest(ps: Seq<Seq<char>>, i: int) -> bool {
    &&& 0 <= i < ps.len()
    &&& leaf_date(ps[i]) is Some
    &&& forall|j: int|
        0 <= j < ps.len() && (#[trigger] leaf_date(ps[j])) is Some ==> !ymd_lt(
            leaf_date(ps[i])->0,
            leaf_date(ps[j])->0,
        )
    &&& forall|j: int|
        i < j < ps.len() && (#[trigger] leaf_date(ps[j])) is Some ==> ymd_lt(
            leaf_date(ps[j])->0,
            leaf_date(ps[i])->0,
        )
}

/// `a` comes strictly before `b` in calendar order.
pub fn ymd_less(a: Ymd, b: Ymd) -> (r: bool)
    ensures
        r == ymd_lt(a, b),
{
    a.y < b.y || (a.y == b.y && (a.m < b.m || (a.m == b.m && a.d < b.d)))
}

/// Among `paths`, return the one whose leaf parses as the chronologically
/// **latest** `dd.MM.yyyy`. Paths whose leaf is not a valid date are
/// ignored; `None` means no path carried a usable date. Selection is by
/// parsed date, never by string order; on a tie the last one wins.
pub fn pick_latest(paths: &[String]) -> (r: Option<String>)
    ensures
        r is None <==> (forall|j: int|
            0 <= j < paths@.len() ==> (#[trigger] leaf_date(texts(paths@)[j])) is None),
        r matches Some(p) ==> exists|i: int| is_latest(texts(paths@), i) && p@ == texts(paths@)[i],
{
    let ghost ps = texts(paths@);
    let mut best: Option<(Ymd, usize)> = None;
    let mut i: usize = 0;
    while i < paths.len()
        invariant
            i <= paths.len(),
            ps == texts(paths@),
            best is None <==> (forall|j: int| 0 <= j < i ==> (#[trigger] leaf_date(ps[j])) is None),
            best matches Some(b) ==> ({
                &&& b.1 < i
                &&& leaf_date(ps[b.1 as int]) == Some(b.0)
                &&& forall|j: int|
                    0 <= j < i && (#[trigger] leaf_date(ps[j])) is Some ==> !ymd_lt(
                        b.0,
                        leaf_date(ps[j])->0,
                    )
                &&& forall|j: int|
                    b.1 < j < i && (#[trigger] leaf_date(ps[j])) is Some ==> ymd_lt(
                        leaf_date(ps[j])->0,
                        b.0,
                    )
            }),
        decreases paths.len() - i,
    {
        let name = leaf(paths[i].as_str());
        let parsed = parse_date(name.as_str());
        assert(parsed == leaf_date(ps[i as int]));
        match parsed {
            Some(d) => {
                let replace = match best {
                    None => true,
                    Some(b) => !ymd_less(d, b.0),
                };
                if replace {
                    best = Some((d, i));
                }
            },
            None => {},
        }
        i = i + 1;
    }
    match best {
        None => None,
        Some(b) => {
            assert(is_latest(ps, b.1 as int));
            Some(paths[b.1].clone())
        },
    }
}

/// Seconds since the Unix epoch by the system clock (`SystemTime::now`);
/// `None` when the clock reads before the epoch.
#[verifier::external_body]
fn unix_seconds() -> (r: Option<u64>)
{
    match std::time::SystemTime::now().duration_since(std::time::UNIX_EPOCH) {
        Ok(d) => Some(d.as_secs()),
        Err(_) => None,
    }
}

/// `c` is a value that reading the system clock (`unix_seconds`) can give
/// back.
pub closed spec fn clock_reading(c: Option<u64>) -> bool {
    call_ensures(unix_seconds, (), c)
}

/// The UTC date of the moment `secs` seconds after the Unix epoch.
pub fn utc_date_of(secs: u64) -> (r: Ymd)
    ensures
        r == civil_result((secs / 86400) as int),
{
    let days = (secs / 86_400) as i64;
    civil_from_days(days)
}

/// Today's date in UTC: the date of the day that the system clock reads,
/// counting a clock before 1970 as 1970-01-01. The date is that of the
/// very seconds count the clock gave back.
pub fn today_utc() -> (r: Ymd)
    ensures
        exists|secs: int| 0 <= secs <= u64::MAX && r == #[trigger] civil_result(secs / 86400),
        exists|c: Option<u64>| #[trigger] clock_reading(c) && r == civil_result(
            (match c {
                Some(s) => s as int,
                None => 0,
            }) / 86400,
        ),
{
    let read = unix_seconds;
    let clock = read();
    assert(clock_reading(clock));
    let secs: u64 = match clock {
        Some(s) => s,
        None => 0,
    };
    utc_date_of(secs)
}

// ---------------------------------------------------------------------------
// Laws.
// ---------------------------------------------------------------------------

/// Every day has a date (the day-number algorithm, carried out in
/// mathematics).
pub proof fn lemma_day_has_date(s: int)
    ensures
        is_date(date_of_day(s).0, date_of_day(s).1, date_of_day(s).2),
        day_number(date_of_day(s).0, date_of_day(s).1, date_of_day(s).2) == s,
{
    let z = s + 719468;
    let era = z / 146097;
    let doe = z - era * 146097;
    lemma_year_of_cycle(doe);
    let yoe = (doe - doe / 1460 + doe / 36524 - doe / 146096) / 365;
    let doy = doe - cycle_days(yoe);
    let mp = (5 * doy + 2) / 153;
    let d = doy - (153 * mp + 2) / 5 + 1;
    let m = if mp < 10 { mp + 3 } else { mp - 9 };
    let y = if m <= 2 { yoe + era * 400 + 1 } else { yoe + era * 400 };
    lemma_leap_period(era, yoe + 1);
    assert(1 <= d <= month_len(y, m)) by {
        if m == 2 {
            assert(y == 400 * era + yoe + 1);
        }
    }
    lemma_shifted(y, m, d);
    lemma_era(era, yoe);
    lemma_date_of_day(s, y, m, d);
}

/// Day numbers follow calendar order, and nothing else: for real dates of
/// any year, one comes before another exactly when its day number is
/// smaller.
pub proof fn law_day_number_order(a: Ymd, b: Ymd)
    requires
        is_date(a.y as int, a.m as int, a.d as int),
        is_date(b.y as int, b.m as int, b.d as int),
    ensures
        ymd_lt(a, b) <==> day_number(a.y as int, a.m as int, a.d as int) < day_number(
            b.y as int,
            b.m as int,
            b.d as int,
        ),
{
    if ymd_lt(a, b) {
        lemma_day_number_strictly_monotone(
            a.y as int,
            a.m as int,
            a.d as int,
            b.y as int,
            b.m as int,
            b.d as int,
        );
    } else if ymd_lt(b, a) {
        lemma_day_number_strictly_monotone(
            b.y as int,
            b.m as int,
            b.d as int,
            a.y as int,
            a.m as int,
            a.d as int,
        );
    }
}

/// `civil_from_days` undoes `days_from_civil` on every real date of any
/// year.
pub proof fn law_civil_of_day_number(t: Ymd)
    requires
        is_date(t.y as int, t.m as int, t.d as int),
    ensures
        civil_result(day_number(t.y as int, t.m as int, t.d as int)) == t,
{
    lemma_date_of_day(day_number(t.y as int, t.m as int, t.d as int), t.y as int, t.m as int, t.d as int);
}

/// `days_from_civil` undoes `civil_from_days` on every day from 0001-01-01
/// to 9999-12-31, whose date is always in years `1 ..= 9999`.
pub proof fn law_day_number_of_civil(s: int)
    requires
        -719162 <= s <= 2932896,
    ensures
        valid_ymd(civil_result(s)),
        day_number(civil_result(s).y as int, civil_result(s).m as int, civil_result(s).d as int)
            == s,
{
    lemma_day_has_date(s);
    let t = date_of_day(s);
    assert(t.0 >= 1) by {
        if t.0 < 1 {
            assert(day_number(1, 1, 1) == -719162);
            lemma_day_number_strictly_monotone(t.0, t.1, t.2, 1, 1, 1);
        }
    }
    assert(t.0 <= 9999) by {
        if t.0 > 9999 {
            lemma_days_before_year_monotone(10000, t.0);
            lemma_days_before_month(t.0, t.1);
        }
    }
}

/// `days_from_civil` undoes `civil_from_days` on every day whose year fits
/// an `i32`, and that day's date is a real one.
pub proof fn law_day_number_of_civil_any_year(s: int)
    requires
        day_number(i32::MIN as int, 1, 1) <= s <= day_number(i32::MAX as int, 12, 31),
    ensures
        is_date(civil_result(s).y as int, civil_result(s).m as int, civil_result(s).d as int),
        day_number(civil_result(s).y as int, civil_result(s).m as int, civil_result(s).d as int)
            == s,
{
    lemma_day_has_date(s);
    let t = date_of_day(s);
    if t.0 < i32::MIN {
        lemma_day_number_strictly_monotone(t.0, t.1, t.2, i32::MIN as int, 1, 1);
    }
    if t.0 > i32::MAX {
        lemma_day_number_strictly_monotone(i32::MAX as int, 12, 31, t.0, t.1, t.2);
    }
}

/// The UTC date of `secs` seconds after the epoch is the day that holds
/// that second: it starts at most `secs` seconds after 1970-01-01 00:00
/// and ends after it (for every clock reading whose year fits the year
/// field).
pub proof fn law_utc_date_holds_the_second(secs: u64)
    requires
        (secs / 86400) as int <= day_number(i32::MAX as int, 12, 31),
    ensures
        ({
            let r = civil_result((secs / 86400) as int);
            let start = day_number(r.y as int, r.m as int, r.d as int) * 86400;
            &&& is_date(r.y as int, r.m as int, r.d as int)
            &&& start <= secs < start + 86400
        }),
{
    let s = (secs / 86400) as int;
    assert(day_number(i32::MIN as int, 1, 1) <= 0) by {
        assert(day_number(1970, 1, 1) == 0) by {
            assert(days_before_year(1970) == 719162);
        }
        lemma_day_number_strictly_monotone(i32::MIN as int, 1, 1, 1970, 1, 1);
    }
    law_day_number_of_civil_any_year(s);
}

/// The three fields of the text of a date in years `1 ..= 9999`: two-digit
/// day, two-digit month, four-digit year, each reading back as its number.
proof fn lemma_date_text_fields(t: Ymd)
    requires
        valid_ymd(t),
    ensures
        date_text(t) == zpad(dec(t.d as nat), 2) + seq!['.'] + zpad(dec(t.m as nat), 2) + seq!['.']
            + zpad(dec(t.y as nat), 4),
        zpad(dec(t.d as nat), 2).len() == 2,
        zpad(dec(t.m as nat), 2).len() == 2,
        zpad(dec(t.y as nat), 4).len() == 4,
{
    assert(pow10(2) == 100) by {
        reveal_with_fuel(pow10, 3);
    }
    assert(pow10(4) == 10000) by {
        reveal_with_fuel(pow10, 5);
    }
    lemma_zpad_dec_len(t.d as nat, 2);
    lemma_zpad_dec_len(t.m as nat, 2);
    lemma_zpad_dec_len(t.y as nat, 4);
}

/// Formatting a date in years `1 ..= 9999` and parsing the text gives the
/// date back.
pub proof fn law_date_text_roundtrip(t: Ymd)
    requires
        valid_ymd(t),
    ensures
        parse_date_text(date_text(t)) == Some(t),
{
    let a = zpad(dec(t.d as nat), 2);
    let b = zpad(dec(t.m as nat), 2);
    let c = zpad(dec(t.y as nat), 4);
    lemma_date_text_fields(t);
    lemma_zpad_dec(t.d as nat, 2);
    lemma_zpad_dec(t.m as nat, 2);
    lemma_zpad_dec(t.y as nat, 4);
    let s = date_text(t);
    assert(s.subrange(0, 2) =~= a);
    assert(s.subrange(3, 5) =~= b);
    assert(s.subrange(6, 10) =~= c);
    assert(s[2] == '.');
    assert(s[5] == '.');
}

/// Whatever `parse_date` accepts is the text that `fmt_date` writes for the
/// date it gives: the parser takes no other spelling of a date.
pub proof fn law_parse_date_text_inverse(s: Seq<char>)
    requires
        parse_date_text(s) is Some,
    ensures
        valid_ymd(parse_date_text(s)->0),
        date_text(parse_date_text(s)->0) == s,
{
    let t = parse_date_text(s)->0;
    let a = zpad(dec(t.d as nat), 2);
    let b = zpad(dec(t.m as nat), 2);
    let c = zpad(dec(t.y as nat), 4);
    lemma_date_text_fields(t);
    lemma_zpad_dec(t.d as nat, 2);
    lemma_zpad_dec(t.m as nat, 2);
    lemma_zpad_dec(t.y as nat, 4);
    lemma_digits_unique(a, s.subrange(0, 2));
    lemma_digits_unique(b, s.subrange(3, 5));
    lemma_digits_unique(c, s.subrange(6, 10));
    assert(date_text(t) =~= s);
}

/// The last segment of `x/y` is `y` when `y` has no `/`.
proof fn lemma_leaf_after_slash(x: Seq<char>, y: Seq<char>)
    requires
        !y.contains('/'),
    ensures
        leaf_text(x + seq!['/'] + y) == y,
    decreases y.len(),
{
    let t = x + seq!['/'] + y;
    if y.len() == 0 {
        assert(t.last() == '/');
        assert(y =~= Seq::<char>::empty());
    } else {
        assert(!y.drop_last().contains('/')) by {
            if y.drop_last().contains('/') {
                let i = choose|i: int| 0 <= i < y.drop_last().len() && y.drop_last()[i] == '/';
                assert(y[i] == '/');
            }
        }
        lemma_leaf_after_slash(x, y.drop_last());
        assert(t.drop_last() == x + seq!['/'] + y.drop_last());
        assert(t.last() == y.last());
        assert(y.last() != '/') by {
            assert(y[y.len() - 1] == y.last());
        }
        assert(y.drop_last().push(y.last()) == y);
    }
}

/// The last segment of a daily page path is the page's date, and it reads
/// back as that date.
pub proof fn law_daily_path_leaf(root: Seq<char>, t: Ymd)
    requires
        valid_ymd(t),
    ensures
        leaf_text(daily_path_text(root, t)) == date_text(t),
        leaf_date(daily_path_text(root, t)) == Some(t),
{
    let a = zpad(dec(t.d as nat), 2);
    let b = zpad(dec(t.m as nat), 2);
    let c = zpad(dec(t.y as nat), 4);
    lemma_zpad_dec(t.d as nat, 2);
    lemma_zpad_dec(t.m as nat, 2);
    lemma_zpad_dec(t.y as nat, 4);
    assert(!date_text(t).contains('/')) by {
        if date_text(t).contains('/') {
            let i = choose|i: int| 0 <= i < date_text(t).len() && date_text(t)[i] == '/';
            let dt = date_text(t);
            assert(dt == a + seq!['.'] + b + seq!['.'] + c);
            if i < a.len() {
                assert(dt[i] == a[i]);
                assert(is_digit(a[i]));
            } else if i == a.len() {
                assert(dt[i] == '.');
            } else if i < a.len() + 1 + b.len() {
                assert(dt[i] == b[i - a.len() - 1]);
                assert(is_digit(b[i - a.len() - 1]));
            } else if i == a.len() + 1 + b.len() {
                assert(dt[i] == '.');
            } else {
                assert(dt[i] == c[i - a.len() - 2 - b.len()]);
                assert(is_digit(c[i - a.len() - 2 - b.len()]));
            }
        }
    }
    let x = strip_slash(root) + seq!['/'] + int_text(t.y as int) + seq!['/', 'Q'] + dec(
        quarter_of(t.m as int) as nat,
    );
    assert(daily_path_text(root, t) == x + seq!['/'] + date_text(t));
    lemma_leaf_after_slash(x, date_text(t));
    law_date_text_roundtrip(t);
}

/// `quarter` gives the calendar quarter: the `q` in `1 ..= 4` whose three
/// months `3q - 2 ..= 3q` hold `m`.
pub proof fn law_quarter_holds_its_month(m: int)
    requires
        1 <= m <= 12,
    ensures
        1 <= quarter_of(m) <= 4,
        3 * quarter_of(m) - 2 <= m <= 3 * quarter_of(m),
{
}

/// The daily page path is the root (one trailing `/` dropped), the year,
/// `Q` and the one digit of the calendar quarter that holds the month, and
/// the date's own text, joined by `/`.
pub proof fn law_daily_path_quarter(root: Seq<char>, t: Ymd)
    requires
        1 <= t.m <= 12,
    ensures
        exists|q: int|
            1 <= q <= 4 && 3 * q - 2 <= t.m <= 3 * q && #[trigger] daily_path_text(root, t) == strip_slash(root)
                + seq!['/'] + int_text(t.y as int) + seq!['/', 'Q', digit_char(q)] + seq!['/'] + date_text(
                t,
            ),
{
    let q = quarter_of(t.m as int);
    assert(dec(q as nat) == seq![digit_char(q)]);
    assert(daily_path_text(root, t) =~= strip_slash(root) + seq!['/'] + int_text(t.y as int) + seq![
        '/',
        'Q',
        digit_char(q),
    ] + seq!['/'] + date_text(t));
}

/// The daily page paths for the dates `ds`, in order.
pub open spec fn daily_paths(root: Seq<char>, ds: Seq<Ymd>) -> Seq<Seq<char>> {
    Seq::new(ds.len(), |k: int| daily_path_text(root, ds[k]))
}

/// The page that `pick_latest` chooses among daily page paths is the one for
/// the latest date, however the paths are ordered and however their text
/// sorts (across quarter and year boundaries too); every such path takes
/// part.
pub proof fn law_pick_latest_is_global_max(root: Seq<char>, ds: Seq<Ymd>, i: int)
    requires
        forall|k: int| 0 <= k < ds.len() ==> valid_ymd(#[trigger] ds[k]),
        is_latest(daily_paths(root, ds), i),
    ensures
        forall|j: int| 0 <= j < ds.len() ==> !ymd_lt(ds[i], #[trigger] ds[j]),
{
    let ps = daily_paths(root, ds);
    assert forall|j: int| 0 <= j < ds.len() implies !ymd_lt(ds[i], #[trigger] ds[j]) by {
        law_daily_path_leaf(root, ds[j]);
        law_daily_path_leaf(root, ds[i]);
        assert(ps[j] == daily_path_text(root, ds[j]));
        assert(ps[i] == daily_path_text(root, ds[i]));
        assert(leaf_date(ps[j]) is Some);
    }
}

/// Every daily page path takes part in `pick_latest`: its leaf reads as a
/// date.
pub proof fn law_daily_paths_are_candidates(root: Seq<char>, ds: Seq<Ymd>)
    requires
        forall|k: int| 0 <= k < ds.len() ==> valid_ymd(#[trigger] ds[k]),
    ensures
        forall|j: int|
            0 <= j < ds.len() ==> leaf_date(
                #[trigger] daily_paths(root, ds)[j],
            ) == Some(ds[j]),
{
    assert forall|j: int| 0 <= j < ds.len() implies leaf_date(
        #[trigger] daily_paths(root, ds)[j],
    ) == Some(ds[j]) by {
        law_daily_path_leaf(root, ds[j]);
    }
}


/// Every moment the system clock can read from the epoch on falls on a
/// real calendar date no earlier than 1970-01-01; its year is kept unless
/// it does not fit the year field, where it reads `0`.
pub proof fn law_clock_dates_are_real(secs: u64)
    ensures
        ({
            let r = civil_result((secs / 86400) as int);
            r.y == 0 || (r.y >= 1970 && is_date(r.y as int, r.m as int, r.d as int))
        }),
{
    let s = (secs / 86400) as int;
    lemma_day_has_date(s);
    let t = date_of_day(s);
    assert(day_number(1970, 1, 1) == 0) by {
        assert(days_before_year(1970) == 719162);
    }
    if t.0 < 1970 {
        lemma_day_number_strictly_monotone(t.0, t.1, t.2, 1970, 1, 1);
    }
}

} // verus!
