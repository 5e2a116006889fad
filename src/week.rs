//! Calendar arithmetic for the weekly leaderboard key.
use vstd::prelude::*;
use vstd::string::StringExecFns;

verus! {

/// Milliseconds in a day.
pub const MS_PER_DAY: u64 = 86400000;

pub open spec fn leap(year: int) -> bool {
    (year % 4 == 0 && year % 100 != 0) || year % 400 == 0
}

pub open spec fn days_in_year(year: int) -> int {
    if leap(year) {
        366
    } else {
        365
    }
}

/// Days in month `m` (1 to 12) of `year`.
pub open spec fn month_days(year: int, m: int) -> int {
    if m == 2 {
        if leap(year) {
            29
        } else {
            28
        }
    } else if m == 4 || m == 6 || m == 9 || m == 11 {
        30
    } else {
        31
    }
}

/// Days in the months before `month`.
pub open spec fn days_before_month(year: int, month: int) -> int
    decreases month,
{
    if month <= 1 {
        0
    } else {
        days_before_month(year, month - 1) + month_days(year, month - 1)
    }
}

/// The year and 0-based day within it, `days` days after the start of `year`.
pub open spec fn year_and_day(days: int, year: int) -> (int, int)
    decreases days,
{
    if days < 0 || days < days_in_year(year) {
        (year, days)
    } else {
        year_and_day(days - days_in_year(year), year + 1)
    }
}

/// Month and day of month for the 1-based day `d` of `year`, counting from month `m`.
pub open spec fn month_and_day(year: int, d: int, m: int) -> (int, int)
    decreases 13 - m,
{
    if m >= 13 || d <= month_days(year, m) {
        (m, d)
    } else {
        month_and_day(year, d - month_days(year, m), m + 1)
    }
}

/// The date (year, month, day) of a Unix timestamp in milliseconds.
pub open spec fn date_of(ms: int) -> (int, int, int) {
    let (y, d0) = year_and_day(ms / (MS_PER_DAY as int), 1970);
    let (m, d) = month_and_day(y, d0 + 1, 1);
    (y, m, d)
}

/// The week number of the 1-based day of the year: `ceil(day / 7)`, kept in 1 to 53.
pub open spec fn week_of_day(doy: int) -> int {
    let w = (doy + 6) / 7;
    if w < 1 {
        1
    } else if w > 53 {
        53
    } else {
        w
    }
}

/// Year and week number of a timestamp in milliseconds.
pub open spec fn year_week(ms: int) -> (int, int) {
    let (y, m, d) = date_of(ms);
    (y, week_of_day(d + days_before_month(y, m)))
}

pub open spec fn digit_char(d: int) -> char {
    if d == 0 {
        '0'
    } else if d == 1 {
        '1'
    } else if d == 2 {
        '2'
    } else if d == 3 {
        '3'
    } else if d == 4 {
        '4'
    } else if d == 5 {
        '5'
    } else if d == 6 {
        '6'
    } else if d == 7 {
        '7'
    } else if d == 8 {
        '8'
    } else {
        '9'
    }
}

/// Decimal digits of `n`.
pub open spec fn decimal(n: nat) -> Seq<char>
    decreases n,
{
    if n < 10 {
        seq![digit_char(n as int)]
    } else {
        decimal(n / 10).push(digit_char((n % 10) as int))
    }
}

/// At least two decimal digits, padded with a leading zero.
pub open spec fn two_digits(n: nat) -> Seq<char> {
    if n < 10 {
        seq!['0'] + decimal(n)
    } else {
        decimal(n)
    }
}

fn is_leap_year(year: i32) -> (r: bool)
    requires
        year >= 0,
    ensures
        r == leap(year as int),
{
    (year % 4 == 0 && year % 100 != 0) || (year % 400 == 0)
}

/// The 1-based day of the year of `month` (1 to 12) and `day`.
fn day_of_year(year: i32, month: u32, day: u32) -> (r: u32)
    requires
        year >= 0,
        1 <= month <= 12,
        day <= 31,
    ensures
        r == day + days_before_month(year as int, month as int),
{
    let is_leap = is_leap_year(year);
    let mut doy = day;
    let mut m: u32 = 1;
    while m < month
        invariant
            1 <= m <= month <= 12,
            is_leap == leap(year as int),
            doy == day + days_before_month(year as int, m as int),
            doy <= 31 + 31 * (m - 1),
        decreases month - m,
    {
        let days = if m == 2 {
            if is_leap {
                29
            } else {
                28
            }
        } else if m == 4 || m == 6 || m == 9 || m == 11 {
            30
        } else {
            31
        };
        doy = doy + days;
        m += 1;
    }
    doy
}

proof fn lemma_year_bound(days: int, year: int)
    requires
        days >= 0,
    ensures
        year_and_day(days, year).0 <= year + days / 365,
        year_and_day(days, year).0 >= year,
        0 <= year_and_day(days, year).1 < days_in_year(year_and_day(days, year).0),
    decreases days,
{
    if days >= days_in_year(year) {
        lemma_year_bound(days - days_in_year(year), year + 1);
        assert((days - days_in_year(year)) / 365 + 1 <= days / 365);
    }
}

fn year_length(year: i32) -> (r: u64)
    requires
        year >= 0,
    ensures
        r == days_in_year(year as int),
{
    if is_leap_year(year) {
        366
    } else {
        365
    }
}

fn month_length(year: i32, m: u32) -> (r: u32)
    requires
        year >= 0,
    ensures
        r == month_days(year as int, m as int),
{
    if m == 2 {
        if is_leap_year(year) {
            29
        } else {
            28
        }
    } else if m == 4 || m == 6 || m == 9 || m == 11 {
        30
    } else {
        31
    }
}

/// The date (year, month, day) of a Unix timestamp in milliseconds.
fn timestamp_to_approx_date(timestamp_ms: u64) -> (r: (i32, u32, u32))
    ensures
        r.0 >= 1970,
        (r.0 as int, r.1 as int, r.2 as int) == date_of(timestamp_ms as int),
{
    let mut days: u64 = timestamp_ms / MS_PER_DAY;
    let ghost all = days as int;
    let mut year: i32 = 1970;
    proof {
        lemma_year_bound(all, 1970);
    }
    while days >= year_length(year)
        invariant
            year_and_day(days as int, year as int) == year_and_day(all, 1970),
            1970 <= year <= 1970 + (all - days) / 365,
            all <= u64::MAX / MS_PER_DAY,
            days <= all,
        decreases days,
    {
        let len: u64 = year_length(year);
        assert((all - (days - len)) / 365 >= (all - days) / 365 + 1);
        days = days - len;
        year = year + 1;
    }
    let mut d: u32 = (days + 1) as u32;
    let mut month: u32 = 1;
    while month < 13 && d > month_length(year, month)
        invariant
            1 <= month <= 13,
            year >= 1970,
            1 <= d <= 367,
            month_and_day(year as int, d as int, month as int) == month_and_day(
                year as int,
                days + 1,
                1,
            ),
        decreases 13 - month,
    {
        let md: u32 = month_length(year, month);
        d = d - md;
        month = month + 1;
    }
    (year, month, d)
}

proof fn lemma_month_and_day(year: int, d: int, m: int)
    requires
        1 <= m <= 12,
        1 <= d <= days_in_year(year) - days_before_month(year, m),
    ensures
        1 <= month_and_day(year, d, m).0 <= 12,
        1 <= month_and_day(year, d, m).1 <= 31,
    decreases 13 - m,
{
    reveal_with_fuel(days_before_month, 13);
    if d > month_days(year, m) {
        assert(days_before_month(year, m + 1) == days_before_month(year, m) + month_days(year, m));
        if m == 12 {
            assert(days_before_month(year, 13) == days_in_year(year));
        }
        lemma_month_and_day(year, d - month_days(year, m), m + 1);
    }
}

/// Year and week number (1 to 53, `ceil(day of year / 7)`) of a timestamp in
/// milliseconds.
pub fn current_year_week(timestamp_ms: u64) -> (r: (i32, u32))
    ensures
        (r.0 as int, r.1 as int) == year_week(timestamp_ms as int),
{
    let (year, month, day) = timestamp_to_approx_date(timestamp_ms);
    proof {
        let all = (timestamp_ms / MS_PER_DAY) as int;
        lemma_year_bound(all, 1970);
        let (y, d0) = year_and_day(all, 1970);
        lemma_month_and_day(y, d0 + 1, 1);
    }
    let doy = day_of_year(year, month, day);
    let w = (doy as u64 + 6) / 7;
    let week: u32 = if w < 1 {
        1
    } else if w > 53 {
        53
    } else {
        w as u32
    };
    (year, week)
}

fn digit_str(d: u32) -> (r: &'static str)
    requires
        d < 10,
    ensures
        r@ == seq![digit_char(d as int)],
{
    proof {
        reveal_strlit("0");
        reveal_strlit("1");
        reveal_strlit("2");
        reveal_strlit("3");
        reveal_strlit("4");
        reveal_strlit("5");
        reveal_strlit("6");
        reveal_strlit("7");
        reveal_strlit("8");
        reveal_strlit("9");
    }
    if d == 0 {
        "0"
    } else if d == 1 {
        "1"
    } else if d == 2 {
        "2"
    } else if d == 3 {
        "3"
    } else if d == 4 {
        "4"
    } else if d == 5 {
        "5"
    } else if d == 6 {
        "6"
    } else if d == 7 {
        "7"
    } else if d == 8 {
        "8"
    } else {
        "9"
    }
}

fn append_decimal(s: &mut String, n: u32)
    ensures
        final(s)@ == old(s)@ + decimal(n as nat),
    decreases n,
{
    if n >= 10 {
        append_decimal(s, n / 10);
    }
    s.append(digit_str(n % 10));
    assert(final(s)@ =~= old(s)@ + decimal(n as nat)) by {
        if n >= 10 {
            assert(decimal(n as nat) == decimal((n / 10) as nat).push(digit_char((n % 10) as int)));
        }
    }
}

fn append_two_digits(s: &mut String, n: u32)
    ensures
        final(s)@ == old(s)@ + two_digits(n as nat),
{
    if n < 10 {
        proof {
            reveal_strlit("0");
        }
        s.append("0");
    }
    append_decimal(s, n);
}

/// Key of the weekly leaderboard at a timestamp in milliseconds:
/// `player_score_<year>_<week>`, the week in two digits.
pub fn get_weekly_leaderboard_key(now_ms: u64) -> (r: String)
    ensures
        r@ == "player_score_"@ + decimal(year_week(now_ms as int).0 as nat) + "_"@ + two_digits(
            year_week(now_ms as int).1 as nat,
        ),
{
    let (year, week) = current_year_week(now_ms);
    proof {
        reveal_strlit("player_score_");
        reveal_strlit("_");
        lemma_week_year_positive(now_ms as int);
    }
    let mut s = "player_score_".to_owned();
    append_decimal(&mut s, year as u32);
    s.append("_");
    append_two_digits(&mut s, week);
    s
}

/// The week shown to players at a timestamp in milliseconds:
/// `(<year>年 第<week>周)`, the week in two digits.
pub fn get_current_week_display_text(now_ms: u64) -> (r: String)
    ensures
        r@ == "("@ + decimal(year_week(now_ms as int).0 as nat) + "年 第"@ + two_digits(
            year_week(now_ms as int).1 as nat,
        ) + "周)"@,
{
    let (year, week) = current_year_week(now_ms);
    proof {
        reveal_strlit("(");
        reveal_strlit("年 第");
        reveal_strlit("周)");
        lemma_week_year_positive(now_ms as int);
    }
    let mut s = "(".to_owned();
    append_decimal(&mut s, year as u32);
    s.append("年 第");
    append_two_digits(&mut s, week);
    s.append("周)");
    s
}

proof fn lemma_week_year_positive(ms: int)
    requires
        ms >= 0,
    ensures
        year_week(ms).0 >= 1970,
        year_week(ms).1 >= 1,
{
    lemma_year_bound(ms / (MS_PER_DAY as int), 1970);
}

} // verus!
