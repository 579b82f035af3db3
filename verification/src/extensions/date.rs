//! Adding the HTTP `Date` header, in the IMF-fixdate form of RFC 9110,
//! section 5.6.7: `Sun, 06 Nov 1994 08:49:37 GMT`.
use vstd::prelude::*;

use crate::header::Header;
use crate::middleware::MiddleResult;
use crate::response::Response;
use crate::text::{decimal, push_char, push_decimal, push_str};

verus! {

/// Whether `y` is a leap year of the Gregorian calendar.
pub open spec fn is_leap(y: nat) -> bool {
    y % 4 == 0 && (y % 100 != 0 || y % 400 == 0)
}

/// The number of days in the year `y`.
pub open spec fn year_days(y: nat) -> nat {
    if is_leap(y) {
        366
    } else {
        365
    }
}

/// The number of days in month `m` (0 for January) of the year `y`.
pub open spec fn month_days(y: nat, m: nat) -> nat {
    if m == 1 {
        if is_leap(y) {
            29
        } else {
            28
        }
    } else if m == 3 || m == 5 || m == 8 || m == 10 {
        30
    } else {
        31
    }
}

/// The year, and the day within it (from 0), of the day that comes `days`
/// days after the first of January of `y`.
pub open spec fn year_and_day(days: nat, y: nat) -> (nat, nat)
    decreases days,
{
    if days < year_days(y) {
        (y, days)
    } else {
        year_and_day((days - year_days(y)) as nat, y + 1)
    }
}

/// The month (from 0), and the day within it (from 0), of the day `day`
/// days after the first of month `m` of the year `y`.
pub open spec fn month_and_day(day: nat, y: nat, m: nat) -> (nat, nat)
    decreases 12 - m,
{
    if m >= 11 || day < month_days(y, m) {
        (m, day)
    } else {
        month_and_day((day - month_days(y, m)) as nat, y, m + 1)
    }
}

/// The short English name of a day of the week, 0 for Sunday.
pub open spec fn weekday_name(d: nat) -> Seq<char> {
    if d == 0 {
        "Sun"@
    } else if d == 1 {
        "Mon"@
    } else if d == 2 {
        "Tue"@
    } else if d == 3 {
        "Wed"@
    } else if d == 4 {
        "Thu"@
    } else if d == 5 {
        "Fri"@
    } else {
        "Sat"@
    }
}

/// The short English name of a month, 0 for January.
pub open spec fn month_name(m: nat) -> Seq<char> {
    if m == 0 {
        "Jan"@
    } else if m == 1 {
        "Feb"@
    } else if m == 2 {
        "Mar"@
    } else if m == 3 {
        "Apr"@
    } else if m == 4 {
        "May"@
    } else if m == 5 {
        "Jun"@
    } else if m == 6 {
        "Jul"@
    } else if m == 7 {
        "Aug"@
    } else if m == 8 {
        "Sep"@
    } else if m == 9 {
        "Oct"@
    } else if m == 10 {
        "Nov"@
    } else {
        "Dec"@
    }
}

/// A number written with at least two digits.
pub open spec fn two_digits(n: nat) -> Seq<char> {
    if n < 10 {
        seq!['0'] + decimal(n)
    } else {
        decimal(n)
    }
}

/// The IMF-fixdate of the moment `epoch` seconds after 1970-01-01 00:00:00
/// UTC, a Thursday.
pub open spec fn http_date(epoch: nat) -> Seq<char> {
    let days = epoch / 86400;
    let secs = epoch % 86400;
    let (y, yd) = year_and_day(days, 1970);
    let (m, d) = month_and_day(yd, y, 0);
    weekday_name((days + 4) % 7) + ", "@ + two_digits(d + 1) + " "@ + month_name(m) + " "@
        + decimal(y) + " "@ + two_digits(secs / 3600) + ":"@ + two_digits(secs % 3600 / 60) + ":"@
        + two_digits(secs % 60) + " GMT"@
}

fn year_length(y: u64) -> (r: u64)
    ensures
        r == year_days(y as nat),
{
    if y % 4 == 0 && (y % 100 != 0 || y % 400 == 0) {
        366
    } else {
        365
    }
}

fn month_length(y: u64, m: u64) -> (r: u64)
    ensures
        r == month_days(y as nat, m as nat),
{
    if m == 1 {
        if y % 4 == 0 && (y % 100 != 0 || y % 400 == 0) {
            29
        } else {
            28
        }
    } else if m == 3 || m == 5 || m == 8 || m == 10 {
        30
    } else {
        31
    }
}

fn push_weekday(s: &mut String, d: u64)
    ensures
        final(s)@ == old(s)@ + weekday_name(d as nat),
{
    if d == 0 {
        push_str(s, "Sun");
    } else if d == 1 {
        push_str(s, "Mon");
    } else if d == 2 {
        push_str(s, "Tue");
    } else if d == 3 {
        push_str(s, "Wed");
    } else if d == 4 {
        push_str(s, "Thu");
    } else if d == 5 {
        push_str(s, "Fri");
    } else {
        push_str(s, "Sat");
    }
}

fn push_month(s: &mut String, m: u64)
    ensures
        final(s)@ == old(s)@ + month_name(m as nat),
{
    if m == 0 {
        push_str(s, "Jan");
    } else if m == 1 {
        push_str(s, "Feb");
    } else if m == 2 {
        push_str(s, "Mar");
    } else if m == 3 {
        push_str(s, "Apr");
    } else if m == 4 {
        push_str(s, "May");
    } else if m == 5 {
        push_str(s, "Jun");
    } else if m == 6 {
        push_str(s, "Jul");
    } else if m == 7 {
        push_str(s, "Aug");
    } else if m == 8 {
        push_str(s, "Sep");
    } else if m == 9 {
        push_str(s, "Oct");
    } else if m == 10 {
        push_str(s, "Nov");
    } else {
        push_str(s, "Dec");
    }
}

fn push_two_digits(s: &mut String, n: u64)
    ensures
        final(s)@ == old(s)@ + two_digits(n as nat),
{
    if n < 10 {
        push_char(s, '0');
    }
    push_decimal(s, n);
    assert(final(s)@ =~= old(s)@ + two_digits(n as nat)) by {
        if n < 10 {
            assert(old(s)@.push('0') + decimal(n as nat) =~= old(s)@ + (seq!['0'] + decimal(n as nat)));
        }
    }
}

/// The year and the day within it of a count of days since 1970-01-01.
fn civil_year(days: u64) -> (r: (u64, u64))
    ensures
        (r.0 as nat, r.1 as nat) == year_and_day(days as nat, 1970),
        r.1 <= days,
{
    let mut left: u64 = days;
    let mut y: u64 = 1970;
    while left >= year_length(y)
        invariant
            year_and_day(left as nat, y as nat) == year_and_day(days as nat, 1970),
            left <= days,
            (y - 1970) * 365 <= days - left,
            y >= 1970,
        decreases left,
    {
        let n = year_length(y);
        left = left - n;
        y = y + 1;
    }
    (y, left)
}

/// The month and the day within it of a day within the year `y`.
fn civil_month(day: u64, y: u64) -> (r: (u64, u64))
    ensures
        (r.0 as nat, r.1 as nat) == month_and_day(day as nat, y as nat, 0),
        r.1 <= day,
{
    let mut left: u64 = day;
    let mut m: u64 = 0;
    while m < 11 && left >= month_length(y, m)
        invariant
            m <= 11,
            left <= day,
            month_and_day(left as nat, y as nat, m as nat) == month_and_day(day as nat, y as nat, 0),
        decreases 11 - m,
    {
        let n = month_length(y, m);
        left = left - n;
        m = m + 1;
    }
    (m, left)
}

/// The IMF-fixdate of the moment `epoch` seconds after the Unix epoch.
pub fn imp_date(epoch: u64) -> (r: String)
    ensures
        r@ == http_date(epoch as nat),
{
    let days = epoch / 86400;
    let secs = epoch % 86400;
    let (y, yd) = civil_year(days);
    let (m, d) = civil_month(yd, y);
    let mut s = String::new();
    push_weekday(&mut s, (days + 4) % 7);
    push_str(&mut s, ", ");
    push_two_digits(&mut s, d + 1);
    push_str(&mut s, " ");
    push_month(&mut s, m);
    push_str(&mut s, " ");
    push_decimal(&mut s, y);
    push_str(&mut s, " ");
    push_two_digits(&mut s, secs / 3600);
    push_str(&mut s, ":");
    push_two_digits(&mut s, secs % 3600 / 60);
    push_str(&mut s, ":");
    push_two_digits(&mut s, secs % 60);
    push_str(&mut s, " GMT");
    proof {
        assert(s@ =~= http_date(epoch as nat));
    }
    s
}

/// Middleware that adds the `Date` header to every response.
pub struct Date;

impl Date {
    /// Add the `Date` header, for the moment `epoch` seconds after the Unix
    /// epoch, to a response; the request goes on.
    pub fn post(&self, res: &mut Response, epoch: u64) -> (r: MiddleResult)
        ensures
            r is Continue,
            final(res).headers@.len() == old(res).headers@.len() + 1,
            final(res).headers@.drop_last() == old(res).headers@,
            final(res).headers@.last().name@ == "Date"@,
            final(res).headers@.last().value@ == http_date(epoch as nat),
            final(res).status == old(res).status,
            final(res).reason == old(res).reason,
            final(res).data == old(res).data,
            final(res).flag == old(res).flag,
    {
        let value = imp_date(epoch);
        let h = Header::new("Date", value.as_str());
        res.headers.push(h);
        proof {
            assert(res.headers@.drop_last() =~= old(res).headers@);
        }
        MiddleResult::Continue
    }
}

/// The number of days from 1970-01-01 to day `d` (from 1) of month `m`
/// (from 1, January) of year `y`, by the closed formula of the proleptic
/// Gregorian calendar: the year is counted from March, so that the leap day
/// comes last, and the days before each month of it are `(153 * m + 2) / 5`.
pub open spec fn days_from_civil(y: int, m: int, d: int) -> int {
    let yy = if m <= 2 {
        y - 1
    } else {
        y
    };
    let mp = if m > 2 {
        m - 3
    } else {
        m + 9
    };
    365 * yy + yy / 4 - yy / 100 + yy / 400 + (153 * mp + 2) / 5 + d - 1 - 719468
}

spec fn year_start(yy: int) -> int {
    365 * yy + yy / 4 - yy / 100 + yy / 400
}

proof fn lemma_year_start_step(yy: int)
    requires
        yy >= 0,
    ensures
        year_start(yy + 1) == year_start(yy) + year_days((yy + 1) as nat),
{
    let z = yy + 1;
    assert(z / 4 == yy / 4 + (if z % 4 == 0 { 1int } else { 0 })) by (nonlinear_arith)
        requires
            yy >= 0,
            z == yy + 1,
    ;
    assert(z / 100 == yy / 100 + (if z % 100 == 0 { 1int } else { 0 })) by (nonlinear_arith)
        requires
            yy >= 0,
            z == yy + 1,
    ;
    assert(z / 400 == yy / 400 + (if z % 400 == 0 { 1int } else { 0 })) by (nonlinear_arith)
        requires
            yy >= 0,
            z == yy + 1,
    ;
    assert(z % 400 == 0 ==> z % 100 == 0 && z % 4 == 0) by (nonlinear_arith)
        requires
            z >= 1,
    ;
    assert(z % 100 == 0 ==> z % 4 == 0) by (nonlinear_arith)
        requires
            z >= 1,
    ;
}

proof fn lemma_next_year(y: int)
    requires
        y >= 1,
    ensures
        days_from_civil(y + 1, 1, 1) == days_from_civil(y, 1, 1) + year_days(y as nat),
        days_from_civil(y + 1, 1, 1) == days_from_civil(y, 12, 1) + 31,
{
    lemma_year_start_step(y - 1);
    assert(days_from_civil(y + 1, 1, 1) == year_start(y) + 306 - 719468);
    assert(days_from_civil(y, 1, 1) == year_start(y - 1) + 306 - 719468);
    assert(days_from_civil(y, 12, 1) == year_start(y) + 275 - 719468);
}

proof fn lemma_next_month(y: int, m: int)
    requires
        y >= 1,
        1 <= m <= 11,
    ensures
        days_from_civil(y, m + 1, 1) == days_from_civil(y, m, 1) + month_days(y as nat, (m - 1) as nat),
{
    if m == 2 {
        lemma_year_start_step(y - 1);
        assert(days_from_civil(y, 3, 1) == year_start(y) - 719468);
        assert(days_from_civil(y, 2, 1) == year_start(y - 1) + 337 - 719468);
    } else if m == 1 {
        assert(days_from_civil(y, 2, 1) == year_start(y - 1) + 337 - 719468);
        assert(days_from_civil(y, 1, 1) == year_start(y - 1) + 306 - 719468);
    } else {
        let c = (153 * (m - 3) + 2) / 5;
        let c1 = (153 * (m - 2) + 2) / 5;
        assert(days_from_civil(y, m, 1) == year_start(y) + c - 719468);
        assert(days_from_civil(y, m + 1, 1) == year_start(y) + c1 - 719468);
        if m == 3 {
            assert(c == 0 && c1 == 31);
        } else if m == 4 {
            assert(c == 31 && c1 == 61);
        } else if m == 5 {
            assert(c == 61 && c1 == 92);
        } else if m == 6 {
            assert(c == 92 && c1 == 122);
        } else if m == 7 {
            assert(c == 122 && c1 == 153);
        } else if m == 8 {
            assert(c == 153 && c1 == 184);
        } else if m == 9 {
            assert(c == 184 && c1 == 214);
        } else if m == 10 {
            assert(c == 214 && c1 == 245);
        } else {
            assert(c == 245 && c1 == 275);
        }
    }
}

/// The first day after month `m` (from 0) of year `y`.
pub open spec fn next_month_start(y: int, m: int) -> int {
    if m < 11 {
        days_from_civil(y, m + 2, 1)
    } else {
        days_from_civil(y + 1, 1, 1)
    }
}

proof fn lemma_months(day: nat, y: nat, m: nat)
    requires
        y >= 1,
        m <= 11,
        days_from_civil(y as int, m as int + 1, 1) + day < days_from_civil(y as int + 1, 1, 1),
    ensures
        ({
            let (mm, dd) = month_and_day(day, y, m);
            &&& m <= mm <= 11
            &&& days_from_civil(y as int, mm as int + 1, dd as int + 1) == days_from_civil(y as int, m as int + 1, 1) + day
            &&& days_from_civil(y as int, mm as int + 1, dd as int + 1) < next_month_start(y as int, mm as int)
        }),
    decreases 12 - m,
{
    lemma_next_year(y as int);
    if m >= 11 {
    } else {
        lemma_next_month(y as int, m as int + 1);
        if day >= month_days(y, m) {
            lemma_months((day - month_days(y, m)) as nat, y, m + 1);
        }
    }
}

proof fn lemma_years(days: nat, y: nat, n: int)
    requires
        y >= 1970,
        days_from_civil(y as int, 1, 1) + days == n,
    ensures
        ({
            let (yy, yd) = year_and_day(days, y);
            &&& yy >= y
            &&& yd < year_days(yy)
            &&& days_from_civil(yy as int, 1, 1) + yd == n
        }),
    decreases days,
{
    lemma_next_year(y as int);
    if days >= year_days(y) {
        lemma_years((days - year_days(y)) as nat, y + 1, n);
    }
}

/// The date of the day `days` days after 1970-01-01 is the calendar date:
/// the Gregorian closed formula gives back `days` for it, and it comes
/// before the first day of the next month, so that it is the one date of
/// that day.
pub proof fn lemma_civil_date(days: nat)
    ensures
        ({
            let (y, yd) = year_and_day(days, 1970);
            let (m, d) = month_and_day(yd, y, 0);
            &&& y >= 1970
            &&& m < 12
            &&& days_from_civil(y as int, m as int + 1, d as int + 1) == days
            &&& days_from_civil(y as int, m as int + 1, d as int + 1) < next_month_start(y as int, m as int)
        }),
{
    assert(days_from_civil(1970, 1, 1) == 0);
    lemma_years(days, 1970, days as int);
    let (y, yd) = year_and_day(days, 1970);
    lemma_next_year(y as int);
    lemma_months(yd, y, 0);
}

/// The names in the date are the English short names: of the days of the
/// week from Sunday, and of the months from January.
pub proof fn lemma_date_names()
    ensures
        weekday_name(4) == "Thu"@,
        weekday_name(0) == "Sun"@ && weekday_name(1) == "Mon"@ && weekday_name(2) == "Tue"@
            && weekday_name(3) == "Wed"@ && weekday_name(5) == "Fri"@ && weekday_name(6) == "Sat"@,
        month_name(0) == "Jan"@ && month_name(1) == "Feb"@ && month_name(2) == "Mar"@ && month_name(3)
            == "Apr"@ && month_name(4) == "May"@ && month_name(5) == "Jun"@ && month_name(6) == "Jul"@
            && month_name(7) == "Aug"@ && month_name(8) == "Sep"@ && month_name(9) == "Oct"@
            && month_name(10) == "Nov"@ && month_name(11) == "Dec"@,
{
}

} // verus!
