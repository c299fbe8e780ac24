//! The coarse clock: a cached, preformatted IMF-fixdate timestamp.
//!
//! One [`Clock`] per worker caches the formatted current time; every
//! connection reads it while encoding a response head, and the worker
//! refreshes it on its own coarse cadence, so formatting cost is bounded by
//! the refresh rate, not the request rate. [`format_imf_date`] is the
//! verified formatter: day name, day, month name, year, time of day and the
//! `GMT` tag, computed from a count of seconds since the Unix epoch.

use vstd::prelude::*;

use crate::ascii::{ascii_seq, push_str};

verus! {

/// Gregorian leap-year rule.
pub open spec fn is_leap(y: int) -> bool {
    y % 4 == 0 && (y % 100 != 0 || y % 400 == 0)
}

pub open spec fn year_len(y: int) -> int {
    if is_leap(y) {
        366
    } else {
        365
    }
}

/// Days in month `m` (1-based) of year `y`.
pub open spec fn month_len(y: int, m: int) -> int {
    if m == 2 {
        if is_leap(y) {
            29
        } else {
            28
        }
    } else if m == 4 || m == 6 || m == 9 || m == 11 {
        30
    } else {
        31
    }
}

/// Month and day of month from a zero-based day of year `d` in year `y`.
pub open spec fn md_from(y: int, m: int, d: int) -> (int, int)
    decreases 12 - m,
{
    if m >= 12 || d < month_len(y, m) {
        (m, d + 1)
    } else {
        md_from(y, m + 1, d - month_len(y, m))
    }
}

/// Year, month and day of month from a count of days since 1970-01-01.
pub open spec fn ymd_from(y: int, d: int) -> (int, int, int)
    decreases d,
{
    if d < year_len(y) {
        let md = md_from(y, 1, d);
        (y, md.0, md.1)
    } else {
        ymd_from(y + 1, d - year_len(y))
    }
}

pub open spec fn civil_date(days: int) -> (int, int, int) {
    ymd_from(1970, days)
}

/// Two decimal digits, zero padded.
pub open spec fn two_dec(n: int) -> Seq<u8> {
    seq![(48 + (n / 10) % 10) as u8, (48 + n % 10) as u8]
}

/// Four decimal digits, zero padded.
pub open spec fn four_dec(n: int) -> Seq<u8> {
    seq![
        (48 + (n / 1000) % 10) as u8,
        (48 + (n / 100) % 10) as u8,
        (48 + (n / 10) % 10) as u8,
        (48 + n % 10) as u8,
    ]
}

/// Day-of-week name; 0 is Sunday.
pub open spec fn weekday_name(w: int) -> Seq<u8> {
    if w == 0 {
        ascii_seq("Sun"@)
    } else if w == 1 {
        ascii_seq("Mon"@)
    } else if w == 2 {
        ascii_seq("Tue"@)
    } else if w == 3 {
        ascii_seq("Wed"@)
    } else if w == 4 {
        ascii_seq("Thu"@)
    } else if w == 5 {
        ascii_seq("Fri"@)
    } else {
        ascii_seq("Sat"@)
    }
}

/// Month name, 1-based; months outside 1 to 12 render as nothing.
pub open spec fn month_name(m: int) -> Seq<u8> {
    if m == 1 {
        ascii_seq("Jan"@)
    } else if m == 2 {
        ascii_seq("Feb"@)
    } else if m == 3 {
        ascii_seq("Mar"@)
    } else if m == 4 {
        ascii_seq("Apr"@)
    } else if m == 5 {
        ascii_seq("May"@)
    } else if m == 6 {
        ascii_seq("Jun"@)
    } else if m == 7 {
        ascii_seq("Jul"@)
    } else if m == 8 {
        ascii_seq("Aug"@)
    } else if m == 9 {
        ascii_seq("Sep"@)
    } else if m == 10 {
        ascii_seq("Oct"@)
    } else if m == 11 {
        ascii_seq("Nov"@)
    } else if m == 12 {
        ascii_seq("Dec"@)
    } else {
        Seq::empty()
    }
}

/// The IMF-fixdate rendering of a count of seconds since the Unix epoch, as
/// carried by the `Date` header: `Sun, 06 Nov 1994 08:49:37 GMT`.
pub open spec fn spec_imf_date(secs: int) -> Seq<u8> {
    let days = secs / 86400;
    let sod = secs % 86400;
    let ymd = civil_date(days);
    weekday_name((days + 4) % 7) + ascii_seq(", "@) + two_dec(ymd.2) + ascii_seq(" "@)
        + month_name(ymd.1) + ascii_seq(" "@) + four_dec(ymd.0) + ascii_seq(" "@) + two_dec(
        sod / 3600,
    ) + ascii_seq(":"@) + two_dec((sod % 3600) / 60) + ascii_seq(":"@) + two_dec(sod % 60)
        + ascii_seq(" GMT"@)
}

fn year_len_exec(y: u64) -> (r: u64)
    requires
        y < 100000,
    ensures
        r as int == year_len(y as int),
{
    if y % 4 == 0 && (y % 100 != 0 || y % 400 == 0) {
        366
    } else {
        365
    }
}

fn month_len_exec(y: u64, m: u64) -> (r: u64)
    requires
        y < 100000,
    ensures
        r as int == month_len(y as int, m as int),
{
    if m == 2 {
        if y % 4 == 0 && (y % 100 != 0 || y % 400 == 0) {
            29
        } else {
            28
        }
    } else if m == 4 || m == 6 || m == 9 || m == 11 {
        30
    } else {
        31
    }
}

fn push_two(buf: &mut Vec<u8>, n: u64)
    ensures
        final(buf)@ == old(buf)@ + two_dec(n as int),
{
    let hi: u64 = (n / 10) % 10;
    let lo: u64 = n % 10;
    buf.push((48 + hi) as u8);
    buf.push((48 + lo) as u8);
    proof {
        assert(buf@ =~= old(buf)@ + two_dec(n as int));
    }
}

fn push_four(buf: &mut Vec<u8>, n: u64)
    ensures
        final(buf)@ == old(buf)@ + four_dec(n as int),
{
    let d0: u64 = (n / 1000) % 10;
    let d1: u64 = (n / 100) % 10;
    let d2: u64 = (n / 10) % 10;
    let d3: u64 = n % 10;
    buf.push((48 + d0) as u8);
    buf.push((48 + d1) as u8);
    buf.push((48 + d2) as u8);
    buf.push((48 + d3) as u8);
    proof {
        assert(buf@ =~= old(buf)@ + four_dec(n as int));
    }
}

/// Formats `secs` seconds since the Unix epoch as an IMF-fixdate.
#[verifier::rlimit(60)]
pub fn format_imf_date(secs: u64) -> (r: Vec<u8>)
    requires
        secs < 253402300800,  // midnight, year 10000: four year digits suffice
    ensures
        r@ == spec_imf_date(secs as int),
{
    proof {
        reveal_strlit(", ");
        reveal_strlit(" ");
        reveal_strlit(":");
        reveal_strlit(" GMT");
        reveal_strlit("Sun");
        reveal_strlit("Mon");
        reveal_strlit("Tue");
        reveal_strlit("Wed");
        reveal_strlit("Thu");
        reveal_strlit("Fri");
        reveal_strlit("Sat");
        reveal_strlit("Jan");
        reveal_strlit("Feb");
        reveal_strlit("Mar");
        reveal_strlit("Apr");
        reveal_strlit("May");
        reveal_strlit("Jun");
        reveal_strlit("Jul");
        reveal_strlit("Aug");
        reveal_strlit("Sep");
        reveal_strlit("Oct");
        reveal_strlit("Nov");
        reveal_strlit("Dec");
    }
    let days: u64 = secs / 86400;
    let sod: u64 = secs % 86400;
    let w: u64 = (days + 4) % 7;

    // Peel whole years off the day count.
    let mut y: u64 = 1970;
    let mut d: u64 = days;
    loop
        invariant_except_break
            1970 <= y,
            d <= days,
            365 * (y - 1970) <= days - d,
            days < 2932897,
            civil_date(days as int) == ymd_from(y as int, d as int),
        ensures
            1970 <= y < 100000,
            d <= days,
            civil_date(days as int) == ymd_from(y as int, d as int),
            d < year_len(y as int),
        decreases d,
    {
        proof {
            assert(y < 100000);
        }
        let yl = year_len_exec(y);
        if d < yl {
            break ;
        }
        d -= yl;
        y += 1;
    }

    // Peel whole months off the remaining day-of-year.
    let ghost d0 = d as int;
    let mut m: u64 = 1;
    loop
        invariant_except_break
            1 <= m <= 12,
            y < 100000,
            d < 366,
            md_from(y as int, 1, d0) == md_from(y as int, m as int, d as int),
        ensures
            1 <= m <= 12,
            d < 366,
            md_from(y as int, 1, d0) == (m as int, d as int + 1),
        decreases 12 - m,
    {
        let ml = month_len_exec(y, m);
        if m >= 12 || d < ml {
            break ;
        }
        d -= ml;
        m += 1;
    }
    let day: u64 = d + 1;

    let hh: u64 = sod / 3600;
    let mm: u64 = (sod % 3600) / 60;
    let ss: u64 = sod % 60;

    let mut out: Vec<u8> = Vec::new();
    if w == 0 {
        push_str(&mut out, "Sun");
    } else if w == 1 {
        push_str(&mut out, "Mon");
    } else if w == 2 {
        push_str(&mut out, "Tue");
    } else if w == 3 {
        push_str(&mut out, "Wed");
    } else if w == 4 {
        push_str(&mut out, "Thu");
    } else if w == 5 {
        push_str(&mut out, "Fri");
    } else {
        push_str(&mut out, "Sat");
    }
    push_str(&mut out, ", ");
    push_two(&mut out, day);
    push_str(&mut out, " ");
    if m == 1 {
        push_str(&mut out, "Jan");
    } else if m == 2 {
        push_str(&mut out, "Feb");
    } else if m == 3 {
        push_str(&mut out, "Mar");
    } else if m == 4 {
        push_str(&mut out, "Apr");
    } else if m == 5 {
        push_str(&mut out, "May");
    } else if m == 6 {
        push_str(&mut out, "Jun");
    } else if m == 7 {
        push_str(&mut out, "Jul");
    } else if m == 8 {
        push_str(&mut out, "Aug");
    } else if m == 9 {
        push_str(&mut out, "Sep");
    } else if m == 10 {
        push_str(&mut out, "Oct");
    } else if m == 11 {
        push_str(&mut out, "Nov");
    } else {
        push_str(&mut out, "Dec");
    }
    push_str(&mut out, " ");
    push_four(&mut out, y);
    push_str(&mut out, " ");
    push_two(&mut out, hh);
    push_str(&mut out, ":");
    push_two(&mut out, mm);
    push_str(&mut out, ":");
    push_two(&mut out, ss);
    push_str(&mut out, " GMT");
    proof {
        let ymd = civil_date(days as int);
        assert(ymd.0 == y as int && ymd.1 == m as int && ymd.2 == day as int);
        assert(out@ =~= spec_imf_date(secs as int));
    }
    out
}

/// The worker's clock: one cached formatted timestamp, shared by every
/// connection, refreshed on a coarse schedule rather than per request.
pub struct Clock {
    /// The cached IMF-fixdate bytes.
    pub date: Vec<u8>,
}

impl Clock {
    /// A clock freshly formatted for `now_secs` seconds since the epoch.
    pub fn new(now_secs: u64) -> (c: Clock)
        requires
            now_secs < 253402300800,
        ensures
            c.date@ == spec_imf_date(now_secs as int),
    {
        Clock { date: format_imf_date(now_secs) }
    }

    /// Reformats the cached timestamp for a later reading of the wall clock.
    pub fn refresh(&mut self, now_secs: u64)
        requires
            now_secs < 253402300800,
        ensures
            final(self).date@ == spec_imf_date(now_secs as int),
    {
        self.date = format_imf_date(now_secs);
    }

    /// The cached timestamp, read by the codec on every head encode.
    pub fn get(&self) -> (r: &Vec<u8>)
        ensures
            r@ == self.date@,
    {
        &self.date
    }
}

} // verus!
