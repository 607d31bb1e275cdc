//! Human-readable rendering of timestamp-shaped header values.
//!
//! A value of the shape `YYYY-MM-DDThh:mm:ss`, optionally with a fractional
//! second, and ending in `Z` (or `z`) or a `+HH:MM`/`-HH:MM` offset, renders
//! as `{Month} {DD}, {YYYY}, {hh}:{mm}{am|pm} (UTC{+/-H})`. Anything else
//! renders as its literal text.

use vstd::prelude::*;
use crate::text::{
    leading_while, lemma_leading_while, lemma_leading_while_is, trim_spec, trim_chars, dec_spec,
    dec_chars, dec2_spec, dec2_chars, push_chars, push_str_chars, sub_chars,
};
use crate::header::{is_digit, is_digit_exec};

verus! {

/// A parsed timestamp: year, month, day, hour, minute, and the whole hours
/// of the UTC offset (signed).
pub struct Stamp {
    pub year: u32,
    pub month: u32,
    pub day: u32,
    pub hour: u32,
    pub minute: u32,
    pub off_neg: bool,
    pub off_hours: u32,
}

pub open spec fn digit_val(c: char) -> int {
    c as int - '0' as int
}

pub open spec fn num2(t: Seq<char>, i: int) -> int {
    digit_val(t[i]) * 10 + digit_val(t[i + 1])
}

pub open spec fn num4(t: Seq<char>, i: int) -> int {
    digit_val(t[i]) * 1000 + digit_val(t[i + 1]) * 100 + digit_val(t[i + 2]) * 10 + digit_val(
        t[i + 3],
    )
}

pub open spec fn digits2_at(t: Seq<char>, i: int) -> bool {
    is_digit(t[i]) && is_digit(t[i + 1])
}

/// The fixed date-time prefix `YYYY-MM-DDThh:mm:ss`.
pub open spec fn prefix_ok(t: Seq<char>) -> bool {
    &&& t.len() >= 20
    &&& is_digit(t[0]) && is_digit(t[1]) && is_digit(t[2]) && is_digit(t[3])
    &&& t[4] == '-'
    &&& digits2_at(t, 5)
    &&& t[7] == '-'
    &&& digits2_at(t, 8)
    &&& t[10] == 'T'
    &&& digits2_at(t, 11)
    &&& t[13] == ':'
    &&& digits2_at(t, 14)
    &&& t[16] == ':'
    &&& digits2_at(t, 17)
}

/// The index where the offset begins: after the seconds, skipping one
/// optional `.` followed by digits.
pub open spec fn offset_start(t: Seq<char>) -> int {
    if t.len() > 19 && t[19] == '.' {
        20 + leading_while(t.skip(20), |c: char| is_digit(c))
    } else {
        19
    }
}

/// A valid offset tail: `Z`/`z` closing the value, or a sign, two hour
/// digits, a colon, and two minute digits closing the value. A fractional
/// point must be followed by at least one digit.
pub open spec fn offset_ok(t: Seq<char>) -> bool {
    let j = offset_start(t);
    &&& (t.len() > 19 && t[19] == '.' ==> j > 20)
    &&& ((j == t.len() - 1 && (t[j] == 'Z' || t[j] == 'z')) || (j == t.len() - 6 && (t[j] == '+'
        || t[j] == '-') && digits2_at(t, j + 1) && t[j + 3] == ':' && digits2_at(t, j + 4)
        && num2(t, j + 1) <= 23 && num2(t, j + 4) <= 59))
}

pub open spec fn is_leap_year(y: int) -> bool {
    y % 4 == 0 && (y % 100 != 0 || y % 400 == 0)
}

/// The number of days of a month, leap years included.
pub open spec fn days_in_month(y: int, m: int) -> int {
    if m == 4 || m == 6 || m == 9 || m == 11 {
        30
    } else if m == 2 {
        if is_leap_year(y) {
            29
        } else {
            28
        }
    } else {
        31
    }
}

/// Field ranges: month 1..12, a day the month actually has, hour to 23,
/// minute and second to 59.
pub open spec fn ranges_ok(t: Seq<char>) -> bool {
    &&& 1 <= num2(t, 5) <= 12
    &&& 1 <= num2(t, 8) <= days_in_month(num4(t, 0), num2(t, 5))
    &&& num2(t, 11) <= 23
    &&& num2(t, 14) <= 59
    &&& num2(t, 17) <= 59
}

pub open spec fn ts_ok(t: Seq<char>) -> bool {
    prefix_ok(t) && offset_ok(t) && ranges_ok(t)
}

/// The parsed fields of a valid timestamp.
pub open spec fn ts_fields(t: Seq<char>) -> Stamp {
    let j = offset_start(t);
    Stamp {
        year: num4(t, 0) as u32,
        month: num2(t, 5) as u32,
        day: num2(t, 8) as u32,
        hour: num2(t, 11) as u32,
        minute: num2(t, 14) as u32,
        off_neg: j < t.len() && t[j] == '-',
        off_hours: if j == t.len() - 6 {
            num2(t, j + 1) as u32
        } else {
            0
        },
    }
}

/// The long month name; months are numbered from one.
pub open spec fn month_name(m: int) -> Seq<char> {
    if m == 1 {
        "January"@
    } else if m == 2 {
        "February"@
    } else if m == 3 {
        "March"@
    } else if m == 4 {
        "April"@
    } else if m == 5 {
        "May"@
    } else if m == 6 {
        "June"@
    } else if m == 7 {
        "July"@
    } else if m == 8 {
        "August"@
    } else if m == 9 {
        "September"@
    } else if m == 10 {
        "October"@
    } else if m == 11 {
        "November"@
    } else {
        "December"@
    }
}

/// A year, zero-padded to four digits.
pub open spec fn dec4_spec(n: nat) -> Seq<char> {
    if n < 10 {
        seq!['0', '0', '0'] + dec_spec(n)
    } else if n < 100 {
        seq!['0', '0'] + dec_spec(n)
    } else if n < 1000 {
        seq!['0'] + dec_spec(n)
    } else {
        dec_spec(n)
    }
}

fn dec4_chars(n: u32) -> (r: Vec<char>)
    ensures
        r@ == dec4_spec(n as nat),
{
    let mut out: Vec<char> = Vec::new();
    if n < 10 {
        out.push('0');
        out.push('0');
        out.push('0');
    } else if n < 100 {
        out.push('0');
        out.push('0');
    } else if n < 1000 {
        out.push('0');
    }
    let d = dec_chars(n);
    push_chars(&mut out, &d);
    assert(out@ =~= dec4_spec(n as nat));
    out
}

/// The twelve-hour clock: hour 0 is 12am, 12 is 12pm, 13 on are pm.
pub open spec fn hour12(h: int) -> int {
    if h == 0 {
        12
    } else if h <= 12 {
        h
    } else {
        h - 12
    }
}

pub open spec fn is_pm(h: int) -> bool {
    h >= 12
}

/// The zone label: `UTC` at zero offset, else `UTC` with the signed whole
/// hours.
pub open spec fn tz_label(off_neg: bool, off_hours: int) -> Seq<char> {
    if off_hours == 0 {
        "UTC"@
    } else if off_neg {
        "UTC-"@ + dec_spec(off_hours as nat)
    } else {
        "UTC+"@ + dec_spec(off_hours as nat)
    }
}

/// The rendered form of a parsed timestamp.
pub open spec fn fmt_stamp(s: Stamp) -> Seq<char> {
    month_name(s.month as int) + " "@ + dec2_spec(s.day as nat) + ", "@ + dec4_spec(s.year as nat)
        + ", "@ + dec2_spec(hour12(s.hour as int) as nat) + ":"@ + dec2_spec(s.minute as nat) + (
    if is_pm(s.hour as int) {
        "pm"@
    } else {
        "am"@
    }) + " ("@ + tz_label(s.off_neg, s.off_hours as int) + ")"@
}

/// The human-readable form of a timestamp-shaped value: a value without a
/// `T`, or whose trimmed form is not a valid timestamp, stays literal.
pub open spec fn humanize_spec(raw: Seq<char>) -> Seq<char> {
    if raw.len() == 0 || !(exists|i: int| 0 <= i < raw.len() && raw[i] == 'T') {
        raw
    } else if ts_ok(trim_spec(raw)) {
        fmt_stamp(ts_fields(trim_spec(raw)))
    } else {
        raw
    }
}

fn month_name_exec(m: u32) -> (r: &'static str)
    ensures
        r@ == month_name(m as int),
{
    if m == 1 {
        "January"
    } else if m == 2 {
        "February"
    } else if m == 3 {
        "March"
    } else if m == 4 {
        "April"
    } else if m == 5 {
        "May"
    } else if m == 6 {
        "June"
    } else if m == 7 {
        "July"
    } else if m == 8 {
        "August"
    } else if m == 9 {
        "September"
    } else if m == 10 {
        "October"
    } else if m == 11 {
        "November"
    } else {
        "December"
    }
}

fn num2_exec(t: &Vec<char>, i: usize) -> (r: u32)
    requires
        i + 2 <= t@.len(),
        digits2_at(t@, i as int),
    ensures
        r as int == num2(t@, i as int),
        r <= 99,
{
    let n = t.len();
    assert(i < n);
    let a = t[i] as u32 - '0' as u32;
    let b = t[i + 1] as u32 - '0' as u32;
    a * 10 + b
}

fn num4_exec(t: &Vec<char>, i: usize) -> (r: u32)
    requires
        i + 4 <= t@.len(),
        is_digit(t@[i as int]),
        is_digit(t@[i as int + 1]),
        is_digit(t@[i as int + 2]),
        is_digit(t@[i as int + 3]),
    ensures
        r as int == num4(t@, i as int),
        r <= 9999,
{
    let n = t.len();
    assert(i < n);
    let a = t[i] as u32 - '0' as u32;
    let b = t[i + 1] as u32 - '0' as u32;
    let c = t[i + 2] as u32 - '0' as u32;
    let d = t[i + 3] as u32 - '0' as u32;
    a * 1000 + b * 100 + c * 10 + d
}

/// Parse a trimmed value as a timestamp.
#[verifier::loop_isolation(false)]
fn parse_stamp(t: &Vec<char>) -> (r: Option<Stamp>)
    ensures
        r is Some <==> ts_ok(t@),
        r matches Some(s) ==> s == ts_fields(t@),
{
    if t.len() < 20 {
        return None;
    }
    if !(is_digit_exec(t[0]) && is_digit_exec(t[1]) && is_digit_exec(t[2]) && is_digit_exec(t[3])) {
        return None;
    }
    if t[4] != '-' || !(is_digit_exec(t[5]) && is_digit_exec(t[6])) || t[7] != '-'
        || !(is_digit_exec(t[8]) && is_digit_exec(t[9])) || t[10] != 'T' || !(is_digit_exec(t[11])
        && is_digit_exec(t[12])) || t[13] != ':' || !(is_digit_exec(t[14]) && is_digit_exec(
        t[15],
    )) || t[16] != ':' || !(is_digit_exec(t[17]) && is_digit_exec(t[18])) {
        return None;
    }
    assert(prefix_ok(t@));
    // fractional second
    let ghost dg = |c: char| is_digit(c);
    let j: usize = if t.len() > 19 && t[19] == '.' {
        let mut k: usize = 20;
        while k < t.len() && is_digit_exec(t[k])
            invariant
                20 <= k <= t@.len(),
                forall|m: int| 20 <= m < k ==> is_digit(t@[m]),
            decreases t@.len() - k,
        {
            k = k + 1;
        }
        proof {
            assert forall|m: int| 0 <= m < k - 20 implies dg(t@.skip(20)[m]) by {
                assert(t@.skip(20)[m] == t@[m + 20]);
            }
            if (k as int) < t@.len() {
                assert(t@.skip(20)[k - 20] == t@[k as int]);
            }
            lemma_leading_while_is(t@.skip(20), dg, k - 20 as int);
        }
        if k == 20 {
            return None;
        }
        k
    } else {
        19
    };
    assert(j as int == offset_start(t@));
    // offset
    let off: (bool, u32) = if j == t.len() - 1 && (t[j] == 'Z' || t[j] == 'z') {
        (false, 0)
    } else if j == t.len() - 6 && (t[j] == '+' || t[j] == '-') && is_digit_exec(t[j + 1])
        && is_digit_exec(t[j + 2]) && t[j + 3] == ':' && is_digit_exec(t[j + 4]) && is_digit_exec(
        t[j + 5],
    ) {
        let oh = num2_exec(t, j + 1);
        let om = num2_exec(t, j + 4);
        if oh > 23 || om > 59 {
            return None;
        }
        (t[j] == '-', oh)
    } else {
        assert(!offset_ok(t@));
        return None;
    };
    assert(offset_ok(t@));
    let year = num4_exec(t, 0);
    let month = num2_exec(t, 5);
    let day = num2_exec(t, 8);
    let hour = num2_exec(t, 11);
    let minute = num2_exec(t, 14);
    let sec = num2_exec(t, 17);
    let dim: u32 = if month == 4 || month == 6 || month == 9 || month == 11 {
        30
    } else if month == 2 {
        if year % 4 == 0 && (year % 100 != 0 || year % 400 == 0) {
            29
        } else {
            28
        }
    } else {
        31
    };
    assert(dim as int == days_in_month(year as int, month as int));
    if !(1 <= month && month <= 12 && 1 <= day && day <= dim && hour <= 23 && minute <= 59 && sec
        <= 59) {
        assert(!ranges_ok(t@));
        return None;
    }
    assert(ranges_ok(t@));
    Some(
        Stamp {
            year,
            month,
            day,
            hour,
            minute,
            off_neg: t[j] == '-',
            off_hours: off.1,
        },
    )
}

/// Render a timestamp-shaped value in human-readable form; a value that is
/// not a valid timestamp stays literal.
#[verifier::loop_isolation(false)]
pub fn humanize_timestamp(raw: &Vec<char>) -> (r: Vec<char>)
    ensures
        r@ == humanize_spec(raw@),
{
    let mut has_t = false;
    let mut i: usize = 0;
    while i < raw.len()
        invariant
            i <= raw@.len(),
            has_t == exists|j: int| 0 <= j < i && raw@[j] == 'T',
        decreases raw@.len() - i,
    {
        if raw[i] == 'T' {
            has_t = true;
        }
        i = i + 1;
    }
    if raw.len() == 0 || !has_t {
        return raw.clone();
    }
    let t = trim_chars(raw);
    match parse_stamp(&t) {
        None => raw.clone(),
        Some(s) => {
            let mut out: Vec<char> = Vec::new();
            push_str_chars(&mut out, month_name_exec(s.month));
            push_str_chars(&mut out, " ");
            let d2 = dec2_chars(s.day);
            push_chars(&mut out, &d2);
            push_str_chars(&mut out, ", ");
            let y4 = dec4_chars(s.year);
            push_chars(&mut out, &y4);
            push_str_chars(&mut out, ", ");
            let h: u32 = if s.hour == 0 {
                12
            } else if s.hour <= 12 {
                s.hour
            } else {
                s.hour - 12
            };
            let h2 = dec2_chars(h);
            push_chars(&mut out, &h2);
            push_str_chars(&mut out, ":");
            let m2 = dec2_chars(s.minute);
            push_chars(&mut out, &m2);
            if s.hour >= 12 {
                push_str_chars(&mut out, "pm");
            } else {
                push_str_chars(&mut out, "am");
            }
            push_str_chars(&mut out, " (");
            if s.off_hours == 0 {
                push_str_chars(&mut out, "UTC");
            } else if s.off_neg {
                push_str_chars(&mut out, "UTC-");
                let oh = dec_chars(s.off_hours);
                push_chars(&mut out, &oh);
            } else {
                push_str_chars(&mut out, "UTC+");
                let oh = dec_chars(s.off_hours);
                push_chars(&mut out, &oh);
            }
            push_str_chars(&mut out, ")");
            assert(out@ =~= fmt_stamp(s));
            out
        },
    }
}

} // verus!
