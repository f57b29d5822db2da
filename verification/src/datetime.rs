//! Turning the endpoint's UTC timestamps (`YYYY-MM-DDTHH:MM:SSZ`, proleptic
//! Gregorian) into the epoch seconds the window filter compares.

use vstd::prelude::*;

use crate::text::chars_of;

verus! {

/// A Gregorian leap year.
pub open spec fn is_leap(y: int) -> bool {
    (y % 4 == 0 && y % 100 != 0) || y % 400 == 0
}

/// The number of leap years in `[1, y)`.
pub open spec fn leaps_before(y: int) -> int {
    (y - 1) / 4 - (y - 1) / 100 + (y - 1) / 400
}

/// The number of days between 1970-01-01 and the first day of year `y`.
pub open spec fn days_before_year(y: int) -> int {
    (y - 1970) * 365 + leaps_before(y) - leaps_before(1970)
}

/// The number of days of year `y` that precede the first day of month `m`.
pub open spec fn days_before_month(m: int, leap: bool) -> int {
    let base = if m == 1 {
        0int
    } else if m == 2 {
        31int
    } else if m == 3 {
        59int
    } else if m == 4 {
        90int
    } else if m == 5 {
        120int
    } else if m == 6 {
        151int
    } else if m == 7 {
        181int
    } else if m == 8 {
        212int
    } else if m == 9 {
        243int
    } else if m == 10 {
        273int
    } else if m == 11 {
        304int
    } else {
        334int
    };
    if leap && m >= 3 {
        base + 1
    } else {
        base
    }
}

/// The epoch seconds of the UTC instant `y-m-d h:mi:s`.
pub open spec fn epoch_seconds(y: int, m: int, d: int, h: int, mi: int, s: int) -> int {
    (days_before_year(y) + days_before_month(m, is_leap(y)) + d - 1) * 86400 + h * 3600 + mi * 60
        + s
}

/// A decimal digit.
pub open spec fn is_digit(c: char) -> bool {
    '0' <= c && c <= '9'
}

/// The value of a decimal digit.
pub open spec fn digit_val(c: char) -> int {
    c as int - '0' as int
}

/// The value of the two digits at `i`.
pub open spec fn num2(s: Seq<char>, i: int) -> int {
    digit_val(s[i]) * 10 + digit_val(s[i + 1])
}

/// The value of the four digits at `i`.
pub open spec fn num4(s: Seq<char>, i: int) -> int {
    digit_val(s[i]) * 1000 + digit_val(s[i + 1]) * 100 + digit_val(s[i + 2]) * 10 + digit_val(
        s[i + 3],
    )
}

/// A well-formed timestamp text: exactly `YYYY-MM-DDTHH:MM:SSZ`, with the
/// year from 1970 on, the month and the clock fields in range. Days are
/// checked against 31, not against the month's own length.
pub open spec fn valid_timestamp_text(s: Seq<char>) -> bool {
    &&& s.len() == 20
    &&& is_digit(s[0]) && is_digit(s[1]) && is_digit(s[2]) && is_digit(s[3])
    &&& s[4] == '-'
    &&& is_digit(s[5]) && is_digit(s[6])
    &&& s[7] == '-'
    &&& is_digit(s[8]) && is_digit(s[9])
    &&& s[10] == 'T'
    &&& is_digit(s[11]) && is_digit(s[12])
    &&& s[13] == ':'
    &&& is_digit(s[14]) && is_digit(s[15])
    &&& s[16] == ':'
    &&& is_digit(s[17]) && is_digit(s[18])
    &&& s[19] == 'Z'
    &&& 1970 <= num4(s, 0)
    &&& 1 <= num2(s, 5) <= 12
    &&& 1 <= num2(s, 8) <= 31
    &&& num2(s, 11) <= 23
    &&& num2(s, 14) <= 59
    &&& num2(s, 17) <= 59
}

/// The epoch seconds a well-formed timestamp text denotes.
pub open spec fn timestamp_value(s: Seq<char>) -> int {
    epoch_seconds(num4(s, 0), num2(s, 5), num2(s, 8), num2(s, 11), num2(s, 14), num2(s, 17))
}

fn digit_at(cs: &Vec<char>, i: usize) -> (r: Option<u32>)
    requires
        i < cs@.len(),
    ensures
        match r {
            Some(v) => is_digit(cs@[i as int]) && v == digit_val(cs@[i as int]) && v <= 9,
            None => !is_digit(cs@[i as int]),
        },
{
    let c = cs[i];
    if c >= '0' && c <= '9' {
        Some(c as u32 - '0' as u32)
    } else {
        None
    }
}

fn num2_at(cs: &Vec<char>, i: usize) -> (r: Option<u32>)
    requires
        i + 1 < cs@.len(),
    ensures
        match r {
            Some(v) => is_digit(cs@[i as int]) && is_digit(cs@[i as int + 1]) && v == num2(
                cs@,
                i as int,
            ) && v <= 99,
            None => !(is_digit(cs@[i as int]) && is_digit(cs@[i as int + 1])),
        },
{
    let n = cs.len();
    proof {
        assert(i + 1 < n);
    }
    match digit_at(cs, i) {
        None => None,
        Some(a) => match digit_at(cs, i + 1) {
            None => None,
            Some(b) => Some(a * 10 + b),
        },
    }
}

fn num4_at(cs: &Vec<char>, i: usize) -> (r: Option<u32>)
    requires
        i + 3 < cs@.len(),
    ensures
        match r {
            Some(v) => is_digit(cs@[i as int]) && is_digit(cs@[i as int + 1]) && is_digit(
                cs@[i as int + 2],
            ) && is_digit(cs@[i as int + 3]) && v == num4(cs@, i as int) && v <= 9999,
            None => !(is_digit(cs@[i as int]) && is_digit(cs@[i as int + 1]) && is_digit(
                cs@[i as int + 2],
            ) && is_digit(cs@[i as int + 3])),
        },
{
    let n = cs.len();
    proof {
        assert(i + 3 < n);
    }
    match num2_at(cs, i) {
        None => None,
        Some(a) => match num2_at(cs, i + 2) {
            None => None,
            Some(b) => Some(a * 100 + b),
        },
    }
}

/// Reads a UTC timestamp text into epoch seconds; yields nothing on any text
/// that is not a well-formed timestamp.
pub fn parse_timestamp(s: &str) -> (r: Option<i64>)
    ensures
        match r {
            Some(t) => valid_timestamp_text(s@) && t == timestamp_value(s@),
            None => !valid_timestamp_text(s@),
        },
{
    let cs = chars_of(s);
    if cs.len() != 20 {
        return None;
    }
    if !(cs[4] == '-' && cs[7] == '-' && cs[10] == 'T' && cs[13] == ':' && cs[16] == ':' && cs[19]
        == 'Z') {
        return None;
    }
    let year = match num4_at(&cs, 0) {
        None => {
            return None;
        },
        Some(v) => v,
    };
    let month = match num2_at(&cs, 5) {
        None => {
            return None;
        },
        Some(v) => v,
    };
    let day = match num2_at(&cs, 8) {
        None => {
            return None;
        },
        Some(v) => v,
    };
    let hour = match num2_at(&cs, 11) {
        None => {
            return None;
        },
        Some(v) => v,
    };
    let minute = match num2_at(&cs, 14) {
        None => {
            return None;
        },
        Some(v) => v,
    };
    let second = match num2_at(&cs, 17) {
        None => {
            return None;
        },
        Some(v) => v,
    };
    if year < 1970 || month < 1 || month > 12 || day < 1 || day > 31 || hour > 23 || minute > 59
        || second > 59 {
        return None;
    }
    let y = year as i64;
    let m = month as i64;
    let d = day as i64;
    let yp = y - 1;
    let leaps = yp / 4 - yp / 100 + yp / 400;
    let leaps_1970: i64 = 477;
    proof {
        assert(leaps_before(1970) == 477);
        assert(yp / 4 == (y - 1) as int / 4);
        assert(yp / 100 == (y - 1) as int / 100);
        assert(yp / 400 == (y - 1) as int / 400);
    }
    let days_year = (y - 1970) * 365 + leaps - leaps_1970;
    let leap = (year % 4 == 0 && year % 100 != 0) || year % 400 == 0;
    proof {
        assert(leap == is_leap(y as int));
    }
    let month_base: i64 = if month == 1 {
        0
    } else if month == 2 {
        31
    } else if month == 3 {
        59
    } else if month == 4 {
        90
    } else if month == 5 {
        120
    } else if month == 6 {
        151
    } else if month == 7 {
        181
    } else if month == 8 {
        212
    } else if month == 9 {
        243
    } else if month == 10 {
        273
    } else if month == 11 {
        304
    } else {
        334
    };
    let days_month = if leap && month >= 3 {
        month_base + 1
    } else {
        month_base
    };
    let days = days_year + days_month + d - 1;
    let t = days * 86400 + (hour as i64) * 3600 + (minute as i64) * 60 + (second as i64);
    proof {
        assert(t == timestamp_value(s@));
    }
    Some(t)
}

} // verus!
