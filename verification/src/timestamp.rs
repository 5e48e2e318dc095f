use vstd::prelude::*;
use vstd::string::StrSliceExecFns;
use crate::date::{Date, DateTime, days_in_month, days_in_month_count};
use crate::decimal::{digit_value, is_dec_digit};

verus! {

/// The fixed UTC timestamp format `YYYY-MM-DDTHH:MM:SSZ`: twenty characters,
/// digits and separators in these exact places.
pub open spec fn timestamp_shape(s: Seq<char>) -> bool {
    &&& s.len() == 20
    &&& is_dec_digit(s[0]) && is_dec_digit(s[1]) && is_dec_digit(s[2]) && is_dec_digit(s[3])
    &&& s[4] == '-'
    &&& is_dec_digit(s[5]) && is_dec_digit(s[6])
    &&& s[7] == '-'
    &&& is_dec_digit(s[8]) && is_dec_digit(s[9])
    &&& s[10] == 'T'
    &&& is_dec_digit(s[11]) && is_dec_digit(s[12])
    &&& s[13] == ':'
    &&& is_dec_digit(s[14]) && is_dec_digit(s[15])
    &&& s[16] == ':'
    &&& is_dec_digit(s[17]) && is_dec_digit(s[18])
    &&& s[19] == 'Z'
}

pub open spec fn two_digits(s: Seq<char>, i: int) -> int {
    digit_value(s[i]) * 10 + digit_value(s[i + 1])
}

pub open spec fn four_digits(s: Seq<char>, i: int) -> int {
    digit_value(s[i]) * 1000 + digit_value(s[i + 1]) * 100 + digit_value(s[i + 2]) * 10
        + digit_value(s[i + 3])
}

/// The date and time a well-shaped timestamp writes.
pub open spec fn spec_timestamp_value(s: Seq<char>) -> DateTime {
    DateTime {
        date: Date {
            year: four_digits(s, 0) as i32,
            month: two_digits(s, 5) as u8,
            day: two_digits(s, 8) as u8,
        },
        hour: two_digits(s, 11) as u8,
        minute: two_digits(s, 14) as u8,
        second: two_digits(s, 17) as u8,
    }
}

/// A timestamp is valid when it has the fixed shape and writes a real
/// calendar date and time of day.
pub open spec fn valid_timestamp(s: Seq<char>) -> bool {
    timestamp_shape(s) && spec_timestamp_value(s).wf()
}

fn digit_at(s: &str, i: usize) -> (r: Option<u8>)
    requires
        i < s@.len(),
    ensures
        match r {
            Some(d) => is_dec_digit(s@[i as int]) && d == digit_value(s@[i as int]),
            None => !is_dec_digit(s@[i as int]),
        },
{
    let c = s.get_char(i) as u32;
    if '0' as u32 <= c && c <= '9' as u32 {
        Some((c - '0' as u32) as u8)
    } else {
        None
    }
}

fn char_at_is(s: &str, i: usize, expected: char) -> (r: bool)
    requires
        i < s@.len(),
    ensures
        r == (s@[i as int] == expected),
{
    s.get_char(i) == expected
}

/// Reads a timestamp of the fixed UTC format; `None` exactly when the text
/// does not write a valid date and time that way.
pub fn parse_timestamp(s: &str) -> (r: Option<DateTime>)
    ensures
        match r {
            Some(dt) => valid_timestamp(s@) && dt == spec_timestamp_value(s@) && dt.wf(),
            None => !valid_timestamp(s@),
        },
{
    if s.unicode_len() != 20 {
        return None;
    }
    if !(char_at_is(s, 4, '-') && char_at_is(s, 7, '-') && char_at_is(s, 10, 'T')
        && char_at_is(s, 13, ':') && char_at_is(s, 16, ':') && char_at_is(s, 19, 'Z')) {
        return None;
    }
    let y0 = match digit_at(s, 0) {
        Some(d) => d,
        None => { return None; },
    };
    let y1 = match digit_at(s, 1) {
        Some(d) => d,
        None => { return None; },
    };
    let y2 = match digit_at(s, 2) {
        Some(d) => d,
        None => { return None; },
    };
    let y3 = match digit_at(s, 3) {
        Some(d) => d,
        None => { return None; },
    };
    let mo0 = match digit_at(s, 5) {
        Some(d) => d,
        None => { return None; },
    };
    let mo1 = match digit_at(s, 6) {
        Some(d) => d,
        None => { return None; },
    };
    let d0 = match digit_at(s, 8) {
        Some(d) => d,
        None => { return None; },
    };
    let d1 = match digit_at(s, 9) {
        Some(d) => d,
        None => { return None; },
    };
    let h0 = match digit_at(s, 11) {
        Some(d) => d,
        None => { return None; },
    };
    let h1 = match digit_at(s, 12) {
        Some(d) => d,
        None => { return None; },
    };
    let mi0 = match digit_at(s, 14) {
        Some(d) => d,
        None => { return None; },
    };
    let mi1 = match digit_at(s, 15) {
        Some(d) => d,
        None => { return None; },
    };
    let s0 = match digit_at(s, 17) {
        Some(d) => d,
        None => { return None; },
    };
    let s1 = match digit_at(s, 18) {
        Some(d) => d,
        None => { return None; },
    };
    let year: i32 = y0 as i32 * 1000 + y1 as i32 * 100 + y2 as i32 * 10 + y3 as i32;
    let month: u8 = mo0 * 10 + mo1;
    let day: u8 = d0 * 10 + d1;
    let hour: u8 = h0 * 10 + h1;
    let minute: u8 = mi0 * 10 + mi1;
    let second: u8 = s0 * 10 + s1;
    if month < 1 || month > 12 {
        return None;
    }
    if day < 1 || day > days_in_month_count(year, month) {
        return None;
    }
    if hour >= 24 || minute >= 60 || second >= 60 {
        return None;
    }
    Some(DateTime { date: Date { year, month, day }, hour, minute, second })
}

} // verus!
