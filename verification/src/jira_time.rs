//! Jira timestamps (`2026-09-23T10:00:00.000-0300`): reading them as Unix
//! seconds and telling how long ago they were.

use vstd::prelude::*;

use crate::text::{chars_of, decimal, decimal_spec, extend_chars, slice_chars, string_of};
use vstd::string::StringSliceAdditionalSpecFns;

verus! {

/// Whether a byte is an ASCII digit.
pub open spec fn digit_byte(b: u8) -> bool {
    48 <= b <= 57
}

/// The value of ASCII digits.
pub open spec fn bytes_value(s: Seq<u8>) -> nat
    decreases s.len(),
{
    if s.len() == 0 {
        0
    } else {
        bytes_value(s.drop_last()) * 10 + (s.last() - 48) as nat
    }
}

/// One when `s` starts with a sign (`+` or `-`), else zero.
pub open spec fn sign_len(s: Seq<u8>) -> int {
    if s.len() > 0 && (s[0] == 43 || s[0] == 45) {
        1
    } else {
        0
    }
}

/// What `str::parse::<i32>` gives for a short field: an optional `+` or `-`,
/// then one or more ASCII digits.
pub open spec fn small_int_spec(s: Seq<u8>) -> Option<int> {
    let digits = s.skip(sign_len(s));
    if digits.len() > 0 && forall|i: int| 0 <= i < digits.len() ==> digit_byte(#[trigger] digits[i]) {
        if sign_len(s) == 1 && s[0] == 45 {
            Some(-(bytes_value(digits) as int))
        } else {
            Some(bytes_value(digits) as int)
        }
    } else {
        None
    }
}

/// The number in bytes `lo..hi` of a timestamp, when they are there and
/// read as one.
pub open spec fn field_spec(b: Seq<u8>, lo: int, hi: int) -> Option<int> {
    if hi <= b.len() {
        small_int_spec(b.subrange(lo, hi))
    } else {
        None
    }
}

/// The position of the first `+` or `-` from `i` on.
pub open spec fn sign_from(b: Seq<u8>, i: int) -> Option<int>
    decreases b.len() - i,
{
    if i < 0 || i >= b.len() {
        None
    } else if b[i] == 43 || b[i] == 45 {
        Some(i)
    } else {
        sign_from(b, i + 1)
    }
}

/// The ASCII digits of `b`, in order.
pub open spec fn digit_bytes(b: Seq<u8>) -> Seq<u8> {
    b.filter(|x: u8| digit_byte(x))
}

/// The days from 1970-01-01 to the given date of the proleptic Gregorian
/// calendar (negative before it).
pub open spec fn days_from_civil(year: int, month: int, day: int) -> int {
    let y = if month <= 2 {
        year - 1
    } else {
        year
    };
    let era = y / 400;
    let yoe = y - era * 400;
    let mp = if month > 2 {
        month - 3
    } else {
        month + 9
    };
    let doy = (153 * mp + 2) / 5 + day - 1;
    let doe = yoe * 365 + yoe / 4 - yoe / 100 + doy;
    era * 146097 + doe - 719468
}

/// Whether `year` is a leap year of the Gregorian calendar.
pub open spec fn leap_year(year: int) -> bool {
    year % 4 == 0 && (year % 100 != 0 || year % 400 == 0)
}

/// The days of a month (1 to 12) of `year`.
pub open spec fn days_in_month(year: int, month: int) -> int {
    if month == 2 {
        if leap_year(year) {
            29
        } else {
            28
        }
    } else if month == 4 || month == 6 || month == 9 || month == 11 {
        30
    } else {
        31
    }
}

/// The Unix time of a date, a time of day and an offset from UTC (its
/// minutes take the sign of its hours), as the `time` crate computes it:
/// the seconds since 1970-01-01 of the local time less the offset; none when
/// the month is not 1 to 12, the year not within -9999 to 9999, the day not
/// in the month, the time of day not a time or the offset past 25 hours or
/// 59 minutes.
pub open spec fn calendar_seconds(
    year: i32,
    month: u8,
    day: u8,
    hour: u8,
    minute: u8,
    second: u8,
    offset_hours: i8,
    offset_minutes: i8,
) -> Option<i64> {
    if 1 <= month <= 12 && -9999 <= year <= 9999 && 1 <= day <= days_in_month(year as int, month as int) && hour
        < 24 && minute < 60 && second < 60 && -25 <= offset_hours <= 25 && -59 <= offset_minutes <= 59 {
        let om: int = if (offset_hours > 0 && offset_minutes < 0) || (offset_hours < 0 && offset_minutes > 0) {
            -offset_minutes
        } else {
            offset_minutes as int
        };
        Some(
            (days_from_civil(year as int, month as int, day as int) * 86400 + hour * 3600 + minute * 60 + second - (
            offset_hours * 3600 + om * 60)) as i64,
        )
    } else {
        None
    }
}

/// The `time` crate's `Month::try_from`, `UtcOffset::from_hms`,
/// `Date::from_calendar_date`, `Time::from_hms` and
/// `PrimitiveDateTime::assume_offset(..).unix_timestamp()` in a row: the
/// Unix time of the date and time at the offset, none when one of them is
/// out of range (see [`calendar_seconds`]).
#[verifier::external_body]
fn calendar_timestamp(
    year: i32,
    month: u8,
    day: u8,
    hour: u8,
    minute: u8,
    second: u8,
    offset_hours: i8,
    offset_minutes: i8,
) -> (r: Option<i64>)
    ensures
        r == calendar_seconds(year, month, day, hour, minute, second, offset_hours, offset_minutes),
{
    let month = time::Month::try_from(month).ok()?;
    let offset = time::UtcOffset::from_hms(offset_hours, offset_minutes, 0).ok()?;
    let date = time::Date::from_calendar_date(year, month, day).ok()?;
    let clock = time::Time::from_hms(hour, minute, second).ok()?;
    Some(time::PrimitiveDateTime::new(date, clock).assume_offset(offset).unix_timestamp())
}

/// The Unix time of a Jira timestamp given as its UTF-8 bytes: year, month,
/// day, hour, minute and second at their fixed places, then the offset after
/// the first `+` or `-` from byte 19 on (its first two digits the hours, the
/// next two, if any, the minutes); none when a part does not read or the
/// date is not one.
pub open spec fn jira_time_spec(b: Seq<u8>) -> Option<i64> {
    match (field_spec(b, 0, 4), field_spec(b, 5, 7), field_spec(b, 8, 10), field_spec(b, 11, 13), field_spec(b, 14, 16), field_spec(b, 17, 19)) {
        (Some(y), Some(mo), Some(d), Some(h), Some(mi), Some(s)) => match sign_from(b, 19) {
            Some(k) => {
                let digits = digit_bytes(b.skip(k + 1));
                if digits.len() >= 2 {
                    let oh = bytes_value(digits.take(2)) as int;
                    let om = if digits.len() >= 4 {
                        bytes_value(digits.subrange(2, 4)) as int
                    } else {
                        0
                    };
                    let sign: int = if b[k] == 45 {
                        -1
                    } else {
                        1
                    };
                    calendar_seconds(
                        y as i32,
                        (mo as i32) as u8,
                        (d as i32) as u8,
                        (h as i32) as u8,
                        (mi as i32) as u8,
                        (s as i32) as u8,
                        (sign * oh) as i8,
                        (sign * om) as i8,
                    )
                } else {
                    None
                }
            },
            None => None,
        },
        _ => None,
    }
}

/// The number in bytes `lo..hi`, at most four of them.
fn field(b: &[u8], lo: usize, hi: usize) -> (r: Option<i32>)
    requires
        lo < hi <= lo + 4,
    ensures
        r matches Some(v) ==> field_spec(b@, lo as int, hi as int) == Some(v as int),
        r is None ==> field_spec(b@, lo as int, hi as int) is None,
{
    if hi > b.len() {
        return None;
    }
    let ghost s = b@.subrange(lo as int, hi as int);
    let signed = b[lo] == 43 || b[lo] == 45;
    assert(s[0] == b@[lo as int]);
    let start = if signed {
        lo + 1
    } else {
        lo
    };
    assert(s[0] == b@[lo as int]);
    assert(s.skip(sign_len(s)) =~= b@.subrange(start as int, hi as int));
    if start >= hi {
        return None;
    }
    let mut value: i32 = 0;
    let mut i = start;
    while i < hi
        invariant
            start <= i <= hi <= b@.len(),
            hi <= start + 4,
            lo < hi,
            signed == (b@[lo as int] == 43 || b@[lo as int] == 45),
            start == if signed {
                lo + 1
            } else {
                lo as int
            },
            forall|k: int| start <= k < i ==> digit_byte(#[trigger] b@[k]),
            value == bytes_value(b@.subrange(start as int, i as int)),
            value < 10000,
            0 <= value,
        decreases hi - i,
    {
        if !(48 <= b[i] && b[i] <= 57) {
            proof {
                let s = b@.subrange(lo as int, hi as int);
                let d = s.skip(sign_len(s));
                assert(s[0] == b@[lo as int]);
                assert(d =~= b@.subrange(start as int, hi as int));
                assert(d[i - start] == b@[i as int]);
                assert(!digit_byte(d[i - start]));
                assert(!(forall|j: int| 0 <= j < d.len() ==> digit_byte(#[trigger] d[j])));
                assert(small_int_spec(s) is None);
            }
            return None;
        }
        assert(b@.subrange(start as int, i + 1).drop_last() =~= b@.subrange(start as int, i as int));
        proof {
            lemma_bytes_value_bound(b@.subrange(start as int, i as int));
        }
        value = value * 10 + (b[i] - 48) as i32;
        i = i + 1;
    }
    assert forall|k: int| 0 <= k < b@.subrange(start as int, hi as int).len() implies digit_byte(
        #[trigger] b@.subrange(start as int, hi as int)[k],
    ) by {
        assert(b@.subrange(start as int, hi as int)[k] == b@[start + k]);
    }
    if signed && b[lo] == 45 {
        Some(0 - value)
    } else {
        Some(value)
    }
}

proof fn lemma_bytes_value_bound(s: Seq<u8>)
    requires
        forall|k: int| 0 <= k < s.len() ==> digit_byte(#[trigger] s[k]),
        s.len() <= 3,
    ensures
        bytes_value(s) < 1000,
{
    if s.len() <= 2 {
        lemma_bytes_value_small(s);
    } else {
        assert forall|k: int| 0 <= k < s.drop_last().len() implies digit_byte(#[trigger] s.drop_last()[k]) by {
            assert(s.drop_last()[k] == s[k]);
        }
        lemma_bytes_value_small(s.drop_last());
        assert(digit_byte(s[s.len() - 1]));
    }
}

proof fn lemma_bytes_value_small(s: Seq<u8>)
    requires
        forall|k: int| 0 <= k < s.len() ==> digit_byte(#[trigger] s[k]),
        s.len() <= 2,
    ensures
        bytes_value(s) < 100,
        s.len() <= 1 ==> bytes_value(s) < 10,
    decreases s.len(),
{
    if s.len() > 0 {
        assert forall|k: int| 0 <= k < s.drop_last().len() implies digit_byte(#[trigger] s.drop_last()[k]) by {
            assert(s.drop_last()[k] == s[k]);
        }
        lemma_bytes_value_small(s.drop_last());
    }
}

/// The Unix time of a Jira timestamp (see [`jira_time_spec`]).
pub fn parse_jira_time(timestamp: &str) -> (r: Option<i64>)
    ensures
        r == jira_time_spec(timestamp.spec_bytes()),
{
    let b = timestamp.as_bytes();
    let year = match field(b, 0, 4) {
        Some(v) => v,
        None => return None,
    };
    let month = match field(b, 5, 7) {
        Some(v) => v,
        None => return None,
    };
    let day = match field(b, 8, 10) {
        Some(v) => v,
        None => return None,
    };
    let hour = match field(b, 11, 13) {
        Some(v) => v,
        None => return None,
    };
    let minute = match field(b, 14, 16) {
        Some(v) => v,
        None => return None,
    };
    let second = match field(b, 17, 19) {
        Some(v) => v,
        None => return None,
    };
    let mut k: usize = 19;
    while k < b.len()
        invariant
            19 <= k <= b@.len(),
            sign_from(b@, 19) == sign_from(b@, k as int),
        ensures
            19 <= k <= b@.len(),
            sign_from(b@, 19) == sign_from(b@, k as int),
            k < b@.len() ==> (b@[k as int] == 43 || b@[k as int] == 45),
        decreases b.len() - k,
    {
        if b[k] == 43 || b[k] == 45 {
            break;
        }
        k = k + 1;
    }
    assert(field_spec(b@, 0, 4) == Some(year as int));
    assert(field_spec(b@, 17, 19) == Some(second as int));
    if k >= b.len() {
        assert(sign_from(b@, 19) is None);
        return None;
    }
    assert(sign_from(b@, 19) == Some(k as int));
    let mut digits: Vec<u8> = Vec::new();
    let mut j: usize = k + 1;
    let ghost rest = b@.skip(k + 1);
    assert(b@.subrange(k + 1, k + 1) =~= Seq::<u8>::empty());
    assert(Seq::<u8>::empty().filter(|x: u8| digit_byte(x)) =~= Seq::<u8>::empty());
    while j < b.len()
        invariant
            k + 1 <= j <= b@.len(),
            digits@ == digit_bytes(b@.subrange(k + 1, j as int)),
        decreases b.len() - j,
    {
        let ghost prev = b@.subrange(k + 1, j as int);
        assert(b@.subrange(k + 1, j + 1) =~= prev.push(b@[j as int]));
        proof {
            reveal(Seq::filter);
            assert(prev.push(b@[j as int]).drop_last() =~= prev);
        }
        if 48 <= b[j] && b[j] <= 57 {
            digits.push(b[j]);
        }
        j = j + 1;
    }
    assert(b@.subrange(k + 1, b@.len() as int) =~= b@.skip(k + 1));
    if digits.len() < 2 {
        return None;
    }
    proof {
        assert forall|i: int| 0 <= i < digits@.len() implies digit_byte(#[trigger] digits@[i]) by {
            digit_bytes_are_digits(b@.skip(k + 1), i);
        }
        lemma_bytes_value_small(digits@.take(2));
        assert(digits@.take(2).drop_last() =~= digits@.take(1));
        assert(digits@.take(1).drop_last() =~= Seq::<u8>::empty());
        assert(bytes_value(digits@.take(1)) == digits@[0] - 48);
        assert(bytes_value(digits@.take(2)) == (digits@[0] - 48) * 10 + (digits@[1] - 48));
    }
    let oh: i8 = ((digits[0] - 48) * 10 + (digits[1] - 48)) as i8;
    let om: i8 = if digits.len() >= 4 {
        proof {
            lemma_bytes_value_small(digits@.subrange(2, 4));
            assert(digits@.subrange(2, 4).drop_last() =~= digits@.subrange(2, 3));
            assert(digits@.subrange(2, 3).drop_last() =~= Seq::<u8>::empty());
            assert(bytes_value(digits@.subrange(2, 3)) == digits@[2] - 48);
            assert(bytes_value(digits@.subrange(2, 4)) == (digits@[2] - 48) * 10 + (digits@[3] - 48));
        }
        ((digits[2] - 48) * 10 + (digits[3] - 48)) as i8
    } else {
        0
    };
    let neg = b[k] == 45;
    proof {
        let ds = digit_bytes(b@.skip(k + 1));
        assert(digits@ == ds);
        assert(oh as int == bytes_value(ds.take(2)));
        assert(ds.len() >= 4 ==> om as int == bytes_value(ds.subrange(2, 4)));
        assert(ds.len() < 4 ==> om == 0);
    }
    let (off_h, off_m): (i8, i8) = if neg {
        (0 - oh, 0 - om)
    } else {
        (oh, om)
    };
    proof {
        if neg {
            assert(-1 * (oh as int) == off_h as int);
            assert(-1 * (om as int) == off_m as int);
        } else {
            assert(1 * (oh as int) == off_h as int);
            assert(1 * (om as int) == off_m as int);
        }
    }
    assert(jira_time_spec(b@) == calendar_seconds(
        year,
        month as u8,
        day as u8,
        hour as u8,
        minute as u8,
        second as u8,
        off_h,
        off_m,
    ));
    calendar_timestamp(
        year,
        month as u8,
        day as u8,
        hour as u8,
        minute as u8,
        second as u8,
        off_h,
        off_m,
    )
}

proof fn digit_bytes_are_digits(b: Seq<u8>, i: int)
    requires
        0 <= i < digit_bytes(b).len(),
    ensures
        digit_byte(digit_bytes(b)[i]),
{
    b.filter_lemma(|x: u8| digit_byte(x));
}

/// How long ago a Jira timestamp was, at Unix time `now`: `agora` under a
/// minute, then minutes, hours and days (`há 5m`, `há 3h`, `há 2d`), and
/// from 30 days on its first ten characters (the date); the timestamp
/// itself when it does not read.
pub open spec fn relative_time_spec(ts: Seq<char>, bytes: Seq<u8>, now: i64) -> Seq<char> {
    match jira_time_spec(bytes) {
        None => ts,
        Some(p) => {
            let s: int = if now - p > 0 {
                now - p
            } else {
                0
            };
            if s < 60 {
                "agora"@
            } else if s < 3600 {
                "há "@ + decimal_spec((s / 60) as nat) + "m"@
            } else if s < 86400 {
                "há "@ + decimal_spec((s / 3600) as nat) + "h"@
            } else if s < 2592000 {
                "há "@ + decimal_spec((s / 86400) as nat) + "d"@
            } else if ts.len() >= 10 {
                ts.take(10)
            } else {
                ts
            }
        },
    }
}

/// `há `, a number and a unit letter.
fn ago(n: u64, unit: &str) -> (r: String)
    ensures
        r@ == "há "@ + decimal_spec(n as nat) + unit@,
{
    let mut out = chars_of("há ");
    extend_chars(&mut out, decimal(n).as_slice());
    extend_chars(&mut out, chars_of(unit).as_slice());
    string_of(out.as_slice())
}

/// How long before `now` (Unix seconds) a Jira timestamp was (see
/// [`relative_time_spec`]).
pub fn relative_time(timestamp: &str, now: i64) -> (r: String)
    ensures
        r@ == relative_time_spec(timestamp@, timestamp.spec_bytes(), now),
{
    let parsed = match parse_jira_time(timestamp) {
        Some(p) => p,
        None => return string_of(chars_of(timestamp).as_slice()),
    };
    let diff: i128 = now as i128 - parsed as i128;
    let s: i128 = if diff > 0 {
        diff
    } else {
        0
    };
    if s < 60 {
        string_of(chars_of("agora").as_slice())
    } else if s < 3600 {
        ago((s / 60) as u64, "m")
    } else if s < 86400 {
        ago((s / 3600) as u64, "h")
    } else if s < 2592000 {
        ago((s / 86400) as u64, "d")
    } else {
        let chars = chars_of(timestamp);
        if chars.len() >= 10 {
            let head = slice_chars(chars.as_slice(), 0, 10);
            assert(head@ =~= timestamp@.take(10));
            string_of(head.as_slice())
        } else {
            string_of(chars.as_slice())
        }
    }
}

/// The current Unix time in seconds (`OffsetDateTime::now_utc` of the `time`
/// crate); nothing is stated of it.
#[verifier::external_body]
fn unix_now() -> (r: i64) {
    time::OffsetDateTime::now_utc().unix_timestamp()
}

/// How long ago a Jira timestamp was, now: [`relative_time`] at the clock's
/// current time.
pub fn relative_time_now(timestamp: &str) -> (r: String)
    ensures
        exists|now: i64| r@ == #[trigger] relative_time_spec(timestamp@, timestamp.spec_bytes(), now),
{
    let now = unix_now();
    relative_time(timestamp, now)
}

/// How long ago reads the time elapsed since the timestamp `p` (none when
/// `now` is before it) in whole units, rounded down: under a minute `agora`;
/// under an hour `há {n}m` with `n` the whole minutes; under a day `há {n}h`
/// with `n` the whole hours; under thirty days `há {n}d` with `n` the whole
/// days.
pub proof fn elapsed_time_reads_in_whole_units(ts: Seq<char>, bytes: Seq<u8>, now: i64, p: i64)
    requires
        jira_time_spec(bytes) == Some(p),
    ensures
        ({
            let r = relative_time_spec(ts, bytes, now);
            let s: int = if now > p {
                now - p
            } else {
                0
            };
            &&& s < 60 ==> r == "agora"@
            &&& 60 <= s < 3600 ==> exists|n: nat|
                n * 60 <= s < n * 60 + 60 && r == "há "@ + #[trigger] decimal_spec(n) + "m"@
            &&& 3600 <= s < 86400 ==> exists|n: nat|
                n * 3600 <= s < n * 3600 + 3600 && r == "há "@ + #[trigger] decimal_spec(n) + "h"@
            &&& 86400 <= s < 2592000 ==> exists|n: nat|
                n * 86400 <= s < n * 86400 + 86400 && r == "há "@ + #[trigger] decimal_spec(n) + "d"@
        }),
{
    let s: int = if now > p {
        now - p
    } else {
        0
    };
    if 60 <= s < 3600 {
        let n = (s / 60) as nat;
        assert(n * 60 <= s < n * 60 + 60) by (nonlinear_arith)
            requires n == s / 60, s >= 0;
        assert(relative_time_spec(ts, bytes, now) == "há "@ + decimal_spec(n) + "m"@);
    } else if 3600 <= s < 86400 {
        let n = (s / 3600) as nat;
        assert(n * 3600 <= s < n * 3600 + 3600) by (nonlinear_arith)
            requires n == s / 3600, s >= 0;
        assert(relative_time_spec(ts, bytes, now) == "há "@ + decimal_spec(n) + "h"@);
    } else if 86400 <= s < 2592000 {
        let n = (s / 86400) as nat;
        assert(n * 86400 <= s < n * 86400 + 86400) by (nonlinear_arith)
            requires n == s / 86400, s >= 0;
        assert(relative_time_spec(ts, bytes, now) == "há "@ + decimal_spec(n) + "d"@);
    }
}

/// From thirty days on, how long ago reads the date: the timestamp's first
/// ten characters.
pub proof fn old_times_read_as_the_date(ts: Seq<char>, bytes: Seq<u8>, now: i64, p: i64)
    requires
        jira_time_spec(bytes) == Some(p),
        now - p >= 2592000,
        ts.len() >= 10,
    ensures
        relative_time_spec(ts, bytes, now) == ts.take(10),
{
}

} // verus!
