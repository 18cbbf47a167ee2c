//! Temporal parsers: datetime and time-limit attribute values, each with one
//! normalization point whatever syntactic path delivered the value, and the
//! per-move elapsed-time token.

use vstd::prelude::*;

use crate::csa::Version;
use crate::lexical::has_millis;
use crate::text::{all_digits, dec_value, find_char, find_from, lemma_find_from, parse_u64_range,
    parse_u64_spec};
use crate::value::{Date, Duration, Time, TimeLimit, TimeOfDay, valid_ymd};

verus! {

/// Relies on `time::Month::try_from` and `time::Date::from_calendar_date`:
/// together they accept a date exactly when the month is 1 through 12, the
/// year lies in the backend's supported range of -9999 through 9999, and the
/// day is at least 1 and within that month's length under the proleptic
/// Gregorian leap rule.
#[verifier::external_body]
fn calendar_date_ok(year: i32, month: u8, day: u8) -> (r: bool)
    ensures
        r == valid_ymd(year as int, month as int, day as int),
{
    match time::Month::try_from(month) {
        Ok(m) => time::Date::from_calendar_date(year, m, day).is_ok(),
        Err(_) => false,
    }
}

/// Relies on `time::Time::from_hms`: it accepts exactly the clock times with
/// hour below 24, minute below 60 and second below 60.
#[verifier::external_body]
fn hms_ok(hour: u8, minute: u8, second: u8) -> (r: bool)
    ensures
        r == (hour < 24 && minute < 60 && second < 60),
{
    time::Time::from_hms(hour, minute, second).is_ok()
}

/// A date value: three decimal runs separated by two slashes, naming a valid
/// calendar date.
pub open spec fn spec_parse_date(s: Seq<char>) -> Option<Date> {
    let i1 = find_from(s, 0, '/');
    if i1 >= s.len() {
        None
    } else {
        let r1 = s.subrange(i1 + 1, s.len() as int);
        let i2 = find_from(r1, 0, '/');
        if i2 >= r1.len() {
            None
        } else {
            let r2 = r1.subrange(i2 + 1, r1.len() as int);
            if find_from(r2, 0, '/') < r2.len() {
                None
            } else {
                match (parse_u64_spec(s.take(i1)), parse_u64_spec(r1.take(i2)), parse_u64_spec(
                    r2,
                )) {
                    (Some(y), Some(m), Some(d)) => if valid_ymd(y as int, m as int, d as int) {
                        Some(Date { year: y as i32, month: m as u8, day: d as u8 })
                    } else {
                        None
                    },
                    _ => None,
                }
            }
        }
    }
}

/// A time-of-day candidate: `None` poisons the whole datetime, `Some(None)`
/// leaves the date without a clock time, `Some(Some(t))` attaches one.
pub open spec fn spec_parse_time_part(tp: Seq<char>) -> Option<Option<TimeOfDay>> {
    let c1 = find_from(tp, 0, ':');
    if c1 >= tp.len() {
        Some(None)
    } else {
        let r1 = tp.subrange(c1 + 1, tp.len() as int);
        let c2 = find_from(r1, 0, ':');
        if c2 >= r1.len() {
            Some(None)
        } else {
            let r2 = r1.subrange(c2 + 1, r1.len() as int);
            if find_from(r2, 0, ':') < r2.len() {
                Some(None)
            } else {
                match (parse_u64_spec(tp.take(c1)), parse_u64_spec(r1.take(c2)), parse_u64_spec(
                    r2,
                )) {
                    (Some(h), Some(m), Some(sec)) => if h < 24 && m < 60 && sec < 60 {
                        Some(
                            Some(TimeOfDay { hour: h as u8, minute: m as u8, second: sec as u8 }),
                        )
                    } else {
                        None
                    },
                    _ => None,
                }
            }
        }
    }
}

/// A datetime value, whichever path delivered it: a date, optionally
/// followed after one space by a time of day; text after a second space is
/// ignored. A time part that does not split into three clock fields is
/// dropped; one that splits but does not read as a clock time rejects the
/// whole value.
pub open spec fn spec_parse_datetime_value(s: Seq<char>) -> Option<Time> {
    let sp = find_from(s, 0, ' ');
    match spec_parse_date(s.take(sp)) {
        None => None,
        Some(d) => if sp >= s.len() {
            Some(Time { date: d, time: None })
        } else {
            let rest = s.subrange(sp + 1, s.len() as int);
            let tp = rest.take(find_from(rest, 0, ' '));
            match spec_parse_time_part(tp) {
                None => None,
                Some(t) => Some(Time { date: d, time: t }),
            }
        },
    }
}

/// A time-limit value, whichever path delivered it: `H:M+B` with decimal
/// runs for hours, minutes and byoyomi seconds.
pub open spec fn spec_parse_timelimit_value(s: Seq<char>) -> Option<TimeLimit> {
    let p = find_from(s, 0, '+');
    if p >= s.len() {
        None
    } else {
        let right = s.subrange(p + 1, s.len() as int);
        if find_from(right, 0, '+') < right.len() {
            None
        } else {
            let left = s.take(p);
            let c = find_from(left, 0, ':');
            if c >= left.len() {
                None
            } else {
                let ms = left.subrange(c + 1, left.len() as int);
                if find_from(ms, 0, ':') < ms.len() {
                    None
                } else {
                    match (parse_u64_spec(left.take(c)), parse_u64_spec(ms), parse_u64_spec(
                        right,
                    )) {
                        (Some(h), Some(m), Some(b)) => if h * 3600 + m * 60 <= u64::MAX {
                            Some(
                                TimeLimit {
                                    main_time: Duration {
                                        secs: (h * 3600 + m * 60) as u64,
                                        millis: 0,
                                    },
                                    byoyomi: Duration { secs: b, millis: 0 },
                                },
                            )
                        } else {
                            None
                        },
                        _ => None,
                    }
                }
            }
        }
    }
}

/// Parse the date in `v[start..end]`.
fn parse_date_range(v: &Vec<char>, start: usize, end: usize) -> (r: Option<Date>)
    requires
        start <= end <= v@.len(),
    ensures
        r == spec_parse_date(v@.subrange(start as int, end as int)),
{
    let ghost s = v@.subrange(start as int, end as int);
    let i1 = find_char(v, start, end, '/');
    proof {
        lemma_find_from(s, 0, '/');
    }
    if i1 == end {
        return None;
    }
    let i2 = find_char(v, i1 + 1, end, '/');
    let ghost r1 = v@.subrange(i1 + 1, end as int);
    proof {
        assert(r1 =~= s.subrange(i1 - start + 1, s.len() as int));
        lemma_find_from(r1, 0, '/');
    }
    if i2 == end {
        return None;
    }
    let i3 = find_char(v, i2 + 1, end, '/');
    let ghost r2 = v@.subrange(i2 + 1, end as int);
    proof {
        assert(r2 =~= r1.subrange(i2 - i1, r1.len() as int));
        lemma_find_from(r2, 0, '/');
    }
    if i3 < end {
        return None;
    }
    let py = parse_u64_range(v, start, i1);
    let pm = parse_u64_range(v, i1 + 1, i2);
    let pd = parse_u64_range(v, i2 + 1, end);
    proof {
        assert(v@.subrange(start as int, i1 as int) =~= s.take(i1 - start));
        assert(v@.subrange(i1 + 1, i2 as int) =~= r1.take(i2 - i1 - 1));
        assert(v@.subrange(i2 + 1, end as int) =~= r2);
    }
    match (py, pm, pd) {
        (Some(y), Some(m), Some(d)) => {
            if y <= 9999 && m <= 12 && d <= 255 {
                if calendar_date_ok(y as i32, m as u8, d as u8) {
                    Some(Date { year: y as i32, month: m as u8, day: d as u8 })
                } else {
                    None
                }
            } else {
                proof {
                    assert(!valid_ymd(y as int, m as int, d as int));
                }
                None
            }
        },
        _ => None,
    }
}

/// Parse the time-of-day candidate in `v[start..end]`.
fn parse_time_part_range(v: &Vec<char>, start: usize, end: usize) -> (r: Option<Option<TimeOfDay>>)
    requires
        start <= end <= v@.len(),
    ensures
        r == spec_parse_time_part(v@.subrange(start as int, end as int)),
{
    let ghost s = v@.subrange(start as int, end as int);
    let c1 = find_char(v, start, end, ':');
    proof {
        lemma_find_from(s, 0, ':');
    }
    if c1 == end {
        return Some(None);
    }
    let c2 = find_char(v, c1 + 1, end, ':');
    let ghost r1 = v@.subrange(c1 + 1, end as int);
    proof {
        assert(r1 =~= s.subrange(c1 - start + 1, s.len() as int));
        lemma_find_from(r1, 0, ':');
    }
    if c2 == end {
        return Some(None);
    }
    let c3 = find_char(v, c2 + 1, end, ':');
    let ghost r2 = v@.subrange(c2 + 1, end as int);
    proof {
        assert(r2 =~= r1.subrange(c2 - c1, r1.len() as int));
        lemma_find_from(r2, 0, ':');
    }
    if c3 < end {
        return Some(None);
    }
    let ph = parse_u64_range(v, start, c1);
    let pm = parse_u64_range(v, c1 + 1, c2);
    let ps = parse_u64_range(v, c2 + 1, end);
    proof {
        assert(v@.subrange(start as int, c1 as int) =~= s.take(c1 - start));
        assert(v@.subrange(c1 + 1, c2 as int) =~= r1.take(c2 - c1 - 1));
        assert(v@.subrange(c2 + 1, end as int) =~= r2);
    }
    match (ph, pm, ps) {
        (Some(h), Some(m), Some(sec)) => {
            if h < 24 && m < 60 && sec < 60 {
                if hms_ok(h as u8, m as u8, sec as u8) {
                    Some(Some(TimeOfDay { hour: h as u8, minute: m as u8, second: sec as u8 }))
                } else {
                    None
                }
            } else {
                None
            }
        },
        _ => None,
    }
}

/// Parse the datetime value in `v[start..end]`.
pub fn parse_datetime_value(v: &Vec<char>, start: usize, end: usize) -> (r: Option<Time>)
    requires
        start <= end <= v@.len(),
    ensures
        r == spec_parse_datetime_value(v@.subrange(start as int, end as int)),
{
    let ghost s = v@.subrange(start as int, end as int);
    let sp = find_char(v, start, end, ' ');
    proof {
        lemma_find_from(s, 0, ' ');
        assert(v@.subrange(start as int, sp as int) =~= s.take(sp - start));
    }
    let d = match parse_date_range(v, start, sp) {
        Some(d) => d,
        None => {
            return None;
        },
    };
    if sp == end {
        return Some(Time { date: d, time: None });
    }
    let sp2 = find_char(v, sp + 1, end, ' ');
    let ghost rest = v@.subrange(sp + 1, end as int);
    proof {
        assert(rest =~= s.subrange(sp - start + 1, s.len() as int));
        lemma_find_from(rest, 0, ' ');
        assert(v@.subrange(sp + 1, sp2 as int) =~= rest.take(sp2 - sp - 1));
    }
    match parse_time_part_range(v, sp + 1, sp2) {
        None => None,
        Some(t) => Some(Time { date: d, time: t }),
    }
}

/// Parse the time-limit value in `v[start..end]`.
pub fn parse_timelimit_value(v: &Vec<char>, start: usize, end: usize) -> (r: Option<TimeLimit>)
    requires
        start <= end <= v@.len(),
    ensures
        r == spec_parse_timelimit_value(v@.subrange(start as int, end as int)),
{
    let ghost s = v@.subrange(start as int, end as int);
    let p = find_char(v, start, end, '+');
    proof {
        lemma_find_from(s, 0, '+');
    }
    if p == end {
        return None;
    }
    let p2 = find_char(v, p + 1, end, '+');
    let ghost right = v@.subrange(p + 1, end as int);
    proof {
        assert(right =~= s.subrange(p - start + 1, s.len() as int));
        lemma_find_from(right, 0, '+');
    }
    if p2 < end {
        return None;
    }
    let c = find_char(v, start, p, ':');
    let ghost left = v@.subrange(start as int, p as int);
    proof {
        assert(left =~= s.take(p - start));
        lemma_find_from(left, 0, ':');
    }
    if c == p {
        return None;
    }
    let c2 = find_char(v, c + 1, p, ':');
    let ghost ms = v@.subrange(c + 1, p as int);
    proof {
        assert(ms =~= left.subrange(c - start + 1, left.len() as int));
        lemma_find_from(ms, 0, ':');
    }
    if c2 < p {
        return None;
    }
    let ph = parse_u64_range(v, start, c);
    let pm = parse_u64_range(v, c + 1, p);
    let pb = parse_u64_range(v, p + 1, end);
    proof {
        assert(v@.subrange(start as int, c as int) =~= left.take(c - start));
        assert(v@.subrange(c + 1, p as int) =~= ms);
        assert(v@.subrange(p + 1, end as int) =~= right);
    }
    match (ph, pm, pb) {
        (Some(h), Some(m), Some(b)) => {
            if h > u64::MAX / 3600 {
                proof {
                    assert(h * 3600 + m * 60 > u64::MAX);
                }
                return None;
            }
            let hs = h * 3600;
            if m > (u64::MAX - hs) / 60 {
                proof {
                    assert(m * 60 > u64::MAX - hs);
                }
                return None;
            }
            Some(
                TimeLimit {
                    main_time: Duration { secs: hs + m * 60, millis: 0 },
                    byoyomi: Duration { secs: b, millis: 0 },
                },
            )
        },
        _ => None,
    }
}

/// The value zero when a digit run exceeds the machine range, as the move
/// clock treats an unrepresentable count.
pub open spec fn clamped_u64(s: Seq<char>) -> u64 {
    if dec_value(s) > u64::MAX {
        0u64
    } else {
        dec_value(s) as u64
    }
}

/// An elapsed-time token after its leading marker: a seconds digit run; the
/// newest dialect alone may add a fraction of one to three digits, read as
/// tenths, hundredths or thousandths.
pub open spec fn spec_parse_elapsed(ver: Version, s: Seq<char>) -> Option<Duration> {
    if !has_millis(ver) {
        if s.len() > 0 && all_digits(s) {
            Some(Duration { secs: clamped_u64(s), millis: 0 })
        } else {
            None
        }
    } else {
        let dot = find_from(s, 0, '.');
        if dot >= s.len() {
            if s.len() > 0 && all_digits(s) {
                Some(Duration { secs: clamped_u64(s), millis: 0 })
            } else {
                None
            }
        } else {
            let ip = s.take(dot);
            let fp = s.subrange(dot + 1, s.len() as int);
            if ip.len() > 0 && all_digits(ip) && 1 <= fp.len() <= 3 && all_digits(fp) {
                let scale: int = if fp.len() == 1 {
                    100
                } else if fp.len() == 2 {
                    10
                } else {
                    1
                };
                Some(
                    Duration {
                        secs: clamped_u64(ip),
                        millis: (dec_value(fp) * scale) as u32,
                    },
                )
            } else {
                None
            }
        }
    }
}

/// Read the digit run `v[start..end]` with the clock's clamping of
/// out-of-range counts; `None` only when it is not a digit run at all.
fn parse_clock_u64(v: &Vec<char>, start: usize, end: usize) -> (r: Option<u64>)
    requires
        start <= end <= v@.len(),
    ensures
        ({
            let s = v@.subrange(start as int, end as int);
            if s.len() > 0 && all_digits(s) {
                r == Some(clamped_u64(s))
            } else {
                r is None
            }
        }),
{
    let ghost s = v@.subrange(start as int, end as int);
    if start == end {
        return None;
    }
    match parse_u64_range(v, start, end) {
        Some(x) => Some(x),
        None => {
            let mut i: usize = start;
            while i < end
                invariant
                    start <= i <= end <= v@.len(),
                    s == v@.subrange(start as int, end as int),
                    forall|j: int| 0 <= j < i - start ==> crate::text::is_digit(#[trigger] s[j]),
                decreases end - i,
            {
                let c = v[i];
                let u = c as u32;
                if u < 48 || u > 57 {
                    proof {
                        assert(s[i - start] == c);
                    }
                    return None;
                }
                proof {
                    assert(s[i - start] == c);
                }
                i = i + 1;
            }
            proof {
                assert(all_digits(s));
            }
            Some(0)
        },
    }
}

/// Parse the elapsed-time token in `v[start..end]` under dialect `ver`.
pub fn parse_elapsed(ver: Version, v: &Vec<char>, start: usize, end: usize) -> (r: Option<
    Duration,
>)
    requires
        start <= end <= v@.len(),
    ensures
        r == spec_parse_elapsed(ver, v@.subrange(start as int, end as int)),
{
    let ghost s = v@.subrange(start as int, end as int);
    let plain = matches!(ver, Version::V2 | Version::V2_1 | Version::V2_2);
    if !plain {
        let dot = find_char(v, start, end, '.');
        proof {
            lemma_find_from(s, 0, '.');
        }
        if dot < end {
            let ghost ip = s.take(dot - start);
            let ghost fp = s.subrange(dot - start + 1, s.len() as int);
            proof {
                assert(v@.subrange(start as int, dot as int) =~= ip);
                assert(v@.subrange(dot + 1, end as int) =~= fp);
            }
            let sec = match parse_clock_u64(v, start, dot) {
                Some(x) => x,
                None => {
                    return None;
                },
            };
            let flen = end - (dot + 1);
            if flen < 1 || flen > 3 {
                return None;
            }
            let frac = match parse_u64_range(v, dot + 1, end) {
                Some(x) => x,
                None => {
                    proof {
                        if all_digits(fp) {
                            crate::text::lemma_dec_value_nonneg(fp);
                            lemma_dec_value_small(fp);
                        }
                    }
                    return None;
                },
            };
            proof {
                lemma_dec_value_small(fp);
            }
            let scale: u64 = if flen == 1 {
                100
            } else if flen == 2 {
                10
            } else {
                1
            };
            return Some(Duration { secs: sec, millis: (frac * scale) as u32 });
        }
    }
    match parse_clock_u64(v, start, end) {
        Some(x) => Some(Duration { secs: x, millis: 0 }),
        None => None,
    }
}

/// A digit run of at most three places stays below a thousand.
proof fn lemma_dec_value_small(s: Seq<char>)
    requires
        all_digits(s),
        s.len() <= 3,
    ensures
        0 <= dec_value(s) < 1000,
        s.len() <= 2 ==> dec_value(s) < 100,
        s.len() <= 1 ==> dec_value(s) < 10,
    decreases s.len(),
{
    if s.len() > 0 {
        assert(all_digits(s.drop_last()));
        lemma_dec_value_small(s.drop_last());
    }
}

} // verus!
