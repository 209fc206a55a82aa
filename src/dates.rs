//! Decoding of spreadsheet serial day numbers into `YYYY-MM-DD` dates.
use vstd::prelude::*;
use crate::text::{chars_of, string_of, push_decimal, push_signed_decimal, digit_of, decimal, digit_char, signed_decimal};

verus! {

/// Serial numbers whose whole part is above this are not decoded: up to it,
/// every decimal serial and its day count are exact.
pub const MAX_SERIAL: u64 = 1_000_000_000_000_000;

/// A numeric text read as `[+|-] digits [. digits]`.
#[derive(Clone, Copy, Debug, PartialEq, Eq, Structural)]
pub struct Serial {
    pub negative: bool,
    /// The digits before the point.
    pub whole: u64,
    /// Whether a digit after the point is not zero.
    pub fraction: bool,
}

pub open spec fn is_digit(c: char) -> bool {
    '0' <= c && c <= '9'
}

pub open spec fn all_digits(s: Seq<char>) -> bool {
    forall|k: int| 0 <= k < s.len() ==> is_digit(#[trigger] s[k])
}

/// The number written by a sequence of decimal digits.
pub open spec fn digits_value(s: Seq<char>) -> nat
    decreases s.len(),
{
    if s.len() == 0 {
        0
    } else {
        digits_value(s.drop_last()) * 10 + (s.last() as nat - 48) as nat
    }
}

pub open spec fn has_sign(s: Seq<char>) -> bool {
    s.len() > 0 && (s[0] == '+' || s[0] == '-')
}

/// The text after an optional leading sign.
pub open spec fn unsigned_part(s: Seq<char>) -> Seq<char> {
    if has_sign(s) { s.drop_first() } else { s }
}

/// `b` reads as digits, a point at `k`, digits, with at least one digit.
pub open spec fn point_at(b: Seq<char>, k: int) -> bool {
    &&& 0 <= k < b.len()
    &&& b[k] == '.'
    &&& all_digits(b.take(k))
    &&& all_digits(b.skip(k + 1))
    &&& b.len() > 1
}

/// The numeric reading of a text, or `None` where it is not a decimal number
/// or its whole part is out of range.
pub open spec fn serial_of(s: Seq<char>) -> Option<Serial> {
    let b = unsigned_part(s);
    let negative = s.len() > 0 && s[0] == '-';
    if b.len() > 0 && all_digits(b) {
        if digits_value(b) <= MAX_SERIAL {
            Some(Serial { negative, whole: digits_value(b) as u64, fraction: false })
        } else {
            None
        }
    } else if exists|k: int| point_at(b, k) {
        let k = choose|k: int| point_at(b, k);
        let w = digits_value(b.take(k));
        if w <= MAX_SERIAL {
            Some(Serial {
                negative,
                whole: w as u64,
                fraction: exists|j: int| 0 <= j < b.len() - k - 1 && #[trigger] b.skip(k + 1)[j] != '0',
            })
        } else {
            None
        }
    } else {
        None
    }
}

/// The largest integer not above the number.
pub open spec fn serial_floor(p: Serial) -> int {
    if !p.negative {
        p.whole as int
    } else if p.fraction {
        -(p.whole as int) - 1
    } else {
        -(p.whole as int)
    }
}

/// Year, month and day of a day count, by the Julian-day formula.
#[verifier::opaque]
pub open spec fn julian_ymd(t: int) -> (int, int, int) {
    let l0 = t + 68569 + 2415019;
    let n = (4 * l0) / 146097;
    let l1 = l0 - (146097 * n + 3) / 4;
    let i = (4000 * (l1 + 1)) / 1461001;
    let l2 = l1 - (1461 * i) / 4 + 31;
    let j = (80 * l2) / 2447;
    let d = l2 - (2447 * j) / 80;
    let l3 = j / 11;
    let m = j + 2 - 12 * l3;
    let y = 100 * (n - 49) + i + l3;
    (y, m, d)
}

/// A month or day number padded with a zero to two characters.
pub open spec fn two_digits(x: int) -> Seq<char> {
    if 0 <= x < 10 { seq!['0', digit_char(x as nat)] } else { signed_decimal(x) }
}

pub open spec fn date_text(y: int, m: int, d: int) -> Seq<char> {
    signed_decimal(y) + seq!['-'] + two_digits(m) + seq!['-'] + two_digits(d)
}

/// The calendar day of a serial number with a day offset added, before the
/// two epoch days are ruled out: day 60 is `(1900, 2, 29)`, days before it
/// move one day on, and the rest go through the Julian-day formula.
/// `None` where the day falls before the formula's range.
pub open spec fn serial_ymd(p: Serial, offset: int) -> Option<(int, int, int)> {
    let f = serial_floor(p) + offset;
    if f == 60 && !p.fraction {
        Some((1900, 2, 29))
    } else {
        let g = if f < 60 { f + 1 } else { f };
        let t = if g >= 0 || !p.fraction { g } else { g + 1 };
        if t + 68569 + 2415019 < 0 {
            None
        } else {
            Some(julian_ymd(t))
        }
    }
}

/// The date text of a serial cell value, or `None` ("no value") where the text
/// is not a number, is zero, or decodes to one of the two epoch days
/// `1900-01-01` and `1900-01-02`.
pub open spec fn excel_date_of(s: Seq<char>, offset: int) -> Option<Seq<char>> {
    match serial_of(s) {
        None => None,
        Some(p) => serial_date(p, offset),
    }
}

/// The date text of a read serial number, as `excel_date_of` gives it.
pub open spec fn serial_date(p: Serial, offset: int) -> Option<Seq<char>> {
    if p.whole == 0 && !p.fraction {
        None
    } else {
        match serial_ymd(p, offset) {
            None => None,
            Some((y, m, d)) => {
                if y == 1900 && m == 1 && (d == 1 || d == 2) {
                    None
                } else {
                    Some(date_text(y, m, d))
                }
            },
        }
    }
}

#[verifier::rlimit(40)]
fn parse_serial(s: &str) -> (r: Option<Serial>)
    ensures
        r == serial_of(s@),
        r matches Some(p) ==> p.whole <= MAX_SERIAL,
{
    let c = chars_of(s);
    let ghost b = unsigned_part(s@);
    let start: usize = if c.len() > 0 && (c[0] == '+' || c[0] == '-') { 1 } else { 0 };
    let negative = c.len() > 0 && c[0] == '-';
    assert(b =~= c@.skip(start as int));
    let mut p: usize = start;
    let mut v: u64 = 0;
    let mut big = false;
    while p < c.len() && '0' <= c[p] && c[p] <= '9'
        invariant
            start <= p <= c@.len(),
            b == c@.skip(start as int),
            b == unsigned_part(s@),
            c@ == s@,
            negative == (s@.len() > 0 && s@[0] == '-'),
            all_digits(b.take(p - start)),
            !big ==> v == digits_value(b.take(p - start)) && v <= MAX_SERIAL,
            big ==> digits_value(b.take(p - start)) > MAX_SERIAL,
        decreases c.len() - p,
    {
        let ghost t = b.take(p - start);
        let ghost t2 = b.take(p - start + 1);
        assert(t2.drop_last() =~= t);
        assert(t2.last() == c@[p as int]);
        let d = (c[p] as u32 - 48) as u64;
        if !big {
            v = v * 10 + d;
            if v > MAX_SERIAL {
                big = true;
            }
        }
        p = p + 1;
    }
    if p == c.len() {
        assert(b.take(p - start) =~= b);
        if p > start && !big {
            return Some(Serial { negative, whole: v, fraction: false });
        }
        proof {
            if p == start {
                assert(b.len() == 0);
                assert forall|k: int| !point_at(b, k) by {}
            }
        }
        return None;
    }
    if c[p] != '.' {
        proof {
            let k0 = p - start;
            assert(b[k0] == c@[p as int]);
            assert(!is_digit(b[k0]));
            assert forall|k: int| !point_at(b, k) by {
                if point_at(b, k) {
                    if k > k0 {
                        assert(b.take(k)[k0] == b[k0]);
                    } else if k < k0 {
                        assert(b.take(k0)[k] == b[k]);
                    }
                }
            }
        }
        return None;
    }
    let dot = p;
    p = p + 1;
    let mut frac = false;
    while p < c.len()
        invariant
            start <= dot < p <= c@.len(),
            b == c@.skip(start as int),
            b == unsigned_part(s@),
            c@ == s@,
            negative == (s@.len() > 0 && s@[0] == '-'),
            c@[dot as int] == '.',
            all_digits(b.take(dot - start)),
            !big ==> v == digits_value(b.take(dot - start)) && v <= MAX_SERIAL,
            big ==> digits_value(b.take(dot - start)) > MAX_SERIAL,
            all_digits(c@.subrange(dot + 1, p as int)),
            frac == exists|j: int| dot + 1 <= j < p && #[trigger] c@[j] != '0',
        decreases c.len() - p,
    {
        if c[p] < '0' || c[p] > '9' {
            proof {
                let k0 = dot - start;
                let q = p - start;
                assert(b[q] == c@[p as int]);
                assert(b[k0] == c@[dot as int]);
                assert forall|k: int| !point_at(b, k) by {
                    if point_at(b, k) {
                        if k < k0 {
                            assert(b.take(k0)[k] == b[k]);
                        } else if k > k0 {
                            assert(b.take(k)[k0] == b[k0]);
                        } else {
                            assert(b.skip(k + 1)[q - k - 1] == b[q]);
                        }
                    }
                }
                assert(!all_digits(b)) by {
                    assert(b[k0] == '.');
                }
            }
            return None;
        }
        if c[p] != '0' {
            frac = true;
        }
        assert(c@.subrange(dot + 1, p + 1) =~= c@.subrange(dot + 1, p as int).push(c@[p as int]));
        p = p + 1;
    }
    proof {
        let k0 = dot - start;
        assert(b.skip(k0 + 1) =~= c@.subrange(dot + 1, p as int));
        assert(b[k0] == '.');
        assert(!all_digits(b));
    }
    if dot == start && p == dot + 1 {
        proof {
            let k0 = dot - start;
            assert(b.len() == 1);
            assert forall|k: int| !point_at(b, k) by {}
        }
        return None;
    }
    proof {
        let k0 = dot - start;
        assert(point_at(b, k0 as int));
        let k = choose|k: int| point_at(b, k);
        if k < k0 {
            assert(b.take(k0 as int)[k] == b[k]);
        } else if k > k0 {
            assert(b.take(k)[k0 as int] == b[k0 as int]);
        }
        assert(k == k0);
        let f = b.skip(k + 1);
        assert(frac == exists|j: int| 0 <= j < b.len() - k - 1 && #[trigger] f[j] != '0') by {
            if frac {
                let j0 = choose|j: int| dot + 1 <= j < p && #[trigger] c@[j] != '0';
                assert(f[j0 - dot - 1] == c@[j0]);
            }
            if exists|j: int| 0 <= j < b.len() - k - 1 && #[trigger] f[j] != '0' {
                let j1 = choose|j: int| 0 <= j < b.len() - k - 1 && #[trigger] f[j] != '0';
                assert(c@[dot + 1 + j1] == f[j1]);
            }
        }
    }
    if big {
        return None;
    }
    Some(Serial { negative, whole: v, fraction: frac })
}

fn julian(t: i128) -> (r: (i64, i64, i64))
    requires
        0 <= t + 68569 + 2415019,
        t <= 10_000_000_000_000_000_000,
    ensures
        (r.0 as int, r.1 as int, r.2 as int) == julian_ymd(t as int),
        -1_000_000_000_000_000_000 < r.0 < 1_000_000_000_000_000_000,
        -1_000_000_000_000_000_000 < r.1 < 1_000_000_000_000_000_000,
        -1_000_000_000_000_000_000 < r.2 < 1_000_000_000_000_000_000,
{
    reveal(julian_ymd);
    let l0: u128 = (t + 68569 + 2415019) as u128;
    let n: u128 = (4 * l0) / 146097;
    assert((146097 * n + 3) / 4 <= l0);
    let l1: u128 = l0 - (146097 * n + 3) / 4;
    let i: u128 = (4000 * (l1 + 1)) / 1461001;
    assert(1461001 * i <= 4000 * (l1 + 1));
    assert((1461 * i) / 4 <= l1);
    let l2: u128 = l1 - (1461 * i) / 4 + 31;
    let j: u128 = (80 * l2) / 2447;
    assert((2447 * j) / 80 <= l2);
    let d: u128 = l2 - (2447 * j) / 80;
    let l3: u128 = j / 11;
    let m: i128 = j as i128 + 2 - 12 * (l3 as i128);
    let y: i128 = 100 * (n as i128 - 49) + i as i128 + l3 as i128;
    (y as i64, m as i64, d as i64)
}

fn push_two_digits(out: &mut Vec<char>, x: i64)
    requires
        x > i64::MIN,
    ensures
        final(out)@ == old(out)@ + two_digits(x as int),
{
    if 0 <= x && x < 10 {
        out.push('0');
        out.push(digit_of(x as u64));
        assert(final(out)@ =~= old(out)@ + two_digits(x as int));
    } else {
        push_signed_decimal(out, x);
    }
}

/// The spec value of an optional day offset.
pub open spec fn offset_days(days_offset: Option<i64>) -> int {
    match days_offset {
        Some(o) => o as int,
        None => 0,
    }
}

/// Decodes a serial day number (with `days_offset` days added) into a
/// `YYYY-MM-DD` date; `None` where the text is not a number, is zero, or
/// lands on one of the epoch days `1900-01-01` and `1900-01-02`.
pub fn excel_date(src: &str, days_offset: Option<i64>) -> (r: Option<String>)
    ensures
        match r {
            Some(text) => excel_date_of(src@, offset_days(days_offset)) == Some(text@),
            None => excel_date_of(src@, offset_days(days_offset)) is None,
        },
{
    match parse_serial(src) {
        None => None,
        Some(p) => date_of_serial(p, days_offset),
    }
}

fn date_of_serial(p: Serial, days_offset: Option<i64>) -> (r: Option<String>)
    requires
        p.whole <= MAX_SERIAL,
    ensures
        match r {
            Some(text) => serial_date(p, offset_days(days_offset)) == Some(text@),
            None => serial_date(p, offset_days(days_offset)) is None,
        },
{
    if p.whole == 0 && !p.fraction {
        return None;
    }
    let off: i128 = match days_offset {
        Some(o) => o as i128,
        None => 0,
    };
    let fl: i128 = if !p.negative {
        p.whole as i128
    } else if p.fraction {
        -(p.whole as i128) - 1
    } else {
        -(p.whole as i128)
    };
    let f: i128 = fl + off;
    let y: i64;
    let m: i64;
    let d: i64;
    if f == 60 && !p.fraction {
        y = 1900;
        m = 2;
        d = 29;
    } else {
        let g: i128 = if f < 60 { f + 1 } else { f };
        let t: i128 = if g >= 0 || !p.fraction { g } else { g + 1 };
        if t + 68569 + 2415019 < 0 {
            return None;
        }
        let ymd = julian(t);
        y = ymd.0;
        m = ymd.1;
        d = ymd.2;
    }
    if y == 1900 && m == 1 && (d == 1 || d == 2) {
        return None;
    }
    let mut out: Vec<char> = Vec::new();
    push_signed_decimal(&mut out, y);
    out.push('-');
    push_two_digits(&mut out, m);
    out.push('-');
    push_two_digits(&mut out, d);
    assert(out@ =~= date_text(y as int, m as int, d as int));
    Some(string_of(&out))
}

} // verus!
