//! Reading dates and date-times from text by a format string.
//!
//! Input and format are read character by character. `%Y` takes four ASCII
//! digits, `%m`, `%d`, `%H`, `%M`, `%S` two, `%T` `HH:MM:SS`, `%B` a Persian
//! month name and `%%` a percent sign; any other character must match itself.
use crate::calendar::{valid_hms, valid_ymd, ymd, Ymd, YmdHms};
use crate::error::{DateError, ParseErrorKind};
use crate::text::{chars_of, digit_value, is_digit, month_name, month_name_str};
use vstd::prelude::*;

verus! {

/// The components read so far.
#[derive(Clone, Copy)]
pub struct Fields {
    pub year: Option<i32>,
    pub month: Option<u32>,
    pub day: Option<u32>,
    pub hour: Option<u32>,
    pub minute: Option<u32>,
    pub second: Option<u32>,
}

pub open spec fn no_fields() -> Fields {
    Fields { year: None, month: None, day: None, hour: None, minute: None, second: None }
}

/// The first `n` characters of `s` are ASCII digits.
pub open spec fn digits_at(s: Seq<char>, n: int) -> bool {
    &&& s.len() >= n
    &&& forall|i: int| 0 <= i < n ==> is_digit(#[trigger] s[i])
}

pub open spec fn two_digit_value(s: Seq<char>, at: int) -> int {
    digit_value(s[at]) * 10 + digit_value(s[at + 1])
}

pub open spec fn four_digit_value(s: Seq<char>) -> int {
    digit_value(s[0]) * 1000 + digit_value(s[1]) * 100 + digit_value(s[2]) * 10 + digit_value(s[3])
}

pub open spec fn is_prefix_of(a: Seq<char>, s: Seq<char>) -> bool {
    a.len() <= s.len() && s.take(a.len() as int) == a
}

/// The first month index, from `i` on, whose Persian name begins `s`.
pub open spec fn month_name_prefix_from(s: Seq<char>, i: int) -> Option<int>
    decreases 12 - i,
{
    if i >= 12 {
        None
    } else if is_prefix_of(month_name(i), s) {
        Some(i)
    } else {
        month_name_prefix_from(s, i + 1)
    }
}

/// The components that a two-digit time specifier sets.
pub open spec fn with_time_field(acc: Fields, c: char, v: u32) -> Fields {
    if c == 'H' {
        Fields { hour: Some(v), ..acc }
    } else if c == 'M' {
        Fields { minute: Some(v), ..acc }
    } else {
        Fields { second: Some(v), ..acc }
    }
}

pub open spec fn is_time_text(s: Seq<char>) -> bool {
    &&& s.len() >= 8
    &&& is_digit(s[0]) && is_digit(s[1]) && s[2] == ':'
    &&& is_digit(s[3]) && is_digit(s[4]) && s[5] == ':'
    &&& is_digit(s[6]) && is_digit(s[7])
}

/// Reads input `s` by format `f`, starting from the components `acc`.
/// Time specifiers are recognised only when `with_time` holds.
pub open spec fn scan(s: Seq<char>, f: Seq<char>, acc: Fields, with_time: bool) -> Result<
    Fields,
    ParseErrorKind,
>
    decreases f.len(),
{
    if f.len() == 0 {
        if s.len() == 0 {
            Ok(acc)
        } else {
            Err(ParseErrorKind::FormatMismatch)
        }
    } else if f[0] == '%' {
        if f.len() < 2 {
            Err(ParseErrorKind::FormatMismatch)
        } else {
            let c = f[1];
            if with_time && (c == 'H' || c == 'M' || c == 'S') {
                if !digits_at(s, 2) {
                    Err(ParseErrorKind::InvalidNumber)
                } else {
                    scan(
                        s.skip(2),
                        f.skip(2),
                        with_time_field(acc, c, two_digit_value(s, 0) as u32),
                        with_time,
                    )
                }
            } else if with_time && c == 'T' {
                if !is_time_text(s) {
                    Err(ParseErrorKind::FormatMismatch)
                } else {
                    scan(
                        s.skip(8),
                        f.skip(2),
                        Fields {
                            hour: Some(two_digit_value(s, 0) as u32),
                            minute: Some(two_digit_value(s, 3) as u32),
                            second: Some(two_digit_value(s, 6) as u32),
                            ..acc
                        },
                        with_time,
                    )
                }
            } else if c == '%' {
                if s.len() == 0 || s[0] != '%' {
                    Err(ParseErrorKind::FormatMismatch)
                } else {
                    scan(s.skip(1), f.skip(2), acc, with_time)
                }
            } else if c == 'Y' {
                if !digits_at(s, 4) {
                    Err(ParseErrorKind::InvalidNumber)
                } else {
                    scan(
                        s.skip(4),
                        f.skip(2),
                        Fields { year: Some(four_digit_value(s) as i32), ..acc },
                        with_time,
                    )
                }
            } else if c == 'm' || c == 'd' {
                if !digits_at(s, 2) {
                    Err(ParseErrorKind::InvalidNumber)
                } else if c == 'm' {
                    scan(
                        s.skip(2),
                        f.skip(2),
                        Fields { month: Some(two_digit_value(s, 0) as u32), ..acc },
                        with_time,
                    )
                } else {
                    scan(
                        s.skip(2),
                        f.skip(2),
                        Fields { day: Some(two_digit_value(s, 0) as u32), ..acc },
                        with_time,
                    )
                }
            } else if c == 'B' {
                match month_name_prefix_from(s, 0) {
                    Some(i) => scan(
                        s.skip(month_name(i).len() as int),
                        f.skip(2),
                        Fields { month: Some((i + 1) as u32), ..acc },
                        with_time,
                    ),
                    None => Err(ParseErrorKind::InvalidMonthName),
                }
            } else {
                Err(ParseErrorKind::UnsupportedSpecifier)
            }
        }
    } else {
        if s.len() == 0 || s[0] != f[0] {
            Err(ParseErrorKind::FormatMismatch)
        } else {
            scan(s.skip(1), f.skip(1), acc, with_time)
        }
    }
}

fn is_ascii_digit(c: char) -> (r: bool)
    ensures
        r == is_digit(c),
{
    '0' <= c && c <= '9'
}

fn digit_of(c: char) -> (r: u32)
    requires
        is_digit(c),
    ensures
        r == digit_value(c),
        r <= 9,
{
    (c as u32) - ('0' as u32)
}

/// Whether `name` occurs in `s` at position `at`.
fn occurs_at(s: &Vec<char>, at: usize, name: &Vec<char>) -> (r: bool)
    requires
        at <= s.len(),
    ensures
        r == is_prefix_of(name@, s@.skip(at as int)),
{
    if name.len() > s.len() - at {
        return false;
    }
    let mut k: usize = 0;
    while k < name.len()
        invariant
            name.len() <= s.len() - at,
            0 <= k <= name.len(),
            forall|j: int| 0 <= j < k ==> s@[at + j] == name@[j],
        decreases name.len() - k,
    {
        if s[at + k] != name[k] {
            assert(s@.skip(at as int).take(name.len() as int)[k as int] != name@[k as int]);
            return false;
        }
        k = k + 1;
    }
    assert(s@.skip(at as int).take(name.len() as int) =~= name@);
    true
}

/// The first month whose name occurs in `s` at `at`, with the name's length.
fn month_name_at(s: &Vec<char>, at: usize) -> (r: Option<(u32, usize)>)
    requires
        at <= s.len(),
    ensures
        r matches Some((i, len)) ==> month_name_prefix_from(s@.skip(at as int), 0) == Some(
            i as int,
        ) && len == month_name(i as int).len() && i < 12 && len <= s.len() - at,
        r is None ==> month_name_prefix_from(s@.skip(at as int), 0) is None,
{
    let ghost rest = s@.skip(at as int);
    let mut i: u32 = 0;
    while i < 12
        invariant
            0 <= i <= 12,
            at <= s.len(),
            rest == s@.skip(at as int),
            month_name_prefix_from(rest, 0) == month_name_prefix_from(rest, i as int),
        decreases 12 - i,
    {
        let name = chars_of(month_name_str(i));
        if occurs_at(s, at, &name) {
            return Some((i, name.len()));
        }
        i = i + 1;
    }
    None
}

/// Reads input `s` by format `f` (see `scan`).
pub(crate) fn scan_fields(s: &str, f: &str, with_time: bool) -> (r: Result<Fields, ParseErrorKind>)
    ensures
        r == scan(s@, f@, no_fields(), with_time),
{
    let sc = chars_of(s);
    let fc = chars_of(f);
    let mut acc = Fields {
        year: None,
        month: None,
        day: None,
        hour: None,
        minute: None,
        second: None,
    };
    let mut si: usize = 0;
    let mut fi: usize = 0;
    assert(sc@.skip(0) =~= sc@);
    assert(fc@.skip(0) =~= fc@);
    while fi < fc.len()
        invariant
            sc@ == s@,
            fc@ == f@,
            si <= sc.len(),
            fi <= fc.len(),
            scan(sc@, fc@, no_fields(), with_time) == scan(
                sc@.skip(si as int),
                fc@.skip(fi as int),
                acc,
                with_time,
            ),
        decreases fc.len() - fi,
    {
        let ghost rs = sc@.skip(si as int);
        let ghost rf = fc@.skip(fi as int);
        assert(rf[0] == fc@[fi as int]);
        assert(rf.len() == fc.len() - fi);
        assert(rs.len() == sc.len() - si);
        let left = sc.len() - si;
        if fc[fi] == '%' {
            if fc.len() - fi < 2 {
                return Err(ParseErrorKind::FormatMismatch);
            }
            let c = fc[fi + 1];
            assert(rf[1] == c);
            assert(rf.skip(2) =~= fc@.skip(fi + 2));
            if with_time && (c == 'H' || c == 'M' || c == 'S') {
                if left < 2 || !is_ascii_digit(sc[si]) || !is_ascii_digit(sc[si + 1]) {
                    assert(!digits_at(rs, 2)) by {
                        if left >= 2 {
                            assert(rs[0] == sc@[si as int] && rs[1] == sc@[si + 1]);
                        }
                    }
                    return Err(ParseErrorKind::InvalidNumber);
                }
                assert(rs[0] == sc@[si as int] && rs[1] == sc@[si + 1]);
                let v = digit_of(sc[si]) * 10 + digit_of(sc[si + 1]);
                if c == 'H' {
                    acc.hour = Some(v);
                } else if c == 'M' {
                    acc.minute = Some(v);
                } else {
                    acc.second = Some(v);
                }
                assert(rs.skip(2) =~= sc@.skip(si + 2));
                si = si + 2;
                fi = fi + 2;
            } else if with_time && c == 'T' {
                if left < 8 || !is_ascii_digit(sc[si]) || !is_ascii_digit(sc[si + 1]) || sc[si + 2]
                    != ':' || !is_ascii_digit(sc[si + 3]) || !is_ascii_digit(sc[si + 4]) || sc[si
                    + 5] != ':' || !is_ascii_digit(sc[si + 6]) || !is_ascii_digit(sc[si + 7]) {
                    return Err(ParseErrorKind::FormatMismatch);
                }
                acc.hour = Some(digit_of(sc[si]) * 10 + digit_of(sc[si + 1]));
                acc.minute = Some(digit_of(sc[si + 3]) * 10 + digit_of(sc[si + 4]));
                acc.second = Some(digit_of(sc[si + 6]) * 10 + digit_of(sc[si + 7]));
                assert(rs.skip(8) =~= sc@.skip(si + 8));
                si = si + 8;
                fi = fi + 2;
            } else if c == '%' {
                if left == 0 || sc[si] != '%' {
                    return Err(ParseErrorKind::FormatMismatch);
                }
                assert(rs.skip(1) =~= sc@.skip(si + 1));
                si = si + 1;
                fi = fi + 2;
            } else if c == 'Y' {
                if left < 4 || !is_ascii_digit(sc[si]) || !is_ascii_digit(sc[si + 1])
                    || !is_ascii_digit(sc[si + 2]) || !is_ascii_digit(sc[si + 3]) {
                    assert(!digits_at(rs, 4)) by {
                        if left >= 4 {
                            assert(rs[0] == sc@[si as int] && rs[1] == sc@[si + 1] && rs[2] == sc@[si
                                + 2] && rs[3] == sc@[si + 3]);
                            assert(!is_digit(rs[0]) || !is_digit(rs[1]) || !is_digit(rs[2])
                                || !is_digit(rs[3]));
                        }
                    }
                    return Err(ParseErrorKind::InvalidNumber);
                }
                assert(rs[0] == sc@[si as int] && rs[1] == sc@[si + 1] && rs[2] == sc@[si + 2]
                    && rs[3] == sc@[si + 3]);
                assert(forall|j: int| 0 <= j < 4 ==> is_digit(#[trigger] rs[j]));
                let v = digit_of(sc[si]) * 1000 + digit_of(sc[si + 1]) * 100 + digit_of(sc[si + 2])
                    * 10 + digit_of(sc[si + 3]);
                acc.year = Some(v as i32);
                assert(rs.skip(4) =~= sc@.skip(si + 4));
                si = si + 4;
                fi = fi + 2;
            } else if c == 'm' || c == 'd' {
                if left < 2 || !is_ascii_digit(sc[si]) || !is_ascii_digit(sc[si + 1]) {
                    assert(!digits_at(rs, 2)) by {
                        if left >= 2 {
                            assert(rs[0] == sc@[si as int] && rs[1] == sc@[si + 1]);
                        }
                    }
                    return Err(ParseErrorKind::InvalidNumber);
                }
                assert(rs[0] == sc@[si as int] && rs[1] == sc@[si + 1]);
                assert(forall|j: int| 0 <= j < 2 ==> is_digit(#[trigger] rs[j]));
                let v = digit_of(sc[si]) * 10 + digit_of(sc[si + 1]);
                if c == 'm' {
                    acc.month = Some(v);
                } else {
                    acc.day = Some(v);
                }
                assert(rs.skip(2) =~= sc@.skip(si + 2));
                si = si + 2;
                fi = fi + 2;
            } else if c == 'B' {
                match month_name_at(&sc, si) {
                    Some((i, len)) => {
                        acc.month = Some(i + 1);
                        proof {
                            assert(rs.skip(len as int) =~= sc@.skip(si + len));
                        }
                        si = si + len;
                        fi = fi + 2;
                    },
                    None => {
                        return Err(ParseErrorKind::InvalidMonthName);
                    },
                }
            } else {
                return Err(ParseErrorKind::UnsupportedSpecifier);
            }
        } else {
            if left == 0 || sc[si] != fc[fi] {
                return Err(ParseErrorKind::FormatMismatch);
            }
            assert(rs[0] == sc@[si as int]);
            assert(rs.skip(1) =~= sc@.skip(si + 1));
            assert(rf.skip(1) =~= fc@.skip(fi + 1));
            si = si + 1;
            fi = fi + 1;
        }
    }
    if si < sc.len() {
        return Err(ParseErrorKind::FormatMismatch);
    }
    assert(sc@.skip(si as int) =~= Seq::<char>::empty());
    Ok(acc)
}

/// What `ParsiDate::parse(s, f)` returns.
pub open spec fn parse_date_outcome(s: Seq<char>, f: Seq<char>) -> Result<Ymd, DateError> {
    match scan(s, f, no_fields(), false) {
        Err(k) => Err(DateError::ParseError(k)),
        Ok(acc) => {
            if acc.year is Some && acc.month is Some && acc.day is Some {
                let (y, m, d) = (
                    acc.year->0 as int,
                    acc.month->0 as int,
                    acc.day->0 as int,
                );
                if valid_ymd(y, m, d) {
                    Ok(ymd(y, m, d))
                } else {
                    Err(DateError::ParseError(ParseErrorKind::InvalidDateValue))
                }
            } else {
                Err(DateError::ParseError(ParseErrorKind::FormatMismatch))
            }
        },
    }
}

/// What `ParsiDateTime::parse(s, f)` returns.
pub open spec fn parse_datetime_outcome(s: Seq<char>, f: Seq<char>) -> Result<YmdHms, DateError> {
    match scan(s, f, no_fields(), true) {
        Err(k) => Err(DateError::ParseError(k)),
        Ok(acc) => {
            if acc.year is Some && acc.month is Some && acc.day is Some && acc.hour is Some
                && acc.minute is Some && acc.second is Some {
                let (y, m, d) = (
                    acc.year->0 as int,
                    acc.month->0 as int,
                    acc.day->0 as int,
                );
                let (h, mi, sec) = (
                    acc.hour->0 as int,
                    acc.minute->0 as int,
                    acc.second->0 as int,
                );
                if !valid_ymd(y, m, d) {
                    Err(DateError::ParseError(ParseErrorKind::InvalidDateValue))
                } else if !valid_hms(h, mi, sec) {
                    Err(DateError::ParseError(ParseErrorKind::InvalidTimeValue))
                } else {
                    Ok(YmdHms { date: ymd(y, m, d), hour: h, minute: mi, second: sec })
                }
            } else {
                Err(DateError::ParseError(ParseErrorKind::FormatMismatch))
            }
        },
    }
}

} // verus!
