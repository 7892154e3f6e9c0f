//! `strftime`-like formatting of dates and date-times.
use crate::calendar::{is_valid_ymd, ordinal_of, Ymd};
use crate::date::{week_number, weekday_number, ParsiDate};
use crate::season::{season_name_persian, season_of_month};
use crate::text::{
    chars_of, decimal, month_name, month_name_str, padded_decimal, push_char, push_padded,
    push_signed, push_str, push_unsigned, signed_decimal, weekday_name,
};
use vstd::prelude::*;

verus! {

/// What `%B` renders: the month's name, looked up at `month - 1`
/// (saturating at 0), or a marker for an index past Esfand.
pub open spec fn month_name_or_marker(month: int) -> Seq<char> {
    let idx = if month >= 1 {
        month - 1
    } else {
        0
    };
    if idx < 12 {
        month_name(idx)
    } else {
        "?InvalidMonth?"@
    }
}

/// Two-digit zero-padded rendering.
pub open spec fn two_digits(n: int) -> Seq<char> {
    padded_decimal(n as nat, 2)
}

/// What a time specifier (`%H`, `%M`, `%S`, `%T`) renders, if `c` is one and
/// a time of day is given.
pub open spec fn expand_time_specifier(time: Option<(int, int, int)>, c: char) -> Option<
    Seq<char>,
> {
    match time {
        Some((h, mi, s)) => {
            if c == 'H' {
                Some(two_digits(h))
            } else if c == 'M' {
                Some(two_digits(mi))
            } else if c == 'S' {
                Some(two_digits(s))
            } else if c == 'T' {
                Some(two_digits(h) + seq![':'] + two_digits(mi) + seq![':'] + two_digits(s))
            } else {
                None
            }
        },
        None => None,
    }
}

/// What `%` followed by `c` renders for date `p` and, for a date-time,
/// the time of day `time` (hour, minute, second).
pub open spec fn expand_specifier(p: Ymd, time: Option<(int, int, int)>, c: char) -> Seq<char> {
    if expand_time_specifier(time, c) is Some {
        expand_time_specifier(time, c).unwrap()
    } else if c == '%' {
        seq!['%']
    } else if c == 'Y' {
        signed_decimal(p.year)
    } else if c == 'm' {
        two_digits(p.month)
    } else if c == 'd' {
        two_digits(p.day)
    } else if c == 'B' {
        month_name_or_marker(p.month)
    } else if c == 'A' {
        if is_valid_ymd(p) {
            weekday_name(weekday_number(p))
        } else {
            "?WeekdayError?"@
        }
    } else if c == 'w' {
        if is_valid_ymd(p) {
            decimal(weekday_number(p) as nat)
        } else {
            seq!['?']
        }
    } else if c == 'j' {
        if is_valid_ymd(p) {
            padded_decimal(ordinal_of(p.month, p.day) as nat, 3)
        } else {
            "???"@
        }
    } else if c == 'K' {
        if is_valid_ymd(p) {
            season_name_persian(season_of_month(p.month))
        } else {
            "?SeasonError?"@
        }
    } else if c == 'W' {
        if is_valid_ymd(p) {
            two_digits(week_number(p))
        } else {
            "?WeekError?"@
        }
    } else {
        seq!['%', c]
    }
}

/// The rendering of pattern `pat`: specifiers are expanded, other characters
/// are copied, and a `%` ending the pattern is copied as is.
pub open spec fn format_chars(p: Ymd, time: Option<(int, int, int)>, pat: Seq<char>) -> Seq<
    char,
>
    decreases pat.len(),
{
    if pat.len() == 0 {
        seq![]
    } else if pat[0] == '%' {
        if pat.len() == 1 {
            seq!['%']
        } else {
            expand_specifier(p, time, pat[1]) + format_chars(p, time, pat.skip(2))
        }
    } else {
        seq![pat[0]] + format_chars(p, time, pat.skip(1))
    }
}

/// The time of day as a ghost triple.
pub open spec fn time_view(time: Option<(u32, u32, u32)>) -> Option<(int, int, int)> {
    match time {
        Some(t) => Some((t.0 as int, t.1 as int, t.2 as int)),
        None => None,
    }
}

fn push_specifier(out: &mut String, date: &ParsiDate, time: Option<(u32, u32, u32)>, c: char)
    ensures
        final(out)@ == old(out)@ + expand_specifier(date@, time_view(time), c),
{
    let is_time = time.is_some();
    if is_time && (c == 'H' || c == 'M' || c == 'S' || c == 'T') {
        let (h, m, s) = time.unwrap();
        if c == 'H' {
            push_padded(out, h as u64, 2);
        } else if c == 'M' {
            push_padded(out, m as u64, 2);
        } else if c == 'S' {
            push_padded(out, s as u64, 2);
        } else {
            push_padded(out, h as u64, 2);
            push_char(out, ':');
            push_padded(out, m as u64, 2);
            push_char(out, ':');
            push_padded(out, s as u64, 2);
            assert(out@ =~= old(out)@ + expand_specifier(date@, time_view(time), c));
        }
    } else if c == '%' {
        push_char(out, '%');
    } else if c == 'Y' {
        push_signed(out, date.year() as i64);
    } else if c == 'm' {
        push_padded(out, date.month() as u64, 2);
    } else if c == 'd' {
        push_padded(out, date.day() as u64, 2);
    } else if c == 'B' {
        let month = date.month();
        let idx = if month >= 1 {
            month - 1
        } else {
            0
        };
        if idx < 12 {
            push_str(out, month_name_str(idx));
        } else {
            push_str(out, "?InvalidMonth?");
        }
    } else if c == 'A' {
        match date.weekday_internal() {
            Ok(name) => push_str(out, name.as_str()),
            Err(_) => push_str(out, "?WeekdayError?"),
        }
    } else if c == 'w' {
        match date.weekday_num_sat_0() {
            Ok(num) => push_unsigned(out, num as u64),
            Err(_) => push_char(out, '?'),
        }
    } else if c == 'j' {
        match date.ordinal_internal() {
            Ok(ord) => push_padded(out, ord as u64, 3),
            Err(_) => push_str(out, "???"),
        }
    } else if c == 'K' {
        match date.season() {
            Ok(season) => push_str(out, season.name_persian()),
            Err(_) => push_str(out, "?SeasonError?"),
        }
    } else if c == 'W' {
        match date.week_of_year() {
            Ok(week) => push_padded(out, week as u64, 2),
            Err(_) => push_str(out, "?WeekError?"),
        }
    } else {
        push_char(out, '%');
        push_char(out, c);
        assert(out@ =~= old(out)@ + expand_specifier(date@, time_view(time), c));
    }
}

/// Renders `pattern` for `date` and, for a date-time, its time of day.
pub(crate) fn format_pattern(date: &ParsiDate, time: Option<(u32, u32, u32)>, pattern: &str) -> (r:
    String)
    ensures
        r@ == format_chars(date@, time_view(time), pattern@),
{
    let chars = chars_of(pattern);
    let ghost pat = chars@;
    let mut out = String::new();
    let mut i: usize = 0;
    assert(pat.skip(0) =~= pat);
    assert(out@ + format_chars(date@, time_view(time), pat) =~= format_chars(
        date@,
        time_view(time),
        pat,
    ));
    while i < chars.len()
        invariant
            0 <= i <= chars.len(),
            pat == chars@,
            format_chars(date@, time_view(time), pat) == out@ + format_chars(
                date@,
                time_view(time),
                pat.skip(i as int),
            ),
        decreases chars.len() - i,
    {
        let c = chars[i];
        let ghost rest = pat.skip(i as int);
        assert(rest[0] == c);
        if c == '%' {
            if i + 1 < chars.len() {
                let next = chars[i + 1];
                assert(rest[1] == next);
                assert(rest.skip(2) =~= pat.skip(i + 2));
                push_specifier(&mut out, date, time, next);
                i = i + 2;
            } else {
                push_char(&mut out, '%');
                i = i + 1;
                assert(pat.skip(i as int) =~= Seq::<char>::empty());
            }
        } else {
            assert(rest.skip(1) =~= pat.skip(i + 1));
            push_char(&mut out, c);
            i = i + 1;
        }
    }
    assert(pat.skip(chars.len() as int) =~= Seq::<char>::empty());
    out
}

/// `{year}{sep}{month:02}{sep}{day:02}`.
pub open spec fn numeric_form(p: Ymd, sep: char) -> Seq<char> {
    signed_decimal(p.year) + seq![sep] + two_digits(p.month) + seq![sep] + two_digits(p.day)
}

/// `{day} {month name} {year}`.
pub open spec fn long_form(p: Ymd) -> Seq<char> {
    decimal(p.day as nat) + seq![' '] + month_name_or_marker(p.month) + seq![' '] + signed_decimal(
        p.year,
    )
}

/// What `ParsiDate::format` renders for a style name or a pattern.
pub open spec fn format_style(p: Ymd, style: Seq<char>) -> Seq<char> {
    if style == "short"@ {
        numeric_form(p, '/')
    } else if style == "long"@ {
        long_form(p)
    } else if style == "iso"@ {
        numeric_form(p, '-')
    } else {
        format_chars(p, None, style)
    }
}

/// Appends `{year}{sep}{month:02}{sep}{day:02}`.
pub(crate) fn push_numeric_form(out: &mut String, date: &ParsiDate, sep: char)
    ensures
        final(out)@ == old(out)@ + numeric_form(date@, sep),
{
    push_signed(out, date.year() as i64);
    push_char(out, sep);
    push_padded(out, date.month() as u64, 2);
    push_char(out, sep);
    push_padded(out, date.day() as u64, 2);
    assert(out@ =~= old(out)@ + numeric_form(date@, sep));
}

/// Appends `{day} {month name} {year}`.
pub(crate) fn push_long_form(out: &mut String, date: &ParsiDate)
    ensures
        final(out)@ == old(out)@ + long_form(date@),
{
    push_unsigned(out, date.day() as u64);
    push_char(out, ' ');
    let month = date.month();
    let idx = if month >= 1 {
        month - 1
    } else {
        0
    };
    if idx < 12 {
        push_str(out, month_name_str(idx));
    } else {
        push_str(out, "?InvalidMonth?");
    }
    push_char(out, ' ');
    push_signed(out, date.year() as i64);
    assert(out@ =~= old(out)@ + long_form(date@));
}

} // verus!
