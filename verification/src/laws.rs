//! Properties of the library as a whole, stated over the spec functions that
//! the operations' contracts use, and proved.
use crate::calendar::{
    day_number_of, days_before_month, days_before_year, gregorian_day_number_of,
    gregorian_is_valid, is_leap, is_valid_ymd, lemma_day_number_in_year, lemma_day_number_injective,
    lemma_days_before_year_closed, lemma_days_before_year_step, lemma_days_before_year_strict,
    lemma_gregorian_day_number_injective, lemma_ordinal_bounds,
    lemma_persian_of_day_number, lemma_supported_day_number, month_len, ordinal_of,
    persian_of_day_number, valid_hms, weekday_of_day_number, year_len, ymd, Ymd, YmdHms,
    EPOCH_GREGORIAN_DAY, SUPPORTED_DAYS,
};
use crate::date::{
    abs_diff, add_days_outcome, add_months_outcome, add_years_outcome, day_in_year,
    from_ordinal_outcome, gregorian_to_persian, month_day_of_ordinal, new_outcome, week_number,
    weekday_number,
};
use crate::datetime::{
    add_seconds_outcome, datetime_string, is_valid_datetime, keep_time, time_of,
};
use crate::error::{DateError, ParseErrorKind};
use crate::format::{expand_specifier, format_chars, numeric_form, two_digits};
use crate::parse::{
    digits_at, four_digit_value, is_prefix_of, month_name_prefix_from, no_fields, parse_date_outcome, parse_datetime_outcome, scan,
    two_digit_value, with_time_field, Fields,
};
use crate::season::{
    season_name_english, season_name_persian, season_of_month, season_start_month, Season,
};
use crate::text::{
    decimal, digit_char, digit_value, is_digit, month_name, weekday_name, lemma_decimal_four, lemma_digit_char,
    lemma_two_digits, padded_decimal, signed_decimal,
};
use vstd::prelude::*;
use vstd::seq_lib::lemma_concat_associative;

verus! {

/// The Persian date with day number `n` (in the supported range) is the only
/// valid date with that day number.
proof fn lemma_persian_of_valid(p: Ymd)
    requires
        is_valid_ymd(p),
    ensures
        persian_of_day_number(day_number_of(p)) == Some(p),
{
    lemma_supported_day_number(p.year, p.month, p.day);
    lemma_persian_of_day_number(day_number_of(p));
    let q = persian_of_day_number(day_number_of(p)).unwrap();
    lemma_day_number_injective(p.year, p.month, p.day, q.year, q.month, q.day);
}

/// Converting a valid date to the Gregorian calendar and back gives the same
/// date: any valid Gregorian date `g` with the day number that
/// `to_gregorian` promises for `p` converts back to `p`.
pub proof fn law_gregorian_round_trip(p: Ymd, g: Ymd)
    requires
        is_valid_ymd(p),
        gregorian_is_valid(g),
        gregorian_day_number_of(g) == EPOCH_GREGORIAN_DAY + day_number_of(p),
    ensures
        gregorian_to_persian(g) == Ok::<Ymd, DateError>(p),
{
    lemma_persian_of_valid(p);
}

/// A Gregorian date that converts to a Persian date `p` is the Gregorian date
/// of `p`: converting back gives the same Gregorian date.
pub proof fn law_persian_round_trip(g: Ymd, p: Ymd, g2: Ymd)
    requires
        gregorian_is_valid(g),
        gregorian_is_valid(g2),
        gregorian_to_persian(g) == Ok::<Ymd, DateError>(p),
        gregorian_day_number_of(g2) == EPOCH_GREGORIAN_DAY + day_number_of(p),
    ensures
        is_valid_ymd(p),
        g2 == g,
{
    let n = gregorian_day_number_of(g) - EPOCH_GREGORIAN_DAY;
    lemma_persian_of_day_number(n);
    lemma_gregorian_day_number_injective(g, g2);
}

/// Exactly the Gregorian dates from 622-03-21 through the last day of year
/// 9999 convert.
pub proof fn law_gregorian_conversion_range(g: Ymd)
    ensures
        gregorian_to_persian(g) is Ok <==> EPOCH_GREGORIAN_DAY <= gregorian_day_number_of(g)
            < EPOCH_GREGORIAN_DAY + SUPPORTED_DAYS,
{
}

/// Adding `n` days and then `-n` days gives the starting date back, and the
/// two dates are `|n|` days apart.
pub proof fn law_add_days_inverse(p: Ymd, n: int, q: Ymd)
    requires
        add_days_outcome(p, n) == Ok::<Ymd, DateError>(q),
    ensures
        is_valid_ymd(q),
        day_number_of(q) == day_number_of(p) + n,
        abs_diff(day_number_of(p), day_number_of(q)) == (if n >= 0 {
            n
        } else {
            -n
        }),
        add_days_outcome(q, -n) == Ok::<Ymd, DateError>(p),
{
    let t = EPOCH_GREGORIAN_DAY + day_number_of(p) + n;
    lemma_persian_of_day_number(t - EPOCH_GREGORIAN_DAY);
    lemma_supported_day_number(p.year, p.month, p.day);
    lemma_persian_of_valid(p);
}

/// Adding days composes: `n` days then `m` days is `n + m` days.
pub proof fn law_add_days_compose(p: Ymd, n: int, m: int, q: Ymd, r: Ymd)
    requires
        add_days_outcome(p, n) == Ok::<Ymd, DateError>(q),
        add_days_outcome(q, m) == Ok::<Ymd, DateError>(r),
        n + m != i64::MIN,
    ensures
        add_days_outcome(p, n + m) == Ok::<Ymd, DateError>(r),
{
    law_add_days_inverse(p, n, q);
    law_add_days_inverse(q, m, r);
    lemma_supported_day_number(r.year, r.month, r.day);
    lemma_persian_of_valid(r);
}

/// The day after a date falls on the next weekday.
pub proof fn law_weekday_of_next_day(p: Ymd, q: Ymd)
    requires
        add_days_outcome(p, 1) == Ok::<Ymd, DateError>(q),
    ensures
        weekday_number(q) == (weekday_number(p) + 1) % 7,
        0 <= weekday_number(q) < 7,
{
    law_add_days_inverse(p, 1, q);
    let a = EPOCH_GREGORIAN_DAY + day_number_of(p);
    assert(((a + 1) % 7 + 1) % 7 == ((a % 7 + 1) % 7 + 1) % 7) by (nonlinear_arith);
}

/// Dates seven days apart fall on the same weekday.
pub proof fn law_weekday_period(p: Ymd, q: Ymd)
    requires
        add_days_outcome(p, 7) == Ok::<Ymd, DateError>(q),
    ensures
        weekday_number(q) == weekday_number(p),
{
    law_add_days_inverse(p, 7, q);
    let a = EPOCH_GREGORIAN_DAY + day_number_of(p);
    assert((a + 7) % 7 == a % 7) by (nonlinear_arith);
}

/// The ordinal of a valid date gives the date back through `from_ordinal`.
pub proof fn law_ordinal_round_trip(p: Ymd)
    requires
        is_valid_ymd(p),
    ensures
        from_ordinal_outcome(p.year, ordinal_of(p.month, p.day)) == Ok::<Ymd, DateError>(p),
{
    lemma_ordinal_bounds(p.year, p.month, p.day);
    let o = ordinal_of(p.month, p.day);
    let m = p.month;
    if m <= 6 {
        assert((o - 1) / 31 + 1 == m && (o - 1) % 31 + 1 == p.day) by (nonlinear_arith)
            requires
                o == 31 * (m - 1) + p.day,
                1 <= p.day <= 31,
                1 <= m,
        ;
    } else {
        assert((o - 187) / 30 + 7 == m && (o - 187) % 30 + 1 == p.day) by (nonlinear_arith)
            requires
                o == 186 + 30 * (m - 7) + p.day,
                1 <= p.day <= 30,
                7 <= m,
        ;
    }
}

/// `from_ordinal` yields the date whose ordinal is the one asked for.
pub proof fn law_from_ordinal_ordinal(y: int, o: int, q: Ymd)
    requires
        from_ordinal_outcome(y, o) == Ok::<Ymd, DateError>(q),
    ensures
        is_valid_ymd(q),
        q.year == y,
        ordinal_of(q.month, q.day) == o,
{
    let (m, d) = month_day_of_ordinal(o);
    if o <= 186 {
        assert(31 * (m - 1) + d == o) by (nonlinear_arith)
            requires
                m == (o - 1) / 31 + 1,
                d == (o - 1) % 31 + 1,
        ;
    } else {
        assert(186 + 30 * (m - 7) + d == o) by (nonlinear_arith)
            requires
                m == (o - 187) / 30 + 7,
                d == (o - 187) % 30 + 1,
        ;
    }
}

/// Adding months moves the month count by `k` and clamps the day to the
/// length of the target month.
pub proof fn law_add_months(p: Ymd, k: int, q: Ymd)
    requires
        add_months_outcome(p, k) == Ok::<Ymd, DateError>(q),
    ensures
        is_valid_ymd(q),
        q.year * 12 + q.month == p.year * 12 + p.month + k,
        q.day == (if p.day < month_len(q.year, q.month) {
            p.day
        } else {
            month_len(q.year, q.month)
        }),
{
    if k != 0 {
        let t = p.year * 12 + (p.month - 1) + k;
        assert(t == (t / 12) * 12 + t % 12 && 0 <= t % 12 < 12) by (nonlinear_arith);
    }
}

/// Adding years keeps month and day, except that Esfand 30 becomes
/// Esfand 29 in a common year.
pub proof fn law_add_years(p: Ymd, k: int, q: Ymd)
    requires
        add_years_outcome(p, k) == Ok::<Ymd, DateError>(q),
    ensures
        is_valid_ymd(q),
        q.year == p.year + k,
        q.month == p.month,
        q.day == day_in_year(p, q.year),
{
}

/// Adding months fails only for want of room: for a valid date, the result
/// is a date exactly when the target month falls in years 1..=9999, and
/// otherwise the error is `ArithmeticOverflow`, whatever the size of `k`.
pub proof fn law_add_months_succeeds_in_range(p: Ymd, k: int)
    requires
        is_valid_ymd(p),
    ensures
        ({
            let ty = (p.year * 12 + (p.month - 1) + k) / 12;
            &&& (1 <= ty <= 9999) <==> add_months_outcome(p, k) is Ok
            &&& !(1 <= ty <= 9999) ==> add_months_outcome(p, k) == Err::<Ymd, DateError>(
                DateError::ArithmeticOverflow,
            )
            &&& add_months_outcome(p, k) matches Ok(q) ==> q.year == ty && q.year * 12 + q.month
                == p.year * 12 + p.month + k
        }),
{
    let t = p.year * 12 + (p.month - 1) + k;
    assert(t == (t / 12) * 12 + t % 12 && 0 <= t % 12 < 12) by (nonlinear_arith);
    if k == 0 {
        assert((p.year * 12 + (p.month - 1)) / 12 == p.year) by (nonlinear_arith)
            requires
                1 <= p.month <= 12,
        ;
    }
}

/// Adding years fails only for want of room: for a valid date, the result is
/// a date exactly when the target year lies in 1..=9999.
pub proof fn law_add_years_succeeds_in_range(p: Ymd, k: int)
    requires
        is_valid_ymd(p),
    ensures
        (1 <= p.year + k <= 9999) <==> add_years_outcome(p, k) is Ok,
        !(1 <= p.year + k <= 9999) ==> add_years_outcome(p, k) == Err::<Ymd, DateError>(
            DateError::ArithmeticOverflow,
        ),
{
}

/// The seasons and their names: months 1-3 are Bahar, "Spring"; 4-6
/// Tabestan, "Summer"; 7-9 Paeez, "Autumn"; 10-12 Zemestan, "Winter".
pub proof fn law_season_names(p: Ymd)
    requires
        is_valid_ymd(p),
    ensures
        1 <= p.month <= 3 ==> season_of_month(p.month) == Season::Bahar
            && season_name_english(season_of_month(p.month)) == "Spring"@
            && season_name_persian(season_of_month(p.month)) == "بهار"@,
        4 <= p.month <= 6 ==> season_of_month(p.month) == Season::Tabestan
            && season_name_english(season_of_month(p.month)) == "Summer"@
            && season_name_persian(season_of_month(p.month)) == "تابستان"@,
        7 <= p.month <= 9 ==> season_of_month(p.month) == Season::Paeez
            && season_name_english(season_of_month(p.month)) == "Autumn"@
            && season_name_persian(season_of_month(p.month)) == "پاییز"@,
        10 <= p.month <= 12 ==> season_of_month(p.month) == Season::Zemestan
            && season_name_english(season_of_month(p.month)) == "Winter"@
            && season_name_persian(season_of_month(p.month)) == "زمستان"@,
{
}

/// Zero-padding to width `w` gives exactly `max(w, digits)` characters: the
/// decimal digits of `n`, preceded by as many '0's as they fall short of `w`.
pub proof fn law_zero_padding(n: nat, w: nat)
    ensures
        ({
            let d = decimal(n);
            let r = padded_decimal(n, w);
            &&& r.len() == (if w > d.len() {
                w
            } else {
                d.len()
            })
            &&& r.subrange(r.len() - d.len(), r.len() as int) == d
            &&& forall|i: int| 0 <= i < r.len() - d.len() ==> r[i] == '0'
        }),
{
    let d = decimal(n);
    let r = padded_decimal(n, w);
    assert(r.subrange(r.len() - d.len(), r.len() as int) =~= d);
}

/// `%j` renders the day of the year as exactly three digits.
pub proof fn law_day_of_year_rendering(p: Ymd)
    requires
        is_valid_ymd(p),
    ensures
        ({
            let s = format_chars(p, None, "%j"@);
            &&& s.len() == 3
            &&& is_digit(s[0]) && is_digit(s[1]) && is_digit(s[2])
            &&& digit_value(s[0]) * 100 + digit_value(s[1]) * 10 + digit_value(s[2]) == ordinal_of(
                p.month,
                p.day,
            )
        }),
{
    reveal_strlit("%j");
    let o = ordinal_of(p.month, p.day);
    lemma_ordinal_bounds(p.year, p.month, p.day);
    lemma_render_specifier(p, None, 'j', Seq::<char>::empty());
    assert("%j"@ =~= seq!['%', 'j'] + Seq::<char>::empty());
    assert(format_chars(p, None, Seq::<char>::empty()) =~= Seq::<char>::empty());
    lemma_three_digits(o);
    lemma_digit_char(o / 100);
    lemma_digit_char(o / 10 % 10);
    lemma_digit_char(o % 10);
}

/// The three-digit zero-padded rendering of a number below 1000.
proof fn lemma_three_digits(n: int)
    requires
        0 <= n <= 999,
    ensures
        padded_decimal(n as nat, 3) == seq![digit_char(n / 100), digit_char(n / 10 % 10), digit_char(n % 10)],
        n == (n / 100) * 100 + (n / 10 % 10) * 10 + n % 10,
        0 <= n / 100 <= 9,
        0 <= n / 10 % 10 <= 9,
        0 <= n % 10 <= 9,
{
    assert((n / 10) / 10 == n / 100 && 0 <= n / 100 <= 9 && n == (n / 100) * 100 + (n / 10 % 10)
        * 10 + n % 10 && (n >= 100 ==> n / 10 >= 10) && (n >= 10 ==> n / 10 >= 1) && (n < 100
        ==> n / 100 == 0) && (n < 10 ==> n / 10 == 0) && (n < 100 ==> n / 10 < 10))
        by (nonlinear_arith)
        requires
            0 <= n <= 999,
    ;
    if n < 10 {
        assert(padded_decimal(n as nat, 3) =~= seq![digit_char(n / 100), digit_char(n / 10 % 10), digit_char(n % 10)]);
    } else if n < 100 {
        assert(decimal((n / 10) as nat) == seq![digit_char(n / 10 % 10)]);
        assert(padded_decimal(n as nat, 3) =~= seq![digit_char(n / 100), digit_char(n / 10 % 10), digit_char(n % 10)]);
    } else {
        assert(decimal((n / 100) as nat) == seq![digit_char(n / 100)]);
        assert(decimal((n / 10) as nat) =~= seq![digit_char(n / 100), digit_char(n / 10 % 10)]);
        assert(padded_decimal(n as nat, 3) =~= seq![digit_char(n / 100), digit_char(n / 10 % 10), digit_char(n % 10)]);
    }
}

/// `%B` renders the standard Persian name of the date's month: Farvardin,
/// Ordibehesht, Khordad, Tir, Mordad, Shahrivar, Mehr, Aban, Azar, Dey,
/// Bahman, Esfand.
pub proof fn law_month_names(p: Ymd)
    requires
        is_valid_ymd(p),
    ensures
        p.month == 1 ==> format_chars(p, None, "%B"@) == "فروردین"@,
        p.month == 2 ==> format_chars(p, None, "%B"@) == "اردیبهشت"@,
        p.month == 3 ==> format_chars(p, None, "%B"@) == "خرداد"@,
        p.month == 4 ==> format_chars(p, None, "%B"@) == "تیر"@,
        p.month == 5 ==> format_chars(p, None, "%B"@) == "مرداد"@,
        p.month == 6 ==> format_chars(p, None, "%B"@) == "شهریور"@,
        p.month == 7 ==> format_chars(p, None, "%B"@) == "مهر"@,
        p.month == 8 ==> format_chars(p, None, "%B"@) == "آبان"@,
        p.month == 9 ==> format_chars(p, None, "%B"@) == "آذر"@,
        p.month == 10 ==> format_chars(p, None, "%B"@) == "دی"@,
        p.month == 11 ==> format_chars(p, None, "%B"@) == "بهمن"@,
        p.month == 12 ==> format_chars(p, None, "%B"@) == "اسفند"@,
{
    reveal_strlit("%B");
    assert("%B"@ =~= seq!['%', 'B'] + Seq::<char>::empty());
    lemma_render_specifier(p, None, 'B', Seq::<char>::empty());
    assert(format_chars(p, None, Seq::<char>::empty()) =~= Seq::<char>::empty());
    assert(format_chars(p, None, "%B"@) =~= month_name(p.month - 1));
}

/// No two month names begin with the same two characters.
proof fn lemma_month_name_heads(i: int, j: int)
    requires
        0 <= i < 12,
        0 <= j < 12,
        i != j,
    ensures
        month_name(i).len() >= 2,
        month_name(i)[0] != month_name(j)[0] || month_name(i)[1] != month_name(j)[1],
{
    reveal_strlit("فروردین");
    reveal_strlit("اردیبهشت");
    reveal_strlit("خرداد");
    reveal_strlit("تیر");
    reveal_strlit("مرداد");
    reveal_strlit("شهریور");
    reveal_strlit("مهر");
    reveal_strlit("آبان");
    reveal_strlit("آذر");
    reveal_strlit("دی");
    reveal_strlit("بهمن");
    reveal_strlit("اسفند");
    assert(month_name(0)[0] == '\u{641}' && month_name(0)[1] == '\u{631}');
    assert(month_name(1)[0] == '\u{627}' && month_name(1)[1] == '\u{631}');
    assert(month_name(2)[0] == '\u{62e}' && month_name(2)[1] == '\u{631}');
    assert(month_name(3)[0] == '\u{62a}' && month_name(3)[1] == '\u{6cc}');
    assert(month_name(4)[0] == '\u{645}' && month_name(4)[1] == '\u{631}');
    assert(month_name(5)[0] == '\u{634}' && month_name(5)[1] == '\u{647}');
    assert(month_name(6)[0] == '\u{645}' && month_name(6)[1] == '\u{647}');
    assert(month_name(7)[0] == '\u{622}' && month_name(7)[1] == '\u{628}');
    assert(month_name(8)[0] == '\u{622}' && month_name(8)[1] == '\u{630}');
    assert(month_name(9)[0] == '\u{62f}' && month_name(9)[1] == '\u{6cc}');
    assert(month_name(10)[0] == '\u{628}' && month_name(10)[1] == '\u{647}');
    assert(month_name(11)[0] == '\u{627}' && month_name(11)[1] == '\u{633}');
}

/// Reading a month name: the first name, from index `k` on, that begins
/// `month_name(i) + s` is that of month `i`.
proof fn lemma_month_name_prefix(i: int, k: int, s: Seq<char>)
    requires
        0 <= k <= i < 12,
    ensures
        month_name_prefix_from(month_name(i) + s, k) == Some(i),
    decreases i - k,
{
    let x = month_name(i) + s;
    assert(x.take(month_name(i).len() as int) =~= month_name(i));
    if k < i {
        lemma_month_name_heads(i, k);
        lemma_month_name_heads(k, i);
        if is_prefix_of(month_name(k), x) {
            assert(x.take(month_name(k).len() as int)[0] == x[0]);
            assert(x.take(month_name(k).len() as int)[1] == x[1]);
        }
        lemma_month_name_prefix(i, k + 1, s);
    }
}

/// One step of scanning: `%B` reading the name of month index `i`.
proof fn lemma_scan_month_name(i: int, s: Seq<char>, f: Seq<char>, acc: Fields, with_time: bool)
    requires
        0 <= i < 12,
    ensures
        scan(month_name(i) + s, seq!['%', 'B'] + f, acc, with_time) == scan(
            s,
            f,
            Fields { month: Some((i + 1) as u32), ..acc },
            with_time,
        ),
{
    lemma_month_name_prefix(i, 0, s);
    assert((month_name(i) + s).skip(month_name(i).len() as int) =~= s);
    assert((seq!['%', 'B'] + f).skip(2) =~= f);
}

/// The long form `%d %B %Y` of a date of a year 1000..=9999 parses back, by
/// the same pattern, to the same date: a month name reads as its month.
pub proof fn law_month_name_parses_back(p: Ymd)
    requires
        is_valid_ymd(p),
        p.year >= 1000,
    ensures
        parse_date_outcome(format_chars(p, None, "%d %B %Y"@), "%d %B %Y"@) == Ok::<Ymd, DateError>(
            p,
        ),
{
    reveal_strlit("%d %B %Y");
    let e = Seq::<char>::empty();
    let f4 = seq!['%', 'Y'] + e;
    let f3 = seq![' '] + f4;
    let f2 = seq!['%', 'B'] + f3;
    let f1 = seq![' '] + f2;
    let f0 = seq!['%', 'd'] + f1;
    assert("%d %B %Y"@ =~= f0);
    let s4 = signed_decimal(p.year) + e;
    let s3 = seq![' '] + s4;
    let s2 = month_name(p.month - 1) + s3;
    let s1 = seq![' '] + s2;
    let s0 = two_digits(p.day) + s1;
    // Rendering.
    lemma_render_specifier(p, None, 'Y', e);
    lemma_render_literal(p, None, ' ', f4);
    lemma_render_specifier(p, None, 'B', f3);
    lemma_render_literal(p, None, ' ', f2);
    lemma_render_specifier(p, None, 'd', f1);
    assert(format_chars(p, None, e) =~= e);
    assert(format_chars(p, None, f0) =~= s0);
    // Parsing.
    let a1 = Fields { day: Some(p.day as u32), ..no_fields() };
    let a2 = Fields { month: Some(p.month as u32), ..a1 };
    let a3 = Fields { year: Some(p.year as i32), ..a2 };
    lemma_scan_two_digits('d', p.day, s1, f1, no_fields(), false);
    lemma_scan_literal(' ', s2, f2, a1, false);
    lemma_scan_month_name(p.month - 1, s3, f3, a1, false);
    lemma_scan_literal(' ', s4, f4, a2, false);
    lemma_scan_year(p.year, e, e, a2, false);
    assert(scan(e, e, a3, false) == Ok::<Fields, ParseErrorKind>(a3));
    assert(scan(s0, f0, no_fields(), false) == Ok::<Fields, ParseErrorKind>(a3));
}

/// `%A` renders the standard Persian name of the date's weekday, counted
/// from Saturday (0) to Friday (6): Saturday, Sunday, Monday, Tuesday, Wednesday, Thursday, Friday.
pub proof fn law_weekday_names(p: Ymd)
    requires
        is_valid_ymd(p),
    ensures
        0 <= weekday_number(p) < 7,
        weekday_number(p) == 0 ==> format_chars(p, None, "%A"@) == "شنبه"@,
        weekday_number(p) == 1 ==> format_chars(p, None, "%A"@) == "یکشنبه"@,
        weekday_number(p) == 2 ==> format_chars(p, None, "%A"@) == "دوشنبه"@,
        weekday_number(p) == 3 ==> format_chars(p, None, "%A"@) == "سه‌شنبه"@,
        weekday_number(p) == 4 ==> format_chars(p, None, "%A"@) == "چهارشنبه"@,
        weekday_number(p) == 5 ==> format_chars(p, None, "%A"@) == "پنجشنبه"@,
        weekday_number(p) == 6 ==> format_chars(p, None, "%A"@) == "جمعه"@,
{
    reveal_strlit("%A");
    assert("%A"@ =~= seq!['%', 'A'] + Seq::<char>::empty());
    lemma_render_specifier(p, None, 'A', Seq::<char>::empty());
    assert(format_chars(p, None, Seq::<char>::empty()) =~= Seq::<char>::empty());
    assert(format_chars(p, None, "%A"@) =~= weekday_name(weekday_number(p)));
}

/// Every date an operation returns is valid.
pub proof fn law_results_are_valid(p: Ymd, y: int, m: int, d: int, n: int, g: Ymd, q: Ymd)
    ensures
        new_outcome(y, m, d) == Ok::<Ymd, DateError>(q) ==> is_valid_ymd(q),
        from_ordinal_outcome(y, n) == Ok::<Ymd, DateError>(q) ==> is_valid_ymd(q),
        gregorian_to_persian(g) == Ok::<Ymd, DateError>(q) ==> is_valid_ymd(q),
        add_days_outcome(p, n) == Ok::<Ymd, DateError>(q) ==> is_valid_ymd(q),
        add_months_outcome(p, n) == Ok::<Ymd, DateError>(q) ==> is_valid_ymd(q),
        add_years_outcome(p, n) == Ok::<Ymd, DateError>(q) ==> is_valid_ymd(q),
{
    if from_ordinal_outcome(y, n) == Ok::<Ymd, DateError>(q) {
        law_from_ordinal_ordinal(y, n, q);
    }
    if gregorian_to_persian(g) == Ok::<Ymd, DateError>(q) {
        lemma_persian_of_day_number(gregorian_day_number_of(g) - EPOCH_GREGORIAN_DAY);
    }
    if add_days_outcome(p, n) == Ok::<Ymd, DateError>(q) {
        law_add_days_inverse(p, n, q);
    }
    if add_months_outcome(p, n) == Ok::<Ymd, DateError>(q) {
        law_add_months(p, n, q);
    }
}

/// A valid date lies between the first and the last day of its season, and
/// both are valid dates of the same season.
pub proof fn law_season_bounds(p: Ymd)
    requires
        is_valid_ymd(p),
    ensures
        ({
            let s = season_of_month(p.month);
            let first = ymd(p.year, season_start_month(s), 1);
            let last = ymd(
                p.year,
                season_start_month(s) + 2,
                month_len(p.year, season_start_month(s) + 2),
            );
            &&& is_valid_ymd(first)
            &&& is_valid_ymd(last)
            &&& season_of_month(first.month) == s
            &&& season_of_month(last.month) == s
            &&& day_number_of(first) <= day_number_of(p) <= day_number_of(last)
        }),
{
}

/// The leap-year rule repeats every 33 years, and each 33-year cycle holds
/// 8 leap years (12053 days).
pub proof fn law_leap_cycle(y: int)
    requires
        y >= 1,
    ensures
        is_leap(y + 33) == is_leap(y),
        days_before_year(y + 33) == days_before_year(y) + 12053,
{
    lemma_days_before_year_closed(y);
    lemma_days_before_year_closed(y + 33);
    assert((y + 33) % 33 == y % 33) by (nonlinear_arith);
    assert((y + 32) / 33 == (y - 1) / 33 + 1 && (y + 32) % 33 == (y - 1) % 33) by (nonlinear_arith)
        requires
            y >= 1,
    ;
}

/// `p` comes before `q` when compared by year, then month, then day (the
/// order of the fields, which `derive(PartialOrd, Ord)` follows).
pub open spec fn precedes(p: Ymd, q: Ymd) -> bool {
    ||| p.year < q.year
    ||| p.year == q.year && p.month < q.month
    ||| p.year == q.year && p.month == q.month && p.day < q.day
}

/// A valid date that precedes another by its fields has the smaller day number.
proof fn lemma_precedes_day_number(p: Ymd, q: Ymd)
    requires
        is_valid_ymd(p),
        is_valid_ymd(q),
        precedes(p, q),
    ensures
        day_number_of(p) < day_number_of(q),
{
    lemma_day_number_in_year(p.year, p.month, p.day);
    lemma_day_number_in_year(q.year, q.month, q.day);
    if p.year < q.year {
        lemma_days_before_year_step(p.year);
        if p.year + 1 < q.year {
            lemma_days_before_year_strict(p.year + 1, q.year);
        }
    } else if p.month < q.month {
        assert(days_before_month(p.month) + month_len(p.year, p.month) == days_before_month(
            p.month + 1,
        ));
        assert(days_before_month(p.month + 1) <= days_before_month(q.month));
    }
}

/// Comparing valid dates by their fields is comparing them in time: `p`
/// precedes `q` exactly when it has the smaller day number, and two valid
/// dates with the same day number are the same date.
pub proof fn law_order_is_chronological(p: Ymd, q: Ymd)
    requires
        is_valid_ymd(p),
        is_valid_ymd(q),
    ensures
        precedes(p, q) <==> day_number_of(p) < day_number_of(q),
        p == q <==> day_number_of(p) == day_number_of(q),
{
    if precedes(p, q) {
        lemma_precedes_day_number(p, q);
    } else if precedes(q, p) {
        lemma_precedes_day_number(q, p);
    }
    if day_number_of(p) == day_number_of(q) {
        lemma_day_number_injective(p.year, p.month, p.day, q.year, q.month, q.day);
    }
}

/// The months of a year add up to the year's length: the first six months
/// have 31 days, the next five 30, and Esfand 30 in a leap year and 29
/// otherwise; each month starts where the one before it ends.
pub proof fn law_months_fill_year(y: int)
    ensures
        days_before_month(12) + month_len(y, 12) == year_len(y),
        month_len(y, 1) + month_len(y, 2) + month_len(y, 3) + month_len(y, 4) + month_len(y, 5)
            + month_len(y, 6) + month_len(y, 7) + month_len(y, 8) + month_len(y, 9) + month_len(
            y,
            10,
        ) + month_len(y, 11) + month_len(y, 12) == year_len(y),
        forall|m: int| 1 <= m <= 6 ==> #[trigger] month_len(y, m) == 31,
        forall|m: int| 7 <= m <= 11 ==> #[trigger] month_len(y, m) == 30,
        month_len(y, 12) == (if is_leap(y) {
            30int
        } else {
            29int
        }),
        year_len(y) == (if is_leap(y) {
            366int
        } else {
            365int
        }),
        days_before_month(1) == 0,
        forall|m: int| 1 <= m <= 11 ==> #[trigger] days_before_month(m + 1) == days_before_month(m)
            + month_len(y, m),
{
}

/// Adding `n` seconds and then `-n` seconds gives the starting date-time back.
pub proof fn law_add_seconds_inverse(t: YmdHms, n: int, u: YmdHms)
    requires
        add_seconds_outcome(t, n) == Ok::<YmdHms, DateError>(u),
    ensures
        is_valid_datetime(u),
        add_seconds_outcome(u, -n) == Ok::<YmdHms, DateError>(t),
{
    let total = (EPOCH_GREGORIAN_DAY + day_number_of(t.date)) * 86400 + t.hour * 3600 + t.minute
        * 60 + t.second + n;
    let day = total / 86400;
    let rest = total % 86400;
    lemma_persian_of_day_number(day - EPOCH_GREGORIAN_DAY);
    assert(0 <= rest < 86400 && total == day * 86400 + rest) by (nonlinear_arith)
        requires
            day == total / 86400,
            rest == total % 86400,
    ;
    assert(rest == (rest / 3600) * 3600 + (rest % 3600 / 60) * 60 + rest % 60 && 0 <= rest / 3600
        < 24 && 0 <= rest % 3600 / 60 < 60 && 0 <= rest % 60 < 60) by (nonlinear_arith)
        requires
            0 <= rest < 86400,
    ;
    assert(valid_hms(u.hour, u.minute, u.second));
    let back = (EPOCH_GREGORIAN_DAY + day_number_of(u.date)) * 86400 + u.hour * 3600 + u.minute
        * 60 + u.second - n;
    assert(back == (EPOCH_GREGORIAN_DAY + day_number_of(t.date)) * 86400 + t.hour * 3600
        + t.minute * 60 + t.second);
    let r0 = t.hour * 3600 + t.minute * 60 + t.second;
    assert(0 <= r0 < 86400);
    let d0 = EPOCH_GREGORIAN_DAY + day_number_of(t.date);
    assert(back / 86400 == d0 && back % 86400 == r0) by (nonlinear_arith)
        requires
            back == d0 * 86400 + r0,
            0 <= r0 < 86400,
    ;
    assert(r0 / 3600 == t.hour && r0 % 3600 / 60 == t.minute && r0 % 60 == t.second)
        by (nonlinear_arith)
        requires
            r0 == t.hour * 3600 + t.minute * 60 + t.second,
            valid_hms(t.hour, t.minute, t.second),
    ;
    lemma_persian_of_valid(t.date);
    lemma_supported_day_number(u.date.year, u.date.month, u.date.day);
    lemma_supported_day_number(t.date.year, t.date.month, t.date.day);
}

/// The default rendering of a date of a year 1000..=9999 (`to_string`,
/// `format("short")`, `format("%Y/%m/%d")`) parses back, by the pattern
/// `%Y/%m/%d`, to the same date.
pub proof fn law_short_form_parses_back(p: Ymd)
    requires
        is_valid_ymd(p),
        p.year >= 1000,
    ensures
        format_chars(p, None, "%Y/%m/%d"@) == numeric_form(p, '/'),
        parse_date_outcome(numeric_form(p, '/'), "%Y/%m/%d"@) == Ok::<Ymd, DateError>(p),
{
    reveal_strlit("%Y/%m/%d");
    let e = Seq::<char>::empty();
    let f4 = seq!['%', 'd'] + e;
    let f3 = seq!['/'] + f4;
    let f2 = seq!['%', 'm'] + f3;
    let f1 = seq!['/'] + f2;
    let f0 = seq!['%', 'Y'] + f1;
    assert("%Y/%m/%d"@ =~= f0);
    let s4 = two_digits(p.day) + e;
    let s3 = seq!['/'] + s4;
    let s2 = two_digits(p.month) + s3;
    let s1 = seq!['/'] + s2;
    let s0 = signed_decimal(p.year) + s1;
    // The rendering, regrouped to the right.
    let l2 = signed_decimal(p.year) + seq!['/'];
    let l3 = l2 + two_digits(p.month);
    let l4 = l3 + seq!['/'];
    lemma_concat_associative(signed_decimal(p.year), seq!['/'], s2);
    lemma_concat_associative(l2, two_digits(p.month), s3);
    lemma_concat_associative(l3, seq!['/'], s4);
    lemma_concat_associative(l4, two_digits(p.day), e);
    assert(numeric_form(p, '/') + e =~= numeric_form(p, '/'));
    assert(s0 == numeric_form(p, '/'));
    // Rendering.
    lemma_render_specifier(p, None, 'd', e);
    lemma_render_literal(p, None, '/', f4);
    lemma_render_specifier(p, None, 'm', f3);
    lemma_render_literal(p, None, '/', f2);
    lemma_render_specifier(p, None, 'Y', f1);
    assert(format_chars(p, None, e) =~= e);
    // Parsing.
    let a1 = Fields { year: Some(p.year as i32), ..no_fields() };
    let a2 = Fields { month: Some(p.month as u32), ..a1 };
    let a3 = Fields { day: Some(p.day as u32), ..a2 };
    lemma_scan_year(p.year, s1, f1, no_fields(), false);
    lemma_scan_literal('/', s2, f2, a1, false);
    lemma_scan_two_digits('m', p.month, s3, f3, a1, false);
    lemma_scan_literal('/', s4, f4, a2, false);
    lemma_scan_two_digits('d', p.day, e, e, a2, false);
    assert(scan(e, e, a3, false) == Ok::<Fields, ParseErrorKind>(a3));
    assert(scan(s0, f0, no_fields(), false) == Ok::<Fields, ParseErrorKind>(a3));
}

/// Converting a valid date-time to the Gregorian calendar and back gives the
/// same date-time.
pub proof fn law_datetime_gregorian_round_trip(t: YmdHms, g: YmdHms)
    requires
        is_valid_datetime(t),
        gregorian_is_valid(g.date),
        gregorian_day_number_of(g.date) == EPOCH_GREGORIAN_DAY + day_number_of(t.date),
        g.hour == t.hour && g.minute == t.minute && g.second == t.second,
    ensures
        keep_time(g, gregorian_to_persian(g.date)) == Ok::<YmdHms, DateError>(t),
{
    law_gregorian_round_trip(t.date, g.date);
}

/// The distance in days between two dates does not depend on their order,
/// and a date is 0 days from itself.
pub proof fn law_days_between_symmetric(p: Ymd, q: Ymd)
    ensures
        abs_diff(day_number_of(p), day_number_of(q)) == abs_diff(day_number_of(q), day_number_of(p)),
        abs_diff(day_number_of(p), day_number_of(p)) == 0,
        abs_diff(day_number_of(p), day_number_of(q)) >= 0,
{
}

/// Weeks start on Saturday and week 1 holds 1 Farvardin: the first day of a
/// year is in week 1, and from one day to the next within a year the week
/// number grows by one exactly when the next day is a Saturday.
pub proof fn law_week_of_year(p: Ymd, q: Ymd)
    requires
        is_valid_ymd(p),
        add_days_outcome(p, 1) == Ok::<Ymd, DateError>(q),
        q.year == p.year,
    ensures
        week_number(ymd(p.year, 1, 1)) == 1,
        week_number(q) == week_number(p) + (if weekday_number(q) == 0 {
            1int
        } else {
            0int
        }),
{
    law_add_days_inverse(p, 1, q);
    let base = EPOCH_GREGORIAN_DAY + days_before_year(p.year);
    let w1 = ((base % 7) + 1) % 7;
    assert(w1 == weekday_of_day_number(days_before_year(p.year)));
    assert(0 <= w1 < 7);
    assert(w1 / 7 == 0);
    let o = ordinal_of(p.month, p.day);
    assert(ordinal_of(q.month, q.day) == o + 1);
    lemma_ordinal_bounds(p.year, p.month, p.day);
    assert(weekday_number(q) == ((base + o) % 7 + 1) % 7);
    assert((o + w1) / 7 + 1 == (o + w1 - 1) / 7 + 1 + (if ((base + o) % 7 + 1) % 7 == 0 {
        1int
    } else {
        0int
    })) by (nonlinear_arith)
        requires
            w1 == ((base % 7) + 1) % 7,
            o >= 1,
    ;
}

/// The default rendering of a date-time of a year 1000..=9999 (`to_string`,
/// `format("%Y/%m/%d %H:%M:%S")`) parses back, by that pattern, to the same
/// date-time.
pub proof fn law_datetime_string_parses_back(t: YmdHms)
    requires
        is_valid_datetime(t),
        t.date.year >= 1000,
    ensures
        format_chars(t.date, time_of(t), "%Y/%m/%d %H:%M:%S"@) == datetime_string(t),
        parse_datetime_outcome(datetime_string(t), "%Y/%m/%d %H:%M:%S"@) == Ok::<
            YmdHms,
            DateError,
        >(t),
{
    lemma_datetime_pattern_renders(t);
    lemma_datetime_string_scans(t);
}

/// One step of rendering: a specifier at the front of the pattern.
proof fn lemma_render_specifier(p: Ymd, tm: Option<(int, int, int)>, c: char, rest: Seq<char>)
    ensures
        format_chars(p, tm, seq!['%', c] + rest) == expand_specifier(p, tm, c) + format_chars(
            p,
            tm,
            rest,
        ),
{
    assert((seq!['%', c] + rest).skip(2) =~= rest);
}

/// One step of rendering: a literal character at the front of the pattern.
proof fn lemma_render_literal(p: Ymd, tm: Option<(int, int, int)>, c: char, rest: Seq<char>)
    requires
        c != '%',
    ensures
        format_chars(p, tm, seq![c] + rest) == seq![c] + format_chars(p, tm, rest),
{
    assert((seq![c] + rest).skip(1) =~= rest);
}

/// One step of scanning: a literal character matched by itself.
proof fn lemma_scan_literal(c: char, s: Seq<char>, f: Seq<char>, acc: Fields, with_time: bool)
    requires
        c != '%',
    ensures
        scan(seq![c] + s, seq![c] + f, acc, with_time) == scan(s, f, acc, with_time),
{
    assert((seq![c] + s).skip(1) =~= s);
    assert((seq![c] + f).skip(1) =~= f);
}

/// One step of scanning: `%Y` reading the four digits of a year 1000..=9999.
proof fn lemma_scan_year(y: int, s: Seq<char>, f: Seq<char>, acc: Fields, with_time: bool)
    requires
        1000 <= y <= 9999,
    ensures
        scan(signed_decimal(y) + s, seq!['%', 'Y'] + f, acc, with_time) == scan(
            s,
            f,
            Fields { year: Some(y as i32), ..acc },
            with_time,
        ),
{
    lemma_decimal_four(y);
    lemma_digit_char(y / 1000);
    lemma_digit_char(y / 100 % 10);
    lemma_digit_char(y / 10 % 10);
    lemma_digit_char(y % 10);
    let text = signed_decimal(y) + s;
    assert(digits_at(text, 4));
    assert(four_digit_value(text) == y);
    assert(text.skip(4) =~= s);
    assert((seq!['%', 'Y'] + f).skip(2) =~= f);
}

/// One step of scanning: a two-digit specifier (`%m`, `%d`, and with time
/// `%H`, `%M`, `%S`) reading `two_digits(n)`.
proof fn lemma_scan_two_digits(
    c: char,
    n: int,
    s: Seq<char>,
    f: Seq<char>,
    acc: Fields,
    with_time: bool,
)
    requires
        0 <= n <= 99,
        c == 'm' || c == 'd' || (with_time && (c == 'H' || c == 'M' || c == 'S')),
    ensures
        scan(two_digits(n) + s, seq!['%', c] + f, acc, with_time) == scan(
            s,
            f,
            if c == 'm' {
                Fields { month: Some(n as u32), ..acc }
            } else if c == 'd' {
                Fields { day: Some(n as u32), ..acc }
            } else {
                with_time_field(acc, c, n as u32)
            },
            with_time,
        ),
{
    lemma_two_digits(n);
    lemma_digit_char(n / 10);
    lemma_digit_char(n % 10);
    let text = two_digits(n) + s;
    assert(digits_at(text, 2));
    assert(two_digit_value(text, 0) == n);
    assert(text.skip(2) =~= s);
    assert((seq!['%', c] + f).skip(2) =~= f);
}

/// `%Y/%m/%d %H:%M:%S` as its specifiers and literals, grouped to the right.
spec fn datetime_pattern_right() -> Seq<char> {
    let f10 = seq!['%', 'S'] + Seq::<char>::empty();
    let f9 = seq![':'] + f10;
    let f8 = seq!['%', 'M'] + f9;
    let f7 = seq![':'] + f8;
    let f6 = seq!['%', 'H'] + f7;
    let f5 = seq![' '] + f6;
    let f4 = seq!['%', 'd'] + f5;
    let f3 = seq!['/'] + f4;
    let f2 = seq!['%', 'm'] + f3;
    let f1 = seq!['/'] + f2;
    seq!['%', 'Y'] + f1
}

proof fn lemma_datetime_pattern_parts()
    ensures
        "%Y/%m/%d %H:%M:%S"@ == datetime_pattern_right(),
{
    reveal_strlit("%Y/%m/%d %H:%M:%S");
    assert("%Y/%m/%d %H:%M:%S"@ =~= datetime_pattern_right());
}

/// `datetime_string` as its pieces, grouped to the right.
spec fn datetime_string_right(t: YmdHms) -> Seq<char> {
    let r11 = two_digits(t.second) + Seq::<char>::empty();
    let r10 = seq![':'] + r11;
    let r9 = two_digits(t.minute) + r10;
    let r8 = seq![':'] + r9;
    let r7 = two_digits(t.hour) + r8;
    let r6 = seq![' '] + r7;
    let r5 = two_digits(t.date.day) + r6;
    let r4 = seq!['/'] + r5;
    let r3 = two_digits(t.date.month) + r4;
    let r2 = seq!['/'] + r3;
    signed_decimal(t.date.year) + r2
}

/// `datetime_string` regrouped to the right, piece by piece, as rendering
/// and scanning take it apart.
proof fn lemma_datetime_string_parts(t: YmdHms)
    ensures
        datetime_string(t) == datetime_string_right(t),
{
    let e = Seq::<char>::empty();
    let p1 = signed_decimal(t.date.year);
    let p2 = seq!['/'];
    let p3 = two_digits(t.date.month);
    let p4 = seq!['/'];
    let p5 = two_digits(t.date.day);
    let p6 = seq![' '];
    let p7 = two_digits(t.hour);
    let p8 = seq![':'];
    let p9 = two_digits(t.minute);
    let p10 = seq![':'];
    let p11 = two_digits(t.second);
    let r11 = p11 + e;
    let r10 = p10 + r11;
    let r9 = p9 + r10;
    let r8 = p8 + r9;
    let r7 = p7 + r8;
    let r6 = p6 + r7;
    let r5 = p5 + r6;
    let r4 = p4 + r5;
    let r3 = p3 + r4;
    let r2 = p2 + r3;
    let l2 = p1 + p2;
    let l3 = l2 + p3;
    let l4 = l3 + p4;
    let l5 = l4 + p5;
    let l6 = l5 + p6;
    let l7 = l6 + p7;
    let l8 = l7 + p8;
    let l9 = l8 + p9;
    let l10 = l9 + p10;
    let l11 = l10 + p11;
    lemma_concat_associative(p1, p2, r3);
    lemma_concat_associative(l2, p3, r4);
    lemma_concat_associative(l3, p4, r5);
    lemma_concat_associative(l4, p5, r6);
    lemma_concat_associative(l5, p6, r7);
    lemma_concat_associative(l6, p7, r8);
    lemma_concat_associative(l7, p8, r9);
    lemma_concat_associative(l8, p9, r10);
    lemma_concat_associative(l9, p10, r11);
    lemma_concat_associative(l10, p11, e);
    assert(l11 + e =~= l11);
}

/// `%Y/%m/%d %H:%M:%S` renders a date-time as `datetime_string`.
proof fn lemma_datetime_pattern_renders(t: YmdHms)
    ensures
        format_chars(t.date, time_of(t), "%Y/%m/%d %H:%M:%S"@) == datetime_string(t),
{
    let p = t.date;
    let tm = time_of(t);
    let e = Seq::<char>::empty();
    let f10 = seq!['%', 'S'] + e;
    let f9 = seq![':'] + f10;
    let f8 = seq!['%', 'M'] + f9;
    let f7 = seq![':'] + f8;
    let f6 = seq!['%', 'H'] + f7;
    let f5 = seq![' '] + f6;
    let f4 = seq!['%', 'd'] + f5;
    let f3 = seq!['/'] + f4;
    let f2 = seq!['%', 'm'] + f3;
    let f1 = seq!['/'] + f2;
    lemma_datetime_pattern_parts();
    lemma_render_specifier(p, tm, 'S', e);
    lemma_render_literal(p, tm, ':', f10);
    lemma_render_specifier(p, tm, 'M', f9);
    lemma_render_literal(p, tm, ':', f8);
    lemma_render_specifier(p, tm, 'H', f7);
    lemma_render_literal(p, tm, ' ', f6);
    lemma_render_specifier(p, tm, 'd', f5);
    lemma_render_literal(p, tm, '/', f4);
    lemma_render_specifier(p, tm, 'm', f3);
    lemma_render_literal(p, tm, '/', f2);
    lemma_render_specifier(p, tm, 'Y', f1);
    assert(expand_specifier(p, tm, 'S') == two_digits(t.second));
    assert(expand_specifier(p, tm, 'M') == two_digits(t.minute));
    assert(expand_specifier(p, tm, 'H') == two_digits(t.hour));
    assert(expand_specifier(p, tm, 'd') == two_digits(p.day));
    assert(expand_specifier(p, tm, 'm') == two_digits(p.month));
    assert(expand_specifier(p, tm, 'Y') == signed_decimal(p.year));
    assert(format_chars(p, tm, e) =~= e);
    lemma_datetime_string_parts(t);
}

/// `datetime_string` scans, by `%Y/%m/%d %H:%M:%S`, to the date-time's fields.
proof fn lemma_datetime_string_scans(t: YmdHms)
    requires
        is_valid_datetime(t),
        t.date.year >= 1000,
    ensures
        parse_datetime_outcome(datetime_string(t), "%Y/%m/%d %H:%M:%S"@) == Ok::<
            YmdHms,
            DateError,
        >(t),
{
    let p = t.date;
    let e = Seq::<char>::empty();
    let f10 = seq!['%', 'S'] + e;
    let f9 = seq![':'] + f10;
    let f8 = seq!['%', 'M'] + f9;
    let f7 = seq![':'] + f8;
    let f6 = seq!['%', 'H'] + f7;
    let f5 = seq![' '] + f6;
    let f4 = seq!['%', 'd'] + f5;
    let f3 = seq!['/'] + f4;
    let f2 = seq!['%', 'm'] + f3;
    let f1 = seq!['/'] + f2;
    let f0 = seq!['%', 'Y'] + f1;
    lemma_datetime_pattern_parts();
    let s10 = two_digits(t.second) + e;
    let s9 = seq![':'] + s10;
    let s8 = two_digits(t.minute) + s9;
    let s7 = seq![':'] + s8;
    let s6 = two_digits(t.hour) + s7;
    let s5 = seq![' '] + s6;
    let s4 = two_digits(p.day) + s5;
    let s3 = seq!['/'] + s4;
    let s2 = two_digits(p.month) + s3;
    let s1 = seq!['/'] + s2;
    let s0 = signed_decimal(p.year) + s1;
    lemma_datetime_string_parts(t);
    let a1 = Fields { year: Some(p.year as i32), ..no_fields() };
    let a2 = Fields { month: Some(p.month as u32), ..a1 };
    let a3 = Fields { day: Some(p.day as u32), ..a2 };
    let a4 = Fields { hour: Some(t.hour as u32), ..a3 };
    let a5 = Fields { minute: Some(t.minute as u32), ..a4 };
    let a6 = Fields { second: Some(t.second as u32), ..a5 };
    lemma_scan_year(p.year, s1, f1, no_fields(), true);
    lemma_scan_literal('/', s2, f2, a1, true);
    lemma_scan_two_digits('m', p.month, s3, f3, a1, true);
    lemma_scan_literal('/', s4, f4, a2, true);
    lemma_scan_two_digits('d', p.day, s5, f5, a2, true);
    lemma_scan_literal(' ', s6, f6, a3, true);
    lemma_scan_two_digits('H', t.hour, s7, f7, a3, true);
    lemma_scan_literal(':', s8, f8, a4, true);
    lemma_scan_two_digits('M', t.minute, s9, f9, a4, true);
    lemma_scan_literal(':', s10, f10, a5, true);
    lemma_scan_two_digits('S', t.second, e, e, a5, true);
    assert(scan(e, e, a6, true) == Ok::<Fields, ParseErrorKind>(a6));
    assert(scan(s0, f0, no_fields(), true) == Ok::<Fields, ParseErrorKind>(a6));
}

} // verus!
