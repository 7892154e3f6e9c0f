//! Text helpers: decimal rendering of numbers, the Persian names of months
//! and weekdays, and character-level string building.
use vstd::prelude::*;

verus! {

pub open spec fn digit_char(d: int) -> char {
    if d == 0 {
        '0'
    } else if d == 1 {
        '1'
    } else if d == 2 {
        '2'
    } else if d == 3 {
        '3'
    } else if d == 4 {
        '4'
    } else if d == 5 {
        '5'
    } else if d == 6 {
        '6'
    } else if d == 7 {
        '7'
    } else if d == 8 {
        '8'
    } else {
        '9'
    }
}

/// The decimal digits of `n`, most significant first, without leading zeros.
pub open spec fn decimal(n: nat) -> Seq<char>
    decreases n,
{
    if n < 10 {
        seq![digit_char(n as int)]
    } else {
        decimal(n / 10).push(digit_char((n % 10) as int))
    }
}

/// `s` left-padded with '0' to at least `width` characters.
pub open spec fn zero_pad(s: Seq<char>, width: nat) -> Seq<char> {
    if s.len() >= width {
        s
    } else {
        Seq::new((width - s.len()) as nat, |i: int| '0') + s
    }
}

/// What `format!("{:0w$}", n)` renders for an unsigned `n`.
pub open spec fn padded_decimal(n: nat, width: nat) -> Seq<char> {
    zero_pad(decimal(n), width)
}

/// What `n.to_string()` renders for a signed `n`.
pub open spec fn signed_decimal(n: int) -> Seq<char> {
    if n < 0 {
        seq!['-'] + decimal((-n) as nat)
    } else {
        decimal(n as nat)
    }
}

/// True when `c` is an ASCII digit.
pub open spec fn is_digit(c: char) -> bool {
    '0' <= c <= '9'
}

pub open spec fn digit_value(c: char) -> int {
    (c as int) - ('0' as int)
}

/// The Persian name of month index `i` (0 = Farvardin .. 11 = Esfand).
pub open spec fn month_name(i: int) -> Seq<char> {
    if i == 0 {
        "فروردین"@
    } else if i == 1 {
        "اردیبهشت"@
    } else if i == 2 {
        "خرداد"@
    } else if i == 3 {
        "تیر"@
    } else if i == 4 {
        "مرداد"@
    } else if i == 5 {
        "شهریور"@
    } else if i == 6 {
        "مهر"@
    } else if i == 7 {
        "آبان"@
    } else if i == 8 {
        "آذر"@
    } else if i == 9 {
        "دی"@
    } else if i == 10 {
        "بهمن"@
    } else {
        "اسفند"@
    }
}

/// The Persian name of weekday `w` (0 = Saturday .. 6 = Friday).
pub open spec fn weekday_name(w: int) -> Seq<char> {
    if w == 0 {
        "شنبه"@
    } else if w == 1 {
        "یکشنبه"@
    } else if w == 2 {
        "دوشنبه"@
    } else if w == 3 {
        "سه‌شنبه"@
    } else if w == 4 {
        "چهارشنبه"@
    } else if w == 5 {
        "پنجشنبه"@
    } else {
        "جمعه"@
    }
}

pub(crate) fn month_name_str(i: u32) -> (r: &'static str)
    requires
        i < 12,
    ensures
        r@ == month_name(i as int),
{
    match i {
        0 => "فروردین",
        1 => "اردیبهشت",
        2 => "خرداد",
        3 => "تیر",
        4 => "مرداد",
        5 => "شهریور",
        6 => "مهر",
        7 => "آبان",
        8 => "آذر",
        9 => "دی",
        10 => "بهمن",
        _ => "اسفند",
    }
}

pub(crate) fn weekday_name_str(w: u32) -> (r: &'static str)
    requires
        w < 7,
    ensures
        r@ == weekday_name(w as int),
{
    match w {
        0 => "شنبه",
        1 => "یکشنبه",
        2 => "دوشنبه",
        3 => "سه‌شنبه",
        4 => "چهارشنبه",
        5 => "پنجشنبه",
        _ => "جمعه",
    }
}

/// `String::push`: appends one character.
#[verifier::external_body]
pub(crate) fn push_char(s: &mut String, c: char)
    ensures
        final(s)@ == old(s)@.push(c),
{
    s.push(c);
}

pub(crate) fn push_str(s: &mut String, t: &str)
    ensures
        final(s)@ == old(s)@ + t@,
{
    s.append(t);
}

/// The characters of `s`.
pub(crate) fn chars_of(s: &str) -> (v: Vec<char>)
    ensures
        v@ == s@,
{
    let mut v: Vec<char> = Vec::new();
    for c in it: s.chars()
        invariant
            v@ == it.seq().take(it.index() as int),
    {
        v.push(c);
    }
    v
}

/// Whether two character sequences are equal.
pub(crate) fn chars_eq(a: &Vec<char>, b: &Vec<char>) -> (r: bool)
    ensures
        r == (a@ == b@),
{
    if a.len() != b.len() {
        return false;
    }
    let mut i: usize = 0;
    while i < a.len()
        invariant
            a.len() == b.len(),
            0 <= i <= a.len(),
            forall|j: int| 0 <= j < i ==> a@[j] == b@[j],
        decreases a.len() - i,
    {
        if a[i] != b[i] {
            return false;
        }
        i = i + 1;
    }
    assert(a@ =~= b@);
    true
}

fn digit(d: u64) -> (c: char)
    requires
        d < 10,
    ensures
        c == digit_char(d as int),
{
    match d {
        0 => '0',
        1 => '1',
        2 => '2',
        3 => '3',
        4 => '4',
        5 => '5',
        6 => '6',
        7 => '7',
        8 => '8',
        _ => '9',
    }
}

/// Appends the decimal digits of `n`.
fn push_decimal(s: &mut String, n: u64)
    ensures
        final(s)@ == old(s)@ + decimal(n as nat),
    decreases n,
{
    if n < 10 {
        push_char(s, digit(n));
        assert(s@ =~= old(s)@ + decimal(n as nat));
    } else {
        push_decimal(s, n / 10);
        push_char(s, digit(n % 10));
        assert(s@ =~= old(s)@ + decimal(n as nat));
    }
}

pub proof fn lemma_decimal_len(n: nat)
    ensures
        1 <= decimal(n).len(),
        n < 10 ==> decimal(n).len() == 1,
        10 <= n < 100 ==> decimal(n).len() == 2,
        100 <= n < 1000 ==> decimal(n).len() == 3,
    decreases n,
{
    if n >= 10 {
        lemma_decimal_len(n / 10);
    }
}

/// Appends `n` in decimal, left-padded with zeros to `width` characters.
pub(crate) fn push_padded(s: &mut String, n: u64, width: u64)
    requires
        width <= 3,
    ensures
        final(s)@ == old(s)@ + padded_decimal(n as nat, width as nat),
{
    let ghost digits = decimal(n as nat);
    proof {
        lemma_decimal_len(n as nat);
    }
    let len: u64 = if n < 10 {
        1
    } else if n < 100 {
        2
    } else if n < 1000 {
        3
    } else {
        4
    };
    assert(len == digits.len() || (len == 4 && digits.len() >= width)) by {
        if n >= 1000 {
            lemma_decimal_len_at_least(n as nat);
        }
    }
    let mut k: u64 = len;
    while k < width
        invariant
            len <= k <= width || (width <= len && k == len),
            s@ == old(s)@ + Seq::new((k - len) as nat, |i: int| '0'),
        decreases width - k,
    {
        push_char(s, '0');
        k = k + 1;
        assert(s@ =~= old(s)@ + Seq::new((k - len) as nat, |i: int| '0'));
    }
    push_decimal(s, n);
    assert(s@ =~= old(s)@ + padded_decimal(n as nat, width as nat));
}

proof fn lemma_decimal_len_at_least(n: nat)
    requires
        n >= 1000,
    ensures
        decimal(n).len() >= 4,
    decreases n,
{
    if n / 10 >= 1000 {
        lemma_decimal_len_at_least(n / 10);
    } else {
        lemma_decimal_len(n / 10);
    }
}

/// Appends `n` as `n.to_string()` renders it.
pub(crate) fn push_signed(s: &mut String, n: i64)
    requires
        n > i64::MIN,
    ensures
        final(s)@ == old(s)@ + signed_decimal(n as int),
{
    if n < 0 {
        push_char(s, '-');
        push_decimal(s, (-n) as u64);
        assert(s@ =~= old(s)@ + signed_decimal(n as int));
    } else {
        push_decimal(s, n as u64);
    }
}

/// Appends `n` in decimal.
pub(crate) fn push_unsigned(s: &mut String, n: u64)
    ensures
        final(s)@ == old(s)@ + decimal(n as nat),
{
    push_decimal(s, n);
}

pub proof fn lemma_digit_char(k: int)
    requires
        0 <= k <= 9,
    ensures
        is_digit(digit_char(k)),
        digit_value(digit_char(k)) == k,
{
}

/// The four digits of a number 1000..=9999.
pub proof fn lemma_decimal_four(n: int)
    requires
        1000 <= n <= 9999,
    ensures
        decimal(n as nat) == seq![
            digit_char(n / 1000),
            digit_char(n / 100 % 10),
            digit_char(n / 10 % 10),
            digit_char(n % 10),
        ],
        n == (n / 1000) * 1000 + (n / 100 % 10) * 100 + (n / 10 % 10) * 10 + n % 10,
        0 <= n / 1000 <= 9,
        0 <= n / 100 % 10 <= 9,
        0 <= n / 10 % 10 <= 9,
        0 <= n % 10 <= 9,
{
    assert((n / 10) / 10 == n / 100 && (n / 100) / 10 == n / 1000 && 1 <= n / 1000 <= 9 && 100
        <= n / 10 <= 999 && 10 <= n / 100 <= 99 && n == (n / 1000) * 1000 + (n / 100 % 10) * 100
        + (n / 10 % 10) * 10 + n % 10) by (nonlinear_arith)
        requires
            1000 <= n <= 9999,
    ;
    assert(decimal((n / 1000) as nat) == seq![digit_char(n / 1000)]);
    assert(decimal((n / 100) as nat) =~= seq![digit_char(n / 1000), digit_char(n / 100 % 10)]);
    assert(decimal((n / 10) as nat) =~= seq![
        digit_char(n / 1000),
        digit_char(n / 100 % 10),
        digit_char(n / 10 % 10),
    ]);
    assert(decimal(n as nat) =~= seq![
        digit_char(n / 1000),
        digit_char(n / 100 % 10),
        digit_char(n / 10 % 10),
        digit_char(n % 10),
    ]);
}

/// The two-digit zero-padded rendering of a number below 100.
pub proof fn lemma_two_digits(n: int)
    requires
        0 <= n <= 99,
    ensures
        padded_decimal(n as nat, 2) == seq![digit_char(n / 10), digit_char(n % 10)],
        n == (n / 10) * 10 + n % 10,
        0 <= n / 10 <= 9,
        0 <= n % 10 <= 9,
{
    if n < 10 {
        assert(padded_decimal(n as nat, 2) =~= seq![digit_char(n / 10), digit_char(n % 10)]);
    } else {
        assert(decimal((n / 10) as nat) == seq![digit_char(n / 10)]);
        assert(padded_decimal(n as nat, 2) =~= seq![digit_char(n / 10), digit_char(n % 10)]);
    }
}

} // verus!
