//! Numbers as text: decimal rendering, decimal parsing, and the grammar of
//! floating-point literals.

use vstd::prelude::*;

use crate::text::chars_of;
use crate::text::same_chars;
use vstd::slice::slice_subrange;

verus! {

// ---------------------------------------------------------------------------
// Rendering
// ---------------------------------------------------------------------------

/// The character of a decimal digit.
pub open spec fn digit_char(d: nat) -> char {
    (48 + d) as char
}

/// The decimal digits of `n`, without leading zeros.
pub open spec fn dec(n: nat) -> Seq<char>
    decreases n,
{
    if n < 10 {
        seq![digit_char(n)]
    } else {
        dec(n / 10).push(digit_char(n % 10))
    }
}

/// The decimal text of an integer, with a minus sign where it is negative.
pub open spec fn dec_int(n: int) -> Seq<char> {
    if n < 0 {
        seq!['-'] + dec((-n) as nat)
    } else {
        dec(n as nat)
    }
}

/// Different numbers have different digits.
pub proof fn lemma_dec_is_injective(a: nat, b: nat)
    requires
        dec(a) == dec(b),
    ensures
        a == b,
    decreases a,
{
    lemma_dec_len(a);
    lemma_dec_len(b);
    assert(dec(a).last() == digit_char(a % 10));
    assert(dec(b).last() == digit_char(b % 10));
    assert(a % 10 == b % 10);
    if a >= 10 && b >= 10 {
        assert(dec(a).drop_last() =~= dec(a / 10));
        assert(dec(b).drop_last() =~= dec(b / 10));
        lemma_dec_is_injective(a / 10, b / 10);
    } else if a >= 10 {
        lemma_dec_len(a / 10);
    } else if b >= 10 {
        lemma_dec_len(b / 10);
    }
}

proof fn lemma_dec_len(n: nat)
    ensures
        dec(n).len() > 0,
    decreases n,
{
    if n >= 10 {
        lemma_dec_len(n / 10);
    }
}

fn push_dec(out: &mut String, n: u64)
    ensures
        final(out)@ == old(out)@ + dec(n as nat),
    decreases n,
{
    if n >= 10 {
        push_dec(out, n / 10);
    }
    let d: u8 = (n % 10) as u8;
    assert((48 + d) as char == digit_char((n % 10) as nat));
    out.push((48 + d) as char);
    assert(out@ =~= old(out)@ + dec(n as nat));
}

/// The decimal text of `n`.
pub fn dec_u64(n: u64) -> (r: String)
    ensures
        r@ == dec(n as nat),
{
    let mut out = String::new();
    push_dec(&mut out, n);
    assert(out@ =~= dec(n as nat));
    out
}

/// The decimal text of `n`, with its sign where it is negative.
pub fn dec_i64(n: i64) -> (r: String)
    ensures
        r@ == dec_int(n as int),
{
    let mut out = String::new();
    if n < 0 {
        out.push('-');
        let magnitude: u64 = if n == i64::MIN {
            9_223_372_036_854_775_808
        } else {
            (-n) as u64
        };
        push_dec(&mut out, magnitude);
        assert(out@ =~= seq!['-'] + dec((-(n as int)) as nat));
    } else {
        push_dec(&mut out, n as u64);
        assert(out@ =~= dec(n as nat));
    }
    out
}

// ---------------------------------------------------------------------------
// Parsing
// ---------------------------------------------------------------------------

/// A decimal digit.
pub open spec fn is_digit(c: char) -> bool {
    '0' <= c <= '9'
}

/// Whether `c` is a decimal digit.
pub fn digit(c: char) -> (r: bool)
    ensures
        r == is_digit(c),
{
    '0' <= c && c <= '9'
}

/// The value of a decimal digit.
pub open spec fn digit_value(c: char) -> nat {
    (c as int - 48) as nat
}

/// One or more decimal digits, and nothing else.
pub open spec fn all_digits(s: Seq<char>) -> bool {
    s.len() > 0 && forall|i: int| 0 <= i < s.len() ==> is_digit(#[trigger] s[i])
}

/// The number that a row of decimal digits stands for.
pub open spec fn digits_value(s: Seq<char>) -> nat
    decreases s.len(),
{
    if s.len() == 0 {
        0
    } else {
        digits_value(s.drop_last()) * 10 + digit_value(s.last())
    }
}

/// The number that a text stands for: digits, with at most one plus sign
/// before them; no more than `max`.
pub open spec fn parse_nat(s: Seq<char>, max: nat) -> Option<nat> {
    let d = if s.len() > 0 && s[0] == '+' {
        s.skip(1)
    } else {
        s
    };
    if all_digits(d) && digits_value(d) <= max {
        Some(digits_value(d))
    } else {
        None
    }
}

/// The integer that a text stands for: digits, with at most one sign before
/// them; within the range of `i64`.
pub open spec fn parse_int(s: Seq<char>) -> Option<int> {
    if s.len() > 0 && s[0] == '-' {
        let d = s.skip(1);
        if all_digits(d) && digits_value(d) <= 9_223_372_036_854_775_808 {
            Some(-(digits_value(d) as int))
        } else {
            None
        }
    } else {
        match parse_nat(s, 9_223_372_036_854_775_807) {
            Some(n) => Some(n as int),
            None => None,
        }
    }
}

/// The digits of a number are read as that number.
proof fn lemma_dec_is_read(n: nat)
    ensures
        all_digits(dec(n)),
        digits_value(dec(n)) == n,
        dec(n)[0] != '-' && dec(n)[0] != '+',
    decreases n,
{
    if n < 10 {
        let s = dec(n);
        assert(s.drop_last() =~= Seq::empty());
        assert(digits_value(s.drop_last()) == 0);
        assert(s.last() == digit_char(n));
        assert(digit_value(digit_char(n)) == n);
    } else {
        lemma_dec_is_read(n / 10);
        let s = dec(n);
        let init = dec(n / 10);
        assert(s.drop_last() =~= init);
        assert(s.last() == digit_char(n % 10));
        assert(digit_value(digit_char(n % 10)) == n % 10);
        assert forall|i: int| 0 <= i < s.len() implies is_digit(#[trigger] s[i]) by {
            if i < init.len() {
                assert(s[i] == init[i]);
            }
        }
        assert(s[0] == init[0]);
    }
}

/// An integer is read as it is written.
pub proof fn law_integers_are_read_as_written(n: int)
    requires
        i64::MIN <= n <= i64::MAX,
    ensures
        parse_int(dec_int(n)) == Some(n),
{
    if n < 0 {
        lemma_dec_is_read((-n) as nat);
        assert(dec_int(n).skip(1) =~= dec((-n) as nat));
    } else {
        lemma_dec_is_read(n as nat);
    }
}

proof fn lemma_digits_value_prefix(s: Seq<char>, i: int)
    requires
        0 <= i <= s.len(),
    ensures
        digits_value(s.take(i)) <= digits_value(s),
    decreases s.len(),
{
    if i < s.len() {
        lemma_digits_value_prefix(s.drop_last(), i);
        assert(s.drop_last().take(i) =~= s.take(i));
    } else {
        assert(s.take(i) =~= s);
    }
}

/// Reads digits, up to `max`.
fn read_digits(s: &[char], max: u64) -> (r: Option<u64>)
    ensures
        match r {
            Some(n) => all_digits(s@) && n == digits_value(s@) && n <= max,
            None => !all_digits(s@) || digits_value(s@) > max,
        },
{
    if s.len() == 0 {
        return None;
    }
    let mut value: u64 = 0;
    let mut i: usize = 0;
    while i < s.len()
        invariant
            i <= s@.len(),
            value == digits_value(s@.take(i as int)),
            value <= max,
            forall|k: int| 0 <= k < i ==> is_digit(#[trigger] s@[k]),
        decreases s@.len() - i,
    {
        if !digit(s[i]) {
            return None;
        }
        let d: u64 = (s[i] as u64) - 48;
        assert(s@.take(i + 1).drop_last() =~= s@.take(i as int));
        assert(digits_value(s@.take(i + 1)) == value * 10 + d);
        proof {
            lemma_digits_value_prefix(s@, i + 1);
        }
        if d > max || value > (max - d) / 10 {
            return None;
        }
        value = value * 10 + d;
        i = i + 1;
    }
    assert(s@.take(i as int) =~= s@);
    Some(value)
}

/// Reads an unsigned integer no greater than `max`.
pub fn read_nat(s: &[char], max: u64) -> (r: Option<u64>)
    ensures
        match r {
            Some(n) => parse_nat(s@, max as nat) == Some(n as nat),
            None => parse_nat(s@, max as nat) is None,
        },
{
    if s.len() > 0 && s[0] == '+' {
        read_digits(slice_subrange(s, 1, s.len()), max)
    } else {
        read_digits(s, max)
    }
}

/// Reads a signed integer.
pub fn read_int(s: &[char]) -> (r: Option<i64>)
    ensures
        match r {
            Some(n) => parse_int(s@) == Some(n as int),
            None => parse_int(s@) is None,
        },
{
    if s.len() > 0 && s[0] == '-' {
        let rest = slice_subrange(s, 1, s.len());
        assert(rest@ =~= s@.skip(1));
        match read_digits(rest, 9_223_372_036_854_775_808) {
            Some(n) => {
                if n == 9_223_372_036_854_775_808 {
                    Some(i64::MIN)
                } else {
                    Some(-(n as i64))
                }
            },
            None => None,
        }
    } else {
        match read_nat(s, 9_223_372_036_854_775_807) {
            Some(n) => Some(n as i64),
            None => None,
        }
    }
}

// ---------------------------------------------------------------------------
// Division
// ---------------------------------------------------------------------------

/// The quotient of `a` and `b`, rounded toward zero.
pub open spec fn trunc_div(a: int, b: int) -> int {
    if a < 0 {
        -((-a) / b)
    } else {
        a / b
    }
}

/// Divides, rounding toward zero.
pub fn div_toward_zero(a: i64, b: u32) -> (r: i64)
    requires
        b > 1,
    ensures
        r == trunc_div(a as int, b as int),
{
    if a >= 0 {
        (a as u64 / b as u64) as i64
    } else {
        let magnitude: u64 = (-(a + 1)) as u64 + 1;
        let q: u64 = magnitude / b as u64;
        assert(q <= magnitude / 2) by (nonlinear_arith)
            requires
                q == magnitude / (b as u64),
                b > 1,
        ;
        -(q as i64)
    }
}

// ---------------------------------------------------------------------------
// Floating-point literals
// ---------------------------------------------------------------------------

/// The lower-case form of an ASCII letter; any other character as it is.
pub open spec fn lower(c: char) -> char {
    if 'A' <= c <= 'Z' {
        (c as u32 + 32) as char
    } else {
        c
    }
}

/// `s` with its ASCII letters in lower case.
pub open spec fn lower_all(s: Seq<char>) -> Seq<char> {
    s.map_values(|c: char| lower(c))
}

/// Writes the ASCII letters of `s` in lower case.
pub fn ascii_lower(s: &[char]) -> (r: Vec<char>)
    ensures
        r@ == lower_all(s@),
{
    let mut out: Vec<char> = Vec::new();
    let mut i: usize = 0;
    while i < s.len()
        invariant
            i <= s@.len(),
            out@ == lower_all(s@.take(i as int)),
        decreases s@.len() - i,
    {
        let c = s[i];
        let l = if 'A' <= c && c <= 'Z' {
            ((c as u8) + 32) as char
        } else {
            c
        };
        out.push(l);
        assert(out@ =~= lower_all(s@.take(i + 1)));
        i = i + 1;
    }
    assert(s@.take(i as int) =~= s@);
    out
}

/// The number of digits in a row from position `from` on.
pub open spec fn digit_run(s: Seq<char>, from: int) -> int
    decreases s.len() - from,
{
    if from < 0 || from >= s.len() || !is_digit(s[from]) {
        0
    } else {
        1 + digit_run(s, from + 1)
    }
}

/// Where the exponent's digits begin, for an exponent letter at `at`.
pub open spec fn exponent_digits_at(s: Seq<char>, at: int) -> int {
    if at + 1 < s.len() && (s[at + 1] == '+' || s[at + 1] == '-') {
        at + 2
    } else {
        at + 1
    }
}

/// Digits with an optional point among or beside them, then an optional
/// exponent; at least one digit stands before the exponent.
pub open spec fn is_number(s: Seq<char>) -> bool {
    let whole = digit_run(s, 0);
    let point = whole < s.len() && s[whole] == '.';
    let fraction = if point {
        digit_run(s, whole + 1)
    } else {
        0
    };
    let end = if point {
        whole + 1 + fraction
    } else {
        whole
    };
    &&& whole + fraction > 0
    &&& {
        ||| end == s.len()
        ||| {
            let e = exponent_digits_at(s, end);
            &&& end < s.len()
            &&& lower(s[end]) == 'e'
            &&& digit_run(s, e) > 0
            &&& e + digit_run(s, e) == s.len()
        }
    }
}

/// A floating-point literal: a number, an infinity or a not-a-number, in any
/// case, with at most one sign before it.
pub open spec fn is_float(s: Seq<char>) -> bool {
    let b = if s.len() > 0 && (s[0] == '+' || s[0] == '-') {
        s.skip(1)
    } else {
        s
    };
    ||| is_number(b)
    ||| lower_all(b) == "inf"@
    ||| lower_all(b) == "infinity"@
    ||| lower_all(b) == "nan"@
}

proof fn lemma_digit_run(s: Seq<char>, from: int)
    requires
        0 <= from,
    ensures
        0 <= digit_run(s, from),
        from <= s.len() ==> from + digit_run(s, from) <= s.len(),
    decreases s.len() - from,
{
    if from < s.len() && is_digit(s[from]) {
        lemma_digit_run(s, from + 1);
    }
}

fn digits_from(s: &[char], from: usize) -> (r: usize)
    requires
        from <= s@.len(),
    ensures
        r == digit_run(s@, from as int),
        from + r <= s@.len(),
{
    let mut i: usize = from;
    while i < s.len() && digit(s[i])
        invariant
            from <= i <= s@.len(),
            digit_run(s@, from as int) == i - from + digit_run(s@, i as int),
        decreases s@.len() - i,
    {
        i = i + 1;
    }
    i - from
}

fn number(s: &[char]) -> (r: bool)
    ensures
        r == is_number(s@),
{
    let whole: usize = digits_from(s, 0);
    let point = whole < s.len() && s[whole] == '.';
    let fraction: usize = if point {
        digits_from(s, whole + 1)
    } else {
        0
    };
    let end: usize = if point {
        whole + 1 + fraction
    } else {
        whole
    };
    if whole == 0 && fraction == 0 {
        return false;
    }
    if end == s.len() {
        return true;
    }
    if s[end] != 'e' && s[end] != 'E' {
        return false;
    }
    let e: usize = if end + 1 < s.len() && (s[end + 1] == '+' || s[end + 1] == '-') {
        end + 2
    } else {
        end + 1
    };
    let n: usize = digits_from(s, e);
    n > 0 && e + n == s.len()
}

/// Whether `s` is a floating-point literal.
pub fn float_literal(s: &[char]) -> (r: bool)
    ensures
        r == is_float(s@),
{
    let b = if s.len() > 0 && (s[0] == '+' || s[0] == '-') {
        slice_subrange(s, 1, s.len())
    } else {
        s
    };
    let l = ascii_lower(b);
    let inf = chars_of("inf");
    let infinity = chars_of("infinity");
    let nan = chars_of("nan");
    number(b) || same_chars(l.as_slice(), inf.as_slice()) || same_chars(
        l.as_slice(),
        infinity.as_slice(),
    ) || same_chars(l.as_slice(), nan.as_slice())
}

// ---------------------------------------------------------------------------
// Laws
// ---------------------------------------------------------------------------

/// An unsigned number is read as it is written, with or without a plus sign, as
/// long as it is no greater than the limit; above the limit it is not read.
pub proof fn law_naturals_are_read_as_written(n: nat, max: nat)
    ensures
        n <= max ==> parse_nat(dec(n), max) == Some(n),
        n <= max ==> parse_nat(seq!['+'] + dec(n), max) == Some(n),
        n > max ==> parse_nat(dec(n), max) is None,
{
    lemma_dec_is_read(n);
    assert((seq!['+'] + dec(n)).skip(1) =~= dec(n));
}

/// What is read as a number is made of digits, behind at most one sign; a digit
/// more makes it ten times as large, and that digit larger.
pub proof fn law_only_digits_are_read(s: Seq<char>, max: nat)
    ensures
        parse_nat(s, max) is Some ==> {
            &&& s.len() > 0
            &&& s[0] == '+' ==> s.len() > 1
            &&& forall|i: int|
                0 <= i < s.len() ==> '0' <= #[trigger] s[i] <= '9' || (i == 0 && s[i] == '+')
        },
        parse_int(s) is Some ==> {
            &&& s.len() > 0
            &&& s[0] == '+' || s[0] == '-' ==> s.len() > 1
            &&& forall|i: int|
                0 <= i < s.len() ==> '0' <= #[trigger] s[i] <= '9' || (i == 0 && (s[i] == '+'
                    || s[i] == '-'))
            &&& if s[0] == '-' {
                parse_int(s)->0 <= 0
            } else {
                parse_int(s)->0 >= 0
            }
        },
        parse_int(s) matches Some(n) ==> i64::MIN <= n <= i64::MAX,
        parse_nat(s, max) matches Some(n) ==> n <= max,
        forall|c: char|
            '0' <= c <= '9' ==> #[trigger] digits_value(s.push(c)) == digits_value(s) * 10 + (
            c as int - 48),
        digits_value(Seq::empty()) == 0,
{
    if s.len() > 0 {
        assert forall|i: int| 0 < i < s.len() implies s.skip(1)[i - 1] == #[trigger] s[i] by {}
    }
    assert forall|c: char| '0' <= c <= '9' implies #[trigger] digits_value(s.push(c))
        == digits_value(s) * 10 + (c as int - 48) by {
        assert(s.push(c).drop_last() =~= s);
    }
}

/// Division rounds toward zero: the remainder is smaller than the divisor and
/// has the sign of what is divided.
pub proof fn law_division_rounds_toward_zero(a: int, b: int)
    requires
        b > 0,
    ensures
        ({
            let left = a - trunc_div(a, b) * b;
            &&& -b < left < b
            &&& a >= 0 ==> left >= 0
            &&& a <= 0 ==> left <= 0
        }),
{
    if a < 0 {
        vstd::arithmetic::div_mod::lemma_fundamental_div_mod(-a, b);
        vstd::arithmetic::div_mod::lemma_mod_bound(-a, b);
        assert(trunc_div(a, b) * b == -(((-a) / b) * b)) by (nonlinear_arith)
            requires
                trunc_div(a, b) == -((-a) / b),
        ;
        vstd::arithmetic::mul::lemma_mul_is_commutative(b, (-a) / b);
    } else {
        vstd::arithmetic::div_mod::lemma_fundamental_div_mod(a, b);
        vstd::arithmetic::div_mod::lemma_mod_bound(a, b);
        vstd::arithmetic::mul::lemma_mul_is_commutative(b, a / b);
    }
}

proof fn lemma_digit_run_is(s: Seq<char>, from: int, n: int)
    requires
        0 <= from,
        0 <= n,
        from + n <= s.len(),
        forall|i: int| from <= i < from + n ==> is_digit(#[trigger] s[i]),
        from + n < s.len() ==> !is_digit(s[from + n]),
    ensures
        digit_run(s, from) == n,
    decreases n,
{
    if n > 0 {
        lemma_digit_run_is(s, from + 1, n - 1);
    }
}

/// Digits are a floating-point literal, and so are digits with a point and
/// digits behind them, and either with an exponent and with a sign.
pub proof fn law_decimal_numbers_are_floats(whole: Seq<char>, fraction: Seq<char>, exp: Seq<char>)
    requires
        all_digits(whole),
        all_digits(fraction),
        all_digits(exp),
    ensures
        is_float(whole),
        is_float(whole + seq!['.'] + fraction),
        is_float(whole + seq!['.']),
        is_float(seq!['.'] + fraction),
        is_float(whole + seq!['e'] + exp),
        is_float(whole + seq!['.'] + fraction + seq!['e', '-'] + exp),
        is_float(seq!['-'] + whole),
        is_float(seq!['+'] + whole),
        is_float(seq!['-'] + whole + seq!['.'] + fraction),
{
    let w = whole.len() as int;
    let f = fraction.len() as int;
    lemma_is_number(whole);
    assert(!(whole[0] == '+' || whole[0] == '-'));
    let a = whole + seq!['.'] + fraction;
    assert(a[w] == '.');
    assert forall|i: int| 0 <= i < w implies is_digit(#[trigger] a[i]) by {
        assert(a[i] == whole[i]);
    }
    assert forall|i: int| w + 1 <= i < w + 1 + f implies is_digit(#[trigger] a[i]) by {
        assert(a[i] == fraction[i - w - 1]);
    }
    lemma_digit_run_is(a, 0, w);
    lemma_digit_run_is(a, w + 1, f);
    assert(is_number(a));
    assert(a[0] == whole[0]);
    let b = whole + seq!['.'];
    assert(b[w] == '.');
    assert forall|i: int| 0 <= i < w implies is_digit(#[trigger] b[i]) by {
        assert(b[i] == whole[i]);
    }
    lemma_digit_run_is(b, 0, w);
    lemma_digit_run_is(b, w + 1, 0);
    assert(is_number(b));
    assert(b[0] == whole[0]);
    let c = seq!['.'] + fraction;
    assert(c[0] == '.');
    assert forall|i: int| 1 <= i < 1 + f implies is_digit(#[trigger] c[i]) by {
        assert(c[i] == fraction[i - 1]);
    }
    lemma_digit_run_is(c, 0, 0);
    lemma_digit_run_is(c, 1, f);
    assert(is_number(c));
    let d = whole + seq!['e'] + exp;
    assert(d[w] == 'e');
    assert forall|i: int| 0 <= i < w implies is_digit(#[trigger] d[i]) by {
        assert(d[i] == whole[i]);
    }
    assert forall|i: int| w + 1 <= i < d.len() implies is_digit(#[trigger] d[i]) by {
        assert(d[i] == exp[i - w - 1]);
    }
    lemma_digit_run_is(d, 0, w);
    lemma_digit_run_is(d, w + 1, exp.len() as int);
    assert(d[w + 1] == exp[0]);
    assert(is_number(d));
    assert(d[0] == whole[0]);
    let e = whole + seq!['.'] + fraction + seq!['e', '-'] + exp;
    assert(e[w] == '.');
    assert(e[w + 1 + f] == 'e');
    assert(e[w + 2 + f] == '-');
    assert forall|i: int| 0 <= i < w implies is_digit(#[trigger] e[i]) by {
        assert(e[i] == whole[i]);
    }
    assert forall|i: int| w + 1 <= i < w + 1 + f implies is_digit(#[trigger] e[i]) by {
        assert(e[i] == fraction[i - w - 1]);
    }
    assert forall|i: int| w + 3 + f <= i < e.len() implies is_digit(#[trigger] e[i]) by {
        assert(e[i] == exp[i - w - 3 - f]);
    }
    lemma_digit_run_is(e, 0, w);
    lemma_digit_run_is(e, w + 1, f);
    lemma_digit_run_is(e, w + 3 + f, exp.len() as int);
    assert(is_number(e));
    assert(e[0] == whole[0]);
    assert((seq!['-'] + whole).skip(1) =~= whole);
    assert((seq!['+'] + whole).skip(1) =~= whole);
    assert((seq!['-'] + whole + seq!['.'] + fraction).skip(1) =~= a);
    assert((seq!['-'] + whole + seq!['.'] + fraction)[0] == '-');
}

proof fn lemma_is_number(digits: Seq<char>)
    requires
        all_digits(digits),
    ensures
        is_number(digits),
{
    lemma_digit_run_is(digits, 0, digits.len() as int);
}

/// Infinities and not-a-numbers are floating-point literals.
pub proof fn law_infinities_are_floats()
    ensures
        is_float("inf"@),
        is_float("NaN"@),
        is_float("-Infinity"@),
{
    reveal_strlit("inf");
    reveal_strlit("infinity");
    reveal_strlit("nan");
    reveal_strlit("NaN");
    reveal_strlit("-Infinity");
    assert(lower_all("inf"@) =~= "inf"@);
    assert(lower_all("NaN"@) =~= "nan"@);
    assert(lower_all("-Infinity"@.skip(1)) =~= "infinity"@);
}

/// What is no number is no floating-point literal: without a digit there is
/// nothing but infinities and not-a-numbers, a number begins with a digit, a
/// point or a sign, and the empty text is none.
pub proof fn law_other_texts_are_no_floats(s: Seq<char>)
    requires
        is_float(s),
    ensures
        s.len() > 0,
        '0' <= s[0] <= '9' || s[0] == '.' || s[0] == '+' || s[0] == '-' || lower(s[0]) == 'i'
            || lower(s[0]) == 'n',
        !is_float(seq!['+'] + s) || s[0] != '-',
{
    reveal_strlit("inf");
    reveal_strlit("infinity");
    reveal_strlit("nan");
    let b = if s.len() > 0 && (s[0] == '+' || s[0] == '-') {
        s.skip(1)
    } else {
        s
    };
    if b.len() > 0 {
        assert(lower_all(b)[0] == lower(b[0]));
    } else {
        assert(lower_all(b).len() == 0);
    }
    let t = seq!['+'] + s;
    assert(t.skip(1) =~= s);
    if s[0] == '-' && is_float(t) {
        assert(lower_all(s)[0] == lower(s[0]));
    }
}

/// Numbers are written without leading zeros, negative ones behind a minus sign.
pub proof fn law_numbers_are_written_plainly(n: nat)
    ensures
        n > 0 ==> dec(n)[0] != '0',
        n > 0 ==> dec_int(-(n as int)) == seq!['-'] + dec(n),
        dec_int(n as int) == dec(n),
        dec(0) == seq!['0'],
    decreases n,
{
    if n >= 10 {
        law_numbers_are_written_plainly(n / 10);
        lemma_dec_len(n / 10);
        assert(dec(n)[0] == dec(n / 10)[0]);
    }
}

/// Only ASCII capitals have another form in lower case, each its own letter.
pub proof fn law_capitals_are_lowered(s: Seq<char>, c: char)
    ensures
        !('A' <= c <= 'Z') ==> lower(c) == c,
        'A' <= c <= 'Z' ==> lower(c) as int == c as int + 32,
        lower_all(s).len() == s.len(),
        forall|i: int| 0 <= i < s.len() ==> #[trigger] lower_all(s)[i] == lower(s[i]),
{
}

/// A number in the form of a floating-point literal is digits, perhaps with a
/// point and digits behind it, and perhaps an exponent; nothing else is one.
pub proof fn law_floats_are_decimal_numbers(s: Seq<char>)
    requires
        is_number(s),
    ensures
        exists|w: int, f: int| #[trigger] has_parts(s, w, f),
{
    let w = digit_run(s, 0);
    lemma_run_of_digits(s, 0);
    let point = w < s.len() && s[w] == '.';
    if point {
        lemma_run_of_digits(s, w + 1);
    }
    let f = if point {
        1 + digit_run(s, w + 1)
    } else {
        0
    };
    let end = w + f;
    if end < s.len() {
        let e = exponent_digits_at(s, end);
        lemma_run_of_digits(s, e);
    }
    assert(has_parts(s, w, f));
}

/// The first `w` characters are digits, the next `f` a point and digits, and the
/// others an exponent: its letter, perhaps a sign, and digits. Without digits
/// before the exponent there is no number.
pub open spec fn has_parts(s: Seq<char>, w: int, f: int) -> bool {
    let end = w + f;
    &&& 0 <= w <= end <= s.len()
    &&& f >= 0
    &&& forall|i: int| 0 <= i < w ==> '0' <= #[trigger] s[i] <= '9'
    &&& f > 0 ==> s[w] == '.'
    &&& forall|i: int| w < i < end ==> '0' <= #[trigger] s[i] <= '9'
    &&& w > 0 || f > 1
    &&& end < s.len() ==> {
        let signed = end + 1 < s.len() && (s[end + 1] == '+' || s[end + 1] == '-');
        let first = if signed {
            end + 2
        } else {
            end + 1
        };
        &&& s[end] == 'e' || s[end] == 'E'
        &&& first < s.len()
        &&& forall|i: int| first <= i < s.len() ==> '0' <= #[trigger] s[i] <= '9'
    }
}

proof fn lemma_run_of_digits(s: Seq<char>, from: int)
    requires
        0 <= from,
    ensures
        digit_run(s, from) >= 0,
        from <= s.len() ==> from + digit_run(s, from) <= s.len(),
        forall|i: int|
            from <= i < from + digit_run(s, from) ==> '0' <= #[trigger] s[i] <= '9',
    decreases s.len() - from,
{
    if from < s.len() && is_digit(s[from]) {
        lemma_run_of_digits(s, from + 1);
    }
}

/// A floating-point literal is a number, an infinity or a not-a-number, behind at
/// most one sign.
pub proof fn law_a_float_is_a_number_or_has_a_name(s: Seq<char>)
    ensures
        is_float(s) ==> {
            let b = if s.len() > 0 && (s[0] == '+' || s[0] == '-') {
                s.skip(1)
            } else {
                s
            };
            is_number(b) || lower_all(b) == "inf"@ || lower_all(b) == "infinity"@ || lower_all(b)
                == "nan"@
        },
{
}

} // verus!
