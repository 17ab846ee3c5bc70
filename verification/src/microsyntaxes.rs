//! The HTML "common microsyntaxes": the integer parsers that HTML content
//! attributes use.
use vstd::prelude::*;
use crate::text::{
    chars_of, digit_pred, digit_value, is_ascii_digit, is_ascii_digit_char,
    is_ascii_whitespace_char, lemma_run_end_exact, run_end, whitespace_pred,
};

verus! {

/// The exact value of a sequence of ASCII digits read as a base-ten number.
pub open spec fn decimal_value(d: Seq<char>) -> nat
    decreases d.len(),
{
    if d.len() == 0 {
        0
    } else {
        decimal_value(d.drop_last()) * 10 + digit_value(d.last())
    }
}

pub open spec fn min_int(a: int, b: int) -> int {
    if a <= b { a } else { b }
}

/// Position after the leading ASCII whitespace of `s`.
pub open spec fn after_whitespace(s: Seq<char>) -> int {
    run_end(s, 0, whitespace_pred())
}

/// The digits that start at position `i`.
pub open spec fn digits_at(s: Seq<char>, i: int) -> Seq<char> {
    s.subrange(i, run_end(s, i, digit_pred()))
}

/// <https://html.spec.whatwg.org/#rules-for-parsing-integers>, with the
/// collected value saturating at the bounds of `i64`.
pub open spec fn parse_integer(s: Seq<char>) -> Option<int> {
    let p = after_whitespace(s);
    if p >= s.len() {
        None
    } else {
        let negative = s[p] == '-';
        let q = if s[p] == '-' || s[p] == '+' { p + 1 } else { p };
        if q >= s.len() || !is_ascii_digit(s[q]) {
            None
        } else {
            let v = min_int(decimal_value(digits_at(s, q)) as int, i64::MAX as int);
            Some(if negative { -v } else { v })
        }
    }
}

/// Digits whose value is beyond `i64::MAX` parse as `i64::MAX`, and with a
/// leading `-` as its negation: the value saturates, it does not overflow.
pub proof fn law_integer_parsing_saturates(d: Seq<char>)
    requires
        d.len() > 0,
        forall|i: int| 0 <= i < d.len() ==> is_ascii_digit(#[trigger] d[i]),
        decimal_value(d) > i64::MAX,
    ensures
        parse_integer(d) == Some(i64::MAX as int),
        parse_integer(seq!['-'] + d) == Some(-(i64::MAX as int)),
{
    lemma_run_end_exact(d, 0, 0, whitespace_pred());
    lemma_run_end_exact(d, 0, d.len() as int, digit_pred());
    assert(d.subrange(0, d.len() as int) =~= d);
    let n = seq!['-'] + d;
    assert(n[0] == '-');
    lemma_run_end_exact(n, 0, 0, whitespace_pred());
    assert forall|j: int| 1 <= j < n.len() implies digit_pred()(#[trigger] n[j]) by {
        assert(n[j] == d[j - 1]);
    }
    lemma_run_end_exact(n, 1, n.len() as int, digit_pred());
    assert(n.subrange(1, n.len() as int) =~= d);
    assert(n[1] == d[0]);
}

/// Parsing digits with a sign: a run of ASCII digits gives its value (at
/// most `i64::MAX`), with `+` the same, with `-` its negation; as a
/// non-negative integer, a negative value is refused and zero is kept.
pub proof fn law_signed_digits(d: Seq<char>)
    requires
        d.len() > 0,
        forall|i: int| 0 <= i < d.len() ==> is_ascii_digit(#[trigger] d[i]),
    ensures
        parse_integer(d) == Some(min_int(decimal_value(d) as int, i64::MAX as int)),
        parse_integer(seq!['+'] + d) == Some(min_int(decimal_value(d) as int, i64::MAX as int)),
        parse_integer(seq!['-'] + d) == Some(-min_int(decimal_value(d) as int, i64::MAX as int)),
        parse_non_negative(d) == Some(min_int(decimal_value(d) as int, i64::MAX as int)),
        decimal_value(d) > 0 ==> parse_non_negative(seq!['-'] + d) is None,
        decimal_value(d) == 0 ==> parse_non_negative(seq!['-'] + d) == Some(0int),
{
    lemma_run_end_exact(d, 0, 0, whitespace_pred());
    lemma_run_end_exact(d, 0, d.len() as int, digit_pred());
    assert(d.subrange(0, d.len() as int) =~= d);
    lemma_sign_then_digits(d, '-');
    lemma_sign_then_digits(d, '+');
}

proof fn lemma_sign_then_digits(d: Seq<char>, sign: char)
    requires
        d.len() > 0,
        forall|i: int| 0 <= i < d.len() ==> is_ascii_digit(#[trigger] d[i]),
        sign == '-' || sign == '+',
    ensures
        after_whitespace(seq![sign] + d) == 0,
        digits_at(seq![sign] + d, 1) == d,
        (seq![sign] + d)[0] == sign,
        (seq![sign] + d)[1] == d[0],
{
    let n = seq![sign] + d;
    assert(n[0] == sign);
    lemma_run_end_exact(n, 0, 0, whitespace_pred());
    assert forall|j: int| 1 <= j < n.len() implies digit_pred()(#[trigger] n[j]) by {
        assert(n[j] == d[j - 1]);
    }
    lemma_run_end_exact(n, 1, n.len() as int, digit_pred());
    assert(n.subrange(1, n.len() as int) =~= d);
}

/// The canvas dimension of digits with a sign: digits give their value,
/// saturated at `u64::MAX` and taken modulo 2^32, as does `+` and digits;
/// `-` and digits give zero where their value is zero and nothing
/// otherwise.
pub proof fn law_dimension_digits(d: Seq<char>)
    requires
        d.len() > 0,
        forall|i: int| 0 <= i < d.len() ==> is_ascii_digit(#[trigger] d[i]),
    ensures
        parse_dimension(d) == Some(min_int(decimal_value(d) as int, u64::MAX as int) % 0x1_0000_0000),
        parse_dimension(seq!['+'] + d) == Some(min_int(decimal_value(d) as int, u64::MAX as int) % 0x1_0000_0000),
        decimal_value(d) > 0 ==> parse_dimension(seq!['-'] + d) is None,
        decimal_value(d) == 0 ==> parse_dimension(seq!['-'] + d) == Some(0int),
        decimal_value(d) < 0x1_0000_0000 ==> parse_dimension(d) == Some(decimal_value(d) as int),
{
    lemma_run_end_exact(d, 0, 0, whitespace_pred());
    lemma_run_end_exact(d, 0, d.len() as int, digit_pred());
    assert(d.subrange(0, d.len() as int) =~= d);
    lemma_sign_then_digits(d, '-');
    lemma_sign_then_digits(d, '+');
}

/// <https://html.spec.whatwg.org/#rules-for-parsing-non-negative-integers>
pub open spec fn parse_non_negative(s: Seq<char>) -> Option<int> {
    match parse_integer(s) {
        Some(v) => if v < 0 { None } else { Some(v) },
        None => None,
    }
}

/// The canvas `width`/`height` reflection: a leading `+` or `-` is accepted,
/// a negative value is an error unless it is zero, the digits saturate at the
/// bounds of `u64`, and the result is reduced modulo 2^32.
pub open spec fn parse_dimension(s: Seq<char>) -> Option<int> {
    let p = after_whitespace(s);
    let negative = p < s.len() && s[p] == '-';
    let q = if p < s.len() && (s[p] == '-' || s[p] == '+') { p + 1 } else { p };
    if q >= s.len() || !is_ascii_digit(s[q]) {
        None
    } else {
        let v = min_int(decimal_value(digits_at(s, q)) as int, u64::MAX as int);
        if negative && v != 0 {
            None
        } else {
            Some(v % 0x1_0000_0000)
        }
    }
}

/// Skips ASCII whitespace from `start`.
fn skip_whitespace(s: &Vec<char>, start: usize) -> (end: usize)
    requires
        start <= s@.len(),
    ensures
        end as int == run_end(s@, start as int, whitespace_pred()),
{
    let mut i = start;
    while i < s.len()
        invariant
            start <= i <= s@.len(),
            run_end(s@, start as int, whitespace_pred()) == run_end(s@, i as int, whitespace_pred()),
        decreases s@.len() - i,
    {
        if !is_ascii_whitespace_char(s[i]) {
            return i;
        }
        i = i + 1;
    }
    i
}

proof fn lemma_decimal_step(s: Seq<char>, a: int, i: int)
    requires
        0 <= a <= i < s.len(),
    ensures
        decimal_value(s.subrange(a, i + 1)) == decimal_value(s.subrange(a, i)) * 10 + digit_value(
            s[i],
        ),
{
    assert(s.subrange(a, i + 1).drop_last() =~= s.subrange(a, i));
}

/// Collects the digits starting at `start`, saturating at `cap`.
fn collect_digits(s: &Vec<char>, start: usize, cap: u64) -> (res: (u64, usize))
    requires
        start <= s@.len(),
        cap >= 9,
    ensures
        res.1 as int == run_end(s@, start as int, digit_pred()),
        res.0 as int == min_int(
            decimal_value(s@.subrange(start as int, res.1 as int)) as int,
            cap as int,
        ),
{
    let mut i = start;
    let mut value: u64 = 0;
    assert(s@.subrange(start as int, start as int) =~= Seq::<char>::empty());
    while i < s.len()
        invariant
            start <= i <= s@.len(),
            run_end(s@, start as int, digit_pred()) == run_end(s@, i as int, digit_pred()),
            cap >= 9,
            value as int == min_int(decimal_value(s@.subrange(start as int, i as int)) as int, cap as int),
        decreases s@.len() - i,
    {
        if !is_ascii_digit_char(s[i]) {
            return (value, i);
        }
        let d: u64 = ((s[i] as u32) - ('0' as u32)) as u64;
        proof {
            lemma_decimal_step(s@, start as int, i as int);
        }
        if value > (cap - d) / 10 {
            value = cap;
        } else {
            value = value * 10 + d;
        }
        i = i + 1;
    }
    (value, i)
}

/// <https://html.spec.whatwg.org/#rules-for-parsing-integers>
pub fn rules_for_parsing_integers(input: &str) -> (res: Option<i64>)
    ensures
        match parse_integer(input@) {
            Some(v) => res == Some(v as i64),
            None => res is None,
        },
{
    let s = chars_of(input);
    // Skip ASCII whitespace; an input that ends there is an error.
    let p = skip_whitespace(&s, 0);
    if p >= s.len() {
        return None;
    }
    let negative = s[p] == '-';
    let q = if s[p] == '-' || s[p] == '+' { p + 1 } else { p };
    if q >= s.len() || !is_ascii_digit_char(s[q]) {
        return None;
    }
    let (value, _end) = collect_digits(&s, q, i64::MAX as u64);
    let v = value as i64;
    if negative {
        Some(-v)
    } else {
        Some(v)
    }
}

/// <https://html.spec.whatwg.org/#rules-for-parsing-non-negative-integers>
pub fn rules_for_parsing_non_negative_integers(input: &str) -> (res: Option<u64>)
    ensures
        match parse_non_negative(input@) {
            Some(v) => res == Some(v as u64),
            None => res is None,
        },
{
    let value = rules_for_parsing_integers(input);
    match value {
        None => None,
        Some(v) => {
            if v < 0 {
                None
            } else {
                Some(v as u64)
            }
        },
    }
}

/// The canvas dimension parser behind the `width` and `height` IDL
/// attributes of `canvas`.
pub fn parse_non_negative_integer(value: &str) -> (res: Option<u32>)
    ensures
        match parse_dimension(value@) {
            Some(v) => res == Some(v as u32),
            None => res is None,
        },
{
    let s = chars_of(value);
    let p = skip_whitespace(&s, 0);
    let negative = p < s.len() && s[p] == '-';
    let q = if p < s.len() && (s[p] == '-' || s[p] == '+') { p + 1 } else { p };
    if q >= s.len() || !is_ascii_digit_char(s[q]) {
        return None;
    }
    let (parsed, _end) = collect_digits(&s, q, u64::MAX);
    if negative && parsed != 0 {
        return None;
    }
    Some((parsed % 0x1_0000_0000) as u32)
}

} // verus!
