//! Unit suffixes of the report's numbers: durations and counts.
use vstd::prelude::*;
use crate::decimal::{
    Decimal, Numeral, is_digit, lemma_shift_down_value, lemma_shift_up_value, numeral_or_zero,
    numerator, parse_decimal, pow10, shift_down, shift_up,
};
use crate::text::{chars_of, trim, trim_range};

verus! {

pub open spec fn is_num_char(c: char) -> bool {
    is_digit(c) || c == '.'
}

/// The digits and points of `s`, in order.
pub open spec fn numeric_chars(s: Seq<char>) -> Seq<char>
    decreases s.len(),
{
    if s.len() == 0 {
        s
    } else if is_num_char(s.last()) {
        numeric_chars(s.drop_last()).push(s.last())
    } else {
        numeric_chars(s.drop_last())
    }
}

/// The other characters of `s`, in order.
pub open spec fn unit_chars(s: Seq<char>) -> Seq<char>
    decreases s.len(),
{
    if s.len() == 0 {
        s
    } else if is_num_char(s.last()) {
        unit_chars(s.drop_last())
    } else {
        unit_chars(s.drop_last()).push(s.last())
    }
}

/// Whether `c` lower-cases to the lower-case ASCII letter `p`.
pub open spec fn lowers_to(c: char, p: char) -> bool {
    c == p || ('A' <= c && c <= 'Z' && c as u32 + 32 == p as u32) || (c == '\u{212A}' && p
        == 'k')
}

/// Whether `u` lower-cases to the lower-case ASCII word `p`.
pub open spec fn unit_is(u: Seq<char>, p: Seq<char>) -> bool {
    u.len() == p.len() && forall|i: int| 0 <= i < u.len() ==> lowers_to(#[trigger] u[i], p[i])
}

/// The number of a token, zero where it has no numeral.
pub open spec fn token_number(tok: Seq<char>) -> Numeral {
    numeral_or_zero(numeric_chars(trim(tok)))
}

/// The unit suffix of a token.
pub open spec fn token_unit(tok: Seq<char>) -> Seq<char> {
    trim(unit_chars(trim(tok)))
}

/// A duration token in milliseconds: `s` scales by 1000, `us` by 1/1000, and
/// any other suffix (`ms`, `%`, none) leaves the number as it is.
pub open spec fn duration_ms(tok: Seq<char>) -> Numeral {
    let m = token_number(tok);
    let u = token_unit(tok);
    if unit_is(u, seq!['s']) {
        shift_up(m, 3)
    } else if unit_is(u, seq!['u', 's']) {
        shift_down(m, 3)
    } else {
        m
    }
}

/// A count token: `k` scales by 1000, `m` by 1000000, any other suffix leaves
/// the number as it is.
pub open spec fn count_value(tok: Seq<char>) -> Numeral {
    let m = token_number(tok);
    let u = token_unit(tok);
    if unit_is(u, seq!['m']) {
        shift_up(m, 6)
    } else if unit_is(u, seq!['k']) {
        shift_up(m, 3)
    } else {
        m
    }
}

pub proof fn lemma_pow10_small()
    ensures
        pow10(3) == 1000,
        pow10(6) == 1000000,
{
    assert(pow10(0) == 1);
    assert(pow10(1) == 10);
    assert(pow10(2) == 100);
    assert(pow10(3) == 1000);
    assert(pow10(4) == 10000);
    assert(pow10(5) == 100000);
}

/// In value, a duration token is its number times 1000 for `s`, divided by
/// 1000 for `us`, and the number itself for any other unit (the fractions
/// cross-multiplied).
pub proof fn lemma_duration_value(tok: Seq<char>)
    ensures
        unit_is(token_unit(tok), seq!['s']) ==> numerator(duration_ms(tok)) * pow10(
            token_number(tok).1.len(),
        ) == numerator(token_number(tok)) * 1000 * pow10(duration_ms(tok).1.len()),
        unit_is(token_unit(tok), seq!['u', 's']) ==> numerator(duration_ms(tok)) * 1000 * pow10(
            token_number(tok).1.len(),
        ) == numerator(token_number(tok)) * pow10(duration_ms(tok).1.len()),
        !unit_is(token_unit(tok), seq!['s']) && !unit_is(token_unit(tok), seq!['u', 's'])
            ==> duration_ms(tok) == token_number(tok),
{
    let m = token_number(tok);
    lemma_pow10_small();
    lemma_shift_up_value(m, 3);
    lemma_shift_down_value(m, 3);
    let d = shift_down(m, 3);
    assert(pow10(3 + m.1.len()) == 1000 * pow10(m.1.len())) by {
        crate::decimal::lemma_pow10_add(3, m.1.len());
    }
    assert(numerator(d) * 1000 * pow10(m.1.len()) == numerator(m) * (1000 * pow10(m.1.len())))
        by (nonlinear_arith)
        requires
            numerator(d) == numerator(m),
    ;
}

/// In value, a count token is its number times 1000000 for `m`, times 1000
/// for `k`, and the number itself for any other unit (the fractions
/// cross-multiplied).
pub proof fn lemma_count_value(tok: Seq<char>)
    ensures
        unit_is(token_unit(tok), seq!['m']) ==> numerator(count_value(tok)) * pow10(
            token_number(tok).1.len(),
        ) == numerator(token_number(tok)) * 1000000 * pow10(count_value(tok).1.len()),
        unit_is(token_unit(tok), seq!['k']) && !unit_is(token_unit(tok), seq!['m'])
            ==> numerator(count_value(tok)) * pow10(token_number(tok).1.len()) == numerator(
            token_number(tok),
        ) * 1000 * pow10(count_value(tok).1.len()),
        !unit_is(token_unit(tok), seq!['m']) && !unit_is(token_unit(tok), seq!['k'])
            ==> count_value(tok) == token_number(tok),
{
    let m = token_number(tok);
    lemma_pow10_small();
    lemma_shift_up_value(m, 3);
    lemma_shift_up_value(m, 6);
}

pub fn is_num_char_exec(c: char) -> (r: bool)
    ensures
        r == is_num_char(c),
{
    ('0' <= c && c <= '9') || c == '.'
}

/// Splits `s[lo..hi]` into its digits and points, and the rest.
pub fn partition_numeric(s: &Vec<char>, lo: usize, hi: usize) -> (r: (Vec<char>, Vec<char>))
    requires
        lo <= hi <= s@.len(),
    ensures
        r.0@ == numeric_chars(s@.subrange(lo as int, hi as int)),
        r.1@ == unit_chars(s@.subrange(lo as int, hi as int)),
{
    let mut num: Vec<char> = Vec::new();
    let mut unit: Vec<char> = Vec::new();
    let mut i = lo;
    while i < hi
        invariant
            lo <= i <= hi <= s@.len(),
            num@ == numeric_chars(s@.subrange(lo as int, i as int)),
            unit@ == unit_chars(s@.subrange(lo as int, i as int)),
        decreases hi - i,
    {
        assert(s@.subrange(lo as int, i + 1).drop_last() =~= s@.subrange(lo as int, i as int));
        if is_num_char_exec(s[i]) {
            num.push(s[i]);
        } else {
            unit.push(s[i]);
        }
        i = i + 1;
    }
    (num, unit)
}

fn lowers_to_exec(c: char, p: char) -> (r: bool)
    ensures
        r == lowers_to(c, p),
{
    c == p || ('A' <= c && c <= 'Z' && c as u32 + 32 == p as u32) || (c == '\u{212A}' && p
        == 'k')
}

/// Whether `s[lo..hi]` lower-cases to `p`.
pub fn unit_equals(s: &Vec<char>, lo: usize, hi: usize, p: &[char]) -> (r: bool)
    requires
        lo <= hi <= s@.len(),
    ensures
        r == unit_is(s@.subrange(lo as int, hi as int), p@),
{
    if hi - lo != p.len() {
        return false;
    }
    let mut i: usize = 0;
    while i < p.len()
        invariant
            hi - lo == p@.len(),
            lo <= hi <= s@.len(),
            i <= p@.len(),
            forall|j: int| 0 <= j < i ==> lowers_to(#[trigger] s@[lo + j], p@[j]),
        decreases p@.len() - i,
    {
        if !lowers_to_exec(s[lo + i], p[i]) {
            assert(s@.subrange(lo as int, hi as int)[i as int] == s@[lo + i]);
            return false;
        }
        i = i + 1;
    }
    assert forall|j: int| 0 <= j < p@.len() implies lowers_to(
        #[trigger] s@.subrange(lo as int, hi as int)[j],
        p@[j],
    ) by {
        assert(s@.subrange(lo as int, hi as int)[j] == s@[lo + j]);
    }
    true
}

/// The number of a token and the bounds of its trimmed unit suffix within
/// the returned characters.
fn split_token(tok: &Vec<char>) -> (r: (Decimal, Vec<char>, usize, usize))
    ensures
        r.0@ == token_number(tok@),
        r.0.wf(),
        r.2 <= r.3 <= r.1@.len(),
        r.1@.subrange(r.2 as int, r.3 as int) == token_unit(tok@),
{
    let (a, b) = trim_range(tok, 0, tok.len());
    assert(tok@.subrange(0, tok@.len() as int) =~= tok@);
    let (num, unit) = partition_numeric(tok, a, b);
    let m = match parse_decimal(&num, 0, num.len()) {
        Some(d) => d,
        None => Decimal::zero(),
    };
    assert(num@.subrange(0, num@.len() as int) =~= num@);
    let (ua, ub) = trim_range(&unit, 0, unit.len());
    assert(unit@.subrange(0, unit@.len() as int) =~= unit@);
    (m, unit, ua, ub)
}

/// A duration token of the report in milliseconds (`"635.91us"`, `"2s"`).
pub fn duration_of(tok: &Vec<char>) -> (r: Decimal)
    ensures
        r@ == duration_ms(tok@),
        r.wf(),
{
    let (m, unit, a, b) = split_token(tok);
    if unit_equals(&unit, a, b, &['s']) {
        m.shifted_up(3)
    } else if unit_equals(&unit, a, b, &['u', 's']) {
        m.shifted_down(3)
    } else {
        m
    }
}

/// A count token of the report as a plain number (`"56.20k"`, `"1.5M"`).
pub fn count_of(tok: &Vec<char>) -> (r: Decimal)
    ensures
        r@ == count_value(tok@),
        r.wf(),
{
    let (m, unit, a, b) = split_token(tok);
    if unit_equals(&unit, a, b, &['m']) {
        m.shifted_up(6)
    } else if unit_equals(&unit, a, b, &['k']) {
        m.shifted_up(3)
    } else {
        m
    }
}

/// Converts a duration token to milliseconds. A token without a numeral
/// gives zero.
pub fn parse_to_milliseconds(value: &str) -> (r: Decimal)
    ensures
        r@ == duration_ms(value@),
        r.wf(),
{
    duration_of(&chars_of(value))
}

/// Converts a count token to a plain number. A token without a numeral gives
/// zero.
pub fn parse_count(value: &str) -> (r: Decimal)
    ensures
        r@ == count_value(value@),
        r.wf(),
{
    count_of(&chars_of(value))
}

} // verus!
