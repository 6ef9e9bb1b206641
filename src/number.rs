//! Numbers in the full form that `f64` parsing reads: an optional sign, then
//! a decimal numeral with an optional exponent, or `inf`, `infinity`, `nan`
//! in any case. Kept exactly, as written.
use vstd::prelude::*;
use crate::decimal::{
    Decimal, Numeral, all_digit_chars, all_digits, digit_chars, digit_of, is_digit_char,
    numeral_text, numeral_wf, parse_decimal, parse_numeral, push_digit_chars, zero_numeral,
};
use crate::text::chars_of;
use crate::units::{unit_equals, unit_is};

verus! {

/// What a number is, apart from its sign.
#[derive(Clone, Debug, PartialEq, Eq)]
pub enum RealKind {
    /// `mantissa` times ten to the exponent; the exponent's digits are kept
    /// as written, empty where there is none.
    Finite { mantissa: Decimal, exp_negative: bool, exponent: Vec<u8> },
    Infinite,
    NotANumber,
}

/// A number as `f64` parsing reads it, kept exactly.
#[derive(Clone, Debug, PartialEq, Eq)]
pub struct Real {
    pub negative: bool,
    pub kind: RealKind,
}

pub enum RealKindView {
    Finite(Numeral, bool, Seq<u8>),
    Infinite,
    NotANumber,
}

pub type RealView = (bool, RealKindView);

impl View for Real {
    type V = RealView;

    open spec fn view(&self) -> RealView {
        (
            self.negative,
            match self.kind {
                RealKind::Finite { mantissa, exp_negative, exponent } => RealKindView::Finite(
                    mantissa@,
                    exp_negative,
                    exponent@,
                ),
                RealKind::Infinite => RealKindView::Infinite,
                RealKind::NotANumber => RealKindView::NotANumber,
            },
        )
    }
}

pub open spec fn zero_real() -> RealView {
    (false, RealKindView::Finite(zero_numeral(), false, Seq::empty()))
}

/// A leading `+` or `-` read off: whether it was `-`, and the rest.
pub open spec fn sign_split(s: Seq<char>) -> (bool, Seq<char>) {
    if s.len() > 0 && (s[0] == '+' || s[0] == '-') {
        (s[0] == '-', s.drop_first())
    } else {
        (false, s)
    }
}

/// The first index from `from` on that holds `e` or `E`.
pub open spec fn first_exp_mark(s: Seq<char>, from: int) -> Option<int>
    decreases s.len() - from,
{
    if from < 0 || from >= s.len() {
        None
    } else if s[from] == 'e' || s[from] == 'E' {
        Some(from)
    } else {
        first_exp_mark(s, from + 1)
    }
}

/// An exponent: an optional sign and one or more digits.
pub open spec fn parse_exponent(e: Seq<char>) -> Option<(bool, Seq<u8>)> {
    let (neg, body) = sign_split(e);
    if body.len() > 0 && all_digit_chars(body) {
        Some((neg, Seq::new(body.len(), |i: int| digit_of(body[i]))))
    } else {
        None
    }
}

/// A number in the form that `f64` parsing reads; `None` for any other text.
pub open spec fn parse_real(s: Seq<char>) -> Option<RealView> {
    let (neg, body) = sign_split(s);
    if unit_is(body, seq!['i', 'n', 'f']) || unit_is(
        body,
        seq!['i', 'n', 'f', 'i', 'n', 'i', 't', 'y'],
    ) {
        Some((neg, RealKindView::Infinite))
    } else if unit_is(body, seq!['n', 'a', 'n']) {
        Some((neg, RealKindView::NotANumber))
    } else {
        match first_exp_mark(body, 0) {
            None => match parse_numeral(body) {
                Some(m) => Some((neg, RealKindView::Finite(m, false, Seq::empty()))),
                None => None,
            },
            Some(k) => match (
                parse_numeral(body.subrange(0, k)),
                parse_exponent(body.subrange(k + 1, body.len() as int)),
            ) {
                (Some(m), Some((en, ed))) => Some((neg, RealKindView::Finite(m, en, ed))),
                _ => None,
            },
        }
    }
}

/// A number, or zero where `s` is none.
pub open spec fn real_or_zero(s: Seq<char>) -> RealView {
    match parse_real(s) {
        Some(r) => r,
        None => zero_real(),
    }
}

/// The text of a number, which `f64` parsing reads back: `-` where negative,
/// then `inf`, `NaN`, or the numeral with `e`, the exponent's sign and its
/// digits where it has an exponent.
pub open spec fn real_text(r: RealView) -> Seq<char> {
    let sign = if r.0 { seq!['-'] } else { Seq::empty() };
    sign + match r.1 {
        RealKindView::Infinite => seq!['i', 'n', 'f'],
        RealKindView::NotANumber => seq!['N', 'a', 'N'],
        RealKindView::Finite(m, en, ed) => numeral_text(m) + if ed.len() == 0 {
            Seq::empty()
        } else {
            seq!['e'] + (if en { seq!['-'] } else { Seq::empty() }) + digit_chars(ed)
        },
    }
}

pub open spec fn real_wf(r: RealView) -> bool {
    match r.1 {
        RealKindView::Finite(m, _, ed) => numeral_wf(m) && all_digits(ed),
        _ => true,
    }
}

pub proof fn lemma_first_exp_mark_bounds(s: Seq<char>, from: int)
    ensures
        match first_exp_mark(s, from) {
            Some(k) => from <= k < s.len() && (s[k] == 'e' || s[k] == 'E'),
            None => true,
        },
    decreases s.len() - from,
{
    if 0 <= from < s.len() && !(s[from] == 'e' || s[from] == 'E') {
        lemma_first_exp_mark_bounds(s, from + 1);
    }
}

fn first_exp_mark_exec(s: &Vec<char>, lo: usize, hi: usize) -> (r: Option<usize>)
    requires
        lo <= hi <= s@.len(),
    ensures
        match first_exp_mark(s@.subrange(lo as int, hi as int), 0) {
            Some(k) => r == Some((lo + k) as usize) && 0 <= k && lo + k < hi,
            None => r is None,
        },
{
    let ghost t = s@.subrange(lo as int, hi as int);
    proof {
        lemma_first_exp_mark_bounds(t, 0);
    }
    let mut i = lo;
    while i < hi
        invariant
            lo <= i <= hi <= s@.len(),
            t == s@.subrange(lo as int, hi as int),
            first_exp_mark(t, 0) == first_exp_mark(t, i - lo),
            match first_exp_mark(t, 0) {
                Some(k) => 0 <= k < t.len(),
                None => true,
            },
        decreases hi - i,
    {
        assert(t[i - lo] == s@[i as int]);
        if s[i] == 'e' || s[i] == 'E' {
            return Some(i);
        }
        i = i + 1;
    }
    None
}

fn parse_exponent_exec(s: &Vec<char>, lo: usize, hi: usize) -> (r: Option<(bool, Vec<u8>)>)
    requires
        lo <= hi <= s@.len(),
    ensures
        match r {
            Some(p) => parse_exponent(s@.subrange(lo as int, hi as int)) == Some((p.0, p.1@))
                && all_digits(p.1@),
            None => parse_exponent(s@.subrange(lo as int, hi as int)) is None,
        },
{
    let ghost t = s@.subrange(lo as int, hi as int);
    let mut start = lo;
    let mut neg = false;
    if lo < hi && (s[lo] == '+' || s[lo] == '-') {
        neg = s[lo] == '-';
        start = lo + 1;
    }
    let ghost body = s@.subrange(start as int, hi as int);
    assert(sign_split(t) == (neg, body)) by {
        if lo < hi && (s@[lo as int] == '+' || s@[lo as int] == '-') {
            assert(t.drop_first() =~= body);
        } else {
            assert(t =~= body);
        }
    }
    if start == hi {
        return None;
    }
    let mut digits: Vec<u8> = Vec::new();
    let mut i = start;
    while i < hi
        invariant
            lo <= start <= i <= hi <= s@.len(),
            body == s@.subrange(start as int, hi as int),
            t == s@.subrange(lo as int, hi as int),
            sign_split(t) == (neg, body),
            digits@ == Seq::new((i - start) as nat, |k: int| digit_of(body[k])),
            forall|k: int| 0 <= k < i - start ==> crate::decimal::is_digit(#[trigger] body[k]),
            all_digits(digits@),
        decreases hi - i,
    {
        assert(body[i - start] == s@[i as int]);
        if !is_digit_char(s[i]) {
            return None;
        }
        let d = (s[i] as u32 - '0' as u32) as u8;
        digits.push(d);
        assert(digits@ =~= Seq::new((i + 1 - start) as nat, |k: int| digit_of(body[k])));
        i = i + 1;
    }
    assert(all_digit_chars(body));
    Some((neg, digits))
}

/// Reads a number from `s[lo..hi]`.
pub fn parse_real_exec(s: &Vec<char>, lo: usize, hi: usize) -> (r: Option<Real>)
    requires
        lo <= hi <= s@.len(),
    ensures
        match r {
            Some(x) => parse_real(s@.subrange(lo as int, hi as int)) == Some(x@) && real_wf(x@),
            None => parse_real(s@.subrange(lo as int, hi as int)) is None,
        },
{
    let ghost t = s@.subrange(lo as int, hi as int);
    let mut start = lo;
    let mut negative = false;
    if lo < hi && (s[lo] == '+' || s[lo] == '-') {
        negative = s[lo] == '-';
        start = lo + 1;
    }
    let ghost body = s@.subrange(start as int, hi as int);
    assert(sign_split(t) == (negative, body)) by {
        if lo < hi && (s@[lo as int] == '+' || s@[lo as int] == '-') {
            assert(t.drop_first() =~= body);
        } else {
            assert(t =~= body);
        }
    }
    if unit_equals(s, start, hi, &['i', 'n', 'f']) || unit_equals(
        s,
        start,
        hi,
        &['i', 'n', 'f', 'i', 'n', 'i', 't', 'y'],
    ) {
        return Some(Real { negative, kind: RealKind::Infinite });
    }
    if unit_equals(s, start, hi, &['n', 'a', 'n']) {
        return Some(Real { negative, kind: RealKind::NotANumber });
    }
    match first_exp_mark_exec(s, start, hi) {
        None => match parse_decimal(s, start, hi) {
            Some(m) => Some(
                Real {
                    negative,
                    kind: RealKind::Finite { mantissa: m, exp_negative: false, exponent: Vec::new() },
                },
            ),
            None => None,
        },
        Some(k) => {
            assert(body.subrange(0, k - start) =~= s@.subrange(start as int, k as int));
            assert(body.subrange(k - start + 1, body.len() as int) =~= s@.subrange(
                k + 1,
                hi as int,
            ));
            match (parse_decimal(s, start, k), parse_exponent_exec(s, k + 1, hi)) {
                (Some(m), Some((exp_negative, exponent))) => Some(
                    Real { negative, kind: RealKind::Finite { mantissa: m, exp_negative, exponent } },
                ),
                _ => None,
            }
        },
    }
}

impl Real {
    pub open spec fn wf(&self) -> bool {
        real_wf(self@)
    }

    pub fn zero() -> (r: Real)
        ensures
            r@ == zero_real(),
            r.wf(),
    {
        let r = Real {
            negative: false,
            kind: RealKind::Finite { mantissa: Decimal::zero(), exp_negative: false, exponent: Vec::new() },
        };
        assert(r@.1 == RealKindView::Finite(zero_numeral(), false, Seq::<u8>::empty()));
        r
    }

    /// Reads a number in the form that `f64` parsing reads.
    pub fn parse(s: &str) -> (r: Option<Real>)
        ensures
            match r {
                Some(x) => parse_real(s@) == Some(x@) && x.wf(),
                None => parse_real(s@) is None,
            },
    {
        let c = chars_of(s);
        assert(c@.subrange(0, c@.len() as int) =~= c@);
        parse_real_exec(&c, 0, c.len())
    }

    /// The number written out, such as `"-1.5e-3"` or `"inf"`.
    pub fn to_text(&self) -> (r: String)
        requires
            self.wf(),
        ensures
            r@ == real_text(self@),
    {
        let mut out: Vec<char> = Vec::new();
        if self.negative {
            out.push('-');
        }
        let ghost sign = out@;
        match &self.kind {
            RealKind::Infinite => {
                out.push('i');
                out.push('n');
                out.push('f');
            },
            RealKind::NotANumber => {
                out.push('N');
                out.push('a');
                out.push('N');
            },
            RealKind::Finite { mantissa, exp_negative, exponent } => {
                mantissa.write_text(&mut out);
                if exponent.len() > 0 {
                    out.push('e');
                    if *exp_negative {
                        out.push('-');
                    }
                    push_digit_chars(&mut out, exponent);
                }
            },
        }
        assert(out@ =~= real_text(self@));
        crate::text::string_of(out.as_slice())
    }
}

} // verus!
