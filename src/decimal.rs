//! Exact non-negative decimal numbers, kept as digit sequences.
use vstd::prelude::*;
use vstd::arithmetic::div_mod::{lemma_fundamental_div_mod, lemma_multiply_divide_lt};

verus! {

/// A non-negative decimal number: the digits before the point and the digits
/// after it, each digit in `0..=9`. Its value is the integer spelt by
/// `whole` followed by `frac`, divided by ten to the length of `frac`.
#[derive(Clone, Debug, PartialEq, Eq)]
pub struct Decimal {
    pub whole: Vec<u8>,
    pub frac: Vec<u8>,
}

/// The digits before and after the point.
pub type Numeral = (Seq<u8>, Seq<u8>);

impl View for Decimal {
    type V = Numeral;

    open spec fn view(&self) -> Numeral {
        (self.whole@, self.frac@)
    }
}

pub open spec fn all_digits(s: Seq<u8>) -> bool {
    forall|i: int| 0 <= i < s.len() ==> s[i] <= 9
}

pub open spec fn numeral_wf(m: Numeral) -> bool {
    all_digits(m.0) && all_digits(m.1)
}

pub open spec fn zero_numeral() -> Numeral {
    (Seq::empty(), Seq::empty())
}

pub open spec fn zeros(n: nat) -> Seq<u8> {
    Seq::new(n, |i: int| 0u8)
}

pub open spec fn pow10(n: nat) -> nat
    decreases n,
{
    if n == 0 {
        1
    } else {
        10 * pow10((n - 1) as nat)
    }
}

/// The integer that the digits spell, most significant first.
pub open spec fn digits_value(s: Seq<u8>) -> nat
    decreases s.len(),
{
    if s.len() == 0 {
        0
    } else {
        digits_value(s.drop_last()) * 10 + s.last() as nat
    }
}

/// The value of a numeral is `numerator(m) / pow10(m.1.len())`.
pub open spec fn numerator(m: Numeral) -> nat {
    digits_value(m.0 + m.1)
}

pub open spec fn is_digit(c: char) -> bool {
    '0' <= c && c <= '9'
}

pub open spec fn digit_of(c: char) -> u8 {
    (c as u32 - '0' as u32) as u8
}

/// Reading a numeral left to right: digits before the point, digits after it,
/// the number of points seen (counted up to two), and whether every character
/// so far is a digit or a point.
pub open spec fn numeral_state(s: Seq<char>) -> (Seq<u8>, Seq<u8>, nat, bool)
    decreases s.len(),
{
    if s.len() == 0 {
        (Seq::empty(), Seq::empty(), 0, true)
    } else {
        let (w, f, points, ok) = numeral_state(s.drop_last());
        let c = s.last();
        if c == '.' {
            (w, f, if points >= 2 { 2 } else { points + 1 }, ok)
        } else if is_digit(c) {
            if points == 0 {
                (w.push(digit_of(c)), f, points, ok)
            } else {
                (w, f.push(digit_of(c)), points, ok)
            }
        } else {
            (w, f, points, false)
        }
    }
}

/// A plain decimal numeral: digits with at most one point, at least one digit
/// (`"12"`, `"1.5"`, `".5"`, `"3."`).
pub open spec fn parse_numeral(s: Seq<char>) -> Option<Numeral> {
    let (w, f, points, ok) = numeral_state(s);
    if ok && points <= 1 && w.len() + f.len() > 0 {
        Some((w, f))
    } else {
        None
    }
}

/// A numeral, or zero where `s` is none.
pub open spec fn numeral_or_zero(s: Seq<char>) -> Numeral {
    match parse_numeral(s) {
        Some(m) => m,
        None => zero_numeral(),
    }
}

/// The numeral times `10^k`: the point moves `k` places to the right.
pub open spec fn shift_up(m: Numeral, k: nat) -> Numeral {
    let t = if k <= m.1.len() { k } else { m.1.len() };
    (m.0 + m.1.subrange(0, t as int) + zeros((k - t) as nat), m.1.subrange(t as int, m.1.len() as int))
}

/// The numeral divided by `10^k`: the point moves `k` places to the left.
pub open spec fn shift_down(m: Numeral, k: nat) -> Numeral {
    let t = if k <= m.0.len() { k } else { m.0.len() };
    let n = m.0.len();
    (m.0.subrange(0, n - t), zeros((k - t) as nat) + m.0.subrange(n - t, n as int) + m.1)
}

/// `s` without its leading zero digits.
pub open spec fn drop_leading_zeros(s: Seq<u8>) -> Seq<u8>
    decreases s.len(),
{
    if s.len() > 0 && s[0] == 0 {
        drop_leading_zeros(s.drop_first())
    } else {
        s
    }
}

/// The characters that write a numeral: its whole digits without leading
/// zeros (`0` where none are left), then a point and the fraction digits where there are any.
pub open spec fn numeral_text(m: Numeral) -> Seq<char> {
    let lead = drop_leading_zeros(m.0);
    let w = if lead.len() == 0 { seq!['0'] } else { digit_chars(lead) };
    if m.1.len() == 0 {
        w
    } else {
        w + seq!['.'] + digit_chars(m.1)
    }
}

pub open spec fn digit_chars(s: Seq<u8>) -> Seq<char> {
    Seq::new(s.len(), |i: int| (s[i] + 48) as char)
}

/// An unsigned integer as `str::parse` reads one: an optional `+`, then one
/// or more digits. Its value, where `s` has that form.
pub open spec fn parse_uint(s: Seq<char>) -> Option<nat> {
    let body = unsigned_body(s);
    if body.len() > 0 && all_digit_chars(body) {
        Some(digits_value(Seq::new(body.len(), |i: int| digit_of(body[i]))))
    } else {
        None
    }
}

/// An unsigned integer that fits in `u64`.
pub open spec fn u64_of(s: Seq<char>) -> Option<u64> {
    match parse_uint(s) {
        Some(v) => if v <= u64::MAX {
            Some(v as u64)
        } else {
            None
        },
        None => None,
    }
}

/// An unsigned integer that fits in `u32`.
pub open spec fn u32_of(s: Seq<char>) -> Option<u32> {
    match parse_uint(s) {
        Some(v) => if v <= u32::MAX {
            Some(v as u32)
        } else {
            None
        },
        None => None,
    }
}

/// `s` without one leading `+`.
pub open spec fn unsigned_body(s: Seq<char>) -> Seq<char> {
    if s.len() > 0 && s[0] == '+' {
        s.drop_first()
    } else {
        s
    }
}

pub open spec fn all_digit_chars(s: Seq<char>) -> bool {
    forall|i: int| 0 <= i < s.len() ==> is_digit(#[trigger] s[i])
}

/// The last `len` decimal digits of `x`, most significant first.
pub open spec fn fixed_digits(x: nat, len: nat) -> Seq<u8>
    decreases len,
{
    if len == 0 {
        Seq::empty()
    } else {
        fixed_digits(x / 10, (len - 1) as nat).push((x % 10) as u8)
    }
}

/// The numeral times the digit `k`, with one more whole digit and as many
/// fraction digits.
pub open spec fn times_digit_numeral(m: Numeral, k: nat) -> Numeral {
    let all = fixed_digits(numerator(m) * k, m.0.len() + m.1.len() + 1);
    (all.subrange(0, m.0.len() + 1 as int), all.subrange(m.0.len() + 1 as int, all.len() as int))
}

pub proof fn lemma_fixed_digits(s: Seq<u8>)
    requires
        all_digits(s),
    ensures
        fixed_digits(digits_value(s), s.len()) == s,
    decreases s.len(),
{
    if s.len() > 0 {
        let p = s.drop_last();
        assert(all_digits(p));
        lemma_fixed_digits(p);
        let v = digits_value(s);
        assert(v == digits_value(p) * 10 + s.last());
        assert(v / 10 == digits_value(p));
        assert(v % 10 == s.last());
        assert(fixed_digits(v, s.len()) =~= s);
    }
}

pub proof fn lemma_digits_value_push(s: Seq<u8>, d: u8)
    ensures
        digits_value(s.push(d)) == digits_value(s) * 10 + d,
{
    assert(s.push(d).drop_last() =~= s);
}

impl Decimal {
    pub open spec fn wf(&self) -> bool {
        numeral_wf(self@)
    }

    pub fn zero() -> (r: Decimal)
        ensures
            r@ == zero_numeral(),
            r.wf(),
    {
        Decimal { whole: Vec::new(), frac: Vec::new() }
    }

    /// Reads a plain decimal numeral such as `"12"`, `"1.5"` or `".5"`.
    pub fn parse(s: &str) -> (r: Option<Decimal>)
        ensures
            match r {
                Some(d) => parse_numeral(s@) == Some(d@) && d.wf(),
                None => parse_numeral(s@) is None,
            },
    {
        let c = crate::text::chars_of(s);
        assert(c@.subrange(0, c@.len() as int) =~= c@);
        parse_decimal(&c, 0, c.len())
    }

    /// The number written out, such as `"0.63591"` or `"2000"`.
    pub fn to_text(&self) -> (r: String)
        requires
            self.wf(),
        ensures
            r@ == numeral_text(self@),
    {
        let mut out: Vec<char> = Vec::new();
        self.write_text(&mut out);
        assert(out@ =~= numeral_text(self@));
        crate::text::string_of(out.as_slice())
    }

    /// Appends the number written out to `out`.
    pub fn write_text(&self, out: &mut Vec<char>)
        requires
            self.wf(),
        ensures
            final(out)@ == old(out)@ + numeral_text(self@),
    {
        let ghost start = out@;
        let n = self.whole.len();
        let mut k: usize = 0;
        assert(self.whole@.subrange(0, n as int) =~= self.whole@);
        while k < n && self.whole[k] == 0
            invariant
                k <= n == self.whole@.len(),
                drop_leading_zeros(self.whole@.subrange(k as int, n as int)) == drop_leading_zeros(
                    self.whole@,
                ),
            decreases n - k,
        {
            assert(self.whole@.subrange(k as int, n as int).drop_first() =~= self.whole@.subrange(
                k + 1,
                n as int,
            ));
            k = k + 1;
        }
        let ghost lead = drop_leading_zeros(self.whole@);
        assert(lead == self.whole@.subrange(k as int, n as int));
        if k == n {
            out.push('0');
        } else {
            let mut rest: Vec<u8> = Vec::new();
            append_digits(&mut rest, &self.whole, k, n);
            push_digit_chars(out, &rest);
        }
        let ghost w = if lead.len() == 0 { seq!['0'] } else { digit_chars(lead) };
        assert(out@ =~= start + w);
        if self.frac.len() > 0 {
            out.push('.');
            push_digit_chars(out, &self.frac);
            assert(out@ =~= start + numeral_text(self@));
        }
    }
}

pub fn push_digit_chars(out: &mut Vec<char>, d: &Vec<u8>)
    requires
        all_digits(d@),
    ensures
        final(out)@ == old(out)@ + digit_chars(d@),
{
    let ghost start = out@;
    let mut i: usize = 0;
    while i < d.len()
        invariant
            i <= d@.len(),
            all_digits(d@),
            out@ == start + digit_chars(d@.subrange(0, i as int)),
        decreases d@.len() - i,
    {
        let c = (d[i] + 48) as char;
        out.push(c);
        assert(digit_chars(d@.subrange(0, i + 1)) =~= digit_chars(d@.subrange(0, i as int)).push(
            c,
        ));
        i = i + 1;
    }
    assert(d@.subrange(0, d@.len() as int) =~= d@);
}

pub fn is_digit_char(c: char) -> (r: bool)
    ensures
        r == is_digit(c),
{
    '0' <= c && c <= '9'
}

/// Reads a plain decimal numeral from `s[lo..hi]`.
pub fn parse_decimal(s: &Vec<char>, lo: usize, hi: usize) -> (r: Option<Decimal>)
    requires
        lo <= hi <= s@.len(),
    ensures
        match r {
            Some(d) => parse_numeral(s@.subrange(lo as int, hi as int)) == Some(d@) && d.wf(),
            None => parse_numeral(s@.subrange(lo as int, hi as int)) is None,
        },
{
    let mut whole: Vec<u8> = Vec::new();
    let mut frac: Vec<u8> = Vec::new();
    let mut points: usize = 0;
    let mut ok = true;
    let mut i = lo;
    while i < hi
        invariant
            lo <= i <= hi <= s@.len(),
            points <= 2,
            numeral_state(s@.subrange(lo as int, i as int)) == (whole@, frac@, points as nat, ok),
            all_digits(whole@),
            all_digits(frac@),
        decreases hi - i,
    {
        assert(s@.subrange(lo as int, i + 1).drop_last() =~= s@.subrange(lo as int, i as int));
        let c = s[i];
        if c == '.' {
            if points < 2 {
                points = points + 1;
            }
        } else if is_digit_char(c) {
            let d = (c as u32 - '0' as u32) as u8;
            if points == 0 {
                whole.push(d);
            } else {
                frac.push(d);
            }
        } else {
            ok = false;
        }
        i = i + 1;
    }
    if ok && points <= 1 && (whole.len() > 0 || frac.len() > 0) {
        Some(Decimal { whole, frac })
    } else {
        None
    }
}

/// Reads an unsigned integer from `s[lo..hi]`; `None` where it has not the
/// form of one or exceeds `u64::MAX`.
pub fn parse_u64(s: &Vec<char>, lo: usize, hi: usize) -> (r: Option<u64>)
    requires
        lo <= hi <= s@.len(),
    ensures
        r == u64_of(s@.subrange(lo as int, hi as int)),
{
    let ghost t = s@.subrange(lo as int, hi as int);
    let mut start = lo;
    if lo < hi && s[lo] == '+' {
        start = lo + 1;
    }
    let ghost body = s@.subrange(start as int, hi as int);
    assert(body =~= unsigned_body(t));
    if start == hi {
        return None;
    }
    let ghost ds = Seq::new(body.len(), |k: int| digit_of(body[k]));
    let mut acc: u64 = 0;
    let mut over = false;
    let mut i = start;
    while i < hi
        invariant
            lo <= start <= i <= hi <= s@.len(),
            body == s@.subrange(start as int, hi as int),
            t == s@.subrange(lo as int, hi as int),
            body == unsigned_body(t),
            ds == Seq::new(body.len(), |k: int| digit_of(body[k])),
            forall|k: int| start <= k < i ==> is_digit(#[trigger] s@[k]),
            !over ==> acc as nat == digits_value(ds.subrange(0, i - start)),
            over ==> digits_value(ds.subrange(0, i - start)) > u64::MAX,
        decreases hi - i,
    {
        let c = s[i];
        if !is_digit_char(c) {
            assert(body[i - start] == s@[i as int]);
            assert(!is_digit(body[i - start]));
            return None;
        }
        let d = (c as u32 - '0' as u32) as u64;
        proof {
            assert(ds.subrange(0, i - start + 1) =~= ds.subrange(0, i - start).push(ds[i - start]));
            lemma_digits_value_push(ds.subrange(0, i - start), ds[i - start]);
        }
        if !over {
            if acc > (u64::MAX - d) / 10 {
                over = true;
            } else {
                acc = acc * 10 + d;
            }
        }
        i = i + 1;
    }
    assert(ds.subrange(0, hi - start) =~= ds);
    assert forall|k: int| 0 <= k < body.len() implies is_digit(body[k]) by {
        assert(body[k] == s@[start + k]);
    }
    assert(all_digit_chars(body));
    if over {
        None
    } else {
        Some(acc)
    }
}

pub proof fn lemma_digits_value_prepend(d: u8, r: Seq<u8>)
    ensures
        digits_value(seq![d] + r) == d * pow10(r.len()) + digits_value(r),
    decreases r.len(),
{
    let s = seq![d] + r;
    if r.len() == 0 {
        assert(s.drop_last() =~= Seq::<u8>::empty());
        assert(digits_value(Seq::<u8>::empty()) == 0);
        assert(s.last() == d);
        assert(pow10(0) == 1);
    } else {
        let p = r.drop_last();
        assert(s.drop_last() =~= seq![d] + p);
        assert(s.last() == r.last());
        assert(digits_value(s) == digits_value(seq![d] + p) * 10 + r.last());
        lemma_digits_value_prepend(d, p);
        let a = d as nat;
        let q = pow10(p.len());
        assert(pow10(r.len()) == 10 * q);
        assert((a * q + digits_value(p)) * 10 + r.last() == a * (10 * q) + (digits_value(p) * 10
            + r.last())) by (nonlinear_arith);
    }
}

fn append_digits(out: &mut Vec<u8>, v: &Vec<u8>, lo: usize, hi: usize)
    requires
        lo <= hi <= v@.len(),
    ensures
        final(out)@ == old(out)@ + v@.subrange(lo as int, hi as int),
{
    let ghost start = out@;
    let mut i = lo;
    while i < hi
        invariant
            lo <= i <= hi <= v@.len(),
            out@ == start + v@.subrange(lo as int, i as int),
        decreases hi - i,
    {
        out.push(v[i]);
        assert(v@.subrange(lo as int, i + 1) =~= v@.subrange(lo as int, i as int).push(v@[i as int]));
        assert(out@ =~= start + v@.subrange(lo as int, i + 1));
        i = i + 1;
    }
}

fn push_zeros(out: &mut Vec<u8>, n: usize)
    ensures
        final(out)@ == old(out)@ + zeros(n as nat),
{
    let ghost start = out@;
    let mut i: usize = 0;
    while i < n
        invariant
            i <= n,
            out@ == start + zeros(i as nat),
        decreases n - i,
    {
        out.push(0);
        assert(out@ =~= start + zeros((i + 1) as nat));
        i = i + 1;
    }
}

impl Decimal {
    /// This number times `10^k`.
    pub fn shifted_up(&self, k: usize) -> (r: Decimal)
        requires
            self.wf(),
        ensures
            r@ == shift_up(self@, k as nat),
            r.wf(),
    {
        let t = if k <= self.frac.len() { k } else { self.frac.len() };
        let mut whole: Vec<u8> = Vec::new();
        append_digits(&mut whole, &self.whole, 0, self.whole.len());
        append_digits(&mut whole, &self.frac, 0, t);
        push_zeros(&mut whole, k - t);
        let mut frac: Vec<u8> = Vec::new();
        append_digits(&mut frac, &self.frac, t, self.frac.len());
        assert(self.whole@.subrange(0, self.whole@.len() as int) =~= self.whole@);
        assert(whole@ =~= shift_up(self@, k as nat).0);
        assert(frac@ =~= shift_up(self@, k as nat).1);
        Decimal { whole, frac }
    }

    /// This number divided by `10^k`.
    pub fn shifted_down(&self, k: usize) -> (r: Decimal)
        requires
            self.wf(),
        ensures
            r@ == shift_down(self@, k as nat),
            r.wf(),
    {
        let n = self.whole.len();
        let t = if k <= n { k } else { n };
        let mut whole: Vec<u8> = Vec::new();
        append_digits(&mut whole, &self.whole, 0, n - t);
        let mut frac: Vec<u8> = Vec::new();
        push_zeros(&mut frac, k - t);
        append_digits(&mut frac, &self.whole, n - t, n);
        append_digits(&mut frac, &self.frac, 0, self.frac.len());
        assert(self.frac@.subrange(0, self.frac@.len() as int) =~= self.frac@);
        assert(whole@ =~= shift_down(self@, k as nat).0);
        assert(frac@ =~= shift_down(self@, k as nat).1);
        Decimal { whole, frac }
    }

    /// This number times the digit `k`. The fraction keeps its length and the
    /// whole part gains one leading digit, so the result is fixed by its value.
    pub fn times_digit(&self, k: u8) -> (r: Decimal)
        requires
            self.wf(),
            k <= 9,
        ensures
            r.wf(),
            r.whole@.len() == self.whole@.len() + 1,
            r.frac@.len() == self.frac@.len(),
            numerator(r@) == numerator(self@) * k,
            r@ == times_digit_numeral(self@, k as nat),
    {
        let mut all: Vec<u8> = Vec::new();
        append_digits(&mut all, &self.whole, 0, self.whole.len());
        append_digits(&mut all, &self.frac, 0, self.frac.len());
        assert(self.whole@.subrange(0, self.whole@.len() as int) =~= self.whole@);
        assert(self.frac@.subrange(0, self.frac@.len() as int) =~= self.frac@);
        let n = all.len();
        let mut out: Vec<u8> = Vec::new();
        let mut carry: u8 = 0;
        let mut i = n;
        assert(all@.subrange(n as int, n as int) =~= Seq::<u8>::empty());
        assert(digits_value(Seq::<u8>::empty()) == 0);
        assert(out@ =~= Seq::<u8>::empty());
        while i > 0
            invariant
                n == all@.len(),
                i <= n,
                all_digits(all@),
                all_digits(out@),
                out@.len() == n - i,
                carry <= 8,
                k <= 9,
                digits_value(all@.subrange(i as int, n as int)) * k == digits_value(out@) + carry
                    * pow10((n - i) as nat),
            decreases i,
        {
            let a = all[i - 1];
            assert(a * k <= 81) by (nonlinear_arith)
                requires
                    a <= 9,
                    k <= 9,
            ;
            let x = a * k + carry;
            let d = x % 10;
            let c2 = x / 10;
            let ghost old_out = out@;
            out.insert(0, d);
            proof {
                assert(out@ =~= seq![d] + old_out);
                lemma_digits_value_prepend(d, old_out);
                let rest = all@.subrange(i as int, n as int);
                assert(all@.subrange(i - 1, n as int) =~= seq![a] + rest);
                lemma_digits_value_prepend(a, rest);
                let p = pow10((n - i) as nat);
                assert(pow10((n - (i - 1)) as nat) == 10 * p);
                let vr = digits_value(rest);
                let vo = digits_value(old_out);
                assert(vr * k == vo + carry * p);
                assert(x == d + 10 * c2);
                assert((a * p + vr) * k == d * p + vo + c2 * (10 * p)) by (nonlinear_arith)
                    requires
                        vr * k == vo + carry * p,
                        x == a * k + carry,
                        x == d + 10 * c2,
                ;
            }
            carry = c2;
            i = i - 1;
        }
        let mut digits: Vec<u8> = Vec::new();
        digits.push(carry);
        append_digits(&mut digits, &out, 0, out.len());
        proof {
            assert(out@.subrange(0, out@.len() as int) =~= out@);
            assert(digits@ =~= seq![carry] + out@);
            lemma_digits_value_prepend(carry, out@);
            assert(all@.subrange(0, n as int) =~= all@);
            assert(all@ =~= self.whole@ + self.frac@);
        }
        assert(digits@.len() == self.whole@.len() + self.frac@.len() + 1);
        let w = digits.len() - self.frac.len();
        let mut whole: Vec<u8> = Vec::new();
        append_digits(&mut whole, &digits, 0, w);
        let mut frac: Vec<u8> = Vec::new();
        append_digits(&mut frac, &digits, w, digits.len());
        assert(whole@ + frac@ =~= digits@);
        proof {
            assert(all_digits(digits@));
            lemma_fixed_digits(digits@);
            assert(whole@ =~= digits@.subrange(0, self.whole@.len() + 1 as int));
            assert(frac@ =~= digits@.subrange(self.whole@.len() + 1 as int, digits@.len() as int));
        }
        Decimal { whole, frac }
    }
}

/// Reads an unsigned integer from `s[lo..hi]`; `None` where it has not the
/// form of one or exceeds `u32::MAX`.
pub fn parse_u32(s: &Vec<char>, lo: usize, hi: usize) -> (r: Option<u32>)
    requires
        lo <= hi <= s@.len(),
    ensures
        r == u32_of(s@.subrange(lo as int, hi as int)),
{
    match parse_u64(s, lo, hi) {
        Some(v) => if v <= u32::MAX as u64 {
            Some(v as u32)
        } else {
            None
        },
        None => None,
    }
}

/// Whether every digit of the numeral is zero (its value is zero).
pub open spec fn is_zero_numeral(m: Numeral) -> bool {
    (forall|i: int| 0 <= i < m.0.len() ==> m.0[i] == 0) && (forall|i: int|
        0 <= i < m.1.len() ==> m.1[i] == 0)
}

fn all_zero(v: &Vec<u8>) -> (r: bool)
    ensures
        r == (forall|i: int| 0 <= i < v@.len() ==> v@[i] == 0),
{
    let mut i: usize = 0;
    while i < v.len()
        invariant
            i <= v@.len(),
            forall|j: int| 0 <= j < i ==> v@[j] == 0,
        decreases v@.len() - i,
    {
        if v[i] != 0 {
            return false;
        }
        i = i + 1;
    }
    true
}

impl Decimal {
    pub fn is_zero(&self) -> (r: bool)
        ensures
            r == is_zero_numeral(self@),
    {
        let a = all_zero(&self.whole);
        let b = all_zero(&self.frac);
        assert(self@.0 == self.whole@ && self@.1 == self.frac@);
        a && b
    }
}

pub proof fn lemma_pow10_add(a: nat, b: nat)
    ensures
        pow10(a + b) == pow10(a) * pow10(b),
    decreases a,
{
    if a == 0 {
        assert(pow10(0) == 1);
        assert(a + b == b);
    } else {
        lemma_pow10_add((a - 1) as nat, b);
        assert(pow10(a) == 10 * pow10((a - 1) as nat));
        assert((a + b - 1) as nat == (a - 1 + b) as nat);
        assert(pow10(a + b) == 10 * pow10((a - 1 + b) as nat));
        assert(10 * (pow10((a - 1) as nat) * pow10(b)) == (10 * pow10((a - 1) as nat)) * pow10(b))
            by (nonlinear_arith);
    }
}

pub proof fn lemma_digits_value_zeros_after(s: Seq<u8>, j: nat)
    ensures
        digits_value(s + zeros(j)) == digits_value(s) * pow10(j),
    decreases j,
{
    if j == 0 {
        assert(s + zeros(0) =~= s);
        assert(pow10(0) == 1);
    } else {
        let p = s + zeros((j - 1) as nat);
        assert(pow10(j) == 10 * pow10((j - 1) as nat));
        assert((s + zeros(j)).drop_last() =~= p);
        assert((s + zeros(j)).last() == 0);
        assert(digits_value(s + zeros(j)) == digits_value(p) * 10 + (s + zeros(j)).last());
        lemma_digits_value_zeros_after(s, (j - 1) as nat);
        assert(digits_value(s) * pow10((j - 1) as nat) * 10 == digits_value(s) * (10 * pow10(
            (j - 1) as nat,
        ))) by (nonlinear_arith);
    }
}

pub proof fn lemma_digits_value_zeros_before(j: nat, s: Seq<u8>)
    ensures
        digits_value(zeros(j) + s) == digits_value(s),
    decreases s.len(),
{
    if s.len() == 0 {
        assert(zeros(j) + s =~= Seq::<u8>::empty() + zeros(j));
        lemma_digits_value_zeros_after(Seq::<u8>::empty(), j);
        assert(digits_value(Seq::<u8>::empty()) == 0);
    } else {
        assert((zeros(j) + s).drop_last() =~= zeros(j) + s.drop_last());
        assert((zeros(j) + s).last() == s.last());
        assert(digits_value(zeros(j) + s) == digits_value(zeros(j) + s.drop_last()) * 10
            + s.last());
        lemma_digits_value_zeros_before(j, s.drop_last());
    }
}

/// Moving the point `k` places to the right multiplies the value by `10^k`
/// (the two fractions cross-multiplied).
pub proof fn lemma_shift_up_value(m: Numeral, k: nat)
    ensures
        numerator(shift_up(m, k)) * pow10(m.1.len()) == numerator(m) * pow10(k) * pow10(
            shift_up(m, k).1.len(),
        ),
{
    let r = shift_up(m, k);
    let f = m.1.len();
    let n = numerator(m);
    if k <= f {
        assert(r.0 + r.1 =~= m.0 + m.1);
        assert(r.1.len() == f - k);
        lemma_pow10_add(k, (f - k) as nat);
        assert(k + (f - k) as nat == f);
        assert(n * (pow10(k) * pow10((f - k) as nat)) == n * pow10(k) * pow10((f - k) as nat))
            by (nonlinear_arith);
    } else {
        assert(r.0 + r.1 =~= (m.0 + m.1) + zeros((k - f) as nat));
        lemma_digits_value_zeros_after(m.0 + m.1, (k - f) as nat);
        lemma_pow10_add((k - f) as nat, f);
        assert((k - f) as nat + f == k);
        assert(r.1.len() == 0);
        assert(pow10(0) == 1);
        assert(n * pow10((k - f) as nat) * pow10(f) == n * (pow10((k - f) as nat) * pow10(f)))
            by (nonlinear_arith);
    }
}

/// Moving the point `k` places to the left divides the value by `10^k`: the
/// digits spell the same integer, over `k` more fraction digits.
pub proof fn lemma_shift_down_value(m: Numeral, k: nat)
    ensures
        numerator(shift_down(m, k)) == numerator(m),
        shift_down(m, k).1.len() == m.1.len() + k,
{
    let r = shift_down(m, k);
    let w = m.0.len();
    if k <= w {
        assert(r.0 + r.1 =~= m.0 + m.1);
    } else {
        assert(r.0 + r.1 =~= zeros((k - w) as nat) + (m.0 + m.1));
        lemma_digits_value_zeros_before((k - w) as nat, m.0 + m.1);
    }
}

pub proof fn lemma_digits_value_bound(s: Seq<u8>)
    requires
        all_digits(s),
    ensures
        digits_value(s) < pow10(s.len()),
    decreases s.len(),
{
    if s.len() == 0 {
        assert(pow10(0) == 1);
    } else {
        let p = s.drop_last();
        assert(all_digits(p));
        lemma_digits_value_bound(p);
        let v = digits_value(p);
        let q = pow10(p.len());
        assert(pow10(s.len()) == 10 * q);
        assert(v * 10 + s.last() < 10 * q) by (nonlinear_arith)
            requires
                v < q,
                s.last() <= 9,
        ;
    }
}

pub proof fn lemma_fixed_digits_shape(x: nat, len: nat)
    ensures
        fixed_digits(x, len).len() == len,
        all_digits(fixed_digits(x, len)),
        x < pow10(len) ==> digits_value(fixed_digits(x, len)) == x,
    decreases len,
{
    if len == 0 {
        assert(pow10(0) == 1);
    } else {
        let l1 = (len - 1) as nat;
        lemma_fixed_digits_shape(x / 10, l1);
        let f = fixed_digits(x, len);
        let p = fixed_digits(x / 10, l1);
        assert(f.drop_last() =~= p);
        lemma_fundamental_div_mod(x as int, 10);
        if x < pow10(len) {
            assert(pow10(len) == 10 * pow10(l1));
            lemma_multiply_divide_lt(x as int, 10, pow10(l1) as int);
            assert(digits_value(f) == digits_value(p) * 10 + f.last());
        }
    }
}

/// Multiplying by a digit multiplies the value: the numerator is multiplied
/// and the fraction keeps its length.
pub proof fn lemma_times_digit_value(m: Numeral, k: nat)
    requires
        numeral_wf(m),
        k <= 9,
    ensures
        numerator(times_digit_numeral(m, k)) == numerator(m) * k,
        times_digit_numeral(m, k).0.len() == m.0.len() + 1,
        times_digit_numeral(m, k).1.len() == m.1.len(),
        numeral_wf(times_digit_numeral(m, k)),
{
    let all = m.0 + m.1;
    let n = numerator(m);
    let len = all.len();
    assert(all_digits(all));
    lemma_digits_value_bound(all);
    assert(pow10(len + 1) == 10 * pow10(len));
    assert(n * k < pow10(len + 1)) by (nonlinear_arith)
        requires
            n < pow10(len),
            k <= 9,
            pow10(len + 1) == 10 * pow10(len),
    ;
    let d = fixed_digits(n * k, len + 1);
    lemma_fixed_digits_shape(n * k, len + 1);
    let r = times_digit_numeral(m, k);
    assert(r.0 + r.1 =~= d);
}

} // verus!
