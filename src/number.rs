//! Exact numbers of the language: rationals with 64-bit parts, together with
//! the two infinities and NaN that division by zero produces.
use vstd::prelude::*;

verus! {

/// A number of the language.
///
/// `Ratio` is the rational `num / den`; a well-formed one has `den > 0` and
/// `num > i64::MIN`, so that negation never overflows.
#[derive(Debug, Clone, Copy, PartialEq, Eq, Structural)]
pub enum Num {
    Ratio { num: i64, den: i64 },
    Infinity,
    NegInfinity,
    NaN,
}

/// Greatest common divisor, by Euclid's algorithm.
pub open spec fn gcd(a: nat, b: nat) -> nat
    decreases b,
{
    if b == 0 {
        a
    } else {
        gcd(b, a % b)
    }
}

/// The gcd of two numbers, not both zero, is positive and divides both.
pub proof fn lemma_gcd_divides(a: nat, b: nat)
    requires
        a > 0 || b > 0,
    ensures
        gcd(a, b) > 0,
        a % gcd(a, b) == 0,
        b % gcd(a, b) == 0,
    decreases b,
{
    if b > 0 {
        let r = a % b;
        lemma_gcd_divides(b, r);
        let g = gcd(b, r);
        assert(gcd(a, b) == g);
        let q = a / b;
        let k = b / g;
        let m = r / g;
        vstd::arithmetic::div_mod::lemma_fundamental_div_mod(a as int, b as int);
        vstd::arithmetic::div_mod::lemma_fundamental_div_mod(b as int, g as int);
        vstd::arithmetic::div_mod::lemma_fundamental_div_mod(r as int, g as int);
        assert(a == q * b + r);
        assert(b == g * k);
        assert(r == g * m);
        assert(a == g * (q * k + m)) by (nonlinear_arith)
            requires
                a == q * b + r,
                b == g * k,
                r == g * m,
        ;
        vstd::arithmetic::div_mod::lemma_mod_multiples_basic((q * k + m) as int, g as int);
    }
}

pub open spec fn abs(n: int) -> nat {
    if n < 0 {
        (-n) as nat
    } else {
        n as nat
    }
}

/// The well-formed number equal to `n / d` in lowest terms, if its parts fit
/// in 64 bits.
pub open spec fn norm(n: int, d: int) -> Option<Num>
    recommends
        d > 0,
{
    let g = gcd(abs(n), d as nat);
    let m = abs(n) / g;
    let e = d / (g as int);
    if m <= i64::MAX && e <= i64::MAX {
        Some(Num::Ratio { num: (if n < 0 { -m } else { m as int }) as i64, den: e as i64 })
    } else {
        None
    }
}

impl Num {
    pub open spec fn wf(self) -> bool {
        match self {
            Num::Ratio { num, den } => den > 0 && num > i64::MIN,
            _ => true,
        }
    }
}

fn gcd_exec(a: u128, b: u128) -> (g: u128)
    ensures
        g == gcd(a as nat, b as nat),
{
    let mut x = a;
    let mut y = b;
    while y != 0
        invariant
            gcd(x as nat, y as nat) == gcd(a as nat, b as nat),
        decreases y,
    {
        let r = x % y;
        x = y;
        y = r;
    }
    x
}

/// Builds the number `(-1)^neg * mag / den` in lowest terms.
fn normalize(neg: bool, mag: u128, den: u128) -> (r: Option<Num>)
    requires
        den > 0,
    ensures
        r == norm(if neg { -(mag as int) } else { mag as int }, den as int),
        r matches Some(x) ==> x.wf(),
{
    let ghost n: int = if neg { -(mag as int) } else { mag as int };
    assert(abs(n) == mag as nat);
    proof { lemma_gcd_divides(mag as nat, den as nat); }
    let g = gcd_exec(mag, den);
    let m = mag / g;
    let e = den / g;
    if m <= i64::MAX as u128 && e <= i64::MAX as u128 {
        proof {
            vstd::arithmetic::div_mod::lemma_fundamental_div_mod(den as int, g as int);
            assert(e > 0) by (nonlinear_arith)
                requires den == g * e + 0, den > 0, g > 0, e >= 0;
        }
        let mi = m as i64;
        let num = if neg { -mi } else { mi };
        Some(Num::Ratio { num, den: e as i64 })
    } else {
        None
    }
}


/// `n / d` in lowest terms, from 128-bit parts.
fn ratio(n: i128, d: i128) -> (r: Option<Num>)
    requires
        d > 0,
        n > i128::MIN,
    ensures
        r == norm(n as int, d as int),
        r matches Some(x) ==> x.wf(),
{
    let neg = n < 0;
    let mag: u128 = if neg { (-n) as u128 } else { n as u128 };
    normalize(neg, mag, d as u128)
}

pub open spec fn is_zero(x: Num) -> bool {
    x matches Num::Ratio { num: 0, .. }
}

pub open spec fn is_negative(x: Num) -> bool {
    match x {
        Num::Ratio { num, .. } => num < 0,
        Num::NegInfinity => true,
        _ => false,
    }
}

/// The infinity of the given sign.
pub open spec fn infinity(negative: bool) -> Num {
    if negative {
        Num::NegInfinity
    } else {
        Num::Infinity
    }
}

/// Negation; `None` never occurs for a well-formed number.
pub open spec fn spec_neg(a: Num) -> Num {
    match a {
        Num::Ratio { num, den } => Num::Ratio { num: (-num) as i64, den },
        Num::Infinity => Num::NegInfinity,
        Num::NegInfinity => Num::Infinity,
        Num::NaN => Num::NaN,
    }
}

/// Sum, with the IEEE rules for infinities and NaN; `None` when the exact
/// result does not fit.
pub open spec fn spec_add(a: Num, b: Num) -> Option<Num> {
    match (a, b) {
        (Num::NaN, _) | (_, Num::NaN) => Some(Num::NaN),
        (Num::Infinity, Num::NegInfinity) | (Num::NegInfinity, Num::Infinity) => Some(Num::NaN),
        (Num::Infinity, _) | (_, Num::Infinity) => Some(Num::Infinity),
        (Num::NegInfinity, _) | (_, Num::NegInfinity) => Some(Num::NegInfinity),
        (Num::Ratio { num: n1, den: d1 }, Num::Ratio { num: n2, den: d2 }) => norm(
            n1 * d2 + n2 * d1,
            d1 * d2,
        ),
    }
}

pub open spec fn spec_sub(a: Num, b: Num) -> Option<Num> {
    spec_add(a, spec_neg(b))
}

/// Product, with the IEEE rules: an infinity times zero is NaN.
pub open spec fn spec_mul(a: Num, b: Num) -> Option<Num> {
    match (a, b) {
        (Num::NaN, _) | (_, Num::NaN) => Some(Num::NaN),
        (Num::Ratio { num: n1, den: d1 }, Num::Ratio { num: n2, den: d2 }) => norm(
            n1 * n2,
            d1 * d2,
        ),
        _ => if is_zero(a) || is_zero(b) {
            Some(Num::NaN)
        } else {
            Some(infinity(is_negative(a) != is_negative(b)))
        },
    }
}

/// Quotient, with the IEEE rules: a nonzero number over zero is an infinity
/// of its sign, zero over zero and infinity over infinity are NaN.
pub open spec fn spec_div(a: Num, b: Num) -> Option<Num> {
    match (a, b) {
        (Num::NaN, _) | (_, Num::NaN) => Some(Num::NaN),
        (Num::Ratio { num: n1, den: d1 }, Num::Ratio { num: n2, den: d2 }) => if n2 == 0 {
            if n1 == 0 {
                Some(Num::NaN)
            } else {
                Some(infinity(n1 < 0))
            }
        } else if n2 > 0 {
            norm(n1 * d2, d1 * n2)
        } else {
            norm(-(n1 * d2), d1 * -n2)
        },
        (Num::Ratio { .. }, _) => Some(Num::Ratio { num: 0, den: 1 }),
        (_, Num::Ratio { .. }) => Some(infinity(is_negative(a) != is_negative(b))),
        _ => Some(Num::NaN),
    }
}

/// Numeric equality: NaN equals nothing, rationals compare by value.
pub open spec fn spec_eq(a: Num, b: Num) -> bool {
    match (a, b) {
        (Num::Ratio { num: n1, den: d1 }, Num::Ratio { num: n2, den: d2 }) => n1 * d2 == n2 * d1,
        (Num::Infinity, Num::Infinity) => true,
        (Num::NegInfinity, Num::NegInfinity) => true,
        _ => false,
    }
}

/// Strict order: `-inf` below every rational, `inf` above, NaN unordered.
pub open spec fn spec_lt(a: Num, b: Num) -> bool {
    match (a, b) {
        (Num::Ratio { num: n1, den: d1 }, Num::Ratio { num: n2, den: d2 }) => n1 * d2 < n2 * d1,
        (Num::NegInfinity, Num::Ratio { .. }) => true,
        (Num::NegInfinity, Num::Infinity) => true,
        (Num::Ratio { .. }, Num::Infinity) => true,
        _ => false,
    }
}

impl Num {
    pub fn zero() -> (r: Num)
        ensures
            r == (Num::Ratio { num: 0, den: 1 }),
            r.wf(),
    {
        Num::Ratio { num: 0, den: 1 }
    }

    /// Whether the number is well formed, as `wf` says.
    pub fn is_wf(&self) -> (r: bool)
        ensures
            r == self.wf(),
    {
        match self {
            Num::Ratio { num, den } => *den > 0 && *num > i64::MIN,
            _ => true,
        }
    }

    pub fn is_zero(&self) -> (r: bool)
        ensures
            r == is_zero(*self),
    {
        matches!(self, Num::Ratio { num: 0, .. })
    }

    pub fn is_negative(&self) -> (r: bool)
        ensures
            r == is_negative(*self),
    {
        match self {
            Num::Ratio { num, .. } => *num < 0,
            Num::NegInfinity => true,
            _ => false,
        }
    }

    pub fn neg(&self) -> (r: Num)
        requires
            self.wf(),
        ensures
            r == spec_neg(*self),
            r.wf(),
    {
        match self {
            Num::Ratio { num, den } => Num::Ratio { num: -*num, den: *den },
            Num::Infinity => Num::NegInfinity,
            Num::NegInfinity => Num::Infinity,
            Num::NaN => Num::NaN,
        }
    }

    pub fn add(&self, b: &Num) -> (r: Option<Num>)
        requires
            self.wf(),
            b.wf(),
        ensures
            r == spec_add(*self, *b),
            r matches Some(x) ==> x.wf(),
    {
        match (self, b) {
            (Num::NaN, _) | (_, Num::NaN) => Some(Num::NaN),
            (Num::Infinity, Num::NegInfinity) | (Num::NegInfinity, Num::Infinity) => Some(Num::NaN),
            (Num::Infinity, _) | (_, Num::Infinity) => Some(Num::Infinity),
            (Num::NegInfinity, _) | (_, Num::NegInfinity) => Some(Num::NegInfinity),
            (Num::Ratio { num: n1, den: d1 }, Num::Ratio { num: n2, den: d2 }) => {
                let (n1, d1, n2, d2) = (*n1 as i128, *d1 as i128, *n2 as i128, *d2 as i128);
                assert(-(i64::MAX * i64::MAX) <= n1 * d2 <= i64::MAX * i64::MAX) by (nonlinear_arith)
                    requires i64::MIN < n1 <= i64::MAX, 0 < d2 <= i64::MAX;
                assert(-(i64::MAX * i64::MAX) <= n2 * d1 <= i64::MAX * i64::MAX) by (nonlinear_arith)
                    requires i64::MIN < n2 <= i64::MAX, 0 < d1 <= i64::MAX;
                assert(0 < d1 * d2 <= i64::MAX * i64::MAX) by (nonlinear_arith)
                    requires 0 < d1 <= i64::MAX, 0 < d2 <= i64::MAX;
                ratio(n1 * d2 + n2 * d1, d1 * d2)
            },
        }
    }

    pub fn sub(&self, b: &Num) -> (r: Option<Num>)
        requires
            self.wf(),
            b.wf(),
        ensures
            r == spec_sub(*self, *b),
            r matches Some(x) ==> x.wf(),
    {
        self.add(&b.neg())
    }

    pub fn mul(&self, b: &Num) -> (r: Option<Num>)
        requires
            self.wf(),
            b.wf(),
        ensures
            r == spec_mul(*self, *b),
            r matches Some(x) ==> x.wf(),
    {
        match (self, b) {
            (Num::NaN, _) | (_, Num::NaN) => Some(Num::NaN),
            (Num::Ratio { num: n1, den: d1 }, Num::Ratio { num: n2, den: d2 }) => {
                let (n1, d1, n2, d2) = (*n1 as i128, *d1 as i128, *n2 as i128, *d2 as i128);
                assert(-(i64::MAX * i64::MAX) <= n1 * n2 <= i64::MAX * i64::MAX) by (nonlinear_arith)
                    requires i64::MIN < n1 <= i64::MAX, i64::MIN < n2 <= i64::MAX;
                assert(0 < d1 * d2 <= i64::MAX * i64::MAX) by (nonlinear_arith)
                    requires 0 < d1 <= i64::MAX, 0 < d2 <= i64::MAX;
                ratio(n1 * n2, d1 * d2)
            },
            _ => if self.is_zero() || b.is_zero() {
                Some(Num::NaN)
            } else if self.is_negative() != b.is_negative() {
                Some(Num::NegInfinity)
            } else {
                Some(Num::Infinity)
            },
        }
    }

    pub fn div(&self, b: &Num) -> (r: Option<Num>)
        requires
            self.wf(),
            b.wf(),
        ensures
            r == spec_div(*self, *b),
            r matches Some(x) ==> x.wf(),
    {
        match (self, b) {
            (Num::NaN, _) | (_, Num::NaN) => Some(Num::NaN),
            (Num::Ratio { num: n1, den: d1 }, Num::Ratio { num: n2, den: d2 }) => {
                if *n2 == 0 {
                    if *n1 == 0 {
                        Some(Num::NaN)
                    } else if *n1 < 0 {
                        Some(Num::NegInfinity)
                    } else {
                        Some(Num::Infinity)
                    }
                } else {
                    let (n1, d1, n2, d2) = (*n1 as i128, *d1 as i128, *n2 as i128, *d2 as i128);
                    assert(-(i64::MAX * i64::MAX) <= n1 * d2 <= i64::MAX * i64::MAX) by (nonlinear_arith)
                        requires i64::MIN < n1 <= i64::MAX, 0 < d2 <= i64::MAX;
                    if n2 > 0 {
                        assert(0 < d1 * n2 <= i64::MAX * i64::MAX) by (nonlinear_arith)
                            requires 0 < d1 <= i64::MAX, 0 < n2 <= i64::MAX;
                        ratio(n1 * d2, d1 * n2)
                    } else {
                        assert(0 < d1 * -n2 <= i64::MAX * i64::MAX) by (nonlinear_arith)
                            requires 0 < d1 <= i64::MAX, 0 < -n2 <= i64::MAX;
                        ratio(-(n1 * d2), d1 * -n2)
                    }
                }
            },
            (Num::Ratio { .. }, _) => Some(Num::Ratio { num: 0, den: 1 }),
            (_, Num::Ratio { .. }) => if self.is_negative() != b.is_negative() {
                Some(Num::NegInfinity)
            } else {
                Some(Num::Infinity)
            },
            _ => Some(Num::NaN),
        }
    }

    pub fn num_eq(&self, b: &Num) -> (r: bool)
        requires
            self.wf(),
            b.wf(),
        ensures
            r == spec_eq(*self, *b),
    {
        match (self, b) {
            (Num::Ratio { num: n1, den: d1 }, Num::Ratio { num: n2, den: d2 }) => {
                let (n1, d1, n2, d2) = (*n1 as i128, *d1 as i128, *n2 as i128, *d2 as i128);
                assert(-(i64::MAX * i64::MAX) <= n1 * d2 <= i64::MAX * i64::MAX) by (nonlinear_arith)
                    requires i64::MIN < n1 <= i64::MAX, 0 < d2 <= i64::MAX;
                assert(-(i64::MAX * i64::MAX) <= n2 * d1 <= i64::MAX * i64::MAX) by (nonlinear_arith)
                    requires i64::MIN < n2 <= i64::MAX, 0 < d1 <= i64::MAX;
                n1 * d2 == n2 * d1
            },
            (Num::Infinity, Num::Infinity) => true,
            (Num::NegInfinity, Num::NegInfinity) => true,
            _ => false,
        }
    }

    pub fn num_lt(&self, b: &Num) -> (r: bool)
        requires
            self.wf(),
            b.wf(),
        ensures
            r == spec_lt(*self, *b),
    {
        match (self, b) {
            (Num::Ratio { num: n1, den: d1 }, Num::Ratio { num: n2, den: d2 }) => {
                let (n1, d1, n2, d2) = (*n1 as i128, *d1 as i128, *n2 as i128, *d2 as i128);
                assert(-(i64::MAX * i64::MAX) <= n1 * d2 <= i64::MAX * i64::MAX) by (nonlinear_arith)
                    requires i64::MIN < n1 <= i64::MAX, 0 < d2 <= i64::MAX;
                assert(-(i64::MAX * i64::MAX) <= n2 * d1 <= i64::MAX * i64::MAX) by (nonlinear_arith)
                    requires i64::MIN < n2 <= i64::MAX, 0 < d1 <= i64::MAX;
                n1 * d2 < n2 * d1
            },
            (Num::NegInfinity, Num::Ratio { .. }) => true,
            (Num::NegInfinity, Num::Infinity) => true,
            (Num::Ratio { .. }, Num::Infinity) => true,
            _ => false,
        }
    }
}


pub open spec fn is_digit(c: char) -> bool {
    '0' <= c && c <= '9'
}

pub open spec fn digit_val(c: char) -> nat {
    (c as int - '0' as int) as nat
}

pub open spec fn digit_char(d: nat) -> char {
    seq!['0', '1', '2', '3', '4', '5', '6', '7', '8', '9'][d as int]
}

/// The value of a run of decimal digits.
pub open spec fn digits_val(s: Seq<char>) -> nat
    decreases s.len(),
{
    if s.len() == 0 {
        0
    } else {
        digits_val(s.drop_last()) * 10 + digit_val(s.last())
    }
}

pub open spec fn pow10(k: nat) -> nat
    decreases k,
{
    if k == 0 {
        1
    } else {
        10 * pow10((k - 1) as nat)
    }
}

/// The number written by the digits `digits` with the last `scale` of them
/// after the decimal point; `None` when the digits or the scale exceed 128
/// bits, or the value does not fit.
pub open spec fn decimal_value(digits: Seq<char>, scale: nat) -> Option<Num> {
    if digits_val(digits) <= u128::MAX && pow10(scale) <= u128::MAX {
        norm(digits_val(digits) as int, pow10(scale) as int)
    } else {
        None
    }
}

proof fn lemma_digits_val_prefix(s: Seq<char>, i: int)
    requires
        0 <= i <= s.len(),
    ensures
        digits_val(s.take(i)) <= digits_val(s),
    decreases s.len(),
{
    if i < s.len() {
        assert(s.drop_last().take(i) == s.take(i));
        lemma_digits_val_prefix(s.drop_last(), i);
    } else {
        assert(s.take(i) == s);
    }
}

proof fn lemma_pow10_mono(i: nat, k: nat)
    requires
        i <= k,
    ensures
        1 <= pow10(i) <= pow10(k),
    decreases k,
{
    if i < k {
        lemma_pow10_mono(i, (k - 1) as nat);
    } else if k > 0 {
        lemma_pow10_mono(0, (k - 1) as nat);
    }
}

/// Builds the number written by `digits` with `scale` of them after the
/// decimal point.
pub fn decimal(digits: &Vec<char>, scale: usize) -> (r: Option<Num>)
    requires
        forall|i: int| 0 <= i < digits@.len() ==> is_digit(#[trigger] digits@[i]),
    ensures
        r == decimal_value(digits@, scale as nat),
        r matches Some(x) ==> x.wf(),
{
    let mut m: u128 = 0;
    let mut i: usize = 0;
    while i < digits.len()
        invariant
            i <= digits@.len(),
            m == digits_val(digits@.take(i as int)),
            forall|j: int| 0 <= j < digits@.len() ==> is_digit(#[trigger] digits@[j]),
        decreases digits@.len() - i,
    {
        let c = digits[i];
        assert(digits@.take(i + 1).drop_last() == digits@.take(i as int));
        let d = (c as u32 - '0' as u32) as u128;
        if m > (u128::MAX - d) / 10 {
            proof {
                lemma_digits_val_prefix(digits@, i + 1);
            }
            return None;
        }
        m = m * 10 + d;
        i = i + 1;
    }
    assert(digits@.take(i as int) == digits@);
    let mut p: u128 = 1;
    let mut k: usize = 0;
    while k < scale
        invariant
            k <= scale,
            p == pow10(k as nat),
        decreases scale - k,
    {
        if p > u128::MAX / 10 {
            proof {
                lemma_pow10_mono((k + 1) as nat, scale as nat);
            }
            return None;
        }
        p = p * 10;
        k = k + 1;
    }
    proof {
        lemma_pow10_mono(0, scale as nat);
    }
    normalize(false, m, p)
}

/// The length of the run of digits at the start of `s`.
pub open spec fn digit_run(s: Seq<char>) -> nat
    decreases s.len(),
{
    if s.len() > 0 && is_digit(s[0]) {
        1 + digit_run(s.drop_first())
    } else {
        0
    }
}

/// The unsigned number written in `s`: digits, then optionally a point and
/// more digits, with at least one digit in all.
pub open spec fn unsigned_value(s: Seq<char>) -> Option<Num> {
    let i = digit_run(s) as int;
    if i == s.len() {
        if i > 0 {
            decimal_value(s, 0)
        } else {
            None
        }
    } else if s[i as int] == '.' && digit_run(s.skip(i + 1 as int)) == s.len() - i - 1 && s.len() > 1 {
        decimal_value(s.take(i as int) + s.skip(i + 1 as int), (s.len() - i - 1) as nat)
    } else {
        None
    }
}

/// The number that a string of the language converts to: an optional sign,
/// then an unsigned decimal number.
pub open spec fn parse_value(s: Seq<char>) -> Option<Num> {
    if s.len() > 0 && s[0] == '-' {
        match unsigned_value(s.drop_first()) {
            Some(x) => Some(spec_neg(x)),
            None => None,
        }
    } else if s.len() > 0 && s[0] == '+' {
        unsigned_value(s.drop_first())
    } else {
        unsigned_value(s)
    }
}


proof fn lemma_digit_run(s: Seq<char>, i: int)
    requires
        0 <= i <= s.len(),
        forall|j: int| 0 <= j < i ==> is_digit(#[trigger] s[j]),
        i == s.len() || !is_digit(s[i]),
    ensures
        digit_run(s) == i,
    decreases i,
{
    if i > 0 {
        lemma_digit_run(s.drop_first(), i - 1);
    }
}

/// Copies `s[from..to]` onto the end of `out`.
pub(crate) fn push_range(out: &mut Vec<char>, s: &Vec<char>, from: usize, to: usize)
    requires
        from <= to <= s@.len(),
    ensures
        final(out)@ == old(out)@ + s@.subrange(from as int, to as int),
{
    let mut i = from;
    while i < to
        invariant
            from <= i <= to <= s@.len(),
            out@ == old(out)@ + s@.subrange(from as int, i as int),
        decreases to - i,
    {
        out.push(s[i]);
        i = i + 1;
        assert(out@ == old(out)@ + s@.subrange(from as int, i as int));
    }
}

/// The number written in `s` without a sign, as `unsigned_value` says.
fn unsigned(s: &Vec<char>) -> (r: Option<Num>)
    ensures
        r == unsigned_value(s@),
        r matches Some(x) ==> x.wf(),
{
    let n = s.len();
    let mut i: usize = 0;
    while i < n && s[i] >= '0' && s[i] <= '9'
        invariant
            i <= n == s@.len(),
            forall|j: int| 0 <= j < i ==> is_digit(#[trigger] s@[j]),
        decreases n - i,
    {
        i = i + 1;
    }
    proof {
        lemma_digit_run(s@, i as int);
    }
    if i == n {
        if i > 0 {
            return decimal(s, 0);
        }
        return None;
    }
    if s[i] != '.' || n <= 1 {
        return None;
    }
    let mut k: usize = i + 1;
    while k < n && s[k] >= '0' && s[k] <= '9'
        invariant
            i + 1 <= k <= n == s@.len(),
            forall|j: int| i + 1 <= j < k ==> is_digit(#[trigger] s@[j]),
        decreases n - k,
    {
        k = k + 1;
    }
    let ghost rest = s@.skip(i + 1 as int);
    proof {
        assert forall|j: int| 0 <= j < k - i - 1 implies is_digit(#[trigger] rest[j]) by {
            assert(rest[j] == s@[j + i + 1]);
        }
        lemma_digit_run(rest, k - i - 1);
    }
    if k < n {
        return None;
    }
    let mut digits: Vec<char> = Vec::new();
    push_range(&mut digits, s, 0, i);
    push_range(&mut digits, s, i + 1, n);
    assert(s@.subrange(0, i as int) == s@.take(i as int));
    assert(s@.subrange(i + 1 as int, n as int) == rest);
    assert forall|j: int| 0 <= j < digits@.len() implies is_digit(#[trigger] digits@[j]) by {
        if j < i {
            assert(digits@[j] == s@[j]);
        } else {
            assert(digits@[j] == s@[j + 1]);
        }
    }
    decimal(&digits, n - i - 1)
}

impl Num {
    /// The number that the text `s` converts to, as `parse_value` says.
    pub fn parse(s: &Vec<char>) -> (r: Option<Num>)
        ensures
            r == parse_value(s@),
            r matches Some(x) ==> x.wf(),
    {
        if s.len() > 0 && (s[0] == '-' || s[0] == '+') {
            let mut body: Vec<char> = Vec::new();
            push_range(&mut body, s, 1, s.len());
            assert(body@ == s@.drop_first());
            let u = unsigned(&body);
            if s[0] == '-' {
                match u {
                    Some(x) => Some(x.neg()),
                    None => None,
                }
            } else {
                u
            }
        } else {
            unsigned(s)
        }
    }
}


/// The decimal digits of `n`.
pub open spec fn nat_text(n: nat) -> Seq<char>
    decreases n,
{
    if n < 10 {
        seq![digit_char(n)]
    } else {
        nat_text(n / 10).push(digit_char(n % 10))
    }
}

/// The digits of the fraction `r / d` after the point, at most `k` of them,
/// ending where the expansion terminates.
pub open spec fn frac_text(r: nat, d: nat, k: nat) -> Seq<char>
    decreases k,
{
    if k == 0 || r == 0 || d == 0 {
        seq![]
    } else {
        seq![digit_char((r * 10) / d)] + frac_text((r * 10) % d, d, (k - 1) as nat)
    }
}

/// The most digits written after the decimal point.
pub const FRACTION_DIGITS: u64 = 16;

/// How a number is written: an integer without a point, other rationals
/// with their decimal expansion cut after `FRACTION_DIGITS` digits.
pub open spec fn num_text(x: Num) -> Seq<char> {
    match x {
        Num::NaN => seq!['N', 'a', 'N'],
        Num::Infinity => seq!['i', 'n', 'f'],
        Num::NegInfinity => seq!['-', 'i', 'n', 'f'],
        Num::Ratio { num, den } => {
            let m = abs(num as int);
            let sign = if num < 0 { seq!['-'] } else { seq![] };
            let whole = sign + nat_text(m / (den as nat));
            if m % (den as nat) == 0 {
                whole
            } else {
                whole + seq!['.'] + frac_text(m % (den as nat), den as nat, FRACTION_DIGITS as nat)
            }
        },
    }
}

fn digit(d: u64) -> (c: char)
    requires
        d < 10,
    ensures
        c == digit_char(d as nat),
{
    let digits = ['0', '1', '2', '3', '4', '5', '6', '7', '8', '9'];
    assert(digits@ == seq!['0', '1', '2', '3', '4', '5', '6', '7', '8', '9']);
    digits[d as usize]
}

fn push_nat_text(n: u64, out: &mut Vec<char>)
    ensures
        final(out)@ == old(out)@ + nat_text(n as nat),
    decreases n,
{
    if n >= 10 {
        push_nat_text(n / 10, out);
    }
    out.push(digit(n % 10));
}

fn push_frac_text(r: u64, d: u64, k: u64, out: &mut Vec<char>)
    requires
        r < d,
    ensures
        final(out)@ == old(out)@ + frac_text(r as nat, d as nat, k as nat),
    decreases k,
{
    if k == 0 || r == 0 {
        return;
    }
    let t = r as u128 * 10;
    let q = t / (d as u128);
    assert(q < 10) by (nonlinear_arith)
        requires t == r * 10, r < d, q == t / (d as u128);
    let rest = (t % (d as u128)) as u64;
    out.push(digit(q as u64));
    push_frac_text(rest, d, k - 1, out);
    assert(out@ =~= old(out)@ + frac_text(r as nat, d as nat, k as nat));
}

impl Num {
    /// The text of the number, as `num_text` says.
    pub fn text(&self) -> (r: Vec<char>)
        requires
            self.wf(),
        ensures
            r@ == num_text(*self),
    {
        let mut out: Vec<char> = Vec::new();
        match self {
            Num::NaN => {
                out.push('N');
                out.push('a');
                out.push('N');
            },
            Num::Infinity => {
                out.push('i');
                out.push('n');
                out.push('f');
            },
            Num::NegInfinity => {
                out.push('-');
                out.push('i');
                out.push('n');
                out.push('f');
            },
            Num::Ratio { num, den } => {
                let m: u64 = if *num < 0 { (-*num) as u64 } else { *num as u64 };
                let d = *den as u64;
                if *num < 0 {
                    out.push('-');
                }
                push_nat_text(m / d, &mut out);
                if m % d != 0 {
                    out.push('.');
                    push_frac_text(m % d, d, FRACTION_DIGITS, &mut out);
                }
            },
        }
        assert(out@ =~= num_text(*self));
        out
    }
}

} // verus!
