//! Decimal numbers of at most 96 bits of mantissa and 28 decimal places.
//!
//! A `Decimal` is viewed as the pair of its mantissa `m` and its scale `s`; it stands for
//! the number `m / 10^s`. Zero has no sign. Comparison and arithmetic are those of the
//! `rust_decimal` crate.

use vstd::prelude::*;

use crate::text::{all_digits, digits_value, int_text, is_digit, lemma_nat_text, nat_string, nat_text};

verus! {

/// A mantissa and a scale.
pub type Num = (int, nat);

/// One more than the largest magnitude of a mantissa, 2^96.
pub open spec fn limit() -> int {
    79228162514264337593543950336
}

/// The largest magnitude of a mantissa.
pub const MAX_MANTISSA: i128 = 79228162514264337593543950335;

/// The most decimal places.
pub const MAX_SCALE: u32 = 28;

/// 10 to the power `n`.
pub open spec fn pow10(n: nat) -> int
    decreases n,
{
    if n == 0 {
        1
    } else {
        10 * pow10((n - 1) as nat)
    }
}

pub proof fn lemma_pow10_positive(n: nat)
    ensures
        pow10(n) >= 1,
    decreases n,
{
    if n > 0 {
        lemma_pow10_positive((n - 1) as nat);
    }
}

/// Whether two pairs stand for one number.
pub open spec fn same_value(a: Num, b: Num) -> bool {
    a.0 * pow10(b.1) == b.0 * pow10(a.1)
}

/// Whether `a` stands for the smaller number.
pub open spec fn less(a: Num, b: Num) -> bool {
    a.0 * pow10(b.1) < b.0 * pow10(a.1)
}

/// The integer nearest to `n / d`, the even one where two are equally near.
pub open spec fn half_even(n: int, d: int) -> int {
    let q = n / d;
    let r = n % d;
    if 2 * r < d || (2 * r == d && q % 2 == 0) {
        q
    } else {
        q + 1
    }
}

/// `n` with at most `dp` decimal places, rounded half to even.
pub open spec fn rounded(n: Num, dp: nat) -> Num {
    if n.1 <= dp {
        n
    } else {
        (half_even(n.0, pow10((n.1 - dp) as nat)), dp)
    }
}

/// `n` without the zeros that end its decimal places.
pub open spec fn normal(n: Num) -> Num
    decreases n.1,
{
    if n.0 == 0 {
        (0, 0)
    } else if n.1 > 0 && n.0 % 10 == 0 {
        normal((n.0 / 10, (n.1 - 1) as nat))
    } else {
        n
    }
}

pub open spec fn fits(n: Num) -> bool {
    -limit() < n.0 < limit() && n.1 <= 28
}

pub open spec fn max_scale(a: Num, b: Num) -> nat {
    if a.1 < b.1 {
        b.1
    } else {
        a.1
    }
}

/// The mantissa of `n` at a scale of `s`, which is not below its own.
pub open spec fn aligned(n: Num, s: nat) -> int {
    n.0 * pow10((s - n.1) as nat)
}

pub open spec fn small(m: int) -> bool {
    -limit() < m < limit()
}

/// Whether `a` and `b`, and what `+` or `-` gives of them, fit at the larger of their scales.
pub open spec fn sum_fits(a: Num, b: Num, sum: int) -> bool {
    let s = max_scale(a, b);
    small(aligned(a, s)) && small(aligned(b, s)) && small(sum)
}

pub open spec fn exact_sum(a: Num, b: Num) -> Num {
    let s = max_scale(a, b);
    (aligned(a, s) + aligned(b, s), s)
}

pub open spec fn exact_difference(a: Num, b: Num) -> Num {
    let s = max_scale(a, b);
    (aligned(a, s) - aligned(b, s), s)
}

pub open spec fn exact_product(a: Num, b: Num) -> Num {
    (a.0 * b.0, a.1 + b.1)
}

/// What `Decimal::checked_add` of rust_decimal gives.
pub uninterp spec fn sum_of(a: Num, b: Num) -> Option<Num>;

/// What `Decimal::checked_sub` of rust_decimal gives.
pub uninterp spec fn difference_of(a: Num, b: Num) -> Option<Num>;

/// What `Decimal::checked_mul` of rust_decimal gives.
pub uninterp spec fn product_of(a: Num, b: Num) -> Option<Num>;

/// What `Decimal::checked_div` of rust_decimal gives.
pub uninterp spec fn quotient_of(a: Num, b: Num) -> Option<Num>;

/// What `Decimal::from_str` of rust_decimal reads in a text.
pub uninterp spec fn number_in(text: Seq<char>) -> Option<Num>;

/// The number that a pair stands for.
pub open spec fn value(n: Num) -> real {
    n.0 as real / pow10(n.1) as real
}

/// How far two numbers lie apart.
pub open spec fn distance(a: real, b: real) -> real {
    if a < b {
        b - a
    } else {
        a - b
    }
}

/// Whether `n` is as near to a number as the digits of a `Decimal` allow: it is off by at most one unit of
/// the twenty-eighth decimal place and one part in 10^27.
pub open spec fn near(exact: real, n: Num) -> bool {
    distance(value(n), exact) * 10000000000000000000000000000real <= 1real + 10real * distance(exact, 0real)
}

/// What `+` of two numbers gives: near their sum, and the sum itself where it fits.
#[verifier::opaque]
pub open spec fn added(a: Num, b: Num) -> Option<Num> {
    match sum_of(a, b) {
        Some(s) if near(value(a) + value(b), s) && s.1 <= max_scale(a, b) && (sum_fits(a, b, exact_sum(a, b).0) ==> same_value(s, exact_sum(a, b))) => Some(s),
        _ => if sum_fits(a, b, exact_sum(a, b).0) {
            Some(exact_sum(a, b))
        } else {
            None
        },
    }
}

/// What `-` of two numbers gives: near their difference, and the difference itself where it fits.
#[verifier::opaque]
pub open spec fn subtracted(a: Num, b: Num) -> Option<Num> {
    match difference_of(a, b) {
        Some(s) if near(value(a) - value(b), s) && s.1 <= max_scale(a, b) && (sum_fits(a, b, exact_difference(a, b).0) ==> same_value(s, exact_difference(a, b))) => Some(s),
        _ => if sum_fits(a, b, exact_difference(a, b).0) {
            Some(exact_difference(a, b))
        } else {
            None
        },
    }
}

/// What `*` of two numbers gives: near their product, and the product itself where it fits.
#[verifier::opaque]
pub open spec fn multiplied(a: Num, b: Num) -> Option<Num> {
    match product_of(a, b) {
        Some(p) if near(value(a) * value(b), p) && (fits(exact_product(a, b)) ==> same_value(p, exact_product(a, b))) => Some(p),
        _ => if fits(exact_product(a, b)) {
            Some(exact_product(a, b))
        } else {
            None
        },
    }
}

/// What `/` of two numbers gives: near their quotient; nothing for a division by zero.
#[verifier::opaque]
pub open spec fn divided(a: Num, b: Num) -> Option<Num> {
    match quotient_of(a, b) {
        Some(q) if b.0 != 0 && near(value(a) / value(b), q) => Some(q),
        _ => None,
    }
}

/// What an operation gives is as near to the exact result as the digits allow.
pub proof fn law_arithmetic_near(a: Num, b: Num)
    ensures
        added(a, b) matches Some(n) ==> near(value(a) + value(b), n),
        subtracted(a, b) matches Some(n) ==> near(value(a) - value(b), n),
        multiplied(a, b) matches Some(n) ==> near(value(a) * value(b), n),
        divided(a, b) matches Some(n) ==> b.0 != 0 && near(value(a) / value(b), n),
{
    reveal(added);
    reveal(subtracted);
    reveal(multiplied);
    reveal(divided);
    lemma_exact_values(a, b);
}

/// Where the digits suffice, sums, differences and products are exact.
pub proof fn law_arithmetic_exact(a: Num, b: Num)
    ensures
        sum_fits(a, b, exact_sum(a, b).0) ==> added(a, b) is Some && value(added(a, b)->0) == value(a) + value(b),
        sum_fits(a, b, exact_difference(a, b).0) ==> subtracted(a, b) is Some && value(subtracted(a, b)->0) == value(a) - value(b),
        fits(exact_product(a, b)) ==> multiplied(a, b) is Some && value(multiplied(a, b)->0) == value(a) * value(b),
{
    reveal(added);
    reveal(subtracted);
    reveal(multiplied);
    lemma_exact_values(a, b);
    if sum_fits(a, b, exact_sum(a, b).0) {
        lemma_same_value(added(a, b)->0, exact_sum(a, b));
    }
    if sum_fits(a, b, exact_difference(a, b).0) {
        lemma_same_value(subtracted(a, b)->0, exact_difference(a, b));
    }
    if fits(exact_product(a, b)) {
        lemma_same_value(multiplied(a, b)->0, exact_product(a, b));
    }
}

/// The product of two whole numbers, as a number.
pub proof fn lemma_whole_product(a: int, b: int)
    ensures
        (a * b) as real == (a as real) * (b as real),
{
    assert((a * b) as real == (a as real) * (b as real)) by (nonlinear_arith);
}

/// Whether a number has at most eight decimal places and lies within `bound`: such numbers are added and
/// subtracted exactly.
pub open spec fn tame(n: Num, bound: real) -> bool {
    n.1 <= 8 && distance(value(n), 0real) <= bound
}

/// Sums and differences of numbers of at most eight decimal places are exact.
pub proof fn law_sums_exact(a: Num, b: Num)
    requires
        tame(a, 100000000000000000000real),
        tame(b, 100000000000000000000real),
    ensures
        added(a, b) matches Some(s) && s.1 <= 8 && value(s) == value(a) + value(b),
        subtracted(a, b) matches Some(s) && s.1 <= 8 && value(s) == value(a) - value(b),
{
    let s = max_scale(a, b);
    lemma_aligned_size(a, s);
    lemma_aligned_size(b, s);
    law_arithmetic_exact(a, b);
    reveal(added);
    reveal(subtracted);
}

proof fn lemma_aligned_size(n: Num, s: nat)
    requires
        tame(n, 100000000000000000000real),
        n.1 <= s <= 8,
    ensures
        -10000000000000000000000000000 <= aligned(n, s) <= 10000000000000000000000000000,
{
    lemma_aligned(n, s);
    lemma_pow10_positive(s);
    reveal_with_fuel(pow10, 10);
    let (m, p) = (aligned(n, s) as real, pow10(s) as real);
    let v = m / p;
    assert(v * p == m) by (nonlinear_arith)
        requires
            p >= 1real,
            v == m / p,
    ;
    assert(-10000000000000000000000000000real <= m <= 10000000000000000000000000000real) by (nonlinear_arith)
        requires
            v * p == m,
            -100000000000000000000real <= v <= 100000000000000000000real,
            1real <= p <= 100000000real,
    ;
}

pub proof fn lemma_same_value(a: Num, b: Num)
    ensures
        same_value(a, b) == (value(a) == value(b)),
        less(a, b) == (value(a) < value(b)),
{
    lemma_pow10_positive(a.1);
    lemma_pow10_positive(b.1);
    let (m, n) = (a.0 as real, b.0 as real);
    let (p, q) = (pow10(a.1) as real, pow10(b.1) as real);
    lemma_whole_product(a.0, pow10(b.1));
    lemma_whole_product(b.0, pow10(a.1));
    assert((m * q == n * p) == (m / p == n / q)) by (nonlinear_arith)
        requires
            p > 0real,
            q > 0real,
    ;
    assert((m * q < n * p) == (m / p < n / q)) by (nonlinear_arith)
        requires
            p > 0real,
            q > 0real,
    ;
}

pub proof fn lemma_pow10_sum(a: nat, b: nat)
    ensures
        pow10(a + b) == pow10(a) * pow10(b),
    decreases b,
{
    if b > 0 {
        lemma_pow10_sum(a, (b - 1) as nat);
        assert(10 * (pow10(a) * pow10((b - 1) as nat)) == pow10(a) * (10 * pow10((b - 1) as nat))) by (nonlinear_arith);
    }
}

/// A number at a larger scale stays what it is.
proof fn lemma_aligned(n: Num, s: nat)
    requires
        n.1 <= s,
    ensures
        value((aligned(n, s), s)) == value(n),
{
    let d = (s - n.1) as nat;
    lemma_pow10_sum(n.1, d);
    lemma_pow10_positive(n.1);
    lemma_pow10_positive(d);
    lemma_pow10_positive(s);
    let (m, p, q) = (n.0 as real, pow10(n.1) as real, pow10(d) as real);
    lemma_whole_product(n.0, pow10(d));
    lemma_whole_product(pow10(n.1), pow10(d));
    assert((m * q) / (p * q) == m / p) by (nonlinear_arith)
        requires
            p > 0real,
            q > 0real,
    ;
}

proof fn lemma_exact_values(a: Num, b: Num)
    ensures
        value(exact_sum(a, b)) == value(a) + value(b),
        value(exact_difference(a, b)) == value(a) - value(b),
        value(exact_product(a, b)) == value(a) * value(b),
{
    let s = max_scale(a, b);
    lemma_aligned(a, s);
    lemma_aligned(b, s);
    lemma_pow10_positive(s);
    let (x, y, p) = (aligned(a, s) as real, aligned(b, s) as real, pow10(s) as real);
    assert((x + y) / p == x / p + y / p) by (nonlinear_arith)
        requires
            p > 0real,
    ;
    assert((x - y) / p == x / p - y / p) by (nonlinear_arith)
        requires
            p > 0real,
    ;
    assert(exact_sum(a, b).0 as real == x + y);
    assert(exact_difference(a, b).0 as real == x - y);
    lemma_pow10_sum(a.1, b.1);
    lemma_pow10_positive(a.1);
    lemma_pow10_positive(b.1);
    let (m, n, q, r) = (a.0 as real, b.0 as real, pow10(a.1) as real, pow10(b.1) as real);
    assert((m * n) / (q * r) == (m / q) * (n / r)) by (nonlinear_arith)
        requires
            q > 0real,
            r > 0real,
    ;
    lemma_whole_product(a.0, b.0);
    lemma_whole_product(pow10(a.1), pow10(b.1));
}

pub proof fn lemma_half_even_nearest(n: int, d: int)
    requires
        d > 0,
    ensures
        -d <= 2 * (half_even(n, d) * d - n) <= d,
{
    let (q, r) = (n / d, n % d);
    assert(n == q * d + r && 0 <= r < d) by (nonlinear_arith)
        requires
            d > 0,
            q == n / d,
            r == n % d,
    ;
    assert((q + 1) * d == q * d + d) by (nonlinear_arith);
}

/// Rounding moves a number by at most half a unit of its last decimal place.
pub proof fn law_rounded_nearest(n: Num, dp: nat)
    ensures
        2real * distance(value(rounded(n, dp)), value(n)) * (pow10(dp) as real) <= 1real,
{
    lemma_pow10_positive(dp);
    if n.1 > dp {
        let e = (n.1 - dp) as nat;
        let d = pow10(e);
        lemma_pow10_positive(e);
        lemma_pow10_sum(dp, e);
        lemma_half_even_nearest(n.0, d);
        let h = half_even(n.0, d);
        let (x, y, p, q) = (h as real, n.0 as real, pow10(dp) as real, d as real);
        lemma_whole_product(h, d);
        lemma_whole_product(pow10(dp), d);
        assert(-q <= 2real * (x * q - y) <= q);
        assert(x / p - y / (p * q) == (x * q - y) / (p * q)) by (nonlinear_arith)
            requires
                p > 0real,
                q > 0real,
        ;
        let t = (x * q - y) / (p * q);
        assert(t * p * q == x * q - y) by (nonlinear_arith)
            requires
                p > 0real,
                q > 0real,
                t == (x * q - y) / (p * q),
        ;
        assert(-1real <= 2real * t * p <= 1real) by (nonlinear_arith)
            requires
                q > 0real,
                -q <= 2real * (t * p * q) <= q,
        ;
        let far = distance(value(rounded(n, dp)), value(n));
        assert(far == t || far == -t);
        assert(2real * far * p <= 1real) by (nonlinear_arith)
            requires
                far == t || far == -t,
                -1real <= 2real * t * p <= 1real,
        ;
    } else {
        assert(2real * 0real * (pow10(dp) as real) == 0real) by (nonlinear_arith);
    }
}

pub proof fn lemma_value_whole(n: int)
    ensures
        value((n, 0)) == n as real,
{
    assert(pow10(0) == 1);
    let x = n as real;
    assert(x / 1real == x) by (nonlinear_arith);
}

/// Whether `n` is an exact number up to one unit of its decimal place `dp` and one part in
/// 10^(15 + dp).
pub open spec fn within(exact: real, n: Num, dp: nat) -> bool {
    distance(value(n), exact) * (pow10(dp) as real) <= 1real + distance(exact, 0real) / 1000000000000000real
}

/// A number that is near an exact one stays within a unit of it when it is rounded.
pub proof fn lemma_near_rounded(exact: real, n: Num, dp: nat)
    requires
        near(exact, n),
        dp <= 12,
    ensures
        within(exact, rounded(n, dp), dp),
{
    law_rounded_nearest(n, dp);
    lemma_pow10_positive(dp);
    assert(pow10(dp) <= 1000000000000) by {
        reveal_with_fuel(pow10, 14);
    }
    let p = pow10(dp) as real;
    let a = distance(value(rounded(n, dp)), value(n));
    let b = distance(value(n), exact);
    let c = distance(value(rounded(n, dp)), exact);
    let x = distance(exact, 0real);
    assert(c <= a + b);
    assert(c * p <= 1real + x / 1000000000000000real) by (nonlinear_arith)
        requires
            0real <= c <= a + b,
            2real * a * p <= 1real,
            b * 10000000000000000000000000000real <= 1real + 10real * x,
            0real <= b,
            0real <= x,
            1real <= p <= 1000000000000real,
    ;
}

pub open spec fn view_of(d: Option<Decimal>) -> Option<Num> {
    match d {
        Some(v) => Some(v@),
        None => None,
    }
}

#[derive(Debug, Clone, Copy)]
pub struct Decimal {
    mantissa: i128,
    scale: u32,
}

impl View for Decimal {
    type V = Num;

    closed spec fn view(&self) -> Num {
        (self.mantissa as int, self.scale as nat)
    }
}

impl Decimal {
    #[verifier::type_invariant]
    pub open spec fn inv(self) -> bool {
        fits(self@)
    }

    /// The number `mantissa / 10^scale`, where it fits.
    pub fn new(mantissa: i128, scale: u32) -> (r: Option<Decimal>)
        ensures
            view_of(r) == (if fits((mantissa as int, scale as nat)) {
                Some((mantissa as int, scale as nat))
            } else {
                None
            }),
    {
        if scale <= MAX_SCALE && -MAX_MANTISSA <= mantissa && mantissa <= MAX_MANTISSA {
            Some(Decimal { mantissa, scale })
        } else {
            None
        }
    }

    pub fn zero() -> (r: Decimal)
        ensures
            r@ == (0int, 0nat),
    {
        Decimal { mantissa: 0, scale: 0 }
    }

    pub fn one() -> (r: Decimal)
        ensures
            r@ == (1int, 0nat),
    {
        Decimal { mantissa: 1, scale: 0 }
    }

    pub fn from_int(n: i64) -> (r: Decimal)
        ensures
            r@ == (n as int, 0nat),
    {
        Decimal { mantissa: n as i128, scale: 0 }
    }

    /// A count of units of `10^-scale`.
    pub fn from_units(n: i64, scale: u32) -> (r: Decimal)
        requires
            scale <= 28,
        ensures
            r@ == (n as int, scale as nat),
    {
        Decimal { mantissa: n as i128, scale }
    }

    pub fn mantissa(self) -> (r: i128)
        ensures
            r == self@.0,
            fits(self@),
    {
        proof {
            use_type_invariant(&self);
        }
        self.mantissa
    }

    pub fn scale(self) -> (r: u32)
        ensures
            r == self@.1,
            fits(self@),
    {
        proof {
            use_type_invariant(&self);
        }
        self.scale
    }

    pub fn is_zero(self) -> (r: bool)
        ensures
            r == (self@.0 == 0),
    {
        self.mantissa == 0
    }

    pub fn is_negative(self) -> (r: bool)
        ensures
            r == (self@.0 < 0),
    {
        self.mantissa < 0
    }

    pub fn negated(self) -> (r: Decimal)
        ensures
            r@ == (-self@.0, self@.1),
    {
        proof {
            use_type_invariant(&self);
        }
        Decimal { mantissa: -self.mantissa, scale: self.scale }
    }

    pub fn abs(self) -> (r: Decimal)
        ensures
            r@ == ((if self@.0 < 0 { -self@.0 } else { self@.0 }), self@.1),
    {
        if self.mantissa < 0 {
            self.negated()
        } else {
            self
        }
    }

    /// `<` of rust_decimal's `Decimal` compares the numbers, whatever their scales.
    #[verifier::external_body]
    pub(crate) fn lt(self, other: Decimal) -> (r: bool)
        ensures
            r == less(self@, other@),
    {
        rust_decimal::Decimal::from_i128_with_scale(self.mantissa, self.scale)
            < rust_decimal::Decimal::from_i128_with_scale(other.mantissa, other.scale)
    }

    pub fn le(self, other: Decimal) -> (r: bool)
        ensures
            r == !less(other@, self@),
    {
        !other.lt(self)
    }

    pub fn same(self, other: Decimal) -> (r: bool)
        ensures
            r == same_value(self@, other@),
    {
        !self.lt(other) && !other.lt(self)
    }

    /// `Decimal::checked_add` of rust_decimal. The sum is rounded where its digits do not
    /// fit, and otherwise exact; it has no more decimal places than the two numbers.
    #[verifier::external_body]
    pub(crate) fn checked_add(self, other: Decimal) -> (r: Option<Decimal>)
        ensures
            view_of(r) == sum_of(self@, other@),
            view_of(r) == added(self@, other@),
            r matches Some(v) ==> near(value(self@) + value(other@), v@) && v@.1 <= max_scale(self@, other@),
            sum_fits(self@, other@, exact_sum(self@, other@).0) ==> r is Some && same_value(r->0@, exact_sum(self@, other@)),
    {
        rust_decimal::Decimal::from_i128_with_scale(self.mantissa, self.scale)
            .checked_add(rust_decimal::Decimal::from_i128_with_scale(other.mantissa, other.scale))
            .map(|d| Decimal { mantissa: d.mantissa(), scale: d.scale() })
    }

    /// `Decimal::checked_sub` of rust_decimal. The difference is rounded where its
    /// digits do not fit, and otherwise exact; it has no more decimal places than the two numbers.
    #[verifier::external_body]
    pub(crate) fn checked_sub(self, other: Decimal) -> (r: Option<Decimal>)
        ensures
            view_of(r) == difference_of(self@, other@),
            view_of(r) == subtracted(self@, other@),
            r matches Some(v) ==> near(value(self@) - value(other@), v@) && v@.1 <= max_scale(self@, other@),
            sum_fits(self@, other@, exact_difference(self@, other@).0) ==> r is Some && same_value(
                r->0@,
                exact_difference(self@, other@),
            ),
    {
        rust_decimal::Decimal::from_i128_with_scale(self.mantissa, self.scale)
            .checked_sub(rust_decimal::Decimal::from_i128_with_scale(other.mantissa, other.scale))
            .map(|d| Decimal { mantissa: d.mantissa(), scale: d.scale() })
    }

    /// `Decimal::checked_mul` of rust_decimal. The product is rounded to 28 decimal places and
    /// to what 96 bits hold, and otherwise exact.
    #[verifier::external_body]
    pub(crate) fn checked_mul(self, other: Decimal) -> (r: Option<Decimal>)
        ensures
            view_of(r) == product_of(self@, other@),
            view_of(r) == multiplied(self@, other@),
            r matches Some(v) ==> near(value(self@) * value(other@), v@),
            fits(exact_product(self@, other@)) ==> r is Some && same_value(r->0@, exact_product(self@, other@)),
    {
        rust_decimal::Decimal::from_i128_with_scale(self.mantissa, self.scale)
            .checked_mul(rust_decimal::Decimal::from_i128_with_scale(other.mantissa, other.scale))
            .map(|d| Decimal { mantissa: d.mantissa(), scale: d.scale() })
    }

    /// `Decimal::checked_div` of rust_decimal, which gives nothing for a division by zero. The quotient
    /// is taken to 28 decimal places, or to as many as 96 bits hold, and rounded there.
    #[verifier::external_body]
    pub(crate) fn checked_div(self, other: Decimal) -> (r: Option<Decimal>)
        ensures
            view_of(r) == quotient_of(self@, other@),
            view_of(r) == divided(self@, other@),
            r matches Some(v) ==> near(value(self@) / value(other@), v@),
            other@.0 == 0 ==> r is None,
    {
        rust_decimal::Decimal::from_i128_with_scale(self.mantissa, self.scale)
            .checked_div(rust_decimal::Decimal::from_i128_with_scale(other.mantissa, other.scale))
            .map(|d| Decimal { mantissa: d.mantissa(), scale: d.scale() })
    }

    /// `Decimal::round_dp` of rust_decimal rounds half to even; a number with no more than
    /// `dp` decimal places stays as it is.
    #[verifier::external_body]
    pub(crate) fn round_dp(self, dp: u32) -> (r: Decimal)
        ensures
            r@ == rounded(self@, dp as nat),
    {
        let d = rust_decimal::Decimal::from_i128_with_scale(self.mantissa, self.scale).round_dp(dp);
        Decimal { mantissa: d.mantissa(), scale: d.scale() }
    }

    /// `Decimal::from_str` of rust_decimal.
    #[verifier::external_body]
    pub(crate) fn parse(text: &str) -> (r: Option<Decimal>)
        ensures
            view_of(r) == number_in(text@),
    {
        <rust_decimal::Decimal as std::str::FromStr>::from_str(text)
            .ok()
            .map(|d| Decimal { mantissa: d.mantissa(), scale: d.scale() })
    }

    /// The same number without the zeros that end its decimal places.
    pub fn normalize(self) -> (r: Decimal)
        ensures
            r@ == normal(self@),
    {
        proof {
            use_type_invariant(&self);
        }
        if self.mantissa == 0 {
            return Decimal { mantissa: 0, scale: 0 };
        }
        let negative = self.mantissa < 0;
        let mut m: u128 = if negative { (-self.mantissa) as u128 } else { self.mantissa as u128 };
        let mut s: u32 = self.scale;
        while s > 0 && m % 10 == 0
            invariant
                0 < m < limit(),
                s <= 28,
                normal(self@) == normal((if negative { -(m as int) } else { m as int }, s as nat)),
            decreases s,
        {
            assert((-(m as int)) % 10 == 0 && (-(m as int)) / 10 == -((m / 10) as int));
            m = m / 10;
            s = s - 1;
        }
        assert(m % 10 != 0 ==> (-(m as int)) % 10 != 0);
        if negative {
            Decimal { mantissa: -(m as i128), scale: s }
        } else {
            Decimal { mantissa: m as i128, scale: s }
        }
    }

    /// The number in decimal digits, with as many decimal places as its scale.
    pub fn text(self) -> (r: String)
        ensures
            r@ == decimal_text(self@),
    {
        proof {
            use_type_invariant(&self);
        }
        let negative = self.mantissa < 0;
        let m: u128 = if negative { (-self.mantissa) as u128 } else { self.mantissa as u128 };
        let digits = nat_string(m);
        let cs = crate::text::chars(digits.as_str());
        let mut r: String = String::new();
        if negative {
            r.push('-');
        }
        let ghost sign = r@;
        let scale: usize = self.scale as usize;
        let mut padded: Vec<char> = Vec::new();
        let want: usize = if cs.len() < scale + 1 { scale + 1 } else { cs.len() };
        while padded.len() < want - cs.len()
            invariant
                want >= cs.len(),
                padded@ == zeros(padded@.len()),
                padded@.len() <= want - cs.len(),
            decreases want - padded.len(),
        {
            padded.push('0');
            assert(padded@ =~= zeros(padded@.len()));
        }
        let ghost lead = padded@;
        let mut i: usize = 0;
        while i < cs.len()
            invariant
                i <= cs.len(),
                padded@ == lead + cs@.take(i as int),
            decreases cs.len() - i,
        {
            padded.push(cs[i]);
            i = i + 1;
            assert(padded@ =~= lead + cs@.take(i as int));
        }
        assert(cs@.take(i as int) == cs@);
        let whole: usize = padded.len() - scale;
        let mut k: usize = 0;
        while k < padded.len()
            invariant
                0 < whole <= padded.len(),
                padded@ == padded_digits(self@.0, self@.1),
                whole == padded@.len() - scale,
                scale == self@.1,
                k <= padded.len(),
                r@ == sign + padded@.take(if k <= whole { k as int } else { whole as int }) + (if k > whole {
                    seq!['.'] + padded@.subrange(whole as int, k as int)
                } else {
                    Seq::empty()
                }),
            decreases padded.len() - k,
        {
            if k == whole {
                r.push('.');
            }
            r.push(padded[k]);
            k = k + 1;
            assert(r@ =~= sign + padded@.take(if k <= whole { k as int } else { whole as int }) + (if k > whole {
                seq!['.'] + padded@.subrange(whole as int, k as int)
            } else {
                Seq::empty()
            }));
        }
        assert(r@ =~= decimal_text(self@));
        r
    }
}

pub open spec fn zeros(n: nat) -> Seq<char> {
    Seq::new(n, |i: int| '0')
}

/// The digits of a mantissa, with zeros before them where it has no more than `s` of them.
pub open spec fn padded_digits(m: int, s: nat) -> Seq<char> {
    let digits = nat_text((if m < 0 { -m } else { m }) as nat);
    if digits.len() < s + 1 {
        zeros((s + 1 - digits.len()) as nat) + digits
    } else {
        zeros(0) + digits
    }
}

/// A number in decimal digits, with a point before the last `s` of them where `s` is not 0.
pub open spec fn decimal_text(n: Num) -> Seq<char> {
    let d = padded_digits(n.0, n.1);
    let sign: Seq<char> = if n.0 < 0 { seq!['-'] } else { seq![] };
    let whole = d.len() - n.1;
    if n.1 == 0 {
        sign + d
    } else {
        sign + d.take(whole) + (seq!['.'] + d.skip(whole))
    }
}

impl PartialEq for Decimal {
    fn eq(&self, other: &Decimal) -> (r: bool) {
        self.same(*other)
    }
}

impl vstd::std_specs::cmp::PartialEqSpecImpl for Decimal {
    open spec fn obeys_eq_spec() -> bool {
        true
    }

    open spec fn eq_spec(&self, other: &Decimal) -> bool {
        same_value(self@, other@)
    }
}

/// Whether a text is a number with a point: a sign where it is below zero, digits before the point and as many
/// behind it as the number has decimal places, which together are its mantissa.
pub open spec fn spells(text: Seq<char>, n: Num, whole: Seq<char>, places: Seq<char>) -> bool {
    let sign: Seq<char> = if n.0 < 0 {
        seq!['-']
    } else {
        seq![]
    };
    &&& text == sign + whole + (seq!['.'] + places)
    &&& whole.len() >= 1 && places.len() == n.1
    &&& all_digits(whole + places)
    &&& digits_value(whole + places) == (if n.0 < 0 {
        -n.0
    } else {
        n.0
    })
}

/// A number is written with all of its digits: one without decimal places as an integer is, any other with a
/// point before the last of them.
pub proof fn law_decimal_text(n: Num)
    ensures
        n.1 == 0 ==> decimal_text(n) == int_text(n.0),
        n.1 > 0 ==> exists|whole: Seq<char>, places: Seq<char>| #[trigger] spells(decimal_text(n), n, whole, places),
{
    let m = (if n.0 < 0 {
        -n.0
    } else {
        n.0
    }) as nat;
    let digits = nat_text(m);
    lemma_nat_text(m);
    let d = padded_digits(n.0, n.1);
    let lead = d.len() - digits.len();
    assert(d =~= zeros(lead as nat) + digits);
    lemma_zeros_lead(lead as nat, digits);
    let whole = d.len() - n.1;
    if n.1 == 0 {
        assert(zeros(0) + digits =~= digits);
        assert(decimal_text(n) =~= int_text(n.0));
    } else {
        assert(d.take(whole) + d.skip(whole) =~= d);
        assert(spells(decimal_text(n), n, d.take(whole), d.skip(whole)));
    }
}

proof fn lemma_zeros_lead(k: nat, s: Seq<char>)
    requires
        all_digits(s),
    ensures
        all_digits(zeros(k) + s),
        digits_value(zeros(k) + s) == digits_value(s),
    decreases k + s.len(),
{
    if s.len() > 0 {
        let head = s.drop_last();
        assert forall|i: int| 0 <= i < head.len() implies is_digit(#[trigger] head[i]) by {
            assert(head[i] == s[i]);
        }
        lemma_zeros_lead(k, head);
        assert((zeros(k) + s).drop_last() =~= zeros(k) + head);
        assert((zeros(k) + s).last() == s.last());
    } else if k > 0 {
        lemma_zeros_lead((k - 1) as nat, s);
        assert((zeros(k) + s).drop_last() =~= zeros((k - 1) as nat) + s);
    } else {
        assert(zeros(0) + s =~= s);
    }
}

} // verus!
