//! Exact money arithmetic.
//!
//! An amount is a count of the minor unit of its commodity. Decimal numbers are used where
//! amounts are read and shown.

use vstd::prelude::*;

use crate::decimal::{
    decimal_text, distance, exact_product, fits, half_even, law_arithmetic_near, lemma_half_even_nearest, lemma_pow10_positive, lemma_pow10_sum,
    lemma_value_whole, lemma_whole_product, limit, multiplied, near, normal, number_in, pow10, rounded, same_value, value, view_of, zeros, Decimal, Num,
};
use crate::entities::{code_form, law_stored_code, normalize_code, stored_code, well_formed_code};
use crate::error::{invalid, unreadable, Refusal, Result};
use crate::text::{ascii_digit, blank, cat, cat4, cat5, chars, debug_text, int_in, int_string, int_text, is_blank, is_digit, kept, nat_string, nat_text, parse_int, quoted, same, string, trim_chars, trimmed};

verus! {

/// The most decimals a commodity may have. Eight is a satoshi.
pub const MAX_PRECISION: u32 = 8;

pub open spec fn precision_refusal(precision: int) -> Seq<char> {
    "commodity precision must be 0 to 8, got "@ + nat_text(precision as nat)
}

pub fn check_precision(precision: u32) -> (r: Result<()>)
    ensures
        match r {
            Ok(_) => precision <= MAX_PRECISION,
            Err(e) => precision > MAX_PRECISION && e.invalid(precision_refusal(precision as int)),
        },
{
    if precision > MAX_PRECISION {
        return Err(invalid(cat("commodity precision must be 0 to 8, got ", nat_string(precision as u128).as_str()).as_str()));
    }
    Ok(())
}

/// A count of minor units of `10^-precision`.
#[derive(Debug, Clone, Copy, PartialEq, Eq, Structural)]
pub struct MinorUnits {
    minor: i64,
    precision: u32,
}

pub open spec fn magnitude_of(n: int) -> int {
    if n < 0 {
        -n
    } else {
        n
    }
}

/// `magnitude` with the sign of `total`.
pub open spec fn signed(total: int, magnitude: int) -> int {
    if total < 0 {
        -magnitude
    } else {
        magnitude
    }
}

/// The magnitude of the share `i` of a total divided into `parts` equal shares: the earlier
/// shares take the units that are left over.
pub open spec fn equal_share(total: int, parts: int, i: int) -> int {
    magnitude_of(total) / parts + (if i < magnitude_of(total) % parts { 1int } else { 0 })
}

/// The shares of a total divided into `parts` equal shares.
pub open spec fn equal_shares(total: int, parts: int) -> Seq<int> {
    Seq::new(parts as nat, |i: int| signed(total, equal_share(total, parts, i)))
}

pub open spec fn total_of(s: Seq<int>) -> int
    decreases s.len(),
{
    if s.len() == 0 {
        0
    } else {
        total_of(s.drop_last()) + s.last()
    }
}

pub open spec fn ratio_total(ratios: Seq<u64>) -> int
    decreases ratios.len(),
{
    if ratios.len() == 0 {
        0
    } else {
        ratio_total(ratios.drop_last()) + ratios.last()
    }
}

/// The whole units of the ideal quota of share `i`.
pub open spec fn floor_share(total: int, ratios: Seq<u64>, i: int) -> int {
    (magnitude_of(total) * ratios[i] as int) / ratio_total(ratios)
}

/// What is left of the ideal quota of share `i`, in parts of the ratio total.
pub open spec fn remainder(total: int, ratios: Seq<u64>, i: int) -> int {
    (magnitude_of(total) * ratios[i] as int) % ratio_total(ratios)
}

/// Whether share `i` comes before share `j` when left over units are given out: by the larger
/// remainder, and in order where the remainders are equal.
pub open spec fn ahead(total: int, ratios: Seq<u64>, i: int, j: int) -> bool {
    remainder(total, ratios, i) > remainder(total, ratios, j) || (remainder(total, ratios, i) == remainder(total, ratios, j)
        && i < j)
}

pub open spec fn count_true(s: Seq<bool>) -> int
    decreases s.len(),
{
    if s.len() == 0 {
        0
    } else {
        count_true(s.drop_last()) + (if s.last() { 1int } else { 0 })
    }
}

/// The whole units of all ideal quotas together.
pub open spec fn floor_total(total: int, ratios: Seq<u64>, n: int) -> int
    decreases n,
{
    if n <= 0 {
        0
    } else {
        floor_total(total, ratios, n - 1) + floor_share(total, ratios, n - 1)
    }
}

/// How many units are left over when every share has the whole units of its quota.
pub open spec fn left_over(total: int, ratios: Seq<u64>) -> int {
    magnitude_of(total) - floor_total(total, ratios, ratios.len() as int)
}

/// Whether the shares marked in `extra` are the ones that take a unit that is left over.
pub open spec fn takes_left_over(total: int, ratios: Seq<u64>, extra: Seq<bool>) -> bool {
    &&& extra.len() == ratios.len()
    &&& count_true(extra) == left_over(total, ratios)
    &&& forall|i: int, j: int|
        0 <= i < extra.len() && 0 <= j < extra.len() && extra[i] && !extra[j] ==> #[trigger] ahead(total, ratios, i, j)
}

/// The shares when those marked in `extra` take one unit more.
pub open spec fn share_values(total: int, ratios: Seq<u64>, extra: Seq<bool>) -> Seq<int> {
    Seq::new(ratios.len(), |i: int| signed(total, floor_share(total, ratios, i) + (if extra[i] { 1int } else { 0 })))
}

/// Whether `shares` divides `total` by `ratios`: every share has the whole units of its quota,
/// and the first ones by `ahead` take one more each until nothing is left.
pub open spec fn allocation(total: int, ratios: Seq<u64>, shares: Seq<int>) -> bool {
    exists|extra: Seq<bool>| #[trigger]
        takes_left_over(total, ratios, extra) && shares == share_values(total, ratios, extra)
}

/// Makes room for `n` more elements, as `Vec::try_reserve_exact` of std does; whether there was
/// room depends on the machine.
#[verifier::external_body]
fn reserve(v: &mut Vec<MinorUnits>, n: usize) -> (r: bool)
    ensures
        final(v)@ == old(v)@,
{
    v.try_reserve_exact(n).is_ok()
}

proof fn lemma_floor_bound(total: int, ratios: Seq<u64>, n: int)
    requires
        0 <= n <= ratios.len(),
        ratio_total(ratios) > 0,
    ensures
        0 <= floor_total(total, ratios, n),
        floor_total(total, ratios, n) * ratio_total(ratios) + remainder_total(total, ratios, n) == magnitude_of(total) * ratio_total(
            ratios.take(n),
        ),
        0 <= remainder_total(total, ratios, n),
        remainder_total(total, ratios, n) <= n * (ratio_total(ratios) - 1),
    decreases n,
{
    let d = ratio_total(ratios);
    if n > 0 {
        lemma_floor_bound(total, ratios, n - 1);
        let w = magnitude_of(total) * ratios[n - 1] as int;
        assert(ratios.take(n).drop_last() == ratios.take(n - 1));
        assert(w >= 0) by (nonlinear_arith)
            requires
                w == magnitude_of(total) * ratios[n - 1] as int,
                magnitude_of(total) >= 0,
                ratios[n - 1] as int >= 0,
        ;
        assert(w == d * (w / d) + w % d && 0 <= w % d < d && w / d >= 0) by (nonlinear_arith)
            requires
                d > 0,
                w >= 0,
        ;
        let f = floor_total(total, ratios, n - 1);
        let t = ratio_total(ratios.take(n - 1));
        assert((f + w / d) * d == f * d + d * (w / d)) by (nonlinear_arith);
        assert(magnitude_of(total) * (t + ratios[n - 1] as int) == magnitude_of(total) * t + w) by (nonlinear_arith)
            requires
                w == magnitude_of(total) * ratios[n - 1] as int,
        ;
        assert(n * (d - 1) == (n - 1) * (d - 1) + (d - 1)) by (nonlinear_arith);
    } else {
        assert(ratios.take(0) =~= Seq::<u64>::empty());
        assert(magnitude_of(total) * 0 == 0);
    }
}

pub open spec fn remainder_total(total: int, ratios: Seq<u64>, n: int) -> int
    decreases n,
{
    if n <= 0 {
        0
    } else {
        remainder_total(total, ratios, n - 1) + remainder(total, ratios, n - 1)
    }
}

/// The remainders add up to the units left over, and these are fewer than the shares.
proof fn lemma_left_over(total: int, ratios: Seq<u64>)
    requires
        ratio_total(ratios) > 0,
    ensures
        0 <= left_over(total, ratios) < ratios.len(),
        remainder_total(total, ratios, ratios.len() as int) == left_over(total, ratios) * ratio_total(ratios),
{
    let n = ratios.len() as int;
    let d = ratio_total(ratios);
    lemma_floor_bound(total, ratios, n);
    assert(ratios.take(n) == ratios);
    let f = floor_total(total, ratios, n);
    let rt = remainder_total(total, ratios, n);
    let m = magnitude_of(total);
    assert((m - f) * d == rt) by (nonlinear_arith)
        requires
            f * d + rt == m * d,
    ;
    assert(n > 0) by {
        if n == 0 {
            assert(ratios =~= Seq::<u64>::empty());
        }
    }
    assert(0 <= m - f < n) by (nonlinear_arith)
        requires
            (m - f) * d == rt,
            0 <= rt <= n * (d - 1),
            d > 0,
            n > 0,
    ;
}

impl MinorUnits {
    pub closed spec fn count(self) -> int {
        self.minor as int
    }

    pub closed spec fn places(self) -> nat {
        self.precision as nat
    }

    #[verifier::type_invariant]
    pub open spec fn inv(self) -> bool {
        self.places() <= 8 && i64::MIN <= self.count() <= i64::MAX
    }

    pub fn from_minor(minor: i64, precision: u32) -> (r: Result<MinorUnits>)
        ensures
            match r {
                Ok(u) => precision <= MAX_PRECISION && u.count() == minor && u.places() == precision,
                Err(e) => precision > MAX_PRECISION && e.invalid(precision_refusal(precision as int)),
            },
    {
        match check_precision(precision) {
            Ok(_) => Ok(MinorUnits { minor, precision }),
            Err(e) => Err(e),
        }
    }

    /// From a major-unit decimal, rounded half to even to the minor unit.
    pub fn from_major(major: Decimal, precision: u32) -> (r: Result<MinorUnits>)
        ensures
            match r {
                Ok(u) => precision <= MAX_PRECISION && minor_of(major@, precision as nat) == Some(u.count()) && u.places()
                    == precision,
                Err(e) => if precision > MAX_PRECISION {
                    e.invalid(precision_refusal(precision as int))
                } else {
                    minor_of(major@, precision as nat) is None && e.invalid("amount out of range: "@ + decimal_text(major@))
                },
            },
            precision <= MAX_PRECISION && fits(exact_product(major@, (pow10(precision as nat), 0))) ==> minor_of(
                major@,
                precision as nat,
            ) == in_range(half_even(major@.0 * pow10(precision as nat), pow10(major@.1))),
            forall|c: int| #[trigger]
                normal((c, precision as nat)) == major@ && -9223372036854775808 <= c <= 9223372036854775808 && precision
                    <= MAX_PRECISION ==> minor_of(major@, precision as nat) == in_range(c),
    {
        if let Err(e) = check_precision(precision) {
            return Err(e);
        }
        let factor = power_of_ten(precision);
        let product = major.checked_mul(Decimal::from_int(factor));
        proof {
            use_type_invariant(&major);
            let exact = exact_product(major@, (pow10(precision as nat), 0));
            if fits(exact) {
                lemma_half_even_same(product->0@, exact);
            }
            assert forall|c: int| #[trigger]
                normal((c, precision as nat)) == major@ && -9223372036854775808 <= c <= 9223372036854775808 implies product is Some
                && half_even(product->0@.0, pow10(product->0@.1)) == c by {
                let n = normal((c, precision as nat));
                lemma_normal((c, precision as nat));
                lemma_pow10_monotone(precision as nat, 8);
                assert(pow10(8) == 100000000) by {
                    reveal_with_fuel(pow10, 9);
                }
                let t = pow10(precision as nat);
                assert(-limit() < n.0 * t < limit()) by (nonlinear_arith)
                    requires
                        -9223372036854775808 <= n.0 <= 9223372036854775808,
                        1 <= t <= 100000000,
                        limit() == 79228162514264337593543950336,
                ;
                lemma_half_even_same(product->0@, exact);
                lemma_pow10_positive(n.1);
                lemma_half_even_whole(c, pow10(n.1));
            }
        }
        match scaled_minor(product) {
            Some(minor) => Ok(MinorUnits { minor, precision }),
            None => Err(invalid(cat("amount out of range: ", major.text().as_str()).as_str())),
        }
    }

    /// Divides into equal shares without losing minor units.
    pub fn shares(&self, parts: usize) -> (r: Vec<MinorUnits>)
        requires
            parts > 0,
        ensures
            r@.len() == parts,
            counts_of(r@) == equal_shares(self.count(), parts as int),
            forall|i: int| 0 <= i < r@.len() ==> (#[trigger] r@[i]).places() == self.places(),
    {
        let mut result: Vec<MinorUnits> = Vec::new();
        self.push_shares(parts, &mut result);
        result
    }

    fn push_shares(&self, parts: usize, result: &mut Vec<MinorUnits>)
        requires
            parts > 0,
            old(result)@.len() == 0,
        ensures
            final(result)@.len() == parts,
            counts_of(final(result)@) == equal_shares(self.count(), parts as int),
            forall|i: int| 0 <= i < parts ==> (#[trigger] final(result)@[i]).places() == self.places(),
    {
        proof {
            use_type_invariant(self);
        }
        let magnitude: u128 = self.magnitude();
        let base: u128 = magnitude / (parts as u128);
        let left: u128 = magnitude % (parts as u128);
        assert(base <= magnitude && (left > 0 ==> base < magnitude)) by (nonlinear_arith)
            requires
                parts > 0,
                base == magnitude / (parts as u128),
                left == magnitude % (parts as u128),
        ;
        let mut i: usize = 0;
        while i < parts
            invariant
                i <= parts,
                parts > 0,
                magnitude == magnitude_of(self.count()),
                base == magnitude / (parts as u128),
                left == magnitude % (parts as u128),
                base <= magnitude,
                left > 0 ==> base < magnitude,
                result@.len() == i,
                forall|k: int|
                    0 <= k < i ==> (#[trigger] result@[k]).count() == signed(
                        self.count(),
                        equal_share(self.count(), parts as int, k),
                    ) && result@[k].places() == self.places(),
            decreases parts - i,
        {
            let value: u128 = if (i as u128) < left { base + 1 } else { base };
            result.push(self.share(value));
            i = i + 1;
        }
        assert(counts_of(result@) =~= equal_shares(self.count(), parts as int));
    }

    fn magnitude(&self) -> (r: u128)
        ensures
            r == magnitude_of(self.count()),
            r <= 9223372036854775808,
    {
        if self.minor < 0 {
            (-(self.minor as i128)) as u128
        } else {
            self.minor as u128
        }
    }

    /// Divides into equal shares without losing minor units. Earlier shares receive the
    /// remainder; negating the total negates every share.
    pub fn split(&self, parts: usize) -> (r: Result<Vec<MinorUnits>>)
        ensures
            match r {
                Ok(v) => {
                    &&& parts > 0
                    &&& v@.len() == parts
                    &&& counts_of(v@) == equal_shares(self.count(), parts as int)
                    &&& forall|i: int| 0 <= i < v@.len() ==> (#[trigger] v@[i]).places() == self.places()
                },
                Err(e) => if parts == 0 {
                    e.invalid("split needs at least one part"@)
                } else {
                    e.invalid("too many split parts"@)
                },
            },
    {
        if parts == 0 {
            return Err(invalid("split needs at least one part"));
        }
        let mut result: Vec<MinorUnits> = Vec::new();
        if !reserve(&mut result, parts) {
            return Err(invalid("too many split parts"));
        }
        self.push_shares(parts, &mut result);
        Ok(result)
    }

    /// Allocates by nonnegative integer ratios using largest remainders, with ties resolved in
    /// input order. Zero-weight shares receive zero. Each share is within one minor unit of its
    /// ideal quota and the total is conserved.
    pub fn allocate(&self, ratios: &[u64]) -> (r: Result<Vec<MinorUnits>>)
        ensures
            match r {
                Ok(v) => {
                    &&& ratio_total(ratios@) > 0
                    &&& v@.len() == ratios@.len()
                    &&& allocation(self.count(), ratios@, counts_of(v@))
                    &&& forall|i: int| 0 <= i < v@.len() ==> (#[trigger] v@[i]).places() == self.places()
                },
                Err(e) => ratio_total(ratios@) == 0 && e.invalid("allocation needs a positive total ratio"@),
            },
    {
        proof {
            use_type_invariant(self);
        }
        let n: usize = ratios.len();
        let mut sum: u128 = 0;
        let mut i: usize = 0;
        while i < n
            invariant
                n == ratios@.len(),
                i <= n,
                sum == ratio_total(ratios@.take(i as int)),
                sum <= i * 18446744073709551615,
            decreases n - i,
        {
            assert(ratios@.take(i + 1).drop_last() == ratios@.take(i as int));
            assert(i * 18446744073709551615 + 18446744073709551615 == (i + 1) * 18446744073709551615) by (nonlinear_arith);
            assert((i + 1) * 18446744073709551615 <= 18446744073709551615 * 18446744073709551615) by (nonlinear_arith)
                requires
                    i + 1 <= 18446744073709551615,
            ;
            sum = sum + ratios[i] as u128;
            i = i + 1;
        }
        assert(ratios@.take(n as int) == ratios@);
        if sum == 0 {
            return Err(invalid("allocation needs a positive total ratio"));
        }
        let magnitude: u128 = self.magnitude();
        let ghost total = self.count();
        let mut parts: Vec<u128> = Vec::new();
        let mut rest: Vec<u128> = Vec::new();
        let mut given: u128 = 0;
        let mut k: usize = 0;
        proof {
            lemma_left_over(total, ratios@);
        }
        while k < n
            invariant
                n == ratios@.len(),
                k <= n,
                total == self.count(),
                magnitude == magnitude_of(total),
                magnitude <= 9223372036854775808,
                sum == ratio_total(ratios@),
                sum > 0,
                parts@.len() == k,
                rest@.len() == k,
                given == floor_total(total, ratios@, k as int),
                given <= magnitude,
                forall|q: int| 0 <= q < k ==> #[trigger] parts@[q] == floor_share(total, ratios@, q),
                forall|q: int| 0 <= q < k ==> #[trigger] rest@[q] == remainder(total, ratios@, q),
            decreases n - k,
        {
            let ratio: u128 = ratios[k] as u128;
            assert(magnitude * ratio <= 9223372036854775808 * 18446744073709551615) by (nonlinear_arith)
                requires
                    magnitude <= 9223372036854775808,
                    ratio <= 18446744073709551615,
            ;
            let weighted: u128 = magnitude * ratio;
            proof {
                lemma_floor_bound(total, ratios@, k as int + 1);
                lemma_ratio_prefix(ratios@, k as int + 1);
                let f = floor_total(total, ratios@, k as int + 1);
                let t = ratio_total(ratios@.take(k as int + 1));
                assert(f <= magnitude) by (nonlinear_arith)
                    requires
                        f * sum <= magnitude * t,
                        t <= sum,
                        sum > 0,
                        magnitude >= 0,
                ;
            }
            parts.push(weighted / sum);
            rest.push(weighted % sum);
            given = given + weighted / sum;
            k = k + 1;
        }
        let left: u128 = magnitude - given;
        let mut extra: Vec<bool> = Vec::new();
        let mut e: usize = 0;
        while e < n
            invariant
                e <= n,
                extra@.len() == e,
                count_true(extra@) == 0,
                forall|q: int| 0 <= q < e ==> !#[trigger] extra@[q],
            decreases n - e,
        {
            let ghost before = extra@;
            extra.push(false);
            assert(extra@.drop_last() == before);
            e = e + 1;
        }
        let mut out: u128 = 0;
        while out < left
            invariant
                out <= left < n,
                n == ratios@.len(),
                left == left_over(total, ratios@),
                extra@.len() == n,
                rest@.len() == n,
                count_true(extra@) == out,
                forall|q: int| 0 <= q < n ==> #[trigger] rest@[q] == remainder(total, ratios@, q),
                forall|a: int, b: int|
                    0 <= a < n && 0 <= b < n && extra@[a] && !extra@[b] ==> #[trigger] ahead(total, ratios@, a, b),
            decreases left - out,
        {
            let best = next_share(&rest, &extra, Ghost(total), Ghost(ratios@));
            proof {
                lemma_count_update(extra@, best as int);
            }
            extra.set(best, true);
            out = out + 1;
        }
        let mut shares: Vec<MinorUnits> = Vec::new();
        let mut s: usize = 0;
        proof {
            assert forall|q: int| 0 <= q < n implies parts@[q] + (if extra@[q] { 1int } else { 0 }) <= magnitude by {
                lemma_share_bound(total, ratios@, extra@, q);
            }
        }
        while s < n
            invariant
                s <= n,
                n == ratios@.len(),
                parts@.len() == n,
                extra@.len() == n,
                total == self.count(),
                magnitude == magnitude_of(total),
                magnitude <= 9223372036854775808,
                shares@.len() == s,
                forall|q: int| 0 <= q < n ==> #[trigger] parts@[q] == floor_share(total, ratios@, q),
                forall|q: int| 0 <= q < n ==> #[trigger] parts@[q] + (if extra@[q] { 1int } else { 0 }) <= magnitude,
                forall|q: int|
                    0 <= q < s ==> (#[trigger] shares@[q]).count() == signed(
                        total,
                        floor_share(total, ratios@, q) + (if extra@[q] { 1int } else { 0 }),
                    ) && shares@[q].places() == self.places(),
            decreases n - s,
        {
            let value: u128 = if extra[s] { parts[s] + 1 } else { parts[s] };
            shares.push(self.share(value));
            s = s + 1;
        }
        proof {
            assert(takes_left_over(total, ratios@, extra@));
            assert(counts_of(shares@) =~= share_values(total, ratios@, extra@));
            assert(allocation(total, ratios@, counts_of(shares@)));
        }
        Ok(shares)
    }

    fn share(&self, magnitude: u128) -> (r: MinorUnits)
        requires
            magnitude <= magnitude_of(self.count()),
        ensures
            r.count() == signed(self.count(), magnitude as int),
            r.places() == self.places(),
    {
        proof {
            use_type_invariant(self);
        }
        let minor: i64 = if self.minor < 0 { (-(magnitude as i128)) as i64 } else { magnitude as i64 };
        MinorUnits { minor, precision: self.precision }
    }

    pub fn minor(&self) -> (r: i64)
        ensures
            r == self.count(),
    {
        self.minor
    }

    pub fn precision(&self) -> (r: u32)
        ensures
            r == self.places(),
            r <= MAX_PRECISION,
    {
        proof {
            use_type_invariant(self);
        }
        self.precision
    }

    /// The amount in major units, without zeros at its end.
    pub fn major(&self) -> (r: Decimal)
        ensures
            r@ == normal((self.count(), self.places())),
    {
        proof {
            use_type_invariant(self);
        }
        Decimal::from_units(self.minor, self.precision).normalize()
    }
}

pub open spec fn counts_of(v: Seq<MinorUnits>) -> Seq<int> {
    v.map_values(|u: MinorUnits| u.count())
}

proof fn lemma_ratio_prefix(ratios: Seq<u64>, n: int)
    requires
        0 <= n <= ratios.len(),
    ensures
        0 <= ratio_total(ratios.take(n)) <= ratio_total(ratios),
    decreases ratios.len(),
{
    if n == ratios.len() {
        assert(ratios.take(n) == ratios);
        if n > 0 {
            lemma_ratio_prefix(ratios.drop_last(), n - 1);
        }
    } else {
        lemma_ratio_prefix(ratios.drop_last(), n);
        assert(ratios.drop_last().take(n) == ratios.take(n));
    }
}

proof fn lemma_count_update(s: Seq<bool>, i: int)
    requires
        0 <= i < s.len(),
        !s[i],
    ensures
        count_true(s.update(i, true)) == count_true(s) + 1,
    decreases s.len(),
{
    let u = s.update(i, true);
    if i == s.len() - 1 {
        assert(u.drop_last() == s.drop_last());
    } else {
        lemma_count_update(s.drop_last(), i);
        assert(u.drop_last() == s.drop_last().update(i, true));
    }
}

proof fn lemma_count_full(s: Seq<bool>)
    ensures
        0 <= count_true(s) <= s.len(),
        count_true(s) < s.len() ==> exists|i: int| 0 <= i < s.len() && !s[i],
    decreases s.len(),
{
    if s.len() > 0 {
        lemma_count_full(s.drop_last());
        if count_true(s) < s.len() {
            if !s.last() {
                assert(!s[s.len() - 1]);
            } else {
                let i = choose|i: int| 0 <= i < s.drop_last().len() && !s.drop_last()[i];
                assert(!s[i]);
            }
        }
    }
}

proof fn lemma_count_one(s: Seq<bool>, i: int)
    requires
        0 <= i < s.len(),
        s[i],
    ensures
        count_true(s) >= 1,
    decreases s.len(),
{
    lemma_count_full(s.drop_last());
    if i < s.len() - 1 {
        lemma_count_one(s.drop_last(), i);
    }
}

proof fn lemma_floor_parts(total: int, ratios: Seq<u64>, n: int, q: int)
    requires
        0 <= q < n <= ratios.len(),
        ratio_total(ratios) > 0,
    ensures
        floor_share(total, ratios, q) <= floor_total(total, ratios, n),
    decreases n,
{
    lemma_floor_bound(total, ratios, n - 1);
    if q < n - 1 {
        lemma_floor_parts(total, ratios, n - 1, q);
        let w = magnitude_of(total) * ratios[n - 1] as int;
        let d = ratio_total(ratios);
        assert(w / d >= 0) by (nonlinear_arith)
            requires
                d > 0,
                w == magnitude_of(total) * ratios[n - 1] as int,
                magnitude_of(total) >= 0,
                ratios[n - 1] as int >= 0,
        ;
    }
}

/// A share is not larger than the total.
proof fn lemma_share_bound(total: int, ratios: Seq<u64>, extra: Seq<bool>, q: int)
    requires
        ratio_total(ratios) > 0,
        takes_left_over(total, ratios, extra),
        0 <= q < ratios.len(),
    ensures
        floor_share(total, ratios, q) + (if extra[q] { 1int } else { 0 }) <= magnitude_of(total),
{
    lemma_floor_parts(total, ratios, ratios.len() as int, q);
    lemma_left_over(total, ratios);
    if extra[q] {
        lemma_count_one(extra, q);
    }
}

/// The share that is first by `ahead` among those that are not marked.
fn next_share(rest: &Vec<u128>, extra: &Vec<bool>, Ghost(total): Ghost<int>, Ghost(ratios): Ghost<Seq<u64>>) -> (best: usize)
    requires
        rest@.len() == extra@.len() == ratios.len(),
        count_true(extra@) < extra@.len(),
        forall|q: int| 0 <= q < rest@.len() ==> #[trigger] rest@[q] == remainder(total, ratios, q),
    ensures
        best < extra@.len(),
        !extra@[best as int],
        forall|j: int| 0 <= j < extra@.len() && !extra@[j] && j != best ==> #[trigger] ahead(total, ratios, best as int, j),
{
    let mut best: usize = 0;
    let mut found = false;
    let mut i: usize = 0;
    while i < extra.len()
        invariant
            rest@.len() == extra@.len() == ratios.len(),
            i <= extra@.len(),
            forall|q: int| 0 <= q < rest@.len() ==> #[trigger] rest@[q] == remainder(total, ratios, q),
            found ==> best < i && !extra@[best as int],
            found ==> forall|j: int| 0 <= j < i && !extra@[j] && j != best ==> #[trigger] ahead(total, ratios, best as int, j),
            !found ==> forall|j: int| 0 <= j < i ==> #[trigger] extra@[j],
        decreases extra.len() - i,
    {
        if !extra[i] && (!found || rest[i] > rest[best]) {
            assert(found ==> forall|j: int|
                0 <= j < i && !extra@[j] && j != best ==> #[trigger] ahead(total, ratios, best as int, j));
            proof {
                assert forall|j: int| 0 <= j < i + 1 && !extra@[j] && j != i implies #[trigger] ahead(total, ratios, i as int, j) by {
                    if found && j != best {
                        assert(ahead(total, ratios, best as int, j));
                    }
                }
            }
            best = i;
            found = true;
        }
        i = i + 1;
    }
    proof {
        lemma_count_full(extra@);
    }
    best
}

/// The minor units of an amount in major units: the product with `10^precision`, rounded half
/// to even, where it fits 64 bits.
pub open spec fn minor_of(major: Num, precision: nat) -> Option<int> {
    scaled_minor_of(multiplied(major, (pow10(precision), 0)))
}

pub open spec fn scaled_minor_of(product: Option<Num>) -> Option<int> {
    match product {
        Some(p) => {
            in_range(half_even(p.0, pow10(p.1)))
        },
        None => None,
    }
}

/// The integer nearest to a product, where there is one of 64 bits.
pub fn scaled_minor(product: Option<Decimal>) -> (r: Option<i64>)
    ensures
        match r {
            Some(m) => scaled_minor_of(view_of(product)) == Some(m as int),
            None => scaled_minor_of(view_of(product)) is None,
        },
{
    match product {
        Some(p) => {
            let whole = p.round_dp(0);
            let m: i128 = whole.mantissa();
            assert(m == half_even(p@.0, pow10(p@.1)));
            if m >= -9223372036854775808 && m <= 9223372036854775807 {
                Some(m as i64)
            } else {
                None
            }
        },
        None => None,
    }
}

pub open spec fn in_range(m: int) -> Option<int> {
    if i64::MIN <= m <= i64::MAX {
        Some(m)
    } else {
        None
    }
}

proof fn lemma_half_even_whole(c: int, d: int)
    requires
        d > 0,
    ensures
        half_even(c * d, d) == c,
{
    assert((c * d) / d == c && (c * d) % d == 0) by (nonlinear_arith)
        requires
            d > 0,
    ;
}

/// Two pairs of one value round to one integer.
proof fn lemma_half_even_same(a: Num, b: Num)
    requires
        same_value(a, b),
    ensures
        half_even(a.0, pow10(a.1)) == half_even(b.0, pow10(b.1)),
{
    let (n1, d1) = (a.0, pow10(a.1));
    let (n2, d2) = (b.0, pow10(b.1));
    lemma_pow10_positive(a.1);
    lemma_pow10_positive(b.1);
    let (q1, r1) = (n1 / d1, n1 % d1);
    assert(n1 == d1 * q1 + r1 && 0 <= r1 < d1) by (nonlinear_arith)
        requires
            d1 > 0,
            q1 == n1 / d1,
            r1 == n1 % d1,
    ;
    let r2 = n2 - q1 * d2;
    assert(r2 * d1 == r1 * d2) by (nonlinear_arith)
        requires
            n1 == d1 * q1 + r1,
            n1 * d2 == n2 * d1,
            r2 == n2 - q1 * d2,
    ;
    assert(0 <= r2 < d2) by (nonlinear_arith)
        requires
            r2 * d1 == r1 * d2,
            0 <= r1 < d1,
            d2 > 0,
    ;
    assert(n2 / d2 == q1 && n2 % d2 == r2) by (nonlinear_arith)
        requires
            n2 == q1 * d2 + r2,
            0 <= r2 < d2,
    ;
    assert((2 * r1 < d1) == (2 * r2 < d2)) by (nonlinear_arith)
        requires
            r2 * d1 == r1 * d2,
            d1 > 0,
            d2 > 0,
    ;
    assert((2 * r1 == d1) == (2 * r2 == d2)) by (nonlinear_arith)
        requires
            r2 * d1 == r1 * d2,
            d1 > 0,
            d2 > 0,
    ;
}

pub proof fn lemma_normal(n: Num)
    ensures
        same_value(normal(n), n),
        normal(n).1 <= n.1,
        n.0 >= 0 ==> 0 <= normal(n).0 <= n.0,
        n.0 < 0 ==> n.0 <= normal(n).0 < 0,
    decreases n.1,
{
    if n.0 != 0 && n.1 > 0 && n.0 % 10 == 0 {
        let k = (n.0 / 10, (n.1 - 1) as nat);
        lemma_normal(k);
        let v = normal(k);
        let p = pow10(k.1);
        let q = pow10(v.1);
        assert(v.0 * (10 * p) == n.0 * q) by (nonlinear_arith)
            requires
                v.0 * p == k.0 * q,
                n.0 == 10 * k.0,
        ;
    } else if n.0 == 0 {
        assert(0 * pow10(n.1) == 0 && 0 * pow10(0) == 0);
    }
}

pub proof fn lemma_normal_negated(n: Num)
    ensures
        normal((-n.0, n.1)) == negated_num(normal(n)),
    decreases n.1,
{
    if n.0 != 0 && n.1 > 0 && n.0 % 10 == 0 {
        assert((-n.0) % 10 == 0 && (-n.0) / 10 == -(n.0 / 10));
        lemma_normal_negated((n.0 / 10, (n.1 - 1) as nat));
    } else {
        assert(n.0 % 10 != 0 ==> (-n.0) % 10 != 0);
    }
}

pub fn power_of_ten(n: u32) -> (r: i64)
    requires
        n <= 18,
    ensures
        r == pow10(n as nat),
        r >= 1,
{
    let mut k: u32 = 0;
    let mut p: i64 = 1;
    proof {
        reveal_with_fuel(pow10, 20);
    }
    while k < n
        invariant
            k <= n <= 18,
            p == pow10(k as nat),
            1 <= p <= pow10(k as nat),
            pow10(18) == 1000000000000000000,
            p <= 1000000000000000000,
        decreases n - k,
    {
        proof {
            lemma_pow10_monotone((k + 1) as nat, 18);
        }
        p = p * 10;
        k = k + 1;
    }
    p
}

pub proof fn lemma_pow10_monotone(a: nat, b: nat)
    requires
        a <= b,
    ensures
        1 <= pow10(a) <= pow10(b),
    decreases b,
{
    lemma_pow10_positive(a);
    if a < b {
        lemma_pow10_monotone(a, (b - 1) as nat);
    }
}

proof fn lemma_equal_total(total: int, parts: int, n: int)
    requires
        parts > 0,
        0 <= n <= parts,
    ensures
        total_of(equal_shares(total, parts).take(n)) == signed(
            total,
            n * (magnitude_of(total) / parts) + (if n < magnitude_of(total) % parts {
                n
            } else {
                magnitude_of(total) % parts
            }),
        ),
    decreases n,
{
    let all = equal_shares(total, parts);
    let b = magnitude_of(total) / parts;
    if n > 0 {
        lemma_equal_total(total, parts, n - 1);
        assert(all.take(n).drop_last() =~= all.take(n - 1));
        assert(all.take(n).last() == signed(total, equal_share(total, parts, n - 1)));
        assert(n * b == (n - 1) * b + b) by (nonlinear_arith);
    } else {
        assert(all.take(0) =~= Seq::<int>::empty());
        assert(0 * b == 0);
        assert(magnitude_of(total) % parts >= 0) by (nonlinear_arith)
            requires
                parts > 0,
        ;
    }
}

/// Equal shares add up to the total.
pub proof fn law_split_conserves(total: int, parts: int)
    requires
        parts > 0,
    ensures
        total_of(equal_shares(total, parts)) == total,
{
    let m = magnitude_of(total);
    lemma_equal_total(total, parts, parts);
    assert(equal_shares(total, parts).take(parts) =~= equal_shares(total, parts));
    assert(parts * (m / parts) + m % parts == m && 0 <= m % parts < parts) by (nonlinear_arith)
        requires
            parts > 0,
            m >= 0,
    ;
}

/// Two equal shares differ by at most one minor unit, and the earlier one is not the smaller
/// in magnitude.
pub proof fn law_split_even(total: int, parts: int, i: int, j: int)
    requires
        parts > 0,
        0 <= i < j < parts,
    ensures
        -1 <= equal_shares(total, parts)[i] - equal_shares(total, parts)[j] <= 1,
        magnitude_of(equal_shares(total, parts)[i]) >= magnitude_of(equal_shares(total, parts)[j]),
{
    assert(magnitude_of(total) / parts >= 0) by (nonlinear_arith)
        requires
            parts > 0,
            magnitude_of(total) >= 0,
    ;
}

/// Negating the total negates every equal share.
pub proof fn law_split_negates(total: int, parts: int, i: int)
    requires
        parts > 0,
        0 <= i < parts,
    ensures
        equal_shares(-total, parts)[i] == -equal_shares(total, parts)[i],
{
    if total == 0 {
        assert(0int / parts == 0 && 0int % parts == 0) by (nonlinear_arith)
            requires
                parts > 0,
        ;
    }
}

proof fn lemma_allocation_total(total: int, ratios: Seq<u64>, extra: Seq<bool>, n: int)
    requires
        extra.len() == ratios.len(),
        0 <= n <= ratios.len(),
    ensures
        total_of(share_values(total, ratios, extra).take(n)) == signed(
            total,
            floor_total(total, ratios, n) + count_true(extra.take(n)),
        ),
    decreases n,
{
    let all = share_values(total, ratios, extra);
    if n > 0 {
        lemma_allocation_total(total, ratios, extra, n - 1);
        assert(all.take(n).drop_last() =~= all.take(n - 1));
        assert(extra.take(n).drop_last() =~= extra.take(n - 1));
    } else {
        assert(all.take(0) =~= Seq::<int>::empty());
        assert(extra.take(0) =~= Seq::<bool>::empty());
    }
}

/// Allocated shares add up to the total.
pub proof fn law_allocation_conserves(total: int, ratios: Seq<u64>, shares: Seq<int>)
    requires
        allocation(total, ratios, shares),
    ensures
        total_of(shares) == total,
{
    let extra = choose|extra: Seq<bool>| #[trigger]
        takes_left_over(total, ratios, extra) && shares == share_values(total, ratios, extra);
    let n = ratios.len() as int;
    lemma_allocation_total(total, ratios, extra, n);
    assert(share_values(total, ratios, extra) =~= shares);
    assert(shares.take(n) =~= shares);
    assert(extra.take(n) =~= extra);
}

/// An allocated share is its quota without the fraction, or one unit more.
pub proof fn law_allocation_within_one(total: int, ratios: Seq<u64>, shares: Seq<int>, i: int)
    requires
        ratio_total(ratios) > 0,
        allocation(total, ratios, shares),
        0 <= i < ratios.len(),
    ensures
        shares.len() == ratios.len(),
        magnitude_of(shares[i]) == floor_share(total, ratios, i) || magnitude_of(shares[i]) == floor_share(total, ratios, i) + 1,
{
    let w = magnitude_of(total) * ratios[i] as int;
    let d = ratio_total(ratios);
    assert(w / d >= 0) by (nonlinear_arith)
        requires
            d > 0,
            w == magnitude_of(total) * ratios[i] as int,
            magnitude_of(total) >= 0,
            ratios[i] as int >= 0,
    ;
}

proof fn lemma_remainders_marked(total: int, ratios: Seq<u64>, extra: Seq<bool>, n: int)
    requires
        ratio_total(ratios) > 0,
        extra.len() == ratios.len(),
        0 <= n <= ratios.len(),
        forall|j: int| 0 <= j < ratios.len() && #[trigger] remainder(total, ratios, j) > 0 ==> extra[j],
    ensures
        remainder_total(total, ratios, n) <= (ratio_total(ratios) - 1) * count_true(extra.take(n)),
    decreases n,
{
    let d = ratio_total(ratios);
    if n > 0 {
        lemma_remainders_marked(total, ratios, extra, n - 1);
        assert(extra.take(n).drop_last() =~= extra.take(n - 1));
        let w = magnitude_of(total) * ratios[n - 1] as int;
        assert(0 <= w % d < d) by (nonlinear_arith)
            requires
                d > 0,
        ;
        let c = count_true(extra.take(n - 1));
        assert((d - 1) * (c + 1) == (d - 1) * c + (d - 1)) by (nonlinear_arith);
        assert(remainder(total, ratios, n - 1) > 0 ==> extra[n - 1]);
        assert((d - 1) * c + 0 == (d - 1) * (c + 0));
    } else {
        assert(extra.take(0) =~= Seq::<bool>::empty());
        assert((d - 1) * 0 == 0);
    }
}

/// A share of zero weight is zero.
pub proof fn law_allocation_zero_weight(total: int, ratios: Seq<u64>, shares: Seq<int>, i: int)
    requires
        ratio_total(ratios) > 0,
        allocation(total, ratios, shares),
        0 <= i < ratios.len(),
        ratios[i] == 0,
    ensures
        shares[i] == 0,
{
    let d = ratio_total(ratios);
    let n = ratios.len() as int;
    let extra = choose|extra: Seq<bool>| #[trigger]
        takes_left_over(total, ratios, extra) && shares == share_values(total, ratios, extra);
    assert(magnitude_of(total) * 0 == 0 && 0int / d == 0 && 0int % d == 0) by (nonlinear_arith)
        requires
            d > 0,
    ;
    if extra[i] {
        assert forall|j: int| 0 <= j < ratios.len() && #[trigger] remainder(total, ratios, j) > 0 implies extra[j] by {
            if !extra[j] {
                assert(ahead(total, ratios, i, j));
            }
        }
        lemma_remainders_marked(total, ratios, extra, n);
        lemma_left_over(total, ratios);
        lemma_count_one(extra, i);
        assert(extra.take(n) =~= extra);
        let c = count_true(extra);
        assert(false) by (nonlinear_arith)
            requires
                c * d <= (d - 1) * c,
                c >= 1,
        ;
    }
}

proof fn lemma_count_subset(a: Seq<bool>, b: Seq<bool>)
    requires
        a.len() == b.len(),
        forall|j: int| 0 <= j < a.len() && b[j] ==> #[trigger] a[j],
    ensures
        count_true(b) <= count_true(a),
        count_true(a) == count_true(b) ==> a == b,
    decreases a.len(),
{
    if a.len() > 0 {
        let x = a.drop_last();
        let y = b.drop_last();
        assert forall|j: int| 0 <= j < x.len() && y[j] implies #[trigger] x[j] by {
            assert(b[j]);
            assert(a[j]);
        }
        lemma_count_subset(x, y);
        assert(b[a.len() - 1] ==> a[a.len() - 1]);
        if count_true(a) == count_true(b) {
            assert(a =~= x.push(a.last()));
            assert(b =~= y.push(b.last()));
        }
    } else {
        assert(a =~= b);
    }
}

/// A total and its ratios have one allocation.
pub proof fn law_allocation_unique(total: int, ratios: Seq<u64>, a: Seq<int>, b: Seq<int>)
    requires
        allocation(total, ratios, a),
        allocation(total, ratios, b),
    ensures
        a == b,
{
    let x = choose|x: Seq<bool>| #[trigger]
        takes_left_over(total, ratios, x) && a == share_values(total, ratios, x);
    let y = choose|y: Seq<bool>| #[trigger]
        takes_left_over(total, ratios, y) && b == share_values(total, ratios, y);
    if exists|i: int| 0 <= i < x.len() && x[i] && !y[i] {
        let i = choose|i: int| 0 <= i < x.len() && x[i] && !y[i];
        if exists|j: int| 0 <= j < x.len() && y[j] && !x[j] {
            let j = choose|j: int| 0 <= j < x.len() && y[j] && !x[j];
            assert(ahead(total, ratios, i, j));
            assert(ahead(total, ratios, j, i));
        } else {
            lemma_count_subset(x, y);
        }
    } else {
        lemma_count_subset(y, x);
    }
    assert(x == y);
}

/// Negating the total negates every allocated share.
pub proof fn law_allocation_negates(total: int, ratios: Seq<u64>, shares: Seq<int>)
    requires
        ratio_total(ratios) > 0,
        allocation(total, ratios, shares),
    ensures
        allocation(-total, ratios, shares.map_values(|v: int| -v)),
{
    let extra = choose|extra: Seq<bool>| #[trigger]
        takes_left_over(total, ratios, extra) && shares == share_values(total, ratios, extra);
    let d = ratio_total(ratios);
    assert forall|n: int| #[trigger] floor_total(-total, ratios, n) == floor_total(total, ratios, n) by {
        lemma_floor_total_sign(total, ratios, n);
    }
    assert forall|i: int, j: int|
        0 <= i < extra.len() && 0 <= j < extra.len() && extra[i] && !extra[j] implies #[trigger] ahead(-total, ratios, i, j) by {
        assert(ahead(total, ratios, i, j));
    }
    assert(takes_left_over(-total, ratios, extra));
    if total == 0 {
        lemma_left_over(total, ratios);
        assert forall|i: int| 0 <= i < ratios.len() implies floor_share(0, ratios, i) == 0 && !extra[i] by {
            assert(0 * ratios[i] as int == 0 && 0int / d == 0) by (nonlinear_arith)
                requires
                    d > 0,
            ;
            if extra[i] {
                lemma_count_one(extra, i);
                lemma_zero_floor_total(ratios, ratios.len() as int);
                lemma_zero_remainders(ratios, ratios.len() as int);
                let c = count_true(extra);
                assert(false) by (nonlinear_arith)
                    requires
                        c * d == 0,
                        c >= 1,
                        d > 0,
                ;
            }
        }
    }
    assert(shares.map_values(|v: int| -v) =~= share_values(-total, ratios, extra));
}

proof fn lemma_floor_total_sign(total: int, ratios: Seq<u64>, n: int)
    ensures
        floor_total(-total, ratios, n) == floor_total(total, ratios, n),
    decreases n,
{
    if n > 0 {
        lemma_floor_total_sign(total, ratios, n - 1);
    }
}

proof fn lemma_zero_floor_total(ratios: Seq<u64>, n: int)
    requires
        ratio_total(ratios) > 0,
        0 <= n <= ratios.len(),
    ensures
        floor_total(0, ratios, n) == 0,
    decreases n,
{
    if n > 0 {
        lemma_zero_floor_total(ratios, n - 1);
        let d = ratio_total(ratios);
        assert(0 * ratios[n - 1] as int == 0 && 0int / d == 0) by (nonlinear_arith)
            requires
                d > 0,
        ;
    }
}

proof fn lemma_zero_remainders(ratios: Seq<u64>, n: int)
    requires
        ratio_total(ratios) > 0,
        0 <= n <= ratios.len(),
    ensures
        remainder_total(0, ratios, n) == 0,
    decreases n,
{
    if n > 0 {
        lemma_zero_remainders(ratios, n - 1);
        let d = ratio_total(ratios);
        assert(0 * ratios[n - 1] as int == 0 && 0int % d == 0) by (nonlinear_arith)
            requires
                d > 0,
        ;
    }
}

/// What an amount is: a count of minor units of `10^-precision` of a commodity.
pub struct Amount {
    pub minor: int,
    pub commodity: Seq<char>,
    pub precision: nat,
}

pub open spec fn same_unit(a: Amount, b: Amount) -> bool {
    a.commodity == b.commodity && a.precision == b.precision
}

/// `a` with another count of minor units.
pub open spec fn with_minor(a: Amount, minor: int) -> Amount {
    Amount { minor, commodity: a.commodity, precision: a.precision }
}

/// An exact amount with its commodity and precision. Arithmetic refuses different commodities
/// even when they happen to use the same number of decimal places.
#[derive(Debug, Clone, Copy, PartialEq, Eq)]
pub struct Money {
    units: MinorUnits,
    // Commodity codes are validated ASCII of at most 12 bytes; padding is zero.
    commodity: [u8; 12],
    length: usize,
}

impl View for Money {
    type V = Amount;

    closed spec fn view(&self) -> Amount {
        Amount {
            minor: self.units.count(),
            commodity: Seq::new(self.length as nat, |i: int| self.commodity@[i] as char),
            precision: self.units.places(),
        }
    }
}

pub open spec fn unit_refusal(a: Amount, b: Amount) -> Seq<char> {
    "cannot combine "@ + a.commodity + " (precision "@ + nat_text(a.precision) + ") and "@ + (b.commodity + " (precision "@
        + nat_text(b.precision) + ")"@)
}

impl Money {
    pub closed spec fn padded(self) -> bool {
        &&& 1 <= self.length <= 12
        &&& forall|i: int| self.length <= i < 12 ==> self.commodity@[i] == 0
        &&& forall|i: int| 0 <= i < self.length ==> self.commodity@[i] < 128
    }

    #[verifier::type_invariant]
    pub open spec fn inv(self) -> bool {
        &&& self.padded()
        &&& self@.precision <= 8
        &&& i64::MIN <= self@.minor <= i64::MAX
        &&& stored_code(self@.commodity)
    }

    pub fn from_minor(minor: i64, commodity: &str, precision: u32) -> (r: Result<Money>)
        ensures
            match r {
                Ok(m) => amount_of(minor as int, commodity@, precision as int) == Ok::<Amount, Refusal>(m@),
                Err(e) => amount_of(minor as int, commodity@, precision as int) == Err::<Amount, Refusal>(e@),
            },
    {
        let code = match normalize_code(commodity) {
            Ok(c) => c,
            Err(e) => {
                return Err(e);
            },
        };
        let units = match MinorUnits::from_minor(minor, precision) {
            Ok(u) => u,
            Err(e) => {
                return Err(e);
            },
        };
        let cs = chars(code.as_str());
        let mut bytes: [u8; 12] = [0; 12];
        let mut i: usize = 0;
        while i < cs.len()
            invariant
                cs@ == code@,
                well_formed_code(code@),
                i <= cs.len() <= 12,
                bytes@.len() == 12,
                forall|k: int| i <= k < 12 ==> bytes@[k] == 0,
                forall|k: int| 0 <= k < i ==> #[trigger] bytes@[k] as char == cs@[k] && bytes@[k] < 128,
            decreases cs.len() - i,
        {
            assert(crate::entities::code_char(cs@[i as int]));
            bytes[i] = cs[i] as u8;
            i = i + 1;
        }
        let ghost shown = Seq::new(cs@.len(), |k: int| bytes@[k] as char);
        assert(shown =~= code@);
        let m = Money { units, commodity: bytes, length: cs.len() };
        assert(m@.commodity =~= code@);
        Ok(m)
    }

    pub fn from_major(major: Decimal, commodity: &str, precision: u32) -> (r: Result<Money>)
        ensures
            match r {
                Ok(m) => amount_of_major(major@, commodity@, precision as int) == Ok::<Amount, Refusal>(m@),
                Err(e) => amount_of_major(major@, commodity@, precision as int) == Err::<Amount, Refusal>(e@),
            },
            forall|c: int| #[trigger]
                normal((c, precision as nat)) == major@ && -9223372036854775808 <= c <= 9223372036854775808 && precision
                    <= MAX_PRECISION ==> minor_of(major@, precision as nat) == in_range(c),
    {
        match MinorUnits::from_major(major, precision) {
            Ok(u) => Money::from_minor(u.minor(), commodity, precision),
            Err(e) => Err(e),
        }
    }

    pub fn commodity(&self) -> (r: String)
        ensures
            r@ == self@.commodity,
    {
        proof {
            use_type_invariant(self);
        }
        let mut r: String = String::new();
        let mut i: usize = 0;
        while i < self.length
            invariant
                i <= self.length <= 12,
                r@ == self@.commodity.take(i as int),
            decreases self.length - i,
        {
            r.push(self.commodity[i] as char);
            i = i + 1;
            assert(r@ =~= self@.commodity.take(i as int));
        }
        assert(self@.commodity.take(i as int) =~= self@.commodity);
        r
    }

    pub fn precision(&self) -> (r: u32)
        ensures
            r == self@.precision,
            r <= MAX_PRECISION,
    {
        self.units.precision()
    }

    pub fn minor(&self) -> (r: i64)
        ensures
            r == self@.minor,
    {
        self.units.minor()
    }

    pub fn major(&self) -> (r: Decimal)
        ensures
            r@ == normal((self@.minor, self@.precision)),
    {
        self.units.major()
    }

    pub fn is_zero(&self) -> (r: bool)
        ensures
            r == (self@.minor == 0),
    {
        self.minor() == 0
    }

    pub fn is_negative(&self) -> (r: bool)
        ensures
            r == (self@.minor < 0),
    {
        self.minor() < 0
    }

    /// Whether both amounts count the same unit of the same commodity.
    pub fn has_unit_of(&self, other: &Money) -> (r: bool)
        ensures
            r == same_unit(self@, other@),
    {
        proof {
            use_type_invariant(self);
            use_type_invariant(other);
        }
        if self.length != other.length || self.precision() != other.precision() {
            assert(self@.commodity.len() == self.length && other@.commodity.len() == other.length);
            return false;
        }
        let mut i: usize = 0;
        while i < self.length
            invariant
                i <= self.length <= 12,
                self.length == other.length,
                self.padded(),
                other.padded(),
                forall|k: int| 0 <= k < i ==> self.commodity@[k] == other.commodity@[k],
            decreases self.length - i,
        {
            if self.commodity[i] != other.commodity[i] {
                assert(self@.commodity[i as int] == self.commodity@[i as int] as char);
                assert(other@.commodity[i as int] == other.commodity@[i as int] as char);
                return false;
            }
            i = i + 1;
        }
        assert(self@.commodity =~= other@.commodity);
        true
    }

    fn check_unit(&self, other: &Money) -> (r: Result<()>)
        ensures
            match r {
                Ok(_) => same_unit(self@, other@),
                Err(e) => !same_unit(self@, other@) && e.invalid(unit_refusal(self@, other@)),
            },
    {
        if self.has_unit_of(other) {
            return Ok(());
        }
        let mine = self.commodity();
        let theirs = other.commodity();
        let left = cat5(
            "cannot combine ",
            mine.as_str(),
            " (precision ",
            nat_string(self.precision() as u128).as_str(),
            ") and ",
        );
        let right = cat4(theirs.as_str(), " (precision ", nat_string(other.precision() as u128).as_str(), ")");
        Err(invalid(cat(left.as_str(), right.as_str()).as_str()))
    }

    pub fn with_count(self, minor: i64) -> (r: Money)
        ensures
            r@ == with_minor(self@, minor as int),
    {
        proof {
            use_type_invariant(&self);
        }
        let units = MinorUnits { minor, precision: self.units.precision() };
        let ghost m = Money { units, commodity: self.commodity, length: self.length };
        assert(m@.commodity =~= self@.commodity);
        Money { units, commodity: self.commodity, length: self.length }
    }

    pub fn checked_add(self, other: Money) -> (r: Result<Money>)
        ensures
            match r {
                Ok(m) => same_unit(self@, other@) && in_range(self@.minor + other@.minor) is Some && m@ == with_minor(
                    self@,
                    self@.minor + other@.minor,
                ),
                Err(e) => if !same_unit(self@, other@) {
                    e.invalid(unit_refusal(self@, other@))
                } else {
                    in_range(self@.minor + other@.minor) is None && e.invalid("money addition overflow"@)
                },
            },
    {
        proof {
            use_type_invariant(&self);
        }
        if let Err(e) = self.check_unit(&other) {
            return Err(e);
        }
        match self.minor().checked_add(other.minor()) {
            Some(minor) => Ok(self.with_count(minor)),
            None => Err(invalid("money addition overflow")),
        }
    }

    pub fn checked_sub(self, other: Money) -> (r: Result<Money>)
        ensures
            match r {
                Ok(m) => same_unit(self@, other@) && in_range(self@.minor - other@.minor) is Some && m@ == with_minor(
                    self@,
                    self@.minor - other@.minor,
                ),
                Err(e) => if !same_unit(self@, other@) {
                    e.invalid(unit_refusal(self@, other@))
                } else {
                    in_range(self@.minor - other@.minor) is None && e.invalid("money subtraction overflow"@)
                },
            },
    {
        if let Err(e) = self.check_unit(&other) {
            return Err(e);
        }
        match self.minor().checked_sub(other.minor()) {
            Some(minor) => Ok(self.with_count(minor)),
            None => Err(invalid("money subtraction overflow")),
        }
    }

    /// Sums in a checked commodity, using a wide accumulator so that cancellation does not
    /// overflow merely because an intermediate total exceeds 64 bits.
    pub fn checked_sum(self, values: &[Money]) -> (r: Result<Money>)
        ensures
            match r {
                Ok(m) => {
                    &&& forall|i: int| 0 <= i < values@.len() ==> same_unit(self@, (#[trigger] values@[i])@)
                    &&& in_range(self@.minor + minor_total(values@)) is Some
                    &&& m@ == with_minor(self@, self@.minor + minor_total(values@))
                },
                Err(e) => {
                    ||| first_other_unit(self@, values@) is Some && e.invalid(
                        unit_refusal(self@, values@[first_other_unit(self@, values@)->0]@),
                    )
                    ||| first_other_unit(self@, values@) is None && in_range(self@.minor + minor_total(values@)) is None
                        && e.invalid("money sum overflow"@)
                },
            },
    {
        let mut total: i128 = self.minor() as i128;
        let mut i: usize = 0;
        while i < values.len()
            invariant
                i <= values.len(),
                total == self@.minor + minor_total(values@.take(i as int)),
                -9223372036854775808 * (i + 1) <= total <= 9223372036854775807 * (i + 1),
                first_other_unit(self@, values@.take(i as int)) is None,
                forall|k: int| 0 <= k < i ==> same_unit(self@, (#[trigger] values@[k])@),
            decreases values.len() - i,
        {
            let value = values[i];
            if let Err(e) = self.check_unit(&value) {
                proof {
                    lemma_first_other(self@, values@, i as int);
                }
                return Err(e);
            }
            proof {
                use_type_invariant(&value);
                assert(values@.take(i + 1).drop_last() == values@.take(i as int));
                lemma_first_other_step(self@, values@, i as int);
                assert(9223372036854775807 * (i + 2) <= 9223372036854775807 * 18446744073709551617) by (nonlinear_arith)
                    requires
                        i + 1 <= 18446744073709551615,
                ;
            }
            total = total + value.minor() as i128;
            i = i + 1;
        }
        assert(values@.take(i as int) == values@);
        if total < -9223372036854775808 || total > 9223372036854775807 {
            return Err(invalid("money sum overflow"));
        }
        Ok(self.with_count(total as i64))
    }

    pub fn checked_neg(self) -> (r: Result<Money>)
        ensures
            match r {
                Ok(m) => self@.minor != i64::MIN && m@ == with_minor(self@, -self@.minor),
                Err(e) => self@.minor == i64::MIN && e.invalid("money negation overflow"@),
            },
    {
        let minor: i64 = self.minor();
        if minor == -9223372036854775808 {
            Err(invalid("money negation overflow"))
        } else {
            Ok(self.with_count(-minor))
        }
    }

    fn with_units(self, units: &Vec<MinorUnits>) -> (r: Vec<Money>)
        requires
            forall|i: int| 0 <= i < units@.len() ==> (#[trigger] units@[i]).places() == self@.precision,
        ensures
            r@.len() == units@.len(),
            forall|i: int| 0 <= i < units@.len() ==> (#[trigger] r@[i])@ == with_minor(self@, units@[i].count()),
    {
        let mut r: Vec<Money> = Vec::new();
        let mut i: usize = 0;
        while i < units.len()
            invariant
                i <= units.len(),
                r@.len() == i,
                forall|k: int| 0 <= k < i ==> (#[trigger] r@[k])@ == with_minor(self@, units@[k].count()),
            decreases units.len() - i,
        {
            r.push(self.with_count(units[i].minor()));
            i = i + 1;
        }
        r
    }

    pub fn split(self, parts: usize) -> (r: Result<Vec<Money>>)
        ensures
            match r {
                Ok(v) => {
                    &&& parts > 0
                    &&& v@.len() == parts
                    &&& forall|i: int|
                        0 <= i < v@.len() ==> (#[trigger] v@[i])@ == with_minor(self@, equal_shares(self@.minor, parts as int)[i])
                },
                Err(e) => if parts == 0 {
                    e.invalid("split needs at least one part"@)
                } else {
                    e.invalid("too many split parts"@)
                },
            },
    {
        match self.units.split(parts) {
            Ok(units) => {
                let v = self.with_units(&units);
                assert forall|i: int| 0 <= i < v@.len() implies (#[trigger] v@[i])@ == with_minor(
                    self@,
                    equal_shares(self@.minor, parts as int)[i],
                ) by {
                    assert(counts_of(units@)[i] == units@[i].count());
                }
                Ok(v)
            },
            Err(e) => Err(e),
        }
    }

    pub fn allocate(self, ratios: &[u64]) -> (r: Result<Vec<Money>>)
        ensures
            match r {
                Ok(v) => {
                    &&& ratio_total(ratios@) > 0
                    &&& v@.len() == ratios@.len()
                    &&& allocation(self@.minor, ratios@, minors_of(v@))
                    &&& forall|i: int| 0 <= i < v@.len() ==> same_unit((#[trigger] v@[i])@, self@)
                },
                Err(e) => ratio_total(ratios@) == 0 && e.invalid("allocation needs a positive total ratio"@),
            },
    {
        match self.units.allocate(ratios) {
            Ok(units) => {
                let v = self.with_units(&units);
                assert(minors_of(v@) =~= counts_of(units@));
                Ok(v)
            },
            Err(e) => Err(e),
        }
    }

    /// The parts in which an amount is sent: the count in digits, so that no reader loses any.
    pub fn to_wire(&self) -> (r: MoneyWire)
        ensures
            r.minor@ == int_text(self@.minor),
            r.commodity@ == self@.commodity,
            r.precision == self@.precision,
    {
        MoneyWire { minor: int_string(self.minor()), commodity: self.commodity(), precision: self.precision() }
    }

    pub fn from_wire(wire: &MoneyWire) -> (r: Result<Money>)
        ensures
            match r {
                Ok(m) => {
                    &&& int_in(wire.minor@) == Some(m@.minor)
                    &&& m@.commodity == code_form(wire.commodity@)
                    &&& m@.precision == wire.precision
                    &&& well_formed_code(code_form(wire.commodity@))
                    &&& wire.precision <= MAX_PRECISION
                },
                Err(e) => if int_in(wire.minor@) is None {
                    e.invalid("invalid minor-unit count"@)
                } else if !well_formed_code(code_form(wire.commodity@)) {
                    e.invalid("invalid commodity code "@ + debug_text(wire.commodity@))
                } else {
                    wire.precision > MAX_PRECISION && e.invalid(precision_refusal(wire.precision as int))
                },
            },
    {
        match parse_int(wire.minor.as_str()) {
            Some(minor) => Money::from_minor(minor, wire.commodity.as_str(), wire.precision),
            None => Err(invalid("invalid minor-unit count")),
        }
    }
}

/// An amount of a commodity in minor units, or why there is none.
pub open spec fn amount_of(minor: int, commodity: Seq<char>, precision: int) -> std::result::Result<Amount, Refusal> {
    if !well_formed_code(code_form(commodity)) {
        Err(Refusal::Invalid("invalid commodity code "@ + debug_text(commodity)))
    } else if precision > MAX_PRECISION {
        Err(Refusal::Invalid(precision_refusal(precision)))
    } else {
        Ok(Amount { minor, commodity: code_form(commodity), precision: precision as nat })
    }
}

/// An amount of a commodity in major units, or why there is none.
pub open spec fn amount_of_major(major: Num, commodity: Seq<char>, precision: int) -> std::result::Result<Amount, Refusal> {
    if precision > MAX_PRECISION {
        Err(Refusal::Invalid(precision_refusal(precision)))
    } else {
        match minor_of(major, precision as nat) {
            Some(m) => amount_of(m, commodity, precision),
            None => Err(Refusal::Invalid("amount out of range: "@ + decimal_text(major))),
        }
    }
}

/// The parts in which an amount is sent.
#[derive(Debug)]
pub struct MoneyWire {
    pub minor: String,
    pub commodity: String,
    pub precision: u32,
}

pub open spec fn minors_of(v: Seq<Money>) -> Seq<int> {
    v.map_values(|m: Money| m@.minor)
}

pub open spec fn minor_total(v: Seq<Money>) -> int
    decreases v.len(),
{
    if v.len() == 0 {
        0
    } else {
        minor_total(v.drop_last()) + v.last()@.minor
    }
}

/// The first of `values` that counts another unit than `a`.
pub open spec fn first_other_unit(a: Amount, values: Seq<Money>) -> Option<int>
    decreases values.len(),
{
    if values.len() == 0 {
        None
    } else {
        match first_other_unit(a, values.drop_last()) {
            Some(i) => Some(i),
            None => if same_unit(a, values.last()@) {
                None
            } else {
                Some(values.len() - 1)
            },
        }
    }
}

proof fn lemma_first_other_step(a: Amount, values: Seq<Money>, i: int)
    requires
        0 <= i < values.len(),
        first_other_unit(a, values.take(i)) is None,
    ensures
        first_other_unit(a, values.take(i + 1)) == (if same_unit(a, values[i]@) {
            None::<int>
        } else {
            Some(i)
        }),
{
    assert(values.take(i + 1).drop_last() == values.take(i));
}

proof fn lemma_first_other(a: Amount, values: Seq<Money>, i: int)
    requires
        0 <= i < values.len(),
        first_other_unit(a, values.take(i)) is None,
        !same_unit(a, values[i]@),
    ensures
        first_other_unit(a, values) == Some(i),
    decreases values.len() - i,
{
    lemma_first_other_step(a, values, i);
    lemma_first_other_kept(a, values, i, i + 1);
}

proof fn lemma_first_other_kept(a: Amount, values: Seq<Money>, i: int, k: int)
    requires
        0 <= i < k <= values.len(),
        first_other_unit(a, values.take(k)) == Some(i),
    ensures
        first_other_unit(a, values) == Some(i),
    decreases values.len() - k,
{
    if k == values.len() {
        assert(values.take(k) == values);
    } else {
        assert(values.take(k + 1).drop_last() == values.take(k));
        lemma_first_other_kept(a, values, i, k + 1);
    }
}

/// An amount that was sent is read back as it was: its parts pass every test of `from_wire` and
/// give the same amount.
pub proof fn law_wire_round_trip(m: Money, wire: MoneyWire)
    requires
        m.inv(),
        wire.minor@ == int_text(m@.minor),
        wire.commodity@ == m@.commodity,
        wire.precision == m@.precision,
    ensures
        int_in(wire.minor@) == Some(m@.minor),
        well_formed_code(code_form(wire.commodity@)),
        code_form(wire.commodity@) == m@.commodity,
        wire.precision <= MAX_PRECISION,
{
    crate::text::law_int_round_trip(m@.minor as i64);
    law_stored_code(m@.commodity);
}

/// The text that is read as a number: without the white space at its ends, `_` and spaces.
pub open spec fn number_text(s: Seq<char>) -> Seq<char> {
    kept(trimmed(s), |c: char| c != '_' && c != ' ')
}

/// Whether a text is written with an exponent.
pub open spec fn scientific(t: Seq<char>) -> bool {
    exists|i: int| 0 <= i < t.len() && (#[trigger] t[i] == 'e' || t[i] == 'E')
}

/// The decimal in a text: one with an exponent is none.
pub open spec fn decimal_in(t: Seq<char>) -> Option<Num> {
    if scientific(t) {
        None
    } else {
        number_in(t)
    }
}

fn is_scientific(t: &str) -> (r: bool)
    ensures
        r == scientific(t@),
{
    let cs = chars(t);
    let mut i: usize = 0;
    while i < cs.len()
        invariant
            i <= cs@.len(),
            cs@ == t@,
            forall|j: int| 0 <= j < i ==> #[trigger] t@[j] != 'e' && t@[j] != 'E',
        decreases cs@.len() - i,
    {
        if cs[i] == 'e' || cs[i] == 'E' {
            assert(t@[i as int] == 'e' || t@[i as int] == 'E');
            return true;
        }
        i = i + 1;
    }
    false
}

/// Parses a decimal string ("1234.56", "-0.5"; "1e3" is not one).
pub fn parse(s: &str) -> (r: Result<Decimal>)
    ensures
        match r {
            Ok(d) => number_text(s@).len() > 0 && decimal_in(number_text(s@)) == Some(d@),
            Err(e) => if number_text(s@).len() == 0 {
                e.invalid("empty amount"@)
            } else {
                decimal_in(number_text(s@)) is None && e.invalid("not a decimal: "@ + debug_text(s@))
            },
        },
{
    let cs = chars(s);
    let t = trim_chars(&cs);
    let mut kept_text: String = String::new();
    let mut i: usize = 0;
    let ghost keep = |c: char| c != '_' && c != ' ';
    while i < t.len()
        invariant
            i <= t.len(),
            keep == (|c: char| c != '_' && c != ' '),
            kept_text@ == kept(t@.take(i as int), keep),
        decreases t.len() - i,
    {
        assert(t@.take(i + 1).drop_last() == t@.take(i as int));
        if t[i] != '_' && t[i] != ' ' {
            kept_text.push(t[i]);
        }
        i = i + 1;
    }
    assert(t@.take(i as int) == t@);
    if kept_text.as_str().is_empty() {
        return Err(invalid("empty amount"));
    }
    if is_scientific(kept_text.as_str()) {
        return Err(invalid(cat("not a decimal: ", quoted(s).as_str()).as_str()));
    }
    match Decimal::parse(kept_text.as_str()) {
        Some(d) => Ok(d),
        None => Err(invalid(cat("not a decimal: ", quoted(s).as_str()).as_str())),
    }
}

/// Parses an optional decimal: blank text is none.
pub fn parse_opt(s: &str) -> (r: Result<Option<Decimal>>)
    ensures
        match r {
            Ok(None) => blank(s@),
            Ok(Some(d)) => !blank(s@) && number_text(s@).len() > 0 && decimal_in(number_text(s@)) == Some(d@),
            Err(e) => !blank(s@) && (if number_text(s@).len() == 0 {
                e.invalid("empty amount"@)
            } else {
                decimal_in(number_text(s@)) is None && e.invalid("not a decimal: "@ + debug_text(s@))
            }),
        },
{
    if is_blank(s) {
        return Ok(None);
    }
    match parse(s) {
        Ok(d) => Ok(Some(d)),
        Err(e) => Err(e),
    }
}

pub open spec fn number_char(c: char) -> bool {
    is_digit(c) || c == '-' || c == '.' || c == ',' || c == '(' || c == ')' || c == '+'
}

/// Whether the characters of a number stand in parentheses, which makes it negative.
pub open spec fn in_parentheses(s: Seq<char>) -> bool {
    let t = kept(s, |c: char| number_char(c));
    t.len() > 0 && t[0] == '(' && t.last() == ')'
}

pub open spec fn thousands_of(decimal_sep: char) -> char {
    if decimal_sep == ',' {
        '.'
    } else {
        ','
    }
}

/// The characters of a number that count: digits, signs and the decimal separator.
pub open spec fn plain_char(c: char, decimal_sep: char) -> bool {
    number_char(c) && c != '(' && c != ')' && c != '+' && c != thousands_of(decimal_sep)
}

pub open spec fn counts_in(decimal_sep: char) -> spec_fn(char) -> bool {
    |c: char| plain_char(c, decimal_sep)
}

pub open spec fn with_point(decimal_sep: char) -> spec_fn(char) -> char {
    |c: char| if c == decimal_sep { '.' } else { c }
}

/// A number in the form without thousands separators, with a point as its decimal separator.
pub open spec fn plain_number(s: Seq<char>, decimal_sep: char) -> Seq<char> {
    kept(s, counts_in(decimal_sep)).map_values(with_point(decimal_sep))
}

pub open spec fn negated_num(n: Num) -> Num {
    (-n.0, n.1)
}

/// What a number written with a locale stands for.
pub open spec fn localized(s: Seq<char>, decimal_sep: char) -> Option<Num> {
    let t = plain_number(trimmed(s), decimal_sep);
    if t.len() == 0 || t == seq!['-'] {
        None
    } else {
        match number_in(t) {
            Some(n) => Some(if in_parentheses(trimmed(s)) { negated_num(n) } else { n }),
            None => None,
        }
    }
}

/// Parses a number written with a locale: thousands separators and a decimal separator.
/// `decimal_sep` is `.` or `,`. Handles "1.234,56", "1,234.56", "R$ 1.234,56", "(12.30)".
pub fn parse_localized(s: &str, decimal_sep: char) -> (r: Result<Decimal>)
    ensures
        match r {
            Ok(d) => localized(s@, decimal_sep) == Some(d@),
            Err(e) => localized(s@, decimal_sep) is None && e.unreadable("not a number: "@ + debug_text(s@)),
        },
{
    let all = chars(s);
    let cs = trim_chars(&all);
    let thousands: char = if decimal_sep == ',' { '.' } else { ',' };
    let mut first: char = ' ';
    let mut last: char = ' ';
    let mut seen = false;
    let mut cleaned: Vec<char> = Vec::new();
    let ghost number = |c: char| number_char(c);
    let mut i: usize = 0;
    while i < cs.len()
        invariant
            i <= cs.len(),
            thousands == thousands_of(decimal_sep),
            number == (|c: char| number_char(c)),
            seen == (kept(cs@.take(i as int), number).len() > 0),
            seen ==> first == kept(cs@.take(i as int), number)[0] && last == kept(cs@.take(i as int), number).last(),
            cleaned@ == kept(cs@.take(i as int), counts_in(decimal_sep)).map_values(with_point(decimal_sep)),
        decreases cs.len() - i,
    {
        let c = cs[i];
        assert(cs@.take(i + 1).drop_last() == cs@.take(i as int));
        let ghost before = kept(cs@.take(i as int), counts_in(decimal_sep));
        if ascii_digit(c) || c == '-' || c == '.' || c == ',' || c == '(' || c == ')' || c == '+' {
            if !seen {
                first = c;
                seen = true;
            }
            last = c;
            if c != '(' && c != ')' && c != '+' && c != thousands {
                cleaned.push(if c == decimal_sep { '.' } else { c });
                assert(cleaned@ =~= before.push(c).map_values(with_point(decimal_sep)));
            }
        }
        i = i + 1;
    }
    assert(cs@.take(i as int) == cs@);
    assert(cleaned@ == plain_number(trimmed(s@), decimal_sep));
    let negative = seen && first == '(' && last == ')';
    if cleaned.len() == 0 || (cleaned.len() == 1 && cleaned[0] == '-') {
        assert(cleaned.len() == 1 ==> cleaned@ =~= seq!['-']);
        return Err(unreadable(cat("not a number: ", quoted(s).as_str()).as_str()));
    }
    match Decimal::parse(string(&cleaned).as_str()) {
        Some(d) => if negative {
            Ok(d.negated())
        } else {
            Ok(d)
        },
        None => Err(unreadable(cat("not a number: ", quoted(s).as_str()).as_str())),
    }
}

/// The last position of `c` in `s`.
pub open spec fn last_of(s: Seq<char>, c: char) -> Option<int>
    decreases s.len(),
{
    if s.len() == 0 {
        None
    } else if s.last() == c {
        Some(s.len() - 1)
    } else {
        last_of(s.drop_last(), c)
    }
}

/// The decimal separator that a number seems to be written with, `.` when that is unsure: the
/// last of the two that occur; a lone comma, unless it looks like a thousands separator.
pub open spec fn likely_decimal_sep(s: Seq<char>, bytes: int) -> char {
    match (last_of(s, '.'), last_of(s, ',')) {
        (Some(d), Some(c)) => if c > d {
            ','
        } else {
            '.'
        },
        (None, Some(c)) => if kept(s.skip(c + 1), |ch: char| is_digit(ch)).len() == 3 && bytes > 4 {
            '.'
        } else {
            ','
        },
        _ => '.',
    }
}

/// Guesses the decimal separator of a number string. Returns `.` when unsure.
pub fn guess_decimal_sep(s: &str) -> (r: char)
    ensures
        r == likely_decimal_sep(s@, s.len() as int),
{
    let cs = chars(s);
    let mut dot: Option<usize> = None;
    let mut comma: Option<usize> = None;
    let mut digits: usize = 0;
    let mut i: usize = 0;
    let ghost digit = |ch: char| is_digit(ch);
    while i < cs.len()
        invariant
            i <= cs.len(),
            digit == (|ch: char| is_digit(ch)),
            match dot {
                Some(p) => last_of(cs@.take(i as int), '.') == Some(p as int),
                None => last_of(cs@.take(i as int), '.') is None,
            },
            match comma {
                Some(p) => p < i && last_of(cs@.take(i as int), ',') == Some(p as int) && digits == kept(
                    cs@.subrange(p + 1, i as int),
                    digit,
                ).len(),
                None => last_of(cs@.take(i as int), ',') is None,
            },
            digits <= i,
        decreases cs.len() - i,
    {
        let c = cs[i];
        assert(cs@.take(i + 1).drop_last() == cs@.take(i as int));
        if let Some(p) = comma {
            assert(cs@.subrange(p + 1, i + 1).drop_last() == cs@.subrange(p + 1, i as int));
        }
        if c == '.' {
            dot = Some(i);
        }
        if c == ',' {
            comma = Some(i);
            digits = 0;
            assert(cs@.subrange(i + 1, i + 1) =~= Seq::<char>::empty());
        } else if ascii_digit(c) {
            digits = digits + 1;
        }
        i = i + 1;
    }
    assert(cs@.take(i as int) == cs@);
    match (dot, comma) {
        (Some(d), Some(c)) => if c > d {
            ','
        } else {
            '.'
        },
        (None, Some(c)) => {
            assert(cs@.subrange(c + 1, cs@.len() as int) == cs@.skip(c + 1));
            if digits == 3 && s.len() > 4 {
                '.'
            } else {
                ','
            }
        },
        _ => '.',
    }
}

/// Rounds to a commodity's precision, half to even.
pub fn round_to(d: Decimal, precision: u32) -> (r: Decimal)
    ensures
        r@ == rounded(d@, precision as nat),
{
    d.round_dp(precision)
}

/// A number with zeros after it so that it has `p` decimal places, which is not fewer than it has.
pub open spec fn fixed_text(n: Num, p: nat) -> Seq<char> {
    if n.1 >= p {
        decimal_text(n)
    } else if n.1 == 0 {
        decimal_text(n) + seq!['.'] + zeros(p)
    } else {
        decimal_text(n) + zeros((p - n.1) as nat)
    }
}

/// Formats with exactly `precision` decimals.
pub fn fmt(d: Decimal, precision: u32) -> (r: String)
    ensures
        r@ == fixed_text(rounded(d@, precision as nat), precision as nat),
{
    let n = round_to(d, precision);
    let mut r = n.text();
    let scale: u32 = n.scale();
    if scale < precision {
        if scale == 0 {
            r.push('.');
        }
        let ghost lead = r@;
        let mut k: u32 = scale;
        assert(zeros(0) =~= Seq::<char>::empty());
        while k < precision
            invariant
                scale <= k <= precision,
                r@ == lead + zeros((k - scale) as nat),
            decreases precision - k,
        {
            r.push('0');
            k = k + 1;
            assert(r@ =~= lead + zeros((k - scale) as nat));
        }
    }
    r
}

/// Formats an optional decimal, nothing for none.
pub fn fmt_opt(d: Option<Decimal>, precision: u32) -> (r: String)
    ensures
        r@ == (match d {
            Some(v) => fixed_text(rounded(v@, precision as nat), precision as nat),
            None => Seq::empty(),
        }),
{
    match d {
        Some(v) => fmt(v, precision),
        None => String::new(),
    }
}

/// Shows a decimal without zeros at the end of its decimal places.
pub fn plain(d: Decimal) -> (r: String)
    ensures
        r@ == decimal_text(normal(d@)),
{
    d.normalize().text()
}

/// How many decimal places amounts in a currency have, unless the commodity says otherwise.
pub open spec fn places_of(code: Seq<char>) -> u32 {
    if code == "JPY"@ || code == "KRW"@ || code == "VND"@ || code == "CLP"@ || code == "ISK"@ || code == "HUF"@ || code
        == "TWD"@ {
        0
    } else if code == "BHD"@ || code == "KWD"@ || code == "OMR"@ || code == "JOD"@ || code == "TND"@ {
        3
    } else if code == "BTC"@ || code == "ETH"@ || code == "SOL"@ || code == "LTC"@ {
        8
    } else {
        2
    }
}

/// Default display precision for a currency code.
pub fn default_precision(code: &str) -> (r: u32)
    ensures
        r == places_of(code@),
{
    if same(code, "JPY") || same(code, "KRW") || same(code, "VND") || same(code, "CLP") || same(code, "ISK") || same(
        code,
        "HUF",
    ) || same(code, "TWD") {
        0
    } else if same(code, "BHD") || same(code, "KWD") || same(code, "OMR") || same(code, "JOD") || same(code, "TND") {
        3
    } else if same(code, "BTC") || same(code, "ETH") || same(code, "SOL") || same(code, "LTC") {
        8
    } else {
        2
    }
}

/// The number of major units that an amount is.
pub open spec fn in_major(a: Amount) -> real {
    value((a.minor, a.precision))
}

/// A pair at a scale of at most `p` is a whole number of units of `10^-p`.
pub proof fn lemma_units(n: Num, p: nat)
    requires
        n.1 <= p,
    ensures
        value(n) * (pow10(p) as real) == (n.0 * pow10((p - n.1) as nat)) as real,
        value(n) == value((n.0 * pow10((p - n.1) as nat), p)),
{
    let d = (p - n.1) as nat;
    lemma_pow10_sum(n.1, d);
    lemma_pow10_positive(n.1);
    lemma_pow10_positive(d);
    lemma_pow10_positive(p);
    lemma_whole_product(pow10(n.1), pow10(d));
    lemma_whole_product(n.0, pow10(d));
    let (m, q, r) = (n.0 as real, pow10(n.1) as real, pow10(d) as real);
    assert((m / q) * (q * r) == m * r) by (nonlinear_arith)
        requires
            q > 0real,
    ;
    assert(m / q == (m * r) / (q * r)) by (nonlinear_arith)
        requires
            q > 0real,
            r > 0real,
    ;
}

/// The minor units of a number are the whole number nearest to its product with `10^precision`.
pub proof fn law_minor_nearest(major: Num, precision: nat)
    ensures
        minor_of(major, precision) matches Some(c) ==> 100real * distance(c as real, value(major) * (pow10(precision) as real)) < 51real,
{
    if let Some(c) = minor_of(major, precision) {
        let n = multiplied(major, (pow10(precision), 0))->0;
        let d = pow10(n.1);
        law_arithmetic_near(major, (pow10(precision), 0));
        lemma_value_whole(pow10(precision));
        lemma_pow10_positive(n.1);
        lemma_half_even_nearest(n.0, d);
        lemma_whole_product(c, d);
        let x = value(major) * (pow10(precision) as real);
        let (h, m, q) = (c as real, n.0 as real, d as real);
        let v = m / q;
        assert(v * q == m) by (nonlinear_arith)
            requires
                q > 0real,
                v == m / q,
        ;
        assert(-1real <= 2real * (h - v) <= 1real) by (nonlinear_arith)
            requires
                q > 0real,
                v * q == m,
                -q <= 2real * (h * q - m) <= q,
        ;
    }
}

/// A number that is whole in minor units has exactly those.
pub proof fn law_minor_exact(major: Num, precision: nat, units: int)
    requires
        value(major) * (pow10(precision) as real) == units as real,
    ensures
        minor_of(major, precision) matches Some(c) ==> c == units,
{
    law_minor_nearest(major, precision);
}

/// An amount of so many major units is within a minor unit of them, and exactly that many where they are
/// whole in minor units.
pub proof fn law_amount_of_major(major: Num, commodity: Seq<char>, precision: int)
    requires
        precision >= 0,
    ensures
        amount_of_major(major, commodity, precision) matches Ok(a) ==> {
            &&& a.precision == precision && precision <= 8 && a.commodity == code_form(commodity)
            &&& 100real * distance(in_major(a), value(major)) * (pow10(a.precision) as real) < 51real
            &&& major.1 <= precision ==> in_major(a) == value(major)
        },
{
    if let Ok(a) = amount_of_major(major, commodity, precision) {
        let p = precision as nat;
        law_minor_nearest(major, p);
        lemma_pow10_positive(p);
        lemma_units((a.minor, p), p);
        assert(pow10(0) == 1);
        let (x, y, q) = (in_major(a), value(major), pow10(p) as real);
        let one = pow10((p - p) as nat);
        assert(one == 1);
        assert(a.minor * one == a.minor) by (nonlinear_arith)
            requires
                one == 1,
        ;
        assert(x * q == a.minor as real);
        let far = distance(x, y);
        let minors = distance(a.minor as real, y * q);
        assert(far * q == minors) by (nonlinear_arith)
            requires
                x * q - y * q == minors || y * q - x * q == minors,
                minors >= 0real,
                far == x - y || far == y - x,
                far >= 0real,
                q > 0real,
        ;
        assert(100real * far * q < 51real) by (nonlinear_arith)
            requires
                far * q == minors,
                100real * minors < 51real,
        ;
        if major.1 <= precision {
            lemma_units(major, p);
            law_minor_exact(major, p, major.0 * pow10((p - major.1) as nat));
        }
    }
}

proof fn lemma_scaled_apart(a: real, b: real, k: real, bound: real)
    requires
        distance(a, b) <= bound,
    ensures
        distance(k * a, k * b) <= distance(k, 0real) * bound,
{
    let far = distance(a, b);
    assert(distance(k * a, k * b) <= distance(k, 0real) * bound) by (nonlinear_arith)
        requires
            far == a - b || far == b - a,
            far >= 0real,
            far <= bound,
            distance(k * a, k * b) == k * a - k * b || distance(k * a, k * b) == k * b - k * a,
            distance(k, 0real) == k || distance(k, 0real) == -k,
            distance(k, 0real) >= 0real,
            k >= 0real ==> distance(k, 0real) == k,
            k < 0real ==> distance(k, 0real) == -k,
    ;
}

/// What becomes of `b` units at a rate that is near `z`, in minor units of which one has `p` in a unit.
pub proof fn lemma_converted_near(z: real, b: real, p: real, rate: Num, product: Num, minor: int)
    requires
        near(z, rate),
        near(b * value(rate), product),
        100real * distance(minor as real, value(product) * p) < 51real,
        1real <= p <= 100000000real,
        distance(b, 0real) <= 10000000000000000000real,
        i64::MIN <= minor <= i64::MAX,
    ensures
        distance(minor as real, b * z * p) < 1real,
{
    let unit = 10000000000000000000000000000real;
    let (r, n, k) = (value(rate), value(product), minor as real);
    let (x, y) = (b * z, b * r);
    let (xs, ys, ns) = (x * p, y * p, n * p);
    let size = distance(b, 0real);
    let e = (1real + 10real * distance(z, 0real)) / unit;
    assert(distance(r, z) <= e);
    lemma_scaled_apart(r, z, b, e);
    assert(size * distance(z, 0real) == distance(x, 0real)) by (nonlinear_arith)
        requires
            x == b * z,
            size == distance(b, 0real),
    ;
    assert(distance(y, x) * unit <= size + 10real * distance(x, 0real)) by (nonlinear_arith)
        requires
            distance(y, x) <= size * e,
            e * unit == 1real + 10real * distance(z, 0real),
            size * distance(z, 0real) == distance(x, 0real),
            unit > 0real,
    ;
    let e2 = (size + 10real * distance(x, 0real)) / unit;
    lemma_scaled_apart(y, x, p, e2);
    assert(p * y == ys && p * x == xs && p * n == ns) by (nonlinear_arith)
        requires
            ys == y * p,
            xs == x * p,
            ns == n * p,
    ;
    assert(p * distance(x, 0real) == distance(xs, 0real)) by (nonlinear_arith)
        requires
            xs == x * p,
            p >= 1real,
    ;
    assert(p * distance(y, 0real) == distance(ys, 0real)) by (nonlinear_arith)
        requires
            ys == y * p,
            p >= 1real,
    ;
    assert(p * size <= 1000000000000000000000000000real) by (nonlinear_arith)
        requires
            1real <= p <= 100000000real,
            0real <= size <= 10000000000000000000real,
    ;
    assert(distance(ys, xs) * unit <= p * size + 10real * distance(xs, 0real)) by (nonlinear_arith)
        requires
            distance(ys, xs) <= p * e2,
            e2 * unit == size + 10real * distance(x, 0real),
            p * distance(x, 0real) == distance(xs, 0real),
            unit > 0real,
    ;
    let e3 = (1real + 10real * distance(y, 0real)) / unit;
    lemma_scaled_apart(n, y, p, e3);
    assert(distance(ns, ys) * unit <= p + 10real * distance(ys, 0real)) by (nonlinear_arith)
        requires
            distance(ns, ys) <= p * e3,
            e3 * unit == 1real + 10real * distance(y, 0real),
            p * distance(y, 0real) == distance(ys, 0real),
            unit > 0real,
    ;
}

/// An amount of money is at most 10^19 in major units, and has a whole number of minor ones.
pub proof fn lemma_money_size(a: Amount)
    requires
        a.precision <= 8,
        i64::MIN <= a.minor <= i64::MAX,
    ensures
        distance(in_major(a), 0real) <= 10000000000000000000real,
        a.minor != 0 ==> distance(in_major(a), 0real) * 100000000real >= 1real,
        a.minor > 0 ==> in_major(a) > 0real,
        a.minor < 0 ==> in_major(a) < 0real,
        1real <= pow10(a.precision) as real <= 100000000real,
{
    reveal_with_fuel(pow10, 10);
    lemma_pow10_positive(a.precision);
    let (m, p) = (a.minor as real, pow10(a.precision) as real);
    let v = m / p;
    assert(v * p == m) by (nonlinear_arith)
        requires
            p >= 1real,
            v == m / p,
    ;
    assert(distance(v, 0real) <= 10000000000000000000real && (m != 0real ==> distance(v, 0real) * 100000000real >= 1real) && (m > 0real ==> v
        > 0real) && (m < 0real ==> v < 0real)) by (nonlinear_arith)
        requires
            v * p == m,
            1real <= p <= 100000000real,
            -10000000000000000000real <= m <= 10000000000000000000real,
            m >= 1real || m == 0real || m <= -1real,
    ;
}

proof fn lemma_kept_joined(a: Seq<char>, b: Seq<char>, keep: spec_fn(char) -> bool)
    ensures
        kept(a + b, keep) == kept(a, keep) + kept(b, keep),
    decreases b.len(),
{
    if b.len() == 0 {
        assert(a + b =~= a);
        assert(kept(a, keep) + kept(b, keep) =~= kept(a, keep));
    } else {
        assert((a + b).drop_last() =~= a + b.drop_last());
        lemma_kept_joined(a, b.drop_last(), keep);
        assert(kept(a + b, keep) =~= kept(a, keep) + kept(b, keep));
    }
}

/// Thousands separators do not count, wherever they stand: a comma where the point is the decimal separator,
/// a point where the comma is.
pub proof fn law_thousands_ignored(a: Seq<char>, b: Seq<char>, decimal_sep: char)
    requires
        decimal_sep == '.' || decimal_sep == ',',
    ensures
        plain_number(a + seq![if decimal_sep == ',' { '.' } else { ',' }] + b, decimal_sep) == plain_number(a + b, decimal_sep),
{
    let keep = counts_in(decimal_sep);
    reveal_with_fuel(kept, 3);
    let t: Seq<char> = seq![if decimal_sep == ',' { '.' } else { ',' }];
    lemma_kept_joined(a + t, b, keep);
    lemma_kept_joined(a, t, keep);
    lemma_kept_joined(a, b, keep);
    assert(t.drop_last() =~= Seq::<char>::empty());
    assert(kept(t, keep) =~= Seq::<char>::empty());
    assert(kept(a, keep) + Seq::<char>::empty() =~= kept(a, keep));
}

/// Digits count as they are, and the decimal separator becomes a point.
pub proof fn law_digits_kept(a: Seq<char>, b: Seq<char>, decimal_sep: char)
    requires
        decimal_sep == '.' || decimal_sep == ',',
        forall|i: int| 0 <= i < a.len() ==> is_digit(#[trigger] a[i]),
        forall|i: int| 0 <= i < b.len() ==> is_digit(#[trigger] b[i]),
    ensures
        plain_number(a + seq![decimal_sep] + b, decimal_sep) == a + seq!['.'] + b,
{
    let keep = counts_in(decimal_sep);
    reveal_with_fuel(kept, 3);
    lemma_kept_joined(a + seq![decimal_sep], b, keep);
    lemma_kept_joined(a, seq![decimal_sep], keep);
    lemma_kept_digits(a, decimal_sep);
    lemma_kept_digits(b, decimal_sep);
    let t: Seq<char> = seq![decimal_sep];
    assert(t.drop_last() =~= Seq::<char>::empty());
    assert(kept(t, keep) =~= t);
    assert(plain_number(a + t + b, decimal_sep) =~= a + seq!['.'] + b);
}

proof fn lemma_kept_digits(a: Seq<char>, decimal_sep: char)
    requires
        forall|i: int| 0 <= i < a.len() ==> is_digit(#[trigger] a[i]),
        decimal_sep == '.' || decimal_sep == ',',
    ensures
        kept(a, counts_in(decimal_sep)) == a,
    decreases a.len(),
{
    if a.len() > 0 {
        let head = a.drop_last();
        assert forall|i: int| 0 <= i < head.len() implies is_digit(#[trigger] head[i]) by {
            assert(head[i] == a[i]);
        }
        lemma_kept_digits(head, decimal_sep);
        assert(is_digit(a[a.len() - 1]));
        assert(head.push(a.last()) =~= a);
    }
}

/// A number in parentheses is the negation of what stands in them.
pub proof fn law_parentheses_negate(s: Seq<char>, inner: Seq<char>, decimal_sep: char)
    requires
        trimmed(s) == seq!['('] + inner + seq![')'],
        trimmed(inner) == inner,
        !in_parentheses(inner),
    ensures
        localized(s, decimal_sep) is Some == localized(inner, decimal_sep) is Some,
        localized(inner, decimal_sep) matches Some(n) ==> localized(s, decimal_sep) == Some((-n.0, n.1)),
{
    let keep = counts_in(decimal_sep);
    reveal_with_fuel(kept, 3);
    let (open, shut) = (seq!['('], seq![')']);
    lemma_kept_joined(open + inner, shut, keep);
    lemma_kept_joined(open, inner, keep);
    assert(open.drop_last() =~= Seq::<char>::empty());
    assert(shut.drop_last() =~= Seq::<char>::empty());
    assert(kept(open, keep) =~= Seq::<char>::empty());
    assert(kept(shut, keep) =~= Seq::<char>::empty());
    assert(kept(trimmed(s), keep) =~= kept(inner, keep));
    let all = |c: char| number_char(c);
    lemma_kept_joined(open + inner, shut, all);
    lemma_kept_joined(open, inner, all);
    assert(kept(open, all) =~= open);
    assert(kept(shut, all) =~= shut);
    let t = kept(trimmed(s), all);
    assert(t =~= open + kept(inner, all) + shut);
    assert(t[0] == '(' && t.last() == ')');
}

/// Where a number has both a point and a comma, the last of them is its decimal separator.
pub proof fn law_last_separator_is_decimal(s: Seq<char>, bytes: int, i: int)
    requires
        0 <= i < s.len(),
        s[i] == '.' || s[i] == ',',
        forall|k: int| i < k < s.len() ==> (#[trigger] s[k]) != '.' && s[k] != ',',
        s.contains('.') && s.contains(','),
    ensures
        likely_decimal_sep(s, bytes) == s[i],
{
    lemma_last_of(s, '.');
    lemma_last_of(s, ',');
}

proof fn lemma_last_of(s: Seq<char>, c: char)
    ensures
        match last_of(s, c) {
            Some(i) => 0 <= i < s.len() && s[i] == c && forall|k: int| i < k < s.len() ==> (#[trigger] s[k]) != c,
            None => !s.contains(c),
        },
    decreases s.len(),
{
    if s.len() > 0 {
        lemma_last_of(s.drop_last(), c);
        let head = s.drop_last();
        if s.last() != c {
            if let Some(i) = last_of(head, c) {
                assert(head[i] == s[i]);
                assert forall|k: int| i < k < s.len() implies (#[trigger] s[k]) != c by {
                    if k < head.len() {
                        assert(head[k] == s[k]);
                    }
                }
            } else {
                assert forall|k: int| 0 <= k < s.len() implies (#[trigger] s[k]) != c by {
                    if k < head.len() {
                        assert(head[k] == s[k]);
                    }
                }
            }
        }
    }
}

} // verus!
