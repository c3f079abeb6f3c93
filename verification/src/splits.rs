//! Amount validation shared by capture and draft categorization.

use vstd::prelude::*;

use crate::decimal::{
    added, decimal_text, distance, law_sums_exact, lemma_same_value, lemma_value_whole, same_value, subtracted, tame, value, Decimal, Num,
};
use crate::error::{invalid, Result};
use crate::text::cat4;

verus! {

#[derive(Debug, Clone)]
pub struct Leg {
    pub account_id: i64,
    /// Amount in the bank account's currency (negative for discounts); only the final leg may
    /// omit it.
    pub quantity: Option<Decimal>,
    pub memo: String,
}

/// The amount of the leg `i`, where `sum` is that of the legs before it.
pub open spec fn leg_amount(total: Num, legs: Seq<Leg>, i: int, sum: Num) -> std::result::Result<Num, Seq<char>> {
    match legs[i].quantity {
        Some(q) => Ok(q@),
        None => if i + 1 == legs.len() {
            match subtracted(total, sum) {
                Some(d) => Ok(d),
                None => Err("split amount overflow"@),
            }
        } else {
            Err("only the last split can take the remainder"@)
        },
    }
}

/// The amounts of the first `n` legs and their sum, or why there is none.
pub open spec fn legs_after(total: Num, legs: Seq<Leg>, n: int) -> std::result::Result<(Seq<Num>, Num), Seq<char>>
    decreases n,
{
    if n <= 0 {
        Ok((Seq::empty(), (0, 0)))
    } else {
        match legs_after(total, legs, n - 1) {
            Err(m) => Err(m),
            Ok((amounts, sum)) => match leg_amount(total, legs, n - 1, sum) {
                Err(m) => Err(m),
                Ok(q) => if q.0 == 0 || (legs[n - 1].quantity is None && q.0 < 0) {
                    Err("split amounts must be nonzero and an omitted remainder must be positive"@)
                } else {
                    match added(sum, q) {
                        Some(s) => Ok((amounts.push(q), s)),
                        None => Err("split total overflow"@),
                    }
                },
            },
        }
    }
}

/// The amounts of all legs, or why there are none: they are nonzero and add up to the total.
pub open spec fn resolved_legs(total: Num, legs: Seq<Leg>) -> std::result::Result<Seq<Num>, Seq<char>> {
    if total.0 <= 0 || legs.len() == 0 {
        Err("a positive total and at least one split are required"@)
    } else {
        match legs_after(total, legs, legs.len() as int) {
            Err(m) => Err(m),
            Ok((amounts, sum)) => if same_value(sum, total) {
                Ok(amounts)
            } else {
                Err("splits sum to "@ + decimal_text(sum) + " but the amount is "@ + decimal_text(total))
            },
        }
    }
}

/// A leg with its amount.
#[derive(Debug, Clone)]
pub struct ResolvedLeg {
    pub account_id: i64,
    pub quantity: Decimal,
    pub memo: String,
}

proof fn lemma_failed(total: Num, legs: Seq<Leg>, n: int, k: int)
    requires
        0 <= n <= k <= legs.len(),
        legs_after(total, legs, n) is Err,
    ensures
        legs_after(total, legs, k) == legs_after(total, legs, n),
    decreases k - n,
{
    if n < k {
        lemma_failed(total, legs, n, k - 1);
    }
}

pub fn resolve(total: Decimal, legs: &[Leg]) -> (r: Result<Vec<ResolvedLeg>>)
    ensures
        match r {
            Ok(v) => {
                &&& resolved_legs(total@, legs@) is Ok
                &&& v@.len() == legs@.len()
                &&& resolved_legs(total@, legs@)->Ok_0.len() == legs@.len()
                &&& forall|i: int|
                    0 <= i < v@.len() ==> (#[trigger] v@[i]).account_id == legs@[i].account_id && v@[i].quantity@ == resolved_legs(
                        total@,
                        legs@,
                    )->Ok_0[i] && v@[i].memo == legs@[i].memo
            },
            Err(e) => resolved_legs(total@, legs@) is Err && e.invalid(resolved_legs(total@, legs@)->Err_0),
        },
{
    if total.is_zero() || total.is_negative() || legs.len() == 0 {
        return Err(invalid("a positive total and at least one split are required"));
    }
    let mut sum = Decimal::zero();
    let mut out: Vec<ResolvedLeg> = Vec::new();
    let mut i: usize = 0;
    while i < legs.len()
        invariant
            i <= legs.len(),
            total@.0 > 0,
            legs@.len() > 0,
            legs_after(total@, legs@, i as int) is Ok,
            ({
                let (amounts, s) = legs_after(total@, legs@, i as int)->Ok_0;
                &&& s == sum@
                &&& amounts.len() == i
                &&& out@.len() == i
                &&& forall|k: int|
                    0 <= k < i ==> (#[trigger] out@[k]).account_id == legs@[k].account_id && out@[k].quantity@ == amounts[k]
                        && out@[k].memo == legs@[k].memo
            }),
        decreases legs.len() - i,
    {
        proof {
            if legs_after(total@, legs@, i + 1) is Err {
                lemma_failed(total@, legs@, i + 1, legs@.len() as int);
            }
        }
        let q = match legs[i].quantity {
            Some(q) => q,
            None => {
                if i + 1 != legs.len() {
                    return Err(invalid("only the last split can take the remainder"));
                }
                match total.checked_sub(sum) {
                    Some(d) => d,
                    None => {
                        return Err(invalid("split amount overflow"));
                    },
                }
            },
        };
        if q.is_zero() || (legs[i].quantity.is_none() && q.is_negative()) {
            return Err(invalid("split amounts must be nonzero and an omitted remainder must be positive"));
        }
        match sum.checked_add(q) {
            Some(s) => {
                sum = s;
            },
            None => {
                return Err(invalid("split total overflow"));
            },
        }
        out.push(ResolvedLeg { account_id: legs[i].account_id, quantity: q, memo: legs[i].memo.clone() });
        i = i + 1;
    }
    if !sum.same(total) {
        return Err(invalid(cat4("splits sum to ", sum.text().as_str(), " but the amount is ", total.text().as_str()).as_str()));
    }
    Ok(out)
}

/// What the first `n` of some numbers are together.
pub open spec fn value_sum(v: Seq<Num>, n: int) -> real
    decreases n,
{
    if n <= 0 {
        0real
    } else {
        value_sum(v, n - 1) + value(v[n - 1])
    }
}

proof fn lemma_sum_prefix(v: Seq<Num>, q: Num, n: int)
    requires
        n <= v.len(),
    ensures
        value_sum(v.push(q), n) == value_sum(v, n),
    decreases n,
{
    if n > 0 {
        lemma_sum_prefix(v, q, n - 1);
    }
}

proof fn lemma_legs_sum(total: Num, legs: Seq<Leg>, n: int)
    requires
        0 <= n <= legs.len() <= 1000000,
        tame(total, 10000000000000real),
        forall|i: int| 0 <= i < legs.len() ==> ((#[trigger] legs[i]).quantity matches Some(q) ==> tame(q@, 10000000000000real)),
    ensures
        legs_after(total, legs, n) matches Ok((v, sum)) ==> {
            &&& v.len() == n
            &&& sum.1 <= 8
            &&& value(sum) == value_sum(v, n)
            &&& n < legs.len() ==> distance(value(sum), 0real) <= (n as real) * 10000000000000real
            &&& distance(value(sum), 0real) <= 20000000000000000000real
            &&& forall|i: int| 0 <= i < n ==> (#[trigger] v[i]).0 != 0 && (legs[i].quantity matches Some(q) ==> v[i] == q@)
            &&& forall|i: int| 0 <= i < n && legs[i].quantity is None ==> i + 1 == legs.len() && (#[trigger] v[i]).0 > 0
            &&& forall|i: int|
                0 <= i < n && legs[i].quantity is None ==> value(#[trigger] v[i]) == value(total) - value_sum(v, i)
        },
    decreases n,
{
    lemma_value_whole(0);
    if n > 0 {
        lemma_legs_sum(total, legs, n - 1);
        if let Ok((v, sum)) = legs_after(total, legs, n - 1) {
            let m = n - 1;
            assert((m as real) * 10000000000000real <= 10000000000000000000real) by (nonlinear_arith)
                requires
                    0 <= m <= 1000000,
            ;
            assert((n as real) * 10000000000000real == (m as real) * 10000000000000real + 10000000000000real) by (nonlinear_arith)
                requires
                    m == n - 1,
            ;
            law_sums_exact(total, sum);
            if let Ok(q) = leg_amount(total, legs, n - 1, sum) {
                assert(legs[n - 1].quantity is Some ==> tame(q, 10000000000000real));
                assert(tame(q, 100000000000000000000real));
                law_sums_exact(sum, q);
                lemma_sum_prefix(v, q, n - 1);
                if let Ok((w, s)) = legs_after(total, legs, n) {
                    assert(w == v.push(q));
                    assert(legs[n - 1].quantity is None ==> n == legs.len());
                    assert forall|i: int| 0 <= i < n - 1 implies (#[trigger] legs[i]).quantity is Some by {
                        assert(v[i].0 != 0);
                    }
                    assert(value(s) == value_sum(w, n));
                    assert(legs[n - 1].quantity is None ==> value(w[n - 1]) == value(total) - value_sum(w, n - 1));
                    assert forall|i: int| 0 <= i < n implies (#[trigger] w[i]).0 != 0 && (legs[i].quantity matches Some(x) ==> w[i] == x@) by {
                        if i < n - 1 {
                            assert(w[i] == v[i]);
                        }
                    }
                    assert forall|i: int| 0 <= i < n && legs[i].quantity is None implies i + 1 == legs.len() && (#[trigger] w[i]).0 > 0 by {
                        if i < n - 1 {
                            assert(w[i] == v[i]);
                        }
                    }
                }
            }
        }
    }
}

/// The legs of a split are the amounts that are given, none of them zero, and add up to the total; a last
/// leg without an amount takes what the others leave, which is above zero.
pub proof fn law_legs_add_up(total: Num, legs: Seq<Leg>)
    requires
        legs.len() <= 1000000,
        tame(total, 10000000000000real),
        forall|i: int| 0 <= i < legs.len() ==> ((#[trigger] legs[i]).quantity matches Some(q) ==> tame(q@, 10000000000000real)),
    ensures
        resolved_legs(total, legs) matches Ok(v) ==> {
            &&& v.len() == legs.len() && total.0 > 0
            &&& value_sum(v, v.len() as int) == value(total)
            &&& forall|i: int| 0 <= i < v.len() ==> (#[trigger] v[i]).0 != 0 && (legs[i].quantity matches Some(q) ==> v[i] == q@)
            &&& forall|i: int| 0 <= i < v.len() && (#[trigger] legs[i]).quantity is None ==> i + 1 == v.len()
            &&& forall|i: int|
                0 <= i < v.len() && legs[i].quantity is None ==> (#[trigger] v[i]).0 > 0 && value(v[i]) == value(total) - value_sum(v, i)
        },
{
    lemma_legs_sum(total, legs, legs.len() as int);
    if let Ok((v, sum)) = legs_after(total, legs, legs.len() as int) {
        lemma_same_value(sum, total);
        assert forall|i: int| 0 <= i < v.len() && (#[trigger] legs[i]).quantity is None implies i + 1 == v.len() by {
            assert(v[i].0 != 0);
        }
    }
}

} // verus!
