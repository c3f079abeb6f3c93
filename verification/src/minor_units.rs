//! Rescaling of amounts that were stored with one scale of 10^8 for every commodity to minor
//! units of the commodity each value is in.
//!
//! A value that is not a whole number of its minor units is a refusal, not a rounding.

use vstd::prelude::*;

use crate::decimal::{pow10, value};
use crate::error::{invalid, Result};
use crate::money::{lemma_units, power_of_ten, MAX_PRECISION};
use crate::text::{cat, cat3, cat5, int_string, int_text};

verus! {

/// The decimals every quantity and amount was stored with.
pub const UNIFORM_DIGITS: u32 = 8;

/// How many stored units make one minor unit.
pub open spec fn units_per_minor(precision: int) -> int {
    pow10((8 - precision) as nat)
}

pub open spec fn rescale_text(stored: int, code: Seq<char>, what: Seq<char>) -> Seq<char> {
    what + " is "@ + int_text(stored) + " at the old scale of 10^8, which is not a whole number of "@ + code + " minor units"@
}

/// What quotient and remainder of the magnitude say of a number with a sign.
proof fn lemma_split(s: int, m: int, k: int)
    requires
        k >= 1,
        m >= 0,
        s == m || s == -m,
    ensures
        m % k != 0 ==> s % k != 0,
        m % k == 0 ==> (m / k) * k == m && (-(m / k)) * k == -m,
        0 <= m / k <= m,
{
    let q = m / k;
    let rest = m % k;
    vstd::arithmetic::div_mod::lemma_fundamental_div_mod(m, k);
    vstd::arithmetic::mul::lemma_mul_is_commutative(k, q);
    vstd::arithmetic::mul::lemma_mul_unary_negation(q, k);
    vstd::arithmetic::div_mod::lemma_div_pos_is_pos(m, k);
    vstd::arithmetic::div_mod::lemma_div_is_ordered_by_denominator(m, 1, k);
    vstd::arithmetic::div_mod::lemma_div_basics(m);
    if rest != 0 && s == -m {
        vstd::arithmetic::mul::lemma_mul_unary_negation(q + 1, k);
        vstd::arithmetic::mul::lemma_mul_is_distributive_add_other_way(k, q, 1);
        vstd::arithmetic::mul::lemma_mul_basics(k);
        vstd::arithmetic::div_mod::lemma_fundamental_div_mod_converse(s, k, -(q + 1), k - rest);
    }
}

/// A stored value in minor units of its commodity.
pub fn to_minor(stored: i64, precision: u32, code: &str, what: &str) -> (r: Result<i64>)
    requires
        precision <= MAX_PRECISION,
    ensures
        match r {
            Ok(m) => m * units_per_minor(precision as int) == stored,
            Err(e) => stored as int % units_per_minor(precision as int) != 0 && e.invalid(
                rescale_text(stored as int, code@, what@),
            ),
        },
{
    let divisor: i64 = power_of_ten(UNIFORM_DIGITS - precision);
    let negative = stored < 0;
    let magnitude: u64 = if negative { (-(stored as i128)) as u64 } else { stored as u64 };
    let d: u64 = divisor as u64;
    let q: u64 = magnitude / d;
    let rest: u64 = magnitude % d;
    proof {
        lemma_split(stored as int, magnitude as int, d as int);
    }
    if rest != 0 {
        let left = cat5(
            what,
            " is ",
            int_string(stored).as_str(),
            " at the old scale of 10^8, which is not a whole number of ",
            code,
        );
        return Err(invalid(cat(left.as_str(), " minor units").as_str()));
    }
    if negative {
        Ok((-(q as i128)) as i64)
    } else {
        Ok(q as i64)
    }
}

/// Whether a commodity has a precision that amounts can be stored with.
pub fn check_stored_precision(code: &str, precision: i64) -> (r: Result<()>)
    ensures
        match r {
            Ok(_) => 0 <= precision <= MAX_PRECISION,
            Err(e) => !(0 <= precision <= MAX_PRECISION) && e.invalid(
                "commodity "@ + code@ + " has precision "@ + int_text(precision as int) + "; a commodity has 0 to 8 decimals"@,
            ),
        },
{
    if precision < 0 || precision > 8 {
        return Err(
            invalid(
                cat5(
                    "commodity ",
                    code,
                    " has precision ",
                    int_string(precision).as_str(),
                    "; a commodity has 0 to 8 decimals",
                ).as_str(),
            ),
        );
    }
    Ok(())
}

/// A commodity of a value, as far as it is known.
#[derive(Debug)]
pub struct Unit {
    pub precision: Option<u32>,
    pub code: Option<String>,
}

impl Unit {
    pub fn resolved(self, missing: &str) -> (r: Result<(u32, String)>)
        ensures
            match r {
                Ok((p, c)) => self.precision == Some(p) && self.code == Some(c),
                Err(e) => (self.precision is None || self.code is None) && e.invalid(missing@),
            },
    {
        match (self.precision, self.code) {
            (Some(p), Some(c)) => Ok((p, c)),
            _ => Err(invalid(missing)),
        }
    }
}

/// A posting as it was stored: the quantity is in its account's commodity, the amount in the
/// functional currency of the entity the entry belongs to.
#[derive(Debug)]
pub struct PostingRow {
    pub id: i64,
    pub quantity: i64,
    pub amount: i64,
    pub account: Unit,
    pub functional: Unit,
}

/// Why a posting cannot be rescaled.
pub open spec fn posting_refusal(row: PostingRow) -> Option<Seq<char>> {
    let id = int_text(row.id as int);
    if row.account.precision is None || row.account.code is None {
        Some("posting "@ + id + " has no account commodity"@)
    } else if row.functional.precision is None || row.functional.code is None {
        Some("posting "@ + id + " has no functional currency"@)
    } else if row.quantity as int % units_per_minor(row.account.precision->0 as int) != 0 {
        Some(rescale_text(row.quantity as int, row.account.code->0@, "the quantity of posting "@ + id))
    } else if row.amount as int % units_per_minor(row.functional.precision->0 as int) != 0 {
        Some(rescale_text(row.amount as int, row.functional.code->0@, "the amount of posting "@ + id))
    } else {
        None
    }
}

proof fn lemma_multiple(m: int, d: int, s: int)
    requires
        m * d == s,
        d > 0,
    ensures
        s % d == 0,
{
    vstd::arithmetic::div_mod::lemma_mod_multiples_basic(m, d);
}

/// The quantity and the amount of a posting in minor units.
pub fn rescale_posting(row: PostingRow) -> (r: Result<(i64, i64)>)
    requires
        row.account.precision is Some ==> row.account.precision->0 <= MAX_PRECISION,
        row.functional.precision is Some ==> row.functional.precision->0 <= MAX_PRECISION,
    ensures
        match r {
            Ok((q, a)) => {
                &&& posting_refusal(row) is None
                &&& q * units_per_minor(row.account.precision->0 as int) == row.quantity
                &&& a * units_per_minor(row.functional.precision->0 as int) == row.amount
            },
            Err(e) => posting_refusal(row) is Some && e.invalid(posting_refusal(row)->0),
        },
{
    let ghost whole = row;
    let id = int_string(row.id);
    let (qp, qc) = match row.account.resolved(cat3("posting ", id.as_str(), " has no account commodity").as_str()) {
        Ok(u) => u,
        Err(e) => {
            return Err(e);
        },
    };
    let (ap, ac) = match row.functional.resolved(cat3("posting ", id.as_str(), " has no functional currency").as_str()) {
        Ok(u) => u,
        Err(e) => {
            return Err(e);
        },
    };
    proof {
        crate::decimal::lemma_pow10_positive((8 - qp) as nat);
        crate::decimal::lemma_pow10_positive((8 - ap) as nat);
    }
    let q = match to_minor(row.quantity, qp, qc.as_str(), cat("the quantity of posting ", id.as_str()).as_str()) {
        Ok(q) => q,
        Err(e) => {
            return Err(e);
        },
    };
    proof {
        lemma_multiple(q as int, units_per_minor(qp as int), row.quantity as int);
    }
    let a = match to_minor(row.amount, ap, ac.as_str(), cat("the amount of posting ", id.as_str()).as_str()) {
        Ok(a) => a,
        Err(e) => {
            return Err(e);
        },
    };
    proof {
        lemma_multiple(a as int, units_per_minor(ap as int), row.amount as int);
    }
    Ok((q, a))
}

/// A statement line as it was stored: it is in its account's commodity; a line with no account
/// names it.
#[derive(Debug)]
pub struct LineRow {
    pub id: i64,
    pub amount: Option<i64>,
    pub balance_after: Option<i64>,
    pub unit: Unit,
}

pub open spec fn line_refusal(row: LineRow) -> Option<Seq<char>> {
    let id = int_text(row.id as int);
    if row.unit.precision is None || row.unit.code is None {
        Some(
            "statement line "@ + id
                + " has a value but no commodity: it has neither an account nor a currency that names one"@,
        )
    } else if row.amount is Some && row.amount->0 as int % units_per_minor(row.unit.precision->0 as int) != 0 {
        Some(rescale_text(row.amount->0 as int, row.unit.code->0@, "the amount of statement line "@ + id))
    } else if row.balance_after is Some && row.balance_after->0 as int % units_per_minor(row.unit.precision->0 as int) != 0 {
        Some(rescale_text(row.balance_after->0 as int, row.unit.code->0@, "the balance after statement line "@ + id))
    } else {
        None
    }
}

/// Whether `new` is `old` in minor units, where there is a value.
pub open spec fn rescaled(old: Option<i64>, new: Option<i64>, precision: int) -> bool {
    match (old, new) {
        (Some(o), Some(n)) => n * units_per_minor(precision) == o,
        (None, None) => true,
        _ => false,
    }
}

fn rescale_opt(v: Option<i64>, precision: u32, code: &str, what: &str) -> (r: Result<Option<i64>>)
    requires
        precision <= MAX_PRECISION,
    ensures
        match r {
            Ok(n) => rescaled(v, n, precision as int) && (v is Some ==> v->0 as int % units_per_minor(precision as int) == 0),
            Err(e) => v is Some && v->0 as int % units_per_minor(precision as int) != 0 && e.invalid(
                rescale_text(v->0 as int, code@, what@),
            ),
        },
{
    match v {
        Some(stored) => match to_minor(stored, precision, code, what) {
            Ok(n) => {
                proof {
                    crate::decimal::lemma_pow10_positive((8 - precision) as nat);
                    lemma_multiple(n as int, units_per_minor(precision as int), stored as int);
                }
                Ok(Some(n))
            },
            Err(e) => Err(e),
        },
        None => Ok(None),
    }
}

/// The amount of a statement line and the balance after it in minor units.
pub fn rescale_line(row: LineRow) -> (r: Result<(Option<i64>, Option<i64>)>)
    requires
        row.unit.precision is Some ==> row.unit.precision->0 <= MAX_PRECISION,
    ensures
        match r {
            Ok((a, b)) => {
                &&& line_refusal(row) is None
                &&& rescaled(row.amount, a, row.unit.precision->0 as int)
                &&& rescaled(row.balance_after, b, row.unit.precision->0 as int)
            },
            Err(e) => line_refusal(row) is Some && e.invalid(line_refusal(row)->0),
        },
{
    let id = int_string(row.id);
    let missing = cat3(
        "statement line ",
        id.as_str(),
        " has a value but no commodity: it has neither an account nor a currency that names one",
    );
    let (precision, code) = match row.unit.resolved(missing.as_str()) {
        Ok(u) => u,
        Err(e) => {
            return Err(e);
        },
    };
    let a = match rescale_opt(
        row.amount,
        precision,
        code.as_str(),
        cat("the amount of statement line ", id.as_str()).as_str(),
    ) {
        Ok(a) => a,
        Err(e) => {
            return Err(e);
        },
    };
    match rescale_opt(
        row.balance_after,
        precision,
        code.as_str(),
        cat("the balance after statement line ", id.as_str()).as_str(),
    ) {
        Ok(b) => Ok((a, b)),
        Err(e) => Err(e),
    }
}

/// A value that was kept in hundred-millionths is the same value in the minor units that it is rescaled to.
pub proof fn law_rescaled_keeps_value(old: i64, new: i64, precision: nat)
    requires
        precision <= 8,
        rescaled(Some(old), Some(new), precision as int),
    ensures
        value((new as int, precision)) == value((old as int, 8)),
{
    lemma_units((new as int, precision), 8);
}

} // verus!
