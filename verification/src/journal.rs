//! The posting service: journal entries and their postings.
//!
//! Entries balance in functional currency; postings stay inside one entity; quantities are
//! valued at the entry-date rate and the rate is stored; locked or reconciled entries do not
//! change, corrections are reversals.

use vstd::prelude::*;

use crate::accounts::{find_by_role, find_place, lemma_place, place_of, role_place};
use crate::date::{iso, iso_text, Date};
use crate::decimal::{
    decimal_text, distance, divided, law_arithmetic_near, law_rounded_nearest, lemma_near_rounded, lemma_pow10_positive, lemma_same_value,
    lemma_value_whole, multiplied, normal, pow10, rounded, value, view_of, within, Decimal, Num,
};
use crate::entities::{code_form, commodity_named, functional_places, functional_precision, get_commodity_by_code};
use crate::error::{conflict, invalid, locked, not_found, unbalanced, Error, Refusal, Result};
use crate::model::{meta_copy, meta_set, meta_without, Account, Commodity, Entity, EntryInput, EntryStatus, MetaEntry, MetaValue, PostingInput, Price};
use crate::money::{
    amount_of, amount_of_major, in_major, in_range, law_amount_of_major, law_minor_exact, lemma_normal, lemma_normal_negated, lemma_units,
    minor_total, negated_num, plain, round_to, same_unit, unit_refusal, with_minor, Amount, Money,
};
use crate::rates::{rate_for, rate_of};
use crate::text::{cat, cat3, cat4, cat5, int_string, int_text, own, same, trim, trimmed, upper, uppered};

verus! {

/// Whether `date` lies in the locked period of an entity.
pub open spec fn is_locked(entity: Entity, date: Date) -> bool {
    entity.lock_date is Some && !entity.lock_date->0.before(date)
}

pub open spec fn lock_text(entity: Entity, date: Date) -> Seq<char> {
    iso_text(date) + " is on or before the lock date "@ + iso_text(entity.lock_date->0) + " of "@ + entity.name@
}

pub fn check_lock(entity: &Entity, date: Date) -> (r: Result<()>)
    ensures
        match r {
            Ok(_) => !is_locked(*entity, date),
            Err(e) => is_locked(*entity, date) && e.locked(lock_text(*entity, date)),
        },
{
    if let Some(lock) = entity.lock_date {
        if !lock.is_before(date) {
            return Err(
                locked(
                    cat5(
                        iso(date).as_str(),
                        " is on or before the lock date ",
                        iso(lock).as_str(),
                        " of ",
                        entity.name.as_str(),
                    ).as_str(),
                ),
            );
        }
    }
    Ok(())
}

/// Drafts remain editable; posted and void entries retain their period protection.
pub fn check_mutation_lock(entity: &Entity, status: EntryStatus, date: Date) -> (r: Result<()>)
    ensures
        match r {
            Ok(_) => status == EntryStatus::Draft || !is_locked(*entity, date),
            Err(e) => status != EntryStatus::Draft && is_locked(*entity, date) && e.locked(lock_text(*entity, date)),
        },
{
    if status != EntryStatus::Draft {
        check_lock(entity, date)
    } else {
        Ok(())
    }
}

/// What the books know: the accounts with their paths, the commodities, the prices.
#[derive(Debug)]
pub struct Books {
    pub accounts: Vec<Account>,
    pub commodities: Vec<Commodity>,
    pub prices: Vec<Price>,
}

/// A posting that is valid and has its value.
#[derive(Debug)]
pub struct Prepared {
    pub account_id: i64,
    pub account_path: String,
    pub quantity: Money,
    pub amount: Money,
    pub rate: Option<Decimal>,
    pub rate_source: String,
    pub memo: String,
    pub metadata: Vec<MetaEntry>,
    pub external_id: Option<String>,
    pub fingerprint: Option<String>,
}

/// What a posting is worth: the place of its account, its quantity and its amount, the rate
/// between them and where that comes from.
pub struct Row {
    pub place: int,
    pub quantity: Amount,
    pub amount: Amount,
    pub rate: Option<Num>,
    pub source: Seq<char>,
}

pub open spec fn out_of_range(n: Num) -> Refusal {
    Refusal::Invalid("amount out of range: "@ + decimal_text(n))
}

fn range_error(n: Decimal) -> (e: Error)
    ensures
        e@ == out_of_range(n@),
{
    invalid(cat("amount out of range: ", n.text().as_str()).as_str())
}

/// A number of one commodity in another, with the rate and its source. Without a rate it is taken
/// one to one and marked as missing. There is none where the product cannot be written.
pub open spec fn valued(prices: Seq<Price>, from: Seq<char>, to: Seq<char>, date: Date, n: Num, places: nat) -> Option<
    (Num, Option<Num>, Seq<char>),
> {
    if from == to {
        Some((rounded(n, places), None, Seq::empty()))
    } else {
        match rate_of(prices, uppered(trimmed(from)), uppered(trimmed(to)), date) {
            Some((rate, source)) => match multiplied(n, rate) {
                Some(p) => Some((rounded(p, places), Some(rate), source)),
                None => None,
            },
            None => Some((rounded(n, places), Some((1, 0)), "missing"@)),
        }
    }
}

struct Valued {
    number: Decimal,
    rate: Option<Decimal>,
    source: String,
}

/// Converts a number in `from` to `to`.
fn convert(prices: &[Price], from: &str, to: &str, date: Date, n: Decimal, places: u32) -> (r: Option<Valued>)
    ensures
        match r {
            Some(v) => valued(prices@, from@, to@, date, n@, places as nat) == Some((v.number@, view_of(v.rate), v.source@)),
            None => valued(prices@, from@, to@, date, n@, places as nat) is None,
        },
{
    if same(from, to) {
        return Some(Valued { number: round_to(n, places), rate: None, source: String::new() });
    }
    match rate_for(prices, from, to, date) {
        Some(l) => match n.checked_mul(l.rate) {
            Some(p) => Some(Valued { number: round_to(p, places), rate: Some(l.rate), source: l.source }),
            None => None,
        },
        None => Some(Valued { number: round_to(n, places), rate: Some(Decimal::one()), source: own("missing") }),
    }
}

/// Why an account cannot take a posting of an entity.
pub open spec fn account_refusal(a: Account, entity: Entity, keep_closed: Seq<i64>) -> Option<Refusal> {
    if a.entity_id != entity.id {
        Some(Refusal::Invalid("account "@ + a.path@ + " belongs to another entity"@))
    } else if a.placeholder {
        Some(Refusal::Invalid(a.path@ + " is a placeholder and cannot take postings"@))
    } else if a.closed_at is Some && !keep_closed.contains(a.id) {
        Some(Refusal::Invalid(a.path@ + " is closed"@))
    } else {
        None
    }
}

fn contains_id(ids: &[i64], id: i64) -> (r: bool)
    ensures
        r == ids@.contains(id),
{
    let mut i: usize = 0;
    while i < ids.len()
        invariant
            i <= ids.len(),
            forall|k: int| 0 <= k < i ==> ids@[k] != id,
        decreases ids.len() - i,
    {
        if ids[i] == id {
            assert(ids@[i as int] == id);
            return true;
        }
        i = i + 1;
    }
    false
}

fn check_account(a: &Account, entity: &Entity, keep_closed: &[i64]) -> (r: Result<()>)
    ensures
        match r {
            Ok(_) => account_refusal(*a, *entity, keep_closed@) is None,
            Err(e) => account_refusal(*a, *entity, keep_closed@) == Some(e@),
        },
{
    if a.entity_id != entity.id {
        return Err(invalid(cat3("account ", a.path.as_str(), " belongs to another entity").as_str()));
    }
    if a.placeholder {
        return Err(invalid(cat(a.path.as_str(), " is a placeholder and cannot take postings").as_str()));
    }
    if a.is_closed() && !contains_id(keep_closed, a.id) {
        return Err(invalid(cat(a.path.as_str(), " is closed").as_str()));
    }
    Ok(())
}

/// What a posting with its value in another commodity is worth: the value is converted to
/// functional currency, and that to the account's commodity.
#[verifier::opaque]
pub open spec fn valued_row(b: Books, entity: Entity, fprec: int, date: Date, p: PostingInput, place: int) -> std::result::Result<
    Row,
    Refusal,
> {
    let a = b.accounts@[place];
    let code = uppered(trimmed((p.value_in->0).1@));
    match commodity_named(b.commodities@, code) {
        Err(e) => Err(e),
        Ok(c) => {
            let value = rounded((p.value_in->0).0@, c.precision as nat);
            match valued(b.prices@, code, entity.currency@, date, value, fprec as nat) {
                None => Err(out_of_range(value)),
                Some((n, rate, source)) => match amount_of_major(n, entity.currency@, fprec) {
                    Err(e) => Err(e),
                    Ok(amount) => match quantity_of(b, entity, date, a, code, value, n) {
                        None => Err(out_of_range(n)),
                        Some(q) => match amount_of_major(q, a.commodity@, a.precision as int) {
                            Err(e) => Err(e),
                            Ok(quantity) => Ok(Row { place, quantity, amount, rate, source }),
                        },
                    },
                },
            }
        },
    }
}

/// The quantity on an account of a value in the commodity `code` that is worth `n` in functional
/// currency.
pub open spec fn quantity_of(b: Books, entity: Entity, date: Date, a: Account, code: Seq<char>, value: Num, n: Num) -> Option<Num> {
    if a.commodity@ == entity.currency@ {
        Some(n)
    } else if a.commodity@ == code {
        Some(value)
    } else {
        match valued(b.prices@, entity.currency@, a.commodity@, date, n, a.precision as nat) {
            Some((q, _, _)) => Some(q),
            None => None,
        }
    }
}

/// What a posting of a quantity, with or without its amount, is worth.
#[verifier::opaque]
pub open spec fn plain_row(b: Books, entity: Entity, fprec: int, date: Date, p: PostingInput, place: int) -> std::result::Result<
    Row,
    Refusal,
> {
    let a = b.accounts@[place];
    let q = rounded(p.quantity@, a.precision as nat);
    if q.0 == 0 && p.amount is None {
        Err(Refusal::Invalid("posting on "@ + a.path@ + " has a zero quantity"@))
    } else {
        match amount_of_major(q, a.commodity@, a.precision as int) {
            Err(e) => Err(e),
            Ok(quantity) => match p.amount {
                Some(given) => match amount_of_major(given@, entity.currency@, fprec) {
                    Err(e) => Err(e),
                    Ok(amount) => given_row(entity, a, q, place, quantity, amount),
                },
                None => match valued(b.prices@, a.commodity@, entity.currency@, date, q, fprec as nat) {
                    None => Err(out_of_range(q)),
                    Some((n, rate, source)) => match amount_of_major(n, entity.currency@, fprec) {
                        Err(e) => Err(e),
                        Ok(amount) => Ok(Row { place, quantity, amount, rate, source }),
                    },
                },
            },
        }
    }
}

/// A posting whose amount is given: in functional currency the two are equal, and otherwise they
/// have one sign and their quotient is the rate.
pub open spec fn given_row(entity: Entity, a: Account, q: Num, place: int, quantity: Amount, amount: Amount) -> std::result::Result<
    Row,
    Refusal,
> {
    if a.commodity@ == entity.currency@ && !(same_unit(amount, quantity) && amount.minor == quantity.minor) {
        Err(
            Refusal::Invalid(
                "posting on "@ + a.path@ + " must have equal quantity and amount in "@ + entity.currency@,
            ),
        )
    } else if q.0 != 0 && amount.minor != 0 && (amount.minor < 0) != (q.0 < 0) {
        Err(Refusal::Invalid("posting on "@ + a.path@ + " must have quantity and amount with the same sign"@))
    } else if a.commodity@ == entity.currency@ {
        Ok(Row { place, quantity, amount, rate: None, source: Seq::empty() })
    } else if q.0 == 0 {
        Ok(Row { place, quantity, amount, rate: None, source: "input"@ })
    } else {
        match divided(normal((amount.minor, amount.precision)), q) {
            Some(rate) => Ok(Row { place, quantity, amount, rate: Some(rounded(rate, 12)), source: "input"@ }),
            None => Err(out_of_range(normal((amount.minor, amount.precision)))),
        }
    }
}

/// What a posting is worth; one that balances the entry nothing yet.
#[verifier::opaque]
pub open spec fn posting_row(
    b: Books,
    entity: Entity,
    fprec: int,
    date: Date,
    p: PostingInput,
    keep_closed: Seq<i64>,
    balanced: bool,
) -> std::result::Result<Row, Refusal> {
    match place_of(b.accounts@, p.account_id) {
        None => Err(Refusal::NotFound("account "@ + int_text(p.account_id as int))),
        Some(place) => {
            let a = b.accounts@[place];
            match account_refusal(a, entity, keep_closed) {
                Some(e) => Err(e),
                None => match amount_of(0, a.commodity@, a.precision as int) {
                    Err(e) => Err(e),
                    Ok(quantity) => match amount_of(0, entity.currency@, fprec) {
                        Err(e) => Err(e),
                        Ok(amount) => if p.balance {
                            if balanced {
                                Err(Refusal::Invalid("only one posting per entry can balance it"@))
                            } else {
                                Ok(Row { place, quantity, amount, rate: None, source: Seq::empty() })
                            }
                        } else if p.value_in is Some {
                            valued_row(b, entity, fprec, date, p, place)
                        } else {
                            plain_row(b, entity, fprec, date, p, place)
                        },
                    },
                },
            }
        },
    }
}

pub open spec fn nonempty(s: Option<String>) -> Option<String> {
    match s {
        Some(t) => if t@.len() > 0 {
            Some(t)
        } else {
            None
        },
        None => None,
    }
}

fn filled(s: &Option<String>) -> (r: Option<String>)
    ensures
        r == nonempty(*s),
{
    match s {
        Some(t) => if !t.as_str().is_empty() {
            Some(t.clone())
        } else {
            None
        },
        None => None,
    }
}

/// Whether `m` is what a prepared posting carries along: what the input does, with a mark on the
/// posting that balances and with the value of one valued in another commodity.
pub open spec fn carried(b: Books, p: PostingInput, m: Seq<MetaEntry>) -> bool {
    if p.balance {
        &&& m.len() > 0
        &&& m.drop_last() == meta_without(p.metadata@, "balance"@)
        &&& m.last().key@ == "balance"@
        &&& m.last().value == MetaValue::Flag(true)
    } else if p.value_in is Some {
        let code = uppered(trimmed((p.value_in->0).1@));
        &&& m.len() > 0
        &&& m.drop_last() == meta_without(p.metadata@, "value_in"@)
        &&& m.last().key@ == "value_in"@
        &&& m.last().value matches MetaValue::Value { quantity, commodity } && commodity@ == code && quantity@ == decimal_text(
            normal(rounded((p.value_in->0).0@, (commodity_named(b.commodities@, code)->Ok_0).precision as nat)),
        )
    } else {
        m == p.metadata@
    }
}

/// Whether a prepared posting is worth what `row` says.
pub open spec fn worth(b: Books, x: Prepared, row: Row) -> bool {
    &&& 0 <= row.place < b.accounts@.len()
    &&& x.account_id == b.accounts@[row.place].id
    &&& x.account_path == b.accounts@[row.place].path
    &&& x.quantity@ == row.quantity
    &&& x.amount@ == row.amount
    &&& view_of(x.rate) == row.rate
    &&& x.rate_source@ == row.source
}

/// Whether a prepared posting carries what the input does.
pub open spec fn labelled(b: Books, x: Prepared, p: PostingInput) -> bool {
    &&& x.memo == p.memo
    &&& x.external_id == nonempty(p.external_id)
    &&& x.fingerprint == nonempty(p.fingerprint)
    &&& carried(b, p, x.metadata@)
}

fn prepare_valued(b: &Books, entity: &Entity, fprec: u32, date: Date, p: &PostingInput, place: usize, value_in: &(Decimal, String)) -> (r:
    Result<(Money, Money, Option<Decimal>, String, Vec<MetaEntry>)>)
    requires
        p.value_in == Some(*value_in),
        !p.balance,
        place < b.accounts@.len(),
    ensures
        match r {
            Ok((quantity, amount, rate, source, metadata)) => {
                &&& valued_row(*b, *entity, fprec as int, date, *p, place as int) == Ok::<Row, Refusal>(
                    Row { place: place as int, quantity: quantity@, amount: amount@, rate: view_of(rate), source: source@ },
                )
                &&& carried(*b, *p, metadata@)
            },
            Err(e) => valued_row(*b, *entity, fprec as int, date, *p, place as int) == Err::<Row, Refusal>(e@),
        },
{
    proof {
        reveal(valued_row);
    }
    let a = &b.accounts[place];
    let code = upper(trim(value_in.1.as_str()).as_str());
    let commodity = match get_commodity_by_code(&b.commodities, code.as_str()) {
        Ok(c) => c,
        Err(e) => {
            return Err(e);
        },
    };
    let value = round_to(value_in.0, commodity.precision);
    let v = match convert(&b.prices, code.as_str(), entity.currency.as_str(), date, value, fprec) {
        Some(v) => v,
        None => {
            return Err(range_error(value));
        },
    };
    let amount = match Money::from_major(v.number, entity.currency.as_str(), fprec) {
        Ok(m) => m,
        Err(e) => {
            return Err(e);
        },
    };
    let q = if same(a.commodity.as_str(), entity.currency.as_str()) {
        v.number
    } else if same(a.commodity.as_str(), code.as_str()) {
        value
    } else {
        match convert(&b.prices, entity.currency.as_str(), a.commodity.as_str(), date, v.number, a.precision) {
            Some(x) => x.number,
            None => {
                return Err(range_error(v.number));
            },
        }
    };
    let quantity = match Money::from_major(q, a.commodity.as_str(), a.precision) {
        Ok(m) => m,
        Err(e) => {
            return Err(e);
        },
    };
    let shown = MetaValue::Value { quantity: plain(value), commodity: code };
    let metadata = meta_set(&p.metadata, "value_in", shown);
    Ok((quantity, amount, v.rate, v.source, metadata))
}

fn prepare_given(entity: &Entity, a: &Account, q: Decimal, quantity: Money, amount: Money, Ghost(place): Ghost<int>) -> (r: Result<
    (Option<Decimal>, String),
>)
    ensures
        match r {
            Ok((rate, source)) => given_row(*entity, *a, q@, place, quantity@, amount@) == Ok::<Row, Refusal>(
                Row { place, quantity: quantity@, amount: amount@, rate: view_of(rate), source: source@ },
            ),
            Err(e) => given_row(*entity, *a, q@, place, quantity@, amount@) == Err::<Row, Refusal>(e@),
        },
{
    let functional = same(a.commodity.as_str(), entity.currency.as_str());
    if functional && !(amount.has_unit_of(&quantity) && amount.minor() == quantity.minor()) {
        return Err(
            invalid(
                cat4(
                    "posting on ",
                    a.path.as_str(),
                    " must have equal quantity and amount in ",
                    entity.currency.as_str(),
                ).as_str(),
            ),
        );
    }
    if !q.is_zero() && !amount.is_zero() && amount.is_negative() != q.is_negative() {
        return Err(
            invalid(cat3("posting on ", a.path.as_str(), " must have quantity and amount with the same sign").as_str()),
        );
    }
    if functional {
        return Ok((None, String::new()));
    }
    if q.is_zero() {
        return Ok((None, own("input")));
    }
    let major = amount.major();
    match major.checked_div(q) {
        Some(rate) => Ok((Some(rate.round_dp(12)), own("input"))),
        None => Err(range_error(major)),
    }
}

fn prepare_plain(b: &Books, entity: &Entity, fprec: u32, date: Date, p: &PostingInput, place: usize) -> (r: Result<
    (Money, Money, Option<Decimal>, String),
>)
    requires
        place < b.accounts@.len(),
    ensures
        match r {
            Ok((quantity, amount, rate, source)) => plain_row(*b, *entity, fprec as int, date, *p, place as int) == Ok::<Row, Refusal>(
                Row { place: place as int, quantity: quantity@, amount: amount@, rate: view_of(rate), source: source@ },
            ),
            Err(e) => plain_row(*b, *entity, fprec as int, date, *p, place as int) == Err::<Row, Refusal>(e@),
        },
{
    proof {
        reveal(plain_row);
    }
    let a = &b.accounts[place];
    let q = round_to(p.quantity, a.precision);
    if q.is_zero() && p.amount.is_none() {
        return Err(invalid(cat3("posting on ", a.path.as_str(), " has a zero quantity").as_str()));
    }
    let quantity = match Money::from_major(q, a.commodity.as_str(), a.precision) {
        Ok(m) => m,
        Err(e) => {
            return Err(e);
        },
    };
    match p.amount {
        Some(given) => {
            let amount = match Money::from_major(given, entity.currency.as_str(), fprec) {
                Ok(m) => m,
                Err(e) => {
                    return Err(e);
                },
            };
            match prepare_given(entity, a, q, quantity, amount, Ghost(place as int)) {
                Ok((rate, source)) => Ok((quantity, amount, rate, source)),
                Err(e) => Err(e),
            }
        },
        None => {
            let v = match convert(&b.prices, a.commodity.as_str(), entity.currency.as_str(), date, q, fprec) {
                Some(v) => v,
                None => {
                    return Err(range_error(q));
                },
            };
            match Money::from_major(v.number, entity.currency.as_str(), fprec) {
                Ok(amount) => Ok((quantity, amount, v.rate, v.source)),
                Err(e) => Err(e),
            }
        },
    }
}

fn prepare_posting(b: &Books, entity: &Entity, fprec: u32, date: Date, p: &PostingInput, keep_closed: &[i64], balanced: bool) -> (r:
    Result<(Prepared, usize)>)
    ensures
        match r {
            Ok((x, place)) => {
                let row = posting_row(*b, *entity, fprec as int, date, *p, keep_closed@, balanced);
                row is Ok && worth(*b, x, row->Ok_0) && labelled(*b, x, *p) && row->Ok_0.place == place
            },
            Err(e) => posting_row(*b, *entity, fprec as int, date, *p, keep_closed@, balanced) == Err::<Row, Refusal>(e@),
        },
{
    proof {
        reveal(posting_row);
    }
    let place = match find_place(&b.accounts, p.account_id) {
        Some(i) => i,
        None => {
            return Err(not_found(cat("account ", int_string(p.account_id).as_str()).as_str()));
        },
    };
    let a = &b.accounts[place];
    if let Err(e) = check_account(a, entity, keep_closed) {
        return Err(e);
    }
    let zero_quantity = match Money::from_minor(0, a.commodity.as_str(), a.precision) {
        Ok(m) => m,
        Err(e) => {
            return Err(e);
        },
    };
    let zero_amount = match Money::from_minor(0, entity.currency.as_str(), fprec) {
        Ok(m) => m,
        Err(e) => {
            return Err(e);
        },
    };
    let (quantity, amount, rate, rate_source, metadata) = if p.balance {
        if balanced {
            return Err(invalid("only one posting per entry can balance it"));
        }
        (zero_quantity, zero_amount, None, String::new(), meta_set(&p.metadata, "balance", MetaValue::Flag(true)))
    } else {
        match &p.value_in {
            Some(value_in) => match prepare_valued(b, entity, fprec, date, p, place, value_in) {
                Ok(v) => v,
                Err(e) => {
                    return Err(e);
                },
            },
            None => match prepare_plain(b, entity, fprec, date, p, place) {
                Ok((quantity, amount, rate, source)) => (quantity, amount, rate, source, meta_copy(&p.metadata)),
                Err(e) => {
                    return Err(e);
                },
            },
        }
    };
    let x = Prepared {
        account_id: a.id,
        account_path: a.path.clone(),
        quantity,
        amount,
        rate,
        rate_source,
        memo: p.memo.clone(),
        metadata,
        external_id: filled(&p.external_id),
        fingerprint: filled(&p.fingerprint),
    };
    Ok((x, place))
}

/// What the first `n` postings are worth and which of them balances the entry, or why there is
/// nothing: the first posting that cannot be valued.
pub open spec fn rows_after(
    b: Books,
    entity: Entity,
    fprec: int,
    date: Date,
    inputs: Seq<PostingInput>,
    keep_closed: Seq<i64>,
    n: int,
) -> std::result::Result<(Seq<Row>, Option<int>), Refusal>
    decreases n,
{
    if n <= 0 {
        Ok((Seq::empty(), None))
    } else {
        match rows_after(b, entity, fprec, date, inputs, keep_closed, n - 1) {
            Err(e) => Err(e),
            Ok((rows, balance)) => match posting_row(b, entity, fprec, date, inputs[n - 1], keep_closed, balance is Some) {
                Err(e) => Err(e),
                Ok(row) => Ok((rows.push(row), if inputs[n - 1].balance { Some(n - 1) } else { balance })),
            },
        }
    }
}

/// The amounts of the first `n` rows together, without the one that balances.
pub open spec fn amount_sum(rows: Seq<Row>, balance: Option<int>, n: int) -> int
    decreases n,
{
    if n <= 0 {
        0
    } else {
        amount_sum(rows, balance, n - 1) + (if balance == Some(n - 1) { 0 } else { rows[n - 1].amount.minor })
    }
}

pub open spec fn all_zero(rows: Seq<Row>) -> bool {
    forall|i: int| 0 <= i < rows.len() ==> (#[trigger] rows[i]).quantity.minor == 0
}

/// The posting that balances: it takes the negated sum of the others.
#[verifier::opaque]
pub open spec fn balancing_row(b: Books, entity: Entity, fprec: int, date: Date, place: int, total: int) -> std::result::Result<
    Row,
    Refusal,
> {
    let a = b.accounts@[place];
    let n = negated_num(normal((total, fprec as nat)));
    let taken = if a.commodity@ == entity.currency@ {
        Some((n, None::<Num>, Seq::<char>::empty()))
    } else {
        match valued(b.prices@, entity.currency@, a.commodity@, date, n, a.precision as nat) {
            Some((q, rate, source)) => match inverted(rate) {
                Some(inverse) => Some((q, inverse, source)),
                None => None,
            },
            None => None,
        }
    };
    match taken {
        None => Err(out_of_range(n)),
        Some((q, rate, source)) => match amount_of_major(q, a.commodity@, a.precision as int) {
            Err(e) => Err(e),
            Ok(quantity) => match amount_of_major(n, entity.currency@, fprec) {
                Err(e) => Err(e),
                Ok(amount) => if quantity.minor == 0 && n.0 != 0 {
                    Err(Refusal::Invalid("balancing posting on "@ + a.path@ + " rounds to zero"@))
                } else {
                    Ok(Row { place, quantity, amount, rate, source })
                },
            },
        },
    }
}

/// One over a rate; a rate of zero stays as it is.
pub open spec fn inverted(rate: Option<Num>) -> Option<Option<Num>> {
    match rate {
        Some(r) => if r.0 == 0 {
            Some(Some(r))
        } else {
            match divided((1, 0), r) {
                Some(q) => Some(Some(rounded(q, 12))),
                None => None,
            }
        },
        None => Some(None),
    }
}

/// The posting on the FX gain/loss account that takes what the others leave.
#[verifier::opaque]
pub open spec fn fx_row(b: Books, entity: Entity, fprec: int, total: int) -> std::result::Result<Row, Refusal> {
    match role_place(b.accounts@, entity.id, "fx_gain_loss"@, 0) {
        None => Err(
            Refusal::NotFound("system account "@ + "fx_gain_loss"@ + " for entity "@ + int_text(entity.id as int)),
        ),
        Some(place) => {
            let fx = b.accounts@[place];
            let left = Amount { minor: total, commodity: code_form(entity.currency@), precision: fprec as nat };
            match amount_of(0, fx.commodity@, fx.precision as int) {
                Err(e) => Err(e),
                Ok(zero) => if !same_unit(zero, left) {
                    Err(Refusal::Invalid(unit_refusal(zero, left)))
                } else if total == i64::MIN {
                    Err(Refusal::Invalid("money negation overflow"@))
                } else {
                    let taken = with_minor(left, -total);
                    Ok(Row { place, quantity: taken, amount: taken, rate: None, source: Seq::empty() })
                },
            }
        },
    }
}

/// A posting as an unbalanced entry shows it.
pub open spec fn row_text(b: Books, entity: Entity, row: Row) -> Seq<char> {
    b.accounts@[row.place].path@ + " "@ + decimal_text(normal(normal((row.quantity.minor, row.quantity.precision)))) + " ("@ + (
    decimal_text(normal(normal((row.amount.minor, row.amount.precision)))) + " "@ + entity.currency@ + ")"@)
}

/// The first `n` postings as an unbalanced entry shows them, with "; " between them.
pub open spec fn rows_text(b: Books, entity: Entity, rows: Seq<Row>, n: int) -> Seq<char>
    decreases n,
{
    if n <= 0 {
        Seq::empty()
    } else if n == 1 {
        row_text(b, entity, rows[0])
    } else {
        rows_text(b, entity, rows, n - 1) + "; "@ + row_text(b, entity, rows[n - 1])
    }
}

#[verifier::opaque]
pub open spec fn unbalanced_text(b: Books, entity: Entity, fprec: int, rows: Seq<Row>, total: int) -> Seq<char> {
    "postings sum to "@ + decimal_text(normal(normal((total, fprec as nat)))) + " "@ + entity.currency@ + ": "@ + rows_text(
        b,
        entity,
        rows,
        rows.len() as int,
    )
}

/// What the postings of an entry are worth together, or why the entry is refused.
pub open spec fn closed_rows(
    b: Books,
    entity: Entity,
    fprec: int,
    date: Date,
    rows: Seq<Row>,
    balance: Option<int>,
    absorb_fx: bool,
) -> std::result::Result<Seq<Row>, Refusal> {
    let total = amount_sum(rows, balance, rows.len() as int);
    if in_range(total) is None {
        Err(Refusal::Invalid("money sum overflow"@))
    } else {
        match balance {
            Some(i) => match balancing_row(b, entity, fprec, date, rows[i].place, total) {
                Err(e) => Err(e),
                Ok(row) => Ok(rows.update(i, row)),
            },
            None => if total == 0 {
                Ok(rows)
            } else if absorb_fx {
                match fx_row(b, entity, fprec, total) {
                    Err(e) => Err(e),
                    Ok(row) => Ok(rows.push(row)),
                }
            } else {
                Err(Refusal::Unbalanced(unbalanced_text(b, entity, fprec, rows, total)))
            },
        }
    }
}

/// The rows of an entry, or why it is refused.
pub open spec fn entry_rows(
    b: Books,
    entity: Entity,
    date: Date,
    inputs: Seq<PostingInput>,
    absorb_fx: bool,
    keep_closed: Seq<i64>,
) -> std::result::Result<Seq<Row>, Refusal> {
    if inputs.len() < 2 {
        Err(Refusal::Invalid("a journal entry needs at least two postings"@))
    } else {
        match functional_places(b.commodities@, entity) {
            Err(e) => Err(e),
            Ok(fprec) => match rows_after(b, entity, fprec as int, date, inputs, keep_closed, inputs.len() as int) {
                Err(e) => Err(e),
                Ok((rows, balance)) => match closed_rows(b, entity, fprec as int, date, rows, balance, absorb_fx) {
                    Err(e) => Err(e),
                    Ok(all) => if all_zero(all) {
                        Err(Refusal::Invalid("all postings are zero"@))
                    } else {
                        Ok(all)
                    },
                },
            },
        }
    }
}

/// What the amounts of prepared postings add up to, in minor units of the functional currency.
pub open spec fn prepared_sum(v: Seq<Prepared>) -> int
    decreases v.len(),
{
    if v.len() == 0 {
        0
    } else {
        prepared_sum(v.drop_last()) + v.last().amount@.minor
    }
}

/// Whether prepared postings are worth what `rows` says.
pub open spec fn all_worth(b: Books, v: Seq<Prepared>, rows: Seq<Row>) -> bool {
    v.len() == rows.len() && forall|i: int| 0 <= i < v.len() ==> worth(b, #[trigger] v[i], rows[i])
}

/// Whether a posting is the one that takes what the others leave.
pub open spec fn is_fx_posting(x: Prepared) -> bool {
    &&& x.memo@ == "exchange difference"@
    &&& x.metadata@.len() == 1
    &&& x.metadata@[0].key@ == "fx_auto"@
    &&& x.metadata@[0].value == MetaValue::Flag(true)
    &&& x.external_id is None
    &&& x.fingerprint is None
}

proof fn lemma_rows_failed(
    b: Books,
    entity: Entity,
    fprec: int,
    date: Date,
    inputs: Seq<PostingInput>,
    keep_closed: Seq<i64>,
    n: int,
    k: int,
)
    requires
        0 <= n <= k,
        rows_after(b, entity, fprec, date, inputs, keep_closed, n) is Err,
    ensures
        rows_after(b, entity, fprec, date, inputs, keep_closed, k) == rows_after(b, entity, fprec, date, inputs, keep_closed, n),
    decreases k - n,
{
    if n < k {
        lemma_rows_failed(b, entity, fprec, date, inputs, keep_closed, n, k - 1);
    }
}

/// The amount of a row is in functional currency.
proof fn lemma_row_unit(b: Books, entity: Entity, fprec: int, date: Date, p: PostingInput, keep_closed: Seq<i64>, balanced: bool)
    requires
        posting_row(b, entity, fprec, date, p, keep_closed, balanced) is Ok,
    ensures
        ({
            let row = posting_row(b, entity, fprec, date, p, keep_closed, balanced)->Ok_0;
            &&& row.amount.commodity == code_form(entity.currency@)
            &&& row.amount.precision == fprec as nat
            &&& fprec <= 8
            &&& amount_of(0, entity.currency@, fprec) is Ok
        }),
{
    reveal(posting_row);
    reveal(valued_row);
    reveal(plain_row);
}

/// The values of the posting that balances.
fn balance_values(b: &Books, entity: &Entity, fprec: u32, date: Date, place: usize, total: &Money) -> (r: Result<
    (Money, Money, Option<Decimal>, String),
>)
    requires
        place < b.accounts@.len(),
        total@.precision == fprec,
    ensures
        match r {
            Ok((quantity, amount, rate, source)) => {
                &&& balancing_row(*b, *entity, fprec as int, date, place as int, total@.minor) == Ok::<Row, Refusal>(
                    Row { place: place as int, quantity: quantity@, amount: amount@, rate: view_of(rate), source: source@ },
                )
                &&& amount@.minor == -total@.minor
            },
            Err(e) => balancing_row(*b, *entity, fprec as int, date, place as int, total@.minor) == Err::<Row, Refusal>(e@),
        },
{
    let a = &b.accounts[place];
    let n = total.major().negated();
    let ghost t = total@.minor;
    proof {
        reveal(balancing_row);
        use_type_invariant(total);
        lemma_normal_negated((t, fprec as nat));
        assert(n@ == negated_num(normal((t, fprec as nat))));
        assert(normal((-t, fprec as nat)) == n@);
    }
    let (q, rate, source) = if same(a.commodity.as_str(), entity.currency.as_str()) {
        (n, None, String::new())
    } else {
        match convert(&b.prices, entity.currency.as_str(), a.commodity.as_str(), date, n, a.precision) {
            Some(v) => {
                let inverse = match v.rate {
                    Some(rate) => if rate.is_zero() {
                        Some(rate)
                    } else {
                        match Decimal::one().checked_div(rate) {
                            Some(q) => Some(q.round_dp(12)),
                            None => {
                                return Err(range_error(n));
                            },
                        }
                    },
                    None => None,
                };
                (v.number, inverse, v.source)
            },
            None => {
                return Err(range_error(n));
            },
        }
    };
    let quantity = match Money::from_major(q, a.commodity.as_str(), a.precision) {
        Ok(m) => m,
        Err(e) => {
            return Err(e);
        },
    };
    let amount = match Money::from_major(n, entity.currency.as_str(), fprec) {
        Ok(m) => m,
        Err(e) => {
            return Err(e);
        },
    };
    if quantity.is_zero() && !n.is_zero() {
        return Err(invalid(cat3("balancing posting on ", a.path.as_str(), " rounds to zero").as_str()));
    }
    Ok((quantity, amount, rate, source))
}

/// The posting that takes what the others leave.
fn fx_posting(b: &Books, entity: &Entity, fprec: u32, total: Money) -> (r: Result<Prepared>)
    requires
        total@.commodity == code_form(entity.currency@),
        total@.precision == fprec,
    ensures
        match r {
            Ok(x) => {
                let row = fx_row(*b, *entity, fprec as int, total@.minor);
                row is Ok && worth(*b, x, row->Ok_0) && is_fx_posting(x) && x.amount@.minor == -total@.minor
            },
            Err(e) => fx_row(*b, *entity, fprec as int, total@.minor) == Err::<Row, Refusal>(e@),
        },
{
    proof {
        reveal(fx_row);
    }
    let fx = match find_by_role(&b.accounts, entity.id, "fx_gain_loss") {
        Ok(a) => a,
        Err(e) => {
            return Err(e);
        },
    };
    let zero = match Money::from_minor(0, fx.commodity.as_str(), fx.precision) {
        Ok(m) => m,
        Err(e) => {
            return Err(e);
        },
    };
    proof {
        use_type_invariant(&total);
    }
    if let Err(e) = zero.checked_add(total) {
        return Err(e);
    }
    let taken = match total.checked_neg() {
        Ok(m) => m,
        Err(e) => {
            return Err(e);
        },
    };
    let mut metadata: Vec<MetaEntry> = Vec::new();
    metadata.push(MetaEntry { key: own("fx_auto"), value: MetaValue::Flag(true) });
    Ok(
        Prepared {
            account_id: fx.id,
            account_path: fx.path.clone(),
            quantity: taken,
            amount: taken,
            rate: None,
            rate_source: String::new(),
            memo: own("exchange difference"),
            metadata,
            external_id: None,
            fingerprint: None,
        },
    )
}

fn row_string(b: &Books, entity: &Entity, x: &Prepared, Ghost(row): Ghost<Row>) -> (r: String)
    requires
        worth(*b, *x, row),
    ensures
        r@ == row_text(*b, *entity, row),
{
    let left = cat4(x.account_path.as_str(), " ", plain(x.quantity.major()).as_str(), " (");
    let right = cat4(plain(x.amount.major()).as_str(), " ", entity.currency.as_str(), ")");
    cat(left.as_str(), right.as_str())
}

fn unbalanced_error(b: &Books, entity: &Entity, fprec: u32, v: &Vec<Prepared>, total: &Money, Ghost(rows): Ghost<Seq<Row>>) -> (e:
    Error)
    requires
        all_worth(*b, v@, rows),
        total@.precision == fprec,
    ensures
        e@ == Refusal::Unbalanced(unbalanced_text(*b, *entity, fprec as int, rows, total@.minor)),
{
    proof {
        reveal(unbalanced_text);
    }
    let mut detail: String = String::new();
    let mut i: usize = 0;
    while i < v.len()
        invariant
            i <= v.len(),
            all_worth(*b, v@, rows),
            detail@ == rows_text(*b, *entity, rows, i as int),
        decreases v.len() - i,
    {
        let t = row_string(b, entity, &v[i], Ghost(rows[i as int]));
        if i == 0 {
            detail = t;
        } else {
            detail = cat3(detail.as_str(), "; ", t.as_str());
        }
        i = i + 1;
    }
    let head = cat5(
        "postings sum to ",
        plain(total.major()).as_str(),
        " ",
        entity.currency.as_str(),
        ": ",
    );
    unbalanced(cat(head.as_str(), detail.as_str()).as_str())
}

proof fn lemma_prepared_sum(b: Books, v: Seq<Prepared>, rows: Seq<Row>)
    requires
        all_worth(b, v, rows),
    ensures
        prepared_sum(v) == amount_sum(rows, None, rows.len() as int),
    decreases v.len(),
{
    if v.len() > 0 {
        let r = rows.drop_last();
        assert forall|i: int| 0 <= i < v.drop_last().len() implies worth(b, #[trigger] v.drop_last()[i], r[i]) by {
            assert(v.drop_last()[i] == v[i]);
            assert(worth(b, v[i], rows[i]));
        }
        lemma_prepared_sum(b, v.drop_last(), r);
        lemma_amount_sum_prefix(r, rows, None, r.len() as int);
        assert(worth(b, v[v.len() - 1], rows[v.len() - 1]));
    }
}

proof fn lemma_amount_sum_prefix(a: Seq<Row>, b: Seq<Row>, balance: Option<int>, n: int)
    requires
        0 <= n <= a.len(),
        n <= b.len(),
        forall|i: int| 0 <= i < n && balance != Some(i) ==> (#[trigger] a[i]).amount.minor == b[i].amount.minor,
    ensures
        amount_sum(a, balance, n) == amount_sum(b, balance, n),
    decreases n,
{
    if n > 0 {
        lemma_amount_sum_prefix(a, b, balance, n - 1);
        assert(balance != Some(n - 1) ==> a[n - 1].amount.minor == b[n - 1].amount.minor);
    }
}

proof fn lemma_amount_sum_with(rows: Seq<Row>, i: int, n: int)
    requires
        0 <= i < n <= rows.len(),
    ensures
        amount_sum(rows, None, n) == amount_sum(rows, Some(i), n) + rows[i].amount.minor,
    decreases n,
{
    if i == n - 1 {
        lemma_amount_sum_none(rows, i, n - 1);
    } else {
        lemma_amount_sum_with(rows, i, n - 1);
    }
}

proof fn lemma_amount_sum_none(rows: Seq<Row>, i: int, n: int)
    requires
        0 <= n <= i < rows.len(),
    ensures
        amount_sum(rows, None, n) == amount_sum(rows, Some(i), n),
    decreases n,
{
    if n > 0 {
        lemma_amount_sum_none(rows, i, n - 1);
    }
}

/// Adds up the amounts of postings, without the one that balances.
fn sum_amounts(v: &Vec<Prepared>, balance: Option<usize>, zero: Money, Ghost(b): Ghost<Books>, Ghost(rows): Ghost<Seq<Row>>) -> (r:
    Result<Money>)
    requires
        all_worth(b, v@, rows),
        zero@.minor == 0,
        forall|i: int| 0 <= i < rows.len() ==> same_unit(zero@, (#[trigger] rows[i]).amount),
    ensures
        ({
            let gap = match balance {
                Some(i) => Some(i as int),
                None => None,
            };
            let total = amount_sum(rows, gap, rows.len() as int);
            match r {
                Ok(m) => in_range(total) is Some && m@ == with_minor(zero@, total),
                Err(e) => in_range(total) is None && e@ == Refusal::Invalid("money sum overflow"@),
            }
        }),
{
    let ghost gap = match balance {
        Some(i) => Some(i as int),
        None => None,
    };
    let mut amounts: Vec<Money> = Vec::new();
    let mut i: usize = 0;
    while i < v.len()
        invariant
            i <= v.len(),
            all_worth(b, v@, rows),
            gap == (match balance {
                Some(i) => Some(i as int),
                None => None,
            }),
            forall|k: int| 0 <= k < rows.len() ==> same_unit(zero@, (#[trigger] rows[k]).amount),
            minor_total(amounts@) == amount_sum(rows, gap, i as int),
            forall|k: int| 0 <= k < amounts@.len() ==> same_unit(zero@, (#[trigger] amounts@[k])@),
        decreases v.len() - i,
    {
        let skip = match balance {
            Some(g) => g == i,
            None => false,
        };
        assert(worth(b, v@[i as int], rows[i as int]));
        if !skip {
            let ghost before = amounts@;
            amounts.push(v[i].amount);
            assert(amounts@.drop_last() == before);
        }
        i = i + 1;
    }
    let r = zero.checked_sum(&amounts);
    proof {
        lemma_all_units(zero@, amounts@);
    }
    r
}

proof fn lemma_all_units(a: Amount, v: Seq<Money>)
    requires
        forall|k: int| 0 <= k < v.len() ==> same_unit(a, (#[trigger] v[k])@),
    ensures
        crate::money::first_other_unit(a, v) is None,
    decreases v.len(),
{
    if v.len() > 0 {
        assert forall|k: int| 0 <= k < v.drop_last().len() implies same_unit(a, (#[trigger] v.drop_last()[k])@) by {
            assert(v.drop_last()[k] == v[k]);
        }
        lemma_all_units(a, v.drop_last());
        assert(same_unit(a, v[v.len() - 1]@));
    }
}

/// What of an index is known to specifications.
pub open spec fn as_place(i: Option<(usize, usize)>) -> Option<int> {
    match i {
        Some((g, _)) => Some(g as int),
        None => None,
    }
}

/// Whether all rows have their amounts in functional currency.
pub open spec fn in_functional(rows: Seq<Row>, entity: Entity, fprec: int) -> bool {
    forall|k: int|
        0 <= k < rows.len() ==> (#[trigger] rows[k]).amount.commodity == code_form(entity.currency@) && rows[k].amount.precision
            == fprec
}

pub open spec fn all_labelled(b: Books, v: Seq<Prepared>, inputs: Seq<PostingInput>) -> bool {
    forall|k: int| 0 <= k < inputs.len() ==> labelled(b, #[trigger] v[k], inputs[k])
}

/// Values each posting; the one that balances is marked by its index and the place of its account.
fn prepare_rows(b: &Books, entity: &Entity, fprec: u32, date: Date, inputs: &[PostingInput], keep_closed: &[i64]) -> (r: Result<
    (Vec<Prepared>, Option<(usize, usize)>),
>)
    ensures
        ({
            let done = rows_after(*b, *entity, fprec as int, date, inputs@, keep_closed@, inputs@.len() as int);
            match r {
                Ok((v, balance)) => {
                    &&& done is Ok
                    &&& v@.len() == inputs@.len()
                    &&& (done->Ok_0).1 == as_place(balance)
                    &&& balance is Some ==> (balance->0).0 < v@.len() && (done->Ok_0).0[(balance->0).0 as int].place == (balance->0).1
                    &&& all_worth(*b, v@, (done->Ok_0).0)
                    &&& all_labelled(*b, v@, inputs@)
                    &&& in_functional((done->Ok_0).0, *entity, fprec as int)
                    &&& inputs@.len() > 0 ==> amount_of(0, entity.currency@, fprec as int) is Ok
                },
                Err(e) => done == Err::<(Seq<Row>, Option<int>), Refusal>(e@),
            }
        }),
{
    let mut v: Vec<Prepared> = Vec::new();
    let mut balance: Option<(usize, usize)> = None;
    let ghost mut rows: Seq<Row> = Seq::empty();
    let mut i: usize = 0;
    while i < inputs.len()
        invariant
            i <= inputs.len(),
            v@.len() == i,
            rows_after(*b, *entity, fprec as int, date, inputs@, keep_closed@, i as int) == Ok::<(Seq<Row>, Option<int>), Refusal>(
                (rows, as_place(balance)),
            ),
            balance is Some ==> (balance->0).0 < i && rows[(balance->0).0 as int].place == (balance->0).1,
            all_worth(*b, v@, rows),
            all_labelled(*b, v@, inputs@.take(i as int)),
            in_functional(rows, *entity, fprec as int),
            i > 0 ==> amount_of(0, entity.currency@, fprec as int) is Ok,
        decreases inputs.len() - i,
    {
        let p = &inputs[i];
        let (x, place) = match prepare_posting(b, entity, fprec, date, p, keep_closed, balance.is_some()) {
            Ok(x) => x,
            Err(e) => {
                proof {
                    lemma_rows_failed(
                        *b,
                        *entity,
                        fprec as int,
                        date,
                        inputs@,
                        keep_closed@,
                        i + 1,
                        inputs@.len() as int,
                    );
                }
                return Err(e);
            },
        };
        let ghost before = v@;
        let ghost old_rows = rows;
        proof {
            lemma_row_unit(*b, *entity, fprec as int, date, *p, keep_closed@, balance is Some);
            rows = rows.push(posting_row(*b, *entity, fprec as int, date, *p, keep_closed@, balance is Some)->Ok_0);
        }
        if p.balance {
            balance = Some((i, place));
        }
        v.push(x);
        proof {
            assert forall|k: int| 0 <= k < v@.len() implies worth(*b, #[trigger] v@[k], rows[k]) by {
                if k < i {
                    assert(v@[k] == before[k] && rows[k] == old_rows[k]);
                    assert(worth(*b, before[k], old_rows[k]));
                }
            }
            assert forall|k: int| 0 <= k < i + 1 implies labelled(*b, #[trigger] v@[k], inputs@.take(i + 1)[k]) by {
                if k < i {
                    assert(v@[k] == before[k] && inputs@.take(i as int)[k] == inputs@[k]);
                    assert(labelled(*b, before[k], inputs@.take(i as int)[k]));
                }
            }
        }
        i = i + 1;
    }
    assert(inputs@.take(i as int) == inputs@);
    Ok((v, balance))
}

/// Gives the posting that balances its values.
fn put_balance(
    b: &Books,
    entity: &Entity,
    fprec: u32,
    date: Date,
    v: &mut Vec<Prepared>,
    g: usize,
    place: usize,
    total: &Money,
    Ghost(rows): Ghost<Seq<Row>>,
    Ghost(inputs): Ghost<Seq<PostingInput>>,
) -> (r: Result<()>)
    requires
        all_worth(*b, old(v)@, rows),
        all_labelled(*b, old(v)@, inputs),
        old(v)@.len() == inputs.len(),
        g < old(v)@.len(),
        rows[g as int].place == place,
        total@.precision == fprec,
        total@.minor == amount_sum(rows, Some(g as int), rows.len() as int),
    ensures
        match r {
            Ok(_) => {
                let row = balancing_row(*b, *entity, fprec as int, date, place as int, total@.minor);
                &&& row is Ok
                &&& all_worth(*b, final(v)@, rows.update(g as int, row->Ok_0))
                &&& all_labelled(*b, final(v)@, inputs)
                &&& prepared_sum(final(v)@) == 0
            },
            Err(e) => balancing_row(*b, *entity, fprec as int, date, place as int, total@.minor) == Err::<Row, Refusal>(e@),
        },
{
    proof {
        assert(worth(*b, v@[g as int], rows[g as int]));
    }
    let (quantity, amount, rate, source) = match balance_values(b, entity, fprec, date, place, total) {
        Ok(x) => x,
        Err(e) => {
            return Err(e);
        },
    };
    let ghost old_v = v@;
    let mut x = v.remove(g);
    x.quantity = quantity;
    x.amount = amount;
    x.rate = rate;
    x.rate_source = source;
    v.insert(g, x);
    proof {
        let row = balancing_row(*b, *entity, fprec as int, date, place as int, total@.minor)->Ok_0;
        let closed = rows.update(g as int, row);
        assert(labelled(*b, old_v[g as int], inputs[g as int]));
        assert forall|k: int| 0 <= k < v@.len() implies worth(*b, #[trigger] v@[k], closed[k]) by {
            assert(worth(*b, old_v[k], rows[k]));
            if k != g {
                assert(v@[k] == old_v[k]);
            }
        }
        assert forall|k: int| 0 <= k < inputs.len() implies labelled(*b, #[trigger] v@[k], inputs[k]) by {
            assert(labelled(*b, old_v[k], inputs[k]));
            if k != g {
                assert(v@[k] == old_v[k]);
            }
        }
        lemma_amount_sum_with(closed, g as int, closed.len() as int);
        lemma_amount_sum_prefix(closed, rows, Some(g as int), rows.len() as int);
        lemma_prepared_sum(*b, v@, closed);
    }
    Ok(())
}

/// Adds the posting that takes what the others leave.
fn put_fx(b: &Books, entity: &Entity, fprec: u32, v: &mut Vec<Prepared>, total: Money, Ghost(rows): Ghost<Seq<Row>>, Ghost(inputs): Ghost<
    Seq<PostingInput>,
>) -> (r: Result<()>)
    requires
        all_worth(*b, old(v)@, rows),
        all_labelled(*b, old(v)@, inputs),
        old(v)@.len() == inputs.len(),
        total@.commodity == code_form(entity.currency@),
        total@.precision == fprec,
        total@.minor == amount_sum(rows, None, rows.len() as int),
    ensures
        match r {
            Ok(_) => {
                let row = fx_row(*b, *entity, fprec as int, total@.minor);
                &&& row is Ok
                &&& all_worth(*b, final(v)@, rows.push(row->Ok_0))
                &&& all_labelled(*b, final(v)@, inputs)
                &&& final(v)@.len() == inputs.len() + 1
                &&& is_fx_posting(final(v)@.last())
                &&& prepared_sum(final(v)@) == 0
            },
            Err(e) => fx_row(*b, *entity, fprec as int, total@.minor) == Err::<Row, Refusal>(e@),
        },
{
    let x = match fx_posting(b, entity, fprec, total) {
        Ok(x) => x,
        Err(e) => {
            return Err(e);
        },
    };
    let ghost old_v = v@;
    v.push(x);
    proof {
        let row = fx_row(*b, *entity, fprec as int, total@.minor)->Ok_0;
        let closed = rows.push(row);
        assert forall|k: int| 0 <= k < v@.len() implies worth(*b, #[trigger] v@[k], closed[k]) by {
            if k < old_v.len() {
                assert(worth(*b, old_v[k], rows[k]));
                assert(v@[k] == old_v[k]);
            }
        }
        assert forall|k: int| 0 <= k < inputs.len() implies labelled(*b, #[trigger] v@[k], inputs[k]) by {
            assert(labelled(*b, old_v[k], inputs[k]));
            assert(v@[k] == old_v[k]);
        }
        lemma_prepared_sum(*b, old_v, rows);
        assert(v@.drop_last() == old_v);
    }
    Ok(())
}

/// What preparing an entry gives: the rows that the postings are worth, which sum to zero, or the
/// reason for which the entry is refused.
pub open spec fn prepare_outcome(
    b: Books,
    entity: Entity,
    date: Date,
    inputs: Seq<PostingInput>,
    absorb_fx: bool,
    keep_closed: Seq<i64>,
    r: Result<Vec<Prepared>>,
) -> bool {
    let rows = entry_rows(b, entity, date, inputs, absorb_fx, keep_closed);
    match r {
        Ok(v) => {
            &&& rows is Ok
            &&& all_worth(b, v@, rows->Ok_0)
            &&& prepared_sum(v@) == 0
            &&& inputs.len() <= v@.len() <= inputs.len() + 1
            &&& all_labelled(b, v@, inputs)
            &&& v@.len() == inputs.len() + 1 ==> is_fx_posting(v@.last())
        },
        Err(e) => rows == Err::<Seq<Row>, Refusal>(e@),
    }
}

/// Validates and values the postings of an entry. Returns prepared postings, balanced.
pub fn prepare(b: &Books, entity: &Entity, date: Date, inputs: &[PostingInput], absorb_fx: bool, keep_closed: &[i64]) -> (r: Result<
    Vec<Prepared>,
>)
    ensures
        prepare_outcome(*b, *entity, date, inputs@, absorb_fx, keep_closed@, r),
{
    if inputs.len() < 2 {
        return Err(invalid("a journal entry needs at least two postings"));
    }
    let fprec = match functional_precision(&b.commodities, entity) {
        Ok(p) => p,
        Err(e) => {
            return Err(e);
        },
    };
    let (mut v, balance) = match prepare_rows(b, entity, fprec, date, inputs, keep_closed) {
        Ok(x) => x,
        Err(e) => {
            return Err(e);
        },
    };
    let ghost rows = (rows_after(*b, *entity, fprec as int, date, inputs@, keep_closed@, inputs@.len() as int)->Ok_0).0;
    let zero = match Money::from_minor(0, entity.currency.as_str(), fprec) {
        Ok(m) => m,
        Err(e) => {
            return Err(e);
        },
    };
    let index = match balance {
        Some((g, _)) => Some(g),
        None => None,
    };
    let total = match sum_amounts(&v, index, zero, Ghost(*b), Ghost(rows)) {
        Ok(m) => m,
        Err(e) => {
            return Err(e);
        },
    };
    let ghost closed = closed_rows(*b, *entity, fprec as int, date, rows, as_place(balance), absorb_fx);
    if let Some((g, place)) = balance {
        if let Err(e) = put_balance(b, entity, fprec, date, &mut v, g, place, &total, Ghost(rows), Ghost(inputs@)) {
            return Err(e);
        }
    } else if !total.is_zero() {
        if !absorb_fx {
            return Err(unbalanced_error(b, entity, fprec, &v, &total, Ghost(rows)));
        }
        if let Err(e) = put_fx(b, entity, fprec, &mut v, total, Ghost(rows), Ghost(inputs@)) {
            return Err(e);
        }
    } else {
        proof {
            lemma_prepared_sum(*b, v@, rows);
        }
    }
    assert(closed is Ok && all_worth(*b, v@, closed->Ok_0));
    if only_zeros(&v, Ghost(*b), Ghost(closed->Ok_0)) {
        return Err(invalid("all postings are zero"));
    }
    Ok(v)
}

fn only_zeros(v: &Vec<Prepared>, Ghost(b): Ghost<Books>, Ghost(rows): Ghost<Seq<Row>>) -> (r: bool)
    requires
        all_worth(b, v@, rows),
    ensures
        r == all_zero(rows),
{
    let mut i: usize = 0;
    while i < v.len()
        invariant
            i <= v.len(),
            all_worth(b, v@, rows),
            forall|k: int| 0 <= k < i ==> (#[trigger] rows[k]).quantity.minor == 0,
        decreases v.len() - i,
    {
        assert(worth(b, v@[i as int], rows[i as int]));
        if !v[i].quantity.is_zero() {
            assert(rows[i as int].quantity.minor != 0);
            return false;
        }
        i = i + 1;
    }
    true
}

/// What is stored of a new entry.
#[derive(Debug)]
pub struct EntryPlan {
    pub payee: String,
    pub description: String,
    pub notes: String,
    pub origin: String,
    /// It is posted at once, and takes its place in the chain.
    pub posted: bool,
    /// A machine's decision waits for a human; a human's own entry is reviewed by making it.
    pub reviewed: bool,
    pub postings: Vec<Prepared>,
}

/// Whether entries of an origin are made by a machine.
pub open spec fn by_machine(origin: Seq<char>) -> bool {
    origin == "rule"@ || origin == "import"@ || origin == "schedule"@
}

/// Decides what a new entry, a draft or a posted one, stores.
pub fn create_entry(b: &Books, entity: &Entity, input: &EntryInput) -> (r: Result<EntryPlan>)
    ensures
        input.status == EntryStatus::Void ==> (r matches Err(e) && e.invalid("cannot create a void entry"@)),
        input.status == EntryStatus::Posted && is_locked(*entity, input.date) ==> (r matches Err(e) && e.locked(lock_text(*entity, input.date))),
        input.status == EntryStatus::Draft || input.status == EntryStatus::Posted && !is_locked(*entity, input.date) ==> match r {
            Ok(p) => {
                &&& prepare_outcome(*b, *entity, input.date, input.postings@, input.absorb_fx, Seq::empty(), Ok(p.postings))
                &&& p.payee@ == trimmed(input.payee@)
                &&& p.description@ == trimmed(input.description@)
                &&& p.notes@ == trimmed(input.notes@)
                &&& p.origin@ == (if input.origin@.len() == 0 {
                    "capture"@
                } else {
                    input.origin@
                })
                &&& p.posted == (input.status == EntryStatus::Posted)
                &&& p.reviewed == !by_machine(input.origin@)
            },
            Err(e) => prepare_outcome(*b, *entity, input.date, input.postings@, input.absorb_fx, Seq::empty(), Err(e)),
        },
{
    match input.status {
        EntryStatus::Void => {
            return Err(invalid("cannot create a void entry"));
        },
        EntryStatus::Posted => match check_lock(entity, input.date) {
            Ok(_) => {},
            Err(e) => {
                return Err(e);
            },
        },
        EntryStatus::Draft => {},
    }
    let none: Vec<i64> = Vec::new();
    assert(none@ =~= Seq::<i64>::empty());
    let postings = match prepare(b, entity, input.date, input.postings.as_slice(), input.absorb_fx, none.as_slice()) {
        Ok(v) => v,
        Err(e) => {
            return Err(e);
        },
    };
    let origin = if input.origin.as_str().is_empty() {
        own("capture")
    } else {
        own(input.origin.as_str())
    };
    let posted = match input.status {
        EntryStatus::Posted => true,
        _ => false,
    };
    let machine = same(input.origin.as_str(), "rule") || same(input.origin.as_str(), "import") || same(input.origin.as_str(), "schedule");
    Ok(
        EntryPlan {
            payee: trim(input.payee.as_str()),
            description: trim(input.description.as_str()),
            notes: trim(input.notes.as_str()),
            origin,
            posted,
            reviewed: !machine,
            postings,
        },
    )
}

/// The size and the start of a page of entries, within what a reader may ask for.
pub fn page(limit: i64, offset: i64) -> (r: (i64, i64))
    ensures
        r.0 == (if limit <= 0 {
            100
        } else if limit > 2000 {
            2000
        } else {
            limit
        }),
        r.1 == (if offset < 0 {
            0
        } else {
            offset
        }),
{
    let size = if limit <= 0 {
        100
    } else if limit > 2000 {
        2000
    } else {
        limit
    };
    let start = if offset < 0 {
        0
    } else {
        offset
    };
    (size, start)
}

/// What becomes of a proposal once it was carried out in a transaction that is still open: it is kept
/// where the caller confirms the token of just this outcome, and undone where it only asks for one.
pub fn keeps_proposal(confirmation: Option<&str>, token: &str) -> (r: Result<bool>)
    ensures
        match confirmation {
            Some(c) => if c@ == token@ {
                r matches Ok(keep) && keep
            } else {
                r matches Err(e) && e.conflict("transaction changed since preview; preview it again before confirming"@)
            },
            None => r matches Ok(keep) && !keep,
        },
{
    match confirmation {
        Some(c) => if same(c, token) {
            Ok(true)
        } else {
            Err(conflict("transaction changed since preview; preview it again before confirming"))
        },
        None => Ok(false),
    }
}

/// Whether `n` units of one commodity became `v` of another on a day: at the rate that is noted, or one to
/// one where the two are the same or no rate is known.
pub open spec fn converts(prices: Seq<Price>, from: Seq<char>, to: Seq<char>, date: Date, n: real, v: Num, places: nat) -> bool {
    if from == to {
        within(n, v, places)
    } else {
        match rate_of(prices, uppered(trimmed(from)), uppered(trimmed(to)), date) {
            Some((rate, _)) => within(n * value(rate), v, places),
            None => within(n, v, places),
        }
    }
}

/// A number is converted by multiplying it with the rate, which is noted with its source; without a rate
/// it is taken one to one and said to be missing.
pub proof fn law_valued_at_rate(prices: Seq<Price>, from: Seq<char>, to: Seq<char>, date: Date, n: Num, places: nat)
    requires
        places <= 8,
    ensures
        valued(prices, from, to, date, n, places) matches Some((v, rate, source)) ==> {
            &&& v.1 <= places
            &&& from == to ==> v == rounded(n, places)
            &&& converts(prices, from, to, date, value(n), v, places)
            &&& if from == to {
                rate is None && source.len() == 0
            } else {
                match rate_of(prices, uppered(trimmed(from)), uppered(trimmed(to)), date) {
                    Some((r, s)) => rate == Some(r) && source == s,
                    None => rate == Some((1int, 0nat)) && source == "missing"@,
                }
            }
        },
{
    if let Some((v, rate, source)) = valued(prices, from, to, date, n, places) {
        lemma_rounded_within(n, places);
        if from != to {
            if let Some((r, _)) = rate_of(prices, uppered(trimmed(from)), uppered(trimmed(to)), date) {
                law_arithmetic_near(n, r);
                lemma_near_rounded(value(n) * value(r), multiplied(n, r)->0, places);
            }
        }
    }
}

proof fn lemma_rounded_within(n: Num, places: nat)
    ensures
        within(value(n), rounded(n, places), places),
        rounded(n, places).1 <= places,
{
    law_rounded_nearest(n, places);
    lemma_pow10_positive(places);
    let (far, p, x) = (distance(value(rounded(n, places)), value(n)), pow10(places) as real, distance(value(n), 0real));
    assert(far * p <= 1real + x / 1000000000000000real) by (nonlinear_arith)
        requires
            2real * far * p <= 1real,
            x >= 0real,
    ;
}

/// An amount as a number of decimal places.
pub open spec fn as_num(a: Amount) -> Num {
    (a.minor, a.precision)
}

proof fn lemma_amount_within(major: Num, commodity: Seq<char>, precision: int)
    requires
        precision >= 0,
    ensures
        amount_of_major(major, commodity, precision) matches Ok(a) ==> within(value(major), as_num(a), precision as nat),
{
    law_amount_of_major(major, commodity, precision);
    if let Ok(a) = amount_of_major(major, commodity, precision) {
        let (far, p, x) = (distance(in_major(a), value(major)), pow10(a.precision) as real, distance(value(major), 0real));
        assert(far * p <= 1real + x / 1000000000000000real) by (nonlinear_arith)
            requires
                100real * far * p < 51real,
                x >= 0real,
        ;
    }
}

/// Whether a rate and its source are those at which one commodity is taken into another on a day.
pub open spec fn noted(prices: Seq<Price>, from: Seq<char>, to: Seq<char>, date: Date, rate: Option<Num>, source: Seq<char>) -> bool {
    if from == to {
        rate is None && source.len() == 0
    } else {
        match rate_of(prices, uppered(trimmed(from)), uppered(trimmed(to)), date) {
            Some((r, s)) => rate == Some(r) && source == s,
            None => rate == Some((1int, 0nat)) && source == "missing"@,
        }
    }
}

/// What a posting of a quantity is worth. Its amount is the one that is given, and then the rate is amount
/// over quantity; or it is the quantity at the rate of the day.
pub open spec fn fair_quantity(b: Books, entity: Entity, fprec: nat, date: Date, p: PostingInput, row: Row) -> bool {
    let a = b.accounts@[row.place];
    let (q, v) = (in_major(row.quantity), in_major(row.amount));
    &&& within(value(p.quantity@), as_num(row.quantity), a.precision as nat)
    &&& match p.amount {
        Some(given) => {
            &&& within(value(given@), as_num(row.amount), fprec)
            &&& row.quantity.minor > 0 ==> row.amount.minor >= 0
            &&& row.quantity.minor < 0 ==> row.amount.minor <= 0
            &&& if a.commodity@ == entity.currency@ {
                q == v && row.rate is None
            } else {
                row.source == "input"@ && if row.quantity.minor == 0 {
                    row.rate is None
                } else {
                    row.rate is Some && within(v / q, row.rate->0, 12)
                }
            }
        },
        None => {
            &&& row.quantity.minor != 0
            &&& converts(b.prices@, a.commodity@, entity.currency@, date, q, as_num(row.amount), fprec)
            &&& noted(b.prices@, a.commodity@, entity.currency@, date, row.rate, row.source)
        },
    }
}

/// What a posting with its value in another commodity is worth: the value at the rate of the day, and on
/// the account the value itself, its amount, or its amount at the rate of the day.
pub open spec fn fair_value(b: Books, entity: Entity, fprec: nat, date: Date, p: PostingInput, row: Row, w: Num) -> bool {
    let a = b.accounts@[row.place];
    let code = uppered(trimmed((p.value_in->0).1@));
    let v = in_major(row.amount);
    &&& commodity_named(b.commodities@, code) matches Ok(c) && within(value((p.value_in->0).0@), w, c.precision as nat)
    &&& converts(b.prices@, code, entity.currency@, date, value(w), as_num(row.amount), fprec)
    &&& noted(b.prices@, code, entity.currency@, date, row.rate, row.source)
    &&& if a.commodity@ == entity.currency@ {
        within(v, as_num(row.quantity), a.precision as nat)
    } else if a.commodity@ == code {
        within(value(w), as_num(row.quantity), a.precision as nat)
    } else {
        converts(b.prices@, entity.currency@, a.commodity@, date, v, as_num(row.quantity), a.precision as nat)
    }
}

/// What the posting that balances is worth: its quantity is its amount at the rate of the day, and the
/// rate that is noted is the other way round.
pub open spec fn fair_balance(b: Books, entity: Entity, date: Date, row: Row) -> bool {
    let a = b.accounts@[row.place];
    let v = in_major(row.amount);
    &&& row.quantity.minor == 0 ==> row.amount.minor == 0
    &&& if a.commodity@ == entity.currency@ {
        within(v, as_num(row.quantity), a.precision as nat) && row.rate is None
    } else {
        &&& converts(b.prices@, entity.currency@, a.commodity@, date, v, as_num(row.quantity), a.precision as nat)
        &&& row.rate is Some
        &&& match rate_of(b.prices@, uppered(trimmed(entity.currency@)), uppered(trimmed(a.commodity@)), date) {
            Some((r, s)) => row.source == s && if r.0 == 0 {
                row.rate == Some(r)
            } else {
                within(1real / value(r), row.rate->0, 12)
            },
            None => row.source == "missing"@ && within(1real, row.rate->0, 12),
        }
    }
}

/// The posting that balances takes the negated sum of the others; on an account in another commodity its
/// quantity is that amount at the rate of the day, and the rate that is noted is one over it.
pub proof fn law_balancing_posting(b: Books, entity: Entity, fprec: nat, date: Date, place: int, total: int)
    ensures
        balancing_row(b, entity, fprec as int, date, place, total) matches Ok(row) ==> row.place == place && row.amount.minor == -total
            && row.amount.precision == fprec && fair_balance(b, entity, date, row),
{
    reveal(balancing_row);
    let a = b.accounts@[place];
    let n = negated_num(normal((total, fprec)));
    if let Ok(row) = balancing_row(b, entity, fprec as int, date, place, total) {
        lemma_normal_negated((total, fprec));
        lemma_normal((-total, fprec));
        lemma_same_value(n, (-total, fprec));
        lemma_units(n, fprec);
        lemma_units((-total, fprec), fprec);
        assert(pow10(0) == 1);
        law_amount_of_major(n, entity.currency@, fprec as int);
        law_minor_exact(n, fprec, -total);
        lemma_whole(-total, fprec);
        if a.commodity@ == entity.currency@ {
            lemma_amount_within(n, a.commodity@, a.precision as int);
        } else {
            law_amount_of_major((0, 0), a.commodity@, a.precision as int);
            law_valued_at_rate(b.prices@, entity.currency@, a.commodity@, date, n, a.precision as nat);
            let (q, rate, _) = valued(b.prices@, entity.currency@, a.commodity@, date, n, a.precision as nat)->0;
            law_amount_of_major(q, a.commodity@, a.precision as int);
            let r = rate->0;
            law_arithmetic_near((1, 0), r);
            lemma_value_whole(1);
            if r.0 != 0 {
                lemma_near_rounded(1real / value(r), divided((1, 0), r)->0, 12);
            }
        }
    }
}

proof fn lemma_whole(units: int, p: nat)
    ensures
        value((units, p)) * (pow10(p) as real) == units as real,
{
    lemma_units((units, p), p);
    let one = pow10((p - p) as nat);
    assert(one == 1);
    assert(units * one == units) by (nonlinear_arith)
        requires
            one == 1,
    ;
}

proof fn lemma_plain_fair(b: Books, entity: Entity, fprec: nat, date: Date, p: PostingInput, place: int)
    ensures
        plain_row(b, entity, fprec as int, date, p, place) matches Ok(row) ==> row.place == place && fair_quantity(b, entity, fprec, date, p, row),
{
    reveal(plain_row);
    let a = b.accounts@[place];
    let q = rounded(p.quantity@, a.precision as nat);
    if let Ok(row) = plain_row(b, entity, fprec as int, date, p, place) {
        lemma_rounded_within(p.quantity@, a.precision as nat);
        law_amount_of_major(q, a.commodity@, a.precision as int);
        lemma_same_sign(q, as_num(row.quantity));
        match p.amount {
            Some(given) => {
                lemma_amount_within(given@, entity.currency@, fprec as int);
                law_amount_of_major(given@, entity.currency@, fprec as int);
                let major = normal((row.amount.minor, row.amount.precision));
                lemma_normal((row.amount.minor, row.amount.precision));
                lemma_same_value(major, as_num(row.amount));
                if a.commodity@ != entity.currency@ && q.0 != 0 {
                    law_arithmetic_near(major, q);
                    lemma_near_rounded(value(major) / value(q), divided(major, q)->0, 12);
                }
            },
            None => {
                law_amount_of_major((0, 0), entity.currency@, fprec as int);
                law_valued_at_rate(b.prices@, a.commodity@, entity.currency@, date, q, fprec);
                let n = (valued(b.prices@, a.commodity@, entity.currency@, date, q, fprec)->0).0;
                law_amount_of_major(n, entity.currency@, fprec as int);
            },
        }
    }
}

/// Two pairs of one value have one sign.
proof fn lemma_same_sign(a: Num, b: Num)
    requires
        value(a) == value(b),
    ensures
        (a.0 > 0) == (b.0 > 0),
        (a.0 < 0) == (b.0 < 0),
{
    lemma_same_value(a, b);
    lemma_pow10_positive(a.1);
    lemma_pow10_positive(b.1);
    assert((a.0 > 0) == (b.0 > 0) && (a.0 < 0) == (b.0 < 0)) by (nonlinear_arith)
        requires
            a.0 * pow10(b.1) == b.0 * pow10(a.1),
            pow10(a.1) >= 1,
            pow10(b.1) >= 1,
    ;
}

proof fn lemma_value_fair(b: Books, entity: Entity, fprec: nat, date: Date, p: PostingInput, place: int)
    requires
        p.value_in is Some,
    ensures
        valued_row(b, entity, fprec as int, date, p, place) matches Ok(row) ==> row.place == place && exists|w: Num| #[trigger]
            fair_value(b, entity, fprec, date, p, row, w),
{
    reveal(valued_row);
    let a = b.accounts@[place];
    let code = uppered(trimmed((p.value_in->0).1@));
    if let Ok(row) = valued_row(b, entity, fprec as int, date, p, place) {
        let c = commodity_named(b.commodities@, code)->Ok_0;
        let w = rounded((p.value_in->0).0@, c.precision as nat);
        lemma_rounded_within((p.value_in->0).0@, c.precision as nat);
        law_amount_of_major((0, 0), entity.currency@, fprec as int);
        law_amount_of_major((0, 0), a.commodity@, a.precision as int);
        law_valued_at_rate(b.prices@, code, entity.currency@, date, w, fprec);
        let n = (valued(b.prices@, code, entity.currency@, date, w, fprec)->0).0;
        law_amount_of_major(n, entity.currency@, fprec as int);
        if a.commodity@ == entity.currency@ {
            lemma_amount_within(n, a.commodity@, a.precision as int);
        } else if a.commodity@ == code {
            lemma_amount_within(w, a.commodity@, a.precision as int);
        } else {
            law_valued_at_rate(b.prices@, entity.currency@, a.commodity@, date, n, a.precision as nat);
            let q = (valued(b.prices@, entity.currency@, a.commodity@, date, n, a.precision as nat)->0).0;
            law_amount_of_major(q, a.commodity@, a.precision as int);
        }
        assert(fair_value(b, entity, fprec, date, p, row, w));
    }
}

/// Whether the row of a posting is on its account, and fair: where it balances the entry, where it has its
/// value in another commodity, or for its quantity.
pub open spec fn fair(b: Books, entity: Entity, fprec: nat, date: Date, p: PostingInput, row: Row) -> bool {
    &&& 0 <= row.place < b.accounts@.len()
    &&& b.accounts@[row.place].id == p.account_id
    &&& b.accounts@[row.place].entity_id == entity.id
    &&& if p.balance {
        fair_balance(b, entity, date, row)
    } else if p.value_in is Some {
        exists|w: Num| #[trigger] fair_value(b, entity, fprec, date, p, row, w)
    } else {
        fair_quantity(b, entity, fprec, date, p, row)
    }
}

proof fn lemma_posting_fair(b: Books, entity: Entity, fprec: nat, date: Date, p: PostingInput, keep_closed: Seq<i64>, balanced: bool)
    ensures
        posting_row(b, entity, fprec as int, date, p, keep_closed, balanced) matches Ok(row) ==> {
            &&& 0 <= row.place < b.accounts@.len()
            &&& b.accounts@[row.place].id == p.account_id
            &&& b.accounts@[row.place].entity_id == entity.id
            &&& p.balance ==> !balanced
            &&& !p.balance ==> fair(b, entity, fprec, date, p, row)
        },
{
    reveal(posting_row);
    lemma_place(b.accounts@, p.account_id);
    if let Some(place) = place_of(b.accounts@, p.account_id) {
        lemma_plain_fair(b, entity, fprec, date, p, place);
        if p.value_in is Some {
            lemma_value_fair(b, entity, fprec, date, p, place);
        }
    }
}

proof fn lemma_rows_fair(b: Books, entity: Entity, fprec: nat, date: Date, inputs: Seq<PostingInput>, keep_closed: Seq<i64>, n: int)
    requires
        0 <= n <= inputs.len(),
    ensures
        rows_after(b, entity, fprec as int, date, inputs, keep_closed, n) matches Ok((rows, balance)) ==> {
            &&& rows.len() == n
            &&& balance matches Some(g) ==> 0 <= g < n && inputs[g].balance
            &&& forall|i: int| 0 <= i < n ==> {
                &&& 0 <= (#[trigger] rows[i]).place < b.accounts@.len()
                &&& b.accounts@[rows[i].place].id == inputs[i].account_id
                &&& b.accounts@[rows[i].place].entity_id == entity.id
                &&& if inputs[i].balance {
                    balance == Some(i)
                } else {
                    fair(b, entity, fprec, date, inputs[i], rows[i])
                }
            }
        },
    decreases n,
{
    if n > 0 {
        lemma_rows_fair(b, entity, fprec, date, inputs, keep_closed, n - 1);
        if let Ok((rows, balance)) = rows_after(b, entity, fprec as int, date, inputs, keep_closed, n - 1) {
            lemma_posting_fair(b, entity, fprec, date, inputs[n - 1], keep_closed, balance is Some);
        }
    }
}

/// An entry is booked as it was put in: every posting is on its account and worth what it says, at the rate
/// of the day where its commodity is another one; the amounts add up to nothing; and the only posting that
/// was not put in takes an exchange difference, one to one.
pub proof fn law_entry_fair(b: Books, entity: Entity, date: Date, inputs: Seq<PostingInput>, absorb_fx: bool, keep_closed: Seq<i64>)
    ensures
        entry_rows(b, entity, date, inputs, absorb_fx, keep_closed) matches Ok(rows) ==> {
            &&& functional_places(b.commodities@, entity) is Ok
            &&& inputs.len() <= rows.len() <= inputs.len() + 1
            &&& amount_sum(rows, None, rows.len() as int) == 0
            &&& forall|i: int|
                0 <= i < inputs.len() ==> fair(
                    b,
                    entity,
                    (functional_places(b.commodities@, entity)->Ok_0) as nat,
                    date,
                    inputs[i],
                    #[trigger] rows[i],
                )
            &&& rows.len() > inputs.len() ==> absorb_fx && rows.last().quantity == rows.last().amount && rows.last().rate is None
        },
{
    if let Ok(all) = entry_rows(b, entity, date, inputs, absorb_fx, keep_closed) {
        let fprec = (functional_places(b.commodities@, entity)->Ok_0) as nat;
        lemma_rows_fair(b, entity, fprec, date, inputs, keep_closed, inputs.len() as int);
        let (rows, balance) = rows_after(b, entity, fprec as int, date, inputs, keep_closed, inputs.len() as int)->Ok_0;
        let total = amount_sum(rows, balance, rows.len() as int);
        if let Some(g) = balance {
            law_balancing_posting(b, entity, fprec, date, rows[g].place, total);
            lemma_amount_sum_with(all, g, all.len() as int);
            lemma_amount_sum_prefix(all, rows, Some(g), rows.len() as int);
        } else if all.len() > rows.len() {
            reveal(fx_row);
            lemma_amount_sum_prefix(rows, all, None, rows.len() as int);
        }
    }
}

} // verus!
