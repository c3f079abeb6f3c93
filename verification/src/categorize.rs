//! Categorizing an entry without touching its bank posting or evidence: the postings on a category
//! are replaced by one or several on others.
//!
//! Split quantities are in the bank's native currency. Book values are allocated at the rate that
//! is already booked; the last leg absorbs rounding differences.

use vstd::prelude::*;

use crate::accounts::{find_by_role, get_account, is_category, place_of, role_place};
use crate::date::{iso, iso_text, Date};
use crate::decimal::{
    added, distance, divided, law_arithmetic_near, law_rounded_nearest, law_sums_exact, lemma_pow10_positive, multiplied, near, normal, pow10, rounded,
    subtracted, tame, value, within, Decimal, Num,
};
use crate::error::{invalid, Refusal, Result};
use crate::journal::{check_lock, is_locked, lock_text, prepare, prepare_outcome, Books, Prepared};
use crate::model::{meta_remove, meta_set, meta_without, status_text, Account, AccountType, Entity, EntryStatus, JournalEntry, MetaValue, Posting, PostingInput};
use crate::money::{negated_num, round_to};
use crate::rates::{rate_for, rate_of};
use crate::splits::{resolve, resolved_legs, Leg, ResolvedLeg};
use crate::text::{cat, cat4, cat5, int_string, int_text, same, trimmed, uppered};

verus! {

/// The postings of an entry that are replaced: those on categories, or that on Uncategorized.
pub open spec fn is_replaced(p: Posting, existing: bool, suspense: i64) -> bool {
    if existing {
        is_category(p.account_type)
    } else {
        p.account_id == suspense
    }
}

pub open spec fn replaced(v: Seq<Posting>, existing: bool, suspense: i64) -> Seq<Posting>
    decreases v.len(),
{
    if v.len() == 0 {
        v
    } else if is_replaced(v.last(), existing, suspense) {
        replaced(v.drop_last(), existing, suspense).push(v.last())
    } else {
        replaced(v.drop_last(), existing, suspense)
    }
}

/// The postings of an entry that stay.
pub open spec fn unchanged(v: Seq<Posting>, existing: bool, suspense: i64) -> Seq<Posting>
    decreases v.len(),
{
    if v.len() == 0 {
        v
    } else if is_replaced(v.last(), existing, suspense) {
        unchanged(v.drop_last(), existing, suspense)
    } else {
        unchanged(v.drop_last(), existing, suspense).push(v.last())
    }
}

/// How many postings are on assets or liabilities.
pub open spec fn bank_count(v: Seq<Posting>) -> int
    decreases v.len(),
{
    if v.len() == 0 {
        0
    } else {
        bank_count(v.drop_last()) + (if v.last().account_type == AccountType::Asset || v.last().account_type
            == AccountType::Liability {
            1int
        } else {
            0
        })
    }
}

/// Whether something outside the books vouches for a posting.
pub open spec fn is_evidenced(p: Posting, evidenced: Seq<i64>) -> bool {
    evidenced.contains(p.id) || p.reconciled_at is Some || p.external_id is Some || p.fingerprint is Some
}

pub open spec fn some_evidenced(v: Seq<Posting>, evidenced: Seq<i64>) -> bool {
    exists|i: int| 0 <= i < v.len() && is_evidenced(#[trigger] v[i], evidenced)
}

/// Why an entry cannot be split although it is posted or waits with a category.
pub open spec fn existing_refusal(e: JournalEntry, refunded: bool) -> Option<Seq<char>> {
    if e.counterpart_id is Some || e.reverses_id is Some || e.refund_of_id is Some {
        Some("paired transfers, reversals and linked refunds cannot be split here"@)
    } else if refunded {
        Some("this entry has a linked refund; its booked expense splits are protected"@)
    } else if bank_count(e.postings@) != 1 {
        Some("splitting requires one bank/card posting and category postings"@)
    } else if replaced(e.postings@, true, 0).len() == 0 || replaced(e.postings@, true, 0).len() + 1 != e.postings@.len() {
        Some("only income/expense category postings can be split"@)
    } else {
        None
    }
}

/// Why an entry cannot be categorized: the first rule that it breaks.
pub open spec fn categorize_refusal(
    accounts: Seq<Account>,
    entity: Entity,
    e: JournalEntry,
    existing: bool,
    refunded: bool,
    evidenced: Seq<i64>,
) -> Option<Refusal> {
    let id = int_text(e.id as int);
    if e.status == EntryStatus::Void || (!existing && e.status != EntryStatus::Draft) {
        Some(Refusal::Invalid("#"@ + id + " is "@ + status_text(e.status) + ", not a draft"@))
    } else {
        match role_place(accounts, e.entity_id, "suspense"@, 0) {
            None => Some(
                Refusal::NotFound("system account "@ + "suspense"@ + " for entity "@ + int_text(e.entity_id as int)),
            ),
            Some(s) => {
                let gone = replaced(e.postings@, existing, accounts[s].id);
                if existing && existing_refusal(e, refunded) is Some {
                    Some(Refusal::Invalid(existing_refusal(e, refunded)->0))
                } else if gone.len() == 0 || (!existing && gone.len() != 1) {
                    Some(Refusal::Invalid("#"@ + id + " must have exactly one posting on "@ + accounts[s].path@))
                } else if some_evidenced(gone, evidenced) {
                    Some(Refusal::Invalid("cannot replace an evidenced or reconciled category posting"@))
                } else if unchanged(e.postings@, existing, accounts[s].id).len() == 0 {
                    Some(Refusal::Invalid("entry has no bank posting"@))
                } else if is_locked(entity, e.date) {
                    Some(Refusal::Locked(lock_text(entity, e.date)))
                } else {
                    None
                }
            },
        }
    }
}

/// A posting with the values it has.
pub open spec fn as_booked(p: Posting, x: PostingInput) -> bool {
    &&& x.account_id == p.account_id
    &&& x.quantity@ == normal((p.quantity@.minor, p.quantity@.precision))
    &&& x.amount is Some && x.amount->0@ == normal((p.amount@.minor, p.amount@.precision))
    &&& x.memo@.len() == 0 && x.metadata@.len() == 0 && x.external_id is None && x.fingerprint is None && !x.balance && x.value_in
        is None
}

fn book_again(p: &Posting) -> (x: PostingInput)
    ensures
        as_booked(*p, x),
{
    let mut x = PostingInput::new(p.account_id, p.quantity.major());
    x.amount = Some(p.amount.major());
    x
}

/// What one leg of a split is booked as.
pub struct CatLine {
    pub account: i64,
    pub quantity: Num,
    pub amount: Num,
}

/// What the legs of a split have used of the bank posting so far: the lines, and the amount and the
/// native quantity of them together.
pub struct CatState {
    pub lines: Seq<CatLine>,
    pub amount: Num,
    pub native: Num,
}

pub open spec fn overflow() -> Refusal {
    Refusal::Invalid("split amount overflow"@)
}

/// What a split is made against.
pub struct CatBase {
    pub total_amount: Num,
    pub total_native: Num,
    pub bank_account: i64,
    pub bank_commodity: Seq<char>,
    pub bank_places: nat,
    pub amount_places: nat,
    pub suspense: i64,
    pub existing: bool,
}

/// The native quantity of a leg: the last one takes what is left.
pub open spec fn leg_native(base: CatBase, quantity: Num, last: bool, used: Num) -> Option<Num> {
    if last {
        subtracted(base.total_native, used)
    } else {
        Some(rounded(if base.total_native.0 < 0 { negated_num(quantity) } else { quantity }, base.bank_places))
    }
}

/// The amount of a leg at the booked rate: the last one takes what is left.
pub open spec fn leg_value(base: CatBase, native: Num, last: bool, used: Num) -> Option<Num> {
    if last {
        subtracted(base.total_amount, used)
    } else {
        match multiplied(base.total_amount, native) {
            Some(p) => match divided(p, base.total_native) {
                Some(q) => Some(rounded(q, base.amount_places)),
                None => None,
            },
            None => None,
        }
    }
}

/// Whether a leg has a value, of the sign that its quantity and the total give it.
pub open spec fn leg_fits(base: CatBase, quantity: Num, native: Num, amount: Num) -> bool {
    &&& amount.0 != 0 && native.0 != 0
    &&& (amount.0 < 0) == ((base.total_amount.0 < 0) != (quantity.0 < 0))
    &&& (native.0 < 0) == ((base.total_native.0 < 0) != (quantity.0 < 0))
}

/// The quantity of a leg on its account.
pub open spec fn leg_quantity(b: Books, entity: Entity, date: Date, base: CatBase, a: Account, native: Num, amount: Num) -> std::result::Result<
    Num,
    Refusal,
> {
    if a.commodity@ == entity.currency@ {
        Ok(amount)
    } else if a.commodity@ == base.bank_commodity {
        Ok(native)
    } else {
        match rate_of(b.prices@, uppered(trimmed(entity.currency@)), uppered(trimmed(a.commodity@)), date) {
            None => Err(
                Refusal::Invalid(
                    "missing exchange rate "@ + entity.currency@ + " to "@ + a.commodity@ + " on "@ + iso_text(date),
                ),
            ),
            Some((rate, _)) => match multiplied(amount, rate) {
                Some(q) => Ok(q),
                None => Err(Refusal::Invalid("split conversion overflow"@)),
            },
        }
    }
}

/// What the leg `i` is booked as, after the ones before it.
pub open spec fn leg_line(b: Books, entity: Entity, date: Date, base: CatBase, account: i64, quantity: Num, last: bool, used: CatState) -> std::result::Result<
    CatState,
    Refusal,
> {
    match place_of(b.accounts@, account) {
        None => Err(Refusal::NotFound("account "@ + int_text(account as int))),
        Some(i) => {
            let a = b.accounts@[i];
            if base.existing && !is_category(a.account_type) {
                Err(Refusal::Invalid("existing transaction splits must use income or expense categories"@))
            } else if account == base.suspense || account == base.bank_account {
                Err(Refusal::Invalid("choose a target other than the bank or Uncategorized account"@))
            } else {
                match leg_native(base, quantity, last, used.native) {
                    None => Err(overflow()),
                    Some(native) => match leg_value(base, native, last, used.amount) {
                        None => Err(overflow()),
                        Some(amount) => if !leg_fits(base, quantity, native, amount) {
                            Err(Refusal::Invalid("split rounds to zero or exceeds the total; adjust the amounts"@))
                        } else {
                            match leg_quantity(b, entity, date, base, a, native, amount) {
                                Err(e) => Err(e),
                                Ok(q) => match (added(used.amount, amount), added(used.native, native)) {
                                    (Some(x), Some(y)) => Ok(
                                        CatState {
                                            lines: used.lines.push(CatLine { account, quantity: q, amount }),
                                            amount: x,
                                            native: y,
                                        },
                                    ),
                                    _ => Err(overflow()),
                                },
                            }
                        },
                    },
                }
            }
        },
    }
}

/// What the first `n` legs are booked as, or why one of them cannot be.
pub open spec fn lines_after(b: Books, entity: Entity, date: Date, base: CatBase, accounts: Seq<i64>, amounts: Seq<Num>, n: int) -> std::result::Result<
    CatState,
    Refusal,
>
    decreases n,
{
    if n <= 0 {
        Ok(CatState { lines: Seq::empty(), amount: (0, 0), native: (0, 0) })
    } else {
        match lines_after(b, entity, date, base, accounts, amounts, n - 1) {
            Err(e) => Err(e),
            Ok(used) => leg_line(b, entity, date, base, accounts[n - 1], amounts[n - 1], n == accounts.len(), used),
        }
    }
}

proof fn lemma_lines_failed(b: Books, entity: Entity, date: Date, base: CatBase, accounts: Seq<i64>, amounts: Seq<Num>, n: int, k: int)
    requires
        0 <= n <= k,
        lines_after(b, entity, date, base, accounts, amounts, n) is Err,
    ensures
        lines_after(b, entity, date, base, accounts, amounts, k) == lines_after(b, entity, date, base, accounts, amounts, n),
    decreases k - n,
{
    if n < k {
        lemma_lines_failed(b, entity, date, base, accounts, amounts, n, k - 1);
    }
}

pub open spec fn base_of(bank: Posting, suspense: i64, existing: bool) -> CatBase {
    CatBase {
        total_amount: negated_num(normal((bank.amount@.minor, bank.amount@.precision))),
        total_native: negated_num(normal((bank.quantity@.minor, bank.quantity@.precision))),
        bank_account: bank.account_id,
        bank_commodity: bank.quantity@.commodity,
        bank_places: bank.quantity@.precision,
        amount_places: bank.amount@.precision,
        suspense,
        existing,
    }
}

/// The total of a split: what moved on the bank, without its sign.
pub open spec fn split_total(bank: Posting) -> Num {
    let n = normal((bank.quantity@.minor, bank.quantity@.precision));
    ((if n.0 < 0 { -n.0 } else { n.0 }), n.1)
}

/// Whether `x` is the posting of one leg: it carries what the replaced one did, and the last leg
/// is marked as the one that balances.
pub open spec fn leg_posting(old: Posting, leg: Leg, line: CatLine, last: bool, x: PostingInput) -> bool {
    &&& x.account_id == line.account && x.quantity@ == line.quantity
    &&& x.amount is Some && x.amount->0@ == line.amount
    &&& x.memo == (if leg.memo@.len() == 0 { old.memo } else { leg.memo })
    &&& x.external_id is None && x.fingerprint is None && !x.balance && x.value_in is None
    &&& if last {
        &&& x.metadata@.len() > 0
        &&& x.metadata@.drop_last() == meta_without(meta_without(old.metadata@, "balance"@), "balance"@)
        &&& x.metadata@.last().key@ == "balance"@
        &&& x.metadata@.last().value == MetaValue::Flag(true)
    } else {
        x.metadata@ == meta_without(old.metadata@, "balance"@)
    }
}

/// The accounts of legs, in order.
pub open spec fn leg_accounts(legs: Seq<Leg>) -> Seq<i64> {
    legs.map_values(|l: Leg| l.account_id)
}

/// Whether `x` are the postings with which an entry with one bank posting is split.
pub open spec fn split_postings(bank: Posting, old: Posting, legs: Seq<Leg>, lines: Seq<CatLine>, x: Seq<PostingInput>) -> bool {
    &&& x.len() == legs.len() + 1
    &&& lines.len() == legs.len()
    &&& as_booked(bank, x[0])
    &&& forall|i: int|
        0 <= i < legs.len() ==> leg_posting(old, #[trigger] legs[i], lines[i], i + 1 == legs.len(), x[i + 1])
}

/// Whether `x` are the postings with which an entry with several other postings is categorized:
/// those, and one that balances.
pub open spec fn single_postings(kept: Seq<Posting>, old: Posting, target: i64, x: Seq<PostingInput>) -> bool {
    &&& x.len() == kept.len() + 1
    &&& forall|i: int| 0 <= i < kept.len() ==> as_booked(#[trigger] kept[i], x[i])
    &&& crate::capture::balances(x.last(), target, old.memo@)
}

/// Why an entry with several other postings cannot get this category.
pub open spec fn single_refusal(legs: Seq<Leg>, suspense: i64) -> Option<Refusal> {
    if legs.len() != 1 || legs[0].quantity is Some {
        Some(
            Refusal::Invalid("splitting requires a draft with one bank posting and one Uncategorized posting"@),
        )
    } else if legs[0].account_id == suspense {
        Some(Refusal::Invalid("choose a target other than Uncategorized"@))
    } else {
        None
    }
}

pub open spec fn kept_accounts(kept: Seq<Posting>) -> Seq<i64> {
    kept.map_values(|p: Posting| p.account_id)
}

/// What categorizing an entry does to its postings.
#[derive(Debug)]
pub struct Categorized {
    /// The postings that go.
    pub removed: Vec<i64>,
    /// How many of the prepared postings are there already.
    pub kept: usize,
    pub prepared: Vec<Prepared>,
}

pub open spec fn ids_of(v: Seq<Posting>) -> Seq<i64> {
    v.map_values(|p: Posting| p.id)
}

fn is_marked(p: &Posting, evidenced: &[i64]) -> (r: bool)
    ensures
        r == is_evidenced(*p, evidenced@),
{
    if p.reconciled_at.is_some() || p.external_id.is_some() || p.fingerprint.is_some() {
        return true;
    }
    let mut i: usize = 0;
    while i < evidenced.len()
        invariant
            i <= evidenced.len(),
            forall|k: int| 0 <= k < i ==> evidenced@[k] != p.id,
        decreases evidenced.len() - i,
    {
        if evidenced[i] == p.id {
            assert(evidenced@[i as int] == p.id);
            return true;
        }
        i = i + 1;
    }
    false
}

/// The places of the postings that go and of those that stay.
fn partition(v: &[Posting], existing: bool, suspense: i64) -> (r: (Vec<usize>, Vec<usize>))
    ensures
        at_places(v@, r.0@, replaced(v@, existing, suspense)),
        at_places(v@, r.1@, unchanged(v@, existing, suspense)),
{
    let mut gone: Vec<usize> = Vec::new();
    let mut kept: Vec<usize> = Vec::new();
    let mut i: usize = 0;
    while i < v.len()
        invariant
            i <= v.len(),
            at_places(v@, gone@, replaced(v@.take(i as int), existing, suspense)),
            at_places(v@, kept@, unchanged(v@.take(i as int), existing, suspense)),
        decreases v.len() - i,
    {
        assert(v@.take(i + 1).drop_last() == v@.take(i as int));
        let p = &v[i];
        let goes = if existing {
            matches!(p.account_type, AccountType::Income | AccountType::Expense)
        } else {
            p.account_id == suspense
        };
        if goes {
            gone.push(i);
        } else {
            kept.push(i);
        }
        i = i + 1;
    }
    assert(v@.take(i as int) == v@);
    (gone, kept)
}

/// Whether `w` are the postings of `v` at these places.
pub open spec fn at_places(v: Seq<Posting>, places: Seq<usize>, w: Seq<Posting>) -> bool {
    places.len() == w.len() && forall|i: int| 0 <= i < w.len() ==> (#[trigger] places[i]) < v.len() && v[places[i] as int] == w[i]
}

fn count_banks(v: &[Posting]) -> (n: usize)
    ensures
        n == bank_count(v@),
{
    let mut n: usize = 0;
    let mut i: usize = 0;
    while i < v.len()
        invariant
            i <= v.len(),
            n <= i,
            n == bank_count(v@.take(i as int)),
        decreases v.len() - i,
    {
        assert(v@.take(i + 1).drop_last() == v@.take(i as int));
        if matches!(v[i].account_type, AccountType::Asset | AccountType::Liability) {
            n = n + 1;
        }
        i = i + 1;
    }
    assert(v@.take(i as int) == v@);
    n
}

/// Checks that an entry can be categorized; gives the places of the postings that go and of those
/// that stay.
fn check_categorize(
    accounts: &[Account],
    entity: &Entity,
    e: &JournalEntry,
    existing: bool,
    refunded: bool,
    evidenced: &[i64],
) -> (r: Result<(i64, Vec<usize>, Vec<usize>)>)
    ensures
        match r {
            Ok((suspense, gone, kept)) => {
                &&& categorize_refusal(accounts@, *entity, *e, existing, refunded, evidenced@) is None
                &&& role_place(accounts@, e.entity_id, "suspense"@, 0) is Some
                &&& suspense == accounts@[role_place(accounts@, e.entity_id, "suspense"@, 0)->0].id
                &&& at_places(e.postings@, gone@, replaced(e.postings@, existing, suspense))
                &&& at_places(e.postings@, kept@, unchanged(e.postings@, existing, suspense))
                &&& gone@.len() > 0 && kept@.len() > 0
            },
            Err(x) => categorize_refusal(accounts@, *entity, *e, existing, refunded, evidenced@) == Some(x@),
        },
{
    let id = int_string(e.id);
    if e.status == EntryStatus::Void || (!existing && e.status != EntryStatus::Draft) {
        return Err(invalid(cat5("#", id.as_str(), " is ", e.status.as_str(), ", not a draft").as_str()));
    }
    let suspense = match find_by_role(accounts, e.entity_id, "suspense") {
        Ok(a) => a,
        Err(x) => {
            return Err(x);
        },
    };
    let (gone, kept) = partition(&e.postings, existing, suspense.id);
    if existing {
        proof {
            lemma_category_side(e.postings@, 0, suspense.id);
        }
        if e.counterpart_id.is_some() || e.reverses_id.is_some() || e.refund_of_id.is_some() {
            return Err(invalid("paired transfers, reversals and linked refunds cannot be split here"));
        }
        if refunded {
            return Err(invalid("this entry has a linked refund; its booked expense splits are protected"));
        }
        if count_banks(&e.postings) != 1 {
            return Err(invalid("splitting requires one bank/card posting and category postings"));
        }
        if gone.len() == 0 || gone.len() != e.postings.len() - 1 {
            return Err(invalid("only income/expense category postings can be split"));
        }
    }
    if gone.len() == 0 || (!existing && gone.len() != 1) {
        return Err(
            invalid(cat4("#", id.as_str(), " must have exactly one posting on ", suspense.path.as_str()).as_str()),
        );
    }
    let ghost away = replaced(e.postings@, existing, suspense.id);
    let mut i: usize = 0;
    while i < gone.len()
        invariant
            i <= gone.len(),
            at_places(e.postings@, gone@, away),
            forall|k: int| 0 <= k < i ==> !is_evidenced(#[trigger] away[k], evidenced@),
        ensures
            i == gone.len() ==> !some_evidenced(away, evidenced@),
            i < gone.len() ==> some_evidenced(away, evidenced@),
            i <= gone.len(),
        decreases gone.len() - i,
    {
        let at: usize = gone[i];
        assert(e.postings@[at as int] == away[i as int]);
        if is_marked(&e.postings[at], evidenced) {
            assert(is_evidenced(away[i as int], evidenced@));
            break;
        }
        i = i + 1;
    }
    if i < gone.len() {
        return Err(invalid("cannot replace an evidenced or reconciled category posting"));
    }
    if kept.len() == 0 {
        return Err(invalid("entry has no bank posting"));
    }
    if let Err(x) = check_lock(entity, e.date) {
        return Err(x);
    }
    Ok((suspense.id, gone, kept))
}

/// Which postings are on categories does not depend on the Uncategorized account.
proof fn lemma_category_side(v: Seq<Posting>, a: i64, b: i64)
    ensures
        replaced(v, true, a) == replaced(v, true, b),
    decreases v.len(),
{
    if v.len() > 0 {
        lemma_category_side(v.drop_last(), a, b);
    }
}

/// What one leg is booked as: its quantity on its account, its amount, and what is used now.
fn book_leg(
    b: &Books,
    entity: &Entity,
    date: Date,
    bank: &Posting,
    suspense: i64,
    existing: bool,
    leg: &ResolvedLeg,
    last: bool,
    used_amount: Decimal,
    used_native: Decimal,
    Ghost(used): Ghost<CatState>,
) -> (r: Result<(Decimal, Decimal, Decimal, Decimal)>)
    requires
        used.amount == used_amount@,
        used.native == used_native@,
    ensures
        ({
            let step = leg_line(*b, *entity, date, base_of(*bank, suspense, existing), leg.account_id, leg.quantity@, last, used);
            match r {
                Ok((quantity, amount, x, y)) => step == Ok::<CatState, Refusal>(
                    CatState {
                        lines: used.lines.push(CatLine { account: leg.account_id, quantity: quantity@, amount: amount@ }),
                        amount: x@,
                        native: y@,
                    },
                ),
                Err(e) => step == Err::<CatState, Refusal>(e@),
            }
        }),
{
    let a = match get_account(&b.accounts, leg.account_id) {
        Ok(a) => a,
        Err(e) => {
            return Err(e);
        },
    };
    if existing && !matches!(a.account_type, AccountType::Income | AccountType::Expense) {
        return Err(invalid("existing transaction splits must use income or expense categories"));
    }
    if leg.account_id == suspense || leg.account_id == bank.account_id {
        return Err(invalid("choose a target other than the bank or Uncategorized account"));
    }
    let total_amount = bank.amount.major().negated();
    let total_native = bank.quantity.major().negated();
    let native = if last {
        match total_native.checked_sub(used_native) {
            Some(n) => n,
            None => {
                return Err(invalid("split amount overflow"));
            },
        }
    } else {
        let q = if total_native.is_negative() { leg.quantity.negated() } else { leg.quantity };
        round_to(q, bank.quantity.precision())
    };
    let amount = if last {
        match total_amount.checked_sub(used_amount) {
            Some(n) => n,
            None => {
                return Err(invalid("split amount overflow"));
            },
        }
    } else {
        let value = match total_amount.checked_mul(native) {
            Some(p) => p.checked_div(total_native),
            None => None,
        };
        match value {
            Some(v) => round_to(v, bank.amount.precision()),
            None => {
                return Err(invalid("split amount overflow"));
            },
        }
    };
    let minus = leg.quantity.is_negative();
    if amount.is_zero() || native.is_zero() || amount.is_negative() != (total_amount.is_negative() != minus)
        || native.is_negative() != (total_native.is_negative() != minus) {
        return Err(invalid("split rounds to zero or exceeds the total; adjust the amounts"));
    }
    let bank_commodity = bank.quantity.commodity();
    let quantity = if same(a.commodity.as_str(), entity.currency.as_str()) {
        amount
    } else if same(a.commodity.as_str(), bank_commodity.as_str()) {
        native
    } else {
        match rate_for(&b.prices, entity.currency.as_str(), a.commodity.as_str(), date) {
            None => {
                let left = cat5(
                    "missing exchange rate ",
                    entity.currency.as_str(),
                    " to ",
                    a.commodity.as_str(),
                    " on ",
                );
                return Err(invalid(cat(left.as_str(), iso(date).as_str()).as_str()));
            },
            Some(l) => match amount.checked_mul(l.rate) {
                Some(q) => q,
                None => {
                    return Err(invalid("split conversion overflow"));
                },
            },
        }
    };
    match (used_amount.checked_add(amount), used_native.checked_add(native)) {
        (Some(x), Some(y)) => Ok((quantity, amount, x, y)),
        _ => Err(invalid("split amount overflow")),
    }
}

/// The postings with which an entry with one bank posting is split, or why it cannot be.
pub open spec fn split_lines(b: Books, entity: Entity, date: Date, bank: Posting, suspense: i64, existing: bool, legs: Seq<Leg>) -> std::result::Result<
    Seq<CatLine>,
    Refusal,
> {
    match resolved_legs(split_total(bank), legs) {
        Err(m) => Err(Refusal::Invalid(m)),
        Ok(amounts) => match lines_after(
            b,
            entity,
            date,
            base_of(bank, suspense, existing),
            leg_accounts(legs),
            amounts,
            legs.len() as int,
        ) {
            Err(e) => Err(e),
            Ok(state) => Ok(state.lines),
        },
    }
}

fn leg_input(old: &Posting, leg: &Leg, quantity: Decimal, amount: Decimal, last: bool) -> (x: PostingInput)
    ensures
        leg_posting(
            *old,
            *leg,
            (CatLine { account: leg.account_id, quantity: quantity@, amount: amount@ }),
            last,
            x,
        ),
{
    let mut metadata = meta_remove(&old.metadata, "balance");
    if last {
        metadata = meta_set(&metadata, "balance", MetaValue::Flag(true));
    }
    let mut x = PostingInput::new(leg.account_id, quantity);
    x.amount = Some(amount);
    x.memo = if leg.memo.as_str().is_empty() { old.memo.clone() } else { leg.memo.clone() };
    x.metadata = metadata;
    x
}

fn split_inputs(
    b: &Books,
    entity: &Entity,
    date: Date,
    bank: &Posting,
    old: &Posting,
    suspense: i64,
    existing: bool,
    legs: &[Leg],
) -> (r: Result<Vec<PostingInput>>)
    ensures
        ({
            let lines = split_lines(*b, *entity, date, *bank, suspense, existing, legs@);
            match r {
                Ok(x) => lines is Ok && split_postings(*bank, *old, legs@, lines->Ok_0, x@),
                Err(e) => lines == Err::<Seq<CatLine>, Refusal>(e@),
            }
        }),
{
    let total = bank.quantity.major().abs();
    let resolved = match resolve(total, legs) {
        Ok(v) => v,
        Err(e) => {
            return Err(e);
        },
    };
    let ghost amounts = resolved_legs(split_total(*bank), legs@)->Ok_0;
    let ghost accounts = leg_accounts(legs@);
    let ghost base = base_of(*bank, suspense, existing);
    let mut x: Vec<PostingInput> = Vec::new();
    x.push(book_again(bank));
    let mut used_amount = Decimal::zero();
    let mut used_native = Decimal::zero();
    let ghost mut used = CatState { lines: Seq::empty(), amount: (0, 0), native: (0, 0) };
    let mut i: usize = 0;
    while i < legs.len()
        invariant
            i <= legs.len() == resolved@.len(),
            amounts.len() == legs@.len(),
            accounts == leg_accounts(legs@),
            base == base_of(*bank, suspense, existing),
            resolved_legs(split_total(*bank), legs@) == Ok::<Seq<Num>, Seq<char>>(amounts),
            forall|k: int|
                0 <= k < resolved@.len() ==> (#[trigger] resolved@[k]).account_id == legs@[k].account_id && resolved@[k].quantity@
                    == amounts[k] && resolved@[k].memo == legs@[k].memo,
            lines_after(*b, *entity, date, base, accounts, amounts, i as int) == Ok::<CatState, Refusal>(used),
            used.amount == used_amount@,
            used.native == used_native@,
            used.lines.len() == i,
            x@.len() == i + 1,
            as_booked(*bank, x@[0]),
            forall|k: int|
                0 <= k < i ==> leg_posting(*old, #[trigger] legs@[k], used.lines[k], k + 1 == legs@.len(), x@[k + 1]),
        decreases legs.len() - i,
    {
        let leg = &resolved[i];
        let last = i + 1 == legs.len();
        let (quantity, amount, new_amount, new_native) = match book_leg(
            b,
            entity,
            date,
            bank,
            suspense,
            existing,
            leg,
            last,
            used_amount,
            used_native,
            Ghost(used),
        ) {
            Ok(v) => v,
            Err(e) => {
                proof {
                    lemma_lines_failed(*b, *entity, date, base, accounts, amounts, i + 1, legs@.len() as int);
                }
                return Err(e);
            },
        };
        let ghost before = used;
        let ghost old_x = x@;
        proof {
            used = CatState {
                lines: before.lines.push(CatLine { account: leg.account_id, quantity: quantity@, amount: amount@ }),
                amount: new_amount@,
                native: new_native@,
            };
        }
        used_amount = new_amount;
        used_native = new_native;
        x.push(leg_input(old, &legs[i], quantity, amount, last));
        proof {
            assert forall|k: int| 0 <= k < i + 1 implies leg_posting(
                *old,
                #[trigger] legs@[k],
                used.lines[k],
                k + 1 == legs@.len(),
                x@[k + 1],
            ) by {
                if k < i {
                    assert(leg_posting(*old, legs@[k], before.lines[k], k + 1 == legs@.len(), old_x[k + 1]));
                    assert(used.lines[k] == before.lines[k] && x@[k + 1] == old_x[k + 1]);
                }
            }
        }
        i = i + 1;
    }
    Ok(x)
}

/// Whether `x` are the postings with which an entry is categorized.
pub open spec fn category_inputs(
    b: Books,
    entity: Entity,
    e: JournalEntry,
    legs: Seq<Leg>,
    existing: bool,
    suspense: i64,
    x: Seq<PostingInput>,
) -> bool {
    let gone = replaced(e.postings@, existing, suspense);
    let kept = unchanged(e.postings@, existing, suspense);
    if kept.len() != 1 {
        single_refusal(legs, suspense) is None && single_postings(kept, gone[0], legs[0].account_id, x)
    } else {
        let lines = split_lines(b, entity, e.date, kept[0], suspense, existing, legs);
        lines is Ok && split_postings(kept[0], gone[0], legs, lines->Ok_0, x)
    }
}

/// Why the legs do not fit an entry that can be categorized.
pub open spec fn legs_refusal(b: Books, entity: Entity, e: JournalEntry, legs: Seq<Leg>, existing: bool, suspense: i64) -> Option<Refusal> {
    let kept = unchanged(e.postings@, existing, suspense);
    if kept.len() != 1 {
        single_refusal(legs, suspense)
    } else {
        match split_lines(b, entity, e.date, kept[0], suspense, existing, legs) {
            Err(x) => Some(x),
            Ok(_) => None,
        }
    }
}

/// What categorizing an entry gives: the postings that go, and the others with the new ones
/// prepared; or the reason for which it is refused.
pub open spec fn categorize_outcome(
    b: Books,
    entity: Entity,
    e: JournalEntry,
    legs: Seq<Leg>,
    existing: bool,
    refunded: bool,
    evidenced: Seq<i64>,
    r: Result<Categorized>,
) -> bool {
    let suspense = b.accounts@[role_place(b.accounts@, e.entity_id, "suspense"@, 0)->0].id;
    let gone = replaced(e.postings@, existing, suspense);
    let kept = unchanged(e.postings@, existing, suspense);
    match categorize_refusal(b.accounts@, entity, e, existing, refunded, evidenced) {
        Some(why) => r is Err && r->Err_0@ == why,
        None => match legs_refusal(b, entity, e, legs, existing, suspense) {
            Some(why) => r is Err && r->Err_0@ == why,
            None => exists|x: Seq<PostingInput>, done: Result<Vec<Prepared>>|
                category_inputs(b, entity, e, legs, existing, suspense, x) && #[trigger] prepare_outcome(
                    b,
                    entity,
                    e.date,
                    x,
                    false,
                    kept_accounts(kept),
                    done,
                ) && (match r {
                    Ok(c) => done is Ok && c.prepared == done->Ok_0 && c.removed@ == ids_of(gone) && c.kept == kept.len(),
                    Err(w) => done is Err && w@ == done->Err_0@,
                }),
        },
    }
}

fn single_inputs(v: &[Posting], kept: &Vec<usize>, old: &Posting, legs: &[Leg], suspense: i64, Ghost(stay): Ghost<Seq<Posting>>) -> (r:
    Result<Vec<PostingInput>>)
    requires
        at_places(v@, kept@, stay),
    ensures
        match r {
            Ok(x) => single_refusal(legs@, suspense) is None && single_postings(stay, *old, legs@[0].account_id, x@),
            Err(e) => single_refusal(legs@, suspense) == Some(e@),
        },
{
    if legs.len() != 1 || legs[0].quantity.is_some() {
        return Err(invalid("splitting requires a draft with one bank posting and one Uncategorized posting"));
    }
    if legs[0].account_id == suspense {
        return Err(invalid("choose a target other than Uncategorized"));
    }
    let mut x: Vec<PostingInput> = Vec::new();
    let mut i: usize = 0;
    while i < kept.len()
        invariant
            i <= kept.len(),
            at_places(v@, kept@, stay),
            x@.len() == i,
            forall|k: int| 0 <= k < i ==> as_booked(#[trigger] stay[k], x@[k]),
        decreases kept.len() - i,
    {
        let at: usize = kept[i];
        assert(v@[at as int] == stay[i as int]);
        x.push(book_again(&v[at]));
        i = i + 1;
    }
    x.push(PostingInput::balancing(legs[0].account_id).memo(old.memo.as_str()));
    Ok(x)
}

fn account_ids(v: &[Posting], places: &Vec<usize>, Ghost(w): Ghost<Seq<Posting>>) -> (r: Vec<i64>)
    requires
        at_places(v@, places@, w),
    ensures
        r@ == kept_accounts(w),
{
    let mut r: Vec<i64> = Vec::new();
    let mut i: usize = 0;
    while i < places.len()
        invariant
            i <= places.len(),
            at_places(v@, places@, w),
            r@ == kept_accounts(w.take(i as int)),
        decreases places.len() - i,
    {
        let at: usize = places[i];
        assert(v@[at as int] == w[i as int]);
        r.push(v[at].account_id);
        i = i + 1;
        assert(r@ =~= kept_accounts(w.take(i as int)));
    }
    assert(w.take(i as int) == w);
    r
}

fn posting_ids(v: &[Posting], places: &Vec<usize>, Ghost(w): Ghost<Seq<Posting>>) -> (r: Vec<i64>)
    requires
        at_places(v@, places@, w),
    ensures
        r@ == ids_of(w),
{
    let mut r: Vec<i64> = Vec::new();
    let mut i: usize = 0;
    while i < places.len()
        invariant
            i <= places.len(),
            at_places(v@, places@, w),
            r@ == ids_of(w.take(i as int)),
        decreases places.len() - i,
    {
        let at: usize = places[i];
        assert(v@[at as int] == w[i as int]);
        r.push(v[at].id);
        i = i + 1;
        assert(r@ =~= ids_of(w.take(i as int)));
    }
    assert(w.take(i as int) == w);
    r
}

/// Categorizes an entry without replacing its bank posting or evidence. `refunded` says whether a
/// refund is linked to it, `evidenced` lists the postings that statement lines vouch for.
pub fn categorize(
    b: &Books,
    entity: &Entity,
    e: &JournalEntry,
    legs: &[Leg],
    existing: bool,
    refunded: bool,
    evidenced: &[i64],
) -> (r: Result<Categorized>)
    ensures
        categorize_outcome(*b, *entity, *e, legs@, existing, refunded, evidenced@, r),
{
    let (suspense, gone, kept) = match check_categorize(&b.accounts, entity, e, existing, refunded, evidenced) {
        Ok(v) => v,
        Err(x) => {
            return Err(x);
        },
    };
    let ghost stay = unchanged(e.postings@, existing, suspense);
    let ghost away = replaced(e.postings@, existing, suspense);
    let old_at: usize = gone[0];
    let bank_at: usize = kept[0];
    assert(e.postings@[old_at as int] == away[0]);
    assert(e.postings@[bank_at as int] == stay[0]);
    let old = &e.postings[old_at];
    let inputs = if kept.len() != 1 {
        single_inputs(&e.postings, &kept, old, legs, suspense, Ghost(stay))
    } else {
        split_inputs(b, entity, e.date, &e.postings[bank_at], old, suspense, existing, legs)
    };
    let x = match inputs {
        Ok(x) => x,
        Err(w) => {
            return Err(w);
        },
    };
    let keep_closed = account_ids(&e.postings, &kept, Ghost(stay));
    let done = prepare(b, entity, e.date, &x, false, &keep_closed);
    assert(category_inputs(*b, *entity, *e, legs@, existing, suspense, x@));
    assert(prepare_outcome(*b, *entity, e.date, x@, false, kept_accounts(stay), done));
    match done {
        Ok(prepared) => Ok(
            Categorized { removed: posting_ids(&e.postings, &gone, Ghost(away)), kept: kept.len(), prepared },
        ),
        Err(w) => Err(w),
    }
}

/// The last leg of a split takes what is left: with it the legs come to the whole amount and the whole native
/// quantity.
pub proof fn law_last_leg_takes_rest(b: Books, entity: Entity, date: Date, base: CatBase, account: i64, quantity: Num, used: CatState)
    requires
        tame(base.total_amount, 10000000000000000000real),
        tame(base.total_native, 10000000000000000000real),
        tame(used.amount, 10000000000000000000real),
        tame(used.native, 10000000000000000000real),
    ensures
        leg_line(b, entity, date, base, account, quantity, true, used) matches Ok(s) ==> {
            &&& s.lines.len() == used.lines.len() + 1
            &&& s.lines.last().account == account
            &&& value(s.lines.last().amount) == value(base.total_amount) - value(used.amount)
            &&& value(s.amount) == value(base.total_amount)
            &&& value(s.native) == value(base.total_native)
        },
{
    law_sums_exact(base.total_amount, used.amount);
    law_sums_exact(base.total_native, used.native);
    if let Ok(s) = leg_line(b, entity, date, base, account, quantity, true, used) {
        let native = subtracted(base.total_native, used.native)->0;
        let amount = subtracted(base.total_amount, used.amount)->0;
        law_sums_exact(used.amount, amount);
        law_sums_exact(used.native, native);
    }
}

/// A leg before the last has the sign of the whole, and its amount stands to its native quantity as the whole
/// amount stands to the whole native quantity.
pub proof fn law_leg_at_booked_rate(b: Books, entity: Entity, date: Date, base: CatBase, account: i64, quantity: Num, used: CatState)
    requires
        base.amount_places <= 8,
        base.total_native.0 != 0,
        distance(value(base.total_native), 0real) * 100000000real >= 1real,
    ensures
        leg_line(b, entity, date, base, account, quantity, false, used) matches Ok(s) ==> {
            let native = rounded(if base.total_native.0 < 0 { (-quantity.0, quantity.1) } else { quantity }, base.bank_places);
            let line = s.lines.last();
            &&& line.account == account
            &&& within(value(base.total_amount) * value(native) / value(base.total_native), line.amount, base.amount_places)
            &&& (line.amount.0 < 0) == ((base.total_amount.0 < 0) != (quantity.0 < 0))
        },
{
    if let Ok(s) = leg_line(b, entity, date, base, account, quantity, false, used) {
        let native = rounded(if base.total_native.0 < 0 { negated_num(quantity) } else { quantity }, base.bank_places);
        let product = multiplied(base.total_amount, native)->0;
        law_arithmetic_near(base.total_amount, native);
        law_arithmetic_near(product, base.total_native);
        let q = divided(product, base.total_native)->0;
        let (x, p, t) = (value(base.total_amount) * value(native), value(product), value(base.total_native));
        lemma_near_through(x, p, t, q, base.amount_places);
    }
}

/// A quotient of a product stays within a unit of the exact one.
proof fn lemma_near_through(x: real, p: real, t: real, q: Num, places: nat)
    requires
        places <= 8,
        distance(t, 0real) * 100000000real >= 1real,
        distance(p, x) * 10000000000000000000000000000real <= 1real + 10real * distance(x, 0real),
        near(p / t, q),
    ensures
        within(x / t, rounded(q, places), places),
{
    let unit = 10000000000000000000000000000real;
    let (y, z) = (x / t, p / t);
    let size = distance(t, 0real);
    assert(y * t == x && z * t == p) by (nonlinear_arith)
        requires
            y == x / t,
            z == p / t,
            t != 0real,
    ;
    assert(distance(z, y) * size == distance(p, x)) by (nonlinear_arith)
        requires
            y * t == x,
            z * t == p,
            size == t || size == -t,
            size >= 0real,
            distance(z, y) == z - y || distance(z, y) == y - z,
            distance(z, y) >= 0real,
            distance(p, x) == p - x || distance(p, x) == x - p,
            distance(p, x) >= 0real,
    ;
    assert(distance(y, 0real) * size == distance(x, 0real)) by (nonlinear_arith)
        requires
            y * t == x,
            size == distance(t, 0real),
    ;
    assert(distance(z, y) * unit <= 100000000real + 10real * distance(y, 0real)) by (nonlinear_arith)
        requires
            distance(z, y) * size == distance(p, x),
            distance(y, 0real) * size == distance(x, 0real),
            distance(p, x) * unit <= 1real + 10real * distance(x, 0real),
            size * 100000000real >= 1real,
            distance(y, 0real) >= 0real,
            unit == 10000000000000000000000000000real,
    ;
    law_rounded_nearest(q, places);
    lemma_pow10_positive(places);
    assert(pow10(places) <= 100000000) by {
        reveal_with_fuel(pow10, 10);
    }
    let w = value(rounded(q, places));
    let u = pow10(places) as real;
    let (a, b, c) = (distance(w, value(q)), distance(value(q), z), distance(z, y));
    let far = distance(w, y);
    assert(far <= a + b + c);
    assert(distance(z, 0real) <= distance(y, 0real) + c);
    assert(far * u <= 1real + distance(y, 0real) / 1000000000000000real) by (nonlinear_arith)
        requires
            0real <= far <= a + b + c,
            2real * a * u <= 1real,
            b * unit <= 1real + 10real * (distance(y, 0real) + c),
            c * unit <= 100000000real + 10real * distance(y, 0real),
            0real <= c,
            0real <= b,
            0real <= distance(y, 0real),
            1real <= u <= 100000000real,
            unit == 10000000000000000000000000000real,
    ;
}

} // verus!
