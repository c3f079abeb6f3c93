//! Full refunds preserve the purchase and its evidence, reversing its booked expense splits in a
//! new entry. FX changes belong to FX gain/loss.

use vstd::prelude::*;

use crate::accounts::{find_by_role, get_account, place_of, role_place};
use crate::date::{numbered, Date};
use crate::decimal::normal;
use crate::entities::{entity_place, get_entity};
use crate::error::{conflict, invalid, Refusal, Result};
use crate::model::{meta_at, meta_get, Account, AccountType, Entity, EntryInput, EntryStatus, JournalEntry, MetaEntry, MetaValue, Posting, PostingInput, Price, StatementLine};
use crate::money::{amount_of, same_unit, unit_refusal, with_minor, Amount, Money};
use crate::rates::{rate_for, rate_of};
use crate::text::{int_text, own, same, trimmed, uppered};

verus! {

pub const DEFAULT_WINDOW_DAYS: i64 = 90;

/// Whether a posting is on a bank or card account.
pub open spec fn on_bank(p: Posting) -> bool {
    p.account_type == AccountType::Asset || p.account_type == AccountType::Liability
}

/// The places of the bank postings among the first `n`.
pub open spec fn bank_places(v: Seq<Posting>, n: nat) -> Seq<int>
    decreases n,
{
    if n == 0 {
        Seq::empty()
    } else if on_bank(v[n - 1]) {
        bank_places(v, (n - 1) as nat).push(n - 1)
    } else {
        bank_places(v, (n - 1) as nat)
    }
}

/// Why one of the first `n` postings keeps an expense from being refunded.
pub open spec fn splits_refusal(v: Seq<Posting>, bank_id: i64, n: nat) -> Option<Refusal>
    decreases n,
{
    if n == 0 {
        None
    } else {
        match splits_refusal(v, bank_id, (n - 1) as nat) {
            Some(e) => Some(e),
            None => if v[n - 1].rate_source@ == "missing"@ {
                Some(Refusal::Invalid("value the original expense before refunding it"@))
            } else if v[n - 1].id != bank_id && v[n - 1].account_type != AccountType::Expense {
                Some(Refusal::Invalid("the original must contain only one bank debit and expense splits"@))
            } else {
                None
            },
        }
    }
}

/// Why an entry is not an expense that a refund of `amount` on the account `bank` pays back in
/// full. `refunded` tells that it already was.
pub open spec fn original_refusal(original: JournalEntry, bank: Account, amount: Amount, date: Date, refunded: bool) -> Option<Refusal> {
    let v = original.postings@;
    let banks = bank_places(v, v.len());
    if original.entity_id != bank.entity_id || original.status != EntryStatus::Posted || date.before(original.date)
        || original.refund_of_id is Some {
        Some(Refusal::Invalid("choose a posted expense in this entity dated no later than the refund"@))
    } else if banks.len() == 1 && amount.minor == i64::MIN {
        Some(Refusal::Invalid("money negation overflow"@))
    } else if banks.len() != 1 || v[banks[0]].quantity@ != with_minor(amount, -amount.minor) {
        Some(Refusal::Invalid("a full refund must equal the original debit in the same currency"@))
    } else {
        match splits_refusal(v, v[banks[0]].id, v.len()) {
            Some(e) => Some(e),
            None => if forall|i: int| 0 <= i < v.len() ==> (#[trigger] v[i]).id == v[banks[0]].id {
                Some(Refusal::Invalid("the original has no expense splits"@))
            } else if refunded {
                Some(Refusal::Conflict("the original expense already has a full refund"@))
            } else {
                None
            },
        }
    }
}

proof fn lemma_bank_places(v: Seq<Posting>, n: nat)
    requires
        n <= v.len(),
    ensures
        bank_places(v, n).len() <= n,
        forall|i: int| 0 <= i < bank_places(v, n).len() ==> 0 <= #[trigger] bank_places(v, n)[i] < n,
    decreases n,
{
    if n > 0 {
        lemma_bank_places(v, (n - 1) as nat);
    }
}

proof fn lemma_splits_failed(v: Seq<Posting>, bank_id: i64, n: nat, m: nat)
    requires
        n <= m,
        splits_refusal(v, bank_id, n) is Some,
    ensures
        splits_refusal(v, bank_id, m) == splits_refusal(v, bank_id, n),
    decreases m - n,
{
    if n < m {
        lemma_splits_failed(v, bank_id, n, (m - 1) as nat);
    }
}

/// The place of the one bank posting, and how many there are.
fn find_banks(v: &Vec<Posting>) -> (r: (usize, usize))
    ensures
        r.1 == bank_places(v@, v@.len()).len(),
        r.1 > 0 ==> r.0 == bank_places(v@, v@.len())[0],
{
    let mut first: usize = 0;
    let mut count: usize = 0;
    let mut i: usize = 0;
    while i < v.len()
        invariant
            i <= v.len(),
            count == bank_places(v@, i as nat).len(),
            count <= i,
            count > 0 ==> first == bank_places(v@, i as nat)[0],
        decreases v.len() - i,
    {
        if matches!(v[i].account_type, AccountType::Asset | AccountType::Liability) {
            if count == 0 {
                first = i;
            }
            count = count + 1;
        }
        i = i + 1;
    }
    (first, count)
}

/// Whether two amounts are the same.
pub fn same_money(a: Money, b: Money) -> (r: bool)
    ensures
        r == (a@ == b@),
{
    a.has_unit_of(&b) && a.minor() == b.minor()
}

/// Checks the postings of an expense next to its bank debit, and tells whether there are any.
fn check_splits(v: &Vec<Posting>, bank_id: i64) -> (r: Result<bool>)
    ensures
        match r {
            Ok(b) => splits_refusal(v@, bank_id, v@.len()) is None && b == !(forall|i: int| 0 <= i < v@.len() ==> (#[trigger] v@[i]).id
                == bank_id),
            Err(e) => splits_refusal(v@, bank_id, v@.len()) == Some(e@),
        },
{
    let mut splits = false;
    let mut i: usize = 0;
    while i < v.len()
        invariant
            i <= v.len(),
            splits_refusal(v@, bank_id, i as nat) is None,
            splits == !(forall|k: int| 0 <= k < i ==> (#[trigger] v@[k]).id == bank_id),
        decreases v.len() - i,
    {
        let p = &v[i];
        if same(p.rate_source.as_str(), "missing") {
            proof {
                lemma_splits_failed(v@, bank_id, (i + 1) as nat, v@.len());
            }
            return Err(invalid("value the original expense before refunding it"));
        }
        if p.id != bank_id {
            if p.account_type != AccountType::Expense {
                proof {
                    lemma_splits_failed(v@, bank_id, (i + 1) as nat, v@.len());
                }
                return Err(invalid("the original must contain only one bank debit and expense splits"));
            }
            splits = true;
        }
        i = i + 1;
    }
    Ok(splits)
}

/// The place of the bank debit in an expense that a refund pays back in full.
pub fn original_bank(original: &JournalEntry, bank: &Account, amount: Money, date: Date, refunded: bool) -> (r: Result<usize>)
    ensures
        match r {
            Ok(i) => {
                &&& original_refusal(*original, *bank, amount@, date, refunded) is None
                &&& bank_places(original.postings@, original.postings@.len()) == seq![i as int]
                &&& i < original.postings@.len()
                &&& original.postings@[i as int].quantity@ == with_minor(amount@, -amount@.minor)
            },
            Err(e) => original_refusal(*original, *bank, amount@, date, refunded) == Some(e@),
        },
{
    if original.entity_id != bank.entity_id || original.status != EntryStatus::Posted || date.is_before(original.date)
        || original.refund_of_id.is_some() {
        return Err(invalid("choose a posted expense in this entity dated no later than the refund"));
    }
    let ghost v = original.postings@;
    let ghost places = bank_places(v, v.len());
    let (at, count) = find_banks(&original.postings);
    let refusal = "a full refund must equal the original debit in the same currency";
    if count != 1 {
        return Err(invalid(refusal));
    }
    proof {
        lemma_bank_places(v, v.len());
        assert(places =~= seq![at as int]);
        assert(0 <= places[0] < v.len());
    }
    let back = match amount.checked_neg() {
        Ok(m) => m,
        Err(e) => {
            return Err(e);
        },
    };
    if !same_money(original.postings[at].quantity, back) {
        return Err(invalid(refusal));
    }
    let splits = match check_splits(&original.postings, original.postings[at].id) {
        Ok(b) => b,
        Err(e) => {
            return Err(e);
        },
    };
    if !splits {
        return Err(invalid("the original has no expense splits"));
    }
    if refunded {
        return Err(conflict("the original expense already has a full refund"));
    }
    Ok(at)
}

/// Whether some entry that is not void is a refund of the entry `id`.
pub open spec fn is_refunded(entries: Seq<JournalEntry>, id: i64) -> bool {
    exists|k: int| 0 <= k < entries.len() && (#[trigger] entries[k]).refund_of_id == Some(id) && entries[k].status != EntryStatus::Void
}

pub fn refunded(entries: &[JournalEntry], id: i64) -> (r: bool)
    ensures
        r == is_refunded(entries@, id),
{
    let mut i: usize = 0;
    while i < entries.len()
        invariant
            i <= entries.len(),
            forall|k: int| 0 <= k < i ==> !((#[trigger] entries@[k]).refund_of_id == Some(id) && entries@[k].status != EntryStatus::Void),
        decreases entries.len() - i,
    {
        if let Some(x) = entries[i].refund_of_id {
            if x == id && entries[i].status != EntryStatus::Void {
                return true;
            }
        }
        i = i + 1;
    }
    false
}

/// Whether some posting takes `minor` units of a commodity away.
pub open spec fn takes_away(v: Seq<Posting>, minor: int, commodity: Seq<char>) -> bool {
    exists|k: int| 0 <= k < v.len() && (#[trigger] v[k]).quantity@.minor == -minor && v[k].quantity@.commodity == commodity
}

fn is_taken(v: &Vec<Posting>, minor: i64, commodity: &str) -> (r: bool)
    requires
        minor > 0,
    ensures
        r == takes_away(v@, minor as int, commodity@),
{
    let mut i: usize = 0;
    while i < v.len()
        invariant
            i <= v.len(),
            minor > 0,
            forall|k: int| 0 <= k < i ==> !((#[trigger] v@[k]).quantity@.minor == -minor && v@[k].quantity@.commodity == commodity@),
        decreases v.len() - i,
    {
        if v[i].quantity.minor() == -minor && same(v[i].quantity.commodity().as_str(), commodity) {
            return true;
        }
        i = i + 1;
    }
    false
}

/// Whether an entry can be what a refund pays back.
pub open spec fn is_candidate(entries: Seq<JournalEntry>, k: int, bank: Account, amount: Amount, from: int, date: Date) -> bool {
    let e = entries[k];
    &&& takes_away(e.postings@, amount.minor, bank.commodity@)
    &&& from <= e.date.number()
    &&& original_refusal(e, bank, amount, date, is_refunded(entries, e.id)) is None
}

/// The places of the candidates among the first `n` entries.
pub open spec fn candidate_places(entries: Seq<JournalEntry>, bank: Account, amount: Amount, from: int, date: Date, n: nat) -> Seq<usize>
    decreases n,
{
    if n == 0 {
        Seq::empty()
    } else {
        let rest = candidate_places(entries, bank, amount, from, date, (n - 1) as nat);
        if is_candidate(entries, n - 1, bank, amount, from, date) {
            rest.push((n - 1) as usize)
        } else {
            rest
        }
    }
}

/// Whether a statement line is one that nothing can be the purchase of.
pub open spec fn not_refunding(line: StatementLine) -> bool {
    ||| line.account_id is None
    ||| line.amount is None
    ||| line.date is None
    ||| line.amount->0@.minor <= 0
    ||| line.status@ == "skipped"@
    ||| line.status@ == "duplicate"@
    ||| line.status@ == "matched"@
}

/// Recent opposite-sign purchases, as places in `entries`. Reconciled original debits remain
/// eligible; refund evidence is attached to the new credit, never to the original debit.
pub fn candidates(line: &StatementLine, accounts: &[Account], entries: &[JournalEntry], window_days: i64) -> (r: Result<Vec<usize>>)
    ensures
        match r {
            Ok(v) => {
                &&& 0 <= window_days <= 36500
                &&& if not_refunding(*line) {
                    v@.len() == 0
                } else {
                    let d = line.date->0;
                    &&& place_of(accounts@, line.account_id->0) is Some
                    &&& numbered(d.number() - window_days)
                    &&& v@ == candidate_places(
                        entries@,
                        accounts@[place_of(accounts@, line.account_id->0)->0],
                        line.amount->0@,
                        d.number() - window_days,
                        d,
                        entries@.len(),
                    )
                }
            },
            Err(e) => {
                ||| !(0 <= window_days <= 36500) && e.invalid("refund lookback must be between 0 and 36500 days"@)
                ||| 0 <= window_days <= 36500 && !not_refunding(*line) && place_of(accounts@, line.account_id->0) is None && e.not_found(
                    "account "@ + int_text(line.account_id->0 as int),
                )
                ||| 0 <= window_days <= 36500 && !not_refunding(*line) && place_of(accounts@, line.account_id->0) is Some && !numbered(
                    line.date->0.number() - window_days,
                ) && e.invalid("refund lookback date is out of range"@)
            },
        },
{
    if window_days < 0 || window_days > 36500 {
        return Err(invalid("refund lookback must be between 0 and 36500 days"));
    }
    let (account_id, amount, date) = match (line.account_id, line.amount, line.date) {
        (Some(a), Some(m), Some(d)) => (a, m, d),
        _ => {
            return Ok(Vec::new());
        },
    };
    let status = line.status.as_str();
    if amount.minor() <= 0 || same(status, "skipped") || same(status, "duplicate") || same(status, "matched") {
        return Ok(Vec::new());
    }
    let bank = match get_account(accounts, account_id) {
        Ok(a) => a,
        Err(e) => {
            return Err(e);
        },
    };
    let from = match date.plus_days(-window_days) {
        Some(d) => d,
        None => {
            return Err(invalid("refund lookback date is out of range"));
        },
    };
    assert(numbered(date.number() - window_days));
    let mut found: Vec<usize> = Vec::new();
    let mut i: usize = 0;
    while i < entries.len()
        invariant
            i <= entries.len(),
            amount@.minor > 0,
            from.number() == date.number() - window_days,
            found@ == candidate_places(entries@, *bank, amount@, date.number() - window_days, date, i as nat),
        decreases entries.len() - i,
    {
        let e = &entries[i];
        if is_taken(&e.postings, amount.minor(), bank.commodity.as_str()) && from.day_number() <= e.date.day_number() {
            if original_bank(e, bank, amount, date, refunded(entries, e.id)).is_ok() {
                found.push(i);
            }
        }
        i = i + 1;
    }
    Ok(found)
}

/// The bank account that a refund line is on and what it says, or why it is no refund.
pub open spec fn line_refusal(line: StatementLine, accounts: Seq<Account>) -> Option<Refusal> {
    if line.account_id is None || line.amount is None || line.date is None {
        Some(Refusal::Invalid("refund line needs an account, date and amount"@))
    } else if line.amount->0@.minor <= 0 || !(line.status@ == "unmatched"@ || line.status@ == "error"@ || line.status@ == "created"@) {
        Some(Refusal::Invalid("choose an unfinished positive statement line for the refund"@))
    } else {
        match place_of(accounts, line.account_id->0) {
            None => Some(Refusal::NotFound("account "@ + int_text(line.account_id->0 as int))),
            Some(i) => {
                let bank = accounts[i];
                if bank.account_type != AccountType::Asset && bank.account_type != AccountType::Liability {
                    Some(Refusal::Invalid("refund evidence must belong to a bank or card account"@))
                } else {
                    match amount_of(0, bank.commodity@, bank.precision as int) {
                        Err(e) => Some(e),
                        Ok(zero) => if !same_unit(zero, line.amount->0@) {
                            Some(Refusal::Invalid(unit_refusal(zero, line.amount->0@)))
                        } else {
                            None
                        },
                    }
                }
            },
        }
    }
}

fn check_line<'a>(line: &StatementLine, accounts: &'a [Account]) -> (r: Result<(&'a Account, Money, Date)>)
    ensures
        match r {
            Ok(x) => {
                &&& line_refusal(*line, accounts@) is None
                &&& *x.0 == accounts@[place_of(accounts@, line.account_id->0)->0]
                &&& x.1 == line.amount->0
                &&& x.2 == line.date->0
                &&& x.1@.minor > 0
            },
            Err(e) => line_refusal(*line, accounts@) == Some(e@),
        },
{
    let (account_id, amount, date) = match (line.account_id, line.amount, line.date) {
        (Some(a), Some(m), Some(d)) => (a, m, d),
        _ => {
            return Err(invalid("refund line needs an account, date and amount"));
        },
    };
    let status = line.status.as_str();
    if amount.minor() <= 0 || !(same(status, "unmatched") || same(status, "error") || same(status, "created")) {
        return Err(invalid("choose an unfinished positive statement line for the refund"));
    }
    let bank = match get_account(accounts, account_id) {
        Ok(a) => a,
        Err(e) => {
            return Err(e);
        },
    };
    if !matches!(bank.account_type, AccountType::Asset | AccountType::Liability) {
        return Err(invalid("refund evidence must belong to a bank or card account"));
    }
    let zero = match Money::from_minor(0, bank.commodity.as_str(), bank.precision) {
        Ok(m) => m,
        Err(e) => {
            return Err(e);
        },
    };
    proof {
        use_type_invariant(&amount);
    }
    match zero.checked_add(amount) {
        Ok(_) => Ok((bank, amount, date)),
        Err(e) => Err(e),
    }
}

/// Whether an entry is the automatic suspense draft of a refund line.
pub open spec fn is_suspense_draft(current: JournalEntry, bank: Account, suspense: Account, amount: Amount, evidence: i64) -> bool {
    &&& current.status == EntryStatus::Draft
    &&& current.origin@ == "import"@
    &&& current.refund_of_id is None
    &&& current.postings@.len() == 2
    &&& evidence == 1
    &&& exists|k: int| 0 <= k < current.postings@.len() && (#[trigger] current.postings@[k]).account_id == bank.id
        && current.postings@[k].quantity@ == amount
    &&& exists|k: int| 0 <= k < current.postings@.len() && (#[trigger] current.postings@[k]).account_id == suspense.id
}

/// What is booked for a refund line so far: the entry, and how many lines it is evidence of.
pub struct Current<'a> {
    pub entry: &'a JournalEntry,
    pub evidence: i64,
}

pub open spec fn current_refusal(
    line: StatementLine,
    accounts: Seq<Account>,
    bank: Account,
    amount: Amount,
    current: Option<Current<'_>>,
) -> Option<Refusal> {
    match current {
        Some(c) => match role_place(accounts, bank.entity_id, "suspense"@, 0) {
            None => Some(Refusal::NotFound("system account "@ + "suspense"@ + " for entity "@ + int_text(bank.entity_id as int))),
            Some(s) => if is_suspense_draft(*c.entry, bank, accounts[s], amount, c.evidence) {
                None
            } else {
                Some(
                    Refusal::Invalid(
                        "this line already evidences an entry; only its automatic suspense draft can be replaced by a refund"@,
                    ),
                )
            },
        },
        None => if line.posting_id is Some {
            Some(Refusal::Invalid("refund line has inconsistent existing evidence"@))
        } else {
            None
        },
    }
}

fn check_current(line: &StatementLine, accounts: &[Account], bank: &Account, amount: Money, current: &Option<Current<'_>>) -> (r: Result<
    (),
>)
    ensures
        match r {
            Ok(_) => current_refusal(*line, accounts@, *bank, amount@, *current) is None,
            Err(e) => current_refusal(*line, accounts@, *bank, amount@, *current) == Some(e@),
        },
{
    match current {
        Some(c) => {
            let suspense = match find_by_role(accounts, bank.entity_id, "suspense") {
                Ok(a) => a,
                Err(e) => {
                    return Err(e);
                },
            };
            let e = c.entry;
            let mut on_line = false;
            let mut on_suspense = false;
            let mut i: usize = 0;
            while i < e.postings.len()
                invariant
                    i <= e.postings.len(),
                    on_line == exists|k: int|
                        0 <= k < i && (#[trigger] e.postings@[k]).account_id == bank.id && e.postings@[k].quantity@ == amount@,
                    on_suspense == exists|k: int| 0 <= k < i && (#[trigger] e.postings@[k]).account_id == suspense.id,
                decreases e.postings.len() - i,
            {
                let ghost was = (on_line, on_suspense);
                if e.postings[i].account_id == bank.id && same_money(e.postings[i].quantity, amount) {
                    on_line = true;
                }
                if e.postings[i].account_id == suspense.id {
                    on_suspense = true;
                }
                i = i + 1;
            }
            if e.status == EntryStatus::Draft && same(e.origin.as_str(), "import") && e.refund_of_id.is_none() && e.postings.len() == 2
                && c.evidence == 1 && on_line && on_suspense {
                Ok(())
            } else {
                Err(
                    invalid(
                        "this line already evidences an entry; only its automatic suspense draft can be replaced by a refund",
                    ),
                )
            }
        },
        None => if line.posting_id.is_some() {
            Err(invalid("refund line has inconsistent existing evidence"))
        } else {
            Ok(())
        },
    }
}

/// A text that is there, or nothing.
pub open spec fn filled_text(s: Seq<char>, t: Option<String>) -> bool {
    match t {
        Some(x) => s.len() > 0 && x@ == s,
        None => s.len() == 0,
    }
}

pub fn filled(s: &str) -> (r: Option<String>)
    ensures
        filled_text(s@, r),
{
    proof {
        reveal_strlit("");
        assert(s@.len() == 0 ==> s@ =~= ""@);
    }
    if same(s, "") {
        None
    } else {
        Some(own(s))
    }
}

/// The credit on the bank account, which carries the evidence of the line.
pub open spec fn is_credit(x: PostingInput, bank: Account, line: StatementLine, amount: Amount) -> bool {
    &&& x.account_id == bank.id
    &&& x.quantity@ == normal((amount.minor, amount.precision))
    &&& x.amount is None && x.memo@.len() == 0 && !x.balance && x.value_in is None
    &&& filled_text(line.reference@, x.external_id)
    &&& filled_text(line.fingerprint@, x.fingerprint)
    &&& match meta_at(line.raw@, "_original"@) {
        None => x.metadata@.len() == 0,
        Some(v) => x.metadata@.len() == 1 && x.metadata@[0].key@ == "original"@ && x.metadata@[0].value == v,
    }
}

/// Whether `x` takes back the expense split `p` of the entry `original_id`.
pub open spec fn takes_back(p: Posting, original_id: i64, x: PostingInput) -> bool {
    &&& x.account_id == p.account_id
    &&& x.quantity@ == normal((-p.quantity@.minor, p.quantity@.precision))
    &&& x.amount is Some && x.amount->0@ == normal((-p.amount@.minor, p.amount@.precision))
    &&& x.memo@ == p.memo@
    &&& x.metadata@.len() == 2
    &&& x.metadata@[0].key@ == "refund_of_entry"@ && x.metadata@[0].value == MetaValue::Number(original_id)
    &&& x.metadata@[1].key@ == "refund_of_posting"@ && x.metadata@[1].value == MetaValue::Number(p.id)
    &&& x.external_id is None && x.fingerprint is None && !x.balance && x.value_in is None
}

/// The expense splits among the first `n` postings: all but the bank debit.
pub open spec fn split_postings(v: Seq<Posting>, bank_id: i64, n: nat) -> Seq<Posting>
    decreases n,
{
    if n == 0 {
        Seq::empty()
    } else if v[n - 1].id != bank_id {
        split_postings(v, bank_id, (n - 1) as nat).push(v[n - 1])
    } else {
        split_postings(v, bank_id, (n - 1) as nat)
    }
}

/// Whether an expense split can be written with the other sign.
pub open spec fn negatable(p: Posting) -> bool {
    p.quantity@.minor != i64::MIN && p.amount@.minor != i64::MIN
}

/// Why a refund is refused.
pub open spec fn link_refusal(
    line: StatementLine,
    accounts: Seq<Account>,
    entities: Seq<Entity>,
    prices: Seq<Price>,
    original: JournalEntry,
    refunded: bool,
    current: Option<Current<'_>>,
) -> Option<Refusal> {
    match line_refusal(line, accounts) {
        Some(e) => Some(e),
        None => {
            let bank = accounts[place_of(accounts, line.account_id->0)->0];
            let (amount, date) = (line.amount->0@, line.date->0);
            match original_refusal(original, bank, amount, date, refunded) {
                Some(e) => Some(e),
                None => match entity_place(entities, bank.entity_id, 0) {
                    None => Some(Refusal::NotFound("entity "@ + int_text(bank.entity_id as int))),
                    Some(j) => if rate_of(
                        prices,
                        uppered(trimmed(bank.commodity@)),
                        uppered(trimmed(entities[j].currency@)),
                        date,
                    ) is None {
                        Some(Refusal::Invalid("add the refund-date exchange rate before linking this refund"@))
                    } else {
                        match current_refusal(line, accounts, bank, amount, current) {
                            Some(e) => Some(e),
                            None => {
                                let v = original.postings@;
                                let splits = split_postings(v, v[bank_places(v, v.len())[0]].id, v.len());
                                if exists|k: int| 0 <= k < splits.len() && !negatable(#[trigger] splits[k]) {
                                    Some(Refusal::Invalid("money negation overflow"@))
                                } else {
                                    None
                                }
                            },
                        }
                    },
                },
            }
        },
    }
}

/// Whether `x` is the entry that refunds `original` with the statement line.
pub open spec fn is_refund(x: EntryInput, line: StatementLine, bank: Account, original: JournalEntry) -> bool {
    let v = original.postings@;
    let splits = split_postings(v, v[bank_places(v, v.len())[0]].id, v.len());
    &&& x.entity_id == bank.entity_id && x.date == line.date->0
    &&& x.payee@ == original.payee@ && x.description@ == line.description@ && x.notes@.len() == 0
    &&& x.origin@ == "refund"@ && x.absorb_fx && x.status == EntryStatus::Posted
    &&& x.template_id is None && x.template_version is None && x.counterpart_id is None && x.reverses_id is None
    &&& x.postings@.len() == splits.len() + 1
    &&& is_credit(x.postings@[0], bank, line, line.amount->0@)
    &&& forall|k: int| 0 <= k < splits.len() ==> takes_back(splits[k], original.id, #[trigger] x.postings@[k + 1])
}

fn credit_posting(bank: &Account, line: &StatementLine, amount: Money) -> (r: PostingInput)
    ensures
        is_credit(r, *bank, *line, amount@),
{
    let plain = PostingInput::new(bank.id, amount.major());
    let credit = plain.external(filled(line.reference.as_str()), filled(line.fingerprint.as_str()));
    match meta_get(&line.raw, "_original") {
        Some(v) => {
            assert(crate::model::meta_without(credit.metadata@, "original"@) =~= Seq::<MetaEntry>::empty());
            let r = credit.meta("original", v.copy());
            assert(r.metadata@.len() == 1) by {
                assert(r.metadata@.drop_last().len() == 0);
            }
            r
        },
        None => credit,
    }
}

fn split_back(p: &Posting, original_id: i64) -> (r: Result<PostingInput>)
    ensures
        match r {
            Ok(x) => negatable(*p) && takes_back(*p, original_id, x),
            Err(e) => !negatable(*p) && e@ == Refusal::Invalid("money negation overflow"@),
        },
{
    let quantity = match p.quantity.checked_neg() {
        Ok(m) => m,
        Err(e) => {
            return Err(e);
        },
    };
    let amount = match p.amount.checked_neg() {
        Ok(m) => m,
        Err(e) => {
            return Err(e);
        },
    };
    let mut x = PostingInput::new(p.account_id, quantity.major());
    x.amount = Some(amount.major());
    x.memo = own(p.memo.as_str());
    let mut metadata: Vec<MetaEntry> = Vec::new();
    metadata.push(MetaEntry { key: own("refund_of_entry"), value: MetaValue::Number(original_id) });
    metadata.push(MetaEntry { key: own("refund_of_posting"), value: MetaValue::Number(p.id) });
    x.metadata = metadata;
    Ok(x)
}

proof fn lemma_split_prefix(v: Seq<Posting>, bank_id: i64, n: nat, m: nat)
    requires
        n <= m <= v.len(),
    ensures
        split_postings(v, bank_id, n).len() <= split_postings(v, bank_id, m).len(),
        forall|k: int|
            0 <= k < split_postings(v, bank_id, n).len() ==> #[trigger] split_postings(v, bank_id, n)[k] == split_postings(
                v,
                bank_id,
                m,
            )[k],
    decreases m - n,
{
    if n < m {
        lemma_split_prefix(v, bank_id, n, (m - 1) as nat);
    }
}

fn push_splits(original: &JournalEntry, bank_id: i64, into: &mut Vec<PostingInput>) -> (r: Result<()>)
    requires
        old(into)@.len() == 1,
    ensures
        ({
            let splits = split_postings(original.postings@, bank_id, original.postings@.len());
            match r {
                Ok(_) => {
                    &&& forall|k: int| 0 <= k < splits.len() ==> negatable(#[trigger] splits[k])
                    &&& final(into)@.len() == splits.len() + 1
                    &&& final(into)@[0] == old(into)@[0]
                    &&& forall|k: int| 0 <= k < splits.len() ==> takes_back(splits[k], original.id, #[trigger] final(into)@[k + 1])
                },
                Err(e) => e@ == Refusal::Invalid("money negation overflow"@) && exists|k: int|
                    0 <= k < splits.len() && !negatable(#[trigger] splits[k]),
            }
        }),
{
    let ghost first = into@[0];
    let ghost v = original.postings@;
    let mut i: usize = 0;
    while i < original.postings.len()
        invariant
            i <= original.postings.len(),
            v == original.postings@,
            into@.len() == split_postings(v, bank_id, i as nat).len() + 1,
            into@[0] == first,
            forall|k: int| 0 <= k < split_postings(v, bank_id, i as nat).len() ==> negatable(#[trigger] split_postings(v, bank_id, i as nat)[k]),
            forall|k: int|
                0 <= k < split_postings(v, bank_id, i as nat).len() ==> takes_back(
                    split_postings(v, bank_id, i as nat)[k],
                    original.id,
                    #[trigger] into@[k + 1],
                ),
        decreases original.postings.len() - i,
    {
        if original.postings[i].id != bank_id {
            match split_back(&original.postings[i], original.id) {
                Ok(x) => {
                    into.push(x);
                },
                Err(e) => {
                    proof {
                        lemma_split_prefix(v, bank_id, (i + 1) as nat, v.len());
                        let n = split_postings(v, bank_id, i as nat).len() as int;
                        assert(split_postings(v, bank_id, (i + 1) as nat)[n] == v[i as int]);
                        assert(!negatable(split_postings(v, bank_id, v.len())[n]));
                    }
                    return Err(e);
                },
            }
        }
        i = i + 1;
    }
    Ok(())
}

/// The entry that refunds a purchase with a statement line. Only this line's automatic suspense
/// draft may be replaced by it, or the line be unmatched. `refunded` tells that the purchase
/// already has a refund.
pub fn link(
    line: &StatementLine,
    accounts: &[Account],
    entities: &[Entity],
    prices: &[Price],
    original: &JournalEntry,
    refunded: bool,
    current: &Option<Current<'_>>,
) -> (r: Result<EntryInput>)
    ensures
        match r {
            Ok(x) => {
                &&& link_refusal(*line, accounts@, entities@, prices@, *original, refunded, *current) is None
                &&& is_refund(x, *line, accounts@[place_of(accounts@, line.account_id->0)->0], *original)
            },
            Err(e) => link_refusal(*line, accounts@, entities@, prices@, *original, refunded, *current) == Some(e@),
        },
{
    let (bank, amount, date) = match check_line(line, accounts) {
        Ok(x) => x,
        Err(e) => {
            return Err(e);
        },
    };
    let at = match original_bank(original, bank, amount, date, refunded) {
        Ok(i) => i,
        Err(e) => {
            return Err(e);
        },
    };
    let entity = match get_entity(entities, bank.entity_id) {
        Ok(e) => e,
        Err(e) => {
            return Err(e);
        },
    };
    if rate_for(prices, bank.commodity.as_str(), entity.currency.as_str(), date).is_none() {
        return Err(invalid("add the refund-date exchange rate before linking this refund"));
    }
    if let Err(e) = check_current(line, accounts, bank, amount, current) {
        return Err(e);
    }
    let mut postings: Vec<PostingInput> = Vec::new();
    postings.push(credit_posting(bank, line, amount));
    if let Err(e) = push_splits(original, original.postings[at].id, &mut postings) {
        return Err(e);
    }
    let mut input = EntryInput::new(bank.entity_id, date);
    input.payee = own(original.payee.as_str());
    input.description = own(line.description.as_str());
    input.origin = own("refund");
    input.absorb_fx = true;
    input.postings = postings;
    Ok(input)
}

/// A refund brings the bank account back to where it was before the purchase: its credit is the
/// purchase's debit with the other sign.
pub proof fn law_refund_restores_bank(line: StatementLine, accounts: Seq<Account>, original: JournalEntry, refunded: bool)
    requires
        line_refusal(line, accounts) is None,
        original_refusal(
            original,
            accounts[place_of(accounts, line.account_id->0)->0],
            line.amount->0@,
            line.date->0,
            refunded,
        ) is None,
    ensures
        ({
            let v = original.postings@;
            let debit = v[bank_places(v, v.len())[0]].quantity@;
            same_unit(debit, line.amount->0@) && debit.minor + line.amount->0@.minor == 0
        }),
{
}

/// A purchase that has a refund is refused a second one.
pub proof fn law_refunded_once(entries: Seq<JournalEntry>, k: int, original: JournalEntry, bank: Account, amount: Amount, date: Date)
    requires
        0 <= k < entries.len(),
        entries[k].refund_of_id == Some(original.id),
        entries[k].status != EntryStatus::Void,
    ensures
        original_refusal(original, bank, amount, date, is_refunded(entries, original.id)) is Some,
{
    assert(is_refunded(entries, original.id));
}

} // verus!
