//! Entries as they are captured by hand: expenses, income and transfers, and the kind of entry
//! that a set of postings makes.

use vstd::prelude::*;

use crate::accounts::{find_by_role, find_place, get_account, lemma_place, place_of, role_place};
use crate::date::Date;
use crate::decimal::{distance, lemma_pow10_positive, lemma_same_value, normal, pow10, same_value, value, within, Decimal, Num};
use crate::entities::{entity_place, get_entity};
use crate::error::{invalid, Refusal, Result};
use crate::model::{Account, AccountType, Entity, EntryInput, EntryStatus, Posting, PostingInput};
use crate::money::{amount_of_major, in_major, law_amount_of_major, lemma_normal, Amount, Money};
use crate::splits::{resolve, resolved_legs, Leg, ResolvedLeg};
use crate::text::{cat, debug_text, int_text, own, quoted, same};

verus! {

/// The system role of an account, nothing for one that is not there.
pub open spec fn role_of(accounts: Seq<Account>, id: i64) -> Seq<char> {
    match place_of(accounts, id) {
        Some(i) => accounts[i].system_role@,
        None => Seq::empty(),
    }
}

pub open spec fn subtype_of(accounts: Seq<Account>, id: i64) -> Seq<char> {
    match place_of(accounts, id) {
        Some(i) => accounts[i].subtype@,
        None => Seq::empty(),
    }
}

pub open spec fn is_opening(accounts: Seq<Account>, p: Posting) -> bool {
    role_of(accounts, p.account_id) == "opening_balance"@
}

pub open spec fn is_fx(accounts: Seq<Account>, p: Posting) -> bool {
    role_of(accounts, p.account_id) == "fx_gain_loss"@ || role_of(accounts, p.account_id) == "fx_gain_loss_legacy"@
}

pub open spec fn is_spending(accounts: Seq<Account>, p: Posting) -> bool {
    p.account_type == AccountType::Expense && !is_fx(accounts, p)
}

pub open spec fn is_holding(accounts: Seq<Account>, p: Posting) -> bool {
    subtype_of(accounts, p.account_id) == "holding"@
}

pub open spec fn some_of_type(v: Seq<Posting>, t: AccountType) -> bool {
    exists|i: int| 0 <= i < v.len() && (#[trigger] v[i]).account_type == t
}

pub open spec fn some_opening(accounts: Seq<Account>, v: Seq<Posting>) -> bool {
    exists|i: int| 0 <= i < v.len() && is_opening(accounts, #[trigger] v[i])
}

pub open spec fn some_spending(accounts: Seq<Account>, v: Seq<Posting>) -> bool {
    exists|i: int| 0 <= i < v.len() && is_spending(accounts, #[trigger] v[i])
}

pub open spec fn some_holding(accounts: Seq<Account>, v: Seq<Posting>) -> bool {
    exists|i: int| 0 <= i < v.len() && is_holding(accounts, #[trigger] v[i])
}

/// Whether everything spent comes back.
pub open spec fn all_refunded(accounts: Seq<Account>, v: Seq<Posting>) -> bool {
    forall|i: int| 0 <= i < v.len() && is_spending(accounts, #[trigger] v[i]) ==> v[i].quantity@.minor < 0
}

/// Whether postings have quantities in more than one commodity.
pub open spec fn mixed(v: Seq<Posting>) -> bool {
    exists|i: int| 0 <= i < v.len() && (#[trigger] v[i]).quantity@.commodity != v[0].quantity@.commodity
}

/// The kind of entry that postings make.
pub open spec fn kind_of(accounts: Seq<Account>, v: Seq<Posting>) -> Seq<char> {
    if some_opening(accounts, v) {
        "opening"@
    } else if some_holding(accounts, v) {
        "trade"@
    } else if some_of_type(v, AccountType::Income) && !some_spending(accounts, v) {
        "income"@
    } else if some_spending(accounts, v) {
        if all_refunded(accounts, v) {
            "refund"@
        } else {
            "expense"@
        }
    } else if some_of_type(v, AccountType::Equity) {
        "equity"@
    } else if mixed(v) {
        "exchange"@
    } else if some_of_type(v, AccountType::Liability) && some_of_type(v, AccountType::Asset) {
        "payment"@
    } else {
        "transfer"@
    }
}

fn has_role(accounts: &[Account], id: i64, role: &str) -> (r: bool)
    requires
        role@.len() > 0,
    ensures
        r == (role_of(accounts@, id) == role@),
{
    match find_place(accounts, id) {
        Some(i) => same(accounts[i].system_role.as_str(), role),
        None => false,
    }
}

pub fn derive_kind(accounts: &[Account], v: &[Posting]) -> (r: &'static str)
    ensures
        r@ == kind_of(accounts@, v@),
{
    let mut opening = false;
    let mut holding = false;
    let mut spending = false;
    let mut refunded = true;
    let mut several = false;
    let mut income = false;
    let mut equity = false;
    let mut liability = false;
    let mut asset = false;
    proof {
        reveal_strlit("opening_balance");
        reveal_strlit("fx_gain_loss");
        reveal_strlit("fx_gain_loss_legacy");
        reveal_strlit("holding");
    }
    let mut i: usize = 0;
    while i < v.len()
        invariant
            i <= v.len(),
            "opening_balance"@.len() > 0,
            "fx_gain_loss"@.len() > 0,
            "fx_gain_loss_legacy"@.len() > 0,
            "holding"@.len() > 0,
            opening == exists|k: int| 0 <= k < i && is_opening(accounts@, #[trigger] v@[k]),
            holding == exists|k: int| 0 <= k < i && is_holding(accounts@, #[trigger] v@[k]),
            spending == exists|k: int| 0 <= k < i && is_spending(accounts@, #[trigger] v@[k]),
            refunded == forall|k: int| 0 <= k < i && is_spending(accounts@, #[trigger] v@[k]) ==> v@[k].quantity@.minor < 0,
            several == exists|k: int| 0 <= k < i && (#[trigger] v@[k]).quantity@.commodity != v@[0].quantity@.commodity,
            income == exists|k: int| 0 <= k < i && (#[trigger] v@[k]).account_type == AccountType::Income,
            equity == exists|k: int| 0 <= k < i && (#[trigger] v@[k]).account_type == AccountType::Equity,
            liability == exists|k: int| 0 <= k < i && (#[trigger] v@[k]).account_type == AccountType::Liability,
            asset == exists|k: int| 0 <= k < i && (#[trigger] v@[k]).account_type == AccountType::Asset,
        decreases v.len() - i,
    {
        let p = &v[i];
        assert(*p == v@[i as int]);
        if has_role(accounts, p.account_id, "opening_balance") {
            opening = true;
        }
        let sub = match find_place(accounts, p.account_id) {
            Some(a) => same(accounts[a].subtype.as_str(), "holding"),
            None => false,
        };
        assert(sub == is_holding(accounts@, *p));
        if sub {
            holding = true;
        }
        match p.account_type {
            AccountType::Income => {
                income = true;
            },
            AccountType::Equity => {
                equity = true;
            },
            AccountType::Liability => {
                liability = true;
            },
            AccountType::Asset => {
                asset = true;
            },
            AccountType::Expense => {
                if !has_role(accounts, p.account_id, "fx_gain_loss") && !has_role(accounts, p.account_id, "fx_gain_loss_legacy") {
                    spending = true;
                    if !p.quantity.is_negative() {
                        refunded = false;
                    }
                }
            },
        }
        if !same(p.quantity.commodity().as_str(), v[0].quantity.commodity().as_str()) {
            several = true;
        }
        i = i + 1;
    }
    if opening {
        "opening"
    } else if holding {
        "trade"
    } else if income && !spending {
        "income"
    } else if spending {
        if refunded {
            "refund"
        } else {
            "expense"
        }
    } else if equity {
        "equity"
    } else if several {
        "exchange"
    } else if liability && asset {
        "payment"
    } else {
        "transfer"
    }
}

/// What is debited in an entry, in minor units of the functional currency.
pub open spec fn debit_total(v: Seq<Posting>) -> int
    decreases v.len(),
{
    if v.len() == 0 {
        0
    } else {
        debit_total(v.drop_last()) + (if v.last().amount@.minor > 0 { v.last().amount@.minor } else { 0 })
    }
}

/// The amount that an entry moves: what it debits.
pub fn amount_functional(v: &[Posting]) -> (r: i128)
    ensures
        r == debit_total(v@),
{
    let mut total: i128 = 0;
    let mut i: usize = 0;
    while i < v.len()
        invariant
            i <= v.len(),
            total == debit_total(v@.take(i as int)),
            0 <= total <= i * 9223372036854775807,
        decreases v.len() - i,
    {
        assert(v@.take(i + 1).drop_last() == v@.take(i as int));
        let m: i64 = v[i].amount.minor();
        assert((i + 1) * 9223372036854775807 == i * 9223372036854775807 + 9223372036854775807) by (nonlinear_arith);
        assert((i + 1) * 9223372036854775807 <= 18446744073709551615 * 9223372036854775807) by (nonlinear_arith)
            requires
                i + 1 <= 18446744073709551615,
        ;
        if m > 0 {
            total = total + m as i128;
        }
        i = i + 1;
    }
    assert(v@.take(i as int) == v@);
    total
}

#[derive(Debug, Clone)]
pub struct SimpleEntry {
    pub entity_id: i64,
    pub date: Date,
    /// expense, income or transfer.
    pub kind: String,
    pub account_id: i64,
    pub contra_account_id: Option<i64>,
    pub quantity: Decimal,
    pub contra_quantity: Option<Decimal>,
    pub payee: String,
    pub notes: String,
    pub splits: Vec<ResolvedLeg>,
    pub status: EntryStatus,
    pub fee: Option<Decimal>,
    pub fee_account_id: Option<i64>,
    pub origin: String,
}

/// The splits of an entry as legs, each with its amount.
pub open spec fn legs_of(splits: Seq<ResolvedLeg>) -> Seq<Leg> {
    splits.map_values(|r: ResolvedLeg| Leg { account_id: r.account_id, quantity: Some(r.quantity), memo: r.memo })
}

fn to_legs(splits: &[ResolvedLeg]) -> (legs: Vec<Leg>)
    ensures
        legs@ == legs_of(splits@),
{
    let mut legs: Vec<Leg> = Vec::new();
    let mut i: usize = 0;
    while i < splits.len()
        invariant
            i <= splits.len(),
            legs@ == legs_of(splits@.take(i as int)),
        decreases splits.len() - i,
    {
        legs.push(
            Leg {
                account_id: splits[i].account_id,
                quantity: Some(splits[i].quantity),
                memo: splits[i].memo.clone(),
            },
        );
        i = i + 1;
        assert(legs@ =~= legs_of(splits@.take(i as int)));
    }
    assert(splits@.take(i as int) == splits@);
    legs
}

/// A posting that balances the entry, with a memo.
pub open spec fn balances(x: PostingInput, account_id: i64, memo: Seq<char>) -> bool {
    x.balance && x.account_id == account_id && x.quantity@ == (0int, 0nat) && x.amount is None && x.memo@ == memo && x.metadata@.len()
        == 0 && x.external_id is None && x.fingerprint is None && x.value_in is None
}

/// A posting of a quantity, with a memo.
pub open spec fn moves(x: PostingInput, account_id: i64, quantity: Num, memo: Seq<char>) -> bool {
    !x.balance && x.account_id == account_id && x.quantity@ == quantity && x.amount is None && x.memo@ == memo && x.metadata@.len()
        == 0 && x.external_id is None && x.fingerprint is None && x.value_in is None
}

/// A posting valued in a commodity, with a memo.
pub open spec fn is_valued(x: PostingInput, account_id: i64, quantity: Num, commodity: Seq<char>, memo: Seq<char>) -> bool {
    !x.balance && x.account_id == account_id && x.quantity@ == (0int, 0nat) && x.amount is None && x.memo@ == memo && x.metadata@.len()
        == 0 && x.external_id is None && x.fingerprint is None && x.value_in is Some && (x.value_in->0).0@ == quantity && (
    x.value_in->0).1@ == commodity
}

/// The value of a split on its category: what is spent is debited, what is earned credited.
pub open spec fn split_value(a: Account, spent: bool, q: Num) -> std::result::Result<Amount, Refusal> {
    match amount_of_major(q, a.commodity@, a.precision as int) {
        Err(e) => Err(e),
        Ok(m) => if spent {
            Ok(m)
        } else if m.minor == i64::MIN {
            Err(Refusal::Invalid("money negation overflow"@))
        } else {
            Ok(crate::money::with_minor(m, -m.minor))
        },
    }
}

/// The first split before the last that has no value.
pub open spec fn split_refusal(a: Account, spent: bool, splits: Seq<ResolvedLeg>, from: int) -> Option<Refusal>
    decreases splits.len() - from,
{
    if from < 0 || from + 1 >= splits.len() {
        None
    } else {
        match split_value(a, spent, splits[from].quantity@) {
            Err(e) => Some(e),
            Ok(_) => split_refusal(a, spent, splits, from + 1),
        }
    }
}

pub fn value_split(a: &Account, spent: bool, q: Decimal) -> (r: Result<Money>)
    ensures
        match r {
            Ok(m) => split_value(*a, spent, q@) == Ok::<Amount, Refusal>(m@),
            Err(e) => split_value(*a, spent, q@) == Err::<Amount, Refusal>(e@),
        },
{
    match Money::from_major(q, a.commodity.as_str(), a.precision) {
        Ok(m) => if spent {
            Ok(m)
        } else {
            m.checked_neg()
        },
        Err(e) => Err(e),
    }
}

pub open spec fn negated_quantity(n: Num) -> Num {
    (-n.0, n.1)
}

/// Why an expense or an income is refused.
pub open spec fn category_refusal(s: SimpleEntry, a: Account, spent: bool) -> Option<Refusal> {
    if s.splits@.len() == 0 {
        if s.contra_account_id is None {
            Some(Refusal::Invalid("a category account is required"@))
        } else {
            None
        }
    } else {
        match resolved_legs(s.quantity@, legs_of(s.splits@)) {
            Err(m) => Some(Refusal::Invalid(m)),
            Ok(_) => split_refusal(a, spent, s.splits@, 0),
        }
    }
}

/// Whether `x` are the postings of an expense or an income: the account, and the category, or each
/// split on its own category with the last one balancing.
pub open spec fn category_postings(s: SimpleEntry, a: Account, spent: bool, x: Seq<PostingInput>) -> bool {
    let own_quantity = if spent {
        negated_quantity(s.quantity@)
    } else {
        s.quantity@
    };
    let none = Seq::<char>::empty();
    if s.splits@.len() == 0 {
        &&& x.len() == 2
        &&& moves(x[0], a.id, own_quantity, none)
        &&& balances(x[1], s.contra_account_id->0, none)
    } else {
        &&& x.len() == s.splits@.len() + 1
        &&& moves(x[0], a.id, own_quantity, none)
        &&& forall|i: int|
            0 <= i < s.splits@.len() - 1 ==> split_value(a, spent, (#[trigger] s.splits@[i]).quantity@) is Ok && ({
                let m = split_value(a, spent, s.splits@[i].quantity@)->Ok_0;
                is_valued(x[i + 1], s.splits@[i].account_id, normal((m.minor, m.precision)), m.commodity, s.splits@[i].memo@)
            })
        &&& balances(x.last(), s.splits@.last().account_id, s.splits@.last().memo@)
    }
}

fn category_inputs(s: &SimpleEntry, a: &Account, spent: bool) -> (r: Result<Vec<PostingInput>>)
    ensures
        match r {
            Ok(x) => category_refusal(*s, *a, spent) is None && category_postings(*s, *a, spent, x@),
            Err(e) => category_refusal(*s, *a, spent) == Some(e@),
        },
{
    let mut x: Vec<PostingInput> = Vec::new();
    let quantity = if spent { s.quantity.negated() } else { s.quantity };
    x.push(PostingInput::new(a.id, quantity));
    if s.splits.len() == 0 {
        match s.contra_account_id {
            Some(contra) => {
                x.push(PostingInput::balancing(contra));
            },
            None => {
                return Err(invalid("a category account is required"));
            },
        }
        return Ok(x);
    }
    let legs = to_legs(&s.splits);
    if let Err(e) = resolve(s.quantity, &legs) {
        return Err(e);
    }
    let n: usize = s.splits.len();
    let mut i: usize = 0;
    while i + 1 < n
        invariant
            n == s.splits@.len(),
            i < n,
            x@.len() == i + 1,
            moves(x@[0], a.id, quantity@, Seq::<char>::empty()),
            category_refusal(*s, *a, spent) == split_refusal(*a, spent, s.splits@, i as int),
            forall|k: int|
                0 <= k < i ==> split_value(*a, spent, (#[trigger] s.splits@[k]).quantity@) is Ok && ({
                    let m = split_value(*a, spent, s.splits@[k].quantity@)->Ok_0;
                    is_valued(
                        x@[k + 1],
                        s.splits@[k].account_id,
                        normal((m.minor, m.precision)),
                        m.commodity,
                        s.splits@[k].memo@,
                    )
                }),
        decreases n - i,
    {
        let line = &s.splits[i];
        let value = match value_split(a, spent, line.quantity) {
            Ok(m) => m,
            Err(e) => {
                return Err(e);
            },
        };
        let p = PostingInput::valued(line.account_id, value.major(), value.commodity().as_str());
        x.push(p.memo(line.memo.as_str()));
        i = i + 1;
    }
    let last = &s.splits[n - 1];
    x.push(PostingInput::balancing(last.account_id).memo(last.memo.as_str()));
    Ok(x)
}

pub open spec fn fee_of(s: SimpleEntry) -> Option<(Num, i64)> {
    match (s.fee, s.fee_account_id) {
        (Some(fee), Some(id)) => if fee@.0 != 0 {
            Some((fee@, id))
        } else {
            None
        },
        _ => None,
    }
}

pub open spec fn received(s: SimpleEntry) -> Num {
    match s.contra_quantity {
        Some(q) => q@,
        None => s.quantity@,
    }
}

/// Why a transfer inside one entity is refused.
pub open spec fn transfer_refusal(accounts: Seq<Account>, s: SimpleEntry, a: Account) -> Option<Refusal> {
    match s.contra_account_id {
        None => Some(Refusal::Invalid("a destination account is required"@)),
        Some(id) => match place_of(accounts, id) {
            None => Some(Refusal::NotFound("account "@ + int_text(id as int))),
            Some(i) => if accounts[i].entity_id != a.entity_id {
                Some(Refusal::Invalid("use CreateTransfer for money between entities"@))
            } else if accounts[i].commodity@ == a.commodity@ && !same_value(received(s), s.quantity@) {
                Some(
                    Refusal::Invalid(
                        "a transfer in one currency must receive what was sent; record a fee for the difference"@,
                    ),
                )
            } else {
                None
            },
        },
    }
}

/// Whether `x` starts with what leaves an account: a quantity, and a fee where there is one.
pub open spec fn sends(x: Seq<PostingInput>, a: Account, quantity: Num, fee: Option<(Num, i64)>) -> bool {
    let none = Seq::<char>::empty();
    &&& x.len() >= (if fee is Some { 3int } else { 1 })
    &&& moves(x[0], a.id, negated_quantity(quantity), none)
    &&& match fee {
        Some((f, id)) => moves(x[1], a.id, negated_quantity(f), "fee"@) && is_valued(x[2], id, f, a.commodity@, "fee"@),
        None => true,
    }
}

/// Puts what leaves an account: a quantity, and a fee where there is one.
fn push_sent(x: &mut Vec<PostingInput>, a: &Account, quantity: Decimal, fee: Option<Decimal>, fee_account: Option<i64>)
    requires
        old(x)@.len() == 0,
    ensures
        ({
            let f = match (fee, fee_account) {
                (Some(v), Some(id)) => if v@.0 != 0 {
                    Some((v@, id))
                } else {
                    None
                },
                _ => None,
            };
            sends(final(x)@, *a, quantity@, f) && final(x)@.len() == (if f is Some { 3int } else { 1 })
        }),
{
    x.push(PostingInput::new(a.id, quantity.negated()));
    if let (Some(f), Some(id)) = (fee, fee_account) {
        if !f.is_zero() {
            x.push(PostingInput::new(a.id, f.negated()).memo("fee"));
            x.push(PostingInput::valued(id, f, a.commodity.as_str()).memo("fee"));
        }
    }
}

/// Whether `x` are the postings of a transfer inside one entity.
pub open spec fn transfer_postings(accounts: Seq<Account>, s: SimpleEntry, a: Account, x: Seq<PostingInput>) -> bool {
    &&& sends(x, a, s.quantity@, fee_of(s))
    &&& x.len() == (if fee_of(s) is Some { 4int } else { 2 })
    &&& moves(x.last(), s.contra_account_id->0, received(s), Seq::<char>::empty())
}

fn transfer_inputs(accounts: &[Account], s: &SimpleEntry, a: &Account) -> (r: Result<(Vec<PostingInput>, bool)>)
    ensures
        match r {
            Ok((x, absorb)) => {
                &&& transfer_refusal(accounts@, *s, *a) is None
                &&& transfer_postings(accounts@, *s, *a, x@)
                &&& absorb == (accounts@[place_of(accounts@, s.contra_account_id->0)->0].commodity@ != a.commodity@)
            },
            Err(e) => transfer_refusal(accounts@, *s, *a) == Some(e@),
        },
{
    let to_id = match s.contra_account_id {
        Some(id) => id,
        None => {
            return Err(invalid("a destination account is required"));
        },
    };
    let to = match get_account(accounts, to_id) {
        Ok(t) => t,
        Err(e) => {
            return Err(e);
        },
    };
    if to.entity_id != a.entity_id {
        return Err(invalid("use CreateTransfer for money between entities"));
    }
    let arrives = match s.contra_quantity {
        Some(q) => q,
        None => s.quantity,
    };
    let one_currency = same(to.commodity.as_str(), a.commodity.as_str());
    if one_currency && !arrives.same(s.quantity) {
        return Err(
            invalid("a transfer in one currency must receive what was sent; record a fee for the difference"),
        );
    }
    let mut x: Vec<PostingInput> = Vec::new();
    push_sent(&mut x, a, s.quantity, s.fee, s.fee_account_id);
    x.push(PostingInput::new(to_id, arrives));
    Ok((x, !one_currency))
}

/// Why a captured entry is refused: the first rule that it breaks.
pub open spec fn simple_refusal(accounts: Seq<Account>, s: SimpleEntry) -> Option<Refusal> {
    match place_of(accounts, s.account_id) {
        None => Some(Refusal::NotFound("account "@ + int_text(s.account_id as int))),
        Some(i) => if s.quantity@.0 <= 0 {
            Some(Refusal::Invalid("amount must be positive"@))
        } else if s.kind@ == "expense"@ {
            category_refusal(s, accounts[i], true)
        } else if s.kind@ == "income"@ {
            category_refusal(s, accounts[i], false)
        } else if s.kind@ == "transfer"@ {
            transfer_refusal(accounts, s, accounts[i])
        } else {
            Some(Refusal::Invalid("unknown simple entry kind "@ + debug_text(s.kind@)))
        },
    }
}

/// Whether `x` is the entry that a captured one stands for.
pub open spec fn simple_entry(accounts: Seq<Account>, s: SimpleEntry, x: EntryInput) -> bool {
    let a = accounts[place_of(accounts, s.account_id)->0];
    &&& x.entity_id == s.entity_id && x.date == s.date
    &&& x.payee == s.payee && x.notes == s.notes && x.status == s.status
    &&& x.origin@ == (if s.origin@.len() == 0 { "capture"@ } else { s.origin@ })
    &&& x.description@.len() == 0
    &&& x.template_id is None && x.template_version is None && x.counterpart_id is None && x.reverses_id is None
    &&& if s.kind@ == "transfer"@ {
        &&& transfer_postings(accounts, s, a, x.postings@)
        &&& x.absorb_fx == (accounts[place_of(accounts, s.contra_account_id->0)->0].commodity@ != a.commodity@)
    } else {
        category_postings(s, a, s.kind@ == "expense"@, x.postings@) && !x.absorb_fx
    }
}

/// The entry that a captured expense, income or transfer stands for.
pub fn simple_input(accounts: &[Account], s: &SimpleEntry) -> (r: Result<EntryInput>)
    ensures
        match r {
            Ok(x) => simple_refusal(accounts@, *s) is None && simple_entry(accounts@, *s, x),
            Err(e) => simple_refusal(accounts@, *s) == Some(e@),
        },
{
    proof {
        reveal_strlit("expense");
        reveal_strlit("income");
        reveal_strlit("transfer");
        assert("expense"@.len() == 7 && "income"@.len() == 6 && "transfer"@.len() == 8);
    }
    let a = match get_account(accounts, s.account_id) {
        Ok(a) => a,
        Err(e) => {
            return Err(e);
        },
    };
    if s.quantity.is_zero() || s.quantity.is_negative() {
        return Err(invalid("amount must be positive"));
    }
    let kind = s.kind.as_str();
    let (postings, absorb_fx) = if same(kind, "expense") || same(kind, "income") {
        match category_inputs(s, a, same(kind, "expense")) {
            Ok(x) => (x, false),
            Err(e) => {
                return Err(e);
            },
        }
    } else if same(kind, "transfer") {
        match transfer_inputs(accounts, s, a) {
            Ok(x) => x,
            Err(e) => {
                return Err(e);
            },
        }
    } else {
        return Err(invalid(cat("unknown simple entry kind ", quoted(kind).as_str()).as_str()));
    };
    let mut input = EntryInput::new(s.entity_id, s.date);
    input.payee = s.payee.clone();
    input.notes = s.notes.clone();
    input.status = s.status;
    if !s.origin.as_str().is_empty() {
        input.origin = s.origin.clone();
    }
    input.postings = postings;
    input.absorb_fx = absorb_fx;
    Ok(input)
}

#[derive(Debug, Clone)]
pub struct Transfer {
    pub date: Date,
    pub from_account_id: i64,
    pub to_account_id: i64,
    pub from_quantity: Decimal,
    pub to_quantity: Option<Decimal>,
    pub fee: Option<Decimal>,
    pub fee_account_id: Option<i64>,
    pub payee: String,
    pub notes: String,
    pub from_contra_account_id: Option<i64>,
    pub to_contra_account_id: Option<i64>,
    pub status: EntryStatus,
    pub origin: String,
}

/// The entries of a transfer.
#[derive(Debug, Clone)]
pub enum TransferPlan {
    /// One entry, inside one entity.
    Inside(SimpleEntry),
    /// Two linked entries: what leaves one entity and what arrives in the other.
    Between(EntryInput, EntryInput),
}

/// The role of the account that stands for the other side in the books of the sender, or of the
/// receiver.
pub open spec fn contra_role(kind: Seq<char>, sender: bool) -> Seq<char> {
    if sender {
        if kind == "company"@ {
            "owner_distributions"@
        } else {
            "investment_in_entity"@
        }
    } else if kind == "company"@ {
        "owner_contributions"@
    } else {
        "distributions_received"@
    }
}

/// The account that stands for the other side: the one named, else the one with the role.
pub open spec fn contra_place(accounts: Seq<Account>, entity: Entity, id: Option<i64>, sender: bool) -> std::result::Result<int, Refusal> {
    match id {
        Some(i) => match place_of(accounts, i) {
            Some(p) => Ok(p),
            None => Err(Refusal::NotFound("account "@ + int_text(i as int))),
        },
        None => match role_place(accounts, entity.id, contra_role(entity.kind@, sender), 0) {
            Some(p) => Ok(p),
            None => Err(
                Refusal::NotFound(
                    "system account "@ + contra_role(entity.kind@, sender) + " for entity "@ + int_text(entity.id as int),
                ),
            ),
        },
    }
}

fn find_contra<'a>(accounts: &'a [Account], entity: &Entity, id: Option<i64>, sender: bool) -> (r: Result<&'a Account>)
    ensures
        match r {
            Ok(a) => contra_place(accounts@, *entity, id, sender) is Ok && *a == accounts@[contra_place(
                accounts@,
                *entity,
                id,
                sender,
            )->Ok_0],
            Err(e) => contra_place(accounts@, *entity, id, sender) == Err::<int, Refusal>(e@),
        },
{
    match id {
        Some(i) => get_account(accounts, i),
        None => {
            let company = same(entity.kind.as_str(), "company");
            let role = if sender {
                if company {
                    "owner_distributions"
                } else {
                    "investment_in_entity"
                }
            } else if company {
                "owner_contributions"
            } else {
                "distributions_received"
            };
            find_by_role(accounts, entity.id, role)
        },
    }
}

pub open spec fn arriving(t: Transfer) -> Num {
    match t.to_quantity {
        Some(q) => q@,
        None => t.from_quantity@,
    }
}

pub open spec fn transfer_fee(t: Transfer) -> Option<(Num, i64)> {
    match (t.fee, t.fee_account_id) {
        (Some(v), Some(id)) => if v@.0 != 0 {
            Some((v@, id))
        } else {
            None
        },
        _ => None,
    }
}

pub open spec fn transfer_origin(t: Transfer) -> Seq<char> {
    if t.origin@.len() == 0 {
        "transfer"@
    } else {
        t.origin@
    }
}

/// Why a transfer is refused: the first rule that it breaks.
pub open spec fn between_refusal(accounts: Seq<Account>, entities: Seq<Entity>, t: Transfer) -> Option<Refusal> {
    match (place_of(accounts, t.from_account_id), place_of(accounts, t.to_account_id)) {
        (None, _) => Some(Refusal::NotFound("account "@ + int_text(t.from_account_id as int))),
        (Some(_), None) => Some(Refusal::NotFound("account "@ + int_text(t.to_account_id as int))),
        (Some(f), Some(g)) => if t.from_quantity@.0 <= 0 {
            Some(Refusal::Invalid("amount must be positive"@))
        } else if accounts[f].entity_id == accounts[g].entity_id {
            None
        } else {
            match (entity_place(entities, accounts[f].entity_id, 0), entity_place(entities, accounts[g].entity_id, 0)) {
                (None, _) => Some(Refusal::NotFound("entity "@ + int_text(accounts[f].entity_id as int))),
                (Some(_), None) => Some(Refusal::NotFound("entity "@ + int_text(accounts[g].entity_id as int))),
                (Some(x), Some(y)) => match contra_place(accounts, entities[x], t.from_contra_account_id, true) {
                    Err(e) => Some(e),
                    Ok(_) => match contra_place(accounts, entities[y], t.to_contra_account_id, false) {
                        Err(e) => Some(e),
                        Ok(_) => None,
                    },
                },
            }
        },
    }
}

/// Whether `x` is one half of a transfer between entities, but for its postings.
pub open spec fn half(t: Transfer, entity: Entity, payee: Seq<char>, x: EntryInput) -> bool {
    &&& x.entity_id == entity.id && x.date == t.date
    &&& x.payee@ == (if t.payee@.len() == 0 { payee } else { t.payee@ })
    &&& x.notes == t.notes && x.status == t.status && x.origin@ == transfer_origin(t)
    &&& x.description@.len() == 0 && x.template_id is None && x.template_version is None && x.counterpart_id is None
        && x.reverses_id is None && !x.absorb_fx
}

/// Whether a plan is what a transfer stands for.
pub open spec fn transfer_plan(accounts: Seq<Account>, entities: Seq<Entity>, t: Transfer, plan: TransferPlan) -> bool {
    let from = accounts[place_of(accounts, t.from_account_id)->0];
    let to = accounts[place_of(accounts, t.to_account_id)->0];
    match plan {
        TransferPlan::Inside(s) => {
            &&& from.entity_id == to.entity_id
            &&& s.entity_id == from.entity_id && s.date == t.date && s.kind@ == "transfer"@
            &&& s.account_id == from.id && s.contra_account_id == Some(to.id)
            &&& s.quantity == t.from_quantity && s.contra_quantity is Some && s.contra_quantity->0@ == arriving(t)
            &&& s.payee == t.payee && s.notes == t.notes && s.splits@.len() == 0 && s.status == t.status
            &&& s.fee == t.fee && s.fee_account_id == t.fee_account_id && s.origin@ == transfer_origin(t)
        },
        TransferPlan::Between(a, b) => {
            let sender = entities[entity_place(entities, from.entity_id, 0)->0];
            let receiver = entities[entity_place(entities, to.entity_id, 0)->0];
            let none = Seq::<char>::empty();
            &&& from.entity_id != to.entity_id
            &&& half(t, sender, "Transfer to "@ + receiver.name@, a)
            &&& half(t, receiver, "Transfer from "@ + sender.name@, b)
            &&& sends(a.postings@, from, t.from_quantity@, transfer_fee(t))
            &&& a.postings@.len() == (if transfer_fee(t) is Some { 4int } else { 2 })
            &&& balances(
                a.postings@.last(),
                accounts[contra_place(accounts, sender, t.from_contra_account_id, true)->Ok_0].id,
                none,
            )
            &&& b.postings@.len() == 2
            &&& moves(b.postings@[0], to.id, arriving(t), none)
            &&& balances(
                b.postings@[1],
                accounts[contra_place(accounts, receiver, t.to_contra_account_id, false)->Ok_0].id,
                none,
            )
        },
    }
}

fn half_input(t: &Transfer, entity: &Entity, payee: String, postings: Vec<PostingInput>) -> (x: EntryInput)
    ensures
        half(*t, *entity, payee@, x),
        x.postings == postings,
{
    let mut x = EntryInput::new(entity.id, t.date);
    x.payee = if t.payee.as_str().is_empty() { payee } else { t.payee.clone() };
    x.notes = t.notes.clone();
    x.status = t.status;
    x.origin = if t.origin.as_str().is_empty() { own("transfer") } else { t.origin.clone() };
    x.postings = postings;
    x
}

/// The entries of a transfer inside one entity (one entry) or between entities (two linked ones).
pub fn create_transfer(accounts: &[Account], entities: &[Entity], t: &Transfer) -> (r: Result<TransferPlan>)
    ensures
        match r {
            Ok(plan) => between_refusal(accounts@, entities@, *t) is None && transfer_plan(accounts@, entities@, *t, plan),
            Err(e) => between_refusal(accounts@, entities@, *t) == Some(e@),
        },
{
    let from = match get_account(accounts, t.from_account_id) {
        Ok(a) => a,
        Err(e) => {
            return Err(e);
        },
    };
    let to = match get_account(accounts, t.to_account_id) {
        Ok(a) => a,
        Err(e) => {
            return Err(e);
        },
    };
    if t.from_quantity.is_zero() || t.from_quantity.is_negative() {
        return Err(invalid("amount must be positive"));
    }
    let arrives = match t.to_quantity {
        Some(q) => q,
        None => t.from_quantity,
    };
    if from.entity_id == to.entity_id {
        let origin = if t.origin.as_str().is_empty() { own("transfer") } else { t.origin.clone() };
        return Ok(
            TransferPlan::Inside(
                SimpleEntry {
                    entity_id: from.entity_id,
                    date: t.date,
                    kind: own("transfer"),
                    account_id: from.id,
                    contra_account_id: Some(to.id),
                    quantity: t.from_quantity,
                    contra_quantity: Some(arrives),
                    payee: t.payee.clone(),
                    notes: t.notes.clone(),
                    splits: Vec::new(),
                    status: t.status,
                    fee: t.fee,
                    fee_account_id: t.fee_account_id,
                    origin,
                },
            ),
        );
    }
    let sender = match get_entity(entities, from.entity_id) {
        Ok(e) => e,
        Err(e) => {
            return Err(e);
        },
    };
    let receiver = match get_entity(entities, to.entity_id) {
        Ok(e) => e,
        Err(e) => {
            return Err(e);
        },
    };
    let from_contra = match find_contra(accounts, sender, t.from_contra_account_id, true) {
        Ok(a) => a,
        Err(e) => {
            return Err(e);
        },
    };
    let to_contra = match find_contra(accounts, receiver, t.to_contra_account_id, false) {
        Ok(a) => a,
        Err(e) => {
            return Err(e);
        },
    };
    let mut x: Vec<PostingInput> = Vec::new();
    push_sent(&mut x, from, t.from_quantity, t.fee, t.fee_account_id);
    x.push(PostingInput::balancing(from_contra.id));
    let mut y: Vec<PostingInput> = Vec::new();
    y.push(PostingInput::new(to.id, arrives));
    y.push(PostingInput::balancing(to_contra.id));
    let a = half_input(t, sender, cat("Transfer to ", receiver.name.as_str()), x);
    let b = half_input(t, receiver, cat("Transfer from ", sender.name.as_str()), y);
    Ok(TransferPlan::Between(a, b))
}

/// A transfer between entities takes the amount from the sender's account and puts what arrives on the
/// receiver's: the one falls, the other grows, and each half has one posting that balances it.
pub proof fn law_transfer_moves_money(accounts: Seq<Account>, entities: Seq<Entity>, t: Transfer, plan: TransferPlan)
    requires
        between_refusal(accounts, entities, t) is None,
        transfer_plan(accounts, entities, t, plan),
    ensures
        t.from_quantity@.0 > 0,
        plan matches TransferPlan::Between(a, b) ==> {
            &&& a.postings@[0].account_id == t.from_account_id
            &&& a.postings@[0].quantity@.0 == -t.from_quantity@.0 && a.postings@[0].quantity@.1 == t.from_quantity@.1
            &&& a.postings@.last().balance
            &&& b.postings@[0].account_id == t.to_account_id
            &&& t.to_quantity matches Some(q) ==> b.postings@[0].quantity@ == q@
            &&& t.to_quantity is None ==> b.postings@[0].quantity@ == t.from_quantity@
            &&& b.postings@[1].balance
            &&& a.date == t.date && b.date == t.date
        },
        plan matches TransferPlan::Inside(s) ==> s.account_id == t.from_account_id && s.contra_account_id == Some(t.to_account_id) && s.quantity
            == t.from_quantity && (t.to_quantity is None ==> (s.contra_quantity matches Some(q) && q@ == t.from_quantity@)),
{
    lemma_place(accounts, t.from_account_id);
    lemma_place(accounts, t.to_account_id);
}

/// Whether a split is valued on its category: above zero where it is spent, below where it is earned.
pub open spec fn split_booked(s: SimpleEntry, a: Account, spent: bool, x: Seq<PostingInput>, i: int) -> bool {
    let y = value(s.splits@[i].quantity@);
    &&& x[i + 1].account_id == s.splits@[i].account_id
    &&& x[i + 1].value_in matches Some(v) && within(if spent { y } else { -y }, v.0@, a.precision as nat)
}

/// What is spent leaves the account and is debited to its categories; what is earned arrives on it and is
/// credited to them.
pub proof fn law_category_direction(s: SimpleEntry, a: Account, spent: bool, x: Seq<PostingInput>)
    requires
        s.quantity@.0 > 0,
        category_postings(s, a, spent, x),
        a.precision <= 8,
    ensures
        x[0].account_id == a.id,
        x[0].quantity@ == (if spent {
            -s.quantity@.0
        } else {
            s.quantity@.0
        }, s.quantity@.1),
        x.last().balance,
        forall|i: int| 0 <= i < s.splits@.len() - 1 ==> #[trigger] split_booked(s, a, spent, x, i),
{
    assert forall|i: int| 0 <= i < s.splits@.len() - 1 implies #[trigger] split_booked(s, a, spent, x, i) by {
        assert(s.splits@[i].account_id == x[i + 1].account_id);
        let q = s.splits@[i].quantity@;
        let m = split_value(a, spent, q)->Ok_0;
        law_amount_of_major(q, a.commodity@, a.precision as int);
        lemma_normal((m.minor, m.precision));
        lemma_same_value(normal((m.minor, m.precision)), (m.minor, m.precision));
        let exact = amount_of_major(q, a.commodity@, a.precision as int)->Ok_0;
        let (y, p) = (value(q), pow10(a.precision as nat) as real);
        let (u, v) = (in_major(exact), in_major(m));
        lemma_turned(exact.minor, exact.precision);
        let far = distance(u, y);
        assert(distance(v, if spent { y } else { -y }) == far);
        assert(far * p <= 1real) by (nonlinear_arith)
            requires
                100real * far * p < 51real,
        ;
    }
}

proof fn lemma_turned(minor: int, precision: nat)
    ensures
        value((-minor, precision)) == -value((minor, precision)),
{
    lemma_pow10_positive(precision);
    let (m, p) = (minor as real, pow10(precision) as real);
    assert((-m) / p == -(m / p)) by (nonlinear_arith)
        requires
            p >= 1real,
    ;
}

/// What the postings of an entry credit together.
pub open spec fn credit_total(v: Seq<Posting>) -> int
    decreases v.len(),
{
    if v.len() == 0 {
        0
    } else {
        credit_total(v.drop_last()) + (if v.last().amount@.minor < 0 {
            -v.last().amount@.minor
        } else {
            0
        })
    }
}

/// What the postings of an entry are together.
pub open spec fn amount_total(v: Seq<Posting>) -> int
    decreases v.len(),
{
    if v.len() == 0 {
        0
    } else {
        amount_total(v.drop_last()) + v.last().amount@.minor
    }
}

/// What an entry moves is what it debits; where it balances, that is also what it credits.
pub proof fn law_debits_are_credits(v: Seq<Posting>)
    ensures
        debit_total(v) - credit_total(v) == amount_total(v),
        debit_total(v) >= 0,
    decreases v.len(),
{
    if v.len() > 0 {
        law_debits_are_credits(v.drop_last());
    }
}

/// A transfer inside an entity takes the amount from the one account and puts what arrives on the other; a fee
/// leaves the first account too, and is debited to its own.
pub proof fn law_inside_transfer_moves(accounts: Seq<Account>, s: SimpleEntry, a: Account, x: Seq<PostingInput>)
    requires
        transfer_postings(accounts, s, a, x),
    ensures
        x[0].account_id == a.id && x[0].quantity@ == (-s.quantity@.0, s.quantity@.1),
        s.contra_account_id == Some(x.last().account_id) || s.contra_account_id is None,
        s.contra_quantity matches Some(q) ==> x.last().quantity@ == q@,
        s.contra_quantity is None ==> x.last().quantity@ == s.quantity@,
        s.fee is None || s.fee_account_id is None ==> x.len() == 2,
        (s.fee matches Some(f) && s.fee_account_id matches Some(id) && f@.0 != 0) ==> x.len() == 4 && x[1].account_id == a.id && x[1].quantity@ == (
            -(s.fee->0)@.0,
            (s.fee->0)@.1,
        ) && Some(x[2].account_id) == s.fee_account_id && (x[2].value_in matches Some(v) && v.0@ == (s.fee->0)@),
{
}

} // verus!
