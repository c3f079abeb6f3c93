//! Reports over booked entries: nothing stored.

use vstd::prelude::*;

use crate::accounts::{order_of, type_order, AccountBrief};
use crate::date::{iso, iso_text, Date};
use crate::decimal::{distance, law_arithmetic_near, lemma_same_value, lemma_value_whole, multiplied, near, normal, pow10, value, Decimal, Num};
use crate::entities::{code_form, commodity_named, entity_place, get_commodity_by_code, get_entity, normalize_code, well_formed_code};
use crate::error::{invalid, not_found, Error, Refusal, Result};
use crate::model::{sign_of, AccountType, Commodity, Entity, JournalEntry, Posting, Price};
use crate::money::{
    amount_of, amount_of_major, default_precision, first_other_unit, in_major, in_range, law_minor_nearest, lemma_converted_near, lemma_money_size,
    lemma_normal, lemma_units, minor_total, places_of, same_unit, unit_refusal, with_minor, Amount, Money,
};
use crate::order::{as_ints, law_sorted, ranks, sorted, sorted_places, Key, Rank};
use crate::rates::{rate_for, rate_of};
use crate::text::{blank, cat, cat3, debug_text, glue, glued, int_string, int_text, is_blank, own, same, str_texts, trimmed, uppered};
use crate::totals::{account_total, selects, total_on, with_postings, Window};

verus! {

/// Row of a report: a balance or movement per account.
#[derive(Debug)]
pub struct ReportRow {
    pub account_id: i64,
    pub path: String,
    pub name: String,
    pub account_type: AccountType,
    pub depth: i32,
    pub placeholder: bool,
    /// Normal-balance sign: positive when the account holds what it is expected to hold.
    pub quantity: Money,
    pub amount: Money,
    pub debit: Money,
    pub credit: Money,
    pub market_value: Option<Money>,
}

/// What a row shows.
pub struct Shown {
    pub account_id: i64,
    pub path: Seq<char>,
    pub name: Seq<char>,
    pub account_type: AccountType,
    pub depth: i32,
    pub placeholder: bool,
    pub quantity: Amount,
    pub amount: Amount,
    pub debit: Amount,
    pub credit: Amount,
    pub market: Option<Amount>,
}

pub open spec fn amount_in(m: Option<Money>) -> Option<Amount> {
    match m {
        Some(x) => Some(x@),
        None => None,
    }
}

impl View for ReportRow {
    type V = Shown;

    open spec fn view(&self) -> Shown {
        Shown {
            account_id: self.account_id,
            path: self.path@,
            name: self.name@,
            account_type: self.account_type,
            depth: self.depth,
            placeholder: self.placeholder,
            quantity: self.quantity@,
            amount: self.amount@,
            debit: self.debit@,
            credit: self.credit@,
            market: amount_in(self.market_value),
        }
    }
}

pub open spec fn shown(rows: Seq<ReportRow>) -> Seq<Shown> {
    rows.map_values(|r: ReportRow| r@)
}

/// An amount with the sign that is normal for the account type.
pub open spec fn natural(a: Amount, t: AccountType) -> std::result::Result<Amount, Refusal> {
    if sign_of(t) == 1 {
        Ok(a)
    } else {
        opposite(a)
    }
}

pub open spec fn opposite(a: Amount) -> std::result::Result<Amount, Refusal> {
    if a.minor == i64::MIN {
        Err(Refusal::Invalid("money negation overflow"@))
    } else {
        Ok(with_minor(a, -a.minor))
    }
}

pub fn naturally(value: Money, t: AccountType) -> (r: Result<Money>)
    ensures
        match r {
            Ok(m) => natural(value@, t) == Ok::<Amount, Refusal>(m@),
            Err(e) => natural(value@, t) == Err::<Amount, Refusal>(e@),
        },
{
    if t.normal_sign() == 1 {
        Ok(value)
    } else {
        value.checked_neg()
    }
}

/// Nothing of a currency, with the decimal places of its commodity or those usual for it.
pub open spec fn nothing_in(commodities: Seq<Commodity>, code: Seq<char>) -> std::result::Result<Amount, Refusal> {
    match commodity_named(commodities, code) {
        Ok(c) => amount_of(0, code, c.precision as int),
        Err(Refusal::NotFound(_)) => amount_of(0, code, places_of(code) as int),
        Err(e) => Err(e),
    }
}

pub fn unit(commodities: &[Commodity], code: &str) -> (r: Result<Money>)
    ensures
        match r {
            Ok(m) => nothing_in(commodities@, code@) == Ok::<Amount, Refusal>(m@),
            Err(e) => nothing_in(commodities@, code@) == Err::<Amount, Refusal>(e@),
        },
{
    let precision = match get_commodity_by_code(commodities, code) {
        Ok(c) => c.precision,
        Err(Error::NotFound(_)) => default_precision(code),
        Err(e) => {
            return Err(e);
        },
    };
    Money::from_minor(0, code, precision)
}

/// The sum of amounts in one unit, or why there is none.
pub open spec fn plus(a: Amount, b: Amount) -> std::result::Result<Amount, Refusal> {
    if !same_unit(a, b) {
        Err(Refusal::Invalid(unit_refusal(a, b)))
    } else if in_range(a.minor + b.minor) is None {
        Err(Refusal::Invalid("money addition overflow"@))
    } else {
        Ok(with_minor(a, a.minor + b.minor))
    }
}

pub open spec fn minus(a: Amount, b: Amount) -> std::result::Result<Amount, Refusal> {
    if !same_unit(a, b) {
        Err(Refusal::Invalid(unit_refusal(a, b)))
    } else if in_range(a.minor - b.minor) is None {
        Err(Refusal::Invalid("money subtraction overflow"@))
    } else {
        Ok(with_minor(a, a.minor - b.minor))
    }
}

pub open spec fn total_minor(v: Seq<Amount>) -> int
    decreases v.len(),
{
    if v.len() == 0 {
        0
    } else {
        total_minor(v.drop_last()) + v.last().minor
    }
}

/// The first of the amounts that counts another unit than `zero`.
pub open spec fn first_foreign(zero: Amount, v: Seq<Amount>) -> Option<int>
    decreases v.len(),
{
    if v.len() == 0 {
        None
    } else {
        match first_foreign(zero, v.drop_last()) {
            Some(i) => Some(i),
            None => if same_unit(zero, v.last()) {
                None
            } else {
                Some(v.len() - 1)
            },
        }
    }
}

/// The sum of amounts in the unit of `zero`, or why there is none.
pub open spec fn sum_in(zero: Amount, v: Seq<Amount>) -> std::result::Result<Amount, Refusal> {
    match first_foreign(zero, v) {
        Some(i) => Err(Refusal::Invalid(unit_refusal(zero, v[i]))),
        None => if in_range(zero.minor + total_minor(v)) is None {
            Err(Refusal::Invalid("money sum overflow"@))
        } else {
            Ok(with_minor(zero, zero.minor + total_minor(v)))
        },
    }
}

pub open spec fn amounts_of(v: Seq<Money>) -> Seq<Amount> {
    v.map_values(|m: Money| m@)
}

proof fn lemma_sum(zero: Amount, v: Seq<Money>)
    ensures
        total_minor(amounts_of(v)) == minor_total(v),
        first_foreign(zero, amounts_of(v)) == first_other_unit(zero, v),
        first_foreign(zero, amounts_of(v)) matches Some(i) ==> 0 <= i < v.len(),
        (forall|k: int| 0 <= k < v.len() ==> same_unit(zero, (#[trigger] v[k])@)) ==> first_foreign(zero, amounts_of(v)) is None,
    decreases v.len(),
{
    if v.len() > 0 {
        lemma_sum(zero, v.drop_last());
        assert(amounts_of(v).drop_last() =~= amounts_of(v.drop_last()));
        if forall|k: int| 0 <= k < v.len() ==> same_unit(zero, (#[trigger] v[k])@) {
            assert forall|k: int| 0 <= k < v.drop_last().len() implies same_unit(zero, (#[trigger] v.drop_last()[k])@) by {
                assert(v.drop_last()[k] == v[k]);
            }
            assert(same_unit(zero, v[v.len() - 1]@));
        }
    }
}

fn sum(zero: Money, v: &[Money]) -> (r: Result<Money>)
    ensures
        match r {
            Ok(m) => sum_in(zero@, amounts_of(v@)) == Ok::<Amount, Refusal>(m@),
            Err(e) => sum_in(zero@, amounts_of(v@)) == Err::<Amount, Refusal>(e@),
        },
{
    proof {
        lemma_sum(zero@, v@);
    }
    zero.checked_sum(v)
}

/// The places of the accounts of an entity among the first `n`, or of all.
pub open spec fn members(index: Seq<AccountBrief>, entity_id: Option<i64>, n: nat) -> Seq<int>
    decreases n,
{
    if n == 0 {
        Seq::empty()
    } else {
        let rest = members(index, entity_id, (n - 1) as nat);
        if entity_id matches Some(e) ==> index[n - 1].entity_id == e {
            rest.push(n - 1)
        } else {
            rest
        }
    }
}

pub open spec fn brief_rank(a: AccountBrief) -> Rank {
    Rank { first: a.entity_id as int, second: order_of(a.account_type) as int, text: a.path@ }
}

pub open spec fn member_ranks(index: Seq<AccountBrief>, places: Seq<int>) -> Seq<Rank> {
    places.map_values(|i: int| brief_rank(index[i]))
}

/// The places of an entity's accounts in the order of a report: by entity, by type and by path.
pub open spec fn report_places(index: Seq<AccountBrief>, entity_id: Option<i64>) -> Seq<int> {
    let m = members(index, entity_id, index.len());
    sorted_places(member_ranks(index, m)).map_values(|k: int| m[k])
}

proof fn lemma_members(index: Seq<AccountBrief>, entity_id: Option<i64>, n: nat)
    requires
        n <= index.len(),
    ensures
        members(index, entity_id, n).len() <= n,
        forall|k: int| 0 <= k < members(index, entity_id, n).len() ==> 0 <= #[trigger] members(index, entity_id, n)[k] < n,
    decreases n,
{
    if n > 0 {
        lemma_members(index, entity_id, (n - 1) as nat);
    }
}

pub fn ordered(index: &[AccountBrief], entity_id: Option<i64>) -> (r: Vec<usize>)
    ensures
        as_ints(r@) == report_places(index@, entity_id),
        forall|k: int| 0 <= k < r@.len() ==> (#[trigger] r@[k]) < index@.len(),
{
    let ghost m = members(index@, entity_id, index@.len());
    let mut places: Vec<usize> = Vec::new();
    let mut keys: Vec<Key> = Vec::new();
    let mut i: usize = 0;
    assert(as_ints(places@) =~= members(index@, entity_id, 0));
    assert(ranks(keys@) =~= member_ranks(index@, members(index@, entity_id, 0)));
    while i < index.len()
        invariant
            i <= index.len(),
            places@.len() == keys@.len(),
            as_ints(places@) == members(index@, entity_id, i as nat),
            ranks(keys@) == member_ranks(index@, members(index@, entity_id, i as nat)),
            forall|k: int| 0 <= k < places@.len() ==> (#[trigger] places@[k]) < index@.len(),
        decreases index.len() - i,
    {
        let a = &index[i];
        let wanted = match entity_id {
            Some(e) => a.entity_id == e,
            None => true,
        };
        if wanted {
            let ghost (ps, ks) = (places@, keys@);
            let key = Key { first: a.entity_id as i128, second: type_order(a.account_type) as i128, text: own(a.path.as_str()) };
            places.push(i);
            keys.push(key);
            assert(as_ints(places@) =~= as_ints(ps).push(i as int));
            assert(ranks(keys@) =~= ranks(ks).push(key@));
            assert(key@ == brief_rank(*a));
            assert(member_ranks(index@, members(index@, entity_id, (i + 1) as nat)) =~= member_ranks(
                index@,
                members(index@, entity_id, i as nat),
            ).push(brief_rank(*a)));
        }
        i = i + 1;
    }
    let order = sorted(&keys);
    let mut r: Vec<usize> = Vec::new();
    let mut k: usize = 0;
    while k < order.len()
        invariant
            k <= order.len(),
            order@.len() == places@.len(),
            r@.len() == k,
            forall|j: int| 0 <= j < order@.len() ==> (#[trigger] order@[j]) < places@.len(),
            forall|j: int| 0 <= j < places@.len() ==> (#[trigger] places@[j]) < index@.len(),
            forall|j: int| 0 <= j < k ==> #[trigger] r@[j] == places@[order@[j] as int],
            forall|j: int| 0 <= j < k ==> (#[trigger] r@[j]) < index@.len(),
        decreases order.len() - k,
    {
        r.push(places[order[k]]);
        k = k + 1;
    }
    proof {
        assert(as_ints(r@) =~= report_places(index@, entity_id)) by {
            assert forall|j: int| 0 <= j < r@.len() implies as_ints(r@)[j] == report_places(index@, entity_id)[j] by {
                assert(as_ints(order@)[j] == order@[j] as int);
                assert(as_ints(places@)[order@[j] as int] == m[order@[j] as int]);
                assert(r@[j] == places@[order@[j] as int]);
            }
        }
    }
    r
}

/// What an account holds: its quantity and its value, as they are booked.
pub open spec fn holdings(entries: Seq<JournalEntry>, w: Window, a: AccountBrief, zero: Amount) -> std::result::Result<(Amount, Amount), Refusal> {
    match (account_total(entries, w, a.id, false, entries.len()), account_total(entries, w, a.id, true, entries.len())) {
        (Some(q), Some(v)) => match amount_of(q, a.commodity@, a.precision as int) {
            Ok(m) => Ok((m, with_minor(zero, v))),
            Err(e) => Err(e),
        },
        _ => Err(Refusal::Invalid("account total is out of range"@)),
    }
}

fn account_sums(entries: &[JournalEntry], w: &Window, a: &AccountBrief, zero: Money) -> (r: Result<(Money, Money)>)
    ensures
        match r {
            Ok(x) => holdings(entries@, *w, *a, zero@) == Ok::<(Amount, Amount), Refusal>((x.0@, x.1@)),
            Err(e) => holdings(entries@, *w, *a, zero@) == Err::<(Amount, Amount), Refusal>(e@),
        },
{
    match (total_on(entries, w, a.id, false), total_on(entries, w, a.id, true)) {
        (Some(q), Some(v)) => match Money::from_minor(q, a.commodity.as_str(), a.precision) {
            Ok(m) => Ok((m, zero.with_count(v))),
            Err(e) => Err(e),
        },
        _ => Err(invalid("account total is out of range")),
    }
}

pub open spec fn shown_row(a: AccountBrief, quantity: Amount, amount: Amount, zero: Amount) -> Shown {
    Shown {
        account_id: a.id,
        path: a.path@,
        name: a.name@,
        account_type: a.account_type,
        depth: a.depth,
        placeholder: a.placeholder,
        quantity,
        amount,
        debit: zero,
        credit: zero,
        market: None,
    }
}

fn row(a: &AccountBrief, quantity: Money, amount: Money, zero: Money) -> (r: ReportRow)
    ensures
        r@ == shown_row(*a, quantity@, amount@, zero@),
{
    ReportRow {
        account_id: a.id,
        path: own(a.path.as_str()),
        name: own(a.name.as_str()),
        account_type: a.account_type,
        depth: a.depth,
        placeholder: a.placeholder,
        quantity,
        amount,
        debit: zero,
        credit: zero,
        market_value: None,
    }
}

/// The row of an account with the signs that are normal for it.
pub open spec fn natural_row(a: AccountBrief, q: Amount, v: Amount, zero: Amount) -> std::result::Result<Shown, Refusal> {
    match natural(q, a.account_type) {
        Err(e) => Err(e),
        Ok(x) => match natural(v, a.account_type) {
            Err(e) => Err(e),
            Ok(y) => Ok(shown_row(a, x, y, zero)),
        },
    }
}

fn natural_report_row(a: &AccountBrief, q: Money, v: Money, zero: Money) -> (r: Result<ReportRow>)
    ensures
        match r {
            Ok(x) => natural_row(*a, q@, v@, zero@) == Ok::<Shown, Refusal>(x@),
            Err(e) => natural_row(*a, q@, v@, zero@) == Err::<Shown, Refusal>(e@),
        },
{
    let x = match naturally(q, a.account_type) {
        Ok(m) => m,
        Err(e) => {
            return Err(e);
        },
    };
    let y = match naturally(v, a.account_type) {
        Ok(m) => m,
        Err(e) => {
            return Err(e);
        },
    };
    Ok(row(a, x, y, zero))
}

#[derive(Debug)]
pub struct Report {
    pub rows: Vec<ReportRow>,
    pub total_debit: Money,
    pub total_credit: Money,
    pub net: Money,
    pub currency: String,
    pub summary: Vec<ReportRow>,
}

pub struct ShownReport {
    pub rows: Seq<Shown>,
    pub total_debit: Amount,
    pub total_credit: Amount,
    pub net: Amount,
    pub currency: Seq<char>,
    pub summary: Seq<Shown>,
}

impl View for Report {
    type V = ShownReport;

    open spec fn view(&self) -> ShownReport {
        ShownReport {
            rows: shown(self.rows@),
            total_debit: self.total_debit@,
            total_credit: self.total_credit@,
            net: self.net@,
            currency: self.currency@,
            summary: shown(self.summary@),
        }
    }
}

/// The row of the trial balance for an account, where it holds anything.
pub open spec fn trial_row(entries: Seq<JournalEntry>, w: Window, a: AccountBrief, zero: Amount) -> std::result::Result<Option<Shown>, Refusal> {
    if a.placeholder {
        Ok(None)
    } else {
        match holdings(entries, w, a, zero) {
            Err(e) => Err(e),
            Ok((q, v)) => if q.minor == 0 && v.minor == 0 {
                Ok(None)
            } else {
                match natural_row(a, q, v, zero) {
                    Err(e) => Err(e),
                    Ok(r) => if v.minor < 0 {
                        match opposite(v) {
                            Err(e) => Err(e),
                            Ok(c) => Ok(Some(Shown { credit: c, ..r })),
                        }
                    } else {
                        Ok(Some(Shown { debit: v, ..r }))
                    },
                }
            },
        }
    }
}

/// The rows of the trial balance for the first `n` places.
pub open spec fn trial_rows(
    entries: Seq<JournalEntry>,
    w: Window,
    index: Seq<AccountBrief>,
    places: Seq<int>,
    zero: Amount,
    n: nat,
) -> std::result::Result<Seq<Shown>, Refusal>
    decreases n,
{
    if n == 0 {
        Ok(Seq::empty())
    } else {
        match trial_rows(entries, w, index, places, zero, (n - 1) as nat) {
            Err(e) => Err(e),
            Ok(rows) => match trial_row(entries, w, index[places[n - 1]], zero) {
                Err(e) => Err(e),
                Ok(None) => Ok(rows),
                Ok(Some(r)) => Ok(rows.push(r)),
            },
        }
    }
}

pub open spec fn debits(rows: Seq<Shown>) -> Seq<Amount> {
    rows.map_values(|r: Shown| r.debit)
}

pub open spec fn credits(rows: Seq<Shown>) -> Seq<Amount> {
    rows.map_values(|r: Shown| r.credit)
}

pub open spec fn trial_window(entity_id: i64, as_of: Option<Date>) -> Window {
    Window { entity_id: Some(entity_id), from: None, to: as_of, before: None, drafts: false }
}

/// The trial balance of an entity, or why there is none.
pub open spec fn trial_of(
    entities: Seq<Entity>,
    commodities: Seq<Commodity>,
    index: Seq<AccountBrief>,
    entries: Seq<JournalEntry>,
    entity_id: i64,
    as_of: Option<Date>,
) -> std::result::Result<ShownReport, Refusal> {
    match entity_place(entities, entity_id, 0) {
        None => Err(Refusal::NotFound("entity "@ + int_text(entity_id as int))),
        Some(j) => match nothing_in(commodities, entities[j].currency@) {
            Err(e) => Err(e),
            Ok(zero) => {
                let places = report_places(index, Some(entity_id));
                match trial_rows(entries, trial_window(entity_id, as_of), index, places, zero, places.len()) {
                    Err(e) => Err(e),
                    Ok(rows) => closed_report(rows, sum_in(zero, debits(rows)), sum_in(zero, credits(rows)), entities[j].currency@),
                }
            },
        },
    }
}

/// A report with its totals, whose net is what is left of the debits.
pub open spec fn closed_report(
    rows: Seq<Shown>,
    debit: std::result::Result<Amount, Refusal>,
    credit: std::result::Result<Amount, Refusal>,
    currency: Seq<char>,
) -> std::result::Result<ShownReport, Refusal> {
    match debit {
        Err(e) => Err(e),
        Ok(d) => match credit {
            Err(e) => Err(e),
            Ok(c) => match minus(d, c) {
                Err(e) => Err(e),
                Ok(net) => Ok(
                    ShownReport { rows, total_debit: d, total_credit: c, net, currency, summary: Seq::empty() },
                ),
            },
        },
    }
}

proof fn lemma_trial_failed(
    entries: Seq<JournalEntry>,
    w: Window,
    index: Seq<AccountBrief>,
    places: Seq<int>,
    zero: Amount,
    n: nat,
    m: nat,
)
    requires
        n <= m,
        trial_rows(entries, w, index, places, zero, n) is Err,
    ensures
        trial_rows(entries, w, index, places, zero, m) == trial_rows(entries, w, index, places, zero, n),
    decreases m - n,
{
    if n < m {
        lemma_trial_failed(entries, w, index, places, zero, n, (m - 1) as nat);
    }
}

fn trial_report_row(entries: &[JournalEntry], w: &Window, a: &AccountBrief, zero: Money) -> (r: Result<Option<ReportRow>>)
    ensures
        match r {
            Ok(x) => trial_row(entries@, *w, *a, zero@) == Ok::<Option<Shown>, Refusal>(
                match x {
                    Some(y) => Some(y@),
                    None => None,
                },
            ),
            Err(e) => trial_row(entries@, *w, *a, zero@) == Err::<Option<Shown>, Refusal>(e@),
        },
{
    if a.placeholder {
        return Ok(None);
    }
    let (q, v) = match account_sums(entries, w, a, zero) {
        Ok(x) => x,
        Err(e) => {
            return Err(e);
        },
    };
    if q.is_zero() && v.is_zero() {
        return Ok(None);
    }
    let mut r = match natural_report_row(a, q, v, zero) {
        Ok(x) => x,
        Err(e) => {
            return Err(e);
        },
    };
    if v.is_negative() {
        r.credit = match v.checked_neg() {
            Ok(m) => m,
            Err(e) => {
                return Err(e);
            },
        };
    } else {
        r.debit = v;
    }
    Ok(Some(r))
}

fn debit_amounts(rows: &Vec<ReportRow>) -> (r: Vec<Money>)
    ensures
        amounts_of(r@) == debits(shown(rows@)),
{
    let mut r: Vec<Money> = Vec::new();
    let mut i: usize = 0;
    while i < rows.len()
        invariant
            i <= rows.len(),
            r@.len() == i,
            forall|k: int| 0 <= k < i ==> (#[trigger] r@[k]) == rows@[k].debit,
        decreases rows.len() - i,
    {
        r.push(rows[i].debit);
        i = i + 1;
    }
    assert(amounts_of(r@) =~= debits(shown(rows@)));
    r
}

fn credit_amounts(rows: &Vec<ReportRow>) -> (r: Vec<Money>)
    ensures
        amounts_of(r@) == credits(shown(rows@)),
{
    let mut r: Vec<Money> = Vec::new();
    let mut i: usize = 0;
    while i < rows.len()
        invariant
            i <= rows.len(),
            r@.len() == i,
            forall|k: int| 0 <= k < i ==> (#[trigger] r@[k]) == rows@[k].credit,
        decreases rows.len() - i,
    {
        r.push(rows[i].credit);
        i = i + 1;
    }
    assert(amounts_of(r@) =~= credits(shown(rows@)));
    r
}

/// Takes the totals of a report together; the net is what is left of the first.
fn close_report(rows: Vec<ReportRow>, debit: Result<Money>, credit: Result<Money>, currency: &str) -> (r: Result<Report>)
    ensures
        match r {
            Ok(x) => closed_report(shown(rows@), seen(debit), seen(credit), currency@) == Ok::<ShownReport, Refusal>(x@),
            Err(e) => closed_report(shown(rows@), seen(debit), seen(credit), currency@) == Err::<ShownReport, Refusal>(e@),
        },
{
    let d = match debit {
        Ok(m) => m,
        Err(e) => {
            return Err(e);
        },
    };
    let c = match credit {
        Ok(m) => m,
        Err(e) => {
            return Err(e);
        },
    };
    let net = match d.checked_sub(c) {
        Ok(m) => m,
        Err(e) => {
            return Err(e);
        },
    };
    let r = Report { rows, total_debit: d, total_credit: c, net, currency: own(currency), summary: Vec::new() };
    assert(r@.summary =~= Seq::<Shown>::empty());
    Ok(r)
}

pub open spec fn seen(m: Result<Money>) -> std::result::Result<Amount, Refusal> {
    match m {
        Ok(x) => Ok(x@),
        Err(e) => Err(e@),
    }
}

pub fn trial_balance(
    entities: &[Entity],
    commodities: &[Commodity],
    index: &[AccountBrief],
    entries: &[JournalEntry],
    entity_id: i64,
    as_of: Option<Date>,
) -> (r: Result<Report>)
    ensures
        match r {
            Ok(x) => trial_of(entities@, commodities@, index@, entries@, entity_id, as_of) == Ok::<ShownReport, Refusal>(x@),
            Err(e) => trial_of(entities@, commodities@, index@, entries@, entity_id, as_of) == Err::<ShownReport, Refusal>(e@),
        },
{
    let entity = match get_entity(entities, entity_id) {
        Ok(e) => e,
        Err(e) => {
            return Err(e);
        },
    };
    let zero = match unit(commodities, entity.currency.as_str()) {
        Ok(m) => m,
        Err(e) => {
            return Err(e);
        },
    };
    let w = Window { entity_id: Some(entity_id), from: None, to: as_of, before: None, drafts: false };
    let places = ordered(index, Some(entity_id));
    let ghost ps = report_places(index@, Some(entity_id));
    let mut rows: Vec<ReportRow> = Vec::new();
    let mut i: usize = 0;
    assert(shown(rows@) =~= Seq::<Shown>::empty());
    while i < places.len()
        invariant
            i <= places.len(),
            as_ints(places@) == ps,
            forall|k: int| 0 <= k < places@.len() ==> (#[trigger] places@[k]) < index@.len(),
            trial_rows(entries@, w, index@, ps, zero@, i as nat) == Ok::<Seq<Shown>, Refusal>(shown(rows@)),
            ps == report_places(index@, Some(entity_id)),
            w == trial_window(entity_id, as_of),
            entity_place(entities@, entity_id, 0) is Some,
            nothing_in(commodities@, entities@[entity_place(entities@, entity_id, 0)->0].currency@) == Ok::<Amount, Refusal>(zero@),
        decreases places.len() - i,
    {
        assert(ps[i as int] == places@[i as int] as int);
        match trial_report_row(entries, &w, &index[places[i]], zero) {
            Ok(Some(x)) => {
                let ghost before = shown(rows@);
                rows.push(x);
                assert(shown(rows@) =~= before.push(x@));
            },
            Ok(None) => {},
            Err(e) => {
                proof {
                    lemma_trial_failed(entries@, w, index@, ps, zero@, (i + 1) as nat, ps.len());
                }
                return Err(e);
            },
        }
        i = i + 1;
    }
    assert(ps.len() == places@.len());
    let debit = sum(zero, &debit_amounts(&rows));
    let credit = sum(zero, &credit_amounts(&rows));
    close_report(rows, debit, credit, entity.currency.as_str())
}

/// The last row of an account among the first `n`.
pub open spec fn row_place(rows: Seq<Shown>, id: i64, n: nat) -> Option<int>
    decreases n,
{
    if n == 0 {
        None
    } else if rows[n - 1].account_id == id {
        Some(n - 1)
    } else {
        row_place(rows, id, (n - 1) as nat)
    }
}

/// The account above the account `id`.
pub open spec fn parent_of(index: Seq<AccountBrief>, id: i64, from: int) -> Option<i64>
    decreases index.len() - from,
{
    if from < 0 || from >= index.len() {
        None
    } else if index[from].id == id {
        index[from].parent_id
    } else {
        parent_of(index, id, from + 1)
    }
}

/// What a row adds to those above it.
pub struct Leaf {
    pub quantity: Amount,
    pub amount: Amount,
    pub market: Option<Amount>,
}

/// The market value of a row with that of a row below it. `total` is the row's own amount with
/// that of the row below.
pub open spec fn market_with(r: Shown, total: Amount, leaf: Leaf) -> std::result::Result<Option<Amount>, Refusal> {
    match (r.market, leaf.market) {
        (Some(m), v) => match plus(
            m,
            match v {
                Some(x) => x,
                None => leaf.amount,
            },
        ) {
            Ok(x) => Ok(Some(x)),
            Err(e) => Err(e),
        },
        (None, Some(v)) => match minus(v, leaf.amount) {
            Err(e) => Err(e),
            Ok(gain) => match plus(total, gain) {
                Ok(x) => Ok(Some(x)),
                Err(e) => Err(e),
            },
        },
        (None, None) => Ok(None),
    }
}

/// A row with one from below it. Mixed-commodity parents retain only matching quantities, while
/// their book and market amounts share the reporting unit.
pub open spec fn row_with(r: Shown, leaf: Leaf) -> std::result::Result<Shown, Refusal> {
    match plus(r.amount, leaf.amount) {
        Err(e) => Err(e),
        Ok(amount) => match (if r.quantity.commodity == leaf.quantity.commodity {
            plus(r.quantity, leaf.quantity)
        } else {
            Ok(r.quantity)
        }) {
            Err(e) => Err(e),
            Ok(quantity) => match market_with(r, amount, leaf) {
                Err(e) => Err(e),
                Ok(market) => Ok(Shown { amount, quantity, market, ..r }),
            },
        },
    }
}

/// The rows after a leaf was added to every row above it.
pub open spec fn climbed(rows: Seq<Shown>, index: Seq<AccountBrief>, leaf: Leaf, parent: Option<i64>, steps: nat) -> std::result::Result<
    Seq<Shown>,
    Refusal,
>
    decreases steps,
{
    match parent {
        None => Ok(rows),
        Some(id) => if steps == 0 {
            Ok(rows)
        } else {
            match row_place(rows, id, rows.len()) {
                None => climbed(rows, index, leaf, parent_of(index, id, 0), (steps - 1) as nat),
                Some(i) => match row_with(rows[i], leaf) {
                    Err(e) => Err(e),
                    Ok(r) => climbed(rows.update(i, r), index, leaf, parent_of(index, id, 0), (steps - 1) as nat),
                },
            }
        },
    }
}

pub open spec fn leaf_of(r: Shown) -> Leaf {
    Leaf { quantity: r.quantity, amount: r.amount, market: r.market }
}

/// The rows after the first `n` were added to those above them.
pub open spec fn rolled_up(rows: Seq<Shown>, index: Seq<AccountBrief>, n: nat) -> std::result::Result<Seq<Shown>, Refusal>
    decreases n,
{
    if n == 0 {
        Ok(rows)
    } else {
        match rolled_up(rows, index, (n - 1) as nat) {
            Err(e) => Err(e),
            Ok(v) => climbed(v, index, leaf_of(rows[n - 1]), parent_of(index, rows[n - 1].account_id, 0), index.len()),
        }
    }
}

fn find_row(rows: &Vec<ReportRow>, id: i64) -> (r: Option<usize>)
    ensures
        match r {
            Some(i) => i < rows@.len() && row_place(shown(rows@), id, rows@.len()) == Some(i as int),
            None => row_place(shown(rows@), id, rows@.len()) is None,
        },
{
    let mut n: usize = rows.len();
    while n > 0
        invariant
            n <= rows.len(),
            row_place(shown(rows@), id, rows@.len()) == row_place(shown(rows@), id, n as nat),
        decreases n,
    {
        if rows[n - 1].account_id == id {
            return Some(n - 1);
        }
        n = n - 1;
    }
    None
}

fn find_parent(index: &[AccountBrief], id: i64) -> (r: Option<i64>)
    ensures
        r == parent_of(index@, id, 0),
{
    let mut i: usize = 0;
    while i < index.len()
        invariant
            i <= index.len(),
            parent_of(index@, id, 0) == parent_of(index@, id, i as int),
        decreases index.len() - i,
    {
        if index[i].id == id {
            return index[i].parent_id;
        }
        i = i + 1;
    }
    None
}

/// What a row adds to those above it.
#[derive(Debug, Clone, Copy)]
pub struct Part {
    pub quantity: Money,
    pub amount: Money,
    pub market: Option<Money>,
}

impl View for Part {
    type V = Leaf;

    open spec fn view(&self) -> Leaf {
        Leaf { quantity: self.quantity@, amount: self.amount@, market: amount_in(self.market) }
    }
}

fn add_market(market: Option<Money>, total: Money, part: Part, Ghost(r): Ghost<Shown>) -> (x: Result<Option<Money>>)
    requires
        r.market == amount_in(market),
    ensures
        match x {
            Ok(m) => market_with(r, total@, part@) == Ok::<Option<Amount>, Refusal>(amount_in(m)),
            Err(e) => market_with(r, total@, part@) == Err::<Option<Amount>, Refusal>(e@),
        },
{
    match (market, part.market) {
        (Some(m), v) => {
            let more = match v {
                Some(x) => x,
                None => part.amount,
            };
            match m.checked_add(more) {
                Ok(x) => Ok(Some(x)),
                Err(e) => Err(e),
            }
        },
        (None, Some(v)) => match v.checked_sub(part.amount) {
            Ok(gain) => match total.checked_add(gain) {
                Ok(x) => Ok(Some(x)),
                Err(e) => Err(e),
            },
            Err(e) => Err(e),
        },
        (None, None) => Ok(None),
    }
}

fn add_part(r: &ReportRow, part: Part) -> (x: Result<(Money, Money, Option<Money>)>)
    ensures
        match x {
            Ok(v) => row_with(r@, part@) == Ok::<Shown, Refusal>(
                (Shown { amount: v.0@, quantity: v.1@, market: amount_in(v.2), ..r@ }),
            ),
            Err(e) => row_with(r@, part@) == Err::<Shown, Refusal>(e@),
        },
{
    let amount = match r.amount.checked_add(part.amount) {
        Ok(m) => m,
        Err(e) => {
            return Err(e);
        },
    };
    let quantity = if same(r.quantity.commodity().as_str(), part.quantity.commodity().as_str()) {
        match r.quantity.checked_add(part.quantity) {
            Ok(m) => m,
            Err(e) => {
                return Err(e);
            },
        }
    } else {
        r.quantity
    };
    match add_market(r.market_value, amount, part, Ghost(r@)) {
        Ok(market) => Ok((amount, quantity, market)),
        Err(e) => Err(e),
    }
}

fn climb(rows: &mut Vec<ReportRow>, index: &[AccountBrief], part: Part, parent: Option<i64>) -> (r: Result<()>)
    ensures
        match r {
            Ok(_) => climbed(shown(old(rows)@), index@, part@, parent, index@.len()) == Ok::<Seq<Shown>, Refusal>(shown(final(rows)@)),
            Err(e) => climbed(shown(old(rows)@), index@, part@, parent, index@.len()) == Err::<Seq<Shown>, Refusal>(e@),
        },
        final(rows)@.len() == old(rows)@.len(),
{
    let ghost first = shown(rows@);
    let ghost goal = climbed(first, index@, part@, parent, index@.len());
    let ghost size = rows@.len();
    let mut cur: Option<i64> = parent;
    let mut steps: usize = index.len();
    loop
        invariant
            steps <= index.len(),
            rows@.len() == size == old(rows)@.len(),
            first == shown(old(rows)@),
            goal == climbed(first, index@, part@, parent, index@.len()),
            goal == climbed(shown(rows@), index@, part@, cur, steps as nat),
        decreases steps,
    {
        let id = match cur {
            None => {
                return Ok(());
            },
            Some(id) => id,
        };
        if steps == 0 {
            return Ok(());
        }
        if let Some(i) = find_row(rows, id) {
            let ghost before = shown(rows@);
            assert(before[i as int] == rows@[i as int]@);
            match add_part(&rows[i], part) {
                Ok((amount, quantity, market)) => {
                    rows[i].amount = amount;
                    rows[i].quantity = quantity;
                    rows[i].market_value = market;
                    assert(shown(rows@) =~= before.update(i as int, rows@[i as int]@));
                },
                Err(e) => {
                    return Err(e);
                },
            }
        }
        cur = find_parent(index, id);
        steps = steps - 1;
    }
}

proof fn lemma_roll_failed(rows: Seq<Shown>, index: Seq<AccountBrief>, n: nat, m: nat)
    requires
        n <= m,
        rolled_up(rows, index, n) is Err,
    ensures
        rolled_up(rows, index, m) == rolled_up(rows, index, n),
    decreases m - n,
{
    if n < m {
        lemma_roll_failed(rows, index, n, (m - 1) as nat);
    }
}

/// Adds every row to those above it.
fn rollup(rows: &mut Vec<ReportRow>, index: &[AccountBrief]) -> (r: Result<()>)
    ensures
        match r {
            Ok(_) => rolled_up(shown(old(rows)@), index@, old(rows)@.len()) == Ok::<Seq<Shown>, Refusal>(shown(final(rows)@)),
            Err(e) => rolled_up(shown(old(rows)@), index@, old(rows)@.len()) == Err::<Seq<Shown>, Refusal>(e@),
        },
{
    let ghost first = shown(rows@);
    let mut parts: Vec<(i64, Part)> = Vec::new();
    let mut i: usize = 0;
    while i < rows.len()
        invariant
            i <= rows.len() == first.len(),
            first == shown(rows@),
            parts@.len() == i,
            forall|k: int| 0 <= k < i ==> (#[trigger] parts@[k]).0 == first[k].account_id && parts@[k].1@ == leaf_of(first[k]),
        decreases rows.len() - i,
    {
        let part = Part { quantity: rows[i].quantity, amount: rows[i].amount, market: rows[i].market_value };
        assert(first[i as int] == rows@[i as int]@);
        parts.push((rows[i].account_id, part));
        i = i + 1;
    }
    let mut n: usize = 0;
    while n < parts.len()
        invariant
            n <= parts.len() == first.len(),
            first == shown(old(rows)@),
            forall|k: int| 0 <= k < parts@.len() ==> (#[trigger] parts@[k]).0 == first[k].account_id && parts@[k].1@ == leaf_of(first[k]),
            rolled_up(first, index@, n as nat) == Ok::<Seq<Shown>, Refusal>(shown(rows@)),
        decreases parts.len() - n,
    {
        let (id, part) = parts[n];
        if let Err(e) = climb(rows, index, part, find_parent(index, id)) {
            proof {
                lemma_roll_failed(first, index@, (n + 1) as nat, first.len());
            }
            return Err(e);
        }
        n = n + 1;
    }
    Ok(())
}

pub open spec fn is_flow(t: AccountType) -> bool {
    t == AccountType::Income || t == AccountType::Expense
}

/// The rows of the income statement for the first `n` places, before they are rolled up.
pub open spec fn flow_rows(
    entries: Seq<JournalEntry>,
    w: Window,
    index: Seq<AccountBrief>,
    places: Seq<int>,
    zero: Amount,
    n: nat,
) -> std::result::Result<Seq<Shown>, Refusal>
    decreases n,
{
    if n == 0 {
        Ok(Seq::empty())
    } else {
        match flow_rows(entries, w, index, places, zero, (n - 1) as nat) {
            Err(e) => Err(e),
            Ok(rows) => {
                let a = index[places[n - 1]];
                if !is_flow(a.account_type) {
                    Ok(rows)
                } else {
                    match holdings(entries, w, a, zero) {
                        Err(e) => Err(e),
                        Ok((q, v)) => match natural_row(a, q, v, zero) {
                            Err(e) => Err(e),
                            Ok(r) => Ok(rows.push(r)),
                        },
                    }
                }
            },
        }
    }
}

/// The amounts of the top rows of a type among the first `n`.
pub open spec fn top_amounts(rows: Seq<Shown>, t: AccountType, n: nat) -> Seq<Amount>
    decreases n,
{
    if n == 0 {
        Seq::empty()
    } else {
        let rest = top_amounts(rows, t, (n - 1) as nat);
        if rows[n - 1].depth == 0 && rows[n - 1].account_type == t {
            rest.push(rows[n - 1].amount)
        } else {
            rest
        }
    }
}

/// The rows among the first `n` that show something.
pub open spec fn moved_rows(rows: Seq<Shown>, n: nat) -> Seq<Shown>
    decreases n,
{
    if n == 0 {
        Seq::empty()
    } else {
        let rest = moved_rows(rows, (n - 1) as nat);
        let r = rows[n - 1];
        if r.amount.minor != 0 || r.quantity.minor != 0 || (r.market matches Some(m) && m.minor != 0) {
            rest.push(r)
        } else {
            rest
        }
    }
}

fn top_values(rows: &Vec<ReportRow>, t: AccountType) -> (r: Vec<Money>)
    ensures
        amounts_of(r@) == top_amounts(shown(rows@), t, rows@.len()),
{
    let ghost all = shown(rows@);
    let mut r: Vec<Money> = Vec::new();
    let mut i: usize = 0;
    assert(amounts_of(r@) =~= Seq::<Amount>::empty());
    while i < rows.len()
        invariant
            i <= rows.len(),
            all == shown(rows@),
            amounts_of(r@) == top_amounts(all, t, i as nat),
        decreases rows.len() - i,
    {
        assert(all[i as int] == rows@[i as int]@);
        if rows[i].depth == 0 && rows[i].account_type == t {
            let ghost before = amounts_of(r@);
            r.push(rows[i].amount);
            assert(amounts_of(r@) =~= before.push(rows@[i as int].amount@));
        }
        i = i + 1;
    }
    r
}

fn keep_moved(rows: Vec<ReportRow>) -> (r: Vec<ReportRow>)
    ensures
        shown(r@) == moved_rows(shown(rows@), rows@.len()),
{
    let ghost all = shown(rows@);
    let mut r: Vec<ReportRow> = Vec::new();
    let mut i: usize = 0;
    assert(shown(r@) =~= Seq::<Shown>::empty());
    while i < rows.len()
        invariant
            i <= rows.len(),
            all == shown(rows@),
            shown(r@) == moved_rows(all, i as nat),
        decreases rows.len() - i,
    {
        let x = &rows[i];
        assert(all[i as int] == rows@[i as int]@);
        let market = match x.market_value {
            Some(m) => !m.is_zero(),
            None => false,
        };
        if !x.amount.is_zero() || !x.quantity.is_zero() || market {
            let ghost before = shown(r@);
            let y = copy_row(x);
            r.push(y);
            assert(shown(r@) =~= before.push(y@));
        }
        i = i + 1;
    }
    r
}

fn copy_row(x: &ReportRow) -> (r: ReportRow)
    ensures
        r@ == x@,
{
    ReportRow {
        account_id: x.account_id,
        path: own(x.path.as_str()),
        name: own(x.name.as_str()),
        account_type: x.account_type,
        depth: x.depth,
        placeholder: x.placeholder,
        quantity: x.quantity,
        amount: x.amount,
        debit: x.debit,
        credit: x.credit,
        market_value: x.market_value,
    }
}

pub open spec fn flow_window(entity_id: i64, from: Option<Date>, to: Option<Date>) -> Window {
    Window { entity_id: Some(entity_id), from, to, before: None, drafts: false }
}

/// The income statement of an entity, or why there is none.
pub open spec fn income_of(
    entities: Seq<Entity>,
    commodities: Seq<Commodity>,
    index: Seq<AccountBrief>,
    entries: Seq<JournalEntry>,
    entity_id: i64,
    from: Option<Date>,
    to: Option<Date>,
) -> std::result::Result<ShownReport, Refusal> {
    match entity_place(entities, entity_id, 0) {
        None => Err(Refusal::NotFound("entity "@ + int_text(entity_id as int))),
        Some(j) => match nothing_in(commodities, entities[j].currency@) {
            Err(e) => Err(e),
            Ok(zero) => {
                let places = report_places(index, Some(entity_id));
                match flow_rows(entries, flow_window(entity_id, from, to), index, places, zero, places.len()) {
                    Err(e) => Err(e),
                    Ok(leaves) => match rolled_up(leaves, index, leaves.len()) {
                        Err(e) => Err(e),
                        Ok(rows) => earned(rows, zero, entities[j].currency@),
                    },
                }
            },
        },
    }
}

/// Income and expenses of rolled-up rows, and what is left of the income.
pub open spec fn earned(rows: Seq<Shown>, zero: Amount, currency: Seq<char>) -> std::result::Result<ShownReport, Refusal> {
    match sum_in(zero, top_amounts(rows, AccountType::Income, rows.len())) {
        Err(e) => Err(e),
        Ok(income) => match sum_in(zero, top_amounts(rows, AccountType::Expense, rows.len())) {
            Err(e) => Err(e),
            Ok(expenses) => match minus(income, expenses) {
                Err(e) => Err(e),
                Ok(net) => Ok(
                    ShownReport {
                        rows: moved_rows(rows, rows.len()),
                        total_debit: expenses,
                        total_credit: income,
                        net,
                        currency,
                        summary: Seq::empty(),
                    },
                ),
            },
        },
    }
}

proof fn lemma_flow_failed(
    entries: Seq<JournalEntry>,
    w: Window,
    index: Seq<AccountBrief>,
    places: Seq<int>,
    zero: Amount,
    n: nat,
    m: nat,
)
    requires
        n <= m,
        flow_rows(entries, w, index, places, zero, n) is Err,
    ensures
        flow_rows(entries, w, index, places, zero, m) == flow_rows(entries, w, index, places, zero, n),
    decreases m - n,
{
    if n < m {
        lemma_flow_failed(entries, w, index, places, zero, n, (m - 1) as nat);
    }
}

fn flow_report_rows(entries: &[JournalEntry], w: &Window, index: &[AccountBrief], entity_id: i64, zero: Money) -> (r: Result<Vec<ReportRow>>)
    ensures
        ({
            let ps = report_places(index@, Some(entity_id));
            match r {
                Ok(x) => flow_rows(entries@, *w, index@, ps, zero@, ps.len()) == Ok::<Seq<Shown>, Refusal>(shown(x@)),
                Err(e) => flow_rows(entries@, *w, index@, ps, zero@, ps.len()) == Err::<Seq<Shown>, Refusal>(e@),
            }
        }),
{
    let places = ordered(index, Some(entity_id));
    let ghost ps = report_places(index@, Some(entity_id));
    let mut rows: Vec<ReportRow> = Vec::new();
    let mut i: usize = 0;
    assert(shown(rows@) =~= Seq::<Shown>::empty());
    while i < places.len()
        invariant
            i <= places.len(),
            as_ints(places@) == ps,
            ps == report_places(index@, Some(entity_id)),
            forall|k: int| 0 <= k < places@.len() ==> (#[trigger] places@[k]) < index@.len(),
            flow_rows(entries@, *w, index@, ps, zero@, i as nat) == Ok::<Seq<Shown>, Refusal>(shown(rows@)),
        decreases places.len() - i,
    {
        assert(ps[i as int] == places@[i as int] as int);
        let a = &index[places[i]];
        if matches!(a.account_type, AccountType::Income | AccountType::Expense) {
            let (q, v) = match account_sums(entries, w, a, zero) {
                Ok(x) => x,
                Err(e) => {
                    proof {
                        lemma_flow_failed(entries@, *w, index@, ps, zero@, (i + 1) as nat, ps.len());
                    }
                    return Err(e);
                },
            };
            match natural_report_row(a, q, v, zero) {
                Ok(x) => {
                    let ghost before = shown(rows@);
                    rows.push(x);
                    assert(shown(rows@) =~= before.push(x@));
                },
                Err(e) => {
                    proof {
                        lemma_flow_failed(entries@, *w, index@, ps, zero@, (i + 1) as nat, ps.len());
                    }
                    return Err(e);
                },
            }
        }
        i = i + 1;
    }
    assert(ps.len() == places@.len());
    Ok(rows)
}

pub fn income_statement(
    entities: &[Entity],
    commodities: &[Commodity],
    index: &[AccountBrief],
    entries: &[JournalEntry],
    entity_id: i64,
    from: Option<Date>,
    to: Option<Date>,
) -> (r: Result<Report>)
    ensures
        match r {
            Ok(x) => income_of(entities@, commodities@, index@, entries@, entity_id, from, to) == Ok::<ShownReport, Refusal>(x@),
            Err(e) => income_of(entities@, commodities@, index@, entries@, entity_id, from, to) == Err::<ShownReport, Refusal>(e@),
        },
{
    let entity = match get_entity(entities, entity_id) {
        Ok(e) => e,
        Err(e) => {
            return Err(e);
        },
    };
    let zero = match unit(commodities, entity.currency.as_str()) {
        Ok(m) => m,
        Err(e) => {
            return Err(e);
        },
    };
    let w = Window { entity_id: Some(entity_id), from, to, before: None, drafts: false };
    let mut rows = match flow_report_rows(entries, &w, index, entity_id, zero) {
        Ok(x) => x,
        Err(e) => {
            return Err(e);
        },
    };
    if let Err(e) = rollup(&mut rows, index) {
        return Err(e);
    }
    let income = match sum(zero, &top_values(&rows, AccountType::Income)) {
        Ok(m) => m,
        Err(e) => {
            return Err(e);
        },
    };
    let expenses = match sum(zero, &top_values(&rows, AccountType::Expense)) {
        Ok(m) => m,
        Err(e) => {
            return Err(e);
        },
    };
    let net = match income.checked_sub(expenses) {
        Ok(m) => m,
        Err(e) => {
            return Err(e);
        },
    };
    let rows = keep_moved(rows);
    let r = Report {
        rows,
        total_debit: expenses,
        total_credit: income,
        net,
        currency: own(entity.currency.as_str()),
        summary: Vec::new(),
    };
    assert(r@.summary =~= Seq::<Shown>::empty());
    Ok(r)
}

/// An amount at a rate, rounded to the unit of `zero`.
pub open spec fn converted(value: Amount, rate: Num, zero: Amount) -> std::result::Result<Amount, Refusal> {
    match multiplied(normal((value.minor, value.precision)), rate) {
        None => Err(Refusal::Invalid("report conversion overflow"@)),
        Some(n) => amount_of_major(n, zero.commodity, zero.precision as int),
    }
}

fn convert(value: Money, rate: Decimal, zero: Money) -> (r: Result<Money>)
    ensures
        match r {
            Ok(m) => converted(value@, rate@, zero@) == Ok::<Amount, Refusal>(m@),
            Err(e) => converted(value@, rate@, zero@) == Err::<Amount, Refusal>(e@),
        },
{
    match value.major().checked_mul(rate) {
        None => Err(invalid("report conversion overflow")),
        Some(n) => Money::from_major(n, zero.commodity().as_str(), zero.precision()),
    }
}

pub open spec fn synthetic(id: i64, name: Seq<char>, path: Seq<char>, amount: Amount, zero: Amount) -> Shown {
    Shown {
        account_id: id,
        path,
        name,
        account_type: AccountType::Equity,
        depth: 0,
        placeholder: false,
        quantity: amount,
        amount,
        debit: zero,
        credit: zero,
        market: None,
    }
}

fn synthetic_row(id: i64, name: &str, path: &str, amount: Money, zero: Money) -> (r: ReportRow)
    ensures
        r@ == synthetic(id, name@, path@, amount@, zero@),
{
    ReportRow {
        account_id: id,
        path: own(path),
        name: own(name),
        account_type: AccountType::Equity,
        depth: 0,
        placeholder: false,
        quantity: amount,
        amount,
        debit: zero,
        credit: zero,
        market_value: None,
    }
}

/// Whether the totals of the first `n` accounts are all zero, or why they are not known.
pub open spec fn settled(entries: Seq<JournalEntry>, w: Window, index: Seq<AccountBrief>, n: nat) -> std::result::Result<bool, Refusal>
    decreases n,
{
    if n == 0 {
        Ok(true)
    } else {
        match settled(entries, w, index, (n - 1) as nat) {
            Err(e) => Err(e),
            Ok(b) => {
                let id = index[n - 1].id;
                match (account_total(entries, w, id, false, entries.len()), account_total(entries, w, id, true, entries.len())) {
                    (Some(q), Some(v)) => Ok(b && q == 0 && v == 0),
                    _ => Err(Refusal::Invalid("account total is out of range"@)),
                }
            },
        }
    }
}

proof fn lemma_settled_failed(entries: Seq<JournalEntry>, w: Window, index: Seq<AccountBrief>, n: nat, m: nat)
    requires
        n <= m,
        settled(entries, w, index, n) is Err,
    ensures
        settled(entries, w, index, m) == settled(entries, w, index, n),
    decreases m - n,
{
    if n < m {
        lemma_settled_failed(entries, w, index, n, (m - 1) as nat);
    }
}

fn is_settled(entries: &[JournalEntry], w: &Window, index: &[AccountBrief]) -> (r: Result<bool>)
    ensures
        match r {
            Ok(b) => settled(entries@, *w, index@, index@.len()) == Ok::<bool, Refusal>(b),
            Err(e) => settled(entries@, *w, index@, index@.len()) == Err::<bool, Refusal>(e@),
        },
{
    let mut all = true;
    let mut i: usize = 0;
    while i < index.len()
        invariant
            i <= index.len(),
            settled(entries@, *w, index@, i as nat) == Ok::<bool, Refusal>(all),
        decreases index.len() - i,
    {
        match (total_on(entries, w, index[i].id, false), total_on(entries, w, index[i].id, true)) {
            (Some(q), Some(v)) => {
                all = all && q == 0 && v == 0;
            },
            _ => {
                proof {
                    lemma_settled_failed(entries@, *w, index@, (i + 1) as nat, index@.len());
                }
                return Err(invalid("account total is out of range"));
            },
        }
        i = i + 1;
    }
    Ok(all)
}

/// What is fixed while the books of an entity are taken into a balance sheet.
pub struct Frame {
    pub entity: Entity,
    pub prices: Seq<Price>,
    pub code: Seq<char>,
    pub on: Date,
    pub w: Window,
    pub functional: Amount,
    pub zero: Amount,
}

pub open spec fn missing_rate(f: Frame) -> Seq<char> {
    glued(
        seq![
            "missing exchange rate from "@,
            f.entity.currency@,
            " to "@,
            f.code,
            " on "@,
            iso_text(f.on),
            " for entity "@,
            f.entity.name@,
        ],
    )
}

/// The rate from an entity's currency to that of the report, which is not asked for where there
/// is nothing to convert.
pub open spec fn entity_rate(entries: Seq<JournalEntry>, index: Seq<AccountBrief>, f: Frame) -> std::result::Result<Num, Refusal> {
    match settled(entries, f.w, index, index.len()) {
        Err(e) => Err(e),
        Ok(none) => if f.entity.currency@ == f.code || none {
            Ok((1, 0))
        } else {
            match rate_of(f.prices, uppered(trimmed(f.entity.currency@)), uppered(trimmed(f.code)), f.on) {
                Some(r) => Ok(r.0),
                None => Err(Refusal::Invalid(missing_rate(f))),
            }
        },
    }
}

/// The market value of a holding, where there is a price.
pub open spec fn market_of(f: Frame, rate: Num, a: AccountBrief, q: Amount) -> std::result::Result<Option<Amount>, Refusal> {
    if a.subtype@ != "holding"@ || q.minor == 0 {
        Ok(None)
    } else {
        match rate_of(f.prices, uppered(trimmed(a.commodity@)), uppered(trimmed(f.entity.currency@)), f.on) {
            None => Ok(None),
            Some(price) => match multiplied(price.0, rate) {
                None => Err(Refusal::Invalid("report conversion overflow"@)),
                Some(p) => match converted(q, p, f.zero) {
                    Err(e) => Err(e),
                    Ok(v) => match natural(v, a.account_type) {
                        Err(e) => Err(e),
                        Ok(m) => Ok(Some(m)),
                    },
                },
            },
        }
    }
}

/// The rows of balance sheet accounts, and what the other accounts earned.
pub struct Sheet {
    pub rows: Seq<Shown>,
    pub profits: Seq<Amount>,
}

/// A sheet with one more account. Every account is converted and rounded before it is added up,
/// so that totals equal the rows that are shown.
pub open spec fn sheet_with(s: Sheet, entries: Seq<JournalEntry>, f: Frame, rate: Num, a: AccountBrief) -> std::result::Result<
    Sheet,
    Refusal,
> {
    match holdings(entries, f.w, a, f.functional) {
        Err(e) => Err(e),
        Ok((q, v)) => match converted(v, rate, f.zero) {
            Err(e) => Err(e),
            Ok(amount) => if is_flow(a.account_type) {
                match opposite(amount) {
                    Err(e) => Err(e),
                    Ok(p) => Ok(Sheet { rows: s.rows, profits: s.profits.push(p) }),
                }
            } else {
                match natural_row(a, q, amount, f.zero) {
                    Err(e) => Err(e),
                    Ok(r) => match market_of(f, rate, a, q) {
                        Err(e) => Err(e),
                        Ok(market) => Ok(Sheet { rows: s.rows.push(Shown { market, ..r }), profits: s.profits }),
                    },
                }
            },
        },
    }
}

pub open spec fn sheet_after(
    entries: Seq<JournalEntry>,
    f: Frame,
    rate: Num,
    index: Seq<AccountBrief>,
    places: Seq<int>,
    n: nat,
) -> std::result::Result<Sheet, Refusal>
    decreases n,
{
    if n == 0 {
        Ok(Sheet { rows: Seq::empty(), profits: Seq::empty() })
    } else {
        match sheet_after(entries, f, rate, index, places, (n - 1) as nat) {
            Err(e) => Err(e),
            Ok(s) => sheet_with(s, entries, f, rate, index[places[n - 1]]),
        }
    }
}

/// What the top assets among the first `n` rows are worth: at market value where there is one.
pub open spec fn top_worths(rows: Seq<Shown>, n: nat) -> Seq<Amount>
    decreases n,
{
    if n == 0 {
        Seq::empty()
    } else {
        let rest = top_worths(rows, (n - 1) as nat);
        let r = rows[n - 1];
        if r.depth == 0 && r.account_type == AccountType::Asset {
            rest.push(
                match r.market {
                    Some(m) => m,
                    None => r.amount,
                },
            )
        } else {
            rest
        }
    }
}

/// What the market values of the top rows among the first `n` exceed their book values by.
pub open spec fn top_gains(rows: Seq<Shown>, n: nat) -> std::result::Result<Seq<Amount>, Refusal>
    decreases n,
{
    if n == 0 {
        Ok(Seq::empty())
    } else {
        match top_gains(rows, (n - 1) as nat) {
            Err(e) => Err(e),
            Ok(rest) => {
                let r = rows[n - 1];
                match r.market {
                    Some(m) => if r.depth == 0 {
                        match minus(m, r.amount) {
                            Err(e) => Err(e),
                            Ok(g) => Ok(rest.push(g)),
                        }
                    } else {
                        Ok(rest)
                    },
                    None => Ok(rest),
                }
            },
        }
    }
}

/// What the books of an entity add to a balance sheet: its rows, and its line in the summary.
pub struct Booked {
    pub rows: Seq<Shown>,
    pub total: Shown,
}

pub open spec fn closed_books(
    rolled: Seq<Shown>,
    f: Frame,
    retained: Amount,
    assets: Amount,
    liabilities: Amount,
    unrealised: Amount,
) -> std::result::Result<Booked, Refusal> {
    let kept = moved_rows(rolled, rolled.len()).push(
        synthetic(
            0,
            "Retained earnings"@,
            "Equity:Retained earnings ("@ + f.entity.name@ + ")"@,
            retained,
            f.zero,
        ),
    );
    let rows = if unrealised.minor != 0 {
        kept.push(
            synthetic(
                0,
                "Unrealised gains"@,
                "Equity:Unrealised gains ("@ + f.entity.name@ + ")"@,
                unrealised,
                f.zero,
            ),
        )
    } else {
        kept
    };
    match minus(assets, liabilities) {
        Err(e) => Err(e),
        Ok(net) => Ok(
            Booked {
                rows,
                total: Shown {
                    debit: assets,
                    credit: liabilities,
                    ..synthetic(f.entity.id, f.entity.name@, f.entity.name@, net, f.zero)
                },
            },
        ),
    }
}

pub open spec fn books_of(entries: Seq<JournalEntry>, index: Seq<AccountBrief>, f: Frame) -> std::result::Result<Booked, Refusal> {
    match entity_rate(entries, index, f) {
        Err(e) => Err(e),
        Ok(rate) => {
            let places = report_places(index, Some(f.entity.id));
            match sheet_after(entries, f, rate, index, places, places.len()) {
                Err(e) => Err(e),
                Ok(s) => match rolled_up(s.rows, index, s.rows.len()) {
                    Err(e) => Err(e),
                    Ok(rolled) => match sum_in(f.zero, s.profits) {
                        Err(e) => Err(e),
                        Ok(retained) => match sum_in(f.zero, top_worths(rolled, rolled.len())) {
                            Err(e) => Err(e),
                            Ok(assets) => match sum_in(f.zero, top_amounts(rolled, AccountType::Liability, rolled.len())) {
                                Err(e) => Err(e),
                                Ok(liabilities) => match top_gains(rolled, rolled.len()) {
                                    Err(e) => Err(e),
                                    Ok(gains) => match sum_in(f.zero, gains) {
                                        Err(e) => Err(e),
                                        Ok(unrealised) => closed_books(rolled, f, retained, assets, liabilities, unrealised),
                                    },
                                },
                            },
                        },
                    },
                },
            }
        },
    }
}

/// The books of an entity on their way into a balance sheet.
struct Scope<'a> {
    entity: &'a Entity,
    prices: &'a [Price],
    code: &'a str,
    on: Date,
    w: Window,
    functional: Money,
    zero: Money,
}

impl<'a> Scope<'a> {
    spec fn frame(self) -> Frame {
        Frame {
            entity: *self.entity,
            prices: self.prices@,
            code: self.code@,
            on: self.on,
            w: self.w,
            functional: self.functional@,
            zero: self.zero@,
        }
    }
}

fn rate_of_entity(entries: &[JournalEntry], index: &[AccountBrief], s: &Scope<'_>) -> (r: Result<Decimal>)
    ensures
        match r {
            Ok(d) => entity_rate(entries@, index@, s.frame()) == Ok::<Num, Refusal>(d@),
            Err(e) => entity_rate(entries@, index@, s.frame()) == Err::<Num, Refusal>(e@),
        },
{
    let none = match is_settled(entries, &s.w, index) {
        Ok(b) => b,
        Err(e) => {
            return Err(e);
        },
    };
    if same(s.entity.currency.as_str(), s.code) || none {
        return Ok(Decimal::one());
    }
    match rate_for(s.prices, s.entity.currency.as_str(), s.code, s.on) {
        Some(l) => Ok(l.rate),
        None => {
            let on = iso(s.on);
            let parts: [&str; 8] = [
                "missing exchange rate from ",
                s.entity.currency.as_str(),
                " to ",
                s.code,
                " on ",
                on.as_str(),
                " for entity ",
                s.entity.name.as_str(),
            ];
            assert(str_texts(parts@) =~= seq![
                "missing exchange rate from "@,
                s.entity.currency@,
                " to "@,
                s.code@,
                " on "@,
                iso_text(s.on),
                " for entity "@,
                s.entity.name@,
            ]);
            Err(invalid(glue(&parts).as_str()))
        },
    }
}

fn market_for(s: &Scope<'_>, rate: Decimal, a: &AccountBrief, q: Money) -> (r: Result<Option<Money>>)
    ensures
        match r {
            Ok(m) => market_of(s.frame(), rate@, *a, q@) == Ok::<Option<Amount>, Refusal>(amount_in(m)),
            Err(e) => market_of(s.frame(), rate@, *a, q@) == Err::<Option<Amount>, Refusal>(e@),
        },
{
    if !same(a.subtype.as_str(), "holding") || q.is_zero() {
        return Ok(None);
    }
    match rate_for(s.prices, a.commodity.as_str(), s.entity.currency.as_str(), s.on) {
        None => Ok(None),
        Some(price) => match price.rate.checked_mul(rate) {
            None => Err(invalid("report conversion overflow")),
            Some(p) => match convert(q, p, s.zero) {
                Err(e) => Err(e),
                Ok(v) => match naturally(v, a.account_type) {
                    Err(e) => Err(e),
                    Ok(m) => Ok(Some(m)),
                },
            },
        },
    }
}

spec fn sheet_view(rows: Seq<ReportRow>, profits: Seq<Money>) -> Sheet {
    Sheet { rows: shown(rows), profits: amounts_of(profits) }
}

fn add_account(
    rows: &mut Vec<ReportRow>,
    profits: &mut Vec<Money>,
    entries: &[JournalEntry],
    s: &Scope<'_>,
    rate: Decimal,
    a: &AccountBrief,
) -> (r: Result<()>)
    ensures
        match r {
            Ok(_) => sheet_with(sheet_view(old(rows)@, old(profits)@), entries@, s.frame(), rate@, *a) == Ok::<Sheet, Refusal>(
                sheet_view(final(rows)@, final(profits)@),
            ),
            Err(e) => sheet_with(sheet_view(old(rows)@, old(profits)@), entries@, s.frame(), rate@, *a) == Err::<Sheet, Refusal>(e@),
        },
{
    let ghost (rs, ps) = (rows@, profits@);
    let (q, v) = match account_sums(entries, &s.w, a, s.functional) {
        Ok(x) => x,
        Err(e) => {
            return Err(e);
        },
    };
    let amount = match convert(v, rate, s.zero) {
        Ok(m) => m,
        Err(e) => {
            return Err(e);
        },
    };
    if matches!(a.account_type, AccountType::Income | AccountType::Expense) {
        match amount.checked_neg() {
            Ok(p) => {
                profits.push(p);
                assert(amounts_of(profits@) =~= amounts_of(ps).push(p@));
            },
            Err(e) => {
                return Err(e);
            },
        }
    } else {
        let mut r = match natural_report_row(a, q, amount, s.zero) {
            Ok(x) => x,
            Err(e) => {
                return Err(e);
            },
        };
        match market_for(s, rate, a, q) {
            Ok(m) => {
                r.market_value = m;
            },
            Err(e) => {
                return Err(e);
            },
        }
        rows.push(r);
        assert(shown(rows@) =~= shown(rs).push(r@));
    }
    Ok(())
}

proof fn lemma_sheet_failed(
    entries: Seq<JournalEntry>,
    f: Frame,
    rate: Num,
    index: Seq<AccountBrief>,
    places: Seq<int>,
    n: nat,
    m: nat,
)
    requires
        n <= m,
        sheet_after(entries, f, rate, index, places, n) is Err,
    ensures
        sheet_after(entries, f, rate, index, places, m) == sheet_after(entries, f, rate, index, places, n),
    decreases m - n,
{
    if n < m {
        lemma_sheet_failed(entries, f, rate, index, places, n, (m - 1) as nat);
    }
}

fn take_accounts(entries: &[JournalEntry], index: &[AccountBrief], s: &Scope<'_>, rate: Decimal) -> (r: Result<(Vec<ReportRow>, Vec<Money>)>)
    ensures
        ({
            let ps = report_places(index@, Some(s.entity.id));
            match r {
                Ok(x) => sheet_after(entries@, s.frame(), rate@, index@, ps, ps.len()) == Ok::<Sheet, Refusal>(sheet_view(x.0@, x.1@)),
                Err(e) => sheet_after(entries@, s.frame(), rate@, index@, ps, ps.len()) == Err::<Sheet, Refusal>(e@),
            }
        }),
{
    let places = ordered(index, Some(s.entity.id));
    let ghost ps = report_places(index@, Some(s.entity.id));
    let mut rows: Vec<ReportRow> = Vec::new();
    let mut profits: Vec<Money> = Vec::new();
    let mut i: usize = 0;
    assert(shown(rows@) =~= Seq::<Shown>::empty());
    assert(amounts_of(profits@) =~= Seq::<Amount>::empty());
    while i < places.len()
        invariant
            i <= places.len(),
            as_ints(places@) == ps,
            ps == report_places(index@, Some(s.entity.id)),
            forall|k: int| 0 <= k < places@.len() ==> (#[trigger] places@[k]) < index@.len(),
            sheet_after(entries@, s.frame(), rate@, index@, ps, i as nat) == Ok::<Sheet, Refusal>(sheet_view(rows@, profits@)),
        decreases places.len() - i,
    {
        assert(ps[i as int] == places@[i as int] as int);
        if let Err(e) = add_account(&mut rows, &mut profits, entries, s, rate, &index[places[i]]) {
            proof {
                lemma_sheet_failed(entries@, s.frame(), rate@, index@, ps, (i + 1) as nat, ps.len());
            }
            return Err(e);
        }
        i = i + 1;
    }
    assert(ps.len() == places@.len());
    Ok((rows, profits))
}

fn top_worth_values(rows: &Vec<ReportRow>) -> (r: Vec<Money>)
    ensures
        amounts_of(r@) == top_worths(shown(rows@), rows@.len()),
{
    let ghost all = shown(rows@);
    let mut r: Vec<Money> = Vec::new();
    let mut i: usize = 0;
    assert(amounts_of(r@) =~= Seq::<Amount>::empty());
    while i < rows.len()
        invariant
            i <= rows.len(),
            all == shown(rows@),
            amounts_of(r@) == top_worths(all, i as nat),
        decreases rows.len() - i,
    {
        assert(all[i as int] == rows@[i as int]@);
        if rows[i].depth == 0 && rows[i].account_type == AccountType::Asset {
            let ghost before = amounts_of(r@);
            let m = match rows[i].market_value {
                Some(m) => m,
                None => rows[i].amount,
            };
            r.push(m);
            assert(amounts_of(r@) =~= before.push(m@));
        }
        i = i + 1;
    }
    r
}

proof fn lemma_gains_failed(rows: Seq<Shown>, n: nat, m: nat)
    requires
        n <= m,
        top_gains(rows, n) is Err,
    ensures
        top_gains(rows, m) == top_gains(rows, n),
    decreases m - n,
{
    if n < m {
        lemma_gains_failed(rows, n, (m - 1) as nat);
    }
}

fn top_gain_values(rows: &Vec<ReportRow>) -> (r: Result<Vec<Money>>)
    ensures
        match r {
            Ok(v) => top_gains(shown(rows@), rows@.len()) == Ok::<Seq<Amount>, Refusal>(amounts_of(v@)),
            Err(e) => top_gains(shown(rows@), rows@.len()) == Err::<Seq<Amount>, Refusal>(e@),
        },
{
    let ghost all = shown(rows@);
    let mut r: Vec<Money> = Vec::new();
    let mut i: usize = 0;
    assert(amounts_of(r@) =~= Seq::<Amount>::empty());
    while i < rows.len()
        invariant
            i <= rows.len(),
            all == shown(rows@),
            top_gains(all, i as nat) == Ok::<Seq<Amount>, Refusal>(amounts_of(r@)),
        decreases rows.len() - i,
    {
        assert(all[i as int] == rows@[i as int]@);
        if let Some(m) = rows[i].market_value {
            if rows[i].depth == 0 {
                match m.checked_sub(rows[i].amount) {
                    Ok(g) => {
                        let ghost before = amounts_of(r@);
                        r.push(g);
                        assert(amounts_of(r@) =~= before.push(g@));
                    },
                    Err(e) => {
                        proof {
                            lemma_gains_failed(all, (i + 1) as nat, all.len());
                        }
                        return Err(e);
                    },
                }
            }
        }
        i = i + 1;
    }
    Ok(r)
}

fn close_books(rolled: Vec<ReportRow>, s: &Scope<'_>, retained: Money, assets: Money, liabilities: Money, unrealised: Money) -> (r: Result<
    (Vec<ReportRow>, ReportRow),
>)
    ensures
        match r {
            Ok(x) => closed_books(shown(rolled@), s.frame(), retained@, assets@, liabilities@, unrealised@) == Ok::<Booked, Refusal>(
                Booked { rows: shown(x.0@), total: x.1@ },
            ),
            Err(e) => closed_books(shown(rolled@), s.frame(), retained@, assets@, liabilities@, unrealised@) == Err::<Booked, Refusal>(e@),
        },
{
    let name = s.entity.name.as_str();
    let mut rows = keep_moved(rolled);
    let ghost before = shown(rows@);
    let earnings = synthetic_row(0, "Retained earnings", cat3("Equity:Retained earnings (", name, ")").as_str(), retained, s.zero);
    rows.push(earnings);
    assert(shown(rows@) =~= before.push(earnings@));
    if !unrealised.is_zero() {
        let ghost before = shown(rows@);
        let gains = synthetic_row(0, "Unrealised gains", cat3("Equity:Unrealised gains (", name, ")").as_str(), unrealised, s.zero);
        rows.push(gains);
        assert(shown(rows@) =~= before.push(gains@));
    }
    let net = match assets.checked_sub(liabilities) {
        Ok(m) => m,
        Err(e) => {
            return Err(e);
        },
    };
    let mut total = synthetic_row(s.entity.id, name, name, net, s.zero);
    total.debit = assets;
    total.credit = liabilities;
    Ok((rows, total))
}

fn entity_books(entries: &[JournalEntry], index: &[AccountBrief], s: &Scope<'_>) -> (r: Result<(Vec<ReportRow>, ReportRow)>)
    ensures
        match r {
            Ok(x) => books_of(entries@, index@, s.frame()) == Ok::<Booked, Refusal>(Booked { rows: shown(x.0@), total: x.1@ }),
            Err(e) => books_of(entries@, index@, s.frame()) == Err::<Booked, Refusal>(e@),
        },
{
    let rate = match rate_of_entity(entries, index, s) {
        Ok(d) => d,
        Err(e) => {
            return Err(e);
        },
    };
    let (mut rows, profits) = match take_accounts(entries, index, s, rate) {
        Ok(x) => x,
        Err(e) => {
            return Err(e);
        },
    };
    if let Err(e) = rollup(&mut rows, index) {
        return Err(e);
    }
    let retained = match sum(s.zero, &profits) {
        Ok(m) => m,
        Err(e) => {
            return Err(e);
        },
    };
    let assets = match sum(s.zero, &top_worth_values(&rows)) {
        Ok(m) => m,
        Err(e) => {
            return Err(e);
        },
    };
    let liabilities = match sum(s.zero, &top_values(&rows, AccountType::Liability)) {
        Ok(m) => m,
        Err(e) => {
            return Err(e);
        },
    };
    let gains = match top_gain_values(&rows) {
        Ok(v) => v,
        Err(e) => {
            return Err(e);
        },
    };
    let unrealised = match sum(s.zero, &gains) {
        Ok(m) => m,
        Err(e) => {
            return Err(e);
        },
    };
    close_books(rows, s, retained, assets, liabilities, unrealised)
}

/// The places of the entities that are not archived, among the first `n`.
pub open spec fn open_places(entities: Seq<Entity>, n: nat) -> Seq<int>
    decreases n,
{
    if n == 0 {
        Seq::empty()
    } else {
        let rest = open_places(entities, (n - 1) as nat);
        if entities[n - 1].archived_at is None {
            rest.push(n - 1)
        } else {
            rest
        }
    }
}

/// The places of the entities that a balance sheet covers: one, or all that are not archived.
pub open spec fn covered(entities: Seq<Entity>, entity_id: Option<i64>) -> std::result::Result<Seq<int>, Refusal> {
    match entity_id {
        None => Ok(open_places(entities, entities.len())),
        Some(id) => match entity_place(entities, id, 0) {
            Some(i) => Ok(seq![i]),
            None => Err(Refusal::NotFound("entity "@ + int_text(id as int))),
        },
    }
}

fn cover(entities: &[Entity], entity_id: Option<i64>) -> (r: Result<Vec<usize>>)
    ensures
        match r {
            Ok(v) => {
                &&& covered(entities@, entity_id) == Ok::<Seq<int>, Refusal>(as_ints(v@))
                &&& forall|k: int| 0 <= k < v@.len() ==> (#[trigger] v@[k]) < entities@.len()
            },
            Err(e) => covered(entities@, entity_id) == Err::<Seq<int>, Refusal>(e@),
        },
{
    let mut r: Vec<usize> = Vec::new();
    match entity_id {
        Some(id) => {
            let mut i: usize = 0;
            while i < entities.len()
                invariant
                    i <= entities.len(),
                    r@.len() == 0,
                    entity_id == Some(id),
                    entity_place(entities@, id, 0) == entity_place(entities@, id, i as int),
                decreases entities.len() - i,
            {
                if entities[i].id == id {
                    r.push(i);
                    assert(as_ints(r@) =~= seq![i as int]);
                    return Ok(r);
                }
                i = i + 1;
            }
            Err(not_found(cat("entity ", int_string(id).as_str()).as_str()))
        },
        None => {
            let mut i: usize = 0;
            assert(as_ints(r@) =~= open_places(entities@, 0));
            while i < entities.len()
                invariant
                    i <= entities.len(),
                    as_ints(r@) == open_places(entities@, i as nat),
                    forall|k: int| 0 <= k < r@.len() ==> (#[trigger] r@[k]) < entities@.len(),
                decreases entities.len() - i,
            {
                if entities[i].archived_at.is_none() {
                    let ghost before = as_ints(r@);
                    r.push(i);
                    assert(as_ints(r@) =~= before.push(i as int));
                }
                i = i + 1;
            }
            Ok(r)
        },
    }
}

/// The currency of a balance sheet: the one asked for, or that of the first entity.
pub open spec fn report_code(entities: Seq<Entity>, places: Seq<int>, currency: Seq<char>) -> std::result::Result<Seq<char>, Refusal> {
    if blank(currency) {
        Ok(
            if places.len() > 0 {
                entities[places[0]].currency@
            } else {
                "EUR"@
            },
        )
    } else if well_formed_code(code_form(currency)) {
        Ok(code_form(currency))
    } else {
        Err(Refusal::Invalid("invalid commodity code "@ + debug_text(currency)))
    }
}

/// What a balance sheet is made of.
pub struct Sources {
    pub entities: Seq<Entity>,
    pub commodities: Seq<Commodity>,
    pub prices: Seq<Price>,
    pub index: Seq<AccountBrief>,
    pub entries: Seq<JournalEntry>,
}

pub open spec fn frame_of(b: Sources, place: int, as_of: Option<Date>, on: Date, code: Seq<char>, functional: Amount, zero: Amount) -> Frame {
    Frame {
        entity: b.entities[place],
        prices: b.prices,
        code,
        on,
        w: trial_window(b.entities[place].id, as_of),
        functional,
        zero,
    }
}

/// The rows and the summary of the first `n` entities.
pub open spec fn sheets_after(
    b: Sources,
    places: Seq<int>,
    as_of: Option<Date>,
    on: Date,
    code: Seq<char>,
    zero: Amount,
    n: nat,
) -> std::result::Result<(Seq<Shown>, Seq<Shown>), Refusal>
    decreases n,
{
    if n == 0 {
        Ok((Seq::empty(), Seq::empty()))
    } else {
        match sheets_after(b, places, as_of, on, code, zero, (n - 1) as nat) {
            Err(e) => Err(e),
            Ok((rows, summary)) => match nothing_in(b.commodities, b.entities[places[n - 1]].currency@) {
                Err(e) => Err(e),
                Ok(functional) => match books_of(
                    b.entries,
                    b.index,
                    frame_of(b, places[n - 1], as_of, on, code, functional, zero),
                ) {
                    Err(e) => Err(e),
                    Ok(x) => Ok((rows + x.rows, summary.push(x.total))),
                },
            },
        }
    }
}

pub open spec fn name_ranks(rows: Seq<Shown>) -> Seq<Rank> {
    rows.map_values(|r: Shown| Rank { first: 0, second: 0, text: r.name })
}

/// Rows in the order of their names.
pub open spec fn by_name(rows: Seq<Shown>) -> Seq<Shown> {
    sorted_places(name_ranks(rows)).map_values(|i: int| rows[i])
}

pub open spec fn sheet_report(
    rows: Seq<Shown>,
    summary: Seq<Shown>,
    zero: Amount,
    code: Seq<char>,
) -> std::result::Result<ShownReport, Refusal> {
    match closed_report(rows, sum_in(zero, debits(summary)), sum_in(zero, credits(summary)), code) {
        Err(e) => Err(e),
        Ok(r) => Ok(ShownReport { summary, ..r }),
    }
}

/// The balance sheet, or why there is none.
pub open spec fn sheet_of(b: Sources, entity_id: Option<i64>, as_of: Option<Date>, today: Date, currency: Seq<char>) -> std::result::Result<
    ShownReport,
    Refusal,
> {
    match covered(b.entities, entity_id) {
        Err(e) => Err(e),
        Ok(places) => match report_code(b.entities, places, currency) {
            Err(e) => Err(e),
            Ok(code) => match nothing_in(b.commodities, code) {
                Err(e) => Err(e),
                Ok(zero) => {
                    let on = match as_of {
                        Some(d) => d,
                        None => today,
                    };
                    match sheets_after(b, places, as_of, on, code, zero, places.len()) {
                        Err(e) => Err(e),
                        Ok((rows, summary)) => sheet_report(rows, by_name(summary), zero, code),
                    }
                },
            },
        },
    }
}

/// What reports are made of.
#[derive(Debug)]
pub struct Ledgers {
    pub entities: Vec<Entity>,
    pub commodities: Vec<Commodity>,
    pub prices: Vec<Price>,
    pub index: Vec<AccountBrief>,
    pub entries: Vec<JournalEntry>,
}

impl View for Ledgers {
    type V = Sources;

    open spec fn view(&self) -> Sources {
        Sources {
            entities: self.entities@,
            commodities: self.commodities@,
            prices: self.prices@,
            index: self.index@,
            entries: self.entries@,
        }
    }
}

proof fn lemma_sheets_failed(
    b: Sources,
    places: Seq<int>,
    as_of: Option<Date>,
    on: Date,
    code: Seq<char>,
    zero: Amount,
    n: nat,
    m: nat,
)
    requires
        n <= m,
        sheets_after(b, places, as_of, on, code, zero, n) is Err,
    ensures
        sheets_after(b, places, as_of, on, code, zero, m) == sheets_after(b, places, as_of, on, code, zero, n),
    decreases m - n,
{
    if n < m {
        lemma_sheets_failed(b, places, as_of, on, code, zero, n, (m - 1) as nat);
    }
}

fn sort_by_name(rows: &Vec<ReportRow>) -> (r: Vec<ReportRow>)
    ensures
        shown(r@) == by_name(shown(rows@)),
{
    let ghost all = shown(rows@);
    let mut keys: Vec<Key> = Vec::new();
    let mut i: usize = 0;
    while i < rows.len()
        invariant
            i <= rows.len(),
            all == shown(rows@),
            keys@.len() == i,
            forall|k: int| 0 <= k < i ==> (#[trigger] keys@[k])@ == (Rank { first: 0, second: 0, text: all[k].name }),
        decreases rows.len() - i,
    {
        assert(all[i as int] == rows@[i as int]@);
        keys.push(Key { first: 0, second: 0, text: own(rows[i].name.as_str()) });
        i = i + 1;
    }
    assert(ranks(keys@) =~= name_ranks(all));
    let order = sorted(&keys);
    let mut r: Vec<ReportRow> = Vec::new();
    let mut k: usize = 0;
    while k < order.len()
        invariant
            k <= order.len(),
            all == shown(rows@),
            r@.len() == k,
            forall|j: int| 0 <= j < order@.len() ==> (#[trigger] order@[j]) < rows@.len(),
            forall|j: int| 0 <= j < k ==> (#[trigger] r@[j])@ == all[order@[j] as int],
        decreases order.len() - k,
    {
        assert(all[order@[k as int] as int] == rows@[order@[k as int] as int]@);
        r.push(copy_row(&rows[order[k]]));
        k = k + 1;
    }
    assert(shown(r@) =~= by_name(all)) by {
        assert forall|j: int| 0 <= j < r@.len() implies shown(r@)[j] == by_name(all)[j] by {
            assert(as_ints(order@)[j] == order@[j] as int);
            assert(r@[j]@ == all[order@[j] as int]);
        }
    }
    r
}

fn take_entities(b: &Ledgers, places: &Vec<usize>, as_of: Option<Date>, on: Date, code: &str, zero: Money) -> (r: Result<
    (Vec<ReportRow>, Vec<ReportRow>),
>)
    requires
        forall|k: int| 0 <= k < places@.len() ==> (#[trigger] places@[k]) < b.entities@.len(),
    ensures
        match r {
            Ok(x) => sheets_after(b@, as_ints(places@), as_of, on, code@, zero@, places@.len()) == Ok::<(Seq<Shown>, Seq<Shown>), Refusal>(
                (shown(x.0@), shown(x.1@)),
            ),
            Err(e) => sheets_after(b@, as_ints(places@), as_of, on, code@, zero@, places@.len()) == Err::<
                (Seq<Shown>, Seq<Shown>),
                Refusal,
            >(e@),
        },
{
    let ghost ps = as_ints(places@);
    let mut rows: Vec<ReportRow> = Vec::new();
    let mut summary: Vec<ReportRow> = Vec::new();
    let mut i: usize = 0;
    assert(shown(rows@) =~= Seq::<Shown>::empty());
    assert(shown(summary@) =~= Seq::<Shown>::empty());
    while i < places.len()
        invariant
            i <= places.len(),
            ps == as_ints(places@),
            forall|k: int| 0 <= k < places@.len() ==> (#[trigger] places@[k]) < b.entities@.len(),
            sheets_after(b@, ps, as_of, on, code@, zero@, i as nat) == Ok::<(Seq<Shown>, Seq<Shown>), Refusal>(
                (shown(rows@), shown(summary@)),
            ),
        decreases places.len() - i,
    {
        assert(ps[i as int] == places@[i as int] as int);
        let entity = &b.entities[places[i]];
        let functional = match unit(&b.commodities, entity.currency.as_str()) {
            Ok(m) => m,
            Err(e) => {
                proof {
                    lemma_sheets_failed(b@, ps, as_of, on, code@, zero@, (i + 1) as nat, ps.len());
                }
                return Err(e);
            },
        };
        let w = Window { entity_id: Some(entity.id), from: None, to: as_of, before: None, drafts: false };
        let s = Scope { entity, prices: &b.prices, code, on, w, functional, zero };
        assert(s.frame() == frame_of(b@, ps[i as int], as_of, on, code@, functional@, zero@));
        match entity_books(&b.entries, &b.index, &s) {
            Ok((more, total)) => {
                let ghost (before, old_summary, new) = (shown(rows@), shown(summary@), shown(more@));
                let mut more = more;
                rows.append(&mut more);
                assert(shown(rows@) =~= before + new);
                summary.push(total);
                assert(shown(summary@) =~= old_summary.push(total@));
            },
            Err(e) => {
                proof {
                    lemma_sheets_failed(b@, ps, as_of, on, code@, zero@, (i + 1) as nat, ps.len());
                }
                return Err(e);
            },
        }
        i = i + 1;
    }
    Ok((rows, summary))
}

/// Converts and rounds each account before aggregation so totals equal displayed rows.
pub fn balance_sheet(b: &Ledgers, entity_id: Option<i64>, as_of: Option<Date>, today: Date, currency: &str) -> (r: Result<Report>)
    ensures
        match r {
            Ok(x) => sheet_of(b@, entity_id, as_of, today, currency@) == Ok::<ShownReport, Refusal>(x@),
            Err(e) => sheet_of(b@, entity_id, as_of, today, currency@) == Err::<ShownReport, Refusal>(e@),
        },
{
    let places = match cover(&b.entities, entity_id) {
        Ok(v) => v,
        Err(e) => {
            return Err(e);
        },
    };
    let ghost ps = as_ints(places@);
    let code = if is_blank(currency) {
        if places.len() > 0 {
            assert(ps[0] == places@[0] as int);
            own(b.entities[places[0]].currency.as_str())
        } else {
            own("EUR")
        }
    } else {
        match normalize_code(currency) {
            Ok(c) => c,
            Err(e) => {
                return Err(e);
            },
        }
    };
    assert(report_code(b@.entities, ps, currency@) == Ok::<Seq<char>, Refusal>(code@));
    let zero = match unit(&b.commodities, code.as_str()) {
        Ok(m) => m,
        Err(e) => {
            return Err(e);
        },
    };
    let on = match as_of {
        Some(d) => d,
        None => today,
    };
    let (rows, summary) = match take_entities(b, &places, as_of, on, code.as_str(), zero) {
        Ok(x) => x,
        Err(e) => {
            return Err(e);
        },
    };
    let summary = sort_by_name(&summary);
    let debit = sum(zero, &debit_amounts(&summary));
    let credit = sum(zero, &credit_amounts(&summary));
    match close_report(rows, debit, credit, code.as_str()) {
        Ok(x) => {
            let mut x = x;
            x.summary = summary;
            Ok(x)
        },
        Err(e) => Err(e),
    }
}

#[derive(Debug)]
pub struct NetWorth {
    pub by_entity: Vec<ReportRow>,
    pub by_account: Vec<ReportRow>,
    pub total: Money,
    pub currency: String,
}

/// The rows of real asset and liability accounts among the first `n`.
pub open spec fn owned_rows(rows: Seq<Shown>, n: nat) -> Seq<Shown>
    decreases n,
{
    if n == 0 {
        Seq::empty()
    } else {
        let rest = owned_rows(rows, (n - 1) as nat);
        let r = rows[n - 1];
        if r.account_id != 0 && !r.placeholder && (r.account_type == AccountType::Asset || r.account_type == AccountType::Liability) {
            rest.push(r)
        } else {
            rest
        }
    }
}

/// Net worth of one vault at a date. Other vaults do not imply ownership.
pub fn net_worth(b: &Ledgers, entity_id: i64, currency: &str, as_of: Option<Date>, today: Date) -> (r: Result<NetWorth>)
    ensures
        match r {
            Ok(x) => {
                &&& entity_id > 0
                &&& sheet_of(b@, Some(entity_id), as_of, today, currency@) matches Ok(s) && {
                    &&& shown(x.by_entity@) == s.summary
                    &&& shown(x.by_account@) == owned_rows(s.rows, s.rows.len())
                    &&& x.total@ == s.net
                    &&& x.currency@ == s.currency
                }
            },
            Err(e) => if entity_id <= 0 {
                e.invalid("select a vault for net worth"@)
            } else {
                sheet_of(b@, Some(entity_id), as_of, today, currency@) == Err::<ShownReport, Refusal>(e@)
            },
        },
{
    if entity_id <= 0 {
        return Err(invalid("select a vault for net worth"));
    }
    let sheet = match balance_sheet(b, Some(entity_id), as_of, today, currency) {
        Ok(x) => x,
        Err(e) => {
            return Err(e);
        },
    };
    let ghost all = sheet@.rows;
    let mut by_account: Vec<ReportRow> = Vec::new();
    let mut i: usize = 0;
    assert(shown(by_account@) =~= Seq::<Shown>::empty());
    while i < sheet.rows.len()
        invariant
            i <= sheet.rows.len(),
            all == shown(sheet.rows@),
            shown(by_account@) == owned_rows(all, i as nat),
        decreases sheet.rows.len() - i,
    {
        let x = &sheet.rows[i];
        assert(all[i as int] == x@);
        if x.account_id != 0 && !x.placeholder && matches!(x.account_type, AccountType::Asset | AccountType::Liability) {
            let ghost before = shown(by_account@);
            let y = copy_row(x);
            by_account.push(y);
            assert(shown(by_account@) =~= before.push(y@));
        }
        i = i + 1;
    }
    Ok(NetWorth { by_entity: sheet.summary, by_account, total: sheet.net, currency: sheet.currency })
}

/// What the first `n` postings count on an account, in the functional currency.
pub open spec fn posted_on(v: Seq<Posting>, id: i64, n: nat) -> int
    decreases n,
{
    if n == 0 {
        0
    } else {
        posted_on(v, id, (n - 1) as nat) + (if v[n - 1].account_id == id {
            v[n - 1].amount@.minor
        } else {
            0
        })
    }
}

/// What the first `n` postings count together, in the functional currency.
pub open spec fn posted(v: Seq<Posting>, n: nat) -> int
    decreases n,
{
    if n == 0 {
        0
    } else {
        posted(v, (n - 1) as nat) + v[n - 1].amount@.minor
    }
}

/// What the selected ones of the first `n` entries count on an account.
pub open spec fn booked_on(entries: Seq<JournalEntry>, w: Window, id: i64, n: nat) -> int
    decreases n,
{
    if n == 0 {
        0
    } else {
        booked_on(entries, w, id, (n - 1) as nat) + (if selects(w, entries[n - 1]) {
            posted_on(entries[n - 1].postings@, id, entries[n - 1].postings@.len())
        } else {
            0
        })
    }
}

proof fn lemma_with_postings(total: Option<int>, v: Seq<Posting>, id: i64, n: nat)
    ensures
        with_postings(total, v, id, true, n) matches Some(t) ==> total is Some && t == total->0 + posted_on(v, id, n),
    decreases n,
{
    if n > 0 {
        lemma_with_postings(total, v, id, (n - 1) as nat);
    }
}

proof fn lemma_account_total(entries: Seq<JournalEntry>, w: Window, id: i64, n: nat)
    ensures
        account_total(entries, w, id, true, n) matches Some(t) ==> t == booked_on(entries, w, id, n),
    decreases n,
{
    if n > 0 {
        lemma_account_total(entries, w, id, (n - 1) as nat);
        let e = entries[n - 1];
        lemma_with_postings(account_total(entries, w, id, true, (n - 1) as nat), e.postings@, id, e.postings@.len());
    }
}

/// The accounts that can be booked on among the first `n` places.
pub open spec fn leaf_ids(index: Seq<AccountBrief>, places: Seq<int>, n: nat) -> Seq<i64>
    decreases n,
{
    if n == 0 {
        Seq::empty()
    } else {
        let before = leaf_ids(index, places, (n - 1) as nat);
        if index[places[n - 1]].placeholder {
            before
        } else {
            before.push(index[places[n - 1]].id)
        }
    }
}

/// What entries count on accounts, together.
pub open spec fn booked_over(entries: Seq<JournalEntry>, w: Window, ids: Seq<i64>, n: nat) -> int
    decreases ids.len(),
{
    if ids.len() == 0 {
        0
    } else {
        booked_over(entries, w, ids.drop_last(), n) + booked_on(entries, w, ids.last(), n)
    }
}

/// What postings count on accounts, together.
pub open spec fn posted_over(v: Seq<Posting>, ids: Seq<i64>, n: nat) -> int
    decreases ids.len(),
{
    if ids.len() == 0 {
        0
    } else {
        posted_over(v, ids.drop_last(), n) + posted_on(v, ids.last(), n)
    }
}

proof fn lemma_trial_net(entries: Seq<JournalEntry>, w: Window, index: Seq<AccountBrief>, places: Seq<int>, zero: Amount, n: nat)
    requires
        zero.minor == 0,
    ensures
        trial_rows(entries, w, index, places, zero, n) matches Ok(rows) ==> total_minor(debits(rows)) - total_minor(credits(rows)) == booked_over(
            entries,
            w,
            leaf_ids(index, places, n),
            entries.len(),
        ),
    decreases n,
{
    if n == 0 {
        assert(debits(Seq::<Shown>::empty()) =~= Seq::<Amount>::empty());
        assert(credits(Seq::<Shown>::empty()) =~= Seq::<Amount>::empty());
    } else {
        lemma_trial_net(entries, w, index, places, zero, (n - 1) as nat);
        let a = index[places[n - 1]];
        let before = leaf_ids(index, places, (n - 1) as nat);
        if let Ok(rows) = trial_rows(entries, w, index, places, zero, (n - 1) as nat) {
            if !a.placeholder {
                assert(before.push(a.id).drop_last() =~= before);
                lemma_account_total(entries, w, a.id, entries.len());
                if let Ok(Some(r)) = trial_row(entries, w, a, zero) {
                    let more = rows.push(r);
                    assert(debits(more).drop_last() =~= debits(rows));
                    assert(credits(more).drop_last() =~= credits(rows));
                    assert(debits(more).last() == r.debit);
                    assert(credits(more).last() == r.credit);
                }
            }
        }
    }
}

/// The sum over accounts of a value that falls on one account.
proof fn lemma_one_account(v: Seq<Posting>, ids: Seq<i64>, n: nat)
    requires
        0 < n <= v.len(),
        ids.no_duplicates(),
    ensures
        posted_over(v, ids, n) == posted_over(v, ids, (n - 1) as nat) + (if ids.contains(v[n - 1].account_id) {
            v[n - 1].amount@.minor
        } else {
            0
        }),
    decreases ids.len(),
{
    if ids.len() > 0 {
        let head = ids.drop_last();
        let id = v[n - 1].account_id;
        lemma_one_account(v, head, n);
        if head.contains(id) {
            let k = choose|k: int| 0 <= k < head.len() && head[k] == id;
            assert(ids[k] == id && ids.last() != id);
        } else if ids.contains(id) {
            let k = choose|k: int| 0 <= k < ids.len() && ids[k] == id;
            assert(k == ids.len() - 1 || head[k] == id);
        } else {
            assert(ids[ids.len() - 1] != id);
        }
        if ids.last() == id {
            assert(ids[ids.len() - 1] == id);
        }
    }
}

proof fn lemma_posted_over(v: Seq<Posting>, ids: Seq<i64>, n: nat)
    requires
        n <= v.len(),
        ids.no_duplicates(),
        forall|j: int| 0 <= j < v.len() ==> ids.contains((#[trigger] v[j]).account_id),
    ensures
        posted_over(v, ids, n) == posted(v, n),
    decreases n,
{
    if n == 0 {
        lemma_nothing_posted(v, ids);
    } else {
        lemma_posted_over(v, ids, (n - 1) as nat);
        lemma_one_account(v, ids, n);
        assert(ids.contains(v[n - 1].account_id));
    }
}

proof fn lemma_nothing_posted(v: Seq<Posting>, ids: Seq<i64>)
    ensures
        posted_over(v, ids, 0) == 0,
    decreases ids.len(),
{
    if ids.len() > 0 {
        lemma_nothing_posted(v, ids.drop_last());
    }
}

proof fn lemma_booked_step(entries: Seq<JournalEntry>, w: Window, ids: Seq<i64>, n: nat)
    requires
        0 < n <= entries.len(),
    ensures
        booked_over(entries, w, ids, n) == booked_over(entries, w, ids, (n - 1) as nat) + (if selects(w, entries[n - 1]) {
            posted_over(entries[n - 1].postings@, ids, entries[n - 1].postings@.len())
        } else {
            0
        }),
    decreases ids.len(),
{
    if ids.len() > 0 {
        lemma_booked_step(entries, w, ids.drop_last(), n);
    }
}

/// Whether an entry is booked in full on listed accounts, and balances.
pub open spec fn sound(e: JournalEntry, ids: Seq<i64>) -> bool {
    &&& posted(e.postings@, e.postings@.len()) == 0
    &&& forall|j: int| 0 <= j < e.postings@.len() ==> ids.contains((#[trigger] e.postings@[j]).account_id)
}

proof fn lemma_booked_nothing(entries: Seq<JournalEntry>, w: Window, ids: Seq<i64>, n: nat)
    requires
        n <= entries.len(),
        ids.no_duplicates(),
        forall|i: int| 0 <= i < entries.len() && selects(w, #[trigger] entries[i]) ==> sound(entries[i], ids),
    ensures
        booked_over(entries, w, ids, n) == 0,
    decreases n,
{
    if n == 0 {
        lemma_none_booked(entries, w, ids);
    } else {
        lemma_booked_nothing(entries, w, ids, (n - 1) as nat);
        lemma_booked_step(entries, w, ids, n);
        if selects(w, entries[n - 1]) {
            assert(sound(entries[n - 1], ids));
            lemma_posted_over(entries[n - 1].postings@, ids, entries[n - 1].postings@.len());
        }
    }
}

proof fn lemma_none_booked(entries: Seq<JournalEntry>, w: Window, ids: Seq<i64>)
    ensures
        booked_over(entries, w, ids, 0) == 0,
    decreases ids.len(),
{
    if ids.len() > 0 {
        lemma_none_booked(entries, w, ids.drop_last());
    }
}

/// A trial balance balances: where every entry that counts balances, on accounts that are listed once,
/// the debits equal the credits and nothing is left.
pub proof fn law_trial_balances(
    entities: Seq<Entity>,
    commodities: Seq<Commodity>,
    index: Seq<AccountBrief>,
    entries: Seq<JournalEntry>,
    entity_id: i64,
    as_of: Option<Date>,
)
    requires
        ({
            let places = report_places(index, Some(entity_id));
            let ids = leaf_ids(index, places, places.len());
            &&& ids.no_duplicates()
            &&& forall|i: int|
                0 <= i < entries.len() && selects(trial_window(entity_id, as_of), #[trigger] entries[i]) ==> sound(entries[i], ids)
        }),
    ensures
        trial_of(entities, commodities, index, entries, entity_id, as_of) matches Ok(r) ==> r.net.minor == 0 && r.total_debit.minor
            == r.total_credit.minor,
{
    let w = trial_window(entity_id, as_of);
    let places = report_places(index, Some(entity_id));
    let ids = leaf_ids(index, places, places.len());
    if trial_of(entities, commodities, index, entries, entity_id, as_of) is Ok {
        let j = entity_place(entities, entity_id, 0)->0;
        let zero = nothing_in(commodities, entities[j].currency@)->Ok_0;
        lemma_trial_net(entries, w, index, places, zero, places.len());
        lemma_booked_nothing(entries, w, ids, entries.len());
    }
}

/// What the top rows of a type among the first `n` show together.
pub open spec fn top_total(rows: Seq<Shown>, t: AccountType, n: nat) -> int
    decreases n,
{
    if n == 0 {
        0
    } else {
        top_total(rows, t, (n - 1) as nat) + (if rows[n - 1].depth == 0 && rows[n - 1].account_type == t {
            rows[n - 1].amount.minor
        } else {
            0
        })
    }
}

/// What the rows of a type among the first `n` show together, those below the top too.
pub open spec fn row_total(rows: Seq<Shown>, t: AccountType, n: nat) -> int
    decreases n,
{
    if n == 0 {
        0
    } else {
        row_total(rows, t, (n - 1) as nat) + (if rows[n - 1].account_type == t {
            rows[n - 1].amount.minor
        } else {
            0
        })
    }
}

/// What the rows of a type among the first `n` that are not on the top show together.
pub open spec fn below_total(rows: Seq<Shown>, t: AccountType, n: nat) -> int
    decreases n,
{
    if n == 0 {
        0
    } else {
        below_total(rows, t, (n - 1) as nat) + (if rows[n - 1].depth != 0 && rows[n - 1].account_type == t {
            rows[n - 1].amount.minor
        } else {
            0
        })
    }
}

/// Whether a row stands right below another one, in the tree of accounts.
pub open spec fn stands_below(rows: Seq<Shown>, i: int, parent: i64, j: int) -> bool {
    &&& 0 <= j < rows.len()
    &&& rows[j].account_id == parent
    &&& rows[j].depth == rows[i].depth - 1
    &&& rows[j].account_type == rows[i].account_type
}

/// Whether rows are a forest: each is on the top, or right below another one of its type.
pub open spec fn rooted(index: Seq<AccountBrief>, rows: Seq<Shown>) -> bool {
    &&& forall|i: int, j: int| 0 <= i < j < rows.len() ==> (#[trigger] rows[i]).account_id != (#[trigger] rows[j]).account_id
    &&& forall|i: int| 0 <= i < rows.len() ==> 0 <= (#[trigger] rows[i]).depth < index.len()
    &&& forall|i: int|
        0 <= i < rows.len() ==> match parent_of(index, (#[trigger] rows[i]).account_id, 0) {
            None => rows[i].depth == 0,
            Some(p) => rows[i].depth > 0 && exists|j: int| #[trigger] stands_below(rows, i, p, j),
        }
}

/// Whether two lists have rows of the same accounts.
pub open spec fn same_shape(a: Seq<Shown>, b: Seq<Shown>) -> bool {
    a.len() == b.len() && forall|i: int|
        0 <= i < a.len() ==> (#[trigger] a[i]).account_id == b[i].account_id && a[i].depth == b[i].depth && a[i].account_type == b[i].account_type
}

proof fn lemma_rooted_shape(index: Seq<AccountBrief>, a: Seq<Shown>, b: Seq<Shown>)
    requires
        rooted(index, a),
        same_shape(a, b),
    ensures
        rooted(index, b),
{
    assert forall|i: int| 0 <= i < b.len() implies match parent_of(index, (#[trigger] b[i]).account_id, 0) {
        None => b[i].depth == 0,
        Some(p) => b[i].depth > 0 && exists|j: int| #[trigger] stands_below(b, i, p, j),
    } by {
        assert(a[i].account_id == b[i].account_id);
        if let Some(p) = parent_of(index, b[i].account_id, 0) {
            let j = choose|j: int| #[trigger] stands_below(a, i, p, j);
            assert(a[j].account_id == b[j].account_id);
            assert(stands_below(b, i, p, j));
        }
    }
    assert forall|i: int, j: int| 0 <= i < j < b.len() implies (#[trigger] b[i]).account_id != (#[trigger] b[j]).account_id by {
        assert(a[i].account_id != a[j].account_id);
    }
    assert forall|i: int| 0 <= i < b.len() implies 0 <= (#[trigger] b[i]).depth < index.len() by {
        assert(a[i].depth == b[i].depth);
    }
}

proof fn lemma_row_place(rows: Seq<Shown>, id: i64, n: nat)
    requires
        n <= rows.len(),
    ensures
        match row_place(rows, id, n) {
            Some(i) => 0 <= i < n && rows[i].account_id == id,
            None => forall|i: int| 0 <= i < n ==> (#[trigger] rows[i]).account_id != id,
        },
    decreases n,
{
    if n > 0 {
        lemma_row_place(rows, id, (n - 1) as nat);
    }
}

proof fn lemma_top_update(rows: Seq<Shown>, i: int, r: Shown, t: AccountType, n: nat)
    requires
        0 <= i < rows.len(),
        n <= rows.len(),
        r.depth == rows[i].depth,
        r.account_type == rows[i].account_type,
    ensures
        top_total(rows.update(i, r), t, n) == top_total(rows, t, n) + (if i < n && r.depth == 0 && r.account_type == t {
            r.amount.minor - rows[i].amount.minor
        } else {
            0
        }),
    decreases n,
{
    if n > 0 {
        lemma_top_update(rows, i, r, t, (n - 1) as nat);
    }
}

/// A leaf that climbs reaches one row on the top, that of its tree.
proof fn lemma_climbed(rows: Seq<Shown>, index: Seq<AccountBrief>, leaf: Leaf, i: int, steps: nat, t: AccountType)
    requires
        rooted(index, rows),
        0 <= i < rows.len(),
        rows[i].depth < steps,
    ensures
        climbed(rows, index, leaf, Some(rows[i].account_id), steps) matches Ok(v) ==> same_shape(rows, v) && top_total(v, t, v.len()) == top_total(
            rows,
            t,
            rows.len(),
        ) + (if rows[i].account_type == t {
            leaf.amount.minor
        } else {
            0
        }),
    decreases steps,
{
    let id = rows[i].account_id;
    lemma_row_place(rows, id, rows.len());
    let k = row_place(rows, id, rows.len())->0;
    assert(rows[k].account_id == rows[i].account_id && k == i);
    if let Ok(r) = row_with(rows[i], leaf) {
        let more = rows.update(i, r);
        lemma_top_update(rows, i, r, t, rows.len());
        assert(same_shape(rows, more));
        lemma_rooted_shape(index, rows, more);
        if let Some(p) = parent_of(index, id, 0) {
            let j = choose|j: int| #[trigger] stands_below(rows, i, p, j);
            assert(more[j].account_id == p && more[j].depth == rows[j].depth && more[j].account_type == rows[j].account_type) by {
                assert(rows[j].account_id == more[j].account_id);
            }
            lemma_climbed(more, index, leaf, j, (steps - 1) as nat, t);
            if let Ok(v) = climbed(more, index, leaf, Some(p), (steps - 1) as nat) {
                assert forall|x: int| 0 <= x < rows.len() implies (#[trigger] rows[x]).account_id == v[x].account_id && rows[x].depth == v[x].depth
                    && rows[x].account_type == v[x].account_type by {
                    assert(more[x].account_id == v[x].account_id);
                }
            }
        }
    }
}

/// Rolling up adds every row to the one row on the top of its tree.
proof fn lemma_rolled(rows: Seq<Shown>, index: Seq<AccountBrief>, n: nat, t: AccountType)
    requires
        rooted(index, rows),
        n <= rows.len(),
    ensures
        rolled_up(rows, index, n) matches Ok(v) ==> same_shape(rows, v) && top_total(v, t, v.len()) == top_total(rows, t, rows.len()) + below_total(
            rows,
            t,
            n,
        ),
    decreases n,
{
    if n > 0 {
        lemma_rolled(rows, index, (n - 1) as nat, t);
        if let Ok(v) = rolled_up(rows, index, (n - 1) as nat) {
            lemma_rooted_shape(index, rows, v);
            let r = rows[n - 1];
            assert(rows[n - 1].account_id == v[n - 1].account_id);
            if let Some(p) = parent_of(index, r.account_id, 0) {
                let j = choose|j: int| #[trigger] stands_below(rows, n - 1, p, j);
                assert(rows[j].account_id == v[j].account_id);
                lemma_climbed(v, index, leaf_of(r), j, index.len(), t);
                if let Ok(w) = rolled_up(rows, index, n) {
                    assert forall|x: int| 0 <= x < rows.len() implies (#[trigger] rows[x]).account_id == w[x].account_id && rows[x].depth
                        == w[x].depth && rows[x].account_type == w[x].account_type by {
                        assert(rows[x].account_id == v[x].account_id);
                        assert(v[x].account_id == w[x].account_id);
                    }
                }
            } else {
                assert(r.depth == 0);
            }
        }
    }
}

proof fn lemma_top_and_below(rows: Seq<Shown>, t: AccountType, n: nat)
    ensures
        top_total(rows, t, n) + below_total(rows, t, n) == row_total(rows, t, n),
    decreases n,
{
    if n > 0 {
        lemma_top_and_below(rows, t, (n - 1) as nat);
    }
}

/// What the rows on the top show after a roll-up is what all rows of their type showed before it: nothing
/// is lost and nothing counts twice.
pub proof fn law_rollup_conserves(rows: Seq<Shown>, index: Seq<AccountBrief>, t: AccountType)
    requires
        rooted(index, rows),
    ensures
        rolled_up(rows, index, rows.len()) matches Ok(v) ==> same_shape(rows, v) && top_total(v, t, v.len()) == row_total(rows, t, rows.len()),
{
    lemma_rolled(rows, index, rows.len(), t);
    lemma_top_and_below(rows, t, rows.len());
}

/// The accounts of the first `n` places, with or without those of income and expenses.
pub open spec fn place_ids(index: Seq<AccountBrief>, places: Seq<int>, flows: bool, n: nat) -> Seq<i64>
    decreases n,
{
    if n == 0 {
        Seq::empty()
    } else {
        let before = place_ids(index, places, flows, (n - 1) as nat);
        let a = index[places[n - 1]];
        if flows && a.account_type != AccountType::Income && a.account_type != AccountType::Expense {
            before
        } else {
            before.push(a.id)
        }
    }
}

/// Whether the accounts at some places are a forest: no account is there twice, and each is on the top or
/// right below another one of its type.
pub open spec fn planted(index: Seq<AccountBrief>, places: Seq<int>) -> bool {
    &&& forall|i: int, j: int| 0 <= i < j < index.len() ==> (#[trigger] index[i]).id != (#[trigger] index[j]).id
    &&& forall|i: int, j: int| 0 <= i < j < places.len() ==> #[trigger] places[i] != #[trigger] places[j]
    &&& forall|k: int| 0 <= k < places.len() ==> 0 <= #[trigger] places[k] < index.len()
    &&& forall|k: int|
        0 <= k < places.len() ==> 0 <= index[#[trigger] places[k]].depth < index.len() && match index[places[k]].parent_id {
            None => index[places[k]].depth == 0,
            Some(p) => index[places[k]].depth > 0 && exists|m: int| #[trigger] planted_below(index, places, k, p, m),
        }
}

pub open spec fn planted_below(index: Seq<AccountBrief>, places: Seq<int>, k: int, parent: i64, m: int) -> bool {
    &&& 0 <= m < places.len()
    &&& index[places[m]].id == parent
    &&& index[places[m]].depth == index[places[k]].depth - 1
    &&& index[places[m]].account_type == index[places[k]].account_type
}

proof fn lemma_parent(index: Seq<AccountBrief>, k: int, from: int)
    requires
        0 <= from <= k < index.len(),
        forall|i: int, j: int| 0 <= i < j < index.len() ==> (#[trigger] index[i]).id != (#[trigger] index[j]).id,
    ensures
        parent_of(index, index[k].id, from) == index[k].parent_id,
    decreases k - from,
{
    if from < k {
        assert(index[from].id != index[k].id);
        lemma_parent(index, k, from + 1);
    }
}

/// Whether each row is of a place, and each place of a kind has its row.
pub open spec fn rows_of_places(index: Seq<AccountBrief>, places: Seq<int>, rows: Seq<Shown>, flows: bool, n: nat) -> bool {
    &&& forall|i: int| 0 <= i < rows.len() ==> #[trigger] has_place(index, places, rows, flows, n, i)
    &&& forall|k: int|
        0 <= k < n && is_flow(index[#[trigger] places[k]].account_type) == flows ==> exists|i: int| #[trigger]
            row_of(index, places, rows, flows, n, i, k)
    &&& forall|i: int, j: int, k: int|
        #[trigger] row_of(index, places, rows, flows, n, i, k) && #[trigger] row_of(index, places, rows, flows, n, j, k) ==> i == j
}

pub open spec fn has_place(index: Seq<AccountBrief>, places: Seq<int>, rows: Seq<Shown>, flows: bool, n: nat, i: int) -> bool {
    exists|k: int| #[trigger] row_of(index, places, rows, flows, n, i, k)
}

pub open spec fn row_of(index: Seq<AccountBrief>, places: Seq<int>, rows: Seq<Shown>, flows: bool, n: nat, i: int, k: int) -> bool {
    &&& 0 <= i < rows.len()
    &&& 0 <= k < n
    &&& rows[i].account_id == index[places[k]].id
    &&& rows[i].depth == index[places[k]].depth
    &&& rows[i].account_type == index[places[k]].account_type
    &&& is_flow(index[places[k]].account_type) == flows
}

proof fn lemma_row_added(index: Seq<AccountBrief>, places: Seq<int>, rows: Seq<Shown>, r: Shown, flows: bool, n: nat)
    requires
        planted(index, places),
        n < places.len(),
        rows_of_places(index, places, rows, flows, n),
        r.account_id == index[places[n as int]].id,
        r.depth == index[places[n as int]].depth,
        r.account_type == index[places[n as int]].account_type,
        is_flow(r.account_type) == flows,
    ensures
        rows_of_places(index, places, rows.push(r), flows, n + 1),
{
    let more = rows.push(r);
    assert forall|i: int| 0 <= i < more.len() implies #[trigger] has_place(index, places, more, flows, n + 1, i) by {
        if i < rows.len() {
            assert(has_place(index, places, rows, flows, n, i));
            let k = choose|k: int| #[trigger] row_of(index, places, rows, flows, n, i, k);
            assert(row_of(index, places, more, flows, n + 1, i, k));
        } else {
            assert(row_of(index, places, more, flows, n + 1, i, n as int));
        }
    }
    assert forall|k: int| 0 <= k < n + 1 && is_flow(index[#[trigger] places[k]].account_type) == flows implies exists|i: int| #[trigger]
        row_of(index, places, more, flows, n + 1, i, k) by {
        if k < n {
            let i = choose|i: int| #[trigger] row_of(index, places, rows, flows, n, i, k);
            assert(row_of(index, places, more, flows, n + 1, i, k));
        } else {
            assert(row_of(index, places, more, flows, n + 1, rows.len() as int, k));
        }
    }
    assert forall|i: int, j: int, k: int| #[trigger]
        row_of(index, places, more, flows, n + 1, i, k) && #[trigger] row_of(index, places, more, flows, n + 1, j, k) implies i == j by {
        lemma_row_elsewhere(index, places, rows, r, flows, n, i, k);
        lemma_row_elsewhere(index, places, rows, r, flows, n, j, k);
    }
}

/// A row that was there before is of a place before the new one.
proof fn lemma_row_elsewhere(index: Seq<AccountBrief>, places: Seq<int>, rows: Seq<Shown>, r: Shown, flows: bool, n: nat, i: int, k: int)
    requires
        planted(index, places),
        n < places.len(),
        rows_of_places(index, places, rows, flows, n),
        r.account_id == index[places[n as int]].id,
        row_of(index, places, rows.push(r), flows, n + 1, i, k),
    ensures
        i < rows.len() ==> k < n && row_of(index, places, rows, flows, n, i, k),
        i == rows.len() ==> k == n,
{
    assert(places[k] != places[n as int] || k == n);
    if i < rows.len() {
        assert(has_place(index, places, rows, flows, n, i));
        let m = choose|m: int| #[trigger] row_of(index, places, rows, flows, n, i, m);
        assert(places[m] != places[n as int]);
        assert(index[places[m]].id == rows[i].account_id);
        let (x, y) = (places[m], places[n as int]);
        assert(0 <= x < index.len() && 0 <= y < index.len());
        if x < y {
            assert(index[x].id != index[y].id);
        } else {
            assert(index[y].id != index[x].id);
        }
        assert(k != n);
    } else {
        let (x, y) = (places[k], places[n as int]);
        assert(0 <= x < index.len() && 0 <= y < index.len());
        if x < y {
            assert(index[x].id != index[y].id);
        } else if y < x {
            assert(index[y].id != index[x].id);
        }
    }
}

proof fn lemma_place_passed(index: Seq<AccountBrief>, places: Seq<int>, rows: Seq<Shown>, flows: bool, n: nat)
    requires
        n < places.len(),
        rows_of_places(index, places, rows, flows, n),
        is_flow(index[places[n as int]].account_type) != flows,
    ensures
        rows_of_places(index, places, rows, flows, n + 1),
{
    assert forall|i: int| 0 <= i < rows.len() implies #[trigger] has_place(index, places, rows, flows, n + 1, i) by {
        assert(has_place(index, places, rows, flows, n, i));
        let k = choose|k: int| #[trigger] row_of(index, places, rows, flows, n, i, k);
        assert(row_of(index, places, rows, flows, n + 1, i, k));
    }
    assert forall|k: int| 0 <= k < n + 1 && is_flow(index[#[trigger] places[k]].account_type) == flows implies exists|i: int| #[trigger]
        row_of(index, places, rows, flows, n + 1, i, k) by {
        let i = choose|i: int| #[trigger] row_of(index, places, rows, flows, n, i, k);
        assert(row_of(index, places, rows, flows, n + 1, i, k));
    }
    assert forall|i: int, j: int, k: int| #[trigger]
        row_of(index, places, rows, flows, n + 1, i, k) && #[trigger] row_of(index, places, rows, flows, n + 1, j, k) implies i == j by {
        assert(row_of(index, places, rows, flows, n, i, k));
        assert(row_of(index, places, rows, flows, n, j, k));
    }
}

proof fn lemma_rows_rooted(index: Seq<AccountBrief>, places: Seq<int>, rows: Seq<Shown>, flows: bool)
    requires
        planted(index, places),
        rows_of_places(index, places, rows, flows, places.len()),
    ensures
        rooted(index, rows),
{
    let n = places.len();
    assert forall|i: int, j: int| 0 <= i < j < rows.len() implies (#[trigger] rows[i]).account_id != (#[trigger] rows[j]).account_id by {
        assert(has_place(index, places, rows, flows, n, i));
        let k = choose|k: int| #[trigger] row_of(index, places, rows, flows, n, i, k);
        assert(has_place(index, places, rows, flows, n, j));
        let m = choose|m: int| #[trigger] row_of(index, places, rows, flows, n, j, m);
        if rows[i].account_id == rows[j].account_id {
            let (x, y) = (places[k], places[m]);
            if x < y {
                assert(index[x].id != index[y].id);
            } else if y < x {
                assert(index[y].id != index[x].id);
            }
            if k < m {
                assert(places[k] != places[m]);
            } else if m < k {
                assert(places[m] != places[k]);
            }
        }
    }
    assert forall|i: int| 0 <= i < rows.len() implies 0 <= (#[trigger] rows[i]).depth < index.len() by {
        assert(has_place(index, places, rows, flows, n, i));
        let k = choose|k: int| #[trigger] row_of(index, places, rows, flows, n, i, k);
        assert(0 <= places[k] < index.len());
    }
    assert forall|i: int| 0 <= i < rows.len() implies match parent_of(index, (#[trigger] rows[i]).account_id, 0) {
        None => rows[i].depth == 0,
        Some(p) => rows[i].depth > 0 && exists|j: int| #[trigger] stands_below(rows, i, p, j),
    } by {
        assert(has_place(index, places, rows, flows, n, i));
        let k = choose|k: int| #[trigger] row_of(index, places, rows, flows, n, i, k);
        assert(0 <= places[k] < index.len());
        lemma_parent(index, places[k], 0);
        if let Some(p) = index[places[k]].parent_id {
            let m = choose|m: int| #[trigger] planted_below(index, places, k, p, m);
            assert(is_flow(index[places[m]].account_type) == flows);
            let j = choose|j: int| #[trigger] row_of(index, places, rows, flows, n, j, m);
            assert(stands_below(rows, i, p, j));
        }
    }
}

proof fn lemma_total_in_range(entries: Seq<JournalEntry>, w: Window, id: i64, functional: bool, n: nat)
    ensures
        account_total(entries, w, id, functional, n) matches Some(t) ==> i64::MIN <= t <= i64::MAX,
    decreases n,
{
    if n > 0 {
        lemma_total_in_range(entries, w, id, functional, (n - 1) as nat);
        let e = entries[n - 1];
        let t = account_total(entries, w, id, functional, (n - 1) as nat);
        lemma_postings_in_range(t, e.postings@, id, functional, e.postings@.len());
    }
}

proof fn lemma_postings_in_range(total: Option<int>, v: Seq<Posting>, id: i64, functional: bool, n: nat)
    requires
        total matches Some(t) ==> i64::MIN <= t <= i64::MAX,
    ensures
        with_postings(total, v, id, functional, n) matches Some(t) ==> i64::MIN <= t <= i64::MAX,
    decreases n,
{
    if n > 0 {
        lemma_postings_in_range(total, v, id, functional, (n - 1) as nat);
    }
}

/// A value is converted by multiplying it with the rate, up to a minor unit.
pub proof fn law_converted_at_rate(v: Amount, rate: Num, zero: Amount)
    requires
        v.precision <= 8,
        i64::MIN <= v.minor <= i64::MAX,
    ensures
        converted(v, rate, zero) matches Ok(a) ==> a.precision == zero.precision && distance(
            a.minor as real,
            in_major(v) * value(rate) * (pow10(zero.precision) as real),
        ) < 1real,
{
    if let Ok(a) = converted(v, rate, zero) {
        let n = normal((v.minor, v.precision));
        lemma_normal((v.minor, v.precision));
        lemma_same_value(n, (v.minor, v.precision));
        let product = multiplied(n, rate)->0;
        law_arithmetic_near(n, rate);
        law_minor_nearest(product, zero.precision);
        lemma_money_size(v);
        lemma_money_size(a);
        assert(near(value(rate), rate));
        lemma_converted_near(value(rate), in_major(v), pow10(zero.precision) as real, rate, product, a.minor);
    }
}

/// In its own currency an amount stays what it is.
proof fn lemma_converted_same(v: Amount, zero: Amount)
    requires
        v.precision == zero.precision <= 8,
        i64::MIN <= v.minor <= i64::MAX,
    ensures
        converted(v, (1, 0), zero) matches Ok(a) ==> a.minor == v.minor,
{
    law_converted_at_rate(v, (1, 0), zero);
    lemma_value_whole(1);
    lemma_units((v.minor, v.precision), v.precision);
    let one = pow10((v.precision - v.precision) as nat);
    assert(one == 1);
    assert(v.minor * one == v.minor) by (nonlinear_arith)
        requires
            one == 1,
    ;
    let x = in_major(v);
    assert(x * 1real == x) by (nonlinear_arith);
}

/// What the accounts of the first `n` places show in a sheet is what is booked on them, with the signs
/// that are normal for them.
proof fn lemma_sheet_books(entries: Seq<JournalEntry>, f: Frame, index: Seq<AccountBrief>, places: Seq<int>, n: nat)
    requires
        planted(index, places),
        n <= places.len(),
        f.functional.precision == f.zero.precision <= 8,
    ensures
        sheet_after(entries, f, (1, 0), index, places, n) matches Ok(s) ==> {
            &&& rows_of_places(index, places, s.rows, false, n)
            &&& row_total(s.rows, AccountType::Asset, s.rows.len()) - row_total(s.rows, AccountType::Liability, s.rows.len()) - row_total(
                s.rows,
                AccountType::Equity,
                s.rows.len(),
            ) - total_minor(s.profits) == booked_over(entries, f.w, place_ids(index, places, false, n), entries.len())
            &&& total_minor(s.profits) == -booked_over(entries, f.w, place_ids(index, places, true, n), entries.len())
        },
    decreases n,
{
    if n > 0 {
        let m = (n - 1) as nat;
        lemma_sheet_books(entries, f, index, places, m);
        let a = index[places[n - 1]];
        if let Ok(s) = sheet_after(entries, f, (1, 0), index, places, m) {
            if let Ok(after) = sheet_with(s, entries, f, (1, 0), a) {
                let (q, v) = holdings(entries, f.w, a, f.functional)->Ok_0;
                lemma_account_total(entries, f.w, a.id, entries.len());
                lemma_total_in_range(entries, f.w, a.id, true, entries.len());
                lemma_converted_same(v, f.zero);
                let (all, flows) = (place_ids(index, places, false, m), place_ids(index, places, true, m));
                assert(all.push(a.id).drop_last() =~= all);
                assert(flows.push(a.id).drop_last() =~= flows);
                if is_flow(a.account_type) {
                    assert(after.profits.drop_last() =~= s.profits);
                    lemma_place_passed(index, places, s.rows, false, m);
                } else {
                    let r = after.rows.last();
                    assert(after.rows =~= s.rows.push(r));
                    lemma_row_added(index, places, s.rows, r, false, m);
                    lemma_row_pushed(s.rows, r, AccountType::Asset, s.rows.len());
                    lemma_row_pushed(s.rows, r, AccountType::Liability, s.rows.len());
                    lemma_row_pushed(s.rows, r, AccountType::Equity, s.rows.len());
                }
            }
        }
    } else {
        assert(rows_of_places(index, places, Seq::<Shown>::empty(), false, 0));
    }
}

proof fn lemma_row_pushed(rows: Seq<Shown>, r: Shown, t: AccountType, n: nat)
    requires
        n <= rows.len(),
    ensures
        row_total(rows.push(r), t, n) == row_total(rows, t, n),
    decreases n,
{
    if n > 0 {
        lemma_row_pushed(rows, r, t, (n - 1) as nat);
    }
}

proof fn lemma_top_amounts(rows: Seq<Shown>, t: AccountType, n: nat)
    ensures
        total_minor(top_amounts(rows, t, n)) == top_total(rows, t, n),
    decreases n,
{
    if n > 0 {
        lemma_top_amounts(rows, t, (n - 1) as nat);
        let rest = top_amounts(rows, t, (n - 1) as nat);
        assert(rest.push(rows[n - 1].amount).drop_last() =~= rest);
    }
}

/// What the top rows among the first `n` that show something show together.
proof fn lemma_moved_total(rows: Seq<Shown>, t: AccountType, n: nat)
    requires
        n <= rows.len(),
    ensures
        top_total(moved_rows(rows, n), t, moved_rows(rows, n).len()) == top_total(rows, t, n),
    decreases n,
{
    if n > 0 {
        let before = moved_rows(rows, (n - 1) as nat);
        lemma_moved_total(rows, t, (n - 1) as nat);
        lemma_top_pushed(before, rows[n - 1], t, before.len());
    }
}

proof fn lemma_top_pushed(rows: Seq<Shown>, r: Shown, t: AccountType, n: nat)
    requires
        n <= rows.len(),
    ensures
        top_total(rows.push(r), t, n) == top_total(rows, t, n),
    decreases n,
{
    if n > 0 {
        lemma_top_pushed(rows, r, t, (n - 1) as nat);
    }
}

/// What the assets on the top among the first `n` rows are worth together: at market value where there is
/// one.
pub open spec fn worth_total(rows: Seq<Shown>, n: nat) -> int
    decreases n,
{
    if n == 0 {
        0
    } else {
        let r = rows[n - 1];
        worth_total(rows, (n - 1) as nat) + (if r.depth == 0 && r.account_type == AccountType::Asset {
            match r.market {
                Some(m) => m.minor,
                None => r.amount.minor,
            }
        } else {
            0
        })
    }
}

proof fn lemma_worths(rows: Seq<Shown>, n: nat)
    requires
        n <= rows.len(),
    ensures
        total_minor(top_worths(rows, n)) == worth_total(rows, n),
        worth_total(moved_rows(rows, n), moved_rows(rows, n).len()) == worth_total(rows, n),
    decreases n,
{
    if n > 0 {
        lemma_worths(rows, (n - 1) as nat);
        let rest = top_worths(rows, (n - 1) as nat);
        let r = rows[n - 1];
        let worth = match r.market {
            Some(m) => m,
            None => r.amount,
        };
        assert(rest.push(worth).drop_last() =~= rest);
        let before = moved_rows(rows, (n - 1) as nat);
        lemma_worth_pushed(before, r, before.len());
    }
}

proof fn lemma_worth_pushed(rows: Seq<Shown>, r: Shown, n: nat)
    requires
        n <= rows.len(),
    ensures
        worth_total(rows.push(r), n) == worth_total(rows, n),
    decreases n,
{
    if n > 0 {
        lemma_worth_pushed(rows, r, (n - 1) as nat);
    }
}

/// Whether the row `m` of a sheet is the one of the retained earnings and closes it: the assets before it,
/// at book value, less the liabilities are the equity before it and the retained earnings together.
pub open spec fn closes(rows: Seq<Shown>, m: int) -> bool {
    &&& 0 <= m < rows.len()
    &&& rows[m].name == "Retained earnings"@ && rows[m].account_type == AccountType::Equity
    &&& top_total(rows.take(m), AccountType::Asset, m as nat) - top_total(rows.take(m), AccountType::Liability, m as nat) == top_total(
        rows.take(m),
        AccountType::Equity,
        m as nat,
    ) + rows[m].amount.minor
}

proof fn lemma_books_close(entries: Seq<JournalEntry>, index: Seq<AccountBrief>, f: Frame)
    requires
        f.entity.currency@ == f.code,
        f.functional == f.zero,
        f.zero.minor == 0,
        f.zero.precision <= 8,
        planted(index, report_places(index, Some(f.entity.id))),
        ({
            let places = report_places(index, Some(f.entity.id));
            let ids = place_ids(index, places, false, places.len());
            ids.no_duplicates() && forall|i: int| 0 <= i < entries.len() && selects(f.w, #[trigger] entries[i]) ==> sound(entries[i], ids)
        }),
    ensures
        books_of(entries, index, f) matches Ok(x) ==> {
            let places = report_places(index, Some(f.entity.id));
            let flows = place_ids(index, places, true, places.len());
            exists|m: int| #[trigger]
                closes(x.rows, m) && m + 2 >= x.rows.len() && x.rows[m].amount.minor == -booked_over(entries, f.w, flows, entries.len())
                    && x.total.debit.minor == worth_total(x.rows.take(m), m as nat) && x.total.credit.minor == top_total(
                    x.rows.take(m),
                    AccountType::Liability,
                    m as nat,
                ) && x.total.amount.minor == x.total.debit.minor - x.total.credit.minor
        },
{
    let places = report_places(index, Some(f.entity.id));
    if let Ok(x) = books_of(entries, index, f) {
        let s = sheet_after(entries, f, (1, 0), index, places, places.len())->Ok_0;
        lemma_sheet_books(entries, f, index, places, places.len());
        lemma_rows_rooted(index, places, s.rows, false);
        let rolled = rolled_up(s.rows, index, s.rows.len())->Ok_0;
        let kept = moved_rows(rolled, rolled.len());
        law_rollup_conserves(s.rows, index, AccountType::Asset);
        law_rollup_conserves(s.rows, index, AccountType::Liability);
        law_rollup_conserves(s.rows, index, AccountType::Equity);
        lemma_moved_total(rolled, AccountType::Asset, rolled.len());
        lemma_moved_total(rolled, AccountType::Liability, rolled.len());
        lemma_moved_total(rolled, AccountType::Equity, rolled.len());
        lemma_top_amounts(rolled, AccountType::Liability, rolled.len());
        lemma_worths(rolled, rolled.len());
        lemma_booked_nothing(entries, f.w, place_ids(index, places, false, places.len()), entries.len());
        let m = kept.len() as int;
        assert(x.rows.take(m) =~= kept);
        assert(closes(x.rows, m));
    }
}

/// The accounting equation. Where every entry that counts balances, on accounts that are listed once, the
/// balance sheet of an entity in its own currency closes: assets at book value less liabilities are the
/// equity and the retained earnings. The retained earnings are what was earned less what was spent, so
/// what is booked on the accounts of income and expenses, turned round. The totals are those of the rows.
pub proof fn law_balance_sheet_closes(b: Sources, entity_id: i64, as_of: Option<Date>, today: Date, currency: Seq<char>, j: int)
    requires
        entity_place(b.entities, entity_id, 0) == Some(j),
        b.entities[j].id == entity_id,
        blank(currency) || code_form(currency) == b.entities[j].currency@,
        planted(b.index, report_places(b.index, Some(entity_id))),
        ({
            let places = report_places(b.index, Some(entity_id));
            let ids = place_ids(b.index, places, false, places.len());
            ids.no_duplicates() && forall|i: int|
                0 <= i < b.entries.len() && selects(trial_window(entity_id, as_of), #[trigger] b.entries[i]) ==> sound(b.entries[i], ids)
        }),
    ensures
        sheet_of(b, Some(entity_id), as_of, today, currency) matches Ok(r) ==> {
            let places = report_places(b.index, Some(entity_id));
            let flows = place_ids(b.index, places, true, places.len());
            exists|m: int| #[trigger]
                closes(r.rows, m) && m + 2 >= r.rows.len() && r.rows[m].amount.minor == -booked_over(
                    b.entries,
                    trial_window(entity_id, as_of),
                    flows,
                    b.entries.len(),
                ) && r.total_debit.minor == worth_total(r.rows.take(m), m as nat) && r.total_credit.minor == top_total(
                    r.rows.take(m),
                    AccountType::Liability,
                    m as nat,
                ) && r.net.minor == r.total_debit.minor - r.total_credit.minor
        },
{
    if sheet_of(b, Some(entity_id), as_of, today, currency) is Ok {
        let f = own_frame(b, j, as_of, today);
        lemma_one_sheet(b, entity_id, as_of, today, currency, j);
        lemma_books_close(b.entries, b.index, f);
    }
}

/// The frame of an entity's books in its own currency.
spec fn own_frame(b: Sources, j: int, as_of: Option<Date>, today: Date) -> Frame {
    let code = b.entities[j].currency@;
    let zero = nothing_in(b.commodities, code)->Ok_0;
    let on = match as_of {
        Some(d) => d,
        None => today,
    };
    frame_of(b, j, as_of, on, code, zero, zero)
}

proof fn lemma_one_sheet(b: Sources, entity_id: i64, as_of: Option<Date>, today: Date, currency: Seq<char>, j: int)
    requires
        entity_place(b.entities, entity_id, 0) == Some(j),
        blank(currency) || code_form(currency) == b.entities[j].currency@,
    ensures
        sheet_of(b, Some(entity_id), as_of, today, currency) matches Ok(r) ==> {
            let f = own_frame(b, j, as_of, today);
            let x = books_of(b.entries, b.index, f);
            &&& f.zero.minor == 0 && f.zero.precision <= 8
            &&& x is Ok
            &&& r.rows == x->Ok_0.rows
            &&& r.total_debit.minor == x->Ok_0.total.debit.minor
            &&& r.total_credit.minor == x->Ok_0.total.credit.minor
            &&& r.net.minor == r.total_debit.minor - r.total_credit.minor
        },
{
    if let Ok(r) = sheet_of(b, Some(entity_id), as_of, today, currency) {
        let f = own_frame(b, j, as_of, today);
        let (code, zero, on) = (f.code, f.zero, f.on);
        assert(seq![j][0] == j);
        reveal_with_fuel(sheets_after, 2);
        let x = books_of(b.entries, b.index, f)->Ok_0;
        let (rows, summary) = sheets_after(b, seq![j], as_of, on, code, zero, 1)->Ok_0;
        assert(rows =~= x.rows);
        assert(summary =~= seq![x.total]);
        lemma_one_by_name(x.total);
        assert(debits(seq![x.total]).drop_last() =~= Seq::<Amount>::empty());
        assert(credits(seq![x.total]).drop_last() =~= Seq::<Amount>::empty());
        assert(debits(seq![x.total]).last() == x.total.debit);
        assert(credits(seq![x.total]).last() == x.total.credit);
        assert(total_minor(Seq::<Amount>::empty()) == 0);
    }
}

proof fn lemma_one_by_name(r: Shown)
    ensures
        by_name(seq![r]) == seq![r],
{
    let ranks = name_ranks(seq![r]);
    assert(ranks.len() == 1);
    law_sorted(ranks);
    assert(by_name(seq![r]) =~= seq![r]);
}

/// The accounts of a type at the first `n` places.
pub open spec fn type_ids(index: Seq<AccountBrief>, places: Seq<int>, t: AccountType, n: nat) -> Seq<i64>
    decreases n,
{
    if n == 0 {
        Seq::empty()
    } else {
        let before = type_ids(index, places, t, (n - 1) as nat);
        if index[places[n - 1]].account_type == t {
            before.push(index[places[n - 1]].id)
        } else {
            before
        }
    }
}

proof fn lemma_flow_books(entries: Seq<JournalEntry>, w: Window, index: Seq<AccountBrief>, places: Seq<int>, zero: Amount, n: nat)
    requires
        planted(index, places),
        n <= places.len(),
    ensures
        flow_rows(entries, w, index, places, zero, n) matches Ok(rows) ==> {
            let (income, expenses) = (
                booked_over(entries, w, type_ids(index, places, AccountType::Income, n), entries.len()),
                booked_over(entries, w, type_ids(index, places, AccountType::Expense, n), entries.len()),
            );
            &&& rows_of_places(index, places, rows, true, n)
            &&& row_total(rows, AccountType::Income, rows.len()) == -income
            &&& row_total(rows, AccountType::Expense, rows.len()) == expenses
            &&& booked_over(entries, w, place_ids(index, places, true, n), entries.len()) == income + expenses
        },
    decreases n,
{
    if n > 0 {
        let m = (n - 1) as nat;
        lemma_flow_books(entries, w, index, places, zero, m);
        let a = index[places[n - 1]];
        if let Ok(rows) = flow_rows(entries, w, index, places, zero, m) {
            if !is_flow(a.account_type) {
                lemma_place_passed(index, places, rows, true, m);
            } else if let Ok(after) = flow_rows(entries, w, index, places, zero, n) {
                lemma_account_total(entries, w, a.id, entries.len());
                let r = after.last();
                assert(after =~= rows.push(r));
                lemma_row_added(index, places, rows, r, true, m);
                lemma_row_pushed(rows, r, AccountType::Income, rows.len());
                lemma_row_pushed(rows, r, AccountType::Expense, rows.len());
                let (x, y, z) = (
                    type_ids(index, places, AccountType::Income, m),
                    type_ids(index, places, AccountType::Expense, m),
                    place_ids(index, places, true, m),
                );
                assert(x.push(a.id).drop_last() =~= x);
                assert(y.push(a.id).drop_last() =~= y);
                assert(z.push(a.id).drop_last() =~= z);
            }
        }
    } else {
        assert(rows_of_places(index, places, Seq::<Shown>::empty(), true, 0));
    }
}

/// The income statement shows what was booked in its period: the income is what the accounts of income
/// were credited, the expenses what the accounts of expenses were debited, and the net is what is left of
/// the income.
pub proof fn law_income_statement(
    entities: Seq<Entity>,
    commodities: Seq<Commodity>,
    index: Seq<AccountBrief>,
    entries: Seq<JournalEntry>,
    entity_id: i64,
    from: Option<Date>,
    to: Option<Date>,
)
    requires
        planted(index, report_places(index, Some(entity_id))),
    ensures
        income_of(entities, commodities, index, entries, entity_id, from, to) matches Ok(r) ==> {
            let places = report_places(index, Some(entity_id));
            let w = Window { entity_id: Some(entity_id), from, to, before: None, drafts: false };
            &&& r.total_credit.minor == -booked_over(entries, w, type_ids(index, places, AccountType::Income, places.len()), entries.len())
            &&& r.total_debit.minor == booked_over(entries, w, type_ids(index, places, AccountType::Expense, places.len()), entries.len())
            &&& r.net.minor == r.total_credit.minor - r.total_debit.minor
            &&& r.total_credit.minor == top_total(r.rows, AccountType::Income, r.rows.len())
            &&& r.total_debit.minor == top_total(r.rows, AccountType::Expense, r.rows.len())
            &&& r.net.minor == -booked_over(entries, w, place_ids(index, places, true, places.len()), entries.len())
        },
{
    if let Ok(r) = income_of(entities, commodities, index, entries, entity_id, from, to) {
        let places = report_places(index, Some(entity_id));
        let j = entity_place(entities, entity_id, 0)->0;
        let zero = nothing_in(commodities, entities[j].currency@)->Ok_0;
        let w = flow_window(entity_id, from, to);
        lemma_flow_books(entries, w, index, places, zero, places.len());
        let leaves = flow_rows(entries, w, index, places, zero, places.len())->Ok_0;
        lemma_rows_rooted(index, places, leaves, true);
        law_rollup_conserves(leaves, index, AccountType::Income);
        law_rollup_conserves(leaves, index, AccountType::Expense);
        let rows = rolled_up(leaves, index, leaves.len())->Ok_0;
        lemma_top_amounts(rows, AccountType::Income, rows.len());
        lemma_top_amounts(rows, AccountType::Expense, rows.len());
        lemma_moved_total(rows, AccountType::Income, rows.len());
        lemma_moved_total(rows, AccountType::Expense, rows.len());
    }
}

/// The retained earnings of a balance sheet are the net of the income statement over the same days.
pub proof fn law_retained_is_net_income(b: Sources, entity_id: i64, as_of: Option<Date>, today: Date, currency: Seq<char>, j: int)
    requires
        entity_place(b.entities, entity_id, 0) == Some(j),
        b.entities[j].id == entity_id,
        blank(currency) || code_form(currency) == b.entities[j].currency@,
        planted(b.index, report_places(b.index, Some(entity_id))),
        ({
            let places = report_places(b.index, Some(entity_id));
            let ids = place_ids(b.index, places, false, places.len());
            ids.no_duplicates() && forall|i: int|
                0 <= i < b.entries.len() && selects(trial_window(entity_id, as_of), #[trigger] b.entries[i]) ==> sound(b.entries[i], ids)
        }),
    ensures
        sheet_of(b, Some(entity_id), as_of, today, currency) matches Ok(r) ==> (income_of(
            b.entities,
            b.commodities,
            b.index,
            b.entries,
            entity_id,
            None,
            as_of,
        ) matches Ok(s) ==> exists|m: int| #[trigger] closes(r.rows, m) && r.rows[m].amount.minor == s.net.minor),
{
    law_balance_sheet_closes(b, entity_id, as_of, today, currency, j);
    law_income_statement(b.entities, b.commodities, b.index, b.entries, entity_id, None, as_of);
}

/// A row of the trial balance shows what is booked on its account: as a debit where that is above zero, as
/// a credit where it is below. An account without a row has nothing booked on it.
pub proof fn law_trial_row(entries: Seq<JournalEntry>, w: Window, a: AccountBrief, zero: Amount)
    requires
        zero.minor == 0,
        !a.placeholder,
    ensures
        ({
            let booked = booked_on(entries, w, a.id, entries.len());
            match trial_row(entries, w, a, zero) {
                Ok(Some(r)) => {
                    &&& r.account_id == a.id && r.path == a.path@ && r.account_type == a.account_type
                    &&& r.debit.minor == (if booked > 0 {
                        booked
                    } else {
                        0
                    })
                    &&& r.credit.minor == (if booked < 0 {
                        -booked
                    } else {
                        0
                    })
                },
                Ok(None) => booked == 0,
                Err(_) => true,
            }
        }),
{
    lemma_account_total(entries, w, a.id, entries.len());
}

/// Whether only rows of assets have a market value.
pub open spec fn assets_priced(rows: Seq<Shown>) -> bool {
    forall|i: int| 0 <= i < rows.len() && (#[trigger] rows[i]).account_type != AccountType::Asset ==> rows[i].market is None
}

proof fn lemma_climbed_priced(rows: Seq<Shown>, index: Seq<AccountBrief>, leaf: Leaf, i: int, steps: nat)
    requires
        rooted(index, rows),
        assets_priced(rows),
        0 <= i < rows.len(),
        rows[i].account_type != AccountType::Asset ==> leaf.market is None,
    ensures
        climbed(rows, index, leaf, Some(rows[i].account_id), steps) matches Ok(v) ==> assets_priced(v),
    decreases steps,
{
    let id = rows[i].account_id;
    lemma_row_place(rows, id, rows.len());
    let k = row_place(rows, id, rows.len())->0;
    assert(rows[k].account_id == rows[i].account_id && k == i);
    if steps > 0 {
        if let Ok(r) = row_with(rows[i], leaf) {
            let more = rows.update(i, r);
            assert(same_shape(rows, more));
            lemma_rooted_shape(index, rows, more);
            assert(assets_priced(more));
            if let Some(p) = parent_of(index, id, 0) {
                let j = choose|j: int| #[trigger] stands_below(rows, i, p, j);
                assert(more[j].account_id == p && more[j].account_type == rows[j].account_type) by {
                    assert(rows[j].account_id == more[j].account_id);
                }
                lemma_climbed_priced(more, index, leaf, j, (steps - 1) as nat);
            }
        }
    }
}

proof fn lemma_rolled_priced(rows: Seq<Shown>, index: Seq<AccountBrief>, n: nat)
    requires
        rooted(index, rows),
        assets_priced(rows),
        n <= rows.len(),
    ensures
        rolled_up(rows, index, n) matches Ok(v) ==> assets_priced(v),
    decreases n,
{
    if n > 0 {
        lemma_rolled_priced(rows, index, (n - 1) as nat);
        lemma_rolled(rows, index, (n - 1) as nat, AccountType::Asset);
        if let Ok(v) = rolled_up(rows, index, (n - 1) as nat) {
            lemma_rooted_shape(index, rows, v);
            let r = rows[n - 1];
            if let Some(p) = parent_of(index, r.account_id, 0) {
                let j = choose|j: int| #[trigger] stands_below(rows, n - 1, p, j);
                assert(rows[j].account_id == v[j].account_id);
                lemma_climbed_priced(v, index, leaf_of(r), j, index.len());
            }
        }
    }
}

proof fn lemma_gains(rows: Seq<Shown>, n: nat)
    requires
        assets_priced(rows),
        n <= rows.len(),
    ensures
        top_gains(rows, n) matches Ok(g) ==> total_minor(g) == worth_total(rows, n) - top_total(rows, AccountType::Asset, n),
    decreases n,
{
    if n > 0 {
        lemma_gains(rows, (n - 1) as nat);
        if let Ok(rest) = top_gains(rows, (n - 1) as nat) {
            let r = rows[n - 1];
            if let Some(m) = r.market {
                if let Ok(g) = minus(m, r.amount) {
                    assert(rest.push(g).drop_last() =~= rest);
                }
            }
        }
    }
}

proof fn lemma_sheet_priced(entries: Seq<JournalEntry>, f: Frame, rate: Num, index: Seq<AccountBrief>, places: Seq<int>, n: nat)
    requires
        n <= places.len(),
        forall|k: int|
            0 <= k < places.len() && index[#[trigger] places[k]].subtype@ == "holding"@ ==> index[places[k]].account_type == AccountType::Asset,
    ensures
        sheet_after(entries, f, rate, index, places, n) matches Ok(s) ==> assets_priced(s.rows),
    decreases n,
{
    if n > 0 {
        lemma_sheet_priced(entries, f, rate, index, places, (n - 1) as nat);
        assert(index[places[n - 1]].subtype@ == "holding"@ ==> index[places[n - 1]].account_type == AccountType::Asset);
    }
}

/// Net worth is explained: where only assets are priced at market, what is owned less what is owed is the
/// equity, the retained earnings and the unrealised gains, which are what the market says above the books.
pub proof fn law_net_worth_explained(b: Sources, entity_id: i64, as_of: Option<Date>, today: Date, currency: Seq<char>, j: int)
    requires
        entity_place(b.entities, entity_id, 0) == Some(j),
        b.entities[j].id == entity_id,
        blank(currency) || code_form(currency) == b.entities[j].currency@,
        planted(b.index, report_places(b.index, Some(entity_id))),
        ({
            let places = report_places(b.index, Some(entity_id));
            let ids = place_ids(b.index, places, false, places.len());
            &&& ids.no_duplicates()
            &&& forall|i: int|
                0 <= i < b.entries.len() && selects(trial_window(entity_id, as_of), #[trigger] b.entries[i]) ==> sound(b.entries[i], ids)
            &&& forall|k: int|
                0 <= k < places.len() && b.index[#[trigger] places[k]].subtype@ == "holding"@ ==> b.index[places[k]].account_type == AccountType::Asset
        }),
    ensures
        sheet_of(b, Some(entity_id), as_of, today, currency) matches Ok(r) ==> exists|m: int| #[trigger]
            closes(r.rows, m) && r.net.minor == top_total(r.rows.take(m), AccountType::Equity, m as nat) + r.rows[m].amount.minor + (if m + 1
                < r.rows.len() {
                r.rows[m + 1].amount.minor
            } else {
                0
            }),
{
    if sheet_of(b, Some(entity_id), as_of, today, currency) is Ok {
        let f = own_frame(b, j, as_of, today);
        lemma_one_sheet(b, entity_id, as_of, today, currency, j);
        lemma_books_explained(b.entries, b.index, f);
    }
}

proof fn lemma_books_explained(entries: Seq<JournalEntry>, index: Seq<AccountBrief>, f: Frame)
    requires
        f.entity.currency@ == f.code,
        f.functional == f.zero,
        f.zero.minor == 0,
        f.zero.precision <= 8,
        planted(index, report_places(index, Some(f.entity.id))),
        ({
            let places = report_places(index, Some(f.entity.id));
            let ids = place_ids(index, places, false, places.len());
            &&& ids.no_duplicates()
            &&& forall|i: int| 0 <= i < entries.len() && selects(f.w, #[trigger] entries[i]) ==> sound(entries[i], ids)
            &&& forall|k: int|
                0 <= k < places.len() && index[#[trigger] places[k]].subtype@ == "holding"@ ==> index[places[k]].account_type == AccountType::Asset
        }),
    ensures
        books_of(entries, index, f) matches Ok(x) ==> exists|m: int| #[trigger]
            closes(x.rows, m) && x.total.debit.minor - x.total.credit.minor == top_total(x.rows.take(m), AccountType::Equity, m as nat)
                + x.rows[m].amount.minor + (if m + 1 < x.rows.len() {
                x.rows[m + 1].amount.minor
            } else {
                0
            }),
{
    let places = report_places(index, Some(f.entity.id));
    if let Ok(x) = books_of(entries, index, f) {
        let s = sheet_after(entries, f, (1, 0), index, places, places.len())->Ok_0;
        lemma_sheet_books(entries, f, index, places, places.len());
        lemma_rows_rooted(index, places, s.rows, false);
        lemma_sheet_priced(entries, f, (1, 0), index, places, places.len());
        lemma_rolled_priced(s.rows, index, s.rows.len());
        let rolled = rolled_up(s.rows, index, s.rows.len())->Ok_0;
        lemma_gains(rolled, rolled.len());
        let kept = moved_rows(rolled, rolled.len());
        law_rollup_conserves(s.rows, index, AccountType::Asset);
        law_rollup_conserves(s.rows, index, AccountType::Liability);
        law_rollup_conserves(s.rows, index, AccountType::Equity);
        lemma_moved_total(rolled, AccountType::Asset, rolled.len());
        lemma_moved_total(rolled, AccountType::Liability, rolled.len());
        lemma_moved_total(rolled, AccountType::Equity, rolled.len());
        lemma_top_amounts(rolled, AccountType::Liability, rolled.len());
        lemma_worths(rolled, rolled.len());
        lemma_booked_nothing(entries, f.w, place_ids(index, places, false, places.len()), entries.len());
        let m = kept.len() as int;
        assert(x.rows.take(m) =~= kept);
        assert(closes(x.rows, m));
    }
}

/// A report in another currency takes an entity's books at the rate of the entity's currency in that of the
/// report, on the day of the report; in its own currency it takes them as they are.
pub proof fn law_report_rate(entries: Seq<JournalEntry>, index: Seq<AccountBrief>, f: Frame)
    ensures
        entity_rate(entries, index, f) matches Ok(r) ==> {
            &&& f.entity.currency@ == f.code ==> r == (1int, 0nat)
            &&& f.entity.currency@ != f.code && r != (1int, 0nat) ==> (rate_of(
                f.prices,
                uppered(trimmed(f.entity.currency@)),
                uppered(trimmed(f.code)),
                f.on,
            ) matches Some((q, _)) && q == r)
        },
{
}

/// A count with the sign that a report shows it with: assets as they are booked, liabilities and equity turned
/// round.
pub open spec fn shown_sign(t: AccountType, n: int) -> int {
    if t == AccountType::Asset || t == AccountType::Expense {
        n
    } else {
        -n
    }
}

/// An account is shown with what is booked on it, at the rate of the report and up to a minor unit; what is
/// booked on an account of income or expenses goes to the retained earnings instead, turned round.
pub proof fn law_account_in_sheet(s: Sheet, entries: Seq<JournalEntry>, f: Frame, rate: Num, a: AccountBrief)
    requires
        f.functional.precision <= 8,
    ensures
        sheet_with(s, entries, f, rate, a) matches Ok(after) ==> {
            let booked = value((booked_on(entries, f.w, a.id, entries.len()), f.functional.precision));
            let exact = booked * value(rate) * (pow10(f.zero.precision) as real);
            if a.account_type == AccountType::Income || a.account_type == AccountType::Expense {
                after.rows == s.rows && after.profits.len() == s.profits.len() + 1 && distance(-after.profits.last().minor as real, exact) < 1real
            } else {
                &&& after.profits == s.profits && after.rows.len() == s.rows.len() + 1
                &&& after.rows.last().account_id == a.id && after.rows.last().account_type == a.account_type
                &&& distance(shown_sign(a.account_type, after.rows.last().amount.minor) as real, exact) < 1real
            }
        },
{
    if sheet_with(s, entries, f, rate, a) is Ok {
        let (q, v) = holdings(entries, f.w, a, f.functional)->Ok_0;
        lemma_account_total(entries, f.w, a.id, entries.len());
        lemma_total_in_range(entries, f.w, a.id, true, entries.len());
        law_converted_at_rate(v, rate, f.zero);
    }
}

/// The market value of a holding is its quantity at the price of the day in the entity's currency, at the rate
/// of the report and up to a minor unit.
pub proof fn law_market_value(f: Frame, rate: Num, a: AccountBrief, q: Amount)
    requires
        q.precision <= 8,
        i64::MIN <= q.minor <= i64::MAX,
    ensures
        market_of(f, rate, a, q) matches Ok(Some(m)) ==> {
            &&& a.subtype@ == "holding"@ && q.minor != 0
            &&& rate_of(f.prices, uppered(trimmed(a.commodity@)), uppered(trimmed(f.entity.currency@)), f.on) matches Some((price, _)) && exists|p: Num| #[trigger]
                near(value(price) * value(rate), p) && distance(
                    shown_sign(a.account_type, m.minor) as real,
                    in_major(q) * value(p) * (pow10(f.zero.precision) as real),
                ) < 1real
        },
{
    if let Ok(Some(m)) = market_of(f, rate, a, q) {
        let price = (rate_of(f.prices, uppered(trimmed(a.commodity@)), uppered(trimmed(f.entity.currency@)), f.on)->0).0;
        let p = multiplied(price, rate)->0;
        law_arithmetic_near(price, rate);
        law_converted_at_rate(q, p, f.zero);
        assert(near(value(price) * value(rate), p));
    }
}

/// Net worth lists assets and liabilities that can be booked on, and no others.
pub proof fn law_owned_rows(rows: Seq<Shown>, n: nat)
    requires
        n <= rows.len(),
    ensures
        forall|i: int|
            0 <= i < owned_rows(rows, n).len() ==> !(#[trigger] owned_rows(rows, n)[i]).placeholder && (owned_rows(rows, n)[i].account_type
                == AccountType::Asset || owned_rows(rows, n)[i].account_type == AccountType::Liability),
        forall|i: int|
            0 <= i < n && (#[trigger] rows[i]).account_id != 0 && !rows[i].placeholder && (rows[i].account_type == AccountType::Asset
                || rows[i].account_type == AccountType::Liability) ==> owned_rows(rows, n).contains(rows[i]),
    decreases n,
{
    if n > 0 {
        law_owned_rows(rows, (n - 1) as nat);
        let rest = owned_rows(rows, (n - 1) as nat);
        assert forall|i: int|
            0 <= i < n && (#[trigger] rows[i]).account_id != 0 && !rows[i].placeholder && (rows[i].account_type == AccountType::Asset
                || rows[i].account_type == AccountType::Liability) implies owned_rows(rows, n).contains(rows[i]) by {
            if i < n - 1 {
                let k = choose|k: int| 0 <= k < rest.len() && rest[k] == rows[i];
                assert(owned_rows(rows, n)[k] == rows[i]);
            } else {
                assert(owned_rows(rows, n)[rest.len() as int] == rows[i]);
            }
        }
    }
}

} // verus!
