//! What a backup holds: its accounts with a suggested place in the books, its categories, its period.

use std::collections::HashMap;
use vstd::prelude::*;
use vstd::std_specs::hash::*;

use crate::date::Date;
use crate::decimal::{Decimal, Num};
use crate::error::{invalid, Result};
use crate::imports::account_tracker::simulation::{best_of, best_side, simulate, simulated, Balances, PenceSide};
use crate::imports::account_tracker::{shown_rates, shown_transactions, AtAccount, AtTransaction, Backup, ShownAccount, ShownBackup, ShownTransaction};
use crate::imports::copy_texts;
use crate::text::{contains, ends, ends_with, holds, int_string, int_text, is_less, lemma_text_order, lower, lowercase_of, lowered, own, same, starts, starts_with, text_less, texts, to_lowercase};

verus! {

#[derive(Debug)]
pub struct InspectedAccount {
    pub external_id: String,
    pub name: String,
    pub currency: String,
    pub group: String,
    pub hidden: bool,
    pub closed: bool,
    pub balance: Decimal,
    pub opening: Decimal,
    pub transactions: i64,
    pub credit_limit: Option<Decimal>,
    pub due_day: i64,
    pub exclude: bool,
    pub suggested_type: String,
    pub suggested_subtype: String,
}

#[derive(Debug)]
pub struct InspectedCategory {
    pub name: String,
    pub uses: i64,
    pub inflows: i64,
    pub refunds: i64,
}

#[derive(Debug)]
pub struct Inspection {
    pub accounts: Vec<InspectedAccount>,
    pub categories: Vec<InspectedCategory>,
    pub groups: Vec<String>,
    pub transactions: i64,
    pub first_date: Option<Date>,
    pub last_date: Option<Date>,
    pub base_currency: String,
    pub rates: Vec<(String, String)>,
    pub recurring: i64,
    pub exported_on: Date,
    pub pence_side: String,
    pub balance_mismatches: usize,
}

/// An amount in hundredths.
pub open spec fn pence_num(p: i64) -> Num {
    (p as int, 2)
}

pub fn pence_to_decimal(p: i64) -> (r: Decimal)
    ensures
        r@ == pence_num(p),
{
    Decimal::from_units(p, 2)
}

/// The type and subtype that an account's name and group suggest.
pub open spec fn suggestion(name: Seq<char>, group: Seq<char>) -> (Seq<char>, Seq<char>) {
    let n = lowercase_of(name);
    let g = lowercase_of(group);
    if holds(g, "credit"@) || ends(n, " cc"@) || holds(n, " cc "@) || holds(n, "card"@) {
        ("liability"@, "card"@)
    } else if holds(n, "loan"@) || holds(n, "mortgage"@) {
        ("liability"@, "loan"@)
    } else if holds(n, "splitwise"@) || holds(n, "owed"@) || holds(n, "receivable"@) {
        ("asset"@, "receivable"@)
    } else if starts(n, "wallet"@) || starts(n, "cash"@) {
        ("asset"@, "cash"@)
    } else if holds(g, "saving"@) {
        ("asset"@, "savings"@)
    } else {
        ("asset"@, "bank"@)
    }
}

pub fn suggest_type(a: &AtAccount, group: &str) -> (r: (&'static str, &'static str))
    ensures
        (r.0@, r.1@) == suggestion(a.name@, group@),
{
    let name = to_lowercase(a.name.as_str());
    let group = to_lowercase(group);
    let n = name.as_str();
    let g = group.as_str();
    if contains(g, "credit") || ends_with(n, " cc") || contains(n, " cc ") || contains(n, "card") {
        ("liability", "card")
    } else if contains(n, "loan") || contains(n, "mortgage") {
        ("liability", "loan")
    } else if contains(n, "splitwise") || contains(n, "owed") || contains(n, "receivable") {
        ("asset", "receivable")
    } else if starts_with(n, "wallet") || starts_with(n, "cash") {
        ("asset", "cash")
    } else if contains(g, "saving") {
        ("asset", "savings")
    } else {
        ("asset", "bank")
    }
}

/// The group of an account, or `other` where the backup has none.
pub open spec fn group_of(groups: Seq<Seq<char>>, a: ShownAccount, other: Seq<char>) -> Seq<char> {
    if a.group < groups.len() {
        groups[a.group as int]
    } else {
        other
    }
}

pub fn group_name(groups: &Vec<String>, a: &AtAccount, other: &str) -> (r: String)
    ensures
        r@ == group_of(texts(groups@), a@, other@),
{
    if a.group < groups.len() {
        assert(texts(groups@)[a.group as int] == groups@[a.group as int]@);
        own(groups[a.group].as_str())
    } else {
        own(other)
    }
}

/// Whether the app has closed an account.
pub open spec fn is_shut(a: ShownAccount, group: Seq<char>) -> bool {
    a.closed > 0 || lowered(group) == "closed"@
}

pub fn was_closed(a: &AtAccount, group: &str) -> (r: bool)
    ensures
        r == is_shut(a@, group@),
{
    a.closed > 0 || same(lower(group).as_str(), "closed")
}

/// The limit of a card: the amount below zero that it may reach, where that is an amount.
pub open spec fn limit_of(a: ShownAccount) -> Option<Num> {
    if a.min < 0 {
        Some((-(a.min as int), 2))
    } else {
        None
    }
}

pub fn credit_limit(a: &AtAccount) -> (r: Option<Decimal>)
    ensures
        crate::decimal::view_of(r) == limit_of(a@),
{
    if a.min < 0 {
        Some(pence_to_decimal(a.min).negated())
    } else {
        None
    }
}

/// How an account is shown.
pub open spec fn inspected(a: ShownAccount, groups: Seq<Seq<char>>, m: Balances, x: InspectedAccount) -> bool {
    let group = group_of(groups, a, Seq::empty());
    &&& x.external_id@ == int_text(a.id as int)
    &&& x.name@ == a.name
    &&& x.currency@ == a.code
    &&& x.group@ == group
    &&& x.hidden == a.hidden
    &&& x.closed == is_shut(a, group)
    &&& x.balance@ == pence_num(a.balance)
    &&& x.opening@ == pence_num(a.opening)
    &&& x.transactions == (if m.dom().contains(a.id) {
        m[a.id].1
    } else {
        0
    })
    &&& crate::decimal::view_of(x.credit_limit) == limit_of(a)
    &&& x.due_day == a.due
    &&& x.exclude == a.exclude
    &&& (x.suggested_type@, x.suggested_subtype@) == suggestion(a.name, group)
}

fn inspect_account(a: &AtAccount, groups: &Vec<String>, m: &HashMap<i64, (i64, i64)>) -> (x: InspectedAccount)
    ensures
        inspected(a@, texts(groups@), m@, x),
{
    broadcast use group_hash_axioms;

    proof {
        reveal_strlit("");
        assert(""@ =~= Seq::<char>::empty());
    }
    let group = group_name(groups, a, "");
    let (t, st) = suggest_type(a, group.as_str());
    let transactions = match m.get(&a.id) {
        Some(e) => e.1,
        None => 0,
    };
    InspectedAccount {
        external_id: int_string(a.id),
        name: own(a.name.as_str()),
        currency: own(a.code.as_str()),
        hidden: a.hidden,
        closed: was_closed(a, group.as_str()),
        group,
        balance: pence_to_decimal(a.balance),
        opening: pence_to_decimal(a.opening),
        transactions,
        credit_limit: credit_limit(a),
        due_day: a.due,
        exclude: a.exclude,
        suggested_type: own(t),
        suggested_subtype: own(st),
    }
}

/// One use of a category: its name, and whether it is a refund or other money in.
#[verifier::ext_equal]
pub struct Mention {
    pub name: Seq<char>,
    pub refund: bool,
    pub inflow: bool,
}

pub open spec fn mention(name: Seq<char>, t: ShownTransaction) -> Mention {
    Mention { name, refund: t.from == 0 && t.refund, inflow: t.from == 0 && !t.refund }
}

/// The uses among the first `k` splits of a transaction.
pub open spec fn split_mentions(t: ShownTransaction, k: nat) -> Seq<Mention>
    decreases k,
{
    if k == 0 {
        Seq::empty()
    } else {
        let before = split_mentions(t, (k - 1) as nat);
        if t.splits[k - 1].0.len() == 0 {
            before
        } else {
            before.push(mention(t.splits[k - 1].0, t))
        }
    }
}

/// The uses of categories in a transaction.
pub open spec fn mentions_of(t: ShownTransaction) -> Seq<Mention> {
    if t.splits.len() > 0 {
        split_mentions(t, t.splits.len())
    } else if t.category.len() > 0 {
        seq![mention(t.category, t)]
    } else {
        Seq::empty()
    }
}

/// The uses of categories in the first `n` transactions.
pub open spec fn mentions(ts: Seq<ShownTransaction>, n: nat) -> Seq<Mention>
    decreases n,
{
    if n == 0 {
        Seq::empty()
    } else {
        mentions(ts, (n - 1) as nat) + mentions_of(ts[n - 1])
    }
}

/// How often a category is used, how often for money in, and how often for a refund.
pub open spec fn tally(ms: Seq<Mention>, name: Seq<char>) -> (int, int, int)
    decreases ms.len(),
{
    if ms.len() == 0 {
        (0, 0, 0)
    } else {
        let (u, i, r) = tally(ms.drop_last(), name);
        let m = ms.last();
        if m.name == name {
            (u + 1, if m.inflow { i + 1 } else { i }, if m.refund { r + 1 } else { r })
        } else {
            (u, i, r)
        }
    }
}

/// Whether categories are listed once each, in order of their names, with their counts.
pub open spec fn lists(v: Seq<InspectedCategory>, ms: Seq<Mention>) -> bool {
    &&& forall|i: int, j: int| 0 <= i < j < v.len() ==> text_less((#[trigger] v[i]).name@, (#[trigger] v[j]).name@)
    &&& forall|i: int|
        0 <= i < v.len() ==> tally(ms, (#[trigger] v[i]).name@) == (v[i].uses as int, v[i].inflows as int, v[i].refunds as int) && v[i].uses > 0
    &&& forall|name: Seq<char>| (#[trigger] tally(ms, name)).0 > 0 ==> named(v, name)
}

pub open spec fn named(v: Seq<InspectedCategory>, name: Seq<char>) -> bool {
    exists|i: int| 0 <= i < v.len() && (#[trigger] v[i]).name@ == name
}

proof fn lemma_tally_bounds(ms: Seq<Mention>, name: Seq<char>)
    ensures
        0 <= tally(ms, name).0 <= ms.len(),
        0 <= tally(ms, name).1 <= tally(ms, name).0,
        0 <= tally(ms, name).2 <= tally(ms, name).0,
    decreases ms.len(),
{
    if ms.len() > 0 {
        lemma_tally_bounds(ms.drop_last(), name);
    }
}

fn count_mention(v: &mut Vec<InspectedCategory>, name: &str, refund: bool, inflow: bool, Ghost(ms): Ghost<Seq<Mention>>)
    requires
        lists(old(v)@, ms),
        ms.len() < i64::MAX,
    ensures
        lists(final(v)@, ms.push(Mention { name: name@, refund, inflow })),
{
    let ghost next = ms.push(Mention { name: name@, refund, inflow });
    let ghost before = v@;
    proof {
        assert(next.drop_last() =~= ms);
    }
    let mut i: usize = 0;
    while i < v.len() && is_less(v[i].name.as_str(), name)
        invariant
            i <= v@.len(),
            v@ == before,
            forall|j: int| 0 <= j < i ==> text_less((#[trigger] v@[j]).name@, name@),
        decreases v@.len() - i,
    {
        i = i + 1;
    }
    if i < v.len() && same(v[i].name.as_str(), name) {
        proof {
            lemma_tally_bounds(ms, name@);
        }
        v[i].uses = v[i].uses + 1;
        if refund {
            v[i].refunds = v[i].refunds + 1;
        }
        if inflow {
            v[i].inflows = v[i].inflows + 1;
        }
        proof {
            assert forall|j: int| 0 <= j < v@.len() implies tally(next, (#[trigger] v@[j]).name@) == (
                v@[j].uses as int,
                v@[j].inflows as int,
                v@[j].refunds as int,
            ) && v@[j].uses > 0 by {
                if j != i {
                    assert(v@[j] == before[j]);
                    lemma_text_order(before[j].name@, before[i as int].name@, name@);
                    if j < i {
                        assert(text_less(before[j].name@, before[i as int].name@));
                    } else {
                        assert(text_less(before[i as int].name@, before[j].name@));
                        lemma_text_order(before[i as int].name@, before[j].name@, name@);
                    }
                }
            }
            assert forall|n: Seq<char>| (#[trigger] tally(next, n)).0 > 0 implies named(v@, n) by {
                if n == name@ {
                    assert(v@[i as int].name@ == n);
                } else {
                    assert(tally(ms, n).0 > 0);
                    let k = choose|k: int| 0 <= k < before.len() && (#[trigger] before[k]).name@ == n;
                    assert(v@[k].name@ == n);
                }
            }
        }
    } else {
        let row = InspectedCategory {
            name: own(name),
            uses: 1,
            inflows: if inflow {
                1
            } else {
                0
            },
            refunds: if refund {
                1
            } else {
                0
            },
        };
        proof {
            // The name is new: what stands before the place is less, and what stands behind is more.
            assert forall|j: int| i <= j < before.len() implies text_less(name@, (#[trigger] before[j]).name@) by {
                lemma_text_order(before[i as int].name@, name@, name@);
                if j > i {
                    assert(text_less(before[i as int].name@, before[j].name@));
                    lemma_text_order(name@, before[i as int].name@, before[j].name@);
                }
            }
            if tally(ms, name@).0 > 0 {
                let k = choose|k: int| 0 <= k < before.len() && (#[trigger] before[k]).name@ == name@;
                lemma_text_order(name@, name@, name@);
            }
            lemma_tally_bounds(ms, name@);
        }
        v.insert(i, row);
        proof {
            assert(v@ =~= before.insert(i as int, row));
            assert forall|j: int| 0 <= j < v@.len() implies tally(next, (#[trigger] v@[j]).name@) == (
                v@[j].uses as int,
                v@[j].inflows as int,
                v@[j].refunds as int,
            ) && v@[j].uses > 0 by {
                if j < i {
                    assert(v@[j] == before[j]);
                    lemma_text_order(before[j].name@, name@, name@);
                } else if j > i {
                    assert(v@[j] == before[j - 1]);
                    lemma_text_order(before[j - 1].name@, name@, name@);
                }
            }
            assert forall|j: int, k: int| 0 <= j < k < v@.len() implies text_less((#[trigger] v@[j]).name@, (#[trigger] v@[k]).name@) by {
                let a = if j < i {
                    j
                } else {
                    j - 1
                };
                let b = if k < i {
                    k
                } else {
                    k - 1
                };
                if j != i {
                    assert(v@[j] == before[a]);
                }
                if k != i {
                    assert(v@[k] == before[b]);
                }
            }
            assert forall|n: Seq<char>| (#[trigger] tally(next, n)).0 > 0 implies named(v@, n) by {
                if n == name@ {
                    assert(v@[i as int].name@ == n);
                } else {
                    assert(tally(ms, n).0 > 0);
                    let k = choose|k: int| 0 <= k < before.len() && (#[trigger] before[k]).name@ == n;
                    if k < i {
                        assert(v@[k].name@ == n);
                    } else {
                        assert(v@[k + 1].name@ == n);
                    }
                }
            }
        }
    }
}

proof fn lemma_mentions_grow(ts: Seq<ShownTransaction>, k: nat, n: nat)
    requires
        k <= n,
    ensures
        mentions(ts, k).len() <= mentions(ts, n).len(),
    decreases n,
{
    if k < n {
        lemma_mentions_grow(ts, k, (n - 1) as nat);
    }
}

proof fn lemma_split_mentions_grow(t: ShownTransaction, k: nat, n: nat)
    requires
        k <= n,
    ensures
        split_mentions(t, k).len() <= split_mentions(t, n).len(),
    decreases n,
{
    if k < n {
        lemma_split_mentions_grow(t, k, (n - 1) as nat);
    }
}

/// The categories that transactions use, in order of their names, with how often each is used.
pub fn categories(ts: &Vec<AtTransaction>) -> (v: Vec<InspectedCategory>)
    requires
        mentions(shown_transactions(ts@), ts@.len()).len() <= i64::MAX,
    ensures
        lists(v@, mentions(shown_transactions(ts@), ts@.len())),
{
    let ghost all = shown_transactions(ts@);
    let mut v: Vec<InspectedCategory> = Vec::new();
    let mut n: usize = 0;
    while n < ts.len()
        invariant
            n <= ts@.len(),
            all == shown_transactions(ts@),
            mentions(all, all.len()).len() <= i64::MAX,
            lists(v@, mentions(all, n as nat)),
        decreases ts@.len() - n,
    {
        let t = &ts[n];
        let ghost base = mentions(all, n as nat);
        assert(all[n as int] == t@);
        proof {
            lemma_mentions_grow(all, (n + 1) as nat, all.len());
            assert(mentions(all, (n + 1) as nat) == base + mentions_of(t@));
        }
        if t.splits.len() > 0 {
            let mut k: usize = 0;
            assert(base + split_mentions(t@, 0) =~= base);
            while k < t.splits.len()
                invariant
                    k <= t.splits@.len(),
                    base.len() + split_mentions(t@, t.splits@.len()).len() <= i64::MAX,
                    lists(v@, base + split_mentions(t@, k as nat)),
                decreases t.splits@.len() - k,
            {
                assert(t@.splits[k as int].0 == t.splits@[k as int].0@);
                let ghost found = base + split_mentions(t@, k as nat);
                if !t.splits[k].0.as_str().is_empty() {
                    proof {
                        lemma_split_mentions_grow(t@, (k + 1) as nat, t.splits@.len());
                        assert(base + split_mentions(t@, (k + 1) as nat) =~= found.push(mention(t@.splits[k as int].0, t@)));
                    }
                    count_mention(&mut v, t.splits[k].0.as_str(), t.from == 0 && t.refund, t.from == 0 && !t.refund, Ghost(found));
                }
                k = k + 1;
            }
        } else if !t.category.as_str().is_empty() {
            assert(base + mentions_of(t@) =~= base.push(mention(t@.category, t@)));
            count_mention(&mut v, t.category.as_str(), t.from == 0 && t.refund, t.from == 0 && !t.refund, Ghost(base));
        } else {
            assert(base + mentions_of(t@) =~= base);
        }
        n = n + 1;
    }
    v
}

/// How many of the first `n` transactions repeat.
pub open spec fn repeating(ts: Seq<ShownTransaction>, n: nat) -> nat
    decreases n,
{
    if n == 0 {
        0
    } else {
        repeating(ts, (n - 1) as nat) + (if ts[n - 1].repeat is Some {
            1nat
        } else {
            0
        })
    }
}

fn count_repeating(ts: &Vec<AtTransaction>) -> (r: usize)
    ensures
        r == repeating(shown_transactions(ts@), ts@.len()),
        r <= ts@.len(),
{
    let ghost all = shown_transactions(ts@);
    let mut count: usize = 0;
    let mut n: usize = 0;
    while n < ts.len()
        invariant
            n <= ts@.len(),
            all == shown_transactions(ts@),
            count <= n,
            count == repeating(all, n as nat),
        decreases ts@.len() - n,
    {
        assert(all[n as int] == ts@[n as int]@);
        if ts[n].repeat.is_some() {
            count = count + 1;
        }
        n = n + 1;
    }
    count
}

pub open spec fn side_text(side: PenceSide) -> Seq<char> {
    match side {
        PenceSide::From => "from"@,
        PenceSide::To => "to"@,
    }
}

fn side_string(side: PenceSide) -> (r: &'static str)
    ensures
        r@ == side_text(side),
{
    match side {
        PenceSide::From => "from",
        PenceSide::To => "to",
    }
}

/// Whether an inspection shows a backup.
pub open spec fn inspects(b: ShownBackup, x: Inspection) -> bool {
    let best = best_of(b);
    let n = b.transactions.len();
    &&& best is Some
    &&& simulated(b, (best->0).0, true, n) is Some
    &&& x.accounts@.len() == b.accounts.len()
    &&& forall|i: int|
        0 <= i < b.accounts.len() ==> inspected(b.accounts[i], b.groups, simulated(b, (best->0).0, true, n)->0, #[trigger] x.accounts@[i])
    &&& lists(x.categories@, mentions(b.transactions, n))
    &&& texts(x.groups@) == b.groups
    &&& x.transactions == n
    &&& x.first_date == (if n == 0 {
        None
    } else {
        Some(b.transactions[0].date)
    })
    &&& x.last_date == (if n == 0 {
        None
    } else {
        Some(b.transactions[n - 1].date)
    })
    &&& x.base_currency@ == b.base_currency
    &&& shown_rates(x.rates@) == b.rates
    &&& x.recurring == repeating(b.transactions, n)
    &&& x.exported_on == b.exported_on
    &&& x.pence_side@ == side_text((best->0).0)
    &&& x.balance_mismatches == (best->0).1
}

fn copy_rates(v: &Vec<(String, String)>) -> (r: Vec<(String, String)>)
    ensures
        shown_rates(r@) == shown_rates(v@),
{
    let mut out: Vec<(String, String)> = Vec::new();
    let mut i: usize = 0;
    while i < v.len()
        invariant
            i <= v@.len(),
            shown_rates(out@) == shown_rates(v@).take(i as int),
        decreases v@.len() - i,
    {
        let ghost before = shown_rates(out@);
        let pair = (own(v[i].0.as_str()), own(v[i].1.as_str()));
        out.push(pair);
        assert(shown_rates(out@) =~= before.push((pair.0@, pair.1@)));
        i = i + 1;
        assert(shown_rates(out@) =~= shown_rates(v@).take(i as int));
    }
    assert(shown_rates(v@).take(v@.len() as int) =~= shown_rates(v@));
    out
}

/// What a backup holds. It is refused where a repeat runs past the calendar or a balance past the
/// range of amounts.
pub fn inspect(b: &Backup) -> (r: Result<Inspection>)
    requires
        b.transactions@.len() <= i64::MAX,
        mentions(b@.transactions, b.transactions@.len()).len() <= i64::MAX,
    ensures
        match r {
            Ok(x) => inspects(b@, x),
            Err(e) => best_of(b@) is None && e.invalid("the backup does not add up to balances in range"@),
        },
{
    let (side, mismatches, _) = match best_side(b) {
        Some(x) => x,
        None => {
            return Err(invalid("the backup does not add up to balances in range"));
        },
    };
    let balances = match simulate(b, side, true) {
        Some(m) => m,
        None => {
            return Err(invalid("the backup does not add up to balances in range"));
        },
    };
    let mut accounts: Vec<InspectedAccount> = Vec::new();
    let mut i: usize = 0;
    while i < b.accounts.len()
        invariant
            i <= b.accounts@.len(),
            accounts@.len() == i,
            forall|j: int| 0 <= j < i ==> inspected(b@.accounts[j], b@.groups, balances@, #[trigger] accounts@[j]),
        decreases b.accounts@.len() - i,
    {
        assert(b@.accounts[i as int] == b.accounts@[i as int]@);
        accounts.push(inspect_account(&b.accounts[i], &b.groups, &balances));
        i = i + 1;
    }
    let n: usize = b.transactions.len();
    let (first_date, last_date) = if n == 0 {
        (None, None)
    } else {
        assert(b@.transactions[0] == b.transactions@[0]@);
        assert(b@.transactions[n - 1] == b.transactions@[n - 1]@);
        (Some(b.transactions[0].date), Some(b.transactions[n - 1].date))
    };
    let x = Inspection {
        accounts,
        categories: categories(&b.transactions),
        groups: copy_texts(&b.groups),
        transactions: n as i64,
        first_date,
        last_date,
        base_currency: own(b.base_currency.as_str()),
        rates: copy_rates(&b.rates),
        recurring: count_repeating(&b.transactions) as i64,
        exported_on: b.exported_on,
        pence_side: own(side_string(side)),
        balance_mismatches: mismatches,
    };
    Ok(x)
}

} // verus!
