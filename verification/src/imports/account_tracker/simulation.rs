//! Which reading of an amount reproduces the app's balances, and what a backup holds.

use std::collections::HashMap;
use vstd::prelude::*;
use vstd::std_specs::hash::*;

use crate::date::Date;
use crate::imports::account_tracker::recurrence::{occurrences, occurrences_of, Occurrence};
use crate::imports::account_tracker::{shown_accounts, AtAccount, AtTransaction, Backup, ShownAccount, ShownBackup, ShownTransaction};
use crate::text::same;

verus! {

/// On which side of a transfer between currencies the amount stands.
#[derive(Debug, Clone, Copy, PartialEq, Eq, Structural)]
pub enum PenceSide {
    From,
    To,
}

/// The currency of the last account with an id.
pub open spec fn code_of(accounts: Seq<ShownAccount>, id: i64, n: nat) -> Option<Seq<char>>
    decreases n,
{
    if n == 0 {
        None
    } else if accounts[n - 1].id == id {
        Some(accounts[n - 1].code)
    } else {
        code_of(accounts, id, (n - 1) as nat)
    }
}

/// Whether a transaction moves money between accounts in different currencies.
pub open spec fn crosses(t: ShownTransaction, accounts: Seq<ShownAccount>) -> bool {
    t.from != 0 && t.to != 0 && code_of(accounts, t.from, accounts.len()) != code_of(accounts, t.to, accounts.len())
}

/// The amount that leaves and the amount that arrives, each in its account's own currency.
pub open spec fn amounts_of(t: ShownTransaction, pence: i64, side: PenceSide, accounts: Seq<ShownAccount>) -> (i64, i64) {
    match t.foreign {
        Some(foreign) if crosses(t, accounts) => match side {
            PenceSide::From => (pence, foreign),
            PenceSide::To => (foreign, pence),
        },
        _ => (pence, pence),
    }
}

fn find_code<'a>(accounts: &'a Vec<AtAccount>, id: i64) -> (r: Option<&'a String>)
    ensures
        match r {
            Some(c) => code_of(shown_accounts(accounts@), id, accounts@.len()) == Some(c@),
            None => code_of(shown_accounts(accounts@), id, accounts@.len()) is None,
        },
{
    let mut n: usize = accounts.len();
    while n > 0
        invariant
            n <= accounts@.len(),
            code_of(shown_accounts(accounts@), id, accounts@.len()) == code_of(shown_accounts(accounts@), id, n as nat),
        decreases n,
    {
        if accounts[n - 1].id == id {
            return Some(&accounts[n - 1].code);
        }
        n = n - 1;
    }
    None
}

/// (amount leaving `from`, amount arriving at `to`) in each account's own currency.
pub fn amounts_for(tx: &AtTransaction, pence: i64, side: PenceSide, accounts: &Vec<AtAccount>) -> (r: (i64, i64))
    ensures
        r == amounts_of(tx@, pence, side, shown_accounts(accounts@)),
{
    let cross = tx.from != 0 && tx.to != 0 && match (find_code(accounts, tx.from), find_code(accounts, tx.to)) {
        (Some(a), Some(b)) => !same(a.as_str(), b.as_str()),
        (None, None) => false,
        _ => true,
    };
    match tx.foreign {
        Some(foreign) => if cross {
            match side {
                PenceSide::From => (pence, foreign),
                PenceSide::To => (foreign, pence),
            }
        } else {
            (pence, pence)
        },
        None => (pence, pence),
    }
}

/// The balance of each account and the number of movements on it.
pub type Balances = Map<i64, (i64, i64)>;

/// The balances after a movement on an account, if it is known and they stay in range.
pub open spec fn moved(m: Balances, id: i64, amount: int) -> Option<Balances> {
    if id != 0 && m.dom().contains(id) {
        let sum = m[id].0 + amount;
        if i64::MIN <= sum <= i64::MAX && m[id].1 < i64::MAX {
            Some(m.insert(id, (sum as i64, (m[id].1 + 1) as i64)))
        } else {
            None
        }
    } else {
        Some(m)
    }
}

/// The balances that accounts open with.
pub open spec fn opened(accounts: Seq<ShownAccount>, n: nat) -> Balances
    decreases n,
{
    if n == 0 {
        Map::empty()
    } else {
        opened(accounts, (n - 1) as nat).insert(accounts[n - 1].id, (accounts[n - 1].opening, 0))
    }
}

/// The balances after the first `k` occurrences of a transaction.
pub open spec fn occurred(
    m: Balances,
    t: ShownTransaction,
    side: PenceSide,
    accounts: Seq<ShownAccount>,
    found: Seq<Occurrence>,
    k: nat,
) -> Option<Balances>
    decreases k,
{
    if k == 0 {
        Some(m)
    } else {
        match occurred(m, t, side, accounts, found, (k - 1) as nat) {
            None => None,
            Some(before) => {
                let (out, arrives) = amounts_of(t, found[k - 1].2, side, accounts);
                match moved(before, t.from, -(out as int)) {
                    None => None,
                    Some(left) => moved(left, t.to, arrives as int),
                }
            },
        }
    }
}

/// The occurrences of a transaction that are read.
pub open spec fn read(t: ShownTransaction, until: Date, expand: bool) -> Option<Seq<Occurrence>> {
    if expand {
        occurrences_of(t, until, false)
    } else {
        Some(seq![(0i64, t.date, t.pence)])
    }
}

/// The balances after the first `n` transactions.
pub open spec fn simulated(b: ShownBackup, side: PenceSide, expand: bool, n: nat) -> Option<Balances>
    decreases n,
{
    if n == 0 {
        Some(opened(b.accounts, b.accounts.len()))
    } else {
        match simulated(b, side, expand, (n - 1) as nat) {
            None => None,
            Some(before) => {
                let t = b.transactions[n - 1];
                match read(t, b.exported_on, expand) {
                    None => None,
                    Some(found) => occurred(before, t, side, b.accounts, found, found.len()),
                }
            },
        }
    }
}

proof fn lemma_occurred_stopped(
    m: Balances,
    t: ShownTransaction,
    side: PenceSide,
    accounts: Seq<ShownAccount>,
    found: Seq<Occurrence>,
    k: nat,
    n: nat,
)
    requires
        k <= n,
        occurred(m, t, side, accounts, found, k) is None,
    ensures
        occurred(m, t, side, accounts, found, n) is None,
    decreases n,
{
    if k < n {
        lemma_occurred_stopped(m, t, side, accounts, found, k, (n - 1) as nat);
    }
}

proof fn lemma_simulated_stopped(b: ShownBackup, side: PenceSide, expand: bool, k: nat, n: nat)
    requires
        k <= n,
        simulated(b, side, expand, k) is None,
    ensures
        simulated(b, side, expand, n) is None,
    decreases n,
{
    if k < n {
        lemma_simulated_stopped(b, side, expand, k, (n - 1) as nat);
    }
}

fn move_balance(m: &mut HashMap<i64, (i64, i64)>, id: i64, amount: i64, leaves: bool) -> (r: bool)
    ensures
        ({
            let change = if leaves {
                -(amount as int)
            } else {
                amount as int
            };
            if r {
                moved(old(m)@, id, change) == Some(final(m)@)
            } else {
                moved(old(m)@, id, change) is None
            }
        }),
{
    broadcast use group_hash_axioms;

    if id == 0 {
        return true;
    }
    let (balance, count) = match m.get(&id) {
        Some(e) => *e,
        None => {
            return true;
        },
    };
    let sum: i128 = if leaves {
        balance as i128 - amount as i128
    } else {
        balance as i128 + amount as i128
    };
    if sum < -9223372036854775808 || sum > 9223372036854775807 || count == i64::MAX {
        return false;
    }
    m.insert(id, (sum as i64, count + 1));
    true
}

fn simulate_one(m: &mut HashMap<i64, (i64, i64)>, tx: &AtTransaction, found: &Vec<Occurrence>, side: PenceSide, accounts: &Vec<AtAccount>) -> (r: bool)
    ensures
        if r {
            occurred(old(m)@, tx@, side, shown_accounts(accounts@), found@, found@.len()) == Some(final(m)@)
        } else {
            occurred(old(m)@, tx@, side, shown_accounts(accounts@), found@, found@.len()) is None
        },
{
    let ghost all = shown_accounts(accounts@);
    let mut k: usize = 0;
    while k < found.len()
        invariant
            k <= found@.len(),
            all == shown_accounts(accounts@),
            occurred(old(m)@, tx@, side, all, found@, k as nat) == Some(m@),
        decreases found@.len() - k,
    {
        proof {
            if occurred(old(m)@, tx@, side, all, found@, (k + 1) as nat) is None {
                lemma_occurred_stopped(old(m)@, tx@, side, all, found@, (k + 1) as nat, found@.len());
            }
        }
        let (out, arrives) = amounts_for(tx, found[k].2, side, accounts);
        if !move_balance(m, tx.from, out, true) {
            return false;
        }
        if !move_balance(m, tx.to, arrives, false) {
            return false;
        }
        k = k + 1;
    }
    true
}

fn read_occurrences(tx: &AtTransaction, until: Date, expand: bool) -> (r: Option<Vec<Occurrence>>)
    ensures
        match r {
            Some(v) => read(tx@, until, expand) == Some(v@),
            None => read(tx@, until, expand) is None,
        },
{
    if expand {
        occurrences(tx, until)
    } else {
        let mut one: Vec<Occurrence> = Vec::new();
        one.push((0, tx.date, tx.pence));
        assert(one@ =~= seq![(0i64, tx.date, tx.pence)]);
        Some(one)
    }
}

/// Balance and transaction count per account under a reading, with repeats expanded to the export
/// date. There is no answer where a balance leaves the range of amounts or a repeat the calendar.
pub fn simulate(b: &Backup, side: PenceSide, expand: bool) -> (r: Option<HashMap<i64, (i64, i64)>>)
    ensures
        match r {
            Some(m) => simulated(b@, side, expand, b.transactions@.len()) == Some(m@),
            None => simulated(b@, side, expand, b.transactions@.len()) is None,
        },
{
    broadcast use group_hash_axioms;

    let mut m: HashMap<i64, (i64, i64)> = HashMap::new();
    let mut i: usize = 0;
    assert(m@ =~= opened(b@.accounts, 0));
    while i < b.accounts.len()
        invariant
            i <= b.accounts@.len(),
            m@ == opened(b@.accounts, i as nat),
        decreases b.accounts@.len() - i,
    {
        assert(b@.accounts[i as int] == b.accounts@[i as int]@);
        m.insert(b.accounts[i].id, (b.accounts[i].opening, 0));
        i = i + 1;
    }
    let mut n: usize = 0;
    while n < b.transactions.len()
        invariant
            n <= b.transactions@.len(),
            simulated(b@, side, expand, n as nat) == Some(m@),
        decreases b.transactions@.len() - n,
    {
        let tx = &b.transactions[n];
        assert(b@.transactions[n as int] == tx@);
        proof {
            if simulated(b@, side, expand, (n + 1) as nat) is None {
                lemma_simulated_stopped(b@, side, expand, (n + 1) as nat, b.transactions@.len());
            }
        }
        let found = match read_occurrences(tx, b.exported_on, expand) {
            Some(f) => f,
            None => {
                return None;
            },
        };
        if !simulate_one(&mut m, tx, &found, side, &b.accounts) {
            return None;
        }
        n = n + 1;
    }
    Some(m)
}

/// How many of the first `n` accounts do not end with the balance that the app shows.
pub open spec fn off(accounts: Seq<ShownAccount>, m: Balances, n: nat) -> nat
    decreases n,
{
    if n == 0 {
        0
    } else {
        off(accounts, m, (n - 1) as nat) + (if m.dom().contains(accounts[n - 1].id) && m[accounts[n - 1].id].0 == accounts[n - 1].balance {
            0nat
        } else {
            1
        })
    }
}

/// How many accounts a reading leaves with a balance other than the app's.
pub open spec fn score_of(b: ShownBackup, side: PenceSide) -> Option<nat> {
    match simulated(b, side, true, b.transactions.len()) {
        Some(m) => Some(off(b.accounts, m, b.accounts.len())),
        None => None,
    }
}

fn count_off(accounts: &Vec<AtAccount>, m: &HashMap<i64, (i64, i64)>) -> (r: usize)
    ensures
        r == off(shown_accounts(accounts@), m@, accounts@.len()),
{
    broadcast use group_hash_axioms;

    let ghost all = shown_accounts(accounts@);
    let mut count: usize = 0;
    let mut i: usize = 0;
    while i < accounts.len()
        invariant
            i <= accounts@.len(),
            all == shown_accounts(accounts@),
            count <= i,
            count == off(all, m@, i as nat),
        decreases accounts@.len() - i,
    {
        assert(all[i as int] == accounts@[i as int]@);
        let fits = match m.get(&accounts[i].id) {
            Some(e) => e.0 == accounts[i].balance,
            None => false,
        };
        if !fits {
            count = count + 1;
        }
        i = i + 1;
    }
    count
}

/// The reading that reproduces more of the balances, how many it misses, and how many the other does.
pub open spec fn best_of(b: ShownBackup) -> Option<(PenceSide, nat, nat)> {
    match (score_of(b, PenceSide::From), score_of(b, PenceSide::To)) {
        (Some(f), Some(t)) => Some(
            if t < f {
                (PenceSide::To, t, f)
            } else {
                (PenceSide::From, f, t)
            },
        ),
        _ => None,
    }
}

pub fn best_side(b: &Backup) -> (r: Option<(PenceSide, usize, usize)>)
    ensures
        match r {
            Some((side, misses, other)) => best_of(b@) == Some((side, misses as nat, other as nat)),
            None => best_of(b@) is None,
        },
{
    match (simulate(b, PenceSide::From, true), simulate(b, PenceSide::To, true)) {
        (Some(from), Some(to)) => {
            let f = count_off(&b.accounts, &from);
            let t = count_off(&b.accounts, &to);
            if t < f {
                Some((PenceSide::To, t, f))
            } else {
                Some((PenceSide::From, f, t))
            }
        },
        _ => None,
    }
}

/// The chosen reading never misses more balances than the other one.
pub proof fn law_best_side_misses_least(b: ShownBackup)
    ensures
        best_of(b) matches Some((_, misses, other)) ==> misses <= other,
        best_of(b) matches Some((side, misses, _)) ==> score_of(b, side) == Some(misses),
{
}

/// A transfer between accounts of one currency takes from the one what it gives to the other; between two
/// currencies the pence are on the side that the reading says, and the foreign amount on the other.
pub proof fn law_amounts_sides(t: ShownTransaction, pence: i64, accounts: Seq<ShownAccount>)
    ensures
        t.foreign is None ==> amounts_of(t, pence, PenceSide::From, accounts) == (pence, pence) && amounts_of(t, pence, PenceSide::To, accounts) == (
            pence,
            pence,
        ),
        ({
            let (a, b) = (amounts_of(t, pence, PenceSide::From, accounts), amounts_of(t, pence, PenceSide::To, accounts));
            a.0 == pence && b.1 == pence && a.1 == b.0
        }),
{
}

/// A movement changes the balance of its account by its amount, and no other.
pub proof fn law_movement_is_local(m: Balances, id: i64, amount: int, other: i64)
    requires
        m.dom().contains(other),
    ensures
        moved(m, id, amount) matches Some(after) ==> after.dom() == m.dom() && after[other].0 == m[other].0 + (if other == id && id != 0 {
            amount
        } else {
            0
        }),
{
    if let Some(after) = moved(m, id, amount) {
        assert(after.dom() =~= m.dom());
    }
}

} // verus!
