//! Exact totals over booked postings.

use vstd::prelude::*;

use crate::date::Date;
use crate::model::{EntryStatus, JournalEntry, Posting};
use crate::money::in_range;

verus! {

/// Which entries count.
#[derive(Debug, Clone, Copy)]
pub struct Window {
    pub entity_id: Option<i64>,
    pub from: Option<Date>,
    pub to: Option<Date>,
    /// The day that ends the period and is not part of it.
    pub before: Option<Date>,
    pub drafts: bool,
}

pub open spec fn in_period(from: Option<Date>, to: Option<Date>, d: Date) -> bool {
    &&& from matches Some(f) ==> !d.before(f)
    &&& to matches Some(t) ==> !t.before(d)
}

pub open spec fn selects(w: Window, e: JournalEntry) -> bool {
    &&& e.status != EntryStatus::Draft || w.drafts
    &&& w.entity_id matches Some(id) ==> e.entity_id == id
    &&& in_period(w.from, w.to, e.date)
    &&& w.before matches Some(d) ==> e.date.before(d)
}

pub fn is_in_period(from: Option<Date>, to: Option<Date>, d: Date) -> (r: bool)
    ensures
        r == in_period(from, to, d),
{
    (match from {
        Some(f) => !d.is_before(f),
        None => true,
    }) && (match to {
        Some(t) => !t.is_before(d),
        None => true,
    })
}

pub fn is_selected(w: &Window, e: &JournalEntry) -> (r: bool)
    ensures
        r == selects(*w, *e),
{
    (e.status != EntryStatus::Draft || w.drafts) && (match w.entity_id {
        Some(id) => e.entity_id == id,
        None => true,
    }) && is_in_period(w.from, w.to, e.date) && (match w.before {
        Some(d) => e.date.is_before(d),
        None => true,
    })
}

/// What a posting counts: its value in the functional currency, or its quantity.
pub open spec fn counted(p: Posting, functional: bool) -> int {
    if functional {
        p.amount@.minor
    } else {
        p.quantity@.minor
    }
}

pub open spec fn as_int(n: Option<i64>) -> Option<int> {
    match n {
        Some(x) => Some(x as int),
        None => None,
    }
}

/// A total with one more value, as long as every step stays in range.
pub open spec fn stepped(total: Option<int>, x: int) -> Option<int> {
    match total {
        None => None,
        Some(t) => in_range(t + x),
    }
}

/// A total with the first `n` postings that are on the account.
pub open spec fn with_postings(total: Option<int>, v: Seq<Posting>, account_id: i64, functional: bool, n: nat) -> Option<int>
    decreases n,
{
    if n == 0 {
        total
    } else {
        let t = with_postings(total, v, account_id, functional, (n - 1) as nat);
        if v[n - 1].account_id == account_id {
            stepped(t, counted(v[n - 1], functional))
        } else {
            t
        }
    }
}

/// The total on an account over the selected ones of the first `n` entries, as long as every step
/// stays in range.
pub open spec fn account_total(entries: Seq<JournalEntry>, w: Window, account_id: i64, functional: bool, n: nat) -> Option<int>
    decreases n,
{
    if n == 0 {
        Some(0)
    } else {
        let t = account_total(entries, w, account_id, functional, (n - 1) as nat);
        let e = entries[n - 1];
        if selects(w, e) {
            with_postings(t, e.postings@, account_id, functional, e.postings@.len())
        } else {
            t
        }
    }
}

pub fn add_postings(start: i64, v: &Vec<Posting>, account_id: i64, functional: bool) -> (r: Option<i64>)
    ensures
        match r {
            Some(t) => with_postings(Some(start as int), v@, account_id, functional, v@.len()) == Some(t as int),
            None => with_postings(Some(start as int), v@, account_id, functional, v@.len()) is None,
        },
{
    let mut total: Option<i64> = Some(start);
    let mut i: usize = 0;
    while i < v.len()
        invariant
            i <= v.len(),
            match total {
                Some(t) => with_postings(Some(start as int), v@, account_id, functional, i as nat) == Some(t as int),
                None => with_postings(Some(start as int), v@, account_id, functional, i as nat) is None,
            },
        decreases v.len() - i,
    {
        if v[i].account_id == account_id {
            let x: i64 = if functional {
                v[i].amount.minor()
            } else {
                v[i].quantity.minor()
            };
            total = match total {
                Some(t) => t.checked_add(x),
                None => None,
            };
        }
        i = i + 1;
    }
    total
}

pub fn total_on(entries: &[JournalEntry], w: &Window, account_id: i64, functional: bool) -> (r: Option<i64>)
    ensures
        match r {
            Some(t) => account_total(entries@, *w, account_id, functional, entries@.len()) == Some(t as int),
            None => account_total(entries@, *w, account_id, functional, entries@.len()) is None,
        },
{
    let mut total: Option<i64> = Some(0);
    let mut i: usize = 0;
    while i < entries.len()
        invariant
            i <= entries.len(),
            match total {
                Some(t) => account_total(entries@, *w, account_id, functional, i as nat) == Some(t as int),
                None => account_total(entries@, *w, account_id, functional, i as nat) is None,
            },
        decreases entries.len() - i,
    {
        if is_selected(w, &entries[i]) {
            total = match total {
                Some(t) => add_postings(t, &entries[i].postings, account_id, functional),
                None => {
                    proof {
                        lemma_none(entries@[i as int].postings@, account_id, functional, entries@[i as int].postings@.len());
                    }
                    None
                },
            };
        }
        i = i + 1;
    }
    total
}

proof fn lemma_none(v: Seq<Posting>, account_id: i64, functional: bool, n: nat)
    ensures
        with_postings(None, v, account_id, functional, n) is None,
    decreases n,
{
    if n > 0 {
        lemma_none(v, account_id, functional, (n - 1) as nat);
    }
}

/// What the first `n` postings count on an account.
pub open spec fn counted_on(v: Seq<Posting>, account_id: i64, functional: bool, n: nat) -> int
    decreases n,
{
    if n == 0 {
        0
    } else {
        counted_on(v, account_id, functional, (n - 1) as nat) + (if v[n - 1].account_id != account_id {
            0
        } else if functional {
            v[n - 1].amount@.minor
        } else {
            v[n - 1].quantity@.minor
        })
    }
}

proof fn lemma_counted(total: Option<int>, v: Seq<Posting>, account_id: i64, functional: bool, n: nat)
    ensures
        with_postings(total, v, account_id, functional, n) matches Some(t) ==> total is Some && t == total->0 + counted_on(v, account_id, functional, n),
    decreases n,
{
    if n > 0 {
        lemma_counted(total, v, account_id, functional, (n - 1) as nat);
    }
}

/// An entry adds to a total what its postings count on the account, where the window takes it: an entry of the
/// window's entity, on a day from its first through its last and before the day that ends it, and no draft
/// unless drafts count. Any other entry changes nothing.
pub proof fn law_entry_in_window(entries: Seq<JournalEntry>, w: Window, account_id: i64, functional: bool, n: nat)
    requires
        0 < n <= entries.len(),
    ensures
        account_total(entries, w, account_id, functional, n) matches Some(t) ==> {
            let e = entries[n - 1];
            let before = account_total(entries, w, account_id, functional, (n - 1) as nat);
            let taken = (w.drafts || e.status != EntryStatus::Draft) && (w.entity_id is None || e.entity_id == w.entity_id->0) && (w.from is None
                || !e.date.before(w.from->0)) && (w.to is None || !(w.to->0).before(e.date)) && (w.before is None || e.date.before(w.before->0));
            before is Some && t == before->0 + (if taken {
                counted_on(e.postings@, account_id, functional, e.postings@.len())
            } else {
                0
            })
        },
        account_total(entries, w, account_id, functional, 0) == Some(0int),
{
    let e = entries[n - 1];
    lemma_counted(
        account_total(entries, w, account_id, functional, (n - 1) as nat),
        e.postings@,
        account_id,
        functional,
        e.postings@.len(),
    );
}

} // verus!
