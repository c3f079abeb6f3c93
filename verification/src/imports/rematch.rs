//! Re-running the match of an import's lines against entries that were not eligible at import time.

use vstd::prelude::*;

use crate::accounts::{get_account, place_of};
use crate::cross_source::MATCH_WINDOW_DAYS;
use crate::decimal::normal;
use crate::entities::{entity_place, get_entity};
use crate::error::{conflict, invalid, not_found, refusal_text, Error, Refusal, Result};
use crate::imports::rollback::{check_mutation, mutation_refusal};
use crate::imports::{copy_text, opt_text};
use crate::journal::{check_lock, is_locked, lock_text};
use crate::matcher::{candidates_for, ranked, shows, unit_problem, Wanted};
use crate::model::{meta_copy, Account, AccountType, Entity, EntryInput, EntryStatus, JournalEntry, Posting, PostingInput, StatementLine};
use crate::money::Money;
use crate::payees::{entry_place, find_entry};
use crate::refunds::same_money;
use crate::rules::kept_place;
use crate::text::{blank, cat, cat4, int_string, int_text, is_blank, own, same};

verus! {

/// What a re-match pass did.
#[derive(Debug)]
pub struct RematchReport {
    pub lines: usize,
    pub rematched: usize,
    pub category_kept: usize,
    pub untouched: usize,
    pub notes: Vec<String>,
}

pub open spec fn on_category(p: Posting) -> bool {
    p.account_type == AccountType::Income || p.account_type == AccountType::Expense
}

/// Whether an entry has a category of its own: a posting on income or expense that is not Suspense.
pub open spec fn categorised(e: JournalEntry, accounts: Seq<Account>) -> bool {
    exists|i: int|
        0 <= i < e.postings@.len() && on_category(#[trigger] e.postings@[i]) && place_of(accounts, e.postings@[i].account_id) is Some && accounts[place_of(
            accounts,
            e.postings@[i].account_id,
        )->0].system_role@ != "suspense"@
}

/// How many of the first `n` postings are on a category.
pub open spec fn categories(v: Seq<Posting>, n: nat) -> nat
    decreases n,
{
    if n == 0 {
        0
    } else {
        categories(v, (n - 1) as nat) + if on_category(v[n - 1]) {
            1nat
        } else {
            0
        }
    }
}

/// The first posting, from `i` on, that is on another account.
pub open spec fn contra_place(v: Seq<Posting>, account_id: i64, i: int) -> Option<int>
    decreases v.len() - i,
{
    if i < 0 || i >= v.len() {
        None
    } else if v[i].account_id != account_id {
        Some(i)
    } else {
        contra_place(v, account_id, i + 1)
    }
}

/// Whether other lines evidence an entry.
pub open spec fn also_evidenced(lines: Seq<StatementLine>, entry_id: i64, line_id: i64) -> bool {
    exists|i: int| 0 <= i < lines.len() && (#[trigger] lines[i]).journal_entry_id == Some(entry_id) && lines[i].id != line_id
}

/// A posting of the kept entry with the category that the other entry was given.
pub open spec fn carried(p: Posting, contra: i64, x: PostingInput) -> bool {
    if on_category(p) {
        &&& x.balance
        &&& x.memo@ == p.memo@
        &&& x.account_id == contra
        &&& x.quantity@ == (0int, 0nat)
        &&& x.amount is None && x.metadata@.len() == 0 && x.external_id is None && x.fingerprint is None && x.value_in is None
    } else {
        &&& x.account_id == p.account_id
        &&& x.quantity@ == normal((p.quantity@.minor, p.quantity@.precision))
        &&& x.amount is Some && x.amount->0@ == normal((p.amount@.minor, p.amount@.precision))
        &&& x.memo@ == p.memo@ && x.metadata@ == p.metadata@
        &&& opt_text(x.external_id) == opt_text(p.external_id) && opt_text(x.fingerprint) == opt_text(p.fingerprint)
        &&& !x.balance && x.value_in is None
    }
}

/// The kept entry with the category of the other one.
pub open spec fn carries(x: EntryInput, kept: JournalEntry, own: JournalEntry, contra: i64) -> bool {
    &&& x.entity_id == kept.entity_id && x.date == kept.date
    &&& x.payee@ == (if blank(kept.payee@) {
        own.payee@
    } else {
        kept.payee@
    })
    &&& x.description@ == kept.description@ && x.notes@ == kept.notes@
    &&& x.status == EntryStatus::Posted && x.origin@ == kept.origin@
    &&& x.template_id is None && x.template_version is None && x.counterpart_id is None && x.reverses_id is None && !x.absorb_fx
    &&& x.postings@.len() == kept.postings@.len()
    &&& forall|k: int| 0 <= k < x.postings@.len() ==> carried(kept.postings@[k], contra, #[trigger] x.postings@[k])
}

/// What a re-match does with a line.
#[derive(Debug)]
pub enum Step {
    /// It created no entry, or has no account, date or amount.
    Ignore,
    /// Nothing else matches it.
    Untouched,
    /// A locked period or a split entry stands in the way.
    Refused(String),
    /// The two entries are one: the earlier one is kept and becomes what the line evidences, after
    /// an edit that carries the category over.
    Merge { own_id: i64, kept_id: i64, posting_id: i64, edit: Option<EntryInput> },
}

/// The first of the ranked matches, from `i` on, in another entry than the line's own.
pub open spec fn other_match(places: Seq<(int, int)>, entries: Seq<JournalEntry>, own_id: i64, i: int) -> Option<int>
    decreases places.len() - i,
{
    if i < 0 || i >= places.len() {
        None
    } else if entries[places[i].0].id != own_id {
        Some(i)
    } else {
        other_match(places, entries, own_id, i + 1)
    }
}

pub open spec fn wanted(sl: StatementLine) -> Wanted {
    Wanted { account_id: sl.account_id->0, amount: sl.amount->0, date: sl.date->0, window_days: MATCH_WINDOW_DAYS }
}

/// Whether a line created an entry that a re-match may merge.
pub open spec fn rematchable(sl: StatementLine) -> bool {
    sl.status@ == "created"@ && sl.journal_entry_id is Some && sl.account_id is Some && sl.date is Some && sl.amount is Some
}

/// Why neither entry may change: both sides are checked before category edits, deletion, or
/// reconciliation. The kept entry will be posted, so its date must be open even if it is a draft.
pub open spec fn lock_refusal(own: JournalEntry, kept: JournalEntry, entities: Seq<Entity>) -> Option<Refusal> {
    match mutation_refusal(own, entities) {
        Some(e) => Some(e),
        None => match entity_place(entities, kept.entity_id, 0) {
            None => Some(Refusal::NotFound("entity "@ + int_text(kept.entity_id as int))),
            Some(i) => if is_locked(entities[i], kept.date) {
                Some(Refusal::Locked(lock_text(entities[i], kept.date)))
            } else {
                None
            },
        },
    }
}

/// Why two entries are not merged.
pub open spec fn merge_refusal(sl: StatementLine, own: JournalEntry, kept: JournalEntry, accounts: Seq<Account>, lines: Seq<StatementLine>) -> Option<
    Seq<char>,
> {
    if also_evidenced(lines, own.id, sl.id) {
        Some("entry #"@ + int_text(own.id as int) + " has other statement evidence; rematch cannot remove it"@)
    } else if categorised(own, accounts) && (own.postings@.len() != 2 || categories(kept.postings@, kept.postings@.len()) != 1
        || kept.postings@.len() != 2 || contra_place(own.postings@, sl.account_id->0, 0) is None) {
        Some("categorized split entries need manual review before rematch"@)
    } else {
        None
    }
}

fn has_category(e: &JournalEntry, accounts: &[Account]) -> (r: bool)
    ensures
        r == categorised(*e, accounts@),
{
    let mut i: usize = 0;
    while i < e.postings.len()
        invariant
            i <= e.postings.len(),
            forall|k: int|
                0 <= k < i ==> !(on_category(#[trigger] e.postings@[k]) && place_of(accounts@, e.postings@[k].account_id) is Some
                    && accounts@[place_of(accounts@, e.postings@[k].account_id)->0].system_role@ != "suspense"@),
        decreases e.postings.len() - i,
    {
        let p = &e.postings[i];
        if matches!(p.account_type, AccountType::Income | AccountType::Expense) {
            if let Ok(a) = get_account(accounts, p.account_id) {
                if !same(a.system_role.as_str(), "suspense") {
                    assert(on_category(e.postings@[i as int]));
                    return true;
                }
            }
        }
        i = i + 1;
    }
    false
}

fn count_categories(v: &Vec<Posting>) -> (r: usize)
    ensures
        r == categories(v@, v@.len()),
{
    let mut n: usize = 0;
    let mut i: usize = 0;
    while i < v.len()
        invariant
            i <= v.len(),
            n == categories(v@, i as nat),
            n <= i,
        decreases v.len() - i,
    {
        if matches!(v[i].account_type, AccountType::Income | AccountType::Expense) {
            n = n + 1;
        }
        i = i + 1;
    }
    n
}

fn find_contra(v: &Vec<Posting>, account_id: i64) -> (r: Option<usize>)
    ensures
        match r {
            Some(i) => i < v@.len() && contra_place(v@, account_id, 0) == Some(i as int),
            None => contra_place(v@, account_id, 0) is None,
        },
{
    let mut i: usize = 0;
    while i < v.len()
        invariant
            i <= v.len(),
            contra_place(v@, account_id, 0) == contra_place(v@, account_id, i as int),
        decreases v.len() - i,
    {
        if v[i].account_id != account_id {
            return Some(i);
        }
        i = i + 1;
    }
    None
}

fn is_also_evidenced(lines: &[StatementLine], entry_id: i64, line_id: i64) -> (r: bool)
    ensures
        r == also_evidenced(lines@, entry_id, line_id),
{
    let mut i: usize = 0;
    while i < lines.len()
        invariant
            i <= lines.len(),
            forall|k: int| 0 <= k < i ==> !((#[trigger] lines@[k]).journal_entry_id == Some(entry_id) && lines@[k].id != line_id),
        decreases lines.len() - i,
    {
        let named = match lines[i].journal_entry_id {
            Some(id) => id == entry_id,
            None => false,
        };
        if named && lines[i].id != line_id {
            assert(lines@[i as int].journal_entry_id == Some(entry_id));
            return true;
        }
        i = i + 1;
    }
    false
}

fn carry(p: &Posting, contra: i64) -> (r: PostingInput)
    ensures
        carried(*p, contra, r),
{
    if matches!(p.account_type, AccountType::Income | AccountType::Expense) {
        return PostingInput::balancing(contra).memo(p.memo.as_str());
    }
    let mut x = PostingInput::new(p.account_id, p.quantity.major());
    x.amount = Some(p.amount.major());
    x.memo = own(p.memo.as_str());
    x.metadata = meta_copy(&p.metadata);
    x.external_id = copy_text(&p.external_id);
    x.fingerprint = copy_text(&p.fingerprint);
    x
}

fn carry_category(kept: &JournalEntry, old: &JournalEntry, contra: i64) -> (r: EntryInput)
    ensures
        carries(r, *kept, *old, contra),
{
    let mut input = EntryInput::new(kept.entity_id, kept.date);
    input.payee = if is_blank(kept.payee.as_str()) {
        own(old.payee.as_str())
    } else {
        own(kept.payee.as_str())
    };
    input.description = own(kept.description.as_str());
    input.notes = own(kept.notes.as_str());
    input.status = EntryStatus::Posted;
    input.origin = own(kept.origin.as_str());
    let mut postings: Vec<PostingInput> = Vec::new();
    let mut i: usize = 0;
    while i < kept.postings.len()
        invariant
            i <= kept.postings.len(),
            postings@.len() == i,
            forall|k: int| 0 <= k < i ==> carried(kept.postings@[k], contra, #[trigger] postings@[k]),
        decreases kept.postings.len() - i,
    {
        postings.push(carry(&kept.postings[i], contra));
        i = i + 1;
    }
    input.postings = postings;
    input
}

fn check_locks(old: &JournalEntry, kept: &JournalEntry, entities: &[Entity]) -> (r: Result<()>)
    ensures
        match r {
            Ok(_) => lock_refusal(*old, *kept, entities@) is None,
            Err(e) => lock_refusal(*old, *kept, entities@) == Some(e@),
        },
{
    if let Err(e) = check_mutation(old, entities) {
        return Err(e);
    }
    match get_entity(entities, kept.entity_id) {
        Ok(entity) => check_lock(entity, kept.date),
        Err(e) => Err(e),
    }
}

/// The line's own entry, the entry that is kept and the matching posting in it.
pub open spec fn pair_of(sl: StatementLine, entries: Seq<JournalEntry>, evidenced: Seq<i64>) -> Option<(int, int)> {
    let places = ranked(wanted(sl), entries, evidenced, sl.description@);
    match other_match(places, entries, sl.journal_entry_id->0, 0) {
        Some(k) => Some(places[k]),
        None => None,
    }
}

/// Whether a step is what a re-match does with a line.
pub open spec fn is_step(
    s: Step,
    sl: StatementLine,
    accounts: Seq<Account>,
    entities: Seq<Entity>,
    entries: Seq<JournalEntry>,
    evidenced: Seq<i64>,
    lines: Seq<StatementLine>,
) -> bool {
    if !rematchable(sl) {
        s is Ignore
    } else {
        match pair_of(sl, entries, evidenced) {
            None => s is Untouched,
            Some(at) => {
                let old = entries[entry_place(entries, sl.journal_entry_id->0, 0)->0];
                let kept = entries[at.0];
                match lock_refusal(old, kept, entities) {
                    Some(e) => s matches Step::Refused(t) && t@ == "line #"@ + int_text(sl.id as int) + ": "@ + refusal_text(e),
                    None => match merge_refusal(sl, old, kept, accounts, lines) {
                        Some(m) => s matches Step::Refused(t) && t@ == "line "@ + int_text(sl.id as int) + ": "@ + refusal_text(
                            Refusal::Conflict(m),
                        ),
                        None => s matches Step::Merge { own_id, kept_id, posting_id, edit } && own_id == old.id && kept_id == kept.id && posting_id
                            == kept.postings@[at.1].id && match edit {
                            Some(x) => categorised(old, accounts) && carries(
                                x,
                                kept,
                                old,
                                old.postings@[contra_place(old.postings@, sl.account_id->0, 0)->0].account_id,
                            ),
                            None => !categorised(old, accounts),
                        },
                    },
                }
            },
        }
    }
}

/// Why a re-match stops at a line.
pub open spec fn step_refusal(
    sl: StatementLine,
    accounts: Seq<Account>,
    entities: Seq<Entity>,
    entries: Seq<JournalEntry>,
    evidenced: Seq<i64>,
) -> Option<Refusal> {
    if !rematchable(sl) {
        None
    } else {
        match place_of(accounts, sl.account_id->0) {
            None => Some(Refusal::NotFound("account "@ + int_text(sl.account_id->0 as int))),
            Some(i) => match unit_problem(accounts[i], sl.amount->0@) {
                Some(e) => Some(e),
                None => match pair_of(sl, entries, evidenced) {
                    None => None,
                    Some(at) => match entry_place(entries, sl.journal_entry_id->0, 0) {
                        None => Some(Refusal::NotFound("journal entry "@ + int_text(sl.journal_entry_id->0 as int))),
                        Some(k) => match lock_refusal(entries[k], entries[at.0], entities) {
                            Some(Refusal::Locked(_)) => None,
                            Some(e) => Some(e),
                            None => None,
                        },
                    },
                },
            },
        }
    }
}

/// Entries have one identity each.
pub open spec fn told_apart(entries: Seq<JournalEntry>) -> bool {
    forall|i: int, j: int| 0 <= i < j < entries.len() ==> (#[trigger] entries[i]).id != (#[trigger] entries[j]).id
}

fn is_locked_error(e: &Error) -> (r: bool)
    ensures
        r == (e@ is Locked),
{
    match e {
        Error::Locked(_) => true,
        _ => false,
    }
}

/// Re-runs matching for a line that an import created, against captured or migrated entries that
/// were not eligible at import time. A duplicate pair is merged: the earlier (captured) entry is
/// kept, the category given to the import's entry is carried over, the import's entry is removed, and
/// the bank line becomes the kept entry's evidence.
pub fn rematch_line(
    sl: &StatementLine,
    accounts: &[Account],
    entities: &[Entity],
    entries: &[JournalEntry],
    evidenced: &[i64],
    lines: &[StatementLine],
) -> (r: Result<Step>)
    requires
        told_apart(entries@),
    ensures
        match r {
            Ok(s) => step_refusal(*sl, accounts@, entities@, entries@, evidenced@) is None && is_step(
                s,
                *sl,
                accounts@,
                entities@,
                entries@,
                evidenced@,
                lines@,
            ),
            Err(e) => step_refusal(*sl, accounts@, entities@, entries@, evidenced@) == Some(e@),
        },
{
    if !same(sl.status.as_str(), "created") {
        return Ok(Step::Ignore);
    }
    let (own_id, account_id, date, amount) = match (sl.journal_entry_id, sl.account_id, sl.date, sl.amount) {
        (Some(o), Some(a), Some(d), Some(m)) => (o, a, d, m),
        _ => {
            return Ok(Step::Ignore);
        },
    };
    let account = match get_account(accounts, account_id) {
        Ok(a) => a,
        Err(e) => {
            return Err(e);
        },
    };
    let found = match candidates_for(account, entries, evidenced, amount, date, MATCH_WINDOW_DAYS, sl.description.as_str()) {
        Ok(v) => v,
        Err(e) => {
            return Err(e);
        },
    };
    let ghost w = wanted(*sl);
    let ghost places = ranked(w, entries@, evidenced@, sl.description@);
    let mut i: usize = 0;
    while i < found.len() && found[i].journal_entry_id == own_id
        invariant
            i <= found.len(),
            found@.len() == places.len(),
            forall|k: int| 0 <= k < found@.len() ==> shows(#[trigger] found@[k], w, entries@, places[k]),
            other_match(places, entries@, own_id, 0) == other_match(places, entries@, own_id, i as int),
        decreases found.len() - i,
    {
        assert(shows(found@[i as int], w, entries@, places[i as int]));
        i = i + 1;
    }
    if i >= found.len() {
        return Ok(Step::Untouched);
    }
    let ghost at = places[i as int];
    assert(shows(found@[i as int], w, entries@, at));
    let old = match find_entry(entries, own_id) {
        Some(k) => &entries[k],
        None => {
            return Err(not_found(cat("journal entry ", int_string(own_id).as_str()).as_str()));
        },
    };
    let kept_id = found[i].journal_entry_id;
    proof {
        crate::matcher::lemma_ranked_within(w, entries@, evidenced@, sl.description@, i as int);
        lemma_own_place(entries@, at.0, 0);
    }
    let kept = match find_entry(entries, kept_id) {
        Some(k) => &entries[k],
        None => {
            return Err(not_found(cat("journal entry ", int_string(kept_id).as_str()).as_str()));
        },
    };
    if let Err(e) = check_locks(old, kept, entities) {
        if !is_locked_error(&e) {
            return Err(e);
        }
        return Ok(Step::Refused(cat4("line #", int_string(sl.id).as_str(), ": ", e.text().as_str())));
    }
    if is_also_evidenced(lines, old.id, sl.id) {
        let e = conflict(
            crate::text::cat3("entry #", int_string(old.id).as_str(), " has other statement evidence; rematch cannot remove it").as_str(),
        );
        return Ok(Step::Refused(cat4("line ", int_string(sl.id).as_str(), ": ", e.text().as_str())));
    }
    let posting_id = found[i].posting_id;
    if !has_category(old, accounts) {
        return Ok(Step::Merge { own_id: old.id, kept_id: kept.id, posting_id, edit: None });
    }
    let contra = find_contra(&old.postings, account_id);
    if old.postings.len() == 2 && count_categories(&kept.postings) == 1 && kept.postings.len() == 2 {
        if let Some(c) = contra {
            let edit = carry_category(kept, old, old.postings[c].account_id);
            return Ok(Step::Merge { own_id: old.id, kept_id: kept.id, posting_id, edit: Some(edit) });
        }
    }
    let e = conflict("categorized split entries need manual review before rematch");
    Ok(Step::Refused(cat4("line ", int_string(sl.id).as_str(), ": ", e.text().as_str())))
}

proof fn lemma_own_place(entries: Seq<JournalEntry>, k: int, i: int)
    requires
        told_apart(entries),
        0 <= i <= k < entries.len(),
    ensures
        entry_place(entries, entries[k].id, i) == Some(k),
    decreases k - i,
{
    if i < k {
        assert(entries[i].id != entries[k].id);
        lemma_own_place(entries, k, i + 1);
    }
}

/// The bank posting of the kept entry after an edit: posting IDs can change during a category edit.
pub fn rebound(v: &Vec<Posting>, account_id: i64, amount: Money) -> (r: Result<i64>)
    ensures
        match r {
            Ok(id) => kept_place(v@, account_id, amount@, 0) is Some && id == v@[kept_place(v@, account_id, amount@, 0)->0].id,
            Err(e) => kept_place(v@, account_id, amount@, 0) is None && e.conflict("rematch category edit lost the bank posting"@),
        },
{
    let mut i: usize = 0;
    while i < v.len()
        invariant
            i <= v.len(),
            kept_place(v@, account_id, amount@, 0) == kept_place(v@, account_id, amount@, i as int),
        decreases v.len() - i,
    {
        if v[i].account_id == account_id && same_money(v[i].quantity, amount) {
            return Ok(v[i].id);
        }
        i = i + 1;
    }
    Err(conflict("rematch category edit lost the bank posting"))
}

/// Whether an import can be re-matched.
pub fn check_rematch(source: &str) -> (r: Result<()>)
    ensures
        match r {
            Ok(_) => source@ != "account_tracker"@,
            Err(e) => source@ == "account_tracker"@ && e.invalid(
                "the Account Tracker migration is the capture itself; re-match a bank import"@,
            ),
        },
{
    if same(source, "account_tracker") {
        return Err(invalid("the Account Tracker migration is the capture itself; re-match a bank import"));
    }
    Ok(())
}

} // verus!
