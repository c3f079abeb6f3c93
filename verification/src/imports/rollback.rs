//! Rolling an import back.

use vstd::prelude::*;

use crate::audit::AuditRow;
use crate::cross_source::SourcedLine;
use crate::entities::{entity_place, get_entity};
use crate::error::{locked, not_found, Refusal, Result};
use crate::imports::evidence::is_done;
use crate::journal::{check_lock, is_locked, lock_text};
use crate::model::{Entity, EntryStatus, JournalEntry, StatementLine};
use crate::payees::{entry_place, find_entry};
use crate::text::{cat, cat3, int_string, int_text, same};

verus! {

/// One thing that a rollback does.
#[derive(Debug, Clone, Copy, PartialEq, Eq, Structural)]
pub enum Undo {
    /// An entry that the import created is removed; the chain is built again from its place in it.
    Remove { entry_id: i64, rechain_from: Option<i64> },
    /// A posting is no longer reconciled.
    Unreconcile { posting_id: i64 },
}

/// Why an entry cannot change: its period is locked. Drafts remain editable; posted and void entries
/// retain their period protection.
pub open spec fn mutation_refusal(e: JournalEntry, entities: Seq<Entity>) -> Option<Refusal> {
    if e.status == EntryStatus::Draft {
        None
    } else {
        match entity_place(entities, e.entity_id, 0) {
            None => Some(Refusal::NotFound("entity "@ + int_text(e.entity_id as int))),
            Some(i) => if is_locked(entities[i], e.date) {
                Some(Refusal::Locked(lock_text(entities[i], e.date)))
            } else {
                None
            },
        }
    }
}

pub fn check_mutation(e: &JournalEntry, entities: &[Entity]) -> (r: Result<()>)
    ensures
        match r {
            Ok(_) => mutation_refusal(*e, entities@) is None,
            Err(f) => mutation_refusal(*e, entities@) == Some(f@),
        },
{
    if e.status == EntryStatus::Draft {
        return Ok(());
    }
    match get_entity(entities, e.entity_id) {
        Ok(entity) => check_lock(entity, e.date),
        Err(f) => Err(f),
    }
}

/// Whether another import evidences an entry.
pub open spec fn elsewhere(lines: Seq<SourcedLine>, entry_id: i64, import_id: i64) -> bool {
    exists|i: int| 0 <= i < lines.len() && (#[trigger] lines[i]).line.journal_entry_id == Some(entry_id) && lines[i].line.import_id != import_id
}

/// Whether an entry was edited.
pub open spec fn edited(log: Seq<AuditRow>, entry_id: i64) -> bool {
    exists|i: int|
        0 <= i < log.len() && (#[trigger] log[i]).table_name@ == "journal_entries"@ && log[i].row_id == entry_id && log[i].action@ == "update"@
}

/// Whether a bank import other than this one reconciles a posting.
pub open spec fn reconciled_elsewhere(lines: Seq<SourcedLine>, posting_id: i64, import_id: i64) -> bool {
    exists|i: int|
        0 <= i < lines.len() && (#[trigger] lines[i]).line.posting_id == Some(posting_id) && lines[i].line.import_id != import_id && lines[i].source@
            != "account_tracker"@ && is_done(lines[i].line.status@)
}

fn is_elsewhere(lines: &[SourcedLine], entry_id: i64, import_id: i64) -> (r: bool)
    ensures
        r == elsewhere(lines@, entry_id, import_id),
{
    let mut i: usize = 0;
    while i < lines.len()
        invariant
            i <= lines.len(),
            forall|k: int|
                0 <= k < i ==> !((#[trigger] lines@[k]).line.journal_entry_id == Some(entry_id) && lines@[k].line.import_id != import_id),
        decreases lines.len() - i,
    {
        let named = match lines[i].line.journal_entry_id {
            Some(id) => id == entry_id,
            None => false,
        };
        if named && lines[i].line.import_id != import_id {
            assert(lines@[i as int].line.journal_entry_id == Some(entry_id));
            return true;
        }
        i = i + 1;
    }
    false
}

fn is_edited(log: &[AuditRow], entry_id: i64) -> (r: bool)
    ensures
        r == edited(log@, entry_id),
{
    let mut i: usize = 0;
    while i < log.len()
        invariant
            i <= log.len(),
            forall|k: int|
                0 <= k < i ==> !((#[trigger] log@[k]).table_name@ == "journal_entries"@ && log@[k].row_id == entry_id && log@[k].action@
                    == "update"@),
        decreases log.len() - i,
    {
        if log[i].row_id == entry_id && same(log[i].table_name.as_str(), "journal_entries") && same(log[i].action.as_str(), "update") {
            assert(log@[i as int].row_id == entry_id);
            return true;
        }
        i = i + 1;
    }
    false
}

fn is_reconciled_elsewhere(lines: &[SourcedLine], posting_id: i64, import_id: i64) -> (r: bool)
    ensures
        r == reconciled_elsewhere(lines@, posting_id, import_id),
{
    let mut i: usize = 0;
    while i < lines.len()
        invariant
            i <= lines.len(),
            forall|k: int|
                0 <= k < i ==> !((#[trigger] lines@[k]).line.posting_id == Some(posting_id) && lines@[k].line.import_id != import_id
                    && lines@[k].source@ != "account_tracker"@ && is_done(lines@[k].line.status@)),
        decreases lines.len() - i,
    {
        let l = &lines[i].line;
        let named = match l.posting_id {
            Some(id) => id == posting_id,
            None => false,
        };
        if named && l.import_id != import_id && !same(lines[i].source.as_str(), "account_tracker") && (same(l.status.as_str(), "matched") || same(
            l.status.as_str(),
            "created",
        )) {
            assert(lines@[i as int].line.posting_id == Some(posting_id));
            return true;
        }
        i = i + 1;
    }
    false
}

/// The first entry, from `i` on, with a posting.
pub open spec fn holder(entries: Seq<JournalEntry>, posting_id: i64, i: int) -> Option<int>
    decreases entries.len() - i,
{
    if i < 0 || i >= entries.len() {
        None
    } else if exists|k: int| 0 <= k < entries[i].postings@.len() && (#[trigger] entries[i].postings@[k]).id == posting_id {
        Some(i)
    } else {
        holder(entries, posting_id, i + 1)
    }
}

fn holds_posting(e: &JournalEntry, posting_id: i64) -> (r: bool)
    ensures
        r == (exists|k: int| 0 <= k < e.postings@.len() && (#[trigger] e.postings@[k]).id == posting_id),
{
    let mut i: usize = 0;
    while i < e.postings.len()
        invariant
            i <= e.postings.len(),
            forall|k: int| 0 <= k < i ==> (#[trigger] e.postings@[k]).id != posting_id,
        decreases e.postings.len() - i,
    {
        if e.postings[i].id == posting_id {
            assert(e.postings@[i as int].id == posting_id);
            return true;
        }
        i = i + 1;
    }
    false
}

fn find_holder(entries: &[JournalEntry], posting_id: i64) -> (r: Option<usize>)
    ensures
        match r {
            Some(i) => i < entries@.len() && holder(entries@, posting_id, 0) == Some(i as int),
            None => holder(entries@, posting_id, 0) is None,
        },
{
    let mut i: usize = 0;
    while i < entries.len()
        invariant
            i <= entries.len(),
            holder(entries@, posting_id, 0) == holder(entries@, posting_id, i as int),
        decreases entries.len() - i,
    {
        if holds_posting(&entries[i], posting_id) {
            return Some(i);
        }
        i = i + 1;
    }
    None
}

/// What a rollback is decided by.
pub struct Ledger {
    pub import_id: i64,
    pub lines: Seq<SourcedLine>,
    pub entries: Seq<JournalEntry>,
    pub entities: Seq<Entity>,
    pub log: Seq<AuditRow>,
    pub force: bool,
}

/// What is undone for a line that created an entry.
pub open spec fn removal(w: Ledger, entry_id: i64) -> std::result::Result<Undo, Refusal> {
    match entry_place(w.entries, entry_id, 0) {
        None => Err(Refusal::NotFound("journal entry "@ + int_text(entry_id as int))),
        Some(k) => {
            let e = w.entries[k];
            match mutation_refusal(e, w.entities) {
                Some(f) => Err(f),
                None => if elsewhere(w.lines, entry_id, w.import_id) {
                    Err(Refusal::Locked("entry #"@ + int_text(entry_id as int) + " is also evidenced by another import"@))
                } else if edited(w.log, entry_id) && e.status == EntryStatus::Posted && !w.force {
                    Err(
                        Refusal::Locked(
                            "entry #"@ + int_text(entry_id as int)
                                + " was edited after the import; roll back with force to discard those edits, or void it by hand"@,
                        ),
                    )
                } else {
                    Ok(Undo::Remove { entry_id, rechain_from: e.seq })
                },
            }
        },
    }
}

/// What is undone for a line that matched a posting.
pub open spec fn release(w: Ledger, posting_id: i64) -> std::result::Result<Option<Undo>, Refusal> {
    match holder(w.entries, posting_id, 0) {
        None => Err(Refusal::NotFound("posting "@ + int_text(posting_id as int))),
        Some(k) => match mutation_refusal(w.entries[k], w.entities) {
            Some(f) => Err(f),
            None => Ok(
                if reconciled_elsewhere(w.lines, posting_id, w.import_id) {
                    None
                } else {
                    Some(Undo::Unreconcile { posting_id })
                },
            ),
        },
    }
}

/// What is undone for the first `n` lines of an import, or why it cannot be rolled back.
pub open spec fn undone(w: Ledger, own: Seq<StatementLine>, n: nat) -> std::result::Result<Seq<Undo>, Refusal>
    decreases n,
{
    if n == 0 {
        Ok(Seq::empty())
    } else {
        let l = own[n - 1];
        match undone(w, own, (n - 1) as nat) {
            Err(e) => Err(e),
            Ok(before) => if l.status@ == "created"@ && l.journal_entry_id is Some {
                match removal(w, l.journal_entry_id->0) {
                    Err(e) => Err(e),
                    Ok(u) => Ok(before.push(u)),
                }
            } else if l.status@ == "matched"@ && l.posting_id is Some {
                match release(w, l.posting_id->0) {
                    Err(e) => Err(e),
                    Ok(None) => Ok(before),
                    Ok(Some(u)) => Ok(before.push(u)),
                }
            } else {
                Ok(before)
            },
        }
    }
}

proof fn lemma_undone_refused(w: Ledger, own: Seq<StatementLine>, n: nat, m: nat)
    requires
        n <= m,
        undone(w, own, n) is Err,
    ensures
        undone(w, own, m) == undone(w, own, n),
    decreases m,
{
    if n < m {
        lemma_undone_refused(w, own, n, (m - 1) as nat);
    }
}

/// The records that a rollback is decided by.
pub struct Records<'a> {
    pub import_id: i64,
    /// Every statement line with its source.
    pub lines: &'a [SourcedLine],
    pub entries: &'a [JournalEntry],
    pub entities: &'a [Entity],
    pub log: &'a [AuditRow],
    pub force: bool,
}

impl<'a> View for Records<'a> {
    type V = Ledger;

    open spec fn view(&self) -> Ledger {
        Ledger {
            import_id: self.import_id,
            lines: self.lines@,
            entries: self.entries@,
            entities: self.entities@,
            log: self.log@,
            force: self.force,
        }
    }
}

fn remove(w: &Records<'_>, entry_id: i64) -> (r: Result<Undo>)
    ensures
        match r {
            Ok(u) => removal(w@, entry_id) == Ok::<Undo, Refusal>(u),
            Err(e) => removal(w@, entry_id) == Err::<Undo, Refusal>(e@),
        },
{
    let shown = int_string(entry_id);
    let k = match find_entry(w.entries, entry_id) {
        Some(k) => k,
        None => {
            return Err(not_found(cat("journal entry ", shown.as_str()).as_str()));
        },
    };
    let e = &w.entries[k];
    if let Err(f) = check_mutation(e, w.entities) {
        return Err(f);
    }
    if is_elsewhere(w.lines, entry_id, w.import_id) {
        return Err(locked(cat3("entry #", shown.as_str(), " is also evidenced by another import").as_str()));
    }
    if !w.force && e.status == EntryStatus::Posted && is_edited(w.log, entry_id) {
        return Err(
            locked(
                cat3(
                    "entry #",
                    shown.as_str(),
                    " was edited after the import; roll back with force to discard those edits, or void it by hand",
                ).as_str(),
            ),
        );
    }
    Ok(Undo::Remove { entry_id, rechain_from: e.seq })
}

fn let_go(w: &Records<'_>, posting_id: i64) -> (r: Result<Option<Undo>>)
    ensures
        match r {
            Ok(u) => release(w@, posting_id) == Ok::<Option<Undo>, Refusal>(u),
            Err(e) => release(w@, posting_id) == Err::<Option<Undo>, Refusal>(e@),
        },
{
    let k = match find_holder(w.entries, posting_id) {
        Some(k) => k,
        None => {
            return Err(not_found(cat("posting ", int_string(posting_id).as_str()).as_str()));
        },
    };
    if let Err(f) = check_mutation(&w.entries[k], w.entities) {
        return Err(f);
    }
    if is_reconciled_elsewhere(w.lines, posting_id, w.import_id) {
        Ok(None)
    } else {
        Ok(Some(Undo::Unreconcile { posting_id }))
    }
}

/// What rolling an import back does: the entries it created are removed, while nothing was edited or
/// reconciled by hand. With `force`, entries edited after the import are removed too. Neither mode
/// can remove entries or reconciliation from a locked period.
pub fn delete_import(w: &Records<'_>, own: &[StatementLine]) -> (r: Result<Vec<Undo>>)
    ensures
        match r {
            Ok(v) => undone(w@, own@, own@.len()) == Ok::<Seq<Undo>, Refusal>(v@),
            Err(e) => undone(w@, own@, own@.len()) == Err::<Seq<Undo>, Refusal>(e@),
        },
{
    let mut v: Vec<Undo> = Vec::new();
    let mut i: usize = 0;
    while i < own.len()
        invariant
            i <= own.len(),
            undone(w@, own@, i as nat) == Ok::<Seq<Undo>, Refusal>(v@),
        decreases own.len() - i,
    {
        let l = &own[i];
        if same(l.status.as_str(), "created") {
            if let Some(id) = l.journal_entry_id {
                match remove(w, id) {
                    Ok(u) => {
                        v.push(u);
                    },
                    Err(e) => {
                        proof {
                            lemma_undone_refused(w@, own@, (i + 1) as nat, own@.len());
                        }
                        return Err(e);
                    },
                }
            }
        }
        proof {
            reveal_strlit("created");
            reveal_strlit("matched");
            assert("created"@[0] == 'c' && "matched"@[0] == 'm');
        }
        if same(l.status.as_str(), "matched") {
            if let Some(id) = l.posting_id {
                match let_go(w, id) {
                    Ok(Some(u)) => {
                        v.push(u);
                    },
                    Ok(None) => {},
                    Err(e) => {
                        proof {
                            lemma_undone_refused(w@, own@, (i + 1) as nat, own@.len());
                        }
                        return Err(e);
                    },
                }
            }
        }
        i = i + 1;
    }
    Ok(v)
}

/// A rollback removes no entry of a locked period, and none that another import evidences.
pub proof fn law_rollback_spares(w: Ledger, own: Seq<StatementLine>, i: int)
    requires
        undone(w, own, own.len()) is Ok,
        0 <= i < undone(w, own, own.len())->Ok_0.len(),
        undone(w, own, own.len())->Ok_0[i] is Remove,
    ensures
        ({
            let id = undone(w, own, own.len())->Ok_0[i]->entry_id;
            &&& entry_place(w.entries, id, 0) is Some
            &&& mutation_refusal(w.entries[entry_place(w.entries, id, 0)->0], w.entities) is None
            &&& !elsewhere(w.lines, id, w.import_id)
        }),
{
    lemma_rollback_spares(w, own, own.len(), i);
}

proof fn lemma_rollback_spares(w: Ledger, own: Seq<StatementLine>, n: nat, i: int)
    requires
        undone(w, own, n) is Ok,
        0 <= i < undone(w, own, n)->Ok_0.len(),
        undone(w, own, n)->Ok_0[i] is Remove,
    ensures
        ({
            let id = undone(w, own, n)->Ok_0[i]->entry_id;
            &&& entry_place(w.entries, id, 0) is Some
            &&& mutation_refusal(w.entries[entry_place(w.entries, id, 0)->0], w.entities) is None
            &&& !elsewhere(w.lines, id, w.import_id)
        }),
    decreases n,
{
    if n > 0 {
        let before = undone(w, own, (n - 1) as nat)->Ok_0;
        if i < before.len() {
            lemma_rollback_spares(w, own, (n - 1) as nat, i);
        }
    }
}

} // verus!
