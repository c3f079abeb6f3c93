//! Explicit reconciliation of overlapping bank sources. Normal matching stays unchanged.

use vstd::prelude::*;
use vstd::utf8::encode_utf8;

use crate::accounts::{get_account, place_of};
use crate::audit::AuditRow;
use crate::codec::{hex_text, json_string, json_text, sha256_of};
use crate::date::{iso, iso_text, Date};
use crate::decimal::{decimal_text, normal};
use crate::documents::{entry_document, entry_string, line_document, line_documents, line_string, line_strings, list, list_text, members, object, opt_id_string, opt_id_text, quoted_texts, text_list, token_of_text};
use crate::entities::{entity_place, get_entity};
use crate::error::{conflict, invalid, not_found, Error, Refusal, Result};
use crate::imports::object_text;
use crate::imports::pipeline::{import_document, import_string, Import, ShownImport};
use crate::journal::{check_lock, is_locked, lock_text};
use crate::json::{text_at, text_in};
use crate::ledger::{are_lines, as_pairs};
use crate::matcher::distance;
use crate::model::{Account, Entity, EntryStatus, JournalEntry, Posting, StatementLine};
use crate::money::{Amount, Money};
use crate::payees::{entry_place, find_entry};
use crate::refunds::same_money;
use crate::text::{cat, cat3, cat4, cat5, int_string, int_text, nat_string, nat_text, own, same, starts, starts_with, texts};

verus! {

/// A captured entry and its bank line can be a few days apart (card bookings, weekends).
pub const MATCH_WINDOW_DAYS: i64 = 5;

#[derive(Debug)]
pub struct Match {
    pub line_id: i64,
    pub date: String,
    pub amount: String,
    pub currency: String,
    pub description: String,
    pub posting_id: i64,
    pub kept_entry_id: i64,
    pub kept_payee: String,
    pub kept_date: String,
    pub days_apart: i64,
    pub removed_draft_id: Option<i64>,
    pub voided_entry_id: Option<i64>,
}

#[derive(Debug)]
pub struct Report {
    pub import_id: i64,
    pub source: String,
    pub matches: Vec<Match>,
    pub notes: Vec<String>,
    pub token: String,
    pub applied: bool,
}

/// A statement line with the source of its import.
#[derive(Debug)]
pub struct SourcedLine {
    pub source: String,
    pub line: StatementLine,
}

/// Whether an entry was posted by a rule for a line.
pub open spec fn rule_posted(line: StatementLine, own: JournalEntry) -> bool {
    own.status == EntryStatus::Posted && own.origin@ == "rule"@ && starts(line.note@, "rule: "@)
}

/// Whether an entry is the untouched draft that an import made.
pub open spec fn import_draft(line: StatementLine, own: JournalEntry) -> bool {
    own.status == EntryStatus::Draft && own.origin@ == "import"@ && line.note@.len() == 0 && own.notes@.len() == 0 && own.tags@.len() == 0
        && own.postings@.len() == 2
}

/// Whether an entry looks like one that only a machine made for this line.
pub open spec fn untouched(line: StatementLine, own: JournalEntry) -> bool {
    &&& line.status@ == "created"@
    &&& line.date == Some(own.date)
    &&& rule_posted(line, own) || import_draft(line, own)
    &&& own.reviewed_at is None && own.reverses_id is None && own.reversed_by_id is None && own.refund_of_id is None
        && own.counterpart_id is None
}

/// Whether a change belongs to an entry.
pub open spec fn of_entry(a: AuditRow, id: i64) -> bool {
    a.table_name@ == "journal_entries"@ && a.row_id == id
}

pub open spec fn is_completion(a: AuditRow, import_id: i64) -> bool {
    a.table_name@ == "imports"@ && a.row_id == import_id && a.action@ == "create"@
}

/// When the import of a line was completed: the least number of such a change. Imports log their
/// completion after creating their entries.
pub open spec fn completion_of(log: Seq<AuditRow>, import_id: i64, n: nat) -> Option<i64>
    decreases n,
{
    if n == 0 {
        None
    } else {
        let rest = completion_of(log, import_id, (n - 1) as nat);
        if !is_completion(log[n - 1], import_id) {
            rest
        } else {
            match rest {
                Some(x) => if log[n - 1].id < x {
                    Some(log[n - 1].id)
                } else {
                    Some(x)
                },
                None => Some(log[n - 1].id),
            }
        }
    }
}

/// The place of the first change from `from` on that created an entry.
pub open spec fn creation_of(log: Seq<AuditRow>, id: i64, from: int) -> Option<int>
    decreases log.len() - from,
{
    if from < 0 || from >= log.len() {
        None
    } else if of_entry(log[from], id) && log[from].action@ == "create"@ {
        Some(from)
    } else {
        creation_of(log, id, from + 1)
    }
}

/// Whether an entry was created as one that a rule posts.
pub open spec fn created_by_rule(log: Seq<AuditRow>, id: i64) -> bool {
    match creation_of(log, id, 0) {
        None => false,
        Some(k) => match log[k].after {
            None => false,
            Some(t) => text_at(t@, "origin"@) == Some("rule"@) && text_at(t@, "status"@) == Some("posted"@),
        },
    }
}

pub open spec fn tag_changes(log: Seq<AuditRow>, id: i64, n: nat) -> nat
    decreases n,
{
    if n == 0 {
        0
    } else {
        tag_changes(log, id, (n - 1) as nat) + (if of_entry(log[n - 1], id) && log[n - 1].action@ == "tags"@ {
            1nat
        } else {
            0
        })
    }
}

/// Whether a change of an entry was the machine's: its creation, or the first tags of a rule before
/// the import was completed.
pub open spec fn by_machine(a: AuditRow, by_rule: bool, completion: Option<i64>) -> bool {
    ||| a.action@ == "create"@
    ||| by_rule && a.action@ == "tags"@ && (a.before matches Some(t) && t@ == "[]"@) && (completion matches Some(end) && a.id < end)
}

/// Whether nobody edited an entry after a machine made it.
pub open spec fn clean_history(log: Seq<AuditRow>, id: i64, posted_by_rule: bool, completion: Option<i64>) -> bool {
    let by_rule = posted_by_rule && created_by_rule(log, id) && tag_changes(log, id, log.len()) <= 1;
    &&& creation_of(log, id, 0) is Some
    &&& forall|k: int| 0 <= k < log.len() && of_entry(#[trigger] log[k], id) ==> by_machine(log[k], by_rule, completion)
}

/// Whether the payee of an entry was edited after the import.
pub open spec fn payee_edited(log: Seq<AuditRow>, id: i64, completion: Option<i64>) -> bool {
    exists|k: int|
        0 <= k < log.len() && (#[trigger] log[k]).table_name@ == "entry_payees"@ && log[k].row_id == id && (completion matches Some(end)
            ==> log[k].id > end)
}

/// Whether another line is evidence of an entry.
pub open spec fn other_evidence(lines: Seq<SourcedLine>, id: i64, line_id: i64) -> bool {
    exists|k: int| 0 <= k < lines.len() && (#[trigger] lines[k]).line.journal_entry_id == Some(id) && lines[k].line.id != line_id
}

/// Whether another entry depends on an entry.
pub open spec fn depended_on(entries: Seq<JournalEntry>, id: i64) -> bool {
    exists|k: int|
        0 <= k < entries.len() && ((#[trigger] entries[k]).refund_of_id == Some(id) || entries[k].counterpart_id == Some(id)
            || entries[k].reverses_id == Some(id))
}

/// Whether a posting is the one that a line evidences.
pub open spec fn is_evidenced(p: Posting, line: StatementLine) -> bool {
    line.posting_id == Some(p.id) && line.account_id == Some(p.account_id) && (line.amount matches Some(a) && a@ == p.quantity@)
}

pub open spec fn some_evidenced(v: Seq<Posting>, line: StatementLine) -> bool {
    exists|k: int| 0 <= k < v.len() && is_evidenced(#[trigger] v[k], line)
}

/// Whether another posting of the entry is reconciled.
pub open spec fn other_reconciled(v: Seq<Posting>, line: StatementLine) -> bool {
    exists|k: int| 0 <= k < v.len() && line.posting_id != Some((#[trigger] v[k]).id) && v[k].reconciled_at is Some
}

pub open spec fn contra_place(v: Seq<Posting>, line: StatementLine, from: int) -> Option<int>
    decreases v.len() - from,
{
    if from < 0 || from >= v.len() {
        None
    } else if line.account_id != Some(v[from].account_id) {
        Some(from)
    } else {
        contra_place(v, line, from + 1)
    }
}

/// The system role of the account on the other side of an entry.
pub open spec fn contra_role(accounts: Seq<Account>, v: Seq<Posting>, line: StatementLine) -> std::result::Result<Option<Seq<char>>, Refusal> {
    match contra_place(v, line, 0) {
        None => Ok(None),
        Some(k) => match place_of(accounts, v[k].account_id) {
            Some(i) => Ok(Some(accounts[i].system_role@)),
            None => Err(Refusal::NotFound("account "@ + int_text(v[k].account_id as int))),
        },
    }
}

/// Why one of the first `n` postings keeps an entry from being retired: its account is closed.
pub open spec fn closed_refusal(accounts: Seq<Account>, id: i64, v: Seq<Posting>, n: nat) -> Option<Refusal>
    decreases n,
{
    if n == 0 {
        None
    } else {
        match closed_refusal(accounts, id, v, (n - 1) as nat) {
            Some(e) => Some(e),
            None => match place_of(accounts, v[n - 1].account_id) {
                None => Some(Refusal::NotFound("account "@ + int_text(v[n - 1].account_id as int))),
                Some(i) => if accounts[i].closed_at is Some {
                    Some(Refusal::Conflict("entry #"@ + int_text(id as int) + " uses a closed account; review it manually"@))
                } else {
                    None
                },
            },
        }
    }
}

/// What the plan is made from.
pub struct Facts {
    pub accounts: Seq<Account>,
    pub entities: Seq<Entity>,
    pub entries: Seq<JournalEntry>,
    pub lines: Seq<SourcedLine>,
    pub log: Seq<AuditRow>,
}

/// Whether the entry has edits, evidence or dependencies that a machine did not make.
pub open spec fn entangled(f: Facts, line: StatementLine, own: JournalEntry, role: Option<Seq<char>>) -> bool {
    let completion = completion_of(f.log, line.import_id, f.log.len());
    let posted = rule_posted(line, own);
    ||| !clean_history(f.log, own.id, posted, completion)
    ||| posted && (!created_by_rule(f.log, own.id) || payee_edited(f.log, own.id, completion))
    ||| other_evidence(f.lines, own.id, line.id)
    ||| depended_on(f.entries, own.id)
    ||| !some_evidenced(own.postings@, line)
    ||| import_draft(line, own) && role != Some("suspense"@)
    ||| other_reconciled(own.postings@, line)
}

/// The place of the entry of a line that may be retired, if the line has one. Only machine-created
/// entries belonging to this line may be. Rule categories and initial tags are allowed; a subsequent
/// human edit or another dependency is not.
pub open spec fn disposable(f: Facts, line: StatementLine) -> std::result::Result<Option<int>, Refusal> {
    match line.journal_entry_id {
        None => Ok(None),
        Some(id) => match entry_place(f.entries, id, 0) {
            None => Err(Refusal::NotFound("journal entry "@ + int_text(id as int))),
            Some(i) => {
                let own = f.entries[i];
                if !untouched(line, own) {
                    Err(
                        Refusal::Conflict(
                            "entry #"@ + int_text(id as int)
                                + " is not an untouched import draft or unreviewed rule-posted entry; review it manually"@,
                        ),
                    )
                } else {
                    match contra_role(f.accounts, own.postings@, line) {
                        Err(e) => Err(e),
                        Ok(role) => if entangled(f, line, own, role) {
                            Err(
                                Refusal::Conflict(
                                    "entry #"@ + int_text(id as int) + " has edits or other evidence/dependencies; review it manually"@,
                                ),
                            )
                        } else {
                            match entity_place(f.entities, own.entity_id, 0) {
                                None => Err(Refusal::NotFound("entity "@ + int_text(own.entity_id as int))),
                                Some(j) => if is_locked(f.entities[j], own.date) {
                                    Err(Refusal::Conflict("locked: "@ + lock_text(f.entities[j], own.date)))
                                } else {
                                    match closed_refusal(f.accounts, id, own.postings@, own.postings@.len()) {
                                        Some(e) => Err(e),
                                        None => Ok(Some(i)),
                                    }
                                },
                            }
                        },
                    }
                }
            },
        },
    }
}

/// The sources that a plan is made from.
pub struct Sources<'a> {
    pub accounts: &'a [Account],
    pub entities: &'a [Entity],
    pub entries: &'a [JournalEntry],
    pub lines: &'a [SourcedLine],
    pub log: &'a [AuditRow],
}

impl<'a> Sources<'a> {
    pub open spec fn facts(self) -> Facts {
        Facts {
            accounts: self.accounts@,
            entities: self.entities@,
            entries: self.entries@,
            lines: self.lines@,
            log: self.log@,
        }
    }
}

fn is_empty_text(s: &str) -> (r: bool)
    ensures
        r == (s@.len() == 0),
{
    s.is_empty()
}

fn is_rule_posted(line: &StatementLine, own: &JournalEntry) -> (r: bool)
    ensures
        r == rule_posted(*line, *own),
{
    own.status == EntryStatus::Posted && same(own.origin.as_str(), "rule") && starts_with(line.note.as_str(), "rule: ")
}

fn is_import_draft(line: &StatementLine, own: &JournalEntry) -> (r: bool)
    ensures
        r == import_draft(*line, *own),
{
    own.status == EntryStatus::Draft && same(own.origin.as_str(), "import") && is_empty_text(line.note.as_str()) && is_empty_text(
        own.notes.as_str(),
    ) && own.tags.len() == 0 && own.postings.len() == 2
}

fn is_untouched(line: &StatementLine, own: &JournalEntry) -> (r: bool)
    ensures
        r == untouched(*line, *own),
{
    let dated = match line.date {
        Some(d) => d.same(own.date),
        None => false,
    };
    same(line.status.as_str(), "created") && dated && (is_rule_posted(line, own) || is_import_draft(line, own)) && own.reviewed_at.is_none()
        && own.reverses_id.is_none() && own.reversed_by_id.is_none() && own.refund_of_id.is_none() && own.counterpart_id.is_none()
}

fn find_completion(log: &[AuditRow], import_id: i64) -> (r: Option<i64>)
    ensures
        r == completion_of(log@, import_id, log@.len()),
{
    let mut r: Option<i64> = None;
    let mut i: usize = 0;
    while i < log.len()
        invariant
            i <= log.len(),
            r == completion_of(log@, import_id, i as nat),
        decreases log.len() - i,
    {
        let a = &log[i];
        if same(a.table_name.as_str(), "imports") && a.row_id == import_id && same(a.action.as_str(), "create") {
            r = match r {
                Some(x) => if a.id < x {
                    Some(a.id)
                } else {
                    Some(x)
                },
                None => Some(a.id),
            };
        }
        i = i + 1;
    }
    r
}

fn find_creation(log: &[AuditRow], id: i64) -> (r: Option<usize>)
    ensures
        match r {
            Some(k) => k < log@.len() && creation_of(log@, id, 0) == Some(k as int),
            None => creation_of(log@, id, 0) is None,
        },
{
    let mut i: usize = 0;
    while i < log.len()
        invariant
            i <= log.len(),
            creation_of(log@, id, 0) == creation_of(log@, id, i as int),
        decreases log.len() - i,
    {
        let a = &log[i];
        if same(a.table_name.as_str(), "journal_entries") && a.row_id == id && same(a.action.as_str(), "create") {
            return Some(i);
        }
        i = i + 1;
    }
    None
}

fn says(document: &str, name: &str, want: &str) -> (r: bool)
    ensures
        r == (text_at(document@, name@) == Some(want@)),
{
    match text_in(document, name) {
        Some(t) => same(t.as_str(), want),
        None => false,
    }
}

fn is_created_by_rule(log: &[AuditRow], id: i64) -> (r: bool)
    ensures
        r == created_by_rule(log@, id),
{
    match find_creation(log, id) {
        None => false,
        Some(k) => match &log[k].after {
            None => false,
            Some(t) => says(t.as_str(), "origin", "rule") && says(t.as_str(), "status", "posted"),
        },
    }
}

fn count_tag_changes(log: &[AuditRow], id: i64) -> (r: usize)
    ensures
        r == tag_changes(log@, id, log@.len()),
{
    let mut r: usize = 0;
    let mut i: usize = 0;
    while i < log.len()
        invariant
            i <= log.len(),
            r <= i,
            r == tag_changes(log@, id, i as nat),
        decreases log.len() - i,
    {
        let a = &log[i];
        if same(a.table_name.as_str(), "journal_entries") && a.row_id == id && same(a.action.as_str(), "tags") {
            r = r + 1;
        }
        i = i + 1;
    }
    r
}

fn is_by_machine(a: &AuditRow, by_rule: bool, completion: Option<i64>) -> (r: bool)
    ensures
        r == by_machine(*a, by_rule, completion),
{
    if same(a.action.as_str(), "create") {
        return true;
    }
    let nothing_before = match &a.before {
        Some(t) => same(t.as_str(), "[]"),
        None => false,
    };
    let in_time = match completion {
        Some(end) => a.id < end,
        None => false,
    };
    by_rule && same(a.action.as_str(), "tags") && nothing_before && in_time
}

fn is_clean_history(log: &[AuditRow], id: i64, posted_by_rule: bool, completion: Option<i64>) -> (r: bool)
    ensures
        r == clean_history(log@, id, posted_by_rule, completion),
{
    let by_rule = posted_by_rule && is_created_by_rule(log, id) && count_tag_changes(log, id) <= 1;
    if find_creation(log, id).is_none() {
        return false;
    }
    let mut i: usize = 0;
    while i < log.len()
        invariant
            i <= log.len(),
            by_rule == (posted_by_rule && created_by_rule(log@, id) && tag_changes(log@, id, log@.len()) <= 1),
            creation_of(log@, id, 0) is Some,
            forall|k: int| 0 <= k < i && of_entry(#[trigger] log@[k], id) ==> by_machine(log@[k], by_rule, completion),
        decreases log.len() - i,
    {
        let a = &log[i];
        if same(a.table_name.as_str(), "journal_entries") && a.row_id == id && !is_by_machine(a, by_rule, completion) {
            assert(of_entry(log@[i as int], id));
            return false;
        }
        i = i + 1;
    }
    true
}

fn is_payee_edited(log: &[AuditRow], id: i64, completion: Option<i64>) -> (r: bool)
    ensures
        r == payee_edited(log@, id, completion),
{
    let mut i: usize = 0;
    while i < log.len()
        invariant
            i <= log.len(),
            forall|k: int|
                0 <= k < i ==> !((#[trigger] log@[k]).table_name@ == "entry_payees"@ && log@[k].row_id == id && (completion matches Some(end)
                    ==> log@[k].id > end)),
        decreases log.len() - i,
    {
        let a = &log[i];
        let later = match completion {
            Some(end) => a.id > end,
            None => true,
        };
        if same(a.table_name.as_str(), "entry_payees") && a.row_id == id && later {
            return true;
        }
        i = i + 1;
    }
    false
}

fn is_id(a: Option<i64>, id: i64) -> (r: bool)
    ensures
        r == (a == Some(id)),
{
    match a {
        Some(x) => x == id,
        None => false,
    }
}

fn has_other_evidence(lines: &[SourcedLine], id: i64, line_id: i64) -> (r: bool)
    ensures
        r == other_evidence(lines@, id, line_id),
{
    let mut i: usize = 0;
    while i < lines.len()
        invariant
            i <= lines.len(),
            forall|k: int|
                0 <= k < i ==> !((#[trigger] lines@[k]).line.journal_entry_id == Some(id) && lines@[k].line.id != line_id),
        decreases lines.len() - i,
    {
        if is_id(lines[i].line.journal_entry_id, id) && lines[i].line.id != line_id {
            return true;
        }
        i = i + 1;
    }
    false
}

fn is_depended_on(entries: &[JournalEntry], id: i64) -> (r: bool)
    ensures
        r == depended_on(entries@, id),
{
    let mut i: usize = 0;
    while i < entries.len()
        invariant
            i <= entries.len(),
            forall|k: int|
                0 <= k < i ==> !((#[trigger] entries@[k]).refund_of_id == Some(id) || entries@[k].counterpart_id == Some(id)
                    || entries@[k].reverses_id == Some(id)),
        decreases entries.len() - i,
    {
        let e = &entries[i];
        if is_id(e.refund_of_id, id) || is_id(e.counterpart_id, id) || is_id(e.reverses_id, id) {
            return true;
        }
        i = i + 1;
    }
    false
}

fn has_evidenced(v: &Vec<Posting>, line: &StatementLine) -> (r: bool)
    ensures
        r == some_evidenced(v@, *line),
{
    let mut i: usize = 0;
    while i < v.len()
        invariant
            i <= v.len(),
            forall|k: int| 0 <= k < i ==> !is_evidenced(#[trigger] v@[k], *line),
        decreases v.len() - i,
    {
        let p = &v[i];
        let of_amount = match line.amount {
            Some(a) => same_money(a, p.quantity),
            None => false,
        };
        if is_id(line.posting_id, p.id) && is_id(line.account_id, p.account_id) && of_amount {
            return true;
        }
        i = i + 1;
    }
    false
}

fn has_other_reconciled(v: &Vec<Posting>, line: &StatementLine) -> (r: bool)
    ensures
        r == other_reconciled(v@, *line),
{
    let mut i: usize = 0;
    while i < v.len()
        invariant
            i <= v.len(),
            forall|k: int| 0 <= k < i ==> !(line.posting_id != Some((#[trigger] v@[k]).id) && v@[k].reconciled_at is Some),
        decreases v.len() - i,
    {
        if !is_id(line.posting_id, v[i].id) && v[i].reconciled_at.is_some() {
            return true;
        }
        i = i + 1;
    }
    false
}

fn find_contra_role(accounts: &[Account], v: &Vec<Posting>, line: &StatementLine) -> (r: Result<Option<String>>)
    ensures
        match r {
            Ok(t) => contra_role(accounts@, v@, *line) == Ok::<Option<Seq<char>>, Refusal>(crate::budgets::text_of(t)),
            Err(e) => contra_role(accounts@, v@, *line) == Err::<Option<Seq<char>>, Refusal>(e@),
        },
{
    let mut i: usize = 0;
    while i < v.len()
        invariant
            i <= v.len(),
            contra_place(v@, *line, 0) == contra_place(v@, *line, i as int),
        decreases v.len() - i,
    {
        if !is_id(line.account_id, v[i].account_id) {
            return match get_account(accounts, v[i].account_id) {
                Ok(a) => Ok(Some(own(a.system_role.as_str()))),
                Err(e) => Err(e),
            };
        }
        i = i + 1;
    }
    Ok(None)
}

fn is_entangled(s: &Sources<'_>, line: &StatementLine, own: &JournalEntry, role: &Option<String>) -> (r: bool)
    ensures
        r == entangled(s.facts(), *line, *own, crate::budgets::text_of(*role)),
{
    let completion = find_completion(s.log, line.import_id);
    let posted = is_rule_posted(line, own);
    let suspense = match role {
        Some(t) => same(t.as_str(), "suspense"),
        None => false,
    };
    !is_clean_history(s.log, own.id, posted, completion) || (posted && (!is_created_by_rule(s.log, own.id) || is_payee_edited(
        s.log,
        own.id,
        completion,
    ))) || has_other_evidence(s.lines, own.id, line.id) || is_depended_on(s.entries, own.id) || !has_evidenced(&own.postings, line) || (
    is_import_draft(line, own) && !suspense) || has_other_reconciled(&own.postings, line)
}

proof fn lemma_closed_failed(accounts: Seq<Account>, id: i64, v: Seq<Posting>, n: nat, m: nat)
    requires
        n <= m,
        closed_refusal(accounts, id, v, n) is Some,
    ensures
        closed_refusal(accounts, id, v, m) == closed_refusal(accounts, id, v, n),
    decreases m - n,
{
    if n < m {
        lemma_closed_failed(accounts, id, v, n, (m - 1) as nat);
    }
}

fn check_open(accounts: &[Account], id: i64, v: &Vec<Posting>) -> (r: Result<()>)
    ensures
        match r {
            Ok(_) => closed_refusal(accounts@, id, v@, v@.len()) is None,
            Err(e) => closed_refusal(accounts@, id, v@, v@.len()) == Some(e@),
        },
{
    let mut i: usize = 0;
    while i < v.len()
        invariant
            i <= v.len(),
            closed_refusal(accounts@, id, v@, i as nat) is None,
        decreases v.len() - i,
    {
        match get_account(accounts, v[i].account_id) {
            Ok(a) => {
                if a.is_closed() {
                    proof {
                        lemma_closed_failed(accounts@, id, v@, (i + 1) as nat, v@.len());
                    }
                    return Err(conflict(cat3("entry #", int_string(id).as_str(), " uses a closed account; review it manually").as_str()));
                }
            },
            Err(e) => {
                proof {
                    lemma_closed_failed(accounts@, id, v@, (i + 1) as nat, v@.len());
                }
                return Err(e);
            },
        }
        i = i + 1;
    }
    Ok(())
}

fn disposable_entry(s: &Sources<'_>, line: &StatementLine) -> (r: Result<Option<usize>>)
    ensures
        match r {
            Ok(x) => {
                &&& disposable(s.facts(), *line) == Ok::<Option<int>, Refusal>(
                    match x {
                        Some(i) => Some(i as int),
                        None => None,
                    },
                )
                &&& x matches Some(i) ==> i < s.entries@.len()
            },
            Err(e) => disposable(s.facts(), *line) == Err::<Option<int>, Refusal>(e@),
        },
{
    let id = match line.journal_entry_id {
        Some(id) => id,
        None => {
            return Ok(None);
        },
    };
    let i = match find_entry(s.entries, id) {
        Some(i) => i,
        None => {
            return Err(not_found(cat("journal entry ", int_string(id).as_str()).as_str()));
        },
    };
    let own = &s.entries[i];
    if !is_untouched(line, own) {
        return Err(
            conflict(
                cat3(
                    "entry #",
                    int_string(id).as_str(),
                    " is not an untouched import draft or unreviewed rule-posted entry; review it manually",
                ).as_str(),
            ),
        );
    }
    let role = match find_contra_role(s.accounts, &own.postings, line) {
        Ok(t) => t,
        Err(e) => {
            return Err(e);
        },
    };
    if is_entangled(s, line, own, &role) {
        return Err(
            conflict(cat3("entry #", int_string(id).as_str(), " has edits or other evidence/dependencies; review it manually").as_str()),
        );
    }
    let entity = match get_entity(s.entities, own.entity_id) {
        Ok(e) => e,
        Err(e) => {
            return Err(e);
        },
    };
    if let Err(e) = check_lock(entity, own.date) {
        return Err(conflict(e.text().as_str()));
    }
    if let Err(e) = check_open(s.accounts, id, &own.postings) {
        return Err(e);
    }
    Ok(Some(i))
}

/// What a proposed match says.
pub struct Proposal {
    pub line_id: i64,
    pub date: Seq<char>,
    pub amount: Seq<char>,
    pub currency: Seq<char>,
    pub description: Seq<char>,
    pub posting_id: i64,
    pub kept_entry_id: i64,
    pub kept_payee: Seq<char>,
    pub kept_date: Seq<char>,
    pub days_apart: int,
    pub removed_draft_id: Option<i64>,
    pub voided_entry_id: Option<i64>,
}

impl View for Match {
    type V = Proposal;

    open spec fn view(&self) -> Proposal {
        Proposal {
            line_id: self.line_id,
            date: self.date@,
            amount: self.amount@,
            currency: self.currency@,
            description: self.description@,
            posting_id: self.posting_id,
            kept_entry_id: self.kept_entry_id,
            kept_payee: self.kept_payee@,
            kept_date: self.kept_date@,
            days_apart: self.days_apart as int,
            removed_draft_id: self.removed_draft_id,
            voided_entry_id: self.voided_entry_id,
        }
    }
}

pub open spec fn proposals(v: Seq<Match>) -> Seq<Proposal> {
    v.map_values(|m: Match| m@)
}

/// Whether a line of another bank source evidences a posting like the wanted one.
pub open spec fn seconds(l: SourcedLine, source: Seq<char>, account: Account, amount: Amount, date: Date, posting_id: i64) -> bool {
    &&& l.line.posting_id == Some(posting_id)
    &&& l.line.status@ == "matched"@ || l.line.status@ == "created"@
    &&& l.source@ != source && l.source@ != "account_tracker"@
    &&& l.line.account_id == Some(account.id)
    &&& l.line.amount matches Some(a) && a@.minor == amount.minor
    &&& l.line.date matches Some(d) && distance(d, date) <= MATCH_WINDOW_DAYS
    &&& l.line.currency@ == account.commodity@
}

/// Whether a posting can be the one that a line of this source is about as well: another bank source
/// evidences it, and no line of this source does.
pub open spec fn can_keep(
    f: Facts,
    source: Seq<char>,
    account: Account,
    amount: Amount,
    date: Date,
    e: JournalEntry,
    p: Posting,
) -> bool {
    &&& p.account_id == account.id
    &&& p.quantity@.minor == amount.minor
    &&& distance(e.date, date) <= MATCH_WINDOW_DAYS
    &&& e.status == EntryStatus::Posted
    &&& exists|k: int| 0 <= k < f.lines.len() && seconds(#[trigger] f.lines[k], source, account, amount, date, p.id)
    &&& forall|k: int|
        0 <= k < f.lines.len() ==> !((#[trigger] f.lines[k]).line.posting_id == Some(p.id) && f.lines[k].source@ == source)
}

/// The places of such postings in an entry, among the first `n`.
pub open spec fn kept_in(f: Facts, source: Seq<char>, account: Account, amount: Amount, date: Date, entry: int, n: nat) -> Seq<(int, int)>
    decreases n,
{
    if n == 0 {
        Seq::empty()
    } else {
        let rest = kept_in(f, source, account, amount, date, entry, (n - 1) as nat);
        if can_keep(f, source, account, amount, date, f.entries[entry], f.entries[entry].postings@[n - 1]) {
            rest.push((entry, n - 1))
        } else {
            rest
        }
    }
}

pub open spec fn all_kept(f: Facts, source: Seq<char>, account: Account, amount: Amount, date: Date, n: nat) -> Seq<(int, int)>
    decreases n,
{
    if n == 0 {
        Seq::empty()
    } else {
        all_kept(f, source, account, amount, date, (n - 1) as nat) + kept_in(
            f,
            source,
            account,
            amount,
            date,
            n - 1,
            f.entries[n - 1].postings@.len(),
        )
    }
}

/// What comes of a line.
pub enum Step {
    Skip,
    Note(Seq<char>),
    Keep(Proposal),
}

pub open spec fn line_note(id: i64, text: Seq<char>) -> Seq<char> {
    "line #"@ + int_text(id as int) + ": "@ + text
}

/// The proposal to keep the posting at a place for a line, whose own entry is at `own`.
pub open spec fn proposal(f: Facts, account: Account, line: StatementLine, at: (int, int), retired: Option<int>) -> Proposal {
    let kept = f.entries[at.0];
    Proposal {
        line_id: line.id,
        date: iso_text(line.date->0),
        amount: decimal_text(normal((line.amount->0@.minor, line.amount->0@.precision))),
        currency: account.commodity@,
        description: line.description@,
        posting_id: kept.postings@[at.1].id,
        kept_entry_id: kept.id,
        kept_payee: kept.payee@,
        kept_date: iso_text(kept.date),
        days_apart: distance(kept.date, line.date->0),
        removed_draft_id: match retired {
            Some(i) => if f.entries[i].status == EntryStatus::Draft {
                Some(f.entries[i].id)
            } else {
                None
            },
            None => None,
        },
        voided_entry_id: match retired {
            Some(i) => if f.entries[i].status == EntryStatus::Posted {
                Some(f.entries[i].id)
            } else {
                None
            },
            None => None,
        },
    }
}

/// What comes of a line whose own entry may be retired: the one posting of another source is kept.
/// Ambiguity is left unchanged.
pub open spec fn keep_step(f: Facts, source: Seq<char>, account: Account, line: StatementLine, retired: Option<int>) -> std::result::Result<
    Step,
    Refusal,
> {
    if retired is None && line.posting_id is Some {
        Ok(Step::Skip)
    } else {
        let kept = all_kept(f, source, account, line.amount->0@, line.date->0, f.entries.len());
        if kept.len() != 1 {
            Ok(Step::Note(line_note(line.id, nat_text(kept.len()) + " cross-source candidates within five days; left unchanged"@)))
        } else {
            let e = f.entries[kept[0].0];
            if retired matches Some(i) && f.entries[i].id <= e.id {
                Ok(Step::Note(line_note(line.id, "target entry is not older than the duplicate; left unchanged"@)))
            } else {
                match entity_place(f.entities, e.entity_id, 0) {
                    None => Err(Refusal::NotFound("entity "@ + int_text(e.entity_id as int))),
                    Some(j) => if is_locked(f.entities[j], e.date) {
                        Ok(Step::Note(line_note(line.id, "locked: "@ + lock_text(f.entities[j], e.date))))
                    } else {
                        Ok(Step::Keep(proposal(f, account, line, kept[0], retired)))
                    },
                }
            }
        }
    }
}

pub open spec fn line_step(f: Facts, source: Seq<char>, line: StatementLine) -> std::result::Result<Step, Refusal> {
    if !(line.status@ == "created"@ || line.status@ == "unmatched"@ || line.status@ == "error"@) || line.account_id is None || line.amount is None
        || line.date is None {
        Ok(Step::Skip)
    } else {
        match place_of(f.accounts, line.account_id->0) {
            None => Err(Refusal::NotFound("account "@ + int_text(line.account_id->0 as int))),
            Some(i) => {
                let a = f.accounts[i];
                let m = line.amount->0@;
                if line.currency@ != a.commodity@ || m.commodity != a.commodity@ || m.precision != a.precision {
                    Ok(Step::Note(line_note(line.id, "currency does not agree with its bank account"@)))
                } else {
                    match disposable(f, line) {
                        Err(Refusal::Conflict(reason)) => Ok(Step::Note(line_note(line.id, reason))),
                        Err(e) => Err(e),
                        Ok(retired) => keep_step(f, source, a, line, retired),
                    }
                }
            },
        }
    }
}

/// The proposals and notes of the first `n` lines.
pub open spec fn steps(f: Facts, source: Seq<char>, lines: Seq<StatementLine>, n: nat) -> std::result::Result<
    (Seq<Proposal>, Seq<Seq<char>>),
    Refusal,
>
    decreases n,
{
    if n == 0 {
        Ok((Seq::empty(), Seq::empty()))
    } else {
        match steps(f, source, lines, (n - 1) as nat) {
            Err(e) => Err(e),
            Ok((ms, ns)) => match line_step(f, source, lines[n - 1]) {
                Err(e) => Err(e),
                Ok(Step::Skip) => Ok((ms, ns)),
                Ok(Step::Note(t)) => Ok((ms, ns.push(t))),
                Ok(Step::Keep(p)) => Ok((ms.push(p), ns)),
            },
        }
    }
}

/// How many of the proposals claim a posting.
pub open spec fn claims(ms: Seq<Proposal>, posting_id: i64, n: nat) -> nat
    decreases n,
{
    if n == 0 {
        0
    } else {
        claims(ms, posting_id, (n - 1) as nat) + (if ms[n - 1].posting_id == posting_id {
            1nat
        } else {
            0
        })
    }
}

/// The proposals among the first `n` that alone claim their posting, and notes on the others.
pub open spec fn settled(ms: Seq<Proposal>, ns: Seq<Seq<char>>, n: nat) -> (Seq<Proposal>, Seq<Seq<char>>)
    decreases n,
{
    if n == 0 {
        (Seq::empty(), ns)
    } else {
        let (kept, notes) = settled(ms, ns, (n - 1) as nat);
        let m = ms[n - 1];
        if claims(ms, m.posting_id, ms.len()) == 1 {
            (kept.push(m), notes)
        } else {
            (
                kept,
                notes.push(
                    line_note(
                        m.line_id,
                        "several incoming lines claim posting #"@ + int_text(m.posting_id as int) + "; left unchanged"@,
                    ),
                ),
            )
        }
    }
}

/// The plan for the lines of an import, or why there is none.
pub open spec fn plan_of(f: Facts, source: Seq<char>, lines: Seq<StatementLine>) -> std::result::Result<
    (Seq<Proposal>, Seq<Seq<char>>),
    Refusal,
> {
    if source == "account_tracker"@ {
        Err(Refusal::Invalid("cross-source reconciliation requires a bank import"@))
    } else {
        match steps(f, source, lines, lines.len()) {
            Err(e) => Err(e),
            Ok((ms, ns)) => Ok(settled(ms, ns, ms.len())),
        }
    }
}

fn days_apart(a: Date, b: Date) -> (r: i64)
    ensures
        r == distance(a, b),
{
    let d: i64 = a.days_since(b);
    if d < 0 {
        -d
    } else {
        d
    }
}

fn does_second(l: &SourcedLine, source: &str, account: &Account, amount: Money, date: Date, posting_id: i64) -> (r: bool)
    ensures
        r == seconds(*l, source@, *account, amount@, date, posting_id),
{
    let of_amount = match l.line.amount {
        Some(a) => a.minor() == amount.minor(),
        None => false,
    };
    let near = match l.line.date {
        Some(d) => days_apart(d, date) <= MATCH_WINDOW_DAYS,
        None => false,
    };
    is_id(l.line.posting_id, posting_id) && (same(l.line.status.as_str(), "matched") || same(l.line.status.as_str(), "created")) && !same(
        l.source.as_str(),
        source,
    ) && !same(l.source.as_str(), "account_tracker") && is_id(l.line.account_id, account.id) && of_amount && near && same(
        l.line.currency.as_str(),
        account.commodity.as_str(),
    )
}

fn is_seconded(lines: &[SourcedLine], source: &str, account: &Account, amount: Money, date: Date, posting_id: i64) -> (r: bool)
    ensures
        r == ((exists|k: int| 0 <= k < lines@.len() && seconds(#[trigger] lines@[k], source@, *account, amount@, date, posting_id))
            && forall|k: int| 0 <= k < lines@.len() ==> !((#[trigger] lines@[k]).line.posting_id == Some(posting_id) && lines@[k].source@
            == source@)),
{
    let mut found = false;
    let mut i: usize = 0;
    while i < lines.len()
        invariant
            i <= lines.len(),
            found == exists|k: int| 0 <= k < i && seconds(#[trigger] lines@[k], source@, *account, amount@, date, posting_id),
            forall|k: int| 0 <= k < i ==> !((#[trigger] lines@[k]).line.posting_id == Some(posting_id) && lines@[k].source@ == source@),
        decreases lines.len() - i,
    {
        if is_id(lines[i].line.posting_id, posting_id) && same(lines[i].source.as_str(), source) {
            return false;
        }
        let ghost before = found;
        if does_second(&lines[i], source, account, amount, date, posting_id) {
            found = true;
        }
        i = i + 1;
    }
    found
}

fn is_kept(s: &Sources<'_>, source: &str, account: &Account, amount: Money, date: Date, e: &JournalEntry, p: &Posting) -> (r: bool)
    ensures
        r == can_keep(s.facts(), source@, *account, amount@, date, *e, *p),
{
    p.account_id == account.id && p.quantity.minor() == amount.minor() && days_apart(e.date, date) <= MATCH_WINDOW_DAYS && e.status
        == EntryStatus::Posted && is_seconded(s.lines, source, account, amount, date, p.id)
}

fn push_kept(s: &Sources<'_>, source: &str, account: &Account, amount: Money, date: Date, i: usize, into: &mut Vec<(usize, usize)>)
    requires
        i < s.entries@.len(),
        are_lines(s.entries@, old(into)@),
    ensures
        are_lines(s.entries@, final(into)@),
        as_pairs(final(into)@) == as_pairs(old(into)@) + kept_in(
            s.facts(),
            source@,
            *account,
            amount@,
            date,
            i as int,
            s.entries@[i as int].postings@.len(),
        ),
{
    let ghost first = as_pairs(into@);
    let ghost v = s.entries@[i as int].postings@;
    let mut k: usize = 0;
    assert(as_pairs(into@) =~= first + kept_in(s.facts(), source@, *account, amount@, date, i as int, 0));
    while k < s.entries[i].postings.len()
        invariant
            i < s.entries@.len(),
            v == s.entries@[i as int].postings@,
            k <= v.len(),
            are_lines(s.entries@, into@),
            as_pairs(into@) == first + kept_in(s.facts(), source@, *account, amount@, date, i as int, k as nat),
        decreases v.len() - k,
    {
        if is_kept(s, source, account, amount, date, &s.entries[i], &s.entries[i].postings[k]) {
            let ghost before = as_pairs(into@);
            into.push((i, k));
            assert(as_pairs(into@) =~= before.push((i as int, k as int)));
            assert(before.push((i as int, k as int)) =~= first + kept_in(
                s.facts(),
                source@,
                *account,
                amount@,
                date,
                i as int,
                (k + 1) as nat,
            ));
        }
        k = k + 1;
    }
}

fn find_kept(s: &Sources<'_>, source: &str, account: &Account, amount: Money, date: Date) -> (r: Vec<(usize, usize)>)
    ensures
        are_lines(s.entries@, r@),
        as_pairs(r@) == all_kept(s.facts(), source@, *account, amount@, date, s.entries@.len()),
{
    let mut r: Vec<(usize, usize)> = Vec::new();
    let mut i: usize = 0;
    assert(as_pairs(r@) =~= Seq::<(int, int)>::empty());
    while i < s.entries.len()
        invariant
            i <= s.entries.len(),
            are_lines(s.entries@, r@),
            as_pairs(r@) == all_kept(s.facts(), source@, *account, amount@, date, i as nat),
        decreases s.entries.len() - i,
    {
        push_kept(s, source, account, amount, date, i, &mut r);
        i = i + 1;
    }
    r
}

/// What comes of a line.
enum Outcome {
    Skip,
    Note(String),
    Keep(Match),
}

spec fn outcome_view(o: Outcome) -> Step {
    match o {
        Outcome::Skip => Step::Skip,
        Outcome::Note(t) => Step::Note(t@),
        Outcome::Keep(m) => Step::Keep(m@),
    }
}

fn note_on(id: i64, text: &str) -> (r: String)
    ensures
        r@ == line_note(id, text@),
{
    cat4("line #", int_string(id).as_str(), ": ", text)
}

fn propose(s: &Sources<'_>, account: &Account, line: &StatementLine, amount: Money, date: Date, at: (usize, usize), retired: Option<usize>) -> (r:
    Match)
    requires
        at.0 < s.entries@.len(),
        at.1 < s.entries@[at.0 as int].postings@.len(),
        retired matches Some(i) ==> i < s.entries@.len(),
        line.amount == Some(amount),
        line.date == Some(date),
    ensures
        r@ == proposal(
            s.facts(),
            *account,
            *line,
            (at.0 as int, at.1 as int),
            match retired {
                Some(i) => Some(i as int),
                None => None,
            },
        ),
{
    let kept = &s.entries[at.0];
    let (removed_draft_id, voided_entry_id) = match retired {
        Some(i) => (
            if s.entries[i].status == EntryStatus::Draft {
                Some(s.entries[i].id)
            } else {
                None
            },
            if s.entries[i].status == EntryStatus::Posted {
                Some(s.entries[i].id)
            } else {
                None
            },
        ),
        None => (None, None),
    };
    Match {
        line_id: line.id,
        date: iso(date),
        amount: amount.major().text(),
        currency: own(account.commodity.as_str()),
        description: own(line.description.as_str()),
        posting_id: kept.postings[at.1].id,
        kept_entry_id: kept.id,
        kept_payee: own(kept.payee.as_str()),
        kept_date: iso(kept.date),
        days_apart: days_apart(kept.date, date),
        removed_draft_id,
        voided_entry_id,
    }
}

fn keep_outcome(
    s: &Sources<'_>,
    source: &str,
    account: &Account,
    line: &StatementLine,
    amount: Money,
    date: Date,
    retired: Option<usize>,
) -> (r: Result<Outcome>)
    requires
        retired matches Some(i) ==> i < s.entries@.len(),
        line.amount == Some(amount),
        line.date == Some(date),
    ensures
        ({
            let step = keep_step(
                s.facts(),
                source@,
                *account,
                *line,
                match retired {
                    Some(i) => Some(i as int),
                    None => None,
                },
            );
            match r {
                Ok(o) => step == Ok::<Step, Refusal>(outcome_view(o)),
                Err(e) => step == Err::<Step, Refusal>(e@),
            }
        }),
{
    if retired.is_none() && line.posting_id.is_some() {
        return Ok(Outcome::Skip);
    }
    let found = find_kept(s, source, account, amount, date);
    assert(as_pairs(found@).len() == found@.len());
    if found.len() != 1 {
        let text = cat(
            nat_string(found.len() as u128).as_str(),
            " cross-source candidates within five days; left unchanged",
        );
        return Ok(Outcome::Note(note_on(line.id, text.as_str())));
    }
    let at = found[0];
    assert(as_pairs(found@)[0] == (at.0 as int, at.1 as int));
    let kept = &s.entries[at.0];
    if let Some(i) = retired {
        if s.entries[i].id <= kept.id {
            return Ok(Outcome::Note(note_on(line.id, "target entry is not older than the duplicate; left unchanged")));
        }
    }
    match get_entity(s.entities, kept.entity_id) {
        Err(e) => Err(e),
        Ok(entity) => match check_lock(entity, kept.date) {
            Err(e) => Ok(Outcome::Note(note_on(line.id, e.text().as_str()))),
            Ok(_) => Ok(Outcome::Keep(propose(s, account, line, amount, date, at, retired))),
        },
    }
}

fn step_for(s: &Sources<'_>, source: &str, line: &StatementLine) -> (r: Result<Outcome>)
    ensures
        match r {
            Ok(o) => line_step(s.facts(), source@, *line) == Ok::<Step, Refusal>(outcome_view(o)),
            Err(e) => line_step(s.facts(), source@, *line) == Err::<Step, Refusal>(e@),
        },
{
    let status = line.status.as_str();
    if !(same(status, "created") || same(status, "unmatched") || same(status, "error")) {
        return Ok(Outcome::Skip);
    }
    let (account_id, amount, date) = match (line.account_id, line.amount, line.date) {
        (Some(a), Some(m), Some(d)) => (a, m, d),
        _ => {
            return Ok(Outcome::Skip);
        },
    };
    let account = match get_account(s.accounts, account_id) {
        Ok(a) => a,
        Err(e) => {
            return Err(e);
        },
    };
    let code = account.commodity.as_str();
    if !same(line.currency.as_str(), code) || !same(amount.commodity().as_str(), code) || amount.precision() != account.precision {
        return Ok(Outcome::Note(note_on(line.id, "currency does not agree with its bank account")));
    }
    match disposable_entry(s, line) {
        Err(Error::Conflict(reason)) => Ok(Outcome::Note(note_on(line.id, reason.as_str()))),
        Err(e) => Err(e),
        Ok(retired) => keep_outcome(s, source, account, line, amount, date, retired),
    }
}

proof fn lemma_steps_failed(f: Facts, source: Seq<char>, lines: Seq<StatementLine>, n: nat, m: nat)
    requires
        n <= m,
        steps(f, source, lines, n) is Err,
    ensures
        steps(f, source, lines, m) == steps(f, source, lines, n),
    decreases m - n,
{
    if n < m {
        lemma_steps_failed(f, source, lines, n, (m - 1) as nat);
    }
}

fn all_steps(s: &Sources<'_>, source: &str, lines: &[StatementLine]) -> (r: Result<(Vec<Match>, Vec<String>)>)
    ensures
        match r {
            Ok(x) => steps(s.facts(), source@, lines@, lines@.len()) == Ok::<(Seq<Proposal>, Seq<Seq<char>>), Refusal>(
                (proposals(x.0@), texts(x.1@)),
            ),
            Err(e) => steps(s.facts(), source@, lines@, lines@.len()) == Err::<(Seq<Proposal>, Seq<Seq<char>>), Refusal>(e@),
        },
{
    let mut matches: Vec<Match> = Vec::new();
    let mut notes: Vec<String> = Vec::new();
    let mut i: usize = 0;
    assert(proposals(matches@) =~= Seq::<Proposal>::empty());
    assert(texts(notes@) =~= Seq::<Seq<char>>::empty());
    while i < lines.len()
        invariant
            i <= lines.len(),
            steps(s.facts(), source@, lines@, i as nat) == Ok::<(Seq<Proposal>, Seq<Seq<char>>), Refusal>(
                (proposals(matches@), texts(notes@)),
            ),
        decreases lines.len() - i,
    {
        match step_for(s, source, &lines[i]) {
            Ok(Outcome::Skip) => {},
            Ok(Outcome::Note(t)) => {
                let ghost before = texts(notes@);
                notes.push(t);
                assert(texts(notes@) =~= before.push(t@));
            },
            Ok(Outcome::Keep(m)) => {
                let ghost before = proposals(matches@);
                matches.push(m);
                assert(proposals(matches@) =~= before.push(m@));
            },
            Err(e) => {
                proof {
                    lemma_steps_failed(s.facts(), source@, lines@, (i + 1) as nat, lines@.len());
                }
                return Err(e);
            },
        }
        i = i + 1;
    }
    Ok((matches, notes))
}

fn count_claims(v: &Vec<Match>, posting_id: i64) -> (r: usize)
    ensures
        r == claims(proposals(v@), posting_id, v@.len()),
{
    let ghost all = proposals(v@);
    let mut r: usize = 0;
    let mut i: usize = 0;
    while i < v.len()
        invariant
            i <= v.len(),
            all == proposals(v@),
            r <= i,
            r == claims(all, posting_id, i as nat),
        decreases v.len() - i,
    {
        assert(all[i as int] == v@[i as int]@);
        if v[i].posting_id == posting_id {
            r = r + 1;
        }
        i = i + 1;
    }
    r
}

fn copy_match(m: &Match) -> (r: Match)
    ensures
        r@ == m@,
{
    Match {
        line_id: m.line_id,
        date: own(m.date.as_str()),
        amount: own(m.amount.as_str()),
        currency: own(m.currency.as_str()),
        description: own(m.description.as_str()),
        posting_id: m.posting_id,
        kept_entry_id: m.kept_entry_id,
        kept_payee: own(m.kept_payee.as_str()),
        kept_date: own(m.kept_date.as_str()),
        days_apart: m.days_apart,
        removed_draft_id: m.removed_draft_id,
        voided_entry_id: m.voided_entry_id,
    }
}

/// Applying a plan requires the token of this very plan.
pub fn confirmed(token: &str, confirmation: Option<&str>) -> (r: Result<bool>)
    ensures
        match confirmation {
            None => r == Ok::<bool, Error>(false),
            Some(c) => if c@ == token@ {
                r == Ok::<bool, Error>(true)
            } else {
                r matches Err(e) && e.conflict(STALE@)
            },
        },
{
    match confirmation {
        None => Ok(false),
        Some(c) => if same(c, token) {
            Ok(true)
        } else {
            Err(conflict(STALE))
        },
    }
}

/// A match as JSON.
pub open spec fn match_document(m: Proposal) -> Seq<char> {
    object_text(
        seq![
            ("line_id"@, int_text(m.line_id as int)),
            ("date"@, json_text(m.date)),
            ("amount"@, json_text(m.amount)),
            ("currency"@, json_text(m.currency)),
            ("description"@, json_text(m.description)),
            ("posting_id"@, int_text(m.posting_id as int)),
            ("kept_entry_id"@, int_text(m.kept_entry_id as int)),
            ("kept_payee"@, json_text(m.kept_payee)),
            ("kept_date"@, json_text(m.kept_date)),
            ("days_apart"@, int_text(m.days_apart)),
            ("removed_draft_id"@, opt_id_text(m.removed_draft_id)),
            ("voided_entry_id"@, opt_id_text(m.voided_entry_id)),
        ],
    )
}

pub open spec fn match_documents(ms: Seq<Proposal>) -> Seq<Seq<char>> {
    ms.map_values(|m: Proposal| match_document(m))
}

fn match_string(m: &Match) -> (r: String)
    ensures
        r@ == match_document(m@),
{
    let v: Vec<(&str, String)> = vec![
        ("line_id", int_string(m.line_id)),
        ("date", json_string(m.date.as_str())),
        ("amount", json_string(m.amount.as_str())),
        ("currency", json_string(m.currency.as_str())),
        ("description", json_string(m.description.as_str())),
        ("posting_id", int_string(m.posting_id)),
        ("kept_entry_id", int_string(m.kept_entry_id)),
        ("kept_payee", json_string(m.kept_payee.as_str())),
        ("kept_date", json_string(m.kept_date.as_str())),
        ("days_apart", int_string(m.days_apart)),
        ("removed_draft_id", opt_id_string(m.removed_draft_id)),
        ("voided_entry_id", opt_id_string(m.voided_entry_id)),
    ];
    let ghost m = m@;
    assert(members(v@) =~= seq![
            ("line_id"@, int_text(m.line_id as int)),
            ("date"@, json_text(m.date)),
            ("amount"@, json_text(m.amount)),
            ("currency"@, json_text(m.currency)),
            ("description"@, json_text(m.description)),
            ("posting_id"@, int_text(m.posting_id as int)),
            ("kept_entry_id"@, int_text(m.kept_entry_id as int)),
            ("kept_payee"@, json_text(m.kept_payee)),
            ("kept_date"@, json_text(m.kept_date)),
            ("days_apart"@, int_text(m.days_apart)),
            ("removed_draft_id"@, opt_id_text(m.removed_draft_id)),
            ("voided_entry_id"@, opt_id_text(m.voided_entry_id)),
    ]);
    object(&v)
}

fn match_strings(ms: &Vec<Match>) -> (r: Vec<String>)
    ensures
        texts(r@) == match_documents(proposals(ms@)),
{
    let ghost all = match_documents(proposals(ms@));
    let mut r: Vec<String> = Vec::new();
    let mut i: usize = 0;
    while i < ms.len()
        invariant
            i <= ms.len(),
            all == match_documents(proposals(ms@)),
            texts(r@) == all.take(i as int),
        decreases ms.len() - i,
    {
        let ghost before = texts(r@);
        let t = match_string(&ms[i]);
        assert(proposals(ms@)[i as int] == ms@[i as int]@);
        r.push(t);
        assert(texts(r@) =~= before.push(t@));
        i = i + 1;
        assert(texts(r@) =~= all.take(i as int));
    }
    assert(texts(r@) =~= all);
    r
}

/// An entry as JSON, where there is one with the number.
pub open spec fn entry_at(entries: Seq<JournalEntry>, id: Option<i64>) -> Seq<char> {
    match id {
        None => "null"@,
        Some(n) => match entry_place(entries, n, 0) {
            Some(i) => entry_document(entries[i]),
            None => "null"@,
        },
    }
}

fn entry_for(entries: &[JournalEntry], id: Option<i64>) -> (r: String)
    ensures
        r@ == entry_at(entries@, id),
{
    match id {
        None => own("null"),
        Some(n) => match find_entry(entries, n) {
            Some(i) => entry_string(&entries[i]),
            None => own("null"),
        },
    }
}

/// The lines among the first `n` that are evidence of a posting, as JSON.
pub open spec fn evidence_documents(lines: Seq<SourcedLine>, posting_id: i64, n: nat) -> Seq<Seq<char>>
    decreases n,
{
    if n == 0 {
        Seq::empty()
    } else if lines[n - 1].line.posting_id == Some(posting_id) {
        evidence_documents(lines, posting_id, (n - 1) as nat).push(line_document(lines[n - 1].line))
    } else {
        evidence_documents(lines, posting_id, (n - 1) as nat)
    }
}

fn evidence_strings(lines: &[SourcedLine], posting_id: i64) -> (r: Vec<String>)
    ensures
        texts(r@) == evidence_documents(lines@, posting_id, lines@.len()),
{
    let mut r: Vec<String> = Vec::new();
    let mut i: usize = 0;
    assert(texts(r@) =~= Seq::<Seq<char>>::empty());
    while i < lines.len()
        invariant
            i <= lines.len(),
            texts(r@) == evidence_documents(lines@, posting_id, i as nat),
        decreases lines.len() - i,
    {
        let l = &lines[i].line;
        let evidences = match l.posting_id {
            Some(p) => p == posting_id,
            None => false,
        };
        if evidences {
            let ghost before = texts(r@);
            let t = line_string(l);
            r.push(t);
            assert(texts(r@) =~= before.push(t@));
        }
        i = i + 1;
    }
    r
}

/// The entry of the line that a match retires.
pub open spec fn retired_by(m: Proposal) -> Option<i64> {
    match m.removed_draft_id {
        Some(id) => Some(id),
        None => m.voided_entry_id,
    }
}

/// What a match rests on: the entry that it retires, the one that it keeps, and the lines that are
/// evidence of the posting already.
pub open spec fn exhibit_document(f: Facts, m: Proposal) -> Seq<char> {
    object_text(
        seq![
            ("own"@, entry_at(f.entries, retired_by(m))),
            ("kept"@, entry_at(f.entries, Some(m.kept_entry_id))),
            ("evidence"@, list_text(evidence_documents(f.lines, m.posting_id, f.lines.len()))),
        ],
    )
}

pub open spec fn exhibit_documents(f: Facts, ms: Seq<Proposal>) -> Seq<Seq<char>> {
    ms.map_values(|m: Proposal| exhibit_document(f, m))
}

fn exhibit_strings(s: &Sources<'_>, ms: &Vec<Match>) -> (r: Vec<String>)
    ensures
        texts(r@) == exhibit_documents(s.facts(), proposals(ms@)),
{
    let ghost all = exhibit_documents(s.facts(), proposals(ms@));
    let mut r: Vec<String> = Vec::new();
    let mut i: usize = 0;
    while i < ms.len()
        invariant
            i <= ms.len(),
            all == exhibit_documents(s.facts(), proposals(ms@)),
            texts(r@) == all.take(i as int),
        decreases ms.len() - i,
    {
        let ghost before = texts(r@);
        let m = &ms[i];
        assert(proposals(ms@)[i as int] == m@);
        let retired = match m.removed_draft_id {
            Some(id) => Some(id),
            None => m.voided_entry_id,
        };
        let v: Vec<(&str, String)> = vec![
            ("own", entry_for(s.entries, retired)),
            ("kept", entry_for(s.entries, Some(m.kept_entry_id))),
            ("evidence", list(&evidence_strings(s.lines, m.posting_id))),
        ];
        let ghost (f, p) = (s.facts(), m@);
        assert(members(v@) =~= seq![
            ("own"@, entry_at(f.entries, retired_by(p))),
            ("kept"@, entry_at(f.entries, Some(p.kept_entry_id))),
            ("evidence"@, list_text(evidence_documents(f.lines, p.posting_id, f.lines.len()))),
        ]);
        let t = object(&v);
        r.push(t);
        assert(texts(r@) =~= before.push(t@));
        i = i + 1;
        assert(texts(r@) =~= all.take(i as int));
    }
    assert(texts(r@) =~= all);
    r
}

/// A plan with the import and the accounting state that it was made from: the import, its lines, the
/// matches, the notes, and what each match that was found rests on.
pub open spec fn plan_text(
    import: ShownImport,
    lines: Seq<StatementLine>,
    matches: Seq<Proposal>,
    notes: Seq<Seq<char>>,
    evidence: Seq<Seq<char>>,
) -> Seq<char> {
    object_text(
        seq![
            ("evidence"@, list_text(evidence)),
            ("import"@, import_document(import)),
            ("lines"@, list_text(line_documents(lines))),
            ("matches"@, list_text(match_documents(matches))),
            ("notes"@, list_text(quoted_texts(notes))),
        ],
    )
}

/// What each match that was found in an import rests on.
pub open spec fn evidence_of(f: Facts, source: Seq<char>, lines: Seq<StatementLine>) -> Seq<Seq<char>> {
    exhibit_documents(f, (steps(f, source, lines, lines.len())->Ok_0).0)
}

/// The token of a plan: it covers the whole plan and the accounting state that it was made from.
pub open spec fn plan_token(
    f: Facts,
    import: ShownImport,
    lines: Seq<StatementLine>,
    matches: Seq<Proposal>,
    notes: Seq<Seq<char>>,
) -> Seq<char> {
    hex_text(sha256_of(encode_utf8(plan_text(import, lines, matches, notes, evidence_of(f, import.source, lines)))))
}

/// Why a confirmation is refused.
pub const STALE: &'static str = "the cross-source preview is stale or its token is incorrect; preview again";

/// Preview of an import against the other bank sources: which postings its lines confirm, which of
/// their own entries are retired for it, and notes on the lines that are left unchanged. Ambiguity
/// on either side is refused. A preview returns a token for this exact plan and accounting state, and
/// applying it requires that token.
pub fn rematch(s: &Sources<'_>, import: &Import, lines: &[StatementLine], confirmation: Option<&str>) -> (r: Result<Report>)
    ensures
        match plan_of(s.facts(), import.source@, lines@) {
            Err(f) => r matches Err(e) && e@ == f,
            Ok((ms, ns)) => {
                let token = plan_token(s.facts(), import@, lines@, ms, ns);
                if confirmation is Some && confirmation->0@ != token {
                    r matches Err(e) && e.conflict(STALE@)
                } else {
                    &&& r matches Ok(x)
                    &&& proposals(x.matches@) == ms && texts(x.notes@) == ns
                    &&& x.import_id == import.id && x.source@ == import.source@
                    &&& x.token@ == token && x.applied == (confirmation is Some)
                }
            },
        },
{
    let source = import.source.as_str();
    if same(source, "account_tracker") {
        return Err(invalid("cross-source reconciliation requires a bank import"));
    }
    let (found, notes) = match all_steps(s, source, lines) {
        Ok(x) => x,
        Err(e) => {
            return Err(e);
        },
    };
    let ghost (ms, ns) = (proposals(found@), texts(notes@));
    let evidence = exhibit_strings(s, &found);
    let mut notes = notes;
    let mut matches: Vec<Match> = Vec::new();
    let mut i: usize = 0;
    assert(proposals(matches@) =~= Seq::<Proposal>::empty());
    while i < found.len()
        invariant
            i <= found.len(),
            ms == proposals(found@),
            settled(ms, ns, i as nat) == (proposals(matches@), texts(notes@)),
        decreases found.len() - i,
    {
        let m = &found[i];
        assert(ms[i as int] == m@);
        if count_claims(&found, m.posting_id) == 1 {
            let ghost before = proposals(matches@);
            let c = copy_match(m);
            matches.push(c);
            assert(proposals(matches@) =~= before.push(c@));
        } else {
            let ghost before = texts(notes@);
            let text = cat3("several incoming lines claim posting #", int_string(m.posting_id).as_str(), "; left unchanged");
            let n = note_on(m.line_id, text.as_str());
            notes.push(n);
            assert(texts(notes@) =~= before.push(n@));
        }
        i = i + 1;
    }
    assert(ms.len() == found@.len());
    let v: Vec<(&str, String)> = vec![
        ("evidence", list(&evidence)),
        ("import", import_string(import)),
        ("lines", list(&line_strings(lines))),
        ("matches", list(&match_strings(&matches))),
        ("notes", text_list(&notes)),
    ];
    assert(members(v@) =~= seq![
        ("evidence"@, list_text(texts(evidence@))),
        ("import"@, import_document(import@)),
        ("lines"@, list_text(line_documents(lines@))),
        ("matches"@, list_text(match_documents(proposals(matches@)))),
        ("notes"@, list_text(quoted_texts(texts(notes@)))),
    ]);
    let token = token_of_text(object(&v).as_str());
    let applied = match confirmed(token.as_str(), confirmation) {
        Ok(a) => a,
        Err(e) => {
            return Err(e);
        },
    };
    Ok(Report { import_id: import.id, source: own(source), matches, notes, token, applied })
}

/// The reason that the duplicate of a kept entry is voided with.
pub fn void_reason(m: &Match) -> (r: String)
    ensures
        r@ == "Confirmed cross-source duplicate of #"@ + int_text(m.kept_entry_id as int) + " (line #"@ + int_text(m.line_id as int) + ")"@,
{
    cat5(
        "Confirmed cross-source duplicate of #",
        int_string(m.kept_entry_id).as_str(),
        " (line #",
        int_string(m.line_id).as_str(),
        ")",
    )
}

proof fn lemma_claims(ms: Seq<Proposal>, id: i64, i: int, j: int, n: nat)
    requires
        0 <= i < j < n <= ms.len(),
        ms[i].posting_id == id,
        ms[j].posting_id == id,
    ensures
        claims(ms, id, n) >= 2,
    decreases n,
{
    if j == n - 1 {
        lemma_claim(ms, id, i, (n - 1) as nat);
    } else {
        lemma_claims(ms, id, i, j, (n - 1) as nat);
    }
}

proof fn lemma_claim(ms: Seq<Proposal>, id: i64, i: int, n: nat)
    requires
        0 <= i < n <= ms.len(),
        ms[i].posting_id == id,
    ensures
        claims(ms, id, n) >= 1,
    decreases n,
{
    if i != n - 1 {
        lemma_claim(ms, id, i, (n - 1) as nat);
    }
}

/// No posting is claimed twice: where several lines of an import claim one, none of them keeps it.
pub proof fn law_claimed_once(ms: Seq<Proposal>, ns: Seq<Seq<char>>, i: int, j: int)
    requires
        0 <= i < j < settled(ms, ns, ms.len()).0.len(),
    ensures
        settled(ms, ns, ms.len()).0[i].posting_id != settled(ms, ns, ms.len()).0[j].posting_id,
{
    lemma_claimed_once(ms, ns, ms.len(), i, j);
}

/// No two matches of a plan are of one posting.
pub proof fn law_plan_claims_once(f: Facts, source: Seq<char>, lines: Seq<StatementLine>, i: int, j: int)
    requires
        plan_of(f, source, lines) is Ok,
        0 <= i < j < (plan_of(f, source, lines)->Ok_0).0.len(),
    ensures
        (plan_of(f, source, lines)->Ok_0).0[i].posting_id != (plan_of(f, source, lines)->Ok_0).0[j].posting_id,
{
    let (ms, ns) = steps(f, source, lines, lines.len())->Ok_0;
    law_claimed_once(ms, ns, i, j);
}

proof fn lemma_settled_from(ms: Seq<Proposal>, ns: Seq<Seq<char>>, n: nat, i: int) -> (k: int)
    requires
        n <= ms.len(),
        0 <= i < settled(ms, ns, n).0.len(),
    ensures
        0 <= k < n,
        settled(ms, ns, n).0[i] == ms[k],
        claims(ms, ms[k].posting_id, ms.len()) == 1,
    decreases n,
{
    let rest = settled(ms, ns, (n - 1) as nat).0;
    if i < rest.len() {
        lemma_settled_from(ms, ns, (n - 1) as nat, i)
    } else {
        n - 1
    }
}

proof fn lemma_claimed_once(ms: Seq<Proposal>, ns: Seq<Seq<char>>, n: nat, i: int, j: int)
    requires
        n <= ms.len(),
        0 <= i < j < settled(ms, ns, n).0.len(),
    ensures
        settled(ms, ns, n).0[i].posting_id != settled(ms, ns, n).0[j].posting_id,
    decreases n,
{
    let rest = settled(ms, ns, (n - 1) as nat).0;
    if j < rest.len() {
        lemma_claimed_once(ms, ns, (n - 1) as nat, i, j);
    } else {
        let k = lemma_settled_from(ms, ns, (n - 1) as nat, i);
        if ms[k].posting_id == ms[n - 1].posting_id {
            lemma_claims(ms, ms[k].posting_id, k, n - 1, ms.len());
        }
    }
}

} // verus!
