//! What becomes of a statement line: a duplicate, the evidence of an entry, or a draft.

use vstd::prelude::*;

use crate::accounts::place_of;
use crate::cross_source::MATCH_WINDOW_DAYS;
use crate::date::numbered;
use crate::error::{invalid, Refusal, Result};
use crate::imports::statement::opt_amount;
use crate::imports::opt_text;
use crate::matcher::{best_match_for, best_of, unit_problem, Wanted};
use crate::model::{Account, EntryStatus, JournalEntry, Posting, StatementLine};
use crate::money::{amount_of, Amount, Money};
use crate::refunds::{candidate_places, candidates, not_refunding, DEFAULT_WINDOW_DAYS};
use crate::text::{cat3, int_string, int_text, own, same};

verus! {

/// Whether a line is settled: it evidences an entry.
pub open spec fn is_done(status: Seq<char>) -> bool {
    status == "matched"@ || status == "created"@
}

fn done(status: &str) -> (r: bool)
    ensures
        r == is_done(status@),
{
    same(status, "matched") || same(status, "created")
}

/// What two lines agree in.
#[derive(Debug, Clone, Copy, PartialEq, Eq, Structural)]
pub enum By {
    Reference,
    Fingerprint,
}

pub open spec fn mark_of(l: StatementLine, by: By) -> Seq<char> {
    match by {
        By::Reference => l.reference@,
        By::Fingerprint => l.fingerprint@,
    }
}

/// The first line, from `i` on, that is settled on an account and agrees with a line.
pub open spec fn earlier_line(lines: Seq<StatementLine>, account_id: i64, sl: StatementLine, by: By, i: int) -> Option<i64>
    decreases lines.len() - i,
{
    if i < 0 || i >= lines.len() {
        None
    } else if lines[i].account_id == Some(account_id) && mark_of(lines[i], by) == mark_of(sl, by) && lines[i].id != sl.id && is_done(
        lines[i].status@,
    ) {
        Some(lines[i].id)
    } else {
        earlier_line(lines, account_id, sl, by, i + 1)
    }
}

fn find_earlier(lines: &[StatementLine], account_id: i64, sl: &StatementLine, by: By) -> (r: Option<i64>)
    ensures
        r == earlier_line(lines@, account_id, *sl, by, 0),
{
    let mut i: usize = 0;
    while i < lines.len()
        invariant
            i <= lines.len(),
            earlier_line(lines@, account_id, *sl, by, 0) == earlier_line(lines@, account_id, *sl, by, i as int),
        decreases lines.len() - i,
    {
        let l = &lines[i];
        let on_account = match l.account_id {
            Some(id) => id == account_id,
            None => false,
        };
        let agrees = match by {
            By::Reference => same(l.reference.as_str(), sl.reference.as_str()),
            By::Fingerprint => same(l.fingerprint.as_str(), sl.fingerprint.as_str()),
        };
        if on_account && agrees && l.id != sl.id && done(l.status.as_str()) {
            return Some(l.id);
        }
        i = i + 1;
    }
    None
}

/// The first posting of an entry, from `i` on, that another source brought to an account under a
/// reference.
pub open spec fn posting_named(v: Seq<Posting>, account_id: i64, reference: Seq<char>, i: int) -> Option<i64>
    decreases v.len() - i,
{
    if i < 0 || i >= v.len() {
        None
    } else if v[i].account_id == account_id && opt_text(v[i].external_id) == Some(reference) {
        Some(v[i].id)
    } else {
        posting_named(v, account_id, reference, i + 1)
    }
}

pub open spec fn posted_under(entries: Seq<JournalEntry>, account_id: i64, reference: Seq<char>, i: int) -> Option<i64>
    decreases entries.len() - i,
{
    if i < 0 || i >= entries.len() {
        None
    } else {
        let e = entries[i];
        let found = if (e.status == EntryStatus::Draft || e.status == EntryStatus::Posted) && e.reverses_id is None {
            posting_named(e.postings@, account_id, reference, 0)
        } else {
            None
        };
        match found {
            Some(p) => Some(p),
            None => posted_under(entries, account_id, reference, i + 1),
        }
    }
}

fn find_named(v: &Vec<Posting>, account_id: i64, reference: &str) -> (r: Option<i64>)
    ensures
        r == posting_named(v@, account_id, reference@, 0),
{
    let mut i: usize = 0;
    while i < v.len()
        invariant
            i <= v.len(),
            posting_named(v@, account_id, reference@, 0) == posting_named(v@, account_id, reference@, i as int),
        decreases v.len() - i,
    {
        let named = match &v[i].external_id {
            Some(t) => same(t.as_str(), reference),
            None => false,
        };
        if v[i].account_id == account_id && named {
            return Some(v[i].id);
        }
        i = i + 1;
    }
    None
}

fn find_posted(entries: &[JournalEntry], account_id: i64, reference: &str) -> (r: Option<i64>)
    ensures
        r == posted_under(entries@, account_id, reference@, 0),
{
    let mut i: usize = 0;
    while i < entries.len()
        invariant
            i <= entries.len(),
            posted_under(entries@, account_id, reference@, 0) == posted_under(entries@, account_id, reference@, i as int),
        decreases entries.len() - i,
    {
        let e = &entries[i];
        if (e.status == EntryStatus::Draft || e.status == EntryStatus::Posted) && e.reverses_id.is_none() {
            if let Some(p) = find_named(&e.postings, account_id, reference) {
                return Some(p);
            }
        }
        i = i + 1;
    }
    None
}

/// What is done with a line.
#[derive(Debug, Clone, Copy, PartialEq, Eq, Structural)]
pub enum Decision {
    /// It has no date or no amount, and is skipped.
    Unusable,
    /// It repeats an earlier line.
    Duplicate(i64),
    /// It evidences a posting.
    Attach(i64),
    /// It may be a full refund, and waits for explicit confirmation instead of being categorized as
    /// income by a broad credit rule.
    DraftAside,
    /// It is drafted through rules, or to Suspense.
    Draft,
}

/// Whether a line may be the refund of an expense.
pub open spec fn may_refund(sl: StatementLine, accounts: Seq<Account>, entries: Seq<JournalEntry>) -> std::result::Result<bool, Refusal> {
    if not_refunding(sl) {
        Ok(false)
    } else {
        match place_of(accounts, sl.account_id->0) {
            None => Err(Refusal::NotFound("account "@ + int_text(sl.account_id->0 as int))),
            Some(i) => {
                let from = sl.date->0.number() - DEFAULT_WINDOW_DAYS;
                if !numbered(from) {
                    Err(Refusal::Invalid("refund lookback date is out of range"@))
                } else {
                    Ok(candidate_places(entries, accounts[i], sl.amount->0@, from, sl.date->0, entries.len()).len() > 0)
                }
            },
        }
    }
}

/// What is done with a line of a source: first the duplicates of its reference, which may also name
/// a posting of another source, then those of its fingerprint, then a posting that matches it.
///
/// Enable Banking references identify movements across pulls. A new reference must not collide with
/// a fingerprint from a different movement or partial pull. Other formats can change IDs between
/// exports, so they keep their fallback.
pub open spec fn decision_of(
    account: Account,
    accounts: Seq<Account>,
    sl: StatementLine,
    source: Seq<char>,
    lines: Seq<StatementLine>,
    entries: Seq<JournalEntry>,
    evidenced: Seq<i64>,
) -> std::result::Result<Decision, Refusal> {
    let referenced = sl.reference@.len() > 0;
    let by_reference = if referenced {
        earlier_line(lines, account.id, sl, By::Reference, 0)
    } else {
        None
    };
    let posted = if referenced {
        posted_under(entries, account.id, sl.reference@, 0)
    } else {
        None
    };
    let by_print = if source != "enable_banking_json"@ || !referenced {
        earlier_line(lines, account.id, sl, By::Fingerprint, 0)
    } else {
        None
    };
    if sl.date is None || sl.amount is None {
        Ok(Decision::Unusable)
    } else if by_reference is Some {
        Ok(Decision::Duplicate(by_reference->0))
    } else if posted is Some {
        Ok(Decision::Attach(posted->0))
    } else if by_print is Some {
        Ok(Decision::Duplicate(by_print->0))
    } else {
        match unit_problem(account, sl.amount->0@) {
            Some(e) => Err(e),
            None => {
                let w = Wanted { account_id: account.id, amount: sl.amount->0, date: sl.date->0, window_days: MATCH_WINDOW_DAYS };
                match best_of(w, entries, evidenced, sl.description@) {
                    Some(p) => Ok(Decision::Attach(p)),
                    None => match may_refund(sl, accounts, entries) {
                        Err(e) => Err(e),
                        Ok(b) => Ok(
                            if b {
                                Decision::DraftAside
                            } else {
                                Decision::Draft
                            },
                        ),
                    },
                }
            },
        }
    }
}

/// Decides what is done with a line: dedupe against earlier lines and postings, match a posting, or
/// draft an entry.
pub fn process_line(
    account: &Account,
    accounts: &[Account],
    sl: &StatementLine,
    source: &str,
    lines: &[StatementLine],
    entries: &[JournalEntry],
    evidenced: &[i64],
) -> (r: Result<Decision>)
    ensures
        match r {
            Ok(d) => decision_of(*account, accounts@, *sl, source@, lines@, entries@, evidenced@) == Ok::<Decision, Refusal>(d),
            Err(e) => decision_of(*account, accounts@, *sl, source@, lines@, entries@, evidenced@) == Err::<Decision, Refusal>(e@),
        },
{
    let (date, amount) = match (sl.date, sl.amount) {
        (Some(d), Some(a)) => (d, a),
        _ => {
            return Ok(Decision::Unusable);
        },
    };
    let referenced = !sl.reference.as_str().is_empty();
    if referenced {
        if let Some(id) = find_earlier(lines, account.id, sl, By::Reference) {
            return Ok(Decision::Duplicate(id));
        }
        // The posting exists from another source (a migration, say): this line evidences it.
        if let Some(id) = find_posted(entries, account.id, sl.reference.as_str()) {
            return Ok(Decision::Attach(id));
        }
    }
    if !same(source, "enable_banking_json") || !referenced {
        if let Some(id) = find_earlier(lines, account.id, sl, By::Fingerprint) {
            return Ok(Decision::Duplicate(id));
        }
    }
    match best_match_for(account, entries, evidenced, amount, date, MATCH_WINDOW_DAYS, sl.description.as_str()) {
        Err(e) => {
            return Err(e);
        },
        Ok(Some(id)) => {
            return Ok(Decision::Attach(id));
        },
        Ok(None) => {},
    }
    match candidates(sl, accounts, entries, DEFAULT_WINDOW_DAYS) {
        Err(e) => Err(e),
        Ok(v) => if v.len() > 0 {
            Ok(Decision::DraftAside)
        } else {
            Ok(Decision::Draft)
        },
    }
}

/// Whether a line is unfinished, so that a retry may take it up from its persisted evidence.
/// Completed lines are never replayed, even when an earlier pass stopped mid-file.
pub open spec fn unfinished(l: StatementLine) -> bool {
    (l.status@ == "unmatched"@ || l.status@ == "error"@) && l.journal_entry_id is None && l.posting_id is None
}

/// The places of the first `n` lines that are unfinished.
pub open spec fn unfinished_places(lines: Seq<StatementLine>, n: nat) -> Seq<usize>
    decreases n,
{
    if n == 0 {
        Seq::empty()
    } else {
        let before = unfinished_places(lines, (n - 1) as nat);
        if unfinished(lines[n - 1]) {
            before.push((n - 1) as usize)
        } else {
            before
        }
    }
}

/// The lines that a retry of an import takes up, on the account that it was placed on.
pub fn retry(source: &str, account_id: Option<i64>, lines: &[StatementLine]) -> (r: Result<(i64, Vec<usize>)>)
    ensures
        match r {
            Ok((id, v)) => source@ != "account_tracker"@ && account_id == Some(id) && v@ == unfinished_places(lines@, lines@.len()),
            Err(e) => if source@ == "account_tracker"@ {
                e.invalid("Account Tracker is a migration; retry it through its migration importer"@)
            } else {
                account_id is None && e.invalid("place the import on an account before retrying"@)
            },
        },
{
    if same(source, "account_tracker") {
        return Err(invalid("Account Tracker is a migration; retry it through its migration importer"));
    }
    let id = match account_id {
        Some(id) => id,
        None => {
            return Err(invalid("place the import on an account before retrying"));
        },
    };
    let mut v: Vec<usize> = Vec::new();
    let mut i: usize = 0;
    while i < lines.len()
        invariant
            i <= lines.len(),
            v@ == unfinished_places(lines@, i as nat),
        decreases lines.len() - i,
    {
        let l = &lines[i];
        if (same(l.status.as_str(), "unmatched") || same(l.status.as_str(), "error")) && l.journal_entry_id.is_none() && l.posting_id.is_none() {
            v.push(i);
        }
        i = i + 1;
    }
    Ok((id, v))
}

/// What a line's status and note become by hand, where they change.
pub fn skip_line(l: &StatementLine, unskip: bool) -> (r: Result<Option<(String, String)>>)
    ensures
        if unskip {
            if l.status@ == "skipped"@ {
                r matches Ok(Some((s, n))) && s@ == "unmatched"@ && n@ == Seq::<char>::empty()
            } else {
                r matches Ok(None)
            }
        } else if is_done(l.status@) {
            r matches Err(e) && e.invalid("this line already evidences an entry; void the entry first"@)
        } else {
            r matches Ok(Some((s, n))) && s@ == "skipped"@ && n@ == "skipped by hand"@
        },
{
    if unskip {
        if same(l.status.as_str(), "skipped") {
            let note: String = String::new();
            assert(note@ =~= Seq::<char>::empty());
            Ok(Some((own("unmatched"), note)))
        } else {
            Ok(None)
        }
    } else if done(l.status.as_str()) {
        Err(invalid("this line already evidences an entry; void the entry first"))
    } else {
        Ok(Some((own("skipped"), own("skipped by hand"))))
    }
}

/// What the two money columns of a statement line hold, before they have a commodity.
#[derive(Debug)]
pub struct LineMinor {
    pub amount: Option<i64>,
    pub balance_after: Option<i64>,
    pub precision: Option<u32>,
    pub commodity: Option<String>,
}

pub open spec fn money_of(minor: Option<i64>, commodity: Seq<char>, precision: u32) -> std::result::Result<Option<Amount>, Refusal> {
    match minor {
        None => Ok(None),
        Some(n) => match amount_of(n as int, commodity, precision as int) {
            Ok(a) => Ok(Some(a)),
            Err(e) => Err(e),
        },
    }
}

/// The values of a stored line, or why they have none: the commodity of a statement line is its
/// account's; a line with no account names it.
pub open spec fn values_of(id: i64, m: LineMinor) -> std::result::Result<(Option<Amount>, Option<Amount>), Refusal> {
    if m.amount is None && m.balance_after is None {
        Ok((None, None))
    } else if m.precision is None {
        Err(
            Refusal::Invalid(
                "statement line "@ + int_text(id as int) + " has a value but no commodity: neither an account nor a known currency"@,
            ),
        )
    } else if m.commodity is None {
        Err(Refusal::Invalid("statement line "@ + int_text(id as int) + " has no commodity"@))
    } else {
        match money_of(m.amount, m.commodity->0@, m.precision->0) {
            Err(e) => Err(e),
            Ok(a) => match money_of(m.balance_after, m.commodity->0@, m.precision->0) {
                Err(e) => Err(e),
                Ok(b) => Ok((a, b)),
            },
        }
    }
}

fn typed_money(minor: Option<i64>, commodity: &str, precision: u32) -> (r: Result<Option<Money>>)
    ensures
        match r {
            Ok(m) => money_of(minor, commodity@, precision) == Ok::<Option<Amount>, Refusal>(opt_amount(m)),
            Err(e) => money_of(minor, commodity@, precision) == Err::<Option<Amount>, Refusal>(e@),
        },
{
    match minor {
        None => Ok(None),
        Some(n) => match Money::from_minor(n, commodity, precision) {
            Ok(m) => Ok(Some(m)),
            Err(e) => Err(e),
        },
    }
}

/// A stored line with its values.
pub fn line_with_money(line: StatementLine, minor: &LineMinor) -> (r: Result<StatementLine>)
    requires
        line.amount is None,
        line.balance_after is None,
    ensures
        match r {
            Ok(l) => values_of(line.id, *minor) == Ok::<(Option<Amount>, Option<Amount>), Refusal>(
                (opt_amount(l.amount), opt_amount(l.balance_after)),
            ) && (StatementLine { amount: line.amount, balance_after: line.balance_after, ..l }) == line,
            Err(e) => values_of(line.id, *minor) == Err::<(Option<Amount>, Option<Amount>), Refusal>(e@),
        },
{
    if minor.amount.is_none() && minor.balance_after.is_none() {
        return Ok(line);
    }
    let precision = match minor.precision {
        Some(p) => p,
        None => {
            return Err(
                invalid(
                    cat3(
                        "statement line ",
                        int_string(line.id).as_str(),
                        " has a value but no commodity: neither an account nor a known currency",
                    ).as_str(),
                ),
            );
        },
    };
    let commodity: &str = match &minor.commodity {
        Some(c) => c.as_str(),
        None => {
            return Err(invalid(cat3("statement line ", int_string(line.id).as_str(), " has no commodity").as_str()));
        },
    };
    let amount = match typed_money(minor.amount, commodity, precision) {
        Ok(m) => m,
        Err(e) => {
            return Err(e);
        },
    };
    let balance_after = match typed_money(minor.balance_after, commodity, precision) {
        Ok(m) => m,
        Err(e) => {
            return Err(e);
        },
    };
    let mut l = line;
    l.amount = amount;
    l.balance_after = balance_after;
    Ok(l)
}

/// Whether a line repeats another one on an account: it is another line that was booked or matched there, with
/// the same mark.
pub open spec fn repeats(lines: Seq<StatementLine>, account_id: i64, sl: StatementLine, by: By, i: int) -> bool {
    &&& 0 <= i < lines.len()
    &&& lines[i].account_id == Some(account_id) && lines[i].id != sl.id
    &&& lines[i].status@ == "matched"@ || lines[i].status@ == "created"@
    &&& match by {
        By::Reference => lines[i].reference@ == sl.reference@,
        By::Fingerprint => lines[i].fingerprint@ == sl.fingerprint@,
    }
}

proof fn lemma_earlier(lines: Seq<StatementLine>, account_id: i64, sl: StatementLine, by: By, i: int)
    requires
        0 <= i,
    ensures
        match earlier_line(lines, account_id, sl, by, i) {
            Some(id) => exists|k: int| i <= k && #[trigger] repeats(lines, account_id, sl, by, k) && lines[k].id == id,
            None => forall|k: int| i <= k ==> !#[trigger] repeats(lines, account_id, sl, by, k),
        },
    decreases lines.len() - i,
{
    if i < lines.len() {
        lemma_earlier(lines, account_id, sl, by, i + 1);
        if earlier_line(lines, account_id, sl, by, i) is Some {
            if repeats(lines, account_id, sl, by, i) {
                assert(repeats(lines, account_id, sl, by, i));
            }
        }
    }
}

/// A movement is booked once. A line that repeats the reference of another one is a duplicate of it; so is one
/// that repeats a fingerprint, unless its reference names a posting or its source tells movements by their
/// references alone. A line is drafted only where it repeats none and no posting can be what it is about.
pub proof fn law_movement_booked_once(
    account: Account,
    accounts: Seq<Account>,
    sl: StatementLine,
    source: Seq<char>,
    lines: Seq<StatementLine>,
    entries: Seq<JournalEntry>,
    evidenced: Seq<i64>,
    i: int,
)
    requires
        sl.date is Some,
        sl.amount is Some,
    ensures
        ({
            let d = decision_of(account, accounts, sl, source, lines, entries, evidenced);
            &&& sl.reference@.len() > 0 && repeats(lines, account.id, sl, By::Reference, i) ==> (d matches Ok(Decision::Duplicate(id)) && exists|k: int| #[trigger]
                repeats(lines, account.id, sl, By::Reference, k) && lines[k].id == id)
            &&& (source != "enable_banking_json"@ || sl.reference@.len() == 0) && repeats(lines, account.id, sl, By::Fingerprint, i) ==> (d matches Ok(x) && (
            x is Duplicate || x is Attach && sl.reference@.len() > 0))
            &&& d == Ok::<Decision, Refusal>(Decision::Draft) || d == Ok::<Decision, Refusal>(Decision::DraftAside) ==> best_of(
                (Wanted { account_id: account.id, amount: sl.amount->0, date: sl.date->0, window_days: MATCH_WINDOW_DAYS }),
                entries,
                evidenced,
                sl.description@,
            ) is None && !(sl.reference@.len() > 0 && repeats(lines, account.id, sl, By::Reference, i))
            &&& d matches Ok(Decision::Duplicate(id)) ==> exists|k: int, by: By| #[trigger] repeats(lines, account.id, sl, by, k) && lines[k].id == id
        }),
{
    lemma_earlier(lines, account.id, sl, By::Reference, 0);
    lemma_earlier(lines, account.id, sl, By::Fingerprint, 0);
}

} // verus!
