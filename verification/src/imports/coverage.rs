//! Advisory overlap detection. It changes neither matching nor posting decisions.

use vstd::prelude::*;

use crate::cross_source::MATCH_WINDOW_DAYS;
use crate::date::{iso, iso_text, Date};
use crate::model::{AccountType, EntryStatus, JournalEntry, Posting, StatementLine};
use crate::text::{cat5, nat_string, nat_text, same};

verus! {

/// Whether an entry is posted activity on an account that another import or a person brought in.
pub open spec fn is_activity(e: JournalEntry, account_id: i64, lines: Seq<StatementLine>, exclude_import: i64) -> bool {
    &&& e.status == EntryStatus::Posted
    &&& e.reverses_id is None
    &&& exists|i: int| 0 <= i < e.postings@.len() && (#[trigger] e.postings@[i]).account_id == account_id && e.postings@[i].quantity@.minor != 0
    &&& forall|i: int| 0 <= i < e.postings@.len() ==> (#[trigger] e.postings@[i]).account_type != AccountType::Equity
    &&& forall|i: int| 0 <= i < lines.len() ==> !((#[trigger] lines[i]).import_id == exclude_import && lines[i].journal_entry_id == Some(e.id))
}

/// The dates of the first `n` entries that are activity.
pub open spec fn dates_of(entries: Seq<JournalEntry>, account_id: i64, lines: Seq<StatementLine>, exclude_import: i64, n: nat) -> Seq<Date>
    decreases n,
{
    if n == 0 {
        Seq::empty()
    } else {
        let before = dates_of(entries, account_id, lines, exclude_import, (n - 1) as nat);
        if is_activity(entries[n - 1], account_id, lines, exclude_import) {
            before.push(entries[n - 1].date)
        } else {
            before
        }
    }
}

fn moves(v: &Vec<Posting>, account_id: i64) -> (r: bool)
    ensures
        r == ((exists|i: int| 0 <= i < v@.len() && (#[trigger] v@[i]).account_id == account_id && v@[i].quantity@.minor != 0) && forall|i: int|
            0 <= i < v@.len() ==> (#[trigger] v@[i]).account_type != AccountType::Equity),
{
    let mut found = false;
    let mut i: usize = 0;
    while i < v.len()
        invariant
            i <= v.len(),
            found == (exists|k: int| 0 <= k < i && (#[trigger] v@[k]).account_id == account_id && v@[k].quantity@.minor != 0),
            forall|k: int| 0 <= k < i ==> (#[trigger] v@[k]).account_type != AccountType::Equity,
        decreases v.len() - i,
    {
        if v[i].account_type == AccountType::Equity {
            assert(v@[i as int].account_type == AccountType::Equity);
            return false;
        }
        if v[i].account_id == account_id && !v[i].quantity.is_zero() {
            assert(v@[i as int].account_id == account_id);
            found = true;
        }
        i = i + 1;
    }
    found
}

fn is_from(lines: &[StatementLine], import_id: i64, entry_id: i64) -> (r: bool)
    ensures
        r == !(forall|i: int|
            0 <= i < lines@.len() ==> !((#[trigger] lines@[i]).import_id == import_id && lines@[i].journal_entry_id == Some(entry_id))),
{
    let mut i: usize = 0;
    while i < lines.len()
        invariant
            i <= lines.len(),
            forall|k: int| 0 <= k < i ==> !((#[trigger] lines@[k]).import_id == import_id && lines@[k].journal_entry_id == Some(entry_id)),
        decreases lines.len() - i,
    {
        let same_entry = match lines[i].journal_entry_id {
            Some(id) => id == entry_id,
            None => false,
        };
        if lines[i].import_id == import_id && same_entry {
            assert(lines@[i as int].import_id == import_id);
            return true;
        }
        i = i + 1;
    }
    false
}

/// When an account was active before.
pub fn dates(entries: &[JournalEntry], account_id: i64, lines: &[StatementLine], exclude_import: i64) -> (r: Vec<Date>)
    ensures
        r@ == dates_of(entries@, account_id, lines@, exclude_import, entries@.len()),
{
    let mut r: Vec<Date> = Vec::new();
    let mut i: usize = 0;
    while i < entries.len()
        invariant
            i <= entries.len(),
            r@ == dates_of(entries@, account_id, lines@, exclude_import, i as nat),
        decreases entries.len() - i,
    {
        let e = &entries[i];
        if e.status == EntryStatus::Posted && e.reverses_id.is_none() && moves(&e.postings, account_id) && !is_from(lines, exclude_import, e.id) {
            r.push(e.date);
        }
        i = i + 1;
    }
    r
}

/// Whether a day is within the window of one of some dates.
pub open spec fn near(dates: Seq<Date>, d: Date) -> bool {
    exists|i: int| 0 <= i < dates.len() && -MATCH_WINDOW_DAYS <= (#[trigger] dates[i]).number() - d.number() <= MATCH_WINDOW_DAYS
}

/// Whether a line may repeat earlier activity.
pub open spec fn affected(dates: Seq<Date>, l: StatementLine, preview: bool) -> bool {
    (l.status@ == "created"@ || (preview && l.status@ == "unmatched"@)) && l.date is Some && near(dates, l.date->0)
}

/// How many of the first `n` lines are affected, and their first and last days.
pub open spec fn overlap(dates: Seq<Date>, lines: Seq<StatementLine>, preview: bool, n: nat) -> Option<(nat, Date, Date)>
    decreases n,
{
    if n == 0 {
        None
    } else {
        let before = overlap(dates, lines, preview, (n - 1) as nat);
        if affected(dates, lines[n - 1], preview) {
            let d = lines[n - 1].date->0;
            match before {
                None => Some((1, d, d)),
                Some((count, first, last)) => Some(
                    (
                        count + 1,
                        if d.before(first) {
                            d
                        } else {
                            first
                        },
                        if last.before(d) {
                            d
                        } else {
                            last
                        },
                    ),
                ),
            }
        } else {
            before
        }
    }
}

/// What is said of an overlap.
pub open spec fn warning_text(count: nat, first: Date, last: Date, preview: bool) -> Seq<char> {
    "Possible coverage overlap: "@ + nat_text(count) + " "@ + (if preview {
        "incoming lines"@
    } else {
        "newly created entries"@
    }) + " dated "@ + iso_text(first) + " through "@ + iso_text(last)
        + " fall within 5 days of earlier posted activity on this account. Older split or aggregated bookings may evade exact-amount matching. Review these entries before accepting the import; use a booking cutoff for future pulls. This is a heuristic, not proof of duplicates."@
}

fn is_near(dates: &Vec<Date>, d: Date) -> (r: bool)
    ensures
        r == near(dates@, d),
{
    let mut i: usize = 0;
    while i < dates.len()
        invariant
            i <= dates.len(),
            forall|k: int| 0 <= k < i ==> !(-MATCH_WINDOW_DAYS <= (#[trigger] dates@[k]).number() - d.number() <= MATCH_WINDOW_DAYS),
        decreases dates.len() - i,
    {
        let apart = dates[i].days_since(d);
        if -MATCH_WINDOW_DAYS <= apart && apart <= MATCH_WINDOW_DAYS {
            assert(-MATCH_WINDOW_DAYS <= dates@[i as int].number() - d.number() <= MATCH_WINDOW_DAYS);
            return true;
        }
        i = i + 1;
    }
    false
}

pub fn warning(dates: &Vec<Date>, lines: &[StatementLine], preview: bool) -> (r: Option<String>)
    ensures
        match overlap(dates@, lines@, preview, lines@.len()) {
            None => r is None,
            Some((count, first, last)) => r is Some && r->0@ == warning_text(count, first, last, preview),
        },
{
    let mut found: Option<(usize, Date, Date)> = None;
    let mut i: usize = 0;
    while i < lines.len()
        invariant
            i <= lines.len(),
            match found {
                None => overlap(dates@, lines@, preview, i as nat) is None,
                Some((count, first, last)) => overlap(dates@, lines@, preview, i as nat) == Some((count as nat, first, last)) && count <= i,
            },
        decreases lines.len() - i,
    {
        let l = &lines[i];
        if same(l.status.as_str(), "created") || (preview && same(l.status.as_str(), "unmatched")) {
            if let Some(d) = l.date {
                if is_near(dates, d) {
                    found = match found {
                        None => Some((1, d, d)),
                        Some((count, first, last)) => Some(
                            (
                                count + 1,
                                if d.is_before(first) {
                                    d
                                } else {
                                    first
                                },
                                if last.is_before(d) {
                                    d
                                } else {
                                    last
                                },
                            ),
                        ),
                    };
                }
            }
        }
        i = i + 1;
    }
    match found {
        None => None,
        Some((count, first, last)) => {
            let scope: &str = if preview {
                "incoming lines"
            } else {
                "newly created entries"
            };
            let a = cat5("Possible coverage overlap: ", nat_string(count as u128).as_str(), " ", scope, " dated ");
            Some(
                cat5(
                    a.as_str(),
                    iso(first).as_str(),
                    " through ",
                    iso(last).as_str(),
                    " fall within 5 days of earlier posted activity on this account. Older split or aggregated bookings may evade exact-amount matching. Review these entries before accepting the import; use a booking cutoff for future pulls. This is a heuristic, not proof of duplicates.",
                ),
            )
        },
    }
}

} // verus!
