//! The ledger of one account, and how it stands against its statement.

use vstd::prelude::*;

use crate::accounts::{get_account, place_of, AccountBrief};
use crate::date::{iso, iso_text, Date};
use crate::decimal::{law_sums_exact, lemma_same_value, normal, subtracted, tame, value, Decimal, Num};
use crate::entities::{entity_place, functional_places, functional_precision, get_entity};
use crate::error::{invalid, Refusal, Result};
use crate::imports::pipeline::{closing_date, closing_day, Import, ShownImport};
use crate::listing::{list_lines, listed_lines};
use crate::model::{sign_of, Account, AccountType, Commodity, Entity, EntryStatus, JournalEntry, Posting, StatementLine};
use crate::money::{amount_of, in_range, lemma_normal, precision_refusal, with_minor, Amount, MinorUnits, Money, MAX_PRECISION};
use crate::order::{as_ints, law_sorted, placed_at, places_up_to, rank_less, ranks, sorted, sorted_places, Key, Rank};
use crate::reports::{natural, naturally, opposite, plus};
use crate::text::{int_text, is_less, lemma_text_order, own, text_less};
use crate::totals::{account_total, is_selected, selects, total_on, with_postings, Window};

verus! {

#[derive(Debug)]
pub struct LedgerRow {
    pub posting_id: i64,
    pub journal_entry_id: i64,
    pub date: Date,
    pub payee: String,
    pub display_payee: String,
    pub description: String,
    pub status: EntryStatus,
    pub contra_path: String,
    pub debit: Money,
    pub credit: Money,
    pub running_balance: Money,
    pub amount: Money,
    pub reconciled: bool,
    pub statement_line_id: Option<i64>,
}

#[derive(Debug)]
pub struct Ledger {
    pub rows: Vec<LedgerRow>,
    pub opening_balance: Money,
    pub closing_balance: Money,
    pub commodity: String,
}

/// What a row of a ledger shows.
pub struct Movement {
    pub posting_id: i64,
    pub journal_entry_id: i64,
    pub date: Date,
    pub payee: Seq<char>,
    pub display_payee: Seq<char>,
    pub description: Seq<char>,
    pub status: EntryStatus,
    pub contra_path: Seq<char>,
    pub debit: Amount,
    pub credit: Amount,
    pub running_balance: Amount,
    pub amount: Amount,
    pub reconciled: bool,
    pub statement_line_id: Option<i64>,
}

impl View for LedgerRow {
    type V = Movement;

    open spec fn view(&self) -> Movement {
        Movement {
            posting_id: self.posting_id,
            journal_entry_id: self.journal_entry_id,
            date: self.date,
            payee: self.payee@,
            display_payee: self.display_payee@,
            description: self.description@,
            status: self.status,
            contra_path: self.contra_path@,
            debit: self.debit@,
            credit: self.credit@,
            running_balance: self.running_balance@,
            amount: self.amount@,
            reconciled: self.reconciled,
            statement_line_id: self.statement_line_id,
        }
    }
}

pub open spec fn movements(rows: Seq<LedgerRow>) -> Seq<Movement> {
    rows.map_values(|r: LedgerRow| r@)
}

/// The places of an account's postings in an entry, among the first `n`, each with the place of
/// the entry.
pub open spec fn lines_in(entry: int, v: Seq<Posting>, account_id: i64, n: nat) -> Seq<(int, int)>
    decreases n,
{
    if n == 0 {
        Seq::empty()
    } else {
        let rest = lines_in(entry, v, account_id, (n - 1) as nat);
        if v[n - 1].account_id == account_id {
            rest.push((entry, n - 1))
        } else {
            rest
        }
    }
}

/// The places of an account's postings in the selected ones of the first `n` entries.
pub open spec fn lines_of(entries: Seq<JournalEntry>, w: Window, account_id: i64, n: nat) -> Seq<(int, int)>
    decreases n,
{
    if n == 0 {
        Seq::empty()
    } else {
        let rest = lines_of(entries, w, account_id, (n - 1) as nat);
        if selects(w, entries[n - 1]) {
            rest + lines_in(n - 1, entries[n - 1].postings@, account_id, entries[n - 1].postings@.len())
        } else {
            rest
        }
    }
}

/// What lines are ordered by: the date, the entry, and the place in the entry.
pub open spec fn line_rank(entries: Seq<JournalEntry>, at: (int, int)) -> Rank {
    let e = entries[at.0];
    Rank { first: e.date.number(), second: e.id * 4294967296 + e.postings@[at.1].position, text: Seq::empty() }
}

/// The lines in the order of time.
pub open spec fn lines_in_order(entries: Seq<JournalEntry>, w: Window, account_id: i64) -> Seq<(int, int)> {
    let all = lines_of(entries, w, account_id, entries.len());
    sorted_places(all.map_values(|at: (int, int)| line_rank(entries, at))).map_values(|k: int| all[k])
}

/// How many lines a ledger shows at most.
pub open spec fn line_limit(limit: i64) -> int {
    if limit <= 0 {
        5000
    } else {
        limit as int
    }
}

/// The lines that a ledger shows, in the order of time: the first ones, or the last ones.
pub open spec fn shown_lines(lines: Seq<(int, int)>, limit: i64, newest_first: bool) -> Seq<(int, int)> {
    if lines.len() <= line_limit(limit) {
        lines
    } else if newest_first {
        lines.skip(lines.len() - line_limit(limit))
    } else {
        lines.take(line_limit(limit))
    }
}

pub open spec fn line_posting(entries: Seq<JournalEntry>, at: (int, int)) -> Posting {
    entries[at.0].postings@[at.1]
}

/// The booked quantities of the first `n` lines together.
pub open spec fn booked_sum(entries: Seq<JournalEntry>, lines: Seq<(int, int)>, n: nat) -> int
    decreases n,
{
    if n == 0 {
        0
    } else {
        booked_sum(entries, lines, (n - 1) as nat) + (if entries[lines[n - 1].0].status != EntryStatus::Draft {
            line_posting(entries, lines[n - 1]).quantity@.minor
        } else {
            0
        })
    }
}

/// The balance before the lines that are shown, in minor units.
pub open spec fn opening_of(
    entries: Seq<JournalEntry>,
    account_id: i64,
    from: Option<Date>,
    to: Option<Date>,
    lines: Seq<(int, int)>,
    newest_first: bool,
) -> std::result::Result<int, Refusal> {
    let earlier = match from {
        Some(d) => account_total(entries, earlier_than(d), account_id, false, entries.len()),
        None => Some(0),
    };
    match earlier {
        None => Err(Refusal::Invalid("account total is out of range"@)),
        Some(n) => if !newest_first {
            Ok(n)
        } else {
            match account_total(entries, period(from, to, false), account_id, false, entries.len()) {
                None => Err(Refusal::Invalid("account total is out of range"@)),
                Some(total) => match in_range(n + total - booked_sum(entries, lines, lines.len())) {
                    Some(m) => Ok(m),
                    None => Err(Refusal::Invalid("ledger balance overflow"@)),
                },
            }
        },
    }
}

pub open spec fn earlier_than(d: Date) -> Window {
    Window { entity_id: None, from: None, to: None, before: Some(d), drafts: false }
}

pub open spec fn period(from: Option<Date>, to: Option<Date>, drafts: bool) -> Window {
    Window { entity_id: None, from, to, before: None, drafts }
}

/// The place of the first posting from `from` on that has another id.
pub open spec fn other_place(v: Seq<Posting>, id: i64, from: int) -> Option<int>
    decreases v.len() - from,
{
    if from < 0 || from >= v.len() {
        None
    } else if v[from].id != id {
        Some(from)
    } else {
        other_place(v, id, from + 1)
    }
}

pub open spec fn brief_path(index: Seq<AccountBrief>, id: i64, from: int) -> Seq<char>
    decreases index.len() - from,
{
    if from < 0 || from >= index.len() {
        Seq::empty()
    } else if index[from].id == id {
        index[from].path@
    } else {
        brief_path(index, id, from + 1)
    }
}

/// Where the other side of a posting is booked.
pub open spec fn contra_of(index: Seq<AccountBrief>, v: Seq<Posting>, id: i64) -> Seq<char> {
    if v.len() > 2 {
        "(split)"@
    } else {
        match other_place(v, id, 0) {
            Some(k) => brief_path(index, v[k].account_id, 0),
            None => Seq::empty(),
        }
    }
}

/// A statement line that is evidence of a posting.
#[derive(Debug, Clone, Copy)]
pub struct Evidence {
    pub posting_id: i64,
    pub statement_line_id: i64,
}

pub open spec fn evidence_of(evidence: Seq<Evidence>, posting_id: i64, from: int) -> Option<i64>
    decreases evidence.len() - from,
{
    if from < 0 || from >= evidence.len() {
        None
    } else if evidence[from].posting_id == posting_id {
        Some(evidence[from].statement_line_id)
    } else {
        evidence_of(evidence, posting_id, from + 1)
    }
}

/// What is fixed while a ledger is written.
pub struct Page {
    pub account: Account,
    pub currency: Seq<char>,
    pub places: u32,
    pub index: Seq<AccountBrief>,
    pub evidence: Seq<Evidence>,
    pub zero: Amount,
}

/// The row of a posting and the balance after it.
pub open spec fn movement(p: Page, e: JournalEntry, x: Posting, running: Amount) -> std::result::Result<Movement, Refusal> {
    match amount_of(x.quantity@.minor, p.account.commodity@, p.account.precision as int) {
        Err(r) => Err(r),
        Ok(q) => match amount_of(x.amount@.minor, p.currency, p.places as int) {
            Err(r) => Err(r),
            Ok(value) => match (if e.status == EntryStatus::Draft {
                Ok(running)
            } else {
                match natural(q, p.account.account_type) {
                    Err(r) => Err(r),
                    Ok(m) => plus(running, m),
                }
            }) {
                Err(r) => Err(r),
                Ok(balance) => match (if q.minor < 0 {
                    opposite(q)
                } else {
                    Ok(p.zero)
                }) {
                    Err(r) => Err(r),
                    Ok(credit) => Ok(
                        Movement {
                            posting_id: x.id,
                            journal_entry_id: e.id,
                            date: e.date,
                            payee: e.payee@,
                            display_payee: e.display_payee@,
                            description: e.description@,
                            status: e.status,
                            contra_path: contra_of(p.index, e.postings@, x.id),
                            debit: if q.minor < 0 {
                                p.zero
                            } else {
                                q
                            },
                            credit,
                            running_balance: balance,
                            amount: value,
                            reconciled: x.reconciled_at is Some,
                            statement_line_id: evidence_of(p.evidence, x.id, 0),
                        },
                    ),
                },
            },
        },
    }
}

/// The balance after the rows.
pub open spec fn balance_after(rows: Seq<Movement>, opening: Amount) -> Amount {
    if rows.len() == 0 {
        opening
    } else {
        rows.last().running_balance
    }
}

/// The rows of the first `n` lines.
pub open spec fn movements_of(p: Page, entries: Seq<JournalEntry>, lines: Seq<(int, int)>, opening: Amount, n: nat) -> std::result::Result<
    Seq<Movement>,
    Refusal,
>
    decreases n,
{
    if n == 0 {
        Ok(Seq::empty())
    } else {
        match movements_of(p, entries, lines, opening, (n - 1) as nat) {
            Err(e) => Err(e),
            Ok(rows) => match movement(
                p,
                entries[lines[n - 1].0],
                line_posting(entries, lines[n - 1]),
                balance_after(rows, opening),
            ) {
                Err(e) => Err(e),
                Ok(m) => Ok(rows.push(m)),
            },
        }
    }
}

pub struct ShownLedger {
    pub rows: Seq<Movement>,
    pub opening_balance: Amount,
    pub closing_balance: Amount,
    pub commodity: Seq<char>,
}

impl View for Ledger {
    type V = ShownLedger;

    open spec fn view(&self) -> ShownLedger {
        ShownLedger {
            rows: movements(self.rows@),
            opening_balance: self.opening_balance@,
            closing_balance: self.closing_balance@,
            commodity: self.commodity@,
        }
    }
}

/// Which lines of an account a ledger shows, and how.
#[derive(Debug, Clone, Copy)]
pub struct LedgerQuery {
    pub account_id: i64,
    pub from: Option<Date>,
    pub to: Option<Date>,
    pub limit: i64,
    pub include_drafts: bool,
    pub newest_first: bool,
}

pub open spec fn query_lines(entries: Seq<JournalEntry>, q: LedgerQuery) -> Seq<(int, int)> {
    shown_lines(lines_in_order(entries, period(q.from, q.to, q.include_drafts), q.account_id), q.limit, q.newest_first)
}

pub open spec fn ledger_page(p: Page, entries: Seq<JournalEntry>, q: LedgerQuery) -> std::result::Result<ShownLedger, Refusal> {
    let lines = query_lines(entries, q);
    match opening_of(entries, q.account_id, q.from, q.to, lines, q.newest_first) {
        Err(e) => Err(e),
        Ok(n) => match natural(with_minor(p.zero, n), p.account.account_type) {
            Err(e) => Err(e),
            Ok(opening) => match movements_of(p, entries, lines, opening, lines.len()) {
                Err(e) => Err(e),
                Ok(rows) => Ok(
                    ShownLedger {
                        rows: if q.newest_first {
                            rows.reverse()
                        } else {
                            rows
                        },
                        opening_balance: opening,
                        closing_balance: balance_after(rows, opening),
                        commodity: p.account.commodity@,
                    },
                ),
            },
        },
    }
}

pub open spec fn as_pairs(v: Seq<(usize, usize)>) -> Seq<(int, int)> {
    v.map_values(|p: (usize, usize)| (p.0 as int, p.1 as int))
}

/// Whether every line is a posting of an entry.
pub open spec fn are_lines(entries: Seq<JournalEntry>, v: Seq<(usize, usize)>) -> bool {
    forall|k: int| 0 <= k < v.len() ==> (#[trigger] v[k]).0 < entries.len() && v[k].1 < entries[v[k].0 as int].postings@.len()
}

fn push_lines(entries: &[JournalEntry], i: usize, account_id: i64, into: &mut Vec<(usize, usize)>)
    requires
        i < entries@.len(),
        are_lines(entries@, old(into)@),
    ensures
        are_lines(entries@, final(into)@),
        as_pairs(final(into)@) == as_pairs(old(into)@) + lines_in(
            i as int,
            entries@[i as int].postings@,
            account_id,
            entries@[i as int].postings@.len(),
        ),
{
    let ghost first = as_pairs(into@);
    let ghost v = entries@[i as int].postings@;
    let mut k: usize = 0;
    assert(as_pairs(into@) =~= first + lines_in(i as int, v, account_id, 0));
    while k < entries[i].postings.len()
        invariant
            i < entries@.len(),
            v == entries@[i as int].postings@,
            k <= v.len(),
            are_lines(entries@, into@),
            as_pairs(into@) == first + lines_in(i as int, v, account_id, k as nat),
        decreases v.len() - k,
    {
        if entries[i].postings[k].account_id == account_id {
            let ghost before = as_pairs(into@);
            into.push((i, k));
            assert(as_pairs(into@) =~= before.push((i as int, k as int)));
            assert(before.push((i as int, k as int)) =~= first + lines_in(i as int, v, account_id, (k + 1) as nat));
        }
        k = k + 1;
    }
}

fn find_lines(entries: &[JournalEntry], w: &Window, account_id: i64) -> (r: Vec<(usize, usize)>)
    ensures
        are_lines(entries@, r@),
        as_pairs(r@) == lines_of(entries@, *w, account_id, entries@.len()),
{
    let mut r: Vec<(usize, usize)> = Vec::new();
    let mut i: usize = 0;
    assert(as_pairs(r@) =~= Seq::<(int, int)>::empty());
    while i < entries.len()
        invariant
            i <= entries.len(),
            are_lines(entries@, r@),
            as_pairs(r@) == lines_of(entries@, *w, account_id, i as nat),
        decreases entries.len() - i,
    {
        if is_selected(w, &entries[i]) {
            push_lines(entries, i, account_id, &mut r);
        }
        i = i + 1;
    }
    r
}

fn order_lines(entries: &[JournalEntry], lines: &Vec<(usize, usize)>) -> (r: Vec<(usize, usize)>)
    requires
        are_lines(entries@, lines@),
    ensures
        are_lines(entries@, r@),
        as_pairs(r@) == sorted_places(as_pairs(lines@).map_values(|at: (int, int)| line_rank(entries@, at))).map_values(
            |k: int| as_pairs(lines@)[k],
        ),
{
    let ghost all = as_pairs(lines@);
    let ghost rs = all.map_values(|at: (int, int)| line_rank(entries@, at));
    let mut keys: Vec<Key> = Vec::new();
    let mut i: usize = 0;
    while i < lines.len()
        invariant
            i <= lines.len(),
            all == as_pairs(lines@),
            rs == all.map_values(|at: (int, int)| line_rank(entries@, at)),
            are_lines(entries@, lines@),
            keys@.len() == i,
            forall|k: int| 0 <= k < i ==> (#[trigger] keys@[k])@ == rs[k],
        decreases lines.len() - i,
    {
        let (a, b): (usize, usize) = lines[i];
        let e = &entries[a];
        let key = Key {
            first: e.date.day_number() as i128,
            second: e.id as i128 * 4294967296 + e.postings[b].position as i128,
            text: String::new(),
        };
        assert(key@ == line_rank(entries@, all[i as int]));
        keys.push(key);
        i = i + 1;
    }
    assert(ranks(keys@) =~= rs);
    let order = sorted(&keys);
    let mut r: Vec<(usize, usize)> = Vec::new();
    let mut k: usize = 0;
    while k < order.len()
        invariant
            k <= order.len(),
            all == as_pairs(lines@),
            are_lines(entries@, lines@),
            r@.len() == k,
            forall|j: int| 0 <= j < order@.len() ==> (#[trigger] order@[j]) < lines@.len(),
            forall|j: int| 0 <= j < k ==> #[trigger] r@[j] == lines@[order@[j] as int],
        decreases order.len() - k,
    {
        r.push(lines[order[k]]);
        k = k + 1;
    }
    proof {
        let want = sorted_places(rs).map_values(|k: int| all[k]);
        assert(as_pairs(r@) =~= want) by {
            assert forall|j: int| 0 <= j < r@.len() implies as_pairs(r@)[j] == want[j] by {
                assert(as_ints(order@)[j] == order@[j] as int);
                assert(r@[j] == lines@[order@[j] as int]);
            }
        }
        assert forall|j: int| 0 <= j < r@.len() implies (#[trigger] r@[j]).0 < entries@.len() && r@[j].1
            < entries@[r@[j].0 as int].postings@.len() by {
            assert(r@[j] == lines@[order@[j] as int]);
            assert(lines@[order@[j] as int].0 < entries@.len());
        }
    }
    r
}

fn pick_lines(entries: &[JournalEntry], q: &LedgerQuery) -> (r: Vec<(usize, usize)>)
    ensures
        are_lines(entries@, r@),
        as_pairs(r@) == query_lines(entries@, *q),
{
    let w = Window { entity_id: None, from: q.from, to: q.to, before: None, drafts: q.include_drafts };
    let found = find_lines(entries, &w, q.account_id);
    let lines = order_lines(entries, &found);
    let ghost all = as_pairs(lines@);
    assert(all =~= lines_in_order(entries@, w, q.account_id));
    let limit: i64 = if q.limit <= 0 {
        5000
    } else {
        q.limit
    };
    if lines.len() as u128 <= limit as u128 {
        return lines;
    }
    let size: usize = limit as usize;
    let start: usize = if q.newest_first {
        lines.len() - size
    } else {
        0
    };
    let mut r: Vec<(usize, usize)> = Vec::new();
    let mut i: usize = 0;
    while i < size
        invariant
            i <= size,
            start + size <= lines.len(),
            r@.len() == i,
            forall|j: int| 0 <= j < i ==> #[trigger] r@[j] == lines@[start + j],
        decreases size - i,
    {
        r.push(lines[start + i]);
        i = i + 1;
    }
    proof {
        assert(as_pairs(r@) =~= query_lines(entries@, *q));
        assert forall|j: int| 0 <= j < r@.len() implies (#[trigger] r@[j]).0 < entries@.len() && r@[j].1
            < entries@[r@[j].0 as int].postings@.len() by {
            assert(r@[j] == lines@[start + j]);
        }
    }
    r
}

fn sum_booked(entries: &[JournalEntry], lines: &Vec<(usize, usize)>) -> (r: i128)
    requires
        are_lines(entries@, lines@),
    ensures
        r == booked_sum(entries@, as_pairs(lines@), lines@.len()),
        -9223372036854775808 * lines@.len() <= r <= 9223372036854775807 * lines@.len(),
{
    let ghost all = as_pairs(lines@);
    let mut total: i128 = 0;
    let mut i: usize = 0;
    while i < lines.len()
        invariant
            i <= lines.len(),
            all == as_pairs(lines@),
            are_lines(entries@, lines@),
            total == booked_sum(entries@, all, i as nat),
            -9223372036854775808 * i <= total <= 9223372036854775807 * i,
        decreases lines.len() - i,
    {
        let (a, b): (usize, usize) = lines[i];
        assert(all[i as int] == (a as int, b as int));
        if entries[a].status != EntryStatus::Draft {
            total = total + entries[a].postings[b].quantity.minor() as i128;
        }
        i = i + 1;
    }
    total
}

fn find_opening(entries: &[JournalEntry], q: &LedgerQuery, lines: &Vec<(usize, usize)>) -> (r: Result<i64>)
    requires
        are_lines(entries@, lines@),
    ensures
        match r {
            Ok(n) => opening_of(entries@, q.account_id, q.from, q.to, as_pairs(lines@), q.newest_first) == Ok::<int, Refusal>(n as int),
            Err(e) => opening_of(entries@, q.account_id, q.from, q.to, as_pairs(lines@), q.newest_first) == Err::<int, Refusal>(e@),
        },
{
    let earlier: i64 = match q.from {
        Some(d) => {
            let w = Window { entity_id: None, from: None, to: None, before: Some(d), drafts: false };
            match total_on(entries, &w, q.account_id, false) {
                Some(n) => n,
                None => {
                    return Err(invalid("account total is out of range"));
                },
            }
        },
        None => 0,
    };
    if !q.newest_first {
        return Ok(earlier);
    }
    let w = Window { entity_id: None, from: q.from, to: q.to, before: None, drafts: false };
    let total: i64 = match total_on(entries, &w, q.account_id, false) {
        Some(n) => n,
        None => {
            return Err(invalid("account total is out of range"));
        },
    };
    let selected = sum_booked(entries, lines);
    let closing: i128 = earlier as i128 + total as i128;
    match closing.checked_sub(selected) {
        Some(n) => if n < -9223372036854775808 || n > 9223372036854775807 {
            Err(invalid("ledger balance overflow"))
        } else {
            Ok(n as i64)
        },
        None => Err(invalid("ledger balance overflow")),
    }
}

fn find_path(index: &[AccountBrief], id: i64) -> (r: String)
    ensures
        r@ == brief_path(index@, id, 0),
{
    let mut i: usize = 0;
    while i < index.len()
        invariant
            i <= index.len(),
            brief_path(index@, id, 0) == brief_path(index@, id, i as int),
        decreases index.len() - i,
    {
        if index[i].id == id {
            return own(index[i].path.as_str());
        }
        i = i + 1;
    }
    String::new()
}

fn contra_path(index: &[AccountBrief], v: &Vec<Posting>, id: i64) -> (r: String)
    ensures
        r@ == contra_of(index@, v@, id),
{
    if v.len() > 2 {
        return own("(split)");
    }
    let mut i: usize = 0;
    while i < v.len()
        invariant
            i <= v.len() <= 2,
            other_place(v@, id, 0) == other_place(v@, id, i as int),
        decreases v.len() - i,
    {
        if v[i].id != id {
            return find_path(index, v[i].account_id);
        }
        i = i + 1;
    }
    String::new()
}

fn find_evidence(evidence: &[Evidence], posting_id: i64) -> (r: Option<i64>)
    ensures
        r == evidence_of(evidence@, posting_id, 0),
{
    let mut i: usize = 0;
    while i < evidence.len()
        invariant
            i <= evidence.len(),
            evidence_of(evidence@, posting_id, 0) == evidence_of(evidence@, posting_id, i as int),
        decreases evidence.len() - i,
    {
        if evidence[i].posting_id == posting_id {
            return Some(evidence[i].statement_line_id);
        }
        i = i + 1;
    }
    None
}

struct Sheet<'a> {
    account: &'a Account,
    currency: &'a str,
    places: u32,
    index: &'a [AccountBrief],
    evidence: &'a [Evidence],
    zero: Money,
}

impl<'a> Sheet<'a> {
    spec fn page(self) -> Page {
        Page {
            account: *self.account,
            currency: self.currency@,
            places: self.places,
            index: self.index@,
            evidence: self.evidence@,
            zero: self.zero@,
        }
    }
}

fn write_row(s: &Sheet<'_>, e: &JournalEntry, x: &Posting, running: Money) -> (r: Result<LedgerRow>)
    ensures
        match r {
            Ok(m) => movement(s.page(), *e, *x, running@) == Ok::<Movement, Refusal>(m@),
            Err(f) => movement(s.page(), *e, *x, running@) == Err::<Movement, Refusal>(f@),
        },
{
    let q = match Money::from_minor(x.quantity.minor(), s.account.commodity.as_str(), s.account.precision) {
        Ok(m) => m,
        Err(f) => {
            return Err(f);
        },
    };
    let amount = match Money::from_minor(x.amount.minor(), s.currency, s.places) {
        Ok(m) => m,
        Err(f) => {
            return Err(f);
        },
    };
    let mut balance = running;
    if e.status != EntryStatus::Draft {
        let m = match naturally(q, s.account.account_type) {
            Ok(m) => m,
            Err(f) => {
                return Err(f);
            },
        };
        balance = match running.checked_add(m) {
            Ok(b) => b,
            Err(f) => {
                return Err(f);
            },
        };
    }
    let (debit, credit) = if q.is_negative() {
        match q.checked_neg() {
            Ok(m) => (s.zero, m),
            Err(f) => {
                return Err(f);
            },
        }
    } else {
        (q, s.zero)
    };
    Ok(
        LedgerRow {
            posting_id: x.id,
            journal_entry_id: e.id,
            date: e.date,
            payee: own(e.payee.as_str()),
            display_payee: own(e.display_payee.as_str()),
            description: own(e.description.as_str()),
            status: e.status,
            contra_path: contra_path(s.index, &e.postings, x.id),
            debit,
            credit,
            running_balance: balance,
            amount,
            reconciled: x.reconciled_at.is_some(),
            statement_line_id: find_evidence(s.evidence, x.id),
        },
    )
}

proof fn lemma_movements_failed(p: Page, entries: Seq<JournalEntry>, lines: Seq<(int, int)>, opening: Amount, n: nat, m: nat)
    requires
        n <= m,
        movements_of(p, entries, lines, opening, n) is Err,
    ensures
        movements_of(p, entries, lines, opening, m) == movements_of(p, entries, lines, opening, n),
    decreases m - n,
{
    if n < m {
        lemma_movements_failed(p, entries, lines, opening, n, (m - 1) as nat);
    }
}

fn write_rows(s: &Sheet<'_>, entries: &[JournalEntry], lines: &Vec<(usize, usize)>, opening: Money) -> (r: Result<(Vec<LedgerRow>, Money)>)
    requires
        are_lines(entries@, lines@),
    ensures
        match r {
            Ok(x) => {
                &&& movements_of(s.page(), entries@, as_pairs(lines@), opening@, lines@.len()) == Ok::<Seq<Movement>, Refusal>(
                    movements(x.0@),
                )
                &&& x.1@ == balance_after(movements(x.0@), opening@)
            },
            Err(f) => movements_of(s.page(), entries@, as_pairs(lines@), opening@, lines@.len()) == Err::<Seq<Movement>, Refusal>(f@),
        },
{
    let ghost all = as_pairs(lines@);
    let mut rows: Vec<LedgerRow> = Vec::new();
    let mut running = opening;
    let mut i: usize = 0;
    assert(movements(rows@) =~= Seq::<Movement>::empty());
    while i < lines.len()
        invariant
            i <= lines.len(),
            all == as_pairs(lines@),
            are_lines(entries@, lines@),
            movements_of(s.page(), entries@, all, opening@, i as nat) == Ok::<Seq<Movement>, Refusal>(movements(rows@)),
            running@ == balance_after(movements(rows@), opening@),
        decreases lines.len() - i,
    {
        let (a, b): (usize, usize) = lines[i];
        assert(all[i as int] == (a as int, b as int));
        match write_row(s, &entries[a], &entries[a].postings[b], running) {
            Ok(row) => {
                let ghost before = movements(rows@);
                running = row.running_balance;
                rows.push(row);
                assert(movements(rows@) =~= before.push(row@));
            },
            Err(f) => {
                proof {
                    lemma_movements_failed(s.page(), entries@, all, opening@, (i + 1) as nat, all.len());
                }
                return Err(f);
            },
        }
        i = i + 1;
    }
    Ok((rows, running))
}

fn copy_ledger_row(r: &LedgerRow) -> (x: LedgerRow)
    ensures
        x@ == r@,
{
    LedgerRow {
        posting_id: r.posting_id,
        journal_entry_id: r.journal_entry_id,
        date: r.date,
        payee: own(r.payee.as_str()),
        display_payee: own(r.display_payee.as_str()),
        description: own(r.description.as_str()),
        status: r.status,
        contra_path: own(r.contra_path.as_str()),
        debit: r.debit,
        credit: r.credit,
        running_balance: r.running_balance,
        amount: r.amount,
        reconciled: r.reconciled,
        statement_line_id: r.statement_line_id,
    }
}

fn backwards(rows: Vec<LedgerRow>) -> (r: Vec<LedgerRow>)
    ensures
        movements(r@) == movements(rows@).reverse(),
{
    let mut r: Vec<LedgerRow> = Vec::new();
    let mut i: usize = rows.len();
    while i > 0
        invariant
            i <= rows.len(),
            r@.len() == rows@.len() - i,
            forall|j: int| 0 <= j < r@.len() ==> (#[trigger] r@[j])@ == rows@[rows@.len() - 1 - j]@,
        decreases i,
    {
        i = i - 1;
        r.push(copy_ledger_row(&rows[i]));
    }
    assert(movements(r@) =~= movements(rows@).reverse());
    r
}

/// The ledger of an account, or why there is none.
pub open spec fn ledger_of(
    accounts: Seq<Account>,
    entities: Seq<Entity>,
    commodities: Seq<Commodity>,
    index: Seq<AccountBrief>,
    evidence: Seq<Evidence>,
    entries: Seq<JournalEntry>,
    q: LedgerQuery,
) -> std::result::Result<ShownLedger, Refusal> {
    match place_of(accounts, q.account_id) {
        None => Err(Refusal::NotFound("account "@ + int_text(q.account_id as int))),
        Some(i) => {
            let account = accounts[i];
            match entity_place(entities, account.entity_id, 0) {
                None => Err(Refusal::NotFound("entity "@ + int_text(account.entity_id as int))),
                Some(j) => match functional_places(commodities, entities[j]) {
                    Err(e) => Err(e),
                    Ok(places) => match amount_of(0, account.commodity@, account.precision as int) {
                        Err(e) => Err(e),
                        Ok(zero) => ledger_page(
                            Page { account, currency: entities[j].currency@, places, index, evidence, zero },
                            entries,
                            q,
                        ),
                    },
                },
            }
        },
    }
}

/// Every posting on one account in a period, with a running balance in the account's commodity.
/// Recent windows retain chronological running balances, even when returned newest first.
pub fn general_ledger_ordered(
    accounts: &[Account],
    entities: &[Entity],
    commodities: &[Commodity],
    index: &[AccountBrief],
    evidence: &[Evidence],
    entries: &[JournalEntry],
    q: &LedgerQuery,
) -> (r: Result<Ledger>)
    ensures
        match r {
            Ok(x) => ledger_of(accounts@, entities@, commodities@, index@, evidence@, entries@, *q) == Ok::<ShownLedger, Refusal>(x@),
            Err(e) => ledger_of(accounts@, entities@, commodities@, index@, evidence@, entries@, *q) == Err::<ShownLedger, Refusal>(e@),
        },
{
    let account = match get_account(accounts, q.account_id) {
        Ok(a) => a,
        Err(e) => {
            return Err(e);
        },
    };
    let entity = match get_entity(entities, account.entity_id) {
        Ok(e) => e,
        Err(e) => {
            return Err(e);
        },
    };
    let places = match functional_precision(commodities, entity) {
        Ok(p) => p,
        Err(e) => {
            return Err(e);
        },
    };
    let zero = match Money::from_minor(0, account.commodity.as_str(), account.precision) {
        Ok(m) => m,
        Err(e) => {
            return Err(e);
        },
    };
    let lines = pick_lines(entries, q);
    let opening = match find_opening(entries, q, &lines) {
        Ok(n) => n,
        Err(e) => {
            return Err(e);
        },
    };
    let opening_balance = match naturally(zero.with_count(opening), account.account_type) {
        Ok(m) => m,
        Err(e) => {
            return Err(e);
        },
    };
    let s = Sheet { account, currency: entity.currency.as_str(), places, index, evidence, zero };
    let (rows, closing_balance) = match write_rows(&s, entries, &lines, opening_balance) {
        Ok(x) => x,
        Err(e) => {
            return Err(e);
        },
    };
    let rows = if q.newest_first {
        backwards(rows)
    } else {
        rows
    };
    Ok(Ledger { rows, opening_balance, closing_balance, commodity: own(account.commodity.as_str()) })
}

/// A count with the sign that is normal for the account type.
pub open spec fn with_sign(t: AccountType, n: int) -> int {
    if sign_of(t) == 1 {
        n
    } else {
        -n
    }
}

/// The booked lines' normal quantities add up from the opening to the closing balance.
proof fn lemma_running(p: Page, entries: Seq<JournalEntry>, lines: Seq<(int, int)>, opening: Amount, n: nat)
    requires
        n <= lines.len(),
        movements_of(p, entries, lines, opening, n) is Ok,
    ensures
        balance_after(movements_of(p, entries, lines, opening, n)->Ok_0, opening).minor == opening.minor + with_sign(
            p.account.account_type,
            booked_sum(entries, lines, n),
        ),
    decreases n,
{
    if n > 0 {
        let m = (n - 1) as nat;
        lemma_running(p, entries, lines, opening, m);
        let rows = movements_of(p, entries, lines, opening, m)->Ok_0;
        let more = movements_of(p, entries, lines, opening, n)->Ok_0;
        assert(more.last().running_balance == balance_after(more, opening));
    }
}

/// However few lines a newest-first ledger shows, it ends at the balance of the whole period: what
/// was booked before it and in it, with the sign that is normal for the account.
pub proof fn law_newest_first_closes(p: Page, entries: Seq<JournalEntry>, q: LedgerQuery, earlier: int, total: int)
    requires
        q.newest_first,
        ledger_page(p, entries, q) is Ok,
        p.zero.minor == 0,
        earlier == (match q.from {
            Some(d) => account_total(entries, earlier_than(d), q.account_id, false, entries.len())->0,
            None => 0int,
        }),
        total == account_total(entries, period(q.from, q.to, false), q.account_id, false, entries.len())->0,
    ensures
        (ledger_page(p, entries, q)->Ok_0).closing_balance.minor == with_sign(p.account.account_type, earlier + total),
{
    let lines = query_lines(entries, q);
    let n = opening_of(entries, q.account_id, q.from, q.to, lines, q.newest_first)->Ok_0;
    let opening = natural(with_minor(p.zero, n), p.account.account_type)->Ok_0;
    lemma_running(p, entries, lines, opening, lines.len());
    let sum = booked_sum(entries, lines, lines.len());
    assert(n == earlier + total - sum);
}

/// The rows of a ledger in the order of time.
pub open spec fn in_time(l: ShownLedger, newest_first: bool) -> Seq<Movement> {
    if newest_first {
        l.rows.reverse()
    } else {
        l.rows
    }
}

/// What a row adds to the running balance: its debit less its credit, with the sign that is normal
/// for the account, and nothing while it is a draft.
pub open spec fn growth(t: AccountType, m: Movement) -> int {
    if m.status == EntryStatus::Draft {
        0
    } else {
        with_sign(t, m.debit.minor - m.credit.minor)
    }
}

proof fn lemma_rows_grow(p: Page, entries: Seq<JournalEntry>, lines: Seq<(int, int)>, opening: Amount, n: nat, k: int)
    requires
        n <= lines.len(),
        movements_of(p, entries, lines, opening, n) is Ok,
        p.zero.minor == 0,
        0 <= k < n,
    ensures
        ({
            let rows = movements_of(p, entries, lines, opening, n)->Ok_0;
            &&& rows.len() == n
            &&& rows[k].running_balance.minor == balance_after(rows.take(k), opening).minor + growth(p.account.account_type, rows[k])
        }),
    decreases n,
{
    let m = (n - 1) as nat;
    let before = movements_of(p, entries, lines, opening, m)->Ok_0;
    let rows = movements_of(p, entries, lines, opening, n)->Ok_0;
    lemma_row_count(p, entries, lines, opening, m);
    assert(rows =~= before.push(rows.last()));
    if k < n - 1 {
        lemma_rows_grow(p, entries, lines, opening, m, k);
        assert(rows.take(k) =~= before.take(k));
    } else {
        assert(rows.take(k) =~= before);
    }
}

proof fn lemma_row_count(p: Page, entries: Seq<JournalEntry>, lines: Seq<(int, int)>, opening: Amount, n: nat)
    requires
        movements_of(p, entries, lines, opening, n) is Ok,
    ensures
        (movements_of(p, entries, lines, opening, n)->Ok_0).len() == n,
    decreases n,
{
    if n > 0 {
        lemma_row_count(p, entries, lines, opening, (n - 1) as nat);
    }
}

/// In the order of time the running balance starts at the opening balance, grows row by row by what
/// the row moves, a draft by nothing, and ends at the closing balance, whichever end is shown first.
pub proof fn law_running_balance(p: Page, entries: Seq<JournalEntry>, q: LedgerQuery, k: int)
    requires
        ledger_page(p, entries, q) is Ok,
        p.zero.minor == 0,
        0 <= k < (ledger_page(p, entries, q)->Ok_0).rows.len(),
    ensures
        ({
            let l = ledger_page(p, entries, q)->Ok_0;
            let rows = in_time(l, q.newest_first);
            let before = if k == 0 {
                l.opening_balance
            } else {
                rows[k - 1].running_balance
            };
            &&& rows[k].running_balance.minor == before.minor + growth(p.account.account_type, rows[k])
            &&& rows.last().running_balance == l.closing_balance
        }),
{
    let lines = query_lines(entries, q);
    let n = opening_of(entries, q.account_id, q.from, q.to, lines, q.newest_first)->Ok_0;
    let opening = natural(with_minor(p.zero, n), p.account.account_type)->Ok_0;
    let rows = movements_of(p, entries, lines, opening, lines.len())->Ok_0;
    lemma_row_count(p, entries, lines, opening, lines.len());
    let l = ledger_page(p, entries, q)->Ok_0;
    assert(in_time(l, q.newest_first) =~= rows);
    lemma_rows_grow(p, entries, lines, opening, lines.len(), k);
    if k > 0 {
        assert(rows.take(k).last() == rows[k - 1]);
    }
}

/// What a line adds to the booked quantities.
pub open spec fn line_weight(entries: Seq<JournalEntry>, at: (int, int)) -> int {
    if entries[at.0].status != EntryStatus::Draft {
        line_posting(entries, at).quantity@.minor
    } else {
        0
    }
}

proof fn lemma_booked_join(entries: Seq<JournalEntry>, a: Seq<(int, int)>, b: Seq<(int, int)>, n: nat)
    requires
        n <= b.len(),
    ensures
        booked_sum(entries, a + b, a.len() + n) == booked_sum(entries, a, a.len()) + booked_sum(entries, b, n),
    decreases n,
{
    if n > 0 {
        lemma_booked_join(entries, a, b, (n - 1) as nat);
        assert((a + b)[a.len() + n - 1] == b[n - 1]);
    } else {
        lemma_booked_prefix(entries, a, b, a.len());
    }
}

proof fn lemma_booked_prefix(entries: Seq<JournalEntry>, a: Seq<(int, int)>, b: Seq<(int, int)>, n: nat)
    requires
        n <= a.len(),
    ensures
        booked_sum(entries, a + b, n) == booked_sum(entries, a, n),
    decreases n,
{
    if n > 0 {
        lemma_booked_prefix(entries, a, b, (n - 1) as nat);
        assert((a + b)[n - 1] == a[n - 1]);
    }
}

proof fn lemma_total_failed(v: Seq<Posting>, account_id: i64, n: nat)
    ensures
        with_postings(None, v, account_id, false, n) is None,
    decreases n,
{
    if n > 0 {
        lemma_total_failed(v, account_id, (n - 1) as nat);
    }
}

proof fn lemma_entry_sum(entries: Seq<JournalEntry>, e: int, account_id: i64, n: nat, start: int)
    requires
        n <= entries[e].postings@.len(),
    ensures
        ({
            let v = lines_in(e, entries[e].postings@, account_id, n);
            let sum = booked_sum(entries, v, v.len());
            if entries[e].status == EntryStatus::Draft {
                sum == 0
            } else {
                with_postings(Some(start), entries[e].postings@, account_id, false, n) matches Some(t) ==> t == start + sum
            }
        }),
    decreases n,
{
    if n > 0 {
        let m = (n - 1) as nat;
        lemma_entry_sum(entries, e, account_id, m, start);
        let rest = lines_in(e, entries[e].postings@, account_id, m);
        let v = lines_in(e, entries[e].postings@, account_id, n);
        if entries[e].postings@[n - 1].account_id == account_id {
            assert(v =~= rest + seq![(e, n - 1)]);
            lemma_booked_join(entries, rest, seq![(e, n - 1)], 1);
            assert(booked_sum(entries, seq![(e, n - 1)], 0) == 0);
            assert(booked_sum(entries, seq![(e, n - 1)], 1) == line_weight(entries, (e, n - 1)));
        }
    }
}

/// The booked quantities of all lines of a period are the account's total over it.
proof fn lemma_period_sum(entries: Seq<JournalEntry>, from: Option<Date>, to: Option<Date>, drafts: bool, account_id: i64, n: nat)
    requires
        n <= entries.len(),
        account_total(entries, period(from, to, false), account_id, false, n) is Some,
    ensures
        ({
            let v = lines_of(entries, period(from, to, drafts), account_id, n);
            booked_sum(entries, v, v.len()) == account_total(entries, period(from, to, false), account_id, false, n)->0
        }),
    decreases n,
{
    if n > 0 {
        let m = (n - 1) as nat;
        let (all, booked) = (period(from, to, drafts), period(from, to, false));
        let e = entries[n - 1];
        let t = account_total(entries, booked, account_id, false, m);
        if t is None {
            lemma_total_failed(e.postings@, account_id, e.postings@.len());
        }
        lemma_period_sum(entries, from, to, drafts, account_id, m);
        let rest = lines_of(entries, all, account_id, m);
        let own = lines_in(n - 1, e.postings@, account_id, e.postings@.len());
        lemma_entry_sum(entries, n - 1, account_id, e.postings@.len(), t->0);
        lemma_booked_join(entries, rest, own, own.len());
        if selects(booked, e) {
            assert(selects(all, e));
        }
    }
}

/// The weights of some lines together.
spec fn weights(entries: Seq<JournalEntry>, all: Seq<(int, int)>, s: Seq<int>) -> int
    decreases s.len(),
{
    if s.len() == 0 {
        0
    } else {
        weights(entries, all, s.drop_last()) + line_weight(entries, all[s.last()])
    }
}

proof fn lemma_placed_weights(entries: Seq<JournalEntry>, all: Seq<(int, int)>, rs: Seq<Rank>, s: Seq<int>, i: int)
    ensures
        weights(entries, all, placed_at(rs, s, i)) == weights(entries, all, s) + line_weight(entries, all[i]),
    decreases s.len(),
{
    let r = placed_at(rs, s, i);
    if s.len() == 0 || !rank_less(rs[i], rs[s.last()]) {
        assert(r.drop_last() =~= s);
    } else {
        lemma_placed_weights(entries, all, rs, s.drop_last(), i);
        assert(r.drop_last() =~= placed_at(rs, s.drop_last(), i));
        assert(r.last() == s.last());
    }
}

proof fn lemma_sorted_weights(entries: Seq<JournalEntry>, all: Seq<(int, int)>, rs: Seq<Rank>, n: nat)
    requires
        n <= all.len(),
    ensures
        weights(entries, all, places_up_to(rs, n)) == booked_sum(entries, all, n),
    decreases n,
{
    if n > 0 {
        lemma_sorted_weights(entries, all, rs, (n - 1) as nat);
        lemma_placed_weights(entries, all, rs, places_up_to(rs, (n - 1) as nat), n - 1);
    }
}

proof fn lemma_arranged_weights(entries: Seq<JournalEntry>, all: Seq<(int, int)>, s: Seq<int>, n: nat)
    requires
        n <= s.len(),
    ensures
        booked_sum(entries, s.map_values(|k: int| all[k]), n) == weights(entries, all, s.take(n as int)),
    decreases n,
{
    if n > 0 {
        lemma_arranged_weights(entries, all, s, (n - 1) as nat);
        assert(s.take(n as int).drop_last() =~= s.take(n - 1));
    }
}

/// A ledger that shows its whole period has the same rows either way: the newest first is the reverse
/// of the oldest first, each row with the same running balance, between the same opening and closing
/// balances.
pub proof fn law_newest_first_reverses(p: Page, entries: Seq<JournalEntry>, q: LedgerQuery)
    requires
        lines_of(entries, period(q.from, q.to, q.include_drafts), q.account_id, entries.len()).len() <= line_limit(q.limit),
        ledger_page(p, entries, LedgerQuery { newest_first: true, ..q }) is Ok,
    ensures
        ({
            let newest = ledger_page(p, entries, LedgerQuery { newest_first: true, ..q })->Ok_0;
            &&& ledger_page(p, entries, LedgerQuery { newest_first: false, ..q }) matches Ok(oldest)
            &&& newest.rows == oldest.rows.reverse()
            &&& newest.opening_balance == oldest.opening_balance
            &&& newest.closing_balance == oldest.closing_balance
        }),
{
    let w = period(q.from, q.to, q.include_drafts);
    let all = lines_of(entries, w, q.account_id, entries.len());
    let rs = all.map_values(|at: (int, int)| line_rank(entries, at));
    let lines = lines_in_order(entries, w, q.account_id);
    law_sorted(rs);
    lemma_period_sum(entries, q.from, q.to, q.include_drafts, q.account_id, entries.len());
    lemma_sorted_weights(entries, all, rs, all.len());
    lemma_arranged_weights(entries, all, sorted_places(rs), all.len());
    assert(sorted_places(rs).take(all.len() as int) =~= sorted_places(rs));
    assert(lines =~= sorted_places(rs).map_values(|k: int| all[k]));
}

/// Every posting on one account in a period, the oldest first.
pub fn general_ledger(
    accounts: &[Account],
    entities: &[Entity],
    commodities: &[Commodity],
    index: &[AccountBrief],
    evidence: &[Evidence],
    entries: &[JournalEntry],
    account_id: i64,
    from: Option<Date>,
    to: Option<Date>,
    limit: i64,
    include_drafts: bool,
) -> (r: Result<Ledger>)
    ensures
        ({
            let q = LedgerQuery { account_id, from, to, limit, include_drafts, newest_first: false };
            match r {
                Ok(x) => ledger_of(accounts@, entities@, commodities@, index@, evidence@, entries@, q) == Ok::<ShownLedger, Refusal>(x@),
                Err(e) => ledger_of(accounts@, entities@, commodities@, index@, evidence@, entries@, q) == Err::<ShownLedger, Refusal>(e@),
            }
        }),
{
    let q = LedgerQuery { account_id, from, to, limit, include_drafts, newest_first: false };
    general_ledger_ordered(accounts, entities, commodities, index, evidence, entries, &q)
}

#[derive(Debug)]
pub struct Reconciliation {
    pub statement_balance: Option<Decimal>,
    pub statement_date: Option<Date>,
    pub ledger_balance: Decimal,
    pub difference: Option<Decimal>,
    /// The places of the account's unmatched lines, the newest first.
    pub unmatched_lines: Vec<usize>,
    pub unreconciled: Vec<LedgerRow>,
}

/// When the period of a statement ends, or else when it was imported.
pub open spec fn ended(x: ShownImport) -> Seq<char> {
    match x.period_to {
        Some(d) => iso_text(d),
        None => x.created_at,
    }
}

/// Whether an import is a later statement than another: by its end, and by its number.
pub open spec fn later_statement(a: ShownImport, b: ShownImport) -> bool {
    text_less(ended(b), ended(a)) || (!text_less(ended(a), ended(b)) && a.id > b.id)
}

/// The place of the latest of the first `n` imports that closes with a balance of an account.
pub open spec fn latest_of(imports: Seq<Import>, account_id: i64, n: nat) -> Option<int>
    decreases n,
{
    if n == 0 {
        None
    } else {
        let best = latest_of(imports, account_id, (n - 1) as nat);
        let x = imports[n - 1]@;
        if x.account_id == Some(account_id) && x.closing_balance is Some && (best is Some ==> later_statement(x, imports[best->0]@)) {
            Some(n - 1)
        } else {
            best
        }
    }
}

fn end_of(x: &Import) -> (r: String)
    ensures
        r@ == ended(x@),
{
    match x.period_to {
        Some(d) => iso(d),
        None => own(x.created_at.as_str()),
    }
}

/// The latest import that closes with a balance of an account.
pub fn latest_statement(imports: &[Import], account_id: i64) -> (r: Option<usize>)
    ensures
        match r {
            Some(i) => i < imports@.len() && latest_of(imports@, account_id, imports@.len()) == Some(i as int) && imports@[i as int].closing_balance is Some,
            None => latest_of(imports@, account_id, imports@.len()) is None,
        },
{
    let mut best: Option<usize> = None;
    let mut i: usize = 0;
    while i < imports.len()
        invariant
            i <= imports.len(),
            match best {
                Some(k) => k < i && latest_of(imports@, account_id, i as nat) == Some(k as int) && imports@[k as int].closing_balance is Some,
                None => latest_of(imports@, account_id, i as nat) is None,
            },
        decreases imports.len() - i,
    {
        let x = &imports[i];
        let own_account = match x.account_id {
            Some(a) => a == account_id,
            None => false,
        };
        if own_account && x.closing_balance.is_some() {
            let later = match best {
                None => true,
                Some(k) => {
                    let y = &imports[k];
                    let (a, b) = (end_of(x), end_of(y));
                    is_less(b.as_str(), a.as_str()) || (!is_less(a.as_str(), b.as_str()) && x.id > y.id)
                },
            };
            if later {
                best = Some(i);
            }
        }
        i = i + 1;
    }
    best
}

/// The balance that a bank last stated of an account.
pub open spec fn stated_balance(imports: Seq<Import>, account_id: i64) -> Option<Num> {
    match latest_of(imports, account_id, imports.len()) {
        Some(i) => num_of(imports[i].closing_balance),
        None => None,
    }
}

/// The day of the balance that a bank last stated of an account.
pub open spec fn stated_day(imports: Seq<Import>, account_id: i64) -> Option<Date> {
    match latest_of(imports, account_id, imports.len()) {
        Some(i) => closing_day(imports[i].options@),
        None => None,
    }
}

/// The rows that are not reconciled, among the first `n`.
pub open spec fn open_rows(rows: Seq<Movement>, n: nat) -> Seq<Movement>
    decreases n,
{
    if n == 0 {
        Seq::empty()
    } else if rows[n - 1].reconciled {
        open_rows(rows, (n - 1) as nat)
    } else {
        open_rows(rows, (n - 1) as nat).push(rows[n - 1])
    }
}

/// What an account holds up to a day, in major units.
pub open spec fn balance_of(entries: Seq<JournalEntry>, account: Account, to: Option<Date>) -> std::result::Result<Num, Refusal> {
    match account_total(entries, period(None, to, false), account.id, false, entries.len()) {
        None => Err(Refusal::Invalid("account total is out of range"@)),
        Some(n) => if account.precision > MAX_PRECISION {
            Err(Refusal::Invalid(precision_refusal(account.precision as int)))
        } else {
            Ok(normal((n, account.precision as nat)))
        },
    }
}

pub open spec fn num_of(d: Option<Decimal>) -> Option<Num> {
    match d {
        Some(x) => Some(x@),
        None => None,
    }
}

/// What is missing between a statement balance and the ledger's, where there is a statement.
pub open spec fn gap(statement: Option<Num>, ledger: Num) -> std::result::Result<Option<Num>, Refusal> {
    match statement {
        None => Ok(None),
        Some(s) => match subtracted(s, ledger) {
            Some(d) => Ok(Some(d)),
            None => Err(Refusal::Invalid("balance difference is out of range"@)),
        },
    }
}

pub open spec fn all_until(account_id: i64, to: Option<Date>) -> LedgerQuery {
    LedgerQuery { account_id, from: None, to, limit: 5000, include_drafts: false, newest_first: false }
}

/// Statement balance versus ledger balance for one account. Statement balances are shown from the
/// bank's point of view: positive when the bank owes you.
pub fn reconciliation(
    accounts: &[Account],
    entities: &[Entity],
    commodities: &[Commodity],
    index: &[AccountBrief],
    evidence: &[Evidence],
    entries: &[JournalEntry],
    imports: &[Import],
    lines: &[StatementLine],
    account_id: i64,
) -> (r: Result<Reconciliation>)
    ensures
        ({
            let statement_date = stated_day(imports@, account_id);
            let statement_balance = stated_balance(imports@, account_id);
            match r {
                Ok(x) => {
                    &&& place_of(accounts@, account_id) is Some
                    &&& balance_of(entries@, accounts@[place_of(accounts@, account_id)->0], statement_date) == Ok::<Num, Refusal>(x.ledger_balance@)
                    &&& gap(statement_balance, x.ledger_balance@) == Ok::<Option<Num>, Refusal>(num_of(x.difference))
                    &&& ledger_of(accounts@, entities@, commodities@, index@, evidence@, entries@, all_until(account_id, statement_date)) matches Ok(
                        l,
                    ) && movements(x.unreconciled@) == open_rows(l.rows, l.rows.len())
                    &&& num_of(x.statement_balance) == statement_balance && x.statement_date == statement_date
                    &&& as_ints(x.unmatched_lines@) == listed_lines(lines@, Some(account_id), "unmatched"@, None, 500)
                },
                Err(e) => match place_of(accounts@, account_id) {
                    None => e.not_found("account "@ + int_text(account_id as int)),
                    Some(i) => match balance_of(entries@, accounts@[i], statement_date) {
                        Err(f) => f == e@,
                        Ok(b) => match gap(statement_balance, b) {
                            Err(f) => f == e@,
                            Ok(_) => ledger_of(
                                accounts@,
                                entities@,
                                commodities@,
                                index@,
                                evidence@,
                                entries@,
                                all_until(account_id, statement_date),
                            ) == Err::<ShownLedger, Refusal>(e@),
                        },
                    },
                },
            }
        }),
{
    let account = match get_account(accounts, account_id) {
        Ok(a) => a,
        Err(e) => {
            return Err(e);
        },
    };
    let (statement_balance, statement_date) = match latest_statement(imports, account_id) {
        Some(i) => (imports[i].closing_balance, closing_date(imports[i].options.as_str())),
        None => (None, None),
    };
    let w = Window { entity_id: None, from: None, to: statement_date, before: None, drafts: false };
    let raw = match total_on(entries, &w, account.id, false) {
        Some(n) => n,
        None => {
            return Err(invalid("account total is out of range"));
        },
    };
    let ledger_balance = match MinorUnits::from_minor(raw, account.precision) {
        Ok(u) => u.major(),
        Err(e) => {
            return Err(e);
        },
    };
    let difference = match statement_balance {
        None => None,
        Some(s) => match s.checked_sub(ledger_balance) {
            Some(d) => Some(d),
            None => {
                return Err(invalid("balance difference is out of range"));
            },
        },
    };
    let ledger = match general_ledger(
        accounts,
        entities,
        commodities,
        index,
        evidence,
        entries,
        account_id,
        None,
        statement_date,
        5000,
        false,
    ) {
        Ok(l) => l,
        Err(e) => {
            return Err(e);
        },
    };
    let ghost all = movements(ledger.rows@);
    let mut unreconciled: Vec<LedgerRow> = Vec::new();
    let mut i: usize = 0;
    assert(movements(unreconciled@) =~= Seq::<Movement>::empty());
    while i < ledger.rows.len()
        invariant
            i <= ledger.rows.len(),
            all == movements(ledger.rows@),
            movements(unreconciled@) == open_rows(all, i as nat),
        decreases ledger.rows.len() - i,
    {
        assert(all[i as int] == ledger.rows@[i as int]@);
        if !ledger.rows[i].reconciled {
            let ghost before = movements(unreconciled@);
            let row = copy_ledger_row(&ledger.rows[i]);
            unreconciled.push(row);
            assert(movements(unreconciled@) =~= before.push(row@));
        }
        i = i + 1;
    }
    let unmatched_lines = list_lines(lines, Some(account_id), "unmatched", None, 500);
    Ok(Reconciliation { statement_balance, statement_date, ledger_balance, difference, unmatched_lines, unreconciled })
}

/// What is missing is the statement's balance less the ledger's: added to the ledger it gives the statement.
pub proof fn law_gap_closes(statement: Num, ledger: Num)
    requires
        tame(statement, 100000000000000000000real),
        tame(ledger, 100000000000000000000real),
    ensures
        gap(Some(statement), ledger) matches Ok(Some(d)) && value(ledger) + value(d) == value(statement),
{
    law_sums_exact(statement, ledger);
}

/// What an account holds up to a day is what is booked on it up to that day, in minor units.
pub proof fn law_balance_is_booked(entries: Seq<JournalEntry>, account: Account, to: Option<Date>)
    ensures
        balance_of(entries, account, to) matches Ok(n) ==> (account_total(
            entries,
            Window { entity_id: None, from: None, to, before: None, drafts: false },
            account.id,
            false,
            entries.len(),
        ) matches Some(t) && value(n) == value((t, account.precision as nat))),
{
    if balance_of(entries, account, to) is Ok {
        let t = account_total(entries, period(None, to, false), account.id, false, entries.len())->0;
        lemma_normal((t, account.precision as nat));
        lemma_same_value(normal((t, account.precision as nat)), (t, account.precision as nat));
    }
}

/// A ledger in the order of time opens with what was booked before its first day, and with nothing where it
/// starts with the account; assets and expenses count as they are booked, all other accounts turned round.
pub proof fn law_ledger_opens(p: Page, entries: Seq<JournalEntry>, q: LedgerQuery)
    requires
        !q.newest_first,
        p.zero.minor == 0,
    ensures
        ledger_page(p, entries, q) matches Ok(l) ==> {
            let earlier = match q.from {
                Some(d) => account_total(
                    entries,
                    Window { entity_id: None, from: None, to: None, before: Some(d), drafts: false },
                    q.account_id,
                    false,
                    entries.len(),
                ),
                None => Some(0int),
            };
            earlier is Some && l.opening_balance.minor == (if p.account.account_type == AccountType::Asset || p.account.account_type
                == AccountType::Expense {
                earlier->0
            } else {
                -earlier->0
            })
        },
{
}

/// The day on which the period of an import ends, as it is written, or when it was imported.
pub open spec fn end_text(x: ShownImport) -> Seq<char> {
    match x.period_to {
        Some(d) => iso_text(d),
        None => x.created_at,
    }
}

/// The statement that an account is held against is one of its own that closes with a balance, and none of
/// those ends later; of two that end together it is the one with the larger number. There is none only where
/// no import closes with a balance of the account.
pub proof fn law_latest_statement(imports: Seq<Import>, account_id: i64, n: nat)
    requires
        n <= imports.len(),
    ensures
        match latest_of(imports, account_id, n) {
            Some(i) => {
                &&& 0 <= i < n && imports[i]@.account_id == Some(account_id) && imports[i]@.closing_balance is Some
                &&& forall|j: int|
                    0 <= j < n && (#[trigger] imports[j])@.account_id == Some(account_id) && imports[j]@.closing_balance is Some ==> !text_less(
                        end_text(imports[i]@),
                        end_text(imports[j]@),
                    ) && (end_text(imports[i]@) == end_text(imports[j]@) ==> imports[j]@.id <= imports[i]@.id)
            },
            None => forall|j: int|
                0 <= j < n && (#[trigger] imports[j])@.account_id == Some(account_id) ==> imports[j]@.closing_balance is None,
        },
    decreases n,
{
    if n > 0 {
        let m = (n - 1) as nat;
        law_latest_statement(imports, account_id, m);
        let x = end_text(imports[n - 1]@);
        lemma_text_order(x, x, x);
        if let Some(b) = latest_of(imports, account_id, m) {
            let y = end_text(imports[b]@);
            lemma_text_order(x, y, x);
            lemma_text_order(y, x, y);
            assert forall|j: int|
                0 <= j < n && (#[trigger] imports[j])@.account_id == Some(account_id) && imports[j]@.closing_balance is Some implies ({
                let i = latest_of(imports, account_id, n)->0;
                !text_less(end_text(imports[i]@), end_text(imports[j]@)) && (end_text(imports[i]@) == end_text(imports[j]@) ==> imports[j]@.id
                    <= imports[i]@.id)
            }) by {
                let z = end_text(imports[j]@);
                lemma_text_order(x, z, y);
                lemma_text_order(y, x, z);
                lemma_text_order(x, y, z);
                lemma_text_order(y, z, x);
                lemma_text_order(z, y, x);
                lemma_text_order(z, x, y);
            }
        }
    }
}

} // verus!
