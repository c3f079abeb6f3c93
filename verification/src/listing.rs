//! Lists entries and statement lines by a filter, and finds what an account is usually booked against.

use vstd::prelude::*;

use crate::date::Date;
use crate::journal::page;
use crate::matcher::{first_suggesting, suggestion_pattern};
use crate::model::{Account, AccountType, EntryStatus, JournalEntry, Posting, StatementLine};
use crate::order::{as_ints, ranks, sorted, sorted_places, Key, Rank};
use crate::text::{cat3, chars, lower_char, lowercase_of, own, same, to_lower_char, trim, trimmed, words_of};
use crate::totals::{in_period, is_in_period};

verus! {

/// Whether a text is like a pattern: `%` stands for any text, `_` for any character, and ASCII
/// letters agree in any case.
pub open spec fn like(p: Seq<char>, s: Seq<char>) -> bool
    decreases p.len(), s.len(),
{
    if p.len() == 0 {
        s.len() == 0
    } else if p[0] == '%' {
        like(p.skip(1), s) || (s.len() > 0 && like(p, s.skip(1)))
    } else {
        s.len() > 0 && (p[0] == '_' || lower_char(p[0]) == lower_char(s[0])) && like(p.skip(1), s.skip(1))
    }
}

fn is_like_from(p: &[char], i: usize, s: &[char], j: usize) -> (r: bool)
    requires
        i <= p@.len(),
        j <= s@.len(),
    ensures
        r == like(p@.skip(i as int), s@.skip(j as int)),
    decreases p@.len() - i, s@.len() - j,
{
    let ghost (pi, sj) = (p@.skip(i as int), s@.skip(j as int));
    if i == p.len() {
        return j == s.len();
    }
    assert(pi[0] == p@[i as int]);
    assert(pi.skip(1) =~= p@.skip(i + 1));
    if p[i] == '%' {
        if is_like_from(p, i + 1, s, j) {
            return true;
        }
        if j == s.len() {
            return false;
        }
        assert(sj.skip(1) =~= s@.skip(j + 1));
        return is_like_from(p, i, s, j + 1);
    }
    if j == s.len() {
        return false;
    }
    assert(sj[0] == s@[j as int]);
    assert(sj.skip(1) =~= s@.skip(j + 1));
    (p[i] == '_' || to_lower_char(p[i]) == to_lower_char(s[j])) && is_like_from(p, i + 1, s, j + 1)
}

pub fn is_like(pattern: &str, text: &str) -> (r: bool)
    ensures
        r == like(pattern@, text@),
{
    let p = chars(pattern);
    let s = chars(text);
    assert(p@.skip(0) =~= pattern@);
    assert(s@.skip(0) =~= text@);
    is_like_from(&p, 0, &s, 0)
}

#[derive(Debug)]
pub struct EntryFilter {
    pub entity_id: Option<i64>,
    pub account_id: Option<i64>,
    pub status: Option<EntryStatus>,
    pub from: Option<Date>,
    pub to: Option<Date>,
    pub query: String,
    pub origin: String,
    /// Only posted entries no human has confirmed yet.
    pub only_unreviewed: bool,
    pub limit: i64,
    pub offset: i64,
}

/// Whether one of the postings is on an account.
pub open spec fn touches(v: Seq<Posting>, account_id: i64) -> bool {
    exists|i: int| 0 <= i < v.len() && (#[trigger] v[i]).account_id == account_id
}

fn is_touching(v: &Vec<Posting>, account_id: i64) -> (r: bool)
    ensures
        r == touches(v@, account_id),
{
    let mut i: usize = 0;
    while i < v.len()
        invariant
            i <= v.len(),
            forall|k: int| 0 <= k < i ==> (#[trigger] v@[k]).account_id != account_id,
        decreases v.len() - i,
    {
        if v[i].account_id == account_id {
            return true;
        }
        i = i + 1;
    }
    false
}

/// Whether a posting carries a text like a pattern.
pub open spec fn posting_like(p: Posting, q: Seq<char>) -> bool {
    like(q, p.memo@) || (p.external_id is Some && like(q, p.external_id->0@))
}

fn is_posting_like(p: &Posting, q: &str) -> (r: bool)
    ensures
        r == posting_like(*p, q@),
{
    if is_like(q, p.memo.as_str()) {
        return true;
    }
    match &p.external_id {
        Some(t) => is_like(q, t.as_str()),
        None => false,
    }
}

/// Whether an entry carries a text like a pattern: its payee as booked or by its canonical name, its
/// description, its notes, a posting or a tag.
pub open spec fn mentions(e: JournalEntry, q: Seq<char>) -> bool {
    ||| like(q, e.payee@)
    ||| like(q, e.display_payee@)
    ||| like(q, e.description@)
    ||| like(q, e.notes@)
    ||| exists|i: int| 0 <= i < e.postings@.len() && posting_like(#[trigger] e.postings@[i], q)
    ||| exists|i: int| 0 <= i < e.tags@.len() && like(q, (#[trigger] e.tags@[i])@)
}

fn is_mentioning(e: &JournalEntry, q: &str) -> (r: bool)
    ensures
        r == mentions(*e, q@),
{
    if is_like(q, e.payee.as_str()) || is_like(q, e.display_payee.as_str()) || is_like(q, e.description.as_str()) || is_like(
        q,
        e.notes.as_str(),
    ) {
        return true;
    }
    let mut i: usize = 0;
    while i < e.postings.len()
        invariant
            i <= e.postings.len(),
            forall|k: int| 0 <= k < i ==> !posting_like(#[trigger] e.postings@[k], q@),
        decreases e.postings.len() - i,
    {
        if is_posting_like(&e.postings[i], q) {
            return true;
        }
        i = i + 1;
    }
    let mut j: usize = 0;
    while j < e.tags.len()
        invariant
            j <= e.tags.len(),
            forall|k: int| 0 <= k < j ==> !like(q@, (#[trigger] e.tags@[k])@),
        decreases e.tags.len() - j,
    {
        if is_like(q, e.tags[j].as_str()) {
            return true;
        }
        j = j + 1;
    }
    false
}

/// Whether a filter selects an entry.
pub open spec fn selects(f: EntryFilter, e: JournalEntry) -> bool {
    &&& f.entity_id is Some ==> e.entity_id == f.entity_id->0
    &&& f.account_id is Some ==> touches(e.postings@, f.account_id->0)
    &&& f.status is Some ==> e.status == f.status->0
    &&& in_period(f.from, f.to, e.date)
    &&& trimmed(f.query@).len() == 0 || mentions(e, "%"@ + trimmed(f.query@) + "%"@)
    &&& f.origin@.len() == 0 || e.origin@ == f.origin@
    &&& f.only_unreviewed ==> e.reviewed_at is None && e.status == EntryStatus::Posted
}

fn is_posted(s: EntryStatus) -> (r: bool)
    ensures
        r == (s == EntryStatus::Posted),
{
    match s {
        EntryStatus::Posted => true,
        _ => false,
    }
}

fn is_selected(f: &EntryFilter, e: &JournalEntry) -> (r: bool)
    ensures
        r == selects(*f, *e),
{
    if let Some(id) = f.entity_id {
        if e.entity_id != id {
            return false;
        }
    }
    if let Some(id) = f.account_id {
        if !is_touching(&e.postings, id) {
            return false;
        }
    }
    if let Some(s) = f.status {
        if e.status != s {
            return false;
        }
    }
    if !is_in_period(f.from, f.to, e.date) {
        return false;
    }
    let query = trim(f.query.as_str());
    if !query.as_str().is_empty() && !is_mentioning(e, cat3("%", query.as_str(), "%").as_str()) {
        return false;
    }
    if !f.origin.as_str().is_empty() && !same(e.origin.as_str(), f.origin.as_str()) {
        return false;
    }
    !f.only_unreviewed || (e.reviewed_at.is_none() && is_posted(e.status))
}

/// The places of the entries that a filter selects among the first `n`.
pub open spec fn selected(f: EntryFilter, entries: Seq<JournalEntry>, n: nat) -> Seq<int>
    decreases n,
{
    if n == 0 {
        Seq::empty()
    } else if selects(f, entries[n - 1]) {
        selected(f, entries, (n - 1) as nat).push(n - 1)
    } else {
        selected(f, entries, (n - 1) as nat)
    }
}

/// Newer entries come first, and of one day those with the greater number.
pub open spec fn recency(e: JournalEntry) -> Rank {
    Rank { first: -(e.date.number()), second: -(e.id as int), text: Seq::empty() }
}

pub open spec fn recencies(entries: Seq<JournalEntry>, places: Seq<int>) -> Seq<Rank> {
    places.map_values(|i: int| recency(entries[i]))
}

/// The places of the selected entries, newest first.
pub open spec fn newest_first(f: EntryFilter, entries: Seq<JournalEntry>) -> Seq<int> {
    let m = selected(f, entries, entries.len());
    sorted_places(recencies(entries, m)).map_values(|k: int| m[k])
}

/// What of a list a page shows.
pub open spec fn shown(s: Seq<int>, limit: int, offset: int) -> Seq<int> {
    let from = if offset < s.len() {
        offset
    } else {
        s.len() as int
    };
    let to = if from + limit < s.len() {
        from + limit
    } else {
        s.len() as int
    };
    s.subrange(from, to)
}

/// How many entries a page shows at most.
pub open spec fn page_size(limit: i64) -> int {
    if limit <= 0 {
        100
    } else if limit > 2000 {
        2000
    } else {
        limit as int
    }
}

pub open spec fn page_start(offset: i64) -> int {
    if offset < 0 {
        0
    } else {
        offset as int
    }
}

proof fn lemma_selected(f: EntryFilter, entries: Seq<JournalEntry>, n: nat)
    requires
        n <= entries.len(),
    ensures
        selected(f, entries, n).len() <= n,
        forall|k: int| 0 <= k < selected(f, entries, n).len() ==> 0 <= #[trigger] selected(f, entries, n)[k] < n && selects(
            f,
            entries[selected(f, entries, n)[k]],
        ),
    decreases n,
{
    if n > 0 {
        lemma_selected(f, entries, (n - 1) as nat);
    }
}

/// The places of the entries on a page, newest first, and how many the filter selects in all.
pub fn list_entries(entries: &[JournalEntry], f: &EntryFilter) -> (r: (Vec<usize>, usize))
    ensures
        as_ints(r.0@) == shown(newest_first(*f, entries@), page_size(f.limit), page_start(f.offset)),
        r.1 == selected(*f, entries@, entries@.len()).len(),
        forall|k: int| 0 <= k < r.0@.len() ==> (#[trigger] r.0@[k]) < entries@.len(),
{
    let ghost m = selected(*f, entries@, entries@.len());
    let mut places: Vec<usize> = Vec::new();
    let mut keys: Vec<Key> = Vec::new();
    let mut i: usize = 0;
    assert(as_ints(places@) =~= selected(*f, entries@, 0));
    assert(ranks(keys@) =~= recencies(entries@, selected(*f, entries@, 0)));
    while i < entries.len()
        invariant
            i <= entries.len(),
            places@.len() == keys@.len(),
            as_ints(places@) == selected(*f, entries@, i as nat),
            ranks(keys@) == recencies(entries@, selected(*f, entries@, i as nat)),
            forall|k: int| 0 <= k < places@.len() ==> (#[trigger] places@[k]) < entries@.len(),
        decreases entries.len() - i,
    {
        let e = &entries[i];
        if is_selected(f, e) {
            let ghost (ps, ks) = (places@, keys@);
            let key = Key { first: -(e.date.day_number() as i128), second: -(e.id as i128), text: own("") };
            proof {
                reveal_strlit("");
                assert(""@ =~= Seq::<char>::empty());
            }
            places.push(i);
            keys.push(key);
            assert(as_ints(places@) =~= as_ints(ps).push(i as int));
            assert(ranks(keys@) =~= ranks(ks).push(key@));
            assert(key@ == recency(*e));
            assert(recencies(entries@, selected(*f, entries@, (i + 1) as nat)) =~= recencies(
                entries@,
                selected(*f, entries@, i as nat),
            ).push(recency(*e)));
        }
        i = i + 1;
    }
    let order = sorted(&keys);
    let total = order.len();
    let (limit, offset) = page(f.limit, f.offset);
    let from: usize = if (offset as u64) < total as u64 {
        offset as usize
    } else {
        total
    };
    let to: usize = if (limit as u64) < (total - from) as u64 {
        from + limit as usize
    } else {
        total
    };
    let mut r: Vec<usize> = Vec::new();
    let mut k: usize = from;
    while k < to
        invariant
            from <= k <= to <= order.len(),
            order@.len() == places@.len(),
            r@.len() == k - from,
            forall|j: int| 0 <= j < order@.len() ==> (#[trigger] order@[j]) < places@.len(),
            forall|j: int| 0 <= j < places@.len() ==> (#[trigger] places@[j]) < entries@.len(),
            forall|j: int| 0 <= j < r@.len() ==> #[trigger] r@[j] == places@[order@[from + j] as int],
            forall|j: int| 0 <= j < r@.len() ==> (#[trigger] r@[j]) < entries@.len(),
        decreases to - k,
    {
        r.push(places[order[k]]);
        k = k + 1;
    }
    proof {
        let all = newest_first(*f, entries@);
        assert(all.len() == total);
        let want = shown(all, page_size(f.limit), page_start(f.offset));
        assert(want =~= all.subrange(from as int, to as int));
        assert forall|j: int| 0 <= j < r@.len() implies as_ints(r@)[j] == want[j] by {
            assert(as_ints(order@)[from + j] == order@[from + j] as int);
            assert(as_ints(places@)[order@[from + j] as int] == m[order@[from + j] as int]);
            assert(r@[j] == places@[order@[from + j] as int]);
            assert(want[j] == all[from + j]);
        }
        assert(as_ints(r@) =~= want);
    }
    (r, total)
}

/// Every entry that is selected is counted once, and only those.
pub proof fn law_counts_selected(f: EntryFilter, entries: Seq<JournalEntry>, i: int)
    requires
        0 <= i < entries.len(),
    ensures
        selects(f, entries[i]) <==> selected(f, entries, entries.len()).contains(i),
{
    lemma_counted(f, entries, entries.len(), i);
}

proof fn lemma_counted(f: EntryFilter, entries: Seq<JournalEntry>, n: nat, i: int)
    requires
        n <= entries.len(),
        0 <= i < entries.len(),
    ensures
        selected(f, entries, n).contains(i) <==> i < n && selects(f, entries[i]),
    decreases n,
{
    lemma_selected(f, entries, n);
    if n > 0 {
        let m = (n - 1) as nat;
        lemma_counted(f, entries, m, i);
        lemma_selected(f, entries, m);
        let (s, t) = (selected(f, entries, m), selected(f, entries, n));
        if selects(f, entries[n - 1]) {
            assert(t == s.push(n - 1));
            if s.contains(i) {
                let k = choose|k: int| 0 <= k < s.len() && s[k] == i;
                assert(t[k] == i);
            }
            if i == n - 1 {
                assert(t[t.len() - 1] == i);
            }
            if t.contains(i) {
                let k = choose|k: int| 0 <= k < t.len() && t[k] == i;
                if k < s.len() {
                    assert(s[k] == i);
                }
            }
        }
    }
}

/// Which statement lines are listed.
pub open spec fn wanted(l: StatementLine, account_id: Option<i64>, status: Seq<char>, import_id: Option<i64>) -> bool {
    &&& account_id is Some ==> l.account_id == account_id
    &&& status.len() == 0 || l.status@ == status
    &&& import_id is Some ==> l.import_id == import_id->0
}

/// The places of the wanted lines among the first `n`.
pub open spec fn wanted_places(lines: Seq<StatementLine>, account_id: Option<i64>, status: Seq<char>, import_id: Option<i64>, n: nat) -> Seq<int>
    decreases n,
{
    if n == 0 {
        Seq::empty()
    } else {
        let rest = wanted_places(lines, account_id, status, import_id, (n - 1) as nat);
        if wanted(lines[n - 1], account_id, status, import_id) {
            rest.push(n - 1)
        } else {
            rest
        }
    }
}

/// Over all imports newer lines come first and those without a day last; inside an import, and on one
/// day, lines come by import, the latest first, and by position.
pub open spec fn line_rank(l: StatementLine, inside: bool) -> Rank {
    Rank {
        first: if inside {
            0
        } else {
            match l.date {
                Some(d) => -(d.number()),
                None => 1_000_000_000,
            }
        },
        second: -(l.import_id as int) * 4294967296 + l.position as int,
        text: Seq::empty(),
    }
}

pub open spec fn line_ranks(lines: Seq<StatementLine>, places: Seq<int>, inside: bool) -> Seq<Rank> {
    places.map_values(|i: int| line_rank(lines[i], inside))
}

/// The places of the lines of a list, in its order.
pub open spec fn listed_lines(lines: Seq<StatementLine>, account_id: Option<i64>, status: Seq<char>, import_id: Option<i64>, limit: i64) -> Seq<int> {
    let m = wanted_places(lines, account_id, status, import_id, lines.len());
    let all = sorted_places(line_ranks(lines, m, import_id is Some)).map_values(|k: int| m[k]);
    shown(
        all,
        if limit <= 0 {
            500
        } else {
            limit as int
        },
        0,
    )
}

/// The places of statement lines of an account, with a status, of an import: where one is given.
pub fn list_lines(lines: &[StatementLine], account_id: Option<i64>, status: &str, import_id: Option<i64>, limit: i64) -> (r: Vec<usize>)
    ensures
        as_ints(r@) == listed_lines(lines@, account_id, status@, import_id, limit),
        forall|k: int| 0 <= k < r@.len() ==> (#[trigger] r@[k]) < lines@.len(),
{
    let inside = import_id.is_some();
    let ghost m = wanted_places(lines@, account_id, status@, import_id, lines@.len());
    let mut places: Vec<usize> = Vec::new();
    let mut keys: Vec<Key> = Vec::new();
    let mut i: usize = 0;
    assert(as_ints(places@) =~= wanted_places(lines@, account_id, status@, import_id, 0));
    assert(ranks(keys@) =~= line_ranks(lines@, wanted_places(lines@, account_id, status@, import_id, 0), inside));
    while i < lines.len()
        invariant
            i <= lines.len(),
            inside == (import_id is Some),
            places@.len() == keys@.len(),
            as_ints(places@) == wanted_places(lines@, account_id, status@, import_id, i as nat),
            ranks(keys@) == line_ranks(lines@, wanted_places(lines@, account_id, status@, import_id, i as nat), inside),
            forall|k: int| 0 <= k < places@.len() ==> (#[trigger] places@[k]) < lines@.len(),
        decreases lines.len() - i,
    {
        let l = &lines[i];
        let on_account = match (account_id, l.account_id) {
            (Some(a), Some(b)) => a == b,
            (Some(_), None) => false,
            (None, _) => true,
        };
        let of_import = match import_id {
            Some(id) => l.import_id == id,
            None => true,
        };
        if on_account && of_import && (status.is_empty() || same(l.status.as_str(), status)) {
            let ghost (ps, ks) = (places@, keys@);
            let first: i128 = if inside {
                0
            } else {
                match l.date {
                    Some(d) => -(d.day_number() as i128),
                    None => 1_000_000_000,
                }
            };
            let key = Key { first, second: -(l.import_id as i128) * 4294967296 + l.position as i128, text: own("") };
            proof {
                reveal_strlit("");
                assert(""@ =~= Seq::<char>::empty());
            }
            places.push(i);
            keys.push(key);
            assert(as_ints(places@) =~= as_ints(ps).push(i as int));
            assert(ranks(keys@) =~= ranks(ks).push(key@));
            assert(key@ == line_rank(*l, inside));
            assert(line_ranks(lines@, wanted_places(lines@, account_id, status@, import_id, (i + 1) as nat), inside) =~= line_ranks(
                lines@,
                wanted_places(lines@, account_id, status@, import_id, i as nat),
                inside,
            ).push(line_rank(*l, inside)));
        }
        i = i + 1;
    }
    let order = sorted(&keys);
    let total = order.len();
    let most: u64 = if limit <= 0 {
        500
    } else {
        limit as u64
    };
    let to: usize = if most < total as u64 {
        most as usize
    } else {
        total
    };
    let mut r: Vec<usize> = Vec::new();
    let mut k: usize = 0;
    while k < to
        invariant
            k <= to <= order.len(),
            order@.len() == places@.len(),
            r@.len() == k,
            forall|j: int| 0 <= j < order@.len() ==> (#[trigger] order@[j]) < places@.len(),
            forall|j: int| 0 <= j < places@.len() ==> (#[trigger] places@[j]) < lines@.len(),
            forall|j: int| 0 <= j < r@.len() ==> #[trigger] r@[j] == places@[order@[j] as int],
            forall|j: int| 0 <= j < r@.len() ==> (#[trigger] r@[j]) < lines@.len(),
        decreases to - k,
    {
        r.push(places[order[k]]);
        k = k + 1;
    }
    proof {
        let all = sorted_places(line_ranks(lines@, m, inside)).map_values(|k: int| m[k]);
        let want = listed_lines(lines@, account_id, status@, import_id, limit);
        assert(all.len() == total);
        assert(want =~= all.subrange(0, to as int));
        assert forall|j: int| 0 <= j < r@.len() implies as_ints(r@)[j] == want[j] by {
            assert(as_ints(order@)[j] == order@[j] as int);
            assert(as_ints(places@)[order@[j] as int] == m[order@[j] as int]);
            assert(r@[j] == places@[order@[j] as int]);
            assert(want[j] == all[j]);
        }
        assert(as_ints(r@) =~= want);
    }
    r
}

/// How many of the first `n` postings are on an account.
pub open spec fn posted_on(v: Seq<Posting>, account_id: i64, n: nat) -> nat
    decreases n,
{
    if n == 0 {
        0
    } else if v[n - 1].account_id == account_id {
        posted_on(v, account_id, (n - 1) as nat) + 1
    } else {
        posted_on(v, account_id, (n - 1) as nat)
    }
}

/// Whether an entry is a posted one of an entity with a payee or a description like a pattern.
pub open spec fn resembles(e: JournalEntry, entity_id: i64, q: Seq<char>) -> bool {
    e.entity_id == entity_id && e.status == EntryStatus::Posted && (like(q, e.payee@) || like(q, e.description@))
}

/// How often an account was posted on in the first `n` entries that resemble a pattern.
pub open spec fn uses(entries: Seq<JournalEntry>, entity_id: i64, q: Seq<char>, account_id: i64, n: nat) -> nat
    decreases n,
{
    if n == 0 {
        0
    } else {
        let rest = uses(entries, entity_id, q, account_id, (n - 1) as nat);
        let e = entries[n - 1];
        if resembles(e, entity_id, q) {
            rest + posted_on(e.postings@, account_id, e.postings@.len())
        } else {
            rest
        }
    }
}

/// Whether an account is a category that can be suggested for a bank account.
pub open spec fn suggestible(a: Account, bank: i64) -> bool {
    a.id != bank && (a.account_type == AccountType::Income || a.account_type == AccountType::Expense) && a.system_role@.len() == 0
}

/// The most used of the first `n` accounts, and how often; of equals the first.
pub open spec fn most_used(accounts: Seq<Account>, entries: Seq<JournalEntry>, entity_id: i64, bank: i64, q: Seq<char>, n: nat) -> (Option<i64>, nat)
    decreases n,
{
    if n == 0 {
        (None, 0)
    } else {
        let best = most_used(accounts, entries, entity_id, bank, q, (n - 1) as nat);
        let a = accounts[n - 1];
        let count = uses(entries, entity_id, q, a.id, entries.len());
        if suggestible(a, bank) && count > best.1 {
            (Some(a.id), count)
        } else {
            best
        }
    }
}

fn count_on(v: &Vec<Posting>, account_id: i64) -> (r: usize)
    ensures
        r == posted_on(v@, account_id, v@.len()),
        r <= v@.len(),
{
    let mut r: usize = 0;
    let mut i: usize = 0;
    while i < v.len()
        invariant
            i <= v.len(),
            r <= i,
            r == posted_on(v@, account_id, i as nat),
        decreases v.len() - i,
    {
        if v[i].account_id == account_id {
            r = r + 1;
        }
        i = i + 1;
    }
    r
}

fn count_uses(entries: &[JournalEntry], entity_id: i64, q: &str, account_id: i64) -> (r: u128)
    ensures
        r == uses(entries@, entity_id, q@, account_id, entries@.len()),
{
    let mut r: u128 = 0;
    let mut i: usize = 0;
    let n = entries.len();
    while i < n
        invariant
            i <= n == entries@.len(),
            n <= usize::MAX,
            r == uses(entries@, entity_id, q@, account_id, i as nat),
            r <= i * 0xffff_ffff_ffff_ffff,
        decreases n - i,
    {
        let e = &entries[i];
        let alike = e.entity_id == entity_id && is_posted(e.status) && (is_like(q, e.payee.as_str()) || is_like(q, e.description.as_str()));
        assert(i * 0xffff_ffff_ffff_ffff <= 0xffff_ffff_ffff_ffff * 0xffff_ffff_ffff_ffff - 0xffff_ffff_ffff_ffff) by (nonlinear_arith)
            requires
                0 <= i < n <= 0xffff_ffff_ffff_ffff,
        ;
        if alike {
            r = r + count_on(&e.postings, account_id) as u128;
        }
        i = i + 1;
    }
    r
}

fn is_suggestible(a: &Account, bank: i64) -> (r: bool)
    ensures
        r == suggestible(*a, bank),
{
    let category = match a.account_type {
        AccountType::Income => true,
        AccountType::Expense => true,
        _ => false,
    };
    a.id != bank && category && a.system_role.as_str().is_empty()
}

/// The category that entries like a statement line were booked on most often, where a word of the
/// line says what it is for; of those used equally often the first in the chart.
pub fn suggest_account(accounts: &[Account], entries: &[JournalEntry], entity_id: i64, bank_account_id: i64, description: &str) -> (r: Option<i64>)
    ensures
        ({
            let v = words_of(description@);
            match first_suggesting(v, 0) {
                None => r is None,
                Some(i) => r == most_used(accounts@, entries@, entity_id, bank_account_id, "%"@ + lowercase_of(v[i]) + "%"@, accounts@.len()).0,
            }
        }),
{
    let pattern = match suggestion_pattern(description) {
        Some(p) => p,
        None => {
            return None;
        },
    };
    let q = pattern.as_str();
    let mut best: Option<i64> = None;
    let mut most: u128 = 0;
    let mut i: usize = 0;
    while i < accounts.len()
        invariant
            i <= accounts.len(),
            q@ == pattern@,
            (best, most as nat) == most_used(accounts@, entries@, entity_id, bank_account_id, q@, i as nat),
        decreases accounts.len() - i,
    {
        let a = &accounts[i];
        if is_suggestible(a, bank_account_id) {
            let count = count_uses(entries, entity_id, q, a.id);
            if count > most {
                best = Some(a.id);
                most = count;
            }
        }
        i = i + 1;
    }
    best
}

} // verus!
