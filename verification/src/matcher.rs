//! Matching statement lines to postings: the act of reconciliation.

use vstd::prelude::*;

use crate::date::Date;
use crate::error::{conflict, invalid, Refusal, Result};
use crate::ledger::{are_lines, as_pairs};
use crate::model::{Account, AccountType, EntryStatus, JournalEntry, Posting, StatementLine};
use crate::money::{amount_of, same_unit, unit_refusal, Amount, Money};
use crate::order::{rank_less, as_ints, ranks, sorted, sorted_places, Key, Rank};
use crate::text::{all_digits, alphanumeric, among, ascii_digit, cat3, chars, contains, cut, cut_at, holds, is_alphanumeric, is_digit, lowercase_of, own, same, texts, to_lowercase, words, words_of};

verus! {

#[derive(Debug)]
pub struct Candidate {
    pub posting_id: i64,
    pub journal_entry_id: i64,
    pub date: Date,
    pub status: EntryStatus,
    pub origin: String,
    pub payee: String,
    pub days_off: i64,
}

/// The bank texts that read like money moving between the user's own accounts.
pub open spec fn reads_like_transfer(s: Seq<char>) -> bool {
    let d = lowercase_of(s);
    ||| holds(d, "transfer"@)
    ||| holds(d, "sent from"@)
    ||| holds(d, "revolut"@)
    ||| holds(d, "wise"@)
    ||| holds(d, "n26 spaces"@)
    ||| holds(d, "savings"@)
    ||| holds(d, "top-up"@)
    ||| holds(d, "top up"@)
    ||| holds(d, "topup"@)
    ||| holds(d, "to own account"@)
    ||| holds(d, "own account"@)
    ||| holds(d, "between accounts"@)
}

/// Bank text that reads like money moving between the user's own accounts.
pub fn looks_like_transfer(description: &str) -> (r: bool)
    ensures
        r == reads_like_transfer(description@),
{
    let low = to_lowercase(description);
    let d = low.as_str();
    contains(d, "transfer") || contains(d, "sent from") || contains(d, "revolut") || contains(d, "wise") || contains(d, "n26 spaces")
        || contains(d, "savings") || contains(d, "top-up") || contains(d, "top up") || contains(d, "topup") || contains(
        d,
        "to own account",
    ) || contains(d, "own account") || contains(d, "between accounts")
}

/// Which characters of a text part its words.
pub open spec fn word_marks(s: Seq<char>) -> Seq<bool> {
    s.map_values(|c: char| !alphanumeric(c))
}

/// Words that every bank writes.
pub open spec fn is_filler(w: Seq<char>) -> bool {
    w == "pending"@ || w == "sent"@ || w == "from"@ || w == "with"@ || w == "card"@ || w == "payment"@ || w == "transfer"@ || w == "online"@
}

/// Whether a word tells something: it has at least four bytes and is no number and no filler.
pub open spec fn tells(w: Seq<char>) -> bool {
    vstd::utf8::encode_utf8(w).len() >= 4 && !all_digits(w) && !is_filler(w)
}

/// The telling ones of words.
pub open spec fn telling(v: Seq<Seq<char>>) -> Seq<Seq<char>>
    decreases v.len(),
{
    if v.len() == 0 {
        v
    } else if tells(v.last()) {
        telling(v.drop_last()).push(v.last())
    } else {
        telling(v.drop_last())
    }
}

/// The words by which bank text and entries are compared.
pub open spec fn key_words(s: Seq<char>) -> Seq<Seq<char>> {
    let l = lowercase_of(s);
    telling(cut_at(l, word_marks(l)))
}

fn is_number(cs: &Vec<char>) -> (r: bool)
    ensures
        r == all_digits(cs@),
{
    let mut i: usize = 0;
    while i < cs.len()
        invariant
            i <= cs.len(),
            forall|k: int| 0 <= k < i ==> is_digit(#[trigger] cs@[k]),
        decreases cs.len() - i,
    {
        if !ascii_digit(cs[i]) {
            return false;
        }
        i = i + 1;
    }
    true
}

fn does_tell(w: &str) -> (r: bool)
    ensures
        r == tells(w@),
{
    let filler = same(w, "pending") || same(w, "sent") || same(w, "from") || same(w, "with") || same(w, "card") || same(w, "payment")
        || same(w, "transfer") || same(w, "online");
    let bytes = w.as_bytes();
    let cs = chars(w);
    bytes.len() >= 4 && !is_number(&cs) && !filler
}

fn find_words(s: &str) -> (r: Vec<String>)
    ensures
        texts(r@) == key_words(s@),
{
    let low = to_lowercase(s);
    let cs = chars(low.as_str());
    let mut marks: Vec<bool> = Vec::new();
    let mut i: usize = 0;
    while i < cs.len()
        invariant
            i <= cs.len(),
            marks@ == word_marks(cs@).take(i as int),
        decreases cs.len() - i,
    {
        marks.push(!is_alphanumeric(cs[i]));
        assert(marks@ =~= word_marks(cs@).take(i + 1));
        i = i + 1;
    }
    assert(marks@ =~= word_marks(cs@));
    let all = cut(&cs, &marks);
    let ghost ws = texts(all@);
    let mut r: Vec<String> = Vec::new();
    let mut k: usize = 0;
    assert(texts(r@) =~= telling(ws.take(0)));
    while k < all.len()
        invariant
            k <= all.len(),
            ws == texts(all@),
            texts(r@) == telling(ws.take(k as int)),
        decreases all.len() - k,
    {
        assert(ws.take(k + 1).drop_last() =~= ws.take(k as int));
        assert(ws[k as int] == all@[k as int]@);
        if does_tell(all[k].as_str()) {
            let ghost before = texts(r@);
            let w = own(all[k].as_str());
            r.push(w);
            assert(texts(r@) =~= before.push(w@));
        }
        k = k + 1;
    }
    assert(ws.take(k as int) =~= ws);
    r
}

pub open spec fn shares_word(a: Seq<Seq<char>>, b: Seq<Seq<char>>) -> bool {
    exists|i: int| 0 <= i < a.len() && b.contains(#[trigger] a[i])
}

fn is_sharing(a: &Vec<String>, b: &Vec<String>) -> (r: bool)
    ensures
        r == shares_word(texts(a@), texts(b@)),
{
    let ghost (x, y) = (texts(a@), texts(b@));
    let mut i: usize = 0;
    while i < a.len()
        invariant
            i <= a.len(),
            x == texts(a@),
            y == texts(b@),
            forall|k: int| 0 <= k < i ==> !y.contains(#[trigger] x[k]),
        decreases a.len() - i,
    {
        assert(x[i as int] == a@[i as int]@);
        if among(b, a[i].as_str()) {
            return true;
        }
        i = i + 1;
    }
    false
}

pub open spec fn on_own_account(p: Posting) -> bool {
    p.account_type == AccountType::Asset || p.account_type == AccountType::Liability
}

/// Whether another posting of an entry is on an asset or a liability: money between own accounts.
pub open spec fn moves_between(v: Seq<Posting>, id: i64) -> bool {
    exists|k: int| 0 <= k < v.len() && (#[trigger] v[k]).id != id && on_own_account(v[k])
}

fn is_transfer(v: &Vec<Posting>, id: i64) -> (r: bool)
    ensures
        r == moves_between(v@, id),
{
    let mut i: usize = 0;
    while i < v.len()
        invariant
            i <= v.len(),
            forall|k: int| 0 <= k < i ==> !((#[trigger] v@[k]).id != id && on_own_account(v@[k])),
        decreases v.len() - i,
    {
        if v[i].id != id && matches!(v[i].account_type, AccountType::Asset | AccountType::Liability) {
            return true;
        }
        i = i + 1;
    }
    false
}

pub open spec fn distance(a: Date, b: Date) -> int {
    let d = a.number() - b.number();
    if d < 0 {
        -d
    } else {
        d
    }
}

fn days_between(a: Date, b: Date) -> (r: i64)
    ensures
        r == distance(a, b),
        0 <= r <= 200000000,
{
    let d: i64 = a.days_since(b);
    if d < 0 {
        -d
    } else {
        d
    }
}

/// What is looked for: a posting on an account with a quantity, near a day.
#[derive(Debug, Clone, Copy)]
pub struct Wanted {
    pub account_id: i64,
    pub amount: Money,
    pub date: Date,
    pub window_days: i64,
}

/// Whether a posting can be what a line is about: it has the quantity within the window, and is not
/// yet evidenced by a bank line. `evidenced` are the postings that are. Lines from the Account
/// Tracker migration are the capture, not the bank, so they do not count as evidence.
pub open spec fn can_match(w: Wanted, e: JournalEntry, p: Posting, evidenced: Seq<i64>) -> bool {
    &&& p.account_id == w.account_id
    &&& p.quantity@.minor == w.amount@.minor
    &&& p.reconciled_at is None
    &&& e.status != EntryStatus::Void
    &&& e.reverses_id is None
    &&& distance(e.date, w.date) <= w.window_days
    &&& !evidenced.contains(p.id)
}

/// How far a posting is from a line. The closest date wins; a shared word between the bank text and
/// the entry helps; a transfer between own accounts should only match a line that reads like one;
/// drafts and captured entries beat other imports on a tie.
pub open spec fn score_of(w: Wanted, e: JournalEntry, p: Posting, description: Seq<char>) -> int {
    let shared = shares_word(key_words(description), key_words(e.payee@ + " "@ + e.description@));
    distance(e.date, w.date) * 10 - (if shared {
        4int
    } else {
        0
    }) + (if moves_between(e.postings@, p.id) != reads_like_transfer(description) {
        6int
    } else {
        0
    }) + (if e.status == EntryStatus::Posted {
        1int
    } else {
        0
    }) + (if e.origin@ == "import"@ || e.origin@ == "rule"@ {
        1int
    } else {
        0
    })
}

/// The places of the postings of an entry that can match, among the first `n`.
pub open spec fn matches_in(w: Wanted, entry: int, e: JournalEntry, evidenced: Seq<i64>, n: nat) -> Seq<(int, int)>
    decreases n,
{
    if n == 0 {
        Seq::empty()
    } else {
        let rest = matches_in(w, entry, e, evidenced, (n - 1) as nat);
        if can_match(w, e, e.postings@[n - 1], evidenced) {
            rest.push((entry, n - 1))
        } else {
            rest
        }
    }
}

pub open spec fn all_matches(w: Wanted, entries: Seq<JournalEntry>, evidenced: Seq<i64>, n: nat) -> Seq<(int, int)>
    decreases n,
{
    if n == 0 {
        Seq::empty()
    } else {
        all_matches(w, entries, evidenced, (n - 1) as nat) + matches_in(
            w,
            n - 1,
            entries[n - 1],
            evidenced,
            entries[n - 1].postings@.len(),
        )
    }
}

pub open spec fn match_rank(w: Wanted, entries: Seq<JournalEntry>, at: (int, int), description: Seq<char>) -> Rank {
    let e = entries[at.0];
    Rank { first: score_of(w, e, e.postings@[at.1], description), second: e.id as int, text: Seq::empty() }
}

/// The postings that can match, the best first.
pub open spec fn ranked(w: Wanted, entries: Seq<JournalEntry>, evidenced: Seq<i64>, description: Seq<char>) -> Seq<(int, int)> {
    let all = all_matches(w, entries, evidenced, entries.len());
    sorted_places(all.map_values(|at: (int, int)| match_rank(w, entries, at, description))).map_values(|k: int| all[k])
}

fn has_id(v: &[i64], id: i64) -> (r: bool)
    ensures
        r == v@.contains(id),
{
    let mut i: usize = 0;
    while i < v.len()
        invariant
            i <= v.len(),
            forall|k: int| 0 <= k < i ==> #[trigger] v@[k] != id,
        decreases v.len() - i,
    {
        if v[i] == id {
            return true;
        }
        i = i + 1;
    }
    false
}

fn is_match(w: &Wanted, e: &JournalEntry, p: &Posting, evidenced: &[i64]) -> (r: bool)
    ensures
        r == can_match(*w, *e, *p, evidenced@),
{
    p.account_id == w.account_id && p.quantity.minor() == w.amount.minor() && p.reconciled_at.is_none() && e.status != EntryStatus::Void
        && e.reverses_id.is_none() && days_between(e.date, w.date) <= w.window_days && !has_id(evidenced, p.id)
}

fn score(w: &Wanted, e: &JournalEntry, p: &Posting, words: &Vec<String>, like_transfer: bool, Ghost(description): Ghost<Seq<char>>) -> (r: i128)
    requires
        texts(words@) == key_words(description),
        like_transfer == reads_like_transfer(description),
    ensures
        r == score_of(*w, *e, *p, description),
{
    let mut s: i128 = days_between(e.date, w.date) as i128 * 10;
    let theirs = find_words(cat3(e.payee.as_str(), " ", e.description.as_str()).as_str());
    if is_sharing(words, &theirs) {
        s = s - 4;
    }
    if is_transfer(&e.postings, p.id) != like_transfer {
        s = s + 6;
    }
    if e.status == EntryStatus::Posted {
        s = s + 1;
    }
    if same(e.origin.as_str(), "import") || same(e.origin.as_str(), "rule") {
        s = s + 1;
    }
    s
}

fn push_matches(w: &Wanted, entries: &[JournalEntry], i: usize, evidenced: &[i64], into: &mut Vec<(usize, usize)>)
    requires
        i < entries@.len(),
        are_lines(entries@, old(into)@),
    ensures
        are_lines(entries@, final(into)@),
        as_pairs(final(into)@) == as_pairs(old(into)@) + matches_in(
            *w,
            i as int,
            entries@[i as int],
            evidenced@,
            entries@[i as int].postings@.len(),
        ),
{
    let ghost first = as_pairs(into@);
    let ghost e = entries@[i as int];
    let mut k: usize = 0;
    assert(as_pairs(into@) =~= first + matches_in(*w, i as int, e, evidenced@, 0));
    while k < entries[i].postings.len()
        invariant
            i < entries@.len(),
            e == entries@[i as int],
            k <= e.postings@.len(),
            are_lines(entries@, into@),
            as_pairs(into@) == first + matches_in(*w, i as int, e, evidenced@, k as nat),
        decreases e.postings@.len() - k,
    {
        if is_match(w, &entries[i], &entries[i].postings[k], evidenced) {
            let ghost before = as_pairs(into@);
            into.push((i, k));
            assert(as_pairs(into@) =~= before.push((i as int, k as int)));
            assert(before.push((i as int, k as int)) =~= first + matches_in(*w, i as int, e, evidenced@, (k + 1) as nat));
        }
        k = k + 1;
    }
}

fn find_matches(w: &Wanted, entries: &[JournalEntry], evidenced: &[i64]) -> (r: Vec<(usize, usize)>)
    ensures
        are_lines(entries@, r@),
        as_pairs(r@) == all_matches(*w, entries@, evidenced@, entries@.len()),
{
    let mut r: Vec<(usize, usize)> = Vec::new();
    let mut i: usize = 0;
    assert(as_pairs(r@) =~= Seq::<(int, int)>::empty());
    while i < entries.len()
        invariant
            i <= entries.len(),
            are_lines(entries@, r@),
            as_pairs(r@) == all_matches(*w, entries@, evidenced@, i as nat),
        decreases entries.len() - i,
    {
        push_matches(w, entries, i, evidenced, &mut r);
        i = i + 1;
    }
    r
}

fn rank_matches(w: &Wanted, entries: &[JournalEntry], evidenced: &[i64], description: &str) -> (r: Vec<(usize, usize)>)
    ensures
        are_lines(entries@, r@),
        as_pairs(r@) == ranked(*w, entries@, evidenced@, description@),
{
    let found = find_matches(w, entries, evidenced);
    let ghost all = as_pairs(found@);
    let ghost rs = all.map_values(|at: (int, int)| match_rank(*w, entries@, at, description@));
    let words = find_words(description);
    let like_transfer = looks_like_transfer(description);
    let mut keys: Vec<Key> = Vec::new();
    let mut i: usize = 0;
    while i < found.len()
        invariant
            i <= found.len(),
            all == as_pairs(found@),
            are_lines(entries@, found@),
            rs == all.map_values(|at: (int, int)| match_rank(*w, entries@, at, description@)),
            texts(words@) == key_words(description@),
            like_transfer == reads_like_transfer(description@),
            keys@.len() == i,
            forall|k: int| 0 <= k < i ==> (#[trigger] keys@[k])@ == rs[k],
        decreases found.len() - i,
    {
        let (a, b): (usize, usize) = found[i];
        let e = &entries[a];
        let key = Key {
            first: score(w, e, &e.postings[b], &words, like_transfer, Ghost(description@)),
            second: e.id as i128,
            text: String::new(),
        };
        assert(key@ == match_rank(*w, entries@, all[i as int], description@));
        keys.push(key);
        i = i + 1;
    }
    assert(ranks(keys@) =~= rs);
    let order = sorted(&keys);
    let mut r: Vec<(usize, usize)> = Vec::new();
    let mut k: usize = 0;
    while k < order.len()
        invariant
            k <= order.len(),
            all == as_pairs(found@),
            are_lines(entries@, found@),
            r@.len() == k,
            forall|j: int| 0 <= j < order@.len() ==> (#[trigger] order@[j]) < found@.len(),
            forall|j: int| 0 <= j < k ==> #[trigger] r@[j] == found@[order@[j] as int],
        decreases order.len() - k,
    {
        r.push(found[order[k]]);
        k = k + 1;
    }
    proof {
        let want = ranked(*w, entries@, evidenced@, description@);
        assert(as_pairs(r@) =~= want) by {
            assert forall|j: int| 0 <= j < r@.len() implies as_pairs(r@)[j] == want[j] by {
                assert(as_ints(order@)[j] == order@[j] as int);
                assert(r@[j] == found@[order@[j] as int]);
            }
        }
        assert forall|j: int| 0 <= j < r@.len() implies (#[trigger] r@[j]).0 < entries@.len() && r@[j].1
            < entries@[r@[j].0 as int].postings@.len() by {
            assert(r@[j] == found@[order@[j] as int]);
            assert(found@[order@[j] as int].0 < entries@.len());
        }
    }
    r
}

/// Whether `c` shows the posting at a place.
pub open spec fn shows(c: Candidate, w: Wanted, entries: Seq<JournalEntry>, at: (int, int)) -> bool {
    let e = entries[at.0];
    &&& c.posting_id == e.postings@[at.1].id
    &&& c.journal_entry_id == e.id
    &&& c.date == e.date
    &&& c.status == e.status
    &&& c.origin@ == e.origin@
    &&& c.payee@ == e.payee@
    &&& c.days_off == distance(e.date, w.date)
}

/// Why nothing is looked for: the amount is in another unit than the account.
pub open spec fn unit_problem(account: Account, amount: Amount) -> Option<Refusal> {
    match amount_of(0, account.commodity@, account.precision as int) {
        Err(e) => Some(e),
        Ok(zero) => if !same_unit(zero, amount) {
            Some(Refusal::Invalid(unit_refusal(zero, amount)))
        } else {
            None
        },
    }
}

/// Postings on the account with the same quantity within the window, ranked for the description of
/// a statement line.
pub fn candidates_for(
    account: &Account,
    entries: &[JournalEntry],
    evidenced: &[i64],
    amount: Money,
    date: Date,
    window_days: i64,
    description: &str,
) -> (r: Result<Vec<Candidate>>)
    ensures
        match r {
            Ok(v) => {
                let w = Wanted { account_id: account.id, amount, date, window_days };
                let places = ranked(w, entries@, evidenced@, description@);
                &&& unit_problem(*account, amount@) is None
                &&& v@.len() == places.len()
                &&& forall|k: int| 0 <= k < v@.len() ==> shows(#[trigger] v@[k], w, entries@, places[k])
            },
            Err(e) => unit_problem(*account, amount@) == Some(e@),
        },
{
    let zero = match Money::from_minor(0, account.commodity.as_str(), account.precision) {
        Ok(m) => m,
        Err(e) => {
            return Err(e);
        },
    };
    proof {
        use_type_invariant(&amount);
    }
    if let Err(e) = zero.checked_add(amount) {
        return Err(e);
    }
    let w = Wanted { account_id: account.id, amount, date, window_days };
    let places = rank_matches(&w, entries, evidenced, description);
    let ghost ps = ranked(w, entries@, evidenced@, description@);
    let mut r: Vec<Candidate> = Vec::new();
    let mut i: usize = 0;
    while i < places.len()
        invariant
            i <= places.len(),
            ps == as_pairs(places@),
            are_lines(entries@, places@),
            r@.len() == i,
            w.date == date,
            forall|k: int| 0 <= k < i ==> shows(#[trigger] r@[k], w, entries@, ps[k]),
        decreases places.len() - i,
    {
        let (a, b): (usize, usize) = places[i];
        assert(ps[i as int] == (a as int, b as int));
        let e = &entries[a];
        r.push(
            Candidate {
                posting_id: e.postings[b].id,
                journal_entry_id: e.id,
                date: e.date,
                status: e.status,
                origin: own(e.origin.as_str()),
                payee: own(e.payee.as_str()),
                days_off: days_between(e.date, date),
            },
        );
        i = i + 1;
    }
    Ok(r)
}

/// Postings on the account with the same quantity within the window, not yet evidenced by a bank
/// line.
pub fn candidates(account: &Account, entries: &[JournalEntry], evidenced: &[i64], amount: Money, date: Date, window_days: i64) -> (r: Result<
    Vec<Candidate>,
>)
    ensures
        match r {
            Ok(v) => {
                let w = Wanted { account_id: account.id, amount, date, window_days };
                let places = ranked(w, entries@, evidenced@, ""@);
                &&& unit_problem(*account, amount@) is None
                &&& v@.len() == places.len()
                &&& forall|k: int| 0 <= k < v@.len() ==> shows(#[trigger] v@[k], w, entries@, places[k])
            },
            Err(e) => unit_problem(*account, amount@) == Some(e@),
        },
{
    candidates_for(account, entries, evidenced, amount, date, window_days, "")
}

/// The posting of the best candidate, where there is one.
pub open spec fn best_of(w: Wanted, entries: Seq<JournalEntry>, evidenced: Seq<i64>, description: Seq<char>) -> Option<i64> {
    let places = ranked(w, entries, evidenced, description);
    if places.len() == 0 {
        None
    } else {
        Some(entries[places[0].0].postings@[places[0].1].id)
    }
}

/// The best candidate for a statement line, using its text to break ties.
pub fn best_match_for(
    account: &Account,
    entries: &[JournalEntry],
    evidenced: &[i64],
    amount: Money,
    date: Date,
    window_days: i64,
    description: &str,
) -> (r: Result<Option<i64>>)
    ensures
        match r {
            Ok(x) => unit_problem(*account, amount@) is None && x == best_of(
                Wanted { account_id: account.id, amount, date, window_days },
                entries@,
                evidenced@,
                description@,
            ),
            Err(e) => unit_problem(*account, amount@) == Some(e@),
        },
{
    match candidates_for(account, entries, evidenced, amount, date, window_days, description) {
        Ok(v) => if v.len() == 0 {
            Ok(None)
        } else {
            Ok(Some(v[0].posting_id))
        },
        Err(e) => Err(e),
    }
}

pub fn best_match(account: &Account, entries: &[JournalEntry], evidenced: &[i64], amount: Money, date: Date, window_days: i64) -> (r: Result<
    Option<i64>,
>)
    ensures
        match r {
            Ok(x) => unit_problem(*account, amount@) is None && x == best_of(
                Wanted { account_id: account.id, amount, date, window_days },
                entries@,
                evidenced@,
                ""@,
            ),
            Err(e) => unit_problem(*account, amount@) == Some(e@),
        },
{
    best_match_for(account, entries, evidenced, amount, date, window_days, "")
}

/// Why a line cannot be attached to a posting. `taken` tells that another line evidences it.
pub open spec fn attach_refusal(sl: StatementLine, account: Account, entry: JournalEntry, p: Posting, taken: bool) -> Option<Refusal> {
    if sl.account_id != Some(p.account_id) {
        Some(Refusal::Invalid("the posting is on another account"@))
    } else {
        match sl.amount {
            None => Some(Refusal::Invalid("the statement line has no amount"@)),
            Some(a) => if a@.commodity != account.commodity@ || a@.precision != account.precision {
                Some(Refusal::Invalid("statement amount has the wrong commodity"@))
            } else if a@.minor != p.quantity@.minor {
                Some(Refusal::Invalid("the statement amount must equal the posting quantity"@))
            } else if p.reconciled_at is Some && taken {
                Some(Refusal::Conflict("that posting is already reconciled with another line"@))
            } else if entry.status == EntryStatus::Void {
                Some(Refusal::Invalid("a void entry cannot receive statement evidence"@))
            } else {
                None
            },
        }
    }
}

/// What attaching a line does.
#[derive(Debug)]
pub struct Attachment {
    /// The entry was a draft and is posted.
    pub post: bool,
    /// The bank's reference, kept on the posting when it has none.
    pub reference: Option<String>,
    /// The day that the bank booked, where it is another than the entry's.
    pub booked_on: Option<Date>,
}

/// Whether `x` is what attaching a line to a posting does.
pub open spec fn attaches(x: Attachment, sl: StatementLine, entry: JournalEntry, p: Posting) -> bool {
    &&& x.post == (entry.status == EntryStatus::Draft)
    &&& match x.reference {
        Some(t) => p.external_id is None && sl.reference@.len() > 0 && t@ == sl.reference@,
        None => p.external_id is Some || sl.reference@.len() == 0,
    }
    &&& x.booked_on == (match sl.date {
        Some(d) => if d == entry.date {
            None
        } else {
            Some(d)
        },
        None => None,
    })
}

/// Links a line to a posting: the posting is reconciled, the entry posted if it was a draft.
pub fn attach(sl: &StatementLine, account: &Account, entry: &JournalEntry, p: &Posting, taken: bool) -> (r: Result<Attachment>)
    ensures
        match r {
            Ok(x) => attach_refusal(*sl, *account, *entry, *p, taken) is None && attaches(x, *sl, *entry, *p),
            Err(e) => attach_refusal(*sl, *account, *entry, *p, taken) == Some(e@),
        },
{
    let on_account = match sl.account_id {
        Some(id) => id == p.account_id,
        None => false,
    };
    if !on_account {
        return Err(invalid("the posting is on another account"));
    }
    let amount = match sl.amount {
        Some(a) => a,
        None => {
            return Err(invalid("the statement line has no amount"));
        },
    };
    if !same(amount.commodity().as_str(), account.commodity.as_str()) || amount.precision() != account.precision {
        return Err(invalid("statement amount has the wrong commodity"));
    }
    if amount.minor() != p.quantity.minor() {
        return Err(invalid("the statement amount must equal the posting quantity"));
    }
    if p.reconciled_at.is_some() && taken {
        return Err(conflict("that posting is already reconciled with another line"));
    }
    if entry.status == EntryStatus::Void {
        return Err(invalid("a void entry cannot receive statement evidence"));
    }
    proof {
        reveal_strlit("");
        assert(sl.reference@.len() == 0 ==> sl.reference@ =~= ""@);
    }
    let reference = if p.external_id.is_none() && !same(sl.reference.as_str(), "") {
        Some(own(sl.reference.as_str()))
    } else {
        None
    };
    let booked_on = match sl.date {
        Some(d) => if d.same(entry.date) {
            None
        } else {
            Some(d)
        },
        None => None,
    };
    Ok(Attachment { post: entry.status == EntryStatus::Draft, reference, booked_on })
}

/// Matches by hand from the review screen: a line that evidences an entry is refused.
pub fn match_line(sl: &StatementLine, account: &Account, entry: &JournalEntry, p: &Posting, taken: bool) -> (r: Result<Attachment>)
    ensures
        ({
            let done = sl.status@ == "matched"@ || sl.status@ == "created"@;
            match r {
                Ok(x) => !done && attach_refusal(*sl, *account, *entry, *p, taken) is None && attaches(x, *sl, *entry, *p),
                Err(e) => if done {
                    e.invalid("this line already evidences an entry"@)
                } else {
                    attach_refusal(*sl, *account, *entry, *p, taken) == Some(e@)
                },
            }
        }),
{
    if same(sl.status.as_str(), "matched") || same(sl.status.as_str(), "created") {
        return Err(invalid("this line already evidences an entry"));
    }
    attach(sl, account, entry, p, taken)
}

/// Whether a word of a line says something of what it is for.
pub open spec fn suggests(w: Seq<char>) -> bool {
    vstd::utf8::encode_utf8(w).len() >= 4 && !all_digits(w)
}

pub open spec fn first_suggesting(v: Seq<Seq<char>>, from: int) -> Option<int>
    decreases v.len() - from,
{
    if from < 0 || from >= v.len() {
        None
    } else if suggests(v[from]) {
        Some(from)
    } else {
        first_suggesting(v, from + 1)
    }
}

/// The pattern by which entries with a similar payee or description are looked for.
pub fn suggestion_pattern(description: &str) -> (r: Option<String>)
    ensures
        ({
            let v = words_of(description@);
            match r {
                Some(p) => first_suggesting(v, 0) is Some && p@ == "%"@ + lowercase_of(v[first_suggesting(v, 0)->0]) + "%"@,
                None => first_suggesting(v, 0) is None,
            }
        }),
{
    let all = words(description);
    let ghost v = words_of(description@);
    let mut i: usize = 0;
    while i < all.len()
        invariant
            i <= all.len(),
            v == texts(all@),
            v == words_of(description@),
            first_suggesting(v, 0) == first_suggesting(v, i as int),
        decreases all.len() - i,
    {
        assert(v[i as int] == all@[i as int]@);
        let w = all[i].as_str();
        let cs = chars(w);
        if w.as_bytes().len() >= 4 && !is_number(&cs) {
            return Some(cat3("%", to_lowercase(w).as_str(), "%"));
        }
        i = i + 1;
    }
    None
}

proof fn lemma_matches_in(w: Wanted, entry: int, e: JournalEntry, evidenced: Seq<i64>, n: nat)
    requires
        n <= e.postings@.len(),
    ensures
        forall|k: int|
            0 <= k < matches_in(w, entry, e, evidenced, n).len() ==> (#[trigger] matches_in(w, entry, e, evidenced, n)[k]).0 == entry && 0
                <= matches_in(w, entry, e, evidenced, n)[k].1 < n && can_match(
                w,
                e,
                e.postings@[matches_in(w, entry, e, evidenced, n)[k].1],
                evidenced,
            ),
        forall|q: int|
            0 <= q < n && can_match(w, e, #[trigger] e.postings@[q], evidenced) ==> matches_in(w, entry, e, evidenced, n).contains((entry, q)),
    decreases n,
{
    if n > 0 {
        lemma_matches_in(w, entry, e, evidenced, (n - 1) as nat);
        let rest = matches_in(w, entry, e, evidenced, (n - 1) as nat);
        let all = matches_in(w, entry, e, evidenced, n);
        assert forall|q: int| 0 <= q < n && can_match(w, e, #[trigger] e.postings@[q], evidenced) implies all.contains((entry, q)) by {
            if q < n - 1 {
                let m = choose|m: int| 0 <= m < rest.len() && rest[m] == (entry, q);
                assert(all[m] == (entry, q));
            } else {
                assert(all[rest.len() as int] == (entry, q));
            }
        }
    }
}

proof fn lemma_all_matches(w: Wanted, entries: Seq<JournalEntry>, evidenced: Seq<i64>, n: nat)
    requires
        n <= entries.len(),
    ensures
        forall|k: int|
            0 <= k < all_matches(w, entries, evidenced, n).len() ==> is_match_at(w, entries, evidenced, #[trigger] all_matches(
                w,
                entries,
                evidenced,
                n,
            )[k]),
        forall|at: (int, int)|
            #[trigger] is_match_at(w, entries, evidenced, at) && at.0 < n ==> all_matches(w, entries, evidenced, n).contains(at),
    decreases n,
{
    if n > 0 {
        lemma_all_matches(w, entries, evidenced, (n - 1) as nat);
        let e = entries[n - 1];
        lemma_matches_in(w, n - 1, e, evidenced, e.postings@.len());
        let rest = all_matches(w, entries, evidenced, (n - 1) as nat);
        let more = matches_in(w, n - 1, e, evidenced, e.postings@.len());
        let all = all_matches(w, entries, evidenced, n);
        assert forall|at: (int, int)| #[trigger] is_match_at(w, entries, evidenced, at) && at.0 < n implies all.contains(at) by {
            if at.0 < n - 1 {
                let m = choose|m: int| 0 <= m < rest.len() && rest[m] == at;
                assert(all[m] == at);
            } else {
                assert(more.contains((n - 1, at.1)));
                let m = choose|m: int| 0 <= m < more.len() && more[m] == (n - 1, at.1);
                assert(all[rest.len() + m] == at);
            }
        }
        assert forall|k: int| 0 <= k < all.len() implies is_match_at(w, entries, evidenced, #[trigger] all[k]) by {
            if k < rest.len() {
                assert(all[k] == rest[k]);
            } else {
                assert(all[k] == more[k - rest.len()]);
            }
        }
    }
}

/// Whether a posting of an entry can match.
pub open spec fn is_match_at(w: Wanted, entries: Seq<JournalEntry>, evidenced: Seq<i64>, at: (int, int)) -> bool {
    0 <= at.0 < entries.len() && 0 <= at.1 < entries[at.0].postings@.len() && can_match(w, entries[at.0], entries[at.0].postings@[at.1], evidenced)
}

/// What is ranked are the postings that can match.
pub proof fn lemma_ranked_within(w: Wanted, entries: Seq<JournalEntry>, evidenced: Seq<i64>, description: Seq<char>, k: int)
    requires
        0 <= k < ranked(w, entries, evidenced, description).len(),
    ensures
        is_match_at(w, entries, evidenced, ranked(w, entries, evidenced, description)[k]),
{
    let all = all_matches(w, entries, evidenced, entries.len());
    let rs = all.map_values(|at: (int, int)| match_rank(w, entries, at, description));
    lemma_all_matches(w, entries, evidenced, entries.len());
    crate::order::law_sorted(rs);
    let q = sorted_places(rs)[k];
    assert(0 <= q < rs.len());
    assert(ranked(w, entries, evidenced, description)[k] == all[q]);
}

/// A line is matched to the best posting: one that can match, and no other that can match is ranked
/// before it. There is none only where no posting can match.
pub proof fn law_best_is_first(w: Wanted, entries: Seq<JournalEntry>, evidenced: Seq<i64>, description: Seq<char>)
    ensures
        match best_of(w, entries, evidenced, description) {
            None => forall|at: (int, int)| !#[trigger] is_match_at(w, entries, evidenced, at),
            Some(id) => {
                let best = ranked(w, entries, evidenced, description)[0];
                &&& is_match_at(w, entries, evidenced, best)
                &&& id == entries[best.0].postings@[best.1].id
                &&& forall|at: (int, int)|
                    #[trigger] is_match_at(w, entries, evidenced, at) ==> !rank_less(
                        match_rank(w, entries, at, description),
                        match_rank(w, entries, best, description),
                    )
            },
        },
{
    let all = all_matches(w, entries, evidenced, entries.len());
    let rs = all.map_values(|at: (int, int)| match_rank(w, entries, at, description));
    let s = sorted_places(rs);
    lemma_all_matches(w, entries, evidenced, entries.len());
    crate::order::law_sorted(rs);
    if s.len() > 0 {
        lemma_ranked_within(w, entries, evidenced, description, 0);
        let best = ranked(w, entries, evidenced, description)[0];
        assert(best == all[s[0]]);
        assert forall|at: (int, int)| #[trigger] is_match_at(w, entries, evidenced, at) implies !rank_less(
            match_rank(w, entries, at, description),
            match_rank(w, entries, best, description),
        ) by {
            assert(all.contains(at));
            let q = choose|q: int| 0 <= q < all.len() && all[q] == at;
            assert(s.contains(q));
            let k = choose|k: int| 0 <= k < s.len() && s[k] == q;
            if k > 0 {
                assert(crate::order::ranked_before(rs, s[0], s[k]));
                crate::order::lemma_rank_order(rs[s[0]], rs[s[k]], rs[s[0]]);
            } else {
                crate::order::lemma_rank_order(rs[q], rs[q], rs[q]);
            }
        }
    } else {
        assert forall|at: (int, int)| !#[trigger] is_match_at(w, entries, evidenced, at) by {
            if is_match_at(w, entries, evidenced, at) {
                assert(all.contains(at));
            }
        }
    }
}

/// The posting that a line is matched to is on the line's account, moves exactly what the line does, lies in
/// the window around its day, and is not yet taken: not reconciled, void, reversing or evidenced. No other
/// posting like that is nearer to the day by two days or more.
pub proof fn law_match_is_near(w: Wanted, entries: Seq<JournalEntry>, evidenced: Seq<i64>, description: Seq<char>)
    ensures
        best_of(w, entries, evidenced, description) matches Some(id) ==> exists|at: (int, int)| #[trigger]
            is_match_at(w, entries, evidenced, at) && {
                let e = entries[at.0];
                let p = e.postings@[at.1];
                &&& p.id == id && p.account_id == w.account_id && p.quantity@.minor == w.amount@.minor
                &&& p.reconciled_at is None && e.status != EntryStatus::Void && e.reverses_id is None && !evidenced.contains(id)
                &&& -w.window_days <= e.date.number() - w.date.number() <= w.window_days
                &&& forall|i: int, k: int|
                    0 <= i < entries.len() && 0 <= k < entries[i].postings@.len() && (#[trigger] entries[i].postings@[k]).account_id == w.account_id
                        && entries[i].postings@[k].quantity@.minor == w.amount@.minor && entries[i].postings@[k].reconciled_at is None
                        && entries[i].status != EntryStatus::Void && entries[i].reverses_id is None && !evidenced.contains(
                        entries[i].postings@[k].id,
                    ) && -w.window_days <= entries[i].date.number() - w.date.number() <= w.window_days ==> distance(e.date, w.date) <= distance(
                        entries[i].date,
                        w.date,
                    ) + 1
            },
        best_of(w, entries, evidenced, description) is None ==> forall|i: int, k: int|
            0 <= i < entries.len() && 0 <= k < entries[i].postings@.len() && (#[trigger] entries[i].postings@[k]).account_id == w.account_id
                && entries[i].postings@[k].quantity@.minor == w.amount@.minor && entries[i].postings@[k].reconciled_at is None
                && entries[i].status != EntryStatus::Void && entries[i].reverses_id is None ==> evidenced.contains(entries[i].postings@[k].id) || !(
            -w.window_days <= entries[i].date.number() - w.date.number() <= w.window_days),
{
    law_best_is_first(w, entries, evidenced, description);
    if let Some(id) = best_of(w, entries, evidenced, description) {
        let best = ranked(w, entries, evidenced, description)[0];
        let e = entries[best.0];
        assert(is_match_at(w, entries, evidenced, best));
        assert forall|i: int, k: int|
            0 <= i < entries.len() && 0 <= k < entries[i].postings@.len() && (#[trigger] entries[i].postings@[k]).account_id == w.account_id
                && entries[i].postings@[k].quantity@.minor == w.amount@.minor && entries[i].postings@[k].reconciled_at is None
                && entries[i].status != EntryStatus::Void && entries[i].reverses_id is None && !evidenced.contains(entries[i].postings@[k].id)
                && -w.window_days <= entries[i].date.number() - w.date.number() <= w.window_days implies distance(e.date, w.date) <= distance(
            entries[i].date,
            w.date,
        ) + 1 by {
            assert(is_match_at(w, entries, evidenced, (i, k)));
            assert(!rank_less(match_rank(w, entries, (i, k), description), match_rank(w, entries, best, description)));
        }
    } else {
        assert forall|i: int, k: int|
            0 <= i < entries.len() && 0 <= k < entries[i].postings@.len() && (#[trigger] entries[i].postings@[k]).account_id == w.account_id
                && entries[i].postings@[k].quantity@.minor == w.amount@.minor && entries[i].postings@[k].reconciled_at is None
                && entries[i].status != EntryStatus::Void && entries[i].reverses_id is None implies evidenced.contains(entries[i].postings@[k].id) || !(
        -w.window_days <= entries[i].date.number() - w.date.number() <= w.window_days) by {
            assert(!is_match_at(w, entries, evidenced, (i, k)));
        }
    }
}

} // verus!
