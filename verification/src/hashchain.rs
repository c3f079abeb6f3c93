//! A per-entity hash chain over posted journal entries.
//!
//! Every posted entry gets a sequence number and the digest of the digest before it and of its
//! canonical text. `verify` checks internal consistency. Comparing against a separately trusted
//! head can detect changes to the accounting content committed there; a head supplied by the same
//! untrusted source cannot independently establish that history was preserved.

use vstd::prelude::*;

use crate::accounts::{find_place, place_of};
use crate::codec::{hex_digit, hex_string, hex_text, json_string, json_text, law_hex_text, law_json_text, sha256, sha256_of};
use crate::date::{iso, iso_text};
use crate::decimal::{decimal_text, normal};
use crate::model::{Account, JournalEntry, Posting};
use crate::order::{lemma_sorted_texts, sort_texts, sorted_texts};
use crate::text::{glue, glued, glued_from, join, joined, own, same, str_texts, texts};

verus! {

/// What the chain commits to of a posting.
pub struct Line {
    pub account: Seq<char>,
    pub amount: Seq<char>,
    pub commodity: Seq<char>,
    pub quantity: Seq<char>,
}

/// What the chain commits to of an entry.
pub struct Content {
    pub uid: Seq<char>,
    pub date: Seq<char>,
    pub payee: Seq<char>,
    pub description: Seq<char>,
    pub lines: Seq<Line>,
}

/// The stable identity of an account, which is empty where there is no such account.
pub open spec fn uid_of(accounts: Seq<Account>, id: i64) -> Seq<char> {
    match place_of(accounts, id) {
        Some(i) => accounts[i].uid@,
        None => Seq::empty(),
    }
}

pub open spec fn line_of(p: Posting, accounts: Seq<Account>) -> Line {
    Line {
        account: uid_of(accounts, p.account_id),
        amount: decimal_text(normal((p.amount@.minor, p.amount@.precision))),
        commodity: p.quantity@.commodity,
        quantity: decimal_text(normal((p.quantity@.minor, p.quantity@.precision))),
    }
}

pub open spec fn content_of(e: JournalEntry, accounts: Seq<Account>) -> Content {
    Content {
        uid: e.uid@,
        date: iso_text(e.date),
        payee: e.payee@,
        description: e.description@,
        lines: e.postings@.map_values(|p: Posting| line_of(p, accounts)),
    }
}

pub open spec fn line_text(l: Line) -> Seq<char> {
    glued(
        seq![
            "{\"account\":"@,
            json_text(l.account),
            ",\"amount\":"@,
            json_text(l.amount),
            ",\"commodity\":"@,
            json_text(l.commodity),
            ",\"quantity\":"@,
            json_text(l.quantity),
            "}"@,
        ],
    )
}

pub open spec fn line_texts(lines: Seq<Line>) -> Seq<Seq<char>> {
    lines.map_values(|l: Line| line_text(l))
}

/// The canonical text of an entry: everything that is accounting content, nothing that is
/// workflow.
#[verifier::opaque]
pub open spec fn content_text(c: Content) -> Seq<char> {
    glued(
        seq![
            "{\"date\":"@,
            json_text(c.date),
            ",\"description\":"@,
            json_text(c.description),
            ",\"payee\":"@,
            json_text(c.payee),
            ",\"postings\":["@,
            joined(sorted_texts(line_texts(c.lines)), ","@),
            "],\"uid\":"@,
            json_text(c.uid),
            "}"@,
        ],
    )
}

/// The digest that follows `prev` for an entry with the canonical text `text`.
pub open spec fn link(prev: Seq<char>, text: Seq<char>) -> Seq<char> {
    hex_text(sha256_of(vstd::utf8::encode_utf8(prev) + seq![10u8] + vstd::utf8::encode_utf8(text)))
}

fn posting_text(p: &Posting, accounts: &[Account]) -> (r: String)
    ensures
        r@ == line_text(line_of(*p, accounts@)),
{
    let account = match find_place(accounts, p.account_id) {
        Some(i) => json_string(accounts[i].uid.as_str()),
        None => json_string(String::new().as_str()),
    };
    let amount = json_string(p.amount.major().text().as_str());
    let commodity = json_string(p.quantity.commodity().as_str());
    let quantity = json_string(p.quantity.major().text().as_str());
    let parts: [&str; 9] = [
        "{\"account\":",
        account.as_str(),
        ",\"amount\":",
        amount.as_str(),
        ",\"commodity\":",
        commodity.as_str(),
        ",\"quantity\":",
        quantity.as_str(),
        "}",
    ];
    let r = glue(&parts);
    proof {
        let l = line_of(*p, accounts@);
        assert(str_texts(parts@) =~= seq![
            "{\"account\":"@,
            json_text(l.account),
            ",\"amount\":"@,
            json_text(l.amount),
            ",\"commodity\":"@,
            json_text(l.commodity),
            ",\"quantity\":"@,
            json_text(l.quantity),
            "}"@,
        ]);
    }
    r
}

pub fn canonical(entry: &JournalEntry, accounts: &[Account]) -> (r: String)
    ensures
        r@ == content_text(content_of(*entry, accounts@)),
{
    let ghost lines = content_of(*entry, accounts@).lines;
    let mut rows: Vec<String> = Vec::new();
    let mut i: usize = 0;
    while i < entry.postings.len()
        invariant
            i <= entry.postings.len(),
            lines == content_of(*entry, accounts@).lines,
            texts(rows@) == line_texts(lines).take(i as int),
        decreases entry.postings.len() - i,
    {
        let row = posting_text(&entry.postings[i], accounts);
        let ghost before = rows@;
        rows.push(row);
        assert(texts(rows@) =~= texts(before).push(row@));
        assert(line_texts(lines).take(i + 1) =~= line_texts(lines).take(i as int).push(row@));
        i = i + 1;
    }
    assert(texts(rows@) =~= line_texts(lines));
    let sorted = sort_texts(&rows);
    let postings = join(&sorted, ",");
    let date = json_string(iso(entry.date).as_str());
    let description = json_string(entry.description.as_str());
    let payee = json_string(entry.payee.as_str());
    let uid = json_string(entry.uid.as_str());
    let parts: [&str; 11] = [
        "{\"date\":",
        date.as_str(),
        ",\"description\":",
        description.as_str(),
        ",\"payee\":",
        payee.as_str(),
        ",\"postings\":[",
        postings.as_str(),
        "],\"uid\":",
        uid.as_str(),
        "}",
    ];
    let r = glue(&parts);
    proof {
        reveal(content_text);
        let c = content_of(*entry, accounts@);
        assert(str_texts(parts@) =~= seq![
            "{\"date\":"@,
            json_text(c.date),
            ",\"description\":"@,
            json_text(c.description),
            ",\"payee\":"@,
            json_text(c.payee),
            ",\"postings\":["@,
            joined(sorted_texts(line_texts(c.lines)), ","@),
            "],\"uid\":"@,
            json_text(c.uid),
            "}"@,
        ]);
    }
    r
}

pub fn digest(prev: &str, canonical: &str) -> (r: String)
    ensures
        r@ == link(prev@, canonical@),
{
    let mut bytes: Vec<u8> = Vec::new();
    bytes.extend_from_slice(prev.as_bytes());
    bytes.push(10);
    bytes.extend_from_slice(canonical.as_bytes());
    assert(bytes@ =~= vstd::utf8::encode_utf8(prev@) + seq![10u8] + vstd::utf8::encode_utf8(canonical@));
    let d = sha256(&bytes);
    hex_string(&d)
}

/// The last link of an entity's chain.
#[derive(Debug)]
pub struct Head {
    pub seq: i64,
    pub hash: String,
}

/// A link of the chain.
#[derive(Debug)]
pub struct Link {
    pub seq: i64,
    pub prev_hash: String,
    pub hash: String,
}

/// The link of a freshly posted entry, which follows `last`.
pub fn append(last: &Option<Head>, entry: &JournalEntry, accounts: &[Account]) -> (r: Link)
    requires
        last matches Some(h) ==> h.seq < i64::MAX,
    ensures
        match *last {
            Some(h) => r.seq == h.seq + 1 && r.prev_hash@ == h.hash@,
            None => r.seq == 1 && r.prev_hash@ == Seq::<char>::empty(),
        },
        r.hash@ == link(r.prev_hash@, content_text(content_of(*entry, accounts@))),
{
    let text = canonical(entry, accounts);
    let (seq, prev): (i64, String) = match last {
        Some(h) => (h.seq + 1, own(h.hash.as_str())),
        None => (1, String::new()),
    };
    let hash = digest(prev.as_str(), text.as_str());
    Link { seq, prev_hash: prev, hash }
}

/// An entry in the place that it has in the chain.
#[derive(Debug)]
pub struct Chained {
    pub seq: i64,
    pub prev_hash: String,
    pub hash: String,
    pub entry: JournalEntry,
}

/// The texts that a run of the chain commits to.
pub open spec fn committed(rows: Seq<Chained>, accounts: Seq<Account>) -> Seq<Seq<char>> {
    rows.map_values(|c: Chained| content_text(content_of(c.entry, accounts)))
}

/// The digest after the first `n` texts of a run that follows `prev`.
pub open spec fn head_after(prev: Seq<char>, committed: Seq<Seq<char>>, n: nat) -> Seq<char>
    decreases n,
{
    if n == 0 {
        prev
    } else {
        link(head_after(prev, committed, (n - 1) as nat), committed[n - 1])
    }
}

/// Whether the link at the place `k` follows those before it.
pub open spec fn link_holds(prev: Seq<char>, rows: Seq<Chained>, accounts: Seq<Account>, k: int) -> bool {
    let c = committed(rows, accounts);
    rows[k].prev_hash@ == head_after(prev, c, k as nat) && rows[k].hash@ == head_after(prev, c, (k + 1) as nat)
}

/// Whether the first `n` links follow `prev` and each other.
pub open spec fn holds_up_to(prev: Seq<char>, rows: Seq<Chained>, accounts: Seq<Account>, n: nat) -> bool {
    forall|k: int| 0 <= k < n ==> #[trigger] link_holds(prev, rows, accounts, k)
}

/// Recomputes the links of a run of entries that follows the digest `prev`, after an allowed
/// edit of a posted entry.
pub fn rechain(prev: &str, rows: &mut Vec<Chained>, accounts: &[Account]) -> (n: usize)
    ensures
        n == old(rows)@.len(),
        final(rows)@.len() == old(rows)@.len(),
        forall|k: int| 0 <= k < old(rows)@.len() ==> (#[trigger] final(rows)@[k]).seq == old(rows)@[k].seq && final(rows)@[k].entry
            == old(rows)@[k].entry,
        holds_up_to(prev@, final(rows)@, accounts@, final(rows)@.len()),
{
    let ghost first = rows@;
    let ghost c = committed(first, accounts@);
    let mut last = own(prev);
    let mut i: usize = 0;
    while i < rows.len()
        invariant
            i <= rows.len() == first.len(),
            c == committed(first, accounts@),
            last@ == head_after(prev@, c, i as nat),
            forall|k: int| 0 <= k < first.len() ==> (#[trigger] rows@[k]).seq == first[k].seq && rows@[k].entry == first[k].entry,
            forall|k: int| 0 <= k < i ==> (#[trigger] rows@[k]).prev_hash@ == head_after(prev@, c, k as nat) && rows@[k].hash@
                == head_after(prev@, c, (k + 1) as nat),
        decreases rows.len() - i,
    {
        let text = canonical(&rows[i].entry, accounts);
        let hash = digest(last.as_str(), text.as_str());
        assert(text@ == c[i as int]);
        assert(hash@ == head_after(prev@, c, (i + 1) as nat));
        let next = own(hash.as_str());
        rows[i].prev_hash = last;
        rows[i].hash = hash;
        last = next;
        i = i + 1;
    }
    assert(committed(rows@, accounts@) =~= c);
    assert forall|k: int| 0 <= k < rows@.len() implies #[trigger] link_holds(prev@, rows@, accounts@, k) by {
        assert(rows@[k].prev_hash@ == head_after(prev@, c, k as nat));
    }
    i
}

#[derive(Debug)]
pub struct VerifyReport {
    pub entity_id: i64,
    pub checked: usize,
    pub head: Option<String>,
    pub first_bad_seq: Option<i64>,
    pub first_bad_entry_id: Option<i64>,
}

/// What checking a chain reports: how many links hold from the first on, the digest after them,
/// and the first link that does not.
pub open spec fn reports(r: VerifyReport, entity_id: i64, rows: Seq<Chained>, accounts: Seq<Account>) -> bool {
    let c = committed(rows, accounts);
    let n = r.checked as nat;
    &&& r.entity_id == entity_id
    &&& n <= rows.len()
    &&& holds_up_to(Seq::empty(), rows, accounts, n)
    &&& match r.head {
        Some(h) => n > 0 && h@ == head_after(Seq::empty(), c, n),
        None => n == 0,
    }
    &&& if n == rows.len() {
        r.first_bad_seq is None && r.first_bad_entry_id is None
    } else {
        &&& r.first_bad_seq == Some(rows[n as int].seq)
        &&& r.first_bad_entry_id == Some(rows[n as int].entry.id)
        &&& !holds_up_to(Seq::empty(), rows, accounts, n + 1)
    }
}

/// Checks the chain of an entity, whose entries stand in the order of their numbers.
pub fn verify(entity_id: i64, rows: &[Chained], accounts: &[Account]) -> (r: VerifyReport)
    ensures
        reports(r, entity_id, rows@, accounts@),
{
    let ghost c = committed(rows@, accounts@);
    let ghost none = Seq::<char>::empty();
    let mut prev: String = String::new();
    let mut i: usize = 0;
    while i < rows.len()
        invariant
            i <= rows.len(),
            c == committed(rows@, accounts@),
            none == Seq::<char>::empty(),
            prev@ == head_after(none, c, i as nat),
            holds_up_to(none, rows@, accounts@, i as nat),
        decreases rows.len() - i,
    {
        let text = canonical(&rows[i].entry, accounts);
        let expected = digest(prev.as_str(), text.as_str());
        assert(text@ == c[i as int]);
        assert(expected@ == head_after(none, c, (i + 1) as nat));
        assert(link_holds(none, rows@, accounts@, i as int) == (rows@[i as int].prev_hash@ == prev@ && rows@[i as int].hash@
            == expected@));
        if !same(rows[i].prev_hash.as_str(), prev.as_str()) || !same(rows[i].hash.as_str(), expected.as_str()) {
            let head = if i > 0 {
                Some(prev)
            } else {
                None
            };
            return VerifyReport {
                entity_id,
                checked: i,
                head,
                first_bad_seq: Some(rows[i].seq),
                first_bad_entry_id: Some(rows[i].entry.id),
            };
        }
        prev = expected;
        i = i + 1;
    }
    let head = if i > 0 {
        Some(prev)
    } else {
        None
    };
    VerifyReport { entity_id, checked: i, head, first_bad_seq: None, first_bad_entry_id: None }
}

/// A chain whose links were recomputed from its start is found sound to its end.
pub proof fn law_rechained_verifies(r: VerifyReport, entity_id: i64, rows: Seq<Chained>, accounts: Seq<Account>)
    requires
        holds_up_to(Seq::empty(), rows, accounts, rows.len()),
        reports(r, entity_id, rows, accounts),
    ensures
        r.checked == rows.len(),
        r.first_bad_seq is None,
        r.first_bad_entry_id is None,
{
    let n = r.checked as nat;
    if n < rows.len() {
        assert(holds_up_to(Seq::empty(), rows, accounts, n + 1));
    }
}

/// Appending the next entry to a sound chain keeps it sound.
pub proof fn law_append_keeps(rows: Seq<Chained>, last: Option<Head>, next: Link, entry: JournalEntry, accounts: Seq<Account>)
    requires
        holds_up_to(Seq::empty(), rows, accounts, rows.len()),
        match last {
            Some(h) => rows.len() > 0 && h.hash@ == rows.last().hash@ && next.prev_hash@ == h.hash@,
            None => rows.len() == 0 && next.prev_hash@ == Seq::<char>::empty(),
        },
        next.hash@ == link(next.prev_hash@, content_text(content_of(entry, accounts))),
    ensures
        ({
            let more = rows.push(Chained { seq: next.seq, prev_hash: next.prev_hash, hash: next.hash, entry });
            holds_up_to(Seq::empty(), more, accounts, more.len())
        }),
{
    let more = rows.push(Chained { seq: next.seq, prev_hash: next.prev_hash, hash: next.hash, entry });
    let (c, d) = (committed(rows, accounts), committed(more, accounts));
    let none = Seq::<char>::empty();
    assert(d =~= c.push(content_text(content_of(entry, accounts))));
    assert forall|k: nat| k <= rows.len() implies head_after(none, c, k) == #[trigger] head_after(none, d, k) by {
        lemma_head_prefix(none, c, d, k);
    }
    assert forall|k: int| 0 <= k < more.len() implies #[trigger] link_holds(none, more, accounts, k) by {
        assert(head_after(none, c, k as nat) == head_after(none, d, k as nat));
        if k < rows.len() {
            assert(more[k] == rows[k]);
            assert(link_holds(none, rows, accounts, k));
            assert(head_after(none, c, (k + 1) as nat) == head_after(none, d, (k + 1) as nat));
        } else {
            assert(d[k] == content_text(content_of(entry, accounts)));
            if k > 0 {
                assert(link_holds(none, rows, accounts, k - 1));
            }
        }
    }
}

proof fn lemma_head_prefix(prev: Seq<char>, a: Seq<Seq<char>>, b: Seq<Seq<char>>, n: nat)
    requires
        n <= a.len(),
        n <= b.len(),
        forall|k: int| 0 <= k < n ==> a[k] == b[k],
    ensures
        head_after(prev, a, n) == head_after(prev, b, n),
    decreases n,
{
    if n > 0 {
        lemma_head_prefix(prev, a, b, (n - 1) as nat);
    }
}

/// What comes after a JSON string that is written between `before` and `after`.
proof fn lemma_field(before: Seq<char>, a: Seq<char>, b: Seq<char>, x: Seq<char>, y: Seq<char>)
    requires
        before + (json_text(a) + x) == before + (json_text(b) + y),
    ensures
        a == b,
        x == y,
{
    assert((before + (json_text(a) + x)).skip(before.len() as int) =~= json_text(a) + x);
    assert((before + (json_text(b) + y)).skip(before.len() as int) =~= json_text(b) + y);
    law_json_text(a, b, x, y);
}

/// The text of a line tells the line, and where it ends.
pub proof fn law_line_text(a: Line, b: Line, x: Seq<char>, y: Seq<char>)
    requires
        line_text(a) + x == line_text(b) + y,
    ensures
        a == b,
        x == y,
{
    lemma_line_text(a, x);
    lemma_line_text(b, y);
    let f = |l: Line, t: Seq<char>| json_text(l.quantity) + ("}"@ + t);
    let g = |l: Line, t: Seq<char>| json_text(l.commodity) + (",\"quantity\":"@ + f(l, t));
    let h = |l: Line, t: Seq<char>| json_text(l.amount) + (",\"commodity\":"@ + g(l, t));
    lemma_field("{\"account\":"@, a.account, b.account, ",\"amount\":"@ + h(a, x), ",\"amount\":"@ + h(b, y));
    lemma_field(",\"amount\":"@, a.amount, b.amount, ",\"commodity\":"@ + g(a, x), ",\"commodity\":"@ + g(b, y));
    lemma_field(",\"commodity\":"@, a.commodity, b.commodity, ",\"quantity\":"@ + f(a, x), ",\"quantity\":"@ + f(b, y));
    lemma_field(",\"quantity\":"@, a.quantity, b.quantity, "}"@ + x, "}"@ + y);
    assert(x =~= ("}"@ + x).skip("}"@.len() as int));
    assert(y =~= ("}"@ + y).skip("}"@.len() as int));
}

proof fn lemma_line_text(l: Line, t: Seq<char>)
    ensures
        line_text(l) + t == "{\"account\":"@ + (json_text(l.account) + (",\"amount\":"@ + (json_text(l.amount) + (",\"commodity\":"@
            + (json_text(l.commodity) + (",\"quantity\":"@ + (json_text(l.quantity) + ("}"@ + t)))))))),
{
    reveal_with_fuel(glued_from, 11);
    assert(line_text(l) + t =~= "{\"account\":"@ + (json_text(l.account) + (",\"amount\":"@ + (json_text(l.amount) + (
    ",\"commodity\":"@ + (json_text(l.commodity) + (",\"quantity\":"@ + (json_text(l.quantity) + ("}"@ + t)))))))));
}

/// Whether every text is that of a line.
spec fn all_lines(s: Seq<Seq<char>>) -> bool {
    forall|k: int| 0 <= k < s.len() ==> exists|l: Line| #[trigger] s[k] == line_text(l)
}

proof fn lemma_joined_lines(s: Seq<Seq<char>>, t: Seq<Seq<char>>, x: Seq<char>, y: Seq<char>)
    requires
        all_lines(s),
        all_lines(t),
        joined(s, ","@) + (seq![']'] + x) == joined(t, ","@) + (seq![']'] + y),
    ensures
        s == t,
        x == y,
    decreases s.len(),
{
    reveal_strlit(",");
    let (l, r) = (joined(s, ","@) + (seq![']'] + x), joined(t, ","@) + (seq![']'] + y));
    assert(l[0] == r[0]);
    if s.len() == 0 && t.len() == 0 {
        assert(x =~= l.skip(1));
        assert(y =~= r.skip(1));
        assert(s =~= t);
    } else if s.len() == 0 {
        lemma_line_start(t, seq![']'] + y);
    } else if t.len() == 0 {
        lemma_line_start(s, seq![']'] + x);
    } else {
        let a = choose|a: Line| s[0] == line_text(a);
        let b = choose|b: Line| t[0] == line_text(b);
        let u = if s.len() == 1 {
            seq![']'] + x
        } else {
            ","@ + (joined(s.skip(1), ","@) + (seq![']'] + x))
        };
        let v = if t.len() == 1 {
            seq![']'] + y
        } else {
            ","@ + (joined(t.skip(1), ","@) + (seq![']'] + y))
        };
        assert(l =~= line_text(a) + u);
        assert(r =~= line_text(b) + v);
        law_line_text(a, b, u, v);
        assert(u[0] == v[0]);
        assert(s =~= seq![s[0]] + s.skip(1));
        assert(t =~= seq![t[0]] + t.skip(1));
        if s.len() == 1 {
            assert(u[0] == ']');
            assert(t.len() == 1);
            assert(x =~= u.skip(1));
            assert(y =~= v.skip(1));
            assert(s =~= t);
        } else {
            assert(u[0] == ',');
            assert(t.len() > 1);
            assert(u.skip(1) =~= joined(s.skip(1), ","@) + (seq![']'] + x));
            assert(v.skip(1) =~= joined(t.skip(1), ","@) + (seq![']'] + y));
            lemma_joined_lines(s.skip(1), t.skip(1), x, y);
        }
    }
}

/// What is joined of lines starts with a brace.
proof fn lemma_line_start(s: Seq<Seq<char>>, x: Seq<char>)
    requires
        all_lines(s),
        s.len() > 0,
    ensures
        (joined(s, ","@) + x)[0] == '{',
{
    reveal_strlit("{\"account\":");
    let a = choose|a: Line| s[0] == line_text(a);
    lemma_line_text(a, Seq::empty());
    assert(line_text(a) + Seq::<char>::empty() =~= line_text(a));
    assert(line_text(a)[0] == '{');
    assert(joined(s, ","@)[0] == '{');
}

proof fn lemma_line_count(lines: Seq<Line>, l: Line)
    ensures
        lines.to_multiset().count(l) == line_texts(lines).to_multiset().count(line_text(l)),
    decreases lines.len(),
{
    broadcast use vstd::seq_lib::group_to_multiset_ensures;

    if lines.len() > 0 {
        let (last, rest) = (lines.last(), lines.drop_last());
        lemma_line_count(rest, l);
        assert(lines =~= rest.push(last));
        assert(line_texts(lines) =~= line_texts(rest).push(line_text(last)));
        if line_text(last) == line_text(l) {
            law_line_text(last, l, Seq::empty(), Seq::empty());
        }
    }
}

proof fn lemma_sorted_lines(lines: Seq<Line>)
    ensures
        all_lines(sorted_texts(line_texts(lines))),
{
    broadcast use vstd::seq_lib::group_to_multiset_ensures;

    let (s, t) = (sorted_texts(line_texts(lines)), line_texts(lines));
    lemma_sorted_texts(t);
    assert forall|k: int| 0 <= k < s.len() implies exists|l: Line| #[trigger] s[k] == line_text(l) by {
        assert(s.contains(s[k]));
        assert(s.to_multiset().contains(s[k]));
        assert(t.to_multiset().contains(s[k]));
        assert(t.contains(s[k]));
        let j = choose|j: int| 0 <= j < t.len() && t[j] == s[k];
        assert(s[k] == line_text(lines[j]));
    }
}

/// The canonical text tells the accounting content of an entry, apart from the order of its
/// lines: two entries with the same text have the same identity, date, payee and description, and
/// the same lines, each as often.
pub proof fn law_canonical_commits(a: Content, b: Content)
    requires
        content_text(a) == content_text(b),
    ensures
        a.uid == b.uid,
        a.date == b.date,
        a.payee == b.payee,
        a.description == b.description,
        a.lines.to_multiset() == b.lines.to_multiset(),
{
    lemma_content_text(a);
    lemma_content_text(b);
    let f = |c: Content| json_text(c.uid) + "}"@;
    let (s, t) = (sorted_texts(line_texts(a.lines)), sorted_texts(line_texts(b.lines)));
    let g = |c: Content| joined(sorted_texts(line_texts(c.lines)), ","@) + ("],\"uid\":"@ + f(c));
    let h = |c: Content| json_text(c.payee) + (",\"postings\":["@ + g(c));
    let i = |c: Content| json_text(c.description) + (",\"payee\":"@ + h(c));
    lemma_field("{\"date\":"@, a.date, b.date, ",\"description\":"@ + i(a), ",\"description\":"@ + i(b));
    lemma_field(",\"description\":"@, a.description, b.description, ",\"payee\":"@ + h(a), ",\"payee\":"@ + h(b));
    lemma_field(",\"payee\":"@, a.payee, b.payee, ",\"postings\":["@ + g(a), ",\"postings\":["@ + g(b));
    let p = ",\"postings\":["@;
    assert((p + g(a)).skip(p.len() as int) =~= g(a));
    assert((p + g(b)).skip(p.len() as int) =~= g(b));
    reveal_strlit("],\"uid\":");
    let q = "],\"uid\":"@.skip(1);
    assert("],\"uid\":"@ =~= seq![']'] + q);
    assert("],\"uid\":"@ + f(a) =~= seq![']'] + (q + f(a)));
    assert("],\"uid\":"@ + f(b) =~= seq![']'] + (q + f(b)));
    lemma_sorted_lines(a.lines);
    lemma_sorted_lines(b.lines);
    lemma_joined_lines(s, t, q + f(a), q + f(b));
    lemma_field(q, a.uid, b.uid, "}"@, "}"@);
    lemma_sorted_texts(line_texts(a.lines));
    lemma_sorted_texts(line_texts(b.lines));
    assert forall|l: Line| a.lines.to_multiset().count(l) == b.lines.to_multiset().count(l) by {
        lemma_line_count(a.lines, l);
        lemma_line_count(b.lines, l);
    }
    assert(a.lines.to_multiset() =~= b.lines.to_multiset());
}

proof fn lemma_content_text(c: Content)
    ensures
        content_text(c) == "{\"date\":"@ + (json_text(c.date) + (",\"description\":"@ + (json_text(c.description) + (",\"payee\":"@
            + (json_text(c.payee) + (",\"postings\":["@ + (joined(sorted_texts(line_texts(c.lines)), ","@) + ("],\"uid\":"@
            + (json_text(c.uid) + "}"@))))))))),
{
    reveal(content_text);
    reveal_with_fuel(glued_from, 13);
    assert("}"@ + Seq::<char>::empty() =~= "}"@);
}

/// Whether two different strings of bytes have the same digest.
pub open spec fn collision() -> bool {
    exists|x: Seq<u8>, y: Seq<u8>| x != y && #[trigger] sha256_of(x) == #[trigger] sha256_of(y)
}

proof fn lemma_hex_ascii(b: Seq<u8>)
    ensures
        vstd::utf8::is_ascii_chars(hex_text(b)),
        forall|k: int| 0 <= k < hex_text(b).len() ==> (#[trigger] hex_text(b)[k]) as int >= 48,
    decreases b.len(),
{
    if b.len() > 0 {
        lemma_hex_ascii(b.drop_last());
        let (h, l) = (hex_digit(b.last() as int / 16), hex_digit(b.last() as int % 16));
        assert(48 <= h as int <= 102 && 48 <= l as int <= 102);
    }
}

/// The bytes of a digest hold no line feed.
proof fn lemma_head_bytes(prev: Seq<char>, committed: Seq<Seq<char>>, n: nat)
    requires
        prev == Seq::<char>::empty(),
    ensures
        forall|k: int| 0 <= k < vstd::utf8::encode_utf8(head_after(prev, committed, n)).len() ==> #[trigger] vstd::utf8::encode_utf8(
            head_after(prev, committed, n),
        )[k] != 10,
{
    let h = head_after(prev, committed, n);
    if n == 0 {
        assert(vstd::utf8::encode_utf8(h).len() == 0);
    } else {
        let before = head_after(prev, committed, (n - 1) as nat);
        lemma_hex_ascii(sha256_of(vstd::utf8::encode_utf8(before) + seq![10u8] + vstd::utf8::encode_utf8(committed[n - 1])));
        vstd::utf8::is_ascii_chars_encode_utf8(h);
        assert forall|k: int| 0 <= k < vstd::utf8::encode_utf8(h).len() implies #[trigger] vstd::utf8::encode_utf8(h)[k] != 10 by {
            assert(h[k] as int >= 48);
            assert(h[k] as int <= 127);
        }
    }
}

/// A line feed parts two strings of bytes, where the first holds none.
proof fn lemma_parted(a: Seq<u8>, b: Seq<u8>, x: Seq<u8>, y: Seq<u8>)
    requires
        a + seq![10u8] + x == b + seq![10u8] + y,
        forall|k: int| 0 <= k < a.len() ==> #[trigger] a[k] != 10,
        forall|k: int| 0 <= k < b.len() ==> #[trigger] b[k] != 10,
    ensures
        a == b,
        x == y,
{
    let (l, r) = (a + seq![10u8] + x, b + seq![10u8] + y);
    assert(l[a.len() as int] == 10);
    assert(r[b.len() as int] == 10);
    if a.len() < b.len() {
        assert(r[a.len() as int] == b[a.len() as int]);
    } else if b.len() < a.len() {
        assert(l[b.len() as int] == a[b.len() as int]);
    }
    assert(a =~= l.take(a.len() as int));
    assert(b =~= r.take(b.len() as int));
    assert(x =~= l.skip(a.len() as int + 1));
    assert(y =~= r.skip(b.len() as int + 1));
}

/// The head of a chain commits to every text in it: two chains of one length and with one head
/// hold the same texts, unless SHA-256 gives two strings of bytes the same digest.
pub proof fn law_head_commits(a: Seq<Seq<char>>, b: Seq<Seq<char>>)
    requires
        a.len() == b.len(),
        head_after(Seq::empty(), a, a.len()) == head_after(Seq::empty(), b, b.len()),
    ensures
        a == b || collision(),
{
    lemma_head_commits(a, b, a.len());
    if !collision() {
        assert(a =~= b);
    }
}

proof fn lemma_head_commits(a: Seq<Seq<char>>, b: Seq<Seq<char>>, n: nat)
    requires
        n <= a.len(),
        n <= b.len(),
        head_after(Seq::empty(), a, n) == head_after(Seq::empty(), b, n),
    ensures
        collision() || forall|k: int| 0 <= k < n ==> #[trigger] a[k] == b[k],
    decreases n,
{
    if n > 0 {
        let none = Seq::<char>::empty();
        let m = (n - 1) as nat;
        let (p, q) = (head_after(none, a, m), head_after(none, b, m));
        let (s, t) = (a[m as int], b[m as int]);
        let x = vstd::utf8::encode_utf8(p) + seq![10u8] + vstd::utf8::encode_utf8(s);
        let y = vstd::utf8::encode_utf8(q) + seq![10u8] + vstd::utf8::encode_utf8(t);
        law_hex_text(sha256_of(x), sha256_of(y));
        if x == y {
            lemma_head_bytes(none, a, m);
            lemma_head_bytes(none, b, m);
            lemma_parted(
                vstd::utf8::encode_utf8(p),
                vstd::utf8::encode_utf8(q),
                vstd::utf8::encode_utf8(s),
                vstd::utf8::encode_utf8(t),
            );
            vstd::utf8::encode_utf8_decode_utf8(p);
            vstd::utf8::encode_utf8_decode_utf8(q);
            vstd::utf8::encode_utf8_decode_utf8(s);
            vstd::utf8::encode_utf8_decode_utf8(t);
            lemma_head_commits(a, b, m);
        } else {
            assert(collision());
        }
    }
}

} // verus!
