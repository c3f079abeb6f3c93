//! Parsed records as statement lines of an account.

use vstd::prelude::*;

use crate::codec::{hex_string, hex_text, json_text, sha256, sha256_of};
use crate::date::{iso, iso_text, Date};
use crate::decimal::{decimal_text, distance, normal, pow10, value, view_of, Decimal, Num};
use crate::error::{Refusal, Result};
use crate::imports::{fields, fields_with, put_field, shown_lines, ParsedLine, ShownLine};
use crate::model::{meta_copy, Account, MetaValue, StatementLine};
use crate::money::{amount_of_major, in_major, law_amount_of_major, plain, Amount, Money};
use crate::text::{cat4, cat5, int_string, int_text, nat_string, nat_text, own, same, single_space, single_spaced, to_lowercase, trim, trimmed, lowercase_of};

verus! {

/// The SHA-256 of a file, in hexadecimal digits.
pub fn checksum(content: &[u8]) -> (r: String)
    ensures
        r@ == hex_text(sha256_of(content@)),
{
    hex_string(&sha256(content))
}

/// A description as it is compared.
pub open spec fn plain_words(s: Seq<char>) -> Seq<char> {
    single_spaced(lowercase_of(s))
}

pub fn normalize_desc(s: &str) -> (r: String)
    ensures
        r@ == plain_words(s@),
{
    single_space(to_lowercase(s).as_str())
}

/// What a fingerprint is taken of.
pub open spec fn print_text(account_id: int, date: Date, amount: Num, description: Seq<char>, nth: nat) -> Seq<char> {
    int_text(account_id) + "|"@ + iso_text(date) + "|"@ + decimal_text(normal(amount)) + "|"@ + plain_words(description) + "|"@ + nat_text(nth)
}

/// What tells a movement from others on its account where it has no reference: its day, its amount,
/// its description, and which of those that agree in all three it is.
pub open spec fn print_of(account_id: int, date: Date, amount: Num, description: Seq<char>, nth: nat) -> Seq<char> {
    hex_text(sha256_of(vstd::utf8::encode_utf8(print_text(account_id, date, amount, description, nth))).take(16))
}

pub fn fingerprint(account_id: i64, date: Date, amount: Decimal, description: &str, nth: usize) -> (r: String)
    ensures
        r@ == print_of(account_id as int, date, amount@, description@, nth as nat),
{
    let a = cat5(int_string(account_id).as_str(), "|", iso(date).as_str(), "|", plain(amount).as_str());
    let b = cat5(a.as_str(), "|", normalize_desc(description).as_str(), "|", nat_string(nth as u128).as_str());
    let h = sha256(b.as_str().as_bytes());
    let mut half: Vec<u8> = Vec::new();
    let mut i: usize = 0;
    while i < 16
        invariant
            i <= 16,
            h@.len() == 32,
            half@ == h@.take(i as int),
        decreases 16 - i,
    {
        half.push(h[i]);
        i = i + 1;
        assert(half@ =~= h@.take(i as int));
    }
    hex_string(&half)
}

pub open spec fn opt_amount(m: Option<Money>) -> Option<Amount> {
    match m {
        Some(v) => Some(v@),
        None => None,
    }
}

#[verifier::ext_equal]
pub struct ShownStatement {
    pub id: i64,
    pub import_id: i64,
    pub account_id: Option<i64>,
    pub position: int,
    pub raw: Seq<(Seq<char>, Seq<char>)>,
    pub date: Option<Date>,
    pub amount: Option<Amount>,
    pub currency: Seq<char>,
    pub description: Seq<char>,
    pub reference: Seq<char>,
    pub balance_after: Option<Amount>,
    pub fingerprint: Seq<char>,
    pub posting_id: Option<i64>,
    pub journal_entry_id: Option<i64>,
    pub duplicate_of_id: Option<i64>,
    pub status: Seq<char>,
    pub note: Seq<char>,
}

impl View for StatementLine {
    type V = ShownStatement;

    open spec fn view(&self) -> ShownStatement {
        ShownStatement {
            id: self.id,
            import_id: self.import_id,
            account_id: self.account_id,
            position: self.position as int,
            raw: fields(self.raw@),
            date: self.date,
            amount: opt_amount(self.amount),
            currency: self.currency@,
            description: self.description@,
            reference: self.reference@,
            balance_after: opt_amount(self.balance_after),
            fingerprint: self.fingerprint@,
            posting_id: self.posting_id,
            journal_entry_id: self.journal_entry_id,
            duplicate_of_id: self.duplicate_of_id,
            status: self.status@,
            note: self.note@,
        }
    }
}

pub open spec fn shown_statements(v: Seq<StatementLine>) -> Seq<ShownStatement> {
    v.map_values(|l: StatementLine| l@)
}

/// The statement line of a record before an account supplies a unit for its amounts.
pub open spec fn untyped(l: ShownLine, i: int) -> ShownStatement {
    ShownStatement {
        id: 0,
        import_id: 0,
        account_id: None,
        position: i + 1,
        raw: l.raw,
        date: l.date,
        amount: None,
        currency: l.currency,
        description: l.description,
        reference: trimmed(l.reference),
        balance_after: None,
        fingerprint: Seq::empty(),
        posting_id: None,
        journal_entry_id: None,
        duplicate_of_id: None,
        status: if l.skip is Some {
            "skipped"@
        } else {
            "unmatched"@
        },
        note: match l.skip {
            Some(reason) => reason,
            None => Seq::empty(),
        },
    }
}

pub fn untyped_line(l: &ParsedLine, i: usize) -> (r: StatementLine)
    requires
        i < 2147483647,
    ensures
        r@ == untyped(l@, i as int),
{
    let r = StatementLine {
        id: 0,
        import_id: 0,
        account_id: None,
        position: i as i32 + 1,
        raw: meta_copy(&l.raw),
        date: l.date,
        amount: None,
        currency: own(l.currency.as_str()),
        description: own(l.description.as_str()),
        reference: trim(l.reference.as_str()),
        balance_after: None,
        fingerprint: String::new(),
        posting_id: None,
        journal_entry_id: None,
        duplicate_of_id: None,
        status: if l.skip.is_some() {
            own("skipped")
        } else {
            own("unmatched")
        },
        note: match &l.skip {
            Some(reason) => own(reason.as_str()),
            None => String::new(),
        },
    };
    assert(r@ =~= untyped(l@, i as int));
    r
}

/// The lines of a file that no account was chosen for: the screen shows headers and sample lines
/// before.
pub fn preview_lines(lines: &Vec<ParsedLine>) -> (r: Vec<StatementLine>)
    requires
        lines@.len() < 2147483647,
    ensures
        shown_statements(r@) == Seq::new(lines@.len(), |i: int| untyped(lines@[i]@, i)),
{
    let mut r: Vec<StatementLine> = Vec::new();
    let mut i: usize = 0;
    while i < lines.len()
        invariant
            i <= lines.len(),
            lines@.len() < 2147483647,
            shown_statements(r@) =~= Seq::new(i as nat, |k: int| untyped(lines@[k]@, k)),
        decreases lines.len() - i,
    {
        let ghost before = shown_statements(r@);
        let l = untyped_line(&lines[i], i);
        let ghost shown = l@;
        r.push(l);
        assert(shown_statements(r@) =~= before.push(shown));
        i = i + 1;
    }
    assert(shown_statements(r@) =~= Seq::new(lines@.len(), |i: int| untyped(lines@[i]@, i)));
    r
}

/// What lines are told apart by where their references do not.
pub open spec fn key_of(l: ShownStatement) -> Option<(Date, Seq<char>, Seq<char>)> {
    match (l.date, l.amount) {
        (Some(d), Some(a)) => Some((d, decimal_text(normal(normal((a.minor, a.precision)))), plain_words(l.description))),
        _ => None,
    }
}

/// How many of the first `n` lines have a key.
pub open spec fn as_key(ls: Seq<ShownStatement>, key: Option<(Date, Seq<char>, Seq<char>)>, n: nat) -> nat
    decreases n,
{
    if n == 0 {
        0
    } else {
        as_key(ls, key, (n - 1) as nat) + if key_of(ls[n - 1]) == key {
            1nat
        } else {
            0
        }
    }
}

pub open spec fn money_in(n: Option<Num>, commodity: Seq<char>, precision: u32) -> std::result::Result<Option<Amount>, Refusal> {
    match n {
        None => Ok(None),
        Some(v) => match amount_of_major(v, commodity, precision as int) {
            Ok(a) => Ok(Some(a)),
            Err(e) => Err(e),
        },
    }
}

pub fn money_of(n: Option<Decimal>, commodity: &str, precision: u32) -> (r: Result<Option<Money>>)
    ensures
        match r {
            Ok(m) => money_in(view_of(n), commodity@, precision) == Ok::<Option<Amount>, Refusal>(opt_amount(m)),
            Err(e) => money_in(view_of(n), commodity@, precision) == Err::<Option<Amount>, Refusal>(e@),
        },
{
    match n {
        None => Ok(None),
        Some(v) => match Money::from_major(v, commodity, precision) {
            Ok(m) => Ok(Some(m)),
            Err(e) => Err(e),
        },
    }
}

/// The amount in another currency, as a field.
pub open spec fn with_original(raw: Seq<(Seq<char>, Seq<char>)>, original: Option<(Num, Seq<char>)>) -> Seq<(Seq<char>, Seq<char>)> {
    match original {
        None => raw,
        Some((n, c)) => fields_with(
            raw,
            "_original"@,
            "{\"commodity\":"@ + json_text(c) + ",\"quantity\":"@ + json_text(decimal_text(normal(n))) + "}"@,
        ),
    }
}

/// The statement line of the `i`-th record on an account, after the lines of those before it. A
/// line in another currency than the account's is left out.
pub open spec fn typed(l: ShownLine, a: Account, i: int, before: Seq<ShownStatement>) -> std::result::Result<ShownStatement, Refusal> {
    match money_in(l.amount, a.commodity@, a.precision) {
        Err(e) => Err(e),
        Ok(amount) => match money_in(l.balance_after, a.commodity@, a.precision) {
            Err(e) => Err(e),
            Ok(balance_after) => {
                let foreign = l.skip is None && l.currency.len() > 0 && l.currency != a.commodity@;
                let line = ShownStatement {
                    account_id: Some(a.id),
                    raw: with_original(l.raw, l.original),
                    amount,
                    currency: if l.currency.len() == 0 {
                        a.commodity@
                    } else {
                        l.currency
                    },
                    balance_after,
                    status: if l.skip is Some || foreign {
                        "skipped"@
                    } else {
                        "unmatched"@
                    },
                    note: if foreign {
                        l.currency + " line in a "@ + a.commodity@ + " account"@
                    } else {
                        match l.skip {
                            Some(reason) => reason,
                            None => Seq::empty(),
                        }
                    },
                    ..untyped(l, i)
                };
                Ok(
                    match (line.date, amount) {
                        (Some(d), Some(m)) => ShownStatement {
                            fingerprint: print_of(
                                a.id as int,
                                d,
                                normal((m.minor, m.precision)),
                                line.description,
                                as_key(before, key_of(line), before.len()),
                            ),
                            ..line
                        },
                        _ => line,
                    },
                )
            },
        },
    }
}

struct Seen {
    date: Date,
    amount: String,
    description: String,
}

spec fn seen_key(s: Seen) -> Option<(Date, Seq<char>, Seq<char>)> {
    Some((s.date, s.amount@, s.description@))
}

/// How many of the first `n` keys are a key.
spec fn count_seen(v: Seq<Seen>, key: Option<(Date, Seq<char>, Seq<char>)>, n: nat) -> nat
    decreases n,
{
    if n == 0 {
        0
    } else {
        count_seen(v, key, (n - 1) as nat) + if seen_key(v[n - 1]) == key {
            1nat
        } else {
            0
        }
    }
}

proof fn lemma_seen_prefix(v: Seq<Seen>, s: Seen, key: Option<(Date, Seq<char>, Seq<char>)>, n: nat)
    requires
        n <= v.len(),
    ensures
        count_seen(v.push(s), key, n) == count_seen(v, key, n),
    decreases n,
{
    if n > 0 {
        lemma_seen_prefix(v, s, key, (n - 1) as nat);
    }
}

proof fn lemma_key_prefix(v: Seq<ShownStatement>, l: ShownStatement, key: Option<(Date, Seq<char>, Seq<char>)>, n: nat)
    requires
        n <= v.len(),
    ensures
        as_key(v.push(l), key, n) == as_key(v, key, n),
    decreases n,
{
    if n > 0 {
        lemma_key_prefix(v, l, key, (n - 1) as nat);
    }
}

fn times_seen(v: &Vec<Seen>, s: &Seen) -> (r: usize)
    ensures
        r == count_seen(v@, seen_key(*s), v@.len()),
        r <= v@.len(),
{
    let mut n: usize = 0;
    let mut i: usize = 0;
    while i < v.len()
        invariant
            i <= v.len(),
            n == count_seen(v@, seen_key(*s), i as nat),
            n <= i,
        decreases v.len() - i,
    {
        if v[i].date.same(s.date) && same(v[i].amount.as_str(), s.amount.as_str()) && same(v[i].description.as_str(), s.description.as_str()) {
            n = n + 1;
        }
        i = i + 1;
    }
    n
}

fn base_line(l: &ParsedLine, a: &Account, i: usize) -> (r: Result<StatementLine>)
    requires
        i < 2147483647,
    ensures
        match r {
            Ok(s) => typed(l@, *a, i as int, Seq::empty()) is Ok && s@ == (ShownStatement {
                fingerprint: Seq::empty(),
                ..typed(l@, *a, i as int, Seq::empty())->Ok_0
            }),
            Err(e) => typed(l@, *a, i as int, Seq::empty()) == Err::<ShownStatement, Refusal>(e@),
        },
{
    let amount = match money_of(l.amount, a.commodity.as_str(), a.precision) {
        Ok(m) => m,
        Err(e) => {
            return Err(e);
        },
    };
    let balance_after = match money_of(l.balance_after, a.commodity.as_str(), a.precision) {
        Ok(m) => m,
        Err(e) => {
            return Err(e);
        },
    };
    let mut s = untyped_line(l, i);
    s.account_id = Some(a.id);
    s.amount = amount;
    s.balance_after = balance_after;
    if l.currency.as_str().is_empty() {
        s.currency = own(a.commodity.as_str());
    } else if l.skip.is_none() && !same(l.currency.as_str(), a.commodity.as_str()) {
        s.status = own("skipped");
        s.note = cat4(l.currency.as_str(), " line in a ", a.commodity.as_str(), " account");
    }
    if let Some(v) = &l.original {
        let value = MetaValue::Value { quantity: plain(v.0), commodity: own(v.1.as_str()) };
        put_field(&mut s.raw, "_original", value);
    }
    proof {
        let spec = typed(l@, *a, i as int, Seq::empty());
        assert(spec is Ok);
        assert(s@.raw =~= spec->Ok_0.raw);
        assert(s@ =~= (ShownStatement { fingerprint: Seq::empty(), ..spec->Ok_0 }));
    }
    Ok(s)
}

/// The statement lines of the first `n` records on an account, or why one of them is refused.
pub open spec fn typed_lines(ls: Seq<ShownLine>, a: Account, n: nat) -> std::result::Result<Seq<ShownStatement>, Refusal>
    decreases n,
{
    if n == 0 {
        Ok(Seq::empty())
    } else {
        match typed_lines(ls, a, (n - 1) as nat) {
            Err(e) => Err(e),
            Ok(before) => match typed(ls[n - 1], a, n - 1, before) {
                Err(e) => Err(e),
                Ok(l) => Ok(before.push(l)),
            },
        }
    }
}

proof fn lemma_typed_refused(ls: Seq<ShownLine>, a: Account, n: nat, m: nat)
    requires
        n <= m,
        typed_lines(ls, a, n) is Err,
    ensures
        typed_lines(ls, a, m) == typed_lines(ls, a, n),
    decreases m,
{
    if n < m {
        lemma_typed_refused(ls, a, n, (m - 1) as nat);
    }
}

proof fn lemma_typed_apart(l: ShownLine, a: Account, i: int, before: Seq<ShownStatement>)
    ensures
        match typed(l, a, i, Seq::empty()) {
            Err(e) => typed(l, a, i, before) == Err::<ShownStatement, Refusal>(e),
            Ok(s) => typed(l, a, i, before) is Ok && ({
                let t = typed(l, a, i, before)->Ok_0;
                &&& key_of(t) == key_of(s)
                &&& (ShownStatement { fingerprint: s.fingerprint, ..t }) == s
                &&& t.fingerprint == (match (s.date, s.amount) {
                    (Some(d), Some(m)) => print_of(
                        a.id as int,
                        d,
                        normal((m.minor, m.precision)),
                        s.description,
                        as_key(before, key_of(s), before.len()),
                    ),
                    _ => Seq::empty(),
                })
            }),
        },
{
}

/// The statement lines of records on an account.
pub fn statement_lines(lines: &Vec<ParsedLine>, a: &Account) -> (r: Result<Vec<StatementLine>>)
    requires
        lines@.len() < 2147483647,
    ensures
        match r {
            Ok(v) => typed_lines(shown_lines(lines@), *a, lines@.len()) == Ok::<Seq<ShownStatement>, Refusal>(shown_statements(v@)),
            Err(e) => typed_lines(shown_lines(lines@), *a, lines@.len()) == Err::<Seq<ShownStatement>, Refusal>(e@),
        },
{
    let ghost ls = shown_lines(lines@);
    let mut r: Vec<StatementLine> = Vec::new();
    let mut seen: Vec<Seen> = Vec::new();
    let mut i: usize = 0;
    assert(shown_statements(r@) =~= Seq::<ShownStatement>::empty());
    while i < lines.len()
        invariant
            i <= lines.len(),
            ls == shown_lines(lines@),
            lines@.len() < 2147483647,
            r@.len() == i,
            seen@.len() <= i,
            typed_lines(ls, *a, i as nat) == Ok::<Seq<ShownStatement>, Refusal>(shown_statements(r@)),
            forall|key: Option<(Date, Seq<char>, Seq<char>)>|
                key is Some ==> #[trigger] as_key(shown_statements(r@), key, i as nat) == count_seen(seen@, key, seen@.len()),
        decreases lines.len() - i,
    {
        assert(ls[i as int] == lines@[i as int]@);
        let ghost before = shown_statements(r@);
        let ghost was = seen@;
        proof {
            lemma_typed_apart(ls[i as int], *a, i as int, before);
        }
        let mut s = match base_line(&lines[i], a, i) {
            Ok(s) => s,
            Err(e) => {
                proof {
                    lemma_typed_refused(ls, *a, (i + 1) as nat, ls.len());
                }
                return Err(e);
            },
        };
        let ghost key = key_of(s@);
        if let (Some(d), Some(m)) = (s.date, s.amount) {
            let now = Seen { date: d, amount: plain(m.major()), description: normalize_desc(s.description.as_str()) };
            assert(seen_key(now) == key);
            let nth = times_seen(&seen, &now);
            assert(nth == as_key(before, key, i as nat));
            s.fingerprint = fingerprint(a.id, d, m.major(), s.description.as_str(), nth);
            seen.push(now);
        }
        let ghost shown = s@;
        let ghost spec = typed(ls[i as int], *a, i as int, before);
        assert(shown =~= spec->Ok_0);
        r.push(s);
        assert(shown_statements(r@) =~= before.push(shown));
        proof {
            assert forall|k: Option<(Date, Seq<char>, Seq<char>)>| k is Some implies #[trigger] as_key(
                shown_statements(r@),
                k,
                (i + 1) as nat,
            ) == count_seen(seen@, k, seen@.len()) by {
                lemma_key_prefix(before, shown, k, i as nat);
                if seen@.len() > was.len() {
                    lemma_seen_prefix(was, seen@.last(), k, was.len());
                    assert(seen@ =~= was.push(seen@.last()));
                }
                assert(as_key(before, k, i as nat) == count_seen(was, k, was.len()));
            }
        }
        i = i + 1;
    }
    Ok(r)
}

/// What a line moves on an account is what its record says, up to a minor unit, and exactly that where it has
/// no more decimal places than the account; so is the balance after it.
pub proof fn law_line_keeps_amount(l: ShownLine, a: Account, i: int, before: Seq<ShownStatement>)
    ensures
        typed(l, a, i, before) matches Ok(s) ==> {
            &&& s.position == i + 1 && s.account_id == Some(a.id) && s.date == l.date
            &&& l.amount is None ==> s.amount is None
            &&& l.amount matches Some(n) ==> (s.amount matches Some(m) && 100real * distance(in_major(m), value(n)) * (pow10(a.precision as nat) as real)
                < 51real && (n.1 <= a.precision ==> in_major(m) == value(n)))
            &&& l.balance_after matches Some(n) ==> (s.balance_after matches Some(m) && 100real * distance(in_major(m), value(n)) * (pow10(
                a.precision as nat,
            ) as real) < 51real && (n.1 <= a.precision ==> in_major(m) == value(n)))
        },
{
    if let Some(n) = l.amount {
        law_amount_of_major(n, a.commodity@, a.precision as int);
    }
    if let Some(n) = l.balance_after {
        law_amount_of_major(n, a.commodity@, a.precision as int);
    }
}

/// Lines of one account that agree in day, amount and description are told apart by how many of them came
/// before: what the fingerprints of two such lines are taken of differs.
pub proof fn law_twins_told_apart(ls: Seq<ShownStatement>, key: Option<(Date, Seq<char>, Seq<char>)>, i: nat, j: nat)
    requires
        i < j <= ls.len(),
        key_of(ls[i as int]) == key,
    ensures
        as_key(ls, key, i) < as_key(ls, key, j),
    decreases j,
{
    if i + 1 < j {
        law_twins_told_apart(ls, key, i, (j - 1) as nat);
    }
}

} // verus!
