//! Enable Banking evidence, independent of the connection and authorization workflow.
//!
//! One file contains one stable account identity and one currency. API session UIDs and
//! transaction_id are deliberately not used as persistent evidence identities.

use vstd::prelude::*;

use crate::codec::{json_string, json_text};
use crate::connections::{account_of, connected, ConnectionAccount};
use crate::date::{date_in, parse_with, Date};
use crate::decimal::{number_in, view_of, Decimal, Num};
use crate::error::{invalid, refusal_text, unreadable, Refusal, Result};
use crate::imports::presets::abs_num;
use crate::imports::{earliest, latest, no_line, no_parse, opt_text, period, shown_lines, ParseOutput, ParsedLine, ShownLine, ShownParse};
use crate::json::{document_in, inner, inside, instant, instant_of, integer, integer_at, is_text, is_uuid, items, items_of, member, member_of, read_document, record, record_of, string, string_of, text, text_at, text_under, uuid_text};
use crate::money::negated_num;
use crate::order::{sort_texts, sorted_texts};
use crate::text::{blank, cat, cat3, cat5, chars, debug_text, distinct, is_blank, is_upper, join, joined, nat_string, nat_text, own, push_distinct, quoted, same, single_space, single_spaced, texts};

verus! {

pub const SOURCE: &'static str = "enable_banking_json";

pub const CHANNEL: &'static str = "enable_banking";

/// Whether a file is evidence of this channel.
pub open spec fn from_channel(content: Seq<u8>) -> bool {
    document_in(content) is Ok && text_at(document_in(content)->Ok_0, "channel"@) == Some("enable_banking"@)
}

pub fn is_file(content: &[u8]) -> (r: bool)
    ensures
        r == from_channel(content@),
{
    match read_document(content) {
        Ok(d) => is_text(d.as_str(), "channel", "enable_banking"),
        Err(_) => false,
    }
}

/// Whether a text is a currency code other than the one for none.
pub open spec fn currency_code(s: Seq<char>) -> bool {
    s.len() == 3 && s != "XXX"@ && forall|i: int| 0 <= i < s.len() ==> is_upper(#[trigger] s[i])
}

pub fn known_currency(currency: &str) -> (r: bool)
    ensures
        r == currency_code(currency@),
{
    let cs = chars(currency);
    if cs.len() != 3 || same(currency, "XXX") {
        return false;
    }
    let mut i: usize = 0;
    while i < cs.len()
        invariant
            i <= cs.len(),
            cs@ == currency@,
            forall|k: int| 0 <= k < i ==> is_upper(#[trigger] cs@[k]),
        decreases cs.len() - i,
    {
        let c = cs[i];
        if !('A' <= c && c <= 'Z') {
            assert(!is_upper(currency@[i as int]));
            return false;
        }
        i = i + 1;
    }
    true
}

/// The decimal under `amount`, which is a text.
pub open spec fn amount_in(value: Seq<char>) -> Option<Num> {
    match text_at(value, "amount"@) {
        Some(s) => number_in(s),
        None => None,
    }
}

fn amount(value: &str) -> (r: Option<Decimal>)
    ensures
        view_of(r) == amount_in(value@),
{
    match crate::json::text_in(value, "amount") {
        Some(s) => Decimal::parse(s.as_str()),
        None => None,
    }
}

/// The first `n` pieces of a list that holds texts alone, or nothing.
pub open spec fn pieces(v: Seq<Seq<char>>, n: nat) -> Option<Seq<Seq<char>>>
    decreases n,
{
    if n == 0 {
        Some(Seq::empty())
    } else {
        match (pieces(v, (n - 1) as nat), string_of(v[n - 1])) {
            (Some(before), Some(s)) => Some(before.push(s)),
            _ => None,
        }
    }
}

proof fn lemma_no_pieces(v: Seq<Seq<char>>, n: nat, m: nat)
    requires
        n <= m,
        pieces(v, n) is None,
    ensures
        pieces(v, m) is None,
    decreases m,
{
    if n < m {
        lemma_no_pieces(v, n, (m - 1) as nat);
    }
}

/// What is said of a movement: the other party and what it wrote.
pub open spec fn remittance_of(tx: Seq<char>, debit: bool) -> Option<Seq<char>> {
    let party = text_under(
        inner(
            tx,
            if debit {
                "creditor"@
            } else {
                "debtor"@
            },
        ),
        "name"@,
    );
    let said = match member_of(tx, "remittance_information"@) {
        Some(v) => match items_of(v) {
            Some(list) => pieces(list, list.len()),
            None => Some(Seq::empty()),
        },
        None => Some(Seq::empty()),
    };
    match said {
        Some(ps) => Some(single_spaced(joined(seq![party] + ps, " "@))),
        None => None,
    }
}

fn remittance(tx: &str, debit: bool) -> (r: Option<String>)
    ensures
        opt_text(r) == remittance_of(tx@, debit),
{
    let side: &str = if debit {
        "creditor"
    } else {
        "debtor"
    };
    let party = text(inside(tx, side).as_str(), "name");
    let ghost name = party@;
    let mut words: Vec<String> = Vec::new();
    words.push(party);
    assert(texts(words@) =~= seq![name] + Seq::<Seq<char>>::empty());
    if let Some(v) = member(tx, "remittance_information") {
        if let Some(list) = items(v.as_str()) {
            let ghost vs = texts(list@);
            let ghost mut said = Seq::<Seq<char>>::empty();
            let mut i: usize = 0;
            while i < list.len()
                invariant
                    i <= list.len(),
                    vs == texts(list@),
                    pieces(vs, i as nat) == Some(said),
                    texts(words@) == seq![name] + said,
                    items_of(v@) == Some(vs),
                    member_of(tx@, "remittance_information"@) == Some(v@),
                decreases list.len() - i,
            {
                match string(list[i].as_str()) {
                    Some(s) => {
                        let ghost before = texts(words@);
                        let ghost shown = s@;
                        words.push(s);
                        assert(texts(words@) =~= before.push(shown));
                        proof {
                            assert((seq![name] + said).push(shown) =~= seq![name] + said.push(shown));
                            said = said.push(shown);
                        }
                    },
                    None => {
                        proof {
                            lemma_no_pieces(vs, (i + 1) as nat, vs.len());
                        }
                        return None;
                    },
                }
                i = i + 1;
            }
        }
    }
    Some(single_space(join(&words, " ").as_str()))
}

/// The line of a movement, as far as it can be read.
pub open spec fn movement_line(tx: Seq<char>, currency: Seq<char>) -> ShownLine {
    let start = ShownLine { currency, reference: text_under(tx, "entry_reference"@), raw: record_of(tx), ..no_line() };
    let status = text_under(tx, "status"@);
    let flow = text_under(tx, "credit_debit_indicator"@);
    let magnitude = amount_in(inner(tx, "transaction_amount"@));
    if status != "BOOK"@ {
        skipped(start, "unrecognised or non-booked transaction status "@ + debug_text(status))
    } else if magnitude is None {
        skipped(start, "missing or invalid decimal-string transaction amount"@)
    } else if text_under(inner(tx, "transaction_amount"@), "currency"@) != currency {
        skipped(start, "transaction currency does not match the file account currency"@)
    } else if flow != "DBIT"@ && flow != "CRDT"@ {
        skipped(start, "missing or invalid credit_debit_indicator"@)
    } else {
        let valued = ShownLine {
            amount: Some(
                if flow == "DBIT"@ {
                    negated_num(abs_num(magnitude->0))
                } else {
                    abs_num(magnitude->0)
                },
            ),
            ..start
        };
        match date_in(text_under(tx, "booking_date"@), "%Y-%m-%d"@) {
            None => skipped(valued, "missing or invalid booking_date"@),
            Some(d) => {
                let dated = ShownLine { date: Some(d), ..valued };
                match remittance_of(tx, flow == "DBIT"@) {
                    None => skipped(dated, "remittance_information must contain strings"@),
                    Some(s) => with_balance(ShownLine { description: s, ..dated }, member_of(tx, "balance_after_transaction"@), currency),
                }
            },
        }
    }
}

/// A line that is left out for a reason.
pub open spec fn skipped(line: ShownLine, reason: Seq<char>) -> ShownLine {
    ShownLine { skip: Some(refusal_text(Refusal::Parse(reason))), ..line }
}

/// A line with the balance after it, where one is given in the account's currency.
pub open spec fn with_balance(line: ShownLine, balance: Option<Seq<char>>, currency: Seq<char>) -> ShownLine {
    match balance {
        None => line,
        Some(b) => if b == "null"@ || text_under(b, "currency"@) != currency {
            line
        } else {
            match amount_in(b) {
                None => skipped(line, "invalid decimal-string balance_after_transaction"@),
                Some(n) => ShownLine { balance_after: Some(n), ..line },
            }
        },
    }
}

/// Fills a line from a movement, up to the first thing that is wrong with it.
fn fill_line(tx: &str, currency: &str, line: &mut ParsedLine) -> (r: Result<()>)
    requires
        old(line)@ == (ShownLine { currency: currency@, reference: text_under(tx@, "entry_reference"@), raw: record_of(tx@), ..no_line() }),
    ensures
        match r {
            Ok(_) => final(line)@ == movement_line(tx@, currency@),
            Err(e) => movement_line(tx@, currency@) == (ShownLine { skip: Some(refusal_text(e@)), ..final(line)@ }),
        },
{
    let status = text(tx, "status");
    if !same(status.as_str(), "BOOK") {
        return Err(unreadable(cat("unrecognised or non-booked transaction status ", quoted(status.as_str()).as_str()).as_str()));
    }
    let flow = text(tx, "credit_debit_indicator");
    let value = inside(tx, "transaction_amount");
    let magnitude = match amount(value.as_str()) {
        Some(m) => m,
        None => {
            return Err(unreadable("missing or invalid decimal-string transaction amount"));
        },
    };
    if !same(text(value.as_str(), "currency").as_str(), currency) {
        return Err(unreadable("transaction currency does not match the file account currency"));
    }
    let debit = same(flow.as_str(), "DBIT");
    if !debit && !same(flow.as_str(), "CRDT") {
        return Err(unreadable("missing or invalid credit_debit_indicator"));
    }
    line.amount = Some(
        if debit {
            magnitude.abs().negated()
        } else {
            magnitude.abs()
        },
    );
    // Booking date is the date this movement entered the bank's books.
    match parse_with(text(tx, "booking_date").as_str(), "%Y-%m-%d") {
        Some(d) => {
            line.date = Some(d);
        },
        None => {
            return Err(unreadable("missing or invalid booking_date"));
        },
    }
    match remittance(tx, debit) {
        Some(s) => {
            line.description = s;
        },
        None => {
            return Err(unreadable("remittance_information must contain strings"));
        },
    }
    if let Some(b) = member(tx, "balance_after_transaction") {
        if !same(b.as_str(), "null") && same(text(b.as_str(), "currency").as_str(), currency) {
            match amount(b.as_str()) {
                Some(n) => {
                    line.balance_after = Some(n);
                },
                None => {
                    return Err(unreadable("invalid decimal-string balance_after_transaction"));
                },
            }
        }
    }
    Ok(())
}

fn line_of(tx: &str, currency: &str) -> (r: ParsedLine)
    ensures
        r@ == movement_line(tx@, currency@),
{
    let mut line = ParsedLine::empty();
    line.currency = own(currency);
    line.reference = text(tx, "entry_reference");
    line.raw = record(tx);
    assert(line@ =~= (ShownLine { currency: currency@, reference: text_under(tx@, "entry_reference"@), raw: record_of(tx@), ..no_line() }));
    if let Err(e) = fill_line(tx, currency, &mut line) {
        line.skip = Some(e.text());
    }
    assert(line@ =~= movement_line(tx@, currency@));
    line
}

/// The lines of the first `n` movements and how many of them are pending.
pub open spec fn movements(txs: Seq<Seq<char>>, currency: Seq<char>, n: nat) -> (Seq<ShownLine>, nat)
    decreases n,
{
    if n == 0 {
        (Seq::empty(), 0)
    } else {
        let (ls, pending) = movements(txs, currency, (n - 1) as nat);
        if text_under(txs[n - 1], "status"@) == "PDNG"@ {
            (ls, pending + 1)
        } else {
            (ls.push(movement_line(txs[n - 1], currency)), pending)
        }
    }
}

fn read_movements(txs: &Vec<String>, currency: &str) -> (r: (Vec<ParsedLine>, usize))
    ensures
        movements(texts(txs@), currency@, txs@.len()) == (shown_lines(r.0@), r.1 as nat),
{
    let ghost ts = texts(txs@);
    let mut lines: Vec<ParsedLine> = Vec::new();
    let mut pending: usize = 0;
    let mut i: usize = 0;
    assert(shown_lines(lines@) =~= Seq::<ShownLine>::empty());
    while i < txs.len()
        invariant
            i <= txs.len(),
            ts == texts(txs@),
            pending <= i,
            movements(ts, currency@, i as nat) == (shown_lines(lines@), pending as nat),
        decreases txs.len() - i,
    {
        let tx = txs[i].as_str();
        assert(tx@ == ts[i as int]);
        if same(text(tx, "status").as_str(), "PDNG") {
            pending = pending + 1;
        } else {
            let ghost before = shown_lines(lines@);
            let line = line_of(tx, currency);
            let ghost shown = line@;
            lines.push(line);
            assert(shown_lines(lines@) =~= before.push(shown));
        }
        i = i + 1;
    }
    (lines, pending)
}

/// How many of the first `n` lines count and have no reference.
pub open spec fn unreferenced(ls: Seq<ShownLine>, n: nat) -> nat
    decreases n,
{
    if n == 0 {
        0
    } else {
        unreferenced(ls, (n - 1) as nat) + if ls[n - 1].skip is None && ls[n - 1].reference.len() == 0 {
            1nat
        } else {
            0
        }
    }
}

/// How many of the first `n` lines count and are of a date, and the balance after the last of them.
pub open spec fn on_date(ls: Seq<ShownLine>, d: Option<Date>, n: nat) -> (nat, Option<Num>)
    decreases n,
{
    if n == 0 {
        (0, None)
    } else {
        let before = on_date(ls, d, (n - 1) as nat);
        if ls[n - 1].skip is None && ls[n - 1].date == d {
            (before.0 + 1, ls[n - 1].balance_after)
        } else {
            before
        }
    }
}

fn count_unreferenced(lines: &Vec<ParsedLine>) -> (r: usize)
    ensures
        r == unreferenced(shown_lines(lines@), lines@.len()),
{
    let ghost ls = shown_lines(lines@);
    let mut n: usize = 0;
    let mut i: usize = 0;
    while i < lines.len()
        invariant
            i <= lines.len(),
            ls == shown_lines(lines@),
            n == unreferenced(ls, i as nat),
            n <= i,
        decreases lines.len() - i,
    {
        assert(ls[i as int] == lines@[i as int]@);
        if lines[i].skip.is_none() && lines[i].reference.as_str().is_empty() {
            n = n + 1;
        }
        i = i + 1;
    }
    n
}

fn same_date(a: Option<Date>, b: Option<Date>) -> (r: bool)
    ensures
        r == (a == b),
{
    match (a, b) {
        (Some(x), Some(y)) => x.same(y),
        (None, None) => true,
        _ => false,
    }
}

fn count_on(lines: &Vec<ParsedLine>, d: Option<Date>) -> (r: (usize, Option<Decimal>))
    ensures
        on_date(shown_lines(lines@), d, lines@.len()) == (r.0 as nat, view_of(r.1)),
{
    let ghost ls = shown_lines(lines@);
    let mut n: usize = 0;
    let mut balance: Option<Decimal> = None;
    let mut i: usize = 0;
    while i < lines.len()
        invariant
            i <= lines.len(),
            ls == shown_lines(lines@),
            on_date(ls, d, i as nat) == (n as nat, view_of(balance)),
            n <= i,
        decreases lines.len() - i,
    {
        assert(ls[i as int] == lines@[i as int]@);
        if lines[i].skip.is_none() && same_date(lines[i].date, d) {
            n = n + 1;
            balance = lines[i].balance_after;
        }
        i = i + 1;
    }
    (n, balance)
}

/// What a file of this channel holds.
///
/// Transactions on one date have no guaranteed chronological ordering: there is a closing balance
/// only when the latest date has exactly one transaction, with a balance.
pub open spec fn parse_document(file: Seq<char>) -> std::result::Result<ShownParse, Refusal> {
    let account = inner(file, "account"@);
    let identity = text_under(account, "identification_hash"@);
    let currency = text_under(account, "currency"@);
    if text_at(file, "channel"@) != Some("enable_banking"@) || integer_at(file, "version"@) != Some(1int) {
        Err(Refusal::Parse("expected an Enable Banking file with version 1"@))
    } else if identity.len() == 0 || !currency_code(currency) {
        Err(
            Refusal::Parse(
                "Enable Banking file needs an account identification_hash and a known currency; split multi-currency accounts into separate files"@,
            ),
        )
    } else {
        match items_of(inner(file, "transactions"@)) {
            None => Err(Refusal::Parse("Enable Banking transactions must be an array"@)),
            Some(txs) => {
                let (ls, pending) = movements(txs, currency, txs.len());
                let last = latest(ls, ls.len());
                let (count, balance) = on_date(ls, last, ls.len());
                let missing = unreferenced(ls, ls.len());
                Ok(
                    ShownParse {
                        lines: ls,
                        currency,
                        closing_balance: if count == 1 {
                            balance
                        } else {
                            None
                        },
                        closing_date: if count == 1 && balance is Some {
                            last
                        } else {
                            None
                        },
                        period_from: earliest(ls, ls.len()),
                        period_to: last,
                        detected_source: "enable_banking_json"@,
                        account_ref: identity + ":"@ + currency,
                        warnings: (if pending > 0 {
                            seq![nat_text(pending) + " pending Enable Banking transactions were left out"@]
                        } else {
                            Seq::empty()
                        }) + (if missing > 0 {
                            seq![
                                nat_text(missing)
                                    + " booked transactions have no entry_reference; deduplication uses the import pipeline's date/amount/description fingerprint"@,
                            ]
                        } else {
                            Seq::empty()
                        }),
                        skipped_records: pending,
                        ..no_parse()
                    },
                )
            },
        }
    }
}

pub open spec fn parse_of(content: Seq<u8>) -> std::result::Result<ShownParse, Refusal> {
    match document_in(content) {
        Err(m) => Err(Refusal::Parse("invalid Enable Banking file: "@ + m)),
        Ok(file) => parse_document(file),
    }
}

/// Reads the document of a file of this channel.
pub fn parse_file(file: &str) -> (r: Result<ParseOutput>)
    ensures
        match r {
            Ok(p) => parse_document(file@) == Ok::<ShownParse, Refusal>(p@),
            Err(e) => parse_document(file@) == Err::<ShownParse, Refusal>(e@),
        },
{
    let version_one = match integer(file, "version") {
        Some(n) => n == 1,
        None => false,
    };
    if !is_text(file, "channel", "enable_banking") || !version_one {
        return Err(unreadable("expected an Enable Banking file with version 1"));
    }
    let account = inside(file, "account");
    let identity = text(account.as_str(), "identification_hash");
    let currency = text(account.as_str(), "currency");
    if identity.as_str().is_empty() || !known_currency(currency.as_str()) {
        return Err(
            unreadable(
                "Enable Banking file needs an account identification_hash and a known currency; split multi-currency accounts into separate files",
            ),
        );
    }
    let txs = match items(inside(file, "transactions").as_str()) {
        Some(v) => v,
        None => {
            return Err(unreadable("Enable Banking transactions must be an array"));
        },
    };
    let (lines, pending) = read_movements(&txs, currency.as_str());
    let mut out = ParseOutput::empty();
    out.detected_source = own("enable_banking_json");
    out.account_ref = cat3(identity.as_str(), ":", currency.as_str());
    out.currency = currency;
    out.skipped_records = pending;
    if pending > 0 {
        let warning = cat(nat_string(pending as u128).as_str(), " pending Enable Banking transactions were left out");
        out.warnings.push(warning);
    }
    let missing = count_unreferenced(&lines);
    if missing > 0 {
        let warning = cat(
            nat_string(missing as u128).as_str(),
            " booked transactions have no entry_reference; deduplication uses the import pipeline's date/amount/description fingerprint",
        );
        out.warnings.push(warning);
    }
    let (first, last) = period(&lines);
    out.period_from = first;
    out.period_to = last;
    let (count, balance) = count_on(&lines, last);
    if count == 1 && balance.is_some() {
        out.closing_balance = balance;
        out.closing_date = last;
    }
    out.lines = lines;
    proof {
        let spec = parse_document(file@);
        assert(spec is Ok);
        assert(out@.warnings =~= spec->Ok_0.warnings);
        assert(out@ =~= spec->Ok_0);
    }
    Ok(out)
}

pub fn parse(content: &[u8]) -> (r: Result<ParseOutput>)
    ensures
        match r {
            Ok(p) => parse_of(content@) == Ok::<ShownParse, Refusal>(p@),
            Err(e) => parse_of(content@) == Err::<ShownParse, Refusal>(e@),
        },
{
    match read_document(content) {
        Ok(file) => parse_file(file.as_str()),
        Err(m) => Err(unreadable(cat("invalid Enable Banking file: ", m.as_str()).as_str())),
    }
}

/// The ledger account for a file: by provider identity and currency, never by a default for the
/// source.
pub fn account_for_file(content: &[u8], connections: &[ConnectionAccount]) -> (r: Option<i64>)
    ensures
        r == (match parse_of(content@) {
            Ok(p) => connected(connections@, "enable_banking"@, p.account_ref, 0),
            Err(_) => None,
        }),
{
    match parse(content) {
        Ok(p) => account_of(connections, "enable_banking", p.account_ref.as_str()),
        Err(_) => None,
    }
}

#[derive(Debug)]
pub struct Session {
    pub id: String,
    pub bank: String,
    pub country: String,
    pub valid_until: String,
}

/// Why the answer to a code exchange is refused, at a moment.
pub open spec fn session_refusal(response: Seq<char>, now: (int, int)) -> Option<Refusal> {
    let until = text_under(inner(response, "access"@), "valid_until"@);
    if !uuid_text(text_under(response, "session_id"@)) {
        Some(Refusal::Parse("Enable Banking returned an invalid session_id"@))
    } else {
        match instant_of(until) {
            None => Some(Refusal::Parse("Enable Banking returned an invalid consent expiry"@)),
            Some((s, n)) => if s < now.0 || (s == now.0 && n <= now.1) {
                Some(Refusal::Invalid("Enable Banking returned an expired consent; connect again"@))
            } else {
                match items_of(inner(response, "accounts"@)) {
                    None => Some(Refusal::Parse("Enable Banking returned no accounts array"@)),
                    Some(v) => if v.len() == 0 {
                        Some(
                            Refusal::Invalid(
                                "no accessible accounts: link each account to your production application in the Enable Banking Control Panel, then connect again"@,
                            ),
                        )
                    } else {
                        None
                    },
                }
            },
        }
    }
}

/// The consent in the answer to a code exchange; only its identifier is kept.
pub fn session(bank: &str, country: &str, response: &str, now: (i64, u32)) -> (r: Result<Session>)
    ensures
        match r {
            Ok(s) => {
                &&& session_refusal(response@, (now.0 as int, now.1 as int)) is None
                &&& s.id@ == text_under(response@, "session_id"@)
                &&& s.bank@ == bank@
                &&& s.country@ == country@
                &&& s.valid_until@ == text_under(inner(response@, "access"@), "valid_until"@)
            },
            Err(e) => session_refusal(response@, (now.0 as int, now.1 as int)) == Some(e@),
        },
{
    let id = text(response, "session_id");
    if !is_uuid(id.as_str()) {
        return Err(unreadable("Enable Banking returned an invalid session_id"));
    }
    let valid_until = text(inside(response, "access").as_str(), "valid_until");
    match instant(valid_until.as_str()) {
        None => {
            return Err(unreadable("Enable Banking returned an invalid consent expiry"));
        },
        Some((s, n)) => {
            if s < now.0 || (s == now.0 && n <= now.1) {
                return Err(invalid("Enable Banking returned an expired consent; connect again"));
            }
        },
    }
    match items(inside(response, "accounts").as_str()) {
        None => Err(unreadable("Enable Banking returned no accounts array")),
        Some(v) => if v.len() == 0 {
            Err(
                invalid(
                    "no accessible accounts: link each account to your production application in the Enable Banking Control Panel, then connect again",
                ),
            )
        } else {
            Ok(Session { id, bank: own(bank), country: own(country), valid_until })
        },
    }
}

/// A file of one account in one currency.
#[derive(Debug)]
pub struct PullFile {
    pub account_ref: String,
    pub currency: String,
    pub records: usize,
    pub path: Option<String>,
}

/// The currency of a transaction.
pub open spec fn currency_of(tx: Seq<char>) -> Seq<char> {
    text_under(inner(tx, "transaction_amount"@), "currency"@)
}

pub open spec fn currencies_of(txs: Seq<Seq<char>>) -> Seq<Seq<char>> {
    txs.map_values(|t: Seq<char>| currency_of(t))
}

/// The first `n` transactions that are in a currency.
pub open spec fn in_currency(txs: Seq<Seq<char>>, currency: Seq<char>, n: nat) -> Seq<Seq<char>>
    decreases n,
{
    if n == 0 {
        Seq::empty()
    } else {
        let before = in_currency(txs, currency, (n - 1) as nat);
        if currency_of(txs[n - 1]) == currency {
            before.push(txs[n - 1])
        } else {
            before
        }
    }
}

/// The currencies of an account's transactions in their order, or the account's own where it has
/// none.
pub open spec fn groups_of(account: Seq<char>, txs: Seq<Seq<char>>) -> Seq<Seq<char>> {
    if txs.len() == 0 && currency_code(text_under(account, "currency"@)) {
        seq![text_under(account, "currency"@)]
    } else {
        sorted_texts(distinct(currencies_of(txs)))
    }
}

/// Why an account is not published.
pub open spec fn publish_refusal(hashes: Seq<Seq<char>>, txs: Seq<Seq<char>>) -> Option<Seq<char>> {
    if hashes.len() == 0 || exists|i: int| 0 <= i < hashes.len() && blank(#[trigger] hashes[i]) {
        Some("Enable Banking account needs a primary identification hash"@)
    } else if exists|i: int| 0 <= i < txs.len() && !currency_code(currency_of(#[trigger] txs[i])) {
        Some("Enable Banking transaction has no known currency; the account was not published"@)
    } else {
        None
    }
}

fn check_publish(hashes: &Vec<String>, txs: &Vec<String>) -> (r: Result<()>)
    ensures
        match r {
            Ok(_) => publish_refusal(texts(hashes@), texts(txs@)) is None,
            Err(e) => publish_refusal(texts(hashes@), texts(txs@)) is Some && e.unreadable(publish_refusal(texts(hashes@), texts(txs@))->0),
        },
{
    let ghost hs = texts(hashes@);
    let ghost ts = texts(txs@);
    if hashes.len() == 0 {
        return Err(unreadable("Enable Banking account needs a primary identification hash"));
    }
    let mut i: usize = 0;
    while i < hashes.len()
        invariant
            i <= hashes.len(),
            hs == texts(hashes@),
            ts == texts(txs@),
            forall|k: int| 0 <= k < i ==> !blank(#[trigger] hs[k]),
        decreases hashes.len() - i,
    {
        if is_blank(hashes[i].as_str()) {
            assert(blank(hs[i as int]));
            return Err(unreadable("Enable Banking account needs a primary identification hash"));
        }
        i = i + 1;
    }
    let mut j: usize = 0;
    while j < txs.len()
        invariant
            j <= txs.len(),
            hs == texts(hashes@),
            ts == texts(txs@),
            hs.len() > 0,
            forall|k: int| 0 <= k < hs.len() ==> !blank(#[trigger] hs[k]),
            forall|k: int| 0 <= k < j ==> currency_code(currency_of(#[trigger] ts[k])),
        decreases txs.len() - j,
    {
        if !known_currency(text(inside(txs[j].as_str(), "transaction_amount").as_str(), "currency").as_str()) {
            assert(!currency_code(currency_of(ts[j as int])));
            return Err(unreadable("Enable Banking transaction has no known currency; the account was not published"));
        }
        j = j + 1;
    }
    Ok(())
}

fn groups(account: &str, txs: &Vec<String>) -> (r: Vec<String>)
    ensures
        texts(r@) == groups_of(account@, texts(txs@)),
{
    let ghost ts = texts(txs@);
    let own_currency = text(account, "currency");
    if txs.len() == 0 && known_currency(own_currency.as_str()) {
        let mut r: Vec<String> = Vec::new();
        let ghost shown = own_currency@;
        r.push(own_currency);
        assert(texts(r@) =~= seq![shown]);
        return r;
    }
    let mut seen: Vec<String> = Vec::new();
    let mut i: usize = 0;
    assert(currencies_of(ts).take(0) =~= Seq::<Seq<char>>::empty());
    assert(texts(seen@) =~= distinct(currencies_of(ts).take(0)));
    while i < txs.len()
        invariant
            i <= txs.len(),
            ts == texts(txs@),
            texts(seen@) == distinct(currencies_of(ts).take(i as int)),
        decreases txs.len() - i,
    {
        let c = text(inside(txs[i].as_str(), "transaction_amount").as_str(), "currency");
        assert(c@ == currencies_of(ts)[i as int]);
        assert(currencies_of(ts).take(i + 1).drop_last() =~= currencies_of(ts).take(i as int));
        push_distinct(&mut seen, c.as_str());
        i = i + 1;
    }
    assert(currencies_of(ts).take(i as int) =~= currencies_of(ts));
    sort_texts(&seen)
}

fn records_in(txs: &Vec<String>, currency: &str) -> (r: Vec<String>)
    ensures
        texts(r@) == in_currency(texts(txs@), currency@, txs@.len()),
{
    let ghost ts = texts(txs@);
    let mut r: Vec<String> = Vec::new();
    let mut i: usize = 0;
    assert(texts(r@) =~= Seq::<Seq<char>>::empty());
    while i < txs.len()
        invariant
            i <= txs.len(),
            ts == texts(txs@),
            texts(r@) == in_currency(ts, currency@, i as nat),
        decreases txs.len() - i,
    {
        if same(text(inside(txs[i].as_str(), "transaction_amount").as_str(), "currency").as_str(), currency) {
            let ghost before = texts(r@);
            let t = own(txs[i].as_str());
            r.push(t);
            assert(texts(r@) =~= before.push(t@));
        }
        i = i + 1;
    }
    r
}

pub open spec fn json_list(v: Seq<Seq<char>>) -> Seq<Seq<char>> {
    v.map_values(|s: Seq<char>| json_text(s))
}

/// One account in one currency as a file of this channel.
pub open spec fn envelope_of(
    session_id: Seq<char>,
    account: Seq<char>,
    hashes: Seq<Seq<char>>,
    currency: Seq<char>,
    records: Seq<Seq<char>>,
    pulled_at: Seq<char>,
) -> Seq<char> {
    "{\"account\":{\"currency\":"@ + json_text(currency) + ",\"identification_hash\":"@ + json_text(hashes[0]) + ",\"name\":"@ + inner(
        account,
        "name"@,
    ) + ",\"uid\":"@ + inner(account, "uid"@) + "},\"channel\":\"enable_banking\",\"identification_hashes\":["@ + joined(json_list(hashes), ","@)
        + "],\"provider_account\":"@ + account + ",\"pulled_at\":"@ + json_text(pulled_at) + ",\"session_id\":"@ + json_text(session_id)
        + ",\"transactions\":["@ + joined(records, ","@) + "],\"version\":1}"@
}

fn envelope(session_id: &str, account: &str, hashes: &Vec<String>, currency: &str, records: &Vec<String>, pulled_at: &str) -> (r: String)
    requires
        hashes@.len() > 0,
    ensures
        r@ == envelope_of(session_id@, account@, texts(hashes@), currency@, texts(records@), pulled_at@),
{
    let ghost hs = texts(hashes@);
    let mut quoted_hashes: Vec<String> = Vec::new();
    let mut i: usize = 0;
    while i < hashes.len()
        invariant
            i <= hashes.len(),
            hs == texts(hashes@),
            texts(quoted_hashes@) == json_list(hs).take(i as int),
        decreases hashes.len() - i,
    {
        let ghost before = texts(quoted_hashes@);
        let t = json_string(hashes[i].as_str());
        quoted_hashes.push(t);
        assert(texts(quoted_hashes@) =~= before.push(t@));
        i = i + 1;
        assert(texts(quoted_hashes@) =~= json_list(hs).take(i as int));
    }
    assert(texts(quoted_hashes@) =~= json_list(hs));
    let a = cat5(
        "{\"account\":{\"currency\":",
        json_string(currency).as_str(),
        ",\"identification_hash\":",
        json_string(hashes[0].as_str()).as_str(),
        ",\"name\":",
    );
    let b = cat5(
        a.as_str(),
        inside(account, "name").as_str(),
        ",\"uid\":",
        inside(account, "uid").as_str(),
        "},\"channel\":\"enable_banking\",\"identification_hashes\":[",
    );
    let c = cat5(b.as_str(), join(&quoted_hashes, ",").as_str(), "],\"provider_account\":", account, ",\"pulled_at\":");
    let d = cat5(c.as_str(), json_string(pulled_at).as_str(), ",\"session_id\":", json_string(session_id).as_str(), ",\"transactions\":[");
    cat3(d.as_str(), join(records, ",").as_str(), "],\"version\":1}")
}

/// A file with its content, which is empty where nothing is to be written.
#[derive(Debug)]
pub struct Prepared {
    pub content: String,
    pub file: PullFile,
}

/// What is written for one currency.
pub struct ShownFile {
    pub content: Seq<char>,
    pub account_ref: Seq<char>,
    pub currency: Seq<char>,
    pub records: nat,
    pub path: Option<Seq<char>>,
}

impl View for Prepared {
    type V = ShownFile;

    open spec fn view(&self) -> ShownFile {
        ShownFile {
            content: self.content@,
            account_ref: self.file.account_ref@,
            currency: self.file.currency@,
            records: self.file.records as nat,
            path: opt_text(self.file.path),
        }
    }
}

pub open spec fn shown_files(v: Seq<Prepared>) -> Seq<ShownFile> {
    v.map_values(|p: Prepared| p@)
}

/// The files of the first `n` currencies, or why the first of them that cannot be read back is
/// refused.
pub open spec fn files_of(
    session_id: Seq<char>,
    account: Seq<char>,
    hashes: Seq<Seq<char>>,
    txs: Seq<Seq<char>>,
    pulled_at: Seq<char>,
    dry_run: bool,
    n: nat,
) -> std::result::Result<Seq<ShownFile>, Refusal>
    decreases n,
{
    if n == 0 {
        Ok(Seq::empty())
    } else {
        match files_of(session_id, account, hashes, txs, pulled_at, dry_run, (n - 1) as nat) {
            Err(e) => Err(e),
            Ok(before) => {
                let currency = groups_of(account, txs)[n - 1];
                let records = in_currency(txs, currency, txs.len());
                let content = envelope_of(session_id, account, hashes, currency, records, pulled_at);
                let file = ShownFile {
                    content: if dry_run {
                        Seq::empty()
                    } else {
                        content
                    },
                    account_ref: hashes[0] + ":"@ + currency,
                    currency,
                    records: records.len(),
                    path: None,
                };
                if dry_run {
                    Ok(before.push(file))
                } else {
                    match parse_of(vstd::utf8::encode_utf8(content)) {
                        Err(e) => Err(e),
                        Ok(_) => Ok(before.push(file)),
                    }
                }
            },
        }
    }
}

proof fn lemma_files_refused(
    session_id: Seq<char>,
    account: Seq<char>,
    hashes: Seq<Seq<char>>,
    txs: Seq<Seq<char>>,
    pulled_at: Seq<char>,
    dry_run: bool,
    n: nat,
    m: nat,
)
    requires
        n <= m,
        files_of(session_id, account, hashes, txs, pulled_at, dry_run, n) is Err,
    ensures
        files_of(session_id, account, hashes, txs, pulled_at, dry_run, m) == files_of(
            session_id,
            account,
            hashes,
            txs,
            pulled_at,
            dry_run,
            n,
        ),
    decreases m,
{
    if n < m {
        lemma_files_refused(session_id, account, hashes, txs, pulled_at, dry_run, n, (m - 1) as nat);
    }
}

/// What is published of a completely fetched account.
pub open spec fn prepared(
    session_id: Seq<char>,
    account: Seq<char>,
    hashes: Seq<Seq<char>>,
    txs: Seq<Seq<char>>,
    pulled_at: Seq<char>,
    dry_run: bool,
) -> std::result::Result<Seq<ShownFile>, Refusal> {
    match publish_refusal(hashes, txs) {
        Some(m) => Err(Refusal::Parse(m)),
        None => files_of(session_id, account, hashes, txs, pulled_at, dry_run, groups_of(account, txs).len()),
    }
}

/// Prepares a completely fetched account for publication, one file for each currency. The first
/// hash is the provider's primary identification hash; other hashes remain evidence only, as they
/// need not identify an account uniquely.
#[verifier::rlimit(60)]
#[verifier::spinoff_prover]
pub fn prepare(session_id: &str, account: &str, hashes: &Vec<String>, transactions: &Vec<String>, pulled_at: &str, dry_run: bool) -> (r: Result<
    Vec<Prepared>,
>)
    ensures
        match r {
            Ok(v) => prepared(session_id@, account@, texts(hashes@), texts(transactions@), pulled_at@, dry_run) == Ok::<Seq<ShownFile>, Refusal>(
                shown_files(v@),
            ),
            Err(e) => prepared(session_id@, account@, texts(hashes@), texts(transactions@), pulled_at@, dry_run) == Err::<Seq<ShownFile>, Refusal>(
                e@,
            ),
        },
{
    if let Err(e) = check_publish(hashes, transactions) {
        return Err(e);
    }
    let ghost hs = texts(hashes@);
    let ghost ts = texts(transactions@);
    let currencies = groups(account, transactions);
    let mut r: Vec<Prepared> = Vec::new();
    let mut i: usize = 0;
    assert(shown_files(r@) =~= Seq::<ShownFile>::empty());
    while i < currencies.len()
        invariant
            i <= currencies.len(),
            hs == texts(hashes@),
            ts == texts(transactions@),
            hs.len() > 0,
            texts(currencies@) == groups_of(account@, ts),
            publish_refusal(hs, ts) is None,
            files_of(session_id@, account@, hs, ts, pulled_at@, dry_run, i as nat) == Ok::<Seq<ShownFile>, Refusal>(shown_files(r@)),
        decreases currencies.len() - i,
    {
        let currency = currencies[i].as_str();
        assert(currency@ == groups_of(account@, ts)[i as int]);
        let records = records_in(transactions, currency);
        assert(texts(records@).len() == records@.len());
        // Old alias rows must not route a new primary to another account.
        let account_ref = cat3(hashes[0].as_str(), ":", currency);
        let file = PullFile { account_ref, currency: own(currency), records: records.len(), path: None };
        let content = if dry_run {
            String::new()
        } else {
            let text = envelope(session_id, account, hashes, currency, &records, pulled_at);
            if let Err(e) = parse(text.as_str().as_bytes()) {
                proof {
                    lemma_files_refused(session_id@, account@, hs, ts, pulled_at@, dry_run, (i + 1) as nat, groups_of(account@, ts).len());
                }
                return Err(e);
            }
            text
        };
        let ghost before = shown_files(r@);
        let p = Prepared { content, file };
        let ghost shown = p@;
        assert(dry_run ==> content@ =~= Seq::<char>::empty());
        r.push(p);
        assert(shown_files(r@) =~= before.push(shown));
        i = i + 1;
    }
    Ok(r)
}

/// The indicator of a booked movement is its sign: a debit is a line below zero, a credit one above, by the
/// size of the amount. What is not booked, or is in another currency, has no amount.
pub proof fn law_indicator_tells_sign(tx: Seq<char>, currency: Seq<char>)
    ensures
        movement_line(tx, currency).amount matches Some(a) ==> {
            let flow = text_under(tx, "credit_debit_indicator"@);
            &&& flow == "DBIT"@ && a.0 <= 0 || flow == "CRDT"@ && a.0 >= 0
            &&& amount_in(inner(tx, "transaction_amount"@)) matches Some(n) && a.1 == n.1 && (a.0 == n.0 || a.0 == -n.0)
            &&& text_under(tx, "status"@) == "BOOK"@
            &&& text_under(inner(tx, "transaction_amount"@), "currency"@) == currency
        },
{
    reveal_strlit("DBIT");
    reveal_strlit("CRDT");
    assert("DBIT"@[0] == 'D' && "CRDT"@[0] == 'C');
}

} // verus!
