//! The Pluggy channel: the Brazilian accounts pull themselves into the inbox.
//!
//! Two halves with a file between them. A pull authenticates, asks each item for an update, lists
//! its accounts and fetches their transactions, and writes one canonical file per Pluggy account
//! into the inbox folder. `parse` reads such a file back as statement lines under the source
//! `pluggy_json`. Nothing here posts.
//!
//! The network belongs to the caller, who implements `Transport` with an HTTP client.

use vstd::prelude::*;

use crate::codec::{json_string, json_text};
use crate::connections::ConnectionAccount;
use crate::date::{date_in, iso, iso_text, parse_with, Date};
use crate::decimal::{number_in, view_of, Decimal, Num};
use crate::error::{invalid, unreadable, Refusal, Result};
use crate::imports::csvkit::ten_bytes;
use crate::imports::{closing, earliest, last_balance, latest, no_parse, opt_text, period, shown_lines, ParseOutput, ParsedLine, ShownLine, ShownParse};
use crate::imports::wire::{answered, carried, exchanged, lemma_carried_on, lemma_carried_one, only_reads, reply_of, Reply, Sent, Wire};
use crate::json::{document_in, inner, inside, is_uuid, items, items_of, member, member_of, number, number_of, read_document, record, record_of, string, string_of, text, text_at, text_in, text_under, uuid_text};
use crate::money::negated_num;
use crate::text::{ascii_alnum, ascii_digit, at, blank, byte_length, cat, cat3, cat4, cat5, chars, contains, debug_text, ends, ends_with, find, holds, is_alnum, is_blank, is_digit, join, joined, kept, lower, lowercase_of, lowered, nat_string, nat_text, own, position, quoted, replace, replaced, same, slice_chars, starts, starts_with, texts, to_lowercase, to_uppercase, trim, trimmed, upper, uppercase_of, uppered, width_of};

verus! {

/// The import source of a file this channel writes.
pub const SOURCE: &'static str = "pluggy_json";

/// The channel name of its connections.
pub const CHANNEL: &'static str = "pluggy";

pub const DEFAULT_API: &'static str = "https://api.pluggy.ai";

/// A page carries 500 transactions by default. The stop is against a server that keeps answering
/// with a cursor: a silent truncation would lose money, so the pull says so instead.
pub const MAX_PAGES: usize = 1000;

/// How long an item may stay `UPDATING` before the pull gives up.
pub const UPDATE_ATTEMPTS: usize = 100;

/// The trimmed text under a name.
pub open spec fn field_of(document: Seq<char>, name: Seq<char>) -> Seq<char> {
    trimmed(text_under(document, name))
}

fn str_field(document: &str, name: &str) -> (r: String)
    ensures
        r@ == field_of(document@, name@),
{
    trim(text(document, name).as_str())
}

/// The decimal under a name, written as a number or as a text.
pub open spec fn decimal_at(document: Seq<char>, name: Seq<char>) -> Option<Num> {
    match member_of(document, name) {
        None => None,
        Some(v) => match number_of(v) {
            Some(n) => number_in(n),
            None => match string_of(v) {
                Some(s) => number_in(trimmed(s)),
                None => None,
            },
        },
    }
}

fn decimal_field(document: &str, name: &str) -> (r: Option<Decimal>)
    ensures
        view_of(r) == decimal_at(document@, name@),
{
    match member(document, name) {
        None => None,
        // Numbers keep their decimal text through the pull and the inbox.
        Some(v) => match number(v.as_str()) {
            Some(n) => Decimal::parse(n.as_str()),
            None => match string(v.as_str()) {
                Some(s) => Decimal::parse(trim(s.as_str()).as_str()),
                None => None,
            },
        },
    }
}

/// The first ten bytes of a text, where it has as many and they end with a character.
pub open spec fn first_ten(s: Seq<char>) -> Option<Seq<char>> {
    let k = ten_bytes(s, 0);
    if byte_length(s, k as nat) == 10 {
        Some(s.take(k))
    } else {
        None
    }
}

/// The day under a name, as Pluggy wrote it, with no timezone shift: the bank's own booking day is
/// what a statement says.
pub open spec fn date_at(document: Seq<char>, name: Seq<char>) -> Option<Date> {
    match text_at(document, name) {
        None => None,
        Some(s) => match first_ten(s) {
            Some(t) => date_in(t, "%Y-%m-%d"@),
            None => None,
        },
    }
}

fn date_field(document: &str, name: &str) -> (r: Option<Date>)
    ensures
        r == date_at(document@, name@),
{
    let s = match text_in(document, name) {
        Some(s) => s,
        None => {
            return None;
        },
    };
    let cs = chars(s.as_str());
    let mut bytes: usize = 0;
    let mut k: usize = 0;
    while k < cs.len() && bytes < 10
        invariant
            k <= cs.len(),
            cs@ == s@,
            bytes == byte_length(cs@, k as nat),
            bytes <= 14,
            ten_bytes(cs@, 0) == ten_bytes(cs@, k as int),
        decreases cs.len() - k,
    {
        bytes = bytes + width_of(cs[k]);
        k = k + 1;
    }
    if bytes != 10 {
        return None;
    }
    let day = slice_chars(&cs, 0, k);
    assert(day@ =~= s@.take(k as int));
    parse_with(crate::text::string(&day).as_str(), "%Y-%m-%d")
}

/// Who was on the other side of a movement.
pub open spec fn party_of(tx: Seq<char>, credit: bool) -> Seq<char> {
    let participant = inner(
        inner(tx, "paymentData"@),
        if credit {
            "payer"@
        } else {
            "receiver"@
        },
    );
    match string_of(participant) {
        Some(s) => if blank(s) {
            field_of(participant, "name"@)
        } else {
            trimmed(s)
        },
        None => field_of(participant, "name"@),
    }
}

/// The description of a movement, with its other side where the description does not name it.
pub open spec fn described(tx: Seq<char>, amount: Option<Num>) -> Seq<char> {
    let d = if field_of(tx, "description"@).len() > 0 {
        field_of(tx, "description"@)
    } else {
        field_of(tx, "descriptionRaw"@)
    };
    if amount is None || (amount->0).0 == 0 {
        d
    } else {
        let name = party_of(tx, (amount->0).0 > 0);
        if name.len() == 0 || holds(lowercase_of(d), lowercase_of(name)) {
            d
        } else if d.len() == 0 {
            name
        } else {
            d + " — "@ + name
        }
    }
}

fn description_with_counterparty(tx: &str, amount: Option<Decimal>) -> (r: String)
    ensures
        r@ == described(tx@, view_of(amount)),
{
    let written = str_field(tx, "description");
    let d = if written.as_str().is_empty() {
        str_field(tx, "descriptionRaw")
    } else {
        written
    };
    let side: &str = match amount {
        Some(a) => if a.is_zero() {
            return d;
        } else if a.is_negative() {
            "receiver"
        } else {
            "payer"
        },
        None => {
            return d;
        },
    };
    let participant = inside(inside(tx, "paymentData").as_str(), side);
    let name = match string(participant.as_str()) {
        Some(s) => if is_blank(s.as_str()) {
            str_field(participant.as_str(), "name")
        } else {
            trim(s.as_str())
        },
        None => str_field(participant.as_str(), "name"),
    };
    if name.as_str().is_empty() || contains(to_lowercase(d.as_str()).as_str(), to_lowercase(name.as_str()).as_str()) {
        d
    } else if d.as_str().is_empty() {
        name
    } else {
        cat3(d.as_str(), " — ", name.as_str())
    }
}

/// Whether a file is evidence of this channel.
pub open spec fn from_channel(content: Seq<u8>) -> bool {
    document_in(content) is Ok && field_of(document_in(content)->Ok_0, "channel"@) == "pluggy"@
}

pub fn is_pluggy_file(content: &[u8]) -> (r: bool)
    ensures
        r == from_channel(content@),
{
    match read_document(content) {
        Ok(d) => same(str_field(d.as_str(), "channel").as_str(), "pluggy"),
        Err(_) => false,
    }
}

pub open spec fn turned(n: Option<Num>, invert: bool) -> Option<Num> {
    match n {
        Some(v) => Some(
            if invert {
                negated_num(v)
            } else {
                v
            },
        ),
        None => None,
    }
}

fn turn(n: Option<Decimal>, invert: bool) -> (r: Option<Decimal>)
    ensures
        view_of(r) == turned(view_of(n), invert),
{
    match n {
        Some(v) => Some(
            if invert {
                v.negated()
            } else {
                v
            },
        ),
        None => None,
    }
}

/// The line of a movement.
///
/// On a BANK account Pluggy signs an amount the way the bank does, and a debit is already negative.
/// On a CREDIT account a new charge is positive and a payment negative, which is the other way
/// round.
pub open spec fn movement_line(tx: Seq<char>, currency: Seq<char>, invert: bool) -> ShownLine {
    let amount = turned(decimal_at(tx, "amount"@), invert);
    let own_currency = uppered(field_of(tx, "currencyCode"@));
    let date = date_at(tx, "date"@);
    ShownLine {
        date,
        amount,
        currency: if own_currency.len() == 0 {
            currency
        } else {
            own_currency
        },
        description: described(tx, amount),
        reference: field_of(tx, "id"@),
        balance_after: turned(decimal_at(tx, "balance"@), invert),
        raw: record_of(tx),
        skip: if date is None || amount is None {
            Some("a Pluggy transaction without a date or an amount"@)
        } else {
            None
        },
        original: None,
    }
}

fn line_of(tx: &str, currency: &str, invert: bool) -> (r: ParsedLine)
    ensures
        r@ == movement_line(tx@, currency@, invert),
{
    let mut line = ParsedLine::empty();
    let amount = turn(decimal_field(tx, "amount"), invert);
    let own_currency = upper(str_field(tx, "currencyCode").as_str());
    line.date = date_field(tx, "date");
    line.amount = amount;
    line.currency = if own_currency.as_str().is_empty() {
        own(currency)
    } else {
        own_currency
    };
    line.description = description_with_counterparty(tx, amount);
    line.reference = str_field(tx, "id");
    line.balance_after = turn(decimal_field(tx, "balance"), invert);
    line.raw = record(tx);
    if line.date.is_none() || line.amount.is_none() {
        line.skip = Some(own("a Pluggy transaction without a date or an amount"));
    }
    assert(line@ =~= movement_line(tx@, currency@, invert));
    line
}

/// Whether a transaction is settled. A pending one may still change its id and its amount before it
/// settles, so it is not evidence and never becomes a statement line.
pub open spec fn settled(tx: Seq<char>) -> bool {
    let status = uppered(field_of(tx, "status"@));
    status.len() == 0 || status == "POSTED"@
}

/// The lines of the first `n` transactions that are settled, and how many are not.
pub open spec fn movements(txs: Seq<Seq<char>>, currency: Seq<char>, invert: bool, n: nat) -> (Seq<ShownLine>, nat)
    decreases n,
{
    if n == 0 {
        (Seq::empty(), 0)
    } else {
        let (ls, pending) = movements(txs, currency, invert, (n - 1) as nat);
        if settled(txs[n - 1]) {
            (ls.push(movement_line(txs[n - 1], currency, invert)), pending)
        } else {
            (ls, pending + 1)
        }
    }
}

fn read_movements(txs: &Vec<String>, currency: &str, invert: bool) -> (r: (Vec<ParsedLine>, usize))
    ensures
        movements(texts(txs@), currency@, invert, txs@.len()) == (shown_lines(r.0@), r.1 as nat),
{
    let ghost ts = texts(txs@);
    let mut lines: Vec<ParsedLine> = Vec::new();
    let mut pending: usize = 0;
    let mut i: usize = 0;
    assert(shown_lines(lines@) =~= Seq::<ShownLine>::empty());
    while i < txs.len()
        invariant
            i <= txs.len(),
            ts == texts(txs@),
            pending <= i,
            movements(ts, currency@, invert, i as nat) == (shown_lines(lines@), pending as nat),
        decreases txs.len() - i,
    {
        let tx = txs[i].as_str();
        assert(tx@ == ts[i as int]);
        let status = upper(str_field(tx, "status").as_str());
        if status.as_str().is_empty() || same(status.as_str(), "POSTED") {
            let ghost before = shown_lines(lines@);
            let line = line_of(tx, currency, invert);
            let ghost shown = line@;
            lines.push(line);
            assert(shown_lines(lines@) =~= before.push(shown));
        } else {
            pending = pending + 1;
        }
        i = i + 1;
    }
    (lines, pending)
}

/// The values of a list under a name, none where there is no list.
pub open spec fn list_at(document: Seq<char>, name: Seq<char>) -> Seq<Seq<char>> {
    match member_of(document, name) {
        Some(v) => match items_of(v) {
            Some(l) => l,
            None => Seq::empty(),
        },
        None => Seq::empty(),
    }
}

fn list(document: &str, name: &str) -> (r: Vec<String>)
    ensures
        texts(r@) == list_at(document@, name@),
{
    match member(document, name) {
        Some(v) => match items(v.as_str()) {
            Some(l) => l,
            None => {
                let r: Vec<String> = Vec::new();
                assert(texts(r@) =~= Seq::<Seq<char>>::empty());
                r
            },
        },
        None => {
            let r: Vec<String> = Vec::new();
            assert(texts(r@) =~= Seq::<Seq<char>>::empty());
            r
        },
    }
}

/// What a file of this channel holds.
pub open spec fn parse_document(file: Seq<char>) -> std::result::Result<ShownParse, Refusal> {
    if field_of(file, "channel"@) != "pluggy"@ {
        Err(Refusal::Parse("not a Pluggy file: the channel is not \"pluggy\""@))
    } else {
        let account = inner(file, "account"@);
        let kind = uppered(field_of(account, "type"@));
        let currency = uppered(field_of(account, "currencyCode"@));
        let txs = list_at(file, "transactions"@);
        let (ls, pending) = movements(txs, currency, kind == "CREDIT"@, txs.len());
        Ok(
            ShownParse {
                lines: ls,
                currency,
                closing_balance: match last_balance(ls, ls.len()) {
                    Some((d, b)) => Some(b),
                    None => None,
                },
                closing_date: match last_balance(ls, ls.len()) {
                    Some((d, b)) => Some(d),
                    None => None,
                },
                period_from: earliest(ls, ls.len()),
                period_to: latest(ls, ls.len()),
                detected_source: "pluggy_json"@,
                account_ref: field_of(account, "id"@),
                warnings: (if kind != "BANK"@ && kind != "CREDIT"@ {
                    seq!["pluggy account type "@ + debug_text(kind) + " is neither BANK nor CREDIT: the amounts are taken as they are"@]
                } else {
                    Seq::empty()
                }) + (if pending > 0 {
                    seq![nat_text(pending) + " pluggy transactions are not settled yet and were left out"@]
                } else {
                    Seq::empty()
                }),
                skipped_records: pending,
                ..no_parse()
            },
        )
    }
}

pub open spec fn parse_of(content: Seq<u8>) -> std::result::Result<ShownParse, Refusal> {
    match document_in(content) {
        Err(m) => Err(Refusal::Parse("not a Pluggy file: "@ + m)),
        Ok(file) => parse_document(file),
    }
}

/// Reads the document of a file of this channel.
pub fn parse_file(file: &str) -> (r: Result<ParseOutput>)
    ensures
        match r {
            Ok(p) => parse_document(file@) == Ok::<ShownParse, Refusal>(p@),
            Err(e) => parse_document(file@) == Err::<ShownParse, Refusal>(e@),
        },
{
    if !same(str_field(file, "channel").as_str(), "pluggy") {
        return Err(unreadable("not a Pluggy file: the channel is not \"pluggy\""));
    }
    let account = inside(file, "account");
    let kind = upper(str_field(account.as_str(), "type").as_str());
    let currency = upper(str_field(account.as_str(), "currencyCode").as_str());
    let mut out = ParseOutput::empty();
    out.detected_source = own("pluggy_json");
    out.account_ref = str_field(account.as_str(), "id");
    let credit = same(kind.as_str(), "CREDIT");
    if !same(kind.as_str(), "BANK") && !credit {
        let warning = cat3(
            "pluggy account type ",
            quoted(kind.as_str()).as_str(),
            " is neither BANK nor CREDIT: the amounts are taken as they are",
        );
        out.warnings.push(warning);
    }
    let (lines, pending) = read_movements(&list(file, "transactions"), currency.as_str(), credit);
    out.currency = currency;
    out.skipped_records = pending;
    if pending > 0 {
        let warning = cat(nat_string(pending as u128).as_str(), " pluggy transactions are not settled yet and were left out");
        out.warnings.push(warning);
    }
    if let Some((d, b)) = closing(&lines) {
        out.closing_balance = Some(b);
        out.closing_date = Some(d);
    }
    let (first, last) = period(&lines);
    out.period_from = first;
    out.period_to = last;
    out.lines = lines;
    proof {
        let spec = parse_document(file@);
        assert(spec is Ok);
        assert(out@.warnings =~= spec->Ok_0.warnings);
        assert(out@ =~= spec->Ok_0);
    }
    Ok(out)
}

pub fn parse(content: &[u8]) -> (r: Result<ParseOutput>)
    ensures
        match r {
            Ok(p) => parse_of(content@) == Ok::<ShownParse, Refusal>(p@),
            Err(e) => parse_of(content@) == Err::<ShownParse, Refusal>(e@),
        },
{
    match read_document(content) {
        Ok(file) => parse_file(file.as_str()),
        Err(m) => Err(unreadable(cat("not a Pluggy file: ", m.as_str()).as_str())),
    }
}

/// The `client_id` and `client_secret` of a Pluggy development application.
pub struct Credentials {
    pub client_id: String,
    pub client_secret: String,
}

pub open spec fn unset(name: Seq<char>) -> Seq<char> {
    "set "@ + name + ": the Pluggy Dashboard shows it on your development application (export "@ + name + "=...)"@
}

/// The value of a variable, where it is set to one.
pub open spec fn is_set(value: Option<&str>) -> bool {
    value is Some && !blank(value->0@)
}

fn env_var(name: &str, value: Option<&str>) -> (r: Result<String>)
    ensures
        match r {
            Ok(v) => is_set(value) && v@ == trimmed(value->0@),
            Err(e) => !is_set(value) && e.invalid(unset(name@)),
        },
{
    if let Some(v) = value {
        if !is_blank(v) {
            return Ok(trim(v));
        }
    }
    Err(invalid(cat5("set ", name, ": the Pluggy Dashboard shows it on your development application (export ", name, "=...)").as_str()))
}

impl Credentials {
    /// From the values of `PLUGGY_CLIENT_ID` and `PLUGGY_CLIENT_SECRET` in the environment, never
    /// from the ledger: a secret stored in the ledger would travel with the ledger file, its
    /// backups and its exports.
    pub fn from_env(client_id: Option<&str>, client_secret: Option<&str>) -> (r: Result<Credentials>)
        ensures
            match r {
                Ok(c) => is_set(client_id) && is_set(client_secret) && c.client_id@ == trimmed(client_id->0@) && c.client_secret@ == trimmed(
                    client_secret->0@,
                ),
                Err(e) => if !is_set(client_id) {
                    e.invalid(unset("PLUGGY_CLIENT_ID"@))
                } else {
                    !is_set(client_secret) && e.invalid(unset("PLUGGY_CLIENT_SECRET"@))
                },
            },
    {
        let id = match env_var("PLUGGY_CLIENT_ID", client_id) {
            Ok(v) => v,
            Err(e) => {
                return Err(e);
            },
        };
        match env_var("PLUGGY_CLIENT_SECRET", client_secret) {
            Ok(secret) => Ok(Credentials { client_id: id, client_secret: secret }),
            Err(e) => Err(e),
        }
    }
}

/// One HTTP exchange. `api_key` is empty on the call that asks for one, and goes out as the
/// `X-API-KEY` header on every other.
pub struct Request<'a> {
    pub method: &'a str,
    pub url: &'a str,
    pub api_key: &'a str,
    pub body: Option<String>,
}

pub struct Response {
    pub status: u16,
    pub body: String,
}

/// What the channel needs from the network, and all it needs.
pub trait Transport {
    fn send(&self, request: Request<'_>) -> Result<Response>;
}

/// The path of a URL.
pub open spec fn path_in(url: Seq<char>) -> Seq<char> {
    let after = match position(url, "://"@, 0) {
        Some(p) => url.skip(p + 3),
        None => url,
    };
    match position(after, "/"@, 0) {
        Some(p) => after.skip(p),
        None => after,
    }
}

fn path_of(url: &str) -> (r: String)
    ensures
        r@ == path_in(url@),
{
    let cs = chars(url);
    let scheme = chars("://");
    proof {
        reveal_strlit("://");
    }
    let after: Vec<char> = match find(&cs, &scheme, 0) {
        Some(p) => slice_chars(&cs, p + 3, cs.len()),
        None => slice_chars(&cs, 0, cs.len()),
    };
    let ghost rest = match position(url@, "://"@, 0) {
        Some(p) => url@.skip(p + 3),
        None => url@,
    };
    assert(after@ =~= rest);
    let slash = chars("/");
    match find(&after, &slash, 0) {
        Some(p) => {
            let path = slice_chars(&after, p, after.len());
            assert(path@ =~= rest.skip(p as int));
            crate::text::string(&path)
        },
        None => crate::text::string(&after),
    }
}

/// A text without a secret.
pub open spec fn redacted(s: Seq<char>, secret: Seq<char>) -> Seq<char> {
    if secret.len() == 0 {
        s
    } else {
        replaced(s, secret, "***"@)
    }
}

/// Keeps a credential out of a message that quotes what the server said.
fn redact(s: &str, secret: &str) -> (r: String)
    ensures
        r@ == redacted(s@, secret@),
{
    if secret.is_empty() {
        own(s)
    } else {
        replace(s, secret, "***")
    }
}

/// What a server says in an answer: its message, or the start of the answer.
pub open spec fn said_in(body: Seq<char>) -> Seq<char> {
    let short = if body.len() > 300 {
        body.take(300)
    } else {
        body
    };
    match document_in(vstd::utf8::encode_utf8(body)) {
        Ok(d) => match text_at(d, "message"@) {
            Some(m) => m,
            None => short,
        },
        Err(_) => short,
    }
}

fn message_of(body: &str) -> (r: String)
    ensures
        r@ == said_in(body@),
{
    let cs = chars(body);
    let short = if cs.len() > 300 {
        let start = slice_chars(&cs, 0, 300);
        assert(start@ =~= body@.take(300));
        crate::text::string(&start)
    } else {
        own(body)
    };
    match read_document(body.as_bytes()) {
        Ok(d) => match text_in(d.as_str(), "message") {
            Some(m) => m,
            None => short,
        },
        Err(_) => short,
    }
}

/// The document in an answer, or what the answer is refused for.
pub open spec fn answer_of(status: u16, body: Seq<char>, url: Seq<char>, api_key: Seq<char>) -> std::result::Result<Seq<char>, Refusal> {
    if status == 429 {
        Err(
            Refusal::Invalid(
                "pluggy answered HTTP 429 (too many requests) at "@ + path_in(url)
                    + ": Meu Pluggy does not document its rate and item limits, so wait and run the pull again"@,
            ),
        )
    } else if !(200 <= status < 300) {
        Err(
            Refusal::Invalid(
                "pluggy answered HTTP "@ + nat_text(status as nat) + " at "@ + path_in(url) + ": "@ + redacted(said_in(body), api_key),
            ),
        )
    } else {
        match document_in(vstd::utf8::encode_utf8(body)) {
            Ok(d) => Ok(d),
            Err(m) => Err(Refusal::Parse("pluggy answered "@ + path_in(url) + " with a body that is not JSON: "@ + m)),
        }
    }
}

/// Reads the answer to a request.
pub fn answer(response: &Response, url: &str, api_key: &str) -> (r: Result<String>)
    ensures
        match r {
            Ok(d) => answer_of(response.status, response.body@, url@, api_key@) == Ok::<Seq<char>, Refusal>(d@),
            Err(e) => answer_of(response.status, response.body@, url@, api_key@) == Err::<Seq<char>, Refusal>(e@),
        },
{
    let path = path_of(url);
    let status = response.status;
    if status == 429 {
        return Err(
            invalid(
                cat3(
                    "pluggy answered HTTP 429 (too many requests) at ",
                    path.as_str(),
                    ": Meu Pluggy does not document its rate and item limits, so wait and run the pull again",
                ).as_str(),
            ),
        );
    }
    if !(200 <= status && status < 300) {
        let said = redact(message_of(response.body.as_str()).as_str(), api_key);
        let head = cat4("pluggy answered HTTP ", nat_string(status as u128).as_str(), " at ", path.as_str());
        return Err(invalid(cat3(head.as_str(), ": ", said.as_str()).as_str()));
    }
    match read_document(response.body.as_str().as_bytes()) {
        Ok(d) => Ok(d),
        Err(m) => Err(unreadable(cat4("pluggy answered ", path.as_str(), " with a body that is not JSON: ", m.as_str()).as_str())),
    }
}

/// What a request comes to: the document in its answer, or what it failed for.
pub open spec fn heard(q: Sent, a: Reply) -> std::result::Result<Seq<char>, Refusal> {
    match a {
        Reply::Answer(status, body) => answer_of(status, body, q.url, q.api_key),
        Reply::Failure(f) => Err(f),
    }
}

/// A document or a refusal, as a contract sees it.
pub open spec fn told(r: Result<String>) -> std::result::Result<Seq<char>, Refusal> {
    match r {
        Ok(d) => Ok(d@),
        Err(e) => Err(e@),
    }
}

/// Sends a request and reads its answer.
fn call<T: Transport>(w: &mut Wire<'_, T>, request: Request<'_>) -> (r: Result<String>)
    ensures
        exists|a: Reply| #[trigger] exchanged(*old(w), *final(w), request@, a) && told(r) == heard(request@, a),
{
    let (url, api_key) = (request.url, request.api_key);
    let ghost q = request@;
    let ghost before = *w;
    let response = w.send(request);
    assert(exchanged(before, *w, q, reply_of(response)));
    match response {
        Ok(response) => answer(&response, url, api_key),
        Err(e) => Err(e),
    }
}

/// The API key in the answer to `POST /auth`, or what the answer is refused for. The body of a
/// refusal is dropped on purpose: it is the one answer that may echo what was sent, and no part of
/// a secret may reach an error message or a log line.
pub open spec fn key_of(status: u16, body: Seq<char>) -> std::result::Result<Seq<char>, Refusal> {
    if !(200 <= status < 300) {
        Err(
            Refusal::Invalid(
                "pluggy refused the credentials (HTTP "@ + nat_text(status as nat) + "); check PLUGGY_CLIENT_ID and PLUGGY_CLIENT_SECRET"@,
            ),
        )
    } else {
        match document_in(vstd::utf8::encode_utf8(body)) {
            Err(m) => Err(Refusal::Parse("pluggy answered /auth with a body that is not JSON: "@ + m)),
            Ok(d) => if field_of(d, "apiKey"@).len() == 0 {
                Err(Refusal::Parse("pluggy answered /auth without an apiKey"@))
            } else {
                Ok(field_of(d, "apiKey"@))
            },
        }
    }
}

/// Reads the API key in the answer to `POST /auth`, which is valid two hours.
pub fn key(response: &Response) -> (r: Result<String>)
    ensures
        match r {
            Ok(k) => key_of(response.status, response.body@) == Ok::<Seq<char>, Refusal>(k@),
            Err(e) => key_of(response.status, response.body@) == Err::<Seq<char>, Refusal>(e@),
        },
{
    let status = response.status;
    if !(200 <= status && status < 300) {
        return Err(
            invalid(
                cat3(
                    "pluggy refused the credentials (HTTP ",
                    nat_string(status as u128).as_str(),
                    "); check PLUGGY_CLIENT_ID and PLUGGY_CLIENT_SECRET",
                ).as_str(),
            ),
        );
    }
    match read_document(response.body.as_str().as_bytes()) {
        Err(m) => Err(unreadable(cat("pluggy answered /auth with a body that is not JSON: ", m.as_str()).as_str())),
        Ok(d) => {
            let k = str_field(d.as_str(), "apiKey");
            if k.as_str().is_empty() {
                Err(unreadable("pluggy answered /auth without an apiKey"))
            } else {
                Ok(k)
            }
        },
    }
}

/// The body of `POST /auth`.
pub open spec fn auth_body(client_id: Seq<char>, client_secret: Seq<char>) -> Seq<char> {
    "{\"clientId\":"@ + json_text(client_id) + ",\"clientSecret\":"@ + json_text(client_secret) + "}"@
}

fn auth_text(cred: &Credentials) -> (r: String)
    ensures
        r@ == auth_body(cred.client_id@, cred.client_secret@),
{
    cat5(
        "{\"clientId\":",
        json_string(cred.client_id.as_str()).as_str(),
        ",\"clientSecret\":",
        json_string(cred.client_secret.as_str()).as_str(),
        "}",
    )
}

/// The request that trades the two credentials for an API key.
pub open spec fn auth_call(base: Seq<char>, client_id: Seq<char>, client_secret: Seq<char>) -> Sent {
    Sent { method: "POST"@, url: base + "/auth"@, api_key: ""@, body: Some(auth_body(client_id, client_secret)) }
}

/// The URL of that request.
fn auth_url(base: &str) -> (r: String)
    ensures
        r@ == base@ + "/auth"@,
{
    cat(base, "/auth")
}

pub fn auth_request<'a>(url: &'a str, cred: &Credentials) -> (r: Request<'a>)
    ensures
        r@ == (Sent { method: "POST"@, url: url@, api_key: ""@, body: Some(auth_body(cred.client_id@, cred.client_secret@)) }),
{
    Request { method: "POST", url, api_key: "", body: Some(auth_text(cred)) }
}

/// A request that reads what is at a URL.
pub open spec fn read_call(url: Seq<char>, api_key: Seq<char>) -> Sent {
    Sent { method: "GET"@, url, api_key, body: None }
}

pub fn read_request<'a>(url: &'a str, api_key: &'a str) -> (r: Request<'a>)
    ensures
        r@ == read_call(url@, api_key@),
{
    Request { method: "GET", url, api_key, body: None }
}

pub open spec fn item_url_of(base: Seq<char>, item_id: Seq<char>) -> Seq<char> {
    base + "/items/"@ + item_id
}

pub open spec fn accounts_url_of(base: Seq<char>, item_id: Seq<char>) -> Seq<char> {
    base + "/accounts?itemId="@ + item_id
}

/// The request for fresh data of an item.
pub open spec fn update_call(base: Seq<char>, api_key: Seq<char>, item_id: Seq<char>) -> Sent {
    Sent { method: "PATCH"@, url: item_url_of(base, item_id), api_key, body: Some("{}"@) }
}

pub fn update_request<'a>(url: &'a str, api_key: &'a str) -> (r: Request<'a>)
    ensures
        r@ == (Sent { method: "PATCH"@, url: url@, api_key: api_key@, body: Some("{}"@) }),
{
    Request { method: "PATCH", url, api_key, body: Some(own("{}")) }
}

/// What asking for an API key comes to.
pub open spec fn key_heard(a: Reply) -> std::result::Result<Seq<char>, Refusal> {
    match a {
        Reply::Answer(status, body) => key_of(status, body),
        Reply::Failure(f) => Err(f),
    }
}

/// `POST /auth` trades the two credentials for an API key.
pub fn auth<T: Transport>(w: &mut Wire<'_, T>, base: &str, cred: &Credentials) -> (r: Result<String>)
    ensures
        exists|a: Reply|
            #[trigger] exchanged(*old(w), *final(w), auth_call(base@, cred.client_id@, cred.client_secret@), a) && told(r) == key_heard(a),
{
    let url = auth_url(base);
    let ghost before = *w;
    let response = w.send(auth_request(url.as_str(), cred));
    assert(exchanged(before, *w, auth_call(base@, cred.client_id@, cred.client_secret@), reply_of(response)));
    match response {
        Ok(response) => key(&response),
        Err(e) => Err(e),
    }
}

/// Reads an item, and asks nothing of it.
pub fn get_item<T: Transport>(w: &mut Wire<'_, T>, base: &str, api_key: &str, item_id: &str) -> (r: Result<String>)
    ensures
        ({
            let q = read_call(item_url_of(base@, item_id@), api_key@);
            exists|a: Reply| #[trigger] exchanged(*old(w), *final(w), q, a) && told(r) == heard(q, a)
        }),
{
    let url = cat3(base, "/items/", item_id);
    call(w, read_request(url.as_str(), api_key))
}

/// Asks a connector that supports refresh for fresh data.
pub fn request_update<T: Transport>(w: &mut Wire<'_, T>, base: &str, api_key: &str, item_id: &str) -> (r: Result<()>)
    ensures
        ({
            let q = update_call(base@, api_key@, item_id@);
            exists|a: Reply|
                #[trigger] exchanged(*old(w), *final(w), q, a) && match r {
                    Ok(_) => heard(q, a) is Ok,
                    Err(e) => heard(q, a) == Err::<Seq<char>, Refusal>(e@),
                }
        }),
{
    let url = cat3(base, "/items/", item_id);
    match call(w, update_request(url.as_str(), api_key)) {
        Ok(_) => Ok(()),
        Err(e) => Err(e),
    }
}

/// The documents that a page lists, where there is a page.
pub open spec fn listed(page: std::result::Result<Seq<char>, Refusal>) -> std::result::Result<Seq<Seq<char>>, Refusal> {
    match page {
        Ok(d) => Ok(list_at(d, "results"@)),
        Err(f) => Err(f),
    }
}

/// The accounts of an item, each as a document.
pub fn list_accounts<T: Transport>(w: &mut Wire<'_, T>, base: &str, api_key: &str, item_id: &str) -> (r: Result<Vec<String>>)
    ensures
        ({
            let q = read_call(accounts_url_of(base@, item_id@), api_key@);
            exists|a: Reply|
                #[trigger] exchanged(*old(w), *final(w), q, a) && match r {
                    Ok(v) => listed(heard(q, a)) == Ok::<Seq<Seq<char>>, Refusal>(texts(v@)),
                    Err(e) => listed(heard(q, a)) == Err::<Seq<Seq<char>>, Refusal>(e@),
                }
        }),
{
    let url = cat3(base, "/accounts?itemId=", item_id);
    match call(w, read_request(url.as_str(), api_key)) {
        Ok(page) => Ok(list(page.as_str(), "results")),
        Err(e) => Err(e),
    }
}

/// What comes next for an item that is being refreshed.
#[derive(Debug, Clone, Copy, PartialEq, Eq, Structural)]
pub enum Progress {
    Updated,
    /// `UPDATING` is the only state worth waiting on.
    Wait,
}

/// What the state of an item means. The states other than `UPDATED` and `UPDATING` need a person at
/// meu.pluggy.ai, so they are reported as they are.
pub open spec fn progress_of(item: Seq<char>, item_id: Seq<char>) -> std::result::Result<Progress, Refusal> {
    let status = uppered(field_of(item, "status"@));
    if status == "UPDATED"@ {
        Ok(Progress::Updated)
    } else if status == "UPDATING"@ {
        Ok(Progress::Wait)
    } else if status == "LOGIN_ERROR"@ || status == "WAITING_USER_INPUT"@ || status == "OUTDATED"@ {
        Err(
            Refusal::Invalid(
                "pluggy item "@ + item_id + " is "@ + status + ": open meu.pluggy.ai and connect that bank again, then run the pull"@,
            ),
        )
    } else {
        Err(Refusal::Invalid("pluggy item "@ + item_id + " is "@ + status + ", which is not a state this pull knows"@))
    }
}

pub fn progress(item: &str, item_id: &str) -> (r: Result<Progress>)
    ensures
        match r {
            Ok(p) => progress_of(item@, item_id@) == Ok::<Progress, Refusal>(p),
            Err(e) => progress_of(item@, item_id@) == Err::<Progress, Refusal>(e@),
        },
{
    let status = upper(str_field(item, "status").as_str());
    let s = status.as_str();
    if same(s, "UPDATED") {
        Ok(Progress::Updated)
    } else if same(s, "UPDATING") {
        Ok(Progress::Wait)
    } else if same(s, "LOGIN_ERROR") || same(s, "WAITING_USER_INPUT") || same(s, "OUTDATED") {
        Err(
            invalid(
                cat5("pluggy item ", item_id, " is ", s, ": open meu.pluggy.ai and connect that bank again, then run the pull").as_str(),
            ),
        )
    } else {
        Err(invalid(cat5("pluggy item ", item_id, " is ", s, ", which is not a state this pull knows").as_str()))
    }
}

/// After one more read of an item, `attempts` of them in all: go on, read it again, or give up.
pub fn wait_step(item: &str, item_id: &str, attempts: usize) -> (r: Result<Progress>)
    ensures
        match progress_of(item@, item_id@) {
            Err(e) => r matches Err(f) && f@ == e,
            Ok(Progress::Updated) => r == Ok::<Progress, crate::error::Error>(Progress::Updated),
            Ok(Progress::Wait) => if attempts < UPDATE_ATTEMPTS {
                r == Ok::<Progress, crate::error::Error>(Progress::Wait)
            } else {
                r matches Err(f) && f.invalid("pluggy item "@ + item_id@ + " was still UPDATING after 100 reads; run the pull again later"@)
            },
        },
{
    match progress(item, item_id) {
        Ok(Progress::Wait) => if attempts < UPDATE_ATTEMPTS {
            Ok(Progress::Wait)
        } else {
            Err(invalid(cat3("pluggy item ", item_id, " was still UPDATING after 100 reads; run the pull again later").as_str()))
        },
        other => other,
    }
}

/// A URL as it is written out.
pub uninterp spec fn url_in(s: Seq<char>) -> Option<Seq<char>>;

/// `url::Url::parse`: the URL in a text. How it is read is left unsaid.
#[verifier::external_body]
fn read_url(s: &str) -> (r: Option<String>)
    ensures
        opt_text(r) == url_in(s@),
{
    url::Url::parse(s).ok().map(|u| u.to_string())
}

/// A URL with one more pair in its query.
pub uninterp spec fn url_with_pair(url: Seq<char>, key: Seq<char>, value: Seq<char>) -> Option<Seq<char>>;

/// `append_pair` of the url crate's `query_pairs_mut`: the URL with the pair, encoded. How it is
/// encoded is left unsaid.
#[verifier::external_body]
fn with_pair(url: &str, key: &str, value: &str) -> (r: Option<String>)
    ensures
        opt_text(r) == url_with_pair(url@, key@, value@),
{
    let mut u = url::Url::parse(url).ok()?;
    u.query_pairs_mut().append_pair(key, value);
    Some(u.to_string())
}

/// The URL that a reference means on a page.
pub uninterp spec fn url_joined(base: Seq<char>, reference: Seq<char>) -> Option<Seq<char>>;

/// `url::Url::join`. What it gives is left unsaid.
#[verifier::external_body]
fn join_url(base: &str, reference: &str) -> (r: Option<String>)
    ensures
        opt_text(r) == url_joined(base@, reference@),
{
    url::Url::parse(base).ok()?.join(reference).ok().map(|u| u.to_string())
}

/// Whether two URLs have one origin.
pub uninterp spec fn one_origin(a: Seq<char>, b: Seq<char>) -> bool;

/// `url::Url::origin` of two URLs, compared. Which those are, is left unsaid.
#[verifier::external_body]
fn is_one_origin(a: &str, b: &str) -> (r: bool)
    ensures
        r == one_origin(a@, b@),
{
    match (url::Url::parse(a), url::Url::parse(b)) {
        (Ok(x), Ok(y)) => x.origin() == y.origin(),
        _ => false,
    }
}

/// The user that a URL names.
pub uninterp spec fn url_user(url: Seq<char>) -> Seq<char>;

/// `url::Url::username`, empty where there is none. Which it is, is left unsaid.
#[verifier::external_body]
fn user_in(url: &str) -> (r: String)
    ensures
        r@ == url_user(url@),
{
    url::Url::parse(url).map(|u| u.username().to_string()).unwrap_or_default()
}

/// The password that a URL names.
pub uninterp spec fn url_password(url: Seq<char>) -> Option<Seq<char>>;

/// `url::Url::password`. Which it is, is left unsaid.
#[verifier::external_body]
fn password_in(url: &str) -> (r: Option<String>)
    ensures
        opt_text(r) == url_password(url@),
{
    url::Url::parse(url).ok()?.password().map(|p| p.to_string())
}

/// Where an account's transactions are asked for.
pub open spec fn transactions_url_of(base: Seq<char>, account_id: Seq<char>, created_at_from: Option<Seq<char>>) -> Option<Seq<char>> {
    match url_in(base + "/v2/transactions"@) {
        None => None,
        Some(u) => match url_with_pair(u, "accountId"@, account_id) {
            None => None,
            Some(v) => match created_at_from {
                Some(c) => url_with_pair(v, "createdAtFrom"@, c),
                None => Some(v),
            },
        },
    }
}

pub open spec fn opt_str(s: Option<&str>) -> Option<Seq<char>> {
    match s {
        Some(t) => Some(t@),
        None => None,
    }
}

pub fn transactions_url(base: &str, account_id: &str, created_at_from: Option<&str>) -> (r: Result<String>)
    ensures
        match r {
            Ok(u) => transactions_url_of(base@, account_id@, opt_str(created_at_from)) == Some(u@),
            Err(e) => transactions_url_of(base@, account_id@, opt_str(created_at_from)) is None && e.invalid("invalid Pluggy URL"@),
        },
{
    let built = match read_url(cat(base, "/v2/transactions").as_str()) {
        None => None,
        Some(u) => match with_pair(u.as_str(), "accountId", account_id) {
            None => None,
            Some(v) => match created_at_from {
                Some(c) => with_pair(v.as_str(), "createdAtFrom", c),
                None => Some(v),
            },
        },
    };
    match built {
        Some(u) => Ok(u),
        None => Err(invalid("invalid Pluggy URL")),
    }
}

/// Whether a cursor is a URL, whole or in part.
pub open spec fn is_link(next: Seq<char>) -> bool {
    starts(next, "/"@) || starts(next, "\\"@) || holds(next, "://"@) || url_in(next) is Some
}

/// Where the next page is. URLs must retain the trusted origin; opaque cursors are encoded as one
/// query value.
pub open spec fn next_url_of(
    base: Seq<char>,
    page: Seq<char>,
    account_id: Seq<char>,
    created_at_from: Option<Seq<char>>,
) -> std::result::Result<Option<Seq<char>>, Refusal> {
    let next = field_of(page, "next"@);
    if next.len() == 0 {
        Ok(None)
    } else {
        match url_in(base) {
            None => Err(Refusal::Invalid("invalid Pluggy URL"@)),
            Some(trusted) => {
                let url = if is_link(next) {
                    match url_joined(trusted, next) {
                        Some(u) => Ok(u),
                        None => Err(Refusal::Invalid("invalid Pluggy pagination URL"@)),
                    }
                } else {
                    match transactions_url_of(base, account_id, created_at_from) {
                        None => Err(Refusal::Invalid("invalid Pluggy URL"@)),
                        Some(t) => match url_with_pair(t, "after"@, next) {
                            Some(u) => Ok(u),
                            None => Err(Refusal::Invalid("invalid Pluggy URL"@)),
                        },
                    }
                };
                match url {
                    Err(e) => Err(e),
                    Ok(u) => if !one_origin(u, trusted) || url_user(u).len() > 0 || url_password(u) is Some {
                        Err(Refusal::Invalid("Pluggy pagination must stay on the configured API origin"@))
                    } else {
                        Ok(Some(u))
                    },
                }
            },
        }
    }
}

pub fn next_url(base: &str, page: &str, account_id: &str, created_at_from: Option<&str>) -> (r: Result<Option<String>>)
    ensures
        match r {
            Ok(u) => next_url_of(base@, page@, account_id@, opt_str(created_at_from)) == Ok::<Option<Seq<char>>, Refusal>(opt_text(u)),
            Err(e) => next_url_of(base@, page@, account_id@, opt_str(created_at_from)) == Err::<Option<Seq<char>>, Refusal>(e@),
        },
{
    let next = str_field(page, "next");
    let n = next.as_str();
    if n.is_empty() {
        return Ok(None);
    }
    let trusted = match read_url(base) {
        Some(u) => u,
        None => {
            return Err(invalid("invalid Pluggy URL"));
        },
    };
    let url = if starts_with(n, "/") || starts_with(n, "\\") || contains(n, "://") || read_url(n).is_some() {
        match join_url(trusted.as_str(), n) {
            Some(u) => u,
            None => {
                return Err(invalid("invalid Pluggy pagination URL"));
            },
        }
    } else {
        let t = match transactions_url(base, account_id, created_at_from) {
            Ok(t) => t,
            Err(e) => {
                return Err(e);
            },
        };
        match with_pair(t.as_str(), "after", n) {
            Some(u) => u,
            None => {
                return Err(invalid("invalid Pluggy URL"));
            },
        }
    };
    if !is_one_origin(url.as_str(), trusted.as_str()) || !user_in(url.as_str()).as_str().is_empty() || password_in(url.as_str()).is_some() {
        return Err(invalid("Pluggy pagination must stay on the configured API origin"));
    }
    Ok(Some(url))
}

/// A request for a page of transactions, with its reply.
pub open spec fn page_in(x: (Sent, Reply)) -> std::result::Result<Seq<char>, Refusal> {
    heard(x.0, x.1)
}

/// Whether the page after the `i`-th was asked for where the `i`-th said.
pub open spec fn leads_on(log: Seq<(Sent, Reply)>, i: int, base: Seq<char>, account_id: Seq<char>, created_at_from: Option<Seq<char>>) -> bool {
    &&& page_in(log[i]) is Ok
    &&& next_url_of(base, page_in(log[i])->Ok_0, account_id, created_at_from) == Ok::<Option<Seq<char>>, Refusal>(Some(log[i + 1].0.url))
}

/// Whether pages of transactions were asked for one after the other: the first where an account's
/// transactions are, each other one where the page before it said, and no more than there may be.
pub open spec fn followed(
    log: Seq<(Sent, Reply)>,
    base: Seq<char>,
    api_key: Seq<char>,
    account_id: Seq<char>,
    created_at_from: Option<Seq<char>>,
) -> bool {
    &&& 0 < log.len() <= MAX_PAGES
    &&& transactions_url_of(base, account_id, created_at_from) == Some(log[0].0.url)
    &&& forall|i: int| 0 <= i < log.len() ==> (#[trigger] log[i]).0 == read_call(log[i].0.url, api_key)
    &&& forall|i: int| 0 <= i < log.len() - 1 ==> #[trigger] leads_on(log, i, base, account_id, created_at_from)
}

/// The transactions on the first `n` pages.
pub open spec fn results_on(log: Seq<(Sent, Reply)>, n: nat) -> Seq<Seq<char>>
    decreases n,
{
    if n == 0 {
        Seq::empty()
    } else {
        results_on(log, (n - 1) as nat) + list_at(page_in(log[n - 1])->Ok_0, "results"@)
    }
}

pub const TOO_MANY_PAGES: &'static str = "pluggy still offered another page of transactions after 1000 of them; narrow the window with --since";

/// What pages come to: all their transactions and how many pages there were, or what the last one
/// failed for.
pub open spec fn fetched(log: Seq<(Sent, Reply)>, base: Seq<char>, account_id: Seq<char>, created_at_from: Option<Seq<char>>) -> std::result::Result<
    (Seq<Seq<char>>, nat),
    Refusal,
> {
    match page_in(log.last()) {
        Err(f) => Err(f),
        Ok(page) => match next_url_of(base, page, account_id, created_at_from) {
            Err(f) => Err(f),
            Ok(None) => Ok((results_on(log, log.len()), log.len())),
            Ok(Some(_)) => Err(Refusal::Invalid(TOO_MANY_PAGES@)),
        },
    }
}

/// Whether pages end where they have to: another one that is offered is asked for, up to the limit.
pub open spec fn exhausted(log: Seq<(Sent, Reply)>, base: Seq<char>, account_id: Seq<char>, created_at_from: Option<Seq<char>>) -> bool {
    page_in(log.last()) matches Ok(page) ==> next_url_of(base, page, account_id, created_at_from) matches Ok(Some(_)) ==> log.len()
        == MAX_PAGES
}

/// The transactions of pages and their number, or a refusal, as a contract sees them.
pub open spec fn fetched_told(r: Result<(Vec<String>, usize)>) -> std::result::Result<(Seq<Seq<char>>, nat), Refusal> {
    match r {
        Ok((v, n)) => Ok((texts(v@), n as nat)),
        Err(e) => Err(e@),
    }
}

/// Fetches an account's transactions, page after page, and says how many pages there were.
pub fn fetch_transactions<T: Transport>(
    w: &mut Wire<'_, T>,
    base: &str,
    api_key: &str,
    account_id: &str,
    created_at_from: Option<&str>,
) -> (r: Result<(Vec<String>, usize)>)
    ensures
        ({
            let from = opt_str(created_at_from);
            if transactions_url_of(base@, account_id@, from) is None {
                *final(w) == *old(w) && (r matches Err(e) && e.invalid("invalid Pluggy URL"@))
            } else {
                exists|log: Seq<(Sent, Reply)>|
                    #[trigger] carried(*old(w), *final(w), log) && followed(log, base@, api_key@, account_id@, from) && exhausted(
                        log,
                        base@,
                        account_id@,
                        from,
                    ) && fetched_told(r) == fetched(log, base@, account_id@, from)
            }
        }),
{
    let ghost start = *w;
    let ghost from = opt_str(created_at_from);
    let mut url = match transactions_url(base, account_id, created_at_from) {
        Ok(u) => u,
        Err(e) => {
            return Err(e);
        },
    };
    let mut all: Vec<String> = Vec::new();
    let mut pages: usize = 0;
    let ghost mut log: Seq<(Sent, Reply)> = Seq::empty();
    assert(texts(all@) =~= results_on(log, 0));
    assert(start.log() =~= start.log() + log);
    loop
        invariant
            start == *old(w),
            from == opt_str(created_at_from),
            pages < MAX_PAGES,
            log.len() == pages,
            texts(all@) == results_on(log, pages as nat),
            transactions_url_of(base@, account_id@, from) is Some,
            carried(start, *w, log),
            pages > 0 ==> followed(log, base@, api_key@, account_id@, from),
            pages == 0 ==> transactions_url_of(base@, account_id@, from) == Some(url@),
            pages > 0 ==> page_in(log.last()) is Ok && next_url_of(base@, page_in(log.last())->Ok_0, account_id@, from) == Ok::<
                Option<Seq<char>>,
                Refusal,
            >(Some(url@)),
        decreases MAX_PAGES - pages,
    {
        let ghost mid = *w;
        let ghost before = log;
        let ghost q = read_call(url@, api_key@);
        let answer = call(w, read_request(url.as_str(), api_key));
        proof {
            let a = choose|a: Reply| #[trigger] exchanged(mid, *w, q, a) && told(answer) == heard(q, a);
            lemma_carried_one(mid, *w, q, a);
            lemma_carried_on(start, mid, *w, before, seq![(q, a)]);
            log = before + seq![(q, a)];
            assert(log.last() == (q, a));
            assert forall|i: int| 0 <= i < log.len() implies (#[trigger] log[i]).0 == read_call(log[i].0.url, api_key@) by {
                if i < before.len() {
                    assert(log[i] == before[i]);
                }
            }
            assert forall|i: int| 0 <= i < log.len() - 1 implies #[trigger] leads_on(log, i, base@, account_id@, from) by {
                assert(log[i] == before[i]);
                if i + 1 < before.len() {
                    assert(log[i + 1] == before[i + 1]);
                    assert(leads_on(before, i, base@, account_id@, from));
                } else {
                    assert(before.last() == before[i]);
                }
            }
            if before.len() > 0 {
                assert(log[0] == before[0]);
            }
            assert(followed(log, base@, api_key@, account_id@, from));
        }
        let page = match answer {
            Ok(p) => p,
            Err(e) => {
                return Err(e);
            },
        };
        let mut found = list(page.as_str(), "results");
        let ghost was = all@;
        let ghost more = found@;
        all.append(&mut found);
        pages = pages + 1;
        proof {
            assert(all@ =~= was + more);
            assert(texts(all@) =~= texts(was) + texts(more));
            lemma_results_prefix(before, log, before.len());
            assert(results_on(log, pages as nat) =~= texts(all@));
        }
        match next_url(base, page.as_str(), account_id, created_at_from) {
            Err(e) => {
                return Err(e);
            },
            Ok(None) => {
                return Ok((all, pages));
            },
            Ok(Some(u)) => {
                if pages >= MAX_PAGES {
                    return Err(invalid(TOO_MANY_PAGES));
                }
                url = u;
            },
        }
    }
}

proof fn lemma_results_prefix(a: Seq<(Sent, Reply)>, b: Seq<(Sent, Reply)>, n: nat)
    requires
        n <= a.len() <= b.len(),
        forall|i: int| 0 <= i < a.len() ==> a[i] == #[trigger] b[i],
    ensures
        results_on(b, n) == results_on(a, n),
    decreases n,
{
    if n > 0 {
        lemma_results_prefix(a, b, (n - 1) as nat);
        assert(a[n - 1] == b[n - 1]);
    }
}

/// Fetching transactions only reads, and every page but the first is asked for on the origin of the
/// configured API and without credentials in its URL, whatever the page before it said.
pub proof fn law_pages_stay_on_origin(log: Seq<(Sent, Reply)>, base: Seq<char>, api_key: Seq<char>, account_id: Seq<char>, created_at_from: Option<Seq<char>>)
    requires
        followed(log, base, api_key, account_id, created_at_from),
    ensures
        only_reads(log),
        forall|i: int|
            0 < i < log.len() ==> url_in(base) is Some && one_origin((#[trigger] log[i]).0.url, url_in(base)->0) && url_user(log[i].0.url).len()
                == 0 && url_password(log[i].0.url) is None,
{
    assert forall|i: int| 0 < i < log.len() implies url_in(base) is Some && one_origin((#[trigger] log[i]).0.url, url_in(base)->0) && url_user(
        log[i].0.url,
    ).len() == 0 && url_password(log[i].0.url) is None by {
        assert(leads_on(log, i - 1, base, account_id, created_at_from));
    }
}

/// A text without a character at its end.
pub open spec fn without_end(s: Seq<char>, c: char) -> Seq<char>
    decreases s.len(),
{
    if s.len() > 0 && s.last() == c {
        without_end(s.drop_last(), c)
    } else {
        s
    }
}

/// A text without a character at its start.
pub open spec fn without_start(s: Seq<char>, c: char) -> Seq<char>
    decreases s.len(),
{
    if s.len() > 0 && s[0] == c {
        without_start(s.skip(1), c)
    } else {
        s
    }
}

fn drop_end(s: &[char], c: char) -> (r: Vec<char>)
    ensures
        r@ == without_end(s@, c),
{
    let mut n: usize = s.len();
    assert(s@.take(n as int) =~= s@);
    while n > 0 && s[n - 1] == c
        invariant
            n <= s.len(),
            without_end(s@, c) == without_end(s@.take(n as int), c),
        decreases n,
    {
        assert(s@.take(n as int).drop_last() =~= s@.take(n - 1));
        n = n - 1;
    }
    let r = slice_chars(s, 0, n);
    assert(r@ =~= s@.take(n as int));
    r
}

fn drop_start(s: &[char], c: char) -> (r: Vec<char>)
    ensures
        r@ == without_start(s@, c),
{
    let mut i: usize = 0;
    assert(s@.skip(0) =~= s@);
    while i < s.len() && s[i] == c
        invariant
            i <= s.len(),
            without_start(s@, c) == without_start(s@.skip(i as int), c),
        decreases s.len() - i,
    {
        assert(s@.skip(i as int).skip(1) =~= s@.skip(i + 1));
        i = i + 1;
    }
    let r = slice_chars(s, i, s.len());
    assert(r@ =~= s@.skip(i as int));
    r
}

/// Where the authority of a URL ends, from `i` on.
pub open spec fn authority_end(s: Seq<char>, i: int) -> int
    decreases s.len() - i,
{
    if i < 0 || i >= s.len() || s[i] == '/' || s[i] == '?' || s[i] == '#' {
        i
    } else {
        authority_end(s, i + 1)
    }
}

/// The host of an authority, without its port and without brackets.
pub open spec fn host_of(authority: Seq<char>) -> Seq<char> {
    let bare = match crate::money::last_of(authority, ':') {
        Some(p) => {
            let port = authority.skip(p + 1);
            if port.len() > 0 && crate::text::all_digits(port) {
                authority.take(p)
            } else {
                authority
            }
        },
        None => authority,
    };
    without_end(without_start(bare, '['), ']')
}

/// The base of an API's URLs, its scheme and its host.
pub struct Api {
    pub base: Seq<char>,
    pub scheme: Seq<char>,
    pub host: Seq<char>,
}

pub open spec fn base_of(url: Seq<char>) -> Seq<char> {
    without_end(trimmed(url), '/')
}

pub open spec fn api_of(url: Seq<char>) -> Option<Api> {
    let base = base_of(url);
    match position(base, "://"@, 0) {
        None => None,
        Some(p) => {
            let rest = base.skip(p + 3);
            Some(Api { base, scheme: lowered(base.take(p)), host: host_of(rest.take(authority_end(rest, 0))) })
        },
    }
}

/// The base of the API, where the two credentials may go to it: an absolute `https` URL, or plain
/// `http` only to a loopback host (the stub server of a test, a local proxy). Anything else would
/// carry a secret to an undeclared host, in cleartext or not at all.
pub open spec fn checked(url: Seq<char>, loopback_address: bool) -> std::result::Result<Seq<char>, Refusal> {
    match api_of(url) {
        None => Err(Refusal::Invalid("--api must be an absolute http or https URL, not "@ + debug_text(base_of(url)))),
        Some(a) => if a.host.len() == 0 {
            Err(Refusal::Invalid("--api "@ + debug_text(a.base) + " names no host"@))
        } else if a.scheme == "https"@ {
            Ok(a.base)
        } else if a.scheme == "http"@ {
            if loopback_address || lowered(a.host) == "localhost"@ {
                Ok(a.base)
            } else {
                Err(
                    Refusal::Invalid(
                        "--api "@ + debug_text(a.base) + " is plain http to "@ + a.host
                            + ": the credentials would travel in the clear. Use https, or http only to a loopback host"@,
                    ),
                )
            }
        } else {
            Err(Refusal::Invalid("--api must be an absolute http or https URL, not a "@ + debug_text(a.scheme) + " one"@))
        },
    }
}

struct ApiText {
    base: String,
    scheme: String,
    host: String,
}

fn last_colon(s: &[char]) -> (r: Option<usize>)
    ensures
        match r {
            Some(p) => crate::money::last_of(s@, ':') == Some(p as int) && p < s@.len(),
            None => crate::money::last_of(s@, ':') is None,
        },
{
    let mut last: Option<usize> = None;
    let mut i: usize = 0;
    while i < s.len()
        invariant
            i <= s.len(),
            match last {
                Some(p) => crate::money::last_of(s@.take(i as int), ':') == Some(p as int) && p < i,
                None => crate::money::last_of(s@.take(i as int), ':') is None,
            },
        decreases s.len() - i,
    {
        assert(s@.take(i + 1).drop_last() =~= s@.take(i as int));
        if s[i] == ':' {
            last = Some(i);
        }
        i = i + 1;
    }
    assert(s@.take(i as int) =~= s@);
    last
}

fn are_digits(s: &[char]) -> (r: bool)
    ensures
        r == crate::text::all_digits(s@),
{
    let mut i: usize = 0;
    while i < s.len()
        invariant
            i <= s.len(),
            forall|k: int| 0 <= k < i ==> is_digit(#[trigger] s@[k]),
        decreases s.len() - i,
    {
        if !ascii_digit(s[i]) {
            assert(!is_digit(s@[i as int]));
            return false;
        }
        i = i + 1;
    }
    true
}

fn host_in(authority: &[char]) -> (r: Vec<char>)
    ensures
        r@ == host_of(authority@),
{
    let mut end: usize = authority.len();
    if let Some(p) = last_colon(authority) {
        let port = slice_chars(authority, p + 1, authority.len());
        assert(port@ =~= authority@.skip(p + 1));
        if port.len() > 0 && are_digits(&port) {
            end = p;
        }
    }
    let bare = slice_chars(authority, 0, end);
    assert(bare@ =~= authority@.take(end as int));
    assert(authority@.take(authority@.len() as int) =~= authority@);
    drop_end(&drop_start(&bare, '['), ']')
}

fn read_api(url: &str) -> (r: Option<ApiText>)
    ensures
        match r {
            Some(a) => api_of(url@) == Some(Api { base: a.base@, scheme: a.scheme@, host: a.host@ }),
            None => api_of(url@) is None,
        },
{
    let base = drop_end(&chars(trim(url).as_str()), '/');
    let mark = chars("://");
    proof {
        reveal_strlit("://");
    }
    match find(&base, &mark, 0) {
        None => None,
        Some(p) => {
            let rest = slice_chars(&base, p + 3, base.len());
            assert(rest@ =~= base@.skip(p + 3));
            let mut i: usize = 0;
            while i < rest.len() && rest[i] != '/' && rest[i] != '?' && rest[i] != '#'
                invariant
                    i <= rest.len(),
                    authority_end(rest@, 0) == authority_end(rest@, i as int),
                decreases rest.len() - i,
            {
                i = i + 1;
            }
            let authority = slice_chars(&rest, 0, i);
            assert(authority@ =~= rest@.take(i as int));
            let scheme = slice_chars(&base, 0, p);
            assert(scheme@ =~= base@.take(p as int));
            Some(
                ApiText {
                    base: crate::text::string(&base),
                    scheme: lower(crate::text::string(&scheme).as_str()),
                    host: crate::text::string(&host_in(&authority)),
                },
            )
        },
    }
}

/// The host of an API, of which the caller tells `checked_base` whether it is a loopback address.
pub fn api_host(url: &str) -> (r: Option<String>)
    ensures
        opt_text(r) == (match api_of(url@) {
            Some(a) => Some(a.host),
            None => None,
        }),
{
    match read_api(url) {
        Some(a) => Some(a.host),
        None => None,
    }
}

/// Checks where the two credentials go. Whether the host is the address of a loopback interface is
/// for the caller to say, by the address and not the text it is written in:
/// "127.0.0.1.tunnel.example" begins with 127. and is an ordinary DNS name that resolves wherever
/// its owner publishes it.
pub fn checked_base(url: &str, loopback_address: bool) -> (r: Result<String>)
    ensures
        match r {
            Ok(b) => checked(url@, loopback_address) == Ok::<Seq<char>, Refusal>(b@),
            Err(e) => checked(url@, loopback_address) == Err::<Seq<char>, Refusal>(e@),
        },
{
    let a = match read_api(url) {
        Some(a) => a,
        None => {
            let base = crate::text::string(&drop_end(&chars(trim(url).as_str()), '/'));
            return Err(invalid(cat("--api must be an absolute http or https URL, not ", quoted(base.as_str()).as_str()).as_str()));
        },
    };
    let shown = quoted(a.base.as_str());
    if a.host.as_str().is_empty() {
        return Err(invalid(cat3("--api ", shown.as_str(), " names no host").as_str()));
    }
    if same(a.scheme.as_str(), "https") {
        return Ok(a.base);
    }
    if same(a.scheme.as_str(), "http") {
        if loopback_address || same(lower(a.host.as_str()).as_str(), "localhost") {
            return Ok(a.base);
        }
        return Err(
            invalid(
                cat5(
                    "--api ",
                    shown.as_str(),
                    " is plain http to ",
                    a.host.as_str(),
                    ": the credentials would travel in the clear. Use https, or http only to a loopback host",
                ).as_str(),
            ),
        );
    }
    Err(invalid(cat3("--api must be an absolute http or https URL, not a ", quoted(a.scheme.as_str()).as_str(), " one").as_str()))
}

/// The credentials go only to a host over https, or to the loopback interface.
pub proof fn law_secrets_stay_private(url: Seq<char>, loopback_address: bool)
    ensures
        checked(url, loopback_address) matches Ok(base) ==> base == base_of(url) && api_of(url) is Some && ({
            let a = api_of(url)->0;
            a.host.len() > 0 && (a.scheme == "https"@ || (a.scheme == "http"@ && (loopback_address || lowered(a.host) == "localhost"@)))
        }),
{
}

/// What a provider says of one of its accounts.
pub open spec fn describes(c: ConnectionAccount, account: Seq<char>, item: Seq<char>) -> bool {
    &&& c.id == 0
    &&& c.channel@ == "pluggy"@
    &&& c.item_id@ == item
    &&& c.provider_account_id@ == field_of(account, "id"@)
    &&& uuid_text(c.provider_account_id@)
    &&& c.provider_type@ == field_of(account, "type"@)
    &&& c.name@ == field_of(account, "name"@)
    &&& c.currency@ == uppercase_of(field_of(account, "currencyCode"@))
    &&& c.account_id is None
    &&& c.account_path@ == Seq::<char>::empty()
    &&& c.entity_id is None
    &&& c.last_pull_at@ == Seq::<char>::empty()
    &&& c.booked_from@ == Seq::<char>::empty()
}

/// The connections to the accounts that an item lists.
pub fn discovered(accounts: &Vec<String>, item: &str) -> (r: Result<Vec<ConnectionAccount>>)
    ensures
        match r {
            Ok(v) => v@.len() == accounts@.len() && forall|i: int| 0 <= i < v@.len() ==> describes(#[trigger] v@[i], texts(accounts@)[i], item@),
            Err(e) => e.unreadable("Pluggy account must be a UUID"@) && exists|i: int|
                0 <= i < accounts@.len() && !uuid_text(field_of((#[trigger] accounts@[i])@, "id"@)),
        },
{
    let mut r: Vec<ConnectionAccount> = Vec::new();
    let mut i: usize = 0;
    while i < accounts.len()
        invariant
            i <= accounts.len(),
            r@.len() == i,
            forall|k: int| 0 <= k < i ==> describes(#[trigger] r@[k], texts(accounts@)[k], item@),
        decreases accounts.len() - i,
    {
        let a = accounts[i].as_str();
        let id = str_field(a, "id");
        if !is_uuid(id.as_str()) {
            assert(!uuid_text(field_of(accounts@[i as int]@, "id"@)));
            return Err(unreadable("Pluggy account must be a UUID"));
        }
        let c = ConnectionAccount {
            id: 0,
            channel: own("pluggy"),
            item_id: own(item),
            provider_account_id: id,
            provider_type: str_field(a, "type"),
            name: str_field(a, "name"),
            currency: to_uppercase(str_field(a, "currencyCode").as_str()),
            account_id: None,
            account_path: String::new(),
            entity_id: None,
            last_pull_at: String::new(),
            booked_from: String::new(),
        };
        assert(c.account_path@ =~= Seq::<char>::empty());
        assert(c.last_pull_at@ =~= Seq::<char>::empty());
        assert(c.booked_from@ =~= Seq::<char>::empty());
        assert(describes(c, texts(accounts@)[i as int], item@));
        r.push(c);
        i = i + 1;
    }
    Ok(r)
}

/// Whether a list of accounts is answered by the connections to them, or by a refusal where one of
/// them has no identity.
pub open spec fn connects(r: Result<(String, Vec<ConnectionAccount>)>, status: Seq<char>, accounts: Seq<Seq<char>>, item: Seq<char>) -> bool {
    match r {
        Ok((s, v)) => {
            &&& s@ == status
            &&& v@.len() == accounts.len()
            &&& forall|i: int| 0 <= i < v@.len() ==> describes(#[trigger] v@[i], accounts[i], item)
        },
        Err(e) => e.unreadable("Pluggy account must be a UUID"@) && exists|i: int|
            0 <= i < accounts.len() && !uuid_text(field_of(#[trigger] accounts[i], "id"@)),
    }
}

/// Whether an inspection went as it has to: the key is asked for, then the item is read, then its
/// accounts, as far as each step succeeds, and `r` is what came of it.
pub open spec fn inspected(
    log: Seq<(Sent, Reply)>,
    cred: Credentials,
    base: Seq<char>,
    item: Seq<char>,
    r: Result<(String, Vec<ConnectionAccount>)>,
) -> bool {
    &&& log.len() > 0
    &&& log[0].0 == auth_call(base, cred.client_id@, cred.client_secret@)
    &&& match key_heard(log[0].1) {
        Err(f) => log.len() == 1 && (r matches Err(e) && e@ == f),
        Ok(k) => {
            &&& log.len() > 1
            &&& log[1].0 == read_call(item_url_of(base, item), k)
            &&& match heard(log[1].0, log[1].1) {
                Err(f) => log.len() == 2 && (r matches Err(e) && e@ == f),
                Ok(d) => {
                    &&& log.len() == 3
                    &&& log[2].0 == read_call(accounts_url_of(base, item), k)
                    &&& match listed(heard(log[2].0, log[2].1)) {
                        Err(f) => r matches Err(e) && e@ == f,
                        Ok(accounts) => connects(r, field_of(d, "status"@), accounts, item),
                    }
                },
            }
        },
    }
}

/// Inspects an item and its accounts over a line, at a base that was checked.
fn inspect<T: Transport>(w: &mut Wire<'_, T>, cred: &Credentials, base: &str, item: &str) -> (r: Result<(String, Vec<ConnectionAccount>)>)
    ensures
        exists|log: Seq<(Sent, Reply)>| #[trigger] carried(*old(w), *final(w), log) && inspected(log, *cred, base@, item@, r),
{
    let ghost start = *w;
    let asked = auth(w, base, cred);
    let ghost q0 = auth_call(base@, cred.client_id@, cred.client_secret@);
    let ghost a0 = choose|a: Reply| #[trigger] exchanged(start, *w, q0, a) && told(asked) == key_heard(a);
    let ghost log0 = seq![(q0, a0)];
    proof {
        lemma_carried_one(start, *w, q0, a0);
    }
    let api_key = match asked {
        Ok(k) => k,
        Err(e) => {
            assert(carried(start, *w, log0));
            return Err(e);
        },
    };
    let ghost mid = *w;
    let read = get_item(w, base, api_key.as_str(), item);
    let ghost q1 = read_call(item_url_of(base@, item@), api_key@);
    let ghost a1 = choose|a: Reply| #[trigger] exchanged(mid, *w, q1, a) && told(read) == heard(q1, a);
    let ghost log1 = log0 + seq![(q1, a1)];
    proof {
        lemma_carried_one(mid, *w, q1, a1);
        lemma_carried_on(start, mid, *w, log0, seq![(q1, a1)]);
        assert(log1[0] == (q0, a0) && log1[1] == (q1, a1));
    }
    let state = match read {
        Ok(d) => d,
        Err(e) => {
            assert(carried(start, *w, log1));
            return Err(e);
        },
    };
    let status = str_field(state.as_str(), "status");
    let ghost late = *w;
    let page = list_accounts(w, base, api_key.as_str(), item);
    let ghost q2 = read_call(accounts_url_of(base@, item@), api_key@);
    let ghost a2 = choose|a: Reply|
        #[trigger] exchanged(late, *w, q2, a) && match page {
            Ok(v) => listed(heard(q2, a)) == Ok::<Seq<Seq<char>>, Refusal>(texts(v@)),
            Err(e) => listed(heard(q2, a)) == Err::<Seq<Seq<char>>, Refusal>(e@),
        };
    let ghost log2 = log1 + seq![(q2, a2)];
    proof {
        lemma_carried_one(late, *w, q2, a2);
        lemma_carried_on(start, late, *w, log1, seq![(q2, a2)]);
        assert(log2[0] == (q0, a0) && log2[1] == (q1, a1) && log2[2] == (q2, a2));
        assert(carried(start, *w, log2));
    }
    match page {
        Ok(accounts) => match discovered(&accounts, item) {
            Ok(v) => Ok((status, v)),
            Err(e) => {
                proof {
                    let i = choose|i: int| 0 <= i < accounts@.len() && !uuid_text(field_of((#[trigger] accounts@[i])@, "id"@));
                    assert(texts(accounts@)[i] == accounts@[i]@);
                }
                Err(e)
            },
        },
        Err(e) => Err(e),
    }
}

/// Whether every reply of a log is what a transport gave for its request.
pub open spec fn genuine<T: Transport>(t: &T, log: Seq<(Sent, Reply)>) -> bool {
    forall|i: int| 0 <= i < log.len() ==> answered(t, (#[trigger] log[i]).0, log[i].1)
}

/// Inspects an item and its accounts without refreshing or downloading transactions.
pub fn discover<T: Transport>(transport: &T, cred: &Credentials, base: &str, loopback_address: bool, item: &str) -> (r: Result<
    (String, Vec<ConnectionAccount>),
>)
    ensures
        if !uuid_text(item@) {
            r matches Err(e) && e.invalid("Pluggy item must be a UUID"@)
        } else {
            match checked(base@, loopback_address) {
                Err(f) => r matches Err(e) && e@ == f,
                Ok(root) => exists|log: Seq<(Sent, Reply)>| #[trigger] genuine(transport, log) && inspected(log, *cred, root, item@, r),
            }
        },
{
    if !is_uuid(item) {
        return Err(invalid("Pluggy item must be a UUID"));
    }
    let root = match checked_base(base, loopback_address) {
        Ok(b) => b,
        Err(e) => {
            return Err(e);
        },
    };
    let mut w = Wire::new(transport);
    let ghost start = w;
    let r = inspect(&mut w, cred, root.as_str(), item);
    proof {
        let log = choose|log: Seq<(Sent, Reply)>| #[trigger] carried(start, w, log) && inspected(log, *cred, root@, item@, r);
        assert(genuine(transport, log));
    }
    r
}

/// An inspection asks for a key once and then only reads; each request goes to the base that was
/// checked, and the credentials go with the first one alone.
pub proof fn law_inspection_reads(log: Seq<(Sent, Reply)>, cred: Credentials, base: Seq<char>, item: Seq<char>, r: Result<(String, Vec<ConnectionAccount>)>)
    requires
        inspected(log, cred, base, item, r),
    ensures
        only_reads(log.skip(1)),
        forall|i: int| 0 <= i < log.len() ==> starts((#[trigger] log[i]).0.url, base),
        forall|i: int| 1 <= i < log.len() ==> (#[trigger] log[i]).0.body is None,
{
    assert forall|i: int| 0 <= i < log.len() implies starts((#[trigger] log[i]).0.url, base) by {
        assert(log[i].0.url.subrange(0, base.len() as int) =~= base);
    }
}

/// When Pluggy must have recorded a transaction to be asked for: since a day, or since the last
/// pull, but for a pull that is limited by booking date.
pub open spec fn window_of(since: Option<Date>, booked_from: Option<Date>, cursor: Seq<char>) -> Option<Seq<char>> {
    match since {
        Some(d) => Some(iso_text(d) + "T00:00:00.000Z"@),
        None => if booked_from is Some || cursor.len() == 0 {
            None
        } else {
            Some(cursor)
        },
    }
}

pub fn window(since: Option<Date>, booked_from: Option<Date>, cursor: &str) -> (r: Option<String>)
    ensures
        opt_text(r) == window_of(since, booked_from, cursor@),
{
    match since {
        Some(d) => Some(cat(iso(d).as_str(), "T00:00:00.000Z")),
        None => if booked_from.is_some() || cursor.is_empty() {
            None
        } else {
            Some(own(cursor))
        },
    }
}

/// The first of the first `n` transactions without a day.
pub open spec fn undated(txs: Seq<Seq<char>>, i: int) -> Option<int>
    decreases txs.len() - i,
{
    if i < 0 || i >= txs.len() {
        None
    } else if date_at(txs[i], "date"@) is None {
        Some(i)
    } else {
        undated(txs, i + 1)
    }
}

/// The first `n` transactions that were booked on a day or later.
pub open spec fn booked_since(txs: Seq<Seq<char>>, from: Date, n: nat) -> Seq<Seq<char>>
    decreases n,
{
    if n == 0 {
        Seq::empty()
    } else {
        let before = booked_since(txs, from, (n - 1) as nat);
        let d = date_at(txs[n - 1], "date"@);
        if d is Some && !(d->0).before(from) {
            before.push(txs[n - 1])
        } else {
            before
        }
    }
}

/// The transactions that a pull keeps. A missing date cannot safely be classified as before or
/// after the cutoff.
pub open spec fn kept_of(txs: Seq<Seq<char>>, booked_from: Option<Date>) -> std::result::Result<Seq<Seq<char>>, Refusal> {
    match booked_from {
        None => Ok(txs),
        Some(from) => match undated(txs, 0) {
            Some(i) => Err(
                Refusal::Parse(
                    "Pluggy transaction "@ + field_of(txs[i], "id"@) + " has no valid booking date; cannot apply --booked-from"@,
                ),
            ),
            None => Ok(booked_since(txs, from, txs.len())),
        },
    }
}

pub fn keep(txs: Vec<String>, booked_from: Option<Date>) -> (r: Result<Vec<String>>)
    ensures
        match r {
            Ok(v) => kept_of(texts(txs@), booked_from) == Ok::<Seq<Seq<char>>, Refusal>(texts(v@)) && v@.len() <= txs@.len(),
            Err(e) => kept_of(texts(txs@), booked_from) == Err::<Seq<Seq<char>>, Refusal>(e@),
        },
{
    let from = match booked_from {
        Some(d) => d,
        None => {
            return Ok(txs);
        },
    };
    let ghost ts = texts(txs@);
    let mut i: usize = 0;
    while i < txs.len()
        invariant
            i <= txs.len(),
            ts == texts(txs@),
            booked_from == Some(from),
            undated(ts, 0) == undated(ts, i as int),
        decreases txs.len() - i,
    {
        let tx = txs[i].as_str();
        assert(tx@ == ts[i as int]);
        if date_field(tx, "date").is_none() {
            return Err(
                unreadable(
                    cat3("Pluggy transaction ", str_field(tx, "id").as_str(), " has no valid booking date; cannot apply --booked-from").as_str(),
                ),
            );
        }
        i = i + 1;
    }
    let mut r: Vec<String> = Vec::new();
    let mut j: usize = 0;
    assert(texts(r@) =~= Seq::<Seq<char>>::empty());
    while j < txs.len()
        invariant
            j <= txs.len(),
            ts == texts(txs@),
            r@.len() <= j,
            texts(r@) == booked_since(ts, from, j as nat),
        decreases txs.len() - j,
    {
        let tx = txs[j].as_str();
        assert(tx@ == ts[j as int]);
        let late = match date_field(tx, "date") {
            Some(d) => !d.is_before(from),
            None => false,
        };
        if late {
            let ghost before = texts(r@);
            let t = own(tx);
            r.push(t);
            assert(texts(r@) =~= before.push(t@));
        }
        j = j + 1;
    }
    Ok(r)
}

#[derive(Debug)]
pub struct PulledItem {
    pub id: String,
    pub status: String,
}

#[derive(Debug)]
pub struct PulledAccount {
    pub item_id: String,
    pub provider_account_id: String,
    pub name: String,
    /// BANK or CREDIT, as Pluggy types the account.
    pub kind: String,
    pub currency: String,
    pub transactions: usize,
    pub pages: usize,
    pub created_at_from: String,
    pub booked_from: String,
    pub excluded_before_booking_date: usize,
    /// Empty on a dry run.
    pub file: String,
    /// The ledger account this Pluggy account is already known to belong to, if any.
    pub account_id: Option<i64>,
}

#[derive(Debug)]
pub struct PullReport {
    pub items: Vec<PulledItem>,
    pub accounts: Vec<PulledAccount>,
    pub dry_run: bool,
}

#[derive(Debug)]
pub struct ChannelConnection {
    pub id: i64,
    pub item_id: String,
    pub provider_account_id: String,
    pub provider_type: String,
    pub name: String,
    pub currency: String,
    pub account_id: Option<i64>,
    pub cursor: String,
    pub last_pull_at: String,
}

/// The identity of an account that an item lists.
pub fn provider_id(account: &str, item_id: &str) -> (r: Result<String>)
    ensures
        match r {
            Ok(id) => id@ == field_of(account@, "id"@) && id@.len() > 0,
            Err(e) => field_of(account@, "id"@).len() == 0 && e.unreadable(
                "pluggy listed an account of item "@ + item_id@ + " without an id"@,
            ),
        },
{
    let id = str_field(account, "id");
    if id.as_str().is_empty() {
        return Err(unreadable(cat3("pluggy listed an account of item ", item_id, " without an id").as_str()));
    }
    Ok(id)
}

pub open spec fn date_text(d: Option<Date>) -> Seq<char> {
    match d {
        Some(v) => iso_text(v),
        None => Seq::empty(),
    }
}

fn date_string(d: Option<Date>) -> (r: String)
    ensures
        r@ == date_text(d),
{
    match d {
        Some(v) => iso(v),
        None => String::new(),
    }
}

/// What a pull reports of an account, before its file is written.
pub fn pulled(account: &str, item_id: &str, fetched: usize, remaining: usize, pages: usize, created_at_from: &str, booked_from: Option<Date>) -> (r:
    PulledAccount)
    requires
        remaining <= fetched,
    ensures
        r.item_id@ == item_id@,
        r.provider_account_id@ == field_of(account@, "id"@),
        r.name@ == field_of(account@, "name"@),
        r.kind@ == uppered(field_of(account@, "type"@)),
        r.currency@ == uppered(field_of(account@, "currencyCode"@)),
        r.transactions == remaining,
        r.pages == pages,
        r.created_at_from@ == created_at_from@,
        r.booked_from@ == date_text(booked_from),
        r.excluded_before_booking_date == fetched - remaining,
        r.file@ == Seq::<char>::empty(),
        r.account_id is None,
{
    PulledAccount {
        item_id: own(item_id),
        provider_account_id: str_field(account, "id"),
        name: str_field(account, "name"),
        kind: upper(str_field(account, "type").as_str()),
        currency: upper(str_field(account, "currencyCode").as_str()),
        transactions: remaining,
        pages,
        created_at_from: own(created_at_from),
        booked_from: date_string(booked_from),
        excluded_before_booking_date: fetched - remaining,
        file: String::new(),
        account_id: None,
    }
}

/// Where the next pull starts: the moment this one did. A date-limited export must not consume the
/// unrestricted stream's cursor.
pub fn next_cursor(booked_from: Option<Date>, cursor: &str, started: &str) -> (r: String)
    ensures
        r@ == (if booked_from is Some {
            cursor@
        } else {
            started@
        }),
{
    if booked_from.is_some() {
        own(cursor)
    } else {
        own(started)
    }
}

pub open spec fn json_opt(t: Option<Seq<char>>) -> Seq<char> {
    match t {
        Some(s) => json_text(s),
        None => "null"@,
    }
}

fn json_or_null(t: Option<&str>) -> (r: String)
    ensures
        r@ == json_opt(opt_str(t)),
{
    match t {
        Some(s) => json_string(s),
        None => own("null"),
    }
}

/// What a pull leaves in the inbox: the Pluggy account and its transactions verbatim, and what the
/// fetch asked for. `pulledAt` makes two pulls of one window two different files, so the second is
/// imported and its repeated lines are recorded as duplicates instead of the file being refused
/// whole by its checksum.
pub open spec fn canonical_of(
    item_id: Seq<char>,
    account: Seq<char>,
    txs: Seq<Seq<char>>,
    pulled_at: Seq<char>,
    created_at_from: Option<Seq<char>>,
    booked_from: Option<Date>,
) -> Seq<char> {
    "{\"account\":"@ + account + ",\"bookedFrom\":"@ + json_opt(
        match booked_from {
            Some(d) => Some(iso_text(d)),
            None => None,
        },
    ) + ",\"channel\":\"pluggy\",\"createdAtFrom\":"@ + json_opt(created_at_from) + ",\"itemId\":"@ + json_text(item_id) + ",\"pulledAt\":"@
        + json_text(pulled_at) + ",\"transactions\":["@ + joined(txs, ","@) + "]}"@
}

pub fn canonical_file(
    item_id: &str,
    account: &str,
    transactions: &Vec<String>,
    pulled_at: &str,
    created_at_from: Option<&str>,
    booked_from: Option<Date>,
) -> (r: String)
    ensures
        r@ == canonical_of(item_id@, account@, texts(transactions@), pulled_at@, opt_str(created_at_from), booked_from),
{
    let day: String = match booked_from {
        Some(d) => json_string(iso(d).as_str()),
        None => own("null"),
    };
    let a = cat5("{\"account\":", account, ",\"bookedFrom\":", day.as_str(), ",\"channel\":\"pluggy\",\"createdAtFrom\":");
    let b = cat5(
        a.as_str(),
        json_or_null(created_at_from).as_str(),
        ",\"itemId\":",
        json_string(item_id).as_str(),
        ",\"pulledAt\":",
    );
    cat5(b.as_str(), json_string(pulled_at).as_str(), ",\"transactions\":[", join(transactions, ",").as_str(), "]}")
}

pub open spec fn counts() -> spec_fn(char) -> bool {
    |c: char| is_alnum(c)
}

/// The name of a pull's file: the timestamp carries no dash, so the account id is everything after
/// the second one, however the provider writes it. `nth` above 1 tells two pulls of the same
/// millisecond apart.
pub open spec fn name_of(provider_account_id: Seq<char>, pulled_at: Seq<char>, nth: nat) -> Seq<char> {
    let when = kept(pulled_at, counts());
    "pluggy-"@ + (if nth > 1 {
        when + "_"@ + nat_text(nth)
    } else {
        when
    }) + "-"@ + provider_account_id + ".json"@
}

fn stamp(pulled_at: &str) -> (r: String)
    ensures
        r@ == kept(pulled_at@, counts()),
{
    let cs = chars(pulled_at);
    let mut r: String = String::new();
    let mut i: usize = 0;
    assert(kept(cs@.take(0), counts()) =~= Seq::<char>::empty());
    while i < cs.len()
        invariant
            i <= cs.len(),
            r@ == kept(cs@.take(i as int), counts()),
        decreases cs.len() - i,
    {
        assert(cs@.take(i + 1).drop_last() =~= cs@.take(i as int));
        if ascii_alnum(cs[i]) {
            r.push(cs[i]);
        }
        i = i + 1;
    }
    assert(cs@.take(i as int) =~= cs@);
    r
}

pub fn file_name(provider_account_id: &str, pulled_at: &str, nth: usize) -> (r: String)
    ensures
        r@ == name_of(provider_account_id@, pulled_at@, nth as nat),
{
    let first = stamp(pulled_at);
    let when = if nth > 1 {
        cat3(first.as_str(), "_", nat_string(nth as u128).as_str())
    } else {
        first
    };
    cat5("pluggy-", when.as_str(), "-", provider_account_id, ".json")
}

/// The Pluggy account that a file is named for.
pub open spec fn named_in(filename: Seq<char>) -> Option<Seq<char>> {
    if !starts(filename, "pluggy-"@) {
        None
    } else {
        let rest = filename.skip(7);
        if !ends(rest, ".json"@) {
            None
        } else {
            let stem = rest.take(rest.len() - 5);
            match position(stem, "-"@, 0) {
                None => None,
                Some(p) => if p + 1 >= stem.len() {
                    None
                } else {
                    Some(stem.skip(p + 1))
                },
            }
        }
    }
}

pub fn provider_account_of(filename: &str) -> (r: Option<String>)
    ensures
        opt_text(r) == named_in(filename@),
{
    proof {
        reveal_strlit("pluggy-");
        reveal_strlit(".json");
        reveal_strlit("-");
    }
    if !starts_with(filename, "pluggy-") {
        return None;
    }
    let cs = chars(filename);
    let rest = slice_chars(&cs, 7, cs.len());
    assert(rest@ =~= filename@.skip(7));
    if !ends_with(crate::text::string(&rest).as_str(), ".json") {
        return None;
    }
    let stem = slice_chars(&rest, 0, rest.len() - 5);
    assert(stem@ =~= rest@.take(rest@.len() - 5));
    let dash = chars("-");
    match find(&stem, &dash, 0) {
        None => None,
        Some(p) => if p + 1 >= stem.len() {
            None
        } else {
            let id = slice_chars(&stem, p + 1, stem.len());
            assert(id@ =~= stem@.skip(p + 1));
            Some(crate::text::string(&id))
        },
    }
}

proof fn lemma_kept_holds(s: Seq<char>, i: int)
    requires
        0 <= i < kept(s, counts()).len(),
    ensures
        is_alnum(kept(s, counts())[i]),
    decreases s.len(),
{
    if s.len() > 0 {
        let rest = kept(s.drop_last(), counts());
        if i < rest.len() {
            lemma_kept_holds(s.drop_last(), i);
        }
    }
}

/// A file is named for the account that it was pulled for: its name tells the account, whatever
/// the account's identity and the moment of the pull.
pub proof fn law_file_tells_account(id: Seq<char>, pulled_at: Seq<char>, nth: nat)
    requires
        id.len() > 0,
    ensures
        named_in(name_of(id, pulled_at, nth)) == Some(id),
{
    reveal_strlit("pluggy-");
    reveal_strlit(".json");
    reveal_strlit("-");
    reveal_strlit("_");
    let stamp = kept(pulled_at, counts());
    let when = if nth > 1 {
        stamp + "_"@ + nat_text(nth)
    } else {
        stamp
    };
    let name = name_of(id, pulled_at, nth);
    assert(name =~= "pluggy-"@ + when + "-"@ + id + ".json"@);
    assert(name.take(7) =~= "pluggy-"@);
    assert(at(name, "pluggy-"@, 0));
    let rest = name.skip(7);
    assert(rest =~= when + "-"@ + id + ".json"@);
    assert(rest.skip(rest.len() - 5) =~= ".json"@);
    let stem = rest.take(rest.len() - 5);
    assert(stem =~= when + "-"@ + id);
    assert forall|k: int| 0 <= k < when.len() implies #[trigger] when[k] != '-' by {
        if k < stamp.len() {
            lemma_kept_holds(pulled_at, k);
        } else if k > stamp.len() {
            crate::text::lemma_nat_text(nth);
            assert(is_digit(nat_text(nth)[k - stamp.len() - 1]));
        }
    }
    assert forall|k: int| 0 <= k < when.len() implies !at(stem, "-"@, k) by {
        if at(stem, "-"@, k) {
            assert(stem.subrange(k, k + 1)[0] == "-"@[0]);
            assert(stem[k] == when[k]);
        }
    }
    assert(stem.subrange(when.len() as int, when.len() as int + 1) =~= "-"@);
    assert(at(stem, "-"@, when.len() as int));
    lemma_first_dash(stem, when.len() as int, 0);
    assert(stem.skip(when.len() as int + 1) =~= id);
}

proof fn lemma_first_dash(s: Seq<char>, p: int, i: int)
    requires
        0 <= i <= p < s.len(),
        at(s, "-"@, p),
        forall|k: int| 0 <= k < p ==> !at(s, "-"@, k),
    ensures
        position(s, "-"@, i) == Some(p),
    decreases p - i,
{
    if i < p {
        lemma_first_dash(s, p, i + 1);
    }
}

/// On a credit card Pluggy counts what is spent as above zero: there a line is the negation of what the bank
/// says, and its balance too. On any other account a line is what the bank says.
pub proof fn law_card_turns_sign(tx: Seq<char>, currency: Seq<char>, card: bool)
    ensures
        ({
            let l = movement_line(tx, currency, card);
            let (a, b) = (decimal_at(tx, "amount"@), decimal_at(tx, "balance"@));
            &&& l.amount is Some == a is Some
            &&& l.balance_after is Some == b is Some
            &&& a is Some ==> (l.amount->0).1 == (a->0).1 && (l.amount->0).0 == (if card {
                -(a->0).0
            } else {
                (a->0).0
            })
            &&& b is Some ==> (l.balance_after->0).1 == (b->0).1 && (l.balance_after->0).0 == (if card {
                -(b->0).0
            } else {
                (b->0).0
            })
            &&& (l.date is None || l.amount is None) == l.skip is Some
        }),
{
}

} // verus!
