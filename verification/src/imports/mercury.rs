//! Mercury API evidence. Amounts are signed USD; posting dates and provider IDs identify booked
//! movements. Provider objects are kept intact for later review.

use vstd::prelude::*;

use crate::accounts::{get_account, place_of};
use crate::codec::{json_string, json_text};
use crate::connections::{account_of, connected, ConnectionAccount};
use crate::date::{utc_day, utc_day_of, Date};
use crate::decimal::{rounded, same_value, Decimal};
use crate::error::{invalid, refusal_text, unreadable, Error, Refusal, Result};
use crate::imports::{earliest, latest, no_line, no_parse, period, shown_lines, ParseOutput, ParsedLine, ShownLine, ShownParse};
use crate::json::{document_in, inner, inside, integer, integer_at, is_text, is_uuid, items, items_of, member, member_of, number, number_of, read_document, record, record_of, string_of, text, text_at, text_under, uuid_text};
use crate::model::{Account, AccountType};
use crate::text::{cat, cat5, debug_text, int_text, join, joined, nat_string, nat_text, own, quoted, same, single_space, single_spaced, texts};

verus! {

pub const SOURCE: &'static str = "mercury_json";

pub const CHANNEL: &'static str = "mercury";

/// Whether a file is evidence of this channel.
pub open spec fn from_channel(content: Seq<u8>) -> bool {
    document_in(content) is Ok && text_at(document_in(content)->Ok_0, "channel"@) == Some("mercury"@)
}

pub fn is_file(content: &[u8]) -> (r: bool)
    ensures
        r == from_channel(content@),
{
    match read_document(content) {
        Ok(d) => is_text(d.as_str(), "channel", "mercury"),
        Err(_) => false,
    }
}

/// Whether a file is of a credit account. Files from the first depository channel did not say.
pub open spec fn credit_of(file: Seq<char>) -> std::result::Result<bool, Refusal> {
    match member_of(file, "account_type"@) {
        None => Ok(false),
        Some(v) => if string_of(v) == Some("depository"@) {
            Ok(false)
        } else if string_of(v) == Some("credit"@) {
            Ok(true)
        } else {
            Err(Refusal::Parse("unsupported Mercury account_type"@))
        },
    }
}

fn is_credit(file: &str) -> (r: Result<bool>)
    ensures
        match r {
            Ok(b) => credit_of(file@) == Ok::<bool, Refusal>(b),
            Err(e) => credit_of(file@) == Err::<bool, Refusal>(e@),
        },
{
    match member(file, "account_type") {
        None => Ok(false),
        Some(v) => match crate::json::string(v.as_str()) {
            Some(kind) => if same(kind.as_str(), "depository") {
                proof {
                    reveal_strlit("depository");
                    reveal_strlit("credit");
                }
                Ok(false)
            } else if same(kind.as_str(), "credit") {
                Ok(true)
            } else {
                Err(unreadable("unsupported Mercury account_type"))
            },
            None => Err(unreadable("unsupported Mercury account_type")),
        },
    }
}

/// Why a file cannot go to an account.
pub open spec fn destination_refusal(content: Seq<u8>, account_type: AccountType) -> Option<Refusal> {
    match document_in(content) {
        Err(m) => Some(Refusal::Json(m)),
        Ok(d) => match credit_of(d) {
            Err(e) => Some(e),
            Ok(b) => if b && account_type != AccountType::Liability {
                Some(Refusal::Invalid("Mercury IO evidence requires a USD liability account"@))
            } else {
                None
            },
        },
    }
}

pub fn validate_destination(content: &[u8], account: &Account) -> (r: Result<()>)
    ensures
        match r {
            Ok(_) => destination_refusal(content@, account.account_type) is None,
            Err(e) => destination_refusal(content@, account.account_type) == Some(e@),
        },
{
    let file = match read_document(content) {
        Ok(d) => d,
        Err(m) => {
            return Err(Error::Json(m));
        },
    };
    match is_credit(file.as_str()) {
        Err(e) => Err(e),
        Ok(b) => if b && account.account_type != AccountType::Liability {
            Err(invalid("Mercury IO evidence requires a USD liability account"))
        } else {
            Ok(())
        },
    }
}

/// Why a movement is not booked.
pub open spec fn movement_refusal(tx: Seq<char>) -> Option<Refusal> {
    let status = text_under(tx, "status"@);
    if status != "sent"@ {
        Some(Refusal::Parse("non-booked Mercury status "@ + debug_text(status)))
    } else if !uuid_text(text_under(tx, "id"@)) {
        Some(Refusal::Parse("missing or invalid Mercury transaction ID"@))
    } else {
        match number_of(inner(tx, "amount"@)) {
            None => Some(Refusal::Parse("Mercury amount must be a JSON number"@)),
            Some(n) => match crate::decimal::number_in(n) {
                None => Some(Refusal::Parse("invalid Mercury decimal amount"@)),
                Some(a) => if a.0 == 0 || !same_value(rounded(a, 2), a) {
                    Some(Refusal::Parse("Mercury amount must be nonzero whole cents"@))
                } else if utc_day_of(text_under(tx, "postedAt"@)) is None {
                    Some(Refusal::Parse("missing or invalid Mercury postedAt"@))
                } else {
                    None
                },
            },
        }
    }
}

/// The line of a movement.
pub open spec fn movement_line(tx: Seq<char>) -> ShownLine {
    let start = ShownLine { currency: "USD"@, reference: text_under(tx, "id"@), raw: record_of(tx), ..no_line() };
    match movement_refusal(tx) {
        Some(e) => ShownLine { skip: Some(refusal_text(e)), ..start },
        None => ShownLine {
            date: utc_day_of(text_under(tx, "postedAt"@)),
            amount: crate::decimal::number_in(number_of(inner(tx, "amount"@))->0),
            description: single_spaced(
                text_under(tx, "counterpartyName"@) + " "@ + text_under(tx, "bankDescription"@) + " "@ + text_under(tx, "externalMemo"@),
            ),
            ..start
        },
    }
}

/// The amount and the day of a booked movement.
fn read_movement(tx: &str) -> (r: Result<(Date, Decimal)>)
    ensures
        match r {
            Ok((d, a)) => movement_refusal(tx@) is None && utc_day_of(text_under(tx@, "postedAt"@)) == Some(d) && crate::decimal::number_in(
                number_of(inner(tx@, "amount"@))->0,
            ) == Some(a@),
            Err(e) => movement_refusal(tx@) == Some(e@),
        },
{
    let status = text(tx, "status");
    if !same(status.as_str(), "sent") {
        return Err(unreadable(cat("non-booked Mercury status ", quoted(status.as_str()).as_str()).as_str()));
    }
    if !is_uuid(text(tx, "id").as_str()) {
        return Err(unreadable("missing or invalid Mercury transaction ID"));
    }
    // Numbers keep their decimal text, without a binary float conversion.
    let n = match number(inside(tx, "amount").as_str()) {
        Some(n) => n,
        None => {
            return Err(unreadable("Mercury amount must be a JSON number"));
        },
    };
    let amount = match Decimal::parse(n.as_str()) {
        Some(a) => a,
        None => {
            return Err(unreadable("invalid Mercury decimal amount"));
        },
    };
    if amount.is_zero() || !amount.round_dp(2).same(amount) {
        return Err(unreadable("Mercury amount must be nonzero whole cents"));
    }
    match utc_day(text(tx, "postedAt").as_str()) {
        Some(d) => Ok((d, amount)),
        None => Err(unreadable("missing or invalid Mercury postedAt")),
    }
}

fn line_of(tx: &str) -> (r: ParsedLine)
    ensures
        r@ == movement_line(tx@),
{
    let mut line = ParsedLine::empty();
    line.currency = own("USD");
    line.reference = text(tx, "id");
    line.raw = record(tx);
    match read_movement(tx) {
        Ok((date, amount)) => {
            line.date = Some(date);
            line.amount = Some(amount);
            let words = cat5(
                text(tx, "counterpartyName").as_str(),
                " ",
                text(tx, "bankDescription").as_str(),
                " ",
                text(tx, "externalMemo").as_str(),
            );
            line.description = single_space(words.as_str());
        },
        Err(e) => {
            line.skip = Some(e.text());
        },
    }
    assert(line@ =~= movement_line(tx@));
    line
}

/// The lines of the first `n` movements and how many of them are pending, or why the file is
/// refused: even evidence that is not posted must belong to its account.
pub open spec fn movements(txs: Seq<Seq<char>>, identity: Seq<char>, n: nat) -> std::result::Result<(Seq<ShownLine>, nat), Refusal>
    decreases n,
{
    if n == 0 {
        Ok((Seq::empty(), 0))
    } else {
        match movements(txs, identity, (n - 1) as nat) {
            Err(e) => Err(e),
            Ok((ls, pending)) => {
                let tx = txs[n - 1];
                if text_under(tx, "accountId"@) != identity {
                    Err(Refusal::Parse("Mercury transaction accountId does not match its envelope"@))
                } else if text_under(tx, "status"@) == "pending"@ {
                    Ok((ls, pending + 1))
                } else {
                    Ok((ls.push(movement_line(tx)), pending))
                }
            },
        }
    }
}

proof fn lemma_movements_refused(txs: Seq<Seq<char>>, identity: Seq<char>, n: nat, m: nat)
    requires
        n <= m,
        movements(txs, identity, n) is Err,
    ensures
        movements(txs, identity, m) == movements(txs, identity, n),
    decreases m,
{
    if n < m {
        lemma_movements_refused(txs, identity, n, (m - 1) as nat);
    }
}

fn read_movements(txs: &Vec<String>, identity: &str) -> (r: Result<(Vec<ParsedLine>, usize)>)
    ensures
        match r {
            Ok((v, pending)) => movements(texts(txs@), identity@, txs@.len()) == Ok::<(Seq<ShownLine>, nat), Refusal>(
                (shown_lines(v@), pending as nat),
            ),
            Err(e) => movements(texts(txs@), identity@, txs@.len()) == Err::<(Seq<ShownLine>, nat), Refusal>(e@),
        },
{
    let ghost ts = texts(txs@);
    let mut lines: Vec<ParsedLine> = Vec::new();
    let mut pending: usize = 0;
    let mut i: usize = 0;
    assert(shown_lines(lines@) =~= Seq::<ShownLine>::empty());
    while i < txs.len()
        invariant
            i <= txs.len(),
            ts == texts(txs@),
            pending <= i,
            movements(ts, identity@, i as nat) == Ok::<(Seq<ShownLine>, nat), Refusal>((shown_lines(lines@), pending as nat)),
        decreases txs.len() - i,
    {
        let tx = txs[i].as_str();
        assert(tx@ == ts[i as int]);
        if !same(text(tx, "accountId").as_str(), identity) {
            proof {
                lemma_movements_refused(ts, identity@, (i + 1) as nat, ts.len());
            }
            return Err(unreadable("Mercury transaction accountId does not match its envelope"));
        }
        if same(text(tx, "status").as_str(), "pending") {
            pending = pending + 1;
        } else {
            let ghost before = shown_lines(lines@);
            let line = line_of(tx);
            let ghost shown = line@;
            lines.push(line);
            assert(shown_lines(lines@) =~= before.push(shown));
        }
        i = i + 1;
    }
    Ok((lines, pending))
}

/// What a file of this channel holds.
pub open spec fn parse_document(file: Seq<char>) -> std::result::Result<ShownParse, Refusal> {
    let identity = text_under(inner(file, "account"@), "id"@);
    if text_at(file, "channel"@) != Some("mercury"@) || integer_at(file, "version"@) != Some(1int) {
        Err(Refusal::Parse("expected a Mercury file with version 1"@))
    } else if credit_of(file) is Err {
        Err(credit_of(file)->Err_0)
    } else if !uuid_text(identity) {
        Err(Refusal::Parse("Mercury file needs an account UUID"@))
    } else if text_at(file, "currency"@) != Some("USD"@) {
        Err(Refusal::Parse("Mercury API evidence must use USD"@))
    } else {
        match items_of(inner(file, "transactions"@)) {
            None => Err(Refusal::Parse("Mercury transactions must be an array"@)),
            Some(txs) => match movements(txs, identity, txs.len()) {
                Err(e) => Err(e),
                Ok((ls, pending)) => Ok(
                    ShownParse {
                        lines: ls,
                        currency: "USD"@,
                        period_from: earliest(ls, ls.len()),
                        period_to: latest(ls, ls.len()),
                        detected_source: "mercury_json"@,
                        account_ref: identity,
                        warnings: if pending > 0 {
                            seq![nat_text(pending) + " pending Mercury transactions were left out"@]
                        } else {
                            Seq::empty()
                        },
                        skipped_records: pending,
                        ..no_parse()
                    },
                ),
            },
        }
    }
}

pub open spec fn parse_of(content: Seq<u8>) -> std::result::Result<ShownParse, Refusal> {
    match document_in(content) {
        Err(m) => Err(Refusal::Json(m)),
        Ok(file) => parse_document(file),
    }
}

/// Reads the document of a file of this channel.
pub fn parse_file(file: &str) -> (r: Result<ParseOutput>)
    ensures
        match r {
            Ok(p) => parse_document(file@) == Ok::<ShownParse, Refusal>(p@),
            Err(e) => parse_document(file@) == Err::<ShownParse, Refusal>(e@),
        },
{
    let version_one = match integer(file, "version") {
        Some(n) => n == 1,
        None => false,
    };
    if !is_text(file, "channel", "mercury") || !version_one {
        return Err(unreadable("expected a Mercury file with version 1"));
    }
    if let Err(e) = is_credit(file) {
        return Err(e);
    }
    let identity = text(inside(file, "account").as_str(), "id");
    if !is_uuid(identity.as_str()) {
        return Err(unreadable("Mercury file needs an account UUID"));
    }
    if !is_text(file, "currency", "USD") {
        return Err(unreadable("Mercury API evidence must use USD"));
    }
    let txs = match items(inside(file, "transactions").as_str()) {
        Some(v) => v,
        None => {
            return Err(unreadable("Mercury transactions must be an array"));
        },
    };
    let (lines, pending) = match read_movements(&txs, identity.as_str()) {
        Ok(v) => v,
        Err(e) => {
            return Err(e);
        },
    };
    let mut out = ParseOutput::empty();
    let (first, last) = period(&lines);
    out.period_from = first;
    out.period_to = last;
    out.detected_source = own("mercury_json");
    out.currency = own("USD");
    out.account_ref = identity;
    out.skipped_records = pending;
    if pending > 0 {
        let warning = cat(nat_string(pending as u128).as_str(), " pending Mercury transactions were left out");
        out.warnings.push(warning);
    }
    // An account's live balance is not a closing balance for this historical file.
    out.lines = lines;
    proof {
        let spec = parse_document(file@);
        assert(spec is Ok);
        assert(out@.warnings =~= spec->Ok_0.warnings);
        assert(out@ =~= spec->Ok_0);
    }
    Ok(out)
}

pub fn parse(content: &[u8]) -> (r: Result<ParseOutput>)
    ensures
        match r {
            Ok(p) => parse_of(content@) == Ok::<ShownParse, Refusal>(p@),
            Err(e) => parse_of(content@) == Err::<ShownParse, Refusal>(e@),
        },
{
    match read_document(content) {
        Ok(file) => parse_file(file.as_str()),
        Err(m) => Err(Error::Json(m)),
    }
}

/// The ledger account for a file: that of its connection, where it is one that can hold it.
pub open spec fn routed(content: Seq<u8>, connections: Seq<ConnectionAccount>, accounts: Seq<Account>) -> std::result::Result<Option<i64>, Refusal> {
    match parse_of(content) {
        Err(_) => Ok(None),
        Ok(p) => match connected(connections, "mercury"@, p.account_ref, 0) {
            None => Ok(None),
            Some(id) => match place_of(accounts, id) {
                None => Err(Refusal::NotFound("account "@ + int_text(id as int))),
                Some(i) => if accounts[i].commodity@ != "USD"@ || destination_refusal(content, accounts[i].account_type) is Some {
                    Ok(None)
                } else {
                    Ok(Some(id))
                },
            },
        },
    }
}

pub fn account_for_file(content: &[u8], connections: &[ConnectionAccount], accounts: &[Account]) -> (r: Result<Option<i64>>)
    ensures
        match r {
            Ok(id) => routed(content@, connections@, accounts@) == Ok::<Option<i64>, Refusal>(id),
            Err(e) => routed(content@, connections@, accounts@) == Err::<Option<i64>, Refusal>(e@),
        },
{
    let parsed = match parse(content) {
        Ok(p) => p,
        Err(_) => {
            return Ok(None);
        },
    };
    let id = match account_of(connections, "mercury", parsed.account_ref.as_str()) {
        Some(id) => id,
        None => {
            return Ok(None);
        },
    };
    let ledger = match get_account(accounts, id) {
        Ok(a) => a,
        Err(e) => {
            return Err(e);
        },
    };
    if !same(ledger.commodity.as_str(), "USD") || validate_destination(content, ledger).is_err() {
        return Ok(None);
    }
    Ok(Some(id))
}

/// A file that is ready to be published.
#[derive(Debug)]
pub struct PullFile {
    pub account_ref: String,
    pub records: usize,
    pub path: Option<String>,
}

/// An account with its transactions as a file of this channel. Credit movements already use ledger
/// signs: charges negative, repayments positive.
pub open spec fn envelope_of(account: Seq<char>, transactions: Seq<Seq<char>>, credit: bool, pulled_at: Seq<char>) -> Seq<char> {
    "{\"account\":"@ + account + ",\"account_type\":\""@ + (if credit {
        "credit"@
    } else {
        "depository"@
    }) + "\",\"channel\":\"mercury\",\"currency\":\"USD\",\"pulled_at\":"@ + json_text(pulled_at) + ",\"transactions\":["@ + joined(
        transactions,
        ","@,
    ) + "],\"version\":1}"@
}

/// Prepares a completely fetched account for publication: the content of its file, which this
/// channel can read back.
pub fn prepare(account: &str, transactions: &Vec<String>, credit: bool, pulled_at: &str) -> (r: Result<(String, PullFile)>)
    ensures
        match r {
            Ok((content, f)) => {
                &&& content@ == envelope_of(account@, texts(transactions@), credit, pulled_at@)
                &&& parse_of(vstd::utf8::encode_utf8(content@)) is Ok
                &&& f.account_ref@ == parse_of(vstd::utf8::encode_utf8(content@))->Ok_0.account_ref
                &&& f.records == transactions@.len()
                &&& f.path is None
            },
            Err(e) => parse_of(vstd::utf8::encode_utf8(envelope_of(account@, texts(transactions@), credit, pulled_at@))) == Err::<
                ShownParse,
                Refusal,
            >(e@),
        },
{
    let kind: &str = if credit {
        "credit"
    } else {
        "depository"
    };
    let head = cat5("{\"account\":", account, ",\"account_type\":\"", kind, "\",\"channel\":\"mercury\",\"currency\":\"USD\",\"pulled_at\":");
    let content = cat5(
        head.as_str(),
        json_string(pulled_at).as_str(),
        ",\"transactions\":[",
        join(transactions, ",").as_str(),
        "],\"version\":1}",
    );
    match parse(content.as_str().as_bytes()) {
        Ok(p) => Ok((content, PullFile { account_ref: p.account_ref, records: transactions.len(), path: None })),
        Err(e) => Err(e),
    }
}

} // verus!
