//! Read-only Inter PJ and Wise statement envelopes. HTTP and authentication live with the caller.

use vstd::prelude::*;

use crate::accounts::{get_account, place_of};
use crate::connections::{account_of, connected, ConnectionAccount};
use crate::date::{date_in, iso_format, parse_date, utc_day, utc_day_of, Date};
use crate::decimal::{normal, number_in, same_value, Decimal, Num};
use crate::error::{invalid, unreadable, Error, Refusal, Result};
use crate::imports::enable_banking::{currency_code, known_currency};
use crate::imports::{earliest, latest, no_line, no_parse, period, shown_lines, ParseOutput, ParsedLine, ShownLine, ShownParse};
use crate::json::{document_in, inner, inside, integer, integer_at, items, items_of, number, number_of, read_document, record, record_of, string, string_of, text, text_at, text_in, text_under};
use crate::model::{Account, AccountType};
use crate::money::{amount_of_major, default_precision, negated_num, places_of, Money};
use crate::text::{all_digits, ascii_digit, cat3, cat5, chars, debug_text, int_string, int_text, is_digit, own, same, single_space, single_spaced, texts, trimmed};

verus! {

pub const INTER: &'static str = "inter_pj_json";

pub const WISE: &'static str = "wise_json";

/// The banks whose statements come in an envelope.
#[derive(Debug, Clone, Copy, PartialEq, Eq, Structural)]
pub enum Bank {
    Inter,
    Wise,
}

pub open spec fn bank_of(file: Seq<char>) -> Option<Bank> {
    if text_at(file, "channel"@) == Some("inter_pj"@) {
        Some(Bank::Inter)
    } else if text_at(file, "channel"@) == Some("wise"@) {
        Some(Bank::Wise)
    } else {
        None
    }
}

pub open spec fn source_text(b: Bank) -> Seq<char> {
    match b {
        Bank::Inter => "inter_pj_json"@,
        Bank::Wise => "wise_json"@,
    }
}

/// The channel of a bank's connections.
pub open spec fn channel_text(b: Bank) -> Seq<char> {
    match b {
        Bank::Inter => "inter_pj"@,
        Bank::Wise => "wise"@,
    }
}

fn bank_in(file: &str) -> (r: Option<Bank>)
    ensures
        r == bank_of(file@),
{
    match text_in(file, "channel") {
        Some(c) => if same(c.as_str(), "inter_pj") {
            Some(Bank::Inter)
        } else if same(c.as_str(), "wise") {
            Some(Bank::Wise)
        } else {
            None
        },
        None => None,
    }
}

/// The source of a statement file, where it is one of these.
pub open spec fn source_of(content: Seq<u8>) -> Option<Seq<char>> {
    match document_in(content) {
        Err(_) => None,
        Ok(d) => match bank_of(d) {
            Some(b) => Some(source_text(b)),
            None => None,
        },
    }
}

pub fn source(content: &[u8]) -> (r: Option<&'static str>)
    ensures
        match r {
            Some(s) => source_of(content@) == Some(s@),
            None => source_of(content@) is None,
        },
{
    match read_document(content) {
        Err(_) => None,
        Ok(d) => match bank_in(d.as_str()) {
            Some(Bank::Inter) => Some("inter_pj_json"),
            Some(Bank::Wise) => Some("wise_json"),
            None => None,
        },
    }
}

/// The decimal that a value is, written as a text or as a number.
pub open spec fn decimal_of(value: Seq<char>) -> std::result::Result<Num, Refusal> {
    let written = match string_of(value) {
        Some(s) => Some(s),
        None => number_of(value),
    };
    match written {
        None => Err(Refusal::Parse("statement amount must be a decimal"@)),
        Some(s) => match number_in(s) {
            Some(n) => Ok(n),
            None => Err(Refusal::Parse("invalid statement decimal"@)),
        },
    }
}

fn decimal(value: &str) -> (r: Result<Decimal>)
    ensures
        match r {
            Ok(d) => decimal_of(value@) == Ok::<Num, Refusal>(d@),
            Err(e) => decimal_of(value@) == Err::<Num, Refusal>(e@),
        },
{
    let written = match string(value) {
        Some(s) => s,
        None => match number(value) {
            Some(n) => n,
            None => {
                return Err(unreadable("statement amount must be a decimal"));
            },
        },
    };
    match Decimal::parse(written.as_str()) {
        Some(d) => Ok(d),
        None => Err(unreadable("invalid statement decimal")),
    }
}

/// A movement as its bank wrote it.
pub struct Written {
    pub reference: Seq<char>,
    pub date: Date,
    pub amount: Num,
    pub description: Seq<char>,
}

pub open spec fn four_words(a: Seq<char>, b: Seq<char>, c: Seq<char>, d: Seq<char>) -> Seq<char> {
    single_spaced(a + " "@ + b + " "@ + c + " "@ + d)
}

fn describe(a: &str, b: &str, c: &str, d: &str) -> (r: String)
    ensures
        r@ == four_words(a@, b@, c@, d@),
{
    let first = cat5(a, " ", b, " ", c);
    single_space(cat3(first.as_str(), " ", d).as_str())
}

/// A movement of Inter: its type supplies the sign.
pub open spec fn inter_row(row: Seq<char>) -> std::result::Result<Written, Refusal> {
    let kind = text_under(row, "tipoOperacao"@);
    let day = text_under(row, "dataTransacao"@);
    match decimal_of(inner(row, "valor"@)) {
        Err(e) => Err(e),
        Ok(a) => if a.0 < 0 {
            Err(Refusal::Parse("Inter amount must be unsigned; tipoOperacao supplies its sign"@))
        } else if kind != "C"@ && kind != "D"@ {
            Err(Refusal::Parse("unknown Inter operation type"@))
        } else {
            match date_in(trimmed(day), iso_format()) {
                None => Err(Refusal::Invalid("date must be YYYY-MM-DD, got "@ + debug_text(day))),
                Some(d) => Ok(
                    Written {
                        reference: text_under(row, "idTransacao"@),
                        date: d,
                        amount: if kind == "C"@ {
                            a
                        } else {
                            negated_num(a)
                        },
                        description: four_words(
                            text_under(row, "titulo"@),
                            text_under(row, "descricao"@),
                            text_under(inner(row, "detalhes"@), "nomePagador"@),
                            text_under(inner(row, "detalhes"@), "nomeRecebedor"@),
                        ),
                    },
                ),
            }
        },
    }
}

/// A movement of Wise: its type and its sign must agree.
pub open spec fn wise_row(row: Seq<char>, currency: Seq<char>) -> std::result::Result<Written, Refusal> {
    let kind = text_under(row, "type"@);
    let details = inner(row, "details"@);
    if text_under(inner(row, "amount"@), "currency"@) != currency {
        Err(Refusal::Parse("Wise transaction currency differs from balance currency"@))
    } else {
        match decimal_of(inner(inner(row, "amount"@), "value"@)) {
            Err(e) => Err(e),
            Ok(a) => if !((kind == "DEBIT"@ && a.0 < 0) || (kind == "CREDIT"@ && a.0 >= 0)) {
                Err(Refusal::Parse("Wise type and signed amount disagree"@))
            } else {
                match utc_day_of(text_under(row, "date"@)) {
                    None => Err(Refusal::Parse("invalid Wise statement date"@)),
                    Some(d) => Ok(
                        Written {
                            reference: text_under(row, "referenceNumber"@),
                            date: d,
                            amount: a,
                            description: four_words(
                                text_under(details, "description"@),
                                text_under(inner(details, "merchant"@), "name"@),
                                text_under(details, "senderName"@),
                                text_under(details, "paymentReference"@),
                            ),
                        },
                    ),
                }
            },
        }
    }
}

struct Movement {
    reference: String,
    date: Date,
    amount: Decimal,
    description: String,
}

impl Movement {
    spec fn shown(self) -> Written {
        Written { reference: self.reference@, date: self.date, amount: self.amount@, description: self.description@ }
    }
}

fn read_inter(row: &str) -> (r: Result<Movement>)
    ensures
        match r {
            Ok(m) => inter_row(row@) == Ok::<Written, Refusal>(m.shown()),
            Err(e) => inter_row(row@) == Err::<Written, Refusal>(e@),
        },
{
    let amount = match decimal(inside(row, "valor").as_str()) {
        Ok(a) => a,
        Err(e) => {
            return Err(e);
        },
    };
    if amount.is_negative() {
        return Err(unreadable("Inter amount must be unsigned; tipoOperacao supplies its sign"));
    }
    let kind = text(row, "tipoOperacao");
    let signed = if same(kind.as_str(), "C") {
        amount
    } else if same(kind.as_str(), "D") {
        amount.negated()
    } else {
        return Err(unreadable("unknown Inter operation type"));
    };
    proof {
        reveal_strlit("C");
        reveal_strlit("D");
        assert("C"@[0] == 'C' && "D"@[0] == 'D');
    }
    let date = match parse_date(text(row, "dataTransacao").as_str()) {
        Ok(d) => d,
        Err(e) => {
            return Err(e);
        },
    };
    let details = inside(row, "detalhes");
    Ok(
        Movement {
            reference: text(row, "idTransacao"),
            date,
            amount: signed,
            description: describe(
                text(row, "titulo").as_str(),
                text(row, "descricao").as_str(),
                text(details.as_str(), "nomePagador").as_str(),
                text(details.as_str(), "nomeRecebedor").as_str(),
            ),
        },
    )
}

fn read_wise(row: &str, currency: &str) -> (r: Result<Movement>)
    ensures
        match r {
            Ok(m) => wise_row(row@, currency@) == Ok::<Written, Refusal>(m.shown()),
            Err(e) => wise_row(row@, currency@) == Err::<Written, Refusal>(e@),
        },
{
    let value = inside(row, "amount");
    if !same(text(value.as_str(), "currency").as_str(), currency) {
        return Err(unreadable("Wise transaction currency differs from balance currency"));
    }
    let amount = match decimal(inside(value.as_str(), "value").as_str()) {
        Ok(a) => a,
        Err(e) => {
            return Err(e);
        },
    };
    let kind = text(row, "type");
    if !((same(kind.as_str(), "DEBIT") && amount.is_negative()) || (same(kind.as_str(), "CREDIT") && !amount.is_negative())) {
        return Err(unreadable("Wise type and signed amount disagree"));
    }
    let date = match utc_day(text(row, "date").as_str()) {
        Some(d) => d,
        None => {
            return Err(unreadable("invalid Wise statement date"));
        },
    };
    let details = inside(row, "details");
    Ok(
        Movement {
            reference: text(row, "referenceNumber"),
            date,
            amount,
            description: describe(
                text(details.as_str(), "description").as_str(),
                text(inside(details.as_str(), "merchant").as_str(), "name").as_str(),
                text(details.as_str(), "senderName").as_str(),
                text(details.as_str(), "paymentReference").as_str(),
            ),
        },
    )
}

/// Whether one of the first `n` lines has a reference.
pub open spec fn referenced(ls: Seq<ShownLine>, reference: Seq<char>) -> bool {
    exists|i: int| 0 <= i < ls.len() && (#[trigger] ls[i]).reference == reference
}

/// The line of a movement after the given ones, or why the file is refused for it.
pub open spec fn row_line(bank: Bank, row: Seq<char>, currency: Seq<char>, before: Seq<ShownLine>) -> std::result::Result<ShownLine, Refusal> {
    let written = match bank {
        Bank::Inter => inter_row(row),
        Bank::Wise => wise_row(row, currency),
    };
    match written {
        Err(e) => Err(e),
        Ok(w) => if w.reference.len() == 0 || referenced(before, w.reference) {
            Err(Refusal::Parse("missing or duplicate statement reference; account not published"@))
        } else if w.amount.0 == 0 {
            Err(Refusal::Parse("zero bank movement requires manual review"@))
        } else {
            match amount_of_major(w.amount, currency, places_of(currency) as int) {
                Err(e) => Err(e),
                Ok(m) => if !same_value(normal((m.minor, m.precision)), w.amount) {
                    Err(Refusal::Parse("statement amount contains fractional minor units"@))
                } else {
                    Ok(
                        ShownLine {
                            date: Some(w.date),
                            amount: Some(w.amount),
                            currency,
                            description: w.description,
                            reference: w.reference,
                            raw: record_of(row),
                            ..no_line()
                        },
                    )
                },
            }
        },
    }
}

fn is_referenced(lines: &Vec<ParsedLine>, reference: &str) -> (r: bool)
    ensures
        r == referenced(shown_lines(lines@), reference@),
{
    let ghost ls = shown_lines(lines@);
    let mut i: usize = 0;
    while i < lines.len()
        invariant
            i <= lines.len(),
            ls == shown_lines(lines@),
            forall|k: int| 0 <= k < i ==> (#[trigger] ls[k]).reference != reference@,
        decreases lines.len() - i,
    {
        assert(ls[i as int] == lines@[i as int]@);
        if same(lines[i].reference.as_str(), reference) {
            assert(ls[i as int].reference == reference@);
            return true;
        }
        i = i + 1;
    }
    false
}

fn line_of(bank: Bank, row: &str, currency: &str, before: &Vec<ParsedLine>) -> (r: Result<ParsedLine>)
    ensures
        match r {
            Ok(l) => row_line(bank, row@, currency@, shown_lines(before@)) == Ok::<ShownLine, Refusal>(l@),
            Err(e) => row_line(bank, row@, currency@, shown_lines(before@)) == Err::<ShownLine, Refusal>(e@),
        },
{
    let read = match bank {
        Bank::Inter => read_inter(row),
        Bank::Wise => read_wise(row, currency),
    };
    let m = match read {
        Ok(m) => m,
        Err(e) => {
            return Err(e);
        },
    };
    if m.reference.as_str().is_empty() || is_referenced(before, m.reference.as_str()) {
        return Err(unreadable("missing or duplicate statement reference; account not published"));
    }
    if m.amount.is_zero() {
        return Err(unreadable("zero bank movement requires manual review"));
    }
    let money = match Money::from_major(m.amount, currency, default_precision(currency)) {
        Ok(v) => v,
        Err(e) => {
            return Err(e);
        },
    };
    if !money.major().same(m.amount) {
        return Err(unreadable("statement amount contains fractional minor units"));
    }
    let mut line = ParsedLine::empty();
    line.date = Some(m.date);
    line.amount = Some(m.amount);
    line.currency = own(currency);
    line.description = m.description;
    line.reference = m.reference;
    line.raw = record(row);
    proof {
        let spec = row_line(bank, row@, currency@, shown_lines(before@));
        assert(spec is Ok);
        assert(line@ =~= spec->Ok_0);
    }
    Ok(line)
}

/// The lines of the first `n` movements, or why the file is refused.
pub open spec fn rows_read(bank: Bank, rows: Seq<Seq<char>>, currency: Seq<char>, n: nat) -> std::result::Result<Seq<ShownLine>, Refusal>
    decreases n,
{
    if n == 0 {
        Ok(Seq::empty())
    } else {
        match rows_read(bank, rows, currency, (n - 1) as nat) {
            Err(e) => Err(e),
            Ok(before) => match row_line(bank, rows[n - 1], currency, before) {
                Err(e) => Err(e),
                Ok(l) => Ok(before.push(l)),
            },
        }
    }
}

proof fn lemma_rows_refused(bank: Bank, rows: Seq<Seq<char>>, currency: Seq<char>, n: nat, m: nat)
    requires
        n <= m,
        rows_read(bank, rows, currency, n) is Err,
    ensures
        rows_read(bank, rows, currency, m) == rows_read(bank, rows, currency, n),
    decreases m,
{
    if n < m {
        lemma_rows_refused(bank, rows, currency, n, (m - 1) as nat);
    }
}

fn read_rows(bank: Bank, rows: &Vec<String>, currency: &str) -> (r: Result<Vec<ParsedLine>>)
    ensures
        match r {
            Ok(v) => rows_read(bank, texts(rows@), currency@, rows@.len()) == Ok::<Seq<ShownLine>, Refusal>(shown_lines(v@)),
            Err(e) => rows_read(bank, texts(rows@), currency@, rows@.len()) == Err::<Seq<ShownLine>, Refusal>(e@),
        },
{
    let ghost rs = texts(rows@);
    let mut lines: Vec<ParsedLine> = Vec::new();
    let mut i: usize = 0;
    assert(shown_lines(lines@) =~= Seq::<ShownLine>::empty());
    while i < rows.len()
        invariant
            i <= rows.len(),
            rs == texts(rows@),
            rows_read(bank, rs, currency@, i as nat) == Ok::<Seq<ShownLine>, Refusal>(shown_lines(lines@)),
        decreases rows.len() - i,
    {
        assert(rs[i as int] == rows@[i as int]@);
        match line_of(bank, rows[i].as_str(), currency, &lines) {
            Ok(l) => {
                let ghost before = shown_lines(lines@);
                let ghost shown = l@;
                lines.push(l);
                assert(shown_lines(lines@) =~= before.push(shown));
            },
            Err(e) => {
                proof {
                    lemma_rows_refused(bank, rs, currency@, (i + 1) as nat, rs.len());
                }
                return Err(e);
            },
        }
        i = i + 1;
    }
    Ok(lines)
}

/// Why the account of an envelope is refused.
pub open spec fn account_refusal(bank: Bank, account: Seq<char>) -> Option<Seq<char>> {
    let identity = text_under(account, "id"@);
    let currency = text_under(account, "currency"@);
    let profile = integer_at(account, "profile_id"@);
    let balance = integer_at(account, "balance_id"@);
    if identity.len() == 0 || !currency_code(currency) {
        Some("statement requires a stable account identity and currency"@)
    } else {
        match bank {
            Bank::Inter => if currency != "BRL"@ || !all_digits(identity) {
                Some("Inter PJ statements require a BRL current-account number"@)
            } else {
                None
            },
            Bank::Wise => if profile is None || profile->0 <= 0 {
                Some("missing Wise profile ID"@)
            } else if balance is None || balance->0 <= 0 {
                Some("missing Wise balance ID"@)
            } else if identity != int_text(profile->0) + ":"@ + int_text(balance->0) {
                Some("Wise account identity does not match profile/balance"@)
            } else {
                None
            },
        }
    }
}

fn is_all_digits(s: &str) -> (r: bool)
    ensures
        r == all_digits(s@),
{
    let cs = chars(s);
    let mut i: usize = 0;
    while i < cs.len()
        invariant
            i <= cs.len(),
            cs@ == s@,
            forall|k: int| 0 <= k < i ==> is_digit(#[trigger] cs@[k]),
        decreases cs.len() - i,
    {
        if !ascii_digit(cs[i]) {
            assert(!is_digit(s@[i as int]));
            return false;
        }
        i = i + 1;
    }
    true
}

fn check_account(bank: Bank, account: &str, identity: &str, currency: &str) -> (r: Result<()>)
    requires
        identity@ == text_under(account@, "id"@),
        currency@ == text_under(account@, "currency"@),
    ensures
        match r {
            Ok(_) => account_refusal(bank, account@) is None,
            Err(e) => account_refusal(bank, account@) is Some && e.unreadable(account_refusal(bank, account@)->0),
        },
{
    if identity.is_empty() || !known_currency(currency) {
        return Err(unreadable("statement requires a stable account identity and currency"));
    }
    match bank {
        Bank::Inter => {
            if !same(currency, "BRL") || !is_all_digits(identity) {
                return Err(unreadable("Inter PJ statements require a BRL current-account number"));
            }
        },
        Bank::Wise => {
            let profile: i64 = match integer(account, "profile_id") {
                Some(n) => n,
                None => 0,
            };
            if profile <= 0 {
                return Err(unreadable("missing Wise profile ID"));
            }
            let balance: i64 = match integer(account, "balance_id") {
                Some(n) => n,
                None => 0,
            };
            if balance <= 0 {
                return Err(unreadable("missing Wise balance ID"));
            }
            if !same(identity, cat3(int_string(profile).as_str(), ":", int_string(balance).as_str()).as_str()) {
                return Err(unreadable("Wise account identity does not match profile/balance"));
            }
        },
    }
    Ok(())
}

/// What an envelope holds.
pub open spec fn parse_document(file: Seq<char>) -> std::result::Result<ShownParse, Refusal> {
    let account = inner(file, "account"@);
    let currency = text_under(account, "currency"@);
    match bank_of(file) {
        None => Err(Refusal::Parse("unknown bank API envelope"@)),
        Some(bank) => if integer_at(file, "version"@) != Some(1int) {
            Err(Refusal::Parse("unsupported bank API envelope version"@))
        } else {
            match account_refusal(bank, account) {
                Some(m) => Err(Refusal::Parse(m)),
                None => match items_of(inner(file, "transactions"@)) {
                    None => Err(Refusal::Parse("statement transactions must be an array"@)),
                    Some(rows) => match rows_read(bank, rows, currency, rows.len()) {
                        Err(e) => Err(e),
                        Ok(ls) => Ok(
                            ShownParse {
                                lines: ls,
                                currency,
                                period_from: earliest(ls, ls.len()),
                                period_to: latest(ls, ls.len()),
                                detected_source: source_text(bank),
                                account_ref: text_under(account, "id"@),
                                ..no_parse()
                            },
                        ),
                    },
                },
            }
        },
    }
}

pub open spec fn parse_of(content: Seq<u8>) -> std::result::Result<ShownParse, Refusal> {
    match document_in(content) {
        Err(m) => Err(Refusal::Json(m)),
        Ok(file) => parse_document(file),
    }
}

/// Reads the document of an envelope.
pub fn parse_file(file: &str) -> (r: Result<ParseOutput>)
    ensures
        match r {
            Ok(p) => parse_document(file@) == Ok::<ShownParse, Refusal>(p@),
            Err(e) => parse_document(file@) == Err::<ShownParse, Refusal>(e@),
        },
{
    let bank = match bank_in(file) {
        Some(b) => b,
        None => {
            return Err(unreadable("unknown bank API envelope"));
        },
    };
    let version_one = match integer(file, "version") {
        Some(n) => n == 1,
        None => false,
    };
    if !version_one {
        return Err(unreadable("unsupported bank API envelope version"));
    }
    let account = inside(file, "account");
    let identity = text(account.as_str(), "id");
    let currency = text(account.as_str(), "currency");
    if let Err(e) = check_account(bank, account.as_str(), identity.as_str(), currency.as_str()) {
        return Err(e);
    }
    let rows = match items(inside(file, "transactions").as_str()) {
        Some(v) => v,
        None => {
            return Err(unreadable("statement transactions must be an array"));
        },
    };
    let lines = match read_rows(bank, &rows, currency.as_str()) {
        Ok(v) => v,
        Err(e) => {
            return Err(e);
        },
    };
    let mut out = ParseOutput::empty();
    out.detected_source = match bank {
        Bank::Inter => own("inter_pj_json"),
        Bank::Wise => own("wise_json"),
    };
    out.account_ref = identity;
    out.currency = currency;
    let (first, last) = period(&lines);
    out.period_from = first;
    out.period_to = last;
    out.lines = lines;
    proof {
        let spec = parse_document(file@);
        assert(spec is Ok);
        assert(out@ =~= spec->Ok_0);
    }
    Ok(out)
}

pub fn parse(content: &[u8]) -> (r: Result<ParseOutput>)
    ensures
        match r {
            Ok(p) => parse_of(content@) == Ok::<ShownParse, Refusal>(p@),
            Err(e) => parse_of(content@) == Err::<ShownParse, Refusal>(e@),
        },
{
    match read_document(content) {
        Ok(file) => parse_file(file.as_str()),
        Err(m) => Err(Error::Json(m)),
    }
}

/// Why a statement cannot go to an account.
pub open spec fn destination_refusal(content: Seq<u8>, account: Account) -> Option<Refusal> {
    match parse_of(content) {
        Err(e) => Some(e),
        Ok(p) => if account.account_type != AccountType::Asset || p.currency != account.commodity@ {
            Some(Refusal::Invalid("bank API statements require an asset account in the statement currency"@))
        } else {
            None
        },
    }
}

pub fn validate_destination(content: &[u8], account: &Account) -> (r: Result<()>)
    ensures
        match r {
            Ok(_) => destination_refusal(content@, *account) is None,
            Err(e) => destination_refusal(content@, *account) == Some(e@),
        },
{
    let parsed = match parse(content) {
        Ok(p) => p,
        Err(e) => {
            return Err(e);
        },
    };
    if account.account_type != AccountType::Asset || !same(parsed.currency.as_str(), account.commodity.as_str()) {
        return Err(invalid("bank API statements require an asset account in the statement currency"));
    }
    Ok(())
}

/// The ledger account for a statement: that of its connection, where it is one that can hold it.
pub open spec fn routed(content: Seq<u8>, connections: Seq<ConnectionAccount>, accounts: Seq<Account>) -> std::result::Result<Option<i64>, Refusal> {
    match document_in(content) {
        Err(_) => Ok(None),
        Ok(file) => match parse_document(file) {
            Err(_) => Ok(None),
            Ok(p) => match connected(connections, channel_text(bank_of(file)->0), p.account_ref, 0) {
                None => Ok(None),
                Some(id) => match place_of(accounts, id) {
                    None => Err(Refusal::NotFound("account "@ + int_text(id as int))),
                    Some(i) => if destination_refusal(content, accounts[i]) is Some {
                        Ok(None)
                    } else {
                        Ok(Some(id))
                    },
                },
            },
        },
    }
}

pub fn account_for_file(content: &[u8], connections: &[ConnectionAccount], accounts: &[Account]) -> (r: Result<Option<i64>>)
    ensures
        match r {
            Ok(id) => routed(content@, connections@, accounts@) == Ok::<Option<i64>, Refusal>(id),
            Err(e) => routed(content@, connections@, accounts@) == Err::<Option<i64>, Refusal>(e@),
        },
{
    let file = match read_document(content) {
        Ok(f) => f,
        Err(_) => {
            return Ok(None);
        },
    };
    let parsed = match parse_file(file.as_str()) {
        Ok(p) => p,
        Err(_) => {
            return Ok(None);
        },
    };
    let channel: &str = match bank_in(file.as_str()) {
        Some(Bank::Inter) => "inter_pj",
        Some(Bank::Wise) => "wise",
        None => {
            return Ok(None);
        },
    };
    let id = match account_of(connections, channel, parsed.account_ref.as_str()) {
        Some(id) => id,
        None => {
            return Ok(None);
        },
    };
    let ledger = match get_account(accounts, id) {
        Ok(a) => a,
        Err(e) => {
            return Err(e);
        },
    };
    if validate_destination(content, ledger).is_err() {
        return Ok(None);
    }
    Ok(Some(id))
}

/// What a bank says of a movement is its sign: a debit of Inter or Wise is a line below zero, a credit one
/// above.
pub proof fn law_kind_tells_sign(bank: Bank, row: Seq<char>, currency: Seq<char>, before: Seq<ShownLine>)
    ensures
        row_line(bank, row, currency, before) matches Ok(l) ==> (l.amount matches Some(a) && match bank {
            Bank::Inter => {
                let kind = text_under(row, "tipoOperacao"@);
                &&& kind == "C"@ && a.0 > 0 || kind == "D"@ && a.0 < 0
                &&& decimal_of(inner(row, "valor"@)) == Ok::<Num, Refusal>((if a.0 < 0 { -a.0 } else { a.0 }, a.1))
            },
            Bank::Wise => {
                let kind = text_under(row, "type"@);
                &&& kind == "CREDIT"@ && a.0 > 0 || kind == "DEBIT"@ && a.0 < 0
                &&& decimal_of(inner(inner(row, "amount"@), "value"@)) == Ok::<Num, Refusal>(a)
            },
        }),
{
    reveal_strlit("C");
    reveal_strlit("D");
    assert("C"@[0] == 'C' && "D"@[0] == 'D');
}

} // verus!
