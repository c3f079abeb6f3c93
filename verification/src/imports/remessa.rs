//! Remessa Online CSV: each row is an exchange (BRL out, foreign currency in, IOF).
//!
//! Rows become draft exchange entries between two accounts; the bank statements then match the two
//! bank postings.

use vstd::prelude::*;

use crate::codec::{json_string, json_text};
use crate::date::Date;
use crate::decimal::{
    added, decimal_text, distance, exact_product, fits, law_arithmetic_exact, law_arithmetic_near, law_sums_exact, lemma_near_rounded,
    lemma_pow10_positive, lemma_same_value, lemma_value_whole, less, multiplied, normal, pow10, rounded, subtracted, tame, value, view_of, within,
    Decimal, Num,
};
use crate::error::{invalid, unreadable, Refusal, Result};
use crate::imports::csvkit::{column_of, column_separator, date_read, decode, detect_date_format, detect_decimal_sep, find_col, format_of, parse_date, parse_table, place_as_int, signs_in, table_in, text_in, ShownTable, Table};
use crate::imports::delimited::{column_values, delimiter_for, header_row_for, raw_fields, raw_of, read_number, readable, sample_rows, samples_of, shown_mapping, values_in};
use crate::imports::presets::{abs_num, abs_number, abs_of, or_zero, plain_of, plain_text};
use crate::imports::statement::{fingerprint, money_in, money_of, print_of, shown_statements, untyped, untyped_line, ShownStatement};
use crate::imports::{copy_texts, field, field_at, fields, fields_with, no_parse, opt_text, put_field, shown_lines, value_text, CsvMapping, ParseOutput, ParsedLine, ShownLine, ShownMapping, ShownParse};
use crate::json::{inner, inside, text, text_at, text_under};
use crate::model::{Account, EntryInput, EntryStatus, MetaEntry, MetaValue, PostingInput, StatementLine};
use crate::money::{negated_num, decimal_in, number_text, plain};
use crate::text::{blank, cat, cat3, cat4, cat5, chars, contains, cut, cut_at, debug_text, holds, is_lower, is_upper, is_white, join, joined, lowercase_of, own, quoted, same, single_space, single_spaced, str_texts, texts, to_lowercase, trim, trimmed, upper, uppered, white};

verus! {

/// Whether a text is a code of three ASCII letters.
pub open spec fn letters(s: Seq<char>) -> bool {
    s.len() == 3 && forall|i: int| 0 <= i < s.len() ==> is_lower(#[trigger] s[i]) || is_upper(s[i])
}

fn are_letters(s: &str) -> (r: bool)
    ensures
        r == letters(s@),
{
    let cs = chars(s);
    if cs.len() != 3 {
        return false;
    }
    let mut i: usize = 0;
    while i < cs.len()
        invariant
            i <= cs.len(),
            cs@ == s@,
            forall|k: int| 0 <= k < i ==> is_lower(#[trigger] cs@[k]) || is_upper(cs@[k]),
        decreases cs.len() - i,
    {
        let c = cs[i];
        if !(('a' <= c && c <= 'z') || ('A' <= c && c <= 'Z')) {
            assert(!(is_lower(s@[i as int]) || is_upper(s@[i as int])));
            return false;
        }
        i = i + 1;
    }
    true
}

/// Where a cell is cut into words.
pub open spec fn breaks(s: Seq<char>) -> Seq<bool> {
    s.map_values(|c: char| white(c) || c == '(' || c == ')')
}

/// The first of some words, from `i` on, that is a currency code.
pub open spec fn code_among(ws: Seq<Seq<char>>, i: int) -> Option<Seq<char>>
    decreases ws.len() - i,
{
    if i < 0 || i >= ws.len() {
        None
    } else if letters(ws[i]) {
        Some(uppered(ws[i]))
    } else {
        code_among(ws, i + 1)
    }
}

/// The currency in a foreign amount cell ("USD 1.000,00", "1,000.00 USD", "US$ 500,00"): a code in
/// it, or that of a symbol.
pub open spec fn currency_in(cell: Seq<char>) -> Option<Seq<char>> {
    let t = trimmed(cell);
    match code_among(cut_at(t, breaks(t)), 0) {
        Some(c) => Some(c),
        None => if holds(t, "US$"@) || holds(t, "U$"@) {
            Some("USD"@)
        } else if holds(t, "€"@) {
            Some("EUR"@)
        } else if holds(t, "£"@) {
            Some("GBP"@)
        } else if holds(t, "¥"@) {
            Some("JPY"@)
        } else if holds(t, "C$"@) {
            Some("CAD"@)
        } else if holds(t, "A$"@) {
            Some("AUD"@)
        } else if holds(t, "CHF"@) {
            Some("CHF"@)
        } else if holds(t, "$"@) {
            Some("USD"@)
        } else {
            None
        },
    }
}

pub fn split_currency(cell: &str) -> (r: Option<String>)
    ensures
        opt_text(r) == currency_in(cell@),
{
    let t = trim(cell);
    let s = t.as_str();
    let cs = chars(s);
    let mut marks: Vec<bool> = Vec::new();
    let mut i: usize = 0;
    while i < cs.len()
        invariant
            i <= cs.len(),
            marks@ == breaks(cs@).take(i as int),
        decreases cs.len() - i,
    {
        let c = cs[i];
        marks.push(is_white(c) || c == '(' || c == ')');
        i = i + 1;
        assert(marks@ =~= breaks(cs@).take(i as int));
    }
    assert(marks@ =~= breaks(cs@));
    let words = cut(&cs, &marks);
    let ghost ws = texts(words@);
    let mut k: usize = 0;
    while k < words.len()
        invariant
            k <= words.len(),
            ws == texts(words@),
            ws == cut_at(trimmed(cell@), breaks(trimmed(cell@))),
            code_among(ws, 0) == code_among(ws, k as int),
        decreases words.len() - k,
    {
        if are_letters(words[k].as_str()) {
            return Some(upper(words[k].as_str()));
        }
        k = k + 1;
    }
    if contains(s, "US$") || contains(s, "U$") {
        Some(own("USD"))
    } else if contains(s, "€") {
        Some(own("EUR"))
    } else if contains(s, "£") {
        Some(own("GBP"))
    } else if contains(s, "¥") {
        Some(own("JPY"))
    } else if contains(s, "C$") {
        Some(own("CAD"))
    } else if contains(s, "A$") {
        Some(own("AUD"))
    } else if contains(s, "CHF") {
        Some(own("CHF"))
    } else if contains(s, "$") {
        Some(own("USD"))
    } else {
        None
    }
}

/// The sum of two numbers that may be missing.
pub open spec fn plus(a: Option<Num>, b: Num) -> Option<Num> {
    match a {
        Some(x) => added(x, b),
        None => None,
    }
}

pub open spec fn minus(a: Option<Num>, b: Num) -> Option<Num> {
    match a {
        Some(x) => subtracted(x, b),
        None => None,
    }
}

/// The BRL side of an exchange as it hit the bank account, nothing where a number on the way to it
/// is too large.
///
/// The VET (valor efetivo total) is the all-in rate, so VET times the foreign amount is the total
/// charged (outbound) or the net received (inbound). When the BRL column is the principal instead,
/// IOF and the fee are added or removed to reach that total; without a VET the BRL column is taken
/// as the total. A VET is quoted to four decimals, so the closer candidate within 1% is the total.
pub open spec fn settled(brl: Num, iof: Num, fee: Num, vet: Option<Num>, fx: Num, outbound: bool) -> Option<Num> {
    if vet is None || (vet->0).0 == 0 {
        Some(brl)
    } else {
        let adjusted = if outbound {
            plus(added(brl, iof), fee)
        } else {
            minus(subtracted(brl, iof), fee)
        };
        match (multiplied(vet->0, fx), adjusted) {
            (Some(p), Some(adj)) => {
                let expected = rounded(p, 2);
                match (subtracted(brl, expected), subtracted(adj, expected), multiplied(abs_num(expected), (1, 2))) {
                    (Some(far), Some(near), Some(hundredth)) => {
                        let tolerance = if less(hundredth, (1, 0)) {
                            (1, 0)
                        } else {
                            hundredth
                        };
                        Some(
                            if less(abs_num(near), abs_num(far)) && !less(tolerance, abs_num(near)) {
                                adj
                            } else {
                                brl
                            },
                        )
                    },
                    _ => None,
                }
            },
            _ => None,
        }
    }
}

pub fn settle_brl(brl: Decimal, iof: Decimal, fee: Decimal, vet: Option<Decimal>, fx: Decimal, outbound: bool) -> (r: Option<Decimal>)
    ensures
        view_of(r) == settled(brl@, iof@, fee@, view_of(vet), fx@, outbound),
{
    let rate = match vet {
        Some(v) => v,
        None => {
            return Some(brl);
        },
    };
    if rate.is_zero() {
        return Some(brl);
    }
    let product = rate.checked_mul(fx);
    let first = if outbound {
        brl.checked_add(iof)
    } else {
        brl.checked_sub(iof)
    };
    let adjusted = match first {
        Some(f) => if outbound {
            f.checked_add(fee)
        } else {
            f.checked_sub(fee)
        },
        None => None,
    };
    match (product, adjusted) {
        (Some(p), Some(adj)) => {
            let expected = p.round_dp(2);
            let cent = Decimal::from_units(1, 2);
            match (brl.checked_sub(expected), adj.checked_sub(expected), expected.abs().checked_mul(cent)) {
                (Some(far), Some(near), Some(hundredth)) => {
                    let tolerance = if hundredth.lt(Decimal::one()) {
                        Decimal::one()
                    } else {
                        hundredth
                    };
                    if near.abs().lt(far.abs()) && near.abs().le(tolerance) {
                        Some(adj)
                    } else {
                        Some(brl)
                    }
                },
                _ => None,
            }
        },
        _ => None,
    }
}

/// Whether words say that money came in.
pub open spec fn inbound(s: Seq<char>) -> bool {
    holds(s, "receb"@) || holds(s, "inbound"@) || holds(s, "entrada"@) || s == "in"@
}

fn is_inbound(s: &str) -> (r: bool)
    ensures
        r == inbound(s@),
{
    contains(s, "receb") || contains(s, "inbound") || contains(s, "entrada") || same(s, "in")
}

/// Where the fields of an exchange stand in a row, and how they are written.
#[derive(Debug)]
pub struct Columns {
    pub date: usize,
    pub brl: usize,
    pub foreign: usize,
    pub vet: Option<usize>,
    pub currency: Option<usize>,
    pub iof: Option<usize>,
    pub spread: Option<usize>,
    pub rate: Option<usize>,
    pub fee: Option<usize>,
    pub direction: Option<usize>,
    pub kind: Option<usize>,
    pub party: Option<usize>,
    pub reference: Option<usize>,
    pub date_format: String,
    pub brl_separator: char,
    pub foreign_separator: char,
    pub default_currency: String,
}

#[verifier::ext_equal]
pub struct ShownColumns {
    pub date: int,
    pub brl: int,
    pub foreign: int,
    pub vet: Option<int>,
    pub currency: Option<int>,
    pub iof: Option<int>,
    pub spread: Option<int>,
    pub rate: Option<int>,
    pub fee: Option<int>,
    pub direction: Option<int>,
    pub kind: Option<int>,
    pub party: Option<int>,
    pub reference: Option<int>,
    pub date_format: Seq<char>,
    pub brl_separator: char,
    pub foreign_separator: char,
    pub default_currency: Seq<char>,
}

impl View for Columns {
    type V = ShownColumns;

    open spec fn view(&self) -> ShownColumns {
        ShownColumns {
            date: self.date as int,
            brl: self.brl as int,
            foreign: self.foreign as int,
            vet: place_as_int(self.vet),
            currency: place_as_int(self.currency),
            iof: place_as_int(self.iof),
            spread: place_as_int(self.spread),
            rate: place_as_int(self.rate),
            fee: place_as_int(self.fee),
            direction: place_as_int(self.direction),
            kind: place_as_int(self.kind),
            party: place_as_int(self.party),
            reference: place_as_int(self.reference),
            date_format: self.date_format@,
            brl_separator: self.brl_separator,
            foreign_separator: self.foreign_separator,
            default_currency: self.default_currency@,
        }
    }
}

/// The trimmed cell of a row in a column, empty where there is none.
pub open spec fn cell_in(row: Seq<Seq<char>>, column: Option<int>) -> Seq<char> {
    match column {
        Some(i) => if 0 <= i < row.len() {
            trimmed(row[i])
        } else {
            Seq::empty()
        },
        None => Seq::empty(),
    }
}

fn cell(row: &Vec<String>, column: Option<usize>) -> (r: String)
    ensures
        r@ == cell_in(texts(row@), place_as_int(column)),
{
    match column {
        Some(i) => if i < row.len() {
            trim(row[i].as_str())
        } else {
            String::new()
        },
        None => String::new(),
    }
}

/// An exchange as a row says it.
pub struct Exchange {
    pub date: Option<Date>,
    pub brl: Option<Num>,
    pub foreign: Option<Num>,
    pub iof: Num,
    pub fee: Num,
    pub vet: Option<Num>,
    pub currency: Seq<char>,
    pub outbound: bool,
    pub rate: Seq<char>,
    pub spread: Seq<char>,
    pub party: Seq<char>,
    pub kind: Seq<char>,
    pub reference: Seq<char>,
}

/// The exchange in a row. Direção says which way the money went; without it a negative BRL amount or
/// a "recebimento" in the operation type marks an inbound exchange.
pub open spec fn exchange_in(c: ShownColumns, row: Seq<Seq<char>>) -> Exchange {
    let day = cell_in(row, Some(c.date));
    let brl = readable(cell_in(row, Some(c.brl)), c.brl_separator);
    let foreign_cell = cell_in(row, Some(c.foreign));
    let vet = readable(cell_in(row, c.vet), c.brl_separator);
    let named = uppered(cell_in(row, c.currency));
    let direction = lowercase_of(cell_in(row, c.direction));
    let kind = cell_in(row, c.kind);
    Exchange {
        date: if blank(day) {
            None
        } else {
            date_read(trimmed(day), c.date_format)
        },
        brl,
        foreign: abs_of(readable(foreign_cell, c.foreign_separator)),
        iof: abs_num(or_zero(readable(cell_in(row, c.iof), c.brl_separator))),
        fee: abs_num(or_zero(readable(cell_in(row, c.fee), c.brl_separator))),
        vet,
        currency: if named.len() > 0 {
            named
        } else {
            match currency_in(foreign_cell) {
                Some(code) => code,
                None => c.default_currency,
            }
        },
        outbound: if direction.len() > 0 {
            !inbound(direction)
        } else if brl is Some && (brl->0).0 < 0 {
            true
        } else {
            !inbound(lowercase_of(kind))
        },
        rate: match vet {
            Some(v) => decimal_text(normal(v)),
            None => cell_in(row, c.rate),
        },
        spread: cell_in(row, c.spread),
        party: cell_in(row, c.party),
        kind,
        reference: cell_in(row, c.reference),
    }
}

/// The total of an exchange in BRL, or that it cannot be computed.
pub open spec fn total_of(x: Exchange) -> std::result::Result<Option<Num>, Refusal> {
    match (x.brl, x.foreign) {
        (Some(b), Some(f)) => match settled(abs_num(b), x.iof, x.fee, x.vet, f, x.outbound) {
            Some(t) => Ok(Some(t)),
            None => Err(Refusal::Invalid("exchange total is out of range"@)),
        },
        (Some(b), None) => Ok(Some(abs_num(b))),
        _ => Ok(None),
    }
}

pub open spec fn json_num(n: Option<Num>) -> Seq<char> {
    match n {
        Some(v) => json_text(decimal_text(normal(v))),
        None => "null"@,
    }
}

/// What is kept of an exchange with its line.
pub open spec fn exchange_text(x: Exchange, total: Option<Num>) -> Seq<char> {
    "{\"brl_total\":"@ + json_num(total) + ",\"counterparty\":"@ + json_text(x.party) + ",\"fee\":"@ + json_text(decimal_text(normal(x.fee)))
        + ",\"foreign_currency\":"@ + json_text(x.currency) + ",\"foreign_quantity\":"@ + json_num(x.foreign) + ",\"iof\":"@ + json_text(
        decimal_text(normal(x.iof)),
    ) + ",\"kind\":"@ + json_text(x.kind) + ",\"outbound\":"@ + (if x.outbound {
        "true"@
    } else {
        "false"@
    }) + ",\"rate\":"@ + json_text(x.rate) + ",\"spread\":"@ + json_text(x.spread) + "}"@
}

/// What an exchange is called.
pub open spec fn described(x: Exchange) -> Seq<char> {
    let start = "Remessa Online "@ + (if x.outbound {
        "→"@
    } else {
        "←"@
    }) + " "@ + plain_of(x.foreign) + " "@ + x.currency;
    let party = if x.party.len() > 0 {
        start + " "@ + x.party
    } else {
        start
    };
    single_spaced(
        if x.kind.len() > 0 {
            party + " ("@ + x.kind + ")"@
        } else {
            party
        },
    )
}

/// What a row lacks to become an entry.
pub open spec fn lacking(x: Exchange) -> Seq<Seq<char>> {
    (if x.date is None {
        seq!["date"@]
    } else {
        Seq::empty()
    }) + (if x.brl is None {
        seq!["BRL amount"@]
    } else {
        Seq::empty()
    }) + (if x.foreign is None {
        seq!["foreign amount"@]
    } else {
        Seq::empty()
    }) + (if x.currency.len() == 0 {
        seq!["currency (add a Moeda column or set the currency in the mapping)"@]
    } else {
        Seq::empty()
    })
}

/// The line of a row.
#[verifier::opaque]
pub open spec fn row_line(c: ShownColumns, hs: Seq<Seq<char>>, row: Seq<Seq<char>>) -> std::result::Result<ShownLine, Refusal> {
    let x = exchange_in(c, row);
    match total_of(x) {
        Err(e) => Err(e),
        Ok(total) => Ok(
            ShownLine {
                date: x.date,
                amount: match total {
                    Some(t) => Some(
                        if x.outbound {
                            negated_num(t)
                        } else {
                            t
                        },
                    ),
                    None => None,
                },
                currency: "BRL"@,
                description: described(x),
                reference: x.reference,
                balance_after: None,
                raw: fields_with(raw_of(hs, row, hs.len()), "_exchange"@, exchange_text(x, total)),
                skip: if lacking(x).len() > 0 {
                    Some("missing "@ + joined(lacking(x), ", "@))
                } else {
                    None
                },
                original: None,
            },
        ),
    }
}

struct Read {
    date: Option<Date>,
    brl: Option<Decimal>,
    foreign: Option<Decimal>,
    iof: Decimal,
    fee: Decimal,
    vet: Option<Decimal>,
    currency: String,
    outbound: bool,
    rate: String,
    spread: String,
    party: String,
    kind: String,
    reference: String,
}

impl Read {
    spec fn shown(self) -> Exchange {
        Exchange {
            date: self.date,
            brl: view_of(self.brl),
            foreign: view_of(self.foreign),
            iof: self.iof@,
            fee: self.fee@,
            vet: view_of(self.vet),
            currency: self.currency@,
            outbound: self.outbound,
            rate: self.rate@,
            spread: self.spread@,
            party: self.party@,
            kind: self.kind@,
            reference: self.reference@,
        }
    }
}

fn charge(row: &Vec<String>, column: Option<usize>, sep: char) -> (r: Decimal)
    ensures
        r@ == abs_num(or_zero(readable(cell_in(texts(row@), place_as_int(column)), sep))),
{
    match read_number(cell(row, column).as_str(), sep) {
        Some(n) => n.abs(),
        None => Decimal::zero(),
    }
}

fn read_exchange(c: &Columns, row: &Vec<String>) -> (r: Read)
    ensures
        r.shown() == exchange_in(c@, texts(row@)),
{
    let date_place: Option<usize> = Some(c.date);
    assert(place_as_int(date_place) == Some(c@.date));
    let brl_place: Option<usize> = Some(c.brl);
    assert(place_as_int(brl_place) == Some(c@.brl));
    let foreign_place: Option<usize> = Some(c.foreign);
    assert(place_as_int(foreign_place) == Some(c@.foreign));
    let date = match parse_date(cell(row, date_place).as_str(), c.date_format.as_str()) {
        Ok(d) => Some(d),
        Err(_) => None,
    };
    let brl = read_number(cell(row, brl_place).as_str(), c.brl_separator);
    let foreign_cell = cell(row, foreign_place);
    let foreign = abs_number(read_number(foreign_cell.as_str(), c.foreign_separator));
    let vet = read_number(cell(row, c.vet).as_str(), c.brl_separator);
    let named = upper(cell(row, c.currency).as_str());
    let currency = if named.as_str().is_empty() {
        match split_currency(foreign_cell.as_str()) {
            Some(code) => code,
            None => own(c.default_currency.as_str()),
        }
    } else {
        named
    };
    let kind = cell(row, c.kind);
    let direction = to_lowercase(cell(row, c.direction).as_str());
    let negative = match brl {
        Some(b) => b.is_negative(),
        None => false,
    };
    let outbound = if !direction.as_str().is_empty() {
        !is_inbound(direction.as_str())
    } else if negative {
        true
    } else {
        !is_inbound(to_lowercase(kind.as_str()).as_str())
    };
    let rate = match vet {
        Some(v) => plain(v),
        None => cell(row, c.rate),
    };
    Read {
        date,
        brl,
        foreign,
        iof: charge(row, c.iof, c.brl_separator),
        fee: charge(row, c.fee, c.brl_separator),
        vet,
        currency,
        outbound,
        rate,
        spread: cell(row, c.spread),
        party: cell(row, c.party),
        kind,
        reference: cell(row, c.reference),
    }
}

fn json_number(n: Option<Decimal>) -> (r: String)
    ensures
        r@ == json_num(view_of(n)),
{
    match n {
        Some(v) => json_string(plain(v).as_str()),
        None => own("null"),
    }
}

impl Read {
    fn total(&self) -> (r: Result<Option<Decimal>>)
        ensures
            match r {
                Ok(t) => total_of(self.shown()) == Ok::<Option<Num>, Refusal>(view_of(t)),
                Err(e) => total_of(self.shown()) == Err::<Option<Num>, Refusal>(e@),
            },
    {
        match (self.brl, self.foreign) {
            (Some(b), Some(f)) => match settle_brl(b.abs(), self.iof, self.fee, self.vet, f, self.outbound) {
                Some(t) => Ok(Some(t)),
                None => Err(invalid("exchange total is out of range")),
            },
            (Some(b), None) => Ok(Some(b.abs())),
            _ => Ok(None),
        }
    }

    fn text(&self, total: Option<Decimal>) -> (r: String)
        ensures
            r@ == exchange_text(self.shown(), view_of(total)),
    {
        let flag: &str = if self.outbound {
            "true"
        } else {
            "false"
        };
        let a = cat5(
            "{\"brl_total\":",
            json_number(total).as_str(),
            ",\"counterparty\":",
            json_string(self.party.as_str()).as_str(),
            ",\"fee\":",
        );
        let b = cat5(
            a.as_str(),
            json_string(plain(self.fee).as_str()).as_str(),
            ",\"foreign_currency\":",
            json_string(self.currency.as_str()).as_str(),
            ",\"foreign_quantity\":",
        );
        let c = cat5(
            b.as_str(),
            json_number(self.foreign).as_str(),
            ",\"iof\":",
            json_string(plain(self.iof).as_str()).as_str(),
            ",\"kind\":",
        );
        let d = cat5(c.as_str(), json_string(self.kind.as_str()).as_str(), ",\"outbound\":", flag, ",\"rate\":");
        cat5(
            d.as_str(),
            json_string(self.rate.as_str()).as_str(),
            ",\"spread\":",
            json_string(self.spread.as_str()).as_str(),
            "}",
        )
    }

    fn description(&self) -> (r: String)
        ensures
            r@ == described(self.shown()),
    {
        let arrow: &str = if self.outbound {
            "→"
        } else {
            "←"
        };
        let head = cat3("Remessa Online ", arrow, " ");
        let start = cat4(head.as_str(), plain_text(self.foreign).as_str(), " ", self.currency.as_str());
        let party = if self.party.as_str().is_empty() {
            start
        } else {
            cat3(start.as_str(), " ", self.party.as_str())
        };
        if self.kind.as_str().is_empty() {
            single_space(party.as_str())
        } else {
            single_space(cat4(party.as_str(), " (", self.kind.as_str(), ")").as_str())
        }
    }

    fn missing(&self) -> (r: Vec<String>)
        ensures
            texts(r@) == lacking(self.shown()),
            r@.len() == lacking(self.shown()).len(),
    {
        let mut r: Vec<String> = Vec::new();
        if self.date.is_none() {
            r.push(own("date"));
        }
        if self.brl.is_none() {
            r.push(own("BRL amount"));
        }
        if self.foreign.is_none() {
            r.push(own("foreign amount"));
        }
        if self.currency.as_str().is_empty() {
            r.push(own("currency (add a Moeda column or set the currency in the mapping)"));
        }
        assert(texts(r@) =~= lacking(self.shown()));
        r
    }
}

fn line_of(c: &Columns, headers: &Vec<String>, row: &Vec<String>) -> (r: Result<ParsedLine>)
    ensures
        match r {
            Ok(l) => row_line(c@, texts(headers@), texts(row@)) == Ok::<ShownLine, Refusal>(l@),
            Err(e) => row_line(c@, texts(headers@), texts(row@)) == Err::<ShownLine, Refusal>(e@),
        },
{
    reveal(row_line);
    let x = read_exchange(c, row);
    let total = match x.total() {
        Ok(t) => t,
        Err(e) => {
            return Err(e);
        },
    };
    let mut line = ParsedLine::empty();
    line.raw = raw_fields(headers, row);
    line.date = x.date;
    line.amount = match total {
        Some(t) => Some(
            if x.outbound {
                t.negated()
            } else {
                t
            },
        ),
        None => None,
    };
    line.currency = own("BRL");
    line.description = x.description();
    let value = MetaValue::Other(x.text(total));
    put_field(&mut line.raw, "_exchange", value);
    let missing = x.missing();
    if missing.len() > 0 {
        line.skip = Some(cat("missing ", join(&missing, ", ").as_str()));
    }
    line.reference = x.reference;
    proof {
        let spec = row_line(c@, texts(headers@), texts(row@));
        assert(spec is Ok);
        assert(line@ =~= spec->Ok_0);
    }
    Ok(line)
}

/// The names of the column of the day of an exchange.
pub open spec fn date_names() -> Seq<Seq<char>> {
    seq!["Data de operação"@, "Data da operação"@, "Data de operacao"@, "Data da operacao"@, "Data"@, "Date"@, "Criado em"@]
}

fn find_date(headers: &[String]) -> (r: Option<usize>)
    ensures
        place_as_int(r) == column_of(texts(headers@), date_names()),
{
    let names: [&str; 7] = ["Data de operação", "Data da operação", "Data de operacao", "Data da operacao", "Data", "Date", "Criado em"];
    assert(str_texts(names@) =~= date_names());
    find_col(headers, &names)
}

/// The names of the column of its all-in rate.
pub open spec fn vet_names() -> Seq<Seq<char>> {
    seq!["VET"@, "Valor Efetivo Total"@]
}

fn find_vet(headers: &[String]) -> (r: Option<usize>)
    ensures
        place_as_int(r) == column_of(texts(headers@), vet_names()),
{
    let names: [&str; 2] = ["VET", "Valor Efetivo Total"];
    assert(str_texts(names@) =~= vet_names());
    find_col(headers, &names)
}

/// The names of the column of its foreign amount.
pub open spec fn foreign_names() -> Seq<Seq<char>> {
    seq!["Valor da moeda estrangeira"@, "Valor em moeda estrangeira"@, "Valor moeda estrangeira"@, "Valor enviado"@, "Valor recebido"@, "Valor estrangeiro"@, "Valor na moeda"@, "Amount"@]
}

fn find_foreign(headers: &[String]) -> (r: Option<usize>)
    ensures
        place_as_int(r) == column_of(texts(headers@), foreign_names()),
{
    let names: [&str; 8] = ["Valor da moeda estrangeira", "Valor em moeda estrangeira", "Valor moeda estrangeira", "Valor enviado", "Valor recebido", "Valor estrangeiro", "Valor na moeda", "Amount"];
    assert(str_texts(names@) =~= foreign_names());
    find_col(headers, &names)
}

/// The names of the column of its amount in BRL.
pub open spec fn brl_names() -> Seq<Seq<char>> {
    seq!["Valor na moeda em real"@, "Valor em reais"@, "Valor em real"@, "Valor em BRL"@, "Valor (BRL)"@, "Total em reais"@, "Valor total"@, "Total (BRL)"@, "Valor BRL"@, "Total"@]
}

fn find_brl(headers: &[String]) -> (r: Option<usize>)
    ensures
        place_as_int(r) == column_of(texts(headers@), brl_names()),
{
    let names: [&str; 10] = ["Valor na moeda em real", "Valor em reais", "Valor em real", "Valor em BRL", "Valor (BRL)", "Total em reais", "Valor total", "Total (BRL)", "Valor BRL", "Total"];
    assert(str_texts(names@) =~= brl_names());
    find_col(headers, &names)
}

/// The names of the column of its currency.
pub open spec fn currency_names() -> Seq<Seq<char>> {
    seq!["Moeda"@, "Moeda estrangeira"@, "Currency"@]
}

fn find_currency(headers: &[String]) -> (r: Option<usize>)
    ensures
        place_as_int(r) == column_of(texts(headers@), currency_names()),
{
    let names: [&str; 3] = ["Moeda", "Moeda estrangeira", "Currency"];
    assert(str_texts(names@) =~= currency_names());
    find_col(headers, &names)
}

/// The names of the column of its IOF.
pub open spec fn iof_names() -> Seq<Seq<char>> {
    seq!["IOF"@]
}

fn find_iof(headers: &[String]) -> (r: Option<usize>)
    ensures
        place_as_int(r) == column_of(texts(headers@), iof_names()),
{
    let names: [&str; 1] = ["IOF"];
    assert(str_texts(names@) =~= iof_names());
    find_col(headers, &names)
}

/// The names of the column of its spread.
pub open spec fn spread_names() -> Seq<Seq<char>> {
    seq!["Spread"@]
}

fn find_spread(headers: &[String]) -> (r: Option<usize>)
    ensures
        place_as_int(r) == column_of(texts(headers@), spread_names()),
{
    let names: [&str; 1] = ["Spread"];
    assert(str_texts(names@) =~= spread_names());
    find_col(headers, &names)
}

/// The names of the column of its rate.
pub open spec fn rate_names() -> Seq<Seq<char>> {
    seq!["Taxa de câmbio"@, "Taxa de cambio"@, "Câmbio"@, "Cambio"@, "Cotação"@, "Cotacao"@, "Exchange rate"@, "Rate"@]
}

fn find_rate(headers: &[String]) -> (r: Option<usize>)
    ensures
        place_as_int(r) == column_of(texts(headers@), rate_names()),
{
    let names: [&str; 8] = ["Taxa de câmbio", "Taxa de cambio", "Câmbio", "Cambio", "Cotação", "Cotacao", "Exchange rate", "Rate"];
    assert(str_texts(names@) =~= rate_names());
    find_col(headers, &names)
}

/// The names of the column of its fee.
pub open spec fn fee_names() -> Seq<Seq<char>> {
    seq!["Tarifa"@, "Taxa de serviço"@, "Taxa de servico"@, "Fee"@, "Custo"@]
}

fn find_fee(headers: &[String]) -> (r: Option<usize>)
    ensures
        place_as_int(r) == column_of(texts(headers@), fee_names()),
{
    let names: [&str; 5] = ["Tarifa", "Taxa de serviço", "Taxa de servico", "Fee", "Custo"];
    assert(str_texts(names@) =~= fee_names());
    find_col(headers, &names)
}

/// The names of the column of its direction.
pub open spec fn direction_names() -> Seq<Seq<char>> {
    seq!["Direção"@, "Direcao"@, "Direction"@, "Sentido"@]
}

fn find_direction(headers: &[String]) -> (r: Option<usize>)
    ensures
        place_as_int(r) == column_of(texts(headers@), direction_names()),
{
    let names: [&str; 4] = ["Direção", "Direcao", "Direction", "Sentido"];
    assert(str_texts(names@) =~= direction_names());
    find_col(headers, &names)
}

/// The names of the column of its kind.
pub open spec fn kind_names() -> Seq<Seq<char>> {
    seq!["Tipo de operação"@, "Tipo de operacao"@, "Natureza"@, "Motivo"@, "Finalidade"@, "Tipo"@]
}

fn find_kind(headers: &[String]) -> (r: Option<usize>)
    ensures
        place_as_int(r) == column_of(texts(headers@), kind_names()),
{
    let names: [&str; 6] = ["Tipo de operação", "Tipo de operacao", "Natureza", "Motivo", "Finalidade", "Tipo"];
    assert(str_texts(names@) =~= kind_names());
    find_col(headers, &names)
}

/// The names of the column of its other party.
pub open spec fn party_names() -> Seq<Seq<char>> {
    seq!["Contraparte"@, "Beneficiário"@, "Beneficiario"@, "Pagador"@, "Nome"@]
}

fn find_party(headers: &[String]) -> (r: Option<usize>)
    ensures
        place_as_int(r) == column_of(texts(headers@), party_names()),
{
    let names: [&str; 5] = ["Contraparte", "Beneficiário", "Beneficiario", "Pagador", "Nome"];
    assert(str_texts(names@) =~= party_names());
    find_col(headers, &names)
}

/// The names of the column of its reference.
pub open spec fn reference_names() -> Seq<Seq<char>> {
    seq!["Contrato"@, "Número do contrato"@, "Numero do contrato"@, "Nº do contrato"@, "Identificador"@, "ID"@, "Código"@, "Codigo"@]
}

fn find_reference(headers: &[String]) -> (r: Option<usize>)
    ensures
        place_as_int(r) == column_of(texts(headers@), reference_names()),
{
    let names: [&str; 8] = ["Contrato", "Número do contrato", "Numero do contrato", "Nº do contrato", "Identificador", "ID", "Código", "Codigo"];
    assert(str_texts(names@) =~= reference_names());
    find_col(headers, &names)
}

/// The names of columns as a list.
pub open spec fn quoted_all(hs: Seq<Seq<char>>) -> Seq<Seq<char>> {
    hs.map_values(|h: Seq<char>| debug_text(h))
}

fn quote_all(hs: &Vec<String>) -> (r: Vec<String>)
    ensures
        texts(r@) == quoted_all(texts(hs@)),
{
    let mut r: Vec<String> = Vec::new();
    let mut i: usize = 0;
    while i < hs.len()
        invariant
            i <= hs.len(),
            texts(r@) == quoted_all(texts(hs@)).take(i as int),
        decreases hs.len() - i,
    {
        let ghost before = texts(r@);
        let t = quoted(hs[i].as_str());
        r.push(t);
        assert(texts(r@) =~= before.push(t@));
        i = i + 1;
        assert(texts(r@) =~= quoted_all(texts(hs@)).take(i as int));
    }
    assert(texts(r@) =~= quoted_all(texts(hs@)));
    r
}

/// A column, unless it is one of two others.
pub open spec fn other_than(p: Option<int>, a: Option<int>, b: Option<int>) -> Option<int> {
    if p is Some && (p == a || p == b) {
        None
    } else {
        p
    }
}

fn unless(p: Option<usize>, a: Option<usize>, b: Option<usize>) -> (r: Option<usize>)
    ensures
        place_as_int(r) == other_than(place_as_int(p), place_as_int(a), place_as_int(b)),
{
    match p {
        None => None,
        Some(i) => {
            let first = match a {
                Some(x) => x == i,
                None => false,
            };
            let second = match b {
                Some(x) => x == i,
                None => false,
            };
            if first || second {
                None
            } else {
                Some(i)
            }
        },
    }
}

/// Where an exchange's fields are in a table, or why it cannot be read.
pub open spec fn columns_of(t: ShownTable, default_currency: Seq<char>) -> std::result::Result<ShownColumns, Refusal> {
    let hs = t.headers;
    let vet = column_of(hs, vet_names());
    let foreign = column_of(hs, foreign_names());
    let brl = other_than(column_of(hs, brl_names()), vet, foreign);
    match column_of(hs, date_names()) {
        None => Err(Refusal::Parse("Remessa CSV: no date column"@)),
        Some(date) => match (brl, foreign) {
            (Some(b), Some(f)) => {
                let days = column_values(t.rows, date, t.rows.len());
                Ok(
                    ShownColumns {
                        date,
                        brl: b,
                        foreign: f,
                        vet,
                        currency: other_than(column_of(hs, currency_names()), foreign, brl),
                        iof: column_of(hs, iof_names()),
                        spread: column_of(hs, spread_names()),
                        rate: column_of(hs, rate_names()),
                        fee: column_of(hs, fee_names()),
                        direction: column_of(hs, direction_names()),
                        kind: column_of(hs, kind_names()),
                        party: column_of(hs, party_names()),
                        reference: column_of(hs, reference_names()),
                        date_format: format_of(signs_in(days, days.len())),
                        brl_separator: column_separator(column_values(t.rows, b, t.rows.len())),
                        foreign_separator: column_separator(column_values(t.rows, f, t.rows.len())),
                        default_currency,
                    },
                )
            },
            _ => Err(
                Refusal::Parse(
                    "Remessa CSV: could not find the BRL and foreign amount columns in ["@ + joined(quoted_all(hs), ", "@) + "]"@,
                ),
            ),
        },
    }
}

fn find_columns(table: &Table, default_currency: String) -> (r: Result<Columns>)
    ensures
        match r {
            Ok(c) => columns_of(table@, default_currency@) == Ok::<ShownColumns, Refusal>(c@),
            Err(e) => columns_of(table@, default_currency@) == Err::<ShownColumns, Refusal>(e@),
        },
{
    let h = &table.headers;
    let date = match find_date(h) {
        Some(i) => i,
        None => {
            return Err(unreadable("Remessa CSV: no date column"));
        },
    };
    let vet = find_vet(h);
    let foreign_place = find_foreign(h);
    let brl_place = unless(find_brl(h), vet, foreign_place);
    let currency = unless(find_currency(h), foreign_place, brl_place);
    let (brl, foreign) = match (brl_place, foreign_place) {
        (Some(b), Some(f)) => (b, f),
        _ => {
            let names = join(&quote_all(h), ", ");
            return Err(
                unreadable(cat3("Remessa CSV: could not find the BRL and foreign amount columns in [", names.as_str(), "]").as_str()),
            );
        },
    };
    let days = values_in(&table.rows, date);
    assert(str_texts(days@).len() == days@.len());
    let c = Columns {
        date,
        brl,
        foreign,
        vet,
        currency,
        iof: find_iof(h),
        spread: find_spread(h),
        rate: find_rate(h),
        fee: find_fee(h),
        direction: find_direction(h),
        kind: find_kind(h),
        party: find_party(h),
        reference: find_reference(h),
        date_format: detect_date_format(&days),
        brl_separator: detect_decimal_sep(&values_in(&table.rows, brl)),
        foreign_separator: detect_decimal_sep(&values_in(&table.rows, foreign)),
        default_currency,
    };
    proof {
        let spec = columns_of(table@, default_currency@);
        assert(spec is Ok);
        assert(c@ =~= spec->Ok_0);
    }
    Ok(c)
}

/// The lines of the first `n` rows, or why one of them is refused.
pub open spec fn table_lines(c: ShownColumns, hs: Seq<Seq<char>>, rows: Seq<Seq<Seq<char>>>, n: nat) -> std::result::Result<Seq<ShownLine>, Refusal>
    decreases n,
{
    if n == 0 {
        Ok(Seq::empty())
    } else {
        match table_lines(c, hs, rows, (n - 1) as nat) {
            Err(e) => Err(e),
            Ok(before) => match row_line(c, hs, rows[n - 1]) {
                Err(e) => Err(e),
                Ok(l) => Ok(before.push(l)),
            },
        }
    }
}

proof fn lemma_lines_refused(c: ShownColumns, hs: Seq<Seq<char>>, rows: Seq<Seq<Seq<char>>>, n: nat, m: nat)
    requires
        n <= m,
        table_lines(c, hs, rows, n) is Err,
    ensures
        table_lines(c, hs, rows, m) == table_lines(c, hs, rows, n),
    decreases m,
{
    if n < m {
        lemma_lines_refused(c, hs, rows, n, (m - 1) as nat);
    }
}

fn read_rows(c: &Columns, table: &Table) -> (r: Result<Vec<ParsedLine>>)
    ensures
        match r {
            Ok(v) => table_lines(c@, table@.headers, table@.rows, table@.rows.len()) == Ok::<Seq<ShownLine>, Refusal>(shown_lines(v@)),
            Err(e) => table_lines(c@, table@.headers, table@.rows, table@.rows.len()) == Err::<Seq<ShownLine>, Refusal>(e@),
        },
{
    let ghost hs = table@.headers;
    let ghost rows = table@.rows;
    let mut lines: Vec<ParsedLine> = Vec::new();
    assert(shown_lines(lines@) =~= Seq::<ShownLine>::empty());
    let mut i: usize = 0;
    while i < table.rows.len()
        invariant
            i <= table.rows.len(),
            hs == table@.headers,
            rows == table@.rows,
            table_lines(c@, hs, rows, i as nat) == Ok::<Seq<ShownLine>, Refusal>(shown_lines(lines@)),
        decreases table.rows.len() - i,
    {
        assert(rows[i as int] == texts(table.rows@[i as int]@));
        match line_of(c, &table.headers, &table.rows[i]) {
            Ok(l) => {
                let ghost before = shown_lines(lines@);
                let ghost shown = l@;
                lines.push(l);
                assert(shown_lines(lines@) =~= before.push(shown));
            },
            Err(e) => {
                proof {
                    lemma_lines_refused(c@, hs, rows, (i + 1) as nat, rows.len());
                }
                return Err(e);
            },
        }
        i = i + 1;
    }
    Ok(lines)
}

pub open spec fn currency_for(mapping: Option<ShownMapping>) -> Seq<char> {
    match mapping {
        Some(m) => uppered(trimmed(m.currency)),
        None => Seq::empty(),
    }
}

/// What a table of exchanges holds.
pub open spec fn parse_table_of(t: ShownTable, mapping: Option<ShownMapping>) -> std::result::Result<ShownParse, Refusal> {
    match columns_of(t, currency_for(mapping)) {
        Err(e) => Err(e),
        Ok(c) => match table_lines(c, t.headers, t.rows, t.rows.len()) {
            Err(e) => Err(e),
            Ok(ls) => Ok(
                ShownParse {
                    lines: ls,
                    headers: t.headers,
                    sample_rows: samples_of(t.rows),
                    currency: "BRL"@,
                    detected_source: "remessa_csv"@,
                    ..no_parse()
                },
            ),
        },
    }
}

/// Reads a table of exchanges.
///
/// Columns of the extrato CSV (PJ export): Data de operação, Direção, Tipo de operação,
/// Contraparte, Valor da moeda estrangeira, Valor na moeda em real, Spread, IOF, VET. Older and
/// personal exports are accepted through alternative names; a currency column, or a code inside the
/// foreign amount, or the mapping's currency names the currency.
pub fn parse_rows(table: &Table, mapping: Option<&CsvMapping>) -> (r: Result<ParseOutput>)
    ensures
        match r {
            Ok(p) => parse_table_of(table@, shown_mapping(mapping)) == Ok::<ShownParse, Refusal>(p@),
            Err(e) => parse_table_of(table@, shown_mapping(mapping)) == Err::<ShownParse, Refusal>(e@),
        },
{
    let default_currency = match mapping {
        Some(m) => upper(trim(m.currency.as_str()).as_str()),
        None => String::new(),
    };
    assert(default_currency@ =~= currency_for(shown_mapping(mapping)));
    let c = match find_columns(table, default_currency) {
        Ok(c) => c,
        Err(e) => {
            return Err(e);
        },
    };
    let lines = match read_rows(&c, table) {
        Ok(v) => v,
        Err(e) => {
            return Err(e);
        },
    };
    let mut out = ParseOutput::empty();
    out.headers = copy_texts(&table.headers);
    out.sample_rows = sample_rows(&table.rows);
    out.currency = own("BRL");
    out.detected_source = own("remessa_csv");
    out.lines = lines;
    proof {
        let spec = parse_table_of(table@, shown_mapping(mapping));
        assert(spec is Ok);
        assert(out@ =~= spec->Ok_0);
    }
    Ok(out)
}

pub open spec fn parse_of(content: Seq<u8>, mapping: Option<ShownMapping>) -> std::result::Result<ShownParse, Refusal> {
    match table_in(text_in(content), delimiter_for(Seq::empty(), mapping), header_row_for(mapping)) {
        Err(e) => Err(e),
        Ok(t) => parse_table_of(t, mapping),
    }
}

pub fn parse(content: &[u8], mapping: Option<&CsvMapping>) -> (r: Result<ParseOutput>)
    ensures
        match r {
            Ok(p) => parse_of(content@, shown_mapping(mapping)) == Ok::<ShownParse, Refusal>(p@),
            Err(e) => parse_of(content@, shown_mapping(mapping)) == Err::<ShownParse, Refusal>(e@),
        },
{
    proof {
        reveal_strlit("inter_csv");
    }
    let text = decode(content);
    let mut delimiter: Option<char> = None;
    let mut header_row: Option<usize> = None;
    if let Some(m) = mapping {
        let cs = chars(m.delimiter.as_str());
        if cs.len() > 0 && cs[0] != ' ' {
            delimiter = Some(cs[0]);
        }
        if m.header_row > 0 {
            header_row = Some(m.header_row as usize);
        }
    }
    match parse_table(text.as_str(), delimiter, header_row) {
        Ok(t) => parse_rows(&t, mapping),
        Err(e) => Err(e),
    }
}

/// What is kept of an exchange in its line.
pub open spec fn exchange_at(raw: Seq<(Seq<char>, Seq<char>)>) -> Seq<char> {
    match field_at(raw, "_exchange"@, 0) {
        Some(t) => t,
        None => "null"@,
    }
}

fn exchange_of(raw: &Vec<MetaEntry>) -> (r: String)
    ensures
        r@ == exchange_at(fields(raw@)),
{
    match field(raw, "_exchange") {
        Some(t) => t,
        None => own("null"),
    }
}

/// The statement line of the `i`-th exchange. Rows in another currency than the chosen foreign
/// account wait for their own import.
pub open spec fn exchange_line(l: ShownLine, from: Account, to: Option<Account>, i: int) -> std::result::Result<ShownStatement, Refusal> {
    let foreign = text_under(exchange_at(l.raw), "foreign_currency"@);
    let other = l.skip is None && to is Some && foreign.len() > 0 && foreign != to->0.commodity@;
    match money_in(l.amount, from.commodity@, from.precision) {
        Err(e) => Err(e),
        Ok(amount) => Ok(
            ShownStatement {
                account_id: Some(from.id),
                amount,
                currency: "BRL"@,
                reference: l.reference,
                fingerprint: match (l.date, l.amount) {
                    (Some(d), Some(a)) => print_of(from.id as int, d, a, l.description, i as nat),
                    _ => Seq::empty(),
                },
                status: if l.skip is Some || other {
                    "skipped"@
                } else {
                    "unmatched"@
                },
                note: if other {
                    foreign + " exchange; choose the "@ + foreign + " account"@
                } else {
                    match l.skip {
                        Some(reason) => reason,
                        None => Seq::empty(),
                    }
                },
                ..untyped(l, i)
            },
        ),
    }
}

pub open spec fn exchange_lines_of(ls: Seq<ShownLine>, from: Account, to: Option<Account>, n: nat) -> std::result::Result<Seq<ShownStatement>, Refusal>
    decreases n,
{
    if n == 0 {
        Ok(Seq::empty())
    } else {
        match exchange_lines_of(ls, from, to, (n - 1) as nat) {
            Err(e) => Err(e),
            Ok(before) => match exchange_line(ls[n - 1], from, to, n - 1) {
                Err(e) => Err(e),
                Ok(l) => Ok(before.push(l)),
            },
        }
    }
}

proof fn lemma_exchanges_refused(ls: Seq<ShownLine>, from: Account, to: Option<Account>, n: nat, m: nat)
    requires
        n <= m,
        exchange_lines_of(ls, from, to, n) is Err,
    ensures
        exchange_lines_of(ls, from, to, m) == exchange_lines_of(ls, from, to, n),
    decreases m,
{
    if n < m {
        lemma_exchanges_refused(ls, from, to, n, (m - 1) as nat);
    }
}

pub open spec fn opt_account(a: Option<&Account>) -> Option<Account> {
    match a {
        Some(x) => Some(*x),
        None => None,
    }
}

fn statement_of(l: &ParsedLine, from: &Account, to: Option<&Account>, i: usize) -> (r: Result<StatementLine>)
    requires
        i < 2147483647,
    ensures
        match r {
            Ok(s) => exchange_line(l@, *from, opt_account(to), i as int) == Ok::<ShownStatement, Refusal>(s@),
            Err(e) => exchange_line(l@, *from, opt_account(to), i as int) == Err::<ShownStatement, Refusal>(e@),
        },
{
    let amount = match money_of(l.amount, from.commodity.as_str(), from.precision) {
        Ok(m) => m,
        Err(e) => {
            return Err(e);
        },
    };
    let foreign = text(exchange_of(&l.raw).as_str(), "foreign_currency");
    let mut s = untyped_line(l, i);
    s.account_id = Some(from.id);
    s.amount = amount;
    s.currency = own("BRL");
    s.reference = own(l.reference.as_str());
    if let (Some(d), Some(a)) = (l.date, l.amount) {
        s.fingerprint = fingerprint(from.id, d, a, l.description.as_str(), i);
    }
    if let Some(t) = to {
        if l.skip.is_none() && !foreign.as_str().is_empty() && !same(foreign.as_str(), t.commodity.as_str()) {
            s.status = own("skipped");
            s.note = cat4(foreign.as_str(), " exchange; choose the ", foreign.as_str(), " account");
        }
    }
    proof {
        let spec = exchange_line(l@, *from, opt_account(to), i as int);
        assert(spec is Ok);
        assert(s@ =~= spec->Ok_0);
    }
    Ok(s)
}

/// The statement lines of exchanges that left an account for another.
pub fn exchange_lines(lines: &Vec<ParsedLine>, from: &Account, to: Option<&Account>) -> (r: Result<Vec<StatementLine>>)
    requires
        lines@.len() < 2147483647,
    ensures
        match r {
            Ok(v) => exchange_lines_of(shown_lines(lines@), *from, opt_account(to), lines@.len()) == Ok::<Seq<ShownStatement>, Refusal>(
                shown_statements(v@),
            ),
            Err(e) => exchange_lines_of(shown_lines(lines@), *from, opt_account(to), lines@.len()) == Err::<Seq<ShownStatement>, Refusal>(e@),
        },
{
    let ghost ls = shown_lines(lines@);
    let mut r: Vec<StatementLine> = Vec::new();
    let mut i: usize = 0;
    assert(shown_statements(r@) =~= Seq::<ShownStatement>::empty());
    while i < lines.len()
        invariant
            i <= lines.len(),
            ls == shown_lines(lines@),
            lines@.len() < 2147483647,
            exchange_lines_of(ls, *from, opt_account(to), i as nat) == Ok::<Seq<ShownStatement>, Refusal>(shown_statements(r@)),
        decreases lines.len() - i,
    {
        assert(ls[i as int] == lines@[i as int]@);
        match statement_of(&lines[i], from, to, i) {
            Ok(s) => {
                let ghost before = shown_statements(r@);
                let ghost shown = s@;
                r.push(s);
                assert(shown_statements(r@) =~= before.push(shown));
            },
            Err(e) => {
                proof {
                    lemma_exchanges_refused(ls, *from, opt_account(to), (i + 1) as nat, ls.len());
                }
                return Err(e);
            },
        }
        i = i + 1;
    }
    Ok(r)
}

/// Checks the two sides of an import of exchanges.
pub fn check_sides(from: &Account, to: Option<&Account>) -> (r: Result<()>)
    ensures
        match to {
            None => r matches Err(e) && e.invalid("choose the account that received the foreign currency (to_account_id)"@),
            Some(t) => if t.entity_id != from.entity_id {
                r matches Err(e) && e.invalid(
                    "Remessa imports need both accounts in the same entity; use a transfer between entities otherwise"@,
                )
            } else {
                r is Ok
            },
        },
{
    match to {
        None => Err(invalid("choose the account that received the foreign currency (to_account_id)")),
        Some(t) => if t.entity_id != from.entity_id {
            Err(invalid("Remessa imports need both accounts in the same entity; use a transfer between entities otherwise"))
        } else {
            Ok(())
        },
    }
}

/// The number under a name of what is kept of an exchange, zero where there is none.
pub open spec fn kept_number(exchange: Seq<char>, name: Seq<char>) -> Num {
    match text_at(exchange, name) {
        None => (0, 0),
        Some(s) => if number_text(s).len() == 0 || decimal_in(number_text(s)) is None {
            (0, 0)
        } else {
            decimal_in(number_text(s))->0
        },
    }
}

fn read_kept(exchange: &str, name: &str) -> (r: Decimal)
    ensures
        r@ == kept_number(exchange@, name@),
{
    match crate::json::text_in(exchange, name) {
        None => Decimal::zero(),
        Some(s) => match crate::money::parse(s.as_str()) {
            Ok(d) => d,
            Err(_) => Decimal::zero(),
        },
    }
}

/// The posting on the account that an exchange left, or came to.
pub open spec fn is_bank_leg(p: PostingInput, from: Account, sl: StatementLine, brl: Num, outbound: bool) -> bool {
    &&& (PostingInput { external_id: None, fingerprint: None, ..p }).plain(
        from.id,
        if outbound {
            negated_num(brl)
        } else {
            brl
        },
    )
    &&& opt_text(p.external_id) == (if sl.reference@.len() == 0 {
        None
    } else {
        Some(sl.reference@)
    })
    &&& opt_text(p.fingerprint) == Some(sl.fingerprint@)
}

/// The posting of a charge in BRL.
pub open spec fn is_charge(p: PostingInput, account_id: i64, n: Num, memo: Seq<char>) -> bool {
    &&& p.value_in is Some
    &&& (p.value_in->0).0@ == n
    &&& (p.value_in->0).1@ == "BRL"@
    &&& p.memo@ == memo
    &&& p.account_id == account_id
    &&& p.quantity@ == (0int, 0nat)
    &&& p.amount is None
    &&& p.metadata@.len() == 0
    &&& p.external_id is None
    &&& p.fingerprint is None
    &&& !p.balance
}

/// The posting on the foreign account; an outbound one keeps its principal in BRL.
pub open spec fn is_foreign_leg(p: PostingInput, to: Account, fx: Num, outbound: bool, principal: Num) -> bool {
    if outbound {
        &&& (PostingInput { metadata: p.metadata, ..p }).account_id == to.id
        &&& p.quantity@ == abs_num(fx)
        &&& p.amount is None && p.memo@.len() == 0 && p.external_id is None && p.fingerprint is None && !p.balance && p.value_in is None
        &&& p.metadata@.len() == 1
        &&& p.metadata@[0].key@ == "principal_brl"@
        &&& value_text(p.metadata@[0].value) == json_text(decimal_text(normal(principal)))
    } else {
        p.plain(to.id, negated_num(abs_num(fx)))
    }
}

/// The numbers of an exchange's entry.
pub struct Legs {
    pub brl: Num,
    pub fx: Num,
    pub iof: Num,
    pub fee: Num,
    pub outbound: bool,
}

pub open spec fn legs_of(sl: StatementLine) -> Legs {
    let ex = exchange_at(fields(sl.raw@));
    Legs {
        brl: match sl.amount {
            Some(a) => abs_num(normal((a@.minor, a@.precision))),
            None => (0, 0),
        },
        fx: kept_number(ex, "foreign_quantity"@),
        iof: kept_number(ex, "iof"@),
        fee: kept_number(ex, "fee"@),
        outbound: inner(ex, "outbound"@) != "false"@,
    }
}

/// What is exchanged of the total: the rest after IOF and the fee.
pub open spec fn principal_of(l: Legs) -> Option<Num> {
    minus(subtracted(l.brl, l.iof), l.fee)
}

/// Why a line does not become an entry.
pub open spec fn entry_refusal(sl: StatementLine) -> Option<Seq<char>> {
    if sl.date is None {
        Some("line has no date"@)
    } else if legs_of(sl).outbound && principal_of(legs_of(sl)) is None {
        Some("exchange total is out of range"@)
    } else {
        None
    }
}

/// Whether postings are those of an exchange. Money leaves the BRL account: the total charged is the
/// BRL amount; IOF and fee are part of it.
pub open spec fn are_legs(v: Seq<PostingInput>, sl: StatementLine, from: Account, to: Account, iof_account: i64, fee_account: i64) -> bool {
    let l = legs_of(sl);
    let with_iof: int = if l.iof.0 != 0 {
        1
    } else {
        0
    };
    let with_fee: int = if l.fee.0 != 0 {
        1
    } else {
        0
    };
    &&& v.len() == 2 + with_iof + with_fee
    &&& is_bank_leg(v[0], from, sl, l.brl, l.outbound)
    &&& l.iof.0 != 0 ==> is_charge(v[1], iof_account, l.iof, "IOF"@)
    &&& l.fee.0 != 0 ==> is_charge(v[1 + with_iof], fee_account, l.fee, "fee"@)
    &&& is_foreign_leg(v[1 + with_iof + with_fee], to, l.fx, l.outbound, principal_of(l)->0)
}

fn charge_leg(account_id: i64, n: Decimal, memo: &str) -> (r: PostingInput)
    ensures
        is_charge(r, account_id, n@, memo@),
{
    PostingInput::valued(account_id, n, "BRL").memo(memo)
}

/// The draft entry of an exchange.
pub fn exchange_entry(sl: &StatementLine, from: &Account, to: &Account, iof_account: i64, fee_account: i64) -> (r: Result<EntryInput>)
    ensures
        match r {
            Ok(x) => {
                &&& entry_refusal(*sl) is None
                &&& x.entity_id == from.entity_id && x.date == sl.date->0
                &&& x.payee@ == "Remessa Online"@ && x.description@ == sl.description@ && x.notes@.len() == 0
                &&& x.status == EntryStatus::Draft && x.origin@ == "import"@ && x.absorb_fx
                &&& x.template_id is None && x.template_version is None && x.counterpart_id is None && x.reverses_id is None
                &&& are_legs(x.postings@, *sl, *from, *to, iof_account, fee_account)
            },
            Err(e) => entry_refusal(*sl) is Some && e.invalid(entry_refusal(*sl)->0),
        },
{
    let ex = exchange_of(&sl.raw);
    let outbound = !same(inside(ex.as_str(), "outbound").as_str(), "false");
    let fx = read_kept(ex.as_str(), "foreign_quantity");
    let iof = read_kept(ex.as_str(), "iof");
    let fee = read_kept(ex.as_str(), "fee");
    let brl = match sl.amount {
        Some(a) => a.major().abs(),
        None => Decimal::zero(),
    };
    let date = match sl.date {
        Some(d) => d,
        None => {
            return Err(invalid("line has no date"));
        },
    };
    let mut input = EntryInput::new(from.entity_id, date);
    input.payee = own("Remessa Online");
    input.description = own(sl.description.as_str());
    input.status = EntryStatus::Draft;
    input.origin = own("import");
    input.absorb_fx = true;
    let reference: Option<String> = if sl.reference.as_str().is_empty() {
        None
    } else {
        Some(own(sl.reference.as_str()))
    };
    let bank = PostingInput::new(
        from.id,
        if outbound {
            brl.negated()
        } else {
            brl
        },
    ).external(reference, Some(own(sl.fingerprint.as_str())));
    input.postings.push(bank);
    if !iof.is_zero() {
        input.postings.push(charge_leg(iof_account, iof, "IOF"));
    }
    if !fee.is_zero() {
        input.postings.push(charge_leg(fee_account, fee, "fee"));
    }
    if outbound {
        let rest = match brl.checked_sub(iof) {
            Some(v) => v.checked_sub(fee),
            None => None,
        };
        let principal = match rest {
            Some(v) => v,
            None => {
                return Err(invalid("exchange total is out of range"));
            },
        };
        let leg = PostingInput::new(to.id, fx.abs());
        assert(crate::model::meta_without(leg.metadata@, "principal_brl"@) =~= Seq::<MetaEntry>::empty());
        let value = MetaValue::Text(plain(principal));
        let kept = leg.meta("principal_brl", value);
        assert(kept.metadata@.drop_last().len() == 0);
        input.postings.push(kept);
    } else {
        input.postings.push(PostingInput::new(to.id, fx.abs().negated()));
    }
    Ok(input)
}

/// What is exchanged of an outbound total makes it up again with the IOF and the fee.
pub proof fn law_principal_adds_up(l: Legs)
    requires
        tame(l.brl, 1000000000000000000real),
        tame(l.iof, 1000000000000000000real),
        tame(l.fee, 1000000000000000000real),
    ensures
        principal_of(l) matches Some(p) && value(p) + value(l.iof) + value(l.fee) == value(l.brl),
{
    law_sums_exact(l.brl, l.iof);
    law_sums_exact(subtracted(l.brl, l.iof)->0, l.fee);
}

/// The size of a number.
pub open spec fn size(x: real) -> real {
    distance(x, 0real)
}

/// The total of an exchange is what the file says, or that with the charges: added to what is sent, taken from
/// what arrives. It is the latter exactly where that is nearer to the all-in rate times the foreign amount,
/// and no further from it than a hundredth or one unit.
pub proof fn law_total_is_nearer(brl: Num, iof: Num, fee: Num, vet: Num, fx: Num, outbound: bool)
    requires
        tame(brl, 1000000000000000000real),
        tame(iof, 1000000000000000000real),
        tame(fee, 1000000000000000000real),
        size(value(vet) * value(fx)) <= 1000000000000000000real,
        vet.0 != 0,
    ensures
        settled(brl, iof, fee, Some(vet), fx, outbound) matches Some(t) ==> exists|e: Num| #[trigger]
            within(value(vet) * value(fx), e, 2) && {
                let charged = if outbound {
                    value(brl) + value(iof) + value(fee)
                } else {
                    value(brl) - value(iof) - value(fee)
                };
                let allowed = if size(value(e)) < 100real {
                    1real
                } else {
                    size(value(e)) / 100real
                };
                let nearer = size(charged - value(e)) < size(value(brl) - value(e)) && size(charged - value(e)) <= allowed;
                value(t) == (if nearer {
                    charged
                } else {
                    value(brl)
                })
            },
{
    if let Some(t) = settled(brl, iof, fee, Some(vet), fx, outbound) {
        let p = multiplied(vet, fx)->0;
        law_arithmetic_near(vet, fx);
        lemma_near_rounded(value(vet) * value(fx), p, 2);
        let e = rounded(p, 2);
        law_sums_exact(brl, iof);
        let first = if outbound {
            added(brl, iof)->0
        } else {
            subtracted(brl, iof)->0
        };
        law_sums_exact(first, fee);
        let adj = if outbound {
            added(first, fee)->0
        } else {
            subtracted(first, fee)->0
        };
        lemma_pow10_positive(2);
        assert(pow10(2) == 100) by {
            reveal_with_fuel(pow10, 4);
        }
        let x = value(vet) * value(fx);
        assert(distance(value(e), x) * 100real <= 1real + size(x) / 1000000000000000real);
        assert(size(x) / 1000000000000000real <= 1000real) by (nonlinear_arith)
            requires
                size(x) <= 1000000000000000000real,
        ;
        assert(tame(e, 100000000000000000000real));
        law_sums_exact(brl, e);
        law_sums_exact(adj, e);
        let (far, near_by) = (subtracted(brl, e)->0, subtracted(adj, e)->0);
        lemma_abs_value(far);
        lemma_abs_value(near_by);
        lemma_abs_value(e);
        lemma_small_mantissa(e);
        law_arithmetic_exact(abs_num(e), (1, 2));
        let hundredth = multiplied(abs_num(e), (1, 2))->0;
        lemma_hundredth(abs_num(e), hundredth);
        lemma_value_whole(1);
        lemma_same_value(hundredth, (1, 0));
        let tolerance = if less(hundredth, (1, 0)) {
            (1int, 0nat)
        } else {
            hundredth
        };
        lemma_same_value(abs_num(near_by), abs_num(far));
        lemma_same_value(tolerance, abs_num(near_by));
        assert(within(value(vet) * value(fx), e, 2));
    }
}

proof fn lemma_abs_value(n: Num)
    ensures
        value(abs_num(n)) == size(value(n)),
{
    lemma_pow10_positive(n.1);
    let (m, p) = (n.0 as real, pow10(n.1) as real);
    assert((-m) / p == -(m / p) && (m >= 0real ==> m / p >= 0real) && (m < 0real ==> m / p < 0real)) by (nonlinear_arith)
        requires
            p >= 1real,
    ;
}

proof fn lemma_small_mantissa(e: Num)
    requires
        tame(e, 100000000000000000000real),
        e.1 <= 2,
    ensures
        fits(exact_product(abs_num(e), (1, 2))),
{
    lemma_pow10_positive(e.1);
    assert(pow10(e.1) <= 100) by {
        reveal_with_fuel(pow10, 4);
    }
    let (m, p) = (e.0 as real, pow10(e.1) as real);
    let v = m / p;
    assert(v * p == m) by (nonlinear_arith)
        requires
            p >= 1real,
            v == m / p,
    ;
    assert(-10000000000000000000000real <= m <= 10000000000000000000000real) by (nonlinear_arith)
        requires
            v * p == m,
            -100000000000000000000real <= v <= 100000000000000000000real,
            1real <= p <= 100real,
    ;
}

proof fn lemma_hundredth(a: Num, h: Num)
    requires
        value(h) == value(a) * value((1, 2)),
    ensures
        value(h) == value(a) / 100real,
{
    assert(pow10(2) == 100) by {
        reveal_with_fuel(pow10, 4);
    }
    let x = value(a);
    assert(x * (1real / 100real) == x / 100real) by (nonlinear_arith);
}

/// A row of an exchange that is sent is below zero on the BRL account, one that arrives above, by its total.
pub proof fn law_exchange_direction(c: ShownColumns, hs: Seq<Seq<char>>, row: Seq<Seq<char>>)
    ensures
        row_line(c, hs, row) matches Ok(l) ==> (total_of(exchange_in(c, row)) matches Ok(total) && match total {
            Some(t) => l.amount == Some((if exchange_in(c, row).outbound { -t.0 } else { t.0 }, t.1)),
            None => l.amount is None,
        }),
{
    reveal(row_line);
}

} // verus!
