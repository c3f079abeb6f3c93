//! Known bank export formats, expressed as column mappings over the generic CSV engine.
//!
//! Each preset recognises a header signature and fills a `CsvMapping`; a few add per-row
//! behaviour (Revolut fees and states, Mercury statuses, N26 original amounts, Wise directions
//! and conversions, Inter balance rows).

use vstd::prelude::*;

use crate::date::Date;
use crate::decimal::{decimal_text, normal, view_of, Decimal, Num};
use crate::imports::csvkit::{column_name, column_of, date_read, exact_col, find_col, holding_among, holding_from, named_among, named_from, parse_date, Table};
use crate::imports::{copy_text, no_mapping, object_string, object_text, opt_text, put_field, shown_lines, CsvMapping, ParsedLine, ShownLine, ShownMapping};
use crate::model::{MetaEntry, MetaValue};
use crate::money::{localized, negated_num, parse_localized, plain};
use crate::text::{blank, cat, cat3, cat4, cat5, contains, holds, is_blank, lemma_lowered_again, lower, lowercase_of, lowered, own, same, starts, starts_with, str_texts, texts, to_lowercase, to_uppercase, trim, trimmed, upper, uppercase_of, uppered};

verus! {

#[derive(Debug)]
pub struct Preset {
    pub source: &'static str,
    pub label: &'static str,
}

/// The formats that can be chosen, in the order in which they are offered.
pub fn presets() -> (r: Vec<Preset>)
    ensures
        r@.map_values(|p: Preset| (p.source@, p.label@)) == seq![
            ("n26_csv"@, "N26 (CSV)"@),
            ("revolut_csv"@, "Revolut (CSV statement)"@),
            ("wise_csv"@, "Wise (CSV balance statement)"@),
            ("wise_history_csv"@, "Wise (CSV transaction history)"@),
            ("mercury_csv"@, "Mercury (CSV)"@),
            ("inter_csv"@, "Banco Inter (CSV extrato)"@),
            ("inter_ofx"@, "Banco Inter (OFX)"@),
            ("remessa_csv"@, "Remessa Online (CSV)"@),
            ("generic_csv"@, "Any CSV (map the columns)"@),
            ("account_tracker"@, "Account Tracker backup (.atb)"@),
        ],
{
    let mut r: Vec<Preset> = Vec::new();
    r.push(Preset { source: "n26_csv", label: "N26 (CSV)" });
    r.push(Preset { source: "revolut_csv", label: "Revolut (CSV statement)" });
    r.push(Preset { source: "wise_csv", label: "Wise (CSV balance statement)" });
    r.push(Preset { source: "wise_history_csv", label: "Wise (CSV transaction history)" });
    r.push(Preset { source: "mercury_csv", label: "Mercury (CSV)" });
    r.push(Preset { source: "inter_csv", label: "Banco Inter (CSV extrato)" });
    r.push(Preset { source: "inter_ofx", label: "Banco Inter (OFX)" });
    r.push(Preset { source: "remessa_csv", label: "Remessa Online (CSV)" });
    r.push(Preset { source: "generic_csv", label: "Any CSV (map the columns)" });
    r.push(Preset { source: "account_tracker", label: "Account Tracker backup (.atb)" });
    r
}

/// Whether every name is that of a column (case-insensitive).
pub open spec fn all_named(hs: Seq<Seq<char>>, names: Seq<Seq<char>>) -> bool {
    forall|i: int| 0 <= i < names.len() ==> named_from(hs, column_name(#[trigger] names[i]), 0) is Some
}

/// Whether a name is that of a column, or a part of it.
pub open spec fn found(hs: Seq<Seq<char>>, name: Seq<char>) -> bool {
    column_of(hs, seq![name]) is Some
}

fn exact(headers: &[String], names: &[&str]) -> (r: bool)
    ensures
        r == all_named(texts(headers@), str_texts(names@)),
{
    let ghost hs = texts(headers@);
    let ghost ns = str_texts(names@);
    let mut i: usize = 0;
    while i < names.len()
        invariant
            i <= names.len(),
            hs == texts(headers@),
            ns == str_texts(names@),
            forall|k: int| 0 <= k < i ==> named_from(hs, column_name(#[trigger] ns[k]), 0) is Some,
        decreases names.len() - i,
    {
        assert(ns[i as int] == names@[i as int]@);
        if exact_col(headers, names[i]).is_none() {
            return false;
        }
        i = i + 1;
    }
    true
}

fn is_found(headers: &[String], name: &str) -> (r: bool)
    ensures
        r == found(texts(headers@), name@),
{
    let names: [&str; 1] = [name];
    assert(str_texts(names@) =~= seq![name@]);
    find_col(headers, &names).is_some()
}

/// The format of a file with these columns.
pub open spec fn detected(hs: Seq<Seq<char>>) -> Option<Seq<char>> {
    if all_named(hs, seq!["Booking Date"@, "Amount (EUR)"@]) || all_named(hs, seq!["Date"@, "Payee"@, "Amount (EUR)"@]) {
        Some("n26_csv"@)
    } else if all_named(hs, seq!["Started Date"@, "Completed Date"@, "Amount"@, "State"@]) {
        Some("revolut_csv"@)
    } else if all_named(hs, seq!["Direction"@, "Source amount (after fees)"@, "Target amount (after fees)"@]) {
        Some("wise_history_csv"@)
    } else if all_named(hs, seq!["TransferWise ID"@, "Date"@, "Amount"@]) || all_named(
        hs,
        seq!["Date"@, "Amount"@, "Currency"@, "Running Balance"@],
    ) {
        Some("wise_csv"@)
    } else if all_named(hs, seq!["Bank Description"@, "Amount"@]) || all_named(hs, seq!["Date (UTC)"@, "Description"@, "Amount"@]) {
        Some("mercury_csv"@)
    } else if all_named(hs, seq!["IOF"@]) && (found(hs, "Data"@) || found(hs, "Date"@)) {
        Some("remessa_csv"@)
    } else if (found(hs, "Data Lançamento"@) || found(hs, "Data Lancamento"@) || all_named(hs, seq!["Data"@, "Histórico"@])) && found(
        hs,
        "Valor"@,
    ) {
        Some("inter_csv"@)
    } else {
        None
    }
}

fn exact2(headers: &[String], a: &str, b: &str) -> (r: bool)
    ensures
        r == all_named(texts(headers@), seq![a@, b@]),
{
    let names: [&str; 2] = [a, b];
    assert(str_texts(names@) =~= seq![a@, b@]);
    exact(headers, &names)
}

fn exact3(headers: &[String], a: &str, b: &str, c: &str) -> (r: bool)
    ensures
        r == all_named(texts(headers@), seq![a@, b@, c@]),
{
    let names: [&str; 3] = [a, b, c];
    assert(str_texts(names@) =~= seq![a@, b@, c@]);
    exact(headers, &names)
}

fn exact4(headers: &[String], a: &str, b: &str, c: &str, d: &str) -> (r: bool)
    ensures
        r == all_named(texts(headers@), seq![a@, b@, c@, d@]),
{
    let names: [&str; 4] = [a, b, c, d];
    assert(str_texts(names@) =~= seq![a@, b@, c@, d@]);
    exact(headers, &names)
}

fn exact1(headers: &[String], a: &str) -> (r: bool)
    ensures
        r == all_named(texts(headers@), seq![a@]),
{
    let names: [&str; 1] = [a];
    assert(str_texts(names@) =~= seq![a@]);
    exact(headers, &names)
}

/// Recognises a bank format from the header row.
pub fn detect(headers: &[String]) -> (r: Option<&'static str>)
    ensures
        match r {
            Some(s) => detected(texts(headers@)) == Some(s@),
            None => detected(texts(headers@)) is None,
        },
{
    if exact2(headers, "Booking Date", "Amount (EUR)") || exact3(headers, "Date", "Payee", "Amount (EUR)") {
        return Some("n26_csv");
    }
    if exact4(headers, "Started Date", "Completed Date", "Amount", "State") {
        return Some("revolut_csv");
    }
    if exact3(headers, "Direction", "Source amount (after fees)", "Target amount (after fees)") {
        return Some("wise_history_csv");
    }
    if exact3(headers, "TransferWise ID", "Date", "Amount") || exact4(headers, "Date", "Amount", "Currency", "Running Balance") {
        return Some("wise_csv");
    }
    if exact2(headers, "Bank Description", "Amount") || exact3(headers, "Date (UTC)", "Description", "Amount") {
        return Some("mercury_csv");
    }
    if exact1(headers, "IOF") && (is_found(headers, "Data") || is_found(headers, "Date")) {
        return Some("remessa_csv");
    }
    if (is_found(headers, "Data Lançamento") || is_found(headers, "Data Lancamento") || exact2(headers, "Data", "Histórico")) && is_found(
        headers,
        "Valor",
    ) {
        return Some("inter_csv");
    }
    None
}

/// The concrete layout behind a source: N26 and Wise changed their columns over time, and a user
/// who picked "Wise" may upload either of its two exports.
#[derive(Debug, Clone, Copy, PartialEq, Eq, Structural)]
pub enum Layout {
    N26New,
    N26Old,
    Revolut,
    WiseHistory,
    WiseStatement,
    Mercury,
    Inter,
    Other,
}

pub open spec fn layout_of(source: Seq<char>, hs: Seq<Seq<char>>) -> Layout {
    if source == "n26_csv"@ {
        if all_named(hs, seq!["Booking Date"@]) {
            Layout::N26New
        } else {
            Layout::N26Old
        }
    } else if source == "revolut_csv"@ {
        Layout::Revolut
    } else if source == "wise_csv"@ || source == "wise_history_csv"@ {
        if all_named(hs, seq!["Source amount (after fees)"@]) {
            Layout::WiseHistory
        } else {
            Layout::WiseStatement
        }
    } else if source == "mercury_csv"@ {
        Layout::Mercury
    } else if source == "inter_csv"@ {
        Layout::Inter
    } else {
        Layout::Other
    }
}

fn variant(source: &str, headers: &[String]) -> (r: Layout)
    ensures
        r == layout_of(source@, texts(headers@)),
{
    if same(source, "n26_csv") {
        if exact1(headers, "Booking Date") {
            Layout::N26New
        } else {
            Layout::N26Old
        }
    } else if same(source, "revolut_csv") {
        Layout::Revolut
    } else if same(source, "wise_csv") || same(source, "wise_history_csv") {
        if exact1(headers, "Source amount (after fees)") {
            Layout::WiseHistory
        } else {
            Layout::WiseStatement
        }
    } else if same(source, "mercury_csv") {
        Layout::Mercury
    } else if same(source, "inter_csv") {
        Layout::Inter
    } else {
        Layout::Other
    }
}

/// The header at a place, or nothing.
pub open spec fn header_at(hs: Seq<Seq<char>>, p: Option<int>) -> Seq<char> {
    match p {
        Some(i) => hs[i],
        None => Seq::empty(),
    }
}

/// The column with exactly one of some names.
pub open spec fn by_name(hs: Seq<Seq<char>>, names: Seq<Seq<char>>) -> Seq<char> {
    header_at(hs, named_among(hs, names, 0))
}

/// The column with one of some names, or with a part of one.
pub open spec fn by_part(hs: Seq<Seq<char>>, names: Seq<Seq<char>>) -> Seq<char> {
    header_at(hs, column_of(hs, names))
}

/// The columns with the first `n` of some names, but for one.
pub open spec fn extras_of(hs: Seq<Seq<char>>, names: Seq<Seq<char>>, not: Seq<char>, n: nat) -> Seq<Seq<char>>
    decreases n,
{
    if n == 0 {
        Seq::empty()
    } else {
        let before = extras_of(hs, names, not, (n - 1) as nat);
        match named_from(hs, column_name(names[n - 1]), 0) {
            Some(i) => if hs[i] != not {
                before.push(hs[i])
            } else {
                before
            },
            None => before,
        }
    }
}

/// One further column, where there is one with the name.
pub open spec fn extra_of(hs: Seq<Seq<char>>, name: Seq<char>) -> Seq<Seq<char>> {
    extras_of(hs, seq![name], Seq::empty(), 1)
}

/// The column mapping of a layout, given its headers.
pub open spec fn mapping_of(layout: Layout, hs: Seq<Seq<char>>) -> Option<ShownMapping> {
    match layout {
        Layout::N26New => Some(
            ShownMapping {
                date_column: by_name(hs, seq!["Booking Date"@]),
                date_format: "%Y-%m-%d"@,
                amount_column: by_name(hs, seq!["Amount (EUR)"@]),
                description_column: by_name(hs, seq!["Partner Name"@]),
                extra_description_columns: extra_of(hs, "Payment Reference"@),
                currency: "EUR"@,
                decimal_separator: "."@,
                ..no_mapping()
            },
        ),
        Layout::N26Old => Some(
            ShownMapping {
                date_column: by_name(hs, seq!["Date"@]),
                date_format: "%Y-%m-%d"@,
                amount_column: by_name(hs, seq!["Amount (EUR)"@]),
                description_column: by_name(hs, seq!["Payee"@]),
                extra_description_columns: extra_of(hs, "Payment reference"@),
                currency: "EUR"@,
                decimal_separator: "."@,
                ..no_mapping()
            },
        ),
        Layout::Revolut => Some(
            ShownMapping {
                date_column: by_name(hs, seq!["Completed Date"@]),
                date_format: "%Y-%m-%d %H:%M:%S"@,
                amount_column: by_name(hs, seq!["Amount"@]),
                description_column: by_name(hs, seq!["Description"@]),
                balance_column: by_name(hs, seq!["Balance"@]),
                currency_column: by_name(hs, seq!["Currency"@]),
                decimal_separator: "."@,
                ..no_mapping()
            },
        ),
        Layout::WiseStatement => Some(
            ShownMapping {
                date_column: by_name(hs, seq!["Date"@]),
                date_format: "%d-%m-%Y"@,
                amount_column: by_name(hs, seq!["Amount"@]),
                description_column: by_name(hs, seq!["Description"@]),
                extra_description_columns: extra_of(hs, "Payment Reference"@),
                reference_column: by_name(hs, seq!["TransferWise ID"@]),
                balance_column: by_name(hs, seq!["Running Balance"@]),
                currency_column: by_name(hs, seq!["Currency"@]),
                decimal_separator: "."@,
                ..no_mapping()
            },
        ),
        Layout::WiseHistory => Some(
            ShownMapping {
                date_column: by_name(hs, seq!["Finished on"@]),
                date_format: "%Y-%m-%d %H:%M:%S"@,
                amount_column: by_name(hs, seq!["Source amount (after fees)"@]),
                description_column: by_name(hs, seq!["Target name"@]),
                extra_description_columns: extra_of(hs, "Reference"@),
                reference_column: by_name(hs, seq!["ID"@]),
                currency_column: by_name(hs, seq!["Source currency"@]),
                decimal_separator: "."@,
                ..no_mapping()
            },
        ),
        Layout::Mercury => Some(
            ShownMapping {
                date_column: by_name(hs, seq!["Date (UTC)"@, "Date"@]),
                date_format: "%m-%d-%Y"@,
                amount_column: by_name(hs, seq!["Amount"@]),
                description_column: by_name(hs, seq!["Description"@]),
                extra_description_columns: extra_of(hs, "Bank Description"@),
                reference_column: by_name(hs, seq!["Transaction ID"@, "ID"@]),
                currency: "USD"@,
                decimal_separator: "."@,
                ..no_mapping()
            },
        ),
        Layout::Inter => {
            let description = by_part(hs, seq!["Histórico"@, "Historico"@, "Descrição"@, "Descricao"@]);
            Some(
                ShownMapping {
                    delimiter: ";"@,
                    date_column: by_part(hs, seq!["Data Lançamento"@, "Data Lancamento"@, "Data"@]),
                    date_format: "%d/%m/%Y"@,
                    amount_column: by_part(hs, seq!["Valor"@]),
                    description_column: description,
                    extra_description_columns: extras_of(hs, seq!["Descrição"@, "Descricao"@], description, 2),
                    balance_column: by_part(hs, seq!["Saldo"@]),
                    currency: "BRL"@,
                    decimal_separator: ","@,
                    ..no_mapping()
                },
            )
        },
        Layout::Other => None,
    }
}

fn name_at(headers: &[String], p: Option<usize>) -> (r: String)
    requires
        p is Some ==> p->0 < headers@.len(),
    ensures
        r@ == header_at(texts(headers@), crate::imports::csvkit::place_as_int(p)),
{
    match p {
        Some(i) => own(headers[i].as_str()),
        None => String::new(),
    }
}

/// Finds the column with the first of two names.
fn first_exact(headers: &[String], a: &str, b: &str) -> (r: Option<usize>)
    ensures
        crate::imports::csvkit::place_as_int(r) == named_among(texts(headers@), seq![a@, b@], 0),
        r is Some ==> r->0 < headers@.len(),
{
    let ghost hs = texts(headers@);
    let ghost ns = seq![a@, b@];
    proof {
        reveal_with_fuel(named_among, 3);
    }
    match exact_col(headers, a) {
        Some(i) => Some(i),
        None => exact_col(headers, b),
    }
}

fn only_exact(headers: &[String], a: &str) -> (r: Option<usize>)
    ensures
        crate::imports::csvkit::place_as_int(r) == named_among(texts(headers@), seq![a@], 0),
        r is Some ==> r->0 < headers@.len(),
{
    proof {
        reveal_with_fuel(named_among, 2);
    }
    exact_col(headers, a)
}

fn pick(headers: &[String], a: &str) -> (r: String)
    ensures
        r@ == by_name(texts(headers@), seq![a@]),
{
    name_at(headers, only_exact(headers, a))
}

fn pick_either(headers: &[String], a: &str, b: &str) -> (r: String)
    ensures
        r@ == by_name(texts(headers@), seq![a@, b@]),
{
    name_at(headers, first_exact(headers, a, b))
}

fn pick_extras(headers: &[String], names: &[&str], not: &str) -> (r: Vec<String>)
    ensures
        texts(r@) == extras_of(texts(headers@), str_texts(names@), not@, names@.len()),
{
    let ghost hs = texts(headers@);
    let ghost ns = str_texts(names@);
    let mut r: Vec<String> = Vec::new();
    let mut i: usize = 0;
    assert(texts(r@) =~= Seq::<Seq<char>>::empty());
    while i < names.len()
        invariant
            i <= names.len(),
            hs == texts(headers@),
            ns == str_texts(names@),
            texts(r@) == extras_of(hs, ns, not@, i as nat),
        decreases names.len() - i,
    {
        assert(ns[i as int] == names@[i as int]@);
        if let Some(p) = exact_col(headers, names[i]) {
            if !same(headers[p].as_str(), not) {
                let ghost before = texts(r@);
                let name = own(headers[p].as_str());
                r.push(name);
                assert(texts(r@) =~= before.push(name@));
            }
        }
        i = i + 1;
    }
    r
}

fn pick_extra(headers: &[String], name: &str) -> (r: Vec<String>)
    ensures
        texts(r@) == extra_of(texts(headers@), name@),
{
    let names: [&str; 1] = [name];
    assert(str_texts(names@) =~= seq![name@]);
    proof {
        reveal_strlit("");
        assert(""@ =~= Seq::<char>::empty());
    }
    pick_extras(headers, &names, "")
}

fn inter_mapping(headers: &[String]) -> (r: CsvMapping)
    ensures
        mapping_of(Layout::Inter, texts(headers@)) == Some(r@),
{
    let ghost hs = texts(headers@);
    let mut m = CsvMapping::empty();
    let descriptions: [&str; 4] = ["Histórico", "Historico", "Descrição", "Descricao"];
    assert(str_texts(descriptions@) =~= seq!["Histórico"@, "Historico"@, "Descrição"@, "Descricao"@]);
    let dates: [&str; 3] = ["Data Lançamento", "Data Lancamento", "Data"];
    assert(str_texts(dates@) =~= seq!["Data Lançamento"@, "Data Lancamento"@, "Data"@]);
    let amounts: [&str; 1] = ["Valor"];
    assert(str_texts(amounts@) =~= seq!["Valor"@]);
    let balances: [&str; 1] = ["Saldo"];
    assert(str_texts(balances@) =~= seq!["Saldo"@]);
    let further: [&str; 2] = ["Descrição", "Descricao"];
    assert(str_texts(further@) =~= seq!["Descrição"@, "Descricao"@]);
    let description = name_at(headers, find_col(headers, &descriptions));
    m.delimiter = own(";");
    m.date_column = name_at(headers, find_col(headers, &dates));
    m.date_format = own("%d/%m/%Y");
    m.amount_column = name_at(headers, find_col(headers, &amounts));
    m.extra_description_columns = pick_extras(headers, &further, description.as_str());
    m.description_column = description;
    m.balance_column = name_at(headers, find_col(headers, &balances));
    m.currency = own("BRL");
    m.decimal_separator = own(",");
    m
}

/// The column mapping for a known source, given its headers.
pub fn mapping_for(source: &str, headers: &[String]) -> (r: Option<CsvMapping>)
    ensures
        match r {
            Some(m) => mapping_of(layout_of(source@, texts(headers@)), texts(headers@)) == Some(m@),
            None => mapping_of(layout_of(source@, texts(headers@)), texts(headers@)) is None,
        },
{
    let mut m = CsvMapping::empty();
    match variant(source, headers) {
        Layout::N26New => {
            m.date_column = pick(headers, "Booking Date");
            m.date_format = own("%Y-%m-%d");
            m.amount_column = pick(headers, "Amount (EUR)");
            m.description_column = pick(headers, "Partner Name");
            m.extra_description_columns = pick_extra(headers, "Payment Reference");
            m.currency = own("EUR");
            m.decimal_separator = own(".");
        },
        Layout::N26Old => {
            m.date_column = pick(headers, "Date");
            m.date_format = own("%Y-%m-%d");
            m.amount_column = pick(headers, "Amount (EUR)");
            m.description_column = pick(headers, "Payee");
            m.extra_description_columns = pick_extra(headers, "Payment reference");
            m.currency = own("EUR");
            m.decimal_separator = own(".");
        },
        Layout::Revolut => {
            m.date_column = pick(headers, "Completed Date");
            m.date_format = own("%Y-%m-%d %H:%M:%S");
            m.amount_column = pick(headers, "Amount");
            m.description_column = pick(headers, "Description");
            m.balance_column = pick(headers, "Balance");
            m.currency_column = pick(headers, "Currency");
            m.decimal_separator = own(".");
        },
        Layout::WiseStatement => {
            m.date_column = pick(headers, "Date");
            m.date_format = own("%d-%m-%Y");
            m.amount_column = pick(headers, "Amount");
            m.description_column = pick(headers, "Description");
            m.extra_description_columns = pick_extra(headers, "Payment Reference");
            m.reference_column = pick(headers, "TransferWise ID");
            m.balance_column = pick(headers, "Running Balance");
            m.currency_column = pick(headers, "Currency");
            m.decimal_separator = own(".");
        },
        // The amount, currency and description depend on Direction; `post_process` sets them.
        Layout::WiseHistory => {
            m.date_column = pick(headers, "Finished on");
            m.date_format = own("%Y-%m-%d %H:%M:%S");
            m.amount_column = pick(headers, "Source amount (after fees)");
            m.description_column = pick(headers, "Target name");
            m.extra_description_columns = pick_extra(headers, "Reference");
            m.reference_column = pick(headers, "ID");
            m.currency_column = pick(headers, "Source currency");
            m.decimal_separator = own(".");
        },
        Layout::Mercury => {
            m.date_column = pick_either(headers, "Date (UTC)", "Date");
            m.date_format = own("%m-%d-%Y");
            m.amount_column = pick(headers, "Amount");
            m.description_column = pick(headers, "Description");
            m.extra_description_columns = pick_extra(headers, "Bank Description");
            m.reference_column = pick_either(headers, "Transaction ID", "ID");
            m.currency = own("USD");
            m.decimal_separator = own(".");
        },
        Layout::Inter => {
            return Some(inter_mapping(headers));
        },
        Layout::Other => {
            return None;
        },
    }
    Some(m)
}

/// The cell under the first of some names that is a column.
pub open spec fn cell_of(hs: Seq<Seq<char>>, row: Seq<Seq<char>>, names: Seq<Seq<char>>) -> Seq<char> {
    match named_among(hs, names, 0) {
        Some(i) => if i < row.len() {
            trimmed(row[i])
        } else {
            Seq::empty()
        },
        None => Seq::empty(),
    }
}

/// The number in a cell, with a decimal point.
pub open spec fn num_of(s: Seq<char>) -> Option<Num> {
    if blank(s) {
        None
    } else {
        localized(s, '.')
    }
}

pub open spec fn abs_num(n: Num) -> Num {
    (
        if n.0 < 0 {
            -n.0
        } else {
            n.0
        },
        n.1,
    )
}

pub open spec fn abs_of(n: Option<Num>) -> Option<Num> {
    match n {
        Some(v) => Some(abs_num(v)),
        None => None,
    }
}

pub open spec fn negated_of(n: Option<Num>) -> Option<Num> {
    match n {
        Some(v) => Some(negated_num(v)),
        None => None,
    }
}

/// A foreign amount with the sign of the booked amount.
pub open spec fn with_sign_of(value: Num, like: Num) -> Num {
    if like.0 < 0 {
        negated_num(abs_num(value))
    } else {
        abs_num(value)
    }
}

/// A separate line for a fee the bank charged on top of the amount.
pub open spec fn fee_of(of: ShownLine, fee: Num, currency: Seq<char>) -> ShownLine {
    ShownLine {
        date: of.date,
        amount: Some(negated_num(abs_num(fee))),
        currency,
        description: "Fee: "@ + of.description,
        reference: Seq::empty(),
        balance_after: None,
        raw: seq![("fee_of"@, object_text(of.raw))],
        skip: of.skip,
        original: None,
    }
}

/// The line with the amount in another currency, where one is given that is not `home`.
pub open spec fn with_original(line: ShownLine, currency: Seq<char>, amount: Option<Num>, home: Seq<char>) -> ShownLine {
    if currency.len() > 0 && currency != home && amount is Some && line.amount is Some {
        ShownLine { original: Some((with_sign_of(amount->0, line.amount->0), currency)), ..line }
    } else {
        line
    }
}

pub open spec fn is_nothing(n: Option<Num>) -> bool {
    n is Some && (n->0).0 == 0
}

pub open spec fn or_zero(n: Option<Num>) -> Num {
    match n {
        Some(v) => v,
        None => (0, 0),
    }
}

pub open spec fn plain_of(n: Option<Num>) -> Seq<char> {
    match n {
        Some(v) => decimal_text(normal(v)),
        None => Seq::empty(),
    }
}

/// Who a movement was with, and its reference.
pub open spec fn with_reference(who: Seq<char>, reference: Seq<char>) -> Seq<char> {
    let name = if who.len() == 0 {
        "Wise"@
    } else {
        who
    };
    if reference.len() == 0 || holds(name, reference) {
        name
    } else {
        name + " "@ + reference
    }
}

/// What a row of Wise's transaction history says.
pub struct History {
    pub status: Seq<char>,
    pub created: Seq<char>,
    pub source: Option<Num>,
    pub source_currency: Seq<char>,
    pub fee: Num,
    pub fee_currency: Seq<char>,
    pub target: Option<Num>,
    pub target_currency: Seq<char>,
    pub source_name: Seq<char>,
    pub target_name: Seq<char>,
    pub reference: Seq<char>,
    pub direction: Seq<char>,
}

pub open spec fn history_of(hs: Seq<Seq<char>>, row: Seq<Seq<char>>) -> History {
    let source_currency = uppered(cell_of(hs, row, seq!["Source currency"@]));
    let fee_currency = uppered(cell_of(hs, row, seq!["Source fee currency"@]));
    History {
        status: uppered(cell_of(hs, row, seq!["Status"@])),
        created: cell_of(hs, row, seq!["Created on"@]),
        source: abs_of(num_of(cell_of(hs, row, seq!["Source amount (after fees)"@]))),
        source_currency,
        fee: abs_num(or_zero(num_of(cell_of(hs, row, seq!["Source fee amount"@])))),
        fee_currency: if fee_currency.len() == 0 {
            source_currency
        } else {
            fee_currency
        },
        target: abs_of(num_of(cell_of(hs, row, seq!["Target amount (after fees)"@]))),
        target_currency: uppered(cell_of(hs, row, seq!["Target currency"@])),
        source_name: cell_of(hs, row, seq!["Source name"@]),
        target_name: cell_of(hs, row, seq!["Target name"@]),
        reference: cell_of(hs, row, seq!["Reference"@]),
        direction: uppered(cell_of(hs, row, seq!["Direction"@])),
    }
}

/// The line of a completed row, with the side that moved on a balance.
pub open spec fn history_line(h: History, line: ShownLine) -> ShownLine {
    if h.direction == "IN"@ {
        ShownLine {
            amount: h.target,
            currency: if h.target_currency.len() == 0 {
                h.source_currency
            } else {
                h.target_currency
            },
            description: with_reference(h.source_name, h.reference),
            ..line
        }
    } else if h.direction == "NEUTRAL"@ {
        ShownLine {
            amount: negated_of(h.source),
            currency: h.source_currency,
            description: "Converted "@ + plain_of(h.source) + " "@ + h.source_currency + " to "@ + plain_of(h.target) + " "@ + h.target_currency,
            original: if converts(h) {
                Some((negated_num(h.target->0), h.target_currency))
            } else {
                line.original
            },
            ..line
        }
    } else {
        ShownLine {
            amount: negated_of(h.source),
            currency: h.source_currency,
            description: with_reference(h.target_name, h.reference),
            ..line
        }
    }
}

/// Whether a row moves money between two balances.
pub open spec fn converts(h: History) -> bool {
    h.direction == "NEUTRAL"@ && h.target is Some && h.target_currency.len() > 0 && h.target_currency != h.source_currency
}

/// The other side of a conversion.
pub open spec fn other_side(h: History, line: ShownLine) -> ShownLine {
    ShownLine {
        amount: h.target,
        currency: h.target_currency,
        original: match h.source {
            Some(a) => Some((a, h.source_currency)),
            None => None,
        },
        ..line
    }
}

pub open spec fn missing(line: ShownLine) -> Option<Seq<char>> {
    if line.amount is None {
        Some("no amount"@)
    } else if line.date is None {
        Some("no date"@)
    } else {
        None
    }
}

/// The lines of a row of Wise's transaction history.
pub open spec fn wise_lines(h: History, line: ShownLine) -> (ShownLine, Seq<ShownLine>) {
    if h.status != "COMPLETED"@ {
        (
            ShownLine {
                skip: Some(
                    "status "@ + if h.status.len() == 0 {
                        "blank"@
                    } else {
                        lowercase_of(h.status)
                    },
                ),
                ..line
            },
            Seq::empty(),
        )
    } else {
        let dated = if line.date is None && !blank(h.created) {
            ShownLine { date: date_read(trimmed(h.created), "%Y-%m-%d %H:%M:%S"@), ..line }
        } else {
            line
        };
        let moved = history_line(h, dated);
        let done = ShownLine { skip: missing(moved), ..moved };
        let fee = if h.direction != "IN"@ && h.fee.0 != 0 {
            seq![ShownLine { skip: done.skip, ..fee_of(moved, h.fee, h.fee_currency) }]
        } else {
            Seq::empty()
        };
        let other = if converts(h) {
            seq![ShownLine { skip: done.skip, ..other_side(h, moved) }]
        } else {
            Seq::empty()
        };
        (done, fee + other)
    }
}

/// Whether a movement of Mercury has settled.
pub open spec fn settled(status: Seq<char>) -> bool {
    status == "sent"@ || status == "completed"@ || status == "posted"@ || status == "settled"@
}

/// The lines of a row, after what the bank's format says of it.
pub open spec fn adjusted(layout: Layout, hs: Seq<Seq<char>>, row: Seq<Seq<char>>, line: ShownLine) -> (ShownLine, Seq<ShownLine>) {
    match layout {
        Layout::N26New | Layout::N26Old => (
            with_original(
                line,
                uppered(cell_of(hs, row, seq!["Original Currency"@, "Type Foreign Currency"@])),
                num_of(cell_of(hs, row, seq!["Original Amount"@, "Amount (Foreign Currency)"@])),
                "EUR"@,
            ),
            Seq::empty(),
        ),
        Layout::Revolut => {
            let state = uppered(cell_of(hs, row, seq!["State"@]));
            let fee = or_zero(num_of(cell_of(hs, row, seq!["Fee"@])));
            if state.len() > 0 && state != "COMPLETED"@ {
                (ShownLine { skip: Some("state "@ + lowercase_of(state)), ..line }, Seq::empty())
            } else if fee.0 == 0 && is_nothing(line.amount) {
                (ShownLine { skip: Some("zero amount"@), ..line }, Seq::empty())
            } else if fee.0 != 0 {
                (line, seq![fee_of(line, fee, line.currency)])
            } else {
                (line, Seq::empty())
            }
        },
        Layout::WiseStatement => (
            with_original(
                line,
                uppered(cell_of(hs, row, seq!["Exchange To"@])),
                num_of(cell_of(hs, row, seq!["Exchange To Amount"@])),
                line.currency,
            ),
            Seq::empty(),
        ),
        Layout::WiseHistory => wise_lines(history_of(hs, row), line),
        Layout::Mercury => {
            let status = lowered(cell_of(hs, row, seq!["Status"@]));
            if status.len() > 0 && !settled(status) {
                (ShownLine { skip: Some("status "@ + status), ..line }, Seq::empty())
            } else if is_nothing(line.amount) {
                (ShownLine { skip: Some("zero amount"@), ..line }, Seq::empty())
            } else {
                (
                    with_original(
                        line,
                        uppered(cell_of(hs, row, seq!["Original Currency"@])),
                        num_of(cell_of(hs, row, seq!["Original Amount"@])),
                        "USD"@,
                    ),
                    Seq::empty(),
                )
            }
        },
        Layout::Inter => {
            let d = uppercase_of(line.description);
            if starts(d, "SALDO DO DIA"@) || starts(d, "SALDO ANTERIOR"@) || starts(d, "SALDO FINAL"@) {
                (ShownLine { skip: Some("balance row"@), ..line }, Seq::empty())
            } else {
                (line, Seq::empty())
            }
        },
        Layout::Other => (line, Seq::empty()),
    }
}

fn cell_at(row: &Vec<String>, p: Option<usize>) -> (r: String)
    ensures
        r@ == (match p {
            Some(i) => if i < row@.len() {
                trimmed(texts(row@)[i as int])
            } else {
                Seq::empty()
            },
            None => Seq::empty(),
        }),
{
    match p {
        Some(i) => if i < row.len() {
            trim(row[i].as_str())
        } else {
            String::new()
        },
        None => String::new(),
    }
}

fn cell(table: &Table, row: &Vec<String>, name: &str) -> (r: String)
    ensures
        r@ == cell_of(texts(table.headers@), texts(row@), seq![name@]),
{
    cell_at(row, only_exact(&table.headers, name))
}

fn either_cell(table: &Table, row: &Vec<String>, a: &str, b: &str) -> (r: String)
    ensures
        r@ == cell_of(texts(table.headers@), texts(row@), seq![a@, b@]),
{
    cell_at(row, first_exact(&table.headers, a, b))
}

fn num(s: &str) -> (r: Option<Decimal>)
    ensures
        view_of(r) == num_of(s@),
{
    if is_blank(s) {
        return None;
    }
    match parse_localized(s, '.') {
        Ok(d) => Some(d),
        Err(_) => None,
    }
}

fn signed_like(value: Decimal, like: Decimal) -> (r: Decimal)
    ensures
        r@ == with_sign_of(value@, like@),
{
    if like.is_negative() {
        value.abs().negated()
    } else {
        value.abs()
    }
}

fn fee_line(of: &ParsedLine, fee: Decimal, currency: &str) -> (r: ParsedLine)
    ensures
        r@ == fee_of(of@, fee@, currency@),
{
    let mut raw: Vec<MetaEntry> = Vec::new();
    let value = MetaValue::Other(object_string(&of.raw));
    put_field(&mut raw, "fee_of", value);
    let r = ParsedLine {
        date: of.date,
        amount: Some(fee.abs().negated()),
        currency: own(currency),
        description: cat("Fee: ", of.description.as_str()),
        reference: String::new(),
        balance_after: None,
        raw,
        skip: copy_text(&of.skip),
        original: None,
    };
    assert(r@.raw =~= seq![("fee_of"@, object_text(of@.raw))]);
    assert(r@ =~= fee_of(of@, fee@, currency@));
    r
}

fn set_original(line: &mut ParsedLine, currency: String, amount: Option<Decimal>, home: &str)
    ensures
        final(line)@ == with_original(old(line)@, currency@, view_of(amount), home@),
{
    if !currency.as_str().is_empty() && !same(currency.as_str(), home) {
        if let (Some(a), Some(booked)) = (amount, line.amount) {
            line.original = Some((signed_like(a, booked), currency));
        }
    }
    assert(line@ =~= with_original(old(line)@, currency@, view_of(amount), home@));
}

fn who_and_reference(who: &str, reference: &str) -> (r: String)
    ensures
        r@ == with_reference(who@, reference@),
{
    let name = if who.is_empty() {
        own("Wise")
    } else {
        own(who)
    };
    if reference.is_empty() || contains(name.as_str(), reference) {
        name
    } else {
        cat3(name.as_str(), " ", reference)
    }
}

pub fn plain_text(n: Option<Decimal>) -> (r: String)
    ensures
        r@ == plain_of(view_of(n)),
{
    match n {
        Some(v) => plain(v),
        None => String::new(),
    }
}

fn negated_number(n: Option<Decimal>) -> (r: Option<Decimal>)
    ensures
        view_of(r) == negated_of(view_of(n)),
{
    match n {
        Some(v) => Some(v.negated()),
        None => None,
    }
}

pub fn abs_number(n: Option<Decimal>) -> (r: Option<Decimal>)
    ensures
        view_of(r) == abs_of(view_of(n)),
{
    match n {
        Some(v) => Some(v.abs()),
        None => None,
    }
}

/// A row of Wise's transaction history.
struct Movement {
    status: String,
    created: String,
    source: Option<Decimal>,
    source_currency: String,
    fee: Decimal,
    fee_currency: String,
    target: Option<Decimal>,
    target_currency: String,
    source_name: String,
    target_name: String,
    reference: String,
    direction: String,
}

impl Movement {
    spec fn shown(self) -> History {
        History {
            status: self.status@,
            created: self.created@,
            source: view_of(self.source),
            source_currency: self.source_currency@,
            fee: self.fee@,
            fee_currency: self.fee_currency@,
            target: view_of(self.target),
            target_currency: self.target_currency@,
            source_name: self.source_name@,
            target_name: self.target_name@,
            reference: self.reference@,
            direction: self.direction@,
        }
    }

    fn read(table: &Table, row: &Vec<String>) -> (r: Movement)
        ensures
            r.shown() == history_of(texts(table.headers@), texts(row@)),
    {
        let source_currency = upper(cell(table, row, "Source currency").as_str());
        let fee: Decimal = match num(cell(table, row, "Source fee amount").as_str()) {
            Some(v) => v.abs(),
            None => Decimal::zero(),
        };
        let named = upper(cell(table, row, "Source fee currency").as_str());
        let fee_currency = if named.as_str().is_empty() {
            own(source_currency.as_str())
        } else {
            named
        };
        Movement {
            status: upper(cell(table, row, "Status").as_str()),
            created: cell(table, row, "Created on"),
            source: abs_number(num(cell(table, row, "Source amount (after fees)").as_str())),
            source_currency,
            fee,
            fee_currency,
            target: abs_number(num(cell(table, row, "Target amount (after fees)").as_str())),
            target_currency: upper(cell(table, row, "Target currency").as_str()),
            source_name: cell(table, row, "Source name"),
            target_name: cell(table, row, "Target name"),
            reference: cell(table, row, "Reference"),
            direction: upper(cell(table, row, "Direction").as_str()),
        }
    }

    fn is_conversion(&self) -> (r: bool)
        ensures
            r == converts(self.shown()),
    {
        same(self.direction.as_str(), "NEUTRAL") && self.target.is_some() && !self.target_currency.as_str().is_empty() && !same(
            self.target_currency.as_str(),
            self.source_currency.as_str(),
        )
    }

    fn conversion_text(&self) -> (r: String)
        ensures
            r@ == "Converted "@ + plain_of(view_of(self.source)) + " "@ + self.source_currency@ + " to "@ + plain_of(view_of(self.target)) + " "@
                + self.target_currency@,
    {
        let sent = cat5(
            "Converted ",
            plain_text(self.source).as_str(),
            " ",
            self.source_currency.as_str(),
            " to ",
        );
        cat4(sent.as_str(), plain_text(self.target).as_str(), " ", self.target_currency.as_str())
    }

    /// Moves the side of the row that changed a balance into its line.
    fn fill(&self, line: &mut ParsedLine)
        ensures
            final(line)@ == history_line(self.shown(), old(line)@),
    {
        if same(self.direction.as_str(), "IN") {
            line.amount = self.target;
            line.currency = if self.target_currency.as_str().is_empty() {
                own(self.source_currency.as_str())
            } else {
                own(self.target_currency.as_str())
            };
            line.description = who_and_reference(self.source_name.as_str(), self.reference.as_str());
        } else if same(self.direction.as_str(), "NEUTRAL") {
            line.amount = negated_number(self.source);
            line.currency = own(self.source_currency.as_str());
            line.description = self.conversion_text();
            if self.is_conversion() {
                if let Some(t) = self.target {
                    line.original = Some((t.negated(), own(self.target_currency.as_str())));
                }
            }
        } else {
            line.amount = negated_number(self.source);
            line.currency = own(self.source_currency.as_str());
            line.description = who_and_reference(self.target_name.as_str(), self.reference.as_str());
        }
        assert(line@ =~= history_line(self.shown(), old(line)@));
    }

    fn other_line(&self, line: &ParsedLine) -> (r: ParsedLine)
        ensures
            r@ == other_side(self.shown(), line@),
    {
        let mut other = line.copy();
        other.amount = self.target;
        other.currency = own(self.target_currency.as_str());
        other.original = match self.source {
            Some(a) => Some((a, own(self.source_currency.as_str()))),
            None => None,
        };
        assert(other@ =~= other_side(self.shown(), line@));
        other
    }
}

fn what_is_missing(line: &ParsedLine) -> (r: Option<String>)
    ensures
        opt_text(r) == missing(line@),
{
    if line.amount.is_none() {
        Some(own("no amount"))
    } else if line.date.is_none() {
        Some(own("no date"))
    } else {
        None
    }
}

fn push_skipped(extra: &mut Vec<ParsedLine>, line: ParsedLine, skip: &Option<String>)
    ensures
        shown_lines(final(extra)@) == shown_lines(old(extra)@).push(ShownLine { skip: opt_text(*skip), ..line@ }),
{
    let mut l = line;
    l.skip = copy_text(skip);
    let ghost shown = ShownLine { skip: opt_text(*skip), ..line@ };
    assert(l@ =~= shown);
    let ghost before = shown_lines(extra@);
    extra.push(l);
    assert(shown_lines(extra@) =~= before.push(shown));
}

/// Wise's transaction history is one multi-currency file. Direction says which side moved on a
/// balance: the target side for IN, the source side for OUT, both for NEUTRAL (a conversion
/// between two of the user's balances). Fees are charged on top of the "(after fees)" amounts.
fn wise_history(table: &Table, row: &Vec<String>, line: &mut ParsedLine, extra: &mut Vec<ParsedLine>)
    ensures
        final(line)@ == wise_lines(history_of(texts(table.headers@), texts(row@)), old(line)@).0,
        shown_lines(final(extra)@) == shown_lines(old(extra)@) + wise_lines(
            history_of(texts(table.headers@), texts(row@)),
            old(line)@,
        ).1,
{
    let ghost first = line@;
    let ghost start = shown_lines(extra@);
    let m = Movement::read(table, row);
    let ghost h = m.shown();
    if !same(m.status.as_str(), "COMPLETED") {
        let shown = if m.status.as_str().is_empty() {
            own("blank")
        } else {
            to_lowercase(m.status.as_str())
        };
        line.skip = Some(cat("status ", shown.as_str()));
        assert(line@ =~= wise_lines(h, first).0);
        assert(start =~= start + Seq::<ShownLine>::empty());
        return;
    }
    if line.date.is_none() {
        if let Ok(d) = parse_date(m.created.as_str(), "%Y-%m-%d %H:%M:%S") {
            line.date = Some(d);
        }
    }
    let ghost dated = if first.date is None && !blank(h.created) {
        ShownLine { date: date_read(trimmed(h.created), "%Y-%m-%d %H:%M:%S"@), ..first }
    } else {
        first
    };
    assert(line@ =~= dated);
    m.fill(line);
    let ghost moved = history_line(h, dated);
    let skip = what_is_missing(line);
    let ghost mut further = Seq::<ShownLine>::empty();
    if !same(m.direction.as_str(), "IN") && !m.fee.is_zero() {
        let f = fee_line(line, m.fee, m.fee_currency.as_str());
        push_skipped(extra, f, &skip);
        proof {
            further = seq![ShownLine { skip: missing(moved), ..fee_of(moved, h.fee, h.fee_currency) }];
        }
    }
    assert(shown_lines(extra@) =~= start + further);
    if m.is_conversion() {
        let other = m.other_line(line);
        push_skipped(extra, other, &skip);
        proof {
            further = further + seq![ShownLine { skip: missing(moved), ..other_side(h, moved) }];
        }
    }
    assert(shown_lines(extra@) =~= start + further);
    line.skip = skip;
    assert(line@ =~= (ShownLine { skip: missing(moved), ..moved }));
    assert(further =~= wise_lines(h, first).1);
}

/// Per-row adjustments for a source. May turn one row into extra lines (fees, the other side of a
/// conversion) or skip rows (pending, reverted, failed, balance rows).
pub fn post_process(source: &str, table: &Table, row: &Vec<String>, line: &mut ParsedLine, extra: &mut Vec<ParsedLine>)
    ensures
        final(line)@ == adjusted(
            layout_of(source@, texts(table.headers@)),
            texts(table.headers@),
            texts(row@),
            old(line)@,
        ).0,
        shown_lines(final(extra)@) == shown_lines(old(extra)@) + adjusted(
            layout_of(source@, texts(table.headers@)),
            texts(table.headers@),
            texts(row@),
            old(line)@,
        ).1,
{
    let ghost hs = texts(table.headers@);
    let ghost first = line@;
    let ghost before = shown_lines(extra@);
    assert(before =~= before + Seq::<ShownLine>::empty());
    match variant(source, &table.headers) {
        Layout::N26New | Layout::N26Old => {
            let currency = upper(either_cell(table, row, "Original Currency", "Type Foreign Currency").as_str());
            let amount = num(either_cell(table, row, "Original Amount", "Amount (Foreign Currency)").as_str());
            set_original(line, currency, amount, "EUR");
        },
        Layout::Revolut => {
            // Only COMPLETED rows moved money; PENDING rows have no completed date or balance,
            // REVERTED, DECLINED and FAILED never settled.
            let state = upper(cell(table, row, "State").as_str());
            if !state.as_str().is_empty() && !same(state.as_str(), "COMPLETED") {
                line.skip = Some(cat("state ", to_lowercase(state.as_str()).as_str()));
                assert(line@ =~= adjusted(Layout::Revolut, hs, texts(row@), first).0);
                return;
            }
            let fee: Decimal = match num(cell(table, row, "Fee").as_str()) {
                Some(v) => v,
                None => Decimal::zero(),
            };
            let nothing = match line.amount {
                Some(a) => a.is_zero(),
                None => false,
            };
            if fee.is_zero() && nothing {
                // A card authorisation hold.
                line.skip = Some(own("zero amount"));
                assert(line@ =~= adjusted(Layout::Revolut, hs, texts(row@), first).0);
                return;
            }
            // The fee is charged on top of Amount: Balance = previous + Amount - Fee.
            if !fee.is_zero() {
                let f = fee_line(line, fee, line.currency.as_str());
                let ghost shown = f@;
                extra.push(f);
                assert(shown_lines(extra@) =~= before + seq![shown]);
            }
        },
        Layout::WiseStatement => {
            // Amount is the whole movement (Total fees is a breakdown of it, and Wise books card
            // fees as their own FEE-CARD rows), so nothing is split. A card payment or conversion
            // in another currency keeps that side as the original amount.
            let currency = upper(cell(table, row, "Exchange To").as_str());
            let amount = num(cell(table, row, "Exchange To Amount").as_str());
            let home = own(line.currency.as_str());
            set_original(line, currency, amount, home.as_str());
        },
        Layout::WiseHistory => {
            wise_history(table, row, line, extra);
        },
        Layout::Mercury => {
            let status = lower(cell(table, row, "Status").as_str());
            if !status.as_str().is_empty() && !(same(status.as_str(), "sent") || same(status.as_str(), "completed") || same(
                status.as_str(),
                "posted",
            ) || same(status.as_str(), "settled")) {
                line.skip = Some(cat("status ", status.as_str()));
                assert(line@ =~= adjusted(Layout::Mercury, hs, texts(row@), first).0);
                return;
            }
            let nothing = match line.amount {
                Some(a) => a.is_zero(),
                None => false,
            };
            if nothing {
                line.skip = Some(own("zero amount"));
                assert(line@ =~= adjusted(Layout::Mercury, hs, texts(row@), first).0);
                return;
            }
            let currency = upper(cell(table, row, "Original Currency").as_str());
            let amount = num(cell(table, row, "Original Amount").as_str());
            set_original(line, currency, amount, "USD");
        },
        Layout::Inter => {
            let d = to_uppercase(line.description.as_str());
            if starts_with(d.as_str(), "SALDO DO DIA") || starts_with(d.as_str(), "SALDO ANTERIOR") || starts_with(d.as_str(), "SALDO FINAL") {
                line.skip = Some(own("balance row"));
                assert(line@ =~= adjusted(Layout::Inter, hs, texts(row@), first).0);
            }
        },
        Layout::Other => {},
    }
}

/// Whether every column of one header row is named in another.
pub open spec fn columns_within(a: Seq<Seq<char>>, b: Seq<Seq<char>>) -> bool {
    forall|i: int| 0 <= i < a.len() ==> exists|j: int| 0 <= j < b.len() && column_name(#[trigger] b[j]) == column_name(#[trigger] a[i])
}

proof fn lemma_named(hs: Seq<Seq<char>>, name: Seq<char>, i: int)
    requires
        0 <= i <= hs.len(),
    ensures
        named_from(hs, name, i) is Some <==> exists|j: int| i <= j < hs.len() && column_name(#[trigger] hs[j]) == name,
    decreases hs.len() - i,
{
    if i < hs.len() {
        lemma_named(hs, name, i + 1);
    }
}

proof fn lemma_holding(hs: Seq<Seq<char>>, name: Seq<char>, i: int)
    requires
        0 <= i <= hs.len(),
    ensures
        holding_from(hs, name, i) is Some <==> exists|j: int| i <= j < hs.len() && holds(column_name(#[trigger] hs[j]), name),
    decreases hs.len() - i,
{
    if i < hs.len() {
        lemma_holding(hs, name, i + 1);
    }
}

proof fn lemma_named_within(a: Seq<Seq<char>>, b: Seq<Seq<char>>, name: Seq<char>)
    requires
        columns_within(a, b),
    ensures
        named_from(a, name, 0) is Some ==> named_from(b, name, 0) is Some,
        holding_from(a, name, 0) is Some ==> holding_from(b, name, 0) is Some,
{
    lemma_named(a, name, 0);
    lemma_named(b, name, 0);
    lemma_holding(a, name, 0);
    lemma_holding(b, name, 0);
    if named_from(a, name, 0) is Some {
        let i = choose|i: int| 0 <= i < a.len() && column_name(#[trigger] a[i]) == name;
        let j = choose|j: int| 0 <= j < b.len() && column_name(#[trigger] b[j]) == column_name(a[i]);
        assert(column_name(b[j]) == name);
    }
    if holding_from(a, name, 0) is Some {
        let i = choose|i: int| 0 <= i < a.len() && holds(column_name(#[trigger] a[i]), name);
        let j = choose|j: int| 0 <= j < b.len() && column_name(#[trigger] b[j]) == column_name(a[i]);
        assert(holds(column_name(b[j]), name));
    }
}

proof fn lemma_all_named_within(a: Seq<Seq<char>>, b: Seq<Seq<char>>, names: Seq<Seq<char>>)
    requires
        columns_within(a, b),
        columns_within(b, a),
    ensures
        all_named(a, names) == all_named(b, names),
{
    assert forall|i: int| 0 <= i < names.len() implies (named_from(a, column_name(#[trigger] names[i]), 0) is Some) == (named_from(
        b,
        column_name(names[i]),
        0,
    ) is Some) by {
        lemma_named_within(a, b, column_name(names[i]));
        lemma_named_within(b, a, column_name(names[i]));
    }
}

proof fn lemma_found_within(a: Seq<Seq<char>>, b: Seq<Seq<char>>, name: Seq<char>)
    requires
        columns_within(a, b),
        columns_within(b, a),
    ensures
        found(a, name) == found(b, name),
{
    let cs = seq![name];
    lemma_named_within(a, b, column_name(name));
    lemma_named_within(b, a, column_name(name));
    reveal_with_fuel(named_among, 2);
    reveal_with_fuel(holding_among, 2);
    assert(cs[0] == name);
}

/// A format is recognised by which columns there are: their order, a column that stands twice, and
/// what their names lose when they are compared, letter case and the white space around them, do
/// not count.
pub proof fn law_detect_by_columns(a: Seq<Seq<char>>, b: Seq<Seq<char>>)
    requires
        columns_within(a, b),
        columns_within(b, a),
    ensures
        detected(a) == detected(b),
{
    lemma_all_named_within(a, b, seq!["Booking Date"@, "Amount (EUR)"@]);
    lemma_all_named_within(a, b, seq!["Date"@, "Payee"@, "Amount (EUR)"@]);
    lemma_all_named_within(a, b, seq!["Started Date"@, "Completed Date"@, "Amount"@, "State"@]);
    lemma_all_named_within(a, b, seq!["Direction"@, "Source amount (after fees)"@, "Target amount (after fees)"@]);
    lemma_all_named_within(a, b, seq!["TransferWise ID"@, "Date"@, "Amount"@]);
    lemma_all_named_within(a, b, seq!["Date"@, "Amount"@, "Currency"@, "Running Balance"@]);
    lemma_all_named_within(a, b, seq!["Bank Description"@, "Amount"@]);
    lemma_all_named_within(a, b, seq!["Date (UTC)"@, "Description"@, "Amount"@]);
    lemma_all_named_within(a, b, seq!["IOF"@]);
    lemma_all_named_within(a, b, seq!["Data"@, "Histórico"@]);
    lemma_found_within(a, b, "Data"@);
    lemma_found_within(a, b, "Date"@);
    lemma_found_within(a, b, "Data Lançamento"@);
    lemma_found_within(a, b, "Data Lancamento"@);
    lemma_found_within(a, b, "Valor"@);
}

/// Letter case and the white space around the names of columns do not count, where they are ASCII.
pub proof fn law_detect_spelling(a: Seq<Seq<char>>, b: Seq<Seq<char>>)
    requires
        a.len() == b.len(),
        forall|i: int|
            0 <= i < a.len() ==> vstd::utf8::is_ascii_chars(trimmed(#[trigger] a[i])) && vstd::utf8::is_ascii_chars(trimmed(b[i])) && lowered(
                trimmed(a[i]),
            ) == lowered(trimmed(b[i])),
    ensures
        detected(a) == detected(b),
{
    assert forall|i: int| 0 <= i < a.len() implies column_name(#[trigger] a[i]) == column_name(b[i]) by {
        lemma_lowered_again(trimmed(a[i]));
        lemma_lowered_again(trimmed(b[i]));
    }
    assert forall|i: int| 0 <= i < a.len() implies exists|j: int|
        0 <= j < b.len() && column_name(#[trigger] b[j]) == column_name(#[trigger] a[i]) by {
        assert(column_name(b[i]) == column_name(a[i]));
    }
    assert forall|i: int| 0 <= i < b.len() implies exists|j: int|
        0 <= j < a.len() && column_name(#[trigger] a[j]) == column_name(#[trigger] b[i]) by {
        assert(column_name(a[i]) == column_name(b[i]));
    }
    law_detect_by_columns(a, b);
}

/// A completed row of Wise's history is booked on the side that moved: what came in is above zero, in the
/// target currency; what went out, or was converted, is below, in the source currency. A conversion has a
/// second line that comes in, and a fee is a line of its own, below zero.
pub proof fn law_wise_direction(h: History, line: ShownLine)
    requires
        h.status == "COMPLETED"@,
        h.source matches Some(n) ==> n.0 >= 0,
        h.target matches Some(n) ==> n.0 >= 0,
    ensures
        ({
            let (first, more) = wise_lines(h, line);
            &&& h.direction == "IN"@ ==> first.amount == h.target && more.len() == 0
            &&& h.direction != "IN"@ ==> first.currency == h.source_currency && first.amount is Some == h.source is Some && (h.source matches Some(n)
                ==> first.amount == Some((-n.0, n.1)))
            &&& forall|k: int|
                0 <= k < more.len() ==> ((#[trigger] more[k]).amount matches Some(a) && (a.0 < 0 && more[k].currency == h.fee_currency && h.fee.0 != 0
                    || a == h.target->0 && a.0 >= 0 && more[k].currency == h.target_currency && h.direction == "NEUTRAL"@))
        }),
{
    reveal_strlit("IN");
    reveal_strlit("NEUTRAL");
    assert("IN"@.len() == 2 && "NEUTRAL"@.len() == 7);
}

/// What Wise's history says of sizes has no sign.
pub proof fn law_history_unsigned(hs: Seq<Seq<char>>, row: Seq<Seq<char>>)
    ensures
        history_of(hs, row).source matches Some(n) ==> n.0 >= 0,
        history_of(hs, row).target matches Some(n) ==> n.0 >= 0,
        history_of(hs, row).fee.0 >= 0,
{
}

/// A fee that Revolut takes beside a movement is a line of its own, below zero; the movement stays as it is.
pub proof fn law_revolut_fee(hs: Seq<Seq<char>>, row: Seq<Seq<char>>, line: ShownLine)
    ensures
        ({
            let (first, more) = adjusted(Layout::Revolut, hs, row, line);
            &&& first.amount == line.amount && first.date == line.date
            &&& more.len() <= 1
            &&& forall|k: int| 0 <= k < more.len() ==> ((#[trigger] more[k]).amount matches Some(a) && a.0 < 0) && more[k].currency == line.currency
        }),
{
}

} // verus!
