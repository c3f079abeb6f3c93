//! Statements as tables: each row of a CSV file becomes a line.

use vstd::prelude::*;

use crate::codec::json_text;
use crate::decimal::{view_of, Decimal, Num};
use crate::error::{refusal_text, unreadable, Refusal, Result};
use crate::imports::csvkit::{cells, col_by_name, column_by, column_separator, date_read, decode, detect_date_format, detect_decimal_sep, format_of, number_read, parse_date, parse_number, parse_table, place_as_int, signs_in, table_in, text_in, ShownTable, Table};
use crate::imports::presets::{abs_num, adjusted, detect, detected, Layout, layout_of, mapping_for, mapping_of, post_process};
use crate::imports::{closing, copy_texts, earliest, fields, fields_with, last_balance, latest, no_mapping, no_parse, period, put_field, shown_lines, unmapped, CsvMapping, ParseOutput, ParsedLine, ShownLine, ShownMapping, ShownParse};
use crate::model::{MetaEntry, MetaValue};
use crate::money::negated_num;
use crate::text::{blank, cat, cat3, chars, contains, debug_text, holds, join, joined, nat_string, nat_text, own, quoted, same, single_space, single_spaced, str_texts, texts, trim, trimmed, upper, uppered};

verus! {

/// The cell of a row in a column, empty where there is none.
pub open spec fn cell_in(row: Seq<Seq<char>>, column: Option<int>) -> Seq<char> {
    match column {
        Some(i) => if 0 <= i < row.len() {
            row[i]
        } else {
            Seq::empty()
        },
        None => Seq::empty(),
    }
}

fn cell_of(row: &Vec<String>, column: Option<usize>) -> (r: &str)
    ensures
        r@ == cell_in(texts(row@), place_as_int(column)),
{
    proof {
        reveal_strlit("");
        assert(""@ =~= Seq::<char>::empty());
    }
    match column {
        Some(i) => if i < row.len() {
            row[i].as_str()
        } else {
            ""
        },
        None => "",
    }
}

/// The values of the first `n` rows in a column.
pub open spec fn column_values(rows: Seq<Seq<Seq<char>>>, column: int, n: nat) -> Seq<Seq<char>>
    decreases n,
{
    if n == 0 {
        Seq::empty()
    } else {
        let before = column_values(rows, column, (n - 1) as nat);
        if column < rows[n - 1].len() {
            before.push(rows[n - 1][column])
        } else {
            before
        }
    }
}

pub fn values_in<'a>(rows: &'a Vec<Vec<String>>, column: usize) -> (r: Vec<&'a str>)
    ensures
        str_texts(r@) == column_values(cells(rows@), column as int, rows@.len()),
{
    let ghost rs = cells(rows@);
    let mut r: Vec<&'a str> = Vec::new();
    assert(str_texts(r@) =~= Seq::<Seq<char>>::empty());
    let mut i: usize = 0;
    while i < rows.len()
        invariant
            i <= rows.len(),
            rs == cells(rows@),
            str_texts(r@) == column_values(rs, column as int, i as nat),
        decreases rows.len() - i,
    {
        assert(rs[i as int] == texts(rows@[i as int]@));
        if column < rows[i].len() {
            let ghost before = str_texts(r@);
            let v = rows[i][column].as_str();
            r.push(v);
            assert(str_texts(r@) =~= before.push(v@));
        }
        i = i + 1;
    }
    r
}

/// What a row holds, by the headers of its columns.
pub open spec fn raw_of(hs: Seq<Seq<char>>, row: Seq<Seq<char>>, n: nat) -> Seq<(Seq<char>, Seq<char>)>
    decreases n,
{
    if n == 0 {
        Seq::empty()
    } else {
        let before = raw_of(hs, row, (n - 1) as nat);
        if n - 1 < row.len() && row[n - 1].len() > 0 {
            fields_with(before, hs[n - 1], json_text(row[n - 1]))
        } else {
            before
        }
    }
}

pub fn raw_fields(headers: &Vec<String>, row: &Vec<String>) -> (r: Vec<MetaEntry>)
    ensures
        fields(r@) == raw_of(texts(headers@), texts(row@), headers@.len()),
{
    let ghost hs = texts(headers@);
    let ghost cs = texts(row@);
    let mut r: Vec<MetaEntry> = Vec::new();
    assert(fields(r@) =~= Seq::<(Seq<char>, Seq<char>)>::empty());
    let mut i: usize = 0;
    while i < headers.len()
        invariant
            i <= headers.len(),
            hs == texts(headers@),
            cs == texts(row@),
            fields(r@) == raw_of(hs, cs, i as nat),
        decreases headers.len() - i,
    {
        if i < row.len() && !row[i].as_str().is_empty() {
            let value = own(row[i].as_str());
            put_field(&mut r, headers[i].as_str(), MetaValue::Text(value));
        }
        i = i + 1;
    }
    r
}

/// Where the fields of a line stand in a row, and how they are written.
#[derive(Debug)]
pub struct Columns {
    pub date: usize,
    pub amount: Option<usize>,
    pub debit: Option<usize>,
    pub credit: Option<usize>,
    pub description: Option<usize>,
    pub further: Vec<usize>,
    pub reference: Option<usize>,
    pub balance: Option<usize>,
    pub currency: Option<usize>,
    pub date_format: String,
    pub decimal_separator: char,
    pub invert_sign: bool,
    pub default_currency: String,
}

#[verifier::ext_equal]
pub struct ShownColumns {
    pub date: int,
    pub amount: Option<int>,
    pub debit: Option<int>,
    pub credit: Option<int>,
    pub description: Option<int>,
    pub further: Seq<int>,
    pub reference: Option<int>,
    pub balance: Option<int>,
    pub currency: Option<int>,
    pub date_format: Seq<char>,
    pub decimal_separator: char,
    pub invert_sign: bool,
    pub default_currency: Seq<char>,
}

pub open spec fn as_places(v: Seq<usize>) -> Seq<int> {
    v.map_values(|n: usize| n as int)
}

impl View for Columns {
    type V = ShownColumns;

    open spec fn view(&self) -> ShownColumns {
        ShownColumns {
            date: self.date as int,
            amount: place_as_int(self.amount),
            debit: place_as_int(self.debit),
            credit: place_as_int(self.credit),
            description: place_as_int(self.description),
            further: as_places(self.further@),
            reference: place_as_int(self.reference),
            balance: place_as_int(self.balance),
            currency: place_as_int(self.currency),
            date_format: self.date_format@,
            decimal_separator: self.decimal_separator,
            invert_sign: self.invert_sign,
            default_currency: self.default_currency@,
        }
    }
}

/// A number that may be unreadable.
pub open spec fn readable(value: Seq<char>, sep: char) -> Option<Num> {
    match number_read(value, sep) {
        Ok(n) => n,
        Err(_) => None,
    }
}

/// The amount of a row: of its amount column, or what was credited less what was debited.
pub open spec fn row_amount(c: ShownColumns, row: Seq<Seq<char>>) -> std::result::Result<Option<Num>, Refusal> {
    match c.amount {
        Some(_) => number_read(cell_in(row, c.amount), c.decimal_separator),
        None => {
            let d = readable(cell_in(row, c.debit), c.decimal_separator);
            let k = readable(cell_in(row, c.credit), c.decimal_separator);
            Ok(
                if d is Some && (d->0).0 != 0 {
                    Some(negated_num(abs_num(d->0)))
                } else if k is Some {
                    Some(abs_num(k->0))
                } else {
                    None
                },
            )
        },
    }
}

/// The description with the first `n` further columns, but for what it holds already.
pub open spec fn described(c: ShownColumns, row: Seq<Seq<char>>, n: nat) -> Seq<char>
    decreases n,
{
    if n == 0 {
        cell_in(row, c.description)
    } else {
        let before = described(c, row, (n - 1) as nat);
        let v = cell_in(row, Some(c.further[n - 1]));
        if v.len() == 0 || holds(before, v) {
            before
        } else if before.len() == 0 {
            v
        } else {
            before + " "@ + v
        }
    }
}

/// The line of a row, which is the `i`-th, before what the bank's format says of it.
pub open spec fn row_line(c: ShownColumns, hs: Seq<Seq<char>>, row: Seq<Seq<char>>, i: int) -> std::result::Result<ShownLine, Refusal> {
    let value = cell_in(row, Some(c.date));
    let date = if blank(value) {
        None
    } else {
        date_read(trimmed(value), c.date_format)
    };
    let label = "row "@ + nat_text((i + 1) as nat) + ": "@;
    match row_amount(c, row) {
        Err(e) => Err(e),
        Ok(a) => {
            let currency = uppered(trimmed(cell_in(row, c.currency)));
            let amount = match a {
                Some(n) => Some(
                    if c.invert_sign {
                        negated_num(n)
                    } else {
                        n
                    },
                ),
                None => None,
            };
            Ok(
                ShownLine {
                    date,
                    amount,
                    currency: if currency.len() > 0 {
                        currency
                    } else {
                        c.default_currency
                    },
                    description: single_spaced(described(c, row, c.further.len())),
                    reference: cell_in(row, c.reference),
                    balance_after: readable(cell_in(row, c.balance), c.decimal_separator),
                    raw: raw_of(hs, row, hs.len()),
                    skip: if blank(value) {
                        Some(label + refusal_text(Refusal::Parse("empty date"@)))
                    } else if date is None {
                        Some(
                            label + refusal_text(
                                Refusal::Parse(
                                    "unrecognised date "@ + debug_text(value) + " (format "@ + c.date_format + ")"@,
                                ),
                            ),
                        )
                    } else if amount is None {
                        Some(label + "no amount"@)
                    } else {
                        None
                    },
                    original: None,
                },
            )
        },
    }
}

pub fn read_number(value: &str, sep: char) -> (r: Option<Decimal>)
    ensures
        view_of(r) == readable(value@, sep),
{
    match parse_number(value, sep) {
        Ok(n) => n,
        Err(_) => None,
    }
}

fn amount_of(c: &Columns, row: &Vec<String>) -> (r: Result<Option<Decimal>>)
    ensures
        match r {
            Ok(a) => row_amount(c@, texts(row@)) == Ok::<Option<Num>, Refusal>(view_of(a)),
            Err(e) => row_amount(c@, texts(row@)) == Err::<Option<Num>, Refusal>(e@),
        },
{
    if c.amount.is_some() {
        return parse_number(cell_of(row, c.amount), c.decimal_separator);
    }
    let debit = read_number(cell_of(row, c.debit), c.decimal_separator);
    let credit = read_number(cell_of(row, c.credit), c.decimal_separator);
    if let Some(d) = debit {
        if !d.is_zero() {
            return Ok(Some(d.abs().negated()));
        }
    }
    match credit {
        Some(k) => Ok(Some(k.abs())),
        None => Ok(None),
    }
}

fn description_of(c: &Columns, row: &Vec<String>) -> (r: String)
    ensures
        r@ == described(c@, texts(row@), c@.further.len()),
{
    let ghost cs = texts(row@);
    let mut d = own(cell_of(row, c.description));
    let mut i: usize = 0;
    while i < c.further.len()
        invariant
            i <= c.further.len(),
            cs == texts(row@),
            d@ == described(c@, cs, i as nat),
        decreases c.further.len() - i,
    {
        let place: Option<usize> = Some(c.further[i]);
        assert(place_as_int(place) == Some(c@.further[i as int]));
        let v = cell_of(row, place);
        if !v.is_empty() && !contains(d.as_str(), v) {
            d = if d.as_str().is_empty() {
                own(v)
            } else {
                cat3(d.as_str(), " ", v)
            };
        }
        i = i + 1;
    }
    d
}

fn line_of(c: &Columns, headers: &Vec<String>, row: &Vec<String>, i: usize) -> (r: Result<ParsedLine>)
    ensures
        match r {
            Ok(l) => row_line(c@, texts(headers@), texts(row@), i as int) == Ok::<ShownLine, Refusal>(l@),
            Err(e) => row_line(c@, texts(headers@), texts(row@), i as int) == Err::<ShownLine, Refusal>(e@),
        },
{
    let mut line = ParsedLine::empty();
    line.raw = raw_fields(headers, row);
    let label = cat3("row ", nat_string(i as u128 + 1).as_str(), ": ");
    let place: Option<usize> = Some(c.date);
    assert(place_as_int(place) == Some(c@.date));
    match parse_date(cell_of(row, place), c.date_format.as_str()) {
        Ok(d) => {
            line.date = Some(d);
        },
        Err(e) => {
            line.skip = Some(cat(label.as_str(), e.text().as_str()));
        },
    }
    let amount = match amount_of(c, row) {
        Ok(a) => a,
        Err(e) => {
            return Err(e);
        },
    };
    line.amount = match amount {
        Some(a) => Some(
            if c.invert_sign {
                a.negated()
            } else {
                a
            },
        ),
        None => None,
    };
    if line.amount.is_none() && line.skip.is_none() {
        line.skip = Some(cat(label.as_str(), "no amount"));
    }
    line.description = single_space(description_of(c, row).as_str());
    line.reference = own(cell_of(row, c.reference));
    line.balance_after = read_number(cell_of(row, c.balance), c.decimal_separator);
    let currency = upper(trim(cell_of(row, c.currency)).as_str());
    line.currency = if currency.as_str().is_empty() {
        own(c.default_currency.as_str())
    } else {
        currency
    };
    proof {
        let shown = row_line(c@, texts(headers@), texts(row@), i as int);
        assert(shown is Ok);
        assert(line@ =~= shown->Ok_0);
    }
    Ok(line)
}

/// The lines of the first `n` rows, or why the first of them that cannot be read is refused.
pub open spec fn table_lines(
    c: ShownColumns,
    source: Seq<char>,
    hs: Seq<Seq<char>>,
    rows: Seq<Seq<Seq<char>>>,
    n: nat,
) -> std::result::Result<Seq<ShownLine>, Refusal>
    decreases n,
{
    if n == 0 {
        Ok(Seq::empty())
    } else {
        match table_lines(c, source, hs, rows, (n - 1) as nat) {
            Err(e) => Err(e),
            Ok(before) => match row_line(c, hs, rows[n - 1], n - 1) {
                Err(e) => Err(e),
                Ok(l) => {
                    let (line, extra) = adjusted(layout_of(source, hs), hs, rows[n - 1], l);
                    Ok(before.push(line) + extra)
                },
            },
        }
    }
}

/// The number that a row holds in a column, where there is one.
pub open spec fn number_under(row: Seq<Seq<char>>, column: Option<int>, sep: char) -> Option<Num> {
    match column {
        Some(k) => if 0 <= k < row.len() {
            match number_read(row[k], sep) {
                Ok(n) => n,
                Err(_) => None,
            }
        } else {
            None
        },
        None => None,
    }
}

pub open spec fn turned(invert: bool, n: int) -> int {
    if invert {
        -n
    } else {
        n
    }
}

/// The sign of an amount tells out from in. In a table with an amount column the amount is the number of
/// its cell. In one with columns for debits and credits a line with a debit is below zero by its size,
/// whatever sign the cell has, a line with only a credit is at least zero, and a line with neither has no
/// amount and does not count. Where the mapping inverts signs, all of this is turned round.
pub proof fn law_amount_tells_direction(c: ShownColumns, hs: Seq<Seq<char>>, row: Seq<Seq<char>>, i: int)
    requires
        row_line(c, hs, row, i) is Ok,
    ensures
        ({
            let l = row_line(c, hs, row, i)->Ok_0;
            let sep = c.decimal_separator;
            let debit = number_under(row, c.debit, sep);
            let credit = number_under(row, c.credit, sep);
            let debited = debit is Some && (debit->0).0 != 0;
            &&& c.amount is Some ==> (number_under(row, c.amount, sep) matches Some(a) ==> l.amount == Some((turned(c.invert_sign, a.0), a.1)))
            &&& c.amount is None && debited ==> (l.amount matches Some(a) && a.1 == (debit->0).1 && turned(c.invert_sign, a.0) < 0 && (a.0 == (debit->0).0
                || a.0 == -(debit->0).0))
            &&& c.amount is None && !debited && credit is Some ==> (l.amount matches Some(a) && a.1 == (credit->0).1 && turned(c.invert_sign, a.0) >= 0 && (
            a.0 == (credit->0).0 || a.0 == -(credit->0).0))
            &&& c.amount is None && !debited && credit is None ==> l.amount is None && l.skip is Some
        }),
{
    assert(blank(Seq::<char>::empty()));
    let sep = c.decimal_separator;
    assert(readable(cell_in(row, c.debit), sep) == number_under(row, c.debit, sep));
    assert(readable(cell_in(row, c.credit), sep) == number_under(row, c.credit, sep));
    assert(c.amount is Some ==> (number_under(row, c.amount, sep) matches Some(a) ==> row_amount(c, row) == Ok::<Option<Num>, Refusal>(Some(a))));
}

/// Which columns are read follows from the mapping alone, each from the name that the mapping has for it.
pub proof fn law_columns_as_mapped(m: ShownMapping, t: ShownTable)
    ensures
        columns_of(m, t) matches Ok(c) ==> {
            &&& column_by(t.headers, m.date_column) == Some(c.date)
            &&& column_by(t.headers, m.amount_column) == c.amount
            &&& column_by(t.headers, m.debit_column) == c.debit
            &&& column_by(t.headers, m.credit_column) == c.credit
            &&& column_by(t.headers, m.description_column) == c.description
            &&& column_by(t.headers, m.reference_column) == c.reference
            &&& column_by(t.headers, m.balance_column) == c.balance
            &&& column_by(t.headers, m.currency_column) == c.currency
            &&& c.invert_sign == m.invert_sign
            &&& c.amount is Some || c.debit is Some || c.credit is Some
        },
{
}

/// A table whose format adds nothing of its own gives one line for each row, in the order of the rows.
pub proof fn law_lines_follow_rows(c: ShownColumns, source: Seq<char>, hs: Seq<Seq<char>>, rows: Seq<Seq<Seq<char>>>, n: nat)
    requires
        layout_of(source, hs) == Layout::Other,
    ensures
        table_lines(c, source, hs, rows, n) matches Ok(ls) ==> ls.len() == n && forall|i: int|
            0 <= i < n ==> row_line(c, hs, rows[i], i) == Ok::<ShownLine, Refusal>(#[trigger] ls[i]),
    decreases n,
{
    if n > 0 {
        law_lines_follow_rows(c, source, hs, rows, (n - 1) as nat);
        if let Ok(ls) = table_lines(c, source, hs, rows, n) {
            let before = table_lines(c, source, hs, rows, (n - 1) as nat)->Ok_0;
            let l = row_line(c, hs, rows[n - 1], n - 1)->Ok_0;
            assert(ls =~= before.push(l));
        }
    }
}

proof fn lemma_lines_refused(c: ShownColumns, source: Seq<char>, hs: Seq<Seq<char>>, rows: Seq<Seq<Seq<char>>>, n: nat, m: nat)
    requires
        n <= m,
        table_lines(c, source, hs, rows, n) is Err,
    ensures
        table_lines(c, source, hs, rows, m) == table_lines(c, source, hs, rows, n),
    decreases m,
{
    if n < m {
        lemma_lines_refused(c, source, hs, rows, n, (m - 1) as nat);
    }
}

fn read_rows(c: &Columns, source: &str, table: &Table) -> (r: Result<Vec<ParsedLine>>)
    ensures
        match r {
            Ok(v) => table_lines(c@, source@, table@.headers, table@.rows, table@.rows.len()) == Ok::<Seq<ShownLine>, Refusal>(shown_lines(v@)),
            Err(e) => table_lines(c@, source@, table@.headers, table@.rows, table@.rows.len()) == Err::<Seq<ShownLine>, Refusal>(e@),
        },
{
    let ghost hs = table@.headers;
    let ghost rows = table@.rows;
    let mut lines: Vec<ParsedLine> = Vec::new();
    assert(shown_lines(lines@) =~= Seq::<ShownLine>::empty());
    let mut i: usize = 0;
    while i < table.rows.len()
        invariant
            i <= table.rows.len(),
            hs == table@.headers,
            rows == table@.rows,
            table_lines(c@, source@, hs, rows, i as nat) == Ok::<Seq<ShownLine>, Refusal>(shown_lines(lines@)),
        decreases table.rows.len() - i,
    {
        assert(rows[i as int] == texts(table.rows@[i as int]@));
        let mut line = match line_of(c, &table.headers, &table.rows[i], i) {
            Ok(l) => l,
            Err(e) => {
                proof {
                    lemma_lines_refused(c@, source@, hs, rows, (i + 1) as nat, rows.len());
                }
                return Err(e);
            },
        };
        let mut extra: Vec<ParsedLine> = Vec::new();
        assert(shown_lines(extra@) =~= Seq::<ShownLine>::empty());
        post_process(source, table, &table.rows[i], &mut line, &mut extra);
        let ghost before = shown_lines(lines@);
        let ghost shown = line@;
        lines.push(line);
        assert(shown_lines(lines@) =~= before.push(shown));
        let ghost added = shown_lines(extra@);
        let ghost was = lines@;
        let ghost more = extra@;
        lines.append(&mut extra);
        assert(lines@ =~= was + more);
        assert(shown_lines(lines@) =~= before.push(shown) + added);
        i = i + 1;
    }
    Ok(lines)
}

/// The columns of the first `n` further names that are found.
pub open spec fn further_of(hs: Seq<Seq<char>>, names: Seq<Seq<char>>, n: nat) -> Seq<int>
    decreases n,
{
    if n == 0 {
        Seq::empty()
    } else {
        let before = further_of(hs, names, (n - 1) as nat);
        match column_by(hs, names[n - 1]) {
            Some(i) => before.push(i),
            None => before,
        }
    }
}

/// Where the mapping's columns are in a table, or why they cannot be used.
pub open spec fn columns_of(m: ShownMapping, t: ShownTable) -> std::result::Result<ShownColumns, Refusal> {
    let hs = t.headers;
    let amount = column_by(hs, m.amount_column);
    let debit = column_by(hs, m.debit_column);
    let credit = column_by(hs, m.credit_column);
    match column_by(hs, m.date_column) {
        None => Err(Refusal::Parse("date column "@ + debug_text(m.date_column) + " not found"@)),
        Some(date) => if amount is None && debit is None && credit is None {
            Err(Refusal::Parse("an amount column (or debit/credit columns) is required"@))
        } else {
            Ok(
                ShownColumns {
                    date,
                    amount,
                    debit,
                    credit,
                    description: column_by(hs, m.description_column),
                    further: further_of(hs, m.extra_description_columns, m.extra_description_columns.len()),
                    reference: column_by(hs, m.reference_column),
                    balance: column_by(hs, m.balance_column),
                    currency: column_by(hs, m.currency_column),
                    date_format: if m.date_format.len() == 0 {
                        let vs = column_values(t.rows, date, t.rows.len());
                        format_of(signs_in(vs, vs.len()))
                    } else {
                        m.date_format
                    },
                    decimal_separator: if m.decimal_separator.len() == 0 {
                        column_separator(
                            column_values(
                                t.rows,
                                match amount {
                                    Some(i) => i,
                                    None => match debit {
                                        Some(i) => i,
                                        None => 0,
                                    },
                                },
                                t.rows.len(),
                            ),
                        )
                    } else {
                        m.decimal_separator[0]
                    },
                    invert_sign: m.invert_sign,
                    default_currency: uppered(trimmed(m.currency)),
                },
            )
        },
    }
}

fn further_columns(headers: &Vec<String>, names: &Vec<String>) -> (r: Vec<usize>)
    ensures
        as_places(r@) == further_of(texts(headers@), texts(names@), names@.len()),
{
    let ghost hs = texts(headers@);
    let ghost ns = texts(names@);
    let mut r: Vec<usize> = Vec::new();
    assert(as_places(r@) =~= Seq::<int>::empty());
    let mut i: usize = 0;
    while i < names.len()
        invariant
            i <= names.len(),
            hs == texts(headers@),
            ns == texts(names@),
            as_places(r@) == further_of(hs, ns, i as nat),
        decreases names.len() - i,
    {
        if let Some(p) = col_by_name(headers, names[i].as_str()) {
            let ghost before = as_places(r@);
            r.push(p);
            assert(as_places(r@) =~= before.push(p as int));
        }
        i = i + 1;
    }
    r
}

fn find_columns(m: &CsvMapping, table: &Table) -> (r: Result<Columns>)
    ensures
        match r {
            Ok(c) => columns_of(m@, table@) == Ok::<ShownColumns, Refusal>(c@),
            Err(e) => columns_of(m@, table@) == Err::<ShownColumns, Refusal>(e@),
        },
{
    let headers = &table.headers;
    let date = match col_by_name(headers, m.date_column.as_str()) {
        Some(i) => i,
        None => {
            return Err(unreadable(cat3("date column ", quoted(m.date_column.as_str()).as_str(), " not found").as_str()));
        },
    };
    let amount = col_by_name(headers, m.amount_column.as_str());
    let debit = col_by_name(headers, m.debit_column.as_str());
    let credit = col_by_name(headers, m.credit_column.as_str());
    if amount.is_none() && debit.is_none() && credit.is_none() {
        return Err(unreadable("an amount column (or debit/credit columns) is required"));
    }
    let date_format = if m.date_format.as_str().is_empty() {
        let vs = values_in(&table.rows, date);
        assert(str_texts(vs@).len() == vs@.len());
        detect_date_format(&vs)
    } else {
        own(m.date_format.as_str())
    };
    let decimal_separator: char = if m.decimal_separator.as_str().is_empty() {
        let column: usize = match amount {
            Some(i) => i,
            None => match debit {
                Some(i) => i,
                None => 0,
            },
        };
        detect_decimal_sep(&values_in(&table.rows, column))
    } else {
        chars(m.decimal_separator.as_str())[0]
    };
    let c = Columns {
        date,
        amount,
        debit,
        credit,
        description: col_by_name(headers, m.description_column.as_str()),
        further: further_columns(headers, &m.extra_description_columns),
        reference: col_by_name(headers, m.reference_column.as_str()),
        balance: col_by_name(headers, m.balance_column.as_str()),
        currency: col_by_name(headers, m.currency_column.as_str()),
        date_format,
        decimal_separator,
        invert_sign: m.invert_sign,
        default_currency: upper(trim(m.currency.as_str()).as_str()),
    };
    proof {
        assert(columns_of(m@, table@) is Ok);
        assert(c@ =~= columns_of(m@, table@)->Ok_0);
    }
    Ok(c)
}

/// The first rows as they are shown, at most eight.
pub open spec fn samples_of(rows: Seq<Seq<Seq<char>>>) -> Seq<Seq<char>> {
    Seq::new(
        if rows.len() < 8 {
            rows.len()
        } else {
            8
        },
        |i: int| joined(rows[i], " | "@),
    )
}

pub fn sample_rows(rows: &Vec<Vec<String>>) -> (r: Vec<String>)
    ensures
        texts(r@) == samples_of(cells(rows@)),
{
    let ghost rs = cells(rows@);
    let mut r: Vec<String> = Vec::new();
    let mut i: usize = 0;
    while i < rows.len() && i < 8
        invariant
            i <= rows.len(),
            i <= 8,
            rs == cells(rows@),
            r@.len() == i,
            texts(r@) =~= Seq::new(i as nat, |k: int| joined(rs[k], " | "@)),
        decreases rows.len() - i,
    {
        let ghost before = texts(r@);
        let s = join(&rows[i], " | ");
        r.push(s);
        assert(texts(r@) =~= before.push(s@));
        i = i + 1;
    }
    assert(texts(r@) =~= samples_of(rs));
    r
}

/// The currency of a file: that of the first line that has one.
pub open spec fn currency_in(ls: Seq<ShownLine>, i: int, default_currency: Seq<char>) -> Seq<char>
    decreases ls.len() - i,
{
    if i < 0 || i >= ls.len() {
        default_currency
    } else if ls[i].currency.len() > 0 {
        ls[i].currency
    } else {
        currency_in(ls, i + 1, default_currency)
    }
}

fn first_currency(lines: &Vec<ParsedLine>, default_currency: &str) -> (r: String)
    ensures
        r@ == currency_in(shown_lines(lines@), 0, default_currency@),
{
    let ghost ls = shown_lines(lines@);
    let mut i: usize = 0;
    while i < lines.len()
        invariant
            i <= lines.len(),
            ls == shown_lines(lines@),
            currency_in(ls, 0, default_currency@) == currency_in(ls, i as int, default_currency@),
        decreases lines.len() - i,
    {
        assert(ls[i as int] == lines@[i as int]@);
        if !lines[i].currency.as_str().is_empty() {
            return own(lines[i].currency.as_str());
        }
        i = i + 1;
    }
    own(default_currency)
}

/// The source that a table's rows are read by.
pub open spec fn effective(source: Seq<char>, hs: Seq<Seq<char>>) -> Seq<char> {
    if source == "generic_csv"@ || source.len() == 0 {
        recognised(hs)
    } else {
        source
    }
}

/// The format that the headers show.
pub open spec fn recognised(hs: Seq<Seq<char>>) -> Seq<char> {
    match detected(hs) {
        Some(s) => s,
        None => "generic_csv"@,
    }
}

/// The mapping that a table is read by: the one that is given, or that of its format.
pub open spec fn chosen_mapping(source: Seq<char>, hs: Seq<Seq<char>>, mapping: Option<ShownMapping>) -> ShownMapping {
    if mapping is Some && !unmapped(mapping->0) {
        mapping->0
    } else {
        match mapping_of(layout_of(effective(source, hs), hs), hs) {
            Some(m) => m,
            None => no_mapping(),
        }
    }
}

/// What a table holds.
pub open spec fn parse_of(source: Seq<char>, t: ShownTable, mapping: Option<ShownMapping>) -> std::result::Result<ShownParse, Refusal> {
    let m = chosen_mapping(source, t.headers, mapping);
    let start = ShownParse {
        headers: t.headers,
        sample_rows: samples_of(t.rows),
        detected_source: recognised(t.headers),
        ..no_parse()
    };
    if unmapped(m) {
        Ok(ShownParse { warnings: seq!["columns could not be recognised; map them by hand"@], ..start })
    } else {
        match columns_of(m, t) {
            Err(e) => Err(e),
            Ok(c) => match table_lines(c, effective(source, t.headers), t.headers, t.rows, t.rows.len()) {
                Err(e) => Err(e),
                Ok(ls) => Ok(
                    ShownParse {
                        lines: ls,
                        currency: currency_in(ls, 0, c.default_currency),
                        closing_balance: match last_balance(ls, ls.len()) {
                            Some((d, b)) => Some(b),
                            None => None,
                        },
                        closing_date: match last_balance(ls, ls.len()) {
                            Some((d, b)) => Some(d),
                            None => None,
                        },
                        period_from: earliest(ls, ls.len()),
                        period_to: latest(ls, ls.len()),
                        ..start
                    },
                ),
            },
        }
    }
}

pub open spec fn shown_mapping(m: Option<&CsvMapping>) -> Option<ShownMapping> {
    match m {
        Some(v) => Some(v@),
        None => None,
    }
}

/// Reads a table's rows as lines.
pub fn parse_rows(source: &str, table: &Table, mapping: Option<&CsvMapping>) -> (r: Result<ParseOutput>)
    ensures
        match r {
            Ok(p) => parse_of(source@, table@, shown_mapping(mapping)) == Ok::<ShownParse, Refusal>(p@),
            Err(e) => parse_of(source@, table@, shown_mapping(mapping)) == Err::<ShownParse, Refusal>(e@),
        },
{
    let ghost spec = parse_of(source@, table@, shown_mapping(mapping));
    let known: String = match detect(&table.headers) {
        Some(s) => own(s),
        None => own("generic_csv"),
    };
    let effective_source = if same(source, "generic_csv") || source.is_empty() {
        own(known.as_str())
    } else {
        own(source)
    };
    let given: Option<CsvMapping> = match mapping {
        Some(m) => if m.is_empty() {
            None
        } else {
            Some(m.copy())
        },
        None => None,
    };
    let m = match given {
        Some(m) => m,
        None => match mapping_for(effective_source.as_str(), &table.headers) {
            Some(m) => m,
            None => CsvMapping::empty(),
        },
    };
    assert(m@ == chosen_mapping(source@, table@.headers, shown_mapping(mapping)));
    let mut out = ParseOutput::empty();
    out.headers = copy_texts(&table.headers);
    out.sample_rows = sample_rows(&table.rows);
    out.detected_source = known;
    if m.is_empty() {
        let warning = own("columns could not be recognised; map them by hand");
        out.warnings.push(warning);
        assert(texts(out.warnings@) =~= seq!["columns could not be recognised; map them by hand"@]);
        assert(out@ =~= spec->Ok_0);
        return Ok(out);
    }
    let c = match find_columns(&m, table) {
        Ok(c) => c,
        Err(e) => {
            return Err(e);
        },
    };
    let lines = match read_rows(&c, effective_source.as_str(), table) {
        Ok(v) => v,
        Err(e) => {
            return Err(e);
        },
    };
    out.currency = first_currency(&lines, c.default_currency.as_str());
    if let Some((d, b)) = closing(&lines) {
        out.closing_balance = Some(b);
        out.closing_date = Some(d);
    }
    let (first, last) = period(&lines);
    out.period_from = first;
    out.period_to = last;
    out.lines = lines;
    assert(spec is Ok);
    assert(out@ =~= spec->Ok_0);
    Ok(out)
}

/// The delimiter that a file is read with, where it is not searched for.
pub open spec fn delimiter_for(source: Seq<char>, mapping: Option<ShownMapping>) -> Option<char> {
    if mapping is Some && (mapping->0).delimiter.len() > 0 && (mapping->0).delimiter[0] != ' ' {
        Some((mapping->0).delimiter[0])
    } else if source == "inter_csv"@ {
        Some(';')
    } else {
        None
    }
}

pub open spec fn header_row_for(mapping: Option<ShownMapping>) -> Option<nat> {
    if mapping is Some && (mapping->0).header_row > 0 {
        Some((mapping->0).header_row as nat)
    } else {
        None
    }
}

/// What a CSV file holds.
pub open spec fn parse_csv_of(source: Seq<char>, content: Seq<u8>, mapping: Option<ShownMapping>) -> std::result::Result<ShownParse, Refusal> {
    match table_in(text_in(content), delimiter_for(source, mapping), header_row_for(mapping)) {
        Err(e) => Err(e),
        Ok(t) => parse_of(source, t, mapping),
    }
}

pub fn parse_csv(source: &str, content: &[u8], mapping: Option<&CsvMapping>) -> (r: Result<ParseOutput>)
    ensures
        match r {
            Ok(p) => parse_csv_of(source@, content@, shown_mapping(mapping)) == Ok::<ShownParse, Refusal>(p@),
            Err(e) => parse_csv_of(source@, content@, shown_mapping(mapping)) == Err::<ShownParse, Refusal>(e@),
        },
{
    let text = decode(content);
    let mut delimiter: Option<char> = None;
    let mut header_row: Option<usize> = None;
    if let Some(m) = mapping {
        let cs = chars(m.delimiter.as_str());
        if cs.len() > 0 && cs[0] != ' ' {
            delimiter = Some(cs[0]);
        }
        if m.header_row > 0 {
            header_row = Some(m.header_row as usize);
        }
    }
    if delimiter.is_none() && same(source, "inter_csv") {
        delimiter = Some(';');
    }
    match parse_table(text.as_str(), delimiter, header_row) {
        Ok(t) => parse_rows(source, &t, mapping),
        Err(e) => Err(e),
    }
}

} // verus!
