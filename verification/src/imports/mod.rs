//! Imports: files in, statement lines kept verbatim, journal entries out.

pub mod account_tracker;
pub mod bank_api;
pub mod coverage;
pub mod csvkit;
pub mod delimited;
pub mod email;
pub mod enable_banking;
pub mod evidence;
pub mod inbox;
pub mod mercury;
pub mod ofx;
pub mod pipeline;
pub mod pluggy;
pub mod presets;
pub mod pulling;
pub mod rematch;
pub mod remessa;
pub mod rollback;
pub mod shapes;
pub mod statement;
pub mod wire;

use vstd::prelude::*;

use crate::codec::{json_string, json_text};
use crate::date::Date;
use crate::decimal::{view_of, Decimal, Num};
use crate::model::{meta_copy, meta_set, meta_without, MetaEntry, MetaValue};
use crate::text::{cat3, cat5, int_string, int_text, join, joined, own, same, texts};

verus! {

/// A value as JSON.
pub open spec fn value_text(v: MetaValue) -> Seq<char> {
    match v {
        MetaValue::Flag(b) => if b {
            "true"@
        } else {
            "false"@
        },
        MetaValue::Number(n) => int_text(n as int),
        MetaValue::Text(t) => json_text(t@),
        MetaValue::Value { quantity, commodity } => "{\"commodity\":"@ + json_text(commodity@) + ",\"quantity\":"@ + json_text(quantity@) + "}"@,
        MetaValue::Other(t) => t@,
    }
}

/// What a record holds, by name, each value as JSON.
pub open spec fn fields(m: Seq<MetaEntry>) -> Seq<(Seq<char>, Seq<char>)> {
    m.map_values(|e: MetaEntry| (e.key@, value_text(e.value)))
}

/// The fields with another name than `key`.
pub open spec fn fields_without(f: Seq<(Seq<char>, Seq<char>)>, key: Seq<char>) -> Seq<(Seq<char>, Seq<char>)>
    decreases f.len(),
{
    if f.len() == 0 {
        f
    } else if f.last().0 == key {
        fields_without(f.drop_last(), key)
    } else {
        fields_without(f.drop_last(), key).push(f.last())
    }
}

/// The fields with a value under `key` in place of what was there.
pub open spec fn fields_with(f: Seq<(Seq<char>, Seq<char>)>, key: Seq<char>, value: Seq<char>) -> Seq<(Seq<char>, Seq<char>)> {
    fields_without(f, key).push((key, value))
}

/// The first field with a name.
pub open spec fn field_at(f: Seq<(Seq<char>, Seq<char>)>, key: Seq<char>, i: int) -> Option<Seq<char>>
    decreases f.len() - i,
{
    if i < 0 || i >= f.len() {
        None
    } else if f[i].0 == key {
        Some(f[i].1)
    } else {
        field_at(f, key, i + 1)
    }
}

/// A field as JSON.
pub fn field(m: &Vec<MetaEntry>, key: &str) -> (r: Option<String>)
    ensures
        opt_text(r) == field_at(fields(m@), key@, 0),
{
    let ghost f = fields(m@);
    let mut i: usize = 0;
    while i < m.len()
        invariant
            i <= m.len(),
            f == fields(m@),
            field_at(f, key@, 0) == field_at(f, key@, i as int),
        decreases m.len() - i,
    {
        if same(m[i].key.as_str(), key) {
            return Some(value_string(&m[i].value));
        }
        i = i + 1;
    }
    None
}

/// The members of an object as JSON.
pub open spec fn member_texts(f: Seq<(Seq<char>, Seq<char>)>) -> Seq<Seq<char>> {
    f.map_values(|m: (Seq<char>, Seq<char>)| json_text(m.0) + ":"@ + m.1)
}

/// An object as JSON.
pub open spec fn object_text(f: Seq<(Seq<char>, Seq<char>)>) -> Seq<char> {
    "{"@ + joined(member_texts(f), ","@) + "}"@
}

proof fn lemma_fields_without(m: Seq<MetaEntry>, key: Seq<char>)
    ensures
        fields(meta_without(m, key)) == fields_without(fields(m), key),
    decreases m.len(),
{
    if m.len() > 0 {
        lemma_fields_without(m.drop_last(), key);
        assert(fields(m).drop_last() =~= fields(m.drop_last()));
        let rest = meta_without(m.drop_last(), key);
        assert(fields(rest.push(m.last())) =~= fields(rest).push(fields(m).last()));
    } else {
        assert(fields(meta_without(m, key)) =~= fields_without(fields(m), key));
    }
}

/// Puts a value under a name of a record.
pub fn put_field(m: &mut Vec<MetaEntry>, key: &str, value: MetaValue)
    ensures
        fields(final(m)@) == fields_with(fields(old(m)@), key@, value_text(value)),
{
    let ghost before = m@;
    let r = meta_set(m, key, value);
    proof {
        lemma_fields_without(before, key@);
        assert(fields(r@) =~= fields(r@.drop_last()).push((key@, value_text(value))));
    }
    *m = r;
}

pub fn value_string(v: &MetaValue) -> (r: String)
    ensures
        r@ == value_text(*v),
{
    match v {
        MetaValue::Flag(b) => if *b {
            own("true")
        } else {
            own("false")
        },
        MetaValue::Number(n) => int_string(*n),
        MetaValue::Text(t) => json_string(t.as_str()),
        MetaValue::Value { quantity, commodity } => cat5(
            "{\"commodity\":",
            json_string(commodity.as_str()).as_str(),
            ",\"quantity\":",
            json_string(quantity.as_str()).as_str(),
            "}",
        ),
        MetaValue::Other(t) => own(t.as_str()),
    }
}

/// A record as JSON.
pub fn object_string(m: &Vec<MetaEntry>) -> (r: String)
    ensures
        r@ == object_text(fields(m@)),
{
    let mut items: Vec<String> = Vec::new();
    let mut i: usize = 0;
    while i < m.len()
        invariant
            i <= m.len(),
            texts(items@) == member_texts(fields(m@)).take(i as int),
        decreases m.len() - i,
    {
        let ghost before = texts(items@);
        let item = cat3(json_string(m[i].key.as_str()).as_str(), ":", value_string(&m[i].value).as_str());
        items.push(item);
        assert(texts(items@) =~= before.push(item@));
        i = i + 1;
        assert(texts(items@) =~= member_texts(fields(m@)).take(i as int));
    }
    assert(texts(items@) =~= member_texts(fields(m@)));
    cat3("{", join(&items, ",").as_str(), "}")
}

/// A parsed record before it becomes a statement line.
#[derive(Debug)]
pub struct ParsedLine {
    pub date: Option<Date>,
    /// Signed as the bank shows it: positive is money in.
    pub amount: Option<Decimal>,
    pub currency: String,
    pub description: String,
    pub reference: String,
    pub balance_after: Option<Decimal>,
    pub raw: Vec<MetaEntry>,
    pub skip: Option<String>,
    pub original: Option<(Decimal, String)>,
}

#[verifier::ext_equal]
pub struct ShownLine {
    pub date: Option<Date>,
    pub amount: Option<Num>,
    pub currency: Seq<char>,
    pub description: Seq<char>,
    pub reference: Seq<char>,
    pub balance_after: Option<Num>,
    pub raw: Seq<(Seq<char>, Seq<char>)>,
    pub skip: Option<Seq<char>>,
    pub original: Option<(Num, Seq<char>)>,
}

pub open spec fn opt_text(t: Option<String>) -> Option<Seq<char>> {
    match t {
        Some(s) => Some(s@),
        None => None,
    }
}

pub open spec fn opt_value(v: Option<(Decimal, String)>) -> Option<(Num, Seq<char>)> {
    match v {
        Some((n, c)) => Some((n@, c@)),
        None => None,
    }
}

impl View for ParsedLine {
    type V = ShownLine;

    open spec fn view(&self) -> ShownLine {
        ShownLine {
            date: self.date,
            amount: view_of(self.amount),
            currency: self.currency@,
            description: self.description@,
            reference: self.reference@,
            balance_after: view_of(self.balance_after),
            raw: fields(self.raw@),
            skip: opt_text(self.skip),
            original: opt_value(self.original),
        }
    }
}

/// A record of which nothing is known.
pub open spec fn no_line() -> ShownLine {
    ShownLine {
        date: None,
        amount: None,
        currency: Seq::empty(),
        description: Seq::empty(),
        reference: Seq::empty(),
        balance_after: None,
        raw: Seq::empty(),
        skip: None,
        original: None,
    }
}

pub open spec fn shown_lines(v: Seq<ParsedLine>) -> Seq<ShownLine> {
    v.map_values(|l: ParsedLine| l@)
}

pub fn copy_text(t: &Option<String>) -> (r: Option<String>)
    ensures
        opt_text(r) == opt_text(*t),
{
    match t {
        Some(s) => Some(own(s.as_str())),
        None => None,
    }
}

impl ParsedLine {
    pub fn empty() -> (r: ParsedLine)
        ensures
            r@ == no_line(),
    {
        let r = ParsedLine {
            date: None,
            amount: None,
            currency: String::new(),
            description: String::new(),
            reference: String::new(),
            balance_after: None,
            raw: Vec::new(),
            skip: None,
            original: None,
        };
        assert(r@ =~= no_line());
        r
    }

    pub fn copy(&self) -> (r: ParsedLine)
        ensures
            r@ == self@,
    {
        let r = ParsedLine {
            date: self.date,
            amount: self.amount,
            currency: own(self.currency.as_str()),
            description: own(self.description.as_str()),
            reference: own(self.reference.as_str()),
            balance_after: self.balance_after,
            raw: meta_copy(&self.raw),
            skip: copy_text(&self.skip),
            original: match &self.original {
                Some(v) => Some((v.0, own(v.1.as_str()))),
                None => None,
            },
        };
        r
    }
}

/// What a file holds.
#[derive(Debug)]
pub struct ParseOutput {
    pub lines: Vec<ParsedLine>,
    pub headers: Vec<String>,
    pub sample_rows: Vec<String>,
    pub currency: String,
    pub opening_balance: Option<Decimal>,
    pub closing_balance: Option<Decimal>,
    pub closing_date: Option<Date>,
    pub period_from: Option<Date>,
    pub period_to: Option<Date>,
    pub detected_source: String,
    pub account_ref: String,
    pub warnings: Vec<String>,
    /// Records the parser refused outright, which therefore have no line of their own: a Pluggy
    /// transaction that is not settled yet. They are counted among the import's skipped ones.
    pub skipped_records: usize,
}

#[verifier::ext_equal]
pub struct ShownParse {
    pub lines: Seq<ShownLine>,
    pub headers: Seq<Seq<char>>,
    pub sample_rows: Seq<Seq<char>>,
    pub currency: Seq<char>,
    pub opening_balance: Option<Num>,
    pub closing_balance: Option<Num>,
    pub closing_date: Option<Date>,
    pub period_from: Option<Date>,
    pub period_to: Option<Date>,
    pub detected_source: Seq<char>,
    pub account_ref: Seq<char>,
    pub warnings: Seq<Seq<char>>,
    pub skipped_records: nat,
}

impl View for ParseOutput {
    type V = ShownParse;

    open spec fn view(&self) -> ShownParse {
        ShownParse {
            lines: shown_lines(self.lines@),
            headers: texts(self.headers@),
            sample_rows: texts(self.sample_rows@),
            currency: self.currency@,
            opening_balance: view_of(self.opening_balance),
            closing_balance: view_of(self.closing_balance),
            closing_date: self.closing_date,
            period_from: self.period_from,
            period_to: self.period_to,
            detected_source: self.detected_source@,
            account_ref: self.account_ref@,
            warnings: texts(self.warnings@),
            skipped_records: self.skipped_records as nat,
        }
    }
}

/// A file with nothing in it.
pub open spec fn no_parse() -> ShownParse {
    ShownParse {
        lines: Seq::empty(),
        headers: Seq::empty(),
        sample_rows: Seq::empty(),
        currency: Seq::empty(),
        opening_balance: None,
        closing_balance: None,
        closing_date: None,
        period_from: None,
        period_to: None,
        detected_source: Seq::empty(),
        account_ref: Seq::empty(),
        warnings: Seq::empty(),
        skipped_records: 0,
    }
}

impl ParseOutput {
    pub fn empty() -> (r: ParseOutput)
        ensures
            r@ == no_parse(),
            r.lines@.len() == 0,
    {
        let r = ParseOutput {
            lines: Vec::new(),
            headers: Vec::new(),
            sample_rows: Vec::new(),
            currency: String::new(),
            opening_balance: None,
            closing_balance: None,
            closing_date: None,
            period_from: None,
            period_to: None,
            detected_source: String::new(),
            account_ref: String::new(),
            warnings: Vec::new(),
            skipped_records: 0,
        };
        assert(r@ =~= no_parse());
        r
    }
}

/// The earliest date of the first `n` lines that count.
pub open spec fn earliest(ls: Seq<ShownLine>, n: nat) -> Option<Date>
    decreases n,
{
    if n == 0 {
        None
    } else {
        let best = earliest(ls, (n - 1) as nat);
        let l = ls[n - 1];
        match l.date {
            Some(d) => if l.skip is None && (best is None || d.before(best->0)) {
                Some(d)
            } else {
                best
            },
            None => best,
        }
    }
}

/// The latest date of the first `n` lines that count.
pub open spec fn latest(ls: Seq<ShownLine>, n: nat) -> Option<Date>
    decreases n,
{
    if n == 0 {
        None
    } else {
        let best = latest(ls, (n - 1) as nat);
        let l = ls[n - 1];
        match l.date {
            Some(d) => if l.skip is None && (best is None || (best->0).before(d)) {
                Some(d)
            } else {
                best
            },
            None => best,
        }
    }
}

/// The balance after the last of the first `n` lines that count and have one, by their dates and
/// then by their order.
pub open spec fn last_balance(ls: Seq<ShownLine>, n: nat) -> Option<(Date, Num)>
    decreases n,
{
    if n == 0 {
        None
    } else {
        let best = last_balance(ls, (n - 1) as nat);
        let l = ls[n - 1];
        match (l.date, l.balance_after) {
            (Some(d), Some(b)) => if l.skip is None && (best is None || !d.before((best->0).0)) {
                Some((d, b))
            } else {
                best
            },
            _ => best,
        }
    }
}

/// The period of lines starts on a day of one of those that count, and no other is before it; it ends on
/// one, and no other is after it.
pub proof fn law_period_covers(ls: Seq<ShownLine>, n: nat)
    requires
        n <= ls.len(),
    ensures
        forall|i: int|
            0 <= i < n && (#[trigger] ls[i]).skip is None && ls[i].date is Some ==> earliest(ls, n) is Some && latest(ls, n) is Some && !(
            ls[i].date->0).before(earliest(ls, n)->0) && !(latest(ls, n)->0).before(ls[i].date->0),
        earliest(ls, n) is Some ==> exists|i: int| 0 <= i < n && (#[trigger] ls[i]).skip is None && ls[i].date == earliest(ls, n),
        latest(ls, n) is Some ==> exists|i: int| 0 <= i < n && (#[trigger] ls[i]).skip is None && ls[i].date == latest(ls, n),
    decreases n,
{
    if n > 0 {
        let m = (n - 1) as nat;
        law_period_covers(ls, m);
        if earliest(ls, n) is Some {
            if earliest(ls, n) == earliest(ls, m) {
                let i = choose|i: int| 0 <= i < m && (#[trigger] ls[i]).skip is None && ls[i].date == earliest(ls, m);
                assert(ls[i].date == earliest(ls, n) && i < n);
            } else {
                assert(ls[n - 1].date == earliest(ls, n));
            }
        }
        if latest(ls, n) is Some {
            if latest(ls, n) == latest(ls, m) {
                let i = choose|i: int| 0 <= i < m && (#[trigger] ls[i]).skip is None && ls[i].date == latest(ls, m);
                assert(ls[i].date == latest(ls, n) && i < n);
            } else {
                assert(ls[n - 1].date == latest(ls, n));
            }
        }
    }
}

/// The closing balance is that of a line that counts: no line that counts and has a balance is on a later
/// day, or stands behind it on the same day.
pub proof fn law_closing_is_last(ls: Seq<ShownLine>, n: nat)
    requires
        n <= ls.len(),
    ensures
        match last_balance(ls, n) {
            Some((d, b)) => exists|k: int|
                0 <= k < n && (#[trigger] ls[k]).skip is None && ls[k].date == Some(d) && ls[k].balance_after == Some(b) && forall|i: int|
                    0 <= i < n && (#[trigger] ls[i]).skip is None && ls[i].date is Some && ls[i].balance_after is Some ==> !d.before(
                        ls[i].date->0,
                    ) && (i > k ==> (ls[i].date->0).before(d)),
            None => forall|i: int| 0 <= i < n && (#[trigger] ls[i]).skip is None && ls[i].date is Some ==> ls[i].balance_after is None,
        },
    decreases n,
{
    if n > 0 {
        let m = (n - 1) as nat;
        law_closing_is_last(ls, m);
        if let Some((d, b)) = last_balance(ls, n) {
            let l = ls[n - 1];
            if l.skip is None && l.date == Some(d) && l.balance_after == Some(b) {
                assert(ls[n - 1].skip is None);
            } else {
                let k = choose|k: int|
                    0 <= k < m && (#[trigger] ls[k]).skip is None && ls[k].date == Some(d) && ls[k].balance_after == Some(b) && forall|i: int|
                        0 <= i < m && (#[trigger] ls[i]).skip is None && ls[i].date is Some && ls[i].balance_after is Some ==> !d.before(
                            ls[i].date->0,
                        ) && (i > k ==> (ls[i].date->0).before(d));
                assert(ls[k].skip is None && k < n);
            }
        }
    }
}

/// The period that lines cover.
pub fn period(lines: &Vec<ParsedLine>) -> (r: (Option<Date>, Option<Date>))
    ensures
        r.0 == earliest(shown_lines(lines@), lines@.len()),
        r.1 == latest(shown_lines(lines@), lines@.len()),
{
    let ghost ls = shown_lines(lines@);
    let mut first: Option<Date> = None;
    let mut last: Option<Date> = None;
    let mut i: usize = 0;
    while i < lines.len()
        invariant
            i <= lines.len(),
            ls == shown_lines(lines@),
            first == earliest(ls, i as nat),
            last == latest(ls, i as nat),
        decreases lines.len() - i,
    {
        assert(ls[i as int] == lines@[i as int]@);
        if lines[i].skip.is_none() {
            if let Some(d) = lines[i].date {
                let earlier = match first {
                    Some(f) => d.is_before(f),
                    None => true,
                };
                if earlier {
                    first = Some(d);
                }
                let later = match last {
                    Some(f) => f.is_before(d),
                    None => true,
                };
                if later {
                    last = Some(d);
                }
            }
        }
        i = i + 1;
    }
    (first, last)
}

/// The closing balance that lines show.
pub fn closing(lines: &Vec<ParsedLine>) -> (r: Option<(Date, Decimal)>)
    ensures
        match r {
            Some((d, b)) => last_balance(shown_lines(lines@), lines@.len()) == Some((d, b@)),
            None => last_balance(shown_lines(lines@), lines@.len()) is None,
        },
{
    let ghost ls = shown_lines(lines@);
    let mut best: Option<(Date, Decimal)> = None;
    let mut i: usize = 0;
    while i < lines.len()
        invariant
            i <= lines.len(),
            ls == shown_lines(lines@),
            match best {
                Some((d, b)) => last_balance(ls, i as nat) == Some((d, b@)),
                None => last_balance(ls, i as nat) is None,
            },
        decreases lines.len() - i,
    {
        assert(ls[i as int] == lines@[i as int]@);
        if lines[i].skip.is_none() {
            if let (Some(d), Some(b)) = (lines[i].date, lines[i].balance_after) {
                let later = match best {
                    Some(v) => !d.is_before(v.0),
                    None => true,
                };
                if later {
                    best = Some((d, b));
                }
            }
        }
        i = i + 1;
    }
    best
}

/// Column mapping for CSV files.
#[derive(Debug)]
pub struct CsvMapping {
    pub delimiter: String,
    pub header_row: i32,
    pub date_column: String,
    pub date_format: String,
    pub amount_column: String,
    pub debit_column: String,
    pub credit_column: String,
    pub description_column: String,
    pub reference_column: String,
    pub balance_column: String,
    pub currency_column: String,
    pub decimal_separator: String,
    pub invert_sign: bool,
    pub currency: String,
    pub extra_description_columns: Vec<String>,
}

#[verifier::ext_equal]
pub struct ShownMapping {
    pub delimiter: Seq<char>,
    pub header_row: int,
    pub date_column: Seq<char>,
    pub date_format: Seq<char>,
    pub amount_column: Seq<char>,
    pub debit_column: Seq<char>,
    pub credit_column: Seq<char>,
    pub description_column: Seq<char>,
    pub reference_column: Seq<char>,
    pub balance_column: Seq<char>,
    pub currency_column: Seq<char>,
    pub decimal_separator: Seq<char>,
    pub invert_sign: bool,
    pub currency: Seq<char>,
    pub extra_description_columns: Seq<Seq<char>>,
}

impl View for CsvMapping {
    type V = ShownMapping;

    open spec fn view(&self) -> ShownMapping {
        ShownMapping {
            delimiter: self.delimiter@,
            header_row: self.header_row as int,
            date_column: self.date_column@,
            date_format: self.date_format@,
            amount_column: self.amount_column@,
            debit_column: self.debit_column@,
            credit_column: self.credit_column@,
            description_column: self.description_column@,
            reference_column: self.reference_column@,
            balance_column: self.balance_column@,
            currency_column: self.currency_column@,
            decimal_separator: self.decimal_separator@,
            invert_sign: self.invert_sign,
            currency: self.currency@,
            extra_description_columns: texts(self.extra_description_columns@),
        }
    }
}

/// A mapping that names no column.
pub open spec fn no_mapping() -> ShownMapping {
    ShownMapping {
        delimiter: Seq::empty(),
        header_row: 0,
        date_column: Seq::empty(),
        date_format: Seq::empty(),
        amount_column: Seq::empty(),
        debit_column: Seq::empty(),
        credit_column: Seq::empty(),
        description_column: Seq::empty(),
        reference_column: Seq::empty(),
        balance_column: Seq::empty(),
        currency_column: Seq::empty(),
        decimal_separator: Seq::empty(),
        invert_sign: false,
        currency: Seq::empty(),
        extra_description_columns: Seq::empty(),
    }
}

/// Whether a mapping names neither a date nor an amount.
pub open spec fn unmapped(m: ShownMapping) -> bool {
    m.date_column.len() == 0 && m.amount_column.len() == 0 && m.debit_column.len() == 0
}

pub fn copy_texts(v: &Vec<String>) -> (r: Vec<String>)
    ensures
        texts(r@) == texts(v@),
{
    let mut r: Vec<String> = Vec::new();
    let mut i: usize = 0;
    while i < v.len()
        invariant
            i <= v.len(),
            texts(r@) == texts(v@).take(i as int),
        decreases v.len() - i,
    {
        let ghost before = texts(r@);
        let t = own(v[i].as_str());
        r.push(t);
        assert(texts(r@) =~= before.push(t@));
        i = i + 1;
        assert(texts(r@) =~= texts(v@).take(i as int));
    }
    assert(texts(r@) =~= texts(v@));
    r
}

impl CsvMapping {
    pub fn empty() -> (r: CsvMapping)
        ensures
            r@ == no_mapping(),
    {
        let r = CsvMapping {
            delimiter: String::new(),
            header_row: 0,
            date_column: String::new(),
            date_format: String::new(),
            amount_column: String::new(),
            debit_column: String::new(),
            credit_column: String::new(),
            description_column: String::new(),
            reference_column: String::new(),
            balance_column: String::new(),
            currency_column: String::new(),
            decimal_separator: String::new(),
            invert_sign: false,
            currency: String::new(),
            extra_description_columns: Vec::new(),
        };
        assert(r@ =~= no_mapping());
        r
    }

    pub fn is_empty(&self) -> (r: bool)
        ensures
            r == unmapped(self@),
    {
        self.date_column.as_str().is_empty() && self.amount_column.as_str().is_empty() && self.debit_column.as_str().is_empty()
    }

    pub fn copy(&self) -> (r: CsvMapping)
        ensures
            r@ == self@,
    {
        CsvMapping {
            delimiter: own(self.delimiter.as_str()),
            header_row: self.header_row,
            date_column: own(self.date_column.as_str()),
            date_format: own(self.date_format.as_str()),
            amount_column: own(self.amount_column.as_str()),
            debit_column: own(self.debit_column.as_str()),
            credit_column: own(self.credit_column.as_str()),
            description_column: own(self.description_column.as_str()),
            reference_column: own(self.reference_column.as_str()),
            balance_column: own(self.balance_column.as_str()),
            currency_column: own(self.currency_column.as_str()),
            decimal_separator: own(self.decimal_separator.as_str()),
            invert_sign: self.invert_sign,
            currency: own(self.currency.as_str()),
            extra_description_columns: copy_texts(&self.extra_description_columns),
        }
    }
}

} // verus!
