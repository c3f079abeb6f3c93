//! Records as JSON documents, as tokens and the log of changes write them.

use vstd::prelude::*;
use vstd::utf8::encode_utf8;

use crate::codec::{hex_string, hex_text, json_string, json_text, sha256, sha256_of};
use crate::date::{iso, iso_text, Date};
use crate::decimal::{decimal_text, Decimal, Num};
use crate::imports::{fields, member_texts, object_string, object_text};
use crate::model::{status_text, type_text, JournalEntry, Posting, Rule, RuleCondition, StatementLine};
use crate::money::{Amount, Money};
use crate::text::{cat3, glue, glued, int_string, int_text, join, joined, nat_string, nat_text, own, str_texts, texts};

verus! {

/// How an amount is written: its count, its commodity and its precision.
pub open spec fn money_text(a: Amount) -> Seq<char> {
    glued(
        seq!["{\"minor\":"@, json_text(int_text(a.minor)), ",\"commodity\":"@, json_text(a.commodity), ",\"precision\":"@, nat_text(a.precision), "}"@],
    )
}

pub fn money_string(m: &Money) -> (r: String)
    ensures
        r@ == money_text(m@),
{
    let minor = json_string(int_string(m.minor()).as_str());
    let commodity = json_string(m.commodity().as_str());
    let precision = nat_string(m.precision() as u128);
    let v: Vec<&str> = vec!["{\"minor\":", minor.as_str(), ",\"commodity\":", commodity.as_str(), ",\"precision\":", precision.as_str(), "}"];
    assert(str_texts(v@) =~= seq!["{\"minor\":"@, minor@, ",\"commodity\":"@, commodity@, ",\"precision\":"@, precision@, "}"@]);
    glue(&v)
}

pub open spec fn opt_id_text(id: Option<i64>) -> Seq<char> {
    match id {
        Some(n) => int_text(n as int),
        None => "null"@,
    }
}

pub fn opt_id_string(id: Option<i64>) -> (r: String)
    ensures
        r@ == opt_id_text(id),
{
    match id {
        Some(n) => int_string(n),
        None => own("null"),
    }
}

pub open spec fn opt_json_text(t: Option<Seq<char>>) -> Seq<char> {
    match t {
        Some(s) => json_text(s),
        None => "null"@,
    }
}

pub fn opt_json_string(t: &Option<String>) -> (r: String)
    ensures
        r@ == opt_json_text(crate::imports::opt_text(*t)),
{
    match t {
        Some(s) => json_string(s.as_str()),
        None => own("null"),
    }
}

/// Members with names and values, as a contract sees them.
pub open spec fn members(v: Seq<(&str, String)>) -> Seq<(Seq<char>, Seq<char>)> {
    v.map_values(|m: (&str, String)| (m.0@, m.1@))
}

/// An object with the members, in their order.
pub fn object(v: &Vec<(&str, String)>) -> (r: String)
    ensures
        r@ == object_text(members(v@)),
{
    let ghost all = member_texts(members(v@));
    let mut items: Vec<String> = Vec::new();
    let mut i: usize = 0;
    while i < v.len()
        invariant
            i <= v.len(),
            all == member_texts(members(v@)),
            texts(items@) == all.take(i as int),
        decreases v.len() - i,
    {
        let ghost before = texts(items@);
        let item = cat3(json_string(v[i].0).as_str(), ":", v[i].1.as_str());
        items.push(item);
        assert(texts(items@) =~= before.push(item@));
        i = i + 1;
        assert(texts(items@) =~= all.take(i as int));
    }
    assert(texts(items@) =~= all);
    cat3("{", join(&items, ",").as_str(), "}")
}

/// Members whose names are texts of their own, as a contract sees them.
pub open spec fn pairs(v: Seq<(String, String)>) -> Seq<(Seq<char>, Seq<char>)> {
    v.map_values(|m: (String, String)| (m.0@, m.1@))
}

pub fn object_of(v: &Vec<(String, String)>) -> (r: String)
    ensures
        r@ == object_text(pairs(v@)),
{
    let ghost all = member_texts(pairs(v@));
    let mut items: Vec<String> = Vec::new();
    let mut i: usize = 0;
    while i < v.len()
        invariant
            i <= v.len(),
            all == member_texts(pairs(v@)),
            texts(items@) == all.take(i as int),
        decreases v.len() - i,
    {
        let ghost before = texts(items@);
        let item = cat3(json_string(v[i].0.as_str()).as_str(), ":", v[i].1.as_str());
        items.push(item);
        assert(texts(items@) =~= before.push(item@));
        i = i + 1;
        assert(texts(items@) =~= all.take(i as int));
    }
    assert(texts(items@) =~= all);
    cat3("{", join(&items, ",").as_str(), "}")
}

/// A list of values.
pub open spec fn list_text(v: Seq<Seq<char>>) -> Seq<char> {
    "["@ + joined(v, ","@) + "]"@
}

pub fn list(v: &Vec<String>) -> (r: String)
    ensures
        r@ == list_text(texts(v@)),
{
    cat3("[", join(v, ",").as_str(), "]")
}

/// A list of texts.
pub open spec fn quoted_texts(v: Seq<Seq<char>>) -> Seq<Seq<char>> {
    v.map_values(|t: Seq<char>| json_text(t))
}

pub fn text_list(v: &Vec<String>) -> (r: String)
    ensures
        r@ == list_text(quoted_texts(texts(v@))),
{
    let ghost all = quoted_texts(texts(v@));
    let mut items: Vec<String> = Vec::new();
    let mut i: usize = 0;
    while i < v.len()
        invariant
            i <= v.len(),
            all == quoted_texts(texts(v@)),
            texts(items@) == all.take(i as int),
        decreases v.len() - i,
    {
        let ghost before = texts(items@);
        let item = json_string(v[i].as_str());
        items.push(item);
        assert(texts(items@) =~= before.push(item@));
        i = i + 1;
        assert(texts(items@) =~= all.take(i as int));
    }
    assert(texts(items@) =~= all);
    list(&items)
}

pub open spec fn flag_text(b: bool) -> Seq<char> {
    if b {
        "true"@
    } else {
        "false"@
    }
}

pub fn flag(b: bool) -> (r: String)
    ensures
        r@ == flag_text(b),
{
    if b {
        own("true")
    } else {
        own("false")
    }
}

pub open spec fn opt_day_text(d: Option<Date>) -> Seq<char> {
    match d {
        Some(x) => json_text(iso_text(x)),
        None => "null"@,
    }
}

pub fn opt_day(d: Option<Date>) -> (r: String)
    ensures
        r@ == opt_day_text(d),
{
    match d {
        Some(x) => json_string(iso(x).as_str()),
        None => own("null"),
    }
}

pub open spec fn opt_number_text(n: Option<Num>) -> Seq<char> {
    match n {
        Some(x) => json_text(decimal_text(x)),
        None => "null"@,
    }
}

pub fn opt_number(n: Option<Decimal>) -> (r: String)
    ensures
        r@ == opt_number_text(crate::decimal::view_of(n)),
{
    match n {
        Some(x) => json_string(x.text().as_str()),
        None => own("null"),
    }
}

pub open spec fn opt_money_text(m: Option<Money>) -> Seq<char> {
    match m {
        Some(x) => money_text(x@),
        None => "null"@,
    }
}

pub fn opt_money(m: &Option<Money>) -> (r: String)
    ensures
        r@ == opt_money_text(*m),
{
    match m {
        Some(x) => money_string(x),
        None => own("null"),
    }
}

/// The token of a text: the hexadecimal digits of its digest.
pub open spec fn token_text(s: Seq<char>) -> Seq<char> {
    hex_text(sha256_of(encode_utf8(s)))
}

pub fn token_of_text(s: &str) -> (r: String)
    ensures
        r@ == token_text(s@),
{
    hex_string(&sha256(s.as_bytes()))
}

/// A posting.
pub open spec fn posting_document(p: Posting) -> Seq<char> {
    object_text(
        seq![
            ("id"@, int_text(p.id as int)),
            ("uid"@, json_text(p.uid@)),
            ("journal_entry_id"@, int_text(p.journal_entry_id as int)),
            ("account_id"@, int_text(p.account_id as int)),
            ("account_path"@, json_text(p.account_path@)),
            ("account_type"@, json_text(type_text(p.account_type))),
            ("quantity"@, money_text(p.quantity@)),
            ("amount"@, money_text(p.amount@)),
            ("rate"@, opt_number_text(crate::decimal::view_of(p.rate))),
            ("rate_source"@, json_text(p.rate_source@)),
            ("memo"@, json_text(p.memo@)),
            ("metadata"@, object_text(fields(p.metadata@))),
            ("external_id"@, opt_json_text(crate::imports::opt_text(p.external_id))),
            ("fingerprint"@, opt_json_text(crate::imports::opt_text(p.fingerprint))),
            ("reconciled_at"@, opt_json_text(crate::imports::opt_text(p.reconciled_at))),
            ("position"@, int_text(p.position as int)),
        ],
    )
}

pub fn posting_string(p: &Posting) -> (r: String)
    ensures
        r@ == posting_document(*p),
{
    let v: Vec<(&str, String)> = vec![
        ("id", int_string(p.id as i64)),
        ("uid", json_string(p.uid.as_str())),
        ("journal_entry_id", int_string(p.journal_entry_id as i64)),
        ("account_id", int_string(p.account_id as i64)),
        ("account_path", json_string(p.account_path.as_str())),
        ("account_type", json_string(p.account_type.as_str())),
        ("quantity", money_string(&p.quantity)),
        ("amount", money_string(&p.amount)),
        ("rate", opt_number(p.rate)),
        ("rate_source", json_string(p.rate_source.as_str())),
        ("memo", json_string(p.memo.as_str())),
        ("metadata", object_string(&p.metadata)),
        ("external_id", opt_json_string(&p.external_id)),
        ("fingerprint", opt_json_string(&p.fingerprint)),
        ("reconciled_at", opt_json_string(&p.reconciled_at)),
        ("position", int_string(p.position as i64)),
    ];
    assert(members(v@) =~= seq![
            ("id"@, int_text(p.id as int)),
            ("uid"@, json_text(p.uid@)),
            ("journal_entry_id"@, int_text(p.journal_entry_id as int)),
            ("account_id"@, int_text(p.account_id as int)),
            ("account_path"@, json_text(p.account_path@)),
            ("account_type"@, json_text(type_text(p.account_type))),
            ("quantity"@, money_text(p.quantity@)),
            ("amount"@, money_text(p.amount@)),
            ("rate"@, opt_number_text(crate::decimal::view_of(p.rate))),
            ("rate_source"@, json_text(p.rate_source@)),
            ("memo"@, json_text(p.memo@)),
            ("metadata"@, object_text(fields(p.metadata@))),
            ("external_id"@, opt_json_text(crate::imports::opt_text(p.external_id))),
            ("fingerprint"@, opt_json_text(crate::imports::opt_text(p.fingerprint))),
            ("reconciled_at"@, opt_json_text(crate::imports::opt_text(p.reconciled_at))),
            ("position"@, int_text(p.position as int)),
    ]);
    object(&v)
}

pub open spec fn posting_documents(v: Seq<Posting>) -> Seq<Seq<char>> {
    v.map_values(|x: Posting| posting_document(x))
}

pub fn posting_strings(v: &[Posting]) -> (r: Vec<String>)
    ensures
        texts(r@) == posting_documents(v@),
{
    let mut r: Vec<String> = Vec::new();
    let mut i: usize = 0;
    while i < v.len()
        invariant
            i <= v.len(),
            texts(r@) == posting_documents(v@).take(i as int),
        decreases v.len() - i,
    {
        let ghost before = texts(r@);
        let t = posting_string(&v[i]);
        r.push(t);
        assert(texts(r@) =~= before.push(t@));
        i = i + 1;
        assert(texts(r@) =~= posting_documents(v@).take(i as int));
    }
    assert(texts(r@) =~= posting_documents(v@));
    r
}

/// A posting without what storing it stamps on it.
pub open spec fn bare_posting_document(p: Posting) -> Seq<char> {
    object_text(
        seq![
            ("id"@, int_text(p.id as int)),
            ("journal_entry_id"@, int_text(p.journal_entry_id as int)),
            ("account_id"@, int_text(p.account_id as int)),
            ("account_path"@, json_text(p.account_path@)),
            ("account_type"@, json_text(type_text(p.account_type))),
            ("quantity"@, money_text(p.quantity@)),
            ("amount"@, money_text(p.amount@)),
            ("rate"@, opt_number_text(crate::decimal::view_of(p.rate))),
            ("rate_source"@, json_text(p.rate_source@)),
            ("memo"@, json_text(p.memo@)),
            ("metadata"@, object_text(fields(p.metadata@))),
            ("external_id"@, opt_json_text(crate::imports::opt_text(p.external_id))),
            ("fingerprint"@, opt_json_text(crate::imports::opt_text(p.fingerprint))),
            ("reconciled_at"@, opt_json_text(crate::imports::opt_text(p.reconciled_at))),
            ("position"@, int_text(p.position as int)),
        ],
    )
}

pub fn bare_posting_string(p: &Posting) -> (r: String)
    ensures
        r@ == bare_posting_document(*p),
{
    let v: Vec<(&str, String)> = vec![
        ("id", int_string(p.id as i64)),
        ("journal_entry_id", int_string(p.journal_entry_id as i64)),
        ("account_id", int_string(p.account_id as i64)),
        ("account_path", json_string(p.account_path.as_str())),
        ("account_type", json_string(p.account_type.as_str())),
        ("quantity", money_string(&p.quantity)),
        ("amount", money_string(&p.amount)),
        ("rate", opt_number(p.rate)),
        ("rate_source", json_string(p.rate_source.as_str())),
        ("memo", json_string(p.memo.as_str())),
        ("metadata", object_string(&p.metadata)),
        ("external_id", opt_json_string(&p.external_id)),
        ("fingerprint", opt_json_string(&p.fingerprint)),
        ("reconciled_at", opt_json_string(&p.reconciled_at)),
        ("position", int_string(p.position as i64)),
    ];
    assert(members(v@) =~= seq![
            ("id"@, int_text(p.id as int)),
            ("journal_entry_id"@, int_text(p.journal_entry_id as int)),
            ("account_id"@, int_text(p.account_id as int)),
            ("account_path"@, json_text(p.account_path@)),
            ("account_type"@, json_text(type_text(p.account_type))),
            ("quantity"@, money_text(p.quantity@)),
            ("amount"@, money_text(p.amount@)),
            ("rate"@, opt_number_text(crate::decimal::view_of(p.rate))),
            ("rate_source"@, json_text(p.rate_source@)),
            ("memo"@, json_text(p.memo@)),
            ("metadata"@, object_text(fields(p.metadata@))),
            ("external_id"@, opt_json_text(crate::imports::opt_text(p.external_id))),
            ("fingerprint"@, opt_json_text(crate::imports::opt_text(p.fingerprint))),
            ("reconciled_at"@, opt_json_text(crate::imports::opt_text(p.reconciled_at))),
            ("position"@, int_text(p.position as int)),
    ]);
    object(&v)
}

pub open spec fn bare_posting_documents(v: Seq<Posting>) -> Seq<Seq<char>> {
    v.map_values(|x: Posting| bare_posting_document(x))
}

pub fn bare_posting_strings(v: &[Posting]) -> (r: Vec<String>)
    ensures
        texts(r@) == bare_posting_documents(v@),
{
    let mut r: Vec<String> = Vec::new();
    let mut i: usize = 0;
    while i < v.len()
        invariant
            i <= v.len(),
            texts(r@) == bare_posting_documents(v@).take(i as int),
        decreases v.len() - i,
    {
        let ghost before = texts(r@);
        let t = bare_posting_string(&v[i]);
        r.push(t);
        assert(texts(r@) =~= before.push(t@));
        i = i + 1;
        assert(texts(r@) =~= bare_posting_documents(v@).take(i as int));
    }
    assert(texts(r@) =~= bare_posting_documents(v@));
    r
}

/// An entry with its postings.
pub open spec fn entry_document(e: JournalEntry) -> Seq<char> {
    object_text(
        seq![
            ("id"@, int_text(e.id as int)),
            ("uid"@, json_text(e.uid@)),
            ("entity_id"@, int_text(e.entity_id as int)),
            ("date"@, json_text(iso_text(e.date))),
            ("payee"@, json_text(e.payee@)),
            ("payee_id"@, opt_id_text(e.payee_id)),
            ("display_payee"@, json_text(e.display_payee@)),
            ("description"@, json_text(e.description@)),
            ("notes"@, json_text(e.notes@)),
            ("status"@, json_text(status_text(e.status))),
            ("reverses_id"@, opt_id_text(e.reverses_id)),
            ("reversed_by_id"@, opt_id_text(e.reversed_by_id)),
            ("refund_of_id"@, opt_id_text(e.refund_of_id)),
            ("counterpart_id"@, opt_id_text(e.counterpart_id)),
            ("template_id"@, opt_id_text(e.template_id)),
            ("template_version"@, opt_id_text(e.template_version)),
            ("origin"@, json_text(e.origin@)),
            ("posted_at"@, opt_json_text(crate::imports::opt_text(e.posted_at))),
            ("created_at"@, json_text(e.created_at@)),
            ("seq"@, opt_id_text(e.seq)),
            ("hash"@, opt_json_text(crate::imports::opt_text(e.hash))),
            ("postings"@, list_text(posting_documents(e.postings@))),
            ("statement_line_id"@, opt_id_text(e.statement_line_id)),
            ("tags"@, list_text(quoted_texts(texts(e.tags@)))),
            ("reviewed_at"@, opt_json_text(crate::imports::opt_text(e.reviewed_at))),
        ],
    )
}

pub fn entry_string(e: &JournalEntry) -> (r: String)
    ensures
        r@ == entry_document(*e),
{
    let v: Vec<(&str, String)> = vec![
        ("id", int_string(e.id as i64)),
        ("uid", json_string(e.uid.as_str())),
        ("entity_id", int_string(e.entity_id as i64)),
        ("date", json_string(iso(e.date).as_str())),
        ("payee", json_string(e.payee.as_str())),
        ("payee_id", opt_id_string(e.payee_id)),
        ("display_payee", json_string(e.display_payee.as_str())),
        ("description", json_string(e.description.as_str())),
        ("notes", json_string(e.notes.as_str())),
        ("status", json_string(e.status.as_str())),
        ("reverses_id", opt_id_string(e.reverses_id)),
        ("reversed_by_id", opt_id_string(e.reversed_by_id)),
        ("refund_of_id", opt_id_string(e.refund_of_id)),
        ("counterpart_id", opt_id_string(e.counterpart_id)),
        ("template_id", opt_id_string(e.template_id)),
        ("template_version", opt_id_string(e.template_version)),
        ("origin", json_string(e.origin.as_str())),
        ("posted_at", opt_json_string(&e.posted_at)),
        ("created_at", json_string(e.created_at.as_str())),
        ("seq", opt_id_string(e.seq)),
        ("hash", opt_json_string(&e.hash)),
        ("postings", list(&posting_strings(e.postings.as_slice()))),
        ("statement_line_id", opt_id_string(e.statement_line_id)),
        ("tags", text_list(&e.tags)),
        ("reviewed_at", opt_json_string(&e.reviewed_at)),
    ];
    assert(members(v@) =~= seq![
            ("id"@, int_text(e.id as int)),
            ("uid"@, json_text(e.uid@)),
            ("entity_id"@, int_text(e.entity_id as int)),
            ("date"@, json_text(iso_text(e.date))),
            ("payee"@, json_text(e.payee@)),
            ("payee_id"@, opt_id_text(e.payee_id)),
            ("display_payee"@, json_text(e.display_payee@)),
            ("description"@, json_text(e.description@)),
            ("notes"@, json_text(e.notes@)),
            ("status"@, json_text(status_text(e.status))),
            ("reverses_id"@, opt_id_text(e.reverses_id)),
            ("reversed_by_id"@, opt_id_text(e.reversed_by_id)),
            ("refund_of_id"@, opt_id_text(e.refund_of_id)),
            ("counterpart_id"@, opt_id_text(e.counterpart_id)),
            ("template_id"@, opt_id_text(e.template_id)),
            ("template_version"@, opt_id_text(e.template_version)),
            ("origin"@, json_text(e.origin@)),
            ("posted_at"@, opt_json_text(crate::imports::opt_text(e.posted_at))),
            ("created_at"@, json_text(e.created_at@)),
            ("seq"@, opt_id_text(e.seq)),
            ("hash"@, opt_json_text(crate::imports::opt_text(e.hash))),
            ("postings"@, list_text(posting_documents(e.postings@))),
            ("statement_line_id"@, opt_id_text(e.statement_line_id)),
            ("tags"@, list_text(quoted_texts(texts(e.tags@)))),
            ("reviewed_at"@, opt_json_text(crate::imports::opt_text(e.reviewed_at))),
    ]);
    object(&v)
}

/// An entry without what storing it stamps on it: its unique names, its place in the chain and its times.
pub open spec fn bare_entry_document(e: JournalEntry) -> Seq<char> {
    object_text(
        seq![
            ("id"@, int_text(e.id as int)),
            ("entity_id"@, int_text(e.entity_id as int)),
            ("date"@, json_text(iso_text(e.date))),
            ("payee"@, json_text(e.payee@)),
            ("payee_id"@, opt_id_text(e.payee_id)),
            ("display_payee"@, json_text(e.display_payee@)),
            ("description"@, json_text(e.description@)),
            ("notes"@, json_text(e.notes@)),
            ("status"@, json_text(status_text(e.status))),
            ("reverses_id"@, opt_id_text(e.reverses_id)),
            ("reversed_by_id"@, opt_id_text(e.reversed_by_id)),
            ("refund_of_id"@, opt_id_text(e.refund_of_id)),
            ("counterpart_id"@, opt_id_text(e.counterpart_id)),
            ("template_id"@, opt_id_text(e.template_id)),
            ("template_version"@, opt_id_text(e.template_version)),
            ("origin"@, json_text(e.origin@)),
            ("postings"@, list_text(bare_posting_documents(e.postings@))),
            ("statement_line_id"@, opt_id_text(e.statement_line_id)),
            ("tags"@, list_text(quoted_texts(texts(e.tags@)))),
        ],
    )
}

pub fn bare_entry_string(e: &JournalEntry) -> (r: String)
    ensures
        r@ == bare_entry_document(*e),
{
    let v: Vec<(&str, String)> = vec![
        ("id", int_string(e.id as i64)),
        ("entity_id", int_string(e.entity_id as i64)),
        ("date", json_string(iso(e.date).as_str())),
        ("payee", json_string(e.payee.as_str())),
        ("payee_id", opt_id_string(e.payee_id)),
        ("display_payee", json_string(e.display_payee.as_str())),
        ("description", json_string(e.description.as_str())),
        ("notes", json_string(e.notes.as_str())),
        ("status", json_string(e.status.as_str())),
        ("reverses_id", opt_id_string(e.reverses_id)),
        ("reversed_by_id", opt_id_string(e.reversed_by_id)),
        ("refund_of_id", opt_id_string(e.refund_of_id)),
        ("counterpart_id", opt_id_string(e.counterpart_id)),
        ("template_id", opt_id_string(e.template_id)),
        ("template_version", opt_id_string(e.template_version)),
        ("origin", json_string(e.origin.as_str())),
        ("postings", list(&bare_posting_strings(e.postings.as_slice()))),
        ("statement_line_id", opt_id_string(e.statement_line_id)),
        ("tags", text_list(&e.tags)),
    ];
    assert(members(v@) =~= seq![
            ("id"@, int_text(e.id as int)),
            ("entity_id"@, int_text(e.entity_id as int)),
            ("date"@, json_text(iso_text(e.date))),
            ("payee"@, json_text(e.payee@)),
            ("payee_id"@, opt_id_text(e.payee_id)),
            ("display_payee"@, json_text(e.display_payee@)),
            ("description"@, json_text(e.description@)),
            ("notes"@, json_text(e.notes@)),
            ("status"@, json_text(status_text(e.status))),
            ("reverses_id"@, opt_id_text(e.reverses_id)),
            ("reversed_by_id"@, opt_id_text(e.reversed_by_id)),
            ("refund_of_id"@, opt_id_text(e.refund_of_id)),
            ("counterpart_id"@, opt_id_text(e.counterpart_id)),
            ("template_id"@, opt_id_text(e.template_id)),
            ("template_version"@, opt_id_text(e.template_version)),
            ("origin"@, json_text(e.origin@)),
            ("postings"@, list_text(bare_posting_documents(e.postings@))),
            ("statement_line_id"@, opt_id_text(e.statement_line_id)),
            ("tags"@, list_text(quoted_texts(texts(e.tags@)))),
    ]);
    object(&v)
}

/// A statement line.
pub open spec fn line_document(l: StatementLine) -> Seq<char> {
    object_text(
        seq![
            ("id"@, int_text(l.id as int)),
            ("import_id"@, int_text(l.import_id as int)),
            ("account_id"@, opt_id_text(l.account_id)),
            ("position"@, int_text(l.position as int)),
            ("raw"@, object_text(fields(l.raw@))),
            ("date"@, opt_day_text(l.date)),
            ("amount"@, opt_money_text(l.amount)),
            ("currency"@, json_text(l.currency@)),
            ("description"@, json_text(l.description@)),
            ("reference"@, json_text(l.reference@)),
            ("balance_after"@, opt_money_text(l.balance_after)),
            ("fingerprint"@, json_text(l.fingerprint@)),
            ("posting_id"@, opt_id_text(l.posting_id)),
            ("journal_entry_id"@, opt_id_text(l.journal_entry_id)),
            ("duplicate_of_id"@, opt_id_text(l.duplicate_of_id)),
            ("status"@, json_text(l.status@)),
            ("note"@, json_text(l.note@)),
        ],
    )
}

pub fn line_string(l: &StatementLine) -> (r: String)
    ensures
        r@ == line_document(*l),
{
    let v: Vec<(&str, String)> = vec![
        ("id", int_string(l.id as i64)),
        ("import_id", int_string(l.import_id as i64)),
        ("account_id", opt_id_string(l.account_id)),
        ("position", int_string(l.position as i64)),
        ("raw", object_string(&l.raw)),
        ("date", opt_day(l.date)),
        ("amount", opt_money(&l.amount)),
        ("currency", json_string(l.currency.as_str())),
        ("description", json_string(l.description.as_str())),
        ("reference", json_string(l.reference.as_str())),
        ("balance_after", opt_money(&l.balance_after)),
        ("fingerprint", json_string(l.fingerprint.as_str())),
        ("posting_id", opt_id_string(l.posting_id)),
        ("journal_entry_id", opt_id_string(l.journal_entry_id)),
        ("duplicate_of_id", opt_id_string(l.duplicate_of_id)),
        ("status", json_string(l.status.as_str())),
        ("note", json_string(l.note.as_str())),
    ];
    assert(members(v@) =~= seq![
            ("id"@, int_text(l.id as int)),
            ("import_id"@, int_text(l.import_id as int)),
            ("account_id"@, opt_id_text(l.account_id)),
            ("position"@, int_text(l.position as int)),
            ("raw"@, object_text(fields(l.raw@))),
            ("date"@, opt_day_text(l.date)),
            ("amount"@, opt_money_text(l.amount)),
            ("currency"@, json_text(l.currency@)),
            ("description"@, json_text(l.description@)),
            ("reference"@, json_text(l.reference@)),
            ("balance_after"@, opt_money_text(l.balance_after)),
            ("fingerprint"@, json_text(l.fingerprint@)),
            ("posting_id"@, opt_id_text(l.posting_id)),
            ("journal_entry_id"@, opt_id_text(l.journal_entry_id)),
            ("duplicate_of_id"@, opt_id_text(l.duplicate_of_id)),
            ("status"@, json_text(l.status@)),
            ("note"@, json_text(l.note@)),
    ]);
    object(&v)
}

pub open spec fn line_documents(v: Seq<StatementLine>) -> Seq<Seq<char>> {
    v.map_values(|x: StatementLine| line_document(x))
}

pub fn line_strings(v: &[StatementLine]) -> (r: Vec<String>)
    ensures
        texts(r@) == line_documents(v@),
{
    let mut r: Vec<String> = Vec::new();
    let mut i: usize = 0;
    while i < v.len()
        invariant
            i <= v.len(),
            texts(r@) == line_documents(v@).take(i as int),
        decreases v.len() - i,
    {
        let ghost before = texts(r@);
        let t = line_string(&v[i]);
        r.push(t);
        assert(texts(r@) =~= before.push(t@));
        i = i + 1;
        assert(texts(r@) =~= line_documents(v@).take(i as int));
    }
    assert(texts(r@) =~= line_documents(v@));
    r
}

/// A condition of a rule.
pub open spec fn condition_document(c: RuleCondition) -> Seq<char> {
    object_text(
        seq![
            ("field"@, json_text(c.field@)),
            ("op"@, json_text(c.op@)),
            ("value"@, json_text(c.value@)),
        ],
    )
}

pub fn condition_string(c: &RuleCondition) -> (r: String)
    ensures
        r@ == condition_document(*c),
{
    let v: Vec<(&str, String)> = vec![
        ("field", json_string(c.field.as_str())),
        ("op", json_string(c.op.as_str())),
        ("value", json_string(c.value.as_str())),
    ];
    assert(members(v@) =~= seq![
            ("field"@, json_text(c.field@)),
            ("op"@, json_text(c.op@)),
            ("value"@, json_text(c.value@)),
    ]);
    object(&v)
}

pub open spec fn condition_documents(v: Seq<RuleCondition>) -> Seq<Seq<char>> {
    v.map_values(|x: RuleCondition| condition_document(x))
}

pub fn condition_strings(v: &[RuleCondition]) -> (r: Vec<String>)
    ensures
        texts(r@) == condition_documents(v@),
{
    let mut r: Vec<String> = Vec::new();
    let mut i: usize = 0;
    while i < v.len()
        invariant
            i <= v.len(),
            texts(r@) == condition_documents(v@).take(i as int),
        decreases v.len() - i,
    {
        let ghost before = texts(r@);
        let t = condition_string(&v[i]);
        r.push(t);
        assert(texts(r@) =~= before.push(t@));
        i = i + 1;
        assert(texts(r@) =~= condition_documents(v@).take(i as int));
    }
    assert(texts(r@) =~= condition_documents(v@));
    r
}

/// A rule with its conditions.
pub open spec fn rule_document(x: Rule) -> Seq<char> {
    object_text(
        seq![
            ("id"@, int_text(x.id as int)),
            ("entity_id"@, int_text(x.entity_id as int)),
            ("name"@, json_text(x.name@)),
            ("position"@, int_text(x.position as int)),
            ("enabled"@, flag_text(x.enabled)),
            ("conditions"@, list_text(condition_documents(x.conditions@))),
            ("account_id"@, opt_id_text(x.account_id)),
            ("template_id"@, opt_id_text(x.template_id)),
            ("payee"@, json_text(x.payee@)),
            ("hits_count"@, int_text(x.hits_count as int)),
            ("created_at"@, json_text(x.created_at@)),
            ("tags"@, json_text(x.tags@)),
        ],
    )
}

pub fn rule_string(x: &Rule) -> (r: String)
    ensures
        r@ == rule_document(*x),
{
    let v: Vec<(&str, String)> = vec![
        ("id", int_string(x.id as i64)),
        ("entity_id", int_string(x.entity_id as i64)),
        ("name", json_string(x.name.as_str())),
        ("position", int_string(x.position as i64)),
        ("enabled", flag(x.enabled)),
        ("conditions", list(&condition_strings(x.conditions.as_slice()))),
        ("account_id", opt_id_string(x.account_id)),
        ("template_id", opt_id_string(x.template_id)),
        ("payee", json_string(x.payee.as_str())),
        ("hits_count", int_string(x.hits_count as i64)),
        ("created_at", json_string(x.created_at.as_str())),
        ("tags", json_string(x.tags.as_str())),
    ];
    assert(members(v@) =~= seq![
            ("id"@, int_text(x.id as int)),
            ("entity_id"@, int_text(x.entity_id as int)),
            ("name"@, json_text(x.name@)),
            ("position"@, int_text(x.position as int)),
            ("enabled"@, flag_text(x.enabled)),
            ("conditions"@, list_text(condition_documents(x.conditions@))),
            ("account_id"@, opt_id_text(x.account_id)),
            ("template_id"@, opt_id_text(x.template_id)),
            ("payee"@, json_text(x.payee@)),
            ("hits_count"@, int_text(x.hits_count as int)),
            ("created_at"@, json_text(x.created_at@)),
            ("tags"@, json_text(x.tags@)),
    ]);
    object(&v)
}

pub open spec fn rule_documents(v: Seq<Rule>) -> Seq<Seq<char>> {
    v.map_values(|x: Rule| rule_document(x))
}

pub fn rule_strings(v: &[Rule]) -> (r: Vec<String>)
    ensures
        texts(r@) == rule_documents(v@),
{
    let mut r: Vec<String> = Vec::new();
    let mut i: usize = 0;
    while i < v.len()
        invariant
            i <= v.len(),
            texts(r@) == rule_documents(v@).take(i as int),
        decreases v.len() - i,
    {
        let ghost before = texts(r@);
        let t = rule_string(&v[i]);
        r.push(t);
        assert(texts(r@) =~= before.push(t@));
        i = i + 1;
        assert(texts(r@) =~= rule_documents(v@).take(i as int));
    }
    assert(texts(r@) =~= rule_documents(v@));
    r
}

} // verus!
