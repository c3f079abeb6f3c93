//! Domain records.

use vstd::prelude::*;

use crate::date::Date;
use crate::decimal::Decimal;
use crate::error::{invalid, Result};
use crate::money::Money;
use crate::text::{cat, debug_text, lower, lowered, own, quoted, same, trim, trimmed};

verus! {

#[derive(Debug, Clone)]
pub struct Entity {
    pub id: i64,
    pub uid: String,
    pub name: String,
    pub kind: String,
    pub country: String,
    pub currency: String,
    pub lock_date: Option<Date>,
    pub archived_at: Option<String>,
    pub created_at: String,
}

#[derive(Debug, Clone)]
pub struct Commodity {
    pub id: i64,
    pub code: String,
    pub kind: String,
    pub name: String,
    pub precision: u32,
    pub isin: String,
}

#[derive(Debug, Clone)]
pub struct Price {
    pub id: i64,
    pub commodity: String,
    pub currency: String,
    pub on: Date,
    pub price: Decimal,
    pub source: String,
}

#[derive(Debug, Clone, Copy, PartialEq, Eq, Structural)]
pub enum AccountType {
    Asset,
    Liability,
    Equity,
    Income,
    Expense,
}

/// The name of an account type as it is stored.
pub open spec fn type_text(t: AccountType) -> Seq<char> {
    match t {
        AccountType::Asset => "asset"@,
        AccountType::Liability => "liability"@,
        AccountType::Equity => "equity"@,
        AccountType::Income => "income"@,
        AccountType::Expense => "expense"@,
    }
}

/// The account type that a name stands for, which is trimmed and in lower case.
pub open spec fn type_named(s: Seq<char>) -> Option<AccountType> {
    if s == "asset"@ || s == "assets"@ {
        Some(AccountType::Asset)
    } else if s == "liability"@ || s == "liabilities"@ {
        Some(AccountType::Liability)
    } else if s == "equity"@ {
        Some(AccountType::Equity)
    } else if s == "income"@ || s == "revenue"@ {
        Some(AccountType::Income)
    } else if s == "expense"@ || s == "expenses"@ {
        Some(AccountType::Expense)
    } else {
        None
    }
}

pub open spec fn root_text(t: AccountType) -> Seq<char> {
    match t {
        AccountType::Asset => "Assets"@,
        AccountType::Liability => "Liabilities"@,
        AccountType::Equity => "Equity"@,
        AccountType::Income => "Income"@,
        AccountType::Expense => "Expenses"@,
    }
}

/// +1 when the account grows by debit (assets, expenses), -1 when it grows by credit.
pub open spec fn sign_of(t: AccountType) -> int {
    if t == AccountType::Asset || t == AccountType::Expense {
        1
    } else {
        -1
    }
}

impl AccountType {
    pub fn as_str(self) -> (r: &'static str)
        ensures
            r@ == type_text(self),
    {
        match self {
            AccountType::Asset => "asset",
            AccountType::Liability => "liability",
            AccountType::Equity => "equity",
            AccountType::Income => "income",
            AccountType::Expense => "expense",
        }
    }

    pub fn parse(s: &str) -> (r: Result<AccountType>)
        ensures
            match r {
                Ok(t) => type_named(lowered(trimmed(s@))) == Some(t),
                Err(e) => type_named(lowered(trimmed(s@))) is None && e.invalid(
                    "unknown account type "@ + debug_text(lowered(trimmed(s@))),
                ),
            },
    {
        let t = lower(trim(s).as_str());
        let n = t.as_str();
        if same(n, "asset") || same(n, "assets") {
            Ok(AccountType::Asset)
        } else if same(n, "liability") || same(n, "liabilities") {
            Ok(AccountType::Liability)
        } else if same(n, "equity") {
            Ok(AccountType::Equity)
        } else if same(n, "income") || same(n, "revenue") {
            Ok(AccountType::Income)
        } else if same(n, "expense") || same(n, "expenses") {
            Ok(AccountType::Expense)
        } else {
            Err(invalid(cat("unknown account type ", quoted(n).as_str()).as_str()))
        }
    }

    /// +1 when the account grows by debit (assets, expenses), -1 when it grows by credit.
    pub fn normal_sign(self) -> (r: i64)
        ensures
            r == sign_of(self),
    {
        match self {
            AccountType::Asset | AccountType::Expense => 1,
            _ => -1,
        }
    }

    pub fn root_name(self) -> (r: &'static str)
        ensures
            r@ == root_text(self),
    {
        match self {
            AccountType::Asset => "Assets",
            AccountType::Liability => "Liabilities",
            AccountType::Equity => "Equity",
            AccountType::Income => "Income",
            AccountType::Expense => "Expenses",
        }
    }

    pub fn is_balance_sheet(self) -> (r: bool)
        ensures
            r == (self == AccountType::Asset || self == AccountType::Liability || self == AccountType::Equity),
    {
        matches!(self, AccountType::Asset | AccountType::Liability | AccountType::Equity)
    }
}

/// A stored account type is read back as it was.
pub proof fn law_type_round_trip(t: AccountType)
    ensures
        type_named(type_text(t)) == Some(t),
{
    reveal_strlit("asset");
    reveal_strlit("assets");
    reveal_strlit("liability");
    reveal_strlit("liabilities");
    reveal_strlit("equity");
    reveal_strlit("income");
    reveal_strlit("revenue");
    reveal_strlit("expense");
    reveal_strlit("expenses");
    assert("asset"@ != "income"@ && "asset"@ != "equity"@) by {
        assert("asset"@.len() == 5);
    }
    assert("income"@[0] == 'i' && "equity"@[0] == 'e' && "revenue"@[0] == 'r' && "expense"@[1] == 'x' && "liability"@[0] == 'l');
}

#[derive(Debug, Clone)]
pub struct Account {
    pub id: i64,
    pub uid: String,
    pub entity_id: i64,
    pub parent_id: Option<i64>,
    pub code: String,
    pub name: String,
    /// Names joined by ":" from the type root: "Assets:Bank:N26".
    pub path: String,
    pub depth: i32,
    pub account_type: AccountType,
    pub subtype: String,
    pub commodity_id: i64,
    pub commodity: String,
    pub precision: u32,
    pub system_role: String,
    pub placeholder: bool,
    pub in_net_worth: bool,
    pub credit_limit: Option<Decimal>,
    pub statement_day: Option<i32>,
    pub due_day: Option<i32>,
    /// What the account is known by elsewhere, as a JSON document.
    pub external_ids: String,
    pub notes: String,
    pub position: i32,
    pub closed_at: Option<String>,
    /// Budget nature of an expense account: fixed, committed, discretionary, savings or
    /// not-spending, or nothing.
    pub class: String,
}

impl Account {
    pub fn is_closed(&self) -> (r: bool)
        ensures
            r == (self.closed_at is Some),
    {
        self.closed_at.is_some()
    }
}

#[derive(Debug, Clone)]
pub struct NewAccount {
    pub entity_id: i64,
    pub parent_id: Option<i64>,
    pub code: String,
    pub name: String,
    pub account_type: Option<AccountType>,
    pub subtype: String,
    pub commodity: String,
    pub system_role: String,
    pub placeholder: bool,
    pub in_net_worth: bool,
    pub credit_limit: Option<Decimal>,
    pub statement_day: Option<i32>,
    pub due_day: Option<i32>,
    /// What the account is known by elsewhere, as a JSON document.
    pub external_ids: String,
    pub notes: String,
    pub position: i32,
}

#[derive(Debug, Clone, Copy, PartialEq, Eq, Structural)]
pub enum EntryStatus {
    Draft,
    Posted,
    Void,
}

pub open spec fn status_text(s: EntryStatus) -> Seq<char> {
    match s {
        EntryStatus::Draft => "draft"@,
        EntryStatus::Posted => "posted"@,
        EntryStatus::Void => "void"@,
    }
}

/// The status that a name stands for, which is trimmed and in lower case; nothing stands for
/// posted.
pub open spec fn status_named(s: Seq<char>) -> Option<EntryStatus> {
    if s == ""@ || s == "posted"@ {
        Some(EntryStatus::Posted)
    } else if s == "draft"@ {
        Some(EntryStatus::Draft)
    } else if s == "void"@ {
        Some(EntryStatus::Void)
    } else {
        None
    }
}

impl EntryStatus {
    pub fn as_str(self) -> (r: &'static str)
        ensures
            r@ == status_text(self),
    {
        match self {
            EntryStatus::Draft => "draft",
            EntryStatus::Posted => "posted",
            EntryStatus::Void => "void",
        }
    }

    pub fn parse(s: &str) -> (r: Result<EntryStatus>)
        ensures
            match r {
                Ok(t) => status_named(lowered(trimmed(s@))) == Some(t),
                Err(e) => status_named(lowered(trimmed(s@))) is None && e.invalid(
                    "unknown status "@ + debug_text(lowered(trimmed(s@))),
                ),
            },
    {
        let t = lower(trim(s).as_str());
        let n = t.as_str();
        if same(n, "") || same(n, "posted") {
            Ok(EntryStatus::Posted)
        } else if same(n, "draft") {
            Ok(EntryStatus::Draft)
        } else if same(n, "void") {
            Ok(EntryStatus::Void)
        } else {
            Err(invalid(cat("unknown status ", quoted(n).as_str()).as_str()))
        }
    }
}

/// A stored status is read back as it was.
pub proof fn law_status_round_trip(s: EntryStatus)
    ensures
        status_named(status_text(s)) == Some(s),
{
    reveal_strlit("");
    reveal_strlit("draft");
    reveal_strlit("posted");
    reveal_strlit("void");
    assert("draft"@.len() == 5 && "posted"@.len() == 6 && "void"@.len() == 4);
}

/// A value that a posting carries along under a key.
#[derive(Debug, Clone)]
pub enum MetaValue {
    Flag(bool),
    Number(i64),
    Text(String),
    /// An amount in another commodity.
    Value { quantity: String, commodity: String },
    /// Any other value, as JSON text.
    Other(String),
}

#[derive(Debug, Clone)]
pub struct MetaEntry {
    pub key: String,
    pub value: MetaValue,
}

impl MetaValue {
    pub fn copy(&self) -> (r: MetaValue)
        ensures
            r == *self,
    {
        match self {
            MetaValue::Flag(b) => MetaValue::Flag(*b),
            MetaValue::Number(n) => MetaValue::Number(*n),
            MetaValue::Text(t) => MetaValue::Text(t.clone()),
            MetaValue::Value { quantity, commodity } => MetaValue::Value {
                quantity: quantity.clone(),
                commodity: commodity.clone(),
            },
            MetaValue::Other(t) => MetaValue::Other(t.clone()),
        }
    }
}

impl MetaEntry {
    pub fn copy(&self) -> (r: MetaEntry)
        ensures
            r == *self,
    {
        MetaEntry { key: self.key.clone(), value: self.value.copy() }
    }
}

/// What a posting carries along under a key.
pub open spec fn meta_at(m: Seq<MetaEntry>, key: Seq<char>) -> Option<MetaValue>
    decreases m.len(),
{
    if m.len() == 0 {
        None
    } else if m[0].key@ == key {
        Some(m[0].value)
    } else {
        meta_at(m.skip(1), key)
    }
}

pub open spec fn meta_flag(m: Seq<MetaEntry>, key: Seq<char>) -> bool {
    meta_at(m, key) == Some(MetaValue::Flag(true))
}

/// The entries whose key is not `key`.
pub open spec fn meta_without(m: Seq<MetaEntry>, key: Seq<char>) -> Seq<MetaEntry>
    decreases m.len(),
{
    if m.len() == 0 {
        m
    } else if m.last().key@ == key {
        meta_without(m.drop_last(), key)
    } else {
        meta_without(m.drop_last(), key).push(m.last())
    }
}

pub fn meta_get<'a>(m: &'a Vec<MetaEntry>, key: &str) -> (r: Option<&'a MetaValue>)
    ensures
        match r {
            Some(v) => meta_at(m@, key@) == Some(*v),
            None => meta_at(m@, key@) is None,
        },
{
    let mut i: usize = 0;
    assert(m@.skip(0) == m@);
    while i < m.len()
        invariant
            i <= m.len(),
            meta_at(m@, key@) == meta_at(m@.skip(i as int), key@),
        decreases m.len() - i,
    {
        if same(m[i].key.as_str(), key) {
            return Some(&m[i].value);
        }
        assert(m@.skip(i as int).skip(1) == m@.skip(i + 1));
        i = i + 1;
    }
    None
}

pub fn has_flag(m: &Vec<MetaEntry>, key: &str) -> (r: bool)
    ensures
        r == meta_flag(m@, key@),
{
    match meta_get(m, key) {
        Some(MetaValue::Flag(b)) => *b,
        _ => false,
    }
}

pub fn meta_copy(m: &Vec<MetaEntry>) -> (r: Vec<MetaEntry>)
    ensures
        r@ == m@,
{
    let mut r: Vec<MetaEntry> = Vec::new();
    let mut i: usize = 0;
    while i < m.len()
        invariant
            i <= m.len(),
            r@ == m@.take(i as int),
        decreases m.len() - i,
    {
        r.push(m[i].copy());
        i = i + 1;
        assert(m@.take(i as int) == m@.take(i - 1).push(m@[i - 1]));
    }
    assert(m@.take(i as int) == m@);
    r
}

pub fn meta_remove(m: &Vec<MetaEntry>, key: &str) -> (r: Vec<MetaEntry>)
    ensures
        r@ == meta_without(m@, key@),
{
    let mut r: Vec<MetaEntry> = Vec::new();
    let mut i: usize = 0;
    while i < m.len()
        invariant
            i <= m.len(),
            r@ == meta_without(m@.take(i as int), key@),
        decreases m.len() - i,
    {
        assert(m@.take(i + 1).drop_last() == m@.take(i as int));
        if !same(m[i].key.as_str(), key) {
            r.push(m[i].copy());
        }
        i = i + 1;
    }
    assert(m@.take(i as int) == m@);
    r
}

/// Puts `value` under `key` in place of what was there.
pub fn meta_set(m: &Vec<MetaEntry>, key: &str, value: MetaValue) -> (r: Vec<MetaEntry>)
    ensures
        r@.len() > 0,
        r@.drop_last() == meta_without(m@, key@),
        r@.last().key@ == key@,
        r@.last().value == value,
{
    let mut r = meta_remove(m, key);
    let ghost before = r@;
    r.push(MetaEntry { key: own(key), value });
    assert(r@.drop_last() == before);
    r
}

#[derive(Debug, Clone)]
pub struct Posting {
    pub id: i64,
    pub uid: String,
    pub journal_entry_id: i64,
    pub account_id: i64,
    pub account_path: String,
    pub account_type: AccountType,
    /// In the account's commodity, debit positive.
    pub quantity: Money,
    /// In the entity's functional currency, debit positive.
    pub amount: Money,
    pub rate: Option<Decimal>,
    pub rate_source: String,
    pub memo: String,
    pub metadata: Vec<MetaEntry>,
    pub external_id: Option<String>,
    pub fingerprint: Option<String>,
    pub reconciled_at: Option<String>,
    pub position: i32,
}

#[derive(Debug, Clone)]
pub struct JournalEntry {
    pub id: i64,
    pub uid: String,
    pub entity_id: i64,
    pub date: Date,
    pub payee: String,
    /// Canonical metadata; `payee` remains the immutable booked text for display-only changes.
    pub payee_id: Option<i64>,
    pub display_payee: String,
    pub description: String,
    pub notes: String,
    pub status: EntryStatus,
    pub reverses_id: Option<i64>,
    pub reversed_by_id: Option<i64>,
    /// Full refund of the named expense; does not void the original.
    pub refund_of_id: Option<i64>,
    pub counterpart_id: Option<i64>,
    pub template_id: Option<i64>,
    pub template_version: Option<i64>,
    pub origin: String,
    pub posted_at: Option<String>,
    pub created_at: String,
    pub seq: Option<i64>,
    pub hash: Option<String>,
    pub postings: Vec<Posting>,
    pub statement_line_id: Option<i64>,
    /// key:value lenses; never part of the hash chain.
    pub tags: Vec<String>,
    /// When a human confirmed (or made) this entry; nothing on machine-posted entries awaiting
    /// review. Outside the hash chain, like tags.
    pub reviewed_at: Option<String>,
}

#[derive(Debug, Clone)]
pub struct PostingInput {
    pub account_id: i64,
    pub quantity: Decimal,
    /// Functional-currency value; computed from rates when there is none.
    pub amount: Option<Decimal>,
    pub memo: String,
    pub metadata: Vec<MetaEntry>,
    pub external_id: Option<String>,
    pub fingerprint: Option<String>,
    /// This posting takes whatever value makes the entry sum to zero (at most one per entry).
    pub balance: bool,
    /// The posting's value expressed in another commodity. The quantity is then derived.
    pub value_in: Option<(Decimal, String)>,
}

impl PostingInput {
    /// A posting of a quantity in the account's commodity.
    pub open spec fn plain(self, account_id: i64, quantity: crate::decimal::Num) -> bool {
        &&& self.account_id == account_id
        &&& self.quantity@ == quantity
        &&& self.amount is None
        &&& self.memo@ == Seq::<char>::empty()
        &&& self.metadata@ == Seq::<MetaEntry>::empty()
        &&& self.external_id is None
        &&& self.fingerprint is None
        &&& !self.balance
        &&& self.value_in is None
    }

    pub fn new(account_id: i64, quantity: Decimal) -> (r: PostingInput)
        ensures
            r.plain(account_id, quantity@),
    {
        PostingInput {
            account_id,
            quantity,
            amount: None,
            memo: String::new(),
            metadata: Vec::new(),
            external_id: None,
            fingerprint: None,
            balance: false,
            value_in: None,
        }
    }

    pub fn balancing(account_id: i64) -> (r: PostingInput)
        ensures
            r.balance,
            (PostingInput { balance: false, ..r }).plain(account_id, (0, 0)),
    {
        let mut r = PostingInput::new(account_id, Decimal::zero());
        r.balance = true;
        r
    }

    pub fn valued(account_id: i64, quantity: Decimal, commodity: &str) -> (r: PostingInput)
        ensures
            r.value_in is Some,
            (r.value_in->0).0@ == quantity@,
            (r.value_in->0).1@ == commodity@,
            (PostingInput { value_in: None, ..r }).plain(account_id, (0, 0)),
    {
        let mut r = PostingInput::new(account_id, Decimal::zero());
        r.value_in = Some((quantity, own(commodity)));
        r
    }

    pub fn memo(self, memo: &str) -> (r: PostingInput)
        ensures
            r.memo@ == memo@,
            (PostingInput { memo: self.memo, ..r }) == self,
    {
        let mut r = self;
        r.memo = own(memo);
        r
    }

    pub fn external(self, id: Option<String>, fingerprint: Option<String>) -> (r: PostingInput)
        ensures
            r == (PostingInput { external_id: id, fingerprint: fingerprint, ..self }),
    {
        let mut r = self;
        r.external_id = id;
        r.fingerprint = fingerprint;
        r
    }

    /// Puts a value under a key of the metadata.
    pub fn meta(self, key: &str, value: MetaValue) -> (r: PostingInput)
        ensures
            r.metadata@.len() > 0,
            r.metadata@.drop_last() == meta_without(self.metadata@, key@),
            r.metadata@.last().key@ == key@,
            r.metadata@.last().value == value,
            (PostingInput { metadata: self.metadata, ..r }) == self,
    {
        let m = meta_set(&self.metadata, key, value);
        let mut r = self;
        r.metadata = m;
        r
    }
}

#[derive(Debug, Clone)]
pub struct EntryInput {
    pub entity_id: i64,
    pub date: Date,
    pub payee: String,
    pub description: String,
    pub notes: String,
    pub status: EntryStatus,
    pub postings: Vec<PostingInput>,
    pub template_id: Option<i64>,
    pub template_version: Option<i64>,
    pub origin: String,
    pub counterpart_id: Option<i64>,
    pub reverses_id: Option<i64>,
    /// Post any residual after rating to the FX gain/loss account instead of failing.
    pub absorb_fx: bool,
}

impl EntryInput {
    /// An entry as it starts: posted, by hand, with nothing filled in.
    pub open spec fn fresh(self, entity_id: i64, date: Date) -> bool {
        &&& self.entity_id == entity_id
        &&& self.date == date
        &&& self.payee@ == Seq::<char>::empty()
        &&& self.description@ == Seq::<char>::empty()
        &&& self.notes@ == Seq::<char>::empty()
        &&& self.status == EntryStatus::Posted
        &&& self.postings@ == Seq::<PostingInput>::empty()
        &&& self.template_id is None
        &&& self.template_version is None
        &&& self.origin@ == "capture"@
        &&& self.counterpart_id is None
        &&& self.reverses_id is None
        &&& !self.absorb_fx
    }

    pub fn new(entity_id: i64, date: Date) -> (r: EntryInput)
        ensures
            r.fresh(entity_id, date),
    {
        EntryInput {
            entity_id,
            date,
            payee: String::new(),
            description: String::new(),
            notes: String::new(),
            status: EntryStatus::Posted,
            postings: Vec::new(),
            template_id: None,
            template_version: None,
            origin: own("capture"),
            counterpart_id: None,
            reverses_id: None,
            absorb_fx: false,
        }
    }
}

#[derive(Debug, Clone)]
pub struct RuleCondition {
    pub field: String,
    pub op: String,
    pub value: String,
}

#[derive(Debug, Clone)]
pub struct Rule {
    pub id: i64,
    pub entity_id: i64,
    pub name: String,
    pub position: i32,
    pub enabled: bool,
    pub conditions: Vec<RuleCondition>,
    pub account_id: Option<i64>,
    pub template_id: Option<i64>,
    pub payee: String,
    pub hits_count: i32,
    pub created_at: String,
    /// Space-separated key:value tags set on entries this rule posts.
    pub tags: String,
}

/// A line of a statement as it was stored.
#[derive(Debug, Clone)]
pub struct StatementLine {
    pub id: i64,
    pub import_id: i64,
    pub account_id: Option<i64>,
    pub position: i32,
    /// The fields of the line as they were read.
    pub raw: Vec<MetaEntry>,
    pub date: Option<Date>,
    /// Signed as the bank shows it: positive is money in.
    pub amount: Option<Money>,
    pub currency: String,
    pub description: String,
    pub reference: String,
    pub balance_after: Option<Money>,
    pub fingerprint: String,
    pub posting_id: Option<i64>,
    pub journal_entry_id: Option<i64>,
    pub duplicate_of_id: Option<i64>,
    pub status: String,
    pub note: String,
}

#[derive(Debug, Clone)]
pub struct TemplateLine {
    pub account_id: i64,
    /// fixed | percent_of | balance | input
    pub method: String,
    pub value: Option<Decimal>,
    pub of_line: Option<usize>,
    pub memo: String,
    pub label: String,
}

#[derive(Debug, Clone)]
pub struct EntryTemplate {
    pub id: i64,
    pub uid: String,
    pub entity_id: i64,
    pub name: String,
    pub payee: String,
    pub description: String,
    pub lines: Vec<TemplateLine>,
    pub rrule: String,
    pub starts_on: Option<Date>,
    pub next_on: Option<Date>,
    pub ends_on: Option<Date>,
    pub auto_post: bool,
    pub lead_days: i32,
    pub version: i64,
    pub active: bool,
    pub created_at: String,
}

} // verus!
