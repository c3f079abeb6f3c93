//! Account Tracker backups: accounts, groups, transactions (with splits, foreign amounts and repeats)
//! and rates.
//!
//! Inspect first, then import with a mapping of accounts to entities. Every transaction becomes a
//! posted journal entry keyed by its Account Tracker id, so re-importing a newer backup only adds what
//! is new.

use vstd::prelude::*;

use crate::date::Date;
use crate::imports::{fields, opt_text};
use crate::model::MetaEntry;

pub mod archive;
pub mod booking;
pub mod inspection;
pub mod recurrence;
pub mod reimport;
pub mod simulation;
pub mod unfolding;

verus! {

#[derive(Debug, Clone)]
pub struct AtAccount {
    pub id: i64,
    pub name: String,
    pub code: String,
    pub group: usize,
    pub hidden: bool,
    pub exclude: bool,
    pub opening: i64,
    pub balance: i64,
    pub reconciled: i64,
    pub min: i64,
    pub due: i64,
    pub closed: i64,
    pub todo: i64,
}

#[verifier::ext_equal]
pub struct ShownAccount {
    pub id: i64,
    pub name: Seq<char>,
    pub code: Seq<char>,
    pub group: usize,
    pub hidden: bool,
    pub exclude: bool,
    pub opening: i64,
    pub balance: i64,
    pub reconciled: i64,
    pub min: i64,
    pub due: i64,
    pub closed: i64,
    pub todo: i64,
}

impl View for AtAccount {
    type V = ShownAccount;

    open spec fn view(&self) -> ShownAccount {
        ShownAccount {
            id: self.id,
            name: self.name@,
            code: self.code@,
            group: self.group,
            hidden: self.hidden,
            exclude: self.exclude,
            opening: self.opening,
            balance: self.balance,
            reconciled: self.reconciled,
            min: self.min,
            due: self.due,
            closed: self.closed,
            todo: self.todo,
        }
    }
}

pub open spec fn shown_accounts(v: Seq<AtAccount>) -> Seq<ShownAccount> {
    Seq::new(v.len(), |i: int| v[i]@)
}

/// A per-occurrence edit of a repeat: a new amount, a new date, or a deletion. A negative sequence
/// gives the amount of the occurrences before it.
#[derive(Debug, Clone, Copy)]
pub struct Override {
    pub sequence: i64,
    pub pence: Option<i64>,
    pub date: Option<Date>,
    pub deleted: bool,
}

#[derive(Debug, Clone)]
pub struct Repeat {
    pub unit: String,
    pub every: i64,
    pub end: String,
    pub after: i64,
    pub on: Option<Date>,
    pub weekend: String,
    pub overrides: Vec<Override>,
}

#[verifier::ext_equal]
pub struct ShownRepeat {
    pub unit: Seq<char>,
    pub every: i64,
    pub end: Seq<char>,
    pub after: i64,
    pub on: Option<Date>,
    pub weekend: Seq<char>,
    pub overrides: Seq<Override>,
}

impl View for Repeat {
    type V = ShownRepeat;

    open spec fn view(&self) -> ShownRepeat {
        ShownRepeat {
            unit: self.unit@,
            every: self.every,
            end: self.end@,
            after: self.after,
            on: self.on,
            weekend: self.weekend@,
            overrides: self.overrides@,
        }
    }
}

pub open spec fn shown_repeat(r: Option<Repeat>) -> Option<ShownRepeat> {
    match r {
        Some(x) => Some(x@),
        None => None,
    }
}

pub open spec fn shown_splits(v: Seq<(String, i64)>) -> Seq<(Seq<char>, i64)> {
    Seq::new(v.len(), |i: int| (v[i].0@, v[i].1))
}

#[derive(Debug, Clone)]
pub struct AtTransaction {
    pub id: String,
    pub date: Date,
    pub pence: i64,
    pub from: i64,
    pub to: i64,
    pub category: String,
    pub details: String,
    pub notes: String,
    pub refund: bool,
    pub foreign: Option<i64>,
    pub code: Option<String>,
    pub splits: Vec<(String, i64)>,
    pub repeat: Option<Repeat>,
    /// The record as the backup holds it.
    pub raw: Vec<MetaEntry>,
}

#[verifier::ext_equal]
pub struct ShownTransaction {
    pub id: Seq<char>,
    pub date: Date,
    pub pence: i64,
    pub from: i64,
    pub to: i64,
    pub category: Seq<char>,
    pub details: Seq<char>,
    pub notes: Seq<char>,
    pub refund: bool,
    pub foreign: Option<i64>,
    pub code: Option<Seq<char>>,
    pub splits: Seq<(Seq<char>, i64)>,
    pub repeat: Option<ShownRepeat>,
    pub raw: Seq<(Seq<char>, Seq<char>)>,
}

impl View for AtTransaction {
    type V = ShownTransaction;

    open spec fn view(&self) -> ShownTransaction {
        ShownTransaction {
            id: self.id@,
            date: self.date,
            pence: self.pence,
            from: self.from,
            to: self.to,
            category: self.category@,
            details: self.details@,
            notes: self.notes@,
            refund: self.refund,
            foreign: self.foreign,
            code: opt_text(self.code),
            splits: shown_splits(self.splits@),
            repeat: shown_repeat(self.repeat),
            raw: fields(self.raw@),
        }
    }
}

pub open spec fn shown_transactions(v: Seq<AtTransaction>) -> Seq<ShownTransaction> {
    Seq::new(v.len(), |i: int| v[i]@)
}

#[derive(Debug, Clone)]
pub struct Backup {
    pub base_currency: String,
    pub timezone: String,
    pub exported_on: Date,
    /// Currencies and their rates, as texts, in the order of the currencies.
    pub rates: Vec<(String, String)>,
    pub groups: Vec<String>,
    pub accounts: Vec<AtAccount>,
    pub transactions: Vec<AtTransaction>,
}

pub open spec fn shown_rates(v: Seq<(String, String)>) -> Seq<(Seq<char>, Seq<char>)> {
    Seq::new(v.len(), |i: int| (v[i].0@, v[i].1@))
}

#[verifier::ext_equal]
pub struct ShownBackup {
    pub base_currency: Seq<char>,
    pub timezone: Seq<char>,
    pub exported_on: Date,
    pub rates: Seq<(Seq<char>, Seq<char>)>,
    pub groups: Seq<Seq<char>>,
    pub accounts: Seq<ShownAccount>,
    pub transactions: Seq<ShownTransaction>,
}

impl View for Backup {
    type V = ShownBackup;

    open spec fn view(&self) -> ShownBackup {
        ShownBackup {
            base_currency: self.base_currency@,
            timezone: self.timezone@,
            exported_on: self.exported_on,
            rates: shown_rates(self.rates@),
            groups: crate::text::texts(self.groups@),
            accounts: shown_accounts(self.accounts@),
            transactions: shown_transactions(self.transactions@),
        }
    }
}

} // verus!
