//! How a backup becomes accounts, entries and schedules.

use vstd::prelude::*;

use crate::capture::Transfer;
use crate::codec::{json_string, json_text};
use crate::date::{days_later, later, wide, wide_string, year_text, Date};
use crate::decimal::{decimal_text, normal, same_value, view_of, Decimal, Num};
use crate::documents::{members, object};
use crate::error::{conflict, invalid, Refusal, Result};
use crate::imports::account_tracker::inspection::{credit_limit, group_name, group_of, limit_of, pence_num, pence_to_decimal, suggest_type, suggestion};
use crate::imports::account_tracker::recurrence::{occurrences, occurrences_of, Occurrence};
use crate::imports::account_tracker::simulation::{amounts_for, amounts_of, read, PenceSide};
use crate::imports::account_tracker::{shown_accounts, AtAccount, AtTransaction, Backup, Repeat, ShownAccount, ShownBackup, ShownRepeat, ShownTransaction};
use crate::imports::{object_text, opt_text};
use crate::imports::pipeline::Import;
use crate::model::{Account, AccountType, EntryInput, EntryStatus, EntryTemplate, MetaValue, NewAccount, PostingInput, TemplateLine};
use crate::money::plain;
use crate::text::{cat, cat3, cat4, int_string, int_text, lower, lowercase_of, lowered, nat_string, nat_text, own, same, starts, starts_with, texts, to_lowercase, trim, trimmed};

verus! {

/// Where an account of the backup goes.
#[derive(Debug)]
pub struct Mapping {
    pub external_id: String,
    pub entity_id: i64,
    pub account_type: String,
    pub subtype: String,
    pub skip: bool,
}

#[derive(Debug)]
pub struct AccountCheck {
    pub name: String,
    pub expected: Decimal,
    pub actual: Decimal,
    pub ok: bool,
}

#[derive(Debug)]
pub struct AtImportResult {
    pub import: Import,
    pub warnings: Vec<String>,
    pub checks: Vec<AccountCheck>,
    pub created: usize,
    pub skipped_existing: usize,
}

/// A backup is imported once: `known` is the import that holds the same content.
pub fn check_new(known: Option<i64>) -> (r: Result<()>)
    ensures
        match known {
            Some(id) => r matches Err(e) && e.conflict("this backup was already imported (import #"@ + int_text(id as int) + ")"@),
            None => r is Ok,
        },
{
    match known {
        Some(id) => Err(conflict(cat3("this backup was already imported (import #", int_string(id).as_str(), ")").as_str())),
        None => Ok(()),
    }
}

/// What is said where balances do not reproduce.
pub open spec fn mismatch_text(misses: nat, other: nat) -> Seq<char> {
    nat_text(misses) + " account balances do not reproduce from the transactions alone (the other reading of cross-currency transfers gives "@
        + nat_text(other) + "); the checks below show which"@
}

pub fn mismatch_warning(misses: usize, other: usize) -> (r: Option<String>)
    ensures
        opt_text(r) == (if misses > 0 {
            Some(mismatch_text(misses as nat, other as nat))
        } else {
            None
        }),
{
    if misses > 0 {
        Some(
            cat4(
                nat_string(misses as u128).as_str(),
                " account balances do not reproduce from the transactions alone (the other reading of cross-currency transfers gives ",
                nat_string(other as u128).as_str(),
                "); the checks below show which",
            ),
        )
    } else {
        None
    }
}

/// The price to store for a rate of the backup: none for the base currency itself or for zero.
pub fn rate_to_store(currency: &str, base: &str, rate: Decimal) -> (r: Option<Decimal>)
    ensures
        view_of(r) == (if rate@.0 != 0 && currency@ != base@ {
            Some(crate::decimal::rounded(rate@, 8))
        } else {
            None
        }),
{
    if !rate.is_zero() && !same(currency, base) {
        Some(rate.round_dp(8))
    } else {
        None
    }
}

/// The place of the last of the first `n` mappings for an account.
pub open spec fn mapped(ms: Seq<Mapping>, id: i64, n: nat) -> Option<int>
    decreases n,
{
    if n == 0 {
        None
    } else if ms[n - 1].external_id@ == int_text(id as int) {
        Some(n - 1)
    } else {
        mapped(ms, id, (n - 1) as nat)
    }
}

fn find_mapping<'a>(ms: &'a [Mapping], id: i64) -> (r: Option<&'a Mapping>)
    ensures
        match r {
            Some(m) => mapped(ms@, id, ms@.len()) is Some && *m == ms@[mapped(ms@, id, ms@.len())->0],
            None => mapped(ms@, id, ms@.len()) is None,
        },
{
    let want = int_string(id);
    let mut n: usize = ms.len();
    while n > 0
        invariant
            n <= ms@.len(),
            want@ == int_text(id as int),
            mapped(ms@, id, ms@.len()) == mapped(ms@, id, n as nat),
        decreases n,
    {
        if same(ms[n - 1].external_id.as_str(), want.as_str()) {
            return Some(&ms[n - 1]);
        }
        n = n - 1;
    }
    None
}

/// The place that an account of the backup gets in the books.
#[derive(Debug)]
pub struct AccountChoice {
    pub entity_id: i64,
    pub group: String,
    pub account_type: AccountType,
    pub subtype: String,
}

/// What a mapping says, or what is suggested where it says nothing.
pub open spec fn said_or(said: Option<Seq<char>>, suggested: Seq<char>) -> Seq<char> {
    match said {
        Some(s) if s.len() > 0 => s,
        _ => suggested,
    }
}

pub open spec fn mapping_at(ms: Seq<Mapping>, id: i64) -> Option<Mapping> {
    match mapped(ms, id, ms.len()) {
        Some(i) => Some(ms[i]),
        None => None,
    }
}

/// Whether a choice is the place of an account: under its mapping, else where its name and group
/// suggest, in the default entity.
pub open spec fn chosen(a: ShownAccount, groups: Seq<Seq<char>>, m: Option<Mapping>, default_entity: i64, c: AccountChoice) -> bool {
    let group = group_of(groups, a, "Accounts"@);
    &&& c.entity_id == (if m is Some && m->0.entity_id > 0 {
        m->0.entity_id
    } else {
        default_entity
    })
    &&& c.group@ == group
    &&& crate::model::type_named(lowered(trimmed(chosen_type(a, groups, m)))) == Some(c.account_type)
    &&& c.subtype@ == said_or(
        match m {
            Some(x) => Some(x.subtype@),
            None => None,
        },
        suggestion(a.name, group).1,
    )
}

pub open spec fn chosen_type(a: ShownAccount, groups: Seq<Seq<char>>, m: Option<Mapping>) -> Seq<char> {
    said_or(
        match m {
            Some(x) => Some(x.account_type@),
            None => None,
        },
        suggestion(a.name, group_of(groups, a, "Accounts"@)).0,
    )
}

/// Chooses the place of an account. There is none for an account that a mapping skips.
pub fn choose_account(a: &AtAccount, groups: &Vec<String>, mappings: &[Mapping], default_entity: i64) -> (r: Result<Option<AccountChoice>>)
    ensures
        ({
            let m = mapping_at(mappings@, a.id);
            let t = lowered(trimmed(chosen_type(a@, texts(groups@), m)));
            match r {
                Ok(None) => m is Some && m->0.skip,
                Ok(Some(c)) => !(m is Some && m->0.skip) && chosen(a@, texts(groups@), m, default_entity, c),
                Err(e) => !(m is Some && m->0.skip) && crate::model::type_named(t) is None && e.invalid(
                    "unknown account type "@ + crate::text::debug_text(t),
                ),
            }
        }),
{
    let m = find_mapping(mappings, a.id);
    let group = group_name(groups, a, "Accounts");
    let (t, st) = suggest_type(a, group.as_str());
    let mut entity_id = default_entity;
    if let Some(m) = m {
        if m.skip {
            return Ok(None);
        }
        if m.entity_id > 0 {
            entity_id = m.entity_id;
        }
        let account_type = if m.account_type.as_str().is_empty() {
            own(t)
        } else {
            own(m.account_type.as_str())
        };
        let subtype = if m.subtype.as_str().is_empty() {
            own(st)
        } else {
            own(m.subtype.as_str())
        };
        return match AccountType::parse(account_type.as_str()) {
            Ok(account_type) => Ok(Some(AccountChoice { entity_id, group, account_type, subtype })),
            Err(e) => Err(e),
        };
    }
    match AccountType::parse(t) {
        Ok(account_type) => Ok(Some(AccountChoice { entity_id, group, account_type, subtype: own(st) })),
        Err(e) => Err(e),
    }
}

/// Whether an account to open is that of a choice, under its group's account.
pub open spec fn opens(a: ShownAccount, c: AccountChoice, parent_id: i64, x: NewAccount) -> bool {
    &&& x.entity_id == c.entity_id
    &&& x.parent_id == Some(parent_id)
    &&& x.code@ == Seq::<char>::empty()
    &&& x.name@ == a.name
    &&& x.account_type == Some(c.account_type)
    &&& x.subtype@ == c.subtype@
    &&& x.commodity@ == a.code
    &&& x.system_role@ == Seq::<char>::empty()
    &&& !x.placeholder
    &&& x.in_net_worth == !a.exclude
    &&& view_of(x.credit_limit) == limit_of(a)
    &&& x.statement_day is None
    &&& x.due_day == (if 1 <= a.due <= 31 {
        Some(a.due as i32)
    } else {
        None
    })
    &&& x.external_ids@ == object_text(seq![("account_tracker"@, json_text(int_text(a.id as int)))])
    &&& x.notes@ == "Imported from Account Tracker group "@ + c.group@
    &&& x.position == 0
}

pub fn open_account(a: &AtAccount, c: &AccountChoice, parent_id: i64) -> (x: NewAccount)
    ensures
        opens(a@, *c, parent_id, x),
{
    proof {
        reveal_strlit("");
        assert(""@ =~= Seq::<char>::empty());
    }
    let known: Vec<(&str, String)> = vec![("account_tracker", json_string(int_string(a.id).as_str()))];
    assert(members(known@) =~= seq![("account_tracker"@, json_text(int_text(a.id as int)))]);
    NewAccount {
        entity_id: c.entity_id,
        parent_id: Some(parent_id),
        code: own(""),
        name: own(a.name.as_str()),
        account_type: Some(c.account_type),
        subtype: own(c.subtype.as_str()),
        commodity: own(a.code.as_str()),
        system_role: own(""),
        placeholder: false,
        in_net_worth: !a.exclude,
        credit_limit: credit_limit(a),
        statement_day: None,
        due_day: if 1 <= a.due && a.due <= 31 {
            Some(a.due as i32)
        } else {
            None
        },
        external_ids: object(&known),
        notes: cat("Imported from Account Tracker group ", c.group.as_str()),
        position: 0,
    }
}

/// The earliest date of the first `n` transactions that touch an account.
pub open spec fn first_on(ts: Seq<ShownTransaction>, id: i64, n: nat) -> Option<Date>
    decreases n,
{
    if n == 0 || id == 0 {
        None
    } else {
        let before = first_on(ts, id, (n - 1) as nat);
        let t = ts[n - 1];
        if (t.from == id || t.to == id) && (before is None || t.date.before(before->0)) {
            Some(t.date)
        } else {
            before
        }
    }
}

/// The day on which an account's opening balance is booked: the one before its first transaction, or
/// the day of the export where it has none.
pub open spec fn opens_on(b: ShownBackup, id: i64) -> Option<Date> {
    match first_on(b.transactions, id, b.transactions.len()) {
        Some(d) => later(d, -1),
        None => Some(b.exported_on),
    }
}

pub fn opening_date(b: &Backup, id: i64) -> (r: Option<Date>)
    ensures
        r == opens_on(b@, id),
{
    let mut first: Option<Date> = None;
    if id != 0 {
        let mut n: usize = 0;
        while n < b.transactions.len()
            invariant
                n <= b.transactions@.len(),
                id != 0,
                first == first_on(b@.transactions, id, n as nat),
            decreases b.transactions@.len() - n,
        {
            let t = &b.transactions[n];
            assert(b@.transactions[n as int] == t@);
            if t.from == id || t.to == id {
                first = match first {
                    Some(d) => if t.date.is_before(d) {
                        Some(t.date)
                    } else {
                        Some(d)
                    },
                    None => Some(t.date),
                };
            }
            n = n + 1;
        }
    }
    match first {
        Some(d) => days_later(d, -1),
        None => Some(b.exported_on),
    }
}

/// The id under which an account's opening balance is booked.
pub open spec fn opening_id(id: i64) -> Seq<char> {
    "at:opening:"@ + int_text(id as int)
}

pub open spec fn none_meta() -> Seq<crate::model::MetaEntry> {
    Seq::empty()
}

/// Whether a posting is one of a quantity on an account, under an external id, with the amount that was
/// paid in another currency where there is one.
pub open spec fn bank_posting(p: PostingInput, account_id: i64, quantity: Num, external: Seq<char>, original: Option<(Num, Seq<char>)>) -> bool {
    &&& p.account_id == account_id
    &&& p.quantity@ == quantity
    &&& p.amount is None
    &&& p.memo@ == Seq::<char>::empty()
    &&& opt_text(p.external_id) == Some(external)
    &&& p.fingerprint is None
    &&& !p.balance
    &&& p.value_in is None
    &&& match original {
        None => p.metadata@ == none_meta(),
        Some((n, commodity)) => p.metadata@.len() == 1 && p.metadata@[0].key@ == "original"@ && (p.metadata@[0].value matches MetaValue::Value {
            quantity: q,
            commodity: c,
        } && q@ == decimal_text(normal(n)) && c@ == commodity),
    }
}

/// Whether a posting takes what the others leave, with a memo.
pub open spec fn rest_posting(p: PostingInput, account_id: i64, memo: Seq<char>) -> bool {
    &&& p.account_id == account_id
    &&& p.quantity@ == (0int, 0nat)
    &&& p.amount is None
    &&& p.memo@ == memo
    &&& p.metadata@ == none_meta()
    &&& p.external_id is None
    &&& p.fingerprint is None
    &&& p.balance
    &&& p.value_in is None
}

/// Whether a posting is valued in a commodity, with a memo.
pub open spec fn part_posting(p: PostingInput, account_id: i64, value: Num, commodity: Seq<char>, memo: Seq<char>) -> bool {
    &&& p.account_id == account_id
    &&& p.quantity@ == (0int, 0nat)
    &&& p.amount is None
    &&& p.memo@ == memo
    &&& p.metadata@ == none_meta()
    &&& p.external_id is None
    &&& p.fingerprint is None
    &&& !p.balance
    &&& p.value_in is Some && (p.value_in->0).0@ == value && (p.value_in->0).1@ == commodity
}

/// Whether an entry is one of the migration, posted, with a payee and notes.
pub open spec fn migrated(x: EntryInput, entity_id: i64, date: Date, payee: Seq<char>, description: Seq<char>, notes: Seq<char>) -> bool {
    &&& x.entity_id == entity_id
    &&& x.date == date
    &&& x.payee@ == payee
    &&& x.description@ == description
    &&& x.notes@ == notes
    &&& x.status == EntryStatus::Posted
    &&& x.template_id is None
    &&& x.template_version is None
    &&& x.origin@ == "migration"@
    &&& x.counterpart_id is None
    &&& x.reverses_id is None
    &&& !x.absorb_fx
}

fn migration_entry(entity_id: i64, date: Date, payee: &str, description: &str, notes: &str) -> (x: EntryInput)
    ensures
        migrated(x, entity_id, date, payee@, description@, notes@),
        x.postings@.len() == 0,
{
    let mut x = EntryInput::new(entity_id, date);
    x.payee = own(payee);
    x.description = own(description);
    x.notes = own(notes);
    x.origin = own("migration");
    x
}

/// The entry of an account's opening balance, against the account for opening balances.
pub fn opening_entry(a: &AtAccount, account_id: i64, entity_id: i64, date: Date, against: i64) -> (x: EntryInput)
    ensures
        migrated(x, entity_id, date, "Opening balance"@, "Balance carried into Account Tracker for "@ + a.name@, Seq::empty()),
        x.postings@.len() == 2,
        bank_posting(x.postings@[0], account_id, pence_num(a.opening), opening_id(a.id), None),
        rest_posting(x.postings@[1], against, Seq::empty()),
{
    proof {
        reveal_strlit("");
        assert(""@ =~= Seq::<char>::empty());
    }
    let description = cat("Balance carried into Account Tracker for ", a.name.as_str());
    let mut x = migration_entry(entity_id, date, "Opening balance", description.as_str(), "");
    let ext = cat("at:opening:", int_string(a.id).as_str());
    x.postings.push(PostingInput::new(account_id, pence_to_decimal(a.opening)).external(Some(ext), None));
    x.postings.push(PostingInput::balancing(against));
    x
}

/// Whether some account that takes part in a transaction is among those imported: what it comes from
/// and what it goes to, each where it names one.
pub open spec fn touches(t: ShownTransaction, targets: Seq<i64>) -> bool {
    let from = targets.contains(t.from);
    let to = targets.contains(t.to);
    !(t.from != 0 && !from && t.to != 0 && !to) && !(t.from == 0 && !to) && !(t.to == 0 && !from)
}

fn is_target(targets: &[i64], id: i64) -> (r: bool)
    ensures
        r == targets@.contains(id),
{
    let mut i: usize = 0;
    while i < targets.len()
        invariant
            i <= targets@.len(),
            forall|j: int| 0 <= j < i ==> targets@[j] != id,
        decreases targets@.len() - i,
    {
        if targets[i] == id {
            assert(targets@.contains(targets@[i as int]));
            return true;
        }
        i = i + 1;
    }
    false
}

/// The id under which an occurrence is booked.
pub open spec fn external_of(t: ShownTransaction, seq: i64) -> Seq<char> {
    if t.repeat is Some {
        "at:"@ + t.id + "#"@ + int_text(seq as int)
    } else {
        "at:"@ + t.id
    }
}

pub fn external_id(tx: &AtTransaction, seq: i64) -> (r: String)
    ensures
        r@ == external_of(tx@, seq),
{
    if tx.repeat.is_some() {
        cat4("at:", tx.id.as_str(), "#", int_string(seq).as_str())
    } else {
        cat("at:", tx.id.as_str())
    }
}

/// A line of the import: the occurrence that it stands for.
#[derive(Debug)]
pub struct PlannedLine {
    pub transaction: usize,
    pub sequence: i64,
    pub date: Date,
    pub pence: i64,
    pub external_id: String,
    pub position: i32,
}

#[verifier::ext_equal]
pub struct ShownPlan {
    pub transaction: nat,
    pub sequence: i64,
    pub date: Date,
    pub pence: i64,
    pub external_id: Seq<char>,
    pub position: int,
}

impl View for PlannedLine {
    type V = ShownPlan;

    open spec fn view(&self) -> ShownPlan {
        ShownPlan {
            transaction: self.transaction as nat,
            sequence: self.sequence,
            date: self.date,
            pence: self.pence,
            external_id: self.external_id@,
            position: self.position as int,
        }
    }
}

pub open spec fn shown_plans(v: Seq<PlannedLine>) -> Seq<ShownPlan> {
    Seq::new(v.len(), |i: int| v[i]@)
}

/// The lines of the first `k` occurrences of a transaction, behind those before.
pub open spec fn occurrence_lines(before: Seq<ShownPlan>, t: ShownTransaction, place: nat, found: Seq<Occurrence>, k: nat) -> Seq<ShownPlan>
    decreases k,
{
    if k == 0 {
        before
    } else {
        let lines = occurrence_lines(before, t, place, found, (k - 1) as nat);
        let (sequence, date, pence) = found[k - 1];
        if pence == 0 {
            lines
        } else {
            lines.push(ShownPlan { transaction: place, sequence, date, pence, external_id: external_of(t, sequence), position: lines.len() as int + 1 })
        }
    }
}

/// The lines of the first `n` transactions: those that touch an imported account, each occurrence that
/// moves money, numbered from one.
pub open spec fn planned(b: ShownBackup, targets: Seq<i64>, expand: bool, n: nat) -> Option<Seq<ShownPlan>>
    decreases n,
{
    if n == 0 {
        Some(Seq::empty())
    } else {
        match planned(b, targets, expand, (n - 1) as nat) {
            None => None,
            Some(before) => {
                let t = b.transactions[n - 1];
                match read(t, b.exported_on, expand) {
                    None => None,
                    Some(found) => if touches(t, targets) {
                        Some(occurrence_lines(before, t, (n - 1) as nat, found, found.len()))
                    } else {
                        Some(before)
                    },
                }
            },
        }
    }
}

proof fn lemma_planned_stopped(b: ShownBackup, targets: Seq<i64>, expand: bool, k: nat, n: nat)
    requires
        k <= n,
        planned(b, targets, expand, k) is None,
    ensures
        planned(b, targets, expand, n) is None,
    decreases n,
{
    if k < n {
        lemma_planned_stopped(b, targets, expand, k, (n - 1) as nat);
    }
}

proof fn lemma_lines_grow(before: Seq<ShownPlan>, t: ShownTransaction, place: nat, found: Seq<Occurrence>, k: nat, n: nat)
    requires
        k <= n,
    ensures
        occurrence_lines(before, t, place, found, k).len() <= occurrence_lines(before, t, place, found, n).len(),
    decreases n,
{
    if k < n {
        lemma_lines_grow(before, t, place, found, k, (n - 1) as nat);
    }
}

proof fn lemma_planned_grow(b: ShownBackup, targets: Seq<i64>, expand: bool, k: nat, n: nat)
    requires
        k <= n,
        planned(b, targets, expand, n) is Some,
    ensures
        planned(b, targets, expand, k) is Some,
        planned(b, targets, expand, k)->0.len() <= planned(b, targets, expand, n)->0.len(),
    decreases n,
{
    if k < n {
        lemma_planned_grow(b, targets, expand, k, (n - 1) as nat);
        let t = b.transactions[n - 1];
        let before = planned(b, targets, expand, (n - 1) as nat)->0;
        let found = read(t, b.exported_on, expand)->0;
        lemma_lines_grow(before, t, (n - 1) as nat, found, 0, found.len());
    }
}

/// The most lines that an import holds.
pub const MAX_LINES: usize = 2_147_483_647;

pub open spec fn plan_of(b: ShownBackup, targets: Seq<i64>, expand: bool) -> std::result::Result<Seq<ShownPlan>, Refusal> {
    match planned(b, targets, expand, b.transactions.len()) {
        None => Err(Refusal::Invalid("a repeat of the backup runs past the calendar"@)),
        Some(lines) => if lines.len() > MAX_LINES {
            Err(Refusal::Invalid("the backup has too many transactions"@))
        } else {
            Ok(lines)
        },
    }
}

/// The lines of an import, in order. `targets` are the accounts of the backup that are imported.
pub fn plan(b: &Backup, targets: &[i64], expand: bool) -> (r: Result<Vec<PlannedLine>>)
    ensures
        match r {
            Ok(v) => plan_of(b@, targets@, expand) == Ok::<Seq<ShownPlan>, Refusal>(shown_plans(v@)),
            Err(e) => plan_of(b@, targets@, expand) == Err::<Seq<ShownPlan>, Refusal>(e@),
        },
{
    let ghost n = b.transactions@.len();
    let mut lines: Vec<PlannedLine> = Vec::new();
    let mut full = false;
    let mut i: usize = 0;
    assert(shown_plans(lines@) =~= Seq::<ShownPlan>::empty());
    while i < b.transactions.len()
        invariant
            i <= b.transactions@.len() == n,
            planned(b@, targets@, expand, i as nat) is Some,
            full ==> planned(b@, targets@, expand, i as nat)->0.len() > MAX_LINES,
            !full ==> planned(b@, targets@, expand, i as nat) == Some(shown_plans(lines@)) && lines@.len() <= MAX_LINES,
        decreases b.transactions@.len() - i,
    {
        let t = &b.transactions[i];
        assert(b@.transactions[i as int] == t@);
        proof {
            if planned(b@, targets@, expand, (i + 1) as nat) is None {
                lemma_planned_stopped(b@, targets@, expand, (i + 1) as nat, n);
            }
        }
        let found = if expand {
            match occurrences(t, b.exported_on) {
                Some(f) => f,
                None => {
                    return Err(invalid("a repeat of the backup runs past the calendar"));
                },
            }
        } else {
            let mut one: Vec<Occurrence> = Vec::new();
            one.push((0, t.date, t.pence));
            assert(one@ =~= seq![(0i64, t.date, t.pence)]);
            one
        };
        proof {
            lemma_planned_grow(b@, targets@, expand, i as nat, (i + 1) as nat);
        }
        let from = is_target(targets, t.from);
        let to = is_target(targets, t.to);
        let touched = !(t.from != 0 && !from && t.to != 0 && !to) && !(t.from == 0 && !to) && !(t.to == 0 && !from);
        if touched && !full {
            let ghost before = shown_plans(lines@);
            let mut k: usize = 0;
            while k < found.len() && !full
                invariant
                    k <= found@.len(),
                    lines@.len() <= MAX_LINES,
                    full ==> occurrence_lines(before, t@, i as nat, found@, found@.len()).len() > MAX_LINES,
                    !full ==> shown_plans(lines@) == occurrence_lines(before, t@, i as nat, found@, k as nat),
                decreases found@.len() - k + (if full {
                    0int
                } else {
                    1
                }),
            {
                let (sequence, date, pence) = found[k];
                if pence != 0 {
                    if lines.len() >= MAX_LINES {
                        proof {
                            lemma_lines_grow(before, t@, i as nat, found@, (k + 1) as nat, found@.len());
                        }
                        full = true;
                    } else {
                        let ghost held = shown_plans(lines@);
                        let line = PlannedLine {
                            transaction: i,
                            sequence,
                            date,
                            pence,
                            external_id: external_id(t, sequence),
                            position: lines.len() as i32 + 1,
                        };
                        lines.push(line);
                        assert(shown_plans(lines@) =~= held.push(line@));
                    }
                }
                if !full {
                    k = k + 1;
                }
            }
        }
        i = i + 1;
    }
    if full {
        Err(invalid("the backup has too many transactions"))
    } else {
        Ok(lines)
    }
}

/// An import numbers its lines from one, without gaps.
pub proof fn law_lines_numbered(b: ShownBackup, targets: Seq<i64>, expand: bool, n: nat, i: int)
    requires
        planned(b, targets, expand, n) is Some,
        0 <= i < planned(b, targets, expand, n)->0.len(),
    ensures
        planned(b, targets, expand, n)->0[i].position == i + 1,
        planned(b, targets, expand, n)->0[i].pence != 0,
    decreases n,
{
    if n > 0 {
        let t = b.transactions[n - 1];
        let before = planned(b, targets, expand, (n - 1) as nat)->0;
        let found = read(t, b.exported_on, expand)->0;
        if i < before.len() {
            law_lines_numbered(b, targets, expand, (n - 1) as nat, i);
        }
        if touches(t, targets) {
            lemma_lines_numbered(before, t, (n - 1) as nat, found, found.len(), i);
        }
    }
}

proof fn lemma_lines_numbered(before: Seq<ShownPlan>, t: ShownTransaction, place: nat, found: Seq<Occurrence>, k: nat, i: int)
    requires
        0 <= i < occurrence_lines(before, t, place, found, k).len(),
        i < before.len() ==> before[i].position == i + 1 && before[i].pence != 0,
    ensures
        occurrence_lines(before, t, place, found, k)[i].position == i + 1,
        occurrence_lines(before, t, place, found, k)[i].pence != 0,
    decreases k,
{
    if k > 0 {
        let lines = occurrence_lines(before, t, place, found, (k - 1) as nat);
        if i < lines.len() {
            lemma_lines_numbered(before, t, place, found, (k - 1) as nat, i);
        }
    }
}

/// The categories of an amount, each with its part.
pub open spec fn parts_of(t: ShownTransaction, pence: i64) -> Seq<(Seq<char>, i64)> {
    if t.splits.len() == 0 {
        seq![(t.category, pence)]
    } else {
        t.splits
    }
}

/// Whether money in is the balance that an account was opened with.
pub open spec fn first_deposit(t: ShownTransaction) -> bool {
    t.category.len() == 0 && lowered(trimmed(t.details)) == "initial deposit"@
}

/// What an entry is booked against.
#[derive(Debug)]
pub enum Against {
    /// The account for opening balances.
    Opening,
    /// A category: money in books as income unless it is a refund, and what has no name to suspense.
    Category { name: String, income: bool },
}

pub open spec fn is_against(x: Against, name: Seq<char>, income: bool) -> bool {
    x matches Against::Category { name: n, income: i } && n@ == name && i == income
}

/// Whether a list is what a transaction is booked against: money in where `arrives`.
pub open spec fn booked_against(t: ShownTransaction, arrives: bool, v: Seq<Against>) -> bool {
    if arrives && first_deposit(t) {
        v.len() == 1 && v[0] is Opening
    } else {
        let parts = parts_of(t, 0);
        v.len() == parts.len() && forall|i: int|
            0 <= i < v.len() ==> is_against(#[trigger] v[i], parts[i].0, arrives && !t.refund && parts[i].0.len() > 0)
    }
}

/// How many accounts a transaction is booked against.
pub open spec fn against_count(t: ShownTransaction, arrives: bool) -> nat {
    if (arrives && first_deposit(t)) || t.splits.len() == 0 {
        1
    } else {
        t.splits.len()
    }
}

fn is_first_deposit(tx: &AtTransaction) -> (r: bool)
    ensures
        r == first_deposit(tx@),
{
    tx.category.as_str().is_empty() && same(lower(trim(tx.details.as_str()).as_str()).as_str(), "initial deposit")
}

/// What a transaction is booked against, in order: one account for each is to be found or opened.
pub fn against(tx: &AtTransaction, arrives: bool) -> (v: Vec<Against>)
    ensures
        booked_against(tx@, arrives, v@),
        v@.len() == against_count(tx@, arrives),
{
    let mut v: Vec<Against> = Vec::new();
    if arrives && is_first_deposit(tx) {
        v.push(Against::Opening);
        return v;
    }
    if tx.splits.len() == 0 {
        v.push(Against::Category { name: own(tx.category.as_str()), income: arrives && !tx.refund && !tx.category.as_str().is_empty() });
        return v;
    }
    let mut i: usize = 0;
    while i < tx.splits.len()
        invariant
            i <= tx.splits@.len(),
            v@.len() == i,
            forall|j: int|
                0 <= j < i ==> is_against(#[trigger] v@[j], tx@.splits[j].0, arrives && !tx.refund && tx@.splits[j].0.len() > 0),
        decreases tx.splits@.len() - i,
    {
        let name = own(tx.splits[i].0.as_str());
        let income = arrives && !tx.refund && !name.as_str().is_empty();
        assert(tx@.splits[i as int].0 == tx.splits@[i as int].0@);
        v.push(Against::Category { name, income });
        i = i + 1;
    }
    v
}

/// The amount that was paid in another currency.
pub open spec fn original_of(t: ShownTransaction) -> Option<(Num, Seq<char>)> {
    match (t.foreign, t.code) {
        (Some(f), Some(c)) => Some((pence_num(f), c)),
        _ => None,
    }
}

pub open spec fn signed(n: Num, arrives: bool) -> Num {
    if arrives {
        n
    } else {
        (-n.0, n.1)
    }
}

/// Whether an entry books an amount on an account against others: each part but the last by its value,
/// and the last takes the rest.
pub open spec fn books(
    t: ShownTransaction,
    pence: i64,
    date: Date,
    external: Seq<char>,
    account: Account,
    arrives: bool,
    ids: Seq<i64>,
    x: EntryInput,
) -> bool {
    let parts = parts_of(t, pence);
    let n = ids.len();
    &&& migrated(x, account.entity_id, date, trimmed(t.details), Seq::empty(), t.notes)
    &&& x.postings@.len() == n + 1
    &&& bank_posting(x.postings@[0], account.id, signed(pence_num(pence), arrives), external, original_of(t))
    &&& if arrives && first_deposit(t) {
        rest_posting(x.postings@[1], ids[0], Seq::empty())
    } else {
        &&& forall|i: int|
            0 <= i < n - 1 ==> part_posting(
                #[trigger] x.postings@[i + 1],
                ids[i],
                signed(pence_num(parts[i].1), !arrives),
                account.commodity@,
                parts[i].0,
            )
        &&& rest_posting(x.postings@[n as int], ids[n - 1], parts[n - 1].0)
    }
}

fn bank_input(tx: &AtTransaction, account_id: i64, quantity: Decimal, ext: &str) -> (p: PostingInput)
    ensures
        bank_posting(p, account_id, quantity@, ext@, original_of(tx@)),
{
    let p = PostingInput::new(account_id, quantity).external(Some(own(ext)), None);
    match (&tx.foreign, &tx.code) {
        (Some(f), Some(c)) => {
            let ghost before = p.metadata@;
            let p = p.meta("original", MetaValue::Value { quantity: plain(pence_to_decimal(*f)), commodity: own(c.as_str()) });
            assert(crate::model::meta_without(before, "original"@).len() == 0);
            p
        },
        _ => p,
    }
}

/// The entry of money out of an account, or into it.
pub fn entry(tx: &AtTransaction, pence: i64, date: Date, ext: &str, account: &Account, arrives: bool, ids: &[i64]) -> (x: EntryInput)
    requires
        ids@.len() == against_count(tx@, arrives),
    ensures
        books(tx@, pence, date, ext@, *account, arrives, ids@, x),
{
    proof {
        reveal_strlit("");
        assert(""@ =~= Seq::<char>::empty());
    }
    let amount = pence_to_decimal(pence);
    let quantity = if arrives {
        amount
    } else {
        amount.negated()
    };
    let mut x = migration_entry(account.entity_id, date, trim(tx.details.as_str()).as_str(), "", tx.notes.as_str());
    x.postings.push(bank_input(tx, account.id, quantity, ext));
    if arrives && is_first_deposit(tx) {
        x.postings.push(PostingInput::balancing(ids[0]));
        return x;
    }
    let ghost parts = parts_of(tx@, pence);
    let n: usize = ids.len();
    let mut i: usize = 0;
    while i + 1 < n
        invariant
            i < n == ids@.len(),
            n == against_count(tx@, arrives),
            !(arrives && first_deposit(tx@)),
            parts == parts_of(tx@, pence),
            migrated(x, account.entity_id, date, trimmed(tx@.details), Seq::empty(), tx@.notes),
            x.postings@.len() == i + 1,
            bank_posting(x.postings@[0], account.id, quantity@, ext@, original_of(tx@)),
            forall|j: int|
                0 <= j < i ==> part_posting(
                    #[trigger] x.postings@[j + 1],
                    ids@[j],
                    signed(pence_num(parts[j].1), !arrives),
                    account.commodity@,
                    parts[j].0,
                ),
        decreases n - i,
    {
        let part = pence_to_decimal(tx.splits[i].1);
        let value = if arrives {
            part.negated()
        } else {
            part
        };
        assert(parts[i as int] == (tx.splits@[i as int].0@, tx.splits@[i as int].1));
        let ghost before = x.postings@;
        let p = PostingInput::valued(ids[i], value, account.commodity.as_str()).memo(tx.splits[i].0.as_str());
        assert(part_posting(p, ids@[i as int], signed(pence_num(parts[i as int].1), !arrives), account.commodity@, parts[i as int].0));
        x.postings.push(p);
        assert forall|j: int| 0 <= j < i + 1 implies part_posting(
            #[trigger] x.postings@[j + 1],
            ids@[j],
            signed(pence_num(parts[j].1), !arrives),
            account.commodity@,
            parts[j].0,
        ) by {
            if j < i {
                assert(x.postings@[j + 1] == before[j + 1]);
            }
        }
        i = i + 1;
    }
    let memo = if tx.splits.len() == 0 {
        own(tx.category.as_str())
    } else {
        own(tx.splits[n - 1].0.as_str())
    };
    assert(memo@ == parts[n - 1].0);
    let ghost before = x.postings@;
    x.postings.push(PostingInput::balancing(ids[n - 1]).memo(memo.as_str()));
    assert forall|j: int| 0 <= j < n - 1 implies part_posting(
        #[trigger] x.postings@[j + 1],
        ids@[j],
        signed(pence_num(parts[j].1), !arrives),
        account.commodity@,
        parts[j].0,
    ) by {
        assert(x.postings@[j + 1] == before[j + 1]);
    }
    x
}

/// Whether a transfer moves what a transaction moves between two accounts.
pub open spec fn transfers(
    t: ShownTransaction,
    pence: i64,
    date: Date,
    side: PenceSide,
    accounts: Seq<ShownAccount>,
    from: Account,
    to: Account,
    x: Transfer,
) -> bool {
    let (out, arrives) = amounts_of(t, pence, side, accounts);
    let payee = trimmed(t.details);
    &&& x.date == date
    &&& x.from_account_id == from.id
    &&& x.to_account_id == to.id
    &&& x.from_quantity@ == pence_num(out)
    &&& view_of(x.to_quantity) == Some(pence_num(arrives))
    &&& x.fee is None
    &&& x.fee_account_id is None
    &&& x.payee@ == (if payee.len() == 0 {
        "Transfer to "@ + to.name@
    } else {
        payee
    })
    &&& x.notes@ == t.notes
    &&& x.from_contra_account_id is None
    &&& x.to_contra_account_id is None
    &&& x.status == EntryStatus::Posted
    &&& x.origin@ == "migration"@
}

fn transfer(tx: &AtTransaction, pence: i64, date: Date, side: PenceSide, accounts: &Vec<AtAccount>, from: &Account, to: &Account) -> (x: Transfer)
    ensures
        transfers(tx@, pence, date, side, shown_accounts(accounts@), *from, *to, x),
{
    let (out, arrives) = amounts_for(tx, pence, side, accounts);
    let payee = trim(tx.details.as_str());
    Transfer {
        date,
        from_account_id: from.id,
        to_account_id: to.id,
        from_quantity: pence_to_decimal(out),
        to_quantity: Some(pence_to_decimal(arrives)),
        fee: None,
        fee_account_id: None,
        payee: if payee.as_str().is_empty() {
            cat("Transfer to ", to.name.as_str())
        } else {
            payee
        },
        notes: own(tx.notes.as_str()),
        from_contra_account_id: None,
        to_contra_account_id: None,
        status: EntryStatus::Posted,
        origin: own("migration"),
    }
}

/// How an occurrence is booked, and the line that stands for it: the account and the amount on it.
#[derive(Debug)]
pub enum Booking {
    Transfer { transfer: Transfer, account_id: i64, amount: Decimal },
    Entry { entry: EntryInput, account_id: i64, amount: Decimal },
}

/// Books an occurrence: a transfer between two imported accounts, or money out of one or into one
/// against the accounts `ids`.
pub fn post_transaction(
    tx: &AtTransaction,
    pence: i64,
    date: Date,
    ext: &str,
    side: PenceSide,
    accounts: &Vec<AtAccount>,
    from: Option<&Account>,
    to: Option<&Account>,
    ids: &[i64],
) -> (r: Result<Booking>)
    requires
        from is Some && to is None ==> ids@.len() == against_count(tx@, false),
        from is None && to is Some ==> ids@.len() == against_count(tx@, true),
    ensures
        match (from, to) {
            (Some(f), Some(t)) => r matches Ok(Booking::Transfer { transfer, account_id, amount }) && transfers(
                tx@,
                pence,
                date,
                side,
                shown_accounts(accounts@),
                *f,
                *t,
                transfer,
            ) && account_id == f.id && amount@ == signed(pence_num(amounts_of(tx@, pence, side, shown_accounts(accounts@)).0), false),
            (Some(f), None) => r matches Ok(Booking::Entry { entry, account_id, amount }) && books(tx@, pence, date, ext@, *f, false, ids@, entry)
                && account_id == f.id && amount@ == signed(pence_num(pence), false),
            (None, Some(t)) => r matches Ok(Booking::Entry { entry, account_id, amount }) && books(tx@, pence, date, ext@, *t, true, ids@, entry)
                && account_id == t.id && amount@ == pence_num(pence),
            (None, None) => r matches Err(e) && e.invalid("transaction touches no known account"@),
        },
{
    match (from, to) {
        (Some(f), Some(t)) => {
            let x = transfer(tx, pence, date, side, accounts, f, t);
            let amount = x.from_quantity.negated();
            Ok(Booking::Transfer { transfer: x, account_id: f.id, amount })
        },
        (Some(f), None) => Ok(
            Booking::Entry { entry: entry(tx, pence, date, ext, f, false, ids), account_id: f.id, amount: pence_to_decimal(pence).negated() },
        ),
        (None, Some(t)) => Ok(Booking::Entry { entry: entry(tx, pence, date, ext, t, true, ids), account_id: t.id, amount: pence_to_decimal(pence) }),
        (None, None) => Err(invalid("transaction touches no known account")),
    }
}

/// The first date, from `i` on, that lies after another.
pub open spec fn next_from(found: Seq<Occurrence>, after: Date, i: int) -> Option<Date>
    decreases found.len() - i,
{
    if i < 0 || i >= found.len() {
        None
    } else if after.before(found[i].1) {
        Some(found[i].1)
    } else {
        next_from(found, after, i + 1)
    }
}

/// When a repeat next occurs after the export, within ten years and a little.
pub open spec fn next_of(t: ShownTransaction, exported_on: Date) -> Option<Date> {
    match later(exported_on, 3660) {
        Some(until) => match occurrences_of(t, until, false) {
            Some(found) => next_from(found, exported_on, 0),
            None => None,
        },
        None => None,
    }
}

pub fn next_occurrence(tx: &AtTransaction, exported_on: Date) -> (r: Option<Date>)
    ensures
        r == next_of(tx@, exported_on),
{
    let until = match days_later(exported_on, 3660) {
        Some(d) => d,
        None => {
            return None;
        },
    };
    let found = match occurrences(tx, until) {
        Some(f) => f,
        None => {
            return None;
        },
    };
    let mut i: usize = 0;
    while i < found.len()
        invariant
            i <= found@.len(),
            later(exported_on, 3660) == Some(until),
            occurrences_of(tx@, until, false) == Some(found@),
            next_from(found@, exported_on, 0) == next_from(found@, exported_on, i as int),
        decreases found@.len() - i,
    {
        if exported_on.is_before(found[i].1) {
            return Some(found[i].1);
        }
        i = i + 1;
    }
    None
}

pub open spec fn frequency(unit: Seq<char>) -> Seq<char> {
    if starts(unit, "day"@) {
        "DAILY"@
    } else if starts(unit, "week"@) || starts(unit, "fortnight"@) {
        "WEEKLY"@
    } else if starts(unit, "year"@) {
        "YEARLY"@
    } else {
        "MONTHLY"@
    }
}

pub open spec fn interval_of(rep: ShownRepeat) -> int {
    if starts(lowercase_of(rep.unit), "fortnight"@) {
        2 * rep.every
    } else {
        rep.every as int
    }
}

/// The recurrence rule of a repeat.
pub open spec fn rule_of(rep: ShownRepeat) -> Seq<char> {
    let rule = "FREQ="@ + frequency(lowercase_of(rep.unit)) + ";INTERVAL="@ + int_text(interval_of(rep));
    match rep.on {
        Some(on) if lowered(rep.end) == "on"@ => rule + (";UNTIL="@ + year_text(on.y()) + wide(on.m() as nat, 2) + wide(on.d() as nat, 2)),
        _ => rule,
    }
}

fn rrule(rep: &Repeat) -> (r: Option<String>)
    ensures
        match r {
            Some(s) => s@ == rule_of(rep@) && i64::MIN <= interval_of(rep@) <= i64::MAX,
            None => interval_of(rep@) > i64::MAX || interval_of(rep@) < i64::MIN,
        },
{
    let unit = to_lowercase(rep.unit.as_str());
    let u = unit.as_str();
    let fortnight = starts_with(u, "fortnight");
    let freq = if starts_with(u, "day") {
        "DAILY"
    } else if starts_with(u, "week") || fortnight {
        "WEEKLY"
    } else if starts_with(u, "year") {
        "YEARLY"
    } else {
        "MONTHLY"
    };
    let interval: i128 = if fortnight {
        2 * (rep.every as i128)
    } else {
        rep.every as i128
    };
    if interval > 9223372036854775807 || interval < -9223372036854775808 {
        return None;
    }
    let rule = cat4("FREQ=", freq, ";INTERVAL=", int_string(interval as i64).as_str());
    match rep.on {
        Some(on) => if same(lower(rep.end.as_str()).as_str(), "on") {
            let year = crate::date::year_string(on);
            let until = cat4(";UNTIL=", year.as_str(), wide_string(on.month(), 2).as_str(), wide_string(on.day(), 2).as_str());
            Some(cat(rule.as_str(), until.as_str()))
        } else {
            Some(rule)
        },
        None => Some(rule),
    }
}

pub open spec fn input_line(l: TemplateLine, account: Account, value: Num) -> bool {
    &&& l.account_id == account.id
    &&& l.method@ == "input"@
    &&& view_of(l.value) == Some(value)
    &&& l.of_line is None
    &&& l.memo@ == Seq::<char>::empty()
    &&& l.label@ == account.name@
}

pub open spec fn balance_line(l: TemplateLine, account_id: i64, memo: Seq<char>) -> bool {
    &&& l.account_id == account_id
    &&& l.method@ == "balance"@
    &&& l.value is None
    &&& l.of_line is None
    &&& l.memo@ == memo
    &&& l.label@ == Seq::<char>::empty()
}

/// Whether a template schedules a repeat from a date on.
pub open spec fn schedules(
    t: ShownTransaction,
    rep: ShownRepeat,
    next: Date,
    from: Option<Account>,
    to: Option<Account>,
    category_account: i64,
    x: EntryTemplate,
) -> bool {
    let details = trimmed(t.details);
    let bank = if from is Some {
        from->0
    } else {
        to->0
    };
    &&& x.id == 0
    &&& x.uid@ == Seq::<char>::empty()
    &&& x.entity_id == bank.entity_id
    &&& x.name@ == (if details.len() == 0 {
        t.category
    } else {
        details
    }) + " ("@ + lowercase_of(rep.unit) + ")"@
    &&& x.payee@ == details
    &&& x.description@ == Seq::<char>::empty()
    &&& x.lines@.len() == 2
    &&& input_line(x.lines@[0], bank, signed(pence_num(t.pence), from is None))
    &&& if from is Some && to is Some {
        balance_line(x.lines@[1], to->0.id, Seq::empty())
    } else {
        balance_line(x.lines@[1], category_account, t.category)
    }
    &&& x.rrule@ == rule_of(rep)
    &&& x.starts_on == Some(next)
    &&& x.next_on == Some(next)
    &&& x.ends_on == (if lowered(rep.end) == "on"@ {
        rep.on
    } else {
        None
    })
    &&& !x.auto_post
    &&& x.lead_days == 0
    &&& x.version == 1
    &&& x.active
    &&& x.created_at@ == Seq::<char>::empty()
}

pub open spec fn account_at(a: Option<&Account>) -> Option<Account> {
    match a {
        Some(x) => Some(*x),
        None => None,
    }
}

/// Why a repeat is not scheduled.
pub open spec fn schedule_refusal(rep: ShownRepeat, from: Option<Account>, to: Option<Account>) -> Option<Refusal> {
    if (from is None && to is None) || (from is Some && to is Some && from->0.entity_id != to->0.entity_id) {
        Some(Refusal::Invalid("repeat between entities is not scheduled"@))
    } else if interval_of(rep) > i64::MAX || interval_of(rep) < i64::MIN {
        Some(Refusal::Invalid("repeat interval is out of range"@))
    } else {
        None
    }
}

/// The template of a repeat that still runs: the amount on the bank side, and the rest on the other
/// account or on the category's account.
pub fn schedule_template(
    tx: &AtTransaction,
    rep: &Repeat,
    next: Date,
    from: Option<&Account>,
    to: Option<&Account>,
    category_account: i64,
) -> (r: Result<EntryTemplate>)
    ensures
        match r {
            Ok(x) => schedule_refusal(rep@, account_at(from), account_at(to)) is None && schedules(
                tx@,
                rep@,
                next,
                account_at(from),
                account_at(to),
                category_account,
                x,
            ),
            Err(e) => schedule_refusal(rep@, account_at(from), account_at(to)) == Some(e@),
        },
{
    proof {
        reveal_strlit("");
        assert(""@ =~= Seq::<char>::empty());
    }
    let (bank, arrives) = match (from, to) {
        (Some(f), Some(t)) => if f.entity_id != t.entity_id {
            return Err(invalid("repeat between entities is not scheduled"));
        } else {
            (f, false)
        },
        (Some(f), None) => (f, false),
        (None, Some(t)) => (t, true),
        (None, None) => {
            return Err(invalid("repeat between entities is not scheduled"));
        },
    };
    let rule = match rrule(rep) {
        Some(r) => r,
        None => {
            return Err(invalid("repeat interval is out of range"));
        },
    };
    let amount = pence_to_decimal(tx.pence);
    let value = if arrives {
        amount
    } else {
        amount.negated()
    };
    let (rest, memo) = match (from, to) {
        (Some(_), Some(t)) => (t.id, own("")),
        _ => (category_account, own(tx.category.as_str())),
    };
    let mut lines: Vec<TemplateLine> = Vec::new();
    lines.push(
        TemplateLine { account_id: bank.id, method: own("input"), value: Some(value), of_line: None, memo: own(""), label: own(bank.name.as_str()) },
    );
    lines.push(TemplateLine { account_id: rest, method: own("balance"), value: None, of_line: None, memo, label: own("") });
    let details = trim(tx.details.as_str());
    let title = if details.as_str().is_empty() {
        own(tx.category.as_str())
    } else {
        own(details.as_str())
    };
    let ends_on = if same(lower(rep.end.as_str()).as_str(), "on") {
        rep.on
    } else {
        None
    };
    Ok(
        EntryTemplate {
            id: 0,
            uid: own(""),
            entity_id: bank.entity_id,
            name: cat4(title.as_str(), " (", to_lowercase(rep.unit.as_str()).as_str(), ")"),
            payee: details,
            description: own(""),
            lines,
            rrule: rule,
            starts_on: Some(next),
            next_on: Some(next),
            ends_on,
            auto_post: false,
            lead_days: 0,
            version: 1,
            active: true,
            created_at: own(""),
        },
    )
}

/// Holds the app's balance of an account against the ledger's.
pub fn check_account(a: &AtAccount, actual: Decimal) -> (r: AccountCheck)
    ensures
        r.name@ == a.name@,
        r.expected@ == pence_num(a.balance),
        r.actual@ == actual@,
        r.ok == same_value(actual@, pence_num(a.balance)),
{
    let expected = pence_to_decimal(a.balance);
    AccountCheck { name: own(a.name.as_str()), expected, actual, ok: actual.same(expected) }
}

/// Money out of an account is booked on it below zero and against its categories above; money in the other way
/// round. Pence are hundredths.
pub proof fn law_booking_direction(t: ShownTransaction, pence: i64, date: Date, external: Seq<char>, account: Account, arrives: bool, ids: Seq<i64>, x: EntryInput)
    requires
        books(t, pence, date, external, account, arrives, ids, x),
        ids.len() == against_count(t, arrives),
    ensures
        x.date == date && x.entity_id == account.entity_id,
        x.postings@[0].account_id == account.id,
        x.postings@[0].quantity@ == (if arrives {
            pence as int
        } else {
            -pence
        }, 2nat),
        x.postings@.last().balance && x.postings@.last().account_id == ids.last(),
        !(arrives && first_deposit(t)) ==> forall|i: int|
            0 <= i < t.splits.len() - 1 ==> ((#[trigger] x.postings@[i + 1]).value_in matches Some(v) && v.0@ == (if arrives {
                -t.splits[i].1
            } else {
                t.splits[i].1 as int
            }, 2nat)),
{
    if !(arrives && first_deposit(t)) {
        assert forall|i: int| 0 <= i < t.splits.len() - 1 implies ((#[trigger] x.postings@[i + 1]).value_in matches Some(v) && v.0@ == (if arrives {
            -t.splits[i].1
        } else {
            t.splits[i].1 as int
        }, 2nat)) by {
            assert(part_posting(x.postings@[i + 1], ids[i], signed(pence_num(parts_of(t, pence)[i].1), !arrives), account.commodity@, parts_of(t, pence)[i].0));
        }
    }
}

/// A transfer takes what leaves from the one account and gives what arrives to the other, in hundredths; where
/// both are in one currency these are the same.
pub proof fn law_transfer_sides(
    t: ShownTransaction,
    pence: i64,
    date: Date,
    side: PenceSide,
    accounts: Seq<ShownAccount>,
    from: Account,
    to: Account,
    x: Transfer,
)
    requires
        transfers(t, pence, date, side, accounts, from, to, x),
    ensures
        x.from_account_id == from.id && x.to_account_id == to.id && x.date == date,
        x.from_quantity@ == (amounts_of(t, pence, side, accounts).0 as int, 2nat),
        x.to_quantity matches Some(q) && q@ == (amounts_of(t, pence, side, accounts).1 as int, 2nat),
{
}

} // verus!
