//! The chart of accounts.

use vstd::prelude::*;

use crate::decimal::Decimal;
use crate::entities::{code_form, normalize_code, well_formed_code};
use crate::error::{invalid, locked, not_found, Error, Refusal, Result};
use crate::journal::{check_lock, is_locked, lock_text};
use crate::model::{root_text, type_text, Account, AccountType, Entity, NewAccount};
use crate::order::{stable_order, Key};
use crate::text::{blank, cat, cat3, cat4, cat5, chars, contains, debug_text, holds, int_string, int_text, is_blank, lower, lowered, own, quoted, same, starts, starts_with, trim, trimmed, upper, uppered};

verus! {

/// The place of the account with the id `id`.
pub open spec fn place_of(accounts: Seq<Account>, id: i64) -> Option<int>
    decreases accounts.len(),
{
    if accounts.len() == 0 {
        None
    } else {
        match place_of(accounts.drop_last(), id) {
            Some(i) => Some(i),
            None => if accounts.last().id == id {
                Some(accounts.len() - 1)
            } else {
                None
            },
        }
    }
}

pub proof fn lemma_place(accounts: Seq<Account>, id: i64)
    ensures
        match place_of(accounts, id) {
            Some(i) => 0 <= i < accounts.len() && accounts[i].id == id && forall|k: int| 0 <= k < i ==> (#[trigger] accounts[k]).id
                != id,
            None => forall|k: int| 0 <= k < accounts.len() ==> (#[trigger] accounts[k]).id != id,
        },
    decreases accounts.len(),
{
    if accounts.len() > 0 {
        lemma_place(accounts.drop_last(), id);
        match place_of(accounts.drop_last(), id) {
            Some(i) => {
                assert(accounts.drop_last()[i] == accounts[i]);
                assert forall|k: int| 0 <= k < i implies (#[trigger] accounts[k]).id != id by {
                    assert(accounts.drop_last()[k] == accounts[k]);
                }
            },
            None => {
                assert forall|k: int| 0 <= k < accounts.len() - 1 implies (#[trigger] accounts[k]).id != id by {
                    assert(accounts.drop_last()[k] == accounts[k]);
                }
            },
        }
    }
}

pub fn find_place(accounts: &[Account], id: i64) -> (r: Option<usize>)
    ensures
        match r {
            Some(i) => i < accounts@.len() && place_of(accounts@, id) == Some(i as int) && accounts@[i as int].id == id,
            None => place_of(accounts@, id) is None,
        },
{
    let mut i: usize = 0;
    while i < accounts.len()
        invariant
            i <= accounts.len(),
            place_of(accounts@.take(i as int), id) is None,
        decreases accounts.len() - i,
    {
        assert(accounts@.take(i + 1).drop_last() == accounts@.take(i as int));
        if accounts[i].id == id {
            proof {
                lemma_place_kept(accounts@, id, i as int);
            }
            return Some(i);
        }
        i = i + 1;
    }
    assert(accounts@.take(i as int) == accounts@);
    None
}

proof fn lemma_place_kept(accounts: Seq<Account>, id: i64, i: int)
    requires
        0 <= i < accounts.len(),
        accounts[i].id == id,
        place_of(accounts.take(i), id) is None,
    ensures
        place_of(accounts, id) == Some(i),
{
    lemma_place(accounts.take(i), id);
    lemma_place(accounts, id);
    match place_of(accounts, id) {
        Some(k) => {
            if k < i {
                assert(accounts.take(i)[k] == accounts[k]);
            }
        },
        None => {},
    }
}

pub fn get_account<'a>(accounts: &'a [Account], id: i64) -> (r: Result<&'a Account>)
    ensures
        match r {
            Ok(a) => place_of(accounts@, id) is Some && *a == accounts@[place_of(accounts@, id)->0] && a.id == id,
            Err(e) => place_of(accounts@, id) is None && e.not_found("account "@ + int_text(id as int)),
        },
{
    match find_place(accounts, id) {
        Some(i) => Ok(&accounts[i]),
        None => Err(not_found(cat("account ", int_string(id).as_str()).as_str())),
    }
}

/// The place of the first account of an entity with a system role.
pub open spec fn role_place(accounts: Seq<Account>, entity_id: i64, role: Seq<char>, from: int) -> Option<int>
    decreases accounts.len() - from,
{
    if from < 0 || from >= accounts.len() {
        None
    } else if accounts[from].entity_id == entity_id && accounts[from].system_role@ == role {
        Some(from)
    } else {
        role_place(accounts, entity_id, role, from + 1)
    }
}

pub fn find_by_role<'a>(accounts: &'a [Account], entity_id: i64, role: &str) -> (r: Result<&'a Account>)
    ensures
        match r {
            Ok(a) => {
                &&& role_place(accounts@, entity_id, role@, 0) is Some
                &&& 0 <= role_place(accounts@, entity_id, role@, 0)->0 < accounts@.len()
                &&& *a == accounts@[role_place(accounts@, entity_id, role@, 0)->0]
                &&& a.entity_id == entity_id && a.system_role@ == role@
            },
            Err(e) => role_place(accounts@, entity_id, role@, 0) is None && e.not_found(
                "system account "@ + role@ + " for entity "@ + int_text(entity_id as int),
            ),
        },
{
    let mut i: usize = 0;
    while i < accounts.len()
        invariant
            i <= accounts.len(),
            role_place(accounts@, entity_id, role@, 0) == role_place(accounts@, entity_id, role@, i as int),
        decreases accounts.len() - i,
    {
        if accounts[i].entity_id == entity_id && same(accounts[i].system_role.as_str(), role) {
            return Ok(&accounts[i]);
        }
        i = i + 1;
    }
    Err(not_found(cat4("system account ", role, " for entity ", int_string(entity_id).as_str()).as_str()))
}

/// The longest chain of parents that is followed.
pub const MAX_CHAIN: usize = 64;

/// The accounts from `cur` up through its parents, `cur` first, at most `limit` of them.
pub open spec fn chain(accounts: Seq<Account>, cur: Option<i64>, limit: nat) -> Seq<int>
    decreases limit,
{
    match cur {
        Some(id) => match place_of(accounts, id) {
            Some(i) => if limit == 0 {
                Seq::empty()
            } else {
                seq![i] + chain(accounts, accounts[i].parent_id, (limit - 1) as nat)
            },
            None => Seq::empty(),
        },
        None => Seq::empty(),
    }
}

/// `base` with the names of the accounts at `places` behind it, the last of them first, each after
/// a colon.
pub open spec fn joined(accounts: Seq<Account>, base: Seq<char>, places: Seq<int>) -> Seq<char>
    decreases places.len(),
{
    if places.len() == 0 {
        base
    } else {
        joined(accounts, base, places.skip(1)) + seq![':'] + accounts[places[0]].name@
    }
}

/// The path of an account: the name of its type, and the names of its chain from the top.
pub open spec fn path_of(accounts: Seq<Account>, id: i64) -> Seq<char> {
    let places = chain(accounts, Some(id), MAX_CHAIN as nat);
    let root = if places.len() == 0 {
        AccountType::Asset
    } else {
        accounts[places.last()].account_type
    };
    joined(accounts, root_text(root), places)
}

/// How many parents an account's path holds; -1 for one that is not there.
pub open spec fn depth_of(accounts: Seq<Account>, id: i64) -> int {
    chain(accounts, Some(id), MAX_CHAIN as nat).len() - 1
}

/// The path of an account and how deep it stands.
pub fn build_path(accounts: &[Account], id: i64) -> (r: (String, i32))
    ensures
        r.0@ == path_of(accounts@, id),
        r.1 == depth_of(accounts@, id),
{
    let mut places: Vec<usize> = Vec::new();
    let mut cur: Option<i64> = Some(id);
    let mut limit: usize = MAX_CHAIN;
    let ghost whole = chain(accounts@, Some(id), MAX_CHAIN as nat);
    assert(places@.map_values(|p: usize| p as int) + chain(accounts@, cur, limit as nat) =~= whole);
    while limit > 0
        invariant
            limit <= MAX_CHAIN,
            places@.len() + limit == MAX_CHAIN,
            forall|k: int| 0 <= k < places@.len() ==> (#[trigger] places@[k]) < accounts@.len(),
            places@.map_values(|p: usize| p as int) + chain(accounts@, cur, limit as nat) == whole,
        ensures
            places@.len() <= MAX_CHAIN,
            forall|k: int| 0 <= k < places@.len() ==> (#[trigger] places@[k]) < accounts@.len(),
            places@.map_values(|p: usize| p as int) == whole,
        decreases limit,
    {
        let ghost before = places@.map_values(|p: usize| p as int);
        match cur {
            Some(i) => match find_place(accounts, i) {
                Some(p) => {
                    let ghost rest = chain(accounts@, accounts@[p as int].parent_id, (limit - 1) as nat);
                    cur = accounts[p].parent_id;
                    limit = limit - 1;
                    places.push(p);
                    assert(places@.map_values(|p: usize| p as int) =~= before.push(p as int));
                    assert(before.push(p as int) + rest =~= before + (seq![p as int] + rest));
                },
                None => {
                    assert(places@.map_values(|p: usize| p as int) =~= whole);
                    break;
                },
            },
            None => {
                assert(places@.map_values(|p: usize| p as int) =~= whole);
                break;
            },
        }
        if limit == 0 {
            assert(chain(accounts@, cur, 0) =~= Seq::<int>::empty());
            assert(places@.map_values(|p: usize| p as int) =~= whole);
        }
    }
    let n: usize = places.len();
    let depth: i32 = n as i32 - 1;
    let root = if n == 0 {
        AccountType::Asset
    } else {
        accounts[places[n - 1]].account_type
    };
    let mut path = own(root.root_name());
    let mut k: usize = n;
    assert(whole.skip(n as int) =~= Seq::<int>::empty());
    while k > 0
        invariant
            k <= n == places@.len() == whole.len(),
            forall|q: int| 0 <= q < places@.len() ==> (#[trigger] places@[q]) < accounts@.len(),
            places@.map_values(|p: usize| p as int) == whole,
            path@ == joined(accounts@, root_text(root), whole.skip(k as int)),
        decreases k,
    {
        k = k - 1;
        assert(whole[k as int] == places@[k as int]);
        assert(whole.skip(k as int).skip(1) =~= whole.skip(k + 1));
        path.push(':');
        path.append(accounts[places[k]].name.as_str());
    }
    assert(whole.skip(0) =~= whole);
    (path, depth)
}

/// A lean view of an account for path lookups and report rows.
#[derive(Debug)]
pub struct AccountBrief {
    pub id: i64,
    pub entity_id: i64,
    pub parent_id: Option<i64>,
    pub name: String,
    pub path: String,
    pub depth: i32,
    pub account_type: AccountType,
    pub subtype: String,
    pub commodity: String,
    pub precision: u32,
    pub system_role: String,
    pub placeholder: bool,
    pub in_net_worth: bool,
    pub closed: bool,
}

/// Whether `b` is the brief of `a` among the accounts.
pub open spec fn briefs(accounts: Seq<Account>, a: Account, b: AccountBrief) -> bool {
    &&& b.id == a.id && b.entity_id == a.entity_id && b.parent_id == a.parent_id
    &&& b.name@ == a.name@ && b.path@ == path_of(accounts, a.id) && b.depth == depth_of(accounts, a.id)
    &&& b.account_type == a.account_type && b.subtype@ == a.subtype@
    &&& b.commodity@ == a.commodity@ && b.precision == a.precision && b.system_role@ == a.system_role@
    &&& b.placeholder == a.placeholder && b.in_net_worth == a.in_net_worth && b.closed == (a.closed_at is Some)
}

/// Every account with its path.
pub fn path_index(accounts: &[Account]) -> (r: Vec<AccountBrief>)
    ensures
        r@.len() == accounts@.len(),
        forall|i: int| 0 <= i < r@.len() ==> briefs(accounts@, accounts@[i], #[trigger] r@[i]),
{
    let mut r: Vec<AccountBrief> = Vec::new();
    let mut i: usize = 0;
    while i < accounts.len()
        invariant
            i <= accounts.len(),
            r@.len() == i,
            forall|k: int| 0 <= k < i ==> briefs(accounts@, accounts@[k], #[trigger] r@[k]),
        decreases accounts.len() - i,
    {
        let a = &accounts[i];
        let (path, depth) = build_path(accounts, a.id);
        r.push(
            AccountBrief {
                id: a.id,
                entity_id: a.entity_id,
                parent_id: a.parent_id,
                name: own(a.name.as_str()),
                path,
                depth,
                account_type: a.account_type,
                subtype: own(a.subtype.as_str()),
                commodity: own(a.commodity.as_str()),
                precision: a.precision,
                system_role: own(a.system_role.as_str()),
                placeholder: a.placeholder,
                in_net_worth: a.in_net_worth,
                closed: a.is_closed(),
            },
        );
        i = i + 1;
    }
    r
}

pub open spec fn order_of(t: AccountType) -> i64 {
    match t {
        AccountType::Asset => 0,
        AccountType::Liability => 1,
        AccountType::Equity => 2,
        AccountType::Income => 3,
        AccountType::Expense => 4,
    }
}

pub fn type_order(t: AccountType) -> (r: i64)
    ensures
        r == order_of(t),
{
    match t {
        AccountType::Asset => 0,
        AccountType::Liability => 1,
        AccountType::Equity => 2,
        AccountType::Income => 3,
        AccountType::Expense => 4,
    }
}

/// Whether `k` is what an account is ordered by: its entity, its type, its path.
pub open spec fn account_key(a: Account, k: Key) -> bool {
    k.first == a.entity_id && k.second == order_of(a.account_type) && k.text@ == a.path@
}

/// The places of accounts ordered as a tree: by entity, type and path.
pub fn tree_order(accounts: &[Account]) -> (r: Vec<usize>)
    ensures
        crate::order::is_permutation(r@, accounts@.len()),
        exists|keys: Seq<Key>|
            keys.len() == accounts@.len() && (forall|i: int|
                0 <= i < keys.len() ==> account_key(accounts@[i], #[trigger] keys[i])) && #[trigger] crate::order::stable(keys, r@),
{
    let mut keys: Vec<Key> = Vec::new();
    let mut i: usize = 0;
    while i < accounts.len()
        invariant
            i <= accounts.len(),
            keys@.len() == i,
            forall|k: int| 0 <= k < i ==> account_key(accounts@[k], #[trigger] keys@[k]),
        decreases accounts.len() - i,
    {
        let a = &accounts[i];
        keys.push(Key { first: a.entity_id as i128, second: type_order(a.account_type) as i128, text: a.path.clone() });
        i = i + 1;
    }
    let r = stable_order(&keys);
    assert(crate::order::stable(keys@, r@));
    r
}

/// The part of a path behind its first colon.
pub open spec fn below_root(path: Seq<char>) -> Option<Seq<char>> {
    match crate::text::position(path, seq![':'], 0) {
        Some(i) => Some(path.skip(i + 1)),
        None => None,
    }
}

/// Whether `wanted` names an account of this path, with or without the name of its type.
pub open spec fn names_path(path: Seq<char>, wanted: Seq<char>) -> bool {
    path == wanted || below_root(path) == Some(wanted)
}

pub fn is_named(path: &str, wanted: &str) -> (r: bool)
    ensures
        r == names_path(path@, wanted@),
{
    if same(path, wanted) {
        return true;
    }
    let cs = chars(path);
    let mut colon: Vec<char> = Vec::new();
    colon.push(':');
    assert(colon@ =~= seq![':']);
    match crate::text::find(&cs, &colon, 0) {
        Some(i) => {
            let rest = crate::text::slice_chars(&cs, i + 1, cs.len());
            assert(rest@ == path@.skip(i + 1));
            let w = chars(wanted);
            crate::text::same_chars(&rest, &w)
        },
        None => false,
    }
}

/// The first account from `from` on that `wanted` names in an entity.
pub open spec fn path_place(accounts: Seq<Account>, entity_id: i64, wanted: Seq<char>, from: int) -> Option<int>
    decreases accounts.len() - from,
{
    if from < 0 || from >= accounts.len() {
        None
    } else if accounts[from].entity_id == entity_id && names_path(accounts[from].path@, wanted) {
        Some(from)
    } else {
        path_place(accounts, entity_id, wanted, from + 1)
    }
}

/// Finds an account by its path within an entity, e.g. "Expenses:Food" (root name optional), in
/// accounts ordered as a tree.
pub fn find_by_path<'a>(accounts: &'a [Account], entity_id: i64, path: &str) -> (r: Option<&'a Account>)
    ensures
        match r {
            Some(a) => path_place(accounts@, entity_id, trimmed(path@), 0) is Some && *a == accounts@[path_place(
                accounts@,
                entity_id,
                trimmed(path@),
                0,
            )->0],
            None => path_place(accounts@, entity_id, trimmed(path@), 0) is None,
        },
{
    let wanted = trim(path);
    let mut i: usize = 0;
    while i < accounts.len()
        invariant
            i <= accounts.len(),
            wanted@ == trimmed(path@),
            path_place(accounts@, entity_id, wanted@, 0) == path_place(accounts@, entity_id, wanted@, i as int),
        decreases accounts.len() - i,
    {
        if accounts[i].entity_id == entity_id && is_named(accounts[i].path.as_str(), wanted.as_str()) {
            return Some(&accounts[i]);
        }
        i = i + 1;
    }
    None
}

/// What kind of account a new one of a type is, unless it says so itself.
pub open spec fn default_subtype(t: AccountType) -> Seq<char> {
    match t {
        AccountType::Asset => "bank"@,
        AccountType::Liability => "card"@,
        AccountType::Equity => "equity"@,
        AccountType::Income => "income"@,
        AccountType::Expense => "expense"@,
    }
}

pub fn leaf_subtype(t: AccountType) -> (r: &'static str)
    ensures
        r@ == default_subtype(t),
{
    match t {
        AccountType::Asset => "bank",
        AccountType::Liability => "card",
        AccountType::Equity => "equity",
        AccountType::Income => "income",
        AccountType::Expense => "expense",
    }
}

/// What is stored for a new account.
#[derive(Debug)]
pub struct AccountPlan {
    pub name: String,
    pub account_type: AccountType,
    pub commodity: String,
    pub subtype: String,
    pub code: String,
    pub notes: String,
}

/// Why an account with this name cannot be made.
pub open spec fn name_refusal(name: Seq<char>) -> Option<Seq<char>> {
    if trimmed(name).len() == 0 {
        Some("account name is required"@)
    } else if holds(trimmed(name), ":"@) {
        Some("account names cannot contain ':'"@)
    } else {
        None
    }
}

/// Why a new account cannot have this parent, or no parent.
pub open spec fn parent_refusal(input: NewAccount, parent: Option<Account>) -> Option<Seq<char>> {
    match parent {
        Some(p) => if p.entity_id != input.entity_id {
            Some("parent account belongs to another entity"@)
        } else if input.account_type is Some && input.account_type->0 != p.account_type {
            Some(
                "account type "@ + type_text(input.account_type->0) + " does not match parent type "@ + type_text(p.account_type),
            )
        } else {
            None
        },
        None => if input.account_type is None {
            Some("account type is required"@)
        } else {
            None
        },
    }
}

pub open spec fn planned_type(input: NewAccount, parent: Option<Account>) -> AccountType {
    match parent {
        Some(p) => p.account_type,
        None => input.account_type->0,
    }
}

/// The commodity of a new account: the one it names; for income, expenses and equity the
/// functional currency; else that of its parent.
pub open spec fn planned_commodity(input: NewAccount, entity: Entity, parent: Option<Account>) -> Seq<char> {
    let t = planned_type(input, parent);
    if !blank(input.commodity@) {
        uppered(trimmed(input.commodity@))
    } else if t == AccountType::Income || t == AccountType::Expense || t == AccountType::Equity || parent is None {
        entity.currency@
    } else {
        parent->0.commodity@
    }
}

pub open spec fn planned_subtype(input: NewAccount, t: AccountType) -> Seq<char> {
    if !blank(input.subtype@) {
        lowered(trimmed(input.subtype@))
    } else if input.placeholder {
        "placeholder"@
    } else {
        default_subtype(t)
    }
}

/// Checks a new account and fills in what it leaves out.
pub fn create_account(input: &NewAccount, entity: &Entity, parent: Option<&Account>) -> (r: Result<AccountPlan>)
    ensures
        ({
            let p = match parent {
                Some(a) => Some(*a),
                None => None,
            };
            let code = planned_commodity(*input, *entity, p);
            match r {
                Ok(plan) => {
                    &&& name_refusal(input.name@) is None && parent_refusal(*input, p) is None
                    &&& plan.name@ == trimmed(input.name@)
                    &&& plan.account_type == planned_type(*input, p)
                    &&& well_formed_code(code_form(code)) && plan.commodity@ == code_form(code)
                    &&& plan.subtype@ == planned_subtype(*input, plan.account_type)
                    &&& plan.code@ == trimmed(input.code@)
                    &&& plan.notes@ == trimmed(input.notes@)
                },
                Err(e) => match name_refusal(input.name@) {
                    Some(m) => e.invalid(m),
                    None => match parent_refusal(*input, p) {
                        Some(m) => e.invalid(m),
                        None => !well_formed_code(code_form(code)) && e.invalid("invalid commodity code "@ + debug_text(code)),
                    },
                },
            }
        }),
{
    let name = trim(input.name.as_str());
    if name.as_str().is_empty() {
        return Err(invalid("account name is required"));
    }
    if contains(name.as_str(), ":") {
        return Err(invalid("account names cannot contain ':'"));
    }
    let t = match parent {
        Some(p) => {
            if p.entity_id != input.entity_id {
                return Err(invalid("parent account belongs to another entity"));
            }
            if let Some(own_type) = input.account_type {
                if own_type != p.account_type {
                    return Err(
                        invalid(
                            cat4("account type ", own_type.as_str(), " does not match parent type ", p.account_type.as_str()).as_str(),
                        ),
                    );
                }
            }
            p.account_type
        },
        None => match input.account_type {
            Some(own_type) => own_type,
            None => {
                return Err(invalid("account type is required"));
            },
        },
    };
    let code = if !is_blank(input.commodity.as_str()) {
        upper(trim(input.commodity.as_str()).as_str())
    } else if matches!(t, AccountType::Income | AccountType::Expense | AccountType::Equity) {
        entity.currency.clone()
    } else {
        match parent {
            Some(p) => p.commodity.clone(),
            None => entity.currency.clone(),
        }
    };
    let commodity = match normalize_code(code.as_str()) {
        Ok(c) => c,
        Err(e) => {
            return Err(e);
        },
    };
    let subtype = if !is_blank(input.subtype.as_str()) {
        lower(trim(input.subtype.as_str()).as_str())
    } else if input.placeholder {
        own("placeholder")
    } else {
        own(leaf_subtype(t))
    };
    Ok(AccountPlan { name, account_type: t, commodity, subtype, code: trim(input.code.as_str()), notes: trim(input.notes.as_str()) })
}

/// What a request wants to change of an account; nothing is left as it is.
#[derive(Debug)]
pub struct AccountUpdate {
    pub parent_id: Option<Option<i64>>,
    pub code: Option<String>,
    pub name: Option<String>,
    pub subtype: Option<String>,
    pub in_net_worth: Option<bool>,
    pub credit_limit: Option<Option<Decimal>>,
    pub statement_day: Option<Option<i32>>,
    pub due_day: Option<Option<i32>>,
    pub notes: Option<String>,
    pub position: Option<i32>,
    pub external_ids: Option<String>,
    pub placeholder: Option<bool>,
    pub commodity: Option<String>,
    pub class: Option<String>,
}

impl AccountUpdate {
    /// A request that changes nothing.
    pub fn none() -> (r: AccountUpdate)
        ensures
            r.parent_id is None && r.code is None && r.name is None && r.subtype is None && r.in_net_worth is None
                && r.credit_limit is None && r.statement_day is None && r.due_day is None && r.notes is None && r.position is None
                && r.external_ids is None && r.placeholder is None && r.commodity is None && r.class is None,
    {
        AccountUpdate {
            parent_id: None,
            code: None,
            name: None,
            subtype: None,
            in_net_worth: None,
            credit_limit: None,
            statement_day: None,
            due_day: None,
            notes: None,
            position: None,
            external_ids: None,
            placeholder: None,
            commodity: None,
            class: None,
        }
    }
}

/// What is stored of an account after a change.
#[derive(Debug)]
pub struct AccountFields {
    pub parent_id: Option<i64>,
    pub code: String,
    pub name: String,
    pub subtype: String,
    pub in_net_worth: bool,
    pub credit_limit: Option<Decimal>,
    pub statement_day: Option<i32>,
    pub due_day: Option<i32>,
    pub notes: String,
    pub position: i32,
    pub external_ids: String,
    pub placeholder: bool,
    pub commodity: String,
    pub class: String,
}

/// Whether a class is one that an expense account can have.
pub open spec fn known_class(c: Seq<char>) -> bool {
    c == ""@ || c == "fixed"@ || c == "committed"@ || c == "discretionary"@ || c == "savings"@ || c == "not-spending"@
}

pub open spec fn class_refusal(class: Seq<char>, t: AccountType) -> Option<Seq<char>> {
    let c = lowered(trimmed(class));
    if !known_class(c) {
        Some(
            "unknown class "@ + debug_text(c) + "; one of fixed, committed, discretionary, savings, not-spending, or empty"@,
        )
    } else if c.len() > 0 && t != AccountType::Expense {
        Some("class describes expense accounts only"@)
    } else {
        None
    }
}

/// Why an account cannot have `parent` as its parent.
pub open spec fn new_parent_refusal(a: Account, parent: Account) -> Option<Seq<char>> {
    if parent.entity_id != a.entity_id {
        Some("parent account belongs to another entity"@)
    } else if parent.account_type != a.account_type {
        Some("parent must have the same account type"@)
    } else if starts(parent.path@, a.path@ + ":"@) {
        Some("cannot move an account under its own descendant"@)
    } else {
        None
    }
}

/// Why the commodity of an account cannot change to `code`.
pub open spec fn commodity_refusal(a: Account, code: Seq<char>, postings: int) -> Option<Seq<char>> {
    let c = uppered(trimmed(code));
    if c == a.commodity@ {
        None
    } else if postings > 0 {
        Some("the commodity of an account with postings cannot change"@)
    } else if !well_formed_code(code_form(c)) {
        Some("invalid commodity code "@ + debug_text(c))
    } else {
        None
    }
}

/// Why a change of an account is refused: the first of the rules that it breaks.
pub open spec fn update_refusal(accounts: Seq<Account>, a: Account, upd: AccountUpdate, postings: int) -> Option<Refusal> {
    let moves = upd.parent_id is Some && upd.parent_id->0 is Some;
    let pid = upd.parent_id->0->0;
    if moves && pid == a.id {
        Some(Refusal::Invalid("an account cannot be its own parent"@))
    } else if moves && place_of(accounts, pid) is None {
        Some(Refusal::NotFound("account "@ + int_text(pid as int)))
    } else if moves && new_parent_refusal(a, accounts[place_of(accounts, pid)->0]) is Some {
        Some(Refusal::Invalid(new_parent_refusal(a, accounts[place_of(accounts, pid)->0])->0))
    } else if upd.name is Some && (blank(upd.name->0@) || holds(upd.name->0@, ":"@)) {
        Some(Refusal::Invalid("invalid account name"@))
    } else if upd.class is Some && class_refusal(upd.class->0@, a.account_type) is Some {
        Some(Refusal::Invalid(class_refusal(upd.class->0@, a.account_type)->0))
    } else if upd.placeholder == Some(true) && postings > 0 {
        Some(Refusal::Invalid("an account with postings cannot become a placeholder"@))
    } else if upd.commodity is Some && commodity_refusal(a, upd.commodity->0@, postings) is Some {
        Some(Refusal::Invalid(commodity_refusal(a, upd.commodity->0@, postings)->0))
    } else {
        None
    }
}

pub open spec fn new_text(v: Option<String>, old: String) -> Seq<char> {
    match v {
        Some(t) => t@,
        None => old@,
    }
}

/// Whether `f` is the account `a` with what `upd` names changed, and nothing else.
pub open spec fn updated(a: Account, upd: AccountUpdate, f: AccountFields) -> bool {
    &&& f.parent_id == (if upd.parent_id is Some { upd.parent_id->0 } else { a.parent_id })
    &&& f.code@ == (if upd.code is Some { trimmed(upd.code->0@) } else { a.code@ })
    &&& f.name@ == (if upd.name is Some { trimmed(upd.name->0@) } else { a.name@ })
    &&& f.subtype@ == (if upd.subtype is Some { lowered(trimmed(upd.subtype->0@)) } else { a.subtype@ })
    &&& f.in_net_worth == (if upd.in_net_worth is Some { upd.in_net_worth->0 } else { a.in_net_worth })
    &&& f.credit_limit == (if upd.credit_limit is Some { upd.credit_limit->0 } else { a.credit_limit })
    &&& f.statement_day == (if upd.statement_day is Some { upd.statement_day->0 } else { a.statement_day })
    &&& f.due_day == (if upd.due_day is Some { upd.due_day->0 } else { a.due_day })
    &&& f.notes@ == new_text(upd.notes, a.notes)
    &&& f.position == (if upd.position is Some { upd.position->0 } else { a.position })
    &&& f.external_ids@ == new_text(upd.external_ids, a.external_ids)
    &&& f.placeholder == (if upd.placeholder is Some { upd.placeholder->0 } else { a.placeholder })
    &&& f.commodity@ == (if upd.commodity is Some { uppered(trimmed(upd.commodity->0@)) } else { a.commodity@ })
    &&& f.class@ == (if upd.class is Some { lowered(trimmed(upd.class->0@)) } else { a.class@ })
}

fn check_new_parent(accounts: &[Account], a: &Account, pid: i64) -> (r: Result<()>)
    ensures
        match r {
            Ok(_) => pid != a.id && place_of(accounts@, pid) is Some && new_parent_refusal(
                *a,
                accounts@[place_of(accounts@, pid)->0],
            ) is None,
            Err(e) => if pid == a.id {
                e.invalid("an account cannot be its own parent"@)
            } else if place_of(accounts@, pid) is None {
                e.not_found("account "@ + int_text(pid as int))
            } else {
                new_parent_refusal(*a, accounts@[place_of(accounts@, pid)->0]) is Some && e.invalid(
                    new_parent_refusal(*a, accounts@[place_of(accounts@, pid)->0])->0,
                )
            },
        },
{
    if pid == a.id {
        return Err(invalid("an account cannot be its own parent"));
    }
    let parent = match get_account(accounts, pid) {
        Ok(p) => p,
        Err(e) => {
            return Err(e);
        },
    };
    if parent.entity_id != a.entity_id {
        return Err(invalid("parent account belongs to another entity"));
    }
    if parent.account_type != a.account_type {
        return Err(invalid("parent must have the same account type"));
    }
    if starts_with(parent.path.as_str(), cat(a.path.as_str(), ":").as_str()) {
        return Err(invalid("cannot move an account under its own descendant"));
    }
    Ok(())
}

fn check_class(class: &str, t: AccountType) -> (r: Result<String>)
    ensures
        match r {
            Ok(c) => class_refusal(class@, t) is None && c@ == lowered(trimmed(class@)),
            Err(e) => class_refusal(class@, t) is Some && e.invalid(class_refusal(class@, t)->0),
        },
{
    let c = lower(trim(class).as_str());
    let s = c.as_str();
    if !(same(s, "") || same(s, "fixed") || same(s, "committed") || same(s, "discretionary") || same(s, "savings") || same(
        s,
        "not-spending",
    )) {
        return Err(
            invalid(
                cat3(
                    "unknown class ",
                    quoted(s).as_str(),
                    "; one of fixed, committed, discretionary, savings, not-spending, or empty",
                ).as_str(),
            ),
        );
    }
    if !s.is_empty() && t != AccountType::Expense {
        return Err(invalid("class describes expense accounts only"));
    }
    Ok(c)
}

/// The commodity that an account has after a change to `code`.
fn check_commodity(a: &Account, code: &str, postings: i64) -> (r: Result<String>)
    ensures
        match r {
            Ok(c) => commodity_refusal(*a, code@, postings as int) is None && c@ == uppered(trimmed(code@)),
            Err(e) => commodity_refusal(*a, code@, postings as int) is Some && e.invalid(
                commodity_refusal(*a, code@, postings as int)->0,
            ),
        },
{
    let c = upper(trim(code).as_str());
    if !same(c.as_str(), a.commodity.as_str()) {
        if postings > 0 {
            return Err(invalid("the commodity of an account with postings cannot change"));
        }
        if let Err(e) = normalize_code(c.as_str()) {
            return Err(e);
        }
    }
    Ok(c)
}

fn text_or(v: &Option<String>, old: &String) -> (r: String)
    ensures
        r@ == new_text(*v, *old),
{
    match v {
        Some(t) => t.clone(),
        None => old.clone(),
    }
}

/// Checks a change of an account and gives what is stored of it afterwards. `accounts` are all
/// accounts with their paths, `postings` counts those of the account.
pub fn update_account(accounts: &[Account], a: &Account, upd: &AccountUpdate, postings: i64) -> (r: Result<AccountFields>)
    ensures
        match r {
            Ok(f) => update_refusal(accounts@, *a, *upd, postings as int) is None && updated(*a, *upd, f),
            Err(e) => update_refusal(accounts@, *a, *upd, postings as int) == Some(e@),
        },
{
    let parent_id = match upd.parent_id {
        Some(p) => {
            if let Some(pid) = p {
                if let Err(e) = check_new_parent(accounts, a, pid) {
                    return Err(e);
                }
            }
            p
        },
        None => a.parent_id,
    };
    let code = match &upd.code {
        Some(v) => trim(v.as_str()),
        None => a.code.clone(),
    };
    let name = match &upd.name {
        Some(v) => {
            if is_blank(v.as_str()) || contains(v.as_str(), ":") {
                return Err(invalid("invalid account name"));
            }
            trim(v.as_str())
        },
        None => a.name.clone(),
    };
    let subtype = match &upd.subtype {
        Some(v) => lower(trim(v.as_str()).as_str()),
        None => a.subtype.clone(),
    };
    let class = match &upd.class {
        Some(v) => match check_class(v.as_str(), a.account_type) {
            Ok(c) => c,
            Err(e) => {
                return Err(e);
            },
        },
        None => a.class.clone(),
    };
    let placeholder = match upd.placeholder {
        Some(v) => {
            if v && postings > 0 {
                return Err(invalid("an account with postings cannot become a placeholder"));
            }
            v
        },
        None => a.placeholder,
    };
    let commodity = match &upd.commodity {
        Some(c) => match check_commodity(a, c.as_str(), postings) {
            Ok(c) => c,
            Err(e) => {
                return Err(e);
            },
        },
        None => a.commodity.clone(),
    };
    Ok(
        AccountFields {
            parent_id,
            code,
            name,
            subtype,
            in_net_worth: match upd.in_net_worth {
                Some(v) => v,
                None => a.in_net_worth,
            },
            credit_limit: match upd.credit_limit {
                Some(v) => v,
                None => a.credit_limit,
            },
            statement_day: match upd.statement_day {
                Some(v) => v,
                None => a.statement_day,
            },
            due_day: match upd.due_day {
                Some(v) => v,
                None => a.due_day,
            },
            notes: text_or(&upd.notes, &a.notes),
            position: match upd.position {
                Some(v) => v,
                None => a.position,
            },
            external_ids: text_or(&upd.external_ids, &a.external_ids),
            placeholder,
            commodity,
            class,
        },
    )
}

/// Whether an account may be closed: system accounts may not.
pub fn close_account(a: &Account, reopen: bool) -> (r: Result<()>)
    ensures
        match r {
            Ok(_) => reopen || a.system_role@.len() == 0,
            Err(e) => !reopen && a.system_role@.len() > 0 && e.invalid("system accounts cannot be closed"@),
        },
{
    if !reopen && !a.system_role.as_str().is_empty() {
        Err(invalid("system accounts cannot be closed"))
    } else {
        Ok(())
    }
}

/// Income and expense accounts.
pub open spec fn is_category(t: AccountType) -> bool {
    t == AccountType::Income || t == AccountType::Expense
}

pub fn categories(t: AccountType) -> (r: bool)
    ensures
        r == is_category(t),
{
    matches!(t, AccountType::Income | AccountType::Expense)
}

/// Why `source` cannot be merged into `target`: the first rule that it breaks.
pub open spec fn merge_refusal(source: Account, target: Account) -> Option<Seq<char>> {
    let both = is_category(source.account_type) && is_category(target.account_type);
    if source.id == target.id {
        Some("an account cannot be merged into itself"@)
    } else if source.entity_id != target.entity_id {
        Some("accounts belong to different entities"@)
    } else if target.placeholder {
        Some(target.path@ + " is a placeholder; merge into an account that takes postings"@)
    } else if target.closed_at is Some {
        Some(target.path@ + " is closed"@)
    } else if source.system_role@.len() > 0 {
        Some(source.path@ + " is a system account and cannot be merged away"@)
    } else if source.account_type != target.account_type && !both {
        Some(
            "cannot merge a "@ + type_text(source.account_type) + " account into a "@ + type_text(target.account_type)
                + " account"@,
        )
    } else if source.commodity@ != target.commodity@ && !both {
        Some("accounts with different commodities cannot be merged"@)
    } else {
        None
    }
}

/// The rules for merging `source` into `target`. Merging a parent into one of its own children is
/// allowed: the parent keeps its children and becomes a placeholder.
pub fn check_merge(source: &Account, target: &Account) -> (r: Result<()>)
    ensures
        match r {
            Ok(_) => merge_refusal(*source, *target) is None,
            Err(e) => merge_refusal(*source, *target) is Some && e.invalid(merge_refusal(*source, *target)->0),
        },
{
    if source.id == target.id {
        return Err(invalid("an account cannot be merged into itself"));
    }
    if source.entity_id != target.entity_id {
        return Err(invalid("accounts belong to different entities"));
    }
    if target.placeholder {
        return Err(
            invalid(cat(target.path.as_str(), " is a placeholder; merge into an account that takes postings").as_str()),
        );
    }
    if target.is_closed() {
        return Err(invalid(cat(target.path.as_str(), " is closed").as_str()));
    }
    if !source.system_role.as_str().is_empty() {
        return Err(invalid(cat(source.path.as_str(), " is a system account and cannot be merged away").as_str()));
    }
    let both = categories(source.account_type) && categories(target.account_type);
    if source.account_type != target.account_type && !both {
        return Err(
            invalid(
                cat5(
                    "cannot merge a ",
                    source.account_type.as_str(),
                    " account into a ",
                    target.account_type.as_str(),
                    " account",
                ).as_str(),
            ),
        );
    }
    if !same(source.commodity.as_str(), target.commodity.as_str()) && !both {
        return Err(invalid("accounts with different commodities cannot be merged"));
    }
    Ok(())
}

#[derive(Debug, PartialEq, Eq)]
pub struct MergeReport {
    pub moved_postings: i64,
    pub moved_rules: i64,
    pub moved_template_lines: i64,
    pub source_deleted: bool,
}

/// What becomes of the source of a merge: it is deleted unless it has children, and then its
/// budgets move too, which only an expense account can take.
pub fn merge_outcome(target: &Account, children: i64, budgets: usize) -> (r: Result<bool>)
    ensures
        match r {
            Ok(deleted) => deleted == (children == 0) && !(children == 0 && budgets > 0 && target.account_type
                != AccountType::Expense),
            Err(e) => children == 0 && budgets > 0 && target.account_type != AccountType::Expense && e.invalid(
                "move or delete category budgets before merging into an income account"@,
            ),
        },
{
    if children == 0 && budgets > 0 && target.account_type != AccountType::Expense {
        return Err(invalid("move or delete category budgets before merging into an income account"));
    }
    Ok(children == 0)
}

/// The account ids of template lines with `target` in place of `source`, and how many changed.
pub fn moved_lines(lines: &[i64], source: i64, target: i64) -> (r: (Vec<i64>, usize))
    ensures
        r.0@ == lines@.map_values(|id: i64| if id == source { target } else { id }),
        r.1 == count_of(lines@, source),
{
    let mut out: Vec<i64> = Vec::new();
    let mut n: usize = 0;
    let mut i: usize = 0;
    while i < lines.len()
        invariant
            i <= lines.len(),
            n <= i,
            out@ == lines@.take(i as int).map_values(|id: i64| if id == source { target } else { id }),
            n == count_of(lines@.take(i as int), source),
        decreases lines.len() - i,
    {
        assert(lines@.take(i + 1).drop_last() == lines@.take(i as int));
        if lines[i] == source {
            out.push(target);
            n = n + 1;
        } else {
            out.push(lines[i]);
        }
        i = i + 1;
        assert(out@ =~= lines@.take(i as int).map_values(|id: i64| if id == source { target } else { id }));
    }
    assert(lines@.take(i as int) == lines@);
    (out, n)
}

/// How often `x` occurs.
pub open spec fn count_of(s: Seq<i64>, x: i64) -> nat
    decreases s.len(),
{
    if s.len() == 0 {
        0
    } else {
        count_of(s.drop_last(), x) + (if s.last() == x { 1nat } else { 0 })
    }
}

/// The least of two, where there is one.
pub open spec fn least(a: Option<i64>, b: Option<i64>) -> Option<i64> {
    match (a, b) {
        (Some(x), Some(y)) => if x < y {
            Some(x)
        } else {
            Some(y)
        },
        (Some(x), None) => Some(x),
        (None, y) => y,
    }
}

pub fn least_seq(a: Option<i64>, b: Option<i64>) -> (r: Option<i64>)
    ensures
        r == least(a, b),
{
    match (a, b) {
        (Some(x), Some(y)) => if x < y {
            Some(x)
        } else {
            Some(y)
        },
        (Some(x), None) => Some(x),
        (None, y) => y,
    }
}

/// The postings that a recategorization moves.
pub enum RecatFilter {
    /// Every posting.
    All,
    /// Those of entries with a payee, in any case; a blank one for entries without a payee.
    Payee(String),
    /// Those of entries with a text in payee, description or memo, in any case.
    Text(String),
}

/// A posting on the source account, with its entry.
#[derive(Debug)]
pub struct RecatRow {
    pub posting_id: i64,
    pub entry_id: i64,
    pub seq: Option<i64>,
    pub payee: String,
    pub description: String,
    /// The memos of the entry's postings on the source account.
    pub memos: Vec<String>,
    /// Whether the entry is posted or void, and so protected by the lock date.
    pub fixed: bool,
    pub date: crate::date::Date,
    /// Whether one of the entry's postings on the source account is reconciled.
    pub reconciled: bool,
}

/// The text without the spaces at its two ends.
pub open spec fn unspaced(s: Seq<char>) -> Seq<char> {
    right_unspaced(left_unspaced(s))
}

pub open spec fn left_unspaced(s: Seq<char>) -> Seq<char>
    decreases s.len(),
{
    if s.len() > 0 && s[0] == ' ' {
        left_unspaced(s.skip(1))
    } else {
        s
    }
}

pub open spec fn right_unspaced(s: Seq<char>) -> Seq<char>
    decreases s.len(),
{
    if s.len() > 0 && s.last() == ' ' {
        right_unspaced(s.drop_last())
    } else {
        s
    }
}

pub fn unspace(s: &str) -> (r: String)
    ensures
        r@ == unspaced(s@),
{
    let cs = chars(s);
    let mut i: usize = 0;
    assert(cs@.skip(0) == cs@);
    while i < cs.len() && cs[i] == ' '
        invariant
            i <= cs.len(),
            left_unspaced(cs@) == left_unspaced(cs@.skip(i as int)),
        decreases cs.len() - i,
    {
        assert(cs@.skip(i as int).skip(1) == cs@.skip(i + 1));
        i = i + 1;
    }
    let mut j: usize = cs.len();
    assert(cs@.subrange(i as int, j as int) == cs@.skip(i as int));
    while j > i && cs[j - 1] == ' '
        invariant
            i <= j <= cs.len(),
            unspaced(cs@) == right_unspaced(cs@.subrange(i as int, j as int)),
        decreases j,
    {
        assert(cs@.subrange(i as int, j as int).drop_last() == cs@.subrange(i as int, j - 1));
        j = j - 1;
    }
    let t = crate::text::slice_chars(&cs, i, j);
    crate::text::string(&t)
}

/// Whether one of `memos` holds `q`, in any case.
pub open spec fn in_memos(memos: Seq<String>, q: Seq<char>) -> bool {
    exists|i: int| 0 <= i < memos.len() && holds(lowered((#[trigger] memos[i])@), q)
}

pub open spec fn recat_selects(filter: RecatFilter, row: RecatRow) -> bool {
    match filter {
        RecatFilter::All => true,
        RecatFilter::Payee(p) => if p@.len() == 0 {
            unspaced(row.payee@).len() == 0
        } else {
            lowered(unspaced(row.payee@)) == lowered(unspaced(p@))
        },
        RecatFilter::Text(q) => holds(lowered(row.payee@), lowered(q@)) || holds(lowered(row.description@), lowered(q@)) || in_memos(
            row.memos@,
            lowered(q@),
        ),
    }
}

pub fn is_selected(filter: &RecatFilter, row: &RecatRow) -> (r: bool)
    ensures
        r == recat_selects(*filter, *row),
{
    match filter {
        RecatFilter::All => true,
        RecatFilter::Payee(p) => {
            let mine = unspace(row.payee.as_str());
            if p.as_str().is_empty() {
                mine.as_str().is_empty()
            } else {
                same(lower(mine.as_str()).as_str(), lower(unspace(p.as_str()).as_str()).as_str())
            }
        },
        RecatFilter::Text(q) => {
            let want = lower(q.as_str());
            if contains(lower(row.payee.as_str()).as_str(), want.as_str()) || contains(
                lower(row.description.as_str()).as_str(),
                want.as_str(),
            ) {
                return true;
            }
            let mut i: usize = 0;
            while i < row.memos.len()
                invariant
                    i <= row.memos.len(),
                    want@ == lowered(q@),
                    filter == RecatFilter::Text(*q),
                    forall|k: int| 0 <= k < i ==> !holds(lowered((#[trigger] row.memos@[k])@), want@),
                decreases row.memos.len() - i,
            {
                if contains(lower(row.memos[i].as_str()).as_str(), want.as_str()) {
                    assert(holds(lowered(row.memos@[i as int]@), want@));
                    assert(in_memos(row.memos@, lowered(q@)));
                    return true;
                }
                i = i + 1;
            }
            false
        },
    }
}

/// Why postings cannot move from `from` to `to`: the first rule that the move breaks.
pub open spec fn recat_refusal(from: Account, to: Account) -> Option<Seq<char>> {
    if from.id == to.id {
        Some("the source and the target are the same account"@)
    } else if from.entity_id != to.entity_id {
        Some("accounts belong to different entities"@)
    } else if to.placeholder {
        Some(to.path@ + " is a placeholder; postings go to a leaf"@)
    } else if to.closed_at is Some {
        Some(to.path@ + " is closed"@)
    } else if from.account_type != to.account_type && !(is_category(from.account_type) && is_category(to.account_type)) {
        Some(
            "cannot move postings from a "@ + type_text(from.account_type) + " account into a "@ + type_text(to.account_type)
                + " account"@,
        )
    } else if from.commodity@ != to.commodity@ {
        Some("accounts with different commodities"@)
    } else {
        None
    }
}

fn check_recat(from: &Account, to: &Account) -> (r: Result<()>)
    ensures
        match r {
            Ok(_) => recat_refusal(*from, *to) is None,
            Err(e) => recat_refusal(*from, *to) is Some && e.invalid(recat_refusal(*from, *to)->0),
        },
{
    if from.id == to.id {
        return Err(invalid("the source and the target are the same account"));
    }
    if from.entity_id != to.entity_id {
        return Err(invalid("accounts belong to different entities"));
    }
    if to.placeholder {
        return Err(invalid(cat(to.path.as_str(), " is a placeholder; postings go to a leaf").as_str()));
    }
    if to.is_closed() {
        return Err(invalid(cat(to.path.as_str(), " is closed").as_str()));
    }
    if from.account_type != to.account_type && !(categories(from.account_type) && categories(to.account_type)) {
        return Err(
            invalid(
                cat5(
                    "cannot move postings from a ",
                    from.account_type.as_str(),
                    " account into a ",
                    to.account_type.as_str(),
                    " account",
                ).as_str(),
            ),
        );
    }
    if !same(from.commodity.as_str(), to.commodity.as_str()) {
        return Err(invalid("accounts with different commodities"));
    }
    Ok(())
}

/// What a recategorization moves.
#[derive(Debug)]
pub struct RecatPlan {
    pub postings: Vec<i64>,
    /// The entries touched, ascending.
    pub entries: Vec<i64>,
    /// From where on the hash chain has to be recomputed.
    pub min_seq: Option<i64>,
}

#[derive(Debug, PartialEq, Eq)]
pub struct RecatReport {
    pub entries: usize,
    pub postings: usize,
}

impl RecatPlan {
    pub fn report(&self) -> (r: RecatReport)
        ensures
            r.entries == self.entries@.len(),
            r.postings == self.postings@.len(),
    {
        RecatReport { entries: self.entries.len(), postings: self.postings.len() }
    }
}

/// The rows that a filter selects, in order.
pub open spec fn selected(rows: Seq<RecatRow>, filter: RecatFilter) -> Seq<RecatRow>
    decreases rows.len(),
{
    if rows.len() == 0 {
        rows
    } else if recat_selects(filter, rows.last()) {
        selected(rows.drop_last(), filter).push(rows.last())
    } else {
        selected(rows.drop_last(), filter)
    }
}

pub open spec fn least_of(rows: Seq<RecatRow>) -> Option<i64>
    decreases rows.len(),
{
    if rows.len() == 0 {
        None
    } else {
        least(least_of(rows.drop_last()), rows.last().seq)
    }
}

/// Why the entry of a row cannot change.
pub open spec fn row_refusal(entity: Entity, row: RecatRow) -> Option<Seq<char>> {
    if row.fixed && is_locked(entity, row.date) {
        Some(lock_text(entity, row.date))
    } else if row.reconciled {
        Some("entry #"@ + int_text(row.entry_id as int) + " has reconciled postings on the source account"@)
    } else {
        None
    }
}

/// Whether a posting of the entry `id` is among `rows`.
pub open spec fn has_entry(rows: Seq<RecatRow>, id: i64) -> bool {
    exists|i: int| 0 <= i < rows.len() && (#[trigger] rows[i]).entry_id == id
}

/// Whether `ids` are the entries of `rows`, each once, ascending.
pub open spec fn entries_of(rows: Seq<RecatRow>, ids: Seq<i64>) -> bool {
    &&& forall|i: int, j: int| 0 <= i < j < ids.len() ==> #[trigger] ids[i] < #[trigger] ids[j]
    &&& forall|i: int| 0 <= i < ids.len() ==> has_entry(rows, #[trigger] ids[i])
    &&& forall|i: int| 0 <= i < rows.len() ==> ids.contains((#[trigger] rows[i]).entry_id)
}

/// Puts `id` into `ids`, which are ascending, unless it is there.
pub fn insert_id(ids: &mut Vec<i64>, id: i64)
    requires
        forall|i: int, j: int| 0 <= i < j < old(ids)@.len() ==> #[trigger] old(ids)@[i] < #[trigger] old(ids)@[j],
    ensures
        forall|i: int, j: int| 0 <= i < j < final(ids)@.len() ==> #[trigger] final(ids)@[i] < #[trigger] final(ids)@[j],
        forall|x: i64| #[trigger] final(ids)@.contains(x) <==> old(ids)@.contains(x) || x == id,
{
    let mut p: usize = 0;
    while p < ids.len() && ids[p] < id
        invariant
            p <= ids.len(),
            ids@ == old(ids)@,
            forall|i: int| 0 <= i < p ==> ids@[i] < id,
        decreases ids.len() - p,
    {
        p = p + 1;
    }
    if p < ids.len() && ids[p] == id {
        assert(ids@[p as int] == id);
        return;
    }
    let ghost before = ids@;
    ids.insert(p, id);
    proof {
        assert(ids@[p as int] == id);
        assert forall|i: int, j: int| 0 <= i < j < ids@.len() implies #[trigger] ids@[i] < #[trigger] ids@[j] by {
            let a = if i < p {
                i
            } else {
                i - 1
            };
            let b = if j < p {
                j
            } else {
                j - 1
            };
            if i != p {
                assert(ids@[i] == before[a]);
            }
            if j != p {
                assert(ids@[j] == before[b]);
            }
            if i == p && b > p {
                assert(before[p as int] < before[b]);
            }
        }
        assert forall|x: i64| #[trigger] ids@.contains(x) <==> before.contains(x) || x == id by {
            if before.contains(x) {
                let k = before.index_of(x);
                if k < p {
                    assert(ids@[k] == x);
                } else {
                    assert(ids@[k + 1] == x);
                }
            }
            if ids@.contains(x) {
                let k = ids@.index_of(x);
                if k < p {
                    assert(before[k] == x);
                } else if k > p {
                    assert(before[k - 1] == x);
                }
            }
        }
    }
}

/// What a recategorization gives: the postings that the filter selects, unless the accounts or one
/// of the entries forbid it; of several entries that do, the one with the least id is reported.
pub open spec fn recat_outcome(
    from: Account,
    to: Account,
    filter: RecatFilter,
    rows: Seq<RecatRow>,
    entity: Entity,
    r: Result<RecatPlan>,
) -> bool {
    let moved = selected(rows, filter);
    match r {
        Ok(plan) => {
            &&& recat_refusal(from, to) is None
            &&& forall|i: int| 0 <= i < moved.len() ==> row_refusal(entity, #[trigger] moved[i]) is None
            &&& plan.postings@ == moved.map_values(|m: RecatRow| m.posting_id)
            &&& entries_of(moved, plan.entries@)
            &&& plan.min_seq == least_of(moved)
        },
        Err(e) => match recat_refusal(from, to) {
            Some(m) => e.invalid(m),
            None => exists|i: int|
                0 <= i < moved.len() && row_refusal(entity, #[trigger] moved[i]) is Some && e.locked(
                    row_refusal(entity, moved[i])->0,
                ) && forall|j: int|
                    0 <= j < moved.len() && row_refusal(entity, #[trigger] moved[j]) is Some ==> moved[i].entry_id
                        <= moved[j].entry_id,
        },
    }
}

/// Chooses the postings that move from `from` to `to`, and checks that their entries may change.
/// `rows` are the postings on `from`; without a payee to ask for, every one of them moves.
pub fn recategorize_filtered(from: &Account, to: &Account, filter: &RecatFilter, rows: &[RecatRow], entity: &Entity) -> (r: Result<
    RecatPlan,
>)
    ensures
        recat_outcome(*from, *to, *filter, rows@, *entity, r),
{
    if let Err(e) = check_recat(from, to) {
        return Err(e);
    }
    let mut postings: Vec<i64> = Vec::new();
    let mut entries: Vec<i64> = Vec::new();
    let mut min_seq: Option<i64> = None;
    let mut worst: Option<(i64, Error)> = None;
    let ghost mut at: int = 0;
    let mut i: usize = 0;
    while i < rows.len()
        invariant
            i <= rows.len(),
            recat_refusal(*from, *to) is None,
            postings@ == selected(rows@.take(i as int), *filter).map_values(|m: RecatRow| m.posting_id),
            entries_of(selected(rows@.take(i as int), *filter), entries@),
            min_seq == least_of(selected(rows@.take(i as int), *filter)),
            ({
                let moved = selected(rows@.take(i as int), *filter);
                match worst {
                    Some((id, e)) => {
                        &&& 0 <= at < moved.len()
                        &&& row_refusal(*entity, moved[at]) is Some
                        &&& moved[at].entry_id == id
                        &&& e.locked(row_refusal(*entity, moved[at])->0)
                        &&& forall|j: int|
                            0 <= j < moved.len() && row_refusal(*entity, #[trigger] moved[j]) is Some ==> id <= moved[j].entry_id
                    },
                    None => forall|j: int| 0 <= j < moved.len() ==> row_refusal(*entity, #[trigger] moved[j]) is None,
                }
            }),
        decreases rows.len() - i,
    {
        let row = &rows[i];
        let ghost before = selected(rows@.take(i as int), *filter);
        assert(rows@.take(i + 1).drop_last() == rows@.take(i as int));
        if is_selected(filter, row) {
            let ghost after = before.push(*row);
            assert(after == selected(rows@.take(i + 1), *filter));
            assert(after.drop_last() == before);
            postings.push(row.posting_id);
            assert(postings@ =~= after.map_values(|m: RecatRow| m.posting_id));
            let ghost old_entries = entries@;
            insert_id(&mut entries, row.entry_id);
            proof {
                assert forall|k: int| 0 <= k < entries@.len() implies has_entry(after, #[trigger] entries@[k]) by {
                    let x = entries@[k];
                    assert(entries@.contains(x));
                    if x == row.entry_id {
                        assert(after[after.len() - 1].entry_id == x);
                    } else {
                        let q = old_entries.index_of(x);
                        assert(has_entry(before, old_entries[q]));
                        let w = choose|w: int| 0 <= w < before.len() && (#[trigger] before[w]).entry_id == x;
                        assert(after[w] == before[w]);
                    }
                }
                assert forall|k: int| 0 <= k < after.len() implies entries@.contains((#[trigger] after[k]).entry_id) by {
                    if k < before.len() {
                        assert(after[k] == before[k]);
                        assert(old_entries.contains(before[k].entry_id));
                    }
                }
            }
            min_seq = least_seq(min_seq, row.seq);
            let refused = refuse_row(entity, row);
            proof {
                assert forall|j: int| 0 <= j < before.len() implies after[j] == before[j] by {}
            }
            match refused {
                Some(e) => {
                    let first = match &worst {
                        Some((id, _)) => row.entry_id < *id,
                        None => true,
                    };
                    if first {
                        worst = Some((row.entry_id, e));
                        proof {
                            at = before.len() as int;
                        }
                    }
                },
                None => {},
            }
        }
        i = i + 1;
    }
    assert(rows@.take(i as int) == rows@);
    match worst {
        Some((_, e)) => {
            proof {
                assert(row_refusal(*entity, selected(rows@, *filter)[at]) is Some);
            }
            Err(e)
        },
        None => Ok(RecatPlan { postings, entries, min_seq }),
    }
}

fn refuse_row(entity: &Entity, row: &RecatRow) -> (r: Option<Error>)
    ensures
        match r {
            Some(e) => row_refusal(*entity, *row) is Some && e.locked(row_refusal(*entity, *row)->0),
            None => row_refusal(*entity, *row) is None,
        },
{
    if row.fixed {
        if let Err(e) = check_lock(entity, row.date) {
            return Some(e);
        }
    }
    if row.reconciled {
        return Some(
            locked(cat3("entry #", int_string(row.entry_id).as_str(), " has reconciled postings on the source account").as_str()),
        );
    }
    None
}

/// Splits a category by literal, case-insensitive text in payee, description or posting memo.
pub fn split_category(from: &Account, to: &Account, query: &str, rows: &[RecatRow], entity: &Entity) -> (r: Result<RecatPlan>)
    ensures
        if blank(query@) {
            r is Err && r->Err_0.invalid("enter a text filter before splitting a category"@)
        } else if !(is_category(from.account_type) && is_category(to.account_type)) {
            r is Err && r->Err_0.invalid("category splitting requires income or expense accounts"@)
        } else {
            exists|f: RecatFilter|
                f matches RecatFilter::Text(q) && q@ == trimmed(query@) && #[trigger] recat_outcome(*from, *to, f, rows@, *entity, r)
        },
{
    if is_blank(query) {
        return Err(invalid("enter a text filter before splitting a category"));
    }
    if !categories(from.account_type) || !categories(to.account_type) {
        return Err(invalid("category splitting requires income or expense accounts"));
    }
    let filter = RecatFilter::Text(trim(query));
    recategorize_filtered(from, to, &filter, rows, entity)
}

/// Whether an account stands under `parent_id` in an entity, with a type.
pub open spec fn stands_under(a: Account, entity_id: i64, parent_id: Option<i64>, t: AccountType) -> bool {
    a.entity_id == entity_id && a.account_type == t && id_or_zero(a.parent_id) == id_or_zero(parent_id)
}

pub open spec fn id_or_zero(id: Option<i64>) -> i64 {
    match id {
        Some(i) => i,
        None => 0,
    }
}

/// The first account from `from` on under a parent whose name passes a test: equal, or equal but
/// for the case of its letters.
pub open spec fn child_place(
    accounts: Seq<Account>,
    entity_id: i64,
    parent_id: Option<i64>,
    t: AccountType,
    name: Seq<char>,
    exact: bool,
    from: int,
) -> Option<int>
    decreases accounts.len() - from,
{
    if from < 0 || from >= accounts.len() {
        None
    } else if stands_under(accounts[from], entity_id, parent_id, t) && (if exact {
        accounts[from].name@ == name
    } else {
        lowered(accounts[from].name@) == lowered(name)
    }) {
        Some(from)
    } else {
        child_place(accounts, entity_id, parent_id, t, name, exact, from + 1)
    }
}

fn first_child(
    accounts: &[Account],
    entity_id: i64,
    parent_id: Option<i64>,
    t: AccountType,
    name: &str,
    exact: bool,
) -> (r: Option<usize>)
    ensures
        match r {
            Some(i) => i < accounts@.len() && child_place(accounts@, entity_id, parent_id, t, name@, exact, 0) == Some(i as int),
            None => child_place(accounts@, entity_id, parent_id, t, name@, exact, 0) is None,
        },
{
    let wanted: i64 = match parent_id {
        Some(p) => p,
        None => 0,
    };
    let low = lower(name);
    let mut i: usize = 0;
    while i < accounts.len()
        invariant
            i <= accounts.len(),
            wanted == id_or_zero(parent_id),
            low@ == lowered(name@),
            child_place(accounts@, entity_id, parent_id, t, name@, exact, 0) == child_place(
                accounts@,
                entity_id,
                parent_id,
                t,
                name@,
                exact,
                i as int,
            ),
        decreases accounts.len() - i,
    {
        let a = &accounts[i];
        let under: i64 = match a.parent_id {
            Some(p) => p,
            None => 0,
        };
        if a.entity_id == entity_id && a.account_type == t && under == wanted {
            let named = if exact {
                same(a.name.as_str(), name)
            } else {
                same(lower(a.name.as_str()).as_str(), low.as_str())
            };
            if named {
                return Some(i);
            }
        }
        i = i + 1;
    }
    None
}

/// The account that a name stands for under a parent: the one of that very name, else one whose
/// name differs only in the case of its letters, so that no lower-case twin grows beside it.
pub open spec fn child_of(
    accounts: Seq<Account>,
    entity_id: i64,
    parent_id: Option<i64>,
    t: AccountType,
    name: Seq<char>,
) -> Option<i64> {
    match child_place(accounts, entity_id, parent_id, t, name, true, 0) {
        Some(i) => Some(accounts[i].id),
        None => match child_place(accounts, entity_id, parent_id, t, name, false, 0) {
            Some(i) => Some(accounts[i].id),
            None => None,
        },
    }
}

pub fn find_child(accounts: &[Account], entity_id: i64, parent_id: Option<i64>, t: AccountType, name: &str) -> (r: Option<i64>)
    ensures
        r == child_of(accounts@, entity_id, parent_id, t, name@),
{
    match first_child(accounts, entity_id, parent_id, t, name, true) {
        Some(i) => Some(accounts[i].id),
        None => match first_child(accounts, entity_id, parent_id, t, name, false) {
            Some(i) => Some(accounts[i].id),
            None => None,
        },
    }
}

/// One node of a chart template.
#[derive(Debug)]
pub struct ChartNode {
    pub code: String,
    pub path: String,
    pub account_type: String,
    pub placeholder: bool,
    pub description: String,
}

/// The parts that are not blank, trimmed.
pub open spec fn filled(p: Seq<Seq<char>>) -> Seq<Seq<char>>
    decreases p.len(),
{
    if p.len() == 0 {
        p
    } else if trimmed(p.last()).len() == 0 {
        filled(p.drop_last())
    } else {
        filled(p.drop_last()).push(trimmed(p.last()))
    }
}

/// The names of a chart path below the name of its type.
pub open spec fn chart_names(path: Seq<char>, t: AccountType) -> Seq<Seq<char>> {
    let names = filled(crate::text::parts(path, ':'));
    if names.len() > 0 && lowered(names[0]) == lowered(root_text(t)) {
        names.skip(1)
    } else {
        names
    }
}

/// The names of a chart path: paths are "Income:..." or "Expenses:..." with the root name dropped,
/// or bare names under the type root.
pub fn chart_segments(path: &str, t: AccountType) -> (r: Vec<String>)
    ensures
        crate::text::texts(r@) == chart_names(path@, t),
{
    let cs = chars(path);
    let ps = crate::text::split(&cs, ':');
    let mut names: Vec<String> = Vec::new();
    let ghost all = crate::text::parts(path@, ':');
    let mut i: usize = 0;
    while i < ps.len()
        invariant
            i <= ps.len(),
            crate::text::char_texts(ps@) == all,
            crate::text::texts(names@) == filled(all.take(i as int)),
        decreases ps.len() - i,
    {
        assert(all[i as int] == ps@[i as int]@);
        assert(all.take(i + 1).drop_last() == all.take(i as int));
        let part = crate::text::trim_chars(&ps[i]);
        if part.len() > 0 {
            let ghost before = names@;
            let name = crate::text::string(&part);
            names.push(name);
            assert(crate::text::texts(names@) =~= crate::text::texts(before).push(name@));
        }
        i = i + 1;
    }
    assert(all.take(i as int) == all);
    if names.len() > 0 {
        assert(crate::text::texts(names@)[0] == names@[0]@);
        if same(lower(names[0].as_str()).as_str(), lower(t.root_name()).as_str()) {
            let ghost before = names@;
            names.remove(0);
            assert(crate::text::texts(names@) =~= crate::text::texts(before).skip(1));
        }
    }
    names
}

pub open spec fn colons(s: Seq<char>) -> nat {
    crate::text::kept(s, |c: char| c == ':').len()
}

/// Whether `k` is what a chart node is ordered by: how many colons its path has.
pub open spec fn node_key(n: ChartNode, k: Key) -> bool {
    k.first == colons(n.path@) && k.second == 0 && k.text@ == ""@
}

/// The places of chart nodes, parents before their children.
pub fn chart_order(nodes: &[ChartNode]) -> (r: Vec<usize>)
    ensures
        crate::order::is_permutation(r@, nodes@.len()),
        exists|keys: Seq<Key>|
            keys.len() == nodes@.len() && (forall|i: int| 0 <= i < keys.len() ==> node_key(nodes@[i], #[trigger] keys[i]))
                && #[trigger] crate::order::stable(keys, r@),
{
    let mut keys: Vec<Key> = Vec::new();
    let mut i: usize = 0;
    while i < nodes.len()
        invariant
            i <= nodes.len(),
            keys@.len() == i,
            forall|k: int| 0 <= k < i ==> node_key(nodes@[k], #[trigger] keys@[k]),
        decreases nodes.len() - i,
    {
        let cs = chars(nodes[i].path.as_str());
        let n = count_colons(&cs);
        keys.push(Key { first: n as i128, second: 0, text: own("") });
        i = i + 1;
    }
    let r = stable_order(&keys);
    assert(crate::order::stable(keys@, r@));
    r
}

fn count_colons(cs: &Vec<char>) -> (n: usize)
    ensures
        n == colons(cs@),
{
    let ghost colon = |c: char| c == ':';
    let mut n: usize = 0;
    let mut i: usize = 0;
    while i < cs.len()
        invariant
            i <= cs.len(),
            colon == (|c: char| c == ':'),
            0 <= n <= i,
            n == crate::text::kept(cs@.take(i as int), colon).len(),
        decreases cs.len() - i,
    {
        assert(cs@.take(i + 1).drop_last() == cs@.take(i as int));
        if cs[i] == ':' {
            n = n + 1;
        }
        i = i + 1;
    }
    assert(cs@.take(i as int) == cs@);
    n
}

/// What a chart node changes of the account at its path: its code and notes where it has none, and
/// whether it is a placeholder. An account with postings stays one that takes postings even when
/// the chart wants a placeholder.
pub fn chart_update(node: &ChartNode, a: &Account, postings: i64) -> (r: AccountUpdate)
    ensures
        match r.code {
            Some(c) => !blank(node.code@) && blank(a.code@) && c@ == trimmed(node.code@),
            None => blank(node.code@) || !blank(a.code@),
        },
        r.placeholder == (if node.placeholder && !a.placeholder && postings == 0 { Some(true) } else { None::<bool> }),
        match r.notes {
            Some(n) => !blank(node.description@) && blank(a.notes@) && n@ == trimmed(node.description@),
            None => blank(node.description@) || !blank(a.notes@),
        },
        r.parent_id is None && r.name is None && r.subtype is None && r.in_net_worth is None && r.credit_limit is None
            && r.statement_day is None && r.due_day is None && r.position is None && r.external_ids is None && r.commodity is None
            && r.class is None,
{
    let mut r = AccountUpdate::none();
    if !is_blank(node.code.as_str()) && is_blank(a.code.as_str()) {
        r.code = Some(trim(node.code.as_str()));
    }
    if node.placeholder && !a.placeholder && postings == 0 {
        r.placeholder = Some(true);
    }
    if !is_blank(node.description.as_str()) && is_blank(a.notes.as_str()) {
        r.notes = Some(trim(node.description.as_str()));
    }
    r
}

#[derive(Debug)]
pub struct RemapReport {
    pub created: usize,
    pub existing: usize,
    pub merged: usize,
    pub moved_postings: i64,
    pub skipped: Vec<String>,
}

/// What becomes of one move of a remap.
pub enum RemapStep {
    /// The move cannot apply, for this reason.
    Skip(String),
    /// The account is its own target.
    Keep,
    /// The account is merged into the target.
    Merge,
}

/// Why a move of a remap cannot apply.
pub open spec fn remap_refusal(
    source_id: i64,
    source: Option<Account>,
    entity_id: i64,
    target: Option<Account>,
    target_path: Seq<char>,
) -> Option<Seq<char>> {
    match source {
        None => Some("#"@ + int_text(source_id as int) + ": no such account"@),
        Some(s) => if s.entity_id != entity_id {
            Some(s.path@ + ": belongs to another entity"@)
        } else {
            match target {
                None => Some(s.path@ + ": target "@ + target_path + " not found"@),
                Some(t) => if t.id != s.id && merge_refusal(s, t) is Some {
                    Some(s.path@ + ": "@ + merge_refusal(s, t)->0)
                } else {
                    None
                },
            }
        },
    }
}

pub open spec fn taken(a: Option<&Account>) -> Option<Account> {
    match a {
        Some(v) => Some(*v),
        None => None,
    }
}

/// Decides one move of a remap: moves that cannot apply are skipped, the rest go through.
pub fn remap_step(source_id: i64, source: Option<&Account>, entity_id: i64, target: Option<&Account>, target_path: &str) -> (r:
    RemapStep)
    ensures
        ({
            let why = remap_refusal(source_id, taken(source), entity_id, taken(target), target_path@);
            match r {
                RemapStep::Skip(m) => why == Some(m@),
                RemapStep::Keep => why is None && source is Some && target is Some && source->0.id == target->0.id,
                RemapStep::Merge => why is None && source is Some && target is Some && source->0.id != target->0.id,
            }
        }),
{
    let s = match source {
        Some(s) => s,
        None => {
            return RemapStep::Skip(cat3("#", int_string(source_id).as_str(), ": no such account"));
        },
    };
    if s.entity_id != entity_id {
        return RemapStep::Skip(cat(s.path.as_str(), ": belongs to another entity"));
    }
    let t = match target {
        Some(t) => t,
        None => {
            return RemapStep::Skip(cat4(s.path.as_str(), ": target ", target_path, " not found"));
        },
    };
    if t.id == s.id {
        return RemapStep::Keep;
    }
    match check_merge(s, t) {
        Ok(_) => RemapStep::Merge,
        Err(Error::Invalid(m)) => RemapStep::Skip(cat3(s.path.as_str(), ": ", m.as_str())),
        Err(e) => RemapStep::Skip(cat3(s.path.as_str(), ": ", e.text().as_str())),
    }
}

/// What an account holds by itself: a quantity in its commodity, an amount in functional
/// currency, and how many postings.
#[derive(Debug, Clone, Copy)]
pub struct OwnBalance {
    pub quantity: i64,
    pub amount: i64,
    pub postings: i64,
}

/// What accounts hold together with everything below them.
#[derive(Debug)]
pub struct Rollup {
    pub quantity: Vec<i128>,
    pub amount: Vec<i128>,
    pub postings: Vec<i128>,
}

/// How often `x` occurs.
pub open spec fn times_in(s: Seq<int>, x: int) -> int
    decreases s.len(),
{
    if s.len() == 0 {
        0
    } else {
        times_in(s.drop_last(), x) + (if s.last() == x { 1int } else { 0 })
    }
}

/// The accounts above the one at place `j`.
pub open spec fn above(accounts: Seq<Account>, j: int) -> Seq<int> {
    chain(accounts, accounts[j].parent_id, accounts.len())
}

/// What of `values` rolls up to the account at place `i` from the first `n` accounts. With
/// `matching`, only what is in the account's own commodity.
pub open spec fn rolled(accounts: Seq<Account>, values: Seq<int>, matching: bool, i: int, n: int) -> int
    decreases n,
{
    if n <= 0 {
        0
    } else {
        rolled(accounts, values, matching, i, n - 1) + (if matching && accounts[n - 1].commodity@ != accounts[i].commodity@ {
            0
        } else {
            times_in(above(accounts, n - 1), i) * values[n - 1]
        })
    }
}

pub open spec fn quantities(own: Seq<OwnBalance>) -> Seq<int> {
    own.map_values(|b: OwnBalance| b.quantity as int)
}

pub open spec fn amounts(own: Seq<OwnBalance>) -> Seq<int> {
    own.map_values(|b: OwnBalance| b.amount as int)
}

pub open spec fn counts(own: Seq<OwnBalance>) -> Seq<int> {
    own.map_values(|b: OwnBalance| b.postings as int)
}

/// Adds what every account holds to each account above it: amounts and counts always, quantities
/// only where the commodity matches.
#[verifier::rlimit(40)]
pub fn roll_up(accounts: &[Account], own: &[OwnBalance]) -> (r: Rollup)
    requires
        own@.len() == accounts@.len(),
        accounts@.len() <= 2147483648,
    ensures
        r.quantity@.len() == accounts@.len(),
        r.amount@.len() == accounts@.len(),
        r.postings@.len() == accounts@.len(),
        forall|i: int|
            0 <= i < accounts@.len() ==> #[trigger] r.quantity@[i] == own@[i].quantity + rolled(
                accounts@,
                quantities(own@),
                true,
                i,
                accounts@.len() as int,
            ),
        forall|i: int|
            0 <= i < accounts@.len() ==> #[trigger] r.amount@[i] == own@[i].amount + rolled(
                accounts@,
                amounts(own@),
                false,
                i,
                accounts@.len() as int,
            ),
        forall|i: int|
            0 <= i < accounts@.len() ==> #[trigger] r.postings@[i] == own@[i].postings + rolled(
                accounts@,
                counts(own@),
                false,
                i,
                accounts@.len() as int,
            ),
{
    let mut q: Vec<i64> = Vec::new();
    let mut a: Vec<i64> = Vec::new();
    let mut c: Vec<i64> = Vec::new();
    let mut i: usize = 0;
    while i < own.len()
        invariant
            i <= own.len(),
            q@.len() == i,
            a@.len() == i,
            c@.len() == i,
            forall|k: int| 0 <= k < i ==> #[trigger] q@[k] == own@[k].quantity,
            forall|k: int| 0 <= k < i ==> #[trigger] a@[k] == own@[k].amount,
            forall|k: int| 0 <= k < i ==> #[trigger] c@[k] == own@[k].postings,
        decreases own.len() - i,
    {
        q.push(own[i].quantity);
        a.push(own[i].amount);
        c.push(own[i].postings);
        i = i + 1;
    }
    let quantity = roll_values(accounts, &q, true);
    let amount = roll_values(accounts, &a, false);
    let postings = roll_values(accounts, &c, false);
    proof {
        assert(q@.map_values(|v: i64| v as int) =~= quantities(own@));
        assert(a@.map_values(|v: i64| v as int) =~= amounts(own@));
        assert(c@.map_values(|v: i64| v as int) =~= counts(own@));
    }
    Rollup { quantity, amount, postings }
}

fn roll_values(accounts: &[Account], values: &Vec<i64>, matching: bool) -> (r: Vec<i128>)
    requires
        values@.len() == accounts@.len(),
        accounts@.len() <= 2147483648,
    ensures
        r@.len() == accounts@.len(),
        forall|i: int|
            0 <= i < accounts@.len() ==> #[trigger] r@[i] == values@[i] + rolled(
                accounts@,
                values@.map_values(|v: i64| v as int),
                matching,
                i,
                accounts@.len() as int,
            ),
{
    let n: usize = accounts.len();
    let ghost vals = values@.map_values(|v: i64| v as int);
    let mut r: Vec<i128> = Vec::new();
    let mut i: usize = 0;
    while i < n
        invariant
            i <= n == values@.len(),
            r@.len() == i,
            forall|k: int| 0 <= k < i ==> #[trigger] r@[k] == values@[k],
        decreases n - i,
    {
        r.push(values[i] as i128);
        i = i + 1;
    }
    let mut j: usize = 0;
    while j < n
        invariant
            j <= n == accounts@.len() == values@.len() == r@.len(),
            n <= 2147483648,
            vals == values@.map_values(|v: i64| v as int),
            forall|k: int| 0 <= k < n ==> #[trigger] r@[k] == values@[k] + rolled(accounts@, vals, matching, k, j as int),
            forall|k: int|
                0 <= k < n ==> -9223372036854775808 * (1 + j * n) <= #[trigger] r@[k] <= 9223372036854775808 * (1 + j * n),
        decreases n - j,
    {
        let mut cur: Option<i64> = accounts[j].parent_id;
        let mut left: usize = n;
        let ghost whole = above(accounts@, j as int);
        let ghost mut walked = Seq::<int>::empty();
        let ghost start = r@;
        assert(walked + chain(accounts@, cur, left as nat) =~= whole);
        assert(j * n + n == (j + 1) * n) by (nonlinear_arith);
        assert((j + 1) * n <= 4611686018427387904) by (nonlinear_arith)
            requires
                j + 1 <= n,
                n <= 2147483648,
        ;
        proof {
            assert forall|k: int| 0 <= k < n implies #[trigger] times_in(walked, k) == 0 by {}
        }
        while left > 0
            invariant
                j < n == accounts@.len() == values@.len() == r@.len() == start.len(),
                left <= n <= 2147483648,
                vals == values@.map_values(|v: i64| v as int),
                (j + 1) * n <= 4611686018427387904,
                j * n + n == (j + 1) * n,
                walked + chain(accounts@, cur, left as nat) == whole,
                whole == above(accounts@, j as int),
                forall|k: int|
                    0 <= k < n ==> #[trigger] r@[k] == start[k] + (if matching && accounts@[j as int].commodity@
                        != accounts@[k].commodity@ {
                        0
                    } else {
                        times_in(walked, k) * values@[j as int]
                    }),
                forall|k: int|
                    0 <= k < n ==> -9223372036854775808 * (1 + j * n + (n - left)) <= #[trigger] r@[k] <= 9223372036854775808 * (1
                        + j * n + (n - left)),
            ensures
                j < n == accounts@.len() == values@.len() == r@.len() == start.len(),
                walked == whole,
                forall|k: int|
                    0 <= k < n ==> #[trigger] r@[k] == start[k] + (if matching && accounts@[j as int].commodity@
                        != accounts@[k].commodity@ {
                        0
                    } else {
                        times_in(walked, k) * values@[j as int]
                    }),
                forall|k: int|
                    0 <= k < n ==> -9223372036854775808 * (1 + j * n + n) <= #[trigger] r@[k] <= 9223372036854775808 * (1 + j * n
                        + n),
            decreases left,
        {
            match cur {
                Some(id) => match find_place(accounts, id) {
                    Some(p) => {
                        let ghost rest = chain(accounts@, accounts@[p as int].parent_id, (left - 1) as nat);
                        let ghost before = walked;
                        let ghost held = r@;
                        if !matching || same(accounts[j].commodity.as_str(), accounts[p].commodity.as_str()) {
                            let v: i128 = r[p] + values[j] as i128;
                            r.set(p, v);
                        }
                        cur = accounts[p].parent_id;
                        left = left - 1;
                        proof {
                            walked = before.push(p as int);
                            assert(walked + rest =~= before + (seq![p as int] + rest));
                            assert(walked.drop_last() =~= before);
                            let x = values@[j as int] as int;
                            assert forall|k: int| 0 <= k < n implies #[trigger] r@[k] == start[k] + (if matching
                                && accounts@[j as int].commodity@ != accounts@[k].commodity@ {
                                0
                            } else {
                                times_in(walked, k) * x
                            }) by {
                                let t = times_in(before, k);
                                assert(held[k] == r@[k] || k == p);
                                assert((t + 1) * x == t * x + x) by (nonlinear_arith);
                            }
                        }
                    },
                    None => {
                        assert(walked =~= whole);
                        break;
                    },
                },
                None => {
                    assert(walked =~= whole);
                    break;
                },
            }
            if left == 0 {
                assert(chain(accounts@, cur, 0) =~= Seq::<int>::empty());
                assert(walked =~= whole);
            }
        }
        proof {
            if n == 0 {
                assert(walked =~= whole);
            }
            assert(vals[j as int] == values@[j as int]);
        }
        j = j + 1;
    }
    r
}

/// The next account on the way to one that is to exist.
#[derive(Debug)]
pub enum Ensured {
    Found(i64),
    Create(NewAccount),
}

/// Whether an account to open is the one named `name` on the way: what leads to the last one is a
/// placeholder.
pub open spec fn leads(x: NewAccount, entity_id: i64, t: AccountType, parent_id: Option<i64>, name: Seq<char>, last: bool, subtype: Seq<char>, commodity: Seq<char>) -> bool {
    &&& x.entity_id == entity_id
    &&& x.parent_id == parent_id
    &&& x.code@ == Seq::<char>::empty()
    &&& x.name@ == name
    &&& x.account_type == Some(t)
    &&& x.subtype@ == (if last {
        subtype
    } else {
        "placeholder"@
    })
    &&& x.commodity@ == commodity
    &&& x.system_role@ == Seq::<char>::empty()
    &&& x.placeholder == !last
    &&& x.in_net_worth
    &&& x.credit_limit is None
    &&& x.statement_day is None
    &&& x.due_day is None
    &&& x.external_ids@ == "{}"@
    &&& x.notes@ == Seq::<char>::empty()
    &&& x.position == 0
}

/// Finds the `i`th account of a path under its parent, by its name whatever the case, or says which to
/// open.
pub fn ensure_account(
    accounts: &[Account],
    entity_id: i64,
    t: AccountType,
    names: &[String],
    i: usize,
    parent_id: Option<i64>,
    subtype: &str,
    commodity: &str,
) -> (r: Result<Ensured>)
    ensures
        if i >= names@.len() {
            r matches Err(e) && e.invalid("account name is required"@)
        } else {
            let name = names@[i as int]@;
            match child_of(accounts@, entity_id, parent_id, t, name) {
                Some(id) => r matches Ok(Ensured::Found(f)) && f == id,
                None => r matches Ok(Ensured::Create(x)) && leads(
                    x,
                    entity_id,
                    t,
                    parent_id,
                    name,
                    i == names@.len() - 1,
                    subtype@,
                    commodity@,
                ),
            }
        },
{
    if i >= names.len() {
        return Err(invalid("account name is required"));
    }
    let name = names[i].as_str();
    if let Some(id) = find_child(accounts, entity_id, parent_id, t, name) {
        return Ok(Ensured::Found(id));
    }
    let last = i == names.len() - 1;
    Ok(
        Ensured::Create(
            NewAccount {
                entity_id,
                parent_id,
                code: String::new(),
                name: own(name),
                account_type: Some(t),
                subtype: if last {
                    own(subtype)
                } else {
                    own("placeholder")
                },
                commodity: own(commodity),
                system_role: String::new(),
                placeholder: !last,
                in_net_worth: true,
                credit_limit: None,
                statement_day: None,
                due_day: None,
                external_ids: own("{}"),
                notes: String::new(),
                position: 0,
            },
        ),
    )
}

proof fn lemma_chain_limit(accounts: Seq<Account>, cur: Option<i64>, limit: nat)
    requires
        chain(accounts, cur, limit).len() < limit,
    ensures
        chain(accounts, cur, limit + 1) == chain(accounts, cur, limit),
    decreases limit,
{
    if let Some(id) = cur {
        if let Some(i) = place_of(accounts, id) {
            if limit > 0 {
                let rest = chain(accounts, accounts[i].parent_id, (limit - 1) as nat);
                assert((seq![i] + rest).len() == rest.len() + 1);
                lemma_chain_limit(accounts, accounts[i].parent_id, (limit - 1) as nat);
            }
        }
    }
}

/// The path of an account is that of its parent with its name behind a colon, and it stands one step deeper; an
/// account without a parent stands under the name of its type.
pub proof fn law_path_extends_parent(accounts: Seq<Account>, id: i64)
    requires
        place_of(accounts, id) is Some,
        depth_of(accounts, id) + 1 < MAX_CHAIN,
    ensures
        ({
            let a = accounts[place_of(accounts, id)->0];
            match a.parent_id {
                Some(p) => place_of(accounts, p) is Some ==> path_of(accounts, id) == path_of(accounts, p) + seq![':'] + a.name@ && depth_of(
                    accounts,
                    id,
                ) == depth_of(accounts, p) + 1,
                None => path_of(accounts, id) == root_text(a.account_type) + seq![':'] + a.name@ && depth_of(accounts, id) == 0,
            }
        }),
{
    let i = place_of(accounts, id)->0;
    let a = accounts[i];
    let m = (MAX_CHAIN - 1) as nat;
    let rest = chain(accounts, a.parent_id, m);
    let all = chain(accounts, Some(id), MAX_CHAIN as nat);
    assert(all == seq![i] + rest);
    assert(all.skip(1) =~= rest);
    assert(all[0] == i);
    lemma_chain_limit(accounts, a.parent_id, m);
    if rest.len() > 0 {
        assert(all.last() == rest.last());
    } else {
        assert(all.last() == i);
        assert(rest =~= Seq::<int>::empty());
        reveal_with_fuel(joined, 3);
    }
    if let Some(p) = a.parent_id {
        if let Some(k) = place_of(accounts, p) {
            assert(rest.len() > 0) by {
                assert(rest == seq![k] + chain(accounts, accounts[k].parent_id, (m - 1) as nat));
            }
        }
    }
}

} // verus!
