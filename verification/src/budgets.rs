//! Budget limits apply once to an inclusive period, in the entity's functional currency.

use vstd::prelude::*;

use crate::accounts::{find_place, get_account, known_class, place_of};
use crate::date::{days_in_month, is_date, month_days, Date};
use crate::decimal::{less, Decimal};
use crate::entities::{commodity_named, entity_place, get_commodity_by_code, get_entity};
use crate::error::{invalid, Refusal, Result};
use crate::model::{Account, AccountType, Commodity, Entity, EntryStatus, JournalEntry, Posting};
use crate::money::{amount_of_major, in_range, same_unit, with_minor, Amount, Money};
use crate::totals::{as_int, stepped};
use crate::text::{among, cat3, int_text, is_blank, own, same, texts, trim, trimmed};

verus! {

#[derive(Debug)]
pub struct Budget {
    pub id: i64,
    pub entity_id: i64,
    pub name: String,
    pub scope: String,
    pub account_id: Option<i64>,
    pub class: Option<String>,
    pub tag: Option<String>,
    pub starts_on: Date,
    pub ends_on: Date,
    pub limit: Money,
}

#[derive(Debug)]
pub struct BudgetInput {
    pub entity_id: i64,
    pub name: String,
    pub scope: String,
    pub account_id: Option<i64>,
    pub class: Option<String>,
    /// The tags that were given, each a key and a value.
    pub tag: Option<Vec<(String, String)>>,
    pub starts_on: Option<Date>,
    pub ends_on: Option<Date>,
    pub amount: Decimal,
}

#[derive(Debug)]
pub struct BudgetProgress {
    pub spent: Money,
    pub remaining: Money,
    /// Category trees crossing classes and tag-only budgets use "mixed".
    pub group: String,
    pub target: String,
}

/// The first and the last day of the month of a day.
pub fn month_range(day: Date) -> (r: (Date, Date))
    ensures
        r.0.y() == day.y() && r.0.m() == day.m() && r.0.d() == 1,
        r.1.y() == day.y() && r.1.m() == day.m() && r.1.d() == month_days(day.y(), day.m()),
{
    proof {
        use_type_invariant(&day);
    }
    let (y, m): (i32, u32) = (day.year(), day.month());
    let last = days_in_month(y, m);
    assert(is_date(y as int, m as int, 1));
    assert(is_date(y as int, m as int, last as int));
    match (Date::new(y, m, 1), Date::new(y, m, last)) {
        (Some(a), Some(b)) => (a, b),
        _ => (day, day),
    }
}

/// What is stored of a budget.
#[derive(Debug)]
pub struct BudgetPlan {
    pub name: String,
    pub limit: Money,
    pub starts_on: Date,
    pub ends_on: Date,
    pub tag: Option<String>,
}

/// A tag as it is shown: its key, with its value where it has one.
pub open spec fn tag_text(t: (String, String)) -> Seq<char> {
    if t.1@.len() == 0 {
        t.0@
    } else {
        t.0@ + ":"@ + t.1@
    }
}

fn show_tag(t: &(String, String)) -> (r: String)
    ensures
        r@ == tag_text(*t),
{
    if same(t.1.as_str(), "") {
        assert(t.1@.len() == 0) by {
            reveal_strlit("");
        }
        own(t.0.as_str())
    } else {
        assert(t.1@.len() != 0) by {
            reveal_strlit("");
            assert(t.1@.len() == 0 ==> t.1@ =~= ""@);
        }
        cat3(t.0.as_str(), ":", t.1.as_str())
    }
}

/// The one tag among those given, or the refusal of more or none.
pub open spec fn single_tag(tags: Option<Seq<(String, String)>>, refusal: Seq<char>) -> std::result::Result<Option<Seq<char>>, Refusal> {
    match tags {
        None => Ok(None),
        Some(v) => if v.len() == 1 {
            Ok(Some(tag_text(v[0])))
        } else {
            Err(Refusal::Invalid(refusal))
        },
    }
}

pub open spec fn tags_of(t: Option<Vec<(String, String)>>) -> Option<Seq<(String, String)>> {
    match t {
        Some(v) => Some(v@),
        None => None,
    }
}

pub open spec fn text_of(t: Option<String>) -> Option<Seq<char>> {
    match t {
        Some(s) => Some(s@),
        None => None,
    }
}

pub fn take_tag(tags: &Option<Vec<(String, String)>>, refusal: &str) -> (r: Result<Option<String>>)
    ensures
        match r {
            Ok(t) => single_tag(tags_of(*tags), refusal@) == Ok::<Option<Seq<char>>, Refusal>(text_of(t)),
            Err(e) => single_tag(tags_of(*tags), refusal@) == Err::<Option<Seq<char>>, Refusal>(e@),
        },
{
    match tags {
        None => Ok(None),
        Some(v) => if v.len() == 1 {
            Ok(Some(show_tag(&v[0])))
        } else {
            Err(invalid(refusal))
        },
    }
}

/// The period of a budget, which is the month of today where no dates are given.
pub open spec fn is_period(starts_on: Option<Date>, ends_on: Option<Date>, today: Date, from: Date, to: Date) -> bool {
    match (starts_on, ends_on) {
        (Some(a), Some(b)) => !b.before(a) && from == a && to == b,
        (None, None) => {
            &&& from.y() == today.y() && from.m() == today.m() && from.d() == 1
            &&& to.y() == today.y() && to.m() == today.m() && to.d() == month_days(today.y(), today.m())
        },
        _ => false,
    }
}

pub open spec fn has_period(starts_on: Option<Date>, ends_on: Option<Date>) -> bool {
    match (starts_on, ends_on) {
        (Some(a), Some(b)) => !b.before(a),
        (None, None) => true,
        _ => false,
    }
}

/// Why the target of a budget is refused: a category is an expense account of the entity, a
/// class is one of the known ones or none, and a tag stands alone.
pub open spec fn scope_refusal(input: BudgetInput, accounts: Seq<Account>, tagged: bool) -> Option<Refusal> {
    if input.scope@ == "category"@ && input.class is None && input.account_id is Some {
        match place_of(accounts, input.account_id->0) {
            None => Some(Refusal::NotFound("account "@ + int_text(input.account_id->0 as int))),
            Some(i) => if accounts[i].entity_id != input.entity_id || accounts[i].account_type != AccountType::Expense {
                Some(Refusal::Invalid("budget category must be an expense account in this entity"@))
            } else {
                None
            },
        }
    } else if input.scope@ == "class"@ && input.account_id is None && input.class is Some && known_class(input.class->0@) {
        None
    } else if input.scope@ == "tag"@ && input.account_id is None && input.class is None && tagged {
        None
    } else {
        Some(Refusal::Invalid("budget scope requires a category, a valid class, or a tag-only filter"@))
    }
}

/// Why a budget is refused.
pub open spec fn budget_refusal(
    moved: bool,
    input: BudgetInput,
    entities: Seq<Entity>,
    commodities: Seq<Commodity>,
    accounts: Seq<Account>,
) -> Option<Refusal> {
    if moved {
        Some(Refusal::Invalid("a budget cannot move between entities"@))
    } else {
        match entity_place(entities, input.entity_id, 0) {
            None => Some(Refusal::NotFound("entity "@ + int_text(input.entity_id as int))),
            Some(j) => match commodity_named(commodities, entities[j].currency@) {
                Err(e) => Some(e),
                Ok(c) => match amount_of_major(input.amount@, entities[j].currency@, c.precision as int) {
                    Err(e) => Some(e),
                    Ok(_) => if less(input.amount@, (0, 0)) {
                        Some(Refusal::Invalid("budget limit must be nonnegative"@))
                    } else if trimmed(input.name@).len() == 0 {
                        Some(Refusal::Invalid("budget needs a name"@))
                    } else if !has_period(input.starts_on, input.ends_on) {
                        Some(Refusal::Invalid("supply both budget dates, with start on or before end"@))
                    } else {
                        match single_tag(tags_of(input.tag), "budget tag filter requires one tag"@) {
                            Err(e) => Some(e),
                            Ok(t) => scope_refusal(input, accounts, t is Some),
                        }
                    },
                },
            },
        }
    }
}

fn check_scope(input: &BudgetInput, accounts: &[Account], tagged: bool) -> (r: Result<()>)
    ensures
        match r {
            Ok(_) => scope_refusal(*input, accounts@, tagged) is None,
            Err(e) => scope_refusal(*input, accounts@, tagged) == Some(e@),
        },
{
    let scope = input.scope.as_str();
    let refusal = "budget scope requires a category, a valid class, or a tag-only filter";
    proof {
        reveal_strlit("category");
        reveal_strlit("class");
        reveal_strlit("tag");
        assert("category"@.len() == 8 && "class"@.len() == 5 && "tag"@.len() == 3);
    }
    match (input.account_id, &input.class) {
        (Some(id), None) => {
            if !same(scope, "category") {
                return Err(invalid(refusal));
            }
            let a = match get_account(accounts, id) {
                Ok(a) => a,
                Err(e) => {
                    return Err(e);
                },
            };
            if a.entity_id != input.entity_id || a.account_type != AccountType::Expense {
                return Err(invalid("budget category must be an expense account in this entity"));
            }
            Ok(())
        },
        (None, Some(c)) => {
            if same(scope, "class") && is_known_class(c.as_str()) {
                Ok(())
            } else {
                Err(invalid(refusal))
            }
        },
        (None, None) => {
            if same(scope, "tag") && tagged {
                Ok(())
            } else {
                Err(invalid(refusal))
            }
        },
        _ => Err(invalid(refusal)),
    }
}

fn is_known_class(c: &str) -> (r: bool)
    ensures
        r == known_class(c@),
{
    same(c, "") || same(c, "fixed") || same(c, "committed") || same(c, "discretionary") || same(c, "savings") || same(c, "not-spending")
}

/// Checks a budget before it is stored. Both dates omitted stand for the calendar month of today;
/// a partial range is refused. `before` is the entity of the budget that is changed.
pub fn save(
    before: Option<i64>,
    input: &BudgetInput,
    entities: &[Entity],
    commodities: &[Commodity],
    accounts: &[Account],
    today: Date,
) -> (r: Result<BudgetPlan>)
    ensures
        match r {
            Ok(p) => {
                &&& budget_refusal(before matches Some(e) && e != input.entity_id, *input, entities@, commodities@, accounts@) is None
                &&& p.name@ == trimmed(input.name@)
                &&& is_period(input.starts_on, input.ends_on, today, p.starts_on, p.ends_on)
                &&& Ok::<Option<Seq<char>>, Refusal>(text_of(p.tag)) == single_tag(tags_of(input.tag), "budget tag filter requires one tag"@)
                &&& amount_of_major(
                    input.amount@,
                    entities@[entity_place(entities@, input.entity_id, 0)->0].currency@,
                    commodity_named(commodities@, entities@[entity_place(entities@, input.entity_id, 0)->0].currency@)->Ok_0.precision as int,
                ) == Ok::<Amount, Refusal>(p.limit@)
            },
            Err(x) => budget_refusal(before matches Some(e) && e != input.entity_id, *input, entities@, commodities@, accounts@)
                == Some(x@),
        },
{
    if let Some(e) = before {
        if e != input.entity_id {
            return Err(invalid("a budget cannot move between entities"));
        }
    }
    let entity = match get_entity(entities, input.entity_id) {
        Ok(e) => e,
        Err(e) => {
            return Err(e);
        },
    };
    let currency = match get_commodity_by_code(commodities, entity.currency.as_str()) {
        Ok(c) => c,
        Err(e) => {
            return Err(e);
        },
    };
    let limit = match Money::from_major(input.amount, entity.currency.as_str(), currency.precision) {
        Ok(m) => m,
        Err(e) => {
            return Err(e);
        },
    };
    if input.amount.lt(Decimal::zero()) {
        return Err(invalid("budget limit must be nonnegative"));
    }
    if is_blank(input.name.as_str()) {
        return Err(invalid("budget needs a name"));
    }
    let (from, to) = match (input.starts_on, input.ends_on) {
        (Some(a), Some(b)) => if b.is_before(a) {
            return Err(invalid("supply both budget dates, with start on or before end"));
        } else {
            (a, b)
        },
        (None, None) => month_range(today),
        _ => {
            return Err(invalid("supply both budget dates, with start on or before end"));
        },
    };
    let tag = match take_tag(&input.tag, "budget tag filter requires one tag") {
        Ok(t) => t,
        Err(e) => {
            return Err(e);
        },
    };
    if let Err(e) = check_scope(input, accounts, tag.is_some()) {
        return Err(e);
    }
    Ok(BudgetPlan { name: trim(input.name.as_str()), limit, starts_on: from, ends_on: to, tag })
}

/// Whether an account is `top` or stands below it, at most `steps` accounts away.
pub open spec fn within(accounts: Seq<Account>, id: i64, top: i64, steps: nat) -> bool
    decreases steps,
{
    match place_of(accounts, id) {
        None => false,
        Some(i) => id == top || (steps > 0 && match accounts[i].parent_id {
            Some(p) => within(accounts, p, top, (steps - 1) as nat),
            None => false,
        }),
    }
}

pub fn is_within(accounts: &[Account], id: i64, top: i64) -> (r: bool)
    ensures
        r == within(accounts@, id, top, accounts@.len()),
{
    let mut cur: i64 = id;
    let mut steps: usize = accounts.len();
    loop
        invariant
            steps <= accounts.len(),
            within(accounts@, id, top, accounts@.len()) == within(accounts@, cur, top, steps as nat),
        decreases steps,
    {
        match find_place(accounts, cur) {
            None => {
                return false;
            },
            Some(i) => {
                if cur == top {
                    return true;
                }
                if steps == 0 {
                    return false;
                }
                match accounts[i].parent_id {
                    None => {
                        return false;
                    },
                    Some(p) => {
                        cur = p;
                        steps = steps - 1;
                    },
                }
            },
        }
    }
}

/// Whether the entry is booked in the entity and the period of a budget, and carries its tag.
pub open spec fn in_budget(b: Budget, e: JournalEntry) -> bool {
    &&& e.entity_id == b.entity_id
    &&& e.status != EntryStatus::Draft
    &&& !e.date.before(b.starts_on)
    &&& !b.ends_on.before(e.date)
    &&& b.tag matches Some(t) ==> texts(e.tags@).contains(t@)
}

/// Whether a posting on the account `id` is spending in the categories of a budget.
pub open spec fn spends(b: Budget, accounts: Seq<Account>, id: i64) -> bool {
    match place_of(accounts, id) {
        None => false,
        Some(i) => {
            &&& accounts[i].entity_id == b.entity_id
            &&& accounts[i].account_type == AccountType::Expense
            &&& b.account_id matches Some(top) ==> within(accounts, id, top, accounts.len())
            &&& b.class matches Some(c) ==> accounts[i].class@ == c@
        },
    }
}

/// A total with the first `n` postings that are spending.
pub open spec fn with_spending(total: Option<int>, b: Budget, accounts: Seq<Account>, postings: Seq<Posting>, n: nat) -> Option<int>
    decreases n,
{
    if n == 0 {
        total
    } else {
        let t = with_spending(total, b, accounts, postings, (n - 1) as nat);
        if spends(b, accounts, postings[n - 1].account_id) {
            stepped(t, postings[n - 1].amount@.minor)
        } else {
            t
        }
    }
}

/// What the first `n` entries spend of a budget, as long as every step stays in range.
pub open spec fn spent_in(b: Budget, accounts: Seq<Account>, entries: Seq<JournalEntry>, n: nat) -> Option<int>
    decreases n,
{
    if n == 0 {
        Some(0)
    } else {
        let t = spent_in(b, accounts, entries, (n - 1) as nat);
        if in_budget(b, entries[n - 1]) {
            with_spending(t, b, accounts, entries[n - 1].postings@, entries[n - 1].postings@.len())
        } else {
            t
        }
    }
}

fn is_in_budget(b: &Budget, e: &JournalEntry) -> (r: bool)
    ensures
        r == in_budget(*b, *e),
{
    if e.entity_id != b.entity_id || e.status == EntryStatus::Draft || e.date.is_before(b.starts_on) || b.ends_on.is_before(e.date) {
        return false;
    }
    match &b.tag {
        None => true,
        Some(t) => among(&e.tags, t.as_str()),
    }
}

fn is_spending(b: &Budget, accounts: &[Account], id: i64) -> (r: bool)
    ensures
        r == spends(*b, accounts@, id),
{
    match find_place(accounts, id) {
        None => false,
        Some(i) => {
            if accounts[i].entity_id != b.entity_id || accounts[i].account_type != AccountType::Expense {
                return false;
            }
            if let Some(top) = b.account_id {
                if !is_within(accounts, id, top) {
                    return false;
                }
            }
            match &b.class {
                Some(c) => same(accounts[i].class.as_str(), c.as_str()),
                None => true,
            }
        },
    }
}

fn add_spending(total: Option<i64>, b: &Budget, accounts: &[Account], v: &Vec<Posting>) -> (r: Option<i64>)
    ensures
        as_int(r) == with_spending(as_int(total), *b, accounts@, v@, v@.len()),
{
    let mut sum: Option<i64> = total;
    let mut i: usize = 0;
    while i < v.len()
        invariant
            i <= v.len(),
            as_int(sum) == with_spending(as_int(total), *b, accounts@, v@, i as nat),
        decreases v.len() - i,
    {
        if is_spending(b, accounts, v[i].account_id) {
            sum = match sum {
                Some(t) => t.checked_add(v[i].amount.minor()),
                None => None,
            };
        }
        i = i + 1;
    }
    sum
}

/// What the entries spend of a budget, in minor units, or nothing where the total is out of
/// range.
fn spending(b: &Budget, accounts: &[Account], entries: &[JournalEntry]) -> (r: Option<i64>)
    ensures
        as_int(r) == spent_in(*b, accounts@, entries@, entries@.len()),
{
    let mut total: Option<i64> = Some(0);
    let mut i: usize = 0;
    while i < entries.len()
        invariant
            i <= entries.len(),
            as_int(total) == spent_in(*b, accounts@, entries@, i as nat),
        decreases entries.len() - i,
    {
        if is_in_budget(b, &entries[i]) {
            total = add_spending(total, b, accounts, &entries[i].postings);
        }
        i = i + 1;
    }
    total
}

/// Whether every account in the tree of `top` has the class `c`.
pub open spec fn one_class(accounts: Seq<Account>, top: i64, c: Seq<char>) -> bool {
    forall|j: int| 0 <= j < accounts.len() && within(accounts, (#[trigger] accounts[j]).id, top, accounts.len()) ==> accounts[j].class@ == c
}

fn is_one_class(accounts: &[Account], top: i64, c: &str) -> (r: bool)
    ensures
        r == one_class(accounts@, top, c@),
{
    let mut i: usize = 0;
    while i < accounts.len()
        invariant
            i <= accounts.len(),
            forall|j: int| 0 <= j < i && within(accounts@, (#[trigger] accounts@[j]).id, top, accounts@.len()) ==> accounts@[j].class@ == c@,
        decreases accounts.len() - i,
    {
        if is_within(accounts, accounts[i].id, top) && !same(accounts[i].class.as_str(), c) {
            return false;
        }
        i = i + 1;
    }
    true
}

/// The group and the target that a budget is shown under.
pub open spec fn shown_under(b: Budget, accounts: Seq<Account>, group: Seq<char>, target: Seq<char>) -> bool {
    match b.account_id {
        Some(id) => {
            let a = accounts[place_of(accounts, id)->0];
            &&& group == (if one_class(accounts, id, a.class@) {
                a.class@
            } else {
                "mixed"@
            })
            &&& target == a.path@
        },
        None => match b.class {
            Some(c) => group == c@ && target == (if c@.len() == 0 {
                "Unclassified"@
            } else {
                c@
            }),
            None => group == "mixed"@ && target == (match b.tag {
                Some(t) => t@,
                None => Seq::empty(),
            }),
        },
    }
}

/// How far a budget is spent. The entries are those of the books, whatever their period.
pub fn progress(b: &Budget, accounts: &[Account], entries: &[JournalEntry]) -> (r: Result<BudgetProgress>)
    ensures
        match r {
            Ok(p) => {
                &&& spent_in(*b, accounts@, entries@, entries@.len()) matches Some(n) && p.spent@ == with_minor(b.limit@, n)
                    && p.remaining@ == with_minor(b.limit@, b.limit@.minor - n)
                &&& b.account_id matches Some(id) ==> place_of(accounts@, id) is Some
                &&& shown_under(*b, accounts@, p.group@, p.target@)
            },
            Err(e) => match spent_in(*b, accounts@, entries@, entries@.len()) {
                None => e.invalid("budget spending is out of range"@),
                Some(n) => if in_range(b.limit@.minor - n) is None {
                    e.invalid("money subtraction overflow"@)
                } else {
                    b.account_id matches Some(id) && place_of(accounts@, id) is None && e.not_found("account "@ + int_text(id as int))
                },
            },
        },
{
    let minor = match spending(b, accounts, entries) {
        Some(n) => n,
        None => {
            return Err(invalid("budget spending is out of range"));
        },
    };
    let limit = b.limit;
    let spent = limit.with_count(minor);
    let remaining = match limit.checked_sub(spent) {
        Ok(m) => m,
        Err(e) => {
            return Err(e);
        },
    };
    let (group, target) = match b.account_id {
        Some(id) => {
            let a = match get_account(accounts, id) {
                Ok(a) => a,
                Err(e) => {
                    return Err(e);
                },
            };
            let group = if is_one_class(accounts, id, a.class.as_str()) {
                own(a.class.as_str())
            } else {
                own("mixed")
            };
            (group, own(a.path.as_str()))
        },
        None => match &b.class {
            Some(c) => {
                let target = if same(c.as_str(), "") {
                    own("Unclassified")
                } else {
                    own(c.as_str())
                };
                proof {
                    reveal_strlit("");
                    assert(c@.len() == 0 ==> c@ =~= ""@);
                }
                (own(c.as_str()), target)
            },
            None => (
                own("mixed"),
                match &b.tag {
                    Some(t) => own(t.as_str()),
                    None => String::new(),
                },
            ),
        },
    };
    Ok(BudgetProgress { spent, remaining, group, target })
}

/// What is spent of a budget and what remains of it make up its limit.
pub proof fn law_budget_adds_up(limit: Amount, spent: Amount, remaining: Amount, n: int)
    requires
        spent == with_minor(limit, n),
        remaining == with_minor(limit, limit.minor - n),
    ensures
        spent.minor + remaining.minor == limit.minor,
        same_unit(spent, limit),
        same_unit(remaining, limit),
{
}

/// Whether a budget is listed: it is valid on the day, where one is given, and has the tag, where
/// one is given. The spending that is shown with it always covers its full period.
pub open spec fn listed(b: Budget, entity_id: i64, as_of: Option<Date>, tag: Option<Seq<char>>) -> bool {
    &&& b.entity_id == entity_id
    &&& as_of matches Some(d) ==> !d.before(b.starts_on) && !b.ends_on.before(d)
    &&& tag matches Some(t) ==> text_of(b.tag) == Some(t)
}

/// The places of the listed ones among the first `n` budgets.
pub open spec fn listed_places(budgets: Seq<Budget>, entity_id: i64, as_of: Option<Date>, tag: Option<Seq<char>>, n: nat) -> Seq<usize>
    decreases n,
{
    if n == 0 {
        Seq::empty()
    } else {
        let rest = listed_places(budgets, entity_id, as_of, tag, (n - 1) as nat);
        if listed(budgets[n - 1], entity_id, as_of, tag) {
            rest.push((n - 1) as usize)
        } else {
            rest
        }
    }
}

/// The places of the budgets of an entity that are valid on a day and have a tag, where these are
/// given.
pub fn list(entities: &[Entity], budgets: &[Budget], entity_id: i64, as_of: Option<Date>, tag: &Option<Vec<(String, String)>>) -> (r: Result<
    Vec<usize>,
>)
    ensures
        match r {
            Ok(v) => {
                &&& entity_place(entities@, entity_id, 0) is Some
                &&& single_tag(tags_of(*tag), "budget list filter requires one tag"@) matches Ok(t) && v@ == listed_places(
                    budgets@,
                    entity_id,
                    as_of,
                    t,
                    budgets@.len(),
                )
            },
            Err(e) => {
                ||| entity_place(entities@, entity_id, 0) is None && e.not_found("entity "@ + int_text(entity_id as int))
                ||| entity_place(entities@, entity_id, 0) is Some && single_tag(
                    tags_of(*tag),
                    "budget list filter requires one tag"@,
                ) == Err::<Option<Seq<char>>, Refusal>(e@)
            },
        },
{
    if let Err(e) = get_entity(entities, entity_id) {
        return Err(e);
    }
    let tag = match take_tag(tag, "budget list filter requires one tag") {
        Ok(t) => t,
        Err(e) => {
            return Err(e);
        },
    };
    let ghost want = text_of(tag);
    let mut r: Vec<usize> = Vec::new();
    let mut i: usize = 0;
    while i < budgets.len()
        invariant
            i <= budgets.len(),
            want == text_of(tag),
            r@ == listed_places(budgets@, entity_id, as_of, want, i as nat),
        decreases budgets.len() - i,
    {
        let b = &budgets[i];
        let on = match as_of {
            Some(d) => !d.is_before(b.starts_on) && !b.ends_on.is_before(d),
            None => true,
        };
        let tagged = match (&tag, &b.tag) {
            (Some(t), Some(s)) => same(t.as_str(), s.as_str()),
            (Some(_), None) => false,
            (None, _) => true,
        };
        if b.entity_id == entity_id && on && tagged {
            r.push(i);
        }
        i = i + 1;
    }
    Ok(r)
}

/// What the first `n` postings put on accounts of expenses that a budget covers.
pub open spec fn spent_of(b: Budget, accounts: Seq<Account>, v: Seq<Posting>, n: nat) -> int
    decreases n,
{
    if n == 0 {
        0
    } else {
        let p = v[n - 1];
        spent_of(b, accounts, v, (n - 1) as nat) + (match place_of(accounts, p.account_id) {
            Some(i) => if accounts[i].entity_id == b.entity_id && accounts[i].account_type == AccountType::Expense && (b.class is None || accounts[i].class@
                == b.class->0@) && (b.account_id is None || within(accounts, p.account_id, b.account_id->0, accounts.len())) {
                p.amount@.minor
            } else {
                0
            },
            None => 0,
        })
    }
}

proof fn lemma_spending(total: Option<int>, b: Budget, accounts: Seq<Account>, v: Seq<Posting>, n: nat)
    ensures
        with_spending(total, b, accounts, v, n) matches Some(t) ==> total is Some && t == total->0 + spent_of(b, accounts, v, n),
    decreases n,
{
    if n > 0 {
        lemma_spending(total, b, accounts, v, (n - 1) as nat);
    }
}

/// An entry counts against a budget where it is booked, in the budget's vault, from its first day through its
/// last and with its tag; then it adds what it debits to the expenses that the budget covers, and a refund
/// takes that away. No other entry changes what is spent.
pub proof fn law_entry_counts(b: Budget, accounts: Seq<Account>, entries: Seq<JournalEntry>, n: nat)
    requires
        0 < n <= entries.len(),
    ensures
        spent_in(b, accounts, entries, n) matches Some(t) ==> {
            let e = entries[n - 1];
            let before = spent_in(b, accounts, entries, (n - 1) as nat);
            let counts = e.entity_id == b.entity_id && e.status != EntryStatus::Draft && !e.date.before(b.starts_on) && !b.ends_on.before(e.date) && (
            b.tag is None || texts(e.tags@).contains(b.tag->0@));
            before is Some && t == before->0 + (if counts {
                spent_of(b, accounts, e.postings@, e.postings@.len())
            } else {
                0
            })
        },
        spent_in(b, accounts, entries, 0) == Some(0int),
{
    let e = entries[n - 1];
    lemma_spending(spent_in(b, accounts, entries, (n - 1) as nat), b, accounts, e.postings@, e.postings@.len());
}

} // verus!
