//! Cash movements by day, and expenses by class and by tag.

use vstd::prelude::*;

use crate::accounts::{find_place, lemma_place, place_of};
use crate::budgets::{single_tag, tags_of, take_tag, text_of};
use crate::date::Date;
use crate::decimal::{fits, normal, Decimal, Num};
use crate::entities::{entity_place, functional_places, functional_precision, get_entity};
use crate::error::{invalid, Refusal, Result};
use crate::model::{Account, AccountType, Commodity, Entity, EntryStatus, JournalEntry, Posting};
use crate::money::{check_precision, precision_refusal, with_minor, Amount, Money, MAX_PRECISION};
use crate::order::{as_ints, law_sorted, lemma_sorted_texts, ranks, sort_texts, sorted, sorted_places, sorted_texts, Key, Rank};
use crate::reports::{nothing_in, plus, unit};
use crate::text::{among, chars, distinct, lemma_distinct, int_text, own, push_distinct, same, string, texts};
use crate::totals::{as_int, in_period, is_in_period, stepped};

verus! {

/// Which expenses count: those of an entity in a period, of entries with a tag, in a class.
pub struct Spending {
    pub entity_id: i64,
    pub from: Option<Date>,
    pub to: Option<Date>,
    pub tag: Option<Seq<char>>,
}

/// Which group of expenses is added up.
pub enum Group {
    All,
    Class(Seq<char>),
    Tag(Seq<char>),
    Untagged,
    Payee(Option<i64>, Seq<char>),
}

pub open spec fn spending_entry(s: Spending, g: Group, e: JournalEntry) -> bool {
    &&& e.entity_id == s.entity_id
    &&& e.status != EntryStatus::Draft
    &&& in_period(s.from, s.to, e.date)
    &&& s.tag matches Some(t) ==> texts(e.tags@).contains(t)
    &&& match g {
        Group::Tag(t) => texts(e.tags@).contains(t),
        Group::Untagged => e.tags@.len() == 0,
        Group::Payee(id, name) => e.payee_id == id && e.display_payee@ == name,
        _ => true,
    }
}

pub open spec fn spending_account(s: Spending, g: Group, accounts: Seq<Account>, id: i64) -> bool {
    match place_of(accounts, id) {
        None => false,
        Some(i) => {
            &&& accounts[i].entity_id == s.entity_id
            &&& accounts[i].account_type == AccountType::Expense
            &&& g matches Group::Class(c) ==> accounts[i].class@ == c
        },
    }
}

pub open spec fn with_expenses(total: Option<int>, s: Spending, g: Group, accounts: Seq<Account>, v: Seq<Posting>, n: nat) -> Option<int>
    decreases n,
{
    if n == 0 {
        total
    } else {
        let t = with_expenses(total, s, g, accounts, v, (n - 1) as nat);
        if spending_account(s, g, accounts, v[n - 1].account_id) {
            stepped(t, v[n - 1].amount@.minor)
        } else {
            t
        }
    }
}

/// The expenses of the first `n` entries at their booked functional values, each posting once, as
/// long as every step stays in range.
pub open spec fn expense_total(s: Spending, g: Group, accounts: Seq<Account>, entries: Seq<JournalEntry>, n: nat) -> Option<int>
    decreases n,
{
    if n == 0 {
        Some(0)
    } else {
        let t = expense_total(s, g, accounts, entries, (n - 1) as nat);
        if spending_entry(s, g, entries[n - 1]) {
            with_expenses(t, s, g, accounts, entries[n - 1].postings@, entries[n - 1].postings@.len())
        } else {
            t
        }
    }
}

/// Which expenses count.
pub struct Filter<'a> {
    pub entity_id: i64,
    pub from: Option<Date>,
    pub to: Option<Date>,
    pub tag: &'a Option<String>,
}

impl<'a> Filter<'a> {
    pub open spec fn spending(self) -> Spending {
        Spending { entity_id: self.entity_id, from: self.from, to: self.to, tag: text_of(*self.tag) }
    }
}

/// Which group of expenses is added up.
pub enum Part<'a> {
    All,
    Class(&'a str),
    Tag(&'a str),
    Untagged,
    Payee(Option<i64>, &'a str),
}

impl<'a> Part<'a> {
    pub open spec fn group(self) -> Group {
        match self {
            Part::All => Group::All,
            Part::Payee(id, name) => Group::Payee(id, name@),
            Part::Class(c) => Group::Class(c@),
            Part::Tag(t) => Group::Tag(t@),
            Part::Untagged => Group::Untagged,
        }
    }
}

pub fn same_id(a: Option<i64>, b: Option<i64>) -> (r: bool)
    ensures
        r == (a == b),
{
    match (a, b) {
        (None, None) => true,
        (Some(x), Some(y)) => x == y,
        _ => false,
    }
}

pub fn is_spending_entry(f: &Filter<'_>, g: &Part<'_>, e: &JournalEntry) -> (r: bool)
    ensures
        r == spending_entry(f.spending(), g.group(), *e),
{
    if e.entity_id != f.entity_id || e.status == EntryStatus::Draft || !is_in_period(f.from, f.to, e.date) {
        return false;
    }
    let tagged = match f.tag {
        Some(t) => among(&e.tags, t.as_str()),
        None => true,
    };
    tagged && match g {
        Part::Tag(t) => among(&e.tags, t),
        Part::Untagged => e.tags.len() == 0,
        Part::Payee(id, name) => same_id(e.payee_id, *id) && same(e.display_payee.as_str(), name),
        Part::Class(_) | Part::All => true,
    }
}

pub fn is_spending_account(f: &Filter<'_>, g: &Part<'_>, accounts: &[Account], id: i64) -> (r: bool)
    ensures
        r == spending_account(f.spending(), g.group(), accounts@, id),
{
    match find_place(accounts, id) {
        None => false,
        Some(i) => accounts[i].entity_id == f.entity_id && accounts[i].account_type == AccountType::Expense && match g {
            Part::Class(c) => same(accounts[i].class.as_str(), c),
            _ => true,
        },
    }
}

fn add_expenses(total: Option<i64>, f: &Filter<'_>, g: &Part<'_>, accounts: &[Account], v: &Vec<Posting>) -> (r: Option<i64>)
    ensures
        as_int(r) == with_expenses(as_int(total), f.spending(), g.group(), accounts@, v@, v@.len()),
{
    let mut sum: Option<i64> = total;
    let mut i: usize = 0;
    while i < v.len()
        invariant
            i <= v.len(),
            as_int(sum) == with_expenses(as_int(total), f.spending(), g.group(), accounts@, v@, i as nat),
        decreases v.len() - i,
    {
        if is_spending_account(f, g, accounts, v[i].account_id) {
            sum = match sum {
                Some(t) => t.checked_add(v[i].amount.minor()),
                None => None,
            };
        }
        i = i + 1;
    }
    sum
}

pub fn sum_expenses(f: &Filter<'_>, g: &Part<'_>, accounts: &[Account], entries: &[JournalEntry]) -> (r: Option<i64>)
    ensures
        as_int(r) == expense_total(f.spending(), g.group(), accounts@, entries@, entries@.len()),
{
    let mut total: Option<i64> = Some(0);
    let mut i: usize = 0;
    while i < entries.len()
        invariant
            i <= entries.len(),
            as_int(total) == expense_total(f.spending(), g.group(), accounts@, entries@, i as nat),
        decreases entries.len() - i,
    {
        if is_spending_entry(f, g, &entries[i]) {
            total = add_expenses(total, f, g, accounts, &entries[i].postings);
        }
        i = i + 1;
    }
    total
}

pub open spec fn class_texts(accounts: Seq<Account>) -> Seq<Seq<char>> {
    accounts.map_values(|a: Account| a.class@)
}

/// The classes of accounts, in order.
pub open spec fn classes_of(accounts: Seq<Account>) -> Seq<Seq<char>> {
    sorted_texts(distinct(class_texts(accounts)))
}

fn classes(accounts: &[Account]) -> (r: Vec<String>)
    ensures
        texts(r@) == classes_of(accounts@),
{
    let ghost all = class_texts(accounts@);
    let mut found: Vec<String> = Vec::new();
    let mut i: usize = 0;
    assert(texts(found@) =~= distinct(all.take(0)));
    while i < accounts.len()
        invariant
            i <= accounts.len(),
            all == class_texts(accounts@),
            texts(found@) == distinct(all.take(i as int)),
        decreases accounts.len() - i,
    {
        assert(all.take(i + 1).drop_last() =~= all.take(i as int));
        push_distinct(&mut found, accounts[i].class.as_str());
        i = i + 1;
    }
    assert(all.take(i as int) =~= all);
    sort_texts(&found)
}

#[derive(Debug)]
pub struct ClassExpenseRow {
    /// Empty means the account has no class.
    pub class: String,
    pub amount: Money,
}

#[derive(Debug)]
pub struct ClassExpenseReport {
    pub entity_id: i64,
    pub from: Option<Date>,
    pub to: Option<Date>,
    pub tag: Option<String>,
    pub rows: Vec<ClassExpenseRow>,
    pub total: Money,
}

/// What a row of an expense report shows.
pub struct Spent {
    pub label: Seq<char>,
    pub amount: Amount,
}

pub open spec fn class_rows(rows: Seq<ClassExpenseRow>) -> Seq<Spent> {
    rows.map_values(|r: ClassExpenseRow| Spent { label: r.class@, amount: r.amount@ })
}

/// The rows of the first `n` classes that have expenses, and the total of all of them.
pub open spec fn class_sums(
    s: Spending,
    accounts: Seq<Account>,
    entries: Seq<JournalEntry>,
    classes: Seq<Seq<char>>,
    zero: Amount,
    n: nat,
) -> std::result::Result<(Seq<Spent>, Amount), Refusal>
    decreases n,
{
    if n == 0 {
        Ok((Seq::empty(), zero))
    } else {
        match class_sums(s, accounts, entries, classes, zero, (n - 1) as nat) {
            Err(e) => Err(e),
            Ok((rows, total)) => match expense_total(s, Group::Class(classes[n - 1]), accounts, entries, entries.len()) {
                None => Err(Refusal::Invalid("expense total is out of range"@)),
                Some(m) => match plus(total, with_minor(zero, m)) {
                    Err(e) => Err(e),
                    Ok(t) => if m == 0 {
                        Ok((rows, t))
                    } else {
                        Ok((rows.push(Spent { label: classes[n - 1], amount: with_minor(zero, m) }), t))
                    },
                },
            },
        }
    }
}

/// The place of a class in a report.
pub open spec fn class_order(c: Seq<char>) -> int {
    if c == "fixed"@ {
        0
    } else if c == "committed"@ {
        1
    } else if c == "discretionary"@ {
        2
    } else if c == "savings"@ {
        3
    } else if c == "not-spending"@ {
        4
    } else if c == ""@ {
        5
    } else {
        6
    }
}

fn class_position(c: &str) -> (r: i128)
    ensures
        r == class_order(c@),
{
    if same(c, "fixed") {
        0
    } else if same(c, "committed") {
        1
    } else if same(c, "discretionary") {
        2
    } else if same(c, "savings") {
        3
    } else if same(c, "not-spending") {
        4
    } else if same(c, "") {
        5
    } else {
        6
    }
}

pub open spec fn class_ranks(rows: Seq<Spent>) -> Seq<Rank> {
    rows.map_values(|r: Spent| Rank { first: class_order(r.label), second: 0, text: Seq::empty() })
}

/// The rows in the order of their classes.
pub open spec fn by_class(rows: Seq<Spent>) -> Seq<Spent> {
    sorted_places(class_ranks(rows)).map_values(|i: int| rows[i])
}

fn sort_classes(rows: &Vec<ClassExpenseRow>) -> (r: Vec<ClassExpenseRow>)
    ensures
        class_rows(r@) == by_class(class_rows(rows@)),
{
    let ghost all = class_rows(rows@);
    let mut keys: Vec<Key> = Vec::new();
    let mut i: usize = 0;
    while i < rows.len()
        invariant
            i <= rows.len(),
            all == class_rows(rows@),
            keys@.len() == i,
            forall|k: int| 0 <= k < i ==> (#[trigger] keys@[k])@ == class_ranks(all)[k],
        decreases rows.len() - i,
    {
        assert(all[i as int].label == rows@[i as int].class@);
        let key = Key { first: class_position(rows[i].class.as_str()), second: 0, text: String::new() };
        assert(key@ == class_ranks(all)[i as int]);
        keys.push(key);
        i = i + 1;
    }
    assert(ranks(keys@) =~= class_ranks(all));
    let order = sorted(&keys);
    let mut r: Vec<ClassExpenseRow> = Vec::new();
    let mut k: usize = 0;
    while k < order.len()
        invariant
            k <= order.len(),
            all == class_rows(rows@),
            r@.len() == k,
            forall|j: int| 0 <= j < order@.len() ==> (#[trigger] order@[j]) < rows@.len(),
            forall|j: int| 0 <= j < k ==> class_rows(r@)[j] == all[#[trigger] order@[j] as int],
        decreases order.len() - k,
    {
        let x = &rows[order[k]];
        let ghost before = class_rows(r@);
        let row = ClassExpenseRow { class: own(x.class.as_str()), amount: x.amount };
        r.push(row);
        assert(class_rows(r@) =~= before.push(Spent { label: row.class@, amount: row.amount@ }));
        k = k + 1;
    }
    assert(class_rows(r@) =~= by_class(all)) by {
        assert forall|j: int| 0 <= j < r@.len() implies class_rows(r@)[j] == by_class(all)[j] by {
            assert(as_ints(order@)[j] == order@[j] as int);
        }
    }
    r
}

/// What an expense report is about, or why there is none.
pub open spec fn report_base(
    entities: Seq<Entity>,
    commodities: Seq<Commodity>,
    entity_id: i64,
    from: Option<Date>,
    to: Option<Date>,
    tags: Option<Seq<(String, String)>>,
) -> std::result::Result<(Amount, Option<Seq<char>>), Refusal> {
    if from is Some && to is Some && (to->0).before(from->0) {
        Err(Refusal::Invalid("report start date must not follow its end date"@))
    } else {
        match entity_place(entities, entity_id, 0) {
            None => Err(Refusal::NotFound("entity "@ + int_text(entity_id as int))),
            Some(j) => match nothing_in(commodities, entities[j].currency@) {
                Err(e) => Err(e),
                Ok(zero) => match single_tag(tags, "report tag filter requires one tag"@) {
                    Err(e) => Err(e),
                    Ok(t) => Ok((zero, t)),
                },
            },
        }
    }
}

/// The expenses by class: the rows in order, the total, and the tag that was asked for.
pub open spec fn classes_report(
    entities: Seq<Entity>,
    commodities: Seq<Commodity>,
    accounts: Seq<Account>,
    entries: Seq<JournalEntry>,
    entity_id: i64,
    from: Option<Date>,
    to: Option<Date>,
    tags: Option<Seq<(String, String)>>,
) -> std::result::Result<(Seq<Spent>, Amount, Option<Seq<char>>), Refusal> {
    match report_base(entities, commodities, entity_id, from, to, tags) {
        Err(e) => Err(e),
        Ok((zero, tag)) => {
            let c = classes_of(accounts);
            match class_sums(Spending { entity_id, from, to, tag }, accounts, entries, c, zero, c.len()) {
                Err(e) => Err(e),
                Ok((rows, total)) => Ok((by_class(rows), total, tag)),
            }
        },
    }
}

proof fn lemma_class_failed(
    s: Spending,
    accounts: Seq<Account>,
    entries: Seq<JournalEntry>,
    classes: Seq<Seq<char>>,
    zero: Amount,
    n: nat,
    m: nat,
)
    requires
        n <= m,
        class_sums(s, accounts, entries, classes, zero, n) is Err,
    ensures
        class_sums(s, accounts, entries, classes, zero, m) == class_sums(s, accounts, entries, classes, zero, n),
    decreases m - n,
{
    if n < m {
        lemma_class_failed(s, accounts, entries, classes, zero, n, (m - 1) as nat);
    }
}

fn sum_classes(f: &Filter<'_>, accounts: &[Account], entries: &[JournalEntry], names: &Vec<String>, zero: Money) -> (r: Result<
    (Vec<ClassExpenseRow>, Money),
>)
    ensures
        match r {
            Ok(x) => class_sums(f.spending(), accounts@, entries@, texts(names@), zero@, names@.len()) == Ok::<(Seq<Spent>, Amount), Refusal>(
                (class_rows(x.0@), x.1@),
            ),
            Err(e) => class_sums(f.spending(), accounts@, entries@, texts(names@), zero@, names@.len()) == Err::<
                (Seq<Spent>, Amount),
                Refusal,
            >(e@),
        },
{
    let ghost cs = texts(names@);
    let mut rows: Vec<ClassExpenseRow> = Vec::new();
    let mut total = zero;
    let mut i: usize = 0;
    assert(class_rows(rows@) =~= Seq::<Spent>::empty());
    while i < names.len()
        invariant
            i <= names.len(),
            cs == texts(names@),
            class_sums(f.spending(), accounts@, entries@, cs, zero@, i as nat) == Ok::<(Seq<Spent>, Amount), Refusal>(
                (class_rows(rows@), total@),
            ),
        decreases names.len() - i,
    {
        assert(cs[i as int] == names@[i as int]@);
        let g = Part::Class(names[i].as_str());
        let minor = match sum_expenses(f, &g, accounts, entries) {
            Some(m) => m,
            None => {
                proof {
                    lemma_class_failed(f.spending(), accounts@, entries@, cs, zero@, (i + 1) as nat, cs.len());
                }
                return Err(invalid("expense total is out of range"));
            },
        };
        let amount = zero.with_count(minor);
        total = match total.checked_add(amount) {
            Ok(t) => t,
            Err(e) => {
                proof {
                    lemma_class_failed(f.spending(), accounts@, entries@, cs, zero@, (i + 1) as nat, cs.len());
                }
                return Err(e);
            },
        };
        if minor != 0 {
            let ghost before = class_rows(rows@);
            let row = ClassExpenseRow { class: own(names[i].as_str()), amount };
            rows.push(row);
            assert(class_rows(rows@) =~= before.push(Spent { label: row.class@, amount: row.amount@ }));
        }
        i = i + 1;
    }
    Ok((rows, total))
}

/// Sums expense postings once, at their booked functional values. The tag filter selects entries
/// without multiplying their postings.
pub fn expenses_by_class(
    entities: &[Entity],
    commodities: &[Commodity],
    accounts: &[Account],
    entries: &[JournalEntry],
    entity_id: i64,
    from: Option<Date>,
    to: Option<Date>,
    tags: &Option<Vec<(String, String)>>,
) -> (r: Result<ClassExpenseReport>)
    ensures
        match r {
            Ok(x) => {
                &&& classes_report(entities@, commodities@, accounts@, entries@, entity_id, from, to, tags_of(*tags)) == Ok::<
                    (Seq<Spent>, Amount, Option<Seq<char>>),
                    Refusal,
                >((class_rows(x.rows@), x.total@, text_of(x.tag)))
                &&& x.entity_id == entity_id && x.from == from && x.to == to
            },
            Err(e) => classes_report(entities@, commodities@, accounts@, entries@, entity_id, from, to, tags_of(*tags)) == Err::<
                (Seq<Spent>, Amount, Option<Seq<char>>),
                Refusal,
            >(e@),
        },
{
    if let (Some(a), Some(b)) = (from, to) {
        if b.is_before(a) {
            return Err(invalid("report start date must not follow its end date"));
        }
    }
    let entity = match get_entity(entities, entity_id) {
        Ok(e) => e,
        Err(e) => {
            return Err(e);
        },
    };
    let zero = match unit(commodities, entity.currency.as_str()) {
        Ok(m) => m,
        Err(e) => {
            return Err(e);
        },
    };
    let tag = match take_tag(tags, "report tag filter requires one tag") {
        Ok(t) => t,
        Err(e) => {
            return Err(e);
        },
    };
    let names = classes(accounts);
    let f = Filter { entity_id, from, to, tag: &tag };
    let (rows, total) = match sum_classes(&f, accounts, entries, &names, zero) {
        Ok(x) => x,
        Err(e) => {
            return Err(e);
        },
    };
    let rows = sort_classes(&rows);
    Ok(ClassExpenseReport { entity_id, from, to, tag, rows, total })
}

#[derive(Debug)]
pub struct TagExpenseRow {
    /// Nothing is the untagged group, not a literal tag name.
    pub tag: Option<String>,
    pub amount: Money,
}

#[derive(Debug)]
pub struct TagExpenseReport {
    pub entity_id: i64,
    pub from: Option<Date>,
    pub to: Option<Date>,
    pub tag: Option<String>,
    pub rows: Vec<TagExpenseRow>,
    /// Each expense posting counted once, regardless of its tags.
    pub total: Money,
    /// Tag rows count the full amount under every tag and are not additive.
    pub overlapping: bool,
}

pub struct Tagged {
    pub tag: Option<Seq<char>>,
    pub amount: Amount,
}

pub open spec fn tag_rows(rows: Seq<TagExpenseRow>) -> Seq<Tagged> {
    rows.map_values(|r: TagExpenseRow| Tagged { tag: text_of(r.tag), amount: r.amount@ })
}

/// The tags of the first `n` entries, one after another.
pub open spec fn all_tags(entries: Seq<JournalEntry>, n: nat) -> Seq<Seq<char>>
    decreases n,
{
    if n == 0 {
        Seq::empty()
    } else {
        all_tags(entries, (n - 1) as nat) + texts(entries[n - 1].tags@)
    }
}

/// The place of the colon that ends the key of a tag.
pub open spec fn key_end(t: Seq<char>, from: int) -> Option<int>
    decreases t.len() - from,
{
    if from < 0 || from >= t.len() {
        None
    } else if t[from] == ':' {
        Some(from)
    } else {
        key_end(t, from + 1)
    }
}

/// What a tag is ordered by: its key, then its value.
pub open spec fn tag_rank(t: Seq<char>) -> Rank {
    Rank {
        first: 0,
        second: 0,
        text: match key_end(t, 0) {
            Some(p) => t.update(p, '\u{0}'),
            None => t,
        },
    }
}

/// The different tags of entries, in the order of their keys and values.
pub open spec fn tags_in_order(entries: Seq<JournalEntry>) -> Seq<Seq<char>> {
    let d = distinct(all_tags(entries, entries.len()));
    sorted_places(d.map_values(|t: Seq<char>| tag_rank(t))).map_values(|i: int| d[i])
}

/// A row for a group that has expenses, after those before it.
pub open spec fn with_group(
    rows: std::result::Result<Seq<Tagged>, Refusal>,
    s: Spending,
    g: Group,
    tag: Option<Seq<char>>,
    accounts: Seq<Account>,
    entries: Seq<JournalEntry>,
    zero: Amount,
) -> std::result::Result<Seq<Tagged>, Refusal> {
    match rows {
        Err(e) => Err(e),
        Ok(v) => match expense_total(s, g, accounts, entries, entries.len()) {
            None => Err(Refusal::Invalid("expense total is out of range"@)),
            Some(m) => if m == 0 {
                Ok(v)
            } else {
                Ok(v.push(Tagged { tag, amount: with_minor(zero, m) }))
            },
        },
    }
}

/// The untagged expenses, and those of the first `n` tags.
pub open spec fn tag_sums(
    s: Spending,
    accounts: Seq<Account>,
    entries: Seq<JournalEntry>,
    tags: Seq<Seq<char>>,
    zero: Amount,
    n: nat,
) -> std::result::Result<Seq<Tagged>, Refusal>
    decreases n,
{
    if n == 0 {
        with_group(Ok(Seq::empty()), s, Group::Untagged, None, accounts, entries, zero)
    } else {
        with_group(
            tag_sums(s, accounts, entries, tags, zero, (n - 1) as nat),
            s,
            Group::Tag(tags[n - 1]),
            Some(tags[n - 1]),
            accounts,
            entries,
            zero,
        )
    }
}

fn find_tags(entries: &[JournalEntry]) -> (r: Vec<String>)
    ensures
        texts(r@) == distinct(all_tags(entries@, entries@.len())),
{
    let mut r: Vec<String> = Vec::new();
    let mut i: usize = 0;
    assert(texts(r@) =~= distinct(all_tags(entries@, 0)));
    while i < entries.len()
        invariant
            i <= entries.len(),
            texts(r@) == distinct(all_tags(entries@, i as nat)),
        decreases entries.len() - i,
    {
        let ghost base = all_tags(entries@, i as nat);
        let ghost mine = texts(entries@[i as int].tags@);
        let mut k: usize = 0;
        assert(base + mine.take(0) =~= base);
        while k < entries[i].tags.len()
            invariant
                i < entries.len(),
                mine == texts(entries@[i as int].tags@),
                k <= mine.len(),
                texts(r@) == distinct(base + mine.take(k as int)),
            decreases mine.len() - k,
        {
            proof {
                let next = base + mine.take(k + 1);
                assert(next.drop_last() =~= base + mine.take(k as int));
                assert(next.last() == mine[k as int]);
            }
            push_distinct(&mut r, entries[i].tags[k].as_str());
            k = k + 1;
        }
        assert(mine.take(k as int) =~= mine);
        i = i + 1;
    }
    r
}

fn tag_key(t: &str) -> (r: String)
    ensures
        r@ == tag_rank(t@).text,
{
    let mut cs = chars(t);
    let mut i: usize = 0;
    while i < cs.len()
        invariant
            i <= cs.len(),
            cs@ == t@,
            key_end(t@, 0) == key_end(t@, i as int),
        decreases cs.len() - i,
    {
        if cs[i] == ':' {
            cs.set(i, '\u{0}');
            return string(&cs);
        }
        i = i + 1;
    }
    string(&cs)
}

fn order_tags(entries: &[JournalEntry]) -> (r: Vec<String>)
    ensures
        texts(r@) == tags_in_order(entries@),
{
    let found = find_tags(entries);
    let ghost d = texts(found@);
    let mut keys: Vec<Key> = Vec::new();
    let mut i: usize = 0;
    while i < found.len()
        invariant
            i <= found.len(),
            d == texts(found@),
            keys@.len() == i,
            forall|k: int| 0 <= k < i ==> (#[trigger] keys@[k])@ == tag_rank(d[k]),
        decreases found.len() - i,
    {
        assert(d[i as int] == found@[i as int]@);
        keys.push(Key { first: 0, second: 0, text: tag_key(found[i].as_str()) });
        i = i + 1;
    }
    assert(ranks(keys@) =~= d.map_values(|t: Seq<char>| tag_rank(t)));
    let order = sorted(&keys);
    let mut r: Vec<String> = Vec::new();
    let mut k: usize = 0;
    while k < order.len()
        invariant
            k <= order.len(),
            d == texts(found@),
            r@.len() == k,
            forall|j: int| 0 <= j < order@.len() ==> (#[trigger] order@[j]) < found@.len(),
            forall|j: int| 0 <= j < k ==> (#[trigger] r@[j])@ == d[order@[j] as int],
        decreases order.len() - k,
    {
        assert(d[order@[k as int] as int] == found@[order@[k as int] as int]@);
        r.push(own(found[order[k]].as_str()));
        k = k + 1;
    }
    assert(texts(r@) =~= tags_in_order(entries@)) by {
        assert forall|j: int| 0 <= j < r@.len() implies texts(r@)[j] == tags_in_order(entries@)[j] by {
            assert(as_ints(order@)[j] == order@[j] as int);
            assert(r@[j]@ == d[order@[j] as int]);
        }
    }
    r
}

fn push_group(
    rows: &mut Vec<TagExpenseRow>,
    f: &Filter<'_>,
    g: &Part<'_>,
    tag: Option<String>,
    accounts: &[Account],
    entries: &[JournalEntry],
    zero: Money,
) -> (r: Result<()>)
    ensures
        ({
            let want = with_group(
                Ok(tag_rows(old(rows)@)),
                f.spending(),
                g.group(),
                text_of(tag),
                accounts@,
                entries@,
                zero@,
            );
            match r {
                Ok(_) => want == Ok::<Seq<Tagged>, Refusal>(tag_rows(final(rows)@)),
                Err(e) => want == Err::<Seq<Tagged>, Refusal>(e@),
            }
        }),
{
    match sum_expenses(f, g, accounts, entries) {
        None => Err(invalid("expense total is out of range")),
        Some(m) => {
            if m != 0 {
                let ghost before = tag_rows(rows@);
                let row = TagExpenseRow { tag, amount: zero.with_count(m) };
                rows.push(row);
                assert(tag_rows(rows@) =~= before.push(Tagged { tag: text_of(row.tag), amount: row.amount@ }));
            }
            Ok(())
        },
    }
}

proof fn lemma_tags_failed(
    s: Spending,
    accounts: Seq<Account>,
    entries: Seq<JournalEntry>,
    tags: Seq<Seq<char>>,
    zero: Amount,
    n: nat,
    m: nat,
)
    requires
        n <= m,
        tag_sums(s, accounts, entries, tags, zero, n) is Err,
    ensures
        tag_sums(s, accounts, entries, tags, zero, m) == tag_sums(s, accounts, entries, tags, zero, n),
    decreases m - n,
{
    if n < m {
        lemma_tags_failed(s, accounts, entries, tags, zero, n, (m - 1) as nat);
    }
}

fn sum_tags(f: &Filter<'_>, accounts: &[Account], entries: &[JournalEntry], names: &Vec<String>, zero: Money) -> (r: Result<
    Vec<TagExpenseRow>,
>)
    ensures
        match r {
            Ok(v) => tag_sums(f.spending(), accounts@, entries@, texts(names@), zero@, names@.len()) == Ok::<Seq<Tagged>, Refusal>(
                tag_rows(v@),
            ),
            Err(e) => tag_sums(f.spending(), accounts@, entries@, texts(names@), zero@, names@.len()) == Err::<Seq<Tagged>, Refusal>(e@),
        },
{
    let ghost ts = texts(names@);
    let mut rows: Vec<TagExpenseRow> = Vec::new();
    assert(tag_rows(rows@) =~= Seq::<Tagged>::empty());
    if let Err(e) = push_group(&mut rows, f, &Part::Untagged, None, accounts, entries, zero) {
        proof {
            lemma_tags_failed(f.spending(), accounts@, entries@, ts, zero@, 0, ts.len());
        }
        return Err(e);
    }
    let mut i: usize = 0;
    while i < names.len()
        invariant
            i <= names.len(),
            ts == texts(names@),
            tag_sums(f.spending(), accounts@, entries@, ts, zero@, i as nat) == Ok::<Seq<Tagged>, Refusal>(tag_rows(rows@)),
        decreases names.len() - i,
    {
        assert(ts[i as int] == names@[i as int]@);
        let g = Part::Tag(names[i].as_str());
        if let Err(e) = push_group(&mut rows, f, &g, Some(own(names[i].as_str())), accounts, entries, zero) {
            proof {
                lemma_tags_failed(f.spending(), accounts@, entries@, ts, zero@, (i + 1) as nat, ts.len());
            }
            return Err(e);
        }
        i = i + 1;
    }
    Ok(rows)
}

/// Groups expenses by exact entry tag, including a separate untagged group.
pub fn expenses_by_tag(
    entities: &[Entity],
    commodities: &[Commodity],
    accounts: &[Account],
    entries: &[JournalEntry],
    entity_id: i64,
    from: Option<Date>,
    to: Option<Date>,
    tags: &Option<Vec<(String, String)>>,
) -> (r: Result<TagExpenseReport>)
    ensures
        match classes_report(entities@, commodities@, accounts@, entries@, entity_id, from, to, tags_of(*tags)) {
            Err(f) => r matches Err(e) && e@ == f,
            Ok((_, total, tag)) => {
                let names = tags_in_order(entries@);
                let want = tag_sums(
                    Spending { entity_id, from, to, tag },
                    accounts@,
                    entries@,
                    names,
                    with_minor(total, 0),
                    names.len(),
                );
                match r {
                    Ok(x) => {
                        &&& want == Ok::<Seq<Tagged>, Refusal>(tag_rows(x.rows@))
                        &&& x.total@ == total && text_of(x.tag) == tag && x.overlapping
                        &&& x.entity_id == entity_id && x.from == from && x.to == to
                    },
                    Err(e) => want == Err::<Seq<Tagged>, Refusal>(e@),
                }
            },
        },
{
    let base = match expenses_by_class(entities, commodities, accounts, entries, entity_id, from, to, tags) {
        Ok(b) => b,
        Err(e) => {
            return Err(e);
        },
    };
    let names = order_tags(entries);
    let zero = base.total.with_count(0);
    let tag = base.tag;
    let f = Filter { entity_id, from, to, tag: &tag };
    match sum_tags(&f, accounts, entries, &names, zero) {
        Ok(rows) => Ok(TagExpenseReport { entity_id, from, to, tag, rows, total: base.total, overlapping: true }),
        Err(e) => Err(e),
    }
}

/// Whether an account holds cash: a bank, cash, card or wallet account.
pub open spec fn holds_cash(accounts: Seq<Account>, id: i64) -> bool {
    match place_of(accounts, id) {
        None => false,
        Some(i) => {
            let s = accounts[i].subtype@;
            s == "bank"@ || s == "cash"@ || s == "card"@ || s == "wallet"@
        },
    }
}

fn is_cash(accounts: &[Account], id: i64) -> (r: bool)
    ensures
        r == holds_cash(accounts@, id),
{
    match find_place(accounts, id) {
        None => false,
        Some(i) => {
            let s = accounts[i].subtype.as_str();
            same(s, "bank") || same(s, "cash") || same(s, "card") || same(s, "wallet")
        },
    }
}

/// Which cash movements are added up.
#[derive(Debug, Clone, Copy, PartialEq, Eq, Structural)]
pub enum Flow {
    In,
    Out,
    Net,
}

/// What a cash posting adds to a flow.
pub open spec fn flows(f: Flow, minor: int) -> int {
    match f {
        Flow::In => if minor > 0 {
            minor
        } else {
            0
        },
        Flow::Out => if minor < 0 {
            -minor
        } else {
            0
        },
        Flow::Net => minor,
    }
}

/// A total in the range of 128 bits with one more value.
pub open spec fn wide_step(total: Option<int>, x: int) -> Option<int> {
    match total {
        None => None,
        Some(t) => if i128::MIN <= t + x <= i128::MAX {
            Some(t + x)
        } else {
            None
        },
    }
}

pub open spec fn with_cash(total: Option<int>, f: Flow, accounts: Seq<Account>, v: Seq<Posting>, n: nat) -> Option<int>
    decreases n,
{
    if n == 0 {
        total
    } else {
        let t = with_cash(total, f, accounts, v, (n - 1) as nat);
        if holds_cash(accounts, v[n - 1].account_id) {
            wide_step(t, flows(f, v[n - 1].amount@.minor))
        } else {
            t
        }
    }
}

/// Which entries a day of cash movements is made of: those booked before a day, or the booked ones
/// or the drafts of the day.
#[derive(Debug, Clone, Copy)]
pub enum When {
    Before(Date),
    Booked(Date),
    Drafted(Date),
}

/// When entries fall, with days by their numbers.
pub enum Slot {
    Before(Date),
    Booked(int),
    Drafted(int),
}

impl View for When {
    type V = Slot;

    open spec fn view(&self) -> Slot {
        match *self {
            When::Before(d) => Slot::Before(d),
            When::Booked(d) => Slot::Booked(d.number()),
            When::Drafted(d) => Slot::Drafted(d.number()),
        }
    }
}

pub open spec fn falls(w: Slot, entity_id: i64, e: JournalEntry) -> bool {
    e.entity_id == entity_id && match w {
        Slot::Before(d) => e.status != EntryStatus::Draft && e.date.before(d),
        Slot::Booked(d) => e.status != EntryStatus::Draft && e.date.number() == d,
        Slot::Drafted(d) => e.status == EntryStatus::Draft && e.date.number() == d,
    }
}

pub open spec fn cash_total(w: Slot, f: Flow, entity_id: i64, accounts: Seq<Account>, entries: Seq<JournalEntry>, n: nat) -> Option<int>
    decreases n,
{
    if n == 0 {
        Some(0)
    } else {
        let t = cash_total(w, f, entity_id, accounts, entries, (n - 1) as nat);
        if falls(w, entity_id, entries[n - 1]) {
            with_cash(t, f, accounts, entries[n - 1].postings@, entries[n - 1].postings@.len())
        } else {
            t
        }
    }
}

pub open spec fn wide_int(n: Option<i128>) -> Option<int> {
    match n {
        Some(x) => Some(x as int),
        None => None,
    }
}

fn add_cash(total: Option<i128>, f: Flow, accounts: &[Account], v: &Vec<Posting>) -> (r: Option<i128>)
    ensures
        wide_int(r) == with_cash(wide_int(total), f, accounts@, v@, v@.len()),
{
    let mut sum: Option<i128> = total;
    let mut i: usize = 0;
    while i < v.len()
        invariant
            i <= v.len(),
            wide_int(sum) == with_cash(wide_int(total), f, accounts@, v@, i as nat),
        decreases v.len() - i,
    {
        if is_cash(accounts, v[i].account_id) {
            let minor: i128 = v[i].amount.minor() as i128;
            let x: i128 = match f {
                Flow::In => if minor > 0 {
                    minor
                } else {
                    0
                },
                Flow::Out => if minor < 0 {
                    -minor
                } else {
                    0
                },
                Flow::Net => minor,
            };
            sum = match sum {
                Some(t) => t.checked_add(x),
                None => None,
            };
        }
        i = i + 1;
    }
    sum
}

fn sum_cash(w: When, f: Flow, entity_id: i64, accounts: &[Account], entries: &[JournalEntry]) -> (r: Option<i128>)
    ensures
        wide_int(r) == cash_total(w@, f, entity_id, accounts@, entries@, entries@.len()),
{
    let mut total: Option<i128> = Some(0);
    let mut i: usize = 0;
    while i < entries.len()
        invariant
            i <= entries.len(),
            wide_int(total) == cash_total(w@, f, entity_id, accounts@, entries@, i as nat),
        decreases entries.len() - i,
    {
        let e = &entries[i];
        let draft = e.status == EntryStatus::Draft;
        let counts = e.entity_id == entity_id && match w {
            When::Before(d) => !draft && e.date.is_before(d),
            When::Booked(d) => !draft && e.date.day_number() == d.day_number(),
            When::Drafted(d) => draft && e.date.day_number() == d.day_number(),
        };
        if counts {
            total = add_cash(total, f, accounts, &e.postings);
        }
        i = i + 1;
    }
    total
}

/// Whether an entry moves cash of an entity in a period.
pub open spec fn moves_cash(entity_id: i64, from: Date, to: Date, accounts: Seq<Account>, e: JournalEntry) -> bool {
    &&& e.entity_id == entity_id
    &&& in_period(Some(from), Some(to), e.date)
    &&& exists|k: int| 0 <= k < e.postings@.len() && holds_cash(accounts, (#[trigger] e.postings@[k]).account_id)
}

/// The days among the first `n` entries on which cash moves, each once.
pub open spec fn cash_days(entity_id: i64, from: Date, to: Date, accounts: Seq<Account>, entries: Seq<JournalEntry>, n: nat) -> Seq<int>
    decreases n,
{
    if n == 0 {
        Seq::empty()
    } else {
        let rest = cash_days(entity_id, from, to, accounts, entries, (n - 1) as nat);
        let d = entries[n - 1].date.number();
        if moves_cash(entity_id, from, to, accounts, entries[n - 1]) && !rest.contains(d) {
            rest.push(d)
        } else {
            rest
        }
    }
}

pub open spec fn day_ranks(days: Seq<int>) -> Seq<Rank> {
    days.map_values(|d: int| Rank { first: d, second: 0, text: Seq::empty() })
}

/// Days in the order of time.
pub open spec fn in_time(days: Seq<int>) -> Seq<int> {
    sorted_places(day_ranks(days)).map_values(|i: int| days[i])
}

fn has_cash(accounts: &[Account], v: &Vec<Posting>) -> (r: bool)
    ensures
        r == exists|k: int| 0 <= k < v@.len() && holds_cash(accounts@, (#[trigger] v@[k]).account_id),
{
    let mut i: usize = 0;
    while i < v.len()
        invariant
            i <= v.len(),
            forall|k: int| 0 <= k < i ==> !holds_cash(accounts@, (#[trigger] v@[k]).account_id),
        decreases v.len() - i,
    {
        if is_cash(accounts, v[i].account_id) {
            return true;
        }
        i = i + 1;
    }
    false
}

pub open spec fn day_numbers(v: Seq<Date>) -> Seq<int> {
    v.map_values(|d: Date| d.number())
}

fn is_day_among(v: &Vec<Date>, d: Date) -> (r: bool)
    ensures
        r == day_numbers(v@).contains(d.number()),
{
    let mut i: usize = 0;
    while i < v.len()
        invariant
            i <= v.len(),
            forall|k: int| 0 <= k < i ==> (#[trigger] v@[k]).number() != d.number(),
        decreases v.len() - i,
    {
        if v[i].day_number() == d.day_number() {
            assert(day_numbers(v@)[i as int] == d.number());
            return true;
        }
        i = i + 1;
    }
    assert(!day_numbers(v@).contains(d.number()));
    false
}

fn find_days(entity_id: i64, from: Date, to: Date, accounts: &[Account], entries: &[JournalEntry]) -> (r: Vec<Date>)
    ensures
        day_numbers(r@) == cash_days(entity_id, from, to, accounts@, entries@, entries@.len()),
{
    let mut r: Vec<Date> = Vec::new();
    let mut i: usize = 0;
    assert(day_numbers(r@) =~= Seq::<int>::empty());
    while i < entries.len()
        invariant
            i <= entries.len(),
            day_numbers(r@) == cash_days(entity_id, from, to, accounts@, entries@, i as nat),
        decreases entries.len() - i,
    {
        let e = &entries[i];
        if e.entity_id == entity_id && is_in_period(Some(from), Some(to), e.date) && has_cash(accounts, &e.postings) && !is_day_among(
            &r,
            e.date,
        ) {
            let ghost before = day_numbers(r@);
            r.push(e.date);
            assert(day_numbers(r@) =~= before.push(e.date.number()));
        }
        i = i + 1;
    }
    r
}

fn order_days(days: &Vec<Date>) -> (r: Vec<Date>)
    ensures
        day_numbers(r@) == in_time(day_numbers(days@)),
{
    let ghost all = day_numbers(days@);
    let mut keys: Vec<Key> = Vec::new();
    let mut i: usize = 0;
    while i < days.len()
        invariant
            i <= days.len(),
            all == day_numbers(days@),
            keys@.len() == i,
            forall|k: int| 0 <= k < i ==> (#[trigger] keys@[k])@ == day_ranks(all)[k],
        decreases days.len() - i,
    {
        let key = Key { first: days[i].day_number() as i128, second: 0, text: String::new() };
        assert(all[i as int] == days@[i as int].number());
        assert(key@ == day_ranks(all)[i as int]);
        keys.push(key);
        i = i + 1;
    }
    assert(ranks(keys@) =~= day_ranks(all));
    let order = sorted(&keys);
    let mut r: Vec<Date> = Vec::new();
    let mut k: usize = 0;
    while k < order.len()
        invariant
            k <= order.len(),
            all == day_numbers(days@),
            r@.len() == k,
            forall|j: int| 0 <= j < order@.len() ==> (#[trigger] order@[j]) < days@.len(),
            forall|j: int| 0 <= j < k ==> (#[trigger] r@[j]).number() == all[order@[j] as int],
        decreases order.len() - k,
    {
        assert(all[order@[k as int] as int] == days@[order@[k as int] as int].number());
        r.push(days[order[k]]);
        k = k + 1;
    }
    assert(day_numbers(r@) =~= in_time(all)) by {
        assert forall|j: int| 0 <= j < r@.len() implies day_numbers(r@)[j] == in_time(all)[j] by {
            assert(as_ints(order@)[j] == order@[j] as int);
            assert(r@[j].number() == all[order@[j] as int]);
        }
    }
    r
}

#[derive(Debug, Clone, Copy)]
pub struct CashflowDay {
    pub date: Date,
    pub posted_in: Decimal,
    pub posted_out: Decimal,
    pub draft_in: Decimal,
    pub draft_out: Decimal,
    pub balance: Decimal,
}

/// A day of cash movements, in minor units.
pub struct Moved {
    pub day: int,
    pub posted_in: int,
    pub posted_out: int,
    pub draft_in: int,
    pub draft_out: int,
    pub balance: int,
}

/// The movements of a day and the balance after them, which was `balance` before.
pub open spec fn moved_on(
    d: int,
    balance: int,
    entity_id: i64,
    accounts: Seq<Account>,
    entries: Seq<JournalEntry>,
) -> Option<Moved> {
    let n = entries.len();
    match (
        cash_total(Slot::Booked(d), Flow::In, entity_id, accounts, entries, n),
        cash_total(Slot::Booked(d), Flow::Out, entity_id, accounts, entries, n),
        cash_total(Slot::Drafted(d), Flow::In, entity_id, accounts, entries, n),
        cash_total(Slot::Drafted(d), Flow::Out, entity_id, accounts, entries, n),
    ) {
        (Some(a), Some(b), Some(x), Some(y)) => match wide_step(wide_step(wide_step(wide_step(Some(balance), a), -b), x), -y) {
            Some(after) => Some(
                Moved { day: d, posted_in: a, posted_out: b, draft_in: x, draft_out: y, balance: after },
            ),
            None => None,
        },
        _ => None,
    }
}

/// A count of minor units as a decimal number.
pub open spec fn in_major(n: int, places: nat) -> Num {
    normal((n, places))
}

/// Whether a day shows the movements.
pub open spec fn shows(c: CashflowDay, m: Moved, places: nat) -> bool {
    &&& c.date.number() == m.day
    &&& c.posted_in@ == in_major(m.posted_in, places)
    &&& c.posted_out@ == in_major(m.posted_out, places)
    &&& c.draft_in@ == in_major(m.draft_in, places)
    &&& c.draft_out@ == in_major(m.draft_out, places)
    &&& c.balance@ == in_major(m.balance, places)
}

/// Whether all numbers of a day can be written as decimal numbers.
pub open spec fn writable(m: Moved, places: nat) -> bool {
    &&& fits((m.posted_in, places))
    &&& fits((m.posted_out, places))
    &&& fits((m.draft_in, places))
    &&& fits((m.draft_out, places))
    &&& fits((m.balance, places))
}

fn major_of(n: i128, places: u32) -> (r: Option<Decimal>)
    ensures
        match r {
            Some(d) => fits((n as int, places as nat)) && d@ == in_major(n as int, places as nat),
            None => !fits((n as int, places as nat)),
        },
{
    match Decimal::new(n, places) {
        Some(d) => Some(d.normalize()),
        None => None,
    }
}

fn move_on(d: Date, balance: i128, entity_id: i64, accounts: &[Account], entries: &[JournalEntry], places: u32) -> (r: Option<
    (CashflowDay, i128),
>)
    ensures
        match r {
            Some(x) => moved_on(d.number(), balance as int, entity_id, accounts@, entries@) matches Some(m) && writable(m, places as nat) && shows(
                x.0,
                m,
                places as nat,
            ) && x.1 == m.balance,
            None => moved_on(d.number(), balance as int, entity_id, accounts@, entries@) matches Some(m) ==> !writable(m, places as nat),
        },
{
    let (a, b, x, y) = match (
        sum_cash(When::Booked(d), Flow::In, entity_id, accounts, entries),
        sum_cash(When::Booked(d), Flow::Out, entity_id, accounts, entries),
        sum_cash(When::Drafted(d), Flow::In, entity_id, accounts, entries),
        sum_cash(When::Drafted(d), Flow::Out, entity_id, accounts, entries),
    ) {
        (Some(a), Some(b), Some(x), Some(y)) => (a, b, x, y),
        _ => {
            return None;
        },
    };
    let one = match balance.checked_add(a) {
        Some(n) => n,
        None => {
            return None;
        },
    };
    let two = match one.checked_sub(b) {
        Some(n) => n,
        None => {
            return None;
        },
    };
    let three = match two.checked_add(x) {
        Some(n) => n,
        None => {
            return None;
        },
    };
    let after = match three.checked_sub(y) {
        Some(n) => n,
        None => {
            return None;
        },
    };
    match (major_of(a, places), major_of(b, places), major_of(x, places), major_of(y, places), major_of(after, places)) {
        (Some(posted_in), Some(posted_out), Some(draft_in), Some(draft_out), Some(balance)) => Some(
            (CashflowDay { date: d, posted_in, posted_out, draft_in, draft_out, balance }, after),
        ),
        _ => None,
    }
}

/// The movements of the first `n` days, each after the other, from an opening balance on, where all
/// numbers can be written.
pub open spec fn flow_of(
    days: Seq<int>,
    opening: int,
    entity_id: i64,
    accounts: Seq<Account>,
    entries: Seq<JournalEntry>,
    places: nat,
    n: nat,
) -> Option<Seq<Moved>>
    decreases n,
{
    if n == 0 {
        Some(Seq::empty())
    } else {
        match flow_of(days, opening, entity_id, accounts, entries, places, (n - 1) as nat) {
            None => None,
            Some(v) => match moved_on(days[n - 1], balance_on(v, opening), entity_id, accounts, entries) {
                Some(m) => if writable(m, places) {
                    Some(v.push(m))
                } else {
                    None
                },
                None => None,
            },
        }
    }
}

pub open spec fn balance_on(v: Seq<Moved>, opening: int) -> int {
    if v.len() == 0 {
        opening
    } else {
        v.last().balance
    }
}

proof fn lemma_flow_failed(
    days: Seq<int>,
    opening: int,
    entity_id: i64,
    accounts: Seq<Account>,
    entries: Seq<JournalEntry>,
    places: nat,
    n: nat,
    m: nat,
)
    requires
        n <= m,
        flow_of(days, opening, entity_id, accounts, entries, places, n) is None,
    ensures
        flow_of(days, opening, entity_id, accounts, entries, places, m) is None,
    decreases m - n,
{
    if n < m {
        lemma_flow_failed(days, opening, entity_id, accounts, entries, places, n, (m - 1) as nat);
    }
}

/// Whether the days show the movements, one for one.
pub open spec fn shows_all(v: Seq<CashflowDay>, ms: Seq<Moved>, places: nat) -> bool {
    v.len() == ms.len() && forall|k: int| 0 <= k < v.len() ==> shows(#[trigger] v[k], ms[k], places)
}

/// The cash flow of an entity in a period, where all numbers can be written.
pub open spec fn cash_flow_of(
    entity_id: i64,
    accounts: Seq<Account>,
    entries: Seq<JournalEntry>,
    from: Date,
    to: Date,
    places: nat,
) -> Option<Seq<Moved>> {
    match cash_total(Slot::Before(from), Flow::Net, entity_id, accounts, entries, entries.len()) {
        None => None,
        Some(opening) => {
            let days = in_time(cash_days(entity_id, from, to, accounts, entries, entries.len()));
            flow_of(days, opening, entity_id, accounts, entries, places, days.len())
        },
    }
}

/// Day by day movement on bank, cash and card accounts, posted and draft, with a projected
/// balance. Every number has to fit a decimal number; where one does not, the request is refused.
pub fn cashflow(entity: &Entity, commodities: &[Commodity], accounts: &[Account], entries: &[JournalEntry], from: Date, to: Date) -> (r: Result<
    Vec<CashflowDay>,
>)
    ensures
        match functional_places(commodities@, *entity) {
            Err(f) => r matches Err(e) && e@ == f,
            Ok(p) => if p > MAX_PRECISION {
                r matches Err(e) && e.invalid(precision_refusal(p as int))
            } else {
                match cash_flow_of(entity.id, accounts@, entries@, from, to, p as nat) {
                    Some(ms) => r matches Ok(v) && shows_all(v@, ms, p as nat),
                    None => r matches Err(e) && e.invalid("cash flow is out of range"@),
                }
            },
        },
{
    let places = match functional_precision(commodities, entity) {
        Ok(p) => p,
        Err(e) => {
            return Err(e);
        },
    };
    if let Err(e) = check_precision(places) {
        return Err(e);
    }
    let mut balance: i128 = match sum_cash(When::Before(from), Flow::Net, entity.id, accounts, entries) {
        Some(n) => n,
        None => {
            return Err(invalid("cash flow is out of range"));
        },
    };
    let ghost opening = balance as int;
    let found = find_days(entity.id, from, to, accounts, entries);
    let days = order_days(&found);
    let ghost ds = day_numbers(days@);
    let mut r: Vec<CashflowDay> = Vec::new();
    let mut i: usize = 0;
    while i < days.len()
        invariant
            i <= days.len(),
            ds == day_numbers(days@),
            ds == in_time(cash_days(entity.id, from, to, accounts@, entries@, entries@.len())),
            cash_total(Slot::Before(from), Flow::Net, entity.id, accounts@, entries@, entries@.len()) == Some(opening),
            functional_places(commodities@, *entity) == Ok::<u32, Refusal>(places),
            places <= MAX_PRECISION,
            flow_of(ds, opening, entity.id, accounts@, entries@, places as nat, i as nat) matches Some(ms) && shows_all(
                r@,
                ms,
                places as nat,
            ) && balance == balance_on(ms, opening),
        decreases days.len() - i,
    {
        assert(ds[i as int] == days@[i as int].number());
        match move_on(days[i], balance, entity.id, accounts, entries, places) {
            Some((c, after)) => {
                r.push(c);
                balance = after;
            },
            None => {
                proof {
                    lemma_flow_failed(ds, opening, entity.id, accounts@, entries@, places as nat, (i + 1) as nat, ds.len());
                }
                return Err(invalid("cash flow is out of range"));
            },
        }
        i = i + 1;
    }
    Ok(r)
}

/// What the first `n` postings put on cash accounts, together.
pub open spec fn net_cash(accounts: Seq<Account>, v: Seq<Posting>, n: nat) -> int
    decreases n,
{
    if n == 0 {
        0
    } else {
        net_cash(accounts, v, (n - 1) as nat) + (if holds_cash(accounts, v[n - 1].account_id) {
            v[n - 1].amount@.minor
        } else {
            0
        })
    }
}

/// What the first `n` entries put on the cash accounts of an entity on a day: its drafts, or what is booked.
pub open spec fn day_cash(entity_id: i64, accounts: Seq<Account>, entries: Seq<JournalEntry>, d: int, drafts: bool, n: nat) -> int
    decreases n,
{
    if n == 0 {
        0
    } else {
        let e = entries[n - 1];
        day_cash(entity_id, accounts, entries, d, drafts, (n - 1) as nat) + (if e.entity_id == entity_id && (e.status == EntryStatus::Draft) == drafts
            && e.date.number() == d {
            net_cash(accounts, e.postings@, e.postings@.len())
        } else {
            0
        })
    }
}

proof fn lemma_with_cash(a: Option<int>, b: Option<int>, accounts: Seq<Account>, v: Seq<Posting>, n: nat)
    requires
        a matches Some(x) ==> x >= 0,
        b matches Some(x) ==> x >= 0,
    ensures
        with_cash(a, Flow::In, accounts, v, n) matches Some(x) ==> x >= 0 && a is Some,
        with_cash(b, Flow::Out, accounts, v, n) matches Some(y) ==> y >= 0 && b is Some,
        (with_cash(a, Flow::In, accounts, v, n) is Some && with_cash(b, Flow::Out, accounts, v, n) is Some) ==> with_cash(a, Flow::In, accounts, v, n)->0
            - with_cash(b, Flow::Out, accounts, v, n)->0 == a->0 - b->0 + net_cash(accounts, v, n),
    decreases n,
{
    if n > 0 {
        lemma_with_cash(a, b, accounts, v, (n - 1) as nat);
    }
}

proof fn lemma_day_cash(entity_id: i64, accounts: Seq<Account>, entries: Seq<JournalEntry>, d: int, drafts: bool, n: nat)
    ensures
        ({
            let w = if drafts {
                Slot::Drafted(d)
            } else {
                Slot::Booked(d)
            };
            let (a, b) = (cash_total(w, Flow::In, entity_id, accounts, entries, n), cash_total(w, Flow::Out, entity_id, accounts, entries, n));
            &&& a matches Some(x) ==> x >= 0
            &&& b matches Some(x) ==> x >= 0
            &&& a is Some && b is Some ==> a->0 - b->0 == day_cash(entity_id, accounts, entries, d, drafts, n)
        }),
    decreases n,
{
    if n > 0 {
        let m = (n - 1) as nat;
        lemma_day_cash(entity_id, accounts, entries, d, drafts, m);
        let w = if drafts {
            Slot::Drafted(d)
        } else {
            Slot::Booked(d)
        };
        let e = entries[n - 1];
        lemma_with_cash(
            cash_total(w, Flow::In, entity_id, accounts, entries, m),
            cash_total(w, Flow::Out, entity_id, accounts, entries, m),
            accounts,
            e.postings@,
            e.postings@.len(),
        );
    }
}

proof fn lemma_flow_runs(days: Seq<int>, opening: int, entity_id: i64, accounts: Seq<Account>, entries: Seq<JournalEntry>, places: nat, n: nat, k: int)
    requires
        0 <= k < n <= days.len(),
    ensures
        flow_of(days, opening, entity_id, accounts, entries, places, n) matches Some(v) ==> {
            &&& v.len() == n
            &&& v[k].day == days[k]
            &&& v[k].posted_in >= 0 && v[k].posted_out >= 0 && v[k].draft_in >= 0 && v[k].draft_out >= 0
            &&& v[k].posted_in - v[k].posted_out == day_cash(entity_id, accounts, entries, days[k], false, entries.len())
            &&& v[k].draft_in - v[k].draft_out == day_cash(entity_id, accounts, entries, days[k], true, entries.len())
            &&& v[k].balance == (if k == 0 {
                opening
            } else {
                v[k - 1].balance
            }) + v[k].posted_in - v[k].posted_out + v[k].draft_in - v[k].draft_out
        },
    decreases n,
{
    if let Some(v) = flow_of(days, opening, entity_id, accounts, entries, places, n) {
        let before = flow_of(days, opening, entity_id, accounts, entries, places, (n - 1) as nat)->0;
        lemma_flow_count(days, opening, entity_id, accounts, entries, places, (n - 1) as nat);
        if k < n - 1 {
            lemma_flow_runs(days, opening, entity_id, accounts, entries, places, (n - 1) as nat, k);
        } else {
            lemma_day_cash(entity_id, accounts, entries, days[k], false, entries.len());
            lemma_day_cash(entity_id, accounts, entries, days[k], true, entries.len());
        }
    }
}

proof fn lemma_flow_count(days: Seq<int>, opening: int, entity_id: i64, accounts: Seq<Account>, entries: Seq<JournalEntry>, places: nat, n: nat)
    ensures
        flow_of(days, opening, entity_id, accounts, entries, places, n) matches Some(v) ==> v.len() == n,
    decreases n,
{
    if n > 0 {
        lemma_flow_count(days, opening, entity_id, accounts, entries, places, (n - 1) as nat);
    }
}

/// A cash flow runs from the balance before its period: each day goes on from the day before it by what comes
/// in less what goes out, booked and drafted, and that is what the day's entries put on cash accounts.
pub proof fn law_cashflow_runs(entity_id: i64, accounts: Seq<Account>, entries: Seq<JournalEntry>, from: Date, to: Date, places: nat, k: int)
    requires
        cash_flow_of(entity_id, accounts, entries, from, to, places) matches Some(v) && 0 <= k < v.len(),
    ensures
        ({
            let v = cash_flow_of(entity_id, accounts, entries, from, to, places)->0;
            let opening = cash_total(Slot::Before(from), Flow::Net, entity_id, accounts, entries, entries.len())->0;
            &&& v[k].posted_in >= 0 && v[k].posted_out >= 0 && v[k].draft_in >= 0 && v[k].draft_out >= 0
            &&& v[k].posted_in - v[k].posted_out == day_cash(entity_id, accounts, entries, v[k].day, false, entries.len())
            &&& v[k].draft_in - v[k].draft_out == day_cash(entity_id, accounts, entries, v[k].day, true, entries.len())
            &&& v[k].balance == (if k == 0 {
                opening
            } else {
                v[k - 1].balance
            }) + v[k].posted_in - v[k].posted_out + v[k].draft_in - v[k].draft_out
        }),
{
    let opening = cash_total(Slot::Before(from), Flow::Net, entity_id, accounts, entries, entries.len())->0;
    let days = in_time(cash_days(entity_id, from, to, accounts, entries, entries.len()));
    lemma_flow_count(days, opening, entity_id, accounts, entries, places, days.len());
    lemma_flow_runs(days, opening, entity_id, accounts, entries, places, days.len(), k);
}

/// What the first `n` postings put on accounts of expenses of an entity, of a class where one is given.
pub open spec fn expenses_in(entity_id: i64, class: Option<Seq<char>>, accounts: Seq<Account>, v: Seq<Posting>, n: nat) -> int
    decreases n,
{
    if n == 0 {
        0
    } else {
        expenses_in(entity_id, class, accounts, v, (n - 1) as nat) + (match place_of(accounts, v[n - 1].account_id) {
            Some(i) => if accounts[i].entity_id == entity_id && accounts[i].account_type == AccountType::Expense && (class is None || accounts[i].class@
                == class->0) {
                v[n - 1].amount@.minor
            } else {
                0
            },
            None => 0,
        })
    }
}

/// What the first `n` entries spend in a period, with a tag where one is given.
pub open spec fn spent(s: Spending, class: Option<Seq<char>>, accounts: Seq<Account>, entries: Seq<JournalEntry>, n: nat) -> int
    decreases n,
{
    if n == 0 {
        0
    } else {
        let e = entries[n - 1];
        spent(s, class, accounts, entries, (n - 1) as nat) + (if e.entity_id == s.entity_id && e.status != EntryStatus::Draft && (s.from is None
            || !e.date.before(s.from->0)) && (s.to is None || !(s.to->0).before(e.date)) && (s.tag is None || texts(e.tags@).contains(s.tag->0)) {
            expenses_in(s.entity_id, class, accounts, e.postings@, e.postings@.len())
        } else {
            0
        })
    }
}

spec fn class_group(class: Option<Seq<char>>) -> Group {
    match class {
        Some(c) => Group::Class(c),
        None => Group::All,
    }
}

proof fn lemma_expenses(total: Option<int>, s: Spending, class: Option<Seq<char>>, accounts: Seq<Account>, v: Seq<Posting>, n: nat)
    ensures
        with_expenses(total, s, class_group(class), accounts, v, n) matches Some(t) ==> total is Some && t == total->0 + expenses_in(
            s.entity_id,
            class,
            accounts,
            v,
            n,
        ),
    decreases n,
{
    if n > 0 {
        lemma_expenses(total, s, class, accounts, v, (n - 1) as nat);
    }
}

proof fn lemma_spent(s: Spending, class: Option<Seq<char>>, accounts: Seq<Account>, entries: Seq<JournalEntry>, n: nat)
    ensures
        expense_total(s, class_group(class), accounts, entries, n) matches Some(t) ==> t == spent(s, class, accounts, entries, n),
    decreases n,
{
    if n > 0 {
        lemma_spent(s, class, accounts, entries, (n - 1) as nat);
        let e = entries[n - 1];
        lemma_expenses(
            expense_total(s, class_group(class), accounts, entries, (n - 1) as nat),
            s,
            class,
            accounts,
            e.postings@,
            e.postings@.len(),
        );
    }
}

/// What is spent in the first `m` of some classes, together.
pub open spec fn spent_over(s: Spending, classes: Seq<Seq<char>>, accounts: Seq<Account>, entries: Seq<JournalEntry>, n: nat, m: nat) -> int
    decreases m,
{
    if m == 0 {
        0
    } else {
        spent_over(s, classes, accounts, entries, n, (m - 1) as nat) + spent(s, Some(classes[m - 1]), accounts, entries, n)
    }
}

spec fn expenses_over(entity_id: i64, classes: Seq<Seq<char>>, accounts: Seq<Account>, v: Seq<Posting>, n: nat, m: nat) -> int
    decreases m,
{
    if m == 0 {
        0
    } else {
        expenses_over(entity_id, classes, accounts, v, n, (m - 1) as nat) + expenses_in(entity_id, Some(classes[m - 1]), accounts, v, n)
    }
}

/// A posting counts in one class: that of its account.
proof fn lemma_one_class(entity_id: i64, classes: Seq<Seq<char>>, accounts: Seq<Account>, v: Seq<Posting>, n: nat, m: nat)
    requires
        0 < n <= v.len(),
        m <= classes.len(),
        classes.no_duplicates(),
    ensures
        expenses_over(entity_id, classes, accounts, v, n, m) == expenses_over(entity_id, classes, accounts, v, (n - 1) as nat, m) + (match place_of(
            accounts,
            v[n - 1].account_id,
        ) {
            Some(i) => if accounts[i].entity_id == entity_id && accounts[i].account_type == AccountType::Expense && classes.take(m as int).contains(
                accounts[i].class@,
            ) {
                v[n - 1].amount@.minor
            } else {
                0
            },
            None => 0,
        }),
    decreases m,
{
    if m > 0 {
        lemma_one_class(entity_id, classes, accounts, v, n, (m - 1) as nat);
        let (head, all) = (classes.take(m - 1), classes.take(m as int));
        if let Some(i) = place_of(accounts, v[n - 1].account_id) {
            let c = accounts[i].class@;
            if head.contains(c) {
                let k = choose|k: int| 0 <= k < head.len() && head[k] == c;
                assert(all[k] == c && classes[k] == c);
                assert(classes[m - 1] != c);
            } else if all.contains(c) {
                let k = choose|k: int| 0 <= k < all.len() && all[k] == c;
                assert(k == m - 1 || head[k] == c);
            }
            if classes[m - 1] == c {
                assert(all[m - 1] == c);
            }
        }
    }
}

proof fn lemma_classes_cover(entity_id: i64, classes: Seq<Seq<char>>, accounts: Seq<Account>, v: Seq<Posting>, n: nat)
    requires
        n <= v.len(),
        classes.no_duplicates(),
        forall|i: int| 0 <= i < accounts.len() ==> classes.contains((#[trigger] accounts[i]).class@),
    ensures
        expenses_over(entity_id, classes, accounts, v, n, classes.len()) == expenses_in(entity_id, None, accounts, v, n),
    decreases n,
{
    if n == 0 {
        lemma_no_expenses(entity_id, classes, accounts, v, classes.len());
    } else {
        lemma_classes_cover(entity_id, classes, accounts, v, (n - 1) as nat);
        lemma_one_class(entity_id, classes, accounts, v, n, classes.len());
        assert(classes.take(classes.len() as int) =~= classes);
        lemma_place(accounts, v[n - 1].account_id);
    }
}

proof fn lemma_no_expenses(entity_id: i64, classes: Seq<Seq<char>>, accounts: Seq<Account>, v: Seq<Posting>, m: nat)
    ensures
        expenses_over(entity_id, classes, accounts, v, 0, m) == 0,
    decreases m,
{
    if m > 0 {
        lemma_no_expenses(entity_id, classes, accounts, v, (m - 1) as nat);
    }
}

proof fn lemma_spent_step(s: Spending, classes: Seq<Seq<char>>, accounts: Seq<Account>, entries: Seq<JournalEntry>, n: nat, m: nat)
    requires
        0 < n <= entries.len(),
    ensures
        spent_over(s, classes, accounts, entries, n, m) == spent_over(s, classes, accounts, entries, (n - 1) as nat, m) + ({
            let e = entries[n - 1];
            if e.entity_id == s.entity_id && e.status != EntryStatus::Draft && (s.from is None || !e.date.before(s.from->0)) && (s.to is None || !(
            s.to->0).before(e.date)) && (s.tag is None || texts(e.tags@).contains(s.tag->0)) {
                expenses_over(s.entity_id, classes, accounts, e.postings@, e.postings@.len(), m)
            } else {
                0
            }
        }),
    decreases m,
{
    if m > 0 {
        lemma_spent_step(s, classes, accounts, entries, n, (m - 1) as nat);
    }
}

proof fn lemma_none_spent(s: Spending, classes: Seq<Seq<char>>, accounts: Seq<Account>, entries: Seq<JournalEntry>, m: nat)
    ensures
        spent_over(s, classes, accounts, entries, 0, m) == 0,
    decreases m,
{
    if m > 0 {
        lemma_none_spent(s, classes, accounts, entries, (m - 1) as nat);
    }
}

/// Every expense falls in one class, so the classes together make up all that is spent.
pub proof fn law_classes_partition(s: Spending, classes: Seq<Seq<char>>, accounts: Seq<Account>, entries: Seq<JournalEntry>, n: nat)
    requires
        n <= entries.len(),
        classes.no_duplicates(),
        forall|i: int| 0 <= i < accounts.len() ==> classes.contains((#[trigger] accounts[i]).class@),
    ensures
        spent_over(s, classes, accounts, entries, n, classes.len()) == spent(s, None, accounts, entries, n),
    decreases n,
{
    if n == 0 {
        lemma_none_spent(s, classes, accounts, entries, classes.len());
    } else {
        law_classes_partition(s, classes, accounts, entries, (n - 1) as nat);
        lemma_spent_step(s, classes, accounts, entries, n, classes.len());
        let e = entries[n - 1];
        lemma_classes_cover(s.entity_id, classes, accounts, e.postings@, e.postings@.len());
    }
}

proof fn lemma_class_total(s: Spending, accounts: Seq<Account>, entries: Seq<JournalEntry>, classes: Seq<Seq<char>>, zero: Amount, n: nat)
    requires
        n <= classes.len(),
    ensures
        class_sums(s, accounts, entries, classes, zero, n) matches Ok((rows, total)) ==> total.minor == zero.minor + spent_over(
            s,
            classes,
            accounts,
            entries,
            entries.len(),
            n,
        ) && forall|k: int|
            0 <= k < rows.len() ==> (#[trigger] rows[k]).amount.minor != 0 && rows[k].amount.minor == spent(
                s,
                Some(rows[k].label),
                accounts,
                entries,
                entries.len(),
            ),
    decreases n,
{
    if n > 0 {
        lemma_class_total(s, accounts, entries, classes, zero, (n - 1) as nat);
        lemma_spent(s, Some(classes[n - 1]), accounts, entries, entries.len());
    }
}

proof fn lemma_classes_listed(accounts: Seq<Account>)
    ensures
        classes_of(accounts).no_duplicates(),
        forall|i: int| 0 <= i < accounts.len() ==> classes_of(accounts).contains((#[trigger] accounts[i]).class@),
{
    let d = distinct(class_texts(accounts));
    lemma_distinct(class_texts(accounts));
    lemma_sorted_texts(d);
    d.lemma_multiset_has_no_duplicates();
    sorted_texts(d).lemma_multiset_has_no_duplicates_conv();
    broadcast use vstd::seq_lib::group_to_multiset_ensures;

    assert forall|i: int| 0 <= i < accounts.len() implies classes_of(accounts).contains((#[trigger] accounts[i]).class@) by {
        assert(class_texts(accounts)[i] == accounts[i].class@);
        assert(d.contains(accounts[i].class@));
        assert(d.to_multiset().count(accounts[i].class@) > 0);
        assert(sorted_texts(d).to_multiset().count(accounts[i].class@) > 0);
    }
}

/// The report of expenses by class shows every class with what is spent in it, and its total is all that is
/// spent.
pub proof fn law_class_report_adds_up(
    entities: Seq<Entity>,
    commodities: Seq<Commodity>,
    accounts: Seq<Account>,
    entries: Seq<JournalEntry>,
    entity_id: i64,
    from: Option<Date>,
    to: Option<Date>,
    tags: Option<Seq<(String, String)>>,
)
    ensures
        classes_report(entities, commodities, accounts, entries, entity_id, from, to, tags) matches Ok((rows, total, tag)) ==> {
            let s = Spending { entity_id, from, to, tag };
            &&& total.minor == spent(s, None, accounts, entries, entries.len())
            &&& forall|k: int|
                0 <= k < rows.len() ==> (#[trigger] rows[k]).amount.minor == spent(s, Some(rows[k].label), accounts, entries, entries.len())
        },
{
    if let Ok((rows, total, tag)) = classes_report(entities, commodities, accounts, entries, entity_id, from, to, tags) {
        let s = Spending { entity_id, from, to, tag };
        let c = classes_of(accounts);
        let zero = (report_base(entities, commodities, entity_id, from, to, tags)->Ok_0).0;
        lemma_class_total(s, accounts, entries, c, zero, c.len());
        lemma_classes_listed(accounts);
        law_classes_partition(s, c, accounts, entries, entries.len());
        let found = (class_sums(s, accounts, entries, c, zero, c.len())->Ok_0).0;
        law_sorted(class_ranks(found));
        assert forall|k: int| 0 <= k < rows.len() implies (#[trigger] rows[k]).amount.minor == spent(
            s,
            Some(rows[k].label),
            accounts,
            entries,
            entries.len(),
        ) by {
            assert(rows[k] == found[sorted_places(class_ranks(found))[k]]);
        }
    }
}

/// The expenses of a tag are those of the entries that carry it: the same as all expenses in a report on the tag
/// alone.
pub proof fn law_tag_group(s: Spending, tag: Seq<char>, accounts: Seq<Account>, entries: Seq<JournalEntry>, n: nat)
    requires
        s.tag is None,
        n <= entries.len(),
    ensures
        expense_total(s, Group::Tag(tag), accounts, entries, n) == expense_total(
            Spending { tag: Some(tag), ..s },
            Group::All,
            accounts,
            entries,
            n,
        ),
        expense_total(s, Group::Tag(tag), accounts, entries, n) matches Some(t) ==> t == spent(
            Spending { tag: Some(tag), ..s },
            None,
            accounts,
            entries,
            n,
        ),
    decreases n,
{
    let one = Spending { tag: Some(tag), ..s };
    lemma_spent(one, None, accounts, entries, n);
    if n > 0 {
        law_tag_group(s, tag, accounts, entries, (n - 1) as nat);
        let e = entries[n - 1];
        lemma_same_expenses(
            expense_total(s, Group::Tag(tag), accounts, entries, (n - 1) as nat),
            s,
            tag,
            accounts,
            e.postings@,
            e.postings@.len(),
        );
    }
}

proof fn lemma_same_expenses(total: Option<int>, s: Spending, tag: Seq<char>, accounts: Seq<Account>, v: Seq<Posting>, n: nat)
    ensures
        with_expenses(total, s, Group::Tag(tag), accounts, v, n) == with_expenses(
            total,
            Spending { tag: Some(tag), ..s },
            Group::All,
            accounts,
            v,
            n,
        ),
    decreases n,
{
    if n > 0 {
        lemma_same_expenses(total, s, tag, accounts, v, (n - 1) as nat);
    }
}

} // verus!
