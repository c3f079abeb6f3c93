//! Canonical display names are audited metadata; booked text and source evidence stay intact.

use vstd::prelude::*;

use crate::date::Date;
use crate::error::{conflict, invalid, not_found, Refusal, Result};
use crate::model::{Account, Commodity, Entity, JournalEntry, Rule, StatementLine};
use crate::money::{with_minor, Amount, Money};
use crate::order::{as_ints, ranks, sort_texts, sorted, sorted_places, sorted_texts, Key, Rank};
use crate::budgets::tags_of;
use crate::rules::{first_applying, first_match_with_payee};
use crate::spending::{classes_report, expense_total, expenses_by_class, is_spending_account, is_spending_entry, same_id, spending_account, spending_entry, sum_expenses, Filter, Group, Part, Spending};
use crate::text::{all_white, blank, cat, cat3, contains, debug_text, distinct, glue, glued, holds, int_string, int_text, is_blank, join, joined, law_single_spaced, law_single_spaced_tidy, law_words_spacing, lemma_lowered_again, lemma_lowered_tidy, lemma_spaced_ascii, lemma_spaced_lowered, lowercase_of, nat_string, nat_text, own, push_distinct, quoted, same, single_space, single_spaced, str_texts, texts, tidy, to_lowercase, trim, trimmed};

verus! {

#[derive(Debug)]
pub struct Payee {
    pub id: i64,
    pub uid: String,
    pub entity_id: i64,
    pub name: String,
    pub active: bool,
    pub aliases: Vec<String>,
}

#[derive(Debug)]
pub struct Change {
    pub id: i64,
    pub entity_id: i64,
    pub name: String,
    pub active: bool,
    pub aliases: Vec<String>,
}

#[derive(Debug)]
pub struct Impact {
    pub entry_id: i64,
    pub line_id: i64,
    pub booked: String,
    pub evidence: String,
    pub candidates: Vec<i64>,
    pub before_rule: Option<i64>,
    pub after_rule: Option<i64>,
}

#[derive(Debug)]
pub struct Preview {
    pub token: String,
    pub applied: bool,
    pub payee: Option<Payee>,
    pub impacts: Vec<Impact>,
    pub warnings: Vec<String>,
    pub backup: Option<String>,
}

/// A text as it is compared: its words with one space between them, in lower case.
pub open spec fn normal_text(s: Seq<char>) -> Seq<char> {
    lowercase_of(single_spaced(s))
}

pub fn normalize(s: &str) -> (r: String)
    ensures
        r@ == normal_text(s@),
{
    to_lowercase(single_space(s).as_str())
}

/// Whether a payee may be meant by a text: it is active and the text holds one of its aliases.
pub open spec fn may_mean(p: Payee, text: Seq<char>) -> bool {
    p.active && exists|i: int| 0 <= i < p.aliases@.len() && holds(normal_text(text), normal_text((#[trigger] p.aliases@[i])@))
}

/// The places among the first `n` payees of those that a text may mean.
pub open spec fn meant(payees: Seq<Payee>, text: Seq<char>, n: nat) -> Seq<int>
    decreases n,
{
    if n == 0 {
        Seq::empty()
    } else if may_mean(payees[n - 1], text) {
        meant(payees, text, (n - 1) as nat).push(n - 1)
    } else {
        meant(payees, text, (n - 1) as nat)
    }
}

fn is_meant(p: &Payee, normal: &str, Ghost(text): Ghost<Seq<char>>) -> (r: bool)
    requires
        normal@ == normal_text(text),
    ensures
        r == may_mean(*p, text),
{
    if !p.active {
        return false;
    }
    let mut i: usize = 0;
    while i < p.aliases.len()
        invariant
            i <= p.aliases.len(),
            p.active,
            normal@ == normal_text(text),
            forall|k: int| 0 <= k < i ==> !holds(normal_text(text), normal_text((#[trigger] p.aliases@[k])@)),
        decreases p.aliases.len() - i,
    {
        if contains(normal, normalize(p.aliases[i].as_str()).as_str()) {
            return true;
        }
        i = i + 1;
    }
    false
}

/// The places of the payees that a text may mean.
pub fn candidate_places(payees: &[Payee], text: &str) -> (r: Vec<usize>)
    ensures
        as_ints(r@) == meant(payees@, text@, payees@.len()),
        forall|k: int| 0 <= k < r@.len() ==> (#[trigger] r@[k]) < payees@.len(),
{
    let normal = normalize(text);
    let mut r: Vec<usize> = Vec::new();
    let mut i: usize = 0;
    assert(as_ints(r@) =~= Seq::<int>::empty());
    while i < payees.len()
        invariant
            i <= payees.len(),
            normal@ == normal_text(text@),
            as_ints(r@) == meant(payees@, text@, i as nat),
            forall|k: int| 0 <= k < r@.len() ==> (#[trigger] r@[k]) < payees@.len(),
        decreases payees.len() - i,
    {
        if is_meant(&payees[i], normal.as_str(), Ghost(text@)) {
            let ghost before = as_ints(r@);
            r.push(i);
            assert(as_ints(r@) =~= before.push(i as int));
        }
        i = i + 1;
    }
    r
}

pub fn candidates<'a>(payees: &'a [Payee], text: &str) -> (r: Vec<&'a Payee>)
    ensures
        r@.len() == meant(payees@, text@, payees@.len()).len(),
        forall|k: int| 0 <= k < r@.len() ==> *(#[trigger] r@[k]) == payees@[meant(payees@, text@, payees@.len())[k]],
{
    let places = candidate_places(payees, text);
    let ghost want = meant(payees@, text@, payees@.len());
    let mut r: Vec<&'a Payee> = Vec::new();
    let mut i: usize = 0;
    while i < places.len()
        invariant
            i <= places.len(),
            as_ints(places@) == want,
            forall|k: int| 0 <= k < places@.len() ==> (#[trigger] places@[k]) < payees@.len(),
            r@.len() == i,
            forall|k: int| 0 <= k < i ==> *(#[trigger] r@[k]) == payees@[want[k]],
        decreases places.len() - i,
    {
        assert(want[i as int] == places@[i as int] as int);
        r.push(&payees[places[i]]);
        i = i + 1;
    }
    r
}

/// The one payee that a text means; several that it may mean leave it unresolved.
pub open spec fn resolved(payees: Seq<Payee>, text: Seq<char>) -> Option<int> {
    let m = meant(payees, text, payees.len());
    if m.len() == 1 {
        Some(m[0])
    } else {
        None
    }
}

pub fn resolve(payees: &[Payee], text: &str) -> (r: Option<usize>)
    ensures
        match r {
            Some(i) => i < payees@.len() && resolved(payees@, text@) == Some(i as int),
            None => resolved(payees@, text@) is None,
        },
{
    let places = candidate_places(payees, text);
    if places.len() == 1 {
        assert(as_ints(places@)[0] == places@[0] as int);
        Some(places[0])
    } else {
        None
    }
}

pub open spec fn is_named(p: Payee, text: Seq<char>) -> bool {
    p.active && normal_text(p.name@) == normal_text(text)
}

pub open spec fn named(payees: Seq<Payee>, text: Seq<char>, n: nat) -> Seq<int>
    decreases n,
{
    if n == 0 {
        Seq::empty()
    } else if is_named(payees[n - 1], text) {
        named(payees, text, (n - 1) as nat).push(n - 1)
    } else {
        named(payees, text, (n - 1) as nat)
    }
}

/// The one active payee with a name.
pub open spec fn chosen(payees: Seq<Payee>, text: Seq<char>) -> Option<int> {
    let m = named(payees, text, payees.len());
    if !blank(text) && m.len() == 1 {
        Some(m[0])
    } else {
        None
    }
}

/// Explicit text choices resolve only an exact canonical name, never a competing inferred alias.
pub fn explicit(payees: &[Payee], text: &str) -> (r: Option<usize>)
    ensures
        match r {
            Some(i) => i < payees@.len() && chosen(payees@, text@) == Some(i as int),
            None => chosen(payees@, text@) is None,
        },
{
    if is_blank(text) {
        return None;
    }
    let normal = normalize(text);
    let mut found: Vec<usize> = Vec::new();
    let mut i: usize = 0;
    assert(as_ints(found@) =~= Seq::<int>::empty());
    while i < payees.len()
        invariant
            i <= payees.len(),
            normal@ == normal_text(text@),
            as_ints(found@) == named(payees@, text@, i as nat),
            forall|k: int| 0 <= k < found@.len() ==> (#[trigger] found@[k]) < payees@.len(),
        decreases payees.len() - i,
    {
        if payees[i].active && same(normalize(payees[i].name.as_str()).as_str(), normal.as_str()) {
            let ghost before = as_ints(found@);
            found.push(i);
            assert(as_ints(found@) =~= before.push(i as int));
        }
        i = i + 1;
    }
    if found.len() == 1 {
        assert(as_ints(found@)[0] == found@[0] as int);
        Some(found[0])
    } else {
        None
    }
}

/// Whether a plan is confirmed: it is applied only with the token of this very plan.
pub fn confirm(expected: &str, provided: Option<&str>) -> (r: Result<bool>)
    ensures
        match provided {
            None => r == Ok::<bool, crate::error::Error>(false),
            Some(s) => if s@ == expected@ {
                r == Ok::<bool, crate::error::Error>(true)
            } else {
                r matches Err(e) && e.conflict("payee preview is stale; preview again and confirm its new token"@)
            },
        },
{
    match provided {
        None => Ok(false),
        Some(s) => if same(s, expected) {
            Ok(true)
        } else {
            Err(conflict("payee preview is stale; preview again and confirm its new token"))
        },
    }
}

/// The name that rules see for a line: that of the one payee it means, or its own text.
pub open spec fn seen_name(payees: Seq<Payee>, sl: StatementLine) -> Seq<char> {
    match resolved(payees, sl.description@) {
        Some(i) => payees[i].name@,
        None => sl.description@,
    }
}

pub fn name_seen(payees: &[Payee], sl: &StatementLine) -> (r: String)
    ensures
        r@ == seen_name(payees@, *sl),
{
    match resolve(payees, sl.description.as_str()) {
        Some(i) => own(payees[i].name.as_str()),
        None => own(sl.description.as_str()),
    }
}

/// The rule that applies to a line as payees stand.
pub open spec fn rule_for(rules: Seq<Rule>, payees: Seq<Payee>, sl: StatementLine) -> Option<i64> {
    match first_applying(rules, sl, seen_name(payees, sl), 0) {
        Some(i) => Some(rules[i].id),
        None => None,
    }
}

fn find_rule(rules: &[Rule], sl: &StatementLine, name: &str) -> (r: Option<i64>)
    ensures
        r == (match first_applying(rules@, *sl, name@, 0) {
            Some(i) => Some(rules@[i].id),
            None => None,
        }),
{
    match first_match_with_payee(rules, sl, name) {
        Some(x) => Some(x.id),
        None => None,
    }
}

/// The booked payee of an entry, where there is one.
pub open spec fn booked_payee(entries: Seq<JournalEntry>, id: Option<i64>, from: int) -> Seq<char>
    decreases entries.len() - from,
{
    if id is None || from < 0 || from >= entries.len() {
        Seq::empty()
    } else if entries[from].id == id->0 {
        entries[from].payee@
    } else {
        booked_payee(entries, id, from + 1)
    }
}

fn find_booked(entries: &[JournalEntry], id: Option<i64>) -> (r: String)
    ensures
        r@ == booked_payee(entries@, id, 0),
{
    let mut i: usize = 0;
    while i < entries.len()
        invariant
            i <= entries.len(),
            booked_payee(entries@, id, 0) == booked_payee(entries@, id, i as int),
        decreases entries.len() - i,
    {
        match id {
            None => {
                return String::new();
            },
            Some(x) => {
                if entries[i].id == x {
                    return own(entries[i].payee.as_str());
                }
            },
        }
        i = i + 1;
    }
    String::new()
}

/// What an impact says.
pub struct Effect {
    pub entry_id: i64,
    pub line_id: i64,
    pub booked: Seq<char>,
    pub evidence: Seq<char>,
    pub candidates: Seq<i64>,
    pub before_rule: Option<i64>,
    pub after_rule: Option<i64>,
}

impl View for Impact {
    type V = Effect;

    open spec fn view(&self) -> Effect {
        Effect {
            entry_id: self.entry_id,
            line_id: self.line_id,
            booked: self.booked@,
            evidence: self.evidence@,
            candidates: self.candidates@,
            before_rule: self.before_rule,
            after_rule: self.after_rule,
        }
    }
}

pub open spec fn effects(v: Seq<Impact>) -> Seq<Effect> {
    v.map_values(|x: Impact| x@)
}

pub open spec fn ids_at(payees: Seq<Payee>, places: Seq<int>) -> Seq<i64> {
    places.map_values(|i: int| payees[i].id)
}

/// What a change of payees does to a line: another name or rule, or several payees that it may
/// mean.
pub open spec fn effect_on(
    rules: Seq<Rule>,
    entries: Seq<JournalEntry>,
    before: Seq<Payee>,
    after: Seq<Payee>,
    sl: StatementLine,
) -> Option<Effect> {
    let m = meant(after, sl.description@, after.len());
    if seen_name(before, sl) != seen_name(after, sl) || rule_for(rules, before, sl) != rule_for(rules, after, sl) || m.len() > 1 {
        Some(
            Effect {
                entry_id: match sl.journal_entry_id {
                    Some(id) => id,
                    None => 0,
                },
                line_id: sl.id,
                booked: booked_payee(entries, sl.journal_entry_id, 0),
                evidence: sl.description@,
                candidates: ids_at(after, m),
                before_rule: rule_for(rules, before, sl),
                after_rule: rule_for(rules, after, sl),
            },
        )
    } else {
        None
    }
}

/// What a change of payees does to the first `n` lines.
pub open spec fn effects_on(
    rules: Seq<Rule>,
    entries: Seq<JournalEntry>,
    before: Seq<Payee>,
    after: Seq<Payee>,
    lines: Seq<StatementLine>,
    n: nat,
) -> Seq<Effect>
    decreases n,
{
    if n == 0 {
        Seq::empty()
    } else {
        let rest = effects_on(rules, entries, before, after, lines, (n - 1) as nat);
        match effect_on(rules, entries, before, after, lines[n - 1]) {
            Some(e) => rest.push(e),
            None => rest,
        }
    }
}

fn ids_of(payees: &[Payee], places: &Vec<usize>) -> (r: Vec<i64>)
    requires
        forall|k: int| 0 <= k < places@.len() ==> (#[trigger] places@[k]) < payees@.len(),
    ensures
        r@ == ids_at(payees@, as_ints(places@)),
{
    let mut r: Vec<i64> = Vec::new();
    let mut i: usize = 0;
    while i < places.len()
        invariant
            i <= places.len(),
            forall|k: int| 0 <= k < places@.len() ==> (#[trigger] places@[k]) < payees@.len(),
            r@.len() == i,
            forall|k: int| 0 <= k < i ==> #[trigger] r@[k] == payees@[places@[k] as int].id,
        decreases places.len() - i,
    {
        r.push(payees[places[i]].id);
        i = i + 1;
    }
    assert(r@ =~= ids_at(payees@, as_ints(places@)));
    r
}

fn impact_on(rules: &[Rule], entries: &[JournalEntry], before: &[Payee], after: &[Payee], sl: &StatementLine) -> (r: Option<Impact>)
    ensures
        match r {
            Some(x) => effect_on(rules@, entries@, before@, after@, *sl) == Some(x@),
            None => effect_on(rules@, entries@, before@, after@, *sl) is None,
        },
{
    let (was, now) = (name_seen(before, sl), name_seen(after, sl));
    let (old_rule, new_rule) = (find_rule(rules, sl, was.as_str()), find_rule(rules, sl, now.as_str()));
    let places = candidate_places(after, sl.description.as_str());
    let same_rule = match (old_rule, new_rule) {
        (None, None) => true,
        (Some(a), Some(b)) => a == b,
        _ => false,
    };
    assert(as_ints(places@).len() == places@.len());
    if !same(was.as_str(), now.as_str()) || !same_rule || places.len() > 1 {
        Some(
            Impact {
                entry_id: match sl.journal_entry_id {
                    Some(id) => id,
                    None => 0,
                },
                line_id: sl.id,
                booked: find_booked(entries, sl.journal_entry_id),
                evidence: own(sl.description.as_str()),
                candidates: ids_of(after, &places),
                before_rule: old_rule,
                after_rule: new_rule,
            },
        )
    } else {
        None
    }
}

/// What a change of payees does to the lines of an entity.
pub fn impact(rules: &[Rule], entries: &[JournalEntry], before: &[Payee], after: &[Payee], lines: &[StatementLine]) -> (r: Vec<Impact>)
    ensures
        effects(r@) == effects_on(rules@, entries@, before@, after@, lines@, lines@.len()),
{
    let mut r: Vec<Impact> = Vec::new();
    let mut i: usize = 0;
    assert(effects(r@) =~= Seq::<Effect>::empty());
    while i < lines.len()
        invariant
            i <= lines.len(),
            effects(r@) == effects_on(rules@, entries@, before@, after@, lines@, i as nat),
        decreases lines.len() - i,
    {
        if let Some(x) = impact_on(rules, entries, before, after, &lines[i]) {
            let ghost so_far = effects(r@);
            r.push(x);
            assert(effects(r@) =~= so_far.push(x@));
        }
        i = i + 1;
    }
    r
}

/// The last place among the first `n` where a key stands.
pub open spec fn last_place(keys: Seq<Seq<char>>, key: Seq<char>, n: nat) -> int
    decreases n,
{
    if n == 0 {
        0
    } else if keys[n - 1] == key {
        n - 1
    } else {
        last_place(keys, key, (n - 1) as nat)
    }
}

/// One value for each key, in the order of the keys: of several values of one key, the last.
pub open spec fn by_key(keys: Seq<Seq<char>>, values: Seq<Seq<char>>) -> Seq<Seq<char>> {
    sorted_texts(distinct(keys)).map_values(|k: Seq<char>| values[last_place(keys, k, keys.len())])
}

fn find_last(keys: &Vec<String>, key: &str) -> (r: usize)
    ensures
        r == last_place(texts(keys@), key@, keys@.len()),
        keys@.len() > 0 ==> r < keys@.len(),
{
    let ghost ks = texts(keys@);
    let mut n: usize = keys.len();
    while n > 0
        invariant
            n <= keys.len(),
            ks == texts(keys@),
            last_place(ks, key@, keys@.len()) == last_place(ks, key@, n as nat),
        decreases n,
    {
        if same(keys[n - 1].as_str(), key) {
            return n - 1;
        }
        n = n - 1;
    }
    0
}

fn distinct_keys(keys: &Vec<String>) -> (r: Vec<String>)
    ensures
        texts(r@) == distinct(texts(keys@)),
        keys@.len() == 0 ==> r@.len() == 0,
{
    let ghost ks = texts(keys@);
    let mut r: Vec<String> = Vec::new();
    let mut i: usize = 0;
    assert(texts(r@) =~= distinct(ks.take(0)));
    while i < keys.len()
        invariant
            i <= keys.len(),
            ks == texts(keys@),
            texts(r@) == distinct(ks.take(i as int)),
            i == 0 ==> r@.len() == 0,
        decreases keys.len() - i,
    {
        assert(ks.take(i + 1).drop_last() =~= ks.take(i as int));
        push_distinct(&mut r, keys[i].as_str());
        i = i + 1;
    }
    assert(ks.take(i as int) =~= ks);
    r
}

fn merge_by_key(keys: &Vec<String>, values: &Vec<String>) -> (r: Vec<String>)
    requires
        keys@.len() == values@.len(),
    ensures
        texts(r@) == by_key(texts(keys@), texts(values@)),
{
    let ghost (ks, vs) = (texts(keys@), texts(values@));
    let found = distinct_keys(keys);
    let names = sort_texts(&found);
    proof {
        crate::order::lemma_sorted_texts(texts(found@));
    }
    assert(texts(names@).len() == texts(found@).len());
    let mut r: Vec<String> = Vec::new();
    let mut i: usize = 0;
    while i < names.len()
        invariant
            i <= names.len(),
            keys@.len() == values@.len(),
            ks == texts(keys@),
            vs == texts(values@),
            texts(names@) == sorted_texts(distinct(ks)),
            keys@.len() == 0 ==> names@.len() == 0,
            texts(r@) == by_key(ks, vs).take(i as int),
        decreases names.len() - i,
    {
        let at = find_last(keys, names[i].as_str());
        let ghost before = texts(r@);
        let v = own(values[at].as_str());
        r.push(v);
        proof {
            assert(texts(names@)[i as int] == names@[i as int]@);
            assert(vs[at as int] == values@[at as int]@);
            assert(texts(r@) =~= before.push(v@));
            assert(by_key(ks, vs).take(i + 1) =~= by_key(ks, vs).take(i as int).push(v@));
        }
        i = i + 1;
    }
    assert(texts(r@) =~= by_key(ks, vs));
    r
}

pub open spec fn normals(v: Seq<Seq<char>>) -> Seq<Seq<char>> {
    v.map_values(|t: Seq<char>| normal_text(t))
}

pub open spec fn trims(v: Seq<Seq<char>>) -> Seq<Seq<char>> {
    v.map_values(|t: Seq<char>| trimmed(t))
}

/// The aliases of a changed payee: one for each that is compared alike.
pub open spec fn saved_aliases(v: Seq<Seq<char>>) -> Seq<Seq<char>> {
    by_key(normals(v), trims(v))
}

fn normal_all(v: &Vec<String>) -> (r: Vec<String>)
    ensures
        texts(r@) == normals(texts(v@)),
        r@.len() == v@.len(),
{
    let ghost all = texts(v@);
    let mut r: Vec<String> = Vec::new();
    let mut i: usize = 0;
    while i < v.len()
        invariant
            i <= v.len(),
            all == texts(v@),
            r@.len() == i,
            forall|k: int| 0 <= k < i ==> (#[trigger] r@[k])@ == normal_text(v@[k]@),
        decreases v.len() - i,
    {
        r.push(normalize(v[i].as_str()));
        i = i + 1;
    }
    assert(texts(r@) =~= normals(all));
    r
}

fn trim_all(v: &Vec<String>) -> (r: Vec<String>)
    ensures
        texts(r@) == trims(texts(v@)),
        r@.len() == v@.len(),
{
    let ghost all = texts(v@);
    let mut r: Vec<String> = Vec::new();
    let mut i: usize = 0;
    while i < v.len()
        invariant
            i <= v.len(),
            all == texts(v@),
            r@.len() == i,
            forall|k: int| 0 <= k < i ==> (#[trigger] r@[k])@ == trimmed(v@[k]@),
        decreases v.len() - i,
    {
        r.push(trim(v[i].as_str()));
        i = i + 1;
    }
    assert(texts(r@) =~= trims(all));
    r
}

pub open spec fn some_empty(v: Seq<Seq<char>>) -> bool {
    exists|i: int| 0 <= i < v.len() && (#[trigger] v[i]).len() == 0
}

fn has_empty(v: &Vec<String>) -> (r: bool)
    ensures
        r == some_empty(texts(v@)),
{
    let ghost all = texts(v@);
    let mut i: usize = 0;
    while i < v.len()
        invariant
            i <= v.len(),
            all == texts(v@),
            forall|k: int| 0 <= k < i ==> (#[trigger] all[k]).len() != 0,
        decreases v.len() - i,
    {
        proof {
            reveal_strlit("");
            assert(all[i as int] == v@[i as int]@);
            assert(v@[i as int]@.len() == 0 ==> v@[i as int]@ =~= ""@);
        }
        if same(v[i].as_str(), "") {
            return true;
        }
        i = i + 1;
    }
    false
}

/// The place of a payee.
pub open spec fn payee_place(payees: Seq<Payee>, id: i64, from: int) -> Option<int>
    decreases payees.len() - from,
{
    if from < 0 || from >= payees.len() {
        None
    } else if payees[from].id == id {
        Some(from)
    } else {
        payee_place(payees, id, from + 1)
    }
}

pub fn get<'a>(payees: &'a [Payee], id: i64) -> (r: Result<&'a Payee>)
    ensures
        match r {
            Ok(p) => {
                &&& payee_place(payees@, id, 0) is Some
                &&& *p == payees@[payee_place(payees@, id, 0)->0]
                &&& p.id == id
            },
            Err(e) => payee_place(payees@, id, 0) is None && e.not_found("payee "@ + int_text(id as int)),
        },
{
    let mut i: usize = 0;
    while i < payees.len()
        invariant
            i <= payees.len(),
            payee_place(payees@, id, 0) == payee_place(payees@, id, i as int),
        decreases payees.len() - i,
    {
        if payees[i].id == id {
            return Ok(&payees[i]);
        }
        i = i + 1;
    }
    Err(not_found(cat("payee ", int_string(id).as_str()).as_str()))
}

/// Why a change of a payee is refused. `before` are the payees of the entity, `old` is the payee
/// that is changed.
pub open spec fn change_refusal(before: Seq<Payee>, old: Option<Payee>, c: Change) -> Option<Refusal> {
    if old matches Some(p) && p.entity_id != c.entity_id {
        Some(Refusal::Invalid("payee cannot move between entities"@))
    } else if blank(c.name@) {
        Some(Refusal::Invalid("payee name is required"@))
    } else if exists|i: int| 0 <= i < before.len() && (#[trigger] before[i]).id != c.id && normal_text(before[i].name@) == normal_text(c.name@) {
        Some(Refusal::Conflict("payee name already exists in this entity"@))
    } else if some_empty(normals(texts(c.aliases@))) {
        Some(Refusal::Invalid("empty payee alias"@))
    } else {
        None
    }
}

/// Whether `p` is the payee that a change proposes.
pub open spec fn proposed(old: Option<Payee>, c: Change, p: Payee) -> bool {
    &&& p.id == c.id
    &&& p.uid@ == (match old {
        Some(o) => o.uid@,
        None => Seq::empty(),
    })
    &&& p.entity_id == c.entity_id
    &&& p.name@ == trimmed(c.name@)
    &&& p.active == c.active
    &&& texts(p.aliases@) == saved_aliases(texts(c.aliases@))
}

fn name_taken(before: &[Payee], c: &Change) -> (r: bool)
    ensures
        r == exists|i: int|
            0 <= i < before@.len() && (#[trigger] before@[i]).id != c.id && normal_text(before@[i].name@) == normal_text(c.name@),
{
    let name = normalize(c.name.as_str());
    let mut i: usize = 0;
    while i < before.len()
        invariant
            i <= before.len(),
            name@ == normal_text(c.name@),
            forall|k: int|
                0 <= k < i ==> !((#[trigger] before@[k]).id != c.id && normal_text(before@[k].name@) == normal_text(c.name@)),
        decreases before.len() - i,
    {
        if before[i].id != c.id && same(normalize(before[i].name.as_str()).as_str(), name.as_str()) {
            return true;
        }
        i = i + 1;
    }
    false
}

pub open spec fn overlap(a: Seq<char>, b: Seq<char>) -> bool {
    holds(normal_text(a), normal_text(b)) || holds(normal_text(b), normal_text(a))
}

pub open spec fn overlap_text(p: Payee, a: Seq<char>, b: Seq<char>) -> Seq<char> {
    glued(
        seq![
            "Alias overlap with #"@,
            int_text(p.id as int),
            " "@,
            p.name@,
            ": "@,
            debug_text(a),
            " / "@,
            debug_text(b),
        ],
    )
}

/// The warnings about an alias of a payee and the first `n` of other aliases.
pub open spec fn alias_warnings(p: Payee, a: Seq<char>, bs: Seq<Seq<char>>, n: nat) -> Seq<Seq<char>>
    decreases n,
{
    if n == 0 {
        Seq::empty()
    } else {
        let rest = alias_warnings(p, a, bs, (n - 1) as nat);
        if overlap(a, bs[n - 1]) {
            rest.push(overlap_text(p, a, bs[n - 1]))
        } else {
            rest
        }
    }
}

/// The warnings about the first `n` aliases of a payee and other aliases.
pub open spec fn payee_warnings(p: Payee, bs: Seq<Seq<char>>, n: nat) -> Seq<Seq<char>>
    decreases n,
{
    if n == 0 {
        Seq::empty()
    } else {
        payee_warnings(p, bs, (n - 1) as nat) + alias_warnings(p, p.aliases@[n - 1]@, bs, bs.len())
    }
}

/// The warnings about the active ones among the first `n` payees, but for the one with the id, and
/// other aliases.
pub open spec fn overlap_warnings(payees: Seq<Payee>, id: i64, bs: Seq<Seq<char>>, n: nat) -> Seq<Seq<char>>
    decreases n,
{
    if n == 0 {
        Seq::empty()
    } else {
        let rest = overlap_warnings(payees, id, bs, (n - 1) as nat);
        let p = payees[n - 1];
        if p.id != id && p.active {
            rest + payee_warnings(p, bs, p.aliases@.len())
        } else {
            rest
        }
    }
}

fn warn_of(p: &Payee, a: &str, b: &str) -> (r: String)
    ensures
        r@ == overlap_text(*p, a@, b@),
{
    let (id, x, y) = (int_string(p.id), quoted(a), quoted(b));
    let parts: [&str; 8] = [
        "Alias overlap with #",
        id.as_str(),
        " ",
        p.name.as_str(),
        ": ",
        x.as_str(),
        " / ",
        y.as_str(),
    ];
    assert(str_texts(parts@) =~= seq![
        "Alias overlap with #"@,
        int_text(p.id as int),
        " "@,
        p.name@,
        ": "@,
        debug_text(a@),
        " / "@,
        debug_text(b@),
    ]);
    glue(&parts)
}

fn warn_alias(p: &Payee, a: &str, bs: &Vec<String>, into: &mut Vec<String>)
    ensures
        texts(final(into)@) == texts(old(into)@) + alias_warnings(*p, a@, texts(bs@), bs@.len()),
{
    let ghost (first, all) = (texts(into@), texts(bs@));
    let na = normalize(a);
    let mut i: usize = 0;
    assert(texts(into@) =~= first + alias_warnings(*p, a@, all, 0));
    while i < bs.len()
        invariant
            i <= bs.len(),
            all == texts(bs@),
            na@ == normal_text(a@),
            texts(into@) == first + alias_warnings(*p, a@, all, i as nat),
        decreases bs.len() - i,
    {
        assert(all[i as int] == bs@[i as int]@);
        let nb = normalize(bs[i].as_str());
        if contains(na.as_str(), nb.as_str()) || contains(nb.as_str(), na.as_str()) {
            let ghost before = texts(into@);
            let w = warn_of(p, a, bs[i].as_str());
            into.push(w);
            assert(texts(into@) =~= before.push(w@));
            assert(before.push(w@) =~= first + alias_warnings(*p, a@, all, (i + 1) as nat));
        }
        i = i + 1;
    }
}

fn warn_payee(p: &Payee, bs: &Vec<String>, into: &mut Vec<String>)
    ensures
        texts(final(into)@) == texts(old(into)@) + payee_warnings(*p, texts(bs@), p.aliases@.len()),
{
    let ghost (first, all) = (texts(into@), texts(bs@));
    let mut i: usize = 0;
    assert(texts(into@) =~= first + payee_warnings(*p, all, 0));
    while i < p.aliases.len()
        invariant
            i <= p.aliases.len(),
            all == texts(bs@),
            all.len() == bs@.len(),
            texts(into@) == first + payee_warnings(*p, all, i as nat),
        decreases p.aliases.len() - i,
    {
        warn_alias(p, p.aliases[i].as_str(), bs, into);
        assert(texts(into@) =~= first + payee_warnings(*p, all, (i + 1) as nat));
        i = i + 1;
    }
}

/// Warns of aliases that overlap with those of other active payees.
fn warn_overlaps(payees: &Vec<Payee>, id: i64, bs: &Vec<String>, into: &mut Vec<String>)
    ensures
        texts(final(into)@) == texts(old(into)@) + overlap_warnings(payees@, id, texts(bs@), payees@.len()),
{
    let ghost (first, all) = (texts(into@), texts(bs@));
    let mut i: usize = 0;
    assert(texts(into@) =~= first + overlap_warnings(payees@, id, all, 0));
    while i < payees.len()
        invariant
            i <= payees.len(),
            all == texts(bs@),
            texts(into@) == first + overlap_warnings(payees@, id, all, i as nat),
        decreases payees.len() - i,
    {
        if payees[i].id != id && payees[i].active {
            warn_payee(&payees[i], bs, into);
            assert(texts(into@) =~= first + overlap_warnings(payees@, id, all, (i + 1) as nat));
        }
        i = i + 1;
    }
}

/// Whether two payees say the same.
pub open spec fn alike(a: Payee, b: Payee) -> bool {
    &&& a.id == b.id && a.uid@ == b.uid@ && a.entity_id == b.entity_id && a.name@ == b.name@ && a.active == b.active
    &&& texts(a.aliases@) == texts(b.aliases@)
}

pub fn copy_payee(p: &Payee) -> (r: Payee)
    ensures
        alike(r, *p),
{
    let ghost all = texts(p.aliases@);
    let mut aliases: Vec<String> = Vec::new();
    let mut i: usize = 0;
    while i < p.aliases.len()
        invariant
            i <= p.aliases.len(),
            all == texts(p.aliases@),
            texts(aliases@) == all.take(i as int),
        decreases p.aliases.len() - i,
    {
        let ghost before = texts(aliases@);
        let a = own(p.aliases[i].as_str());
        aliases.push(a);
        assert(texts(aliases@) =~= before.push(a@));
        assert(all.take(i + 1) =~= all.take(i as int).push(a@));
        i = i + 1;
    }
    assert(texts(aliases@) =~= all);
    Payee {
        id: p.id,
        uid: own(p.uid.as_str()),
        entity_id: p.entity_id,
        name: own(p.name.as_str()),
        active: p.active,
        aliases,
    }
}

/// The places of the payees but for one, among the first `n`.
pub open spec fn others(payees: Seq<Payee>, id: i64, n: nat) -> Seq<int>
    decreases n,
{
    if n == 0 {
        Seq::empty()
    } else if payees[n - 1].id != id {
        others(payees, id, (n - 1) as nat).push(n - 1)
    } else {
        others(payees, id, (n - 1) as nat)
    }
}

/// Whether `after` are the payees with a change: the others, and the proposed one at the end.
pub open spec fn changed(before: Seq<Payee>, old: Option<Payee>, c: Change, after: Seq<Payee>) -> bool {
    let rest = others(before, c.id, before.len());
    &&& after.len() == rest.len() + 1
    &&& forall|k: int| 0 <= k < rest.len() ==> alike(#[trigger] after[k], before[rest[k]])
    &&& proposed(old, c, after.last())
}

pub open spec fn linked_text(linked: int) -> Seq<char> {
    int_text(linked)
        + " linked entries retain booked text; renames change their display. Other disjoint aliases can still co-occur and will stay ambiguous."@
}

/// What a change of a payee comes to before it is applied.
#[derive(Debug)]
pub struct SavePlan {
    /// The payees of the entity with the change; the changed one is the last.
    pub after: Vec<Payee>,
    pub impacts: Vec<Impact>,
    pub warnings: Vec<String>,
}

fn make_proposed(old: &Option<&Payee>, c: &Change) -> (r: Payee)
    ensures
        proposed(taken(*old), *c, r),
{
    let keys = normal_all(&c.aliases);
    let values = trim_all(&c.aliases);
    Payee {
        id: c.id,
        uid: match old {
            Some(o) => own(o.uid.as_str()),
            None => String::new(),
        },
        entity_id: c.entity_id,
        name: trim(c.name.as_str()),
        active: c.active,
        aliases: merge_by_key(&keys, &values),
    }
}

pub open spec fn taken(p: Option<&Payee>) -> Option<Payee> {
    match p {
        Some(x) => Some(*x),
        None => None,
    }
}

fn copy_others(payees: &[Payee], id: i64) -> (r: Vec<Payee>)
    ensures
        r@.len() == others(payees@, id, payees@.len()).len(),
        forall|k: int| 0 <= k < r@.len() ==> alike(#[trigger] r@[k], payees@[others(payees@, id, payees@.len())[k]]),
{
    let mut r: Vec<Payee> = Vec::new();
    let mut i: usize = 0;
    while i < payees.len()
        invariant
            i <= payees.len(),
            r@.len() == others(payees@, id, i as nat).len(),
            forall|k: int| 0 <= k < r@.len() ==> alike(#[trigger] r@[k], payees@[others(payees@, id, i as nat)[k]]),
        decreases payees.len() - i,
    {
        if payees[i].id != id {
            r.push(copy_payee(&payees[i]));
        }
        i = i + 1;
    }
    r
}

fn other_payees(payees: &[Payee]) -> (r: Vec<Payee>)
    ensures
        r@.len() == payees@.len(),
        forall|k: int| 0 <= k < r@.len() ==> alike(#[trigger] r@[k], payees@[k]),
{
    let mut r: Vec<Payee> = Vec::new();
    let mut i: usize = 0;
    while i < payees.len()
        invariant
            i <= payees.len(),
            r@.len() == i,
            forall|k: int| 0 <= k < i ==> alike(#[trigger] r@[k], payees@[k]),
        decreases payees.len() - i,
    {
        r.push(copy_payee(&payees[i]));
        i = i + 1;
    }
    r
}

/// The warnings of a change.
pub open spec fn change_warnings(before: Seq<Payee>, p: Payee, linked: int) -> Seq<Seq<char>> {
    (if p.active {
        overlap_warnings(before, p.id, texts(p.aliases@), before.len())
    } else {
        Seq::empty()
    }).push(linked_text(linked))
}

/// Every change is previewed against existing evidence and rules before becoming active. `linked`
/// entries carry the payee.
pub fn save(
    before: &Vec<Payee>,
    old: Option<&Payee>,
    change: &Change,
    rules: &[Rule],
    entries: &[JournalEntry],
    lines: &[StatementLine],
    linked: i64,
) -> (r: Result<SavePlan>)
    ensures
        match r {
            Ok(x) => {
                &&& change_refusal(before@, taken(old), *change) is None
                &&& changed(before@, taken(old), *change, x.after@)
                &&& effects(x.impacts@) == effects_on(rules@, entries@, before@, x.after@, lines@, lines@.len())
                &&& texts(x.warnings@) == change_warnings(before@, x.after@.last(), linked as int)
            },
            Err(e) => change_refusal(before@, taken(old), *change) == Some(e@),
        },
{
    if let Some(p) = old {
        if p.entity_id != change.entity_id {
            return Err(invalid("payee cannot move between entities"));
        }
    }
    if is_blank(change.name.as_str()) {
        return Err(invalid("payee name is required"));
    }
    if name_taken(before, change) {
        return Err(conflict("payee name already exists in this entity"));
    }
    if has_empty(&normal_all(&change.aliases)) {
        return Err(invalid("empty payee alias"));
    }
    let payee = make_proposed(&old, change);
    let mut warnings: Vec<String> = Vec::new();
    assert(texts(warnings@) =~= Seq::<Seq<char>>::empty());
    if payee.active {
        warn_overlaps(before, payee.id, &payee.aliases, &mut warnings);
        assert(texts(warnings@) =~= overlap_warnings(before@, payee.id, texts(payee.aliases@), before@.len()));
    }
    let ghost so_far = texts(warnings@);
    let note = cat(
        int_string(linked).as_str(),
        " linked entries retain booked text; renames change their display. Other disjoint aliases can still co-occur and will stay ambiguous.",
    );
    warnings.push(note);
    assert(texts(warnings@) =~= so_far.push(note@));
    let mut after = copy_others(before, change.id);
    let ghost rest = after@;
    after.push(payee);
    proof {
        assert forall|k: int| 0 <= k < rest.len() implies alike(
            #[trigger] after@[k],
            before@[others(before@, change.id, before@.len())[k]],
        ) by {
            assert(after@[k] == rest[k]);
        }
    }
    let impacts = impact(rules, entries, before, &after, lines);
    Ok(SavePlan { after, impacts, warnings })
}

/// Whether `after` are the payees once one was merged into another: the source is archived, the
/// target has the aliases of both.
pub open spec fn merged(before: Seq<Payee>, source: Payee, target: Payee, after: Seq<Payee>) -> bool {
    &&& after.len() == before.len()
    &&& forall|k: int|
        0 <= k < before.len() ==> {
            let (a, b) = (#[trigger] after[k], before[k]);
            if b.id == target.id {
                &&& a.id == target.id && a.uid@ == target.uid@ && a.entity_id == target.entity_id && a.name@ == target.name@
                &&& a.active == target.active
                &&& texts(a.aliases@) == merged_aliases(source, target)
            } else if b.id == source.id {
                alike(a, Payee { active: false, ..b })
            } else {
                alike(a, b)
            }
        }
}

/// The aliases of two payees: one for each that is compared alike, the target's before the
/// source's.
pub open spec fn merged_aliases(source: Payee, target: Payee) -> Seq<Seq<char>> {
    let v = texts(source.aliases@) + texts(target.aliases@);
    by_key(normals(v), v)
}

/// Why a reassignment is refused: to an archived payee, or between entities.
pub open spec fn reassign_refusal(target: Payee, entry: Option<JournalEntry>, source: Option<Payee>) -> Option<Refusal> {
    if !target.active {
        Some(Refusal::Invalid("choose an active payee"@))
    } else {
        match entry {
            Some(e) => if e.entity_id != target.entity_id {
                Some(Refusal::Invalid("payee belongs to another entity"@))
            } else {
                None
            },
            None => match source {
                Some(s) => if s.entity_id != target.entity_id || s.id == target.id {
                    Some(Refusal::Invalid("merge requires two payees in the same entity"@))
                } else {
                    None
                },
                None => None,
            },
        }
    }
}

pub open spec fn reassign_effect(e: JournalEntry, target: i64) -> Effect {
    Effect {
        entry_id: e.id,
        line_id: 0,
        booked: e.payee@,
        evidence: e.description@,
        candidates: seq![target],
        before_rule: None,
        after_rule: None,
    }
}

pub open spec fn reassign_effects(v: Seq<JournalEntry>, target: i64) -> Seq<Effect> {
    v.map_values(|e: JournalEntry| reassign_effect(e, target))
}

pub open spec fn archive_text(source: Payee, target: Payee) -> Seq<char> {
    glued(
        seq![
            "Archive source #"@,
            int_text(source.id as int),
            " and transfer "@,
            nat_text(source.aliases@.len()),
            " aliases to #"@,
            int_text(target.id as int),
            " ("@,
            nat_text(merged_aliases(source, target).len()),
            " distinct aliases after merging)."@,
        ],
    )
}

pub open spec fn merge_warnings(source: Payee, target: Payee, after: Seq<Payee>) -> Seq<Seq<char>> {
    (seq![
        "Explicit canonical reassignment preserves booked text and amounts."@,
        archive_text(source, target),
    ] + overlap_warnings(after, target.id, merged_aliases(source, target), after.len())).push(
        "Disjoint aliases can also co-occur. Conflicting matches remain unresolved. Explicit rule payee actions keep their booked text; review actions naming the archived source."@,
    )
}

fn reassign_impacts(v: &[JournalEntry], target: i64) -> (r: Vec<Impact>)
    ensures
        effects(r@) == reassign_effects(v@, target),
{
    let mut r: Vec<Impact> = Vec::new();
    let mut i: usize = 0;
    while i < v.len()
        invariant
            i <= v.len(),
            effects(r@) == reassign_effects(v@, target).take(i as int),
        decreases v.len() - i,
    {
        let ghost before = effects(r@);
        let mut candidates: Vec<i64> = Vec::new();
        candidates.push(target);
        let x = Impact {
            entry_id: v[i].id,
            line_id: 0,
            booked: own(v[i].payee.as_str()),
            evidence: own(v[i].description.as_str()),
            candidates,
            before_rule: None,
            after_rule: None,
        };
        assert(x@.candidates =~= seq![target]);
        r.push(x);
        assert(effects(r@) =~= before.push(x@));
        assert(reassign_effects(v@, target).take(i + 1) =~= reassign_effects(v@, target).take(i as int).push(x@));
        i = i + 1;
    }
    assert(effects(r@) =~= reassign_effects(v@, target));
    r
}

fn chain_aliases(source: &Payee, target: &Payee) -> (r: Vec<String>)
    ensures
        texts(r@) == texts(source.aliases@) + texts(target.aliases@),
{
    let a = copy_payee(source);
    let b = copy_payee(target);
    let mut r = a.aliases;
    let mut more = b.aliases;
    let ghost (x, y) = (texts(r@), texts(more@));
    r.append(&mut more);
    assert(texts(r@) =~= x + y);
    r
}

fn merge_payees(before: &[Payee], source: &Payee, target: &Payee, aliases: &Vec<String>) -> (r: Vec<Payee>)
    requires
        texts(aliases@) == merged_aliases(*source, *target),
    ensures
        merged(before@, *source, *target, r@),
{
    let mut r: Vec<Payee> = Vec::new();
    let mut i: usize = 0;
    while i < before.len()
        invariant
            i <= before.len(),
            r@.len() == i,
            texts(aliases@) == merged_aliases(*source, *target),
            merged(before@.take(i as int), *source, *target, r@),
        decreases before.len() - i,
    {
        let mut p = copy_payee(&before[i]);
        let ghost done = r@;
        if before[i].id == target.id {
            p = copy_payee(target);
            p.aliases = copy_strings(aliases);
        } else if before[i].id == source.id {
            p.active = false;
        }
        r.push(p);
        proof {
            let b = before@.take(i + 1);
            assert forall|k: int| 0 <= k < b.len() implies ({
                let (a, b) = (#[trigger] r@[k], b[k]);
                if b.id == target.id {
                    &&& a.id == target.id && a.uid@ == target.uid@ && a.entity_id == target.entity_id && a.name@ == target.name@
                    &&& a.active == target.active
                    &&& texts(a.aliases@) == merged_aliases(*source, *target)
                } else if b.id == source.id {
                    alike(a, Payee { active: false, ..b })
                } else {
                    alike(a, b)
                }
            }) by {
                if k < i {
                    assert(r@[k] == done[k]);
                    assert(b[k] == before@.take(i as int)[k]);
                }
            }
        }
        i = i + 1;
    }
    assert(before@.take(i as int) =~= before@);
    r
}

fn copy_strings(v: &Vec<String>) -> (r: Vec<String>)
    ensures
        texts(r@) == texts(v@),
{
    let ghost all = texts(v@);
    let mut r: Vec<String> = Vec::new();
    let mut i: usize = 0;
    while i < v.len()
        invariant
            i <= v.len(),
            all == texts(v@),
            texts(r@) == all.take(i as int),
        decreases v.len() - i,
    {
        let ghost before = texts(r@);
        let a = own(v[i].as_str());
        r.push(a);
        assert(texts(r@) =~= before.push(a@));
        assert(all.take(i + 1) =~= all.take(i as int).push(a@));
        i = i + 1;
    }
    assert(texts(r@) =~= all);
    r
}

/// What a reassignment comes to before it is applied.
#[derive(Debug)]
pub struct ReassignPlan {
    /// The payees of the entity after it.
    pub after: Vec<Payee>,
    pub impacts: Vec<Impact>,
    pub warnings: Vec<String>,
}

/// Explicit reassignment or merge is previewed and audited without rewriting booked fields. An
/// entry is moved alone, or all the entries of the source, which is merged into the target.
pub fn reassign(
    before: &Vec<Payee>,
    target: &Payee,
    source: Option<&Payee>,
    entry: Option<&JournalEntry>,
    moved: &[JournalEntry],
    rules: &[Rule],
    entries: &[JournalEntry],
    lines: &[StatementLine],
) -> (r: Result<ReassignPlan>)
    requires
        entry is Some || source is Some,
    ensures
        ({
            let e = match entry {
                Some(x) => Some(*x),
                None => None,
            };
            match r {
                Ok(x) => {
                    &&& reassign_refusal(*target, e, taken(source)) is None
                    &&& if entry is Some {
                        &&& x.after@.len() == before@.len()
                        &&& forall|k: int| 0 <= k < before@.len() ==> alike(#[trigger] x.after@[k], before@[k])
                        &&& effects(x.impacts@) == reassign_effects(moved@, target.id)
                        &&& texts(x.warnings@) == seq!["Explicit canonical reassignment preserves booked text and amounts."@]
                    } else {
                        &&& merged(before@, *source->0, *target, x.after@)
                        &&& effects(x.impacts@) == reassign_effects(moved@, target.id) + effects_on(
                            rules@,
                            entries@,
                            before@,
                            x.after@,
                            lines@,
                            lines@.len(),
                        )
                        &&& texts(x.warnings@) == merge_warnings(*source->0, *target, x.after@)
                    }
                },
                Err(f) => reassign_refusal(*target, e, taken(source)) == Some(f@),
            }
        }),
{
    if !target.active {
        return Err(invalid("choose an active payee"));
    }
    let mut impacts = reassign_impacts(moved, target.id);
    let mut warnings: Vec<String> = Vec::new();
    let first = own("Explicit canonical reassignment preserves booked text and amounts.");
    warnings.push(first);
    assert(texts(warnings@) =~= seq!["Explicit canonical reassignment preserves booked text and amounts."@]);
    if let Some(e) = entry {
        if e.entity_id != target.entity_id {
            return Err(invalid("payee belongs to another entity"));
        }
        return Ok(ReassignPlan { after: other_payees(before), impacts, warnings });
    }
    let source = match source {
        Some(s) => s,
        None => {
            return Err(invalid("choose an active payee"));
        },
    };
    if source.entity_id != target.entity_id || source.id == target.id {
        return Err(invalid("merge requires two payees in the same entity"));
    }
    let all = chain_aliases(source, target);
    let keys = normal_all(&all);
    let aliases = merge_by_key(&keys, &all);
    assert(texts(aliases@) == merged_aliases(*source, *target));
    let after = merge_payees(before, source, target, &aliases);
    let mut more = impact(rules, entries, before, &after, lines);
    let ghost (had, new) = (effects(impacts@), effects(more@));
    impacts.append(&mut more);
    assert(effects(impacts@) =~= had + new);
    assert(texts(aliases@).len() == aliases@.len());
    let (sid, sn, tid, an) = (
        int_string(source.id),
        nat_string(source.aliases.len() as u128),
        int_string(target.id),
        nat_string(aliases.len() as u128),
    );
    let parts: [&str; 9] = [
        "Archive source #",
        sid.as_str(),
        " and transfer ",
        sn.as_str(),
        " aliases to #",
        tid.as_str(),
        " (",
        an.as_str(),
        " distinct aliases after merging).",
    ];
    assert(str_texts(parts@) =~= seq![
        "Archive source #"@,
        int_text(source.id as int),
        " and transfer "@,
        nat_text(source.aliases@.len()),
        " aliases to #"@,
        int_text(target.id as int),
        " ("@,
        nat_text(merged_aliases(*source, *target).len()),
        " distinct aliases after merging)."@,
    ]);
    let archive = glue(&parts);
    warnings.push(archive);
    assert(texts(warnings@) =~= seq![
        "Explicit canonical reassignment preserves booked text and amounts."@,
        archive_text(*source, *target),
    ]);
    warn_overlaps(&after, target.id, &aliases, &mut warnings);
    let ghost so_far = texts(warnings@);
    let last = own(
        "Disjoint aliases can also co-occur. Conflicting matches remain unresolved. Explicit rule payee actions keep their booked text; review actions naming the archived source.",
    );
    warnings.push(last);
    assert(texts(warnings@) =~= so_far.push(last@));
    Ok(ReassignPlan { after, impacts, warnings })
}

/// Ids in order with one more, each once.
pub open spec fn with_id(s: Seq<i64>, id: i64) -> Seq<i64>
    decreases s.len(),
{
    if s.len() == 0 || s.last() < id {
        s.push(id)
    } else if s.last() == id {
        s
    } else {
        with_id(s.drop_last(), id).push(s.last())
    }
}

proof fn lemma_with_id(s: Seq<i64>, id: i64, p: int)
    requires
        0 <= p <= s.len(),
        forall|k: int| p <= k < s.len() ==> id < #[trigger] s[k],
        p > 0 ==> s[p - 1] <= id,
    ensures
        with_id(s, id) == (if p > 0 && s[p - 1] == id {
            s
        } else {
            s.insert(p, id)
        }),
    decreases s.len(),
{
    if p == s.len() {
        if s.len() == 0 || s.last() < id {
            assert(s.insert(p, id) =~= s.push(id));
        }
    } else {
        lemma_with_id(s.drop_last(), id, p);
        if p > 0 && s[p - 1] == id {
            assert(s.drop_last().push(s.last()) =~= s);
        } else {
            assert(s.drop_last().insert(p, id).push(s.last()) =~= s.insert(p, id));
        }
    }
}

fn add_id(v: &mut Vec<i64>, id: i64)
    ensures
        final(v)@ == with_id(old(v)@, id),
{
    let mut p: usize = v.len();
    while p > 0 && v[p - 1] > id
        invariant
            p <= v.len(),
            v@ == old(v)@,
            forall|k: int| p <= k < v@.len() ==> id < #[trigger] v@[k],
        decreases p,
    {
        p = p - 1;
    }
    proof {
        lemma_with_id(v@, id, p as int);
    }
    if p > 0 && v[p - 1] == id {
        return;
    }
    v.insert(p, id);
}

/// The ids of payees with those at places.
pub open spec fn with_ids(s: Seq<i64>, payees: Seq<Payee>, places: Seq<int>) -> Seq<i64>
    decreases places.len(),
{
    if places.len() == 0 {
        s
    } else {
        with_id(with_ids(s, payees, places.drop_last()), payees[places.last()].id)
    }
}

fn add_ids(v: &mut Vec<i64>, payees: &[Payee], places: &Vec<usize>)
    requires
        forall|k: int| 0 <= k < places@.len() ==> (#[trigger] places@[k]) < payees@.len(),
    ensures
        final(v)@ == with_ids(old(v)@, payees@, as_ints(places@)),
{
    let ghost (first, ps) = (v@, as_ints(places@));
    let mut i: usize = 0;
    assert(with_ids(first, payees@, ps.take(0)) =~= first);
    while i < places.len()
        invariant
            i <= places.len(),
            ps == as_ints(places@),
            forall|k: int| 0 <= k < places@.len() ==> (#[trigger] places@[k]) < payees@.len(),
            v@ == with_ids(first, payees@, ps.take(i as int)),
        decreases places.len() - i,
    {
        assert(ps.take(i + 1).drop_last() =~= ps.take(i as int));
        assert(ps[i as int] == places@[i as int] as int);
        add_id(v, payees[places[i]].id);
        i = i + 1;
    }
    assert(ps.take(i as int) =~= ps);
}

/// The place of an entry.
pub open spec fn entry_place(entries: Seq<JournalEntry>, id: i64, from: int) -> Option<int>
    decreases entries.len() - from,
{
    if from < 0 || from >= entries.len() {
        None
    } else if entries[from].id == id {
        Some(from)
    } else {
        entry_place(entries, id, from + 1)
    }
}

pub fn find_entry(entries: &[JournalEntry], id: i64) -> (r: Option<usize>)
    ensures
        match r {
            Some(i) => i < entries@.len() && entry_place(entries@, id, 0) == Some(i as int),
            None => entry_place(entries@, id, 0) is None,
        },
{
    let mut i: usize = 0;
    while i < entries.len()
        invariant
            i <= entries.len(),
            entry_place(entries@, id, 0) == entry_place(entries@, id, i as int),
        decreases entries.len() - i,
    {
        if entries[i].id == id {
            return Some(i);
        }
        i = i + 1;
    }
    None
}

/// What an entry reverses or refunds.
pub open spec fn origin_of(e: JournalEntry) -> Option<i64> {
    if e.reverses_id is Some {
        e.reverses_id
    } else {
        e.refund_of_id
    }
}

/// The entry that a history of reversals and refunds starts with, from the one at `at` back. Those
/// in `seen` were met before.
pub open spec fn source_of(entries: Seq<JournalEntry>, entity: i64, at: int, seen: Seq<i64>, steps: nat) -> std::result::Result<int, Refusal>
    decreases steps,
{
    match origin_of(entries[at]) {
        None => Ok(at),
        Some(id) => if seen.contains(entries[at].id) || steps == 0 {
            Err(Refusal::Conflict("cyclic reversal/refund history"@))
        } else {
            match entry_place(entries, id, 0) {
                None => Err(Refusal::NotFound("journal entry "@ + int_text(id as int))),
                Some(j) => if entries[j].entity_id != entity {
                    Err(Refusal::Conflict("reversal/refund belongs to another entity"@))
                } else {
                    source_of(entries, entity, j, seen.push(entries[at].id), (steps - 1) as nat)
                },
            }
        },
    }
}

fn is_among_ids(v: &Vec<i64>, id: i64) -> (r: bool)
    ensures
        r == v@.contains(id),
{
    let mut i: usize = 0;
    while i < v.len()
        invariant
            i <= v.len(),
            forall|k: int| 0 <= k < i ==> #[trigger] v@[k] != id,
        decreases v.len() - i,
    {
        if v[i] == id {
            return true;
        }
        i = i + 1;
    }
    false
}

fn find_source(entries: &[JournalEntry], entity: i64, at: usize) -> (r: Result<usize>)
    requires
        at < entries@.len(),
    ensures
        match r {
            Ok(i) => i < entries@.len() && source_of(entries@, entity, at as int, Seq::empty(), entries@.len()) == Ok::<int, Refusal>(
                i as int,
            ),
            Err(e) => source_of(entries@, entity, at as int, Seq::empty(), entries@.len()) == Err::<int, Refusal>(e@),
        },
{
    let mut seen: Vec<i64> = Vec::new();
    let mut cur: usize = at;
    let mut steps: usize = entries.len();
    assert(seen@ =~= Seq::<i64>::empty());
    loop
        invariant
            cur < entries@.len(),
            steps <= entries.len(),
            source_of(entries@, entity, at as int, Seq::empty(), entries@.len()) == source_of(
                entries@,
                entity,
                cur as int,
                seen@,
                steps as nat,
            ),
        decreases steps,
    {
        let e = &entries[cur];
        let origin = if e.reverses_id.is_some() {
            e.reverses_id
        } else {
            e.refund_of_id
        };
        let id = match origin {
            None => {
                return Ok(cur);
            },
            Some(id) => id,
        };
        if is_among_ids(&seen, e.id) || steps == 0 {
            return Err(conflict("cyclic reversal/refund history"));
        }
        match find_entry(entries, id) {
            None => {
                return Err(not_found(cat("journal entry ", int_string(id).as_str()).as_str()));
            },
            Some(j) => {
                if entries[j].entity_id != entity {
                    return Err(conflict("reversal/refund belongs to another entity"));
                }
                seen.push(e.id);
                cur = j;
                steps = steps - 1;
            },
        }
    }
}

/// Whether a line is evidence of an entry.
pub open spec fn evidences(sl: StatementLine, entry: i64) -> bool {
    sl.journal_entry_id == Some(entry) && (sl.status@ == "created"@ || sl.status@ == "matched"@)
}

/// What the evidence among the first `n` lines says of an entry: the payees that it may mean, the
/// first line, and the texts.
pub struct Evidence {
    pub ids: Seq<i64>,
    pub line_id: i64,
    pub texts: Seq<Seq<char>>,
}

pub open spec fn evidence_for(payees: Seq<Payee>, lines: Seq<StatementLine>, entry: i64, n: nat) -> Evidence
    decreases n,
{
    if n == 0 {
        Evidence { ids: Seq::empty(), line_id: 0, texts: Seq::empty() }
    } else {
        let e = evidence_for(payees, lines, entry, (n - 1) as nat);
        let sl = lines[n - 1];
        if evidences(sl, entry) {
            Evidence {
                ids: with_ids(e.ids, payees, meant(payees, sl.description@, payees.len())),
                line_id: if e.texts.len() == 0 {
                    sl.id
                } else {
                    e.line_id
                },
                texts: e.texts.push(sl.description@),
            }
        } else {
            e
        }
    }
}

/// What is inferred of the payee of the entry at `at`, whose history starts at `source`.
pub open spec fn inferred(
    payees: Seq<Payee>,
    entries: Seq<JournalEntry>,
    lines: Seq<StatementLine>,
    at: int,
    source: int,
) -> Effect {
    let (e, s) = (entries[at], entries[source]);
    let (ids, line_id, text) = if s.id != e.id && s.payee_id is Some {
        (seq![s.payee_id->0], 0i64, "Original entry #"@ + int_text(s.id as int) + " canonical payee"@)
    } else {
        let found = evidence_for(payees, lines, s.id, lines.len());
        if s.id != e.id {
            (found.ids, 0i64, joined(seq!["Original entry #"@ + int_text(s.id as int)] + found.texts, " | "@))
        } else {
            (found.ids, found.line_id, joined(found.texts, " | "@))
        }
    };
    Effect { entry_id: e.id, line_id, booked: e.payee@, evidence: text, candidates: ids, before_rule: None, after_rule: None }
}

/// What is inferred for the entries without a payee among the first `n`.
pub open spec fn all_inferred(
    payees: Seq<Payee>,
    entries: Seq<JournalEntry>,
    lines: Seq<StatementLine>,
    entity: i64,
    n: nat,
) -> std::result::Result<Seq<Effect>, Refusal>
    decreases n,
{
    if n == 0 {
        Ok(Seq::empty())
    } else {
        match all_inferred(payees, entries, lines, entity, (n - 1) as nat) {
            Err(e) => Err(e),
            Ok(v) => if entries[n - 1].entity_id != entity || entries[n - 1].payee_id is Some {
                Ok(v)
            } else {
                match source_of(entries, entity, n - 1, Seq::empty(), entries.len()) {
                    Err(e) => Err(e),
                    Ok(s) => Ok(v.push(inferred(payees, entries, lines, n - 1, s))),
                }
            },
        }
    }
}

fn gather(payees: &[Payee], lines: &[StatementLine], entry: i64) -> (r: (Vec<i64>, i64, Vec<String>))
    ensures
        evidence_for(payees@, lines@, entry, lines@.len()) == (Evidence { ids: r.0@, line_id: r.1, texts: texts(r.2@) }),
{
    let mut ids: Vec<i64> = Vec::new();
    let mut line_id: i64 = 0;
    let mut found: Vec<String> = Vec::new();
    let mut i: usize = 0;
    assert(texts(found@) =~= Seq::<Seq<char>>::empty());
    while i < lines.len()
        invariant
            i <= lines.len(),
            evidence_for(payees@, lines@, entry, i as nat) == (Evidence { ids: ids@, line_id, texts: texts(found@) }),
        decreases lines.len() - i,
    {
        let sl = &lines[i];
        let linked = match sl.journal_entry_id {
            Some(id) => id == entry,
            None => false,
        };
        if linked && (same(sl.status.as_str(), "created") || same(sl.status.as_str(), "matched")) {
            let places = candidate_places(payees, sl.description.as_str());
            add_ids(&mut ids, payees, &places);
            assert(texts(found@).len() == found@.len());
            if found.len() == 0 {
                line_id = sl.id;
            }
            let ghost before = texts(found@);
            let text = own(sl.description.as_str());
            found.push(text);
            assert(texts(found@) =~= before.push(text@));
        }
        i = i + 1;
    }
    (ids, line_id, found)
}

fn infer(payees: &[Payee], entries: &[JournalEntry], lines: &[StatementLine], at: usize, source: usize) -> (r: Impact)
    requires
        at < entries@.len(),
        source < entries@.len(),
    ensures
        r@ == inferred(payees@, entries@, lines@, at as int, source as int),
{
    let (e, s) = (&entries[at], &entries[source]);
    let other = s.id != e.id;
    let known = match s.payee_id {
        Some(p) => if other {
            Some(p)
        } else {
            None
        },
        None => None,
    };
    let (candidates, line_id, evidence) = match known {
        Some(p) => {
            let mut ids: Vec<i64> = Vec::new();
            ids.push(p);
            assert(ids@ =~= seq![p]);
            (ids, 0i64, cat3("Original entry #", int_string(s.id).as_str(), " canonical payee"))
        },
        None => {
            let (ids, first, found) = gather(payees, lines, s.id);
            if other {
                let mut all: Vec<String> = Vec::new();
                let head = cat("Original entry #", int_string(s.id).as_str());
                all.push(head);
                let mut found = found;
                let ghost tail = texts(found@);
                assert(texts(all@) =~= seq![head@]);
                all.append(&mut found);
                assert(texts(all@) =~= seq![head@] + tail);
                (ids, 0i64, join(&all, " | "))
            } else {
                (ids, first, join(&found, " | "))
            }
        },
    };
    Impact {
        entry_id: e.id,
        line_id,
        booked: own(e.payee.as_str()),
        evidence,
        candidates,
        before_rule: None,
        after_rule: None,
    }
}

proof fn lemma_inferred_failed(
    payees: Seq<Payee>,
    entries: Seq<JournalEntry>,
    lines: Seq<StatementLine>,
    entity: i64,
    n: nat,
    m: nat,
)
    requires
        n <= m,
        all_inferred(payees, entries, lines, entity, n) is Err,
    ensures
        all_inferred(payees, entries, lines, entity, m) == all_inferred(payees, entries, lines, entity, n),
    decreases m - n,
{
    if n < m {
        lemma_inferred_failed(payees, entries, lines, entity, n, (m - 1) as nat);
    }
}

/// Historical inference uses actual statement evidence, never old category-like booked labels. It
/// is refused while the hash chain of the ledger does not hold.
pub fn backfill(payees: &[Payee], entries: &[JournalEntry], lines: &[StatementLine], entity: i64, chain_broken: bool) -> (r: Result<
    Vec<Impact>,
>)
    ensures
        if chain_broken {
            r matches Err(e) && e.conflict("repair the ledger hash chain before linking payees"@)
        } else {
            match r {
                Ok(v) => all_inferred(payees@, entries@, lines@, entity, entries@.len()) == Ok::<Seq<Effect>, Refusal>(effects(v@)),
                Err(e) => all_inferred(payees@, entries@, lines@, entity, entries@.len()) == Err::<Seq<Effect>, Refusal>(e@),
            }
        },
{
    if chain_broken {
        return Err(conflict("repair the ledger hash chain before linking payees"));
    }
    let mut r: Vec<Impact> = Vec::new();
    let mut i: usize = 0;
    assert(effects(r@) =~= Seq::<Effect>::empty());
    while i < entries.len()
        invariant
            i <= entries.len(),
            !chain_broken,
            all_inferred(payees@, entries@, lines@, entity, i as nat) == Ok::<Seq<Effect>, Refusal>(effects(r@)),
        decreases entries.len() - i,
    {
        if entries[i].entity_id == entity && entries[i].payee_id.is_none() {
            match find_source(entries, entity, i) {
                Ok(s) => {
                    let ghost before = effects(r@);
                    let x = infer(payees, entries, lines, i, s);
                    r.push(x);
                    assert(effects(r@) =~= before.push(x@));
                },
                Err(e) => {
                    proof {
                        lemma_inferred_failed(payees@, entries@, lines@, entity, (i + 1) as nat, entries@.len());
                    }
                    return Err(e);
                },
            }
        }
        i = i + 1;
    }
    Ok(r)
}

/// The links that a confirmed backfill makes: only unambiguous statement-backed ones.
pub open spec fn links_of(v: Seq<Effect>, n: nat) -> Seq<(i64, i64)>
    decreases n,
{
    if n == 0 {
        Seq::empty()
    } else {
        let rest = links_of(v, (n - 1) as nat);
        if v[n - 1].candidates.len() == 1 {
            rest.push((v[n - 1].entry_id, v[n - 1].candidates[0]))
        } else {
            rest
        }
    }
}

/// The entries that a confirmed backfill links, each with its payee.
pub fn backfill_links(impacts: &[Impact], chart_reviewed: bool) -> (r: Result<Vec<(i64, i64)>>)
    ensures
        if chart_reviewed {
            r matches Ok(v) && v@ == links_of(effects(impacts@), impacts@.len())
        } else {
            r matches Err(e) && e.invalid("historical linking requires explicit chart and rule review confirmation"@)
        },
{
    if !chart_reviewed {
        return Err(invalid("historical linking requires explicit chart and rule review confirmation"));
    }
    let ghost all = effects(impacts@);
    let mut r: Vec<(i64, i64)> = Vec::new();
    let mut i: usize = 0;
    while i < impacts.len()
        invariant
            i <= impacts.len(),
            all == effects(impacts@),
            r@ == links_of(all, i as nat),
        decreases impacts.len() - i,
    {
        assert(all[i as int] == impacts@[i as int]@);
        if impacts[i].candidates.len() == 1 {
            r.push((impacts[i].entry_id, impacts[i].candidates[0]));
        }
        i = i + 1;
    }
    Ok(r)
}

#[derive(Debug)]
pub struct ExpenseRow {
    pub payee_id: Option<i64>,
    pub name: String,
    pub amount: Money,
}

#[derive(Debug)]
pub struct ExpenseReport {
    pub rows: Vec<ExpenseRow>,
    pub total: Money,
}

/// Whom expenses are grouped under: a payee, or a booked name without one.
pub struct Whom {
    pub id: Option<i64>,
    pub name: Seq<char>,
}

pub open spec fn whom(e: JournalEntry) -> Whom {
    Whom { id: e.payee_id, name: e.display_payee@ }
}

/// Whether an entry has expenses that count.
pub open spec fn has_expenses(s: Spending, accounts: Seq<Account>, e: JournalEntry) -> bool {
    spending_entry(s, Group::All, e) && exists|k: int|
        0 <= k < e.postings@.len() && spending_account(s, Group::All, accounts, (#[trigger] e.postings@[k]).account_id)
}

/// Whom the expenses of the first `n` entries go to, each once.
pub open spec fn all_whom(s: Spending, accounts: Seq<Account>, entries: Seq<JournalEntry>, n: nat) -> Seq<Whom>
    decreases n,
{
    if n == 0 {
        Seq::empty()
    } else {
        let rest = all_whom(s, accounts, entries, (n - 1) as nat);
        if has_expenses(s, accounts, entries[n - 1]) && !rest.contains(whom(entries[n - 1])) {
            rest.push(whom(entries[n - 1]))
        } else {
            rest
        }
    }
}

pub open spec fn id_ranks(v: Seq<Whom>) -> Seq<Rank> {
    v.map_values(
        |w: Whom|
            Rank {
                first: if w.id is Some {
                    1
                } else {
                    0
                },
                second: if w.id is Some {
                    w.id->0 as int
                } else {
                    0
                },
                text: Seq::empty(),
            },
    )
}

pub open spec fn name_ranks(v: Seq<Whom>) -> Seq<Rank> {
    v.map_values(|w: Whom| Rank { first: 0, second: 0, text: w.name })
}

pub open spec fn arranged(v: Seq<Whom>, rs: Seq<Rank>) -> Seq<Whom> {
    sorted_places(rs).map_values(|i: int| v[i])
}

/// Payees in the order of their names, and of their ids where the names are the same.
pub open spec fn in_order(v: Seq<Whom>) -> Seq<Whom> {
    let by_id = arranged(v, id_ranks(v));
    arranged(by_id, name_ranks(by_id))
}

pub struct Paid {
    pub whom: Whom,
    pub amount: Amount,
}

pub open spec fn paid(rows: Seq<ExpenseRow>) -> Seq<Paid> {
    rows.map_values(|r: ExpenseRow| Paid { whom: Whom { id: r.payee_id, name: r.name@ }, amount: r.amount@ })
}

/// What the first `n` of them were paid.
pub open spec fn paid_to(
    s: Spending,
    accounts: Seq<Account>,
    entries: Seq<JournalEntry>,
    v: Seq<Whom>,
    zero: Amount,
    n: nat,
) -> std::result::Result<Seq<Paid>, Refusal>
    decreases n,
{
    if n == 0 {
        Ok(Seq::empty())
    } else {
        match paid_to(s, accounts, entries, v, zero, (n - 1) as nat) {
            Err(e) => Err(e),
            Ok(rows) => match expense_total(s, Group::Payee(v[n - 1].id, v[n - 1].name), accounts, entries, entries.len()) {
                None => Err(Refusal::Invalid("expense total is out of range"@)),
                Some(m) => Ok(rows.push(Paid { whom: v[n - 1], amount: with_minor(zero, m) })),
            },
        }
    }
}

/// Whom expenses are grouped under.
struct Bucket {
    id: Option<i64>,
    name: String,
}

spec fn group_views(v: Seq<Bucket>) -> Seq<Whom> {
    v.map_values(|g: Bucket| Whom { id: g.id, name: g.name@ })
}

fn has_group(v: &Vec<Bucket>, id: Option<i64>, name: &str) -> (r: bool)
    ensures
        r == group_views(v@).contains(Whom { id, name: name@ }),
{
    let mut i: usize = 0;
    while i < v.len()
        invariant
            i <= v.len(),
            forall|k: int| 0 <= k < i ==> !((#[trigger] v@[k]).id == id && v@[k].name@ == name@),
        decreases v.len() - i,
    {
        if same_id(v[i].id, id) && same(v[i].name.as_str(), name) {
            assert(group_views(v@)[i as int] == (Whom { id, name: name@ }));
            return true;
        }
        i = i + 1;
    }
    assert(!group_views(v@).contains(Whom { id, name: name@ }));
    false
}

fn counts(f: &Filter<'_>, accounts: &[Account], e: &JournalEntry) -> (r: bool)
    ensures
        r == has_expenses(f.spending(), accounts@, *e),
{
    if !is_spending_entry(f, &Part::All, e) {
        return false;
    }
    let mut i: usize = 0;
    while i < e.postings.len()
        invariant
            i <= e.postings.len(),
            spending_entry(f.spending(), Group::All, *e),
            forall|k: int|
                0 <= k < i ==> !spending_account(f.spending(), Group::All, accounts@, (#[trigger] e.postings@[k]).account_id),
        decreases e.postings.len() - i,
    {
        if is_spending_account(f, &Part::All, accounts, e.postings[i].account_id) {
            return true;
        }
        i = i + 1;
    }
    false
}

fn find_groups(f: &Filter<'_>, accounts: &[Account], entries: &[JournalEntry]) -> (r: Vec<Bucket>)
    ensures
        group_views(r@) == all_whom(f.spending(), accounts@, entries@, entries@.len()),
{
    let mut r: Vec<Bucket> = Vec::new();
    let mut i: usize = 0;
    assert(group_views(r@) =~= Seq::<Whom>::empty());
    while i < entries.len()
        invariant
            i <= entries.len(),
            group_views(r@) == all_whom(f.spending(), accounts@, entries@, i as nat),
        decreases entries.len() - i,
    {
        let e = &entries[i];
        if counts(f, accounts, e) && !has_group(&r, e.payee_id, e.display_payee.as_str()) {
            let ghost before = group_views(r@);
            let g = Bucket { id: e.payee_id, name: own(e.display_payee.as_str()) };
            r.push(g);
            assert(group_views(r@) =~= before.push(whom(*e)));
        }
        i = i + 1;
    }
    r
}

fn arrange(v: &Vec<Bucket>, keys: &Vec<Key>) -> (r: Vec<Bucket>)
    requires
        keys@.len() == v@.len(),
    ensures
        group_views(r@) == arranged(group_views(v@), ranks(keys@)),
{
    let ghost all = group_views(v@);
    let order = sorted(keys);
    let mut r: Vec<Bucket> = Vec::new();
    let mut k: usize = 0;
    while k < order.len()
        invariant
            k <= order.len(),
            all == group_views(v@),
            r@.len() == k,
            forall|j: int| 0 <= j < order@.len() ==> (#[trigger] order@[j]) < v@.len(),
            forall|j: int| 0 <= j < k ==> group_views(r@)[j] == all[#[trigger] order@[j] as int],
        decreases order.len() - k,
    {
        let x = &v[order[k]];
        let ghost before = group_views(r@);
        let g = Bucket { id: x.id, name: own(x.name.as_str()) };
        r.push(g);
        assert(group_views(r@) =~= before.push(Whom { id: g.id, name: g.name@ }));
        k = k + 1;
    }
    assert(group_views(r@) =~= arranged(all, ranks(keys@))) by {
        assert forall|j: int| 0 <= j < r@.len() implies group_views(r@)[j] == arranged(all, ranks(keys@))[j] by {
            assert(as_ints(order@)[j] == order@[j] as int);
        }
    }
    r
}

fn order_groups(v: &Vec<Bucket>) -> (r: Vec<Bucket>)
    ensures
        group_views(r@) == in_order(group_views(v@)),
{
    let ghost all = group_views(v@);
    let mut keys: Vec<Key> = Vec::new();
    let mut i: usize = 0;
    while i < v.len()
        invariant
            i <= v.len(),
            all == group_views(v@),
            keys@.len() == i,
            forall|k: int| 0 <= k < i ==> (#[trigger] keys@[k])@ == id_ranks(all)[k],
        decreases v.len() - i,
    {
        let key = match v[i].id {
            Some(id) => Key { first: 1, second: id as i128, text: String::new() },
            None => Key { first: 0, second: 0, text: String::new() },
        };
        assert(key@ == id_ranks(all)[i as int]);
        keys.push(key);
        i = i + 1;
    }
    assert(ranks(keys@) =~= id_ranks(all));
    let by_id = arrange(v, &keys);
    let ghost mid = group_views(by_id@);
    let mut keys: Vec<Key> = Vec::new();
    let mut i: usize = 0;
    while i < by_id.len()
        invariant
            i <= by_id.len(),
            mid == group_views(by_id@),
            keys@.len() == i,
            forall|k: int| 0 <= k < i ==> (#[trigger] keys@[k])@ == name_ranks(mid)[k],
        decreases by_id.len() - i,
    {
        let key = Key { first: 0, second: 0, text: own(by_id[i].name.as_str()) };
        assert(key@ == name_ranks(mid)[i as int]);
        keys.push(key);
        i = i + 1;
    }
    assert(ranks(keys@) =~= name_ranks(mid));
    arrange(&by_id, &keys)
}

proof fn lemma_paid_failed(
    s: Spending,
    accounts: Seq<Account>,
    entries: Seq<JournalEntry>,
    v: Seq<Whom>,
    zero: Amount,
    n: nat,
    m: nat,
)
    requires
        n <= m,
        paid_to(s, accounts, entries, v, zero, n) is Err,
    ensures
        paid_to(s, accounts, entries, v, zero, m) == paid_to(s, accounts, entries, v, zero, n),
    decreases m - n,
{
    if n < m {
        lemma_paid_failed(s, accounts, entries, v, zero, n, (m - 1) as nat);
    }
}

fn sum_groups(f: &Filter<'_>, accounts: &[Account], entries: &[JournalEntry], groups: &Vec<Bucket>, zero: Money) -> (r: Result<
    Vec<ExpenseRow>,
>)
    ensures
        match r {
            Ok(x) => paid_to(f.spending(), accounts@, entries@, group_views(groups@), zero@, groups@.len()) == Ok::<Seq<Paid>, Refusal>(
                paid(x@),
            ),
            Err(e) => paid_to(f.spending(), accounts@, entries@, group_views(groups@), zero@, groups@.len()) == Err::<
                Seq<Paid>,
                Refusal,
            >(e@),
        },
{
    let ghost all = group_views(groups@);
    let mut rows: Vec<ExpenseRow> = Vec::new();
    let mut i: usize = 0;
    assert(paid(rows@) =~= Seq::<Paid>::empty());
    while i < groups.len()
        invariant
            i <= groups.len(),
            all == group_views(groups@),
            paid_to(f.spending(), accounts@, entries@, all, zero@, i as nat) == Ok::<Seq<Paid>, Refusal>(paid(rows@)),
        decreases groups.len() - i,
    {
        let g = &groups[i];
        assert(all[i as int] == (Whom { id: g.id, name: g.name@ }));
        let part = Part::Payee(g.id, g.name.as_str());
        match sum_expenses(f, &part, accounts, entries) {
            Some(m) => {
                let ghost before = paid(rows@);
                let row = ExpenseRow { payee_id: g.id, name: own(g.name.as_str()), amount: zero.with_count(m) };
                rows.push(row);
                assert(paid(rows@) =~= before.push(
                    Paid { whom: Whom { id: row.payee_id, name: row.name@ }, amount: row.amount@ },
                ));
            },
            None => {
                proof {
                    lemma_paid_failed(f.spending(), accounts@, entries@, all, zero@, (i + 1) as nat, all.len());
                }
                return Err(invalid("expense total is out of range"));
            },
        }
        i = i + 1;
    }
    Ok(rows)
}

/// Expenses by payee, or by booked name where there is none.
pub fn expenses(
    entities: &[Entity],
    commodities: &[Commodity],
    accounts: &[Account],
    entries: &[JournalEntry],
    entity: i64,
    from: Option<Date>,
    to: Option<Date>,
    tags: &Option<Vec<(String, String)>>,
) -> (r: Result<ExpenseReport>)
    ensures
        match classes_report(entities@, commodities@, accounts@, entries@, entity, from, to, tags_of(*tags)) {
            Err(f) => r matches Err(e) && e@ == f,
            Ok((_, total, tag)) => {
                let s = Spending { entity_id: entity, from, to, tag };
                let v = in_order(all_whom(s, accounts@, entries@, entries@.len()));
                let want = paid_to(s, accounts@, entries@, v, with_minor(total, 0), v.len());
                match r {
                    Ok(x) => want == Ok::<Seq<Paid>, Refusal>(paid(x.rows@)) && x.total@ == total,
                    Err(e) => want == Err::<Seq<Paid>, Refusal>(e@),
                }
            },
        },
{
    let base = match expenses_by_class(entities, commodities, accounts, entries, entity, from, to, tags) {
        Ok(b) => b,
        Err(e) => {
            return Err(e);
        },
    };
    let tag = base.tag;
    let f = Filter { entity_id: entity, from, to, tag: &tag };
    let found = find_groups(&f, accounts, entries);
    let groups = order_groups(&found);
    assert(group_views(groups@).len() == groups@.len());
    match sum_groups(&f, accounts, entries, &groups, base.total.with_count(0)) {
        Ok(rows) => Ok(ExpenseReport { rows, total: base.total }),
        Err(e) => Err(e),
    }
}

/// Where two payees may be meant, a text stays unresolved.
pub proof fn law_ambiguous_stays_unresolved(payees: Seq<Payee>, text: Seq<char>, i: int, j: int)
    requires
        0 <= i < j < payees.len(),
        may_mean(payees[i], text),
        may_mean(payees[j], text),
    ensures
        resolved(payees, text) is None,
{
    lemma_meant(payees, text, payees.len(), i);
    lemma_meant(payees, text, payees.len(), j);
    let m = meant(payees, text, payees.len());
    assert(m.contains(i) && m.contains(j));
    if m.len() == 1 {
        assert(m[0] == i && m[0] == j);
    }
}

proof fn lemma_meant(payees: Seq<Payee>, text: Seq<char>, n: nat, i: int)
    requires
        0 <= i < n <= payees.len(),
        may_mean(payees[i], text),
    ensures
        meant(payees, text, n).contains(i),
    decreases n,
{
    let m = meant(payees, text, n);
    if i == n - 1 {
        assert(m[m.len() - 1] == i);
    } else {
        lemma_meant(payees, text, (n - 1) as nat, i);
        let r = meant(payees, text, (n - 1) as nat);
        let k = choose|k: int| 0 <= k < r.len() && r[k] == i;
        assert(m[k] == i);
    }
}

/// A name is compared by its words: the white space around them, and how much of which kind stands
/// between them, does not count.
pub proof fn law_normalize_words(a: Seq<char>, v: Seq<char>, w: Seq<char>, b: Seq<char>)
    requires
        all_white(v),
        all_white(w),
    ensures
        normal_text(v + a) == normal_text(a),
        normal_text(a + w) == normal_text(a),
        v.len() > 0 && w.len() > 0 ==> normal_text(a + v + b) == normal_text(a + w + b),
{
    law_words_spacing(a, v, w, b);
}

/// A name that is normalized stays as it is: for an ASCII name, and for any other whose form is left
/// by spacing and lower-casing it once more. An ASCII name has no white space around it, single
/// spaces between its words and no other white space.
pub proof fn law_normalize_settles(s: Seq<char>)
    requires
        vstd::utf8::is_ascii_chars(s) || (single_spaced(normal_text(s)) == normal_text(s) && lowercase_of(normal_text(s)) == normal_text(s)),
    ensures
        normal_text(normal_text(s)) == normal_text(s),
        vstd::utf8::is_ascii_chars(s) ==> tidy(normal_text(s)),
{
    if vstd::utf8::is_ascii_chars(s) {
        let t = single_spaced(s);
        lemma_spaced_ascii(s);
        lemma_lowered_again(t);
        law_single_spaced(s);
        lemma_spaced_lowered(t);
        law_single_spaced_tidy(s);
        lemma_lowered_tidy(t);
    }
}

} // verus!
