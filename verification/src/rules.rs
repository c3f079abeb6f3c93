//! Bank rules: patterns on statement lines that draft journal entries.

use vstd::prelude::*;

use crate::accounts::{find_by_role, get_account, place_of, role_place};
use crate::budgets::text_of;
use crate::capture::{balances, is_valued, split_refusal, split_value, value_split};
use crate::decimal::{added, decimal_text, lemma_same_value, less, normal, same_value, value, Decimal, Num};
use crate::error::{invalid, Refusal, Result};
use crate::model::{meta_at, meta_copy, meta_get, Account, EntryInput, EntryStatus, JournalEntry, MetaEntry, Posting, PostingInput, Rule, RuleCondition, StatementLine};
use crate::money::{decimal_in, in_major, lemma_normal, number_text, parse, plain, Amount, Money};
use crate::order::as_ints;
use crate::payees::{candidate_places, chosen, explicit, meant, name_seen, resolve, resolved, seen_name, Payee};
use crate::refunds::same_money;
use crate::splits::ResolvedLeg;
use crate::text::{blank, cat, cat4, contains, debug_text, holds, int_string, int_text, is_blank, join, joined, lowercase_of, own, quoted, same, starts, starts_with, texts, to_lowercase, trim, trim_left, trim_left_chars, trimmed};

verus! {

/// Whether a pattern, in any case of letters, is found in a text; a pattern that cannot be read
/// is found nowhere.
pub uninterp spec fn pattern_found(pattern: Seq<char>, text: Seq<char>) -> bool;

/// `RegexBuilder` of regex: builds the pattern for any case of letters and looks for it in the text
/// with `Regex::is_match`. What a pattern means is left unsaid.
#[verifier::external_body]
fn finds(pattern: &str, text: &str) -> (r: bool)
    ensures
        r == pattern_found(pattern@, text@),
{
    regex::RegexBuilder::new(pattern).case_insensitive(true).build().map(|re| re.is_match(text)).unwrap_or(false)
}

/// Why a pattern cannot be read, where it cannot.
pub uninterp spec fn pattern_problem(pattern: Seq<char>) -> Option<Seq<char>>;

/// `Regex::new` of regex: nothing for a pattern that it reads, else the text of its error. Which
/// patterns those are is left unsaid.
#[verifier::external_body]
fn problem_with(pattern: &str) -> (r: Option<String>)
    ensures
        match r {
            Some(e) => pattern_problem(pattern@) == Some(e@),
            None => pattern_problem(pattern@) is None,
        },
{
    regex::Regex::new(pattern).err().map(|e| e.to_string())
}

pub open spec fn known_field(s: Seq<char>) -> bool {
    s == "description"@ || s == "payee"@ || s == "reference"@ || s == "amount"@ || s == "account"@
}

pub open spec fn known_op(s: Seq<char>) -> bool {
    s == "contains"@ || s == "equals"@ || s == "starts_with"@ || s == "regex"@ || s == "gt"@ || s == "lt"@ || s == "eq"@
}

pub open spec fn condition_refusal(c: RuleCondition) -> Option<Refusal> {
    if !known_field(c.field@) {
        Some(Refusal::Invalid("unknown condition field "@ + debug_text(c.field@)))
    } else if !known_op(c.op@) {
        Some(Refusal::Invalid("unknown condition op "@ + debug_text(c.op@)))
    } else if c.op@ == "regex"@ && pattern_problem(c.value@) is Some {
        Some(Refusal::Invalid("bad regex: "@ + pattern_problem(c.value@)->0))
    } else {
        None
    }
}

/// The refusal of the first bad one among the first `n` conditions.
pub open spec fn conditions_refusal(v: Seq<RuleCondition>, n: nat) -> Option<Refusal>
    decreases n,
{
    if n == 0 {
        None
    } else {
        match conditions_refusal(v, (n - 1) as nat) {
            Some(e) => Some(e),
            None => condition_refusal(v[n - 1]),
        }
    }
}

/// Why a rule is refused. `template_entity` is the entity of its template.
pub open spec fn rule_refusal(rule: Rule, accounts: Seq<Account>, template_entity: i64) -> Option<Refusal> {
    if blank(rule.name@) {
        Some(Refusal::Invalid("rule name is required"@))
    } else if rule.conditions@.len() == 0 {
        Some(Refusal::Invalid("a rule needs at least one condition"@))
    } else {
        match conditions_refusal(rule.conditions@, rule.conditions@.len()) {
            Some(e) => Some(e),
            None => if rule.account_id is None && rule.template_id is None {
                Some(Refusal::Invalid("a rule posts to an account or applies a template"@))
            } else {
                match contra_refusal(rule, accounts) {
                    Some(e) => Some(e),
                    None => if rule.template_id is Some && template_entity != rule.entity_id {
                        Some(Refusal::Invalid("the template belongs to another entity"@))
                    } else {
                        None
                    },
                }
            },
        }
    }
}

pub open spec fn contra_refusal(rule: Rule, accounts: Seq<Account>) -> Option<Refusal> {
    match rule.account_id {
        None => None,
        Some(id) => match place_of(accounts, id) {
            None => Some(Refusal::NotFound("account "@ + int_text(id as int))),
            Some(i) => if accounts[i].entity_id != rule.entity_id {
                Some(Refusal::Invalid("the contra account belongs to another entity"@))
            } else if accounts[i].placeholder {
                Some(Refusal::Invalid("the contra account cannot be a placeholder"@))
            } else {
                None
            },
        },
    }
}

fn check_condition(c: &RuleCondition) -> (r: Result<()>)
    ensures
        match r {
            Ok(_) => condition_refusal(*c) is None,
            Err(e) => condition_refusal(*c) == Some(e@),
        },
{
    let (field, op) = (c.field.as_str(), c.op.as_str());
    if !(same(field, "description") || same(field, "payee") || same(field, "reference") || same(field, "amount") || same(field, "account")) {
        return Err(invalid(cat("unknown condition field ", quoted(field).as_str()).as_str()));
    }
    if !(same(op, "contains") || same(op, "equals") || same(op, "starts_with") || same(op, "regex") || same(op, "gt") || same(op, "lt")
        || same(op, "eq")) {
        return Err(invalid(cat("unknown condition op ", quoted(op).as_str()).as_str()));
    }
    if same(op, "regex") {
        if let Some(e) = problem_with(c.value.as_str()) {
            return Err(invalid(cat("bad regex: ", e.as_str()).as_str()));
        }
    }
    Ok(())
}

proof fn lemma_conditions_failed(v: Seq<RuleCondition>, n: nat, m: nat)
    requires
        n <= m,
        conditions_refusal(v, n) is Some,
    ensures
        conditions_refusal(v, m) == conditions_refusal(v, n),
    decreases m - n,
{
    if n < m {
        lemma_conditions_failed(v, n, (m - 1) as nat);
    }
}

fn check_conditions(v: &Vec<RuleCondition>) -> (r: Result<()>)
    ensures
        match r {
            Ok(_) => conditions_refusal(v@, v@.len()) is None,
            Err(e) => conditions_refusal(v@, v@.len()) == Some(e@),
        },
{
    let mut i: usize = 0;
    while i < v.len()
        invariant
            i <= v.len(),
            conditions_refusal(v@, i as nat) is None,
        decreases v.len() - i,
    {
        if let Err(e) = check_condition(&v[i]) {
            proof {
                lemma_conditions_failed(v@, (i + 1) as nat, v@.len());
            }
            return Err(e);
        }
        i = i + 1;
    }
    Ok(())
}

/// Checks a rule before it is stored.
pub fn save_rule(rule: &Rule, accounts: &[Account], template_entity: i64) -> (r: Result<()>)
    ensures
        match r {
            Ok(_) => rule_refusal(*rule, accounts@, template_entity) is None,
            Err(e) => rule_refusal(*rule, accounts@, template_entity) == Some(e@),
        },
{
    if is_blank(rule.name.as_str()) {
        return Err(invalid("rule name is required"));
    }
    if rule.conditions.len() == 0 {
        return Err(invalid("a rule needs at least one condition"));
    }
    if let Err(e) = check_conditions(&rule.conditions) {
        return Err(e);
    }
    if rule.account_id.is_none() && rule.template_id.is_none() {
        return Err(invalid("a rule posts to an account or applies a template"));
    }
    if let Some(id) = rule.account_id {
        let a = match get_account(accounts, id) {
            Ok(a) => a,
            Err(e) => {
                return Err(e);
            },
        };
        if a.entity_id != rule.entity_id {
            return Err(invalid("the contra account belongs to another entity"));
        }
        if a.placeholder {
            return Err(invalid("the contra account cannot be a placeholder"));
        }
    }
    if rule.template_id.is_some() && template_entity != rule.entity_id {
        return Err(invalid("the template belongs to another entity"));
    }
    Ok(())
}

/// What a line says in a field.
pub open spec fn field_text(sl: StatementLine, field: Seq<char>, payee: Seq<char>) -> Seq<char> {
    if field == "description"@ {
        sl.description@
    } else if field == "payee"@ {
        payee
    } else if field == "reference"@ {
        sl.reference@
    } else if field == "amount"@ {
        match sl.amount {
            Some(a) => decimal_text(normal((a@.minor, a@.precision))),
            None => Seq::empty(),
        }
    } else if field == "account"@ {
        match sl.account_id {
            Some(a) => int_text(a as int),
            None => Seq::empty(),
        }
    } else {
        Seq::empty()
    }
}

pub fn field_value(sl: &StatementLine, field: &str, payee: &str) -> (r: String)
    ensures
        r@ == field_text(*sl, field@, payee@),
{
    if same(field, "description") {
        own(sl.description.as_str())
    } else if same(field, "payee") {
        own(payee)
    } else if same(field, "reference") {
        own(sl.reference.as_str())
    } else if same(field, "amount") {
        match sl.amount {
            Some(a) => a.major().text(),
            None => String::new(),
        }
    } else if same(field, "account") {
        match sl.account_id {
            Some(a) => int_string(a),
            None => String::new(),
        }
    } else {
        String::new()
    }
}

/// The amount of a line in major units, zero where it has none.
pub open spec fn line_amount(sl: StatementLine) -> Num {
    match sl.amount {
        Some(a) => normal((a@.minor, a@.precision)),
        None => (0, 0),
    }
}

/// The number that a condition names, zero where it names none.
pub open spec fn condition_amount(value: Seq<char>) -> Num {
    match decimal_in(number_text(value)) {
        Some(n) => if number_text(value).len() > 0 {
            n
        } else {
            (0, 0)
        },
        None => (0, 0),
    }
}

/// Whether a line meets a condition.
pub open spec fn meets(c: RuleCondition, sl: StatementLine, payee: Seq<char>) -> bool {
    let v = field_text(sl, c.field@, payee);
    let (vl, cl) = (lowercase_of(v), lowercase_of(c.value@));
    if c.op@ == "contains"@ {
        holds(vl, trimmed(cl))
    } else if c.op@ == "equals"@ {
        trimmed(vl) == trimmed(cl)
    } else if c.op@ == "starts_with"@ {
        starts(trim_left(vl), trimmed(cl))
    } else if c.op@ == "regex"@ {
        pattern_found(c.value@, v)
    } else if c.op@ == "gt"@ {
        less(condition_amount(c.value@), line_amount(sl))
    } else if c.op@ == "lt"@ {
        less(line_amount(sl), condition_amount(c.value@))
    } else if c.op@ == "eq"@ {
        same_value(line_amount(sl), condition_amount(c.value@))
    } else {
        false
    }
}

/// Whether a rule applies to a line: it is enabled and the line meets all its conditions.
pub open spec fn applies(rule: Rule, sl: StatementLine, payee: Seq<char>) -> bool {
    rule.enabled && forall|i: int| 0 <= i < rule.conditions@.len() ==> meets(#[trigger] rule.conditions@[i], sl, payee)
}

fn is_met(c: &RuleCondition, sl: &StatementLine, payee: &str) -> (r: bool)
    ensures
        r == meets(*c, *sl, payee@),
{
    let op = c.op.as_str();
    let v = field_value(sl, c.field.as_str(), payee);
    let vl = to_lowercase(v.as_str());
    let cl = to_lowercase(c.value.as_str());
    let want = trim(cl.as_str());
    if same(op, "contains") {
        contains(vl.as_str(), want.as_str())
    } else if same(op, "equals") {
        same(trim(vl.as_str()).as_str(), want.as_str())
    } else if same(op, "starts_with") {
        starts_with(trim_start(vl.as_str()).as_str(), want.as_str())
    } else if same(op, "regex") {
        finds(c.value.as_str(), v.as_str())
    } else if same(op, "gt") || same(op, "lt") || same(op, "eq") {
        let a = match sl.amount {
            Some(m) => m.major(),
            None => Decimal::zero(),
        };
        let b = match parse(c.value.as_str()) {
            Ok(d) => d,
            Err(_) => Decimal::zero(),
        };
        if same(op, "gt") {
            b.lt(a)
        } else if same(op, "lt") {
            a.lt(b)
        } else {
            a.same(b)
        }
    } else {
        false
    }
}

fn trim_start(s: &str) -> (r: String)
    ensures
        r@ == trim_left(s@),
{
    let cs = crate::text::chars(s);
    crate::text::string(&trim_left_chars(&cs))
}

pub fn matches_with_payee(rule: &Rule, sl: &StatementLine, payee: &str) -> (r: bool)
    ensures
        r == applies(*rule, *sl, payee@),
{
    if !rule.enabled {
        return false;
    }
    let mut i: usize = 0;
    while i < rule.conditions.len()
        invariant
            i <= rule.conditions.len(),
            forall|k: int| 0 <= k < i ==> meets(#[trigger] rule.conditions@[k], *sl, payee@),
        decreases rule.conditions.len() - i,
    {
        if !is_met(&rule.conditions[i], sl, payee) {
            return false;
        }
        i = i + 1;
    }
    true
}

pub fn matches(rule: &Rule, sl: &StatementLine) -> (r: bool)
    ensures
        r == applies(*rule, *sl, sl.description@),
{
    matches_with_payee(rule, sl, sl.description.as_str())
}

/// The place of the first rule from `from` on that applies.
pub open spec fn first_applying(rules: Seq<Rule>, sl: StatementLine, payee: Seq<char>, from: int) -> Option<int>
    decreases rules.len() - from,
{
    if from < 0 || from >= rules.len() {
        None
    } else if applies(rules[from], sl, payee) {
        Some(from)
    } else {
        first_applying(rules, sl, payee, from + 1)
    }
}

fn find_applying(rules: &[Rule], sl: &StatementLine, payee: &str) -> (r: Option<usize>)
    ensures
        match r {
            Some(i) => i < rules@.len() && first_applying(rules@, *sl, payee@, 0) == Some(i as int) && applies(
                rules@[i as int],
                *sl,
                payee@,
            ),
            None => first_applying(rules@, *sl, payee@, 0) is None,
        },
{
    let mut i: usize = 0;
    while i < rules.len()
        invariant
            i <= rules.len(),
            first_applying(rules@, *sl, payee@, 0) == first_applying(rules@, *sl, payee@, i as int),
        decreases rules.len() - i,
    {
        if matches_with_payee(&rules[i], sl, payee) {
            return Some(i);
        }
        i = i + 1;
    }
    None
}

pub fn first_match_with_payee<'a>(rules: &'a [Rule], sl: &StatementLine, payee: &str) -> (r: Option<&'a Rule>)
    ensures
        match r {
            Some(x) => first_applying(rules@, *sl, payee@, 0) is Some && *x == rules@[first_applying(rules@, *sl, payee@, 0)->0] && applies(
                *x,
                *sl,
                payee@,
            ),
            None => first_applying(rules@, *sl, payee@, 0) is None,
        },
{
    match find_applying(rules, sl, payee) {
        Some(i) => Some(&rules[i]),
        None => None,
    }
}

pub fn first_match<'a>(rules: &'a [Rule], sl: &StatementLine) -> (r: Option<&'a Rule>)
    ensures
        match r {
            Some(x) => {
                &&& first_applying(rules@, *sl, sl.description@, 0) is Some
                &&& *x == rules@[first_applying(rules@, *sl, sl.description@, 0)->0]
                &&& applies(*x, *sl, sl.description@)
            },
            None => first_applying(rules@, *sl, sl.description@, 0) is None,
        },
{
    first_match_with_payee(rules, sl, sl.description.as_str())
}

/// The first rule wins: none of the rules before it applies to the line.
pub proof fn law_first_rule_wins(rules: Seq<Rule>, sl: StatementLine, payee: Seq<char>, from: int)
    requires
        0 <= from <= rules.len(),
    ensures
        match first_applying(rules, sl, payee, from) {
            Some(i) => from <= i < rules.len() && applies(rules[i], sl, payee) && forall|k: int|
                from <= k < i ==> !applies(#[trigger] rules[k], sl, payee),
            None => forall|k: int| from <= k < rules.len() ==> !applies(#[trigger] rules[k], sl, payee),
        },
    decreases rules.len() - from,
{
    if from < rules.len() && !applies(rules[from], sl, payee) {
        law_first_rule_wins(rules, sl, payee, from + 1);
    }
}

/// The reference that a new posting can take. Voided history retains its original one; the
/// statement line remains the authoritative bank reference when it cannot be reused.
pub open spec fn usable_reference(reference: Seq<char>, held_by_void: bool) -> Option<Seq<char>> {
    if reference.len() == 0 || held_by_void {
        None
    } else {
        Some(reference)
    }
}

pub fn posting_reference(reference: &str, held_by_void: bool) -> (r: Option<String>)
    ensures
        text_of(r) == usable_reference(reference@, held_by_void),
{
    proof {
        reveal_strlit("");
        assert(reference@.len() == 0 ==> reference@ =~= ""@);
    }
    if same(reference, "") || held_by_void {
        None
    } else {
        Some(own(reference))
    }
}

/// Whether `x` is the posting on the bank account that a statement line evidences.
pub open spec fn is_bank_posting(x: PostingInput, account: Account, sl: StatementLine, amount: Amount, held_by_void: bool) -> bool {
    &&& x.account_id == account.id
    &&& x.quantity@ == normal((amount.minor, amount.precision))
    &&& x.amount is None && x.memo@.len() == 0 && !x.balance && x.value_in is None
    &&& text_of(x.external_id) == usable_reference(sl.reference@, held_by_void)
    &&& text_of(x.fingerprint) == Some(sl.fingerprint@)
    &&& match meta_at(sl.raw@, "_original"@) {
        None => x.metadata@.len() == 0,
        Some(v) => x.metadata@.len() == 1 && x.metadata@[0].key@ == "original"@ && x.metadata@[0].value == v,
    }
}

fn bank_posting(account: &Account, sl: &StatementLine, amount: Money, held_by_void: bool) -> (r: PostingInput)
    ensures
        is_bank_posting(r, *account, *sl, amount@, held_by_void),
{
    let plain = PostingInput::new(account.id, amount.major());
    let bank = plain.external(posting_reference(sl.reference.as_str(), held_by_void), Some(own(sl.fingerprint.as_str())));
    match meta_get(&sl.raw, "_original") {
        Some(v) => {
            assert(crate::model::meta_without(bank.metadata@, "original"@) =~= Seq::<MetaEntry>::empty());
            let r = bank.meta("original", v.copy());
            assert(r.metadata@.len() == 1) by {
                assert(r.metadata@.drop_last().len() == 0);
            }
            r
        },
        None => bank,
    }
}

/// What an unmatched line becomes.
#[derive(Debug)]
pub enum DraftPlan {
    /// The rule's template is applied; its line on the bank account takes the statement amount.
    Template { template_id: i64, payee: String },
    Entry(EntryInput),
}

#[derive(Debug)]
pub struct Draft {
    pub plan: DraftPlan,
    /// The place of the rule that applies.
    pub rule: Option<usize>,
    /// The payee that the entry is linked to.
    pub payee_id: Option<i64>,
}

/// The name under which an entry of a line is booked: that of the rule, or the line's text.
pub open spec fn drafted_payee(rule: Option<Rule>, sl: StatementLine) -> Seq<char> {
    match rule {
        Some(r) => if r.payee@.len() == 0 {
            sl.description@
        } else {
            r.payee@
        },
        None => sl.description@,
    }
}

/// The payee that an entry of a line is linked to: the one that the rule names, or the one that the
/// line means.
pub open spec fn drafted_link(rule: Option<Rule>, payees: Seq<Payee>, sl: StatementLine) -> Option<i64> {
    let place = if rule is Some && !blank(rule->0.payee@) {
        chosen(payees, rule->0.payee@)
    } else {
        resolved(payees, sl.description@)
    };
    match place {
        Some(i) => Some(payees[i].id),
        None => None,
    }
}

/// Whether `plan` is what a line becomes with a rule, or in the suspense account without one.
pub open spec fn drafts(
    plan: DraftPlan,
    account: Account,
    accounts: Seq<Account>,
    sl: StatementLine,
    rule: Option<Rule>,
    held_by_void: bool,
) -> bool {
    let payee = drafted_payee(rule, sl);
    if rule is Some && rule->0.template_id is Some {
        plan matches DraftPlan::Template { template_id, payee: p } && template_id == rule->0.template_id->0 && p@ == payee
    } else {
        plan matches DraftPlan::Entry(x) && {
            &&& x.entity_id == account.entity_id && x.date == sl.date->0
            &&& x.payee@ == payee && x.description@ == sl.description@ && x.notes@.len() == 0
            &&& x.status == (if rule is Some {
                EntryStatus::Posted
            } else {
                EntryStatus::Draft
            })
            &&& x.origin@ == (if rule is Some {
                "rule"@
            } else {
                "import"@
            })
            &&& x.template_id is None && x.template_version is None && x.counterpart_id is None && x.reverses_id is None && !x.absorb_fx
            &&& x.postings@.len() == 2
            &&& is_bank_posting(x.postings@[0], account, sl, sl.amount->0@, held_by_void)
            &&& balances(
                x.postings@[1],
                if rule is Some {
                    rule->0.account_id->0
                } else {
                    accounts[role_place(accounts, account.entity_id, "suspense"@, 0)->0].id
                },
                Seq::empty(),
            )
        }
    }
}

/// The rule that applies to a line as payees stand.
pub open spec fn line_rule(rules: Seq<Rule>, payees: Seq<Payee>, sl: StatementLine) -> Option<Rule> {
    match first_applying(rules, sl, seen_name(payees, sl), 0) {
        Some(i) => Some(rules[i]),
        None => None,
    }
}

pub fn resolved_rule(rules: &[Rule], payees: &[Payee], sl: &StatementLine) -> (r: Option<usize>)
    ensures
        match r {
            Some(i) => i < rules@.len() && first_applying(rules@, *sl, seen_name(payees@, *sl), 0) == Some(i as int) && line_rule(
                rules@,
                payees@,
                *sl,
            ) == Some(rules@[i as int]),
            None => line_rule(rules@, payees@, *sl) is None,
        },
{
    let name = name_seen(payees, sl);
    find_applying(rules, sl, name.as_str())
}

fn payee_text(rule: Option<&Rule>, sl: &StatementLine) -> (r: String)
    ensures
        r@ == drafted_payee(
            match rule {
                Some(x) => Some(*x),
                None => None,
            },
            *sl,
        ),
{
    match rule {
        Some(r) => {
            proof {
                reveal_strlit("");
                assert(r.payee@.len() == 0 ==> r.payee@ =~= ""@);
            }
            if same(r.payee.as_str(), "") {
                own(sl.description.as_str())
            } else {
                own(r.payee.as_str())
            }
        },
        None => own(sl.description.as_str()),
    }
}

fn payee_link(rule: Option<&Rule>, payees: &[Payee], sl: &StatementLine) -> (r: Option<i64>)
    ensures
        r == drafted_link(
            match rule {
                Some(x) => Some(*x),
                None => None,
            },
            payees@,
            *sl,
        ),
{
    let place = match rule {
        Some(r) => if is_blank(r.payee.as_str()) {
            resolve(payees, sl.description.as_str())
        } else {
            explicit(payees, r.payee.as_str())
        },
        None => resolve(payees, sl.description.as_str()),
    };
    match place {
        Some(i) => Some(payees[i].id),
        None => None,
    }
}

/// Drafts (or posts) an entry for an unmatched line: the bank posting plus the contra posting from
/// the first matching rule, or suspense when no rule matches. The rules and payees are those of the
/// account's entity.
pub fn draft_from_line(
    account: &Account,
    accounts: &[Account],
    sl: &StatementLine,
    rules: &[Rule],
    payees: &[Payee],
    held_by_void: bool,
) -> (r: Result<Draft>)
    requires
        forall|i: int| 0 <= i < rules@.len() ==> (#[trigger] rules@[i]).account_id is Some || rules@[i].template_id is Some,
    ensures
        match r {
            Ok(d) => {
                &&& sl.date is Some && sl.amount is Some
                &&& match d.rule {
                    Some(i) => i < rules@.len() && line_rule(rules@, payees@, *sl) == Some(rules@[i as int]),
                    None => line_rule(rules@, payees@, *sl) is None && role_place(accounts@, account.entity_id, "suspense"@, 0) is Some,
                }
                &&& drafts(d.plan, *account, accounts@, *sl, line_rule(rules@, payees@, *sl), held_by_void)
                &&& d.payee_id == drafted_link(line_rule(rules@, payees@, *sl), payees@, *sl)
            },
            Err(e) => if sl.date is None || sl.amount is None {
                e.invalid("line has no date or amount"@)
            } else {
                &&& line_rule(rules@, payees@, *sl) is None
                &&& role_place(accounts@, account.entity_id, "suspense"@, 0) is None
                &&& e.not_found("system account "@ + "suspense"@ + " for entity "@ + int_text(account.entity_id as int))
            },
        },
{
    let (date, amount) = match (sl.date, sl.amount) {
        (Some(d), Some(m)) => (d, m),
        _ => {
            return Err(invalid("line has no date or amount"));
        },
    };
    let place = resolved_rule(rules, payees, sl);
    let rule: Option<&Rule> = match place {
        Some(i) => Some(&rules[i]),
        None => None,
    };
    let payee_id = payee_link(rule, payees, sl);
    let payee = payee_text(rule, sl);
    let contra: i64 = match rule {
        Some(r) => {
            if let Some(template_id) = r.template_id {
                return Ok(Draft { plan: DraftPlan::Template { template_id, payee }, rule: place, payee_id });
            }
            match r.account_id {
                Some(id) => id,
                None => 0,
            }
        },
        None => match find_by_role(accounts, account.entity_id, "suspense") {
            Ok(a) => a.id,
            Err(e) => {
                return Err(e);
            },
        },
    };
    let mut postings: Vec<PostingInput> = Vec::new();
    postings.push(bank_posting(account, sl, amount, held_by_void));
    postings.push(PostingInput::balancing(contra));
    let mut input = EntryInput::new(account.entity_id, date);
    input.payee = payee;
    input.description = own(sl.description.as_str());
    input.status = if rule.is_some() {
        EntryStatus::Posted
    } else {
        EntryStatus::Draft
    };
    input.origin = if rule.is_some() {
        own("rule")
    } else {
        own("import")
    };
    input.postings = postings;
    Ok(Draft { plan: DraftPlan::Entry(input), rule: place, payee_id })
}

/// The place of the first posting from `from` on that keeps the account and the amount of a line.
pub open spec fn kept_place(v: Seq<Posting>, account_id: i64, amount: Amount, from: int) -> Option<int>
    decreases v.len() - from,
{
    if from < 0 || from >= v.len() {
        None
    } else if v[from].account_id == account_id && v[from].quantity@ == amount {
        Some(from)
    } else {
        kept_place(v, account_id, amount, from + 1)
    }
}

/// The posting that a line is evidence of.
pub fn evidenced_posting(v: &Vec<Posting>, account_id: i64, amount: Money) -> (r: Result<i64>)
    ensures
        match r {
            Ok(id) => kept_place(v@, account_id, amount@, 0) is Some && id == v@[kept_place(v@, account_id, amount@, 0)->0].id,
            Err(e) => kept_place(v@, account_id, amount@, 0) is None && e.invalid(
                "the rule must preserve the statement account and amount"@,
            ),
        },
{
    let mut i: usize = 0;
    while i < v.len()
        invariant
            i <= v.len(),
            kept_place(v@, account_id, amount@, 0) == kept_place(v@, account_id, amount@, i as int),
        decreases v.len() - i,
    {
        if v[i].account_id == account_id && same_money(v[i].quantity, amount) {
            return Ok(v[i].id);
        }
        i = i + 1;
    }
    Err(invalid("the rule must preserve the statement account and amount"))
}

/// The payees that a line may mean, as a note names them.
pub open spec fn payee_labels(payees: Seq<Payee>, places: Seq<int>) -> Seq<Seq<char>> {
    places.map_values(|i: int| "#"@ + int_text(payees[i].id as int) + " "@ + payees[i].name@)
}

/// The note on a drafted line: the rule, and the payees that it may mean where that stays open.
pub open spec fn draft_note(rule: Option<Rule>, linked: bool, payees: Seq<Payee>, sl: StatementLine) -> Seq<char> {
    let first = match rule {
        Some(r) => "rule: "@ + r.name@,
        None => Seq::empty(),
    };
    let m = meant(payees, sl.description@, payees.len());
    if !linked && m.len() > 1 && (rule is None || blank(rule->0.payee@)) {
        first + (if rule is Some {
            "; "@
        } else {
            Seq::empty()
        }) + "ambiguous payee: "@ + joined(payee_labels(payees, m), ", "@)
    } else {
        first
    }
}

fn label_payees(payees: &[Payee], places: &Vec<usize>) -> (r: Vec<String>)
    requires
        forall|k: int| 0 <= k < places@.len() ==> (#[trigger] places@[k]) < payees@.len(),
    ensures
        texts(r@) == payee_labels(payees@, as_ints(places@)),
{
    let ghost want = payee_labels(payees@, as_ints(places@));
    let mut r: Vec<String> = Vec::new();
    let mut i: usize = 0;
    while i < places.len()
        invariant
            i <= places.len(),
            want == payee_labels(payees@, as_ints(places@)),
            forall|k: int| 0 <= k < places@.len() ==> (#[trigger] places@[k]) < payees@.len(),
            texts(r@) == want.take(i as int),
        decreases places.len() - i,
    {
        let p = &payees[places[i]];
        let ghost before = texts(r@);
        let s = cat4("#", int_string(p.id).as_str(), " ", p.name.as_str());
        r.push(s);
        assert(texts(r@) =~= before.push(s@));
        assert(want[i as int] == s@) by {
            assert(as_ints(places@)[i as int] == places@[i as int] as int);
        }
        assert(want.take(i + 1) =~= want.take(i as int).push(s@));
        i = i + 1;
    }
    assert(texts(r@) =~= want);
    r
}

pub fn note_for_draft(rule: Option<&Rule>, linked: bool, payees: &[Payee], sl: &StatementLine) -> (r: String)
    ensures
        r@ == draft_note(
            match rule {
                Some(x) => Some(*x),
                None => None,
            },
            linked,
            payees@,
            *sl,
        ),
{
    let (first, open) = match rule {
        Some(r) => (cat("rule: ", r.name.as_str()), is_blank(r.payee.as_str())),
        None => (String::new(), true),
    };
    if linked || !open {
        return first;
    }
    let places = candidate_places(payees, sl.description.as_str());
    assert(as_ints(places@).len() == places@.len());
    if places.len() <= 1 {
        return first;
    }
    let labels = join(&label_payees(payees, &places), ", ");
    let sep = if rule.is_some() {
        own("; ")
    } else {
        String::new()
    };
    cat4(first.as_str(), sep.as_str(), "ambiguous payee: ", labels.as_str())
}

/// Whether `x` is how a posting of a suspense draft is drafted again: the bank posting stays, the
/// other side moves to the account of the rule.
pub open spec fn redrafts(p: Posting, account_id: i64, contra: i64, x: PostingInput) -> bool {
    if p.account_id == account_id {
        &&& x.account_id == p.account_id
        &&& x.quantity@ == normal((p.quantity@.minor, p.quantity@.precision))
        &&& x.amount is Some && x.amount->0@ == normal((p.amount@.minor, p.amount@.precision))
        &&& x.memo@ == p.memo@ && x.metadata@ == p.metadata@
        &&& text_of(x.external_id) == text_of(p.external_id) && text_of(x.fingerprint) == text_of(p.fingerprint)
        &&& !x.balance && x.value_in is None
    } else {
        balances(x, contra, Seq::empty())
    }
}

fn redraft_posting(p: &Posting, account_id: i64, contra: i64) -> (r: PostingInput)
    ensures
        redrafts(*p, account_id, contra, r),
{
    if p.account_id != account_id {
        return PostingInput::balancing(contra);
    }
    let mut x = PostingInput::new(p.account_id, p.quantity.major());
    x.amount = Some(p.amount.major());
    x.memo = own(p.memo.as_str());
    x.metadata = meta_copy(&p.metadata);
    x.external_id = copy_text(&p.external_id);
    x.fingerprint = copy_text(&p.fingerprint);
    x
}

fn copy_text(s: &Option<String>) -> (r: Option<String>)
    ensures
        text_of(r) == text_of(*s),
{
    match s {
        Some(t) => Some(own(t.as_str())),
        None => None,
    }
}

/// The entry that a suspense draft becomes with a rule that now matches its line, or nothing where
/// it is no draft or the rule has no account.
pub fn redraft(entry: &JournalEntry, account_id: i64, rule: &Rule) -> (r: Option<EntryInput>)
    ensures
        match r {
            Some(x) => {
                &&& entry.status == EntryStatus::Draft && rule.account_id is Some
                &&& x.entity_id == entry.entity_id && x.date == entry.date
                &&& x.payee@ == (if rule.payee@.len() == 0 {
                    entry.payee@
                } else {
                    rule.payee@
                })
                &&& x.description@ == entry.description@ && x.notes@ == entry.notes@
                &&& x.status == EntryStatus::Posted && x.origin@ == "rule"@
                &&& x.template_id is None && x.template_version is None && x.counterpart_id is None && x.reverses_id is None && !x.absorb_fx
                &&& x.postings@.len() == entry.postings@.len()
                &&& forall|k: int|
                    0 <= k < x.postings@.len() ==> redrafts(entry.postings@[k], account_id, rule.account_id->0, #[trigger] x.postings@[k])
            },
            None => entry.status != EntryStatus::Draft || rule.account_id is None,
        },
{
    if entry.status != EntryStatus::Draft {
        return None;
    }
    let contra = match rule.account_id {
        Some(id) => id,
        None => {
            return None;
        },
    };
    let mut postings: Vec<PostingInput> = Vec::new();
    let mut i: usize = 0;
    while i < entry.postings.len()
        invariant
            i <= entry.postings.len(),
            postings@.len() == i,
            forall|k: int| 0 <= k < i ==> redrafts(entry.postings@[k], account_id, contra, #[trigger] postings@[k]),
        decreases entry.postings.len() - i,
    {
        postings.push(redraft_posting(&entry.postings[i], account_id, contra));
        i = i + 1;
    }
    proof {
        reveal_strlit("");
        assert(rule.payee@.len() == 0 ==> rule.payee@ =~= ""@);
    }
    let mut input = EntryInput::new(entry.entity_id, entry.date);
    input.payee = if same(rule.payee.as_str(), "") {
        own(entry.payee.as_str())
    } else {
        own(rule.payee.as_str())
    };
    input.description = own(entry.description.as_str());
    input.notes = own(entry.notes.as_str());
    input.status = EntryStatus::Posted;
    input.origin = own("rule");
    input.postings = postings;
    Some(input)
}

/// The payee that a redrafted entry is linked to.
pub fn redraft_link(entry: &JournalEntry, rule: &Rule, payees: &[Payee], sl: &StatementLine) -> (r: Option<i64>)
    ensures
        r == (if blank(rule.payee@) && entry.payee_id is Some {
            entry.payee_id
        } else {
            drafted_link(Some(*rule), payees@, *sl)
        }),
{
    if is_blank(rule.payee.as_str()) {
        if let Some(id) = entry.payee_id {
            return Some(id);
        }
    }
    payee_link(Some(rule), payees, sl)
}

/// The splits of a line added up.
pub open spec fn splits_total(splits: Seq<ResolvedLeg>, n: nat) -> Option<Num>
    decreases n,
{
    if n == 0 {
        Some((0, 0))
    } else {
        match splits_total(splits, (n - 1) as nat) {
            Some(t) => added(t, splits[n - 1].quantity@),
            None => None,
        }
    }
}

proof fn lemma_total_failed(splits: Seq<ResolvedLeg>, n: nat, m: nat)
    requires
        n <= m,
        splits_total(splits, n) is None,
    ensures
        splits_total(splits, m) is None,
    decreases m - n,
{
    if n < m {
        lemma_total_failed(splits, n, (m - 1) as nat);
    }
}

fn sum_splits(splits: &[ResolvedLeg]) -> (r: Option<Decimal>)
    ensures
        match r {
            Some(d) => splits_total(splits@, splits@.len()) == Some(d@),
            None => splits_total(splits@, splits@.len()) is None,
        },
{
    let mut total = Decimal::zero();
    let mut i: usize = 0;
    while i < splits.len()
        invariant
            i <= splits.len(),
            splits_total(splits@, i as nat) == Some(total@),
        decreases splits.len() - i,
    {
        match total.checked_add(splits[i].quantity) {
            Some(t) => {
                total = t;
            },
            None => {
                proof {
                    lemma_total_failed(splits@, (i + 1) as nat, splits@.len());
                }
                return None;
            },
        }
        i = i + 1;
    }
    Some(total)
}

/// An amount in major units without its sign.
pub open spec fn size_of(a: Amount) -> Num {
    let n = normal((a.minor, a.precision));
    (if n.0 < 0 {
        -n.0
    } else {
        n.0
    }, n.1)
}

/// Why no entry is made from a line.
pub open spec fn from_line_refusal(
    sl: StatementLine,
    accounts: Seq<Account>,
    contra: Option<i64>,
    splits: Seq<ResolvedLeg>,
) -> Option<Refusal> {
    if sl.status@ == "matched"@ || sl.status@ == "created"@ {
        Some(Refusal::Invalid("this line already evidences an entry"@))
    } else if sl.account_id is None {
        Some(Refusal::Invalid("line has no account"@))
    } else {
        match place_of(accounts, sl.account_id->0) {
            None => Some(Refusal::NotFound("account "@ + int_text(sl.account_id->0 as int))),
            Some(i) => if sl.date is None || sl.amount is None {
                Some(Refusal::Invalid("line has no date or amount"@))
            } else if splits.len() == 0 {
                if contra is None {
                    Some(Refusal::Invalid("choose a contra account"@))
                } else {
                    None
                }
            } else {
                match splits_total(splits, splits.len()) {
                    None => Some(Refusal::Invalid("split total overflow"@)),
                    Some(t) => if !same_value(t, size_of(sl.amount->0@)) {
                        Some(
                            Refusal::Invalid(
                                "splits sum to "@ + decimal_text(normal(t)) + " but the line is "@ + decimal_text(
                                    normal(size_of(sl.amount->0@)),
                                ),
                            ),
                        )
                    } else {
                        split_refusal(accounts[i], sl.amount->0@.minor < 0, splits, 0)
                    },
                }
            },
        }
    }
}

/// Whether `x` are the postings of a line: the bank's, and the other side, on one account or split.
pub open spec fn line_postings(
    sl: StatementLine,
    a: Account,
    contra: Option<i64>,
    splits: Seq<ResolvedLeg>,
    held_by_void: bool,
    x: Seq<PostingInput>,
) -> bool {
    let spent = sl.amount->0@.minor < 0;
    &&& x.len() > 0 && is_bank_posting(x[0], a, sl, sl.amount->0@, held_by_void)
    &&& if splits.len() == 0 {
        x.len() == 2 && balances(x[1], contra->0, Seq::empty())
    } else {
        &&& x.len() == splits.len() + 1
        &&& forall|i: int|
            0 <= i < splits.len() - 1 ==> split_value(a, spent, (#[trigger] splits[i]).quantity@) is Ok && ({
                let m = split_value(a, spent, splits[i].quantity@)->Ok_0;
                is_valued(x[i + 1], splits[i].account_id, normal((m.minor, m.precision)), m.commodity, splits[i].memo@)
            })
        &&& balances(x.last(), splits.last().account_id, splits.last().memo@)
    }
}

fn push_line_splits(
    sl: &StatementLine,
    a: &Account,
    amount: Money,
    splits: &[ResolvedLeg],
    held_by_void: bool,
) -> (r: Result<Vec<PostingInput>>)
    requires
        splits@.len() > 0,
        sl.amount == Some(amount),
    ensures
        match r {
            Ok(x) => split_refusal(*a, amount@.minor < 0, splits@, 0) is None && line_postings(
                *sl,
                *a,
                None,
                splits@,
                held_by_void,
                x@,
            ),
            Err(e) => split_refusal(*a, amount@.minor < 0, splits@, 0) == Some(e@),
        },
{
    let spent = amount.is_negative();
    let mut x: Vec<PostingInput> = Vec::new();
    x.push(bank_posting(a, sl, amount, held_by_void));
    let n: usize = splits.len();
    let mut i: usize = 0;
    while i + 1 < n
        invariant
            n == splits@.len(),
            i < n,
            x@.len() == i + 1,
            spent == (amount@.minor < 0),
            is_bank_posting(x@[0], *a, *sl, amount@, held_by_void),
            split_refusal(*a, spent, splits@, 0) == split_refusal(*a, spent, splits@, i as int),
            forall|k: int|
                0 <= k < i ==> split_value(*a, spent, (#[trigger] splits@[k]).quantity@) is Ok && ({
                    let m = split_value(*a, spent, splits@[k].quantity@)->Ok_0;
                    is_valued(x@[k + 1], splits@[k].account_id, normal((m.minor, m.precision)), m.commodity, splits@[k].memo@)
                }),
        decreases n - i,
    {
        let leg = &splits[i];
        let value = match value_split(a, spent, leg.quantity) {
            Ok(m) => m,
            Err(e) => {
                return Err(e);
            },
        };
        let p = PostingInput::valued(leg.account_id, value.major(), value.commodity().as_str());
        x.push(p.memo(leg.memo.as_str()));
        i = i + 1;
    }
    let last = &splits[n - 1];
    x.push(PostingInput::balancing(last.account_id).memo(last.memo.as_str()));
    Ok(x)
}

/// Makes the entry that a statement line evidences, with the contra account or splits chosen on the
/// review screen.
pub fn create_entry_from_line(
    sl: &StatementLine,
    accounts: &[Account],
    contra_account_id: Option<i64>,
    payee: &str,
    post: bool,
    splits: &[ResolvedLeg],
    held_by_void: bool,
) -> (r: Result<EntryInput>)
    ensures
        match r {
            Ok(x) => {
                &&& from_line_refusal(*sl, accounts@, contra_account_id, splits@) is None
                &&& {
                    let a = accounts@[place_of(accounts@, sl.account_id->0)->0];
                    &&& x.entity_id == a.entity_id && x.date == sl.date->0
                    &&& line_postings(*sl, a, contra_account_id, splits@, held_by_void, x.postings@)
                }
                &&& x.payee@ == (if blank(payee@) {
                    sl.description@
                } else {
                    trimmed(payee@)
                })
                &&& x.description@ == sl.description@ && x.notes@.len() == 0
                &&& x.status == (if post {
                    EntryStatus::Posted
                } else {
                    EntryStatus::Draft
                })
                &&& x.origin@ == "import"@
                &&& x.template_id is None && x.template_version is None && x.counterpart_id is None && x.reverses_id is None && !x.absorb_fx
            },
            Err(e) => from_line_refusal(*sl, accounts@, contra_account_id, splits@) == Some(e@),
        },
{
    if same(sl.status.as_str(), "matched") || same(sl.status.as_str(), "created") {
        return Err(invalid("this line already evidences an entry"));
    }
    let id = match sl.account_id {
        Some(id) => id,
        None => {
            return Err(invalid("line has no account"));
        },
    };
    let account = match get_account(accounts, id) {
        Ok(a) => a,
        Err(e) => {
            return Err(e);
        },
    };
    let (date, amount) = match (sl.date, sl.amount) {
        (Some(d), Some(m)) => (d, m),
        _ => {
            return Err(invalid("line has no date or amount"));
        },
    };
    let postings = if splits.len() == 0 {
        let contra = match contra_account_id {
            Some(c) => c,
            None => {
                return Err(invalid("choose a contra account"));
            },
        };
        let mut x: Vec<PostingInput> = Vec::new();
        x.push(bank_posting(account, sl, amount, held_by_void));
        x.push(PostingInput::balancing(contra));
        x
    } else {
        let total = match sum_splits(splits) {
            Some(t) => t,
            None => {
                return Err(invalid("split total overflow"));
            },
        };
        let size = amount.major().abs();
        if !total.same(size) {
            return Err(
                invalid(cat4("splits sum to ", plain(total).as_str(), " but the line is ", plain(size).as_str()).as_str()),
            );
        }
        match push_line_splits(sl, account, amount, splits, held_by_void) {
            Ok(x) => x,
            Err(e) => {
                return Err(e);
            },
        }
    };
    let mut input = EntryInput::new(account.entity_id, date);
    input.payee = if is_blank(payee) {
        own(sl.description.as_str())
    } else {
        trim(payee)
    };
    input.description = own(sl.description.as_str());
    input.status = if post {
        EntryStatus::Posted
    } else {
        EntryStatus::Draft
    };
    input.origin = own("import");
    input.postings = postings;
    Ok(input)
}

/// A condition on the amount compares the line with the number that it names: of "gt", "lt" and "eq" with one
/// number a line meets exactly one.
pub proof fn law_amount_conditions(c: RuleCondition, sl: StatementLine, payee: Seq<char>)
    requires
        decimal_in(number_text(c.value@)) is Some,
        number_text(c.value@).len() > 0,
        sl.amount is Some,
    ensures
        ({
            let (line, named) = (in_major(sl.amount->0@), value(decimal_in(number_text(c.value@))->0));
            &&& c.op@ == "gt"@ ==> meets(c, sl, payee) == (line > named)
            &&& c.op@ == "lt"@ ==> meets(c, sl, payee) == (line < named)
            &&& c.op@ == "eq"@ ==> meets(c, sl, payee) == (line == named)
        }),
{
    let a = sl.amount->0@;
    let n = decimal_in(number_text(c.value@))->0;
    lemma_normal((a.minor, a.precision));
    lemma_same_value(normal((a.minor, a.precision)), (a.minor, a.precision));
    lemma_same_value(line_amount(sl), n);
    lemma_same_value(n, line_amount(sl));
    reveal_strlit("contains");
    reveal_strlit("equals");
    reveal_strlit("starts_with");
    reveal_strlit("regex");
    reveal_strlit("gt");
    reveal_strlit("lt");
    reveal_strlit("eq");
    assert("gt"@[0] == 'g' && "lt"@[0] == 'l' && "eq"@[0] == 'e');
    assert("contains"@.len() == 8 && "equals"@.len() == 6 && "starts_with"@.len() == 11 && "regex"@.len() == 5);
    assert("gt"@.len() == 2 && "lt"@.len() == 2 && "eq"@.len() == 2);
}

/// A line becomes an entry of its day that books exactly what the line moves on the bank account, and leaves
/// the rest to one posting: on the account of the rule, or in suspense as a draft.
pub proof fn law_draft_books_line(plan: DraftPlan, account: Account, accounts: Seq<Account>, sl: StatementLine, rule: Option<Rule>, held_by_void: bool)
    requires
        sl.date is Some,
        sl.amount is Some,
        drafts(plan, account, accounts, sl, rule, held_by_void),
    ensures
        plan matches DraftPlan::Entry(x) ==> {
            &&& Some(x.date) == sl.date && x.entity_id == account.entity_id
            &&& x.postings@.len() == 2
            &&& x.postings@[0].account_id == account.id && !x.postings@[0].balance
            &&& value(x.postings@[0].quantity@) == in_major(sl.amount->0@)
            &&& x.postings@[1].balance
            &&& rule matches Some(r) ==> r.account_id == Some(x.postings@[1].account_id) || r.account_id is None
            &&& (x.status == EntryStatus::Draft) == (rule is None)
        },
{
    let a = sl.amount->0@;
    lemma_normal((a.minor, a.precision));
    lemma_same_value(normal((a.minor, a.precision)), (a.minor, a.precision));
}

} // verus!
