//! What is previewed before it is done, and the token under which it is done.

use vstd::prelude::*;

use crate::capture::SimpleEntry;
use crate::codec::{json_string, json_text};
use crate::documents::{bare_entry_document, bare_entry_string, entry_document, entry_string, flag, flag_text, list, list_text, members, object, opt_id_string, opt_id_text, opt_json_string, opt_json_text, quoted_texts, rule_documents, rule_strings, text_list, token_of_text, token_text};
use crate::error::Result;
use crate::hashchain::VerifyReport;
use crate::imports::{object_text, opt_text};
use crate::journal::keeps_proposal;
use crate::model::{JournalEntry, Rule};
use crate::payees::{alike, confirm, copy_payee, effects, entry_place, find_entry, get, origin_of, payee_place, taken, Effect, Impact, Payee, Preview, ReassignPlan, SavePlan};
use crate::splits::Leg;
use crate::text::{int_string, int_text, nat_string, nat_text, own, same, texts};

verus! {

/// A payee as JSON.
pub open spec fn payee_document(x: Payee) -> Seq<char> {
    object_text(
        seq![
            ("id"@, int_text(x.id as int)),
            ("uid"@, json_text(x.uid@)),
            ("entity_id"@, int_text(x.entity_id as int)),
            ("name"@, json_text(x.name@)),
            ("active"@, flag_text(x.active)),
            ("aliases"@, list_text(quoted_texts(texts(x.aliases@)))),
        ],
    )
}

pub fn payee_string(x: &Payee) -> (r: String)
    ensures
        r@ == payee_document(*x),
{
    let v: Vec<(&str, String)> = vec![
        ("id", int_string(x.id)),
        ("uid", json_string(x.uid.as_str())),
        ("entity_id", int_string(x.entity_id)),
        ("name", json_string(x.name.as_str())),
        ("active", flag(x.active)),
        ("aliases", text_list(&x.aliases)),
    ];
    assert(members(v@) =~= seq![
        ("id"@, int_text(x.id as int)),
        ("uid"@, json_text(x.uid@)),
        ("entity_id"@, int_text(x.entity_id as int)),
        ("name"@, json_text(x.name@)),
        ("active"@, flag_text(x.active)),
        ("aliases"@, list_text(quoted_texts(texts(x.aliases@)))),
    ]);
    object(&v)
}

pub open spec fn payee_documents(v: Seq<Payee>) -> Seq<Seq<char>> {
    v.map_values(|x: Payee| payee_document(x))
}

fn payee_strings(v: &[Payee]) -> (r: Vec<String>)
    ensures
        texts(r@) == payee_documents(v@),
{
    let mut r: Vec<String> = Vec::new();
    let mut i: usize = 0;
    while i < v.len()
        invariant
            i <= v.len(),
            texts(r@) == payee_documents(v@).take(i as int),
        decreases v.len() - i,
    {
        let ghost before = texts(r@);
        let t = payee_string(&v[i]);
        r.push(t);
        assert(texts(r@) =~= before.push(t@));
        i = i + 1;
        assert(texts(r@) =~= payee_documents(v@).take(i as int));
    }
    assert(texts(r@) =~= payee_documents(v@));
    r
}

/// The payee of a preview, where it names one.
pub open spec fn opt_payee_document(p: Option<Payee>) -> Seq<char> {
    match p {
        Some(x) => payee_document(x),
        None => "null"@,
    }
}

pub open spec fn id_texts(v: Seq<i64>) -> Seq<Seq<char>> {
    v.map_values(|n: i64| int_text(n as int))
}

fn id_strings(v: &Vec<i64>) -> (r: Vec<String>)
    ensures
        texts(r@) == id_texts(v@),
{
    let mut r: Vec<String> = Vec::new();
    let mut i: usize = 0;
    while i < v.len()
        invariant
            i <= v.len(),
            texts(r@) == id_texts(v@).take(i as int),
        decreases v.len() - i,
    {
        let ghost before = texts(r@);
        let t = int_string(v[i]);
        r.push(t);
        assert(texts(r@) =~= before.push(t@));
        i = i + 1;
        assert(texts(r@) =~= id_texts(v@).take(i as int));
    }
    assert(texts(r@) =~= id_texts(v@));
    r
}

/// What a change does to one line or entry, as JSON.
pub open spec fn effect_document(x: Effect) -> Seq<char> {
    object_text(
        seq![
            ("entry_id"@, int_text(x.entry_id as int)),
            ("line_id"@, int_text(x.line_id as int)),
            ("booked"@, json_text(x.booked)),
            ("evidence"@, json_text(x.evidence)),
            ("candidates"@, list_text(id_texts(x.candidates))),
            ("before_rule"@, opt_id_text(x.before_rule)),
            ("after_rule"@, opt_id_text(x.after_rule)),
        ],
    )
}

pub fn impact_string(x: &Impact) -> (r: String)
    ensures
        r@ == effect_document(x@),
{
    let v: Vec<(&str, String)> = vec![
        ("entry_id", int_string(x.entry_id)),
        ("line_id", int_string(x.line_id)),
        ("booked", json_string(x.booked.as_str())),
        ("evidence", json_string(x.evidence.as_str())),
        ("candidates", list(&id_strings(&x.candidates))),
        ("before_rule", opt_id_string(x.before_rule)),
        ("after_rule", opt_id_string(x.after_rule)),
    ];
    assert(members(v@) =~= seq![
        ("entry_id"@, int_text(x.entry_id as int)),
        ("line_id"@, int_text(x.line_id as int)),
        ("booked"@, json_text(x.booked@)),
        ("evidence"@, json_text(x.evidence@)),
        ("candidates"@, list_text(id_texts(x.candidates@))),
        ("before_rule"@, opt_id_text(x.before_rule)),
        ("after_rule"@, opt_id_text(x.after_rule)),
    ]);
    object(&v)
}

pub open spec fn effect_documents(v: Seq<Effect>) -> Seq<Seq<char>> {
    v.map_values(|x: Effect| effect_document(x))
}

fn impact_strings(v: &[Impact]) -> (r: Vec<String>)
    ensures
        texts(r@) == effect_documents(effects(v@)),
{
    let mut r: Vec<String> = Vec::new();
    let mut i: usize = 0;
    while i < v.len()
        invariant
            i <= v.len(),
            texts(r@) == effect_documents(effects(v@)).take(i as int),
        decreases v.len() - i,
    {
        let ghost before = texts(r@);
        let t = impact_string(&v[i]);
        r.push(t);
        assert(texts(r@) =~= before.push(t@));
        i = i + 1;
        assert(texts(r@) =~= effect_documents(effects(v@)).take(i as int));
    }
    assert(texts(r@) =~= effect_documents(effects(v@)));
    r
}

/// What a check of the chain found, as JSON.
pub open spec fn report_document(x: VerifyReport) -> Seq<char> {
    object_text(
        seq![
            ("entity_id"@, int_text(x.entity_id as int)),
            ("checked"@, nat_text(x.checked as nat)),
            ("head"@, opt_json_text(opt_text(x.head))),
            ("first_bad_seq"@, opt_id_text(x.first_bad_seq)),
            ("first_bad_entry_id"@, opt_id_text(x.first_bad_entry_id)),
        ],
    )
}

pub fn report_string(x: &VerifyReport) -> (r: String)
    ensures
        r@ == report_document(*x),
{
    let v: Vec<(&str, String)> = vec![
        ("entity_id", int_string(x.entity_id)),
        ("checked", nat_string(x.checked as u128)),
        ("head", opt_json_string(&x.head)),
        ("first_bad_seq", opt_id_string(x.first_bad_seq)),
        ("first_bad_entry_id", opt_id_string(x.first_bad_entry_id)),
    ];
    assert(members(v@) =~= seq![
        ("entity_id"@, int_text(x.entity_id as int)),
        ("checked"@, nat_text(x.checked as nat)),
        ("head"@, opt_json_text(opt_text(x.head))),
        ("first_bad_seq"@, opt_id_text(x.first_bad_seq)),
        ("first_bad_entry_id"@, opt_id_text(x.first_bad_entry_id)),
    ]);
    object(&v)
}

pub open spec fn entry_documents(v: Seq<JournalEntry>) -> Seq<Seq<char>> {
    v.map_values(|x: JournalEntry| entry_document(x))
}

fn entry_strings(v: &[JournalEntry]) -> (r: Vec<String>)
    ensures
        texts(r@) == entry_documents(v@),
{
    let mut r: Vec<String> = Vec::new();
    let mut i: usize = 0;
    while i < v.len()
        invariant
            i <= v.len(),
            texts(r@) == entry_documents(v@).take(i as int),
        decreases v.len() - i,
    {
        let ghost before = texts(r@);
        let t = entry_string(&v[i]);
        r.push(t);
        assert(texts(r@) =~= before.push(t@));
        i = i + 1;
        assert(texts(r@) =~= entry_documents(v@).take(i as int));
    }
    assert(texts(r@) =~= entry_documents(v@));
    r
}

/// What a saved payee is confirmed by: the payees before it, the payee, what it changes, what it
/// warns of, and the rules that were asked.
pub open spec fn save_text(before: Seq<Payee>, p: Payee, impacts: Seq<Effect>, warnings: Seq<Seq<char>>, rules: Seq<Rule>) -> Seq<char> {
    list_text(
        seq![
            json_text("save"@),
            list_text(payee_documents(before)),
            payee_document(p),
            list_text(effect_documents(impacts)),
            list_text(quoted_texts(warnings)),
            list_text(rule_documents(rules)),
        ],
    )
}

/// What a token does: none given previews, the expected one applies, any other is stale.
pub open spec fn applies(expected: Seq<char>, provided: Option<&str>) -> bool {
    provided is Some && provided->0@ == expected
}

/// Whether a token was given that is not the expected one.
pub open spec fn stale(expected: Seq<char>, provided: Option<&str>) -> bool {
    provided is Some && provided->0@ != expected
}

/// Confirms the change of a payee, or shows what it comes to.
pub fn confirm_save(before: &Vec<Payee>, plan: SavePlan, rules: &[Rule], confirmation: Option<&str>) -> (r: Result<Preview>)
    requires
        plan.after@.len() > 0,
    ensures
        ({
            let expected = token_text(save_text(before@, plan.after@.last(), effects(plan.impacts@), texts(plan.warnings@), rules@));
            match r {
                Ok(v) => {
                    &&& !stale(expected, confirmation)
                    &&& v.token@ == expected
                    &&& v.applied == applies(expected, confirmation)
                    &&& v.payee is Some && alike(v.payee->0, plan.after@.last())
                    &&& v.impacts == plan.impacts
                    &&& v.warnings == plan.warnings
                    &&& v.backup is None
                },
                Err(e) => stale(expected, confirmation) && e.conflict("payee preview is stale; preview again and confirm its new token"@),
            }
        }),
{
    let p = copy_payee(&plan.after[plan.after.len() - 1]);
    let items: Vec<String> = vec![
        json_string("save"),
        list(&payee_strings(before.as_slice())),
        payee_string(&plan.after[plan.after.len() - 1]),
        list(&impact_strings(plan.impacts.as_slice())),
        text_list(&plan.warnings),
        list(&rule_strings(rules)),
    ];
    assert(texts(items@) =~= seq![
        json_text("save"@),
        list_text(payee_documents(before@)),
        payee_document(plan.after@.last()),
        list_text(effect_documents(effects(plan.impacts@))),
        list_text(quoted_texts(texts(plan.warnings@))),
        list_text(rule_documents(rules@)),
    ]);
    let token = token_of_text(list(&items).as_str());
    match confirm(token.as_str(), confirmation) {
        Ok(applied) => Ok(Preview { token, applied, payee: Some(p), impacts: plan.impacts, warnings: plan.warnings, backup: None }),
        Err(e) => Err(e),
    }
}

/// Whether a payee differs from what is stored.
pub open spec fn differs(old: Option<Payee>, p: Payee) -> bool {
    match old {
        Some(o) => !alike(o, p),
        None => true,
    }
}

fn same_all(a: &Vec<String>, b: &Vec<String>) -> (r: bool)
    ensures
        r == (texts(a@) == texts(b@)),
{
    if a.len() != b.len() {
        assert(texts(a@).len() != texts(b@).len());
        return false;
    }
    let mut i: usize = 0;
    while i < a.len()
        invariant
            i <= a.len(),
            a@.len() == b@.len(),
            forall|k: int| 0 <= k < i ==> (#[trigger] texts(a@)[k]) == texts(b@)[k],
        decreases a.len() - i,
    {
        if !same(a[i].as_str(), b[i].as_str()) {
            assert(texts(a@)[i as int] != texts(b@)[i as int]);
            return false;
        }
        i = i + 1;
    }
    assert(texts(a@) =~= texts(b@));
    true
}

/// Whether a confirmed payee has to be written.
pub fn is_new(old: Option<&Payee>, p: &Payee) -> (r: bool)
    ensures
        r == differs(taken(old), *p),
{
    match old {
        Some(o) => !(o.id == p.id && same(o.uid.as_str(), p.uid.as_str()) && o.entity_id == p.entity_id && same(o.name.as_str(), p.name.as_str())
            && o.active == p.active && same_all(&o.aliases, &p.aliases)),
        None => true,
    }
}

/// What a reassignment is confirmed by.
pub open spec fn reassign_text(
    source: Option<Payee>,
    target: Payee,
    moved: Seq<JournalEntry>,
    before: Seq<Payee>,
    impacts: Seq<Effect>,
    warnings: Seq<Seq<char>>,
    rules: Seq<Rule>,
) -> Seq<char> {
    list_text(
        seq![
            json_text("reassign"@),
            opt_payee_document(source),
            payee_document(target),
            list_text(entry_documents(moved)),
            list_text(payee_documents(before)),
            list_text(effect_documents(impacts)),
            list_text(quoted_texts(warnings)),
            list_text(rule_documents(rules)),
        ],
    )
}

/// The target of a reassignment as it stands afterwards.
pub open spec fn target_after(after: Seq<Payee>, target: Payee) -> Payee {
    match payee_place(after, target.id, 0) {
        Some(i) => after[i],
        None => target,
    }
}

/// Confirms a reassignment, or shows what it comes to.
pub fn confirm_reassign(
    source: Option<&Payee>,
    target: &Payee,
    moved: &[JournalEntry],
    before: &Vec<Payee>,
    plan: ReassignPlan,
    rules: &[Rule],
    confirmation: Option<&str>,
) -> (r: Result<Preview>)
    ensures
        ({
            let expected = token_text(
                reassign_text(taken(source), *target, moved@, before@, effects(plan.impacts@), texts(plan.warnings@), rules@),
            );
            match r {
                Ok(v) => {
                    &&& !stale(expected, confirmation)
                    &&& v.token@ == expected
                    &&& v.applied == applies(expected, confirmation)
                    &&& v.payee is Some && alike(v.payee->0, target_after(plan.after@, *target))
                    &&& v.impacts == plan.impacts
                    &&& v.warnings == plan.warnings
                    &&& v.backup is None
                },
                Err(e) => stale(expected, confirmation) && e.conflict("payee preview is stale; preview again and confirm its new token"@),
            }
        }),
{
    let p = match get(plan.after.as_slice(), target.id) {
        Ok(x) => copy_payee(x),
        Err(_) => copy_payee(target),
    };
    let from = match source {
        Some(s) => payee_string(s),
        None => own("null"),
    };
    let items: Vec<String> = vec![
        json_string("reassign"),
        from,
        payee_string(target),
        list(&entry_strings(moved)),
        list(&payee_strings(before.as_slice())),
        list(&impact_strings(plan.impacts.as_slice())),
        text_list(&plan.warnings),
        list(&rule_strings(rules)),
    ];
    assert(texts(items@) =~= seq![
        json_text("reassign"@),
        opt_payee_document(taken(source)),
        payee_document(*target),
        list_text(entry_documents(moved@)),
        list_text(payee_documents(before@)),
        list_text(effect_documents(effects(plan.impacts@))),
        list_text(quoted_texts(texts(plan.warnings@))),
        list_text(rule_documents(rules@)),
    ]);
    let token = token_of_text(list(&items).as_str());
    match confirm(token.as_str(), confirmation) {
        Ok(applied) => Ok(Preview { token, applied, payee: Some(p), impacts: plan.impacts, warnings: plan.warnings, backup: None }),
        Err(e) => Err(e),
    }
}

/// The entries that a history of reversals and refunds goes through, from the one at `at` back.
pub open spec fn trail(entries: Seq<JournalEntry>, at: int, steps: nat) -> Seq<Seq<char>>
    decreases steps,
{
    if steps == 0 {
        Seq::empty()
    } else {
        match origin_of(entries[at]) {
            None => Seq::empty(),
            Some(id) => match entry_place(entries, id, 0) {
                None => Seq::empty(),
                Some(j) => seq![entry_document(entries[j])] + trail(entries, j, (steps - 1) as nat),
            },
        }
    }
}

/// The entries that an inference rests on: each without a payee among the first `n`, with its
/// history.
pub open spec fn rested_on(entries: Seq<JournalEntry>, entity: i64, n: nat) -> Seq<Seq<char>>
    decreases n,
{
    if n == 0 {
        Seq::empty()
    } else if entries[n - 1].entity_id != entity || entries[n - 1].payee_id is Some {
        rested_on(entries, entity, (n - 1) as nat)
    } else {
        rested_on(entries, entity, (n - 1) as nat) + (seq![entry_document(entries[n - 1])] + trail(entries, n - 1, entries.len()))
    }
}

fn push_trail(entries: &[JournalEntry], at: usize, into: &mut Vec<String>)
    requires
        at < entries@.len(),
    ensures
        texts(final(into)@) == texts(old(into)@) + trail(entries@, at as int, entries@.len()),
{
    let ghost start = texts(into@);
    let ghost all = trail(entries@, at as int, entries@.len());
    let mut cur: usize = at;
    let mut steps: usize = entries.len();
    assert(start + all =~= texts(into@) + trail(entries@, cur as int, steps as nat));
    while steps > 0
        invariant
            cur < entries@.len(),
            start + all == texts(into@) + trail(entries@, cur as int, steps as nat),
        ensures
            texts(into@) == start + all,
        decreases steps,
    {
        let e = &entries[cur];
        let origin = if e.reverses_id.is_some() {
            e.reverses_id
        } else {
            e.refund_of_id
        };
        let place = match origin {
            None => None,
            Some(id) => find_entry(entries, id),
        };
        match place {
            None => {
                assert(texts(into@) =~= texts(into@) + trail(entries@, cur as int, steps as nat));
                break;
            },
            Some(j) => {
                let ghost before = texts(into@);
                let t = entry_string(&entries[j]);
                into.push(t);
                assert(texts(into@) =~= before + seq![t@]);
                assert(before + (seq![t@] + trail(entries@, j as int, (steps - 1) as nat)) =~= (before + seq![t@]) + trail(
                    entries@,
                    j as int,
                    (steps - 1) as nat,
                ));
                cur = j;
                steps = steps - 1;
            },
        }
        assert(steps == 0 ==> texts(into@) =~= texts(into@) + trail(entries@, cur as int, steps as nat));
    }
}

fn rests_on(entries: &[JournalEntry], entity: i64) -> (r: Vec<String>)
    ensures
        texts(r@) == rested_on(entries@, entity, entries@.len()),
{
    let mut r: Vec<String> = Vec::new();
    let mut i: usize = 0;
    assert(texts(r@) =~= Seq::<Seq<char>>::empty());
    while i < entries.len()
        invariant
            i <= entries.len(),
            texts(r@) == rested_on(entries@, entity, i as nat),
        decreases entries.len() - i,
    {
        if entries[i].entity_id == entity && entries[i].payee_id.is_none() {
            let ghost before = texts(r@);
            let t = entry_string(&entries[i]);
            r.push(t);
            assert(texts(r@) =~= before + seq![t@]);
            push_trail(entries, i, &mut r);
            assert(texts(r@) =~= before + (seq![t@] + trail(entries@, i as int, entries@.len())));
        }
        i = i + 1;
    }
    r
}

/// What linking an entity's history to its payees is confirmed by.
pub open spec fn backfill_text(entity: i64, payees: Seq<Payee>, impacts: Seq<Effect>, entries: Seq<JournalEntry>, report: VerifyReport, rules: Seq<Rule>) -> Seq<char> {
    list_text(
        seq![
            json_text("backfill"@),
            int_text(entity as int),
            list_text(payee_documents(payees)),
            list_text(effect_documents(impacts)),
            list_text(rested_on(entries, entity, entries.len())),
            report_document(report),
            list_text(rule_documents(rules)),
        ],
    )
}

/// What linking an entity's history asks its owner to look at first.
pub const REVIEW: &'static str = "Confirm chart/classes, per-payee splits and ongoing rules are reviewed. Only unambiguous statement-backed links are applied; unmatched/ambiguous entries remain unresolved.";

/// Confirms what was inferred of an entity's history, or shows it.
pub fn confirm_backfill(
    entity: i64,
    payees: &Vec<Payee>,
    impacts: Vec<Impact>,
    entries: &[JournalEntry],
    report: &VerifyReport,
    rules: &[Rule],
    confirmation: Option<&str>,
) -> (r: Result<Preview>)
    ensures
        ({
            let expected = token_text(backfill_text(entity, payees@, effects(impacts@), entries@, *report, rules@));
            match r {
                Ok(v) => {
                    &&& !stale(expected, confirmation)
                    &&& v.token@ == expected
                    &&& v.applied == applies(expected, confirmation)
                    &&& v.payee is None
                    &&& v.impacts == impacts
                    &&& texts(v.warnings@) == seq![REVIEW@]
                    &&& v.backup is None
                },
                Err(e) => stale(expected, confirmation) && e.conflict("payee preview is stale; preview again and confirm its new token"@),
            }
        }),
{
    let items: Vec<String> = vec![
        json_string("backfill"),
        int_string(entity),
        list(&payee_strings(payees.as_slice())),
        list(&impact_strings(impacts.as_slice())),
        list(&rests_on(entries, entity)),
        report_string(report),
        list(&rule_strings(rules)),
    ];
    assert(texts(items@) =~= seq![
        json_text("backfill"@),
        int_text(entity as int),
        list_text(payee_documents(payees@)),
        list_text(effect_documents(effects(impacts@))),
        list_text(rested_on(entries@, entity, entries@.len())),
        report_document(*report),
        list_text(rule_documents(rules@)),
    ]);
    let token = token_of_text(list(&items).as_str());
    let warnings: Vec<String> = vec![own(REVIEW)];
    assert(texts(warnings@) =~= seq![REVIEW@]);
    match confirm(token.as_str(), confirmation) {
        Ok(applied) => Ok(Preview { token, applied, payee: None, impacts, warnings, backup: None }),
        Err(e) => Err(e),
    }
}

/// How far the books have come: the last record of the log of changes, the last entry, and how
/// many entries there are.
#[derive(Debug, Clone, Copy)]
pub struct Stamp {
    pub last_change: i64,
    pub last_entry: i64,
    pub entries: i64,
}

/// What a proposed entry is confirmed by: the stamp of the books, and the entry without what only
/// posting it gives it.
pub open spec fn proposal_text(stamp: Stamp, e: JournalEntry) -> Seq<char> {
    list_text(
        seq![
            list_text(seq![int_text(stamp.last_change as int), int_text(stamp.last_entry as int), int_text(stamp.entries as int)]),
            bare_entry_document(e),
        ],
    )
}

/// The token of a proposed entry, as a contract sees it.
pub open spec fn proposal_token(stamp: Stamp, e: JournalEntry) -> Seq<char> {
    token_text(proposal_text(stamp, e))
}

/// The token of a proposed entry.
pub fn proposed_token(stamp: Stamp, e: &JournalEntry) -> (r: String)
    ensures
        r@ == proposal_token(stamp, *e),
{
    let counts: Vec<String> = vec![int_string(stamp.last_change), int_string(stamp.last_entry), int_string(stamp.entries)];
    assert(texts(counts@) =~= seq![int_text(stamp.last_change as int), int_text(stamp.last_entry as int), int_text(stamp.entries as int)]);
    let items: Vec<String> = vec![list(&counts), bare_entry_string(e)];
    assert(texts(items@) =~= seq![
        list_text(seq![int_text(stamp.last_change as int), int_text(stamp.last_entry as int), int_text(stamp.entries as int)]),
        bare_entry_document(*e),
    ]);
    token_of_text(list(&items).as_str())
}

/// Operations proposed by a user: preview and confirmation run exactly the same accounting code.
#[derive(Debug)]
pub enum PostingProposal {
    Capture { entry: SimpleEntry, tags: String },
    Categorize { id: i64, legs: Vec<Leg>, payee: Option<String>, existing: bool },
}

/// An entry as it is shown while it is only proposed: nothing of the chain.
pub open spec fn unchained(e: JournalEntry) -> JournalEntry {
    JournalEntry { seq: None, hash: None, ..e }
}

/// What becomes of the entry that a proposal came to, in a transaction that is still open. It is
/// kept where the caller confirms the token of just this outcome; where none is given it is to be
/// rolled back and is shown without its place in the chain.
pub fn confirm_posting(stamp: Stamp, entry: JournalEntry, confirmation: Option<&str>) -> (r: Result<(JournalEntry, String, bool)>)
    ensures
        match r {
            Ok((e, token, keep)) => {
                &&& !stale(proposal_token(stamp, entry), confirmation)
                &&& token@ == proposal_token(stamp, entry)
                &&& keep == (confirmation is Some)
                &&& e == (if keep {
                    entry
                } else {
                    unchained(entry)
                })
            },
            Err(x) => stale(proposal_token(stamp, entry), confirmation) && x.conflict(
                "transaction changed since preview; preview it again before confirming"@,
            ),
        },
{
    let token = proposed_token(stamp, &entry);
    match keeps_proposal(confirmation, token.as_str()) {
        Ok(keep) => if keep {
            Ok((entry, token, true))
        } else {
            let mut shown = entry;
            shown.seq = None;
            shown.hash = None;
            Ok((shown, token, false))
        },
        Err(e) => Err(e),
    }
}

/// Confirming what was just shown keeps it: while the books stand still, the token does not depend
/// on what each run gives an entry anew, which is its identity, its place in the chain and the
/// moments at which it was made.
pub proof fn law_preview_confirms(stamp: Stamp, shown: JournalEntry, entry: JournalEntry)
    requires
        shown == (JournalEntry {
            uid: shown.uid,
            hash: shown.hash,
            seq: shown.seq,
            posted_at: shown.posted_at,
            created_at: shown.created_at,
            reviewed_at: shown.reviewed_at,
            ..entry
        }),
    ensures
        proposal_token(stamp, shown) == proposal_token(stamp, entry),
{
}

} // verus!
