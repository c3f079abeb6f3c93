//! Changes of journal entries: what an edit may do, which postings survive it, reversals,
//! revaluation, and what kind of entry the postings make.

use vstd::prelude::*;

use crate::date::Date;
use crate::decimal::{normal, rounded, same_value, Num};
use crate::error::{conflict, invalid, locked, Refusal, Result};
use crate::journal::{check_lock, is_locked, lock_text, Prepared};
use crate::model::{has_flag, meta_at, meta_copy, meta_flag, meta_get, Entity, EntryInput, EntryStatus, JournalEntry, MetaEntry, MetaValue, Posting, PostingInput};
use crate::money::{decimal_in, number_text, parse, round_to, same_unit};
use crate::order::{is_permutation, stable, stable_order, Key};
use crate::text::{cat, cat3, cat4, int_string, int_text, is_blank, own, same, trim, trimmed};

verus! {

/// Whether two optional texts are the same.
pub open spec fn same_option(a: Option<String>, b: Option<String>) -> bool {
    match (a, b) {
        (Some(x), Some(y)) => x@ == y@,
        (None, None) => true,
        _ => false,
    }
}

fn equal_options(a: &Option<String>, b: &Option<String>) -> (r: bool)
    ensures
        r == same_option(*a, *b),
{
    match (a, b) {
        (Some(x), Some(y)) => same(x.as_str(), y.as_str()),
        (None, None) => true,
        _ => false,
    }
}

/// Whether an input says something else than a posting: another account; or, unless its value is
/// derived, another quantity, amount or memo.
pub open spec fn posting_differs(a: Posting, b: PostingInput) -> bool {
    a.account_id != b.account_id || (!(b.balance || b.value_in is Some) && (!same_value(
        normal((a.quantity@.minor, a.quantity@.precision)),
        rounded(b.quantity@, a.quantity@.precision),
    ) || (b.amount is Some && !same_value(normal((a.amount@.minor, a.amount@.precision)), b.amount->0@)) || a.memo@ != b.memo@))
}

pub open spec fn entry_differs(before: Seq<Posting>, inputs: Seq<PostingInput>) -> bool {
    before.len() != inputs.len() || exists|i: int| 0 <= i < before.len() && posting_differs(#[trigger] before[i], inputs[i])
}

pub fn postings_differ(before: &[Posting], inputs: &[PostingInput]) -> (r: bool)
    ensures
        r == entry_differs(before@, inputs@),
{
    if before.len() != inputs.len() {
        return true;
    }
    let mut i: usize = 0;
    while i < before.len()
        invariant
            i <= before.len() == inputs.len(),
            forall|k: int| 0 <= k < i ==> !posting_differs(#[trigger] before@[k], inputs@[k]),
        decreases before.len() - i,
    {
        let a = &before[i];
        let b = &inputs[i];
        let mut differs = a.account_id != b.account_id;
        if !differs && !b.balance && b.value_in.is_none() {
            differs = !a.quantity.major().same(round_to(b.quantity, a.quantity.precision())) || !same(
                a.memo.as_str(),
                b.memo.as_str(),
            );
            if let Some(amount) = b.amount {
                differs = differs || !a.amount.major().same(amount);
            }
        }
        if differs {
            assert(posting_differs(before@[i as int], inputs@[i as int]));
            return true;
        }
        i = i + 1;
    }
    false
}

/// What an edit does to an entry.
#[derive(Debug)]
pub struct EditPlan {
    pub status: EntryStatus,
    /// Whether the postings are prepared and replaced.
    pub replace: bool,
    pub payee_changed: bool,
}

/// Whether an edit changes what an entry says.
pub open spec fn content_changed(before: JournalEntry, input: EntryInput) -> bool {
    before.date != input.date || before.payee@ != trimmed(input.payee@) || before.description@ != trimmed(input.description@)
        || entry_differs(before.postings@, input.postings@)
}

/// The status of an entry after an edit: a posted entry stays posted, a draft may be posted.
pub open spec fn edited_status(before: EntryStatus, wanted: EntryStatus) -> EntryStatus {
    match before {
        EntryStatus::Posted => EntryStatus::Posted,
        EntryStatus::Void => EntryStatus::Void,
        EntryStatus::Draft => if wanted == EntryStatus::Posted {
            EntryStatus::Posted
        } else {
            EntryStatus::Draft
        },
    }
}

/// Why an edit is refused: the first rule that it breaks.
pub open spec fn edit_refusal(before: JournalEntry, entity: Entity, input: EntryInput) -> Option<Refusal> {
    let changes = before.status == EntryStatus::Posted && content_changed(before, input);
    let posts = before.status == EntryStatus::Draft && input.status == EntryStatus::Posted;
    if input.entity_id != before.entity_id {
        Some(Refusal::Invalid("an entry cannot move between entities"@))
    } else if before.status == EntryStatus::Void {
        Some(Refusal::Locked("a void entry cannot change"@))
    } else if changes && is_locked(entity, before.date) {
        Some(Refusal::Locked(lock_text(entity, before.date)))
    } else if (changes || posts) && is_locked(entity, input.date) {
        Some(Refusal::Locked(lock_text(entity, input.date)))
    } else {
        None
    }
}

/// Decides what replacing the content of an entry does. Drafts change freely; posted entries only
/// while unlocked.
pub fn check_edit(before: &JournalEntry, entity: &Entity, input: &EntryInput) -> (r: Result<EditPlan>)
    ensures
        match r {
            Ok(p) => {
                &&& edit_refusal(*before, *entity, *input) is None
                &&& p.status == edited_status(before.status, input.status)
                &&& p.replace == (content_changed(*before, *input) || before.status == EntryStatus::Draft)
                &&& p.payee_changed == (before.payee@ != trimmed(input.payee@))
            },
            Err(e) => edit_refusal(*before, *entity, *input) == Some(e@),
        },
{
    if input.entity_id != before.entity_id {
        return Err(invalid("an entry cannot move between entities"));
    }
    if before.status == EntryStatus::Void {
        return Err(locked("a void entry cannot change"));
    }
    let payee_changed = !same(before.payee.as_str(), trim(input.payee.as_str()).as_str());
    let changed = !before.date.same(input.date) || payee_changed || !same(
        before.description.as_str(),
        trim(input.description.as_str()).as_str(),
    ) || postings_differ(&before.postings, &input.postings);
    if before.status == EntryStatus::Posted && changed {
        if let Err(e) = check_lock(entity, before.date) {
            return Err(e);
        }
        if let Err(e) = check_lock(entity, input.date) {
            return Err(e);
        }
    }
    let status = match (before.status, input.status) {
        (EntryStatus::Posted, _) => EntryStatus::Posted,
        (EntryStatus::Draft, EntryStatus::Posted) => EntryStatus::Posted,
        (EntryStatus::Draft, _) => EntryStatus::Draft,
        (EntryStatus::Void, _) => EntryStatus::Void,
    };
    if status == EntryStatus::Posted && before.status == EntryStatus::Draft {
        if let Err(e) = check_lock(entity, input.date) {
            return Err(e);
        }
    }
    Ok(EditPlan { status, replace: changed || before.status == EntryStatus::Draft, payee_changed })
}

/// Where the marks of an old posting go: its reconciliation and its statement lines.
#[derive(Debug)]
pub struct ReplacementLink {
    /// The place of the new posting.
    pub position: usize,
    /// The place of the old posting in its entry.
    pub old: usize,
}

/// Whether the new posting `p` can stand for the old one `old`, which has the same account and
/// quantity, and is not taken.
pub open spec fn can_replace(p: Prepared, old: Posting) -> bool {
    p.account_id == old.account_id && same_unit(p.quantity@, old.quantity@) && p.quantity@.minor == old.quantity@.minor
}

pub open spec fn same_reference(p: Prepared, old: Posting) -> bool {
    old.external_id is Some && same_option(p.external_id, old.external_id)
}

pub open spec fn same_fingerprint(p: Prepared, old: Posting) -> bool {
    old.fingerprint is Some && same_option(p.fingerprint, old.fingerprint)
}

/// Whether nothing that both postings say of their origin differs.
pub open spec fn no_conflict(p: Prepared, old: Posting) -> bool {
    !(old.external_id is Some && p.external_id is Some && !same_option(old.external_id, p.external_id)) && !(old.fingerprint is Some
        && p.fingerprint is Some && !same_option(old.fingerprint, p.fingerprint))
}

/// In which of three ways a new posting stands for an old one: by its bank reference, by its
/// fingerprint, or because nothing speaks against it.
pub open spec fn replaces(p: Prepared, old: Posting, way: int) -> bool {
    can_replace(p, old) && (if way == 0 {
        same_reference(p, old)
    } else if way == 1 {
        same_fingerprint(p, old)
    } else {
        no_conflict(p, old)
    })
}

/// The first new posting from `from` on that is not taken and stands for `old` in this way.
pub open spec fn first_replacing(rows: Seq<Prepared>, used: Seq<bool>, old: Posting, way: int, from: int) -> Option<int>
    decreases rows.len() - from,
{
    if from < 0 || from >= rows.len() {
        None
    } else if !used[from] && replaces(rows[from], old, way) {
        Some(from)
    } else {
        first_replacing(rows, used, old, way, from + 1)
    }
}

/// The new posting that stands for an old one: bank references take precedence over fingerprints,
/// and these over postings that are merely equal.
pub open spec fn replacement(rows: Seq<Prepared>, used: Seq<bool>, old: Posting) -> Option<int> {
    match first_replacing(rows, used, old, 0, 0) {
        Some(i) => Some(i),
        None => match first_replacing(rows, used, old, 1, 0) {
            Some(i) => Some(i),
            None => first_replacing(rows, used, old, 2, 0),
        },
    }
}

/// The pairs of new and old postings, and the new ones taken, after the first `n` old postings in
/// `order`; or the text of the refusal where a reconciled posting would be lost.
pub open spec fn links_after(rows: Seq<Prepared>, old: Seq<Posting>, order: Seq<usize>, n: int) -> std::result::Result<
    (Seq<(int, int)>, Seq<bool>),
    Seq<char>,
>
    decreases n,
{
    if n <= 0 {
        Ok((Seq::empty(), Seq::new(rows.len(), |i: int| false)))
    } else {
        match links_after(rows, old, order, n - 1) {
            Err(m) => Err(m),
            Ok((links, used)) => {
                let p = old[order[n - 1] as int];
                match replacement(rows, used, p) {
                    Some(i) => Ok((links.push((i, order[n - 1] as int)), used.update(i, true))),
                    None => if p.reconciled_at is Some {
                        Err(
                            "the reconciled posting on "@ + p.account_path@
                                + " must survive unchanged; void the entry instead"@,
                        )
                    } else {
                        Ok((links, used))
                    },
                }
            },
        }
    }
}

/// Whether `k` is what old postings are ordered by: those with a bank reference first, then those
/// with a fingerprint, then those that are reconciled, so that a posting without marks cannot take
/// the place of one with a reference before that one is visited.
pub open spec fn link_key(p: Posting, k: Key) -> bool {
    &&& k.first == (if p.external_id is None { 1int } else { 0 })
    &&& k.second == (if p.fingerprint is None { 2int } else { 0 }) + (if p.reconciled_at is None { 1int } else { 0 })
    &&& k.text@ == Seq::<char>::empty()
}

/// Whether `order` is the order in which old postings are visited.
pub open spec fn link_order(old: Seq<Posting>, order: Seq<usize>) -> bool {
    &&& is_permutation(order, old.len())
    &&& exists|keys: Seq<Key>|
        keys.len() == old.len() && (forall|i: int| 0 <= i < keys.len() ==> link_key(old[i], #[trigger] keys[i])) && #[trigger] stable(
            keys,
            order,
        )
}

fn visit_order(old: &[Posting]) -> (order: Vec<usize>)
    ensures
        link_order(old@, order@),
{
    let mut keys: Vec<Key> = Vec::new();
    let mut i: usize = 0;
    while i < old.len()
        invariant
            i <= old.len(),
            keys@.len() == i,
            forall|k: int| 0 <= k < i ==> link_key(old@[k], #[trigger] keys@[k]),
        decreases old.len() - i,
    {
        let p = &old[i];
        let first: i128 = if p.external_id.is_none() { 1 } else { 0 };
        let print: i128 = if p.fingerprint.is_none() { 2 } else { 0 };
        let marked: i128 = if p.reconciled_at.is_none() { 1 } else { 0 };
        keys.push(Key { first, second: print + marked, text: String::new() });
        i = i + 1;
    }
    let order = stable_order(&keys);
    assert(stable(keys@, order@));
    order
}

fn is_replacing(p: &Prepared, old: &Posting, way: u8) -> (r: bool)
    ensures
        r == replaces(*p, *old, way as int),
{
    if p.account_id != old.account_id || !p.quantity.has_unit_of(&old.quantity) || p.quantity.minor() != old.quantity.minor() {
        return false;
    }
    if way == 0 {
        old.external_id.is_some() && equal_options(&p.external_id, &old.external_id)
    } else if way == 1 {
        old.fingerprint.is_some() && equal_options(&p.fingerprint, &old.fingerprint)
    } else {
        !(old.external_id.is_some() && p.external_id.is_some() && !equal_options(&old.external_id, &p.external_id)) && !(
        old.fingerprint.is_some() && p.fingerprint.is_some() && !equal_options(&old.fingerprint, &p.fingerprint))
    }
}

fn find_replacing(rows: &Vec<Prepared>, used: &Vec<bool>, old: &Posting, way: u8) -> (r: Option<usize>)
    requires
        used@.len() == rows@.len(),
    ensures
        match r {
            Some(i) => i < rows@.len() && first_replacing(rows@, used@, *old, way as int, 0) == Some(i as int) && !used@[i as int]
                && can_replace(rows@[i as int], *old),
            None => first_replacing(rows@, used@, *old, way as int, 0) is None,
        },
{
    let mut i: usize = 0;
    while i < rows.len()
        invariant
            i <= rows.len() == used.len(),
            first_replacing(rows@, used@, *old, way as int, 0) == first_replacing(rows@, used@, *old, way as int, i as int),
        decreases rows.len() - i,
    {
        if !used[i] && is_replacing(&rows[i], old, way) {
            return Some(i);
        }
        i = i + 1;
    }
    None
}

fn find_replacement(rows: &Vec<Prepared>, used: &Vec<bool>, old: &Posting) -> (r: Option<usize>)
    requires
        used@.len() == rows@.len(),
    ensures
        match r {
            Some(i) => i < rows@.len() && replacement(rows@, used@, *old) == Some(i as int) && !used@[i as int] && can_replace(
                rows@[i as int],
                *old,
            ),
            None => replacement(rows@, used@, *old) is None,
        },
{
    if let Some(i) = find_replacing(rows, used, old, 0) {
        return Some(i);
    }
    if let Some(i) = find_replacing(rows, used, old, 1) {
        return Some(i);
    }
    find_replacing(rows, used, old, 2)
}

pub open spec fn link_pairs(v: Seq<ReplacementLink>) -> Seq<(int, int)> {
    v.map_values(|l: ReplacementLink| (l.position as int, l.old as int))
}

proof fn lemma_links_failed(rows: Seq<Prepared>, old: Seq<Posting>, order: Seq<usize>, n: int, k: int)
    requires
        0 <= n <= k,
        links_after(rows, old, order, n) is Err,
    ensures
        links_after(rows, old, order, k) == links_after(rows, old, order, n),
    decreases k - n,
{
    if n < k {
        lemma_links_failed(rows, old, order, n, k - 1);
    }
}

/// Whether no new posting is linked twice, and each link pairs equal postings.
pub open spec fn one_to_one(links: Seq<ReplacementLink>, rows: Seq<Prepared>, old: Seq<Posting>) -> bool {
    &&& forall|i: int, j: int| 0 <= i < j < links.len() ==> (#[trigger] links[i]).position != (#[trigger] links[j]).position
    &&& forall|i: int|
        0 <= i < links.len() ==> (#[trigger] links[i]).position < rows.len() && links[i].old < old.len() && can_replace(
            rows[links[i].position as int],
            old[links[i].old as int],
        )
}

/// Matches replacements one to one. Anonymous equal postings keep the order in which they occur;
/// bank references and fingerprints take precedence when the client supplies them.
pub fn replacement_links(old: &[Posting], rows: &Vec<Prepared>) -> (r: Result<Vec<ReplacementLink>>)
    ensures
        exists|order: Seq<usize>| #[trigger]
            link_order(old@, order) && ({
                let done = links_after(rows@, old@, order, old@.len() as int);
                match r {
                    Ok(v) => done is Ok && link_pairs(v@) == (done->Ok_0).0 && one_to_one(v@, rows@, old@),
                    Err(e) => done is Err && e.locked(done->Err_0),
                }
            }),
{
    let order = visit_order(old);
    let mut used: Vec<bool> = Vec::new();
    let mut i: usize = 0;
    while i < rows.len()
        invariant
            i <= rows.len(),
            used@ == Seq::new(i as nat, |k: int| false),
        decreases rows.len() - i,
    {
        used.push(false);
        i = i + 1;
        assert(used@ =~= Seq::new(i as nat, |k: int| false));
    }
    let mut links: Vec<ReplacementLink> = Vec::new();
    assert(link_pairs(links@) =~= Seq::<(int, int)>::empty());
    let mut n: usize = 0;
    while n < order.len()
        invariant
            n <= order.len() == old@.len(),
            link_order(old@, order@),
            used@.len() == rows@.len(),
            links_after(rows@, old@, order@, n as int) == Ok::<(Seq<(int, int)>, Seq<bool>), Seq<char>>(
                (link_pairs(links@), used@),
            ),
            one_to_one(links@, rows@, old@),
            forall|k: int| 0 <= k < links@.len() ==> used@[(#[trigger] links@[k]).position as int],
        decreases order.len() - n,
    {
        let at: usize = order[n];
        let p = &old[at];
        match find_replacement(rows, &used, p) {
            Some(index) => {
                let ghost before = links@;
                used.set(index, true);
                links.push(ReplacementLink { position: index, old: at });
                assert(link_pairs(links@) =~= link_pairs(before).push((index as int, at as int)));
                proof {
                    assert forall|k: int| 0 <= k < before.len() implies links@[k] == before[k] by {}
                }
            },
            None => {
                if p.reconciled_at.is_some() {
                    proof {
                        lemma_links_failed(rows@, old@, order@, n + 1, old@.len() as int);
                    }
                    return Err(
                        locked(
                            cat3(
                                "the reconciled posting on ",
                                p.account_path.as_str(),
                                " must survive unchanged; void the entry instead",
                            ).as_str(),
                        ),
                    );
                }
            },
        }
        n = n + 1;
    }
    assert(link_order(old@, order@));
    Ok(links)
}

/// Whether a posting keeps the rate of the one it replaces. Re-sending an unchanged placeholder
/// never makes it a manual valuation, even when correcting the date; a revaluation, which has no
/// edited date, replaces where the rate comes from.
pub open spec fn rate_survives(amount: crate::money::Amount, old: Posting, before: Date, edited: Option<Date>) -> bool {
    &&& same_unit(amount, old.amount@) && amount.minor == old.amount@.minor
    &&& edited is Some && (edited->0 == before || old.rate_source@ == "missing"@)
}

pub fn keeps_rate(p: &Prepared, old: &Posting, before: Date, edited: Option<Date>) -> (r: bool)
    ensures
        r == rate_survives(p.amount@, *old, before, edited),
{
    match edited {
        Some(date) => p.amount.has_unit_of(&old.amount) && p.amount.minor() == old.amount.minor() && (date.same(before) || same(
            old.rate_source.as_str(),
            "missing",
        )),
        None => false,
    }
}

/// What is asked of an entry that is to be voided.
pub enum VoidStep {
    /// It is posted: a reversal is made.
    Reverse,
    /// It is void already, by this reversal.
    Done(i64),
}

pub open spec fn void_refusal(entry: JournalEntry) -> Option<Refusal> {
    if entry.status == EntryStatus::Draft {
        Some(Refusal::Invalid("#"@ + int_text(entry.id as int) + " is a draft; use draft delete instead"@))
    } else if entry.status == EntryStatus::Void && entry.reversed_by_id is None {
        Some(Refusal::Invalid("void entry #"@ + int_text(entry.id as int) + " has no reversal"@))
    } else {
        None
    }
}

/// Decides what voiding an entry does. Drafts are never deleted by a void request.
pub fn review_void(entry: &JournalEntry) -> (r: Result<VoidStep>)
    ensures
        match r {
            Ok(VoidStep::Reverse) => void_refusal(*entry) is None && entry.status == EntryStatus::Posted,
            Ok(VoidStep::Done(id)) => entry.status == EntryStatus::Void && entry.reversed_by_id == Some(id),
            Err(e) => void_refusal(*entry) == Some(e@),
        },
{
    match entry.status {
        EntryStatus::Draft => Err(
            invalid(cat3("#", int_string(entry.id).as_str(), " is a draft; use draft delete instead").as_str()),
        ),
        EntryStatus::Void => match entry.reversed_by_id {
            Some(id) => Ok(VoidStep::Done(id)),
            None => Err(invalid(cat3("void entry #", int_string(entry.id).as_str(), " has no reversal").as_str())),
        },
        EntryStatus::Posted => Ok(VoidStep::Reverse),
    }
}

/// Whether `x` takes back what the posting `p` did.
pub open spec fn reverses(p: Posting, x: PostingInput) -> bool {
    &&& x.account_id == p.account_id
    &&& x.quantity@ == normal((-p.quantity@.minor, p.quantity@.precision))
    &&& x.amount is Some && x.amount->0@ == normal((-p.amount@.minor, p.amount@.precision))
    &&& x.memo == p.memo
    &&& x.metadata@.len() == 1
    &&& x.metadata@[0].key@ == "reverses_posting"@
    &&& x.metadata@[0].value == MetaValue::Number(p.id)
    &&& x.external_id is None && x.fingerprint is None
    &&& !x.balance && x.value_in is None
}

/// Whether a posting has a quantity and an amount whose negation can be written.
pub open spec fn reversible(p: Posting) -> bool {
    p.quantity@.minor != i64::MIN && p.amount@.minor != i64::MIN
}

pub open spec fn reversal_text(id: int, reason: Seq<char>) -> Seq<char> {
    if trimmed(reason).len() == 0 {
        "Reversal of #"@ + int_text(id)
    } else {
        "Reversal of #"@ + int_text(id) + ": "@ + trimmed(reason)
    }
}

pub open spec fn reversal_refusal(entry: JournalEntry, entity: Entity, date: Date) -> Option<Refusal> {
    if entry.status != EntryStatus::Posted {
        Some(Refusal::Conflict("entry #"@ + int_text(entry.id as int) + " is not posted"@))
    } else if is_locked(entity, date) {
        Some(Refusal::Locked(lock_text(entity, date)))
    } else if exists|i: int| 0 <= i < entry.postings@.len() && !reversible(#[trigger] entry.postings@[i]) {
        Some(Refusal::Invalid("money negation overflow"@))
    } else {
        None
    }
}

pub open spec fn reversal_date(entry: JournalEntry, date: Option<Date>) -> Date {
    match date {
        Some(d) => d,
        None => entry.date,
    }
}

fn reverse_posting(p: &Posting) -> (r: Result<PostingInput>)
    ensures
        match r {
            Ok(x) => reversible(*p) && reverses(*p, x),
            Err(e) => !reversible(*p) && e@ == Refusal::Invalid("money negation overflow"@),
        },
{
    let quantity = match p.quantity.checked_neg() {
        Ok(m) => m,
        Err(e) => {
            return Err(e);
        },
    };
    let amount = match p.amount.checked_neg() {
        Ok(m) => m,
        Err(e) => {
            return Err(e);
        },
    };
    let mut x = PostingInput::new(p.account_id, quantity.major());
    x.amount = Some(amount.major());
    x.memo = p.memo.clone();
    let mut metadata: Vec<MetaEntry> = Vec::new();
    metadata.push(MetaEntry { key: own("reverses_posting"), value: MetaValue::Number(p.id) });
    x.metadata = metadata;
    Ok(x)
}

/// The entry that voids a posted one: every posting negated.
pub fn reversal_input(entry: &JournalEntry, entity: &Entity, date: Option<Date>, reason: &str) -> (r: Result<EntryInput>)
    ensures
        ({
            let on = reversal_date(*entry, date);
            match r {
                Ok(x) => {
                    &&& reversal_refusal(*entry, *entity, on) is None
                    &&& x.entity_id == entry.entity_id && x.date == on
                    &&& x.payee == entry.payee
                    &&& x.description@ == reversal_text(entry.id as int, reason@)
                    &&& x.notes@.len() == 0
                    &&& x.origin@ == "system"@
                    &&& x.status == EntryStatus::Posted
                    &&& x.reverses_id == Some(entry.id)
                    &&& x.counterpart_id is None && x.template_id is None && x.template_version is None && !x.absorb_fx
                    &&& x.postings@.len() == entry.postings@.len()
                    &&& forall|i: int| 0 <= i < x.postings@.len() ==> reverses(entry.postings@[i], #[trigger] x.postings@[i])
                },
                Err(e) => reversal_refusal(*entry, *entity, on) == Some(e@),
            }
        }),
{
    if entry.status != EntryStatus::Posted {
        return Err(conflict(cat3("entry #", int_string(entry.id).as_str(), " is not posted").as_str()));
    }
    let on = match date {
        Some(d) => d,
        None => entry.date,
    };
    if let Err(e) = check_lock(entity, on) {
        return Err(e);
    }
    let mut postings: Vec<PostingInput> = Vec::new();
    let mut i: usize = 0;
    while i < entry.postings.len()
        invariant
            i <= entry.postings.len(),
            postings@.len() == i,
            entry.status == EntryStatus::Posted,
            !is_locked(*entity, on),
            on == reversal_date(*entry, date),
            forall|k: int| 0 <= k < i ==> reversible(#[trigger] entry.postings@[k]),
            forall|k: int| 0 <= k < i ==> reverses(entry.postings@[k], #[trigger] postings@[k]),
        decreases entry.postings.len() - i,
    {
        match reverse_posting(&entry.postings[i]) {
            Ok(x) => {
                postings.push(x);
            },
            Err(e) => {
                assert(!reversible(entry.postings@[i as int]));
                return Err(e);
            },
        }
        i = i + 1;
    }
    let mut input = EntryInput::new(entry.entity_id, on);
    input.payee = entry.payee.clone();
    input.description = if is_blank(reason) {
        cat("Reversal of #", int_string(entry.id).as_str())
    } else {
        cat4("Reversal of #", int_string(entry.id).as_str(), ": ", trim(reason).as_str())
    };
    input.origin = own("system");
    input.reverses_id = Some(entry.id);
    input.postings = postings;
    Ok(input)
}

/// The quantities of postings on an account, in minor units, together.
pub open spec fn account_sum(v: Seq<Posting>, account: i64) -> int
    decreases v.len(),
{
    if v.len() == 0 {
        0
    } else {
        account_sum(v.drop_last(), account) + (if v.last().account_id == account { v.last().quantity@.minor } else { 0 })
    }
}

/// Whether the postings `back` undo the postings `v`, one by one.
pub open spec fn undoes(v: Seq<Posting>, back: Seq<Posting>) -> bool {
    v.len() == back.len() && forall|i: int|
        0 <= i < v.len() ==> (#[trigger] back[i]).account_id == v[i].account_id && back[i].quantity@.minor == -v[i].quantity@.minor
            && back[i].amount@.minor == -v[i].amount@.minor
}

/// An entry and its reversal leave the balance of every account as it was.
pub proof fn law_reversal_cancels(v: Seq<Posting>, back: Seq<Posting>, account: i64)
    requires
        undoes(v, back),
    ensures
        account_sum(v, account) + account_sum(back, account) == 0,
    decreases v.len(),
{
    if v.len() > 0 {
        assert forall|i: int| 0 <= i < v.drop_last().len() implies (#[trigger] back.drop_last()[i]).account_id
            == v.drop_last()[i].account_id && back.drop_last()[i].quantity@.minor == -v.drop_last()[i].quantity@.minor
            && back.drop_last()[i].amount@.minor == -v.drop_last()[i].amount@.minor by {
            assert(back.drop_last()[i] == back[i]);
        }
        law_reversal_cancels(v.drop_last(), back.drop_last(), account);
        assert(back[v.len() - 1].account_id == v[v.len() - 1].account_id);
    }
}

/// Whether a draft can be posted: a posted entry stays as it is, a void one cannot.
pub fn check_post(entry: &JournalEntry, entity: &Entity) -> (r: Result<bool>)
    ensures
        match r {
            Ok(posts) => posts == (entry.status == EntryStatus::Draft) && entry.status != EntryStatus::Void && (posts ==> !is_locked(
                *entity,
                entry.date,
            )),
            Err(e) => if entry.status == EntryStatus::Void {
                e.locked("a void entry cannot be posted"@)
            } else {
                entry.status == EntryStatus::Draft && is_locked(*entity, entry.date) && e.locked(lock_text(*entity, entry.date))
            },
        },
{
    match entry.status {
        EntryStatus::Posted => Ok(false),
        EntryStatus::Void => Err(locked("a void entry cannot be posted")),
        EntryStatus::Draft => match check_lock(entity, entry.date) {
            Ok(_) => Ok(true),
            Err(e) => Err(e),
        },
    }
}

/// Whether an entry can be deleted: only drafts can.
pub fn check_delete(entry: &JournalEntry) -> (r: Result<()>)
    ensures
        match r {
            Ok(_) => entry.status == EntryStatus::Draft,
            Err(e) => entry.status != EntryStatus::Draft && e.locked(
                "only drafts can be deleted; void posted entries instead"@,
            ),
        },
{
    if entry.status != EntryStatus::Draft {
        return Err(locked("only drafts can be deleted; void posted entries instead"));
    }
    Ok(())
}

/// Whether some posting of an entry was booked without a rate.
pub open spec fn lacks_rate(v: Seq<Posting>) -> bool {
    exists|i: int| 0 <= i < v.len() && (#[trigger] v[i]).rate_source@ == "missing"@
}

pub fn misses_rate(v: &[Posting]) -> (r: bool)
    ensures
        r == lacks_rate(v@),
{
    let mut i: usize = 0;
    while i < v.len()
        invariant
            i <= v.len(),
            forall|k: int| 0 <= k < i ==> (#[trigger] v@[k]).rate_source@ != "missing"@,
        decreases v.len() - i,
    {
        if same(v[i].rate_source.as_str(), "missing") {
            assert(v@[i as int].rate_source@ == "missing"@);
            return true;
        }
        i = i + 1;
    }
    false
}

/// Whether postings that were prepared again still lack a rate.
pub fn prepared_misses_rate(v: &[Prepared]) -> (r: bool)
    ensures
        r == exists|i: int| 0 <= i < v@.len() && (#[trigger] v@[i]).rate_source@ == "missing"@,
{
    let mut i: usize = 0;
    while i < v.len()
        invariant
            i <= v.len(),
            forall|k: int| 0 <= k < i ==> (#[trigger] v@[k]).rate_source@ != "missing"@,
        decreases v.len() - i,
    {
        if same(v[i].rate_source.as_str(), "missing") {
            assert(v@[i as int].rate_source@ == "missing"@);
            return true;
        }
        i = i + 1;
    }
    false
}

/// The value in another commodity that a posting carries along, where it can be read.
pub open spec fn stored_value(p: Posting) -> Option<(Num, Seq<char>)> {
    match meta_at(p.metadata@, "value_in"@) {
        Some(MetaValue::Value { quantity, commodity }) => if number_text(quantity@).len() > 0 {
            match decimal_in(number_text(quantity@)) {
                Some(q) => Some((q, commodity@)),
                None => None,
            }
        } else {
            None
        },
        _ => None,
    }
}

/// Whether `x` asks for a posting again so that its value is found anew.
pub open spec fn asks_again(p: Posting, x: PostingInput) -> bool {
    let balances = meta_flag(p.metadata@, "balance"@);
    let stored = meta_at(p.metadata@, "value_in"@) is Some;
    &&& x.account_id == p.account_id
    &&& x.quantity@ == normal((p.quantity@.minor, p.quantity@.precision))
    &&& x.memo == p.memo
    &&& x.metadata@ == p.metadata@
    &&& x.external_id == p.external_id && x.fingerprint == p.fingerprint
    &&& x.balance == balances
    &&& match x.value_in {
        Some((q, c)) => !balances && stored_value(p) == Some((q@, c@)),
        None => balances || stored_value(p) is None,
    }
    &&& match x.amount {
        Some(a) => !balances && !stored && p.rate_source@ == "input"@ && a@ == normal((p.amount@.minor, p.amount@.precision)),
        None => balances || stored || p.rate_source@ != "input"@,
    }
}

/// The postings that are not made by the books themselves to take an exchange difference.
pub open spec fn booked(v: Seq<Posting>) -> Seq<Posting>
    decreases v.len(),
{
    if v.len() == 0 {
        v
    } else if meta_flag(v.last().metadata@, "fx_auto"@) {
        booked(v.drop_last())
    } else {
        booked(v.drop_last()).push(v.last())
    }
}

fn ask_again(p: &Posting) -> (x: PostingInput)
    ensures
        asks_again(*p, x),
{
    let mut x = PostingInput::new(p.account_id, p.quantity.major());
    x.memo = p.memo.clone();
    x.metadata = meta_copy(&p.metadata);
    x.external_id = p.external_id.clone();
    x.fingerprint = p.fingerprint.clone();
    if has_flag(&p.metadata, "balance") {
        x.balance = true;
    } else {
        match meta_get(&p.metadata, "value_in") {
            Some(MetaValue::Value { quantity, commodity }) => {
                if let Ok(q) = parse(quantity.as_str()) {
                    x.value_in = Some((q, commodity.clone()));
                }
            },
            Some(_) => {},
            None => {
                if same(p.rate_source.as_str(), "input") {
                    x.amount = Some(p.amount.major());
                }
            },
        }
    }
    x
}

/// The postings with which an entry is prepared anew now that prices exist, and whether one of
/// them balances it.
pub fn revalue_inputs(v: &[Posting]) -> (r: (Vec<PostingInput>, bool))
    ensures
        r.0@.len() == booked(v@).len(),
        forall|i: int| 0 <= i < r.0@.len() ==> asks_again(booked(v@)[i], #[trigger] r.0@[i]),
        r.1 == exists|i: int| 0 <= i < r.0@.len() && (#[trigger] r.0@[i]).balance,
{
    let mut out: Vec<PostingInput> = Vec::new();
    let mut balances = false;
    let mut i: usize = 0;
    while i < v.len()
        invariant
            i <= v.len(),
            out@.len() == booked(v@.take(i as int)).len(),
            forall|k: int| 0 <= k < out@.len() ==> asks_again(booked(v@.take(i as int))[k], #[trigger] out@[k]),
            balances == exists|k: int| 0 <= k < out@.len() && (#[trigger] out@[k]).balance,
        decreases v.len() - i,
    {
        assert(v@.take(i + 1).drop_last() == v@.take(i as int));
        if !has_flag(&v[i].metadata, "fx_auto") {
            let x = ask_again(&v[i]);
            let b = x.balance;
            let ghost before = out@;
            out.push(x);
            proof {
                assert forall|k: int| 0 <= k < out@.len() implies asks_again(
                    booked(v@.take(i + 1))[k],
                    #[trigger] out@[k],
                ) by {
                    if k < before.len() {
                        assert(out@[k] == before[k]);
                        assert(asks_again(booked(v@.take(i as int))[k], before[k]));
                    }
                }
                if b {
                    assert(out@[before.len() as int].balance);
                } else if balances {
                    let k = choose|k: int| 0 <= k < before.len() && (#[trigger] before[k]).balance;
                    assert(out@[k].balance);
                } else {
                    assert forall|k: int| 0 <= k < out@.len() implies !(#[trigger] out@[k]).balance by {
                        if k < before.len() {
                            assert(out@[k] == before[k]);
                        }
                    }
                }
            }
            balances = balances || b;
        }
        i = i + 1;
    }
    assert(v@.take(i as int) == v@);
    (out, balances)
}

} // verus!
