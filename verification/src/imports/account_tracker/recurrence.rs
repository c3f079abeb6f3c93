//! When a repeating transaction occurs, and with which amount.

use vstd::prelude::*;

use crate::date::{add_months, days_later, later, law_days_later, law_months_later, months_later, weekday, weekday_of, Date};
use crate::imports::account_tracker::{AtTransaction, Override, Repeat, ShownRepeat, ShownTransaction};
use crate::text::{lower, lowercase_of, lowered, same, starts, starts_with, to_lowercase};

verus! {

/// A date moved off the weekend, to the working day before or after it.
pub open spec fn off_weekend(d: Date, rule: Seq<char>) -> Option<Date> {
    let r = lowered(rule);
    let earlier = starts(r, "before"@) || starts(r, "friday"@);
    let day = weekday_of(d);
    if r.len() == 0 || r == "none"@ {
        Some(d)
    } else if earlier && day == 5 {
        later(d, -1)
    } else if earlier && day == 6 {
        later(d, -2)
    } else if !earlier && day == 5 {
        later(d, 2)
    } else if !earlier && day == 6 {
        later(d, 1)
    } else {
        Some(d)
    }
}

fn shift_weekend(d: Date, rule: &str) -> (r: Option<Date>)
    ensures
        r == off_weekend(d, rule@),
{
    let rule = lower(rule);
    if rule.as_str().is_empty() || same(rule.as_str(), "none") {
        return Some(d);
    }
    let earlier = starts_with(rule.as_str(), "before") || starts_with(rule.as_str(), "friday");
    let day = weekday(d);
    if earlier && day == 5 {
        days_later(d, -1)
    } else if earlier && day == 6 {
        days_later(d, -2)
    } else if !earlier && day == 5 {
        days_later(d, 2)
    } else if !earlier && day == 6 {
        days_later(d, 1)
    } else {
        Some(d)
    }
}

/// The date on which the occurrence `seq`, counted from zero, falls before any edit, where the
/// calendar reaches it.
pub open spec fn scheduled_on(date: Date, rep: ShownRepeat, seq: int) -> Option<Date> {
    let unit = lowercase_of(rep.unit);
    let plain = if starts(unit, "da"@) {
        later(date, seq * rep.every)
    } else if starts(unit, "week"@) {
        later(date, 7 * (seq * rep.every))
    } else if starts(unit, "fortnight"@) {
        later(date, 14 * (seq * rep.every))
    } else if starts(unit, "year"@) {
        months_later(date, 12 * (seq * rep.every))
    } else {
        months_later(date, seq * rep.every)
    };
    match plain {
        Some(d) => off_weekend(d, rep.weekend),
        None => None,
    }
}

fn scheduled(date: Date, rep: &Repeat, unit: &str, seq: i64) -> (r: Option<Date>)
    requires
        0 <= seq <= 5000,
        unit@ == lowercase_of(rep.unit@),
    ensures
        r == scheduled_on(date, rep@, seq as int),
{
    assert(-5000 * 0x8000_0000_0000_0000 <= seq * rep.every <= 5000 * 0x8000_0000_0000_0000) by (nonlinear_arith)
        requires
            0 <= seq <= 5000,
            -0x8000_0000_0000_0000 <= rep.every <= 0x8000_0000_0000_0000,
    ;
    let steps: i128 = (seq as i128) * (rep.every as i128);
    let plain = if starts_with(unit, "da") {
        days_later(date, steps)
    } else if starts_with(unit, "week") {
        days_later(date, 7 * steps)
    } else if starts_with(unit, "fortnight") {
        days_later(date, 14 * steps)
    } else if starts_with(unit, "year") {
        add_months(date, 12 * steps)
    } else {
        add_months(date, steps)
    };
    match plain {
        Some(d) => shift_weekend(d, rep.weekend.as_str()),
        None => None,
    }
}

/// Which of the first `k` edits with a negative sequence gives the amount of the occurrence `n`: the
/// one that reaches back to it from nearest above, or, read forward, the one that starts nearest below
/// it.
pub open spec fn standing_edit(overrides: Seq<Override>, n: int, forward: bool, k: nat) -> Option<int>
    decreases k,
{
    if k == 0 {
        None
    } else {
        let best = standing_edit(overrides, n, forward, (k - 1) as nat);
        let s = overrides[k - 1].sequence;
        if forward {
            if s < 0 && -s <= n && (best is None || s <= overrides[best->0].sequence) {
                Some(k - 1)
            } else {
                best
            }
        } else {
            if s < 0 && -s > n && (best is None || s > overrides[best->0].sequence) {
                Some(k - 1)
            } else {
                best
            }
        }
    }
}

/// The amount of the occurrence `n` before edits of this one occurrence.
pub open spec fn standing_amount(pence: i64, overrides: Seq<Override>, n: int, forward: bool) -> i64 {
    match standing_edit(overrides, n, forward, overrides.len()) {
        Some(i) => match overrides[i].pence {
            Some(p) => p,
            None => pence,
        },
        None => pence,
    }
}

/// The amount, the date and whether the occurrence is deleted, after the edits among the first `k`
/// that name it.
pub open spec fn edited(overrides: Seq<Override>, n: int, start: (i64, Date, bool), k: nat) -> (i64, Date, bool)
    decreases k,
{
    if k == 0 {
        start
    } else {
        let before = edited(overrides, n, start, (k - 1) as nat);
        let o = overrides[k - 1];
        if o.sequence == n {
            (
                if o.pence is Some {
                    o.pence->0
                } else {
                    before.0
                },
                if o.date is Some {
                    o.date->0
                } else {
                    before.1
                },
                before.2 || o.deleted,
            )
        } else {
            before
        }
    }
}

fn amount_before_edits(pence: i64, overrides: &Vec<Override>, n: i64, forward: bool) -> (r: i64)
    requires
        1 <= n <= 5001,
    ensures
        r == standing_amount(pence, overrides@, n as int, forward),
{
    let mut best: Option<usize> = None;
    let mut k: usize = 0;
    while k < overrides.len()
        invariant
            k <= overrides@.len(),
            1 <= n <= 5001,
            match best {
                Some(i) => i < k && standing_edit(overrides@, n as int, forward, k as nat) == Some(i as int),
                None => standing_edit(overrides@, n as int, forward, k as nat) is None,
            },
        decreases overrides@.len() - k,
    {
        let s = overrides[k].sequence;
        let reaches = if forward {
            s < 0 && s >= -n && match best {
                Some(i) => s <= overrides[i].sequence,
                None => true,
            }
        } else {
            s < -n && match best {
                Some(i) => s > overrides[i].sequence,
                None => true,
            }
        };
        if reaches {
            best = Some(k);
        }
        k = k + 1;
    }
    match best {
        Some(i) => match overrides[i].pence {
            Some(p) => p,
            None => pence,
        },
        None => pence,
    }
}

fn edit(overrides: &Vec<Override>, n: i64, pence: i64, date: Date) -> (r: (i64, Date, bool))
    ensures
        r == edited(overrides@, n as int, (pence, date, false), overrides@.len()),
{
    let mut amount: i64 = pence;
    let mut on = date;
    let mut deleted = false;
    let mut k: usize = 0;
    while k < overrides.len()
        invariant
            k <= overrides@.len(),
            (amount, on, deleted) == edited(overrides@, n as int, (pence, date, false), k as nat),
        decreases overrides@.len() - k,
    {
        let o = &overrides[k];
        if o.sequence == n {
            if o.deleted {
                deleted = true;
            }
            if let Some(p) = o.pence {
                amount = p;
            }
            if let Some(d) = o.date {
                on = d;
            }
        }
        k = k + 1;
    }
    (amount, on, deleted)
}

pub type Occurrence = (i64, Date, i64);

/// How many occurrences a repeat has at most.
pub open spec fn most(rep: ShownRepeat) -> int {
    if lowered(rep.end) == "after"@ {
        if rep.after > 1 {
            rep.after as int
        } else {
            1
        }
    } else {
        5000
    }
}

/// The occurrences from `seq` on, behind those found before.
pub open spec fn occurring(
    date: Date,
    pence: i64,
    rep: ShownRepeat,
    until: Date,
    forward: bool,
    seq: int,
    found: Seq<Occurrence>,
) -> Option<Seq<Occurrence>>
    decreases 5001 - seq,
{
    if seq < 0 || seq > 5000 {
        Some(found)
    } else {
        match scheduled_on(date, rep, seq) {
            None => None,
            Some(on) => {
                let n = seq + 1;
                let (amount, day, deleted) = edited(
                    rep.overrides,
                    n,
                    (standing_amount(pence, rep.overrides, n, forward), on, false),
                    rep.overrides.len(),
                );
                if rep.on is Some && lowered(rep.end) == "on"@ && rep.on->0.before(on) {
                    Some(found)
                } else if seq >= most(rep) {
                    Some(found)
                } else if until.before(on) && until.before(day) {
                    Some(found)
                } else {
                    occurring(
                        date,
                        pence,
                        rep,
                        until,
                        forward,
                        seq + 1,
                        if !deleted && amount != 0 && !until.before(day) {
                            found.push((n as i64, day, amount))
                        } else {
                            found
                        },
                    )
                }
            },
        }
    }
}

/// The occurrences of a transaction up to a date, each with its sequence, its date and its amount.
/// There is no answer where the calendar ends first.
pub open spec fn occurrences_of(t: ShownTransaction, until: Date, forward: bool) -> Option<Seq<Occurrence>> {
    match t.repeat {
        None => Some(seq![(0i64, t.date, t.pence)]),
        Some(rep) => occurring(t.date, t.pence, rep, until, forward, 0, Seq::empty()),
    }
}

/// Occurrences of a repeating transaction up to `until`: (sequence, date, pence).
pub fn occurrences(tx: &AtTransaction, until: Date) -> (r: Option<Vec<Occurrence>>)
    ensures
        match r {
            Some(v) => occurrences_of(tx@, until, false) == Some(v@),
            None => occurrences_of(tx@, until, false) is None,
        },
{
    occurrences_with(tx, until, false)
}

/// Occurrences under either reading of a negative sequence: it changes that occurrence and all that
/// follow (`forward`), or all that come before it.
pub fn occurrences_with(tx: &AtTransaction, until: Date, forward: bool) -> (r: Option<Vec<Occurrence>>)
    ensures
        match r {
            Some(v) => occurrences_of(tx@, until, forward) == Some(v@),
            None => occurrences_of(tx@, until, forward) is None,
        },
{
    let rep = match &tx.repeat {
        Some(r) => r,
        None => {
            let mut one: Vec<Occurrence> = Vec::new();
            one.push((0, tx.date, tx.pence));
            assert(one@ =~= seq![(0i64, tx.date, tx.pence)]);
            return Some(one);
        },
    };
    let unit = to_lowercase(rep.unit.as_str());
    let end = lower(rep.end.as_str());
    let limit: i64 = if same(end.as_str(), "after") {
        if rep.after > 1 {
            rep.after
        } else {
            1
        }
    } else {
        5000
    };
    let mut out: Vec<Occurrence> = Vec::new();
    let mut seq: i64 = 0;
    assert(out@ =~= Seq::<Occurrence>::empty());
    while seq <= 5000
        invariant
            0 <= seq <= 5001,
            unit@ == lowercase_of(rep.unit@),
            end@ == lowered(rep.end@),
            limit == most(rep@),
            tx@.repeat == Some(rep@),
            occurrences_of(tx@, until, forward) == occurring(tx.date, tx.pence, rep@, until, forward, seq as int, out@),
        decreases 5001 - seq,
    {
        let on = match scheduled(tx.date, rep, unit.as_str(), seq) {
            Some(d) => d,
            None => {
                return None;
            },
        };
        if let Some(last) = rep.on {
            if same(end.as_str(), "on") && last.is_before(on) {
                return Some(out);
            }
        }
        if seq >= limit {
            return Some(out);
        }
        let n: i64 = seq + 1;
        let standing = amount_before_edits(tx.pence, &rep.overrides, n, forward);
        let (amount, day, deleted) = edit(&rep.overrides, n, standing, on);
        if until.is_before(on) && until.is_before(day) {
            return Some(out);
        }
        if !deleted && amount != 0 && !until.is_before(day) {
            out.push((n, day, amount));
        }
        seq = seq + 1;
    }
    Some(out)
}

/// Whether occurrences fall no later than a date and move money.
pub open spec fn all_due(v: Seq<Occurrence>, until: Date) -> bool {
    forall|i: int| 0 <= i < v.len() ==> !until.before((#[trigger] v[i]).1) && v[i].2 != 0
}

proof fn lemma_occurring_due(date: Date, pence: i64, rep: ShownRepeat, until: Date, forward: bool, seq: int, found: Seq<Occurrence>)
    requires
        all_due(found, until),
    ensures
        occurring(date, pence, rep, until, forward, seq, found) matches Some(v) ==> all_due(v, until),
    decreases 5001 - seq,
{
    if 0 <= seq <= 5000 {
        if let Some(on) = scheduled_on(date, rep, seq) {
            let n = seq + 1;
            let (amount, day, deleted) = edited(
                rep.overrides,
                n,
                (standing_amount(pence, rep.overrides, n, forward), on, false),
                rep.overrides.len(),
            );
            let more = if !deleted && amount != 0 && !until.before(day) {
                found.push((n as i64, day, amount))
            } else {
                found
            };
            lemma_occurring_due(date, pence, rep, until, forward, seq + 1, more);
        }
    }
}

/// A repeat gives no occurrence after the date up to which it is read, and none without an amount.
pub proof fn law_occurrences_due(t: ShownTransaction, until: Date, forward: bool)
    requires
        t.repeat is Some,
    ensures
        occurrences_of(t, until, forward) matches Some(v) ==> all_due(v, until),
{
    lemma_occurring_due(t.date, t.pence, t.repeat->0, until, forward, 0, Seq::empty());
}

/// Whether occurrences are numbered upwards, below `end`.
pub open spec fn numbered_below(v: Seq<Occurrence>, end: int) -> bool {
    &&& forall|i: int, j: int| 0 <= i < j < v.len() ==> (#[trigger] v[i]).0 < (#[trigger] v[j]).0
    &&& forall|i: int| 0 <= i < v.len() ==> (#[trigger] v[i]).0 < end
}

proof fn lemma_occurring_numbered(date: Date, pence: i64, rep: ShownRepeat, until: Date, forward: bool, seq: int, found: Seq<Occurrence>)
    requires
        numbered_below(found, seq + 1),
    ensures
        occurring(date, pence, rep, until, forward, seq, found) matches Some(v) ==> forall|i: int, j: int|
            0 <= i < j < v.len() ==> (#[trigger] v[i]).0 < (#[trigger] v[j]).0,
    decreases 5001 - seq,
{
    if 0 <= seq <= 5000 {
        if let Some(on) = scheduled_on(date, rep, seq) {
            let n = seq + 1;
            let (amount, day, deleted) = edited(
                rep.overrides,
                n,
                (standing_amount(pence, rep.overrides, n, forward), on, false),
                rep.overrides.len(),
            );
            let more = if !deleted && amount != 0 && !until.before(day) {
                found.push((n as i64, day, amount))
            } else {
                found
            };
            lemma_occurring_numbered(date, pence, rep, until, forward, seq + 1, more);
        }
    }
}

/// The occurrences of a transaction have numbers of their own, in their order.
pub proof fn law_occurrences_numbered(t: ShownTransaction, until: Date, forward: bool)
    ensures
        occurrences_of(t, until, forward) matches Some(v) ==> forall|i: int, j: int|
            0 <= i < j < v.len() ==> (#[trigger] v[i]).0 < (#[trigger] v[j]).0,
{
    if let Some(rep) = t.repeat {
        lemma_occurring_numbered(t.date, t.pence, rep, until, forward, 0, Seq::empty());
    }
}

/// With a rule for weekends nothing falls on a Saturday or a Sunday: what would is moved to the Friday before or
/// the Monday after, and what falls on another day stays. Without a rule every day stays.
pub proof fn law_off_weekend(d: Date, rule: Seq<char>)
    ensures
        off_weekend(d, rule) matches Some(e) ==> {
            let r = lowered(rule);
            let none = r.len() == 0 || r == "none"@;
            &&& none || weekday_of(d) < 5 ==> e == d
            &&& !none && weekday_of(d) >= 5 ==> weekday_of(e) == (if starts(r, "before"@) || starts(r, "friday"@) {
                4int
            } else {
                0
            }) && -2 <= e.number() - d.number() <= 2
        },
{
    law_days_later(d, -1);
    law_days_later(d, -2);
    law_days_later(d, 1);
    law_days_later(d, 2);
}

/// Occurrences keep their distance where no rule moves them off weekends: a repeat by days, weeks or fortnights
/// falls so many days after the first one, and one by months or years in the month that is so many later.
pub proof fn law_repeat_spacing(date: Date, rep: ShownRepeat, seq: int)
    requires
        date.inv(),
        lowered(rep.weekend).len() == 0,
    ensures
        scheduled_on(date, rep, seq) matches Some(on) ==> {
            let unit = lowercase_of(rep.unit);
            let steps = seq * rep.every;
            if starts(unit, "da"@) {
                on.number() == date.number() + steps
            } else if starts(unit, "week"@) {
                on.number() == date.number() + 7 * steps
            } else if starts(unit, "fortnight"@) {
                on.number() == date.number() + 14 * steps
            } else if starts(unit, "year"@) {
                on.y() == date.y() + steps && on.m() == date.m()
            } else {
                on.y() * 12 + on.m() == date.y() * 12 + date.m() + steps
            }
        },
{
    let steps = seq * rep.every;
    law_days_later(date, steps);
    law_days_later(date, 7 * steps);
    law_days_later(date, 14 * steps);
    law_months_later(date, steps);
    law_months_later(date, 12 * steps);
}

/// An edit of one occurrence leaves all others as they are.
pub proof fn law_edit_is_local(overrides: Seq<Override>, n: int, start: (i64, Date, bool), k: nat)
    requires
        k <= overrides.len(),
        forall|i: int| 0 <= i < overrides.len() ==> (#[trigger] overrides[i]).sequence != n,
    ensures
        edited(overrides, n, start, k) == start,
    decreases k,
{
    if k > 0 {
        law_edit_is_local(overrides, n, start, (k - 1) as nat);
        assert(overrides[k - 1].sequence != n);
    }
}

} // verus!
