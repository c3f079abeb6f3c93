//! Reads the document that a backup's archive unfolds to.
//!
//! The document is the archive's root as JSON. A date stands in it as `{"__date": day}`, with the day
//! in the backup's time zone. A number with a fraction stands as `{"__real": .., "__shown": ..,
//! "__rounded": .., "__whole": ..}`: as JSON, as it prints, rounded, and without its fraction. Each
//! transaction carries, under `__raw`, its record as the archive has it.

use vstd::prelude::*;

use crate::date::{date_in, iso, iso_text, parse_with, Date};
use crate::error::{unreadable, Refusal, Result};
use crate::imports::account_tracker::{
    shown_accounts, shown_rates, shown_repeat, shown_splits, shown_transactions, AtAccount, AtTransaction, Backup, Override, Repeat, ShownAccount,
    ShownBackup, ShownRepeat, ShownTransaction,
};
use crate::imports::{fields_with, put_field};
use crate::json::{integer, integer_at, items, items_of, member, member_of, names, names_of, number, number_of, record, record_of, string, string_of, text_at, text_in};
use crate::model::MetaValue;
use crate::text::{int_in, int_string, int_text, is_less, own, parse_int, same, text_less, texts, upper, uppered};

verus! {

/// A value as text.
pub open spec fn str_of(v: Seq<char>) -> Seq<char> {
    match string_of(v) {
        Some(s) => s,
        None => if v == "null"@ {
            Seq::empty()
        } else {
            match text_at(v, "__real"@) {
                Some(t) => t,
                None => v,
            }
        },
    }
}

fn as_str(v: &str) -> (r: String)
    ensures
        r@ == str_of(v@),
{
    match string(v) {
        Some(s) => s,
        None => if same(v, "null") {
            proof {
                reveal_strlit("");
                assert(""@ =~= Seq::<char>::empty());
            }
            own("")
        } else {
            match text_in(v, "__real") {
                Some(t) => t,
                None => own(v),
            }
        },
    }
}

/// A value as an integer: zero where it is none.
pub open spec fn int_of(v: Seq<char>) -> int {
    let n = match number_of(v) {
        Some(n) => int_in(n),
        None => if v == "true"@ {
            Some(1)
        } else {
            match string_of(v) {
                Some(s) => int_in(s),
                None => integer_at(v, "__rounded"@),
            }
        },
    };
    match n {
        Some(i) => i,
        None => 0,
    }
}

fn as_i64(v: &str) -> (r: i64)
    ensures
        r == int_of(v@),
{
    let n = match number(v) {
        Some(n) => parse_int(n.as_str()),
        None => if same(v, "true") {
            Some(1)
        } else {
            match string(v) {
                Some(s) => parse_int(s.as_str()),
                None => integer(v, "__rounded"),
            }
        },
    };
    match n {
        Some(i) => i,
        None => 0,
    }
}

pub open spec fn int_at(doc: Seq<char>, name: Seq<char>) -> Option<int> {
    match member_of(doc, name) {
        Some(v) => Some(int_of(v)),
        None => None,
    }
}

pub open spec fn number_under(doc: Seq<char>, name: Seq<char>) -> int {
    match int_at(doc, name) {
        Some(n) => n,
        None => 0,
    }
}

fn int_in_member(doc: &str, name: &str) -> (r: Option<i64>)
    ensures
        match r {
            Some(n) => int_at(doc@, name@) == Some(n as int),
            None => int_at(doc@, name@) is None,
        },
{
    match member(doc, name) {
        Some(v) => Some(as_i64(v.as_str())),
        None => None,
    }
}

fn int_under(doc: &str, name: &str) -> (r: i64)
    ensures
        r == number_under(doc@, name@),
{
    match int_in_member(doc, name) {
        Some(n) => n,
        None => 0,
    }
}

/// The text of a member, or `other` where there is none.
pub open spec fn str_or(doc: Seq<char>, name: Seq<char>, other: Seq<char>) -> Seq<char> {
    match member_of(doc, name) {
        Some(v) => str_of(v),
        None => other,
    }
}

fn str_under(doc: &str, name: &str, other: &str) -> (r: String)
    ensures
        r@ == str_or(doc@, name@, other@),
{
    match member(doc, name) {
        Some(v) => as_str(v.as_str()),
        None => own(other),
    }
}

/// The text of a member that is not empty, or `other`.
pub open spec fn filled_or(doc: Seq<char>, name: Seq<char>, other: Seq<char>) -> Seq<char> {
    let s = str_or(doc, name, Seq::empty());
    if s.len() == 0 {
        other
    } else {
        s
    }
}

fn filled_under(doc: &str, name: &str, other: &str) -> (r: String)
    ensures
        r@ == filled_or(doc@, name@, other@),
{
    proof {
        reveal_strlit("");
        assert(""@ =~= Seq::<char>::empty());
    }
    let s = str_under(doc, name, "");
    if s.as_str().is_empty() {
        own(other)
    } else {
        s
    }
}

/// The day under a name.
pub open spec fn day_at(doc: Seq<char>, name: Seq<char>) -> Option<Date> {
    match member_of(doc, name) {
        Some(v) => match text_at(v, "__date"@) {
            Some(t) => date_in(t, "%Y-%m-%d"@),
            None => None,
        },
        None => None,
    }
}

fn day_under(doc: &str, name: &str) -> (r: Option<Date>)
    ensures
        r == day_at(doc@, name@),
{
    match member(doc, name) {
        Some(v) => match text_in(v.as_str(), "__date") {
            Some(t) => parse_with(t.as_str(), "%Y-%m-%d"),
            None => None,
        },
        None => None,
    }
}

/// The items of the list under a name: none where there is no list.
pub open spec fn list_at(doc: Seq<char>, name: Seq<char>) -> Seq<Seq<char>> {
    match member_of(doc, name) {
        Some(v) => match items_of(v) {
            Some(l) => l,
            None => Seq::empty(),
        },
        None => Seq::empty(),
    }
}

fn list_under(doc: &str, name: &str) -> (r: Vec<String>)
    ensures
        texts(r@) == list_at(doc@, name@),
{
    let none: Vec<String> = Vec::new();
    assert(texts(none@) =~= Seq::<Seq<char>>::empty());
    match member(doc, name) {
        Some(v) => match items(v.as_str()) {
            Some(l) => l,
            None => none,
        },
        None => none,
    }
}

/// Rates with one more: in the order of the currencies, each once, the later value standing.
pub open spec fn rate_placed(s: Seq<(Seq<char>, Seq<char>)>, code: Seq<char>, rate: Seq<char>) -> Seq<(Seq<char>, Seq<char>)>
    decreases s.len(),
{
    if s.len() == 0 {
        seq![(code, rate)]
    } else if s.last().0 == code {
        s.drop_last().push((code, rate))
    } else if text_less(code, s.last().0) {
        rate_placed(s.drop_last(), code, rate).push(s.last())
    } else {
        s.push((code, rate))
    }
}

proof fn lemma_rate_placed(s: Seq<(Seq<char>, Seq<char>)>, code: Seq<char>, rate: Seq<char>, p: int)
    requires
        0 <= p <= s.len(),
        forall|i: int| p <= i < s.len() ==> (#[trigger] s[i]).0 != code && text_less(code, s[i].0),
        p == 0 || s[p - 1].0 == code || !text_less(code, s[p - 1].0),
    ensures
        rate_placed(s, code, rate) == if p > 0 && s[p - 1].0 == code {
            s.update(p - 1, (code, rate))
        } else {
            s.insert(p, (code, rate))
        },
    decreases s.len(),
{
    let r = rate_placed(s, code, rate);
    if s.len() == 0 {
        assert(r =~= s.insert(p, (code, rate)));
    } else if p < s.len() {
        let last = s[s.len() - 1];
        assert(last.0 != code && text_less(code, last.0));
        lemma_rate_placed(s.drop_last(), code, rate, p);
        if p > 0 && s[p - 1].0 == code {
            assert(r =~= s.update(p - 1, (code, rate)));
        } else {
            assert(r =~= s.insert(p, (code, rate)));
        }
    } else if s.last().0 == code {
        assert(r =~= s.update(p - 1, (code, rate)));
    } else {
        assert(r =~= s.insert(p, (code, rate)));
    }
}

fn place_rate(v: &mut Vec<(String, String)>, code: String, rate: String)
    ensures
        shown_rates(final(v)@) == rate_placed(shown_rates(old(v)@), code@, rate@),
{
    let ghost before = shown_rates(v@);
    let ghost held = v@;
    let mut p: usize = v.len();
    while p > 0 && !same(v[p - 1].0.as_str(), code.as_str()) && is_less(code.as_str(), v[p - 1].0.as_str())
        invariant
            p <= v@.len(),
            v@ == held,
            before == shown_rates(held),
            forall|i: int| p <= i < before.len() ==> (#[trigger] before[i]).0 != code@ && text_less(code@, before[i].0),
        decreases p,
    {
        p = p - 1;
    }
    proof {
        if p > 0 {
            assert(before[p - 1].0 == held[p - 1].0@);
        }
        lemma_rate_placed(before, code@, rate@, p as int);
    }
    if p > 0 && same(v[p - 1].0.as_str(), code.as_str()) {
        let pair = (code, rate);
        v.set(p - 1, pair);
        assert(shown_rates(v@) =~= before.update(p - 1, (pair.0@, pair.1@)));
    } else {
        let pair = (code, rate);
        v.insert(p, pair);
        assert(shown_rates(v@) =~= before.insert(p as int, (pair.0@, pair.1@)));
    }
}

/// The rates among the first `n` names of a record.
pub open spec fn rates_in(doc: Seq<char>, ns: Seq<Seq<char>>, n: nat) -> Seq<(Seq<char>, Seq<char>)>
    decreases n,
{
    if n == 0 {
        Seq::empty()
    } else {
        let before = rates_in(doc, ns, (n - 1) as nat);
        match member_of(doc, ns[n - 1]) {
            Some(v) => match text_at(v, "__shown"@) {
                Some(rate) => rate_placed(before, uppered(ns[n - 1]), rate),
                None => before,
            },
            None => before,
        }
    }
}

/// The rates of a backup.
pub open spec fn rates_of(doc: Seq<char>) -> Seq<(Seq<char>, Seq<char>)> {
    match member_of(doc, "rates"@) {
        Some(r) => match names_of(r) {
            Some(ns) => rates_in(r, ns, ns.len()),
            None => Seq::empty(),
        },
        None => Seq::empty(),
    }
}

fn read_rates(doc: &str) -> (r: Vec<(String, String)>)
    ensures
        shown_rates(r@) == rates_of(doc@),
{
    let mut out: Vec<(String, String)> = Vec::new();
    assert(shown_rates(out@) =~= Seq::<(Seq<char>, Seq<char>)>::empty());
    let rates = match member(doc, "rates") {
        Some(r) => r,
        None => {
            return out;
        },
    };
    let ns = match names(rates.as_str()) {
        Some(ns) => ns,
        None => {
            return out;
        },
    };
    let mut i: usize = 0;
    while i < ns.len()
        invariant
            i <= ns@.len(),
            shown_rates(out@) == rates_in(rates@, texts(ns@), i as nat),
        decreases ns@.len() - i,
    {
        assert(texts(ns@)[i as int] == ns@[i as int]@);
        if let Some(v) = member(rates.as_str(), ns[i].as_str()) {
            if let Some(rate) = text_in(v.as_str(), "__shown") {
                place_rate(&mut out, upper(ns[i].as_str()), rate);
            }
        }
        i = i + 1;
    }
    out
}

/// The names of groups.
pub open spec fn group_names(list: Seq<Seq<char>>) -> Seq<Seq<char>> {
    Seq::new(list.len(), |i: int| str_or(list[i], "name"@, Seq::empty()))
}

fn read_groups(doc: &str) -> (r: Vec<String>)
    ensures
        texts(r@) == group_names(list_at(doc@, "groups"@)),
{
    proof {
        reveal_strlit("");
        assert(""@ =~= Seq::<char>::empty());
    }
    let list = list_under(doc, "groups");
    let ghost all = group_names(texts(list@));
    let mut out: Vec<String> = Vec::new();
    let mut i: usize = 0;
    while i < list.len()
        invariant
            i <= list@.len(),
            ""@ == Seq::<char>::empty(),
            all == group_names(texts(list@)),
            texts(out@) == all.take(i as int),
        decreases list@.len() - i,
    {
        let ghost before = texts(out@);
        let g = str_under(list[i].as_str(), "name", "");
        assert(texts(list@)[i as int] == list@[i as int]@);
        out.push(g);
        assert(texts(out@) =~= before.push(g@));
        i = i + 1;
        assert(texts(out@) =~= all.take(i as int));
    }
    assert(all.take(all.len() as int) =~= all);
    out
}

/// An account of the backup.
pub open spec fn account_in(doc: Seq<char>, base: Seq<char>) -> ShownAccount {
    let group = number_under(doc, "group"@);
    ShownAccount {
        id: number_under(doc, "id"@) as i64,
        name: str_or(doc, "name"@, Seq::empty()),
        code: uppered(str_or(doc, "code"@, base)),
        group: if 0 <= group <= usize::MAX {
            group as usize
        } else {
            0
        },
        hidden: number_under(doc, "hidden"@) != 0,
        exclude: number_under(doc, "exclude"@) != 0,
        opening: number_under(doc, "opening"@) as i64,
        balance: number_under(doc, "balance"@) as i64,
        reconciled: number_under(doc, "reconciled"@) as i64,
        min: number_under(doc, "min"@) as i64,
        due: number_under(doc, "due"@) as i64,
        closed: number_under(doc, "closed"@) as i64,
        todo: number_under(doc, "todo"@) as i64,
    }
}

fn read_account(doc: &str, base: &str) -> (r: AtAccount)
    ensures
        r@ == account_in(doc@, base@),
{
    proof {
        reveal_strlit("");
        assert(""@ =~= Seq::<char>::empty());
    }
    let group = int_under(doc, "group");
    let group: usize = if group >= 0 && group as u64 <= usize::MAX as u64 {
        group as usize
    } else {
        0
    };
    AtAccount {
        id: int_under(doc, "id"),
        name: str_under(doc, "name", ""),
        code: upper(str_under(doc, "code", base).as_str()),
        group,
        hidden: int_under(doc, "hidden") != 0,
        exclude: int_under(doc, "exclude") != 0,
        opening: int_under(doc, "opening"),
        balance: int_under(doc, "balance"),
        reconciled: int_under(doc, "reconciled"),
        min: int_under(doc, "min"),
        due: int_under(doc, "due"),
        closed: int_under(doc, "closed"),
        todo: int_under(doc, "todo"),
    }
}

pub open spec fn accounts_in(list: Seq<Seq<char>>, base: Seq<char>) -> Seq<ShownAccount> {
    Seq::new(list.len(), |i: int| account_in(list[i], base))
}

fn read_accounts(doc: &str, base: &str) -> (r: Vec<AtAccount>)
    ensures
        shown_accounts(r@) == accounts_in(list_at(doc@, "accounts"@), base@),
{
    let list = list_under(doc, "accounts");
    let ghost all = accounts_in(texts(list@), base@);
    let mut out: Vec<AtAccount> = Vec::new();
    let mut i: usize = 0;
    while i < list.len()
        invariant
            i <= list@.len(),
            all == accounts_in(texts(list@), base@),
            shown_accounts(out@) == all.take(i as int),
        decreases list@.len() - i,
    {
        let ghost before = shown_accounts(out@);
        let a = read_account(list[i].as_str(), base);
        assert(texts(list@)[i as int] == list@[i as int]@);
        out.push(a);
        assert(shown_accounts(out@) =~= before.push(a@));
        i = i + 1;
        assert(shown_accounts(out@) =~= all.take(i as int));
    }
    assert(all.take(all.len() as int) =~= all);
    out
}

/// An edit of a repeat: the date is a day as the number YYYYMMDD, or zero for a deletion.
pub open spec fn override_in(doc: Seq<char>) -> Override {
    let date = int_at(doc, "date"@);
    Override {
        sequence: number_under(doc, "sequence"@) as i64,
        pence: match int_at(doc, "pence"@) {
            Some(n) => Some(n as i64),
            None => None,
        },
        date: match date {
            Some(n) if n > 0 => date_in(int_text(n), "%Y%m%d"@),
            _ => None,
        },
        deleted: date == Some(0int),
    }
}

fn read_override(doc: &str) -> (r: Override)
    ensures
        r == override_in(doc@),
{
    let date = int_in_member(doc, "date");
    Override {
        sequence: int_under(doc, "sequence"),
        pence: int_in_member(doc, "pence"),
        date: match date {
            Some(n) => if n > 0 {
                parse_with(int_string(n).as_str(), "%Y%m%d")
            } else {
                None
            },
            None => None,
        },
        deleted: match date {
            Some(n) => n == 0,
            None => false,
        },
    }
}

pub open spec fn overrides_in(list: Seq<Seq<char>>) -> Seq<Override> {
    Seq::new(list.len(), |i: int| override_in(list[i]))
}

/// The repeat of a transaction.
pub open spec fn repeat_in(doc: Seq<char>) -> Option<ShownRepeat> {
    let unit = str_or(doc, "repeat"@, Seq::empty());
    let every = number_under(doc, "every"@);
    if unit.len() == 0 {
        None
    } else {
        Some(
            ShownRepeat {
                unit,
                every: if every > 1 {
                    every as i64
                } else {
                    1
                },
                end: str_or(doc, "end"@, "Never"@),
                after: number_under(doc, "after"@) as i64,
                on: day_at(doc, "on"@),
                weekend: str_or(doc, "weekend"@, "None"@),
                overrides: overrides_in(list_at(doc, "overrides"@)),
            },
        )
    }
}

fn read_repeat(doc: &str) -> (r: Option<Repeat>)
    ensures
        shown_repeat(r) == repeat_in(doc@),
{
    proof {
        reveal_strlit("");
        assert(""@ =~= Seq::<char>::empty());
    }
    let unit = str_under(doc, "repeat", "");
    if unit.as_str().is_empty() {
        return None;
    }
    let list = list_under(doc, "overrides");
    let ghost all = overrides_in(texts(list@));
    let mut overrides: Vec<Override> = Vec::new();
    let mut i: usize = 0;
    while i < list.len()
        invariant
            i <= list@.len(),
            all == overrides_in(texts(list@)),
            overrides@ == all.take(i as int),
        decreases list@.len() - i,
    {
        assert(texts(list@)[i as int] == list@[i as int]@);
        overrides.push(read_override(list[i].as_str()));
        i = i + 1;
        assert(overrides@ =~= all.take(i as int));
    }
    assert(all.take(all.len() as int) =~= all);
    let every = int_under(doc, "every");
    Some(
        Repeat {
            unit,
            every: if every > 1 {
                every
            } else {
                1
            },
            end: str_under(doc, "end", "Never"),
            after: int_under(doc, "after"),
            on: day_under(doc, "on"),
            weekend: str_under(doc, "weekend", "None"),
            overrides,
        },
    )
}

/// The splits among the first `n` names of a record.
pub open spec fn splits_in(doc: Seq<char>, ns: Seq<Seq<char>>) -> Seq<(Seq<char>, i64)> {
    Seq::new(ns.len(), |i: int| (ns[i], number_under(doc, ns[i]) as i64))
}

pub open spec fn splits_of(doc: Seq<char>) -> Seq<(Seq<char>, i64)> {
    match member_of(doc, "splits"@) {
        Some(s) => match names_of(s) {
            Some(ns) => splits_in(s, ns),
            None => Seq::empty(),
        },
        None => Seq::empty(),
    }
}

fn read_splits(doc: &str) -> (r: Vec<(String, i64)>)
    ensures
        shown_splits(r@) == splits_of(doc@),
{
    let mut out: Vec<(String, i64)> = Vec::new();
    assert(shown_splits(out@) =~= Seq::<(Seq<char>, i64)>::empty());
    let splits = match member(doc, "splits") {
        Some(s) => s,
        None => {
            return out;
        },
    };
    let ns = match names(splits.as_str()) {
        Some(ns) => ns,
        None => {
            return out;
        },
    };
    let ghost all = splits_in(splits@, texts(ns@));
    let mut i: usize = 0;
    while i < ns.len()
        invariant
            i <= ns@.len(),
            all == splits_in(splits@, texts(ns@)),
            shown_splits(out@) == all.take(i as int),
        decreases ns@.len() - i,
    {
        let ghost before = shown_splits(out@);
        assert(texts(ns@)[i as int] == ns@[i as int]@);
        let pair = (own(ns[i].as_str()), int_under(splits.as_str(), ns[i].as_str()));
        out.push(pair);
        assert(shown_splits(out@) =~= before.push((pair.0@, pair.1)));
        i = i + 1;
        assert(shown_splits(out@) =~= all.take(i as int));
    }
    assert(all.take(all.len() as int) =~= all);
    out
}

/// The id of a transaction: a number without its fraction, or a text.
pub open spec fn id_in(doc: Seq<char>) -> Seq<char> {
    match member_of(doc, "id"@) {
        None => Seq::empty(),
        Some(v) => match number_of(v) {
            Some(_) => int_text(int_of(v)),
            None => match integer_at(v, "__whole"@) {
                Some(n) => int_text(n),
                None => str_of(v),
            },
        },
    }
}

fn read_id(doc: &str) -> (r: String)
    ensures
        r@ == id_in(doc@),
{
    let v = match member(doc, "id") {
        Some(v) => v,
        None => {
            proof {
                reveal_strlit("");
                assert(""@ =~= Seq::<char>::empty());
            }
            return own("");
        },
    };
    match number(v.as_str()) {
        Some(_) => int_string(as_i64(v.as_str())),
        None => match integer(v.as_str(), "__whole") {
            Some(n) => int_string(n),
            None => as_str(v.as_str()),
        },
    }
}

/// A transaction of the backup: one without a date is passed over.
pub open spec fn transaction_in(doc: Seq<char>) -> Option<ShownTransaction> {
    let foreign = number_under(doc, "foreign"@);
    let code = str_or(doc, "code"@, Seq::empty());
    match day_at(doc, "date"@) {
        None => None,
        Some(date) => Some(
            ShownTransaction {
                id: id_in(doc),
                date,
                pence: number_under(doc, "pence"@) as i64,
                from: number_under(doc, "from"@) as i64,
                to: number_under(doc, "to"@) as i64,
                category: str_or(doc, "category"@, Seq::empty()),
                details: str_or(doc, "details"@, Seq::empty()),
                notes: str_or(doc, "notes"@, Seq::empty()),
                refund: number_under(doc, "refund"@) != 0,
                foreign: if foreign != 0 {
                    Some(foreign as i64)
                } else {
                    None
                },
                code: if code.len() > 0 {
                    Some(uppered(code))
                } else {
                    None
                },
                splits: splits_of(doc),
                repeat: repeat_in(doc),
                raw: fields_with(
                    record_of(
                        match member_of(doc, "__raw"@) {
                            Some(r) => r,
                            None => doc,
                        },
                    ),
                    "date"@,
                    crate::codec::json_text(iso_text(date)),
                ),
            },
        ),
    }
}

fn read_transaction(doc: &str) -> (r: Option<AtTransaction>)
    ensures
        match r {
            Some(t) => transaction_in(doc@) == Some(t@),
            None => transaction_in(doc@) is None,
        },
{
    proof {
        reveal_strlit("");
        assert(""@ =~= Seq::<char>::empty());
    }
    let date = match day_under(doc, "date") {
        Some(d) => d,
        None => {
            return None;
        },
    };
    let foreign = int_under(doc, "foreign");
    let code = str_under(doc, "code", "");
    let mut raw = match member(doc, "__raw") {
        Some(r) => record(r.as_str()),
        None => record(doc),
    };
    put_field(&mut raw, "date", MetaValue::Text(iso(date)));
    let t = AtTransaction {
        id: read_id(doc),
        date,
        pence: int_under(doc, "pence"),
        from: int_under(doc, "from"),
        to: int_under(doc, "to"),
        category: str_under(doc, "category", ""),
        details: str_under(doc, "details", ""),
        notes: str_under(doc, "notes", ""),
        refund: int_under(doc, "refund") != 0,
        foreign: if foreign != 0 {
            Some(foreign)
        } else {
            None
        },
        code: if code.as_str().is_empty() {
            None
        } else {
            Some(upper(code.as_str()))
        },
        splits: read_splits(doc),
        repeat: read_repeat(doc),
        raw,
    };
    assert(t@ =~= transaction_in(doc@)->0);
    Some(t)
}

/// Whether a transaction comes before another: by date, then by id.
pub open spec fn comes_before(a: ShownTransaction, b: ShownTransaction) -> bool {
    a.date.before(b.date) || (a.date == b.date && text_less(a.id, b.id))
}

/// Transactions in order with one more, behind those that it does not come before.
pub open spec fn placed(s: Seq<ShownTransaction>, t: ShownTransaction) -> Seq<ShownTransaction>
    decreases s.len(),
{
    if s.len() > 0 && comes_before(t, s.last()) {
        placed(s.drop_last(), t).push(s.last())
    } else {
        s.push(t)
    }
}

proof fn lemma_placed(s: Seq<ShownTransaction>, t: ShownTransaction, p: int)
    requires
        0 <= p <= s.len(),
        forall|i: int| p <= i < s.len() ==> comes_before(t, #[trigger] s[i]),
        p == 0 || !comes_before(t, s[p - 1]),
    ensures
        placed(s, t) == s.insert(p, t),
    decreases s.len(),
{
    if p < s.len() {
        assert(comes_before(t, s[s.len() - 1]));
        lemma_placed(s.drop_last(), t, p);
        assert(placed(s, t) =~= s.insert(p, t));
    } else {
        assert(placed(s, t) =~= s.insert(p, t));
    }
}

fn is_earlier(a: &AtTransaction, b: &AtTransaction) -> (r: bool)
    ensures
        r == comes_before(a@, b@),
{
    a.date.is_before(b.date) || (a.date.same(b.date) && is_less(a.id.as_str(), b.id.as_str()))
}

fn place(v: &mut Vec<AtTransaction>, t: AtTransaction)
    ensures
        shown_transactions(final(v)@) == placed(shown_transactions(old(v)@), t@),
{
    let ghost before = shown_transactions(v@);
    let ghost held = v@;
    let mut p: usize = v.len();
    while p > 0 && is_earlier(&t, &v[p - 1])
        invariant
            p <= v@.len(),
            v@ == held,
            before == shown_transactions(held),
            forall|i: int| p <= i < before.len() ==> comes_before(t@, #[trigger] before[i]),
        decreases p,
    {
        p = p - 1;
    }
    proof {
        if p > 0 {
            assert(before[p - 1] == held[p - 1]@);
        }
        lemma_placed(before, t@, p as int);
    }
    v.insert(p, t);
    assert(shown_transactions(v@) =~= before.insert(p as int, t@));
}

/// The dated transactions among the first `n` of a list, in order.
pub open spec fn transactions_in(list: Seq<Seq<char>>, n: nat) -> Seq<ShownTransaction>
    decreases n,
{
    if n == 0 {
        Seq::empty()
    } else {
        let before = transactions_in(list, (n - 1) as nat);
        match transaction_in(list[n - 1]) {
            Some(t) => placed(before, t),
            None => before,
        }
    }
}

fn read_transactions(doc: &str) -> (r: Vec<AtTransaction>)
    ensures
        shown_transactions(r@) == transactions_in(list_at(doc@, "transactions"@), list_at(doc@, "transactions"@).len()),
{
    let list = list_under(doc, "transactions");
    let mut out: Vec<AtTransaction> = Vec::new();
    let mut i: usize = 0;
    assert(shown_transactions(out@) =~= Seq::<ShownTransaction>::empty());
    while i < list.len()
        invariant
            i <= list@.len(),
            shown_transactions(out@) == transactions_in(texts(list@), i as nat),
        decreases list@.len() - i,
    {
        assert(texts(list@)[i as int] == list@[i as int]@);
        if let Some(t) = read_transaction(list[i].as_str()) {
            place(&mut out, t);
        }
        i = i + 1;
    }
    out
}

/// The backup that a document holds.
pub open spec fn backup_in(doc: Seq<char>, exported_on: Date) -> std::result::Result<ShownBackup, Refusal> {
    let base = filled_or(doc, "code"@, "USD"@);
    let list = list_at(doc, "transactions"@);
    if names_of(doc) is None {
        Err(Refusal::Parse("backup root is not a dictionary"@))
    } else {
        Ok(
            ShownBackup {
                base_currency: base,
                timezone: filled_or(doc, "timezone"@, "Europe/Lisbon"@),
                exported_on,
                rates: rates_of(doc),
                groups: group_names(list_at(doc, "groups"@)),
                accounts: accounts_in(list_at(doc, "accounts"@), base),
                transactions: transactions_in(list, list.len()),
            },
        )
    }
}

/// The day a backup was exported on: that of its timestamp, else that of its last backup, else today.
pub fn export_day(stamped: Option<Date>, backed_up: Option<Date>, today: Date) -> (r: Date)
    ensures
        stamped matches Some(d) ==> r == d,
        stamped is None ==> (backed_up matches Some(d) ==> r == d),
        stamped is None && backed_up is None ==> r == today,
{
    match stamped {
        Some(d) => d,
        None => match backed_up {
            Some(d) => d,
            None => today,
        },
    }
}

/// Reads a backup from the document that its archive unfolds to.
pub fn parse(doc: &str, exported_on: Date) -> (r: Result<Backup>)
    ensures
        match r {
            Ok(b) => backup_in(doc@, exported_on) == Ok::<ShownBackup, Refusal>(b@),
            Err(e) => backup_in(doc@, exported_on) == Err::<ShownBackup, Refusal>(e@),
        },
{
    if names(doc).is_none() {
        return Err(unreadable("backup root is not a dictionary"));
    }
    let base_currency = filled_under(doc, "code", "USD");
    let accounts = read_accounts(doc, base_currency.as_str());
    let b = Backup {
        base_currency,
        timezone: filled_under(doc, "timezone", "Europe/Lisbon"),
        exported_on,
        rates: read_rates(doc),
        groups: read_groups(doc),
        accounts,
        transactions: read_transactions(doc),
    };
    assert(b@ =~= backup_in(doc@, exported_on)->Ok_0);
    Ok(b)
}

/// Whether transactions stand in order.
pub open spec fn in_order(s: Seq<ShownTransaction>) -> bool {
    forall|i: int, j: int| 0 <= i < j < s.len() ==> !comes_before(#[trigger] s[j], #[trigger] s[i])
}

proof fn lemma_comes_before(a: ShownTransaction, b: ShownTransaction, c: ShownTransaction)
    requires
        a.date.inv(),
        b.date.inv(),
        c.date.inv(),
    ensures
        comes_before(a, b) && comes_before(b, c) ==> comes_before(a, c),
        comes_before(a, b) ==> !comes_before(b, a),
        comes_before(a, b) && !comes_before(c, b) ==> comes_before(a, c),
{
    crate::text::lemma_text_order(a.id, b.id, c.id);
    crate::text::lemma_text_order(c.id, b.id, a.id);
    crate::text::lemma_text_order(b.id, a.id, c.id);
    crate::text::lemma_text_order(b.id, c.id, a.id);
    crate::date::law_day_order(a.date, b.date);
    crate::date::law_day_order(b.date, c.date);
    crate::date::law_day_order(a.date, c.date);
}

pub open spec fn all_dated(s: Seq<ShownTransaction>) -> bool {
    forall|i: int| 0 <= i < s.len() ==> (#[trigger] s[i]).date.inv()
}

proof fn lemma_placed_order(s: Seq<ShownTransaction>, t: ShownTransaction)
    requires
        in_order(s),
        all_dated(s),
        t.date.inv(),
    ensures
        in_order(placed(s, t)),
        all_dated(placed(s, t)),
        placed(s, t).len() == s.len() + 1,
        forall|i: int| 0 <= i < placed(s, t).len() ==> #[trigger] placed(s, t)[i] == t || s.contains(placed(s, t)[i]),
    decreases s.len(),
{
    let r = placed(s, t);
    if s.len() > 0 && comes_before(t, s.last()) {
        let head = s.drop_last();
        lemma_placed_order(head, t);
        let p = placed(head, t);
        assert(r == p.push(s.last()));
        assert forall|i: int| 0 <= i < r.len() implies #[trigger] r[i] == t || s.contains(r[i]) by {
            if i < p.len() {
                assert(r[i] == p[i]);
                if p[i] != t {
                    let k = choose|k: int| 0 <= k < head.len() && head[k] == p[i];
                    assert(s[k] == p[i]);
                }
            } else {
                assert(s[s.len() - 1] == r[i]);
            }
        }
        assert forall|i: int, j: int| 0 <= i < j < r.len() implies !comes_before(#[trigger] r[j], #[trigger] r[i]) by {
            if j < p.len() {
                assert(r[i] == p[i] && r[j] == p[j]);
            } else {
                assert(r[i] == p[i] && r[j] == s.last());
                if p[i] == t {
                    lemma_comes_before(t, s.last(), t);
                } else {
                    let k = choose|k: int| 0 <= k < head.len() && head[k] == p[i];
                    assert(s[k] == p[i]);
                    assert(!comes_before(s[s.len() - 1], s[k]));
                }
            }
        }
    } else {
        assert forall|i: int, j: int| 0 <= i < j < r.len() implies !comes_before(#[trigger] r[j], #[trigger] r[i]) by {
            if j == s.len() && i < s.len() {
                assert(r[j] == t && r[i] == s[i]);
                if i < s.len() - 1 {
                    assert(!comes_before(s[s.len() - 1], s[i]));
                    if comes_before(t, s[i]) {
                        lemma_comes_before(t, s[i], s.last());
                    }
                }
            } else {
                assert(r[i] == s[i] && r[j] == s[j]);
            }
        }
        assert forall|i: int| 0 <= i < r.len() implies #[trigger] r[i] == t || s.contains(r[i]) by {
            if i < s.len() {
                assert(s[i] == r[i]);
            }
        }
    }
}

/// The transactions of a backup stand in order, by date and then by id.
pub proof fn law_transactions_in_order(list: Seq<Seq<char>>, n: nat)
    requires
        n <= list.len(),
        forall|i: int| 0 <= i < list.len() ==> ((#[trigger] transaction_in(list[i])) matches Some(t) ==> t.date.inv()),
    ensures
        in_order(transactions_in(list, n)),
        all_dated(transactions_in(list, n)),
    decreases n,
{
    if n > 0 {
        law_transactions_in_order(list, (n - 1) as nat);
        if let Some(t) = transaction_in(list[n - 1]) {
            lemma_placed_order(transactions_in(list, (n - 1) as nat), t);
        }
    }
}

} // verus!
