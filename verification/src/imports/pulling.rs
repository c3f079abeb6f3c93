//! What a pull from Pluggy decides between its requests.

use vstd::prelude::*;

use crate::date::{date_in, iso_format, parse_opt_date, Date};
use crate::error::{invalid, not_found, Error, Refusal, Result};
use crate::imports::opt_text;
use crate::imports::pluggy::{
    canonical_file, canonical_of, date_text, exhausted, fetch_transactions, fetched, field_of, followed, get_item, heard, item_url_of, keep, kept_of,
    next_cursor, opt_str, provider_id, pulled, read_call, request_update, told, transactions_url_of, update_call, window, window_of, PulledAccount, Transport,
};
use crate::imports::wire::{carried, exchanged, lemma_carried_on, lemma_carried_one, only_reads, Reply, Sent, Wire};
use crate::json::{inner, inside, integer, integer_at, text, text_under};
use crate::text::{blank, debug_text, is_blank, same, texts, trim, trimmed, upper, uppered};

verus! {

/// How an item comes to be fresh before its accounts are read.
#[derive(Debug, Clone, Copy, PartialEq, Eq, Structural)]
pub enum Refresh {
    /// It is read as it stands.
    Read,
    /// The bank refreshes it by itself: it is only waited for.
    Wait,
    /// It is asked to refresh, then waited for.
    RequestAndWait,
}

/// A dry run asks nothing of an item. MeuPluggy, the connector 200, takes no request: its freshness
/// comes from its own bank syncing.
pub open spec fn refresh_of(dry_run: bool, item: Seq<char>) -> Refresh {
    if dry_run {
        Refresh::Read
    } else if integer_at(inner(item, "connector"@), "id"@) == Some(200int) {
        Refresh::Wait
    } else {
        Refresh::RequestAndWait
    }
}

pub fn refresh(dry_run: bool, item: &str) -> (r: Refresh)
    ensures
        r == refresh_of(dry_run, item@),
        dry_run ==> r == Refresh::Read,
{
    if dry_run {
        return Refresh::Read;
    }
    match integer(inside(item, "connector").as_str(), "id") {
        Some(n) => if n == 200 {
            Refresh::Wait
        } else {
            Refresh::RequestAndWait
        },
        None => Refresh::RequestAndWait,
    }
}

/// The status of an item that is read as it stands.
pub fn status_read(item: &str) -> (r: String)
    ensures
        r@ == uppered(text_under(item@, "status"@)),
{
    upper(text(item, "status").as_str())
}

/// What a pull without any item is answered.
pub const NO_ITEM: &'static str = "no Pluggy item is known yet: connect the bank at meu.pluggy.ai, then run `means pluggy pull --item <item id>` once; the ledger remembers it";

/// The items that a pull goes over: the one that was asked for, or those that are known.
pub open spec fn items_pulled(item: Option<Seq<char>>, known: Seq<Seq<char>>) -> Seq<Seq<char>> {
    if item is Some && !blank(item->0) {
        seq![trimmed(item->0)]
    } else {
        known
    }
}

pub fn choose_items(item: Option<&str>, known: Vec<String>) -> (r: Result<Vec<String>>)
    ensures
        match r {
            Ok(v) => v@.len() > 0 && texts(v@) == items_pulled(opt_str(item), texts(known@)),
            Err(e) => items_pulled(opt_str(item), texts(known@)).len() == 0 && e.invalid(NO_ITEM@),
        },
{
    if let Some(i) = item {
        if !is_blank(i) {
            let v: Vec<String> = vec![trim(i)];
            assert(texts(v@) =~= seq![trimmed(i@)]);
            return Ok(v);
        }
    }
    if known.len() == 0 {
        return Err(invalid(NO_ITEM));
    }
    Ok(known)
}

/// Whether an account that an item lists is pulled.
pub fn is_wanted(asked: Option<&str>, provider_account_id: &str) -> (r: bool)
    ensures
        r == (asked is None || asked->0@ == provider_account_id@),
{
    match asked {
        Some(id) => same(id, provider_account_id),
        None => true,
    }
}

/// The day from which bookings count: the one that was asked for, or the one that is saved, which has
/// to be a date either way.
pub open spec fn day_counted(asked: Option<Date>, saved: Seq<char>) -> std::result::Result<Option<Date>, Refusal> {
    if !blank(saved) && date_in(trimmed(saved), iso_format()) is None {
        Err(Refusal::Invalid("date must be YYYY-MM-DD, got "@ + debug_text(saved)))
    } else if asked is Some {
        Ok(asked)
    } else if blank(saved) {
        Ok(None)
    } else {
        Ok(date_in(trimmed(saved), iso_format()))
    }
}

pub fn booked_from(asked: Option<Date>, saved: &str) -> (r: Result<Option<Date>>)
    ensures
        match r {
            Ok(d) => day_counted(asked, saved@) == Ok::<Option<Date>, Refusal>(d),
            Err(e) => day_counted(asked, saved@) == Err::<Option<Date>, Refusal>(e@),
        },
{
    match parse_opt_date(saved) {
        Err(e) => Err(e),
        Ok(d) => if asked.is_some() {
            Ok(asked)
        } else {
            Ok(d)
        },
    }
}

/// What was fetched of one account.
#[derive(Debug)]
pub struct Fetched {
    /// The account as the item lists it.
    pub account: String,
    pub transactions: Vec<String>,
    pub pages: usize,
    pub created_at_from: Option<String>,
    pub booked_from: Option<Date>,
}

/// What a pull leaves behind of an account: a file for the inbox, and where the next pull goes on.
#[derive(Debug)]
pub struct Left {
    pub content: String,
    pub cursor: String,
}

/// What was fetched of one account, as a contract sees it.
pub struct Shown {
    pub account: Seq<char>,
    pub transactions: Seq<Seq<char>>,
    pub pages: nat,
    pub created_at_from: Option<Seq<char>>,
    pub booked_from: Option<Date>,
}

impl View for Fetched {
    type V = Shown;

    open spec fn view(&self) -> Shown {
        Shown {
            account: self.account@,
            transactions: texts(self.transactions@),
            pages: self.pages as nat,
            created_at_from: opt_text(self.created_at_from),
            booked_from: self.booked_from,
        }
    }
}

/// What a pull reports of an account.
pub open spec fn tells(r: PulledAccount, item_id: Seq<char>, f: Shown, kept: nat) -> bool {
    &&& r.item_id@ == item_id
    &&& r.provider_account_id@ == field_of(f.account, "id"@)
    &&& r.name@ == field_of(f.account, "name"@)
    &&& r.kind@ == uppered(field_of(f.account, "type"@))
    &&& r.currency@ == uppered(field_of(f.account, "currencyCode"@))
    &&& r.transactions == kept
    &&& r.pages == f.pages
    &&& r.created_at_from@ == (match f.created_at_from {
        Some(s) => s,
        None => Seq::empty(),
    })
    &&& r.booked_from@ == date_text(f.booked_from)
    &&& r.excluded_before_booking_date == f.transactions.len() - kept
    &&& r.file@ == Seq::<char>::empty()
    &&& r.account_id is None
}

/// What a pull leaves behind of an account. A dry run leaves nothing, neither a file nor a cursor.
pub open spec fn leaves(left: Option<Left>, item_id: Seq<char>, f: Shown, kept: Seq<Seq<char>>, cursor: Seq<char>, started: Seq<char>, dry_run: bool) -> bool {
    match left {
        None => dry_run,
        Some(x) => {
            &&& !dry_run
            &&& x.content@ == canonical_of(item_id, f.account, kept, started, f.created_at_from, f.booked_from)
            &&& x.cursor@ == (if f.booked_from is Some {
                cursor
            } else {
                started
            })
        },
    }
}

/// Whether `r` is what becomes of the transactions of one account.
pub open spec fn settles(
    r: Result<(PulledAccount, Option<Left>)>,
    item_id: Seq<char>,
    f: Shown,
    cursor: Seq<char>,
    started: Seq<char>,
    dry_run: bool,
) -> bool {
    match kept_of(f.transactions, f.booked_from) {
        Err(x) => r matches Err(e) && e@ == x,
        Ok(kept) => r matches Ok((report, left)) && tells(report, item_id, f, kept.len()) && leaves(
            left,
            item_id,
            f,
            kept,
            cursor,
            started,
            dry_run,
        ),
    }
}

/// Decides what becomes of the transactions of one account.
pub fn settle(item_id: &str, fetched: Fetched, cursor: &str, started: &str, dry_run: bool) -> (r: Result<(PulledAccount, Option<Left>)>)
    ensures
        settles(r, item_id@, fetched@, cursor@, started@, dry_run),
{
    let Fetched { account, transactions, pages, created_at_from, booked_from } = fetched;
    let count = transactions.len();
    let kept = match keep(transactions, booked_from) {
        Ok(v) => v,
        Err(e) => {
            return Err(e);
        },
    };
    assert(texts(kept@).len() == kept@.len());
    let from: Option<&str> = match &created_at_from {
        Some(s) => Some(s.as_str()),
        None => None,
    };
    proof {
        reveal_strlit("");
        assert(""@ =~= Seq::<char>::empty());
    }
    let asked = match from {
        Some(s) => s,
        None => "",
    };
    let report = pulled(account.as_str(), item_id, count, kept.len(), pages, asked, booked_from);
    let left = if dry_run {
        None
    } else {
        Some(
            Left {
                content: canonical_file(item_id, account.as_str(), &kept, started, from, booked_from),
                cursor: next_cursor(booked_from, cursor, started),
            },
        )
    };
    Ok((report, left))
}

/// A pull of one account has to find it.
pub fn check_found(asked: Option<&str>, found: usize) -> (r: Result<()>)
    ensures
        match r {
            Ok(_) => asked is None || found > 0,
            Err(e) => asked is Some && found == 0 && e.not_found("the selected Pluggy account was not found in the selected items"@),
        },
{
    if asked.is_some() && found == 0 {
        Err(not_found("the selected Pluggy account was not found in the selected items"))
    } else {
        Ok(())
    }
}

/// Whether the first requests on an item went as they have to: it is read, and asked to refresh
/// where that is called for; `r` is what came of it.
pub open spec fn freshened(
    log: Seq<(Sent, Reply)>,
    base: Seq<char>,
    api_key: Seq<char>,
    item_id: Seq<char>,
    dry_run: bool,
    r: Result<(String, Refresh)>,
) -> bool {
    &&& log.len() > 0
    &&& log[0].0 == read_call(item_url_of(base, item_id), api_key)
    &&& match heard(log[0].0, log[0].1) {
        Err(f) => log.len() == 1 && (r matches Err(e) && e@ == f),
        Ok(d) => if refresh_of(dry_run, d) == Refresh::RequestAndWait {
            &&& log.len() == 2
            &&& log[1].0 == update_call(base, api_key, item_id)
            &&& match heard(log[1].0, log[1].1) {
                Err(f) => r matches Err(e) && e@ == f,
                Ok(_) => r matches Ok((item, next)) && item@ == d && next == Refresh::RequestAndWait,
            }
        } else {
            &&& log.len() == 1
            &&& r matches Ok((item, next)) && item@ == d && next == refresh_of(dry_run, d)
        },
    }
}

/// Reads an item, and asks it to refresh where that is called for.
pub fn refresh_item<T: Transport>(w: &mut Wire<'_, T>, base: &str, api_key: &str, item_id: &str, dry_run: bool) -> (r: Result<(String, Refresh)>)
    ensures
        exists|log: Seq<(Sent, Reply)>| #[trigger] carried(*old(w), *final(w), log) && freshened(log, base@, api_key@, item_id@, dry_run, r),
{
    let ghost start = *w;
    let read = get_item(w, base, api_key, item_id);
    let ghost q0 = read_call(item_url_of(base@, item_id@), api_key@);
    let ghost a0 = choose|a: Reply| #[trigger] exchanged(start, *w, q0, a) && told(read) == heard(q0, a);
    let ghost log0 = seq![(q0, a0)];
    proof {
        lemma_carried_one(start, *w, q0, a0);
        assert(carried(start, *w, log0));
    }
    let item = match read {
        Ok(d) => d,
        Err(e) => {
            return Err(e);
        },
    };
    let next = refresh(dry_run, item.as_str());
    if next != Refresh::RequestAndWait {
        return Ok((item, next));
    }
    let ghost mid = *w;
    let asked = request_update(w, base, api_key, item_id);
    let ghost q1 = update_call(base@, api_key@, item_id@);
    let ghost a1 = choose|a: Reply|
        #[trigger] exchanged(mid, *w, q1, a) && match asked {
            Ok(_) => heard(q1, a) is Ok,
            Err(e) => heard(q1, a) == Err::<Seq<char>, Refusal>(e@),
        };
    let ghost log1 = log0 + seq![(q1, a1)];
    proof {
        lemma_carried_one(mid, *w, q1, a1);
        lemma_carried_on(start, mid, *w, log0, seq![(q1, a1)]);
        assert(log1[0] == (q0, a0) && log1[1] == (q1, a1));
        assert(carried(start, *w, log1));
    }
    match asked {
        Ok(_) => Ok((item, next)),
        Err(e) => Err(e),
    }
}

/// What is stored of a provider's account: where its last pull stopped, and the day from which its
/// bookings count.
#[derive(Debug)]
pub struct Stored {
    pub provider_account_id: String,
    pub cursor: String,
    pub booked_from: String,
}

/// The place of what is stored of an account, from `i` on.
pub open spec fn stored_place(v: Seq<Stored>, id: Seq<char>, i: int) -> Option<int>
    decreases v.len() - i,
{
    if i < 0 || i >= v.len() {
        None
    } else if v[i].provider_account_id@ == id {
        Some(i)
    } else {
        stored_place(v, id, i + 1)
    }
}

/// Where the last pull of an account stopped; empty where there was none.
pub open spec fn cursor_of(v: Seq<Stored>, id: Seq<char>) -> Seq<char> {
    match stored_place(v, id, 0) {
        Some(i) => v[i].cursor@,
        None => ""@,
    }
}

/// The day that is saved for an account; empty where there is none.
pub open spec fn saved_of(v: Seq<Stored>, id: Seq<char>) -> Seq<char> {
    match stored_place(v, id, 0) {
        Some(i) => v[i].booked_from@,
        None => ""@,
    }
}

fn find_stored<'a>(v: &'a [Stored], id: &str) -> (r: (&'a str, &'a str))
    ensures
        r.0@ == cursor_of(v@, id@),
        r.1@ == saved_of(v@, id@),
{
    let mut i: usize = 0;
    while i < v.len()
        invariant
            i <= v.len(),
            stored_place(v@, id@, 0) == stored_place(v@, id@, i as int),
        decreases v.len() - i,
    {
        if same(v[i].provider_account_id.as_str(), id) {
            return (v[i].cursor.as_str(), v[i].booked_from.as_str());
        }
        i = i + 1;
    }
    ("", "")
}

/// What a pull asks for.
#[derive(Debug)]
pub struct Ask {
    /// Only this provider account.
    pub account: Option<String>,
    /// Sent as `createdAtFrom`: when Pluggy recorded the transaction, not when the bank booked it.
    pub since: Option<Date>,
    /// Inclusive bank booking date; independent of Pluggy's recorded-at cursor.
    pub booked_from: Option<Date>,
    pub dry_run: bool,
}

/// Whether the pull of one listed account went as it has to, and `r` is what came of it: nothing for
/// an account that was not asked for.
pub open spec fn drawn(
    log: Seq<(Sent, Reply)>,
    base: Seq<char>,
    api_key: Seq<char>,
    item_id: Seq<char>,
    account: Seq<char>,
    ask: Ask,
    stored: Seq<Stored>,
    started: Seq<char>,
    r: Result<Option<(PulledAccount, Option<Left>)>>,
) -> bool {
    let id = field_of(account, "id"@);
    let cursor = cursor_of(stored, id);
    if id.len() == 0 {
        log.len() == 0 && (r matches Err(e) && e.unreadable("pluggy listed an account of item "@ + item_id + " without an id"@))
    } else if ask.account is Some && ask.account->0@ != id {
        log.len() == 0 && r == Ok::<Option<(PulledAccount, Option<Left>)>, Error>(None)
    } else {
        match day_counted(ask.booked_from, saved_of(stored, id)) {
            Err(f) => log.len() == 0 && (r matches Err(e) && e@ == f),
            Ok(day) => {
                let from = window_of(ask.since, day, cursor);
                if transactions_url_of(base, id, from) is None {
                    log.len() == 0 && (r matches Err(e) && e.invalid("invalid Pluggy URL"@))
                } else {
                    &&& followed(log, base, api_key, id, from)
                    &&& exhausted(log, base, id, from)
                    &&& match fetched(log, base, id, from) {
                        Err(f) => r matches Err(e) && e@ == f,
                        Ok((transactions, pages)) => {
                            let f = Shown { account, transactions, pages, created_at_from: from, booked_from: day };
                            match r {
                                Err(e) => settles(Err(e), item_id, f, cursor, started, ask.dry_run),
                                Ok(Some(x)) => settles(Ok(x), item_id, f, cursor, started, ask.dry_run),
                                Ok(None) => false,
                            }
                        },
                    }
                }
            },
        }
    }
}

/// Pulls one account that an item lists.
pub fn pull_account<T: Transport>(
    w: &mut Wire<'_, T>,
    base: &str,
    api_key: &str,
    item_id: &str,
    account: String,
    ask: &Ask,
    stored: &[Stored],
    started: &str,
) -> (r: Result<Option<(PulledAccount, Option<Left>)>>)
    ensures
        exists|log: Seq<(Sent, Reply)>|
            #[trigger] carried(*old(w), *final(w), log) && drawn(log, base@, api_key@, item_id@, account@, *ask, stored@, started@, r),
{
    let ghost start = *w;
    let ghost none = Seq::<(Sent, Reply)>::empty();
    assert(start.log() + none =~= start.log());
    assert(carried(start, start, none));
    let provider = match provider_id(account.as_str(), item_id) {
        Ok(p) => p,
        Err(e) => {
            return Err(e);
        },
    };
    let wanted: Option<&str> = match &ask.account {
        Some(a) => Some(a.as_str()),
        None => None,
    };
    if !is_wanted(wanted, provider.as_str()) {
        return Ok(None);
    }
    let (cursor, saved) = find_stored(stored, provider.as_str());
    let day = match booked_from(ask.booked_from, saved) {
        Ok(d) => d,
        Err(e) => {
            return Err(e);
        },
    };
    let created_at_from = window(ask.since, day, cursor);
    let from: Option<&str> = match &created_at_from {
        Some(s) => Some(s.as_str()),
        None => None,
    };
    assert(opt_str(from) == window_of(ask.since, day, cursor@));
    let (transactions, pages) = match fetch_transactions(w, base, api_key, provider.as_str(), from) {
        Ok(x) => x,
        Err(e) => {
            return Err(e);
        },
    };
    let got = Fetched { account, transactions, pages, created_at_from, booked_from: day };
    match settle(item_id, got, cursor, started, ask.dry_run) {
        Ok(x) => Ok(Some(x)),
        Err(e) => Err(e),
    }
}

/// A dry run asks for nothing to change: reading an item only reads.
pub proof fn law_dry_run_refreshes_nothing(log: Seq<(Sent, Reply)>, base: Seq<char>, api_key: Seq<char>, item_id: Seq<char>, r: Result<(String, Refresh)>)
    requires
        freshened(log, base, api_key, item_id, true, r),
    ensures
        only_reads(log),
        r matches Ok((_, next)) ==> next == Refresh::Read,
{
}

/// Pulling an account only reads, and in a dry run nothing is left behind: no file for the inbox, no
/// cursor, and an empty name of the file in the report.
pub proof fn law_dry_run_leaves_nothing(
    log: Seq<(Sent, Reply)>,
    base: Seq<char>,
    api_key: Seq<char>,
    item_id: Seq<char>,
    account: Seq<char>,
    ask: Ask,
    stored: Seq<Stored>,
    started: Seq<char>,
    r: Result<Option<(PulledAccount, Option<Left>)>>,
)
    requires
        drawn(log, base, api_key, item_id, account, ask, stored, started, r),
    ensures
        only_reads(log),
        ask.dry_run ==> (r matches Ok(Some((report, left))) ==> left is None && report.file@.len() == 0),
{
}

} // verus!
