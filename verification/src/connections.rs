//! Provider account routing and pull preferences. No credentials belong in the ledger.

use vstd::prelude::*;

use crate::accounts::{get_account, place_of};
use crate::date::{date_in, iso_format, parse_opt_date, Date};
use crate::error::{invalid, Refusal, Result};
use crate::model::{Account, AccountType};
use crate::text::{blank, debug_text, int_text, lower, lowered, own, same, trimmed};

verus! {

#[derive(Debug)]
pub struct ConnectionAccount {
    pub id: i64,
    pub channel: String,
    pub item_id: String,
    pub provider_account_id: String,
    pub provider_type: String,
    pub name: String,
    pub currency: String,
    pub account_id: Option<i64>,
    pub account_path: String,
    pub entity_id: Option<i64>,
    pub last_pull_at: String,
    pub booked_from: String,
}

/// Fills in where a connection routes to.
pub fn decorate(a: &mut ConnectionAccount, accounts: &[Account]) -> (r: Result<()>)
    ensures
        match old(a).account_id {
            None => r is Ok && *final(a) == *old(a),
            Some(id) => match place_of(accounts@, id) {
                Some(i) => {
                    &&& r is Ok
                    &&& final(a).account_path@ == accounts@[i].path@
                    &&& final(a).entity_id == Some(accounts@[i].entity_id)
                    &&& (ConnectionAccount { account_path: old(a).account_path, entity_id: old(a).entity_id, ..*final(a) }) == *old(a)
                },
                None => *final(a) == *old(a) && (r matches Err(e) && e.not_found("account "@ + int_text(id as int))),
            },
        },
{
    if let Some(id) = a.account_id {
        let target = match get_account(accounts, id) {
            Ok(t) => t,
            Err(e) => {
                return Err(e);
            },
        };
        a.account_path = own(target.path.as_str());
        a.entity_id = Some(target.entity_id);
    }
    Ok(())
}

/// Whether every discovered account has an identity.
pub open spec fn identified(v: Seq<ConnectionAccount>) -> bool {
    forall|i: int| 0 <= i < v.len() ==> (#[trigger] v[i]).provider_account_id@.len() > 0
}

/// Checks what a provider reports. Discovery changes provider labels, not existing routes, cutoffs,
/// cursors, or pull timestamps.
pub fn discover(found: &[ConnectionAccount]) -> (r: Result<()>)
    ensures
        match r {
            Ok(_) => identified(found@),
            Err(e) => !identified(found@) && e.invalid("provider account has no identity"@),
        },
{
    let mut i: usize = 0;
    while i < found.len()
        invariant
            i <= found.len(),
            forall|k: int| 0 <= k < i ==> (#[trigger] found@[k]).provider_account_id@.len() > 0,
        decreases found.len() - i,
    {
        if found[i].provider_account_id.as_str().is_empty() {
            return Err(invalid("provider account has no identity"));
        }
        i = i + 1;
    }
    Ok(())
}

/// The providers whose pulls can start at a booking date.
pub open spec fn has_cutoff(channel: Seq<char>) -> bool {
    channel == "pluggy"@ || channel == "enable_banking"@ || channel == "mercury"@ || channel == "wise"@ || channel == "inter_pj"@
}

/// Why a connection cannot route to an account.
pub open spec fn route_refusal(c: ConnectionAccount, a: Account) -> Option<Seq<char>> {
    let kind = lowered(c.provider_type@);
    if (c.channel@ == "wise"@ || c.channel@ == "inter_pj"@) && a.account_type != AccountType::Asset {
        Some("Wise and Inter PJ statements require an asset destination"@)
    } else if a.placeholder || a.closed_at is Some {
        Some("choose an open account that accepts postings"@)
    } else if a.account_type != AccountType::Asset && a.account_type != AccountType::Liability {
        Some("bank connections require an asset or liability account"@)
    } else if c.currency@.len() == 0 || a.commodity@ != c.currency@ {
        Some("destination currency must match the provider account"@)
    } else if (kind == "credit"@ || kind == "credit_card"@) && a.account_type != AccountType::Liability {
        Some("credit accounts require a liability destination"@)
    } else {
        None
    }
}

/// The booking date that is asked for, or why it is refused.
pub open spec fn cutoff(c: ConnectionAccount, booked_from: Seq<char>) -> std::result::Result<Option<Date>, Refusal> {
    if blank(booked_from) {
        Ok(None)
    } else {
        match date_in(trimmed(booked_from), iso_format()) {
            None => Err(Refusal::Invalid("date must be YYYY-MM-DD, got "@ + debug_text(booked_from))),
            Some(d) => if has_cutoff(c.channel@) {
                Ok(Some(d))
            } else {
                Err(Refusal::Invalid("booking cutoff is unsupported for this provider"@))
            },
        }
    }
}

fn check_route(c: &ConnectionAccount, a: &Account) -> (r: Result<()>)
    ensures
        match r {
            Ok(_) => route_refusal(*c, *a) is None,
            Err(e) => route_refusal(*c, *a) is Some && e.invalid(route_refusal(*c, *a)->0),
        },
{
    if (same(c.channel.as_str(), "wise") || same(c.channel.as_str(), "inter_pj")) && a.account_type != AccountType::Asset {
        return Err(invalid("Wise and Inter PJ statements require an asset destination"));
    }
    if a.placeholder || a.is_closed() {
        return Err(invalid("choose an open account that accepts postings"));
    }
    if !matches!(a.account_type, AccountType::Asset | AccountType::Liability) {
        return Err(invalid("bank connections require an asset or liability account"));
    }
    if c.currency.as_str().is_empty() || !same(a.commodity.as_str(), c.currency.as_str()) {
        return Err(invalid("destination currency must match the provider account"));
    }
    let kind = lower(c.provider_type.as_str());
    if (same(kind.as_str(), "credit") || same(kind.as_str(), "credit_card")) && a.account_type != AccountType::Liability {
        return Err(invalid("credit accounts require a liability destination"));
    }
    Ok(())
}

/// Checks a new route and cutoff of a connection. Routing edits affect future imports; existing
/// evidence never moves with a mapping change.
pub fn configure(c: &ConnectionAccount, accounts: &[Account], account_id: Option<i64>, booked_from: &str) -> (r: Result<Option<Date>>)
    ensures
        match cutoff(*c, booked_from@) {
            Err(f) => r matches Err(e) && e@ == f,
            Ok(d) => match account_id {
                None => r == Ok::<Option<Date>, crate::error::Error>(d),
                Some(id) => match place_of(accounts@, id) {
                    None => r matches Err(e) && e.not_found("account "@ + int_text(id as int)),
                    Some(i) => match route_refusal(*c, accounts@[i]) {
                        Some(m) => r matches Err(e) && e.invalid(m),
                        None => r == Ok::<Option<Date>, crate::error::Error>(d),
                    },
                },
            },
        },
{
    let date = match parse_opt_date(booked_from) {
        Ok(d) => d,
        Err(e) => {
            return Err(e);
        },
    };
    let channel = c.channel.as_str();
    if date.is_some() && !(same(channel, "pluggy") || same(channel, "enable_banking") || same(channel, "mercury") || same(channel, "wise")
        || same(channel, "inter_pj")) {
        return Err(invalid("booking cutoff is unsupported for this provider"));
    }
    if let Some(id) = account_id {
        let a = match get_account(accounts, id) {
            Ok(a) => a,
            Err(e) => {
                return Err(e);
            },
        };
        if let Err(e) = check_route(c, a) {
            return Err(e);
        }
    }
    Ok(date)
}

/// The ledger account of the first connection, from `i` on, of a channel to a provider account.
pub open spec fn connected(v: Seq<ConnectionAccount>, channel: Seq<char>, provider_account: Seq<char>, i: int) -> Option<i64>
    decreases v.len() - i,
{
    if i < 0 || i >= v.len() {
        None
    } else if v[i].channel@ == channel && v[i].provider_account_id@ == provider_account {
        v[i].account_id
    } else {
        connected(v, channel, provider_account, i + 1)
    }
}

/// The ledger account that a provider account is routed to.
pub fn account_of(v: &[ConnectionAccount], channel: &str, provider_account: &str) -> (r: Option<i64>)
    ensures
        r == connected(v@, channel@, provider_account@, 0),
{
    let mut i: usize = 0;
    while i < v.len()
        invariant
            i <= v.len(),
            connected(v@, channel@, provider_account@, 0) == connected(v@, channel@, provider_account@, i as int),
        decreases v.len() - i,
    {
        if same(v[i].channel.as_str(), channel) && same(v[i].provider_account_id.as_str(), provider_account) {
            return v[i].account_id;
        }
        i = i + 1;
    }
    None
}

} // verus!
