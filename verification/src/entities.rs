//! Entities (sets of books) and commodities: their codes, kinds and standard accounts.

use vstd::prelude::*;

use crate::error::{invalid, not_found, Refusal, Result};
use crate::model::{AccountType, Commodity, Entity};
use crate::money::{check_precision, default_precision, places_of, precision_refusal};

use crate::text::{ascii_alnum, blank, cat, cat3, cat4, chars, debug_text, int_string, int_text, is_alnum, is_blank, is_lower, upper_char, lower, lowered, nat_string, nat_text, own, quoted, same, trim, trimmed, upper, uppered};

verus! {

/// A character that a commodity code may hold.
pub open spec fn code_char(c: char) -> bool {
    is_alnum(c) || c == '.' || c == '-' || c == '_'
}

/// Whether `s` is a commodity code in its stored form, but for the case of its letters.
pub open spec fn well_formed_code(s: Seq<char>) -> bool {
    &&& 1 <= s.len() <= 12
    &&& forall|i: int| 0 <= i < s.len() ==> code_char(#[trigger] s[i])
}

/// Whether `s` is a commodity code in its stored form.
pub open spec fn stored_code(s: Seq<char>) -> bool {
    well_formed_code(s) && forall|i: int| 0 <= i < s.len() ==> !is_lower(#[trigger] s[i])
}

/// The stored form of a commodity code: trimmed, in upper case.
pub open spec fn code_form(s: Seq<char>) -> Seq<char> {
    uppered(trimmed(s))
}

pub fn normalize_code(code: &str) -> (r: Result<String>)
    ensures
        match r {
            Ok(c) => c@ == code_form(code@) && stored_code(c@),
            Err(e) => !well_formed_code(code_form(code@)) && e.invalid("invalid commodity code "@ + debug_text(code@)),
        },
{
    let t = trim(code);
    let c = upper(t.as_str());
    let cs = chars(c.as_str());
    let mut good = cs.len() >= 1 && cs.len() <= 12;
    let mut i: usize = 0;
    while i < cs.len()
        invariant
            i <= cs.len(),
            good == (1 <= cs@.len() <= 12 && forall|k: int| 0 <= k < i ==> code_char(#[trigger] cs@[k])),
        decreases cs.len() - i,
    {
        let ch = cs[i];
        if !(ascii_alnum(ch) || ch == '.' || ch == '-' || ch == '_') {
            good = false;
        }
        i = i + 1;
    }
    if good {
        proof {
            assert forall|i: int| 0 <= i < c@.len() implies !is_lower(#[trigger] c@[i]) by {
                assert(c@[i] == upper_char(t@[i]));
            }
        }
        Ok(c)
    } else {
        Err(invalid(cat("invalid commodity code ", quoted(code).as_str()).as_str()))
    }
}

/// A code in its stored form is its own stored form.
pub proof fn law_stored_code(s: Seq<char>)
    requires
        stored_code(s),
    ensures
        code_form(s) == s,
{
    assert(code_char(s[0]) && code_char(s[s.len() - 1]));
    assert(trimmed(s) == s);
    assert(uppered(s) =~= s);
}

/// The kind of books that a request names: a person's unless it says a company's.
pub open spec fn kind_of_books(s: Seq<char>) -> Option<Seq<char>> {
    let k = lowered(trimmed(s));
    if k == ""@ || k == "person"@ {
        Some("person"@)
    } else if k == "company"@ || k == "business"@ {
        Some("company"@)
    } else {
        None
    }
}

/// What is stored for a new entity.
#[derive(Debug)]
pub struct EntityPlan {
    pub name: String,
    pub kind: String,
    pub country: String,
    pub currency: String,
}

/// Checks a new entity and gives what is stored for it.
pub fn create_entity(name: &str, kind: &str, country: &str, currency: &str) -> (r: Result<EntityPlan>)
    ensures
        match r {
            Ok(p) => {
                &&& !blank(name@) && p.name@ == trimmed(name@)
                &&& kind_of_books(kind@) == Some(p.kind@)
                &&& p.country@ == uppered(trimmed(country@))
                &&& well_formed_code(code_form(currency@)) && p.currency@ == code_form(currency@)
            },
            Err(e) => if blank(name@) {
                e.invalid("entity name is required"@)
            } else if kind_of_books(kind@) is None {
                e.invalid("entity kind must be person or company, got "@ + debug_text(lowered(trimmed(kind@))))
            } else {
                !well_formed_code(code_form(currency@)) && e.invalid("invalid commodity code "@ + debug_text(currency@))
            },
        },
{
    if is_blank(name) {
        return Err(invalid("entity name is required"));
    }
    let k = lower(trim(kind).as_str());
    let kind = if same(k.as_str(), "") || same(k.as_str(), "person") {
        own("person")
    } else if same(k.as_str(), "company") || same(k.as_str(), "business") {
        own("company")
    } else {
        return Err(invalid(cat("entity kind must be person or company, got ", quoted(k.as_str()).as_str()).as_str()));
    };
    match normalize_code(currency) {
        Ok(currency) => Ok(EntityPlan { name: trim(name), kind, country: upper(trim(country).as_str()), currency }),
        Err(e) => Err(e),
    }
}

/// What of an entity changes with an update: a blank name or kind leaves the one it has.
pub fn update_entity(before: &Entity, name: &str, kind: &str, country: &str) -> (r: Result<(String, String, String)>)
    ensures
        ({
            let new_name = if blank(name@) { before.name@ } else { trimmed(name@) };
            let new_kind = if blank(kind@) { before.kind@ } else { lowered(trimmed(kind@)) };
            match r {
                Ok(p) => (new_kind == "person"@ || new_kind == "company"@) && p.0@ == new_name && p.1@ == new_kind && p.2@ == uppered(
                    trimmed(country@),
                ),
                Err(e) => new_kind != "person"@ && new_kind != "company"@ && e.invalid("entity kind must be person or company"@),
            }
        }),
{
    let new_name = if is_blank(name) { before.name.clone() } else { trim(name) };
    let new_kind = if is_blank(kind) { before.kind.clone() } else { lower(trim(kind).as_str()) };
    if !same(new_kind.as_str(), "person") && !same(new_kind.as_str(), "company") {
        return Err(invalid("entity kind must be person or company"));
    }
    Ok((new_name, new_kind, upper(trim(country).as_str())))
}

/// An account that every set of books has.
#[derive(Debug)]
pub struct SystemAccount {
    pub name: String,
    pub account_type: AccountType,
    pub subtype: String,
    pub role: String,
}

pub open spec fn system_account(a: SystemAccount, name: Seq<char>, t: AccountType, subtype: Seq<char>, role: Seq<char>) -> bool {
    a.name@ == name && a.account_type == t && a.subtype@ == subtype && a.role@ == role
}

fn make_system(name: &str, t: AccountType, subtype: &str, role: &str) -> (a: SystemAccount)
    ensures
        system_account(a, name@, t, subtype@, role@),
{
    SystemAccount { name: own(name), account_type: t, subtype: own(subtype), role: own(role) }
}

/// The accounts that a new set of books starts with.
pub fn create_system_accounts(kind: &str) -> (r: Vec<SystemAccount>)
    ensures
        r@.len() == 5,
        system_account(r@[0], "Opening balances"@, AccountType::Equity, "equity"@, "opening_balance"@),
        system_account(r@[1], "Uncategorized"@, AccountType::Expense, "expense"@, "suspense"@),
        system_account(r@[2], "FX gain/loss"@, AccountType::Expense, "expense"@, "fx_gain_loss"@),
        kind@ == "company"@ ==> system_account(
            r@[3],
            "Owner contributions"@,
            AccountType::Equity,
            "equity"@,
            "owner_contributions"@,
        ) && system_account(r@[4], "Owner distributions"@, AccountType::Equity, "equity"@, "owner_distributions"@),
        kind@ != "company"@ ==> system_account(
            r@[3],
            "Distributions received"@,
            AccountType::Income,
            "income"@,
            "distributions_received"@,
        ) && system_account(r@[4], "Investments in entities"@, AccountType::Asset, "investment"@, "investment_in_entity"@),
{
    let mut r: Vec<SystemAccount> = Vec::new();
    r.push(make_system("Opening balances", AccountType::Equity, "equity", "opening_balance"));
    r.push(make_system("Uncategorized", AccountType::Expense, "expense", "suspense"));
    r.push(make_system("FX gain/loss", AccountType::Expense, "expense", "fx_gain_loss"));
    if same(kind, "company") {
        r.push(make_system("Owner contributions", AccountType::Equity, "equity", "owner_contributions"));
        r.push(make_system("Owner distributions", AccountType::Equity, "equity", "owner_distributions"));
    } else {
        r.push(make_system("Distributions received", AccountType::Income, "income", "distributions_received"));
        r.push(make_system("Investments in entities", AccountType::Asset, "investment", "investment_in_entity"));
    }
    r
}

/// The kind of commodity that a request names: a currency unless it says otherwise.
pub open spec fn kind_of_commodity(s: Seq<char>) -> Option<Seq<char>> {
    let k = lowered(trimmed(s));
    if k == ""@ || k == "currency"@ {
        Some("currency"@)
    } else if k == "security"@ || k == "stock"@ || k == "fund"@ || k == "etf"@ {
        Some("security"@)
    } else if k == "crypto"@ {
        Some("crypto"@)
    } else {
        None
    }
}

/// What is stored for a commodity.
#[derive(Debug)]
pub struct CommodityPlan {
    pub code: String,
    pub kind: String,
    pub name: String,
    pub precision: u32,
    pub isin: String,
}

/// The precision of a commodity: the one it was created with, else the one asked for, else the
/// usual one of its kind.
pub open spec fn planned_precision(stored: Option<u32>, wanted: Option<u32>, kind: Seq<char>, code: Seq<char>) -> u32 {
    match (stored, wanted) {
        (Some(p), _) => p,
        (None, Some(p)) => p,
        (None, None) => if kind == "crypto"@ {
            8
        } else if kind == "security"@ {
            4
        } else {
            places_of(code)
        },
    }
}

pub open spec fn precision_change_text(code: Seq<char>, have: int, want: int) -> Seq<char> {
    "commodity "@ + code + " was created with precision "@ + nat_text(have as nat) + " and it cannot change; asked for "@
        + nat_text(want as nat)
}

/// Checks a commodity and gives what is stored for it. `stored` is its precision where it exists
/// already: the precision says what every integer stored in the commodity counts, so it is fixed
/// when the commodity is created.
pub fn create_commodity(code: &str, kind: &str, name: &str, precision: Option<u32>, isin: &str, stored: Option<u32>) -> (r: Result<
    CommodityPlan,
>)
    ensures
        ({
            let c = code_form(code@);
            let changes = stored is Some && precision is Some && stored->0 != precision->0;
            let k = kind_of_commodity(kind@);
            match r {
                Ok(p) => {
                    &&& well_formed_code(c) && p.code@ == c
                    &&& k == Some(p.kind@)
                    &&& !changes
                    &&& p.precision == planned_precision(stored, precision, p.kind@, c) && p.precision <= 8
                    &&& p.name@ == (if blank(name@) { name_of_currency(c) } else { trimmed(name@) })
                    &&& p.isin@ == trimmed(isin@)
                },
                Err(e) => if !well_formed_code(c) {
                    e.invalid("invalid commodity code "@ + debug_text(code@))
                } else if k is None {
                    e.invalid(
                        "commodity kind must be currency, security or crypto, got "@ + debug_text(lowered(trimmed(kind@))),
                    )
                } else if changes {
                    e.invalid(precision_change_text(c, stored->0 as int, precision->0 as int))
                } else {
                    planned_precision(stored, precision, k->0, c) > 8 && e.invalid(
                        precision_refusal(planned_precision(stored, precision, k->0, c) as int),
                    )
                },
            }
        }),
{
    let c = match normalize_code(code) {
        Ok(c) => c,
        Err(e) => {
            return Err(e);
        },
    };
    let k = lower(trim(kind).as_str());
    let n = k.as_str();
    let kind = if same(n, "") || same(n, "currency") {
        "currency"
    } else if same(n, "security") || same(n, "stock") || same(n, "fund") || same(n, "etf") {
        "security"
    } else if same(n, "crypto") {
        "crypto"
    } else {
        return Err(
            invalid(cat("commodity kind must be currency, security or crypto, got ", quoted(n).as_str()).as_str()),
        );
    };
    if let (Some(have), Some(want)) = (stored, precision) {
        if have != want {
            let left = cat4(
                "commodity ",
                c.as_str(),
                " was created with precision ",
                nat_string(have as u128).as_str(),
            );
            return Err(
                invalid(
                    cat3(left.as_str(), " and it cannot change; asked for ", nat_string(want as u128).as_str()).as_str(),
                ),
            );
        }
    }
    let places: u32 = match (stored, precision) {
        (Some(p), _) => p,
        (None, Some(p)) => p,
        (None, None) => if same(kind, "crypto") {
            8
        } else if same(kind, "security") {
            4
        } else {
            default_precision(c.as_str())
        },
    };
    if let Err(e) = check_precision(places) {
        return Err(e);
    }
    let name = if is_blank(name) { currency_name(c.as_str()) } else { trim(name) };
    Ok(CommodityPlan { code: c, kind: own(kind), name, precision: places, isin: trim(isin) })
}

/// The kind and the precision of a currency that is stored because something names it.
pub fn new_currency(code: &str) -> (r: (&'static str, u32))
    ensures
        r.1 == places_of(code@),
        r.0@ == (if places_of(code@) == 8 { "crypto"@ } else { "currency"@ }),
{
    let p = default_precision(code);
    if p == 8 {
        ("crypto", p)
    } else {
        ("currency", p)
    }
}

/// The name of a currency; its code where no name is known.
pub open spec fn name_of_currency(code: Seq<char>) -> Seq<char> {
    if code == "EUR"@ {
        "Euro"@
    } else if code == "USD"@ {
        "US dollar"@
    } else if code == "BRL"@ {
        "Brazilian real"@
    } else if code == "GBP"@ {
        "Pound sterling"@
    } else if code == "CHF"@ {
        "Swiss franc"@
    } else if code == "IDR"@ {
        "Indonesian rupiah"@
    } else if code == "JPY"@ {
        "Japanese yen"@
    } else if code == "CAD"@ {
        "Canadian dollar"@
    } else if code == "AUD"@ {
        "Australian dollar"@
    } else if code == "MXN"@ {
        "Mexican peso"@
    } else if code == "ARS"@ {
        "Argentine peso"@
    } else if code == "BTC"@ {
        "Bitcoin"@
    } else if code == "ETH"@ {
        "Ether"@
    } else {
        code
    }
}

pub fn currency_name(code: &str) -> (r: String)
    ensures
        r@ == name_of_currency(code@),
{
    let n = if same(code, "EUR") {
        "Euro"
    } else if same(code, "USD") {
        "US dollar"
    } else if same(code, "BRL") {
        "Brazilian real"
    } else if same(code, "GBP") {
        "Pound sterling"
    } else if same(code, "CHF") {
        "Swiss franc"
    } else if same(code, "IDR") {
        "Indonesian rupiah"
    } else if same(code, "JPY") {
        "Japanese yen"
    } else if same(code, "CAD") {
        "Canadian dollar"
    } else if same(code, "AUD") {
        "Australian dollar"
    } else if same(code, "MXN") {
        "Mexican peso"
    } else if same(code, "ARS") {
        "Argentine peso"
    } else if same(code, "BTC") {
        "Bitcoin"
    } else if same(code, "ETH") {
        "Ether"
    } else {
        code
    };
    own(n)
}

/// The place of the first commodity from `from` on with a code.
pub open spec fn code_place(commodities: Seq<Commodity>, code: Seq<char>, from: int) -> Option<int>
    decreases commodities.len() - from,
{
    if from < 0 || from >= commodities.len() {
        None
    } else if commodities[from].code@ == code {
        Some(from)
    } else {
        code_place(commodities, code, from + 1)
    }
}

fn find_code<'a>(commodities: &'a [Commodity], code: &str) -> (r: Option<&'a Commodity>)
    ensures
        match r {
            Some(c) => {
                &&& code_place(commodities@, code@, 0) is Some
                &&& 0 <= code_place(commodities@, code@, 0)->0 < commodities@.len()
                &&& *c == commodities@[code_place(commodities@, code@, 0)->0]
                &&& c.code@ == code@
            },
            None => code_place(commodities@, code@, 0) is None,
        },
{
    let mut i: usize = 0;
    while i < commodities.len()
        invariant
            i <= commodities.len(),
            code_place(commodities@, code@, 0) == code_place(commodities@, code@, i as int),
        decreases commodities.len() - i,
    {
        if same(commodities[i].code.as_str(), code) {
            return Some(&commodities[i]);
        }
        i = i + 1;
    }
    None
}

/// The commodity that a code names, or why there is none.
pub open spec fn commodity_named(commodities: Seq<Commodity>, code: Seq<char>) -> std::result::Result<Commodity, Refusal> {
    if !well_formed_code(code_form(code)) {
        Err(Refusal::Invalid("invalid commodity code "@ + debug_text(code)))
    } else {
        match code_place(commodities, code_form(code), 0) {
            Some(i) => Ok(commodities[i]),
            None => Err(Refusal::NotFound("commodity "@ + code_form(code))),
        }
    }
}

pub fn get_commodity_by_code<'a>(commodities: &'a [Commodity], code: &str) -> (r: Result<&'a Commodity>)
    ensures
        match r {
            Ok(c) => commodity_named(commodities@, code@) == Ok::<Commodity, Refusal>(*c),
            Err(e) => commodity_named(commodities@, code@) == Err::<Commodity, Refusal>(e@),
        },
{
    let c = match normalize_code(code) {
        Ok(c) => c,
        Err(e) => {
            return Err(e);
        },
    };
    match find_code(commodities, c.as_str()) {
        Some(found) => Ok(found),
        None => Err(not_found(cat("commodity ", c.as_str()).as_str())),
    }
}

/// The precision of an entity's functional currency, or why there is none.
pub open spec fn functional_places(commodities: Seq<Commodity>, entity: Entity) -> std::result::Result<u32, Refusal> {
    match code_place(commodities, entity.currency@, 0) {
        Some(i) => Ok(commodities[i].precision),
        None => Err(Refusal::NotFound("functional currency of entity "@ + int_text(entity.id as int))),
    }
}

/// The precision of an entity's functional currency: the decimals of every amount it stores.
pub fn functional_precision(commodities: &[Commodity], entity: &Entity) -> (r: Result<u32>)
    ensures
        match r {
            Ok(p) => functional_places(commodities@, *entity) == Ok::<u32, Refusal>(p),
            Err(e) => functional_places(commodities@, *entity) == Err::<u32, Refusal>(e@),
        },
{
    match find_code(commodities, entity.currency.as_str()) {
        Some(c) => Ok(c.precision),
        None => Err(not_found(cat("functional currency of entity ", int_string(entity.id).as_str()).as_str())),
    }
}

/// The place of the first entity from `from` on with an id.
pub open spec fn entity_place(entities: Seq<Entity>, id: i64, from: int) -> Option<int>
    decreases entities.len() - from,
{
    if from < 0 || from >= entities.len() {
        None
    } else if entities[from].id == id {
        Some(from)
    } else {
        entity_place(entities, id, from + 1)
    }
}

pub fn get_entity<'a>(entities: &'a [Entity], id: i64) -> (r: Result<&'a Entity>)
    ensures
        match r {
            Ok(e) => entity_place(entities@, id, 0) is Some && *e == entities@[entity_place(entities@, id, 0)->0] && e.id == id,
            Err(e) => entity_place(entities@, id, 0) is None && e.not_found("entity "@ + int_text(id as int)),
        },
{
    let mut i: usize = 0;
    while i < entities.len()
        invariant
            i <= entities.len(),
            entity_place(entities@, id, 0) == entity_place(entities@, id, i as int),
        decreases entities.len() - i,
    {
        if entities[i].id == id {
            return Ok(&entities[i]);
        }
        i = i + 1;
    }
    Err(not_found(cat("entity ", int_string(id).as_str()).as_str()))
}

} // verus!
