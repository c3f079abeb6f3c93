//! Explicit historical changes of a vault's accounting currency. Native accounts, posting quantities
//! and statement evidence keep their identities.

use vstd::prelude::*;
use vstd::utf8::encode_utf8;

use crate::date::{iso, iso_text, Date};
use crate::decimal::{
    decimal_text, distance, divided, law_arithmetic_near, lemma_pow10_positive, lemma_same_value, lemma_value_whole, multiplied, near, pow10, same_value, value, view_of,
    Decimal, Num,
};
use crate::codec::{hex_string, hex_text, json_string, json_text, sha256, sha256_of};
use crate::error::{conflict, invalid, locked, Refusal, Result};
use crate::imports::{copy_text, fields, fields_with, opt_text, put_field, value_text};
use crate::json::{items, items_of, text_at, text_in};
use crate::accounts::{find_by_role, role_place};
use crate::budgets::Budget;
use crate::documents::{money_string, money_text, opt_id_string, opt_id_text, opt_json_text};
use crate::entities::{code_form, commodity_named, get_commodity_by_code, normalize_code, well_formed_code};
use crate::hashchain::VerifyReport;
use crate::model::{has_flag, meta_at, meta_flag, meta_copy, meta_get, Account, AccountType, Commodity, Entity, JournalEntry, MetaEntry, MetaValue, Posting, Price};
use crate::money::{amount_of, amount_of_major, decimal_in, in_major, law_amount_of_major, law_minor_nearest, lemma_converted_near, lemma_money_size, lemma_normal, number_text, parse, same_unit, with_minor, Amount, Money};
use crate::text::{cat, cat3, cat4, cat5, debug_text, glue, glued, int_string, int_text, is_less, join, joined, nat_string, nat_text, own, same, starts, starts_with, str_texts, text_less, texts};

verus! {

/// A rate and where it comes from.
pub type Sourced = (Num, Seq<char>);

pub open spec fn overflow() -> Refusal {
    Refusal::Invalid("currency migration amount overflow"@)
}

fn multiply(value: Decimal, rate: Decimal) -> (r: Result<Decimal>)
    ensures
        match r {
            Ok(p) => multiplied(value@, rate@) == Some(p@),
            Err(e) => multiplied(value@, rate@) is None && e@ == overflow(),
        },
{
    match value.checked_mul(rate) {
        Some(p) => Ok(p),
        None => Err(invalid("currency migration amount overflow")),
    }
}

/// Whether a price is a dated quote of a pair: a rate that came with an export is none.
pub open spec fn is_quote(p: Price, from: Seq<char>, to: Seq<char>, date: Date) -> bool {
    p.commodity@ == from && p.currency@ == to && !date.before(p.on) && p.source@ != "import"@
}

/// The place of the latest quote among the first `n` prices.
pub open spec fn latest_quote(prices: Seq<Price>, from: Seq<char>, to: Seq<char>, date: Date, n: nat) -> Option<int>
    decreases n,
{
    if n == 0 {
        None
    } else {
        let best = latest_quote(prices, from, to, date, (n - 1) as nat);
        let p = prices[n - 1];
        if is_quote(p, from, to, date) && (best is None || prices[best->0].on.before(p.on)) {
            Some(n - 1)
        } else {
            best
        }
    }
}

pub open spec fn quote_text(p: Price, from: Seq<char>, to: Seq<char>) -> Seq<char> {
    from + "/"@ + to + "="@ + decimal_text(p.price@) + (" on "@ + iso_text(p.on) + " ("@ + p.source@ + ")"@)
}

/// The quote of a pair for a date: within the seven days before it, which allow weekends and holidays.
pub open spec fn quote_of(prices: Seq<Price>, from: Seq<char>, to: Seq<char>, date: Date) -> std::result::Result<Option<Sourced>, Refusal> {
    match latest_quote(prices, from, to, date, prices.len()) {
        None => Ok(None),
        Some(i) => {
            let p = prices[i];
            if date.number() - p.on.number() > 7 {
                Ok(None)
            } else if p.price@.0 <= 0 {
                Err(Refusal::Invalid("invalid historical rate "@ + from + "/"@ + to + (" on "@ + iso_text(p.on))))
            } else {
                Ok(Some((p.price@, quote_text(p, from, to))))
            }
        },
    }
}

pub open spec fn shown(q: Option<(Decimal, String)>) -> Option<Sourced> {
    match q {
        Some((r, s)) => Some((r@, s@)),
        None => None,
    }
}

fn quote(prices: &[Price], from: &str, to: &str, date: Date) -> (r: Result<Option<(Decimal, String)>>)
    ensures
        match r {
            Ok(q) => quote_of(prices@, from@, to@, date) == Ok::<Option<Sourced>, Refusal>(shown(q)),
            Err(e) => quote_of(prices@, from@, to@, date) == Err::<Option<Sourced>, Refusal>(e@),
        },
{
    let mut best: Option<usize> = None;
    let mut n: usize = 0;
    while n < prices.len()
        invariant
            n <= prices@.len(),
            match best {
                Some(i) => i < n && latest_quote(prices@, from@, to@, date, n as nat) == Some(i as int),
                None => latest_quote(prices@, from@, to@, date, n as nat) is None,
            },
        decreases prices@.len() - n,
    {
        let p = &prices[n];
        if same(p.commodity.as_str(), from) && same(p.currency.as_str(), to) && !date.is_before(p.on) && !same(p.source.as_str(), "import") {
            let later = match best {
                Some(i) => prices[i].on.is_before(p.on),
                None => true,
            };
            if later {
                best = Some(n);
            }
        }
        n = n + 1;
    }
    let p = match best {
        Some(i) => &prices[i],
        None => {
            return Ok(None);
        },
    };
    if date.days_since(p.on) > 7 {
        return Ok(None);
    }
    let on = iso(p.on);
    if p.price.is_zero() || p.price.is_negative() {
        let tail = cat(" on ", on.as_str());
        return Err(invalid(cat5("invalid historical rate ", from, "/", to, tail.as_str()).as_str()));
    }
    let tail = cat5(" on ", on.as_str(), " (", p.source.as_str(), ")");
    let text = cat5(from, "/", to, "=", p.price.text().as_str());
    Ok(Some((p.price, cat(text.as_str(), tail.as_str()))))
}

/// The rate of a pair for a date, quoted either way round.
pub open spec fn pair_of(prices: Seq<Price>, from: Seq<char>, to: Seq<char>, date: Date) -> std::result::Result<Option<Sourced>, Refusal> {
    if from == to {
        Ok(Some(((1, 0), "same currency"@)))
    } else {
        match quote_of(prices, from, to, date) {
            Err(e) => Err(e),
            Ok(Some(q)) => Ok(Some(q)),
            Ok(None) => match quote_of(prices, to, from, date) {
                Err(e) => Err(e),
                Ok(None) => Ok(None),
                Ok(Some((r, s))) => match divided((1, 0), r) {
                    None => Err(overflow()),
                    Some(q) => Ok(Some((q, "inverse "@ + s))),
                },
            },
        }
    }
}

fn pair(prices: &[Price], from: &str, to: &str, date: Date) -> (r: Result<Option<(Decimal, String)>>)
    ensures
        match r {
            Ok(q) => pair_of(prices@, from@, to@, date) == Ok::<Option<Sourced>, Refusal>(shown(q)),
            Err(e) => pair_of(prices@, from@, to@, date) == Err::<Option<Sourced>, Refusal>(e@),
        },
{
    if same(from, to) {
        return Ok(Some((Decimal::one(), own("same currency"))));
    }
    match quote(prices, from, to, date) {
        Err(e) => {
            return Err(e);
        },
        Ok(Some(q)) => {
            return Ok(Some(q));
        },
        Ok(None) => {},
    }
    match quote(prices, to, from, date) {
        Err(e) => Err(e),
        Ok(None) => Ok(None),
        Ok(Some((r, s))) => match Decimal::one().checked_div(r) {
            Some(q) => Ok(Some((q, cat("inverse ", s.as_str())))),
            None => Err(invalid("currency migration amount overflow")),
        },
    }
}

pub open spec fn missing_text(from: Seq<char>, to: Seq<char>, date: Date) -> Seq<char> {
    "missing historical rate "@ + from + "/"@ + to + (" for "@ + iso_text(date)
        + "; need a dated quote within the preceding seven days (export snapshots do not qualify)"@)
}

/// The rate by way of a currency, from the `i`th on.
pub open spec fn crossed(prices: Seq<Price>, currencies: Seq<Seq<char>>, from: Seq<char>, to: Seq<char>, date: Date, i: int) -> std::result::Result<
    Sourced,
    Refusal,
>
    decreases currencies.len() - i,
{
    if i < 0 || i >= currencies.len() {
        Err(Refusal::Invalid(missing_text(from, to, date)))
    } else {
        let via = currencies[i];
        if via == from || via == to {
            crossed(prices, currencies, from, to, date, i + 1)
        } else {
            match pair_of(prices, from, via, date) {
                Err(e) => Err(e),
                Ok(a) => match pair_of(prices, via, to, date) {
                    Err(e) => Err(e),
                    Ok(b) => if a is Some && b is Some {
                        match multiplied((a->0).0, (b->0).0) {
                            None => Err(overflow()),
                            Some(p) => Ok((p, "cross "@ + (a->0).1 + "; "@ + (b->0).1)),
                        }
                    } else {
                        crossed(prices, currencies, from, to, date, i + 1)
                    },
                },
            }
        }
    }
}

/// The rate of a pair for a date: quoted, or by way of the first currency that is quoted with both.
pub open spec fn historical_of(prices: Seq<Price>, currencies: Seq<Seq<char>>, from: Seq<char>, to: Seq<char>, date: Date) -> std::result::Result<
    Sourced,
    Refusal,
> {
    match pair_of(prices, from, to, date) {
        Err(e) => Err(e),
        Ok(Some(q)) => Ok(q),
        Ok(None) => crossed(prices, currencies, from, to, date, 0),
    }
}

/// The rate of a pair for a date. `currencies` are the codes of the known currencies, in their order.
pub fn historical(prices: &[Price], currencies: &[String], from: &str, to: &str, date: Date) -> (r: Result<(Decimal, String)>)
    ensures
        match r {
            Ok(q) => historical_of(prices@, texts(currencies@), from@, to@, date) == Ok::<Sourced, Refusal>((q.0@, q.1@)),
            Err(e) => historical_of(prices@, texts(currencies@), from@, to@, date) == Err::<Sourced, Refusal>(e@),
        },
{
    match pair(prices, from, to, date) {
        Err(e) => {
            return Err(e);
        },
        Ok(Some(q)) => {
            return Ok(q);
        },
        Ok(None) => {},
    }
    let ghost codes = texts(currencies@);
    let mut i: usize = 0;
    while i < currencies.len()
        invariant
            i <= currencies@.len(),
            codes == texts(currencies@),
            historical_of(prices@, codes, from@, to@, date) == crossed(prices@, codes, from@, to@, date, i as int),
        decreases currencies@.len() - i,
    {
        let via = currencies[i].as_str();
        assert(codes[i as int] == via@);
        if !same(via, from) && !same(via, to) {
            let a = match pair(prices, from, via, date) {
                Ok(q) => q,
                Err(e) => {
                    return Err(e);
                },
            };
            let b = match pair(prices, via, to, date) {
                Ok(q) => q,
                Err(e) => {
                    return Err(e);
                },
            };
            if let (Some((x, sx)), Some((y, sy))) = (a, b) {
                return match multiply(x, y) {
                    Ok(p) => Ok((p, cat4("cross ", sx.as_str(), "; ", sy.as_str()))),
                    Err(e) => Err(e),
                };
            }
        }
        i = i + 1;
    }
    let day = iso(date);
    let tail = cat3(
        " for ",
        day.as_str(),
        "; need a dated quote within the preceding seven days (export snapshots do not qualify)",
    );
    Err(invalid(cat5("missing historical rate ", from, "/", to, tail.as_str()).as_str()))
}

/// The commodity and the quantity that a value names.
pub open spec fn value_parts(v: MetaValue) -> (Option<Seq<char>>, Option<Seq<char>>) {
    match v {
        MetaValue::Value { quantity, commodity } => (Some(commodity@), Some(quantity@)),
        MetaValue::Other(t) => (text_at(t@, "commodity"@), text_at(t@, "quantity"@)),
        _ => (None, None),
    }
}

fn read_value(v: &MetaValue) -> (r: (Option<String>, Option<String>))
    ensures
        (opt_text(r.0), opt_text(r.1)) == value_parts(*v),
{
    match v {
        MetaValue::Value { quantity, commodity } => (Some(own(commodity.as_str())), Some(own(quantity.as_str()))),
        MetaValue::Other(t) => (text_in(t.as_str(), "commodity"), text_in(t.as_str(), "quantity")),
        _ => (None, None),
    }
}

/// The value under a key that is in a currency: its quantity, where it has one.
pub open spec fn value_under(m: Seq<MetaEntry>, key: Seq<char>, target: Seq<char>) -> Option<Option<Seq<char>>> {
    match meta_at(m, key) {
        Some(v) => if value_parts(v).0 == Some(target) {
            Some(value_parts(v).1)
        } else {
            None
        },
        None => None,
    }
}

fn find_value(m: &Vec<MetaEntry>, key: &str, target: &str) -> (r: Option<Option<String>>)
    ensures
        match r {
            Some(q) => value_under(m@, key@, target@) == Some(opt_text(q)),
            None => value_under(m@, key@, target@) is None,
        },
{
    match meta_get(m, key) {
        Some(v) => {
            let (commodity, quantity) = read_value(v);
            match commodity {
                Some(c) => if same(c.as_str(), target) {
                    Some(quantity)
                } else {
                    None
                },
                None => None,
            }
        },
        None => None,
    }
}

/// An amount and where it comes from.
pub type Evidence = (Amount, Seq<char>);

pub open spec fn parse_refusal(s: Seq<char>) -> Option<Refusal> {
    if number_text(s).len() == 0 {
        Some(Refusal::Invalid("empty amount"@))
    } else if decimal_in(number_text(s)) is None {
        Some(Refusal::Invalid("not a decimal: "@ + crate::text::debug_text(s)))
    } else {
        None
    }
}

pub open spec fn in_target(n: Num, target: Seq<char>, precision: int, source: Seq<char>) -> std::result::Result<Option<Evidence>, Refusal> {
    match amount_of_major(n, target, precision) {
        Ok(a) => Ok(Some((a, source))),
        Err(e) => Err(e),
    }
}

pub open spec fn opt_starts(t: Option<String>, s: Seq<char>) -> bool {
    match t {
        Some(x) => starts(x@, s),
        None => false,
    }
}

/// What a posting itself says of its value in a currency: its own quantity, the amount that was paid
/// in it, or the value that was given.
pub open spec fn evidence_of(p: Posting, target: Seq<char>, precision: int) -> std::result::Result<Option<Evidence>, Refusal> {
    let original = if opt_starts(p.external_id, "at:"@) {
        value_under(p.metadata@, "original"@, target)
    } else {
        None
    };
    let given = value_under(p.metadata@, "value_in"@, target);
    if p.quantity@.commodity == target {
        Ok(Some((p.quantity@, "native target-currency quantity"@)))
    } else if original is Some {
        match original->0 {
            None => Err(Refusal::Invalid("invalid original amount on posting "@ + int_text(p.id as int))),
            Some(raw) => match parse_refusal(raw) {
                Some(e) => Err(e),
                None => {
                    let n = decimal_in(number_text(raw))->0;
                    let size = if n.0 < 0 {
                        -n.0
                    } else {
                        n.0
                    };
                    if n.0 == 0 || p.quantity@.minor == 0 {
                        Err(Refusal::Invalid("ambiguous zero original amount on posting "@ + int_text(p.id as int)))
                    } else {
                        in_target(
                            (
                                if p.quantity@.minor < 0 {
                                    -size
                                } else {
                                    size
                                },
                                n.1,
                            ),
                            target,
                            precision,
                            "Account Tracker original transaction amount"@,
                        )
                    }
                },
            },
        }
    } else if given is Some {
        match given->0 {
            None => Err(Refusal::Invalid("invalid value_in on posting "@ + int_text(p.id as int))),
            Some(raw) => match parse_refusal(raw) {
                Some(e) => Err(e),
                None => in_target(decimal_in(number_text(raw))->0, target, precision, "explicit transaction value_in"@),
            },
        }
    } else {
        Ok(None)
    }
}

pub open spec fn shown_evidence(v: Option<(Money, String)>) -> Option<Evidence> {
    match v {
        Some((m, s)) => Some((m@, s@)),
        None => None,
    }
}

fn evidence(p: &Posting, target: &str, precision: u32) -> (r: Result<Option<(Money, String)>>)
    ensures
        match r {
            Ok(v) => evidence_of(*p, target@, precision as int) == Ok::<Option<Evidence>, Refusal>(shown_evidence(v)),
            Err(e) => evidence_of(*p, target@, precision as int) == Err::<Option<Evidence>, Refusal>(e@),
        },
{
    if same(p.quantity.commodity().as_str(), target) {
        return Ok(Some((p.quantity, own("native target-currency quantity"))));
    }
    let from_app = match &p.external_id {
        Some(x) => starts_with(x.as_str(), "at:"),
        None => false,
    };
    if from_app {
        if let Some(quantity) = find_value(&p.metadata, "original", target) {
            let raw = match quantity {
                Some(q) => q,
                None => {
                    return Err(invalid(cat("invalid original amount on posting ", int_string(p.id).as_str()).as_str()));
                },
            };
            let n = match parse(raw.as_str()) {
                Ok(n) => n.abs(),
                Err(e) => {
                    return Err(e);
                },
            };
            if n.is_zero() || p.quantity.is_zero() {
                return Err(invalid(cat("ambiguous zero original amount on posting ", int_string(p.id).as_str()).as_str()));
            }
            let signed = if p.quantity.is_negative() {
                n.negated()
            } else {
                n
            };
            return match Money::from_major(signed, target, precision) {
                Ok(m) => Ok(Some((m, own("Account Tracker original transaction amount")))),
                Err(e) => Err(e),
            };
        }
    }
    if let Some(quantity) = find_value(&p.metadata, "value_in", target) {
        let raw = match quantity {
            Some(q) => q,
            None => {
                return Err(invalid(cat("invalid value_in on posting ", int_string(p.id).as_str()).as_str()));
            },
        };
        let n = match parse(raw.as_str()) {
            Ok(n) => n,
            Err(e) => {
                return Err(e);
            },
        };
        return match Money::from_major(n, target, precision) {
            Ok(m) => Ok(Some((m, own("explicit transaction value_in")))),
            Err(e) => Err(e),
        };
    }
    Ok(None)
}

/// What a migration works with: the prices, the codes of the currencies in order, and the currency that
/// it leaves and the one that it goes to.
pub struct Migration<'a> {
    pub prices: &'a [Price],
    pub currencies: &'a [String],
    pub from: &'a str,
    pub to: &'a str,
    pub precision: u32,
}

/// What a migration works with, as a contract sees it.
#[verifier::ext_equal]
pub struct Rates {
    pub prices: Seq<Price>,
    pub currencies: Seq<Seq<char>>,
    pub from: Seq<char>,
    pub to: Seq<char>,
    pub precision: int,
}

impl<'a> View for Migration<'a> {
    type V = Rates;

    open spec fn view(&self) -> Rates {
        Rates {
            prices: self.prices@,
            currencies: texts(self.currencies@),
            from: self.from@,
            to: self.to@,
            precision: self.precision as int,
        }
    }
}

#[derive(Debug)]
pub struct PostingChange {
    pub posting_id: i64,
    pub before: Money,
    pub after: Money,
    pub source: String,
}

#[derive(Debug)]
pub struct EntryChange {
    pub entry_id: i64,
    pub date: Date,
    pub postings: Vec<PostingChange>,
    pub fx_adjustment: Money,
    pub reverses_entry: Option<i64>,
}

#[verifier::ext_equal]
pub struct ShownPosting {
    pub posting_id: i64,
    pub before: Amount,
    pub after: Amount,
    pub source: Seq<char>,
}

#[verifier::ext_equal]
pub struct ShownChange {
    pub entry_id: i64,
    pub date: Date,
    pub postings: Seq<ShownPosting>,
    pub fx_adjustment: Amount,
    pub reverses_entry: Option<i64>,
}

impl View for PostingChange {
    type V = ShownPosting;

    open spec fn view(&self) -> ShownPosting {
        ShownPosting { posting_id: self.posting_id, before: self.before@, after: self.after@, source: self.source@ }
    }
}

pub open spec fn shown_postings(v: Seq<PostingChange>) -> Seq<ShownPosting> {
    Seq::new(v.len(), |i: int| v[i]@)
}

impl View for EntryChange {
    type V = ShownChange;

    open spec fn view(&self) -> ShownChange {
        ShownChange {
            entry_id: self.entry_id,
            date: self.date,
            postings: shown_postings(self.postings@),
            fx_adjustment: self.fx_adjustment@,
            reverses_entry: self.reverses_entry,
        }
    }
}

pub open spec fn shown_changes(v: Seq<EntryChange>) -> Seq<ShownChange> {
    Seq::new(v.len(), |i: int| v[i]@)
}

/// What the first `n` postings say of their own value.
pub open spec fn directs_of(ps: Seq<Posting>, target: Seq<char>, precision: int, n: nat) -> std::result::Result<Seq<Option<Evidence>>, Refusal>
    decreases n,
{
    if n == 0 {
        Ok(Seq::empty())
    } else {
        match directs_of(ps, target, precision, (n - 1) as nat) {
            Err(e) => Err(e),
            Ok(before) => match evidence_of(ps[n - 1], target, precision) {
                Err(e) => Err(e),
                Ok(v) => Ok(before.push(v)),
            },
        }
    }
}

proof fn lemma_directs(ps: Seq<Posting>, target: Seq<char>, precision: int, n: nat, m: nat)
    requires
        n <= m,
    ensures
        directs_of(ps, target, precision, n) is Err ==> directs_of(ps, target, precision, m) == directs_of(ps, target, precision, n),
        directs_of(ps, target, precision, m) matches Ok(v) ==> v.len() == m,
    decreases m,
{
    if m > 0 {
        if n < m {
            lemma_directs(ps, target, precision, n, (m - 1) as nat);
        } else {
            lemma_directs(ps, target, precision, (m - 1) as nat, (m - 1) as nat);
        }
    }
}

pub open spec fn shown_directs(v: Seq<Option<(Money, String)>>) -> Seq<Option<Evidence>> {
    Seq::new(v.len(), |i: int| shown_evidence(v[i]))
}

fn read_directs(ps: &Vec<Posting>, target: &str, precision: u32) -> (r: Result<Vec<Option<(Money, String)>>>)
    ensures
        match r {
            Ok(v) => directs_of(ps@, target@, precision as int, ps@.len()) == Ok::<Seq<Option<Evidence>>, Refusal>(shown_directs(v@)) && v@.len() == ps@.len(),
            Err(e) => directs_of(ps@, target@, precision as int, ps@.len()) == Err::<Seq<Option<Evidence>>, Refusal>(e@),
        },
{
    let mut v: Vec<Option<(Money, String)>> = Vec::new();
    let mut n: usize = 0;
    assert(shown_directs(v@) =~= Seq::<Option<Evidence>>::empty());
    while n < ps.len()
        invariant
            n <= ps@.len(),
            v@.len() == n,
            directs_of(ps@, target@, precision as int, n as nat) == Ok::<Seq<Option<Evidence>>, Refusal>(shown_directs(v@)),
        decreases ps@.len() - n,
    {
        let ghost before = shown_directs(v@);
        match evidence(&ps[n], target, precision) {
            Ok(x) => {
                v.push(x);
                assert(shown_directs(v@) =~= before.push(shown_evidence(x)));
            },
            Err(e) => {
                proof {
                    lemma_directs(ps@, target@, precision as int, (n + 1) as nat, ps@.len());
                }
                return Err(e);
            },
        }
        n = n + 1;
    }
    Ok(v)
}

/// How many of the first `n` are known.
pub open spec fn known(directs: Seq<Option<Evidence>>, n: nat) -> nat
    decreases n,
{
    if n == 0 {
        0
    } else {
        known(directs, (n - 1) as nat) + (if directs[n - 1] is Some {
            1nat
        } else {
            0
        })
    }
}

fn count_known(v: &Vec<Option<(Money, String)>>) -> (r: usize)
    ensures
        r == known(shown_directs(v@), v@.len()),
{
    let ghost all = shown_directs(v@);
    let mut count: usize = 0;
    let mut n: usize = 0;
    while n < v.len()
        invariant
            n <= v@.len(),
            count <= n,
            all == shown_directs(v@),
            count == known(all, n as nat),
        decreases v@.len() - n,
    {
        assert(all[n as int] == shown_evidence(v@[n as int]));
        if v[n].is_some() {
            count = count + 1;
        }
        n = n + 1;
    }
    count
}

pub open spec fn unrated(p: Posting) -> bool {
    p.rate_source@ == "missing"@
}

/// Whether some posting was booked without a rate.
pub open spec fn any_unrated(ps: Seq<Posting>) -> bool {
    exists|i: int| 0 <= i < ps.len() && unrated(#[trigger] ps[i])
}

fn find_unrated(ps: &Vec<Posting>) -> (r: bool)
    ensures
        r == any_unrated(ps@),
{
    let mut n: usize = 0;
    while n < ps.len()
        invariant
            n <= ps@.len(),
            forall|i: int| 0 <= i < n ==> !unrated(#[trigger] ps@[i]),
        decreases ps@.len() - n,
    {
        if same(ps[n].rate_source.as_str(), "missing") {
            assert(unrated(ps@[n as int]));
            return true;
        }
        n = n + 1;
    }
    false
}

pub open spec fn major_of(a: Amount) -> Num {
    crate::decimal::normal((a.minor, a.precision))
}

/// The conversions that the first `n` postings establish, each with the posting, unless one is out of
/// range.
pub open spec fn anchors_of(ps: Seq<Posting>, directs: Seq<Option<Evidence>>, n: nat) -> Option<Seq<(Num, i64)>>
    decreases n,
{
    if n == 0 {
        Some(Seq::empty())
    } else {
        match anchors_of(ps, directs, (n - 1) as nat) {
            None => None,
            Some(before) => {
                let p = ps[n - 1];
                if directs[n - 1] is Some && p.amount@.minor != 0 && !unrated(p) {
                    match divided(major_of((directs[n - 1]->0).0), major_of(p.amount@)) {
                        None => None,
                        Some(r) => Some(before.push((r, p.id))),
                    }
                } else {
                    Some(before)
                }
            },
        }
    }
}

proof fn lemma_anchors_stopped(ps: Seq<Posting>, directs: Seq<Option<Evidence>>, n: nat, m: nat)
    requires
        n <= m,
        anchors_of(ps, directs, n) is None,
    ensures
        anchors_of(ps, directs, m) is None,
    decreases m,
{
    if n < m {
        lemma_anchors_stopped(ps, directs, n, (m - 1) as nat);
    }
}

pub open spec fn shown_anchors(v: Seq<(Decimal, i64)>) -> Seq<(Num, i64)> {
    Seq::new(v.len(), |i: int| (v[i].0@, v[i].1))
}

fn find_anchors(ps: &Vec<Posting>, directs: &Vec<Option<(Money, String)>>) -> (r: Option<Vec<(Decimal, i64)>>)
    requires
        ps@.len() == directs@.len(),
    ensures
        match r {
            Some(v) => anchors_of(ps@, shown_directs(directs@), ps@.len()) == Some(shown_anchors(v@)),
            None => anchors_of(ps@, shown_directs(directs@), ps@.len()) is None,
        },
{
    let ghost all = shown_directs(directs@);
    let mut v: Vec<(Decimal, i64)> = Vec::new();
    let mut n: usize = 0;
    assert(shown_anchors(v@) =~= Seq::<(Num, i64)>::empty());
    while n < ps.len()
        invariant
            n <= ps@.len() == directs@.len(),
            all == shown_directs(directs@),
            anchors_of(ps@, all, n as nat) == Some(shown_anchors(v@)),
        decreases ps@.len() - n,
    {
        let ghost before = shown_anchors(v@);
        assert(all[n as int] == shown_evidence(directs@[n as int]));
        if let Some((m, _)) = &directs[n] {
            if !ps[n].amount.is_zero() && !same(ps[n].rate_source.as_str(), "missing") {
                match m.major().checked_div(ps[n].amount.major()) {
                    Some(r) => {
                        v.push((r, ps[n].id));
                        assert(shown_anchors(v@) =~= before.push((r@, ps@[n as int].id)));
                    },
                    None => {
                        proof {
                            lemma_anchors_stopped(ps@, all, (n + 1) as nat, ps@.len());
                        }
                        return None;
                    },
                }
            }
        }
        n = n + 1;
    }
    Some(v)
}

/// The one conversion that an entry's own postings establish.
pub open spec fn anchor_of(e: JournalEntry, anchors: Seq<(Num, i64)>) -> Option<(Num, i64)> {
    if anchors.len() > 0 && e.reverses_id is None && e.refund_of_id is None && anchors[0].0.0 > 0 && (forall|i: int|
        0 <= i < anchors.len() ==> same_value((#[trigger] anchors[i]).0, anchors[0].0)) {
        Some(anchors[0])
    } else {
        None
    }
}

fn pick_anchor(e: &JournalEntry, v: &Vec<(Decimal, i64)>) -> (r: Option<(Decimal, i64)>)
    ensures
        match r {
            Some((d, id)) => anchor_of(*e, shown_anchors(v@)) == Some((d@, id)),
            None => anchor_of(*e, shown_anchors(v@)) is None,
        },
{
    let ghost all = shown_anchors(v@);
    if v.len() == 0 || e.reverses_id.is_some() || e.refund_of_id.is_some() {
        return None;
    }
    assert(all[0] == (v@[0].0@, v@[0].1));
    let first = v[0];
    if first.0.is_zero() || first.0.is_negative() {
        return None;
    }
    let mut i: usize = 0;
    while i < v.len()
        invariant
            i <= v@.len(),
            v@.len() > 0,
            all == shown_anchors(v@),
            all[0] == (first.0@, first.1),
            forall|j: int| 0 <= j < i ==> same_value((#[trigger] all[j]).0, all[0].0),
        decreases v@.len() - i,
    {
        assert(all[i as int] == (v@[i as int].0@, v@[i as int].1));
        if !v[i].0.same(first.0) {
            assert(!same_value(all[i as int].0, all[0].0));
            return None;
        }
        i = i + 1;
    }
    Some(first)
}

pub open spec fn meta_int(m: Seq<MetaEntry>, key: Seq<char>) -> Option<i64> {
    match meta_at(m, key) {
        Some(MetaValue::Number(n)) => Some(n),
        _ => None,
    }
}

fn find_int(m: &Vec<MetaEntry>, key: &str) -> (r: Option<i64>)
    ensures
        r == meta_int(m@, key@),
{
    match meta_get(m, key) {
        Some(MetaValue::Number(n)) => Some(*n),
        _ => None,
    }
}

/// The entry to which a posting is linked, and the key under which its posting is named.
pub open spec fn link_of(e: JournalEntry, p: Posting) -> Option<(i64, Seq<char>)> {
    match e.reverses_id {
        Some(id) => Some((id, "reverses_posting"@)),
        None => match e.refund_of_id {
            Some(id) if meta_at(p.metadata@, "refund_of_posting"@) is Some => Some((id, "refund_of_posting"@)),
            _ => None,
        },
    }
}

/// The place, from `k` on, at which an entry was converted.
pub open spec fn done_at(entries: Seq<JournalEntry>, order: Seq<usize>, id: i64, k: int) -> Option<int>
    decreases order.len() - k,
{
    if k < 0 || k >= order.len() {
        None
    } else if entries[order[k] as int].id == id {
        Some(k)
    } else {
        done_at(entries, order, id, k + 1)
    }
}

fn find_done(entries: &[JournalEntry], order: &Vec<usize>, id: i64) -> (r: Option<usize>)
    requires
        forall|k: int| 0 <= k < order@.len() ==> #[trigger] order@[k] < entries@.len(),
    ensures
        match r {
            Some(k) => done_at(entries@, order@, id, 0) == Some(k as int) && k < order@.len(),
            None => done_at(entries@, order@, id, 0) is None,
        },
{
    let mut k: usize = 0;
    while k < order.len()
        invariant
            k <= order@.len(),
            forall|k: int| 0 <= k < order@.len() ==> #[trigger] order@[k] < entries@.len(),
            done_at(entries@, order@, id, 0) == done_at(entries@, order@, id, k as int),
        decreases order@.len() - k,
    {
        assert(order@[k as int] < entries@.len());
        if entries[order[k]].id == id {
            return Some(k);
        }
        k = k + 1;
    }
    None
}

/// The first posting, from `i` on, with an id.
pub open spec fn posting_at(ps: Seq<Posting>, id: i64, i: int) -> Option<int>
    decreases ps.len() - i,
{
    if i < 0 || i >= ps.len() {
        None
    } else if ps[i].id == id {
        Some(i)
    } else {
        posting_at(ps, id, i + 1)
    }
}

fn find_posting<'a>(ps: &'a Vec<Posting>, id: i64) -> (r: Option<&'a Posting>)
    ensures
        match r {
            Some(p) => posting_at(ps@, id, 0) is Some && *p == ps@[posting_at(ps@, id, 0)->0],
            None => posting_at(ps@, id, 0) is None,
        },
{
    let mut i: usize = 0;
    while i < ps.len()
        invariant
            i <= ps@.len(),
            posting_at(ps@, id, 0) == posting_at(ps@, id, i as int),
        decreases ps@.len() - i,
    {
        if ps[i].id == id {
            return Some(&ps[i]);
        }
        i = i + 1;
    }
    None
}

/// The first converted posting, from `i` on, with an id.
pub open spec fn change_at(ps: Seq<ShownPosting>, id: i64, i: int) -> Option<int>
    decreases ps.len() - i,
{
    if i < 0 || i >= ps.len() {
        None
    } else if ps[i].posting_id == id {
        Some(i)
    } else {
        change_at(ps, id, i + 1)
    }
}

fn find_change(ps: &Vec<PostingChange>, id: i64) -> (r: Option<Money>)
    ensures
        match r {
            Some(m) => change_at(shown_postings(ps@), id, 0) is Some && m@ == shown_postings(ps@)[change_at(shown_postings(ps@), id, 0)->0].after,
            None => change_at(shown_postings(ps@), id, 0) is None,
        },
{
    let ghost all = shown_postings(ps@);
    let mut i: usize = 0;
    while i < ps.len()
        invariant
            i <= ps@.len(),
            all == shown_postings(ps@),
            change_at(all, id, 0) == change_at(all, id, i as int),
        decreases ps@.len() - i,
    {
        assert(all[i as int] == ps@[i as int]@);
        if ps[i].posting_id == id {
            return Some(ps[i].after);
        }
        i = i + 1;
    }
    None
}

pub open spec fn references_text() -> Seq<char> {
    "refund/reversal references are missing, outside this vault, or cyclic"@
}

pub open spec fn negative_of(a: Amount) -> std::result::Result<Amount, Refusal> {
    if a.minor == i64::MIN {
        Err(Refusal::Invalid("money negation overflow"@))
    } else {
        Ok(with_minor(a, -a.minor))
    }
}

/// The value of a posting that takes another back: the negative of what that one became.
pub open spec fn linked_value(
    entries: Seq<JournalEntry>,
    order: Seq<usize>,
    changes: Seq<ShownChange>,
    e: JournalEntry,
    p: Posting,
    id: i64,
    key: Seq<char>,
) -> std::result::Result<Evidence, Refusal> {
    match meta_int(p.metadata@, key) {
        None => Err(Refusal::Invalid("entry "@ + int_text(e.id as int) + " lacks "@ + key + (" on posting "@ + int_text(p.id as int)))),
        Some(post_id) => match done_at(entries, order, id, 0) {
            None => Err(Refusal::Invalid(references_text())),
            Some(k) => {
                let old = entries[order[k] as int].postings@;
                match posting_at(old, post_id, 0) {
                    None => Err(Refusal::Invalid("entry "@ + int_text(e.id as int) + " has an invalid "@ + key)),
                    Some(i) => {
                        let changed = Refusal::Invalid("entry "@ + int_text(e.id as int) + " changes a linked refund/reversal quantity"@);
                        if p.account_id != old[i].account_id {
                            Err(changed)
                        } else {
                            match negative_of(old[i].quantity@) {
                                Err(r) => Err(r),
                                Ok(back) => if p.quantity@ != back {
                                    Err(changed)
                                } else {
                                    match change_at(changes[k].postings, post_id, 0) {
                                        None => Err(Refusal::Invalid("missing migrated posting"@)),
                                        Some(c) => match negative_of(changes[k].postings[c].after) {
                                            Err(r) => Err(r),
                                            Ok(v) => Ok((v, "preserved book value of posting "@ + int_text(post_id as int))),
                                        },
                                    }
                                },
                            }
                        }
                    },
                }
            },
        },
    }
}

fn convert_linked(
    entries: &[JournalEntry],
    order: &Vec<usize>,
    changes: &Vec<EntryChange>,
    e: &JournalEntry,
    p: &Posting,
    id: i64,
    key: &str,
) -> (r: Result<(Money, String)>)
    requires
        order@.len() == changes@.len(),
        forall|k: int| 0 <= k < order@.len() ==> #[trigger] order@[k] < entries@.len(),
    ensures
        match r {
            Ok(v) => linked_value(entries@, order@, shown_changes(changes@), *e, *p, id, key@) == Ok::<Evidence, Refusal>((v.0@, v.1@)),
            Err(x) => linked_value(entries@, order@, shown_changes(changes@), *e, *p, id, key@) == Err::<Evidence, Refusal>(x@),
        },
{
    let eid = int_string(e.id);
    let post_id = match find_int(&p.metadata, key) {
        Some(n) => n,
        None => {
            let tail = cat(" on posting ", int_string(p.id).as_str());
            return Err(invalid(cat5("entry ", eid.as_str(), " lacks ", key, tail.as_str()).as_str()));
        },
    };
    let k = match find_done(entries, order, id) {
        Some(k) => k,
        None => {
            return Err(invalid("refund/reversal references are missing, outside this vault, or cyclic"));
        },
    };
    assert(order@[k as int] < entries@.len());
    let original = match find_posting(&entries[order[k]].postings, post_id) {
        Some(o) => o,
        None => {
            return Err(invalid(cat4("entry ", eid.as_str(), " has an invalid ", key).as_str()));
        },
    };
    if p.account_id != original.account_id {
        return Err(invalid(cat3("entry ", eid.as_str(), " changes a linked refund/reversal quantity").as_str()));
    }
    let back = match original.quantity.checked_neg() {
        Ok(m) => m,
        Err(x) => {
            return Err(x);
        },
    };
    if !crate::refunds::same_money(p.quantity, back) {
        return Err(invalid(cat3("entry ", eid.as_str(), " changes a linked refund/reversal quantity").as_str()));
    }
    assert(shown_changes(changes@)[k as int] == changes@[k as int]@);
    let after = match find_change(&changes[k].postings, post_id) {
        Some(m) => m,
        None => {
            return Err(invalid("missing migrated posting"));
        },
    };
    match after.checked_neg() {
        Ok(m) => Ok((m, cat("preserved book value of posting ", int_string(post_id).as_str()))),
        Err(x) => Err(x),
    }
}

/// The rate at which a posting without evidence of its own is converted.
pub open spec fn rate_of(
    prices: Seq<Price>,
    currencies: Seq<Seq<char>>,
    from: Seq<char>,
    to: Seq<char>,
    date: Date,
    anchor: Option<(Num, i64)>,
) -> std::result::Result<Sourced, Refusal> {
    match anchor {
        Some((rate, id)) => Ok((rate, "transaction conversion "@ + decimal_text(rate) + " from posting "@ + int_text(id as int))),
        None => historical_of(prices, currencies, from, to, date),
    }
}

/// What a posting of an entry becomes, before it is held against its quantity.
pub open spec fn value_of(
    m: Rates,
    entries: Seq<JournalEntry>,
    order: Seq<usize>,
    changes: Seq<ShownChange>,
    e: JournalEntry,
    direct: Option<Evidence>,
    anchor: Option<(Num, i64)>,
    p: Posting,
) -> std::result::Result<Evidence, Refusal> {
    match link_of(e, p) {
        Some((id, key)) => linked_value(entries, order, changes, e, p, id, key),
        None => if e.refund_of_id is Some && p.account_type == AccountType::Expense && meta_at(p.metadata@, "fx_auto"@) is None {
            Err(Refusal::Invalid("refund entry "@ + int_text(e.id as int) + " has an expense without its original posting link"@))
        } else {
            match direct {
                Some(v) => Ok(v),
                None => if unrated(p) && anchor is None {
                    Err(
                        Refusal::Invalid(
                            "entry "@ + int_text(e.id as int) + " posting "@ + int_text(p.id as int)
                                + " has a missing original book rate and no target-currency evidence"@,
                        ),
                    )
                } else {
                    match rate_of(m.prices, m.currencies, m.from, m.to, e.date, anchor) {
                        Err(x) => Err(x),
                        Ok((rate, source)) => match multiplied(major_of(p.amount@), rate) {
                            None => Err(overflow()),
                            Some(n) => match amount_of_major(n, m.to, m.precision) {
                                Err(x) => Err(x),
                                Ok(a) => Ok((a, source)),
                            },
                        },
                    }
                },
            }
        },
    }
}

/// What a posting of an entry becomes, or why its evidence does not hold together.
pub open spec fn converted_posting(
    m: Rates,
    entries: Seq<JournalEntry>,
    order: Seq<usize>,
    changes: Seq<ShownChange>,
    e: JournalEntry,
    direct: Option<Evidence>,
    anchor: Option<(Num, i64)>,
    p: Posting,
) -> std::result::Result<ShownPosting, Refusal> {
    match value_of(m, entries, order, changes, e, direct, anchor, p) {
        Err(x) => Err(x),
        Ok((after, source)) => if p.quantity@.commodity == m.to && after != p.quantity@ {
            Err(
                Refusal::Invalid(
                    "entry "@ + int_text(e.id as int) + " cannot preserve both the linked book value and native "@ + m.to + (
                    " quantity on posting "@ + int_text(p.id as int)),
                ),
            )
        } else if after.minor != 0 && p.quantity@.minor != 0 && (after.minor < 0) != (p.quantity@.minor < 0) {
            Err(
                Refusal::Invalid(
                    "entry "@ + int_text(e.id as int) + " has conflicting amount evidence on posting "@ + int_text(p.id as int),
                ),
            )
        } else {
            Ok(ShownPosting { posting_id: p.id, before: p.amount@, after, source })
        },
    }
}

fn convert_posting(
    m: &Migration<'_>,
    entries: &[JournalEntry],
    order: &Vec<usize>,
    changes: &Vec<EntryChange>,
    e: &JournalEntry,
    direct: &Option<(Money, String)>,
    anchor: Option<(Decimal, i64)>,
    p: &Posting,
) -> (r: Result<PostingChange>)
    requires
        order@.len() == changes@.len(),
        forall|k: int| 0 <= k < order@.len() ==> #[trigger] order@[k] < entries@.len(),
    ensures
        ({
            let a = match anchor {
                Some((d, id)) => Some((d@, id)),
                None => None,
            };
            let spec_value = converted_posting(m@, entries@, order@, shown_changes(changes@), *e, shown_evidence(*direct), a, *p);
            match r {
                Ok(c) => spec_value == Ok::<ShownPosting, Refusal>(c@),
                Err(x) => spec_value == Err::<ShownPosting, Refusal>(x@),
            }
        }),
{
    let refund_link = meta_get(&p.metadata, "refund_of_posting").is_some();
    let value = if let Some(id) = e.reverses_id {
        convert_linked(entries, order, changes, e, p, id, "reverses_posting")
    } else if e.refund_of_id.is_some() && refund_link {
        let id = match e.refund_of_id {
            Some(id) => id,
            None => 0,
        };
        convert_linked(entries, order, changes, e, p, id, "refund_of_posting")
    } else if e.refund_of_id.is_some() && matches!(p.account_type, AccountType::Expense) && meta_get(&p.metadata, "fx_auto").is_none() {
        Err(invalid(cat3("refund entry ", int_string(e.id).as_str(), " has an expense without its original posting link").as_str()))
    } else {
        match direct {
            Some((x, s)) => Ok((*x, own(s.as_str()))),
            None => convert_by_rate(m, e, anchor, p),
        }
    };
    let (after, source) = match value {
        Ok(v) => v,
        Err(x) => {
            return Err(x);
        },
    };
    if same(p.quantity.commodity().as_str(), m.to) && !crate::refunds::same_money(after, p.quantity) {
        let tail = cat(" quantity on posting ", int_string(p.id).as_str());
        return Err(
            invalid(
                cat5("entry ", int_string(e.id).as_str(), " cannot preserve both the linked book value and native ", m.to, tail.as_str()).as_str(),
            ),
        );
    }
    if !after.is_zero() && !p.quantity.is_zero() && after.is_negative() != p.quantity.is_negative() {
        return Err(
            invalid(cat4("entry ", int_string(e.id).as_str(), " has conflicting amount evidence on posting ", int_string(p.id).as_str()).as_str()),
        );
    }
    Ok(PostingChange { posting_id: p.id, before: p.amount, after, source })
}

fn convert_by_rate(m: &Migration<'_>, e: &JournalEntry, anchor: Option<(Decimal, i64)>, p: &Posting) -> (r: Result<(Money, String)>)
    ensures
        ({
            let a = match anchor {
                Some((d, id)) => Some((d@, id)),
                None => None,
            };
            if unrated(*p) && a is None {
                r matches Err(x) && x@ == Refusal::Invalid(
                    "entry "@ + int_text(e.id as int) + " posting "@ + int_text(p.id as int)
                        + " has a missing original book rate and no target-currency evidence"@,
                )
            } else {
                match rate_of(m@.prices, m@.currencies, m@.from, m@.to, e.date, a) {
                    Err(f) => r matches Err(x) && x@ == f,
                    Ok((rate, source)) => match multiplied(major_of(p.amount@), rate) {
                        None => r matches Err(x) && x@ == overflow(),
                        Some(n) => match amount_of_major(n, m.to@, m.precision as int) {
                            Err(f) => r matches Err(x) && x@ == f,
                            Ok(b) => r matches Ok(v) && v.0@ == b && v.1@ == source,
                        },
                    },
                }
            }
        }),
{
    if same(p.rate_source.as_str(), "missing") && anchor.is_none() {
        return Err(
            invalid(
                cat5(
                    "entry ",
                    int_string(e.id).as_str(),
                    " posting ",
                    int_string(p.id).as_str(),
                    " has a missing original book rate and no target-currency evidence",
                ).as_str(),
            ),
        );
    }
    let (rate, source) = match anchor {
        Some((rate, id)) => (rate, cat4("transaction conversion ", rate.text().as_str(), " from posting ", int_string(id).as_str())),
        None => match historical(m.prices, m.currencies, m.from, m.to, e.date) {
            Ok(q) => q,
            Err(x) => {
                return Err(x);
            },
        },
    };
    let n = match multiply(p.amount.major(), rate) {
        Ok(n) => n,
        Err(x) => {
            return Err(x);
        },
    };
    match Money::from_major(n, m.to, m.precision) {
        Ok(a) => Ok((a, source)),
        Err(x) => Err(x),
    }
}

/// What the first `n` postings of an entry become.
pub open spec fn converted_postings(
    m: Rates,
    entries: Seq<JournalEntry>,
    order: Seq<usize>,
    changes: Seq<ShownChange>,
    e: JournalEntry,
    directs: Seq<Option<Evidence>>,
    anchor: Option<(Num, i64)>,
    n: nat,
) -> std::result::Result<Seq<ShownPosting>, Refusal>
    decreases n,
{
    if n == 0 {
        Ok(Seq::empty())
    } else {
        match converted_postings(m, entries, order, changes, e, directs, anchor, (n - 1) as nat) {
            Err(x) => Err(x),
            Ok(before) => match converted_posting(m, entries, order, changes, e, directs[n - 1], anchor, e.postings@[n - 1]) {
                Err(x) => Err(x),
                Ok(c) => Ok(before.push(c)),
            },
        }
    }
}

proof fn lemma_converted_refused(
    m: Rates,
    entries: Seq<JournalEntry>,
    order: Seq<usize>,
    changes: Seq<ShownChange>,
    e: JournalEntry,
    directs: Seq<Option<Evidence>>,
    anchor: Option<(Num, i64)>,
    n: nat,
    k: nat,
)
    requires
        n <= k,
        converted_postings(m, entries, order, changes, e, directs, anchor, n) is Err,
    ensures
        converted_postings(m, entries, order, changes, e, directs, anchor, k) == converted_postings(
            m,
            entries,
            order,
            changes,
            e,
            directs,
            anchor,
            n,
        ),
    decreases k,
{
    if n < k {
        lemma_converted_refused(m, entries, order, changes, e, directs, anchor, n, (k - 1) as nat);
    }
}

fn convert_postings(
    m: &Migration<'_>,
    entries: &[JournalEntry],
    order: &Vec<usize>,
    changes: &Vec<EntryChange>,
    e: &JournalEntry,
    directs: &Vec<Option<(Money, String)>>,
    anchor: Option<(Decimal, i64)>,
) -> (r: Result<Vec<PostingChange>>)
    requires
        order@.len() == changes@.len(),
        directs@.len() == e.postings@.len(),
        forall|k: int| 0 <= k < order@.len() ==> #[trigger] order@[k] < entries@.len(),
    ensures
        ({
            let a = match anchor {
                Some((d, id)) => Some((d@, id)),
                None => None,
            };
            let all = converted_postings(
                m@,
                entries@,
                order@,
                shown_changes(changes@),
                *e,
                shown_directs(directs@),
                a,
                e.postings@.len(),
            );
            match r {
                Ok(v) => all == Ok::<Seq<ShownPosting>, Refusal>(shown_postings(v@)) && v@.len() == e.postings@.len(),
                Err(x) => all == Err::<Seq<ShownPosting>, Refusal>(x@),
            }
        }),
{
    let ghost a = match anchor {
        Some((d, id)) => Some((d@, id)),
        None => None,
    };
    let ghost ds = shown_directs(directs@);
    let ghost cs = shown_changes(changes@);
    let mut v: Vec<PostingChange> = Vec::new();
    let mut n: usize = 0;
    assert(shown_postings(v@) =~= Seq::<ShownPosting>::empty());
    while n < e.postings.len()
        invariant
            n <= e.postings@.len() == directs@.len(),
            v@.len() == n,
            order@.len() == changes@.len(),
            forall|k: int| 0 <= k < order@.len() ==> #[trigger] order@[k] < entries@.len(),
            a == (match anchor {
                Some((d, id)) => Some((d@, id)),
                None => None,
            }),
            ds == shown_directs(directs@),
            cs == shown_changes(changes@),
            converted_postings(m@, entries@, order@, cs, *e, ds, a, n as nat) == Ok::<Seq<ShownPosting>, Refusal>(shown_postings(v@)),
        decreases e.postings@.len() - n,
    {
        let ghost before = shown_postings(v@);
        assert(ds[n as int] == shown_evidence(directs@[n as int]));
        match convert_posting(m, entries, order, changes, e, &directs[n], anchor, &e.postings[n]) {
            Ok(c) => {
                v.push(c);
                assert(shown_postings(v@) =~= before.push(c@));
            },
            Err(x) => {
                proof {
                    lemma_converted_refused(m@, entries@, order@, cs, *e, ds, a, (n + 1) as nat, e.postings@.len());
                }
                return Err(x);
            },
        }
        n = n + 1;
    }
    Ok(v)
}

/// The sum of what postings became.
pub open spec fn after_total(ps: Seq<ShownPosting>, n: nat) -> int
    decreases n,
{
    if n == 0 {
        0
    } else {
        after_total(ps, (n - 1) as nat) + ps[n - 1].after.minor
    }
}

/// The first of the first `n` postings that is in another unit than an amount.
pub open spec fn other_unit(ps: Seq<ShownPosting>, a: Amount, n: nat) -> Option<int>
    decreases n,
{
    if n == 0 {
        None
    } else {
        match other_unit(ps, a, (n - 1) as nat) {
            Some(i) => Some(i),
            None => if same_unit(a, ps[n - 1].after) {
                None
            } else {
                Some(n - 1)
            },
        }
    }
}

/// What postings sum up to, from zero in a unit.
pub open spec fn summed(zero: Amount, ps: Seq<ShownPosting>) -> std::result::Result<Amount, Refusal> {
    match other_unit(ps, zero, ps.len()) {
        Some(i) => Err(Refusal::Invalid(crate::money::unit_refusal(zero, ps[i].after))),
        None => if crate::money::in_range(zero.minor + after_total(ps, ps.len())) is None {
            Err(Refusal::Invalid("money sum overflow"@))
        } else {
            Ok(with_minor(zero, zero.minor + after_total(ps, ps.len())))
        },
    }
}

proof fn lemma_sums(v: Seq<Money>, ps: Seq<ShownPosting>, a: Amount, n: nat)
    requires
        n <= v.len() == ps.len(),
        forall|i: int| 0 <= i < v.len() ==> (#[trigger] v[i])@ == ps[i].after,
    ensures
        crate::money::first_other_unit(a, v.take(n as int)) == other_unit(ps, a, n),
        crate::money::minor_total(v.take(n as int)) == after_total(ps, n),
        other_unit(ps, a, n) matches Some(i) ==> 0 <= i < n,
    decreases n,
{
    if n > 0 {
        lemma_sums(v, ps, a, (n - 1) as nat);
        assert(v.take(n as int).drop_last() =~= v.take(n - 1));
        assert(v.take(n as int).last() == v[n - 1]);
    }
}

fn sum_up(zero: Money, ps: &Vec<PostingChange>) -> (r: Result<Money>)
    ensures
        match r {
            Ok(m) => summed(zero@, shown_postings(ps@)) == Ok::<Amount, Refusal>(m@),
            Err(x) => summed(zero@, shown_postings(ps@)) == Err::<Amount, Refusal>(x@),
        },
{
    let ghost all = shown_postings(ps@);
    let mut values: Vec<Money> = Vec::new();
    let mut i: usize = 0;
    while i < ps.len()
        invariant
            i <= ps@.len(),
            all == shown_postings(ps@),
            values@.len() == i,
            forall|j: int| 0 <= j < i ==> (#[trigger] values@[j])@ == all[j].after,
        decreases ps@.len() - i,
    {
        values.push(ps[i].after);
        i = i + 1;
    }
    proof {
        lemma_sums(values@, all, zero@, all.len());
        assert(values@.take(all.len() as int) =~= values@);
    }
    let r = zero.checked_sum(&values);
    proof {
        if r is Ok {
            if crate::money::first_other_unit(zero@, values@) is Some {
                let k = crate::money::first_other_unit(zero@, values@)->0;
                lemma_other_differs(all, zero@, all.len());
                assert(same_unit(zero@, values@[k]@));
            }
        }
    }
    r
}

proof fn lemma_other_differs(ps: Seq<ShownPosting>, a: Amount, n: nat)
    requires
        n <= ps.len(),
    ensures
        other_unit(ps, a, n) matches Some(i) ==> 0 <= i < n && !same_unit(a, ps[i].after),
    decreases n,
{
    if n > 0 {
        lemma_other_differs(ps, a, (n - 1) as nat);
    }
}

/// Whether a posting is a balancing split that may take a rounding difference: it balances, and its
/// value is not given in the new currency.
pub open spec fn absorbs(p: Posting, direct: Option<Evidence>, to: Seq<char>) -> bool {
    meta_flag(p.metadata@, "balance"@) && p.quantity@.commodity != to && direct is None
}

/// The last of the first `n` postings that may take a rounding difference.
pub open spec fn last_split(ps: Seq<Posting>, directs: Seq<Option<Evidence>>, to: Seq<char>, n: nat) -> Option<int>
    decreases n,
{
    if n == 0 {
        None
    } else if absorbs(ps[n - 1], directs[n - 1], to) {
        Some(n - 1)
    } else {
        last_split(ps, directs, to, (n - 1) as nat)
    }
}

fn find_split(ps: &Vec<Posting>, directs: &Vec<Option<(Money, String)>>, to: &str) -> (r: Option<usize>)
    requires
        ps@.len() == directs@.len(),
    ensures
        match r {
            Some(i) => last_split(ps@, shown_directs(directs@), to@, ps@.len()) == Some(i as int) && i < ps@.len(),
            None => last_split(ps@, shown_directs(directs@), to@, ps@.len()) is None,
        },
{
    let ghost all = shown_directs(directs@);
    let mut n: usize = ps.len();
    while n > 0
        invariant
            n <= ps@.len() == directs@.len(),
            all == shown_directs(directs@),
            last_split(ps@, all, to@, ps@.len()) == last_split(ps@, all, to@, n as nat),
        decreases n,
    {
        assert(all[n - 1] == shown_evidence(directs@[n - 1]));
        let p = &ps[n - 1];
        if has_flag(&p.metadata, "balance") && !same(p.quantity.commodity().as_str(), to) && directs[n - 1].is_none() {
            return Some(n - 1);
        }
        n = n - 1;
    }
    None
}

/// Whether the difference that is left is no more than rounding of an entry that is not linked and whose
/// parts were converted at one rate.
pub open spec fn is_rounding(e: JournalEntry, directs: Seq<Option<Evidence>>, anchor: Option<(Num, i64)>, residual: int) -> bool {
    e.reverses_id is None && e.refund_of_id is None && (known(directs, directs.len()) == 0 || anchor is Some) && -(e.postings@.len() as int)
        <= residual <= e.postings@.len()
}

/// A converted entry, once its postings are: the last balancing split absorbs rounding, and what is
/// left is an exchange difference of its own.
pub open spec fn settled(
    e: JournalEntry,
    to: Seq<char>,
    directs: Seq<Option<Evidence>>,
    anchor: Option<(Num, i64)>,
    ps: Seq<ShownPosting>,
    zero: Amount,
    residual: Amount,
) -> std::result::Result<ShownChange, Refusal> {
    let plain = ShownChange { entry_id: e.id, date: e.date, postings: ps, fx_adjustment: residual, reverses_entry: e.reverses_id };
    match last_split(e.postings@, directs, to, e.postings@.len()) {
        Some(i) if is_rounding(e, directs, anchor, residual.minor) => {
            let sum = ps[i].after.minor + residual.minor;
            let q = e.postings@[i].quantity@.minor;
            if !same_unit(ps[i].after, residual) {
                Err(Refusal::Invalid(crate::money::unit_refusal(ps[i].after, residual)))
            } else if crate::money::in_range(sum) is None {
                Err(Refusal::Invalid("money addition overflow"@))
            } else if sum == 0 || q == 0 || (sum < 0) == (q < 0) {
                Ok(
                    ShownChange {
                        postings: ps.update(
                            i,
                            ShownPosting {
                                after: with_minor(ps[i].after, sum),
                                source: ps[i].source + "; final split absorbs rounding"@,
                                ..ps[i]
                            },
                        ),
                        fx_adjustment: zero,
                        ..plain
                    },
                )
            } else {
                Ok(plain)
            }
        },
        _ => Ok(plain),
    }
}

/// What an entry becomes, or why it cannot be converted.
#[verifier::opaque]
pub open spec fn converted(m: Rates, entries: Seq<JournalEntry>, order: Seq<usize>, changes: Seq<ShownChange>, e: JournalEntry) -> std::result::Result<
    ShownChange,
    Refusal,
> {
    let n = e.postings@.len();
    match directs_of(e.postings@, m.to, m.precision, n) {
        Err(x) => Err(x),
        Ok(directs) => if any_unrated(e.postings@) && known(directs, n) != n && e.reverses_id is None {
            Err(
                Refusal::Invalid(
                    "entry "@ + int_text(e.id as int) + " has an unresolved original book rate; repair it on a copy before migration"@,
                ),
            )
        } else {
            match anchors_of(e.postings@, directs, n) {
                None => Err(overflow()),
                Some(anchors) => {
                    let anchor = anchor_of(e, anchors);
                    match converted_postings(m, entries, order, changes, e, directs, anchor, n) {
                        Err(x) => Err(x),
                        Ok(ps) => match amount_of(0, m.to, m.precision) {
                            Err(x) => Err(x),
                            Ok(zero) => match summed(zero, ps) {
                                Err(x) => Err(x),
                                Ok(sum) => match negative_of(sum) {
                                    Err(x) => Err(x),
                                    Ok(residual) => settled(e, m.to, directs, anchor, ps, zero, residual),
                                },
                            },
                        },
                    }
                },
            }
        },
    }
}

/// Converts an entry. `order` and `changes` are the entries that were converted before.
pub fn convert_entry(m: &Migration<'_>, entries: &[JournalEntry], order: &Vec<usize>, changes: &Vec<EntryChange>, e: &JournalEntry) -> (r: Result<
    EntryChange,
>)
    requires
        order@.len() == changes@.len(),
        forall|k: int| 0 <= k < order@.len() ==> #[trigger] order@[k] < entries@.len(),
    ensures
        match r {
            Ok(c) => converted(m@, entries@, order@, shown_changes(changes@), *e) == Ok::<ShownChange, Refusal>(c@),
            Err(x) => converted(m@, entries@, order@, shown_changes(changes@), *e) == Err::<ShownChange, Refusal>(x@),
        },
{
    proof {
        reveal(converted);
    }
    let directs = match read_directs(&e.postings, m.to, m.precision) {
        Ok(d) => d,
        Err(x) => {
            return Err(x);
        },
    };
    let ghost ds = shown_directs(directs@);
    let count = count_known(&directs);
    if find_unrated(&e.postings) && count != e.postings.len() && e.reverses_id.is_none() {
        return Err(
            invalid(
                cat3("entry ", int_string(e.id).as_str(), " has an unresolved original book rate; repair it on a copy before migration").as_str(),
            ),
        );
    }
    let anchors = match find_anchors(&e.postings, &directs) {
        Some(v) => v,
        None => {
            return Err(invalid("currency migration amount overflow"));
        },
    };
    let anchor = pick_anchor(e, &anchors);
    let mut postings = match convert_postings(m, entries, order, changes, e, &directs, anchor) {
        Ok(v) => v,
        Err(x) => {
            return Err(x);
        },
    };
    let ghost ps = shown_postings(postings@);
    let zero = match Money::from_minor(0, m.to, m.precision) {
        Ok(z) => z,
        Err(x) => {
            return Err(x);
        },
    };
    let sum = match sum_up(zero, &postings) {
        Ok(s) => s,
        Err(x) => {
            return Err(x);
        },
    };
    let mut residual = match sum.checked_neg() {
        Ok(r) => r,
        Err(x) => {
            return Err(x);
        },
    };
    let left = residual.minor();
    let size: u64 = if left < 0 {
        (-(left as i128)) as u64
    } else {
        left as u64
    };
    if e.reverses_id.is_none() && e.refund_of_id.is_none() && (count == 0 || anchor.is_some()) && size as u128 <= postings.len() as u128 {
        if let Some(i) = find_split(&e.postings, &directs, m.to) {
            assert(ps[i as int] == postings@[i as int]@);
            let adjusted = match postings[i].after.checked_add(residual) {
                Ok(a) => a,
                Err(x) => {
                    return Err(x);
                },
            };
            let q = &e.postings[i].quantity;
            if adjusted.is_zero() || q.is_zero() || adjusted.is_negative() == q.is_negative() {
                let c = PostingChange {
                    posting_id: postings[i].posting_id,
                    before: postings[i].before,
                    after: adjusted,
                    source: cat(postings[i].source.as_str(), "; final split absorbs rounding"),
                };
                postings.set(i, c);
                assert(shown_postings(postings@) =~= ps.update(i as int, c@));
                residual = zero;
            }
        }
    }
    Ok(EntryChange { entry_id: e.id, date: e.date, postings, fx_adjustment: residual, reverses_entry: e.reverses_id })
}

proof fn lemma_total_update(ps: Seq<ShownPosting>, i: int, c: ShownPosting, n: nat)
    requires
        0 <= i < ps.len(),
        n <= ps.len(),
    ensures
        after_total(ps.update(i, c), n) == after_total(ps, n) + (if i < n {
            c.after.minor - ps[i].after.minor
        } else {
            0
        }),
    decreases n,
{
    if n > 0 {
        lemma_total_update(ps, i, c, (n - 1) as nat);
    }
}

proof fn lemma_last_split(ps: Seq<Posting>, directs: Seq<Option<Evidence>>, to: Seq<char>, n: nat)
    ensures
        last_split(ps, directs, to, n) matches Some(i) ==> 0 <= i < n,
    decreases n,
{
    if n > 0 {
        lemma_last_split(ps, directs, to, (n - 1) as nat);
    }
}

proof fn lemma_converted_count(
    m: Rates,
    entries: Seq<JournalEntry>,
    order: Seq<usize>,
    changes: Seq<ShownChange>,
    e: JournalEntry,
    directs: Seq<Option<Evidence>>,
    anchor: Option<(Num, i64)>,
    n: nat,
)
    ensures
        converted_postings(m, entries, order, changes, e, directs, anchor, n) matches Ok(ps) ==> ps.len() == n && forall|i: int|
            0 <= i < n ==> (#[trigger] ps[i]).posting_id == e.postings@[i].id && ps[i].before == e.postings@[i].amount@,
    decreases n,
{
    if n > 0 {
        lemma_converted_count(m, entries, order, changes, e, directs, anchor, (n - 1) as nat);
    }
}

/// A converted entry balances: what its postings became and its exchange difference sum up to zero.
/// Its postings stay, each with what it was before.
pub proof fn law_converted_balances(m: Rates, entries: Seq<JournalEntry>, order: Seq<usize>, changes: Seq<ShownChange>, e: JournalEntry)
    ensures
        converted(m, entries, order, changes, e) matches Ok(c) ==> {
            &&& after_total(c.postings, c.postings.len()) + c.fx_adjustment.minor == 0
            &&& c.postings.len() == e.postings@.len()
            &&& forall|i: int|
                0 <= i < c.postings.len() ==> (#[trigger] c.postings[i]).posting_id == e.postings@[i].id && c.postings[i].before
                    == e.postings@[i].amount@
        },
{
    reveal(converted);
    if converted(m, entries, order, changes, e) is Ok {
        let n = e.postings@.len();
        let directs = directs_of(e.postings@, m.to, m.precision, n)->Ok_0;
        let anchor = anchor_of(e, anchors_of(e.postings@, directs, n)->0);
        let ps = converted_postings(m, entries, order, changes, e, directs, anchor, n)->Ok_0;
        lemma_converted_count(m, entries, order, changes, e, directs, anchor, n);
        lemma_last_split(e.postings@, directs, m.to, n);
        let zero = amount_of(0, m.to, m.precision)->Ok_0;
        let residual = negative_of(summed(zero, ps)->Ok_0)->Ok_0;
        assert(residual.minor == -after_total(ps, ps.len()));
        if let Some(i) = last_split(e.postings@, directs, m.to, n) {
            let sum = ps[i].after.minor + residual.minor;
            let c = ShownPosting { after: with_minor(ps[i].after, sum), source: ps[i].source + "; final split absorbs rounding"@, ..ps[i] };
            lemma_total_update(ps, i, c, ps.len());
        }
    }
}

/// Whether a posting has an amount that can establish a conversion: it is not zero, and its rate was known.
pub open spec fn rated(p: Posting) -> bool {
    p.amount@.minor != 0 && p.rate_source@ != "missing"@
}

proof fn lemma_directs_read(ps: Seq<Posting>, target: Seq<char>, precision: int, n: nat)
    ensures
        directs_of(ps, target, precision, n) matches Ok(v) ==> v.len() == n && forall|i: int|
            0 <= i < n ==> evidence_of(ps[i], target, precision) == Ok::<Option<Evidence>, Refusal>(#[trigger] v[i]),
    decreases n,
{
    if n > 0 {
        lemma_directs_read(ps, target, precision, (n - 1) as nat);
    }
}

proof fn lemma_one_anchor(ps: Seq<Posting>, directs: Seq<Option<Evidence>>, k: int, n: nat)
    requires
        n <= ps.len() == directs.len(),
        0 <= k < ps.len(),
        directs[k] is Some,
        rated(ps[k]),
        forall|j: int| 0 <= j < ps.len() && j != k ==> (#[trigger] directs[j]) is None,
    ensures
        anchors_of(ps, directs, n) matches Some(v) ==> v == (if n <= k {
            Seq::empty()
        } else {
            seq![(divided(major_of((directs[k]->0).0), major_of(ps[k].amount@))->0, ps[k].id)]
        }) && (n > k ==> divided(major_of((directs[k]->0).0), major_of(ps[k].amount@)) is Some),
    decreases n,
{
    if n > 0 {
        lemma_one_anchor(ps, directs, k, (n - 1) as nat);
        if n - 1 == k {
            if let Some(v) = anchors_of(ps, directs, n) {
                assert(v =~= seq![(divided(major_of((directs[k]->0).0), major_of(ps[k].amount@))->0, ps[k].id)]);
            }
        } else {
            assert(directs[n - 1] is None);
        }
    }
}

proof fn lemma_converted_each(
    m: Rates,
    entries: Seq<JournalEntry>,
    order: Seq<usize>,
    changes: Seq<ShownChange>,
    e: JournalEntry,
    directs: Seq<Option<Evidence>>,
    anchor: Option<(Num, i64)>,
    n: nat,
)
    ensures
        converted_postings(m, entries, order, changes, e, directs, anchor, n) matches Ok(ps) ==> ps.len() == n && forall|i: int|
            0 <= i < n ==> converted_posting(m, entries, order, changes, e, directs[i], anchor, e.postings@[i]) == Ok::<ShownPosting, Refusal>(
                #[trigger] ps[i],
            ),
    decreases n,
{
    if n > 0 {
        lemma_converted_each(m, entries, order, changes, e, directs, anchor, (n - 1) as nat);
    }
}

proof fn lemma_major(a: Amount)
    ensures
        value(major_of(a)) == in_major(a),
{
    lemma_normal((a.minor, a.precision));
    lemma_same_value(major_of(a), (a.minor, a.precision));
}

/// A quotient of two amounts of money with one sign is positive.
proof fn lemma_quotient_positive(t: Amount, a: Amount, r: Num)
    requires
        t.precision <= 8,
        a.precision <= 8,
        i64::MIN <= t.minor <= i64::MAX,
        i64::MIN <= a.minor <= i64::MAX,
        a.minor != 0,
        t.minor != 0,
        (t.minor < 0) == (a.minor < 0),
        near(in_major(t) / in_major(a), r),
    ensures
        r.0 > 0,
{
    lemma_money_size(t);
    lemma_money_size(a);
    let (x, y) = (in_major(t), in_major(a));
    let z = x / y;
    assert(z * y == x) by (nonlinear_arith)
        requires
            y != 0real,
            z == x / y,
    ;
    assert(z * 1000000000000000000000000000real >= 1real) by (nonlinear_arith)
        requires
            z * y == x,
            (x > 0real && y > 0real) || (x < 0real && y < 0real),
            distance(x, 0real) * 100000000real >= 1real,
            distance(y, 0real) <= 10000000000000000000real,
            x > 0real ==> distance(x, 0real) == x,
            x < 0real ==> distance(x, 0real) == -x,
            y > 0real ==> distance(y, 0real) == y,
            y < 0real ==> distance(y, 0real) == -y,
    ;
    assert(value(r) > 0real);
    lemma_pow10_positive(r.1);
    let (m, p) = (r.0 as real, pow10(r.1) as real);
    let v = m / p;
    assert(m > 0real) by (nonlinear_arith)
        requires
            p >= 1real,
            v == m / p,
            v > 0real,
    ;
}

/// A posting with direct evidence in the new currency becomes what the evidence says; one that is kept in
/// the new currency becomes its own quantity.
pub proof fn law_evidence_is_kept(m: Rates, entries: Seq<JournalEntry>, order: Seq<usize>, changes: Seq<ShownChange>, e: JournalEntry, k: int)
    requires
        0 <= k < e.postings@.len(),
    ensures
        converted(m, entries, order, changes, e) matches Ok(c) ==> {
            &&& e.postings@[k].quantity@.commodity == m.to ==> c.postings[k].after == e.postings@[k].quantity@
            &&& e.reverses_id is None && e.refund_of_id is None ==> (evidence_of(e.postings@[k], m.to, m.precision) matches Ok(Some((t, _)))
                ==> c.postings[k].after == t)
        },
{
    reveal(converted);
    if converted(m, entries, order, changes, e) is Ok {
        let n = e.postings@.len();
        let directs = directs_of(e.postings@, m.to, m.precision, n)->Ok_0;
        let anchor = anchor_of(e, anchors_of(e.postings@, directs, n)->0);
        let ps = converted_postings(m, entries, order, changes, e, directs, anchor, n)->Ok_0;
        lemma_directs_read(e.postings@, m.to, m.precision, n);
        lemma_converted_each(m, entries, order, changes, e, directs, anchor, n);
        lemma_split_absorbs(e.postings@, directs, m.to, n);
        assert(evidence_of(e.postings@[k], m.to, m.precision) == Ok::<Option<Evidence>, Refusal>(directs[k]));
        assert(converted_posting(m, entries, order, changes, e, directs[k], anchor, e.postings@[k]) == Ok::<ShownPosting, Refusal>(ps[k]));
    }
}

proof fn lemma_split_absorbs(ps: Seq<Posting>, directs: Seq<Option<Evidence>>, to: Seq<char>, n: nat)
    ensures
        last_split(ps, directs, to, n) matches Some(i) ==> 0 <= i < n && absorbs(ps[i], directs[i], to),
    decreases n,
{
    if n > 0 {
        lemma_split_absorbs(ps, directs, to, (n - 1) as nat);
    }
}

/// One posting with evidence in the new currency establishes the conversion of its transaction: what any
/// other posting becomes stands to its old amount as the evidence stands to the old amount of that posting,
/// up to a minor unit. Only a posting that balances the entry may differ by more, a minor unit for each
/// posting, as it takes what rounding leaves.
pub proof fn law_transaction_sets_rate(
    m: Rates,
    entries: Seq<JournalEntry>,
    order: Seq<usize>,
    changes: Seq<ShownChange>,
    e: JournalEntry,
    k: int,
    j: int,
)
    requires
        e.reverses_id is None,
        e.refund_of_id is None,
        0 <= k < e.postings@.len(),
        0 <= j < e.postings@.len(),
        j != k,
        m.precision >= 0,
        forall|i: int| 0 <= i < e.postings@.len() ==> (#[trigger] e.postings@[i]).amount.inv() && e.postings@[i].quantity.inv(),
        rated(e.postings@[k]),
        evidence_of(e.postings@[k], m.to, m.precision) matches Ok(Some((t, _))) && t.minor != 0 && (t.minor < 0) == (
        e.postings@[k].amount@.minor < 0),
        forall|i: int|
            0 <= i < e.postings@.len() && i != k ==> evidence_of(#[trigger] e.postings@[i], m.to, m.precision) == Ok::<Option<Evidence>, Refusal>(
                None,
            ),
    ensures
        converted(m, entries, order, changes, e) matches Ok(c) ==> {
            let t = (evidence_of(e.postings@[k], m.to, m.precision)->Ok_0->0).0;
            let exact = in_major(e.postings@[j].amount@) * (in_major(t) / in_major(e.postings@[k].amount@)) * (pow10(m.precision as nat) as real);
            &&& c.postings[j].after.precision == m.precision
            &&& distance(c.postings[j].after.minor as real, exact) < (if meta_flag(e.postings@[j].metadata@, "balance"@) {
                1real + e.postings@.len() as real
            } else {
                1real
            })
        },
{
    reveal(converted);
    if converted(m, entries, order, changes, e) is Ok {
        let n = e.postings@.len();
        let ps = e.postings@;
        let directs = directs_of(ps, m.to, m.precision, n)->Ok_0;
        lemma_directs_read(ps, m.to, m.precision, n);
        assert forall|i: int| 0 <= i < n && i != k implies (#[trigger] directs[i]) is None by {
            assert(evidence_of(ps[i], m.to, m.precision) == Ok::<Option<Evidence>, Refusal>(directs[i]));
        }
        assert(evidence_of(ps[k], m.to, m.precision) == Ok::<Option<Evidence>, Refusal>(directs[k]));
        lemma_one_anchor(ps, directs, k, n);
        let t = (directs[k]->0).0;
        let r = divided(major_of(t), major_of(ps[k].amount@))->0;
        law_arithmetic_near(major_of(t), major_of(ps[k].amount@));
        lemma_major(t);
        lemma_major(ps[k].amount@);
        lemma_major(ps[j].amount@);
        lemma_evidence_size(ps[k], m.to, m.precision);
        lemma_quotient_positive(t, ps[k].amount@, r);
        let anchors = anchors_of(ps, directs, n)->0;
        assert(anchors =~= seq![(r, ps[k].id)]);
        assert(forall|i: int| 0 <= i < anchors.len() ==> same_value((#[trigger] anchors[i]).0, anchors[0].0));
        let anchor = anchor_of(e, anchors);
        assert(anchor == Some((r, ps[k].id)));
        let out = converted_postings(m, entries, order, changes, e, directs, anchor, n)->Ok_0;
        lemma_converted_each(m, entries, order, changes, e, directs, anchor, n);
        lemma_split_absorbs(ps, directs, m.to, n);
        assert(converted_posting(m, entries, order, changes, e, directs[j], anchor, ps[j]) == Ok::<ShownPosting, Refusal>(out[j]));
        let product = multiplied(major_of(ps[j].amount@), r)->0;
        law_arithmetic_near(major_of(ps[j].amount@), r);
        law_minor_nearest(product, m.precision as nat);
        lemma_money_size(ps[j].amount@);
        lemma_money_size(out[j].after);
        lemma_converted_near(
            in_major(t) / in_major(ps[k].amount@),
            in_major(ps[j].amount@),
            pow10(m.precision as nat) as real,
            r,
            product,
            out[j].after.minor,
        );
    }
}

proof fn lemma_evidence_size(p: Posting, target: Seq<char>, precision: int)
    requires
        p.quantity.inv(),
        precision >= 0,
    ensures
        evidence_of(p, target, precision) matches Ok(Some((t, _))) ==> t.precision <= 8 && i64::MIN <= t.minor <= i64::MAX,
{
}

/// Whether the price `k` is the dated quote of a pair that holds on a day: it did not come with an export,
/// no such quote on or before the day is later, and none of the same day was stored before it.
pub open spec fn quoted_on(prices: Seq<Price>, from: Seq<char>, to: Seq<char>, date: Date, k: int) -> bool {
    &&& 0 <= k < prices.len()
    &&& prices[k].commodity@ == from && prices[k].currency@ == to && prices[k].source@ != "import"@
    &&& !date.before(prices[k].on)
    &&& forall|j: int|
        0 <= j < prices.len() && (#[trigger] prices[j]).commodity@ == from && prices[j].currency@ == to && prices[j].source@ != "import"@
            && !date.before(prices[j].on) ==> !prices[k].on.before(prices[j].on) && (j < k ==> prices[j].on.before(prices[k].on))
}

/// Whether a pair has no dated quote in the week before a day.
pub open spec fn unquoted(prices: Seq<Price>, from: Seq<char>, to: Seq<char>, date: Date) -> bool {
    forall|k: int| #[trigger] quoted_on(prices, from, to, date, k) ==> date.number() - prices[k].on.number() > 7
}

proof fn lemma_latest_quote(prices: Seq<Price>, from: Seq<char>, to: Seq<char>, date: Date, n: nat)
    requires
        n <= prices.len(),
    ensures
        match latest_quote(prices, from, to, date, n) {
            Some(i) => quoted_on(prices.take(n as int), from, to, date, i),
            None => forall|j: int|
                0 <= j < n && (#[trigger] prices[j]).commodity@ == from && prices[j].currency@ == to && prices[j].source@ != "import"@ ==> date.before(
                    prices[j].on,
                ),
        },
    decreases n,
{
    if n > 0 {
        lemma_latest_quote(prices, from, to, date, (n - 1) as nat);
        let (v, w) = (prices.take(n as int), prices.take(n - 1));
        assert forall|j: int| 0 <= j < n - 1 implies v[j] == #[trigger] w[j] by {}
        assert(v[n - 1] == prices[n - 1]);
        if let Some(i) = latest_quote(prices, from, to, date, (n - 1) as nat) {
            assert(w[i] == prices[i]);
            assert forall|j: int| 0 <= j < n - 1 implies w[j] == #[trigger] v[j] by {}
        } else {
            assert forall|j: int| 0 <= j < n - 1 implies prices[j] == #[trigger] v[j] by {}
        }
    }
}

/// A quote for a day is a positive price of the pair that was dated in the week before it, the latest one.
pub proof fn law_quote_is_latest(prices: Seq<Price>, from: Seq<char>, to: Seq<char>, date: Date)
    ensures
        quote_of(prices, from, to, date) matches Ok(Some((r, _))) ==> r.0 > 0 && exists|k: int| #[trigger]
            quoted_on(prices, from, to, date, k) && date.number() - prices[k].on.number() <= 7 && r == prices[k].price@,
        quote_of(prices, from, to, date) matches Ok(None) ==> unquoted(prices, from, to, date),
{
    lemma_latest_quote(prices, from, to, date, prices.len());
    assert(prices.take(prices.len() as int) =~= prices);
    if let Some(i) = latest_quote(prices, from, to, date, prices.len()) {
        assert(quoted_on(prices, from, to, date, i));
        assert forall|k: int| #[trigger] quoted_on(prices, from, to, date, k) implies k == i by {
            if i < k {
                assert(prices[i].on.before(prices[k].on));
            } else if k < i {
                assert(prices[k].on.before(prices[i].on));
            }
        }
    } else {
        assert forall|k: int| #[trigger] quoted_on(prices, from, to, date, k) implies false by {
            assert(date.before(prices[k].on));
        }
    }
}

/// The rate of a pair is its quote, or one over the quote of the pair turned round where there is none.
pub proof fn law_pair_either_way(prices: Seq<Price>, from: Seq<char>, to: Seq<char>, date: Date)
    requires
        from != to,
    ensures
        pair_of(prices, from, to, date) matches Ok(Some((r, _))) ==> {
            ||| exists|k: int| #[trigger]
                quoted_on(prices, from, to, date, k) && date.number() - prices[k].on.number() <= 7 && r == prices[k].price@
            ||| unquoted(prices, from, to, date) && exists|k: int| #[trigger]
                quoted_on(prices, to, from, date, k) && date.number() - prices[k].on.number() <= 7 && near(1real / value(prices[k].price@), r)
        },
        pair_of(prices, from, to, date) matches Ok(None) ==> unquoted(prices, from, to, date) && unquoted(prices, to, from, date),
{
    law_quote_is_latest(prices, from, to, date);
    law_quote_is_latest(prices, to, from, date);
    if quote_of(prices, from, to, date) matches Ok(None) {
        if let Ok(Some((r, _))) = quote_of(prices, to, from, date) {
            law_arithmetic_near((1, 0), r);
            lemma_value_whole(1);
        }
    }
}

/// The historical rate of a pair is that of the pair itself, or goes by way of one currency: then it is the
/// product of the rates to it and from it.
pub proof fn law_historical_crosses(prices: Seq<Price>, currencies: Seq<Seq<char>>, from: Seq<char>, to: Seq<char>, date: Date)
    ensures
        historical_of(prices, currencies, from, to, date) matches Ok((r, _)) ==> {
            ||| pair_of(prices, from, to, date) matches Ok(Some((q, _))) && q == r
            ||| exists|i: int|
                0 <= i < currencies.len() && currencies[i] != from && currencies[i] != to && goes_by(
                    prices,
                    from,
                    #[trigger] currencies[i],
                    to,
                    date,
                    r,
                )
        },
{
    lemma_crossed(prices, currencies, from, to, date, 0);
}

/// Whether a rate is near the product of the rates to a currency and from it.
pub open spec fn goes_by(prices: Seq<Price>, from: Seq<char>, via: Seq<char>, to: Seq<char>, date: Date, r: Num) -> bool {
    let (a, b) = (pair_of(prices, from, via, date), pair_of(prices, via, to, date));
    &&& a is Ok && a->Ok_0 is Some
    &&& b is Ok && b->Ok_0 is Some
    &&& near(value((a->Ok_0->0).0) * value((b->Ok_0->0).0), r)
}

proof fn lemma_crossed(prices: Seq<Price>, currencies: Seq<Seq<char>>, from: Seq<char>, to: Seq<char>, date: Date, i: int)
    requires
        0 <= i,
    ensures
        crossed(prices, currencies, from, to, date, i) matches Ok((r, _)) ==> exists|k: int|
            0 <= k < currencies.len() && currencies[k] != from && currencies[k] != to && goes_by(prices, from, #[trigger] currencies[k], to, date, r),
    decreases currencies.len() - i,
{
    if i < currencies.len() {
        lemma_crossed(prices, currencies, from, to, date, i + 1);
        let via = currencies[i];
        if let (Ok(Some(a)), Ok(Some(b))) = (pair_of(prices, from, via, date), pair_of(prices, via, to, date)) {
            law_arithmetic_near(a.0, b.0);
            if via != from && via != to {
                if let Ok((r, _)) = crossed(prices, currencies, from, to, date, i) {
                    assert(goes_by(prices, from, currencies[i], to, date, r));
                }
            }
        }
    }
}

/// An entry without evidence of its own is converted at the historical rate of its day, up to a minor unit;
/// a posting that balances it may differ by one more for each posting.
pub proof fn law_history_sets_rate(
    m: Rates,
    entries: Seq<JournalEntry>,
    order: Seq<usize>,
    changes: Seq<ShownChange>,
    e: JournalEntry,
    j: int,
)
    requires
        e.reverses_id is None,
        e.refund_of_id is None,
        0 <= j < e.postings@.len(),
        m.precision >= 0,
        e.postings@[j].amount.inv(),
        forall|i: int|
            0 <= i < e.postings@.len() ==> evidence_of(#[trigger] e.postings@[i], m.to, m.precision) == Ok::<Option<Evidence>, Refusal>(None),
    ensures
        converted(m, entries, order, changes, e) matches Ok(c) ==> (historical_of(m.prices, m.currencies, m.from, m.to, e.date) matches Ok((r, _))
            && distance(
            c.postings[j].after.minor as real,
            in_major(e.postings@[j].amount@) * value(r) * (pow10(m.precision as nat) as real),
        ) < (if meta_flag(e.postings@[j].metadata@, "balance"@) {
            1real + e.postings@.len() as real
        } else {
            1real
        })),
{
    reveal(converted);
    if converted(m, entries, order, changes, e) is Ok {
        let n = e.postings@.len();
        let ps = e.postings@;
        let directs = directs_of(ps, m.to, m.precision, n)->Ok_0;
        lemma_directs_read(ps, m.to, m.precision, n);
        assert forall|i: int| 0 <= i < n implies (#[trigger] directs[i]) is None by {
            assert(evidence_of(ps[i], m.to, m.precision) == Ok::<Option<Evidence>, Refusal>(directs[i]));
        }
        lemma_no_anchor(ps, directs, n);
        let anchor = anchor_of(e, anchors_of(ps, directs, n)->0);
        let out = converted_postings(m, entries, order, changes, e, directs, anchor, n)->Ok_0;
        lemma_converted_each(m, entries, order, changes, e, directs, anchor, n);
        lemma_split_absorbs(ps, directs, m.to, n);
        assert(converted_posting(m, entries, order, changes, e, directs[j], anchor, ps[j]) == Ok::<ShownPosting, Refusal>(out[j]));
        let r = (historical_of(m.prices, m.currencies, m.from, m.to, e.date)->Ok_0).0;
        let product = multiplied(major_of(ps[j].amount@), r)->0;
        law_arithmetic_near(major_of(ps[j].amount@), r);
        lemma_major(ps[j].amount@);
        law_minor_nearest(product, m.precision as nat);
        lemma_money_size(ps[j].amount@);
        lemma_money_size(out[j].after);
        assert(near(value(r), r));
        lemma_converted_near(value(r), in_major(ps[j].amount@), pow10(m.precision as nat) as real, r, product, out[j].after.minor);
    }
}

proof fn lemma_no_anchor(ps: Seq<Posting>, directs: Seq<Option<Evidence>>, n: nat)
    requires
        n <= ps.len() == directs.len(),
        forall|j: int| 0 <= j < ps.len() ==> (#[trigger] directs[j]) is None,
    ensures
        anchors_of(ps, directs, n) == Some(Seq::<(Num, i64)>::empty()),
    decreases n,
{
    if n > 0 {
        lemma_no_anchor(ps, directs, (n - 1) as nat);
        assert(directs[n - 1] is None);
    }
}

/// A reversal stays one: each of its postings becomes the negation of what the posting that it takes back
/// became.
pub proof fn law_reversal_follows(
    m: Rates,
    entries: Seq<JournalEntry>,
    order: Seq<usize>,
    changes: Seq<ShownChange>,
    e: JournalEntry,
    j: int,
)
    requires
        e.reverses_id is Some,
        0 <= j < e.postings@.len(),
    ensures
        converted(m, entries, order, changes, e) matches Ok(c) ==> exists|k: int, i: int|
            0 <= k < order.len() && 0 <= i < changes[k].postings.len() && (#[trigger] entries[order[k] as int]).id == e.reverses_id->0
                && meta_int(e.postings@[j].metadata@, "reverses_posting"@) == Some((#[trigger] changes[k].postings[i]).posting_id)
                && c.postings[j].after.minor == -changes[k].postings[i].after.minor,
{
    reveal(converted);
    if converted(m, entries, order, changes, e) is Ok {
        let n = e.postings@.len();
        let ps = e.postings@;
        let directs = directs_of(ps, m.to, m.precision, n)->Ok_0;
        let anchor = anchor_of(e, anchors_of(ps, directs, n)->0);
        let out = converted_postings(m, entries, order, changes, e, directs, anchor, n)->Ok_0;
        lemma_converted_each(m, entries, order, changes, e, directs, anchor, n);
        assert(converted_posting(m, entries, order, changes, e, directs[j], anchor, ps[j]) == Ok::<ShownPosting, Refusal>(out[j]));
        let post_id = meta_int(ps[j].metadata@, "reverses_posting"@)->0;
        lemma_done_at(entries, order, e.reverses_id->0, 0);
        let k = done_at(entries, order, e.reverses_id->0, 0)->0;
        lemma_change_at(changes[k].postings, post_id, 0);
        let i = change_at(changes[k].postings, post_id, 0)->0;
        assert(entries[order[k] as int].id == e.reverses_id->0);
        assert(changes[k].postings[i].posting_id == post_id);
    }
}

proof fn lemma_done_at(entries: Seq<JournalEntry>, order: Seq<usize>, id: i64, k: int)
    ensures
        done_at(entries, order, id, k) matches Some(i) ==> 0 <= i < order.len() && entries[order[i] as int].id == id,
    decreases order.len() - k,
{
    if 0 <= k < order.len() {
        lemma_done_at(entries, order, id, k + 1);
    }
}

proof fn lemma_change_at(ps: Seq<ShownPosting>, id: i64, k: int)
    ensures
        change_at(ps, id, k) matches Some(i) ==> 0 <= i < ps.len() && ps[i].posting_id == id,
    decreases ps.len() - k,
{
    if 0 <= k < ps.len() {
        lemma_change_at(ps, id, k + 1);
    }
}

/// The limit of a budget becomes its amount at the historical rate of the day on which it starts, up to a
/// minor unit.
pub proof fn law_budgets_follow_rate(m: Rates, budgets: Seq<Budget>, n: nat, j: int)
    requires
        0 <= j < n <= budgets.len(),
        m.precision >= 0,
        budgets[j].limit.inv(),
    ensures
        converted_budgets(m, budgets, n) matches Ok(v) ==> v.len() == n && v[j].budget_id == budgets[j].id && v[j].before == budgets[j].limit@ && (
        historical_of(m.prices, m.currencies, m.from, m.to, budgets[j].starts_on) matches Ok((r, _)) && distance(
            v[j].after.minor as real,
            in_major(budgets[j].limit@) * value(r) * (pow10(m.precision as nat) as real),
        ) < 1real),
    decreases n,
{
    if converted_budgets(m, budgets, n) is Ok {
        lemma_budget_count(m, budgets, n);
        if j < n - 1 {
            law_budgets_follow_rate(m, budgets, (n - 1) as nat, j);
        } else {
            let b = budgets[j];
            let v = converted_budgets(m, budgets, n)->Ok_0;
            lemma_budget_count(m, budgets, (n - 1) as nat);
            let r = (historical_of(m.prices, m.currencies, m.from, m.to, b.starts_on)->Ok_0).0;
            let product = multiplied(major_of(b.limit@), r)->0;
            law_arithmetic_near(major_of(b.limit@), r);
            lemma_major(b.limit@);
            law_minor_nearest(product, m.precision as nat);
            lemma_money_size(b.limit@);
            lemma_money_size(v[j].after);
            assert(near(value(r), r));
            lemma_converted_near(value(r), in_major(b.limit@), pow10(m.precision as nat) as real, r, product, v[j].after.minor);
        }
    }
}

proof fn lemma_budget_count(m: Rates, budgets: Seq<Budget>, n: nat)
    ensures
        converted_budgets(m, budgets, n) matches Ok(v) ==> v.len() == n,
    decreases n,
{
    if n > 0 {
        lemma_budget_count(m, budgets, (n - 1) as nat);
    }
}

/// Whether an entry can be converted: what it takes back was converted before.
pub open spec fn ready(entries: Seq<JournalEntry>, order: Seq<usize>, e: JournalEntry) -> bool {
    let needed = match e.reverses_id {
        Some(id) => Some(id),
        None => e.refund_of_id,
    };
    match needed {
        Some(id) => done_at(entries, order, id, 0) is Some,
        None => true,
    }
}

fn is_ready(entries: &[JournalEntry], order: &Vec<usize>, e: &JournalEntry) -> (r: bool)
    requires
        forall|k: int| 0 <= k < order@.len() ==> #[trigger] order@[k] < entries@.len(),
    ensures
        r == ready(entries@, order@, *e),
{
    let needed = match e.reverses_id {
        Some(id) => Some(id),
        None => e.refund_of_id,
    };
    match needed {
        Some(id) => find_done(entries, order, id).is_some(),
        None => true,
    }
}

/// The place of the first pending entry, from `k` on, that can be converted.
pub open spec fn first_ready(entries: Seq<JournalEntry>, order: Seq<usize>, pending: Seq<usize>, k: int) -> Option<int>
    decreases pending.len() - k,
{
    if k < 0 || k >= pending.len() {
        None
    } else if ready(entries, order, entries[pending[k] as int]) {
        Some(k)
    } else {
        first_ready(entries, order, pending, k + 1)
    }
}

fn find_ready(entries: &[JournalEntry], order: &Vec<usize>, pending: &Vec<usize>) -> (r: Option<usize>)
    requires
        forall|k: int| 0 <= k < order@.len() ==> #[trigger] order@[k] < entries@.len(),
        forall|k: int| 0 <= k < pending@.len() ==> #[trigger] pending@[k] < entries@.len(),
    ensures
        match r {
            Some(k) => first_ready(entries@, order@, pending@, 0) == Some(k as int) && k < pending@.len(),
            None => first_ready(entries@, order@, pending@, 0) is None,
        },
{
    let mut k: usize = 0;
    while k < pending.len()
        invariant
            k <= pending@.len(),
            forall|k: int| 0 <= k < order@.len() ==> #[trigger] order@[k] < entries@.len(),
            forall|k: int| 0 <= k < pending@.len() ==> #[trigger] pending@[k] < entries@.len(),
            first_ready(entries@, order@, pending@, 0) == first_ready(entries@, order@, pending@, k as int),
        decreases pending@.len() - k,
    {
        assert(pending@[k as int] < entries@.len());
        if is_ready(entries, order, &entries[pending[k]]) {
            return Some(k);
        }
        k = k + 1;
    }
    None
}

/// What the pending entries become, behind those that were converted: what an entry takes back is
/// converted before it.
pub open spec fn all_converted(m: Rates, entries: Seq<JournalEntry>, order: Seq<usize>, changes: Seq<ShownChange>, pending: Seq<usize>) -> std::result::Result<
    Seq<ShownChange>,
    Refusal,
>
    decreases pending.len(),
{
    if pending.len() == 0 {
        Ok(changes)
    } else {
        match first_ready(entries, order, pending, 0) {
            Some(k) if 0 <= k < pending.len() => match converted(m, entries, order, changes, entries[pending[k] as int]) {
                Err(x) => Err(x),
                Ok(c) => all_converted(m, entries, order.push(pending[k]), changes.push(c), pending.remove(k)),
            },
            _ => Err(Refusal::Invalid(references_text())),
        }
    }
}

pub open spec fn places(n: nat) -> Seq<usize> {
    Seq::new(n, |i: int| i as usize)
}

/// Converts the entries of a vault.
pub fn convert_entries(m: &Migration<'_>, entries: &[JournalEntry]) -> (r: Result<Vec<EntryChange>>)
    ensures
        match r {
            Ok(v) => all_converted(m@, entries@, Seq::empty(), Seq::empty(), places(entries@.len())) == Ok::<Seq<ShownChange>, Refusal>(
                shown_changes(v@),
            ),
            Err(x) => all_converted(m@, entries@, Seq::empty(), Seq::empty(), places(entries@.len())) == Err::<Seq<ShownChange>, Refusal>(x@),
        },
{
    let mut pending: Vec<usize> = Vec::new();
    let mut i: usize = 0;
    while i < entries.len()
        invariant
            i <= entries@.len(),
            pending@ == places(i as nat),
        decreases entries@.len() - i,
    {
        pending.push(i);
        i = i + 1;
        assert(pending@ =~= places(i as nat));
    }
    let mut order: Vec<usize> = Vec::new();
    let mut changes: Vec<EntryChange> = Vec::new();
    assert(order@ =~= Seq::<usize>::empty());
    assert(shown_changes(changes@) =~= Seq::<ShownChange>::empty());
    while pending.len() > 0
        invariant
            order@.len() == changes@.len(),
            forall|k: int| 0 <= k < order@.len() ==> #[trigger] order@[k] < entries@.len(),
            forall|k: int| 0 <= k < pending@.len() ==> #[trigger] pending@[k] < entries@.len(),
            all_converted(m@, entries@, Seq::empty(), Seq::empty(), places(entries@.len())) == all_converted(
                m@,
                entries@,
                order@,
                shown_changes(changes@),
                pending@,
            ),
        decreases pending@.len(),
    {
        let k = match find_ready(entries, &order, &pending) {
            Some(k) => k,
            None => {
                return Err(invalid("refund/reversal references are missing, outside this vault, or cyclic"));
            },
        };
        let ghost waiting = pending@;
        let ghost before = shown_changes(changes@);
        let place = pending.remove(k);
        assert(waiting[k as int] < entries@.len());
        match convert_entry(m, entries, &order, &changes, &entries[place]) {
            Ok(c) => {
                order.push(place);
                changes.push(c);
                assert(shown_changes(changes@) =~= before.push(c@));
            },
            Err(x) => {
                return Err(x);
            },
        }
        assert forall|j: int| 0 <= j < pending@.len() implies #[trigger] pending@[j] < entries@.len() by {
            if j < k {
                assert(pending@[j] == waiting[j]);
            } else {
                assert(pending@[j] == waiting[j + 1]);
            }
        }
    }
    Ok(changes)
}

proof fn lemma_all_balance(m: Rates, entries: Seq<JournalEntry>, order: Seq<usize>, changes: Seq<ShownChange>, pending: Seq<usize>)
    requires
        all_balance(changes),
    ensures
        all_converted(m, entries, order, changes, pending) matches Ok(v) ==> all_balance(v) && v.len() == changes.len() + pending.len(),
    decreases pending.len(),
{
    if pending.len() > 0 {
        match first_ready(entries, order, pending, 0) {
            Some(k) if 0 <= k < pending.len() => {
                let e = entries[pending[k] as int];
                if let Ok(c) = converted(m, entries, order, changes, e) {
                    law_converted_balances(m, entries, order, changes, e);
                    lemma_all_balance(m, entries, order.push(pending[k]), changes.push(c), pending.remove(k));
                }
            },
            _ => {},
        }
    }
}

pub open spec fn all_balance(changes: Seq<ShownChange>) -> bool {
    forall|i: int|
        0 <= i < changes.len() ==> after_total((#[trigger] changes[i]).postings, changes[i].postings.len()) + changes[i].fx_adjustment.minor == 0
}

/// A migration converts every entry of the vault, and each balances in the new currency.
pub proof fn law_migration_balances(m: Rates, entries: Seq<JournalEntry>)
    ensures
        all_converted(m, entries, Seq::empty(), Seq::empty(), places(entries.len())) matches Ok(v) ==> all_balance(v) && v.len() == entries.len(),
{
    lemma_all_balance(m, entries, Seq::empty(), Seq::empty(), places(entries.len()));
}

/// Whether the `i`th of entries in an order became what it is against what those before it became.
pub open spec fn takes_turn(m: Rates, entries: Seq<JournalEntry>, order: Seq<usize>, v: Seq<ShownChange>, i: int) -> bool {
    order[i] < entries.len() && converted(m, entries, order.take(i), v.take(i), entries[order[i] as int]) == Ok::<ShownChange, Refusal>(v[i])
}

/// Whether entries were converted one after the other in an order.
pub open spec fn in_turn(m: Rates, entries: Seq<JournalEntry>, order: Seq<usize>, v: Seq<ShownChange>) -> bool {
    order.len() == v.len() && forall|i: int| 0 <= i < v.len() ==> #[trigger] takes_turn(m, entries, order, v, i)
}

proof fn lemma_in_turn(m: Rates, entries: Seq<JournalEntry>, order: Seq<usize>, changes: Seq<ShownChange>, pending: Seq<usize>) -> (all: Seq<usize>)
    requires
        in_turn(m, entries, order, changes),
        forall|k: int| 0 <= k < pending.len() ==> #[trigger] pending[k] < entries.len(),
        order.no_duplicates(),
        pending.no_duplicates(),
        forall|i: int, k: int| 0 <= i < order.len() && 0 <= k < pending.len() ==> #[trigger] order[i] != #[trigger] pending[k],
    ensures
        all_converted(m, entries, order, changes, pending) matches Ok(v) ==> in_turn(m, entries, all, v) && all.no_duplicates() && all.len()
            == order.len() + pending.len(),
    decreases pending.len(),
{
    if pending.len() == 0 {
        order
    } else {
        match first_ready(entries, order, pending, 0) {
            Some(k) if 0 <= k < pending.len() => {
                if let Ok(c) = converted(m, entries, order, changes, entries[pending[k] as int]) {
                    let (o, v, rest) = (order.push(pending[k]), changes.push(c), pending.remove(k));
                    assert forall|i: int| 0 <= i < v.len() implies #[trigger] takes_turn(m, entries, o, v, i) by {
                        assert(o.take(i) =~= order.take(i));
                        assert(v.take(i) =~= changes.take(i));
                        if i == changes.len() {
                            assert(order.take(i) =~= order);
                            assert(changes.take(i) =~= changes);
                        } else {
                            assert(takes_turn(m, entries, order, changes, i));
                        }
                    }
                    assert forall|x: int| 0 <= x < rest.len() implies #[trigger] rest[x] < entries.len() by {
                        assert(rest[x] == pending[if x < k { x } else { x + 1 }]);
                    }
                    assert forall|i: int, x: int| 0 <= i < o.len() && 0 <= x < rest.len() implies #[trigger] o[i] != #[trigger] rest[x] by {
                        let y = if x < k {
                            x
                        } else {
                            x + 1
                        };
                        assert(rest[x] == pending[y]);
                        if i < order.len() {
                            assert(order[i] != pending[y]);
                        }
                    }
                    lemma_in_turn(m, entries, o, v, rest)
                } else {
                    order
                }
            },
            _ => order,
        }
    }
}

/// Every entry is converted, once, and each by what it was and what those before it became.
pub proof fn law_each_entry_converted(m: Rates, entries: Seq<JournalEntry>)
    requires
        entries.len() <= usize::MAX,
    ensures
        all_converted(m, entries, Seq::empty(), Seq::empty(), places(entries.len())) matches Ok(v) ==> v.len() == entries.len() && exists|order:
            Seq<usize>| #[trigger] in_turn(m, entries, order, v) && order.no_duplicates(),
{
    let all = lemma_in_turn(m, entries, Seq::empty(), Seq::empty(), places(entries.len()));
}

#[derive(Debug)]
pub struct BudgetChange {
    pub budget_id: i64,
    pub starts_on: Date,
    pub before: Money,
    pub after: Money,
    pub source: String,
}

#[verifier::ext_equal]
pub struct ShownBudget {
    pub budget_id: i64,
    pub starts_on: Date,
    pub before: Amount,
    pub after: Amount,
    pub source: Seq<char>,
}

impl View for BudgetChange {
    type V = ShownBudget;

    open spec fn view(&self) -> ShownBudget {
        ShownBudget { budget_id: self.budget_id, starts_on: self.starts_on, before: self.before@, after: self.after@, source: self.source@ }
    }
}

pub open spec fn shown_budgets(v: Seq<BudgetChange>) -> Seq<ShownBudget> {
    Seq::new(v.len(), |i: int| v[i]@)
}

#[derive(Debug)]
pub struct Preview {
    pub entity_id: i64,
    pub entity_name: String,
    pub from: String,
    pub to: String,
    pub old_chain_head: Option<String>,
    pub locked_entries: usize,
    pub reconciled_postings: usize,
    pub fx_account_to_replace: Option<i64>,
    pub fx_account_name: String,
    pub entries: Vec<EntryChange>,
    pub budgets: Vec<BudgetChange>,
    pub database_digest: String,
    pub confirmation: String,
}

#[verifier::ext_equal]
pub struct ShownPreview {
    pub entity_id: i64,
    pub entity_name: Seq<char>,
    pub from: Seq<char>,
    pub to: Seq<char>,
    pub old_chain_head: Option<Seq<char>>,
    pub locked_entries: nat,
    pub reconciled_postings: nat,
    pub fx_account_to_replace: Option<i64>,
    pub fx_account_name: Seq<char>,
    pub entries: Seq<ShownChange>,
    pub budgets: Seq<ShownBudget>,
    pub database_digest: Seq<char>,
}

impl View for Preview {
    type V = ShownPreview;

    open spec fn view(&self) -> ShownPreview {
        ShownPreview {
            entity_id: self.entity_id,
            entity_name: self.entity_name@,
            from: self.from@,
            to: self.to@,
            old_chain_head: opt_text(self.old_chain_head),
            locked_entries: self.locked_entries as nat,
            reconciled_postings: self.reconciled_postings as nat,
            fx_account_to_replace: self.fx_account_to_replace,
            fx_account_name: self.fx_account_name@,
            entries: shown_changes(self.entries@),
            budgets: shown_budgets(self.budgets@),
            database_digest: self.database_digest@,
        }
    }
}

/// What the first `n` budgets become.
pub open spec fn converted_budgets(m: Rates, budgets: Seq<Budget>, n: nat) -> std::result::Result<Seq<ShownBudget>, Refusal>
    decreases n,
{
    if n == 0 {
        Ok(Seq::empty())
    } else {
        match converted_budgets(m, budgets, (n - 1) as nat) {
            Err(x) => Err(x),
            Ok(before) => {
                let b = budgets[n - 1];
                match historical_of(m.prices, m.currencies, m.from, m.to, b.starts_on) {
                    Err(x) => Err(x),
                    Ok((rate, source)) => match multiplied(major_of(b.limit@), rate) {
                        None => Err(overflow()),
                        Some(n2) => match amount_of_major(n2, m.to, m.precision) {
                            Err(x) => Err(x),
                            Ok(after) => Ok(
                                before.push(ShownBudget { budget_id: b.id, starts_on: b.starts_on, before: b.limit@, after, source }),
                            ),
                        },
                    },
                }
            },
        }
    }
}

proof fn lemma_budgets_refused(m: Rates, budgets: Seq<Budget>, n: nat, k: nat)
    requires
        n <= k,
        converted_budgets(m, budgets, n) is Err,
    ensures
        converted_budgets(m, budgets, k) == converted_budgets(m, budgets, n),
    decreases k,
{
    if n < k {
        lemma_budgets_refused(m, budgets, n, (k - 1) as nat);
    }
}

fn convert_budgets(m: &Migration<'_>, budgets: &[Budget]) -> (r: Result<Vec<BudgetChange>>)
    ensures
        match r {
            Ok(v) => converted_budgets(m@, budgets@, budgets@.len()) == Ok::<Seq<ShownBudget>, Refusal>(shown_budgets(v@)),
            Err(x) => converted_budgets(m@, budgets@, budgets@.len()) == Err::<Seq<ShownBudget>, Refusal>(x@),
        },
{
    let mut v: Vec<BudgetChange> = Vec::new();
    let mut n: usize = 0;
    assert(shown_budgets(v@) =~= Seq::<ShownBudget>::empty());
    while n < budgets.len()
        invariant
            n <= budgets@.len(),
            converted_budgets(m@, budgets@, n as nat) == Ok::<Seq<ShownBudget>, Refusal>(shown_budgets(v@)),
        decreases budgets@.len() - n,
    {
        let b = &budgets[n];
        let ghost before = shown_budgets(v@);
        proof {
            if converted_budgets(m@, budgets@, (n + 1) as nat) is Err {
                lemma_budgets_refused(m@, budgets@, (n + 1) as nat, budgets@.len());
            }
        }
        let (rate, source) = match historical(m.prices, m.currencies, m.from, m.to, b.starts_on) {
            Ok(q) => q,
            Err(x) => {
                return Err(x);
            },
        };
        let value = match multiply(b.limit.major(), rate) {
            Ok(d) => d,
            Err(x) => {
                return Err(x);
            },
        };
        let after = match Money::from_major(value, m.to, m.precision) {
            Ok(a) => a,
            Err(x) => {
                return Err(x);
            },
        };
        let c = BudgetChange { budget_id: b.id, starts_on: b.starts_on, before: b.limit, after, source };
        v.push(c);
        assert(shown_budgets(v@) =~= before.push(c@));
        n = n + 1;
    }
    Ok(v)
}

/// How many of the first `n` entries lie in the locked period.
pub open spec fn locked_count(entity: Entity, entries: Seq<JournalEntry>, n: nat) -> nat
    decreases n,
{
    if n == 0 {
        0
    } else {
        locked_count(entity, entries, (n - 1) as nat) + (if entity.lock_date is Some && !entity.lock_date->0.before(entries[n - 1].date) {
            1nat
        } else {
            0
        })
    }
}

/// How many of the first `n` postings are reconciled.
pub open spec fn reconciled_in(ps: Seq<Posting>, n: nat) -> nat
    decreases n,
{
    if n == 0 {
        0
    } else {
        reconciled_in(ps, (n - 1) as nat) + (if ps[n - 1].reconciled_at is Some {
            1nat
        } else {
            0
        })
    }
}

/// How many postings of the first `n` entries are reconciled.
pub open spec fn reconciled_count(entries: Seq<JournalEntry>, n: nat) -> nat
    decreases n,
{
    if n == 0 {
        0
    } else {
        reconciled_count(entries, (n - 1) as nat) + reconciled_in(entries[n - 1].postings@, entries[n - 1].postings@.len())
    }
}

proof fn lemma_reconciled_grows(entries: Seq<JournalEntry>, k: nat, n: nat)
    requires
        k <= n,
    ensures
        reconciled_count(entries, k) <= reconciled_count(entries, n),
    decreases n,
{
    if k < n {
        lemma_reconciled_grows(entries, k, (n - 1) as nat);
    }
}

fn count_locked(entity: &Entity, entries: &[JournalEntry]) -> (r: usize)
    ensures
        r == locked_count(*entity, entries@, entries@.len()),
{
    let mut count: usize = 0;
    let mut n: usize = 0;
    while n < entries.len()
        invariant
            n <= entries@.len(),
            count <= n,
            count == locked_count(*entity, entries@, n as nat),
        decreases entries@.len() - n,
    {
        let inside = match entity.lock_date {
            Some(d) => !d.is_before(entries[n].date),
            None => false,
        };
        if inside {
            count = count + 1;
        }
        n = n + 1;
    }
    count
}

fn count_reconciled_in(ps: &Vec<Posting>) -> (r: usize)
    ensures
        r == reconciled_in(ps@, ps@.len()),
{
    let mut count: usize = 0;
    let mut n: usize = 0;
    while n < ps.len()
        invariant
            n <= ps@.len(),
            count <= n,
            count == reconciled_in(ps@, n as nat),
        decreases ps@.len() - n,
    {
        if ps[n].reconciled_at.is_some() {
            count = count + 1;
        }
        n = n + 1;
    }
    count
}

fn count_reconciled(entries: &[JournalEntry]) -> (r: usize)
    requires
        reconciled_count(entries@, entries@.len()) <= usize::MAX,
    ensures
        r == reconciled_count(entries@, entries@.len()),
{
    let mut count: usize = 0;
    let mut n: usize = 0;
    while n < entries.len()
        invariant
            n <= entries@.len(),
            reconciled_count(entries@, entries@.len()) <= usize::MAX,
            count == reconciled_count(entries@, n as nat),
        decreases entries@.len() - n,
    {
        let more = count_reconciled_in(&entries[n].postings);
        proof {
            lemma_reconciled_grows(entries@, (n + 1) as nat, entries@.len());
        }
        count = count + more;
        n = n + 1;
    }
    count
}

/// Codes in order with one more.
pub open spec fn code_placed(s: Seq<Seq<char>>, code: Seq<char>) -> Seq<Seq<char>>
    decreases s.len(),
{
    if s.len() > 0 && text_less(code, s.last()) {
        code_placed(s.drop_last(), code).push(s.last())
    } else {
        s.push(code)
    }
}

/// The codes of the currencies among the first `n` commodities, in order.
pub open spec fn currency_codes(commodities: Seq<Commodity>, n: nat) -> Seq<Seq<char>>
    decreases n,
{
    if n == 0 {
        Seq::empty()
    } else {
        let before = currency_codes(commodities, (n - 1) as nat);
        if commodities[n - 1].kind@ == "currency"@ {
            code_placed(before, commodities[n - 1].code@)
        } else {
            before
        }
    }
}

proof fn lemma_code_placed(s: Seq<Seq<char>>, code: Seq<char>, p: int)
    requires
        0 <= p <= s.len(),
        forall|i: int| p <= i < s.len() ==> text_less(code, #[trigger] s[i]),
        p == 0 || !text_less(code, s[p - 1]),
    ensures
        code_placed(s, code) == s.insert(p, code),
    decreases s.len(),
{
    if p < s.len() {
        assert(text_less(code, s[s.len() - 1]));
        lemma_code_placed(s.drop_last(), code, p);
    }
    assert(code_placed(s, code) =~= s.insert(p, code));
}

/// The codes of the currencies, in order.
pub fn currencies(commodities: &[Commodity]) -> (r: Vec<String>)
    ensures
        texts(r@) == currency_codes(commodities@, commodities@.len()),
{
    let mut v: Vec<String> = Vec::new();
    let mut n: usize = 0;
    assert(texts(v@) =~= Seq::<Seq<char>>::empty());
    while n < commodities.len()
        invariant
            n <= commodities@.len(),
            texts(v@) == currency_codes(commodities@, n as nat),
        decreases commodities@.len() - n,
    {
        if same(commodities[n].kind.as_str(), "currency") {
            let code = own(commodities[n].code.as_str());
            let ghost before = texts(v@);
            let ghost held = v@;
            let mut p: usize = v.len();
            while p > 0 && is_less(code.as_str(), v[p - 1].as_str())
                invariant
                    p <= v@.len(),
                    v@ == held,
                    before == texts(held),
                    forall|i: int| p <= i < before.len() ==> text_less(code@, #[trigger] before[i]),
                decreases p,
            {
                p = p - 1;
            }
            proof {
                if p > 0 {
                    assert(before[p - 1] == held[p - 1]@);
                }
                lemma_code_placed(before, code@, p as int);
            }
            v.insert(p, code);
            assert(texts(v@) =~= before.insert(p as int, code@));
        }
        n = n + 1;
    }
    v
}

/// Whether an account at the root of the expenses bears a name.
pub open spec fn name_taken(accounts: Seq<Account>, entity_id: i64, name: Seq<char>) -> bool {
    exists|i: int|
        0 <= i < accounts.len() && (#[trigger] accounts[i]).entity_id == entity_id && accounts[i].name@ == name && accounts[i].parent_id is None
            && accounts[i].account_type == AccountType::Expense
}

fn is_taken(accounts: &[Account], entity_id: i64, name: &str) -> (r: bool)
    ensures
        r == name_taken(accounts@, entity_id, name@),
{
    let mut n: usize = 0;
    while n < accounts.len()
        invariant
            n <= accounts@.len(),
            forall|i: int|
                0 <= i < n ==> !((#[trigger] accounts@[i]).entity_id == entity_id && accounts@[i].name@ == name@ && accounts@[i].parent_id is None
                    && accounts@[i].account_type == AccountType::Expense),
        decreases accounts@.len() - n,
    {
        let a = &accounts[n];
        if a.entity_id == entity_id && same(a.name.as_str(), name) && a.parent_id.is_none() && matches!(a.account_type, AccountType::Expense) {
            assert(accounts@[n as int].entity_id == entity_id);
            return true;
        }
        n = n + 1;
    }
    false
}

/// The name of the account for exchange differences after the migration, where it is replaced.
pub open spec fn fx_name_of(code: Seq<char>) -> Seq<char> {
    "FX gain/loss ("@ + code + " migration)"@
}

/// What a migration of a vault would change, or why it cannot be made.
pub open spec fn preview_of(
    entity: Entity,
    target: Seq<char>,
    commodities: Seq<Commodity>,
    accounts: Seq<Account>,
    chain: VerifyReport,
    entries: Seq<JournalEntry>,
    budgets: Seq<Budget>,
    prices: Seq<Price>,
    digest: Seq<char>,
) -> std::result::Result<ShownPreview, Refusal> {
    if !well_formed_code(code_form(target)) {
        Err(Refusal::Invalid("invalid commodity code "@ + debug_text(target)))
    } else {
        match commodity_named(commodities, code_form(target)) {
            Err(x) => Err(x),
            Ok(c) => if c.kind@ != "currency"@ || c.code@ == entity.currency@ {
                Err(Refusal::Invalid("select a different accounting currency"@))
            } else if chain.first_bad_seq is Some {
                Err(Refusal::Invalid("repair the existing hash chain before currency migration"@))
            } else {
                match role_place(accounts, entity.id, "fx_gain_loss"@, 0) {
                    None => Err(
                        Refusal::NotFound("system account "@ + "fx_gain_loss"@ + " for entity "@ + int_text(entity.id as int)),
                    ),
                    Some(f) => {
                        let replace = accounts[f].commodity@ != c.code@;
                        let name = if replace {
                            fx_name_of(c.code@)
                        } else {
                            accounts[f].name@
                        };
                        let m = Rates {
                            prices,
                            currencies: currency_codes(commodities, commodities.len()),
                            from: entity.currency@,
                            to: c.code@,
                            precision: c.precision as int,
                        };
                        if replace && name_taken(accounts, entity.id, name) {
                            Err(Refusal::Invalid("account name already exists: "@ + name + "; rename it before migration"@))
                        } else {
                            match all_converted(m, entries, Seq::empty(), Seq::empty(), places(entries.len())) {
                                Err(x) => Err(x),
                                Ok(changes) => match converted_budgets(m, budgets, budgets.len()) {
                                    Err(x) => Err(x),
                                    Ok(bs) => Ok(
                                        ShownPreview {
                                            entity_id: entity.id,
                                            entity_name: entity.name@,
                                            from: entity.currency@,
                                            to: c.code@,
                                            old_chain_head: opt_text(chain.head),
                                            locked_entries: locked_count(entity, entries, entries.len()),
                                            reconciled_postings: reconciled_count(entries, entries.len()),
                                            fx_account_to_replace: if replace {
                                                Some(accounts[f].id)
                                            } else {
                                                None
                                            },
                                            fx_account_name: name,
                                            entries: changes,
                                            budgets: bs,
                                            database_digest: digest,
                                        },
                                    ),
                                },
                            }
                        }
                    },
                }
            },
        }
    }
}

pub open spec fn posting_text(p: ShownPosting) -> Seq<char> {
    glued(
        seq![
            "{\"posting_id\":"@,
            int_text(p.posting_id as int),
            ",\"before\":"@,
            money_text(p.before),
            ",\"after\":"@,
            money_text(p.after),
            ",\"source\":"@,
            json_text(p.source),
            "}"@,
        ],
    )
}

fn posting_string(p: &PostingChange) -> (r: String)
    ensures
        r@ == posting_text(p@),
{
    let id = int_string(p.posting_id);
    let before = money_string(&p.before);
    let after = money_string(&p.after);
    let source = json_string(p.source.as_str());
    let v: Vec<&str> = vec![
        "{\"posting_id\":",
        id.as_str(),
        ",\"before\":",
        before.as_str(),
        ",\"after\":",
        after.as_str(),
        ",\"source\":",
        source.as_str(),
        "}",
    ];
    assert(str_texts(v@) =~= seq![
        "{\"posting_id\":"@,
        id@,
        ",\"before\":"@,
        before@,
        ",\"after\":"@,
        after@,
        ",\"source\":"@,
        source@,
        "}"@,
    ]);
    glue(&v)
}

pub open spec fn posting_texts(v: Seq<ShownPosting>) -> Seq<Seq<char>> {
    Seq::new(v.len(), |i: int| posting_text(v[i]))
}

pub open spec fn change_text(c: ShownChange) -> Seq<char> {
    glued(
        seq![
            "{\"entry_id\":"@,
            int_text(c.entry_id as int),
            ",\"date\":"@,
            json_text(iso_text(c.date)),
            ",\"postings\":["@,
            joined(posting_texts(c.postings), ","@),
            "],\"fx_adjustment\":"@,
            money_text(c.fx_adjustment),
            ",\"reverses_entry\":"@,
            opt_id_text(c.reverses_entry),
            "}"@,
        ],
    )
}

fn postings_string(ps: &Vec<PostingChange>) -> (r: String)
    ensures
        r@ == joined(posting_texts(shown_postings(ps@)), ","@),
{
    let ghost all = posting_texts(shown_postings(ps@));
    let mut v: Vec<String> = Vec::new();
    let mut i: usize = 0;
    while i < ps.len()
        invariant
            i <= ps@.len(),
            all == posting_texts(shown_postings(ps@)),
            texts(v@) == all.take(i as int),
        decreases ps@.len() - i,
    {
        let ghost before = texts(v@);
        let s = posting_string(&ps[i]);
        v.push(s);
        assert(texts(v@) =~= before.push(s@));
        i = i + 1;
        assert(texts(v@) =~= all.take(i as int));
    }
    assert(all.take(all.len() as int) =~= all);
    join(&v, ",")
}

fn change_string(c: &EntryChange) -> (r: String)
    ensures
        r@ == change_text(c@),
{
    let id = int_string(c.entry_id);
    let date = json_string(iso(c.date).as_str());
    let postings = postings_string(&c.postings);
    let fx = money_string(&c.fx_adjustment);
    let reverses = opt_id_string(c.reverses_entry);
    let v: Vec<&str> = vec![
        "{\"entry_id\":",
        id.as_str(),
        ",\"date\":",
        date.as_str(),
        ",\"postings\":[",
        postings.as_str(),
        "],\"fx_adjustment\":",
        fx.as_str(),
        ",\"reverses_entry\":",
        reverses.as_str(),
        "}",
    ];
    assert(str_texts(v@) =~= seq![
        "{\"entry_id\":"@,
        id@,
        ",\"date\":"@,
        date@,
        ",\"postings\":["@,
        postings@,
        "],\"fx_adjustment\":"@,
        fx@,
        ",\"reverses_entry\":"@,
        reverses@,
        "}"@,
    ]);
    glue(&v)
}

pub open spec fn change_texts(v: Seq<ShownChange>) -> Seq<Seq<char>> {
    Seq::new(v.len(), |i: int| change_text(v[i]))
}

fn changes_string(cs: &Vec<EntryChange>) -> (r: String)
    ensures
        r@ == joined(change_texts(shown_changes(cs@)), ","@),
{
    let ghost all = change_texts(shown_changes(cs@));
    let mut v: Vec<String> = Vec::new();
    let mut i: usize = 0;
    while i < cs.len()
        invariant
            i <= cs@.len(),
            all == change_texts(shown_changes(cs@)),
            texts(v@) == all.take(i as int),
        decreases cs@.len() - i,
    {
        let ghost before = texts(v@);
        let s = change_string(&cs[i]);
        v.push(s);
        assert(texts(v@) =~= before.push(s@));
        i = i + 1;
        assert(texts(v@) =~= all.take(i as int));
    }
    assert(all.take(all.len() as int) =~= all);
    join(&v, ",")
}

pub open spec fn budget_text(b: ShownBudget) -> Seq<char> {
    glued(
        seq![
            "{\"budget_id\":"@,
            int_text(b.budget_id as int),
            ",\"starts_on\":"@,
            json_text(iso_text(b.starts_on)),
            ",\"before\":"@,
            money_text(b.before),
            ",\"after\":"@,
            money_text(b.after),
            ",\"source\":"@,
            json_text(b.source),
            "}"@,
        ],
    )
}

fn budget_string(b: &BudgetChange) -> (r: String)
    ensures
        r@ == budget_text(b@),
{
    let id = int_string(b.budget_id);
    let starts_on = json_string(iso(b.starts_on).as_str());
    let before = money_string(&b.before);
    let after = money_string(&b.after);
    let source = json_string(b.source.as_str());
    let v: Vec<&str> = vec![
        "{\"budget_id\":",
        id.as_str(),
        ",\"starts_on\":",
        starts_on.as_str(),
        ",\"before\":",
        before.as_str(),
        ",\"after\":",
        after.as_str(),
        ",\"source\":",
        source.as_str(),
        "}",
    ];
    assert(str_texts(v@) =~= seq![
        "{\"budget_id\":"@,
        id@,
        ",\"starts_on\":"@,
        starts_on@,
        ",\"before\":"@,
        before@,
        ",\"after\":"@,
        after@,
        ",\"source\":"@,
        source@,
        "}"@,
    ]);
    glue(&v)
}

pub open spec fn budget_texts(v: Seq<ShownBudget>) -> Seq<Seq<char>> {
    Seq::new(v.len(), |i: int| budget_text(v[i]))
}

fn budgets_string(bs: &Vec<BudgetChange>) -> (r: String)
    ensures
        r@ == joined(budget_texts(shown_budgets(bs@)), ","@),
{
    let ghost all = budget_texts(shown_budgets(bs@));
    let mut v: Vec<String> = Vec::new();
    let mut i: usize = 0;
    while i < bs.len()
        invariant
            i <= bs@.len(),
            all == budget_texts(shown_budgets(bs@)),
            texts(v@) == all.take(i as int),
        decreases bs@.len() - i,
    {
        let ghost before = texts(v@);
        let s = budget_string(&bs[i]);
        v.push(s);
        assert(texts(v@) =~= before.push(s@));
        i = i + 1;
        assert(texts(v@) =~= all.take(i as int));
    }
    assert(all.take(all.len() as int) =~= all);
    join(&v, ",")
}

/// How a preview is written before its token stands in it.
pub open spec fn preview_text(p: ShownPreview) -> Seq<char> {
    glued(
        seq![
            "{\"entity_id\":"@,
            int_text(p.entity_id as int),
            ",\"entity_name\":"@,
            json_text(p.entity_name),
            ",\"from\":"@,
            json_text(p.from),
            ",\"to\":"@,
            json_text(p.to),
            ",\"old_chain_head\":"@,
            opt_json_text(p.old_chain_head),
            ",\"locked_entries\":"@,
            nat_text(p.locked_entries),
            ",\"reconciled_postings\":"@,
            nat_text(p.reconciled_postings),
            ",\"fx_account_to_replace\":"@,
            opt_id_text(p.fx_account_to_replace),
            ",\"fx_account_name\":"@,
            json_text(p.fx_account_name),
            ",\"entries\":["@,
            joined(change_texts(p.entries), ","@),
            "],\"budgets\":["@,
            joined(budget_texts(p.budgets), ","@),
            "],\"database_digest\":"@,
            json_text(p.database_digest),
            ",\"confirmation\":\"\"}"@,
        ],
    )
}

/// The token that confirms a preview: it covers every change, and the database by its digest.
pub open spec fn token_of(p: ShownPreview) -> Seq<char> {
    hex_text(sha256_of(encode_utf8(preview_text(p))))
}

fn token(p: &Preview) -> (r: String)
    ensures
        r@ == token_of(p@),
{
    let id = int_string(p.entity_id);
    let name = json_string(p.entity_name.as_str());
    let from = json_string(p.from.as_str());
    let to = json_string(p.to.as_str());
    let head = match &p.old_chain_head {
        Some(h) => json_string(h.as_str()),
        None => own("null"),
    };
    let locked = nat_string(p.locked_entries as u128);
    let reconciled = nat_string(p.reconciled_postings as u128);
    let replace = opt_id_string(p.fx_account_to_replace);
    let fx = json_string(p.fx_account_name.as_str());
    let entries = changes_string(&p.entries);
    let budgets = budgets_string(&p.budgets);
    let digest = json_string(p.database_digest.as_str());
    let v: Vec<&str> = vec![
        "{\"entity_id\":",
        id.as_str(),
        ",\"entity_name\":",
        name.as_str(),
        ",\"from\":",
        from.as_str(),
        ",\"to\":",
        to.as_str(),
        ",\"old_chain_head\":",
        head.as_str(),
        ",\"locked_entries\":",
        locked.as_str(),
        ",\"reconciled_postings\":",
        reconciled.as_str(),
        ",\"fx_account_to_replace\":",
        replace.as_str(),
        ",\"fx_account_name\":",
        fx.as_str(),
        ",\"entries\":[",
        entries.as_str(),
        "],\"budgets\":[",
        budgets.as_str(),
        "],\"database_digest\":",
        digest.as_str(),
        ",\"confirmation\":\"\"}",
    ];
    assert(str_texts(v@) =~= seq![
        "{\"entity_id\":"@,
        id@,
        ",\"entity_name\":"@,
        name@,
        ",\"from\":"@,
        from@,
        ",\"to\":"@,
        to@,
        ",\"old_chain_head\":"@,
        head@,
        ",\"locked_entries\":"@,
        locked@,
        ",\"reconciled_postings\":"@,
        reconciled@,
        ",\"fx_account_to_replace\":"@,
        replace@,
        ",\"fx_account_name\":"@,
        fx@,
        ",\"entries\":["@,
        entries@,
        "],\"budgets\":["@,
        budgets@,
        "],\"database_digest\":"@,
        digest@,
        ",\"confirmation\":\"\"}"@,
    ]);
    let text = glue(&v);
    hex_string(&sha256(text.as_str().as_bytes()))
}

/// What a migration of a vault to another accounting currency would change. `digest` is that of the
/// database, so that the confirmation covers all of it.
pub fn preview(
    entity: &Entity,
    target: &str,
    commodities: &[Commodity],
    accounts: &[Account],
    chain: &VerifyReport,
    entries: &[JournalEntry],
    budgets: &[Budget],
    prices: &[Price],
    digest: &str,
) -> (r: Result<Preview>)
    requires
        reconciled_count(entries@, entries@.len()) <= usize::MAX,
    ensures
        match r {
            Ok(p) => preview_of(*entity, target@, commodities@, accounts@, *chain, entries@, budgets@, prices@, digest@) == Ok::<
                ShownPreview,
                Refusal,
            >(p@) && p.confirmation@ == token_of(p@),
            Err(x) => preview_of(*entity, target@, commodities@, accounts@, *chain, entries@, budgets@, prices@, digest@) == Err::<
                ShownPreview,
                Refusal,
            >(x@),
        },
{
    let code = match normalize_code(target) {
        Ok(c) => c,
        Err(x) => {
            return Err(x);
        },
    };
    let c = match get_commodity_by_code(commodities, code.as_str()) {
        Ok(c) => c,
        Err(x) => {
            return Err(x);
        },
    };
    if !same(c.kind.as_str(), "currency") || same(c.code.as_str(), entity.currency.as_str()) {
        return Err(invalid("select a different accounting currency"));
    }
    if chain.first_bad_seq.is_some() {
        return Err(invalid("repair the existing hash chain before currency migration"));
    }
    let fx = match find_by_role(accounts, entity.id, "fx_gain_loss") {
        Ok(a) => a,
        Err(x) => {
            return Err(x);
        },
    };
    let replace = !same(fx.commodity.as_str(), c.code.as_str());
    let name = if replace {
        cat3("FX gain/loss (", c.code.as_str(), " migration)")
    } else {
        own(fx.name.as_str())
    };
    if replace && is_taken(accounts, entity.id, name.as_str()) {
        return Err(invalid(cat3("account name already exists: ", name.as_str(), "; rename it before migration").as_str()));
    }
    let codes = currencies(commodities);
    let m = Migration {
        prices,
        currencies: codes.as_slice(),
        from: entity.currency.as_str(),
        to: c.code.as_str(),
        precision: c.precision,
    };
    let changes = match convert_entries(&m, entries) {
        Ok(v) => v,
        Err(x) => {
            return Err(x);
        },
    };
    let bs = match convert_budgets(&m, budgets) {
        Ok(v) => v,
        Err(x) => {
            return Err(x);
        },
    };
    let mut p = Preview {
        entity_id: entity.id,
        entity_name: own(entity.name.as_str()),
        from: own(entity.currency.as_str()),
        to: own(c.code.as_str()),
        old_chain_head: copy_text(&chain.head),
        locked_entries: count_locked(entity, entries),
        reconciled_postings: count_reconciled(entries),
        fx_account_to_replace: if replace {
            Some(fx.id)
        } else {
            None
        },
        fx_account_name: name,
        entries: changes,
        budgets: bs,
        database_digest: own(digest),
        confirmation: String::new(),
    };
    p.confirmation = token(&p);
    Ok(p)
}

/// Why a migration is not applied: the token is not that of the preview as it stands now, or locked
/// periods were not agreed to.
pub fn check_apply(p: &Preview, confirmation: &str, include_locked: bool) -> (r: Result<()>)
    ensures
        match r {
            Ok(_) => confirmation@ == p.confirmation@ && (p.locked_entries == 0 || include_locked),
            Err(e) => if confirmation@ != p.confirmation@ {
                e.conflict("currency migration preview is stale or the confirmation token is wrong; preview again"@)
            } else {
                p.locked_entries != 0 && !include_locked && e.locked(
                    "migration includes locked periods; accountant must review the preview and pass --include-locked"@,
                )
            },
        },
{
    if !same(confirmation, p.confirmation.as_str()) {
        return Err(conflict("currency migration preview is stale or the confirmation token is wrong; preview again"));
    }
    if p.locked_entries != 0 && !include_locked {
        return Err(locked("migration includes locked periods; accountant must review the preview and pass --include-locked"));
    }
    Ok(())
}

/// The rate at which a converted posting is booked: its value over its quantity.
pub fn rate_after(after: &Money, quantity: &Money) -> (r: Result<Option<Decimal>>)
    ensures
        match r {
            Ok(d) => if quantity@.minor == 0 {
                d is None
            } else {
                d is Some && divided(major_of(after@), major_of(quantity@)) == view_of(d)
            },
            Err(e) => quantity@.minor != 0 && divided(major_of(after@), major_of(quantity@)) is None && e@ == overflow(),
        },
{
    if quantity.is_zero() {
        return Ok(None);
    }
    match after.major().checked_div(quantity.major()) {
        Some(d) => Ok(Some(d)),
        None => Err(invalid("currency migration amount overflow")),
    }
}

pub open spec fn value_json(a: Amount) -> Seq<char> {
    glued(
        seq!["{\"commodity\":"@, json_text(a.commodity), ",\"minor\":"@, json_text(int_text(a.minor)), ",\"precision\":"@, nat_text(a.precision), "}"@],
    )
}

fn value_string(m: &Money) -> (r: String)
    ensures
        r@ == value_json(m@),
{
    let minor = json_string(int_string(m.minor()).as_str());
    let commodity = json_string(m.commodity().as_str());
    let precision = nat_string(m.precision() as u128);
    let v: Vec<&str> = vec!["{\"commodity\":", commodity.as_str(), ",\"minor\":", minor.as_str(), ",\"precision\":", precision.as_str(), "}"];
    assert(str_texts(v@) =~= seq!["{\"commodity\":"@, commodity@, ",\"minor\":"@, minor@, ",\"precision\":"@, precision@, "}"@]);
    glue(&v)
}

pub open spec fn opt_rate_text(rate: Option<Num>) -> Seq<char> {
    match rate {
        Some(n) => json_text(decimal_text(n)),
        None => "null"@,
    }
}

/// What is kept of a posting's earlier value.
pub open spec fn history_text(confirmation: Seq<char>, c: ShownPosting, rate: Option<Num>, rate_source: Seq<char>) -> Seq<char> {
    glued(
        seq![
            "{\"after\":"@,
            value_json(c.after),
            ",\"before\":"@,
            value_json(c.before),
            ",\"confirmation\":"@,
            json_text(confirmation),
            ",\"old_rate\":"@,
            opt_rate_text(rate),
            ",\"old_rate_source\":"@,
            json_text(rate_source),
            ",\"source\":"@,
            json_text(c.source),
            "}"@,
        ],
    )
}

fn history_string(confirmation: &str, c: &PostingChange, old: &Posting) -> (r: String)
    ensures
        r@ == history_text(confirmation@, c@, view_of(old.rate), old.rate_source@),
{
    let after = value_string(&c.after);
    let before = value_string(&c.before);
    let token = json_string(confirmation);
    let rate = match old.rate {
        Some(d) => json_string(d.text().as_str()),
        None => own("null"),
    };
    let rate_source = json_string(old.rate_source.as_str());
    let source = json_string(c.source.as_str());
    let v: Vec<&str> = vec![
        "{\"after\":",
        after.as_str(),
        ",\"before\":",
        before.as_str(),
        ",\"confirmation\":",
        token.as_str(),
        ",\"old_rate\":",
        rate.as_str(),
        ",\"old_rate_source\":",
        rate_source.as_str(),
        ",\"source\":",
        source.as_str(),
        "}",
    ];
    assert(str_texts(v@) =~= seq![
        "{\"after\":"@,
        after@,
        ",\"before\":"@,
        before@,
        ",\"confirmation\":"@,
        token@,
        ",\"old_rate\":"@,
        rate@,
        ",\"old_rate_source\":"@,
        rate_source@,
        ",\"source\":"@,
        source@,
        "}"@,
    ]);
    glue(&v)
}

/// The list of earlier values, as JSON, with one more; nothing where what is stored is no list.
pub open spec fn listed(stored: Option<MetaValue>, item: Seq<char>) -> Option<Seq<char>> {
    match stored {
        None => Some("["@ + item + "]"@),
        Some(v) => match items_of(value_text(v)) {
            Some(list) => Some("["@ + joined(list.push(item), ","@) + "]"@),
            None => None,
        },
    }
}

/// The metadata of a converted posting: its earlier value is kept under `currency_migrations`.
pub fn keep_history(confirmation: &str, c: &PostingChange, old: &Posting) -> (r: Result<Vec<MetaEntry>>)
    ensures
        ({
            let item = history_text(confirmation@, c@, view_of(old.rate), old.rate_source@);
            let list = listed(meta_at(old.metadata@, "currency_migrations"@), item);
            match r {
                Ok(m) => list is Some && fields(m@) == fields_with(fields(old.metadata@), "currency_migrations"@, list->0),
                Err(e) => list is None && e.invalid("currency_migrations metadata must be an array"@),
            }
        }),
{
    let item = history_string(confirmation, c, old);
    let list = match meta_get(&old.metadata, "currency_migrations") {
        None => cat3("[", item.as_str(), "]"),
        Some(v) => match items(crate::imports::value_string(v).as_str()) {
            Some(mut list) => {
                let ghost before = texts(list@);
                list.push(own(item.as_str()));
                assert(texts(list@) =~= before.push(item@));
                cat3("[", join(&list, ",").as_str(), "]")
            },
            None => {
                return Err(invalid("currency_migrations metadata must be an array"));
            },
        },
    };
    let mut m = meta_copy(&old.metadata);
    put_field(&mut m, "currency_migrations", MetaValue::Other(list));
    Ok(m)
}

/// Checks that a migrated entry balances.
pub fn check_balanced(id: i64, amounts: &[i64]) -> (r: Result<()>)
    requires
        amounts@.len() <= 0x7fff_ffff_ffff_ffff,
    ensures
        match r {
            Ok(_) => minor_sum(amounts@, amounts@.len()) == 0,
            Err(e) => minor_sum(amounts@, amounts@.len()) != 0 && e.invalid("migrated entry "@ + int_text(id as int) + " is not balanced"@),
        },
{
    let mut total: i128 = 0;
    let mut i: usize = 0;
    while i < amounts.len()
        invariant
            i <= amounts@.len() <= 0x7fff_ffff_ffff_ffff,
            total == minor_sum(amounts@, i as nat),
            -0x8000_0000_0000_0000 * i <= total <= 0x8000_0000_0000_0000 * i,
        decreases amounts@.len() - i,
    {
        total = total + amounts[i] as i128;
        i = i + 1;
    }
    if total != 0 {
        Err(invalid(cat3("migrated entry ", int_string(id).as_str(), " is not balanced").as_str()))
    } else {
        Ok(())
    }
}

pub open spec fn minor_sum(v: Seq<i64>, n: nat) -> int
    decreases n,
{
    if n == 0 {
        0
    } else {
        minor_sum(v, (n - 1) as nat) + v[n - 1]
    }
}

/// Evidence in the new currency is what the posting keeps of its transaction: its own quantity where that is in
/// the currency; else the size of the amount that was paid, with the sign of the quantity; else the value that
/// was given. Each is within a minor unit of the number that is kept.
pub proof fn law_evidence_reads(p: Posting, target: Seq<char>, precision: int)
    requires
        precision >= 0,
        p.quantity@.commodity != target,
    ensures
        evidence_of(p, target, precision) matches Ok(Some((t, _))) ==> {
            let paid = if opt_starts(p.external_id, "at:"@) {
                value_under(p.metadata@, "original"@, target)
            } else {
                None
            };
            let given = value_under(p.metadata@, "value_in"@, target);
            let raw = if paid is Some {
                paid->0
            } else {
                given->0
            };
            &&& paid is Some || given is Some
            &&& raw is Some
            &&& decimal_in(number_text(raw->0)) matches Some(n) && {
                let size = distance(value(n), 0real);
                let exact = if paid is None {
                    value(n)
                } else if p.quantity@.minor < 0 {
                    -size
                } else {
                    size
                };
                100real * distance(in_major(t), exact) * (pow10(t.precision) as real) < 51real && t.precision == precision
            }
        },
{
    if let Ok(Some((t, _))) = evidence_of(p, target, precision) {
        let paid = if opt_starts(p.external_id, "at:"@) {
            value_under(p.metadata@, "original"@, target)
        } else {
            None
        };
        let given = value_under(p.metadata@, "value_in"@, target);
        let raw = if paid is Some {
            paid->0
        } else {
            given->0
        };
        let n = decimal_in(number_text(raw->0))->0;
        let size = if n.0 < 0 {
            -n.0
        } else {
            n.0
        };
        law_amount_of_major(n, target, precision);
        law_amount_of_major((size, n.1), target, precision);
        law_amount_of_major((-size, n.1), target, precision);
        lemma_pow10_positive(n.1);
        let (x, q) = (n.0 as real, pow10(n.1) as real);
        assert((-x) / q == -(x / q) && (x >= 0real ==> x / q >= 0real) && (x < 0real ==> x / q < 0real)) by (nonlinear_arith)
            requires
                q >= 1real,
        ;
        let y = size as real;
        assert((-y) / q == -(y / q)) by (nonlinear_arith)
            requires
                q >= 1real,
        ;
    }
}

} // verus!
