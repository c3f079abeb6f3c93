//! Prices and exchange rates: lookup with fallbacks, and the ECB's reference rates.

use vstd::prelude::*;

use crate::date::{date_in, parse_with, Date};
use crate::decimal::{divided, law_arithmetic_near, lemma_near_rounded, lemma_value_whole, near, number_in, rounded, value, view_of, within, Decimal, Num};
use crate::error::{invalid, Result};
use crate::model::Price;
use crate::text::{cat, cat4, char_texts, chars, find, int_string, int_text, is_at, is_less, own, parts, position, same, slice_chars, split, starts, string, text_less, trim, trim_left, trim_left_chars, trimmed, upper, uppered};

verus! {

/// How far back a "nearest" rate may be before it counts as missing.
pub const MAX_STALE_DAYS: i64 = 400;

#[derive(Debug)]
pub struct RateLookup {
    pub rate: Decimal,
    /// exact, nearest, inverse, cross or same.
    pub source: String,
}

/// Whether a price is one of `commodity` in `currency`.
pub open spec fn quotes(p: Price, commodity: Seq<char>, currency: Seq<char>) -> bool {
    p.commodity@ == commodity && p.currency@ == currency
}

/// The latest price of `commodity` in `currency` on or before `date`.
pub open spec fn latest_row(prices: Seq<Price>, commodity: Seq<char>, currency: Seq<char>, date: Date) -> Option<int>
    decreases prices.len(),
{
    if prices.len() == 0 {
        None
    } else {
        let best = latest_row(prices.drop_last(), commodity, currency, date);
        let p = prices.last();
        if quotes(p, commodity, currency) && !date.before(p.on) && (best is None || prices[best->0].on.before(p.on)) {
            Some(prices.len() - 1)
        } else {
            best
        }
    }
}

/// The latest price of `commodity` in `currency` on or before `date` that is not too old, and
/// its day.
pub open spec fn latest_of(prices: Seq<Price>, commodity: Seq<char>, currency: Seq<char>, date: Date) -> Option<(Num, Date)> {
    match latest_row(prices, commodity, currency, date) {
        Some(i) => if date.number() - prices[i].on.number() > MAX_STALE_DAYS {
            None
        } else {
            Some((prices[i].price@, prices[i].on))
        },
        None => None,
    }
}

/// The price of `commodity` in `currency`, direct or inverse.
pub open spec fn price_of(prices: Seq<Price>, commodity: Seq<char>, currency: Seq<char>, date: Date) -> Option<Num> {
    if commodity == currency {
        Some((1, 0))
    } else {
        match latest_of(prices, commodity, currency, date) {
            Some((p, _)) => Some(p),
            None => match latest_of(prices, currency, commodity, date) {
                Some((p, _)) => if p.0 != 0 {
                    divided((1, 0), p)
                } else {
                    None
                },
                None => None,
            },
        }
    }
}

/// The rate of `commodity` in `currency` through a third one that prices both.
pub open spec fn cross_of(
    prices: Seq<Price>,
    commodity: Seq<char>,
    currency: Seq<char>,
    date: Date,
    via: Seq<char>,
) -> Option<Num> {
    match (price_of(prices, commodity, via, date), price_of(prices, currency, via, date)) {
        (Some(a), Some(b)) => if b.0 != 0 {
            match divided(a, b) {
                Some(q) => Some(rounded(q, 12)),
                None => None,
            }
        } else {
            None
        },
        _ => None,
    }
}

/// Whether the currency of the price `p` can stand between `commodity` and `currency`.
pub open spec fn stands_between(
    prices: Seq<Price>,
    commodity: Seq<char>,
    currency: Seq<char>,
    date: Date,
    p: Price,
) -> bool {
    &&& p.commodity@ == commodity || p.commodity@ == currency
    &&& p.currency@ != commodity && p.currency@ != currency
    &&& cross_of(prices, commodity, currency, date, p.currency@) is Some
}

/// The first currency, in the order of their codes, that stands between `commodity` and
/// `currency` in the first `n` prices.
pub open spec fn via_of(prices: Seq<Price>, commodity: Seq<char>, currency: Seq<char>, date: Date, n: int) -> Option<Seq<char>>
    decreases n,
{
    if n <= 0 {
        None
    } else {
        let best = via_of(prices, commodity, currency, date, n - 1);
        let p = prices[n - 1];
        if stands_between(prices, commodity, currency, date, p) && (best is None || text_less(p.currency@, best->0)) {
            Some(p.currency@)
        } else {
            best
        }
    }
}

/// The rate of `commodity` in `currency` on `date` and where it comes from; the codes are in
/// their stored form.
pub open spec fn rate_of(prices: Seq<Price>, commodity: Seq<char>, currency: Seq<char>, date: Date) -> Option<(Num, Seq<char>)> {
    if commodity == currency {
        Some(((1, 0), "same"@))
    } else {
        match latest_of(prices, commodity, currency, date) {
            Some((p, on)) => Some((p, if on == date { "exact"@ } else { "nearest"@ })),
            None => match inverse_of(prices, commodity, currency, date) {
                Some(q) => Some((q, "inverse"@)),
                None => match via_of(prices, commodity, currency, date, prices.len() as int) {
                    Some(via) => Some((cross_of(prices, commodity, currency, date, via)->0, "cross"@)),
                    None => None,
                },
            },
        }
    }
}

/// Whether the price `k` is the one of a pair that holds on a day: no price of the pair on or before the
/// day is later, and none of the same day was stored before it.
pub open spec fn holds_on(prices: Seq<Price>, commodity: Seq<char>, currency: Seq<char>, date: Date, k: int) -> bool {
    &&& 0 <= k < prices.len()
    &&& prices[k].commodity@ == commodity && prices[k].currency@ == currency
    &&& !date.before(prices[k].on)
    &&& forall|j: int|
        0 <= j < prices.len() && (#[trigger] prices[j]).commodity@ == commodity && prices[j].currency@ == currency && !date.before(
            prices[j].on,
        ) ==> !prices[k].on.before(prices[j].on) && (j < k ==> prices[j].on.before(prices[k].on))
}

/// Whether a pair has no price on or before a day that is fresh enough.
pub open spec fn unpriced(prices: Seq<Price>, commodity: Seq<char>, currency: Seq<char>, date: Date) -> bool {
    forall|k: int| #[trigger]
        holds_on(prices, commodity, currency, date, k) ==> date.number() - prices[k].on.number() > 400
}

/// The price that a lookup finds is the one of the pair that holds on the day: on the day or before it,
/// and none of those is later. Where it finds none there is no price of the pair on or before the day.
pub proof fn law_latest_price(prices: Seq<Price>, commodity: Seq<char>, currency: Seq<char>, date: Date)
    ensures
        match latest_row(prices, commodity, currency, date) {
            Some(i) => holds_on(prices, commodity, currency, date, i),
            None => forall|j: int|
                0 <= j < prices.len() && (#[trigger] prices[j]).commodity@ == commodity && prices[j].currency@ == currency ==> date.before(
                    prices[j].on,
                ),
        },
        forall|k: int| #[trigger]
            holds_on(prices, commodity, currency, date, k) ==> latest_row(prices, commodity, currency, date) == Some(k),
    decreases prices.len(),
{
    if prices.len() > 0 {
        let rest = prices.drop_last();
        law_latest_price(rest, commodity, currency, date);
        assert forall|j: int| 0 <= j < rest.len() implies rest[j] == #[trigger] prices[j] by {}
    }
    let found = latest_row(prices, commodity, currency, date);
    assert forall|k: int| #[trigger] holds_on(prices, commodity, currency, date, k) implies found == Some(k) by {
        if let Some(i) = found {
            if i < k {
                assert(prices[i].on.before(prices[k].on));
            } else if k < i {
                assert(prices[k].on.before(prices[i].on));
            }
        } else {
            assert(date.before(prices[k].on));
        }
    }
}

/// The rate of a pair that has a fresh price is that price: of the day itself, or the nearest one
/// before it.
pub proof fn law_rate_is_latest_price(prices: Seq<Price>, commodity: Seq<char>, currency: Seq<char>, date: Date, k: int)
    requires
        commodity != currency,
        holds_on(prices, commodity, currency, date, k),
        date.number() - prices[k].on.number() <= 400,
    ensures
        rate_of(prices, commodity, currency, date) == Some(
            (prices[k].price@, if prices[k].on == date { "exact"@ } else { "nearest"@ }),
        ),
{
    law_latest_price(prices, commodity, currency, date);
}

/// Where only the pair turned round has a fresh price, the rate is one over it.
pub proof fn law_rate_inverts(prices: Seq<Price>, commodity: Seq<char>, currency: Seq<char>, date: Date, k: int)
    requires
        commodity != currency,
        unpriced(prices, commodity, currency, date),
        holds_on(prices, currency, commodity, date, k),
        date.number() - prices[k].on.number() <= 400,
        rate_of(prices, commodity, currency, date) matches Some(r) && r.1 == "inverse"@,
    ensures
        prices[k].price@.0 != 0,
        within(1real / value(prices[k].price@), (rate_of(prices, commodity, currency, date)->0).0, 12),
{
    law_latest_price(prices, commodity, currency, date);
    law_latest_price(prices, currency, commodity, date);
    assert(latest_of(prices, commodity, currency, date) is None);
    let p = prices[k].price@;
    reveal_strlit("inverse");
    reveal_strlit("cross");
    assert("inverse"@.len() != "cross"@.len());
    law_arithmetic_near((1, 0), p);
    lemma_value_whole(1);
    lemma_near_rounded(1real / value(p), divided((1, 0), p)->0, 12);
}

/// The price of a pair, or one over that of the pair turned round.
pub proof fn law_price_either_way(prices: Seq<Price>, commodity: Seq<char>, currency: Seq<char>, date: Date)
    ensures
        price_of(prices, commodity, currency, date) matches Some(n) ==> {
            ||| commodity == currency && n == (1int, 0nat)
            ||| exists|k: int| #[trigger]
                holds_on(prices, commodity, currency, date, k) && date.number() - prices[k].on.number() <= 400 && n == prices[k].price@
            ||| unpriced(prices, commodity, currency, date) && exists|k: int| #[trigger]
                holds_on(prices, currency, commodity, date, k) && date.number() - prices[k].on.number() <= 400 && near(
                    1real / value(prices[k].price@),
                    n,
                )
        },
{
    law_latest_price(prices, commodity, currency, date);
    law_latest_price(prices, currency, commodity, date);
    if let Some(n) = price_of(prices, commodity, currency, date) {
        if commodity != currency {
            if latest_of(prices, commodity, currency, date) is Some {
                let k = latest_row(prices, commodity, currency, date)->0;
                assert(holds_on(prices, commodity, currency, date, k));
            } else {
                let k = latest_row(prices, currency, commodity, date)->0;
                assert(holds_on(prices, currency, commodity, date, k));
                law_arithmetic_near((1, 0), prices[k].price@);
                lemma_value_whole(1);
            }
        }
    }
}

proof fn lemma_via(prices: Seq<Price>, commodity: Seq<char>, currency: Seq<char>, date: Date, n: int)
    requires
        n <= prices.len(),
    ensures
        via_of(prices, commodity, currency, date, n) matches Some(via) ==> via != commodity && via != currency && cross_of(
            prices,
            commodity,
            currency,
            date,
            via,
        ) is Some,
        forall|i: int|
            0 <= i < n && stands_between(prices, commodity, currency, date, #[trigger] prices[i]) ==> via_of(
                prices,
                commodity,
                currency,
                date,
                n,
            ) is Some,
    decreases n,
{
    if n > 0 {
        lemma_via(prices, commodity, currency, date, n - 1);
    }
}

/// A rate that is crossed is the price of the commodity over that of the currency, both in a third one.
pub proof fn law_rate_crosses(prices: Seq<Price>, commodity: Seq<char>, currency: Seq<char>, date: Date)
    requires
        commodity != currency,
        rate_of(prices, commodity, currency, date) matches Some(r) && r.1 == "cross"@,
    ensures
        unpriced(prices, commodity, currency, date),
        exists|via: Seq<char>|
            via != commodity && via != currency && (#[trigger] price_of(prices, commodity, via, date)) is Some && price_of(prices, currency, via, date)
                is Some && within(
                value(price_of(prices, commodity, via, date)->0) / value(price_of(prices, currency, via, date)->0),
                (rate_of(prices, commodity, currency, date)->0).0,
                12,
            ),
{
    law_latest_price(prices, commodity, currency, date);
    reveal_strlit("inverse");
    reveal_strlit("cross");
    reveal_strlit("exact");
    reveal_strlit("nearest");
    assert("inverse"@.len() != "cross"@.len());
    assert("nearest"@.len() != "cross"@.len());
    assert("exact"@[0] != "cross"@[0]);
    assert(latest_of(prices, commodity, currency, date) is None);
    lemma_via(prices, commodity, currency, date, prices.len() as int);
    let via = via_of(prices, commodity, currency, date, prices.len() as int)->0;
    let (a, b) = (price_of(prices, commodity, via, date)->0, price_of(prices, currency, via, date)->0);
    law_arithmetic_near(a, b);
    lemma_near_rounded(value(a) / value(b), divided(a, b)->0, 12);
    assert(price_of(prices, commodity, via, date) is Some);
}

/// One divided by the price of `currency` in `commodity`.
pub open spec fn inverse_of(prices: Seq<Price>, commodity: Seq<char>, currency: Seq<char>, date: Date) -> Option<Num> {
    match latest_of(prices, currency, commodity, date) {
        Some((p, _)) => if p.0 != 0 {
            match divided((1, 0), p) {
                Some(q) => Some(rounded(q, 12)),
                None => None,
            }
        } else {
            None
        },
        None => None,
    }
}

fn latest_price(prices: &[Price], commodity: &str, currency: &str, date: Date) -> (r: Option<(Decimal, Date)>)
    ensures
        match r {
            Some((p, on)) => latest_of(prices@, commodity@, currency@, date) == Some((p@, on)),
            None => latest_of(prices@, commodity@, currency@, date) is None,
        },
{
    let mut best: Option<usize> = None;
    let mut i: usize = 0;
    while i < prices.len()
        invariant
            i <= prices.len(),
            match best {
                Some(b) => b < i && latest_row(prices@.take(i as int), commodity@, currency@, date) == Some(b as int),
                None => latest_row(prices@.take(i as int), commodity@, currency@, date) is None,
            },
        decreases prices.len() - i,
    {
        assert(prices@.take(i + 1).drop_last() == prices@.take(i as int));
        let p = &prices[i];
        if same(p.commodity.as_str(), commodity) && same(p.currency.as_str(), currency) && !date.is_before(p.on) {
            let later = match best {
                Some(b) => prices[b].on.is_before(p.on),
                None => true,
            };
            if later {
                best = Some(i);
            }
        }
        i = i + 1;
    }
    assert(prices@.take(i as int) == prices@);
    match best {
        Some(b) => {
            let on = prices[b].on;
            if date.days_since(on) > MAX_STALE_DAYS {
                None
            } else {
                Some((prices[b].price, on))
            }
        },
        None => None,
    }
}

/// Price of `commodity` in `currency`, direct or inverse, latest on or before `date`.
fn price_in(prices: &[Price], commodity: &str, currency: &str, date: Date) -> (r: Option<Decimal>)
    ensures
        view_of(r) == price_of(prices@, commodity@, currency@, date),
{
    if same(commodity, currency) {
        return Some(Decimal::one());
    }
    if let Some((p, _)) = latest_price(prices, commodity, currency, date) {
        return Some(p);
    }
    if let Some((p, _)) = latest_price(prices, currency, commodity, date) {
        if !p.is_zero() {
            return Decimal::one().checked_div(p);
        }
    }
    None
}

fn cross_rate(prices: &[Price], commodity: &str, currency: &str, date: Date, via: &str) -> (r: Option<Decimal>)
    ensures
        view_of(r) == cross_of(prices@, commodity@, currency@, date, via@),
{
    let a = price_in(prices, commodity, via, date);
    let b = price_in(prices, currency, via, date);
    if let (Some(a), Some(b)) = (a, b) {
        if !b.is_zero() {
            if let Some(q) = a.checked_div(b) {
                return Some(q.round_dp(12));
            }
        }
    }
    None
}

/// Price of one unit of `commodity` in `currency` on `date` (or the latest before it): the price
/// itself, one over the price the other way round, or through a currency that quotes both.
pub fn rate_for(prices: &[Price], commodity: &str, currency: &str, date: Date) -> (r: Option<RateLookup>)
    ensures
        match r {
            Some(l) => rate_of(prices@, uppered(trimmed(commodity@)), uppered(trimmed(currency@)), date) == Some(
                (l.rate@, l.source@),
            ),
            None => rate_of(prices@, uppered(trimmed(commodity@)), uppered(trimmed(currency@)), date) is None,
        },
{
    let commodity = upper(trim(commodity).as_str());
    let currency = upper(trim(currency).as_str());
    let c = commodity.as_str();
    let u = currency.as_str();
    if same(c, u) {
        return Some(RateLookup { rate: Decimal::one(), source: own("same") });
    }
    if let Some((p, on)) = latest_price(prices, c, u, date) {
        let source = if on.same(date) { "exact" } else { "nearest" };
        return Some(RateLookup { rate: p, source: own(source) });
    }
    if let Some((p, _)) = latest_price(prices, u, c, date) {
        if !p.is_zero() {
            if let Some(q) = Decimal::one().checked_div(p) {
                return Some(RateLookup { rate: q.round_dp(12), source: own("inverse") });
            }
        }
    }
    let mut best: Option<(usize, Decimal)> = None;
    let mut i: usize = 0;
    while i < prices.len()
        invariant
            i <= prices.len(),
            c@ == commodity@,
            u@ == currency@,
            match best {
                Some((b, q)) => b < prices.len() && via_of(prices@, c@, u@, date, i as int) == Some(prices@[b as int].currency@)
                    && cross_of(prices@, c@, u@, date, prices@[b as int].currency@) == Some(q@),
                None => via_of(prices@, c@, u@, date, i as int) is None,
            },
        decreases prices.len() - i,
    {
        let p = &prices[i];
        let via = p.currency.as_str();
        if (same(p.commodity.as_str(), c) || same(p.commodity.as_str(), u)) && !same(via, c) && !same(via, u) {
            if let Some(q) = cross_rate(prices, c, u, date, via) {
                let first = match best {
                    Some((b, _)) => is_less(via, prices[b].currency.as_str()),
                    None => true,
                };
                if first {
                    best = Some((i, q));
                }
            }
        }
        i = i + 1;
    }
    match best {
        Some((_, q)) => Some(RateLookup { rate: q, source: own("cross") }),
        None => None,
    }
}

/// Whether a price may be stored: it has to be positive.
pub fn check_price(price: Decimal) -> (r: Result<()>)
    ensures
        match r {
            Ok(_) => price@.0 > 0,
            Err(e) => price@.0 <= 0 && e.invalid("price must be positive"@),
        },
{
    if price.is_zero() || price.is_negative() {
        Err(invalid("price must be positive"))
    } else {
        Ok(())
    }
}

/// A price of a currency in euros that the ECB published.
#[derive(Debug)]
pub struct EcbPrice {
    pub currency: String,
    pub on: Date,
    pub price: Decimal,
}

/// What `EcbPrice` holds.
pub struct EcbRow {
    pub currency: Seq<char>,
    pub on: Date,
    pub price: Num,
}

pub open spec fn ecb_row(p: EcbPrice) -> EcbRow {
    EcbRow { currency: p.currency@, on: p.on, price: p.price@ }
}

/// The value of an attribute of an XML tag: what stands in double quotes behind its name and `=`.
pub open spec fn attr_of(tag: Seq<char>, name: Seq<char>) -> Option<Seq<char>> {
    let key = name + "=\""@;
    match position(tag, key, 0) {
        Some(i) => match position(tag, seq!['"'], i + key.len()) {
            Some(j) => Some(tag.subrange(i + key.len(), j)),
            None => None,
        },
        None => None,
    }
}

fn attr(tag: &[char], name: &str) -> (r: Option<String>)
    ensures
        match r {
            Some(v) => attr_of(tag@, name@) == Some(v@),
            None => attr_of(tag@, name@) is None,
        },
{
    let key_text = cat(name, "=\"");
    let key = chars(key_text.as_str());
    let mut quote: Vec<char> = Vec::new();
    quote.push('"');
    assert(quote@ =~= seq!['"']);
    match find(tag, &key, 0) {
        Some(i) => {
            let start: usize = i + key.len();
            match find(tag, &quote, start) {
                Some(j) => {
                    let v = slice_chars(tag, start, j);
                    Some(string(&v))
                },
                None => None,
            }
        },
        None => None,
    }
}

/// The price that a tag with a currency and a rate gives: one over the rate.
pub open spec fn ecb_price(tag: Seq<char>, on: Date, from: Option<Date>) -> Option<EcbRow> {
    match (attr_of(tag, "currency"@), attr_of(tag, "rate"@)) {
        (Some(currency), Some(rate)) => if from is Some && on.before(from->0) {
            None
        } else {
            match number_in(rate) {
                Some(n) => if n.0 == 0 {
                    None
                } else {
                    match divided((1, 0), n) {
                        Some(q) => Some(EcbRow { currency, on, price: rounded(q, 10) }),
                        None => None,
                    }
                },
                None => None,
            }
        },
        _ => None,
    }
}

/// The ECB quotes units of a currency for one euro; the price of the currency in euros is one over that.
pub proof fn law_ecb_price_inverts(tag: Seq<char>, on: Date, from: Option<Date>)
    ensures
        ecb_price(tag, on, from) matches Some(row) ==> {
            &&& row.on == on
            &&& attr_of(tag, "currency"@) == Some(row.currency)
            &&& attr_of(tag, "rate"@) matches Some(rate) && number_in(rate) matches Some(n) && n.0 != 0 && within(
                1real / value(n),
                row.price,
                10,
            )
        },
{
    if let Some(row) = ecb_price(tag, on, from) {
        let n = number_in(attr_of(tag, "rate"@)->0)->0;
        law_arithmetic_near((1, 0), n);
        lemma_value_whole(1);
        lemma_near_rounded(1real / value(n), divided((1, 0), n)->0, 10);
    }
}

/// The day that holds, and the prices, after the first `n` tags.
pub open spec fn ecb_after(tags: Seq<Seq<char>>, from: Option<Date>, n: int) -> (Option<Date>, Seq<EcbRow>)
    decreases n,
{
    if n <= 0 {
        (None, Seq::empty())
    } else {
        let (day, rows) = ecb_after(tags, from, n - 1);
        let tag = trim_left(tags[n - 1]);
        if !starts(tag, "Cube"@) {
            (day, rows)
        } else {
            match attr_of(tag, "time"@) {
                Some(t) => (date_in(t, "%Y-%m-%d"@), rows),
                None => match day {
                    Some(on) => match ecb_price(tag, on, from) {
                        Some(row) => (day, rows.push(row)),
                        None => (day, rows),
                    },
                    None => (day, rows),
                },
            }
        }
    }
}

/// Reads the ECB euro reference rates history (eurofxref-hist.xml): the price of each currency
/// in euros, which is one over the rate.
pub fn ecb_prices(xml: &str, from: Option<Date>) -> (r: Vec<EcbPrice>)
    ensures
        r@.map_values(|p: EcbPrice| ecb_row(p)) == ecb_after(parts(xml@, '<'), from, parts(xml@, '<').len() as int).1,
{
    let cs = chars(xml);
    let tags = split(&cs, '<');
    let mut current: Option<Date> = None;
    let mut out: Vec<EcbPrice> = Vec::new();
    let ghost all = parts(xml@, '<');
    let cube = chars("Cube");
    let mut i: usize = 0;
    while i < tags.len()
        invariant
            i <= tags.len(),
            char_texts(tags@) == all,
            cube@ == "Cube"@,
            current == ecb_after(all, from, i as int).0,
            out@.map_values(|p: EcbPrice| ecb_row(p)) == ecb_after(all, from, i as int).1,
        decreases tags.len() - i,
    {
        assert(char_texts(tags@)[i as int] == tags@[i as int]@);
        let tag = trim_left_chars(&tags[i]);
        i = i + 1;
        if is_at(&tag, &cube, 0) {
            if let Some(t) = attr(&tag, "time") {
                current = parse_with(t.as_str(), "%Y-%m-%d");
            } else if let Some(on) = current {
                let ghost before = out@;
                match ecb_tag(&tag, on, from) {
                    Some(p) => {
                        out.push(p);
                        assert(out@.map_values(|p: EcbPrice| ecb_row(p)) =~= before.map_values(|p: EcbPrice| ecb_row(p)).push(
                            ecb_row(p),
                        ));
                    },
                    None => {},
                }
            }
        }
    }
    out
}

fn ecb_tag(tag: &[char], on: Date, from: Option<Date>) -> (r: Option<EcbPrice>)
    ensures
        match r {
            Some(p) => ecb_price(tag@, on, from) == Some(ecb_row(p)),
            None => ecb_price(tag@, on, from) is None,
        },
{
    if let (Some(currency), Some(rate)) = (attr(tag, "currency"), attr(tag, "rate")) {
        if let Some(f) = from {
            if on.is_before(f) {
                return None;
            }
        }
        if let Some(n) = Decimal::parse(rate.as_str()) {
            if !n.is_zero() {
                if let Some(q) = Decimal::one().checked_div(n) {
                    return Some(EcbPrice { currency, on, price: q.round_dp(10) });
                }
            }
        }
    }
    None
}

/// What a revaluation pass did.
#[derive(Debug)]
pub struct Revalued {
    pub fixed: usize,
    pub failed: usize,
    pub first_error: Option<String>,
}

/// What came of one entry in a revaluation pass.
#[derive(Debug)]
pub enum Outcome {
    /// Its amounts were computed anew.
    Fixed,
    /// There is still no rate for it.
    Unchanged,
    Failed(String),
}

/// An entry of a revaluation pass: its entity, its place in the chain, and what came of it.
#[derive(Debug)]
pub struct Revaluation {
    pub entry_id: i64,
    pub entity_id: i64,
    pub seq: Option<i64>,
    pub outcome: Outcome,
}

pub open spec fn fixed_count(v: Seq<Revaluation>, n: nat) -> nat
    decreases n,
{
    if n == 0 {
        0
    } else {
        fixed_count(v, (n - 1) as nat) + (if v[n - 1].outcome is Fixed {
            1nat
        } else {
            0
        })
    }
}

pub open spec fn failed_count(v: Seq<Revaluation>, n: nat) -> nat
    decreases n,
{
    if n == 0 {
        0
    } else {
        failed_count(v, (n - 1) as nat) + (if v[n - 1].outcome is Failed {
            1nat
        } else {
            0
        })
    }
}

/// The text of the first failure among the first `n`.
pub open spec fn first_failure(v: Seq<Revaluation>, n: nat) -> Option<Seq<char>>
    decreases n,
{
    if n == 0 {
        None
    } else {
        match first_failure(v, (n - 1) as nat) {
            Some(s) => Some(s),
            None => match v[n - 1].outcome {
                Outcome::Failed(e) => Some("entry #"@ + int_text(v[n - 1].entry_id as int) + ": "@ + e@),
                _ => None,
            },
        }
    }
}

/// Where the chain of an entity is to be built anew: from the first of its links that changed.
pub open spec fn rechain_from(v: Seq<Revaluation>, entity_id: i64, n: nat) -> Option<i64>
    decreases n,
{
    if n == 0 {
        None
    } else {
        let before = rechain_from(v, entity_id, (n - 1) as nat);
        let r = v[n - 1];
        if r.entity_id == entity_id && r.outcome is Fixed && r.seq is Some && (before is None || r.seq->0 < before->0) {
            r.seq
        } else {
            before
        }
    }
}

/// What a revaluation pass did.
pub fn revalued(v: &[Revaluation]) -> (r: Revalued)
    ensures
        r.fixed == fixed_count(v@, v@.len()),
        r.failed == failed_count(v@, v@.len()),
        match r.first_error {
            Some(s) => first_failure(v@, v@.len()) == Some(s@),
            None => first_failure(v@, v@.len()) is None,
        },
{
    let mut r = Revalued { fixed: 0, failed: 0, first_error: None };
    let mut n: usize = 0;
    while n < v.len()
        invariant
            n <= v@.len(),
            r.fixed <= n,
            r.failed <= n,
            r.fixed == fixed_count(v@, n as nat),
            r.failed == failed_count(v@, n as nat),
            match r.first_error {
                Some(s) => first_failure(v@, n as nat) == Some(s@),
                None => first_failure(v@, n as nat) is None,
            },
        decreases v@.len() - n,
    {
        match &v[n].outcome {
            Outcome::Fixed => {
                r.fixed = r.fixed + 1;
            },
            Outcome::Unchanged => {},
            Outcome::Failed(e) => {
                r.failed = r.failed + 1;
                if r.first_error.is_none() {
                    r.first_error = Some(cat4("entry #", int_string(v[n].entry_id).as_str(), ": ", e.as_str()));
                }
            },
        }
        n = n + 1;
    }
    r
}

/// The link of an entity's chain from which it is built anew after a pass.
pub fn rechain_start(v: &[Revaluation], entity_id: i64) -> (r: Option<i64>)
    ensures
        r == rechain_from(v@, entity_id, v@.len()),
{
    let mut least: Option<i64> = None;
    let mut n: usize = 0;
    while n < v.len()
        invariant
            n <= v@.len(),
            least == rechain_from(v@, entity_id, n as nat),
        decreases v@.len() - n,
    {
        if v[n].entity_id == entity_id && matches!(v[n].outcome, Outcome::Fixed) {
            if let Some(s) = v[n].seq {
                least = match least {
                    Some(l) => if s < l {
                        Some(s)
                    } else {
                        Some(l)
                    },
                    None => Some(s),
                };
            }
        }
        n = n + 1;
    }
    least
}

} // verus!
