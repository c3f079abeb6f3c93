use means_core::date::Date;
use means_core::decimal::Decimal;
use means_core::model::Price;
use means_core::money::{parse, round_to};
use means_core::rates::{check_price, ecb_prices, rate_for, rechain_start, revalued, Outcome, Revaluation};

fn dec(s: &str) -> Decimal {
    parse(s).unwrap()
}

fn day(y: i32, m: u32, d: u32) -> Date {
    Date::new(y, m, d).unwrap()
}

#[test]
fn ecb_and_cross_rates() {
    let xml = r#"<gesmes:Envelope><Cube><Cube time="2026-08-28"><Cube currency="USD" rate="1.1400"/><Cube currency="BRL" rate="6.2000"/></Cube>
            <Cube time="2026-08-27"><Cube currency="USD" rate="1.1300"/></Cube></Cube></gesmes:Envelope>"#;
    let imported = ecb_prices(xml, None);
    assert_eq!(imported.len(), 3);
    let prices: Vec<Price> = imported
        .into_iter()
        .enumerate()
        .map(|(i, p)| Price { id: i as i64 + 1, commodity: p.currency, currency: "EUR".into(), on: p.on, price: p.price, source: "ecb".into() })
        .collect();
    let d = day(2026, 8, 28);
    let usd = rate_for(&prices, "USD", "EUR", d).unwrap();
    assert_eq!(usd.source, "exact");
    assert_eq!(round_to(usd.rate, 6), dec("0.877193"));
    let eur_in_usd = rate_for(&prices, "EUR", "USD", d).unwrap();
    assert_eq!(eur_in_usd.source, "inverse");
    assert_eq!(round_to(eur_in_usd.rate, 4), dec("1.1400"));
    let usd_in_brl = rate_for(&prices, "USD", "BRL", d).unwrap();
    assert_eq!(usd_in_brl.source, "cross");
    assert_eq!(round_to(usd_in_brl.rate, 4), dec("5.4386"));
    let later = rate_for(&prices, "USD", "EUR", day(2026, 9, 10)).unwrap();
    assert_eq!(later.source, "nearest");
    assert!(rate_for(&prices, "USD", "EUR", day(2020, 1, 1)).is_none());
}

#[test]
fn ecb_rates_before_a_day_are_left_out() {
    let xml = r#"<Cube time="2026-08-28"><Cube currency="USD" rate="1.25"/></Cube><Cube time="2026-08-27"><Cube currency="USD" rate="2"/></Cube>"#;
    let v = ecb_prices(xml, Some(day(2026, 8, 28)));
    assert_eq!(v.len(), 1);
    assert_eq!(v[0].currency, "USD");
    assert_eq!(v[0].on, day(2026, 8, 28));
    assert_eq!(v[0].price, dec("0.8"));
}

#[test]
fn a_price_is_positive() {
    assert!(check_price(dec("0.01")).is_ok());
    assert!(check_price(Decimal::zero()).is_err());
    assert!(check_price(dec("-1")).is_err());
}

#[test]
fn a_revaluation_pass_reports_and_rechains_from_the_first_change() {
    let v = [
        Revaluation { entry_id: 4, entity_id: 1, seq: Some(9), outcome: Outcome::Fixed },
        Revaluation { entry_id: 5, entity_id: 1, seq: Some(3), outcome: Outcome::Fixed },
        Revaluation { entry_id: 6, entity_id: 2, seq: Some(1), outcome: Outcome::Unchanged },
        Revaluation { entry_id: 7, entity_id: 2, seq: None, outcome: Outcome::Failed("locked: no".into()) },
    ];
    let r = revalued(&v);
    assert_eq!((r.fixed, r.failed), (2, 1));
    assert_eq!(r.first_error.as_deref(), Some("entry #7: locked: no"));
    assert_eq!(rechain_start(&v, 1), Some(3));
    assert_eq!(rechain_start(&v, 2), None);
}
