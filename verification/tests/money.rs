use means_core::decimal::Decimal;
use means_core::error::Error;
use means_core::money::{default_precision, fmt, guess_decimal_sep, parse, parse_localized, plain, MinorUnits, Money, MoneyWire, MAX_PRECISION};

fn dec(s: &str) -> Decimal {
    parse(s).unwrap()
}

/// Reads the parts in which an amount is sent, as the outer layer does.
fn from_json(json: &str) -> Result<Money, ()> {
    let value: serde_json::Value = serde_json::from_str(json).map_err(|_| ())?;
    let minor = value.get("minor").and_then(|v| v.as_str()).ok_or(())?;
    let commodity = value.get("commodity").and_then(|v| v.as_str()).ok_or(())?;
    let precision = value.get("precision").and_then(|v| v.as_u64()).ok_or(())?;
    Money::from_wire(&MoneyWire { minor: minor.to_string(), commodity: commodity.to_string(), precision: precision as u32 }).map_err(|_| ())
}

#[test]
fn json_round_trips_exact_units_and_validates_the_unit() {
    for minor in [i64::MIN, -9007199254740991, 0, i64::MAX] {
        let value = Money::from_minor(minor, "BTC", 8).unwrap();
        let wire = value.to_wire();
        assert_eq!((wire.minor.clone(), wire.commodity.as_str(), wire.precision), (minor.to_string(), "BTC", 8));
        assert_eq!(Money::from_wire(&wire).unwrap(), value);
        let json = format!("{{\"minor\": \"{minor}\", \"commodity\": \"BTC\", \"precision\": 8}}");
        assert_eq!(from_json(&json).unwrap(), value);
    }
    for json in [
        "{\"minor\": \"9223372036854775808\", \"commodity\": \"EUR\", \"precision\": 2}",
        "{\"minor\": \"1.1\", \"commodity\": \"EUR\", \"precision\": 2}",
        "{\"minor\": \"1\", \"commodity\": \"\", \"precision\": 2}",
        "{\"minor\": \"1\", \"commodity\": \"EUR\", \"precision\": 9}",
        "{\"minor\": 1, \"commodity\": \"EUR\", \"precision\": 2}",
    ] {
        assert!(from_json(json).is_err());
    }
}

#[test]
fn commodity_arithmetic_checks_units_and_range() {
    let eur = Money::from_minor(125, " eur ", 2).unwrap();
    assert_eq!(eur.commodity(), "EUR");
    assert_eq!(eur.major(), dec("1.25"));
    assert_eq!(eur.checked_add(eur).unwrap().minor(), 250);
    assert_eq!(eur.checked_sub(eur).unwrap().minor(), 0);
    assert_eq!(eur.checked_neg().unwrap().minor(), -125);
    for other in [Money::from_minor(125, "USD", 2).unwrap(), Money::from_minor(125, "EUR", 3).unwrap()] {
        assert!(eur.checked_add(other).is_err());
        assert!(eur.checked_sub(other).is_err());
        assert!(eur.checked_sum(&[other]).is_err());
    }
    let max = Money::from_minor(i64::MAX, "EUR", 2).unwrap();
    let min = Money::from_minor(i64::MIN, "EUR", 2).unwrap();
    let one = Money::from_minor(1, "EUR", 2).unwrap();
    assert!(max.checked_add(one).is_err());
    assert!(min.checked_sub(one).is_err());
    assert!(min.checked_neg().is_err());
    assert!(max.checked_sum(&[one]).is_err());
    assert_eq!(max.checked_sum(&[one, min]).unwrap().minor(), 0);
    for code in ["", "💰", "ABCDEFGHIJKLM", "EUR USD"] {
        assert!(Money::from_minor(1, code, 2).is_err());
    }
    assert!(Money::from_minor(1, "EUR", 9).is_err());
}

#[test]
fn allocations_preserve_commodity_and_exact_total() {
    for code in ["EUR", "BTC", "ABCDEFGHIJKL"] {
        for minor in [i64::MIN, -101, 0, 101, i64::MAX] {
            let total = Money::from_minor(minor, code, 8).unwrap();
            for parts in [total.split(3).unwrap(), total.allocate(&[1, 2, 3]).unwrap()] {
                assert!(parts.iter().all(|p| p.commodity() == code && p.precision() == 8));
                assert_eq!(Money::from_minor(0, code, 8).unwrap().checked_sum(&parts).unwrap(), total);
            }
        }
    }
}

fn minor(s: &str, precision: u32) -> i64 {
    MinorUnits::from_major(dec(s), precision).unwrap().minor()
}

#[test]
fn minor_units_per_precision() {
    assert_eq!(minor("3.20", 2), 320);
    assert_eq!(minor("-41.00", 2), -4100);
    assert_eq!(minor("500", 0), 500);
    assert_eq!(minor("0.01", 8), 1_000_000);
    assert_eq!(minor("1234.56789012", 8), 123_456_789_012);
    for (s, p) in [("3.20", 2), ("500", 0), ("0.01", 8), ("-41", 2)] {
        let m = MinorUnits::from_major(dec(s), p).unwrap();
        assert_eq!(m.major(), dec(s));
        assert_eq!(MinorUnits::from_minor(m.minor(), p).unwrap(), m);
        assert_eq!(m.precision(), p);
    }
}

#[test]
fn halves_round_to_even() {
    assert_eq!(minor("0.005", 2), 0);
    assert_eq!(minor("0.015", 2), 2);
    assert_eq!(minor("-0.005", 2), 0);
    assert_eq!(minor("-0.015", 2), -2);
    assert_eq!(minor("0.5", 0), 0);
    assert_eq!(minor("1.5", 0), 2);
    assert_eq!(minor("0.000000005", 8), 0);
    assert_eq!(minor("0.000000015", 8), 2);
}

#[test]
fn refuses_out_of_range_and_bad_precision() {
    let huge = dec("100000000000");
    assert!(matches!(MinorUnits::from_major(huge, 8), Err(Error::Invalid(_))));
    assert!(matches!(MinorUnits::from_major(Decimal::one(), MAX_PRECISION + 1), Err(Error::Invalid(_))));
    assert!(matches!(MinorUnits::from_minor(1, 9), Err(Error::Invalid(_))));
    assert!(MinorUnits::from_minor(i64::MAX, 8).is_ok());
}

#[test]
fn localized() {
    assert_eq!(parse_localized("R$ 1.234,56", ',').unwrap(), dec("1234.56"));
    assert_eq!(parse_localized("1,234.56", '.').unwrap(), dec("1234.56"));
    assert_eq!(parse_localized("-34,04", ',').unwrap(), dec("-34.04"));
    assert_eq!(parse_localized("(12.30)", '.').unwrap(), dec("-12.30"));
    assert_eq!(guess_decimal_sep("1.234,56"), ',');
    assert_eq!(guess_decimal_sep("1,234.56"), '.');
    assert_eq!(guess_decimal_sep("34,04"), ',');
    assert_eq!(guess_decimal_sep("-3.20"), '.');
}

#[test]
fn formatting() {
    assert_eq!(fmt(dec("3.2"), 2), "3.20");
    assert_eq!(fmt(dec("-0.005"), 2), "0.00");
    assert_eq!(fmt(dec("0.015"), 2), "0.02");
}

#[test]
fn splitting_conserves_every_minor_unit_including_signed_limits() {
    for value in [-101, -1, 0, 1, 101, i64::MIN, i64::MAX] {
        for count in 1..=17 {
            let parts = MinorUnits::from_minor(value, 8).unwrap().split(count).unwrap();
            assert_eq!(parts.iter().map(|p| p.minor() as i128).sum::<i128>(), value as i128);
            let min = parts.iter().map(|p| p.minor()).min().unwrap();
            let max = parts.iter().map(|p| p.minor()).max().unwrap();
            assert!(max as i128 - min as i128 <= 1);
            assert!(parts.iter().all(|p| p.precision() == 8));
        }
    }
    assert!(MinorUnits::from_minor(1, 2).unwrap().split(0).is_err());
}

#[test]
fn weighted_allocations_conserve_total_and_obey_quotas() {
    for value in [-101, -1, 0, 1, 101, i64::MIN, i64::MAX] {
        for weights in [vec![1, 1, 1], vec![0, 1, 2], vec![u64::MAX, u64::MAX, 1], vec![0, 0, 7]] {
            let parts = MinorUnits::from_minor(value, 2).unwrap().allocate(&weights).unwrap();
            assert_eq!(parts.iter().map(|p| p.minor() as i128).sum::<i128>(), value as i128);
            let sum = weights.iter().map(|&w| w as u128).sum::<u128>();
            for (p, &weight) in parts.iter().zip(&weights) {
                let floor = value.unsigned_abs() as u128 * weight as u128 / sum;
                let magnitude = p.minor().unsigned_abs() as u128;
                assert!(magnitude == floor || magnitude == floor + 1);
                if weight == 0 {
                    assert_eq!(p.minor(), 0);
                }
            }
        }
    }
    let positive = MinorUnits::from_minor(101, 2).unwrap().allocate(&[1, 1, 1]).unwrap();
    assert_eq!(positive.iter().map(|p| p.minor()).collect::<Vec<_>>(), [34, 34, 33]);
    let negative = MinorUnits::from_minor(-101, 2).unwrap().allocate(&[1, 1, 1]).unwrap();
    assert!(positive.iter().zip(negative).all(|(p, n)| p.minor() == -n.minor()));
    for weights in [vec![], vec![0], vec![0, 0]] {
        assert!(MinorUnits::from_minor(0, 2).unwrap().allocate(&weights).is_err());
    }
}

#[test]
fn decimals_parse_and_print() {
    assert_eq!(dec("1 234_5.60").text(), "12345.60");
    assert_eq!(plain(dec("12.500")), "12.5");
    assert!(matches!(parse(""), Err(Error::Invalid(m)) if m == "empty amount"));
    assert!(parse("1e3").is_err());
    assert!(parse("abc").is_err());
    assert_eq!(Decimal::from_units(-5, 2).abs(), dec("0.05"));
}

#[test]
fn default_precisions() {
    assert_eq!(default_precision("JPY"), 0);
    assert_eq!(default_precision("KWD"), 3);
    assert_eq!(default_precision("BTC"), 8);
    assert_eq!(default_precision("EUR"), 2);
}

#[test]
fn error_texts_name_their_class() {
    assert_eq!(Money::from_minor(1, "EUR", 9).unwrap_err().text(), "invalid: commodity precision must be 0 to 8, got 9");
    assert_eq!(Error::NotFound("account 7".into()).text(), "not found: account 7");
    assert_eq!(Error::Locked("x".into()).text(), "locked: x");
    assert_eq!(Error::Unbalanced("x".into()).text(), "unbalanced entry: x");
    assert_eq!(Error::Conflict("x".into()).text(), "conflict: x");
    assert_eq!(Error::Parse("x".into()).text(), "parse error: x");
    assert_eq!(Error::Json("x".into()).text(), "json error: x");
}
