use means_core::export::{currency, label};

#[test]
fn currency_escapes_are_unambiguous() {
    let codes = ["EUR", "A", "1", "EUR-", "-EUR", "MEANSX31", "EUR_USD", "EUR.USD"];
    let mapped: std::collections::HashSet<_> = codes.iter().map(|c| currency(c)).collect();
    assert_eq!(mapped.len(), codes.len());
    assert_eq!(currency("EUR"), "EUR");
    assert_eq!(currency("1"), "MEANSX31");
    assert_eq!(currency("MEANSX31"), "MEANSX4D45414E53583331");
}

#[test]
fn labels_keep_ascii_letters_and_digits() {
    assert_eq!(label("Assets:Caf\u{e9} 1"), "Assets-Caf--1");
}
