use means_core::accounts::{path_index, update_account, AccountUpdate};
use means_core::audit::{history, AuditRow};
use means_core::budgets::{month_range, progress, Budget};
use means_core::cross_source::{rematch, SourcedLine, Sources};
use means_core::currency_migration::{check_balanced, convert_entries, historical, rate_after, Migration};
use means_core::date::{add_months, iso, parse_date, Date};
use means_core::documents::token_of_text;
use means_core::entities::normalize_code;
use means_core::error::Error;
use means_core::export::beancount;
use means_core::hashchain::VerifyReport;
use means_core::imports::pipeline::Import;
use means_core::imports::rollback::{delete_import, Records, Undo};
use means_core::ledger::{general_ledger_ordered, reconciliation, LedgerQuery};
use means_core::listing::{is_like, list_entries, list_lines, suggest_account, EntryFilter};
use means_core::matcher::{best_match, candidates, looks_like_transfer};
use means_core::model::{Account, AccountType, Commodity, Entity, EntryStatus, JournalEntry, Posting, Price, Rule, RuleCondition, StatementLine};
use means_core::money::{parse, Money};
use means_core::order::{sorted, Key};
use means_core::payees::{backfill, backfill_links, confirm, explicit, normalize, reassign, resolve, save, Change, Payee};
use means_core::previews::{confirm_backfill, confirm_reassign, confirm_save, is_new};
use means_core::refunds::{link, original_bank, refunded};
use means_core::rules::{first_match, save_rule};
use means_core::splits::{resolve as resolve_legs, Leg};

fn date(s: &str) -> Date {
    parse_date(s).unwrap()
}

fn eur(minor: i64) -> Money {
    Money::from_minor(minor, "EUR", 2).unwrap()
}

fn account(id: i64, account_type: AccountType) -> Account {
    Account {
        id,
        uid: format!("account-{id}"),
        entity_id: 1,
        parent_id: None,
        code: String::new(),
        name: format!("Account {id}"),
        path: format!("Account {id}"),
        depth: 0,
        account_type,
        subtype: String::new(),
        commodity_id: 1,
        commodity: "EUR".into(),
        precision: 2,
        system_role: String::new(),
        placeholder: false,
        in_net_worth: true,
        credit_limit: None,
        statement_day: None,
        due_day: None,
        external_ids: "{}".into(),
        notes: String::new(),
        position: 0,
        closed_at: None,
        class: String::new(),
    }
}

fn posting(id: i64, entry: i64, account_id: i64, account_type: AccountType, minor: i64) -> Posting {
    Posting {
        id,
        uid: format!("posting-{id}"),
        journal_entry_id: entry,
        account_id,
        account_path: String::new(),
        account_type,
        quantity: eur(minor),
        amount: eur(minor),
        rate: None,
        rate_source: String::new(),
        memo: String::new(),
        metadata: vec![],
        external_id: None,
        fingerprint: None,
        reconciled_at: None,
        position: 0,
    }
}

/// An expense of so much on a day, paid from account 1 to account 2.
fn expense(id: i64, on: &str, minor: i64) -> JournalEntry {
    JournalEntry {
        id,
        uid: format!("entry-{id}"),
        entity_id: 1,
        date: date(on),
        payee: "Cafe".into(),
        payee_id: None,
        display_payee: "Cafe".into(),
        description: String::new(),
        notes: String::new(),
        status: EntryStatus::Posted,
        reverses_id: None,
        reversed_by_id: None,
        refund_of_id: None,
        counterpart_id: None,
        template_id: None,
        template_version: None,
        origin: "manual".into(),
        posted_at: None,
        created_at: String::new(),
        seq: None,
        hash: None,
        postings: vec![posting(id * 10, id, 1, AccountType::Asset, -minor), posting(id * 10 + 1, id, 2, AccountType::Expense, minor)],
        statement_line_id: None,
        tags: vec![],
        reviewed_at: None,
    }
}

fn line(description: &str, minor: i64) -> StatementLine {
    StatementLine {
        id: 1,
        import_id: 1,
        account_id: Some(1),
        position: 0,
        raw: vec![],
        date: Some(date("2026-01-02")),
        amount: Some(eur(minor)),
        currency: "EUR".into(),
        description: description.into(),
        reference: String::new(),
        balance_after: None,
        fingerprint: String::new(),
        posting_id: None,
        journal_entry_id: None,
        duplicate_of_id: None,
        status: "unmatched".into(),
        note: String::new(),
    }
}

fn rule(id: i64, field: &str, op: &str, value: &str) -> Rule {
    Rule {
        id,
        entity_id: 1,
        name: format!("Rule {id}"),
        position: 0,
        enabled: true,
        conditions: vec![RuleCondition { field: field.into(), op: op.into(), value: value.into() }],
        account_id: Some(2),
        template_id: None,
        payee: String::new(),
        hits_count: 0,
        created_at: String::new(),
        tags: String::new(),
    }
}

fn payee(id: i64, name: &str, aliases: &[&str]) -> Payee {
    Payee { id, uid: format!("payee-{id}"), entity_id: 1, name: name.into(), active: true, aliases: aliases.iter().map(|s| s.to_string()).collect() }
}

fn price(id: i64, commodity: &str, currency: &str, on: &str, value: &str) -> Price {
    Price { id, commodity: commodity.into(), currency: currency.into(), on: date(on), price: parse(value).unwrap(), source: "manual".into() }
}

#[test]
fn rules_read_lines() {
    let l = line("PIX Padaria 42", -1250);
    assert!(means_core::rules::matches(&rule(1, "description", "contains", "padaria"), &l));
    assert!(means_core::rules::matches(&rule(1, "description", "regex", "padaria \\d+$"), &l));
    assert!(!means_core::rules::matches(&rule(1, "description", "regex", "^padaria"), &l));
    assert!(means_core::rules::matches(&rule(1, "description", "starts_with", "pix"), &l));
    assert!(!means_core::rules::matches(&rule(1, "description", "equals", "pix"), &l));
    let mut off = rule(1, "description", "contains", "padaria");
    off.enabled = false;
    assert!(!means_core::rules::matches(&off, &l));
}

#[test]
fn the_first_rule_wins() {
    let l = line("PIX Padaria", -1250);
    let rules = [rule(7, "description", "contains", "uber"), rule(8, "description", "contains", "pix"), rule(9, "description", "contains", "padaria")];
    assert_eq!(first_match(&rules, &l).unwrap().id, 8);
    assert!(first_match(&rules[..1], &l).is_none());
}

#[test]
fn bad_rules_are_refused() {
    let accounts = [account(1, AccountType::Asset), account(2, AccountType::Expense)];
    assert!(save_rule(&rule(1, "description", "contains", "x"), &accounts, 1).is_ok());
    assert!(matches!(save_rule(&rule(1, "colour", "contains", "x"), &accounts, 1), Err(Error::Invalid(m)) if m == "unknown condition field \"colour\""));
    assert!(matches!(save_rule(&rule(1, "description", "is", "x"), &accounts, 1), Err(Error::Invalid(m)) if m == "unknown condition op \"is\""));
    assert!(matches!(save_rule(&rule(1, "description", "regex", "("), &accounts, 1), Err(Error::Invalid(m)) if m.starts_with("bad regex: ")));
    let mut lost = rule(1, "description", "contains", "x");
    lost.account_id = Some(99);
    assert!(matches!(save_rule(&lost, &accounts, 1), Err(Error::NotFound(_))));
}

#[test]
fn payees_are_told_by_name_and_alias() {
    let payees = [payee(1, "Padaria Central", &["PIX PADARIA"]), payee(2, "Uber", &["uber"]), payee(3, "Other", &["UBER"])];
    assert_eq!(normalize("  PADARIA \t Central "), "padaria central");
    assert_eq!(normalize("ÉCLAIR"), "éclair");
    assert_eq!(resolve(&payees, "Pix  Padaria 42"), Some(0));
    assert_eq!(resolve(&payees, "Uber trip"), None, "two payees answer to the text");
    assert_eq!(resolve(&payees, "padaria central"), None, "only an alias is inferred");
    assert_eq!(explicit(&payees, "padaria  CENTRAL"), Some(0));
    assert_eq!(explicit(&payees, "pix padaria"), None);
    assert_eq!(explicit(&payees, " "), None);
}

#[test]
fn a_plan_is_confirmed_by_its_token() {
    let t = token_of_text("plan");
    assert_ne!(t, token_of_text("other plan"));
    assert_eq!(confirm(&t, None).unwrap(), false);
    assert_eq!(confirm(&t, Some(&t)).unwrap(), true);
    assert!(matches!(confirm(&t, Some("stale")), Err(Error::Conflict(_))));
}

#[test]
fn the_last_leg_takes_the_rest() {
    let leg = |id: i64, q: Option<&str>| Leg { account_id: id, quantity: q.map(|s| parse(s).unwrap()), memo: String::new() };
    let v = resolve_legs(parse("10.00").unwrap(), &[leg(1, Some("7.25")), leg(2, None)]).unwrap();
    assert_eq!(v.len(), 2);
    assert_eq!(v[1].quantity.text(), "2.75");
    assert!(resolve_legs(parse("10.00").unwrap(), &[leg(1, None), leg(2, Some("1"))]).is_err());
    assert!(resolve_legs(parse("10.00").unwrap(), &[leg(1, Some("7.25")), leg(2, Some("1"))]).is_err());
}

#[test]
fn the_nearest_posting_matches() {
    let a = account(1, AccountType::Asset);
    let entries = [expense(1, "2026-01-05", 1250), expense(2, "2026-01-03", 1250), expense(3, "2026-01-02", 999), expense(4, "2026-02-02", 1250)];
    let found = candidates(&a, &entries, &[], eur(-1250), date("2026-01-02"), 5).unwrap();
    assert_eq!(found.iter().map(|c| c.posting_id).collect::<Vec<_>>(), [20, 10]);
    assert_eq!(found[0].days_off, 1);
    assert_eq!(best_match(&a, &entries, &[], eur(-1250), date("2026-01-02"), 5).unwrap(), Some(20));
    assert_eq!(candidates(&a, &entries, &[20], eur(-1250), date("2026-01-02"), 5).unwrap().len(), 1, "an evidenced posting is taken");
    let dollars = Money::from_minor(-1250, "USD", 2).unwrap();
    assert!(candidates(&a, &entries, &[], dollars, date("2026-01-02"), 5).is_err());
    assert!(looks_like_transfer("Transfer to savings"));
    assert!(!looks_like_transfer("Padaria"));
}

#[test]
fn a_budget_adds_up() {
    let accounts = [account(1, AccountType::Asset), account(2, AccountType::Expense)];
    let b = Budget {
        id: 1,
        entity_id: 1,
        name: "Food".into(),
        scope: "category".into(),
        account_id: Some(2),
        class: None,
        tag: None,
        starts_on: date("2026-01-01"),
        ends_on: date("2026-01-31"),
        limit: eur(5000),
    };
    let entries = [expense(1, "2026-01-05", 1250), expense(2, "2026-01-31", 750), expense(3, "2026-02-01", 4000)];
    let p = progress(&b, &accounts, &entries).unwrap();
    assert_eq!(p.spent.minor(), 2000);
    assert_eq!(p.remaining.minor(), 3000);
    assert_eq!(p.spent.checked_add(p.remaining).unwrap().minor(), b.limit.minor());
    assert_eq!(month_range(date("2024-02-10")), (date("2024-02-01"), date("2024-02-29")));
}

#[test]
fn refunds_find_their_expense() {
    let bank = account(1, AccountType::Asset);
    let e = expense(1, "2026-01-05", 1250);
    assert_eq!(original_bank(&e, &bank, eur(1250), date("2026-01-06"), false).unwrap(), 0);
    assert!(original_bank(&e, &bank, eur(1249), date("2026-01-06"), false).is_err());
    assert!(original_bank(&e, &bank, eur(1250), date("2026-01-04"), false).is_err());
    assert!(original_bank(&e, &bank, eur(1250), date("2026-01-06"), true).is_err(), "an expense is refunded once");
    let mut refund = expense(2, "2026-01-06", -1250);
    refund.refund_of_id = Some(1);
    assert!(!refunded(&[expense(1, "2026-01-05", 1250)], 1));
    assert!(refunded(&[refund], 1));
}

#[test]
fn rates_cross_currencies() {
    let prices = [price(1, "USD", "EUR", "2026-01-01", "0.5"), price(2, "EUR", "BRL", "2026-01-01", "6")];
    let currencies: Vec<String> = vec!["BRL".into(), "EUR".into(), "USD".into()];
    assert_eq!(historical(&prices, &currencies, "USD", "EUR", date("2026-01-02")).unwrap().0.text(), "0.5");
    assert_eq!(historical(&prices, &currencies, "EUR", "USD", date("2026-01-02")).unwrap().0.normalize().text(), "2");
    assert_eq!(historical(&prices, &currencies, "USD", "BRL", date("2026-01-02")).unwrap().0.normalize().text(), "3");
    assert!(historical(&prices, &currencies, "USD", "JPY", date("2026-01-02")).is_err());
    assert!(check_balanced(1, &[5, -3, -2]).is_ok());
    assert!(check_balanced(1, &[5, -3]).is_err());
    assert_eq!(rate_after(&eur(600), &eur(300)).unwrap().unwrap().normalize().text(), "2");
    assert!(rate_after(&eur(600), &eur(0)).unwrap().is_none());
}

#[test]
fn history_is_of_one_row() {
    let row = |id: i64, table: &str, row_id: i64| AuditRow { id, at: String::new(), table_name: table.into(), row_id, action: "update".into(), before: None, after: None };
    let log = [row(1, "entries", 5), row(2, "rules", 5), row(3, "entries", 6), row(4, "entries", 5)];
    let mut ids: Vec<i64> = history(&log, "entries", 5).iter().map(|a| a.id).collect();
    ids.sort();
    assert_eq!(ids, [1, 4]);
}

#[test]
fn months_end_where_they_end() {
    assert_eq!(iso(add_months(date("2026-01-31"), 1).unwrap()), "2026-02-28");
    assert_eq!(iso(add_months(date("2026-03-31"), -1).unwrap()), "2026-02-28");
    assert!(add_months(date("2026-01-31"), 1 << 100).is_none());
    assert!(Date::new(2026, 2, 29).is_none());
    assert_eq!(date("2024-03-01").days_since(date("2024-02-28")), 2);
}

#[test]
fn equal_keys_keep_their_places() {
    let k = |first: i128, text: &str| Key { first, second: 0, text: text.into() };
    assert_eq!(sorted(&[k(2, "a"), k(1, "b"), k(2, "a"), k(1, "a")]), [3, 1, 0, 2]);
}

fn entity() -> Entity {
    Entity {
        id: 1,
        uid: "entity-1".into(),
        name: "Me".into(),
        kind: "person".into(),
        country: "PT".into(),
        currency: "EUR".into(),
        lock_date: None,
        archived_at: None,
        created_at: String::new(),
    }
}

fn euro() -> Commodity {
    Commodity { id: 1, code: "EUR".into(), kind: "currency".into(), name: "Euro".into(), precision: 2, isin: String::new() }
}

#[test]
fn names_of_types_and_statuses_read_back() {
    for t in [AccountType::Asset, AccountType::Liability, AccountType::Equity, AccountType::Income, AccountType::Expense] {
        assert_eq!(AccountType::parse(t.as_str()).unwrap(), t);
    }
    for s in [EntryStatus::Draft, EntryStatus::Posted, EntryStatus::Void] {
        assert_eq!(EntryStatus::parse(s.as_str()).unwrap(), s);
    }
    assert!(AccountType::parse("bank").is_err());
    assert_eq!(normalize_code(&normalize_code(" eur ").unwrap()).unwrap(), "EUR");
}

#[test]
fn drafts_are_not_exported() {
    let accounts = [account(1, AccountType::Asset), account(2, AccountType::Expense)];
    let mut draft = expense(2, "2026-01-06", 900);
    draft.status = EntryStatus::Draft;
    let posted = beancount(&[entity()], &accounts, &[expense(1, "2026-01-05", 1250)]).unwrap();
    let both = beancount(&[entity()], &accounts, &[expense(1, "2026-01-05", 1250), draft]).unwrap();
    assert_eq!(posted, both);
    assert!(posted.contains("12.5"));
}

#[test]
fn a_newest_first_ledger_closes_at_the_whole_balance() {
    let accounts = [account(1, AccountType::Asset), account(2, AccountType::Expense)];
    let entries = [expense(1, "2026-01-05", 1250), expense(2, "2026-01-06", 750), expense(3, "2026-02-01", 100)];
    let index = path_index(&accounts);
    let mut q = LedgerQuery { account_id: 1, from: None, to: None, limit: 1, include_drafts: false, newest_first: true };
    let l = general_ledger_ordered(&accounts, &[entity()], &[euro()], &index, &[], &entries, &q).unwrap();
    assert_eq!(l.rows.len(), 1);
    assert_eq!(l.closing_balance.minor(), -2100);
    q.to = Some(date("2026-01-31"));
    let l = general_ledger_ordered(&accounts, &[entity()], &[euro()], &index, &[], &entries, &q).unwrap();
    assert_eq!(l.closing_balance.minor(), -2000);
}

#[test]
fn converted_entries_balance() {
    let prices = [price(1, "EUR", "USD", "2026-01-01", "1.1")];
    let currencies: Vec<String> = vec!["EUR".into(), "USD".into()];
    let m = Migration { prices: &prices, currencies: &currencies, from: "EUR", to: "USD", precision: 2 };
    let mut split = expense(1, "2026-01-05", 1001);
    split.postings[1] = posting(11, 1, 2, AccountType::Expense, 500);
    split.postings.push(posting(12, 1, 2, AccountType::Expense, 501));
    let changes = convert_entries(&m, &[split, expense(2, "2026-01-06", 100)]).unwrap();
    assert_eq!(changes.len(), 2);
    for c in &changes {
        let sum: i64 = c.postings.iter().map(|p| p.after.minor()).sum();
        assert_eq!(sum + c.fx_adjustment.minor(), 0);
        assert!(c.postings.iter().all(|p| p.after.commodity() == "USD"));
    }
    assert_eq!(changes[1].postings[0].after.minor(), -110);
    assert!(convert_entries(&m, &[expense(3, "2025-12-31", 100)]).is_err(), "there is no rate before the first price");
}

#[test]
fn a_refund_restores_the_bank() {
    let accounts = [account(1, AccountType::Asset), account(2, AccountType::Expense)];
    let e = expense(1, "2026-01-01", 1250);
    let l = line("Refund Cafe", 1250);
    let x = link(&l, &accounts, &[entity()], &[], &e, false, &None).unwrap();
    assert_eq!(x.postings[0].account_id, 1);
    assert_eq!(x.postings[0].quantity.text(), "12.5");
    assert_eq!(x.postings[1].quantity.text(), "-12.5");
    assert!(link(&l, &accounts, &[entity()], &[], &e, true, &None).is_err());
    assert!(link(&line("x", -1250), &accounts, &[entity()], &[], &e, false, &None).is_err());
}

#[test]
fn a_rollback_spares_locked_periods() {
    let mut own = line("Cafe", -1250);
    own.status = "created".into();
    own.journal_entry_id = Some(1);
    let entries = [expense(1, "2026-01-05", 1250)];
    let all = [SourcedLine { source: "n26".into(), line: own.clone() }];
    let open = [entity()];
    let w = Records { import_id: 1, lines: &all, entries: &entries, entities: &open, log: &[], force: false };
    let steps = delete_import(&w, &[own.clone()]).unwrap();
    assert!(matches!(steps[0], Undo::Remove { entry_id: 1, .. }));
    let mut shut = [entity()];
    shut[0].lock_date = Some(date("2026-01-31"));
    let w = Records { import_id: 1, lines: &all, entries: &entries, entities: &shut, log: &[], force: true };
    assert!(matches!(delete_import(&w, &[own]), Err(Error::Locked(_))));
}

fn filter() -> EntryFilter {
    EntryFilter { entity_id: None, account_id: None, status: None, from: None, to: None, query: String::new(), origin: String::new(), only_unreviewed: false, limit: 0, offset: 0 }
}

#[test]
fn patterns_hold_wildcards() {
    assert!(is_like("%CAF_%", "the cafe"));
    assert!(!is_like("caf_", "the cafe"));
    assert!(is_like("%", ""));
    assert!(!is_like("_", ""));
    assert!(!is_like("%\u{c9}%", "\u{e9}"), "only ASCII letters agree in any case");
}

#[test]
fn entries_are_listed_newest_first() {
    let mut entries = [expense(1, "2026-01-05", 1250), expense(2, "2026-01-07", 750), expense(3, "2026-01-05", 100)];
    entries[1].payee = "Padaria".into();
    entries[1].display_payee = "Padaria".into();
    entries[2].tags = vec!["trip:lisbon".into()];
    assert_eq!(list_entries(&entries, &filter()), (vec![1, 2, 0], 3));
    assert_eq!(list_entries(&entries, &EntryFilter { limit: 1, offset: 1, ..filter() }), (vec![2], 3));
    assert_eq!(list_entries(&entries, &EntryFilter { offset: 9, ..filter() }), (vec![], 3));
    assert_eq!(list_entries(&entries, &EntryFilter { query: " PADA ".into(), ..filter() }), (vec![1], 1));
    assert_eq!(list_entries(&entries, &EntryFilter { query: "trip".into(), ..filter() }), (vec![2], 1));
    assert_eq!(list_entries(&entries, &EntryFilter { account_id: Some(9), ..filter() }), (vec![], 0));
    assert_eq!(list_entries(&entries, &EntryFilter { to: Some(date("2026-01-05")), status: Some(EntryStatus::Posted), ..filter() }), (vec![2, 0], 2));
    entries[0].reviewed_at = Some("2026-01-08".into());
    assert_eq!(list_entries(&entries, &EntryFilter { only_unreviewed: true, ..filter() }).1, 2);
}

#[test]
fn the_usual_category_is_suggested() {
    let accounts = [account(1, AccountType::Asset), account(2, AccountType::Expense), account(3, AccountType::Expense)];
    let mut other = expense(3, "2026-01-07", 100);
    other.postings[1].account_id = 3;
    let entries = [expense(1, "2026-01-05", 1250), expense(2, "2026-01-06", 750), other];
    assert_eq!(suggest_account(&accounts, &entries, 1, 1, "12 CAFE Lisboa"), Some(2));
    assert_eq!(suggest_account(&accounts, &entries, 1, 1, "1234 ab"), None, "no word says what it is for");
    assert_eq!(suggest_account(&accounts, &entries, 1, 1, "Padaria"), None);
}

#[test]
fn a_ledger_reads_the_same_from_both_ends() {
    let accounts = [account(1, AccountType::Asset), account(2, AccountType::Expense)];
    let mut draft = expense(4, "2026-01-07", 55);
    draft.status = EntryStatus::Draft;
    let entries = [expense(1, "2026-01-05", 1250), expense(2, "2026-01-06", 750), expense(3, "2026-02-01", 100), draft];
    let index = path_index(&accounts);
    let q = |newest_first| LedgerQuery { account_id: 1, from: Some(date("2026-01-06")), to: None, limit: 0, include_drafts: true, newest_first };
    let read = |q| general_ledger_ordered(&accounts, &[entity()], &[euro()], &index, &[], &entries, &q).unwrap();
    let (oldest, newest) = (read(q(false)), read(q(true)));
    assert_eq!(oldest.opening_balance.minor(), -1250);
    assert_eq!(newest.opening_balance.minor(), -1250);
    assert_eq!((oldest.closing_balance.minor(), newest.closing_balance.minor()), (-2100, -2100));
    let seen = |l: &means_core::ledger::Ledger| l.rows.iter().map(|r| (r.posting_id, r.running_balance.minor())).collect::<Vec<_>>();
    assert_eq!(seen(&oldest), [(20, -2000), (40, -2000), (30, -2100)], "a draft moves nothing");
    let mut back = seen(&newest);
    back.reverse();
    assert_eq!(back, seen(&oldest));
}

fn import(id: i64, source: &str) -> Import {
    Import {
        id,
        uid: format!("import-{id}"),
        source: source.into(),
        account_id: Some(1),
        filename: String::new(),
        checksum: String::new(),
        status: "done".into(),
        period_from: None,
        period_to: None,
        opening_balance: None,
        closing_balance: None,
        lines_count: 0,
        created_count: 0,
        matched_count: 0,
        duplicate_count: 0,
        skipped_count: 0,
        unmatched_count: 0,
        error_count: 0,
        error: String::new(),
        options: "{}".into(),
        created_at: "2026-02-01T00:00:00.000Z".into(),
    }
}

fn bank_line(id: i64, import_id: i64, on: &str, minor: i64) -> StatementLine {
    let mut l = line("Cafe", minor);
    l.id = id;
    l.import_id = import_id;
    l.date = Some(date(on));
    l
}

#[test]
fn an_account_stands_against_its_last_statement() {
    let accounts = [account(1, AccountType::Asset), account(2, AccountType::Expense)];
    let mut entries = [expense(1, "2026-01-05", 1250), expense(2, "2026-01-06", 750), expense(3, "2026-02-03", 100)];
    entries[0].postings[0].reconciled_at = Some("2026-01-31".into());
    let (mut old, mut last) = (import(1, "n26_csv"), import(2, "n26_csv"));
    old.period_to = Some(date("2025-12-31"));
    old.closing_balance = Some(parse("0").unwrap());
    last.period_to = Some(date("2026-01-31"));
    last.closing_balance = Some(parse("-21.00").unwrap());
    last.options = r#"{"closing_date":"2026-01-31","mapping":null}"#.into();
    let mut matched = bank_line(5, 2, "2026-01-05", -1250);
    matched.status = "matched".into();
    let lines = [matched, bank_line(6, 2, "2026-01-06", -100)];
    let index = path_index(&accounts);
    let r = reconciliation(&accounts, &[entity()], &[euro()], &index, &[], &entries, &[old, last], &lines, 1).unwrap();
    assert_eq!(r.statement_date, Some(date("2026-01-31")));
    assert_eq!(r.statement_balance.unwrap().text(), "-21.00");
    assert_eq!(r.ledger_balance.text(), "-20", "the entry after the statement does not count");
    assert_eq!(r.difference.unwrap().text(), "-1.00");
    assert_eq!(r.unmatched_lines, [1]);
    assert_eq!(r.unreconciled.iter().map(|x| x.journal_entry_id).collect::<Vec<_>>(), [2]);
    assert_eq!(list_lines(&lines, Some(1), "", None, 0).len(), 2);
    assert!(list_lines(&lines, Some(9), "", None, 0).is_empty());
}

#[test]
fn two_bank_sources_share_a_movement_under_a_token() {
    let accounts = [account(1, AccountType::Asset), account(2, AccountType::Expense)];
    let entries = [expense(1, "2026-01-05", 1250)];
    let mut held = bank_line(1, 1, "2026-01-05", -1250);
    held.status = "created".into();
    held.posting_id = Some(10);
    held.journal_entry_id = Some(1);
    let incoming = bank_line(2, 2, "2026-01-06", -1250);
    let other = bank_line(3, 2, "2026-01-07", -1250);
    let sourced = |l: &StatementLine, source: &str| SourcedLine { source: source.into(), line: l.clone() };
    let all = [sourced(&held, "wise_csv"), sourced(&incoming, "inter_ofx")];
    let owners = [entity()];
    let s = Sources { accounts: &accounts, entities: &owners, entries: &entries, lines: &all, log: &[] };
    let own = [incoming.clone()];
    let shown = rematch(&s, &import(2, "inter_ofx"), &own, None).unwrap();
    assert_eq!(shown.matches.len(), 1);
    assert_eq!((shown.matches[0].posting_id, shown.matches[0].kept_entry_id, shown.matches[0].days_apart), (10, 1, 1));
    assert!(!shown.applied);
    assert!(rematch(&s, &import(2, "inter_ofx"), &own, Some(&shown.token)).unwrap().applied);
    assert!(matches!(rematch(&s, &import(2, "inter_ofx"), &own, Some("old")), Err(Error::Conflict(_))));
    let mut renamed = entries.clone();
    renamed[0].payee = "Other".into();
    let s2 = Sources { accounts: &accounts, entities: &owners, entries: &renamed, lines: &all, log: &[] };
    assert!(matches!(rematch(&s2, &import(2, "inter_ofx"), &own, Some(&shown.token)), Err(Error::Conflict(_))), "the kept entry changed");
    let both = rematch(&s, &import(2, "inter_ofx"), &[incoming.clone(), other], None).unwrap();
    assert!(both.matches.is_empty(), "a posting that two lines claim is left");
    assert_eq!(both.notes.len(), 2);
    assert!(matches!(rematch(&s, &import(2, "account_tracker"), &own, None), Err(Error::Invalid(_))));
}

#[test]
fn a_payee_changes_under_the_token_of_its_preview() {
    let before = vec![payee(1, "Cafe Central", &["CAFE CENTRAL"]), payee(2, "Uber", &["uber"])];
    let change = |name: &str| Change { id: 2, entity_id: 1, name: name.into(), active: true, aliases: vec!["uber".into()] };
    let lines = [line("UBER TRIP", -900)];
    let rules = [rule(1, "payee", "contains", "uber")];
    let plan = |c: &Change| save(&before, Some(&before[1]), c, &rules, &[], &lines, 3).unwrap();
    let shown = confirm_save(&before, plan(&change("Uber BV")), &rules, None).unwrap();
    assert!(!shown.applied);
    assert!(shown.warnings.last().unwrap().starts_with("3 linked entries"));
    assert!(is_new(Some(&before[1]), shown.payee.as_ref().unwrap()));
    let kept = confirm_save(&before, plan(&change("Uber BV")), &rules, Some(&shown.token)).unwrap();
    assert!(kept.applied);
    assert_eq!(kept.payee.unwrap().name, "Uber BV");
    assert!(matches!(confirm_save(&before, plan(&change("Uber NV")), &rules, Some(&shown.token)), Err(Error::Conflict(_))));
    assert!(matches!(confirm_save(&before, plan(&change("Uber BV")), &[], Some(&shown.token)), Err(Error::Conflict(_))), "the rules count");
    let same = confirm_save(&before, plan(&change("Uber")), &rules, None).unwrap();
    assert!(!is_new(Some(&before[1]), same.payee.as_ref().unwrap()), "nothing to write");
}

#[test]
fn entries_move_to_another_payee_under_a_token() {
    let before = vec![payee(1, "Cafe", &["cafe"]), payee(2, "Cafe Central", &["central"])];
    let moved = [expense(7, "2026-01-05", 1250)];
    let plan = || reassign(&before, &before[1], Some(&before[0]), None, &moved, &[], &moved, &[]).unwrap();
    let shown = confirm_reassign(Some(&before[0]), &before[1], &moved, &before, plan(), &[], None).unwrap();
    assert_eq!(shown.payee.as_ref().unwrap().aliases, ["cafe", "central"]);
    assert!(confirm_reassign(Some(&before[0]), &before[1], &moved, &before, plan(), &[], Some(&shown.token)).unwrap().applied);
    let mut later = moved.clone();
    later[0].notes = "x".into();
    assert!(matches!(confirm_reassign(Some(&before[0]), &before[1], &later, &before, plan(), &[], Some(&shown.token)), Err(Error::Conflict(_))));
}

#[test]
fn history_is_linked_under_a_token() {
    let payees = vec![payee(1, "Cafe", &["cafe"])];
    let entries = [expense(7, "2026-01-05", 1250)];
    let mut l = line("CAFE 12", -1250);
    l.status = "created".into();
    l.journal_entry_id = Some(7);
    let report = VerifyReport { entity_id: 1, checked: 1, head: None, first_bad_seq: None, first_bad_entry_id: None };
    let found = || backfill(&payees, &entries, &[l.clone()], 1, false).unwrap();
    let shown = confirm_backfill(1, &payees, found(), &entries, &report, &[], None).unwrap();
    assert_eq!(backfill_links(&shown.impacts, true).unwrap(), [(7, 1)]);
    assert!(confirm_backfill(1, &payees, found(), &entries, &report, &[], Some(&shown.token)).unwrap().applied);
    let longer = VerifyReport { checked: 2, ..report };
    assert!(matches!(confirm_backfill(1, &payees, found(), &entries, &longer, &[], Some(&shown.token)), Err(Error::Conflict(_))));
}

#[test]
fn normal_names_stay_as_they_are() {
    for s in ["  PADARIA \t Central ", "a\u{a0}b", "", " \n ", "Uber  BV", "ÉCLAIR  Paris"] {
        let n = normalize(s);
        assert_eq!(normalize(&n), n);
        assert_eq!(normalize(&format!(" {s}\t")), n);
        assert!(!n.starts_with(' ') && !n.ends_with(' ') && !n.contains("  ") && !n.contains('\t'));
    }
    assert_eq!(normalize("Uber \t BV"), normalize("uber bv"));
}

#[test]
fn an_update_changes_what_it_names() {
    let mut a = account(1, AccountType::Asset);
    a.external_ids = r#"{"pluggy":["x",1]}"#.into();
    let chart = [a.clone()];
    let same = update_account(&chart, &a, &AccountUpdate::none(), 0).unwrap();
    assert_eq!(same.external_ids, a.external_ids);
    assert_eq!((same.name, same.commodity), (a.name.clone(), a.commodity.clone()));
    let upd = AccountUpdate { external_ids: Some(r#"{"wise":7}"#.into()), name: Some(" Main ".into()), ..AccountUpdate::none() };
    let changed = update_account(&chart, &a, &upd, 0).unwrap();
    assert_eq!(changed.external_ids, r#"{"wise":7}"#);
    assert_eq!(changed.name, "Main");
    let bad = AccountUpdate { parent_id: Some(Some(1)), ..AccountUpdate::none() };
    assert!(matches!(update_account(&chart, &a, &bad, 0), Err(Error::Invalid(m)) if m == "an account cannot be its own parent"));
}
