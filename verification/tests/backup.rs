use std::cell::RefCell;

use means_core::date::{parse_date, Date};
use means_core::error::Error;
use means_core::imports::account_tracker::archive::{export_day, parse};
use means_core::imports::account_tracker::booking::{check_account, check_new, choose_account, external_id, mismatch_warning, open_account, plan, PlannedLine};
use means_core::imports::account_tracker::inspection::{inspect, pence_to_decimal};
use means_core::imports::account_tracker::reimport::{check_content, import_transactions, Halted, Run};
use means_core::imports::account_tracker::simulation::best_side;
use means_core::imports::account_tracker::unfolding::{unfold, unfold_node, Node};
use means_core::imports::pipeline::Import;
use means_core::imports::statement::checksum;
use plist::{Dictionary, Uid, Value};

fn date(s: &str) -> Date {
    parse_date(s).unwrap()
}

const DOCUMENT: &str = r#"{"code":"EUR","timezone":"Europe/Lisbon","groups":[{"name":"Bank"}],
  "rates":{"usd":{"__real":"1.1","__shown":"1.1","__rounded":1,"__whole":1}},
  "accounts":[{"id":1,"name":"Current","code":"eur","group":0,"opening":1000,"balance":750}],
  "transactions":[
    {"id":{"__real":"2.0","__shown":"2","__rounded":2,"__whole":2},"date":{"__date":"2026-01-05"},"pence":300,"from":1,"to":0,"category":"Food","details":"Cafe","__raw":{"id":2.0,"pence":300}},
    {"id":1,"date":{"__date":"2026-01-02"},"pence":50,"from":0,"to":1,"category":"Gift","details":"","__raw":{"id":1}},
    {"id":3,"pence":9}]}"#;

#[test]
fn documents_are_read_in_order() {
    let b = parse(DOCUMENT, date("2026-02-01")).unwrap();
    assert_eq!(b.base_currency, "EUR");
    assert_eq!(b.groups, ["Bank"]);
    assert_eq!(b.rates, [("USD".to_string(), "1.1".to_string())]);
    assert_eq!(b.accounts[0].code, "EUR");
    assert_eq!(b.transactions.iter().map(|t| t.id.as_str()).collect::<Vec<_>>(), ["1", "2"], "by date; one without a date is left out");
    assert_eq!(b.transactions[1].category, "Food");
    assert!(matches!(parse("[]", date("2026-02-01")), Err(Error::Parse(_))));
}

#[test]
fn backups_are_inspected() {
    let b = parse(DOCUMENT, date("2026-02-01")).unwrap();
    let i = inspect(&b).unwrap();
    assert_eq!(i.transactions, 2);
    assert_eq!(i.first_date, Some(date("2026-01-02")));
    assert_eq!(i.last_date, Some(date("2026-01-05")));
    assert_eq!(i.accounts[0].balance.text(), "7.50");
    assert_eq!(i.accounts[0].transactions, 2);
    assert_eq!(i.balance_mismatches, 0, "1000 + 50 - 300 is 750");
    let (_, misses, _) = best_side(&b).unwrap();
    assert_eq!(misses, 0);
}

#[test]
fn a_backup_is_booked_once() {
    assert!(check_new(None).is_ok());
    assert!(check_new(Some(4)).is_err());
    assert!(mismatch_warning(0, 0).is_none());
    let b = parse(DOCUMENT, date("2026-02-01")).unwrap();
    assert_eq!(external_id(&b.transactions[0], 1), "at:1", "one that does not repeat has no number");
    assert!(check_account(&b.accounts[0], pence_to_decimal(750)).ok);
    assert!(!check_account(&b.accounts[0], pence_to_decimal(751)).ok);
}

#[test]
fn accounts_remember_where_they_came_from() {
    let b = parse(DOCUMENT, date("2026-02-01")).unwrap();
    let choice = choose_account(&b.accounts[0], &b.groups, &[], 3).unwrap().unwrap();
    let input = open_account(&b.accounts[0], &choice, 9);
    assert_eq!(input.external_ids, r#"{"account_tracker":"1"}"#);
    assert_eq!((input.entity_id, input.parent_id, input.commodity.as_str()), (3, Some(9), "EUR"));
}

#[test]
fn planned_lines_are_numbered() {
    let b = parse(DOCUMENT, date("2026-02-01")).unwrap();
    let lines = plan(&b, &[1], true).unwrap();
    assert_eq!(lines.iter().map(|l| (l.transaction, l.position, l.pence)).collect::<Vec<_>>(), [(0, 1, 50), (1, 2, 300)]);
    assert!(plan(&b, &[], true).unwrap().is_empty(), "an account that is skipped books nothing");
}

#[test]
fn importing_again_adds_only_what_is_new() {
    let b = parse(DOCUMENT, date("2026-02-01")).unwrap();
    let lines = plan(&b, &[1], true).unwrap();
    let mut run = Run::new(vec!["at:1".into(), "bank:7".into()]);
    let booked: Vec<bool> = lines
        .iter()
        .map(|l| {
            let new = run.take(l);
            if new {
                run.keep(l);
            }
            new
        })
        .collect();
    assert_eq!(booked, [false, true]);
    assert_eq!((run.created, run.skipped_existing), (1, 1));
    let mut again = Run::new(run.known);
    assert!(lines.iter().all(|l| !again.take(l)), "everything is known now");
    assert_eq!((again.created, again.skipped_existing), (0, 2));
    assert!(matches!(check_new(Some(4)), Err(Error::Conflict(m)) if m == "this backup was already imported (import #4)"));
}

#[test]
fn imports_in_turn_create_what_is_new() {
    let b = parse(DOCUMENT, date("2026-02-01")).unwrap();
    let seen = RefCell::new(Vec::new());
    let book = |line: &PlannedLine, new: bool| -> Result<bool, String> {
        seen.borrow_mut().push((line.external_id.clone(), new));
        Ok(true)
    };
    let Ok(first) = import_transactions(&b, &[1], true, vec!["at:1".into()], book) else { panic!("planned and booked") };
    assert_eq!((first.created, first.skipped_existing), (1, 1));
    assert_eq!(seen.borrow().iter().map(|(_, new)| *new).collect::<Vec<_>>(), [false, true]);
    let Ok(second) = import_transactions(&b, &[1], true, first.known, book) else { panic!("planned and booked") };
    assert_eq!((second.created, second.skipped_existing), (0, 2));
}

#[test]
fn a_line_the_books_refuse_is_tried_again() {
    let b = parse(DOCUMENT, date("2026-02-01")).unwrap();
    let Ok(first) = import_transactions(&b, &[1], true, Vec::new(), |_, _| Ok::<bool, String>(false)) else { panic!("planned") };
    assert_eq!((first.created, first.skipped_existing, first.known.len()), (2, 0, 0));
    let Ok(second) = import_transactions(&b, &[1], true, first.known, |_, _| Ok::<bool, String>(true)) else { panic!("planned") };
    assert_eq!((second.created, second.skipped_existing, second.known.len()), (2, 0, 2));
}

#[test]
fn a_run_stops_where_a_line_fails() {
    let b = parse(DOCUMENT, date("2026-02-01")).unwrap();
    let calls = RefCell::new(0);
    let fail = |_: &PlannedLine, _: bool| -> Result<bool, String> {
        *calls.borrow_mut() += 1;
        Err("disk full".into())
    };
    assert!(matches!(import_transactions(&b, &[1], true, Vec::new(), fail), Err(Halted::Failed(m)) if m == "disk full"));
    assert_eq!(*calls.borrow(), 1);
}

fn recorded(id: i64, source: &str, content: &[u8]) -> Import {
    Import {
        id,
        uid: String::new(),
        source: source.into(),
        account_id: None,
        filename: String::new(),
        checksum: checksum(content),
        status: "done".into(),
        period_from: None,
        period_to: None,
        opening_balance: None,
        closing_balance: None,
        lines_count: 0,
        created_count: 0,
        matched_count: 0,
        duplicate_count: 0,
        skipped_count: 0,
        unmatched_count: 0,
        error_count: 0,
        error: String::new(),
        options: "{}".into(),
        created_at: String::new(),
    }
}

#[test]
fn the_same_content_is_imported_once() {
    let imports = [recorded(1, "csv", b"backup"), recorded(2, "account_tracker", b"other"), recorded(3, "account_tracker", b"backup")];
    assert!(matches!(check_content(&imports, b"backup"), Err(Error::Conflict(m)) if m == "this backup was already imported (import #3)"));
    assert!(check_content(&imports, b"newer").is_ok());
    assert!(check_content(&imports[..2], b"backup").is_ok(), "another source does not count");
}

#[test]
fn the_export_day_is_the_best_known() {
    let (a, b, c) = (date("2026-01-01"), date("2026-01-02"), date("2026-01-03"));
    assert_eq!(export_day(Some(a), Some(b), c), a);
    assert_eq!(export_day(None, Some(b), c), b);
    assert_eq!(export_day(None, None, c), c);
}

fn object(members: Vec<(&str, Value)>) -> Value {
    let mut d = Dictionary::new();
    for (k, v) in members {
        d.insert(k.to_string(), v);
    }
    Value::Dictionary(d)
}

fn at(n: u64) -> Value {
    Value::Uid(Uid::new(n))
}

fn class(name: &str) -> Value {
    object(vec![("$classname", Value::String(name.into()))])
}

fn archive(objects: Vec<Value>) -> Vec<u8> {
    let value = object(vec![("$objects", Value::Array(objects)), ("$top", object(vec![("root", at(1))]))]);
    let mut out = Vec::new();
    value.to_writer_binary(&mut out).unwrap();
    out
}

#[test]
fn archives_are_unfolded_from_their_root() {
    let bytes = archive(vec![
        Value::String("$null".into()),
        object(vec![
            ("$class", at(2)),
            ("code", at(3)),
            ("created", at(4)),
            ("list", at(6)),
            ("flag", Value::Boolean(true)),
            ("count", Value::Integer(7.into())),
            ("rate", Value::Real(1.5)),
            ("gone", at(99)),
        ]),
        class("Root"),
        Value::String("EUR".into()),
        object(vec![("$class", at(5)), ("NS.time", Value::Real(2.5))]),
        class("NSDate"),
        object(vec![("$class", at(7)), ("NS.objects", Value::Array(vec![at(3), at(8)]))]),
        class("NSArray"),
        object(vec![("$class", at(9)), ("NS.keys", Value::Array(vec![at(3)])), ("NS.objects", Value::Array(vec![at(10)]))]),
        class("NSMutableDictionary"),
        object(vec![("$class", at(11)), ("NS.data", Value::Data(vec![1, 2, 3]))]),
        class("NSData"),
    ]);
    let root: serde_json::Value = serde_json::from_str(&unfold(&bytes).unwrap()).unwrap();
    assert_eq!(root["code"], "EUR");
    assert_eq!(root["created"]["__date"], 2.5);
    assert_eq!(root["list"][0], "EUR");
    assert_eq!(root["list"][1]["EUR"]["__data"], 3);
    assert_eq!(root["flag"], true);
    assert_eq!(root["count"], 7);
    assert_eq!(root["rate"], 1.5);
    assert!(root["gone"].is_null(), "a reference to nothing");
    assert!(root.get("$class").is_none());
}

#[test]
fn an_archive_that_holds_itself_ends() {
    let bytes = archive(vec![Value::String("$null".into()), object(vec![("$class", at(2)), ("me", at(1))]), class("Root")]);
    let text = unfold(&bytes).unwrap();
    assert!(text.starts_with("{\"me\":{\"me\":"));
    assert_eq!(text.matches("\"me\"").count(), 32, "two steps each, up to sixty-four");
}

#[test]
fn what_is_no_backup_is_refused() {
    let refused = |r: Result<String, Error>| match r {
        Err(Error::Parse(m)) => m,
        other => panic!("{other:?}"),
    };
    assert!(refused(unfold(b"no property list")).starts_with("not an Account Tracker backup: "));
    assert_eq!(refused(unfold_node(&Node::List(vec![]))), "backup is not a keyed archive");
    assert_eq!(refused(unfold_node(&Node::Dictionary(vec![]))), "backup has no $objects");
    let objects = || ("$objects".to_string(), Node::List(vec![Node::Text("x".into())]));
    assert_eq!(refused(unfold_node(&Node::Dictionary(vec![objects()]))), "backup has no root");
    assert_eq!(refused(unfold_node(&Node::Dictionary(vec![objects(), ("$top".into(), Node::Dictionary(vec![]))]))), "backup has no root");
    let root = Node::Dictionary(vec![("root".into(), Node::Reference(0))]);
    assert_eq!(unfold_node(&Node::Dictionary(vec![objects(), ("$top".into(), root)])).unwrap(), "\"x\"");
    let xml = b"<?xml version=\"1.0\"?><plist version=\"1.0\"><array/></plist>";
    assert_eq!(refused(unfold(xml)), "backup is not a keyed archive");
}
