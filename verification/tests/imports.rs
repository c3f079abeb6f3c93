use means_core::date::Date;
use means_core::error::Error;
use means_core::imports::account_tracker::recurrence::occurrences;
use means_core::imports::account_tracker::{AtTransaction, Override, Repeat};
use means_core::imports::csvkit::{decode, detect_date_format, detect_decimal_sep, detect_delimiter, find_col, parse_date, parse_number, parse_table};
use means_core::imports::delimited::parse_csv;
use means_core::imports::inbox::{glob_match, glob_of, ignore, learn_profile, resolve_account, ImportProfile, Lesson};
use means_core::imports::pipeline::{closing_date, coverage_warning, detect_source, prepare, warned, ImportRequest};
use means_core::imports::presets::detect;
use means_core::imports::pulling::{booked_from, check_found, choose_items, is_wanted, refresh, settle, status_read, Fetched, Refresh};
use means_core::imports::statement::{checksum, fingerprint, normalize_desc};
use means_core::imports::{bank_api, enable_banking, mercury, ofx, pluggy, CsvMapping};
use means_core::model::{Account, AccountType};
use means_core::money::parse;

fn day(y: i32, m: u32, d: u32) -> Date {
    Date::new(y, m, d).unwrap()
}

fn account(id: i64, account_type: AccountType, commodity: &str) -> Account {
    Account {
        id,
        uid: format!("account-{id}"),
        entity_id: 1,
        parent_id: None,
        code: String::new(),
        name: format!("Account {id}"),
        path: format!("Assets:Account {id}"),
        depth: 1,
        account_type,
        subtype: "bank".into(),
        commodity_id: 1,
        commodity: commodity.into(),
        precision: 2,
        system_role: String::new(),
        placeholder: false,
        in_net_worth: true,
        credit_limit: None,
        statement_day: None,
        due_day: None,
        external_ids: "{}".into(),
        notes: String::new(),
        position: 0,
        closed_at: None,
        class: String::new(),
    }
}

fn profile(id: i64, source: &str, glob: &str, account_id: i64) -> ImportProfile {
    ImportProfile { id, source: source.into(), filename_glob: glob.into(), account_id, hits_count: 1, updated_at: String::new() }
}

#[test]
fn detects_header_after_preamble() {
    let text = "Extrato Conta Corrente\nConta;12345\nPeríodo;01/01/2026 a 31/01/2026\n\nData Lançamento;Histórico;Descrição;Valor;Saldo\n02/01/2026;Pix enviado;Padaria;-34,04;1.234,56\n03/01/2026;Pix recebido;Cliente;1.000,00;2.234,56\n";
    let t = parse_table(text, None, None).unwrap();
    assert_eq!(t.delimiter, ';');
    assert_eq!(t.header_row, 4);
    assert_eq!(t.headers[0], "Data Lançamento");
    assert_eq!(t.rows.len(), 2);
    assert_eq!(detect_date_format(&["02/01/2026", "31/01/2026"]), "%d/%m/%Y");
    assert_eq!(detect_decimal_sep(&["-34,04", "1.234,56"]), ',');
    assert_eq!(parse_number("1.234,56", ',').unwrap().unwrap().text(), "1234.56");
}

#[test]
fn date_formats() {
    assert_eq!(detect_date_format(&["2026-01-02", "2026-01-03"]), "%Y-%m-%d");
    assert_eq!(detect_date_format(&["01/15/2026", "02/03/2026"]), "%m/%d/%Y");
    assert_eq!(detect_date_format(&["2026-01-02 10:11:12"]), "%Y-%m-%d %H:%M");
    assert_eq!(parse_date("2026-01-02 10:11:12", "%Y-%m-%d %H:%M").unwrap(), day(2026, 1, 2));
    assert_eq!(parse_date("2026-01-02T10:11:12Z", "%Y-%m-%d").unwrap(), day(2026, 1, 2));
    assert_eq!(parse_date("15/01/2026", "%d/%m/%Y").unwrap(), day(2026, 1, 15));
}

#[test]
fn globs_from_filenames() {
    assert_eq!(glob_of("n26-csv-transactions-2026-08.csv"), "n26-csv-transactions-*.csv");
    assert_eq!(glob_of("Extrato-01-06-2026-a-30-06-2026.ofx"), "extrato-*-a-*.ofx");
    assert_eq!(glob_of("statement 2026.csv"), "statement *.csv");
    assert_eq!(glob_of("Extrato01234.ofx"), "extrato01234.ofx", "digits inside a word stay");
    assert!(glob_match("n26-csv-transactions-*.csv", "N26-CSV-Transactions-2027-01.CSV"));
    assert!(!glob_match("n26-*.csv", "revolut-2026.csv"));
}

#[test]
fn a_shape_fits_its_own_name() {
    for name in ["n26-csv-transactions-2026-08.csv", "Extrato-01-06-2026-a-30-06-2026.ofx", "a*b (12) 3.csv", "", "2026"] {
        assert!(glob_match(&glob_of(name), name), "{name}");
    }
}

#[test]
fn parses_sgml_ofx() {
    let text = "OFXHEADER:100\nDATA:OFXSGML\n<OFX><BANKMSGSRSV1><STMTTRNRS><STMTRS><CURDEF>BRL<BANKACCTFROM><ACCTID>12345-6</BANKACCTFROM>\n<BANKTRANLIST><DTSTART>20260101<DTEND>20260131\n<STMTTRN><TRNTYPE>DEBIT<DTPOSTED>20260102120000[-3:BRT]<TRNAMT>-34.04<FITID>2026010200001<MEMO>Pix enviado Padaria</STMTTRN>\n<STMTTRN><TRNTYPE>CREDIT<DTPOSTED>20260103<TRNAMT>1000.00<FITID>2026010300002<NAME>Cliente<MEMO>Pix recebido</STMTTRN>\n</BANKTRANLIST><LEDGERBAL><BALAMT>2234.56<DTASOF>20260131</LEDGERBAL></STMTRS></STMTTRNRS></BANKMSGSRSV1></OFX>";
    let out = ofx::parse(text.as_bytes()).unwrap();
    assert_eq!(out.currency, "BRL");
    assert_eq!(out.lines.len(), 2);
    assert_eq!(out.lines[0].amount.unwrap().text(), "-34.04");
    assert_eq!(out.lines[0].date.unwrap(), day(2026, 1, 2));
    assert_eq!(out.lines[0].reference, "2026010200001");
    assert_eq!(out.lines[1].description, "Cliente Pix recebido");
    assert_eq!(out.closing_balance.unwrap().text(), "2234.56");
    assert_eq!(out.closing_date.unwrap(), day(2026, 1, 31));
    assert_eq!(out.account_ref, "12345-6");
}

#[test]
fn monthly_occurrences_with_overrides() {
    let ov = |sequence: i64, pence: Option<i64>, date: Option<Date>, deleted: bool| Override { sequence, pence, date, deleted };
    let tx = AtTransaction {
        id: "1".into(),
        date: day(2026, 1, 31),
        pence: 1000,
        from: 1,
        to: 0,
        category: "Rent".into(),
        details: String::new(),
        notes: String::new(),
        refund: false,
        foreign: None,
        code: None,
        splits: vec![],
        repeat: Some(Repeat {
            unit: "Monthly".into(),
            every: 1,
            end: "After".into(),
            after: 5,
            on: None,
            weekend: "None".into(),
            overrides: vec![ov(2, Some(1200), None, false), ov(3, None, None, true), ov(-4, Some(900), None, false), ov(5, None, Some(day(2026, 6, 3)), false)],
        }),
        raw: vec![],
    };
    let occ = occurrences(&tx, day(2026, 12, 31)).unwrap();
    assert_eq!(occ.len(), 4);
    assert_eq!(occ[0], (1, day(2026, 1, 31), 900));
    assert_eq!(occ[1], (2, day(2026, 2, 28), 1200));
    assert_eq!(occ[2], (4, day(2026, 4, 30), 1000));
    assert_eq!(occ[3], (5, day(2026, 6, 3), 1000));
    let capped = occurrences(&tx, day(2026, 2, 1)).unwrap();
    assert_eq!(capped.len(), 1);
}

#[test]
fn text_is_decoded_and_cut_into_columns() {
    assert_eq!(decode("\u{feff}Olá".as_bytes()), "Olá");
    assert_eq!(decode(&[0x4f, 0x6c, 0xe1]), "Olá");
    assert_eq!(detect_delimiter("a;b;c\n1;2;3"), ';');
    assert_eq!(detect_delimiter("a,b\n1,2"), ',');
    let headers: Vec<String> = vec!["Data".into(), "Valor (R$)".into()];
    assert_eq!(find_col(&headers, &["valor"]), Some(1));
    assert_eq!(find_col(&headers, &["saldo"]), None);
    assert!(parse_number("", ',').unwrap().is_none());
    assert!(parse_date("31/02/2026", "%d/%m/%Y").is_err());
}

#[test]
fn quoted_cells_hold_delimiters() {
    let t = parse_table("date,description,amount\n2026-01-02,\"Cafe, bar\",-3.20\n", None, None).unwrap();
    assert_eq!(t.rows[0], ["2026-01-02", "Cafe, bar", "-3.20"]);
    let text = "date,description,amount\n2026-01-02,\"Cafe, bar\",-3.20\n";
    let unmapped = parse_csv("generic_csv", text.as_bytes(), None).unwrap();
    assert_eq!(unmapped.warnings, ["columns could not be recognised; map them by hand"]);
    let mut mapping = CsvMapping::empty();
    mapping.date_column = "date".into();
    mapping.amount_column = "amount".into();
    mapping.description_column = "description".into();
    let out = parse_csv("generic_csv", text.as_bytes(), Some(&mapping)).unwrap();
    assert_eq!(out.lines.len(), 1);
    assert_eq!(out.lines[0].date, Some(day(2026, 1, 2)));
    assert_eq!(out.lines[0].amount.unwrap(), parse("-3.20").unwrap());
    assert_eq!(out.lines[0].description, "Cafe, bar");
}

#[test]
fn fingerprints_tell_lines_apart() {
    let amount = parse("-3.20").unwrap();
    let a = fingerprint(1, day(2026, 1, 2), amount, "CAFE  123 Lisboa", 0);
    assert_eq!(a.len(), 32);
    assert_eq!(a, fingerprint(1, day(2026, 1, 2), parse("-3.2").unwrap(), "CAFE  123 Lisboa", 0));
    assert_ne!(a, fingerprint(1, day(2026, 1, 2), amount, "CAFE  123 Lisboa", 1));
    assert_ne!(a, fingerprint(2, day(2026, 1, 2), amount, "CAFE  123 Lisboa", 0));
    assert_eq!(normalize_desc("  Café   BAR "), normalize_desc("café bar"));
    assert_eq!(checksum(b"abc"), "ba7816bf8f01cfea414140de5dae2223b00361a396177a9cb410ff61f20015ad");
}

#[test]
fn mercury_files_give_lines() {
    let file = r#"{"channel":"mercury","version":1,"currency":"USD","account":{"id":"2f6c9c0e-5f0e-4d0a-9a53-0f0f4f2d7c11"},"transactions":[
        {"accountId":"2f6c9c0e-5f0e-4d0a-9a53-0f0f4f2d7c11","status":"sent","id":"7d9f2f9e-8a63-4a8e-a0f3-2b1d6f0c9a01","amount":-12.50,"postedAt":"2026-01-02T23:30:00-03:00","counterpartyName":"Cafe","bankDescription":" CARD ","externalMemo":""},
        {"accountId":"2f6c9c0e-5f0e-4d0a-9a53-0f0f4f2d7c11","status":"pending"},
        {"accountId":"2f6c9c0e-5f0e-4d0a-9a53-0f0f4f2d7c11","status":"failed","id":"x"}]}"#;
    assert!(mercury::is_file(file.as_bytes()));
    let out = mercury::parse(file.as_bytes()).unwrap();
    assert_eq!(out.lines.len(), 2);
    assert_eq!(out.skipped_records, 1);
    assert_eq!(out.lines[0].date, Some(day(2026, 1, 3)));
    assert_eq!(out.lines[0].amount.unwrap().text(), "-12.50");
    assert_eq!(out.lines[0].description, "Cafe CARD");
    assert_eq!(out.lines[1].skip.as_deref(), Some("parse error: non-booked Mercury status \"failed\""));
    assert!(matches!(mercury::parse(b"{\"channel\":\"mercury\",\"version\":2}"), Err(Error::Parse(_))));
    assert!(matches!(mercury::parse(b"{"), Err(Error::Json(_))));
    assert!(mercury::validate_destination(file.as_bytes(), &account(1, AccountType::Asset, "USD")).is_ok());
    let credit = file.replace("\"version\":1", "\"version\":1,\"account_type\":\"credit\"");
    assert!(mercury::validate_destination(credit.as_bytes(), &account(1, AccountType::Asset, "USD")).is_err());
}

#[test]
fn bank_api_files_give_lines() {
    let file = r#"{"channel":"inter_pj","version":1,"account":{"id":"123","currency":"BRL"},"transactions":[{"idTransacao":"a","dataTransacao":"2026-01-02","tipoOperacao":"D","valor":"34.04","titulo":"Pix","descricao":"Padaria"}]}"#;
    assert_eq!(bank_api::source(file.as_bytes()), Some("inter_pj_json"));
    let out = bank_api::parse(file.as_bytes()).unwrap();
    assert_eq!(out.lines[0].amount.unwrap(), parse("-34.04").unwrap());
    assert_eq!(out.lines[0].description, "Pix Padaria");
    assert_eq!(bank_api::source(b"{\"channel\":\"other\"}"), None);
    assert!(bank_api::parse(file.replace("\"D\"", "\"X\"").as_bytes()).is_err());
    assert!(bank_api::validate_destination(file.as_bytes(), &account(1, AccountType::Asset, "EUR")).is_err());
}

#[test]
fn sources_are_told_apart() {
    assert_eq!(detect_source("x.ofx", b"OFXHEADER:100"), "inter_ofx");
    assert_eq!(detect_source("x.csv", b"a,b\n1,2\n"), "generic_csv");
    assert_eq!(detect_source("backup.atb", b"bplist00"), "account_tracker");
    assert!(!enable_banking::is_file(b"{}"));
    assert!(!pluggy::is_pluggy_file(b"not json"));
}

#[test]
fn profiles_route_files() {
    let accounts = [account(1, AccountType::Asset, "EUR"), account(2, AccountType::Liability, "EUR"), account(3, AccountType::Expense, "EUR")];
    let profiles = [profile(1, "n26", "n26-card-*.csv", 2), profile(2, "n26", "", 1), profile(3, "revolut", "", 3)];
    assert_eq!(resolve_account("n26", "N26-card-2026.csv", &profiles, &[], &accounts), Some(2));
    assert_eq!(resolve_account("n26", "other.csv", &profiles, &[], &accounts), Some(1));
    assert_eq!(resolve_account("revolut", "r.csv", &profiles, &[], &accounts), None, "an expense takes no statement");
    assert_eq!(resolve_account("wise_json", "w.json", &profiles, &[], &accounts), None);
}

#[test]
fn imports_teach_where_files_land() {
    let profiles = [profile(2, "n26", "", 1)];
    assert!(matches!(learn_profile("revolut", "r-2026.csv", 1, &profiles), Lesson::NewDefault));
    assert!(matches!(learn_profile("n26", "n26-2026.csv", 1, &profiles), Lesson::DefaultHit));
    assert!(matches!(learn_profile("n26", "n26-card-2026.csv", 2, &profiles), Lesson::Glob(g) if g == "n26-card-*.csv"));
    assert!(matches!(learn_profile("generic_csv", "2026", 2, &profiles), Lesson::Nothing));
    assert!(matches!(learn_profile("mercury_json", "m.json", 2, &profiles), Lesson::Nothing));
}

#[test]
fn files_that_are_no_statements_are_left() {
    assert_eq!(ignore("csv", b"a,b"), None);
    assert_eq!(ignore("atb", b"").as_deref(), Some("an Account Tracker backup: import it with `means import`"));
    assert_eq!(ignore("pdf", b"").as_deref(), Some(".pdf is not a statement file"));
    assert_eq!(ignore("json", b"{}").as_deref(), Some(".json is not a statement file"));
    assert_eq!(ignore("json", b"{\"channel\":\"wise\"}"), None);
}

#[test]
fn a_header_has_at_least_three_columns() {
    let t = parse_table("Account,Main\nDate,Text,Amount\n2026-01-02,Cafe,-3.20\n2026-01-03,Rent,-500.00\n", None, None).unwrap();
    assert_eq!(t.header_row, 2, "counted from one");
    assert_eq!(t.headers, ["Date", "Text", "Amount"]);
    assert_eq!(t.rows.len(), 2);
}

#[test]
fn formats_are_told_by_their_columns() {
    let headers = |v: &[&str]| v.iter().map(|s| s.to_string()).collect::<Vec<_>>();
    assert_eq!(detect(&headers(&["Booking Date", "Partner", "Amount (EUR)"])), Some("n26_csv"));
    assert_eq!(detect(&headers(&[" amount (eur) ", "x", "BOOKING DATE"])), Some("n26_csv"), "order, case and spaces do not count");
    assert_eq!(detect(&headers(&["Valor", "Saldo", "data lançamento"])), Some("inter_csv"));
    assert_eq!(detect(&headers(&["a", "b", "c"])), None);
}

#[test]
fn a_shape_is_its_own_shape() {
    for name in ["n26-csv-transactions-2026-08.csv", "Extrato-01-06-2026-a-30-06-2026.ofx", "a*b (12) 3.csv", "12 34.56_78", "x12-3y-4"] {
        let g = glob_of(name);
        assert_eq!(glob_of(&g), g, "{name}");
        assert_eq!(g.to_lowercase(), g);
        for gone in ["**", "*-*", "*_*", "* *", "*.*"] {
            assert!(!g.contains(gone), "{name}: {g}");
        }
    }
    assert_eq!(glob_of("12 34.56_78"), "*");
}

#[test]
fn what_a_statement_says_is_recorded() {
    let text = "<OFX><STMTRS><CURDEF>EUR<BANKTRANLIST><STMTTRN><DTPOSTED>20260102<TRNAMT>-34.04<FITID>1<MEMO>Cafe</STMTTRN></BANKTRANLIST><LEDGERBAL><BALAMT>10.00<DTASOF>20260131</LEDGERBAL></STMTRS></OFX>";
    let q = ImportRequest::new("inter_ofx", Some(1), "a.ofx", text.as_bytes());
    let out = prepare(&q, &[account(1, AccountType::Asset, "EUR")], None, "uid", "now").unwrap();
    assert_eq!(out.import.options, r#"{"closing_date":"2026-01-31","mapping":null}"#);
    assert_eq!(closing_date(&out.import.options), Some(day(2026, 1, 31)));
    assert_eq!(closing_date("{}"), None);
    let with = warned(&out.import.options, "overlaps");
    assert_eq!(coverage_warning(&with).as_deref(), Some("overlaps"));
    assert_eq!(closing_date(&with), Some(day(2026, 1, 31)));
    assert_eq!(coverage_warning(&out.import.options), None);
}

#[test]
fn a_dry_run_asks_and_leaves_nothing() {
    let meu = r#"{"connector":{"id":200},"status":"Outdated"}"#;
    let bank = r#"{"connector":{"id":612}}"#;
    assert_eq!(refresh(true, meu), Refresh::Read);
    assert_eq!(refresh(true, bank), Refresh::Read);
    assert_eq!(refresh(false, meu), Refresh::Wait);
    assert_eq!(refresh(false, bank), Refresh::RequestAndWait);
    assert_eq!(status_read(meu), "OUTDATED");
    let fetched = || Fetched {
        account: r#"{"id":"acc","name":"Main","type":"bank","currencyCode":"brl"}"#.into(),
        transactions: vec![r#"{"id":"1","date":"2026-01-01"}"#.into(), r#"{"id":"2","date":"2026-02-01"}"#.into()],
        pages: 1,
        created_at_from: None,
        booked_from: Some(day(2026, 1, 15)),
    };
    let (told, left) = settle("item", fetched(), "cursor", "2026-03-01T00:00:00.000Z", true).unwrap();
    assert!(left.is_none());
    assert_eq!((told.transactions, told.excluded_before_booking_date, told.currency.as_str()), (1, 1, "BRL"));
    let (_, left) = settle("item", fetched(), "cursor", "2026-03-01T00:00:00.000Z", false).unwrap();
    let left = left.unwrap();
    assert_eq!(left.cursor, "cursor", "a pull from a day on does not move the cursor");
    assert!(left.content.contains(r#""transactions":[{"id":"2","date":"2026-02-01"}]"#));
    let undated = Fetched { transactions: vec![r#"{"id":"3"}"#.into()], ..fetched() };
    assert!(matches!(settle("item", undated, "", "", false), Err(Error::Parse(_))));
}

#[test]
fn a_pull_chooses_items_and_accounts() {
    assert_eq!(choose_items(Some(" one "), vec!["two".into()]).unwrap(), ["one"]);
    assert_eq!(choose_items(Some(" "), vec!["two".into()]).unwrap(), ["two"]);
    assert!(matches!(choose_items(None, vec![]), Err(Error::Invalid(m)) if m.starts_with("no Pluggy item is known yet")));
    assert!(is_wanted(None, "a") && is_wanted(Some("a"), "a") && !is_wanted(Some("b"), "a"));
    assert!(check_found(Some("a"), 1).is_ok() && check_found(None, 0).is_ok());
    assert!(matches!(check_found(Some("a"), 0), Err(Error::NotFound(_))));
    assert_eq!(booked_from(Some(day(2026, 1, 2)), "2026-01-01").unwrap(), Some(day(2026, 1, 2)));
    assert_eq!(booked_from(None, "2026-01-01").unwrap(), Some(day(2026, 1, 1)));
    assert_eq!(booked_from(None, "").unwrap(), None);
    assert!(booked_from(Some(day(2026, 1, 2)), "soon").is_err());
}
