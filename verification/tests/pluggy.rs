use means_core::error::{Error, Result};
use means_core::imports::pluggy::{
    auth, auth_request, checked_base, discover, fetch_transactions, get_item, list_accounts, next_url, progress, read_request, request_update, transactions_url, update_request, wait_step, Credentials, Progress,
    Request, Response, Transport,
};
use means_core::imports::pulling::{pull_account, refresh_item, Ask, Refresh, Stored};
use means_core::imports::wire::Wire;
use std::cell::RefCell;

/// Answers every call with one recorded reply.
struct Recorded {
    status: u16,
    body: &'static str,
    expect: &'static str,
}

impl Transport for Recorded {
    fn send(&self, request: Request<'_>) -> Result<Response> {
        assert_eq!(format!("{} {}", request.method, request.url), self.expect);
        Ok(Response { status: self.status, body: self.body.into() })
    }
}

/// Answers the first page and the page after it.
struct Pages;

impl Transport for Pages {
    fn send(&self, request: Request<'_>) -> Result<Response> {
        let body = if request.url.contains("after=") { r#"{"results":[{"id":"c"}]}"# } else { r#"{"results":[{"id":"a"},{"id":"b"}],"next":"x y"}"# };
        Ok(Response { status: 200, body: body.into() })
    }
}

const BASE: &str = "https://api.pluggy.ai";

fn credentials() -> Credentials {
    Credentials::from_env(Some(" id "), Some("hidden")).unwrap()
}

#[test]
fn credentials_come_from_the_environment() {
    assert_eq!(credentials().client_id, "id");
    assert!(matches!(Credentials::from_env(None, Some("x")), Err(Error::Invalid(m)) if m.starts_with("set PLUGGY_CLIENT_ID: ")));
    assert!(matches!(Credentials::from_env(Some("x"), Some("  ")), Err(Error::Invalid(m)) if m.starts_with("set PLUGGY_CLIENT_SECRET: ")));
}

#[test]
fn an_answer_gives_a_key() {
    let t = Recorded { status: 200, body: r#"{"apiKey":"k"}"#, expect: "POST https://api.pluggy.ai/auth" };
    assert_eq!(auth(&mut Wire::new(&t), BASE, &credentials()).unwrap(), "k");
    let t = Recorded { status: 200, body: "{}", expect: "POST https://api.pluggy.ai/auth" };
    assert!(matches!(auth(&mut Wire::new(&t), BASE, &credentials()), Err(Error::Parse(m)) if m == "pluggy answered /auth without an apiKey"));
}

#[test]
fn a_refusal_names_no_secret() {
    let t = Recorded { status: 401, body: r#"{"message":"bad secret hidden"}"#, expect: "POST https://api.pluggy.ai/auth" };
    assert!(matches!(auth(&mut Wire::new(&t), BASE, &credentials()), Err(Error::Invalid(m)) if !m.contains("hidden") && m.contains("HTTP 401")));
    let t = Recorded { status: 500, body: r#"{"message":"key k1 is stale"}"#, expect: "GET https://api.pluggy.ai/items/i" };
    assert!(matches!(get_item(&mut Wire::new(&t), BASE, "k1", "i"), Err(Error::Invalid(m)) if m == "pluggy answered HTTP 500 at /items/i: key *** is stale"));
    let t = Recorded { status: 429, body: "", expect: "GET https://api.pluggy.ai/items/i" };
    assert!(matches!(get_item(&mut Wire::new(&t), BASE, "k1", "i"), Err(Error::Invalid(m)) if m.starts_with("pluggy answered HTTP 429 (too many requests) at /items/i: ")));
}

#[test]
fn accounts_and_pages_are_read() {
    let t = Recorded { status: 200, body: r#"{"results":[{"id":"1"},{"id":"2"}]}"#, expect: "GET https://api.pluggy.ai/accounts?itemId=i" };
    assert_eq!(list_accounts(&mut Wire::new(&t), BASE, "k", "i").unwrap().len(), 2);
    let (all, pages) = fetch_transactions(&mut Wire::new(&Pages), BASE, "k", "acc", None).unwrap();
    assert_eq!((all.len(), pages), (3, 2));
}

#[test]
fn urls_encode_their_values() {
    assert_eq!(transactions_url(BASE, "a b", Some("2026-01-01T00:00:00Z")).unwrap(), "https://api.pluggy.ai/v2/transactions?accountId=a+b&createdAtFrom=2026-01-01T00%3A00%3A00Z");
    assert_eq!(next_url(BASE, r#"{"next":"x y"}"#, "a", None).unwrap().as_deref(), Some("https://api.pluggy.ai/v2/transactions?accountId=a&after=x+y"));
    assert_eq!(next_url(BASE, r#"{"next":"/v2/transactions?after=z"}"#, "a", None).unwrap().as_deref(), Some("https://api.pluggy.ai/v2/transactions?after=z"));
    assert_eq!(next_url(BASE, r#"{"next":null}"#, "a", None).unwrap(), None);
    assert!(next_url(BASE, r#"{"next":"https://example.com/x"}"#, "a", None).is_err());
    assert!(next_url(BASE, r#"{"next":"https://u:p@api.pluggy.ai/x"}"#, "a", None).is_err());
    assert!(transactions_url("not a url", "a", None).is_err());
}

#[test]
fn an_item_is_waited_for() {
    assert!(matches!(progress(r#"{"status":"updated"}"#, "i"), Ok(Progress::Updated)));
    assert!(matches!(progress(r#"{"status":"LOGIN_ERROR"}"#, "i"), Err(Error::Invalid(m)) if m.starts_with("pluggy item i is LOGIN_ERROR: ")));
    assert!(matches!(progress(r#"{"status":"ODD"}"#, "i"), Err(Error::Invalid(m)) if m == "pluggy item i is ODD, which is not a state this pull knows"));
    assert!(wait_step(r#"{"status":"UPDATING"}"#, "i", 99).is_ok());
    assert!(matches!(wait_step(r#"{"status":"UPDATING"}"#, "i", 100), Err(Error::Invalid(m)) if m.contains("after 100 reads")));
    assert!(checked_base("http://example.com", false).is_err());
    assert!(checked_base("https://api.pluggy.ai", false).is_ok());
}

/// Notes every request, and answers by what its URL holds.
struct Noted {
    seen: RefCell<Vec<String>>,
    item: &'static str,
    accounts: &'static str,
}

impl Noted {
    fn new(item: &'static str, accounts: &'static str) -> Noted {
        Noted { seen: RefCell::new(Vec::new()), item, accounts }
    }
}

impl Transport for Noted {
    fn send(&self, request: Request<'_>) -> Result<Response> {
        self.seen.borrow_mut().push(format!("{} {} key={} body={}", request.method, request.url, request.api_key, request.body.unwrap_or_default()));
        let body = if request.url.ends_with("/auth") {
            r#"{"apiKey":"k"}"#
        } else if request.url.contains("/items/") {
            self.item
        } else if request.url.contains("/accounts") {
            self.accounts
        } else if request.url.contains("after=") {
            r#"{"results":[{"id":"2","date":"2026-01-02"}]}"#
        } else {
            r#"{"results":[{"id":"1","date":"2026-01-01"}],"next":"z"}"#
        };
        Ok(Response { status: 200, body: body.into() })
    }
}

/// Fails every call.
struct Down;

impl Transport for Down {
    fn send(&self, _: Request<'_>) -> Result<Response> {
        Err(Error::Invalid("no route".into()))
    }
}

#[test]
fn requests_are_made_as_the_api_asks() {
    let cred = credentials();
    let r = auth_request("u", &cred);
    assert_eq!((r.method, r.url, r.api_key), ("POST", "u", ""));
    assert_eq!(r.body.as_deref(), Some(r#"{"clientId":"id","clientSecret":"hidden"}"#));
    let r = read_request("u", "k");
    assert_eq!((r.method, r.api_key, r.body), ("GET", "k", None));
    let r = update_request("u", "k");
    assert_eq!((r.method, r.api_key, r.body.as_deref()), ("PATCH", "k", Some("{}")));
}

#[test]
fn a_failure_to_send_is_passed_on() {
    let mut w = Wire::new(&Down);
    assert!(matches!(auth(&mut w, BASE, &credentials()), Err(Error::Invalid(m)) if m == "no route"));
    assert!(matches!(list_accounts(&mut w, BASE, "k", "i"), Err(Error::Invalid(m)) if m == "no route"));
    assert!(matches!(request_update(&mut w, BASE, "k", "i"), Err(Error::Invalid(m)) if m == "no route"));
    assert!(matches!(fetch_transactions(&mut w, BASE, "k", "a", None), Err(Error::Invalid(m)) if m == "no route"));
    assert!(matches!(fetch_transactions(&mut w, "no url", "k", "a", None), Err(Error::Invalid(m)) if m == "invalid Pluggy URL"));
}

const ITEM: &str = "00000000-0000-4000-8000-000000000001";

#[test]
fn an_item_is_inspected_without_a_refresh() {
    let t = Noted::new(r#"{"status":"OUTDATED","connector":{"id":612}}"#, r#"{"results":[{"id":"00000000-0000-4000-8000-000000000002","type":"BANK","name":"Main","currencyCode":"brl"}]}"#);
    let (status, found) = discover(&t, &credentials(), BASE, false, ITEM).unwrap();
    assert_eq!(status, "OUTDATED");
    assert_eq!(found.len(), 1);
    assert_eq!((found[0].name.as_str(), found[0].currency.as_str(), found[0].item_id.as_str()), ("Main", "BRL", ITEM));
    assert_eq!(
        *t.seen.borrow(),
        [
            r#"POST https://api.pluggy.ai/auth key= body={"clientId":"id","clientSecret":"hidden"}"#.to_string(),
            format!("GET https://api.pluggy.ai/items/{ITEM} key=k body="),
            format!("GET https://api.pluggy.ai/accounts?itemId={ITEM} key=k body="),
        ]
    );
    let t = Noted::new("{}", r#"{"results":[{"id":"no uuid"}]}"#);
    assert!(matches!(discover(&t, &credentials(), BASE, false, ITEM), Err(Error::Parse(m)) if m == "Pluggy account must be a UUID"));
    let t = Noted::new("{}", "{}");
    assert!(discover(&t, &credentials(), BASE, false, "no uuid").is_err());
    assert!(discover(&t, &credentials(), "http://example.com", false, ITEM).is_err());
    assert!(t.seen.borrow().is_empty(), "nothing is sent where the item or the base is refused");
}

fn ask(dry_run: bool) -> Ask {
    Ask { account: None, since: None, booked_from: None, dry_run }
}

#[test]
fn a_dry_run_sends_no_patch() {
    let t = Noted::new(r#"{"connector":{"id":612},"status":"UPDATED"}"#, "{}");
    let mut w = Wire::new(&t);
    let (_, next) = refresh_item(&mut w, BASE, "k", "i", true).unwrap();
    assert_eq!(next, Refresh::Read);
    let stored = [Stored { provider_account_id: "acc".into(), cursor: "c".into(), booked_from: String::new() }];
    let (report, left) = pull_account(&mut w, BASE, "k", "i", r#"{"id":"acc"}"#.into(), &ask(true), &stored, "now").unwrap().unwrap();
    assert!(left.is_none());
    assert_eq!((report.transactions, report.pages, report.file.as_str(), report.created_at_from.as_str()), (2, 2, "", "c"));
    assert!(t.seen.borrow().iter().all(|q| q.starts_with("GET ")));
    assert_eq!(t.seen.borrow()[2], "GET https://api.pluggy.ai/v2/transactions?accountId=acc&createdAtFrom=c&after=z key=k body=");
    let (_, next) = refresh_item(&mut w, BASE, "k", "i", false).unwrap();
    assert_eq!(next, Refresh::RequestAndWait);
    assert_eq!(t.seen.borrow().last().unwrap(), "PATCH https://api.pluggy.ai/items/i key=k body={}");
    let (_, left) = pull_account(&mut w, BASE, "k", "i", r#"{"id":"acc"}"#.into(), &ask(false), &stored, "now").unwrap().unwrap();
    assert_eq!(left.unwrap().cursor, "now");
    let only = Ask { account: Some("other".into()), ..ask(true) };
    assert!(pull_account(&mut w, BASE, "k", "i", r#"{"id":"acc"}"#.into(), &only, &stored, "now").unwrap().is_none());
    assert!(matches!(pull_account(&mut w, BASE, "k", "i", "{}".into(), &ask(true), &[], "now"), Err(Error::Parse(_))));
}
