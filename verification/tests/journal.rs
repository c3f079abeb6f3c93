use means_core::accounts::{build_path, ensure_account, Ensured};
use means_core::capture::{create_transfer, derive_kind, simple_input, SimpleEntry, Transfer, TransferPlan};
use means_core::date::{parse_date, Date};
use means_core::decimal::Decimal;
use means_core::editing::{check_edit, misses_rate, prepared_misses_rate, revalue_inputs, reversal_input};
use means_core::entities::create_system_accounts;
use means_core::error::Error;
use means_core::hashchain::{append, verify, Chained, Head};
use means_core::journal::{create_entry, keeps_proposal, page, prepare, Books, Prepared};
use means_core::model::{Account, AccountType, Commodity, Entity, EntryInput, EntryStatus, JournalEntry, NewAccount, Posting, PostingInput, Price};
use means_core::money::parse;
use means_core::previews::{confirm_posting, proposed_token, Stamp};
use means_core::rates::{revalued, Outcome, Revaluation};
use means_core::reports::trial_balance;
use means_core::splits::ResolvedLeg;
use means_core::totals::{total_on, Window};

fn d(s: &str) -> Decimal {
    parse(s).unwrap()
}

fn date(s: &str) -> Date {
    parse_date(s).unwrap()
}

/// A vault in memory, which does with the library what the store does.
struct World {
    entities: Vec<Entity>,
    books: Books,
    entries: Vec<JournalEntry>,
    prev: Vec<String>,
    next_posting: i64,
}

impl World {
    fn entity(&mut self, name: &str, kind: &str, country: &str, currency: &str) -> i64 {
        let id = self.entities.len() as i64 + 1;
        self.entities.push(Entity {
            id,
            uid: format!("entity-{id}"),
            name: name.into(),
            kind: kind.into(),
            country: country.into(),
            currency: currency.into(),
            lock_date: None,
            archived_at: None,
            created_at: String::new(),
        });
        self.commodity(currency);
        for s in create_system_accounts(kind) {
            let a = NewAccount {
                entity_id: id,
                parent_id: None,
                code: String::new(),
                name: s.name,
                account_type: Some(s.account_type),
                subtype: s.subtype,
                commodity: currency.into(),
                system_role: s.role,
                placeholder: false,
                in_net_worth: true,
                credit_limit: None,
                statement_day: None,
                due_day: None,
                external_ids: "{}".into(),
                notes: String::new(),
                position: 0,
            };
            self.store(a);
        }
        id
    }

    fn commodity(&mut self, code: &str) {
        if !self.books.commodities.iter().any(|c| c.code == code) {
            let id = self.books.commodities.len() as i64 + 1;
            self.books.commodities.push(Commodity { id, code: code.into(), kind: "currency".into(), name: code.into(), precision: 2, isin: String::new() });
        }
    }

    fn store(&mut self, a: NewAccount) -> i64 {
        self.commodity(&a.commodity);
        let c = self.books.commodities.iter().find(|c| c.code == a.commodity).unwrap();
        let id = self.books.accounts.len() as i64 + 1;
        self.books.accounts.push(Account {
            id,
            uid: format!("account-{id}"),
            entity_id: a.entity_id,
            parent_id: a.parent_id,
            code: a.code,
            name: a.name,
            path: String::new(),
            depth: 0,
            account_type: a.account_type.unwrap(),
            subtype: a.subtype,
            commodity_id: c.id,
            commodity: c.code.clone(),
            precision: c.precision,
            system_role: a.system_role,
            placeholder: a.placeholder,
            in_net_worth: a.in_net_worth,
            credit_limit: a.credit_limit,
            statement_day: a.statement_day,
            due_day: a.due_day,
            external_ids: "{}".into(),
            notes: a.notes,
            position: a.position,
            closed_at: None,
            class: String::new(),
        });
        let (path, depth) = build_path(&self.books.accounts, id);
        let last = self.books.accounts.last_mut().unwrap();
        last.path = path;
        last.depth = depth;
        id
    }

    fn account(&mut self, entity_id: i64, t: AccountType, names: &[&str], subtype: &str, commodity: &str) -> i64 {
        let names: Vec<String> = names.iter().map(|s| s.to_string()).collect();
        let mut parent = None;
        for i in 0..names.len() {
            let id = match ensure_account(&self.books.accounts, entity_id, t, &names, i, parent, subtype, commodity).unwrap() {
                Ensured::Found(id) => id,
                Ensured::Create(a) => self.store(a),
            };
            parent = Some(id);
        }
        parent.unwrap()
    }

    fn price(&mut self, commodity: &str, currency: &str, on: &str, price: &str) {
        let id = self.books.prices.len() as i64 + 1;
        self.books.prices.push(Price { id, commodity: commodity.into(), currency: currency.into(), on: date(on), price: d(price), source: "manual".into() });
    }

    fn postings(&mut self, entry_id: i64, v: Vec<Prepared>) -> Vec<Posting> {
        let mut out = vec![];
        for (i, p) in v.into_iter().enumerate() {
            self.next_posting += 1;
            let account_type = self.books.accounts.iter().find(|a| a.id == p.account_id).unwrap().account_type;
            out.push(Posting {
                id: self.next_posting,
                uid: format!("posting-{}", self.next_posting),
                journal_entry_id: entry_id,
                account_id: p.account_id,
                account_path: p.account_path,
                account_type,
                quantity: p.quantity,
                amount: p.amount,
                rate: p.rate,
                rate_source: p.rate_source,
                memo: p.memo,
                metadata: p.metadata,
                external_id: p.external_id,
                fingerprint: p.fingerprint,
                reconciled_at: None,
                position: i as i32,
            });
        }
        out
    }

    fn create(&mut self, input: &EntryInput) -> Result<JournalEntry, Error> {
        let entity = self.entities.iter().find(|e| e.id == input.entity_id).unwrap();
        let rows = prepare(&self.books, entity, input.date, &input.postings, input.absorb_fx, &[])?;
        let id = self.entries.len() as i64 + 1;
        let postings = self.postings(id, rows);
        let mut entry = JournalEntry {
            id,
            uid: format!("entry-{id}"),
            entity_id: input.entity_id,
            date: input.date,
            payee: input.payee.clone(),
            payee_id: None,
            display_payee: input.payee.clone(),
            description: input.description.clone(),
            notes: input.notes.clone(),
            status: input.status,
            reverses_id: input.reverses_id,
            reversed_by_id: None,
            refund_of_id: None,
            counterpart_id: input.counterpart_id,
            template_id: None,
            template_version: None,
            origin: input.origin.clone(),
            posted_at: None,
            created_at: String::new(),
            seq: None,
            hash: None,
            postings,
            statement_line_id: None,
            tags: vec![],
            reviewed_at: None,
        };
        let last = self.entries.iter().rev().find(|e| e.entity_id == entry.entity_id).map(|e| Head { seq: e.seq.unwrap(), hash: e.hash.clone().unwrap() });
        let link = append(&last, &entry, &self.books.accounts);
        entry.seq = Some(link.seq);
        entry.hash = Some(link.hash);
        self.prev.push(link.prev_hash);
        self.entries.push(entry.clone());
        Ok(entry)
    }

    fn chain(&self, entity_id: i64) -> Vec<Chained> {
        self.entries
            .iter()
            .zip(&self.prev)
            .filter(|(e, _)| e.entity_id == entity_id)
            .map(|(e, prev)| Chained { seq: e.seq.unwrap(), prev_hash: prev.clone(), hash: e.hash.clone().unwrap(), entry: e.clone() })
            .collect()
    }

    fn balance(&self, account_id: i64) -> i64 {
        let w = Window { entity_id: None, from: None, to: None, before: None, drafts: false };
        total_on(&self.entries, &w, account_id, false).unwrap()
    }

    fn simple(&mut self, s: SimpleEntry) -> JournalEntry {
        let input = simple_input(&self.books.accounts, &s).unwrap();
        self.create(&input).unwrap()
    }
}

fn setup() -> (World, i64, i64, i64, i64) {
    let mut w = World {
        entities: vec![],
        books: Books { accounts: vec![], commodities: vec![], prices: vec![] },
        entries: vec![],
        prev: vec![],
        next_posting: 0,
    };
    let entity = w.entity("Personal", "person", "PT", "EUR");
    let n26 = w.account(entity, AccountType::Asset, &["Bank", "N26"], "bank", "EUR");
    let food = w.account(entity, AccountType::Expense, &["Food"], "expense", "EUR");
    let inter = w.account(entity, AccountType::Asset, &["Bank", "Inter"], "bank", "BRL");
    w.price("BRL", "EUR", "2026-01-01", "0.17");
    (w, entity, n26, food, inter)
}

fn expense(entity_id: i64, on: &str, account_id: i64, contra: Option<i64>, quantity: &str, payee: &str) -> SimpleEntry {
    SimpleEntry {
        entity_id,
        date: date(on),
        kind: "expense".into(),
        account_id,
        contra_account_id: contra,
        quantity: d(quantity),
        contra_quantity: None,
        payee: payee.into(),
        notes: String::new(),
        splits: vec![],
        status: EntryStatus::Posted,
        fee: None,
        fee_account_id: None,
        origin: String::new(),
    }
}

fn total(e: &JournalEntry) -> i64 {
    e.postings.iter().map(|p| p.amount.minor()).sum()
}

#[test]
fn simple_expense_balances_and_hashes() {
    let (mut w, entity, n26, food, _) = setup();
    let e = w.simple(expense(entity, "2026-02-01", n26, Some(food), "3.20", "Cafe"));
    assert_eq!(e.postings.len(), 2);
    assert_eq!(e.postings[0].quantity.major(), d("-3.20"));
    assert_eq!(e.postings[1].quantity.major(), d("3.20"));
    assert_eq!(derive_kind(&w.books.accounts, &e.postings), "expense");
    assert_eq!(e.seq, Some(1));
    assert!(e.hash.is_some());
    let report = verify(entity, &w.chain(entity), &w.books.accounts);
    assert_eq!(report.checked, 1);
    assert!(report.first_bad_seq.is_none());
    assert_eq!(w.balance(n26), -320);
    assert_eq!(w.balance(food), 320);
}

#[test]
fn foreign_expense_is_valued_in_functional_currency() {
    let (mut w, entity, _, food, inter) = setup();
    let e = w.simple(expense(entity, "2026-02-01", inter, Some(food), "34.04", "Mercado"));
    let bank = &e.postings[0];
    assert_eq!(bank.quantity.major(), d("-34.04"));
    assert_eq!(bank.quantity.commodity(), "BRL");
    assert_eq!(bank.amount.commodity(), "EUR");
    assert!(bank.quantity.checked_add(bank.amount).is_err());
    assert_eq!(bank.amount.major(), d("-5.79"));
    assert_eq!(bank.rate_source, "nearest");
    let exp = &e.postings[1];
    assert_eq!(exp.quantity.major(), d("5.79"));
    assert_eq!(exp.amount.major(), d("5.79"));
    assert_eq!(total(&e), 0);
}

#[test]
fn unbalanced_entry_is_rejected_and_exchange_absorbs_fx() {
    let (mut w, entity, n26, _, inter) = setup();
    let mut input = EntryInput::new(entity, date("2026-02-01"));
    input.postings.push(PostingInput::new(n26, d("-10")));
    input.postings.push(PostingInput::new(inter, d("50")));
    assert!(matches!(w.create(&input), Err(Error::Unbalanced(_))));
    input.absorb_fx = true;
    let e = w.create(&input).unwrap();
    assert_eq!(e.postings.len(), 3);
    assert_eq!(derive_kind(&w.books.accounts, &e.postings), "exchange");
    let fx = &e.postings[2];
    assert_eq!(fx.account_path, "Expenses:FX gain/loss");
    assert_eq!(fx.amount.major(), d("1.50")); // 10 EUR sent, 50 BRL = 8.50 EUR received, 1.50 EUR lost
}

#[test]
fn lock_date_and_reversal() {
    let (mut w, entity, n26, food, _) = setup();
    let e = w.simple(expense(entity, "2026-02-01", n26, Some(food), "10", "x"));
    w.entities[0].lock_date = Some(date("2026-02-15"));
    let mut upd = EntryInput::new(entity, date("2026-02-01"));
    upd.payee = "changed".into();
    upd.postings = vec![PostingInput::new(n26, d("-11")), PostingInput::balancing(food)];
    assert!(matches!(check_edit(&e, &w.entities[0], &upd), Err(Error::Locked(_))));
    assert!(matches!(reversal_input(&e, &w.entities[0], Some(date("2026-02-10")), ""), Err(Error::Locked(_))));
    let input = reversal_input(&e, &w.entities[0], Some(date("2026-03-01")), "wrong amount").unwrap();
    assert_eq!(input.description, "Reversal of #1: wrong amount");
    let rev = w.create(&input).unwrap();
    w.entries[0].status = EntryStatus::Void;
    assert_eq!(rev.postings[0].quantity.major(), d("10"));
    assert_eq!(rev.reverses_id, Some(e.id));
    assert_eq!(w.balance(n26), 0);
    assert!(verify(entity, &w.chain(entity), &w.books.accounts).first_bad_seq.is_none());
}

#[test]
fn cross_entity_transfer_makes_two_balanced_entries() {
    let (mut w, personal, n26, _, _) = setup();
    let llc = w.entity("LLC", "company", "US", "USD");
    let mercury = w.account(llc, AccountType::Asset, &["Mercury"], "bank", "USD");
    w.price("USD", "EUR", "2026-01-01", "0.88");
    let t = Transfer {
        date: date("2026-02-01"),
        from_account_id: mercury,
        to_account_id: n26,
        from_quantity: d("1000"),
        to_quantity: Some(d("870")),
        fee: None,
        fee_account_id: None,
        payee: String::new(),
        notes: String::new(),
        from_contra_account_id: None,
        to_contra_account_id: None,
        status: EntryStatus::Posted,
        origin: String::new(),
    };
    let (first, mut second) = match create_transfer(&w.books.accounts, &w.entities, &t).unwrap() {
        TransferPlan::Between(a, b) => (a, b),
        other => panic!("{other:?}"),
    };
    let mut a = w.create(&first).unwrap();
    second.counterpart_id = Some(a.id);
    let b = w.create(&second).unwrap();
    a.counterpart_id = Some(b.id);
    assert_eq!(a.entity_id, llc);
    assert_eq!(b.entity_id, personal);
    assert_eq!(a.counterpart_id, Some(b.id));
    assert_eq!(b.counterpart_id, Some(a.id));
    assert_eq!(a.postings[1].account_path, "Equity:Owner distributions");
    assert_eq!(b.postings[1].account_path, "Income:Distributions received");
    assert_eq!(b.postings[0].quantity.major(), d("870"));
    for e in [&a, &b] {
        assert_eq!(total(e), 0);
    }
}

#[test]
fn splits_in_foreign_currency() {
    let (mut w, entity, _, food, inter) = setup();
    let house = w.account(entity, AccountType::Expense, &["Household"], "expense", "EUR");
    let mut s = expense(entity, "2026-02-01", inter, None, "41", "Mercado");
    s.splits = vec![
        ResolvedLeg { account_id: food, quantity: d("30"), memo: String::new() },
        ResolvedLeg { account_id: house, quantity: d("11"), memo: String::new() },
    ];
    let e = w.simple(s);
    assert_eq!(e.postings.len(), 3);
    assert_eq!(e.postings[1].amount.major(), d("5.10"));
    assert_eq!(e.postings[2].amount.major(), d("1.87"));
    assert_eq!(total(&e), 0);
}

#[test]
fn missing_rate_is_flagged_and_revalued_later() {
    let (mut w, entity, _, food, inter) = setup();
    let e = w.simple(expense(entity, "2024-01-10", inter, Some(food), "100", "old"));
    assert_eq!(e.postings[0].rate_source, "missing");
    assert_eq!(e.postings[0].amount.major(), d("-100"));
    assert!(misses_rate(&e.postings));
    w.price("BRL", "EUR", "2024-01-10", "0.18");
    let (inputs, balanced) = revalue_inputs(&e.postings);
    let rows = prepare(&w.books, &w.entities[0], e.date, &inputs, !balanced, &[]).unwrap();
    assert!(!prepared_misses_rate(&rows));
    let postings = w.postings(e.id, rows);
    assert_eq!(postings[0].amount.major(), d("-18"));
    assert_eq!(postings[1].quantity.major(), d("18"));
    assert_eq!(postings[0].rate_source, "exact");
    let n = revalued(&[Revaluation { entry_id: e.id, entity_id: entity, seq: e.seq, outcome: Outcome::Fixed }]);
    assert_eq!(n.fixed, 1);
}

#[test]
fn the_trial_balance_nets_to_zero() {
    let (mut w, entity, n26, food, inter) = setup();
    w.simple(expense(entity, "2026-02-01", n26, Some(food), "3.20", "Cafe"));
    w.simple(expense(entity, "2026-02-02", inter, Some(food), "34.04", "Mercado"));
    let index = means_core::accounts::path_index(&w.books.accounts);
    let r = trial_balance(&w.entities, &w.books.commodities, &index, &w.entries, entity, None).unwrap();
    assert_eq!(r.net.minor(), 0);
    assert_eq!(r.total_debit.minor(), 899);
    assert_eq!(r.total_credit.minor(), 899);
}

#[test]
fn a_changed_entry_breaks_the_chain() {
    let (mut w, entity, n26, food, _) = setup();
    w.simple(expense(entity, "2026-02-01", n26, Some(food), "1", "a"));
    w.simple(expense(entity, "2026-02-02", n26, Some(food), "2", "b"));
    let mut chain = w.chain(entity);
    chain[0].entry.payee = "tampered".into();
    let report = verify(entity, &chain, &w.books.accounts);
    assert_eq!(report.first_bad_seq, Some(1));
}

#[test]
fn pages_stay_in_bounds() {
    assert_eq!(page(0, -5), (100, 0));
    assert_eq!(page(5000, 7), (2000, 7));
    assert_eq!(page(30, 0), (30, 0));
}

#[test]
fn a_proposal_is_kept_only_under_its_token() {
    assert!(keeps_proposal(Some("abc"), "abc").unwrap());
    assert!(!keeps_proposal(None, "abc").unwrap());
    assert!(matches!(keeps_proposal(Some("old"), "abc"), Err(Error::Conflict(_))));
}

#[test]
fn new_entries_are_planned() {
    let (mut w, entity, n26, food, _) = setup();
    let s = expense(entity, "2026-02-01", n26, Some(food), "3.20", " Cafe ");
    let mut input = simple_input(&w.books.accounts, &s).unwrap();
    let plan = create_entry(&w.books, &w.entities[0], &input).unwrap();
    assert_eq!(plan.payee, "Cafe");
    assert!(plan.posted && plan.reviewed);
    assert_eq!(plan.postings.iter().map(|p| p.amount.minor()).sum::<i64>(), 0);
    input.origin = "rule".into();
    assert!(!create_entry(&w.books, &w.entities[0], &input).unwrap().reviewed);
    w.entities[0].lock_date = Some(date("2026-02-01"));
    assert!(matches!(create_entry(&w.books, &w.entities[0], &input), Err(Error::Locked(_))));
    input.status = EntryStatus::Draft;
    assert!(!create_entry(&w.books, &w.entities[0], &input).unwrap().posted);
    input.status = EntryStatus::Void;
    assert!(matches!(create_entry(&w.books, &w.entities[0], &input), Err(Error::Invalid(m)) if m == "cannot create a void entry"));
    input.status = EntryStatus::Draft;
    input.postings.truncate(1);
    assert!(matches!(create_entry(&w.books, &w.entities[0], &input), Err(Error::Invalid(_))));
}

#[test]
fn a_proposed_entry_is_kept_under_the_token_that_was_shown() {
    let (mut w, entity, n26, food, _) = setup();
    let stamp = Stamp { last_change: 4, last_entry: 7, entries: 7 };
    let (shown, token, keep) = confirm_posting(stamp, w.simple(expense(entity, "2026-02-01", n26, Some(food), "1", "a")), None).unwrap();
    assert!(!keep);
    assert!(shown.seq.is_none() && shown.hash.is_none(), "what is only shown is not in the chain");
    // The same entry again, with another identity and other moments.
    let again = |w: &World| {
        let mut e = w.entries[0].clone();
        e.uid = "another".into();
        e.created_at = "later".into();
        e.reviewed_at = None;
        e
    };
    assert_eq!(proposed_token(stamp, &again(&w)), token);
    let (kept, _, keep) = confirm_posting(stamp, again(&w), Some(&token)).unwrap();
    assert!(keep);
    assert_eq!(kept.uid, "another");
    let moved = Stamp { last_change: 5, ..stamp };
    assert!(matches!(confirm_posting(moved, again(&w), Some(&token)), Err(Error::Conflict(_))));
    let mut changed = again(&w);
    changed.payee = "b".into();
    assert!(matches!(confirm_posting(stamp, changed, Some(&token)), Err(Error::Conflict(_))));
}
