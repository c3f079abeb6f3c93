//! The pipeline: receive, parse, dedupe, match, draft, reconcile.

use vstd::prelude::*;

use crate::accounts::{get_account, place_of};
use crate::codec::{hex_text, json_string, json_text, sha256_of};
use crate::date::{date_in, parse_with, Date};
use crate::decimal::{view_of, Decimal, Num};
use crate::documents::{flag, flag_text, list_text, members, object, opt_day, opt_day_text, opt_id_string, opt_id_text, opt_number, opt_number_text, quoted_texts, text_list};
use crate::error::{conflict, invalid, Refusal, Result};
use crate::imports::bank_api;
use crate::imports::csvkit::{decode, parse_table, table_in, text_in};
use crate::imports::delimited::{parse_csv, parse_csv_of, shown_mapping};
use crate::imports::enable_banking;
use crate::imports::mercury;
use crate::imports::ofx;
use crate::imports::pluggy;
use crate::imports::presets::{detect, detected};
use crate::imports::remessa;
use crate::imports::statement::{checksum, preview_lines, untyped, shown_statements, statement_lines, typed_lines, ShownStatement};
use crate::imports::{fields_with, object_string, object_text, opt_text, put_field, shown_lines, CsvMapping, ParseOutput, ParsedLine, ShownLine, ShownMapping, ShownParse};
use crate::json;
use crate::json::{integer, integer_at};
use crate::model::{Account, MetaValue, StatementLine};
use crate::text::{cat3, cat4, cat5, contains, ends, ends_with, holds, int_string, int_text, lowercase_of, own, same, to_lowercase, to_uppercase, uppercase_of};

verus! {

/// The first bytes of a property list in its binary form.
pub open spec fn binary_list(content: Seq<u8>) -> bool {
    content.len() >= 8 && content.take(8) == seq![98u8, 112, 108, 105, 115, 116, 48, 48]
}

fn is_binary_list(content: &[u8]) -> (r: bool)
    ensures
        r == binary_list(content@),
{
    if content.len() < 8 {
        return false;
    }
    let r = content[0] == 98 && content[1] == 112 && content[2] == 108 && content[3] == 105 && content[4] == 115 && content[5] == 116 && content[6]
        == 48 && content[7] == 48;
    proof {
        let start = content@.take(8);
        let mark = seq![98u8, 112, 108, 105, 115, 116, 48, 48];
        if r {
            assert(start =~= mark);
        } else {
            assert(start[0] == content@[0] && start[1] == content@[1] && start[2] == content@[2] && start[3] == content@[3]);
            assert(start[4] == content@[4] && start[5] == content@[5] && start[6] == content@[6] && start[7] == content@[7]);
            assert(mark[0] == 98 && mark[1] == 112 && mark[2] == 108 && mark[3] == 105);
            assert(mark[4] == 115 && mark[5] == 116 && mark[6] == 48 && mark[7] == 48);
        }
    }
    r
}

/// The start of a file, at most 4000 bytes.
pub open spec fn head_of(content: Seq<u8>) -> Seq<u8> {
    if content.len() > 4000 {
        content.take(4000)
    } else {
        content
    }
}

/// The source that a file seems to come from, by its name and its content.
pub open spec fn source_of(filename: Seq<char>, content: Seq<u8>) -> Seq<char> {
    let name = lowercase_of(filename);
    let json = ends(name, ".json"@);
    let head = text_in(head_of(content));
    let raised = uppercase_of(head);
    if ends(name, ".atb"@) || binary_list(content) {
        "account_tracker"@
    } else if ends(name, ".ofx"@) || ends(name, ".qfx"@) {
        "inter_ofx"@
    } else if json && pluggy::from_channel(content) {
        "pluggy_json"@
    } else if json && enable_banking::from_channel(content) {
        "enable_banking_json"@
    } else if json && mercury::from_channel(content) {
        "mercury_json"@
    } else if json && bank_api::source_of(content) is Some {
        bank_api::source_of(content)->0
    } else if holds(raised, "<OFX>"@) || holds(raised, "OFXHEADER"@) {
        "inter_ofx"@
    } else {
        match table_in(head, None, None) {
            Ok(t) => match detected(t.headers) {
                Some(s) => s,
                None => "generic_csv"@,
            },
            Err(_) => "generic_csv"@,
        }
    }
}

/// Guesses the source from the file name and content.
pub fn detect_source(filename: &str, content: &[u8]) -> (r: String)
    ensures
        r@ == source_of(filename@, content@),
{
    let name = to_lowercase(filename);
    if ends_with(name.as_str(), ".atb") || is_binary_list(content) {
        return own("account_tracker");
    }
    if ends_with(name.as_str(), ".ofx") || ends_with(name.as_str(), ".qfx") {
        return own("inter_ofx");
    }
    let json = ends_with(name.as_str(), ".json");
    if json && pluggy::is_pluggy_file(content) {
        return own("pluggy_json");
    }
    if json && enable_banking::is_file(content) {
        return own("enable_banking_json");
    }
    if json && mercury::is_file(content) {
        return own("mercury_json");
    }
    if json {
        if let Some(s) = bank_api::source(content) {
            return own(s);
        }
    }
    let head = if content.len() > 4000 {
        let start = vstd::slice::slice_subrange(content, 0, 4000);
        assert(start@ =~= content@.take(4000));
        decode(start)
    } else {
        decode(content)
    };
    let raised = to_uppercase(head.as_str());
    if contains(raised.as_str(), "<OFX>") || contains(raised.as_str(), "OFXHEADER") {
        return own("inter_ofx");
    }
    if let Ok(table) = parse_table(head.as_str(), None, None) {
        if let Some(s) = detect(&table.headers) {
            return own(s);
        }
    }
    own("generic_csv")
}

/// What a file of a source holds.
pub open spec fn parse_of(source: Seq<char>, content: Seq<u8>, mapping: Option<ShownMapping>) -> std::result::Result<ShownParse, Refusal> {
    if source == "inter_ofx"@ || source == "ofx"@ {
        ofx::parse_of(text_in(content))
    } else if source == "remessa_csv"@ {
        remessa::parse_of(content, mapping)
    } else if source == "pluggy_json"@ {
        pluggy::parse_of(content)
    } else if source == "enable_banking_json"@ {
        enable_banking::parse_of(content)
    } else if source == "mercury_json"@ {
        mercury::parse_of(content)
    } else if source == "inter_pj_json"@ || source == "wise_json"@ {
        bank_api::parse_of(content)
    } else if source == "account_tracker"@ {
        Err(Refusal::Invalid("Account Tracker backups use ImportAccountTracker"@))
    } else {
        parse_csv_of(source, content, mapping)
    }
}

/// Parses a file into lines. `mapping` is required for generic_csv and may override presets.
pub fn parse(source: &str, content: &[u8], mapping: Option<&CsvMapping>) -> (r: Result<ParseOutput>)
    ensures
        match r {
            Ok(p) => parse_of(source@, content@, shown_mapping(mapping)) == Ok::<ShownParse, Refusal>(p@),
            Err(e) => parse_of(source@, content@, shown_mapping(mapping)) == Err::<ShownParse, Refusal>(e@),
        },
{
    if same(source, "inter_ofx") || same(source, "ofx") {
        ofx::parse(content)
    } else if same(source, "remessa_csv") {
        remessa::parse(content, mapping)
    } else if same(source, "pluggy_json") {
        pluggy::parse(content)
    } else if same(source, "enable_banking_json") {
        enable_banking::parse(content)
    } else if same(source, "mercury_json") {
        mercury::parse(content)
    } else if same(source, "inter_pj_json") || same(source, "wise_json") {
        bank_api::parse(content)
    } else if same(source, "account_tracker") {
        Err(invalid("Account Tracker backups use ImportAccountTracker"))
    } else {
        parse_csv(source, content, mapping)
    }
}

/// One file to import, and how to read it. `source` may be "auto" or "" to detect it from the file,
/// and `preview` parses without writing anything. `options` is a JSON object.
pub struct ImportRequest<'a> {
    pub source: &'a str,
    pub account_id: Option<i64>,
    pub filename: &'a str,
    pub content: &'a [u8],
    pub mapping: Option<&'a CsvMapping>,
    pub preview: bool,
    pub options: String,
}

impl<'a> ImportRequest<'a> {
    pub fn new(source: &'a str, account_id: Option<i64>, filename: &'a str, content: &'a [u8]) -> (r: ImportRequest<'a>)
        ensures
            r.source@ == source@,
            r.account_id == account_id,
            r.filename@ == filename@,
            r.content@ == content@,
            r.mapping is None,
            !r.preview,
            r.options@ == "{}"@,
    {
        ImportRequest { source, account_id, filename, content, mapping: None, preview: false, options: own("{}") }
    }

    pub fn mapping(self, mapping: Option<&'a CsvMapping>) -> (r: ImportRequest<'a>)
        ensures
            r == (ImportRequest { mapping, ..self }),
    {
        ImportRequest { mapping, ..self }
    }

    pub fn preview(self, preview: bool) -> (r: ImportRequest<'a>)
        ensures
            r == (ImportRequest { preview, ..self }),
    {
        ImportRequest { preview, ..self }
    }

    pub fn options(self, options: String) -> (r: ImportRequest<'a>)
        ensures
            r == (ImportRequest { options, ..self }),
    {
        ImportRequest { options, ..self }
    }
}

/// An import of a file.
#[derive(Debug)]
pub struct Import {
    pub id: i64,
    pub uid: String,
    pub source: String,
    pub account_id: Option<i64>,
    pub filename: String,
    pub checksum: String,
    pub status: String,
    pub period_from: Option<Date>,
    pub period_to: Option<Date>,
    pub opening_balance: Option<Decimal>,
    pub closing_balance: Option<Decimal>,
    pub lines_count: i32,
    pub created_count: i32,
    pub matched_count: i32,
    pub duplicate_count: i32,
    pub skipped_count: i32,
    pub unmatched_count: i32,
    pub error_count: i32,
    pub error: String,
    pub options: String,
    pub created_at: String,
}

#[verifier::ext_equal]
pub struct ShownImport {
    pub id: i64,
    pub uid: Seq<char>,
    pub source: Seq<char>,
    pub account_id: Option<i64>,
    pub filename: Seq<char>,
    pub checksum: Seq<char>,
    pub status: Seq<char>,
    pub period_from: Option<Date>,
    pub period_to: Option<Date>,
    pub opening_balance: Option<Num>,
    pub closing_balance: Option<Num>,
    pub lines_count: int,
    pub created_count: int,
    pub matched_count: int,
    pub duplicate_count: int,
    pub skipped_count: int,
    pub unmatched_count: int,
    pub error_count: int,
    pub error: Seq<char>,
    pub options: Seq<char>,
    pub created_at: Seq<char>,
}

impl View for Import {
    type V = ShownImport;

    open spec fn view(&self) -> ShownImport {
        ShownImport {
            id: self.id,
            uid: self.uid@,
            source: self.source@,
            account_id: self.account_id,
            filename: self.filename@,
            checksum: self.checksum@,
            status: self.status@,
            period_from: self.period_from,
            period_to: self.period_to,
            opening_balance: view_of(self.opening_balance),
            closing_balance: view_of(self.closing_balance),
            lines_count: self.lines_count as int,
            created_count: self.created_count as int,
            matched_count: self.matched_count as int,
            duplicate_count: self.duplicate_count as int,
            skipped_count: self.skipped_count as int,
            unmatched_count: self.unmatched_count as int,
            error_count: self.error_count as int,
            error: self.error@,
            options: self.options@,
            created_at: self.created_at@,
        }
    }
}

pub struct ImportOutcome {
    pub import: Import,
    pub lines: Vec<StatementLine>,
    pub parse: ParseOutput,
}

/// How many of the first `n` lines have a status.
pub open spec fn count_of(ls: Seq<ShownStatement>, status: Seq<char>, n: nat) -> nat
    decreases n,
{
    if n == 0 {
        0
    } else {
        count_of(ls, status, (n - 1) as nat) + if ls[n - 1].status == status {
            1nat
        } else {
            0
        }
    }
}

pub fn count_status(lines: &Vec<StatementLine>, status: &str) -> (r: usize)
    ensures
        r == count_of(shown_statements(lines@), status@, lines@.len()),
        r <= lines@.len(),
{
    let ghost ls = shown_statements(lines@);
    let mut n: usize = 0;
    let mut i: usize = 0;
    while i < lines.len()
        invariant
            i <= lines.len(),
            ls == shown_statements(lines@),
            n == count_of(ls, status@, i as nat),
            n <= i,
        decreases lines.len() - i,
    {
        assert(ls[i as int] == lines@[i as int]@);
        if same(lines[i].status.as_str(), status) {
            n = n + 1;
        }
        i = i + 1;
    }
    n
}

/// The earliest day of the first `n` lines.
pub open spec fn first_day(ls: Seq<ShownStatement>, n: nat) -> Option<Date>
    decreases n,
{
    if n == 0 {
        None
    } else {
        let best = first_day(ls, (n - 1) as nat);
        match ls[n - 1].date {
            Some(d) => if best is None || d.before(best->0) {
                Some(d)
            } else {
                best
            },
            None => best,
        }
    }
}

/// The latest day of the first `n` lines.
pub open spec fn last_day(ls: Seq<ShownStatement>, n: nat) -> Option<Date>
    decreases n,
{
    if n == 0 {
        None
    } else {
        let best = last_day(ls, (n - 1) as nat);
        match ls[n - 1].date {
            Some(d) => if best is None || (best->0).before(d) {
                Some(d)
            } else {
                best
            },
            None => best,
        }
    }
}

fn days(lines: &Vec<StatementLine>) -> (r: (Option<Date>, Option<Date>))
    ensures
        r.0 == first_day(shown_statements(lines@), lines@.len()),
        r.1 == last_day(shown_statements(lines@), lines@.len()),
{
    let ghost ls = shown_statements(lines@);
    let mut first: Option<Date> = None;
    let mut last: Option<Date> = None;
    let mut i: usize = 0;
    while i < lines.len()
        invariant
            i <= lines.len(),
            ls == shown_statements(lines@),
            first == first_day(ls, i as nat),
            last == last_day(ls, i as nat),
        decreases lines.len() - i,
    {
        assert(ls[i as int] == lines@[i as int]@);
        if let Some(d) = lines[i].date {
            let earlier = match first {
                Some(f) => d.is_before(f),
                None => true,
            };
            if earlier {
                first = Some(d);
            }
            let later = match last {
                Some(f) => f.is_before(d),
                None => true,
            };
            if later {
                last = Some(d);
            }
        }
        i = i + 1;
    }
    (first, last)
}

/// The record of an import before its lines are processed.
pub open spec fn record_of(
    source: Seq<char>,
    account_id: Option<i64>,
    filename: Seq<char>,
    content: Seq<u8>,
    preview: bool,
    uid: Seq<char>,
    now: Seq<char>,
    options: Seq<char>,
    p: ShownParse,
    lines: Seq<ShownStatement>,
    from: Option<Date>,
    to: Option<Date>,
) -> ShownImport {
    ShownImport {
        id: 0,
        uid,
        source,
        account_id,
        filename,
        checksum: hex_text(sha256_of(content)),
        status: if preview {
            "preview"@
        } else {
            "done"@
        },
        period_from: from,
        period_to: to,
        opening_balance: p.opening_balance,
        closing_balance: p.closing_balance,
        lines_count: lines.len() as int,
        created_count: 0,
        matched_count: 0,
        duplicate_count: 0,
        skipped_count: (count_of(lines, "skipped"@, lines.len()) + p.skipped_records) as int,
        unmatched_count: 0,
        error_count: 0,
        error: Seq::empty(),
        options,
        created_at: now,
    }
}

fn import_record(
    source: &str,
    account_id: Option<i64>,
    filename: &str,
    content: &[u8],
    preview: bool,
    uid: &str,
    now: &str,
    options: String,
    p: &ParseOutput,
    lines: &Vec<StatementLine>,
    from: Option<Date>,
    to: Option<Date>,
) -> (r: Import)
    requires
        lines@.len() + p.skipped_records < 2147483647,
    ensures
        r@ == record_of(
            source@,
            account_id,
            filename@,
            content@,
            preview,
            uid@,
            now@,
            options@,
            p@,
            shown_statements(lines@),
            from,
            to,
        ),
{
    let skipped = count_status(lines, "skipped");
    let r = Import {
        id: 0,
        uid: own(uid),
        source: own(source),
        account_id,
        filename: own(filename),
        checksum: checksum(content),
        status: if preview {
            own("preview")
        } else {
            own("done")
        },
        period_from: from,
        period_to: to,
        opening_balance: p.opening_balance,
        closing_balance: p.closing_balance,
        lines_count: lines.len() as i32,
        created_count: 0,
        matched_count: 0,
        duplicate_count: 0,
        skipped_count: skipped as i32 + p.skipped_records as i32,
        unmatched_count: 0,
        error_count: 0,
        error: String::new(),
        options,
        created_at: own(now),
    };
    assert(r@ =~= record_of(
        source@,
        account_id,
        filename@,
        content@,
        preview,
        uid@,
        now@,
        options@,
        p@,
        shown_statements(lines@),
        from,
        to,
    ));
    r
}

/// How many of the first `n` records count, and how many of those are in another currency than
/// `commodity`.
pub open spec fn live_of(ls: Seq<ShownLine>, commodity: Seq<char>, n: nat) -> (nat, nat)
    decreases n,
{
    if n == 0 {
        (0, 0)
    } else {
        let (live, foreign) = live_of(ls, commodity, (n - 1) as nat);
        let l = ls[n - 1];
        if l.skip is Some {
            (live, foreign)
        } else if l.currency.len() > 0 && l.currency != commodity {
            (live + 1, foreign + 1)
        } else {
            (live + 1, foreign)
        }
    }
}

/// The first record that counts, from `i` on.
pub open spec fn first_live(ls: Seq<ShownLine>, i: int) -> Option<int>
    decreases ls.len() - i,
{
    if i < 0 || i >= ls.len() {
        None
    } else if ls[i].skip is None {
        Some(i)
    } else {
        first_live(ls, i + 1)
    }
}

fn count_live(lines: &Vec<ParsedLine>, commodity: &str) -> (r: (usize, usize, Option<usize>))
    ensures
        live_of(shown_lines(lines@), commodity@, lines@.len()) == (r.0 as nat, r.1 as nat),
        match r.2 {
            Some(i) => i < lines@.len() && first_live(shown_lines(lines@), 0) == Some(i as int),
            None => first_live(shown_lines(lines@), 0) is None,
        },
{
    let ghost ls = shown_lines(lines@);
    let mut live: usize = 0;
    let mut foreign: usize = 0;
    let mut first: Option<usize> = None;
    let mut i: usize = 0;
    while i < lines.len()
        invariant
            i <= lines.len(),
            ls == shown_lines(lines@),
            live_of(ls, commodity@, i as nat) == (live as nat, foreign as nat),
            live <= i,
            foreign <= i,
            match first {
                Some(k) => k < i && first_live(ls, 0) == Some(k as int),
                None => first_live(ls, 0) == first_live(ls, i as int),
            },
        decreases lines.len() - i,
    {
        assert(ls[i as int] == lines@[i as int]@);
        if lines[i].skip.is_none() {
            live = live + 1;
            if !lines[i].currency.as_str().is_empty() && !same(lines[i].currency.as_str(), commodity) {
                foreign = foreign + 1;
            }
            if first.is_none() {
                first = Some(i);
            }
        }
        i = i + 1;
    }
    (live, foreign, first)
}

/// Whether a source tells the currency of its account.
pub open spec fn is_api(source: Seq<char>) -> bool {
    source == "enable_banking_json"@ || source == "mercury_json"@ || source == "inter_pj_json"@ || source == "wise_json"@
}

/// Why a file cannot go to an account. A multi-currency file (Wise history, a Revolut statement over
/// several balances) keeps the lines in this account's currency and skips the rest; a file with none
/// of them is the wrong file.
pub open spec fn account_refusal(source: Seq<char>, content: Seq<u8>, p: ShownParse, a: Account) -> Option<Refusal> {
    let (live, foreign) = live_of(p.lines, a.commodity@, p.lines.len());
    let bank = if source == "inter_pj_json"@ || source == "wise_json"@ {
        bank_api::destination_refusal(content, a)
    } else {
        None
    };
    let credit = if source == "mercury_json"@ {
        mercury::destination_refusal(content, a.account_type)
    } else {
        None
    };
    if is_api(source) && p.currency != a.commodity@ {
        Some(
            Refusal::Invalid(
                "Bank API file currency "@ + p.currency + " does not match account currency "@ + a.commodity@,
            ),
        )
    } else if bank is Some {
        bank
    } else if credit is Some {
        credit
    } else if a.placeholder {
        Some(Refusal::Invalid("statements cannot be imported into a placeholder account"@))
    } else if live > 0 && foreign == live {
        Some(
            Refusal::Invalid(
                "the file is in "@ + p.lines[first_live(p.lines, 0)->0].currency + " but "@ + a.path@ + " is a "@ + a.commodity@ + " account"@,
            ),
        )
    } else {
        None
    }
}

proof fn lemma_live(ls: Seq<ShownLine>, commodity: Seq<char>, n: nat)
    requires
        n <= ls.len(),
        live_of(ls, commodity, n).0 > 0,
    ensures
        exists|i: int| 0 <= i < n && (#[trigger] ls[i]).skip is None,
    decreases n,
{
    if n > 0 && ls[n - 1].skip is Some {
        lemma_live(ls, commodity, (n - 1) as nat);
    } else if n > 0 {
        assert(ls[n - 1].skip is None);
    }
}

proof fn lemma_first_live(ls: Seq<ShownLine>, i: int, k: int)
    requires
        0 <= i <= k < ls.len(),
        ls[k].skip is None,
    ensures
        first_live(ls, i) is Some,
    decreases k - i,
{
    if ls[i].skip is Some {
        lemma_first_live(ls, i + 1, k);
    }
}

fn check_account(source: &str, content: &[u8], p: &ParseOutput, a: &Account) -> (r: Result<()>)
    ensures
        match r {
            Ok(_) => account_refusal(source@, content@, p@, *a) is None,
            Err(e) => account_refusal(source@, content@, p@, *a) == Some(e@),
        },
{
    let bank = same(source, "inter_pj_json") || same(source, "wise_json");
    let credit = same(source, "mercury_json");
    if (same(source, "enable_banking_json") || credit || bank) && !same(p.currency.as_str(), a.commodity.as_str()) {
        return Err(
            invalid(
                cat4("Bank API file currency ", p.currency.as_str(), " does not match account currency ", a.commodity.as_str()).as_str(),
            ),
        );
    }
    if bank {
        if let Err(e) = bank_api::validate_destination(content, a) {
            return Err(e);
        }
    }
    if credit {
        if let Err(e) = mercury::validate_destination(content, a) {
            return Err(e);
        }
    }
    if a.placeholder {
        return Err(invalid("statements cannot be imported into a placeholder account"));
    }
    let (live, foreign, first) = count_live(&p.lines, a.commodity.as_str());
    if live > 0 && foreign == live {
        proof {
            lemma_live(p@.lines, a.commodity@, p@.lines.len());
            let k = choose|i: int| 0 <= i < p@.lines.len() && (#[trigger] p@.lines[i]).skip is None;
            lemma_first_live(p@.lines, 0, k);
        }
        if let Some(i) = first {
            assert(p@.lines[i as int] == p.lines@[i as int]@);
            let head = cat5("the file is in ", p.lines[i].currency.as_str(), " but ", a.path.as_str(), " is a ");
            return Err(invalid(cat3(head.as_str(), a.commodity.as_str(), " account").as_str()));
        }
    }
    Ok(())
}

/// What is asked of an import.
pub struct Ask {
    pub source: Seq<char>,
    pub account_id: Option<i64>,
    pub filename: Seq<char>,
    pub content: Seq<u8>,
    pub mapping: Option<ShownMapping>,
    pub preview: bool,
    pub options: Seq<char>,
}

impl<'a> View for ImportRequest<'a> {
    type V = Ask;

    open spec fn view(&self) -> Ask {
        Ask {
            source: self.source@,
            account_id: self.account_id,
            filename: self.filename@,
            content: self.content@,
            mapping: shown_mapping(self.mapping),
            preview: self.preview,
            options: self.options@,
        }
    }
}

/// What an import comes to before its lines are processed.
pub struct Plan {
    pub import: ShownImport,
    pub lines: Seq<ShownStatement>,
    pub parse: ShownParse,
}

impl View for ImportOutcome {
    type V = Plan;

    open spec fn view(&self) -> Plan {
        Plan { import: self.import@, lines: shown_statements(self.lines@), parse: self.parse@ }
    }
}

/// The source that is asked for, or the one that is detected.
pub open spec fn asked_source(q: Ask) -> Seq<char> {
    if q.source.len() == 0 || q.source == "auto"@ {
        source_of(q.filename, q.content)
    } else {
        q.source
    }
}

/// A day of the file's own, or one of its lines'.
pub open spec fn day_or(a: Option<Date>, b: Option<Date>) -> Option<Date> {
    match a {
        Some(d) => Some(d),
        None => b,
    }
}

/// A mapping as JSON, its members by name.
pub open spec fn mapping_text(m: ShownMapping) -> Seq<char> {
    object_text(
        seq![
            ("amount_column"@, json_text(m.amount_column)),
            ("balance_column"@, json_text(m.balance_column)),
            ("credit_column"@, json_text(m.credit_column)),
            ("currency"@, json_text(m.currency)),
            ("currency_column"@, json_text(m.currency_column)),
            ("date_column"@, json_text(m.date_column)),
            ("date_format"@, json_text(m.date_format)),
            ("debit_column"@, json_text(m.debit_column)),
            ("decimal_separator"@, json_text(m.decimal_separator)),
            ("delimiter"@, json_text(m.delimiter)),
            ("description_column"@, json_text(m.description_column)),
            ("extra_description_columns"@, list_text(quoted_texts(m.extra_description_columns))),
            ("header_row"@, int_text(m.header_row)),
            ("invert_sign"@, flag_text(m.invert_sign)),
            ("reference_column"@, json_text(m.reference_column)),
        ],
    )
}

fn mapping_string(m: &CsvMapping) -> (r: String)
    ensures
        r@ == mapping_text(m@),
{
    let v: Vec<(&str, String)> = vec![
        ("amount_column", json_string(m.amount_column.as_str())),
        ("balance_column", json_string(m.balance_column.as_str())),
        ("credit_column", json_string(m.credit_column.as_str())),
        ("currency", json_string(m.currency.as_str())),
        ("currency_column", json_string(m.currency_column.as_str())),
        ("date_column", json_string(m.date_column.as_str())),
        ("date_format", json_string(m.date_format.as_str())),
        ("debit_column", json_string(m.debit_column.as_str())),
        ("decimal_separator", json_string(m.decimal_separator.as_str())),
        ("delimiter", json_string(m.delimiter.as_str())),
        ("description_column", json_string(m.description_column.as_str())),
        ("extra_description_columns", text_list(&m.extra_description_columns)),
        ("header_row", int_string(m.header_row as i64)),
        ("invert_sign", flag(m.invert_sign)),
        ("reference_column", json_string(m.reference_column.as_str())),
    ];
    assert(members(v@) =~= seq![
            ("amount_column"@, json_text(m@.amount_column)),
            ("balance_column"@, json_text(m@.balance_column)),
            ("credit_column"@, json_text(m@.credit_column)),
            ("currency"@, json_text(m@.currency)),
            ("currency_column"@, json_text(m@.currency_column)),
            ("date_column"@, json_text(m@.date_column)),
            ("date_format"@, json_text(m@.date_format)),
            ("debit_column"@, json_text(m@.debit_column)),
            ("decimal_separator"@, json_text(m@.decimal_separator)),
            ("delimiter"@, json_text(m@.delimiter)),
            ("description_column"@, json_text(m@.description_column)),
            ("extra_description_columns"@, list_text(quoted_texts(m@.extra_description_columns))),
            ("header_row"@, int_text(m@.header_row)),
            ("invert_sign"@, flag_text(m@.invert_sign)),
            ("reference_column"@, json_text(m@.reference_column)),
    ]);
    object(&v)
}

/// What is recorded of a statement beside its figures: the day of its closing balance, and how its
/// columns were read.
pub open spec fn statement_options(mapping: Option<ShownMapping>, closing: Option<Date>) -> Seq<char> {
    object_text(
        seq![
            ("closing_date"@, opt_day_text(closing)),
            (
                "mapping"@,
                if mapping is Some {
                    mapping_text(mapping->0)
                } else {
                    "null"@
                },
            ),
        ],
    )
}

fn options_string(mapping: Option<&CsvMapping>, closing: Option<Date>) -> (r: String)
    ensures
        r@ == statement_options(shown_mapping(mapping), closing),
{
    let m = match mapping {
        Some(x) => mapping_string(x),
        None => own("null"),
    };
    let v: Vec<(&str, String)> = vec![("closing_date", opt_day(closing)), ("mapping", m)];
    assert(members(v@) =~= seq![("closing_date"@, opt_day_text(closing)), ("mapping"@, m@)]);
    object(&v)
}

/// The day of the closing balance that the options of an import name.
pub open spec fn closing_day(options: Seq<char>) -> Option<Date> {
    match json::text_at(options, "closing_date"@) {
        Some(s) => date_in(s, "%Y-%m-%d"@),
        None => None,
    }
}

/// Reads the day of a closing balance from the options that were recorded with it.
pub fn closing_date(options: &str) -> (r: Option<Date>)
    ensures
        r == closing_day(options@),
{
    match json::text_in(options, "closing_date") {
        Some(s) => parse_with(s.as_str(), "%Y-%m-%d"),
        None => None,
    }
}

/// The options of an import with a warning about what it may overlap with.
pub fn warned(options: &str, warning: &str) -> (r: String)
    ensures
        r@ == object_text(fields_with(json::record_of(options@), "coverage_warning"@, json_text(warning@))),
{
    let mut m = json::record(options);
    put_field(&mut m, "coverage_warning", MetaValue::Text(own(warning)));
    object_string(&m)
}

/// The warning that the options of an import hold.
pub fn coverage_warning(options: &str) -> (r: Option<String>)
    ensures
        opt_text(r) == json::text_at(options@, "coverage_warning"@),
{
    json::text_in(options, "coverage_warning")
}

/// An import as JSON.
pub open spec fn import_document(x: ShownImport) -> Seq<char> {
    object_text(
        seq![
            ("id"@, int_text(x.id as int)),
            ("uid"@, json_text(x.uid)),
            ("source"@, json_text(x.source)),
            ("account_id"@, opt_id_text(x.account_id)),
            ("filename"@, json_text(x.filename)),
            ("checksum"@, json_text(x.checksum)),
            ("status"@, json_text(x.status)),
            ("period_from"@, opt_day_text(x.period_from)),
            ("period_to"@, opt_day_text(x.period_to)),
            ("opening_balance"@, opt_number_text(x.opening_balance)),
            ("closing_balance"@, opt_number_text(x.closing_balance)),
            ("lines_count"@, int_text(x.lines_count)),
            ("created_count"@, int_text(x.created_count)),
            ("matched_count"@, int_text(x.matched_count)),
            ("duplicate_count"@, int_text(x.duplicate_count)),
            ("skipped_count"@, int_text(x.skipped_count)),
            ("unmatched_count"@, int_text(x.unmatched_count)),
            ("error_count"@, int_text(x.error_count)),
            ("error"@, json_text(x.error)),
            ("options"@, x.options),
            ("created_at"@, json_text(x.created_at)),
        ],
    )
}

pub fn import_string(x: &Import) -> (r: String)
    ensures
        r@ == import_document(x@),
{
    let v: Vec<(&str, String)> = vec![
        ("id", int_string(x.id)),
        ("uid", json_string(x.uid.as_str())),
        ("source", json_string(x.source.as_str())),
        ("account_id", opt_id_string(x.account_id)),
        ("filename", json_string(x.filename.as_str())),
        ("checksum", json_string(x.checksum.as_str())),
        ("status", json_string(x.status.as_str())),
        ("period_from", opt_day(x.period_from)),
        ("period_to", opt_day(x.period_to)),
        ("opening_balance", opt_number(x.opening_balance)),
        ("closing_balance", opt_number(x.closing_balance)),
        ("lines_count", int_string(x.lines_count as i64)),
        ("created_count", int_string(x.created_count as i64)),
        ("matched_count", int_string(x.matched_count as i64)),
        ("duplicate_count", int_string(x.duplicate_count as i64)),
        ("skipped_count", int_string(x.skipped_count as i64)),
        ("unmatched_count", int_string(x.unmatched_count as i64)),
        ("error_count", int_string(x.error_count as i64)),
        ("error", json_string(x.error.as_str())),
        ("options", own(x.options.as_str())),
        ("created_at", json_string(x.created_at.as_str())),
    ];
    let ghost x = x@;
    assert(members(v@) =~= seq![
            ("id"@, int_text(x.id as int)),
            ("uid"@, json_text(x.uid)),
            ("source"@, json_text(x.source)),
            ("account_id"@, opt_id_text(x.account_id)),
            ("filename"@, json_text(x.filename)),
            ("checksum"@, json_text(x.checksum)),
            ("status"@, json_text(x.status)),
            ("period_from"@, opt_day_text(x.period_from)),
            ("period_to"@, opt_day_text(x.period_to)),
            ("opening_balance"@, opt_number_text(x.opening_balance)),
            ("closing_balance"@, opt_number_text(x.closing_balance)),
            ("lines_count"@, int_text(x.lines_count)),
            ("created_count"@, int_text(x.created_count)),
            ("matched_count"@, int_text(x.matched_count)),
            ("duplicate_count"@, int_text(x.duplicate_count)),
            ("skipped_count"@, int_text(x.skipped_count)),
            ("unmatched_count"@, int_text(x.unmatched_count)),
            ("error_count"@, int_text(x.error_count)),
            ("error"@, json_text(x.error)),
            ("options"@, x.options),
            ("created_at"@, json_text(x.created_at)),
    ]);
    object(&v)
}

/// Why too many lines are refused.
pub open spec fn too_many(p: ShownParse) -> bool {
    p.lines.len() + p.skipped_records >= 2147483647
}

/// The plan of a statement on an account.
pub open spec fn statement_plan(q: Ask, p: ShownParse, a: Account, uid: Seq<char>, now: Seq<char>) -> std::result::Result<Plan, Refusal> {
    let source = asked_source(q);
    match account_refusal(source, q.content, p, a) {
        Some(e) => Err(e),
        None => match typed_lines(p.lines, a, p.lines.len()) {
            Err(e) => Err(e),
            Ok(ls) => Ok(
                Plan {
                    import: record_of(
                        source,
                        Some(a.id),
                        q.filename,
                        q.content,
                        q.preview,
                        uid,
                        now,
                        statement_options(q.mapping, p.closing_date),
                        p,
                        ls,
                        day_or(p.period_from, first_day(ls, ls.len())),
                        day_or(p.period_to, last_day(ls, ls.len())),
                    ),
                    lines: ls,
                    parse: p,
                },
            ),
        },
    }
}

/// The account that exchanges came to, where one is named.
pub open spec fn destination_of(options: Seq<char>) -> Option<i64> {
    match integer_at(options, "to_account_id"@) {
        Some(n) => if n > 0 {
            Some(n as i64)
        } else {
            None
        },
        None => None,
    }
}

/// The plan of exchanges that left an account. A preview may go without the account that they came
/// to.
pub open spec fn exchange_plan(q: Ask, p: ShownParse, accounts: Seq<Account>, uid: Seq<char>, now: Seq<char>) -> std::result::Result<Plan, Refusal> {
    match q.account_id {
        None => Err(Refusal::Invalid("choose the BRL account the remittances left from"@)),
        Some(id) => match place_of(accounts, id) {
            None => Err(Refusal::NotFound("account "@ + int_text(id as int))),
            Some(f) => {
                let to = destination_of(q.options);
                if to is Some && place_of(accounts, to->0) is None {
                    Err(Refusal::NotFound("account "@ + int_text(to->0 as int)))
                } else {
                    let other = match to {
                        Some(t) => Some(accounts[place_of(accounts, t)->0]),
                        None => None,
                    };
                    match remessa::exchange_lines_of(p.lines, accounts[f], other, p.lines.len()) {
                        Err(e) => Err(e),
                        Ok(ls) => if !q.preview && other is None {
                            Err(Refusal::Invalid("choose the account that received the foreign currency (to_account_id)"@))
                        } else if !q.preview && other->0.entity_id != accounts[f].entity_id {
                            Err(
                                Refusal::Invalid(
                                    "Remessa imports need both accounts in the same entity; use a transfer between entities otherwise"@,
                                ),
                            )
                        } else {
                            Ok(
                                Plan {
                                    import: record_of(
                                        "remessa_csv"@,
                                        Some(id),
                                        q.filename,
                                        q.content,
                                        q.preview,
                                        uid,
                                        now,
                                        q.options,
                                        p,
                                        ls,
                                        first_day(ls, ls.len()),
                                        last_day(ls, ls.len()),
                                    ),
                                    lines: ls,
                                    parse: p,
                                },
                            )
                        },
                    }
                }
            },
        },
    }
}

/// What an import comes to before its lines are processed: the file is read and its lines are made,
/// or it is refused. A file that was imported before is refused by its checksum, except in a
/// preview; one without an account is shown as it is.
pub open spec fn plan_of(q: Ask, accounts: Seq<Account>, earlier: Option<i64>, uid: Seq<char>, now: Seq<char>) -> std::result::Result<Plan, Refusal> {
    let source = asked_source(q);
    if source == "account_tracker"@ {
        Err(Refusal::Invalid("use ImportAccountTracker for Account Tracker backups"@))
    } else if !q.preview && earlier is Some {
        Err(Refusal::Conflict("this file was already imported (import #"@ + int_text(earlier->0 as int) + ")"@))
    } else {
        match parse_of(source, q.content, q.mapping) {
            Err(e) => Err(e),
            Ok(p) => if too_many(p) {
                Err(Refusal::Invalid("the file has too many lines"@))
            } else if source == "remessa_csv"@ {
                exchange_plan(q, p, accounts, uid, now)
            } else if q.preview && q.account_id is None {
                let ls = Seq::new(p.lines.len(), |i: int| untyped(p.lines[i], i));
                Ok(
                    Plan {
                        import: record_of(
                            source,
                            None,
                            q.filename,
                            q.content,
                            true,
                            Seq::empty(),
                            now,
                            "{\"currency\":"@ + json_text(p.currency) + "}"@,
                            p,
                            ls,
                            p.period_from,
                            p.period_to,
                        ),
                        lines: ls,
                        parse: p,
                    },
                )
            } else {
                match q.account_id {
                    None => Err(Refusal::Invalid("choose the account this statement belongs to"@)),
                    Some(id) => match place_of(accounts, id) {
                        None => Err(Refusal::NotFound("account "@ + int_text(id as int))),
                        Some(i) => statement_plan(q, p, accounts[i], uid, now),
                    },
                }
            },
        }
    }
}

fn first_some(a: Option<Date>, b: Option<Date>) -> (r: Option<Date>)
    ensures
        r == day_or(a, b),
{
    match a {
        Some(d) => Some(d),
        None => b,
    }
}

fn plan_statement(source: &str, q: &ImportRequest<'_>, p: ParseOutput, a: &Account, uid: &str, now: &str) -> (r: Result<ImportOutcome>)
    requires
        !too_many(p@),
        source@ == asked_source(q@),
    ensures
        match r {
            Ok(o) => statement_plan(q@, p@, *a, uid@, now@) == Ok::<Plan, Refusal>(o@),
            Err(e) => statement_plan(q@, p@, *a, uid@, now@) == Err::<Plan, Refusal>(e@),
        },
{
    if let Err(e) = check_account(source, q.content, &p, a) {
        return Err(e);
    }
    assert(p@.lines.len() == p.lines@.len());
    let lines = match statement_lines(&p.lines, a) {
        Ok(v) => v,
        Err(e) => {
            return Err(e);
        },
    };
    proof {
        lemma_typed_count(p@.lines, *a, p@.lines.len());
        assert(shown_statements(lines@).len() == lines@.len());
    }
    let (first, last) = days(&lines);
    let import = import_record(
        source,
        Some(a.id),
        q.filename,
        q.content,
        q.preview,
        uid,
        now,
        options_string(q.mapping, p.closing_date),
        &p,
        &lines,
        first_some(p.period_from, first),
        first_some(p.period_to, last),
    );
    Ok(ImportOutcome { import, lines, parse: p })
}

proof fn lemma_typed_count(ls: Seq<ShownLine>, a: Account, n: nat)
    requires
        typed_lines(ls, a, n) is Ok,
    ensures
        typed_lines(ls, a, n)->Ok_0.len() == n,
    decreases n,
{
    if n > 0 {
        lemma_typed_count(ls, a, (n - 1) as nat);
    }
}

proof fn lemma_exchange_count(ls: Seq<ShownLine>, from: Account, to: Option<Account>, n: nat)
    requires
        remessa::exchange_lines_of(ls, from, to, n) is Ok,
    ensures
        remessa::exchange_lines_of(ls, from, to, n)->Ok_0.len() == n,
    decreases n,
{
    if n > 0 {
        lemma_exchange_count(ls, from, to, (n - 1) as nat);
    }
}

fn destination(options: &str) -> (r: Option<i64>)
    ensures
        r == destination_of(options@),
{
    match integer(options, "to_account_id") {
        Some(n) => if n > 0 {
            Some(n)
        } else {
            None
        },
        None => None,
    }
}

fn plan_exchanges(q: &ImportRequest<'_>, p: ParseOutput, accounts: &[Account], uid: &str, now: &str) -> (r: Result<ImportOutcome>)
    requires
        !too_many(p@),
    ensures
        match r {
            Ok(o) => exchange_plan(q@, p@, accounts@, uid@, now@) == Ok::<Plan, Refusal>(o@),
            Err(e) => exchange_plan(q@, p@, accounts@, uid@, now@) == Err::<Plan, Refusal>(e@),
        },
{
    let id = match q.account_id {
        Some(id) => id,
        None => {
            return Err(invalid("choose the BRL account the remittances left from"));
        },
    };
    let from = match get_account(accounts, id) {
        Ok(a) => a,
        Err(e) => {
            return Err(e);
        },
    };
    let to: Option<&Account> = match destination(q.options.as_str()) {
        Some(t) => match get_account(accounts, t) {
            Ok(a) => Some(a),
            Err(e) => {
                return Err(e);
            },
        },
        None => None,
    };
    assert(p@.lines.len() == p.lines@.len());
    let lines = match remessa::exchange_lines(&p.lines, from, to) {
        Ok(v) => v,
        Err(e) => {
            return Err(e);
        },
    };
    if !q.preview {
        if let Err(e) = remessa::check_sides(from, to) {
            return Err(e);
        }
    }
    proof {
        lemma_exchange_count(p@.lines, *from, remessa::opt_account(to), p@.lines.len());
        assert(shown_statements(lines@).len() == lines@.len());
    }
    let (first, last) = days(&lines);
    let import = import_record(
        "remessa_csv",
        Some(id),
        q.filename,
        q.content,
        q.preview,
        uid,
        now,
        own(q.options.as_str()),
        &p,
        &lines,
        first,
        last,
    );
    Ok(ImportOutcome { import, lines, parse: p })
}

/// Reads a file and makes its lines. `earlier` is the import of the same content, source and
/// account, where there is one.
pub fn prepare(q: &ImportRequest<'_>, accounts: &[Account], earlier: Option<i64>, uid: &str, now: &str) -> (r: Result<ImportOutcome>)
    ensures
        match r {
            Ok(o) => plan_of(q@, accounts@, earlier, uid@, now@) == Ok::<Plan, Refusal>(o@),
            Err(e) => plan_of(q@, accounts@, earlier, uid@, now@) == Err::<Plan, Refusal>(e@),
        },
{
    let source = if q.source.is_empty() || same(q.source, "auto") {
        detect_source(q.filename, q.content)
    } else {
        own(q.source)
    };
    let s = source.as_str();
    if same(s, "account_tracker") {
        return Err(invalid("use ImportAccountTracker for Account Tracker backups"));
    }
    if !q.preview {
        if let Some(id) = earlier {
            return Err(conflict(cat3("this file was already imported (import #", int_string(id).as_str(), ")").as_str()));
        }
    }
    let p = match parse(s, q.content, q.mapping) {
        Ok(p) => p,
        Err(e) => {
            return Err(e);
        },
    };
    assert(p@.lines.len() == p.lines@.len());
    if p.lines.len() as u128 + p.skipped_records as u128 >= 2147483647 {
        return Err(invalid("the file has too many lines"));
    }
    if same(s, "remessa_csv") {
        return plan_exchanges(q, p, accounts, uid, now);
    }
    if q.preview && q.account_id.is_none() {
        let lines = preview_lines(&p.lines);
        let ghost ls = Seq::new(p@.lines.len(), |i: int| untyped(p@.lines[i], i));
        assert(shown_statements(lines@) =~= ls);
        assert(shown_statements(lines@).len() == lines@.len());
        let options = cat3("{\"currency\":", json_string(p.currency.as_str()).as_str(), "}");
        proof {
            reveal_strlit("");
            assert(""@ =~= Seq::<char>::empty());
        }
        let import = import_record(s, None, q.filename, q.content, true, "", now, options, &p, &lines, p.period_from, p.period_to);
        return Ok(ImportOutcome { import, lines, parse: p });
    }
    let id = match q.account_id {
        Some(id) => id,
        None => {
            return Err(invalid("choose the account this statement belongs to"));
        },
    };
    match get_account(accounts, id) {
        Ok(a) => plan_statement(s, q, p, a, uid, now),
        Err(e) => Err(e),
    }
}

/// The days of statement lines lie between the first and the last that are taken of them, and these are days of
/// lines.
pub proof fn law_days_cover(ls: Seq<ShownStatement>, n: nat)
    requires
        n <= ls.len(),
    ensures
        forall|i: int|
            0 <= i < n && (#[trigger] ls[i]).date is Some ==> first_day(ls, n) is Some && last_day(ls, n) is Some && !(ls[i].date->0).before(
                first_day(ls, n)->0,
            ) && !(last_day(ls, n)->0).before(ls[i].date->0),
        first_day(ls, n) is Some ==> exists|i: int| 0 <= i < n && (#[trigger] ls[i]).date == first_day(ls, n),
        last_day(ls, n) is Some ==> exists|i: int| 0 <= i < n && (#[trigger] ls[i]).date == last_day(ls, n),
    decreases n,
{
    if n > 0 {
        let m = (n - 1) as nat;
        law_days_cover(ls, m);
        if first_day(ls, n) is Some {
            if first_day(ls, n) == first_day(ls, m) {
                let i = choose|i: int| 0 <= i < m && (#[trigger] ls[i]).date == first_day(ls, m);
                assert(ls[i].date == first_day(ls, n) && i < n);
            } else {
                assert(ls[n - 1].date == first_day(ls, n));
            }
        }
        if last_day(ls, n) is Some {
            if last_day(ls, n) == last_day(ls, m) {
                let i = choose|i: int| 0 <= i < m && (#[trigger] ls[i]).date == last_day(ls, m);
                assert(ls[i].date == last_day(ls, n) && i < n);
            } else {
                assert(ls[n - 1].date == last_day(ls, n));
            }
        }
    }
}

/// Every line of an import has one status: the counts of different ones add up to no more than the lines.
pub proof fn law_counts_apart(ls: Seq<ShownStatement>, a: Seq<char>, b: Seq<char>, n: nat)
    requires
        a != b,
        n <= ls.len(),
    ensures
        count_of(ls, a, n) + count_of(ls, b, n) <= n,
        count_of(ls, a, n) == n ==> forall|i: int| 0 <= i < n ==> (#[trigger] ls[i]).status == a,
    decreases n,
{
    if n > 0 {
        law_counts_apart(ls, a, b, (n - 1) as nat);
    }
}

} // verus!
