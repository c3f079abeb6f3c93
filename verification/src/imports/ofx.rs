//! OFX statements (1.x SGML and 2.x XML), as exported by Banco Inter and most banks.

use vstd::prelude::*;

use crate::codec::json_text;
use crate::date::{date_in, parse_with, Date};
use crate::decimal::{view_of, Decimal, Num};
use crate::error::{unreadable, Refusal, Result};
use crate::imports::csvkit::{decode, separator_in, text_in};
use crate::imports::{no_parse, opt_text, shown_lines, ParseOutput, ParsedLine, ShownLine, ShownParse};
use crate::model::{MetaEntry, MetaValue};
use crate::money::{guess_decimal_sep, localized, parse_localized};
use crate::text::{ascii_digit, cat3, chars, contains, find, holds, is_digit, lowercase_of, own, position, replace, replaced, slice_chars, starts, starts_with, string, to_lowercase, to_uppercase, trim, trim_chars, trimmed, upper, uppercase_of, uppered};

verus! {

/// A text without its entities.
pub open spec fn unescaped(s: Seq<char>) -> Seq<char> {
    replaced(
        replaced(replaced(replaced(replaced(s, "&amp;"@, "&"@), "&lt;"@, "<"@), "&gt;"@, ">"@), "&quot;"@, "\""@),
        "&apos;"@,
        "'"@,
    )
}

fn unescape(s: &str) -> (r: String)
    ensures
        r@ == unescaped(s@),
{
    proof {
        reveal_strlit("&amp;");
        reveal_strlit("&lt;");
        reveal_strlit("&gt;");
        reveal_strlit("&quot;");
        reveal_strlit("&apos;");
    }
    let a = replace(s, "&amp;", "&");
    let b = replace(a.as_str(), "&lt;", "<");
    let c = replace(b.as_str(), "&gt;", ">");
    let d = replace(c.as_str(), "&quot;", "\"");
    replace(d.as_str(), "&apos;", "'")
}

/// A place, or the end of a text.
pub open spec fn or_end(p: Option<int>, s: Seq<char>) -> int {
    match p {
        Some(i) => i,
        None => s.len() as int,
    }
}

/// What stands behind a tag, up to the next one.
pub open spec fn value_of(block: Seq<char>, tag: Seq<char>) -> Option<Seq<char>> {
    let open = "<"@ + tag + ">"@;
    match position(block, open, 0) {
        None => None,
        Some(p) => {
            let start = p + open.len();
            let v = trimmed(block.subrange(start, or_end(position(block, "<"@, start), block)));
            if v.len() == 0 {
                None
            } else {
                Some(unescaped(v))
            }
        },
    }
}

fn tag_value(block: &[char], tag: &str) -> (r: Option<String>)
    ensures
        opt_text(r) == value_of(block@, tag@),
{
    let open = chars(cat3("<", tag, ">").as_str());
    match find(block, &open, 0) {
        None => None,
        Some(p) => {
            let start: usize = p + open.len();
            let mark = chars("<");
            let end: usize = match find(block, &mark, start) {
                Some(e) => e,
                None => block.len(),
            };
            let v = trim_chars(&slice_chars(block, start, end));
            if v.len() == 0 {
                None
            } else {
                Some(unescape(string(&v).as_str()))
            }
        },
    }
}

pub open spec fn text_or_empty(t: Option<Seq<char>>) -> Seq<char> {
    match t {
        Some(s) => s,
        None => Seq::empty(),
    }
}

fn tag_text(block: &[char], tag: &str) -> (r: String)
    ensures
        r@ == text_or_empty(value_of(block@, tag@)),
{
    match tag_value(block, tag) {
        Some(s) => s,
        None => String::new(),
    }
}

/// How many digits a text starts with, from `i` on.
pub open spec fn digits_from(s: Seq<char>, i: int) -> int
    decreases s.len() - i,
{
    if i < 0 || i >= s.len() || !is_digit(s[i]) {
        i
    } else {
        digits_from(s, i + 1)
    }
}

/// The date that the first eight digits of a time stamp are.
pub open spec fn stamp_date(s: Seq<char>) -> Option<Date> {
    if digits_from(s, 0) < 8 {
        None
    } else {
        date_in(s.take(8), "%Y%m%d"@)
    }
}

fn parse_ofx_date(s: &str) -> (r: Option<Date>)
    ensures
        r == stamp_date(s@),
        r is Some ==> r->0.inv(),
{
    let cs = chars(s);
    let mut i: usize = 0;
    while i < cs.len() && ascii_digit(cs[i])
        invariant
            i <= cs.len(),
            cs@ == s@,
            digits_from(s@, 0) == digits_from(s@, i as int),
        decreases cs.len() - i,
    {
        i = i + 1;
    }
    if i < 8 {
        return None;
    }
    let digits = slice_chars(&cs, 0, 8);
    assert(digits@ =~= s@.take(8));
    parse_with(string(&digits).as_str(), "%Y%m%d")
}

pub open spec fn date_of(t: Option<Seq<char>>) -> Option<Date> {
    match t {
        Some(s) => stamp_date(s),
        None => None,
    }
}

fn tag_date(block: &[char], tag: &str) -> (r: Option<Date>)
    ensures
        r == date_of(value_of(block@, tag@)),
{
    match tag_value(block, tag) {
        Some(s) => parse_ofx_date(s.as_str()),
        None => None,
    }
}

/// A number with the decimal separator that it seems to have.
pub open spec fn number_of(t: Option<Seq<char>>) -> Option<Num> {
    match t {
        Some(s) => localized(s, separator_in(s)),
        None => None,
    }
}

fn tag_number(block: &[char], tag: &str) -> (r: Option<Decimal>)
    ensures
        view_of(r) == number_of(value_of(block@, tag@)),
{
    match tag_value(block, tag) {
        Some(s) => match parse_localized(s.as_str(), guess_decimal_sep(s.as_str())) {
            Ok(d) => Some(d),
            Err(_) => None,
        },
        None => None,
    }
}

/// The description of a movement. Inter repeats the NAME at the start of the MEMO: the memo stands
/// alone then.
pub open spec fn described(name: Seq<char>, memo: Seq<char>) -> Seq<char> {
    if name.len() == 0 {
        memo
    } else if memo.len() == 0 {
        name
    } else if starts(lowercase_of(memo), lowercase_of(name)) {
        memo
    } else {
        name + " "@ + memo
    }
}

pub open spec fn json_or_null(t: Option<Seq<char>>) -> Seq<char> {
    match t {
        Some(s) => json_text(s),
        None => "null"@,
    }
}

/// The line of a block of tags.
#[verifier::opaque]
pub open spec fn block_line(block: Seq<char>, currency: Seq<char>) -> ShownLine {
    let date = date_of(value_of(block, "DTPOSTED"@));
    let amount = number_of(value_of(block, "TRNAMT"@));
    let name = text_or_empty(value_of(block, "NAME"@));
    let memo = text_or_empty(value_of(block, "MEMO"@));
    let number = text_or_empty(value_of(block, "REFNUM"@));
    let id = match value_of(block, "FITID"@) {
        Some(s) => s,
        None => number,
    };
    ShownLine {
        date,
        amount,
        currency,
        description: trimmed(described(name, memo)),
        reference: id,
        balance_after: None,
        raw: seq![
            ("TRNTYPE"@, json_text(text_or_empty(value_of(block, "TRNTYPE"@)))),
            ("DTPOSTED"@, json_or_null(value_of(block, "DTPOSTED"@))),
            ("TRNAMT"@, json_or_null(value_of(block, "TRNAMT"@))),
            ("FITID"@, json_text(id)),
            ("NAME"@, json_text(name)),
            ("MEMO"@, json_text(memo)),
            ("CHECKNUM"@, json_or_null(value_of(block, "CHECKNUM"@))),
            ("REFNUM"@, json_text(number)),
        ],
        skip: if date is None || amount is None {
            Some("missing date or amount"@)
        } else {
            None
        },
        original: None,
    }
}

fn entry(key: &str, value: MetaValue) -> (r: MetaEntry)
    ensures
        r.key@ == key@,
        r.value == value,
{
    MetaEntry { key: own(key), value }
}

fn text_entry(key: &str, value: &str) -> (r: MetaEntry)
    ensures
        r.key@ == key@,
        crate::imports::value_text(r.value) == json_text(value@),
{
    entry(key, MetaValue::Text(own(value)))
}

fn tag_entry(block: &[char], key: &str) -> (r: MetaEntry)
    ensures
        r.key@ == key@,
        crate::imports::value_text(r.value) == json_or_null(value_of(block@, key@)),
{
    match tag_value(block, key) {
        Some(s) => text_entry(key, s.as_str()),
        None => entry(key, MetaValue::Other(own("null"))),
    }
}

fn read_block(block: &[char], currency: &str) -> (r: ParsedLine)
    ensures
        r@ == block_line(block@, currency@),
{
    proof {
        reveal(block_line);
    }
    let date = tag_date(block, "DTPOSTED");
    let amount = tag_number(block, "TRNAMT");
    let name = tag_text(block, "NAME");
    let memo = tag_text(block, "MEMO");
    let description = if name.as_str().is_empty() {
        own(memo.as_str())
    } else if memo.as_str().is_empty() {
        own(name.as_str())
    } else if starts_with(to_lowercase(memo.as_str()).as_str(), to_lowercase(name.as_str()).as_str()) {
        own(memo.as_str())
    } else {
        cat3(name.as_str(), " ", memo.as_str())
    };
    let number = tag_text(block, "REFNUM");
    let id = match tag_value(block, "FITID") {
        Some(s) => s,
        None => own(number.as_str()),
    };
    let mut raw: Vec<MetaEntry> = Vec::new();
    raw.push(text_entry("TRNTYPE", tag_text(block, "TRNTYPE").as_str()));
    raw.push(tag_entry(block, "DTPOSTED"));
    raw.push(tag_entry(block, "TRNAMT"));
    raw.push(text_entry("FITID", id.as_str()));
    raw.push(text_entry("NAME", name.as_str()));
    raw.push(text_entry("MEMO", memo.as_str()));
    raw.push(tag_entry(block, "CHECKNUM"));
    raw.push(text_entry("REFNUM", number.as_str()));
    let mut line = ParsedLine::empty();
    line.date = date;
    line.amount = amount;
    line.currency = own(currency);
    line.description = trim(description.as_str());
    line.reference = id;
    line.raw = raw;
    if date.is_none() || amount.is_none() {
        line.skip = Some(own("missing date or amount"));
    }
    assert(line@.raw =~= block_line(block@, currency@).raw);
    assert(line@ =~= block_line(block@, currency@));
    line
}

/// Where the block that starts at `i` ends.
pub open spec fn block_end(s: Seq<char>, i: int) -> int {
    match position(s, "</STMTTRN>"@, i) {
        Some(e) => e,
        None => or_end(position(s, "<STMTTRN>"@, i), s),
    }
}

/// The lines of the blocks from `i` on.
pub open spec fn lines_from(s: Seq<char>, currency: Seq<char>, i: int) -> Seq<ShownLine>
    decreases s.len() - i,
{
    match position(s, "<STMTTRN>"@, i) {
        None => Seq::empty(),
        Some(p) => {
            let start = p + 9;
            let end = block_end(s, start);
            if i <= p && start <= end <= s.len() {
                seq![block_line(s.subrange(start, end), currency)] + lines_from(s, currency, end)
            } else {
                Seq::empty()
            }
        },
    }
}

/// What an OFX file holds.
pub open spec fn parse_of(text: Seq<char>) -> std::result::Result<ShownParse, Refusal> {
    let raised = uppercase_of(text);
    if !holds(raised, "<STMTTRN>"@) && !holds(raised, "<OFX>"@) {
        Err(Refusal::Parse("not an OFX file (no <OFX> or <STMTTRN> tags)"@))
    } else {
        let currency = uppered(text_or_empty(value_of(text, "CURDEF"@)));
        let balance = match position(text, "<LEDGERBAL>"@, 0) {
            Some(p) => Some(text.skip(p)),
            None => None,
        };
        let ls = lines_from(text, currency, 0);
        Ok(
            ShownParse {
                lines: ls,
                currency,
                closing_balance: match balance {
                    Some(b) => number_of(value_of(b, "BALAMT"@)),
                    None => None,
                },
                closing_date: match balance {
                    Some(b) => date_of(value_of(b, "DTASOF"@)),
                    None => None,
                },
                period_from: date_of(value_of(text, "DTSTART"@)),
                period_to: date_of(value_of(text, "DTEND"@)),
                detected_source: "inter_ofx"@,
                account_ref: text_or_empty(value_of(text, "ACCTID"@)),
                warnings: if ls.len() == 0 {
                    seq!["no transactions found in the OFX file"@]
                } else {
                    Seq::empty()
                },
                ..no_parse()
            },
        )
    }
}

fn read_blocks(cs: &[char], currency: &str) -> (r: Vec<ParsedLine>)
    ensures
        shown_lines(r@) == lines_from(cs@, currency@, 0),
{
    let start_tag = chars("<STMTTRN>");
    let end_tag = chars("</STMTTRN>");
    proof {
        reveal_strlit("<STMTTRN>");
    }
    let mut r: Vec<ParsedLine> = Vec::new();
    let mut i: usize = 0;
    assert(shown_lines(r@) + lines_from(cs@, currency@, 0) =~= lines_from(cs@, currency@, 0));
    loop
        invariant
            i <= cs@.len(),
            start_tag@ == "<STMTTRN>"@,
            start_tag@.len() == 9,
            end_tag@ == "</STMTTRN>"@,
            shown_lines(r@) + lines_from(cs@, currency@, i as int) == lines_from(cs@, currency@, 0),
        ensures
            shown_lines(r@) == lines_from(cs@, currency@, 0),
        decreases cs@.len() - i,
    {
        match find(cs, &start_tag, i) {
            None => {
                assert(shown_lines(r@) + Seq::<ShownLine>::empty() =~= shown_lines(r@));
                break;
            },
            Some(p) => {
                let start: usize = p + 9;
                let end: usize = match find(cs, &end_tag, start) {
                    Some(e) => e,
                    None => match find(cs, &start_tag, start) {
                        Some(e) => e,
                        None => cs.len(),
                    },
                };
                let line = read_block(&slice_chars(cs, start, end), currency);
                let ghost before = shown_lines(r@);
                let ghost shown = line@;
                let ghost rest = lines_from(cs@, currency@, end as int);
                r.push(line);
                assert(shown_lines(r@) =~= before.push(shown));
                assert(shown_lines(r@) + rest =~= before + (seq![shown] + rest));
                i = end;
            },
        }
    }
    r
}

pub fn parse(content: &[u8]) -> (r: Result<ParseOutput>)
    ensures
        match r {
            Ok(p) => parse_of(text_in(content@)) == Ok::<ShownParse, Refusal>(p@),
            Err(e) => parse_of(text_in(content@)) == Err::<ShownParse, Refusal>(e@),
        },
{
    let text = decode(content);
    let raised = to_uppercase(text.as_str());
    if !contains(raised.as_str(), "<STMTTRN>") && !contains(raised.as_str(), "<OFX>") {
        return Err(unreadable("not an OFX file (no <OFX> or <STMTTRN> tags)"));
    }
    let cs = chars(text.as_str());
    let mut out = ParseOutput::empty();
    out.detected_source = own("inter_ofx");
    let currency = upper(tag_text(&cs, "CURDEF").as_str());
    let balance_tag = chars("<LEDGERBAL>");
    if let Some(p) = find(&cs, &balance_tag, 0) {
        let block = slice_chars(&cs, p, cs.len());
        assert(block@ =~= text@.skip(p as int));
        out.closing_balance = tag_number(&block, "BALAMT");
        out.closing_date = tag_date(&block, "DTASOF");
    }
    out.period_from = tag_date(&cs, "DTSTART");
    out.period_to = tag_date(&cs, "DTEND");
    out.account_ref = tag_text(&cs, "ACCTID");
    out.lines = read_blocks(&cs, currency.as_str());
    out.currency = currency;
    assert(shown_lines(out.lines@).len() == out.lines@.len());
    if out.lines.len() == 0 {
        let warning = own("no transactions found in the OFX file");
        out.warnings.push(warning);
    }
    proof {
        let spec = parse_of(text_in(content@));
        assert(spec is Ok);
        assert(out@.warnings =~= spec->Ok_0.warnings);
        assert(out@ =~= spec->Ok_0);
    }
    Ok(out)
}

} // verus!
