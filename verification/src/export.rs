//! Read-only book-value exports.

use vstd::prelude::*;

use crate::accounts::{find_place, place_of};
use crate::codec::{json_string, json_text};
use crate::date::{iso, iso_text};
use crate::decimal::{decimal_text, normal};
use crate::entities::{entity_place, get_entity};
use crate::error::{invalid, Refusal, Result};
use crate::model::{root_text, status_text, Account, Entity, EntryStatus, JournalEntry, Posting};
use crate::order::{sort_texts, sorted_texts};
use crate::text::{among, ascii_alnum, cat, cat3, chars, glue, glued, int_string, int_text, is_alnum, is_upper, join, joined, own, starts, starts_with, str_texts, texts};

verus! {

/// A text with every character but ASCII letters and digits replaced by a hyphen.
pub open spec fn label_text(s: Seq<char>) -> Seq<char> {
    s.map_values(
        |c: char|
            if is_alnum(c) {
                c
            } else {
                '-'
            },
    )
}

pub fn label(value: &str) -> (r: String)
    ensures
        r@ == label_text(value@),
{
    let cs = chars(value);
    let mut r: String = String::new();
    let mut i: usize = 0;
    while i < cs.len()
        invariant
            i <= cs.len(),
            cs@ == value@,
            r@ == label_text(value@).take(i as int),
        decreases cs.len() - i,
    {
        let ghost before = r@;
        if ascii_alnum(cs[i]) {
            r.push(cs[i]);
        } else {
            r.push('-');
        }
        assert(r@ =~= label_text(value@).take(i + 1));
        i = i + 1;
    }
    assert(r@ =~= label_text(value@));
    r
}

pub open spec fn upper_hex_digit(n: int) -> char {
    if n < 10 {
        (n + 48) as char
    } else {
        (n + 55) as char
    }
}

/// Two upper-case hexadecimal digits for each byte.
pub open spec fn upper_hex(b: Seq<u8>) -> Seq<char>
    decreases b.len(),
{
    if b.len() == 0 {
        Seq::empty()
    } else {
        upper_hex(b.drop_last()) + seq![upper_hex_digit(b.last() as int / 16), upper_hex_digit(b.last() as int % 16)]
    }
}

/// Whether a code can stand as it is. The escape prefix is reserved, so that the codes remain
/// free of collisions.
pub open spec fn plain_code(code: Seq<char>) -> bool {
    !starts(code, "MEANSX"@) && code.len() > 0 && is_upper(code[0]) && is_alnum(code.last())
}

pub open spec fn unit_text(code: Seq<char>) -> Seq<char> {
    if plain_code(code) {
        code
    } else {
        "MEANSX"@ + upper_hex(vstd::utf8::encode_utf8(code))
    }
}

fn upper_hex_char(n: u8) -> (r: char)
    requires
        n < 16,
    ensures
        r == upper_hex_digit(n as int),
{
    if n < 10 {
        (n + 48) as char
    } else {
        (n + 55) as char
    }
}

pub fn currency(code: &str) -> (r: String)
    ensures
        r@ == unit_text(code@),
{
    let cs = chars(code);
    if !starts_with(code, "MEANSX") && cs.len() > 0 && cs[0] >= 'A' && cs[0] <= 'Z' && ascii_alnum(cs[cs.len() - 1]) {
        return own(code);
    }
    let bytes = code.as_bytes();
    let mut r: String = own("MEANSX");
    let mut i: usize = 0;
    assert(r@ =~= "MEANSX"@ + upper_hex(bytes@.take(0)));
    while i < bytes.len()
        invariant
            i <= bytes.len(),
            r@ == "MEANSX"@ + upper_hex(bytes@.take(i as int)),
        decreases bytes.len() - i,
    {
        let ghost before = r@;
        let b: u8 = bytes[i];
        r.push(upper_hex_char(b / 16));
        r.push(upper_hex_char(b % 16));
        assert(bytes@.take(i + 1).drop_last() =~= bytes@.take(i as int));
        assert(r@ =~= "MEANSX"@ + upper_hex(bytes@.take(i + 1)));
        i = i + 1;
    }
    assert(bytes@.take(i as int) == bytes@);
    r
}

proof fn lemma_upper_hex_length(a: Seq<u8>)
    ensures
        upper_hex(a).len() == 2 * a.len(),
    decreases a.len(),
{
    if a.len() > 0 {
        lemma_upper_hex_length(a.drop_last());
    }
}

proof fn lemma_upper_hex(a: Seq<u8>, b: Seq<u8>)
    requires
        upper_hex(a) == upper_hex(b),
    ensures
        a == b,
    decreases a.len(),
{
    lemma_upper_hex_length(a);
    lemma_upper_hex_length(b);
    if a.len() > 0 {
        let (l, r) = (upper_hex(a), upper_hex(b));
        let n = l.len() as int;
        assert(l[n - 2] == upper_hex_digit(a.last() as int / 16) && l[n - 1] == upper_hex_digit(a.last() as int % 16));
        assert(r[n - 2] == upper_hex_digit(b.last() as int / 16) && r[n - 1] == upper_hex_digit(b.last() as int % 16));
        assert(a.last() == b.last());
        assert(upper_hex(a.drop_last()) =~= l.take(n - 2));
        assert(upper_hex(b.drop_last()) =~= r.take(n - 2));
        lemma_upper_hex(a.drop_last(), b.drop_last());
        assert(a =~= a.drop_last().push(a.last()));
        assert(b =~= b.drop_last().push(b.last()));
    } else {
        assert(a =~= b);
    }
}

/// The exported units are unambiguous: different codes have different units.
pub proof fn law_units_unambiguous(a: Seq<char>, b: Seq<char>)
    requires
        unit_text(a) == unit_text(b),
    ensures
        a == b,
{
    let p = "MEANSX"@;
    let (x, y) = (vstd::utf8::encode_utf8(a), vstd::utf8::encode_utf8(b));
    assert((p + upper_hex(x)).take(p.len() as int) =~= p);
    assert((p + upper_hex(y)).take(p.len() as int) =~= p);
    assert(starts(p + upper_hex(x), p));
    assert(starts(p + upper_hex(y), p));
    if !plain_code(a) && !plain_code(b) {
        assert((p + upper_hex(x)).skip(p.len() as int) =~= upper_hex(x));
        assert((p + upper_hex(y)).skip(p.len() as int) =~= upper_hex(y));
        lemma_upper_hex(x, y);
        vstd::utf8::encode_utf8_decode_utf8(a);
        vstd::utf8::encode_utf8_decode_utf8(b);
    }
}

/// The different currencies of the first `n` entities, in order.
pub open spec fn codes_of(entities: Seq<Entity>, n: nat) -> Seq<Seq<char>>
    decreases n,
{
    if n == 0 {
        Seq::empty()
    } else {
        let rest = codes_of(entities, (n - 1) as nat);
        let code = entities[n - 1].currency@;
        if rest.contains(code) {
            rest
        } else {
            rest.push(code)
        }
    }
}

pub open spec fn unit_block(code: Seq<char>) -> Seq<char> {
    glued(
        seq![
            "option \"operating_currency\" "@,
            json_text(unit_text(code)),
            "\n0001-01-01 commodity "@,
            unit_text(code),
            "\n  means-currency: "@,
            json_text(code),
            "\n\n"@,
        ],
    )
}

fn unit_rows(code: &str) -> (r: String)
    ensures
        r@ == unit_block(code@),
{
    let unit = currency(code);
    let (a, b) = (json_string(unit.as_str()), json_string(code));
    let parts: [&str; 7] = [
        "option \"operating_currency\" ",
        a.as_str(),
        "\n0001-01-01 commodity ",
        unit.as_str(),
        "\n  means-currency: ",
        b.as_str(),
        "\n\n",
    ];
    assert(str_texts(parts@) =~= seq![
        "option \"operating_currency\" "@,
        json_text(unit_text(code@)),
        "\n0001-01-01 commodity "@,
        unit_text(code@),
        "\n  means-currency: "@,
        json_text(code@),
        "\n\n"@,
    ]);
    glue(&parts)
}

pub open spec fn account_name(e: Entity, a: Account) -> Seq<char> {
    glued(
        seq![
            root_text(a.account_type),
            ":E"@,
            int_text(e.id as int),
            "-"@,
            label_text(e.name@),
            ":A"@,
            int_text(a.id as int),
            "-"@,
            label_text(a.name@),
        ],
    )
}

fn name_of(e: &Entity, a: &Account) -> (r: String)
    ensures
        r@ == account_name(*e, *a),
{
    let (eid, aid) = (int_string(e.id), int_string(a.id));
    let (en, an) = (label(e.name.as_str()), label(a.name.as_str()));
    let parts: [&str; 9] = [
        a.account_type.root_name(),
        ":E",
        eid.as_str(),
        "-",
        en.as_str(),
        ":A",
        aid.as_str(),
        "-",
        an.as_str(),
    ];
    assert(str_texts(parts@) =~= seq![
        root_text(a.account_type),
        ":E"@,
        int_text(e.id as int),
        "-"@,
        label_text(e.name@),
        ":A"@,
        int_text(a.id as int),
        "-"@,
        label_text(a.name@),
    ]);
    glue(&parts)
}

pub open spec fn open_block(e: Entity, a: Account) -> Seq<char> {
    glued(
        seq![
            "0001-01-01 open "@,
            account_name(e, a),
            " "@,
            unit_text(e.currency@),
            "\n  means-entity-id: "@,
            int_text(e.id as int),
            "\n  means-entity: "@,
            json_text(e.name@),
            "\n  means-account-id: "@,
            int_text(a.id as int),
            "\n  means-path: "@,
            json_text(a.path@),
            "\n\n"@,
        ],
    )
}

fn open_rows(e: &Entity, a: &Account) -> (r: String)
    ensures
        r@ == open_block(*e, *a),
{
    let (name, unit) = (name_of(e, a), currency(e.currency.as_str()));
    let (eid, aid) = (int_string(e.id), int_string(a.id));
    let (en, path) = (json_string(e.name.as_str()), json_string(a.path.as_str()));
    let parts: [&str; 13] = [
        "0001-01-01 open ",
        name.as_str(),
        " ",
        unit.as_str(),
        "\n  means-entity-id: ",
        eid.as_str(),
        "\n  means-entity: ",
        en.as_str(),
        "\n  means-account-id: ",
        aid.as_str(),
        "\n  means-path: ",
        path.as_str(),
        "\n\n",
    ];
    assert(str_texts(parts@) =~= seq![
        "0001-01-01 open "@,
        account_name(*e, *a),
        " "@,
        unit_text(e.currency@),
        "\n  means-entity-id: "@,
        int_text(e.id as int),
        "\n  means-entity: "@,
        json_text(e.name@),
        "\n  means-account-id: "@,
        int_text(a.id as int),
        "\n  means-path: "@,
        json_text(a.path@),
        "\n\n"@,
    ]);
    glue(&parts)
}

/// The units of the first `n` codes.
pub open spec fn units_text(codes: Seq<Seq<char>>, n: nat) -> Seq<char>
    decreases n,
{
    if n == 0 {
        Seq::empty()
    } else {
        units_text(codes, (n - 1) as nat) + unit_block(codes[n - 1])
    }
}

/// The accounts of an entity among the first `n`.
pub open spec fn entity_opens(e: Entity, accounts: Seq<Account>, n: nat) -> Seq<char>
    decreases n,
{
    if n == 0 {
        Seq::empty()
    } else if accounts[n - 1].entity_id == e.id {
        entity_opens(e, accounts, (n - 1) as nat) + open_block(e, accounts[n - 1])
    } else {
        entity_opens(e, accounts, (n - 1) as nat)
    }
}

pub open spec fn opens_text(entities: Seq<Entity>, accounts: Seq<Account>, n: nat) -> Seq<char>
    decreases n,
{
    if n == 0 {
        Seq::empty()
    } else {
        opens_text(entities, accounts, (n - 1) as nat) + entity_opens(entities[n - 1], accounts, accounts.len())
    }
}

/// What comes before the entries.
pub open spec fn preamble(entities: Seq<Entity>, accounts: Seq<Account>) -> Seq<char> {
    let codes = sorted_texts(codes_of(entities, entities.len()));
    "; means book-value export: original quantities are posting metadata.\noption \"title\" \"means books\"\n\n"@ + units_text(
        codes,
        codes.len(),
    ) + opens_text(entities, accounts, entities.len())
}

fn distinct_codes(entities: &[Entity]) -> (r: Vec<String>)
    ensures
        texts(r@) == codes_of(entities@, entities@.len()),
{
    let mut r: Vec<String> = Vec::new();
    let mut i: usize = 0;
    assert(texts(r@) =~= codes_of(entities@, 0));
    while i < entities.len()
        invariant
            i <= entities.len(),
            texts(r@) == codes_of(entities@, i as nat),
        decreases entities.len() - i,
    {
        if !among(&r, entities[i].currency.as_str()) {
            let ghost before = texts(r@);
            let code = own(entities[i].currency.as_str());
            r.push(code);
            assert(texts(r@) =~= before.push(entities@[i as int].currency@));
        }
        i = i + 1;
    }
    r
}

fn opening(entities: &[Entity], accounts: &[Account]) -> (r: String)
    ensures
        r@ == preamble(entities@, accounts@),
{
    let distinct = distinct_codes(entities);
    let codes = sort_texts(&distinct);
    let ghost cs = texts(codes@);
    let ghost head = "; means book-value export: original quantities are posting metadata.\noption \"title\" \"means books\"\n\n"@;
    let mut r = own("; means book-value export: original quantities are posting metadata.\noption \"title\" \"means books\"\n\n");
    let mut i: usize = 0;
    assert(r@ =~= head + units_text(cs, 0));
    while i < codes.len()
        invariant
            i <= codes.len(),
            cs == texts(codes@),
            r@ == head + units_text(cs, i as nat),
        decreases codes.len() - i,
    {
        let ghost before = r@;
        let rows = unit_rows(codes[i].as_str());
        r.append(rows.as_str());
        assert(cs[i as int] == codes@[i as int]@);
        assert(r@ =~= head + units_text(cs, (i + 1) as nat));
        i = i + 1;
    }
    let ghost first = r@;
    assert(r@ =~= first + opens_text(entities@, accounts@, 0));
    let mut j: usize = 0;
    while j < entities.len()
        invariant
            j <= entities.len(),
            r@ == first + opens_text(entities@, accounts@, j as nat),
        decreases entities.len() - j,
    {
        let ghost base = r@;
        let mut k: usize = 0;
        assert(r@ =~= base + entity_opens(entities@[j as int], accounts@, 0));
        while k < accounts.len()
            invariant
                j < entities.len(),
                k <= accounts.len(),
                r@ == base + entity_opens(entities@[j as int], accounts@, k as nat),
            decreases accounts.len() - k,
        {
            if accounts[k].entity_id == entities[j].id {
                let ghost before = r@;
                let rows = open_rows(&entities[j], &accounts[k]);
                r.append(rows.as_str());
                assert(r@ =~= base + entity_opens(entities@[j as int], accounts@, (k + 1) as nat));
            }
            k = k + 1;
        }
        assert(r@ =~= first + opens_text(entities@, accounts@, (j + 1) as nat));
        j = j + 1;
    }
    assert(r@ =~= preamble(entities@, accounts@));
    r
}

/// The exported name of an account, where the account and its entity are there.
pub open spec fn name_for(entities: Seq<Entity>, accounts: Seq<Account>, id: i64) -> Option<Seq<char>> {
    match place_of(accounts, id) {
        Some(i) => match entity_place(entities, accounts[i].entity_id, 0) {
            Some(j) => Some(account_name(entities[j], accounts[i])),
            None => None,
        },
        None => None,
    }
}

pub open spec fn posting_block(name: Seq<char>, unit: Seq<char>, p: Posting) -> Seq<char> {
    glued(
        seq![
            "  "@,
            name,
            "  "@,
            decimal_text(normal((p.amount@.minor, p.amount@.precision))),
            " "@,
            unit,
            "\n    means-posting-id: "@,
            int_text(p.id as int),
            "\n    means-quantity: "@,
            decimal_text(normal((p.quantity@.minor, p.quantity@.precision))),
            "\n    means-commodity: "@,
            json_text(p.quantity@.commodity),
            "\n    means-memo: "@,
            json_text(p.memo@),
            "\n"@,
        ],
    )
}

fn posting_rows(name: &str, unit: &str, p: &Posting) -> (r: String)
    ensures
        r@ == posting_block(name@, unit@, *p),
{
    let (amount, quantity) = (p.amount.major().text(), p.quantity.major().text());
    let (id, commodity, memo) = (int_string(p.id), json_string(p.quantity.commodity().as_str()), json_string(p.memo.as_str()));
    let parts: [&str; 15] = [
        "  ",
        name,
        "  ",
        amount.as_str(),
        " ",
        unit,
        "\n    means-posting-id: ",
        id.as_str(),
        "\n    means-quantity: ",
        quantity.as_str(),
        "\n    means-commodity: ",
        commodity.as_str(),
        "\n    means-memo: ",
        memo.as_str(),
        "\n",
    ];
    assert(str_texts(parts@) =~= seq![
        "  "@,
        name@,
        "  "@,
        decimal_text(normal((p.amount@.minor, p.amount@.precision))),
        " "@,
        unit@,
        "\n    means-posting-id: "@,
        int_text(p.id as int),
        "\n    means-quantity: "@,
        decimal_text(normal((p.quantity@.minor, p.quantity@.precision))),
        "\n    means-commodity: "@,
        json_text(p.quantity@.commodity),
        "\n    means-memo: "@,
        json_text(p.memo@),
        "\n"@,
    ]);
    glue(&parts)
}

/// The first `n` postings of an entry, or the refusal of the first whose account is not there.
pub open spec fn postings_text(
    entities: Seq<Entity>,
    accounts: Seq<Account>,
    unit: Seq<char>,
    postings: Seq<Posting>,
    n: nat,
) -> std::result::Result<Seq<char>, Refusal>
    decreases n,
{
    if n == 0 {
        Ok(Seq::empty())
    } else {
        match postings_text(entities, accounts, unit, postings, (n - 1) as nat) {
            Err(e) => Err(e),
            Ok(t) => {
                let p = postings[n - 1];
                match name_for(entities, accounts, p.account_id) {
                    Some(name) => Ok(t + posting_block(name, unit, p)),
                    None => Err(Refusal::Invalid("posting "@ + int_text(p.id as int) + ": missing account"@)),
                }
            },
        }
    }
}

/// A JSON list of texts.
pub open spec fn json_list(ts: Seq<Seq<char>>) -> Seq<char> {
    "["@ + joined(ts.map_values(|t: Seq<char>| json_text(t)), ","@) + "]"@
}

pub open spec fn optional_row(name: Seq<char>, id: Option<i64>) -> Seq<char> {
    match id {
        Some(i) => name + int_text(i as int) + "\n"@,
        None => Seq::empty(),
    }
}

pub open spec fn entry_head(e: JournalEntry) -> Seq<char> {
    glued(
        seq![
            iso_text(e.date),
            " * "@,
            json_text(e.display_payee@),
            " "@,
            json_text(e.description@),
            "\n  means_booked_payee: "@,
            json_text(e.payee@),
            "\n  means-entry-id: "@,
            int_text(e.id as int),
            "\n  means-entry-uid: "@,
            json_text(e.uid@),
            "\n  means-entity-id: "@,
            int_text(e.entity_id as int),
            "\n  means-status: "@,
            json_text(status_text(e.status)),
            "\n  means-notes: "@,
            json_text(e.notes@),
            "\n  means-tags: "@,
            json_text(json_list(texts(e.tags@))),
            "\n"@,
            optional_row("  means-reverses-id: "@, e.reverses_id),
            optional_row("  means-refund-of-id: "@, e.refund_of_id),
        ],
    )
}

fn json_strings(ts: &[String]) -> (r: String)
    ensures
        r@ == json_list(texts(ts@)),
{
    let ghost want = texts(ts@).map_values(|t: Seq<char>| json_text(t));
    let mut rows: Vec<String> = Vec::new();
    let mut i: usize = 0;
    while i < ts.len()
        invariant
            i <= ts.len(),
            want == texts(ts@).map_values(|t: Seq<char>| json_text(t)),
            texts(rows@) == want.take(i as int),
        decreases ts.len() - i,
    {
        let ghost before = texts(rows@);
        let row = json_string(ts[i].as_str());
        rows.push(row);
        assert(texts(rows@) =~= before.push(row@));
        assert(want.take(i + 1) =~= want.take(i as int).push(row@));
        i = i + 1;
    }
    assert(texts(rows@) =~= want);
    cat3("[", join(&rows, ",").as_str(), "]")
}

fn optional_rows(name: &str, id: Option<i64>) -> (r: String)
    ensures
        r@ == optional_row(name@, id),
{
    match id {
        Some(i) => cat3(name, int_string(i).as_str(), "\n"),
        None => String::new(),
    }
}

fn head_rows(e: &JournalEntry) -> (r: String)
    ensures
        r@ == entry_head(*e),
{
    let date = iso(e.date);
    let (display, description, payee) = (
        json_string(e.display_payee.as_str()),
        json_string(e.description.as_str()),
        json_string(e.payee.as_str()),
    );
    let (id, uid, entity) = (int_string(e.id), json_string(e.uid.as_str()), int_string(e.entity_id));
    let (status, notes) = (json_string(e.status.as_str()), json_string(e.notes.as_str()));
    let tags = json_string(json_strings(&e.tags).as_str());
    let (reverses, refunds) = (
        optional_rows("  means-reverses-id: ", e.reverses_id),
        optional_rows("  means-refund-of-id: ", e.refund_of_id),
    );
    let parts: [&str; 22] = [
        date.as_str(),
        " * ",
        display.as_str(),
        " ",
        description.as_str(),
        "\n  means_booked_payee: ",
        payee.as_str(),
        "\n  means-entry-id: ",
        id.as_str(),
        "\n  means-entry-uid: ",
        uid.as_str(),
        "\n  means-entity-id: ",
        entity.as_str(),
        "\n  means-status: ",
        status.as_str(),
        "\n  means-notes: ",
        notes.as_str(),
        "\n  means-tags: ",
        tags.as_str(),
        "\n",
        reverses.as_str(),
        refunds.as_str(),
    ];
    assert(str_texts(parts@) =~= seq![
        iso_text(e.date),
        " * "@,
        json_text(e.display_payee@),
        " "@,
        json_text(e.description@),
        "\n  means_booked_payee: "@,
        json_text(e.payee@),
        "\n  means-entry-id: "@,
        int_text(e.id as int),
        "\n  means-entry-uid: "@,
        json_text(e.uid@),
        "\n  means-entity-id: "@,
        int_text(e.entity_id as int),
        "\n  means-status: "@,
        json_text(status_text(e.status)),
        "\n  means-notes: "@,
        json_text(e.notes@),
        "\n  means-tags: "@,
        json_text(json_list(texts(e.tags@))),
        "\n"@,
        optional_row("  means-reverses-id: "@, e.reverses_id),
        optional_row("  means-refund-of-id: "@, e.refund_of_id),
    ]);
    glue(&parts)
}

/// The text of an entry, or why it cannot be exported.
pub open spec fn entry_text(entities: Seq<Entity>, accounts: Seq<Account>, e: JournalEntry) -> std::result::Result<Seq<char>, Refusal> {
    if !(1 <= e.date.y() <= 9999) {
        Err(Refusal::Invalid("entry "@ + int_text(e.id as int) + ": date is outside Beancount's supported range"@))
    } else {
        match entity_place(entities, e.entity_id, 0) {
            None => Err(Refusal::Invalid("entry "@ + int_text(e.id as int) + ": missing entity"@)),
            Some(j) => match postings_text(entities, accounts, unit_text(entities[j].currency@), e.postings@, e.postings@.len()) {
                Err(r) => Err(r),
                Ok(t) => Ok(entry_head(e) + t + "\n"@),
            },
        }
    }
}

fn name_at(entities: &[Entity], accounts: &[Account], id: i64) -> (r: Option<String>)
    ensures
        match r {
            Some(s) => name_for(entities@, accounts@, id) == Some(s@),
            None => name_for(entities@, accounts@, id) is None,
        },
{
    match find_place(accounts, id) {
        Some(i) => match get_entity(entities, accounts[i].entity_id) {
            Ok(e) => Some(name_of(e, &accounts[i])),
            Err(_) => None,
        },
        None => None,
    }
}

proof fn lemma_postings_failed(entities: Seq<Entity>, accounts: Seq<Account>, unit: Seq<char>, postings: Seq<Posting>, n: nat, m: nat)
    requires
        n <= m,
        postings_text(entities, accounts, unit, postings, n) is Err,
    ensures
        postings_text(entities, accounts, unit, postings, m) == postings_text(entities, accounts, unit, postings, n),
    decreases m - n,
{
    if n < m {
        lemma_postings_failed(entities, accounts, unit, postings, n, (m - 1) as nat);
    }
}

pub fn beancount_entry(entities: &[Entity], accounts: &[Account], e: &JournalEntry) -> (r: Result<String>)
    ensures
        match r {
            Ok(t) => entry_text(entities@, accounts@, *e) == Ok::<Seq<char>, Refusal>(t@),
            Err(x) => entry_text(entities@, accounts@, *e) == Err::<Seq<char>, Refusal>(x@),
        },
{
    let year = e.date.year();
    if !(1 <= year && year <= 9999) {
        return Err(invalid(cat3("entry ", int_string(e.id).as_str(), ": date is outside Beancount's supported range").as_str()));
    }
    let entity = match get_entity(entities, e.entity_id) {
        Ok(x) => x,
        Err(_) => {
            return Err(invalid(cat3("entry ", int_string(e.id).as_str(), ": missing entity").as_str()));
        },
    };
    let unit = currency(entity.currency.as_str());
    let mut rows: String = String::new();
    let mut i: usize = 0;
    assert(postings_text(entities@, accounts@, unit@, e.postings@, 0) == Ok::<Seq<char>, Refusal>(rows@));
    while i < e.postings.len()
        invariant
            i <= e.postings.len(),
            1 <= e.date.y() <= 9999,
            entity_place(entities@, e.entity_id, 0) is Some,
            unit@ == unit_text(entities@[entity_place(entities@, e.entity_id, 0)->0].currency@),
            postings_text(entities@, accounts@, unit@, e.postings@, i as nat) == Ok::<Seq<char>, Refusal>(rows@),
        decreases e.postings.len() - i,
    {
        match name_at(entities, accounts, e.postings[i].account_id) {
            Some(name) => {
                let ghost before = rows@;
                let row = posting_rows(name.as_str(), unit.as_str(), &e.postings[i]);
                rows.append(row.as_str());
            },
            None => {
                proof {
                    lemma_postings_failed(entities@, accounts@, unit@, e.postings@, (i + 1) as nat, e.postings@.len());
                }
                return Err(invalid(cat3("posting ", int_string(e.postings[i].id).as_str(), ": missing account").as_str()));
            },
        }
        i = i + 1;
    }
    let head = head_rows(e);
    Ok(cat3(head.as_str(), rows.as_str(), "\n"))
}

/// The text of the booked ones among the first `n` entries, or why one cannot be exported.
pub open spec fn entries_text(
    entities: Seq<Entity>,
    accounts: Seq<Account>,
    entries: Seq<JournalEntry>,
    n: nat,
) -> std::result::Result<Seq<char>, Refusal>
    decreases n,
{
    if n == 0 {
        Ok(Seq::empty())
    } else {
        match entries_text(entities, accounts, entries, (n - 1) as nat) {
            Err(e) => Err(e),
            Ok(t) => if entries[n - 1].status == EntryStatus::Draft {
                Ok(t)
            } else {
                match entry_text(entities, accounts, entries[n - 1]) {
                    Err(e) => Err(e),
                    Ok(s) => Ok(t + s),
                }
            },
        }
    }
}

pub open spec fn document(entities: Seq<Entity>, accounts: Seq<Account>, entries: Seq<JournalEntry>) -> std::result::Result<
    Seq<char>,
    Refusal,
> {
    match entries_text(entities, accounts, entries, entries.len()) {
        Err(e) => Err(e),
        Ok(t) => Ok(preamble(entities, accounts) + t),
    }
}

proof fn lemma_entries_failed(entities: Seq<Entity>, accounts: Seq<Account>, entries: Seq<JournalEntry>, n: nat, m: nat)
    requires
        n <= m,
        entries_text(entities, accounts, entries, n) is Err,
    ensures
        entries_text(entities, accounts, entries, m) == entries_text(entities, accounts, entries, n),
    decreases m - n,
{
    if n < m {
        lemma_entries_failed(entities, accounts, entries, n, (m - 1) as nat);
    }
}

/// Exports all entities, archived books and closed accounts among them. Only posted and void
/// entries contribute to booked balances; reversals remain ordinary entries. The entries stand
/// in the order of their dates.
pub fn beancount(entities: &[Entity], accounts: &[Account], entries: &[JournalEntry]) -> (r: Result<String>)
    ensures
        match r {
            Ok(t) => document(entities@, accounts@, entries@) == Ok::<Seq<char>, Refusal>(t@),
            Err(x) => document(entities@, accounts@, entries@) == Err::<Seq<char>, Refusal>(x@),
        },
{
    let mut rows: String = String::new();
    let mut i: usize = 0;
    assert(entries_text(entities@, accounts@, entries@, 0) == Ok::<Seq<char>, Refusal>(rows@));
    while i < entries.len()
        invariant
            i <= entries.len(),
            entries_text(entities@, accounts@, entries@, i as nat) == Ok::<Seq<char>, Refusal>(rows@),
        decreases entries.len() - i,
    {
        if entries[i].status != EntryStatus::Draft {
            match beancount_entry(entities, accounts, &entries[i]) {
                Ok(t) => {
                    rows.append(t.as_str());
                },
                Err(e) => {
                    proof {
                        lemma_entries_failed(entities@, accounts@, entries@, (i + 1) as nat, entries@.len());
                    }
                    return Err(e);
                },
            }
        }
        i = i + 1;
    }
    let head = opening(entities, accounts);
    Ok(cat(head.as_str(), rows.as_str()))
}

/// A draft adds nothing to the export.
pub proof fn law_drafts_not_exported(entities: Seq<Entity>, accounts: Seq<Account>, entries: Seq<JournalEntry>, draft: JournalEntry)
    requires
        draft.status == EntryStatus::Draft,
    ensures
        document(entities, accounts, entries.push(draft)) == document(entities, accounts, entries),
{
    lemma_entries_prefix(entities, accounts, entries, entries.push(draft), entries.len());
}

proof fn lemma_entries_prefix(entities: Seq<Entity>, accounts: Seq<Account>, a: Seq<JournalEntry>, b: Seq<JournalEntry>, n: nat)
    requires
        n <= a.len(),
        n <= b.len(),
        forall|k: int| 0 <= k < n ==> a[k] == b[k],
    ensures
        entries_text(entities, accounts, a, n) == entries_text(entities, accounts, b, n),
    decreases n,
{
    if n > 0 {
        lemma_entries_prefix(entities, accounts, a, b, (n - 1) as nat);
    }
}

} // verus!
