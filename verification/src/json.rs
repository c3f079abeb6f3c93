//! JSON documents, as text.
//!
//! A document is its text as serde_json writes it, and so is each value in it. What a document
//! holds is asked for by name or by place.

use vstd::prelude::*;

use crate::codec::json_text;
use crate::imports::{fields, opt_text};
use crate::model::{MetaEntry, MetaValue};
use crate::text::{int_in, own, parse_int, texts};

verus! {

/// The document in some bytes, or why they cannot be read.
pub uninterp spec fn document_in(b: Seq<u8>) -> std::result::Result<Seq<char>, Seq<char>>;

/// `serde_json::from_slice` reads the bytes, and what it read is written as text: the document, or
/// the text of the error. How JSON is read is not written out here.
#[verifier::external_body]
pub(crate) fn read_document(b: &[u8]) -> (r: std::result::Result<String, String>)
    ensures
        match r {
            Ok(d) => document_in(b@) == Ok::<Seq<char>, Seq<char>>(d@),
            Err(m) => document_in(b@) == Err::<Seq<char>, Seq<char>>(m@),
        },
{
    match serde_json::from_slice::<serde_json::Value>(b) {
        Ok(v) => Ok(v.to_string()),
        Err(e) => Err(e.to_string()),
    }
}

/// What a document holds under a name.
pub uninterp spec fn member_of(document: Seq<char>, name: Seq<char>) -> Option<Seq<char>>;

/// `serde_json::Value::get` by name: what the document holds under it, and nothing where the
/// document is no object or has no such member. Which that is, is left unsaid.
#[verifier::external_body]
pub(crate) fn member(document: &str, name: &str) -> (r: Option<String>)
    ensures
        opt_text(r) == member_of(document@, name@),
{
    let v: serde_json::Value = serde_json::from_str(document).ok()?;
    v.get(name).map(|m| m.to_string())
}

/// The values in a document that is a list.
pub uninterp spec fn items_of(document: Seq<char>) -> Option<Seq<Seq<char>>>;

/// `serde_json::Value::as_array`: the values of a list, in their order, and nothing for another
/// document. Which those are, is left unsaid.
#[verifier::external_body]
pub(crate) fn items(document: &str) -> (r: Option<Vec<String>>)
    ensures
        match r {
            Some(v) => items_of(document@) == Some(texts(v@)),
            None => items_of(document@) is None,
        },
{
    let v: serde_json::Value = serde_json::from_str(document).ok()?;
    v.as_array().map(|a| a.iter().map(|x| x.to_string()).collect())
}

/// The names in a document that is an object.
pub uninterp spec fn names_of(document: Seq<char>) -> Option<Seq<Seq<char>>>;

/// The keys of `serde_json::Value::as_object`, and nothing for another document. Which those are,
/// is left unsaid.
#[verifier::external_body]
pub(crate) fn names(document: &str) -> (r: Option<Vec<String>>)
    ensures
        match r {
            Some(v) => names_of(document@) == Some(texts(v@)),
            None => names_of(document@) is None,
        },
{
    let v: serde_json::Value = serde_json::from_str(document).ok()?;
    v.as_object().map(|m| m.keys().map(|k| k.to_string()).collect())
}

/// The text that a document is.
pub uninterp spec fn string_of(document: Seq<char>) -> Option<Seq<char>>;

/// `serde_json::Value::as_str`: the text that a document is, and nothing for another document. It
/// gives back a text that was written as JSON; of other documents nothing is said.
#[verifier::external_body]
pub(crate) fn string(document: &str) -> (r: Option<String>)
    ensures
        opt_text(r) == string_of(document@),
        forall|s: Seq<char>| document@ == #[trigger] json_text(s) ==> opt_text(r) == Some(s),
{
    let v: serde_json::Value = serde_json::from_str(document).ok()?;
    v.as_str().map(|s| s.to_string())
}

/// The number that a document is, as `serde_json` writes it.
pub uninterp spec fn number_of(document: Seq<char>) -> Option<Seq<char>>;

/// `serde_json::from_str`, `Value::as_number` and `Number::to_string`: the number that a document is,
/// as `serde_json` writes it again, and nothing for any other document. How a number is written again
/// is left unsaid.
#[verifier::external_body]
pub(crate) fn number(document: &str) -> (r: Option<String>)
    ensures
        opt_text(r) == number_of(document@),
{
    let v: serde_json::Value = serde_json::from_str(document).ok()?;
    v.as_number().map(|n| n.to_string())
}

/// What a document holds under a name, null where there is nothing.
pub open spec fn inner(document: Seq<char>, name: Seq<char>) -> Seq<char> {
    match member_of(document, name) {
        Some(v) => v,
        None => "null"@,
    }
}

/// The text under a name.
pub open spec fn text_at(document: Seq<char>, name: Seq<char>) -> Option<Seq<char>> {
    match member_of(document, name) {
        Some(v) => string_of(v),
        None => None,
    }
}

/// The text under a name, empty where there is none.
pub open spec fn text_under(document: Seq<char>, name: Seq<char>) -> Seq<char> {
    match text_at(document, name) {
        Some(s) => s,
        None => Seq::empty(),
    }
}

/// The whole number under a name.
pub open spec fn integer_at(document: Seq<char>, name: Seq<char>) -> Option<int> {
    match member_of(document, name) {
        Some(v) => match number_of(v) {
            Some(n) => int_in(n),
            None => None,
        },
        None => None,
    }
}

pub fn inside(document: &str, name: &str) -> (r: String)
    ensures
        r@ == inner(document@, name@),
{
    match member(document, name) {
        Some(v) => v,
        None => own("null"),
    }
}

pub fn text_in(document: &str, name: &str) -> (r: Option<String>)
    ensures
        opt_text(r) == text_at(document@, name@),
{
    match member(document, name) {
        Some(v) => string(v.as_str()),
        None => None,
    }
}

pub fn text(document: &str, name: &str) -> (r: String)
    ensures
        r@ == text_under(document@, name@),
{
    match text_in(document, name) {
        Some(s) => s,
        None => String::new(),
    }
}

pub fn integer(document: &str, name: &str) -> (r: Option<i64>)
    ensures
        match r {
            Some(n) => integer_at(document@, name@) == Some(n as int),
            None => integer_at(document@, name@) is None,
        },
{
    match member(document, name) {
        Some(v) => match number(v.as_str()) {
            Some(n) => parse_int(n.as_str()),
            None => None,
        },
        None => None,
    }
}

/// Whether the text under a name is `s`.
pub fn is_text(document: &str, name: &str, s: &str) -> (r: bool)
    ensures
        r == (text_at(document@, name@) == Some(s@)),
{
    match text_in(document, name) {
        Some(t) => crate::text::same(t.as_str(), s),
        None => false,
    }
}

/// The members of an object by the first `n` names.
pub open spec fn members_up_to(document: Seq<char>, names: Seq<Seq<char>>, n: nat) -> Seq<(Seq<char>, Seq<char>)>
    decreases n,
{
    if n == 0 {
        Seq::empty()
    } else {
        members_up_to(document, names, (n - 1) as nat).push((names[n - 1], inner(document, names[n - 1])))
    }
}

/// A document as a record: the members of an object, or what else it is under an empty name.
pub open spec fn record_of(document: Seq<char>) -> Seq<(Seq<char>, Seq<char>)> {
    match names_of(document) {
        Some(ns) => members_up_to(document, ns, ns.len()),
        None => seq![(Seq::empty(), document)],
    }
}

pub fn record(document: &str) -> (r: Vec<MetaEntry>)
    ensures
        fields(r@) == record_of(document@),
{
    let mut r: Vec<MetaEntry> = Vec::new();
    match names(document) {
        Some(ns) => {
            let ghost shown = texts(ns@);
            let mut i: usize = 0;
            assert(fields(r@) =~= Seq::<(Seq<char>, Seq<char>)>::empty());
            while i < ns.len()
                invariant
                    i <= ns.len(),
                    shown == texts(ns@),
                    fields(r@) == members_up_to(document@, shown, i as nat),
                decreases ns.len() - i,
            {
                let ghost before = fields(r@);
                let value = inside(document, ns[i].as_str());
                let e = MetaEntry { key: own(ns[i].as_str()), value: MetaValue::Other(value) };
                r.push(e);
                assert(fields(r@) =~= before.push((shown[i as int], inner(document@, shown[i as int]))));
                i = i + 1;
            }
        },
        None => {
            let e = MetaEntry { key: String::new(), value: MetaValue::Other(own(document)) };
            r.push(e);
            assert(fields(r@) =~= seq![(Seq::<char>::empty(), document@)]);
        },
    }
    r
}

/// Whether a text is a UUID.
pub uninterp spec fn uuid_text(s: Seq<char>) -> bool;

/// `uuid::Uuid::parse_str`: whether it reads the text. Which texts those are, is left unsaid.
#[verifier::external_body]
pub(crate) fn is_uuid(s: &str) -> (r: bool)
    ensures
        r == uuid_text(s@),
{
    uuid::Uuid::parse_str(s).is_ok()
}

/// The moment in a text: seconds, and nanoseconds of the next one.
pub uninterp spec fn instant_of(s: Seq<char>) -> Option<(int, int)>;

/// `DateTime::parse_from_rfc3339` of chrono: the moment as seconds since 1970 in UTC and the
/// nanoseconds after them. Which those are, is left unsaid.
#[verifier::external_body]
pub(crate) fn instant(s: &str) -> (r: Option<(i64, u32)>)
    ensures
        match r {
            Some((s1, n)) => instant_of(s@) == Some((s1 as int, n as int)),
            None => instant_of(s@) is None,
        },
{
    let t = chrono::DateTime::parse_from_rfc3339(s).ok()?;
    Some((t.timestamp(), t.timestamp_subsec_nanos()))
}

} // verus!
