//! Reads MIME attachments without changing their decoded bytes, and names what is stored of a message.

use mailparse::body::Body;
use mailparse::{DispositionType, MailHeaderMap};
use vstd::prelude::*;
use vstd::utf8::encode_utf8;

use crate::codec::{hex_text, json_string, json_text, sha256_of};
use crate::error::{conflict, invalid, unreadable, Refusal, Result};
use crate::imports::opt_text;
use crate::imports::statement::checksum;
use crate::text::{alphanumeric, ascii_alnum, byte_length, byte_width, cat, cat3, cat5, chars, glue, glued, is_alnum, is_alphanumeric, is_digit, join, joined, kept, lower, lowered, nat_string, nat_text, own, same, slice_chars, starts, starts_with, str_texts, string, texts, trim, trimmed, width_of};

verus! {

pub const MAX_MESSAGE_BYTES: usize = 52_428_800;

pub const MAX_PARTS: usize = 256;

pub const MAX_ATTACHMENTS: usize = 100;

pub const MAX_DEPTH: usize = 100;

pub const MAX_HEADERS: usize = 4096;

pub const MAX_PART_HEADER_BYTES: usize = 65_536;

#[derive(Debug)]
pub struct Attachment {
    pub part: usize,
    pub original_filename: String,
    pub content_type: String,
    pub checksum: String,
    pub content: Vec<u8>,
    /// A local basename. The MIME filename must never be used as a path.
    pub inbox_filename: String,
}

#[verifier::ext_equal]
pub struct ShownAttachment {
    pub part: nat,
    pub original_filename: Seq<char>,
    pub content_type: Seq<char>,
    pub checksum: Seq<char>,
    pub content: Seq<u8>,
    pub inbox_filename: Seq<char>,
}

impl View for Attachment {
    type V = ShownAttachment;

    open spec fn view(&self) -> ShownAttachment {
        ShownAttachment {
            part: self.part as nat,
            original_filename: self.original_filename@,
            content_type: self.content_type@,
            checksum: self.checksum@,
            content: self.content@,
            inbox_filename: self.inbox_filename@,
        }
    }
}

pub open spec fn shown_attachments(v: Seq<Attachment>) -> Seq<ShownAttachment> {
    Seq::new(v.len(), |i: int| v[i]@)
}

#[derive(Debug)]
pub struct Message {
    /// The hash covers the whole received message, not its untrusted Message-ID.
    pub checksum: String,
    pub attachments: Vec<Attachment>,
}

#[derive(Debug)]
pub struct Delivery {
    pub message_checksum: String,
    pub filenames: Vec<String>,
    pub already_received: bool,
}

/// The file extension of a content type.
pub open spec fn extension_for(mime: Seq<char>) -> Seq<char> {
    if mime == "text/csv"@ {
        "csv"@
    } else if mime == "application/x-ofx"@ || mime == "application/ofx"@ {
        "ofx"@
    } else if mime == "application/x-qfx"@ {
        "qfx"@
    } else if mime == "application/json"@ {
        "json"@
    } else if mime == "application/xml"@ || mime == "text/xml"@ {
        "xml"@
    } else if mime == "application/pdf"@ {
        "pdf"@
    } else if mime == "message/rfc822"@ {
        "eml"@
    } else {
        "bin"@
    }
}

pub fn unnamed_extension(mime: &str) -> (r: &'static str)
    ensures
        r@ == extension_for(mime@),
{
    if same(mime, "text/csv") {
        "csv"
    } else if same(mime, "application/x-ofx") || same(mime, "application/ofx") {
        "ofx"
    } else if same(mime, "application/x-qfx") {
        "qfx"
    } else if same(mime, "application/json") {
        "json"
    } else if same(mime, "application/xml") || same(mime, "text/xml") {
        "xml"
    } else if same(mime, "application/pdf") {
        "pdf"
    } else if same(mime, "message/rfc822") {
        "eml"
    } else {
        "bin"
    }
}

/// What follows the last path separator of a name.
pub open spec fn base_of(s: Seq<char>) -> Seq<char>
    decreases s.len(),
{
    if s.len() == 0 || s.last() == '/' || s.last() == '\\' {
        Seq::empty()
    } else {
        base_of(s.drop_last()).push(s.last())
    }
}

/// The place of the last dot before `n`, if there is one.
pub open spec fn last_dot(s: Seq<char>, n: nat) -> Option<int>
    decreases n,
{
    if n == 0 {
        None
    } else if s[n - 1] == '.' {
        Some(n - 1)
    } else {
        last_dot(s, (n - 1) as nat)
    }
}

pub open spec fn safe_char(c: char) -> char {
    let keeps = if (c as int) < 128 {
        is_alnum(c)
    } else {
        alphanumeric(c)
    };
    if keeps || c == '-' || c == '_' {
        c
    } else {
        '_'
    }
}

/// What stays of a stem, from `i` on behind `out`, within a hundred bytes.
pub open spec fn safe_from(stem: Seq<char>, i: int, out: Seq<char>) -> Seq<char>
    decreases stem.len() - i,
{
    if i < 0 || i >= stem.len() || byte_length(out, out.len()) + byte_width(safe_char(stem[i])) > 100 {
        out
    } else {
        safe_from(stem, i + 1, out.push(safe_char(stem[i])))
    }
}

pub open spec fn only_underscores(s: Seq<char>) -> bool {
    forall|i: int| 0 <= i < s.len() ==> s[i] == '_'
}

pub open spec fn plain_extension(s: Seq<char>) -> bool {
    0 < s.len() <= 16 && forall|i: int| 0 <= i < s.len() ==> is_alnum(#[trigger] s[i])
}

/// A name that is safe as a local basename: the letters, digits, dashes and underscores of the stem,
/// and a plain extension, the name's own or that of the content type.
pub open spec fn safe_name_of(original: Seq<char>, mime: Seq<char>) -> Seq<char> {
    let base = base_of(original);
    let dot = last_dot(base, base.len());
    let stem = match dot {
        Some(i) => base.take(i),
        None => base,
    };
    let extension = match dot {
        Some(i) => base.skip(i + 1),
        None => Seq::empty(),
    };
    let safe = safe_from(stem, 0, Seq::empty());
    (if only_underscores(safe) {
        "attachment"@
    } else {
        safe
    }) + "."@ + (if plain_extension(extension) {
        extension
    } else {
        extension_for(mime)
    })
}

fn base_chars(s: &[char]) -> (r: Vec<char>)
    ensures
        r@ == base_of(s@),
{
    let mut i: usize = s.len();
    assert(s@.take(i as int) =~= s@);
    assert(base_of(s@) + s@.skip(i as int) =~= base_of(s@));
    while i > 0 && s[i - 1] != '/' && s[i - 1] != '\\'
        invariant
            i <= s@.len(),
            base_of(s@) == base_of(s@.take(i as int)) + s@.skip(i as int),
        decreases i,
    {
        proof {
            let t = s@.take(i as int);
            assert(t.drop_last() =~= s@.take(i - 1));
            assert(base_of(t) == base_of(s@.take(i - 1)).push(s@[i - 1]));
            assert(base_of(s@.take(i - 1)).push(s@[i - 1]) + s@.skip(i as int) =~= base_of(s@.take(i - 1)) + s@.skip(i - 1));
        }
        i = i - 1;
    }
    proof {
        assert(base_of(s@.take(i as int)) =~= Seq::<char>::empty());
        assert(base_of(s@) =~= s@.skip(i as int));
        assert(s@.skip(i as int) =~= s@.subrange(i as int, s@.len() as int));
    }
    slice_chars(s, i, s.len())
}

fn find_last_dot(s: &Vec<char>) -> (r: Option<usize>)
    ensures
        match r {
            Some(i) => last_dot(s@, s@.len()) == Some(i as int) && i < s@.len(),
            None => last_dot(s@, s@.len()) is None,
        },
{
    let mut n: usize = s.len();
    while n > 0
        invariant
            n <= s@.len(),
            last_dot(s@, s@.len()) == last_dot(s@, n as nat),
        decreases n,
    {
        if s[n - 1] == '.' {
            return Some(n - 1);
        }
        n = n - 1;
    }
    None
}

proof fn lemma_byte_length_prefix(a: Seq<char>, c: char, n: nat)
    requires
        n <= a.len(),
    ensures
        byte_length(a.push(c), n) == byte_length(a, n),
    decreases n,
{
    if n > 0 {
        lemma_byte_length_prefix(a, c, (n - 1) as nat);
    }
}

fn safe_stem(stem: &Vec<char>) -> (r: Vec<char>)
    ensures
        r@ == safe_from(stem@, 0, Seq::empty()),
{
    let mut out: Vec<char> = Vec::new();
    let mut bytes: usize = 0;
    let mut i: usize = 0;
    assert(out@ =~= Seq::<char>::empty());
    while i < stem.len()
        invariant
            i <= stem@.len(),
            bytes <= 100,
            bytes == byte_length(out@, out@.len()),
            safe_from(stem@, 0, Seq::empty()) == safe_from(stem@, i as int, out@),
        decreases stem@.len() - i,
    {
        let c = stem[i];
        let c = if is_alphanumeric(c) || c == '-' || c == '_' {
            c
        } else {
            '_'
        };
        let w = width_of(c);
        if w > 100 - bytes {
            return out;
        }
        proof {
            lemma_byte_length_prefix(out@, c, out@.len());
        }
        out.push(c);
        bytes = bytes + w;
        i = i + 1;
    }
    out
}

fn has_only_underscores(s: &Vec<char>) -> (r: bool)
    ensures
        r == only_underscores(s@),
{
    let mut i: usize = 0;
    while i < s.len()
        invariant
            i <= s@.len(),
            forall|j: int| 0 <= j < i ==> s@[j] == '_',
        decreases s@.len() - i,
    {
        if s[i] != '_' {
            assert(s@[i as int] != '_');
            return false;
        }
        i = i + 1;
    }
    true
}

fn is_plain_extension(s: &Vec<char>) -> (r: bool)
    ensures
        r == plain_extension(s@),
{
    if s.len() == 0 || s.len() > 16 {
        return false;
    }
    let mut i: usize = 0;
    while i < s.len()
        invariant
            i <= s@.len(),
            0 < s@.len() <= 16,
            forall|j: int| 0 <= j < i ==> is_alnum(#[trigger] s@[j]),
        decreases s@.len() - i,
    {
        if !ascii_alnum(s[i]) {
            assert(!is_alnum(s@[i as int]));
            return false;
        }
        i = i + 1;
    }
    true
}

pub fn safe_name(original: &str, mime: &str) -> (r: String)
    ensures
        r@ == safe_name_of(original@, mime@),
{
    let base = base_chars(&chars(original));
    let size: usize = base.len();
    let dot = find_last_dot(&base);
    let (stem, extension) = match dot {
        Some(i) => {
            assert(base@.take(i as int) =~= base@.subrange(0, i as int));
            assert(base@.skip(i + 1) =~= base@.subrange(i + 1, base@.len() as int));
            (slice_chars(&base, 0, i), slice_chars(&base, i + 1, size))
        },
        None => {
            assert(base@ =~= base@.subrange(0, base@.len() as int));
            assert(Seq::<char>::empty() =~= base@.subrange(0, 0));
            (slice_chars(&base, 0, size), slice_chars(&base, 0, 0))
        },
    };
    let safe = safe_stem(&stem);
    let name = if has_only_underscores(&safe) {
        own("attachment")
    } else {
        string(&safe)
    };
    let ext = if is_plain_extension(&extension) {
        string(&extension)
    } else {
        own(unnamed_extension(mime))
    };
    cat3(name.as_str(), ".", ext.as_str())
}

/// Whether no character of a name separates the parts of a path.
pub open spec fn is_basename(s: Seq<char>) -> bool {
    forall|i: int| 0 <= i < s.len() ==> #[trigger] s[i] != '/' && s[i] != '\\'
}

proof fn lemma_safe_chars(stem: Seq<char>, i: int, out: Seq<char>)
    requires
        is_basename(out),
    ensures
        is_basename(safe_from(stem, i, out)),
    decreases stem.len() - i,
{
    if !(i < 0 || i >= stem.len() || byte_length(out, out.len()) + byte_width(safe_char(stem[i])) > 100) {
        lemma_safe_chars(stem, i + 1, out.push(safe_char(stem[i])));
    }
}

/// A safe name is a basename: whatever a sender calls a file, no path separator comes through.
pub proof fn law_safe_name_is_basename(original: Seq<char>, mime: Seq<char>)
    ensures
        is_basename(safe_name_of(original, mime)),
{
    let base = base_of(original);
    let stem = match last_dot(base, base.len()) {
        Some(i) => base.take(i),
        None => base,
    };
    lemma_safe_chars(stem, 0, Seq::empty());
    reveal_strlit("attachment");
    reveal_strlit(".");
    reveal_strlit("csv");
    reveal_strlit("ofx");
    reveal_strlit("qfx");
    reveal_strlit("json");
    reveal_strlit("xml");
    reveal_strlit("pdf");
    reveal_strlit("eml");
    reveal_strlit("bin");
}

/// The key, the value and the length of the header at the start of a message, if it can be read.
pub uninterp spec fn header_in(content: Seq<u8>) -> Option<(Seq<u8>, Seq<char>, nat)>;

/// `mailparse::parse_header`: the header that a text starts with, its raw key, its decoded value, and
/// the place at which the next header is expected, which lies behind the start and within the text.
#[verifier::external_body]
pub(crate) fn parse_header(content: &[u8]) -> (r: Option<(Vec<u8>, String, usize)>)
    ensures
        match r {
            Some((key, value, used)) => header_in(content@) == Some((key@, value@, used as nat)) && 0 < used <= content@.len(),
            None => header_in(content@) is None,
        },
{
    let (header, used) = mailparse::parse_header(content).ok()?;
    Some((header.get_key_raw().to_vec(), header.get_value(), used))
}

/// The type and the boundary, if there is one, that the value of a Content-Type header gives.
pub uninterp spec fn content_type_in(value: Seq<char>) -> (Seq<char>, Option<Seq<char>>);

/// `mailparse::parse_content_type`: the type in lower case, and the boundary parameter.
#[verifier::external_body]
pub(crate) fn parse_content_type(value: &str) -> (r: (String, Option<String>))
    ensures
        content_type_in(value@) == (r.0@, opt_text(r.1)),
{
    let parsed = mailparse::parse_content_type(value);
    (parsed.mimetype.clone(), parsed.params.get("boundary").cloned())
}

pub open spec fn lower_byte(b: u8) -> u8 {
    if 65 <= b <= 90 {
        (b + 32) as u8
    } else {
        b
    }
}

/// Whether a header key is Content-Type, whatever its case.
pub open spec fn names_content_type(key: Seq<u8>) -> bool {
    key.map_values(|b: u8| lower_byte(b)) == encode_utf8("content-type"@)
}

fn is_content_type(key: &Vec<u8>) -> (r: bool)
    ensures
        r == names_content_type(key@),
{
    let ghost lowered_key = key@.map_values(|b: u8| lower_byte(b));
    let want = "content-type".as_bytes();
    if key.len() != want.len() {
        assert(lowered_key.len() != want@.len());
        return false;
    }
    let mut i: usize = 0;
    while i < key.len()
        invariant
            i <= key@.len() == want@.len(),
            want@ == encode_utf8("content-type"@),
            lowered_key == key@.map_values(|b: u8| lower_byte(b)),
            forall|j: int| 0 <= j < i ==> #[trigger] lowered_key[j] == want@[j],
        decreases key@.len() - i,
    {
        let b = key[i];
        let b = if 65 <= b && b <= 90 {
            b + 32
        } else {
            b
        };
        if b != want[i] {
            assert(lowered_key[i as int] != want@[i as int]);
            return false;
        }
        i = i + 1;
    }
    assert(lowered_key =~= want@);
    true
}

/// What the headers of a part end with: the place of the body, the number of headers read so far in
/// the message, and the part's content type.
pub type Headed = (int, nat, Option<(Seq<char>, Option<Seq<char>>)>);

/// The headers of a part from `body` on.
pub open spec fn headed(
    content: Seq<u8>,
    body: int,
    headers: nat,
    kind: Option<(Seq<char>, Option<Seq<char>>)>,
) -> std::result::Result<Headed, Refusal>
    decreases content.len() - body,
{
    if body < 0 || body >= content.len() {
        Ok((body, headers, kind))
    } else if content[body] == 10 {
        Ok((body + 1, headers, kind))
    } else if content[body] == 13 {
        if body + 1 < content.len() && content[body + 1] == 10 {
            Ok((body + 2, headers, kind))
        } else {
            Err(Refusal::Parse("invalid MIME email"@))
        }
    } else if headers >= MAX_HEADERS {
        Err(Refusal::Invalid("email exceeds 4096 MIME headers"@))
    } else {
        match header_in(content.skip(body)) {
            None => Err(Refusal::Parse("invalid MIME email"@)),
            Some((key, value, used)) => if body + used > MAX_PART_HEADER_BYTES {
                Err(Refusal::Invalid("email MIME part headers exceed 64 KiB"@))
            } else if used == 0 || body + used > content.len() {
                Ok((body, headers, kind))
            } else {
                headed(
                    content,
                    body + used,
                    headers + 1,
                    if kind is None && names_content_type(key) {
                        Some(content_type_in(value))
                    } else {
                        kind
                    },
                )
            },
        }
    }
}

spec fn kind_of(k: Option<(String, Option<String>)>) -> Option<(Seq<char>, Option<Seq<char>>)> {
    match k {
        Some(p) => Some((p.0@, opt_text(p.1))),
        None => None,
    }
}

fn read_headers(content: &[u8], headers: &mut usize) -> (r: Result<(usize, Option<(String, Option<String>)>)>)
    requires
        *old(headers) <= MAX_HEADERS,
    ensures
        *final(headers) <= MAX_HEADERS,
        match r {
            Ok((body, kind)) => headed(content@, 0, *old(headers) as nat, None) == Ok::<Headed, Refusal>(
                (body as int, *final(headers) as nat, kind_of(kind)),
            ) && body <= content@.len(),
            Err(e) => headed(content@, 0, *old(headers) as nat, None) == Err::<Headed, Refusal>(e@),
        },
{
    let mut body: usize = 0;
    let mut kind: Option<(String, Option<String>)> = None;
    while body < content.len()
        invariant
            body <= content@.len(),
            *headers <= MAX_HEADERS,
            headed(content@, 0, *old(headers) as nat, None) == headed(content@, body as int, *headers as nat, kind_of(kind)),
        decreases content@.len() - body,
    {
        if content[body] == 10 {
            return Ok((body + 1, kind));
        }
        if content[body] == 13 {
            if !(content.len() - body > 1 && content[body + 1] == 10) {
                return Err(unreadable("invalid MIME email"));
            }
            return Ok((body + 2, kind));
        }
        if *headers >= MAX_HEADERS {
            return Err(invalid("email exceeds 4096 MIME headers"));
        }
        let rest = vstd::slice::slice_subrange(content, body, content.len());
        assert(rest@ =~= content@.skip(body as int));
        match parse_header(rest) {
            None => {
                return Err(unreadable("invalid MIME email"));
            },
            Some((key, value, used)) => {
                body = body + used;
                if body > MAX_PART_HEADER_BYTES {
                    return Err(invalid("email MIME part headers exceed 64 KiB"));
                }
                *headers = *headers + 1;
                if kind.is_none() && is_content_type(&key) {
                    kind = Some(parse_content_type(value.as_str()));
                }
            },
        }
    }
    Ok((body, kind))
}

/// The place of the first newline from `i` on.
pub open spec fn newline_from(b: Seq<u8>, i: int) -> Option<int>
    decreases b.len() - i,
{
    if i < 0 || i >= b.len() {
        None
    } else if b[i] == 10 {
        Some(i)
    } else {
        newline_from(b, i + 1)
    }
}

fn find_newline(b: &[u8], from: usize) -> (r: Option<usize>)
    requires
        from <= b@.len(),
    ensures
        match r {
            Some(i) => newline_from(b@, from as int) == Some(i as int) && from <= i < b@.len() <= usize::MAX,
            None => newline_from(b@, from as int) is None,
        },
{
    let mut i: usize = from;
    while i < b.len()
        invariant
            from <= i <= b@.len(),
            newline_from(b@, from as int) == newline_from(b@, i as int),
        decreases b@.len() - i,
    {
        if b[i] == 10 {
            return Some(i);
        }
        i = i + 1;
    }
    None
}

pub open spec fn bytes_at(b: Seq<u8>, t: Seq<u8>, i: int) -> bool {
    0 <= i && i + t.len() <= b.len() && b.subrange(i, i + t.len()) == t
}

fn are_at(b: &[u8], t: &[u8], i: usize) -> (r: bool)
    requires
        i <= b@.len(),
    ensures
        r == bytes_at(b@, t@, i as int),
{
    if b.len() - i < t.len() {
        return false;
    }
    let mut k: usize = 0;
    while k < t.len()
        invariant
            k <= t@.len(),
            i + t@.len() <= b@.len() <= usize::MAX,
            forall|j: int| 0 <= j < k ==> b@[i + j] == #[trigger] t@[j],
        decreases t@.len() - k,
    {
        if b[i + k] != t[k] {
            assert(b@.subrange(i as int, i + t@.len())[k as int] != t@[k as int]);
            return false;
        }
        k = k + 1;
    }
    assert(b@.subrange(i as int, i + t@.len()) =~= t@);
    true
}

/// The place of a boundary: at `start`, or behind the first newline that it follows.
pub open spec fn boundary_from(content: Seq<u8>, start: int, boundary: Seq<u8>) -> Option<int>
    decreases content.len() - start,
{
    if bytes_at(content, boundary, start) {
        Some(start)
    } else if start < 0 || start >= content.len() {
        None
    } else {
        match newline_from(content, start) {
            Some(k) if start <= k < content.len() => boundary_from(content, k + 1, boundary),
            _ => None,
        }
    }
}

/// A boundary prefix at the search start or after a newline.
pub fn boundary_start(content: &[u8], start: usize, boundary: &[u8]) -> (r: Option<usize>)
    requires
        start <= content@.len(),
    ensures
        match r {
            Some(i) => boundary_from(content@, start as int, boundary@) == Some(i as int) && start <= i && i + boundary@.len() <= content@.len() <= usize::MAX,
            None => boundary_from(content@, start as int, boundary@) is None,
        },
{
    let size: usize = content.len();
    let mut at: usize = start;
    loop
        invariant
            start <= at <= content@.len(),
            content@.len() == size,
            boundary_from(content@, start as int, boundary@) == boundary_from(content@, at as int, boundary@),
        decreases content@.len() - at,
    {
        if are_at(content, boundary, at) {
            return Some(at);
        }
        match find_newline(content, at) {
            Some(k) => {
                at = k + 1;
            },
            None => {
                return None;
            },
        }
    }
}

/// The end of a subpart from `start` to the next boundary: the line end before it belongs to the
/// boundary.
pub open spec fn part_end(content: Seq<u8>, start: int, next: Option<int>) -> int {
    match next {
        None => content.len() as int,
        Some(end) => if end > start && content[end - 1] == 10 {
            if end - 1 > start && content[end - 2] == 13 {
                end - 2
            } else {
                end - 1
            }
        } else {
            end
        },
    }
}

proof fn lemma_newline_within(b: Seq<u8>, i: int)
    ensures
        newline_from(b, i) matches Some(k) ==> i <= k < b.len(),
    decreases b.len() - i,
{
    if 0 <= i < b.len() && b[i] != 10 {
        lemma_newline_within(b, i + 1);
    }
}

/// A boundary lies at or behind the place from which it was sought.
pub proof fn lemma_boundary_within(content: Seq<u8>, start: int, boundary: Seq<u8>)
    ensures
        boundary_from(content, start, boundary) matches Some(i) ==> start <= i && i + boundary.len() <= content.len(),
    decreases content.len() - start,
{
    if !bytes_at(content, boundary, start) && 0 <= start < content.len() {
        match newline_from(content, start) {
            Some(k) if start <= k < content.len() => {
                lemma_boundary_within(content, k + 1, boundary);
            },
            _ => {},
        }
    }
}

/// What is left of the budget: the parts and the headers counted so far, or why a message goes over
/// it. The tree is measured before its parts and headers are stored.
pub open spec fn budget(content: Seq<u8>, depth: nat, parts: nat, headers: nat) -> std::result::Result<(nat, nat), Refusal>
    decreases content.len(), 1int, 0int,
{
    if parts >= MAX_PARTS {
        Err(Refusal::Invalid("email exceeds 256 MIME parts"@))
    } else if depth > MAX_DEPTH {
        Err(Refusal::Invalid("email exceeds 100 MIME nesting levels"@))
    } else {
        match headed(content, 0, headers, None) {
            Err(e) => Err(e),
            Ok((body, counted, kind)) => if body > MAX_PART_HEADER_BYTES {
                Err(Refusal::Invalid("email MIME part headers exceed 64 KiB"@))
            } else {
                match kind {
                    Some((mime, Some(boundary))) if body != content.len() && starts(mime, "multipart"@) => {
                        let line = encode_utf8("--"@ + boundary);
                        match boundary_from(content, body, line) {
                            Some(start) => inner_budget(content, start + line.len(), line, depth, parts + 1, counted),
                            None => Ok((parts + 1, counted)),
                        }
                    },
                    _ => Ok((parts + 1, counted)),
                }
            },
        }
    }
}

/// The budget of the subparts that follow a boundary which ends at `at`.
pub open spec fn inner_budget(
    content: Seq<u8>,
    at: int,
    line: Seq<u8>,
    depth: nat,
    parts: nat,
    headers: nat,
) -> std::result::Result<(nat, nat), Refusal>
    decreases content.len(), 0int, content.len() - at,
{
    match newline_from(content, at) {
        Some(k) if 0 <= at <= k < content.len() => {
            let start = k + 1;
            let next = boundary_from(content, start, line);
            proof {
                lemma_boundary_within(content, start, line);
            }
            let end = part_end(content, start, next);
            match budget(content.subrange(start, end), depth + 1, parts, headers) {
                Err(e) => Err(e),
                Ok((p, h)) => match next {
                    Some(n) if !(n + line.len() + 2 > content.len() || (content[n + line.len()] == 45 && content[n + line.len() + 1] == 45)) => {
                        inner_budget(content, n + line.len(), line, depth, p, h)
                    },
                    _ => Ok((p, h)),
                },
            }
        },
        _ => Ok((parts, headers)),
    }
}

/// Counts the parts and headers of a message, before they are stored.
fn check_mime_budget(content: &[u8], depth: usize, parts: &mut usize, headers: &mut usize) -> (r: Result<()>)
    requires
        *old(parts) <= MAX_PARTS,
        *old(headers) <= MAX_HEADERS,
        depth <= MAX_DEPTH + 1,
    ensures
        *final(parts) <= MAX_PARTS,
        *final(headers) <= MAX_HEADERS,
        match r {
            Ok(_) => budget(content@, depth as nat, *old(parts) as nat, *old(headers) as nat) == Ok::<(nat, nat), Refusal>(
                (*final(parts) as nat, *final(headers) as nat),
            ),
            Err(e) => budget(content@, depth as nat, *old(parts) as nat, *old(headers) as nat) == Err::<(nat, nat), Refusal>(e@),
        },
    decreases content@.len(), 1int,
{
    if *parts >= MAX_PARTS {
        return Err(invalid("email exceeds 256 MIME parts"));
    }
    if depth > MAX_DEPTH {
        return Err(invalid("email exceeds 100 MIME nesting levels"));
    }
    let (body, kind) = match read_headers(content, headers) {
        Ok(x) => x,
        Err(e) => {
            return Err(e);
        },
    };
    *parts = *parts + 1;
    if body > MAX_PART_HEADER_BYTES {
        return Err(invalid("email MIME part headers exceed 64 KiB"));
    }
    // Without a Content-Type the part is plain text or a whole message, and neither has subparts.
    let boundary = match kind {
        Some((mime, Some(boundary))) => if body == content.len() || !starts_with(mime.as_str(), "multipart") {
            return Ok(());
        } else {
            boundary
        },
        _ => {
            return Ok(());
        },
    };
    let line = cat("--", boundary.as_str());
    let line = line.as_str().as_bytes();
    match boundary_start(content, body, line) {
        Some(start) => check_subparts(content, start + line.len(), line, depth, parts, headers),
        None => Ok(()),
    }
}

fn check_subparts(content: &[u8], from: usize, line: &[u8], depth: usize, parts: &mut usize, headers: &mut usize) -> (r: Result<()>)
    requires
        *old(parts) <= MAX_PARTS,
        *old(headers) <= MAX_HEADERS,
        depth <= MAX_DEPTH,
        from <= content@.len(),
    ensures
        *final(parts) <= MAX_PARTS,
        *final(headers) <= MAX_HEADERS,
        match r {
            Ok(_) => inner_budget(content@, from as int, line@, depth as nat, *old(parts) as nat, *old(headers) as nat) == Ok::<(nat, nat), Refusal>(
                (*final(parts) as nat, *final(headers) as nat),
            ),
            Err(e) => inner_budget(content@, from as int, line@, depth as nat, *old(parts) as nat, *old(headers) as nat) == Err::<
                (nat, nat),
                Refusal,
            >(e@),
        },
    decreases content@.len(), 0int,
{
    let mut at: usize = from;
    loop
        invariant
            at <= content@.len(),
            depth <= MAX_DEPTH,
            *parts <= MAX_PARTS,
            *headers <= MAX_HEADERS,
            inner_budget(content@, from as int, line@, depth as nat, *old(parts) as nat, *old(headers) as nat) == inner_budget(
                content@,
                at as int,
                line@,
                depth as nat,
                *parts as nat,
                *headers as nat,
            ),
        decreases content@.len() - at,
    {
        let start = match find_newline(content, at) {
            Some(k) => k + 1,
            None => {
                return Ok(());
            },
        };
        let next = boundary_start(content, start, line);
        // The line end before a boundary belongs to the boundary.
        let mut end: usize = match next {
            Some(n) => n,
            None => content.len(),
        };
        if next.is_some() && end > start && content[end - 1] == 10 {
            end = end - 1;
            if end > start && content[end - 1] == 13 {
                end = end - 1;
            }
        }
        let part = vstd::slice::slice_subrange(content, start, end);
        if let Err(e) = check_mime_budget(part, depth + 1, parts, headers) {
            return Err(e);
        }
        match next {
            Some(n) => {
                at = n + line.len();
                if content.len() - at < 2 || (content[at] == 45 && content[at + 1] == 45) {
                    return Ok(());
                }
            },
            None => {
                return Ok(());
            },
        }
    }
}

/// Whether some line of a part, from `i` on, is the closing boundary but for blanks behind it.
pub open spec fn closes(raw: Seq<u8>, i: int, closing: Seq<u8>) -> bool
    decreases raw.len() - i,
{
    match newline_from(raw, i) {
        Some(k) if 0 <= i <= k < raw.len() => unpadded(raw.subrange(i, k)) == closing || closes(raw, k + 1, closing),
        _ => 0 <= i <= raw.len() && unpadded(raw.skip(i)) == closing,
    }
}

/// A line without the carriage returns, spaces and tabs at its end.
pub open spec fn unpadded(line: Seq<u8>) -> Seq<u8>
    decreases line.len(),
{
    if line.len() > 0 && (line.last() == 13 || line.last() == 32 || line.last() == 9) {
        unpadded(line.drop_last())
    } else {
        line
    }
}

fn is_closing(raw: &[u8], from: usize, to: usize, closing: &[u8]) -> (r: bool)
    requires
        from <= to <= raw@.len(),
    ensures
        r == (unpadded(raw@.subrange(from as int, to as int)) == closing@),
{
    let mut end: usize = to;
    while end > from && (raw[end - 1] == 13 || raw[end - 1] == 32 || raw[end - 1] == 9)
        invariant
            from <= end <= to <= raw@.len(),
            unpadded(raw@.subrange(from as int, to as int)) == unpadded(raw@.subrange(from as int, end as int)),
        decreases end,
    {
        assert(raw@.subrange(from as int, end as int).drop_last() =~= raw@.subrange(from as int, end - 1));
        end = end - 1;
    }
    let line = vstd::slice::slice_subrange(raw, from, end);
    assert(line@.subrange(0, line@.len() as int) =~= line@);
    line.len() == closing.len() && are_at(line, closing, 0)
}

/// Why a multipart is refused.
pub open spec fn incomplete(boundary: Option<Seq<char>>, raw: Seq<u8>) -> Option<Refusal> {
    if boundary is None || boundary->0.len() == 0 {
        Some(Refusal::Parse("multipart email has no boundary"@))
    } else if !closes(raw, 0, encode_utf8("--"@ + boundary->0 + "--"@)) {
        Some(Refusal::Parse("multipart email is incomplete: closing boundary is missing"@))
    } else {
        None
    }
}

fn complete_multipart(boundary: &Option<String>, raw: &[u8]) -> (r: Result<()>)
    ensures
        match r {
            Ok(_) => incomplete(opt_text(*boundary), raw@) is None,
            Err(e) => incomplete(opt_text(*boundary), raw@) == Some(e@),
        },
{
    let b = match boundary {
        Some(b) => b,
        None => {
            return Err(unreadable("multipart email has no boundary"));
        },
    };
    if b.as_str().is_empty() {
        return Err(unreadable("multipart email has no boundary"));
    }
    let text = cat3("--", b.as_str(), "--");
    let closing = text.as_str().as_bytes();
    let mut i: usize = 0;
    loop
        invariant
            i <= raw@.len(),
            opt_text(*boundary) == Some(b@),
            b@.len() > 0,
            closing@ == encode_utf8("--"@ + b@ + "--"@),
            closes(raw@, 0, closing@) == closes(raw@, i as int, closing@),
        decreases raw@.len() - i,
    {
        match find_newline(raw, i) {
            Some(k) => {
                if is_closing(raw, i, k, closing) {
                    return Ok(());
                }
                i = k + 1;
            },
            None => {
                assert(raw@.skip(i as int) =~= raw@.subrange(i as int, raw@.len() as int));
                return if is_closing(raw, i, raw.len(), closing) {
                    Ok(())
                } else {
                    Err(unreadable("multipart email is incomplete: closing boundary is missing"))
                };
            },
        }
    }
}

/// One part of a message, as its headers describe it.
#[derive(Debug)]
pub struct Part {
    pub mimetype: String,
    pub boundary: Option<String>,
    /// The name that the content type gives.
    pub name: Option<String>,
    /// Whether the disposition says that the part is attached.
    pub attached: bool,
    /// The name that the disposition gives.
    pub filename: Option<String>,
    /// The values of the transfer encoding headers.
    pub encodings: Vec<String>,
    pub raw: Vec<u8>,
}

#[verifier::ext_equal]
pub struct ShownPart {
    pub mimetype: Seq<char>,
    pub boundary: Option<Seq<char>>,
    pub name: Option<Seq<char>>,
    pub attached: bool,
    pub filename: Option<Seq<char>>,
    pub encodings: Seq<Seq<char>>,
    pub raw: Seq<u8>,
}

impl View for Part {
    type V = ShownPart;

    open spec fn view(&self) -> ShownPart {
        ShownPart {
            mimetype: self.mimetype@,
            boundary: opt_text(self.boundary),
            name: opt_text(self.name),
            attached: self.attached,
            filename: opt_text(self.filename),
            encodings: texts(self.encodings@),
            raw: self.raw@,
        }
    }
}

pub open spec fn shown_parts(v: Seq<Part>) -> Seq<ShownPart> {
    Seq::new(v.len(), |i: int| v[i]@)
}

/// The parts of a message, each before the parts inside it, if the message can be read.
pub uninterp spec fn parts_in(content: Seq<u8>) -> Option<Seq<ShownPart>>;

/// `mailparse::parse_mail` and the walk over the parts of what it reads: each part with its content
/// type, its disposition, its transfer encodings and its whole text.
#[verifier::external_body]
pub(crate) fn parse_parts(content: &[u8]) -> (r: Option<Vec<Part>>)
    ensures
        match r {
            Some(v) => parts_in(content@) == Some(shown_parts(v@)),
            None => parts_in(content@) is None,
        },
{
    mailparse::parse_mail(content).ok().map(|m| m.parts().map(|p| {
        let d = p.get_content_disposition();
        Part {
            mimetype: p.ctype.mimetype.clone(),
            boundary: p.ctype.params.get("boundary").cloned(),
            name: p.ctype.params.get("name").cloned(),
            attached: matches!(d.disposition, DispositionType::Attachment),
            filename: d.params.get("filename").cloned(),
            encodings: p.headers.get_all_values("Content-Transfer-Encoding"),
            raw: p.raw_bytes.to_vec(),
        }
    }).collect())
}

pub open spec fn byte_texts(v: Seq<Vec<u8>>) -> Seq<Seq<u8>> {
    Seq::new(v.len(), |i: int| v[i]@)
}

/// The bodies of the parts of a message, as they were sent, if the message can be read.
pub uninterp spec fn bodies_in(content: Seq<u8>) -> Option<Seq<Seq<u8>>>;

/// `mailparse::ParsedMail::get_body_encoded` of each part that `mailparse::parse_mail` reads: the raw
/// body, one for each part.
#[verifier::external_body]
pub(crate) fn parse_bodies(content: &[u8]) -> (r: Option<Vec<Vec<u8>>>)
    ensures
        match r {
            Some(v) => bodies_in(content@) == Some(byte_texts(v@)) && parts_in(content@) is Some && parts_in(content@)->0.len() == v@.len(),
            None => bodies_in(content@) is None && parts_in(content@) is None,
        },
{
    mailparse::parse_mail(content).ok().map(|m| m.parts().map(|p| match p.get_body_encoded() {
        Body::Base64(b) | Body::QuotedPrintable(b) => b.get_raw().to_vec(),
        Body::SevenBit(b) | Body::EightBit(b) => b.get_raw().to_vec(),
        Body::Binary(b) => b.get_raw().to_vec(),
    }).collect())
}

/// What a transfer encoding makes of a body, if the body can be decoded.
pub uninterp spec fn decoded_of(body: Seq<u8>, encoding: Seq<char>) -> Option<Seq<u8>>;

/// `mailparse::body::Body`: a body under a transfer encoding. Base64 and quoted-printable are decoded,
/// which can fail. Under any other encoding the bytes are the body.
#[verifier::external_body]
pub(crate) fn decode(body: &[u8], encoding: &str) -> (r: Option<Vec<u8>>)
    ensures
        match r {
            Some(v) => decoded_of(body@, encoding@) == Some(v@),
            None => decoded_of(body@, encoding@) is None,
        },
        encoding@ != "base64"@ && encoding@ != "quoted-printable"@ ==> r is Some && r->0@ == body@,
{
    let kind = mailparse::ParsedContentType::default();
    match Body::new(body, &kind, &Some(encoding.to_string())) {
        Body::Base64(b) | Body::QuotedPrintable(b) => b.get_decoded().ok(),
        Body::SevenBit(b) | Body::EightBit(b) => Some(b.get_raw().to_vec()),
        Body::Binary(b) => Some(b.get_raw().to_vec()),
    }
}

/// The transfer encoding of a part, in lower case, if it has one.
pub open spec fn encoding_of(p: ShownPart) -> Option<Seq<char>> {
    if p.encodings.len() == 0 {
        None
    } else {
        Some(lowered(trimmed(p.encodings[0])))
    }
}

/// Whether a part's transfer encoding is one, and one that is known.
pub open spec fn encoding_known(p: ShownPart) -> bool {
    p.encodings.len() <= 1 && match encoding_of(p) {
        None => true,
        Some(e) => e == "base64"@ || e == "quoted-printable"@ || e == "7bit"@ || e == "8bit"@ || e == "binary"@,
    }
}

/// The bytes that a part stands for.
pub open spec fn bytes_of(p: ShownPart, body: Seq<u8>) -> Option<Seq<u8>> {
    match encoding_of(p) {
        None => Some(body),
        Some(e) => decoded_of(body, e),
    }
}

/// The name that a part gives its content.
pub open spec fn filename_of(p: ShownPart) -> Option<Seq<char>> {
    match p.filename {
        Some(f) => Some(f),
        None => p.name,
    }
}

/// The attachment that a part is, as the `number`th part of a message.
pub open spec fn attachment_of(p: ShownPart, number: nat, message: Seq<char>, bytes: Seq<u8>) -> ShownAttachment {
    let original = match filename_of(p) {
        Some(f) => f,
        None => Seq::empty(),
    };
    ShownAttachment {
        part: number,
        original_filename: original,
        content_type: p.mimetype,
        checksum: hex_text(sha256_of(bytes)),
        content: bytes,
        inbox_filename: "email-"@ + message + "-"@ + nat_text(number) + ("-"@ + safe_name_of(original, p.mimetype)),
    }
}

/// The attachments of the first `n` parts and the bytes they hold together, or why a message is
/// refused.
pub open spec fn attached(
    parts: Seq<ShownPart>,
    bodies: Seq<Seq<u8>>,
    message: Seq<char>,
    n: nat,
) -> std::result::Result<(Seq<ShownAttachment>, nat), Refusal>
    decreases n,
{
    if n == 0 {
        Ok((Seq::empty(), 0))
    } else {
        match attached(parts, bodies, message, (n - 1) as nat) {
            Err(e) => Err(e),
            Ok((found, size)) => {
                let p = parts[n - 1];
                if n - 1 >= MAX_PARTS {
                    Err(Refusal::Invalid("email exceeds 256 MIME parts"@))
                } else if starts(p.mimetype, "multipart/"@) {
                    match incomplete(p.boundary, p.raw) {
                        Some(e) => Err(e),
                        None => Ok((found, size)),
                    }
                } else if !p.attached && filename_of(p) is None {
                    Ok((found, size))
                } else if found.len() >= MAX_ATTACHMENTS {
                    Err(Refusal::Invalid("email exceeds 100 attachments"@))
                } else if !encoding_known(p) {
                    Err(Refusal::Parse("email attachment has an unsupported or ambiguous transfer encoding"@))
                } else {
                    match bytes_of(p, bodies[n - 1]) {
                        None => Err(Refusal::Parse("cannot decode email attachment transfer encoding"@)),
                        Some(b) => if size + b.len() > usize::MAX {
                            Err(Refusal::Invalid("email attachment size overflow"@))
                        } else if size + b.len() > MAX_MESSAGE_BYTES {
                            Err(Refusal::Invalid("decoded email attachments exceed 50 MiB"@))
                        } else {
                            Ok((found.push(attachment_of(p, (n - 1) as nat, message, b)), size + b.len()))
                        },
                    }
                }
            },
        }
    }
}

proof fn lemma_attached_refused(parts: Seq<ShownPart>, bodies: Seq<Seq<u8>>, message: Seq<char>, n: nat, m: nat)
    requires
        n <= m,
        attached(parts, bodies, message, n) is Err,
    ensures
        attached(parts, bodies, message, m) == attached(parts, bodies, message, n),
    decreases m,
{
    if n < m {
        lemma_attached_refused(parts, bodies, message, n, (m - 1) as nat);
    }
}

fn part_encoding(p: &Part) -> (r: Result<Option<String>>)
    ensures
        match r {
            Ok(e) => encoding_known(p@) && opt_text(e) == encoding_of(p@),
            Err(e) => !encoding_known(p@) && e.unreadable("email attachment has an unsupported or ambiguous transfer encoding"@),
        },
{
    if p.encodings.len() == 0 {
        return Ok(None);
    }
    assert(texts(p.encodings@)[0] == p.encodings@[0]@);
    let e = lower(trim(p.encodings[0].as_str()).as_str());
    let s = e.as_str();
    if p.encodings.len() > 1 || !(same(s, "base64") || same(s, "quoted-printable") || same(s, "7bit") || same(s, "8bit") || same(s, "binary")) {
        return Err(unreadable("email attachment has an unsupported or ambiguous transfer encoding"));
    }
    Ok(Some(e))
}

fn copy_bytes(b: &Vec<u8>) -> (r: Vec<u8>)
    ensures
        r@ == b@,
{
    let mut out: Vec<u8> = Vec::new();
    let mut i: usize = 0;
    while i < b.len()
        invariant
            i <= b@.len(),
            out@ == b@.take(i as int),
        decreases b@.len() - i,
    {
        out.push(b[i]);
        i = i + 1;
        assert(out@ =~= b@.take(i as int));
    }
    assert(b@.take(b@.len() as int) =~= b@);
    out
}

fn part_bytes(p: &Part, body: &Vec<u8>, encoding: &Option<String>) -> (r: Option<Vec<u8>>)
    requires
        opt_text(*encoding) == encoding_of(p@),
    ensures
        match r {
            Some(v) => bytes_of(p@, body@) == Some(v@),
            None => bytes_of(p@, body@) is None,
        },
{
    match encoding {
        None => Some(copy_bytes(body)),
        Some(e) => decode(body.as_slice(), e.as_str()),
    }
}

fn attachment(p: &Part, number: usize, message: &str, bytes: Vec<u8>) -> (r: Attachment)
    ensures
        r@ == attachment_of(p@, number as nat, message@, bytes@),
{
    let original_filename = match &p.filename {
        Some(f) => own(f.as_str()),
        None => match &p.name {
            Some(f) => own(f.as_str()),
            None => own(""),
        },
    };
    proof {
        reveal_strlit("");
        if filename_of(p@) is None {
            assert(original_filename@ =~= Seq::<char>::empty());
        }
    }
    let safe = safe_name(original_filename.as_str(), p.mimetype.as_str());
    let tail = cat("-", safe.as_str());
    let inbox_filename = cat5("email-", message, "-", nat_string(number as u128).as_str(), tail.as_str());
    let sum = checksum(bytes.as_slice());
    Attachment { part: number, original_filename, content_type: own(p.mimetype.as_str()), checksum: sum, content: bytes, inbox_filename }
}

/// What the parts of a message with their bodies hold, by the message's checksum.
pub fn attachments(parts: &Vec<Part>, bodies: &Vec<Vec<u8>>, message: &str) -> (r: Result<Vec<Attachment>>)
    requires
        parts@.len() == bodies@.len(),
    ensures
        match r {
            Ok(v) => match attached(shown_parts(parts@), byte_texts(bodies@), message@, parts@.len()) {
                Ok((found, _)) => shown_attachments(v@) == found,
                Err(_) => false,
            },
            Err(e) => attached(shown_parts(parts@), byte_texts(bodies@), message@, parts@.len()) == Err::<(Seq<ShownAttachment>, nat), Refusal>(e@),
        },
{
    let ghost all = shown_parts(parts@);
    let ghost sent = byte_texts(bodies@);
    let mut found: Vec<Attachment> = Vec::new();
    let mut size: usize = 0;
    let mut i: usize = 0;
    assert(shown_attachments(found@) =~= Seq::<ShownAttachment>::empty());
    while i < parts.len()
        invariant
            i <= parts@.len(),
            size <= MAX_MESSAGE_BYTES,
            parts@.len() == bodies@.len(),
            all == shown_parts(parts@),
            sent == byte_texts(bodies@),
            attached(all, sent, message@, i as nat) == Ok::<(Seq<ShownAttachment>, nat), Refusal>((shown_attachments(found@), size as nat)),
        decreases parts@.len() - i,
    {
        let p = &parts[i];
        assert(all[i as int] == p@ && sent[i as int] == bodies@[i as int]@);
        let ghost before = shown_attachments(found@);
        proof {
            if attached(all, sent, message@, (i + 1) as nat) is Err {
                lemma_attached_refused(all, sent, message@, (i + 1) as nat, all.len());
            }
        }
        if i >= MAX_PARTS {
            return Err(invalid("email exceeds 256 MIME parts"));
        }
        if starts_with(p.mimetype.as_str(), "multipart/") {
            if let Err(e) = complete_multipart(&p.boundary, p.raw.as_slice()) {
                return Err(e);
            }
            i = i + 1;
            continue;
        }
        if !p.attached && p.filename.is_none() && p.name.is_none() {
            i = i + 1;
            continue;
        }
        if found.len() >= MAX_ATTACHMENTS {
            return Err(invalid("email exceeds 100 attachments"));
        }
        let encoding = match part_encoding(p) {
            Ok(e) => e,
            Err(e) => {
                return Err(e);
            },
        };
        let bytes = match part_bytes(p, &bodies[i], &encoding) {
            Some(b) => b,
            None => {
                return Err(unreadable("cannot decode email attachment transfer encoding"));
            },
        };
        if bytes.len() > usize::MAX - size {
            return Err(invalid("email attachment size overflow"));
        }
        size = size + bytes.len();
        if size > MAX_MESSAGE_BYTES {
            return Err(invalid("decoded email attachments exceed 50 MiB"));
        }
        let a = attachment(p, i, message, bytes);
        found.push(a);
        assert(shown_attachments(found@) =~= before.push(a@));
        i = i + 1;
    }
    Ok(found)
}

/// What a message holds, or why it is refused.
pub open spec fn extracted(content: Seq<u8>) -> std::result::Result<(Seq<char>, Seq<ShownAttachment>), Refusal> {
    let sum = hex_text(sha256_of(content));
    if content.len() == 0 || content.len() > MAX_MESSAGE_BYTES {
        Err(Refusal::Invalid("email must contain between 1 byte and 50 MiB"@))
    } else {
        match budget(content, 0, 0, 0) {
            Err(e) => Err(e),
            Ok(_) => match (parts_in(content), bodies_in(content)) {
                (Some(parts), Some(bodies)) => match attached(parts, bodies, sum, parts.len()) {
                    Err(e) => Err(e),
                    Ok((found, _)) => Ok((sum, found)),
                },
                _ => Err(Refusal::Parse("invalid MIME email"@)),
            },
        }
    }
}

/// The attachments of a message. Only transfer encodings are decoded: charsets and newlines stay, no
/// archive is opened, and the message body is no bank statement.
pub fn extract(content: &[u8]) -> (r: Result<Message>)
    ensures
        match r {
            Ok(m) => extracted(content@) == Ok::<(Seq<char>, Seq<ShownAttachment>), Refusal>((m.checksum@, shown_attachments(m.attachments@))),
            Err(e) => extracted(content@) == Err::<(Seq<char>, Seq<ShownAttachment>), Refusal>(e@),
        },
{
    if content.len() == 0 || content.len() > MAX_MESSAGE_BYTES {
        return Err(invalid("email must contain between 1 byte and 50 MiB"));
    }
    let mut parts: usize = 0;
    let mut headers: usize = 0;
    if let Err(e) = check_mime_budget(content, 0, &mut parts, &mut headers) {
        return Err(e);
    }
    let (parts, bodies) = match (parse_parts(content), parse_bodies(content)) {
        (Some(p), Some(b)) => (p, b),
        _ => {
            return Err(unreadable("invalid MIME email"));
        },
    };
    let sum = checksum(content);
    match attachments(&parts, &bodies, sum.as_str()) {
        Ok(found) => Ok(Message { checksum: sum, attachments: found }),
        Err(e) => Err(e),
    }
}

/// Whether a character is a control code.
pub open spec fn control(c: char) -> bool {
    (c as u32) < 32 || 127 <= (c as u32) < 160
}

/// The checksum of the message in whose name an attachment was stored.
pub open spec fn message_of(stored: Seq<char>) -> Option<Seq<char>> {
    if starts(stored, "email-"@) && stored.len() > 70 && stored[70] == '-' && (forall|i: int|
        6 <= i < 70 ==> is_hex(#[trigger] stored[i])) {
        Some(stored.subrange(6, 70))
    } else {
        None
    }
}

pub open spec fn is_hex(c: char) -> bool {
    is_digit(c) || 'a' <= c <= 'f' || 'A' <= c <= 'F'
}

/// The message to which a stored name points: its checksum, which names the file that holds it.
pub fn evidence_of(stored: &str) -> (r: Option<String>)
    ensures
        opt_text(r) == message_of(stored@),
{
    if !starts_with(stored, "email-") {
        return None;
    }
    let cs = chars(stored);
    if cs.len() <= 70 || cs[70] != '-' {
        return None;
    }
    let mut i: usize = 6;
    while i < 70
        invariant
            6 <= i <= 70 < cs@.len(),
            cs@ == stored@,
            forall|j: int| 6 <= j < i ==> is_hex(#[trigger] stored@[j]),
        decreases 70 - i,
    {
        let c = cs[i];
        if !(('0' <= c && c <= '9') || ('a' <= c && c <= 'f') || ('A' <= c && c <= 'F')) {
            assert(!is_hex(stored@[i as int]));
            return None;
        }
        i = i + 1;
    }
    Some(string(&slice_chars(&cs, 6, 70)))
}

/// The first attachment, from `i` on, that was stored under a name with a content.
pub open spec fn stored_at(found: Seq<ShownAttachment>, stored: Seq<char>, content: Seq<u8>, i: int) -> Option<int>
    decreases found.len() - i,
{
    if i < 0 || i >= found.len() {
        None
    } else if found[i].inbox_filename == stored && found[i].content == content {
        Some(i)
    } else {
        stored_at(found, stored, content, i + 1)
    }
}

/// The name by which an attachment is routed.
pub open spec fn route_of(a: ShownAttachment) -> Seq<char> {
    let name = kept(base_of(a.original_filename), |c: char| !control(c));
    if name.len() == 0 {
        safe_name_of(Seq::empty(), a.content_type)
    } else {
        name
    }
}

/// The routing name of a stored attachment, as the message under its checksum gives it, or why that
/// is no evidence.
pub open spec fn routed(stored: Seq<char>, content: Seq<u8>, raw: Seq<u8>) -> std::result::Result<Option<Seq<char>>, Refusal> {
    match message_of(stored) {
        None => Ok(None),
        Some(hash) => match extracted(raw) {
            Err(e) => Err(e),
            Ok((sum, found)) => if sum != hash {
                Err(Refusal::Conflict("email evidence checksum differs"@))
            } else {
                match stored_at(found, stored, content, 0) {
                    None => Err(Refusal::Conflict("email evidence does not contain this attachment"@)),
                    Some(i) => Ok(Some(route_of(found[i]))),
                }
            },
        },
    }
}

fn without_controls(s: &Vec<char>) -> (r: Vec<char>)
    ensures
        r@ == kept(s@, |c: char| !control(c)),
{
    let ghost keep = |c: char| !control(c);
    let mut out: Vec<char> = Vec::new();
    let mut i: usize = 0;
    assert(kept(s@.take(0), keep) =~= Seq::<char>::empty());
    while i < s.len()
        invariant
            i <= s@.len(),
            keep == (|c: char| !control(c)),
            out@ == kept(s@.take(i as int), keep),
        decreases s@.len() - i,
    {
        let c = s[i];
        assert(s@.take(i + 1).drop_last() =~= s@.take(i as int));
        assert(s@.take(i + 1).last() == c);
        let n: u32 = c as u32;
        if !(n < 32 || (127 <= n && n < 160)) {
            out.push(c);
        }
        i = i + 1;
    }
    assert(s@.take(s@.len() as int) =~= s@);
    out
}

fn same_bytes(a: &Vec<u8>, b: &[u8]) -> (r: bool)
    ensures
        r == (a@ == b@),
{
    assert(a@.subrange(0, a@.len() as int) =~= a@);
    if a.len() != b.len() {
        return false;
    }
    are_at(a.as_slice(), b, 0)
}

/// Recovers a routing name only when the stored message proves its content. `raw` is the message that
/// is stored under the checksum in the name.
pub fn routing_filename(stored: &str, content: &[u8], raw: &[u8]) -> (r: Result<Option<String>>)
    ensures
        match r {
            Ok(n) => routed(stored@, content@, raw@) == Ok::<Option<Seq<char>>, Refusal>(opt_text(n)),
            Err(e) => routed(stored@, content@, raw@) == Err::<Option<Seq<char>>, Refusal>(e@),
        },
{
    let hash = match evidence_of(stored) {
        Some(h) => h,
        None => {
            return Ok(None);
        },
    };
    let message = match extract(raw) {
        Ok(m) => m,
        Err(e) => {
            return Err(e);
        },
    };
    if !same(message.checksum.as_str(), hash.as_str()) {
        return Err(conflict("email evidence checksum differs"));
    }
    let ghost found = shown_attachments(message.attachments@);
    let mut i: usize = 0;
    while i < message.attachments.len()
        invariant
            i <= message.attachments@.len(),
            found == shown_attachments(message.attachments@),
            message_of(stored@) == Some(hash@),
            extracted(raw@) == Ok::<(Seq<char>, Seq<ShownAttachment>), Refusal>((hash@, found)),
            stored_at(found, stored@, content@, 0) == stored_at(found, stored@, content@, i as int),
        decreases message.attachments@.len() - i,
    {
        let a = &message.attachments[i];
        assert(found[i as int] == a@);
        if same(a.inbox_filename.as_str(), stored) && same_bytes(&a.content, content) {
            let name = without_controls(&base_chars(&chars(a.original_filename.as_str())));
            proof {
                reveal_strlit("");
                assert(""@ =~= Seq::<char>::empty());
            }
            return Ok(
                Some(
                    if name.len() == 0 {
                        safe_name("", a.content_type.as_str())
                    } else {
                        string(&name)
                    },
                ),
            );
        }
        i = i + 1;
    }
    Err(conflict("email evidence does not contain this attachment"))
}

/// How a receipt shows an attachment.
pub open spec fn entry_text(a: ShownAttachment) -> Seq<char> {
    glued(
        seq![
            "{\"bytes\":"@,
            nat_text(a.content.len()),
            ",\"checksum\":"@,
            json_text(a.checksum),
            ",\"content_type\":"@,
            json_text(a.content_type),
            ",\"filename\":"@,
            json_text(a.inbox_filename),
            ",\"original_filename\":"@,
            json_text(a.original_filename),
            ",\"part\":"@,
            nat_text(a.part),
            "}"@,
        ],
    )
}

pub open spec fn entry_texts(v: Seq<ShownAttachment>) -> Seq<Seq<char>> {
    Seq::new(v.len(), |i: int| entry_text(v[i]))
}

/// The receipt of a message: what was found in it and where it went.
pub open spec fn receipt_text(checksum: Seq<char>, found: Seq<ShownAttachment>) -> Seq<char> {
    glued(
        seq![
            "{\"attachments\":["@,
            joined(entry_texts(found), ","@),
            "],\"message_checksum\":"@,
            json_text(checksum),
            ",\"version\":1}"@,
        ],
    )
}

fn entry(a: &Attachment) -> (r: String)
    ensures
        r@ == entry_text(a@),
{
    let bytes = nat_string(a.content.len() as u128);
    let sum = json_string(a.checksum.as_str());
    let kind = json_string(a.content_type.as_str());
    let file = json_string(a.inbox_filename.as_str());
    let original = json_string(a.original_filename.as_str());
    let part = nat_string(a.part as u128);
    let pieces: Vec<&str> = vec![
        "{\"bytes\":",
        bytes.as_str(),
        ",\"checksum\":",
        sum.as_str(),
        ",\"content_type\":",
        kind.as_str(),
        ",\"filename\":",
        file.as_str(),
        ",\"original_filename\":",
        original.as_str(),
        ",\"part\":",
        part.as_str(),
        "}",
    ];
    assert(str_texts(pieces@) =~= seq![
        "{\"bytes\":"@,
        bytes@,
        ",\"checksum\":"@,
        sum@,
        ",\"content_type\":"@,
        kind@,
        ",\"filename\":"@,
        file@,
        ",\"original_filename\":"@,
        original@,
        ",\"part\":"@,
        part@,
        "}"@,
    ]);
    glue(&pieces)
}

/// The receipt of a message.
pub fn receipt(m: &Message) -> (r: String)
    ensures
        r@ == receipt_text(m.checksum@, shown_attachments(m.attachments@)),
{
    let ghost all = entry_texts(shown_attachments(m.attachments@));
    let mut entries: Vec<String> = Vec::new();
    let mut i: usize = 0;
    while i < m.attachments.len()
        invariant
            i <= m.attachments@.len(),
            all == entry_texts(shown_attachments(m.attachments@)),
            texts(entries@) == all.take(i as int),
        decreases m.attachments@.len() - i,
    {
        let ghost before = texts(entries@);
        let e = entry(&m.attachments[i]);
        entries.push(e);
        assert(texts(entries@) =~= before.push(e@));
        i = i + 1;
        assert(texts(entries@) =~= all.take(i as int));
    }
    assert(all.take(all.len() as int) =~= all);
    let list = join(&entries, ",");
    let sum = json_string(m.checksum.as_str());
    let pieces: Vec<&str> = vec!["{\"attachments\":[", list.as_str(), "],\"message_checksum\":", sum.as_str(), ",\"version\":1}"];
    assert(str_texts(pieces@) =~= seq!["{\"attachments\":["@, list@, "],\"message_checksum\":"@, sum@, ",\"version\":1}"@]);
    glue(&pieces)
}

/// What is reported of a delivery: the files that the attachments of a message go to.
pub fn delivery(m: &Message, already_received: bool) -> (r: Delivery)
    ensures
        r.message_checksum@ == m.checksum@,
        r.already_received == already_received,
        texts(r.filenames@) == Seq::new(m.attachments@.len(), |i: int| m.attachments@[i].inbox_filename@),
{
    let mut filenames: Vec<String> = Vec::new();
    let mut i: usize = 0;
    while i < m.attachments.len()
        invariant
            i <= m.attachments@.len(),
            texts(filenames@) == Seq::new(i as nat, |j: int| m.attachments@[j].inbox_filename@),
        decreases m.attachments@.len() - i,
    {
        let ghost before = texts(filenames@);
        let f = own(m.attachments[i].inbox_filename.as_str());
        filenames.push(f);
        assert(texts(filenames@) =~= before.push(f@));
        i = i + 1;
        assert(texts(filenames@) =~= Seq::new(i as nat, |j: int| m.attachments@[j].inbox_filename@));
    }
    Delivery { message_checksum: own(m.checksum.as_str()), filenames, already_received }
}

} // verus!
