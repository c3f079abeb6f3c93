//! Encodings of texts and bytes.

use sha2::Digest;
use vstd::prelude::*;

verus! {

pub open spec fn hex_digit(n: int) -> char {
    if n < 10 {
        (n + 48) as char
    } else {
        (n + 87) as char
    }
}

/// Two lower-case hexadecimal digits for each byte.
pub open spec fn hex_text(b: Seq<u8>) -> Seq<char>
    decreases b.len(),
{
    if b.len() == 0 {
        Seq::empty()
    } else {
        hex_text(b.drop_last()) + seq![hex_digit(b.last() as int / 16), hex_digit(b.last() as int % 16)]
    }
}

/// `hex::encode`: writes each byte as two lower-case hexadecimal digits, the high one first.
#[verifier::external_body]
pub(crate) fn hex_string(b: &[u8]) -> (r: String)
    ensures
        r@ == hex_text(b@),
{
    hex::encode(b)
}

/// The SHA-256 digest of `b`.
pub uninterp spec fn sha256_of(b: Seq<u8>) -> Seq<u8>;

/// `sha2::Sha256::digest`: the 32 bytes of the SHA-256 digest of `b`, which depend on nothing
/// else. What those bytes are is left unsaid.
#[verifier::external_body]
pub(crate) fn sha256(b: &[u8]) -> (r: Vec<u8>)
    ensures
        r@ == sha256_of(b@),
        r@.len() == 32,
{
    sha2::Sha256::digest(b).to_vec()
}

/// A character inside a JSON string.
pub open spec fn json_char(c: char) -> Seq<char> {
    if c == '"' {
        seq!['\\', '"']
    } else if c == '\\' {
        seq!['\\', '\\']
    } else if c == '\u{8}' {
        seq!['\\', 'b']
    } else if c == '\u{c}' {
        seq!['\\', 'f']
    } else if c == '\n' {
        seq!['\\', 'n']
    } else if c == '\r' {
        seq!['\\', 'r']
    } else if c == '\t' {
        seq!['\\', 't']
    } else if (c as int) < 32 {
        seq!['\\', 'u', '0', '0', hex_digit(c as int / 16), hex_digit(c as int % 16)]
    } else {
        seq![c]
    }
}

pub open spec fn json_chars(s: Seq<char>) -> Seq<char>
    decreases s.len(),
{
    if s.len() == 0 {
        Seq::empty()
    } else {
        json_char(s[0]) + json_chars(s.skip(1))
    }
}

/// A text as a JSON string.
pub open spec fn json_text(s: Seq<char>) -> Seq<char> {
    seq!['"'] + json_chars(s) + seq!['"']
}

/// `serde_json::to_string` on a text: the text between quotation marks, with a backslash before
/// a quotation mark and a backslash, the short escapes of backspace, form feed, line feed,
/// carriage return and tab, and `\u00xx` for the other characters below the space.
#[verifier::external_body]
pub(crate) fn json_string(s: &str) -> (r: String)
    ensures
        r@ == json_text(s@),
{
    serde_json::to_string(s).expect("a text is always written")
}

proof fn lemma_json_char(a: char, b: char, x: Seq<char>, y: Seq<char>)
    requires
        json_char(a) + x == json_char(b) + y,
    ensures
        a == b,
        x == y,
{
    let (p, q) = (json_char(a), json_char(b));
    let (l, r) = (p + x, q + y);
    assert(l[0] == r[0]);
    assert(l[0] == p[0] && r[0] == q[0]);
    if p.len() > 1 && q.len() > 1 {
        assert(l[1] == p[1] && r[1] == q[1]);
        assert(l[1] == r[1]);
        if p.len() == 6 && q.len() == 6 {
            assert(l[4] == p[4] && r[4] == q[4] && l[4] == r[4]);
            assert(l[5] == p[5] && r[5] == q[5] && l[5] == r[5]);
            assert(a as int / 16 == b as int / 16 && a as int % 16 == b as int % 16);
        }
    }
    assert(a == b);
    assert(x =~= l.skip(p.len() as int));
    assert(y =~= r.skip(q.len() as int));
}

proof fn lemma_json_chars(a: Seq<char>, b: Seq<char>, x: Seq<char>, y: Seq<char>)
    requires
        json_chars(a) + (seq!['"'] + x) == json_chars(b) + (seq!['"'] + y),
    ensures
        a == b,
        x == y,
    decreases a.len(),
{
    let (l, r) = (json_chars(a) + (seq!['"'] + x), json_chars(b) + (seq!['"'] + y));
    assert(l[0] == r[0]);
    if a.len() > 0 && b.len() > 0 {
        let (ta, tb) = (json_chars(a.skip(1)) + (seq!['"'] + x), json_chars(b.skip(1)) + (seq!['"'] + y));
        assert(l =~= json_char(a[0]) + ta);
        assert(r =~= json_char(b[0]) + tb);
        lemma_json_char(a[0], b[0], ta, tb);
        lemma_json_chars(a.skip(1), b.skip(1), x, y);
        assert(a =~= seq![a[0]] + a.skip(1));
        assert(b =~= seq![b[0]] + b.skip(1));
    } else if a.len() > 0 {
        assert(l[0] == json_char(a[0])[0]);
        assert(r[0] == '"');
        assert(false);
    } else if b.len() > 0 {
        assert(r[0] == json_char(b[0])[0]);
        assert(l[0] == '"');
        assert(false);
    } else {
        assert(x =~= l.skip(1));
        assert(y =~= r.skip(1));
        assert(a =~= b);
    }
}

/// A JSON string tells its text, and where it ends, whatever comes after it.
pub proof fn law_json_text(a: Seq<char>, b: Seq<char>, x: Seq<char>, y: Seq<char>)
    requires
        json_text(a) + x == json_text(b) + y,
    ensures
        a == b,
        x == y,
{
    let (l, r) = (json_text(a) + x, json_text(b) + y);
    assert(l.skip(1) =~= json_chars(a) + (seq!['"'] + x));
    assert(r.skip(1) =~= json_chars(b) + (seq!['"'] + y));
    lemma_json_chars(a, b, x, y);
}

/// Two bytes with the same digits are the same.
proof fn lemma_hex_digit(a: u8, b: u8)
    requires
        hex_digit(a as int / 16) == hex_digit(b as int / 16),
        hex_digit(a as int % 16) == hex_digit(b as int % 16),
    ensures
        a == b,
{
}

/// Hexadecimal digits tell the bytes that they stand for.
pub proof fn law_hex_text(a: Seq<u8>, b: Seq<u8>)
    requires
        hex_text(a) == hex_text(b),
    ensures
        a == b,
    decreases a.len(),
{
    lemma_hex_length(a);
    lemma_hex_length(b);
    if a.len() > 0 {
        let (l, r) = (hex_text(a), hex_text(b));
        let n = l.len() as int;
        assert(l[n - 2] == hex_digit(a.last() as int / 16) && l[n - 1] == hex_digit(a.last() as int % 16));
        assert(r[n - 2] == hex_digit(b.last() as int / 16) && r[n - 1] == hex_digit(b.last() as int % 16));
        lemma_hex_digit(a.last(), b.last());
        assert(hex_text(a.drop_last()) =~= l.take(n - 2));
        assert(hex_text(b.drop_last()) =~= r.take(n - 2));
        law_hex_text(a.drop_last(), b.drop_last());
        assert(a =~= a.drop_last().push(a.last()));
        assert(b =~= b.drop_last().push(b.last()));
    } else {
        assert(a =~= b);
    }
}

proof fn lemma_hex_length(a: Seq<u8>)
    ensures
        hex_text(a).len() == 2 * a.len(),
    decreases a.len(),
{
    if a.len() > 0 {
        lemma_hex_length(a.drop_last());
    }
}

/// `std::str::from_utf8`: the text of bytes that are valid UTF-8, and nothing for other bytes.
#[verifier::external_body]
pub(crate) fn utf8_text(b: &[u8]) -> (r: Option<String>)
    ensures
        match r {
            Some(s) => vstd::utf8::valid_utf8(b@) && s@ == vstd::utf8::decode_utf8(b@),
            None => !vstd::utf8::valid_utf8(b@),
        },
{
    std::str::from_utf8(b).ok().map(|s| s.to_string())
}

} // verus!
