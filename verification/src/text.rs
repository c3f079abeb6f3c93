//! Text as sequences of characters: trimming, case, searching, splitting and joining.
//!
//! A `String` or `&str` is its view, a `Seq<char>`. Functions that take text apart work on
//! a `Vec<char>`, whose view is the same sequence.

use vstd::prelude::*;

verus! {

/// `String::push` of std appends one character to the end.
pub assume_specification[ String::push ](s: &mut String, c: char)
    ensures
        final(s)@ == old(s)@.push(c),
;

/// The characters of `s`, in order.
pub fn chars(s: &str) -> (r: Vec<char>)
    ensures
        r@ == s@,
{
    let mut r: Vec<char> = Vec::new();
    for c in it: s.chars()
        invariant
            r@ == it.seq().take(it.index() as int),
            it.seq() == s@,
    {
        r.push(c);
    }
    assert(r@ == s@);
    r
}

/// The string whose characters are `cs`.
pub fn string(cs: &[char]) -> (r: String)
    ensures
        r@ == cs@,
{
    let mut r: String = String::new();
    let mut i: usize = 0;
    while i < cs.len()
        invariant
            i <= cs.len(),
            r@ == cs@.take(i as int),
        decreases cs.len() - i,
    {
        r.push(cs[i]);
        i = i + 1;
    }
    assert(cs@.take(i as int) == cs@);
    r
}

/// An owned copy of `s`.
pub fn own(s: &str) -> (r: String)
    ensures
        r@ == s@,
{
    let cs = chars(s);
    string(&cs)
}

pub fn cat(a: &str, b: &str) -> (r: String)
    ensures
        r@ == a@ + b@,
{
    let mut r = own(a);
    r.append(b);
    r
}

pub fn cat3(a: &str, b: &str, c: &str) -> (r: String)
    ensures
        r@ == a@ + b@ + c@,
{
    let mut r = cat(a, b);
    r.append(c);
    r
}

pub fn cat4(a: &str, b: &str, c: &str, d: &str) -> (r: String)
    ensures
        r@ == a@ + b@ + c@ + d@,
{
    let mut r = cat3(a, b, c);
    r.append(d);
    r
}

pub fn cat5(a: &str, b: &str, c: &str, d: &str, e: &str) -> (r: String)
    ensures
        r@ == a@ + b@ + c@ + d@ + e@,
{
    let mut r = cat4(a, b, c, d);
    r.append(e);
    r
}

/// Whether two texts hold the same characters.
pub fn same(a: &str, b: &str) -> (r: bool)
    ensures
        r == (a@ == b@),
{
    let x = chars(a);
    let y = chars(b);
    same_chars(&x, &y)
}

pub fn same_chars(a: &[char], b: &[char]) -> (r: bool)
    ensures
        r == (a@ == b@),
{
    if a.len() != b.len() {
        return false;
    }
    let mut i: usize = 0;
    while i < a.len()
        invariant
            a.len() == b.len(),
            i <= a.len(),
            forall|k: int| 0 <= k < i ==> a@[k] == b@[k],
        decreases a.len() - i,
    {
        if a[i] != b[i] {
            assert(a@[i as int] != b@[i as int]);
            return false;
        }
        i = i + 1;
    }
    assert(a@ =~= b@);
    true
}

/// The characters with the Unicode property White_Space.
pub open spec fn white(c: char) -> bool {
    let n = c as int;
    ||| 0x9 <= n <= 0xd
    ||| n == 0x20 || n == 0x85 || n == 0xa0 || n == 0x1680
    ||| 0x2000 <= n <= 0x200a
    ||| n == 0x2028 || n == 0x2029 || n == 0x202f || n == 0x205f || n == 0x3000
}

pub fn is_white(c: char) -> (r: bool)
    ensures
        r == white(c),
{
    let n: u32 = c as u32;
    (0x9 <= n && n <= 0xd) || n == 0x20 || n == 0x85 || n == 0xa0 || n == 0x1680 || (0x2000 <= n && n <= 0x200a) || n == 0x2028
        || n == 0x2029 || n == 0x202f || n == 0x205f || n == 0x3000
}

pub open spec fn trim_left(s: Seq<char>) -> Seq<char>
    decreases s.len(),
{
    if s.len() > 0 && white(s[0]) {
        trim_left(s.skip(1))
    } else {
        s
    }
}

pub open spec fn trim_right(s: Seq<char>) -> Seq<char>
    decreases s.len(),
{
    if s.len() > 0 && white(s.last()) {
        trim_right(s.drop_last())
    } else {
        s
    }
}

/// The text without the white space at its two ends.
pub open spec fn trimmed(s: Seq<char>) -> Seq<char> {
    trim_right(trim_left(s))
}

pub fn trim_chars(s: &[char]) -> (r: Vec<char>)
    ensures
        r@ == trimmed(s@),
        r@.len() <= s@.len(),
{
    let mut i: usize = 0;
    assert(s@.skip(0) == s@);
    while i < s.len() && is_white(s[i])
        invariant
            i <= s.len(),
            trim_left(s@) == trim_left(s@.skip(i as int)),
        decreases s.len() - i,
    {
        assert(s@.skip(i as int).skip(1) == s@.skip(i + 1));
        i = i + 1;
    }
    assert(trim_left(s@) == s@.skip(i as int));
    let mut j: usize = s.len();
    assert(s@.subrange(i as int, j as int) == s@.skip(i as int));
    while j > i && is_white(s[j - 1])
        invariant
            i <= j <= s.len(),
            trimmed(s@) == trim_right(s@.subrange(i as int, j as int)),
        decreases j,
    {
        assert(s@.subrange(i as int, j as int).drop_last() == s@.subrange(i as int, j - 1));
        j = j - 1;
    }
    slice_chars(s, i, j)
}

/// The characters of `s` from `from` up to, not including, `to`.
pub fn slice_chars(s: &[char], from: usize, to: usize) -> (r: Vec<char>)
    requires
        from <= to <= s@.len(),
    ensures
        r@ == s@.subrange(from as int, to as int),
{
    let mut r: Vec<char> = Vec::new();
    let mut i: usize = from;
    while i < to
        invariant
            from <= i <= to <= s@.len(),
            r@ == s@.subrange(from as int, i as int),
        decreases to - i,
    {
        r.push(s[i]);
        i = i + 1;
    }
    r
}

pub fn trim(s: &str) -> (r: String)
    ensures
        r@ == trimmed(s@),
{
    let cs = chars(s);
    let t = trim_chars(&cs);
    string(&t)
}

/// Whether `s` holds nothing but white space.
pub open spec fn blank(s: Seq<char>) -> bool {
    trimmed(s).len() == 0
}

pub fn is_blank(s: &str) -> (r: bool)
    ensures
        r == blank(s@),
{
    let cs = chars(s);
    let t = trim_chars(&cs);
    t.len() == 0
}

pub open spec fn is_lower(c: char) -> bool {
    'a' <= c <= 'z'
}

pub open spec fn is_upper(c: char) -> bool {
    'A' <= c <= 'Z'
}

pub open spec fn is_digit(c: char) -> bool {
    '0' <= c <= '9'
}

pub open spec fn is_alnum(c: char) -> bool {
    is_lower(c) || is_upper(c) || is_digit(c)
}

pub fn ascii_digit(c: char) -> (r: bool)
    ensures
        r == is_digit(c),
{
    '0' <= c && c <= '9'
}

pub fn ascii_alnum(c: char) -> (r: bool)
    ensures
        r == is_alnum(c),
{
    ('a' <= c && c <= 'z') || ('A' <= c && c <= 'Z') || ('0' <= c && c <= '9')
}

pub open spec fn lower_char(c: char) -> char {
    if is_upper(c) {
        ((c as u8 + 32) as u8) as char
    } else {
        c
    }
}

pub open spec fn upper_char(c: char) -> char {
    if is_lower(c) {
        ((c as u8 - 32) as u8) as char
    } else {
        c
    }
}

pub fn to_lower_char(c: char) -> (r: char)
    ensures
        r == lower_char(c),
{
    if 'A' <= c && c <= 'Z' {
        ((c as u8) + 32) as char
    } else {
        c
    }
}

pub fn to_upper_char(c: char) -> (r: char)
    ensures
        r == upper_char(c),
{
    if 'a' <= c && c <= 'z' {
        ((c as u8) - 32) as char
    } else {
        c
    }
}

/// ASCII letters in lower case, every other character as it is.
pub open spec fn lowered(s: Seq<char>) -> Seq<char> {
    s.map_values(|c: char| lower_char(c))
}

/// ASCII letters in upper case, every other character as it is.
pub open spec fn uppered(s: Seq<char>) -> Seq<char> {
    s.map_values(|c: char| upper_char(c))
}

pub fn lower(s: &str) -> (r: String)
    ensures
        r@ == lowered(s@),
{
    let cs = chars(s);
    let mut r: String = String::new();
    let mut i: usize = 0;
    while i < cs.len()
        invariant
            i <= cs.len(),
            cs@ == s@,
            r@ == lowered(s@.take(i as int)),
        decreases cs.len() - i,
    {
        r.push(to_lower_char(cs[i]));
        assert(s@.take(i + 1) == s@.take(i as int).push(s@[i as int]));
        i = i + 1;
        assert(r@ =~= lowered(s@.take(i as int)));
    }
    assert(s@.take(i as int) == s@);
    r
}

pub fn upper(s: &str) -> (r: String)
    ensures
        r@ == uppered(s@),
{
    let cs = chars(s);
    let mut r: String = String::new();
    let mut i: usize = 0;
    while i < cs.len()
        invariant
            i <= cs.len(),
            cs@ == s@,
            r@ == uppered(s@.take(i as int)),
        decreases cs.len() - i,
    {
        r.push(to_upper_char(cs[i]));
        assert(s@.take(i + 1) == s@.take(i as int).push(s@[i as int]));
        i = i + 1;
        assert(r@ =~= uppered(s@.take(i as int)));
    }
    assert(s@.take(i as int) == s@);
    r
}

/// The characters of `s` that `keep` holds of, in order.
pub open spec fn kept(s: Seq<char>, keep: spec_fn(char) -> bool) -> Seq<char>
    decreases s.len(),
{
    if s.len() == 0 {
        s
    } else if keep(s.last()) {
        kept(s.drop_last(), keep).push(s.last())
    } else {
        kept(s.drop_last(), keep)
    }
}

/// Whether `t` stands in `s` from position `i` on.
pub open spec fn at(s: Seq<char>, t: Seq<char>, i: int) -> bool {
    0 <= i && i + t.len() <= s.len() && s.subrange(i, i + t.len()) == t
}

/// Whether `t` stands somewhere in `s`.
pub open spec fn holds(s: Seq<char>, t: Seq<char>) -> bool {
    exists|i: int| at(s, t, i)
}

/// The first position of `t` in `s` from `from` on, `None` where it does not occur there.
pub open spec fn position(s: Seq<char>, t: Seq<char>, from: int) -> Option<int>
    decreases s.len() - from,
{
    if at(s, t, from) {
        Some(from)
    } else if from < s.len() {
        position(s, t, from + 1)
    } else {
        None
    }
}

pub fn is_at(s: &[char], t: &[char], i: usize) -> (r: bool)
    ensures
        r == at(s@, t@, i as int),
{
    if i > s.len() || t.len() > s.len() - i {
        return false;
    }
    let mut k: usize = 0;
    while k < t.len()
        invariant
            i + t.len() <= s.len(),
            k <= t.len(),
            forall|j: int| 0 <= j < k ==> s@[i + j] == t@[j],
        decreases t.len() - k,
    {
        if s[i + k] != t[k] {
            assert(s@.subrange(i as int, i + t.len())[k as int] != t@[k as int]);
            return false;
        }
        k = k + 1;
    }
    assert(s@.subrange(i as int, i + t.len()) =~= t@);
    true
}

pub fn find(s: &[char], t: &[char], from: usize) -> (r: Option<usize>)
    requires
        from <= s@.len(),
    ensures
        match r {
            Some(i) => position(s@, t@, from as int) == Some(i as int) && at(s@, t@, i as int) && from <= i,
            None => position(s@, t@, from as int) is None,
        },
        r is Some ==> r->0 + t@.len() <= s@.len() <= usize::MAX,
        r is None ==> forall|j: int| from <= j ==> !at(s@, t@, j),
        r is Some ==> forall|j: int| from <= j < r->0 ==> !at(s@, t@, j),
{
    let size: usize = s.len();
    let mut i: usize = from;
    loop
        invariant
            size == s@.len(),
            from <= i <= s@.len(),
            position(s@, t@, from as int) == position(s@, t@, i as int),
            forall|j: int| from <= j < i ==> !at(s@, t@, j),
        decreases s@.len() - i,
    {
        if is_at(s, t, i) {
            return Some(i);
        }
        if i >= s.len() {
            return None;
        }
        i = i + 1;
    }
}

pub fn contains(s: &str, t: &str) -> (r: bool)
    ensures
        r == holds(s@, t@),
{
    let a = chars(s);
    let b = chars(t);
    match find(&a, &b, 0) {
        Some(i) => {
            assert(at(s@, t@, i as int));
            true
        },
        None => false,
    }
}

pub open spec fn starts(s: Seq<char>, t: Seq<char>) -> bool {
    at(s, t, 0)
}

pub open spec fn ends(s: Seq<char>, t: Seq<char>) -> bool {
    at(s, t, s.len() - t.len())
}

pub fn starts_with(s: &str, t: &str) -> (r: bool)
    ensures
        r == starts(s@, t@),
{
    let a = chars(s);
    let b = chars(t);
    is_at(&a, &b, 0)
}

pub fn ends_with(s: &str, t: &str) -> (r: bool)
    ensures
        r == ends(s@, t@),
{
    let a = chars(s);
    let b = chars(t);
    if b.len() > a.len() {
        false
    } else {
        is_at(&a, &b, a.len() - b.len())
    }
}

/// The decimal digits of a natural number, without leading zeros.
pub open spec fn nat_text(n: nat) -> Seq<char>
    decreases n,
{
    if n < 10 {
        seq![digit_char(n as int)]
    } else {
        nat_text(n / 10).push(digit_char((n % 10) as int))
    }
}

pub open spec fn digit_char(d: int) -> char {
    ((48 + d) as u8) as char
}

/// An integer as it is written in decimal, with `-` before a negative one.
pub open spec fn int_text(n: int) -> Seq<char> {
    if n < 0 {
        seq!['-'] + nat_text((-n) as nat)
    } else {
        nat_text(n as nat)
    }
}

pub fn nat_string(n: u128) -> (r: String)
    ensures
        r@ == nat_text(n as nat),
    decreases n,
{
    if n < 10 {
        let mut s: String = String::new();
        s.push(((n as u8) + 48) as char);
        assert(s@ =~= nat_text(n as nat));
        s
    } else {
        let mut s = nat_string(n / 10);
        s.push((((n % 10) as u8) + 48) as char);
        s
    }
}

pub fn int_string(n: i64) -> (r: String)
    ensures
        r@ == int_text(n as int),
{
    if n < 0 {
        let m: u128 = (-(n as i128)) as u128;
        let d = nat_string(m);
        let mut s: String = String::new();
        s.push('-');
        s.append(d.as_str());
        assert(s@ =~= int_text(n as int));
        s
    } else {
        nat_string(n as u128)
    }
}

pub open spec fn all_digits(s: Seq<char>) -> bool {
    forall|i: int| 0 <= i < s.len() ==> is_digit(#[trigger] s[i])
}

pub open spec fn digit_value(c: char) -> int {
    c as int - 48
}

/// The number that a run of decimal digits stands for.
pub open spec fn digits_value(s: Seq<char>) -> int
    decreases s.len(),
{
    if s.len() == 0 {
        0
    } else {
        10 * digits_value(s.drop_last()) + digit_value(s.last())
    }
}

/// The integer of 64 bits that a text stands for: decimal digits, after a sign or not.
pub open spec fn int_in(s: Seq<char>) -> Option<int> {
    let signed = s.len() > 0 && (s[0] == '-' || s[0] == '+');
    let d = if signed {
        s.skip(1)
    } else {
        s
    };
    let v = if signed && s[0] == '-' {
        -digits_value(d)
    } else {
        digits_value(d)
    };
    if d.len() > 0 && all_digits(d) && i64::MIN <= v <= i64::MAX {
        Some(v)
    } else {
        None
    }
}

proof fn lemma_digits_grow(s: Seq<char>, k: int)
    requires
        all_digits(s),
        0 <= k <= s.len(),
    ensures
        0 <= digits_value(s.take(k)) <= digits_value(s),
    decreases s.len(),
{
    if k == s.len() {
        assert(s.take(k) == s);
        if s.len() > 0 {
            assert(all_digits(s.drop_last()));
            lemma_digits_grow(s.drop_last(), k - 1);
            assert(is_digit(s[s.len() - 1]));
        }
    } else {
        assert(all_digits(s.drop_last()));
        lemma_digits_grow(s.drop_last(), k);
        assert(s.drop_last().take(k) == s.take(k));
        assert(is_digit(s[s.len() - 1]));
    }
}

/// Reads an integer of 64 bits, as `str::parse` does.
pub fn parse_int(s: &str) -> (r: Option<i64>)
    ensures
        match r {
            Some(v) => int_in(s@) == Some(v as int),
            None => int_in(s@) is None,
        },
{
    let cs = chars(s);
    let signed = cs.len() > 0 && (cs[0] == '-' || cs[0] == '+');
    let negative = signed && cs[0] == '-';
    let start: usize = if signed { 1 } else { 0 };
    let d = slice_chars(&cs, start, cs.len());
    assert(d@ == (if signed { s@.skip(1) } else { s@ }));
    if d.len() == 0 {
        return None;
    }
    let mut v: i128 = 0;
    let mut i: usize = 0;
    while i < d.len()
        invariant
            i <= d.len(),
            forall|k: int| 0 <= k < i ==> is_digit(#[trigger] d@[k]),
            v == digits_value(d@.take(i as int)),
            0 <= v <= 9223372036854775808,
            d@ == (if signed { s@.skip(1) } else { s@ }),
            negative == (signed && s@[0] == '-'),
            signed == (s@.len() > 0 && (s@[0] == '-' || s@[0] == '+')),
        decreases d.len() - i,
    {
        if !ascii_digit(d[i]) {
            assert(!is_digit(d@[i as int]));
            return None;
        }
        let next: i128 = v * 10 + (d[i] as u32 - 48) as i128;
        assert(d@.take(i + 1).drop_last() == d@.take(i as int));
        assert(next == digits_value(d@.take(i + 1)));
        if next > 9223372036854775808 {
            proof {
                if all_digits(d@) {
                    lemma_digits_grow(d@, i + 1);
                }
            }
            return None;
        }
        v = next;
        i = i + 1;
    }
    assert(d@.take(i as int) == d@);
    if negative {
        Some((-v) as i64)
    } else if v <= 9223372036854775807 {
        Some(v as i64)
    } else {
        None
    }
}

pub proof fn lemma_nat_text(n: nat)
    ensures
        nat_text(n).len() >= 1,
        all_digits(nat_text(n)),
        digits_value(nat_text(n)) == n,
    decreases n,
{
    if n < 10 {
        assert(nat_text(n).drop_last() =~= Seq::<char>::empty());
        reveal_with_fuel(digits_value, 2);
    } else {
        lemma_nat_text(n / 10);
        assert(nat_text(n).drop_last() =~= nat_text(n / 10));
    }
}

/// Writing an integer of 64 bits and reading it gives it back.
pub proof fn law_int_round_trip(n: i64)
    ensures
        int_in(int_text(n as int)) == Some(n as int),
{
    if n < 0 {
        lemma_nat_text((-(n as int)) as nat);
        assert(int_text(n as int).skip(1) =~= nat_text((-(n as int)) as nat));
    } else {
        lemma_nat_text(n as nat);
        assert(is_digit(nat_text(n as nat)[0]));
    }
}

/// What std's `Debug` writes for a text: the text in double quotes, with escapes.
pub uninterp spec fn debug_text(s: Seq<char>) -> Seq<char>;

/// The text in double quotes, as std's `Debug` of `str` writes it.
#[verifier::external_body]
pub(crate) fn quoted(s: &str) -> (r: String)
    ensures
        r@ == debug_text(s@),
{
    format!("{s:?}")
}

/// Whether `a` comes before `b` in the order of their characters.
pub open spec fn text_less(a: Seq<char>, b: Seq<char>) -> bool
    decreases a.len(),
{
    if b.len() == 0 {
        false
    } else if a.len() == 0 {
        true
    } else if a[0] != b[0] {
        a[0] < b[0]
    } else {
        text_less(a.skip(1), b.skip(1))
    }
}

pub fn is_less(a: &str, b: &str) -> (r: bool)
    ensures
        r == text_less(a@, b@),
{
    let x = chars(a);
    let y = chars(b);
    let mut i: usize = 0;
    assert(x@.skip(0) == x@ && y@.skip(0) == y@);
    while i < x.len() && i < y.len() && x[i] == y[i]
        invariant
            x@ == a@,
            y@ == b@,
            i <= x.len(),
            i <= y.len(),
            text_less(a@, b@) == text_less(x@.skip(i as int), y@.skip(i as int)),
        decreases x.len() - i,
    {
        assert(x@.skip(i as int).skip(1) == x@.skip(i + 1));
        assert(y@.skip(i as int).skip(1) == y@.skip(i + 1));
        i = i + 1;
    }
    if i >= y.len() {
        false
    } else if i >= x.len() {
        true
    } else {
        x[i] < y[i]
    }
}

pub proof fn lemma_text_order(a: Seq<char>, b: Seq<char>, c: Seq<char>)
    ensures
        !text_less(a, a),
        text_less(a, b) ==> !text_less(b, a),
        text_less(a, b) && text_less(b, c) ==> text_less(a, c),
        !text_less(a, b) && !text_less(b, a) ==> a == b,
    decreases a.len() + b.len() + c.len(),
{
    if a.len() > 0 {
        let e = Seq::<char>::empty();
        let x = a.skip(1);
        let y = if b.len() > 0 {
            b.skip(1)
        } else {
            e
        };
        let z = if c.len() > 0 {
            c.skip(1)
        } else {
            e
        };
        lemma_text_order(x, y, z);
        if b.len() > 0 && a[0] == b[0] && x == y {
            assert(a =~= seq![a[0]] + x);
            assert(b =~= seq![b[0]] + y);
        }
    } else if b.len() == 0 {
        assert(a =~= b);
    }
}

/// The texts of a list of strings.
pub open spec fn texts(v: Seq<String>) -> Seq<Seq<char>> {
    v.map_values(|x: String| x@)
}

pub open spec fn char_texts(v: Seq<Vec<char>>) -> Seq<Seq<char>> {
    v.map_values(|x: Vec<char>| x@)
}

/// The parts of `s` between occurrences of `c`.
pub open spec fn parts(s: Seq<char>, c: char) -> Seq<Seq<char>>
    decreases s.len(),
{
    if s.len() == 0 {
        seq![Seq::empty()]
    } else {
        let p = parts(s.drop_last(), c);
        if s.last() == c {
            p.push(Seq::empty())
        } else {
            p.update(p.len() - 1, p.last().push(s.last()))
        }
    }
}

pub proof fn lemma_parts_some(s: Seq<char>, c: char)
    ensures
        parts(s, c).len() >= 1,
    decreases s.len(),
{
    if s.len() > 0 {
        lemma_parts_some(s.drop_last(), c);
    }
}

pub fn split(s: &[char], c: char) -> (r: Vec<Vec<char>>)
    ensures
        char_texts(r@) == parts(s@, c),
{
    let mut done: Vec<Vec<char>> = Vec::new();
    let mut part: Vec<char> = Vec::new();
    let mut i: usize = 0;
    assert(char_texts(done@).push(part@) =~= parts(s@.take(0), c));
    while i < s.len()
        invariant
            i <= s.len(),
            char_texts(done@).push(part@) == parts(s@.take(i as int), c),
        decreases s.len() - i,
    {
        assert(s@.take(i + 1).drop_last() == s@.take(i as int));
        let ghost before = char_texts(done@).push(part@);
        if s[i] == c {
            let ghost rows = done@;
            let ghost last = part@;
            done.push(part);
            part = Vec::new();
            assert(char_texts(done@) =~= char_texts(rows).push(last));
        } else {
            part.push(s[i]);
            assert(char_texts(done@).push(part@) =~= before.update(before.len() - 1, before.last().push(s@[i as int])));
        }
        i = i + 1;
    }
    assert(s@.take(i as int) == s@);
    let ghost rows = done@;
    let ghost last = part@;
    done.push(part);
    assert(char_texts(done@) =~= char_texts(rows).push(last));
    done
}

pub fn trim_left_chars(s: &[char]) -> (r: Vec<char>)
    ensures
        r@ == trim_left(s@),
{
    let mut i: usize = 0;
    assert(s@.skip(0) == s@);
    while i < s.len() && is_white(s[i])
        invariant
            i <= s.len(),
            trim_left(s@) == trim_left(s@.skip(i as int)),
        decreases s.len() - i,
    {
        assert(s@.skip(i as int).skip(1) == s@.skip(i + 1));
        i = i + 1;
    }
    let r = slice_chars(s, i, s.len());
    assert(r@ == s@.skip(i as int));
    r
}

/// Texts one after another with `sep` between them.
pub open spec fn joined(ts: Seq<Seq<char>>, sep: Seq<char>) -> Seq<char>
    decreases ts.len(),
{
    if ts.len() == 0 {
        Seq::empty()
    } else if ts.len() == 1 {
        ts[0]
    } else {
        ts[0] + sep + joined(ts.skip(1), sep)
    }
}

pub proof fn lemma_joined_push(ts: Seq<Seq<char>>, t: Seq<char>, sep: Seq<char>)
    requires
        ts.len() > 0,
    ensures
        joined(ts.push(t), sep) == joined(ts, sep) + sep + t,
    decreases ts.len(),
{
    if ts.len() == 1 {
        assert(ts.push(t).skip(1) =~= seq![t]);
        assert(joined(seq![t], sep) == t);
    } else {
        lemma_joined_push(ts.skip(1), t, sep);
        assert(ts.push(t).skip(1) =~= ts.skip(1).push(t));
        assert(joined(ts.push(t), sep) == ts[0] + sep + (joined(ts.skip(1), sep) + sep + t));
        assert(ts[0] + sep + (joined(ts.skip(1), sep) + sep + t) =~= joined(ts, sep) + sep + t);
    }
}

pub fn join(ts: &[String], sep: &str) -> (r: String)
    ensures
        r@ == joined(texts(ts@), sep@),
{
    let mut r: String = String::new();
    let mut i: usize = 0;
    while i < ts.len()
        invariant
            i <= ts.len(),
            r@ == joined(texts(ts@.take(i as int)), sep@),
        decreases ts.len() - i,
    {
        proof {
            assert(texts(ts@.take(i + 1)) =~= texts(ts@.take(i as int)).push(ts@[i as int]@));
            if i > 0 {
                lemma_joined_push(texts(ts@.take(i as int)), ts@[i as int]@, sep@);
            }
        }
        if i > 0 {
            r.append(sep);
        }
        let ghost before = r@;
        r.append(ts[i].as_str());
        assert(before + ts@[i as int]@ =~= r@);
        i = i + 1;
    }
    assert(ts@.take(i as int) == ts@);
    r
}

/// The texts from the place `i` on, one after another.
pub open spec fn glued_from(parts: Seq<Seq<char>>, i: int) -> Seq<char>
    decreases parts.len() - i,
{
    if i < 0 || i >= parts.len() {
        Seq::empty()
    } else {
        parts[i] + glued_from(parts, i + 1)
    }
}

/// Texts one after another.
pub open spec fn glued(parts: Seq<Seq<char>>) -> Seq<char> {
    glued_from(parts, 0)
}

pub open spec fn str_texts(v: Seq<&str>) -> Seq<Seq<char>> {
    v.map_values(|x: &str| x@)
}

pub fn glue(parts: &[&str]) -> (r: String)
    ensures
        r@ == glued(str_texts(parts@)),
{
    let ghost all = str_texts(parts@);
    let mut r: String = String::new();
    let mut i: usize = 0;
    assert(r@ + glued_from(all, 0) =~= glued(all));
    while i < parts.len()
        invariant
            i <= parts.len(),
            all == str_texts(parts@),
            r@ + glued_from(all, i as int) == glued(all),
        decreases parts.len() - i,
    {
        let ghost before = r@;
        r.append(parts[i]);
        proof {
            assert(all[i as int] == parts@[i as int]@);
            assert(glued_from(all, i as int) == all[i as int] + glued_from(all, i + 1));
            assert(r@ + glued_from(all, i + 1) =~= before + glued_from(all, i as int));
        }
        i = i + 1;
    }
    assert(r@ =~= glued(all));
    r
}

/// Whether `s` is one of `v`.
pub fn among(v: &[String], s: &str) -> (r: bool)
    ensures
        r == texts(v@).contains(s@),
{
    let mut i: usize = 0;
    while i < v.len()
        invariant
            i <= v.len(),
            forall|k: int| 0 <= k < i ==> (#[trigger] v@[k])@ != s@,
        decreases v.len() - i,
    {
        if same(v[i].as_str(), s) {
            assert(texts(v@)[i as int] == s@);
            return true;
        }
        i = i + 1;
    }
    assert(!texts(v@).contains(s@));
    false
}

/// The lower-case form, by the tables of Unicode, of a text that is not all ASCII.
pub uninterp spec fn unicode_lowercase_of(s: Seq<char>) -> Seq<char>;

/// The lower-case form of a text.
#[verifier::opaque]
pub open spec fn lowercase_of(s: Seq<char>) -> Seq<char> {
    if vstd::utf8::is_ascii_chars(s) {
        lowered(s)
    } else {
        unicode_lowercase_of(s)
    }
}

/// `str::to_lowercase` of std: ASCII text has its capital letters replaced. The lower-case form of
/// other text goes by the tables of Unicode, which are not written out here.
#[verifier::external_body]
fn std_lowercase(s: &str) -> (r: String)
    ensures
        r@ == (if vstd::utf8::is_ascii_chars(s@) {
            lowered(s@)
        } else {
            unicode_lowercase_of(s@)
        }),
{
    s.to_lowercase()
}

pub(crate) fn to_lowercase(s: &str) -> (r: String)
    ensures
        r@ == lowercase_of(s@),
        vstd::utf8::is_ascii_chars(s@) ==> r@ == lowered(s@),
{
    reveal(lowercase_of);
    std_lowercase(s)
}

/// The upper-case form of a text.
pub uninterp spec fn uppercase_of(s: Seq<char>) -> Seq<char>;

/// `str::to_uppercase` of std: the upper-case form of a text by the tables of Unicode, which are
/// not written out here. ASCII text has its small letters replaced.
#[verifier::external_body]
pub(crate) fn to_uppercase(s: &str) -> (r: String)
    ensures
        r@ == uppercase_of(s@),
        vstd::utf8::is_ascii_chars(s@) ==> r@ == uppered(s@),
{
    s.to_uppercase()
}

/// Whether a character is a letter or a number.
pub uninterp spec fn alphanumeric(c: char) -> bool;

/// `char::is_alphanumeric` of std: whether a character is alphabetic or numeric by the tables of
/// Unicode, which are not written out here. Of the ASCII characters the letters and digits are.
#[verifier::external_body]
pub(crate) fn is_alphanumeric(c: char) -> (r: bool)
    ensures
        r == alphanumeric(c),
        (c as int) < 128 ==> r == is_alnum(c),
{
    c.is_alphanumeric()
}

/// What is cut of the first `n` characters: the pieces that are done, and the one at the end.
pub open spec fn cut_state(s: Seq<char>, sep: Seq<bool>, n: nat) -> (Seq<Seq<char>>, Seq<char>)
    decreases n,
{
    if n == 0 {
        (Seq::empty(), Seq::empty())
    } else {
        let (done, cur) = cut_state(s, sep, (n - 1) as nat);
        if sep[n - 1] {
            (if cur.len() > 0 {
                done.push(cur)
            } else {
                done
            }, Seq::empty())
        } else {
            (done, cur.push(s[n - 1]))
        }
    }
}

/// The pieces of `s` between the characters that `sep` marks, without empty ones.
pub open spec fn cut_at(s: Seq<char>, sep: Seq<bool>) -> Seq<Seq<char>> {
    let (done, cur) = cut_state(s, sep, s.len());
    if cur.len() > 0 {
        done.push(cur)
    } else {
        done
    }
}

pub fn cut(s: &[char], sep: &[bool]) -> (r: Vec<String>)
    requires
        s@.len() == sep@.len(),
    ensures
        texts(r@) == cut_at(s@, sep@),
{
    let mut done: Vec<String> = Vec::new();
    let mut cur: String = String::new();
    let mut filled: bool = false;
    let mut i: usize = 0;
    assert(texts(done@) =~= Seq::<Seq<char>>::empty());
    while i < s.len()
        invariant
            i <= s.len() == sep.len(),
            cut_state(s@, sep@, i as nat) == (texts(done@), cur@),
            filled == (cur@.len() > 0),
        decreases s.len() - i,
    {
        if sep[i] {
            if filled {
                let ghost before = texts(done@);
                let ghost last = cur@;
                done.push(cur);
                assert(texts(done@) =~= before.push(last));
                cur = String::new();
                filled = false;
            }
            assert(cur@ =~= Seq::<char>::empty());
        } else {
            cur.push(s[i]);
            filled = true;
        }
        i = i + 1;
    }
    if filled {
        let ghost before = texts(done@);
        let ghost last = cur@;
        done.push(cur);
        assert(texts(done@) =~= before.push(last));
    }
    done
}

/// Which characters of a text are white space.
pub open spec fn white_marks(s: Seq<char>) -> Seq<bool> {
    s.map_values(|c: char| white(c))
}

/// The words of a text: its pieces between white space.
pub open spec fn words_of(s: Seq<char>) -> Seq<Seq<char>> {
    cut_at(s, white_marks(s))
}

pub fn words(s: &str) -> (r: Vec<String>)
    ensures
        texts(r@) == words_of(s@),
{
    let cs = chars(s);
    let mut marks: Vec<bool> = Vec::new();
    let mut i: usize = 0;
    while i < cs.len()
        invariant
            i <= cs.len(),
            marks@ == white_marks(cs@).take(i as int),
        decreases cs.len() - i,
    {
        marks.push(is_white(cs[i]));
        assert(marks@ =~= white_marks(cs@).take(i + 1));
        i = i + 1;
    }
    assert(marks@ =~= white_marks(cs@));
    cut(&cs, &marks)
}

/// The words of a text with one space between them.
pub open spec fn single_spaced(s: Seq<char>) -> Seq<char> {
    joined(words_of(s), " "@)
}

pub fn single_space(s: &str) -> (r: String)
    ensures
        r@ == single_spaced(s@),
{
    join(&words(s), " ")
}

/// The texts without those that occurred before.
pub open spec fn distinct(ts: Seq<Seq<char>>) -> Seq<Seq<char>>
    decreases ts.len(),
{
    if ts.len() == 0 {
        ts
    } else {
        let rest = distinct(ts.drop_last());
        if rest.contains(ts.last()) {
            rest
        } else {
            rest.push(ts.last())
        }
    }
}

/// Adds a text that is not there yet.
pub fn push_distinct(v: &mut Vec<String>, s: &str)
    ensures
        texts(final(v)@) == (if texts(old(v)@).contains(s@) {
            texts(old(v)@)
        } else {
            texts(old(v)@).push(s@)
        }),
{
    if !among(v, s) {
        let ghost before = texts(v@);
        let t = own(s);
        v.push(t);
        assert(texts(v@) =~= before.push(s@));
    }
}

/// Whether a character is a letter.
pub uninterp spec fn alphabetic(c: char) -> bool;

/// `char::is_alphabetic` of std: whether a character is alphabetic by the tables of Unicode, which
/// are not written out here. Of the ASCII characters the letters are.
#[verifier::external_body]
pub(crate) fn is_alphabetic(c: char) -> (r: bool)
    ensures
        r == alphabetic(c),
        (c as int) < 128 ==> r == (is_lower(c) || is_upper(c)),
{
    c.is_alphabetic()
}

/// How many bytes a character takes in UTF-8.
pub open spec fn byte_width(c: char) -> nat {
    if (c as int) < 0x80 {
        1
    } else if (c as int) < 0x800 {
        2
    } else if (c as int) < 0x10000 {
        3
    } else {
        4
    }
}

/// How many bytes the first `n` characters take.
pub open spec fn byte_length(s: Seq<char>, n: nat) -> nat
    decreases n,
{
    if n == 0 {
        0
    } else {
        byte_length(s, (n - 1) as nat) + byte_width(s[n - 1])
    }
}

pub fn width_of(c: char) -> (r: usize)
    ensures
        r == byte_width(c),
{
    let n: u32 = c as u32;
    if n < 0x80 {
        1
    } else if n < 0x800 {
        2
    } else if n < 0x10000 {
        3
    } else {
        4
    }
}

/// The text from `i` on with each `a` in it replaced by `b`, from the left.
pub open spec fn replaced_from(s: Seq<char>, a: Seq<char>, b: Seq<char>, i: int) -> Seq<char>
    decreases s.len() - i,
{
    match position(s, a, i) {
        Some(p) => if i <= p && a.len() > 0 && p + a.len() <= s.len() {
            s.subrange(i, p) + b + replaced_from(s, a, b, p + a.len())
        } else {
            s.skip(i)
        },
        None => s.skip(i),
    }
}

/// The text with each `a` in it replaced by `b`.
pub open spec fn replaced(s: Seq<char>, a: Seq<char>, b: Seq<char>) -> Seq<char> {
    replaced_from(s, a, b, 0)
}

pub fn replace(s: &str, a: &str, b: &str) -> (r: String)
    requires
        a@.len() > 0,
    ensures
        r@ == replaced(s@, a@, b@),
{
    let cs = chars(s);
    let t = chars(a);
    let mut r: String = String::new();
    let mut i: usize = 0;
    assert(r@ + replaced_from(cs@, a@, b@, 0) =~= replaced(s@, a@, b@));
    loop
        invariant
            i <= cs@.len(),
            cs@ == s@,
            t@ == a@,
            a@.len() > 0,
            r@ + replaced_from(cs@, a@, b@, i as int) == replaced(s@, a@, b@),
        ensures
            r@ + cs@.skip(i as int) == replaced(s@, a@, b@),
            i <= cs@.len(),
        decreases cs@.len() - i,
    {
        match find(&cs, &t, i) {
            None => {
                break;
            },
            Some(p) => {
                let ghost before = r@;
                let part = string(&slice_chars(&cs, i, p));
                r.append(part.as_str());
                r.append(b);
                let ghost rest = replaced_from(cs@, a@, b@, p + a@.len());
                assert(r@ + rest =~= before + (cs@.subrange(i as int, p as int) + b@ + rest));
                i = p + t.len();
            },
        }
    }
    let rest = string(&slice_chars(&cs, i, cs.len()));
    assert(rest@ =~= cs@.skip(i as int));
    r.append(rest.as_str());
    r
}

/// A text does not grow where what is replaced is not shorter, and shrinks where something is
/// replaced that is longer.
pub proof fn lemma_replaced_length(s: Seq<char>, a: Seq<char>, b: Seq<char>, i: int)
    requires
        0 <= i <= s.len(),
        b.len() < a.len(),
    ensures
        replaced_from(s, a, b, i).len() <= s.len() - i,
        position(s, a, i) is Some ==> replaced_from(s, a, b, i).len() < s.len() - i,
    decreases s.len() - i,
{
    lemma_position_within(s, a, i);
    match position(s, a, i) {
        Some(p) => {
            lemma_replaced_length(s, a, b, p + a.len());
        },
        None => {},
    }
}

/// A place that is found lies behind the start, and the text stands there.
pub proof fn lemma_position_within(s: Seq<char>, t: Seq<char>, from: int)
    requires
        0 <= from <= s.len(),
    ensures
        position(s, t, from) matches Some(p) ==> from <= p && p + t.len() <= s.len() && at(s, t, p),
    decreases s.len() - from,
{
    if !at(s, t, from) && from < s.len() {
        lemma_position_within(s, t, from + 1);
    }
}

/// A text that holds another has a first place for it.
pub proof fn lemma_held_somewhere(s: Seq<char>, t: Seq<char>)
    requires
        holds(s, t),
    ensures
        position(s, t, 0) is Some,
{
    let i = choose|i: int| at(s, t, i);
    lemma_found(s, t, 0, i);
}

proof fn lemma_found(s: Seq<char>, t: Seq<char>, from: int, i: int)
    requires
        0 <= from <= i,
        at(s, t, i),
    ensures
        position(s, t, from) is Some,
    decreases i - from,
{
    if !at(s, t, from) {
        lemma_found(s, t, from + 1, i);
    }
}

/// The state of a cut that goes on from `start` over the first `n` characters of `s`, at white
/// space.
spec fn cut_on(start: (Seq<Seq<char>>, Seq<char>), s: Seq<char>, n: nat) -> (Seq<Seq<char>>, Seq<char>)
    decreases n,
{
    if n == 0 {
        start
    } else {
        let (done, cur) = cut_on(start, s, (n - 1) as nat);
        if white(s[n - 1]) {
            (if cur.len() > 0 {
                done.push(cur)
            } else {
                done
            }, Seq::empty())
        } else {
            (done, cur.push(s[n - 1]))
        }
    }
}

/// The state of a cut at white space after a whole text.
spec fn cut_whole(s: Seq<char>) -> (Seq<Seq<char>>, Seq<char>) {
    cut_state(s, white_marks(s), s.len())
}

proof fn lemma_cut_prefix(a: Seq<char>, b: Seq<char>, n: nat)
    requires
        n <= a.len(),
    ensures
        cut_state(a + b, white_marks(a + b), n) == cut_state(a, white_marks(a), n),
    decreases n,
{
    if n > 0 {
        lemma_cut_prefix(a, b, (n - 1) as nat);
        assert((a + b)[n - 1] == a[n - 1]);
        assert(white_marks(a + b)[n - 1] == white_marks(a)[n - 1]);
    }
}

proof fn lemma_cut_on(a: Seq<char>, b: Seq<char>, n: nat)
    requires
        n <= b.len(),
    ensures
        cut_state(a + b, white_marks(a + b), a.len() + n) == cut_on(cut_whole(a), b, n),
    decreases n,
{
    if n == 0 {
        lemma_cut_prefix(a, b, a.len());
    } else {
        lemma_cut_on(a, b, (n - 1) as nat);
        assert((a + b)[a.len() + n - 1] == b[n - 1]);
        assert(white_marks(a + b)[a.len() + n - 1] == white(b[n - 1]));
    }
}

proof fn lemma_cut_join(a: Seq<char>, b: Seq<char>)
    ensures
        cut_whole(a + b) == cut_on(cut_whole(a), b, b.len()),
{
    lemma_cut_on(a, b, b.len());
}

proof fn lemma_cut_white(start: (Seq<Seq<char>>, Seq<char>), w: Seq<char>, n: nat)
    requires
        0 < n <= w.len(),
        all_white(w),
    ensures
        cut_on(start, w, n) == (if start.1.len() > 0 {
            start.0.push(start.1)
        } else {
            start.0
        }, Seq::<char>::empty()),
    decreases n,
{
    assert(white(w[n - 1]));
    if n > 1 {
        lemma_cut_white(start, w, (n - 1) as nat);
    } else {
        assert(cut_on(start, w, 0) == start);
    }
}

proof fn lemma_cut_word(start: (Seq<Seq<char>>, Seq<char>), w: Seq<char>, n: nat)
    requires
        n <= w.len(),
        no_white(w),
    ensures
        cut_on(start, w, n) == (start.0, start.1 + w.take(n as int)),
    decreases n,
{
    if n > 0 {
        lemma_cut_word(start, w, (n - 1) as nat);
        assert(!white(w[n - 1]));
        assert((start.1 + w.take(n - 1)).push(w[n - 1]) =~= start.1 + w.take(n as int));
    } else {
        assert(start.1 + w.take(0) =~= start.1);
    }
}

pub open spec fn all_white(s: Seq<char>) -> bool {
    forall|i: int| 0 <= i < s.len() ==> white(#[trigger] s[i])
}

pub open spec fn no_white(s: Seq<char>) -> bool {
    forall|i: int| 0 <= i < s.len() ==> !white(#[trigger] s[i])
}

/// Words as they come out of a text: none is empty or holds white space.
pub open spec fn proper_words(ws: Seq<Seq<char>>) -> bool {
    forall|i: int| 0 <= i < ws.len() ==> (#[trigger] ws[i]).len() > 0 && no_white(ws[i])
}

proof fn lemma_cut_proper(s: Seq<char>, n: nat)
    requires
        n <= s.len(),
    ensures
        proper_words(cut_state(s, white_marks(s), n).0),
        no_white(cut_state(s, white_marks(s), n).1),
    decreases n,
{
    if n > 0 {
        lemma_cut_proper(s, (n - 1) as nat);
        assert(white_marks(s)[n - 1] == white(s[n - 1]));
    }
}

pub proof fn lemma_words_proper(s: Seq<char>)
    ensures
        proper_words(words_of(s)),
{
    lemma_cut_proper(s, s.len());
}

proof fn lemma_cut_joined(ws: Seq<Seq<char>>)
    requires
        proper_words(ws),
        ws.len() > 0,
    ensures
        cut_whole(joined(ws, " "@)) == (ws.drop_last(), ws.last()),
    decreases ws.len(),
{
    reveal_strlit(" ");
    let (rest, t) = (ws.drop_last(), ws.last());
    assert(ws =~= rest.push(t));
    assert(t == ws[ws.len() - 1]);
    if rest.len() == 0 {
        let none = Seq::<char>::empty();
        assert(none + t =~= t);
        lemma_cut_join(none, t);
        lemma_cut_word(cut_whole(none), t, t.len());
        assert(cut_whole(none) == (Seq::<Seq<char>>::empty(), none));
        assert(t.take(t.len() as int) =~= t);
        assert(rest =~= Seq::<Seq<char>>::empty());
    } else {
        assert(proper_words(rest)) by {
            assert forall|i: int| 0 <= i < rest.len() implies (#[trigger] rest[i]).len() > 0 && no_white(rest[i]) by {
                assert(rest[i] == ws[i]);
            }
        }
        lemma_cut_joined(rest);
        lemma_joined_push(rest, t, " "@);
        let a = joined(rest, " "@);
        lemma_cut_join(a + " "@, t);
        lemma_cut_join(a, " "@);
        assert(rest.last() == ws[ws.len() - 2]);
        assert(all_white(" "@));
        lemma_cut_white(cut_whole(a), " "@, 1);
        assert(rest.drop_last().push(rest.last()) =~= rest);
        lemma_cut_word((rest, Seq::<char>::empty()), t, t.len());
        assert(Seq::<char>::empty() + t.take(t.len() as int) =~= t);
    }
}

/// The words of a text stay when it is written with one space between them.
pub proof fn law_single_spaced(s: Seq<char>)
    ensures
        words_of(single_spaced(s)) == words_of(s),
        single_spaced(single_spaced(s)) == single_spaced(s),
{
    lemma_words_proper(s);
    let ws = words_of(s);
    if ws.len() > 0 {
        lemma_cut_joined(ws);
        assert(ws.last() == ws[ws.len() - 1]);
        assert(ws.drop_last().push(ws.last()) =~= ws);
    } else {
        assert(single_spaced(s) =~= Seq::<char>::empty());
        assert(words_of(single_spaced(s)) =~= ws);
    }
}

/// White space around a text does not change its words, nor does the white space between two of them.
pub proof fn law_words_spacing(a: Seq<char>, v: Seq<char>, w: Seq<char>, b: Seq<char>)
    requires
        all_white(v),
        all_white(w),
    ensures
        words_of(v + a) == words_of(a),
        words_of(a + w) == words_of(a),
        v.len() > 0 && w.len() > 0 ==> words_of(a + v + b) == words_of(a + w + b),
{
    let none = Seq::<char>::empty();
    assert(cut_whole(none) == (Seq::<Seq<char>>::empty(), none));
    lemma_cut_join(none, v);
    assert(none + v =~= v);
    if v.len() > 0 {
        lemma_cut_white(cut_whole(none), v, v.len());
        lemma_cut_white(cut_whole(a), v, v.len());
    }
    lemma_cut_join(v, a);
    lemma_cut_join(none, a);
    assert(none + a =~= a);
    assert(cut_whole(v) == cut_whole(none));
    if w.len() > 0 {
        lemma_cut_white(cut_whole(a), w, w.len());
    }
    lemma_cut_join(a, w);
    lemma_cut_join(a, v);
    lemma_cut_join(a + v, b);
    lemma_cut_join(a + w, b);
}

/// A text without white space around it, with single spaces between its words and no other white
/// space.
pub open spec fn tidy(s: Seq<char>) -> bool {
    &&& s.len() > 0 ==> !white(s[0]) && !white(s[s.len() - 1])
    &&& forall|i: int| 0 <= i < s.len() && white(#[trigger] s[i]) ==> s[i] == ' '
    &&& forall|i: int| 0 <= i && i + 1 < s.len() ==> !(#[trigger] white(s[i]) && white(s[i + 1]))
}

proof fn lemma_joined_tidy(ws: Seq<Seq<char>>)
    requires
        proper_words(ws),
    ensures
        tidy(joined(ws, " "@)),
        ws.len() > 0 ==> joined(ws, " "@).len() > 0,
    decreases ws.len(),
{
    reveal_strlit(" ");
    if ws.len() == 1 {
        assert(ws[0].len() > 0 && no_white(ws[0]));
    } else if ws.len() > 1 {
        let (rest, t) = (ws.drop_last(), ws.last());
        assert(ws =~= rest.push(t));
        assert(t == ws[ws.len() - 1]);
        assert forall|i: int| 0 <= i < rest.len() implies (#[trigger] rest[i]).len() > 0 && no_white(rest[i]) by {
            assert(rest[i] == ws[i]);
        }
        lemma_joined_tidy(rest);
        lemma_joined_push(rest, t, " "@);
        let (a, r) = (joined(rest, " "@), joined(ws, " "@));
        assert(r == a + " "@ + t);
        assert forall|i: int| 0 <= i < r.len() implies #[trigger] r[i] == (if i < a.len() {
            a[i]
        } else if i == a.len() {
            ' '
        } else {
            t[i - a.len() - 1]
        }) by {}
        assert(!white(a[a.len() - 1]));
        assert forall|i: int| 0 <= i && i + 1 < r.len() implies !(#[trigger] white(r[i]) && white(r[i + 1])) by {
            if i + 1 < a.len() {
                assert(r[i + 1] == a[i + 1] && r[i] == a[i]);
                assert(!(white(a[i]) && white(a[i + 1])));
            } else if i >= a.len() {
                assert(r[i + 1] == t[i - a.len()]);
            }
        }
    }
}

/// However a text is spaced, its single-spaced form is tidy.
pub proof fn law_single_spaced_tidy(s: Seq<char>)
    ensures
        tidy(single_spaced(s)),
{
    lemma_words_proper(s);
    lemma_joined_tidy(words_of(s));
}

pub proof fn lemma_lower_white(c: char)
    ensures
        white(lower_char(c)) == white(c),
        white(c) ==> lower_char(c) == c,
        lower_char(lower_char(c)) == lower_char(c),
{
}

/// A tidy text stays tidy in lower case.
pub proof fn lemma_lowered_tidy(s: Seq<char>)
    requires
        tidy(s),
    ensures
        tidy(lowered(s)),
{
    let r = lowered(s);
    assert forall|i: int| 0 <= i < s.len() implies white(#[trigger] r[i]) == white(s[i]) && (white(s[i]) ==> r[i] == s[i]) by {
        lemma_lower_white(s[i]);
    }
    assert forall|i: int| 0 <= i && i + 1 < r.len() implies !(#[trigger] white(r[i]) && white(r[i + 1])) by {
        assert(!(white(s[i]) && white(s[i + 1])));
        assert(r[i + 1] == lower_char(s[i + 1]));
    }
    if s.len() > 0 {
        assert(r[0] == lower_char(s[0]));
        assert(r[r.len() - 1] == lower_char(s[s.len() - 1]));
    }
}

spec fn all_lowered(ws: Seq<Seq<char>>) -> Seq<Seq<char>> {
    ws.map_values(|w: Seq<char>| lowered(w))
}

proof fn lemma_cut_lowered(s: Seq<char>, n: nat)
    requires
        n <= s.len(),
    ensures
        ({
            let (done, cur) = cut_state(s, white_marks(s), n);
            cut_state(lowered(s), white_marks(lowered(s)), n) == (all_lowered(done), lowered(cur))
        }),
    decreases n,
{
    let (done, cur) = cut_state(s, white_marks(s), n);
    if n > 0 {
        lemma_cut_lowered(s, (n - 1) as nat);
        lemma_lower_white(s[n - 1]);
        let (d, c) = cut_state(s, white_marks(s), (n - 1) as nat);
        assert(white_marks(s)[n - 1] == white(s[n - 1]));
        assert(white_marks(lowered(s))[n - 1] == white(lowered(s)[n - 1]));
        assert(all_lowered(d.push(c)) =~= all_lowered(d).push(lowered(c)));
        assert(lowered(c.push(s[n - 1])) =~= lowered(c).push(lower_char(s[n - 1])));
        assert(lowered(Seq::<char>::empty()) =~= Seq::<char>::empty());
    } else {
        assert(all_lowered(done) =~= done);
        assert(lowered(cur) =~= cur);
    }
}

proof fn lemma_joined_lowered(ws: Seq<Seq<char>>)
    ensures
        joined(all_lowered(ws), " "@) == lowered(joined(ws, " "@)),
    decreases ws.len(),
{
    reveal_strlit(" ");
    let r = joined(ws, " "@);
    if ws.len() == 0 {
        assert(lowered(r) =~= r);
    } else if ws.len() > 1 {
        lemma_joined_lowered(ws.skip(1));
        assert(all_lowered(ws).skip(1) =~= all_lowered(ws.skip(1)));
        assert(lowered(ws[0] + " "@ + joined(ws.skip(1), " "@)) =~= lowered(ws[0]) + " "@ + lowered(joined(ws.skip(1), " "@)));
    }
}

/// ASCII letters may change to lower case before or after a text is spaced.
pub proof fn lemma_spaced_lowered(s: Seq<char>)
    ensures
        single_spaced(lowered(s)) == lowered(single_spaced(s)),
{
    lemma_cut_lowered(s, s.len());
    let (done, cur) = cut_state(s, white_marks(s), s.len());
    assert(all_lowered(done.push(cur)) =~= all_lowered(done).push(lowered(cur)));
    assert(words_of(lowered(s)) =~= all_lowered(words_of(s)));
    lemma_joined_lowered(words_of(s));
}

proof fn lemma_cut_ascii(s: Seq<char>, n: nat)
    requires
        n <= s.len(),
        vstd::utf8::is_ascii_chars(s),
    ensures
        forall|i: int| 0 <= i < cut_state(s, white_marks(s), n).0.len() ==> vstd::utf8::is_ascii_chars(#[trigger] cut_state(s, white_marks(s), n).0[i]),
        vstd::utf8::is_ascii_chars(cut_state(s, white_marks(s), n).1),
    decreases n,
{
    if n > 0 {
        lemma_cut_ascii(s, (n - 1) as nat);
    }
}

proof fn lemma_joined_ascii(ws: Seq<Seq<char>>)
    requires
        forall|i: int| 0 <= i < ws.len() ==> vstd::utf8::is_ascii_chars(#[trigger] ws[i]),
    ensures
        vstd::utf8::is_ascii_chars(joined(ws, " "@)),
    decreases ws.len(),
{
    reveal_strlit(" ");
    if ws.len() > 1 {
        assert forall|i: int| 0 <= i < ws.skip(1).len() implies vstd::utf8::is_ascii_chars(#[trigger] ws.skip(1)[i]) by {
            assert(ws.skip(1)[i] == ws[i + 1]);
        }
        lemma_joined_ascii(ws.skip(1));
        assert(vstd::utf8::is_ascii_chars(ws[0]));
    }
}

pub proof fn lemma_spaced_ascii(s: Seq<char>)
    requires
        vstd::utf8::is_ascii_chars(s),
    ensures
        vstd::utf8::is_ascii_chars(single_spaced(s)),
{
    lemma_cut_ascii(s, s.len());
    lemma_joined_ascii(words_of(s));
}

/// ASCII text in lower case is ASCII and its own lower-case form.
pub proof fn lemma_lowered_again(s: Seq<char>)
    requires
        vstd::utf8::is_ascii_chars(s),
    ensures
        lowercase_of(s) == lowered(s),
        vstd::utf8::is_ascii_chars(lowered(s)),
        lowercase_of(lowered(s)) == lowered(s),
{
    reveal(lowercase_of);
    assert forall|i: int| 0 <= i < s.len() implies '\0' <= #[trigger] lowered(s)[i] <= '\u{7f}' by {
        assert('\0' <= s[i] <= '\u{7f}');
    }
    assert forall|i: int| 0 <= i < s.len() implies #[trigger] lowered(lowered(s))[i] == lowered(s)[i] by {
        lemma_lower_white(s[i]);
    }
    assert(lowered(lowered(s)) =~= lowered(s));
}

/// What is distinct holds every text once.
pub proof fn lemma_distinct(ts: Seq<Seq<char>>)
    ensures
        distinct(ts).no_duplicates(),
        forall|i: int| 0 <= i < ts.len() ==> distinct(ts).contains(#[trigger] ts[i]),
    decreases ts.len(),
{
    if ts.len() > 0 {
        lemma_distinct(ts.drop_last());
        let rest = distinct(ts.drop_last());
        let last = ts.last();
        assert forall|i: int| 0 <= i < ts.len() implies distinct(ts).contains(#[trigger] ts[i]) by {
            if i < ts.len() - 1 {
                assert(ts.drop_last()[i] == ts[i]);
                let k = choose|k: int| 0 <= k < rest.len() && rest[k] == ts[i];
                assert(distinct(ts)[k] == ts[i]);
            } else if !rest.contains(last) {
                assert(rest.push(last)[rest.len() as int] == last);
            }
        }
        if !rest.contains(last) {
            assert forall|i: int, j: int| 0 <= i < rest.len() + 1 && 0 <= j < rest.len() + 1 && i != j implies rest.push(last)[i] != rest.push(last)[j] by {
                if i == rest.len() {
                    assert(rest[j] != last);
                } else if j == rest.len() {
                    assert(rest[i] != last);
                }
            }
        }
    }
}

} // verus!
