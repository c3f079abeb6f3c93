//! What holds of the shape that a file name teaches.

use vstd::prelude::*;

use crate::imports::inbox::{collapsed, fits, law_shape_fits, separates, shape_of, starred};
use crate::imports::ofx::digits_from;
use crate::text::{at, holds, is_digit, lemma_held_somewhere, lemma_lower_white, lemma_lowered_again, lemma_position_within, lemma_replaced_length, lower_char, lowercase_of, lowered, position, replaced, replaced_from};

verus! {

/// Whether a run of digits stands between separators, or the ends of the text.
pub open spec fn bounded_run(s: Seq<char>, i: int, e: int) -> bool {
    &&& 0 <= i < e <= s.len()
    &&& forall|k: int| i <= k < e ==> is_digit(#[trigger] s[k])
    &&& i == 0 || separates(s[i - 1])
    &&& e == s.len() || separates(s[e])
}

/// Whether every run of digits has a neighbour that is no separator.
pub open spec fn no_bounded_run(s: Seq<char>) -> bool {
    forall|i: int, e: int| !#[trigger] bounded_run(s, i, e)
}

/// Whether a character stands between two stars.
pub open spec fn between_stars(s: Seq<char>, c: char) -> bool {
    exists|i: int| 0 <= i && i + 2 < s.len() && #[trigger] s[i] == '*' && s[i + 1] == c && s[i + 2] == '*'
}

/// Whether a text is ASCII without capital letters.
pub open spec fn all_small(s: Seq<char>) -> bool {
    forall|i: int| 0 <= i < s.len() ==> '\0' <= #[trigger] s[i] <= '\u{7f}' && lower_char(s[i]) == s[i]
}

/// What the steps that make a shape keep, once the first `level` of them are done.
spec fn quiet(s: Seq<char>, small: bool, level: int) -> bool {
    &&& no_bounded_run(s)
    &&& small ==> all_small(s)
    &&& level >= 1 ==> !between_stars(s, '-')
    &&& level >= 2 ==> !between_stars(s, '_')
    &&& level >= 3 ==> !between_stars(s, ' ')
    &&& level >= 4 ==> !between_stars(s, '.')
}

proof fn lemma_between(a: Seq<char>, p: Seq<char>, b: Seq<char>, c: char)
    requires
        p.len() >= 2,
        p[0] == '*',
        p[p.len() - 1] == '*',
        c != '*',
        !between_stars(a + p + b, c),
    ensures
        !between_stars(a + seq!['*'] + b, c),
{
    let (s, t) = (a + p + b, a + seq!['*'] + b);
    if between_stars(t, c) {
        let i = choose|i: int| 0 <= i && i + 2 < t.len() && #[trigger] t[i] == '*' && t[i + 1] == c && t[i + 2] == '*';
        let k = a.len() as int;
        if i + 2 <= k {
            assert(s[i] == t[i] && s[i + 1] == t[i + 1]);
            assert(s[i + 2] == '*') by {
                if i + 2 < k {
                    assert(s[i + 2] == t[i + 2]);
                } else {
                    assert(s[k] == p[0]);
                }
            }
        } else {
            assert(i >= k) by {
                if i == k - 1 {
                    assert(t[k] == '*');
                }
            }
            let d = p.len() - 1;
            assert(s[i + d] == '*') by {
                if i == k {
                    assert(s[k + d] == p[d]);
                } else {
                    assert(s[i + d] == b[i - k - 1]);
                    assert(t[i] == b[i - k - 1]);
                }
            }
            assert(s[i + d + 1] == b[i - k] && t[i + 1] == b[i - k]);
            assert(s[i + d + 2] == b[i - k + 1] && t[i + 2] == b[i - k + 1]);
        }
    }
}

proof fn lemma_bounded(a: Seq<char>, p: Seq<char>, b: Seq<char>)
    requires
        p.len() >= 2,
        p[0] == '*',
        p[p.len() - 1] == '*',
        no_bounded_run(a + p + b),
    ensures
        no_bounded_run(a + seq!['*'] + b),
{
    let (s, t) = (a + p + b, a + seq!['*'] + b);
    let (k, d) = (a.len() as int, p.len() - 1);
    assert(t[k] == '*');
    assert forall|i: int, e: int| !#[trigger] bounded_run(t, i, e) by {
        if bounded_run(t, i, e) {
            assert(!is_digit('*') && !separates('*'));
            if i < k {
                assert(e < k) by {
                    if e > k {
                        assert(is_digit(t[k]));
                    }
                }
                assert forall|j: int| i <= j < e implies is_digit(#[trigger] s[j]) by {
                    assert(s[j] == t[j]);
                }
                assert(s[e] == t[e]);
                assert(i > 0 ==> s[i - 1] == t[i - 1]);
                assert(bounded_run(s, i, e));
            } else {
                assert(i > k) by {
                    if i == k {
                        assert(is_digit(t[k]));
                    }
                }
                assert(i > k + 1);
                assert forall|j: int| i + d <= j < e + d implies is_digit(#[trigger] s[j]) by {
                    assert(s[j] == b[j - d - k - 1]);
                    assert(t[j - d] == b[j - d - k - 1]);
                }
                assert(s[i + d - 1] == b[i - k - 2] && t[i - 1] == b[i - k - 2]);
                assert(e < t.len() ==> s[e + d] == b[e - k - 1] && t[e] == b[e - k - 1]);
                assert(bounded_run(s, i + d, e + d));
            }
        }
    }
}

proof fn lemma_step(a: Seq<char>, p: Seq<char>, b: Seq<char>, small: bool, level: int)
    requires
        p.len() >= 2,
        p[0] == '*',
        p[p.len() - 1] == '*',
        quiet(a + p + b, small, level),
    ensures
        quiet(a + seq!['*'] + b, small, level),
{
    let (s, t) = (a + p + b, a + seq!['*'] + b);
    lemma_bounded(a, p, b);
    if level >= 1 {
        lemma_between(a, p, b, '-');
    }
    if level >= 2 {
        lemma_between(a, p, b, '_');
    }
    if level >= 3 {
        lemma_between(a, p, b, ' ');
    }
    if level >= 4 {
        lemma_between(a, p, b, '.');
    }
    if small {
        assert forall|i: int| 0 <= i < t.len() implies '\0' <= #[trigger] t[i] <= '\u{7f}' && lower_char(t[i]) == t[i] by {
            if i < a.len() {
                assert(s[i] == t[i]);
            } else if i > a.len() {
                assert(s[i + p.len() - 1] == t[i]);
            }
        }
    }
}

proof fn lemma_replaced_quiet(before: Seq<char>, s: Seq<char>, p: Seq<char>, i: int, small: bool, level: int)
    requires
        0 <= i <= s.len(),
        p.len() >= 2,
        p[0] == '*',
        p[p.len() - 1] == '*',
        quiet(before + s.skip(i), small, level),
    ensures
        quiet(before + replaced_from(s, p, seq!['*'], i), small, level),
    decreases s.len() - i,
{
    lemma_position_within(s, p, i);
    match position(s, p, i) {
        None => {},
        Some(q) => {
            let u = before + s.subrange(i, q);
            let rest = s.skip(q + p.len());
            assert(before + s.skip(i) =~= u + p + rest) by {
                assert(s.subrange(q, q + p.len()) == p);
                assert(s.skip(i) =~= s.subrange(i, q) + s.subrange(q, q + p.len()) + rest);
            }
            lemma_step(u, p, rest, small, level);
            lemma_replaced_quiet(u + seq!['*'], s, p, q + p.len(), small, level);
            let after = replaced_from(s, p, seq!['*'], q + p.len());
            assert(before + (s.subrange(i, q) + seq!['*'] + after) =~= u + seq!['*'] + after);
        },
    }
}

proof fn lemma_collapsed_quiet(s: Seq<char>, p: Seq<char>, small: bool, level: int)
    requires
        p.len() >= 2,
        p[0] == '*',
        p[p.len() - 1] == '*',
        quiet(s, small, level),
    ensures
        quiet(collapsed(s, p), small, level),
        !holds(collapsed(s, p), p),
    decreases s.len(),
{
    reveal_strlit("*");
    assert("*"@ =~= seq!['*']);
    if holds(s, p) {
        lemma_held_somewhere(s, p);
        lemma_replaced_length(s, p, "*"@, 0);
        let none = Seq::<char>::empty();
        assert(none + s.skip(0) =~= s);
        lemma_replaced_quiet(none, s, p, 0, small, level);
        assert(none + replaced(s, p, "*"@) =~= replaced(s, p, "*"@));
        lemma_collapsed_quiet(replaced(s, p, "*"@), p, small, level);
    }
}

proof fn lemma_not_between(s: Seq<char>, p: Seq<char>, c: char)
    requires
        p == seq!['*', c, '*'],
    ensures
        holds(s, p) == between_stars(s, c),
{
    if between_stars(s, c) {
        let i = choose|i: int| 0 <= i && i + 2 < s.len() && #[trigger] s[i] == '*' && s[i + 1] == c && s[i + 2] == '*';
        assert(s.subrange(i, i + 3) =~= p);
        assert(at(s, p, i));
    }
    if holds(s, p) {
        let i = choose|i: int| at(s, p, i);
        let r = s.subrange(i, i + 3);
        assert(r[0] == s[i] && r[1] == s[i + 1] && r[2] == s[i + 2]);
        assert(s[i] == '*');
    }
}

proof fn lemma_digits(s: Seq<char>, i: int)
    requires
        0 <= i <= s.len(),
    ensures
        i <= digits_from(s, i) <= s.len(),
        i < s.len() && is_digit(s[i]) ==> digits_from(s, i) > i,
        forall|k: int| i <= k < digits_from(s, i) ==> is_digit(#[trigger] s[k]),
        digits_from(s, i) < s.len() ==> !is_digit(s[digits_from(s, i)]),
    decreases s.len() - i,
{
    if i < s.len() && is_digit(s[i]) {
        lemma_digits(s, i + 1);
    }
}

/// What was made of a name so far, with the rest of the name behind it.
spec fn begun(s: Seq<char>, i: int, out: Seq<char>, small: bool) -> bool {
    let w = out + s.skip(i);
    &&& 0 <= i <= s.len()
    &&& i == 0 <==> out.len() == 0
    &&& i > 0 && !is_digit(s[i - 1]) ==> out.last() == s[i - 1]
    &&& i > 0 && is_digit(s[i - 1]) ==> i == s.len() || !is_digit(s[i])
    &&& forall|a: int, e: int| e <= out.len() ==> !#[trigger] bounded_run(w, a, e)
    &&& small ==> all_small(out)
}

proof fn lemma_starred_quiet(s: Seq<char>, i: int, out: Seq<char>, small: bool)
    requires
        begun(s, i, out, small),
        small ==> all_small(s),
    ensures
        no_bounded_run(starred(s, i, out)),
        small ==> all_small(starred(s, i, out)),
    decreases s.len() - i,
{
    let w = out + s.skip(i);
    let n = out.len() as int;
    if i == s.len() {
        assert(w =~= out);
        assert forall|a: int, e: int| !#[trigger] bounded_run(out, a, e) by {
            if bounded_run(out, a, e) {
                assert(bounded_run(w, a, e));
            }
        }
    } else if is_digit(s[i]) {
        lemma_digits(s, i);
        let end = digits_from(s, i);
        let run = s.subrange(i, end);
        let bounded = (i == 0 || separates(s[i - 1])) && (end == s.len() || separates(s[end]));
        assert(i > 0 ==> !is_digit(s[i - 1]) && out.last() == s[i - 1]);
        if !bounded {
            let next = out + run;
            assert(next + s.skip(end) =~= w);
            assert forall|a: int, e: int| e <= next.len() implies !#[trigger] bounded_run(w, a, e) by {
                if e > n && bounded_run(w, a, e) {
                    assert(forall|k: int| n <= k < w.len() ==> w[k] == s[k - n + i]);
                    if e < next.len() {
                        assert(is_digit(s[e - n + i]));
                        assert(separates(w[e]));
                    }
                    assert(e == next.len());
                    if a < n {
                        assert(is_digit(w[n - 1]));
                        assert(w[n - 1] == out.last());
                    } else if a > n {
                        assert(is_digit(s[a - 1 - n + i]));
                        assert(separates(w[a - 1]));
                    } else {
                        assert(n > 0 ==> w[n - 1] == out.last());
                        assert(e < w.len() ==> w[e] == s[end]);
                        assert(w.len() == n + s.len() - i);
                    }
                    assert(false);
                }
            }
            lemma_starred_quiet(s, end, next, small);
        } else {
            assert(separates('*') == false);
            assert(!(n > 0 && out.last() == '*'));
            let next = out.push('*');
            let v = next + s.skip(end);
            assert forall|a: int, e: int| e <= next.len() implies !#[trigger] bounded_run(v, a, e) by {
                if bounded_run(v, a, e) {
                    assert(v[n] == '*');
                    if e == n + 1 {
                        assert(is_digit(v[n]));
                    } else if e == n {
                        assert(separates(v[n]));
                    } else {
                        assert forall|k: int| a <= k < e implies is_digit(#[trigger] w[k]) by {
                            assert(w[k] == v[k]);
                        }
                        assert(w[e] == v[e]);
                        assert(a > 0 ==> w[a - 1] == v[a - 1]);
                        assert(bounded_run(w, a, e));
                    }
                    assert(false);
                }
            }
            lemma_starred_quiet(s, end, next, small);
        }
    } else {
        let next = out.push(s[i]);
        assert(next + s.skip(i + 1) =~= w);
        assert forall|a: int, e: int| e <= next.len() implies !#[trigger] bounded_run(w, a, e) by {
            if e == next.len() && bounded_run(w, a, e) {
                assert(w[n] == s[i]);
                assert(is_digit(w[n]));
            }
        }
        lemma_starred_quiet(s, i + 1, next, small);
    }
}

proof fn lemma_starred_same(s: Seq<char>, i: int, out: Seq<char>)
    requires
        0 <= i <= s.len(),
        no_bounded_run(s),
    ensures
        starred(s, i, out) == out + s.skip(i),
    decreases s.len() - i,
{
    if i == s.len() {
        assert(out + s.skip(i) =~= out);
    } else if is_digit(s[i]) {
        lemma_digits(s, i);
        let end = digits_from(s, i);
        assert(!bounded_run(s, i, end));
        let next = out + s.subrange(i, end);
        lemma_starred_same(s, end, next);
        assert(next + s.skip(end) =~= out + s.skip(i));
    } else {
        lemma_starred_same(s, i + 1, out.push(s[i]));
        assert(out.push(s[i]) + s.skip(i + 1) =~= out + s.skip(i));
    }
}

proof fn lemma_pattern_literals()
    ensures
        "*-*"@ == seq!['*', '-', '*'],
        "*_*"@ == seq!['*', '_', '*'],
        "* *"@ == seq!['*', ' ', '*'],
        "*.*"@ == seq!['*', '.', '*'],
        "**"@ == seq!['*', '*'],
{
    reveal_strlit("*-*");
    reveal_strlit("*_*");
    reveal_strlit("* *");
    reveal_strlit("*.*");
    reveal_strlit("**");
    assert("*-*"@ =~= seq!['*', '-', '*']);
    assert("*_*"@ =~= seq!['*', '_', '*']);
    assert("* *"@ =~= seq!['*', ' ', '*']);
    assert("*.*"@ =~= seq!['*', '.', '*']);
    assert("**"@ =~= seq!['*', '*']);
}

proof fn lemma_shape(filename: Seq<char>)
    ensures
        no_bounded_run(shape_of(filename)),
        vstd::utf8::is_ascii_chars(filename) ==> all_small(shape_of(filename)),
        !holds(shape_of(filename), "*-*"@),
        !holds(shape_of(filename), "*_*"@),
        !holds(shape_of(filename), "* *"@),
        !holds(shape_of(filename), "*.*"@),
        !holds(shape_of(filename), "**"@),
{
    let n = lowercase_of(filename);
    let small = vstd::utf8::is_ascii_chars(filename);
    if small {
        lemma_lowered_again(filename);
        assert forall|i: int| 0 <= i < n.len() implies '\0' <= #[trigger] n[i] <= '\u{7f}' && lower_char(n[i]) == n[i] by {
            lemma_lower_white(filename[i]);
        }
    }
    lemma_pattern_literals();
    let none = Seq::<char>::empty();
    assert(begun(n, 0, none, small)) by {
        assert forall|a: int, e: int| e <= 0 implies !#[trigger] bounded_run(none + n.skip(0), a, e) by {}
    }
    lemma_starred_quiet(n, 0, none, small);
    let s0 = starred(n, 0, none);
    lemma_collapsed_quiet(s0, "*-*"@, small, 0);
    let s1 = collapsed(s0, "*-*"@);
    lemma_not_between(s1, "*-*"@, '-');
    lemma_collapsed_quiet(s1, "*_*"@, small, 1);
    let s2 = collapsed(s1, "*_*"@);
    lemma_not_between(s2, "*_*"@, '_');
    lemma_collapsed_quiet(s2, "* *"@, small, 2);
    let s3 = collapsed(s2, "* *"@);
    lemma_not_between(s3, "* *"@, ' ');
    lemma_collapsed_quiet(s3, "*.*"@, small, 3);
    let s4 = collapsed(s3, "*.*"@);
    lemma_not_between(s4, "*.*"@, '.');
    lemma_collapsed_quiet(s4, "**"@, small, 4);
    let g = collapsed(s4, "**"@);
    lemma_not_between(g, "*-*"@, '-');
    lemma_not_between(g, "*_*"@, '_');
    lemma_not_between(g, "* *"@, ' ');
    lemma_not_between(g, "*.*"@, '.');
}

/// A shape has no two stars that nothing but one of the collapsed separators keeps apart, and every
/// run of digits left in it has a neighbour that is no separator.
pub proof fn law_shape_is_short(filename: Seq<char>)
    ensures
        !holds(shape_of(filename), "**"@),
        !holds(shape_of(filename), "*-*"@),
        !holds(shape_of(filename), "*_*"@),
        !holds(shape_of(filename), "* *"@),
        !holds(shape_of(filename), "*.*"@),
        no_bounded_run(shape_of(filename)),
{
    lemma_shape(filename);
}

/// The shape of an ASCII file name is in lower case.
pub proof fn law_shape_is_lower(filename: Seq<char>)
    requires
        vstd::utf8::is_ascii_chars(filename),
    ensures
        lowercase_of(shape_of(filename)) == shape_of(filename),
{
    lemma_shape(filename);
    let g = shape_of(filename);
    assert(vstd::utf8::is_ascii_chars(g));
    lemma_lowered_again(g);
    assert(lowered(g) =~= g);
}

/// A shape is its own shape: for an ASCII file name, and for any other whose shape is left by
/// lower-casing it once more.
pub proof fn law_shape_settles(filename: Seq<char>)
    requires
        vstd::utf8::is_ascii_chars(filename) || lowercase_of(shape_of(filename)) == shape_of(filename),
    ensures
        shape_of(shape_of(filename)) == shape_of(filename),
{
    let g = shape_of(filename);
    if vstd::utf8::is_ascii_chars(filename) {
        law_shape_is_lower(filename);
    }
    lemma_shape(filename);
    lemma_starred_same(g, 0, Seq::empty());
    assert(Seq::<char>::empty() + g.skip(0) =~= g);
}

/// What one import teaches holds of the same file again: a file name matches the glob that was made
/// of it, which `glob_match` lower-cases once more. It is for an ASCII file name, and for any other
/// whose shape is left by that.
pub proof fn law_glob_matches(filename: Seq<char>)
    requires
        vstd::utf8::is_ascii_chars(filename) || lowercase_of(shape_of(filename)) == shape_of(filename),
    ensures
        fits(lowercase_of(shape_of(filename)), lowercase_of(filename)),
{
    if vstd::utf8::is_ascii_chars(filename) {
        law_shape_is_lower(filename);
    }
    law_shape_fits(filename);
}

} // verus!
