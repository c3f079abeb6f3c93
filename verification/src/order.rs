//! Stable ordering of records by keys.

use vstd::prelude::*;

use crate::text::{is_less, lemma_text_order, text_less, texts};

verus! {

/// What records are ordered by: two numbers, then a text.
#[derive(Debug)]
pub struct Key {
    pub first: i128,
    pub second: i128,
    pub text: String,
}

pub open spec fn key_less(a: Key, b: Key) -> bool {
    a.first < b.first || (a.first == b.first && (a.second < b.second || (a.second == b.second && text_less(a.text@, b.text@))))
}

/// Whether `i` comes before `j`: by its key, or by its place where the keys are equal.
pub open spec fn comes_before(keys: Seq<Key>, i: int, j: int) -> bool {
    key_less(keys[i], keys[j]) || (!key_less(keys[j], keys[i]) && i < j)
}

/// Whether `order` holds each of the places below `n` once.
pub open spec fn is_permutation(order: Seq<usize>, n: nat) -> bool {
    &&& order.len() == n
    &&& forall|i: int| 0 <= i < order.len() ==> (#[trigger] order[i]) < n
    &&& forall|i: int, j: int| 0 <= i < j < order.len() ==> #[trigger] order[i] != #[trigger] order[j]
}

/// Whether `order` is the stable order of `keys`.
pub open spec fn stable(keys: Seq<Key>, order: Seq<usize>) -> bool {
    forall|i: int, j: int| 0 <= i < j < order.len() ==> comes_before(keys, #[trigger] order[i] as int, #[trigger] order[j] as int)
}

pub fn is_key_less(a: &Key, b: &Key) -> (r: bool)
    ensures
        r == key_less(*a, *b),
{
    a.first < b.first || (a.first == b.first && (a.second < b.second || (a.second == b.second && is_less(
        a.text.as_str(),
        b.text.as_str(),
    ))))
}

proof fn lemma_before_transitive(keys: Seq<Key>, i: int, j: int, k: int)
    requires
        comes_before(keys, i, j),
        comes_before(keys, j, k),
    ensures
        comes_before(keys, i, k),
{
    let (a, b, c) = (keys[i].text@, keys[j].text@, keys[k].text@);
    lemma_text_order(a, b, c);
    lemma_text_order(a, c, b);
    lemma_text_order(b, a, c);
    lemma_text_order(b, c, a);
    lemma_text_order(c, a, b);
    lemma_text_order(c, b, a);
}

proof fn lemma_before_total(keys: Seq<Key>, i: int, j: int)
    requires
        i != j,
    ensures
        comes_before(keys, i, j) || comes_before(keys, j, i),
{
    let (a, b) = (keys[i].text@, keys[j].text@);
    lemma_text_order(a, b, a);
    lemma_text_order(b, a, b);
}

/// The places of `keys` in their stable order.
pub fn stable_order(keys: &[Key]) -> (order: Vec<usize>)
    ensures
        is_permutation(order@, keys@.len()),
        stable(keys@, order@),
{
    let mut order: Vec<usize> = Vec::new();
    let mut n: usize = 0;
    while n < keys.len()
        invariant
            n <= keys.len(),
            is_permutation(order@, n as nat),
            stable(keys@, order@),
        decreases keys.len() - n,
    {
        let mut p: usize = order.len();
        while p > 0 && is_key_less(&keys[n], &keys[order[p - 1]])
            invariant
                p <= order.len() == n < keys.len(),
                is_permutation(order@, n as nat),
                stable(keys@, order@),
                forall|k: int| p <= k < order@.len() ==> comes_before(keys@, n as int, #[trigger] order@[k] as int),
            decreases p,
        {
            p = p - 1;
        }
        let ghost before = order@;
        proof {
            if p > 0 {
                lemma_before_total(keys@, order@[p - 1] as int, n as int);
                assert(comes_before(keys@, order@[p - 1] as int, n as int));
                assert forall|k: int| 0 <= k < p implies comes_before(keys@, #[trigger] order@[k] as int, n as int) by {
                    if k < p - 1 {
                        lemma_before_transitive(keys@, order@[k] as int, order@[p - 1] as int, n as int);
                    }
                }
            }
        }
        order.insert(p, n);
        proof {
            assert forall|i: int, j: int| 0 <= i < j < order@.len() implies #[trigger] order@[i] != #[trigger] order@[j] by {
                let a = if i < p {
                    i
                } else {
                    i - 1
                };
                let b = if j < p {
                    j
                } else {
                    j - 1
                };
                assert(i != p ==> order@[i] == before[a]);
                assert(j != p ==> order@[j] == before[b]);
            }
            assert forall|i: int, j: int| 0 <= i < j < order@.len() implies comes_before(
                keys@,
                #[trigger] order@[i] as int,
                #[trigger] order@[j] as int,
            ) by {
                let a = if i < p {
                    i
                } else {
                    i - 1
                };
                let b = if j < p {
                    j
                } else {
                    j - 1
                };
                if i == p {
                    assert(order@[j] == before[b]);
                } else if j == p {
                    assert(order@[i] == before[a]);
                } else {
                    assert(order@[i] == before[a] && order@[j] == before[b]);
                }
            }
            assert forall|i: int| 0 <= i < order@.len() implies (#[trigger] order@[i]) < n + 1 by {
                if i < p {
                    assert(order@[i] == before[i]);
                } else if i > p {
                    assert(order@[i] == before[i - 1]);
                }
            }
        }
        n = n + 1;
    }
    order
}

/// A sorted list of texts with one more in its place.
pub open spec fn placed(s: Seq<Seq<char>>, t: Seq<char>) -> Seq<Seq<char>>
    decreases s.len(),
{
    if s.len() > 0 && text_less(t, s.last()) {
        placed(s.drop_last(), t).push(s.last())
    } else {
        s.push(t)
    }
}

/// The texts in their order, character by character.
pub open spec fn sorted_texts(s: Seq<Seq<char>>) -> Seq<Seq<char>>
    decreases s.len(),
{
    if s.len() == 0 {
        s
    } else {
        placed(sorted_texts(s.drop_last()), s.last())
    }
}

proof fn lemma_placed(s: Seq<Seq<char>>, t: Seq<char>, p: int)
    requires
        0 <= p <= s.len(),
        forall|k: int| p <= k < s.len() ==> text_less(t, #[trigger] s[k]),
        p > 0 ==> !text_less(t, s[p - 1]),
    ensures
        placed(s, t) == s.insert(p, t),
    decreases s.len(),
{
    if p == s.len() {
        assert(s.insert(p, t) =~= s.push(t));
    } else {
        lemma_placed(s.drop_last(), t, p);
        assert(s.drop_last().insert(p, t).push(s.last()) =~= s.insert(p, t));
    }
}

proof fn lemma_placed_multiset(s: Seq<Seq<char>>, t: Seq<char>)
    ensures
        placed(s, t).to_multiset() == s.to_multiset().insert(t),
    decreases s.len(),
{
    broadcast use vstd::seq_lib::group_to_multiset_ensures;

    if s.len() > 0 && text_less(t, s.last()) {
        lemma_placed_multiset(s.drop_last(), t);
        assert(s.drop_last().push(s.last()) =~= s);
        assert(s.to_multiset() =~= s.drop_last().to_multiset().insert(s.last()));
        assert(placed(s, t).to_multiset() =~= s.to_multiset().insert(t));
    }
}

/// Sorting keeps the texts, each as often as it was there.
pub proof fn lemma_sorted_texts(s: Seq<Seq<char>>)
    ensures
        sorted_texts(s).to_multiset() == s.to_multiset(),
        sorted_texts(s).len() == s.len(),
    decreases s.len(),
{
    broadcast use vstd::seq_lib::group_to_multiset_ensures;

    if s.len() > 0 {
        lemma_sorted_texts(s.drop_last());
        lemma_placed_multiset(sorted_texts(s.drop_last()), s.last());
        assert(s.drop_last().push(s.last()) =~= s);
        assert(s.to_multiset() =~= s.drop_last().to_multiset().insert(s.last()));
        assert(sorted_texts(s).to_multiset().len() == s.to_multiset().len());
    }
}

pub fn sort_texts(v: &[String]) -> (r: Vec<String>)
    ensures
        texts(r@) == sorted_texts(texts(v@)),
{
    let mut r: Vec<String> = Vec::new();
    let mut i: usize = 0;
    assert(texts(r@) =~= sorted_texts(texts(v@.take(0))));
    while i < v.len()
        invariant
            i <= v.len(),
            texts(r@) == sorted_texts(texts(v@.take(i as int))),
        decreases v.len() - i,
    {
        let mut p: usize = r.len();
        while p > 0 && is_less(v[i].as_str(), r[p - 1].as_str())
            invariant
                p <= r.len(),
                i < v.len(),
                forall|k: int| p <= k < r@.len() ==> text_less(v@[i as int]@, #[trigger] r@[k]@),
            decreases p,
        {
            p = p - 1;
        }
        let ghost before = texts(r@);
        proof {
            assert forall|k: int| p <= k < before.len() implies text_less(v@[i as int]@, #[trigger] before[k]) by {
                assert(before[k] == r@[k]@);
            }
            lemma_placed(before, v@[i as int]@, p as int);
            let now = texts(v@.take(i + 1));
            assert(now.drop_last() =~= texts(v@.take(i as int)));
            assert(now.last() == v@[i as int]@);
        }
        r.insert(p, v[i].clone());
        assert(texts(r@) =~= before.insert(p as int, v@[i as int]@));
        i = i + 1;
    }
    assert(v@.take(i as int) == v@);
    r
}

/// A key as it is: two numbers and a text.
pub struct Rank {
    pub first: int,
    pub second: int,
    pub text: Seq<char>,
}

impl View for Key {
    type V = Rank;

    open spec fn view(&self) -> Rank {
        Rank { first: self.first as int, second: self.second as int, text: self.text@ }
    }
}

pub open spec fn rank_less(a: Rank, b: Rank) -> bool {
    a.first < b.first || (a.first == b.first && (a.second < b.second || (a.second == b.second && text_less(a.text, b.text))))
}

pub open spec fn ranks(keys: Seq<Key>) -> Seq<Rank> {
    keys.map_values(|k: Key| k@)
}

/// Ordered places with the place `i` where it belongs: after all that do not come later.
pub open spec fn placed_at(rs: Seq<Rank>, s: Seq<int>, i: int) -> Seq<int>
    decreases s.len(),
{
    if s.len() > 0 && rank_less(rs[i], rs[s.last()]) {
        placed_at(rs, s.drop_last(), i).push(s.last())
    } else {
        s.push(i)
    }
}

/// The first `n` places in the order of their ranks; those of one rank keep their order.
pub open spec fn places_up_to(rs: Seq<Rank>, n: nat) -> Seq<int>
    decreases n,
{
    if n == 0 {
        Seq::empty()
    } else {
        placed_at(rs, places_up_to(rs, (n - 1) as nat), n - 1)
    }
}

/// All places in the order of their ranks.
pub open spec fn sorted_places(rs: Seq<Rank>) -> Seq<int> {
    places_up_to(rs, rs.len())
}

proof fn lemma_placed_at(rs: Seq<Rank>, s: Seq<int>, i: int, p: int)
    requires
        0 <= p <= s.len(),
        forall|k: int| p <= k < s.len() ==> rank_less(rs[i], rs[#[trigger] s[k]]),
        p > 0 ==> !rank_less(rs[i], rs[s[p - 1]]),
    ensures
        placed_at(rs, s, i) == s.insert(p, i),
    decreases s.len(),
{
    if p == s.len() {
        assert(s.insert(p, i) =~= s.push(i));
    } else {
        assert(rank_less(rs[i], rs[s[s.len() - 1]]));
        lemma_placed_at(rs, s.drop_last(), i, p);
        assert(s.drop_last().insert(p, i).push(s.last()) =~= s.insert(p, i));
    }
}

proof fn lemma_placed_among(rs: Seq<Rank>, s: Seq<int>, i: int, n: int)
    requires
        0 <= i < n,
        forall|k: int| 0 <= k < s.len() ==> 0 <= #[trigger] s[k] < n,
    ensures
        placed_at(rs, s, i).len() == s.len() + 1,
        forall|k: int| 0 <= k < placed_at(rs, s, i).len() ==> 0 <= #[trigger] placed_at(rs, s, i)[k] < n,
    decreases s.len(),
{
    if s.len() > 0 && rank_less(rs[i], rs[s.last()]) {
        assert(0 <= s[s.len() - 1] < n);
        lemma_placed_among(rs, s.drop_last(), i, n);
    }
}

pub proof fn lemma_places(rs: Seq<Rank>, n: nat)
    requires
        n <= rs.len(),
    ensures
        places_up_to(rs, n).len() == n,
        forall|k: int| 0 <= k < n ==> 0 <= #[trigger] places_up_to(rs, n)[k] < n,
    decreases n,
{
    if n > 0 {
        lemma_places(rs, (n - 1) as nat);
        lemma_placed_among(rs, places_up_to(rs, (n - 1) as nat), n - 1, n as int);
    }
}

pub open spec fn as_ints(v: Seq<usize>) -> Seq<int> {
    v.map_values(|i: usize| i as int)
}

/// The places of keys in the order of the keys; those with one key keep their order.
pub fn sorted(keys: &[Key]) -> (r: Vec<usize>)
    ensures
        as_ints(r@) == sorted_places(ranks(keys@)),
        r@.len() == keys@.len(),
        forall|k: int| 0 <= k < r@.len() ==> (#[trigger] r@[k]) < keys@.len(),
{
    let ghost rs = ranks(keys@);
    let mut r: Vec<usize> = Vec::new();
    let mut n: usize = 0;
    assert(as_ints(r@) =~= places_up_to(rs, 0));
    while n < keys.len()
        invariant
            n <= keys.len(),
            rs == ranks(keys@),
            as_ints(r@) == places_up_to(rs, n as nat),
            r@.len() == n,
            forall|k: int| 0 <= k < r@.len() ==> (#[trigger] r@[k]) < n,
        decreases keys.len() - n,
    {
        let mut p: usize = r.len();
        while p > 0 && is_key_less(&keys[n], &keys[r[p - 1]])
            invariant
                p <= r.len(),
                n < keys.len(),
                rs == ranks(keys@),
                forall|k: int| 0 <= k < r@.len() ==> (#[trigger] r@[k]) < n,
                forall|k: int| p <= k < r@.len() ==> rank_less(rs[n as int], rs[#[trigger] r@[k] as int]),
            decreases p,
        {
            p = p - 1;
        }
        let ghost before = as_ints(r@);
        proof {
            assert forall|k: int| p <= k < before.len() implies rank_less(rs[n as int], rs[#[trigger] before[k]]) by {
                assert(before[k] == r@[k] as int);
            }
            if p > 0 {
                assert(before[p - 1] == r@[p - 1] as int);
            }
            lemma_placed_at(rs, before, n as int, p as int);
            lemma_places(rs, (n + 1) as nat);
        }
        let ghost old_r = r@;
        r.insert(p, n);
        proof {
            assert(as_ints(r@) =~= before.insert(p as int, n as int));
            assert forall|k: int| 0 <= k < r@.len() implies (#[trigger] r@[k]) < n + 1 by {
                if k < p {
                    assert(r@[k] == old_r[k]);
                } else if k > p {
                    assert(r@[k] == old_r[k - 1]);
                }
            }
        }
        n = n + 1;
    }
    r
}

/// Whether the place `i` comes before the place `j`: by its rank, or by where it stands where the
/// ranks are one.
pub open spec fn ranked_before(rs: Seq<Rank>, i: int, j: int) -> bool {
    rank_less(rs[i], rs[j]) || (!rank_less(rs[j], rs[i]) && i < j)
}

/// Whether places are in the order of their ranks.
pub open spec fn in_order(rs: Seq<Rank>, s: Seq<int>) -> bool {
    forall|i: int, j: int| 0 <= i < j < s.len() ==> ranked_before(rs, #[trigger] s[i], #[trigger] s[j])
}

pub proof fn lemma_rank_order(a: Rank, b: Rank, c: Rank)
    ensures
        rank_less(a, b) && !rank_less(c, b) ==> rank_less(a, c),
        rank_less(a, b) ==> !rank_less(b, a),
{
    lemma_text_order(a.text, b.text, c.text);
    lemma_text_order(a.text, c.text, b.text);
    lemma_text_order(c.text, b.text, a.text);
    lemma_text_order(b.text, c.text, a.text);
}

proof fn lemma_placed_in_order(rs: Seq<Rank>, s: Seq<int>, i: int)
    requires
        in_order(rs, s),
        forall|k: int| 0 <= k < s.len() ==> #[trigger] s[k] < i,
    ensures
        in_order(rs, placed_at(rs, s, i)),
        placed_at(rs, s, i).len() == s.len() + 1,
        forall|k: int| 0 <= k < placed_at(rs, s, i).len() ==> #[trigger] placed_at(rs, s, i)[k] == i || s.contains(placed_at(rs, s, i)[k]),
        placed_at(rs, s, i).contains(i),
        forall|x: int| s.contains(x) ==> placed_at(rs, s, i).contains(x),
    decreases s.len(),
{
    let t = placed_at(rs, s, i);
    if s.len() > 0 && rank_less(rs[i], rs[s.last()]) {
        let rest = s.drop_last();
        lemma_placed_in_order(rs, rest, i);
        let u = placed_at(rs, rest, i);
        assert(t == u.push(s.last()));
        assert forall|j: int, k: int| 0 <= j < k < t.len() implies ranked_before(rs, #[trigger] t[j], #[trigger] t[k]) by {
            if k == u.len() {
                assert(t[k] == s.last());
                assert(u[j] == i || rest.contains(u[j]));
                if u[j] != i {
                    let m = choose|m: int| 0 <= m < rest.len() && rest[m] == u[j];
                    assert(ranked_before(rs, s[m], s[s.len() - 1]));
                }
            } else {
                assert(ranked_before(rs, u[j], u[k]));
            }
        }
        assert forall|k: int| 0 <= k < t.len() implies #[trigger] t[k] == i || s.contains(t[k]) by {
            if k < u.len() {
                assert(u[k] == i || rest.contains(u[k]));
                if u[k] != i {
                    let m = choose|m: int| 0 <= m < rest.len() && rest[m] == u[k];
                    assert(s[m] == t[k]);
                }
            } else {
                assert(s[s.len() - 1] == t[k]);
            }
        }
        let at = choose|m: int| 0 <= m < u.len() && u[m] == i;
        assert(t[at] == i);
        assert forall|x: int| s.contains(x) implies t.contains(x) by {
            let m = choose|m: int| 0 <= m < s.len() && s[m] == x;
            if m < rest.len() {
                assert(rest[m] == x);
                assert(rest.contains(x));
                assert(u.contains(x));
                let q = choose|q: int| 0 <= q < u.len() && u[q] == x;
                assert(t[q] == x);
            } else {
                assert(t[u.len() as int] == x);
            }
        }
    } else {
        assert(t == s.push(i));
        assert(t[s.len() as int] == i);
        assert forall|j: int, k: int| 0 <= j < k < t.len() implies ranked_before(rs, #[trigger] t[j], #[trigger] t[k]) by {
            if k == s.len() {
                assert(s[j] < i);
                if j < s.len() - 1 {
                    assert(ranked_before(rs, s[j], s[s.len() - 1]));
                    lemma_rank_order(rs[i], rs[s[j]], rs[s.last()]);
                    lemma_rank_order(rs[s[j]], rs[s.last()], rs[i]);
                }
            } else {
                assert(ranked_before(rs, s[j], s[k]));
            }
        }
        assert forall|k: int| 0 <= k < t.len() implies #[trigger] t[k] == i || s.contains(t[k]) by {
            if k < s.len() {
                assert(s[k] == t[k]);
            }
        }
        assert forall|x: int| s.contains(x) implies t.contains(x) by {
            let m = choose|m: int| 0 <= m < s.len() && s[m] == x;
            assert(t[m] == x);
        }
    }
}

proof fn lemma_places_in_order(rs: Seq<Rank>, n: nat)
    requires
        n <= rs.len(),
    ensures
        in_order(rs, places_up_to(rs, n)),
        forall|k: int| 0 <= k < n ==> places_up_to(rs, n).contains(k),
    decreases n,
{
    if n > 0 {
        let before = places_up_to(rs, (n - 1) as nat);
        lemma_places_in_order(rs, (n - 1) as nat);
        lemma_places(rs, (n - 1) as nat);
        lemma_placed_in_order(rs, before, n - 1);
        assert forall|k: int| 0 <= k < n implies places_up_to(rs, n).contains(k) by {
            if k < n - 1 {
                assert(before.contains(k));
            }
        }
    }
}

/// What is sorted holds every place once, and in the order of the ranks; places of one rank keep
/// their order.
pub proof fn law_sorted(rs: Seq<Rank>)
    ensures
        sorted_places(rs).len() == rs.len(),
        forall|k: int| 0 <= k < rs.len() ==> 0 <= #[trigger] sorted_places(rs)[k] < rs.len(),
        forall|k: int| 0 <= k < rs.len() ==> sorted_places(rs).contains(k),
        forall|i: int, j: int| 0 <= i < j < rs.len() ==> #[trigger] sorted_places(rs)[i] != #[trigger] sorted_places(rs)[j],
        in_order(rs, sorted_places(rs)),
{
    lemma_places(rs, rs.len());
    lemma_places_in_order(rs, rs.len());
    let s = sorted_places(rs);
    assert forall|i: int, j: int| 0 <= i < j < rs.len() implies #[trigger] s[i] != #[trigger] s[j] by {
        assert(ranked_before(rs, s[i], s[j]));
        lemma_rank_order(rs[s[i]], rs[s[j]], rs[s[i]]);
    }
}

} // verus!
