//! Orderings used by the reports: a stable descending order of positions by
//! key, and ascending sorting of latencies.

use vstd::prelude::*;

verus! {

/// `order` lists every position of `keys` exactly once.
pub open spec fn is_permutation_of_positions(order: Seq<usize>, n: nat) -> bool {
    &&& order.len() == n
    &&& forall|i: int| 0 <= i < order.len() ==> (#[trigger] order[i]) < n
    &&& forall|i: int, j: int| 0 <= i < j < order.len() ==> (#[trigger] order[i]) != (#[trigger] order[j])
    &&& forall|a: int| 0 <= a < n ==> #[trigger] order.contains(a as usize)
}

/// Keys along `order` never increase, and positions of equal keys keep their
/// original relative order.
pub open spec fn is_stable_descending(keys: Seq<i128>, order: Seq<usize>) -> bool {
    &&& forall|i: int, j: int|
        0 <= i < j < order.len() ==> keys[#[trigger] order[i] as int] >= keys[#[trigger] order[j] as int]
    &&& forall|i: int, j: int|
        0 <= i < j < order.len() && keys[order[i] as int] == keys[order[j] as int] ==> (#[trigger] order[i]) < (#[trigger] order[j])
}

/// The positions of `keys`, largest key first; equal keys in their original order.
pub fn stable_order_descending(keys: &Vec<i128>) -> (order: Vec<usize>)
    ensures
        is_permutation_of_positions(order@, keys@.len()),
        is_stable_descending(keys@, order@),
{
    let mut order: Vec<usize> = Vec::new();
    let mut k: usize = 0;
    while k < keys.len()
        invariant
            k <= keys.len(),
            is_permutation_of_positions(order@, k as nat),
            is_stable_descending(keys@, order@),
        decreases keys.len() - k,
    {
        let key = keys[k];
        let mut p: usize = 0;
        while p < order.len() && keys[order[p]] >= key
            invariant
                p <= order.len(),
                is_permutation_of_positions(order@, k as nat),
                k < keys.len(),
                key == keys@[k as int],
                forall|i: int| 0 <= i < p ==> keys@[#[trigger] order@[i] as int] >= key,
            decreases order.len() - p,
        {
            p = p + 1;
        }
        let ghost old_order = order@;
        order.insert(p, k);
        proof {
            let new_order = order@;
            assert(new_order == old_order.insert(p as int, k));
            old_order.insert_ensures(p as int, k);
            assert forall|i: int| 0 <= i < new_order.len() implies (#[trigger] new_order[i]) < k + 1 by {
                if i > p {
                    assert(new_order[i] == old_order[i - 1]);
                }
            }
            assert forall|i: int, j: int| 0 <= i < j < new_order.len() implies (#[trigger] new_order[i]) != (#[trigger] new_order[j]) by {
                if i < p && j > p {
                    assert(new_order[j] == old_order[j - 1]);
                } else if i > p {
                    assert(new_order[i] == old_order[i - 1]);
                    assert(new_order[j] == old_order[j - 1]);
                } else if j == p {
                    assert(new_order[i] == old_order[i]);
                } else if i == p {
                    assert(new_order[j] == old_order[j - 1]);
                }
            }
            assert forall|a: int| 0 <= a < k + 1 implies #[trigger] new_order.contains(a as usize) by {
                if a == k {
                    assert(new_order[p as int] == k);
                } else {
                    assert(old_order.contains(a as usize));
                    let j = choose|j: int| 0 <= j < old_order.len() && old_order[j] == a as usize;
                    if j < p {
                        assert(new_order[j] == a as usize);
                    } else {
                        assert(new_order[j + 1] == a as usize);
                    }
                }
            }
            assert forall|i: int, j: int| 0 <= i < j < new_order.len() implies keys@[#[trigger] new_order[i] as int]
                >= keys@[#[trigger] new_order[j] as int] by {
                if i < p && j > p {
                    assert(new_order[j] == old_order[j - 1]);
                    assert(keys@[old_order[i] as int] >= keys@[old_order[j - 1] as int]);
                } else if i > p {
                    assert(new_order[i] == old_order[i - 1]);
                    assert(new_order[j] == old_order[j - 1]);
                } else if i == p {
                    assert(new_order[j] == old_order[j - 1]);
                    assert(keys@[old_order[p as int] as int] < key);
                    if j - 1 > p {
                        assert(keys@[old_order[p as int] as int] >= keys@[old_order[j - 1] as int]);
                    }
                }
            }
            assert forall|i: int, j: int|
                0 <= i < j < new_order.len() && keys@[new_order[i] as int] == keys@[new_order[j] as int] implies (#[trigger] new_order[i])
                < (#[trigger] new_order[j]) by {
                if i < p && j > p {
                    assert(new_order[j] == old_order[j - 1]);
                    assert(keys@[old_order[i] as int] >= keys@[old_order[p as int] as int]);
                    if j - 1 > p {
                        assert(keys@[old_order[p as int] as int] >= keys@[old_order[j - 1] as int]);
                    }
                    assert(keys@[old_order[p as int] as int] < key);
                    assert(keys@[old_order[i] as int] >= key);
                } else if i > p {
                    assert(new_order[i] == old_order[i - 1]);
                    assert(new_order[j] == old_order[j - 1]);
                } else if i == p {
                    assert(new_order[j] == old_order[j - 1]);
                    assert(keys@[old_order[p as int] as int] < key);
                    if j - 1 > p {
                        assert(keys@[old_order[p as int] as int] >= keys@[old_order[j - 1] as int]);
                    }
                } else if j == p {
                    assert(new_order[i] == old_order[i]);
                }
            }
        }
        k = k + 1;
    }
    order
}

/// `s` never decreases.
pub open spec fn is_ascending(s: Seq<i64>) -> bool {
    forall|i: int, j: int| 0 <= i < j < s.len() ==> s[i] <= s[j]
}

/// The values of `v` in ascending order.
pub fn sort_ascending(v: &Vec<i64>) -> (r: Vec<i64>)
    ensures
        is_ascending(r@),
        r@.to_multiset() == v@.to_multiset(),
        r@.len() == v@.len(),
        forall|i: int, j: int| 0 <= i < j < r@.len() ==> r@[i] <= r@[j],
{
    let mut r: Vec<i64> = Vec::new();
    let mut k: usize = 0;
    proof {
        assert(v@.take(0) =~= Seq::<i64>::empty());
    }
    while k < v.len()
        invariant
            k <= v.len(),
            is_ascending(r@),
            r@.to_multiset() == v@.take(k as int).to_multiset(),
        decreases v.len() - k,
    {
        let x = v[k];
        let mut p: usize = 0;
        while p < r.len() && r[p] <= x
            invariant
                p <= r.len(),
                forall|i: int| 0 <= i < p ==> r@[i] <= x,
            decreases r.len() - p,
        {
            p = p + 1;
        }
        let ghost old_r = r@;
        r.insert(p, x);
        proof {
            old_r.insert_ensures(p as int, x);
            assert(r@ == old_r.insert(p as int, x));
            assert forall|i: int, j: int| 0 <= i < j < r@.len() implies r@[i] <= r@[j] by {
                if i < p && j > p {
                    assert(r@[j] == old_r[j - 1]);
                } else if i > p {
                    assert(r@[i] == old_r[i - 1]);
                    assert(r@[j] == old_r[j - 1]);
                } else if i == p {
                    assert(r@[j] == old_r[j - 1]);
                    assert(old_r[p as int] > x);
                }
            }
            let left = old_r.subrange(0, p as int);
            let right = old_r.subrange(p as int, old_r.len() as int);
            assert(old_r =~= left + right);
            assert(r@ =~= left.push(x) + right);
            vstd::seq_lib::lemma_multiset_commutative(left, right);
            vstd::seq_lib::lemma_multiset_commutative(left.push(x), right);
            left.to_multiset_ensures();
            assert(v@.take(k + 1) =~= v@.take(k as int).push(x));
            v@.take(k as int).to_multiset_ensures();
            assert(r@.to_multiset() =~= v@.take(k + 1).to_multiset());
        }
        k = k + 1;
    }
    proof {
        assert(v@.take(v@.len() as int) =~= v@);
        r@.to_multiset_ensures();
        v@.to_multiset_ensures();
    }
    r
}

/// `a` comes before `b` in lexicographic order of characters (by code
/// point), a proper prefix first. On UTF-8 text this is the order of `str`.
pub open spec fn text_less(a: Seq<char>, b: Seq<char>) -> bool
    decreases a.len(),
{
    if b.len() == 0 {
        false
    } else if a.len() == 0 {
        true
    } else if a[0] != b[0] {
        (a[0] as int) < (b[0] as int)
    } else {
        text_less(a.drop_first(), b.drop_first())
    }
}

/// After a common beginning, the text with the smaller character comes first,
/// whatever follows.
pub proof fn lemma_text_less_first_difference(common: Seq<char>, x: char, y: char, rest_a: Seq<char>, rest_b: Seq<char>)
    requires
        (x as int) < (y as int),
    ensures
        text_less(common + seq![x] + rest_a, common + seq![y] + rest_b),
    decreases common.len(),
{
    let a = common + seq![x] + rest_a;
    let b = common + seq![y] + rest_b;
    if common.len() == 0 {
        assert(a[0] == x && b[0] == y);
    } else {
        assert(a[0] == common[0] && b[0] == common[0]);
        assert(a.drop_first() =~= common.drop_first() + seq![x] + rest_a);
        assert(b.drop_first() =~= common.drop_first() + seq![y] + rest_b);
        lemma_text_less_first_difference(common.drop_first(), x, y, rest_a, rest_b);
    }
}

/// A text comes before every longer text that begins with it.
pub proof fn lemma_text_less_prefix(a: Seq<char>, rest: Seq<char>)
    requires
        rest.len() > 0,
    ensures
        text_less(a, a + rest),
    decreases a.len(),
{
    if a.len() > 0 {
        assert((a + rest)[0] == a[0]);
        assert((a + rest).drop_first() =~= a.drop_first() + rest);
        lemma_text_less_prefix(a.drop_first(), rest);
    }
}

/// No text comes before itself.
pub proof fn lemma_text_less_irreflexive(a: Seq<char>)
    ensures
        !text_less(a, a),
    decreases a.len(),
{
    if a.len() > 0 {
        lemma_text_less_irreflexive(a.drop_first());
    }
}

/// The order of texts is transitive.
pub proof fn lemma_text_less_transitive(a: Seq<char>, b: Seq<char>, c: Seq<char>)
    requires
        text_less(a, b),
        text_less(b, c),
    ensures
        text_less(a, c),
    decreases a.len(),
{
    if a.len() > 0 && a[0] == b[0] && b[0] == c[0] {
        lemma_text_less_transitive(a.drop_first(), b.drop_first(), c.drop_first());
    }
}

/// Of two different texts, one comes before the other.
pub proof fn lemma_text_less_total(a: Seq<char>, b: Seq<char>)
    requires
        a != b,
    ensures
        text_less(a, b) || text_less(b, a),
    decreases a.len(),
{
    if a.len() > 0 && b.len() > 0 && a[0] == b[0] {
        if a.drop_first() == b.drop_first() {
            assert(a =~= seq![a[0]] + a.drop_first());
            assert(b =~= seq![b[0]] + b.drop_first());
        }
        lemma_text_less_total(a.drop_first(), b.drop_first());
    } else if a.len() == 0 && b.len() == 0 {
        assert(a =~= b);
    } else if a.len() > 0 && b.len() > 0 {
        assert((a[0] as int) != (b[0] as int));
    }
}

/// The characters of a text.
fn chars_of(s: &str) -> (r: Vec<char>)
    ensures
        r@ == s@,
{
    let n = s.unicode_len();
    let mut r: Vec<char> = Vec::new();
    let mut i: usize = 0;
    while i < n
        invariant
            n == s@.len(),
            i <= n,
            r@ == s@.take(i as int),
        decreases n - i,
    {
        r.push(s.get_char(i));
        i = i + 1;
        assert(r@ =~= s@.take(i as int));
    }
    assert(s@.take(n as int) =~= s@);
    r
}

/// Whether `a` comes before `b`.
fn chars_less(a: &Vec<char>, b: &Vec<char>) -> (r: bool)
    ensures
        r == text_less(a@, b@),
{
    let mut i: usize = 0;
    assert(a@.skip(0) =~= a@);
    assert(b@.skip(0) =~= b@);
    while i < a.len() && i < b.len() && a[i] == b[i]
        invariant
            i <= a.len(),
            i <= b.len(),
            text_less(a@, b@) == text_less(a@.skip(i as int), b@.skip(i as int)),
        decreases a.len() - i,
    {
        assert(a@.skip(i as int).drop_first() =~= a@.skip(i + 1));
        assert(b@.skip(i as int).drop_first() =~= b@.skip(i + 1));
        i = i + 1;
    }
    if i == b.len() {
        false
    } else if i == a.len() {
        true
    } else {
        a[i] < b[i]
    }
}

/// `order` lists positions of `texts` in lexicographic order, positions of
/// equal texts in their original order.
pub open spec fn is_text_ascending(texts: Seq<Seq<char>>, order: Seq<usize>) -> bool {
    &&& forall|i: int, j: int| 0 <= i < j < order.len() ==> !text_less(texts[#[trigger] order[j] as int], texts[#[trigger] order[i] as int])
    &&& forall|i: int, j: int| 0 <= i < j < order.len() && texts[order[i] as int] == texts[order[j] as int] ==> (#[trigger] order[i]) < (#[trigger] order[j])
}

/// Views of texts.
pub open spec fn text_views(texts: Seq<String>) -> Seq<Seq<char>> {
    texts.map_values(|t: String| t@)
}

/// The positions of `texts` in lexicographic order.
pub fn order_by_text(texts: &Vec<String>) -> (order: Vec<usize>)
    ensures
        is_permutation_of_positions(order@, texts@.len()),
        is_text_ascending(text_views(texts@), order@),
{
    let ghost tv = text_views(texts@);
    let mut chars: Vec<Vec<char>> = Vec::new();
    let mut c: usize = 0;
    while c < texts.len()
        invariant
            c <= texts.len(),
            tv == text_views(texts@),
            chars@.len() == c,
            forall|x: int| 0 <= x < c ==> (#[trigger] chars@[x])@ == tv[x],
        decreases texts.len() - c,
    {
        chars.push(chars_of(texts[c].as_str()));
        c = c + 1;
    }
    let mut order: Vec<usize> = Vec::new();
    let mut k: usize = 0;
    while k < texts.len()
        invariant
            k <= texts.len(),
            tv == text_views(texts@),
            tv.len() == texts@.len(),
            chars@.len() == texts@.len(),
            forall|x: int| 0 <= x < texts@.len() ==> (#[trigger] chars@[x])@ == tv[x],
            is_permutation_of_positions(order@, k as nat),
            is_text_ascending(tv, order@),
        decreases texts.len() - k,
    {
        let mut p: usize = 0;
        while p < order.len() && !chars_less(&chars[k], &chars[order[p]])
            invariant
                p <= order.len(),
                k < texts.len(),
                chars@.len() == texts@.len(),
                forall|x: int| 0 <= x < texts@.len() ==> (#[trigger] chars@[x])@ == tv[x],
                is_permutation_of_positions(order@, k as nat),
                forall|i: int| 0 <= i < p ==> !text_less(tv[k as int], tv[#[trigger] order@[i] as int]),
            decreases order.len() - p,
        {
            p = p + 1;
        }
        let ghost old_order = order@;
        let ghost key = tv[k as int];
        order.insert(p, k);
        proof {
            let new_order = order@;
            assert(new_order == old_order.insert(p as int, k));
            old_order.insert_ensures(p as int, k);
            assert forall|i: int| 0 <= i < new_order.len() implies (#[trigger] new_order[i]) < k + 1 by {
                if i > p {
                    assert(new_order[i] == old_order[i - 1]);
                }
            }
            assert forall|i: int, j: int| 0 <= i < j < new_order.len() implies (#[trigger] new_order[i]) != (#[trigger] new_order[j]) by {
                if i < p && j > p {
                    assert(new_order[j] == old_order[j - 1]);
                } else if i > p {
                    assert(new_order[i] == old_order[i - 1]);
                    assert(new_order[j] == old_order[j - 1]);
                } else if j == p {
                    assert(new_order[i] == old_order[i]);
                } else if i == p {
                    assert(new_order[j] == old_order[j - 1]);
                }
            }
            assert forall|a: int| 0 <= a < k + 1 implies #[trigger] new_order.contains(a as usize) by {
                if a == k {
                    assert(new_order[p as int] == k);
                } else {
                    assert(old_order.contains(a as usize));
                    let j = choose|j: int| 0 <= j < old_order.len() && old_order[j] == a as usize;
                    if j < p {
                        assert(new_order[j] == a as usize);
                    } else {
                        assert(new_order[j + 1] == a as usize);
                    }
                }
            }
            // the element after the insertion point, if any, comes after `key`
            assert forall|j: int| p <= j < old_order.len() implies text_less(key, tv[#[trigger] old_order[j] as int]) by {
                assert(text_less(key, tv[old_order[p as int] as int]));
                if j > p {
                    let x = tv[old_order[p as int] as int];
                    let y = tv[old_order[j] as int];
                    assert(!text_less(y, x));
                    if x != y {
                        lemma_text_less_total(x, y);
                        lemma_text_less_transitive(key, x, y);
                    }
                }
            }
            assert forall|i: int, j: int| 0 <= i < j < new_order.len() implies !text_less(tv[#[trigger] new_order[j] as int], tv[#[trigger] new_order[i] as int]) by {
                if i < p && j > p {
                    assert(new_order[j] == old_order[j - 1]);
                } else if i > p {
                    assert(new_order[i] == old_order[i - 1]);
                    assert(new_order[j] == old_order[j - 1]);
                } else if i == p {
                    assert(new_order[j] == old_order[j - 1]);
                    let y = tv[old_order[j - 1] as int];
                    assert(text_less(key, y));
                    if text_less(y, key) {
                        lemma_text_less_transitive(key, y, key);
                        lemma_text_less_irreflexive(key);
                    }
                } else if j == p {
                    assert(new_order[i] == old_order[i]);
                }
            }
            assert forall|i: int, j: int|
                0 <= i < j < new_order.len() && tv[new_order[i] as int] == tv[new_order[j] as int] implies (#[trigger] new_order[i])
                < (#[trigger] new_order[j]) by {
                if i < p && j > p {
                    assert(new_order[j] == old_order[j - 1]);
                } else if i > p {
                    assert(new_order[i] == old_order[i - 1]);
                    assert(new_order[j] == old_order[j - 1]);
                } else if i == p {
                    assert(new_order[j] == old_order[j - 1]);
                    assert(text_less(key, tv[old_order[j - 1] as int]));
                    lemma_text_less_irreflexive(key);
                } else if j == p {
                    assert(new_order[i] == old_order[i]);
                }
            }
        }
        k = k + 1;
    }
    order
}

} // verus!
