use vstd::prelude::*;
use crate::common::text::{chars_of, chars_eq};

verus! {

/// Lexicographic order on character sequences (the order of `String`s).
pub open spec fn seq_lt(a: Seq<char>, b: Seq<char>) -> bool
    decreases a.len(),
{
    if a.len() == 0 {
        b.len() > 0
    } else if b.len() == 0 {
        false
    } else if a[0] != b[0] {
        (a[0] as u32) < (b[0] as u32)
    } else {
        seq_lt(a.drop_first(), b.drop_first())
    }
}

pub proof fn lemma_lt_irreflexive(a: Seq<char>)
    ensures
        !seq_lt(a, a),
    decreases a.len(),
{
    if a.len() > 0 {
        lemma_lt_irreflexive(a.drop_first());
    }
}

pub proof fn lemma_lt_total(a: Seq<char>, b: Seq<char>)
    ensures
        a == b || seq_lt(a, b) || seq_lt(b, a),
        !(seq_lt(a, b) && seq_lt(b, a)),
    decreases a.len(),
{
    if a.len() > 0 && b.len() > 0 {
        vstd::utf8::char_u32_cast(a[0], a[0] as u32);
        vstd::utf8::char_u32_cast(b[0], b[0] as u32);
        if a[0] == b[0] {
            lemma_lt_total(a.drop_first(), b.drop_first());
            if a.drop_first() == b.drop_first() {
                assert(a =~= seq![a[0]] + a.drop_first());
                assert(b =~= seq![b[0]] + b.drop_first());
            }
        }
    } else if a.len() == 0 && b.len() == 0 {
        assert(a =~= b);
    }
}

pub proof fn lemma_lt_transitive(a: Seq<char>, b: Seq<char>, c: Seq<char>)
    requires
        seq_lt(a, b),
        seq_lt(b, c),
    ensures
        seq_lt(a, c),
    decreases a.len(),
{
    if a.len() > 0 && b.len() > 0 && c.len() > 0 {
        if a[0] == b[0] && b[0] == c[0] {
            lemma_lt_transitive(a.drop_first(), b.drop_first(), c.drop_first());
        }
    }
}

/// `a < b` for strings, by character.
pub fn chars_lt(a: &[char], b: &[char]) -> (r: bool)
    ensures
        r == seq_lt(a@, b@),
{
    let mut i: usize = 0;
    assert(a@.skip(0) =~= a@);
    assert(b@.skip(0) =~= b@);
    while i < a.len() && i < b.len() && a[i] == b[i]
        invariant
            i <= a@.len(),
            i <= b@.len(),
            seq_lt(a@, b@) == seq_lt(a@.skip(i as int), b@.skip(i as int)),
        decreases a@.len() - i,
    {
        assert(a@.skip(i as int).drop_first() =~= a@.skip(i + 1));
        assert(b@.skip(i as int).drop_first() =~= b@.skip(i + 1));
        i = i + 1;
    }
    if i == a.len() {
        i < b.len()
    } else if i == b.len() {
        false
    } else {
        (a[i] as u32) < (b[i] as u32)
    }
}

/// The number of times `k` occurs in `items`.
pub open spec fn count_in(items: Seq<Seq<char>>, k: Seq<char>) -> nat
    decreases items.len(),
{
    if items.len() == 0 {
        0
    } else {
        count_in(items.drop_last(), k) + if items.last() == k {
            1nat
        } else {
            0nat
        }
    }
}

pub proof fn lemma_count_le_len(items: Seq<Seq<char>>, k: Seq<char>)
    ensures
        count_in(items, k) <= items.len(),
    decreases items.len(),
{
    if items.len() > 0 {
        lemma_count_le_len(items.drop_last(), k);
    }
}

/// Keys in strictly increasing order.
pub open spec fn keys_sorted(v: Seq<(Seq<char>, usize)>) -> bool {
    forall|i: int, j: int| 0 <= i < j < v.len() ==> seq_lt(#[trigger] v[i].0, #[trigger] v[j].0)
}

/// `v` is the counting map of `items`: sorted keys, each key with its number of
/// occurrences, and every key that occurs present.
pub open spec fn counts_of(v: Seq<(Seq<char>, usize)>, items: Seq<Seq<char>>) -> bool {
    &&& keys_sorted(v)
    &&& forall|j: int| 0 <= j < v.len() ==> (#[trigger] v[j]).1 == count_in(items, v[j].0)
    &&& forall|j: int| 0 <= j < v.len() ==> count_in(items, (#[trigger] v[j]).0) > 0
    &&& forall|k: Seq<char>|
        count_in(items, k) > 0 ==> exists|j: int| 0 <= j < v.len() && (#[trigger] v[j]).0 == k
}

pub open spec fn map_view(v: Seq<(String, usize)>) -> Seq<(Seq<char>, usize)> {
    v.map_values(|e: (String, usize)| (e.0@, e.1))
}

fn entry_lt(map: &Vec<(String, usize)>, i: usize, kc: &Vec<char>) -> (r: bool)
    requires
        i < map@.len(),
    ensures
        r == seq_lt(map@[i as int].0@, kc@),
{
    let ec = chars_of(map[i].0.as_str());
    chars_lt(ec.as_slice(), kc.as_slice())
}

/// Counts one more occurrence of `key`.
pub fn bump_count(map: &mut Vec<(String, usize)>, key: String, items: Ghost<Seq<Seq<char>>>)
    requires
        counts_of(map_view(old(map)@), items@),
        items@.len() < usize::MAX,
    ensures
        counts_of(map_view(final(map)@), items@.push(key@)),
{
    let ghost v = map_view(map@);
    let ghost items2 = items@.push(key@);
    assert(items2.drop_last() =~= items@);
    assert forall|k: Seq<char>| #[trigger] count_in(items2, k) == count_in(items@, k) + if k == key@ {
        1nat
    } else {
        0nat
    } by {}
    let kc = chars_of(key.as_str());
    let n = map.len();
    let mut i: usize = 0;
    while i < n && entry_lt(map, i, &kc)
        invariant
            n == map@.len(),
            v == map_view(map@),
            kc@ == key@,
            i <= n,
            forall|j: int| 0 <= j < i ==> seq_lt(#[trigger] v[j].0, key@),
        decreases n - i,
    {
        i = i + 1;
    }
    proof {
        lemma_count_le_len(items@, key@);
    }
    if i < n {
        let ec = chars_of(map[i].0.as_str());
        if chars_eq(ec.as_slice(), kc.as_slice()) {
            let c = map[i].1;
            assert(c == v[i as int].1);
            assert(v[i as int].0 == key@);
            let name = map[i].0.clone();
            map.set(i, (name, c + 1));
            proof {
                let w = map_view(map@);
                assert(w =~= v.update(i as int, (key@, (c + 1) as usize)));
                assert forall|j: int| 0 <= j < w.len() && j != i implies (#[trigger] w[j]).0 != key@ by {
                    lemma_lt_irreflexive(key@);
                    if j < i {
                        assert(seq_lt(v[j].0, v[i as int].0));
                    } else {
                        assert(seq_lt(v[i as int].0, v[j].0));
                    }
                }
                assert forall|k: Seq<char>| count_in(items2, k) > 0 implies exists|j: int|
                    0 <= j < w.len() && (#[trigger] w[j]).0 == k by {
                    if k == key@ {
                        assert(w[i as int].0 == k);
                    } else {
                        let j = choose|j: int| 0 <= j < v.len() && (#[trigger] v[j]).0 == k;
                        assert(w[j].0 == k);
                    }
                }
                assert(counts_of(w, items2));
            }
            return;
        }
    }
    proof {
        lemma_lt_irreflexive(key@);
        if i < n {
            lemma_lt_total(v[i as int].0, key@);
        }
    }
    map.insert(i, (key, 1));
    proof {
        let w = map_view(map@);
        let e = (key@, 1usize);
        assert(w =~= v.insert(i as int, e));
        assert(count_in(items@, key@) == 0) by {
            if count_in(items@, key@) > 0 {
                let j = choose|j: int| 0 <= j < v.len() && (#[trigger] v[j]).0 == key@;
                if j < i {
                    assert(seq_lt(v[j].0, key@));
                } else {
                    assert(i < n);
                    if j > i {
                        assert(seq_lt(v[i as int].0, v[j].0));
                        lemma_lt_transitive(key@, v[i as int].0, v[j].0);
                    }
                }
            }
        }
        assert forall|a: int, b: int| 0 <= a < b < w.len() implies seq_lt(
            #[trigger] w[a].0,
            #[trigger] w[b].0,
        ) by {
            if b < i {
                assert(w[a] == v[a] && w[b] == v[b]);
            } else if b == i {
                assert(w[a] == v[a]);
            } else if a == i {
                assert(w[b] == v[b - 1]);
                if b - 1 > i {
                    assert(seq_lt(v[i as int].0, v[b - 1].0));
                    lemma_lt_transitive(key@, v[i as int].0, v[b - 1].0);
                }
            } else if a < i {
                assert(w[a] == v[a] && w[b] == v[b - 1]);
            } else {
                assert(w[a] == v[a - 1] && w[b] == v[b - 1]);
            }
        }
        assert forall|j: int| 0 <= j < w.len() implies (#[trigger] w[j]).1 == count_in(items2, w[j].0)
            && count_in(items2, w[j].0) > 0 by {
            if j < i {
                assert(w[j] == v[j]);
                assert(v[j].0 != key@);
            } else if j > i {
                assert(w[j] == v[j - 1]);
                assert(v[j - 1].0 != key@) by {
                    if v[j - 1].0 == key@ {
                        assert(count_in(items@, v[j - 1].0) > 0);
                    }
                }
            }
        }
        assert forall|k: Seq<char>| count_in(items2, k) > 0 implies exists|j: int|
            0 <= j < w.len() && (#[trigger] w[j]).0 == k by {
            if k == key@ {
                assert(w[i as int].0 == k);
            } else {
                let j = choose|j: int| 0 <= j < v.len() && (#[trigger] v[j]).0 == k;
                if j < i {
                    assert(w[j].0 == k);
                } else {
                    assert(w[j + 1].0 == k);
                }
            }
        }
    }
}

/// The sum of the counts.
pub open spec fn total_count(v: Seq<(Seq<char>, usize)>) -> nat
    decreases v.len(),
{
    if v.len() == 0 {
        0
    } else {
        total_count(v.drop_last()) + v.last().1 as nat
    }
}

/// How many of the keys equal `x`.
spec fn hits(ks: Seq<Seq<char>>, x: Seq<char>) -> nat
    decreases ks.len(),
{
    if ks.len() == 0 {
        0
    } else {
        hits(ks.drop_last(), x) + if ks.last() == x {
            1nat
        } else {
            0nat
        }
    }
}

/// The occurrences in `items` of each key, summed.
spec fn sum_counts(items: Seq<Seq<char>>, ks: Seq<Seq<char>>) -> nat
    decreases ks.len(),
{
    if ks.len() == 0 {
        0
    } else {
        sum_counts(items, ks.drop_last()) + count_in(items, ks.last())
    }
}

spec fn distinct_keys(ks: Seq<Seq<char>>) -> bool {
    forall|i: int, j: int| 0 <= i < j < ks.len() ==> #[trigger] ks[i] != #[trigger] ks[j]
}

proof fn lemma_hits(ks: Seq<Seq<char>>, x: Seq<char>)
    requires
        distinct_keys(ks),
    ensures
        hits(ks, x) == if ks.contains(x) {
            1nat
        } else {
            0nat
        },
    decreases ks.len(),
{
    if ks.len() > 0 {
        let t = ks.drop_last();
        assert(distinct_keys(t)) by {
            assert forall|i: int, j: int| 0 <= i < j < t.len() implies #[trigger] t[i] != #[trigger] t[j] by {
                assert(t[i] == ks[i] && t[j] == ks[j]);
            }
        }
        lemma_hits(t, x);
        if ks.last() == x {
            if t.contains(x) {
                let k = choose|k: int| 0 <= k < t.len() && t[k] == x;
                assert(ks[k] == ks[ks.len() - 1]);
            }
            assert(ks[ks.len() - 1] == x);
        } else {
            if ks.contains(x) {
                let k = choose|k: int| 0 <= k < ks.len() && ks[k] == x;
                assert(k < ks.len() - 1);
                assert(t[k] == x);
            }
            if t.contains(x) {
                let k = choose|k: int| 0 <= k < t.len() && t[k] == x;
                assert(ks[k] == x);
            }
        }
    }
}

proof fn lemma_sum_counts_step(items: Seq<Seq<char>>, ks: Seq<Seq<char>>)
    requires
        items.len() > 0,
    ensures
        sum_counts(items, ks) == sum_counts(items.drop_last(), ks) + hits(ks, items.last()),
    decreases ks.len(),
{
    if ks.len() > 0 {
        lemma_sum_counts_step(items, ks.drop_last());
    }
}

proof fn lemma_sum_counts_total(items: Seq<Seq<char>>, ks: Seq<Seq<char>>)
    requires
        distinct_keys(ks),
        forall|i: int| 0 <= i < items.len() ==> ks.contains(#[trigger] items[i]),
    ensures
        sum_counts(items, ks) == items.len(),
    decreases items.len(),
{
    if items.len() == 0 {
        lemma_sum_counts_empty(items, ks);
    } else {
        let t = items.drop_last();
        assert forall|i: int| 0 <= i < t.len() implies ks.contains(#[trigger] t[i]) by {
            assert(t[i] == items[i]);
        }
        lemma_sum_counts_total(t, ks);
        lemma_sum_counts_step(items, ks);
        assert(ks.contains(items[items.len() - 1]));
        lemma_hits(ks, items.last());
    }
}

proof fn lemma_sum_counts_empty(items: Seq<Seq<char>>, ks: Seq<Seq<char>>)
    requires
        items.len() == 0,
    ensures
        sum_counts(items, ks) == 0,
    decreases ks.len(),
{
    if ks.len() > 0 {
        lemma_sum_counts_empty(items, ks.drop_last());
    }
}

proof fn lemma_total_is_sum(v: Seq<(Seq<char>, usize)>, items: Seq<Seq<char>>)
    requires
        forall|j: int| 0 <= j < v.len() ==> (#[trigger] v[j]).1 == count_in(items, v[j].0),
    ensures
        total_count(v) == sum_counts(items, v.map_values(|e: (Seq<char>, usize)| e.0)),
    decreases v.len(),
{
    if v.len() > 0 {
        let t = v.drop_last();
        assert forall|j: int| 0 <= j < t.len() implies (#[trigger] t[j]).1 == count_in(items, t[j].0) by {
            assert(t[j] == v[j]);
        }
        lemma_total_is_sum(t, items);
        let ks = v.map_values(|e: (Seq<char>, usize)| e.0);
        assert(ks.drop_last() =~= t.map_values(|e: (Seq<char>, usize)| e.0));
        assert(v[v.len() - 1] == v.last());
    }
}

/// A counting map counts every item once: its counts add up to the number of items.
pub proof fn law_counts_total(v: Seq<(Seq<char>, usize)>, items: Seq<Seq<char>>)
    requires
        counts_of(v, items),
    ensures
        total_count(v) == items.len(),
{
    let ks = v.map_values(|e: (Seq<char>, usize)| e.0);
    lemma_total_is_sum(v, items);
    assert(distinct_keys(ks)) by {
        assert forall|i: int, j: int| 0 <= i < j < ks.len() implies #[trigger] ks[i] != #[trigger] ks[j] by {
            assert(seq_lt(v[i].0, v[j].0));
            lemma_lt_irreflexive(v[i].0);
        }
    }
    assert forall|i: int| 0 <= i < items.len() implies ks.contains(#[trigger] items[i]) by {
        lemma_count_pos(items, i);
        let j = choose|j: int| 0 <= j < v.len() && (#[trigger] v[j]).0 == items[i];
        assert(ks[j] == items[i]);
    }
    lemma_sum_counts_total(items, ks);
}

proof fn lemma_count_pos(items: Seq<Seq<char>>, i: int)
    requires
        0 <= i < items.len(),
    ensures
        count_in(items, items[i]) > 0,
    decreases items.len(),
{
    if i < items.len() - 1 {
        lemma_count_pos(items.drop_last(), i);
        assert(items.drop_last()[i] == items[i]);
    }
}

} // verus!
