//! Small association tables kept as vectors of pairs, keyed either by
//! identifier name or by grid position.  The pipeline's maps are built once,
//! in a deterministic order, and then only looked up; a vector of pairs with
//! a no-duplicate-keys invariant models them exactly.  All contracts speak
//! about the deep views of the tables: sequences of `(key, value)` pairs
//! over plain values.

use vstd::prelude::*;

use crate::ast::Identifier;
use vstd::pervasive::VecAdditionalExecFns;
use crate::pos::IndexPos;

verus! {

/// Whether a name-keyed table holds the key.
pub open spec fn nmap_contains<V>(s: Seq<(Seq<char>, V)>, key: Seq<char>) -> bool {
    exists|i: int| 0 <= i < s.len() && s[i].0 == key
}

/// The value stored under the key (meaningful when the key is present and
/// keys are free of duplicates).
pub open spec fn nmap_index<V>(s: Seq<(Seq<char>, V)>, key: Seq<char>) -> V {
    s[choose|i: int| 0 <= i < s.len() && s[i].0 == key].1
}

/// No two entries share a key.
pub open spec fn nmap_nodup<V>(s: Seq<(Seq<char>, V)>) -> bool {
    forall|i: int, j: int| 0 <= i < j < s.len() ==> s[i].0 != s[j].0
}

/// How many entries carry the key.
pub open spec fn nmap_count<V>(s: Seq<(Seq<char>, V)>, key: Seq<char>) -> int
    decreases s.len(),
{
    if s.len() == 0 {
        0
    } else {
        nmap_count(s.drop_last(), key) + if s.last().0 == key {
            1int
        } else {
            0int
        }
    }
}

/// The values stored under the key, in table order.
pub open spec fn nmap_values<V>(s: Seq<(Seq<char>, V)>, key: Seq<char>) -> Seq<V>
    decreases s.len(),
{
    if s.len() == 0 {
        Seq::empty()
    } else {
        let rest = nmap_values(s.drop_last(), key);
        if s.last().0 == key {
            rest.push(s.last().1)
        } else {
            rest
        }
    }
}

/// A key occurs at least once exactly when some entry carries it.
pub proof fn lemma_nmap_count_pos<V>(s: Seq<(Seq<char>, V)>, key: Seq<char>)
    ensures
        nmap_count(s, key) >= 1 <==> nmap_contains(s, key),
        nmap_count(s, key) >= 0,
    decreases s.len(),
{
    if s.len() > 0 {
        lemma_nmap_count_pos(s.drop_last(), key);
        if nmap_contains(s.drop_last(), key) {
            let i = choose|i: int| 0 <= i < s.drop_last().len() && s.drop_last()[i].0 == key;
            assert(s[i].0 == key);
        }
        if nmap_contains(s, key) && s.last().0 != key {
            let i = choose|i: int| 0 <= i < s.len() && s[i].0 == key;
            assert(s.drop_last()[i].0 == key);
        }
    }
}

/// Looks a key up in a name-keyed table.
pub fn id_map_get<'a, V: DeepView>(m: &'a Vec<(Identifier, V)>, key: &Identifier) -> (r: Option<
    &'a V,
>)
    requires
        nmap_nodup(m.deep_view()),
    ensures
        r is Some <==> nmap_contains(m.deep_view(), key@),
        r is Some ==> r->Some_0.deep_view() == nmap_index(m.deep_view(), key@),
{
    let ghost s = m.deep_view();
    let mut i: usize = 0;
    while i < m.len()
        invariant
            0 <= i <= s.len(),
            s == m.deep_view(),
            s.len() == m@.len(),
            nmap_nodup(s),
            forall|j: int| 0 <= j < i ==> s[j].0 != key@,
            forall|j: int|
                0 <= j < s.len() ==> s[j] == (m@[j].0@, #[trigger] m@[j].1.deep_view()),
        decreases s.len() - i,
    {
        if m[i].0.same_as(key) {
            assert(s[i as int].0 == key@);
            proof {
                let w = choose|k: int| 0 <= k < s.len() && s[k].0 == key@;
                assert(w == i);
            }
            return Some(&m[i].1);
        }
        i += 1;
    }
    None
}

/// Whether a name-keyed table holds the key (no uniqueness needed).
pub fn id_map_contains_key<V: DeepView>(m: &Vec<(Identifier, V)>, key: &Identifier) -> (r: bool)
    ensures
        r == nmap_contains(m.deep_view(), key@),
{
    let ghost s = m.deep_view();
    let mut i: usize = 0;
    while i < m.len()
        invariant
            0 <= i <= s.len(),
            s == m.deep_view(),
            s.len() == m@.len(),
            forall|j: int| 0 <= j < i ==> s[j].0 != key@,
            forall|j: int|
                0 <= j < s.len() ==> s[j] == (m@[j].0@, #[trigger] m@[j].1.deep_view()),
        decreases s.len() - i,
    {
        if m[i].0.same_as(key) {
            assert(s[i as int].0 == key@);
            return true;
        }
        i += 1;
    }
    false
}

/// Whether a position-keyed table holds the key.
pub open spec fn pmap_contains<V>(s: Seq<(IndexPos, V)>, key: IndexPos) -> bool {
    exists|i: int| 0 <= i < s.len() && s[i].0 == key
}

/// The value stored under the key (meaningful when the key is present and
/// keys are free of duplicates).
pub open spec fn pmap_index<V>(s: Seq<(IndexPos, V)>, key: IndexPos) -> V {
    s[choose|i: int| 0 <= i < s.len() && s[i].0 == key].1
}

/// No two entries share a key.
pub open spec fn pmap_nodup<V>(s: Seq<(IndexPos, V)>) -> bool {
    forall|i: int, j: int| 0 <= i < j < s.len() ==> s[i].0 != s[j].0
}

/// Looks a key up in a position-keyed table.
pub fn pos_map_get<'a, V: DeepView>(m: &'a Vec<(IndexPos, V)>, key: IndexPos) -> (r: Option<
    &'a V,
>)
    requires
        pmap_nodup(m.deep_view()),
    ensures
        r is Some <==> pmap_contains(m.deep_view(), key),
        r is Some ==> r->Some_0.deep_view() == pmap_index(m.deep_view(), key),
{
    let ghost s = m.deep_view();
    let mut i: usize = 0;
    while i < m.len()
        invariant
            0 <= i <= s.len(),
            s == m.deep_view(),
            s.len() == m@.len(),
            pmap_nodup(s),
            forall|j: int| 0 <= j < i ==> s[j].0 != key,
            forall|j: int|
                0 <= j < s.len() ==> s[j] == (m@[j].0, #[trigger] m@[j].1.deep_view()),
        decreases s.len() - i,
    {
        if m[i].0 == key {
            assert(s[i as int].0 == key);
            proof {
                let w = choose|k: int| 0 <= k < s.len() && s[k].0 == key;
                assert(w == i);
            }
            return Some(&m[i].1);
        }
        i += 1;
    }
    None
}

/// Effect of appending an entry on a name-keyed table.
pub proof fn lemma_nmap_push<V>(s: Seq<(Seq<char>, V)>, e: (Seq<char>, V))
    ensures
        forall|x: Seq<char>|
            nmap_contains(s.push(e), x) <==> nmap_contains(s, x) || x == e.0,
        nmap_nodup(s) && !nmap_contains(s, e.0) ==> nmap_nodup(s.push(e)),
        nmap_nodup(s) && !nmap_contains(s, e.0) ==> nmap_index(s.push(e), e.0) == e.1,
        nmap_nodup(s) ==> forall|x: Seq<char>|
            x != e.0 && nmap_contains(s, x) ==> nmap_index(s.push(e), x) == nmap_index(s, x),
{
    let t = s.push(e);
    assert(t[t.len() - 1] == e);
    assert(forall|i: int| 0 <= i < s.len() ==> t[i] == s[i]);
    assert forall|x: Seq<char>| nmap_contains(t, x) <==> nmap_contains(s, x) || x == e.0 by {
        if nmap_contains(t, x) {
            let i = choose|i: int| 0 <= i < t.len() && t[i].0 == x;
            if i < s.len() {
                assert(s[i].0 == x);
            }
        }
        if nmap_contains(s, x) {
            let i = choose|i: int| 0 <= i < s.len() && s[i].0 == x;
            assert(t[i].0 == x);
        }
    }
    if nmap_nodup(s) {
        if !nmap_contains(s, e.0) {
            assert forall|i: int, j: int| 0 <= i < j < t.len() implies t[i].0 != t[j].0 by {
                if j == t.len() - 1 {
                    if t[i].0 == e.0 {
                        assert(s[i].0 == e.0);
                    }
                }
            }
            let w = choose|i: int| 0 <= i < t.len() && t[i].0 == e.0;
            if w < s.len() {
                assert(s[w].0 == e.0);
            }
            assert(w == t.len() - 1);
        }
        assert forall|x: Seq<char>|
            x != e.0 && nmap_contains(s, x) implies nmap_index(t, x) == nmap_index(s, x) by {
            let i = choose|i: int| 0 <= i < s.len() && s[i].0 == x;
            let wt = choose|i: int| 0 <= i < t.len() && t[i].0 == x;
            assert(t[i].0 == x);
            if wt < s.len() {
                assert(s[wt].0 == x);
                assert(wt == i);
            } else {
                assert(t[wt].0 == e.0);
            }
        }
    }
}

/// Effect of appending an entry on a position-keyed table.
pub proof fn lemma_pmap_push<V>(s: Seq<(IndexPos, V)>, e: (IndexPos, V))
    ensures
        forall|x: IndexPos| pmap_contains(s.push(e), x) <==> pmap_contains(s, x) || x == e.0,
        pmap_nodup(s) && !pmap_contains(s, e.0) ==> pmap_nodup(s.push(e)),
        pmap_nodup(s) && !pmap_contains(s, e.0) ==> pmap_index(s.push(e), e.0) == e.1,
        pmap_nodup(s) ==> forall|x: IndexPos|
            x != e.0 && pmap_contains(s, x) ==> pmap_index(s.push(e), x) == pmap_index(s, x),
{
    let t = s.push(e);
    assert(t[t.len() - 1] == e);
    assert(forall|i: int| 0 <= i < s.len() ==> t[i] == s[i]);
    assert forall|x: IndexPos| pmap_contains(t, x) <==> pmap_contains(s, x) || x == e.0 by {
        if pmap_contains(t, x) {
            let i = choose|i: int| 0 <= i < t.len() && t[i].0 == x;
            if i < s.len() {
                assert(s[i].0 == x);
            }
        }
        if pmap_contains(s, x) {
            let i = choose|i: int| 0 <= i < s.len() && s[i].0 == x;
            assert(t[i].0 == x);
        }
    }
    if pmap_nodup(s) {
        if !pmap_contains(s, e.0) {
            assert forall|i: int, j: int| 0 <= i < j < t.len() implies t[i].0 != t[j].0 by {
                if j == t.len() - 1 {
                    if t[i].0 == e.0 {
                        assert(s[i].0 == e.0);
                    }
                }
            }
            let w = choose|i: int| 0 <= i < t.len() && t[i].0 == e.0;
            if w < s.len() {
                assert(s[w].0 == e.0);
            }
            assert(w == t.len() - 1);
        }
        assert forall|x: IndexPos|
            x != e.0 && pmap_contains(s, x) implies pmap_index(t, x) == pmap_index(s, x) by {
            let i = choose|i: int| 0 <= i < s.len() && s[i].0 == x;
            let wt = choose|i: int| 0 <= i < t.len() && t[i].0 == x;
            assert(t[i].0 == x);
            if wt < s.len() {
                assert(s[wt].0 == x);
                assert(wt == i);
            } else {
                assert(t[wt].0 == e.0);
            }
        }
    }
}

/// A key's stored values are as many as its occurrences.
pub proof fn lemma_nmap_values_len<V>(s: Seq<(Seq<char>, V)>, key: Seq<char>)
    ensures
        nmap_values(s, key).len() == nmap_count(s, key),
    decreases s.len(),
{
    if s.len() > 0 {
        lemma_nmap_values_len(s.drop_last(), key);
        lemma_nmap_count_pos(s.drop_last(), key);
    }
}

/// Two distinct entries with one key make its count at least two.
pub proof fn lemma_nmap_count_two<V>(s: Seq<(Seq<char>, V)>, key: Seq<char>, i: int, j: int)
    requires
        0 <= i < j < s.len(),
        s[i].0 == key,
        s[j].0 == key,
    ensures
        nmap_count(s, key) >= 2,
    decreases s.len(),
{
    lemma_nmap_count_pos(s.drop_last(), key);
    if j == s.len() - 1 {
        assert(s.drop_last()[i].0 == key);
    } else {
        assert(s.drop_last()[i].0 == key);
        assert(s.drop_last()[j].0 == key);
        lemma_nmap_count_two(s.drop_last(), key, i, j);
    }
}

/// In a duplicate-free table, the entry at an index owns its key.
pub proof fn lemma_nmap_index_at<V>(s: Seq<(Seq<char>, V)>, j: int)
    requires
        nmap_nodup(s),
        0 <= j < s.len(),
    ensures
        nmap_contains(s, s[j].0),
        nmap_index(s, s[j].0) == s[j].1,
{
    assert(s[j].0 == s[j].0);
    let w = choose|i: int| 0 <= i < s.len() && s[i].0 == s[j].0;
    if w != j {
        if w < j {
            assert(s[w].0 != s[j].0);
        } else {
            assert(s[j].0 != s[w].0);
        }
    }
}

/// In a duplicate-free table, the entry at an index owns its key.
pub proof fn lemma_pmap_index_at<V>(s: Seq<(IndexPos, V)>, j: int)
    requires
        pmap_nodup(s),
        0 <= j < s.len(),
    ensures
        pmap_contains(s, s[j].0),
        pmap_index(s, s[j].0) == s[j].1,
{
    assert(s[j].0 == s[j].0);
    let w = choose|i: int| 0 <= i < s.len() && s[i].0 == s[j].0;
    if w != j {
        if w < j {
            assert(s[w].0 != s[j].0);
        } else {
            assert(s[j].0 != s[w].0);
        }
    }
}

/// Effect of replacing the value at one entry of a position-keyed table.
pub proof fn lemma_pmap_update<V>(s: Seq<(IndexPos, V)>, i: int, v: V)
    requires
        pmap_nodup(s),
        0 <= i < s.len(),
    ensures
        pmap_nodup(s.update(i, (s[i].0, v))),
        forall|x: IndexPos|
            pmap_contains(s.update(i, (s[i].0, v)), x) <==> pmap_contains(s, x),
        pmap_index(s.update(i, (s[i].0, v)), s[i].0) == v,
        forall|x: IndexPos|
            x != s[i].0 && pmap_contains(s, x) ==> pmap_index(s.update(i, (s[i].0, v)), x)
                == pmap_index(s, x),
{
    let t = s.update(i, (s[i].0, v));
    assert(t[i] == (s[i].0, v));
    assert(forall|k: int| 0 <= k < s.len() && k != i ==> t[k] == s[k]);
    assert forall|x: IndexPos| pmap_contains(t, x) <==> pmap_contains(s, x) by {
        if pmap_contains(t, x) {
            let w = choose|w: int| 0 <= w < t.len() && t[w].0 == x;
            assert(s[w].0 == x);
        }
        if pmap_contains(s, x) {
            let w = choose|w: int| 0 <= w < s.len() && s[w].0 == x;
            assert(t[w].0 == x);
        }
    }
    assert(pmap_index(t, s[i].0) == v) by {
        assert(t[i].0 == s[i].0);
        let w = choose|w: int| 0 <= w < t.len() && t[w].0 == s[i].0;
        if w != i {
            if w < i {
                assert(s[w].0 != s[i].0);
            } else {
                assert(s[i].0 != s[w].0);
            }
        }
    }
    assert forall|x: IndexPos|
        x != s[i].0 && pmap_contains(s, x) implies pmap_index(t, x) == pmap_index(s, x) by {
        let w = choose|w: int| 0 <= w < s.len() && s[w].0 == x;
        assert(w != i);
        assert(t[w].0 == x);
        let wt = choose|w2: int| 0 <= w2 < t.len() && t[w2].0 == x;
        if wt != w {
            assert(s[wt].0 == x || wt == i);
            if wt != i {
                if wt < w {
                    assert(s[wt].0 != s[w].0);
                } else {
                    assert(s[w].0 != s[wt].0);
                }
            }
        }
    }
}

/// Appends an entry under a fresh key to a position-keyed table.
pub fn pos_map_insert_new<V: DeepView>(m: &mut Vec<(IndexPos, V)>, key: IndexPos, value: V)
    requires
        pmap_nodup(old(m).deep_view()),
        !pmap_contains(old(m).deep_view(), key),
    ensures
        pmap_nodup(final(m).deep_view()),
        forall|x: IndexPos|
            pmap_contains(final(m).deep_view(), x) <==> pmap_contains(old(m).deep_view(), x)
                || x == key,
        pmap_index(final(m).deep_view(), key) == value.deep_view(),
        forall|x: IndexPos|
            x != key && pmap_contains(old(m).deep_view(), x) ==> pmap_index(
                final(m).deep_view(),
                x,
            ) == pmap_index(old(m).deep_view(), x),
        final(m).deep_view() == old(m).deep_view().push((key, value.deep_view())),
        final(m)@.len() == old(m)@.len() + 1,
{
    let ghost pre = m.deep_view();
    let ghost e = (key, value.deep_view());
    m.push((key, value));
    proof {
        assert(m.deep_view() =~~= pre.push(e));
        lemma_pmap_push(pre, e);
        assert(pmap_contains(pre.push(e), key));
        assert(pmap_index(pre.push(e), key) == e.1);
        assert forall|x: IndexPos|
            pmap_contains(m.deep_view(), x) <==> pmap_contains(pre, x) || x == key by {
            assert(pmap_contains(pre.push(e), x) <==> pmap_contains(pre, x) || x == e.0);
        }
        assert forall|x: IndexPos|
            x != key && pmap_contains(pre, x) implies pmap_index(m.deep_view(), x)
            == pmap_index(pre, x) by {
            assert(pmap_index(pre.push(e), x) == pmap_index(pre, x));
        }
    }
}

/// Replaces the value stored at one entry of a position-keyed table.
pub fn pos_map_replace_at<V: DeepView>(m: &mut Vec<(IndexPos, V)>, i: usize, value: V)
    requires
        pmap_nodup(old(m).deep_view()),
        i < old(m)@.len(),
    ensures
        pmap_nodup(final(m).deep_view()),
        forall|x: IndexPos|
            pmap_contains(final(m).deep_view(), x) <==> pmap_contains(old(m).deep_view(), x),
        pmap_index(final(m).deep_view(), old(m).deep_view()[i as int].0) == value.deep_view(),
        forall|x: IndexPos|
            x != old(m).deep_view()[i as int].0 && pmap_contains(old(m).deep_view(), x)
                ==> pmap_index(final(m).deep_view(), x) == pmap_index(old(m).deep_view(), x),
        final(m)@.len() == old(m)@.len(),
{
    let ghost pre = m.deep_view();
    let ghost key = pre[i as int].0;
    let k = m[i].0;
    proof {
        assert(pre[i as int] == (m@[i as int].0, m@[i as int].1.deep_view()));
        assert(k == key);
    }
    crate::table::vec_set_entry(m, i, (k, value));
    proof {
        assert(m.deep_view() =~~= pre.update(i as int, (key, value.deep_view())));
        lemma_pmap_update(pre, i as int, value.deep_view());
        assert(pmap_index(pre.update(i as int, (pre[i as int].0, value.deep_view())), key)
            == value.deep_view());
        assert(pre.update(i as int, (pre[i as int].0, value.deep_view())) == pre.update(
            i as int,
            (key, value.deep_view()),
        ));
        assert forall|x: IndexPos|
            pmap_contains(m.deep_view(), x) <==> pmap_contains(pre, x) by {
            assert(pmap_contains(pre.update(i as int, (pre[i as int].0, value.deep_view())), x)
                <==> pmap_contains(pre, x));
        }
        assert forall|x: IndexPos|
            x != key && pmap_contains(pre, x) implies pmap_index(m.deep_view(), x)
            == pmap_index(pre, x) by {
            assert(pmap_index(pre.update(i as int, (pre[i as int].0, value.deep_view())), x)
                == pmap_index(pre, x));
        }
    }
}

/// Replaces one element of a vector.
pub fn vec_set_entry<T>(v: &mut Vec<T>, i: usize, value: T)
    requires
        i < old(v)@.len(),
    ensures
        final(v)@ == old(v)@.update(i as int, value),
{
    v.set(i, value);
}

/// Finds the index of a key in a position-keyed table.
pub fn pos_map_find<V>(m: &Vec<(IndexPos, V)>, key: IndexPos) -> (r: Option<usize>)
    ensures
        r matches Some(i) ==> i < m@.len() && m@[i as int].0 == key,
        r is None ==> forall|i: int| 0 <= i < m@.len() ==> m@[i].0 != key,
{
    let mut i: usize = 0;
    while i < m.len()
        invariant
            0 <= i <= m@.len(),
            forall|j: int| 0 <= j < i ==> m@[j].0 != key,
        decreases m@.len() - i,
    {
        if m[i].0 == key {
            return Some(i);
        }
        i += 1;
    }
    None
}

/// Counts a key's occurrences in a name-keyed table.
pub fn id_map_count<V: DeepView>(m: &Vec<(Identifier, V)>, key: &Identifier) -> (c: usize)
    ensures
        c == nmap_count(m.deep_view(), key@),
{
    let ghost s = m.deep_view();
    let mut c: usize = 0;
    let mut i: usize = 0;
    while i < m.len()
        invariant
            0 <= i <= s.len(),
            s == m.deep_view(),
            s.len() == m@.len(),
            forall|j: int|
                0 <= j < s.len() ==> s[j] == (m@[j].0@, #[trigger] m@[j].1.deep_view()),
            c == nmap_count(s.take(i as int), key@),
            c <= i,
        decreases s.len() - i,
    {
        proof {
            assert(s.take(i as int + 1).drop_last() =~= s.take(i as int));
            assert(s.take(i as int + 1).last() == s[i as int]);
        }
        if m[i].0.same_as(key) {
            c += 1;
        }
        i += 1;
    }
    proof {
        assert(s.take(s.len() as int) =~= s);
    }
    c
}

/// Every stored value of a key comes from some entry carrying that key.
pub proof fn lemma_nmap_values_member<V>(s: Seq<(Seq<char>, V)>, key: Seq<char>, t: int)
    requires
        0 <= t < nmap_values(s, key).len(),
    ensures
        exists|i: int| 0 <= i < s.len() && s[i].0 == key && s[i].1 == nmap_values(s, key)[t],
    decreases s.len(),
{
    if s.len() > 0 {
        let rest = nmap_values(s.drop_last(), key);
        if s.last().0 == key && t == nmap_values(s, key).len() - 1 {
            assert(s[s.len() - 1].0 == key && s[s.len() - 1].1 == nmap_values(s, key)[t]);
        } else {
            lemma_nmap_values_member(s.drop_last(), key, t);
            let i = choose|i: int|
                0 <= i < s.drop_last().len() && s.drop_last()[i].0 == key && s.drop_last()[i].1
                    == rest[t];
            assert(s[i].0 == key && s[i].1 == nmap_values(s, key)[t]);
        }
    }
}

/// Whether a list of identifiers holds a name.
pub fn id_list_contains(v: &Vec<Identifier>, key: &Identifier) -> (r: bool)
    ensures
        r == v.deep_view().contains(key@),
{
    let ghost s = v.deep_view();
    let mut i: usize = 0;
    while i < v.len()
        invariant
            0 <= i <= s.len(),
            s == v.deep_view(),
            s.len() == v@.len(),
            forall|j: int| 0 <= j < s.len() ==> s[j] == #[trigger] v@[j].deep_view(),
            forall|j: int| 0 <= j < i ==> s[j] != key@,
        decreases s.len() - i,
    {
        if v[i].same_as(key) {
            assert(s[i as int] == key@);
            return true;
        }
        i += 1;
    }
    false
}

} // verus!
