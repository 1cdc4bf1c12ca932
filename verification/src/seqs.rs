//! Sequence helpers shared by the specifications.

use vstd::prelude::*;

verus! {

/// The sequences of `s`, one after another.
pub open spec fn concat_all<A>(s: Seq<Seq<A>>) -> Seq<A>
    decreases s.len(),
{
    if s.len() == 0 {
        Seq::empty()
    } else {
        concat_all(s.drop_last()) + s.last()
    }
}

pub proof fn lemma_concat_all_step<A>(s: Seq<Seq<A>>, k: int)
    requires
        0 <= k < s.len(),
    ensures
        concat_all(s.take(k + 1)) == concat_all(s.take(k)) + s[k],
{
    assert(s.take(k + 1).drop_last() =~= s.take(k));
}

/// `m` with the entries of `es` inserted in order, so that a later entry for a key
/// replaces an earlier one.
pub open spec fn insert_all<K, V>(m: Map<K, V>, es: Seq<(K, V)>) -> Map<K, V>
    decreases es.len(),
{
    if es.len() == 0 {
        m
    } else {
        insert_all(m, es.drop_last()).insert(es.last().0, es.last().1)
    }
}

pub proof fn lemma_insert_all_append<K, V>(m: Map<K, V>, a: Seq<(K, V)>, b: Seq<(K, V)>)
    ensures
        insert_all(m, a + b) == insert_all(insert_all(m, a), b),
    decreases b.len(),
{
    if b.len() == 0 {
        assert(a + b =~= a);
    } else {
        lemma_insert_all_append(m, a, b.drop_last());
        assert((a + b).drop_last() =~= a + b.drop_last());
    }
}

/// Where item `i` of `concat_all(s)` comes from: item `b` of `s[a]`.
pub proof fn lemma_concat_all_index<A>(s: Seq<Seq<A>>, i: int) -> (ab: (int, int))
    requires
        0 <= i < concat_all(s).len(),
    ensures
        0 <= ab.0 < s.len(),
        0 <= ab.1 < s[ab.0].len(),
        concat_all(s)[i] == s[ab.0][ab.1],
    decreases s.len(),
{
    let front = concat_all(s.drop_last());
    if i < front.len() {
        let ab = lemma_concat_all_index(s.drop_last(), i);
        assert(s.drop_last()[ab.0] == s[ab.0]);
        ab
    } else {
        (s.len() - 1, i - front.len())
    }
}

/// Where the value a key has after `insert_all` comes from: an entry of `es`.
pub proof fn lemma_insert_all_source<K, V>(es: Seq<(K, V)>, k: K) -> (i: int)
    requires
        insert_all(Map::<K, V>::empty(), es).contains_key(k),
    ensures
        0 <= i < es.len(),
        es[i].0 == k,
        es[i].1 == insert_all(Map::<K, V>::empty(), es)[k],
    decreases es.len(),
{
    if es.last().0 == k {
        es.len() - 1
    } else {
        let i = lemma_insert_all_source(es.drop_last(), k);
        i
    }
}

/// Each entry's key is a key after `insert_all`.
pub proof fn lemma_insert_all_keys<K, V>(es: Seq<(K, V)>, i: int)
    requires
        0 <= i < es.len(),
    ensures
        insert_all(Map::<K, V>::empty(), es).contains_key(es[i].0),
    decreases es.len(),
{
    if i < es.len() - 1 {
        lemma_insert_all_keys(es.drop_last(), i);
    }
}

/// Item `b` of `s[a]` stands in `concat_all(s)`.
pub proof fn lemma_concat_all_contains<A>(s: Seq<Seq<A>>, a: int, b: int) -> (i: int)
    requires
        0 <= a < s.len(),
        0 <= b < s[a].len(),
    ensures
        0 <= i < concat_all(s).len(),
        concat_all(s)[i] == s[a][b],
    decreases s.len(),
{
    let front = concat_all(s.drop_last());
    if a < s.len() - 1 {
        let i = lemma_concat_all_contains(s.drop_last(), a, b);
        assert(s.drop_last()[a] == s[a]);
        i
    } else {
        front.len() + b
    }
}

} // verus!
