//! Association sequences with unique keys: the specification-level shape
//! shared by the metadata cache and the live-consumer directory.

use vstd::prelude::*;

verus! {

/// The value bound to `k`, looked up from the back of the sequence. With
/// unique keys the direction is immaterial; recursing from the back lets a
/// push unfold definitionally.
pub open spec fn assoc_lookup<K, V>(s: Seq<(K, V)>, k: K) -> Option<V>
    decreases s.len(),
{
    if s.len() == 0 {
        None
    } else if s.last().0 == k {
        Some(s.last().1)
    } else {
        assoc_lookup(s.drop_last(), k)
    }
}

/// No two elements bind the same key.
pub open spec fn keys_unique<K, V>(s: Seq<(K, V)>) -> bool {
    forall|i: int, j: int| 0 <= i < j < s.len() ==> s[i].0 != s[j].0
}

/// A key bound nowhere looks up to nothing.
pub proof fn lemma_lookup_absent<K, V>(s: Seq<(K, V)>, k: K)
    requires
        forall|i: int| 0 <= i < s.len() ==> s[i].0 != k,
    ensures
        assoc_lookup(s, k) is None,
    decreases s.len(),
{
    if s.len() > 0 {
        assert(s[s.len() - 1].0 != k);
        assert forall|i: int| 0 <= i < s.drop_last().len() implies s.drop_last()[i].0 != k by {
            assert(s.drop_last()[i] == s[i]);
        }
        lemma_lookup_absent(s.drop_last(), k);
    }
}

/// Under unique keys, the element at `i` is what its key looks up to.
pub proof fn lemma_lookup_at<K, V>(s: Seq<(K, V)>, i: int)
    requires
        keys_unique(s),
        0 <= i < s.len(),
    ensures
        assoc_lookup(s, s[i].0) == Some(s[i].1),
    decreases s.len(),
{
    if i == s.len() - 1 {
        assert(s.last() == s[i]);
    } else {
        assert(s.last().0 != s[i].0);
        assert(s.drop_last()[i] == s[i]);
        assert forall|i2: int, j2: int|
            0 <= i2 < j2 < s.drop_last().len() implies s.drop_last()[i2].0 != s.drop_last()[j2].0 by {
            assert(s.drop_last()[i2] == s[i2]);
            assert(s.drop_last()[j2] == s[j2]);
        }
        lemma_lookup_at(s.drop_last(), i);
    }
}

/// After an in-place change of the element at `i` that keeps its key, the
/// keys stay unique, the changed element is what its key looks up to, and
/// every other key's binding is untouched.
pub proof fn lemma_lookup_update<K, V>(s0: Seq<(K, V)>, s1: Seq<(K, V)>, key: K, i: int)
    requires
        keys_unique(s0),
        0 <= i < s0.len(),
        s0[i].0 == key,
        s1.len() == s0.len(),
        s1[i].0 == key,
        forall|j: int| 0 <= j < s0.len() && j != i ==> s1[j] == s0[j],
    ensures
        keys_unique(s1),
        assoc_lookup(s1, key) == Some(s1[i].1),
        forall|k2: K| k2 != key ==> assoc_lookup(s1, k2) == assoc_lookup(s0, k2),
{
    assert forall|i2: int, j2: int| 0 <= i2 < j2 < s1.len() implies s1[i2].0 != s1[j2].0 by {
        assert(s1[i2].0 == s0[i2].0);
        assert(s1[j2].0 == s0[j2].0);
    }
    lemma_lookup_at(s1, i);
    assert forall|k2: K| k2 != key implies assoc_lookup(s1, k2) == assoc_lookup(s0, k2) by {
        if exists|j: int| 0 <= j < s0.len() && s0[j].0 == k2 {
            let j = choose|j: int| 0 <= j < s0.len() && s0[j].0 == k2;
            lemma_lookup_at(s0, j);
            lemma_lookup_at(s1, j);
            assert(s1[j] == s0[j]);
        } else {
            assert(forall|j: int| 0 <= j < s0.len() ==> s0[j].0 != k2);
            assert forall|j: int| 0 <= j < s1.len() implies s1[j].0 != k2 by {
                assert(s1[j].0 == s0[j].0);
            }
            lemma_lookup_absent(s0, k2);
            lemma_lookup_absent(s1, k2);
        }
    }
}

/// After removing the element at `i`, its key is bound nowhere and every
/// other key's binding is untouched.
pub proof fn lemma_lookup_remove<K, V>(s0: Seq<(K, V)>, i: int)
    requires
        keys_unique(s0),
        0 <= i < s0.len(),
    ensures
        keys_unique(s0.remove(i)),
        assoc_lookup(s0.remove(i), s0[i].0) is None,
        forall|k2: K| k2 != s0[i].0 ==> assoc_lookup(s0.remove(i), k2) == assoc_lookup(s0, k2),
{
    let s1 = s0.remove(i);
    let key = s0[i].0;
    assert forall|i2: int, j2: int| 0 <= i2 < j2 < s1.len() implies s1[i2].0 != s1[j2].0 by {
        let a: int = if i2 < i { i2 } else { i2 + 1 };
        let b: int = if j2 < i { j2 } else { j2 + 1 };
        assert(s1[i2] == s0[a]);
        assert(s1[j2] == s0[b]);
    }
    assert forall|j: int| 0 <= j < s1.len() implies s1[j].0 != key by {
        let a: int = if j < i { j } else { j + 1 };
        assert(s1[j] == s0[a]);
    }
    lemma_lookup_absent(s1, key);
    assert forall|k2: K| k2 != key implies assoc_lookup(s1, k2) == assoc_lookup(s0, k2) by {
        if exists|j: int| 0 <= j < s0.len() && s0[j].0 == k2 {
            let j = choose|j: int| 0 <= j < s0.len() && s0[j].0 == k2;
            lemma_lookup_at(s0, j);
            assert(j != i);
            let b: int = if j < i { j } else { j - 1 };
            assert(s1[b] == s0[j]);
            lemma_lookup_at(s1, b);
        } else {
            assert(forall|j: int| 0 <= j < s0.len() ==> s0[j].0 != k2);
            assert forall|j: int| 0 <= j < s1.len() implies s1[j].0 != k2 by {
                let a: int = if j < i { j } else { j + 1 };
                assert(s1[j] == s0[a]);
            }
            lemma_lookup_absent(s0, k2);
            lemma_lookup_absent(s1, k2);
        }
    }
}

} // verus!
