use vstd::prelude::*;

verus! {

/// Specification-level view of the persisted tables: a sequence of key/value
/// pairs read front to back, the first pair with a matching key winning.
/// Both ledgers keep their keys pairwise distinct, so the first match is the
/// only one; the lookup is nevertheless defined for every sequence.
pub open spec fn assoc_lookup<K, V>(s: Seq<(K, V)>, key: K) -> Option<V>
    decreases s.len(),
{
    if s.len() == 0 {
        None
    } else if s[0].0 == key {
        Some(s[0].1)
    } else {
        assoc_lookup(s.drop_first(), key)
    }
}

/// Keys are pairwise distinct.
pub open spec fn assoc_wf<K, V>(s: Seq<(K, V)>) -> bool {
    forall|i: int, j: int| 0 <= i < j < s.len() ==> s[i].0 != s[j].0
}

/// A key that occurs nowhere looks up to nothing.
pub proof fn lemma_assoc_lookup_none<K, V>(s: Seq<(K, V)>, key: K)
    requires
        forall|j: int| 0 <= j < s.len() ==> s[j].0 != key,
    ensures
        assoc_lookup(s, key) is None,
    decreases s.len(),
{
    if s.len() > 0 {
        lemma_assoc_lookup_none(s.drop_first(), key);
    }
}

/// The entry at the first position matching its key is what the key looks
/// up to.
pub proof fn lemma_assoc_lookup_first_match<K, V>(s: Seq<(K, V)>, i: int)
    requires
        0 <= i < s.len(),
        forall|j: int| 0 <= j < i ==> s[j].0 != s[i].0,
    ensures
        assoc_lookup(s, s[i].0) == Some(s[i].1),
    decreases s.len(),
{
    if i > 0 {
        lemma_assoc_lookup_first_match(s.drop_first(), i - 1);
    }
}

/// Replacing the value at the first position matching its key changes that
/// key's lookup and no other.
pub proof fn lemma_assoc_update<K, V>(s: Seq<(K, V)>, i: int, v: V)
    requires
        0 <= i < s.len(),
        forall|j: int| 0 <= j < i ==> s[j].0 != s[i].0,
    ensures
        assoc_lookup(s.update(i, (s[i].0, v)), s[i].0) == Some(v),
        forall|k: K| k != s[i].0 ==> assoc_lookup(s.update(i, (s[i].0, v)), k) == assoc_lookup(
            s,
            k,
        ),
        assoc_wf(s) ==> assoc_wf(s.update(i, (s[i].0, v))),
    decreases s.len(),
{
    let s2 = s.update(i, (s[i].0, v));
    if i == 0 {
        assert(s2.drop_first() =~= s.drop_first());
    } else {
        lemma_assoc_update(s.drop_first(), i - 1, v);
        assert(s2.drop_first() =~= s.drop_first().update(i - 1, (s[i].0, v)));
        assert(s2[0] == s[0]);
        assert forall|k: K| k != s[i].0 implies assoc_lookup(s2, k) == assoc_lookup(s, k) by {
            if s[0].0 != k {
                assert(assoc_lookup(s2.drop_first(), k) == assoc_lookup(s.drop_first(), k));
            }
        }
    }
    if assoc_wf(s) {
        assert forall|p: int, q: int| 0 <= p < q < s2.len() implies s2[p].0 != s2[q].0 by {
            assert(s2[p].0 == s[p].0 && s2[q].0 == s[q].0);
        }
    }
}

/// Appending a pair leaves every key that already occurs unchanged and gives
/// the new key its value.
pub proof fn lemma_assoc_push<K, V>(s: Seq<(K, V)>, p: (K, V))
    ensures
        forall|k: K| #![trigger assoc_lookup(s.push(p), k)]
            assoc_lookup(s.push(p), k) == (if assoc_lookup(s, k) is Some {
                assoc_lookup(s, k)
            } else if p.0 == k {
                Some(p.1)
            } else {
                None::<V>
            }),
{
    assert forall|k: K| true implies #[trigger] assoc_lookup(s.push(p), k) == (if assoc_lookup(
        s,
        k,
    ) is Some {
        assoc_lookup(s, k)
    } else if p.0 == k {
        Some(p.1)
    } else {
        None::<V>
    }) by {
        lemma_assoc_push_one(s, p, k);
    }
}

proof fn lemma_assoc_push_one<K, V>(s: Seq<(K, V)>, p: (K, V), k: K)
    ensures
        assoc_lookup(s.push(p), k) == (if assoc_lookup(s, k) is Some {
            assoc_lookup(s, k)
        } else if p.0 == k {
            Some(p.1)
        } else {
            None::<V>
        }),
    decreases s.len(),
{
    reveal_with_fuel(assoc_lookup, 3);
    if s.len() == 0 {
        assert(s.push(p)[0] == p);
        assert(s.push(p).drop_first() =~= Seq::<(K, V)>::empty());
    } else {
        assert(s.push(p)[0] == s[0]);
        assert(s.push(p).drop_first() =~= s.drop_first().push(p));
        lemma_assoc_push_one(s.drop_first(), p, k);
    }
}

/// Under distinct keys, a pushed pair with a fresh key keeps the list
/// well formed.
pub proof fn lemma_assoc_push_wf<K, V>(s: Seq<(K, V)>, p: (K, V))
    requires
        assoc_wf(s),
        forall|j: int| 0 <= j < s.len() ==> s[j].0 != p.0,
    ensures
        assoc_wf(s.push(p)),
{
    assert forall|i: int, j: int| 0 <= i < j < s.push(p).len() implies s.push(p)[i].0 != s.push(
        p,
    )[j].0 by {
        if j < s.len() {
            assert(s.push(p)[i] == s[i] && s.push(p)[j] == s[j]);
        } else {
            assert(s.push(p)[i] == s[i] && s.push(p)[j] == p);
        }
    }
}

} // verus!
