//! String-keyed association lists.
//!
//! The secondary indices, the property bags, and the file cache all keep
//! `Vec<(String, V)>` tables with unique keys. This module holds the lookup
//! spec, the uniqueness predicate, and the lemmas that relate lookup to
//! pushing, removing, and updating entries.

use vstd::prelude::*;

verus! {

/// First-match lookup.
pub open spec fn assoc_lookup<V>(s: Seq<(String, V)>, key: Seq<char>) -> Option<V>
    decreases s.len(),
{
    if s.len() == 0 {
        None
    } else if s[0].0@ == key {
        Some(s[0].1)
    } else {
        assoc_lookup(s.drop_first(), key)
    }
}

/// Keys are unique.
pub open spec fn assoc_unique<V>(s: Seq<(String, V)>) -> bool {
    forall|i: int, j: int|
        0 <= i < j < s.len() ==> (#[trigger] s[i]).0@ != (#[trigger] s[j]).0@
}

/// When an entry at `i` holds the key and no earlier one does, lookup finds it.
pub proof fn lemma_assoc_lookup_at<V>(s: Seq<(String, V)>, key: Seq<char>, i: int)
    requires
        0 <= i < s.len(),
        s[i].0@ == key,
        forall|j: int| 0 <= j < i ==> s[j].0@ != key,
    ensures
        assoc_lookup(s, key) == Some(s[i].1),
    decreases i,
{
    if i > 0 {
        lemma_assoc_lookup_at(s.drop_first(), key, i - 1);
    }
}

/// When no entry holds the key, lookup fails.
pub proof fn lemma_assoc_lookup_none<V>(s: Seq<(String, V)>, key: Seq<char>)
    requires
        forall|j: int| 0 <= j < s.len() ==> s[j].0@ != key,
    ensures
        assoc_lookup(s, key) == Option::<V>::None,
    decreases s.len(),
{
    if s.len() > 0 {
        lemma_assoc_lookup_none(s.drop_first(), key);
    }
}

/// Appending an entry does not change lookups of other keys.
pub proof fn lemma_assoc_lookup_push_other<V>(s: Seq<(String, V)>, e: (String, V), key: Seq<char>)
    requires
        e.0@ != key,
    ensures
        assoc_lookup(s.push(e), key) == assoc_lookup(s, key),
    decreases s.len(),
{
    if s.len() == 0 {
        assert(s.push(e)[0] == e);
        assert(s.push(e).drop_first() =~= Seq::<(String, V)>::empty());
        assert(assoc_lookup(s.push(e).drop_first(), key) == Option::<V>::None);
    } else {
        assert(s.push(e)[0] == s[0]);
        assert(s.push(e).drop_first() =~= s.drop_first().push(e));
        lemma_assoc_lookup_push_other(s.drop_first(), e, key);
        assert(assoc_lookup(s.push(e), key) == if s[0].0@ == key {
            Some(s[0].1)
        } else {
            assoc_lookup(s.push(e).drop_first(), key)
        });
    }
}

/// Removing an entry of a different key does not change lookups of `key`.
pub proof fn lemma_assoc_lookup_remove_other<V>(s: Seq<(String, V)>, i: int, key: Seq<char>)
    requires
        0 <= i < s.len(),
        s[i].0@ != key,
    ensures
        assoc_lookup(s.remove(i), key) == assoc_lookup(s, key),
    decreases s.len(),
{
    if i == 0 {
        assert(s.remove(0) =~= s.drop_first());
    } else {
        assert(s.remove(i)[0] == s[0]);
        assert(s.remove(i).drop_first() =~= s.drop_first().remove(i - 1));
        lemma_assoc_lookup_remove_other(s.drop_first(), i - 1, key);
    }
}

/// Replacing the value of the entry at `i` changes only that key's lookup.
pub proof fn lemma_assoc_lookup_update<V>(s: Seq<(String, V)>, i: int, e: (String, V), key: Seq<char>)
    requires
        0 <= i < s.len(),
        e.0@ == s[i].0@,
        forall|j: int| 0 <= j < i ==> s[j].0@ != s[i].0@,
    ensures
        assoc_lookup(s.update(i, e), s[i].0@) == Some(e.1),
        key != s[i].0@ ==> assoc_lookup(s.update(i, e), key) == assoc_lookup(s, key),
    decreases i,
{
    if i == 0 {
        assert(s.update(0, e)[0] == e);
        if key != s[0].0@ {
            assert(s.update(0, e).drop_first() =~= s.drop_first());
        }
    } else {
        assert(s.update(i, e)[0] == s[0]);
        assert(s.update(i, e).drop_first() =~= s.drop_first().update(i - 1, e));
        lemma_assoc_lookup_update(s.drop_first(), i - 1, e, key);
    }
}

/// A failed lookup means no entry holds the key.
pub proof fn lemma_assoc_none_no_key<V>(s: Seq<(String, V)>, key: Seq<char>)
    requires
        assoc_lookup(s, key) is None,
    ensures
        forall|j: int| 0 <= j < s.len() ==> (#[trigger] s[j]).0@ != key,
    decreases s.len(),
{
    if s.len() > 0 {
        lemma_assoc_none_no_key(s.drop_first(), key);
        assert(forall|j: int| 1 <= j < s.len() ==> s[j] == s.drop_first()[j - 1]);
    }
}

/// Uniqueness survives removing an entry.
pub proof fn lemma_assoc_unique_remove<V>(s: Seq<(String, V)>, i: int)
    requires
        0 <= i < s.len(),
        assoc_unique(s),
    ensures
        assoc_unique(s.remove(i)),
        forall|k: int|
            0 <= k < s.remove(i).len() ==> #[trigger] s.remove(i)[k] == (if k < i {
                s[k]
            } else {
                s[k + 1]
            }),
{
    assert(forall|k: int|
        0 <= k < s.remove(i).len() ==> #[trigger] s.remove(i)[k] == (if k < i {
            s[k]
        } else {
            s[k + 1]
        }));
}

/// Uniqueness survives appending a fresh key.
pub proof fn lemma_assoc_unique_push<V>(s: Seq<(String, V)>, e: (String, V))
    requires
        assoc_unique(s),
        forall|j: int| 0 <= j < s.len() ==> (#[trigger] s[j]).0@ != e.0@,
    ensures
        assoc_unique(s.push(e)),
{
    assert(forall|k: int| 0 <= k < s.len() ==> s.push(e)[k] == s[k]);
    assert(s.push(e)[s.len() as int] == e);
}

/// Uniqueness survives replacing a value in place.
pub proof fn lemma_assoc_unique_update<V>(s: Seq<(String, V)>, i: int, e: (String, V))
    requires
        0 <= i < s.len(),
        assoc_unique(s),
        e.0@ == s[i].0@,
    ensures
        assoc_unique(s.update(i, e)),
{
}

/// Index of the first entry holding `key`, if any.
pub fn assoc_find<V>(entries: &Vec<(String, V)>, key: &str) -> (r: Option<usize>)
    ensures
        match r {
            Some(i) => i < entries@.len() && entries@[i as int].0@ == key@ && forall|j: int|
                0 <= j < i ==> (#[trigger] entries@[j]).0@ != key@,
            None => forall|j: int| 0 <= j < entries@.len() ==> (#[trigger] entries@[j]).0@ != key@,
        },
{
    let n = entries.len();
    let mut i: usize = 0;
    while i < n
        invariant
            0 <= i <= n,
            n == entries@.len(),
            forall|j: int| 0 <= j < i ==> (#[trigger] entries@[j]).0@ != key@,
        decreases n - i,
    {
        if crate::props::str_eq(entries[i].0.as_str(), key) {
            return Some(i);
        }
        i += 1;
    }
    None
}

} // verus!
