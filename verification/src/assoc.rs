use vstd::prelude::*;

verus! {

/// The value stored under `key` in an association sequence; the first match
/// wins, and wherever `assoc_unique` holds there is at most one.
pub open spec fn assoc_lookup<K, V>(entries: Seq<(K, V)>, key: K) -> Option<V>
    decreases entries.len(),
{
    if entries.len() == 0 {
        None
    } else if entries[0].0 == key {
        Some(entries[0].1)
    } else {
        assoc_lookup(entries.drop_first(), key)
    }
}

/// Each key appears at most once.
pub open spec fn assoc_unique<K, V>(entries: Seq<(K, V)>) -> bool {
    forall|i: int, j: int|
        0 <= i < j < entries.len() ==> (#[trigger] entries[i]).0 != (#[trigger] entries[j]).0
}

/// The association sequence without the entries for `key`, order kept.
pub open spec fn assoc_remove_key<K, V>(entries: Seq<(K, V)>, key: K) -> Seq<(K, V)>
    decreases entries.len(),
{
    if entries.len() == 0 {
        Seq::empty()
    } else {
        let rest = assoc_remove_key(entries.drop_last(), key);
        if entries.last().0 == key {
            rest
        } else {
            rest.push(entries.last())
        }
    }
}

proof fn lemma_lookup_push_one<K, V>(entries: Seq<(K, V)>, key: K, value: V, k: K)
    ensures
        assoc_lookup(entries.push((key, value)), k) == (if assoc_lookup(entries, k) is Some {
            assoc_lookup(entries, k)
        } else if k == key {
            Some(value)
        } else {
            None::<V>
        }),
    decreases entries.len(),
{
    let pushed = entries.push((key, value));
    if entries.len() == 0 {
        assert(pushed.len() == 1);
        assert(pushed[0] == (key, value));
        if k == key {
            assert(assoc_lookup(pushed, k) == Some(value));
        } else {
            assert(pushed.drop_first() =~= Seq::<(K, V)>::empty());
            assert(assoc_lookup(pushed, k) is None);
        }
    } else {
        assert(pushed[0] == entries[0]);
        lemma_lookup_push_one(entries.drop_first(), key, value, k);
        assert(pushed.drop_first() =~= entries.drop_first().push((key, value)));
        if entries[0].0 == k {
            assert(assoc_lookup(pushed, k) == Some(entries[0].1));
        } else {
            assert(assoc_lookup(pushed, k) == assoc_lookup(pushed.drop_first(), k));
            assert(assoc_lookup(entries, k) == assoc_lookup(entries.drop_first(), k));
        }
    }
}

/// Appending an entry leaves every present key as it was and fills `key`
/// only where it was absent.
pub proof fn lemma_assoc_lookup_push<K, V>(entries: Seq<(K, V)>, key: K, value: V)
    ensures
        forall|k: K|
            #[trigger] assoc_lookup(entries.push((key, value)), k) == (if assoc_lookup(
                entries,
                k,
            ) is Some {
                assoc_lookup(entries, k)
            } else if k == key {
                Some(value)
            } else {
                None::<V>
            }),
{
    assert forall|k: K|
        #[trigger] assoc_lookup(entries.push((key, value)), k) == (if assoc_lookup(entries, k)
            is Some {
            assoc_lookup(entries, k)
        } else if k == key {
            Some(value)
        } else {
            None::<V>
        }) by {
        lemma_lookup_push_one(entries, key, value, k);
    }
}

/// A key is absent exactly when no entry carries it.
pub proof fn lemma_assoc_lookup_none_iff<K, V>(entries: Seq<(K, V)>, key: K)
    ensures
        (assoc_lookup(entries, key) is None) <==> (forall|i: int|
            0 <= i < entries.len() ==> (#[trigger] entries[i]).0 != key),
    decreases entries.len(),
{
    if entries.len() > 0 {
        let rest = entries.drop_first();
        lemma_assoc_lookup_none_iff(rest, key);
        assert(forall|i: int| 0 <= i < rest.len() ==> #[trigger] rest[i] == entries[i + 1]);
        if assoc_lookup(entries, key) is None {
            assert forall|i: int| 0 <= i < entries.len() implies (#[trigger] entries[i]).0
                != key by {
                if i > 0 {
                    assert(entries[i] == rest[i - 1]);
                }
            }
        } else {
            if entries[0].0 == key {
            } else {
                let i = choose|i: int| 0 <= i < rest.len() && (#[trigger] rest[i]).0 == key;
                assert(entries[i + 1].0 == key);
            }
        }
    }
}

proof fn lemma_lookup_index_one<K, V>(entries: Seq<(K, V)>, i: int)
    requires
        assoc_unique(entries),
        0 <= i < entries.len(),
    ensures
        assoc_lookup(entries, entries[i].0) == Some(entries[i].1),
    decreases entries.len(),
{
    if i > 0 {
        let rest = entries.drop_first();
        assert(forall|m: int| 0 <= m < rest.len() ==> #[trigger] rest[m] == entries[m + 1]);
        lemma_lookup_index_one(rest, i - 1);
        assert(entries[0].0 != entries[i].0);
    }
}

/// Under unique keys, the entry at any index is what lookup finds.
pub proof fn lemma_assoc_lookup_index<K, V>(entries: Seq<(K, V)>, i: int)
    requires
        assoc_unique(entries),
        0 <= i < entries.len(),
    ensures
        assoc_lookup(entries, entries[i].0) == Some(entries[i].1),
{
    lemma_lookup_index_one(entries, i);
}

proof fn lemma_update_value_one<K, V>(entries: Seq<(K, V)>, i: int, value: V, k: K)
    requires
        assoc_unique(entries),
        0 <= i < entries.len(),
    ensures
        assoc_lookup(entries.update(i, (entries[i].0, value)), k) == (if k == entries[i].0 {
            Some(value)
        } else {
            assoc_lookup(entries, k)
        }),
    decreases entries.len(),
{
    let updated = entries.update(i, (entries[i].0, value));
    if i == 0 {
        assert(updated[0] == (entries[0].0, value));
        assert(updated.drop_first() =~= entries.drop_first());
        if k == entries[0].0 {
        } else {
        }
    } else {
        let rest = entries.drop_first();
        assert(forall|m: int| 0 <= m < rest.len() ==> #[trigger] rest[m] == entries[m + 1]);
        assert(updated[0] == entries[0]);
        assert(updated.drop_first() =~= rest.update(i - 1, (entries[i].0, value)));
        assert(rest[i - 1] == entries[i]);
        lemma_update_value_one(rest, i - 1, value, k);
        if k == entries[i].0 {
            assert(entries[0].0 != entries[i].0);
        }
    }
}

/// Replacing the value at index `i` changes the lookup of that entry's key
/// alone and keeps the keys unique.
pub proof fn lemma_assoc_update_value<K, V>(entries: Seq<(K, V)>, i: int, value: V)
    requires
        assoc_unique(entries),
        0 <= i < entries.len(),
    ensures
        assoc_unique(entries.update(i, (entries[i].0, value))),
        assoc_lookup(entries.update(i, (entries[i].0, value)), entries[i].0) == Some(value),
        forall|k: K|
            k != entries[i].0 ==> #[trigger] assoc_lookup(
                entries.update(i, (entries[i].0, value)),
                k,
            ) == assoc_lookup(entries, k),
{
    let updated = entries.update(i, (entries[i].0, value));
    assert(forall|j: int| 0 <= j < entries.len() ==> (#[trigger] updated[j]).0 == entries[j].0);
    lemma_update_value_one(entries, i, value, entries[i].0);
    assert forall|k: K|
        k != entries[i].0 implies #[trigger] assoc_lookup(updated, k) == assoc_lookup(
        entries,
        k,
    ) by {
        lemma_update_value_one(entries, i, value, k);
    }
}

proof fn lemma_remove_key_entries<K, V>(entries: Seq<(K, V)>, key: K)
    ensures
        forall|m: int|
            0 <= m < assoc_remove_key(entries, key).len() ==> exists|j: int|
                0 <= j < entries.len() && #[trigger] assoc_remove_key(entries, key)[m] == entries[j]
                    && entries[j].0 != key,
    decreases entries.len(),
{
    if entries.len() > 0 {
        let prefix = entries.drop_last();
        let removed = assoc_remove_key(entries, key);
        let rest = assoc_remove_key(prefix, key);
        lemma_remove_key_entries(prefix, key);
        assert(forall|j: int| 0 <= j < prefix.len() ==> #[trigger] prefix[j] == entries[j]);
        if entries.last().0 != key {
            assert forall|m: int| 0 <= m < removed.len() implies exists|j: int|
                0 <= j < entries.len() && #[trigger] removed[m] == entries[j] && entries[j].0
                    != key by {
                if m < rest.len() {
                    assert(removed[m] == rest[m]);
                    let j = choose|j: int|
                        0 <= j < prefix.len() && #[trigger] rest[m] == prefix[j] && prefix[j].0
                            != key;
                    assert(removed[m] == entries[j]);
                } else {
                    assert(removed[m] == entries.last());
                    assert(entries.last() == entries[entries.len() - 1]);
                }
            }
        }
    }
}

/// Removing a key empties its lookup, leaves every other key as it was, and
/// keeps the keys unique.
pub proof fn lemma_assoc_remove_key<K, V>(entries: Seq<(K, V)>, key: K)
    requires
        assoc_unique(entries),
    ensures
        assoc_unique(assoc_remove_key(entries, key)),
        assoc_lookup(assoc_remove_key(entries, key), key) is None,
        forall|k: K|
            k != key ==> #[trigger] assoc_lookup(assoc_remove_key(entries, key), k) == assoc_lookup(
                entries,
                k,
            ),
    decreases entries.len(),
{
    if entries.len() == 0 {
    } else {
        let prefix = entries.drop_last();
        let last = entries.last();
        assert(forall|m: int| 0 <= m < prefix.len() ==> #[trigger] prefix[m] == entries[m]);
        assert(assoc_unique(prefix));
        lemma_assoc_remove_key(prefix, key);
        let rest = assoc_remove_key(prefix, key);
        assert(entries =~= prefix.push(last));
        lemma_assoc_lookup_push(prefix, last.0, last.1);
        if last.0 == key {
            // the result is `rest`; lookups of other keys agree with `prefix`,
            // and pushing `last` onto `prefix` changes no other key
        } else {
            // `last.0` does not occur in `rest`: its entries all come from
            // `prefix`, whose keys differ from `last.0` by uniqueness
            assert(assoc_lookup(rest, last.0) is None) by {
                lemma_remove_key_entries(prefix, key);
                assert forall|m: int| 0 <= m < rest.len() implies (#[trigger] rest[m]).0
                    != last.0 by {
                    let j = choose|j: int|
                        0 <= j < prefix.len() && #[trigger] rest[m] == prefix[j] && prefix[j].0
                            != key;
                    assert(entries[j].0 != entries[entries.len() - 1].0);
                }
                lemma_assoc_lookup_none_iff(rest, last.0);
            }
            lemma_assoc_lookup_push_keeps_unique(rest, last.0, last.1);
            lemma_assoc_lookup_push(rest, last.0, last.1);
        }
    }
}

proof fn lemma_remove_at_one<K, V>(entries: Seq<(K, V)>, i: int, k: K)
    requires
        assoc_unique(entries),
        0 <= i < entries.len(),
    ensures
        assoc_lookup(entries.remove(i), k) == (if k == entries[i].0 {
            None::<V>
        } else {
            assoc_lookup(entries, k)
        }),
    decreases entries.len(),
{
    let removed = entries.remove(i);
    let rest = entries.drop_first();
    assert(forall|m: int| 0 <= m < rest.len() ==> #[trigger] rest[m] == entries[m + 1]);
    if i == 0 {
        assert(removed =~= rest);
        if k == entries[0].0 {
            lemma_assoc_lookup_none_iff(rest, k);
        }
    } else {
        assert(removed[0] == entries[0]);
        assert(removed.drop_first() =~= rest.remove(i - 1));
        assert(rest[i - 1] == entries[i]);
        lemma_remove_at_one(rest, i - 1, k);
        if k == entries[i].0 {
            assert(entries[0].0 != entries[i].0);
        }
    }
}

/// Removing the entry at index `i` empties the lookup of its key, leaves
/// every other key as it was, and keeps the keys unique.
pub proof fn lemma_assoc_remove_at<K, V>(entries: Seq<(K, V)>, i: int)
    requires
        assoc_unique(entries),
        0 <= i < entries.len(),
    ensures
        assoc_unique(entries.remove(i)),
        assoc_lookup(entries.remove(i), entries[i].0) is None,
        forall|k: K|
            k != entries[i].0 ==> #[trigger] assoc_lookup(entries.remove(i), k) == assoc_lookup(
                entries,
                k,
            ),
{
    let removed = entries.remove(i);
    assert(forall|j: int|
        0 <= j < removed.len() ==> #[trigger] removed[j] == (if j < i {
            entries[j]
        } else {
            entries[j + 1]
        }));
    lemma_remove_at_one(entries, i, entries[i].0);
    assert forall|k: K|
        k != entries[i].0 implies #[trigger] assoc_lookup(removed, k) == assoc_lookup(
        entries,
        k,
    ) by {
        lemma_remove_at_one(entries, i, k);
    }
}

/// Removing an absent key changes nothing.
pub proof fn lemma_assoc_remove_key_absent<K, V>(entries: Seq<(K, V)>, key: K)
    requires
        forall|i: int| 0 <= i < entries.len() ==> (#[trigger] entries[i]).0 != key,
    ensures
        assoc_remove_key(entries, key) =~= entries,
    decreases entries.len(),
{
    if entries.len() > 0 {
        let prefix = entries.drop_last();
        assert(forall|m: int| 0 <= m < prefix.len() ==> #[trigger] prefix[m] == entries[m]);
        lemma_assoc_remove_key_absent(prefix, key);
        assert(entries.last() == entries[entries.len() - 1]);
        assert(entries =~= prefix.push(entries.last()));
    }
}

/// Under unique keys, removing the entry at index `i` is removing its key.
pub proof fn lemma_remove_at_is_remove_key<K, V>(entries: Seq<(K, V)>, i: int)
    requires
        assoc_unique(entries),
        0 <= i < entries.len(),
    ensures
        entries.remove(i) =~= assoc_remove_key(entries, entries[i].0),
    decreases entries.len(),
{
    let key = entries[i].0;
    let prefix = entries.drop_last();
    let last = entries.last();
    assert(forall|m: int| 0 <= m < prefix.len() ==> #[trigger] prefix[m] == entries[m]);
    assert(last == entries[entries.len() - 1]);
    if i == entries.len() - 1 {
        assert(entries.remove(i) =~= prefix);
        assert(forall|m: int| 0 <= m < prefix.len() ==> (#[trigger] prefix[m]).0 != key);
        lemma_assoc_remove_key_absent(prefix, key);
    } else {
        assert(last.0 != key);
        lemma_remove_at_is_remove_key(prefix, i);
        assert(entries.remove(i) =~= prefix.remove(i).push(last));
    }
}

/// Pushing a fresh key keeps the keys unique.
pub proof fn lemma_assoc_lookup_push_keeps_unique<K, V>(entries: Seq<(K, V)>, key: K, value: V)
    requires
        assoc_unique(entries),
        assoc_lookup(entries, key) is None,
    ensures
        assoc_unique(entries.push((key, value))),
{
    lemma_assoc_lookup_none_iff(entries, key);
    let pushed = entries.push((key, value));
    assert(forall|i: int| 0 <= i < entries.len() ==> #[trigger] pushed[i] == entries[i]);
}

} // verus!
