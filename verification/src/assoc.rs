//! Entries under keys that occur once, in no particular order.
use vstd::prelude::*;

verus! {

/// The map that entries make up.
pub open spec fn assoc<K, V>(entries: Seq<(K, V)>) -> Map<K, V>
    decreases entries.len(),
{
    if entries.len() == 0 {
        Map::empty()
    } else {
        assoc(entries.drop_last()).insert(entries.last().0, entries.last().1)
    }
}

/// Whether no key occurs twice.
pub open spec fn unique_keys<K, V>(entries: Seq<(K, V)>) -> bool {
    forall|i: int, j: int|
        0 <= i < j < entries.len() ==> (#[trigger] entries[i]).0 != (#[trigger] entries[j]).0
}

/// A key is in the map where an entry has it.
pub proof fn lemma_assoc_key<K, V>(entries: Seq<(K, V)>, key: K)
    ensures
        assoc(entries).contains_key(key) <==> exists|i: int|
            0 <= i < entries.len() && (#[trigger] entries[i]).0 == key,
    decreases entries.len(),
{
    if entries.len() > 0 {
        let before = entries.drop_last();
        lemma_assoc_key(before, key);
        if assoc(before).contains_key(key) {
            let i = choose|i: int| 0 <= i < before.len() && (#[trigger] before[i]).0 == key;
            assert(entries[i] == before[i]);
        }
        if exists|i: int| 0 <= i < entries.len() && (#[trigger] entries[i]).0 == key {
            let i = choose|i: int| 0 <= i < entries.len() && (#[trigger] entries[i]).0 == key;
            if i < before.len() {
                assert(before[i] == entries[i]);
            }
        }
        if entries.last().0 == key {
            assert(entries[entries.len() - 1].0 == key);
        }
    }
}

/// The map holds every entry.
pub proof fn lemma_assoc_entry<K, V>(entries: Seq<(K, V)>, i: int)
    requires
        unique_keys(entries),
        0 <= i < entries.len(),
    ensures
        assoc(entries).contains_key(entries[i].0),
        assoc(entries)[entries[i].0] == entries[i].1,
    decreases entries.len(),
{
    let before = entries.drop_last();
    assert forall|a: int, b: int| 0 <= a < b < before.len() implies (#[trigger] before[a]).0 != (
    #[trigger] before[b]).0 by {
        assert(entries[a].0 != entries[b].0);
    }
    if i < before.len() {
        lemma_assoc_entry(before, i);
        assert(before[i] == entries[i]);
        assert(entries[i].0 != entries[entries.len() - 1].0);
    }
}

/// One more entry is one more key.
pub proof fn lemma_assoc_push<K, V>(entries: Seq<(K, V)>, key: K, value: V)
    ensures
        assoc(entries.push((key, value))) == assoc(entries).insert(key, value),
        unique_keys(entries) && !assoc(entries).contains_key(key) ==> unique_keys(
            entries.push((key, value)),
        ),
{
    let after = entries.push((key, value));
    assert(after.drop_last() =~= entries);
    if unique_keys(entries) && !assoc(entries).contains_key(key) {
        lemma_assoc_key(entries, key);
        assert forall|a: int, b: int| 0 <= a < b < after.len() implies (#[trigger] after[a]).0 != (
        #[trigger] after[b]).0 by {
            assert(entries[a] == after[a]);
            if b < entries.len() {
                assert(entries[b] == after[b]);
            }
        }
    }
}

/// One entry less is one key less.
pub proof fn lemma_assoc_remove<K, V>(entries: Seq<(K, V)>, at: int)
    requires
        unique_keys(entries),
        0 <= at < entries.len(),
    ensures
        assoc(entries.remove(at)) == assoc(entries).remove(entries[at].0),
        unique_keys(entries.remove(at)),
{
    let after = entries.remove(at);
    let gone = entries[at].0;
    assert forall|a: int, b: int| 0 <= a < b < after.len() implies (#[trigger] after[a]).0 != (
    #[trigger] after[b]).0 by {
        let x = if a < at {
            a
        } else {
            a + 1
        };
        let y = if b < at {
            b
        } else {
            b + 1
        };
        assert(after[a] == entries[x]);
        assert(after[b] == entries[y]);
        assert(entries[x].0 != entries[y].0);
    }
    assert forall|key: K| #[trigger] assoc(after).contains_key(key) == assoc(entries).remove(
        gone,
    ).contains_key(key) by {
        lemma_assoc_key(after, key);
        lemma_assoc_key(entries, key);
        if assoc(after).contains_key(key) {
            let i = choose|i: int| 0 <= i < after.len() && (#[trigger] after[i]).0 == key;
            let x = if i < at {
                i
            } else {
                i + 1
            };
            assert(after[i] == entries[x]);
            if x < at {
                assert(entries[x].0 != entries[at].0);
            } else {
                assert(entries[at].0 != entries[x].0);
            }
        }
        if assoc(entries).contains_key(key) && key != gone {
            let i = choose|i: int| 0 <= i < entries.len() && (#[trigger] entries[i]).0 == key;
            let x = if i < at {
                i
            } else {
                i - 1
            };
            assert(after[x] == entries[i]);
        }
    }
    assert forall|key: K| assoc(after).contains_key(key) implies #[trigger] assoc(after)[key]
        == assoc(entries).remove(gone)[key] by {
        lemma_assoc_key(after, key);
        let i = choose|i: int| 0 <= i < after.len() && (#[trigger] after[i]).0 == key;
        let x = if i < at {
            i
        } else {
            i + 1
        };
        assert(after[i] == entries[x]);
        lemma_assoc_entry(after, i);
        lemma_assoc_entry(entries, x);
        if x < at {
            assert(entries[x].0 != entries[at].0);
        } else {
            assert(entries[at].0 != entries[x].0);
        }
    }
    assert(assoc(after) =~= assoc(entries).remove(gone));
}

/// A changed entry is a changed value.
pub proof fn lemma_assoc_update<K, V>(entries: Seq<(K, V)>, at: int, value: V)
    requires
        unique_keys(entries),
        0 <= at < entries.len(),
    ensures
        assoc(entries.update(at, (entries[at].0, value))) == assoc(entries).insert(
            entries[at].0,
            value,
        ),
        unique_keys(entries.update(at, (entries[at].0, value))),
    decreases entries.len(),
{
    let key = entries[at].0;
    let after = entries.update(at, (key, value));
    assert forall|a: int, b: int| 0 <= a < b < after.len() implies (#[trigger] after[a]).0 != (
    #[trigger] after[b]).0 by {
        assert(entries[a].0 != entries[b].0);
    }
    let before = entries.drop_last();
    assert forall|a: int, b: int| 0 <= a < b < before.len() implies (#[trigger] before[a]).0 != (
    #[trigger] before[b]).0 by {
        assert(entries[a].0 != entries[b].0);
    }
    if at == entries.len() - 1 {
        assert(after.drop_last() =~= before);
        assert(assoc(after) =~= assoc(entries).insert(key, value));
    } else {
        lemma_assoc_update(before, at, value);
        assert(after.drop_last() =~= before.update(at, (before[at].0, value)));
        assert(entries[at].0 != entries[entries.len() - 1].0);
        assert(assoc(after) =~= assoc(entries).insert(key, value));
    }
}

/// Where the entry under `key` stands.
pub fn find_signed<V>(entries: &Vec<(i64, V)>, key: i64) -> (found: Option<usize>)
    requires
        unique_keys(entries@),
    ensures
        match found {
            Some(at) => at < entries.len() && entries[at as int].0 == key && assoc(
                entries@,
            ).contains_key(key) && assoc(entries@)[key] == entries[at as int].1,
            None => !assoc(entries@).contains_key(key),
        },
{
    let mut i: usize = 0;
    while i < entries.len()
        invariant
            i <= entries.len(),
            unique_keys(entries@),
            forall|j: int| 0 <= j < i ==> (#[trigger] entries[j]).0 != key,
        decreases entries.len() - i,
    {
        if entries[i].0 == key {
            proof {
                lemma_assoc_entry(entries@, i as int);
            }
            return Some(i);
        }
        i += 1;
    }
    proof {
        lemma_assoc_key(entries@, key);
    }
    None
}

/// Where the entry under `key` stands.
pub fn find_unsigned<V>(entries: &Vec<(u64, V)>, key: u64) -> (found: Option<usize>)
    requires
        unique_keys(entries@),
    ensures
        match found {
            Some(at) => at < entries.len() && entries[at as int].0 == key && assoc(
                entries@,
            ).contains_key(key) && assoc(entries@)[key] == entries[at as int].1,
            None => !assoc(entries@).contains_key(key),
        },
{
    let mut i: usize = 0;
    while i < entries.len()
        invariant
            i <= entries.len(),
            unique_keys(entries@),
            forall|j: int| 0 <= j < i ==> (#[trigger] entries[j]).0 != key,
        decreases entries.len() - i,
    {
        if entries[i].0 == key {
            proof {
                lemma_assoc_entry(entries@, i as int);
            }
            return Some(i);
        }
        i += 1;
    }
    proof {
        lemma_assoc_key(entries@, key);
    }
    None
}

} // verus!
