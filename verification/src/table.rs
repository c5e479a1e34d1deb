//! Entries under integer keys, kept in the order of the keys.
use vstd::prelude::*;

verus! {

/// How many of the first entries have a key below `key`.
pub open spec fn rank<V>(entries: Seq<(u64, V)>, key: u64) -> int
    decreases entries.len(),
{
    if entries.len() == 0 || entries[0].0 >= key {
        0
    } else {
        1 + rank(entries.skip(1), key)
    }
}

/// The entry under `key`.
pub open spec fn entry<V>(entries: Seq<(u64, V)>, key: u64) -> Option<V> {
    let at = rank(entries, key);
    if at < entries.len() && entries[at].0 == key {
        Some(entries[at].1)
    } else {
        None
    }
}

/// The entries with `value` under `key`.
pub open spec fn put<V>(entries: Seq<(u64, V)>, key: u64, value: V) -> Seq<(u64, V)> {
    let at = rank(entries, key);
    if entry(entries, key) is Some {
        entries.update(at, (key, value))
    } else {
        entries.insert(at, (key, value))
    }
}

/// The entries without the one under `key`.
pub open spec fn erased<V>(entries: Seq<(u64, V)>, key: u64) -> Seq<(u64, V)> {
    if entry(entries, key) is Some {
        entries.remove(rank(entries, key))
    } else {
        entries
    }
}

/// Whether the keys increase.
pub open spec fn ordered<V>(entries: Seq<(u64, V)>) -> bool {
    forall|i: int, j: int| 0 <= i < j < entries.len() ==> entries[i].0 < entries[j].0
}

/// Where `key` stands or would stand.
pub proof fn lemma_rank<V>(entries: Seq<(u64, V)>, key: u64)
    ensures
        0 <= rank(entries, key) <= entries.len(),
        forall|i: int| 0 <= i < rank(entries, key) ==> (#[trigger] entries[i]).0 < key,
        rank(entries, key) < entries.len() ==> entries[rank(entries, key)].0 >= key,
    decreases entries.len(),
{
    if entries.len() > 0 && entries[0].0 < key {
        let rest = entries.skip(1);
        lemma_rank(rest, key);
        assert forall|i: int| 0 <= i < rank(entries, key) implies (#[trigger] entries[i]).0
            < key by {
            if i > 0 {
                assert(rest[i - 1] == entries[i]);
            }
        }
        if rank(entries, key) < entries.len() {
            assert(rest[rank(rest, key)] == entries[rank(entries, key)]);
        }
    }
}

/// The rank is determined by the order alone.
pub proof fn lemma_rank_is<V>(entries: Seq<(u64, V)>, key: u64, at: int)
    requires
        0 <= at <= entries.len(),
        forall|i: int| 0 <= i < at ==> (#[trigger] entries[i]).0 < key,
        at < entries.len() ==> entries[at].0 >= key,
    ensures
        rank(entries, key) == at,
{
    lemma_rank(entries, key);
    let found = rank(entries, key);
    if found < at {
        assert(entries[found].0 < key);
    }
    if at < found {
        assert(entries[at].0 < key);
    }
}

/// The rank depends on the keys alone.
pub proof fn lemma_same_keys<A, B>(left: Seq<(u64, A)>, right: Seq<(u64, B)>, key: u64)
    requires
        left.len() == right.len(),
        forall|i: int| 0 <= i < left.len() ==> (#[trigger] left[i]).0 == right[i].0,
    ensures
        rank(left, key) == rank(right, key),
        (entry(left, key) is Some) == (entry(right, key) is Some),
{
    lemma_rank(left, key);
    let at = rank(left, key);
    assert forall|i: int| 0 <= i < at implies (#[trigger] right[i]).0 < key by {
        assert(left[i].0 == right[i].0);
    }
    if at < right.len() {
        assert(left[at].0 == right[at].0);
    }
    lemma_rank_is(right, key, at);
}

/// What was put under a key is found under it, and what stands under the other
/// keys stays; the order of the keys is kept.
pub proof fn law_put_then_entry<V>(entries: Seq<(u64, V)>, key: u64, value: V, other: u64)
    requires
        ordered(entries),
    ensures
        ordered(put(entries, key, value)),
        entry(put(entries, key, value), key) == Some(value),
        other != key ==> entry(put(entries, key, value), other) == entry(entries, other),
{
    lemma_rank(entries, key);
    lemma_rank(entries, other);
    let at = rank(entries, key);
    let there = rank(entries, other);
    let after = put(entries, key, value);
    lemma_rank_is(after, key, at);
    if other != key {
        if entry(entries, key) is Some {
            lemma_rank_is(after, other, there);
        } else if other < key {
            assert(there <= at) by {
                if there > at {
                    assert(entries[at].0 < other);
                }
            }
            lemma_rank_is(after, other, there);
        } else {
            assert(at <= there) by {
                if there < at {
                    assert(entries[there].0 < key);
                }
            }
            assert forall|i: int| 0 <= i < there + 1 implies (#[trigger] after[i]).0 < other by {
                if i > at {
                    assert(after[i] == entries[i - 1]);
                }
            }
            lemma_rank_is(after, other, there + 1);
        }
    }
}

/// What was erased is gone, and what stands under the other keys stays; the
/// order of the keys is kept.
pub proof fn law_erase_then_entry<V>(entries: Seq<(u64, V)>, key: u64, other: u64)
    requires
        ordered(entries),
    ensures
        ordered(erased(entries, key)),
        entry(erased(entries, key), key) is None,
        other != key ==> entry(erased(entries, key), other) == entry(entries, other),
{
    lemma_rank(entries, key);
    lemma_rank(entries, other);
    let at = rank(entries, key);
    let there = rank(entries, other);
    let after = erased(entries, key);
    if entry(entries, key) is Some {
        assert(forall|i: int| at <= i < after.len() ==> after[i] == entries[i + 1]);
        lemma_rank_is(after, key, at);
        if other < key {
            assert(there <= at) by {
                if there > at {
                    assert(entries[at].0 < other);
                }
            }
            lemma_rank_is(after, other, there);
        } else if other > key {
            assert(at < there) by {
                if there <= at && there < entries.len() {
                    if there < at {
                        assert(entries[there].0 < key);
                    }
                }
            }
            assert forall|i: int| 0 <= i < there - 1 implies (#[trigger] after[i]).0 < other by {
                if i >= at {
                    assert(after[i] == entries[i + 1]);
                }
            }
            lemma_rank_is(after, other, there - 1);
        }
    }
}

/// Where `key` stands or would stand.
pub fn position<V>(entries: &Vec<(u64, V)>, key: u64) -> (at: usize)
    ensures
        at == rank(entries@, key),
        at <= entries.len(),
{
    let mut at: usize = 0;
    while at < entries.len() && entries[at].0 < key
        invariant
            at <= entries.len(),
            forall|i: int| 0 <= i < at ==> (#[trigger] entries[i]).0 < key,
        decreases entries.len() - at,
    {
        at += 1;
    }
    proof {
        lemma_rank_is(entries@, key, at as int);
    }
    at
}

} // verus!
