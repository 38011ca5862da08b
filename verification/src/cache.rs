//! The cache of finished recoveries: a bounded map that, when full, gives up
//! the entry that was used longest ago.

use crate::types::{outcome_view, AvailableDataView, Hash32, RecoveryError, RecoveryResult};
use lru::LruCache;
use vstd::prelude::*;

verus! {

/// The cache of `lru`, opaque to the verifier.
#[verifier::external_type_specification]
#[verifier::external_body]
#[verifier::reject_recursive_types(K)]
#[verifier::reject_recursive_types(V)]
#[verifier::reject_recursive_types(S)]
pub struct ExLruCache<K, V, S>(LruCache<K, V, S>);

/// An outcome as the cache's contents are spoken of.
pub type OutcomeView = Result<AvailableDataView, RecoveryError>;

/// The entries of a cache, the one used last first: of each the bytes of its
/// key and its outcome.
pub uninterp spec fn cache_entries(cache: LruCache<Hash32, RecoveryResult>) -> Seq<
    (Seq<u8>, OutcomeView),
>;

/// The number of entries that a cache was made for.
pub uninterp spec fn cache_capacity(cache: LruCache<Hash32, RecoveryResult>) -> nat;

/// Whether position `at` is one of `entries` and holds `key`.
pub open spec fn holds_key_at(entries: Seq<(Seq<u8>, OutcomeView)>, key: Seq<u8>, at: int) -> bool {
    0 <= at < entries.len() && entries[at].0 == key
}

/// Whether `entries` has an entry for `key`.
pub open spec fn has_key(entries: Seq<(Seq<u8>, OutcomeView)>, key: Seq<u8>) -> bool {
    exists|at: int| holds_key_at(entries, key, at)
}

/// No two of `entries` have the same key.
pub open spec fn keys_distinct(entries: Seq<(Seq<u8>, OutcomeView)>) -> bool {
    forall|i: int, j: int|
        0 <= i < entries.len() && 0 <= j < entries.len() && i != j ==> (#[trigger] entries[i]).0 != (
        #[trigger] entries[j]).0
}

/// The entries with the one at `at` moved to the front.
pub open spec fn promoted(entries: Seq<(Seq<u8>, OutcomeView)>, at: int) -> Seq<
    (Seq<u8>, OutcomeView),
> {
    seq![entries[at]] + entries.remove(at)
}

/// The entries after `key` was given the outcome `value`, in a cache made for
/// `capacity` entries.
///
/// An entry for the key is replaced and moves to the front. Else the new
/// entry goes to the front, and a full cache gives up its last entry. A cache
/// made for no entry stays empty.
pub open spec fn entries_after_put(
    entries: Seq<(Seq<u8>, OutcomeView)>,
    capacity: nat,
    key: Seq<u8>,
    value: OutcomeView,
) -> Seq<(Seq<u8>, OutcomeView)> {
    if has_key(entries, key) {
        let at = choose|at: int| holds_key_at(entries, key, at);
        seq![(key, value)] + entries.remove(at)
    } else if capacity == 0 {
        entries
    } else if entries.len() == capacity {
        seq![(key, value)] + entries.drop_last()
    } else {
        seq![(key, value)] + entries
    }
}

/// Calls `LruCache::new` of `lru`. Trusted: the cache is empty and made for
/// `capacity` entries.
#[verifier::external_body]
pub(crate) fn new_cache(capacity: usize) -> (cache: LruCache<Hash32, RecoveryResult>)
    ensures
        cache_entries(cache).len() == 0,
        cache_capacity(cache) == capacity,
{
    LruCache::new(capacity)
}

/// Calls `LruCache::get` of `lru`. Trusted: an entry for `key` is returned
/// and moves to the front; without one nothing changes. The capacity stays
/// as it was.
#[verifier::external_body]
pub(crate) fn cache_get<'a>(cache: &'a mut LruCache<Hash32, RecoveryResult>, key: &Hash32) -> (found:
    Option<&'a RecoveryResult>)
    ensures
        cache_capacity(*final(cache)) == cache_capacity(*old(cache)),
        match found {
            Some(outcome) => exists|at: int|
                {
                    &&& #[trigger] holds_key_at(cache_entries(*old(cache)), key@, at)
                    &&& outcome_view(*outcome) == cache_entries(*old(cache))[at].1
                    &&& cache_entries(*final(cache)) == promoted(cache_entries(*old(cache)), at)
                },
            None => {
                &&& !has_key(cache_entries(*old(cache)), key@)
                &&& cache_entries(*final(cache)) == cache_entries(*old(cache))
            },
        },
{
    cache.get(key)
}

/// Calls `LruCache::put` of `lru`. Trusted: the entries change as
/// `entries_after_put` says, the capacity stays, and the outcome that the key
/// had before, if any, is returned.
#[verifier::external_body]
pub(crate) fn cache_put(cache: &mut LruCache<Hash32, RecoveryResult>, key: Hash32, value: RecoveryResult) -> (
    replaced: Option<RecoveryResult>)
    ensures
        cache_capacity(*final(cache)) == cache_capacity(*old(cache)),
        cache_entries(*final(cache)) == entries_after_put(
            cache_entries(*old(cache)),
            cache_capacity(*old(cache)),
            key@,
            outcome_view(value),
        ),
        match replaced {
            Some(outcome) => exists|at: int|
                {
                    &&& #[trigger] holds_key_at(cache_entries(*old(cache)), key@, at)
                    &&& outcome_view(outcome) == cache_entries(*old(cache))[at].1
                },
            None => !has_key(cache_entries(*old(cache)), key@),
        },
{
    cache.put(key, value)
}

/// After a put the keys are distinct again, the entries are no more than the
/// capacity, and the key has the outcome it was given, at the front.
pub proof fn lemma_put_keeps_bounds(
    entries: Seq<(Seq<u8>, OutcomeView)>,
    capacity: nat,
    key: Seq<u8>,
    value: OutcomeView,
)
    requires
        keys_distinct(entries),
        entries.len() <= capacity,
    ensures
        keys_distinct(entries_after_put(entries, capacity, key, value)),
        entries_after_put(entries, capacity, key, value).len() <= capacity,
        capacity > 0 ==> entries_after_put(entries, capacity, key, value).len() > 0
            && entries_after_put(entries, capacity, key, value)[0] == (key, value),
{
    let after = entries_after_put(entries, capacity, key, value);
    if has_key(entries, key) {
        let at = choose|at: int| holds_key_at(entries, key, at);
        assert(holds_key_at(entries, key, at));
        let rest = entries.remove(at);
        assert forall|i: int| 0 <= i < rest.len() implies (#[trigger] rest[i]).0 != key && rest[i]
            == entries[if i < at {
            i
        } else {
            i + 1
        }] by {}
        assert forall|i: int, j: int|
            0 <= i < after.len() && 0 <= j < after.len() && i != j implies (#[trigger] after[i]).0
            != (#[trigger] after[j]).0 by {
            if i > 0 {
                assert(after[i] == rest[i - 1]);
            }
            if j > 0 {
                assert(after[j] == rest[j - 1]);
            }
        }
    } else if capacity > 0 {
        let rest = if entries.len() == capacity {
            entries.drop_last()
        } else {
            entries
        };
        assert forall|i: int| 0 <= i < rest.len() implies (#[trigger] rest[i]).0 != key && rest[i]
            == entries[i] by {
            assert(!holds_key_at(entries, key, i));
        }
        assert forall|i: int, j: int|
            0 <= i < after.len() && 0 <= j < after.len() && i != j implies (#[trigger] after[i]).0
            != (#[trigger] after[j]).0 by {
            if i > 0 {
                assert(after[i] == rest[i - 1]);
            }
            if j > 0 {
                assert(after[j] == rest[j - 1]);
            }
        }
    }
}

/// Moving an entry to the front keeps the keys distinct, the number of
/// entries, and every key's outcome.
pub proof fn lemma_promoted_keeps_entries(entries: Seq<(Seq<u8>, OutcomeView)>, at: int)
    requires
        keys_distinct(entries),
        0 <= at < entries.len(),
    ensures
        keys_distinct(promoted(entries, at)),
        promoted(entries, at).len() == entries.len(),
        promoted(entries, at)[0] == entries[at],
        forall|i: int|
            0 <= i < entries.len() ==> exists|j: int|
                0 <= j < entries.len() && promoted(entries, at)[j] == #[trigger] entries[i],
{
    let after = promoted(entries, at);
    assert forall|i: int| 0 <= i < after.len() implies #[trigger] after[i] == entries[if i == 0 {
        at
    } else if i <= at {
        i - 1
    } else {
        i
    }] by {}
    assert forall|i: int| 0 <= i < entries.len() implies exists|j: int|
        0 <= j < entries.len() && after[j] == #[trigger] entries[i] by {
        let j = if i == at {
            0
        } else if i < at {
            i + 1
        } else {
            i
        };
        assert(after[j] == entries[i]);
    }
}

} // verus!
