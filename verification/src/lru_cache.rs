//! Least-recently-used caches: what `lru::LruCache` holds, most recently used entry first.

use lru::LruCache;
use vstd::prelude::*;

verus! {

// ---------------------------------------------------------------------------
// The model: a sequence of key-value pairs, most recently used first.
// ---------------------------------------------------------------------------

/// The index of the entry with the given key, or the number of entries when there is none.
pub open spec fn position<V>(entries: Seq<(Seq<char>, V)>, key: Seq<char>) -> int
    decreases entries.len(),
{
    if entries.len() == 0 {
        0
    } else if entries[0].0 == key {
        0
    } else {
        1 + position(entries.drop_first(), key)
    }
}

/// Whether some entry has the key.
pub open spec fn holds_key<V>(entries: Seq<(Seq<char>, V)>, key: Seq<char>) -> bool {
    position(entries, key) < entries.len()
}

/// The value stored under a key.
pub open spec fn lookup<V>(entries: Seq<(Seq<char>, V)>, key: Seq<char>) -> Option<V> {
    if holds_key(entries, key) {
        Some(entries[position(entries, key)].1)
    } else {
        None
    }
}

/// The entries without the one under the key.
pub open spec fn without<V>(entries: Seq<(Seq<char>, V)>, key: Seq<char>) -> Seq<(Seq<char>, V)> {
    if holds_key(entries, key) {
        entries.remove(position(entries, key))
    } else {
        entries
    }
}

/// The entries after the one under the key was used.
pub open spec fn touched<V>(entries: Seq<(Seq<char>, V)>, key: Seq<char>) -> Seq<(Seq<char>, V)> {
    if holds_key(entries, key) {
        seq![entries[position(entries, key)]] + without(entries, key)
    } else {
        entries
    }
}

/// The entries after a value was stored under a key: it comes first, in place of an earlier value
/// of that key, or of the least recently used entry of a full cache.
pub open spec fn stored<V>(
    entries: Seq<(Seq<char>, V)>,
    capacity: nat,
    key: Seq<char>,
    value: V,
) -> Seq<(Seq<char>, V)> {
    if holds_key(entries, key) {
        seq![(key, value)] + without(entries, key)
    } else if entries.len() == capacity {
        seq![(key, value)] + entries.drop_last()
    } else {
        seq![(key, value)] + entries
    }
}

/// The `count` most recently used entries.
pub open spec fn recent<V>(entries: Seq<(Seq<char>, V)>, count: nat) -> Seq<(Seq<char>, V)> {
    if entries.len() > count {
        entries.take(count as int)
    } else {
        entries
    }
}

/// Each key occurs once, and no more entries than the capacity allows.
pub open spec fn well_kept<V>(entries: Seq<(Seq<char>, V)>, capacity: nat) -> bool {
    &&& capacity > 0
    &&& entries.len() <= capacity
    &&& forall|i: int, j: int|
        0 <= i < j < entries.len() ==> (#[trigger] entries[i]).0 != (#[trigger] entries[j]).0
}

/// `position` is the least index of the key.
pub proof fn lemma_position<V>(entries: Seq<(Seq<char>, V)>, key: Seq<char>)
    ensures
        0 <= position(entries, key) <= entries.len(),
        holds_key(entries, key) ==> entries[position(entries, key)].0 == key,
        forall|j: int| 0 <= j < position(entries, key) ==> (#[trigger] entries[j]).0 != key,
    decreases entries.len(),
{
    if entries.len() > 0 && entries[0].0 != key {
        let rest = entries.drop_first();
        lemma_position(rest, key);
        assert forall|j: int| 0 <= j < position(entries, key) implies (#[trigger] entries[j]).0
            != key by {
            if j > 0 {
                assert(rest[j - 1] == entries[j]);
            }
        }
        if holds_key(rest, key) {
            assert(rest[position(rest, key)] == entries[position(entries, key)]);
        }
    }
}

/// The only index that can hold a key in a cache is its `position`.
pub proof fn lemma_position_unique<V>(
    entries: Seq<(Seq<char>, V)>,
    capacity: nat,
    key: Seq<char>,
    i: int,
)
    requires
        well_kept(entries, capacity),
        0 <= i < entries.len(),
        entries[i].0 == key,
    ensures
        position(entries, key) == i,
{
    lemma_position(entries, key);
}

/// A key that no entry has is not held.
proof fn lemma_absent<V>(entries: Seq<(Seq<char>, V)>, key: Seq<char>)
    requires
        forall|j: int| 0 <= j < entries.len() ==> (#[trigger] entries[j]).0 != key,
    ensures
        !holds_key(entries, key),
{
    lemma_position(entries, key);
}

/// Taking an entry out keeps the rest, and the key is gone.
pub proof fn lemma_without<V>(entries: Seq<(Seq<char>, V)>, capacity: nat, key: Seq<char>)
    requires
        well_kept(entries, capacity),
    ensures
        well_kept(without(entries, key), capacity),
        !holds_key(without(entries, key), key),
        forall|other: Seq<char>|
            other != key ==> #[trigger] lookup(without(entries, key), other) == lookup(
                entries,
                other,
            ),
{
    lemma_position(entries, key);
    let left = without(entries, key);
    let at = position(entries, key);
    assert forall|j: int| 0 <= j < left.len() implies (#[trigger] left[j]).0 != key by {
        if at < entries.len() {
            if j < at {
                assert(left[j] == entries[j]);
            } else {
                assert(left[j] == entries[j + 1]);
                assert(entries[at].0 != entries[j + 1].0);
            }
        }
    }
    lemma_absent(left, key);
    assert forall|other: Seq<char>| other != key implies #[trigger] lookup(left, other) == lookup(
        entries,
        other,
    ) by {
        lemma_position(entries, other);
        lemma_position(left, other);
        let there = position(entries, other);
        if at < entries.len() {
            if there < entries.len() {
                let moved = if there < at {
                    there
                } else {
                    there - 1
                };
                assert(left[moved] == entries[there]);
                lemma_position_unique(left, capacity, other, moved);
            } else {
                assert forall|j: int| 0 <= j < left.len() implies (#[trigger] left[j]).0
                    != other by {
                    if j < at {
                        assert(left[j] == entries[j]);
                    } else {
                        assert(left[j] == entries[j + 1]);
                    }
                }
                lemma_absent(left, other);
            }
        }
    }
}

/// Putting an entry with a new key in front leaves every other lookup as it was.
proof fn lemma_prepend<V>(entries: Seq<(Seq<char>, V)>, capacity: nat, key: Seq<char>, value: V)
    requires
        well_kept(entries, capacity),
        !holds_key(entries, key),
        entries.len() < capacity,
    ensures
        well_kept(seq![(key, value)] + entries, capacity),
        lookup(seq![(key, value)] + entries, key) == Some(value),
        forall|other: Seq<char>|
            other != key ==> #[trigger] lookup(seq![(key, value)] + entries, other) == lookup(
                entries,
                other,
            ),
{
    let all = seq![(key, value)] + entries;
    lemma_position(entries, key);
    assert forall|i: int, j: int| 0 <= i < j < all.len() implies (#[trigger] all[i]).0 != (
    #[trigger] all[j]).0 by {
        assert(all[j] == entries[j - 1]);
        if i > 0 {
            assert(all[i] == entries[i - 1]);
        }
    }
    assert(all[0].0 == key);
    lemma_position_unique(all, capacity, key, 0);
    assert forall|other: Seq<char>| other != key implies #[trigger] lookup(all, other) == lookup(
        entries,
        other,
    ) by {
        assert(all.drop_first() =~= entries);
        assert(all[0].0 != other);
        assert(position(all, other) == 1 + position(entries, other));
        lemma_position(entries, other);
        if holds_key(entries, other) {
            assert(all[position(all, other)] == entries[position(entries, other)]);
        }
    }
}

/// Keeping the most recent entries keeps them well.
pub proof fn lemma_recent<V>(entries: Seq<(Seq<char>, V)>, capacity: nat, count: nat)
    requires
        well_kept(entries, capacity),
    ensures
        well_kept(recent(entries, count), capacity),
        count > 0 ==> well_kept(recent(entries, count), count),
        forall|key: Seq<char>|
            #[trigger] lookup(recent(entries, count), key) == if position(entries, key) < count {
                lookup(entries, key)
            } else {
                None
            },
{
    let kept = recent(entries, count);
    assert(forall|j: int| 0 <= j < kept.len() ==> kept[j] == entries[j]);
    assert forall|key: Seq<char>| #[trigger] lookup(kept, key) == (if position(entries, key)
        < count {
        lookup(entries, key)
    } else {
        None
    }) by {
        lemma_position(entries, key);
        lemma_position(kept, key);
        let at = position(entries, key);
        if at < kept.len() {
            assert(kept[at].0 == key);
            lemma_position_unique(kept, capacity, key, at);
        } else {
            assert forall|j: int| 0 <= j < kept.len() implies (#[trigger] kept[j]).0 != key by {
                assert(kept[j] == entries[j]);
            }
            lemma_absent(kept, key);
        }
    }
}

/// A stored value is found under its key, and the cache stays well kept. Another key keeps its
/// value, unless the cache was full and that key was the least recently used.
pub proof fn lemma_stored<V>(entries: Seq<(Seq<char>, V)>, capacity: nat, key: Seq<char>, value: V)
    requires
        well_kept(entries, capacity),
    ensures
        well_kept(stored(entries, capacity, key, value), capacity),
        lookup(stored(entries, capacity, key, value), key) == Some(value),
        forall|other: Seq<char>|
            other != key && (holds_key(entries, key) || entries.len() < capacity || position(
                entries,
                other,
            ) != entries.len() - 1) ==> #[trigger] lookup(
                stored(entries, capacity, key, value),
                other,
            ) == lookup(entries, other),
{
    if holds_key(entries, key) {
        lemma_without(entries, capacity, key);
        lemma_position(entries, key);
        lemma_prepend(without(entries, key), capacity, key, value);
    } else if entries.len() == capacity {
        let kept = entries.drop_last();
        assert(kept =~= recent(entries, (entries.len() - 1) as nat));
        lemma_recent(entries, capacity, (entries.len() - 1) as nat);
        lemma_position(entries, key);
        assert forall|j: int| 0 <= j < kept.len() implies (#[trigger] kept[j]).0 != key by {
            assert(kept[j] == entries[j]);
        }
        lemma_absent(kept, key);
        lemma_prepend(kept, capacity, key, value);
        assert forall|other: Seq<char>|
            other != key && position(entries, other) != entries.len() - 1 implies #[trigger] lookup(
            stored(entries, capacity, key, value),
            other,
        ) == lookup(entries, other) by {
            lemma_position(entries, other);
            assert(lookup(kept, other) == lookup(entries, other));
        }
    } else {
        lemma_prepend(entries, capacity, key, value);
    }
}

/// Using an entry changes no lookup.
pub proof fn lemma_touched<V>(entries: Seq<(Seq<char>, V)>, capacity: nat, key: Seq<char>)
    requires
        well_kept(entries, capacity),
    ensures
        well_kept(touched(entries, key), capacity),
        touched(entries, key).len() == entries.len(),
        forall|other: Seq<char>| #[trigger]
            lookup(touched(entries, key), other) == lookup(entries, other),
{
    if holds_key(entries, key) {
        lemma_position(entries, key);
        lemma_without(entries, capacity, key);
        let entry = entries[position(entries, key)];
        assert(entry == (key, entry.1));
        lemma_prepend(without(entries, key), capacity, key, entry.1);
    }
}

// ---------------------------------------------------------------------------
// The caches of the `lru` crate.
// ---------------------------------------------------------------------------

/// The cache type of the `lru` crate.
#[verifier::external_type_specification]
#[verifier::external_body]
#[verifier::reject_recursive_types(K)]
#[verifier::reject_recursive_types(V)]
#[verifier::reject_recursive_types(S)]
pub struct ExLruCache<K, V, S>(LruCache<K, V, S>);

/// The hasher of the `lru` crate's caches.
#[verifier::external_type_specification]
#[verifier::external_body]
pub struct ExDefaultHasher(lru::DefaultHasher);

/// One cached result: the fingerprint of the text and the dependency epoch it was made for, and
/// the number under which its owner keeps the result itself.
#[derive(Clone, Copy, Debug, PartialEq, Eq, Structural)]
pub struct CacheEntry {
    pub hash: u64,
    pub epoch: u64,
    pub value: u64,
}

/// The entries of a result cache, most recently used first.
pub uninterp spec fn cache_entries(cache: LruCache<String, CacheEntry>) -> Seq<
    (Seq<char>, CacheEntry),
>;

/// How many entries a result cache may hold.
pub uninterp spec fn cache_capacity(cache: LruCache<String, CacheEntry>) -> nat;

/// `LruCache::new`: an empty cache of the given capacity. The table is allocated at once, so the
/// capacity is one for which its size in bytes can be computed.
#[verifier::external_body]
pub(crate) fn cache_new(capacity: usize) -> (r: LruCache<String, CacheEntry>)
    requires
        0 < capacity,
        capacity * 64 <= isize::MAX,
    ensures
        cache_entries(r) == Seq::<(Seq<char>, CacheEntry)>::empty(),
        cache_capacity(r) == capacity,
{
    LruCache::new(std::num::NonZeroUsize::new(capacity).unwrap())
}

/// `LruCache::get`: the value under the key; the entry becomes the most recently used.
#[verifier::external_body]
pub(crate) fn cache_get(cache: &mut LruCache<String, CacheEntry>, key: &str) -> (r: Option<
    CacheEntry,
>)
    ensures
        r == lookup(cache_entries(*old(cache)), key@),
        cache_entries(*final(cache)) == touched(cache_entries(*old(cache)), key@),
        cache_capacity(*final(cache)) == cache_capacity(*old(cache)),
{
    cache.get(key).copied()
}

/// `LruCache::peek`: the value under the key; the order of use stays.
#[verifier::external_body]
pub(crate) fn cache_peek(cache: &LruCache<String, CacheEntry>, key: &str) -> (r: Option<CacheEntry>)
    ensures
        r == lookup(cache_entries(*cache), key@),
{
    cache.peek(key).copied()
}

/// `LruCache::put`: the value replaces an earlier one under the key; a full cache gives up its
/// least recently used entry for a new key.
#[verifier::external_body]
pub(crate) fn cache_put(cache: &mut LruCache<String, CacheEntry>, key: String, value: CacheEntry)
    ensures
        cache_entries(*final(cache)) == stored(
            cache_entries(*old(cache)),
            cache_capacity(*old(cache)),
            key@,
            value,
        ),
        cache_capacity(*final(cache)) == cache_capacity(*old(cache)),
{
    let _ = cache.put(key, value);
}

/// `LruCache::pop`: the entry under the key is taken out.
#[verifier::external_body]
pub(crate) fn cache_pop(cache: &mut LruCache<String, CacheEntry>, key: &str) -> (r: Option<
    CacheEntry,
>)
    ensures
        r == lookup(cache_entries(*old(cache)), key@),
        cache_entries(*final(cache)) == without(cache_entries(*old(cache)), key@),
        cache_capacity(*final(cache)) == cache_capacity(*old(cache)),
{
    cache.pop(key)
}

/// `LruCache::pop_lru`: the least recently used entry is taken out, where there is one.
#[verifier::external_body]
pub(crate) fn cache_pop_lru(cache: &mut LruCache<String, CacheEntry>) -> (r: Option<
    (String, CacheEntry),
>)
    ensures
        r is Some == (cache_entries(*old(cache)).len() > 0),
        r matches Some(entry) ==> (entry.0@, entry.1) == cache_entries(*old(cache)).last(),
        r is Some ==> cache_entries(*final(cache)) == cache_entries(*old(cache)).drop_last(),
        r is None ==> cache_entries(*final(cache)) == cache_entries(*old(cache)),
        cache_capacity(*final(cache)) == cache_capacity(*old(cache)),
{
    cache.pop_lru()
}

/// `LruCache::len`: the number of entries.
#[verifier::external_body]
pub(crate) fn cache_len(cache: &LruCache<String, CacheEntry>) -> (r: usize)
    ensures
        r == cache_entries(*cache).len(),
{
    cache.len()
}

/// `LruCache::resize`: the capacity changes; entries past it are dropped, least recently used
/// first.
#[verifier::external_body]
pub(crate) fn cache_resize(cache: &mut LruCache<String, CacheEntry>, capacity: usize)
    requires
        0 < capacity,
    ensures
        cache_capacity(*final(cache)) == capacity,
        cache_entries(*old(cache)).len() <= cache_capacity(*old(cache)) ==> cache_entries(
            *final(cache),
        ) == recent(cache_entries(*old(cache)), capacity as nat),
{
    cache.resize(std::num::NonZeroUsize::new(capacity).unwrap());
}

/// `LruCache::clear`: no entry stays.
#[verifier::external_body]
pub(crate) fn cache_clear(cache: &mut LruCache<String, CacheEntry>)
    ensures
        cache_entries(*final(cache)) == Seq::<(Seq<char>, CacheEntry)>::empty(),
        cache_capacity(*final(cache)) == cache_capacity(*old(cache)),
{
    cache.clear();
}

/// The entries of a path memo, most recently used first.
pub uninterp spec fn memo_entries(cache: LruCache<String, String>) -> Seq<(Seq<char>, Seq<char>)>;

/// How many entries a path memo may hold.
pub uninterp spec fn memo_capacity(cache: LruCache<String, String>) -> nat;

/// `LruCache::new` for a memo of paths, with the bound on the capacity of a result cache.
#[verifier::external_body]
pub(crate) fn memo_new(capacity: usize) -> (r: LruCache<String, String>)
    requires
        0 < capacity,
        capacity * 64 <= isize::MAX,
    ensures
        memo_entries(r) == Seq::<(Seq<char>, Seq<char>)>::empty(),
        memo_capacity(r) == capacity,
{
    LruCache::new(std::num::NonZeroUsize::new(capacity).unwrap())
}

/// `LruCache::get` for a memo of paths.
#[verifier::external_body]
pub(crate) fn memo_get(cache: &mut LruCache<String, String>, key: &str) -> (r: Option<String>)
    ensures
        r is Some == lookup(memo_entries(*old(cache)), key@) is Some,
        r matches Some(value) ==> Some(value@) == lookup(memo_entries(*old(cache)), key@),
        memo_entries(*final(cache)) == touched(memo_entries(*old(cache)), key@),
        memo_capacity(*final(cache)) == memo_capacity(*old(cache)),
{
    cache.get(key).cloned()
}

/// `LruCache::put` for a memo of paths.
#[verifier::external_body]
pub(crate) fn memo_put(cache: &mut LruCache<String, String>, key: String, value: String)
    ensures
        memo_entries(*final(cache)) == stored(
            memo_entries(*old(cache)),
            memo_capacity(*old(cache)),
            key@,
            value@,
        ),
        memo_capacity(*final(cache)) == memo_capacity(*old(cache)),
{
    let _ = cache.put(key, value);
}

/// What was stored or used last comes first, and the others keep their order.
pub proof fn lemma_last_used_comes_first<V>(
    entries: Seq<(Seq<char>, V)>,
    capacity: nat,
    key: Seq<char>,
    value: V,
)
    requires
        well_kept(entries, capacity),
    ensures
        stored(entries, capacity, key, value)[0] == (key, value),
        holds_key(entries, key) ==> touched(entries, key)[0].0 == key,
        !holds_key(entries, key) && entries.len() < capacity ==> stored(
            entries,
            capacity,
            key,
            value,
        ).skip(1) == entries,
        !holds_key(entries, key) && entries.len() == capacity ==> stored(
            entries,
            capacity,
            key,
            value,
        ).skip(1) == entries.take(entries.len() - 1),
{
    lemma_position(entries, key);
    let after = stored(entries, capacity, key, value);
    if !holds_key(entries, key) {
        if entries.len() < capacity {
            assert(after.skip(1) =~= entries);
        } else {
            assert(after.skip(1) =~= entries.take(entries.len() - 1));
        }
    }
}

} // verus!
