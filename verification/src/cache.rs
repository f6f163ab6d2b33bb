//! The per-shard cache of computed Fibonacci numbers.

use crate::fibonacci;
use lru::LruCache;
use std::num::NonZeroUsize;
use vstd::prelude::*;

verus! {

/// `lru::LruCache`, a map of bounded size that drops its least recently used
/// entry when it is full.
#[verifier::external_type_specification]
#[verifier::external_body]
#[verifier::reject_recursive_types(K)]
#[verifier::reject_recursive_types(V)]
#[verifier::reject_recursive_types(S)]
pub struct ExLruCache<K, V, S>(lru::LruCache<K, V, S>);

/// `lru::DefaultHasher`, the hasher of a cache that names no other.
#[verifier::external_type_specification]
#[verifier::external_body]
pub struct ExDefaultHasher(lru::DefaultHasher);

/// The entries that an `lru::LruCache` holds, as pairs of key and value, from
/// the most recently used one to the least recently used one.
pub uninterp spec fn lru_entries(cache: LruCache<u64, u64>) -> Seq<(u64, u64)>;

/// The number of entries that an `lru::LruCache` was made to hold at most.
pub uninterp spec fn lru_capacity(cache: LruCache<u64, u64>) -> nat;

/// Some entry has this key.
pub open spec fn has_key(entries: Seq<(u64, u64)>, key: u64) -> bool {
    exists|i: int| 0 <= i < entries.len() && (#[trigger] entries[i]).0 == key
}

/// Where the entry with this key stands.
pub open spec fn position_of(entries: Seq<(u64, u64)>, key: u64) -> int {
    choose|i: int| 0 <= i < entries.len() && (#[trigger] entries[i]).0 == key
}

/// The number stored under this key.
pub open spec fn stored_number(entries: Seq<(u64, u64)>, key: u64) -> Option<u64> {
    if has_key(entries, key) {
        Some(entries[position_of(entries, key)].1)
    } else {
        None
    }
}

/// The entries after `(key, number)` was put in front: the entry of the same key
/// gives way, or else, at full capacity, the last entry does.
pub open spec fn entries_after_put(
    entries: Seq<(u64, u64)>,
    capacity: nat,
    key: u64,
    number: u64,
) -> Seq<(u64, u64)> {
    let kept = if has_key(entries, key) {
        entries.remove(position_of(entries, key))
    } else if entries.len() >= capacity {
        entries.drop_last()
    } else {
        entries
    };
    seq![(key, number)] + kept
}

/// Calls `lru::LruCache::new`: the cache is empty and holds at most `capacity`
/// entries. The call allocates the whole table up front, with some places to
/// spare, and panics if the size of the table in bytes is beyond `isize::MAX`;
/// the bound on `capacity` keeps well clear of that.
#[verifier::external_body]
fn lru_new(capacity: usize) -> (cache: LruCache<u64, u64>)
    requires
        0 < capacity,
        capacity * 128 <= usize::MAX,
    ensures
        lru_entries(cache) == Seq::<(u64, u64)>::empty(),
        lru_capacity(cache) == capacity,
{
    LruCache::new(NonZeroUsize::new(capacity).unwrap())
}

/// Calls `lru::LruCache::get`: the number stored under `key`, if there is one.
/// Its entry becomes the most recently used one, and the others keep their
/// order. Without such an entry nothing changes.
#[verifier::external_body]
fn lru_get(cache: &mut LruCache<u64, u64>, key: u64) -> (found: Option<u64>)
    ensures
        match found {
            Some(number) => {
                &&& lru_entries(*old(cache)).contains((key, number))
                &&& lru_entries(*final(cache)) == entries_after_put(
                    lru_entries(*old(cache)),
                    lru_capacity(*old(cache)),
                    key,
                    number,
                )
            },
            None => {
                &&& !has_key(lru_entries(*old(cache)), key)
                &&& lru_entries(*final(cache)) == lru_entries(*old(cache))
            },
        },
        lru_capacity(*final(cache)) == lru_capacity(*old(cache)),
{
    cache.get(&key).copied()
}

/// Calls `lru::LruCache::put`: the pair becomes the most recently used entry, in
/// place of one with the same key, or else, at full capacity, of the least
/// recently used one. The others keep their order, and the capacity stays.
#[verifier::external_body]
fn lru_put(cache: &mut LruCache<u64, u64>, key: u64, number: u64)
    ensures
        lru_entries(*final(cache)) == entries_after_put(
            lru_entries(*old(cache)),
            lru_capacity(*old(cache)),
            key,
            number,
        ),
        lru_capacity(*final(cache)) == lru_capacity(*old(cache)),
{
    cache.put(key, number);
}

/// No two entries have the same key.
pub open spec fn distinct_keys(entries: Seq<(u64, u64)>) -> bool {
    forall|i: int, j: int|
        0 <= i < j < entries.len() ==> (#[trigger] entries[i]).0 != (#[trigger] entries[j]).0
}

/// Every entry pairs a number with its Fibonacci number.
pub open spec fn fibonacci_entries(entries: Seq<(u64, u64)>) -> bool {
    forall|i: int|
        0 <= i < entries.len() ==> (#[trigger] entries[i]).1 == fibonacci::wrapped_fib(
            entries[i].0 as nat,
        )
}

/// The number that a request for `value` is answered with: the one stored under
/// it, or else its Fibonacci number.
pub open spec fn number_served(entries: Seq<(u64, u64)>, value: u64) -> u64 {
    match stored_number(entries, value) {
        Some(number) => number,
        None => fibonacci::wrapped_fib(value as nat),
    }
}

/// The entries after a request for `value` was served: its number stands in
/// front, whether it was found or computed.
pub open spec fn entries_after_serving(
    entries: Seq<(u64, u64)>,
    capacity: nat,
    value: u64,
) -> Seq<(u64, u64)> {
    entries_after_put(entries, capacity, value, number_served(entries, value))
}

/// The entries after requests for all of `values` were served in turn.
pub open spec fn entries_after_serving_all(
    entries: Seq<(u64, u64)>,
    capacity: nat,
    values: Seq<u64>,
) -> Seq<(u64, u64)>
    decreases values.len(),
{
    if values.len() == 0 {
        entries
    } else {
        entries_after_serving(
            entries_after_serving_all(entries, capacity, values.drop_last()),
            capacity,
            values.last(),
        )
    }
}

/// The keys of the entries, in their order.
pub open spec fn keys(entries: Seq<(u64, u64)>) -> Seq<u64> {
    entries.map_values(|entry: (u64, u64)| entry.0)
}

/// The different values that were asked for, from the one asked for last to the
/// one that was not asked for again for the longest time.
pub open spec fn recently_used(values: Seq<u64>) -> Seq<u64>
    decreases values.len(),
{
    if values.len() == 0 {
        Seq::empty()
    } else {
        let before = recently_used(values.drop_last());
        let value = values.last();
        seq![value] + (if before.contains(value) {
            before.remove(before.index_of(value))
        } else {
            before
        })
    }
}

/// How many of the given values there is room for.
pub open spec fn room(capacity: nat, values: Seq<u64>) -> int {
    if values.len() <= capacity {
        values.len() as int
    } else {
        capacity as int
    }
}

/// A bounded cache of Fibonacci numbers, which drops the least recently used one
/// when it is full.
pub struct FibCache {
    numbers: LruCache<u64, u64>,
}

impl FibCache {
    /// The cached numbers, each behind the number that asks for it, from the
    /// most recently used one to the least recently used one.
    pub closed spec fn entries(self) -> Seq<(u64, u64)> {
        lru_entries(self.numbers)
    }

    /// How many numbers the cache holds at most.
    pub closed spec fn capacity(self) -> nat {
        lru_capacity(self.numbers)
    }

    /// The cache has room for something, is not overfull, and holds at most one
    /// number under each key.
    pub open spec fn wf(self) -> bool {
        &&& self.capacity() > 0
        &&& self.entries().len() <= self.capacity()
        &&& distinct_keys(self.entries())
    }

    /// An empty cache for at most `capacity` numbers. The bound on `capacity` is
    /// that of the table that is allocated for it.
    pub fn new(capacity: usize) -> (cache: FibCache)
        requires
            0 < capacity,
            capacity * 128 <= usize::MAX,
        ensures
            cache.wf(),
            cache.entries() == Seq::<(u64, u64)>::empty(),
            cache.capacity() == capacity,
    {
        FibCache { numbers: lru_new(capacity) }
    }

    /// The number stored under `value`, which counts as used by that.
    pub fn get(&mut self, value: u64) -> (found: Option<u64>)
        requires
            old(self).wf(),
        ensures
            found == stored_number(old(self).entries(), value),
            final(self).wf(),
            final(self).entries() == (match found {
                Some(number) => entries_after_put(
                    old(self).entries(),
                    old(self).capacity(),
                    value,
                    number,
                ),
                None => old(self).entries(),
            }),
            final(self).capacity() == old(self).capacity(),
    {
        let found = lru_get(&mut self.numbers, value);
        proof {
            if let Some(number) = found {
                let i = old(self).entries().index_of((value, number));
                assert(old(self).entries()[i].0 == value);
                lemma_put_keeps_cache_wf(
                    old(self).entries(),
                    old(self).capacity(),
                    value,
                    number,
                );
            }
        }
        found
    }

    /// Stores `number` under `value`.
    pub fn put(&mut self, value: u64, number: u64)
        requires
            old(self).wf(),
        ensures
            final(self).wf(),
            final(self).entries() == entries_after_put(
                old(self).entries(),
                old(self).capacity(),
                value,
                number,
            ),
            final(self).capacity() == old(self).capacity(),
    {
        lru_put(&mut self.numbers, value, number);
        proof {
            lemma_put_keeps_cache_wf(old(self).entries(), old(self).capacity(), value, number);
        }
    }
}

/// Putting an entry in front leaves at most `capacity` entries, all with
/// different keys.
pub proof fn lemma_put_keeps_cache_wf(
    entries: Seq<(u64, u64)>,
    capacity: nat,
    key: u64,
    number: u64,
)
    requires
        capacity > 0,
        entries.len() <= capacity,
        distinct_keys(entries),
    ensures
        entries_after_put(entries, capacity, key, number).len() <= capacity,
        distinct_keys(entries_after_put(entries, capacity, key, number)),
{
    let after = entries_after_put(entries, capacity, key, number);
    let p = position_of(entries, key);
    assert forall|i: int, j: int| 0 <= i < j < after.len() implies (#[trigger] after[i]).0 != (
    #[trigger] after[j]).0 by {
        if has_key(entries, key) {
            let from = if j - 1 < p {
                j - 1
            } else {
                j
            };
            assert(after[j] == entries[from]);
            if i > 0 {
                let other = if i - 1 < p {
                    i - 1
                } else {
                    i
                };
                assert(after[i] == entries[other]);
            }
        } else {
            assert(after[j] == entries[j - 1]);
            if i > 0 {
                assert(after[i] == entries[i - 1]);
            }
        }
    }
}

/// A cache of Fibonacci numbers answers with Fibonacci numbers, and is still one
/// after that.
pub proof fn lemma_serving_keeps_fibonacci_numbers(
    entries: Seq<(u64, u64)>,
    capacity: nat,
    value: u64,
)
    requires
        capacity > 0,
        fibonacci_entries(entries),
    ensures
        number_served(entries, value) == fibonacci::wrapped_fib(value as nat),
        fibonacci_entries(entries_after_serving(entries, capacity, value)),
{
    let after = entries_after_serving(entries, capacity, value);
    let p = position_of(entries, value);
    assert forall|i: int| 0 <= i < after.len() implies (#[trigger] after[i]).1
        == fibonacci::wrapped_fib(after[i].0 as nat) by {
        if i > 0 {
            let from = if has_key(entries, value) && i - 1 >= p {
                i
            } else {
                i - 1
            };
            assert(after[i] == entries[from]);
        }
    }
}

/// A number that was just served is cached.
pub proof fn lemma_served_number_is_cached(entries: Seq<(u64, u64)>, capacity: nat, value: u64)
    ensures
        has_key(entries_after_serving(entries, capacity, value), value),
{
    assert(entries_after_serving(entries, capacity, value)[0].0 == value);
}

/// Asking for the same number again gives the same number and changes nothing.
pub proof fn lemma_serving_again_changes_nothing(
    entries: Seq<(u64, u64)>,
    capacity: nat,
    value: u64,
)
    requires
        capacity > 0,
        entries.len() <= capacity,
        distinct_keys(entries),
    ensures
        number_served(entries_after_serving(entries, capacity, value), value) == number_served(
            entries,
            value,
        ),
        entries_after_serving(entries_after_serving(entries, capacity, value), capacity, value)
            == entries_after_serving(entries, capacity, value),
{
    let after = entries_after_serving(entries, capacity, value);
    lemma_served_number_is_cached(entries, capacity, value);
    lemma_put_keeps_cache_wf(entries, capacity, value, number_served(entries, value));
    assert(after[0].0 == value);
    assert(position_of(after, value) == 0);
    assert(entries_after_serving(after, capacity, value) == after);
}

/// A cached number with `i` more recently used ones before it outlives any
/// requests, as long as there are fewer than the capacity leaves room for behind
/// those `i`.
pub proof fn lemma_cached_number_survives(
    entries: Seq<(u64, u64)>,
    capacity: nat,
    i: int,
    values: Seq<u64>,
)
    requires
        0 <= i < entries.len() <= capacity,
        distinct_keys(entries),
        i + values.len() < capacity,
    ensures
        has_key(entries_after_serving_all(entries, capacity, values), entries[i].0),
{
    lemma_cached_number_moves_back(entries, capacity, i, values);
}

/// Each request moves a cached number back by at most one place.
proof fn lemma_cached_number_moves_back(
    entries: Seq<(u64, u64)>,
    capacity: nat,
    i: int,
    values: Seq<u64>,
)
    requires
        0 <= i < entries.len() <= capacity,
        distinct_keys(entries),
        i + values.len() < capacity,
    ensures
        entries_after_serving_all(entries, capacity, values).len() <= capacity,
        distinct_keys(entries_after_serving_all(entries, capacity, values)),
        exists|j: int|
            0 <= j <= i + values.len() && j < entries_after_serving_all(
                entries,
                capacity,
                values,
            ).len() && (#[trigger] entries_after_serving_all(entries, capacity, values)[j]).0
                == entries[i].0,
    decreases values.len(),
{
    if values.len() > 0 {
        lemma_cached_number_moves_back(entries, capacity, i, values.drop_last());
        let before = entries_after_serving_all(entries, capacity, values.drop_last());
        let after = entries_after_serving_all(entries, capacity, values);
        let value = values.last();
        lemma_put_keeps_cache_wf(before, capacity, value, number_served(before, value));
        let j = choose|j: int|
            0 <= j <= i + values.len() - 1 && j < before.len() && (#[trigger] before[j]).0
                == entries[i].0;
        if value == entries[i].0 {
            assert(after[0].0 == entries[i].0);
        } else if has_key(before, value) && position_of(before, value) < j {
            assert(after[j].0 == entries[i].0);
        } else {
            assert(after[j + 1].0 == entries[i].0);
        }
    } else {
        assert(entries_after_serving_all(entries, capacity, values)[i].0 == entries[i].0);
    }
}

/// In a full cache of two numbers or more, asking for the least recently used
/// one saves it: the next miss drops the one before it.
pub proof fn lemma_hit_renews(entries: Seq<(u64, u64)>, capacity: nat, value: u64)
    requires
        entries.len() == capacity,
        capacity >= 2,
        distinct_keys(entries),
        !has_key(entries, value),
    ensures
        has_key(
            entries_after_serving_all(entries, capacity, seq![entries.last().0, value]),
            entries.last().0,
        ),
        !has_key(
            entries_after_serving_all(entries, capacity, seq![entries.last().0, value]),
            entries[capacity - 2].0,
        ),
{
    let oldest = entries.last().0;
    let values = seq![oldest, value];
    assert(values.drop_last() == seq![oldest]);
    assert(values.drop_last().drop_last() == Seq::<u64>::empty());
    reveal_with_fuel(entries_after_serving_all, 3);
    assert(entries[capacity - 1].0 == oldest);
    assert(position_of(entries, oldest) == capacity - 1);
    let hit = entries_after_serving(entries, capacity, oldest);
    assert(hit == seq![entries.last()] + entries.drop_last());
    assert forall|j: int| 0 <= j < hit.len() implies (#[trigger] hit[j]).0 != value by {
        let from = if j == 0 {
            capacity - 1
        } else {
            j - 1
        };
        assert(hit[j] == entries[from]);
    }
    let after = entries_after_serving(hit, capacity, value);
    assert(after == entries_after_serving_all(entries, capacity, values));
    assert(after[1].0 == oldest);
    assert forall|j: int| 0 <= j < after.len() implies (#[trigger] after[j]).0 != entries[capacity
        - 2].0 by {
        if j == 1 {
            assert(after[j] == entries[capacity - 1]);
        } else if j > 1 {
            assert(after[j] == entries[j - 2]);
        }
    }
}

/// A cache that was empty at first holds exactly the most recently used numbers,
/// in the order of their last use, as many of them as it has room for.
pub proof fn lemma_cache_holds_the_most_recently_used(capacity: nat, values: Seq<u64>)
    requires
        capacity > 0,
    ensures
        recently_used(values).no_duplicates(),
        keys(entries_after_serving_all(Seq::empty(), capacity, values)) == recently_used(
            values,
        ).take(room(capacity, recently_used(values))),
    decreases values.len(),
{
    let empty = Seq::<(u64, u64)>::empty();
    let after = entries_after_serving_all(empty, capacity, values);
    let used = recently_used(values);
    if values.len() == 0 {
        assert(keys(after) == used.take(room(capacity, used)));
    } else {
        lemma_cache_holds_the_most_recently_used(capacity, values.drop_last());
        let before = entries_after_serving_all(empty, capacity, values.drop_last());
        let earlier = recently_used(values.drop_last());
        let value = values.last();
        assert(before.len() == keys(before).len());
        assert forall|i: int| 0 <= i < before.len() implies (#[trigger] before[i]).0 == earlier[i] by {
            assert(keys(before)[i] == before[i].0);
        }
        if has_key(before, value) {
            let p = position_of(before, value);
            assert(earlier[p] == value);
            assert(earlier.index_of(value) == p);
        } else if earlier.contains(value) {
            let p = earlier.index_of(value);
            if p < before.len() {
                assert(before[p].0 == value);
            }
        }
        assert(keys(after) == used.take(room(capacity, used)));
    }
}

/// A key is there exactly if it stands in a pair with some number.
pub proof fn lemma_key_has_a_number(entries: Seq<(u64, u64)>, key: u64)
    ensures
        has_key(entries, key) <==> exists|number: u64| #[trigger] entries.contains((key, number)),
{
    if has_key(entries, key) {
        let i = position_of(entries, key);
        assert(entries.contains((key, entries[i].1)));
    }
    if exists|number: u64| #[trigger] entries.contains((key, number)) {
        let number = choose|number: u64| #[trigger] entries.contains((key, number));
        let i = entries.index_of((key, number));
        assert(entries[i].0 == key);
    }
}

/// A request is served with the number that is stored for it, whatever that is,
/// and with the Fibonacci number if there is none.
pub proof fn lemma_what_is_served(entries: Seq<(u64, u64)>, value: u64, number: u64)
    requires
        distinct_keys(entries),
    ensures
        entries.contains((value, number)) ==> stored_number(entries, value) == Some(number)
            && number_served(entries, value) == number,
        (forall|n: u64| !#[trigger] entries.contains((value, n))) ==> stored_number(entries, value)
            is None && number_served(entries, value) as int == fibonacci::fib(value as nat) as int
            % 0x1_0000_0000_0000_0000,
{
    lemma_key_has_a_number(entries, value);
    if entries.contains((value, number)) {
        let i = entries.index_of((value, number));
        let p = position_of(entries, value);
        assert(entries[i].0 == value);
        assert(entries[p].0 == value);
        assert(i == p);
    }
}

/// The entries of a cache of Fibonacci numbers are pairs of a number and its
/// Fibonacci number.
pub proof fn lemma_fibonacci_entries(entries: Seq<(u64, u64)>, value: u64, number: u64)
    requires
        fibonacci_entries(entries),
        entries.contains((value, number)),
    ensures
        number as int == fibonacci::fib(value as nat) as int % 0x1_0000_0000_0000_0000,
{
    let i = entries.index_of((value, number));
    assert(entries[i] == (value, number));
}

/// Serving a request for a cached number takes its entry out from among the
/// others and puts it in front of them.
pub proof fn lemma_effect_of_a_hit(
    newer: Seq<(u64, u64)>,
    entry: (u64, u64),
    older: Seq<(u64, u64)>,
    capacity: nat,
)
    requires
        distinct_keys(newer + seq![entry] + older),
    ensures
        entries_after_serving(newer + seq![entry] + older, capacity, entry.0) == seq![entry] + newer
            + older,
{
    let entries = newer + seq![entry] + older;
    assert(entries[newer.len() as int] == entry);
    assert(entries.contains(entry));
    lemma_what_is_served(entries, entry.0, entry.1);
    lemma_effect_of_putting_again(newer, entry, older, capacity, entry.1);
}

/// Serving a request for a number that is not cached puts it and its Fibonacci
/// number in front of the others; in a full cache the last of those goes.
pub proof fn lemma_effect_of_a_miss(
    entries: Seq<(u64, u64)>,
    oldest: (u64, u64),
    capacity: nat,
    value: u64,
    number: u64,
)
    requires
        number as int == fibonacci::fib(value as nat) as int % 0x1_0000_0000_0000_0000,
        forall|n: u64| !#[trigger] entries.push(oldest).contains((value, n)),
    ensures
        entries.len() < capacity ==> entries_after_serving(entries, capacity, value) == seq![
            (value, number),
        ] + entries,
        entries.len() + 1 == capacity ==> entries_after_serving(
            entries.push(oldest),
            capacity,
            value,
        ) == seq![(value, number)] + entries,
{
    let full = entries.push(oldest);
    assert forall|n: u64| !#[trigger] entries.contains((value, n)) by {
        if entries.contains((value, n)) {
            let i = entries.index_of((value, n));
            assert(full[i] == (value, n));
            assert(full.contains((value, n)));
        }
    }
    lemma_key_has_a_number(full, value);
    lemma_key_has_a_number(entries, value);
    lemma_effect_of_putting_anew(entries, oldest, capacity, value, number);
}

/// A value was recently used exactly if it was asked for at all, and the one
/// asked for last comes first.
pub proof fn lemma_recently_used_was_used(values: Seq<u64>, value: u64)
    ensures
        recently_used(values).contains(value) <==> values.contains(value),
        values.len() > 0 ==> recently_used(values)[0] == values.last(),
    decreases values.len(),
{
    if values.len() > 0 {
        let rest = values.drop_last();
        let last = values.last();
        let before = recently_used(rest);
        let after = recently_used(values);
        lemma_recently_used_was_used(rest, value);
        assert(after[0] == last);
        if values.contains(value) && value != last {
            let i = values.index_of(value);
            assert(rest[i] == value);
            let j = before.index_of(value);
            if before.contains(last) {
                let p = before.index_of(last);
                if j < p {
                    assert(after[j + 1] == value);
                } else {
                    assert(after[j] == value);
                }
            } else {
                assert(after[j + 1] == value);
            }
        }
        if value == last {
            assert(values[values.len() - 1] == value);
        }
        if after.contains(value) && value != last {
            let j = after.index_of(value);
            if before.contains(last) {
                let p = before.index_of(last);
                if j - 1 < p {
                    assert(before[j - 1] == value);
                } else {
                    assert(before[j] == value);
                }
            } else {
                assert(before[j - 1] == value);
            }
            let i = rest.index_of(value);
            assert(values[i] == value);
        }
    }
}

/// Putting a number under a key that is there puts it in front and takes the
/// entry that the key had out from among the others, whichever number that was.
pub proof fn lemma_effect_of_putting_again(
    newer: Seq<(u64, u64)>,
    entry: (u64, u64),
    older: Seq<(u64, u64)>,
    capacity: nat,
    number: u64,
)
    requires
        distinct_keys(newer + seq![entry] + older),
    ensures
        entries_after_put(newer + seq![entry] + older, capacity, entry.0, number) == seq![
            (entry.0, number),
        ] + newer + older,
{
    let entries = newer + seq![entry] + older;
    let i = newer.len() as int;
    assert(entries[i] == entry);
    let p = position_of(entries, entry.0);
    assert(entries[p].0 == entry.0);
    assert(p == i);
    assert(entries.remove(i) == newer + older);
    assert(seq![(entry.0, number)] + (newer + older) == seq![(entry.0, number)] + newer + older);
}

/// Putting a number under a new key puts it in front of the others; in a full
/// cache the last of those goes.
pub proof fn lemma_effect_of_putting_anew(
    entries: Seq<(u64, u64)>,
    oldest: (u64, u64),
    capacity: nat,
    key: u64,
    number: u64,
)
    requires
        forall|n: u64| !#[trigger] entries.push(oldest).contains((key, n)),
    ensures
        entries.len() < capacity ==> entries_after_put(entries, capacity, key, number) == seq![
            (key, number),
        ] + entries,
        entries.len() + 1 == capacity ==> entries_after_put(
            entries.push(oldest),
            capacity,
            key,
            number,
        ) == seq![(key, number)] + entries,
{
    let full = entries.push(oldest);
    lemma_key_has_a_number(full, key);
    lemma_key_has_a_number(entries, key);
    assert forall|n: u64| !#[trigger] entries.contains((key, n)) by {
        if entries.contains((key, n)) {
            let i = entries.index_of((key, n));
            assert(full[i] == (key, n));
            assert(full.contains((key, n)));
        }
    }
    assert(full.drop_last() == entries);
}

} // verus!
