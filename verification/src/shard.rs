//! One shard: which requests are its own, and how it answers them.

use crate::cache;
use crate::cache::FibCache;
use crate::fibonacci;
use crate::text;
use vstd::prelude::*;
use vstd::string::*;

verus! {

/// How many Fibonacci numbers each shard of the server caches.
pub const LRU_CACHE_SIZE: usize = 10000;

/// The shard, out of `nbr_shards`, that answers requests for `value`.
pub open spec fn shard_of(value: u64, nbr_shards: usize) -> usize {
    (value as usize) % nbr_shards
}

/// The answer of a shard to a request for `value`, with the number for it.
pub open spec fn reply_text(shard: usize, value: u64, number: u64, cached: bool) -> Seq<char> {
    "Reply from shard "@ + text::decimal(shard as nat) + ": received value "@ + text::decimal(
        value as nat,
    ) + (if cached {
        " and cached fibonacci "@
    } else {
        " and fibonacci "@
    }) + text::decimal(number as nat) + "\n"@
}

/// A request that moves to another shard: the descriptor of the connection that
/// it came in on, and the number that it asks for.
pub struct Msg {
    pub fd: i32,
    pub value: u64,
}

impl Msg {
    /// The message in words, for the log.
    pub fn to_string(&self) -> (words: String)
        ensures
            words@ == "Msg(fd: "@ + text::signed_decimal(self.fd as int) + ", value: "@
                + text::decimal(self.value as nat) + ")"@,
    {
        let mut words = String::new();
        words.append("Msg(fd: ");
        text::append_signed_decimal(&mut words, self.fd);
        words.append(", value: ");
        text::append_decimal(&mut words, self.value);
        words.append(")");
        words
    }
}

/// The shard, out of `nbr_shards`, that answers requests for `value`.
pub fn route(value: u64, nbr_shards: usize) -> (shard: usize)
    requires
        nbr_shards > 0,
    ensures
        shard == shard_of(value, nbr_shards),
        shard < nbr_shards,
{
    (value as usize) % nbr_shards
}

/// Writes the answer of a shard to a request for `value`, with the number for
/// it.
fn reply(shard: usize, value: u64, number: u64, cached: bool) -> (response: String)
    ensures
        response@ == reply_text(shard, value, number, cached),
{
    let mut response = String::new();
    response.append("Reply from shard ");
    text::append_decimal(&mut response, shard as u64);
    response.append(": received value ");
    text::append_decimal(&mut response, value);
    if cached {
        response.append(" and cached fibonacci ");
    } else {
        response.append(" and fibonacci ");
    }
    text::append_decimal(&mut response, number);
    response.append("\n");
    response
}

/// Answers a request for `value` with the number that the cache holds for it, or
/// else computes the Fibonacci number and caches it.
pub fn process_synchronously_on_shard(
    src_shard: usize,
    value: u64,
    fib_cache: &mut FibCache,
) -> (response: String)
    requires
        old(fib_cache).wf(),
    ensures
        response@ == reply_text(
            src_shard,
            value,
            cache::number_served(old(fib_cache).entries(), value),
            cache::has_key(old(fib_cache).entries(), value),
        ),
        final(fib_cache).wf(),
        final(fib_cache).entries() == cache::entries_after_serving(
            old(fib_cache).entries(),
            old(fib_cache).capacity(),
            value,
        ),
        final(fib_cache).capacity() == old(fib_cache).capacity(),
        cache::fibonacci_entries(old(fib_cache).entries()) ==> {
            &&& response@ == reply_text(
                src_shard,
                value,
                fibonacci::wrapped_fib(value as nat),
                cache::has_key(old(fib_cache).entries(), value),
            )
            &&& cache::fibonacci_entries(final(fib_cache).entries())
        },
{
    proof {
        if cache::fibonacci_entries(fib_cache.entries()) {
            cache::lemma_serving_keeps_fibonacci_numbers(
                fib_cache.entries(),
                fib_cache.capacity(),
                value,
            );
        }
    }
    if let Some(cached_result) = fib_cache.get(value) {
        return reply(src_shard, value, cached_result, true);
    }
    let fib: u64 = fibonacci::compute_fibonacci(value);
    fib_cache.put(value, fib);
    reply(src_shard, value, fib, false)
}

/// A shard of the server, with the cache that no other shard touches.
pub struct Shard {
    shard_id: usize,
    nbr_shards: usize,
    fib_cache: FibCache,
}

impl Shard {
    /// The number of this shard, counted from zero.
    pub closed spec fn id(self) -> usize {
        self.shard_id
    }

    /// How many shards there are.
    pub closed spec fn count(self) -> usize {
        self.nbr_shards
    }

    /// The cache of this shard.
    pub closed spec fn numbers(self) -> FibCache {
        self.fib_cache
    }

    /// The shard is one of those that there are, and its cache is sound and
    /// holds Fibonacci numbers.
    pub open spec fn wf(self) -> bool {
        &&& self.id() < self.count()
        &&& self.numbers().wf()
        &&& cache::fibonacci_entries(self.numbers().entries())
    }

    /// The shard has served only what is its own: it caches no number that
    /// another shard answers for.
    pub open spec fn caches_only_its_own(self) -> bool {
        forall|i: int|
            0 <= i < self.numbers().entries().len() ==> shard_of(
                (#[trigger] self.numbers().entries()[i]).0,
                self.count(),
            ) == self.id()
    }

    /// The shard is as before but for its cache, which has served `value`.
    pub open spec fn has_served(self, before: Shard, value: u64) -> bool {
        &&& self.id() == before.id()
        &&& self.count() == before.count()
        &&& self.numbers().capacity() == before.numbers().capacity()
        &&& self.numbers().entries() == cache::entries_after_serving(
            before.numbers().entries(),
            before.numbers().capacity(),
            value,
        )
    }

    /// A shard with an empty cache.
    pub fn new(shard_id: usize, nbr_shards: usize, lru_cache_size: usize) -> (shard: Shard)
        requires
            shard_id < nbr_shards,
            0 < lru_cache_size,
            lru_cache_size * 128 <= usize::MAX,
        ensures
            shard.wf(),
            shard.id() == shard_id,
            shard.count() == nbr_shards,
            shard.numbers().entries() == Seq::<(u64, u64)>::empty(),
            shard.numbers().capacity() == lru_cache_size,
            shard.caches_only_its_own(),
    {
        Shard { shard_id, nbr_shards, fib_cache: FibCache::new(lru_cache_size) }
    }

    /// The number of this shard, counted from zero.
    pub fn shard_id(&self) -> (id: usize)
        ensures
            id == self.id(),
    {
        self.shard_id
    }

    /// How many shards there are.
    pub fn nbr_shards(&self) -> (count: usize)
        ensures
            count == self.count(),
    {
        self.nbr_shards
    }

    /// Answers a request for `value`, whichever shard it belongs to.
    pub fn answer(&mut self, value: u64) -> (response: String)
        requires
            old(self).wf(),
        ensures
            response@ == reply_text(
                old(self).id(),
                value,
                fibonacci::wrapped_fib(value as nat),
                cache::has_key(old(self).numbers().entries(), value),
            ),
            final(self).wf(),
            final(self).has_served(*old(self), value),
            old(self).caches_only_its_own() && shard_of(value, old(self).count()) == old(self).id()
                ==> final(self).caches_only_its_own(),
    {
        proof {
            cache::lemma_serving_keeps_fibonacci_numbers(
                self.numbers().entries(),
                self.numbers().capacity(),
                value,
            );
        }
        process_synchronously_on_shard(self.shard_id, value, &mut self.fib_cache)
    }
}

/// Every number has a shard among those that there are.
pub proof fn lemma_every_number_has_a_shard(value: u64, nbr_shards: usize)
    requires
        nbr_shards > 0,
    ensures
        shard_of(value, nbr_shards) < nbr_shards,
        shard_of(value, nbr_shards) as int == (value as usize) as int % nbr_shards as int,
{
}

/// Where a `usize` can hold the number, its shard is the remainder of its
/// division by the number of shards.
pub proof fn lemma_shard_is_the_remainder(value: u64, nbr_shards: usize)
    requires
        nbr_shards > 0,
        value <= usize::MAX,
    ensures
        shard_of(value, nbr_shards) as int == value as int % nbr_shards as int,
{
}

/// Once a shard has answered a request for a number, it answers the next one
/// for the same number out of its cache, with the same number, and its cache
/// stays as it is.
pub proof fn lemma_second_answer_is_cached(before: Shard, after: Shard, value: u64)
    requires
        before.wf(),
        after.has_served(before, value),
    ensures
        cache::has_key(after.numbers().entries(), value),
        cache::number_served(after.numbers().entries(), value) == cache::number_served(
            before.numbers().entries(),
            value,
        ),
        forall|last: Shard| #[trigger] last.has_served(after, value) ==> last.numbers().entries()
            == after.numbers().entries(),
{
    cache::lemma_served_number_is_cached(
        before.numbers().entries(),
        before.numbers().capacity(),
        value,
    );
    cache::lemma_serving_again_changes_nothing(
        before.numbers().entries(),
        before.numbers().capacity(),
        value,
    );
}

/// The answers to a request with and without the help of the cache, for the
/// same number, differ in the one word "cached" and nowhere else.
pub proof fn lemma_cached_answer_says_so(shard: usize, value: u64, number: u64)
    ensures
        exists|start: Seq<char>, end: Seq<char>|
            reply_text(shard, value, number, true) == #[trigger] (start + " cached"@ + end)
                && reply_text(shard, value, number, false) == start + end,
{
    reveal_strlit(" and cached fibonacci ");
    reveal_strlit(" and fibonacci ");
    reveal_strlit(" cached");
    reveal_strlit(" and");
    reveal_strlit(" fibonacci ");
    let start = "Reply from shard "@ + text::decimal(shard as nat) + ": received value "@
        + text::decimal(value as nat) + " and"@;
    let end = " fibonacci "@ + text::decimal(number as nat) + "\n"@;
    assert(" and cached fibonacci "@ == " and"@ + " cached"@ + " fibonacci "@);
    assert(" and fibonacci "@ == " and"@ + " fibonacci "@);
    assert(reply_text(shard, value, number, true) == start + " cached"@ + end);
    assert(reply_text(shard, value, number, false) == start + end);
}

/// No number is cached by two shards.
pub proof fn lemma_caches_are_disjoint(one: Shard, other: Shard, value: u64)
    requires
        one.caches_only_its_own(),
        other.caches_only_its_own(),
        one.count() == other.count(),
        one.id() != other.id(),
    ensures
        !(cache::has_key(one.numbers().entries(), value) && cache::has_key(
            other.numbers().entries(),
            value,
        )),
{
}

/// The caches of all shards after a request for `value`, wherever it came in:
/// only the shard that it belongs to serves it.
pub open spec fn caches_after_request(
    caches: Seq<Seq<(u64, u64)>>,
    capacity: nat,
    value: u64,
) -> Seq<Seq<(u64, u64)>> {
    let home = shard_of(value, caches.len() as usize) as int;
    caches.update(home, cache::entries_after_serving(caches[home], capacity, value))
}

/// The caches of all shards after requests for all of `values` in turn.
pub open spec fn caches_after_requests(
    caches: Seq<Seq<(u64, u64)>>,
    capacity: nat,
    values: Seq<u64>,
) -> Seq<Seq<(u64, u64)>>
    decreases values.len(),
{
    if values.len() == 0 {
        caches
    } else {
        caches_after_request(
            caches_after_requests(caches, capacity, values.drop_last()),
            capacity,
            values.last(),
        )
    }
}

/// What a shard has cached depends on the requests for its own numbers alone,
/// in their order, and on no other request.
pub proof fn lemma_shards_do_not_interfere(
    caches: Seq<Seq<(u64, u64)>>,
    capacity: nat,
    values: Seq<u64>,
    shard: int,
)
    requires
        0 <= shard < caches.len() <= usize::MAX,
    ensures
        caches_after_requests(caches, capacity, values).len() == caches.len(),
        caches_after_requests(caches, capacity, values)[shard]
            == cache::entries_after_serving_all(
            caches[shard],
            capacity,
            values.filter(|value: u64| shard_of(value, caches.len() as usize) == shard),
        ),
    decreases values.len(),
{
    reveal(Seq::filter);
    if values.len() > 0 {
        lemma_shards_do_not_interfere(caches, capacity, values.drop_last(), shard);
        let own = |value: u64| shard_of(value, caches.len() as usize) == shard;
        let before = values.drop_last().filter(own);
        if own(values.last()) {
            assert(values.filter(own) == before.push(values.last()));
            assert(values.filter(own).drop_last() == before);
        } else {
            assert(values.filter(own) == before);
        }
    }
}

/// The three numbers of an answer, the shard, the value and its number, can be
/// read in it, each between the words that belong to it.
pub proof fn lemma_answer_shows_its_numbers(shard: usize, value: u64, number: u64, cached: bool)
    ensures
        exists|s: Seq<char>, v: Seq<char>, n: Seq<char>|
            #![trigger text::all_digits(s), text::all_digits(v), text::all_digits(n)]
            text::all_digits(s) && text::digits_value(s) == shard && text::all_digits(v)
                && text::digits_value(v) == value && text::all_digits(n) && text::digits_value(n)
                == number && (s.len() == 1 || s[0] != '0') && (v.len() == 1 || v[0] != '0') && (
            n.len() == 1 || n[0] != '0') && reply_text(shard, value, number, cached)
                == "Reply from shard "@ + s + ": received value "@ + v + (if cached {
                " and cached fibonacci "@
            } else {
                " and fibonacci "@
            }) + n + "\n"@,
{
    text::lemma_decimal_denotes(shard as nat);
    text::lemma_decimal_denotes(value as nat);
    text::lemma_decimal_denotes(number as nat);
    text::lemma_numerals_are_unique(Seq::empty(), shard as nat);
    text::lemma_numerals_are_unique(Seq::empty(), value as nat);
    text::lemma_numerals_are_unique(Seq::empty(), number as nat);
    let s = text::decimal(shard as nat);
    let v = text::decimal(value as nat);
    let n = text::decimal(number as nat);
    assert(text::all_digits(s) && text::all_digits(v) && text::all_digits(n));
}

/// Two texts with the same start are the same only if the rest is.
proof fn lemma_same_rest(start: Seq<char>, one: Seq<char>, other: Seq<char>)
    requires
        start + one == start + other,
    ensures
        one == other,
{
    assert((start + one).skip(start.len() as int) == one);
    assert((start + other).skip(start.len() as int) == other);
}

/// The words between the value and its number.
spec fn words_before_number(cached: bool) -> Seq<char> {
    if cached {
        " and cached fibonacci "@
    } else {
        " and fibonacci "@
    }
}

/// An answer, taken apart from its end.
proof fn lemma_parts_of_an_answer(shard: usize, value: u64, number: u64, cached: bool)
    ensures
        reply_text(shard, value, number, cached) == "Reply from shard "@ + (text::decimal(
            shard as nat,
        ) + (": received value "@ + (text::decimal(value as nat) + (words_before_number(cached) + (
        text::decimal(number as nat) + "\n"@))))),
{
    assert(reply_text(shard, value, number, cached) =~= "Reply from shard "@ + (text::decimal(
        shard as nat,
    ) + (": received value "@ + (text::decimal(value as nat) + (words_before_number(cached) + (
    text::decimal(number as nat) + "\n"@))))));
}

/// Two answers are the same only if they come from the same shard, for the same
/// value, with the same number, and both or neither out of the cache.
pub proof fn lemma_answers_tell_everything(
    one: (usize, u64, u64, bool),
    other: (usize, u64, u64, bool),
)
    requires
        reply_text(one.0, one.1, one.2, one.3) == reply_text(other.0, other.1, other.2, other.3),
    ensures
        one == other,
{
    let end = "\n"@;
    let number_on = text::decimal(one.2 as nat) + end;
    let other_number_on = text::decimal(other.2 as nat) + end;
    let words_on = words_before_number(one.3) + number_on;
    let other_words_on = words_before_number(other.3) + other_number_on;
    let value_on = text::decimal(one.1 as nat) + words_on;
    let other_value_on = text::decimal(other.1 as nat) + other_words_on;
    let received = ": received value "@;
    assert({
        &&& end.len() > 0 && !text::is_digit(end[0])
        &&& received.len() > 0 && !text::is_digit(received[0])
    }) by {
        reveal_strlit("\n");
        reveal_strlit(": received value ");
    }
    assert({
        &&& words_on.len() > 5 && !text::is_digit(words_on[0])
        &&& other_words_on.len() > 5 && !text::is_digit(other_words_on[0])
        &&& words_on[5] == (if one.3 { 'c' } else { 'f' })
        &&& other_words_on[5] == (if other.3 { 'c' } else { 'f' })
    }) by {
        reveal_strlit(" and cached fibonacci ");
        reveal_strlit(" and fibonacci ");
    }
    text::lemma_decimal_denotes(one.0 as nat);
    text::lemma_decimal_denotes(one.1 as nat);
    text::lemma_decimal_denotes(one.2 as nat);
    text::lemma_decimal_denotes(other.0 as nat);
    text::lemma_decimal_denotes(other.1 as nat);
    text::lemma_decimal_denotes(other.2 as nat);
    lemma_parts_of_an_answer(one.0, one.1, one.2, one.3);
    lemma_parts_of_an_answer(other.0, other.1, other.2, other.3);
    lemma_same_rest(
        "Reply from shard "@,
        text::decimal(one.0 as nat) + (received + value_on),
        text::decimal(other.0 as nat) + (received + other_value_on),
    );
    text::lemma_digits_end_where_they_end(
        text::decimal(one.0 as nat),
        received + value_on,
        text::decimal(other.0 as nat),
        received + other_value_on,
    );
    lemma_same_rest(received, value_on, other_value_on);
    text::lemma_digits_end_where_they_end(
        text::decimal(one.1 as nat),
        words_on,
        text::decimal(other.1 as nat),
        other_words_on,
    );
    lemma_same_rest(words_before_number(one.3), number_on, other_number_on);
    text::lemma_digits_end_where_they_end(
        text::decimal(one.2 as nat),
        end,
        text::decimal(other.2 as nat),
        end,
    );
}

/// A shard that has served a request has its number in front of the cache, and
/// behind it only what it had before; of that it has lost at most the least
/// recently used number, and only if the cache was full and the number new.
pub proof fn lemma_effect_of_serving(before: Shard, after: Shard, value: u64, entry: (u64, u64))
    requires
        before.wf(),
        after.has_served(before, value),
    ensures
        after.id() == before.id(),
        after.count() == before.count(),
        after.numbers().capacity() == before.numbers().capacity(),
        after.numbers().entries().len() > 0,
        after.numbers().entries()[0].0 == value,
        after.numbers().entries()[0].1 as int == fibonacci::fib(value as nat) as int
            % 0x1_0000_0000_0000_0000,
        after.numbers().entries().skip(1).contains(entry) ==> entry.0 != value
            && before.numbers().entries().contains(entry),
        before.numbers().entries().contains(entry) ==> after.numbers().entries().contains(entry) || (
        before.numbers().entries().len() == before.numbers().capacity()
            && before.numbers().entries().last() == entry && !cache::has_key(
            before.numbers().entries(),
            value,
        )),
{
    let old_entries = before.numbers().entries();
    let new_entries = after.numbers().entries();
    let p = cache::position_of(old_entries, value);
    cache::lemma_serving_keeps_fibonacci_numbers(
        old_entries,
        before.numbers().capacity(),
        value,
    );
    if new_entries.skip(1).contains(entry) {
        let j = new_entries.skip(1).index_of(entry);
        let from = if cache::has_key(old_entries, value) && j >= p {
            j + 1
        } else {
            j
        };
        assert(old_entries[from] == entry);
    }
    if old_entries.contains(entry) {
        let j = old_entries.index_of(entry);
        if cache::has_key(old_entries, value) {
            if j == p {
                assert(new_entries[0] == entry);
            } else if j < p {
                assert(new_entries[j + 1] == entry);
            } else {
                assert(new_entries[j] == entry);
            }
        } else if !(old_entries.len() == before.numbers().capacity() && old_entries.last() == entry) {
            assert(new_entries[j + 1] == entry);
        }
    }
}

/// A number stays cached by a shard of the server over the next 9999 requests.
pub proof fn lemma_size_of_the_cache(entries: Seq<(u64, u64)>, values: Seq<u64>)
    requires
        0 < entries.len() <= LRU_CACHE_SIZE,
        cache::distinct_keys(entries),
        values.len() <= 9999,
    ensures
        cache::has_key(
            cache::entries_after_serving_all(entries, LRU_CACHE_SIZE as nat, values),
            entries[0].0,
        ),
        LRU_CACHE_SIZE == 10000,
{
    cache::lemma_cached_number_survives(entries, LRU_CACHE_SIZE as nat, 0, values);
}

} // verus!
