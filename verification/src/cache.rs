//! The message cache: answers filed under the fingerprint of the query that
//! asked for them, each with a time to live.

use vstd::prelude::*;
use vstd::std_specs::hash::{axiom_spec_keys_iter, spec_keys_iter};
use vstd::std_specs::iter::IteratorSpec;
use std::collections::HashMap;
use crate::clock::{elapsed_between, Clock, NANOS_PER_SEC};
use crate::config::CacheConfig;
use crate::digest::{fingerprint, fingerprint_of};

verus! {

/// A raw DNS message.
pub type DnsMessage = Vec<u8>;

/// What the cache holds for one fingerprint.
pub ghost struct CachedAnswer {
    pub response: Seq<u8>,
    /// The clock reading at which the answer was stored.
    pub created_at: u128,
    /// Time to live, in seconds.
    pub ttl: u64,
}

impl CachedAnswer {
    /// An answer has expired once more than its time to live has passed
    /// since it was stored.
    pub open spec fn expired(self, now: u128) -> bool {
        elapsed_between(self.created_at, now) > self.ttl as nat * NANOS_PER_SEC as nat
    }
}

/// The fingerprints whose entries have expired at `now`.
pub open spec fn expired_keys(entries: Map<u128, CachedAnswer>, now: u128) -> Set<u128> {
    Set::new(|key: u128| entries.contains_key(key) && entries[key].expired(now))
}

/// The entries that are left once every entry that has expired at `now` is
/// removed.
pub open spec fn live_entries(entries: Map<u128, CachedAnswer>, now: u128) -> Map<
    u128,
    CachedAnswer,
> {
    entries.remove_keys(expired_keys(entries, now))
}

/// The cache as a mathematical value.
pub ghost struct CacheState {
    pub enabled: bool,
    pub max_size: usize,
    /// Shortest time to live, in seconds.
    pub min_ttl: u64,
    /// Longest time to live, in seconds.
    pub max_ttl: u64,
    pub entries: Map<u128, CachedAnswer>,
}

impl CacheState {
    /// The number of entries the cache may hold after a `put`. A cache
    /// configured for no entries still keeps the one it was last given.
    pub open spec fn capacity(self) -> nat {
        if self.max_size == 0 {
            1
        } else {
            self.max_size as nat
        }
    }

    /// What every cache satisfies: it is finite and within its capacity, a
    /// disabled cache is empty, and where the configured bounds are ordered
    /// every stored time to live lies between them.
    pub open spec fn valid(self) -> bool {
        &&& self.entries.dom().finite()
        &&& self.entries.len() <= self.capacity()
        &&& !self.enabled ==> self.entries =~= Map::empty()
        &&& self.min_ttl <= self.max_ttl ==> forall|key: u128| #[trigger]
            self.entries.contains_key(key) ==> self.min_ttl <= self.entries[key].ttl
                <= self.max_ttl
    }

    /// What `get` answers for `query` at `now`: the stored response where the
    /// cache is enabled and holds an entry for the query that has not
    /// expired, nothing otherwise.
    pub open spec fn lookup(self, query: Seq<u8>, now: u128) -> Option<Seq<u8>> {
        let key = fingerprint(query);
        if self.enabled && self.entries.contains_key(key) && !self.entries[key].expired(now) {
            Some(self.entries[key].response)
        } else {
            None
        }
    }

    /// The time to live an answer is stored with: the hint clamped from
    /// below by the minimum and then from above by the maximum, or the
    /// minimum where there is no hint.
    pub open spec fn effective_ttl(self, ttl_hint: Option<u32>) -> u64 {
        match ttl_hint {
            Some(hint) => {
                let raised = if (hint as u64) < self.min_ttl {
                    self.min_ttl
                } else {
                    hint as u64
                };
                if raised > self.max_ttl {
                    self.max_ttl
                } else {
                    raised
                }
            },
            None => self.min_ttl,
        }
    }

    /// The entries a `put` at `now` starts from: where the cache is full the
    /// expired entries are swept first.
    pub open spec fn swept_if_full(self, now: u128) -> Map<u128, CachedAnswer> {
        if self.entries.len() >= self.max_size {
            live_entries(self.entries, now)
        } else {
            self.entries
        }
    }

    /// Whether a `get` for `query` may return `found`: it is what a lookup
    /// at some moment answers.
    pub open spec fn may_answer(self, query: Seq<u8>, found: Option<Seq<u8>>) -> bool {
        exists|now: u128| #[trigger] self.lookup(query, now) == found
    }

    /// Whether `after` is a cache that `put(query, response, ttl_hint)` may
    /// leave behind: one that it leaves behind at some moment.
    pub open spec fn may_store(
        self,
        query: Seq<u8>,
        response: Seq<u8>,
        ttl_hint: Option<u32>,
        after: CacheState,
    ) -> bool {
        exists|now: u128| #[trigger] self.stores(query, response, ttl_hint, now, after)
    }

    /// Whether `after` is a cache that `put(query, response, ttl_hint)` at
    /// `now` may leave behind. A disabled cache is left as it is. Otherwise
    /// the answer is filed under the query's fingerprint, after a sweep of
    /// the expired entries where the cache was full and, where it still is,
    /// the eviction of one entry; which entry is evicted is left open.
    pub open spec fn stores(
        self,
        query: Seq<u8>,
        response: Seq<u8>,
        ttl_hint: Option<u32>,
        now: u128,
        after: CacheState,
    ) -> bool {
        let key = fingerprint(query);
        let answer = CachedAnswer {
            response,
            created_at: now,
            ttl: self.effective_ttl(ttl_hint),
        };
        let room = self.swept_if_full(now);
        &&& after.enabled == self.enabled
        &&& after.max_size == self.max_size
        &&& after.min_ttl == self.min_ttl
        &&& after.max_ttl == self.max_ttl
        &&& if !self.enabled {
            after.entries == self.entries
        } else if room.len() >= self.max_size && room.len() > 0 {
            exists|victim: u128| #[trigger]
                room.contains_key(victim) && after.entries == room.remove(victim).insert(
                    key,
                    answer,
                )
        } else {
            after.entries == room.insert(key, answer)
        }
    }
}

/// An answer that was just stored is served back unchanged for as long as
/// it has not outlived its time to live: whatever a `put` at `stored_at`
/// leaves behind, a `get` for the same query at `asked_at` returns the
/// response that was put, provided the cache is enabled and no more than
/// the effective time to live has passed in between.
pub proof fn lemma_put_then_get(
    before: CacheState,
    query: Seq<u8>,
    response: Seq<u8>,
    ttl_hint: Option<u32>,
    stored_at: u128,
    after: CacheState,
    asked_at: u128,
)
    requires
        before.enabled,
        before.stores(query, response, ttl_hint, stored_at, after),
        elapsed_between(stored_at, asked_at) <= before.effective_ttl(ttl_hint) as nat
            * NANOS_PER_SEC as nat,
    ensures
        after.lookup(query, asked_at) == Some(response),
{
}

/// Where the configured bounds are ordered, the time to live an answer is
/// stored with lies between them, and is the hint itself where the hint
/// does.
pub proof fn lemma_effective_ttl_is_clamped(state: CacheState, ttl_hint: Option<u32>)
    requires
        state.min_ttl <= state.max_ttl,
    ensures
        state.min_ttl <= state.effective_ttl(ttl_hint) <= state.max_ttl,
        ttl_hint matches Some(hint) ==> {
            &&& state.min_ttl <= hint <= state.max_ttl ==> state.effective_ttl(ttl_hint) == hint
            &&& hint < state.min_ttl ==> state.effective_ttl(ttl_hint) == state.min_ttl
            &&& hint > state.max_ttl ==> state.effective_ttl(ttl_hint) == state.max_ttl
        },
        ttl_hint is None ==> state.effective_ttl(ttl_hint) == state.min_ttl,
{
}

/// A `put` keeps a valid cache valid. In particular a cache configured for
/// at least one entry never holds more than `max_size` entries after a
/// `put`, whatever was put before.
pub proof fn lemma_put_keeps_capacity(
    before: CacheState,
    query: Seq<u8>,
    response: Seq<u8>,
    ttl_hint: Option<u32>,
    now: u128,
    after: CacheState,
)
    requires
        before.valid(),
        before.stores(query, response, ttl_hint, now, after),
    ensures
        after.valid(),
        before.max_size > 0 ==> after.entries.len() <= before.max_size,
{
    if before.enabled {
        let room = before.swept_if_full(now);
        let dead = expired_keys(before.entries, now);
        assert(dead.subset_of(before.entries.dom()));
        vstd::set_lib::lemma_len_subset(dead, before.entries.dom());
        before.entries.lemma_remove_keys_len(dead);
        assert(room.dom().finite()) by {
            assert(live_entries(before.entries, now).dom() =~= before.entries.dom().difference(
                dead,
            ));
        }
        assert(room.len() <= before.entries.len());
        if room.len() >= before.max_size && room.len() > 0 {
            let victim = choose|victim: u128| #[trigger]
                room.contains_key(victim) && after.entries == room.remove(victim).insert(
                    fingerprint(query),
                    CachedAnswer {
                        response,
                        created_at: now,
                        ttl: before.effective_ttl(ttl_hint),
                    },
                );
            room.lemma_remove_key_len(victim);
        }
    }
}

/// An entry whose time to live has passed is reported as a miss although
/// it is still held: a lookup never answers from an expired entry.
pub proof fn lemma_expired_entry_is_a_miss(state: CacheState, query: Seq<u8>, now: u128)
    requires
        state.entries.contains_key(fingerprint(query)),
        state.entries[fingerprint(query)].expired(now),
    ensures
        state.lookup(query, now) is None,
        expired_keys(state.entries, now).contains(fingerprint(query)),
{
}

/// A sweep removes the expired entries and nothing else: no entry that is
/// left has expired, and every entry that had not expired is left as it
/// was.
pub proof fn lemma_sweep_keeps_the_live_entries(entries: Map<u128, CachedAnswer>, now: u128)
    ensures
        expired_keys(live_entries(entries, now), now) == Set::<u128>::empty(),
        forall|key: u128|
            entries.contains_key(key) && !entries[key].expired(now) ==> #[trigger] live_entries(
                entries,
                now,
            ).contains_key(key) && live_entries(entries, now)[key] == entries[key],
        live_entries(entries, now).submap_of(entries),
{
    assert(expired_keys(live_entries(entries, now), now) =~= Set::<u128>::empty());
}

/// Once more than its time to live has passed since an answer was put, a
/// `get` for its query misses.
pub proof fn lemma_put_then_get_after_expiry(
    before: CacheState,
    query: Seq<u8>,
    response: Seq<u8>,
    ttl_hint: Option<u32>,
    stored_at: u128,
    after: CacheState,
    asked_at: u128,
)
    requires
        before.stores(query, response, ttl_hint, stored_at, after),
        elapsed_between(stored_at, asked_at) > before.effective_ttl(ttl_hint) as nat
            * NANOS_PER_SEC as nat,
    ensures
        after.lookup(query, asked_at) is None,
{
    if before.enabled {
        assert(after.entries.contains_key(fingerprint(query)));
    } else {
    }
}

/// The bytes of a message that may be absent.
pub open spec fn bytes_of(message: Option<DnsMessage>) -> Option<Seq<u8>> {
    match message {
        Some(bytes) => Some(bytes@),
        None => None,
    }
}

/// One stored answer.
pub struct CacheEntry {
    response: DnsMessage,
    created_at: u128,
    ttl: u64,
}

impl View for CacheEntry {
    type V = CachedAnswer;

    closed spec fn view(&self) -> CachedAnswer {
        CachedAnswer { response: self.response@, created_at: self.created_at, ttl: self.ttl }
    }
}

impl CacheEntry {
    /// An entry stored at `now` that lives for `ttl` seconds.
    pub fn new(response: DnsMessage, ttl: u64, now: u128) -> (entry: CacheEntry)
        ensures
            entry@ == (CachedAnswer { response: response@, created_at: now, ttl }),
    {
        CacheEntry { response, created_at: now, ttl }
    }

    /// Whether the entry has expired at `now`.
    pub fn is_expired(&self, now: u128) -> (expired: bool)
        ensures
            expired == self@.expired(now),
    {
        let elapsed: u128 = if now >= self.created_at {
            now - self.created_at
        } else {
            0
        };
        elapsed > self.ttl as u128 * NANOS_PER_SEC
    }
}

/// The stored entries as mathematical values.
pub closed spec fn answers(entries: Map<u128, CacheEntry>) -> Map<u128, CachedAnswer> {
    entries.map_values(|entry: CacheEntry| entry@)
}

/// The keys among `keys` whose entry in `entries` has expired at `now`.
spec fn expired_among(keys: Seq<u128>, entries: Map<u128, CachedAnswer>, now: u128) -> Set<u128> {
    Set::new(
        |key: u128| keys.contains(key) && entries.contains_key(key) && entries[key].expired(now),
    )
}

/// Visiting one more key adds it to the expired keys exactly where its entry
/// has expired.
proof fn lemma_expired_among_push(
    keys: Seq<u128>,
    key: u128,
    entries: Map<u128, CachedAnswer>,
    now: u128,
)
    requires
        entries.contains_key(key),
    ensures
        expired_among(keys.push(key), entries, now) == if entries[key].expired(now) {
            expired_among(keys, entries, now).insert(key)
        } else {
            expired_among(keys, entries, now)
        },
{
    let longer = keys.push(key);
    assert(longer.last() == key);
    assert forall|k: u128| longer.contains(k) <==> (keys.contains(k) || k == key) by {
        if keys.contains(k) {
            let i = choose|i: int| 0 <= i < keys.len() && keys[i] == k;
            assert(longer[i] == k);
        }
        if longer.contains(k) {
            let i = choose|i: int| 0 <= i < longer.len() && longer[i] == k;
            if i < keys.len() {
                assert(keys[i] == k);
            }
        }
    }
    if entries[key].expired(now) {
        assert(expired_among(longer, entries, now) =~= expired_among(keys, entries, now).insert(
            key,
        ));
    } else {
        assert(expired_among(longer, entries, now) =~= expired_among(keys, entries, now));
    }
}

/// Lists the keys of the entries that have expired at `now`, each once.
fn expired_key_list(cache: &HashMap<u128, CacheEntry>, now: u128) -> (dead: Vec<u128>)
    ensures
        dead@.no_duplicates(),
        dead@.to_set() == expired_keys(answers(cache@), now),
{
    let mut dead: Vec<u128> = Vec::new();
    let ghost all = spec_keys_iter(cache).remaining();
    let ghost entries = answers(cache@);
    proof {
        axiom_spec_keys_iter(cache);
        assert(expired_among(all.unref().take(0), entries, now) =~= Set::empty());
    }
    for key in it: cache.keys()
        invariant
            it.seq() == all,
            all.unref().to_set() == cache@.dom(),
            all.no_duplicates(),
            entries == answers(cache@),
            dead@.no_duplicates(),
            dead@.to_set() == expired_among(all.unref().take(it.index()), entries, now),
    {
        let ghost visited = all.unref().take(it.index());
        proof {
            assert(all.unref()[it.index()] == *key);
            assert(all.unref().to_set().contains(*key));
            assert(visited.push(*key) == all.unref().take(it.index() + 1));
            assert(!visited.contains(*key)) by {
                if visited.contains(*key) {
                    let i = choose|i: int| 0 <= i < visited.len() && visited[i] == *key;
                    assert(all[i] == all[it.index()]);
                }
            }
            lemma_expired_among_push(visited, *key, entries, now);
        }
        match cache.get(key) {
            Some(entry) => {
                if entry.is_expired(now) {
                    proof {
                        assert(!dead@.contains(*key)) by {
                            assert(!expired_among(visited, entries, now).contains(*key));
                            assert(dead@.to_set().contains(*key) == dead@.contains(*key));
                        }
                        assert(dead@.push(*key).to_set() =~= dead@.to_set().insert(*key)) by {
                            dead@.lemma_push_to_set_commute(*key);
                        }
                    }
                    dead.push(*key);
                }
            },
            None => {},
        }
    }
    proof {
        assert(all.unref().take(all.len() as int) == all.unref());
        assert(expired_among(all.unref(), entries, now) =~= expired_keys(entries, now));
    }
    dead
}

/// How the mathematical entries follow the stored ones through an insertion
/// and a removal.
proof fn lemma_answers(entries: Map<u128, CacheEntry>)
    ensures
        answers(entries).dom() == entries.dom(),
        forall|key: u128| #[trigger]
            entries.contains_key(key) ==> answers(entries)[key] == entries[key]@,
        forall|key: u128, entry: CacheEntry| #[trigger]
            answers(entries.insert(key, entry)) == answers(entries).insert(key, entry@),
        forall|key: u128| #[trigger] answers(entries.remove(key)) == answers(entries).remove(key),
{
    assert(answers(entries).dom() =~= entries.dom());
    assert forall|key: u128, entry: CacheEntry| #[trigger]
        answers(entries.insert(key, entry)) == answers(entries).insert(key, entry@) by {
        assert(answers(entries.insert(key, entry)) =~= answers(entries).insert(key, entry@));
    }
    assert forall|key: u128| #[trigger]
        answers(entries.remove(key)) == answers(entries).remove(key) by {
        assert(answers(entries.remove(key)) =~= answers(entries).remove(key));
    }
}

/// Counts the entries that have expired at `now`.
fn count_expired(cache: &HashMap<u128, CacheEntry>, now: u128) -> (count: usize)
    ensures
        expired_keys(answers(cache@), now).finite(),
        count == expired_keys(answers(cache@), now).len(),
        count <= cache@.len(),
{
    let mut count: usize = 0;
    let total = cache.len();
    let ghost all = spec_keys_iter(cache).remaining();
    let ghost entries = answers(cache@);
    proof {
        axiom_spec_keys_iter(cache);
        lemma_answers(cache@);
        assert(expired_among(all.unref().take(0), entries, now) =~= Set::empty());
    }
    for key in it: cache.keys()
        invariant
            it.seq() == all,
            all.unref().to_set() == cache@.dom(),
            all.no_duplicates(),
            all.len() == total,
            entries == answers(cache@),
            entries.dom() == cache@.dom(),
            expired_among(all.unref().take(it.index()), entries, now).finite(),
            count == expired_among(all.unref().take(it.index()), entries, now).len(),
            count <= it.index(),
    {
        let ghost visited = all.unref().take(it.index());
        proof {
            assert(all.unref()[it.index()] == *key);
            assert(all.unref().to_set().contains(*key));
            assert(visited.push(*key) == all.unref().take(it.index() + 1));
            assert(!visited.contains(*key)) by {
                if visited.contains(*key) {
                    let i = choose|i: int| 0 <= i < visited.len() && visited[i] == *key;
                    assert(all[i] == all[it.index()]);
                }
            }
            assert(!expired_among(visited, entries, now).contains(*key));
            lemma_expired_among_push(visited, *key, entries, now);
            lemma_answers(cache@);
        }
        match cache.get(key) {
            Some(entry) => {
                if entry.is_expired(now) {
                    count = count + 1;
                }
            },
            None => {},
        }
    }
    proof {
        assert(all.unref().take(all.len() as int) == all.unref());
        assert(expired_among(all.unref(), entries, now) =~= expired_keys(entries, now));
    }
    count
}

/// Removes every entry that has expired at `now`.
fn cleanup_cache(cache: &mut HashMap<u128, CacheEntry>, now: u128)
    ensures
        answers(final(cache)@) == live_entries(answers(old(cache)@), now),
        final(cache)@.len() <= old(cache)@.len(),
        final(cache)@.submap_of(old(cache)@),
{
    let dead = expired_key_list(cache, now);
    let ghost before = cache@;
    let mut i: usize = 0;
    while i < dead.len()
        invariant
            i <= dead.len(),
            cache@ == before.remove_keys(dead@.take(i as int).to_set()),
        decreases dead.len() - i,
    {
        proof {
            let done = dead@.take(i as int);
            assert(done.push(dead@[i as int]) == dead@.take(i + 1));
            done.lemma_push_to_set_commute(dead@[i as int]);
            assert(before.remove_keys(done.to_set()).remove(dead@[i as int])
                =~= before.remove_keys(done.to_set().insert(dead@[i as int])));
        }
        cache.remove(&dead[i]);
        i = i + 1;
    }
    proof {
        assert(dead@.take(dead@.len() as int) == dead@);
        lemma_answers(before);
        assert(answers(before.remove_keys(dead@.to_set())) =~= answers(before).remove_keys(
            dead@.to_set(),
        ));
        before.lemma_remove_keys_len(dead@.to_set());
    }
}

/// Picks a key of the map, where there is any. Which one is left open.
fn any_key(cache: &HashMap<u128, CacheEntry>) -> (picked: Option<u128>)
    ensures
        match picked {
            Some(key) => cache@.contains_key(key),
            None => cache@.len() == 0,
        },
{
    let ghost all = spec_keys_iter(cache).remaining();
    proof {
        axiom_spec_keys_iter(cache);
    }
    for key in it: cache.keys()
        invariant
            it.seq() == all,
            it.index() == 0,
            all.unref().to_set() == cache@.dom(),
            all.len() == cache@.dom().len(),
    {
        proof {
            assert(all.unref()[0] == *key);
            assert(all.unref().to_set().contains(*key));
        }
        return Some(*key);
    }
    None
}

/// Removes one entry, where there is any. Which one is left open.
fn evict_one(cache: &mut HashMap<u128, CacheEntry>)
    ensures
        old(cache)@.len() == 0 ==> final(cache)@ == old(cache)@,
        old(cache)@.len() > 0 ==> exists|victim: u128| #[trigger]
            old(cache)@.contains_key(victim) && final(cache)@ == old(cache)@.remove(victim),
{
    match any_key(cache) {
        Some(victim) => {
            cache.remove(&victim);
        },
        None => {},
    }
}

/// What `stats` reports.
#[derive(Debug, Clone, Copy, PartialEq, Eq)]
pub struct CacheStats {
    pub total_entries: usize,
    pub expired_entries: usize,
    pub active_entries: usize,
    pub max_size: usize,
}

/// The message cache.
pub struct DnsCache {
    enabled: bool,
    cache: HashMap<u128, CacheEntry>,
    max_size: usize,
    min_ttl: u64,
    max_ttl: u64,
    clock: Clock,
}

impl View for DnsCache {
    type V = CacheState;

    closed spec fn view(&self) -> CacheState {
        CacheState {
            enabled: self.enabled,
            max_size: self.max_size,
            min_ttl: self.min_ttl,
            max_ttl: self.max_ttl,
            entries: answers(self.cache@),
        }
    }
}

impl DnsCache {
    /// The invariant of the cache: its state is valid.
    pub open spec fn wf(&self) -> bool {
        self@.valid()
    }

    /// An empty cache with the given settings.
    pub fn new(config: &CacheConfig) -> (cache: DnsCache)
        ensures
            cache.wf(),
            cache@ == (CacheState {
                enabled: config.enabled,
                max_size: config.max_size,
                min_ttl: config.ttl_min,
                max_ttl: config.ttl_max,
                entries: Map::empty(),
            }),
    {
        let cache = DnsCache {
            enabled: config.enabled,
            cache: HashMap::new(),
            max_size: config.max_size,
            min_ttl: config.ttl_min,
            max_ttl: config.ttl_max,
            clock: Clock::start(),
        };
        assert(cache@.entries =~= Map::empty());
        cache
    }

    /// The key under which `query` is filed.
    pub fn generate_cache_key(&self, query: &DnsMessage) -> (key: u128)
        ensures
            key == fingerprint(query@),
    {
        fingerprint_of(query.as_slice())
    }

    /// Looks `query` up as of the clock reading `now`. An expired entry is
    /// reported as a miss and left in place.
    pub fn get_at(&self, query: &DnsMessage, now: u128) -> (response: Option<DnsMessage>)
        ensures
            bytes_of(response) == self@.lookup(query@, now),
    {
        if !self.enabled {
            return None;
        }
        let key = self.generate_cache_key(query);
        match self.cache.get(&key) {
            Some(entry) => {
                if !entry.is_expired(now) {
                    Some(entry.response.clone())
                } else {
                    None
                }
            },
            None => None,
        }
    }

    /// Looks `query` up at the present moment.
    pub fn get(&self, query: &DnsMessage) -> (response: Option<DnsMessage>)
        ensures
            self@.may_answer(query@, bytes_of(response)),
    {
        let now = self.clock.now();
        let response = self.get_at(query, now);
        assert(self@.lookup(query@, now) == bytes_of(response));
        response
    }

    /// Files `response` under `query` as of the clock reading `now`.
    pub fn put_at(
        &mut self,
        query: &DnsMessage,
        response: DnsMessage,
        ttl_hint: Option<u32>,
        now: u128,
    )
        requires
            old(self).wf(),
        ensures
            final(self).wf(),
            old(self)@.stores(query@, response@, ttl_hint, now, final(self)@),
    {
        if !self.enabled {
            return ;
        }
        let key = self.generate_cache_key(query);
        let ghost before = self.cache@;
        proof {
            lemma_answers(self.cache@);
        }
        if self.cache.len() >= self.max_size {
            cleanup_cache(&mut self.cache, now);
            proof {
                lemma_answers(self.cache@);
            }
            if self.cache.len() >= self.max_size {
                evict_one(&mut self.cache);
                proof {
                    lemma_answers(self.cache@);
                }
            }
        }
        let ttl = match ttl_hint {
            Some(hint) => {
                let raised = if (hint as u64) < self.min_ttl {
                    self.min_ttl
                } else {
                    hint as u64
                };
                if raised > self.max_ttl {
                    self.max_ttl
                } else {
                    raised
                }
            },
            None => self.min_ttl,
        };
        let entry = CacheEntry::new(response, ttl, now);
        self.cache.insert(key, entry);
    }

    /// Files `response` under `query` at the present moment.
    pub fn put(&mut self, query: &DnsMessage, response: DnsMessage, ttl_hint: Option<u32>)
        requires
            old(self).wf(),
        ensures
            final(self).wf(),
            old(self)@.may_store(query@, response@, ttl_hint, final(self)@),
    {
        let now = self.clock.now();
        self.put_at(query, response, ttl_hint, now)
    }

    /// Removes every entry that has expired at the clock reading `now` and
    /// reports how many entries there were before and after.
    pub fn cleanup_at(&mut self, now: u128) -> (sizes: (usize, usize))
        requires
            old(self).wf(),
        ensures
            final(self).wf(),
            final(self)@ == (CacheState {
                entries: live_entries(old(self)@.entries, now),
                ..old(self)@
            }),
            sizes.0 == old(self)@.entries.len(),
            sizes.1 == final(self)@.entries.len(),
    {
        proof {
            lemma_answers(self.cache@);
        }
        let initial_size = self.cache.len();
        if !self.enabled {
            assert(live_entries(self@.entries, now) =~= self@.entries);
            return (initial_size, initial_size);
        }
        cleanup_cache(&mut self.cache, now);
        proof {
            lemma_answers(self.cache@);
        }
        let final_size = self.cache.len();
        (initial_size, final_size)
    }

    /// Removes every entry that has expired at the present moment and
    /// reports how many entries there were before and after.
    pub fn cleanup(&mut self) -> (sizes: (usize, usize))
        requires
            old(self).wf(),
        ensures
            final(self).wf(),
            exists|now: u128|
                final(self)@ == (CacheState {
                    entries: #[trigger] live_entries(old(self)@.entries, now),
                    ..old(self)@
                }),
            sizes.0 == old(self)@.entries.len(),
            sizes.1 == final(self)@.entries.len(),
    {
        let now = self.clock.now();
        self.cleanup_at(now)
    }

    /// Counts the entries as of the clock reading `now`.
    pub fn stats_at(&self, now: u128) -> (stats: CacheStats)
        requires
            self.wf(),
        ensures
            stats.total_entries == self@.entries.len(),
            stats.expired_entries == expired_keys(self@.entries, now).len(),
            stats.active_entries == live_entries(self@.entries, now).len(),
            stats.active_entries == stats.total_entries - stats.expired_entries,
            stats.max_size == self@.max_size,
    {
        proof {
            lemma_answers(self.cache@);
        }
        let total_entries = self.cache.len();
        let expired_entries = count_expired(&self.cache, now);
        proof {
            self@.entries.lemma_remove_keys_len(expired_keys(self@.entries, now));
        }
        CacheStats {
            total_entries,
            expired_entries,
            active_entries: total_entries - expired_entries,
            max_size: self.max_size,
        }
    }

    /// Counts the entries at the present moment.
    pub fn stats(&self) -> (stats: CacheStats)
        requires
            self.wf(),
        ensures
            stats.total_entries == self@.entries.len(),
            exists|now: u128|
                stats.expired_entries == (#[trigger] expired_keys(self@.entries, now)).len(),
            stats.active_entries == stats.total_entries - stats.expired_entries,
            stats.max_size == self@.max_size,
    {
        let now = self.clock.now();
        self.stats_at(now)
    }

    /// Removes every entry.
    pub fn clear(&mut self)
        requires
            old(self).wf(),
        ensures
            final(self).wf(),
            final(self)@ == (CacheState { entries: Map::empty(), ..old(self)@ }),
    {
        self.cache.clear();
        assert(self@.entries =~= Map::empty());
    }
}

} // verus!
