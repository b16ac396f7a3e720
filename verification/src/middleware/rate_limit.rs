//! Admission control: one token bucket per client address.

use vstd::prelude::*;
use std::collections::HashMap;
use crate::addr::SocketAddress;
use crate::clock::{elapsed_between, Clock, NANOS_PER_SEC};
use crate::middleware::{DnsMessage, Middleware, MiddlewareError, MiddlewareOutcome, MiddlewareResult};

verus! {

/// A token bucket: a pool of at most `max_tokens` permits that regains
/// `refill_rate` permits per second.
#[derive(Debug, Clone, Copy, PartialEq, Eq, Structural)]
pub struct RateLimitBucket {
    pub tokens: u32,
    /// The clock reading at which tokens were last added.
    pub last_refill: u128,
    pub max_tokens: u32,
    /// Tokens regained per second.
    pub refill_rate: u32,
}

impl RateLimitBucket {
    /// The token count never exceeds the capacity.
    pub open spec fn valid(self) -> bool {
        self.tokens <= self.max_tokens
    }

    /// A full bucket made at `now`.
    pub open spec fn fresh(max_tokens: u32, refill_rate: u32, now: u128) -> RateLimitBucket {
        RateLimitBucket { tokens: max_tokens, last_refill: now, max_tokens, refill_rate }
    }

    /// The whole tokens regained between the last refill and `now`: the
    /// elapsed seconds times the refill rate, rounded down.
    pub open spec fn regained(self, now: u128) -> nat {
        (elapsed_between(self.last_refill, now) * self.refill_rate as nat) / (NANOS_PER_SEC as nat)
    }

    /// The bucket after a refill at `now`. Where at least one whole token
    /// was regained, the regained tokens are added up to the capacity and
    /// the time of the last refill moves to `now`, so the fraction of a
    /// token that had accrued beyond them is dropped. Where none was, the
    /// bucket is left as it is.
    pub open spec fn refilled(self, now: u128) -> RateLimitBucket {
        let gained = self.regained(now);
        if gained > 0 {
            RateLimitBucket {
                tokens: if self.tokens + gained >= self.max_tokens {
                    self.max_tokens
                } else {
                    (self.tokens + gained) as u32
                },
                last_refill: now,
                ..self
            }
        } else {
            self
        }
    }

    /// Whether a request at `now` is admitted: after the refill there is a
    /// token to take.
    pub open spec fn admits(self, now: u128) -> bool {
        self.refilled(now).tokens > 0
    }

    /// The bucket after an admission check at `now`: refilled, and one
    /// token poorer where the request was admitted.
    pub open spec fn checked(self, now: u128) -> RateLimitBucket {
        let bucket = self.refilled(now);
        if bucket.tokens > 0 {
            RateLimitBucket { tokens: (bucket.tokens - 1) as u32, ..bucket }
        } else {
            bucket
        }
    }

    /// The bucket after one admission check at each of `times`, in order.
    pub open spec fn after_checks(self, times: Seq<u128>) -> RateLimitBucket
        decreases times.len(),
    {
        if times.len() == 0 {
            self
        } else {
            self.after_checks(times.drop_last()).checked(times.last())
        }
    }

    /// A full bucket made at the clock reading `now`.
    pub fn new(max_tokens: u32, refill_rate: u32, now: u128) -> (bucket: RateLimitBucket)
        ensures
            bucket == RateLimitBucket::fresh(max_tokens, refill_rate, now),
            bucket.valid(),
    {
        RateLimitBucket { tokens: max_tokens, last_refill: now, max_tokens, refill_rate }
    }

    /// Refills the bucket, then takes a token where there is one. Returns
    /// whether the request is admitted.
    pub fn try_consume(&mut self, now: u128) -> (admitted: bool)
        ensures
            admitted == old(self).admits(now),
            *final(self) == old(self).checked(now),
            old(self).valid() ==> final(self).valid(),
    {
        self.refill(now);
        if self.tokens > 0 {
            self.tokens = self.tokens - 1;
            true
        } else {
            false
        }
    }

    /// Adds the whole tokens regained since the last refill.
    pub fn refill(&mut self, now: u128)
        ensures
            *final(self) == old(self).refilled(now),
            old(self).valid() ==> final(self).valid(),
    {
        let elapsed: u128 = if now >= self.last_refill {
            now - self.last_refill
        } else {
            0
        };
        let gained: u128 = match elapsed.checked_mul(self.refill_rate as u128) {
            Some(product) => product / NANOS_PER_SEC,
            None => u128::MAX,
        };
        if gained > 0 {
            if self.tokens >= self.max_tokens || gained >= (self.max_tokens - self.tokens) as u128 {
                self.tokens = self.max_tokens;
            } else {
                self.tokens = self.tokens + gained as u32;
            }
            self.last_refill = now;
        }
    }
}

/// The rate limiter as a mathematical value.
pub ghost struct RateLimiterState {
    pub enabled: bool,
    /// The capacity every new bucket is made with.
    pub max_tokens: u32,
    /// The refill rate every new bucket is made with.
    pub refill_rate: u32,
    /// The bucket of every client address seen so far.
    pub buckets: Map<SocketAddress, RateLimitBucket>,
}

impl RateLimiterState {
    /// Every bucket holds no more tokens than its capacity.
    pub open spec fn valid(self) -> bool {
        forall|client_addr: SocketAddress| #[trigger]
            self.buckets.contains_key(client_addr) ==> self.buckets[client_addr].valid()
    }

    /// The bucket a request from `client_addr` at `now` is checked against:
    /// the one the address has, or a full one made on this first contact.
    pub open spec fn bucket_for(self, client_addr: SocketAddress, now: u128) -> RateLimitBucket {
        if self.buckets.contains_key(client_addr) {
            self.buckets[client_addr]
        } else {
            RateLimitBucket::fresh(self.max_tokens, self.refill_rate, now)
        }
    }

    /// Whether a request from `client_addr` at `now` is admitted. A
    /// disabled limiter admits everything.
    pub open spec fn admits(self, client_addr: SocketAddress, now: u128) -> bool {
        !self.enabled || self.bucket_for(client_addr, now).admits(now)
    }

    /// The limiter after the admission check of a request from
    /// `client_addr` at `now`. A disabled limiter keeps no buckets.
    pub open spec fn checked(self, client_addr: SocketAddress, now: u128) -> RateLimiterState {
        if self.enabled {
            RateLimiterState {
                buckets: self.buckets.insert(
                    client_addr,
                    self.bucket_for(client_addr, now).checked(now),
                ),
                ..self
            }
        } else {
            self
        }
    }
}

/// The bucket of one client address.
struct BucketSlot {
    client_addr: SocketAddress,
    bucket: RateLimitBucket,
}

/// The number of the chain that an address is filed in. Addresses that
/// differ may share a chain; within a chain they are told apart in full.
spec fn chain_of(client_addr: SocketAddress) -> u64 {
    match client_addr {
        SocketAddress::V4 { ip, port } => (ip as int * 0x1_0000 + port as int) as u64,
        SocketAddress::V6 { ip, port, flowinfo, scope_id } => ((ip as int % 0x1_0000_0000_0000_0000
            + ip as int / 0x1_0000_0000_0000_0000 + port as int * 0x1_0000 + scope_id as int
            * 0x1_0000_0000 + flowinfo as int) % 0x1_0000_0000_0000_0000) as u64,
    }
}

/// Computes the number of the chain that an address is filed in.
fn chain_number(client_addr: SocketAddress) -> (number: u64)
    ensures
        number == chain_of(client_addr),
{
    match client_addr {
        SocketAddress::V4 { ip, port } => ip as u64 * 0x1_0000 + port as u64,
        SocketAddress::V6 { ip, port, flowinfo, scope_id } => {
            let sum: u128 = ip % 0x1_0000_0000_0000_0000 + ip / 0x1_0000_0000_0000_0000
                + port as u128 * 0x1_0000 + scope_id as u128 * 0x1_0000_0000 + flowinfo as u128;
            (sum % 0x1_0000_0000_0000_0000) as u64
        },
    }
}

/// No two slots are for the same address.
spec fn distinct_clients(slots: Seq<BucketSlot>) -> bool {
    forall|i: int, j: int|
        0 <= i < j < slots.len() ==> (#[trigger] slots[i]).client_addr != (
        #[trigger] slots[j]).client_addr
}

/// Whether slot `i` is the slot of `client_addr`.
spec fn slot_of(slots: Seq<BucketSlot>, client_addr: SocketAddress, i: int) -> bool {
    0 <= i < slots.len() && slots[i].client_addr == client_addr
}

/// The buckets that the slots of one chain hold, by address.
spec fn chain_map(slots: Seq<BucketSlot>) -> Map<SocketAddress, RateLimitBucket> {
    Map::new(
        |client_addr: SocketAddress| exists|i: int| slot_of(slots, client_addr, i),
        |client_addr: SocketAddress| slots[choose|i: int| slot_of(slots, client_addr, i)].bucket,
    )
}

/// The buckets that the chains hold, by address.
spec fn bucket_map(chains: Map<u64, Vec<BucketSlot>>) -> Map<SocketAddress, RateLimitBucket> {
    Map::new(
        |client_addr: SocketAddress|
            chains.contains_key(chain_of(client_addr)) && chain_map(
                chains[chain_of(client_addr)]@,
            ).contains_key(client_addr),
        |client_addr: SocketAddress| chain_map(chains[chain_of(client_addr)]@)[client_addr],
    )
}

/// Every chain holds each address once, and only addresses that are filed
/// in it.
spec fn chains_wf(chains: Map<u64, Vec<BucketSlot>>) -> bool {
    forall|number: u64| #[trigger]
        chains.contains_key(number) ==> {
            &&& distinct_clients(chains[number]@)
            &&& forall|client_addr: SocketAddress| #[trigger]
                chain_map(chains[number]@).contains_key(client_addr) ==> chain_of(client_addr)
                    == number
        }
}

/// The stage that admits or rejects each request by the token bucket of
/// the address it came from. Buckets are made on first contact and kept.
pub struct RateLimitMiddleware {
    enabled: bool,
    buckets: HashMap<u64, Vec<BucketSlot>>,
    max_tokens: u32,
    refill_rate: u32,
    clock: Clock,
}

impl View for RateLimitMiddleware {
    type V = RateLimiterState;

    closed spec fn view(&self) -> RateLimiterState {
        RateLimiterState {
            enabled: self.enabled,
            max_tokens: self.max_tokens,
            refill_rate: self.refill_rate,
            buckets: bucket_map(self.buckets@),
        }
    }
}

impl RateLimitMiddleware {
    /// The invariant of the representation.
    pub closed spec fn slots_wf(&self) -> bool {
        chains_wf(self.buckets@)
    }

    /// A limiter that has seen no client yet. Each client may burst up to
    /// `burst_size` requests and regains `requests_per_second` per second.
    pub fn new(enabled: bool, requests_per_second: u32, burst_size: u32) -> (stage:
        RateLimitMiddleware)
        ensures
            stage.wf(),
            stage@ == (RateLimiterState {
                enabled,
                max_tokens: burst_size,
                refill_rate: requests_per_second,
                buckets: Map::empty(),
            }),
    {
        let stage = RateLimitMiddleware {
            enabled,
            buckets: HashMap::new(),
            max_tokens: burst_size,
            refill_rate: requests_per_second,
            clock: Clock::start(),
        };
        assert(stage@.buckets =~= Map::empty());
        stage
    }

    /// Checks a request from `client_addr` as of the clock reading `now`
    /// and returns whether it is admitted.
    pub fn check_rate_limit_at(&mut self, client_addr: SocketAddress, now: u128) -> (admitted:
        bool)
        requires
            old(self).wf(),
        ensures
            final(self).wf(),
            admitted == old(self)@.admits(client_addr, now),
            final(self)@ == old(self)@.checked(client_addr, now),
    {
        if !self.enabled {
            return true;
        }
        let ghost before = self.buckets@;
        let number = chain_number(client_addr);
        let mut chain = match self.buckets.remove(&number) {
            Some(chain) => chain,
            None => Vec::new(),
        };
        let ghost slots = chain@;
        proof {
            if !before.contains_key(number) {
                assert(chain_map(slots) =~= Map::empty());
            }
        }
        let admitted = check_in_chain(
            &mut chain,
            client_addr,
            self.max_tokens,
            self.refill_rate,
            now,
        );
        let ghost checked = chain_map(chain@)[client_addr];
        self.buckets.insert(number, chain);
        proof {
            assert(self.buckets@ =~= before.insert(number, chain));
            lemma_bucket_map_insert(before, number, slots, chain, client_addr, checked);
            assert forall|other: SocketAddress| #[trigger]
                self@.buckets.contains_key(other) implies self@.buckets[other].valid() by {
                if other != client_addr {
                    assert(old(self)@.buckets.contains_key(other));
                } else if old(self)@.buckets.contains_key(client_addr) {
                    assert(old(self)@.buckets[client_addr].valid());
                }
            }
        }
        admitted
    }

    /// Checks a request from `client_addr` at the present moment and
    /// returns whether it is admitted.
    pub fn check_rate_limit(&mut self, client_addr: SocketAddress) -> (admitted: bool)
        requires
            old(self).wf(),
        ensures
            final(self).wf(),
            exists|now: u128|
                admitted == #[trigger] old(self)@.admits(client_addr, now) && final(self)@ == old(
                    self,
                )@.checked(client_addr, now),
    {
        let now = self.clock.now();
        self.check_rate_limit_at(client_addr, now)
    }
}

/// Checks a request from `client_addr` against its bucket in `chain`, a
/// full one being added where it has none yet.
fn check_in_chain(
    chain: &mut Vec<BucketSlot>,
    client_addr: SocketAddress,
    max_tokens: u32,
    refill_rate: u32,
    now: u128,
) -> (admitted: bool)
    requires
        distinct_clients(old(chain)@),
    ensures
        distinct_clients(final(chain)@),
        ({
            let bucket = if chain_map(old(chain)@).contains_key(client_addr) {
                chain_map(old(chain)@)[client_addr]
            } else {
                RateLimitBucket::fresh(max_tokens, refill_rate, now)
            };
            &&& admitted == bucket.admits(now)
            &&& chain_map(final(chain)@) == chain_map(old(chain)@).insert(
                client_addr,
                bucket.checked(now),
            )
        }),
{
    let ghost before = chain@;
    match position(chain, client_addr) {
        Some(at) => {
            let admitted = chain[at].bucket.try_consume(now);
            proof {
                lemma_chain_update(before, chain@, at as int);
            }
            admitted
        },
        None => {
            let mut bucket = RateLimitBucket::new(max_tokens, refill_rate, now);
            let admitted = bucket.try_consume(now);
            chain.push(BucketSlot { client_addr, bucket });
            proof {
                assert(chain@.drop_last() =~= before);
                lemma_chain_push(before, chain@);
            }
            admitted
        },
    }
}

/// The slot of `client_addr` in a chain, where it has one.
fn position(chain: &Vec<BucketSlot>, client_addr: SocketAddress) -> (at: Option<usize>)
    ensures
        match at {
            Some(i) => slot_of(chain@, client_addr, i as int),
            None => forall|j: int| !slot_of(chain@, client_addr, j),
        },
{
    let mut i: usize = 0;
    while i < chain.len()
        invariant
            i <= chain.len(),
            forall|j: int| 0 <= j < i ==> !slot_of(chain@, client_addr, j),
        decreases chain.len() - i,
    {
        if chain[i].client_addr == client_addr {
            return Some(i);
        }
        i = i + 1;
    }
    None
}

/// What the buckets of a chain are once the bucket in slot `at` has been
/// replaced.
proof fn lemma_chain_update(before: Seq<BucketSlot>, after: Seq<BucketSlot>, at: int)
    requires
        distinct_clients(before),
        0 <= at < before.len(),
        after.len() == before.len(),
        after[at].client_addr == before[at].client_addr,
        forall|j: int| 0 <= j < before.len() && j != at ==> after[j] == before[j],
    ensures
        distinct_clients(after),
        chain_map(after) == chain_map(before).insert(before[at].client_addr, after[at].bucket),
        chain_map(before).contains_key(before[at].client_addr),
        chain_map(before)[before[at].client_addr] == before[at].bucket,
{
    let client_addr = before[at].client_addr;
    assert(slot_of(before, client_addr, at));
    assert(slot_of(after, client_addr, at));
    assert forall|other: SocketAddress, i: int|
        slot_of(after, other, i) <==> slot_of(before, other, i) by {}
    assert(chain_map(after) =~= chain_map(before).insert(client_addr, after[at].bucket)) by {
        assert forall|other: SocketAddress| #[trigger]
            chain_map(after).contains_key(other) implies chain_map(after)[other] == chain_map(
            before,
        ).insert(client_addr, after[at].bucket)[other] by {
            let i = choose|i: int| slot_of(after, other, i);
            let j = choose|j: int| slot_of(before, other, j);
            assert(slot_of(before, other, i));
            assert(i == j);
        }
    }
}

/// What the buckets of a chain are once a slot for a new address has been
/// added.
proof fn lemma_chain_push(before: Seq<BucketSlot>, after: Seq<BucketSlot>)
    requires
        distinct_clients(before),
        after.len() == before.len() + 1,
        after.drop_last() == before,
        forall|j: int| 0 <= j < before.len() ==> !slot_of(before, after.last().client_addr, j),
    ensures
        distinct_clients(after),
        !chain_map(before).contains_key(after.last().client_addr),
        chain_map(after) == chain_map(before).insert(
            after.last().client_addr,
            after.last().bucket,
        ),
{
    let client_addr = after.last().client_addr;
    let last = before.len() as int;
    assert forall|j: int| 0 <= j < before.len() implies after[j] == before[j] by {
        assert(after.drop_last()[j] == after[j]);
    }
    assert(slot_of(after, client_addr, last));
    assert forall|i: int, j: int| 0 <= i < j < after.len() implies (#[trigger] after[i]).client_addr
        != (#[trigger] after[j]).client_addr by {
        if j == last {
            assert(!slot_of(before, client_addr, i));
        }
    }
    assert(chain_map(after) =~= chain_map(before).insert(client_addr, after.last().bucket)) by {
        assert forall|other: SocketAddress| #[trigger]
            chain_map(after).contains_key(other) <==> (chain_map(before).contains_key(other)
                || other == client_addr) by {
            if chain_map(after).contains_key(other) && other != client_addr {
                let i = choose|i: int| slot_of(after, other, i);
                assert(slot_of(before, other, i));
            }
            if chain_map(before).contains_key(other) {
                let i = choose|i: int| slot_of(before, other, i);
                assert(slot_of(after, other, i));
            }
        }
        assert forall|other: SocketAddress| #[trigger]
            chain_map(after).contains_key(other) implies chain_map(after)[other] == chain_map(
            before,
        ).insert(client_addr, after.last().bucket)[other] by {
            let i = choose|i: int| slot_of(after, other, i);
            if other == client_addr {
                if i != last {
                    assert(slot_of(before, client_addr, i));
                }
            } else {
                let j = choose|j: int| slot_of(before, other, j);
                assert(slot_of(before, other, i));
                assert(i == j);
            }
        }
    }
}

/// What the buckets are once the chain that `client_addr` is filed in has
/// been replaced by one that differs in the bucket of that address alone.
proof fn lemma_bucket_map_insert(
    chains: Map<u64, Vec<BucketSlot>>,
    number: u64,
    slots: Seq<BucketSlot>,
    chain: Vec<BucketSlot>,
    client_addr: SocketAddress,
    bucket: RateLimitBucket,
)
    requires
        chains_wf(chains),
        number == chain_of(client_addr),
        chains.contains_key(number) ==> slots == chains[number]@,
        !chains.contains_key(number) ==> chain_map(slots) == Map::<
            SocketAddress,
            RateLimitBucket,
        >::empty(),
        distinct_clients(chain@),
        chain_map(chain@) == chain_map(slots).insert(client_addr, bucket),
    ensures
        chains_wf(chains.insert(number, chain)),
        bucket_map(chains.insert(number, chain)) == bucket_map(chains).insert(client_addr, bucket),
        bucket_map(chains).contains_key(client_addr) == chain_map(slots).contains_key(client_addr),
        bucket_map(chains).contains_key(client_addr) ==> bucket_map(chains)[client_addr]
            == chain_map(slots)[client_addr],
{
    let after = chains.insert(number, chain);
    assert forall|other: u64| #[trigger] after.contains_key(other) implies {
        &&& distinct_clients(after[other]@)
        &&& forall|addr: SocketAddress| #[trigger]
            chain_map(after[other]@).contains_key(addr) ==> chain_of(addr) == other
    } by {
        if other == number {
            assert forall|addr: SocketAddress| #[trigger]
                chain_map(chain@).contains_key(addr) implies chain_of(addr) == number by {
                if addr != client_addr {
                    assert(chain_map(slots).contains_key(addr));
                    assert(chains.contains_key(number));
                }
            }
        } else {
            assert(chains.contains_key(other));
        }
    }
    assert(bucket_map(after) =~= bucket_map(chains).insert(client_addr, bucket)) by {
        assert forall|addr: SocketAddress|
            bucket_map(after).contains_key(addr) <==> #[trigger] bucket_map(chains).insert(
                client_addr,
                bucket,
            ).contains_key(addr) by {
            if chain_of(addr) == number {
                assert(chain_map(chain@).contains_key(addr) <==> (chain_map(slots).contains_key(
                    addr,
                ) || addr == client_addr));
            }
        }
    }
}

impl Middleware for RateLimitMiddleware {
    open spec fn wf(&self) -> bool {
        self.slots_wf() && self@.valid()
    }

    open spec fn request_effect(
        before: Self,
        request: Seq<u8>,
        client_addr: SocketAddress,
        after: Self,
        outcome: MiddlewareOutcome,
    ) -> bool {
        exists|now: u128|
            {
                &&& after@ == #[trigger] before@.checked(client_addr, now)
                &&& outcome == if before@.admits(client_addr, now) {
                    MiddlewareOutcome::Continue
                } else {
                    MiddlewareOutcome::Rejected(MiddlewareError::RateLimited)
                }
            }
    }

    open spec fn response_effect(
        before: Self,
        request: Seq<u8>,
        response: Seq<u8>,
        client_addr: SocketAddress,
        after: Self,
        rewritten: Seq<u8>,
        failure: Option<MiddlewareError>,
    ) -> bool {
        after@ == before@ && rewritten == response && failure is None
    }

    open spec fn named(&self, name: Seq<char>) -> bool {
        name == "RateLimitMiddleware"@
    }

    fn handle_request(&mut self, request: &DnsMessage, client_addr: SocketAddress) -> (result:
        MiddlewareResult) {
        if !self.check_rate_limit(client_addr) {
            return Err(MiddlewareError::RateLimited);
        }
        Ok(None)
    }

    fn handle_response(
        &mut self,
        request: &DnsMessage,
        response: &mut DnsMessage,
        client_addr: SocketAddress,
    ) -> (verdict: Result<(), MiddlewareError>) {
        Ok(())
    }

    fn name(&self) -> (name: &str) {
        "RateLimitMiddleware"
    }
}

/// An admission check keeps the token count within the capacity.
pub proof fn lemma_check_keeps_bucket_valid(bucket: RateLimitBucket, now: u128)
    requires
        bucket.valid(),
    ensures
        bucket.refilled(now).valid(),
        bucket.checked(now).valid(),
{
}

/// A burst drains a full bucket one token at a time. Of the requests that
/// reach a bucket of capacity `max_tokens` before it has regained its first
/// token, the first `max_tokens` are admitted and every later one is
/// rejected; after `n` of them the bucket holds `max_tokens - n` tokens, or
/// none, and its last refill is still the moment it was made.
pub proof fn lemma_burst_is_admitted_up_to_capacity(
    max_tokens: u32,
    refill_rate: u32,
    made_at: u128,
    times: Seq<u128>,
)
    requires
        forall|i: int|
            0 <= i < times.len() ==> RateLimitBucket::fresh(
                max_tokens,
                refill_rate,
                made_at,
            ).regained(#[trigger] times[i]) == 0,
    ensures
        ({
            let bucket = RateLimitBucket::fresh(max_tokens, refill_rate, made_at);
            &&& forall|n: int|
                0 <= n <= times.len() ==> (#[trigger] bucket.after_checks(times.take(n)))
                    == (RateLimitBucket {
                    tokens: if n <= max_tokens {
                        (max_tokens - n) as u32
                    } else {
                        0
                    },
                    ..bucket
                })
            &&& forall|n: int|
                0 <= n < times.len() ==> (#[trigger] bucket.after_checks(times.take(n))).admits(
                    times[n],
                ) == (n < max_tokens)
        }),
{
    let bucket = RateLimitBucket::fresh(max_tokens, refill_rate, made_at);
    assert forall|n: int| 0 <= n <= times.len() implies (#[trigger] bucket.after_checks(
        times.take(n),
    )) == (RateLimitBucket {
        tokens: if n <= max_tokens {
            (max_tokens - n) as u32
        } else {
            0
        },
        ..bucket
    }) by {
        lemma_burst_drains(max_tokens, refill_rate, made_at, times, n);
    }
    assert forall|n: int| 0 <= n < times.len() implies (#[trigger] bucket.after_checks(
        times.take(n),
    )).admits(times[n]) == (n < max_tokens) by {
        lemma_burst_drains(max_tokens, refill_rate, made_at, times, n);
    }
}

/// The bucket after the first `n` requests of a burst.
proof fn lemma_burst_drains(
    max_tokens: u32,
    refill_rate: u32,
    made_at: u128,
    times: Seq<u128>,
    n: int,
)
    requires
        0 <= n <= times.len(),
        forall|i: int|
            0 <= i < times.len() ==> RateLimitBucket::fresh(
                max_tokens,
                refill_rate,
                made_at,
            ).regained(#[trigger] times[i]) == 0,
    ensures
        RateLimitBucket::fresh(max_tokens, refill_rate, made_at).after_checks(times.take(n))
            == (RateLimitBucket {
            tokens: if n <= max_tokens {
                (max_tokens - n) as u32
            } else {
                0
            },
            ..RateLimitBucket::fresh(max_tokens, refill_rate, made_at)
        }),
    decreases n,
{
    let bucket = RateLimitBucket::fresh(max_tokens, refill_rate, made_at);
    if n > 0 {
        lemma_burst_drains(max_tokens, refill_rate, made_at, times, n - 1);
        assert(times.take(n).drop_last() == times.take(n - 1));
        assert(times.take(n).last() == times[n - 1]);
        let earlier = bucket.after_checks(times.take(n - 1));
        assert(earlier.regained(times[n - 1]) == 0);
    } else {
        assert(times.take(0).len() == 0);
    }
}

/// The token bucket at work. A client that has never been seen may send
/// `max_tokens` requests at once, and the next one is rejected. Once the
/// time that one token takes has passed since the bucket was made, exactly
/// one further request is admitted: the one at `later` is, and the one
/// that follows it at `next`, before another token is regained, is not.
/// The bucket must be able to hold a token at all.
pub proof fn lemma_burst_then_one_per_token(
    max_tokens: u32,
    refill_rate: u32,
    made_at: u128,
    later: u128,
    next: u128,
)
    requires
        max_tokens > 0,
        RateLimitBucket::fresh(max_tokens, refill_rate, made_at).regained(later) == 1,
        (RateLimitBucket { tokens: 0, last_refill: later, max_tokens, refill_rate }).regained(next)
            == 0,
    ensures
        ({
            let bucket = RateLimitBucket::fresh(max_tokens, refill_rate, made_at);
            let burst = Seq::new(max_tokens as nat + 1, |i: int| made_at);
            let drained = bucket.after_checks(burst);
            &&& forall|n: int|
                0 <= n < max_tokens ==> (#[trigger] bucket.after_checks(burst.take(n))).admits(
                    made_at,
                )
            &&& !bucket.after_checks(burst.take(max_tokens as int)).admits(made_at)
            &&& drained.admits(later)
            &&& !drained.checked(later).admits(next)
        }),
{
    let bucket = RateLimitBucket::fresh(max_tokens, refill_rate, made_at);
    let burst = Seq::new(max_tokens as nat + 1, |i: int| made_at);
    assert(bucket.regained(made_at) == 0) by {
        assert(elapsed_between(made_at, made_at) == 0);
        assert(0 * (refill_rate as nat) == 0) by (nonlinear_arith);
    }
    lemma_burst_is_admitted_up_to_capacity(max_tokens, refill_rate, made_at, burst);
    assert(burst.take(burst.len() as int) == burst);
    let drained = bucket.after_checks(burst);
    assert(drained == bucket.after_checks(burst.take(max_tokens + 1)));
    assert(drained == (RateLimitBucket { tokens: 0, ..bucket }));
    lemma_one_token_after_wait(drained, later, next);
}

/// Once a drained bucket has regained exactly one token, exactly one
/// further request is admitted: the request at `later` is, and one that
/// follows before another token is regained is not. The bucket must be able
/// to hold a token at all.
pub proof fn lemma_one_token_after_wait(bucket: RateLimitBucket, later: u128, next: u128)
    requires
        bucket.max_tokens > 0,
        bucket.tokens == 0,
        bucket.regained(later) == 1,
        bucket.checked(later).regained(next) == 0,
    ensures
        bucket.admits(later),
        bucket.checked(later).tokens == 0,
        bucket.checked(later).last_refill == later,
        !bucket.checked(later).admits(next),
{
}

} // verus!
