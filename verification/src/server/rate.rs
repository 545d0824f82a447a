//! Token-bucket rate limiting, per client and per address.
//!
//! Time is a count of nanoseconds from an arbitrary start. Tokens are counted in
//! billionths, so a rate of `r` tokens per second adds exactly `r` billionths
//! per nanosecond and nothing is rounded.

use std::collections::HashMap;

use vstd::prelude::*;

verus! {

broadcast use vstd::std_specs::hash::group_hash_axioms;

/// Billionths in one token, and nanoseconds in one second.
pub const TOKEN: u64 = 1_000_000_000;

/// How long stale per-address buckets are kept before a sweep, in nanoseconds.
pub const SWEEP_INTERVAL: u64 = 60_000_000_000;

/// Time from `from` to `to`; none if `to` lies earlier.
pub open spec fn elapsed(from: u64, to: u64) -> nat {
    if to >= from {
        (to - from) as nat
    } else {
        0
    }
}

/// What a token bucket holds.
pub struct BucketView {
    /// Billionths of a token.
    pub tokens: nat,
    /// Whole tokens that fit.
    pub capacity: nat,
    /// Whole tokens per second.
    pub rate: nat,
    pub last_refill: u64,
}

impl BucketView {
    /// A bucket starts full.
    pub open spec fn full(capacity: nat, rate: nat, now: u64) -> Self {
        BucketView { tokens: capacity * TOKEN as nat, capacity, rate, last_refill: now }
    }

    pub open spec fn wf(self) -> bool {
        self.tokens <= self.capacity * TOKEN as nat
    }

    /// The tokens there would be at `now` if nothing limited them.
    pub open spec fn gathered(self, now: u64) -> nat {
        self.tokens + elapsed(self.last_refill, now) * self.rate
    }

    /// The tokens there are at `now`: those gathered, as far as they fit.
    pub open spec fn available(self, now: u64) -> nat {
        if self.gathered(now) <= self.capacity * TOKEN as nat {
            self.gathered(now)
        } else {
            self.capacity * TOKEN as nat
        }
    }

    /// Whether a whole token is there at `now`.
    pub open spec fn allows(self, now: u64) -> bool {
        self.available(now) >= TOKEN
    }

    /// The bucket after an attempt at `now`: refilled, and one token less if a
    /// whole one was there.
    pub open spec fn consumed(self, now: u64) -> Self {
        BucketView {
            tokens: if self.allows(now) {
                (self.available(now) - TOKEN) as nat
            } else {
                self.available(now)
            },
            last_refill: now,
            ..self
        }
    }

    /// The bucket after attempts at each of `times`, in order.
    pub open spec fn after(self, times: Seq<u64>) -> Self
        decreases times.len(),
    {
        if times.len() == 0 {
            self
        } else {
            self.after(times.drop_last()).consumed(times.last())
        }
    }

    /// How many of the attempts at `times` succeed.
    pub open spec fn admitted(self, times: Seq<u64>) -> nat
        decreases times.len(),
    {
        if times.len() == 0 {
            0
        } else if self.after(times.drop_last()).allows(times.last()) {
            self.admitted(times.drop_last()) + 1
        } else {
            self.admitted(times.drop_last())
        }
    }
}

/// A bucket that gathers tokens at a steady rate up to a capacity and gives one
/// away per attempt.
pub struct TokenBucket {
    tokens: u64,
    capacity: u32,
    refill_rate: u32,
    last_refill: u64,
}

impl View for TokenBucket {
    type V = BucketView;

    closed spec fn view(&self) -> BucketView {
        BucketView {
            tokens: self.tokens as nat,
            capacity: self.capacity as nat,
            rate: self.refill_rate as nat,
            last_refill: self.last_refill,
        }
    }
}

impl TokenBucket {
    pub fn new(capacity: u32, refill_rate: u32, now: u64) -> (r: Self)
        ensures
            r@ == BucketView::full(capacity as nat, refill_rate as nat, now),
    {
        TokenBucket { tokens: capacity as u64 * TOKEN, capacity, refill_rate, last_refill: now }
    }

    /// The tokens there are at `now`, in billionths.
    fn available(&self, now: u64) -> (r: u64)
        ensures
            r == self@.available(now),
    {
        let full: u64 = self.capacity as u64 * TOKEN;
        let age: u64 = if now >= self.last_refill {
            now - self.last_refill
        } else {
            0
        };
        assert(age * self.refill_rate <= u64::MAX * u32::MAX) by (nonlinear_arith)
            requires
                age <= u64::MAX,
                self.refill_rate <= u32::MAX,
        ;
        let gathered: u128 = self.tokens as u128 + age as u128 * self.refill_rate as u128;
        if gathered <= full as u128 {
            gathered as u64
        } else {
            full
        }
    }

    /// Takes one token if a whole one is there at `now`.
    pub fn try_consume(&mut self, now: u64) -> (r: bool)
        ensures
            r == old(self)@.allows(now),
            final(self)@ == old(self)@.consumed(now),
    {
        let available: u64 = self.available(now);
        self.last_refill = now;
        if available >= TOKEN {
            self.tokens = available - TOKEN;
            true
        } else {
            self.tokens = available;
            false
        }
    }

    /// Whether the bucket has refilled completely at `now`.
    pub fn is_full(&self, now: u64) -> (r: bool)
        ensures
            r == (self@.gathered(now) >= self@.capacity * TOKEN as nat),
    {
        self.available(now) == self.capacity as u64 * TOKEN
    }
}

/// An attempt never leaves more tokens than fit.
pub proof fn lemma_never_above_capacity(b: BucketView, now: u64)
    ensures
        b.consumed(now).wf(),
        b.consumed(now).capacity == b.capacity,
        b.consumed(now).rate == b.rate,
{
}

/// The nanoseconds that pass between attempts at `times`, the first counted
/// from `start`.
pub open spec fn total_elapsed(start: u64, times: Seq<u64>) -> nat
    decreases times.len(),
{
    if times.len() == 0 {
        0
    } else {
        let from = if times.len() == 1 {
            start
        } else {
            times[times.len() - 2]
        };
        total_elapsed(start, times.drop_last()) + elapsed(from, times.last())
    }
}

proof fn lemma_after_keeps_shape(b: BucketView, times: Seq<u64>)
    ensures
        b.after(times).capacity == b.capacity,
        b.after(times).rate == b.rate,
        b.after(times).last_refill == (if times.len() == 0 {
            b.last_refill
        } else {
            times.last()
        }),
    decreases times.len(),
{
    if times.len() > 0 {
        lemma_after_keeps_shape(b, times.drop_last());
    }
}

/// However attempts are spread, no more succeed than there were tokens at first
/// plus what the rate adds while they go on.
pub proof fn lemma_admitted_within_rate(b: BucketView, times: Seq<u64>)
    ensures
        b.admitted(times) * TOKEN + b.after(times).tokens <= b.tokens + total_elapsed(
            b.last_refill,
            times,
        ) * b.rate,
    decreases times.len(),
{
    if times.len() > 0 {
        let front = times.drop_last();
        lemma_admitted_within_rate(b, front);
        lemma_after_keeps_shape(b, front);
        let mid = b.after(front);
        let step = elapsed(mid.last_refill, times.last());
        let before = total_elapsed(b.last_refill, front);
        assert(total_elapsed(b.last_refill, times) == before + step);
        assert((before + step) * b.rate == before * b.rate + step * b.rate) by (nonlinear_arith);
        if mid.allows(times.last()) {
            assert(b.admitted(times) * TOKEN == b.admitted(front) * TOKEN + TOKEN);
        }
    } else {
        assert(0 * b.rate == 0);
        assert(total_elapsed(b.last_refill, times) * b.rate == 0) by (nonlinear_arith)
            requires
                total_elapsed(b.last_refill, times) == 0,
        ;
    }
}

/// `n` attempts at the same instant.
pub open spec fn at_once(now: u64, n: nat) -> Seq<u64> {
    Seq::new(n, |i: int| now)
}

/// A full bucket admits its whole capacity at once, and then no more.
pub proof fn lemma_initial_burst(capacity: nat, rate: nat, now: u64, n: nat)
    ensures
        ({
            let b = BucketView::full(capacity, rate, now);
            b.admitted(at_once(now, n)) == (if n <= capacity {
                n
            } else {
                capacity
            })
        }),
        ({
            let b = BucketView::full(capacity, rate, now);
            b.after(at_once(now, n)).tokens == (if n <= capacity {
                (capacity - n) * TOKEN
            } else {
                0
            })
        }),
    decreases n,
{
    let b = BucketView::full(capacity, rate, now);
    if n > 0 {
        let m = (n - 1) as nat;
        lemma_initial_burst(capacity, rate, now, m);
        assert(at_once(now, n).drop_last() =~= at_once(now, m));
        lemma_after_keeps_shape(b, at_once(now, m));
        let mid = b.after(at_once(now, m));
        assert(elapsed(mid.last_refill, now) * mid.rate == 0) by (nonlinear_arith)
            requires
                elapsed(mid.last_refill, now) == 0,
        ;
        assert(at_once(now, n).last() == now);
    }
}

/// A bucket that has refilled completely behaves like a new one, so forgetting
/// it is never noticed.
pub proof fn lemma_full_bucket_is_like_new(b: BucketView, now: u64)
    requires
        b.gathered(now) >= b.capacity * TOKEN as nat,
    ensures
        b.allows(now) == BucketView::full(b.capacity, b.rate, now).allows(now),
        b.consumed(now) == BucketView::full(b.capacity, b.rate, now).consumed(now),
{
    assert(elapsed(now, now) * b.rate == 0) by (nonlinear_arith)
        requires
            elapsed(now, now) == 0,
    ;
}

/// The address a connection comes from.
#[derive(Debug, Clone, Copy, PartialEq, Eq, Structural)]
pub enum IpAddress {
    V4(u32),
    V6(u128),
}

/// What a connection limiter holds.
#[verifier::ext_equal]
pub struct LimiterView {
    /// Buckets of the addresses that are remembered.
    pub buckets: Map<IpAddress, BucketView>,
    pub capacity: nat,
    pub rate: nat,
    pub last_sweep: u64,
}

impl LimiterView {
    /// Every bucket has the limiter's own capacity and rate.
    pub open spec fn wf(self) -> bool {
        forall|ip: IpAddress| #[trigger]
            self.buckets.contains_key(ip) ==> self.buckets[ip].capacity == self.capacity
                && self.buckets[ip].rate == self.rate
    }

    /// The limiter after a sweep, which is due when the last one is more than
    /// the interval ago: buckets that have refilled completely are forgotten.
    pub open spec fn swept(self, now: u64) -> Self {
        if elapsed(self.last_sweep, now) > SWEEP_INTERVAL {
            LimiterView {
                buckets: Map::new(
                    |ip: IpAddress|
                        self.buckets.contains_key(ip) && self.buckets[ip].gathered(now)
                            < self.buckets[ip].capacity * TOKEN as nat,
                    |ip: IpAddress| self.buckets[ip],
                ),
                last_sweep: now,
                ..self
            }
        } else {
            self
        }
    }

    /// The bucket of an address; an address that is not remembered has a full one.
    pub open spec fn bucket(self, ip: IpAddress, now: u64) -> BucketView {
        if self.buckets.contains_key(ip) {
            self.buckets[ip]
        } else {
            BucketView::full(self.capacity, self.rate, now)
        }
    }

    /// The limiter after a connection attempt from `ip`.
    pub open spec fn attempted(self, ip: IpAddress, now: u64) -> Self {
        let s = self.swept(now);
        LimiterView { buckets: s.buckets.insert(ip, s.bucket(ip, now).consumed(now)), ..s }
    }
}

/// The entries of a table that are not full at `now`.
spec fn not_full(table: Map<u128, TokenBucket>, now: u64) -> Map<u128, TokenBucket> {
    Map::new(
        |k: u128|
            table.contains_key(k) && table[k]@.gathered(now) < table[k]@.capacity * TOKEN as nat,
        |k: u128| table[k],
    )
}

fn keys_of(table: &HashMap<u128, TokenBucket>) -> (r: Vec<u128>)
    ensures
        forall|k: u128| #[trigger] table@.contains_key(k) ==> r@.contains(k),
{
    let mut out: Vec<u128> = Vec::new();
    for k in it: table.keys()
        invariant
            it.seq().unref().to_set() == table@.dom(),
            out@ == it.seq().unref().take(it.index() as int),
            it.index() == it.seq().len() ==> out@ == it.seq().unref(),
    {
        let ghost keys = it.seq().unref();
        let ghost n = it.index() as int;
        out.push(*k);
        assert(out@ =~= keys.take(n + 1));
        assert(n + 1 == keys.len() ==> keys.take(n + 1) =~= keys);
    }
    assert forall|k: u128| #[trigger] table@.contains_key(k) implies out@.contains(k) by {
        assert(out@.to_set().contains(k));
    }
    out
}

fn drop_full(table: &mut HashMap<u128, TokenBucket>, now: u64)
    ensures
        final(table)@ == not_full(old(table)@, now),
{
    let keys = keys_of(table);
    let ghost before = table@;
    let mut i: usize = 0;
    while i < keys.len()
        invariant
            i <= keys@.len(),
            forall|k: u128| #[trigger] before.contains_key(k) ==> keys@.contains(k),
            forall|k: u128| #[trigger]
                table@.contains_key(k) ==> before.contains_key(k) && table@[k] == before[k],
            forall|k: u128|
                not_full(before, now).contains_key(k) ==> #[trigger] table@.contains_key(k),
            forall|j: int|
                0 <= j < i && table@.contains_key(#[trigger] keys@[j]) ==> not_full(
                    before,
                    now,
                ).contains_key(keys@[j]),
        decreases keys@.len() - i,
    {
        let k: u128 = keys[i];
        let full: bool = match table.get(&k) {
            Some(bucket) => bucket.is_full(now),
            None => false,
        };
        if full {
            table.remove(&k);
        }
        i = i + 1;
    }
    assert(table@ =~= not_full(before, now));
}

/// One attempt on the bucket under `key`, which is made if it is not there.
fn attempt(
    table: &mut HashMap<u128, TokenBucket>,
    key: u128,
    capacity: u32,
    rate: u32,
    now: u64,
) -> (r: bool)
    ensures
        ({
            let b = if old(table)@.contains_key(key) {
                old(table)@[key]@
            } else {
                BucketView::full(capacity as nat, rate as nat, now)
            };
            &&& r == b.allows(now)
            &&& final(table)@.contains_key(key)
            &&& final(table)@[key]@ == b.consumed(now)
            &&& final(table)@ == old(table)@.insert(key, final(table)@[key])
        }),
{
    let mut bucket = match table.remove(&key) {
        Some(b) => b,
        None => TokenBucket::new(capacity, rate, now),
    };
    let allowed: bool = bucket.try_consume(now);
    table.insert(key, bucket);
    assert(table@ =~= old(table)@.insert(key, bucket));
    allowed
}

/// One token bucket per address that tried to connect lately.
pub struct ConnectionLimiter {
    v4: HashMap<u128, TokenBucket>,
    v6: HashMap<u128, TokenBucket>,
    capacity: u32,
    rate: u32,
    last_sweep: u64,
}

impl View for ConnectionLimiter {
    type V = LimiterView;

    closed spec fn view(&self) -> LimiterView {
        LimiterView {
            buckets: Map::new(
                |ip: IpAddress|
                    match ip {
                        IpAddress::V4(a) => self.v4@.contains_key(a as u128),
                        IpAddress::V6(a) => self.v6@.contains_key(a),
                    },
                |ip: IpAddress|
                    match ip {
                        IpAddress::V4(a) => self.v4@[a as u128]@,
                        IpAddress::V6(a) => self.v6@[a]@,
                    },
            ),
            capacity: self.capacity as nat,
            rate: self.rate as nat,
            last_sweep: self.last_sweep,
        }
    }
}

impl ConnectionLimiter {
    pub fn new(capacity: u32, rate: u32, now: u64) -> (r: Self)
        ensures
            r@.buckets == Map::<IpAddress, BucketView>::empty(),
            r@.capacity == capacity,
            r@.rate == rate,
            r@.last_sweep == now,
    {
        let r = ConnectionLimiter {
            v4: HashMap::new(),
            v6: HashMap::new(),
            capacity,
            rate,
            last_sweep: now,
        };
        assert(r@.buckets =~= Map::<IpAddress, BucketView>::empty());
        r
    }

    fn sweep(&mut self, now: u64)
        ensures
            final(self)@ == old(self)@.swept(now),
    {
        let age: u64 = if now >= self.last_sweep {
            now - self.last_sweep
        } else {
            0
        };
        if age > SWEEP_INTERVAL {
            drop_full(&mut self.v4, now);
            drop_full(&mut self.v6, now);
            self.last_sweep = now;
        }
        assert(self@.buckets =~= old(self)@.swept(now).buckets);
    }

    /// Whether a connection from `ip` is let in at `now`. Each attempt costs a
    /// token of the address, if it has one.
    pub fn try_connect(&mut self, ip: IpAddress, now: u64) -> (r: bool)
        ensures
            r == old(self)@.swept(now).bucket(ip, now).allows(now),
            final(self)@ == old(self)@.attempted(ip, now),
    {
        self.sweep(now);
        let allowed: bool = match ip {
            IpAddress::V4(a) => attempt(&mut self.v4, a as u128, self.capacity, self.rate, now),
            IpAddress::V6(a) => attempt(&mut self.v6, a, self.capacity, self.rate, now),
        };
        assert(self@.buckets =~= old(self)@.attempted(ip, now).buckets);
        allowed
    }
}

/// An attempt keeps the limiter's buckets to its own capacity and rate.
pub proof fn lemma_limiter_stays_wf(l: LimiterView, ip: IpAddress, now: u64)
    requires
        l.wf(),
    ensures
        l.attempted(ip, now).wf(),
{
}

/// The sweep is never noticed: it changes neither whether an attempt is let in
/// nor the bucket that the attempt leaves behind.
pub proof fn lemma_sweep_is_invisible(l: LimiterView, ip: IpAddress, now: u64)
    requires
        l.wf(),
    ensures
        l.swept(now).bucket(ip, now).allows(now) == l.bucket(ip, now).allows(now),
        l.swept(now).bucket(ip, now).consumed(now) == l.bucket(ip, now).consumed(now),
{
    if l.buckets.contains_key(ip) && !l.swept(now).buckets.contains_key(ip) {
        lemma_full_bucket_is_like_new(l.buckets[ip], now);
    }
}

/// Attempts from one address leave every other address's bucket alone.
pub proof fn lemma_addresses_are_independent(
    l: LimiterView,
    ip: IpAddress,
    other: IpAddress,
    now: u64,
)
    requires
        l.wf(),
        ip != other,
    ensures
        l.attempted(ip, now).bucket(other, now).allows(now) == l.bucket(other, now).allows(now),
{
    lemma_sweep_is_invisible(l, other, now);
}

/// The tokens of a bucket at a time, in billionths: those it had and what the rate
/// adds for the time that passed, up to its capacity.
pub open spec fn tokens_at(b: BucketView, now: u64) -> int {
    let passed = if now >= b.last_refill {
        now - b.last_refill
    } else {
        0
    };
    let all = b.tokens + passed * b.rate;
    let most = (b.capacity * 1_000_000_000) as int;
    if all < most {
        all
    } else {
        most
    }
}

/// A new bucket is full.
pub proof fn lemma_new_bucket_is_full(capacity: u32, rate: u32, now: u64, b: TokenBucket)
    requires
        call_ensures(TokenBucket::new, (capacity, rate, now), b),
    ensures
        b@.capacity == capacity,
        b@.rate == rate,
        b@.last_refill == now,
        b@.tokens == capacity * 1_000_000_000,
{
}

/// An attempt succeeds exactly if a whole token is there, and then costs one. A
/// bucket refills at its rate and never holds more than its capacity.
pub proof fn lemma_attempt_costs_one_token(b: &mut TokenBucket, now: u64, r: bool)
    requires
        call_ensures(TokenBucket::try_consume, (b, now), r),
    ensures
        r <==> tokens_at(old(b)@, now) >= 1_000_000_000,
        final(b)@.tokens == tokens_at(old(b)@, now) - (if r {
            1_000_000_000int
        } else {
            0int
        }),
        final(b)@.last_refill == now,
        final(b)@.capacity == old(b)@.capacity,
        final(b)@.rate == old(b)@.rate,
{
}

/// Whoever waits as long as one token takes is always let through, however many
/// attempts failed before.
pub proof fn lemma_waiting_pays(b: &mut TokenBucket, now: u64, r: bool)
    requires
        call_ensures(TokenBucket::try_consume, (b, now), r),
        old(b)@.capacity > 0,
        now >= old(b)@.last_refill,
        (now - old(b)@.last_refill) * old(b)@.rate >= 1_000_000_000,
    ensures
        r,
{
    lemma_attempt_costs_one_token(b, now, r);
}

/// A bucket is full exactly if nothing more fits.
pub proof fn lemma_full_when_refilled(b: &TokenBucket, now: u64, r: bool)
    requires
        call_ensures(TokenBucket::is_full, (b, now), r),
    ensures
        r <==> tokens_at(b@, now) == b@.capacity * 1_000_000_000,
{
}

/// Each address has a bucket of its own, full when it first connects: an attempt
/// is let in exactly if the bucket holds a token, and costs it one. A sweep, due
/// once a minute has passed, forgets only buckets that have refilled.
pub proof fn lemma_connections_are_limited_per_address(
    limiter: &mut ConnectionLimiter,
    ip: IpAddress,
    now: u64,
    r: bool,
    other: IpAddress,
)
    requires
        call_ensures(ConnectionLimiter::try_connect, (limiter, ip, now), r),
        old(limiter)@.wf(),
    ensures
        ({
            let was = old(limiter)@;
            let after = final(limiter)@;
            let most = was.capacity * 1_000_000_000;
            let had = if was.buckets.contains_key(ip) {
                tokens_at(was.buckets[ip], now)
            } else {
                most as int
            };
            let sweeps = now > was.last_sweep + 60_000_000_000;
            &&& r <==> had >= 1_000_000_000
            &&& after.capacity == was.capacity
            &&& after.rate == was.rate
            &&& after.last_sweep == (if sweeps {
                now
            } else {
                was.last_sweep
            })
            &&& after.buckets.contains_key(ip)
            &&& after.buckets[ip].capacity == was.capacity
            &&& after.buckets[ip].rate == was.rate
            &&& after.buckets[ip].last_refill == now
            &&& after.buckets[ip].tokens == had - (if r {
                1_000_000_000int
            } else {
                0int
            })
            &&& other != ip ==> {
                &&& after.buckets.contains_key(other) <==> was.buckets.contains_key(other) && !(
                sweeps && tokens_at(was.buckets[other], now) == most)
                &&& after.buckets.contains_key(other) ==> after.buckets[other]
                    == was.buckets[other]
            }
        }),
{
    let was = old(limiter)@;
    lemma_sweep_is_invisible(was, ip, now);
    assert(elapsed(now, now) * was.rate == 0) by (nonlinear_arith)
        requires
            elapsed(now, now) == 0,
    ;
}

/// A new limiter remembers nobody.
pub proof fn lemma_new_limiter(capacity: u32, rate: u32, now: u64, l: ConnectionLimiter, ip: IpAddress)
    requires
        call_ensures(ConnectionLimiter::new, (capacity, rate, now), l),
    ensures
        !l@.buckets.contains_key(ip),
        l@.capacity == capacity,
        l@.rate == rate,
        l@.last_sweep == now,
        l@.wf(),
{
}

} // verus!
