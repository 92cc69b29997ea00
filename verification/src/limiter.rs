//! Token-bucket rate limiting: per-bucket refill arithmetic and a keyed
//! collection of buckets with lazy creation.
//!
//! All arithmetic is over whole milliseconds and integer token counts; the
//! caller supplies the current reading of a monotonic millisecond clock.
use vstd::prelude::*;

verus! {

/// Mathematical state of a token bucket.
pub struct BucketModel {
    pub capacity: int,
    pub tokens: int,
    pub rate_per_second: int,
    pub last_refill_ms: int,
}

/// The bucket invariant: positive capacity and rate within machine range,
/// and a token count that never exceeds the capacity.
pub open spec fn bucket_inv(m: BucketModel) -> bool {
    &&& 1 <= m.capacity <= u32::MAX
    &&& 0 <= m.tokens <= m.capacity
    &&& 1 <= m.rate_per_second <= u32::MAX
    &&& 0 <= m.last_refill_ms <= u64::MAX
}

/// Tokens gained since the last refill: `floor(elapsed_ms * rate / 1000)`,
/// the whole-token part of a refill at `rate / 1000` tokens per millisecond.
pub open spec fn refill_gain(m: BucketModel, now: int) -> int {
    (now - m.last_refill_ms) * m.rate_per_second / 1000
}

/// Refill at time `now`: add the gained tokens, capped at the capacity.
/// When no whole token was gained the refill instant is left unchanged, so
/// that sub-millisecond-rate residue keeps accumulating.
pub open spec fn model_refill(m: BucketModel, now: int) -> BucketModel {
    let gain = refill_gain(m, now);
    if gain > 0 {
        BucketModel {
            capacity: m.capacity,
            tokens: if m.tokens + gain > m.capacity {
                m.capacity
            } else {
                m.tokens + gain
            },
            rate_per_second: m.rate_per_second,
            last_refill_ms: now,
        }
    } else {
        m
    }
}

/// Acquire `n` tokens at time `now`: refill first, then grant exactly when
/// enough tokens are present.
pub open spec fn model_try_acquire(m: BucketModel, n: int, now: int) -> (BucketModel, bool) {
    let r = model_refill(m, now);
    if r.tokens >= n {
        (
            BucketModel {
                capacity: r.capacity,
                tokens: r.tokens - n,
                rate_per_second: r.rate_per_second,
                last_refill_ms: r.last_refill_ms,
            },
            true,
        )
    } else {
        (r, false)
    }
}

/// A token bucket: at most `capacity` tokens, refilled at
/// `rate_per_second / 1000` tokens per millisecond of the caller's monotonic
/// clock.
#[derive(Clone, Copy, Debug)]
pub struct TokenBucket {
    pub capacity: u32,
    pub tokens: u32,
    pub rate_per_second: u32,
    pub last_refill_ms: u64,
}

impl TokenBucket {
    pub open spec fn model(self) -> BucketModel {
        BucketModel {
            capacity: self.capacity as int,
            tokens: self.tokens as int,
            rate_per_second: self.rate_per_second as int,
            last_refill_ms: self.last_refill_ms as int,
        }
    }

    pub open spec fn inv(self) -> bool {
        bucket_inv(self.model())
    }

    /// The capacity a fresh bucket gets: the burst size when one is given
    /// and positive, otherwise the request rate.
    pub open spec fn spec_capacity(requests_per_second: u32, burst_size: Option<u32>) -> int {
        match burst_size {
            Some(b) => if b > 0 {
                b as int
            } else {
                requests_per_second as int
            },
            None => requests_per_second as int,
        }
    }

    /// A fresh bucket starts full, with its refill instant at `now_ms`.
    pub fn new(requests_per_second: u32, burst_size: Option<u32>, now_ms: u64) -> (r: TokenBucket)
        requires
            requests_per_second >= 1,
        ensures
            r.inv(),
            r.model().capacity == Self::spec_capacity(requests_per_second, burst_size),
            r.model().tokens == Self::spec_capacity(requests_per_second, burst_size),
            r.model().rate_per_second == requests_per_second as int,
            r.model().last_refill_ms == now_ms as int,
    {
        let capacity: u32 = match burst_size {
            Some(b) => if b > 0 {
                b
            } else {
                requests_per_second
            },
            None => requests_per_second,
        };
        TokenBucket { capacity, tokens: capacity, rate_per_second: requests_per_second, last_refill_ms: now_ms }
    }

    fn refill(&mut self, now_ms: u64)
        requires
            old(self).inv(),
            old(self).last_refill_ms <= now_ms,
        ensures
            final(self).inv(),
            final(self).model() == model_refill(old(self).model(), now_ms as int),
    {
        let elapsed: u64 = now_ms - self.last_refill_ms;
        proof {
            assert((elapsed as int) * (self.rate_per_second as int) <= (u64::MAX as int) * (
            u32::MAX as int)) by (nonlinear_arith)
                requires
                    0 <= elapsed <= u64::MAX,
                    0 <= self.rate_per_second <= u32::MAX,
            ;
        }
        let gained: u128 = (elapsed as u128) * (self.rate_per_second as u128) / 1000;
        if gained > 0 {
            let room: u32 = self.capacity - self.tokens;
            if gained >= room as u128 {
                self.tokens = self.capacity;
            } else {
                self.tokens = self.tokens + (gained as u32);
            }
            self.last_refill_ms = now_ms;
        }
    }

    /// Refill, then grant `tokens` tokens exactly when that many are
    /// available after the refill.
    pub fn try_acquire(&mut self, tokens: u32, now_ms: u64) -> (granted: bool)
        requires
            old(self).inv(),
            old(self).last_refill_ms <= now_ms,
        ensures
            final(self).inv(),
            (final(self).model(), granted) == model_try_acquire(
                old(self).model(),
                tokens as int,
                now_ms as int,
            ),
            old(self).last_refill_ms <= final(self).last_refill_ms <= now_ms,
    {
        self.refill(now_ms);
        if self.tokens >= tokens {
            self.tokens = self.tokens - tokens;
            true
        } else {
            false
        }
    }
}

/// A keyed collection of token buckets. Entries are created lazily on first
/// admission check and keep the parameters they were created with.
#[derive(Clone, Debug)]
pub struct RateLimiter {
    pub buckets: Vec<(String, TokenBucket)>,
}

impl RateLimiter {
    /// Keys are pairwise distinct and every bucket satisfies its invariant.
    pub open spec fn wf(self) -> bool {
        &&& forall|i: int, j: int|
            0 <= i < j < self.buckets@.len() ==> self.buckets@[i].0@ != self.buckets@[j].0@
        &&& forall|i: int| 0 <= i < self.buckets@.len() ==> (#[trigger] self.buckets@[i]).1.inv()
    }

    /// Whether a bucket exists under the given key.
    pub open spec fn has_key(self, key: Seq<char>) -> bool {
        exists|i: int| 0 <= i < self.buckets@.len() && self.buckets@[i].0@ == key
    }

    /// Every bucket's refill instant is at or before `now`; holds of any
    /// limiter fed from a monotonic clock.
    pub open spec fn times_le(self, now: int) -> bool {
        forall|i: int|
            0 <= i < self.buckets@.len() ==> (#[trigger] self.buckets@[i]).1.last_refill_ms
                <= now
    }

    pub fn new() -> (r: RateLimiter)
        ensures
            r.wf(),
            r.buckets@.len() == 0,
    {
        RateLimiter { buckets: Vec::new() }
    }

    /// One admission decision for `key`: look the bucket up, creating it
    /// with (`requests_per_second`, `burst_size`) when absent — creation
    /// parameters are sticky, later calls never reconfigure — then acquire
    /// one token. A freshly created bucket always grants its first request.
    pub fn check_rate_limit(
        &mut self,
        key: &str,
        requests_per_second: u32,
        burst_size: Option<u32>,
        now_ms: u64,
    ) -> (granted: bool)
        requires
            old(self).wf(),
            old(self).times_le(now_ms as int),
            requests_per_second >= 1,
        ensures
            final(self).wf(),
            final(self).times_le(now_ms as int),
            check_step(
                *old(self),
                *final(self),
                key@,
                requests_per_second,
                burst_size,
                now_ms as int,
                granted,
            ),
    {
        let key_string: String = key.to_owned();
        let n: usize = self.buckets.len();
        let mut k: usize = 0;
        while k < n
            invariant
                self.buckets@ == old(self).buckets@,
                old(self).wf(),
                old(self).times_le(now_ms as int),
                requests_per_second >= 1,
                key_string@ == key@,
                n == self.buckets@.len(),
                k <= n,
                forall|i: int| 0 <= i < k ==> self.buckets@[i].0@ != key@,
            decreases n - k,
        {
            if self.buckets[k].0 == key_string {
                proof {
                    assert(old(self).buckets@[k as int].1.inv());
                    assert(old(self).buckets@[k as int].1.last_refill_ms <= now_ms);
                    assert forall|i: int|
                        0 <= i < old(self).buckets@.len() && old(self).buckets@[i].0@
                            == key@ implies i == k as int by {
                        if i < k as int {
                            assert(old(self).buckets@[i].0@ != old(self).buckets@[k as int].0@);
                        } else if i > k as int {
                            assert(old(self).buckets@[k as int].0@ != old(self).buckets@[i].0@);
                        }
                    }
                }
                let granted = self.buckets[k].1.try_acquire(1, now_ms);
                proof {
                    assert(self.buckets@[k as int].0@ == key@);
                    assert(self.has_key(key@));
                }
                return granted;
            }
            k = k + 1;
        }
        let mut bucket = TokenBucket::new(requests_per_second, burst_size, now_ms);
        let granted = bucket.try_acquire(1, now_ms);
        assert(granted);
        self.buckets.push((key.to_owned(), bucket));
        proof {
            assert(self.buckets@[self.buckets@.len() - 1].0@ == key@);
            assert(self.has_key(key@));
        }
        granted
    }

    /// Unconditionally replace the bucket under `key` with a fresh, full one.
    pub fn update_rate_limit(
        &mut self,
        key: &str,
        requests_per_second: u32,
        burst_size: Option<u32>,
        now_ms: u64,
    )
        requires
            old(self).wf(),
            old(self).times_le(now_ms as int),
            requests_per_second >= 1,
        ensures
            final(self).wf(),
            final(self).times_le(now_ms as int),
            final(self).has_key(key@),
            forall|i: int|
                0 <= i < old(self).buckets@.len() && (#[trigger] old(self).buckets@[i]).0@ == key@
                    ==> {
                    &&& final(self).buckets@.len() == old(self).buckets@.len()
                    &&& forall|j: int|
                        0 <= j < old(self).buckets@.len() && j != i
                            ==> final(self).buckets@[j] == old(self).buckets@[j]
                    &&& final(self).buckets@[i].0 == old(self).buckets@[i].0
                    &&& fresh_bucket_model(
                        final(self).buckets@[i].1.model(),
                        requests_per_second,
                        burst_size,
                        now_ms,
                    )
                },
            !old(self).has_key(key@) ==> {
                &&& final(self).buckets@.len() == old(self).buckets@.len() + 1
                &&& forall|j: int|
                    0 <= j < old(self).buckets@.len() ==> final(self).buckets@[j] == old(
                        self,
                    ).buckets@[j]
                &&& final(self).buckets@.last().0@ == key@
                &&& fresh_bucket_model(
                    final(self).buckets@.last().1.model(),
                    requests_per_second,
                    burst_size,
                    now_ms,
                )
            },
    {
        let key_string: String = key.to_owned();
        let n: usize = self.buckets.len();
        let mut k: usize = 0;
        while k < n
            invariant
                self.buckets@ == old(self).buckets@,
                old(self).wf(),
                old(self).times_le(now_ms as int),
                requests_per_second >= 1,
                key_string@ == key@,
                n == self.buckets@.len(),
                k <= n,
                forall|i: int| 0 <= i < k ==> self.buckets@[i].0@ != key@,
            decreases n - k,
        {
            if self.buckets[k].0 == key_string {
                proof {
                    assert forall|i: int|
                        0 <= i < old(self).buckets@.len() && old(self).buckets@[i].0@
                            == key@ implies i == k as int by {
                        if i < k as int {
                            assert(old(self).buckets@[i].0@ != old(self).buckets@[k as int].0@);
                        } else if i > k as int {
                            assert(old(self).buckets@[k as int].0@ != old(self).buckets@[i].0@);
                        }
                    }
                }
                self.buckets[k].1 = TokenBucket::new(requests_per_second, burst_size, now_ms);
                proof {
                    assert(self.buckets@[k as int].0@ == key@);
                    assert(self.has_key(key@));
                }
                return ;
            }
            k = k + 1;
        }
        let bucket = TokenBucket::new(requests_per_second, burst_size, now_ms);
        self.buckets.push((key.to_owned(), bucket));
        proof {
            assert(self.buckets@[self.buckets@.len() - 1].0@ == key@);
            assert(self.has_key(key@));
        }
    }

    /// Delete the entry under `key` if present; the next admission check
    /// recreates it.
    pub fn remove_rate_limit(&mut self, key: &str)
        requires
            old(self).wf(),
        ensures
            final(self).wf(),
            !final(self).has_key(key@),
            forall|i: int|
                0 <= i < old(self).buckets@.len() && (#[trigger] old(self).buckets@[i]).0@ == key@
                    ==> final(self).buckets@ == old(self).buckets@.remove(i),
            !old(self).has_key(key@) ==> final(self).buckets@ == old(self).buckets@,
    {
        let key_string: String = key.to_owned();
        let n: usize = self.buckets.len();
        let mut k: usize = 0;
        while k < n
            invariant
                self.buckets@ == old(self).buckets@,
                old(self).wf(),
                key_string@ == key@,
                n == self.buckets@.len(),
                k <= n,
                forall|i: int| 0 <= i < k ==> self.buckets@[i].0@ != key@,
            decreases n - k,
        {
            if self.buckets[k].0 == key_string {
                self.buckets.remove(k);
                proof {
                    assert forall|i: int|
                        0 <= i < old(self).buckets@.len() && old(self).buckets@[i].0@
                            == key@ implies i == k as int by {
                        if i < k as int {
                            assert(old(self).buckets@[i].0@ != old(self).buckets@[k as int].0@);
                        } else if i > k as int {
                            assert(old(self).buckets@[k as int].0@ != old(self).buckets@[i].0@);
                        }
                    }
                }
                return ;
            }
            k = k + 1;
        }
    }
}

/// How one admission check relates the limiter states before and after it:
/// an existing bucket under `key` steps by one single-token acquisition and
/// keeps its creation parameters, an absent key gets a fresh bucket holding
/// one token less than its capacity, and the decision grants; every other
/// entry is untouched.
pub open spec fn check_step(
    pre: RateLimiter,
    post: RateLimiter,
    key: Seq<char>,
    requests_per_second: u32,
    burst_size: Option<u32>,
    now: int,
    granted: bool,
) -> bool {
    &&& post.has_key(key)
    &&& forall|i: int|
        0 <= i < pre.buckets@.len() && (#[trigger] pre.buckets@[i]).0@ == key ==> {
            &&& post.buckets@.len() == pre.buckets@.len()
            &&& (forall|j: int|
                0 <= j < pre.buckets@.len() && j != i ==> post.buckets@[j] == pre.buckets@[j])
            &&& post.buckets@[i].0 == pre.buckets@[i].0
            &&& (post.buckets@[i].1.model(), granted) == model_try_acquire(
                pre.buckets@[i].1.model(),
                1,
                now,
            )
        }
    &&& !pre.has_key(key) ==> {
        &&& granted
        &&& post.buckets@.len() == pre.buckets@.len() + 1
        &&& (forall|j: int| 0 <= j < pre.buckets@.len() ==> post.buckets@[j] == pre.buckets@[j])
        &&& post.buckets@.last().0@ == key
        &&& post.buckets@.last().1.model().capacity == TokenBucket::spec_capacity(
            requests_per_second,
            burst_size,
        )
        &&& post.buckets@.last().1.model().tokens == TokenBucket::spec_capacity(
            requests_per_second,
            burst_size,
        ) - 1
        &&& post.buckets@.last().1.model().rate_per_second == requests_per_second as int
        &&& post.buckets@.last().1.model().last_refill_ms == now
    }
}

/// The state a freshly constructed bucket has: full, with the given
/// parameters, refilled at `now_ms`.
pub open spec fn fresh_bucket_model(
    m: BucketModel,
    requests_per_second: u32,
    burst_size: Option<u32>,
    now_ms: u64,
) -> bool {
    &&& m.capacity == TokenBucket::spec_capacity(requests_per_second, burst_size)
    &&& m.tokens == TokenBucket::spec_capacity(requests_per_second, burst_size)
    &&& m.rate_per_second == requests_per_second as int
    &&& m.last_refill_ms == now_ms as int
}

} // verus!

verus! {

/// The bucket state after a run of single-token acquisitions at the given
/// times.
pub open spec fn run_acquires(m: BucketModel, times: Seq<int>) -> BucketModel
    decreases times.len(),
{
    if times.len() == 0 {
        m
    } else {
        run_acquires(model_try_acquire(m, 1, times[0]).0, times.skip(1))
    }
}

/// How many acquisitions of a run were granted.
pub open spec fn run_grants(m: BucketModel, times: Seq<int>) -> int
    decreases times.len(),
{
    if times.len() == 0 {
        0
    } else {
        (if model_try_acquire(m, 1, times[0]).1 {
            1int
        } else {
            0int
        }) + run_grants(model_try_acquire(m, 1, times[0]).0, times.skip(1))
    }
}

/// Integer division distributes sub-additively over a sum.
proof fn lemma_div_sum_le(a: int, b: int, d: int)
    requires
        0 <= a,
        0 <= b,
        0 < d,
    ensures
        a / d + b / d <= (a + b) / d,
{
    assert(a / d + b / d <= (a + b) / d) by (nonlinear_arith)
        requires
            0 <= a,
            0 <= b,
            0 < d,
    ;
}

/// One acquisition step keeps the bucket invariant: the token count stays
/// between zero and the capacity, and time only moves forward, at most to
/// the acquisition instant.
pub proof fn lemma_acquire_preserves_invariant(m: BucketModel, n: int, now: int)
    requires
        bucket_inv(m),
        m.last_refill_ms <= now <= u64::MAX,
        0 <= n,
    ensures
        bucket_inv(model_try_acquire(m, n, now).0),
        m.last_refill_ms <= model_try_acquire(m, n, now).0.last_refill_ms <= now,
        model_try_acquire(m, n, now).0.capacity == m.capacity,
        model_try_acquire(m, n, now).0.rate_per_second == m.rate_per_second,
{
    assert((now - m.last_refill_ms) * m.rate_per_second >= 0) by (nonlinear_arith)
        requires
            now >= m.last_refill_ms,
            m.rate_per_second >= 0,
    ;
}

/// The token count respects the invariant after every step of any run of
/// acquisitions at nondecreasing times, and the grants of the whole run are
/// bounded by the tokens present at the start plus what the elapsed refill
/// time can have gained.
pub proof fn lemma_run_bound(m: BucketModel, times: Seq<int>, hi: int)
    requires
        bucket_inv(m),
        m.last_refill_ms <= hi <= u64::MAX,
        forall|i: int| 0 <= i < times.len() ==> m.last_refill_ms <= #[trigger] times[i] <= hi,
        forall|i: int, j: int| 0 <= i < j < times.len() ==> times[i] <= times[j],
    ensures
        bucket_inv(run_acquires(m, times)),
        m.last_refill_ms <= run_acquires(m, times).last_refill_ms <= hi,
        run_acquires(m, times).capacity == m.capacity,
        run_acquires(m, times).rate_per_second == m.rate_per_second,
        run_grants(m, times) + run_acquires(m, times).tokens <= m.tokens + (run_acquires(
            m,
            times,
        ).last_refill_ms - m.last_refill_ms) * m.rate_per_second / 1000,
    decreases times.len(),
{
    if times.len() == 0 {
        assert((run_acquires(m, times).last_refill_ms - m.last_refill_ms) * m.rate_per_second
            == 0) by (nonlinear_arith)
            requires
                run_acquires(m, times).last_refill_ms == m.last_refill_ms,
        ;
    } else {
        let t = times[0];
        let stepped = model_try_acquire(m, 1, t).0;
        lemma_acquire_preserves_invariant(m, 1, t);
        assert forall|i: int|
            0 <= i < times.skip(1).len() implies stepped.last_refill_ms <= #[trigger] times.skip(
            1,
        )[i] <= hi by {
            assert(times.skip(1)[i] == times[i + 1]);
            assert(times[0] <= times[i + 1]);
        }
        assert forall|i: int, j: int|
            0 <= i < j < times.skip(1).len() implies times.skip(1)[i] <= times.skip(1)[j] by {
            assert(times.skip(1)[i] == times[i + 1]);
            assert(times.skip(1)[j] == times[j + 1]);
        }
        lemma_run_bound(stepped, times.skip(1), hi);
        let fin = run_acquires(stepped, times.skip(1));
        assert(run_acquires(m, times) == fin);
        let gain = refill_gain(m, t);
        let refilled = model_refill(m, t);
        // the refill adds at most the floored gain
        assert(gain >= 0) by {
            assert((t - m.last_refill_ms) * m.rate_per_second >= 0) by (nonlinear_arith)
                requires
                    t >= m.last_refill_ms,
                    m.rate_per_second >= 0,
            ;
        }
        assert(refilled.tokens <= m.tokens + gain);
        // granting cancels against the counted grant
        let d: int = if model_try_acquire(m, 1, t).1 {
            1
        } else {
            0
        };
        assert(stepped.tokens == refilled.tokens - d);
        assert(stepped.last_refill_ms == refilled.last_refill_ms);
        assert(run_grants(m, times) == d + run_grants(stepped, times.skip(1)));
        // chain the refill budgets: what was gained before the step and
        // what the remaining run can gain never exceeds the whole window
        if gain > 0 {
            lemma_div_sum_le(
                (t - m.last_refill_ms) * m.rate_per_second,
                (fin.last_refill_ms - t) * m.rate_per_second,
                1000,
            );
            assert((t - m.last_refill_ms) * m.rate_per_second + (fin.last_refill_ms - t)
                * m.rate_per_second == (fin.last_refill_ms - m.last_refill_ms)
                * m.rate_per_second) by (nonlinear_arith);
            assert((fin.last_refill_ms - t) * m.rate_per_second >= 0) by (nonlinear_arith)
                requires
                    fin.last_refill_ms >= t,
                    m.rate_per_second >= 0,
            ;
        }
    }
}

/// Over any window, the number of granted single-token acquisitions is at
/// most the burst capacity plus what the refill rate yields over the whole
/// window: starting from a bucket whose clock stands at the window's start,
/// any nondecreasing times inside the window collect at most
/// `capacity + floor(window * rate / 1000)` grants.
pub proof fn lemma_window_grant_bound(m: BucketModel, times: Seq<int>, window: int)
    requires
        bucket_inv(m),
        0 <= window,
        m.last_refill_ms + window <= u64::MAX,
        forall|i: int|
            0 <= i < times.len() ==> m.last_refill_ms <= #[trigger] times[i] <= m.last_refill_ms
                + window,
        forall|i: int, j: int| 0 <= i < j < times.len() ==> times[i] <= times[j],
    ensures
        run_grants(m, times) <= m.capacity + window * m.rate_per_second / 1000,
{
    lemma_run_bound(m, times, m.last_refill_ms + window);
    let fin = run_acquires(m, times);
    assert((fin.last_refill_ms - m.last_refill_ms) * m.rate_per_second <= window
        * m.rate_per_second) by (nonlinear_arith)
        requires
            fin.last_refill_ms - m.last_refill_ms <= window,
            m.rate_per_second >= 0,
    ;
    vstd::arithmetic::div_mod::lemma_div_is_ordered(
        (fin.last_refill_ms - m.last_refill_ms) * m.rate_per_second,
        window * m.rate_per_second,
        1000,
    );
}

} // verus!
