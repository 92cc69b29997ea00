//! The load balancer: an ordered fleet of backends, the active selection
//! strategy, and the cursor state used by the round-robin family.
//!
//! A fleet update installs the new backends sorted by id ascending, so that
//! round-robin selection is reproducible across restarts given the same
//! configuration.
use vstd::prelude::*;
use vstd::string::StrSliceExecFns;
use crate::config::{BackendEntry, LoadBalancingStrategy};
use crate::limiter::RateLimiter;

verus! {

/// Strict lexicographic order on character sequences, by code point.
pub open spec fn lex_lt(a: Seq<char>, b: Seq<char>) -> bool
    decreases b.len(),
{
    if b.len() == 0 {
        false
    } else if a.len() == 0 {
        true
    } else if (a[0] as int) < (b[0] as int) {
        true
    } else if a[0] == b[0] {
        lex_lt(a.skip(1), b.skip(1))
    } else {
        false
    }
}

pub open spec fn lex_le(a: Seq<char>, b: Seq<char>) -> bool {
    !lex_lt(b, a)
}

/// The order is asymmetric, so `lex_lt` implies `lex_le`.
pub proof fn lemma_lex_asymmetric(a: Seq<char>, b: Seq<char>)
    requires
        lex_lt(a, b),
    ensures
        !lex_lt(b, a),
    decreases a.len(),
{
    if a.len() > 0 && b.len() > 0 && a[0] == b[0] {
        lemma_lex_asymmetric(a.skip(1), b.skip(1));
    }
}

/// Comparing two sequences that agree on their first `i` characters is
/// comparing what remains.
proof fn lemma_lex_lt_skip(a: Seq<char>, b: Seq<char>, i: int)
    requires
        0 <= i <= a.len(),
        i <= b.len(),
        forall|j: int| 0 <= j < i ==> a[j] == b[j],
    ensures
        lex_lt(a, b) == lex_lt(a.skip(i), b.skip(i)),
    decreases i,
{
    if i > 0 {
        assert(a.len() > 0 && b.len() > 0 && a[0] == b[0]);
        lemma_lex_lt_skip(a.skip(1), b.skip(1), i - 1);
        assert(a.skip(1).skip(i - 1) =~= a.skip(i));
        assert(b.skip(1).skip(i - 1) =~= b.skip(i));
    } else {
        assert(a.skip(0) =~= a);
        assert(b.skip(0) =~= b);
    }
}

/// Whether `a` comes strictly before `b` in lexicographic order by code
/// point.
pub fn str_lt(a: &str, b: &str) -> (r: bool)
    ensures
        r == lex_lt(a@, b@),
{
    let la: usize = a.unicode_len();
    let lb: usize = b.unicode_len();
    let mut i: usize = 0;
    while i < la && i < lb
        invariant
            la == a@.len(),
            lb == b@.len(),
            i <= la,
            i <= lb,
            forall|j: int| 0 <= j < i ==> a@[j] == b@[j],
        decreases la - i,
    {
        let ca: char = a.get_char(i);
        let cb: char = b.get_char(i);
        if (ca as u32) < (cb as u32) {
            proof {
                lemma_lex_lt_skip(a@, b@, i as int);
            }
            return true;
        }
        if (ca as u32) > (cb as u32) {
            proof {
                lemma_lex_lt_skip(a@, b@, i as int);
            }
            return false;
        }
        proof {
            assert(a@[i as int] == b@[i as int]);
        }
        i = i + 1;
    }
    proof {
        lemma_lex_lt_skip(a@, b@, i as int);
    }
    la < lb
}

/// Insert an entry into an id-sorted sequence, before the first entry whose
/// id is strictly greater.
pub open spec fn spec_insert_entry(s: Seq<BackendEntry>, e: BackendEntry) -> Seq<BackendEntry>
    decreases s.len(),
{
    if s.len() == 0 {
        seq![e]
    } else if lex_lt(e.id@, s[0].id@) {
        seq![e] + s
    } else {
        seq![s[0]] + spec_insert_entry(s.skip(1), e)
    }
}

/// Insertion sort of configuration entries by id ascending.
pub open spec fn spec_sort_entries(s: Seq<BackendEntry>) -> Seq<BackendEntry>
    decreases s.len(),
{
    if s.len() == 0 {
        Seq::empty()
    } else {
        spec_insert_entry(spec_sort_entries(s.drop_last()), s.last())
    }
}

pub open spec fn entries_sorted(s: Seq<BackendEntry>) -> bool {
    forall|i: int| 0 <= i < s.len() - 1 ==> lex_le((#[trigger] s[i]).id@, s[i + 1].id@)
}

proof fn lemma_insert_entry_sorted(s: Seq<BackendEntry>, e: BackendEntry)
    requires
        entries_sorted(s),
    ensures
        entries_sorted(spec_insert_entry(s, e)),
        spec_insert_entry(s, e).len() == s.len() + 1,
        spec_insert_entry(s, e)[0] == e || (s.len() > 0 && spec_insert_entry(s, e)[0] == s[0]),
    decreases s.len(),
{
    if s.len() == 0 {
    } else if lex_lt(e.id@, s[0].id@) {
        lemma_lex_asymmetric(e.id@, s[0].id@);
        assert forall|i: int| 0 <= i < (seq![e] + s).len() - 1 implies lex_le(
            (#[trigger] (seq![e] + s)[i]).id@,
            (seq![e] + s)[i + 1].id@,
        ) by {
            if i > 0 {
                assert((seq![e] + s)[i] == s[i - 1]);
                assert((seq![e] + s)[i + 1] == s[i]);
            }
        }
    } else {
        assert(entries_sorted(s.skip(1))) by {
            assert forall|i: int| 0 <= i < s.skip(1).len() - 1 implies lex_le(
                (#[trigger] s.skip(1)[i]).id@,
                s.skip(1)[i + 1].id@,
            ) by {
                assert(s.skip(1)[i] == s[i + 1]);
                assert(s.skip(1)[i + 1] == s[i + 2]);
            }
        }
        lemma_insert_entry_sorted(s.skip(1), e);
        let t = seq![s[0]] + spec_insert_entry(s.skip(1), e);
        assert forall|i: int| 0 <= i < t.len() - 1 implies lex_le((#[trigger] t[i]).id@, t[i + 1].id@) by {
            if i == 0 {
                if spec_insert_entry(s.skip(1), e)[0] == e {
                    assert(lex_le(s[0].id@, e.id@));
                } else {
                    assert(s.skip(1)[0] == s[1]);
                    assert(lex_le(s[0].id@, s[1].id@));
                }
            } else {
                assert(t[i] == spec_insert_entry(s.skip(1), e)[i - 1]);
                assert(t[i + 1] == spec_insert_entry(s.skip(1), e)[i]);
            }
        }
    }
}

pub proof fn lemma_sort_entries_sorted(s: Seq<BackendEntry>)
    ensures
        entries_sorted(spec_sort_entries(s)),
        spec_sort_entries(s).len() == s.len(),
    decreases s.len(),
{
    if s.len() > 0 {
        lemma_sort_entries_sorted(s.drop_last());
        lemma_insert_entry_sorted(spec_sort_entries(s.drop_last()), s.last());
    }
}

/// Splicing an entry in at the first position whose id is strictly greater
/// is exactly the sorted insertion.
proof fn lemma_spec_insert_entry_at(s: Seq<BackendEntry>, e: BackendEntry, i: int)
    requires
        0 <= i <= s.len(),
        forall|j: int| 0 <= j < i ==> !lex_lt(e.id@, s[j].id@),
        i < s.len() ==> lex_lt(e.id@, s[i].id@),
    ensures
        spec_insert_entry(s, e) == s.insert(i, e),
    decreases s.len(),
{
    if s.len() == 0 {
        assert(spec_insert_entry(s, e) =~= s.insert(0, e));
    } else if i == 0 {
        if s.len() > 0 && i < s.len() {
            assert(lex_lt(e.id@, s[0].id@));
        }
        assert(spec_insert_entry(s, e) =~= s.insert(0, e));
    } else {
        assert(!lex_lt(e.id@, s[0].id@));
        lemma_spec_insert_entry_at(s.skip(1), e, i - 1);
        assert(seq![s[0]] + s.skip(1).insert(i - 1, e) =~= s.insert(i, e));
    }
}

/// One backend of the running fleet: identity and URL from configuration, a
/// live-connection counter, and an optional private rate limiter.
#[derive(Clone, Debug)]
pub struct Backend {
    pub id: String,
    pub url: String,
    pub weight: u32,
    pub active_connections: u32,
    pub rate_limiter: Option<RateLimiter>,
}

impl Backend {
    pub open spec fn wf(self) -> bool {
        &&& self.weight >= 1
        &&& match self.rate_limiter {
            Some(rl) => rl.wf(),
            None => true,
        }
    }
}

/// A running backend as a fleet update builds it from one configuration
/// entry: counters reset, and a fresh, empty limiter exactly when the entry
/// carries a rate limit.
pub open spec fn backend_matches_entry(b: Backend, e: BackendEntry) -> bool {
    &&& b.id == e.id
    &&& b.url == e.config.url
    &&& b.weight == e.config.weight
    &&& b.active_connections == 0
    &&& match (b.rate_limiter, e.config.rate_limit) {
        (Some(rl), Some(_)) => rl.buckets@.len() == 0,
        (None, None) => true,
        _ => false,
    }
}

pub open spec fn fleet_sorted(s: Seq<Backend>) -> bool {
    forall|i: int| 0 <= i < s.len() - 1 ==> lex_le((#[trigger] s[i]).id@, s[i + 1].id@)
}

/// Index `j` holds the first backend whose live-connection count is minimal
/// over the whole fleet.
pub open spec fn is_first_min_connections(s: Seq<Backend>, j: int) -> bool {
    &&& 0 <= j < s.len()
    &&& forall|i: int|
        0 <= i < s.len() ==> s[j].active_connections <= (#[trigger] s[i]).active_connections
    &&& forall|i: int| 0 <= i < j ==> s[j].active_connections < (#[trigger] s[i]).active_connections
}

/// The load balancer: the fleet, the strategy, and the cursor state of the
/// round-robin family. `current_weight` counts how often the backend under
/// the cursor has been emitted in its current weighted turn.
#[derive(Clone, Debug)]
pub struct LoadBalancer {
    pub backends: Vec<Backend>,
    pub strategy: LoadBalancingStrategy,
    pub current_index: usize,
    pub current_weight: u32,
}

impl LoadBalancer {
    pub open spec fn wf(self) -> bool {
        &&& forall|i: int| 0 <= i < self.backends@.len() ==> (#[trigger] self.backends@[i]).wf()
        &&& self.backends@.len() > 0 ==> self.current_index < self.backends@.len()
        &&& self.backends@.len() > 0 ==> self.current_weight < self.backends@[
            self.current_index as int
        ].weight
        &&& self.backends@.len() == 0 ==> self.current_index == 0 && self.current_weight == 0
    }

    /// Every per-backend limiter has only refill instants at or before
    /// `now`; holds whenever the balancer is fed from a monotonic clock.
    pub open spec fn times_le(self, now: int) -> bool {
        forall|i: int|
            0 <= i < self.backends@.len() ==> match (#[trigger] self.backends@[i]).rate_limiter {
                Some(rl) => rl.times_le(now),
                None => true,
            }
    }

    pub fn new() -> (r: LoadBalancer)
        ensures
            r.wf(),
            r.backends@.len() == 0,
            r.strategy == LoadBalancingStrategy::RoundRobin,
            r.current_index == 0,
            r.current_weight == 0,
    {
        LoadBalancer {
            backends: Vec::new(),
            strategy: LoadBalancingStrategy::RoundRobin,
            current_index: 0,
            current_weight: 0,
        }
    }

    pub fn set_strategy(&mut self, strategy: LoadBalancingStrategy)
        requires
            old(self).wf(),
        ensures
            final(self).wf(),
            final(self).strategy == strategy,
            final(self).backends == old(self).backends,
            final(self).current_index == old(self).current_index,
            final(self).current_weight == old(self).current_weight,
    {
        self.strategy = strategy;
    }

    /// Rebuild the fleet from a configuration snapshot: one fresh backend
    /// per entry, installed sorted by id ascending, with the cursor reset.
    /// Live-connection counters are not preserved across updates.
    pub fn update_backends(&mut self, backends_config: &Vec<BackendEntry>)
        requires
            old(self).wf(),
            forall|i: int|
                0 <= i < backends_config@.len() ==> (#[trigger] backends_config@[i]).wf(),
        ensures
            final(self).wf(),
            final(self).strategy == old(self).strategy,
            final(self).current_index == 0,
            final(self).current_weight == 0,
            final(self).backends@.len() == backends_config@.len(),
            forall|j: int|
                0 <= j < final(self).backends@.len() ==> backend_matches_entry(
                    #[trigger] final(self).backends@[j],
                    spec_sort_entries(backends_config@)[j],
                ),
            fleet_sorted(final(self).backends@),
            final(self).times_le(0),
    {
        let ghost input = backends_config@;
        let mut sorted_entries: Vec<BackendEntry> = Vec::new();
        let n: usize = backends_config.len();
        let mut k: usize = 0;
        while k < n
            invariant
                n == input.len(),
                backends_config@ == input,
                k <= n,
                sorted_entries@ == spec_sort_entries(input.take(k as int)),
                forall|i: int| 0 <= i < input.len() ==> (#[trigger] input[i]).wf(),
                forall|i: int| 0 <= i < sorted_entries@.len() ==> (#[trigger] sorted_entries@[i]).wf(),
            decreases n - k,
        {
            let entry = backends_config[k].clone_entry();
            proof {
                assert(input.take(k as int + 1).drop_last() =~= input.take(k as int));
                assert(input.take(k as int + 1).last() == input[k as int]);
            }
            insert_entry_sorted(&mut sorted_entries, entry);
            k = k + 1;
        }
        proof {
            assert(input.take(n as int) =~= input);
            lemma_sort_entries_sorted(input);
        }
        let mut fleet: Vec<Backend> = Vec::new();
        let m: usize = sorted_entries.len();
        let mut j: usize = 0;
        while j < m
            invariant
                m == sorted_entries@.len(),
                sorted_entries@ == spec_sort_entries(input),
                j <= m,
                fleet@.len() == j,
                forall|i: int| 0 <= i < sorted_entries@.len() ==> (#[trigger] sorted_entries@[i]).wf(),
                forall|i: int|
                    0 <= i < j ==> backend_matches_entry(
                        #[trigger] fleet@[i],
                        sorted_entries@[i],
                    ),
                forall|i: int| 0 <= i < j ==> (#[trigger] fleet@[i]).wf(),
                forall|i: int|
                    0 <= i < j ==> match (#[trigger] fleet@[i]).rate_limiter {
                        Some(rl) => rl.times_le(0),
                        None => true,
                    },
            decreases m - j,
        {
            let e = &sorted_entries[j];
            let limiter: Option<RateLimiter> = match &e.config.rate_limit {
                Some(_) => Some(RateLimiter::new()),
                None => None,
            };
            let backend = Backend {
                id: e.id.clone(),
                url: e.config.url.clone(),
                weight: e.config.weight,
                active_connections: 0,
                rate_limiter: limiter,
            };
            fleet.push(backend);
            j = j + 1;
        }
        proof {
            assert forall|i: int| 0 <= i < fleet@.len() - 1 implies lex_le(
                (#[trigger] fleet@[i]).id@,
                fleet@[i + 1].id@,
            ) by {
                assert(entries_sorted(sorted_entries@));
                assert(fleet@[i].id == sorted_entries@[i].id);
                assert(fleet@[i + 1].id == sorted_entries@[i + 1].id);
            }
        }
        self.backends = fleet;
        self.current_index = 0;
        self.current_weight = 0;
    }

    /// Select one backend according to the active strategy. Returns the
    /// fleet index of the selection, and `None` exactly when the fleet is
    /// empty.
    pub fn select_backend(&mut self) -> (r: Option<usize>)
        requires
            old(self).wf(),
        ensures
            final(self).wf(),
            final(self).backends == old(self).backends,
            final(self).strategy == old(self).strategy,
            r is Some <==> old(self).backends@.len() > 0,
            old(self).backends@.len() == 0 ==> *final(self) == *old(self),
            r matches Some(i) ==> i < old(self).backends@.len(),
            // round-robin: emit the backend under the cursor, then advance
            old(self).backends@.len() > 0 && old(self).strategy
                == LoadBalancingStrategy::RoundRobin ==> {
                &&& r == Some(old(self).current_index)
                &&& final(self).current_index == (old(self).current_index + 1) % (
                old(self).backends@.len() as int)
                &&& final(self).current_weight == 0
            },
            // weighted round-robin: emit the backend under the cursor; the
            // cursor moves on once the backend has had `weight` turns
            old(self).backends@.len() > 0 && old(self).strategy
                == LoadBalancingStrategy::WeightedRoundRobin ==> {
                &&& r == Some(old(self).current_index)
                &&& (if old(self).current_weight + 1 == old(self).backends@[
                    old(self).current_index as int
                ].weight {
                    &&& final(self).current_index == (old(self).current_index + 1) % (
                    old(self).backends@.len() as int)
                    &&& final(self).current_weight == 0
                } else {
                    &&& final(self).current_index == old(self).current_index
                    &&& final(self).current_weight == old(self).current_weight + 1
                })
            },
            // least-connections: emit the first backend with the minimal
            // live-connection count; the cursor is untouched
            old(self).backends@.len() > 0 && old(self).strategy
                == LoadBalancingStrategy::LeastConnections ==> {
                &&& final(self).current_index == old(self).current_index
                &&& final(self).current_weight == old(self).current_weight
                &&& (r matches Some(i) ==> is_first_min_connections(
                    old(self).backends@,
                    i as int,
                ))
            },
    {
        let n: usize = self.backends.len();
        if n == 0 {
            return None;
        }
        match self.strategy {
            LoadBalancingStrategy::RoundRobin => {
                let i = self.current_index;
                self.current_index = (i + 1) % n;
                self.current_weight = 0;
                Some(i)
            },
            LoadBalancingStrategy::WeightedRoundRobin => {
                let i = self.current_index;
                let w = self.backends[i].weight;
                if self.current_weight + 1 == w {
                    self.current_weight = 0;
                    self.current_index = (i + 1) % n;
                } else {
                    self.current_weight = self.current_weight + 1;
                }
                Some(i)
            },
            LoadBalancingStrategy::LeastConnections => {
                let mut best: usize = 0;
                let mut k: usize = 1;
                while k < n
                    invariant
                        self == old(self),
                        old(self).wf(),
                        n == self.backends@.len(),
                        0 < n,
                        best < k <= n,
                        forall|i: int|
                            0 <= i < k ==> self.backends@[best as int].active_connections <= (
                            #[trigger] self.backends@[i]).active_connections,
                        forall|i: int|
                            0 <= i < best ==> self.backends@[best as int].active_connections < (
                            #[trigger] self.backends@[i]).active_connections,
                    decreases n - k,
                {
                    if self.backends[k].active_connections
                        < self.backends[best].active_connections {
                        best = k;
                    }
                    k = k + 1;
                }
                Some(best)
            },
        }
    }

    /// Bump the live-connection counter of the first backend with the given
    /// id; an unknown id is a silent no-op. The counter saturates at its
    /// maximum.
    pub fn increment_connections(&mut self, backend_id: &str)
        requires
            old(self).wf(),
        ensures
            final(self).wf(),
            final(self).strategy == old(self).strategy,
            final(self).current_index == old(self).current_index,
            final(self).current_weight == old(self).current_weight,
            fleet_inc_step(old(self).backends@, final(self).backends@, backend_id@),
    {
        let key: String = backend_id.to_owned();
        let n: usize = self.backends.len();
        let mut k: usize = 0;
        while k < n
            invariant
                self == old(self),
                old(self).wf(),
                key@ == backend_id@,
                n == self.backends@.len(),
                k <= n,
                forall|i: int| 0 <= i < k ==> self.backends@[i].id@ != backend_id@,
            decreases n - k,
        {
            if self.backends[k].id == key {
                let c = self.backends[k].active_connections;
                if c < u32::MAX {
                    self.backends[k].active_connections = c + 1;
                }
                return ;
            }
            k = k + 1;
        }
    }

    /// Lower the live-connection counter of the first backend with the
    /// given id, saturating at zero; an unknown id is a silent no-op.
    pub fn decrement_connections(&mut self, backend_id: &str)
        requires
            old(self).wf(),
        ensures
            final(self).wf(),
            final(self).strategy == old(self).strategy,
            final(self).current_index == old(self).current_index,
            final(self).current_weight == old(self).current_weight,
            fleet_dec_step(old(self).backends@, final(self).backends@, backend_id@),
    {
        let key: String = backend_id.to_owned();
        let n: usize = self.backends.len();
        let mut k: usize = 0;
        while k < n
            invariant
                self == old(self),
                old(self).wf(),
                key@ == backend_id@,
                n == self.backends@.len(),
                k <= n,
                forall|i: int| 0 <= i < k ==> self.backends@[i].id@ != backend_id@,
            decreases n - k,
        {
            if self.backends[k].id == key {
                let c = self.backends[k].active_connections;
                if c > 0 {
                    self.backends[k].active_connections = c - 1;
                }
                return ;
            }
            k = k + 1;
        }
    }

    pub fn backend_count(&self) -> (r: usize)
        ensures
            r == self.backends@.len(),
    {
        self.backends.len()
    }

    pub fn backend_id(&self, index: usize) -> (r: String)
        requires
            index < self.backends@.len(),
        ensures
            r == self.backends@[index as int].id,
    {
        self.backends[index].id.clone()
    }

    pub fn backend_url(&self, index: usize) -> (r: String)
        requires
            index < self.backends@.len(),
        ensures
            r == self.backends@[index as int].url,
    {
        self.backends[index].url.clone()
    }

    pub fn backend_has_limiter(&self, index: usize) -> (r: bool)
        requires
            index < self.backends@.len(),
        ensures
            r == (self.backends@[index as int].rate_limiter is Some),
    {
        match &self.backends[index].rate_limiter {
            Some(_) => true,
            None => false,
        }
    }

    pub fn backend_connections(&self, index: usize) -> (r: u32)
        requires
            index < self.backends@.len(),
        ensures
            r == self.backends@[index as int].active_connections,
    {
        self.backends[index].active_connections
    }

    /// One admission decision on the selected backend's own limiter, keyed
    /// by the backend id; a backend without a limiter admits everything.
    pub fn backend_admission(
        &mut self,
        index: usize,
        requests_per_second: u32,
        burst_size: Option<u32>,
        now_ms: u64,
    ) -> (granted: bool)
        requires
            old(self).wf(),
            old(self).times_le(now_ms as int),
            index < old(self).backends@.len(),
            requests_per_second >= 1,
        ensures
            final(self).wf(),
            final(self).times_le(now_ms as int),
            final(self).strategy == old(self).strategy,
            final(self).current_index == old(self).current_index,
            final(self).current_weight == old(self).current_weight,
            final(self).backends@.len() == old(self).backends@.len(),
            forall|j: int|
                0 <= j < old(self).backends@.len() && j != index ==> final(self).backends@[j]
                    == old(self).backends@[j],
            old(self).backends@[index as int].rate_limiter is None ==> granted && final(self).backends@
                == old(self).backends@,
            // the backend's own limiter, when present, makes one admission
            // check keyed by the backend id
            old(self).backends@[index as int].rate_limiter matches Some(rl0)
                ==> (final(self).backends@[index as int].rate_limiter matches Some(rl1)
                && crate::limiter::check_step(
                rl0,
                rl1,
                old(self).backends@[index as int].id@,
                requests_per_second,
                burst_size,
                now_ms as int,
                granted,
            )),
            final(self).backends@[index as int].id == old(self).backends@[index as int].id,
            final(self).backends@[index as int].url == old(self).backends@[index as int].url,
            final(self).backends@[index as int].weight == old(self).backends@[
                index as int
            ].weight,
            final(self).backends@[index as int].active_connections == old(self).backends@[
                index as int
            ].active_connections,
    {
        let limited = match &self.backends[index].rate_limiter {
            Some(_) => true,
            None => false,
        };
        if !limited {
            return true;
        }
        let key: String = self.backends[index].id.clone();
        match &mut self.backends[index].rate_limiter {
            Some(rl) => rl.check_rate_limit(key.as_str(), requests_per_second, burst_size, now_ms),
            None => true,
        }
    }
}

/// The counter was bumped by one, saturating at the maximum; every other
/// field is unchanged.
pub open spec fn conns_bumped(b0: Backend, b1: Backend) -> bool {
    &&& b1.id == b0.id
    &&& b1.url == b0.url
    &&& b1.weight == b0.weight
    &&& b1.rate_limiter == b0.rate_limiter
    &&& b1.active_connections == if b0.active_connections == u32::MAX {
        u32::MAX as int
    } else {
        b0.active_connections + 1
    }
}

/// The counter was lowered by one, saturating at zero; every other field is
/// unchanged.
pub open spec fn conns_lowered(b0: Backend, b1: Backend) -> bool {
    &&& b1.id == b0.id
    &&& b1.url == b0.url
    &&& b1.weight == b0.weight
    &&& b1.rate_limiter == b0.rate_limiter
    &&& b1.active_connections == if b0.active_connections == 0 {
        0int
    } else {
        b0.active_connections - 1
    }
}

/// How an increment by id relates two fleets: the first backend whose id
/// matches has its counter bumped, everything else is untouched; a fleet
/// without the id is unchanged.
pub open spec fn fleet_inc_step(s0: Seq<Backend>, s1: Seq<Backend>, id: Seq<char>) -> bool {
    &&& s1.len() == s0.len()
    &&& forall|j: int|
        0 <= j < s0.len() ==> (#[trigger] s1[j]).id == s0[j].id && s1[j].url == s0[j].url
            && s1[j].weight == s0[j].weight && s1[j].rate_limiter == s0[j].rate_limiter
    &&& forall|i: int|
        0 <= i < s0.len() && (#[trigger] s0[i]).id@ == id && (forall|j: int|
            0 <= j < i ==> s0[j].id@ != id) ==> {
            &&& (forall|j: int| 0 <= j < s0.len() && j != i ==> s1[j] == s0[j])
            &&& conns_bumped(s0[i], s1[i])
        }
    &&& (forall|i: int| 0 <= i < s0.len() ==> (#[trigger] s0[i]).id@ != id) ==> s1 == s0
}

/// How a decrement by id relates two fleets; the counterpart of
/// `fleet_inc_step`, saturating at zero.
pub open spec fn fleet_dec_step(s0: Seq<Backend>, s1: Seq<Backend>, id: Seq<char>) -> bool {
    &&& s1.len() == s0.len()
    &&& forall|j: int|
        0 <= j < s0.len() ==> (#[trigger] s1[j]).id == s0[j].id && s1[j].url == s0[j].url
            && s1[j].weight == s0[j].weight && s1[j].rate_limiter == s0[j].rate_limiter
    &&& forall|i: int|
        0 <= i < s0.len() && (#[trigger] s0[i]).id@ == id && (forall|j: int|
            0 <= j < i ==> s0[j].id@ != id) ==> {
            &&& (forall|j: int| 0 <= j < s0.len() && j != i ==> s1[j] == s0[j])
            &&& conns_lowered(s0[i], s1[i])
        }
    &&& (forall|i: int| 0 <= i < s0.len() ==> (#[trigger] s0[i]).id@ != id) ==> s1 == s0
}

/// Incrementing and then decrementing one backend's live-connection counter
/// restores every counter in the fleet: the net accounting effect of one
/// forwarded request is zero. (At a counter already at its maximum the
/// increment saturates, so the round trip is stated below it.)
pub proof fn lemma_accounting_round_trip(b0: Backend, b1: Backend, b2: Backend)
    requires
        b0.active_connections < u32::MAX,
        conns_bumped(b0, b1),
        conns_lowered(b1, b2),
    ensures
        b2 == b0,
{
}

/// Two fleets are observably equivalent when they agree on every id, URL,
/// weight and live-connection counter, on which backends carry a limiter,
/// and on every limiter's bucket contents. Selection and accounting behave
/// identically on equivalent fleets.
pub open spec fn fleets_equivalent(s1: Seq<Backend>, s2: Seq<Backend>) -> bool {
    &&& s1.len() == s2.len()
    &&& forall|j: int|
        0 <= j < s1.len() ==> {
            &&& (#[trigger] s1[j]).id == s2[j].id
            &&& s1[j].url == s2[j].url
            &&& s1[j].weight == s2[j].weight
            &&& s1[j].active_connections == s2[j].active_connections
            &&& match (s1[j].rate_limiter, s2[j].rate_limiter) {
                (Some(a), Some(b)) => a.buckets@ =~= b.buckets@,
                (None, None) => true,
                _ => false,
            }
        }
}

/// Applying the same fleet update twice is idempotent: any two fleets built
/// from the same configuration entries are observably equivalent, and both
/// updates leave the cursor at zero, so the balancer's externally
/// observable state — including the selection sequence that follows — is
/// the same after the first and after the second update.
pub proof fn lemma_update_fleet_idempotent(
    entries: Seq<BackendEntry>,
    f1: Seq<Backend>,
    f2: Seq<Backend>,
)
    requires
        f1.len() == entries.len(),
        f2.len() == entries.len(),
        forall|j: int|
            0 <= j < f1.len() ==> backend_matches_entry(
                #[trigger] f1[j],
                spec_sort_entries(entries)[j],
            ),
        forall|j: int|
            0 <= j < f2.len() ==> backend_matches_entry(
                #[trigger] f2[j],
                spec_sort_entries(entries)[j],
            ),
    ensures
        fleets_equivalent(f1, f2),
{
    lemma_sort_entries_sorted(entries);
    assert forall|j: int| 0 <= j < f1.len() implies {
        &&& (#[trigger] f1[j]).id == f2[j].id
        &&& f1[j].url == f2[j].url
        &&& f1[j].weight == f2[j].weight
        &&& f1[j].active_connections == f2[j].active_connections
        &&& match (f1[j].rate_limiter, f2[j].rate_limiter) {
            (Some(a), Some(b)) => a.buckets@ =~= b.buckets@,
            (None, None) => true,
            _ => false,
        }
    } by {
        assert(backend_matches_entry(f1[j], spec_sort_entries(entries)[j]));
        assert(backend_matches_entry(f2[j], spec_sort_entries(entries)[j]));
    }
}

/// Insert into an id-sorted vector, keeping it sorted.
fn insert_entry_sorted(v: &mut Vec<BackendEntry>, e: BackendEntry)
    ensures
        final(v)@ == spec_insert_entry(old(v)@, e),
        forall|k: int|
            0 <= k < final(v)@.len() ==> final(v)@[k] == e || (exists|j: int|
                0 <= j < old(v)@.len() && final(v)@[k] == old(v)@[j]),
{
    let n: usize = v.len();
    let mut idx: usize = 0;
    while idx < n
        invariant
            v@ == old(v)@,
            n == v@.len(),
            idx <= n,
            forall|j: int| 0 <= j < idx ==> !lex_lt(e.id@, (#[trigger] v@[j]).id@),
        decreases n - idx,
    {
        if str_lt(e.id.as_str(), v[idx].id.as_str()) {
            proof {
                lemma_spec_insert_entry_at(v@, e, idx as int);
            }
            v.insert(idx, e);
            proof {
                lemma_seq_insert_elems(old(v)@, e, idx as int);
            }
            return ;
        }
        idx = idx + 1;
    }
    proof {
        lemma_spec_insert_entry_at(v@, e, n as int);
    }
    v.insert(n, e);
    proof {
        lemma_seq_insert_elems(old(v)@, e, n as int);
    }
}

/// Every element of a spliced sequence is the inserted one or one of the
/// originals.
proof fn lemma_seq_insert_elems(s: Seq<BackendEntry>, e: BackendEntry, i: int)
    requires
        0 <= i <= s.len(),
    ensures
        forall|k: int|
            0 <= k < s.insert(i, e).len() ==> s.insert(i, e)[k] == e || (exists|j: int|
                0 <= j < s.len() && s.insert(i, e)[k] == s[j]),
{
    assert forall|k: int| 0 <= k < s.insert(i, e).len() implies s.insert(i, e)[k] == e || (
    exists|j: int| 0 <= j < s.len() && s.insert(i, e)[k] == s[j]) by {
        if k < i {
            assert(s.insert(i, e)[k] == s[k]);
        } else if k > i {
            assert(s.insert(i, e)[k] == s[k - 1]);
        }
    }
}

} // verus!

verus! {

/// The cursor after `k` round-robin selections over `n` backends, starting
/// from cursor `c`; each selection emits the backend under the cursor and
/// advances it by one, modulo the fleet size, exactly as `select_backend`
/// promises for the round-robin strategy.
pub open spec fn rr_cursor_after(c: int, n: int, k: int) -> int
    decreases k,
{
    if k <= 0 {
        c
    } else {
        (rr_cursor_after(c, n, k - 1) + 1) % n
    }
}

/// How many of the first `k` round-robin selections from cursor `c` emit
/// the backend at index `b`.
pub open spec fn rr_count(c: int, n: int, b: int, k: int) -> int
    decreases k,
{
    if k <= 0 {
        0
    } else {
        rr_count(c, n, b, k - 1) + (if rr_cursor_after(c, n, k - 1) == b {
            1int
        } else {
            0int
        })
    }
}

proof fn lemma_rr_cursor_closed_form(c: int, n: int, k: int)
    requires
        0 < n,
        0 <= c < n,
        0 <= k,
    ensures
        rr_cursor_after(c, n, k) == (c + k) % n,
    decreases k,
{
    if k == 0 {
        vstd::arithmetic::div_mod::lemma_small_mod(c as nat, n as nat);
    } else {
        lemma_rr_cursor_closed_form(c, n, k - 1);
        vstd::arithmetic::div_mod::lemma_add_mod_noop_right(1, c + k - 1, n);
    }
}

/// A selection hits `b` exactly at the offsets congruent to `b - c`.
proof fn lemma_rr_hit(c: int, n: int, b: int, j: int)
    requires
        0 < n,
        0 <= c < n,
        0 <= b < n,
        0 <= j,
    ensures
        (rr_cursor_after(c, n, j) == b) == (j % n == (b - c) % n),
{
    lemma_rr_cursor_closed_form(c, n, j);
    vstd::arithmetic::div_mod::lemma_small_mod(b as nat, n as nat);
    vstd::arithmetic::div_mod::lemma_mod_equivalence(c + j, b, n);
    vstd::arithmetic::div_mod::lemma_mod_equivalence(j, b - c, n);
}

/// Within one block of `n` consecutive selections the hits at `b` are
/// exactly one: none before the aligned offset, one from there on.
proof fn lemma_rr_count_block(c: int, n: int, b: int, k: int)
    requires
        0 < n,
        0 <= c < n,
        0 <= b < n,
        0 <= k <= n,
    ensures
        rr_count(c, n, b, k) == if k > (b - c) % n {
            1int
        } else {
            0int
        },
    decreases k,
{
    vstd::arithmetic::div_mod::lemma_mod_bound(b - c, n);
    if k > 0 {
        lemma_rr_count_block(c, n, b, k - 1);
        lemma_rr_hit(c, n, b, k - 1);
        vstd::arithmetic::div_mod::lemma_small_mod((k - 1) as nat, n as nat);
    }
}

/// Each further full block of `n` selections hits `b` exactly once more.
proof fn lemma_rr_count_step_block(c: int, n: int, b: int, k: int)
    requires
        0 < n,
        0 <= c < n,
        0 <= b < n,
        0 <= k,
    ensures
        rr_count(c, n, b, k + n) == rr_count(c, n, b, k) + 1,
    decreases k,
{
    if k == 0 {
        lemma_rr_count_block(c, n, b, n);
        vstd::arithmetic::div_mod::lemma_mod_bound(b - c, n);
    } else {
        lemma_rr_count_step_block(c, n, b, k - 1);
        lemma_rr_hit(c, n, b, k - 1);
        lemma_rr_hit(c, n, b, k - 1 + n);
        vstd::arithmetic::div_mod::lemma_mod_add_multiples_vanish(k - 1, n);
    }
}

/// Round-robin is fair: over any `k` consecutive selections from any
/// cursor, every backend index is emitted either `k / n` times (rounding
/// down) or one more, and exactly `k / n` times when `k` is a whole number
/// of rounds.
pub proof fn lemma_round_robin_fair(c: int, n: int, b: int, k: int)
    requires
        0 < n,
        0 <= c < n,
        0 <= b < n,
        0 <= k,
    ensures
        k / n <= rr_count(c, n, b, k) <= k / n + 1,
        k % n == 0 ==> rr_count(c, n, b, k) == k / n,
    decreases k,
{
    vstd::arithmetic::div_mod::lemma_fundamental_div_mod(k, n);
    if k < n {
        lemma_rr_count_block(c, n, b, k);
        vstd::arithmetic::div_mod::lemma_basic_div(k, n);
        vstd::arithmetic::div_mod::lemma_small_mod(k as nat, n as nat);
        vstd::arithmetic::div_mod::lemma_mod_bound(b - c, n);
    } else {
        lemma_round_robin_fair(c, n, b, k - n);
        lemma_rr_count_step_block(c, n, b, k - n);
        vstd::arithmetic::div_mod::lemma_mod_bound(k, n);
        assert(k - n == (k / n - 1) * n + k % n) by (nonlinear_arith)
            requires
                k == n * (k / n) + k % n,
        ;
        vstd::arithmetic::div_mod::lemma_fundamental_div_mod_converse(
            k - n,
            n,
            k / n - 1,
            k % n,
        );
    }
}

} // verus!

verus! {

/// One weighted-round-robin step over the fleet's weights, from a cursor
/// and the number of turns the backend under it has already had: the
/// backend under the cursor is emitted, and the cursor moves on once it
/// has had `weight` turns — exactly as `select_backend` promises for the
/// weighted strategy.
pub open spec fn wrr_step(cursor: int, turns: int, weights: Seq<int>) -> (int, int) {
    if turns + 1 == weights[cursor] {
        ((cursor + 1) % (weights.len() as int), 0int)
    } else {
        (cursor, turns + 1)
    }
}

/// The cursor state after `k` weighted selections.
pub open spec fn wrr_state(cursor: int, turns: int, weights: Seq<int>, k: int) -> (int, int)
    decreases k,
{
    if k <= 0 {
        (cursor, turns)
    } else {
        let s = wrr_state(cursor, turns, weights, k - 1);
        wrr_step(s.0, s.1, weights)
    }
}

/// How many of the first `k` weighted selections emit index `b`: the
/// selection of step `j` is the cursor of the state after `j` steps.
pub open spec fn wrr_count(cursor: int, turns: int, weights: Seq<int>, b: int, k: int) -> int
    decreases k,
{
    if k <= 0 {
        0
    } else {
        wrr_count(cursor, turns, weights, b, k - 1) + (if wrr_state(
            cursor,
            turns,
            weights,
            k - 1,
        ).0 == b {
            1int
        } else {
            0int
        })
    }
}

pub open spec fn weights_positive(weights: Seq<int>) -> bool {
    forall|i: int| 0 <= i < weights.len() ==> #[trigger] weights[i] >= 1
}

/// Running one whole block from the start of backend `j`'s turn emits `j`
/// exactly `weights[j]` times, nothing else, and lands at the start of the
/// next backend's turn.
proof fn lemma_wrr_block(weights: Seq<int>, j: int, b: int, t: int)
    requires
        weights_positive(weights),
        0 < weights.len(),
        0 <= j < weights.len(),
        0 <= b < weights.len(),
        0 <= t <= weights[j],
    ensures
        t < weights[j] ==> wrr_state(j, 0, weights, t) == (j, t),
        t == weights[j] ==> wrr_state(j, 0, weights, t) == (
            ((j + 1) % (weights.len() as int)),
            0int,
        ),
        wrr_count(j, 0, weights, b, t) == if b == j {
            t
        } else {
            0int
        },
    decreases t,
{
    if t > 0 {
        lemma_wrr_block(weights, j, b, t - 1);
    }
}

/// Counting distributes over splitting a run at step `k1`.
proof fn lemma_wrr_count_split(
    cursor: int,
    turns: int,
    weights: Seq<int>,
    b: int,
    k1: int,
    k2: int,
)
    requires
        0 <= k1,
        0 <= k2,
    ensures
        wrr_state(cursor, turns, weights, k1 + k2) == wrr_state(
            wrr_state(cursor, turns, weights, k1).0,
            wrr_state(cursor, turns, weights, k1).1,
            weights,
            k2,
        ),
        wrr_count(cursor, turns, weights, b, k1 + k2) == wrr_count(cursor, turns, weights, b, k1)
            + wrr_count(
            wrr_state(cursor, turns, weights, k1).0,
            wrr_state(cursor, turns, weights, k1).1,
            weights,
            b,
            k2,
        ),
    decreases k2,
{
    if k2 > 0 {
        lemma_wrr_count_split(cursor, turns, weights, b, k1, k2 - 1);
    }
}

/// The total weight of the first `m` backends.
pub open spec fn weight_sum(weights: Seq<int>, m: int) -> int
    decreases m,
{
    if m <= 0 {
        0
    } else {
        weight_sum(weights, m - 1) + weights[m - 1]
    }
}

proof fn lemma_weight_sum_nonneg(weights: Seq<int>, m: int)
    requires
        weights_positive(weights),
        0 <= m <= weights.len(),
    ensures
        weight_sum(weights, m) >= m,
    decreases m,
{
    if m > 0 {
        lemma_weight_sum_nonneg(weights, m - 1);
    }
}

/// After the blocks of the first `m` backends, the schedule stands at the
/// start of backend `m`'s turn, and each of those backends has been
/// emitted exactly its weight many times.
proof fn lemma_wrr_prefix(weights: Seq<int>, m: int, b: int)
    requires
        weights_positive(weights),
        0 < weights.len(),
        0 <= m <= weights.len(),
        0 <= b < weights.len(),
    ensures
        wrr_state(0, 0, weights, weight_sum(weights, m)) == ((m % (weights.len() as int)), 0int),
        wrr_count(0, 0, weights, b, weight_sum(weights, m)) == if b < m {
            weights[b]
        } else {
            0int
        },
    decreases m,
{
    let n = weights.len() as int;
    if m == 0 {
        vstd::arithmetic::div_mod::lemma_small_mod(0nat, n as nat);
    } else {
        lemma_wrr_prefix(weights, m - 1, b);
        lemma_weight_sum_nonneg(weights, m - 1);
        vstd::arithmetic::div_mod::lemma_small_mod((m - 1) as nat, n as nat);
        lemma_wrr_count_split(0, 0, weights, b, weight_sum(weights, m - 1), weights[m - 1]);
        lemma_wrr_block(weights, m - 1, b, weights[m - 1]);
        if m == n {
            assert(m % n == 0) by {
                vstd::arithmetic::div_mod::lemma_mod_self_0(n);
            }
        } else {
            vstd::arithmetic::div_mod::lemma_small_mod(m as nat, n as nat);
        }
    }
}

/// Weighted round-robin matches the weights: over one full cycle of
/// `weight_sum` selections from the reset state the fleet update installs,
/// every backend is emitted exactly its weight many times — so the long-run
/// frequency of backend `b` is its share `weights[b] / weight_sum`, and no
/// backend with positive weight is starved across a cycle.
pub proof fn lemma_weighted_round_robin_frequency(weights: Seq<int>, b: int)
    requires
        weights_positive(weights),
        0 < weights.len(),
        0 <= b < weights.len(),
    ensures
        wrr_count(0, 0, weights, b, weight_sum(weights, weights.len() as int)) == weights[b],
        wrr_count(0, 0, weights, b, weight_sum(weights, weights.len() as int)) >= 1,
{
    lemma_wrr_prefix(weights, weights.len() as int, b);
}

} // verus!
