//! Configuration records consumed by the load balancer and the request
//! pipeline: per-backend descriptions, rate-limit parameters, the selection
//! strategy, and the full configuration snapshot.
use vstd::prelude::*;

verus! {

/// Rate-limit parameters: a positive request rate and an optional burst size.
/// A burst of zero is treated as absent (the burst then equals the rate).
#[derive(Clone, Copy, Debug)]
pub struct RateLimitConfig {
    pub requests_per_second: u32,
    pub burst_size: Option<u32>,
}

impl RateLimitConfig {
    /// A rate-limit specification is valid when its rate is positive.
    pub open spec fn wf(self) -> bool {
        self.requests_per_second >= 1
    }
}

/// Immutable description of one backend: its URL, its weight, and an
/// optional per-backend rate limit.
#[derive(Clone, Debug)]
pub struct BackendConfig {
    pub url: String,
    pub weight: u32,
    pub rate_limit: Option<RateLimitConfig>,
}

impl BackendConfig {
    /// A backend description is valid when the URL is non-empty, the weight
    /// is at least one, and any rate limit carries a positive rate.
    pub open spec fn wf(self) -> bool {
        &&& self.url@.len() > 0
        &&& self.weight >= 1
        &&& match self.rate_limit {
            Some(rl) => rl.wf(),
            None => true,
        }
    }
}

/// The selection strategy for the load balancer.
#[derive(Clone, Copy, Debug, PartialEq, Eq, Structural)]
pub enum LoadBalancingStrategy {
    RoundRobin,
    WeightedRoundRobin,
    LeastConnections,
}

impl LoadBalancingStrategy {
    /// The canonical rendering of the strategy, as reported by the health
    /// and configuration endpoints.
    pub open spec fn spec_name(self) -> Seq<char> {
        match self {
            LoadBalancingStrategy::RoundRobin => "RoundRobin"@,
            LoadBalancingStrategy::WeightedRoundRobin => "WeightedRoundRobin"@,
            LoadBalancingStrategy::LeastConnections => "LeastConnections"@,
        }
    }

    pub fn name(&self) -> (r: String)
        ensures
            r@ == self.spec_name(),
    {
        match self {
            LoadBalancingStrategy::RoundRobin => "RoundRobin".to_owned(),
            LoadBalancingStrategy::WeightedRoundRobin => "WeightedRoundRobin".to_owned(),
            LoadBalancingStrategy::LeastConnections => "LeastConnections".to_owned(),
        }
    }
}

/// One named backend entry of the configuration snapshot. The snapshot is a
/// mapping from backend id to description; here it is held as a sequence of
/// entries with pairwise distinct ids.
#[derive(Clone, Debug)]
pub struct BackendEntry {
    pub id: String,
    pub config: BackendConfig,
}

impl BackendEntry {
    pub open spec fn wf(self) -> bool {
        self.config.wf()
    }

    /// A field-for-field copy of the entry.
    pub fn clone_entry(&self) -> (r: BackendEntry)
        ensures
            r == *self,
    {
        BackendEntry {
            id: self.id.clone(),
            config: BackendConfig {
                url: self.config.url.clone(),
                weight: self.config.weight,
                rate_limit: self.config.rate_limit,
            },
        }
    }
}

/// The active configuration snapshot: strategy, backend map, optional global
/// rate limit, and the debug flag that controls whether responses expose the
/// upstream URL.
#[derive(Clone, Debug)]
pub struct BalancerConfig {
    pub strategy: LoadBalancingStrategy,
    pub backends: Vec<BackendEntry>,
    pub global_rate_limit: Option<RateLimitConfig>,
    pub is_debug: bool,
}

impl BalancerConfig {
    /// A snapshot is valid when each entry is valid and the ids are
    /// pairwise distinct.
    pub open spec fn wf(self) -> bool {
        &&& forall|i: int| 0 <= i < self.backends@.len() ==> (#[trigger] self.backends@[i]).wf()
        &&& forall|i: int, j: int|
            0 <= i < j < self.backends@.len() ==> self.backends@[i].id@ != self.backends@[j].id@
        &&& match self.global_rate_limit {
            Some(rl) => rl.wf(),
            None => true,
        }
    }

    /// Looks up the description of the backend with the given id.
    pub fn find_backend(&self, id: &String) -> (r: Option<&BackendConfig>)
        ensures
            match r {
                Some(c) => exists|i: int|
                    0 <= i < self.backends@.len() && self.backends@[i].id@ == id@
                        && *c == self.backends@[i].config,
                None => forall|i: int|
                    0 <= i < self.backends@.len() ==> self.backends@[i].id@ != id@,
            },
    {
        let n: usize = self.backends.len();
        let mut k: usize = 0;
        while k < n
            invariant
                n == self.backends@.len(),
                k <= n,
                forall|i: int| 0 <= i < k ==> self.backends@[i].id@ != id@,
            decreases n - k,
        {
            if self.backends[k].id == *id {
                return Some(&self.backends[k].config);
            }
            k = k + 1;
        }
        None
    }
}

} // verus!
