//! The request pipeline: client identification, global admission, backend
//! selection, per-backend admission, connection accounting, and response
//! shaping. The gates run strictly in that order; a negative decision at any
//! gate produces its error envelope and skips the later stages.
//!
//! Forwarding itself is I/O and happens outside; the pipeline hands out the
//! selected backend and shapes whatever outcome the forward produced.
use vstd::prelude::*;
use vstd::string::StrSliceExecFns;
use vstd::string::StringExecFns;
use crate::balancer::{LoadBalancer, fleet_dec_step, is_first_min_connections};
use crate::config::{BalancerConfig, LoadBalancingStrategy};
use crate::dto::{ErrorResponse, ForwardData, HttpError, SuccessResponse};
use crate::limiter::{RateLimiter, check_step};

verus! {

/// Whether a string is a well-formed JSON document, as serde_json's parser
/// decides it; a function of the characters alone.
pub uninterp spec fn json_parses(s: Seq<char>) -> bool;

/// Relies on serde_json::from_str::<Value>: parses a string as a JSON
/// document, succeeding exactly on well-formed JSON.
#[verifier::external_body]
fn try_parse_json(s: &str) -> (r: Option<serde_json::Value>)
    ensures
        r is Some <==> json_parses(s@),
{
    serde_json::from_str::<serde_json::Value>(s).ok()
}

/// What the admission and selection gates decided for one request.
pub enum RouteDecision {
    /// The global rate limit denied the client.
    GlobalLimited,
    /// The fleet is empty.
    NoBackend,
    /// The selected backend's own rate limit denied the request.
    BackendLimited { index: usize },
    /// The request may be forwarded to the backend at this fleet index,
    /// whose live-connection counter has been incremented.
    Forward { index: usize },
}

/// The fleet index the selection stage settled on, when it ran.
pub open spec fn decision_index(d: RouteDecision) -> Option<usize> {
    match d {
        RouteDecision::GlobalLimited => None,
        RouteDecision::NoBackend => None,
        RouteDecision::BackendLimited { index } => Some(index),
        RouteDecision::Forward { index } => Some(index),
    }
}

/// The limiter key of the global gate for one client: `global_` followed by
/// the client identifier.
pub fn global_key(client_ip: &str) -> (r: String)
    ensures
        r@ == "global_"@ + client_ip@,
{
    let mut key: String = "global_".to_owned();
    key.append(client_ip);
    key
}

/// The client identifier used as the global limiter key: the forwarded-for
/// header value when one arrived as readable text, the literal `unknown`
/// otherwise.
pub fn client_ip_or_unknown(header: Option<String>) -> (r: String)
    ensures
        match header {
            Some(h) => r == h,
            None => r@ == "unknown"@,
        },
{
    match header {
        Some(h) => h,
        None => "unknown".to_owned(),
    }
}

/// The path forwarded upstream: the request path with the leading literal
/// `/proxy` stripped, or empty when the path does not start with it.
pub open spec fn spec_upstream_path(path: Seq<char>) -> Seq<char> {
    if path.len() >= 6 && path.take(6) == "/proxy"@ {
        path.skip(6)
    } else {
        Seq::empty()
    }
}

pub fn upstream_path(path: &str) -> (r: String)
    ensures
        r@ == spec_upstream_path(path@),
{
    proof {
        reveal_strlit("/proxy");
    }
    let n: usize = path.unicode_len();
    if n < 6 {
        return String::new();
    }
    let prefix: &str = "/proxy";
    let mut i: usize = 0;
    while i < 6
        invariant
            i <= 6,
            6 <= n,
            n == path@.len(),
            prefix@ == "/proxy"@,
            forall|j: int| 0 <= j < i ==> path@[j] == "/proxy"@[j],
        decreases 6 - i,
    {
        proof {
            reveal_strlit("/proxy");
        }
        let c: char = path.get_char(i);
        let p: char = prefix.get_char(i);
        if (c as u32) != (p as u32) {
            proof {
                assert(path@.take(6)[i as int] != "/proxy"@[i as int]);
            }
            return String::new();
        }
        i = i + 1;
    }
    proof {
        assert(path@.take(6) =~= "/proxy"@);
    }
    path.substring_char(6, n).to_owned()
}

/// Whether a header name is `host`, compared ASCII-case-insensitively:
/// the one request header that is not copied onto the forwarded request.
pub open spec fn spec_is_host_header(name: Seq<char>) -> bool {
    &&& name.len() == 4
    &&& (name[0] == 'h' || name[0] == 'H')
    &&& (name[1] == 'o' || name[1] == 'O')
    &&& (name[2] == 's' || name[2] == 'S')
    &&& (name[3] == 't' || name[3] == 'T')
}

pub fn is_host_header(name: &str) -> (r: bool)
    ensures
        r == spec_is_host_header(name@),
{
    let n: usize = name.unicode_len();
    if n != 4 {
        return false;
    }
    let c0: u32 = name.get_char(0) as u32;
    let c1: u32 = name.get_char(1) as u32;
    let c2: u32 = name.get_char(2) as u32;
    let c3: u32 = name.get_char(3) as u32;
    (c0 == 104 || c0 == 72) && (c1 == 111 || c1 == 79) && (c2 == 115 || c2 == 83) && (c3 == 116
        || c3 == 84)
}

/// The URL a request is forwarded to: the backend URL with the upstream
/// path appended.
pub fn upstream_url(backend_url: &str, path: &str) -> (r: String)
    ensures
        r@ == backend_url@ + path@,
{
    let mut url: String = backend_url.to_owned();
    url.append(path);
    url
}

/// Run the gates of one request in order: global admission, selection,
/// backend admission, and connection accounting for a forwardable request.
#[verifier::rlimit(100)]
pub fn admit_and_select(
    lb: &mut LoadBalancer,
    limiter: &mut RateLimiter,
    config: &BalancerConfig,
    client_ip: &str,
    now_ms: u64,
) -> (d: RouteDecision)
    requires
        old(lb).wf(),
        old(limiter).wf(),
        old(lb).times_le(now_ms as int),
        old(limiter).times_le(now_ms as int),
        config.wf(),
    ensures
        final(lb).wf(),
        final(limiter).wf(),
        final(lb).times_le(now_ms as int),
        final(limiter).times_le(now_ms as int),
        final(lb).strategy == old(lb).strategy,
        final(lb).backends@.len() == old(lb).backends@.len(),
        // the global gate runs first, exactly when a global limit is set
        config.global_rate_limit is None ==> *final(limiter) == *old(limiter) && !(d
            is GlobalLimited),
        config.global_rate_limit matches Some(rl) ==> check_step(
            *old(limiter),
            *final(limiter),
            "global_"@ + client_ip@,
            rl.requests_per_second,
            rl.burst_size,
            now_ms as int,
            !(d is GlobalLimited),
        ),
        d is GlobalLimited ==> *final(lb) == *old(lb),
        // selection runs next: no backend exactly when the fleet is empty
        d is NoBackend <==> !(d is GlobalLimited) && old(lb).backends@.len() == 0,
        d is NoBackend ==> *final(lb) == *old(lb),
        // a selected index is the strategy's choice over the old state
        decision_index(d) matches Some(i) ==> {
            &&& i < old(lb).backends@.len()
            &&& (old(lb).strategy == LoadBalancingStrategy::RoundRobin || old(lb).strategy
                == LoadBalancingStrategy::WeightedRoundRobin ==> i == old(lb).current_index)
            &&& (old(lb).strategy == LoadBalancingStrategy::LeastConnections
                ==> is_first_min_connections(old(lb).backends@, i as int))
            &&& final(lb).backends@[i as int].id == old(lb).backends@[i as int].id
            &&& final(lb).backends@[i as int].url == old(lb).backends@[i as int].url
        },
        decision_index(d) is Some <==> !(d is GlobalLimited) && old(lb).backends@.len() > 0,
        // identity of the fleet is never touched by admission or accounting
        forall|j: int|
            0 <= j < old(lb).backends@.len() ==> (#[trigger] final(lb).backends@[j]).id
                == old(lb).backends@[j].id && final(lb).backends@[j].url
                == old(lb).backends@[j].url && final(lb).backends@[j].weight
                == old(lb).backends@[j].weight,
        // accounting: exactly a forwardable request bumps the counter of
        // the first backend carrying the selected backend's id
        !(d is Forward) ==> forall|j: int|
            0 <= j < old(lb).backends@.len() ==> (#[trigger] final(lb).backends@[j]).active_connections
                == old(lb).backends@[j].active_connections,
        d matches RouteDecision::Forward { index } ==> forall|m: int|
            0 <= m < old(lb).backends@.len() && (#[trigger] old(lb).backends@[m]).id@
                == old(lb).backends@[index as int].id@ && (forall|j: int|
                0 <= j < m ==> old(lb).backends@[j].id@ != old(lb).backends@[index as int].id@)
                ==> {
                &&& final(lb).backends@[m].active_connections == (
                if old(lb).backends@[m].active_connections == u32::MAX {
                    u32::MAX as int
                } else {
                    old(lb).backends@[m].active_connections + 1
                })
                &&& (forall|j: int|
                    0 <= j < old(lb).backends@.len() && j != m
                        ==> (#[trigger] final(lb).backends@[j]).active_connections
                        == old(lb).backends@[j].active_connections)
            },
        // once the selection stage runs, the cursor steps exactly as the
        // strategy promises, so the selection sequence is pinned here too
        !(d is GlobalLimited) && old(lb).backends@.len() > 0 && old(lb).strategy
            == LoadBalancingStrategy::RoundRobin ==> final(lb).current_index == (
        old(lb).current_index + 1) % (old(lb).backends@.len() as int) && final(lb).current_weight
            == 0,
        !(d is GlobalLimited) && old(lb).backends@.len() > 0 && old(lb).strategy
            == LoadBalancingStrategy::WeightedRoundRobin ==> (
        if old(lb).current_weight + 1 == old(lb).backends@[old(lb).current_index as int].weight {
            final(lb).current_index == (old(lb).current_index + 1) % (
            old(lb).backends@.len() as int) && final(lb).current_weight == 0
        } else {
            final(lb).current_index == old(lb).current_index
                && final(lb).current_weight == old(lb).current_weight + 1
        }),
        !(d is GlobalLimited) && old(lb).backends@.len() > 0 && old(lb).strategy
            == LoadBalancingStrategy::LeastConnections ==> final(lb).current_index
            == old(lb).current_index && final(lb).current_weight == old(lb).current_weight,
        // the backend gate decides between rejection and forwarding: a
        // selected request is forwarded exactly when the backend carries no
        // limiter, the snapshot carries no rate limit for its id, or its
        // limiter granted one token under the backend id
        decision_index(d) matches Some(i) ==> ({
            let b = old(lb).backends@[i as int];
            &&& (b.rate_limiter is None ==> d is Forward)
            &&& ((forall|j: int|
                0 <= j < config.backends@.len() ==> !((#[trigger] config.backends@[j]).id@
                    == b.id@ && config.backends@[j].config.rate_limit is Some)) ==> d is Forward)
            &&& (b.rate_limiter matches Some(rl0) ==> (forall|j: int|
                0 <= j < config.backends@.len() && (#[trigger] config.backends@[j]).id@ == b.id@
                    ==> (config.backends@[j].config.rate_limit matches Some(rl)
                    ==> (final(lb).backends@[i as int].rate_limiter matches Some(rl1)
                    && check_step(
                    rl0,
                    rl1,
                    b.id@,
                    rl.requests_per_second,
                    rl.burst_size,
                    now_ms as int,
                    d is Forward,
                )))))
        }),
    {
        // global admission
        if let Some(global_rl) = &config.global_rate_limit {
            let key = global_key(client_ip);
            let granted = limiter.check_rate_limit(
                key.as_str(),
                global_rl.requests_per_second,
                global_rl.burst_size,
                now_ms,
            );
            if !granted {
                return RouteDecision::GlobalLimited;
            }
        }
        // selection
        let selected = lb.select_backend();
        let index = match selected {
            Some(i) => i,
            None => {
                return RouteDecision::NoBackend;
            },
        };
        // backend admission, against the configuration the snapshot still
        // carries for this id
        let backend_id = lb.backend_id(index);
        if lb.backend_has_limiter(index) {
            if let Some(backend_config) = config.find_backend(&backend_id) {
                proof {
                    let j0 = choose|j0: int|
                        0 <= j0 < config.backends@.len() && config.backends@[j0].id@
                            == backend_id@ && *backend_config == config.backends@[j0].config;
                    assert forall|j: int|
                        0 <= j < config.backends@.len() && (#[trigger] config.backends@[j]).id@
                            == backend_id@ implies config.backends@[j].config
                        == *backend_config by {
                        if j < j0 {
                            assert(config.backends@[j].id@ != config.backends@[j0].id@);
                        } else if j > j0 {
                            assert(config.backends@[j0].id@ != config.backends@[j].id@);
                        }
                    }
                }
                if let Some(rl) = &backend_config.rate_limit {
                    let granted = lb.backend_admission(
                        index,
                        rl.requests_per_second,
                        rl.burst_size,
                        now_ms,
                    );
                    if !granted {
                        return RouteDecision::BackendLimited { index };
                    }
                }
            }
        }
        // accounting
        lb.increment_connections(backend_id.as_str());
        RouteDecision::Forward { index }
    }

/// The error envelope of a rejection: which gate said no decides the status
/// code and the error kind; the message is empty.
pub fn rejection_response(d: &RouteDecision) -> (r: (u16, ErrorResponse))
    requires
        !(d is Forward),
    ensures
        d is GlobalLimited ==> r.0 == 429 && r.1.error == HttpError::GlobalRateLimitExceeded,
        d is NoBackend ==> r.0 == 503 && r.1.error == HttpError::NoBackendAvailable,
        d is BackendLimited ==> r.0 == 429 && r.1.error == HttpError::BackendRateLimitExceeded,
        r.1.status == r.0,
        r.1.message@.len() == 0,
    {
        proof {
            reveal_strlit("");
        }
        match d {
            RouteDecision::GlobalLimited => (
                429,
                ErrorResponse::new(HttpError::GlobalRateLimitExceeded, 429, ""),
            ),
            RouteDecision::NoBackend => (
                503,
                ErrorResponse::new(HttpError::NoBackendAvailable, 503, ""),
            ),
            RouteDecision::BackendLimited { .. } => (
                429,
                ErrorResponse::new(HttpError::BackendRateLimitExceeded, 429, ""),
            ),
            RouteDecision::Forward { .. } => (
                429,
                ErrorResponse::new(HttpError::Undefined, 429, ""),
            ),
        }
    }

/// What the forward stage produced: the upstream status and body on
/// success, otherwise the failure detail.
pub enum ForwardOutcome {
    Success { status: u16, body: String },
    Failure { detail: String },
}

/// One shaped reply to the client: either the success envelope or the error
/// envelope.
pub enum ProxyReply {
    Success(SuccessResponse),
    Error(ErrorResponse),
}

/// Close out a forwarded request: release the backend's connection, then
/// shape the reply. A successful forward always answers 200, with the
/// upstream status inside the envelope and the body wrapped as parsed JSON
/// or raw text; a failed forward answers 502 with the failure message.
pub fn finish_request(
    lb: &mut LoadBalancer,
    backend_id: &str,
    backend_url: &String,
    outcome: ForwardOutcome,
    is_debug: bool,
) -> (r: (u16, ProxyReply))
    requires
        old(lb).wf(),
    ensures
        final(lb).wf(),
        final(lb).strategy == old(lb).strategy,
        final(lb).current_index == old(lb).current_index,
        final(lb).current_weight == old(lb).current_weight,
        fleet_dec_step(old(lb).backends@, final(lb).backends@, backend_id@),
        outcome matches ForwardOutcome::Success { status, body } ==> {
            &&& r.0 == 200
            &&& (r.1 matches ProxyReply::Success(sr) && ({
                &&& sr.status == status
                &&& (sr.data is Json <==> json_parses(body@))
                &&& (!json_parses(body@) ==> (sr.data matches ForwardData::Text(t) && t == body))
                &&& sr.url@ == (if is_debug {
                    backend_url@
                } else {
                    Seq::<char>::empty()
                })
            }))
        },
        outcome matches ForwardOutcome::Failure { detail } ==> {
            &&& r.0 == 502
            &&& (r.1 matches ProxyReply::Error(er) && ({
                &&& er.error == HttpError::BackendRateLimitExceeded
                &&& er.status == 502
                &&& er.message@ == "Failed to forward request: "@ + detail@
            }))
        },
    {
        lb.decrement_connections(backend_id);
        match outcome {
            ForwardOutcome::Success { status, body } => {
                let data = match try_parse_json(body.as_str()) {
                    Some(v) => ForwardData::Json(v),
                    None => ForwardData::Text(body),
                };
                let url: String = if is_debug {
                    backend_url.clone()
                } else {
                    String::new()
                };
                (200, ProxyReply::Success(SuccessResponse { status, data, url }))
            },
            ForwardOutcome::Failure { detail } => {
                let mut message: String = "Failed to forward request: ".to_owned();
                message.append(detail.as_str());
                (
                    502,
                    ProxyReply::Error(
                        ErrorResponse {
                            error: HttpError::BackendRateLimitExceeded,
                            status: 502,
                            message,
                        },
                    ),
                )
            },
        }
    }

} // verus!
