use proxylb::balancer::LoadBalancer;
use proxylb::config::{
    BackendConfig, BackendEntry, BalancerConfig, LoadBalancingStrategy, RateLimitConfig,
};
use proxylb::dto::{ForwardData, HealthCheckResponse, HealthStatus, HttpError};
use proxylb::limiter::RateLimiter;
use proxylb::pipeline::{
    admit_and_select, client_ip_or_unknown, finish_request, global_key, is_host_header,
    rejection_response, upstream_path, upstream_url, ForwardOutcome, ProxyReply, RouteDecision,
};

fn entry(id: &str, url: &str, weight: u32, rate_limit: Option<RateLimitConfig>) -> BackendEntry {
    BackendEntry {
        id: id.to_string(),
        config: BackendConfig { url: url.to_string(), weight, rate_limit },
    }
}

fn config(
    backends: Vec<BackendEntry>,
    global: Option<RateLimitConfig>,
    is_debug: bool,
) -> BalancerConfig {
    BalancerConfig {
        strategy: LoadBalancingStrategy::RoundRobin,
        backends,
        global_rate_limit: global,
        is_debug,
    }
}

fn ready(cfg: &BalancerConfig) -> (LoadBalancer, RateLimiter) {
    let mut lb = LoadBalancer::new();
    lb.set_strategy(LoadBalancingStrategy::RoundRobin);
    lb.update_backends(&cfg.backends);
    (lb, RateLimiter::new())
}

#[test]
fn empty_fleet_rejects_with_503_no_backend_available() {
    let cfg = config(vec![], None, false);
    let (mut lb, mut limiter) = ready(&cfg);
    let d = admit_and_select(&mut lb, &mut limiter, &cfg, "1.2.3.4", 0);
    assert!(matches!(d, RouteDecision::NoBackend));
    let (status, err) = rejection_response(&d);
    assert_eq!(status, 503);
    assert_eq!(err.status, 503);
    assert_eq!(err.error, HttpError::NoBackendAvailable);
    assert_eq!(err.message, "");
    assert_eq!(err.error.name(), "no_backend_available");
}

#[test]
fn global_rate_limit_trips_on_the_second_request() {
    let cfg = config(
        vec![entry("b1", "http://upstream/", 1, None)],
        Some(RateLimitConfig { requests_per_second: 1, burst_size: Some(1) }),
        false,
    );
    let (mut lb, mut limiter) = ready(&cfg);
    let first = admit_and_select(&mut lb, &mut limiter, &cfg, "9.9.9.9", 0);
    assert!(matches!(first, RouteDecision::Forward { .. }));
    let second = admit_and_select(&mut lb, &mut limiter, &cfg, "9.9.9.9", 0);
    assert!(matches!(second, RouteDecision::GlobalLimited));
    let (status, err) = rejection_response(&second);
    assert_eq!(status, 429);
    assert_eq!(err.error, HttpError::GlobalRateLimitExceeded);
    assert_eq!(err.error.name(), "global_rate_limit_exceeded");
}

#[test]
fn global_rate_limit_keys_clients_separately() {
    let cfg = config(
        vec![entry("b1", "http://upstream/", 1, None)],
        Some(RateLimitConfig { requests_per_second: 1, burst_size: Some(1) }),
        false,
    );
    let (mut lb, mut limiter) = ready(&cfg);
    assert!(matches!(
        admit_and_select(&mut lb, &mut limiter, &cfg, "1.1.1.1", 0),
        RouteDecision::Forward { .. }
    ));
    assert!(matches!(
        admit_and_select(&mut lb, &mut limiter, &cfg, "2.2.2.2", 0),
        RouteDecision::Forward { .. }
    ));
}

#[test]
fn backend_rate_limit_trips_and_answers_429() {
    let cfg = config(
        vec![entry(
            "b1",
            "http://upstream/",
            1,
            Some(RateLimitConfig { requests_per_second: 1, burst_size: Some(1) }),
        )],
        None,
        false,
    );
    let (mut lb, mut limiter) = ready(&cfg);
    let first = admit_and_select(&mut lb, &mut limiter, &cfg, "c", 0);
    assert!(matches!(first, RouteDecision::Forward { .. }));
    lb.decrement_connections("b1");
    let second = admit_and_select(&mut lb, &mut limiter, &cfg, "c", 0);
    assert!(matches!(second, RouteDecision::BackendLimited { .. }));
    let (status, err) = rejection_response(&second);
    assert_eq!(status, 429);
    assert_eq!(err.error, HttpError::BackendRateLimitExceeded);
}

#[test]
fn forwarded_request_accounts_connections_and_nets_to_zero() {
    let cfg = config(vec![entry("b1", "http://upstream/", 1, None)], None, false);
    let (mut lb, mut limiter) = ready(&cfg);
    let d = admit_and_select(&mut lb, &mut limiter, &cfg, "c", 0);
    let index = match d {
        RouteDecision::Forward { index } => index,
        _ => panic!("expected a forwardable decision"),
    };
    assert_eq!(lb.backend_connections(index), 1);
    let url = lb.backend_url(index);
    finish_request(
        &mut lb,
        "b1",
        &url,
        ForwardOutcome::Success { status: 200, body: "ok".to_string() },
        false,
    );
    assert_eq!(lb.backend_connections(index), 0);
}

#[test]
fn successful_forward_wraps_json_bodies_as_json() {
    let cfg = config(vec![entry("b1", "http://upstream/", 1, None)], None, false);
    let (mut lb, _limiter) = ready(&cfg);
    let url = lb.backend_url(0);
    let (status, reply) = finish_request(
        &mut lb,
        "b1",
        &url,
        ForwardOutcome::Success { status: 201, body: "{\"ok\":true}".to_string() },
        false,
    );
    assert_eq!(status, 200);
    match reply {
        ProxyReply::Success(sr) => {
            assert_eq!(sr.status, 201);
            assert_eq!(sr.url, "");
            match sr.data {
                ForwardData::Json(v) => {
                    assert_eq!(v["ok"], serde_json::Value::Bool(true));
                }
                ForwardData::Text(_) => panic!("a JSON body must be wrapped as JSON"),
            }
        }
        ProxyReply::Error(_) => panic!("a successful forward answers with the success envelope"),
    }
}

#[test]
fn successful_forward_wraps_non_json_bodies_as_text() {
    let cfg = config(vec![entry("b1", "http://upstream/", 1, None)], None, true);
    let (mut lb, _limiter) = ready(&cfg);
    let url = lb.backend_url(0);
    let (status, reply) = finish_request(
        &mut lb,
        "b1",
        &url,
        ForwardOutcome::Success { status: 200, body: "plain text".to_string() },
        true,
    );
    assert_eq!(status, 200);
    match reply {
        ProxyReply::Success(sr) => {
            // debug mode exposes the backend URL in the envelope
            assert_eq!(sr.url, "http://upstream/");
            match sr.data {
                ForwardData::Text(t) => assert_eq!(t, "plain text"),
                ForwardData::Json(_) => panic!("plain text must stay text"),
            }
        }
        ProxyReply::Error(_) => panic!("a successful forward answers with the success envelope"),
    }
}

#[test]
fn failed_forward_answers_502_with_the_detail() {
    let cfg = config(vec![entry("b1", "http://upstream/", 1, None)], None, false);
    let (mut lb, _limiter) = ready(&cfg);
    let url = lb.backend_url(0);
    let (status, reply) = finish_request(
        &mut lb,
        "b1",
        &url,
        ForwardOutcome::Failure { detail: "connection refused".to_string() },
        false,
    );
    assert_eq!(status, 502);
    match reply {
        ProxyReply::Error(er) => {
            assert_eq!(er.status, 502);
            assert_eq!(er.error, HttpError::BackendRateLimitExceeded);
            assert_eq!(er.message, "Failed to forward request: connection refused");
        }
        ProxyReply::Success(_) => panic!("a failed forward answers with the error envelope"),
    }
}

#[test]
fn upstream_path_strips_the_proxy_prefix() {
    assert_eq!(upstream_path("/proxy/x"), "/x");
    assert_eq!(upstream_path("/proxy"), "");
    assert_eq!(upstream_path("/proxy/a/b?c=d"), "/a/b?c=d");
}

#[test]
fn upstream_path_is_empty_without_the_prefix() {
    assert_eq!(upstream_path("/other/x"), "");
    assert_eq!(upstream_path(""), "");
    assert_eq!(upstream_path("/prox"), "");
}

#[test]
fn client_identifier_defaults_to_unknown() {
    assert_eq!(client_ip_or_unknown(None), "unknown");
    assert_eq!(client_ip_or_unknown(Some("10.0.0.1".to_string())), "10.0.0.1");
}

#[test]
fn global_key_prefixes_the_client() {
    assert_eq!(global_key("10.0.0.1"), "global_10.0.0.1");
}

#[test]
fn health_response_carries_status_count_and_strategy() {
    let r = HealthCheckResponse::new(HealthStatus::Healthy, 3, "RoundRobin".to_string());
    assert_eq!(r.status, HealthStatus::Healthy);
    assert_eq!(r.backends_count, 3);
    assert_eq!(r.strategy, "RoundRobin");
    assert_eq!(r.status.name(), "healthy");
    assert_eq!(LoadBalancingStrategy::LeastConnections.name(), "LeastConnections");
}

#[test]
fn health_json_renders_the_exact_envelope() {
    let r = HealthCheckResponse::new(HealthStatus::Healthy, 12, "RoundRobin".to_string());
    assert_eq!(
        r.to_json(),
        "{\"status\":\"healthy\",\"backends_count\":12,\"strategy\":\"RoundRobin\"}"
    );
}

#[test]
fn health_json_round_trips() {
    let original =
        HealthCheckResponse::new(HealthStatus::Healthy, 3, "WeightedRoundRobin".to_string());
    let reparsed = proxylb::dto::parse_health_json(&original.to_json())
        .expect("a rendered health report must re-parse");
    assert_eq!(reparsed.status, original.status);
    assert_eq!(reparsed.backends_count, original.backends_count);
    assert_eq!(reparsed.strategy, original.strategy);
}

#[test]
fn health_json_round_trips_at_zero_backends() {
    let original = HealthCheckResponse::new(HealthStatus::Failed, 0, "LeastConnections".to_string());
    let reparsed = proxylb::dto::parse_health_json(&original.to_json())
        .expect("a rendered health report must re-parse");
    assert_eq!(reparsed.status, original.status);
    assert_eq!(reparsed.backends_count, original.backends_count);
    assert_eq!(reparsed.strategy, original.strategy);
}

#[test]
fn health_json_rejects_a_mangled_envelope() {
    assert!(proxylb::dto::parse_health_json("{\"status\":\"healthy\"}").is_none());
    assert!(proxylb::dto::parse_health_json("").is_none());
    // the health body itself is valid JSON for serde too
    let r = HealthCheckResponse::new(HealthStatus::Healthy, 2, "RoundRobin".to_string());
    let v: serde_json::Value = serde_json::from_str(&r.to_json()).unwrap();
    assert_eq!(v["status"], serde_json::Value::String("healthy".to_string()));
    assert_eq!(v["backends_count"], serde_json::Value::from(2u64));
}

#[test]
fn upstream_path_keeps_whatever_follows_the_prefix() {
    // the prefix match is literal: anything after `/proxy` is forwarded
    assert_eq!(upstream_path("/proxyfoo"), "foo");
}

#[test]
fn host_header_is_recognised_in_any_case() {
    assert!(is_host_header("host"));
    assert!(is_host_header("Host"));
    assert!(is_host_header("HOST"));
    assert!(!is_host_header("hostname"));
    assert!(!is_host_header("x-host"));
    assert!(!is_host_header(""));
}

#[test]
fn upstream_url_appends_the_path() {
    assert_eq!(upstream_url("http://upstream/", "/x"), "http://upstream//x");
    assert_eq!(upstream_url("http://b", ""), "http://b");
}
