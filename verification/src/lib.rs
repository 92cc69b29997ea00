//! Core of a reverse-proxy load balancer: token-bucket rate limiting with
//! lazily created per-key buckets, a backend fleet with round-robin,
//! weighted round-robin and least-connections selection, per-backend
//! live-connection accounting, and the request pipeline that runs global
//! admission, selection, backend admission, accounting and response
//! shaping in that order.
//!
//! Everything that decides is here and carries a contract; reading the
//! clock, serving HTTP and forwarding upstream happen outside, handing the
//! library plain values (a millisecond reading of a monotonic clock, the
//! request path, the forward's outcome) and taking plain values back.
pub mod balancer;
pub mod config;
pub mod dto;
pub mod limiter;
pub mod pipeline;
