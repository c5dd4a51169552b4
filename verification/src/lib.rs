//! A verified core for a metrics reverse proxy.
//!
//! The crate models the request pipeline of a proxy that sits in front of
//! metrics-exposing backends: a validated configuration topology, a parser
//! and serializer for the text exposition format, a label-filter engine,
//! a dispatcher that maps backend failures to proxy-facing status codes,
//! and a TTL-bounded response cache.

pub mod cache;
pub mod config;
pub mod exposition;
pub mod filter;
pub mod metrics;
pub mod proxy;
pub mod text;
