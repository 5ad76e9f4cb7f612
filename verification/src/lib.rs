//! A gateway library that prepares chat-completion requests for several
//! upstream model providers and translates their streamed responses into one
//! canonical output format.
//!
//! The library holds the pure logic of the gateway: conversation truncation,
//! provider-target resolution under a per-minute rate budget, request payload
//! construction (including the role remapping for the content-generation
//! provider), and per-chunk translation of the upstream byte stream into the
//! canonical delta-chunk format with its end-of-stream sentinel. Network I/O
//! — the HTTP server, the outbound HTTP client and the shared counter store —
//! lives outside the library and hands it plain values.

pub mod bytes;
pub mod models;
pub mod rate;
pub mod request;
pub mod response;
pub mod service;
pub mod supplier;
pub mod truncate;
