//! Backend routing and resilience core for an LLM gateway.
//!
//! The crate decides, for each outbound chat-completion request, whether the
//! request may proceed, which provider backend it is routed to, how failures
//! and latency are accounted for, and how sensitive content is kept off
//! backends without a zero-data-retention (ZDR) contract.
//!
//! Components:
//! - [`circuit_breaker`]: per-backend finite state machine gating requests
//!   after consecutive failures.
//! - [`provider_health`]: per-backend latency window, failure counters,
//!   cooldown and health classification.
//! - [`privacy`]: prompt classification, ZDR filtering and the violation
//!   audit log.
//! - [`llm`]: chat-completion data types and the bounded, jittered retry
//!   policy of the transport.
//! - [`router`]: the per-request admission pipeline that composes the above.

pub mod circuit_breaker;
pub mod clock;
pub mod llm;
pub mod num;
pub mod privacy;
pub mod provider_health;
pub mod router;
