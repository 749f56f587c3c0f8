//! Grey Signal: authenticated admission of public-safe event envelopes.
//!
//! The library decides whether a producer's signed event envelope is admitted
//! under the protocol and policy rules, computes the canonical bytes that a
//! signature covers, and signs envelopes on the producer side.

pub mod admission;
pub mod canonical;
pub mod clock;
pub mod codec;
pub mod crypto;
pub mod envelope;
pub mod json;
pub mod producer;
pub mod text;
