//! Verified core of a document post-processing pipeline.
//!
//! Documents carrying a designated processing tag are fetched from a document
//! store, their text is sent to a language-model inference server under a fixed
//! instruction prompt, the constrained two-line answer (a cleaned title and an
//! optional monetary amount) is parsed strictly, and an idempotent update patch
//! is computed. This crate holds the logic with real invariants: prompt
//! truncation against the context window, output validation, patch
//! construction, and the bounded-concurrency run bookkeeping. The HTTP clients
//! that talk to the two services live outside the verified core.

pub mod chat;
pub mod error;
pub mod orchestrator;
pub mod output;
pub mod patch;
pub mod prompt;
pub mod store;
