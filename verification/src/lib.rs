//! A verified specification-generation pipeline.
//!
//! The library turns structured project data (business domains, their
//! attributes, behaviour-driven requirements with Gherkin-style scenarios,
//! and test cases) into a prompt for an external text-generation service,
//! and tracks each generation run as an asynchronous job with a
//! `Pending -> Processing -> {Completed, Failed}` lifecycle.
//!
//! Every function is specified by `requires`/`ensures` contracts and checked
//! by Verus. I/O (the HTTP call to the generation service, any durable
//! database) lives outside the library; the library works on plain values
//! and an in-memory store with proved invariants.

pub mod dto;
pub mod errors;
pub mod generation;
pub mod gherkin;
pub mod model;
pub mod numfmt;
pub mod orchestrator;
pub mod prompt;
pub mod seqtools;
pub mod snapshot;
pub mod store;
