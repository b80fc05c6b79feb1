//! Core of a concurrent crawl orchestrator.
//!
//! The crate holds the verified heart of a crawler: the record model
//! (requests, responses, extracted items), the two short-circuiting plugin
//! chains (request middleware and item pipelines), and the scheduler
//! bookkeeping that tracks in-flight transfers by unique token, bounds
//! admission from the ready queue, and decides when the crawl is over.
//!
//! Everything that touches the outside world — the HTTP transfer engine,
//! worker pools, channels — lives with the embedding program, which drives
//! these decision functions and carries out the actions they return.

pub mod chain;
pub mod dispatcher;
pub mod product;
pub mod request;
pub mod response;
pub mod scheduler;

pub use scheduler::Scheduler;
