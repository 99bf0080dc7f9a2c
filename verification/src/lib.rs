//! Crawl-orchestration core for a catalog-graph crawler.
//!
//! The crate verifies the decision logic of a crawler that walks a
//! third-party music catalog (artists, their albums, the tracks on those
//! albums, and the artists credited on each track) and persists what it
//! finds into shared external stores while expanding the crawl frontier.
//!
//! All durable state (the task queue, the per-entity locks, the processed
//! set and the entity tables) lives in external stores that several worker
//! processes share. The modules here model those stores as explicit values
//! with the atomic operations the stores provide (compare-and-swap claim,
//! set-if-absent with expiry, set-add, last-write-wins upsert), and verify
//! the pipeline logic against those models. The process that performs the
//! actual network and store I/O drives these functions step by step and
//! feeds each outside result back in as a plain value.

pub mod batch;
pub mod fetch;
pub mod graph;
pub mod ledger;
pub mod lock;
pub mod orchestrator;
pub mod queue;
pub mod store;
pub mod types;
