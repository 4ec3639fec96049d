//! Central service for a fleet of crawler clients that scrape a browser
//! game's player and hall-of-fame data.
//!
//! The crate models the service's relational store in memory and verifies
//! the logic that runs over it: server identity resolution, the two
//! lease-based work queues (player recrawl and hall-of-fame pages), the
//! player-report ingestion pipeline with change detection and adaptive
//! backoff, content-addressed blob deduplication, the equipment
//! identifier bit-packing, and the scrapbook-advice ranking.

pub mod advice;
pub mod api;
pub mod codec;
pub mod dedup;
pub mod error;
pub mod hof;
pub mod ingest;
pub mod resolver;
pub mod schedule;
pub mod store;
pub mod text;
pub mod time;
pub mod wire;
