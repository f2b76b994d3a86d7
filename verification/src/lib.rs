//! A sharding proxy library for Prometheus-exposition-format metrics.
//!
//! Upstream responses are parsed into metric families, per-source labels are
//! injected, families from all sources are merged first-wins, and every series
//! is assigned to one of `N` shards by a consistent hash, so that downstream
//! scrapers can split the collection load without losing or double-counting
//! series.

pub mod config;
pub mod hasher;
pub mod parser;
pub mod render;
pub mod scrape;
pub mod state;
pub mod text;
