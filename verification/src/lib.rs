//! Verified core of a bounded-depth Wikipedia crawler.
//!
//! The crate holds the pieces of the crawl that are pure logic: the
//! deduplicating graph store that maps each canonical URL to a unique
//! identifier and records hyperlinks as a set of identifier pairs, the
//! URL normalizer, the keyword filter, the idle-flag protocol that the
//! worker pool uses to detect quiescence, the per-page crawl step of a
//! worker, and the export of the finished graph as CSV tables (with an
//! optional undirected projection).  Fetching pages, spawning threads
//! and writing files stay outside this crate.
//!
//! The crawl pool as a whole is modeled abstractly in [`crawl`]: its
//! states and transitions are ghost, and the depth bound of the crawl is
//! proved as an invariant of every schedule of those transitions.

pub mod crawl;
pub mod errors;
pub mod filter;
pub mod graph;
pub mod normalize;
pub mod scraper;
pub mod termination;
pub mod worker;
