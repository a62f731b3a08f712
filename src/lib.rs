//! Shell-history intelligence: the verified core of a history service.
//!
//! - `parser`: quote-aware tokenizing and program / subcommand / argument splitting.
//! - `ingest`: what one ingestion records (n-gram pairs, parsed form, argument patterns,
//!   frecent paths), the directory hierarchy and the time bucket.
//! - `ranking`: n-gram bonuses, the composite prediction score, argument suggestions,
//!   search scoring, and the scoring laws.
//! - `frecency`: rank updates, aging, the tiered path query, and their laws.
//! - `matcher`: ordered-substring and fuzzy matching of terms against paths.
//! - `context`: project-type and version-control detection from listings, and the
//!   context heuristics.
//! - `cache`, `migrate`, `lines`, `protocol`: the prediction cache, schema versioning,
//!   import line formats and request types.
//! - `fixed`, `order`, `text`: fixed-point logarithm and decay, stable ordering by score,
//!   and character helpers.
//!
//! Ranks, weights and signals are integers in millionths (`1_000_000` stands for 1.0);
//! prediction and search scores and the recency decay are in units of 10^-18. At that unit
//! the recency signal tells apart two last uses one second apart for ages up to about 728
//! days (`fixed::DECAY_STRICT_STEPS`); older ones are still ordered, but no longer to the
//! second, and from about 1227 days (`fixed::DECAY_STEPS`) the decay is 0.
pub mod cache;
pub mod context;
pub mod fixed;
pub mod frecency;
pub mod ingest;
pub mod lines;
pub mod matcher;
pub mod migrate;
pub mod order;
pub mod parser;
pub mod protocol;
pub mod ranking;
pub mod text;
