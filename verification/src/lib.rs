//! Reconciliation of a known-exploited list with a vulnerability database
//! export into one canonical record set.
//!
//! `kev` holds the list and the index built from it, `nvd` the database
//! entries with their descriptions and links, `metrics` the severity score
//! of an entry, `score` the bucket of a score. `reconcile` merges the two
//! sources into records (`record`), and `laws` states what holds of every
//! record set. `json`, `text` and `unique` are what the others stand on.

pub mod json;
pub mod kev;
pub mod laws;
pub mod metrics;
pub mod nvd;
pub mod reconcile;
pub mod record;
pub mod score;
pub mod text;
pub mod unique;
