//! A local, queryable mirror of a paginated bibliographic catalog.
//!
//! - `decode`: harvested pages read into typed records;
//! - `merge`: successive revisions of a record combined, keeping when each
//!   version was first seen;
//! - `ledger`: the per-partition low-water marks and resumption state;
//! - `harvest`: the harvest state machine, one page per step;
//! - `migrate`: the schema migration plan, one version per step;
//! - `filter`, `query`: conditions on records and their textual language.
use vstd::prelude::*;

pub mod calendar;
pub mod config;
pub mod decode;
pub mod filter;
pub mod harvest;
pub mod ident;
pub mod ledger;
pub mod listing;
pub mod merge;
pub mod migrate;
pub mod query;
pub mod record;
pub mod tag;
pub mod text;

verus! {

} // verus!
