//! Read-only query engine over a height-indexed ledger store.
//!
//! The store is handed to the engine as table snapshots: a header table keyed
//! by height and three optional component tables keyed by a block's identity
//! followed by a disambiguator. The engine decodes records, reconciles block
//! identities, links transaction components to blocks and answers filtered
//! listings, detail lookups, hash searches and bounded counts.

pub mod cli;
pub mod codec;
pub mod dashboard;
pub mod identity;
pub mod laws;
pub mod linker;
pub mod listing;
pub mod model;
pub mod queries;
pub mod records;
pub mod store;
