//! Persistent lists and levelled binary trees whose nodes may be shared or
//! memoized behind an incremental-computation engine, together with the
//! elimination protocol that hides those indirections from consumers.

pub mod engine;
pub mod level;
pub mod tree;
pub mod tree_elim;
pub mod list;
pub mod list_elim;
