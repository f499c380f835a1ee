//! A single-origin web crawler engine.
//!
//! The crawl engine keeps a frontier queue and a visited set, drains the
//! queue in bounded batches, and records one page result per successfully
//! fetched URL. Link discovery is scoped to the origin host; page content is
//! normalized by stripping script and style subtrees. Fetching itself is
//! network I/O and stays outside this crate: callers hand the engine each
//! page's HTTP status and raw body, and the engine decides everything else.

use vstd::prelude::*;

pub mod auth;
pub mod batch;
pub mod content;
pub mod frontier;
pub mod links;
pub mod origin;
pub mod sections;
pub mod text;

verus! {

/// Upper bound on the frontier queue's length: whenever the queue grows past
/// this many pending entries, entries are discarded from the back.
pub const QUEUE_CAP: usize = 1000;

} // verus!
