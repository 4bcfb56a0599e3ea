//! Verified core of a GitHub follower-graph explorer.
use vstd::prelude::*;

pub mod activity;
pub mod aliases;
pub mod bookmarks;
pub mod budget;
pub mod candidates;
pub mod capacity;
pub mod cli;
pub mod commands;
pub mod config;
pub mod crawl;
pub mod discovery;
pub mod error;
pub mod expansion;
pub mod exploration;
pub mod external;
pub mod graph;
pub mod graphql;
pub mod identity;
pub mod identity_store;
pub mod import_rows;
pub mod imports;
pub mod insight_store;
pub mod insights;
pub mod keyed;
pub mod logins;
pub mod sealed;
pub mod secrets;
pub mod store;
pub mod sync;
pub mod sessions;
pub mod numbers;
pub mod paging;
pub mod ranking;
pub mod scheduler;
pub mod text;
pub mod trails;
pub mod warmup;
pub mod warmup_table;
pub mod web;

verus! {

} // verus!
