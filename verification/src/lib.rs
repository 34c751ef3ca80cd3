//! Truncation-aware routing: a sticky pool and a truncation pool over one worker set.
//!
//! A conversation whose history was truncated with a sliding window has a shifted prefix, so that
//! its KV cache is not reusable on any worker. Such requests gain nothing from session affinity,
//! and they hurt it: a fresh prefill evicts hot prefixes of live sessions. The policy therefore
//! partitions the workers of each model into a sticky pool, routed by an embedded cache-aware
//! policy, and a truncation pool of size K, routed by least in-flight load and never inserted
//! into the cache-aware tree.
//!
//! - [`worker`]: workers and their pool pins; [`url_set`]: sets of URLs;
//! - [`partition`]: who belongs to the truncation pool, by rendezvous hashing;
//! - [`controller`]: the size K, and membership, once per tick;
//! - [`inflight`]: the load of the two pools;
//! - [`route`]: where one request goes;
//! - [`policy`]: the states of all models, the request path, the registry path, and ticks;
//! - [`state`], [`known`], [`models`]: what is remembered, the latter two in `DashMap`s;
//! - [`config`]: settings and the passage of time;
//! - [`proc_stat`]: resource figures of the process itself; [`text`]: text handling.
//!
//! Moments are handed in by the caller, and so are the outcomes of share arithmetic.

pub mod config;
pub mod controller;
pub mod inflight;
pub mod known;
pub mod models;
pub mod partition;
pub mod policy;
pub mod proc_stat;
pub mod route;
pub mod state;
pub mod text;
pub mod url_set;
pub mod worker;
