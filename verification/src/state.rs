//! Controller state of one model.

use crate::known::KnownWorkers;
use crate::url_set::UrlSet;
use vstd::prelude::*;

verus! {

/// Per-model controller state. Pools, counters, and K are independent across models served by
/// the same policy.
#[derive(Debug)]
pub struct ModelState {
    /// Requests routed so far.
    pub total_requests: u64,
    /// Truncated requests routed so far.
    pub truncated_requests: u64,
    /// `total_requests` at the previous tick (the difference is this window's traffic).
    pub prev_total: u64,
    /// `truncated_requests` at the previous tick.
    pub prev_truncated: u64,
    /// EWMA of the truncated share, updated each tick; `None` until the first window with
    /// traffic. The number is kept as its bit pattern: whoever drives the ticks does the
    /// arithmetic.
    pub ewma_share: Option<u64>,
    /// Current truncation pool size target.
    pub k: usize,
    /// When K last took a step, in nanoseconds.
    pub last_resize_at: Option<u64>,
    /// The known workers, by URL.
    pub known: KnownWorkers,
    /// Truncation membership, recomputed on tick only.
    pub trunc_urls: UrlSet,
}

/// What a [`ModelState`] says.
#[verifier::ext_equal]
pub struct ModelView {
    pub total_requests: u64,
    pub truncated_requests: u64,
    pub prev_total: u64,
    pub prev_truncated: u64,
    pub ewma_share: Option<u64>,
    pub k: usize,
    pub last_resize_at: Option<u64>,
    pub known: Map<Seq<char>, crate::known::KnownView>,
    pub trunc_urls: Set<Seq<char>>,
}

impl View for ModelState {
    type V = ModelView;

    open spec fn view(&self) -> ModelView {
        ModelView {
            total_requests: self.total_requests,
            truncated_requests: self.truncated_requests,
            prev_total: self.prev_total,
            prev_truncated: self.prev_truncated,
            ewma_share: self.ewma_share,
            k: self.k,
            last_resize_at: self.last_resize_at,
            known: self.known@,
            trunc_urls: self.trunc_urls@,
        }
    }
}

/// The state of a model that has seen nothing yet.
pub open spec fn fresh_state() -> ModelView {
    ModelView {
        total_requests: 0,
        truncated_requests: 0,
        prev_total: 0,
        prev_truncated: 0,
        ewma_share: None,
        k: 0,
        last_resize_at: None,
        known: Map::empty(),
        trunc_urls: Set::empty(),
    }
}

impl ModelState {
    /// The state of a model that has seen nothing yet.
    pub fn new() -> (state: ModelState)
        ensures
            state@ == fresh_state(),
    {
        ModelState {
            total_requests: 0,
            truncated_requests: 0,
            prev_total: 0,
            prev_truncated: 0,
            ewma_share: None,
            k: 0,
            last_resize_at: None,
            known: KnownWorkers::new(),
            trunc_urls: UrlSet::new(),
        }
    }
}

/// A model that has seen nothing has no requests, no share, no pool and no workers.
pub proof fn law_a_fresh_model_has_seen_nothing(url: Seq<char>)
    ensures
        fresh_state().total_requests == 0 && fresh_state().truncated_requests == 0,
        fresh_state().prev_total == 0 && fresh_state().prev_truncated == 0,
        fresh_state().ewma_share is None && fresh_state().last_resize_at is None,
        fresh_state().k == 0,
        !fresh_state().known.contains_key(url),
        !fresh_state().trunc_urls.contains(url),
{
}

/// What a state says is what its fields hold.
pub proof fn law_a_state_says_what_it_holds(state: ModelState)
    ensures
        state@.total_requests == state.total_requests,
        state@.truncated_requests == state.truncated_requests,
        state@.prev_total == state.prev_total,
        state@.prev_truncated == state.prev_truncated,
        state@.ewma_share == state.ewma_share,
        state@.k == state.k,
        state@.last_resize_at == state.last_resize_at,
        state@.known == state.known@,
        state@.trunc_urls == state.trunc_urls@,
{
}

} // verus!
