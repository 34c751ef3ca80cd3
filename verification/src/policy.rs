//! The truncation-aware policy: per-model state, the request path, and the registry path.
//!
//! Membership is authoritative per controller tick, not per request: the request path only
//! records which workers it sees and routes within the current membership, while the tick
//! recomputes the partition from the known workers. A transient health flap therefore narrows the
//! routable subset but cannot reshuffle the membership.

use crate::config::{is_within, TruncationAwareConfig, KNOWN_TOUCH_INTERVAL_SECS};
use crate::controller::{finish_tick, open_tick, ShareStep, TickReport};
use crate::inflight::{pool_inflight, PoolInflight};
use crate::known::{Keep, KnownWorker};
use crate::models::ModelMap;
use crate::route::{healthy_indices, route, Route};
use crate::state::ModelState;
use crate::url_set::UrlSet;
use crate::worker::{
    is_trunc_member, pool_pin, Worker, POOL_LABEL_STICKY, POOL_LABEL_TRUNCATION,
};
use vstd::prelude::*;

verus! {

/// Truncation-aware routing policy.
pub struct TruncationAwarePolicy {
    pub config: TruncationAwareConfig,
    /// The controller states, by model key.
    pub models: ModelMap,
}

impl TruncationAwarePolicy {
    /// The states of the models that have one.
    pub open spec fn states(&self) -> Map<Seq<char>, crate::state::ModelView> {
        self.models@
    }
}

/// The state of the model `key`, which has seen nothing yet if it has none.
pub open spec fn state_of(
    models: Map<Seq<char>, crate::state::ModelView>,
    key: Seq<char>,
) -> crate::state::ModelView {
    if models.contains_key(key) {
        models[key]
    } else {
        crate::state::fresh_state()
    }
}

// ---- the request path ----

/// A request counter, one request on; it starts over at its end.
pub open spec fn counted(requests: u64) -> u64 {
    if requests == u64::MAX {
        0
    } else {
        (requests + 1) as u64
    }
}

/// What is known of a worker that is seen now.
pub open spec fn seen_now(worker: Worker, now: u64) -> crate::known::KnownView {
    crate::known::KnownView { pin: worker.pin(), last_seen: now }
}

/// Whether the worker was seen so lately that its stamp needs no refresh.
pub open spec fn is_fresh(
    known: Map<Seq<char>, crate::known::KnownView>,
    url: Seq<char>,
    now: u64,
) -> bool {
    known.contains_key(url) && crate::config::within(
        known[url].last_seen,
        now,
        KNOWN_TOUCH_INTERVAL_SECS as int,
    )
}

/// The known workers once each of `ws` is seen, one after the other.
pub open spec fn touched(
    known: Map<Seq<char>, crate::known::KnownView>,
    ws: Seq<Worker>,
    now: u64,
) -> Map<Seq<char>, crate::known::KnownView>
    decreases ws.len(),
{
    if ws.len() == 0 {
        known
    } else {
        let before = touched(known, ws.drop_last(), now);
        if is_fresh(before, ws.last().url@, now) {
            before
        } else {
            before.insert(ws.last().url@, seen_now(ws.last(), now))
        }
    }
}

/// The state of a model once a request over the workers `ws` is recorded.
pub open spec fn recorded(
    state: crate::state::ModelView,
    ws: Seq<Worker>,
    truncated: bool,
    now: u64,
) -> crate::state::ModelView {
    crate::state::ModelView {
        total_requests: counted(state.total_requests),
        truncated_requests: if truncated {
            counted(state.truncated_requests)
        } else {
            state.truncated_requests
        },
        known: touched(state.known, ws, now),
        ..state
    }
}

/// What is known of a worker that is seen now.
fn see(worker: &Worker, now: u64) -> (known: KnownWorker)
    ensures
        known@ == seen_now(*worker, now),
{
    let pin = match pool_pin(worker) {
        Some(pin) => Some(pin.to_owned()),
        None => None,
    };
    KnownWorker { pin, last_seen: now }
}

/// Refreshes the last-seen stamps of the workers observed on a request, each at most once per
/// [`KNOWN_TOUCH_INTERVAL_SECS`].
pub fn touch_known(state: &mut ModelState, workers: &[Worker], now: u64)
    ensures
        final(state)@ == (crate::state::ModelView {
            known: touched(old(state)@.known, workers@, now),
            ..old(state)@
        }),
{
    let mut i: usize = 0;
    let ghost before = state@;
    assert(workers@.take(0) =~= Seq::empty());
    while i < workers.len()
        invariant
            i <= workers@.len(),
            state@ == (crate::state::ModelView {
                known: touched(before.known, workers@.take(i as int), now),
                ..before
            }),
        decreases workers@.len() - i,
    {
        proof {
            let upto = workers@.take(i + 1);
            assert(upto.drop_last() =~= workers@.take(i as int));
            assert(upto.last() == workers@[i as int]);
        }
        let url = workers[i].url.as_str();
        let fresh = match state.known.last_seen(url) {
            Some(at) => is_within(at, now, KNOWN_TOUCH_INTERVAL_SECS),
            None => false,
        };
        if !fresh {
            state.known.insert(url.to_owned(), see(&workers[i], now));
        }
        i += 1;
    }
    assert(workers@.take(workers@.len() as int) =~= workers@);
}

/// Records a request: counts it, and refreshes the stamps of the workers it may go to.
pub fn record_request(state: &mut ModelState, workers: &[Worker], truncated: bool, now: u64)
    ensures
        final(state)@ == recorded(old(state)@, workers@, truncated, now),
{
    state.total_requests = state.total_requests.wrapping_add(1);
    if truncated {
        state.truncated_requests = state.truncated_requests.wrapping_add(1);
    }
    touch_known(state, workers, now);
}

// ---- the registry path ----

/// Whether a worker of `ws` serves the model `key`.
pub open spec fn serves(ws: Seq<Worker>, key: Seq<char>) -> bool {
    exists|i: int| 0 <= i < ws.len() && (#[trigger] ws[i]).model_key@ == key
}

/// The workers of `ws` that serve the model `key`, as known workers seen now; of several with one
/// URL the last counts.
pub open spec fn registry(ws: Seq<Worker>, key: Seq<char>, now: u64) -> Map<
    Seq<char>,
    crate::known::KnownView,
>
    decreases ws.len(),
{
    if ws.len() == 0 {
        Map::empty()
    } else if ws.last().model_key@ == key {
        registry(ws.drop_last(), key, now).insert(ws.last().url@, seen_now(ws.last(), now))
    } else {
        registry(ws.drop_last(), key, now)
    }
}

/// The states once the registry has handed over the workers `ws`: each model that one of them
/// serves knows exactly those that serve it.
pub open spec fn synced(
    models: Map<Seq<char>, crate::state::ModelView>,
    ws: Seq<Worker>,
    now: u64,
) -> Map<Seq<char>, crate::state::ModelView> {
    Map::new(
        |key: Seq<char>| models.contains_key(key) || serves(ws, key),
        |key: Seq<char>|
            if serves(ws, key) {
                crate::state::ModelView {
                    known: registry(ws, key, now),
                    ..state_of(models, key)
                }
            } else {
                models[key]
            },
    )
}

/// The URLs to evict from the sticky tree once it is seeded with the workers `ws`: those of the
/// workers pinned to the truncation pool, and those of all members of truncation pools.
pub open spec fn seed_evictions(
    models: Map<Seq<char>, crate::state::ModelView>,
    ws: Seq<Worker>,
) -> Set<Seq<char>> {
    Set::new(
        |u: Seq<char>|
            {
                ||| exists|i: int|
                    0 <= i < ws.len() && (#[trigger] ws[i]).url@ == u
                        && crate::worker::pins_truncation(ws[i].pin())
                ||| exists|key: Seq<char>| #[trigger]
                    models.contains_key(key) && models[key].trunc_urls.contains(u)
            },
    )
}

/// The registry knows a URL for a model exactly if a worker with that URL serves it.
proof fn lemma_registry_domain(ws: Seq<Worker>, key: Seq<char>, now: u64, u: Seq<char>)
    ensures
        registry(ws, key, now).contains_key(u) <==> exists|i: int|
            0 <= i < ws.len() && (#[trigger] ws[i]).model_key@ == key && ws[i].url@ == u,
    decreases ws.len(),
{
    if ws.len() > 0 {
        let init = ws.drop_last();
        lemma_registry_domain(init, key, now, u);
        if registry(ws, key, now).contains_key(u) {
            if registry(init, key, now).contains_key(u) {
                let i = choose|i: int|
                    0 <= i < init.len() && (#[trigger] init[i]).model_key@ == key && init[i].url@
                        == u;
                assert(ws[i] == init[i]);
            } else {
                assert(ws[ws.len() - 1].model_key@ == key);
            }
        }
        if exists|i: int|
            0 <= i < ws.len() && (#[trigger] ws[i]).model_key@ == key && ws[i].url@ == u {
            let i = choose|i: int|
                0 <= i < ws.len() && (#[trigger] ws[i]).model_key@ == key && ws[i].url@ == u;
            if i < init.len() {
                assert(init[i] == ws[i]);
            }
        }
    }
}

/// Makes the workers that serve the model `key` its known workers.
pub fn sync_known(state: &mut ModelState, workers: &[Worker], key: &str, now: u64)
    ensures
        final(state)@ == (crate::state::ModelView {
            known: registry(workers@, key@, now),
            ..old(state)@
        }),
{
    let mut urls = UrlSet::new();
    let mut i: usize = 0;
    while i < workers.len()
        invariant
            i <= workers@.len(),
            forall|u: Seq<char>| #[trigger]
                urls@.contains(u) <==> exists|j: int|
                    0 <= j < i && (#[trigger] workers@[j]).model_key@ == key@
                        && workers@[j].url@ == u,
        decreases workers@.len() - i,
    {
        let ghost before = urls@;
        if *workers[i].model_key.as_str() == *key {
            urls = urls.with(workers[i].url.clone());
        }
        assert forall|u: Seq<char>| #[trigger] urls@.contains(u) implies exists|j: int|
            0 <= j < i + 1 && (#[trigger] workers@[j]).model_key@ == key@ && workers@[j].url@
                == u by {
            if !before.contains(u) {
                assert(workers@[i as int].url@ == u);
            }
        }
        i += 1;
    }
    let ghost before = state@;
    state.known.retain(Keep::Listed(&urls));
    let ghost left = state@.known;
    let mut i: usize = 0;
    assert(workers@.take(0) =~= Seq::empty());
    assert(left.union_prefer_right(registry(workers@.take(0), key@, now)) =~= left);
    while i < workers.len()
        invariant
            i <= workers@.len(),
            state@ == (crate::state::ModelView {
                known: left.union_prefer_right(registry(workers@.take(i as int), key@, now)),
                ..before
            }),
        decreases workers@.len() - i,
    {
        let ghost held = state@.known;
        proof {
            let upto = workers@.take(i + 1);
            assert(upto.drop_last() =~= workers@.take(i as int));
            assert(upto.last() == workers@[i as int]);
        }
        if *workers[i].model_key.as_str() == *key {
            state.known.insert(workers[i].url.clone(), see(&workers[i], now));
            assert(state@.known =~= left.union_prefer_right(
                registry(workers@.take(i + 1), key@, now),
            ));
        }
        i += 1;
    }
    proof {
        assert(workers@.take(workers@.len() as int) =~= workers@);
        let all = registry(workers@, key@, now);
        assert forall|u: Seq<char>| left.contains_key(u) implies all.contains_key(u) by {
            assert(urls@.contains(u));
            lemma_registry_domain(workers@, key@, now, u);
        }
        assert(left.union_prefer_right(all) =~= all);
    }
}

/// How a tick starts: what whoever drives it has to compute the share and the target from.
#[derive(Debug, Clone, Copy, PartialEq, Eq)]
pub struct TickStart {
    /// What becomes of the share.
    pub step: ShareStep,
    /// The share before.
    pub share: Option<u64>,
    /// How many workers the model knows.
    pub workers: usize,
}

impl TruncationAwarePolicy {
    /// A policy with the default configuration.
    pub fn new() -> (policy: TruncationAwarePolicy)
        ensures
            policy.config.ewma_window_secs == 60,
            policy.config.tick_secs == 30,
            policy.config.cooldown_secs == 300,
            policy.config.sticky_min == 1,
            policy.config.deadband == 0,
            policy.states() == Map::<Seq<char>, crate::state::ModelView>::empty(),
    {
        TruncationAwarePolicy::with_config(TruncationAwareConfig::default())
    }

    /// A policy without any model yet.
    pub fn with_config(config: TruncationAwareConfig) -> (policy: TruncationAwarePolicy)
        ensures
            policy.config == config,
            policy.states() == Map::<Seq<char>, crate::state::ModelView>::empty(),
    {
        TruncationAwarePolicy { config, models: ModelMap::new() }
    }

    /// Takes the state of the model `key` out of the policy, or a new one if it has none.
    fn take_state(&mut self, key: &str) -> (state: ModelState)
        ensures
            final(self).config == old(self).config,
            final(self).states() == old(self).states().remove(key@),
            state@ == state_of(old(self).states(), key@),
    {
        match self.models.take(key) {
            Some(state) => state,
            None => ModelState::new(),
        }
    }

    /// Makes `state` the state of the model `key`.
    fn put_state(&mut self, key: &str, state: ModelState)
        ensures
            final(self).config == old(self).config,
            final(self).states() == old(self).states().insert(key@, state@),
    {
        self.models.put(key, state);
    }

    /// Routes a request over `workers`, which all serve the model of the first of them, and
    /// records it; `None` if no worker is healthy. The request path never changes a membership.
    pub fn select_worker(&mut self, workers: &[Worker], truncated: bool, now: u64) -> (selected:
        Option<Route>)
        ensures
            final(self).config == old(self).config,
            selected is None ==> final(self).states() == old(self).states() && forall|i: int|
                !crate::route::healthy(workers@, i),
            selected is Some ==> final(self).states() == old(self).states().insert(
                workers@[0].model_key@,
                recorded(
                    state_of(old(self).states(), workers@[0].model_key@),
                    workers@,
                    truncated,
                    now,
                ),
            ),
            selected is Some ==> crate::route::routes(
                workers@,
                state_of(old(self).states(), workers@[0].model_key@).trunc_urls,
                truncated,
                selected,
            ),
    {
        let ghost any = |i: int| crate::route::healthy(workers@, i);
        let all = healthy_indices(workers);
        if all.len() == 0 {
            assert forall|i: int| !crate::route::healthy(workers@, i) by {
                if crate::route::healthy(workers@, i) {
                    assert(any(i));
                }
            }
            return None;
        }
        assert(any(all@[0] as int));
        let key = workers[0].model_key.as_str();
        let mut state = self.take_state(key);
        record_request(&mut state, workers, truncated, now);
        let selected = route(workers, &state.trunc_urls, truncated);
        assert(crate::route::healthy(workers@, all@[0] as int));
        self.put_state(key, state);
        assert(self.states() =~= old(self).states().insert(key@, state@));
        selected
    }

    /// Pool label of a worker under the current membership. A model that has no state yet gets
    /// one.
    pub fn pool_label_for(&mut self, worker: &Worker) -> (label: &'static str)
        ensures
            final(self).config == old(self).config,
            final(self).states() == old(self).states().insert(
                worker.model_key@,
                state_of(old(self).states(), worker.model_key@),
            ),
            label@ == (if worker.is_trunc(state_of(old(self).states(), worker.model_key@).trunc_urls) {
                POOL_LABEL_TRUNCATION@
            } else {
                POOL_LABEL_STICKY@
            }),
            label@ == (if worker.is_trunc(state_of(old(self).states(), worker.model_key@).trunc_urls) {
                "truncation"@
            } else {
                "sticky"@
            }),
    {
        let key = worker.model_key.as_str();
        let state = self.take_state(key);
        let is_trunc = is_trunc_member(worker, &state.trunc_urls);
        self.put_state(key, state);
        assert(self.states() =~= old(self).states().insert(key@, state@));
        if is_trunc {
            POOL_LABEL_TRUNCATION
        } else {
            POOL_LABEL_STICKY
        }
    }

    /// Takes over the registry's workers: syncs the known set of each model that they serve, and
    /// returns the URLs to evict from the sticky tree once that has been seeded with `workers`,
    /// which must not resurrect members of truncation pools.
    ///
    /// The registry calls this on worker add/remove with a model's full worker list, so that the
    /// controller learns about registry changes directly.
    pub fn init_workers(&mut self, workers: &[Worker], now: u64) -> (evictions: UrlSet)
        ensures
            final(self).config == old(self).config,
            final(self).states() == synced(old(self).states(), workers@, now),
            evictions@ == seed_evictions(old(self).states(), workers@),
            forall|u: Seq<char>| #[trigger]
                evictions@.contains(u) ==> (exists|i: int|
                    0 <= i < workers@.len() && (#[trigger] workers@[i]).url@ == u
                        && workers@[i].pin() == Some("truncation"@)) || (exists|key: Seq<char>|
                    #[trigger]
                    old(self).states().contains_key(key)
                        && old(self).states()[key].trunc_urls.contains(u)),
            forall|i: int|
                0 <= i < workers@.len() && (#[trigger] workers@[i]).pin() == Some("truncation"@)
                    ==> evictions@.contains(workers@[i].url@),
            forall|key: Seq<char>| #[trigger]
                old(self).states().contains_key(key)
                    ==> old(self).states()[key].trunc_urls.subset_of(evictions@),
    {
        let mut evictions = UrlSet::new();
        let ghost models = self.states();
        let mut i: usize = 0;
        while i < workers.len()
            invariant
                i <= workers@.len(),
                forall|u: Seq<char>| #[trigger]
                    evictions@.contains(u) <==> exists|j: int|
                        0 <= j < i && (#[trigger] workers@[j]).url@ == u
                            && crate::worker::pins_truncation(workers@[j].pin()),
            decreases workers@.len() - i,
        {
            let ghost before = evictions@;
            let pinned = match pool_pin(&workers[i]) {
                Some(pin) => *pin == *POOL_LABEL_TRUNCATION,
                None => false,
            };
            if pinned {
                evictions = evictions.with(workers[i].url.clone());
            }
            assert forall|u: Seq<char>| #[trigger] evictions@.contains(u) implies exists|j: int|
                0 <= j < i + 1 && (#[trigger] workers@[j]).url@ == u
                    && crate::worker::pins_truncation(workers@[j].pin()) by {
                if !before.contains(u) {
                    assert(workers@[i as int].url@ == u);
                }
            }
            i += 1;
        }
        let ghost pinned_urls = evictions@;
        let keys = self.models.keys();
        let mut i: usize = 0;
        while i < keys.len()
            invariant
                i <= keys@.len(),
                self.config == old(self).config,
                self.states() == models,
                forall|j: int|
                    0 <= j < keys@.len() ==> models.contains_key((#[trigger] keys@[j])@),
                forall|u: Seq<char>| #[trigger]
                    evictions@.contains(u) <==> pinned_urls.contains(u) || exists|j: int|
                        0 <= j < i && models[(#[trigger] keys@[j])@].trunc_urls.contains(u),
            decreases keys@.len() - i,
        {
            let state = self.take_state(keys[i].as_str());
            evictions = evictions.with_all(&state.trunc_urls);
            self.put_state(keys[i].as_str(), state);
            assert(self.states() =~= models);
            i += 1;
        }
        assert(evictions@ =~= seed_evictions(models, workers@)) by {
            assert forall|u: Seq<char>| seed_evictions(models, workers@).contains(
                u,
            ) implies evictions@.contains(u) by {
                if !pinned_urls.contains(u) {
                    let key = choose|key: Seq<char>| #[trigger]
                        models.contains_key(key) && models[key].trunc_urls.contains(u);
                    assert(crate::url_set::texts(keys@).contains(key));
                    let j = choose|j: int| 0 <= j < keys@.len() && keys@[j]@ == key;
                    assert(models[keys@[j]@].trunc_urls.contains(u));
                }
            }
        }
        let mut i: usize = 0;
        let mut done = UrlSet::new();
        while i < workers.len()
            invariant
                i <= workers@.len(),
                self.config == old(self).config,
                forall|key: Seq<char>| #[trigger]
                    done@.contains(key) <==> exists|j: int|
                        0 <= j < i && (#[trigger] workers@[j]).model_key@ == key,
                forall|key: Seq<char>| #[trigger]
                    self.states().contains_key(key) <==> models.contains_key(key) || done@.contains(key),
                forall|key: Seq<char>| #[trigger]
                    self.states().contains_key(key) ==> self.states()[key] == if done@.contains(key) {
                        crate::state::ModelView {
                            known: registry(workers@, key, now),
                            ..state_of(models, key)
                        }
                    } else {
                        models[key]
                    },
            decreases workers@.len() - i,
        {
            let ghost before = done@;
            let key = workers[i].model_key.as_str();
            if !done.contains(key) {
                let mut state = self.take_state(key);
                sync_known(&mut state, workers, key, now);
                self.put_state(key, state);
                done = done.with(key.to_owned());
            }
            assert forall|k: Seq<char>| #[trigger] done@.contains(k) implies exists|j: int|
                0 <= j < i + 1 && (#[trigger] workers@[j]).model_key@ == k by {
                if !before.contains(k) {
                    assert(workers@[i as int].model_key@ == k);
                }
            }
            i += 1;
        }
        assert(self.states() =~= synced(models, workers@, now));
        evictions
    }

    /// The keys of the models that have a state, each once, in no particular order.
    pub fn model_keys(&self) -> (keys: Vec<String>)
        ensures
            crate::url_set::distinct_texts(keys@),
            crate::url_set::texts(keys@) == self.states().dom(),
    {
        self.models.keys()
    }

    /// The URLs of the workers that the model `key` knows, each once, in no particular order.
    pub fn known_urls(&mut self, key: &str) -> (urls: Vec<String>)
        ensures
            final(self).config == old(self).config,
            final(self).states() == old(self).states(),
            crate::url_set::distinct_texts(urls@),
            crate::url_set::texts(urls@) == state_of(old(self).states(), key@).known.dom(),
    {
        let mut urls: Vec<String> = Vec::new();
        assert(crate::url_set::texts(urls@) =~= Set::<Seq<char>>::empty());
        match self.models.take(key) {
            None => {
                assert(self.states() =~= old(self).states());
                assert(state_of(old(self).states(), key@).known.dom() =~= Set::<Seq<char>>::empty());
            },
            Some(state) => {
                let entries = state.known.entries();
                let mut i: usize = 0;
                while i < entries.len()
                    invariant
                        i <= entries@.len(),
                        urls@.len() == i,
                        forall|j: int| 0 <= j < i ==> (#[trigger] urls@[j])@ == entries@[j].0@,
                    decreases entries@.len() - i,
                {
                    urls.push(entries[i].0.clone());
                    i += 1;
                }
                proof {
                    assert forall|a: int, b: int| 0 <= a < b < urls@.len() implies urls@[a]@
                        != urls@[b]@ by {
                        assert(entries@[a].0@ != entries@[b].0@);
                    }
                    let known = state@.known.dom();
                    assert forall|u: Seq<char>| known.contains(u) implies crate::url_set::texts(
                        urls@,
                    ).contains(u) by {
                        let j = choose|j: int|
                            0 <= j < entries@.len() && (#[trigger] entries@[j]).0@ == u;
                        assert(urls@[j]@ == u);
                    }
                    assert forall|u: Seq<char>| crate::url_set::texts(urls@).contains(
                        u,
                    ) implies known.contains(u) by {
                        let j = choose|j: int| 0 <= j < urls@.len() && urls@[j]@ == u;
                        assert(entries@[j].0@ == u);
                    }
                    assert(crate::url_set::texts(urls@) =~= known);
                }
                self.models.put(key, state);
                assert(self.states() =~= old(self).states());
            },
        }
        urls
    }

    /// Pool sizes and in-flight totals of the model `key` under the current membership, where
    /// `loads` gives the workers' loads by URL; `None` if the model has no state.
    pub fn pool_inflight(&mut self, key: &str, loads: &[(String, usize)]) -> (pools: Option<
        PoolInflight,
    >)
        ensures
            final(self).config == old(self).config,
            final(self).states() == old(self).states(),
            pools is Some <==> old(self).states().contains_key(key@),
            pools matches Some(p) ==> {
                let state = old(self).states()[key@];
                &&& p.trunc_workers == crate::inflight::trunc_workers(state).len()
                &&& p.trunc_load == crate::inflight::total_load(
                    crate::inflight::trunc_workers(state),
                    loads@,
                )
                &&& p.sticky_workers == crate::inflight::sticky_workers(state).len()
                &&& p.sticky_load == crate::inflight::total_load(
                    crate::inflight::sticky_workers(state),
                    loads@,
                )
            },
    {
        match self.models.take(key) {
            None => {
                assert(self.states() =~= old(self).states());
                None
            },
            Some(state) => {
                let pools = pool_inflight(&state, loads);
                self.models.put(key, state);
                assert(self.states() =~= old(self).states());
                Some(pools)
            },
        }
    }

    /// Whether requests to the model `key` came in since its previous tick; only then does
    /// [`TruncationAwarePolicy::begin_tick`] count in the TTL.
    pub fn had_traffic(&mut self, key: &str) -> (busy: bool)
        ensures
            final(self).config == old(self).config,
            final(self).states() == old(self).states(),
            busy == (old(self).states().contains_key(key@) && crate::controller::had_traffic(
                old(self).states()[key@],
            )),
    {
        match self.models.take(key) {
            None => {
                assert(self.states() =~= old(self).states());
                false
            },
            Some(state) => {
                let busy = state.total_requests != state.prev_total;
                self.models.put(key, state);
                assert(self.states() =~= old(self).states());
                busy
            },
        }
    }

    /// The first half of a tick of the model `key`: prunes its known set and closes its traffic
    /// window; `None` if the model has no state.
    pub fn begin_tick(&mut self, key: &str, now: u64) -> (start: Option<TickStart>)
        requires
            old(self).states().contains_key(key@) && crate::controller::had_traffic(old(self).states()[key@])
                ==> old(self).config.ttl_fits(),
        ensures
            final(self).config == old(self).config,
            start is Some <==> old(self).states().contains_key(key@),
            start is None ==> final(self).states() == old(self).states(),
            start matches Some(t) ==> {
                let state = old(self).states()[key@];
                let next = crate::controller::window_closed(
                    crate::controller::pruned(state, old(self).config, now),
                );
                &&& final(self).states() == old(self).states().insert(key@, next)
                &&& t.step == crate::controller::share_step(state)
                &&& t.share == state.ewma_share
                &&& t.workers == next.known.len()
            },
    {
        match self.models.take(key) {
            None => {
                assert(self.states() =~= old(self).states());
                None
            },
            Some(taken) => {
                let mut state = taken;
                let step = open_tick(&mut state, &self.config, now);
                let start = TickStart {
                    step,
                    share: state.ewma_share,
                    workers: state.known.len(),
                };
                self.models.put(key, state);
                assert(self.states() =~= old(self).states().insert(key@, state@));
                Some(start)
            },
        }
    }

    /// The second half of a tick of the model `key`: takes the share and the target computed for
    /// the closed window, steps K, and recomputes the membership; `None` if the model has no
    /// state.
    pub fn end_tick(
        &mut self,
        key: &str,
        share: Option<u64>,
        target: usize,
        pressured: bool,
        now: u64,
    ) -> (report: Option<TickReport>)
        ensures
            final(self).config == old(self).config,
            report is Some <==> old(self).states().contains_key(key@),
            report is None ==> final(self).states() == old(self).states(),
            report matches Some(r) ==> {
                let config = old(self).config;
                let state = old(self).states()[key@];
                let next = final(self).states()[key@];
                let pins = crate::known::pins(state.known);
                let mid = crate::controller::updated(state, share, target, pressured, config, now);
                &&& final(self).states() == old(self).states().insert(key@, next)
                &&& crate::controller::repartitioned(mid, next, config)
                &&& crate::partition::scores_differ(pins) ==> next.trunc_urls
                    == crate::partition::pool_of(pins, crate::controller::clamped_k(mid, config))
                &&& r.resize == crate::controller::resize_report(
                    state,
                    target,
                    pressured,
                    config,
                    now,
                )
                &&& r.moves.lead(state.known.dom(), state.trunc_urls, next.trunc_urls)
            },
    {
        match self.models.take(key) {
            None => {
                assert(self.states() =~= old(self).states());
                None
            },
            Some(taken) => {
                let mut state = taken;
                let report = finish_tick(&mut state, share, target, pressured, &self.config, now);
                self.models.put(key, state);
                assert(self.states() =~= old(self).states().insert(key@, state@));
                Some(report)
            },
        }
    }

    /// The policy's name.
    pub fn name(&self) -> (name: &'static str)
        ensures
            name@ == "truncation_aware"@,
    {
        "truncation_aware"
    }

    /// Whether routing depends on the request's text; the sticky policy's does.
    pub fn needs_request_text(&self) -> (needed: bool)
        ensures
            needed,
    {
        true
    }

    /// Forgets all models.
    pub fn reset(&mut self)
        ensures
            final(self).config == old(self).config,
            final(self).states() == Map::<Seq<char>, crate::state::ModelView>::empty(),
    {
        self.models.clear();
    }
}

impl Default for TruncationAwarePolicy {
    fn default() -> (policy: TruncationAwarePolicy)
        ensures
            policy.config.ewma_window_secs == 60,
            policy.config.tick_secs == 30,
            policy.config.cooldown_secs == 300,
            policy.config.sticky_min == 1,
            policy.config.deadband == 0,
            policy.states() == Map::<Seq<char>, crate::state::ModelView>::empty(),
    {
        TruncationAwarePolicy::new()
    }
}

// ---- laws ----

/// Models are independent: a request to one leaves the states of the others alone, and so does
/// `next`, whatever either half of a tick makes of its state; and so does the registry, of the
/// models that none of its workers serves.
pub proof fn law_models_are_independent(
    models: Map<Seq<char>, crate::state::ModelView>,
    ws: Seq<Worker>,
    truncated: bool,
    now: u64,
    next: crate::state::ModelView,
    key: Seq<char>,
    other: Seq<char>,
)
    requires
        key != other,
    ensures
        state_of(
            models.insert(key, recorded(state_of(models, key), ws, truncated, now)),
            other,
        ) == state_of(models, other),
        state_of(models.insert(key, next), other) == state_of(models, other),
        !serves(ws, other) ==> state_of(synced(models, ws, now), other) == state_of(models, other),
{
}

/// The request path never changes the membership, K, the share or the start of the traffic
/// window, whichever workers it sees and whichever of them are healthy.
pub proof fn law_requests_keep_the_membership(
    state: crate::state::ModelView,
    ws: Seq<Worker>,
    truncated: bool,
    now: u64,
)
    ensures
        recorded(state, ws, truncated, now).trunc_urls == state.trunc_urls,
        recorded(state, ws, truncated, now).k == state.k,
        recorded(state, ws, truncated, now).ewma_share == state.ewma_share,
        recorded(state, ws, truncated, now).last_resize_at == state.last_resize_at,
        recorded(state, ws, truncated, now).prev_total == state.prev_total,
        recorded(state, ws, truncated, now).prev_truncated == state.prev_truncated,
{
}

/// A health flap reshuffles nothing. Let a request go out over `ws`, and then one over
/// `flapped`, in which members of the truncation pool changed their health and nothing else
/// changed: the membership is still the same, and if one of the two requests goes to the sticky
/// policy, so does the other, with the same list of workers to pick from. The same pick is
/// therefore the same worker.
pub proof fn law_health_flap_reshuffles_nothing(
    state: crate::state::ModelView,
    ws: Seq<Worker>,
    flapped: Seq<Worker>,
    now: u64,
    later: u64,
    first: Option<Route>,
    second: Option<Route>,
)
    requires
        crate::route::differ_in_trunc_health(ws, flapped, state.trunc_urls),
        crate::route::routes(ws, state.trunc_urls, false, first),
        crate::route::routes(
            flapped,
            recorded(state, ws, false, now).trunc_urls,
            false,
            second,
        ),
    ensures
        recorded(recorded(state, ws, false, now), flapped, false, later).trunc_urls
            == state.trunc_urls,
        crate::route::sticky_list(first) == crate::route::sticky_list(second),
{
    crate::route::law_flap_keeps_the_sticky_list(ws, flapped, state.trunc_urls, first, second);
}

/// Whether a worker of `ws` has the URL `u`.
pub open spec fn lists_url(ws: Seq<Worker>, u: Seq<char>) -> bool {
    exists|i: int| 0 <= i < ws.len() && (#[trigger] ws[i]).url@ == u
}

/// A request makes the workers it sees known and fresh, and forgets none. Those that were fresh
/// and those that it does not see it leaves alone; of any other it notes the pin and the moment,
/// the pin that of the first worker with the URL.
pub proof fn law_touch_remembers(
    known: Map<Seq<char>, crate::known::KnownView>,
    ws: Seq<Worker>,
    now: u64,
    u: Seq<char>,
)
    ensures
        known.contains_key(u) ==> touched(known, ws, now).contains_key(u),
        lists_url(ws, u) ==> is_fresh(touched(known, ws, now), u, now),
        is_fresh(known, u, now) || !lists_url(ws, u) ==> touched(known, ws, now).contains_key(u)
            == known.contains_key(u) && touched(known, ws, now)[u] == known[u],
        !is_fresh(known, u, now) && lists_url(ws, u) ==> exists|i: int|
            0 <= i < ws.len() && (#[trigger] ws[i]).url@ == u && (forall|j: int|
                0 <= j < i ==> (#[trigger] ws[j]).url@ != u) && touched(known, ws, now)[u]
                == seen_now(ws[i], now),
    decreases ws.len(),
{
    if ws.len() > 0 {
        let init = ws.drop_last();
        let last = ws.len() - 1;
        law_touch_remembers(known, init, now, u);
        assert forall|i: int| 0 <= i < init.len() implies #[trigger] init[i] == ws[i] by {}
        if lists_url(init, u) {
            let i = choose|i: int| 0 <= i < init.len() && (#[trigger] init[i]).url@ == u;
            assert(ws[i].url@ == u);
            if !is_fresh(known, u, now) {
                let i = choose|i: int|
                    0 <= i < init.len() && (#[trigger] init[i]).url@ == u && (forall|j: int|
                        0 <= j < i ==> (#[trigger] init[j]).url@ != u) && touched(
                        known,
                        init,
                        now,
                    )[u] == seen_now(init[i], now);
                assert forall|j: int| 0 <= j < i implies (#[trigger] ws[j]).url@ != u by {
                    assert(init[j].url@ != u);
                }
                assert(ws[i].url@ == u && touched(known, ws, now)[u] == seen_now(ws[i], now));
            }
        } else {
            assert forall|j: int| 0 <= j < last implies (#[trigger] ws[j]).url@ != u by {
                assert(init[j].url@ != u);
            }
            assert(lists_url(ws, u) <==> ws[last].url@ == u);
        }
    }
}

/// Whether worker `i` is the last of `ws` that serves the model `key` under the URL `u`.
pub open spec fn is_last_registered(
    ws: Seq<Worker>,
    key: Seq<char>,
    u: Seq<char>,
    i: int,
) -> bool {
    &&& 0 <= i < ws.len()
    &&& ws[i].model_key@ == key
    &&& ws[i].url@ == u
    &&& forall|j: int| i < j < ws.len() && (#[trigger] ws[j]).model_key@ == key ==> ws[j].url@ != u
}

/// What the registry knows of a URL is what the last worker registered under it says.
proof fn lemma_registry_value(ws: Seq<Worker>, key: Seq<char>, now: u64, u: Seq<char>)
    requires
        registry(ws, key, now).contains_key(u),
    ensures
        exists|i: int| #[trigger]
            is_last_registered(ws, key, u, i) && registry(ws, key, now)[u] == seen_now(ws[i], now),
    decreases ws.len(),
{
    let init = ws.drop_last();
    let last = ws.len() - 1;
    if ws[last].model_key@ == key && ws[last].url@ == u {
        assert(is_last_registered(ws, key, u, last));
    } else {
        lemma_registry_value(init, key, now, u);
        let i = choose|i: int| #[trigger]
            is_last_registered(init, key, u, i) && registry(init, key, now)[u] == seen_now(
                init[i],
                now,
            );
        assert forall|j: int|
            i < j < ws.len() && (#[trigger] ws[j]).model_key@ == key implies ws[j].url@ != u by {
            if j < last {
                assert(init[j] == ws[j]);
            }
        }
        assert(is_last_registered(ws, key, u, i));
    }
}

/// The registry is authoritative: once it has handed over its workers, each model that one of
/// them serves knows exactly the workers that serve it, each as seen now and with the pin of the
/// last worker registered under its URL, and any other model keeps its state. Nothing but the
/// known workers changes.
pub proof fn law_registry_is_authoritative(
    models: Map<Seq<char>, crate::state::ModelView>,
    ws: Seq<Worker>,
    now: u64,
    key: Seq<char>,
    u: Seq<char>,
)
    ensures
        serves(ws, key) ==> (synced(models, ws, now)[key].known.contains_key(u) <==> exists|i: int|
            0 <= i < ws.len() && (#[trigger] ws[i]).model_key@ == key && ws[i].url@ == u),
        serves(ws, key) && synced(models, ws, now)[key].known.contains_key(u) ==> synced(
            models,
            ws,
            now,
        )[key].known[u].last_seen == now && exists|i: int| #[trigger]
            is_last_registered(ws, key, u, i) && synced(models, ws, now)[key].known[u].pin
                == ws[i].pin(),
        !serves(ws, key) ==> state_of(synced(models, ws, now), key) == state_of(models, key),
        state_of(synced(models, ws, now), key) == (crate::state::ModelView {
            known: state_of(synced(models, ws, now), key).known,
            ..state_of(models, key)
        }),
        serves(ws, key) <==> exists|i: int|
            0 <= i < ws.len() && (#[trigger] ws[i]).model_key@ == key,
        synced(models, ws, now).contains_key(key) <==> models.contains_key(key) || serves(ws, key),
{
    lemma_registry_domain(ws, key, now, u);
    if serves(ws, key) && synced(models, ws, now)[key].known.contains_key(u) {
        lemma_registry_value(ws, key, now, u);
    }
}

/// The tenants of the sticky tree once it is seeded with the workers `ws` and the evictions are
/// carried out.
pub open spec fn tree_seeded(
    tree: Set<Seq<char>>,
    models: Map<Seq<char>, crate::state::ModelView>,
    ws: Seq<Worker>,
) -> Set<Seq<char>> {
    tree.union(
        Set::new(|u: Seq<char>| lists_url(ws, u)),
    ).difference(seed_evictions(models, ws))
}

/// Seeding the sticky tree does not resurrect members of truncation pools: neither a member of
/// any model's pool nor a worker pinned to the pool is in the tree afterwards. Every other worker
/// handed over is.
pub proof fn law_seeding_resurrects_no_member(
    tree: Set<Seq<char>>,
    models: Map<Seq<char>, crate::state::ModelView>,
    ws: Seq<Worker>,
    now: u64,
    key: Seq<char>,
    i: int,
)
    ensures
        synced(models, ws, now).contains_key(key) ==> tree_seeded(tree, models, ws).disjoint(
            synced(models, ws, now)[key].trunc_urls,
        ),
        0 <= i < ws.len() && crate::worker::pins_truncation(ws[i].pin()) ==> !tree_seeded(
            tree,
            models,
            ws,
        ).contains(ws[i].url@),
        0 <= i < ws.len() && !seed_evictions(models, ws).contains(ws[i].url@) ==> tree_seeded(
            tree,
            models,
            ws,
        ).contains(ws[i].url@),
{
}

/// Whether the truncated requests of the window are among its requests, so that their share is at
/// most one.
pub open spec fn share_is_a_fraction(state: crate::state::ModelView) -> bool {
    &&& state.prev_total <= state.total_requests
    &&& state.prev_truncated <= state.truncated_requests
    &&& state.truncated_requests <= state.total_requests
    &&& state.truncated_requests - state.prev_truncated <= state.total_requests - state.prev_total
}

/// The truncated requests of a window are among its requests: so it is at first, and so it stays
/// when requests are recorded (until the counter starts over), when a window is closed, and when
/// a tick is finished. The share of every window is therefore a fraction.
pub proof fn law_share_is_a_fraction(
    state: crate::state::ModelView,
    ws: Seq<Worker>,
    truncated: bool,
    share: Option<u64>,
    target: usize,
    pressured: bool,
    config: TruncationAwareConfig,
    now: u64,
    after: crate::state::ModelView,
)
    requires
        share_is_a_fraction(state),
    ensures
        share_is_a_fraction(crate::state::fresh_state()),
        state.total_requests < u64::MAX ==> share_is_a_fraction(
            recorded(state, ws, truncated, now),
        ),
        share_is_a_fraction(
            crate::controller::window_closed(crate::controller::pruned(state, config, now)),
        ),
        crate::controller::repartitioned(
            crate::controller::updated(state, share, target, pressured, config, now),
            after,
            config,
        ) ==> share_is_a_fraction(after),
        match crate::controller::share_step(state) {
            ShareStep::Hold => true,
            ShareStep::Adopt { truncated: t, total: n } => t <= n && 0 < n,
            ShareStep::Blend { prev: p, truncated: t, total: n } => t <= n && 0 < n,
        },
{
}

// ---- laws in requests, URLs and moments ----

/// The state of a model is the one it has, and that of a model that has seen nothing if it has
/// none.
pub proof fn law_a_model_without_a_state_has_seen_nothing(
    models: Map<Seq<char>, crate::state::ModelView>,
    key: Seq<char>,
    url: Seq<char>,
)
    ensures
        models.contains_key(key) ==> state_of(models, key) == models[key],
        !models.contains_key(key) ==> {
            let state = state_of(models, key);
            &&& state.total_requests == 0 && state.truncated_requests == 0
            &&& state.prev_total == 0 && state.prev_truncated == 0
            &&& state.ewma_share is None && state.last_resize_at is None && state.k == 0
            &&& !state.known.contains_key(url) && !state.trunc_urls.contains(url)
        },
{
}

/// A request counts as one, and a truncated one as one truncated request too; a counter at its
/// end starts over.
pub proof fn law_a_request_counts_as_one(
    state: crate::state::ModelView,
    ws: Seq<Worker>,
    truncated: bool,
    now: u64,
)
    ensures
        state.total_requests < u64::MAX ==> recorded(state, ws, truncated, now).total_requests
            == state.total_requests + 1,
        state.total_requests == u64::MAX ==> recorded(state, ws, truncated, now).total_requests == 0,
        truncated && state.truncated_requests < u64::MAX ==> recorded(
            state,
            ws,
            truncated,
            now,
        ).truncated_requests == state.truncated_requests + 1,
        truncated && state.truncated_requests == u64::MAX ==> recorded(
            state,
            ws,
            truncated,
            now,
        ).truncated_requests == 0,
        !truncated ==> recorded(state, ws, truncated, now).truncated_requests
            == state.truncated_requests,
        recorded(state, ws, truncated, now).known == touched(state.known, ws, now),
{
}

/// A stamp is fresh for a billion nanoseconds; a worker that is seen is noted with its own pin and
/// the present moment.
pub proof fn law_a_stamp_is_fresh_for_a_second(
    known: Map<Seq<char>, crate::known::KnownView>,
    worker: Worker,
    url: Seq<char>,
    now: u64,
)
    ensures
        is_fresh(known, url, now) <==> known.contains_key(url) && now < known[url].last_seen
            + 1_000_000_000,
        seen_now(worker, now).pin == worker.pin(),
        seen_now(worker, now).last_seen == now,
{
}

/// The known workers after a request, worker by worker and in nanoseconds: one that the request
/// does not list, or that was noted less than a billion nanoseconds ago, is left alone; any other
/// listed one is noted at the present moment, with the pin of the first listed under its URL.
pub proof fn law_what_a_request_notes(
    known: Map<Seq<char>, crate::known::KnownView>,
    ws: Seq<Worker>,
    now: u64,
    i: int,
    u: Seq<char>,
)
    requires
        0 <= i < ws.len(),
        forall|j: int| 0 <= j < i ==> (#[trigger] ws[j]).url@ != ws[i].url@,
    ensures
        touched(known, ws, now).contains_key(ws[i].url@),
        known.contains_key(ws[i].url@) && now < known[ws[i].url@].last_seen + 1_000_000_000
            ==> touched(known, ws, now)[ws[i].url@] == known[ws[i].url@],
        !(known.contains_key(ws[i].url@) && now < known[ws[i].url@].last_seen + 1_000_000_000)
            ==> touched(known, ws, now)[ws[i].url@].last_seen == now && touched(
            known,
            ws,
            now,
        )[ws[i].url@].pin == ws[i].pin(),
        (forall|j: int| 0 <= j < ws.len() ==> (#[trigger] ws[j]).url@ != u) ==> touched(
            known,
            ws,
            now,
        ).contains_key(u) == known.contains_key(u) && touched(known, ws, now)[u] == known[u],
{
    let url = ws[i].url@;
    law_touch_remembers(known, ws, now, url);
    law_touch_remembers(known, ws, now, u);
    law_a_stamp_is_fresh_for_a_second(known, ws[i], url, now);
    assert(lists_url(ws, url));
    if !is_fresh(known, url, now) {
        let m = choose|m: int|
            0 <= m < ws.len() && (#[trigger] ws[m]).url@ == url && (forall|j: int|
                0 <= j < m ==> (#[trigger] ws[j]).url@ != url) && touched(known, ws, now)[url]
                == seen_now(ws[m], now);
        assert(m == i) by {
            if i < m {
                assert(ws[i].url@ != url);
            }
        }
    }
}

/// Every eviction has its reason: a URL is evicted exactly if a worker handed over under it is
/// pinned to the truncation pool, or some model has it as a member of its pool. A worker that is
/// handed over under a URL for which neither holds, such as one pinned to the sticky pool, stays in
/// the seeded tree.
pub proof fn law_every_eviction_has_its_reason(
    tree: Set<Seq<char>>,
    models: Map<Seq<char>, crate::state::ModelView>,
    ws: Seq<Worker>,
    i: int,
    u: Seq<char>,
)
    ensures
        seed_evictions(models, ws).contains(u) <==> (exists|j: int|
            0 <= j < ws.len() && (#[trigger] ws[j]).url@ == u && ws[j].pin() == Some(
                "truncation"@,
            )) || (exists|key: Seq<char>| #[trigger]
            models.contains_key(key) && models[key].trunc_urls.contains(u)),
        0 <= i < ws.len() && (forall|j: int|
            0 <= j < ws.len() && (#[trigger] ws[j]).url@ == ws[i].url@ ==> ws[j].pin() != Some(
                "truncation"@,
            )) && (forall|key: Seq<char>| #[trigger]
            models.contains_key(key) ==> !models[key].trunc_urls.contains(ws[i].url@))
            ==> tree_seeded(tree, models, ws).contains(ws[i].url@),
        0 <= i < ws.len() && ws[i].pin() == Some("truncation"@) ==> !tree_seeded(
            tree,
            models,
            ws,
        ).contains(ws[i].url@),
        (exists|key: Seq<char>| #[trigger]
            models.contains_key(key) && models[key].trunc_urls.contains(u)) ==> !tree_seeded(
            tree,
            models,
            ws,
        ).contains(u),
        tree_seeded(tree, models, ws).contains(u) ==> tree.contains(u) || exists|j: int|
            0 <= j < ws.len() && (#[trigger] ws[j]).url@ == u,
{
    if 0 <= i < ws.len() {
        assert(lists_url(ws, ws[i].url@));
    }
}

} // verus!
