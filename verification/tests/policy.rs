use std::collections::{HashMap, HashSet};

use truncation_aware::config::{TruncationAwareConfig, NANOS_PER_SEC};
use truncation_aware::controller::{
    close_window, finish_tick, next_k as step_k, open_tick, repartition,
    update_share_and_k as apply_share, Moves, ResizeDirection, ResizeReason, ResizeReport,
    ShareStep,
};
use truncation_aware::inflight::{pool_inflight, PoolInflight};
use truncation_aware::known::{Keep, KnownWorker};
use truncation_aware::partition::compute_trunc_set;
use truncation_aware::policy::TruncationAwarePolicy;
use truncation_aware::route::{resolve_sticky, Route};
use truncation_aware::state::ModelState;
use truncation_aware::url_set::UrlSet;
use truncation_aware::worker::{
    pool_pin, Worker, POOL_LABEL, POOL_LABEL_STICKY, POOL_LABEL_TRUNCATION,
};

const MODEL: &str = "unknown";
const NOW: u64 = 1_000_000 * NANOS_PER_SEC;
const PRESSURE_RATIO: f32 = 4.0;

fn make_worker(url: &str) -> Worker {
    Worker {
        url: url.to_string(),
        model_key: MODEL.to_string(),
        labels: vec![],
        healthy: true,
        load: 0,
    }
}

fn make_pinned_worker(url: &str, pool: &str) -> Worker {
    Worker {
        labels: vec![(POOL_LABEL.to_string(), pool.to_string())],
        ..make_worker(url)
    }
}

fn make_workers(n: usize) -> Vec<Worker> {
    (0..n)
        .map(|i| make_worker(&format!("http://w{}:8000", i)))
        .collect()
}

fn entries(workers: &[Worker]) -> Vec<(String, Option<String>)> {
    workers
        .iter()
        .map(|w| (w.url.clone(), pool_pin(w).map(str::to_string)))
        .collect()
}

fn loads(workers: &[Worker]) -> Vec<(String, usize)> {
    workers.iter().map(|w| (w.url.clone(), w.load)).collect()
}

fn test_config() -> TruncationAwareConfig {
    TruncationAwareConfig {
        tick_secs: 0,
        ..TruncationAwareConfig::default()
    }
}

fn remember(state: &mut ModelState, workers: &[Worker]) {
    for w in workers {
        state.known.insert(
            w.url.clone(),
            KnownWorker {
                pin: pool_pin(w).map(str::to_string),
                last_seen: NOW,
            },
        );
    }
}

fn seeded_state(n_workers: usize) -> (ModelState, Vec<Worker>) {
    let mut state = ModelState::new();
    let workers = make_workers(n_workers);
    remember(&mut state, &workers);
    (state, workers)
}

// Share arithmetic, as whoever drives the ticks does it.

fn share_of(bits: Option<u64>) -> Option<f64> {
    bits.map(f64::from_bits)
}

fn new_share(step: ShareStep, cfg: &TruncationAwareConfig) -> Option<u64> {
    let alpha = (cfg.tick_secs as f64 / cfg.ewma_window_secs.max(1) as f64).clamp(0.0, 1.0);
    match step {
        ShareStep::Hold => None,
        ShareStep::Adopt { truncated, total } => {
            Some((truncated as f64 / total as f64).to_bits())
        }
        ShareStep::Blend { prev, truncated, total } => {
            let window = truncated as f64 / total as f64;
            Some((alpha * window + (1.0 - alpha) * f64::from_bits(prev)).to_bits())
        }
    }
}

fn target(n: usize, share: f64) -> usize {
    ((n as f64) * share).round() as usize
}

fn pressured(p: &PoolInflight) -> bool {
    p.comparable()
        && p.trunc_load as f64 / p.trunc_workers as f64
            > (PRESSURE_RATIO as f64) * (p.sticky_load as f64 / p.sticky_workers as f64)
}

fn next_k(current_k: usize, share: f64, n: usize, cfg: &TruncationAwareConfig) -> usize {
    step_k(current_k, target(n, share), n, cfg)
}

fn update_share_and_k(
    state: &mut ModelState,
    workers: &[Worker],
    cfg: &TruncationAwareConfig,
) -> ResizeReport {
    let step = close_window(state);
    let share = new_share(step, cfg);
    let current = share_of(share.or(state.ewma_share)).unwrap_or(0.0);
    let hot = pressured(&pool_inflight(state, &loads(workers)));
    let goal = target(state.known.len(), current);
    apply_share(state, share, goal, hot, cfg, NOW)
}

fn tick_model(state: &mut ModelState, workers: &[Worker], cfg: &TruncationAwareConfig) -> Moves {
    let step = open_tick(state, cfg, NOW);
    let share = new_share(step, cfg);
    let current = share_of(share.or(state.ewma_share)).unwrap_or(0.0);
    let hot = pressured(&pool_inflight(state, &loads(workers)));
    let goal = target(state.known.len(), current);
    finish_tick(state, share, goal, hot, cfg, NOW).moves
}

fn force_partition(policy: &mut TruncationAwarePolicy, workers: &[Worker], k: usize) -> Moves {
    let mut state = policy.models.take(MODEL).unwrap_or_else(ModelState::new);
    remember(&mut state, workers);
    state.k = k;
    let moves = repartition(&mut state, &policy.config);
    policy.models.put(MODEL, state);
    moves
}

/// Looks at, or changes, the state of a model that has one.
fn with_state<T>(
    policy: &mut TruncationAwarePolicy,
    key: &str,
    f: impl FnOnce(&mut ModelState) -> T,
) -> T {
    let mut state = policy.models.take(key).unwrap();
    let result = f(&mut state);
    policy.models.put(key, state);
    result
}

/// Sets the last-seen stamp of a known worker.
fn stamp(state: &mut ModelState, url: &str, last_seen: u64) {
    let pin = pin_of(state, url);
    state.known.insert(url.to_string(), KnownWorker { pin, last_seen });
}

/// The pin of a known worker.
fn pin_of(state: &ModelState, url: &str) -> Option<String> {
    let entry = state.known.entries().into_iter().find(|e| e.0 == url);
    entry.unwrap().1
}

/// A sticky tree: texts stick to the worker that they first went to, while that is a tenant.
struct Tree {
    tenants: HashSet<String>,
    sessions: HashMap<String, String>,
}

impl Tree {
    fn new() -> Self {
        Tree {
            tenants: HashSet::new(),
            sessions: HashMap::new(),
        }
    }

    fn seed(&mut self, workers: &[Worker]) {
        for w in workers {
            self.tenants.insert(w.url.clone());
        }
    }

    fn evict(&mut self, urls: &[String]) {
        for url in urls {
            self.tenants.remove(url);
            self.sessions.retain(|_, tenant| tenant != url);
        }
    }

    fn apply(&mut self, moves: &Moves) {
        self.evict(&moves.evicted);
        for url in &moves.returned {
            self.tenants.insert(url.clone());
        }
    }

    fn select(&mut self, workers: &[Worker], subset: &[usize], text: &str) -> Option<usize> {
        if let Some(tenant) = self.sessions.get(text) {
            if let Some(n) = subset.iter().position(|&i| workers[i].url == *tenant) {
                return Some(n);
            }
        }
        let n = subset
            .iter()
            .position(|&i| self.tenants.contains(&workers[i].url))
            .unwrap_or(0);
        self.sessions
            .insert(text.to_string(), workers[subset[n]].url.clone());
        Some(n)
    }
}

fn select(
    policy: &mut TruncationAwarePolicy,
    tree: &mut Tree,
    workers: &[Worker],
    text: &str,
    truncated: bool,
) -> Option<usize> {
    match policy.select_worker(workers, truncated, NOW)? {
        Route::TruncPool(i) | Route::FallbackAll(i) | Route::StickySpill(i) => Some(i),
        Route::Sticky(subset) => {
            let picked = tree.select(workers, &subset, text);
            resolve_sticky(&subset, picked)
        }
    }
}

// ---- next_k / controller ----

#[test]
fn test_next_k_steps_toward_target_by_one() {
    let cfg = test_config();
    // share 0.5 over 8 workers: K* = 4; step from 0 is 1.
    assert_eq!(next_k(0, 0.5, 8, &cfg), 1);
    assert_eq!(next_k(3, 0.5, 8, &cfg), 4);
    assert_eq!(next_k(4, 0.5, 8, &cfg), 4);
    // shrink
    assert_eq!(next_k(4, 0.0, 8, &cfg), 3);
}

#[test]
fn test_next_k_respects_sticky_min() {
    let cfg = test_config();
    // share 1.0 would want K = n, but sticky_min=1 caps at n-1.
    assert_eq!(next_k(6, 1.0, 8, &cfg), 7);
    assert_eq!(next_k(7, 1.0, 8, &cfg), 7);
}

#[test]
fn test_next_k_deadband() {
    let cfg = TruncationAwareConfig {
        deadband: 1,
        ..test_config()
    };
    // K* = 4, current 3: |diff| = 1 <= deadband, hold.
    assert_eq!(next_k(3, 0.5, 8, &cfg), 3);
    // K* = 4, current 2: |diff| = 2 > deadband, step.
    assert_eq!(next_k(2, 0.5, 8, &cfg), 3);
}

#[test]
fn test_controller_converges_and_cooldown() {
    let cfg = TruncationAwareConfig {
        ewma_window_secs: 30,
        tick_secs: 30, // alpha = 1: window share adopted immediately
        cooldown_secs: 3600,
        ..test_config()
    };
    let (mut state, workers) = seeded_state(8);

    // Window 1: 50% truncated, K* = 4, K steps 0 to 1.
    state.total_requests = 100;
    state.truncated_requests = 50;
    update_share_and_k(&mut state, &workers, &cfg);
    assert_eq!(state.k, 1);

    // Window 2: same share, but cooldown (1h) blocks the next step.
    state.total_requests = 200;
    state.truncated_requests = 100;
    update_share_and_k(&mut state, &workers, &cfg);
    assert_eq!(state.k, 1);
}

#[test]
fn test_controller_no_traffic_keeps_share() {
    let cfg = TruncationAwareConfig {
        cooldown_secs: 0,
        ..test_config()
    };
    let (mut state, workers) = seeded_state(8);
    state.ewma_share = Some(0.5f64.to_bits());

    // No new requests this window: share must not decay toward 0.
    update_share_and_k(&mut state, &workers, &cfg);
    assert!((share_of(state.ewma_share).unwrap() - 0.5).abs() < 1e-9);
}

#[test]
fn test_controller_ewma_warm_start_on_first_window() {
    let cfg = TruncationAwareConfig {
        ewma_window_secs: 60,
        tick_secs: 10, // alpha = 1/6: blending from 0 would give 0.1
        cooldown_secs: 0,
        ..test_config()
    };
    let (mut state, workers) = seeded_state(8);

    // First window with traffic: 60% truncated is adopted as-is.
    state.total_requests = 100;
    state.truncated_requests = 60;
    update_share_and_k(&mut state, &workers, &cfg);
    assert!((share_of(state.ewma_share).unwrap() - 0.6).abs() < 1e-9);

    // Subsequent windows blend normally (0.6 toward 0.0 by alpha=1/6).
    state.total_requests = 200;
    update_share_and_k(&mut state, &workers, &cfg);
    let blended = share_of(state.ewma_share).unwrap();
    assert!((blended - 0.5).abs() < 1e-9, "got {}", blended);
}

#[test]
fn test_pressured_growth_bypasses_cooldown() {
    let cfg = TruncationAwareConfig {
        ewma_window_secs: 30,
        tick_secs: 30, // alpha = 1
        cooldown_secs: 3600,
        ..test_config()
    };
    let mut policy = TruncationAwarePolicy::with_config(cfg);
    let mut workers = make_workers(8);
    force_partition(&mut policy, &workers, 1);
    let mut state = policy.models.take(MODEL).unwrap();
    state.last_resize_at = Some(NOW);

    // 50% truncated: K* = 4 > 1, but the pool is not pressured (no in-flight load anywhere):
    // cooldown must hold K.
    state.total_requests = 100;
    state.truncated_requests = 50;
    update_share_and_k(&mut state, &workers, &cfg);
    assert_eq!(state.k, 1);

    // Overload the truncation member (sticky stays idle): the pressure bit must let the grow
    // step through the cooldown.
    let trunc_set = compute_trunc_set(&entries(&workers), 1);
    for w in &mut workers {
        if trunc_set.contains(&w.url) {
            for _ in 0..5 {
                w.load += 1;
            }
        }
    }
    state.total_requests = 200;
    state.truncated_requests = 100;
    let report = update_share_and_k(&mut state, &workers, &cfg);
    assert_eq!(state.k, 2);
    assert!(report.resized.unwrap().pressure_bypass);
}

#[test]
fn test_idle_tick_preserves_known_set_and_membership() {
    let cfg = test_config();
    let mut policy = TruncationAwarePolicy::with_config(cfg);
    let workers = make_workers(8);
    force_partition(&mut policy, &workers, 1);
    let mut state = policy.models.take(MODEL).unwrap();
    // Prior traffic established a share matching K=1 (round(8*0.125)), so the idle window must
    // hold both share and K.
    state.ewma_share = Some(0.125f64.to_bits());
    let membership_before: Vec<String> = state.trunc_urls.as_slice().to_vec();
    assert_eq!(membership_before.len(), 1);

    // Age every stamp beyond the TTL.
    let stale = NOW - (cfg.known_ttl() + 30) * NANOS_PER_SEC;
    for w in &workers {
        stamp(&mut state, &w.url, stale);
    }

    // Idle window (no traffic): known set and membership must survive.
    tick_model(&mut state, &workers, &cfg);
    assert_eq!(state.known.len(), 8);
    assert_eq!(state.trunc_urls.as_slice().to_vec(), membership_before);

    // Window with traffic: stale entries are now evidence of removal.
    state.total_requests = 10;
    tick_model(&mut state, &workers, &cfg);
    assert_eq!(state.known.len(), 0);
}

#[test]
fn test_init_workers_syncs_known_set() {
    let mut policy = TruncationAwarePolicy::with_config(test_config());
    let workers = make_workers(8);
    policy.init_workers(&workers, NOW);
    assert_eq!(policy.known_urls(MODEL).len(), 8);

    // Registry shrinks to 5 workers: the known set follows immediately, without waiting for
    // request-path touches or the TTL backstop.
    policy.init_workers(&workers[..5], NOW);
    assert_eq!(policy.known_urls(MODEL).len(), 5);
    for w in &workers[..5] {
        assert!(policy.known_urls(MODEL).contains(&w.url));
    }
}

#[test]
fn test_controller_clamps_k_when_worker_set_shrinks() {
    let cfg = TruncationAwareConfig {
        ewma_window_secs: 30,
        tick_secs: 30,
        cooldown_secs: 3600, // cooldown must NOT block the capacity clamp
        ..test_config()
    };
    let (mut state, workers) = seeded_state(8);
    state.k = 5;
    state.last_resize_at = Some(NOW);

    // Worker set shrinks to 3 (upper = 3 - sticky_min = 2).
    let mut left = UrlSet::new();
    for (url, _) in state.known.entries().into_iter().skip(5) {
        left = left.with(url);
    }
    state.known.retain(Keep::Listed(&left));
    assert_eq!(state.known.len(), 3);
    let report = update_share_and_k(&mut state, &workers, &cfg);
    assert_eq!(state.k, 2);
    assert_eq!(report.clamped, Some((5, 2)));
    assert_eq!(report.resized, None);
}

#[test]
fn test_controller_jitter_held_by_deadband() {
    let cfg = TruncationAwareConfig {
        ewma_window_secs: 30,
        tick_secs: 30, // alpha = 1: each window's share is adopted directly
        cooldown_secs: 0,
        deadband: 1,
        ..test_config()
    };
    let (mut state, workers) = seeded_state(8);
    state.k = 4;

    // Share jitters between 0.4 (K*=3) and 0.6 (K*=5): |K*-K| = 1 stays inside the deadband, so
    // K must not flap.
    let mut total = 0u64;
    let mut truncated = 0u64;
    for window in 0..6 {
        let share = if window % 2 == 0 { 0.4 } else { 0.6 };
        total += 100;
        truncated += (100.0 * share) as u64;
        state.total_requests = total;
        state.truncated_requests = truncated;
        update_share_and_k(&mut state, &workers, &cfg);
        assert_eq!(state.k, 4, "window {}", window);
    }
}

// ---- routing branches ----

#[test]
fn test_truncated_routes_to_trunc_pool_min_load() {
    let mut policy = TruncationAwarePolicy::with_config(test_config());
    let mut tree = Tree::new();
    let mut workers = make_workers(4);
    force_partition(&mut policy, &workers, 2);

    let trunc_set = compute_trunc_set(&entries(&workers), 2);
    let trunc_idx: Vec<usize> = (0..workers.len())
        .filter(|&i| trunc_set.contains(&workers[i].url))
        .collect();
    // Load the first trunc member so min-load picks the other.
    workers[trunc_idx[0]].load += 1;

    let idx = select(&mut policy, &mut tree, &workers, "hello", true).unwrap();
    assert_eq!(idx, trunc_idx[1]);
}

#[test]
fn test_truncated_never_inserted_into_sticky_tree() {
    let mut policy = TruncationAwarePolicy::with_config(test_config());
    let mut tree = Tree::new();
    let workers = make_workers(4);
    tree.seed(&workers);
    let moves = force_partition(&mut policy, &workers, 1);
    tree.apply(&moves);

    let text = "truncated conversation prefix that must not stick";
    let trunc_idx = select(&mut policy, &mut tree, &workers, text, true).unwrap();

    // The same text as a NON-truncated request must not show affinity to the truncation worker:
    // the sticky tree never saw it.
    let sticky_idx = select(&mut policy, &mut tree, &workers, text, false).unwrap();
    assert_ne!(sticky_idx, trunc_idx);
}

#[test]
fn test_truncated_with_k0_falls_back_to_all() {
    let mut policy = TruncationAwarePolicy::with_config(test_config());
    let mut tree = Tree::new();
    let mut workers = make_workers(4);
    // K stays 0: truncated requests spread over everyone by min load.
    for w in &mut workers[..3] {
        w.load += 1;
    }
    let idx = select(&mut policy, &mut tree, &workers, "hi", true).unwrap();
    assert_eq!(idx, 3);
}

#[test]
fn test_unhealthy_workers_never_selected() {
    let mut policy = TruncationAwarePolicy::with_config(test_config());
    let mut tree = Tree::new();
    let mut workers = make_workers(4);
    force_partition(&mut policy, &workers, 2);

    let trunc_set = compute_trunc_set(&entries(&workers), 2);
    // Mark all truncation members unhealthy: truncated traffic must fall back to healthy
    // (sticky) workers instead of a dead member.
    for w in &mut workers {
        if trunc_set.contains(&w.url) {
            w.healthy = false;
        }
    }
    let idx = select(&mut policy, &mut tree, &workers, "hi", true).unwrap();
    assert!(workers[idx].healthy);
    assert!(!trunc_set.contains(&workers[idx].url));
}

#[test]
fn test_sticky_traffic_uses_cache_aware_and_sticks() {
    let mut policy = TruncationAwarePolicy::with_config(test_config());
    let mut tree = Tree::new();
    let workers = make_workers(4);
    tree.seed(&workers);
    let moves = force_partition(&mut policy, &workers, 1);
    tree.apply(&moves);

    let text = "session prefix for stickiness test";
    let first = select(&mut policy, &mut tree, &workers, text, false).unwrap();
    let second = select(&mut policy, &mut tree, &workers, text, false).unwrap();
    assert_eq!(first, second, "same prefix must stick to the same worker");
}

#[test]
fn test_sticky_spill_when_all_pinned_truncation() {
    let mut policy = TruncationAwarePolicy::with_config(test_config());
    let mut tree = Tree::new();
    let mut workers = vec![
        make_pinned_worker("http://t1:8000", POOL_LABEL_TRUNCATION),
        make_pinned_worker("http://t2:8000", POOL_LABEL_TRUNCATION),
    ];
    workers[0].load += 1;
    // Sticky pool is empty: spill into truncation pool by min load.
    let idx = select(&mut policy, &mut tree, &workers, "hi", false).unwrap();
    assert_eq!(idx, 1);
}

#[test]
fn test_partition_change_evicts_from_sticky_tree() {
    let mut policy = TruncationAwarePolicy::with_config(test_config());
    let mut tree = Tree::new();
    let workers = make_workers(4);
    tree.seed(&workers);
    let moves = force_partition(&mut policy, &workers, 0);
    tree.apply(&moves);

    // Establish stickiness with K=0 (all workers sticky).
    let text = "conversation whose tenant will move pools";
    let tenant = select(&mut policy, &mut tree, &workers, text, false).unwrap();

    // Grow K until the tenant's worker lands in the truncation pool.
    let mut k = 1;
    loop {
        let set = compute_trunc_set(&entries(&workers), k);
        if set.contains(&workers[tenant].url) {
            break;
        }
        k += 1;
        assert!(k < workers.len(), "tenant must eventually join the pool");
    }
    let moves = force_partition(&mut policy, &workers, k);
    assert!(moves.evicted.contains(&workers[tenant].url));
    tree.apply(&moves);

    // Next sticky request with the same prefix must NOT land on the old tenant anymore: it was
    // evicted from the tree and removed from the sticky subset.
    let new_idx = select(&mut policy, &mut tree, &workers, text, false).unwrap();
    assert_ne!(new_idx, tenant);
}

#[test]
fn test_health_flap_does_not_reshuffle_membership() {
    let mut policy = TruncationAwarePolicy::with_config(test_config());
    let mut tree = Tree::new();
    let mut workers = make_workers(4);
    tree.seed(&workers);
    let moves = force_partition(&mut policy, &workers, 1);
    tree.apply(&moves);

    let trunc_set = compute_trunc_set(&entries(&workers), 1);

    // Establish a sticky tenant.
    let text = "session that must survive a health flap";
    let tenant = select(&mut policy, &mut tree, &workers, text, false).unwrap();

    // The truncation member goes unhealthy: routing sees a narrower set, but membership must NOT
    // reshuffle and the tenant must keep sticking.
    for w in &mut workers {
        if trunc_set.contains(&w.url) {
            w.healthy = false;
        }
    }
    let during_flap = select(&mut policy, &mut tree, &workers, text, false).unwrap();
    assert_eq!(during_flap, tenant, "health flap must not evict sticky tenants");

    with_state(&mut policy, MODEL, |state| {
        assert_eq!(state.trunc_urls, trunc_set, "membership must not change on a flap");
    });
}

#[test]
fn test_init_workers_does_not_resurrect_trunc_members() {
    let mut policy = TruncationAwarePolicy::with_config(test_config());
    let mut tree = Tree::new();
    let workers = make_workers(4);
    tree.seed(&workers);
    tree.evict(policy.init_workers(&workers, NOW).as_slice());
    let moves = force_partition(&mut policy, &workers, 1);
    tree.apply(&moves);

    // Registry re-init (worker update path) re-seeds the tree; truncation members must be
    // removed again afterwards.
    tree.seed(&workers);
    tree.evict(policy.init_workers(&workers, NOW).as_slice());

    let trunc_set = compute_trunc_set(&entries(&workers), 1);
    for url in trunc_set.as_slice() {
        assert!(!tree.tenants.contains(url));
    }
    for _ in 0..8 {
        let idx = select(
            &mut policy,
            &mut tree,
            &workers,
            "post-reinit stickiness probe",
            false,
        )
        .unwrap();
        assert!(
            !trunc_set.contains(&workers[idx].url),
            "sticky traffic must not land on a truncation member after re-init"
        );
    }
}

#[test]
fn test_per_model_state_is_isolated() {
    let mut policy = TruncationAwarePolicy::with_config(test_config());
    let mut tree = Tree::new();
    let workers = make_workers(2);
    select(&mut policy, &mut tree, &workers, "hi", true).unwrap();

    // Counters land in the state keyed by this model, and only there.
    let key = workers[0].model_key.clone();
    assert_eq!(policy.model_keys().len(), 1);
    with_state(&mut policy, &key, |state| {
        assert_eq!(state.total_requests, 1);
        assert_eq!(state.truncated_requests, 1);
    });
}

#[test]
fn test_empty_workers_returns_none() {
    let mut policy = TruncationAwarePolicy::with_config(test_config());
    let workers: Vec<Worker> = vec![];
    assert!(policy.select_worker(&workers, true, NOW).is_none());
}

// ---- further cases ----

#[test]
fn defaults() {
    let policy = TruncationAwarePolicy::new();
    assert_eq!(policy.config.ewma_window_secs, 60);
    assert_eq!(policy.config.tick_secs, 30);
    assert_eq!(policy.config.cooldown_secs, 300);
    assert_eq!(policy.config.sticky_min, 1);
    assert_eq!(policy.config.deadband, 0);
    assert_eq!(policy.name(), "truncation_aware");
    assert!(policy.needs_request_text());
    assert!(policy.model_keys().is_empty());
}

#[test]
fn ttl_is_three_ticks_but_at_least_ninety_seconds() {
    let cfg = |tick_secs| TruncationAwareConfig { tick_secs, ..test_config() };
    assert_eq!(cfg(0).known_ttl(), 90);
    assert_eq!(cfg(30).known_ttl(), 90);
    assert_eq!(cfg(31).known_ttl(), 93);
}

#[test]
fn no_worker_is_selected_when_none_is_healthy() {
    let mut policy = TruncationAwarePolicy::with_config(test_config());
    let mut workers = make_workers(2);
    for w in &mut workers {
        w.healthy = false;
    }
    assert!(policy.select_worker(&workers, false, NOW).is_none());
    // The request is not recorded either.
    assert_eq!(policy.model_keys().len(), 0);
}

#[test]
fn sticky_route_lists_the_healthy_sticky_workers() {
    let mut policy = TruncationAwarePolicy::with_config(test_config());
    let mut workers = make_workers(3);
    workers.push(make_pinned_worker("http://t:8000", POOL_LABEL_TRUNCATION));
    workers.push(make_pinned_worker("http://s:8000", POOL_LABEL_STICKY));
    workers[1].healthy = false;
    assert_eq!(
        policy.select_worker(&workers, false, NOW),
        Some(Route::Sticky(vec![0, 2, 4]))
    );
    assert_eq!(
        policy.select_worker(&workers, true, NOW),
        Some(Route::TruncPool(3))
    );
}

#[test]
fn min_load_ties_go_to_the_first() {
    let mut policy = TruncationAwarePolicy::with_config(test_config());
    let mut workers = make_workers(4);
    workers[0].load = 2;
    workers[1].load = 1;
    workers[2].load = 1;
    workers[3].load = 3;
    assert_eq!(
        policy.select_worker(&workers, true, NOW),
        Some(Route::FallbackAll(1))
    );
}

#[test]
fn sticky_choice_maps_back_to_the_callers_indices() {
    assert_eq!(resolve_sticky(&[0, 2, 4], Some(1)), Some(2));
    assert_eq!(resolve_sticky(&[0, 2, 4], None), None);
}

#[test]
fn touching_refreshes_stamps_at_most_once_per_second() {
    let mut policy = TruncationAwarePolicy::with_config(test_config());
    let workers = make_workers(1);
    let seen = |policy: &mut TruncationAwarePolicy| {
        with_state(policy, MODEL, |state| state.known.last_seen("http://w0:8000").unwrap())
    };
    policy.select_worker(&workers, false, NOW);
    assert_eq!(seen(&mut policy), NOW);
    policy.select_worker(&workers, false, NOW + NANOS_PER_SEC - 1);
    assert_eq!(seen(&mut policy), NOW);
    policy.select_worker(&workers, false, NOW + NANOS_PER_SEC);
    assert_eq!(seen(&mut policy), NOW + NANOS_PER_SEC);
}

#[test]
fn pool_labels_follow_membership_and_pins() {
    let mut policy = TruncationAwarePolicy::with_config(test_config());
    let workers = make_workers(4);
    assert_eq!(policy.pool_label_for(&workers[0]), "sticky");
    assert_eq!(policy.model_keys().len(), 1);
    force_partition(&mut policy, &workers, 3);
    let set = compute_trunc_set(&entries(&workers), 3);
    for w in &workers {
        let label = if set.contains(&w.url) { "truncation" } else { "sticky" };
        assert_eq!(policy.pool_label_for(w), label);
    }
    let pinned = make_pinned_worker("http://new:8000", POOL_LABEL_TRUNCATION);
    assert_eq!(policy.pool_label_for(&pinned), "truncation");
    let member = set.as_slice()[0].clone();
    let pinned = make_pinned_worker(&member, POOL_LABEL_STICKY);
    assert_eq!(policy.pool_label_for(&pinned), "sticky");
}

#[test]
fn init_workers_groups_by_model_and_evicts_pinned_workers() {
    let mut policy = TruncationAwarePolicy::with_config(test_config());
    let mut workers = make_workers(3);
    workers[2].model_key = "other".to_string();
    workers.push(make_pinned_worker("http://t:8000", POOL_LABEL_TRUNCATION));
    let evictions = policy.init_workers(&workers, NOW);
    assert_eq!(evictions.as_slice().to_vec(), vec!["http://t:8000".to_string()]);
    let mut keys = policy.model_keys();
    keys.sort();
    assert_eq!(keys, vec!["other".to_string(), MODEL.to_string()]);
    let mut urls = policy.known_urls(MODEL);
    urls.sort();
    assert_eq!(urls, vec!["http://t:8000", "http://w0:8000", "http://w1:8000"]);
    assert_eq!(policy.known_urls("other"), vec!["http://w2:8000".to_string()]);
    assert!(policy.known_urls("none").is_empty());
    // A model that the registry does not mention keeps its workers.
    policy.init_workers(&workers[..1], NOW);
    assert_eq!(policy.known_urls(MODEL), vec!["http://w0:8000".to_string()]);
    assert_eq!(policy.known_urls("other"), vec!["http://w2:8000".to_string()]);
}

#[test]
fn the_last_of_several_registrations_counts() {
    let mut policy = TruncationAwarePolicy::with_config(test_config());
    let workers = vec![
        make_pinned_worker("http://w:8000", POOL_LABEL_TRUNCATION),
        make_pinned_worker("http://w:8000", POOL_LABEL_STICKY),
    ];
    policy.init_workers(&workers, NOW);
    with_state(&mut policy, MODEL, |state| {
        assert_eq!(state.known.len(), 1);
        assert_eq!(pin_of(state, "http://w:8000"), Some(POOL_LABEL_STICKY.to_string()));
        assert_eq!(state.known.last_seen("http://w:8000"), Some(NOW));
    });
    // A later hand-over stamps the worker anew, with the pin it has then.
    policy.init_workers(&[make_worker("http://w:8000")], NOW + 1);
    with_state(&mut policy, MODEL, |state| {
        assert_eq!(pin_of(state, "http://w:8000"), None);
        assert_eq!(state.known.last_seen("http://w:8000"), Some(NOW + 1));
    });
}

#[test]
fn inflight_totals_by_pool() {
    let mut policy = TruncationAwarePolicy::with_config(test_config());
    let mut workers = vec![
        make_pinned_worker("http://t1:8000", POOL_LABEL_TRUNCATION),
        make_pinned_worker("http://t2:8000", POOL_LABEL_TRUNCATION),
        make_pinned_worker("http://s:8000", POOL_LABEL_STICKY),
    ];
    workers[0].load = 3;
    workers[1].load = 4;
    workers[2].load = usize::MAX;
    policy.init_workers(&workers, NOW);
    let pools = policy.pool_inflight(MODEL, &loads(&workers)).unwrap();
    assert_eq!(
        pools,
        PoolInflight {
            sticky_workers: 1,
            sticky_load: usize::MAX as u128,
            trunc_workers: 2,
            trunc_load: 7,
        }
    );
    assert!(pools.comparable());
    assert_eq!(policy.pool_inflight("none", &loads(&workers)), None);
    let idle = policy.pool_inflight(MODEL, &[]).unwrap();
    assert_eq!((idle.sticky_load, idle.trunc_load), (0, 0));
}

#[test]
fn a_tick_grows_and_shrinks_the_pool_one_by_one() {
    let cfg = TruncationAwareConfig {
        tick_secs: 30,
        ewma_window_secs: 30,
        cooldown_secs: 60,
        ..TruncationAwareConfig::default()
    };
    let mut policy = TruncationAwarePolicy::with_config(cfg);
    let workers = make_workers(4);
    policy.init_workers(&workers, NOW);
    let mut tree: HashSet<String> = workers.iter().map(|w| w.url.clone()).collect();
    let mut now = NOW;
    let mut sizes = vec![];
    for round in 0..6 {
        now += 60 * NANOS_PER_SEC;
        for _ in 0..4 {
            policy.select_worker(&workers, round < 3, now);
        }
        let start = policy.begin_tick(MODEL, now).unwrap();
        let share = new_share(start.step, &cfg).or(start.share);
        let goal = target(start.workers, share_of(share).unwrap());
        let report = policy.end_tick(MODEL, share, goal, false, now).unwrap();
        for url in &report.moves.evicted {
            assert!(tree.remove(url));
        }
        for url in &report.moves.returned {
            assert!(tree.insert(url.clone()));
        }
        with_state(&mut policy, MODEL, |state| {
            sizes.push(state.trunc_urls.len());
            for w in &workers {
                assert_ne!(tree.contains(&w.url), state.trunc_urls.contains(&w.url));
            }
        });
    }
    assert_eq!(sizes, vec![1, 2, 3, 2, 1, 0]);
    assert!(policy.begin_tick("none", now).is_none());
    assert!(policy.end_tick("none", None, 0, false, now).is_none());
}

#[test]
fn windows_are_held_adopted_or_blended() {
    let mut state = ModelState::new();
    assert_eq!(close_window(&mut state), ShareStep::Hold);
    state.total_requests = 10;
    state.truncated_requests = 4;
    assert_eq!(close_window(&mut state), ShareStep::Adopt { truncated: 4, total: 10 });
    assert_eq!(close_window(&mut state), ShareStep::Hold);
    state.ewma_share = Some(7);
    state.total_requests = 12;
    state.truncated_requests = 5;
    assert_eq!(
        close_window(&mut state),
        ShareStep::Blend { prev: 7, truncated: 1, total: 2 }
    );
}

#[test]
fn counters_start_over_at_their_end() {
    let mut policy = TruncationAwarePolicy::with_config(test_config());
    let workers = make_workers(1);
    policy.select_worker(&workers, true, NOW);
    with_state(&mut policy, MODEL, |state| {
        state.total_requests = u64::MAX;
        state.truncated_requests = u64::MAX;
    });
    policy.select_worker(&workers, true, NOW);
    with_state(&mut policy, MODEL, |state| {
        assert_eq!((state.total_requests, state.truncated_requests), (0, 0));
    });
}

#[test]
fn an_empty_known_set_leaves_k_alone() {
    let mut state = ModelState::new();
    state.k = 3;
    let report = apply_share(&mut state, Some(1), 5, true, &test_config(), NOW);
    assert_eq!(report, ResizeReport { clamped: None, resized: None });
    assert_eq!(state.k, 3);
    assert_eq!(state.ewma_share, Some(1));
}

#[test]
fn reset_forgets_all_models() {
    let mut policy = TruncationAwarePolicy::with_config(test_config());
    policy.init_workers(&make_workers(2), NOW);
    policy.reset();
    assert_eq!(policy.model_keys().len(), 0);
}

#[test]
fn the_sticky_pool_keeps_its_minimum() {
    let cfg = TruncationAwareConfig { sticky_min: 2, cooldown_secs: 0, ..test_config() };
    let (mut state, workers) = seeded_state(5);
    for _ in 0..10 {
        finish_tick(&mut state, None, 5, false, &cfg, NOW);
        let pools = pool_inflight(&state, &loads(&workers));
        assert!(pools.sticky_workers >= 2);
        assert_eq!(pools.trunc_workers, state.trunc_urls.len());
    }
    assert_eq!(state.k, 3);
    assert_eq!(state.trunc_urls.len(), 3);
}

#[test]
fn steps_within_the_cooldown_are_pressured_growth() {
    let cfg = TruncationAwareConfig { cooldown_secs: 100, ..test_config() };
    let (mut state, _workers) = seeded_state(8);
    let late = NOW + 100 * NANOS_PER_SEC;
    assert!(apply_share(&mut state, None, 4, false, &cfg, NOW).resized.is_some());
    assert!(apply_share(&mut state, None, 4, false, &cfg, late - 1).resized.is_none());
    assert!(apply_share(&mut state, None, 0, true, &cfg, late - 1).resized.is_none());
    let bypass = apply_share(&mut state, None, 4, true, &cfg, late - 1).resized.unwrap();
    assert!(bypass.pressure_bypass);
    assert_eq!((bypass.from, bypass.to), (1, 2));
    assert_eq!(bypass.direction(), ResizeDirection::Grow);
    assert_eq!(bypass.reason(), ResizeReason::Pressure);
    let later = late - 1 + 100 * NANOS_PER_SEC;
    let shrink = apply_share(&mut state, None, 0, false, &cfg, later).resized.unwrap();
    assert!(!shrink.pressure_bypass);
    assert_eq!((shrink.from, shrink.to), (2, 1));
    assert_eq!(shrink.direction(), ResizeDirection::Shrink);
    assert_eq!(shrink.reason(), ResizeReason::Share);
}

#[test]
fn models_do_not_share_state() {
    let mut policy = TruncationAwarePolicy::with_config(test_config());
    let mut other = make_workers(3);
    for w in &mut other {
        w.model_key = "other".to_string();
    }
    policy.select_worker(&make_workers(2), true, NOW);
    policy.select_worker(&other, false, NOW);
    let a = policy.models.take(MODEL).unwrap();
    let b = policy.models.take("other").unwrap();
    assert_eq!((a.total_requests, a.truncated_requests, a.known.len()), (1, 1, 2));
    assert_eq!((b.total_requests, b.truncated_requests, b.known.len()), (1, 0, 3));
}

#[test]
fn a_tick_under_traffic_drops_only_stale_workers() {
    let cfg = test_config();
    let (mut state, _workers) = seeded_state(3);
    let ttl = cfg.known_ttl() * NANOS_PER_SEC;
    stamp(&mut state, "http://w0:8000", NOW - ttl);
    stamp(&mut state, "http://w1:8000", NOW - ttl + 1);
    state.total_requests = 1;
    open_tick(&mut state, &cfg, NOW);
    assert_eq!(state.known.last_seen("http://w0:8000"), None);
    assert_eq!(state.known.last_seen("http://w1:8000"), Some(NOW - ttl + 1));
    assert_eq!(state.known.last_seen("http://w2:8000"), Some(NOW));
    assert_eq!(state.prev_total, 1);
}

#[test]
fn the_sticky_pool_keeps_all_it_can_where_pins_leave_too_few() {
    let cfg = TruncationAwareConfig { sticky_min: 3, cooldown_secs: 0, ..test_config() };
    let mut workers = make_workers(2);
    workers.push(make_pinned_worker("http://t1:8000", POOL_LABEL_TRUNCATION));
    workers.push(make_pinned_worker("http://t2:8000", POOL_LABEL_TRUNCATION));
    let mut state = ModelState::new();
    remember(&mut state, &workers);
    state.k = 4;
    finish_tick(&mut state, None, 4, false, &cfg, NOW);
    let pools = pool_inflight(&state, &[]);
    assert_eq!((pools.sticky_workers, pools.trunc_workers), (2, 2));
}

#[test]
fn a_stale_stamp_is_replaced_by_the_first_worker_seen() {
    let mut policy = TruncationAwarePolicy::with_config(test_config());
    let workers = vec![
        make_pinned_worker("http://w:8000", POOL_LABEL_STICKY),
        make_pinned_worker("http://w:8000", POOL_LABEL_TRUNCATION),
    ];
    policy.select_worker(&workers, false, NOW);
    with_state(&mut policy, MODEL, |state| {
        assert_eq!(pin_of(state, "http://w:8000"), Some(POOL_LABEL_STICKY.to_string()));
        assert_eq!(state.known.last_seen("http://w:8000"), Some(NOW));
    });
}

#[test]
fn an_idle_tick_needs_no_ttl() {
    let cfg = TruncationAwareConfig { tick_secs: u64::MAX, ..test_config() };
    let mut policy = TruncationAwarePolicy::with_config(cfg);
    policy.init_workers(&make_workers(2), NOW);
    let start = policy.begin_tick(MODEL, NOW).unwrap();
    assert_eq!(start.step, ShareStep::Hold);
    assert_eq!(start.workers, 2);
}

#[test]
fn an_empty_registry_evicts_the_members() {
    let mut policy = TruncationAwarePolicy::with_config(test_config());
    let workers = make_workers(3);
    force_partition(&mut policy, &workers, 2);
    let evictions = policy.init_workers(&[], NOW);
    assert_eq!(evictions, compute_trunc_set(&entries(&workers), 2));
    assert_eq!(policy.known_urls(MODEL).len(), 3);
}

#[test]
fn a_flap_in_the_truncation_pool_keeps_the_sticky_list() {
    let mut policy = TruncationAwarePolicy::with_config(test_config());
    let mut workers = make_workers(5);
    force_partition(&mut policy, &workers, 2);
    let members = compute_trunc_set(&entries(&workers), 2);
    let before = policy.select_worker(&workers, false, NOW).unwrap();
    for w in &mut workers {
        if members.contains(&w.url) {
            w.healthy = false;
        }
    }
    let during = policy.select_worker(&workers, false, NOW + NANOS_PER_SEC).unwrap();
    assert_eq!(before, during);
    match (before, during) {
        (Route::Sticky(a), Route::Sticky(b)) => {
            assert_eq!(a.len(), 3);
            assert_eq!(resolve_sticky(&a, Some(1)), resolve_sticky(&b, Some(1)));
        }
        _ => panic!("the sticky pool has healthy workers"),
    }
    with_state(&mut policy, MODEL, |state| assert_eq!(state.trunc_urls, members));
}

#[test]
fn requests_keep_the_start_of_the_window() {
    let mut policy = TruncationAwarePolicy::with_config(test_config());
    let workers = make_workers(2);
    policy.select_worker(&workers, true, NOW);
    assert!(policy.had_traffic(MODEL));
    assert!(!policy.had_traffic("none"));
    policy.begin_tick(MODEL, NOW);
    assert!(!policy.had_traffic(MODEL));
    policy.select_worker(&workers, false, NOW);
    assert!(policy.had_traffic(MODEL));
    with_state(&mut policy, MODEL, |state| {
        assert_eq!((state.prev_total, state.prev_truncated), (1, 1));
        assert_eq!((state.total_requests, state.truncated_requests), (2, 1));
    });
}
