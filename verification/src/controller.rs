//! The controller: once per tick it closes a traffic window, steps the size K of the truncation
//! pool towards its target, and recomputes the membership.
//!
//! Share arithmetic is left to whoever drives the ticks: [`close_window`] says what to compute,
//! and [`update_share_and_k`] takes the outcome.

use crate::config::{is_within, TruncationAwareConfig};
use crate::known::Keep;
use crate::partition::compute_trunc_set;
use crate::state::ModelState;
use crate::url_set::UrlSet;
use vstd::prelude::*;

verus! {

// ---- the traffic window ----

/// What becomes of the EWMA share of truncated requests.
#[derive(Debug, Clone, Copy, PartialEq, Eq)]
pub enum ShareStep {
    /// The window carried no traffic: the share stays.
    Hold,
    /// The first window with traffic: its share, `truncated / total`, is adopted as it is.
    Adopt { truncated: u64, total: u64 },
    /// The window's share, `truncated / total`, is blended into the previous share `prev`.
    Blend { prev: u64, truncated: u64, total: u64 },
}

/// The growth of a counter, or none where it went back.
pub open spec fn growth(now: u64, before: u64) -> u64 {
    if now > before {
        (now - before) as u64
    } else {
        0
    }
}

/// What the window since the previous tick makes of the share.
pub open spec fn share_step(state: crate::state::ModelView) -> ShareStep {
    let total = growth(state.total_requests, state.prev_total);
    let truncated = growth(state.truncated_requests, state.prev_truncated);
    if total == 0 {
        ShareStep::Hold
    } else {
        match state.ewma_share {
            None => ShareStep::Adopt { truncated, total },
            Some(prev) => ShareStep::Blend { prev, truncated, total },
        }
    }
}

/// The state once the window is closed: the next one starts from the present counters.
pub open spec fn window_closed(state: crate::state::ModelView) -> crate::state::ModelView {
    crate::state::ModelView {
        prev_total: state.total_requests,
        prev_truncated: state.truncated_requests,
        ..state
    }
}

/// Whether requests came in since the previous tick.
pub open spec fn had_traffic(state: crate::state::ModelView) -> bool {
    state.total_requests != state.prev_total
}

/// The state once the known set is pruned: a window with traffic drops the workers not seen for
/// longer than the TTL, an idle one none.
pub open spec fn pruned(
    state: crate::state::ModelView,
    config: TruncationAwareConfig,
    now: u64,
) -> crate::state::ModelView {
    if had_traffic(state) {
        crate::state::ModelView {
            known: crate::known::kept(
                state.known,
                Keep::SeenWithin { now, secs: config.ttl_secs() as u64 },
            ),
            ..state
        }
    } else {
        state
    }
}

/// Closes the traffic window and says what it makes of the share.
pub fn close_window(state: &mut ModelState) -> (step: ShareStep)
    ensures
        step == share_step(old(state)@),
        final(state)@ == window_closed(old(state)@),
        step is Hold <==> old(state).total_requests <= old(state).prev_total,
        step matches ShareStep::Adopt { truncated, total } ==> old(state).prev_total + total
            == old(state).total_requests && (old(state).prev_truncated
            <= old(state).truncated_requests ==> old(state).prev_truncated + truncated
            == old(state).truncated_requests),
        step matches ShareStep::Blend { prev, truncated, total } ==> old(state).ewma_share == Some(
            prev,
        ) && old(state).prev_total + total == old(state).total_requests && (
        old(state).prev_truncated <= old(state).truncated_requests ==> old(state).prev_truncated
            + truncated == old(state).truncated_requests),
{
    let total = state.total_requests.saturating_sub(state.prev_total);
    let truncated = state.truncated_requests.saturating_sub(state.prev_truncated);
    state.prev_total = state.total_requests;
    state.prev_truncated = state.truncated_requests;
    if total == 0 {
        ShareStep::Hold
    } else {
        match state.ewma_share {
            None => ShareStep::Adopt { truncated, total },
            Some(prev) => ShareStep::Blend { prev, truncated, total },
        }
    }
}

/// The first half of a tick: prunes the known set and closes the traffic window.
///
/// The TTL prune runs only in windows with traffic: the request path touches every routable
/// worker, so under traffic a stale stamp means that the worker left the registry. An idle window
/// refreshes no stamps and must not collapse the partition.
pub fn open_tick(state: &mut ModelState, config: &TruncationAwareConfig, now: u64) -> (step:
    ShareStep)
    requires
        had_traffic(old(state)@) ==> config.ttl_fits(),
    ensures
        step == share_step(old(state)@),
        final(state)@ == window_closed(pruned(old(state)@, *config, now)),
{
    if state.total_requests != state.prev_total {
        let secs = config.known_ttl();
        state.known.retain(Keep::SeenWithin { now, secs });
    }
    close_window(state)
}

// ---- K ----

/// The size that K is to approach: `target`, as far as `sticky_min` allows.
pub open spec fn goal_k(target: nat, n: nat, config: TruncationAwareConfig) -> nat {
    if target < config.k_limit(n) {
        target
    } else {
        config.k_limit(n)
    }
}

/// The next K: one step towards the goal if the goal is further away than the deadband.
pub open spec fn stepped_k(
    current: nat,
    target: nat,
    n: nat,
    config: TruncationAwareConfig,
) -> nat {
    let goal = goal_k(target, n, config);
    if n == 0 {
        current
    } else if goal > current + config.deadband {
        current + 1
    } else if current > goal + config.deadband {
        (current - 1) as nat
    } else {
        current
    }
}

/// The next K, given the current one and the target `round(n * share)`.
///
/// K* = min(target, n - sticky_min); K steps toward it by at most 1, and only when the difference
/// exceeds the deadband.
pub fn next_k(current_k: usize, target: usize, n: usize, config: &TruncationAwareConfig) -> (k:
    usize)
    ensures
        k == stepped_k(current_k as nat, target as nat, n as nat, *config),
        k == current_k + 1 <==> current_k + config.deadband < target && current_k
            + config.deadband + config.sticky_min < n,
        k + 1 == current_k <==> n > 0 && current_k > config.deadband && (current_k > target
            + config.deadband || current_k + config.sticky_min > n + config.deadband),
        k <= current_k + 1,
        current_k <= k + 1,
{
    if n == 0 {
        return current_k;
    }
    let upper = n.saturating_sub(config.sticky_min);
    let goal = if target < upper {
        target
    } else {
        upper
    };
    if goal > current_k {
        if goal - current_k > config.deadband {
            current_k + 1
        } else {
            current_k
        }
    } else if current_k - goal > config.deadband {
        current_k - 1
    } else {
        current_k
    }
}

/// A step of K.
#[derive(Debug, Clone, Copy, PartialEq, Eq)]
pub struct Resize {
    pub from: usize,
    pub to: usize,
    /// Whether the step was taken within the cooldown because the truncation pool is pressured.
    pub pressure_bypass: bool,
}

/// What a tick did to K.
#[derive(Debug, Clone, Copy, PartialEq, Eq)]
pub struct ResizeReport {
    /// The old and the new K, if K was clamped to the capacity.
    pub clamped: Option<(usize, usize)>,
    /// The step that K took, if any.
    pub resized: Option<Resize>,
}

/// Which way K changed.
#[derive(Debug, Clone, Copy, PartialEq, Eq)]
pub enum ResizeDirection {
    Grow,
    Shrink,
}

/// Why K changed.
#[derive(Debug, Clone, Copy, PartialEq, Eq)]
pub enum ResizeReason {
    /// The share of truncated requests wants it.
    Share,
    /// So does the share, and the truncation pool is pressured, so that the cooldown gave way.
    Pressure,
    /// The capacity forced it.
    Clamp,
}

impl Resize {
    /// Which way the step went.
    pub fn direction(&self) -> (direction: ResizeDirection)
        ensures
            direction == (if self.to > self.from {
                ResizeDirection::Grow
            } else {
                ResizeDirection::Shrink
            }),
    {
        if self.to > self.from {
            ResizeDirection::Grow
        } else {
            ResizeDirection::Shrink
        }
    }

    /// Why the step was taken.
    pub fn reason(&self) -> (reason: ResizeReason)
        ensures
            reason == (if self.pressure_bypass {
                ResizeReason::Pressure
            } else {
                ResizeReason::Share
            }),
    {
        if self.pressure_bypass {
            ResizeReason::Pressure
        } else {
            ResizeReason::Share
        }
    }
}

/// Whether K last took a step less than the cooldown ago.
pub open spec fn in_cooldown(
    state: crate::state::ModelView,
    config: TruncationAwareConfig,
    now: u64,
) -> bool {
    state.last_resize_at matches Some(at) && crate::config::within(
        at,
        now,
        config.cooldown_secs as int,
    )
}

/// K as far as the capacity allows.
pub open spec fn clamped_k(state: crate::state::ModelView, config: TruncationAwareConfig) -> nat {
    if state.k <= config.k_limit(state.known.len()) {
        state.k as nat
    } else {
        config.k_limit(state.known.len())
    }
}

/// The K that a tick steps to if it may.
pub open spec fn wanted_k(
    state: crate::state::ModelView,
    target: usize,
    config: TruncationAwareConfig,
) -> nat {
    stepped_k(clamped_k(state, config), target as nat, state.known.len(), config)
}

/// Whether a tick steps K: it wants to, and the cooldown is over or gives way, which it does to
/// growth while the truncation pool is pressured.
pub open spec fn steps(
    state: crate::state::ModelView,
    target: usize,
    pressured: bool,
    config: TruncationAwareConfig,
    now: u64,
) -> bool {
    &&& wanted_k(state, target, config) != clamped_k(state, config)
    &&& in_cooldown(state, config, now) ==> pressured && wanted_k(state, target, config)
        > clamped_k(state, config)
}

/// The state with its new share and K.
pub open spec fn updated(
    state: crate::state::ModelView,
    share: Option<u64>,
    target: usize,
    pressured: bool,
    config: TruncationAwareConfig,
    now: u64,
) -> crate::state::ModelView {
    let shared = crate::state::ModelView {
        ewma_share: if share is Some {
            share
        } else {
            state.ewma_share
        },
        ..state
    };
    if state.known.len() == 0 {
        shared
    } else if steps(state, target, pressured, config, now) {
        crate::state::ModelView {
            k: wanted_k(state, target, config) as usize,
            last_resize_at: Some(now),
            ..shared
        }
    } else {
        crate::state::ModelView { k: clamped_k(state, config) as usize, ..shared }
    }
}

/// What a tick reports of K.
pub open spec fn resize_report(
    state: crate::state::ModelView,
    target: usize,
    pressured: bool,
    config: TruncationAwareConfig,
    now: u64,
) -> ResizeReport {
    let clamped = clamped_k(state, config) as usize;
    if state.known.len() == 0 {
        ResizeReport { clamped: None, resized: None }
    } else {
        ResizeReport {
            clamped: if clamped != state.k {
                Some((state.k, clamped))
            } else {
                None
            },
            resized: if steps(state, target, pressured, config, now) {
                Some(
                    Resize {
                        from: clamped,
                        to: wanted_k(state, target, config) as usize,
                        pressure_bypass: in_cooldown(state, config, now),
                    },
                )
            } else {
                None
            },
        }
    }
}

/// Takes the new share, if the window made one, and steps K under cooldown and deadband
/// constraints. `target` is `round(n * share)` for the `n` known workers; `pressured` tells
/// whether the truncation pool is measurably overloaded. The membership is applied separately by
/// [`repartition`].
///
/// A K beyond the capacity is clamped at once, without regard to the cooldown: a stale large K
/// would otherwise re-apply in one shot when the capacity recovers, evicting several workers in a
/// single tick. The cooldown damps membership churn; while the truncation pool is pressured,
/// grow steps are allowed every tick, so that an undersized pool converges within ticks instead
/// of cooldown periods.
pub fn update_share_and_k(
    state: &mut ModelState,
    share: Option<u64>,
    target: usize,
    pressured: bool,
    config: &TruncationAwareConfig,
    now: u64,
) -> (report: ResizeReport)
    ensures
        report == resize_report(old(state)@, target, pressured, *config, now),
        final(state)@ == updated(old(state)@, share, target, pressured, *config, now),
{
    if share.is_some() {
        state.ewma_share = share;
    }
    let n = state.known.len();
    if n == 0 {
        return ResizeReport { clamped: None, resized: None };
    }
    let upper = n.saturating_sub(config.sticky_min);
    let mut clamped: Option<(usize, usize)> = None;
    if state.k > upper {
        clamped = Some((state.k, upper));
        state.k = upper;
    }
    let current_k = state.k;
    let new_k = next_k(current_k, target, n, config);
    if new_k == current_k {
        return ResizeReport { clamped, resized: None };
    }
    let growing = new_k > current_k;
    let cooling = match state.last_resize_at {
        Some(at) => is_within(at, now, config.cooldown_secs),
        None => false,
    };
    if cooling && !(growing && pressured) {
        return ResizeReport { clamped, resized: None };
    }
    state.last_resize_at = Some(now);
    state.k = new_k;
    ResizeReport {
        clamped,
        resized: Some(Resize { from: current_k, to: new_k, pressure_bypass: cooling }),
    }
}

// ---- membership ----

/// What a new membership asks of the sticky tree.
#[derive(Debug)]
pub struct Moves {
    /// The workers that moved to the truncation pool: to be evicted from the sticky tree (their
    /// sessions rebalance).
    pub evicted: Vec<String>,
    /// The known workers that returned to the sticky pool: to be added to the sticky tree again.
    pub returned: Vec<String>,
}

impl Moves {
    /// Whether these are the moves from `before` to `after` among the workers in `known`.
    pub open spec fn lead(
        &self,
        known: Set<Seq<char>>,
        before: Set<Seq<char>>,
        after: Set<Seq<char>>,
    ) -> bool {
        &&& crate::url_set::distinct_texts(self.evicted@)
        &&& crate::url_set::texts(self.evicted@) == after.difference(before)
        &&& crate::url_set::distinct_texts(self.returned@)
        &&& crate::url_set::texts(self.returned@) == known.intersect(before).difference(after)
    }
}

/// The URLs in `entries`.
pub open spec fn entry_urls(entries: Seq<(String, Option<String>)>) -> Set<Seq<char>> {
    Set::new(
        |u: Seq<char>| exists|i: int| 0 <= i < entries.len() && (#[trigger] entries[i]).0@ == u,
    )
}

/// Makes `members` the membership, where `entries` lists the known workers, and says which
/// workers move.
pub fn apply_membership(
    state: &mut ModelState,
    entries: &[(String, Option<String>)],
    members: UrlSet,
) -> (moves: Moves)
    ensures
        moves.lead(entry_urls(entries@), old(state)@.trunc_urls, members@),
        final(state)@ == (crate::state::ModelView { trunc_urls: members@, ..old(state)@ }),
{
    let evicted = members.difference(&state.trunc_urls);
    let mut back = UrlSet::new();
    let mut i: usize = 0;
    while i < entries.len()
        invariant
            i <= entries@.len(),
            forall|u: Seq<char>| #[trigger]
                back@.contains(u) <==> state@.trunc_urls.contains(u) && !members@.contains(u)
                    && exists|j: int| 0 <= j < i && (#[trigger] entries@[j]).0@ == u,
        decreases entries@.len() - i,
    {
        let ghost before = back@;
        let url = &entries[i].0;
        if state.trunc_urls.contains(url.as_str()) && !members.contains(url.as_str()) {
            back = back.with(url.clone());
        }
        assert forall|u: Seq<char>| #[trigger] back@.contains(u) implies exists|j: int|
            0 <= j < i + 1 && (#[trigger] entries@[j]).0@ == u by {
            if !before.contains(u) {
                assert(entries@[i as int].0@ == u);
            }
        }
        i += 1;
    }
    let returned = back.difference(&members);
    assert(back@.difference(members@) =~= entry_urls(entries@).intersect(
        state@.trunc_urls,
    ).difference(members@));
    state.trunc_urls = members;
    Moves { evicted, returned }
}

/// A list of the known workers is a list of candidates for the truncation pool.
proof fn lemma_listed_candidates(
    entries: Seq<(String, Option<String>)>,
    known: Map<Seq<char>, crate::known::KnownView>,
)
    requires
        crate::known::lists_known(entries, known),
    ensures
        crate::partition::lists(
            crate::partition::candidates(entries, crate::partition::url_scores(entries)),
            crate::known::pins(known),
        ),
        entry_urls(entries) == known.dom(),
{
    let c = crate::partition::candidates(entries, crate::partition::url_scores(entries));
    let pins = crate::known::pins(known);
    assert forall|i: int, j: int|
        0 <= i < c.len() && 0 <= j < c.len() && i != j implies #[trigger] c[i].url
        != #[trigger] c[j].url by {
        assert(entries[i].0@ != entries[j].0@);
    }
    assert forall|u: Seq<char>| pins.contains_key(u) implies exists|i: int|
        0 <= i < c.len() && #[trigger] c[i].url == u by {
        let i = choose|i: int| 0 <= i < entries.len() && (#[trigger] entries[i]).0@ == u;
        assert(c[i].url == u);
    }
    assert(entry_urls(entries) =~= known.dom());
}

/// Whether `after` is `before` with a membership recomputed from the known workers.
pub open spec fn repartitioned(
    before: crate::state::ModelView,
    after: crate::state::ModelView,
    config: TruncationAwareConfig,
) -> bool {
    &&& after == crate::state::ModelView { trunc_urls: after.trunc_urls, ..before }
    &&& exists|c: Seq<crate::partition::Candidate>| #[trigger]
        crate::partition::lists(c, crate::known::pins(before.known)) && after.trunc_urls
            == crate::partition::trunc_set(c, clamped_k(before, config))
}

/// Recomputes the membership from the known workers and says which workers move. The order in
/// which the known workers are walked is left open; it plays no part where no two unpinned
/// workers have one score.
pub fn repartition(state: &mut ModelState, config: &TruncationAwareConfig) -> (moves: Moves)
    ensures
        repartitioned(old(state)@, final(state)@, *config),
        crate::partition::scores_differ(crate::known::pins(old(state)@.known)) ==> final(state)@.trunc_urls == crate::partition::pool_of(
            crate::known::pins(old(state)@.known),
            clamped_k(old(state)@, *config),
        ),
        moves.lead(
            old(state)@.known.dom(),
            old(state)@.trunc_urls,
            final(state)@.trunc_urls,
        ),
{
    let entries = state.known.entries();
    let limit = entries.len().saturating_sub(config.sticky_min);
    let k = if state.k < limit {
        state.k
    } else {
        limit
    };
    let members = compute_trunc_set(entries.as_slice(), k);
    proof {
        let known = state@.known;
        let c = crate::partition::candidates(
            entries@,
            crate::partition::url_scores(entries@),
        );
        crate::known::lemma_listed_len(entries@, known);
        lemma_listed_candidates(entries@, known);
        if crate::partition::scores_differ(crate::known::pins(known)) {
            crate::partition::law_order_plays_no_part(c, crate::known::pins(known), k as nat);
        }
    }
    apply_membership(state, entries.as_slice(), members)
}

/// What a tick did.
#[derive(Debug)]
pub struct TickReport {
    pub resize: ResizeReport,
    pub moves: Moves,
}

/// The second half of a tick: takes the share and the target computed for the closed window,
/// steps K, and recomputes the membership.
pub fn finish_tick(
    state: &mut ModelState,
    share: Option<u64>,
    target: usize,
    pressured: bool,
    config: &TruncationAwareConfig,
    now: u64,
) -> (report: TickReport)
    ensures
        report.resize == resize_report(old(state)@, target, pressured, *config, now),
        repartitioned(
            updated(old(state)@, share, target, pressured, *config, now),
            final(state)@,
            *config,
        ),
        crate::partition::scores_differ(crate::known::pins(old(state)@.known)) ==> final(state)@.trunc_urls == crate::partition::pool_of(
            crate::known::pins(old(state)@.known),
            clamped_k(
                updated(old(state)@, share, target, pressured, *config, now),
                *config,
            ),
        ),
        report.moves.lead(
            old(state)@.known.dom(),
            old(state)@.trunc_urls,
            final(state)@.trunc_urls,
        ),
{
    let resize = update_share_and_k(state, share, target, pressured, config, now);
    let moves = repartition(state, config);
    TickReport { resize, moves }
}

// ---- laws ----

/// How far `k` is from the goal.
pub open spec fn distance(k: nat, target: nat, n: nat, config: TruncationAwareConfig) -> nat {
    let goal = goal_k(target, n, config);
    if k < goal {
        (goal - k) as nat
    } else {
        (k - goal) as nat
    }
}

/// K after `ticks` steps under a steady target.
pub open spec fn k_after(
    k: nat,
    target: nat,
    n: nat,
    config: TruncationAwareConfig,
    ticks: nat,
) -> nat
    decreases ticks,
{
    if ticks == 0 {
        k
    } else {
        k_after(stepped_k(k, target, n, config), target, n, config, (ticks - 1) as nat)
    }
}

/// K steps by at most one. Outside the deadband each step brings it one closer to its goal;
/// within the deadband it holds.
pub proof fn law_k_steps_by_one(k: nat, target: nat, n: nat, config: TruncationAwareConfig)
    requires
        n > 0,
    ensures
        -1 <= stepped_k(k, target, n, config) - k <= 1,
        distance(k, target, n, config) <= config.deadband ==> stepped_k(k, target, n, config) == k,
        distance(k, target, n, config) > config.deadband ==> distance(
            stepped_k(k, target, n, config),
            target,
            n,
            config,
        ) == distance(k, target, n, config) - 1,
{
}

/// Under a steady target K converges: after as many steps as it is away from its goal it is
/// within the deadband, and stays there.
pub proof fn law_k_converges(
    k: nat,
    target: nat,
    n: nat,
    config: TruncationAwareConfig,
    ticks: nat,
)
    requires
        n > 0,
        distance(k, target, n, config) <= ticks + config.deadband,
    ensures
        distance(k_after(k, target, n, config, ticks), target, n, config) <= config.deadband,
        config.deadband == 0 ==> k_after(k, target, n, config, ticks) == goal_k(target, n, config),
    decreases ticks,
{
    if ticks > 0 {
        law_k_steps_by_one(k, target, n, config);
        law_k_converges(
            stepped_k(k, target, n, config),
            target,
            n,
            config,
            (ticks - 1) as nat,
        );
    }
}

/// After a tick K leaves the sticky pool its minimum, whatever the cooldown, and differs by at
/// most one from the K before as far as the capacity allowed that.
pub proof fn law_k_respects_capacity(
    state: crate::state::ModelView,
    share: Option<u64>,
    target: usize,
    pressured: bool,
    config: TruncationAwareConfig,
    now: u64,
)
    requires
        0 < state.known.len() <= usize::MAX,
    ensures
        updated(state, share, target, pressured, config, now).k <= config.k_limit(
            state.known.len(),
        ),
        -1 <= updated(state, share, target, pressured, config, now).k - clamped_k(state, config)
            <= 1,
{
}

/// Within the cooldown K takes no step, except that it may grow while the truncation pool is
/// pressured.
pub proof fn law_cooldown_holds_k(
    state: crate::state::ModelView,
    share: Option<u64>,
    target: usize,
    pressured: bool,
    config: TruncationAwareConfig,
    now: u64,
)
    requires
        0 < state.known.len() <= usize::MAX,
        in_cooldown(state, config, now),
    ensures
        !pressured ==> updated(state, share, target, pressured, config, now).k == clamped_k(
            state,
            config,
        ) && updated(state, share, target, pressured, config, now).last_resize_at
            == state.last_resize_at,
        updated(state, share, target, pressured, config, now).k >= clamped_k(state, config),
{
}

/// Steps of K are a cooldown apart: one taken within the cooldown of another is growth, and taken
/// because the truncation pool is pressured.
pub proof fn law_steps_are_a_cooldown_apart(
    state: crate::state::ModelView,
    share: Option<u64>,
    target: usize,
    pressured: bool,
    config: TruncationAwareConfig,
    now: u64,
    next: crate::state::ModelView,
    next_target: usize,
    next_pressured: bool,
    later: u64,
)
    requires
        0 < state.known.len() <= usize::MAX,
        steps(state, target, pressured, config, now),
        next.last_resize_at == updated(
            state,
            share,
            target,
            pressured,
            config,
            now,
        ).last_resize_at,
        steps(next, next_target, next_pressured, config, later),
        crate::config::within(now, later, config.cooldown_secs as int),
    ensures
        next_pressured,
        wanted_k(next, next_target, config) > clamped_k(next, config),
{
}

/// A clamp of K is no step: it neither waits for the cooldown nor starts one.
pub proof fn law_clamp_is_no_step(
    state: crate::state::ModelView,
    share: Option<u64>,
    target: usize,
    pressured: bool,
    config: TruncationAwareConfig,
    now: u64,
)
    requires
        0 < state.known.len() <= usize::MAX,
        !steps(state, target, pressured, config, now),
    ensures
        updated(state, share, target, pressured, config, now).k == clamped_k(state, config),
        updated(state, share, target, pressured, config, now).last_resize_at
            == state.last_resize_at,
{
}

/// A pressured truncation pool that is too small grows by one every tick, whatever the cooldown;
/// and without a cooldown every tick takes the step it wants.
pub proof fn law_pressured_pool_grows_every_tick(
    state: crate::state::ModelView,
    share: Option<u64>,
    target: usize,
    pressured: bool,
    config: TruncationAwareConfig,
    now: u64,
)
    requires
        0 < state.known.len() <= usize::MAX,
    ensures
        pressured && goal_k(target as nat, state.known.len(), config) > clamped_k(state, config)
            + config.deadband ==> updated(state, share, target, pressured, config, now).k
            == clamped_k(state, config) + 1,
        config.cooldown_secs == 0 ==> updated(state, share, target, pressured, config, now).k
            == wanted_k(state, target, config),
{
}

/// An idle tick keeps everything: the share, the known set, and, as long as K is where the share
/// wants it and the membership is the one for K, K and the membership. (The window's end is
/// recorded.)
pub proof fn law_idle_tick_keeps_everything(
    state: crate::state::ModelView,
    after: crate::state::ModelView,
    target: usize,
    pressured: bool,
    config: TruncationAwareConfig,
    now: u64,
)
    requires
        !had_traffic(state),
        state.known.len() <= usize::MAX,
        state.k <= config.k_limit(state.known.len()),
        distance(state.k as nat, target as nat, state.known.len(), config) <= config.deadband,
        crate::partition::scores_differ(crate::known::pins(state.known)),
        state.trunc_urls == crate::partition::pool_of(
            crate::known::pins(state.known),
            state.k as nat,
        ),
        repartitioned(
            updated(
                window_closed(pruned(state, config, now)),
                None,
                target,
                pressured,
                config,
                now,
            ),
            after,
            config,
        ),
    ensures
        share_step(state) == ShareStep::Hold,
        after == (crate::state::ModelView { prev_truncated: state.truncated_requests, ..state }),
{
    let mid = updated(
        window_closed(pruned(state, config, now)),
        None,
        target,
        pressured,
        config,
        now,
    );
    let pins = crate::known::pins(mid.known);
    let c = choose|c: Seq<crate::partition::Candidate>| #[trigger]
        crate::partition::lists(c, pins) && after.trunc_urls == crate::partition::trunc_set(
            c,
            clamped_k(mid, config),
        );
    crate::partition::law_order_plays_no_part(c, pins, clamped_k(mid, config));
}

/// A tick under traffic forgets exactly the workers not seen for the TTL.
pub proof fn law_traffic_prunes_stale_workers(
    state: crate::state::ModelView,
    config: TruncationAwareConfig,
    now: u64,
    url: Seq<char>,
)
    requires
        had_traffic(state),
        config.ttl_fits(),
    ensures
        pruned(state, config, now).known.contains_key(url) <==> state.known.contains_key(url)
            && crate::config::within(state.known[url].last_seen, now, config.ttl_secs()),
        pruned(state, config, now).known.contains_key(url) ==> pruned(state, config, now).known[url]
            == state.known[url],
{
}

/// After a tick the membership is the truncation pool of the known workers: their pins have no
/// more to say.
pub proof fn law_membership_is_the_pool(
    before: crate::state::ModelView,
    after: crate::state::ModelView,
    config: TruncationAwareConfig,
)
    requires
        repartitioned(before, after, config),
    ensures
        crate::inflight::trunc_workers(after) == after.trunc_urls,
{
    let pins = crate::known::pins(before.known);
    let k = clamped_k(before, config);
    let c = choose|c: Seq<crate::partition::Candidate>| #[trigger]
        crate::partition::lists(c, pins) && after.trunc_urls == crate::partition::trunc_set(c, k);
    assert forall|u: Seq<char>| after.trunc_urls.contains(u) implies #[trigger]
    crate::inflight::trunc_workers(after).contains(u) by {
        let i = choose|i: int|
            0 <= i < c.len() && #[trigger] c[i].url == u && crate::partition::joins(c, k, i);
        assert(pins.contains_key(c[i].url));
        crate::worker::lemma_pools_differ();
    }
    assert forall|u: Seq<char>|
        #[trigger] crate::inflight::trunc_workers(after).contains(
            u,
        ) implies after.trunc_urls.contains(u) by {
        assert(pins.contains_key(u));
        let i = choose|i: int| 0 <= i < c.len() && #[trigger] c[i].url == u;
        assert(pins[c[i].url] == c[i].pin);
        crate::partition::law_pins_win(c, k, i);
    }
    assert(crate::inflight::trunc_workers(after) =~= after.trunc_urls);
}

/// The known workers that are not pinned to the truncation pool.
pub open spec fn not_pinned_to_truncation(state: crate::state::ModelView) -> Set<Seq<char>> {
    state.known.dom().filter(
        |u: Seq<char>| !crate::worker::pins_truncation(state.known[u].pin),
    )
}

/// After a tick the sticky pool holds its minimum of workers, or, where fewer are not pinned to
/// the truncation pool, all of those.
pub proof fn law_sticky_pool_keeps_its_minimum(
    before: crate::state::ModelView,
    after: crate::state::ModelView,
    config: TruncationAwareConfig,
)
    requires
        repartitioned(before, after, config),
    ensures
        crate::inflight::sticky_workers(after).len() >= vstd::math::min(
            config.sticky_min as int,
            not_pinned_to_truncation(before).len() as int,
        ),
        not_pinned_to_truncation(before).len() <= config.sticky_min
            ==> crate::inflight::sticky_workers(after) == not_pinned_to_truncation(before),
{
    let pins = crate::known::pins(before.known);
    let k = clamped_k(before, config);
    let c = choose|c: Seq<crate::partition::Candidate>| #[trigger]
        crate::partition::lists(c, pins) && after.trunc_urls == crate::partition::trunc_set(c, k);
    law_membership_is_the_pool(before, after, config);
    crate::partition::law_pool_size(c, k);
    let pinned = before.known.dom().filter(
        |u: Seq<char>| crate::worker::pins_truncation(before.known[u].pin),
    );
    assert forall|u: Seq<char>| pinned.contains(u) implies crate::partition::pinned_urls(
        c,
    ).contains(u) by {
        assert(pins.contains_key(u));
        let i = choose|i: int| 0 <= i < c.len() && #[trigger] c[i].url == u;
        assert(pins[c[i].url] == c[i].pin);
    }
    assert forall|u: Seq<char>| crate::partition::pinned_urls(c).contains(
        u,
    ) implies pinned.contains(u) by {
        let i = choose|i: int|
            0 <= i < c.len() && #[trigger] c[i].url == u && crate::worker::pins_truncation(
                c[i].pin,
            );
        assert(pins.contains_key(c[i].url));
    }
    assert(pinned =~= crate::partition::pinned_urls(c));
    let known = after.known.dom();
    assert(known.finite()) by {
        let idx = vstd::set_lib::set_int_range(0, c.len() as int);
        let f = |i: int| c[i].url;
        vstd::set_lib::lemma_int_range(0, c.len() as int);
        idx.lemma_map_finite(f);
        assert forall|u: Seq<char>| known.contains(u) implies idx.map(f).contains(u) by {
            assert(pins.contains_key(u));
            let i = choose|i: int| 0 <= i < c.len() && #[trigger] c[i].url == u;
            assert(idx.contains(i) && f(i) == u);
        }
        vstd::set_lib::lemma_len_subset(known, idx.map(f));
    }
    let trunc = crate::inflight::trunc_workers(after);
    let sticky = crate::inflight::sticky_workers(after);
    vstd::set_lib::lemma_len_subset(trunc, known);
    vstd::set_lib::lemma_len_subset(sticky, known);
    vstd::set_lib::lemma_set_disjoint_lens(trunc, sticky);
    assert(trunc + sticky =~= known);
    let rest = not_pinned_to_truncation(before);
    vstd::set_lib::lemma_len_subset(pinned, known);
    vstd::set_lib::lemma_len_subset(rest, known);
    vstd::set_lib::lemma_set_disjoint_lens(pinned, rest);
    assert(pinned + rest =~= known);
    assert(pinned.subset_of(trunc)) by {
        assert forall|u: Seq<char>| pinned.contains(u) implies trunc.contains(u) by {
            assert(after.known[u].pin == before.known[u].pin);
        }
    }
    if rest.len() <= config.sticky_min {
        assert(sticky.subset_of(rest));
        vstd::set_lib::lemma_subset_equality(sticky, rest);
    }
}

/// The tenants of the sticky tree once the moves are carried out.
pub open spec fn tree_after(tree: Set<Seq<char>>, moves: Moves) -> Set<Seq<char>> {
    tree.difference(crate::url_set::texts(moves.evicted@)).union(
        crate::url_set::texts(moves.returned@),
    )
}

/// The moves keep the sticky tree in step with the membership: no member of the truncation pool
/// is in the tree, and every known worker of the sticky pool stays in it or comes back.
pub proof fn law_moves_keep_the_tree_in_step(
    tree: Set<Seq<char>>,
    moves: Moves,
    known: Set<Seq<char>>,
    before: Set<Seq<char>>,
    after: Set<Seq<char>>,
)
    requires
        moves.lead(known, before, after),
    ensures
        tree.disjoint(before) ==> tree_after(tree, moves).disjoint(after),
        known.difference(before).subset_of(tree) ==> known.difference(after).subset_of(
            tree_after(tree, moves),
        ),
{
}

// ---- laws in requests, workers and moments ----

/// What a window hands on is its own traffic, however much that is: the requests since the
/// previous tick, and how many of them were truncated. It hands nothing on exactly if no request
/// was added, is adopted exactly if there is no share yet, and is otherwise blended into the share
/// there is. (A counter that went back counts as no traffic.)
pub proof fn law_a_window_hands_on_its_traffic(state: crate::state::ModelView)
    ensures
        share_step(state) is Hold <==> state.total_requests <= state.prev_total,
        state.total_requests > state.prev_total ==> (share_step(state) is Adopt
            <==> state.ewma_share is None),
        state.total_requests > state.prev_total ==> (share_step(state) is Blend
            <==> state.ewma_share is Some),
        share_step(state) matches ShareStep::Adopt { truncated, total } ==> {
            &&& total > 0
            &&& state.prev_total + total == state.total_requests
            &&& state.prev_truncated <= state.truncated_requests ==> state.prev_truncated
                + truncated == state.truncated_requests
            &&& state.prev_truncated > state.truncated_requests ==> truncated == 0
        },
        share_step(state) matches ShareStep::Blend { prev, truncated, total } ==> {
            &&& state.ewma_share == Some(prev)
            &&& total > 0
            &&& state.prev_total + total == state.total_requests
            &&& state.prev_truncated <= state.truncated_requests ==> state.prev_truncated
                + truncated == state.truncated_requests
            &&& state.prev_truncated > state.truncated_requests ==> truncated == 0
        },
{
}

/// Windows follow on one another: closing one takes the present counters as the start of the next
/// and changes nothing else, so that without further requests the next one is empty.
pub proof fn law_windows_follow_on_one_another(state: crate::state::ModelView)
    ensures
        window_closed(state).prev_total == state.total_requests,
        window_closed(state).prev_truncated == state.truncated_requests,
        window_closed(state).total_requests == state.total_requests,
        window_closed(state).truncated_requests == state.truncated_requests,
        window_closed(state).ewma_share == state.ewma_share,
        window_closed(state).k == state.k,
        window_closed(state).last_resize_at == state.last_resize_at,
        window_closed(state).known == state.known,
        window_closed(state).trunc_urls == state.trunc_urls,
        share_step(window_closed(state)) is Hold,
        had_traffic(state) <==> state.total_requests != state.prev_total,
        !had_traffic(window_closed(state)),
{
}

/// The prune of a tick, in nanoseconds: after requests a worker stays known exactly if it was seen
/// less than ninety seconds ago, or less than three ticks ago; without requests every worker
/// stays. Nothing but the known workers changes.
pub proof fn law_the_prune_goes_by_age(
    state: crate::state::ModelView,
    config: TruncationAwareConfig,
    now: u64,
    url: Seq<char>,
)
    requires
        3 * config.tick_secs <= u64::MAX,
    ensures
        state.total_requests == state.prev_total ==> pruned(state, config, now) == state,
        state.total_requests != state.prev_total ==> (pruned(state, config, now).known.contains_key(
            url,
        ) <==> state.known.contains_key(url) && (now < state.known[url].last_seen + 90_000_000_000
            || now < state.known[url].last_seen + 3 * config.tick_secs * 1_000_000_000)),
        pruned(state, config, now).known.contains_key(url) ==> pruned(state, config, now).known[url]
            == state.known[url],
        pruned(state, config, now) == (crate::state::ModelView {
            known: pruned(state, config, now).known,
            ..state
        }),
{
}

/// When K steps, in numbers of workers: up exactly if it is more than the deadband below both the
/// target and what `sticky_min` leaves of `n`, down exactly if it is more than the deadband above
/// one of the two, and otherwise not at all.
pub proof fn law_when_k_steps(k: nat, target: nat, n: nat, config: TruncationAwareConfig)
    ensures
        stepped_k(k, target, n, config) == k + 1 <==> k + config.deadband < target && k
            + config.deadband + config.sticky_min < n,
        stepped_k(k, target, n, config) == k - 1 <==> n > 0 && k > config.deadband && (k > target
            + config.deadband || k + config.sticky_min > n + config.deadband),
        stepped_k(k, target, n, config) == k + 1 || stepped_k(k, target, n, config) == k - 1
            || stepped_k(k, target, n, config) == k,
{
}

/// Where K ends up under a steady target without a deadband: at the target if that leaves
/// `sticky_min` of the `n` workers, else at what `sticky_min` leaves, and at zero if it leaves
/// none. It gets there within as many ticks as K or the target, whichever is greater.
pub proof fn law_k_ends_up_at_the_target(
    k: nat,
    target: nat,
    n: nat,
    config: TruncationAwareConfig,
    ticks: nat,
)
    requires
        n > 0,
        config.deadband == 0,
        ticks >= k,
        ticks >= target,
    ensures
        target + config.sticky_min <= n ==> k_after(k, target, n, config, ticks) == target,
        target + config.sticky_min >= n && n >= config.sticky_min ==> k_after(
            k,
            target,
            n,
            config,
            ticks,
        ) + config.sticky_min == n,
        n < config.sticky_min ==> k_after(k, target, n, config, ticks) == 0,
        k_after(k, target, n, config, 0) == k,
        ticks > 0 ==> k_after(k, target, n, config, ticks) == k_after(
            stepped_k(k, target, n, config),
            target,
            n,
            config,
            (ticks - 1) as nat,
        ),
{
    law_k_converges(k, target, n, config, ticks);
}

/// The cooldown lasts `cooldown_secs` billion nanoseconds from the moment of the last step.
pub proof fn law_the_cooldown_runs_from_the_last_step(
    state: crate::state::ModelView,
    config: TruncationAwareConfig,
    now: u64,
)
    ensures
        state.last_resize_at is None ==> !in_cooldown(state, config, now),
        state.last_resize_at matches Some(at) ==> (in_cooldown(state, config, now)
            <==> config.cooldown_secs > 0 && now < at + config.cooldown_secs * 1_000_000_000),
{
}

/// K is cut to what `sticky_min` leaves of the known workers, and only where it is more than that.
pub proof fn law_k_is_cut_to_the_capacity(
    state: crate::state::ModelView,
    config: TruncationAwareConfig,
)
    ensures
        state.k + config.sticky_min <= state.known.len() ==> clamped_k(state, config) == state.k,
        state.k + config.sticky_min >= state.known.len() && state.known.len() >= config.sticky_min
            ==> clamped_k(state, config) + config.sticky_min == state.known.len(),
        state.known.len() <= config.sticky_min ==> clamped_k(state, config) == 0,
{
}

/// What a tick does to K and the share. K is first cut to the capacity, then takes the step it
/// wants, unless the cooldown holds it, which it does except for growth of a pressured pool. A
/// step is noted with its moment and reported with where it led from and to; so is a cut. Without
/// known workers K stays as it is. A new share replaces the old one; nothing else changes.
pub proof fn law_what_a_tick_does_to_k(
    state: crate::state::ModelView,
    share: Option<u64>,
    target: usize,
    pressured: bool,
    config: TruncationAwareConfig,
    now: u64,
)
    requires
        state.known.len() <= usize::MAX,
    ensures
        ({
            let after = updated(state, share, target, pressured, config, now);
            let report = resize_report(state, target, pressured, config, now);
            let n = state.known.len();
            let cut = clamped_k(state, config);
            let next = stepped_k(cut, target as nat, n, config);
            let cooling = in_cooldown(state, config, now);
            let held = next == cut || (cooling && !(pressured && next > cut));
            &&& share is Some ==> after.ewma_share == share
            &&& share is None ==> after.ewma_share == state.ewma_share
            &&& n == 0 ==> after.k == state.k && after.last_resize_at == state.last_resize_at
                && report.clamped is None && report.resized is None
            &&& n > 0 && held ==> after.k == cut && after.last_resize_at == state.last_resize_at
                && report.resized is None
            &&& n > 0 && !held ==> after.k == next && after.last_resize_at == Some(now)
                && report.resized == Some(
                (Resize { from: cut as usize, to: next as usize, pressure_bypass: cooling }),
            )
            &&& n > 0 && cut == state.k ==> report.clamped is None
            &&& n > 0 && cut != state.k ==> report.clamped == Some((state.k, cut as usize))
            &&& after.total_requests == state.total_requests
            &&& after.truncated_requests == state.truncated_requests
            &&& after.prev_total == state.prev_total
            &&& after.prev_truncated == state.prev_truncated
            &&& after.known == state.known
            &&& after.trunc_urls == state.trunc_urls
        }),
{
}

/// Whether a known worker's pin leaves it to its score.
pub open spec fn free_pin(pin: Option<Seq<char>>) -> bool {
    pin != Some("truncation"@) && pin != Some("sticky"@)
}

/// Who is in the truncation pool after a tick: known workers only; all those pinned to it and none
/// pinned to the sticky pool; and of two unpinned ones the one whose whole URL hashes higher
/// whenever the other is. Nothing but the membership changes.
pub proof fn law_who_is_in_the_pool_after_a_tick(
    before: crate::state::ModelView,
    after: crate::state::ModelView,
    config: TruncationAwareConfig,
    u: Seq<char>,
    v: Seq<char>,
)
    requires
        repartitioned(before, after, config),
    ensures
        after.trunc_urls.contains(u) ==> before.known.contains_key(u),
        before.known.contains_key(u) && before.known[u].pin == Some("truncation"@)
            ==> after.trunc_urls.contains(u),
        before.known.contains_key(u) && before.known[u].pin == Some("sticky"@)
            ==> !after.trunc_urls.contains(u),
        before.known.contains_key(u) && before.known.contains_key(v) && free_pin(
            before.known[u].pin,
        ) && free_pin(before.known[v].pin) && crate::partition::whole_hash(u)
            > crate::partition::whole_hash(v) && after.trunc_urls.contains(v)
            ==> after.trunc_urls.contains(u),
        after.total_requests == before.total_requests,
        after.truncated_requests == before.truncated_requests,
        after.prev_total == before.prev_total,
        after.prev_truncated == before.prev_truncated,
        after.ewma_share == before.ewma_share,
        after.k == before.k,
        after.last_resize_at == before.last_resize_at,
        after.known == before.known,
{
    let pins = crate::known::pins(before.known);
    let k = clamped_k(before, config);
    let c = choose|c: Seq<crate::partition::Candidate>| #[trigger]
        crate::partition::lists(c, pins) && after.trunc_urls == crate::partition::trunc_set(c, k);
    crate::worker::lemma_pools_differ();
    if after.trunc_urls.contains(u) {
        let i = choose|i: int|
            0 <= i < c.len() && #[trigger] c[i].url == u && crate::partition::joins(c, k, i);
        assert(pins.contains_key(c[i].url));
    }
    if before.known.contains_key(u) {
        assert(pins.contains_key(u));
        let i = choose|i: int| 0 <= i < c.len() && #[trigger] c[i].url == u;
        assert(pins[c[i].url] == c[i].pin);
        crate::partition::law_pins_win(c, k, i);
        if before.known.contains_key(v) && free_pin(before.known[u].pin) && free_pin(
            before.known[v].pin,
        ) && crate::partition::whole_hash(u) > crate::partition::whole_hash(v)
            && after.trunc_urls.contains(v) {
            let j = choose|j: int|
                0 <= j < c.len() && #[trigger] c[j].url == v && crate::partition::joins(c, k, j);
            assert(pins[c[j].url] == c[j].pin);
            crate::partition::lemma_rank_order(c, i, j);
            assert(crate::partition::joins(c, k, i));
        }
    }
}

/// How large the truncation pool is after a tick: as large as K, cut to what `sticky_min` leaves
/// of the known workers, wants it; but no smaller than the workers pinned to it, and no larger
/// than those and the unpinned ones together.
pub proof fn law_how_large_the_pool_is_after_a_tick(
    before: crate::state::ModelView,
    after: crate::state::ModelView,
    config: TruncationAwareConfig,
)
    requires
        repartitioned(before, after, config),
    ensures
        ({
            let pinned = before.known.dom().filter(
                |u: Seq<char>| before.known[u].pin == Some("truncation"@),
            ).len();
            let free = before.known.dom().filter(|u: Seq<char>| free_pin(before.known[u].pin)).len();
            let k = clamped_k(before, config);
            &&& k <= pinned ==> after.trunc_urls.len() == pinned
            &&& pinned <= k <= pinned + free ==> after.trunc_urls.len() == k
            &&& pinned + free <= k ==> after.trunc_urls.len() == pinned + free
        }),
{
    let pins = crate::known::pins(before.known);
    let k = clamped_k(before, config);
    let c = choose|c: Seq<crate::partition::Candidate>| #[trigger]
        crate::partition::lists(c, pins) && after.trunc_urls == crate::partition::trunc_set(c, k);
    crate::partition::law_pool_size(c, k);
    let pinned = before.known.dom().filter(
        |u: Seq<char>| before.known[u].pin == Some("truncation"@),
    );
    assert forall|u: Seq<char>| pinned.contains(u) implies crate::partition::pinned_urls(
        c,
    ).contains(u) by {
        assert(pins.contains_key(u));
        let i = choose|i: int| 0 <= i < c.len() && #[trigger] c[i].url == u;
        assert(pins[c[i].url] == c[i].pin);
    }
    assert forall|u: Seq<char>| crate::partition::pinned_urls(c).contains(
        u,
    ) implies pinned.contains(u) by {
        let i = choose|i: int|
            0 <= i < c.len() && #[trigger] c[i].url == u && crate::worker::pins_truncation(
                c[i].pin,
            );
        assert(pins.contains_key(c[i].url));
    }
    assert(pinned =~= crate::partition::pinned_urls(c));
    let free = before.known.dom().filter(|u: Seq<char>| free_pin(before.known[u].pin));
    let places = crate::partition::floating(c);
    let f = |i: int| c[i].url;
    assert forall|u: Seq<char>| free.contains(u) implies places.map(f).contains(u) by {
        assert(pins.contains_key(u));
        let i = choose|i: int| 0 <= i < c.len() && #[trigger] c[i].url == u;
        assert(pins[c[i].url] == c[i].pin);
        assert(places.contains(i) && f(i) == u);
    }
    assert forall|u: Seq<char>| places.map(f).contains(u) implies free.contains(u) by {
        let i = choose|i: int| places.contains(i) && f(i) == u;
        assert(pins.contains_key(c[i].url));
    }
    assert(places.map(f) =~= free);
    vstd::set_lib::lemma_int_range(0, c.len() as int);
    vstd::set_lib::lemma_len_subset(places, vstd::set_lib::set_int_range(0, c.len() as int));
    assert(vstd::relations::injective_on(f, places)) by {
        assert forall|a: int, b: int|
            places.contains(a) && places.contains(b) && #[trigger] f(a) == #[trigger] f(
                b,
            ) implies a == b by {
            assert(c[a].url == c[b].url);
        }
    }
    vstd::set_lib::lemma_map_size(places, free, f);
}

/// Each move is one change of membership: the evicted workers are those that joined the truncation
/// pool, the returned ones those known workers that left it, and each is named once.
pub proof fn law_each_move_is_a_change_of_membership(
    moves: Moves,
    known: Set<Seq<char>>,
    before: Set<Seq<char>>,
    after: Set<Seq<char>>,
    u: Seq<char>,
)
    requires
        moves.lead(known, before, after),
    ensures
        (exists|i: int| 0 <= i < moves.evicted@.len() && moves.evicted@[i]@ == u)
            <==> after.contains(u) && !before.contains(u),
        (exists|i: int| 0 <= i < moves.returned@.len() && moves.returned@[i]@ == u)
            <==> known.contains(u) && before.contains(u) && !after.contains(u),
        forall|i: int, j: int|
            0 <= i < j < moves.evicted@.len() ==> moves.evicted@[i]@ != moves.evicted@[j]@,
        forall|i: int, j: int|
            0 <= i < j < moves.returned@.len() ==> moves.returned@[i]@ != moves.returned@[j]@,
{
    crate::url_set::law_texts_stand_in_the_list(moves.evicted@, u);
    crate::url_set::law_texts_stand_in_the_list(moves.returned@, u);
    assert(after.difference(before).contains(u) <==> after.contains(u) && !before.contains(u));
    assert(known.intersect(before).difference(after).contains(u) <==> known.contains(u)
        && before.contains(u) && !after.contains(u));
}

/// The URLs of listed workers are those that stand in the list.
pub proof fn law_listed_urls_stand_in_the_list(
    entries: Seq<(String, Option<String>)>,
    u: Seq<char>,
)
    ensures
        entry_urls(entries).contains(u) <==> exists|i: int|
            0 <= i < entries.len() && (#[trigger] entries[i]).0@ == u,
{
}

} // verus!
