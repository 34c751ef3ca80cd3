//! Routing of one request over a list of workers.

use crate::url_set::UrlSet;
use crate::worker::{is_trunc_member, Worker};
use vstd::prelude::*;

verus! {

/// Where a request goes. An index is one into the list of workers that was routed over.
#[derive(Debug, PartialEq, Eq)]
pub enum Route {
    /// A truncated request goes to this member of the truncation pool.
    TruncPool(usize),
    /// A truncated request goes to this worker, for want of a healthy member of the truncation
    /// pool.
    FallbackAll(usize),
    /// Another request goes to this member of the truncation pool, for want of a healthy worker
    /// in the sticky pool.
    StickySpill(usize),
    /// The sticky policy picks among these workers, the healthy ones of the sticky pool.
    Sticky(Vec<usize>),
}

/// Whether worker `i` is healthy.
pub open spec fn healthy(ws: Seq<Worker>, i: int) -> bool {
    0 <= i < ws.len() && ws[i].healthy
}

/// Whether worker `i` is a healthy one of the truncation pool.
pub open spec fn healthy_trunc(ws: Seq<Worker>, members: Set<Seq<char>>, i: int) -> bool {
    healthy(ws, i) && ws[i].is_trunc(members)
}

/// Whether worker `i` is a healthy one of the sticky pool.
pub open spec fn healthy_sticky(ws: Seq<Worker>, members: Set<Seq<char>>, i: int) -> bool {
    healthy(ws, i) && !ws[i].is_trunc(members)
}

/// Whether `idx` lists, in ascending order, exactly the numbers that are `wanted`.
pub open spec fn selects(idx: Seq<usize>, wanted: spec_fn(int) -> bool) -> bool {
    &&& forall|a: int, b: int| 0 <= a < b < idx.len() ==> idx[a] < idx[b]
    &&& forall|a: int| 0 <= a < idx.len() ==> wanted(#[trigger] idx[a] as int)
    &&& forall|i: int|
        #[trigger] wanted(i) ==> exists|a: int| 0 <= a < idx.len() && #[trigger] idx[a] == i
}

/// Whether worker `i` is the one with the least load among those `wanted`, and of several the
/// first.
pub open spec fn is_min_load(ws: Seq<Worker>, wanted: spec_fn(int) -> bool, i: int) -> bool {
    &&& wanted(i)
    &&& forall|j: int| #[trigger] wanted(j) ==> ws[i].load <= ws[j].load
    &&& forall|j: int| #[trigger] wanted(j) && j < i ==> ws[i].load < ws[j].load
}

/// Whether `route` is where a request goes under the membership `members`.
pub open spec fn routes(
    ws: Seq<Worker>,
    members: Set<Seq<char>>,
    truncated: bool,
    route: Option<Route>,
) -> bool {
    match route {
        None => forall|i: int| !healthy(ws, i),
        Some(Route::TruncPool(i)) => truncated && is_min_load(
            ws,
            |j: int| healthy_trunc(ws, members, j),
            i as int,
        ),
        Some(Route::FallbackAll(i)) => {
            &&& truncated
            &&& forall|j: int| !healthy_trunc(ws, members, j)
            &&& is_min_load(ws, |j: int| healthy(ws, j), i as int)
        },
        Some(Route::StickySpill(i)) => {
            &&& !truncated
            &&& forall|j: int| !healthy_sticky(ws, members, j)
            &&& is_min_load(ws, |j: int| healthy_trunc(ws, members, j), i as int)
        },
        Some(Route::Sticky(idx)) => {
            &&& !truncated
            &&& idx@.len() > 0
            &&& selects(idx@, |j: int| healthy_sticky(ws, members, j))
        },
    }
}

/// Whether `idx` lists, in ascending order, exactly the numbers below `end` that are `wanted`.
spec fn selects_below(idx: Seq<usize>, wanted: spec_fn(int) -> bool, end: int) -> bool {
    selects(idx, |j: int| wanted(j) && j < end)
}

/// A list of the wanted numbers below `i` becomes one of those below `i + 1`.
proof fn lemma_selects_next(idx: Seq<usize>, wanted: spec_fn(int) -> bool, i: usize)
    requires
        selects_below(idx, wanted, i as int),
    ensures
        selects_below(
            if wanted(i as int) {
                idx.push(i)
            } else {
                idx
            },
            wanted,
            i + 1,
        ),
{
    let below = |j: int| wanted(j) && j < i;
    let upto = |j: int| wanted(j) && j < i + 1;
    let longer = if wanted(i as int) {
        idx.push(i)
    } else {
        idx
    };
    assert forall|a: int| 0 <= a < idx.len() implies #[trigger] idx[a] < i by {
        assert(below(idx[a] as int));
    }
    assert forall|j: int| #[trigger] upto(j) implies exists|a: int|
        0 <= a < longer.len() && #[trigger] longer[a] == j by {
        if j < i {
            assert(below(j));
            let a = choose|a: int| 0 <= a < idx.len() && #[trigger] idx[a] == j;
            assert(longer[a] == j);
        } else {
            assert(longer[idx.len() as int] == j);
        }
    }
    assert forall|a: int| 0 <= a < longer.len() implies upto(#[trigger] longer[a] as int) by {
        if a < idx.len() {
            assert(below(idx[a] as int));
        }
    }
    assert(selects(longer, upto));
}

/// The indices of the healthy workers, in ascending order.
pub fn healthy_indices(workers: &[Worker]) -> (idx: Vec<usize>)
    ensures
        selects(idx@, |i: int| healthy(workers@, i)),
{
    let ghost wanted = |j: int| healthy(workers@, j);
    let mut idx: Vec<usize> = Vec::new();
    let mut i: usize = 0;
    while i < workers.len()
        invariant
            i <= workers@.len(),
            wanted == (|j: int| healthy(workers@, j)),
            selects_below(idx@, wanted, i as int),
        decreases workers@.len() - i,
    {
        proof {
            lemma_selects_next(idx@, wanted, i);
        }
        if workers[i].healthy {
            idx.push(i);
        }
        i += 1;
    }
    assert((|j: int| wanted(j) && j < i) =~= wanted);
    idx
}

/// The indices of the healthy workers in the sticky pool, and of those in the truncation pool.
pub fn split_pools(workers: &[Worker], trunc_urls: &UrlSet) -> (pools: (Vec<usize>, Vec<usize>))
    ensures
        selects(pools.0@, |i: int| healthy_sticky(workers@, trunc_urls@, i)),
        selects(pools.1@, |i: int| healthy_trunc(workers@, trunc_urls@, i)),
{
    let ghost in_sticky = |j: int| healthy_sticky(workers@, trunc_urls@, j);
    let ghost in_trunc = |j: int| healthy_trunc(workers@, trunc_urls@, j);
    let mut sticky: Vec<usize> = Vec::new();
    let mut trunc: Vec<usize> = Vec::new();
    let mut i: usize = 0;
    while i < workers.len()
        invariant
            i <= workers@.len(),
            in_sticky == (|j: int| healthy_sticky(workers@, trunc_urls@, j)),
            in_trunc == (|j: int| healthy_trunc(workers@, trunc_urls@, j)),
            selects_below(sticky@, in_sticky, i as int),
            selects_below(trunc@, in_trunc, i as int),
        decreases workers@.len() - i,
    {
        proof {
            lemma_selects_next(sticky@, in_sticky, i);
            lemma_selects_next(trunc@, in_trunc, i);
        }
        if workers[i].healthy {
            if is_trunc_member(&workers[i], trunc_urls) {
                trunc.push(i);
            } else {
                sticky.push(i);
            }
        }
        i += 1;
    }
    assert((|j: int| in_sticky(j) && j < i) =~= in_sticky);
    assert((|j: int| in_trunc(j) && j < i) =~= in_trunc);
    (sticky, trunc)
}

/// Min in-flight load selection within a subset of indices.
pub fn select_min_load(workers: &[Worker], subset: &[usize]) -> (pick: Option<usize>)
    requires
        forall|a: int| 0 <= a < subset@.len() ==> (#[trigger] subset@[a]) < workers@.len(),
    ensures
        pick is None <==> subset@.len() == 0,
        pick matches Some(i) ==> exists|a: int|
            0 <= a < subset@.len() && #[trigger] subset@[a] == i && (forall|b: int|
                0 <= b < subset@.len() ==> workers@[i as int].load
                    <= workers@[#[trigger] subset@[b] as int].load) && (forall|b: int|
                0 <= b < a ==> workers@[i as int].load
                    < workers@[#[trigger] subset@[b] as int].load),
{
    if subset.len() == 0 {
        return None;
    }
    let mut best: usize = 0;
    let mut n: usize = 1;
    while n < subset.len()
        invariant
            best < n <= subset@.len(),
            forall|a: int| 0 <= a < subset@.len() ==> (#[trigger] subset@[a]) < workers@.len(),
            forall|b: int|
                0 <= b < n ==> workers@[subset@[best as int] as int].load
                    <= workers@[#[trigger] subset@[b] as int].load,
            forall|b: int|
                0 <= b < best ==> workers@[subset@[best as int] as int].load
                    < workers@[#[trigger] subset@[b] as int].load,
        decreases subset@.len() - n,
    {
        if workers[subset[n]].load < workers[subset[best]].load {
            best = n;
        }
        n += 1;
    }
    Some(subset[best])
}

/// The least-loaded worker of a selection is the first with the least load among those wanted.
proof fn lemma_min_load(ws: Seq<Worker>, idx: Seq<usize>, wanted: spec_fn(int) -> bool, a: int)
    requires
        selects(idx, wanted),
        0 <= a < idx.len(),
        forall|b: int|
            0 <= b < idx.len() ==> ws[idx[a] as int].load <= ws[#[trigger] idx[b] as int].load,
        forall|b: int| 0 <= b < a ==> ws[idx[a] as int].load < ws[#[trigger] idx[b] as int].load,
    ensures
        is_min_load(ws, wanted, idx[a] as int),
{
    assert forall|j: int| #[trigger] wanted(j) implies ws[idx[a] as int].load <= ws[j].load && (j
        < idx[a] ==> ws[idx[a] as int].load < ws[j].load) by {
        let b = choose|b: int| 0 <= b < idx.len() && #[trigger] idx[b] == j;
        if j < idx[a] {
            assert(b < a);
        }
    }
}

/// The least-loaded worker of a selection, which is not empty.
fn pick_min_load(workers: &[Worker], subset: &[usize], wanted: Ghost<spec_fn(int) -> bool>) -> (i:
    usize)
    requires
        subset@.len() > 0,
        selects(subset@, wanted@),
        forall|j: int| #[trigger] wanted@(j) ==> healthy(workers@, j),
    ensures
        is_min_load(workers@, wanted@, i as int),
{
    proof {
        assert forall|a: int| 0 <= a < subset@.len() implies (#[trigger] subset@[a])
            < workers@.len() by {
            assert(wanted@(subset@[a] as int));
        }
    }
    match select_min_load(workers, subset) {
        Some(i) => {
            proof {
                let a = choose|a: int|
                    0 <= a < subset@.len() && #[trigger] subset@[a] == i && (forall|b: int|
                        0 <= b < subset@.len() ==> workers@[i as int].load
                            <= workers@[#[trigger] subset@[b] as int].load) && (forall|b: int|
                        0 <= b < a ==> workers@[i as int].load
                            < workers@[#[trigger] subset@[b] as int].load);
                lemma_min_load(workers@, subset@, wanted@, a);
            }
            i
        },
        None => 0,
    }
}

/// Where a request goes under the membership `trunc_urls`; `None` if no worker is healthy.
pub fn route(workers: &[Worker], trunc_urls: &UrlSet, truncated: bool) -> (route: Option<Route>)
    ensures
        routes(workers@, trunc_urls@, truncated, route),
{
    let ghost ws = workers@;
    let ghost members = trunc_urls@;
    let all = healthy_indices(workers);
    let ghost any = |j: int| healthy(ws, j);
    if all.len() == 0 {
        assert forall|i: int| !healthy(ws, i) by {
            if healthy(ws, i) {
                assert(any(i));
            }
        }
        return None;
    }
    let (sticky, trunc) = split_pools(workers, trunc_urls);
    let ghost in_trunc = |j: int| healthy_trunc(ws, members, j);
    let ghost in_sticky = |j: int| healthy_sticky(ws, members, j);
    if truncated {
        if trunc.len() > 0 {
            return Some(
                Route::TruncPool(pick_min_load(workers, trunc.as_slice(), Ghost(in_trunc))),
            );
        }
        assert forall|j: int| !healthy_trunc(ws, members, j) by {
            if healthy_trunc(ws, members, j) {
                assert(in_trunc(j));
            }
        }
        return Some(Route::FallbackAll(pick_min_load(workers, all.as_slice(), Ghost(any))));
    }
    if sticky.len() == 0 {
        proof {
            assert forall|j: int| !healthy_sticky(ws, members, j) by {
                if healthy_sticky(ws, members, j) {
                    assert(in_sticky(j));
                }
            }
            let first = all@[0] as int;
            assert(any(first));
            assert(healthy_trunc(ws, members, first) || healthy_sticky(ws, members, first));
            assert(in_trunc(first));
        }
        return Some(
            Route::StickySpill(pick_min_load(workers, trunc.as_slice(), Ghost(in_trunc))),
        );
    }
    Some(Route::Sticky(sticky))
}

/// The worker that the sticky policy picked: `picked` is its place in `subset`, if it picked one.
pub fn resolve_sticky(subset: &[usize], picked: Option<usize>) -> (worker: Option<usize>)
    requires
        picked matches Some(n) ==> n < subset@.len(),
    ensures
        worker == (match picked {
            Some(n) => Some(subset@[n as int]),
            None => None,
        }),
{
    match picked {
        Some(n) => Some(subset[n]),
        None => None,
    }
}

// ---- laws ----

impl Route {
    /// Whether the request may end up at worker `i`.
    pub open spec fn reaches(&self, i: int) -> bool {
        match *self {
            Route::TruncPool(j) => i == j,
            Route::FallbackAll(j) => i == j,
            Route::StickySpill(j) => i == j,
            Route::Sticky(idx) => exists|a: int| 0 <= a < idx@.len() && #[trigger] idx@[a] == i,
        }
    }
}

/// A request ends up at a healthy worker, or nowhere if none is healthy.
pub proof fn law_only_healthy_workers_are_reached(
    ws: Seq<Worker>,
    members: Set<Seq<char>>,
    truncated: bool,
    route: Option<Route>,
    i: int,
)
    requires
        routes(ws, members, truncated, route),
    ensures
        route matches Some(r) ==> (r.reaches(i) ==> healthy(ws, i)),
        route is None <==> forall|j: int| !healthy(ws, j),
{
    if let Some(r) = route {
        match r {
            Route::Sticky(idx) => {
                let in_sticky = |j: int| healthy_sticky(ws, members, j);
                assert(in_sticky(idx@[0] as int));
                assert(healthy(ws, idx@[0] as int));
                if r.reaches(i) {
                    let a = choose|a: int| 0 <= a < idx@.len() && #[trigger] idx@[a] == i;
                    assert(in_sticky(idx@[a] as int));
                }
            },
            Route::TruncPool(j) => {
                assert(healthy(ws, j as int));
            },
            Route::FallbackAll(j) => {
                assert(healthy(ws, j as int));
            },
            Route::StickySpill(j) => {
                assert(healthy(ws, j as int));
            },
        }
    }
}

/// A truncated request never goes through the sticky policy, so that it is never inserted into
/// the sticky tree; and it stays in the truncation pool while that has a healthy member.
pub proof fn law_truncated_requests_stay_out_of_the_tree(
    ws: Seq<Worker>,
    members: Set<Seq<char>>,
    route: Option<Route>,
    i: int,
)
    requires
        routes(ws, members, true, route),
    ensures
        route matches Some(r) ==> !(r is Sticky),
        (exists|j: int| healthy_trunc(ws, members, j)) ==> route is Some && (route->0.reaches(i)
            ==> healthy_trunc(ws, members, i)),
{
    if exists|j: int| healthy_trunc(ws, members, j) {
        let j = choose|j: int| healthy_trunc(ws, members, j);
        assert(healthy(ws, j));
    }
}

/// Any other request stays in the sticky pool, and goes through the sticky policy, while that
/// pool has a healthy worker.
pub proof fn law_other_requests_stay_sticky(
    ws: Seq<Worker>,
    members: Set<Seq<char>>,
    route: Option<Route>,
    i: int,
)
    requires
        routes(ws, members, false, route),
        exists|j: int| healthy_sticky(ws, members, j),
    ensures
        route matches Some(r) && r is Sticky && (r.reaches(i) <==> healthy_sticky(ws, members, i)),
{
    let j = choose|j: int| healthy_sticky(ws, members, j);
    assert(healthy(ws, j));
    let in_sticky = |m: int| healthy_sticky(ws, members, m);
    if let Some(Route::Sticky(idx)) = route {
        if healthy_sticky(ws, members, i) {
            assert(in_sticky(i));
        }
        if route->0.reaches(i) {
            let a = choose|a: int| 0 <= a < idx@.len() && #[trigger] idx@[a] == i;
            assert(in_sticky(idx@[a] as int));
        }
    }
}

/// Whether two lists hold the same workers, except that members of the truncation pool may
/// differ in their health; loads play no part.
pub open spec fn differ_in_trunc_health(
    ws: Seq<Worker>,
    other: Seq<Worker>,
    members: Set<Seq<char>>,
) -> bool {
    &&& ws.len() == other.len()
    &&& forall|i: int|
        0 <= i < ws.len() ==> (#[trigger] ws[i]).url@ == (#[trigger] other[i]).url@ && ws[i].pin()
            == other[i].pin() && (ws[i].is_trunc(members) || ws[i].healthy == other[i].healthy)
}

/// The workers that the sticky policy is to pick from, if the request goes to it.
pub open spec fn sticky_list(route: Option<Route>) -> Option<Seq<usize>> {
    match route {
        Some(Route::Sticky(idx)) => Some(idx@),
        _ => None,
    }
}

/// What is wanted but for `top`.
spec fn all_but(wanted: spec_fn(int) -> bool, top: int) -> spec_fn(int) -> bool {
    |i: int| wanted(i) && i != top
}

/// Two ascending lists of the same numbers are one and the same.
proof fn lemma_selection_unique(a: Seq<usize>, b: Seq<usize>, wanted: spec_fn(int) -> bool)
    requires
        selects(a, wanted),
        selects(b, wanted),
    ensures
        a == b,
    decreases a.len(),
{
    if a.len() == 0 {
        if b.len() > 0 {
            assert(wanted(b[0] as int));
        }
    } else {
        let top = a.last() as int;
        assert(wanted(top));
        assert(wanted(b.last() as int));
        assert(b.last() == top);
        lemma_selection_drop_last(a, wanted);
        lemma_selection_drop_last(b, wanted);
        lemma_selection_unique(a.drop_last(), b.drop_last(), all_but(wanted, top));
        assert(a =~= a.drop_last().push(a.last()));
        assert(b =~= b.drop_last().push(b.last()));
    }
}

/// An ascending list without its last number lists the others.
proof fn lemma_selection_drop_last(a: Seq<usize>, wanted: spec_fn(int) -> bool)
    requires
        selects(a, wanted),
        a.len() > 0,
    ensures
        selects(a.drop_last(), all_but(wanted, a.last() as int)),
{
    let fewer = all_but(wanted, a.last() as int);
    let a1 = a.drop_last();
    assert forall|n: int| 0 <= n < a1.len() implies fewer(#[trigger] a1[n] as int) by {
        assert(wanted(a[n] as int));
        assert(a[n] < a[a.len() - 1]);
    }
    assert forall|i: int| #[trigger] fewer(i) implies exists|n: int|
        0 <= n < a1.len() && #[trigger] a1[n] == i by {
        assert(wanted(i));
        let n = choose|n: int| 0 <= n < a.len() && #[trigger] a[n] == i;
        assert(a1[n] == i);
    }
}

/// A health flap within the truncation pool leaves the sticky traffic alone: if a request goes to
/// the sticky policy before or after it, it does so both times, with the same list of workers to
/// pick from.
pub proof fn law_flap_keeps_the_sticky_list(
    ws: Seq<Worker>,
    flapped: Seq<Worker>,
    members: Set<Seq<char>>,
    first: Option<Route>,
    second: Option<Route>,
)
    requires
        differ_in_trunc_health(ws, flapped, members),
        routes(ws, members, false, first),
        routes(flapped, members, false, second),
    ensures
        sticky_list(first) == sticky_list(second),
{
    assert forall|i: int| healthy_sticky(ws, members, i) == healthy_sticky(flapped, members, i) by {
        if 0 <= i < ws.len() {
            assert(ws[i].url@ == flapped[i].url@);
        }
    }
    let before = |i: int| healthy_sticky(ws, members, i);
    let after = |i: int| healthy_sticky(flapped, members, i);
    assert(before =~= after);
    if exists|i: int| healthy_sticky(ws, members, i) {
        let i = choose|i: int| healthy_sticky(ws, members, i);
        assert(healthy_sticky(flapped, members, i));
        law_other_requests_stay_sticky(ws, members, first, i);
        law_other_requests_stay_sticky(flapped, members, second, i);
        lemma_selection_unique(sticky_list(first)->0, sticky_list(second)->0, before);
    } else {
        if let Some(Route::Sticky(idx)) = first {
            assert(before(idx@[0] as int));
        }
        if let Some(Route::Sticky(idx)) = second {
            assert(after(idx@[0] as int));
        }
    }
}

// ---- laws in workers and places ----

/// A selection names exactly the places that are wanted, in ascending order. The healthy ones are
/// those of healthy workers, each of which is in one of the two pools.
pub proof fn law_a_selection_names_what_is_wanted(
    ws: Seq<Worker>,
    members: Set<Seq<char>>,
    idx: Seq<usize>,
    wanted: spec_fn(int) -> bool,
    i: int,
)
    ensures
        selects(idx, wanted) ==> ((exists|a: int| 0 <= a < idx.len() && #[trigger] idx[a] == i)
            <==> wanted(i)),
        selects(idx, wanted) ==> forall|a: int, b: int|
            0 <= a < b < idx.len() ==> idx[a] < idx[b],
        healthy(ws, i) <==> 0 <= i < ws.len() && ws[i].healthy,
        healthy_trunc(ws, members, i) <==> 0 <= i < ws.len() && ws[i].healthy && ws[i].is_trunc(
            members,
        ),
        healthy_sticky(ws, members, i) <==> 0 <= i < ws.len() && ws[i].healthy && !ws[i].is_trunc(
            members,
        ),
{
    if selects(idx, wanted) {
        if exists|a: int| 0 <= a < idx.len() && #[trigger] idx[a] == i {
            let a = choose|a: int| 0 <= a < idx.len() && #[trigger] idx[a] == i;
            assert(wanted(idx[a] as int));
        }
    }
}

/// Where a request goes, set against any worker `i`. Nowhere only if `i` is not healthy. A
/// truncated one goes to a healthy member of the truncation pool, and none that is has less load
/// or, with the same load, stands earlier; or, if no healthy worker is a member, to such a one
/// among all healthy workers. Another one goes to the sticky policy with exactly the healthy
/// workers that are no members, in ascending order; or, if every healthy worker is a member, to
/// such a one of least load.
pub proof fn law_where_a_request_goes(
    ws: Seq<Worker>,
    members: Set<Seq<char>>,
    truncated: bool,
    route: Option<Route>,
    i: int,
)
    requires
        routes(ws, members, truncated, route),
        0 <= i < ws.len(),
    ensures
        route is None ==> !ws[i].healthy,
        route matches Some(Route::TruncPool(p)) ==> {
            &&& truncated && p < ws.len() && ws[p as int].healthy && ws[p as int].is_trunc(members)
            &&& ws[i].healthy && ws[i].is_trunc(members) ==> ws[p as int].load <= ws[i].load && (i
                < p ==> ws[p as int].load < ws[i].load)
        },
        route matches Some(Route::FallbackAll(p)) ==> {
            &&& truncated && p < ws.len() && ws[p as int].healthy
            &&& ws[i].healthy ==> !ws[i].is_trunc(members) && ws[p as int].load <= ws[i].load && (i
                < p ==> ws[p as int].load < ws[i].load)
        },
        route matches Some(Route::StickySpill(p)) ==> {
            &&& !truncated && p < ws.len() && ws[p as int].healthy
            &&& ws[i].healthy ==> ws[i].is_trunc(members) && ws[p as int].load <= ws[i].load && (i
                < p ==> ws[p as int].load < ws[i].load)
        },
        route matches Some(Route::Sticky(idx)) ==> {
            &&& !truncated && idx@.len() > 0
            &&& (exists|a: int| 0 <= a < idx@.len() && #[trigger] idx@[a] == i) <==> ws[i].healthy
                && !ws[i].is_trunc(members)
            &&& forall|a: int|
                0 <= a < idx@.len() ==> (#[trigger] idx@[a]) < ws.len()
            &&& forall|a: int, b: int| 0 <= a < b < idx@.len() ==> idx@[a] < idx@[b]
        },
{
    let any = |j: int| healthy(ws, j);
    let in_trunc = |j: int| healthy_trunc(ws, members, j);
    let in_sticky = |j: int| healthy_sticky(ws, members, j);
    match route {
        None => {
            assert(!healthy(ws, i));
        },
        Some(Route::TruncPool(p)) => {
            assert(in_trunc(p as int));
            if in_trunc(i) {
                assert(ws[p as int].load <= ws[i].load);
            }
        },
        Some(Route::FallbackAll(p)) => {
            assert(any(p as int));
            assert(!healthy_trunc(ws, members, i));
            if any(i) {
                assert(ws[p as int].load <= ws[i].load);
            }
        },
        Some(Route::StickySpill(p)) => {
            assert(in_trunc(p as int));
            assert(!healthy_sticky(ws, members, i));
            if in_trunc(i) {
                assert(ws[p as int].load <= ws[i].load);
            }
        },
        Some(Route::Sticky(idx)) => {
            law_a_selection_names_what_is_wanted(ws, members, idx@, in_sticky, i);
            assert(in_sticky(i) == healthy_sticky(ws, members, i));
            assert forall|a: int| 0 <= a < idx@.len() implies (#[trigger] idx@[a])
                < ws.len() by {
                assert(in_sticky(idx@[a] as int));
            }
        },
    }
}

} // verus!
