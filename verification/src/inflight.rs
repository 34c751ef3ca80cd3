//! In-flight load of the two pools.

use crate::state::ModelState;
use crate::worker::is_member;
use vstd::prelude::*;

verus! {

/// Sizes and in-flight totals of the two pools.
#[derive(Debug, Clone, Copy, PartialEq, Eq)]
pub struct PoolInflight {
    /// How many known workers are in the sticky pool.
    pub sticky_workers: usize,
    /// The requests in flight at them.
    pub sticky_load: u128,
    /// How many known workers are in the truncation pool.
    pub trunc_workers: usize,
    /// The requests in flight at them.
    pub trunc_load: u128,
}

impl PoolInflight {
    /// Whether there are per-worker averages to compare: only then can the truncation pool be
    /// pressured.
    pub fn comparable(&self) -> (both: bool)
        ensures
            both == (self.sticky_workers > 0 && self.trunc_workers > 0),
    {
        self.sticky_workers > 0 && self.trunc_workers > 0
    }
}

/// The load that `loads` gives for `url`: that of its first entry with this URL, or none.
pub open spec fn load_of(loads: Seq<(String, usize)>, url: Seq<char>) -> nat
    decreases loads.len(),
{
    if loads.len() == 0 {
        0
    } else if loads[0].0@ == url {
        loads[0].1 as nat
    } else {
        load_of(loads.skip(1), url)
    }
}

/// The load of the workers in `urls` together.
pub open spec fn total_load(urls: Set<Seq<char>>, loads: Seq<(String, usize)>) -> nat
    decreases urls.len(),
    when urls.finite()
{
    if urls.is_empty() {
        0
    } else {
        let u = urls.choose();
        load_of(loads, u) + total_load(urls.remove(u), loads)
    }
}

/// The known workers in the truncation pool.
pub open spec fn trunc_workers(state: crate::state::ModelView) -> Set<Seq<char>> {
    state.known.dom().filter(
        |u: Seq<char>| crate::worker::in_trunc_pool(u, state.known[u].pin, state.trunc_urls),
    )
}

/// The known workers in the sticky pool.
pub open spec fn sticky_workers(state: crate::state::ModelView) -> Set<Seq<char>> {
    state.known.dom().difference(trunc_workers(state))
}

/// The load of some workers is that of any one of them and that of the rest.
proof fn lemma_total_load_remove(
    urls: Set<Seq<char>>,
    loads: Seq<(String, usize)>,
    u: Seq<char>,
)
    requires
        urls.finite(),
        urls.contains(u),
    ensures
        total_load(urls, loads) == load_of(loads, u) + total_load(urls.remove(u), loads),
    decreases urls.len(),
{
    let v = urls.choose();
    if u != v {
        lemma_total_load_remove(urls.remove(v), loads, u);
        lemma_total_load_remove(urls.remove(u), loads, v);
        assert(urls.remove(u).remove(v) =~= urls.remove(v).remove(u));
    }
}

proof fn lemma_total_load_insert(
    urls: Set<Seq<char>>,
    loads: Seq<(String, usize)>,
    u: Seq<char>,
)
    requires
        urls.finite(),
        !urls.contains(u),
    ensures
        total_load(urls.insert(u), loads) == load_of(loads, u) + total_load(urls, loads),
{
    lemma_total_load_remove(urls.insert(u), loads, u);
    assert(urls.insert(u).remove(u) =~= urls);
}

/// The load that `loads` gives for `url`.
fn find_load(loads: &[(String, usize)], url: &str) -> (load: usize)
    ensures
        load == load_of(loads@, url@),
{
    let mut i: usize = 0;
    assert(loads@.skip(0) =~= loads@);
    while i < loads.len()
        invariant
            i <= loads@.len(),
            load_of(loads@, url@) == load_of(loads@.skip(i as int), url@),
        decreases loads@.len() - i,
    {
        assert(loads@.skip(i as int).skip(1) =~= loads@.skip(i + 1));
        if *loads[i].0.as_str() == *url {
            return loads[i].1;
        }
        i += 1;
    }
    0
}

/// Pool sizes and in-flight totals of the known workers under the current membership; `loads`
/// gives the workers' loads by URL.
pub fn pool_inflight(state: &ModelState, loads: &[(String, usize)]) -> (pools: PoolInflight)
    ensures
        trunc_workers(state@).finite(),
        sticky_workers(state@).finite(),
        pools.trunc_workers == trunc_workers(state@).len(),
        pools.trunc_load == total_load(trunc_workers(state@), loads@),
        pools.sticky_workers == sticky_workers(state@).len(),
        pools.sticky_load == total_load(sticky_workers(state@), loads@),
{
    let entries = state.known.entries();
    let ghost known = state@.known;
    let mut pools = PoolInflight {
        sticky_workers: 0,
        sticky_load: 0,
        trunc_workers: 0,
        trunc_load: 0,
    };
    let mut i: usize = 0;
    let ghost mut trunc = Set::<Seq<char>>::empty();
    let ghost mut sticky = Set::<Seq<char>>::empty();
    let ghost mut seen = Set::<Seq<char>>::empty();
    while i < entries.len()
        invariant
            i <= entries@.len(),
            known == state@.known,
            crate::known::lists_known(entries@, known),
            forall|u: Seq<char>| #[trigger]
                seen.contains(u) <==> exists|j: int|
                    0 <= j < i && (#[trigger] entries@[j]).0@ == u,
            trunc =~= seen.intersect(trunc_workers(state@)),
            sticky =~= seen.intersect(sticky_workers(state@)),
            trunc.finite(),
            sticky.finite(),
            pools.trunc_workers == trunc.len(),
            pools.sticky_workers == sticky.len(),
            pools.trunc_workers + pools.sticky_workers == i,
            pools.trunc_load == total_load(trunc, loads@),
            pools.sticky_load == total_load(sticky, loads@),
            pools.trunc_load <= pools.trunc_workers * 0xffff_ffff_ffff_ffff,
            pools.sticky_load <= pools.sticky_workers * 0xffff_ffff_ffff_ffff,
        decreases entries@.len() - i,
    {
        let url = entries[i].0.as_str();
        let pin: Option<&str> = match &entries[i].1 {
            Some(pin) => Some(pin.as_str()),
            None => None,
        };
        let member = is_member(url, pin, &state.trunc_urls);
        let load = find_load(loads, url);
        proof {
            assert(known.contains_key(entries@[i as int].0@));
            assert(member == trunc_workers(state@).contains(url@));
            assert(!seen.contains(url@)) by {
                assert forall|j: int| 0 <= j < i implies (#[trigger] entries@[j]).0@ != url@ by {
                    assert(entries@[j].0@ != entries@[i as int].0@);
                }
            }
            let before = seen;
            seen = seen.insert(url@);
            assert forall|u: Seq<char>| #[trigger] seen.contains(u) implies exists|j: int|
                0 <= j < i + 1 && (#[trigger] entries@[j]).0@ == u by {
                if u == url@ {
                    assert(entries@[i as int].0@ == u);
                } else {
                    assert(before.contains(u));
                }
            }
        }
        if member {
            proof {
                lemma_total_load_insert(trunc, loads@, url@);
                trunc = trunc.insert(url@);
            }
            pools.trunc_workers = pools.trunc_workers + 1;
            pools.trunc_load = pools.trunc_load + load as u128;
        } else {
            proof {
                lemma_total_load_insert(sticky, loads@, url@);
                sticky = sticky.insert(url@);
            }
            pools.sticky_workers = pools.sticky_workers + 1;
            pools.sticky_load = pools.sticky_load + load as u128;
        }
        i += 1;
    }
    assert(trunc =~= trunc_workers(state@));
    assert(sticky =~= sticky_workers(state@));
    pools
}

// ---- laws ----

/// A worker's load is that of the first entry with its URL, and zero where there is none.
pub proof fn law_the_first_entry_gives_the_load(
    loads: Seq<(String, usize)>,
    url: Seq<char>,
    i: int,
)
    requires
        0 <= i <= loads.len(),
        forall|j: int| 0 <= j < i ==> (#[trigger] loads[j]).0@ != url,
    ensures
        i == loads.len() ==> load_of(loads, url) == 0,
        i < loads.len() && loads[i].0@ == url ==> load_of(loads, url) == loads[i].1,
    decreases loads.len(),
{
    if i > 0 {
        assert(loads[0].0@ != url);
        let rest = loads.skip(1);
        assert forall|j: int| 0 <= j < i - 1 implies (#[trigger] rest[j]).0@ != url by {
            assert(loads[j + 1].0@ != url);
        }
        law_the_first_entry_gives_the_load(rest, url, i - 1);
    }
}

/// The loads of workers add up: no workers have no load, and one more adds its own.
pub proof fn law_loads_add_up(
    urls: Set<Seq<char>>,
    loads: Seq<(String, usize)>,
    u: Seq<char>,
)
    requires
        urls.finite(),
        !urls.contains(u),
    ensures
        total_load(Set::empty(), loads) == 0,
        total_load(urls.insert(u), loads) == total_load(urls, loads) + load_of(loads, u),
{
    lemma_total_load_insert(urls, loads, u);
}

/// Every known worker is in exactly one of the two pools, and no other worker is in either: it is
/// in the truncation pool if it is pinned there, or if it is a member and not pinned to the sticky
/// pool.
pub proof fn law_each_known_worker_is_in_one_pool(state: crate::state::ModelView, u: Seq<char>)
    ensures
        trunc_workers(state).contains(u) <==> state.known.contains_key(u) && (
        state.known[u].pin == Some("truncation"@) || (state.trunc_urls.contains(u)
            && state.known[u].pin != Some("sticky"@))),
        sticky_workers(state).contains(u) <==> state.known.contains_key(u) && !trunc_workers(
            state,
        ).contains(u),
{
    if state.known.contains_key(u) {
        crate::worker::law_pins_are_the_pool_names(u, state.known[u].pin, state.trunc_urls);
        crate::worker::lemma_pools_differ();
    }
}

} // verus!
