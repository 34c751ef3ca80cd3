//! The known workers of one model, held in a [`dashmap::DashMap`].
//!
//! A `DashMap` changes behind a shared reference. [`KnownWorkers`] keeps its map to itself and
//! changes it by exclusive reference only, so that nothing else changes what it holds, or holds a
//! reference into it meanwhile.

use crate::config::is_within;
use crate::url_set::UrlSet;
use dashmap::DashMap;
use vstd::prelude::*;

verus! {

/// [`dashmap::DashMap`]: a map. What one holds has a name for each type of value.
#[verifier::external_type_specification]
#[verifier::external_body]
#[verifier::reject_recursive_types(K)]
#[verifier::reject_recursive_types(V)]
#[verifier::reject_recursive_types(S)]
pub struct ExDashMap<K, V, S>(dashmap::DashMap<K, V, S>);

/// A worker observed on the request path or handed over by the registry.
#[derive(Debug)]
pub struct KnownWorker {
    /// The worker's pool pin.
    pub pin: Option<String>,
    /// When the worker was last seen, in nanoseconds.
    pub last_seen: u64,
}

/// What a [`KnownWorker`] says.
pub struct KnownView {
    pub pin: Option<Seq<char>>,
    pub last_seen: u64,
}

impl View for KnownWorker {
    type V = KnownView;

    open spec fn view(&self) -> KnownView {
        KnownView { pin: crate::worker::opt_text(self.pin), last_seen: self.last_seen }
    }
}

/// Which known workers to keep.
pub enum Keep<'a> {
    /// Those last seen less than `secs` seconds before `now`.
    SeenWithin { now: u64, secs: u64 },
    /// Those whose URLs are listed.
    Listed(&'a UrlSet),
}

impl<'a> Keep<'a> {
    /// Whether the worker with this URL stays.
    pub open spec fn stays(&self, url: Seq<char>, worker: KnownView) -> bool {
        match *self {
            Keep::SeenWithin { now, secs } => crate::config::within(
                worker.last_seen,
                now,
                secs as int,
            ),
            Keep::Listed(urls) => urls@.contains(url),
        }
    }

    /// Whether to keep the worker with this URL.
    pub fn keeps(&self, url: &str, worker: &KnownWorker) -> (stays: bool)
        ensures
            stays == self.stays(url@, worker@),
    {
        match self {
            Keep::SeenWithin { now, secs } => is_within(worker.last_seen, *now, *secs),
            Keep::Listed(urls) => urls.contains(url),
        }
    }
}

/// The workers that `keep` keeps.
pub open spec fn kept(known: Map<Seq<char>, KnownView>, keep: Keep) -> Map<Seq<char>, KnownView> {
    known.restrict(
        Set::new(|u: Seq<char>| known.contains_key(u) && keep.stays(u, known[u])),
    )
}

/// The pins of the known workers.
pub open spec fn pins(known: Map<Seq<char>, KnownView>) -> Map<Seq<char>, Option<Seq<char>>> {
    known.map_values(|w: KnownView| w.pin)
}

/// Whether `entries` lists the known workers (URL and pin), each once.
pub open spec fn lists_known(
    entries: Seq<(String, Option<String>)>,
    known: Map<Seq<char>, KnownView>,
) -> bool {
    &&& forall|i: int, j: int|
        0 <= i < entries.len() && 0 <= j < entries.len() && i != j ==> (#[trigger] entries[i]).0@
            != (#[trigger] entries[j]).0@
    &&& forall|i: int|
        0 <= i < entries.len() ==> known.contains_key((#[trigger] entries[i]).0@)
            && known[entries[i].0@].pin == crate::worker::opt_text(entries[i].1)
    &&& forall|u: Seq<char>|
        known.contains_key(u) ==> exists|i: int|
            0 <= i < entries.len() && (#[trigger] entries[i]).0@ == u
}

/// The workers that a map of known workers holds, by URL.
pub uninterp spec fn known_contents(map: DashMap<String, KnownWorker>) -> Map<Seq<char>, KnownView>;

/// `DashMap::new`: the new map holds nothing.
#[verifier::external_body]
fn known_new() -> (fresh: DashMap<String, KnownWorker>)
    ensures
        (known_contents(fresh) == Map::<Seq<char>, KnownView>::empty()),
{
    DashMap::new()
}

/// `DashMap::insert`: afterwards the map holds `worker` under `url`, in place of what it held
/// there, and every other entry as before.
#[verifier::external_body]
fn known_insert(map: &mut DashMap<String, KnownWorker>, url: String, worker: KnownWorker)
    ensures
        known_contents(*final(map)) == known_contents(*old(map)).insert(url@, worker@),
{
    map.insert(url, worker);
}

/// `DashMap::get`: finds the entry under `url`, if there is one; its last-seen stamp is handed
/// out.
#[verifier::external_body]
fn known_last_seen(map: &DashMap<String, KnownWorker>, url: &str) -> (seen: Option<u64>)
    ensures
        seen == (if known_contents(*map).contains_key(url@) {
            Some(known_contents(*map)[url@].last_seen)
        } else {
            None
        }),
{
    map.get(url).map(|entry| entry.value().last_seen)
}

/// `DashMap::len`: how many entries the map holds.
#[verifier::external_body]
fn known_len(map: &DashMap<String, KnownWorker>) -> (n: usize)
    ensures
        n == known_contents(*map).len(),
{
    map.len()
}

/// `DashMap::iter`: walks the map's entries, each once, in an order that is left unsaid; the URL
/// and the pin of each are handed out.
#[verifier::external_body]
fn known_entries(map: &DashMap<String, KnownWorker>) -> (entries: Vec<
    (String, Option<String>),
>)
    ensures
        lists_known(entries@, known_contents(*map)),
{
    map.iter().map(|entry| (entry.key().clone(), entry.value().pin.clone())).collect()
}

/// `DashMap::retain`: afterwards the map holds those of its entries that the given test accepts,
/// unchanged; the test is [`Keep::keeps`].
#[verifier::external_body]
fn known_retain(map: &mut DashMap<String, KnownWorker>, keep: Keep)
    ensures
        known_contents(*final(map)) == kept(known_contents(*old(map)), keep),
{
    map.retain(|url, worker| keep.keeps(url, worker));
}

/// The known workers of one model, by URL.
#[derive(Debug)]
pub struct KnownWorkers {
    map: DashMap<String, KnownWorker>,
}

impl View for KnownWorkers {
    type V = Map<Seq<char>, KnownView>;

    closed spec fn view(&self) -> Map<Seq<char>, KnownView> {
        known_contents(self.map)
    }
}

impl KnownWorkers {
    /// No worker is known.
    pub fn new() -> (known: KnownWorkers)
        ensures
            known@ == Map::<Seq<char>, KnownView>::empty(),
    {
        KnownWorkers { map: known_new() }
    }

    /// Makes `worker` what is known of the worker with this URL.
    pub fn insert(&mut self, url: String, worker: KnownWorker)
        ensures
            final(self)@ == old(self)@.insert(url@, worker@),
    {
        known_insert(&mut self.map, url, worker);
    }

    /// When the worker with this URL was last seen, if it is known.
    pub fn last_seen(&self, url: &str) -> (seen: Option<u64>)
        ensures
            seen == (if self@.contains_key(url@) {
                Some(self@[url@].last_seen)
            } else {
                None
            }),
    {
        known_last_seen(&self.map, url)
    }

    /// How many workers are known.
    pub fn len(&self) -> (n: usize)
        ensures
            n == self@.len(),
    {
        known_len(&self.map)
    }

    /// The URLs and pins of the known workers, each worker once, in no particular order.
    pub fn entries(&self) -> (entries: Vec<(String, Option<String>)>)
        ensures
            lists_known(entries@, self@),
    {
        known_entries(&self.map)
    }

    /// Forgets the workers that `keep` does not keep.
    pub fn retain(&mut self, keep: Keep)
        ensures
            final(self)@ == kept(old(self)@, keep),
    {
        known_retain(&mut self.map, keep);
    }
}

/// A list of the known workers is as long as the known workers are many.
pub proof fn lemma_listed_len(
    entries: Seq<(String, Option<String>)>,
    known: Map<Seq<char>, KnownView>,
)
    requires
        lists_known(entries, known),
    ensures
        known.dom().finite(),
        known.len() == entries.len(),
{
    let f = |i: int| entries[i].0@;
    let idx = vstd::set_lib::set_int_range(0, entries.len() as int);
    vstd::set_lib::lemma_int_range(0, entries.len() as int);
    assert forall|u: Seq<char>| known.dom().contains(u) implies idx.map(f).contains(u) by {
        let i = choose|i: int| 0 <= i < entries.len() && (#[trigger] entries[i]).0@ == u;
        assert(idx.contains(i) && f(i) == u);
    }
    assert(idx.map(f) =~= known.dom());
    assert(vstd::relations::injective_on(f, idx)) by {
        assert forall|i: int, j: int|
            idx.contains(i) && idx.contains(j) && #[trigger] f(i) == #[trigger] f(j) implies i
            == j by {
            assert(entries[i].0@ == entries[j].0@);
        }
    }
    vstd::set_lib::lemma_map_size(idx, known.dom(), f);
}

// ---- laws ----

/// What is known of a worker is its pin and the moment it was last seen.
pub proof fn law_a_known_worker_says_what_it_holds(worker: KnownWorker)
    ensures
        worker@.pin == crate::worker::opt_text(worker.pin),
        worker@.last_seen == worker.last_seen,
{
}

/// Pruning by age keeps exactly the workers seen less than `secs` billion nanoseconds ago,
/// pruning by URL exactly those listed; what is kept stays as it was.
pub proof fn law_pruning_keeps_what_it_says(
    known: Map<Seq<char>, KnownView>,
    now: u64,
    secs: u64,
    urls: UrlSet,
    u: Seq<char>,
)
    ensures
        kept(known, Keep::SeenWithin { now, secs }).contains_key(u) <==> known.contains_key(u)
            && secs > 0 && now < known[u].last_seen + secs * 1_000_000_000,
        kept(known, Keep::SeenWithin { now, secs }).contains_key(u) ==> kept(
            known,
            Keep::SeenWithin { now, secs },
        )[u] == known[u],
        kept(known, Keep::Listed(&urls)).contains_key(u) <==> known.contains_key(u)
            && urls@.contains(u),
        kept(known, Keep::Listed(&urls)).contains_key(u) ==> kept(known, Keep::Listed(&urls))[u]
            == known[u],
{
}

/// The pins of the known workers are theirs, and there are no others.
pub proof fn law_pins_are_those_of_the_workers(known: Map<Seq<char>, KnownView>, u: Seq<char>)
    ensures
        pins(known).contains_key(u) <==> known.contains_key(u),
        known.contains_key(u) ==> pins(known)[u] == known[u].pin,
{
}

} // verus!
