//! Workers as the policy sees them, and their pool pins.

use crate::url_set::UrlSet;
use vstd::prelude::*;

verus! {

/// The label that pins a worker to a pool.
pub const POOL_LABEL: &'static str = "pool";

/// The label value, and pool name, of the truncation pool.
pub const POOL_LABEL_TRUNCATION: &'static str = "truncation";

/// The label value, and pool name, of the sticky pool.
pub const POOL_LABEL_STICKY: &'static str = "sticky";

/// What the policy reads of a worker at one moment.
#[derive(Debug)]
pub struct Worker {
    /// The worker's URL, which identifies it.
    pub url: String,
    /// The normalized id of the model that the worker serves.
    pub model_key: String,
    /// The worker's labels, as key and value.
    pub labels: Vec<(String, String)>,
    /// Whether requests may be routed to the worker.
    pub healthy: bool,
    /// How many requests are in flight at the worker.
    pub load: usize,
}

/// The text of an optional string.
pub open spec fn opt_text(s: Option<String>) -> Option<Seq<char>> {
    match s {
        Some(s) => Some(s@),
        None => None,
    }
}

/// The value of the first label named `key`.
pub open spec fn label_value(labels: Seq<(String, String)>, key: Seq<char>) -> Option<Seq<char>>
    decreases labels.len(),
{
    if labels.len() == 0 {
        None
    } else if labels[0].0@ == key {
        Some(labels[0].1@)
    } else {
        label_value(labels.skip(1), key)
    }
}

/// Whether `pin` puts a worker into the truncation pool unconditionally.
pub open spec fn pins_truncation(pin: Option<Seq<char>>) -> bool {
    pin == Some(POOL_LABEL_TRUNCATION@)
}

/// Whether `pin` puts a worker into the sticky pool unconditionally.
pub open spec fn pins_sticky(pin: Option<Seq<char>>) -> bool {
    pin == Some(POOL_LABEL_STICKY@)
}

/// Whether `pin` leaves the pool of a worker to the partition; so does a label with any other
/// value than the two pool names.
pub open spec fn floats(pin: Option<Seq<char>>) -> bool {
    !pins_truncation(pin) && !pins_sticky(pin)
}

/// Whether a worker with this URL and pin belongs to the truncation pool, where `members` is the
/// membership that the last partition computed: pins win over it.
pub open spec fn in_trunc_pool(
    url: Seq<char>,
    pin: Option<Seq<char>>,
    members: Set<Seq<char>>,
) -> bool {
    pins_truncation(pin) || (floats(pin) && members.contains(url))
}

impl Worker {
    /// The worker's pool pin.
    pub open spec fn pin(&self) -> Option<Seq<char>> {
        label_value(self.labels@, POOL_LABEL@)
    }

    /// Whether the worker belongs to the truncation pool.
    pub open spec fn is_trunc(&self, members: Set<Seq<char>>) -> bool {
        in_trunc_pool(self.url@, self.pin(), members)
    }
}

/// The two pool names differ, so no pin names both pools.
pub proof fn lemma_pools_differ()
    ensures
        POOL_LABEL_TRUNCATION@ != POOL_LABEL_STICKY@,
{
    reveal_strlit("truncation");
    reveal_strlit("sticky");
    assert(POOL_LABEL_TRUNCATION@.len() == 10);
    assert(POOL_LABEL_STICKY@.len() == 6);
}

/// A pin wins over any membership.
pub proof fn law_pins_win_over_membership(
    url: Seq<char>,
    pin: Option<Seq<char>>,
    members: Set<Seq<char>>,
)
    ensures
        pins_truncation(pin) ==> in_trunc_pool(url, pin, members),
        pins_sticky(pin) ==> !in_trunc_pool(url, pin, members),
        floats(pin) ==> in_trunc_pool(url, pin, members) == members.contains(url),
{
    lemma_pools_differ();
}

/// The worker's pool pin: the value of its `pool` label, if it has one.
pub fn pool_pin(worker: &Worker) -> (pin: Option<&str>)
    ensures
        worker.pin() is Some <==> pin is Some,
        pin matches Some(p) ==> worker.pin() == Some(p@),
        pin is None <==> forall|j: int|
            0 <= j < worker.labels@.len() ==> (#[trigger] worker.labels@[j]).0@ != "pool"@,
        pin matches Some(p) ==> exists|i: int|
            0 <= i < worker.labels@.len() && (#[trigger] worker.labels@[i]).0@ == "pool"@
                && worker.labels@[i].1@ == p@ && forall|j: int|
                0 <= j < i ==> (#[trigger] worker.labels@[j]).0@ != "pool"@,
{
    let mut i: usize = 0;
    assert(worker.labels@.skip(0) =~= worker.labels@);
    while i < worker.labels.len()
        invariant
            i <= worker.labels@.len(),
            worker.pin() == label_value(worker.labels@.skip(i as int), POOL_LABEL@),
            forall|j: int| 0 <= j < i ==> (#[trigger] worker.labels@[j]).0@ != "pool"@,
        decreases worker.labels@.len() - i,
    {
        assert(worker.labels@.skip(i as int).skip(1) =~= worker.labels@.skip(i + 1));
        if *worker.labels[i].0.as_str() == *POOL_LABEL {
            return Some(worker.labels[i].1.as_str());
        }
        i += 1;
    }
    None
}

/// Whether a worker with this URL and pin belongs to the truncation pool.
pub(crate) fn is_member(url: &str, pin: Option<&str>, trunc_urls: &UrlSet) -> (member: bool)
    ensures
        member == in_trunc_pool(
            url@,
            match pin {
                Some(p) => Some(p@),
                None => None,
            },
            trunc_urls@,
        ),
{
    proof {
        lemma_pools_differ();
    }
    match pin {
        Some(pin) => if *pin == *POOL_LABEL_TRUNCATION {
            true
        } else if *pin == *POOL_LABEL_STICKY {
            false
        } else {
            trunc_urls.contains(url)
        },
        None => trunc_urls.contains(url),
    }
}

/// Whether the worker belongs to the truncation pool: pins win over `trunc_urls`, the membership
/// that the last partition computed (this covers workers seen before their first tick).
pub fn is_trunc_member(worker: &Worker, trunc_urls: &UrlSet) -> (member: bool)
    ensures
        member == worker.is_trunc(trunc_urls@),
        worker.pin() == Some("truncation"@) ==> member,
        worker.pin() == Some("sticky"@) ==> !member,
        worker.pin() != Some("truncation"@) && worker.pin() != Some("sticky"@) ==> member
            == trunc_urls@.contains(worker.url@),
{
    proof {
        law_pins_are_the_pool_names(worker.url@, worker.pin(), trunc_urls@);
    }
    is_member(worker.url.as_str(), pool_pin(worker), trunc_urls)
}

/// The first label with a key decides its value.
proof fn lemma_label_value(labels: Seq<(String, String)>, key: Seq<char>, i: int)
    requires
        0 <= i <= labels.len(),
        forall|j: int| 0 <= j < i ==> (#[trigger] labels[j]).0@ != key,
    ensures
        i == labels.len() ==> label_value(labels, key) is None,
        i < labels.len() && labels[i].0@ == key ==> label_value(labels, key) == Some(labels[i].1@),
    decreases labels.len(),
{
    if i > 0 {
        assert(labels[0].0@ != key);
        let rest = labels.skip(1);
        assert forall|j: int| 0 <= j < i - 1 implies (#[trigger] rest[j]).0@ != key by {
            assert(labels[j + 1].0@ != key);
        }
        lemma_label_value(rest, key, i - 1);
    }
}

/// A worker's pin is the value of its first label named `pool`, and it has none without such a
/// label.
pub proof fn law_the_pool_label_pins(worker: Worker, i: int)
    requires
        0 <= i <= worker.labels@.len(),
        forall|j: int| 0 <= j < i ==> (#[trigger] worker.labels@[j]).0@ != "pool"@,
    ensures
        i == worker.labels@.len() ==> worker.pin() is None,
        i < worker.labels@.len() && worker.labels@[i].0@ == "pool"@ ==> worker.pin() == Some(
            worker.labels@[i].1@,
        ),
{
    lemma_label_value(worker.labels@, "pool"@, i);
}

/// The pin `truncation` puts a worker into the truncation pool, the pin `sticky` keeps it out,
/// and with any other pin, or none, the membership decides.
pub proof fn law_pins_are_the_pool_names(
    url: Seq<char>,
    pin: Option<Seq<char>>,
    members: Set<Seq<char>>,
)
    ensures
        POOL_LABEL@ == "pool"@,
        POOL_LABEL_TRUNCATION@ == "truncation"@,
        POOL_LABEL_STICKY@ == "sticky"@,
        pins_truncation(pin) <==> pin == Some("truncation"@),
        pins_sticky(pin) <==> pin == Some("sticky"@),
        floats(pin) <==> pin != Some("truncation"@) && pin != Some("sticky"@),
        pin == Some("truncation"@) ==> in_trunc_pool(url, pin, members),
        pin == Some("sticky"@) ==> !in_trunc_pool(url, pin, members),
        pin != Some("truncation"@) && pin != Some("sticky"@) ==> in_trunc_pool(url, pin, members)
            == members.contains(url),
{
    lemma_pools_differ();
}

/// Which pool a worker belongs to hangs on its URL and its pin alone.
pub proof fn law_the_pool_hangs_on_url_and_pin(worker: Worker, members: Set<Seq<char>>)
    ensures
        worker.pin() == Some("truncation"@) ==> worker.is_trunc(members),
        worker.pin() == Some("sticky"@) ==> !worker.is_trunc(members),
        worker.pin() != Some("truncation"@) && worker.pin() != Some("sticky"@)
            ==> worker.is_trunc(members) == members.contains(worker.url@),
{
    law_pins_are_the_pool_names(worker.url@, worker.pin(), members);
}

/// The text of an optional string is there exactly if the string is, and is that of the string.
pub proof fn law_opt_text(s: String)
    ensures
        opt_text(Some(s)) == Some(s@),
        opt_text(None) is None,
{
}

} // verus!
