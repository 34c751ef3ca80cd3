//! The partition of a worker set into a truncation pool and a sticky pool.
//!
//! Membership is rendezvous-hashed over worker URLs: a pinned worker goes to its pool
//! unconditionally, and the others fill the remaining slots of the truncation pool in descending
//! order of their scores.

use crate::url_set::UrlSet;
use crate::worker::{POOL_LABEL_STICKY, POOL_LABEL_TRUNCATION};
use std::collections::hash_map::DefaultHasher;
use std::hash::{Hash, Hasher};
use vstd::prelude::*;
use vstd::std_specs::hash::DefaultHasherAdditionalSpecFns;

verus! {

// ---- scores ----

/// What a [`DefaultHasher`] that was fed `before` has been fed once a text is hashed into it.
pub uninterp spec fn hashed_text(before: Seq<Seq<u8>>, text: Seq<char>) -> Seq<Seq<u8>>;

/// `str`'s `Hash::hash` with a [`DefaultHasher`]: what it feeds the hasher is a function of the
/// text and of what the hasher was fed before. Which bytes it writes is left unsaid.
#[verifier::external_body]
fn hash_text(text: &str, hasher: &mut DefaultHasher)
    ensures
        final(hasher)@ == hashed_text(old(hasher)@, text@),
{
    text.hash(hasher);
}

/// The rendezvous score of a URL.
pub open spec fn score(url: Seq<char>) -> u64 {
    DefaultHasher::spec_finish(hashed_text(Seq::empty(), url))
}

/// Deterministic rendezvous score for a worker URL.
///
/// All hashers made by `DefaultHasher::new` are alike, so every router replica computes the same
/// score for the same URL.
pub fn rendezvous_score(url: &str) -> (s: u64)
    ensures
        s == DefaultHasher::spec_finish(hashed_text(Seq::empty(), url@)),
        s == score(url@),
{
    let mut hasher = DefaultHasher::new();
    hash_text(url, &mut hasher);
    hasher.finish()
}

// ---- membership ----

/// A worker as the partition sees it.
pub struct Candidate {
    pub url: Seq<char>,
    pub pin: Option<Seq<char>>,
    pub score: u64,
}

/// The workers of `entries` (URL and pin), with their scores.
pub open spec fn candidates(entries: Seq<(String, Option<String>)>, scores: Seq<u64>) -> Seq<
    Candidate,
> {
    Seq::new(
        entries.len(),
        |i: int|
            Candidate {
                url: entries[i].0@,
                pin: crate::worker::opt_text(entries[i].1),
                score: scores[i],
            },
    )
}

/// The rendezvous scores of the URLs of `entries`.
pub open spec fn url_scores(entries: Seq<(String, Option<String>)>) -> Seq<u64> {
    Seq::new(entries.len(), |i: int| score(entries[i].0@))
}

/// The URLs that are pinned to the truncation pool.
pub open spec fn pinned_urls(c: Seq<Candidate>) -> Set<Seq<char>> {
    Set::new(
        |u: Seq<char>|
            exists|i: int|
                0 <= i < c.len() && #[trigger] c[i].url == u && crate::worker::pins_truncation(
                    c[i].pin,
                ),
    )
}

/// Whether candidate `i` takes a slot before candidate `j`: it has the higher score, or, of two
/// with one score, stands first.
pub open spec fn outranks(c: Seq<Candidate>, i: int, j: int) -> bool {
    c[i].score > c[j].score || (c[i].score == c[j].score && i < j)
}

/// The unpinned candidates that take a slot before candidate `j`.
pub open spec fn rivals(c: Seq<Candidate>, j: int) -> Set<int> {
    Set::new(
        |i: int| 0 <= i < c.len() && crate::worker::floats(c[i].pin) && outranks(c, i, j),
    )
}

/// How many slots of a truncation pool of size `k` the pinned workers leave to the others.
pub open spec fn float_slots(c: Seq<Candidate>, k: nat) -> nat {
    if k > pinned_urls(c).len() {
        (k - pinned_urls(c).len()) as nat
    } else {
        0
    }
}

/// Whether candidate `i` joins a truncation pool of target size `k`.
pub open spec fn joins(c: Seq<Candidate>, k: nat, i: int) -> bool {
    crate::worker::pins_truncation(c[i].pin) || (crate::worker::floats(c[i].pin) && rivals(
        c,
        i,
    ).len() < float_slots(c, k))
}

/// The truncation pool of target size `k`.
pub open spec fn trunc_set(c: Seq<Candidate>, k: nat) -> Set<Seq<char>> {
    Set::new(
        |u: Seq<char>| exists|i: int| 0 <= i < c.len() && #[trigger] c[i].url == u && joins(c, k, i),
    )
}

/// Whether `pin` names `pool`.
fn pinned_to(pin: &Option<String>, pool: &str) -> (pinned: bool)
    ensures
        pinned == (crate::worker::opt_text(*pin) == Some(pool@)),
{
    match pin {
        Some(p) => *p.as_str() == *pool,
        None => false,
    }
}

/// Whether `pin` leaves a worker's pool to the partition.
fn unpinned(pin: &Option<String>) -> (free: bool)
    ensures
        free == crate::worker::floats(crate::worker::opt_text(*pin)),
{
    !pinned_to(pin, POOL_LABEL_TRUNCATION) && !pinned_to(pin, POOL_LABEL_STICKY)
}

proof fn lemma_rivals_finite(c: Seq<Candidate>, j: int)
    ensures
        rivals(c, j).finite(),
        rivals(c, j).len() <= c.len(),
{
    vstd::set_lib::lemma_int_range(0, c.len() as int);
    vstd::set_lib::lemma_len_subset(
        rivals(c, j),
        vstd::set_lib::set_int_range(0, c.len() as int),
    );
}

/// How many unpinned workers take a slot before worker `i`.
fn rank(entries: &[(String, Option<String>)], scores: &[u64], i: usize) -> (r: usize)
    requires
        scores@.len() == entries@.len(),
        i < entries@.len(),
    ensures
        r == rivals(candidates(entries@, scores@), i as int).len(),
{
    let ghost c = candidates(entries@, scores@);
    let mut r: usize = 0;
    let mut j: usize = 0;
    let ghost mut seen = Set::<int>::empty();
    while j < entries.len()
        invariant
            c == candidates(entries@, scores@),
            scores@.len() == entries@.len(),
            i < entries@.len(),
            j <= entries@.len(),
            r <= j,
            seen.finite(),
            seen.len() == r,
            seen =~= rivals(c, i as int).filter(|m: int| m < j),
        decreases entries@.len() - j,
    {
        let ahead = scores[j] > scores[i] || (scores[j] == scores[i] && j < i);
        if ahead && unpinned(&entries[j].1) {
            r += 1;
            proof {
                seen = seen.insert(j as int);
            }
        }
        j += 1;
    }
    assert(seen =~= rivals(c, i as int));
    r
}

/// The truncation membership for a target size `k`, where worker `i` of `entries` has the score
/// `scores[i]`.
pub fn trunc_set_by_score(
    entries: &[(String, Option<String>)],
    scores: &[u64],
    k: usize,
) -> (members: UrlSet)
    requires
        scores@.len() == entries@.len(),
    ensures
        members@ == trunc_set(candidates(entries@, scores@), k as nat),
        forall|i: int|
            0 <= i < entries@.len() && crate::worker::opt_text(entries@[i].1) == Some(
                "truncation"@,
            ) ==> members@.contains(#[trigger] entries@[i].0@),
{
    let ghost c = candidates(entries@, scores@);
    let mut members = UrlSet::new();
    let mut i: usize = 0;
    while i < entries.len()
        invariant
            c == candidates(entries@, scores@),
            scores@.len() == entries@.len(),
            i <= entries@.len(),
            forall|u: Seq<char>| #[trigger]
                members@.contains(u) <==> exists|m: int|
                    0 <= m < i && #[trigger] c[m].url == u && crate::worker::pins_truncation(
                        c[m].pin,
                    ),
        decreases entries@.len() - i,
    {
        let ghost before = members@;
        if pinned_to(&entries[i].1, POOL_LABEL_TRUNCATION) {
            members = members.with(entries[i].0.clone());
            assert(c[i as int].url == entries@[i as int].0@);
        }
        assert forall|u: Seq<char>| #[trigger] members@.contains(u) implies exists|m: int|
            0 <= m < i + 1 && #[trigger] c[m].url == u && crate::worker::pins_truncation(
                c[m].pin,
            ) by {
            if before.contains(u) {
            } else {
                assert(c[i as int].url == u);
            }
        }
        i += 1;
    }
    assert(members@ =~= pinned_urls(c));
    let slots = k.saturating_sub(members.len());
    let mut i: usize = 0;
    while i < entries.len()
        invariant
            c == candidates(entries@, scores@),
            scores@.len() == entries@.len(),
            i <= entries@.len(),
            slots == float_slots(c, k as nat),
            forall|u: Seq<char>| #[trigger]
                members@.contains(u) <==> pinned_urls(c).contains(u) || exists|m: int|
                    0 <= m < i && #[trigger] c[m].url == u && joins(c, k as nat, m),
        decreases entries@.len() - i,
    {
        let ghost before = members@;
        if unpinned(&entries[i].1) && rank(entries, scores, i) < slots {
            members = members.with(entries[i].0.clone());
            assert(joins(c, k as nat, i as int));
            assert(c[i as int].url == entries@[i as int].0@);
        }
        assert forall|u: Seq<char>| #[trigger] members@.contains(u) implies pinned_urls(c).contains(
            u,
        ) || exists|m: int| 0 <= m < i + 1 && #[trigger] c[m].url == u && joins(c, k as nat, m) by {
            if before.contains(u) {
            } else {
                assert(c[i as int].url == u);
            }
        }
        i += 1;
    }
    assert(members@ =~= trunc_set(c, k as nat));
    assert forall|i: int|
        0 <= i < entries@.len() && crate::worker::opt_text(entries@[i].1) == Some(
            "truncation"@,
        ) implies members@.contains(#[trigger] entries@[i].0@) by {
        assert(c[i].url == entries@[i].0@);
    }
    members
}

/// The authoritative truncation membership for a target size `k`, from the workers' URLs and
/// pins.
///
/// Pinned workers go to their pool unconditionally; the others fill the remaining slots in
/// descending order of their rendezvous scores (a stable top-K subset under worker churn).
pub fn compute_trunc_set(entries: &[(String, Option<String>)], k: usize) -> (members: UrlSet)
    ensures
        members@ == trunc_set(candidates(entries@, url_scores(entries@)), k as nat),
        forall|i: int|
            0 <= i < entries@.len() && crate::worker::opt_text(entries@[i].1) == Some(
                "truncation"@,
            ) ==> members@.contains(#[trigger] entries@[i].0@),
{
    let mut scores: Vec<u64> = Vec::new();
    let mut i: usize = 0;
    while i < entries.len()
        invariant
            i <= entries@.len(),
            scores@ =~= url_scores(entries@).take(i as int),
        decreases entries@.len() - i,
    {
        scores.push(rendezvous_score(entries[i].0.as_str()));
        i += 1;
    }
    assert(scores@ =~= url_scores(entries@));
    trunc_set_by_score(entries, scores.as_slice(), k)
}

// ---- laws ----

/// Whether no two candidates have one URL.
pub open spec fn distinct_urls(c: Seq<Candidate>) -> bool {
    forall|i: int, j: int|
        0 <= i < c.len() && 0 <= j < c.len() && i != j ==> #[trigger] c[i].url
            != #[trigger] c[j].url
}

/// The candidates whose pool the partition decides.
pub open spec fn floating(c: Seq<Candidate>) -> Set<int> {
    Set::new(|i: int| 0 <= i < c.len() && crate::worker::floats(c[i].pin))
}

/// The unpinned candidates that fewer than `slots` others outrank.
pub open spec fn chosen(c: Seq<Candidate>, slots: nat) -> Set<int> {
    floating(c).filter(|i: int| rivals(c, i).len() < slots)
}

proof fn lemma_floating_finite(c: Seq<Candidate>)
    ensures
        floating(c).finite(),
        floating(c).len() <= c.len(),
{
    vstd::set_lib::lemma_int_range(0, c.len() as int);
    vstd::set_lib::lemma_len_subset(
        floating(c),
        vstd::set_lib::set_int_range(0, c.len() as int),
    );
}

/// The URLs that are pinned to the truncation pool are finitely many.
proof fn lemma_pinned_finite(c: Seq<Candidate>)
    ensures
        pinned_urls(c).finite(),
{
    let idx = Set::new(
        |i: int| 0 <= i < c.len() && crate::worker::pins_truncation(c[i].pin),
    );
    vstd::set_lib::lemma_int_range(0, c.len() as int);
    vstd::set_lib::lemma_len_subset(idx, vstd::set_lib::set_int_range(0, c.len() as int));
    let f = |i: int| c[i].url;
    idx.lemma_map_finite(f);
    assert forall|u: Seq<char>| pinned_urls(c).contains(u) implies idx.map(f).contains(u) by {
        let i = choose|i: int|
            0 <= i < c.len() && #[trigger] c[i].url == u && crate::worker::pins_truncation(
                c[i].pin,
            );
        assert(idx.contains(i) && f(i) == u);
    }
    assert(pinned_urls(c) =~= idx.map(f));
}

/// A candidate that outranks another has fewer rivals.
pub proof fn lemma_rank_order(c: Seq<Candidate>, i: int, j: int)
    requires
        floating(c).contains(i),
        floating(c).contains(j),
        outranks(c, i, j),
    ensures
        rivals(c, i).len() < rivals(c, j).len(),
{
    lemma_rivals_finite(c, i);
    lemma_rivals_finite(c, j);
    assert(rivals(c, i).insert(i).subset_of(rivals(c, j)));
    vstd::set_lib::lemma_len_subset(rivals(c, i).insert(i), rivals(c, j));
}

/// No two unpinned candidates have the same number of rivals.
proof fn lemma_rank_injective(c: Seq<Candidate>, i: int, j: int)
    requires
        floating(c).contains(i),
        floating(c).contains(j),
        rivals(c, i).len() == rivals(c, j).len(),
    ensures
        i == j,
{
    if i != j {
        if outranks(c, i, j) {
            lemma_rank_order(c, i, j);
        } else {
            lemma_rank_order(c, j, i);
        }
    }
}

/// The ranks of the unpinned candidates are `0`, `1`, and so on, each once.
proof fn lemma_ranks_exhaust(c: Seq<Candidate>)
    ensures
        floating(c).map(|i: int| rivals(c, i).len() as int) == vstd::set_lib::set_int_range(
            0,
            floating(c).len() as int,
        ),
{
    let f = |i: int| rivals(c, i).len() as int;
    let n = floating(c).len() as int;
    let ranks = floating(c).map(f);
    lemma_floating_finite(c);
    vstd::set_lib::lemma_int_range(0, n);
    assert forall|r: int| ranks.contains(r) implies vstd::set_lib::set_int_range(0, n).contains(
        r,
    ) by {
        let i = choose|i: int| floating(c).contains(i) && f(i) == r;
        lemma_rivals_finite(c, i);
        assert(rivals(c, i).subset_of(floating(c).remove(i)));
        vstd::set_lib::lemma_len_subset(rivals(c, i), floating(c).remove(i));
    }
    assert(vstd::relations::injective_on(f, floating(c))) by {
        assert forall|i: int, j: int|
            floating(c).contains(i) && floating(c).contains(j) && #[trigger] f(i) == #[trigger] f(
                j,
            ) implies i == j by {
            lemma_rank_injective(c, i, j);
        }
    }
    vstd::set_lib::lemma_map_size(floating(c), ranks, f);
    vstd::set_lib::lemma_subset_equality(ranks, vstd::set_lib::set_int_range(0, n));
}

/// As many unpinned candidates are chosen as there are slots, or all of them.
proof fn lemma_chosen_len(c: Seq<Candidate>, slots: nat)
    ensures
        chosen(c, slots).finite(),
        chosen(c, slots).len() == vstd::math::min(slots as int, floating(c).len() as int),
{
    let f = |i: int| rivals(c, i).len() as int;
    let n = floating(c).len() as int;
    let m = vstd::math::min(slots as int, n);
    lemma_floating_finite(c);
    lemma_ranks_exhaust(c);
    vstd::set_lib::lemma_int_range(0, m);
    vstd::set_lib::lemma_len_subset(chosen(c, slots), floating(c));
    let ranks = chosen(c, slots).map(f);
    assert forall|r: int| vstd::set_lib::set_int_range(0, m).contains(r) implies ranks.contains(
        r,
    ) by {
        assert(floating(c).map(f).contains(r)) by {
            assert(vstd::set_lib::set_int_range(0, n).contains(r));
            assert(floating(c).map(f) =~= floating(c).map(|i: int| rivals(c, i).len() as int));
        }
        let i = choose|i: int| floating(c).contains(i) && f(i) == r;
        assert(chosen(c, slots).contains(i));
    }
    assert forall|r: int| ranks.contains(r) implies vstd::set_lib::set_int_range(0, m).contains(
        r,
    ) by {
        let i = choose|i: int| chosen(c, slots).contains(i) && f(i) == r;
        assert(floating(c).map(|i: int| rivals(c, i).len() as int).contains(r));
    }
    assert(ranks =~= vstd::set_lib::set_int_range(0, m));
    assert(vstd::relations::injective_on(f, chosen(c, slots))) by {
        assert forall|i: int, j: int|
            chosen(c, slots).contains(i) && chosen(c, slots).contains(j) && #[trigger] f(i)
                == #[trigger] f(j) implies i == j by {
            lemma_rank_injective(c, i, j);
        }
    }
    vstd::set_lib::lemma_map_size(chosen(c, slots), ranks, f);
}

/// The truncation pool has the target size: the pinned workers, and as many others as slots are
/// left, or all the others where there are fewer.
pub proof fn law_pool_size(c: Seq<Candidate>, k: nat)
    requires
        distinct_urls(c),
    ensures
        trunc_set(c, k).finite(),
        trunc_set(c, k).len() == pinned_urls(c).len() + vstd::math::min(
            float_slots(c, k) as int,
            floating(c).len() as int,
        ),
{
    let slots = float_slots(c, k);
    let f = |i: int| c[i].url;
    let picked = chosen(c, slots).map(f);
    lemma_pinned_finite(c);
    lemma_chosen_len(c, slots);
    assert(vstd::relations::injective_on(f, chosen(c, slots))) by {
        assert forall|i: int, j: int|
            chosen(c, slots).contains(i) && chosen(c, slots).contains(j) && #[trigger] f(i)
                == #[trigger] f(j) implies i == j by {
            assert(c[i].url == c[j].url);
        }
    }
    vstd::set_lib::lemma_map_size(chosen(c, slots), picked, f);
    assert forall|u: Seq<char>| trunc_set(c, k).contains(u) implies (pinned_urls(c)
        + picked).contains(u) by {
        let i = choose|i: int| 0 <= i < c.len() && #[trigger] c[i].url == u && joins(c, k, i);
        if !crate::worker::pins_truncation(c[i].pin) {
            assert(chosen(c, slots).contains(i) && f(i) == u);
        }
    }
    assert forall|u: Seq<char>| (pinned_urls(c) + picked).contains(u) implies trunc_set(
        c,
        k,
    ).contains(u) by {
        if picked.contains(u) {
            let i = choose|i: int| chosen(c, slots).contains(i) && f(i) == u;
            assert(c[i].url == u && joins(c, k, i));
        }
    }
    assert(trunc_set(c, k) =~= pinned_urls(c) + picked);
    assert(pinned_urls(c).disjoint(picked)) by {
        assert forall|u: Seq<char>| pinned_urls(c).contains(u) implies !picked.contains(u) by {
            let i = choose|i: int|
                0 <= i < c.len() && #[trigger] c[i].url == u && crate::worker::pins_truncation(
                    c[i].pin,
                );
            if picked.contains(u) {
                let j = choose|j: int| chosen(c, slots).contains(j) && f(j) == u;
                assert(c[i].url == c[j].url);
            }
        }
    }
    vstd::set_lib::lemma_set_disjoint_lens(pinned_urls(c), picked);
}

/// Growing the target size keeps every member.
pub proof fn law_growth_keeps_members(c: Seq<Candidate>, k: nat, larger: nat)
    requires
        k <= larger,
    ensures
        trunc_set(c, k).subset_of(trunc_set(c, larger)),
{
    assert forall|u: Seq<char>| trunc_set(c, k).contains(u) implies trunc_set(c, larger).contains(
        u,
    ) by {
        let i = choose|i: int| 0 <= i < c.len() && #[trigger] c[i].url == u && joins(c, k, i);
        assert(c[i].url == u && joins(c, larger, i));
    }
}

/// Growing the target size by one adds exactly one member, as long as the pinned workers do not
/// fill the pool and an unpinned worker is left.
pub proof fn law_growth_adds_one(c: Seq<Candidate>, k: nat)
    requires
        distinct_urls(c),
        pinned_urls(c).len() <= k,
        k < pinned_urls(c).len() + floating(c).len(),
    ensures
        trunc_set(c, k).subset_of(trunc_set(c, k + 1)),
        trunc_set(c, k + 1).len() == trunc_set(c, k).len() + 1,
{
    law_growth_keeps_members(c, k, k + 1);
    law_pool_size(c, k);
    law_pool_size(c, k + 1);
}

/// Pins win: whatever the target size, a worker pinned to the truncation pool is a member, and
/// one pinned to the sticky pool is none.
pub proof fn law_pins_win(c: Seq<Candidate>, k: nat, i: int)
    requires
        distinct_urls(c),
        0 <= i < c.len(),
    ensures
        crate::worker::pins_truncation(c[i].pin) ==> trunc_set(c, k).contains(c[i].url),
        crate::worker::pins_sticky(c[i].pin) ==> !trunc_set(c, k).contains(c[i].url),
{
    crate::worker::lemma_pools_differ();
    if crate::worker::pins_truncation(c[i].pin) {
        assert(joins(c, k, i));
    }
}

/// Where candidate `i` stands once candidate `p` has left.
spec fn shifted(i: int, p: int) -> int {
    if i < p {
        i
    } else {
        i - 1
    }
}

/// The departure of candidate `p` takes at most one rival from each other candidate, and does so
/// only if `p` was a rival.
proof fn lemma_rank_after_removal(c: Seq<Candidate>, p: int, i: int)
    requires
        0 <= p < c.len(),
        0 <= i < c.len(),
        i != p,
    ensures
        rivals(c.remove(p), shifted(i, p)).len() == rivals(c, i).len() - (if rivals(c, i).contains(
            p,
        ) {
            1int
        } else {
            0
        }),
{
    let d = c.remove(p);
    let f = |j: int| shifted(j, p);
    let left = rivals(c, i).remove(p);
    let there = rivals(d, shifted(i, p));
    lemma_rivals_finite(c, i);
    assert forall|m: int| there.contains(m) implies left.map(f).contains(m) by {
        let j = if m < p {
            m
        } else {
            m + 1
        };
        assert(d[m] == c[j]);
        assert(left.contains(j) && f(j) == m);
    }
    assert forall|m: int| left.map(f).contains(m) implies there.contains(m) by {
        let j = choose|j: int| left.contains(j) && f(j) == m;
        assert(d[m] == c[j]);
    }
    assert(left.map(f) =~= there);
    vstd::set_lib::lemma_map_size(left, there, f);
}

/// The departure of candidate `p` unpins at most its own URL.
proof fn lemma_pinned_after_removal(c: Seq<Candidate>, p: int)
    requires
        0 <= p < c.len(),
    ensures
        pinned_urls(c.remove(p)).subset_of(pinned_urls(c)),
        pinned_urls(c.remove(p)).len() <= pinned_urls(c).len(),
        distinct_urls(c) ==> pinned_urls(c.remove(p)).len() == pinned_urls(c).len() - (if
            crate::worker::pins_truncation(c[p].pin) {
            1int
        } else {
            0
        }),
{
    let d = c.remove(p);
    lemma_pinned_finite(c);
    assert forall|u: Seq<char>| pinned_urls(d).contains(u) implies pinned_urls(c).contains(u) by {
        let m = choose|m: int|
            0 <= m < d.len() && #[trigger] d[m].url == u && crate::worker::pins_truncation(
                d[m].pin,
            );
        let j = if m < p {
            m
        } else {
            m + 1
        };
        assert(c[j] == d[m]);
        assert(c[j].url == u);
    }
    vstd::set_lib::lemma_len_subset(pinned_urls(d), pinned_urls(c));
    if distinct_urls(c) {
        let rest = if crate::worker::pins_truncation(c[p].pin) {
            pinned_urls(c).remove(c[p].url)
        } else {
            pinned_urls(c)
        };
        assert forall|u: Seq<char>| rest.contains(u) implies pinned_urls(d).contains(u) by {
            let j = choose|j: int|
                0 <= j < c.len() && #[trigger] c[j].url == u && crate::worker::pins_truncation(
                    c[j].pin,
                );
            assert(j != p);
            assert(d[shifted(j, p)] == c[j]);
            assert(d[shifted(j, p)].url == u);
        }
        assert forall|u: Seq<char>| pinned_urls(d).contains(u) implies rest.contains(u) by {
            if crate::worker::pins_truncation(c[p].pin) {
                let m = choose|m: int|
                    0 <= m < d.len() && #[trigger] d[m].url == u
                        && crate::worker::pins_truncation(d[m].pin);
                let j = if m < p {
                    m
                } else {
                    m + 1
                };
                assert(c[j] == d[m]);
                assert(c[j].url != c[p].url);
            }
        }
        assert(pinned_urls(d) =~= rest);
        if crate::worker::pins_truncation(c[p].pin) {
            assert(c[p].url == c[p].url);
            assert(pinned_urls(c).contains(c[p].url));
        }
    }
}

/// Minimal churn when a worker leaves: every other member of the truncation pool stays.
pub proof fn law_removal_keeps_members(c: Seq<Candidate>, k: nat, p: int)
    requires
        0 <= p < c.len(),
    ensures
        trunc_set(c, k).remove(c[p].url).subset_of(trunc_set(c.remove(p), k)),
{
    let d = c.remove(p);
    lemma_pinned_after_removal(c, p);
    assert forall|u: Seq<char>| trunc_set(c, k).remove(c[p].url).contains(u) implies trunc_set(
        d,
        k,
    ).contains(u) by {
        let i = choose|i: int| 0 <= i < c.len() && #[trigger] c[i].url == u && joins(c, k, i);
        lemma_rank_after_removal(c, p, i);
        let m = shifted(i, p);
        assert(d[m] == c[i]);
        assert(d[m].url == u && joins(d, k, m));
    }
}

/// Minimal churn when a worker leaves: at most one worker of the sticky pool moves to the
/// truncation pool in its place.
pub proof fn law_removal_moves_at_most_one(
    c: Seq<Candidate>,
    k: nat,
    p: int,
    u: Seq<char>,
    v: Seq<char>,
)
    requires
        distinct_urls(c),
        0 <= p < c.len(),
        trunc_set(c.remove(p), k).contains(u) && !trunc_set(c, k).contains(u),
        trunc_set(c.remove(p), k).contains(v) && !trunc_set(c, k).contains(v),
    ensures
        u == v,
{
    let i = lemma_newcomer_rank(c, k, p, u);
    let j = lemma_newcomer_rank(c, k, p, v);
    lemma_rank_injective(c, i, j);
}

/// Minimal churn when a worker joins: no other worker moves to the truncation pool, and at most
/// one leaves it.
pub proof fn law_joining_moves_at_most_one(
    c: Seq<Candidate>,
    k: nat,
    p: int,
    newcomer: Candidate,
    u: Seq<char>,
    v: Seq<char>,
)
    requires
        0 <= p <= c.len(),
        distinct_urls(c.insert(p, newcomer)),
    ensures
        trunc_set(c.insert(p, newcomer), k).remove(newcomer.url).subset_of(trunc_set(c, k)),
        trunc_set(c, k).contains(u) && !trunc_set(c.insert(p, newcomer), k).contains(u)
            && trunc_set(c, k).contains(v) && !trunc_set(c.insert(p, newcomer), k).contains(v)
            ==> u == v,
{
    let d = c.insert(p, newcomer);
    assert(d.remove(p) =~= c);
    law_removal_keeps_members(d, k, p);
    if trunc_set(c, k).contains(u) && !trunc_set(d, k).contains(u) && trunc_set(c, k).contains(v)
        && !trunc_set(d, k).contains(v) {
        law_removal_moves_at_most_one(d, k, p, u, v);
    }
}

/// Who joins the truncation pool because candidate `p` left was the first one without a slot.
proof fn lemma_newcomer_rank(c: Seq<Candidate>, k: nat, p: int, u: Seq<char>) -> (i: int)
    requires
        distinct_urls(c),
        0 <= p < c.len(),
        trunc_set(c.remove(p), k).contains(u) && !trunc_set(c, k).contains(u),
    ensures
        floating(c).contains(i),
        c[i].url == u,
        rivals(c, i).len() == float_slots(c, k),
{
    let d = c.remove(p);
    let m = choose|m: int| 0 <= m < d.len() && #[trigger] d[m].url == u && joins(d, k, m);
    let i = if m < p {
        m
    } else {
        m + 1
    };
    assert(c[i] == d[m]);
    assert(c[i].url == u);
    assert(!joins(c, k, i));
    assert(shifted(i, p) == m);
    crate::worker::lemma_pools_differ();
    lemma_rank_after_removal(c, p, i);
    lemma_pinned_after_removal(c, p);
    i
}

/// The truncation pool of target size `k` over the workers of `pins`, which maps URLs to pins:
/// no order among the workers plays a part.
pub open spec fn pool_of(pins: Map<Seq<char>, Option<Seq<char>>>, k: nat) -> Set<Seq<char>> {
    let pinned = pins.dom().filter(|u: Seq<char>| crate::worker::pins_truncation(pins[u]));
    Set::new(
        |u: Seq<char>|
            pins.contains_key(u) && (crate::worker::pins_truncation(pins[u]) || (
            crate::worker::floats(pins[u]) && pinned.len() + above(pins, u).len() < k)),
    )
}

/// The unpinned workers whose scores are higher than that of `u`.
pub open spec fn above(pins: Map<Seq<char>, Option<Seq<char>>>, u: Seq<char>) -> Set<Seq<char>> {
    pins.dom().filter(|v: Seq<char>| crate::worker::floats(pins[v]) && score(v) > score(u))
}

/// Whether no two unpinned workers have one score.
pub open spec fn scores_differ(pins: Map<Seq<char>, Option<Seq<char>>>) -> bool {
    forall|u: Seq<char>, v: Seq<char>|
        pins.contains_key(u) && pins.contains_key(v) && u != v && crate::worker::floats(pins[u])
            && crate::worker::floats(pins[v]) ==> #[trigger] score(u) != #[trigger] score(v)
}

/// Whether `c` lists the workers of `pins`, each once, with their rendezvous scores.
pub open spec fn lists(c: Seq<Candidate>, pins: Map<Seq<char>, Option<Seq<char>>>) -> bool {
    &&& distinct_urls(c)
    &&& forall|i: int|
        #![trigger c[i]]
        0 <= i < c.len() ==> pins.contains_key(c[i].url) && pins[c[i].url] == c[i].pin
            && c[i].score == score(c[i].url)
    &&& forall|u: Seq<char>|
        pins.contains_key(u) ==> exists|i: int| 0 <= i < c.len() && #[trigger] c[i].url == u
}

/// The order in which the workers are listed plays no part in who joins the truncation pool, as
/// long as no two unpinned workers have one score.
pub proof fn law_order_plays_no_part(
    c: Seq<Candidate>,
    pins: Map<Seq<char>, Option<Seq<char>>>,
    k: nat,
)
    requires
        lists(c, pins),
        scores_differ(pins),
    ensures
        trunc_set(c, k) == pool_of(pins, k),
{
    let pinned = pins.dom().filter(|u: Seq<char>| crate::worker::pins_truncation(pins[u]));
    lemma_pinned_finite(c);
    assert forall|u: Seq<char>| pinned.contains(u) implies pinned_urls(c).contains(u) by {
        let i = choose|i: int| 0 <= i < c.len() && #[trigger] c[i].url == u;
    }
    assert(pinned =~= pinned_urls(c));
    assert forall|i: int| 0 <= i < c.len() && crate::worker::floats(c[i].pin) implies rivals(
        c,
        i,
    ).len() == above(pins, c[i].url).len() by {
        let f = |j: int| c[j].url;
        lemma_rivals_finite(c, i);
        assert forall|v: Seq<char>| above(pins, c[i].url).contains(v) implies rivals(c, i).map(
            f,
        ).contains(v) by {
            let j = choose|j: int| 0 <= j < c.len() && #[trigger] c[j].url == v;
            assert(rivals(c, i).contains(j) && f(j) == v);
        }
        assert forall|v: Seq<char>| rivals(c, i).map(f).contains(v) implies above(
            pins,
            c[i].url,
        ).contains(v) by {
            let j = choose|j: int| rivals(c, i).contains(j) && f(j) == v;
            assert(c[j].url != c[i].url);
            assert(score(c[j].url) != score(c[i].url));
        }
        assert(rivals(c, i).map(f) =~= above(pins, c[i].url));
        assert(vstd::relations::injective_on(f, rivals(c, i))) by {
            assert forall|a: int, b: int|
                rivals(c, i).contains(a) && rivals(c, i).contains(b) && #[trigger] f(a)
                    == #[trigger] f(b) implies a == b by {
                assert(c[a].url == c[b].url);
            }
        }
        vstd::set_lib::lemma_map_size(rivals(c, i), above(pins, c[i].url), f);
    }
    assert forall|u: Seq<char>| trunc_set(c, k).contains(u) implies pool_of(pins, k).contains(
        u,
    ) by {
        let i = choose|i: int| 0 <= i < c.len() && #[trigger] c[i].url == u && joins(c, k, i);
        assert(pins[c[i].url] == c[i].pin);
    }
    assert forall|u: Seq<char>| pool_of(pins, k).contains(u) implies trunc_set(c, k).contains(
        u,
    ) by {
        let i = choose|i: int| 0 <= i < c.len() && #[trigger] c[i].url == u;
        assert(pins[c[i].url] == c[i].pin);
        assert(joins(c, k, i));
    }
    assert(trunc_set(c, k) =~= pool_of(pins, k));
}

/// Router replicas agree without coordination: two that list the same workers with the same
/// pins, each in its own order, compute the same truncation pool for the same target size, as
/// long as no two unpinned workers have one score.
pub proof fn law_replicas_agree(
    c1: Seq<Candidate>,
    c2: Seq<Candidate>,
    pins: Map<Seq<char>, Option<Seq<char>>>,
    k: nat,
)
    requires
        lists(c1, pins),
        lists(c2, pins),
        scores_differ(pins),
    ensures
        trunc_set(c1, k) == trunc_set(c2, k),
{
    law_order_plays_no_part(c1, pins, k);
    law_order_plays_no_part(c2, pins, k);
}

// ---- laws over listed workers ----

/// Whether a pin leaves a worker to its score: it is neither `truncation` nor `sticky`.
pub open spec fn is_free(pin: Option<String>) -> bool {
    crate::worker::opt_text(pin) != Some("truncation"@) && crate::worker::opt_text(pin) != Some(
        "sticky"@,
    )
}

/// What a new hasher finishes with once it is fed the whole of a text.
pub open spec fn whole_hash(text: Seq<char>) -> u64 {
    DefaultHasher::spec_finish(hashed_text(Seq::empty(), text))
}

/// The score of a URL is what a new hasher finishes with once it is fed the whole URL, whatever
/// its length, and each listed worker has the score of its own URL.
pub proof fn law_the_whole_url_is_hashed(entries: Seq<(String, Option<String>)>, i: int)
    requires
        0 <= i < entries.len(),
    ensures
        score(entries[i].0@) == DefaultHasher::spec_finish(
            hashed_text(Seq::empty(), entries[i].0@),
        ),
        url_scores(entries).len() == entries.len(),
        url_scores(entries)[i] == DefaultHasher::spec_finish(
            hashed_text(Seq::empty(), entries[i].0@),
        ),
        whole_hash(entries[i].0@) == DefaultHasher::spec_finish(
            hashed_text(Seq::empty(), entries[i].0@),
        ),
{
}

/// Who is in the truncation pool of target size `k`: the workers pinned to it, and each unpinned
/// worker for which the pinned ones, and the unpinned ones with a higher score (or the same score
/// and an earlier place), are together fewer than `k`.
pub proof fn law_who_joins(
    entries: Seq<(String, Option<String>)>,
    scores: Seq<u64>,
    k: nat,
    u: Seq<char>,
)
    requires
        scores.len() == entries.len(),
    ensures
        trunc_set(candidates(entries, scores), k).contains(u) <==> exists|i: int|
            0 <= i < entries.len() && #[trigger] entries[i].0@ == u && (crate::worker::opt_text(
                entries[i].1,
            ) == Some("truncation"@) || (is_free(entries[i].1) && Set::new(
                |v: Seq<char>|
                    exists|j: int|
                        0 <= j < entries.len() && #[trigger] entries[j].0@ == v
                            && crate::worker::opt_text(entries[j].1) == Some("truncation"@),
            ).len() + Set::new(
                |j: int|
                    0 <= j < entries.len() && is_free(entries[j].1) && (scores[j] > scores[i] || (
                    scores[j] == scores[i] && j < i)),
            ).len() < k)),
{
    let c = candidates(entries, scores);
    let pinned = Set::new(
        |v: Seq<char>|
            exists|j: int|
                0 <= j < entries.len() && #[trigger] entries[j].0@ == v
                    && crate::worker::opt_text(entries[j].1) == Some("truncation"@),
    );
    assert(pinned =~= pinned_urls(c)) by {
        assert forall|v: Seq<char>| pinned.contains(v) implies pinned_urls(c).contains(v) by {
            let j = choose|j: int|
                0 <= j < entries.len() && #[trigger] entries[j].0@ == v
                    && crate::worker::opt_text(entries[j].1) == Some("truncation"@);
            assert(c[j].url == v);
        }
        assert forall|v: Seq<char>| pinned_urls(c).contains(v) implies pinned.contains(v) by {
            let j = choose|j: int|
                0 <= j < c.len() && #[trigger] c[j].url == v && crate::worker::pins_truncation(
                    c[j].pin,
                );
            assert(entries[j].0@ == v);
        }
    }
    assert forall|i: int| 0 <= i < entries.len() implies #[trigger] joins(c, k, i) == (
    crate::worker::opt_text(entries[i].1) == Some("truncation"@) || (is_free(entries[i].1)
        && pinned.len() + Set::new(
        |j: int|
            0 <= j < entries.len() && is_free(entries[j].1) && (scores[j] > scores[i] || (scores[j]
                == scores[i] && j < i)),
    ).len() < k)) by {
        assert(rivals(c, i) =~= Set::new(
            |j: int|
                0 <= j < entries.len() && is_free(entries[j].1) && (scores[j] > scores[i] || (
                scores[j] == scores[i] && j < i)),
        ));
    }
    if trunc_set(c, k).contains(u) {
        let i = choose|i: int| 0 <= i < c.len() && #[trigger] c[i].url == u && joins(c, k, i);
        assert(entries[i].0@ == u);
    }
    assert forall|i: int| 0 <= i < entries.len() && #[trigger] entries[i].0@ == u && joins(
        c,
        k,
        i,
    ) implies trunc_set(c, k).contains(u) by {
        assert(c[i].url == u);
    }
}

/// Of two unpinned workers the one with the higher score goes first: it is in the truncation pool
/// whenever the other is.
pub proof fn law_higher_scores_go_first(
    entries: Seq<(String, Option<String>)>,
    scores: Seq<u64>,
    k: nat,
    i: int,
    j: int,
)
    requires
        scores.len() == entries.len(),
        forall|a: int, b: int|
            0 <= a < b < entries.len() ==> #[trigger] entries[a].0@ != #[trigger] entries[b].0@,
        0 <= i < entries.len(),
        0 <= j < entries.len(),
        is_free(entries[i].1),
        is_free(entries[j].1),
        scores[i] > scores[j],
        trunc_set(candidates(entries, scores), k).contains(entries[j].0@),
    ensures
        trunc_set(candidates(entries, scores), k).contains(entries[i].0@),
{
    let c = candidates(entries, scores);
    let m = choose|m: int|
        0 <= m < c.len() && #[trigger] c[m].url == entries[j].0@ && joins(c, k, m);
    assert(entries[m].0@ == entries[j].0@);
    assert(m == j) by {
        if m < j {
            assert(entries[m].0@ != entries[j].0@);
        } else if j < m {
            assert(entries[j].0@ != entries[m].0@);
        }
    }
    lemma_rank_order(c, i, j);
    assert(joins(c, k, i));
    assert(c[i].url == entries[i].0@);
}

/// The truncation pool is filled: it holds the workers pinned to it, and of the unpinned ones as
/// many as it takes to make `k`, or all of them where that takes more; a worker pinned to the
/// sticky pool is never in it.
pub proof fn law_the_pool_is_filled(
    entries: Seq<(String, Option<String>)>,
    scores: Seq<u64>,
    k: nat,
    i: int,
)
    requires
        scores.len() == entries.len(),
        forall|a: int, b: int|
            0 <= a < b < entries.len() ==> #[trigger] entries[a].0@ != #[trigger] entries[b].0@,
    ensures
        ({
            let pool = trunc_set(candidates(entries, scores), k);
            let pinned = Set::new(
                |j: int|
                    0 <= j < entries.len() && crate::worker::opt_text(entries[j].1) == Some(
                        "truncation"@,
                    ),
            ).len();
            let free = Set::new(|j: int| 0 <= j < entries.len() && is_free(entries[j].1)).len();
            &&& pool.len() >= pinned
            &&& k <= pinned ==> pool.len() == pinned
            &&& pinned <= k <= pinned + free ==> pool.len() == k
            &&& pinned + free <= k ==> pool.len() == pinned + free
        }),
        0 <= i < entries.len() && crate::worker::opt_text(entries[i].1) == Some("truncation"@)
            ==> trunc_set(candidates(entries, scores), k).contains(entries[i].0@),
        0 <= i < entries.len() && crate::worker::opt_text(entries[i].1) == Some("sticky"@)
            ==> !trunc_set(candidates(entries, scores), k).contains(entries[i].0@),
{
    let c = candidates(entries, scores);
    assert(distinct_urls(c)) by {
        assert forall|a: int, b: int| 0 <= a < c.len() && 0 <= b < c.len() && a != b implies
            #[trigger] c[a].url != #[trigger] c[b].url by {
            if a < b {
                assert(entries[a].0@ != entries[b].0@);
            } else {
                assert(entries[b].0@ != entries[a].0@);
            }
        }
    }
    law_pool_size(c, k);
    let pinned = Set::new(
        |j: int|
            0 <= j < entries.len() && crate::worker::opt_text(entries[j].1) == Some(
                "truncation"@,
            ),
    );
    let free = Set::new(|j: int| 0 <= j < entries.len() && is_free(entries[j].1));
    assert(free =~= floating(c));
    let f = |j: int| c[j].url;
    vstd::set_lib::lemma_int_range(0, c.len() as int);
    vstd::set_lib::lemma_len_subset(pinned, vstd::set_lib::set_int_range(0, c.len() as int));
    assert forall|v: Seq<char>| pinned_urls(c).contains(v) implies pinned.map(f).contains(v) by {
        let j = choose|j: int|
            0 <= j < c.len() && #[trigger] c[j].url == v && crate::worker::pins_truncation(
                c[j].pin,
            );
        assert(pinned.contains(j) && f(j) == v);
    }
    assert forall|v: Seq<char>| pinned.map(f).contains(v) implies pinned_urls(c).contains(v) by {
        let j = choose|j: int| pinned.contains(j) && f(j) == v;
        assert(c[j].url == v);
    }
    assert(pinned.map(f) =~= pinned_urls(c));
    assert(vstd::relations::injective_on(f, pinned)) by {
        assert forall|a: int, b: int|
            pinned.contains(a) && pinned.contains(b) && #[trigger] f(a) == #[trigger] f(
                b,
            ) implies a == b by {
            assert(c[a].url == c[b].url);
        }
    }
    vstd::set_lib::lemma_map_size(pinned, pinned_urls(c), f);
    if 0 <= i < entries.len() {
        law_pins_win(c, k, i);
    }
}

/// Whether the worker at place `i` of one list stands, with the same pin, in another.
pub open spec fn stands_in(
    entries: Seq<(String, Option<String>)>,
    i: int,
    other: Seq<(String, Option<String>)>,
) -> bool {
    exists|j: int|
        0 <= j < other.len() && #[trigger] other[j].0@ == entries[i].0@
            && crate::worker::opt_text(other[j].1) == crate::worker::opt_text(entries[i].1)
}

/// Router replicas agree: two that list the same workers, each in its own order, compute the same
/// truncation pool for the same target size, as long as the hashes of the whole URLs of the
/// unpinned workers differ.
pub proof fn law_replicas_agree_on_listed_workers(
    here: Seq<(String, Option<String>)>,
    there: Seq<(String, Option<String>)>,
    k: nat,
)
    requires
        forall|a: int, b: int|
            0 <= a < b < here.len() ==> #[trigger] here[a].0@ != #[trigger] here[b].0@,
        forall|a: int, b: int|
            0 <= a < b < there.len() ==> #[trigger] there[a].0@ != #[trigger] there[b].0@,
        forall|i: int| 0 <= i < here.len() ==> #[trigger] stands_in(here, i, there),
        forall|i: int| 0 <= i < there.len() ==> #[trigger] stands_in(there, i, here),
        forall|a: int, b: int|
            0 <= a < b < here.len() && is_free(here[a].1) && is_free(here[b].1) ==> whole_hash(
                #[trigger] here[a].0@,
            ) != whole_hash(#[trigger] here[b].0@),
    ensures
        trunc_set(candidates(here, url_scores(here)), k) == trunc_set(
            candidates(there, url_scores(there)),
            k,
        ),
{
    let c = candidates(here, url_scores(here));
    let d = candidates(there, url_scores(there));
    let place = |u: Seq<char>| choose|i: int| 0 <= i < here.len() && #[trigger] here[i].0@ == u;
    let pins = Map::new(
        |u: Seq<char>| exists|i: int| 0 <= i < here.len() && #[trigger] here[i].0@ == u,
        |u: Seq<char>| crate::worker::opt_text(here[place(u)].1),
    );
    assert forall|i: int| 0 <= i < here.len() implies place(#[trigger] here[i].0@) == i by {
        let j = place(here[i].0@);
        assert(0 <= j < here.len() && here[j].0@ == here[i].0@);
        if i < j {
            assert(here[i].0@ != here[j].0@);
        } else if j < i {
            assert(here[j].0@ != here[i].0@);
        }
    }
    assert(lists(c, pins)) by {
        assert forall|a: int, b: int| 0 <= a < c.len() && 0 <= b < c.len() && a != b implies
            #[trigger] c[a].url != #[trigger] c[b].url by {
            if a < b {
                assert(here[a].0@ != here[b].0@);
            } else {
                assert(here[b].0@ != here[a].0@);
            }
        }
        assert forall|i: int| #![trigger c[i]] 0 <= i < c.len() implies pins.contains_key(c[i].url)
            && pins[c[i].url] == c[i].pin && c[i].score == score(c[i].url) by {
            assert(place(here[i].0@) == i);
        }
        assert forall|u: Seq<char>| pins.contains_key(u) implies exists|i: int|
            0 <= i < c.len() && #[trigger] c[i].url == u by {
            let i = place(u);
            assert(here[i].0@ == u);
            assert(c[i].url == u);
        }
    }
    assert(lists(d, pins)) by {
        assert forall|a: int, b: int| 0 <= a < d.len() && 0 <= b < d.len() && a != b implies
            #[trigger] d[a].url != #[trigger] d[b].url by {
            if a < b {
                assert(there[a].0@ != there[b].0@);
            } else {
                assert(there[b].0@ != there[a].0@);
            }
        }
        assert forall|i: int| #![trigger d[i]] 0 <= i < d.len() implies pins.contains_key(d[i].url)
            && pins[d[i].url] == d[i].pin && d[i].score == score(d[i].url) by {
            assert(stands_in(there, i, here));
            let j = choose|j: int|
                0 <= j < here.len() && #[trigger] here[j].0@ == there[i].0@
                    && crate::worker::opt_text(here[j].1) == crate::worker::opt_text(there[i].1);
            assert(place(here[j].0@) == j);
        }
        assert forall|u: Seq<char>| pins.contains_key(u) implies exists|i: int|
            0 <= i < d.len() && #[trigger] d[i].url == u by {
            let i = place(u);
            assert(stands_in(here, i, there));
            let j = choose|j: int|
                0 <= j < there.len() && #[trigger] there[j].0@ == here[i].0@
                    && crate::worker::opt_text(there[j].1) == crate::worker::opt_text(here[i].1);
            assert(d[j].url == u);
        }
    }
    assert(scores_differ(pins)) by {
        assert forall|u: Seq<char>, v: Seq<char>|
            pins.contains_key(u) && pins.contains_key(v) && u != v && crate::worker::floats(pins[u])
                && crate::worker::floats(pins[v]) implies #[trigger] score(u) != #[trigger] score(
            v,
        ) by {
            let a = place(u);
            let b = place(v);
            assert(here[a].0@ == u && here[b].0@ == v);
            if a < b {
                assert(whole_hash(here[a].0@) != whole_hash(here[b].0@));
            } else {
                assert(whole_hash(here[b].0@) != whole_hash(here[a].0@));
            }
        }
    }
    law_replicas_agree(c, d, pins, k);
}

} // verus!
