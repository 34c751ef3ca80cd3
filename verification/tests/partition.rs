use std::collections::hash_map::DefaultHasher;
use std::hash::{Hash, Hasher};

use truncation_aware::partition::{compute_trunc_set, rendezvous_score, trunc_set_by_score};
use truncation_aware::url_set::UrlSet;
use truncation_aware::worker::{
    is_trunc_member, pool_pin, Worker, POOL_LABEL, POOL_LABEL_STICKY, POOL_LABEL_TRUNCATION,
};

fn make_worker(url: &str) -> Worker {
    Worker {
        url: url.to_string(),
        model_key: "m".to_string(),
        labels: vec![],
        healthy: true,
        load: 0,
    }
}

fn make_pinned_worker(url: &str, pool: &str) -> Worker {
    Worker {
        labels: vec![(POOL_LABEL.to_string(), pool.to_string())],
        ..make_worker(url)
    }
}

fn make_workers(n: usize) -> Vec<Worker> {
    (0..n)
        .map(|i| make_worker(&format!("http://w{}:8000", i)))
        .collect()
}

fn entries(workers: &[Worker]) -> Vec<(String, Option<String>)> {
    workers
        .iter()
        .map(|w| (w.url.clone(), pool_pin(w).map(str::to_string)))
        .collect()
}

#[test]
fn test_partition_deterministic_and_sized() {
    let workers = make_workers(8);
    let t1 = compute_trunc_set(&entries(&workers), 3);
    let t2 = compute_trunc_set(&entries(&workers), 3);
    assert_eq!(t1, t2);
    assert_eq!(t1.len(), 3);
}

#[test]
fn test_partition_minimal_churn_on_k_change() {
    let workers = make_workers(8);
    let t3 = compute_trunc_set(&entries(&workers), 3);
    let t4 = compute_trunc_set(&entries(&workers), 4);
    // Growing K by 1 keeps the previous members and adds exactly one.
    assert!(t3.is_subset(&t4));
    assert_eq!(t4.len(), t3.len() + 1);
}

#[test]
fn test_partition_minimal_churn_on_worker_removal() {
    let workers = make_workers(8);
    let before = compute_trunc_set(&entries(&workers), 3);
    let removed_url = workers[0].url.clone();
    let after = compute_trunc_set(&entries(&workers[1..]), 3);

    // Members that survive the removal keep their assignment.
    for url in before.as_slice().iter().filter(|u| **u != removed_url) {
        assert!(after.contains(url));
    }
}

#[test]
fn test_partition_respects_pins() {
    let workers = vec![
        make_pinned_worker("http://pin-t:8000", POOL_LABEL_TRUNCATION),
        make_pinned_worker("http://pin-s:8000", POOL_LABEL_STICKY),
        make_worker("http://float-1:8000"),
        make_worker("http://float-2:8000"),
    ];
    // k=1 is already satisfied by the pinned truncation worker: floaters stay sticky.
    let t = compute_trunc_set(&entries(&workers), 1);
    assert_eq!(t.len(), 1);
    assert!(t.contains("http://pin-t:8000"));

    // k=2: one floater joins; the pinned sticky worker never moves.
    let t = compute_trunc_set(&entries(&workers), 2);
    assert_eq!(t.len(), 2);
    assert!(t.contains("http://pin-t:8000"));
    assert!(!t.contains("http://pin-s:8000"));
}

#[test]
fn scores_are_those_of_the_default_hasher() {
    for url in ["", "http://w0:8000", "http://w1:8000"] {
        let mut hasher = DefaultHasher::new();
        url.hash(&mut hasher);
        assert_eq!(rendezvous_score(url), hasher.finish());
    }
    assert_ne!(rendezvous_score("http://w0:8000"), rendezvous_score("http://w1:8000"));
}

#[test]
fn higher_scores_take_the_slots_and_ties_go_to_the_first() {
    let workers = make_workers(4);
    let by_score = |scores: &[u64], k| {
        let set = trunc_set_by_score(&entries(&workers), scores, k);
        let mut urls = set.as_slice().to_vec();
        urls.sort();
        urls
    };
    assert_eq!(by_score(&[1, 4, 2, 3], 2), vec!["http://w1:8000", "http://w3:8000"]);
    assert_eq!(by_score(&[5, 5, 5, 5], 2), vec!["http://w0:8000", "http://w1:8000"]);
    assert!(by_score(&[1, 2, 3, 4], 0).is_empty());
    assert_eq!(by_score(&[1, 2, 3, 4], 9).len(), 4);
}

#[test]
fn listing_order_plays_no_part() {
    let workers = make_workers(8);
    let mut listed = entries(&workers);
    let t = compute_trunc_set(&listed, 3);
    listed.reverse();
    assert_eq!(compute_trunc_set(&listed, 3), t);
    listed.rotate_left(3);
    assert_eq!(compute_trunc_set(&listed, 3), t);
}

#[test]
fn a_leaving_worker_moves_at_most_one_other() {
    let workers = make_workers(8);
    let listed = entries(&workers);
    for k in 0..8 {
        let before = compute_trunc_set(&listed, k);
        for gone in 0..listed.len() {
            let mut rest = listed.clone();
            rest.remove(gone);
            let after = compute_trunc_set(&rest, k);
            assert!(after.difference(&before).len() <= 1);
            assert!(before.difference(&after).iter().all(|u| *u == listed[gone].0));
        }
    }
}

#[test]
fn other_pool_labels_do_not_pin() {
    let workers = vec![make_pinned_worker("http://a:8000", "gold"), make_worker("http://b:8000")];
    assert_eq!(pool_pin(&workers[0]), Some("gold"));
    assert_eq!(compute_trunc_set(&entries(&workers), 2).len(), 2);
    let none = UrlSet::new();
    assert!(!is_trunc_member(&workers[0], &none));
    assert!(is_trunc_member(&workers[0], &none.with("http://a:8000".to_string())));
}

#[test]
fn pins_are_read_from_the_pool_label() {
    let mut worker = make_worker("http://a:8000");
    worker.labels = vec![
        ("zone".to_string(), "truncation".to_string()),
        ("pool".to_string(), "sticky".to_string()),
    ];
    assert_eq!(pool_pin(&worker), Some("sticky"));
    worker.labels.pop();
    assert_eq!(pool_pin(&worker), None);
}

#[test]
fn url_sets_hold_each_url_once() {
    let a = UrlSet::new().with("x".to_string()).with("y".to_string()).with("x".to_string());
    let b = UrlSet::new().with("y".to_string()).with("x".to_string());
    assert_eq!(a.len(), 2);
    assert_eq!(a, b);
    let c = b.with_all(&UrlSet::new().with("z".to_string()));
    assert_ne!(a, c);
    assert!(a.is_subset(&c) && !c.is_subset(&a));
    assert_eq!(c.difference(&a), vec!["z".to_string()]);
}
