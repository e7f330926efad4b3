use prism::cache::CriteriaCache;
use prism::criteria::{Criteria, CriteriaGroup};
use prism::handler::get_criteria;
use prism::pending::PendingSet;
use std::collections::BTreeMap;

const TTL: u64 = 24 * 60 * 60;

fn stratifiers(key: &str, pairs: &[(&str, u64)]) -> CriteriaGroup {
    let mut c = Criteria::new();
    for (k, v) in pairs {
        c.insert(k.to_string(), *v);
    }
    let mut g = CriteriaGroup::new();
    g.insert(key.to_string(), c);
    g
}

fn json(g: &CriteriaGroup) -> String {
    let mut out: BTreeMap<String, BTreeMap<String, u64>> = BTreeMap::new();
    for k in g.keys() {
        out.insert(k.clone(), g.get(&k).unwrap().entries().into_iter().collect());
    }
    serde_json::to_string(&out).unwrap()
}

fn sites(names: &[&str]) -> Vec<String> {
    names.iter().map(|s| s.to_string()).collect()
}

fn sorted(mut v: Vec<String>) -> Vec<String> {
    v.sort();
    v
}

#[test]
fn empty_cache_two_sites_requested() {
    let cache = CriteriaCache::new(TTL);
    let mut pending = PendingSet::new();
    let r = get_criteria(&cache, &mut pending, &sites(&["A", "B"]), &sites(&["C"]), 1000);
    assert_eq!(json(&r), "{}");
    assert!(pending.contains(&"A".to_string()));
    assert!(pending.contains(&"B".to_string()));
    assert!(!pending.contains(&"C".to_string()));
    assert_eq!(sorted(pending.drain()), sites(&["A", "B"]));
}

#[test]
fn two_cached_sites_are_combined() {
    let mut cache = CriteriaCache::new(TTL);
    cache.put("A".to_string(), stratifiers("gender", &[("male", 20), ("female", 10)]), 100);
    cache.put("B".to_string(), stratifiers("gender", &[("female", 10), ("other", 10)]), 100);
    let mut pending = PendingSet::new();
    let r = get_criteria(&cache, &mut pending, &sites(&["A", "B"]), &vec![], 200);
    assert_eq!(json(&r), r#"{"gender":{"female":20,"male":20,"other":10}}"#);
    assert_eq!(pending.drain().len(), 0);
}

#[test]
fn expired_entry_is_absent_and_pending() {
    let mut cache = CriteriaCache::new(TTL);
    let t0 = 5_000;
    cache.put("A".to_string(), stratifiers("gender", &[("male", 1)]), t0);
    let mut pending = PendingSet::new();
    let r = get_criteria(&cache, &mut pending, &sites(&["A"]), &vec![], t0 + TTL + 1);
    assert_eq!(json(&r), "{}");
    assert!(pending.contains(&"A".to_string()));
    assert!(cache.get_fresh(&"A".to_string(), t0 + 1).is_some());
}

#[test]
fn empty_request_uses_initial_sites() {
    let mut cache = CriteriaCache::new(TTL);
    cache.put("A".to_string(), stratifiers("gender", &[("male", 3)]), 0);
    let mut pending = PendingSet::new();
    let r = get_criteria(&cache, &mut pending, &vec![], &sites(&["A", "B"]), 10);
    assert_eq!(json(&r), r#"{"gender":{"male":3}}"#);
    assert_eq!(sorted(pending.drain()), sites(&["B"]));
}

#[test]
fn get_fresh_follows_the_last_put() {
    let mut cache = CriteriaCache::new(100);
    let berlin = "berlin".to_string();
    assert!(cache.get_fresh(&berlin, 0).is_none());
    cache.put(berlin.clone(), stratifiers("gender", &[("male", 1)]), 10);
    assert_eq!(json(&cache.get_fresh(&berlin, 10).unwrap()), r#"{"gender":{"male":1}}"#);
    assert_eq!(json(&cache.get_fresh(&berlin, 109).unwrap()), r#"{"gender":{"male":1}}"#);
    assert!(cache.get_fresh(&berlin, 110).is_none());
    cache.put(berlin.clone(), stratifiers("gender", &[("male", 2)]), 200);
    assert_eq!(json(&cache.get_fresh(&berlin, 250).unwrap()), r#"{"gender":{"male":2}}"#);
    assert!(cache.get_fresh(&"munich".to_string(), 250).is_none());
    assert_eq!(cache.ttl(), 100);
}

#[test]
fn get_fresh_before_stamp_counts_as_fresh() {
    let mut cache = CriteriaCache::new(100);
    cache.put("A".to_string(), stratifiers("g", &[("x", 1)]), 500);
    assert!(cache.get_fresh(&"A".to_string(), 400).is_some());
}

#[test]
fn pending_add_is_idempotent_and_drain_empties() {
    let mut pending = PendingSet::new();
    pending.add("A".to_string());
    pending.add("B".to_string());
    pending.add("A".to_string());
    let drained = sorted(pending.drain());
    assert_eq!(drained, sites(&["A", "B"]));
    assert_eq!(pending.drain().len(), 0);
    assert!(!pending.contains(&"A".to_string()));
    pending.add("C".to_string());
    assert_eq!(pending.drain(), sites(&["C"]));
}

#[test]
fn hit_that_would_overflow_is_left_out() {
    let mut cache = CriteriaCache::new(TTL);
    cache.put("A".to_string(), stratifiers("gender", &[("male", u64::MAX)]), 0);
    cache.put("B".to_string(), stratifiers("gender", &[("male", 1)]), 0);
    let mut pending = PendingSet::new();
    let r = get_criteria(&cache, &mut pending, &sites(&["A", "B"]), &vec![], 1);
    assert_eq!(r.get(&"gender".to_string()).unwrap().get(&"male".to_string()), Some(u64::MAX));
    assert_eq!(pending.drain().len(), 0);
}
