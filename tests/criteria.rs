use prism::criteria::{
    combine_criteria_groups, combine_groups_of_criteria_groups, combine_maps, Criteria, CriteriaGroup,
    CriteriaGroups,
};
use std::collections::BTreeMap;

fn counts(pairs: &[(&str, u64)]) -> Criteria {
    let mut c = Criteria::new();
    for (k, v) in pairs {
        c.insert(k.to_string(), *v);
    }
    c
}

fn group(pairs: Vec<(&str, Criteria)>) -> CriteriaGroup {
    let mut g = CriteriaGroup::new();
    for (k, v) in pairs {
        g.insert(k.to_string(), v);
    }
    g
}

fn counts_tree(c: &Criteria) -> BTreeMap<String, u64> {
    c.entries().into_iter().collect()
}

fn group_tree(g: &CriteriaGroup) -> BTreeMap<String, BTreeMap<String, u64>> {
    let mut out = BTreeMap::new();
    for k in g.keys() {
        out.insert(k.clone(), counts_tree(g.get(&k).unwrap()));
    }
    out
}

fn groups_tree(g: &CriteriaGroups) -> BTreeMap<String, BTreeMap<String, BTreeMap<String, u64>>> {
    let mut out = BTreeMap::new();
    for k in g.keys() {
        out.insert(k.clone(), group_tree(g.get(&k).unwrap()));
    }
    out
}

const CRITERIA_GROUP_JSON: &str = r#"{"gender":{"female":20,"male":20,"other":10}}"#;
const CRITERIA_GROUPS_JSON: &str = r#"{"patients":{"gender":{"female":20,"male":20,"other":10}}}"#;

#[test]
fn test_combining_criteria_groups_serialization() {
    let map1 = counts(&[("male", 20), ("female", 10)]);
    let map2 = counts(&[("female", 10), ("other", 10)]);

    let combined_map = combine_maps(map1.duplicate(), map2.duplicate());
    let criteria_group = group(vec![("gender", combined_map)]);
    let criteria_group_json =
        serde_json::to_string(&group_tree(&criteria_group)).expect("Failed to serialize JSON");
    assert_eq!(CRITERIA_GROUP_JSON, criteria_group_json);

    let criteria_group1 = group(vec![("gender", map1)]);
    let criteria_group2 = group(vec![("gender", map2)]);
    let criteria_group_combined =
        combine_criteria_groups(criteria_group1.duplicate(), criteria_group2.duplicate());
    let criteria_group_combined_json =
        serde_json::to_string(&group_tree(&criteria_group_combined)).expect("Failed to serialize JSON");
    assert_eq!(CRITERIA_GROUP_JSON, criteria_group_combined_json);

    let mut criteria_groups1 = CriteriaGroups::new();
    criteria_groups1.insert("patients".to_string(), criteria_group1);
    let mut criteria_groups2 = CriteriaGroups::new();
    criteria_groups2.insert("patients".to_string(), criteria_group2);
    let criteria_groups_combined = combine_groups_of_criteria_groups(criteria_groups1, criteria_groups2);
    let criteria_groups_combined_json =
        serde_json::to_string(&groups_tree(&criteria_groups_combined)).expect("Failed to serialize JSON");
    assert_eq!(CRITERIA_GROUPS_JSON, criteria_groups_combined_json);
}

#[test]
fn combine_maps_is_commutative_on_example() {
    let a = counts(&[("male", 3), ("female", 4)]);
    let b = counts(&[("female", 1), ("diverse", 2)]);
    let ab = combine_maps(a.duplicate(), b.duplicate());
    let ba = combine_maps(b, a);
    assert_eq!(counts_tree(&ab), counts_tree(&ba));
    assert_eq!(ab.get(&"female".to_string()), Some(5));
    assert_eq!(ab.get(&"diverse".to_string()), Some(2));
    assert_eq!(ab.get(&"male".to_string()), Some(3));
}

#[test]
fn combine_maps_is_associative_on_example() {
    let a = counts(&[("x", 1), ("y", 2)]);
    let b = counts(&[("y", 3), ("z", 4)]);
    let c = counts(&[("x", 5), ("z", 6), ("w", 7)]);
    let left = combine_maps(a.duplicate(), combine_maps(b.duplicate(), c.duplicate()));
    let right = combine_maps(combine_maps(a, b), c);
    assert_eq!(counts_tree(&left), counts_tree(&right));
    let expected: BTreeMap<String, u64> =
        [("w", 7), ("x", 6), ("y", 5), ("z", 10)].iter().map(|(k, v)| (k.to_string(), *v)).collect();
    assert_eq!(counts_tree(&left), expected);
}

#[test]
fn combine_maps_with_empty_is_identity() {
    let a = counts(&[("male", 20), ("female", 10)]);
    let right = combine_maps(a.duplicate(), Criteria::new());
    let left = combine_maps(Criteria::new(), a.duplicate());
    assert_eq!(counts_tree(&right), counts_tree(&a));
    assert_eq!(counts_tree(&left), counts_tree(&a));
    assert_eq!(combine_maps(Criteria::new(), Criteria::new()).len(), 0);
}

#[test]
fn combine_maps_keeps_largest_count() {
    let a = counts(&[("k", u64::MAX - 1)]);
    let b = counts(&[("k", 1)]);
    assert!(a.fits_with(&b));
    let ab = combine_maps(a, b);
    assert_eq!(ab.get(&"k".to_string()), Some(u64::MAX));
    let one = counts(&[("k", 1)]);
    assert!(!ab.fits_with(&one));
}

#[test]
fn criteria_insert_replaces_and_add_count_sums() {
    let mut c = Criteria::new();
    c.insert("a".to_string(), 1);
    c.insert("a".to_string(), 7);
    assert_eq!(c.len(), 1);
    assert_eq!(c.get(&"a".to_string()), Some(7));
    c.add_count("a".to_string(), 3);
    c.add_count("b".to_string(), 2);
    assert_eq!(c.get(&"a".to_string()), Some(10));
    assert_eq!(c.get(&"b".to_string()), Some(2));
    assert_eq!(c.get(&"c".to_string()), None);
}

#[test]
fn combine_criteria_groups_unions_keys() {
    let g1 = group(vec![("gender", counts(&[("male", 1)])), ("age", counts(&[("10", 2)]))]);
    let g2 = group(vec![("gender", counts(&[("male", 4), ("female", 5)])), ("site", counts(&[]))]);
    let g12 = combine_criteria_groups(g1.duplicate(), g2.duplicate());
    let g21 = combine_criteria_groups(g2, g1);
    assert_eq!(group_tree(&g12), group_tree(&g21));
    assert_eq!(
        serde_json::to_string(&group_tree(&g12)).unwrap(),
        r#"{"age":{"10":2},"gender":{"female":5,"male":5},"site":{}}"#
    );
}

#[test]
fn combine_criteria_groups_with_empty_is_identity() {
    let g = group(vec![("gender", counts(&[("male", 1), ("female", 2)]))]);
    let r = combine_criteria_groups(g.duplicate(), CriteriaGroup::new());
    let l = combine_criteria_groups(CriteriaGroup::new(), g.duplicate());
    assert_eq!(group_tree(&r), group_tree(&g));
    assert_eq!(group_tree(&l), group_tree(&g));
}

#[test]
fn criteria_group_fits_with_detects_overflow() {
    let g1 = group(vec![("gender", counts(&[("male", u64::MAX)]))]);
    let g2 = group(vec![("gender", counts(&[("male", 1)]))]);
    let g3 = group(vec![("age", counts(&[("male", 1)]))]);
    assert!(!g1.fits_with(&g2));
    assert!(g1.fits_with(&g3));
}
