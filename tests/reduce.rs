use prism::criteria::{CriteriaGroup, Criteria};
use prism::errors::PrismError;
use prism::mr::{
    extract_criteria, Code, Coding, Group, MeasureReport, Period, Population, PopulationCode,
    Stratifier, Stratum, StratumValue,
};
use std::collections::BTreeMap;

fn population(count: u64) -> Population {
    Population {
        code: PopulationCode {
            coding: vec![Coding { code: "initial-population".to_string(), system: "http://terminology.hl7.org/CodeSystem/measure-population".to_string() }],
        },
        count,
    }
}

fn stratum(value: &str, count: u64) -> Stratum {
    Stratum { population: vec![population(count)], value: StratumValue { text: value.to_string() } }
}

fn stratifier(key: &str, strata: Option<Vec<Stratum>>) -> Stratifier {
    Stratifier { code: vec![Code { text: key.to_string() }], stratum: strata }
}

fn report(groups: Vec<Vec<Stratifier>>) -> MeasureReport {
    MeasureReport {
        date: "2024-01-01".to_string(),
        group: groups
            .into_iter()
            .map(|s| Group { code: Code { text: "patients".to_string() }, population: vec![population(1)], stratifier: s })
            .collect(),
        id: None,
        measure: "urn:uuid:measure".to_string(),
        period: Period { end: "2030".to_string(), start: "2000".to_string() },
        resource_type: "MeasureReport".to_string(),
        status: "complete".to_string(),
        type_: "summary".to_string(),
    }
}

fn counts_tree(c: &Criteria) -> BTreeMap<String, u64> {
    c.entries().into_iter().collect()
}

fn group_tree(g: &CriteriaGroup) -> BTreeMap<String, BTreeMap<String, u64>> {
    let mut out = BTreeMap::new();
    for k in g.keys() {
        out.insert(k.clone(), counts_tree(g.get(&k).unwrap()));
    }
    out
}

#[test]
fn reduce_takes_first_code_and_first_population() {
    let mut s = stratifier("gender", Some(vec![stratum("male", 20), stratum("female", 10)]));
    s.code.push(Code { text: "ignored".to_string() });
    s.stratum.as_mut().unwrap()[0].population.push(population(99));
    let r = extract_criteria(report(vec![vec![s]])).unwrap();
    assert_eq!(serde_json::to_string(&group_tree(&r)).unwrap(), r#"{"gender":{"female":10,"male":20}}"#);
}

#[test]
fn reduce_sums_a_key_recurring_across_groups() {
    let g1 = vec![stratifier("gender", Some(vec![stratum("male", 20), stratum("female", 10)]))];
    let g2 = vec![
        stratifier("gender", Some(vec![stratum("female", 10), stratum("other", 10)])),
        stratifier("age", Some(vec![stratum("40", 3)])),
    ];
    let r = extract_criteria(report(vec![g1, g2])).unwrap();
    assert_eq!(
        serde_json::to_string(&group_tree(&r)).unwrap(),
        r#"{"age":{"40":3},"gender":{"female":20,"male":20,"other":10}}"#
    );
}

#[test]
fn reduce_absent_strata_give_empty_counts() {
    let r = extract_criteria(report(vec![vec![stratifier("diagnosis", None)]])).unwrap();
    assert_eq!(serde_json::to_string(&group_tree(&r)).unwrap(), r#"{"diagnosis":{}}"#);
}

#[test]
fn reduce_empty_report_is_empty() {
    let r = extract_criteria(report(vec![])).unwrap();
    assert_eq!(r.len(), 0);
    let r = extract_criteria(report(vec![vec![]])).unwrap();
    assert_eq!(r.len(), 0);
}

#[test]
fn reduce_missing_code_is_parsing_error() {
    let s = Stratifier { code: vec![], stratum: Some(vec![stratum("male", 1)]) };
    let r = extract_criteria(report(vec![vec![stratifier("age", None)], vec![s]]));
    assert!(matches!(r, Err(PrismError::ParsingError(_))));
}

#[test]
fn reduce_empty_population_is_parsing_error() {
    let bad = Stratum { population: vec![], value: StratumValue { text: "male".to_string() } };
    let r = extract_criteria(report(vec![vec![stratifier("gender", Some(vec![stratum("female", 1), bad]))]]));
    assert!(matches!(r, Err(PrismError::ParsingError(_))));
}

#[test]
fn reduce_overflowing_sum_is_parsing_error() {
    let g1 = vec![stratifier("gender", Some(vec![stratum("male", u64::MAX)]))];
    let g2 = vec![stratifier("gender", Some(vec![stratum("male", 1)]))];
    let r = extract_criteria(report(vec![g1, g2]));
    assert!(matches!(r, Err(PrismError::ParsingError(_))));
}

#[test]
fn reduce_is_deterministic() {
    let make = || {
        report(vec![
            vec![stratifier("gender", Some(vec![stratum("male", 2), stratum("female", 3)]))],
            vec![stratifier("gender", Some(vec![stratum("male", 5)]))],
        ])
    };
    let a = extract_criteria(make()).unwrap();
    let b = extract_criteria(make()).unwrap();
    assert_eq!(group_tree(&a), group_tree(&b));
}

#[test]
fn reduce_result_survives_json_round_trip() {
    let r = extract_criteria(report(vec![vec![
        stratifier("gender", Some(vec![stratum("male", 2), stratum("female", 3)])),
        stratifier("sample_kind", Some(vec![stratum("blood \"plasma\"", 7)])),
    ]]))
    .unwrap();
    let tree = group_tree(&r);
    let text = serde_json::to_string(&tree).unwrap();
    let back: BTreeMap<String, BTreeMap<String, u64>> = serde_json::from_str(&text).unwrap();
    assert_eq!(back, tree);
    assert_eq!(serde_json::to_string(&back).unwrap(), text);
}
