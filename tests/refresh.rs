use base64::Engine;
use prism::cache::CriteriaCache;
use prism::errors::{PrismError, WorkStatus};
use prism::mr::{Code, Group, MeasureReport, Period, Population, PopulationCode, Stratifier, Stratum, StratumValue};
use prism::refresh::{decode_result, store_report, TaskResult};
use serde_json::Value;

const VALID_REPORT: &str = r#"{"date":"2024","group":[{"code":{"text":"patients"},"population":[],"stratifier":[{"code":[{"text":"gender"}],"stratum":[{"population":[{"code":{"coding":[]},"count":20}],"value":{"text":"male"}},{"population":[{"code":{"coding":[]},"count":10}],"value":{"text":"female"}}]}]}],"measure":"m","period":{"start":"a","end":"b"},"resourceType":"MeasureReport","status":"complete","type":"summary"}"#;

fn text(v: &Value, key: &str) -> String {
    v.get(key).and_then(Value::as_str).unwrap_or_default().to_string()
}

fn list<'a>(v: &'a Value, key: &str) -> Vec<&'a Value> {
    v.get(key).and_then(Value::as_array).map(|a| a.iter().collect()).unwrap_or_default()
}

fn populations(v: &Value) -> Vec<Population> {
    list(v, "population")
        .into_iter()
        .map(|p| Population { code: PopulationCode { coding: vec![] }, count: p.get("count").and_then(Value::as_u64).unwrap() })
        .collect()
}

fn parse_report(bytes: &[u8]) -> Option<MeasureReport> {
    let v: Value = serde_json::from_slice(bytes).ok()?;
    let group = list(&v, "group")
        .into_iter()
        .map(|g| Group {
            code: Code { text: text(g.get("code").unwrap(), "text") },
            population: populations(g),
            stratifier: list(g, "stratifier")
                .into_iter()
                .map(|s| Stratifier {
                    code: list(s, "code").into_iter().map(|c| Code { text: text(c, "text") }).collect(),
                    stratum: s.get("stratum").map(|_| {
                        list(s, "stratum")
                            .into_iter()
                            .map(|st| Stratum {
                                population: populations(st),
                                value: StratumValue { text: text(st.get("value").unwrap(), "text") },
                            })
                            .collect()
                    }),
                })
                .collect(),
        })
        .collect();
    Some(MeasureReport {
        date: text(&v, "date"),
        group,
        id: None,
        measure: text(&v, "measure"),
        period: Period { end: String::new(), start: String::new() },
        resource_type: text(&v, "resourceType"),
        status: text(&v, "status"),
        type_: text(&v, "type"),
    })
}

fn frame(from: &str, status: WorkStatus, body: &str) -> TaskResult {
    TaskResult { from: from.to_string(), status, body: body.to_string() }
}

#[test]
fn result_stream_survives_bad_frames() {
    let valid = base64::engine::general_purpose::STANDARD.encode(VALID_REPORT);
    let frames = vec![
        frame("focus.berlin.broker.example.org", WorkStatus::Claimed, ""),
        frame("focus.munich.broker.example.org", WorkStatus::PermFailed, ""),
        frame("focus.berlin.broker.example.org", WorkStatus::Succeeded, &valid),
        frame("focus.hamburg.broker.example.org", WorkStatus::Succeeded, "!!not base64!!"),
        frame("focus.dresden.broker.example.org", WorkStatus::Succeeded, &valid),
    ];
    let mut cache = CriteriaCache::new(3600);
    let mut stored = Vec::new();
    for f in &frames {
        let bytes = match decode_result(f) {
            Ok(b) => b,
            Err(_) => continue,
        };
        let report = match parse_report(&bytes) {
            Some(r) => r,
            None => continue,
        };
        if let Ok(site) = store_report(&mut cache, &f.from, report, 10) {
            stored.push(site);
        }
    }
    assert_eq!(stored, vec!["berlin".to_string(), "dresden".to_string()]);
    let got = cache.get_fresh(&"berlin".to_string(), 11).unwrap();
    assert_eq!(got.get(&"gender".to_string()).unwrap().get(&"male".to_string()), Some(20));
    assert!(cache.get_fresh(&"dresden".to_string(), 11).is_some());
    assert!(cache.get_fresh(&"hamburg".to_string(), 11).is_none());
    assert!(cache.get_fresh(&"munich".to_string(), 11).is_none());
}

#[test]
fn decode_result_reports_status_of_unfinished_work() {
    for status in [WorkStatus::Claimed, WorkStatus::TempFailed, WorkStatus::PermFailed] {
        let r = decode_result(&frame("a.b.c", status, "aGVsbG8="));
        assert!(matches!(r, Err(PrismError::UnexpectedWorkStatus(s)) if s == status));
    }
}

#[test]
fn decode_result_decodes_body() {
    let r = decode_result(&frame("a.b.c", WorkStatus::Succeeded, "aGVsbG8=")).unwrap();
    assert_eq!(r, b"hello".to_vec());
}

#[test]
fn decode_result_rejects_bad_base64() {
    let r = decode_result(&frame("a.b.c", WorkStatus::Succeeded, "a$b"));
    assert!(matches!(r, Err(PrismError::DecodeError(_))));
}

#[test]
fn store_report_needs_a_site_in_the_address() {
    let mut cache = CriteriaCache::new(3600);
    let report = parse_report(VALID_REPORT.as_bytes()).unwrap();
    let r = store_report(&mut cache, "nodots", report, 1);
    assert!(matches!(r, Err(PrismError::ParsingError(_))));
    assert!(cache.get_fresh(&"nodots".to_string(), 1).is_none());
}

#[test]
fn store_report_rejects_unreducible_report() {
    let mut cache = CriteriaCache::new(3600);
    let mut report = parse_report(VALID_REPORT.as_bytes()).unwrap();
    report.group[0].stratifier[0].code.clear();
    let r = store_report(&mut cache, "focus.berlin.x", report, 1);
    assert!(matches!(r, Err(PrismError::ParsingError(_))));
    assert!(cache.get_fresh(&"berlin".to_string(), 1).is_none());
}
