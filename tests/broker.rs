use base64::Engine;
use prism::address::{after_first_dot, broker_domain, site_address, site_of_app_id, split_on};
use prism::beam::{build_task, create_beam_task, FailureStrategy};
use prism::config::{fill_query_template, parse_cors, parse_sites, Config, CorsOrigin};
use prism::errors::PrismError;
use prism::pending::PendingSet;
use prism::schedule::{health_step, query_sites, wait_count, HealthAction, HealthProbe};

fn config(app_id: &str) -> Config {
    Config {
        beam_proxy_url: "http://localhost:8081/".to_string(),
        beam_app_id_long: app_id.to_string(),
        api_key: "key".to_string(),
        sites: vec!["berlin".to_string()],
        cors_origin: CorsOrigin::Any,
        project: "bbmri".to_string(),
        bind_addr: "0.0.0.0:8080".to_string(),
        query_unencoded: r#"{"lib":"{{LIBRARY_UUID}}","measure":"{{MEASURE_UUID}}"}"#.to_string(),
        target: "focus".to_string(),
    }
}

fn decode(s: &str) -> String {
    String::from_utf8(base64::engine::general_purpose::STANDARD.decode(s).unwrap()).unwrap()
}

#[test]
fn build_task_addresses_each_site() {
    let c = config("prism.proxy1.broker.samply.de");
    let sites = vec!["berlin".to_string(), "munich".to_string()];
    let t = build_task(&c, &sites, "task-1".to_string(), "L", "M").unwrap();
    assert_eq!(t.id, "task-1");
    assert_eq!(t.from, "prism.proxy1.broker.samply.de");
    assert_eq!(t.to, vec!["focus.berlin.broker.samply.de".to_string(), "focus.munich.broker.samply.de".to_string()]);
    assert_eq!(decode(&t.body), r#"{"lib":"L","measure":"M"}"#);
    assert_eq!(t.project, "bbmri");
    assert!(!t.execute);
    assert!(matches!(t.failure_strategy, FailureStrategy::Retry { backoff_millisecs: 1000, max_tries: 5 }));
    assert_eq!(t.ttl, "360s");
}

#[test]
fn build_task_rejects_address_without_domain() {
    let c = config("prism");
    let r = build_task(&c, &vec!["berlin".to_string()], "id".to_string(), "L", "M");
    assert!(matches!(r, Err(PrismError::ConfigError(_))));
    let c = config("prism.proxy1");
    let r = build_task(&c, &vec!["berlin".to_string()], "id".to_string(), "L", "M");
    assert!(matches!(r, Err(PrismError::ConfigError(_))));
}

#[test]
fn create_beam_task_draws_fresh_identifiers() {
    let c = config("prism.proxy1.broker.samply.de");
    let sites = vec!["berlin".to_string()];
    let a = create_beam_task(&c, &sites).unwrap();
    let b = create_beam_task(&c, &sites).unwrap();
    assert_eq!(a.id.len(), 36);
    assert_ne!(a.id, b.id);
    let body = decode(&a.body);
    assert!(!body.contains("{{LIBRARY_UUID}}"));
    assert!(!body.contains("{{MEASURE_UUID}}"));
    assert_eq!(body.len(), r#"{"lib":"","measure":""}"#.len() + 72);
    assert_eq!(a.to, vec!["focus.berlin.broker.samply.de".to_string()]);
}

#[test]
fn fill_query_template_inserts_encoded_library() {
    let r = fill_query_template(r#"{"content":"{{LIBRARY_ENCODED}}"}"#, "library Retrieve");
    assert_eq!(r, r#"{"content":"bGlicmFyeSBSZXRyaWV2ZQ=="}"#);
    assert_eq!(fill_query_template("plain", "x"), "plain");
}

#[test]
fn parse_cors_any_and_exact() {
    assert!(matches!(parse_cors("*"), CorsOrigin::Any));
    assert!(matches!(parse_cors("any"), CorsOrigin::Any));
    assert!(matches!(parse_cors("ANY"), CorsOrigin::Any));
    assert!(matches!(parse_cors("AnY"), CorsOrigin::Any));
    match parse_cors("https://lens.example.org") {
        CorsOrigin::Exact(o) => assert_eq!(o, "https://lens.example.org"),
        CorsOrigin::Any => panic!("expected an exact origin"),
    }
    assert!(matches!(parse_cors("**"), CorsOrigin::Exact(_)));
}

#[test]
fn parse_sites_splits_on_semicolons() {
    assert_eq!(parse_sites("berlin;munich;dresden"), vec!["berlin", "munich", "dresden"]);
    assert_eq!(parse_sites("a;;b;"), vec!["a", "", "b", ""]);
    assert_eq!(parse_sites(""), vec![""]);
    assert_eq!(split_on("x.y", '.'), vec!["x", "y"]);
}

#[test]
fn site_of_app_id_takes_second_part() {
    assert_eq!(site_of_app_id("focus.berlin.broker.example.org"), Some("berlin".to_string()));
    assert_eq!(site_of_app_id("focus.berlin"), Some("berlin".to_string()));
    assert_eq!(site_of_app_id("focus..x"), Some(String::new()));
    assert_eq!(site_of_app_id("focus"), None);
}

#[test]
fn domains_of_addresses() {
    assert_eq!(after_first_dot("prism.proxy1.broker.de"), Some("proxy1.broker.de".to_string()));
    assert_eq!(after_first_dot("prism"), None);
    assert_eq!(broker_domain("prism.proxy1.broker.de"), Some("broker.de".to_string()));
    assert_eq!(broker_domain("prism.proxy1"), None);
    assert_eq!(site_address("focus", "berlin", "broker.de"), "focus.berlin.broker.de");
}

#[test]
fn scheduler_tick_drains_pending() {
    let mut pending = PendingSet::new();
    pending.add("A".to_string());
    pending.add("B".to_string());
    pending.add("C".to_string());
    let mut sites = query_sites(&mut pending, None);
    sites.sort();
    assert_eq!(sites, vec!["A", "B", "C"]);
    assert_eq!(wait_count(&sites), Some(3));
    assert_eq!(pending.drain().len(), 0);
    assert_eq!(query_sites(&mut pending, None).len(), 0);
}

#[test]
fn warm_up_leaves_pending_alone() {
    let mut pending = PendingSet::new();
    pending.add("A".to_string());
    let initial = vec!["X".to_string(), "Y".to_string()];
    assert_eq!(query_sites(&mut pending, Some(&initial)), initial);
    assert!(pending.contains(&"A".to_string()));
}

#[test]
fn no_sites_no_task() {
    assert_eq!(wait_count(&vec![]), None);
}

#[test]
fn health_gate_steps() {
    assert!(matches!(health_step(1, HealthProbe::Healthy), HealthAction::Ready));
    assert!(matches!(health_step(11, HealthProbe::Healthy), HealthAction::Ready));
    assert!(matches!(health_step(1, HealthProbe::Unreachable), HealthAction::Retry(2)));
    assert!(matches!(health_step(10, HealthProbe::Unhealthy(503)), HealthAction::Retry(11)));
    assert!(matches!(health_step(11, HealthProbe::Unhealthy(503)), HealthAction::NotReady(503)));
    assert!(matches!(health_step(11, HealthProbe::Unreachable), HealthAction::Unreachable));
}
