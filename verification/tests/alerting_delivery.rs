use opencapx::alerting::bundle::{decrypt_bundle, file_secret, is_signature_readable, keychain_secret, keychain_text, new_secret, seal_bundle, sign_bundle, split_signature, verified_body, verify_bundle};
use opencapx::alerting::dispatch::{Delivery, DispatchState, compute_signature, elapsed_secs, envelope_with_id, escalation_deliveries, escalation_round, is_bridged, let_through, plan_deliveries, test_send_request};
use opencapx::alerting::endpoints::{delete_endpoint, gen_endpoint_id, test_endpoint_request};
use opencapx::alerting::ids::{gen_event_id, gen_event_ids, gen_time_id};
use opencapx::alerting::retry::{RetryConfig, clear_resolved_failed_deliveries, compute_backoff_secs, delete_failed_delivery, due_deliveries, enqueue_failed_delivery, gen_delivery_id, list_failed_deliveries, manual_retry_failed_delivery, prune_old_failed_deliveries, queue_failed, record_retry, retry_request};
use opencapx::alerting::routes::{comparisons_needed, delete_route, dry_run_route, export_routes_yaml, gen_route_id, import_routes_yaml, list_enabled_routes, route_target_ids, trial_payload};
use opencapx::alerting::severity::{SeverityHintDto, SeverityLink, severity_for_source};
use opencapx::alerting::silences::{gen_ack_id, is_acked};
use opencapx::alerting::simulator::simulate_alerting_dispatch;
use opencapx::alerting::stamps::Stamp;
use opencapx::alerting::storage::{EscalationRule, EscalationRuleDto, Storage};
use opencapx::alerting::store::Table;
use opencapx::alerting::template::render_template;
use opencapx::alerting::timeline::{CycleReport, RecentEvents, RouteSeenEvent};
use opencapx::alerting::types::{AckRuleRow, AlertingEndpointRow, RouteRule, RouteRuleRow, SeenInLastSpec, Severity, SilenceRuleRow, WebhookConfig, WebhookEndpoint, WebhookSources};
use opencapx::alerting::util::kind_matches;
use opencapx::alerting::{endpoints, escalations, routes, severity, silences, timeline};
use opencapx::json::Json;

fn now_secs() -> u64 {
    std::time::SystemTime::now()
        .duration_since(std::time::UNIX_EPOCH)
        .map(|d| d.as_secs())
        .unwrap_or(0)
}

fn json(text: &str) -> Json {
    trial_payload(text).unwrap()
}

/// A store, what alerting remembers, and the time.
struct Desk {
    store: Storage,
    state: DispatchState,
    now: u64,
    made: u64,
}

impl Desk {
    fn new() -> Self {
        Desk {
            store: Storage::new(),
            state: DispatchState::new(),
            now: now_secs(),
            made: 0,
        }
    }

    fn next(&mut self) -> u64 {
        self.made += 1;
        self.made
    }

    fn save_user_severity_hint(&mut self, source: &str, level: &str) -> Result<SeverityHintDto, String> {
        severity::save_user_severity_hint(&mut self.store, source, level, self.now as i64)
    }

    fn delete_user_severity_hint(&mut self, source: &str) -> bool {
        severity::delete_user_severity_hint(&mut self.store, source)
    }

    fn severity_resolved(&self, source: &str) -> Severity {
        severity::severity_resolved(&self.store, source)
    }

    fn severity_inheritance_chain(&self, source: &str) -> Vec<SeverityLink> {
        severity::severity_inheritance_chain(&self.store, source)
    }

    fn save_escalation(&mut self, rule: EscalationRule) -> Result<EscalationRuleDto, String> {
        escalations::save_escalation(&mut self.store, rule, self.now)
    }

    fn record_dispatch(&mut self, source: &str, now: u64) {
        escalations::record_dispatch(&mut self.state.escalation, source, now)
    }

    fn ack_kind(&mut self, pattern: String, window: u64) -> Result<AckRuleRow, String> {
        let id = gen_ack_id(self.now, self.next());
        silences::ack_kind(&mut self.store, pattern, window, &id, self.now)
    }

    fn save_endpoint(&mut self, ep: WebhookEndpoint) -> Result<AlertingEndpointRow, String> {
        let id = gen_endpoint_id(self.now, self.next());
        endpoints::save_endpoint(&mut self.store, ep, &id, self.now)
    }

    fn list_endpoints(&self) -> Vec<AlertingEndpointRow> {
        endpoints::list_endpoints(&self.store)
    }

    fn save_route(&mut self, rule: RouteRule) -> Result<RouteRuleRow, String> {
        let id = gen_route_id(self.now, self.next());
        routes::save_route(&mut self.store, rule, &id, self.now)
    }

    fn list_routes(&self) -> Vec<RouteRuleRow> {
        routes::list_routes(&self.store)
    }

    fn record_seen_event(&mut self, source: &str, summary: &str, at: u64, fired: Vec<String>, hit: Vec<String>) {
        timeline::record_seen_event(&mut self.state.recent, source, summary, at, fired, hit)
    }

    fn recent_events_snapshot(&self, limit: usize) -> Vec<RouteSeenEvent> {
        timeline::recent_events_snapshot(&self.state.recent, limit)
    }

    fn detect_route_cycles(&self) -> Vec<CycleReport> {
        timeline::detect_route_cycles(&self.store)
    }
}

fn fresh_config() -> WebhookConfig {
    WebhookConfig {
        enabled: true,
        url: "https://hooks.example.com/services/T/B/X".into(),
        min_interval_secs: 5,
        sources: WebhookSources {
            metrics_exceeded: true,
            sla_violated: true,
            kill_switch_engaged: true,
            plugin_crashed: true,
        },
        custom_headers: vec![("X-OpenCapX-Test".into(), "yes".into())],
        schema_version: 0,
    }
}

fn endpoint(id: &str, filter: &[&str]) -> WebhookEndpoint {
    WebhookEndpoint {
        id: id.into(),
        name: id.into(),
        url: format!("https://{id}.example.com/hook"),
        enabled: true,
        headers: vec![("X-K".into(), "V".into())],
        secret: "shh".into(),
        source_filter: filter.iter().map(|s| s.to_string()).collect(),
        schema_version: 0,
        template: None,
        template_sample: None,
        severity_overrides: vec![],
    }
}

fn route(id: &str, priority: i32, kind: &str, target: &str) -> RouteRule {
    RouteRule {
        id: id.into(),
        name: format!("name-{id}"),
        priority,
        enabled: true,
        kind_pattern: kind.into(),
        payload_path: None,
        payload_match: None,
        target_endpoint_ids: vec![target.into()],
        recipients: vec![],
        tags: vec!["t".into()],
        seen_in_last: None,
    }
}

fn plan(desk: &mut Desk, source: &str) -> Vec<Delivery> {
    let payload = json(r#"{"cpu": 95}"#);
    let numbers = vec![None; comparisons_needed(&desk.store, &payload).len()];
    plan_deliveries(
        &desk.store,
        &fresh_config(),
        &mut desk.state,
        source,
        &payload,
        Severity::Warn,
        &numbers,
        desk.now,
    )
}

#[test]
fn signatures_are_those_of_hmac_sha256() {
    assert_eq!(
        compute_signature("key", "The quick brown fox jumps over the lazy dog"),
        "sha256=f7bc83f430538424b13298e6aa6fb143ef4d59a14946175997479dbc2d1a3cd8"
    );
}

#[test]
fn ids_of_events_do_not_repeat() {
    let ids = gen_event_ids(20);
    for (i, id) in ids.iter().enumerate() {
        assert_eq!(id.len(), 36);
        assert_eq!(&id[14..15], "4");
        assert!(!ids[..i].contains(id));
    }
    assert_eq!(gen_time_id("ep-", 255, 1), gen_endpoint_id(255, 1));
    assert_ne!(gen_endpoint_id(255, 1), gen_endpoint_id(255, 2));
}

#[test]
fn without_endpoints_the_one_webhook_is_used() {
    let mut desk = Desk::new();
    let sent = plan(&mut desk, "plugin.metrics.exceeded");
    assert_eq!(sent.len(), 1);
    assert_eq!(sent[0].endpoint_id, None);
    assert_eq!(sent[0].url, "https://hooks.example.com/services/T/B/X");
    assert_eq!(
        sent[0].body,
        format!(r#"{{"data":{{"cpu":95}},"source":"plugin.metrics.exceeded","timestamp":{}}}"#, desk.now)
    );
    assert_eq!(sent[0].queued, r#"{"cpu":95}"#);
}

#[test]
fn endpoints_get_what_they_accept() {
    let mut desk = Desk::new();
    desk.save_endpoint(endpoint("ep-all", &[])).unwrap();
    desk.save_endpoint(endpoint("ep-crash", &["plugin.lifecycle.crashed"])).unwrap();
    let sent = plan(&mut desk, "plugin.metrics.exceeded");
    assert_eq!(sent.len(), 1);
    assert_eq!(sent[0].endpoint_id.as_deref(), Some("ep-all"));
    assert_eq!(sent[0].headers.len(), 2);
    assert_eq!(sent[0].headers[1].0, "X-OpenCapX-Signature");
    assert_eq!(sent[0].headers[1].1, compute_signature("shh", &sent[0].body));
    assert_eq!(desk.recent_events_snapshot(5)[0].source, "plugin.metrics.exceeded");
    assert_eq!(plan(&mut desk, "plugin.lifecycle.crashed").len(), 2);
}

#[test]
fn the_lowest_priority_takes_the_event() {
    let mut desk = Desk::new();
    desk.save_endpoint(endpoint("ep-a", &[])).unwrap();
    desk.save_endpoint(endpoint("ep-b", &[])).unwrap();
    desk.save_route(route("late", 90, "*", "ep-a")).unwrap();
    desk.save_route(route("early", 10, "plugin.*", "ep-b")).unwrap();
    let sent = plan(&mut desk, "plugin.metrics.exceeded");
    assert_eq!(sent.len(), 1);
    assert_eq!(sent[0].endpoint_id.as_deref(), Some("ep-b"));
    let other = plan(&mut desk, "capability.sla.violated");
    assert_eq!(other[0].endpoint_id.as_deref(), Some("ep-a"));
    let recent = RecentEvents::new();
    let none = vec![None, None];
    let won = dry_run_route(&desk.store, "plugin.x", "{}", &none, &recent, desk.now).unwrap().unwrap();
    assert_eq!(won.name, "name-early");
    assert!(dry_run_route(&desk.store, "plugin.x", "{bad", &none, &recent, desk.now).is_err());
    assert_eq!(
        route_target_ids(&desk.store, "x", &json("{}"), &none, &recent, desk.now),
        Some(vec!["ep-a".to_string()])
    );
}

#[test]
fn a_route_waits_for_what_it_has_to_see() {
    let mut desk = Desk::new();
    let mut waiting = route("seen", 1, "plugin.lifecycle.crashed", "ep-a");
    waiting.seen_in_last = Some(SeenInLastSpec { pattern: "plugin.metrics.*".into(), window_secs: 60 });
    let row = desk.save_route(waiting).unwrap();
    let now = desk.now;
    let before = routes::route_matches(&row, "plugin.lifecycle.crashed", &json("{}"), None, &desk.state.recent, now);
    assert!(!before);
    desk.record_seen_event("plugin.metrics.exceeded", "{}", now - 5, vec![], vec![]);
    let after = routes::route_matches(&row, "plugin.lifecycle.crashed", &json("{}"), None, &desk.state.recent, now);
    assert!(after);
}

#[test]
fn exported_routes_come_back() {
    let mut desk = Desk::new();
    desk.save_route(route("a", 10, "plugin.*", "ep-a")).unwrap();
    desk.save_route(route("b", 20, "*", "ep-b")).unwrap();
    let doc = export_routes_yaml(&desk.store);
    let mut desk = Desk::new();
    assert_eq!(import_routes_yaml(&mut desk.store, doc, 1, 1, desk.now), Ok(2));
    let routes = desk.list_routes();
    assert_eq!(routes.len(), 2);
    assert_eq!(routes[0].id, "a");
    assert_eq!(routes[1].tags, vec!["t".to_string()]);
}

#[test]
fn a_silence_an_ack_or_a_repeat_stops_an_event() {
    let cfg = fresh_config();
    let payload = json(r#"{"k": 1}"#);
    let mut quiet = Desk::new();
    quiet.store.silences.put(SilenceRuleRow {
        id: "s".into(),
        name: "s".into(),
        kind_pattern: "plugin.*".into(),
        starts_at: 0,
        ends_at: u64::MAX,
        weekdays: 127,
        start_hour: 0,
        end_hour: 24,
        created_at: 0,
    });
    assert!(let_through(&quiet.store, &cfg, &mut quiet.state, "plugin.metrics.exceeded", &payload, quiet.now, 0).is_none());

    let mut desk = Desk::new();
    desk.ack_kind("plugin.*".into(), 60).unwrap();
    let now = desk.now;
    assert!(is_acked(&desk.store, "plugin.metrics.exceeded", now + 59));
    assert!(!is_acked(&desk.store, "plugin.metrics.exceeded", now + 60));
    assert!(let_through(&desk.store, &cfg, &mut desk.state, "plugin.metrics.exceeded", &payload, now, 0).is_none());

    let mut desk = Desk::new();
    let first = let_through(&desk.store, &cfg, &mut desk.state, "plugin.metrics.exceeded", &payload, desk.now, 0);
    assert_eq!(first.unwrap().1, Severity::Warn);
    let again = let_through(&desk.store, &cfg, &mut desk.state, "plugin.metrics.exceeded", &payload, desk.now, 4_999_999_999);
    assert!(again.is_none());
    let later = let_through(&desk.store, &cfg, &mut desk.state, "plugin.metrics.exceeded", &payload, desk.now, 5_000_000_000);
    assert!(later.is_some());
    assert_eq!(elapsed_secs(0, 4_999_999_999), 4);
}

#[test]
fn a_trial_foretells_what_happens() {
    let mut desk = Desk::new();
    desk.save_endpoint(endpoint("ep-a", &[])).unwrap();
    desk.save_route(route("r", 10, "plugin.*", "ep-a")).unwrap();
    let numbers = vec![None];
    let cfg = fresh_config();
    let told = simulate_alerting_dispatch(
        &desk.store,
        &cfg,
        &desk.state,
        "plugin.metrics.exceeded",
        Some(r#"{"k": 1}"#),
        &numbers,
        desk.now,
        0,
    )
    .unwrap();
    assert!(!told.gates.would_be_dropped);
    assert_eq!(told.route.target_endpoint_ids, vec!["ep-a".to_string()]);
    assert!(!told.correlation.would_suppress);
    assert!(!told.aggregation.would_fire);
    assert!(!told.escalation.would_escalate);
    assert_eq!(told.endpoints.len(), 1);
    let payload = json(r#"{"k": 1}"#);
    assert!(let_through(&desk.store, &cfg, &mut desk.state, "plugin.metrics.exceeded", &payload, desk.now, 0).is_some());
    let blank = simulate_alerting_dispatch(&desk.store, &cfg, &desk.state, "  ", None, &numbers, desk.now, 0);
    assert!(blank.is_err());
    let broken = simulate_alerting_dispatch(&desk.store, &cfg, &desk.state, "x", Some("{"), &numbers, desk.now, 0);
    assert!(broken.is_err());
}

#[test]
fn failed_deliveries_are_sent_again_until_given_up() {
    let mut desk = Desk::new();
    let cfg = RetryConfig { max_attempts: 2, initial_backoff_secs: 30, max_backoff_secs: 600, retention_days: 7 };
    let id = gen_delivery_id(7, 1);
    let sent = plan(&mut desk, "plugin.metrics.exceeded").remove(0);
    queue_failed(&mut desk.store, &sent, &id, "plugin.metrics.exceeded", "refused", &cfg, 1_000);
    let row = &list_failed_deliveries(&desk.store, None, 10)[0];
    assert_eq!(row.attempts, 1);
    assert_eq!(row.next_retry_ts, 1_030);
    assert!(due_deliveries(&desk.store, 1_029, 10).is_empty());
    let due = due_deliveries(&desk.store, 1_030, 10);
    assert_eq!(due.len(), 1);
    assert_eq!(retry_request(&desk.store, &due[0], 1_030).url, sent.url);
    record_retry(&mut desk.store, &id, Some("refused again"), &cfg, 1_030);
    assert_eq!(list_failed_deliveries(&desk.store, Some("exhausted"), 10).len(), 1);
    assert!(manual_retry_failed_delivery(&mut desk.store, &id, 2_000));
    assert_eq!(due_deliveries(&desk.store, 2_000, 10).len(), 1);
    record_retry(&mut desk.store, &id, None, &cfg, 2_000);
    assert_eq!(list_failed_deliveries(&desk.store, Some("resolved"), 10).len(), 1);
    assert_eq!(clear_resolved_failed_deliveries(&mut desk.store), 1);
    assert!(!delete_failed_delivery(&mut desk.store, &id));
}

#[test]
fn old_deliveries_are_dropped() {
    let mut desk = Desk::new();
    enqueue_failed_delivery(&mut desk.store, "d", "s", "https://x.com", "{}", 100, 5, 130, "refused", None);
    prune_old_failed_deliveries(&mut desk.store, &RetryConfig::default(), 101);
    assert_eq!(list_failed_deliveries(&desk.store, None, 10).len(), 1);
    record_retry(&mut desk.store, "d", None, &RetryConfig::default(), 110);
    prune_old_failed_deliveries(&mut desk.store, &RetryConfig::default(), 110 + 8 * 86_400);
    assert!(list_failed_deliveries(&desk.store, None, 10).is_empty());
}

#[test]
fn waits_grow_up_to_their_limit() {
    let cfg = RetryConfig::default();
    for n in 0..40 {
        assert!(compute_backoff_secs(n, &cfg) <= compute_backoff_secs(n + 1, &cfg));
        assert!(compute_backoff_secs(n, &cfg) <= 600);
    }
}

#[test]
fn escalations_go_out_once_per_wait() {
    let mut desk = Desk::new();
    let rule = EscalationRule {
        id: "e".into(),
        name: "e".into(),
        kind_pattern: "plugin.*".into(),
        escalate_after_secs: 30,
        target_severity: "critical".into(),
        target_endpoint_ids: Some(vec!["ep-a".into()]),
        enabled: true,
    };
    desk.save_endpoint(endpoint("ep-a", &[])).unwrap();
    desk.save_escalation(rule).unwrap();
    desk.record_dispatch("plugin.lifecycle.crashed", 1_000);
    assert!(escalation_round(&desk.store, &mut desk.state.escalation, 1_010).is_empty());
    let round = escalation_round(&desk.store, &mut desk.state.escalation, 1_040);
    assert_eq!(round.len(), 1);
    assert_eq!(round[0].source, "plugin.lifecycle.crashed");
    assert_eq!(round[0].severity, Severity::Critical);
    assert!(escalation_round(&desk.store, &mut desk.state.escalation, 1_041).is_empty());
    let sent = escalation_deliveries(
        &desk.store,
        &round[0].source,
        &round[0].endpoint_ids,
        round[0].severity,
        gen_event_id(),
        1_040,
    );
    assert_eq!(sent.len(), 1);
    assert_eq!(sent[0].endpoint_id.as_deref(), Some("ep-a"));
}

#[test]
fn a_trial_send_needs_a_webhook_that_is_on() {
    let sent = test_send_request(&fresh_config(), 5).unwrap();
    assert_eq!(
        sent.body,
        r#"{"data":{"message":"Test alert from OpenCapX"},"source":"webhook.test","timestamp":5}"#
    );
    let mut off = fresh_config();
    off.enabled = false;
    assert_eq!(test_send_request(&off, 5).unwrap_err(), "webhook not enabled");
    let mut bad = fresh_config();
    bad.url = "ftp://x".into();
    assert!(test_send_request(&bad, 5).is_err());
}

#[test]
fn endpoints_can_be_tried_and_deleted() {
    let mut desk = Desk::new();
    desk.save_endpoint(endpoint("ep-a", &[])).unwrap();
    desk.save_route(route("r", 10, "*", "ep-a")).unwrap();
    assert_eq!(test_endpoint_request(&desk.store, "ep-a", 5).unwrap().url, "https://ep-a.example.com/hook");
    assert!(test_endpoint_request(&desk.store, "nope", 5).is_err());
    assert!(delete_endpoint(&mut desk.store, "ep-a").0);
    assert!(!delete_endpoint(&mut desk.store, "ep-a").0);
    assert!(desk.list_endpoints().is_empty());
}

#[test]
fn routes_leave_when_deleted() {
    let mut desk = Desk::new();
    desk.save_route(route("r", 10, "*", "ep-a")).unwrap();
    assert!(delete_route(&mut desk.store, "r"));
    assert!(!delete_route(&mut desk.store, "r"));
    assert!(list_enabled_routes(&desk.store).is_empty());
}

#[test]
fn rows_are_listed_by_key_and_found_again() {
    let mut table = Table::new();
    for name in ["b", "a", "c"] {
        table.put(Stamp { name: name.into(), at: 1 });
    }
    table.put(Stamp { name: "b".into(), at: 9 });
    let names: Vec<String> = table.list().into_iter().map(|s| s.name).collect();
    assert_eq!(names, vec!["a".to_string(), "b".to_string(), "c".to_string()]);
    assert_eq!(table.get("b").map(|s| s.at), Some(9));
    assert!(table.remove("b"));
    assert!(table.get("b").is_none());
    assert_eq!(table.clear(), 2);
}

#[test]
fn a_dot_needs_something_behind_it() {
    assert!(kind_matches("plugin.*", "plugin.a"));
    assert!(!kind_matches("plugin.*", "plugin."));
    assert!(!kind_matches("plugin.*", "plugins.a"));
}

#[test]
fn bridged_kinds_are_known() {
    assert!(is_bridged("plugin.metrics.exceeded"));
    assert!(!is_bridged("agent.completed"));
}

#[test]
fn sealed_bundles_depend_on_salt_and_nonce() {
    let one = seal_bundle("text", "pp", &[0; 16], &[1; 12]).unwrap();
    assert_eq!(one.salt, "AAAAAAAAAAAAAAAAAAAAAA==");
    assert_eq!(one.nonce, "AQEBAQEBAQEBAQEB");
    let two = seal_bundle("text", "pp", &[0; 16], &[2; 12]).unwrap();
    assert_ne!(one.ciphertext, two.ciphertext);
    assert_eq!(decrypt_bundle(&one, "pp").unwrap(), "text");
    let mut bad = one.clone();
    bad.salt = "?".into();
    assert!(decrypt_bundle(&bad, "pp").is_err());
    let mut other = one.clone();
    other.iterations = 1;
    assert!(decrypt_bundle(&other, "pp").is_err());
}

#[test]
fn secrets_keep_their_form() {
    let secret = new_secret().unwrap();
    assert_eq!(secret.len(), 32);
    assert_ne!(secret, new_secret().unwrap());
    let text = keychain_text(&secret);
    assert_eq!(keychain_secret(&text), Ok(secret.clone()));
    assert!(keychain_secret("not it").is_err());
    assert_eq!(file_secret(secret.clone()), Ok(secret));
    assert!(file_secret(vec![1, 2]).is_err());
}

#[test]
fn unsigned_text_is_not_a_bundle() {
    assert!(split_signature("version: 1\n").is_err());
    assert!(is_signature_readable("version: 1\n"));
    assert!(verify_bundle("version: 1\n", &[1]).is_err());
    let signed = sign_bundle("version: 1\n", &[1]);
    assert_eq!(verified_body(&signed, &[1]).unwrap(), "version: 1\n");
    assert!(verified_body(&signed, &[2]).is_err());
}

#[test]
fn decimal_literals_compare_as_numbers() {
    let env = envelope_with_id("s", json(r#"{"v": 3.5}"#), vec![], Severity::Info, "id".into(), 1);
    let (out, _) = render_template("{{#if payload.v == 3.50}}SAME{{else}}NOT{{/if}}", &env).unwrap();
    assert_eq!(out, "SAME");
    let (out, _) = render_template("{{#if payload.v == 3.25}}SAME{{else}}NOT{{/if}}", &env).unwrap();
    assert_eq!(out, "NOT");
}

#[test]
fn circles_through_correlations_are_reported() {
    let mut desk = Desk::new();
    let mut a = route("a", 10, "plugin.x", "ep-a");
    a.seen_in_last = Some(SeenInLastSpec { pattern: "plugin.y".into(), window_secs: 60 });
    desk.save_route(a).unwrap();
    assert!(desk.detect_route_cycles().is_empty());
    let mut b = route("b", 10, "plugin.y", "ep-a");
    b.seen_in_last = Some(SeenInLastSpec { pattern: "plugin.x".into(), window_secs: 60 });
    desk.save_route(b).unwrap();
    let reports = desk.detect_route_cycles();
    assert!(!reports.is_empty());
    for r in &reports {
        assert_eq!(r.cycle.first(), r.cycle.last());
    }
}

#[test]
fn one_link_of_the_chain_counts() {
    let mut desk = Desk::new();
    for level in ["info", "warn", "error", "critical"] {
        desk.save_user_severity_hint("plugin.x", level).unwrap();
        let chain = desk.severity_inheritance_chain("plugin.x");
        assert_eq!(chain.iter().filter(|l| l.hit).count(), 1);
        assert_eq!(desk.severity_resolved("plugin.x").as_str(), level);
        assert_eq!(Severity::parse(level), Some(desk.severity_resolved("plugin.x")));
    }
    assert!(desk.delete_user_severity_hint("plugin.x"));
    assert_eq!(desk.severity_resolved("plugin.x"), severity_for_source("plugin.x"));
}
