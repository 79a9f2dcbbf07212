use opencapx::alerting::aggregations::AggregationDecision;
use opencapx::alerting::config::{apply_endpoint_severity_override, endpoint_severity_override_for, validate_endpoint};
use opencapx::alerting::correlations::{CorrelationDecision, ensure_correlation_id};
use opencapx::alerting::dispatch::{DispatchState, dedup_key};
use opencapx::alerting::endpoints::gen_endpoint_id;
use opencapx::alerting::ids::gen_event_id;
use opencapx::alerting::routes::{gen_route_id, trial_payload, validate_route};
use opencapx::alerting::rows::endpoint_row_to_dto;
use opencapx::alerting::severity::{AlertingManifest, CascadeReport, EndpointPreviewRow, EndpointSeverityPreview, PropagationTrace, SeverityHintDto, SeverityLink, SeverityPolicy};
use opencapx::alerting::silences::{gen_ack_id, gen_silence_id};
use opencapx::alerting::simulator::{AckHitDto, AggregationSimulation, CorrelationSimulation, SilenceHitDto, simulate_dedup};
use opencapx::alerting::stamps::Stamp;
use opencapx::alerting::storage::{AggregationRule, AggregationRuleDto, CorrelationRule, CorrelationRuleDto, Storage};
use opencapx::alerting::timeline::{CycleKind, CycleReport, RECENT_EVENTS_CAP, RouteSeenEvent};
use opencapx::alerting::types::{AckRuleRow, AlertingEndpointRow, RouteRule, RouteRuleRow, SeenInLastSpec, Severity, SilenceRule, SilenceRuleRow, WebhookConfig, WebhookEndpoint, WebhookSources};
use opencapx::alerting::{aggregations, correlations, endpoints, routes, severity, silences, simulator, timeline};
use opencapx::json::Json;

fn now_secs() -> u64 {
    std::time::SystemTime::now()
        .duration_since(std::time::UNIX_EPOCH)
        .map(|d| d.as_secs())
        .unwrap_or(0)
}

fn json(text: &str) -> Json {
    trial_payload(text).unwrap()
}

/// A store, what alerting remembers, and the time.
struct Desk {
    store: Storage,
    state: DispatchState,
    now: u64,
    made: u64,
}

impl Desk {
    fn new() -> Self {
        Desk {
            store: Storage::new(),
            state: DispatchState::new(),
            now: now_secs(),
            made: 0,
        }
    }

    fn next(&mut self) -> u64 {
        self.made += 1;
        self.made
    }

    fn save_user_severity_hint(&mut self, source: &str, level: &str) -> Result<SeverityHintDto, String> {
        severity::save_user_severity_hint(&mut self.store, source, level, self.now as i64)
    }

    fn install_manifest_hints(&mut self, plugin: &str, manifest: &Option<AlertingManifest>) {
        severity::install_manifest_hints(&mut self.store, plugin, manifest, self.now as i64)
    }

    fn cascade_delete_severity_hint(&mut self, source: &str) -> CascadeReport {
        severity::cascade_delete_severity_hint(&mut self.store, source)
    }

    fn severity_resolved(&self, source: &str) -> Severity {
        severity::severity_resolved(&self.store, source)
    }

    fn route_dispatch_severity(&self, source: &str) -> Severity {
        severity::route_dispatch_severity(&self.store, source)
    }

    fn correlation_decision_severity(&self, source: &str) -> Severity {
        severity::correlation_decision_severity(&self.store, source)
    }

    fn aggregation_action_severity(&self, source: &str) -> Severity {
        severity::aggregation_action_severity(&self.store, source)
    }

    fn escalation_target_severity(&self, source: &str) -> Severity {
        severity::escalation_target_severity(&self.store, source)
    }

    fn propagation_trace(&self, source: &str) -> PropagationTrace {
        severity::propagation_trace(&self.store, source)
    }

    fn severity_inheritance_chain(&self, source: &str) -> Vec<SeverityLink> {
        severity::severity_inheritance_chain(&self.store, source)
    }

    fn effective_severity_with_reason(&self, source: &str) -> (Severity, SeverityLink) {
        severity::effective_severity_with_reason(&self.store, source)
    }

    fn preview_endpoint_severity(&self, source: &str, ep: &WebhookEndpoint) -> EndpointPreviewRow {
        severity::preview_endpoint_severity(&self.store, source, ep)
    }

    fn preview_alerting_endpoint_severity(&self, source: &str, id: Option<&str>) -> Result<EndpointSeverityPreview, String> {
        severity::preview_alerting_endpoint_severity(&self.store, source, id)
    }

    fn evaluate_aggregations(&mut self, source: &str, payload: &Json, now: u64) -> AggregationDecision {
        aggregations::evaluate_aggregations(&self.store, &mut self.state.buckets, source, payload, now)
    }

    fn save_aggregation(&mut self, rule: AggregationRule) -> Result<AggregationRuleDto, String> {
        aggregations::save_aggregation(&mut self.store, rule, self.now)
    }

    fn evaluate_correlations(&mut self, source: &str, now: u64) -> CorrelationDecision {
        correlations::evaluate_correlations(&self.store, &mut self.state.correlation, source, now)
    }

    fn save_correlation(&mut self, rule: CorrelationRule) -> Result<CorrelationRuleDto, String> {
        correlations::save_correlation(&mut self.store, rule, self.now)
    }

    fn ack_kind(&mut self, pattern: String, window: u64) -> Result<AckRuleRow, String> {
        let id = gen_ack_id(self.now, self.next());
        silences::ack_kind(&mut self.store, pattern, window, &id, self.now)
    }

    fn save_silence(&mut self, rule: SilenceRule) -> Result<SilenceRuleRow, String> {
        let id = gen_silence_id(self.now, self.next());
        silences::save_silence(&mut self.store, rule, &id, self.now)
    }

    fn save_endpoint(&mut self, ep: WebhookEndpoint) -> Result<AlertingEndpointRow, String> {
        let id = gen_endpoint_id(self.now, self.next());
        endpoints::save_endpoint(&mut self.store, ep, &id, self.now)
    }

    fn list_endpoints(&self) -> Vec<AlertingEndpointRow> {
        endpoints::list_endpoints(&self.store)
    }

    fn save_route(&mut self, rule: RouteRule) -> Result<RouteRuleRow, String> {
        let id = gen_route_id(self.now, self.next());
        routes::save_route(&mut self.store, rule, &id, self.now)
    }

    fn record_seen_event(&mut self, source: &str, summary: &str, at: u64, fired: Vec<String>, hit: Vec<String>) {
        timeline::record_seen_event(&mut self.state.recent, source, summary, at, fired, hit)
    }

    fn recently_seen(&self, pattern: &str, window: u64, now: u64) -> bool {
        timeline::recently_seen(&self.state.recent, pattern, window, now)
    }

    fn recent_events_snapshot(&self, limit: usize) -> Vec<RouteSeenEvent> {
        timeline::recent_events_snapshot(&self.state.recent, limit)
    }

    fn detect_route_cycles(&self) -> Vec<CycleReport> {
        timeline::detect_route_cycles(&self.store)
    }

    fn simulate_aggregations(&self, source: &str, now: u64) -> AggregationSimulation {
        simulator::simulate_aggregations(&self.store, &self.state.buckets, source, now)
    }

    fn simulate_correlations(&self, source: &str, now: u64) -> CorrelationSimulation {
        simulator::simulate_correlations(&self.store, &self.state.correlation, source, now)
    }

    fn simulate_silence(&self, source: &str, now: u64) -> Option<SilenceHitDto> {
        simulator::simulate_silence(&self.store, source, now)
    }

    fn simulate_ack(&self, source: &str, now: u64) -> Option<AckHitDto> {
        simulator::simulate_ack(&self.store, source, now)
    }
}

fn corr_rule(id: &str, a: &str, b: &str, window: u64) -> CorrelationRule {
    CorrelationRule {
        id: id.to_string(),
        name: format!("corr-{}", id),
        kind_pattern_a: a.to_string(),
        kind_pattern_b: b.to_string(),
        window_secs: window,
        enabled: true,
    }
}

fn agg_rule(id: &str, action: &str, target: Option<&str>) -> AggregationRule {
    AggregationRule {
        id: id.to_string(),
        name: format!("rule-{}", id),
        kind_pattern: "plugin.metrics.*".to_string(),
        window_secs: 60,
        threshold_count: 3,
        action: action.to_string(),
        target_severity: target.map(|s| s.to_string()),
        enabled: true,
    }
}

fn fresh_config() -> WebhookConfig {
    WebhookConfig {
        enabled: true,
        url: "https://hooks.example.com/services/T/B/X".into(),
        min_interval_secs: 5,
        sources: WebhookSources {
            metrics_exceeded: true,
            sla_violated: true,
            kill_switch_engaged: true,
            plugin_crashed: true,
        },
        custom_headers: vec![("X-OpenCapX-Test".into(), "yes".into())],
        schema_version: 0,
    }
}

#[test]
fn seen_in_last_rejects_empty_pattern() {
    let r = RouteRule {
        id: "rt-corr-2".into(),
        name: "bad-seen".into(),
        priority: 100,
        enabled: true,
        kind_pattern: "plugin.x".into(),
        payload_path: None,
        payload_match: None,
        target_endpoint_ids: vec!["ep-1".into()],
        recipients: vec![],
        tags: vec![],
        seen_in_last: Some(SeenInLastSpec {
            pattern: "".into(),
            window_secs: 60,
        }),
    };
    let err = validate_route(&r).unwrap_err();
    assert!(err.contains("seen_in_last.pattern"), "got: {err}");
}

#[test]
fn seen_in_last_rejects_window_too_long() {
    let r = RouteRule {
        id: "rt-corr-3".into(),
        name: "bad-win".into(),
        priority: 100,
        enabled: true,
        kind_pattern: "plugin.x".into(),
        payload_path: None,
        payload_match: None,
        target_endpoint_ids: vec!["ep-1".into()],
        recipients: vec![],
        tags: vec![],
        seen_in_last: Some(SeenInLastSpec {
            pattern: "plugin.y".into(),
            window_secs: 7200,
        }),
    };
    let err = validate_route(&r).unwrap_err();
    assert!(err.contains("window_secs too long"), "got: {err}");
}

#[test]
fn recent_events_ring_buffer_evicts_oldest() {
    let mut desk = Desk::new();
    let now = 1_700_000_000;
    for i in 0..(RECENT_EVENTS_CAP + 50) {
        desk.record_seen_event(&format!("src.{i}"), "{}", now + i as u64, vec![], vec![]);
    }
    let snap = desk.recent_events_snapshot(RECENT_EVENTS_CAP + 10);
    assert_eq!(snap.len(), RECENT_EVENTS_CAP);
    assert!(
        snap.last().unwrap().source.starts_with("src.50"),
        "got: {:?}",
        snap.last().map(|e| &e.source)
    );
}

#[test]
fn recently_seen_returns_true_when_pattern_matches_in_window() {
    let mut desk = Desk::new();
    let now = 1_700_000_010;
    desk.record_seen_event("plugin.metrics.cpu", "{}", now - 5, vec![], vec![]);
    assert!(desk.recently_seen("plugin.*", 10, now));
    assert!(desk.recently_seen("plugin.metrics.*", 10, now));
    assert!(!desk.recently_seen("capability.*", 10, now));
}

#[test]
fn recently_seen_returns_false_when_window_expired() {
    let mut desk = Desk::new();
    let now = 1_700_000_100;
    desk.record_seen_event("plugin.metrics.cpu", "{}", now - 100, vec![], vec![]);
    assert!(!desk.recently_seen("plugin.*", 10, now));
    assert!(desk.recently_seen("plugin.*", 200, now));
}

#[test]
fn detect_cycles_finds_self_loop() {
    let mut desk = Desk::new();
    let r_a = RouteRule {
        id: "rt-self-a".into(),
        name: "A".into(),
        priority: 100,
        enabled: true,
        kind_pattern: "plugin.x".into(),
        payload_path: None,
        payload_match: None,
        target_endpoint_ids: vec!["ep-1".into()],
        recipients: vec![],
        tags: vec![],
        seen_in_last: Some(SeenInLastSpec {
            pattern: "plugin.x".into(),
            window_secs: 60,
        }),
    };
    let _ = desk.save_route(r_a);
    let reports = desk.detect_route_cycles();
    let self_loops: Vec<_> = reports
        .iter()
        .filter(|r| r.kind == CycleKind::SelfLoop)
        .collect();
    assert!(
        !self_loops.is_empty(),
        "expected self-loop, got: {:?}",
        reports
    );
}

#[test]
fn detect_cycles_finds_three_node_loop() {
    let mut desk = Desk::new();
    let mk = |id: &str, name: &str, kind: &str, seen: Option<&str>| RouteRule {
        id: id.into(),
        name: name.into(),
        priority: 100,
        enabled: true,
        kind_pattern: kind.into(),
        payload_path: None,
        payload_match: None,
        target_endpoint_ids: vec!["ep-1".into()],
        recipients: vec![],
        tags: vec![],
        seen_in_last: seen.map(|p| SeenInLastSpec {
            pattern: p.into(),
            window_secs: 60,
        }),
    };
    let _ = desk.save_route(mk("rt-A", "A", "plugin.x", Some("plugin.y")));
    let _ = desk.save_route(mk("rt-B", "B", "plugin.y", Some("plugin.z")));
    let _ = desk.save_route(mk("rt-C", "C", "plugin.z", Some("plugin.x")));
    let reports = desk.detect_route_cycles();
    let multi: Vec<_> = reports
        .iter()
        .filter(|r| r.kind == CycleKind::RouteToRoute && r.cycle.len() >= 4)
        .collect();
    assert!(
        !multi.is_empty(),
        "expected multi-node cycle, got: {:?}",
        reports
    );
}

#[test]
fn detect_cycles_returns_empty_on_acyclic_graph() {
    let mut desk = Desk::new();
    let mk = |id: &str, name: &str, kind: &str| RouteRule {
        id: id.into(),
        name: name.into(),
        priority: 100,
        enabled: true,
        kind_pattern: kind.into(),
        payload_path: None,
        payload_match: None,
        target_endpoint_ids: vec!["ep-1".into()],
        recipients: vec![],
        tags: vec![],
        seen_in_last: None,
    };
    let _ = desk.save_route(mk("rt-ax1", "X1", "plugin.a"));
    let _ = desk.save_route(mk("rt-bx1", "X2", "plugin.b"));
    let _ = desk.save_route(mk("rt-cx1", "X3", "plugin.c"));
    let reports = desk.detect_route_cycles();
    assert!(reports.is_empty(), "expected no cycles, got: {:?}", reports);
}

#[test]
fn recent_events_snapshot_respects_limit() {
    let mut desk = Desk::new();
    let now = 1_700_001_000;
    for i in 0..10 {
        desk.record_seen_event(
            &format!("s.{i}"),
            "{}",
            now + i,
            vec![format!("r{i}")],
            vec![],
        );
    }
    let snap = desk.recent_events_snapshot(3);
    assert_eq!(snap.len(), 3);
    assert_eq!(snap[0].source, "s.9");
    assert_eq!(snap[1].source, "s.8");
    assert_eq!(snap[2].source, "s.7");
}

#[test]
fn severity_inheritance_chain_returns_four_links_in_order() {
    let desk = Desk::new();
    let chain = desk.severity_inheritance_chain("plugin.metrics.exceeded");
    assert_eq!(chain.len(), 4);
    assert_eq!(chain[0].policy, SeverityPolicy::Manifest);
    assert_eq!(chain[1].policy, SeverityPolicy::PluginDefault);
    assert_eq!(chain[2].policy, SeverityPolicy::UserOverride);
    assert_eq!(chain[3].policy, SeverityPolicy::Disabled);
}

#[test]
fn severity_inheritance_chain_marks_user_override_hit_when_set() {
    let mut desk = Desk::new();
    desk.save_user_severity_hint("plugin.metrics.exceeded", "critical").unwrap();
    let chain = desk.severity_inheritance_chain("plugin.metrics.exceeded");
    assert!(chain[2].hit, "user_override should be hit");
    assert!(!chain[0].hit, "manifest should be overridden by user");
    assert!(
        !chain[1].hit,
        "plugin_default should not be hit when user present"
    );
}

#[test]
fn severity_inheritance_chain_marks_manifest_hit_when_user_absent() {
    let mut desk = Desk::new();
    let hints = vec![("plugin.x".to_string(), "critical".to_string())];
    desk.install_manifest_hints(
        "plug-a",
        &Some(AlertingManifest {
            severity_hints: hints,
        }),
    );
    let chain = desk.severity_inheritance_chain("plugin.x");
    assert!(chain[0].hit, "manifest should be hit");
    assert_eq!(chain[0].plugin_id.as_deref(), Some("plug-a"));
    assert!(!chain[2].hit);
    assert!(!chain[1].hit);
}

#[test]
fn severity_inheritance_chain_marks_plugin_default_hit_when_no_hints() {
    let desk = Desk::new();
    let chain = desk.severity_inheritance_chain("plugin.metrics.exceeded");
    assert!(!chain[0].hit);
    assert!(chain[1].hit, "plugin_default should be hit when no hints");
    assert!(!chain[2].hit);
}

#[test]
fn effective_severity_with_reason_returns_user_override_when_set() {
    let mut desk = Desk::new();
    desk.save_user_severity_hint("plugin.metrics.exceeded", "critical").unwrap();
    let (sev, link) = desk.effective_severity_with_reason("plugin.metrics.exceeded");
    assert_eq!(sev, Severity::Critical);
    assert_eq!(link.policy, SeverityPolicy::UserOverride);
    assert!(link.hit);
}

#[test]
fn cascade_delete_severity_hint_returns_affected_routes() {
    let mut desk = Desk::new();
    let _ = desk.save_route(RouteRule {
        id: "rt-cas".into(),
        name: "cas-route".into(),
        priority: 100,
        enabled: true,
        kind_pattern: "plugin.x".into(),
        payload_path: None,
        payload_match: None,
        target_endpoint_ids: vec!["ep-1".into()],
        recipients: vec![],
        tags: vec![],
        seen_in_last: None,
    });
    desk.save_user_severity_hint("plugin.x", "warn").unwrap();
    let report = desk.cascade_delete_severity_hint("plugin.x");
    assert!(report.hint_deleted);
    assert_eq!(report.affected_routes, vec!["cas-route"]);
    assert!(report.affected_correlations.is_empty());
    assert!(report.affected_aggregations.is_empty());
}

#[test]
fn cascade_delete_severity_hint_returns_affected_correlations() {
    let mut desk = Desk::new();
    let mut rule = CorrelationRule {
        id: "".into(),
        name: "cor-x".into(),
        kind_pattern_a: "plugin.a".into(),
        kind_pattern_b: "plugin.x".into(),
        window_secs: 30,
        enabled: true,
    };
    ensure_correlation_id(&mut rule);
    desk.save_correlation(rule).unwrap();
    desk.save_user_severity_hint("plugin.x", "warn").unwrap();
    let report = desk.cascade_delete_severity_hint("plugin.x");
    assert!(report.hint_deleted);
    assert_eq!(report.affected_correlations, vec!["cor-x"]);
}

#[test]
fn cascade_delete_severity_hint_is_idempotent() {
    let mut desk = Desk::new();
    desk.save_user_severity_hint("plugin.x", "warn").unwrap();
    let r1 = desk.cascade_delete_severity_hint("plugin.x");
    assert!(r1.hint_deleted);
    let r2 = desk.cascade_delete_severity_hint("plugin.x");
    assert!(!r2.hint_deleted);
    assert!(r2.affected_routes.is_empty());
    assert!(r2.affected_correlations.is_empty());
    assert!(r2.affected_aggregations.is_empty());
}

#[test]
fn route_dispatch_severity_returns_user_override_when_set() {
    let mut desk = Desk::new();
    desk.save_user_severity_hint("plugin.metrics.exceeded", "warn").unwrap();
    assert_eq!(
        desk.route_dispatch_severity("plugin.metrics.exceeded"),
        Severity::Warn
    );
}

#[test]
fn aggregation_action_severity_propagates_after_hint_change() {
    let mut desk = Desk::new();
    desk.save_user_severity_hint("plugin.flapping", "info").unwrap();
    assert_eq!(
        desk.aggregation_action_severity("plugin.flapping"),
        Severity::Info
    );
    desk.save_user_severity_hint("plugin.flapping", "error").unwrap();
    assert_eq!(
        desk.aggregation_action_severity("plugin.flapping"),
        Severity::Error
    );
}

#[test]
fn correlation_decision_severity_falls_back_to_default_when_no_hints() {
    let desk = Desk::new();
    assert_eq!(
        desk.correlation_decision_severity("totally.unknown.kind"),
        Severity::Info
    );
}

#[test]
fn escalation_target_severity_matches_effective_severity() {
    let mut desk = Desk::new();
    desk.save_user_severity_hint("capability.sla.violated", "critical").unwrap();
    assert_eq!(
        desk.escalation_target_severity("capability.sla.violated"),
        Severity::Critical
    );
    assert_eq!(
        desk.escalation_target_severity("capability.sla.violated"),
        desk.severity_resolved("capability.sla.violated")
    );
}

#[test]
fn propagation_trace_returns_consistent_user_override_across_all_links() {
    let mut desk = Desk::new();
    desk.save_user_severity_hint("plugin.x", "warn").unwrap();
    let t = desk.propagation_trace("plugin.x");
    assert_eq!(t.source, "plugin.x");
    assert_eq!(t.route_severity, Severity::Warn);
    assert_eq!(t.route_origin, SeverityPolicy::UserOverride);
    assert_eq!(t.correlation_severity, Severity::Warn);
    assert_eq!(t.correlation_origin, SeverityPolicy::UserOverride);
    assert_eq!(t.aggregation_severity, Severity::Warn);
    assert_eq!(t.aggregation_origin, SeverityPolicy::UserOverride);
    assert_eq!(t.escalation_severity, Severity::Warn);
    assert_eq!(t.escalation_origin, SeverityPolicy::UserOverride);
}

#[test]
fn propagation_trace_returns_manifest_origin_when_no_user_hint() {
    let desk = Desk::new();
    let t = desk.propagation_trace("totally.unknown.source");
    assert_eq!(t.source, "totally.unknown.source");
    assert_eq!(t.route_severity, t.correlation_severity);
    assert_eq!(t.route_severity, t.aggregation_severity);
    assert_eq!(t.route_severity, t.escalation_severity);
    assert_eq!(t.route_origin, t.correlation_origin);
    assert_eq!(t.route_origin, t.aggregation_origin);
    assert_eq!(t.route_origin, t.escalation_origin);
    assert_eq!(
        t.route_severity,
        desk.severity_resolved("totally.unknown.source")
    );
}

#[test]
fn correlation_decision_carries_propagated_severity() {
    let mut desk = Desk::new();
    desk.save_correlation(CorrelationRule {
        id: "rule-71-c".into(),
        name: "phase71-corr".into(),
        kind_pattern_a: "plugin.lifecycle.started".into(),
        kind_pattern_b: "plugin.lifecycle.crashed".into(),
        window_secs: 60,
        enabled: true,
    })
    .unwrap();
    desk.save_user_severity_hint("plugin.lifecycle.crashed", "critical").unwrap();
    desk.evaluate_correlations("plugin.lifecycle.started", 1000);
    match desk.evaluate_correlations("plugin.lifecycle.crashed", 1010) {
        CorrelationDecision::Suppress {
            propagated_severity,
        } => {
            assert_eq!(propagated_severity, Severity::Critical);
        }
        other => panic!(
            "expected Suppress with propagated Critical, got {:?}",
            other
        ),
    }
}

#[test]
fn aggregation_decision_carries_propagated_severity_on_suppress() {
    let mut desk = Desk::new();
    desk.save_aggregation(agg_rule("rule-71-suppress", "suppress", None)).unwrap();

    desk.save_user_severity_hint("plugin.metrics.exceeded", "error").unwrap();
    let now = 5000_u64;
    desk.evaluate_aggregations("plugin.metrics.exceeded", &json(r#"{}"#), now);
    desk.evaluate_aggregations("plugin.metrics.exceeded", &json(r#"{}"#), now);
    let d = desk.evaluate_aggregations("plugin.metrics.exceeded", &json(r#"{}"#), now);
    match d {
        AggregationDecision::Suppress {
            propagated_severity,
        } => {
            assert_eq!(propagated_severity, Severity::Error);
        }
        other => panic!("expected Suppress with propagated Error, got {:?}", other),
    }
}

#[test]
fn aggregation_decision_carries_propagated_severity_on_downgrade() {
    let mut desk = Desk::new();
    desk.save_aggregation(agg_rule("rule-71-downgrade", "downgrade", Some("critical"))).unwrap();

    desk.save_user_severity_hint("plugin.metrics.exceeded", "warn").unwrap();
    let now = 6000_u64;
    desk.evaluate_aggregations("plugin.metrics.exceeded", &json(r#"{}"#), now);
    desk.evaluate_aggregations("plugin.metrics.exceeded", &json(r#"{}"#), now);
    let d = desk.evaluate_aggregations("plugin.metrics.exceeded", &json(r#"{}"#), now);
    match d {
        AggregationDecision::Downgrade(target, propagated) => {
            assert_eq!(target, Severity::Critical);
            assert_eq!(propagated, Severity::Warn);
        }
        other => panic!("expected Downgrade(Critical, Warn), got {:?}", other),
    }
}

#[test]
fn aggregation_decision_carries_propagated_severity_on_merge() {
    let mut desk = Desk::new();
    desk.save_aggregation(agg_rule("rule-71-merge", "merge", None)).unwrap();

    desk.save_user_severity_hint("plugin.metrics.exceeded", "critical").unwrap();
    let now = 7000_u64;
    desk.evaluate_aggregations("plugin.metrics.exceeded", &json(r#"{"x": 1}"#), now);
    desk.evaluate_aggregations("plugin.metrics.exceeded", &json(r#"{"x": 2}"#), now);
    let d = desk.evaluate_aggregations("plugin.metrics.exceeded", &json(r#"{"x": 3}"#), now);
    match d {
        AggregationDecision::Merge {
            propagated_severity,
            count,
            ..
        } => {
            assert_eq!(propagated_severity, Severity::Critical);
            assert_eq!(count, 3);
        }
        other => panic!("expected Merge with propagated Critical, got {:?}", other),
    }
}

#[test]
fn end_to_end_severity_consistency_across_all_4_paths() {
    let mut desk = Desk::new();
    let source = "plugin.metrics.exceeded";
    desk.save_user_severity_hint(source, "error").unwrap();
    let tr = desk.propagation_trace(source);
    assert_eq!(tr.route_severity, Severity::Error);
    assert_eq!(tr.correlation_severity, Severity::Error);
    assert_eq!(tr.aggregation_severity, Severity::Error);
    assert_eq!(tr.escalation_severity, Severity::Error);
    assert_eq!(desk.route_dispatch_severity(source), Severity::Error);
    assert_eq!(desk.correlation_decision_severity(source), Severity::Error);
    assert_eq!(desk.aggregation_action_severity(source), Severity::Error);
    assert_eq!(desk.escalation_target_severity(source), Severity::Error);
}

#[test]
fn endpoint_severity_override_applies_in_fanout() {
    let mut desk = Desk::new();
    desk.save_user_severity_hint("plugin.metrics.exceeded", "error").unwrap();
    let mut ep = WebhookEndpoint {
        id: String::new(),
        name: "ops-override".into(),
        url: "https://example.com/hook".into(),
        enabled: true,
        headers: vec![],
        secret: String::new(),
        source_filter: vec![],
        schema_version: 0,
        template: None,
        template_sample: None,
        severity_overrides: vec![("plugin.metrics.exceeded".into(), Severity::Critical)],
    };
    let row = desk.save_endpoint(ep.clone()).unwrap();
    ep.id = row.id.clone();
    let mut envelope_severity = desk.severity_resolved("plugin.metrics.exceeded");
    assert_eq!(envelope_severity, Severity::Error, "baseline propagation");
    apply_endpoint_severity_override(
        &mut envelope_severity,
        "plugin.metrics.exceeded",
        &ep.severity_overrides,
    );
    assert_eq!(envelope_severity, Severity::Critical, "override wins");
}

#[test]
fn endpoint_severity_override_does_not_apply_when_source_misses() {
    let mut desk = Desk::new();
    let ep = WebhookEndpoint {
        id: String::new(),
        name: "ops-override-miss".into(),
        url: "https://example.com/hook".into(),
        enabled: true,
        headers: vec![],
        secret: String::new(),
        source_filter: vec![],
        schema_version: 0,
        template: None,
        template_sample: None,
        severity_overrides: vec![("plugin.metrics.exceeded".into(), Severity::Critical)],
    };
    desk.save_endpoint(ep).unwrap();
    let mut envelope_severity = desk.severity_resolved("capability.sla.violated");
    assert_eq!(envelope_severity, Severity::Error, "baseline propagation");
    apply_endpoint_severity_override(
        &mut envelope_severity,
        "capability.sla.violated",
        &[("plugin.metrics.exceeded".into(), Severity::Critical)],
    );
    assert_eq!(envelope_severity, Severity::Error, "miss → no change");
}

#[test]
fn endpoint_severity_override_takes_priority_over_user_hint() {
    let mut desk = Desk::new();
    desk.save_user_severity_hint("plugin.metrics.exceeded", "warn").unwrap();
    let mut envelope_severity = desk.severity_resolved("plugin.metrics.exceeded");
    assert_eq!(envelope_severity, Severity::Warn, "user hint applied");
    apply_endpoint_severity_override(
        &mut envelope_severity,
        "plugin.metrics.exceeded",
        &[("plugin.metrics.exceeded".into(), Severity::Critical)],
    );
    assert_eq!(
        envelope_severity,
        Severity::Critical,
        "endpoint override wins"
    );
}

#[test]
fn validate_endpoint_rejects_empty_source_in_severity_overrides() {
    let ep = WebhookEndpoint {
        id: String::new(),
        name: "bad-empty".into(),
        url: "https://x.com".into(),
        enabled: true,
        headers: vec![],
        secret: String::new(),
        source_filter: vec![],
        schema_version: 0,
        template: None,
        template_sample: None,
        severity_overrides: vec![("".into(), Severity::Warn)],
    };
    let err = validate_endpoint(&ep).unwrap_err();
    assert!(err.contains("source is required"), "got: {err}");
}

#[test]
fn validate_endpoint_rejects_invalid_severity_in_overrides() {
    let long_source = "a".repeat(257);
    let bad = WebhookEndpoint {
        id: String::new(),
        name: "bad-long".into(),
        url: "https://x.com".into(),
        enabled: true,
        headers: vec![],
        secret: String::new(),
        source_filter: vec![],
        schema_version: 0,
        template: None,
        template_sample: None,
        severity_overrides: vec![(long_source, Severity::Warn)],
    };
    let err = validate_endpoint(&bad).unwrap_err();
    assert!(err.contains("source too long"), "got: {err}");
    let whitespace_source = "   ".to_string();
    let mut bad2 = bad;
    bad2.name = "bad-ws".into();
    bad2.severity_overrides = vec![(whitespace_source, Severity::Warn)];
    let err2 = validate_endpoint(&bad2).unwrap_err();
    assert!(err2.contains("source is required"), "got: {err2}");
}

#[test]
fn endpoint_row_round_trips_severity_overrides() {
    let mut desk = Desk::new();
    let ep = WebhookEndpoint {
        id: String::new(),
        name: "rt".into(),
        url: "https://example.com/hook".into(),
        enabled: true,
        headers: vec![],
        secret: String::new(),
        source_filter: vec![],
        schema_version: 0,
        template: None,
        template_sample: None,
        severity_overrides: vec![
            ("plugin.metrics.exceeded".into(), Severity::Critical),
            ("capability.sla.violated".into(), Severity::Warn),
        ],
    };
    let row = desk.save_endpoint(ep).unwrap();
    let rows = desk.list_endpoints();
    let loaded = rows.iter().find(|r| r.id == row.id).unwrap();
    let dto = endpoint_row_to_dto(loaded);
    assert_eq!(dto.severity_overrides.len(), 2);
    assert!(dto
        .severity_overrides
        .contains(&("plugin.metrics.exceeded".into(), Severity::Critical)));
    assert!(dto
        .severity_overrides
        .contains(&("capability.sla.violated".into(), Severity::Warn)));
    assert!(loaded.severity_overrides.is_some());
}

#[test]
fn endpoint_severity_override_matches_exact_still_works() {
    let overrides = vec![("plugin.metrics.exceeded".into(), Severity::Critical)];
    assert_eq!(
        endpoint_severity_override_for("plugin.metrics.exceeded", &overrides),
        Some(Severity::Critical)
    );
    assert_eq!(
        endpoint_severity_override_for("plugin.metrics.other", &overrides),
        None
    );
}

#[test]
fn endpoint_severity_override_supports_prefix_dot_star_glob() {
    let overrides = vec![("plugin.*".into(), Severity::Warn)];
    assert_eq!(
        endpoint_severity_override_for("plugin.metrics.exceeded", &overrides),
        Some(Severity::Warn)
    );
    assert_eq!(
        endpoint_severity_override_for("plugin.lifecycle.crashed", &overrides),
        Some(Severity::Warn)
    );
    assert_eq!(
        endpoint_severity_override_for("capability.sla.violated", &overrides),
        None
    );
}

#[test]
fn endpoint_severity_override_supports_star_matches_all() {
    let overrides = vec![("*".into(), Severity::Info)];
    assert_eq!(
        endpoint_severity_override_for("anything.else", &overrides),
        Some(Severity::Info)
    );
    let empty = vec![("".into(), Severity::Warn)];
    assert_eq!(
        endpoint_severity_override_for("any", &empty),
        Some(Severity::Warn)
    );
}

#[test]
fn endpoint_severity_override_first_match_wins() {
    let glob_first = vec![
        ("plugin.*".into(), Severity::Warn),
        ("plugin.metrics.exceeded".into(), Severity::Critical),
    ];
    assert_eq!(
        endpoint_severity_override_for("plugin.metrics.exceeded", &glob_first),
        Some(Severity::Warn)
    );
    let exact_first = vec![
        ("plugin.metrics.exceeded".into(), Severity::Critical),
        ("plugin.*".into(), Severity::Warn),
    ];
    assert_eq!(
        endpoint_severity_override_for("plugin.metrics.exceeded", &exact_first),
        Some(Severity::Critical)
    );
}

#[test]
fn endpoint_severity_override_does_not_match_substring_only() {
    let overrides = vec![("plugin".into(), Severity::Critical)];
    assert_eq!(
        endpoint_severity_override_for("plugin.metrics.exceeded", &overrides),
        None
    );
    assert_eq!(
        endpoint_severity_override_for("plugin", &overrides),
        Some(Severity::Critical)
    );
}

#[test]
fn preview_endpoint_severity_returns_override_hit_when_match() {
    let desk = Desk::new();
    let ep = WebhookEndpoint {
        id: "ep-a".into(),
        name: "ep-a".into(),
        url: "https://x.com".into(),
        enabled: true,
        headers: vec![],
        secret: String::new(),
        source_filter: vec![],
        schema_version: 0,
        template: None,
        template_sample: None,
        severity_overrides: vec![("plugin.*".into(), Severity::Warn)],
    };
    let row = desk.preview_endpoint_severity("plugin.metrics.exceeded", &ep);
    assert_eq!(row.endpoint_id, "ep-a");
    let hit = row.override_hit.expect("expected hit");
    assert_eq!(hit.pattern, "plugin.*");
    assert_eq!(hit.severity, Severity::Warn);
    assert_eq!(hit.index, 0);
    assert_eq!(row.propagation_severity, Severity::Warn);
    assert_eq!(row.final_envelope_severity, Severity::Warn);
}

#[test]
fn preview_endpoint_severity_returns_no_override_when_miss() {
    let mut desk = Desk::new();
    desk.save_user_severity_hint("capability.sla.violated", "info").unwrap();
    let ep = WebhookEndpoint {
        id: "ep-a".into(),
        name: "ep-a".into(),
        url: "https://x.com".into(),
        enabled: true,
        headers: vec![],
        secret: String::new(),
        source_filter: vec![],
        schema_version: 0,
        template: None,
        template_sample: None,
        severity_overrides: vec![("plugin.*".into(), Severity::Warn)],
    };
    let row = desk.preview_endpoint_severity("capability.sla.violated", &ep);
    assert!(row.override_hit.is_none(), "glob should miss");
    assert_eq!(row.propagation_severity, Severity::Info);
    assert_eq!(row.final_envelope_severity, Severity::Info);
}

#[test]
fn preview_alerting_endpoint_severity_filters_to_single_endpoint() {
    let mut desk = Desk::new();
    let ep_a = WebhookEndpoint {
        id: String::new(),
        name: "ep-a".into(),
        url: "https://a.com".into(),
        enabled: true,
        headers: vec![],
        secret: String::new(),
        source_filter: vec![],
        schema_version: 0,
        template: None,
        template_sample: None,
        severity_overrides: vec![("plugin.*".into(), Severity::Warn)],
    };
    let row_a = desk.save_endpoint(ep_a).unwrap();
    let ep_b = WebhookEndpoint {
        id: String::new(),
        name: "ep-b".into(),
        url: "https://b.com".into(),
        enabled: true,
        headers: vec![],
        secret: String::new(),
        source_filter: vec![],
        schema_version: 0,
        template: None,
        template_sample: None,
        severity_overrides: vec![("capability.*".into(), Severity::Critical)],
    };
    let _row_b = desk.save_endpoint(ep_b).unwrap();
    let preview =
        desk.preview_alerting_endpoint_severity("plugin.metrics.exceeded", Some(&row_a.id)).unwrap();
    assert_eq!(preview.source, "plugin.metrics.exceeded");
    assert_eq!(preview.endpoints.len(), 1, "should only include ep-a");
    assert_eq!(preview.endpoints[0].endpoint_name, "ep-a");
    assert!(preview.endpoints[0].override_hit.is_some());
}

#[test]
fn preview_alerting_endpoint_severity_rejects_empty_source() {
    let desk = Desk::new();
    let err = desk.preview_alerting_endpoint_severity("", None).unwrap_err();
    assert!(err.contains("source is required"), "got: {err}");
    let err2 = desk.preview_alerting_endpoint_severity("   ", None).unwrap_err();
    assert!(err2.contains("source is required"), "got: {err2}");
}

#[test]
fn preview_alerting_endpoint_severity_first_match_wins_in_preview() {
    let mut desk = Desk::new();
    let ep = WebhookEndpoint {
        id: String::new(),
        name: "ep-fm".into(),
        url: "https://fm.com".into(),
        enabled: true,
        headers: vec![],
        secret: String::new(),
        source_filter: vec![],
        schema_version: 0,
        template: None,
        template_sample: None,
        severity_overrides: vec![
            ("plugin.*".into(), Severity::Warn),
            ("plugin.metrics.exceeded".into(), Severity::Critical),
        ],
    };
    let _ = desk.save_endpoint(ep).unwrap();
    let preview = desk.preview_alerting_endpoint_severity("plugin.metrics.exceeded", None).unwrap();
    assert_eq!(preview.endpoints.len(), 1);
    let hit = preview.endpoints[0]
        .override_hit
        .as_ref()
        .expect("expected hit");
    assert_eq!(hit.index, 0, "first-match wins → glob (index 0) should hit");
    assert_eq!(hit.pattern, "plugin.*");
    assert_eq!(hit.severity, Severity::Warn);
    assert_eq!(preview.endpoints[0].final_envelope_severity, Severity::Warn);
}

#[test]
fn simulate_aggregations_no_rules_returns_pass() {
    let desk = Desk::new();
    let s = desk.simulate_aggregations(
        "plugin.metrics.exceeded",
        now_secs(),
    );
    assert!(s.matched_rule_id.is_none());
    assert!(!s.would_fire);
    assert!(s.action.is_none());
}

#[test]
fn simulate_aggregations_below_threshold_returns_no_fire() {
    let mut desk = Desk::new();
    desk.save_aggregation(agg_rule("r1", "suppress", None)).unwrap();
    let now = now_secs();
    let _ = desk.evaluate_aggregations("plugin.metrics.exceeded", &json(r#"{}"#), now);
    let s = desk.simulate_aggregations("plugin.metrics.exceeded", now);
    assert_eq!(s.matched_rule_id.as_deref(), Some("r1"));
    assert_eq!(s.bucket_events_in_window, 1);
    assert_eq!(s.threshold, 3);
    assert!(!s.would_fire, "1 < threshold 3 → not fire");
    assert!(s.action.is_none());
}

#[test]
fn simulate_aggregations_at_threshold_would_fire() {
    let mut desk = Desk::new();
    desk.save_aggregation(agg_rule("r1", "suppress", None)).unwrap();
    let now = now_secs();
    let _ = desk.evaluate_aggregations("plugin.metrics.exceeded", &json(r#"{}"#), now);
    let _ = desk.evaluate_aggregations("plugin.metrics.exceeded", &json(r#"{}"#), now);
    let s = desk.simulate_aggregations("plugin.metrics.exceeded", now);
    assert_eq!(s.bucket_events_in_window, 2);
    assert!(s.would_fire);
    assert_eq!(s.action.as_deref(), Some("suppress"));
    assert_eq!(s.action_severity.as_deref(), Some("warn"));
}

#[test]
fn simulate_aggregations_does_not_mutate_bucket() {
    let mut desk = Desk::new();
    desk.save_aggregation(agg_rule("r1", "suppress", None)).unwrap();
    let now = now_secs();
    let _ = desk.evaluate_aggregations("plugin.metrics.exceeded", &json(r#"{}"#), now);
    let _ = desk.evaluate_aggregations("plugin.metrics.exceeded", &json(r#"{}"#), now);
    for _ in 0..3 {
        let s = desk.simulate_aggregations("plugin.metrics.exceeded", now);
        assert_eq!(s.bucket_events_in_window, 2);
    }
    let d = desk.evaluate_aggregations("plugin.metrics.exceeded", &json(r#"{}"#), now);
    assert!(matches!(d, AggregationDecision::Suppress { .. }));
}

#[test]
fn simulate_correlations_no_rules_returns_pass() {
    let desk = Desk::new();
    let s = desk.simulate_correlations("plugin.lifecycle.crashed", now_secs());
    assert!(!s.would_suppress);
    assert!(s.matched_a_rule_ids.is_empty());
    assert!(s.matched_b_rule_ids.is_empty());
}

#[test]
fn simulate_correlations_match_a_then_b_simulates_suppress() {
    let mut desk = Desk::new();
    desk.save_correlation(corr_rule(
        "r1",
        "plugin.lifecycle.started",
        "plugin.lifecycle.crashed",
        60,
    ))
    .unwrap();
    let now = now_secs();
    let d_a = desk.evaluate_correlations("plugin.lifecycle.started", now);
    assert_eq!(d_a, CorrelationDecision::Pass);
    let s = desk.simulate_correlations("plugin.lifecycle.crashed", now);
    assert!(s.would_suppress);
    assert_eq!(s.suppressing_rule_id.as_deref(), Some("r1"));
    assert_eq!(s.matched_b_rule_ids, vec!["r1".to_string()]);
}

#[test]
fn simulate_correlations_does_not_mutate_last_a() {
    let mut desk = Desk::new();
    desk.save_correlation(corr_rule(
        "r1",
        "plugin.lifecycle.started",
        "plugin.lifecycle.crashed",
        60,
    ))
    .unwrap();
    let now = now_secs();
    let _ = desk.evaluate_correlations("plugin.lifecycle.started", now);
    for _ in 0..3 {
        let _ = desk.simulate_correlations("plugin.lifecycle.crashed", now);
    }
    let d_b = desk.evaluate_correlations("plugin.lifecycle.crashed", now);
    assert!(
        matches!(d_b, CorrelationDecision::Suppress { .. }),
        "expected Suppress, got {:?}",
        d_b
    );
}

fn silence_rule_active(kind_pat: &str) -> SilenceRule {
    let now = now_secs();
    SilenceRule {
        id: format!("sil-{}", gen_event_id()),
        name: format!("silence-{}", kind_pat),
        kind_pattern: kind_pat.to_string(),
        starts_at: now.saturating_sub(60),
        ends_at: now.saturating_add(3600),
        weekdays: 127,
        start_hour: 0,
        end_hour: 24,
    }
}

#[test]
fn simulate_silence_no_rules_returns_none() {
    let desk = Desk::new();
    let s = desk.simulate_silence("plugin.metrics.exceeded", now_secs());
    assert!(s.is_none());
}

#[test]
fn simulate_silence_active_returns_hit() {
    let mut desk = Desk::new();
    let now = now_secs();
    let mut rule = silence_rule_active("plugin.*");
    rule.starts_at = now.saturating_sub(60);
    rule.ends_at = now.saturating_add(3600);
    let _ = desk.save_silence(rule).unwrap();
    let s = desk.simulate_silence("plugin.metrics.exceeded", now);
    assert!(s.is_some());
    let h = s.unwrap();
    assert_eq!(h.kind_pattern, "plugin.*");
    assert!(h.remaining_secs > 0 && h.remaining_secs <= 3600);
}

#[test]
fn simulate_silence_pattern_mismatch_returns_none() {
    let mut desk = Desk::new();
    let now = now_secs();
    let mut rule = silence_rule_active("plugin.lifecycle.*");
    rule.ends_at = now.saturating_add(3600);
    let _ = desk.save_silence(rule).unwrap();
    let s = desk.simulate_silence("plugin.metrics.exceeded", now);
    assert!(s.is_none());
}

#[test]
fn simulate_ack_active_returns_hit() {
    let mut desk = Desk::new();
    let now = now_secs();
    let _ = desk.ack_kind("plugin.metrics.*".to_string(), 60).unwrap();
    let s = desk.simulate_ack("plugin.metrics.exceeded", now);
    assert!(s.is_some());
    let h = s.unwrap();
    assert_eq!(h.kind_pattern, "plugin.metrics.*");
    assert!(h.remaining_secs > 0 && h.remaining_secs <= 60);
}

#[test]
fn simulate_ack_expired_returns_none() {
    let mut desk = Desk::new();
    let now = now_secs();
    let _ = desk.ack_kind("plugin.*".to_string(), 1).unwrap();
    let s = desk.simulate_ack("plugin.metrics.exceeded", now.saturating_add(5));
    assert!(s.is_none(), "ack should be expired by now+5s");
}

#[test]
fn simulate_dedup_within_window_returns_blocked() {
    let cfg = fresh_config();
    let payload = json(r#"{"k": "v"}"#);
    let key = dedup_key("plugin.metrics.exceeded", &payload);
    let mut state = DispatchState::new();
    state.last_sent.put(Stamp { name: key, at: 0 });
    let s = simulate_dedup(&state.last_sent, &cfg, "plugin.metrics.exceeded", &payload, 1);
    assert!(s.is_some());
    let h = s.unwrap();
    assert_eq!(h.min_interval_secs, 5);
    assert!(h.last_sent_secs_ago < 5);
    assert!(h.remaining_secs > 0);
}

#[test]
fn reported_circles_repeat_no_inner_name() {
    let mut desk = Desk::new();
    let mk = |id: &str, name: &str, kind: &str, seen: &str| RouteRule {
        id: id.into(),
        name: name.into(),
        priority: 100,
        enabled: true,
        kind_pattern: kind.into(),
        payload_path: None,
        payload_match: None,
        target_endpoint_ids: vec!["ep-1".into()],
        recipients: vec![],
        tags: vec![],
        seen_in_last: Some(SeenInLastSpec { pattern: seen.into(), window_secs: 60 }),
    };
    let _ = desk.save_route(mk("rt-A", "A", "plugin.x", "plugin.*"));
    let _ = desk.save_route(mk("rt-B", "B", "plugin.y", "plugin.*"));
    let _ = desk.save_route(mk("rt-C", "C", "plugin.z", "plugin.x"));
    let reports = desk.detect_route_cycles();
    assert!(!reports.is_empty());
    for r in &reports {
        assert_eq!(r.cycle.first(), r.cycle.last());
        let inner = &r.cycle[..r.cycle.len() - 1];
        for (i, name) in inner.iter().enumerate() {
            assert!(!inner[i + 1..].contains(name), "{:?}", r.cycle);
        }
    }
}

#[test]
fn trials_foretell_the_frequency_rule() {
    for (action, target) in [("suppress", None), ("downgrade", Some("info")), ("merge", None)] {
        let mut desk = Desk::new();
        desk.save_aggregation(agg_rule("r1", action, target)).unwrap();
        let now = now_secs();
        let mut fired = 0;
        for _ in 0..5 {
            let told = desk.simulate_aggregations("plugin.metrics.exceeded", now);
            let decided = desk.evaluate_aggregations("plugin.metrics.exceeded", &json("{}"), now);
            let named = match &decided {
                AggregationDecision::Pass => None,
                AggregationDecision::Downgrade(..) => Some("downgrade"),
                AggregationDecision::Suppress { .. } => Some("suppress"),
                AggregationDecision::Merge { .. } => Some("merge"),
            };
            assert_eq!(told.would_fire, decided != AggregationDecision::Pass);
            assert_eq!(told.action.as_deref(), named);
            fired += usize::from(told.would_fire);
        }
        assert_eq!(fired, 1);
    }
}
