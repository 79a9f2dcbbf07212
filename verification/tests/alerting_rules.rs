use opencapx::alerting::aggregations::{AggregationDecision, aggregation_kind_matches, apply_aggregation_decision, ensure_aggregation_id, validate_aggregation};
use opencapx::alerting::config::{validate, validate_endpoint, validate_url};
use opencapx::alerting::correlations::{CorrelationDecision, ensure_correlation_id, validate_correlation};
use opencapx::alerting::dispatch::{DispatchState, compute_signature, dedup_key, endpoint_accepts_source, envelope_to_json_string, let_through, make_envelope_with_severity, source_enabled};
use opencapx::alerting::escalations::{Candidate, ensure_escalation_id, validate_escalation};
use opencapx::alerting::retry::{RetryConfig, compute_backoff_secs, retry_tally, validate_retry};
use opencapx::alerting::routes::{Comparison, comparison_needed, import_routes_yaml, payload_match, trial_payload, validate_route};
use opencapx::alerting::rows::{overrides_in, overrides_text};
use opencapx::alerting::severity::{AlertingManifest, SeverityHintDto, severity_for_source};
use opencapx::alerting::silences::{clear_expired_acks, delete_ack, delete_silence, gen_ack_id, is_acked, is_silenced, validate_silence};
use opencapx::alerting::stamps::Stamp;
use opencapx::alerting::storage::{AggregationRule, AggregationRuleDto, CorrelationRule, CorrelationRuleDto, EscalationRule, EscalationRuleDto, Storage};
use opencapx::alerting::timeline::RecentEvents;
use opencapx::alerting::types::{AckRuleRow, AlertEnvelope, AlertingEndpointRow, RouteRule, RouteRuleRow, RouteRuleYamlDoc, Severity, SilenceRule, SilenceRuleRow, WebhookConfig, WebhookEndpoint, WebhookSources};
use opencapx::alerting::util::{hour_from_unix, kind_matches, weekday_from_unix};
use opencapx::alerting::{aggregations, correlations, dispatch, escalations, routes, severity, silences};
use opencapx::json::{Json, payload_path_get};

fn now_secs() -> u64 {
    std::time::SystemTime::now()
        .duration_since(std::time::UNIX_EPOCH)
        .map(|d| d.as_secs())
        .unwrap_or(0)
}

fn json(text: &str) -> Json {
    trial_payload(text).unwrap()
}

/// How the two texts of a test stand to each other as numbers.
fn compare(texts: Option<(String, String)>) -> Option<Comparison> {
    let (left, right) = texts?;
    let x = left.parse::<f64>().ok()?;
    let y = right.parse::<f64>().ok()?;
    Some(Comparison {
        at_least: x >= y,
        at_most: x <= y,
        above: x > y,
        below: x < y,
        near: (x - y).abs() < f64::EPSILON,
    })
}

fn route_matches(rule: &RouteRuleRow, kind: &str, payload: &Json) -> bool {
    let numbers = match (&rule.payload_path, &rule.payload_match) {
        (Some(path), Some(expr)) => compare(comparison_needed(payload, path, expr)),
        _ => None,
    };
    routes::route_matches(rule, kind, payload, numbers, &RecentEvents::new(), now_secs())
}

/// A store, what alerting remembers, and the time.
struct Desk {
    store: Storage,
    state: DispatchState,
    now: u64,
    made: u64,
}

impl Desk {
    fn new() -> Self {
        Desk {
            store: Storage::new(),
            state: DispatchState::new(),
            now: now_secs(),
            made: 0,
        }
    }

    fn next(&mut self) -> u64 {
        self.made += 1;
        self.made
    }

    fn save_user_severity_hint(&mut self, source: &str, level: &str) -> Result<SeverityHintDto, String> {
        severity::save_user_severity_hint(&mut self.store, source, level, self.now as i64)
    }

    fn delete_user_severity_hint(&mut self, source: &str) -> bool {
        severity::delete_user_severity_hint(&mut self.store, source)
    }

    fn list_severity_hints(&self) -> Vec<SeverityHintDto> {
        severity::list_severity_hints(&self.store)
    }

    fn clear_user_severity_hints(&mut self) -> usize {
        severity::clear_user_severity_hints(&mut self.store)
    }

    fn install_manifest_hints(&mut self, plugin: &str, manifest: &Option<AlertingManifest>) {
        severity::install_manifest_hints(&mut self.store, plugin, manifest, self.now as i64)
    }

    fn uninstall_manifest_hints(&mut self, plugin: &str) -> usize {
        severity::uninstall_manifest_hints(&mut self.store, plugin)
    }

    fn severity_resolved(&self, source: &str) -> Severity {
        severity::severity_resolved(&self.store, source)
    }

    fn evaluate_aggregations(&mut self, source: &str, payload: &Json, now: u64) -> AggregationDecision {
        aggregations::evaluate_aggregations(&self.store, &mut self.state.buckets, source, payload, now)
    }

    fn save_aggregation(&mut self, rule: AggregationRule) -> Result<AggregationRuleDto, String> {
        aggregations::save_aggregation(&mut self.store, rule, self.now)
    }

    fn list_aggregations(&self) -> Vec<AggregationRuleDto> {
        aggregations::list_aggregations(&self.store)
    }

    fn delete_aggregation(&mut self, id: &str) -> bool {
        aggregations::delete_aggregation(&mut self.store, id)
    }

    fn clear_aggregations(&mut self) -> usize {
        aggregations::clear_aggregations(&mut self.store)
    }

    fn evaluate_correlations(&mut self, source: &str, now: u64) -> CorrelationDecision {
        correlations::evaluate_correlations(&self.store, &mut self.state.correlation, source, now)
    }

    fn save_correlation(&mut self, rule: CorrelationRule) -> Result<CorrelationRuleDto, String> {
        correlations::save_correlation(&mut self.store, rule, self.now)
    }

    fn list_correlations(&self) -> Vec<CorrelationRuleDto> {
        correlations::list_correlations(&self.store)
    }

    fn delete_correlation(&mut self, id: &str) -> bool {
        correlations::delete_correlation(&mut self.store, id)
    }

    fn clear_correlations(&mut self) -> usize {
        correlations::clear_correlations(&mut self.store)
    }

    fn save_escalation(&mut self, rule: EscalationRule) -> Result<EscalationRuleDto, String> {
        escalations::save_escalation(&mut self.store, rule, self.now)
    }

    fn list_escalations(&self) -> Vec<EscalationRuleDto> {
        escalations::list_escalations(&self.store)
    }

    fn delete_escalation(&mut self, id: &str) -> bool {
        escalations::delete_escalation(&mut self.store, id)
    }

    fn clear_escalations(&mut self) -> usize {
        escalations::clear_escalations(&mut self.store)
    }

    fn record_dispatch(&mut self, source: &str, now: u64) {
        escalations::record_dispatch(&mut self.state.escalation, source, now)
    }

    fn find_escalation_candidates(&self, now: u64) -> Vec<Candidate> {
        escalations::find_escalation_candidates(&self.store, &self.state.escalation, now)
    }

    fn ack_kind(&mut self, pattern: String, window: u64) -> Result<AckRuleRow, String> {
        let id = gen_ack_id(self.now, self.next());
        silences::ack_kind(&mut self.store, pattern, window, &id, self.now)
    }

    fn list_silences(&self) -> Vec<SilenceRuleRow> {
        silences::list_silences(&self.store)
    }

    fn list_acks(&self) -> Vec<AckRuleRow> {
        silences::list_acks(&self.store)
    }

    fn list_routes(&self) -> Vec<RouteRuleRow> {
        routes::list_routes(&self.store)
    }

    fn make_envelope(&self, source: &str, payload: Json, tags: Vec<String>) -> AlertEnvelope {
        dispatch::make_envelope(&self.store, source, payload, tags, self.now)
    }
}

fn fresh_config() -> WebhookConfig {
    WebhookConfig {
        enabled: true,
        url: "https://hooks.example.com/services/T/B/X".into(),
        min_interval_secs: 5,
        sources: WebhookSources {
            metrics_exceeded: true,
            sla_violated: true,
            kill_switch_engaged: true,
            plugin_crashed: true,
        },
        custom_headers: vec![("X-OpenCapX-Test".into(), "yes".into())],
        schema_version: 0,
    }
}

#[test]
fn validate_accepts_https_url() {
    assert!(validate_url("https://hooks.slack.com/services/X/Y/Z").is_ok());
    assert!(validate_url("https://discord.com/api/webhooks/1/2").is_ok());
}

#[test]
fn validate_accepts_http_localhost() {
    assert!(validate_url("http://localhost:9000/hook").is_ok());
    assert!(validate_url("http://127.0.0.1:8080/alerts").is_ok());
}

#[test]
fn validate_rejects_empty() {
    assert!(validate_url("").is_err());
}

#[test]
fn validate_rejects_other_schemes() {
    assert!(validate_url("ftp://example.com").is_err());
    assert!(validate_url("file:///etc/passwd").is_err());
    assert!(validate_url("javascript:alert(1)").is_err());
    assert!(validate_url("//example.com").is_err());
}

#[test]
fn validate_rejects_too_long() {
    let long = format!("https://example.com/{}", "x".repeat(2050));
    assert!(validate_url(&long).is_err());
}

#[test]
fn validate_rejects_control_chars() {
    assert!(validate_url("https://example.com/foo\nbar").is_err());
    assert!(validate_url("https://example.com/foo\rbar").is_err());
    assert!(validate_url("https://example.com/foo\0bar").is_err());
}

#[test]
fn validate_skips_url_when_disabled() {
    let mut cfg = WebhookConfig::default();
    cfg.enabled = false;
    cfg.url = String::new();
    assert!(validate(&cfg).is_ok());
}

#[test]
fn validate_rejects_bad_interval() {
    let mut cfg = fresh_config();
    cfg.min_interval_secs = 4000;
    assert!(validate(&cfg).is_err());
    cfg.min_interval_secs = 3600;
    assert!(validate(&cfg).is_ok());
}

#[test]
fn validate_rejects_bad_header_name() {
    let mut cfg = fresh_config();
    cfg.custom_headers = vec![("".into(), "v".into())];
    assert!(validate(&cfg).is_err());
    cfg.custom_headers = vec![("X\nInjected".into(), "v".into())];
    assert!(validate(&cfg).is_err());
}

#[test]
fn source_enabled_routing() {
    let s = WebhookSources {
        metrics_exceeded: true,
        sla_violated: false,
        kill_switch_engaged: true,
        plugin_crashed: false,
    };
    assert!(source_enabled("plugin.metrics.exceeded", &s));
    assert!(!source_enabled("capability.sla.violated", &s));
    assert!(source_enabled("plugin.kill_switch.enabled", &s));
    assert!(!source_enabled("plugin.lifecycle.crashed", &s));
    assert!(!source_enabled("unknown.event", &s));
}

#[test]
fn dedup_key_changes_with_payload() {
    let a = dedup_key("plugin.metrics.exceeded", &json(r#"{"x":1}"#));
    let b = dedup_key("plugin.metrics.exceeded", &json(r#"{"x":2}"#));
    let c = dedup_key("plugin.metrics.exceeded", &json(r#"{"x":1}"#));
    assert_ne!(a, b);
    assert_eq!(a, c);
}

#[test]
fn default_config_is_safe() {
    let cfg = WebhookConfig::default();
    assert!(!cfg.enabled);
    assert_eq!(cfg.url, "");
    assert_eq!(cfg.min_interval_secs, 5);
    assert!(!cfg.sources.metrics_exceeded);
    assert!(!cfg.sources.sla_violated);
    assert!(!cfg.sources.kill_switch_engaged);
    assert!(!cfg.sources.plugin_crashed);
    assert!(cfg.custom_headers.is_empty());
}

#[test]
fn dispatcher_dedups_within_window() {
    let mut desk = Desk::new();
    let cfg = fresh_config();
    let payload = json(r#"{"pluginId": "com.example.foo", "kind": "cpu"}"#);
    let key = dedup_key("plugin.metrics.exceeded", &payload);
    desk.state.last_sent.put(Stamp { name: key, at: 1_000 });
    let within = let_through(&desk.store, &cfg, &mut desk.state, "plugin.metrics.exceeded", &payload, desk.now, 1_001);
    assert!(within.is_none(), "dedup should still be in window");
    let after = let_through(&desk.store, &cfg, &mut desk.state, "plugin.metrics.exceeded", &payload, desk.now, 5_000_001_000);
    assert!(after.is_some());
}

#[test]
fn retry_config_default_is_safe() {
    let cfg = RetryConfig::default();
    assert_eq!(cfg.max_attempts, 5);
    assert_eq!(cfg.initial_backoff_secs, 30);
    assert_eq!(cfg.max_backoff_secs, 600);
    assert_eq!(cfg.retention_days, 7);
    assert!(validate_retry(&cfg).is_ok());
}

#[test]
fn validate_retry_rejects_zero_attempts() {
    let mut cfg = RetryConfig::default();
    cfg.max_attempts = 0;
    assert!(validate_retry(&cfg).is_err());
    cfg.max_attempts = 101;
    assert!(validate_retry(&cfg).is_err());
    cfg.max_attempts = 5;
    assert!(validate_retry(&cfg).is_ok());
}

#[test]
fn validate_retry_rejects_zero_backoff() {
    let mut cfg = RetryConfig::default();
    cfg.initial_backoff_secs = 0;
    assert!(validate_retry(&cfg).is_err());
}

#[test]
fn validate_retry_rejects_max_less_than_initial() {
    let mut cfg = RetryConfig::default();
    cfg.initial_backoff_secs = 600;
    cfg.max_backoff_secs = 30;
    assert!(validate_retry(&cfg).is_err());
}

#[test]
fn backoff_doubles_then_caps() {
    let cfg = RetryConfig {
        max_attempts: 20,
        initial_backoff_secs: 30,
        max_backoff_secs: 600,
        retention_days: 7,
    };
    assert_eq!(compute_backoff_secs(1, &cfg), 30);
    assert_eq!(compute_backoff_secs(2, &cfg), 60);
    assert_eq!(compute_backoff_secs(3, &cfg), 120);
    assert_eq!(compute_backoff_secs(4, &cfg), 240);
    assert_eq!(compute_backoff_secs(5, &cfg), 480);
    assert_eq!(compute_backoff_secs(6, &cfg), 600);
    assert_eq!(compute_backoff_secs(10, &cfg), 600);
    assert_eq!(compute_backoff_secs(100, &cfg), 600);
}

#[test]
fn backoff_attempts_zero_returns_initial() {
    let cfg = RetryConfig::default();
    assert_eq!(compute_backoff_secs(0, &cfg), 30);
}

#[test]
fn compute_backoff_handles_huge_attempt_no_overflow() {
    let cfg = RetryConfig {
        max_attempts: 200,
        initial_backoff_secs: 60,
        max_backoff_secs: 86400,
        retention_days: 1,
    };
    let b = compute_backoff_secs(u32::MAX, &cfg);
    assert_eq!(b, 86400);
}

#[test]
fn compute_signature_with_secret_produces_sha256_hex() {
    let sig = compute_signature("shh-secret", r#"{"a":1}"#);
    assert!(sig.starts_with("sha256="));
    let hex = &sig[7..];
    assert_eq!(hex.len(), 64);
    assert!(hex.chars().all(|c| c.is_ascii_hexdigit()));
}

#[test]
fn compute_signature_empty_secret_returns_empty() {
    assert_eq!(compute_signature("", "anything"), "");
}

#[test]
fn compute_signature_changes_with_body() {
    let s1 = compute_signature("k", "body-a");
    let s2 = compute_signature("k", "body-b");
    assert_ne!(s1, s2);
}

#[test]
fn validate_endpoint_rejects_empty_name() {
    let ep = WebhookEndpoint {
        id: String::new(),
        name: String::new(),
        url: "https://hooks.example.com/x".into(),
        enabled: true,
        headers: vec![],
        secret: String::new(),
        source_filter: vec![],
        schema_version: 0,
        template: None,
        template_sample: None,
        severity_overrides: vec![],
    };
    assert!(validate_endpoint(&ep).is_err());
}

#[test]
fn validate_endpoint_rejects_bad_url() {
    let ep = WebhookEndpoint {
        id: String::new(),
        name: "ops".into(),
        url: "ftp://wrong".into(),
        enabled: true,
        headers: vec![],
        secret: String::new(),
        source_filter: vec![],
        schema_version: 0,
        template: None,
        template_sample: None,
        severity_overrides: vec![],
    };
    assert!(validate_endpoint(&ep).is_err());
}

#[test]
fn validate_endpoint_rejects_unknown_source_filter() {
    let ep = WebhookEndpoint {
        id: String::new(),
        name: "ops".into(),
        url: "https://x.com".into(),
        enabled: true,
        headers: vec![],
        secret: String::new(),
        source_filter: vec!["unknown.kind".into()],
        schema_version: 0,
        template: None,
        template_sample: None,
        severity_overrides: vec![],
    };
    assert!(validate_endpoint(&ep).is_err());
}

#[test]
fn validate_endpoint_accepts_known_source_filter() {
    let ep = WebhookEndpoint {
        id: String::new(),
        name: "ops".into(),
        url: "https://x.com".into(),
        enabled: true,
        headers: vec![("X-Auth".into(), "tok".into())],
        secret: "shh".into(),
        source_filter: vec![
            "plugin.metrics.exceeded".into(),
            "plugin.lifecycle.crashed".into(),
        ],
        schema_version: 0,
        template: None,
        template_sample: None,
        severity_overrides: vec![],
    };
    assert!(validate_endpoint(&ep).is_ok());
}

#[test]
fn endpoint_accepts_source_logic() {
    let all = AlertingEndpointRow {
        id: "a".into(),
        name: "all".into(),
        url: "https://x.com".into(),
        enabled: true,
        headers: vec![],
        secret: String::new(),
        source_filter: vec![],
        created_at: 0,
        schema_version: 0,
        template: None,
        template_sample: None,
        severity_overrides: None,
    };
    assert!(endpoint_accepts_source(&all, "plugin.metrics.exceeded"));
    assert!(endpoint_accepts_source(&all, "capability.sla.violated"));
    let only_crash = AlertingEndpointRow {
        source_filter: vec!["plugin.lifecycle.crashed".into()],
        name: "crash".into(),
        ..all.clone()
    };
    assert!(endpoint_accepts_source(
        &only_crash,
        "plugin.lifecycle.crashed"
    ));
    assert!(!endpoint_accepts_source(
        &only_crash,
        "plugin.metrics.exceeded"
    ));
}

#[test]
fn kind_matches_star_matches_anything() {
    assert!(kind_matches("*", "plugin.metrics.exceeded"));
    assert!(kind_matches("", "anything"));
}

#[test]
fn kind_matches_prefix_dot_star() {
    assert!(kind_matches("plugin.*", "plugin.metrics.exceeded"));
    assert!(kind_matches("plugin.*", "plugin.lifecycle.crashed"));
    assert!(!kind_matches("plugin.*", "capability.sla.violated"));
    assert!(!kind_matches("plugin.*", "plugin"));
}

#[test]
fn kind_matches_exact() {
    assert!(kind_matches(
        "capability.sla.violated",
        "capability.sla.violated"
    ));
    assert!(!kind_matches(
        "capability.sla.violated",
        "capability.sla.violated.extra"
    ));
    assert!(!kind_matches(
        "capability.sla.violated",
        "plugin.metrics.exceeded"
    ));
}

#[test]
fn weekday_from_unix_known_dates() {
    assert_eq!(weekday_from_unix(0), 4);
    assert_eq!(weekday_from_unix(1767225600), 4);
    assert_eq!(weekday_from_unix(1789084800), 5);
    assert_eq!(weekday_from_unix(1798156800), 5);
}

#[test]
fn hour_from_unix_returns_utc_hour() {
    assert_eq!(hour_from_unix(0), 0);
    assert_eq!(hour_from_unix(3600), 1);
    assert_eq!(hour_from_unix(86399), 23);
    assert_eq!(hour_from_unix(86400), 0);
}

fn silence_with_window(start: u64, end: u64, wd: u8, sh: u8, eh: u8) -> SilenceRule {
    SilenceRule {
        id: "sil-test".into(),
        name: "test".into(),
        kind_pattern: "*".into(),
        starts_at: start,
        ends_at: end,
        weekdays: wd,
        start_hour: sh,
        end_hour: eh,
    }
}

#[test]
fn validate_silence_accepts_valid() {
    let now = 1_700_000_000;
    let s = silence_with_window(now, now + 86400, 127, 0, 24);
    assert!(validate_silence(&s).is_ok());
}

#[test]
fn validate_silence_rejects_inverted_window() {
    let now = 1_700_000_000;
    let s = silence_with_window(now + 100, now, 127, 0, 24);
    assert!(validate_silence(&s).is_err());
}

#[test]
fn validate_silence_rejects_too_long_window() {
    let now = 1_700_000_000;
    let s = silence_with_window(now, now + 8 * 86400, 127, 0, 24);
    assert!(validate_silence(&s).is_err());
}

#[test]
fn validate_silence_rejects_empty_weekdays() {
    let now = 1_700_000_000;
    let s = silence_with_window(now, now + 3600, 0, 0, 24);
    assert!(validate_silence(&s).is_err());
}

#[test]
fn validate_silence_rejects_bad_hours() {
    let now = 1_700_000_000;
    let s = silence_with_window(now, now + 3600, 127, 12, 12);
    assert!(validate_silence(&s).is_err());
    let s = silence_with_window(now, now + 3600, 127, 25, 25);
    assert!(validate_silence(&s).is_err());
}

#[test]
fn validate_silence_rejects_empty_name() {
    let now = 1_700_000_000;
    let mut s = silence_with_window(now, now + 3600, 127, 0, 24);
    s.name = "".into();
    assert!(validate_silence(&s).is_err());
    s.name = "   ".into();
    assert!(validate_silence(&s).is_err());
}

#[test]
fn silence_db_round_trips_through_save_list_delete() {
    let mut desk = Desk::new();
    let now = 1_700_000_000;
    let row = SilenceRuleRow {
        id: "sil-a".into(),
        name: "maintenance".into(),
        kind_pattern: "*".into(),
        starts_at: now,
        ends_at: now + 3600,
        weekdays: 127,
        start_hour: 0,
        end_hour: 24,
        created_at: now,
    };
    desk.store.silences.put(row);
    let listed = desk.list_silences();
    assert_eq!(listed.len(), 1);
    assert_eq!(listed[0].id, "sil-a");
    assert_eq!(listed[0].name, "maintenance");

    assert!(is_silenced(&desk.store, "anything", now + 60));
    assert!(!is_silenced(&desk.store, "anything", now + 7200));

    assert!(delete_silence(&mut desk.store, "sil-a"));
    assert!(desk.list_silences().is_empty());
}

#[test]
fn ack_db_round_trips_through_save_list_delete() {
    let mut desk = Desk::new();
    let now = 1_700_000_000;
    let row = AckRuleRow {
        id: "ack-a".into(),
        kind_pattern: "plugin.metrics.*".into(),
        ack_until: now + 3600,
        created_at: now,
    };
    desk.store.acks.put(row);

    let listed = desk.list_acks();
    assert_eq!(listed.len(), 1);
    assert_eq!(listed[0].kind_pattern, "plugin.metrics.*");

    assert!(is_acked(&desk.store, "plugin.metrics.exceeded", now + 60));

    let removed = clear_expired_acks(&mut desk.store, now + 7200);
    assert_eq!(removed, 1);
    assert!(!is_acked(&desk.store, "plugin.metrics.exceeded", now + 7200));
    assert_eq!(desk.list_acks().len(), 0);

    assert!(delete_ack(&mut desk.store, "ack-a") || desk.list_acks().is_empty());
}

#[test]
fn silence_priority_overrides_dedup() {
    let matched = kind_matches("plugin.*", "plugin.metrics.exceeded");
    assert!(matched);
    let not_matched = kind_matches("capability.*", "plugin.metrics.exceeded");
    assert!(!not_matched);
}

fn route_with(priority: i32, enabled: bool, kind: &str, target: &[&str]) -> RouteRuleRow {
    RouteRuleRow {
        id: format!("rt-{}", priority),
        name: format!("rule-{}", priority),
        priority,
        enabled,
        kind_pattern: kind.into(),
        payload_path: None,
        payload_match: None,
        target_endpoint_ids: target.iter().map(|s| s.to_string()).collect(),
        recipients: vec![],
        tags: vec![],
        seen_in_last: None,
        created_at: 1_700_000_000,
    }
}

#[test]
fn validate_route_accepts_minimal_valid() {
    let r = RouteRule {
        id: "".into(),
        name: "rule".into(),
        priority: 100,
        enabled: true,
        kind_pattern: "*".into(),
        payload_path: None,
        payload_match: None,
        target_endpoint_ids: vec!["ep-1".into()],
        recipients: vec![],
        tags: vec![],
        seen_in_last: None,
    };
    assert!(validate_route(&r).is_ok());
}

#[test]
fn validate_route_rejects_empty_name() {
    let r = RouteRule {
        id: "".into(),
        name: "  ".into(),
        priority: 100,
        enabled: true,
        kind_pattern: "*".into(),
        payload_path: None,
        payload_match: None,
        target_endpoint_ids: vec!["ep-1".into()],
        recipients: vec![],
        tags: vec![],
        seen_in_last: None,
    };
    assert!(validate_route(&r).is_err());
}

#[test]
fn validate_route_rejects_empty_targets() {
    let r = RouteRule {
        id: "".into(),
        name: "rule".into(),
        priority: 100,
        enabled: true,
        kind_pattern: "*".into(),
        payload_path: None,
        payload_match: None,
        target_endpoint_ids: vec![],
        recipients: vec![],
        tags: vec![],
        seen_in_last: None,
    };
    assert!(validate_route(&r).is_err());
}

#[test]
fn validate_route_rejects_bad_kind_pattern() {
    let mut r = RouteRule {
        id: "".into(),
        name: "rule".into(),
        priority: 100,
        enabled: true,
        kind_pattern: "".into(),
        payload_path: None,
        payload_match: None,
        target_endpoint_ids: vec!["ep-1".into()],
        recipients: vec![],
        tags: vec![],
        seen_in_last: None,
    };
    assert!(validate_route(&r).is_err());
    r.kind_pattern = "a".repeat(300).into();
    assert!(validate_route(&r).is_err());
}

#[test]
fn route_matches_kind_only_pattern() {
    let r = route_with(100, true, "plugin.metrics.*", &["ep-1"]);
    assert!(route_matches(&r, "plugin.metrics.exceeded", &json("{}")));
    assert!(!route_matches(
        &r,
        "capability.sla.violated",
        &json("{}")
    ));
    assert!(!route_matches(&r, "plugin", &json("{}")));
}

#[test]
fn route_matches_disabled_returns_false() {
    let r = route_with(100, false, "*", &["ep-1"]);
    assert!(!route_matches(&r, "anything", &json("{}")));
}

#[test]
fn route_matches_payload_ge_threshold() {
    let mut r = route_with(100, true, "*", &["ep-1"]);
    r.payload_path = Some("cpu_percent".into());
    r.payload_match = Some(">=90".into());
    let p1 = json(r#"{"cpu_percent": 95}"#);
    let p2 = json(r#"{"cpu_percent": 50}"#);
    let p3 = json(r#"{"other": 1}"#);
    assert!(route_matches(&r, "anything", &p1));
    assert!(!route_matches(&r, "anything", &p2));
    assert!(!route_matches(&r, "anything", &p3));
}

#[test]
fn route_matches_payload_prefix_and_contains() {
    let mut r = route_with(100, true, "*", &["ep-1"]);
    r.payload_path = Some("error".into());
    r.payload_match = Some("prefix:OutOf".into());
    assert!(route_matches(
        &r,
        "anything",
        &json(r#"{"error":"OutOfMemory"}"#)
    ));
    assert!(!route_matches(
        &r,
        "anything",
        &json(r#"{"error":"NullPointer"}"#)
    ));

    r.payload_match = Some("contains:timeout".into());
    assert!(route_matches(
        &r,
        "anything",
        &json(r#"{"error":"connection_timeout"}"#)
    ));
    assert!(!route_matches(
        &r,
        "anything",
        &json(r#"{"error":"reset"}"#)
    ));
}

#[test]
fn route_matches_payload_exact_eq_string() {
    let mut r = route_with(100, true, "*", &["ep-1"]);
    r.payload_path = Some("status".into());
    r.payload_match = Some("=ok".into());
    assert!(route_matches(
        &r,
        "anything",
        &json(r#"{"status":"ok"}"#)
    ));
    assert!(!route_matches(
        &r,
        "anything",
        &json(r#"{"status":"failed"}"#)
    ));
}

#[test]
fn route_first_match_wins_by_priority() {
    let high = route_with(10, true, "*", &["ep-critical"]);
    let low = route_with(999, true, "*", &["ep-info"]);
    let _ = (high, low);
    let high = route_with(10, true, "*", &["ep-critical"]);
    let low = route_with(999, true, "*", &["ep-info"]);
    assert!(route_matches(&high, "anything", &json("{}")));
    assert!(route_matches(&low, "anything", &json("{}")));
}

#[test]
fn routes_yaml_invalid_kind_rejected() {
    let rule = RouteRule {
        id: "".into(),
        name: "bad".into(),
        priority: 100,
        enabled: true,
        kind_pattern: "*".into(),
        payload_path: None,
        payload_match: None,
        target_endpoint_ids: vec![],
        recipients: vec![],
        tags: vec![],
        seen_in_last: None,
    };
    assert!(validate_route(&rule).is_err());
    let mut desk = Desk::new();
    let doc = RouteRuleYamlDoc { version: 1, rules: vec![rule] };
    assert!(import_routes_yaml(&mut desk.store, doc, 7, 1, desk.now).is_err());
    assert!(desk.list_routes().is_empty());
}

#[test]
fn payload_path_get_nested() {
    let v = json(r#"{"a":{"b":{"c":"hello"}}}"#);
    assert_eq!(
        payload_path_get(&v, "a.b.c").and_then(|x| x.as_text()),
        Some("hello")
    );
    assert!(payload_path_get(&v, "a.b").is_some());
    assert!(payload_path_get(&v, "x.y.z").is_none());
    let arr = json(r#"{"items":[{"name":"x"},{"name":"y"}]}"#);
    assert_eq!(
        payload_path_get(&arr, "items.0.name").and_then(|x| x.as_text()),
        Some("x")
    );
    assert_eq!(
        payload_path_get(&arr, "items.1.name").and_then(|x| x.as_text()),
        Some("y")
    );
}

#[test]
fn route_priority_overrides_fanout_fallback() {
    let r = route_with(10, true, "plugin.*", &["ep-1"]);
    let p = json("{}");
    assert!(!route_matches(&r, "capability.sla.violated", &p));
}

#[test]
fn severity_for_source_known() {
    assert_eq!(
        severity_for_source("plugin.metrics.exceeded"),
        Severity::Warn
    );
    assert_eq!(
        severity_for_source("capability.sla.violated"),
        Severity::Error
    );
    assert_eq!(
        severity_for_source("plugin.kill_switch.enabled"),
        Severity::Critical
    );
    assert_eq!(
        severity_for_source("plugin.lifecycle.crashed"),
        Severity::Critical
    );
    assert_eq!(severity_for_source("webhook.test"), Severity::Info);
}

#[test]
fn severity_for_source_unknown_defaults_info() {
    assert_eq!(severity_for_source("unknown.kind"), Severity::Info);
    assert_eq!(severity_for_source(""), Severity::Info);
}

#[test]
fn severity_parse_round_trips() {
    assert_eq!(Severity::parse("info"), Some(Severity::Info));
    assert_eq!(Severity::parse("WARN"), Some(Severity::Warn));
    assert_eq!(Severity::parse("Error"), Some(Severity::Error));
    assert_eq!(Severity::parse("critical"), Some(Severity::Critical));
    assert_eq!(Severity::parse("fatal"), Some(Severity::Critical));
    assert_eq!(Severity::parse("nonsense"), None);
}

#[test]
fn severity_as_str_lowercase() {
    assert_eq!(Severity::Info.as_str(), "info");
    assert_eq!(Severity::Critical.as_str(), "critical");
}

#[test]
fn make_envelope_fills_schema_version_and_timestamp() {
    let desk = Desk::new();
    let env = desk.make_envelope(
        "plugin.metrics.exceeded",
        json(r#"{"cpu": 95}"#),
        vec![],
    );
    assert_eq!(env.schema_version, 1);
    assert_eq!(env.schema_version, 1);
    assert_eq!(env.source, "plugin.metrics.exceeded");
    assert_eq!(env.severity, Severity::Warn);
    assert!(env.timestamp > 0);
    assert_eq!(env.payload, json(r#"{"cpu": 95}"#));
}

#[test]
fn make_envelope_event_id_is_unique_uuid_v4() {
    let desk = Desk::new();
    let e1 = desk.make_envelope("a", json(r#"{}"#), vec![]);
    let e2 = desk.make_envelope("a", json(r#"{}"#), vec![]);
    assert_ne!(e1.event_id, e2.event_id);
    let parts: Vec<&str> = e1.event_id.split('-').collect();
    assert_eq!(parts.len(), 5);
    assert_eq!(parts[0].len(), 8);
    assert_eq!(parts[1].len(), 4);
}

#[test]
fn envelope_serializes_to_canonical_shape() {
    let env = AlertEnvelope {
        schema_version: 1,
        event_id: "fixed-id".into(),
        source: "plugin.metrics.exceeded".into(),
        severity: Severity::Warn,
        tags: vec!["p1".into()],
        timestamp: 1_700_000_000,
        payload: json(r#"{"x": 1}"#),
    };
    let s = envelope_to_json_string(&env).unwrap();
    assert!(s.contains("\"schemaVersion\":1"));
    assert!(s.contains("\"eventId\":\"fixed-id\""));
    assert!(s.contains("\"source\":\"plugin.metrics.exceeded\""));
    assert!(s.contains("\"severity\":\"warn\""));
    assert!(s.contains("\"tags\":[\"p1\"]"));
    assert!(s.contains("\"timestamp\":1700000000"));
    assert!(s.contains("\"payload\":{\"x\":1}"));
}

#[test]
fn webhook_config_default_has_schema_version_zero() {
    let cfg = WebhookConfig::default();
    assert_eq!(cfg.schema_version, 0);
}

#[test]
fn severity_resolved_falls_back_to_hardcode_when_no_hint() {
    let desk = Desk::new();
    assert_eq!(desk.severity_resolved("plugin.metrics.exceeded"), Severity::Warn);
    assert_eq!(
        desk.severity_resolved("plugin.kill_switch.enabled"),
        Severity::Critical
    );
    assert_eq!(
        desk.severity_resolved("capability.sla.violated"),
        Severity::Error
    );
}

#[test]
fn severity_resolved_user_hint_overrides_hardcode() {
    let mut desk = Desk::new();
    desk.save_user_severity_hint("plugin.metrics.exceeded", "critical").unwrap();
    assert_eq!(
        desk.severity_resolved("plugin.metrics.exceeded"),
        Severity::Critical
    );
}

#[test]
fn severity_resolved_manifest_hint_overrides_hardcode() {
    let mut desk = Desk::new();
    desk.install_manifest_hints(
        "plug-a",
        &Some(AlertingManifest {
            severity_hints: [(
                "capability.sla.violated".to_string(),
                "critical".to_string(),
            )]
            .into_iter()
            .collect(),
        }),
    );
    assert_eq!(
        desk.severity_resolved("capability.sla.violated"),
        Severity::Critical
    );
}

#[test]
fn severity_resolved_user_hint_beats_manifest_hint() {
    let mut desk = Desk::new();
    desk.install_manifest_hints(
        "plug-a",
        &Some(AlertingManifest {
            severity_hints: [(
                "plugin.metrics.exceeded".to_string(),
                "critical".to_string(),
            )]
            .into_iter()
            .collect(),
        }),
    );
    desk.save_user_severity_hint("plugin.metrics.exceeded", "info").unwrap();
    assert_eq!(desk.severity_resolved("plugin.metrics.exceeded"), Severity::Info);
}

#[test]
fn severity_resolved_unknown_source_with_hint_returns_hint() {
    let mut desk = Desk::new();
    desk.save_user_severity_hint("my.custom.event", "warn").unwrap();
    assert_eq!(desk.severity_resolved("my.custom.event"), Severity::Warn);
}

#[test]
fn severity_resolved_unknown_source_no_hint_returns_info() {
    let desk = Desk::new();
    assert_eq!(
        desk.severity_resolved("definitely.unknown.source"),
        Severity::Info
    );
}

#[test]
fn severity_resolved_no_store_returns_hardcode() {
    assert_eq!(severity_for_source("anything-else"), Severity::Info);
}

#[test]
fn save_user_severity_hint_rejects_invalid_severity() {
    let mut desk = Desk::new();
    let r = desk.save_user_severity_hint("plugin.x", "fatal-but-wrong");
    assert!(r.is_err());
}

#[test]
fn save_user_severity_hint_rejects_empty_source() {
    let mut desk = Desk::new();
    let r = desk.save_user_severity_hint("", "warn");
    assert!(r.is_err());
}

#[test]
fn save_user_severity_hint_persists_and_reads_back() {
    let mut desk = Desk::new();
    let saved = desk.save_user_severity_hint("my.event", "error").unwrap();
    assert_eq!(saved.source, "my.event");
    assert_eq!(saved.severity, "error");
    assert_eq!(saved.origin, "user");
    assert!(saved.plugin_id.is_none());

    let rows = desk.list_severity_hints();
    assert_eq!(rows.len(), 1);
    assert_eq!(rows[0].source, "my.event");
}

#[test]
fn delete_user_severity_hint_removes_only_user_origin() {
    let mut desk = Desk::new();
    desk.install_manifest_hints(
        "plug-a",
        &Some(AlertingManifest {
            severity_hints: [("plugin.x".to_string(), "warn".to_string())]
                .into_iter()
                .collect(),
        }),
    );
    desk.save_user_severity_hint("plugin.x", "critical").unwrap();
    assert!(desk.delete_user_severity_hint("plugin.x"));
    assert_eq!(desk.severity_resolved("plugin.x"), Severity::Warn);
}

#[test]
fn delete_user_severity_hint_returns_false_when_absent() {
    let mut desk = Desk::new();
    assert!(!desk.delete_user_severity_hint("never.saved"));
}

#[test]
fn install_manifest_hints_then_uninstall_clears() {
    let mut desk = Desk::new();
    desk.install_manifest_hints(
        "plug-x",
        &Some(AlertingManifest {
            severity_hints: [
                ("plugin.a".to_string(), "warn".to_string()),
                ("plugin.b".to_string(), "error".to_string()),
            ]
            .into_iter()
            .collect(),
        }),
    );
    let before = desk.list_severity_hints();
    assert_eq!(before.len(), 2);
    let cleared = desk.uninstall_manifest_hints("plug-x");
    assert_eq!(cleared, 2);
    assert_eq!(desk.list_severity_hints().len(), 0);
}

#[test]
fn install_manifest_hints_ignores_invalid_severity_silently() {
    let mut desk = Desk::new();
    desk.install_manifest_hints(
        "plug-bad",
        &Some(AlertingManifest {
            severity_hints: [
                ("plugin.good".to_string(), "warn".to_string()),
                (
                    "plugin.bad".to_string(),
                    "totally-not-a-severity".to_string(),
                ),
            ]
            .into_iter()
            .collect(),
        }),
    );
    let rows = desk.list_severity_hints();
    assert_eq!(rows.len(), 1);
    assert_eq!(rows[0].source, "plugin.good");
}

#[test]
fn clear_user_severity_hints_keeps_manifest_origin() {
    let mut desk = Desk::new();
    desk.install_manifest_hints(
        "plug-a",
        &Some(AlertingManifest {
            severity_hints: [("plugin.m".to_string(), "warn".to_string())]
                .into_iter()
                .collect(),
        }),
    );
    desk.save_user_severity_hint("plugin.u", "error").unwrap();
    let cleared = desk.clear_user_severity_hints();
    assert_eq!(cleared, 1);
    let rows = desk.list_severity_hints();
    assert_eq!(rows.len(), 1);
    assert_eq!(rows[0].source, "plugin.m");
    assert_eq!(rows[0].origin, "manifest");
}

fn agg_rule(id: &str, action: &str, target: Option<&str>) -> AggregationRule {
    AggregationRule {
        id: id.to_string(),
        name: format!("rule-{}", id),
        kind_pattern: "plugin.metrics.*".to_string(),
        window_secs: 60,
        threshold_count: 3,
        action: action.to_string(),
        target_severity: target.map(|s| s.to_string()),
        enabled: true,
    }
}

#[test]
fn aggregation_kind_matches_glob_prefix_and_dot() {
    assert!(aggregation_kind_matches("*", "plugin.metrics.exceeded"));
    assert!(aggregation_kind_matches(
        "plugin.metrics.*",
        "plugin.metrics.exceeded"
    ));
    assert!(!aggregation_kind_matches(
        "plugin.metrics.*",
        "plugin.lifecycle.started"
    ));
    assert!(aggregation_kind_matches(
        "plugin.*",
        "plugin.metrics.exceeded"
    ));
    assert!(aggregation_kind_matches(
        "plugin.metrics.exceeded",
        "plugin.metrics.exceeded"
    ));
    assert!(!aggregation_kind_matches(
        "plugin.metrics.exceeded",
        "plugin.metrics.exceeded.extra"
    ));
}

#[test]
fn validate_aggregation_rejects_bad_inputs() {
    let mut r = agg_rule("a", "suppress", None);
    r.window_secs = 0;
    assert!(validate_aggregation(&r).is_err());
    r.window_secs = 60;
    r.threshold_count = 0;
    assert!(validate_aggregation(&r).is_err());
    r.threshold_count = 3;
    r.action = "downgrade".into();
    assert!(validate_aggregation(&r).is_err());
    r.target_severity = Some("bogus".into());
    assert!(validate_aggregation(&r).is_err());
    r.target_severity = Some("warn".into());
    assert!(validate_aggregation(&r).is_ok());
    r.action = "weird".into();
    assert!(validate_aggregation(&r).is_err());
}

#[test]
fn evaluate_aggregations_pass_without_rules() {
    let mut desk = Desk::new();
    let d = desk.evaluate_aggregations(
        "plugin.metrics.exceeded",
        &json(r#"{}"#),
        now_secs(),
    );
    assert_eq!(d, AggregationDecision::Pass);
}

#[test]
fn evaluate_aggregations_below_threshold_returns_pass() {
    let mut desk = Desk::new();
    let saved = desk.save_aggregation(agg_rule("r1", "suppress", None)).unwrap();
    assert_eq!(saved.id, "r1");
    let now = now_secs();
    let d1 = desk.evaluate_aggregations("plugin.metrics.exceeded", &json(r#"{}"#), now);
    let d2 = desk.evaluate_aggregations("plugin.metrics.exceeded", &json(r#"{}"#), now);
    assert_eq!(d1, AggregationDecision::Pass);
    assert_eq!(d2, AggregationDecision::Pass);
}

#[test]
fn evaluate_aggregations_suppress_fires_at_threshold() {
    let mut desk = Desk::new();
    desk.save_aggregation(agg_rule("r1", "suppress", None)).unwrap();
    let now = now_secs();
    desk.evaluate_aggregations("plugin.metrics.exceeded", &json(r#"{}"#), now);
    desk.evaluate_aggregations("plugin.metrics.exceeded", &json(r#"{}"#), now);
    let d = desk.evaluate_aggregations("plugin.metrics.exceeded", &json(r#"{}"#), now);
    match d {
        AggregationDecision::Suppress {
            propagated_severity,
        } => {
            assert_eq!(propagated_severity, Severity::Warn);
        }
        other => panic!("expected Suppress, got {:?}", other),
    }
    let d = desk.evaluate_aggregations("plugin.metrics.exceeded", &json(r#"{}"#), now);
    assert_eq!(d, AggregationDecision::Pass);
}

#[test]
fn evaluate_aggregations_downgrade_returns_target_severity() {
    let mut desk = Desk::new();
    desk.save_aggregation(agg_rule("r1", "downgrade", Some("critical"))).unwrap();
    let now = now_secs();
    desk.evaluate_aggregations("plugin.metrics.exceeded", &json(r#"{}"#), now);
    desk.evaluate_aggregations("plugin.metrics.exceeded", &json(r#"{}"#), now);
    let d = desk.evaluate_aggregations("plugin.metrics.exceeded", &json(r#"{}"#), now);
    match d {
        AggregationDecision::Downgrade(s, _propagated) => assert_eq!(s, Severity::Critical),
        other => panic!("expected Downgrade, got {:?}", other),
    }
}

#[test]
fn evaluate_aggregations_merge_includes_count_and_last_payload() {
    let mut desk = Desk::new();
    desk.save_aggregation(agg_rule("r1", "merge", None)).unwrap();
    let now = now_secs();
    desk.evaluate_aggregations("plugin.metrics.exceeded", &json(r#"{"cpu": 50}"#), now);
    desk.evaluate_aggregations("plugin.metrics.exceeded", &json(r#"{"cpu": 60}"#), now);
    let d = desk.evaluate_aggregations("plugin.metrics.exceeded", &json(r#"{"cpu": 70}"#), now);
    match d {
        AggregationDecision::Merge {
            count,
            since,
            last_payload,
            ..
        } => {
            assert_eq!(count, 3);
            assert_eq!(since, now);
            assert_eq!(last_payload, json(r#"{"cpu": 70}"#));
        }
        other => panic!("expected Merge, got {:?}", other),
    }
}

#[test]
fn evaluate_aggregations_pattern_mismatch_skips_rule() {
    let mut desk = Desk::new();
    desk.save_aggregation(agg_rule("r1", "suppress", None)).unwrap();
    let now = now_secs();
    for _ in 0..5 {
        let d = desk.evaluate_aggregations("plugin.lifecycle.crashed", &json(r#"{}"#), now);
        assert_eq!(d, AggregationDecision::Pass);
    }
}

#[test]
fn apply_aggregation_decision_rewrites_payload_and_severity() {
    let mut payload = json(r#"{"original": true}"#);
    let mut sev = Severity::Info;
    assert!(apply_aggregation_decision(
        &AggregationDecision::Pass,
        &mut payload,
        &mut sev
    ));
    assert_eq!(payload.member("original"), Some(&Json::Bool(true)));
    assert_eq!(sev, Severity::Info);
    assert!(apply_aggregation_decision(
        &AggregationDecision::Downgrade(Severity::Critical, Severity::Error),
        &mut payload,
        &mut sev
    ));
    assert_eq!(sev, Severity::Critical);
    assert!(apply_aggregation_decision(
        &AggregationDecision::Merge {
            count: 4,
            since: 100,
            last_payload: json(r#"{"k": "v"}"#),
            propagated_severity: Severity::Warn,
        },
        &mut payload,
        &mut sev
    ));
    assert_eq!(payload.member("merged_count"), Some(&Json::Number("4".into())));
    assert_eq!(payload.member("since"), Some(&Json::Number("100".into())));
    let last = payload.member("last_payload").unwrap();
    assert_eq!(last.text_at("k"), Some("v"));
    assert!(!apply_aggregation_decision(
        &AggregationDecision::Suppress {
            propagated_severity: Severity::Warn
        },
        &mut payload,
        &mut sev
    ));
}

#[test]
fn save_list_delete_clear_aggregations_round_trip() {
    let mut desk = Desk::new();
    let mut r = agg_rule("", "suppress", None);
    ensure_aggregation_id(&mut r);
    assert!(r.id.starts_with("agg-"));
    let s1 = desk.save_aggregation(r).unwrap();
    assert!(s1.id.starts_with("agg-"));
    let l1 = desk.list_aggregations();
    assert_eq!(l1.len(), 1);
    assert_eq!(l1[0].id, s1.id);
    assert!(desk.delete_aggregation(&s1.id));
    assert_eq!(desk.list_aggregations().len(), 0);
    desk.save_aggregation(agg_rule("r2", "merge", None)).unwrap();
    desk.save_aggregation(agg_rule("r3", "downgrade", Some("warn"))).unwrap();
    assert_eq!(desk.list_aggregations().len(), 2);
    assert_eq!(desk.clear_aggregations(), 2);
    assert_eq!(desk.list_aggregations().len(), 0);
    assert!(!desk.delete_aggregation("does-not-exist"));
}

#[test]
fn make_envelope_with_severity_uses_override() {
    let env = make_envelope_with_severity(
        "plugin.metrics.exceeded",
        json(r#"{"k": "v"}"#),
        vec![],
        Severity::Critical,
        now_secs(),
    );
    assert_eq!(env.severity, Severity::Critical);
    assert_eq!(env.source, "plugin.metrics.exceeded");
    assert_eq!(env.payload.text_at("k"), Some("v"));
    assert!(!env.event_id.is_empty());
}

fn corr_rule(id: &str, a: &str, b: &str, window: u64) -> CorrelationRule {
    CorrelationRule {
        id: id.to_string(),
        name: format!("corr-{}", id),
        kind_pattern_a: a.to_string(),
        kind_pattern_b: b.to_string(),
        window_secs: window,
        enabled: true,
    }
}

#[test]
fn validate_correlation_rejects_bad_inputs() {
    let mut r = corr_rule(
        "a",
        "plugin.lifecycle.started",
        "plugin.lifecycle.crashed",
        30,
    );
    r.id = "".into();
    assert!(validate_correlation(&r).is_err());
    r.id = "a".into();
    r.name = "".into();
    assert!(validate_correlation(&r).is_err());
    r.name = "rule-a".into();
    r.window_secs = 0;
    assert!(validate_correlation(&r).is_err());
    r.window_secs = 30;
    r.kind_pattern_a = "".into();
    assert!(validate_correlation(&r).is_err());
    r.kind_pattern_a = "x".into();
    r.kind_pattern_b = "".into();
    assert!(validate_correlation(&r).is_err());
    r.kind_pattern_b = "y".into();
    assert!(validate_correlation(&r).is_ok());
}

#[test]
fn evaluate_correlations_pass_without_rules() {
    let mut desk = Desk::new();
    let d = desk.evaluate_correlations("plugin.lifecycle.started", now_secs());
    assert_eq!(d, CorrelationDecision::Pass);
}

#[test]
fn evaluate_correlations_records_last_a_without_suppressing() {
    let mut desk = Desk::new();
    desk.save_correlation(corr_rule(
        "r1",
        "plugin.lifecycle.started",
        "plugin.lifecycle.crashed",
        60,
    ))
    .unwrap();
    let d = desk.evaluate_correlations("plugin.lifecycle.started", now_secs());
    assert_eq!(d, CorrelationDecision::Pass);
}

#[test]
fn evaluate_correlations_suppress_B_within_window() {
    let mut desk = Desk::new();
    desk.save_correlation(corr_rule(
        "r1",
        "plugin.lifecycle.started",
        "plugin.lifecycle.crashed",
        60,
    ))
    .unwrap();
    let now = now_secs();
    assert_eq!(
        desk.evaluate_correlations("plugin.lifecycle.started", now),
        CorrelationDecision::Pass
    );
    match desk.evaluate_correlations("plugin.lifecycle.crashed", now + 10) {
        CorrelationDecision::Suppress {
            propagated_severity,
        } => {
            assert_eq!(propagated_severity, Severity::Critical);
        }
        other => panic!("expected Suppress, got {:?}", other),
    }
}

#[test]
fn evaluate_correlations_pass_for_B_outside_window() {
    let mut desk = Desk::new();
    desk.save_correlation(corr_rule(
        "r1",
        "plugin.lifecycle.started",
        "plugin.lifecycle.crashed",
        60,
    ))
    .unwrap();
    let now = now_secs();
    desk.evaluate_correlations("plugin.lifecycle.started", now);
    assert_eq!(
        desk.evaluate_correlations("plugin.lifecycle.crashed", now + 120),
        CorrelationDecision::Pass
    );
}

#[test]
fn evaluate_correlations_pass_for_B_without_matching_A() {
    let mut desk = Desk::new();
    desk.save_correlation(corr_rule(
        "r1",
        "plugin.lifecycle.started",
        "plugin.lifecycle.crashed",
        60,
    ))
    .unwrap();
    assert_eq!(
        desk.evaluate_correlations("plugin.lifecycle.crashed", now_secs()),
        CorrelationDecision::Pass
    );
}

#[test]
fn evaluate_correlations_re_suppress_after_subsequent_A() {
    let mut desk = Desk::new();
    desk.save_correlation(corr_rule(
        "r1",
        "plugin.lifecycle.started",
        "plugin.lifecycle.crashed",
        60,
    ))
    .unwrap();
    let now = now_secs();
    desk.evaluate_correlations("plugin.lifecycle.started", now);
    match desk.evaluate_correlations("plugin.lifecycle.crashed", now + 10) {
        CorrelationDecision::Suppress {
            propagated_severity: _,
        } => {}
        other => panic!("expected Suppress, got {:?}", other),
    }
    desk.evaluate_correlations("plugin.lifecycle.started", now + 30);
    match desk.evaluate_correlations("plugin.lifecycle.crashed", now + 40) {
        CorrelationDecision::Suppress {
            propagated_severity: _,
        } => {}
        other => panic!("expected Suppress, got {:?}", other),
    }
}

#[test]
fn evaluate_correlations_disabled_rule_skipped() {
    let mut desk = Desk::new();
    let mut r = corr_rule(
        "r1",
        "plugin.lifecycle.started",
        "plugin.lifecycle.crashed",
        60,
    );
    r.enabled = false;
    desk.save_correlation(r).unwrap();
    let now = now_secs();
    desk.evaluate_correlations("plugin.lifecycle.started", now);
    assert_eq!(
        desk.evaluate_correlations("plugin.lifecycle.crashed", now + 10),
        CorrelationDecision::Pass
    );
}

#[test]
fn correlation_self_referential_rule_is_noop() {
    let mut desk = Desk::new();
    desk.save_correlation(corr_rule("r1", "plugin.metrics.*", "plugin.metrics.*", 60)).unwrap();
    let now = now_secs();
    assert_eq!(
        desk.evaluate_correlations("plugin.metrics.exceeded", now),
        CorrelationDecision::Pass
    );
}

#[test]
fn correlation_save_list_delete_clear_round_trip() {
    let mut desk = Desk::new();

    let mut r = corr_rule("", "a", "b", 30);
    ensure_correlation_id(&mut r);
    assert!(r.id.starts_with("cor-"));
    let s1 = desk.save_correlation(r).unwrap();
    assert!(s1.id.starts_with("cor-"));

    let list = desk.list_correlations();
    assert_eq!(list.len(), 1);
    assert_eq!(list[0].id, s1.id);
    assert_eq!(list[0].kind_pattern_a, "a");
    assert_eq!(list[0].kind_pattern_b, "b");

    assert!(desk.delete_correlation(&s1.id));
    assert_eq!(desk.list_correlations().len(), 0);

    desk.save_correlation(corr_rule("r2", "x", "y", 60)).unwrap();
    desk.save_correlation(corr_rule("r3", "m", "n", 120)).unwrap();
    assert_eq!(desk.list_correlations().len(), 2);
    assert_eq!(desk.clear_correlations(), 2);
    assert_eq!(desk.list_correlations().len(), 0);

    assert!(!desk.delete_correlation("does-not-exist"));
}

fn esc_rule(id: &str, kind_pat: &str, after_secs: u64, sev: &str) -> EscalationRule {
    EscalationRule {
        id: id.to_string(),
        name: format!("rule-{}", id),
        kind_pattern: kind_pat.to_string(),
        escalate_after_secs: after_secs,
        target_severity: sev.to_string(),
        target_endpoint_ids: None,
        enabled: true,
    }
}

#[test]
fn escalation_validate_rejects_bad_inputs() {
    assert!(validate_escalation(&esc_rule("", "x", 60, "warn")).is_err());
    assert!(validate_escalation(&esc_rule("r1", "", 60, "warn")).is_err());
    assert!(validate_escalation(&esc_rule("r1", "x", 0, "warn")).is_err());
    assert!(validate_escalation(&esc_rule("r1", "x", 60, "bogus")).is_err());
    assert!(validate_escalation(&esc_rule("r1", "x", 60, "warn")).is_ok());
}

#[test]
fn escalation_ensure_id_fills_uuid_when_empty() {
    let mut r = esc_rule("", "x", 60, "warn");
    ensure_escalation_id(&mut r);
    assert!(!r.id.is_empty());
    assert!(r.id.starts_with("esc-"));
}

#[test]
fn escalation_save_list_delete_clear_round_trip() {
    let mut desk = Desk::new();
    let saved1 = desk.save_escalation(esc_rule("e1", "plugin.*", 30, "critical")).unwrap();
    let saved2 = desk.save_escalation(esc_rule("e2", "cap.*", 60, "error")).unwrap();
    assert_eq!(saved1.id, "e1");
    assert_eq!(saved2.id, "e2");
    let all = desk.list_escalations();
    assert_eq!(all.len(), 2);
    assert!(all
        .iter()
        .any(|d| d.id == "e1" && d.target_severity == "critical"));
    assert!(all
        .iter()
        .any(|d| d.id == "e2" && d.escalate_after_secs == 60));
    assert!(desk.delete_escalation("e1"));
    assert_eq!(desk.list_escalations().len(), 1);
    assert!(!desk.delete_escalation("does-not-exist"));
    assert_eq!(desk.clear_escalations(), 1);
    assert_eq!(desk.list_escalations().len(), 0);
}

#[test]
fn escalation_record_dispatch_populates_last_by_source() {
    let mut desk = Desk::new();
    desk.record_dispatch("plugin.lifecycle.crashed", 1000);
    desk.record_dispatch("plugin.metrics.exceeded", 1001);
    let last = &desk.state.escalation.last_by_source;
    assert_eq!(last.get("plugin.lifecycle.crashed").map(|s| s.at), Some(1000));
    assert_eq!(last.get("plugin.metrics.exceeded").map(|s| s.at), Some(1001));
}

#[test]
fn escalation_find_candidates_returns_empty_without_rules() {
    let mut desk = Desk::new();
    desk.record_dispatch("plugin.lifecycle.crashed", 1000);
    let cands = desk.find_escalation_candidates(2000);
    assert!(cands.is_empty());
}

#[test]
fn escalation_find_candidates_respects_window() {
    let mut desk = Desk::new();
    let _ = desk.save_escalation(esc_rule("e1", "plugin.*", 30, "critical")).unwrap();
    desk.record_dispatch("plugin.lifecycle.crashed", 1000);
    let cands = desk.find_escalation_candidates(1010);
    assert!(cands.is_empty());
    let cands = desk.find_escalation_candidates(1040);
    assert_eq!(cands.len(), 1);
    assert_eq!(cands[0].0.id, "e1");
    assert_eq!(cands[0].1, "plugin.lifecycle.crashed");
    assert_eq!(cands[0].2, 1000);
}

#[test]
fn escalation_find_candidates_filters_non_matching_pattern() {
    let mut desk = Desk::new();
    let _ = desk.save_escalation(esc_rule("e1", "capability.*", 30, "critical")).unwrap();
    desk.record_dispatch("plugin.lifecycle.crashed", 1000);
    let cands = desk.find_escalation_candidates(2000);
    assert!(cands.is_empty());
}

#[test]
fn escalation_find_candidates_skips_acked_sources() {
    let mut desk = Desk::new();
    let _ = desk.save_escalation(esc_rule("e1", "plugin.*", 30, "critical")).unwrap();
    desk.record_dispatch("plugin.lifecycle.crashed", 1000);
    let _ = desk.ack_kind("plugin.*".to_string(), 604_800).unwrap();
    let cands = desk.find_escalation_candidates(2000);
    assert!(cands.is_empty());
}

#[test]
fn escalation_disabled_rule_ignored() {
    let mut desk = Desk::new();
    let mut r = esc_rule("e1", "plugin.*", 30, "critical");
    r.enabled = false;
    let _ = desk.save_escalation(r).unwrap();
    desk.record_dispatch("plugin.lifecycle.crashed", 1000);
    let cands = desk.find_escalation_candidates(2000);
    assert!(cands.is_empty());
}

#[test]
fn escalation_save_rejects_empty_id_after_trim() {
    let mut desk = Desk::new();
    let saved = desk.save_escalation(esc_rule("", "plugin.*", 30, "critical"));
    assert!(saved.is_ok());
    let mut bad = esc_rule("   ", "plugin.*", 30, "critical");
    bad.id = "   ".into();
    assert!(validate_escalation(&bad).is_err());
}

#[test]
fn addresses_do_not_climb() {
    assert!(validate_url("https://example.com/a/../b").is_err());
    assert!(validate_url("https://example.com/a.b").is_ok());
}

#[test]
fn ill_formed_frequency_rules_let_everything_pass() {
    let mut desk = Desk::new();
    let row = AggregationRuleDto {
        id: "r1".into(),
        name: "r1".into(),
        kind_pattern: "*".into(),
        window_secs: 60,
        threshold_count: 1,
        action: "downgrade".into(),
        target_severity: None,
        enabled: true,
        created_at: 1,
    };
    desk.store.aggregations.put(row.clone());
    let d = desk.evaluate_aggregations("plugin.metrics.exceeded", &json("{}"), 100);
    assert_eq!(d, AggregationDecision::Pass);
    desk.store.aggregations.put(AggregationRuleDto {
        threshold_count: 0,
        action: "suppress".into(),
        ..row
    });
    let d = desk.evaluate_aggregations("capability.sla.violated", &json("{}"), 100);
    assert_eq!(d, AggregationDecision::Pass);
}

#[test]
fn a_test_without_a_sign_takes_the_same_text_or_number() {
    let payload = json(r#"{"code": 500, "text": "500"}"#);
    assert_eq!(comparison_needed(&payload, "code", " 500 "), Some(("500".into(), "500".into())));
    assert_eq!(comparison_needed(&payload, "text", "500"), None);
    assert_eq!(comparison_needed(&payload, "code", "prefix:5"), None);
    let equal = Comparison { at_least: true, at_most: true, above: false, below: false, near: true };
    let other = Comparison { at_least: true, at_most: false, above: true, below: false, near: false };
    assert!(payload_match(&payload, "code", "500", Some(equal)));
    assert!(!payload_match(&payload, "code", "499", Some(other)));
    assert!(!payload_match(&payload, "code", "five", None));
    assert!(payload_match(&payload, "text", "500", None));
    assert!(!payload_match(&payload, "text", "500.0", None));
}

#[test]
fn stored_overrides_are_read_back() {
    let overrides = vec![
        ("plugin.*".to_string(), Severity::Critical),
        ("a \"quoted\" \u{e9}\n".to_string(), Severity::Info),
    ];
    let text = overrides_text(&overrides);
    assert_eq!(text, "[[\"plugin.*\",\"critical\"],[\"a \\\"quoted\\\" \u{e9}\\n\",\"info\"]]");
    assert_eq!(overrides_in(Some(&text)), overrides);
    assert_eq!(overrides_text(&vec![]), "[]");
    assert_eq!(overrides_in(None), vec![]);
    assert_eq!(overrides_in(Some("no list")), vec![]);
    assert_eq!(overrides_in(Some("{}")), vec![]);
    assert_eq!(overrides_in(Some(r#"[["a","info"],["b"]]"#)), vec![]);
    assert_eq!(overrides_in(Some(r#"[["a","info"],["b","info","c"]]"#)), vec![]);
    assert_eq!(overrides_in(Some(r#"[["a","info"],["b",3]]"#)), vec![]);
    assert_eq!(
        overrides_in(Some(r#"[["a","loud"],["b","WARN"]]"#)),
        vec![("b".to_string(), Severity::Warn)]
    );
}

#[test]
fn retries_are_counted() {
    assert_eq!(retry_tally(&vec![]), (0, 0));
    assert_eq!(retry_tally(&vec![true, false, true]), (3, 2));
}
