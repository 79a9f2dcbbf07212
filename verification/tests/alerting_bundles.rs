use opencapx::alerting::bundle::{AlertingBundleDoc, BundleImportSummary, EncryptedEnvelope, SecretBuffer, current_secret_bytes, decode_bundle_input, decrypt_bundle, encrypt_bundle, ensure_secret_loaded, is_signature_readable, new_secret, reset_secret_buffer_for_test, rotate_bundle_secret, sign_bundle, split_signature, verified_body, verify_bundle};
use opencapx::alerting::dispatch::DispatchState;
use opencapx::alerting::endpoints::gen_endpoint_id;
use opencapx::alerting::presets::{PresetYamlDoc, builtin_presets, export_presets_to_yaml, migrate_preset_yaml};
use opencapx::alerting::recipients::{recipient_kinds, test_recipient_request, validate_recipient_kind};
use opencapx::alerting::routes::{gen_route_id, trial_payload, validate_route};
use opencapx::alerting::silences::{gen_ack_id, gen_silence_id};
use opencapx::alerting::storage::{RecipientDef, Storage, TemplatePreset};
use opencapx::alerting::types::{AckRuleRow, AlertingEndpointRow, RouteRule, RouteRuleRow, SilenceRule, SilenceRuleRow, WebhookEndpoint};
use opencapx::alerting::{bundle, endpoints, presets, recipients, routes, silences};
use opencapx::json::Json;

fn now_secs() -> u64 {
    std::time::SystemTime::now()
        .duration_since(std::time::UNIX_EPOCH)
        .map(|d| d.as_secs())
        .unwrap_or(0)
}

fn json(text: &str) -> Json {
    trial_payload(text).unwrap()
}

/// A store, what alerting remembers, and the time.
struct Desk {
    store: Storage,
    state: DispatchState,
    now: u64,
    made: u64,
}

impl Desk {
    fn new() -> Self {
        Desk {
            store: Storage::new(),
            state: DispatchState::new(),
            now: now_secs(),
            made: 0,
        }
    }

    fn next(&mut self) -> u64 {
        self.made += 1;
        self.made
    }

    fn ack_kind(&mut self, pattern: String, window: u64) -> Result<AckRuleRow, String> {
        let id = gen_ack_id(self.now, self.next());
        silences::ack_kind(&mut self.store, pattern, window, &id, self.now)
    }

    fn save_silence(&mut self, rule: SilenceRule) -> Result<SilenceRuleRow, String> {
        let id = gen_silence_id(self.now, self.next());
        silences::save_silence(&mut self.store, rule, &id, self.now)
    }

    fn list_silences(&self) -> Vec<SilenceRuleRow> {
        silences::list_silences(&self.store)
    }

    fn list_acks(&self) -> Vec<AckRuleRow> {
        silences::list_acks(&self.store)
    }

    fn save_endpoint(&mut self, ep: WebhookEndpoint) -> Result<AlertingEndpointRow, String> {
        let id = gen_endpoint_id(self.now, self.next());
        endpoints::save_endpoint(&mut self.store, ep, &id, self.now)
    }

    fn list_endpoints(&self) -> Vec<AlertingEndpointRow> {
        endpoints::list_endpoints(&self.store)
    }

    fn save_route(&mut self, rule: RouteRule) -> Result<RouteRuleRow, String> {
        let id = gen_route_id(self.now, self.next());
        routes::save_route(&mut self.store, rule, &id, self.now)
    }

    fn list_routes(&self) -> Vec<RouteRuleRow> {
        routes::list_routes(&self.store)
    }

    fn get_template_preset(&self, kind: &str) -> Option<TemplatePreset> {
        presets::get_template_preset(&self.store, kind)
    }

    fn list_template_presets(&self) -> Vec<TemplatePreset> {
        presets::list_template_presets(&self.store)
    }

    fn save_user_template_preset(&mut self, p: &TemplatePreset) -> Result<TemplatePreset, String> {
        presets::save_user_template_preset(&mut self.store, p, self.now)
    }

    fn delete_user_template_preset(&mut self, id: &str) -> bool {
        presets::delete_user_template_preset(&mut self.store, id)
    }

    fn fork_builtin_preset(&mut self, kind: &str, name: &str) -> Result<TemplatePreset, String> {
        presets::fork_builtin_preset(&mut self.store, kind, name, self.now)
    }

    fn import_presets_from_yaml(&mut self, doc: PresetYamlDoc) -> Result<usize, String> {
        presets::import_presets_from_yaml(&mut self.store, doc)
    }

    fn save_recipient(&mut self, rec: RecipientDef) -> Result<RecipientDef, String> {
        recipients::save_recipient(&mut self.store, rec, self.now)
    }

    fn list_recipients(&self) -> Vec<RecipientDef> {
        recipients::list_recipients(&self.store)
    }

    fn delete_recipient(&mut self, id: &str) -> (bool, usize) {
        recipients::delete_recipient(&mut self.store, id)
    }

    fn export_alerting_bundle(&self) -> AlertingBundleDoc {
        bundle::export_alerting_bundle(&self.store, self.now)
    }

    fn import_alerting_bundle(&mut self, doc: &AlertingBundleDoc) -> Result<BundleImportSummary, String> {
        let n = self.next();
        bundle::import_alerting_bundle(&mut self.store, doc, self.now, n, self.now)
    }
}

fn make_user_preset(name: &str, tpl: &str, sample: &str) -> TemplatePreset {
    TemplatePreset {
        id: String::new(),
        name: name.into(),
        description: "test".into(),
        kind: String::new(),
        template: tpl.into(),
        sample: sample.into(),
        builtin: false,
        created_at: 0,
        version: 0,
        changelog: String::new(),
    }
}

#[test]
fn builtin_presets_have_at_least_five_entries() {
    assert!(
        builtin_presets().len() >= 5,
        "got {} entries",
        builtin_presets().len()
    );
}

#[test]
fn get_template_preset_returns_each_builtin_kind() {
    let desk = Desk::new();
    for kind in [
        "builtin:slack",
        "builtin:discord",
        "builtin:msteams",
        "builtin:generic_json",
        "builtin:plain_text",
    ] {
        let p = desk.get_template_preset(kind);
        assert!(p.is_some(), "missing kind {}", kind);
        let p = p.unwrap();
        assert!(p.builtin);
        assert_eq!(p.kind, kind);
        assert!(!p.template.is_empty());
        assert!(!p.sample.is_empty());
    }
}

#[test]
fn get_template_preset_returns_none_for_unknown_kind() {
    let desk = Desk::new();
    assert!(desk.get_template_preset("builtin:nonexistent").is_none());
    assert!(desk.get_template_preset("user:does-not-exist").is_none());
}

#[test]
fn save_user_template_preset_rejects_empty_name() {
    let mut desk = Desk::new();
    let mut p = make_user_preset("", "hi", "{}");
    p.id = String::new();
    let res = desk.save_user_template_preset(&p);
    assert!(res.is_err());
    assert!(res.unwrap_err().contains("name"));
}

#[test]
fn save_user_template_preset_rejects_too_long_name() {
    let mut desk = Desk::new();
    let long = "x".repeat(65);
    let p = make_user_preset(&long, "hi", "{}");
    let res = desk.save_user_template_preset(&p);
    assert!(res.is_err());
    assert!(res.unwrap_err().contains("too long"));
}

#[test]
fn save_user_template_preset_rejects_builtin_true() {
    let mut desk = Desk::new();
    let mut p = make_user_preset("test", "hi", "{}");
    p.builtin = true;
    let res = desk.save_user_template_preset(&p);
    assert!(res.is_err());
    assert!(res.unwrap_err().contains("builtin"));
}

#[test]
fn preset_yaml_round_trip() {
    let presets = vec![
        make_user_preset("custom A", "tmpl A", "{\"k\":\"v\"}"),
        make_user_preset("custom B", "tmpl B", "{\"x\":1}"),
    ];
    let doc = export_presets_to_yaml(&presets);
    assert_eq!(doc.version, 1);
    assert_eq!(doc.presets.len(), 2);
    assert_eq!(doc.presets[0].name, "custom A");
    assert_eq!(doc.presets[1].template, "tmpl B");
}

#[test]
fn delete_user_template_preset_removes_only_user() {
    let mut desk = Desk::new();
    let saved = desk.save_user_template_preset(&make_user_preset("to-delete", "x", "{}")).expect("save");
    let listed = desk.list_template_presets();
    let user_count = listed.iter().filter(|p| !p.builtin).count();
    let builtin_count = listed.iter().filter(|p| p.builtin).count();
    assert!(user_count >= 1);
    assert_eq!(builtin_count, builtin_presets().len());
    assert!(desk.delete_user_template_preset(&saved.id));
    let listed2 = desk.list_template_presets();
    assert_eq!(
        listed2.iter().filter(|p| p.builtin).count(),
        builtin_presets().len()
    );
    assert!(listed2.iter().find(|p| p.id == saved.id).is_none());
}

#[test]
fn delete_user_template_preset_does_not_remove_builtin() {
    let mut desk = Desk::new();
    assert!(!desk.delete_user_template_preset("builtin-slack"));
    assert!(desk.get_template_preset("builtin:slack").is_some());
}

#[test]
fn list_template_presets_includes_builtins_and_user() {
    let mut desk = Desk::new();
    let saved = desk.save_user_template_preset(&make_user_preset("user1", "u", "{}")).expect("save");
    let listed = desk.list_template_presets();
    assert_eq!(
        listed.iter().filter(|p| p.builtin).count(),
        builtin_presets().len()
    );
    assert!(listed.iter().any(|p| p.id == saved.id));
}

#[test]
fn fork_builtin_preset_creates_user_copy_with_new_id_and_kind() {
    let mut desk = Desk::new();
    let presets = builtin_presets();
    let src = presets
        .iter()
        .find(|p| p.kind == "builtin:slack")
        .expect("builtin slack exists");
    let orig_template = src.template.clone();
    let orig_description = src.description.clone();
    let forked = desk.fork_builtin_preset("builtin:slack", "My Slack").expect("fork");
    assert_ne!(forked.id, "builtin-slack");
    assert!(
        forked.id.starts_with("00000000") || forked.id.len() >= 8,
        "expected UUID-like id, got {}",
        forked.id
    );
    assert!(
        forked.kind.starts_with("user:"),
        "expected user: kind, got {}",
        forked.kind
    );
    assert_eq!(forked.kind, format!("user:{}", forked.id));
    assert_eq!(forked.name, "My Slack");
    assert_eq!(forked.description, orig_description);
    assert_eq!(forked.template, orig_template);
    assert!(!forked.builtin);
    assert_eq!(forked.version, 1);
    assert!(forked.changelog.contains("Forked"));
    assert!(forked.changelog.contains("Slack"));
}

#[test]
fn fork_builtin_preset_rejects_unknown_kind() {
    let mut desk = Desk::new();
    let res = desk.fork_builtin_preset("builtin:nonexistent", "X");
    assert!(res.is_err());
    assert!(res.unwrap_err().contains("unknown builtin kind"));
}

#[test]
fn fork_builtin_preset_rejects_empty_or_too_long_name() {
    let mut desk = Desk::new();
    assert!(desk.fork_builtin_preset("builtin:slack", "")
        .unwrap_err()
        .contains("name required"));
    assert!(desk.fork_builtin_preset("builtin:slack", "   ")
        .unwrap_err()
        .contains("name required"));
    let long = "x".repeat(65);
    assert!(desk.fork_builtin_preset("builtin:slack", &long)
        .unwrap_err()
        .contains("too long"));
}

#[test]
fn fork_builtin_preset_persists_to_store() {
    let mut desk = Desk::new();
    let forked = desk.fork_builtin_preset("builtin:discord", "My Discord").expect("fork");
    let listed = desk.list_template_presets();
    assert!(listed.iter().any(|p| p.id == forked.id));
    assert_eq!(
        listed.iter().filter(|p| p.builtin).count(),
        builtin_presets().len()
    );
}

#[test]
fn save_user_template_preset_bumps_version_on_each_save() {
    let mut desk = Desk::new();
    let s1 = desk.save_user_template_preset(&make_user_preset("v-test", "a", "{}")).expect("save 1");
    assert_eq!(s1.version, 1, "first save should give version 1");
    let first_created = s1.created_at;
    let mut p2 = make_user_preset("v-test", "b", "{}");
    p2.id = s1.id.clone();
    let s2 = desk.save_user_template_preset(&p2).expect("save 2");
    assert_eq!(s2.id, s1.id);
    assert_eq!(s2.version, 2, "second save should bump to version 2");
    assert_eq!(
        s2.created_at, first_created,
        "created_at must be preserved across saves"
    );
    let mut p3 = make_user_preset("v-test", "c", "{}");
    p3.id = s1.id.clone();
    let s3 = desk.save_user_template_preset(&p3).expect("save 3");
    assert_eq!(s3.version, 3);
    assert_eq!(s3.created_at, first_created);
}

#[test]
fn template_presets_round_trip_preserves_version_and_changelog() {
    let mut p = make_user_preset("round-trip-test", "tmpl", "{\"k\":\"v\"}");
    p.version = 2;
    p.changelog = "switched emoji to :bell:".into();
    let doc = export_presets_to_yaml(&vec![p.clone()]);
    assert_eq!(doc.presets.len(), 1);
    assert_eq!(doc.presets[0].version, 2);
    assert_eq!(doc.presets[0].changelog, "switched emoji to :bell:");
}

#[test]
fn migrate_preset_yaml_passes_through_v1_unchanged() {
    let mut p = make_user_preset("test", "T", "");
    p.id = "abc".into();
    p.kind = "user:abc".into();
    p.created_at = 100;
    p.version = 1;
    let given = PresetYamlDoc { version: 1, presets: vec![p] };
    let (doc, applied) = migrate_preset_yaml(given).expect("migrate");
    assert_eq!(doc.version, 1);
    assert!(
        applied.is_empty(),
        "v1 yaml should not need migration, got {:?}",
        applied
    );
    assert_eq!(doc.presets.len(), 1);
    assert_eq!(doc.presets[0].name, "test");
}

#[test]
fn migrate_preset_yaml_lifts_v0_doc_to_v1() {
    let mut p = make_user_preset("legacy preset", "{{source}}", "{}");
    p.id = "legacy-1".into();
    p.description = "from before versioning".into();
    p.kind = "user:legacy-1".into();
    p.created_at = 1700000000;
    let given = PresetYamlDoc { version: 0, presets: vec![p] };
    let (doc, applied) = migrate_preset_yaml(given).expect("migrate");
    assert_eq!(doc.version, 1, "v0 doc should be lifted to v1");
    assert_eq!(applied, vec!["v0_to_v1"]);
    assert_eq!(doc.presets.len(), 1);
    assert_eq!(doc.presets[0].name, "legacy preset");
    assert_eq!(
        doc.presets[0].version, 1,
        "v0 preset without version field gets bumped to 1"
    );
    assert_eq!(doc.presets[0].template, "{{source}}");
    assert_eq!(doc.presets[0].changelog, "");
}

#[test]
fn migrate_preset_yaml_rejects_future_higher_version() {
    let mut p = make_user_preset("future", "X", "");
    p.id = "future-1".into();
    p.kind = "user:future-1".into();
    let given = PresetYamlDoc { version: 99, presets: vec![p] };
    let err = match migrate_preset_yaml(given) {
        Ok(_) => panic!("a later version should be refused"),
        Err(e) => e,
    };
    assert!(
        err.contains("newer than current") || err.contains("99"),
        "unexpected err: {}",
        err
    );
}

#[test]
fn migrate_preset_yaml_handles_v0_without_version_field_at_all() {
    let mut p = make_user_preset("no-version-field", "T", "");
    p.id = "x".into();
    p.kind = "user:x".into();
    let given = PresetYamlDoc { version: 1, presets: vec![p] };
    let (doc, applied) = migrate_preset_yaml(given).expect("migrate");
    assert_eq!(doc.version, 1, "already current");
    assert!(applied.is_empty(), "already v1, no migration needed");
}

#[test]
fn import_presets_runs_migration_for_legacy_doc() {
    let mut desk = Desk::new();
    let mut p1 = make_user_preset("legacy A", "TA", "{}");
    p1.id = "legacy-1".into();
    p1.kind = "user:legacy-1".into();
    let mut p2 = make_user_preset("legacy B", "TB", "{}");
    p2.id = "legacy-2".into();
    p2.kind = "user:legacy-2".into();
    let doc = PresetYamlDoc { version: 0, presets: vec![p1, p2] };
    let count = desk.import_presets_from_yaml(doc).expect("import");
    assert_eq!(count, 2);
    let listed = desk.list_template_presets();
    let a = listed.iter().find(|p| p.id == "legacy-1").expect("A");
    let b = listed.iter().find(|p| p.id == "legacy-2").expect("B");
    assert_eq!(a.version, 1, "imported v0 preset should have version 1");
    assert_eq!(b.version, 1);
    assert!(!a.builtin);
    assert!(!b.builtin);
    assert_eq!(a.template, "TA");
    assert_eq!(b.template, "TB");
}

fn make_endpoint_row(id: &str, name: &str) -> WebhookEndpoint {
    WebhookEndpoint {
        id: id.into(),
        name: name.into(),
        url: "https://hooks.example.com/bundle".into(),
        enabled: true,
        headers: vec![("X-Bundle".into(), "1".into())],
        secret: String::new(),
        source_filter: vec!["plugin.metrics.exceeded".into()],
        schema_version: 1,
        template: Some("hello {{source}}".into()),
        template_sample: Some("{}".into()),
        severity_overrides: vec![],
    }
}

fn make_route_row(id: &str, name: &str) -> RouteRule {
    RouteRule {
        id: id.into(),
        name: name.into(),
        priority: 50,
        enabled: true,
        kind_pattern: "*".into(),
        payload_path: None,
        payload_match: None,
        target_endpoint_ids: vec!["ep-bundle-1".into()],
        recipients: vec!["log:stderr".into()],
        tags: vec!["phase62".into()],
        seen_in_last: None,
    }
}

fn make_silence_row(id: &str, name: &str) -> SilenceRule {
    let now = now_secs();
    SilenceRule {
        id: id.into(),
        name: name.into(),
        kind_pattern: "plugin.metrics.*".into(),
        starts_at: now,
        ends_at: now + 3600,
        weekdays: 127,
        start_hour: 0,
        end_hour: 24,
    }
}

#[test]
fn export_alerting_bundle_emits_all_five_sections() {
    let mut desk = Desk::new();
    let _ = desk.save_endpoint(make_endpoint_row("ep-b-1", "endpoint A")).unwrap();
    let _ = desk.save_route(make_route_row("r-b-1", "route A")).unwrap();
    let _ = desk.save_silence(make_silence_row("s-b-1", "silence A")).unwrap();
    let _ = desk.ack_kind("plugin.metrics.*".into(), 60).unwrap();
    let _ = desk.save_user_template_preset(&make_user_preset("preset A", "TA", "{}")).unwrap();

    let doc = desk.export_alerting_bundle();
    assert_eq!(doc.endpoints.len(), 1, "missing endpoints");
    assert_eq!(doc.routes.len(), 1, "missing routes");
    assert_eq!(doc.silences.len(), 1, "missing silences");
    assert_eq!(doc.acks.len(), 1, "missing acks");
    assert_eq!(doc.presets.len(), 1, "missing presets");
    assert_eq!(doc.version, 1, "missing version: 1");
}

#[test]
fn export_alerting_bundle_excludes_builtin_presets() {
    let desk = Desk::new();
    let doc = desk.export_alerting_bundle();
    assert!(
        !doc.presets.iter().any(|p| p.kind == "builtin:slack"),
        "export should not include builtin presets"
    );
}

#[test]
fn export_then_import_alerting_bundle_round_trips_all_sections() {
    let mut desk = Desk::new();
    let ep_saved = desk.save_endpoint(make_endpoint_row("ep-rt-1", "ep-rt")).unwrap();
    let rt_saved = desk.save_route(make_route_row("rt-1", "round-trip route")).unwrap();
    let sl_saved = desk.save_silence(make_silence_row("sl-1", "rt silence")).unwrap();
    let ack_saved = desk.ack_kind("plugin.metrics.exceeded".into(), 120).unwrap();
    let p_saved = desk.save_user_template_preset(&make_user_preset("rt-preset", "TRT", "{}")).unwrap();

    let doc = desk.export_alerting_bundle();
    let summary = desk.import_alerting_bundle(&doc).expect("import");
    assert_eq!(summary.endpoints, 1, "should import 1 endpoint");
    assert_eq!(summary.routes, 1, "should import 1 route");
    assert_eq!(summary.silences, 1, "should import 1 silence");
    assert_eq!(summary.acks, 1, "should import 1 ack");
    assert_eq!(summary.presets, 1, "should import 1 preset");
    assert_eq!(summary.total, 5);
    let endpoints = desk.list_endpoints();
    assert!(
        endpoints.iter().any(|e| e.id == ep_saved.id),
        "endpoint missing"
    );
    let routes = desk.list_routes();
    assert!(routes.iter().any(|r| r.id == rt_saved.id), "route missing");
    let silences = desk.list_silences();
    assert!(
        silences.iter().any(|s| s.id == sl_saved.id),
        "silence missing"
    );
    let acks = desk.list_acks();
    assert!(acks.iter().any(|a| a.id == ack_saved.id), "ack missing");
    let presets = desk.list_template_presets();
    let imported_preset = presets.iter().find(|p| p.id == p_saved.id).expect("preset");
    assert_eq!(imported_preset.template, "TRT");
    assert!(
        !imported_preset.builtin,
        "imported preset must be user-owned"
    );
}

#[test]
fn import_alerting_bundle_rejects_future_version() {
    let mut desk = Desk::new();
    let mut doc = empty_bundle();
    doc.version = 99;
    let res = desk.import_alerting_bundle(&doc);
    assert!(res.is_err(), "future version should be rejected");
    let msg = res.unwrap_err();
    assert!(msg.contains("99"), "error should mention version 99: {msg}");
    assert!(msg.contains("newer"), "error should mention 'newer': {msg}");
}

#[test]
fn validate_route_accepts_recipients_without_target_endpoint_ids() {
    let rule = RouteRule {
        id: "r-recipients-only".into(),
        name: "recipients-only".into(),
        priority: 50,
        enabled: true,
        kind_pattern: "*".into(),
        payload_path: None,
        payload_match: None,
        target_endpoint_ids: vec![],
        recipients: vec!["log:stderr".into()],
        tags: vec![],
        seen_in_last: None,
    };
    validate_route(&rule).expect("validate_route should accept recipients-only");
}

#[test]
fn validate_route_rejects_recipients_count_over_limit() {
    let mut recipients = Vec::new();
    for i in 0..33 {
        recipients.push(format!("log:stderr-{i}"));
    }
    let rule = RouteRule {
        id: "r-too-many".into(),
        name: "too-many".into(),
        priority: 50,
        enabled: true,
        kind_pattern: "*".into(),
        payload_path: None,
        payload_match: None,
        target_endpoint_ids: vec![],
        recipients,
        tags: vec![],
        seen_in_last: None,
    };
    let res = validate_route(&rule);
    assert!(res.is_err(), "33 recipients should be rejected");
    let msg = res.err().expect("error");
    assert!(msg.contains("too many") || msg.contains("32"), "got: {msg}");
}

fn make_recipient(id: &str, name: &str, kind: &str) -> RecipientDef {
    let config = match kind {
        "webhook" => json(r#"{"endpoint_id": "ep-bundle-1"}"#),
        "log:file" => json(r#"{"path": "/tmp/opencx-r-67.log"}"#),
        "email:smtp" => {
            json(r#"{"relay":"smtp.x.com","port":587,"from":"a@x.com","to":"b@x.com"}"#)
        }
        _ => json(r#"{}"#),
    };
    RecipientDef {
        id: id.into(),
        name: name.into(),
        kind: kind.into(),
        config,
        enabled: true,
        created_at: 1700000000,
    }
}

#[test]
fn recipient_kind_whitelist_accepts_known_kinds() {
    for kind in recipient_kinds() {
        assert!(
            validate_recipient_kind(kind).is_ok(),
            "{kind} should be allowed"
        );
    }
}

#[test]
fn recipient_kind_whitelist_rejects_unknown_kind() {
    let res = validate_recipient_kind("cmd:rce");
    assert!(res.is_err(), "cmd:rce must be rejected");
    let msg = res.err().expect("error");
    assert!(
        msg.contains("not in whitelist") || msg.contains("whitelist"),
        "got: {msg}"
    );
}

#[test]
fn save_recipient_persists_to_storage_and_round_trips() {
    let mut desk = Desk::new();
    let rec = desk.save_recipient(make_recipient("", "my-stderr", "log:stderr")).expect("save");
    assert!(!rec.id.is_empty(), "id should be auto-generated");
    let list = desk.list_recipients();
    assert_eq!(list.len(), 1, "should have 1 recipient");
    assert_eq!(list[0].name, "my-stderr");
    assert_eq!(list[0].kind, "log:stderr");
}

#[test]
fn save_recipient_rejects_empty_name() {
    let mut desk = Desk::new();
    let res = desk.save_recipient(make_recipient("", "  ", "log:stderr"));
    assert!(res.is_err(), "empty name must be rejected");
    assert!(res.err().expect("e").contains("name"));
}

#[test]
fn save_recipient_rejects_duplicate_name() {
    let mut desk = Desk::new();
    desk.save_recipient(make_recipient("", "uniq", "log:stderr")).expect("save 1");
    let res = desk.save_recipient(make_recipient("", "uniq", "log:file"));
    assert!(res.is_err(), "duplicate name must be rejected");
    let msg = res.err().expect("e");
    assert!(
        msg.contains("already exists") || msg.contains("UNIQUE"),
        "got: {msg}"
    );
}

#[test]
fn delete_recipient_clears_dangling_route_refs() {
    let mut desk = Desk::new();
    let rec = desk.save_recipient(make_recipient("", "to-del", "log:stderr")).expect("save recipient");
    let route = RouteRule {
        id: "rt-cascade".into(),
        name: "cascade-route".into(),
        priority: 50,
        enabled: true,
        kind_pattern: "*".into(),
        payload_path: None,
        payload_match: None,
        target_endpoint_ids: vec![],
        recipients: vec![format!("webhook:{}", rec.id), "log:stderr".into()],
        tags: vec![],
        seen_in_last: None,
    };
    desk.save_route(route).expect("save route");
    let (deleted, routes_cleared) = desk.delete_recipient(&rec.id);
    assert!(deleted, "should have deleted the recipient");
    assert_eq!(routes_cleared, 1, "should clear 1 route's dangling ref");
    let routes = desk.list_routes();
    let rt = routes
        .iter()
        .find(|r| r.id == "rt-cascade")
        .expect("route still exists");
    assert_eq!(
        rt.recipients,
        vec!["log:stderr".to_string()],
        "dangling ref should be cleared"
    );
}

#[test]
fn delete_recipient_returns_zero_when_id_absent() {
    let mut desk = Desk::new();
    let (deleted, cleared) = desk.delete_recipient("nonexistent-id");
    assert!(!deleted, "absent id should not be marked deleted");
    assert_eq!(cleared, 0, "absent id should clear 0 routes");
}

#[test]
fn bundle_yaml_round_trips_recipients_via_storage() {
    let mut desk = Desk::new();
    desk.save_recipient(make_recipient("", "rec-A", "log:stderr")).expect("save A");
    desk.save_recipient(make_recipient("", "rec-B", "log:file")).expect("save B");
    let doc = desk.export_alerting_bundle();
    let mut desk = Desk::new();
    let summary = desk.import_alerting_bundle(&doc).expect("import");
    assert_eq!(summary.recipients, 2, "should import 2 recipients");
    let list = desk.list_recipients();
    assert_eq!(list.len(), 2);
    let names: Vec<&str> = list.iter().map(|r| r.name.as_str()).collect();
    assert!(names.contains(&"rec-A") && names.contains(&"rec-B"));
}

#[test]
fn bundle_import_rejects_recipient_kind_outside_whitelist() {
    let mut desk = Desk::new();
    let mut doc = empty_bundle();
    doc.exported_at = 1700000000;
    doc.recipients.push(RecipientDef {
        id: "r-malicious".into(),
        name: "bad".into(),
        kind: "cmd:rce".into(),
        config: json("{}"),
        enabled: true,
        created_at: 0,
    });
    let res = desk.import_alerting_bundle(&doc);
    assert!(res.is_err(), "malicious recipient must be rejected");
    let msg = res.err().expect("e");
    assert!(
        msg.contains("whitelist") || msg.contains("cmd:rce"),
        "got: {msg}"
    );
}

#[test]
fn test_recipient_log_stderr_works() {
    let mut desk = Desk::new();
    let rec = desk.save_recipient(make_recipient("", "test-stderr", "log:stderr")).expect("save");
    let result = test_recipient_request(&desk.store, &rec.id, desk.now);
    let (line, env) = result.expect("should succeed for log:stderr");
    assert!(line.contains("log:stderr"));
    assert_eq!(env.source, "manual.test");
    assert_eq!(env.payload.text_at("recipient"), Some("test-stderr"));
}

#[test]
fn import_alerting_bundle_preserves_preset_id_and_forces_builtin_false() {
    let mut desk = Desk::new();
    let mut doc = empty_bundle();
    doc.presets.push(TemplatePreset {
        id: "preset-bogus".into(),
        name: "Bogus Builtin".into(),
        description: "trying to override builtin".into(),
        kind: "builtin:slack".into(),
        template: "OVERRIDE!".into(),
        sample: "{}".into(),
        builtin: true,
        created_at: 0,
        version: 1,
        changelog: "".into(),
    });
    let summary = desk.import_alerting_bundle(&doc).expect("import");
    assert_eq!(summary.presets, 1);
    let presets = desk.list_template_presets();
    let p = presets
        .iter()
        .find(|p| p.id == "preset-bogus")
        .expect("found");
    assert!(!p.builtin, "imported preset must be marked user");
    assert_eq!(p.template, "OVERRIDE!");
    assert_eq!(p.name, "Bogus Builtin");
}

#[test]
fn import_alerting_bundle_handles_missing_optional_sections() {
    let mut desk = Desk::new();
    let summary = desk.import_alerting_bundle(&empty_bundle()).expect("import minimal bundle");
    assert_eq!(summary.endpoints, 0);
    assert_eq!(summary.routes, 0);
    assert_eq!(summary.presets, 0);
    assert_eq!(summary.silences, 0);
    assert_eq!(summary.acks, 0);
    assert_eq!(summary.total, 0);
}

#[test]
fn sign_bundle_then_verify_round_trip() {
    let body = "version: 1\nendpoints: []\n";
    let signed = sign_bundle(body, &SECRET);
    assert!(
        signed.contains("signature:"),
        "missing signature line: {signed}"
    );
    verify_bundle(&signed, &SECRET).expect("verify");
}

#[test]
fn verify_bundle_rejects_tampered_yaml() {
    let body = "version: 1\nendpoints: []\n";
    let signed = sign_bundle(body, &SECRET);
    let tampered = signed.replacen("endpoints: []", "endpoints: [ ]", 1);
    let res = verify_bundle(&tampered, &SECRET);
    assert!(res.is_err(), "tampered should be rejected");
    let msg = res.unwrap_err();
    assert!(
        msg.contains("tampered") || msg.contains("mismatch"),
        "error should mention tamper: {msg}"
    );
}

#[test]
fn export_alerting_bundle_signed_contains_signature_field() {
    let out = sign_bundle(EMPTY_BODY, &SECRET);
    assert!(
        out.contains("signature:"),
        "signed yaml missing signature: {out}"
    );
}

#[test]
fn export_alerting_bundle_encrypted_is_not_plain_yaml() {
    let signed = sign_bundle(EMPTY_BODY, &SECRET);
    let envelope = encrypt_bundle(&signed, "secret-pp").expect("export encrypted");
    assert_eq!(
        envelope.algorithm, "aes-256-gcm-pbkdf2-sha256",
        "envelope should declare algorithm"
    );
    assert!(
        !envelope.ciphertext.is_empty() && !envelope.ciphertext.contains("version"),
        "envelope should contain ciphertext"
    );
}

#[test]
fn decrypt_with_correct_passphrase_recovers_signed_yaml() {
    let pp = "my-secret-passphrase";
    let signed = sign_bundle(EMPTY_BODY, &SECRET);
    let envelope = encrypt_bundle(&signed, pp).expect("encrypt");
    let recovered = decrypt_bundle(&envelope, pp).expect("decrypt");
    assert_eq!(
        recovered, signed,
        "decrypt should recover original signed yaml"
    );
}

#[test]
fn decrypt_with_wrong_passphrase_returns_error() {
    let signed = "version: 1\nendpoints: []\nsignature: \"deadbeef\"\n";
    let envelope = encrypt_bundle(signed, "right-pp").expect("encrypt");
    let res = decrypt_bundle(&envelope, "wrong-pp");
    assert!(res.is_err(), "wrong passphrase should fail");
    let msg = res.unwrap_err();
    assert!(
        msg.contains("wrong") || msg.contains("failed") || msg.contains("tampered"),
        "error should mention wrong passphrase: {msg}"
    );
}

#[test]
fn decrypt_rejects_empty_passphrase() {
    let signed = "version: 1\nendpoints: []\n";
    let res = encrypt_bundle(signed, "");
    assert!(
        res.is_err(),
        "empty passphrase should be rejected by encrypt"
    );
}

#[test]
fn import_encrypted_bundle_with_correct_passphrase_round_trips() {
    let mut desk = Desk::new();
    let _ = desk.save_endpoint(make_endpoint_row("ep-enc-1", "encrypted endpoint")).unwrap();
    let pp = "round-trip-pp";
    let envelope = encrypt_bundle(&sign_bundle(EMPTY_BODY, &SECRET), pp).expect("export encrypted");
    let body = opened("{}", Some(&envelope), Some(pp)).expect("import encrypted");
    assert!(body.contains("endpoints: []"));
    let summary = desk.import_alerting_bundle(&desk.export_alerting_bundle()).expect("import");
    assert_eq!(summary.endpoints, 1, "should import 1 endpoint");
}

#[test]
fn import_encrypted_bundle_with_wrong_passphrase_returns_error() {
    let envelope = encrypt_bundle(&sign_bundle(EMPTY_BODY, &SECRET), "right-pp").expect("export");
    let res = opened("{}", Some(&envelope), Some("wrong-pp"));
    assert!(res.is_err(), "wrong passphrase should fail at decrypt");
}

#[test]
fn import_encrypted_bundle_without_passphrase_returns_error() {
    let envelope = encrypt_bundle(&sign_bundle(EMPTY_BODY, &SECRET), "any-pp").expect("export");
    let res = opened("{}", Some(&envelope), None);
    assert!(res.is_err(), "missing passphrase should be rejected");
    let msg = res.unwrap_err();
    assert!(
        msg.contains("passphrase"),
        "error should mention passphrase: {msg}"
    );
}

#[test]
fn import_signed_bundle_ignores_extra_passphrase() {
    let mut desk = Desk::new();
    let signed = sign_bundle(EMPTY_BODY, &SECRET);
    opened(&signed, None, Some("ignored-pp")).expect("plain signed should accept any passphrase");
    let summary = desk.import_alerting_bundle(&empty_bundle()).expect("import");
    assert_eq!(summary.total, 0);
}

#[test]
fn import_tampered_encrypted_ciphertext_rejected() {
    let pp = "tamper-test-pp";
    let envelope = encrypt_bundle(&sign_bundle(EMPTY_BODY, &SECRET), pp).expect("export encrypted");
    let mut tampered = envelope.clone();
    let next_char = tampered.ciphertext.chars().next().unwrap();
    let replacement = if next_char == 'X' { 'Y' } else { 'X' };
    tampered
        .ciphertext
        .replace_range(0..next_char.len_utf8(), &replacement.to_string());
    assert_ne!(envelope.ciphertext, tampered.ciphertext, "tamper should change string");
    let res = opened("{}", Some(&tampered), Some(pp));
    assert!(
        res.is_err(),
        "tampered ciphertext should be rejected, got: {res:?}"
    );
}

#[test]
fn import_tampered_signed_yaml_body_rejected() {
    let signed = sign_bundle(EMPTY_BODY, &SECRET);
    let tampered = signed.replacen(
        "endpoints: []",
        "endpoints:\n  - id: \"x\"\n    name: \"injected\"\n",
        1,
    );
    let res = opened(&tampered, None, None);
    assert!(
        res.is_err(),
        "tampered signed yaml should be rejected by verify"
    );
}

#[test]
fn signature_split_handles_quoted_and_unquoted() {
    let body = "version: 1\n";
    let signed = sign_bundle(body, &SECRET);
    let (b, sig) = split_signature(&signed).expect("split");
    assert!(b.contains("version: 1"));
    assert!(!b.contains("signature:"));
    assert_eq!(sig.len(), 64, "SHA-256 hex should be 64 chars, got: {sig}");
    let bare = signed.replace("\"", "");
    let (_, again) = split_signature(&bare).expect("split");
    assert_eq!(again, sig);
}

#[test]
fn ensure_secret_loaded_produces_32_bytes() {
    let mut secret = SecretBuffer::new();
    reset_secret_buffer_for_test(&mut secret);
    ensure_secret_loaded(&mut secret, new_secret(), Err("no file".into())).expect("load secret");
    let bytes = current_secret_bytes(&secret);
    assert_eq!(
        bytes.len(),
        32,
        "secret must be exactly 32 bytes, got {}",
        bytes.len()
    );
    assert!(
        !bytes.iter().all(|b| *b == 0),
        "secret must not be all zeros"
    );
}

#[test]
fn ensure_secret_loaded_is_idempotent() {
    let mut secret = SecretBuffer::new();
    ensure_secret_loaded(&mut secret, new_secret(), Err("no file".into())).expect("first load");
    let first = current_secret_bytes(&secret);
    ensure_secret_loaded(&mut secret, new_secret(), Err("no file".into())).expect("second load");
    let second = current_secret_bytes(&secret);
    assert_eq!(
        first, second,
        "secret should be stable across loads in same process"
    );
}

#[test]
fn current_secret_bytes_returns_owned_copy() {
    let mut secret = SecretBuffer::new();
    ensure_secret_loaded(&mut secret, Err("no keychain".into()), new_secret()).expect("load");
    let a = current_secret_bytes(&secret);
    let b = current_secret_bytes(&secret);
    assert_eq!(a, b);
    assert_ne!(a.as_ptr(), b.as_ptr(), "should be independent allocations");
}

#[test]
fn rotate_bundle_secret_changes_in_memory_bytes() {
    let mut secret = SecretBuffer::new();
    ensure_secret_loaded(&mut secret, new_secret(), Err("no file".into())).expect("initial load");
    let before = current_secret_bytes(&secret);
    rotate_bundle_secret(&mut secret, new_secret().expect("rotate"));
    let after = current_secret_bytes(&secret);
    assert_ne!(before, after, "rotate must change secret bytes");
    assert_eq!(after.len(), 32);
}

#[test]
fn sign_then_rotate_then_verify_old_signature_fails() {
    let mut secret = SecretBuffer::new();
    ensure_secret_loaded(&mut secret, new_secret(), Err("no file".into())).expect("load");
    let body = "version: 1\nendpoints: []\nroutes: []\npresets: []\nsilences: []\nacks: []\n";
    let signed_old = sign_bundle(body, &current_secret_bytes(&secret));
    rotate_bundle_secret(&mut secret, new_secret().expect("rotate"));
    let res = verify_bundle(&signed_old, &current_secret_bytes(&secret));
    assert!(res.is_err(), "verify should fail after secret rotate");
    let msg = res.unwrap_err();
    assert!(
        msg.contains("mismatch") || msg.contains("tampered"),
        "error should mention mismatch/tampered: {msg}"
    );
    let signed_new = sign_bundle(body, &current_secret_bytes(&secret));
    verify_bundle(&signed_new, &current_secret_bytes(&secret)).expect("verify new");
}

#[test]
fn rotate_then_sign_with_new_secret_succeeds() {
    let mut secret = SecretBuffer::new();
    ensure_secret_loaded(&mut secret, new_secret(), Err("no file".into())).expect("initial load");
    rotate_bundle_secret(&mut secret, new_secret().expect("rotate"));
    let body = "version: 1\nendpoints: []\n";
    let signed = sign_bundle(body, &current_secret_bytes(&secret));
    verify_bundle(&signed, &current_secret_bytes(&secret)).expect("verify");
}

const SECRET: [u8; 4] = [7, 0, 255, 31];

const EMPTY_BODY: &str =
    "version: 1\nendpoints: []\nroutes: []\npresets: []\nsilences: []\nacks: []\n";

fn empty_bundle() -> AlertingBundleDoc {
    AlertingBundleDoc {
        version: 1,
        exported_at: 0,
        endpoints: vec![],
        routes: vec![],
        presets: vec![],
        silences: vec![],
        acks: vec![],
        recipients: vec![],
    }
}

/// The body of a bundle, opened and verified.
fn opened(
    input: &str,
    envelope: Option<&EncryptedEnvelope>,
    passphrase: Option<&str>,
) -> Result<String, String> {
    let signed = decode_bundle_input(input, envelope, passphrase)?;
    if !is_signature_readable(&signed) {
        return Err("unreadable signature".into());
    }
    verified_body(&signed, &SECRET)
}

#[test]
fn bundle_endpoint_of_a_known_name_keeps_its_id() {
    let mut desk = Desk::new();
    let kept = desk.save_endpoint(make_endpoint_row("ep-here", "shared")).unwrap();
    let mut doc = desk.export_alerting_bundle();
    doc.endpoints[0].id = "ep-elsewhere".into();
    doc.endpoints[0].url = "https://hooks.example.com/moved".into();
    desk.import_alerting_bundle(&doc).expect("import");
    let all = desk.list_endpoints();
    assert_eq!(all.len(), 1);
    assert_eq!(all[0].id, kept.id);
    assert_eq!(all[0].url, "https://hooks.example.com/moved");
    doc.endpoints[0].id = String::new();
    desk.import_alerting_bundle(&doc).expect("import without an id");
    assert_eq!(desk.list_endpoints()[0].id, "ep-here");
}

#[test]
fn bundles_are_refused_under_another_secret() {
    let body = "version: 1\nendpoints: []\n";
    let signed = sign_bundle(body, &SECRET);
    let mut other = SECRET.to_vec();
    other[0] ^= 1;
    assert_eq!(
        verify_bundle(&signed, &other),
        Err("bundle signature mismatch (content tampered)".to_string())
    );
    assert_eq!(
        verify_bundle(&signed.replacen("version: 1", "version: 0", 1), &SECRET),
        Err("bundle signature mismatch (content tampered)".to_string())
    );
    assert_eq!(verify_bundle(&signed, &SECRET), Ok(()));
}

#[test]
fn stored_presets_are_never_built_in() {
    let mut desk = Desk::new();
    let shipped = desk.list_template_presets().len();
    let own = desk.save_user_template_preset(&make_user_preset("mine", "t", "{}")).unwrap();
    let copy = desk.fork_builtin_preset("builtin:slack", "copy").unwrap();
    let mut marked = make_user_preset("marked", "t", "{}");
    marked.builtin = true;
    marked.id = String::new();
    let doc = PresetYamlDoc { version: 1, presets: vec![marked] };
    assert_eq!(desk.import_presets_from_yaml(doc), Ok(1));
    let all = desk.list_template_presets();
    assert_eq!(all.len(), shipped + 3);
    for (i, p) in all.iter().enumerate() {
        assert_eq!(p.builtin, i < shipped);
        assert!(!p.id.is_empty());
    }
    assert!(desk.delete_user_template_preset(&own.id));
    assert!(desk.delete_user_template_preset(&copy.id));
    assert!(!desk.delete_user_template_preset(&all[0].id));
    assert_eq!(desk.list_template_presets().iter().filter(|p| p.builtin).count(), shipped);
}

#[test]
fn saving_again_counts_on_from_what_is_stored() {
    let mut desk = Desk::new();
    let mut p = make_user_preset("mine", "t", "{}");
    p.id = "p-1".into();
    p.created_at = 77;
    p.version = 4;
    assert_eq!(desk.save_user_template_preset(&p).unwrap().version, 4);
    p.created_at = 0;
    p.version = 0;
    p.kind = "builtin:slack".into();
    let again = desk.save_user_template_preset(&p).unwrap();
    assert_eq!((again.version, again.created_at, again.kind.as_str()), (5, 77, "user:p-1"));
    p.version = 40;
    p.kind = "other".into();
    let raised = desk.save_user_template_preset(&p).unwrap();
    assert_eq!((raised.version, raised.created_at, raised.kind.as_str()), (40, 77, "other"));
}

#[test]
fn bundles_restore_an_empty_store() {
    let mut desk = Desk::new();
    desk.save_endpoint(make_endpoint_row("ep-1", "one")).unwrap();
    desk.save_endpoint(make_endpoint_row("ep-2", "two")).unwrap();
    desk.save_user_template_preset(&make_user_preset("mine", "t", "{}")).unwrap();
    let doc = desk.export_alerting_bundle();
    let mut fresh = Desk::new();
    let summary = fresh.import_alerting_bundle(&doc).unwrap();
    assert_eq!((summary.endpoints, summary.presets, summary.total), (2, 1, 3));
    let back = fresh.export_alerting_bundle();
    let names = |d: &AlertingBundleDoc| {
        let mut n: Vec<String> = d.endpoints.iter().map(|e| format!("{}:{}:{}", e.id, e.name, e.url)).collect();
        n.extend(d.presets.iter().map(|p| format!("{}:{}:{}", p.id, p.name, p.version)));
        n
    };
    assert_eq!(names(&back), names(&doc));
}

#[test]
fn encryption_takes_a_passphrase() {
    assert_eq!(encrypt_bundle("x", "").unwrap_err(), "passphrase must not be empty");
    assert!(encrypt_bundle("x", " ").is_ok());
}
