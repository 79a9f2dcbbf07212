use opencapx::alerting::dispatch::DispatchState;
use opencapx::alerting::endpoints::gen_endpoint_id;
use opencapx::alerting::endpoints;
use opencapx::alerting::presets::builtin_presets;
use opencapx::alerting::routes::trial_payload;
use opencapx::alerting::storage::Storage;
use opencapx::alerting::template::{TemplateContentType, TemplateDiagnostic, lint_template, offset_to_line_col, preview_alerting_template, render_template};
use opencapx::alerting::types::{AlertEnvelope, AlertingEndpointRow, Severity, WebhookEndpoint};
use opencapx::json::Json;

fn now_secs() -> u64 {
    std::time::SystemTime::now()
        .duration_since(std::time::UNIX_EPOCH)
        .map(|d| d.as_secs())
        .unwrap_or(0)
}

fn json(text: &str) -> Json {
    trial_payload(text).unwrap()
}

/// A store, what alerting remembers, and the time.
struct Desk {
    store: Storage,
    state: DispatchState,
    now: u64,
    made: u64,
}

impl Desk {
    fn new() -> Self {
        Desk {
            store: Storage::new(),
            state: DispatchState::new(),
            now: now_secs(),
            made: 0,
        }
    }

    fn next(&mut self) -> u64 {
        self.made += 1;
        self.made
    }

    fn save_endpoint(&mut self, ep: WebhookEndpoint) -> Result<AlertingEndpointRow, String> {
        let id = gen_endpoint_id(self.now, self.next());
        endpoints::save_endpoint(&mut self.store, ep, &id, self.now)
    }

    fn list_endpoints(&self) -> Vec<AlertingEndpointRow> {
        endpoints::list_endpoints(&self.store)
    }
}

fn tpl_env(source: &str, severity: Severity, payload: Json) -> AlertEnvelope {
    AlertEnvelope {
        schema_version: 1,
        event_id: "evt-x".into(),
        source: source.into(),
        severity,
        tags: vec!["t1".into(), "t2".into()],
        timestamp: 1_700_000_000,
        payload,
    }
}

#[test]
fn template_substitutes_top_level_placeholders() {
    let env = tpl_env(
        "plugin.metrics.exceeded",
        Severity::Warn,
        json(r#"{"value": 42}"#),
    );
    let (out, ct) = render_template("{{source}} {{severity}} {{timestamp}}", &env).unwrap();
    assert_eq!(out, "plugin.metrics.exceeded warn 1700000000");
    assert_eq!(ct, TemplateContentType::Text);
}

#[test]
fn template_substitutes_payload_dot_path() {
    let env = tpl_env(
        "x",
        Severity::Info,
        json(r#"{"error": {"code": 500, "msg": "internal"}}"#),
    );
    let (out, _) = render_template(
        "code={{payload.error.code}} msg={{payload.error.msg}}",
        &env,
    )
    .unwrap();
    assert_eq!(out, "code=500 msg=internal");
}

#[test]
fn template_missing_payload_path_renders_empty() {
    let env = tpl_env("x", Severity::Info, json(r#"{"foo": 1}"#));
    let (out, _) = render_template("value=[{{payload.missing.field}}]", &env).unwrap();
    assert_eq!(out, "value=[]");
}

#[test]
fn template_if_block_true_renders_body() {
    let env = tpl_env("x", Severity::Critical, json(r#"{}"#));
    let tpl = "{{#if severity == \"critical\"}}ALERT{{/if}}";
    let (out, _) = render_template(tpl, &env).unwrap();
    assert_eq!(out, "ALERT");
}

#[test]
fn template_if_block_false_renders_nothing() {
    let env = tpl_env("x", Severity::Info, json(r#"{}"#));
    let tpl = "before {{#if severity == \"critical\"}}ALERT{{/if}} after";
    let (out, _) = render_template(tpl, &env).unwrap();
    assert_eq!(out, "before  after");
}

#[test]
fn template_if_else_picks_correct_branch() {
    let env_crit = tpl_env("x", Severity::Critical, json(r#"{}"#));
    let env_info = tpl_env("x", Severity::Info, json(r#"{}"#));
    let tpl = "{{#if severity == \"critical\"}}HIGH{{else}}LOW{{/if}}";
    let (out, _) = render_template(tpl, &env_crit).unwrap();
    assert_eq!(out, "HIGH");
    let (out, _) = render_template(tpl, &env_info).unwrap();
    assert_eq!(out, "LOW");
}

#[test]
fn template_if_with_payload_truthiness() {
    let env = tpl_env("x", Severity::Info, json(r#"{"flag": true}"#));
    let tpl = "{{#if payload.flag}}YES{{/if}}";
    let (out, _) = render_template(tpl, &env).unwrap();
    assert_eq!(out, "YES");
    let env2 = tpl_env("x", Severity::Info, json(r#"{"flag": false}"#));
    let (out, _) = render_template(tpl, &env2).unwrap();
    assert_eq!(out, "");
}

#[test]
fn template_each_iterates_payload_array() {
    let env = tpl_env(
        "x",
        Severity::Info,
        json(r#"{"items": [{"id": 1}, {"id": 2}, {"id": 3}]}"#),
    );
    let tpl = "{{#each payload.items}}[{{this.id}}]{{/each}}";
    let (out, _) = render_template(tpl, &env).unwrap();
    assert_eq!(out, "[1][2][3]");
}

#[test]
fn template_each_with_this_string() {
    let env = tpl_env(
        "x",
        Severity::Info,
        json(r#"{"tags": ["a", "b", "c"]}"#),
    );
    let tpl = "{{#each payload.tags}}{{this}},{{/each}}";
    let (out, _) = render_template(tpl, &env).unwrap();
    assert_eq!(out, "a,b,c,");
}

#[test]
fn template_unclosed_if_errors() {
    let env = tpl_env("x", Severity::Info, json(r#"{}"#));
    let r = render_template("{{#if severity == \"info\"}}body", &env);
    assert!(r.is_err());
}

#[test]
fn template_unmatched_closing_block_errors() {
    let env = tpl_env("x", Severity::Info, json(r#"{}"#));
    let r = render_template("body{{/if}}", &env);
    assert!(r.is_err());
}

#[test]
fn template_slack_block_kit_example() {
    let env = tpl_env(
        "plugin.lifecycle.crashed",
        Severity::Critical,
        json(r#"{"reason": "OOM"}"#),
    );
    let tpl = r#"{
            "blocks": [
                {{#if severity == "critical"}}
                { "type": "header", "text": { "type": "plain_text", "text": "🚨 CRITICAL {{source}}" } },
                {{/if}}
                { "type": "section", "text": { "type": "mrkdwn", "text": "Reason: {{payload.reason}}" } }
            ]
        }"#;
    let (out, ct) = render_template(tpl, &env).unwrap();
    assert_eq!(ct, TemplateContentType::Json);
    assert!(out.contains("🚨 CRITICAL plugin.lifecycle.crashed"));
    assert!(out.contains("Reason: OOM"));
}

#[test]
fn template_json_content_type_detection() {
    let env = tpl_env("x", Severity::Info, json(r#"{}"#));
    let (out, ct) = render_template("{\"hello\": \"world\"}", &env).unwrap();
    assert_eq!(ct, TemplateContentType::Json);
    assert!(out.contains("\"hello\""));
    let (_, ct2) = render_template("plain text body", &env).unwrap();
    assert_eq!(ct2, TemplateContentType::Text);
}

#[test]
fn template_negation_in_condition() {
    let env = tpl_env("x", Severity::Info, json(r#"{}"#));
    let tpl = "{{#if !payload.missing}}OK{{/if}}";
    let (out, _) = render_template(tpl, &env).unwrap();
    assert_eq!(out, "OK");
}

#[test]
fn template_extra_whitespace_inside_placeholder_is_trimmed() {
    let env = tpl_env("svc.x", Severity::Warn, json(r#"{}"#));
    let (out, _) = render_template("{{   source   }}|{{\t\tsource\t\t}}", &env).unwrap();
    assert_eq!(out, "svc.x|svc.x");
}

#[test]
fn template_empty_string_renders_empty() {
    let env = tpl_env("x", Severity::Info, json(r#"{}"#));
    let (out, ct) = render_template("", &env).unwrap();
    assert_eq!(out, "");
    assert_eq!(ct, TemplateContentType::Text);
}

#[test]
fn template_pure_literal_passes_through() {
    let env = tpl_env("x", Severity::Info, json(r#"{}"#));
    let tpl = "no placeholders here, just text and 1234567890.";
    let (out, ct) = render_template(tpl, &env).unwrap();
    assert_eq!(out, tpl);
    assert_eq!(ct, TemplateContentType::Text);
}

#[test]
fn template_unicode_payload_renders_intact() {
    let env = tpl_env(
        "plugin.unicode",
        Severity::Info,
        json(r#"{"name": "café 🚨", "emoji": "🎉🎊"}"#),
    );
    let (out, _) = render_template("name={{payload.name}} e={{payload.emoji}}", &env).unwrap();
    assert_eq!(out, "name=café 🚨 e=🎉🎊");
}

#[test]
fn template_each_empty_array_renders_empty() {
    let env = tpl_env("x", Severity::Info, json(r#"{"items": []}"#));
    let (out, _) =
        render_template("X{{#each payload.items}}[{{this.id}}]{{/each}}Y", &env).unwrap();
    assert_eq!(out, "XY");
}

#[test]
fn template_each_non_array_path_renders_empty_gracefully() {
    let env = tpl_env("x", Severity::Info, json(r#"{"scalar": "hello"}"#));
    let (out, _) = render_template("{{#each payload.scalar}}[{{this}}]{{/each}}", &env).unwrap();
    assert_eq!(out, "");
}

#[test]
fn template_multiple_sibling_if_blocks_render_independently() {
    let env = tpl_env(
        "x",
        Severity::Critical,
        json(r#"{"p1": true, "p2": false}"#),
    );
    let tpl = "{{#if severity == \"critical\"}}A{{/if}}|{{#if payload.p1}}B{{/if}}|{{#if payload.p2}}C{{/if}}";
    let (out, _) = render_template(tpl, &env).unwrap();
    assert_eq!(out, "A|B|");
}

#[test]
fn template_numeric_literal_comparison() {
    let env = tpl_env("x", Severity::Info, json(r#"{"cpu": 95}"#));
    let tpl = "{{#if payload.cpu == 95}}HOT{{else}}OK{{/if}}";
    let (out, _) = render_template(tpl, &env).unwrap();
    assert_eq!(out, "HOT");
    let env2 = tpl_env("x", Severity::Info, json(r#"{"cpu": 50}"#));
    let (out2, _) = render_template(tpl, &env2).unwrap();
    assert_eq!(out2, "OK");
}

#[test]
fn template_boolean_literal_comparison() {
    let env = tpl_env("x", Severity::Info, json(r#"{"on": true}"#));
    let tpl = "{{#if payload.on == true}}YES{{/if}}";
    let (out, _) = render_template(tpl, &env).unwrap();
    assert_eq!(out, "YES");
    let env2 = tpl_env("x", Severity::Info, json(r#"{"on": false}"#));
    let (out2, _) = render_template(tpl, &env2).unwrap();
    assert_eq!(out2, "");
}

#[test]
fn template_each_body_can_reference_envelope_too() {
    let env = tpl_env(
        "plugin.metrics.exceeded",
        Severity::Info,
        json(r#"{"items": [{"id": 1}, {"id": 2}]}"#),
    );
    let tpl = "{{#each payload.items}}{{source}}#{{this.id}} {{/each}}";
    let (out, _) = render_template(tpl, &env).unwrap();
    assert_eq!(out, "plugin.metrics.exceeded#1 plugin.metrics.exceeded#2 ");
}

#[test]
fn template_substitutes_event_id_and_schema_version() {
    let env = tpl_env("x", Severity::Info, json(r#"{}"#));
    let (out, _) = render_template(
        "evt:{{event_id}} sv:{{schema_version}} ts:{{timestamp}}",
        &env,
    )
    .unwrap();
    assert_eq!(out, "evt:evt-x sv:1 ts:1700000000");
}

#[test]
fn template_mixed_if_and_each_in_one_template() {
    let env = tpl_env(
        "x",
        Severity::Critical,
        json(r#"{"items": [{"id": "a"}, {"id": "b"}], "show": true}"#),
    );
    let tpl = "{{#if payload.show}}{{#each payload.items}}[{{this.id}}]{{/each}}{{/if}}";
    let (out, _) = render_template(tpl, &env).unwrap();
    assert_eq!(out, "[a][b]");
}

#[test]
fn template_each_with_object_array_uses_this_dot_path() {
    let env = tpl_env(
        "x",
        Severity::Info,
        json(r#"{ "users": [ {"name": "alice", "age": 30}, {"name": "bob", "age": 25} ] }"#),
    );
    let tpl = "{{#each payload.users}}{{this.name}}={{this.age}};{{/each}}";
    let (out, _) = render_template(tpl, &env).unwrap();
    assert_eq!(out, "alice=30;bob=25;");
}

#[test]
fn template_payload_with_newlines_and_quotes_preserves_raw() {
    let env = tpl_env(
        "x",
        Severity::Info,
        json(r#"{"msg": "line1\nline2\n\"quoted\""}"#),
    );
    let (out, _) = render_template("MSG=[{{payload.msg}}]", &env).unwrap();
    assert_eq!(out, "MSG=[line1\nline2\n\"quoted\"]");
}

#[test]
fn template_tags_renders_as_comma_joined_string() {
    let env = tpl_env("x", Severity::Info, json(r#"{}"#));
    let (out, _) = render_template("tags={{tags}}", &env).unwrap();
    assert!(out.contains("t1") && out.contains("t2"), "got: {out}");
}

#[test]
fn template_each_nested_object_dot_path_in_body() {
    let env = tpl_env(
        "x",
        Severity::Info,
        json(r#"{ "users": [ {"profile": {"role": "admin"}}, {"profile": {"role": "user"}} ] }"#),
    );
    let tpl = "{{#each payload.users}}{{this.profile.role}};{{/each}}";
    let (out, _) = render_template(tpl, &env).unwrap();
    assert_eq!(out, "admin;user;");
}

#[test]
fn lint_template_clean_returns_empty() {
    let diags = lint_template("hello {{source}} world");
    assert!(
        diags.is_empty(),
        "expected no diagnostics, got: {:?}",
        diags
    );
}

#[test]
fn lint_template_unclosed_block_emits_error() {
    let diags = lint_template("{{#if severity == \"info\"}}body without close");
    let codes: Vec<&str> = diags.iter().map(|d| d.code.as_str()).collect();
    assert!(
        codes.contains(&"unclosed_block"),
        "expected unclosed_block, got: {codes:?}"
    );
}

#[test]
fn lint_template_mismatched_close_emits_error() {
    let diags = lint_template("{{#each payload.items}}{{this}}{{/if}}");
    let codes: Vec<&str> = diags.iter().map(|d| d.code.as_str()).collect();
    assert!(
        codes.contains(&"mismatched_close"),
        "expected mismatched_close, got: {codes:?}"
    );
}

#[test]
fn lint_template_unclosed_placeholder_emits_error() {
    let diags = lint_template("hello {{source world");
    let codes: Vec<&str> = diags.iter().map(|d| d.code.as_str()).collect();
    assert!(
        codes.contains(&"unclosed_placeholder"),
        "expected unclosed_placeholder, got: {codes:?}"
    );
}

#[test]
fn builtin_preset_slack_template_renders_without_error() {
    let presets = builtin_presets();
    let slack = presets
        .iter()
        .find(|p| p.kind == "builtin:slack")
        .expect("builtin:slack exists");
    let env = tpl_env(
        "plugin.metrics.exceeded",
        Severity::Critical,
        json(r#"{"value": 95, "host": "db-01"}"#),
    );
    let (out, ct) =
        render_template(&slack.template, &env).expect("builtin slack should render without error");
    assert_eq!(ct, TemplateContentType::Json);
    assert!(
        out.contains("plugin.metrics.exceeded"),
        "missing source: {out}"
    );
    assert!(
        out.to_lowercase().contains("critical"),
        "missing severity: {out}"
    );
}

#[test]
fn builtin_preset_discord_template_renders_without_error() {
    let presets = builtin_presets();
    let discord = presets
        .iter()
        .find(|p| p.kind == "builtin:discord")
        .expect("builtin:discord exists");
    let env = tpl_env(
        "plugin.lifecycle.crashed",
        Severity::Error,
        json(r#"{"message": "OOM on host web-1"}"#),
    );
    let (out, _) = render_template(&discord.template, &env)
        .expect("builtin discord should render without error");
    assert!(out.contains("plugin.lifecycle.crashed"));
    assert!(out.contains("OOM on host web-1"));
}

#[test]
fn template_payload_deeply_nested_dot_path() {
    let env = tpl_env(
        "x",
        Severity::Info,
        json(r#"{"a": {"b": {"c": {"d": "deep"}}}}"#),
    );
    let (out, _) = render_template("{{payload.a.b.c.d}}", &env).unwrap();
    assert_eq!(out, "deep");
}

#[test]
fn template_payload_array_index_via_this_in_each_works() {
    let env = tpl_env(
        "x",
        Severity::Info,
        json(r#"{"items": [{"name": "first"}, {"name": "second"}]}"#),
    );
    let tpl = "{{#each payload.items}}{{this.name}};{{/each}}";
    let (out, _) = render_template(tpl, &env).unwrap();
    assert_eq!(out, "first;second;");
}

#[test]
fn template_each_with_only_this_primitive() {
    let env = tpl_env(
        "x",
        Severity::Info,
        json(r#"{"nums": [1, 2, 3, 4]}"#),
    );
    let tpl = "{{#each payload.nums}}{{this}},{{/each}}";
    let (out, _) = render_template(tpl, &env).unwrap();
    assert_eq!(out, "1,2,3,4,");
}

#[test]
fn template_unclosed_placeholder_returns_error() {
    let env = tpl_env("x", Severity::Info, json(r#"{}"#));
    let r = render_template("hello {{source", &env);
    assert!(r.is_err(), "unclosed placeholder should fail");
    let msg = r.unwrap_err();
    assert!(
        msg.contains("unclosed"),
        "error should mention unclosed: {msg}"
    );
}

#[test]
fn template_payload_null_value_renders_as_null_string() {
    let env = tpl_env("x", Severity::Info, json(r#"{"maybe": null}"#));
    let (out, _) = render_template("[{{payload.maybe}}]", &env).unwrap();
    assert_eq!(out, "[]", "null should render as empty string");
}

#[test]
fn template_payload_numeric_value_renders_as_decimal() {
    let env = tpl_env(
        "x",
        Severity::Info,
        json(r#"{"int_v": 42, "flt_v": 3.5}"#),
    );
    let (out, _) = render_template("i={{payload.int_v}} f={{payload.flt_v}}", &env).unwrap();
    assert_eq!(out, "i=42 f=3.5");
}

#[test]
fn template_if_truthiness_empty_array_is_false() {
    let env = tpl_env("x", Severity::Info, json(r#"{"empty": []}"#));
    let tpl = "{{#if payload.empty}}NONEMPTY{{else}}EMPTY{{/if}}";
    let (out, _) = render_template(tpl, &env).unwrap();
    assert_eq!(out, "EMPTY");
}

#[test]
fn template_if_truthiness_zero_is_false() {
    let env = tpl_env("x", Severity::Info, json(r#"{"n": 0}"#));
    let tpl = "{{#if payload.n}}NONZERO{{else}}ZERO{{/if}}";
    let (out, _) = render_template(tpl, &env).unwrap();
    assert_eq!(out, "ZERO");
}

#[test]
fn endpoint_row_template_round_trips() {
    let mut desk = Desk::new();
    let mut ep = WebhookEndpoint {
        id: "ep-tpl".into(),
        name: "ep-with-tpl".into(),
        url: "https://hooks.example.com/x".into(),
        enabled: true,
        headers: vec![],
        secret: String::new(),
        source_filter: vec![],
        schema_version: 1,
        template: Some("hello {{source}}".into()),
        template_sample: None,
        severity_overrides: vec![],
    };
    let saved = desk.save_endpoint(ep.clone()).unwrap();
    assert_eq!(saved.template.as_deref(), Some("hello {{source}}"));
    let listed = desk.list_endpoints();
    let row = listed.iter().find(|e| e.id == "ep-tpl").unwrap();
    assert_eq!(row.template.as_deref(), Some("hello {{source}}"));
    ep.template = None;
    let _ = desk.save_endpoint(ep).unwrap();
    let listed2 = desk.list_endpoints();
    let row2 = listed2.iter().find(|e| e.id == "ep-tpl").unwrap();
    assert!(row2.template.is_none());
}

fn diag_codes(diags: &[TemplateDiagnostic]) -> Vec<&str> {
    diags.iter().map(|d| d.code.as_str()).collect()
}

#[test]
fn lint_clean_template_returns_no_diags() {
    let d = lint_template("hello {{source}} {{#if payload.x}}A{{/if}}");
    assert!(d.is_empty(), "expected no diags, got: {:?}", d);
}

#[test]
fn lint_detects_unclosed_if_block() {
    let d = lint_template("hi {{#if payload.x}}body");
    assert!(diag_codes(&d).contains(&"unclosed_block"));
    let diag = d.iter().find(|x| x.code == "unclosed_block").unwrap();
    assert_eq!(diag.severity, "error");
    assert!(diag.offset <= 6);
}

#[test]
fn lint_detects_unexpected_close_if() {
    let d = lint_template("hi {{/if}} bye");
    assert!(diag_codes(&d).contains(&"unexpected_close"));
}

#[test]
fn lint_detects_mismatched_close_each_for_if() {
    let d = lint_template("{{#if x}}body{{/each}}");
    assert!(diag_codes(&d).contains(&"mismatched_close"));
}

#[test]
fn lint_detects_nested_too_deep() {
    let tpl = "{{#if a}}{{#if b}}{{#if c}}{{#if d}}{{#if e}}{{#if f}}{{#if g}}{{#if h}}{{#if i}}{{/if}}{{/if}}{{/if}}{{/if}}{{/if}}{{/if}}{{/if}}{{/if}}{{/if}}";
    let d = lint_template(tpl);
    assert!(
        diag_codes(&d).contains(&"nested_too_deep"),
        "expected nested_too_deep in {:?}",
        d
    );
}

#[test]
fn lint_warns_unknown_placeholder_syntax() {
    let d = lint_template("hi {{ foo bar }}");
    assert!(diag_codes(&d).contains(&"unknown_tag"));
}

#[test]
fn lint_detects_unclosed_placeholder() {
    let d = lint_template("hi {{source ");
    assert!(diag_codes(&d).contains(&"unclosed_placeholder"));
}

#[test]
fn lint_offset_to_line_col_converts_multiline() {
    let tpl = "\nfoo {{#if a}}\nbar\n{{/if}}";
    let off = tpl.find("{{#if").unwrap();
    let (line, col) = offset_to_line_col(tpl, off);
    assert_eq!(line, 2);
    assert_eq!(col, 5);
}

#[test]
fn lint_detects_empty_placeholder_tag() {
    let d = lint_template("hi {{}} bye");
    assert!(diag_codes(&d).contains(&"empty_tag"));
}

#[test]
fn preview_renders_with_sample_payload() {
    let sample = json(r#"{ "k": "v" }"#);
    let r = preview_alerting_template("{{payload.k}}", &sample);
    assert_eq!(r.body, "v");
    assert_eq!(r.content_type, "text/plain; charset=utf-8");
    assert!(r.diagnostics.is_empty(), "got: {:?}", r.diagnostics);
}

#[test]
fn preview_returns_diags_on_render_failure() {
    let sample = json(r#"{}"#);
    let r = preview_alerting_template("hello {{/if}}", &sample);
    assert!(r.diagnostics.iter().any(|d| d.code == "render_failed"));
    assert!(r.body.is_empty());
}

#[test]
fn preview_returns_diags_from_lint_even_when_render_succeeds() {
    let sample = json(r#"{ "x": false }"#);
    let r = preview_alerting_template("{{#if payload.x}}A", &sample);
    assert_eq!(r.body, "");
    assert!(
        r.diagnostics.iter().any(|d| d.code == "unclosed_block"),
        "got: {:?}",
        r.diagnostics
    );
}

#[test]
fn preview_lists_findings_by_offset() {
    let r = preview_alerting_template("{{#each payload.a}}x{{}}{{b c}}", &json("{}"));
    let offsets: Vec<usize> = r.diagnostics.iter().map(|d| d.offset).collect();
    assert_eq!(offsets, vec![0, 0, 20, 24]);
    let codes: Vec<&str> = r.diagnostics.iter().map(|d| d.code.as_str()).collect();
    assert_eq!(codes, vec!["unclosed_block", "render_failed", "empty_tag", "unknown_tag"]);
    assert_eq!(r.body, "");
    assert_eq!(r.content_type, "text/plain; charset=utf-8");
}

#[test]
fn branches_of_an_if_are_rendered() {
    let tpl = "{{#if severity == \"critical\"}}{{source}}{{else}}LOW{{/if}}";
    let mut env = tpl_env("svc.x", Severity::Critical, json("{}"));
    env.tags = vec![];
    assert_eq!(render_template(tpl, &env), Ok(("svc.x".to_string(), TemplateContentType::Text)));
    env.severity = Severity::Info;
    assert_eq!(render_template(tpl, &env), Ok(("LOW".to_string(), TemplateContentType::Text)));
    let both = "{{#if payload.a}}<{{payload.a}}>{{else}}({{source}} {{severity}}){{/if}}!";
    let shown = tpl_env("s", Severity::Warn, json(r#"{"a": 5}"#));
    assert_eq!(render_template(both, &shown).unwrap().0, "<5>!");
    assert_eq!(render_template(both, &env).unwrap().0, "(svc.x info)!");
}

#[test]
fn an_else_belongs_to_the_innermost_if() {
    let tpl = "{{#if payload.a}}A{{#if payload.b}}B{{else}}b{{/if}}{{else}}a{{#if payload.b}}B{{else}}b{{/if}}{{/if}}";
    for (payload, want) in [
        (r#"{"a": true, "b": true}"#, "AB"),
        (r#"{"a": true}"#, "Ab"),
        (r#"{"b": true}"#, "aB"),
        ("{}", "ab"),
    ] {
        let env = tpl_env("x", Severity::Info, json(payload));
        assert_eq!(render_template(tpl, &env).unwrap().0, want);
    }
    let env = tpl_env("x", Severity::Info, json("{}"));
    assert_eq!(render_template("a{{else}}b", &env).unwrap().0, "ab");
    let twice = "{{#if payload.a}}1{{else}}2{{#if payload.a}}x{{else}}y{{/if}}{{else}}3{{/if}}";
    assert_eq!(render_template(twice, &env).unwrap().0, "3");
    let shown = tpl_env("x", Severity::Info, json(r#"{"a": true}"#));
    assert_eq!(render_template(twice, &shown).unwrap().0, "12x");
}

#[test]
fn teams_cards_are_coloured_by_severity() {
    let preset = builtin_presets().into_iter().find(|p| p.kind == "builtin:msteams").unwrap();
    for (payload, color) in [
        (r#"{"message": "m", "severity_eq_critical": true}"#, "FF0000"),
        (r#"{"message": "m", "severity_eq_error": true}"#, "FFA500"),
        (r#"{"message": "m", "severity_eq_warn": true}"#, "FFCC00"),
        (r#"{"message": "m"}"#, "00CC00"),
    ] {
        let env = tpl_env("svc.x", Severity::Critical, json(payload));
        let (out, kind) = render_template(&preset.template, &env).unwrap();
        assert!(out.contains(&format!("\"themeColor\": \"{color}\"")), "{out}");
        assert!(!out.contains("{{"), "{out}");
        assert_eq!(kind, TemplateContentType::Json);
    }
}

#[test]
fn unpaired_blocks_are_named_with_their_place() {
    let env = tpl_env("x", Severity::Info, json("{}"));
    for (tpl, want) in [
        ("ä\n {{#if a}}b", "template: unclosed block at offset 4, line:col 2:2 (expected {/if})"),
        ("{{#if a}}b{{else}}c", "template: unclosed block at offset 0, line:col 1:1 (expected {/if})"),
        ("ab{{/if}}", "template: unexpected {/if} at offset 2, line:col 1:3 (no matching {#if})"),
        ("a\nb{{/each}}", "template: unexpected {/each} at offset 3, line:col 2:2 (no matching {#each})"),
        ("\n{{#each tags}}x", "template: unclosed {{#each}} at offset 1, line:col 2:1"),
        ("x{{y", "template: unclosed placeholder at offset 1"),
        ("{{#if a}}{{#each tags}}{{/if}}", "template: unclosed {{#each}} at offset 9, line:col 1:10"),
    ] {
        assert_eq!(render_template(tpl, &env).unwrap_err(), want);
    }
}

#[test]
fn templates_render_one_behind_the_other() {
    let env = tpl_env("svc.x", Severity::Critical, json(r#"{"a": 1}"#));
    let parts = [
        "plain }} { text",
        "{{source}}",
        "{{#if payload.a}}{{payload.a}}{{else}}no{{/if}}",
        "{{#each tags}}[{{this}}]{{/each}}",
        "{{else}}",
        "",
    ];
    for a in parts {
        for b in parts {
            let both = render_template(&format!("{a}{b}"), &env).unwrap().0;
            let apart = render_template(a, &env).unwrap().0 + &render_template(b, &env).unwrap().0;
            assert_eq!(both, apart);
        }
    }
    assert!(render_template("{{source}}{", &env).is_ok());
    assert!(render_template("{x}}", &env).is_ok());
    assert_eq!(render_template("{{source}}{{x}}", &env).unwrap().0, "svc.x");
}

#[test]
fn numbers_keep_their_text() {
    let env = tpl_env("x", Severity::Info, json(r#"{"a": [1, -2, 2.5, 1e300, 18446744073709551615]}"#));
    assert_eq!(render_template("{{payload.a}}", &env).unwrap().0, "[1,-2,2.5,1e+300,18446744073709551615]");
    let odd = tpl_env("x", Severity::Info, Json::Array(vec![Json::Number("many".into())]));
    assert_eq!(render_template("{{payload}}", &odd).unwrap().0, "null");
}

#[test]
fn generic_preset_passes_the_payload_through() {
    let preset = builtin_presets().into_iter().find(|p| p.kind == "builtin:generic_json").unwrap();
    let env = tpl_env("svc.x", Severity::Warn, json(&preset.sample));
    let out = render_template(&preset.template, &env);
    assert_eq!(out, Ok((r#"{"any":"json","nested":{"k":"v"}}"#.to_string(), TemplateContentType::Json)));
}
