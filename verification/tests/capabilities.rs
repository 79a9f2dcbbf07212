use opencapx::alerting::routes::trial_payload;
use opencapx::capability::{CALL_TIMEOUT, CapabilityRow, MAX_BYTES, MAX_ENTRIES, Registry, builtin_ids, call_timeout_for, capability_ids, digest_from, digest_text, ema_step, has_builtin, known, providers, subscribe_ids};
use opencapx::declaration::{CorePermission, Decision, Declaration, DeclarationStore, NewDeclaration, Vocabulary, conflicting_provider, declared_capability_ids, declared_default, declared_permission_defaults, declared_permission_set, delete_for_plugin, domains, first_segment, for_capability, is_declared_permission, parse_decision, resolve, timeout_for, write_in_tx};
use opencapx::execution::{CoreStore, Effect, Finding, MAX_INPUT_BYTES, Move, ProviderEvent, ScopeDenial, Start, begin, begin_sized, finish_builtin};
use opencapx::json::{Json, pretty_text};
use opencapx::values::{empty_object, text_value, texts_value};
use opencapx::{capability, declaration};

fn json(text: &str) -> Json {
    trial_payload(text).unwrap()
}

fn words() -> Vocabulary {
    Vocabulary {
        permissions: vec![CorePermission {
            capability: "image.analyze".into(),
            permission: "image.read".into(),
            default: Decision::Ask,
        }],
        reserved: vec!["things".into()],
    }
}

fn new_row(capability: &str, permission: &str, decision: &str) -> NewDeclaration {
    NewDeclaration {
        capability: capability.into(),
        permission: permission.into(),
        default_decision: decision.into(),
        timeout_secs: None,
    }
}

fn declare(store: &mut DeclarationStore, plugin: &str, caps: &[(&str, &str, &str)]) {
    let rows = caps.iter().map(|(c, p, d)| new_row(c, p, d)).collect();
    write_in_tx(&words(), store, plugin, &rows, 1).unwrap();
}

fn provider(id: &str, plugin: &str, priority: i64) -> CapabilityRow {
    CapabilityRow {
        id: id.into(),
        version: "1".into(),
        plugin_id: plugin.into(),
        priority,
        enabled: true,
        avg_latency_ms: None,
        last_used_at: None,
    }
}

fn core_with(rows: Vec<CapabilityRow>) -> CoreStore {
    let mut registry = Registry::new();
    registry.rows = rows;
    CoreStore { registry, declarations: DeclarationStore::new() }
}

#[test]
fn digest_formats_and_truncates() {
    assert!(digest_from(&json(r#"{ "capabilities": [] }"#)).is_none());
    assert!(digest_from(&json("{}")).is_none());

    let listed = json(
        r#"{"capabilities": [
            {"id": "image.analyze", "version": "1", "providers": ["core"]},
            {"id": "file.watch", "version": "1", "type": "subscribe", "providers": ["core"]},
            {"id": "media.play", "version": "2", "providers": ["com.acme.media", "core"]}
        ]}"#,
    );
    let s = digest_from(&listed).unwrap();
    assert!(s.contains("opencapx.execute"), "must teach the entry tools");
    assert!(s.contains("- image.analyze — execute — providers: core"));
    assert!(s.contains("- file.watch — subscribe — providers: core"));
    assert!(s.contains("- media.play — execute — providers: com.acme.media, core"));

    let many: Vec<Json> = (0..70)
        .map(|i| {
            empty_object()
                .with("id", text_value(&format!("c.{i}")))
                .with("version", text_value("1"))
                .with("providers", texts_value(&["p".to_string()]))
        })
        .collect();
    let s2 = digest_from(&empty_object().with("capabilities", Json::Array(many))).unwrap();
    assert!(s2.contains("(+10 more"), "70 registered, 60 shown");
    assert!(!s2.contains("- c.69"), "the cut entries must not leak");
}

#[test]
fn digests_fit_the_bytes() {
    let long = "p".repeat(500);
    let many: Vec<Json> = (0..20)
        .map(|i| {
            empty_object()
                .with("id", text_value(&format!("c.{i}")))
                .with("providers", texts_value(&[long.clone()]))
        })
        .collect();
    let s = digest_from(&empty_object().with("capabilities", Json::Array(many))).unwrap();
    assert!(s.contains(" more"));
    assert!(s.lines().filter(|l| l.starts_with("- c.")).count() < 20);
    assert!(s.len() <= MAX_BYTES);
    for size in 1..200 {
        let name = "p".repeat(size);
        let caps: Vec<Json> = (0..60)
            .map(|i| {
                empty_object()
                    .with("id", text_value(&format!("c.{i}")))
                    .with("providers", texts_value(&[name.clone()]))
            })
            .collect();
        let all = digest_from(&empty_object().with("capabilities", Json::Array(caps))).unwrap();
        assert!(all.len() <= MAX_BYTES);
        let shown = all.lines().filter(|l| l.starts_with("- c.")).count();
        assert_eq!(all.contains(&format!("(+{} more", 60 - shown)), shown < 60);
    }
    assert!(MAX_ENTRIES == 60);
}

#[test]
fn v1_registry_is_the_docs_set() {
    assert_eq!(capability_ids().len(), 42);
    assert!(known(None, "image.analyze"));
    assert!(known(None, "clipboard.write"));
    assert!(known(None, "clipboard.read"));
    assert!(known(None, "file.watch"));
    assert!(known(None, "context.get_current"));
    assert!(known(None, "system.permission_status"));
    for id in [
        "automation.run",
        "input.send",
        "photos.read",
        "contacts.search",
        "calendar.events",
        "location.get",
        "audio.play",
        "url.scheme.open",
    ] {
        assert!(known(None, id), "{} missing", id);
    }
    assert!(!known(None, "video.analyze"));
    assert!(known(None, "screen.watch"), "second subscribe type");
    for id in [
        "media.playback",
        "system.sleep",
        "system.lock",
        "system.settings",
        "printer.print",
    ] {
        assert!(known(None, id), "{} missing", id);
    }
    for id in [
        "messages.recent",
        "window.list",
        "window.focus",
        "notes.read",
        "reminders.read",
        "reminders.write",
        "mail.recent",
    ] {
        assert!(known(None, id), "{} missing", id);
    }
    for id in [
        "things.add",
        "things.update",
        "things.list",
        "things.show",
        "things.search",
        "things.delete",
    ] {
        assert!(known(None, id), "{} missing", id);
    }
}

#[test]
fn builtin_ids_dispatch_and_are_known() {
    for id in builtin_ids() {
        assert!(known(None, &id), "{} not in the registry", id);
        assert!(has_builtin(&id), "{} not dispatchable", id);
    }
    assert!(has_builtin("image.analyze"), "image.analyze has a built-in");
    assert!(has_builtin("screen.capture"), "screen.capture has a built-in");
    assert!(!has_builtin("audio.transcribe"));
}

#[test]
fn no_builtin_capability_stays_unavailable() {
    let (effects, start) = begin(&words(), None, "audio.transcribe", "unknown", None, &json("{}"));
    assert!(effects.is_empty());
    match start {
        Start::Refused(e) => assert_eq!(e, "capability_unavailable"),
        other => panic!("expected a refusal, got {:?}", other),
    }
}

#[test]
fn builtin_image_analyze_validates_input() {
    let (_, start) = begin(&words(), None, "image.analyze", "unknown", None, &json("{}"));
    assert!(matches!(start, Start::Builtin));
    let (effects, result) = finish_builtin("image.analyze", "unknown", Some("invalid input"), 3);
    assert_eq!(result, Err("capability_failed".into()));
    assert_eq!(effects.len(), 3);
}

#[test]
fn execute_unknown_capability_rejected() {
    let (_, start) = begin(&words(), None, "nope.nope", "unknown", None, &json("{}"));
    match start {
        Start::Refused(e) => assert!(e.contains("unknown capability")),
        other => panic!("expected a refusal, got {:?}", other),
    }
}

#[test]
fn ema_step_formula_is_correct() {
    assert_eq!(ema_step(100, 100), 100);
    assert_eq!(ema_step(100, 50), 93);
    assert_eq!(ema_step(0, 80), 10);
}

#[test]
fn averages_lie_between() {
    for (old, sample) in [(0, 1), (1000, 3), (-8, 8), (i64::MAX, i64::MAX)] {
        let step = ema_step(old, sample);
        assert!(old.min(sample) <= step && step <= old.max(sample), "{old} {sample} {step}");
    }
}

#[test]
fn call_timeout_defaults_without_declaration() {
    assert_eq!(call_timeout_for(None, "com.x", "a.b"), CALL_TIMEOUT);
}

#[test]
fn a_declared_timeout_counts() {
    let mut store = DeclarationStore::new();
    let mut row = new_row("weather.fetch", "weather.read", "ask");
    row.timeout_secs = Some(7);
    write_in_tx(&words(), &mut store, "com.a", &vec![row], 1).unwrap();
    assert_eq!(timeout_for(&store, "com.a", "weather.fetch"), Some(7));
    assert_eq!(call_timeout_for(Some(&store), "com.a", "weather.fetch"), 7);
    assert_eq!(call_timeout_for(Some(&store), "com.b", "weather.fetch"), CALL_TIMEOUT);
}

#[test]
fn calls_are_averaged_and_listed() {
    let mut registry = Registry::new();
    registry.rows = vec![provider("a.b", "com.slow", 10), provider("a.b", "com.fast", 5)];
    assert_eq!(providers(&registry, "a.b").len(), 2);
    registry.record("a.b", "com.slow", 80, 5, "ok", None);
    assert_eq!(registry.calls.len(), 1);
    registry.touch("a.b", "com.slow", 80, 5);
    assert_eq!(registry.calls.len(), 2);
    registry.touch("a.b", "com.slow", 160, 6);
    let row = registry.rows.iter().find(|r| r.plugin_id == "com.slow").unwrap();
    assert_eq!(row.last_used_at, Some(6));
    assert_eq!(row.avg_latency_ms, Some(ema_step(80, 160)));
    let listed = capability::list(Some(&registry));
    assert_eq!(pretty_text(&capability::list(None)), "{\n  \"capabilities\": []\n}");
    assert!(listed.member("capabilities").is_some());
    assert!(digest_text(Some(&registry)).unwrap().contains("- a.b"));
    assert!(digest_text(None).is_none());
    assert_eq!(subscribe_ids().len(), 2);
}

#[test]
fn resolve_prefers_builtin_then_declarations() {
    let mut s = DeclarationStore::new();
    let r = resolve(&words(), &s, "image.analyze").expect("builtin");
    assert_eq!(r.permission, "image.read");
    assert!(!r.declared);
    assert!(resolve(&words(), &s, "weather.fetch").is_none());
    declare(&mut s, "com.x.weather", &[("weather.fetch", "weather.read", "ask")]);
    let r = resolve(&words(), &s, "weather.fetch").expect("declared");
    assert_eq!(r.permission, "weather.read");
    assert_eq!(r.default, Decision::Ask);
    assert!(r.declared);
    assert!(is_declared_permission(&s, "weather.read"));
    assert_eq!(declared_default(&s, "weather.read"), Some(Decision::Ask));
    assert!(!is_declared_permission(&s, "image.read"));
}

#[test]
fn resolve_fails_closed_on_inconsistent_providers() {
    let mut s = DeclarationStore::new();
    declare(&mut s, "com.a", &[("weather.fetch", "weather.read", "ask")]);
    s.put(
        Declaration {
            capability: "weather.fetch".into(),
            plugin_id: "com.b".into(),
            permission: "weather.read2".into(),
            default_decision: "denied".into(),
            timeout_secs: None,
        },
        1,
    );
    assert!(resolve(&words(), &s, "weather.fetch").is_none());
    assert_eq!(declared_default(&s, "weather.read"), Some(Decision::Ask));
}

#[test]
fn domain_claim_is_first_come_and_rejects_reserved() {
    let mut s = DeclarationStore::new();
    declare(&mut s, "com.a", &[("weather.fetch", "weather.read", "ask")]);
    let claims = domains(&s);
    assert_eq!(claims.len(), 1);
    assert_eq!(claims[0].domain, "weather");
    assert_eq!(claims[0].plugin_id.as_deref(), Some("com.a"));
    assert_eq!(claims[0].source, "local");
    let second = vec![new_row("weather.alerts", "weather.read", "ask")];
    let r = write_in_tx(&words(), &mut s, "com.b", &second, 1);
    assert!(r.is_err(), "second claimant must be rejected: {:?}", r);
    let reserved = vec![new_row("things.list", "things.read", "ask")];
    assert!(write_in_tx(&words(), &mut s, "com.c", &reserved, 1).is_err());
    assert_eq!(declaration::all(&s).len(), 1, "a refused plugin leaves nothing behind");
}

#[test]
fn uninstall_releases_domain_and_declarations() {
    let mut s = DeclarationStore::new();
    declare(&mut s, "com.a", &[("weather.fetch", "weather.read", "ask")]);
    assert_eq!(declaration::all(&s).len(), 1);
    delete_for_plugin(&mut s, "com.a");
    assert!(declaration::all(&s).is_empty());
    assert!(domains(&s).is_empty());
    assert!(!is_declared_permission(&s, "weather.read"));
    declare(&mut s, "com.b", &[("weather.fetch", "weather.read", "ask")]);
    assert_eq!(domains(&s)[0].plugin_id.as_deref(), Some("com.b"));
}

#[test]
fn conflicting_provider_detects_mapping_drift() {
    let mut s = DeclarationStore::new();
    declare(&mut s, "com.a", &[("weather.fetch", "weather.read", "ask")]);
    assert_eq!(
        conflicting_provider(&s, "weather.fetch", "weather.read2", "ask", "com.b"),
        Some("com.a".to_string())
    );
    assert_eq!(
        conflicting_provider(&s, "weather.fetch", "weather.read", "ask", "com.b"),
        None
    );
    assert_eq!(
        conflicting_provider(&s, "weather.fetch", "weather.read2", "ask", "com.a"),
        None
    );
}

#[test]
fn the_strictest_default_counts() {
    let mut s = DeclarationStore::new();
    declare(
        &mut s,
        "com.a",
        &[("weather.fetch", "weather.read", "granted"), ("weather.alerts", "weather.read", "denied")],
    );
    assert_eq!(declared_default(&s, "weather.read"), Some(Decision::Denied));
    let defaults = declared_permission_defaults(&s);
    assert_eq!(defaults.len(), 1);
    assert_eq!(defaults[0].decision, Decision::Denied);
    assert_eq!(declared_permission_set(&s), vec!["weather.read".to_string()]);
    assert_eq!(declared_capability_ids(&s).len(), 2);
    assert_eq!(for_capability(&s, "weather.fetch").len(), 1);
    assert_eq!(parse_decision("granted"), Decision::Granted);
    assert_eq!(parse_decision("whatever"), Decision::Denied);
    assert_eq!(first_segment("weather.fetch"), "weather");
}

#[test]
fn providers_are_tried_until_one_answers() {
    let store = core_with(vec![provider("image.analyze", "com.a", 1), provider("image.analyze", "com.b", 2)]);
    let (effects, start) = begin(&words(), Some(&store), "image.analyze", "agent-1", None, &json("{}"));
    assert_eq!(effects.len(), 1);
    let mut run = match start {
        Start::Plugins(run) => run,
        other => panic!("expected plugins, got {:?}", other),
    };
    let first = run.next_provider().unwrap().to_string();
    assert!(run.permitted(Some(Decision::Granted)));
    assert!(!run.permitted(Some(Decision::Ask)));
    assert!(!run.permitted(None));
    assert!(matches!(run.next_move(Finding::Gate(Some(Decision::Granted))), Move::CheckScope));
    assert!(matches!(run.next_move(Finding::Gate(Some(Decision::Ask))), Move::Leave(ProviderEvent::Denied)));
    assert!(matches!(run.next_move(Finding::Gate(None)), Move::Leave(ProviderEvent::Denied)));
    assert!(matches!(run.next_move(Finding::Scope(None)), Move::EnsureRunning));
    let denial = ScopeDenial { layer: "plugin".into(), path: "/x".into() };
    assert!(matches!(
        run.next_move(Finding::Scope(Some(denial))),
        Move::Leave(ProviderEvent::ScopeDenied { layer }) if layer == "plugin"
    ));
    assert!(matches!(
        run.next_move(Finding::Running(Err("down".into()))),
        Move::Leave(ProviderEvent::NotRunning { error }) if error == "down"
    ));
    assert!(matches!(run.next_move(Finding::Running(Ok(()))), Move::Call));
    let failed = run.step(&ProviderEvent::Failed { error: "timeout after 60s".into(), elapsed: 60 });
    assert!(matches!(&failed[0], Effect::Failure { result, .. } if result == "timeout"));
    let second = run.next_provider().unwrap().to_string();
    assert_ne!(first, second);
    let answered = run.step(&ProviderEvent::Answered { elapsed: 4 });
    assert!(matches!(&answered[0], Effect::Answer { elapsed: 4, .. }));
    assert!(matches!(&answered[1], Effect::Publish { kind, .. } if kind == "capability.completed"));
}

#[test]
fn a_missing_permission_is_named_at_the_end() {
    let store = core_with(vec![provider("image.analyze", "com.a", 1)]);
    let (_, start) = begin(&words(), Some(&store), "image.analyze", "agent-1", None, &json("{}"));
    let mut run = match start {
        Start::Plugins(run) => run,
        other => panic!("expected plugins, got {:?}", other),
    };
    run.step(&ProviderEvent::Denied);
    assert!(run.next_provider().is_none());
    let (event, error) = run.conclude();
    assert_eq!(error, "plugin_permission_denied:image.read");
    assert!(matches!(event, Effect::Publish { kind, .. } if kind == "capability.failed"));

    let (_, start) = begin(&words(), Some(&store), "image.analyze", "agent-1", None, &json("{}"));
    if let Start::Plugins(mut run) = start {
        run.step(&ProviderEvent::NotRunning { error: "exited".into() });
        assert_eq!(run.conclude().1, "capability_failed");
    }
}

#[test]
fn scopes_and_sizes_refuse_a_call() {
    let store = core_with(vec![provider("image.analyze", "com.a", 1)]);
    let denied = ScopeDenial { layer: "agent".into(), path: "/etc".into() };
    let (effects, start) =
        begin(&words(), Some(&store), "image.analyze", "agent-1", Some(&denied), &json("{}"));
    assert_eq!(effects.len(), 3);
    assert!(matches!(start, Start::Refused(e) if e == "scope_denied:agent:image.read"));
    let (_, start) =
        begin_sized(&words(), Some(&store), "image.analyze", "agent-1", None, MAX_INPUT_BYTES + 1);
    assert!(matches!(start, Start::Refused(e) if e == "payload_too_large"));
    let (_, start) =
        begin_sized(&words(), Some(&store), "image.analyze", "agent-1", None, MAX_INPUT_BYTES);
    assert!(matches!(start, Start::Plugins(_)));
    let big = empty_object().with("x", text_value(&"y".repeat(MAX_INPUT_BYTES)));
    let (_, start) = begin(&words(), Some(&store), "image.analyze", "agent-1", None, &big);
    assert!(matches!(start, Start::Refused(e) if e == "payload_too_large"));
}
