use opencapx::alerting::routes::trial_payload;
use opencapx::event::{OpencapxEvent, SessionNote, agent_event_type, ingest, rule_audit, say_payload};
use opencapx::event_replay::{events_to_replay, list_sessions, read_session, session_id_at, summarize_session};
use opencapx::json::Json;

fn json(text: &str) -> Json {
    trial_payload(text).unwrap()
}

fn note(id: &str, agent: &str, state: &str, message: &str) -> SessionNote {
    SessionNote {
        id: id.into(),
        agent: agent.into(),
        state: state.into(),
        message: message.into(),
        model: "".into(),
        speech: "".into(),
        cwd: "".into(),
    }
}

fn at(kind: &str, ts: u64) -> OpencapxEvent {
    OpencapxEvent::new(kind, "core", json(r#"{"x": 1}"#), ts, ts, ts)
}

#[test]
fn event_ids_are_unique_in_tight_loop() {
    let ids: std::collections::HashSet<String> = (0..500)
        .map(|seq| OpencapxEvent::new("t", "s", json("{}"), 1_000, seq, 1).id)
        .collect();
    assert_eq!(ids.len(), 500, "ids must be unique within the process");
    assert_eq!(ids.iter().next().unwrap().split('-').count(), 3);
}

#[test]
fn agent_event_type_mapping() {
    assert_eq!(agent_event_type("working"), "agent.working");
    assert_eq!(agent_event_type("waiting"), "agent.waiting");
    assert_eq!(agent_event_type("done"), "agent.completed");
    assert_eq!(agent_event_type("idle"), "agent.started");
}

#[test]
fn ingest_stores_without_handle() {
    let done = ingest(note("s", "codex", "working", "running tool"), None, None);
    assert_eq!(done.session.message, "running tool");
    assert_eq!(done.kind, "agent.working");
    assert_eq!(done.source, "hooks:codex");
}

#[test]
fn ingest_done_state_publishes_agent_completed() {
    let done = ingest(note("s", "codex", "done", "All set."), None, None);
    assert_eq!(done.kind, "agent.completed");
    assert_eq!(done.source, "hooks:codex");
    assert_eq!(done.session.state, "done");
    assert!(done.notify);
}

#[test]
fn ingest_keeps_speech_sticky_across_events() {
    let mut before = ingest(note("sticky", "codex", "working", "Read a.ts"), None, None).session;
    before.speech = "Let me check the render path first.".into();
    let after = ingest(note("sticky", "codex", "working", "Edit b.ts"), Some(&before), None).session;
    assert_eq!(after.message, "Edit b.ts");
    assert_eq!(
        after.speech, "Let me check the render path first.",
        "the body must not be wiped by the following event"
    );
}

#[test]
fn ingest_keeps_cwd_sticky_across_events() {
    let mut first = note("cwd-sticky", "codex", "working", "Read a.ts");
    first.cwd = "/Users/me/work/OpenCapX".into();
    let before = ingest(first, None, None).session;
    let after = ingest(note("cwd-sticky", "codex", "working", "Edit b.ts"), Some(&before), None).session;
    assert_eq!(after.cwd, "/Users/me/work/OpenCapX");
}

#[test]
fn hook_trace_archives_under_caller_agent_id() {
    let caller = ingest(note("s-caller", "codex", "working", "hi"), None, Some("ag_x_01"));
    assert_eq!(caller.filed_under, "ag_x_01", "viewer key hits");
    assert_eq!(caller.kind, "agent.working");
    let anonymous = ingest(note("s-anon", "aider", "done", "bye"), None, None);
    assert_eq!(anonymous.filed_under, "aider", "anonymous falls back to kind");
}

#[test]
fn users_are_told_of_changes_only() {
    let before = note("s", "codex", "done", "");
    assert!(!ingest(note("s", "codex", "done", ""), Some(&before), None).notify);
    assert!(ingest(note("s", "codex", "waiting", ""), Some(&before), None).notify);
    assert!(!ingest(note("s", "codex", "working", ""), Some(&before), None).notify);
}

#[test]
fn rule_audit_publishes_applied_event() {
    let payload = rule_audit(
        r#"{"agent":"codex","__rule":"sandbox-curl","tool_input":{"command":"curl x"}}"#,
        "unknown",
    )
    .expect("rule.applied");
    assert_eq!(payload.text_at("ruleId"), Some("sandbox-curl"));
    assert_eq!(payload.text_at("agent"), Some("codex"));
    assert_eq!(payload.text_at("command"), Some("curl x"));
}

#[test]
fn rule_audit_silent_without_rule_field() {
    assert!(rule_audit(r#"{"agent":"codex"}"#, "unknown").is_none());
    assert!(rule_audit("not json", "unknown").is_none());
}

#[test]
fn rule_audit_falls_back_to_default_agent() {
    let payload = rule_audit(r#"{"__rule":"r1"}"#, "fallback").expect("rule.applied");
    assert_eq!(payload.text_at("agent"), Some("fallback"));
}

#[test]
fn rule_audit_carries_reason_when_present() {
    let payload = rule_audit(
        r#"{"agent":"opencapx","__rule":"sandbox.unguarded","reason":"no backend","tool_input":{"command":"sh x.sh"}}"#,
        "unknown",
    )
    .expect("rule.applied");
    assert_eq!(payload.text_at("reason"), Some("no backend"));
}

#[test]
fn what_is_said_is_published() {
    assert_eq!(say_payload("hello").text_at("text"), Some("hello"));
}

#[test]
fn record_writes_ndjson_and_lists_sessions() {
    let events = vec![
        at("plugin.lifecycle.starting", 100),
        at("plugin.lifecycle.running", 101),
        at("capability.completed", 200),
    ];
    let times = events.iter().map(|e| e.timestamp).collect();
    let s = summarize_session("session-1", 3, &times);
    assert_eq!(s.line_count, 3);
    assert_eq!(s.started_at, 100);
    assert_eq!(s.ended_at, Some(200));
    assert!(s.size_bytes > 0);
    let read = read_session(&events, 100);
    assert_eq!(read.len(), 3);
    assert_eq!(read[0].kind, "plugin.lifecycle.starting");
    assert_eq!(read[2].kind, "capability.completed");
    let read2 = read_session(&events, 2);
    assert_eq!(read2.len(), 2, "limit=2 must return the 2 most recent");
    assert_eq!(read2[0].kind, "plugin.lifecycle.running");
    assert_eq!(read2[1].kind, "capability.completed");
}

#[test]
fn later_sessions_are_listed_first() {
    let early = summarize_session(&session_id_at(50, 7), 1, &vec![50]);
    let late = summarize_session(&session_id_at(90, 7), 1, &vec![90, 95]);
    let listed = list_sessions(vec![early, late]);
    assert_eq!(listed[0].started_at, 90);
    assert_eq!(listed[1].started_at, 50);
    let empty = summarize_session("none", 0, &vec![]);
    assert_eq!(empty.line_count, 0);
    assert_eq!(empty.ended_at, None);
}

#[test]
fn replay_to_bus_filters_by_kind() {
    let events = vec![
        at("plugin.lifecycle.starting", 100),
        at("capability.completed", 200),
        at("capability.failed", 300),
    ];
    assert_eq!(events_to_replay(&events, None).len(), 3);
    let only = events_to_replay(&events, Some("capability."));
    assert_eq!(only.len(), 2);
    assert_eq!(only[0].kind, "capability.completed");
}
