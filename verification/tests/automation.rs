use opencapx::alerting::routes::trial_payload;
use opencapx::alerting::store::Table;
use opencapx::automation::{CommandAnswer, Deed, RULE_COOLDOWN, RuleCommand, add_rule, answer_command, cooled_down, fire, read_rules, remove_rule, rules_file, rules_in, run_rules, set_enabled_in, set_rule_enabled, validate_rule};
use opencapx::automation;
use opencapx::event::OpencapxEvent;
use opencapx::json::Json;

fn json(text: &str) -> Json {
    trial_payload(text).unwrap()
}

fn ev(kind: &str, payload: Json) -> OpencapxEvent {
    OpencapxEvent::new(kind, "test", payload, 1, 1, 1)
}

#[test]
fn match_event_type_and_fields() {
    let e = ev(
        "capability.event",
        json(r#"{ "subscriptionId": "s1", "capability": "file.watch", "event": "created", "path": "/Users/x/Downloads/a.pdf" }"#),
    );
    assert!(automation::matches(&json(r#"{"event": "capability.event"}"#), &e));
    assert!(!automation::matches(&json(r#"{"event": "agent.started"}"#), &e));
    assert!(automation::matches(
        &json(r#"{"event": "capability.event", "match": {"capability": "file.watch", "event": "created"}}"#),
        &e
    ));
    assert!(!automation::matches(
        &json(r#"{"event": "capability.event", "match": {"event": "modified"}}"#),
        &e
    ));
    assert!(!automation::matches(&json(r#"{"event": "capability.event", "match": {"nope": 1}}"#), &e));
}

#[test]
fn match_contains_for_paths() {
    let e = ev(
        "capability.event",
        json(r#"{ "capability": "file.watch", "path": "/Users/x/Downloads/new.pdf" }"#),
    );
    assert!(automation::matches(
        &json(r#"{"event": "capability.event", "match": {"path_contains": "/Downloads/"}}"#),
        &e
    ));
    assert!(!automation::matches(
        &json(r#"{"event": "capability.event", "match": {"path_contains": "/Documents/"}}"#),
        &e
    ));
    assert!(!automation::matches(
        &json(r#"{"event": "capability.event", "match": {"path_contains": 5}}"#),
        &e
    ));
}

#[test]
fn rule_validation_shapes() {
    let ok = validate_rule(
        &json(r#"{"event": "capability.event", "match": {"path_contains": "/Downloads/"}}"#),
        &json(r#"{"action": "notify", "title": "New file", "body": "Downloads has a new file"}"#),
        77,
    )
    .unwrap();
    assert!(ok.text_at("id").unwrap().starts_with("rule-"));
    assert_eq!(ok.bool_at("enabled"), Some(true));
    assert!(validate_rule(&json("{}"), &json(r#"{"action": "notify", "body": "x"}"#), 1)
        .unwrap_err()
        .contains("when.event"));
    assert!(validate_rule(&json(r#"{"event": "x"}"#), &json(r#"{"action": "shell"}"#), 1)
        .unwrap_err()
        .contains("unknown then.action"));
    assert!(validate_rule(&json(r#"{"event": "x"}"#), &json(r#"{"action": "notify"}"#), 1)
        .unwrap_err()
        .contains("body"));
    assert!(validate_rule(&json(r#"{"event": "x"}"#), &json(r#"{"action": "say"}"#), 1)
        .unwrap_err()
        .contains("text"));
}

#[test]
fn set_enabled_toggles_and_misses() {
    let mut rules = vec![json(
        r#"{ "id": "r1", "enabled": true, "when": {"event": "x"}, "then": {"action": "say", "text": "y"} }"#,
    )];
    let set = set_enabled_in(&mut rules, "r1", false).unwrap();
    assert_eq!(set.bool_at("enabled"), Some(false));
    assert_eq!(rules[0].bool_at("enabled"), Some(false));
    assert!(set_enabled_in(&mut rules, "nope", true).is_none());
    assert!(set_rule_enabled(&mut rules, "nope", true).is_err());
}

#[test]
fn add_remove_roundtrip_on_temp_file() {
    assert!(read_rules("").is_empty());
    let mut rules = vec![];
    let rule = add_rule(
        &mut rules,
        &json(r#"{"event": "agent.completed"}"#),
        &json(r#"{"action": "say", "text": "All done"}"#),
        9,
    )
    .unwrap();
    let id = rule.text_at("id").unwrap().to_string();
    let back = rules_in(&rules_file(rules));
    assert_eq!(back.len(), 1);
    assert_eq!(back[0].text_at("id"), Some(id.as_str()));
    let mut rules = back;
    assert!(remove_rule(&mut rules, &id));
    assert!(!remove_rule(&mut rules, &id));
    assert!(rules.is_empty());
    assert!(read_rules("{broken").is_empty());
    assert_eq!(read_rules(r#"{"rules": [{"id": "r1"}]}"#).len(), 1);
}

#[test]
fn rule_cooldown_window() {
    let mut fired = Table::new();
    assert!(cooled_down(&mut fired, "rule-cool", 10), "first trigger allowed");
    assert!(!cooled_down(&mut fired, "rule-cool", 11), "second one within the window blocked");
    assert!(cooled_down(&mut fired, "rule-other", 11));
    assert!(cooled_down(&mut fired, "rule-cool", 10 + RULE_COOLDOWN));
}

#[test]
fn a_rule_says_notifies_or_is_skipped() {
    let said = fire("r1", &json(r#"{"action": "say", "text": "hi"}"#), "agent.completed");
    assert!(matches!(&said.deed, Deed::Say { text } if text == "hi"));
    assert_eq!(said.first.payload.text_at("text"), Some("hi"));
    let told = fire("r2", &json(r#"{"action": "notify", "body": "b"}"#), "agent.completed");
    assert!(matches!(&told.deed, Deed::Notify { body, .. } if body == "b"));
    let odd = fire("r3", &json(r#"{"action": "dance"}"#), "agent.completed");
    assert!(matches!(odd.deed, Deed::Nothing));
}

#[test]
fn only_rules_that_are_on_and_fit_fire() {
    let rules = vec![
        json(r#"{"id": "on", "enabled": true, "when": {"event": "x"}, "then": {"action": "say", "text": "1"}}"#),
        json(r#"{"id": "off", "enabled": false, "when": {"event": "x"}, "then": {"action": "say", "text": "2"}}"#),
        json(r#"{"id": "else", "enabled": true, "when": {"event": "y"}, "then": {"action": "say", "text": "3"}}"#),
    ];
    let mut fired = Table::new();
    let e = ev("x", json("{}"));
    let first = run_rules(&rules, &mut fired, &e, 100);
    assert_eq!(first.len(), 1);
    assert!(matches!(&first[0].deed, Deed::Say { text } if text == "1"));
    assert!(run_rules(&rules, &mut fired, &e, 101).is_empty());
    assert_eq!(run_rules(&rules, &mut fired, &e, 100 + RULE_COOLDOWN).len(), 1);
}

#[test]
fn commands_list_add_and_remove() {
    let mut rules = vec![];
    let bad = answer_command(&mut rules, &RuleCommand::Add { spec: "{bad".into() }, 5);
    assert!(matches!(&bad, CommandAnswer::Refused(e) if e == "bad JSON: {bad"));
    assert_eq!(bad.exit_code(), 1);
    let half = answer_command(&mut rules, &RuleCommand::Add { spec: "{}".into() }, 5);
    assert!(matches!(&half, CommandAnswer::Refused(e) if e.contains("when.event")));
    let spec = r#"{"when": {"event": "x"}, "then": {"action": "say", "text": "y"}}"#;
    let added = answer_command(&mut rules, &RuleCommand::Add { spec: spec.into() }, 255);
    assert!(matches!(&added, CommandAnswer::Shown(rule) if rule.text_at("id") == Some("rule-ff")));
    assert_eq!(added.exit_code(), 0);
    let listed = answer_command(&mut rules, &RuleCommand::List, 6);
    assert!(matches!(&listed, CommandAnswer::Shown(doc) if rules_in(doc).len() == 1));
    let gone = answer_command(&mut rules, &RuleCommand::Remove { id: "rule-ff".into() }, 7);
    assert!(matches!(&gone, CommandAnswer::Said(line) if line == "removed rule-ff"));
    let again = answer_command(&mut rules, &RuleCommand::Remove { id: "rule-ff".into() }, 8);
    assert!(matches!(&again, CommandAnswer::Refused(e) if e == "no such rule: rule-ff"));
}
