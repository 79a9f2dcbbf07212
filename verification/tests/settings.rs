use opencapx::alerting::routes::trial_payload;
use opencapx::backup::{Cell, SettingsFile, TableDump, backup_tables, check_backup, count_tables, created_meta, describe_backup, dump_cell, dump_row, is_backup_name, list_backups, plan_table, read_integer, read_plugin_configs, report_restore, restore_cell, restores_hotkeys, restores_table, take_snapshot};
use opencapx::config::{ConfigRequest, PluginConfigEntry, check_secret_key, config_file_name, get_secret, list_plugins, plugin_of_file, read_settings, secret_receipt, secret_reply, secret_user, serve, valid_secret_key};
use opencapx::config;
use opencapx::json::Json;
use opencapx::values::text_value;

fn json(text: &str) -> Json {
    trial_payload(text).unwrap()
}

/// The settings of one plugin, in memory.
struct Settings {
    members: Vec<(String, Json)>,
}

impl Settings {
    fn new() -> Self {
        Settings { members: read_settings(None) }
    }

    fn ask(&mut self, op: &str, params: &str) -> Result<Option<Json>, String> {
        let request = config::dispatch(op, &json(params))?;
        let served = serve(std::mem::take(&mut self.members), &request);
        self.members = served.settings;
        Ok(served.reply)
    }
}

#[test]
fn all_in_empty_returns_empty_object() {
    assert!(read_settings(None).is_empty());
    assert!(read_settings(Some("{broken")).is_empty());
    assert!(read_settings(Some("[1]")).is_empty());
}

#[test]
fn set_then_get_roundtrips() {
    let map = read_settings(Some(r#"{"k": "v"}"#));
    assert_eq!(config::get(&Json::Object(map), "k", &Json::Null).as_text(), Some("v"));
}

#[test]
fn sanitize_strips_path_traversal() {
    let name = config_file_name("../escape");
    assert!(name.contains("__escape") || name.contains("_escape"));
    assert!(!name.contains(".."));
    assert!(!name.contains('/'));
}

#[test]
fn dispatch_get_returns_default_when_missing() {
    let mut s = Settings::new();
    let got = s.ask("get", r#"{"key": "missing", "default": 42}"#).unwrap();
    assert_eq!(got, Some(json("42")));
}

#[test]
fn dispatch_set_then_get_roundtrips() {
    let mut s = Settings::new();
    s.ask("set", r#"{"key": "apiKey", "value": "secret-123"}"#).unwrap();
    let got = s.ask("get", r#"{"key": "apiKey"}"#).unwrap();
    assert_eq!(got, Some(text_value("secret-123")));
}

#[test]
fn dispatch_delete_removes_key() {
    let mut s = Settings::new();
    s.ask("set", r#"{"key": "a", "value": 1}"#).unwrap();
    s.ask("delete", r#"{"key": "a"}"#).unwrap();
    let got = s.ask("get", r#"{"key": "a", "default": null}"#).unwrap();
    assert_eq!(got, Some(Json::Null));
}

#[test]
fn dispatch_all_lists_keys() {
    let mut s = Settings::new();
    s.ask("set", r#"{"key": "a", "value": 1}"#).unwrap();
    s.ask("set", r#"{"key": "b", "value": "two"}"#).unwrap();
    let all = s.ask("all", "{}").unwrap().unwrap();
    assert_eq!(all.member("a"), Some(&json("1")));
    assert_eq!(all.member("b"), Some(&text_value("two")));
}

#[test]
fn secret_round_trip_via_dispatch_fallback() {
    let set = config::dispatch("set", &json(r#"{"key": "secret:token", "value": "abc123"}"#)).unwrap();
    assert!(matches!(&set, ConfigRequest::SetSecret { key, value } if key == "token" && value == "abc123"));
    assert_eq!(secret_receipt(), text_value("********"));
    assert_eq!(secret_user("com.test.secret", "token"), "plugin-secret:com.test.secret:token");
    assert_eq!(secret_reply(Some("abc123"), &Json::Null), text_value("abc123"));
    assert_eq!(secret_reply(None, &text_value("fallback")), text_value("fallback"));
    let served = serve(read_settings(None), &set);
    assert!(served.settings.is_empty());
    assert!(!served.changed);
    let gone = config::dispatch("delete", &json(r#"{"key": "secret:token"}"#)).unwrap();
    assert!(matches!(gone, ConfigRequest::DeleteSecret { key } if key == "token"));
}

#[test]
fn secret_value_must_be_string() {
    let err = config::dispatch("set", &json(r#"{"key": "secret:x", "value": 42}"#)).unwrap_err();
    assert!(err.contains("string"), "got: {}", err);
}

#[test]
fn secrets_come_from_the_keychain_or_the_file() {
    let kept = Some("abc".to_string());
    assert_eq!(get_secret("token", Ok(kept.clone()), None), kept);
    assert_eq!(get_secret("token", Ok(None), kept.clone()), None);
    assert_eq!(get_secret("token", Err("locked".into()), kept.clone()), kept);
    assert_eq!(get_secret("no/name", Ok(kept.clone()), kept), None);
}

#[test]
fn settings_requests_are_refused_with_reasons() {
    assert_eq!(config::dispatch("get", &json("{}")).unwrap_err(), "config.get requires params.key");
    assert_eq!(config::dispatch("set", &json("{}")).unwrap_err(), "config.set requires params.key");
    assert_eq!(config::dispatch("delete", &json("{}")).unwrap_err(), "config.delete requires params.key");
    assert_eq!(config::dispatch("zap", &json("{}")).unwrap_err(), "unknown config op zap");
    assert_eq!(
        config::dispatch("set", &json(r#"{"key": "secret:a\tb", "value": "v"}"#)).unwrap_err(),
        "invalid secret key \"a\\tb\""
    );
    assert!(check_secret_key("token").is_ok());
    assert!(valid_secret_key("api-key_1"));
    assert!(!valid_secret_key(""));
    assert!(matches!(config::dispatch("list", &json("{}")), Ok(ConfigRequest::List)));
    assert!(config::replace(&json("[1]")).is_err());
    assert_eq!(config::replace(&json(r#"{"k": 1}"#)).unwrap(), json(r#"{"k": 1}"#));
}

#[test]
fn settings_files_name_their_plugins() {
    assert_eq!(plugin_of_file("com.x.json").as_deref(), Some("com.x"));
    assert_eq!(plugin_of_file("notes.txt"), None);
    let files = ["b.json".to_string(), "a.json".to_string(), "x.txt".to_string()];
    assert_eq!(list_plugins(&files), vec!["a".to_string(), "b".to_string()]);
}

fn dump(name: &str, rows: Vec<Vec<Json>>) -> TableDump {
    TableDump { name: name.into(), rows }
}

#[test]
fn snapshot_round_trips_through_apply() {
    let channel = dump_row(&vec![
        Cell::Text("plug-x".into()),
        Cell::Text("beta".into()),
        Cell::Integer(100),
    ]);
    let setting = dump_row(&vec![Cell::Text("defaultChannel".into()), Cell::Text("dev".into())]);
    let entry = PluginConfigEntry {
        id: "plug-x".into(),
        config: json(r#"{"theme": "dark", "limit": 5}"#),
    };
    let snap = take_snapshot(
        vec![dump("plugin_channel", vec![channel]), dump("settings_kv", vec![setting])],
        vec![entry],
        vec![],
        1_700_000_000,
        "0.1.0",
    );
    assert_eq!(snap.tables[0].rows.len(), 1);
    assert_eq!(snap.tables[1].rows.len(), 1);
    assert!(snap.plugin_configs.iter().any(|e| e.id == "plug-x"));

    let plan = plan_table("plugin_channel", &snap.tables[0].rows);
    assert!(plan.error.is_none());
    assert!(plan.clear.contains("plugin_channel"));
    assert_eq!(plan.rows.len(), 1);
    assert!(matches!(&plan.rows[0][1], Cell::Text(t) if t == "beta"));
    assert!(matches!(plan.rows[0][2], Cell::Integer(100)));
    let report = report_restore("backup-1.json", count_tables(&snap.tables), &snap);
    assert_eq!(report.table_counts[0].count, 1);
    assert_eq!(report.plugin_config_count, 1);
    assert_eq!(report.filename, "backup-1.json");
    assert!(backup_tables().iter().any(|t| t == "plugin_channel"));
}

#[test]
fn create_and_list_backup_round_trip() {
    let snap = take_snapshot(vec![], vec![], vec![], 1_700_000_000, "0.1.0");
    let meta = created_meta(&snap, 12);
    assert!(meta.size_bytes > 0);
    assert!(meta.filename.starts_with("backup-"));
    let older = describe_backup("backup-1.json", 3, None);
    let listed = list_backups(vec![older, describe_backup(&meta.filename, 12, Some(&snap))]);
    assert_eq!(listed[0].filename, meta.filename);
    assert_eq!(listed[1].filename, "backup-1.json");
}

#[test]
fn path_traversal_rejected() {
    let check = |name: &str, there: bool| check_backup(name, is_backup_name(name), there);
    assert_eq!(check("../etc/passwd", true), Err("path traversal rejected".to_string()));
    assert_eq!(check("..", true), Err("path traversal rejected".to_string()));
    assert_eq!(check(".", true), Err("path traversal rejected".to_string()));
    assert_eq!(check("", true), Err("path traversal rejected".to_string()));
    assert_eq!(check("a\\b.json", true), Err("path traversal rejected".to_string()));
    assert_eq!(check("/etc/passwd", true), Err("path traversal rejected".to_string()));
    assert_eq!(check("backup-1.json", false), Err("backup not found: backup-1.json".to_string()));
    assert_eq!(check("backup-1.json", true), Ok(()));
    assert_eq!(check("..backup.json", true), Ok(()));
}

#[test]
fn fields_come_back_from_a_dump() {
    assert!(matches!(restore_cell(&dump_cell(&Cell::Null)), Cell::Null));
    assert!(matches!(restore_cell(&dump_cell(&Cell::Integer(-5))), Cell::Integer(-5)));
    assert!(matches!(restore_cell(&dump_cell(&Cell::Real("2.5".into()))), Cell::Real(t) if t == "2.5"));
    assert!(matches!(restore_cell(&dump_cell(&Cell::Text("t".into()))), Cell::Text(t) if t == "t"));
    assert_eq!(read_integer("-9223372036854775808"), Some(i64::MIN));
    assert_eq!(read_integer("9223372036854775808"), None);
    let uneven = plan_table("t", &vec![vec![json("1"), json("2")], vec![json("3")]]);
    assert!(uneven.error.is_some());
    assert_eq!(uneven.rows.len(), 1);
    assert!(plan_table("t", &vec![]).insert.is_none());
}

#[test]
fn hotkeys_are_restored_where_there_are_some() {
    let with = take_snapshot(vec![], vec![], vec![json(r#"{"combo": "CmdOrCtrl+Shift+P"}"#)], 1, "0.1.0");
    assert!(restores_hotkeys(&with));
    assert!(!restores_hotkeys(&take_snapshot(vec![], vec![], vec![], 1, "0.1.0")));
}

#[test]
fn backups_take_settings_from_files() {
    let file = |name: &str, text: &str| SettingsFile { name: name.into(), text: text.into() };
    let taken = read_plugin_configs(&vec![
        file("com.acme.tts.json", r#"{"voice": "a"}"#),
        file("notes.txt", "{}"),
        file(".json", "{}"),
        file("empty.json", " "),
        file("broken.json", "{"),
    ]);
    assert_eq!(taken.len(), 2);
    assert_eq!(taken[0].id, "com.acme.tts");
    assert_eq!(taken[0].config, json(r#"{"voice": "a"}"#));
    assert_eq!(taken[1].id, "broken");
    assert_eq!(taken[1].config, Json::Null);
}

#[test]
fn history_is_not_restored() {
    for table in backup_tables() {
        assert!(restores_table(&table));
    }
    assert!(!restores_table("events"));
    assert!(!restores_table("sessions"));
    assert!(!restores_table("capability_stats"));
}
