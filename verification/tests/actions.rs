use opencapx::alerting::routes::trial_payload;
use opencapx::appctl::{Watch, applescript_for, plan_run, run_outcome, watch};
use opencapx::audio::{FileFact, VolumeFact, check_windows, play_outcome, played, sound_script};
use opencapx::browser::{READ_BODY_CAP, TEXT_CAP, check_response, extract_text, open_outcome, page_url, read_page, scheme_url, strip_script_style, validate_http_url, validate_scheme_url};
use opencapx::clipboard::{content, text_to_write};
use opencapx::context::{CLIPBOARD_CAP, cap_clipboard, current, parse_applescript, parse_lsappinfo_bundle};
use opencapx::files::{Entry, FILE_READ_CAP, FileSearch, SEARCH_CAP, check_file, file_content, file_path, read_answer, write_answer};
use opencapx::json::Json;
use opencapx::values::{empty_object, text_value};
use opencapx::{appctl, audio};

fn json(text: &str) -> Json {
    trial_payload(text).unwrap()
}

#[test]
fn validates_app_action_script() {
    assert!(appctl::validate(&json(r#"{ "app": "Safari" }"#)).is_ok());
    let asked = appctl::validate(&json(r#"{ "app": "Safari" }"#)).unwrap();
    assert_eq!(asked.app, "Safari");
    assert_eq!(asked.action, "activate", "default action");
    assert!(asked.script.is_none());
    let quit = appctl::validate(&json(r#"{ "app": "Safari", "action": "quit" }"#)).unwrap();
    assert_eq!(quit.action, "quit");
    assert!(appctl::validate(&json("{}")).unwrap_err().contains("app"));
    assert!(appctl::validate(&json(r#"{ "app": "" }"#)).unwrap_err().contains("non-empty"));
    assert!(appctl::validate(&json(r#"{ "app": "Sa\"fari" }"#)).unwrap_err().contains("quotes"));
    assert!(appctl::validate(&json(r#"{ "app": "Sa\nfari" }"#)).unwrap_err().contains("quotes"));
    let long = empty_object().with("app", text_value(&"x".repeat(257)));
    assert!(appctl::validate(&long).unwrap_err().contains("256"));
    assert!(appctl::validate(&json(r#"{ "app": "S", "action": "destroy" }"#))
        .unwrap_err()
        .contains("activate|launch|quit"));
    let script = empty_object()
        .with("app", text_value("S"))
        .with("script", text_value(&"x".repeat(10_001)));
    assert!(appctl::validate(&script).unwrap_err().contains("10"));
}

#[test]
fn applescript_variants() {
    assert_eq!(
        applescript_for("com.apple.Safari", "activate", &None),
        "tell application id \"com.apple.Safari\" to activate"
    );
    assert_eq!(
        applescript_for("Safari", "quit", &None),
        "tell application \"Safari\" to quit"
    );
    let s = applescript_for("Safari", "activate", &Some("count windows".into()));
    assert!(s.starts_with("tell application \"Safari\"\ncount windows\nend tell"));
}

#[test]
fn run_reports_platform_limit() {
    assert!(plan_run(&json(r#"{ "app": "X" }"#), false)
        .unwrap_err()
        .contains("macOS-only"));
}

#[test]
fn a_run_becomes_one_script() {
    let script = plan_run(&json(r#"{ "app": "com.apple.Mail", "action": "launch" }"#), true).unwrap();
    assert_eq!(script, "tell application id \"com.apple.Mail\" to launch");
    assert!(plan_run(&json("{}"), true).unwrap_err().contains("app"));
}

#[test]
fn quotes_of_a_script_hold_the_name() {
    let script = plan_run(&json(r#"{ "app": "Text Edit", "action": "quit" }"#), true).unwrap();
    assert_eq!(script.matches('"').count(), 2);
}

#[test]
fn a_failed_run_says_why() {
    let answer = run_outcome(true, Some(0), "3\n", "").unwrap();
    assert_eq!(answer.member("ok"), Some(&Json::Bool(true)));
    let error = run_outcome(false, Some(1), "", "not running").unwrap_err();
    assert!(error.contains("1") && error.contains("not running"), "{}", error);
}

#[test]
fn validates_path_volume_ext() {
    let wav = json(r#"{ "path": "/music/a.wav" }"#);
    assert!(audio::validate(&wav, &FileFact::File, VolumeFact::Absent).is_ok());
    let play = audio::validate(&wav, &FileFact::File, VolumeFact::Absent).unwrap();
    assert_eq!(play.path, "/music/a.wav");
    assert!(!play.wait, "default is not to wait for completion");
    let waiting = json(r#"{ "path": "/music/a.wav", "volume": 0.5, "wait": true }"#);
    assert!(audio::validate(&waiting, &FileFact::File, VolumeFact::Within).unwrap().wait);
    assert!(audio::validate(&json("{}"), &FileFact::File, VolumeFact::Absent)
        .unwrap_err()
        .contains("path"));
    assert!(audio::validate(&json(r#"{ "path": "" }"#), &FileFact::File, VolumeFact::Absent)
        .unwrap_err()
        .contains("non-empty"));
    let gone = FileFact::Unavailable("not found".into());
    assert!(audio::validate(&wav, &gone, VolumeFact::Absent)
        .unwrap_err()
        .contains("unavailable"));
    assert!(audio::validate(&wav, &FileFact::NotAFile, VolumeFact::Absent)
        .unwrap_err()
        .contains("not a file"));
    let txt = json(r#"{ "path": "/music/b.txt" }"#);
    assert!(audio::validate(&txt, &FileFact::File, VolumeFact::Absent)
        .unwrap_err()
        .contains("unsupported audio extension"));
    assert!(audio::validate(&wav, &FileFact::File, VolumeFact::Outside)
        .unwrap_err()
        .contains("volume"));
}

#[test]
fn windows_plays_wav_at_its_own_volume() {
    assert!(check_windows("a.wav", VolumeFact::Absent).is_ok());
    assert!(check_windows("a.mp3", VolumeFact::Absent).is_err());
    assert!(check_windows("a.wav", VolumeFact::Within).is_err());
}

#[test]
fn paths_are_quoted_in_the_script_of_windows() {
    assert_eq!(
        sound_script("C:\\it's.wav"),
        "$p=New-Object Media.SoundPlayer('C:\\it''s.wav'); $p.PlaySync()"
    );
}

#[test]
fn opening_reports_the_exit_code() {
    assert_eq!(open_outcome(true, Some(0), "").unwrap(), json(r#"{ "ok": true }"#));
    assert_eq!(open_outcome(false, Some(4), "").unwrap_err(), "open failed: exit Some(4)");
    assert_eq!(open_outcome(false, None, " (why?)").unwrap_err(), "open failed: exit None (why?)");
}

#[test]
fn the_end_of_playing_is_told() {
    assert_eq!(played(false), json(r#"{ "ok": true, "waited": false }"#));
    assert_eq!(play_outcome(true, Some(0), "", "").unwrap(), json(r#"{ "ok": true, "waited": true }"#));
    assert!(play_outcome(false, None, "no device", "").unwrap_err().contains("no device"));
}

#[test]
fn validates_url_scheme_length_and_control_chars() {
    assert!(validate_http_url("https://example.com/x?y=1").is_ok());
    assert!(validate_http_url("HTTP://EXAMPLE.COM").is_ok());
    assert!(validate_http_url("file:///etc/passwd").is_err());
    assert!(validate_http_url("javascript:alert(1)").is_err());
    assert!(validate_http_url("ftp://x").is_err());
    assert!(validate_http_url("macos://open").is_err());
    assert!(validate_http_url("").is_err());
    assert!(validate_http_url("https://ex ample.com").is_err());
    assert!(validate_http_url("https://x/\n").is_err());
    assert!(validate_http_url(&format!("https://x/{}", "a".repeat(3000))).is_err());
}

#[test]
fn strips_script_and_style_blocks() {
    let html = r#"<html><style>body{color:red}</style><body>
<script type="text/javascript">var x = "</scr" + "ipt>";</script>
<p>keep me</p>
<SCRIPT>more noise</SCRIPT>
</body></html>"#;
    let out = strip_script_style(html);
    assert!(out.contains("keep me"));
    assert!(!out.to_ascii_lowercase().contains("var x"));
    assert!(!out.to_ascii_lowercase().contains("color:red"));
    assert!(!out.to_ascii_lowercase().contains("more noise"));
    let out2 = strip_script_style("<p>a</p><script>never closed");
    assert!(out2.contains("<p>a</p>"));
    assert!(!out2.contains("never"));
}

#[test]
fn a_page_without_scripts_is_left_alone() {
    let html = "<html><body><p>as it is</p></body></html>";
    assert_eq!(strip_script_style(html), html);
}

#[test]
fn extracts_title_text_and_truncation() {
    let html = r#"<html><head><title>  Hello   Page </title></head>
<body><h1>Heading</h1><p>Some    body text.</p></body></html>"#;
    let page = extract_text(html);
    assert_eq!(page.title, "Hello Page");
    assert_eq!(page.text, "Heading Some body text.");
    assert!(!page.truncated);

    let big = format!("<html><body>{}</body></html>", "word ".repeat(60_000));
    let page = extract_text(&big);
    assert!(page.truncated);
    assert_eq!(page.text.chars().count(), TEXT_CAP);
}

#[test]
fn a_page_is_read_as_title_and_text() {
    let body = "<html><head><title>T</title></head><body><script>x()</script><p>a b</p></body></html>";
    let page = read_page(body).unwrap();
    assert_eq!(page.text_at("title"), Some("T"));
    assert_eq!(page.text_at("text"), Some("a b"));
    assert_eq!(page.bool_at("truncated"), Some(false));
    assert!(read_page(&"x".repeat(READ_BODY_CAP as usize + 1)).unwrap_err().contains("too large"));
    let root = extract_text("just text");
    assert_eq!(root.title, "");
    assert_eq!(root.text, "just text");
}

#[test]
fn only_small_pages_of_text_are_read() {
    assert!(check_response(Some("text/html; charset=utf-8"), Some(10)).is_ok());
    assert!(check_response(None, None).is_ok());
    assert!(check_response(Some("image/png"), Some(10)).is_err());
    assert!(check_response(Some("text/html"), Some(READ_BODY_CAP + 1)).is_err());
}

#[test]
fn validates_scheme_url_allowlist() {
    assert_eq!(validate_scheme_url("mailto:a@b.c").unwrap(), "mailto");
    assert_eq!(validate_scheme_url("zoommtg://join?conf=1").unwrap(), "zoommtg");
    assert_eq!(validate_scheme_url("MACAPPS:something").unwrap(), "macapps");
    for bad in [
        "file:///etc/passwd",
        "javascript:alert(1)",
        "data:text/html,x",
        "vbscript:x",
        "about:blank",
        "blob:https://x",
        "view-source:https://x",
        "chrome://settings",
        "moz-extension://abc",
    ] {
        assert!(validate_scheme_url(bad).is_err(), "{} should be blocked", bad);
    }
    assert!(validate_scheme_url("https://example.com").unwrap_err().contains("browser.open"));
    assert!(validate_scheme_url("mailto").unwrap_err().contains("scheme:rest"));
    assert!(validate_scheme_url("a:b").unwrap_err().contains("2..=30"));
    assert!(validate_scheme_url("1abc:x").unwrap_err().contains("2..=30"));
    assert!(validate_scheme_url(&format!("{}:x", "s".repeat(31))).unwrap_err().contains("2..=30"));
    assert!(validate_scheme_url(&format!("mailto:{}", "a".repeat(3000))).is_err());
    assert!(validate_scheme_url("mail to:x").is_err());
    assert!(validate_scheme_url("mailto:a\n").is_err());
}

#[test]
fn open_scheme_requires_url() {
    let err = scheme_url(&json("{}")).unwrap_err();
    assert!(err.contains("url"), "{}", err);
    assert_eq!(scheme_url(&json(r#"{ "url": "mailto:a@b.c" }"#)).unwrap(), "mailto:a@b.c");
}

#[test]
fn read_requires_url() {
    let err = page_url(&json("{}")).unwrap_err();
    assert!(err.contains("url"), "{}", err);
    assert_eq!(page_url(&json(r#"{ "url": "https://x.y" }"#)).unwrap(), "https://x.y");
}

#[test]
fn write_requires_text() {
    let err = text_to_write(&json("{}")).unwrap_err();
    assert!(err.contains("text"), "{}", err);
    assert_eq!(text_to_write(&json(r#"{ "text": "hi" }"#)).unwrap(), "hi");
}

#[test]
fn a_clipboard_holds_text_or_an_image() {
    assert_eq!(content(Some("hi"), None).text_at("text"), Some("hi"));
    let image = content(None, Some("/tmp/a.png"));
    assert_eq!(image.text_at("text"), Some(""));
    assert_eq!(image.text_at("image"), Some("/tmp/a.png"));
}

#[test]
fn parses_applescript_output() {
    let (app, title) = parse_applescript("Code\nplugin-manager.ts — OpenCapX");
    assert_eq!(app, "Code");
    assert_eq!(title.as_deref(), Some("plugin-manager.ts — OpenCapX"));
    let (app, title) = parse_applescript("Finder\n");
    assert_eq!(app, "Finder");
    assert_eq!(title, None);
}

#[test]
fn parses_lsappinfo_bundle() {
    assert_eq!(
        parse_lsappinfo_bundle(r#" "bundleID"="com.apple.Terminal""#),
        Some("com.apple.Terminal".into())
    );
    assert_eq!(parse_lsappinfo_bundle(r#" "bundleID"="""#), None);
    assert_eq!(parse_lsappinfo_bundle("garbage"), None);
}

#[test]
fn caps_clipboard_snippet() {
    let short = cap_clipboard("hello");
    assert_eq!(short.text_at("text"), Some("hello"));
    assert_eq!(short.bool_at("truncated"), Some(false));
    let long: String = "x".repeat(CLIPBOARD_CAP + 10);
    let capped = cap_clipboard(&long);
    assert_eq!(capped.text_at("text").unwrap().chars().count(), CLIPBOARD_CAP);
    assert_eq!(capped.bool_at("truncated"), Some(true));
}

#[test]
fn current_returns_shape() {
    for out in [
        current(None, None, None, false),
        current(Some("Code\nmain.rs"), None, Some("copied"), true),
        current(None, Some("com.apple.Terminal"), None, true),
    ] {
        assert!(out.member("active_app").is_some());
        assert!(out.member("window_title").is_some());
        assert!(out.member("clipboard").is_some());
        assert!(out.member("screen_available").is_some());
        assert!(out.member("degraded").is_some());
    }
    let full = current(Some("Code\nmain.rs"), None, Some("copied"), true);
    assert_eq!(full.text_at("active_app"), Some("Code"));
    assert_eq!(full.text_at("window_title"), Some("main.rs"));
}

#[test]
fn files_are_found_by_name_and_capped() {
    let input = json(r#"{ "root": "/r", "pattern": "needle" }"#);
    let mut search = FileSearch::new(&input, "/r", true).unwrap();
    assert_eq!(search.next_dir().as_deref(), Some("/r"));
    let entry = |name: &str, dir: &str, is_dir: bool| Entry {
        name: name.into(),
        path: format!("{dir}/{name}"),
        is_dir,
    };
    search.take_entries(&vec![
        entry("needle-a.txt", "/r", false),
        entry("sub", "/r", true),
        entry("other.txt", "/r", false),
    ]);
    assert_eq!(search.next_dir().as_deref(), Some("/r/sub"));
    search.take_entries(&vec![entry("needle-b.md", "/r/sub", false)]);
    assert!(search.next_dir().is_none());
    assert_eq!(
        search.answer(),
        json(r#"{ "matches": ["/r/needle-a.txt", "/r/sub/needle-b.md"], "truncated": false }"#)
    );

    let mut many = FileSearch::new(&input, "/r", true).unwrap();
    many.next_dir();
    let entries = (0..120).map(|i| entry(&format!("needle-{:03}.log", i), "/r", false)).collect();
    many.take_entries(&entries);
    assert_eq!(many.found.len(), SEARCH_CAP);
    assert!(many.truncated);

    assert!(FileSearch::new(&input, "/r", false).is_err());
}

#[test]
fn files_are_read_up_to_a_size() {
    assert_eq!(file_path(&json(r#"{ "path": "/a" }"#)).unwrap(), "/a");
    assert!(file_path(&json("{}")).unwrap_err().contains("path"));
    assert!(check_file("/a", true, FILE_READ_CAP).is_ok());
    assert!(check_file("/a", true, FILE_READ_CAP + 1).is_err());
    assert!(check_file("/a", false, 0).is_err());
    assert_eq!(read_answer("café opencapx").text_at("text"), Some("café opencapx"));
    assert_eq!(file_content(&json(r#"{ "content": "hello opencapx" }"#)), "hello opencapx");
    assert_eq!(write_answer("/a", "hé").bool_at("ok"), Some(true));
}

#[test]
fn addresses_hold_no_white_space_of_any_kind() {
    for c in ['\u{a0}', '\u{3000}', '\u{85}', '\u{2028}', '\u{9f}', '\u{7f}', '\t', ' '] {
        let url = format!("https://x/{c}y");
        assert_eq!(
            validate_http_url(&url),
            Err("invalid input: url must not contain control chars or spaces".to_string())
        );
        assert_eq!(
            validate_scheme_url(&format!("things:///{c}")),
            Err("invalid input: url must not contain control chars or spaces".to_string())
        );
    }
    assert!(validate_http_url("https://x/\u{e9}").is_ok());
}

#[test]
fn names_of_applications_stay_inside_their_quotes() {
    for name in ["a\"b", "a\u{9b}b", "a\nb"] {
        let input = empty_object().with("app", text_value(name));
        assert_eq!(
            appctl::validate(&input).unwrap_err(),
            "invalid input: app must not contain quotes or control chars"
        );
    }
    let input = empty_object().with("app", text_value("Safari\\"));
    assert_eq!(appctl::validate(&input).unwrap().app, "Safari\\");
    assert_eq!(plan_run(&input, true).unwrap(), "tell application \"Safari\\\\\" to activate");
    assert_eq!(
        applescript_for("a\\b.c", "quit", &None),
        "tell application id \"a\\\\b.c\" to quit"
    );
}

#[test]
fn programs_are_ended_when_their_time_is_up() {
    assert!(matches!(watch(true, u64::MAX, 0), Watch::Done));
    assert!(matches!(watch(false, 59_999, 60), Watch::Sleep(50)));
    assert!(matches!(
        watch(false, 60_000, 60),
        Watch::Kill(e) if e == "command timed out after 60s"
    ));
    assert!(matches!(watch(false, 0, 0), Watch::Kill(_)));
    assert!(matches!(watch(false, u64::MAX, u64::MAX), Watch::Sleep(_)));
}
