use harbor_light::install::{
    autostart_value, executable_destination, hook_command_for, info_plist,
    is_our_hook_command, launch_agent_plist_body, merge_codex_hooks, merge_cursor_hooks,
    remove_our_codex_hooks, remove_our_cursor_hooks, HooksError,
};
use harbor_light::json::JsonValue;
use harbor_light::paths::FsPath;
use harbor_light::providers::Provider;
use serde_json::Value;

fn to_json(v: &Value) -> JsonValue {
    match v {
        Value::Null => JsonValue::Null,
        Value::Bool(b) => JsonValue::Bool(*b),
        Value::Number(n) => JsonValue::Number(n.to_string()),
        Value::String(s) => JsonValue::Str(s.clone()),
        Value::Array(a) => JsonValue::Array(a.iter().map(to_json).collect()),
        Value::Object(m) => JsonValue::Object(m.iter().map(|(k, v)| (k.clone(), to_json(v))).collect()),
    }
}

fn from_json(v: &JsonValue) -> Value {
    match v {
        JsonValue::Null => Value::Null,
        JsonValue::Bool(b) => Value::Bool(*b),
        JsonValue::Number(n) => serde_json::from_str(n).unwrap(),
        JsonValue::Str(s) => Value::String(s.clone()),
        JsonValue::Array(a) => Value::Array(a.iter().map(from_json).collect()),
        JsonValue::Object(f) => {
            let mut m = serde_json::Map::new();
            for (k, v) in f {
                m.insert(k.clone(), from_json(v));
            }
            Value::Object(m)
        }
    }
}

fn merge_codex_text(raw: Option<&str>, command: &str) -> String {
    let root = raw.map(|r| to_json(&serde_json::from_str::<Value>(r).unwrap()));
    let merged = merge_codex_hooks(root, command).unwrap();
    serde_json::to_string_pretty(&from_json(&merged)).unwrap()
}

fn merge_cursor_text(raw: Option<&str>, command: &str) -> String {
    let root = raw.map(|r| to_json(&serde_json::from_str::<Value>(r).unwrap()));
    let merged = merge_cursor_hooks(root, command).unwrap();
    serde_json::to_string_pretty(&from_json(&merged)).unwrap()
}

fn parse(text: &str) -> Value {
    serde_json::from_str(text).unwrap()
}

fn fs_path(base: &str, parts: &[&str]) -> FsPath {
    FsPath { base: base.to_string(), parts: parts.iter().map(|p| p.to_string()).collect() }
}

#[test]
fn merge_preserves_existing_hooks() {
    let raw = merge_codex_text(
        Some(
            r#"{
  "hooks": {
    "SessionStart": [
      { "hooks": [ { "type": "command", "command": "/usr/bin/true" } ] }
    ]
  }
}"#,
        ),
        "/tmp/harbor-light hook --provider codex",
    );
    assert!(raw.contains("/usr/bin/true"));
    assert!(raw.contains("/tmp/harbor-light hook"));
    assert!(raw.contains("UserPromptSubmit"));
    assert!(raw.contains("PermissionRequest"));
    assert!(raw.contains("PostToolUse"));
    // second merge is idempotent
    let raw2 = merge_codex_text(Some(&raw), "/opt/HarborLight.app/Contents/MacOS/harbor-light hook --provider codex");
    assert_eq!(raw2.matches("harbor-light hook").count(), Provider::Codex.hook_events().len());
    assert!(!raw2.contains("/tmp/harbor-light hook"));
}

#[test]
fn launch_agent_only_restarts_after_unsuccessful_exit() {
    let raw = launch_agent_plist_body("/Applications/HarborLight.app/Contents/MacOS/harbor-light");
    assert!(raw.contains("<key>SuccessfulExit</key>\n        <false/>"));
    assert!(!raw.contains("<key>KeepAlive</key>\n    <true/>"));
}

#[test]
fn uninstall_only_removes_our_entries() {
    let raw = merge_codex_text(None, "/tmp/harbor-light hook --provider codex");
    let mut root: Value = serde_json::from_str(&raw).unwrap();
    root["hooks"]["Stop"]
        .as_array_mut()
        .unwrap()
        .push(parse(r#"{ "hooks": [ { "type": "command", "command": "echo keep" } ] }"#));
    let (cleaned, changed) = remove_our_codex_hooks(to_json(&root));
    assert!(changed);
    let raw = serde_json::to_string_pretty(&from_json(&cleaned)).unwrap();
    assert!(raw.contains("echo keep"));
    assert!(!raw.contains("harbor-light hook"));
    assert!(!raw.contains("SessionStart"));
}

#[test]
fn detects_our_command() {
    assert!(is_our_hook_command("/Applications/HarborLight.app/Contents/MacOS/harbor-light hook"));
    assert!(is_our_hook_command(
        "/Applications/HarborLight.app/Contents/MacOS/harbor-light hook --provider cursor"
    ));
    assert!(is_our_hook_command(
        "\"/Users/me/Applications/HarborLight.app/Contents/MacOS/harbor-light\" hook"
    ));
    assert!(is_our_hook_command(r#""C:\Users\me\AppData\Local\HarborLight\HarborLight.exe" hook"#));
    assert!(is_our_hook_command(
        r#"C:\Users\me\AppData\Local\HarborLight\HarborLight-bom-fix.exe hook --provider cursor"#
    ));
    assert!(is_our_hook_command("/Applications/CodexLight.app/Contents/MacOS/codex-light hook"));
    assert!(is_our_hook_command(r#""C:\Users\me\AppData\Local\CodexLight\CodexLight.exe" hook"#));
    assert!(!is_our_hook_command("python3 ~/.codex/hooks/session.py"));
}

#[test]
fn hook_command_strips_windows_verbatim_prefix() {
    let command = hook_command_for(r"\\?\C:\Users\me\AppData\Local\HarborLight\HarborLight.exe", Provider::Cursor);
    assert_eq!(command, r"C:\Users\me\AppData\Local\HarborLight\HarborLight.exe hook --provider cursor");
    assert!(!command.contains(r"\\?\"));
}

#[test]
fn upgrades_legacy_codex_light_hook_commands() {
    let raw = merge_codex_text(None, "/tmp/codex-light hook --provider codex");
    let raw = merge_codex_text(Some(&raw), "/opt/HarborLight.app/Contents/MacOS/harbor-light hook --provider codex");
    assert_eq!(raw.matches("harbor-light hook").count(), Provider::Codex.hook_events().len());
    assert!(!raw.contains("codex-light hook"));
}

#[test]
fn cursor_merge_is_flat_idempotent_and_preserves_existing_hooks() {
    let raw = merge_cursor_text(
        Some(r#"{"version":1,"hooks":{"stop":[{"command":"echo keep"}]}}"#),
        "/Applications/HarborLight.app/Contents/MacOS/harbor-light hook --provider cursor",
    );
    let raw = merge_cursor_text(Some(&raw), "/opt/HarborLight.app/Contents/MacOS/harbor-light hook --provider cursor");
    let root: Value = serde_json::from_str(&raw).unwrap();
    assert_eq!(root["version"], parse("1"));
    assert!(root["hooks"]["beforeShellExecution"].is_array());
    assert!(root["hooks"]["afterShellExecution"].is_array());
    assert!(root["hooks"]["beforeMCPExecution"].is_array());
    assert!(root["hooks"]["afterMCPExecution"].is_array());
    assert_eq!(
        raw.matches("harbor-light hook --provider cursor").count(),
        Provider::Cursor.hook_events().len()
    );
    assert!(raw.contains("echo keep"));
    assert!(!raw.contains("/Applications/HarborLight.app"));

    let (cleaned, changed) = remove_our_cursor_hooks(to_json(&root));
    assert!(changed);
    let raw = serde_json::to_string_pretty(&from_json(&cleaned)).unwrap();
    assert!(raw.contains("echo keep"));
    assert!(!raw.contains("harbor-light hook"));
}

#[test]
fn cursor_merge_collapses_duplicate_harbor_light_binaries() {
    let raw = merge_cursor_text(
        Some(
            r#"{
              "version": 1,
              "hooks": {
                "stop": [
                  {"command": "C:\\Users\\me\\AppData\\Local\\HarborLight\\HarborLight-bom-fix.exe hook --provider cursor", "timeout": 3},
                  {"command": "C:\\Users\\me\\AppData\\Local\\HarborLight\\HarborLight.exe hook --provider cursor", "timeout": 3},
                  {"command": "echo keep"}
                ]
              }
            }"#,
        ),
        r#""C:\Users\me\AppData\Local\HarborLight\HarborLight.exe" hook --provider cursor"#,
    );
    let root: Value = serde_json::from_str(&raw).unwrap();
    let stop = root["hooks"]["stop"].as_array().unwrap();
    let ours: Vec<_> = stop
        .iter()
        .filter(|entry| entry.get("command").and_then(Value::as_str).is_some_and(is_our_hook_command))
        .collect();
    assert_eq!(ours.len(), 1);
    assert_eq!(ours[0]["timeout"], parse("8"));
    assert!(ours[0]["command"].as_str().unwrap().contains("HarborLight.exe"));
    assert!(!serde_json::to_string(&root).unwrap().contains("HarborLight-bom-fix.exe"));
    assert!(stop.iter().any(|entry| entry.get("command").and_then(Value::as_str) == Some("echo keep")));
}

#[test]
fn destination_accepts_directory_or_exe() {
    let d = executable_destination(fs_path(r"C:\", &["Tools"]));
    assert_eq!(d.base, r"C:\");
    assert_eq!(d.parts, vec!["Tools".to_string(), "HarborLight.exe".to_string()]);
    let d = executable_destination(fs_path(r"C:\Tools", &["light.exe"]));
    assert_eq!(d.parts, vec!["light.exe".to_string()]);
    let d = executable_destination(fs_path(r"C:\Tools", &["LIGHT.EXE"]));
    assert_eq!(d.parts, vec!["LIGHT.EXE".to_string()]);
    let d = executable_destination(fs_path(r"C:\Tools", &[".exe"]));
    assert_eq!(d.parts, vec![".exe".to_string(), "HarborLight.exe".to_string()]);
}

#[test]
fn autostart_path_is_quoted_without_literal_backslashes() {
    assert_eq!(autostart_value(r"C:\Users\A B\HarborLight.exe"), r#""C:\Users\A B\HarborLight.exe""#);
}

#[test]
fn hook_command_quotes_paths_with_spaces() {
    assert_eq!(
        hook_command_for("/Users/A B/harbor-light", Provider::Codex),
        "\"/Users/A B/harbor-light\" hook --provider codex"
    );
    assert_eq!(hook_command_for("//?/C:/x.exe", Provider::Codex), "C:/x.exe hook --provider codex");
    assert!(is_our_hook_command(&hook_command_for("/opt/harbor-light", Provider::Cursor)));
}

#[test]
fn hook_word_must_stand_alone() {
    assert!(!is_our_hook_command("/opt/harbor-light hooks"));
    assert!(!is_our_hook_command("/opt/harbor-light"));
    assert!(is_our_hook_command("  /opt/HARBOR-LIGHT   HOOK  "));
    assert!(!is_our_hook_command("/opt/other-tool hook"));
}

#[test]
fn merging_refuses_documents_that_are_not_objects() {
    let r = merge_codex_hooks(Some(JsonValue::Array(vec![])), "/opt/harbor-light hook");
    assert!(matches!(r, Err(HooksError::RootNotObject)));
    let r = merge_codex_hooks(Some(to_json(&parse(r#"{"hooks": 3}"#))), "/opt/harbor-light hook");
    assert!(matches!(r, Err(HooksError::HooksNotObject)));
    let r = merge_cursor_hooks(Some(to_json(&parse(r#""x""#))), "/opt/harbor-light hook");
    assert!(matches!(r, Err(HooksError::RootNotObject)));
    assert_eq!(HooksError::RootNotObject.message(Provider::Codex), "hooks.json root must be an object");
    assert_eq!(HooksError::HooksNotObject.message(Provider::Cursor), "Cursor hooks.json missing hooks object");
}

#[test]
fn merging_twice_changes_nothing() {
    let cmd = "/opt/harbor-light hook --provider codex";
    let once = merge_codex_text(Some(r#"{"hooks":{"Stop":[{"hooks":[{"command":"echo keep"}]}]}}"#), cmd);
    let twice = merge_codex_text(Some(&once), cmd);
    assert_eq!(once, twice);
    let cmd = "/opt/harbor-light hook --provider cursor";
    let once = merge_cursor_text(None, cmd);
    let twice = merge_cursor_text(Some(&once), cmd);
    assert_eq!(once, twice);
}

#[test]
fn removal_without_our_hooks_reports_no_change() {
    let root = to_json(&parse(r#"{"hooks": {"Stop": [{"hooks": [{"command": "echo keep"}]}]}}"#));
    let (after, changed) = remove_our_codex_hooks(to_json(&from_json(&root)));
    assert!(!changed);
    assert_eq!(from_json(&after), from_json(&root));
    let (after, changed) = remove_our_codex_hooks(to_json(&parse("[1, 2]")));
    assert!(!changed);
    assert_eq!(from_json(&after), parse("[1, 2]"));
}

#[test]
fn plist_texts_name_the_bundle() {
    let plist = info_plist();
    assert!(plist.contains("<string>com.harborlight.app</string>"));
    assert!(plist.contains("<key>LSUIElement</key>\n    <true/>"));
    let agent = launch_agent_plist_body("/x/harbor-light");
    assert!(agent.contains("<string>/x/harbor-light</string>"));
    assert!(agent.contains("<key>RunAtLoad</key>\n    <true/>"));
}
