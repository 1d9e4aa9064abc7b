use harbor_light::activity::{
    activity_path, conversation_matches, hook_action_target, resolve_display_state,
    ActivitySnapshot, ProviderResets, StoreOp,
};
use harbor_light::hook::{
    extract_json_bool, extract_json_string, hook_payload, hook_writes, legacy_status_for, parse_json_string,
    prepare_hook_input, salvage_hook_payload, ParsedInput,
};
use harbor_light::paths::{FsPath, Paths};
use harbor_light::providers::{normalize_payload, CodexHookPayload, CursorHookPayload, HookAction, HookPayload, Provider};
use harbor_light::status::{DisplayState, LightState, StatusSnapshot};
use harbor_light::time::now;
use serde_json::Value;

fn string_field(v: &Value, key: &str) -> Option<String> {
    v.get(key).and_then(Value::as_str).map(str::to_string)
}

fn payload(provider: Provider, v: &Value) -> HookPayload {
    match provider {
        Provider::Codex => HookPayload::Codex(CodexHookPayload {
            hook_event_name: string_field(v, "hook_event_name"),
            session_id: string_field(v, "session_id"),
            cwd: string_field(v, "cwd"),
        }),
        Provider::Cursor => HookPayload::Cursor(CursorHookPayload {
            hook_event_name: string_field(v, "hook_event_name"),
            conversation_id: string_field(v, "conversation_id"),
            session_id: string_field(v, "session_id"),
            generation_id: string_field(v, "generation_id"),
            workspace_roots: v
                .get("workspace_roots")
                .and_then(Value::as_array)
                .map(|a| a.iter().filter_map(Value::as_str).map(str::to_string).collect())
                .unwrap_or_default(),
            cwd: string_field(v, "cwd"),
            status: string_field(v, "status"),
            reason: string_field(v, "reason"),
            approval_required: ["approval_required", "approvalRequired", "requiresApproval", "requires_approval"]
                .iter()
                .find_map(|key| v.get(*key).and_then(Value::as_bool)),
            permission: string_field(v, "permission"),
        }),
    }
}

/// A home directory's activity files and legacy status record, in memory.
struct Home {
    paths: Paths,
    files: Vec<(FsPath, ActivitySnapshot)>,
    legacy: Option<StatusSnapshot>,
}

impl Home {
    fn new() -> Self {
        Home { paths: Paths { home: "/home/test".into(), codex_home: None }, files: Vec::new(), legacy: None }
    }

    fn position(&self, path: &FsPath) -> Option<usize> {
        self.files.iter().position(|(p, _)| p.base == path.base && p.parts == path.parts)
    }

    /// One hook run, as the `hook` command performs it.
    fn run(&mut self, provider: Provider, input: &str) {
        let Some(trimmed) = prepare_hook_input(input) else {
            return;
        };
        let parsed = match serde_json::from_str::<Value>(&trimmed) {
            Ok(v) => ParsedInput::Payload(payload(provider, &v)),
            Err(_) => ParsedInput::NotJson,
        };
        let Some(payload) = hook_payload(provider, parsed, &trimmed) else {
            return;
        };
        let action = normalize_payload(payload);
        if matches!(action, HookAction::Ignore { .. }) {
            return;
        }
        let existing = hook_action_target(&action).and_then(|(p, id)| {
            let path = activity_path(&self.paths, p, &id);
            self.position(&path).map(|i| self.files[i].1.copy())
        });
        let (op, legacy) = hook_writes(provider, action, existing, now());
        match op {
            StoreOp::Write(s) => {
                let path = activity_path(&self.paths, s.provider, &s.activity_id);
                if let Some(i) = self.position(&path) {
                    self.files.remove(i);
                }
                self.files.push((path, s));
            }
            StoreOp::RemoveConversation { provider, conversation_id } => {
                let dir = self.paths.provider_activities_dir(provider);
                self.files.retain(|(p, s)| {
                    !(p.parts.starts_with(&dir.parts) && conversation_matches(s, &conversation_id))
                });
            }
            StoreOp::Keep => {}
        }
        if let Some(legacy) = legacy {
            self.legacy = Some(legacy);
        }
    }

    fn activities(&self) -> Vec<ActivitySnapshot> {
        self.files.iter().map(|(_, s)| s.copy()).collect()
    }
}

#[test]
fn codex_hook_writes_activity_and_legacy_status() {
    let mut home = Home::new();
    home.run(Provider::Codex, r#"{"hook_event_name":"PermissionRequest","session_id":"s1","cwd":"/tmp"}"#);
    let activities = home.activities();
    assert_eq!(activities.len(), 1);
    assert_eq!(activities[0].provider, Provider::Codex);
    assert_eq!(activities[0].state, LightState::Waiting);
    assert_eq!(home.legacy.as_ref().unwrap().state, LightState::Waiting);
}

#[test]
fn cursor_conversations_do_not_overwrite_each_other_or_legacy_status() {
    let mut home = Home::new();
    for id in ["chat-a", "chat-b"] {
        home.run(
            Provider::Cursor,
            &format!(r#"{{"hook_event_name":"beforeSubmitPrompt","conversation_id":"{id}","generation_id":"turn-1"}}"#),
        );
    }
    let activities = home.activities();
    assert_eq!(activities.len(), 2);
    assert!(activities.iter().all(|activity| activity.provider == Provider::Cursor));
    assert!(home.legacy.is_none());
}

#[test]
fn cursor_hook_accepts_utf8_bom() {
    let mut home = Home::new();
    home.run(Provider::Cursor, "\u{feff}{\"hook_event_name\":\"beforeSubmitPrompt\",\"conversation_id\":\"bom-chat\"}");
    let activities = home.activities();
    assert_eq!(activities.len(), 1);
    assert_eq!(activities[0].provider, Provider::Cursor);
    assert_eq!(activities[0].activity_id, "bom-chat");
    assert_eq!(activities[0].state, LightState::Working);
}

#[test]
fn cursor_abort_finishes_only_its_conversation() {
    let mut home = Home::new();
    for id in ["chat-a", "chat-b"] {
        home.run(Provider::Cursor, &format!(r#"{{"hook_event_name":"beforeSubmitPrompt","conversation_id":"{id}"}}"#));
    }
    home.run(Provider::Cursor, r#"{"hook_event_name":"stop","conversation_id":"chat-a","status":"aborted"}"#);
    let activities = home.activities();
    assert_eq!(activities.len(), 2);
    let chat_a = activities.iter().find(|activity| activity.activity_id == "chat-a").unwrap();
    assert_eq!(chat_a.state, LightState::Done);
    assert_eq!(
        activities.iter().find(|activity| activity.activity_id == "chat-b").unwrap().state,
        LightState::Working
    );
}

#[test]
fn cursor_approval_and_other_worker_display_both_lamps() {
    let mut home = Home::new();
    for id in ["waiting-chat", "working-chat"] {
        home.run(Provider::Cursor, &format!(r#"{{"hook_event_name":"beforeSubmitPrompt","conversation_id":"{id}"}}"#));
    }
    home.run(
        Provider::Cursor,
        r#"{"hook_event_name":"preToolUse","conversation_id":"waiting-chat","approval_required":true}"#,
    );
    let activities = home.activities();
    assert_eq!(
        resolve_display_state(None, &activities, &vec![], &ProviderResets::new()),
        DisplayState::waiting_and_working()
    );
}

#[test]
fn malformed_and_unknown_payloads_do_not_fail() {
    let mut home = Home::new();
    home.run(Provider::Cursor, "");
    home.run(Provider::Cursor, "not-json");
    home.run(Provider::Cursor, r#"{"hook_event_name":"workspaceOpen"}"#);
    assert!(home.activities().is_empty());
}

#[test]
fn cursor_late_thought_does_not_revive_stopped_conversation() {
    let mut home = Home::new();
    home.run(Provider::Cursor, r#"{"hook_event_name":"beforeSubmitPrompt","conversation_id":"chat-a"}"#);
    home.run(Provider::Cursor, r#"{"hook_event_name":"stop","conversation_id":"chat-a","status":"completed"}"#);
    home.run(Provider::Cursor, r#"{"hook_event_name":"afterAgentThought","conversation_id":"chat-a","text":"late"}"#);
    let activities = home.activities();
    assert_eq!(activities.len(), 1);
    assert_eq!(activities[0].state, LightState::Done);
    assert_eq!(
        resolve_display_state(None, &activities, &vec![], &ProviderResets::new()),
        DisplayState::done()
    );
}

#[test]
fn cursor_late_thought_does_not_recreate_after_session_end() {
    let mut home = Home::new();
    home.run(Provider::Cursor, r#"{"hook_event_name":"beforeSubmitPrompt","conversation_id":"chat-a"}"#);
    home.run(Provider::Cursor, r#"{"hook_event_name":"sessionEnd","conversation_id":"chat-a"}"#);
    home.run(Provider::Cursor, r#"{"hook_event_name":"afterAgentThought","conversation_id":"chat-a"}"#);
    assert!(home.activities().is_empty());
}

#[test]
fn cursor_shell_completion_does_not_create_activity() {
    let mut home = Home::new();
    home.run(Provider::Cursor, r#"{"hook_event_name":"afterShellExecution","conversation_id":"chat-a","exit_code":0}"#);
    assert!(home.activities().is_empty());
}

#[test]
fn cursor_shell_completion_returns_waiting_conversation_to_working() {
    let mut home = Home::new();
    home.run(Provider::Cursor, r#"{"hook_event_name":"beforeSubmitPrompt","conversation_id":"chat-a"}"#);
    home.run(
        Provider::Cursor,
        r#"{"hook_event_name":"preToolUse","conversation_id":"chat-a","approval_required":true}"#,
    );
    home.run(Provider::Cursor, r#"{"hook_event_name":"afterShellExecution","conversation_id":"chat-a","exit_code":0}"#);
    let activities = home.activities();
    assert_eq!(activities.len(), 1);
    assert_eq!(activities[0].state, LightState::Working);
}

#[test]
fn salvages_truncated_cursor_thought_payload() {
    let mut home = Home::new();
    home.run(Provider::Cursor, r#"{"hook_event_name":"beforeSubmitPrompt","conversation_id":"chat-a"}"#);
    home.run(
        Provider::Cursor,
        r#"{"conversation_id":"chat-a","hook_event_name":"afterAgentThought","text":"unterminated"#,
    );
    let activities = home.activities();
    assert_eq!(activities.len(), 1);
    assert_eq!(activities[0].state, LightState::Working);
    assert_eq!(activities[0].event, "afterAgentThought");
}

#[test]
fn hook_input_is_cleaned_of_boms_and_space() {
    assert_eq!(prepare_hook_input("\u{feff}\u{feff}  {} \n").as_deref(), Some("{}"));
    assert_eq!(prepare_hook_input(" \n\t"), None);
    assert_eq!(prepare_hook_input("\u{feff}"), None);
}

#[test]
fn json_strings_are_decoded() {
    assert_eq!(parse_json_string(r#""a\"b\\c\n""#).as_deref(), Some("a\"b\\c\n"));
    assert_eq!(parse_json_string(r#""\u00e9x""#).as_deref(), Some("éx"));
    assert_eq!(parse_json_string(r#""\q""#).as_deref(), Some("q"));
    assert_eq!(parse_json_string(r#""unterminated"#), None);
    assert_eq!(parse_json_string("\"tab\there\""), None);
    assert_eq!(parse_json_string(r#""\ud800""#), None);
    assert_eq!(parse_json_string("x"), None);
}

#[test]
fn salvage_reads_fields_from_broken_json() {
    let raw = r#"{"hook_event_name" : "stop", "conversation_id":"c1","requiresApproval": true, "status":"completed"#;
    assert_eq!(extract_json_string(raw, "hook_event_name").as_deref(), Some("stop"));
    assert_eq!(extract_json_string(raw, "status"), None);
    assert_eq!(extract_json_bool(raw, "requiresApproval"), Some(true));
    assert_eq!(extract_json_bool(raw, "approval_required"), None);
    let s = salvage_hook_payload(raw).unwrap();
    assert_eq!(s.hook_event_name, "stop");
    assert_eq!(s.conversation_id.as_deref(), Some("c1"));
    assert_eq!(s.approval_required, Some(true));
    assert!(salvage_hook_payload(r#"{"conversation_id":"c1""#).is_none());
    let raw = r#"{"note":"cwd","cwd": 5,"cwd":"/w","#;
    assert_eq!(extract_json_string(raw, "cwd").as_deref(), Some("/w"));
}

#[test]
fn hook_payload_salvages_only_text_that_is_not_json() {
    let raw = r#"{"hook_event_name":"Stop","session_id":"s9","cwd":"/w"#;
    match hook_payload(Provider::Codex, ParsedInput::NotJson, raw) {
        Some(HookPayload::Codex(p)) => {
            assert_eq!(p.hook_event_name.as_deref(), Some("Stop"));
            assert_eq!(p.session_id.as_deref(), Some("s9"));
            assert_eq!(p.cwd, None);
        }
        other => panic!("expected a Codex payload, got {other:?}"),
    }
    assert!(hook_payload(Provider::Cursor, ParsedInput::WrongShape, raw).is_none());
    assert!(hook_payload(Provider::Cursor, ParsedInput::NotJson, "not-json").is_none());
    let salvaged = salvage_hook_payload(raw).unwrap();
    assert_eq!(salvaged.session_id.as_deref(), Some("s9"));
}

#[test]
fn legacy_status_only_mirrors_codex() {
    let t = now();
    let a = ActivitySnapshot {
        provider: Provider::Codex,
        activity_id: "s1".into(),
        conversation_id: Some("s1".into()),
        generation_id: None,
        workspace_roots: vec![],
        state: LightState::Done,
        updated_at: t,
        source: "hook".into(),
        event: "Stop".into(),
    };
    let l = legacy_status_for(Provider::Codex, Some(&a), t).unwrap();
    assert_eq!(l.state, LightState::Done);
    assert_eq!(l.source, "hook");
    assert_eq!(l.event.as_deref(), Some("Stop"));
    assert_eq!(l.session_id.as_deref(), Some("s1"));
    assert!(legacy_status_for(Provider::Cursor, Some(&a), t).is_none());
    assert!(legacy_status_for(Provider::Codex, None, t).is_none());
}

#[test]
fn ignored_or_unreadable_input_writes_nothing() {
    let mut home = Home::new();
    home.run(Provider::Codex, r#"{"hook_event_name":"PermissionRequest","session_id":"s1","cwd":"/w"}"#);
    let before = home.activities().len();
    assert_eq!(before, 1);
    let legacy_before = home.legacy.as_ref().map(|l| l.updated_at);
    for input in ["", "  \u{feff} ", "not-json", r#"{"hook_event_name":"workspaceOpen"}"#] {
        home.run(Provider::Cursor, input);
        home.run(Provider::Codex, input);
    }
    assert_eq!(home.activities().len(), before);
    assert_eq!(home.legacy.as_ref().map(|l| l.updated_at), legacy_before);
    let (op, legacy) = hook_writes(
        Provider::Codex,
        HookAction::Ignore { event: Some("workspaceOpen".into()), reason: "unsupported event" },
        None,
        now(),
    );
    assert!(matches!(op, StoreOp::Keep));
    assert!(legacy.is_none());
}
