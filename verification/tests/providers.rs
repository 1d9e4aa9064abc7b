use harbor_light::providers::{
    activity_id, normalize_payload, CodexHookPayload, CodexProvider, CursorHookPayload,
    CursorProvider, HookAction, HookPayload, Provider,
};
use harbor_light::status::LightState;
use serde_json::Value;

fn string_field(v: &Value, key: &str) -> Option<String> {
    v.get(key).and_then(Value::as_str).map(str::to_string)
}

fn codex_payload(v: &Value) -> CodexHookPayload {
    CodexHookPayload {
        hook_event_name: string_field(v, "hook_event_name"),
        session_id: string_field(v, "session_id"),
        cwd: string_field(v, "cwd"),
    }
}

fn cursor_payload(v: &Value) -> CursorHookPayload {
    let approval = ["approval_required", "approvalRequired", "requiresApproval", "requires_approval"]
        .iter()
        .find_map(|key| v.get(*key).and_then(Value::as_bool));
    CursorHookPayload {
        hook_event_name: string_field(v, "hook_event_name"),
        conversation_id: string_field(v, "conversation_id"),
        session_id: string_field(v, "session_id"),
        generation_id: string_field(v, "generation_id"),
        workspace_roots: v
            .get("workspace_roots")
            .and_then(Value::as_array)
            .map(|a| a.iter().filter_map(Value::as_str).map(str::to_string).collect())
            .unwrap_or_default(),
        cwd: string_field(v, "cwd"),
        status: string_field(v, "status"),
        reason: string_field(v, "reason"),
        approval_required: approval,
        permission: string_field(v, "permission"),
    }
}

fn codex(text: &str) -> HookAction {
    CodexProvider.normalize(codex_payload(&serde_json::from_str(text).unwrap()))
}

fn cursor(text: &str) -> HookAction {
    CursorProvider.normalize(cursor_payload(&serde_json::from_str(text).unwrap()))
}

#[test]
fn maps_permission_request() {
    let action = codex(r#"{"hook_event_name":"PermissionRequest","session_id":"s1","cwd":"/tmp/project"}"#);
    let HookAction::Upsert(activity) = action else {
        panic!("expected upsert");
    };
    assert_eq!(activity.provider, Provider::Codex);
    assert_eq!(activity.activity_id, "s1");
    assert_eq!(activity.state, LightState::Waiting);
}

#[test]
fn post_tool_use_returns_to_working_after_approval() {
    let action = codex(r#"{"hook_event_name":"PostToolUse","session_id":"s1","cwd":"/tmp/project"}"#);
    let HookAction::Upsert(activity) = action else {
        panic!("expected upsert");
    };
    assert_eq!(activity.state, LightState::Working);
}

#[test]
fn prompt_starts_conversation_activity() {
    let action = cursor(
        r#"{"hook_event_name":"beforeSubmitPrompt","conversation_id":"chat-1","generation_id":"turn-2","workspace_roots":["/tmp/project"]}"#,
    );
    let HookAction::Upsert(activity) = action else {
        panic!("expected upsert");
    };
    assert_eq!(activity.activity_id, "chat-1");
    assert_eq!(activity.generation_id.as_deref(), Some("turn-2"));
    assert_eq!(activity.state, LightState::Working);
}

#[test]
fn stop_distinguishes_error_and_abort() {
    for (status, expected) in [
        ("completed", LightState::Done),
        ("aborted", LightState::Done),
        ("error", LightState::Waiting),
    ] {
        let action = cursor(&format!(
            r#"{{"hook_event_name":"stop","conversation_id":"chat-1","generation_id":"turn-2","status":"{status}"}}"#
        ));
        let HookAction::Upsert(activity) = action else {
            panic!("expected upsert");
        };
        assert_eq!(activity.state, expected);
    }
}

#[test]
fn session_end_removes_whole_conversation() {
    let action = cursor(r#"{"hook_event_name":"sessionEnd","session_id":"chat-1","reason":"window_close"}"#);
    assert!(matches!(
        action,
        HookAction::RemoveConversation {
            provider: Provider::Cursor,
            ref conversation_id,
            ..
        } if conversation_id == "chat-1"
    ));
}

#[test]
fn heartbeat_does_not_create_a_new_activity() {
    let action = cursor(r#"{"hook_event_name":"preToolUse","conversation_id":"chat-1"}"#);
    assert!(matches!(action, HookAction::Touch { .. }));
}

#[test]
fn shell_start_is_only_a_heartbeat_regardless_of_sandbox() {
    for sandbox in [false, true] {
        let action = cursor(&format!(
            r#"{{"hook_event_name":"beforeShellExecution","conversation_id":"chat-1","command":"npm install","sandbox":{sandbox}}}"#
        ));
        assert!(matches!(action, HookAction::Touch { .. }));
    }
}

#[test]
fn explicit_approval_request_marks_conversation_waiting() {
    let action = cursor(r#"{"hook_event_name":"preToolUse","conversation_id":"chat-1","approval_required":true}"#);
    let HookAction::Upsert(activity) = action else {
        panic!("expected waiting upsert");
    };
    assert_eq!(activity.state, LightState::Waiting);
}

#[test]
fn thought_is_only_a_heartbeat() {
    let action = cursor(
        r#"{"hook_event_name":"afterAgentThought","conversation_id":"chat-1","text":"long reasoning that must not create a new task"}"#,
    );
    assert!(matches!(action, HookAction::Touch { .. }));
}

#[test]
fn shell_completion_updates_existing_activity_only() {
    let action = cursor(r#"{"hook_event_name":"afterShellExecution","conversation_id":"chat-1","exit_code":0}"#);
    let HookAction::SetExisting { ref activity_id, state, .. } = action else {
        panic!("expected set-existing, got {action:?}");
    };
    assert_eq!(activity_id, "chat-1");
    assert_eq!(state, LightState::Working);
}

#[test]
fn provider_names_and_events() {
    assert_eq!(Provider::all(), [Provider::Codex, Provider::Cursor]);
    assert_eq!(Provider::Codex.as_str(), "codex");
    assert_eq!(Provider::Cursor.as_str(), "cursor");
    assert_eq!(Provider::Codex.display_name(), "Codex");
    assert_eq!(Provider::Cursor.display_name(), "Cursor");
    assert_eq!(Provider::Codex.hook_events().len(), 7);
    assert_eq!(Provider::Cursor.hook_events().len(), 9);
    assert!(Provider::Cursor.hook_events().contains(&"afterAgentThought"));
    assert_eq!(Provider::Codex.macos_bundle_ids(), vec!["com.openai.codex"]);
    assert_eq!(Provider::Codex.windows_process_names(), vec!["chatgpt.exe", "codex.exe"]);
    assert_eq!(Provider::Cursor.windows_process_names(), vec!["cursor.exe"]);
}

#[test]
fn activity_id_takes_the_first_non_blank_identity() {
    assert_eq!(activity_id(Some("c"), Some("s"), None, None).as_deref(), Some("c"));
    assert_eq!(activity_id(None, Some("s"), Some("g"), None).as_deref(), Some("s"));
    assert_eq!(activity_id(None, None, None, Some("/w")).as_deref(), Some("/w"));
    assert_eq!(activity_id(Some("  "), Some("s"), None, None), None);
    assert_eq!(activity_id(None, None, None, None), None);
}

#[test]
fn unknown_and_incomplete_events_are_ignored() {
    assert!(matches!(codex(r#"{"hook_event_name":"Notification","session_id":"s"}"#), HookAction::Ignore { .. }));
    assert!(matches!(codex(r#"{"session_id":"s"}"#), HookAction::Ignore { event: None, .. }));
    assert!(matches!(codex(r#"{"hook_event_name":"Stop"}"#), HookAction::Ignore { .. }));
    assert!(matches!(cursor(r#"{"hook_event_name":"workspaceOpen"}"#), HookAction::Ignore { .. }));
    assert!(matches!(cursor(r#"{"hook_event_name":"sessionEnd"}"#), HookAction::Ignore { .. }));
}

#[test]
fn cursor_payload_helpers() {
    let p = cursor_payload(&serde_json::from_str(r#"{"session_id":"s","cwd":"/w","permission":"ASK"}"#).unwrap());
    assert_eq!(p.activity_id().as_deref(), Some("s"));
    assert_eq!(p.conversation_id().as_deref(), Some("s"));
    assert!(p.approval_requested());
    assert_eq!(p.normalized_workspace_roots(), vec!["/w".to_string()]);
    let p = cursor_payload(&serde_json::from_str(r#"{"permission":"allow","workspace_roots":["/a","/b"]}"#).unwrap());
    assert!(!p.approval_requested());
    assert_eq!(p.normalized_workspace_roots(), vec!["/a".to_string(), "/b".to_string()]);
    assert_eq!(p.activity_id().as_deref(), Some("/a"));
}

#[test]
fn payload_dispatch_follows_the_provider() {
    let v: Value = serde_json::from_str(r#"{"hook_event_name":"UserPromptSubmit","session_id":"s"}"#).unwrap();
    assert!(matches!(normalize_payload(HookPayload::Codex(codex_payload(&v))), HookAction::Upsert(_)));
    assert!(matches!(normalize_payload(HookPayload::Cursor(cursor_payload(&v))), HookAction::Ignore { .. }));
    assert_eq!(CodexProvider.provider(), Provider::Codex);
    assert_eq!(CursorProvider.provider(), Provider::Cursor);
}
