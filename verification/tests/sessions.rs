use std::path::Path;

use harbor_light::sessions::{
    aggregate_sessions, is_recent_rollout, is_rollout_file_name, newest_rollouts,
    parse_rollout_lines, resolve_display_state, resolve_display_state_after, rollout_line, scan_line,
    session_id_from_filename, JsonField, RolloutEnvelope, SessionSnapshot, TaskMark,
};
use harbor_light::status::{LightState, StatusSnapshot};
use harbor_light::time::{now, Timestamp};
use serde_json::Value;

fn field(payload: Option<&Value>, key: &str) -> JsonField {
    match payload.and_then(|p| p.get(key)) {
        None => JsonField::Missing,
        Some(Value::String(s)) => JsonField::Str(s.clone()),
        Some(_) => JsonField::Other,
    }
}

fn optional_string(v: &Value, key: &str) -> Result<Option<String>, ()> {
    match v.get(key) {
        None | Some(Value::Null) => Ok(None),
        Some(Value::String(s)) => Ok(Some(s.clone())),
        Some(_) => Err(()),
    }
}

/// The envelope of one log line, as the rollout reader parses it.
fn envelope(line: &str) -> Option<RolloutEnvelope> {
    let v: Value = serde_json::from_str(line).ok()?;
    if !v.is_object() {
        return None;
    }
    let timestamp = optional_string(&v, "timestamp").ok()?;
    let kind = optional_string(&v, "type").ok()?;
    let payload = v.get("payload");
    Some(RolloutEnvelope {
        timestamp,
        kind,
        payload_session_id: field(payload, "session_id"),
        payload_id: field(payload, "id"),
        payload_type: field(payload, "type"),
    })
}

fn parse_rollout_text(path: &Path, raw: &str) -> SessionSnapshot {
    let lines: Vec<RolloutEnvelope> = raw
        .lines()
        .filter_map(rollout_line)
        .filter_map(|line| envelope(&line))
        .collect();
    let stem = path.file_stem().and_then(|s| s.to_str());
    parse_rollout_lines(path.display().to_string(), session_id_from_filename(stem), now(), &lines)
}

fn session(state: LightState, updated_at: Timestamp) -> SessionSnapshot {
    SessionSnapshot { path: "a.jsonl".into(), session_id: Some("a".into()), state, updated_at }
}

#[test]
fn task_started_means_working() {
    let text = r#"
{"timestamp":"2026-08-20T03:00:00Z","type":"session_meta","payload":{"session_id":"abc"}}
{"timestamp":"2026-08-20T03:00:01Z","type":"event_msg","payload":{"type":"task_started"}}
"#;
    let snap = parse_rollout_text(Path::new("rollout-x-abc.jsonl"), text);
    assert_eq!(snap.state, LightState::Working);
    assert_eq!(snap.session_id.as_deref(), Some("abc"));
}

#[test]
fn complete_after_start_means_done() {
    let text = r#"
{"timestamp":"2026-08-20T03:00:00Z","type":"event_msg","payload":{"type":"task_started"}}
{"timestamp":"2026-08-20T03:00:05Z","type":"event_msg","payload":{"type":"token_count"}}
{"timestamp":"2026-08-20T03:00:10Z","type":"event_msg","payload":{"type":"task_complete"}}
"#;
    let snap = parse_rollout_text(Path::new("rollout.jsonl"), text);
    assert_eq!(snap.state, LightState::Done);
}

#[test]
fn abort_after_start_means_done() {
    let text = r#"
{"timestamp":"2026-08-20T03:00:00Z","type":"event_msg","payload":{"type":"task_started"}}
{"timestamp":"2026-08-20T03:00:05Z","type":"event_msg","payload":{"type":"token_count"}}
{"timestamp":"2026-08-20T03:00:10Z","type":"event_msg","payload":{"type":"turn_aborted","reason":"interrupted"}}
"#;
    let snap = parse_rollout_text(Path::new("rollout.jsonl"), text);
    assert_eq!(snap.state, LightState::Done);
}

#[test]
fn ignores_unrelated_events() {
    let text = r#"
{"timestamp":"2026-08-20T03:00:00Z","type":"response_item","payload":{"type":"function_call"}}
"#;
    let snap = parse_rollout_text(Path::new("rollout.jsonl"), text);
    assert_eq!(snap.state, LightState::Idle);
}

#[test]
fn approval_request_means_waiting() {
    for subtype in ["exec_approval_request", "apply_patch_approval_request", "request_permissions"] {
        let text = format!(
            r#"
{{"timestamp":"2026-08-20T03:00:00Z","type":"event_msg","payload":{{"type":"task_started"}}}}
{{"timestamp":"2026-08-20T03:00:05Z","type":"event_msg","payload":{{"type":"{subtype}"}}}}
"#
        );
        let snap = parse_rollout_text(Path::new("rollout.jsonl"), &text);
        assert_eq!(snap.state, LightState::Waiting, "subtype={subtype}");
    }
}

#[test]
fn tool_execution_after_approval_returns_to_working() {
    let text = r#"
{"timestamp":"2026-08-20T03:00:00Z","type":"event_msg","payload":{"type":"task_started"}}
{"timestamp":"2026-08-20T03:00:05Z","type":"event_msg","payload":{"type":"exec_approval_request"}}
{"timestamp":"2026-08-20T03:00:10Z","type":"event_msg","payload":{"type":"exec_command_begin"}}
"#;
    let snap = parse_rollout_text(Path::new("rollout.jsonl"), text);
    assert_eq!(snap.state, LightState::Working);
}

#[test]
fn waiting_hook_outranks_working_session() {
    let sessions = vec![session(LightState::Working, now())];
    let hook = StatusSnapshot::new(LightState::Waiting, "hook", Some("PermissionRequest".into()), None);
    assert_eq!(resolve_display_state(Some(&hook), &sessions), LightState::Waiting);
}

#[test]
fn stale_done_becomes_idle() {
    let mut hook = StatusSnapshot::new(LightState::Done, "hook", None, None);
    hook.updated_at = now().plus_secs(-10);
    assert_eq!(resolve_display_state(Some(&hook), &vec![]), LightState::Idle);
}

#[test]
fn application_termination_resets_older_active_states() {
    let reset_at = now();
    let sessions = vec![session(LightState::Working, reset_at.plus_secs(-1))];
    let mut hook = StatusSnapshot::new(LightState::Waiting, "hook", Some("PermissionRequest".into()), None);
    hook.updated_at = reset_at.plus_secs(-1);
    assert_eq!(resolve_display_state_after(Some(&hook), &sessions, Some(reset_at)), LightState::Idle);
}

#[test]
fn activity_after_application_termination_becomes_working_again() {
    let reset_at = now().plus_secs(-2);
    let sessions = vec![session(LightState::Working, reset_at.plus_secs(1))];
    assert_eq!(resolve_display_state_after(None, &sessions, Some(reset_at)), LightState::Working);
}

#[test]
fn orphaned_working_session_eventually_becomes_idle() {
    let sessions = vec![session(LightState::Working, now().plus_secs(-1800 - 1))];
    assert_eq!(resolve_display_state(None, &sessions), LightState::Idle);
}

#[test]
fn session_ids_come_from_meta_lines_or_file_names() {
    assert_eq!(session_id_from_filename(Some("rollout-2026-08-20T03-34-00-uuid")).as_deref(), Some("uuid"));
    assert_eq!(session_id_from_filename(Some("rollout")).as_deref(), Some("rollout"));
    assert_eq!(session_id_from_filename(None), None);
    let text = r#"{"type":"session_meta","payload":{"id":"from-id"}}"#;
    assert_eq!(parse_rollout_text(Path::new("rollout-x-y.jsonl"), text).session_id.as_deref(), Some("from-id"));
    let text = r#"{"type":"session_meta","payload":{"session_id":7,"id":"ignored"}}"#;
    assert_eq!(parse_rollout_text(Path::new("rollout-x-y.jsonl"), text).session_id.as_deref(), Some("y"));
}

#[test]
fn waiting_takes_the_time_of_its_event() {
    let text = r#"
{"timestamp":"2026-08-20T03:00:05Z","type":"event_msg","payload":{"type":"exec_approval_request"}}
{"timestamp":"2026-08-20T03:00:10Z","type":"event_msg","payload":{"type":"token_count"}}
"#;
    let snap = parse_rollout_text(Path::new("rollout.jsonl"), text);
    assert_eq!(snap.state, LightState::Waiting);
    assert_eq!(snap.updated_at.secs, 1_787_194_805);
}

#[test]
fn rollout_files_are_chosen_by_name_and_age() {
    assert!(is_rollout_file_name("rollout-2026-08-20T03-00-00-zzzz.jsonl"));
    assert!(!is_rollout_file_name("rollout-x.json"));
    assert!(!is_rollout_file_name("notes.jsonl"));
    let t = Timestamp { secs: 200_000, nanos: 0 };
    assert!(is_recent_rollout(t.plus_secs(-129_600), t));
    assert!(!is_recent_rollout(t.plus_secs(-129_601), t));
    assert!(is_recent_rollout(Timestamp { secs: 0, nanos: 0 }, Timestamp { secs: 10, nanos: 0 }));
    // The cutoff may fall before the epoch.
    assert!(is_recent_rollout(Timestamp { secs: -100, nanos: 0 }, Timestamp { secs: 10, nanos: 0 }));
    assert!(!is_recent_rollout(Timestamp { secs: -129_591, nanos: 0 }, Timestamp { secs: 10, nanos: 0 }));
}

#[test]
fn newest_rollouts_keep_the_twenty_four_newest_in_order() {
    let times: Vec<Timestamp> = (0..30).map(|i| Timestamp { secs: (i % 10) as i64, nanos: 0 }).collect();
    let chosen = newest_rollouts(&times);
    assert_eq!(chosen.len(), 24);
    assert_eq!(&chosen[..6], &[9, 19, 29, 8, 18, 28]);
    for w in chosen.windows(2) {
        assert!(times[w[0]].secs >= times[w[1]].secs);
    }
    assert_eq!(newest_rollouts(&vec![]), Vec::<usize>::new());
    let few = vec![Timestamp { secs: 1, nanos: 0 }, Timestamp { secs: 3, nanos: 0 }];
    assert_eq!(newest_rollouts(&few), vec![1, 0]);
}

#[test]
fn sessions_aggregate_to_the_most_urgent_state() {
    let sessions = vec![session(LightState::Done, now()), session(LightState::Working, now())];
    assert_eq!(aggregate_sessions(&sessions), LightState::Working);
    assert_eq!(aggregate_sessions(&vec![]), LightState::Idle);
}

#[test]
fn scan_line_records_marks_at_the_line_time() {
    let env = RolloutEnvelope {
        timestamp: Some("ignored here".into()),
        kind: Some("event_msg".into()),
        payload_session_id: JsonField::Missing,
        payload_id: JsonField::Missing,
        payload_type: JsonField::Str("exec_approval_request".into()),
    };
    let mut session_id = None;
    let mut last_task = None;
    let mut updated_at = Timestamp { secs: 1, nanos: 0 };
    let t = Timestamp { secs: 50, nanos: 7 };
    scan_line(&env, Some(t), &mut session_id, &mut last_task, &mut updated_at);
    assert_eq!(last_task, Some((TaskMark::Waiting, t)));
    assert_eq!(updated_at, t);
    let meta = RolloutEnvelope {
        timestamp: None,
        kind: Some("session_meta".into()),
        payload_session_id: JsonField::Other,
        payload_id: JsonField::Str("id-1".into()),
        payload_type: JsonField::Missing,
    };
    scan_line(&meta, None, &mut session_id, &mut last_task, &mut updated_at);
    assert_eq!(session_id, None);
    assert_eq!(updated_at, t);
    let meta = RolloutEnvelope { payload_session_id: JsonField::Missing, ..meta };
    scan_line(&meta, None, &mut session_id, &mut last_task, &mut updated_at);
    assert_eq!(session_id.as_deref(), Some("id-1"));
}

#[test]
fn last_lifecycle_event_decides_the_state() {
    let text = r#"
{"timestamp":"2026-08-20T03:00:00Z","type":"event_msg","payload":{"type":"task_started"}}
{"timestamp":"2026-08-20T03:00:05Z","type":"event_msg","payload":{"type":"request_user_input"}}
{"timestamp":"2026-08-20T03:00:09Z","type":"event_msg","payload":{"type":"token_count"}}
{"timestamp":"2026-08-20T03:00:12Z","type":"response_item","payload":{"type":"message"}}
"#;
    let snap = parse_rollout_text(Path::new("rollout.jsonl"), text);
    assert_eq!(snap.state, LightState::Waiting);
    assert_eq!(snap.updated_at.secs, 1_787_194_805);
}

#[test]
fn rollout_lines_are_trimmed_and_blank_ones_skipped() {
    assert_eq!(rollout_line("  {\"a\":1}\r"), Some("{\"a\":1}".to_string()));
    assert_eq!(rollout_line(" \t "), None);
    assert_eq!(rollout_line(""), None);
}
