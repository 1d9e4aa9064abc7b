//! Codex rollout sessions: the light state inferred from a rollout log, and
//! the combination of rollout sessions with the legacy hook status.
use vstd::prelude::*;

use crate::status::{
    aggregate_states, apply_done_timeout_at, done_timeout, max_state, LightState, StatusSnapshot,
};
use crate::text::{
    chars_of, copy_opt_string, ends_with, starts_with, str_equal, string_of_range, trim, trim_bounds,
};
use crate::time::{
    is_before, later_of, nanos_between, nanos_since, not_after, now, parse_rfc3339,
    spec_parse_rfc3339, Timestamp, NANOS_PER_SEC,
};

verus! {

/// Last-resort lease for a working session when Codex disappears without a
/// terminal event (power loss, crash, corrupt log), in seconds. Normal quits
/// are reset immediately by the application-termination observer.
pub const WORKING_IDLE_AFTER_SECS: i128 = 1800;

/// Rollout files older than this many seconds are not scanned.
pub const ROLLOUT_MAX_AGE_SECS: i64 = 129600;

/// At most this many of the newest rollout files are read.
pub const MAX_ROLLOUT_FILES: usize = 24;

/// A legacy hook status older than this many seconds is ignored.
pub const LEGACY_MAX_AGE_SECS: i128 = 7200;

/// One Codex rollout session and the light state inferred from it.
#[derive(Debug)]
pub struct SessionSnapshot {
    pub path: String,
    pub session_id: Option<String>,
    pub state: LightState,
    pub updated_at: Timestamp,
}

/// What a JSON object holds under one key, as far as a string is concerned.
#[derive(Debug)]
pub enum JsonField {
    /// The key is absent, or the value is not an object.
    Missing,
    /// The key holds a string.
    Str(String),
    /// The key holds another kind of value.
    Other,
}

/// The string under a key, if it holds one.
pub open spec fn field_str(f: JsonField) -> Option<Seq<char>> {
    match f {
        JsonField::Str(s) => Some(s@),
        _ => None,
    }
}

/// One line of a rollout log, as far as the state inference reads it.
#[derive(Debug)]
pub struct RolloutEnvelope {
    /// The `timestamp` field.
    pub timestamp: Option<String>,
    /// The `type` field.
    pub kind: Option<String>,
    /// `payload.session_id`.
    pub payload_session_id: JsonField,
    /// `payload.id`.
    pub payload_id: JsonField,
    /// `payload.type`.
    pub payload_type: JsonField,
}

/// The kind of the latest task-lifecycle event of a rollout.
#[derive(Debug, Clone, Copy, PartialEq, Eq, Structural)]
pub enum TaskMark {
    Started,
    Waiting,
    Complete,
    Aborted,
}

/// Event-message subtypes that mean the agent is working.
pub open spec fn is_working_event(t: Seq<char>) -> bool {
    t == "task_started"@ || t == "exec_command_begin"@ || t == "exec_command_end"@ || t
        == "patch_apply_begin"@ || t == "patch_apply_end"@ || t == "mcp_tool_call_begin"@ || t
        == "mcp_tool_call_end"@ || t == "agent_reasoning"@ || t == "agent_message"@ || t
        == "item_completed"@
}

/// Event-message subtypes that mean the agent waits for the user.
pub open spec fn is_waiting_event(t: Seq<char>) -> bool {
    t == "exec_approval_request"@ || t == "apply_patch_approval_request"@ || t
        == "request_permissions"@ || t == "request_user_input"@ || t == "elicitation_request"@
}

/// The task mark of an event-message subtype, if it is a lifecycle event.
pub open spec fn task_mark_of(t: Seq<char>) -> Option<TaskMark> {
    if is_working_event(t) {
        Some(TaskMark::Started)
    } else if is_waiting_event(t) {
        Some(TaskMark::Waiting)
    } else if t == "task_complete"@ {
        Some(TaskMark::Complete)
    } else if t == "turn_aborted"@ {
        Some(TaskMark::Aborted)
    } else {
        None
    }
}

/// The progress of reading a rollout log.
pub struct RolloutScan {
    pub session_id: Option<Seq<char>>,
    pub last_task: Option<(TaskMark, Timestamp)>,
    pub updated_at: Timestamp,
}

/// The session id that a `session_meta` payload names: `session_id`, else
/// `id`, when it is a string.
pub open spec fn meta_session_id(env: RolloutEnvelope) -> Option<Seq<char>> {
    if env.payload_session_id is Missing {
        field_str(env.payload_id)
    } else {
        field_str(env.payload_session_id)
    }
}

/// The instant a rollout line's `timestamp` field names, when it is there
/// and chrono reads it as RFC 3339.
pub open spec fn line_time(env: RolloutEnvelope) -> Option<Timestamp> {
    match env.timestamp.deep_view() {
        Some(t) => spec_parse_rfc3339(t),
        None => None,
    }
}

/// Reading one line of a rollout log whose timestamp reads as `time`. A
/// line with a timestamp moves the clock; `session_meta` lines name the
/// session; `event_msg` lines with a lifecycle subtype record the latest task
/// mark at the current clock.
pub open spec fn scan_step_at(st: RolloutScan, env: RolloutEnvelope, time: Option<Timestamp>) -> RolloutScan {
    let updated = match time {
        Some(ts) => ts,
        None => st.updated_at,
    };
    let kind = env.kind.deep_view();
    if kind == Some("session_meta"@) {
        RolloutScan {
            session_id: match meta_session_id(env) {
                Some(id) => Some(id),
                None => st.session_id,
            },
            last_task: st.last_task,
            updated_at: updated,
        }
    } else if kind == Some("event_msg"@) {
        let subtype = match field_str(env.payload_type) {
            Some(t) => t,
            None => Seq::empty(),
        };
        RolloutScan {
            session_id: st.session_id,
            last_task: match task_mark_of(subtype) {
                Some(m) => Some((m, updated)),
                None => st.last_task,
            },
            updated_at: updated,
        }
    } else {
        RolloutScan { session_id: st.session_id, last_task: st.last_task, updated_at: updated }
    }
}

/// Reading one line of a rollout log.
pub open spec fn scan_step(st: RolloutScan, env: RolloutEnvelope) -> RolloutScan {
    scan_step_at(st, env, line_time(env))
}

/// Reading the lines of a rollout log in order.
pub open spec fn scan_lines(init: RolloutScan, lines: Seq<RolloutEnvelope>) -> RolloutScan
    decreases lines.len(),
{
    if lines.len() == 0 {
        init
    } else {
        scan_step(scan_lines(init, lines.drop_last()), lines.last())
    }
}

/// The state and time a finished scan reports: working at the last clock
/// reading after a start, waiting or done at the time of the mark after a
/// request or a completion, idle otherwise.
pub open spec fn scan_result(st: RolloutScan) -> (LightState, Timestamp) {
    match st.last_task {
        Some((TaskMark::Started, _)) => (LightState::Working, st.updated_at),
        Some((TaskMark::Waiting, ts)) => (LightState::Waiting, ts),
        Some((TaskMark::Complete, ts)) => (LightState::Done, ts),
        Some((TaskMark::Aborted, ts)) => (LightState::Done, ts),
        None => (LightState::Idle, st.updated_at),
    }
}

/// The event-message subtype of a rollout line (empty when it names none).
pub open spec fn line_subtype(env: RolloutEnvelope) -> Seq<char> {
    match field_str(env.payload_type) {
        Some(t) => t,
        None => Seq::empty(),
    }
}

/// Whether a rollout line is an `event_msg` line whose subtype is a
/// recognised lifecycle event.
pub open spec fn is_lifecycle_line(env: RolloutEnvelope) -> bool {
    env.kind.deep_view() == Some("event_msg"@) && task_mark_of(line_subtype(env)) is Some
}

/// The state that a lifecycle event leaves a session in.
pub open spec fn lifecycle_state(t: Seq<char>) -> LightState {
    if is_working_event(t) {
        LightState::Working
    } else if is_waiting_event(t) {
        LightState::Waiting
    } else if t == "task_complete"@ || t == "turn_aborted"@ {
        LightState::Done
    } else {
        LightState::Idle
    }
}

/// Lines that are no lifecycle event leave the latest task mark as it was.
proof fn lemma_scan_keeps_mark(init: RolloutScan, lines: Seq<RolloutEnvelope>)
    requires
        forall|j: int| 0 <= j < lines.len() ==> !is_lifecycle_line(#[trigger] lines[j]),
    ensures
        scan_lines(init, lines).last_task == init.last_task,
    decreases lines.len(),
{
    if lines.len() > 0 {
        let d = lines.drop_last();
        assert forall|j: int| 0 <= j < d.len() implies !is_lifecycle_line(#[trigger] d[j]) by {
            assert(d[j] == lines[j]);
        }
        lemma_scan_keeps_mark(init, d);
        assert(!is_lifecycle_line(lines[lines.len() - 1]));
    }
}

/// The latest task mark is that of the last lifecycle line, stamped with the
/// clock as it stood after that line.
proof fn lemma_scan_last_mark(init: RolloutScan, lines: Seq<RolloutEnvelope>, k: int)
    requires
        0 <= k < lines.len(),
        is_lifecycle_line(lines[k]),
        forall|j: int| k < j < lines.len() ==> !is_lifecycle_line(#[trigger] lines[j]),
    ensures
        scan_lines(init, lines).last_task == Some(
            (
                task_mark_of(line_subtype(lines[k]))->0,
                scan_lines(init, lines.take(k + 1)).updated_at,
            ),
        ),
    decreases lines.len(),
{
    reveal_strlit("event_msg");
    reveal_strlit("session_meta");
    let d = lines.drop_last();
    if k == lines.len() - 1 {
        assert(lines.take(k + 1) =~= lines);
        assert(lines.last() == lines[k]);
        // An event line is no session-meta line.
        assert("event_msg"@.len() != "session_meta"@.len());
    } else {
        assert(d[k] == lines[k]);
        assert forall|j: int| k < j < d.len() implies !is_lifecycle_line(#[trigger] d[j]) by {
            assert(d[j] == lines[j]);
        }
        lemma_scan_last_mark(init, d, k);
        assert(d.take(k + 1) =~= lines.take(k + 1));
        assert(!is_lifecycle_line(lines[lines.len() - 1]));
    }
}

/// What one `event_msg` line of a rollout log does to the scan: a working
/// event (task_started, exec_command_begin, exec_command_end, patch_apply_begin, patch_apply_end, mcp_tool_call_begin, mcp_tool_call_end, agent_reasoning, agent_message, item_completed) sets the latest task mark to a start, so the
/// session reads as working; a request (exec_approval_request, apply_patch_approval_request, request_permissions, request_user_input, elicitation_request) makes it wait;
/// `task_complete` and `turn_aborted` make it done; any other subtype leaves
/// the mark as it was. A marked event is dated by the line's clock.
pub proof fn law_rollout_event_marks(
    st: RolloutScan,
    env: RolloutEnvelope,
    time: Option<Timestamp>,
    t: Seq<char>,
)
    requires
        env.kind.deep_view() == Some("event_msg"@),
        field_str(env.payload_type) == Some(t),
    ensures
        ({
            let r = scan_step_at(st, env, time);
            &&& (t == "task_started"@ || t == "exec_command_begin"@ || t == "exec_command_end"@ || t == "patch_apply_begin"@ || t == "patch_apply_end"@ || t == "mcp_tool_call_begin"@ || t == "mcp_tool_call_end"@ || t == "agent_reasoning"@ || t == "agent_message"@ || t == "item_completed"@) ==> r.last_task == Some((TaskMark::Started, r.updated_at))
                && scan_result(r).0 == LightState::Working
            &&& (t == "exec_approval_request"@ || t == "apply_patch_approval_request"@ || t == "request_permissions"@ || t == "request_user_input"@ || t == "elicitation_request"@) ==> r.last_task == Some((TaskMark::Waiting, r.updated_at))
                && scan_result(r).0 == LightState::Waiting
            &&& (t == "task_complete"@ || t == "turn_aborted"@) ==> scan_result(r).0 == LightState::Done && scan_result(r).1
                == r.updated_at
            &&& !(t == "task_started"@ || t == "exec_command_begin"@ || t == "exec_command_end"@ || t == "patch_apply_begin"@ || t == "patch_apply_end"@ || t == "mcp_tool_call_begin"@ || t == "mcp_tool_call_end"@ || t == "agent_reasoning"@ || t == "agent_message"@ || t == "item_completed"@ || t == "exec_approval_request"@ || t == "apply_patch_approval_request"@ || t == "request_permissions"@ || t == "request_user_input"@ || t == "elicitation_request"@ || t == "task_complete"@ || t == "turn_aborted"@) ==> r.last_task == st.last_task
        }),
{
    reveal_strlit("task_started");
    reveal_strlit("exec_command_begin");
    reveal_strlit("exec_command_end");
    reveal_strlit("patch_apply_begin");
    reveal_strlit("patch_apply_end");
    reveal_strlit("mcp_tool_call_begin");
    reveal_strlit("mcp_tool_call_end");
    reveal_strlit("agent_reasoning");
    reveal_strlit("agent_message");
    reveal_strlit("item_completed");
    reveal_strlit("exec_approval_request");
    reveal_strlit("apply_patch_approval_request");
    reveal_strlit("request_permissions");
    reveal_strlit("request_user_input");
    reveal_strlit("elicitation_request");
    reveal_strlit("task_complete");
    reveal_strlit("turn_aborted");
    reveal_strlit("event_msg");
    reveal_strlit("session_meta");
    // The subtypes and line kinds are distinct.
    assert("task_started"@.len() != "exec_command_begin"@.len());
    assert("task_started"@.len() != "exec_command_end"@.len());
    assert("task_started"@.len() != "patch_apply_begin"@.len());
    assert("task_started"@.len() != "patch_apply_end"@.len());
    assert("task_started"@.len() != "mcp_tool_call_begin"@.len());
    assert("task_started"@.len() != "mcp_tool_call_end"@.len());
    assert("task_started"@.len() != "agent_reasoning"@.len());
    assert("task_started"@.len() != "agent_message"@.len());
    assert("task_started"@.len() != "item_completed"@.len());
    assert("task_started"@.len() != "exec_approval_request"@.len());
    assert("task_started"@.len() != "apply_patch_approval_request"@.len());
    assert("task_started"@.len() != "request_permissions"@.len());
    assert("task_started"@.len() != "request_user_input"@.len());
    assert("task_started"@.len() != "elicitation_request"@.len());
    assert("task_started"@.len() != "task_complete"@.len());
    assert("task_started"@[1] != "turn_aborted"@[1]);
    assert("exec_command_begin"@.len() != "exec_command_end"@.len());
    assert("exec_command_begin"@.len() != "patch_apply_begin"@.len());
    assert("exec_command_begin"@.len() != "patch_apply_end"@.len());
    assert("exec_command_begin"@.len() != "mcp_tool_call_begin"@.len());
    assert("exec_command_begin"@.len() != "mcp_tool_call_end"@.len());
    assert("exec_command_begin"@.len() != "agent_reasoning"@.len());
    assert("exec_command_begin"@.len() != "agent_message"@.len());
    assert("exec_command_begin"@.len() != "item_completed"@.len());
    assert("exec_command_begin"@.len() != "exec_approval_request"@.len());
    assert("exec_command_begin"@.len() != "apply_patch_approval_request"@.len());
    assert("exec_command_begin"@.len() != "request_permissions"@.len());
    assert("exec_command_begin"@[0] != "request_user_input"@[0]);
    assert("exec_command_begin"@.len() != "elicitation_request"@.len());
    assert("exec_command_begin"@.len() != "task_complete"@.len());
    assert("exec_command_begin"@.len() != "turn_aborted"@.len());
    assert("exec_command_end"@.len() != "patch_apply_begin"@.len());
    assert("exec_command_end"@.len() != "patch_apply_end"@.len());
    assert("exec_command_end"@.len() != "mcp_tool_call_begin"@.len());
    assert("exec_command_end"@.len() != "mcp_tool_call_end"@.len());
    assert("exec_command_end"@.len() != "agent_reasoning"@.len());
    assert("exec_command_end"@.len() != "agent_message"@.len());
    assert("exec_command_end"@.len() != "item_completed"@.len());
    assert("exec_command_end"@.len() != "exec_approval_request"@.len());
    assert("exec_command_end"@.len() != "apply_patch_approval_request"@.len());
    assert("exec_command_end"@.len() != "request_permissions"@.len());
    assert("exec_command_end"@.len() != "request_user_input"@.len());
    assert("exec_command_end"@.len() != "elicitation_request"@.len());
    assert("exec_command_end"@.len() != "task_complete"@.len());
    assert("exec_command_end"@.len() != "turn_aborted"@.len());
    assert("patch_apply_begin"@.len() != "patch_apply_end"@.len());
    assert("patch_apply_begin"@.len() != "mcp_tool_call_begin"@.len());
    assert("patch_apply_begin"@[0] != "mcp_tool_call_end"@[0]);
    assert("patch_apply_begin"@.len() != "agent_reasoning"@.len());
    assert("patch_apply_begin"@.len() != "agent_message"@.len());
    assert("patch_apply_begin"@.len() != "item_completed"@.len());
    assert("patch_apply_begin"@.len() != "exec_approval_request"@.len());
    assert("patch_apply_begin"@.len() != "apply_patch_approval_request"@.len());
    assert("patch_apply_begin"@.len() != "request_permissions"@.len());
    assert("patch_apply_begin"@.len() != "request_user_input"@.len());
    assert("patch_apply_begin"@.len() != "elicitation_request"@.len());
    assert("patch_apply_begin"@.len() != "task_complete"@.len());
    assert("patch_apply_begin"@.len() != "turn_aborted"@.len());
    assert("patch_apply_end"@.len() != "mcp_tool_call_begin"@.len());
    assert("patch_apply_end"@.len() != "mcp_tool_call_end"@.len());
    assert("patch_apply_end"@[0] != "agent_reasoning"@[0]);
    assert("patch_apply_end"@.len() != "agent_message"@.len());
    assert("patch_apply_end"@.len() != "item_completed"@.len());
    assert("patch_apply_end"@.len() != "exec_approval_request"@.len());
    assert("patch_apply_end"@.len() != "apply_patch_approval_request"@.len());
    assert("patch_apply_end"@.len() != "request_permissions"@.len());
    assert("patch_apply_end"@.len() != "request_user_input"@.len());
    assert("patch_apply_end"@.len() != "elicitation_request"@.len());
    assert("patch_apply_end"@.len() != "task_complete"@.len());
    assert("patch_apply_end"@.len() != "turn_aborted"@.len());
    assert("mcp_tool_call_begin"@.len() != "mcp_tool_call_end"@.len());
    assert("mcp_tool_call_begin"@.len() != "agent_reasoning"@.len());
    assert("mcp_tool_call_begin"@.len() != "agent_message"@.len());
    assert("mcp_tool_call_begin"@.len() != "item_completed"@.len());
    assert("mcp_tool_call_begin"@.len() != "exec_approval_request"@.len());
    assert("mcp_tool_call_begin"@.len() != "apply_patch_approval_request"@.len());
    assert("mcp_tool_call_begin"@[0] != "request_permissions"@[0]);
    assert("mcp_tool_call_begin"@.len() != "request_user_input"@.len());
    assert("mcp_tool_call_begin"@[0] != "elicitation_request"@[0]);
    assert("mcp_tool_call_begin"@.len() != "task_complete"@.len());
    assert("mcp_tool_call_begin"@.len() != "turn_aborted"@.len());
    assert("mcp_tool_call_end"@.len() != "agent_reasoning"@.len());
    assert("mcp_tool_call_end"@.len() != "agent_message"@.len());
    assert("mcp_tool_call_end"@.len() != "item_completed"@.len());
    assert("mcp_tool_call_end"@.len() != "exec_approval_request"@.len());
    assert("mcp_tool_call_end"@.len() != "apply_patch_approval_request"@.len());
    assert("mcp_tool_call_end"@.len() != "request_permissions"@.len());
    assert("mcp_tool_call_end"@.len() != "request_user_input"@.len());
    assert("mcp_tool_call_end"@.len() != "elicitation_request"@.len());
    assert("mcp_tool_call_end"@.len() != "task_complete"@.len());
    assert("mcp_tool_call_end"@.len() != "turn_aborted"@.len());
    assert("agent_reasoning"@.len() != "agent_message"@.len());
    assert("agent_reasoning"@.len() != "item_completed"@.len());
    assert("agent_reasoning"@.len() != "exec_approval_request"@.len());
    assert("agent_reasoning"@.len() != "apply_patch_approval_request"@.len());
    assert("agent_reasoning"@.len() != "request_permissions"@.len());
    assert("agent_reasoning"@.len() != "request_user_input"@.len());
    assert("agent_reasoning"@.len() != "elicitation_request"@.len());
    assert("agent_reasoning"@.len() != "task_complete"@.len());
    assert("agent_reasoning"@.len() != "turn_aborted"@.len());
    assert("agent_message"@.len() != "item_completed"@.len());
    assert("agent_message"@.len() != "exec_approval_request"@.len());
    assert("agent_message"@.len() != "apply_patch_approval_request"@.len());
    assert("agent_message"@.len() != "request_permissions"@.len());
    assert("agent_message"@.len() != "request_user_input"@.len());
    assert("agent_message"@.len() != "elicitation_request"@.len());
    assert("agent_message"@[0] != "task_complete"@[0]);
    assert("agent_message"@.len() != "turn_aborted"@.len());
    assert("item_completed"@.len() != "exec_approval_request"@.len());
    assert("item_completed"@.len() != "apply_patch_approval_request"@.len());
    assert("item_completed"@.len() != "request_permissions"@.len());
    assert("item_completed"@.len() != "request_user_input"@.len());
    assert("item_completed"@.len() != "elicitation_request"@.len());
    assert("item_completed"@.len() != "task_complete"@.len());
    assert("item_completed"@.len() != "turn_aborted"@.len());
    assert("exec_approval_request"@.len() != "apply_patch_approval_request"@.len());
    assert("exec_approval_request"@.len() != "request_permissions"@.len());
    assert("exec_approval_request"@.len() != "request_user_input"@.len());
    assert("exec_approval_request"@.len() != "elicitation_request"@.len());
    assert("exec_approval_request"@.len() != "task_complete"@.len());
    assert("exec_approval_request"@.len() != "turn_aborted"@.len());
    assert("apply_patch_approval_request"@.len() != "request_permissions"@.len());
    assert("apply_patch_approval_request"@.len() != "request_user_input"@.len());
    assert("apply_patch_approval_request"@.len() != "elicitation_request"@.len());
    assert("apply_patch_approval_request"@.len() != "task_complete"@.len());
    assert("apply_patch_approval_request"@.len() != "turn_aborted"@.len());
    assert("request_permissions"@.len() != "request_user_input"@.len());
    assert("request_permissions"@[0] != "elicitation_request"@[0]);
    assert("request_permissions"@.len() != "task_complete"@.len());
    assert("request_permissions"@.len() != "turn_aborted"@.len());
    assert("request_user_input"@.len() != "elicitation_request"@.len());
    assert("request_user_input"@.len() != "task_complete"@.len());
    assert("request_user_input"@.len() != "turn_aborted"@.len());
    assert("elicitation_request"@.len() != "task_complete"@.len());
    assert("elicitation_request"@.len() != "turn_aborted"@.len());
    assert("task_complete"@.len() != "turn_aborted"@.len());
    assert("event_msg"@.len() != "session_meta"@.len());
}

/// Every rollout line with a timestamp moves the scan's clock to it (a line
/// without one leaves the clock). A `session_meta` line names the session by
/// its payload's `session_id`, or by `id` when `session_id` is absent, and
/// leaves the task mark.
pub proof fn law_rollout_clock_and_meta(st: RolloutScan, env: RolloutEnvelope, time: Option<Timestamp>)
    ensures
        ({
            let r = scan_step_at(st, env, time);
            &&& (time matches Some(t) ==> r.updated_at == t)
            &&& time is None ==> r.updated_at == st.updated_at
            &&& env.kind.deep_view() == Some("session_meta"@) ==> {
                &&& r.last_task == st.last_task
                &&& (env.payload_session_id matches JsonField::Str(id) ==> r.session_id == Some(
                    id@,
                ))
                &&& (env.payload_session_id is Missing ==> (env.payload_id matches JsonField::Str(id)
                    ==> r.session_id == Some(id@)))
            }
        }),
{
}

/// How long a rollout session or the legacy record keeps its state: a
/// working one is idle once its provider was reset at or after its time, or
/// 30 minutes after it; a waiting one is idle only after such a reset; other
/// states are kept.
pub proof fn law_session_lifetimes(
    state: LightState,
    updated_at: Timestamp,
    reset: Option<Timestamp>,
    now: Timestamp,
)
    ensures
        ({
            let r = effective_active(state, updated_at, reset, now);
            let before_reset = reset matches Some(t) && updated_at.precedes_eq(t);
            &&& state == LightState::Working ==> r == (if before_reset || nanos_since(now, updated_at)
                >= 1800 * 1_000_000_000 {
                LightState::Idle
            } else {
                LightState::Working
            })
            &&& state == LightState::Waiting ==> r == (if before_reset {
                LightState::Idle
            } else {
                LightState::Waiting
            })
            &&& (state == LightState::Done || state == LightState::Idle) ==> r == state
        }),
{
}

/// The last recognised lifecycle event of a rollout log decides the state
/// of its session: working after a working event, waiting after a request,
/// done after a completion or an abort, idle when the log holds none. A
/// waiting or done session is dated by the clock at that event.
pub proof fn law_last_lifecycle_event_decides_state(
    init: RolloutScan,
    lines: Seq<RolloutEnvelope>,
)
    requires
        init.last_task is None,
    ensures
        (forall|j: int| 0 <= j < lines.len() ==> !is_lifecycle_line(#[trigger] lines[j]))
            ==> scan_result(scan_lines(init, lines)).0 == LightState::Idle,
        forall|k: int|
            0 <= k < lines.len() && #[trigger] is_lifecycle_line(lines[k]) && (forall|j: int|
                k < j < lines.len() ==> !is_lifecycle_line(#[trigger] lines[j])) ==> {
                let st = lifecycle_state(line_subtype(lines[k]));
                &&& scan_result(scan_lines(init, lines)).0 == st
                &&& st != LightState::Working ==> scan_result(scan_lines(init, lines)).1
                    == scan_lines(init, lines.take(k + 1)).updated_at
            },
{
    if forall|j: int| 0 <= j < lines.len() ==> !is_lifecycle_line(#[trigger] lines[j]) {
        lemma_scan_keeps_mark(init, lines);
    }
    assert forall|k: int|
        0 <= k < lines.len() && #[trigger] is_lifecycle_line(lines[k]) && (forall|j: int|
            k < j < lines.len() ==> !is_lifecycle_line(#[trigger] lines[j])) implies {
        let st = lifecycle_state(line_subtype(lines[k]));
        &&& scan_result(scan_lines(init, lines)).0 == st
        &&& st != LightState::Working ==> scan_result(scan_lines(init, lines)).1 == scan_lines(
            init,
            lines.take(k + 1),
        ).updated_at
    } by {
        lemma_scan_last_mark(init, lines, k);
    }
}

/// The text after the last '-' of `s` (all of `s` when it has none).
pub open spec fn last_dash_segment(s: Seq<char>) -> Seq<char> {
    s.skip(last_dash_end(s))
}

/// The position just after the last '-' of `s` (0 when it has none).
pub open spec fn last_dash_end(s: Seq<char>) -> int
    decreases s.len(),
{
    if s.len() == 0 {
        0
    } else if s.last() == '-' {
        s.len() as int
    } else {
        last_dash_end(s.drop_last())
    }
}

proof fn lemma_last_dash_end(s: Seq<char>)
    ensures
        0 <= last_dash_end(s) <= s.len(),
        forall|j: int| last_dash_end(s) <= j < s.len() ==> s[j] != '-',
        last_dash_end(s) > 0 ==> s[last_dash_end(s) - 1] == '-',
    decreases s.len(),
{
    if s.len() > 0 && s.last() != '-' {
        lemma_last_dash_end(s.drop_last());
        assert forall|j: int| last_dash_end(s) <= j < s.len() implies s[j] != '-' by {
            if j < s.len() - 1 {
                assert(s[j] == s.drop_last()[j]);
            }
        }
        if last_dash_end(s) > 0 {
            assert(s[last_dash_end(s) - 1] == s.drop_last()[last_dash_end(s) - 1]);
        }
    }
}

/// The session id that a rollout file's stem carries: the text after its last
/// '-' (`rollout-2026-08-20T03-34-00-<uuid>` gives the uuid).
pub fn session_id_from_stem(stem: &str) -> (r: String)
    ensures
        r@ == last_dash_segment(stem@),
{
    let v = chars_of(stem);
    let mut end: usize = v.len();
    assert(v@.take(v@.len() as int) =~= v@);
    while end > 0 && v[end - 1] != '-'
        invariant
            end <= v@.len(),
            last_dash_end(v@) == last_dash_end(v@.take(end as int)),
        decreases end,
    {
        proof {
            assert(v@.take(end as int).drop_last() =~= v@.take(end - 1));
        }
        end = end - 1;
    }
    proof {
        if end > 0 {
            assert(v@.take(end as int).last() == '-');
        }
        assert(v@.take(0) =~= Seq::<char>::empty());
    }
    string_of_range(&v, end, v.len())
}

/// The session id of a rollout file from its stem (the file name without
/// its extension), if the name has one.
pub fn session_id_from_filename(stem: Option<&str>) -> (r: Option<String>)
    ensures
        match stem.deep_view() {
            Some(s) => r.deep_view() == Some(last_dash_segment(s)),
            None => r is None,
        },
{
    match stem {
        Some(s) => Some(session_id_from_stem(s)),
        None => None,
    }
}

/// Reads one rollout line into the scan, reading its timestamp with chrono.
fn scan_envelope(
    env: &RolloutEnvelope,
    session_id: &mut Option<String>,
    last_task: &mut Option<(TaskMark, Timestamp)>,
    updated_at: &mut Timestamp,
)
    ensures
        ({
            let before = RolloutScan {
                session_id: old(session_id).deep_view(),
                last_task: *old(last_task),
                updated_at: *old(updated_at),
            };
            let after = scan_step(before, *env);
            &&& final(session_id).deep_view() == after.session_id
            &&& *final(last_task) == after.last_task
            &&& *final(updated_at) == after.updated_at
        }),
{
    let time = match &env.timestamp {
        Some(t) => parse_rfc3339(t.as_str()),
        None => None,
    };
    scan_line(env, time, session_id, last_task, updated_at);
}

/// Reads one rollout line, whose timestamp reads as `time`, into the scan.
pub fn scan_line(
    env: &RolloutEnvelope,
    time: Option<Timestamp>,
    session_id: &mut Option<String>,
    last_task: &mut Option<(TaskMark, Timestamp)>,
    updated_at: &mut Timestamp,
)
    ensures
        ({
            let before = RolloutScan {
                session_id: old(session_id).deep_view(),
                last_task: *old(last_task),
                updated_at: *old(updated_at),
            };
            let after = scan_step_at(before, *env, time);
            &&& final(session_id).deep_view() == after.session_id
            &&& *final(last_task) == after.last_task
            &&& *final(updated_at) == after.updated_at
        }),
{
    let ghost before = RolloutScan {
        session_id: session_id.deep_view(),
        last_task: *last_task,
        updated_at: *updated_at,
    };
    let ghost after = scan_step_at(before, *env, time);
    match time {
        Some(ts) => {
            *updated_at = ts;
        },
        None => {},
    }
    let is_meta = match &env.kind {
        Some(k) => str_equal(k.as_str(), "session_meta"),
        None => false,
    };
    let is_event = match &env.kind {
        Some(k) => str_equal(k.as_str(), "event_msg"),
        None => false,
    };
    assert(*updated_at == after.updated_at);
    if is_meta {
        let id_field = match &env.payload_session_id {
            JsonField::Missing => &env.payload_id,
            other => other,
        };
        assert(field_str(*id_field) == meta_session_id(*env));
        match id_field {
            JsonField::Str(id) => {
                *session_id = Some(id.clone());
            },
            _ => {},
        }
        assert(session_id.deep_view() == after.session_id);
        assert(*last_task == after.last_task);
    } else if is_event {
        let subtype: &str = match &env.payload_type {
            JsonField::Str(t) => t.as_str(),
            _ => "",
        };
        proof {
            reveal_strlit("");
        }
        let mark = if str_equal(subtype, "task_started") || str_equal(subtype, "exec_command_begin")
            || str_equal(subtype, "exec_command_end") || str_equal(subtype, "patch_apply_begin")
            || str_equal(subtype, "patch_apply_end") || str_equal(subtype, "mcp_tool_call_begin")
            || str_equal(subtype, "mcp_tool_call_end") || str_equal(subtype, "agent_reasoning")
            || str_equal(subtype, "agent_message") || str_equal(subtype, "item_completed") {
            Some(TaskMark::Started)
        } else if str_equal(subtype, "exec_approval_request") || str_equal(
            subtype,
            "apply_patch_approval_request",
        ) || str_equal(subtype, "request_permissions") || str_equal(subtype, "request_user_input")
            || str_equal(subtype, "elicitation_request") {
            Some(TaskMark::Waiting)
        } else if str_equal(subtype, "task_complete") {
            Some(TaskMark::Complete)
        } else if str_equal(subtype, "turn_aborted") {
            Some(TaskMark::Aborted)
        } else {
            None
        };
        assert(subtype@ == (match field_str(env.payload_type) {
            Some(t) => t,
            None => Seq::empty(),
        }));
        assert(mark == task_mark_of(subtype@));
        match mark {
            Some(m) => {
                *last_task = Some((m, *updated_at));
            },
            None => {},
        }
        assert(*last_task == after.last_task);
    }
}

/// A line of a rollout log as it is handed to the JSON parser: without the
/// white space around it; `None` for a blank line, which is skipped.
pub fn rollout_line(line: &str) -> (r: Option<String>)
    ensures
        match r {
            Some(s) => s@ == trim(line@) && s@.len() > 0,
            None => trim(line@).len() == 0,
        },
{
    let v = chars_of(line);
    let (a, b) = trim_bounds(&v);
    if a == b {
        None
    } else {
        Some(string_of_range(&v, a, b))
    }
}

/// The session that a rollout log describes. `lines` are the log's lines that
/// parsed as JSON objects, in order; `session_id` is the id carried by the
/// file name and `file_mtime` the file's modification time, used until a line
/// names other values.
pub fn parse_rollout_lines(
    path: String,
    session_id: Option<String>,
    file_mtime: Timestamp,
    lines: &Vec<RolloutEnvelope>,
) -> (r: SessionSnapshot)
    ensures
        ({
            let init = RolloutScan {
                session_id: session_id.deep_view(),
                last_task: None,
                updated_at: file_mtime,
            };
            let done = scan_lines(init, lines@);
            &&& r.path@ == path@
            &&& r.session_id.deep_view() == done.session_id
            &&& (r.state, r.updated_at) == scan_result(done)
        }),
{
    let ghost init = RolloutScan {
        session_id: session_id.deep_view(),
        last_task: None,
        updated_at: file_mtime,
    };
    let mut sid = session_id;
    let mut last_task: Option<(TaskMark, Timestamp)> = None;
    let mut updated_at = file_mtime;
    let mut i: usize = 0;
    while i < lines.len()
        invariant
            i <= lines@.len(),
            ({
                let st = scan_lines(init, lines@.take(i as int));
                &&& sid.deep_view() == st.session_id
                &&& last_task == st.last_task
                &&& updated_at == st.updated_at
            }),
        decreases lines.len() - i,
    {
        proof {
            assert(lines@.take(i + 1).drop_last() =~= lines@.take(i as int));
        }
        scan_envelope(&lines[i], &mut sid, &mut last_task, &mut updated_at);
        i = i + 1;
    }
    proof {
        assert(lines@.take(i as int) =~= lines@);
    }
    let state = match last_task {
        Some((TaskMark::Started, _)) => LightState::Working,
        Some((TaskMark::Waiting, ts)) => {
            updated_at = ts;
            LightState::Waiting
        },
        Some((TaskMark::Complete, ts)) => {
            updated_at = ts;
            LightState::Done
        },
        Some((TaskMark::Aborted, ts)) => {
            updated_at = ts;
            LightState::Done
        },
        None => LightState::Idle,
    };
    SessionSnapshot { path, session_id: sid, state, updated_at }
}

/// Whether a file name is that of a rollout log (`rollout-*.jsonl`).
pub fn is_rollout_file_name(name: &str) -> (r: bool)
    ensures
        r == (crate::text::has_prefix(name@, "rollout-"@) && crate::text::has_suffix(
            name@,
            ".jsonl"@,
        )),
{
    let v = chars_of(name);
    starts_with(&v, &chars_of("rollout-")) && ends_with(&v, &chars_of(".jsonl"))
}

/// The earliest modification time of a rollout file that is read at time
/// `now`: `ROLLOUT_MAX_AGE_SECS` before `now`, or the epoch where that
/// instant cannot be represented.
pub open spec fn rollout_cutoff(now: Timestamp) -> Timestamp {
    if now.secs - ROLLOUT_MAX_AGE_SECS >= i64::MIN {
        Timestamp { secs: (now.secs - ROLLOUT_MAX_AGE_SECS) as i64, nanos: now.nanos }
    } else {
        Timestamp { secs: 0, nanos: 0 }
    }
}

/// Whether a rollout file modified at `mtime` is recent enough to read at
/// time `now`: not before the cutoff.
pub fn is_recent_rollout(mtime: Timestamp, now: Timestamp) -> (r: bool)
    ensures
        r == rollout_cutoff(now).precedes_eq(mtime),
{
    let cutoff = match now.secs.checked_sub(ROLLOUT_MAX_AGE_SECS) {
        Some(secs) => Timestamp { secs, nanos: now.nanos },
        None => Timestamp { secs: 0, nanos: 0 },
    };
    not_after(&cutoff, &mtime)
}

/// Whether the file at `i` comes before the file at `j` when files are
/// ordered newest first, files with the same time keeping their order.
pub open spec fn newer_first(mtimes: Seq<Timestamp>, i: int, j: int) -> bool {
    mtimes[j].precedes(mtimes[i]) || (mtimes[i] == mtimes[j] && i < j)
}

/// The positions of the rollout files to read, given their modification
/// times: the `MAX_ROLLOUT_FILES` newest, newest first, files with the same
/// time in the order given (a stable sort by descending time, cut to length).
pub fn newest_rollouts(mtimes: &Vec<Timestamp>) -> (r: Vec<usize>)
    ensures
        r@.len() == (if mtimes@.len() < MAX_ROLLOUT_FILES {
            mtimes@.len()
        } else {
            MAX_ROLLOUT_FILES as nat
        }),
        forall|a: int| 0 <= a < r@.len() ==> #[trigger] r@[a] < mtimes@.len(),
        forall|a: int, b: int|
            0 <= a < b < r@.len() ==> newer_first(mtimes@, #[trigger] r@[a] as int, #[trigger] r@[b] as int),
        forall|a: int, y: int|
            0 <= a < r@.len() && 0 <= y < mtimes@.len() && !r@.contains(y as usize) ==> #[trigger] newer_first(
                mtimes@,
                r@[a] as int,
                y,
            ),
{
    let n = mtimes.len();
    let limit = if n < MAX_ROLLOUT_FILES {
        n
    } else {
        MAX_ROLLOUT_FILES
    };
    let mut chosen: Vec<bool> = Vec::new();
    let mut k: usize = 0;
    while k < n
        invariant
            k <= n == mtimes@.len(),
            chosen@.len() == k,
            forall|x: int| 0 <= x < k ==> !chosen@[x],
        decreases n - k,
    {
        chosen.push(false);
        k = k + 1;
    }
    let mut r: Vec<usize> = Vec::new();
    while r.len() < limit
        invariant
            limit <= n == mtimes@.len(),
            chosen@.len() == n,
            r@.len() <= limit,
            forall|a: int| 0 <= a < r@.len() ==> #[trigger] r@[a] < n,
            forall|x: int| 0 <= x < n ==> (chosen@[x] <==> r@.contains(x as usize)),
            forall|a: int, b: int|
                0 <= a < b < r@.len() ==> newer_first(mtimes@, #[trigger] r@[a] as int, #[trigger] r@[b] as int),
            forall|a: int, y: int|
                0 <= a < r@.len() && 0 <= y < n && !chosen@[y] ==> #[trigger] newer_first(
                    mtimes@,
                    r@[a] as int,
                    y,
                ),
        decreases limit - r@.len(),
    {
        // The newest file not chosen yet; the first one among equals.
        let mut best: usize = n;
        let mut i: usize = 0;
        while i < n
            invariant
                n == mtimes@.len(),
                chosen@.len() == n,
                i <= n,
                best == n || (best < i && !chosen@[best as int]),
                best == n ==> forall|y: int| 0 <= y < i ==> chosen@[y],
                best < n ==> forall|y: int|
                    0 <= y < i && !chosen@[y] && y != best ==> newer_first(mtimes@, best as int, y),
            decreases n - i,
        {
            if !chosen[i] {
                if best == n || is_before(&mtimes[best], &mtimes[i]) {
                    best = i;
                }
            }
            i = i + 1;
        }
        proof {
            if best == n {
                // Fewer than `limit` chosen means some file is left.
                assert(r@.len() < n);
                lemma_all_chosen(r@, n as int);
                let y = choose|y: int| 0 <= y < n && !(#[trigger] r@.contains(y as usize));
                assert(!chosen@[y]);
            }
        }
        let ghost old_r = r@;
        chosen.set(best, true);
        r.push(best);
        proof {
            assert forall|x: int| 0 <= x < n implies (chosen@[x] <==> r@.contains(x as usize)) by {
                if x == best {
                    assert(r@[r@.len() - 1] == best);
                } else {
                    if r@.contains(x as usize) {
                        let a = choose|a: int| 0 <= a < r@.len() && r@[a] == x as usize;
                        assert(a < old_r.len());
                        assert(old_r.contains(x as usize));
                    }
                    if old_r.contains(x as usize) {
                        let a = choose|a: int| 0 <= a < old_r.len() && old_r[a] == x as usize;
                        assert(r@[a] == x as usize);
                    }
                }
            }
        }
    }
    proof {
        assert forall|a: int, y: int|
            0 <= a < r@.len() && 0 <= y < mtimes@.len() && !r@.contains(y as usize) implies #[trigger] newer_first(
            mtimes@,
            r@[a] as int,
            y,
        ) by {
            assert(!chosen@[y]);
        }
    }
    r
}

/// The positions below `n`.
pub open spec fn positions_below(n: int) -> Set<usize> {
    Set::new(|y: usize| y < n)
}

/// There are `n` positions below `n`.
proof fn lemma_positions_below(n: int)
    requires
        0 <= n <= usize::MAX + 1,
    ensures
        positions_below(n).finite(),
        positions_below(n).len() == n,
    decreases n,
{
    if n == 0 {
        assert(positions_below(n) =~= Set::<usize>::empty());
    } else {
        lemma_positions_below(n - 1);
        assert(positions_below(n) =~= positions_below(n - 1).insert((n - 1) as usize));
    }
}

/// A list of fewer than `n` positions leaves out a position below `n`.
proof fn lemma_all_chosen(r: Seq<usize>, n: int)
    requires
        r.len() < n <= usize::MAX + 1,
    ensures
        exists|y: int| 0 <= y < n && !(#[trigger] r.contains(y as usize)),
{
    broadcast use vstd::seq_lib::seq_to_set_is_finite;

    if forall|y: int| 0 <= y < n ==> #[trigger] r.contains(y as usize) {
        assert(positions_below(n).subset_of(r.to_set())) by {
            assert forall|x: usize| positions_below(n).contains(x) implies r.to_set().contains(x) by {
                assert(r.contains(x as int as usize));
            }
        }
        r.lemma_cardinality_of_set();
        lemma_positions_below(n);
        vstd::set_lib::lemma_len_subset(positions_below(n), r.to_set());
    }
}

// ------------------------------------------------ combining with the hook

/// Whether a state means a conversation is still active.
pub open spec fn is_active(state: LightState) -> bool {
    state == LightState::Working || state == LightState::Waiting
}

/// The state a session or hook record shows at time `now`: an active state
/// recorded at or before a known application termination `reset` is idle; a
/// working state older than `WORKING_IDLE_AFTER_SECS` is idle.
pub open spec fn effective_active(
    state: LightState,
    updated_at: Timestamp,
    reset: Option<Timestamp>,
    now: Timestamp,
) -> LightState {
    if is_active(state) && reset is Some && updated_at.precedes_eq(reset->0) {
        LightState::Idle
    } else if state == LightState::Working && nanos_since(now, updated_at)
        >= WORKING_IDLE_AFTER_SECS * NANOS_PER_SEC {
        LightState::Idle
    } else {
        state
    }
}

/// `effective_active` at time `now`.
pub fn effective_active_state(
    state: LightState,
    updated_at: Timestamp,
    activity_reset_at: Option<Timestamp>,
    now: Timestamp,
) -> (r: LightState)
    ensures
        r == effective_active(state, updated_at, activity_reset_at, now),
{
    let active = state == LightState::Working || state == LightState::Waiting;
    let before_reset = match activity_reset_at {
        Some(reset) => not_after(&updated_at, &reset),
        None => false,
    };
    if active && before_reset {
        return LightState::Idle;
    }
    if state == LightState::Working && nanos_between(&updated_at, &now) >= WORKING_IDLE_AFTER_SECS
        * NANOS_PER_SEC {
        return LightState::Idle;
    }
    state
}

/// The states of the sessions, in order.
pub open spec fn session_states(sessions: Seq<SessionSnapshot>) -> Seq<LightState> {
    sessions.map_values(|s: SessionSnapshot| s.state)
}

/// The most urgent state among the sessions.
pub fn aggregate_sessions(sessions: &Vec<SessionSnapshot>) -> (r: LightState)
    ensures
        r == max_state(session_states(sessions@)),
{
    let mut states: Vec<LightState> = Vec::new();
    let mut i: usize = 0;
    while i < sessions.len()
        invariant
            i <= sessions@.len(),
            states@ == session_states(sessions@.take(i as int)),
        decreases sessions.len() - i,
    {
        states.push(sessions[i].state);
        proof {
            assert(session_states(sessions@.take(i + 1)) =~= session_states(
                sessions@.take(i as int),
            ).push(sessions@[i as int].state));
        }
        i = i + 1;
    }
    proof {
        assert(sessions@.take(i as int) =~= sessions@);
    }
    aggregate_states(states.as_slice())
}

/// The effective states of the sessions at time `now`.
pub open spec fn effective_session_states(
    sessions: Seq<SessionSnapshot>,
    reset: Option<Timestamp>,
    now: Timestamp,
) -> Seq<LightState> {
    sessions.map_values(|s: SessionSnapshot| effective_active(s.state, s.updated_at, reset, now))
}

/// The newest time among the `done` records: the hook's when it is done, and
/// every done session's.
pub open spec fn newest_done(hook: Option<StatusSnapshot>, sessions: Seq<SessionSnapshot>) -> Option<
    Timestamp,
>
    decreases sessions.len(),
{
    if sessions.len() == 0 {
        match hook {
            Some(h) => if h.state == LightState::Done {
                Some(h.updated_at)
            } else {
                None
            },
            None => None,
        }
    } else {
        let before = newest_done(hook, sessions.drop_last());
        let s = sessions.last();
        if s.state == LightState::Done {
            match before {
                Some(ts) => Some(
                    if ts.precedes(s.updated_at) {
                        s.updated_at
                    } else {
                        ts
                    },
                ),
                None => Some(s.updated_at),
            }
        } else {
            before
        }
    }
}

/// The combined state of the legacy hook record and the rollout sessions at
/// time `now`. The hook counts while younger than `LEGACY_MAX_AGE_SECS`; a
/// waiting hook outranks working sessions. When the result is `done`, it
/// collapses to idle once the newest done record is old enough.
pub open spec fn combined_state(
    hook: Option<StatusSnapshot>,
    sessions: Seq<SessionSnapshot>,
    reset: Option<Timestamp>,
    now: Timestamp,
) -> LightState {
    let session_state = max_state(effective_session_states(sessions, reset, now));
    let states = match hook {
        Some(h) => if nanos_since(now, h.updated_at) < LEGACY_MAX_AGE_SECS * NANOS_PER_SEC {
            seq![session_state, effective_active(h.state, h.updated_at, reset, now)]
        } else {
            seq![session_state]
        },
        None => seq![session_state],
    };
    let aggregated = max_state(states);
    if aggregated != LightState::Done {
        aggregated
    } else {
        done_timeout(LightState::Done, newest_done(hook, sessions), now)
    }
}

/// The record a borrowed optional record refers to.
pub open spec fn opt_snapshot(hook: Option<&StatusSnapshot>) -> Option<StatusSnapshot> {
    match hook {
        Some(h) => Some(*h),
        None => None,
    }
}

/// `combined_state` at time `now`, ignoring active states recorded at or
/// before `activity_reset_at`.
pub fn resolve_display_state_after_at(
    hook: Option<&StatusSnapshot>,
    sessions: &Vec<SessionSnapshot>,
    activity_reset_at: Option<Timestamp>,
    now: Timestamp,
) -> (r: LightState)
    ensures
        r == combined_state(
            opt_snapshot(hook),
            sessions@,
            activity_reset_at,
            now,
        ),
{
    let ghost hk = opt_snapshot(hook);
    let mut eff: Vec<LightState> = Vec::new();
    let mut i: usize = 0;
    while i < sessions.len()
        invariant
            i <= sessions@.len(),
            eff@ == effective_session_states(sessions@.take(i as int), activity_reset_at, now),
        decreases sessions.len() - i,
    {
        let s = &sessions[i];
        eff.push(effective_active_state(s.state, s.updated_at, activity_reset_at, now));
        proof {
            assert(effective_session_states(sessions@.take(i + 1), activity_reset_at, now)
                =~= effective_session_states(sessions@.take(i as int), activity_reset_at, now).push(
                effective_active(s.state, s.updated_at, activity_reset_at, now),
            ));
        }
        i = i + 1;
    }
    proof {
        assert(sessions@.take(i as int) =~= sessions@);
    }
    let session_state = aggregate_states(eff.as_slice());
    let mut states: Vec<LightState> = Vec::new();
    states.push(session_state);
    match hook {
        Some(h) => {
            if h.age_at(now) < LEGACY_MAX_AGE_SECS * NANOS_PER_SEC {
                states.push(effective_active_state(h.state, h.updated_at, activity_reset_at, now));
            }
        },
        None => {},
    }
    proof {
        assert(states@ =~= (match hk {
            Some(h) => if nanos_since(now, h.updated_at) < LEGACY_MAX_AGE_SECS * NANOS_PER_SEC {
                seq![session_state, effective_active(h.state, h.updated_at, activity_reset_at, now)]
            } else {
                seq![session_state]
            },
            None => seq![session_state],
        }));
    }
    let aggregated = aggregate_states(states.as_slice());
    if aggregated != LightState::Done {
        return aggregated;
    }
    let mut newest: Option<Timestamp> = match hook {
        Some(h) => if h.state == LightState::Done {
            Some(h.updated_at)
        } else {
            None
        },
        None => None,
    };
    let mut j: usize = 0;
    while j < sessions.len()
        invariant
            j <= sessions@.len(),
            newest == newest_done(hk, sessions@.take(j as int)),
        decreases sessions.len() - j,
    {
        proof {
            assert(sessions@.take(j + 1).drop_last() =~= sessions@.take(j as int));
        }
        let s = &sessions[j];
        if s.state == LightState::Done {
            newest = match newest {
                Some(ts) => Some(later_of(ts, s.updated_at)),
                None => Some(s.updated_at),
            };
        }
        j = j + 1;
    }
    proof {
        assert(sessions@.take(j as int) =~= sessions@);
    }
    apply_done_timeout_at(LightState::Done, newest, now)
}

/// The combined state of the legacy hook record and the rollout sessions,
/// ignoring active states recorded at or before `activity_reset_at`. Reads
/// the clock.
pub fn resolve_display_state_after(
    hook: Option<&StatusSnapshot>,
    sessions: &Vec<SessionSnapshot>,
    activity_reset_at: Option<Timestamp>,
) -> (r: LightState)
    ensures
        exists|t: Timestamp|
            r == #[trigger] combined_state(
                opt_snapshot(hook),
                sessions@,
                activity_reset_at,
                t,
            ),
{
    let t = now();
    resolve_display_state_after_at(hook, sessions, activity_reset_at, t)
}

/// The combined state of the legacy hook record and the rollout sessions.
/// Hooks win on `waiting`, which rollout logs do not record. Reads the clock.
pub fn resolve_display_state(hook: Option<&StatusSnapshot>, sessions: &Vec<SessionSnapshot>) -> (r:
    LightState)
    ensures
        exists|t: Timestamp|
            r == #[trigger] combined_state(
                opt_snapshot(hook),
                sessions@,
                None,
                t,
            ),
{
    resolve_display_state_after(hook, sessions, None)
}

} // verus!
