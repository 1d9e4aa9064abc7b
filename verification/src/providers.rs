//! Supported coding agents, and the normalization of their hook payloads into
//! common activity operations.
use vstd::prelude::*;

use crate::status::LightState;
use crate::text::{chars_of, copy_opt_string, copy_strings, is_blank, str_equal, trim};

verus! {

/// A supported coding-agent application.
#[derive(Debug, Clone, Copy, PartialEq, Eq, PartialOrd, Ord, Hash, Structural)]
pub enum Provider {
    Codex,
    Cursor,
}

/// The lower-case identifier of a provider.
pub open spec fn provider_name(p: Provider) -> Seq<char> {
    match p {
        Provider::Codex => "codex"@,
        Provider::Cursor => "cursor"@,
    }
}

/// The names of the hook events installed for Codex.
pub open spec fn codex_hook_events() -> Seq<Seq<char>> {
    seq![
        "SessionStart"@,
        "UserPromptSubmit"@,
        "PreToolUse"@,
        "PostToolUse"@,
        "Stop"@,
        "PermissionRequest"@,
        "SessionEnd"@,
    ]
}

/// The names of the hook events installed for Cursor. Start/stop events drive
/// state. Thought and tool-start events only refresh an existing activity;
/// only explicit approval fields may switch to waiting.
pub open spec fn cursor_hook_events() -> Seq<Seq<char>> {
    seq![
        "beforeSubmitPrompt"@,
        "preToolUse"@,
        "beforeShellExecution"@,
        "afterShellExecution"@,
        "beforeMCPExecution"@,
        "afterMCPExecution"@,
        "afterAgentThought"@,
        "stop"@,
        "sessionEnd"@,
    ]
}

/// The lower-case Windows process names of a provider's application.
pub open spec fn process_names(p: Provider) -> Seq<Seq<char>> {
    match p {
        Provider::Codex => seq!["chatgpt.exe"@, "codex.exe"@],
        Provider::Cursor => seq!["cursor.exe"@],
    }
}

/// The views of a list of string slices.
pub open spec fn strs_view(s: Seq<&str>) -> Seq<Seq<char>> {
    s.map_values(|x: &str| x@)
}

impl Provider {
    /// Every provider, in order.
    pub fn all() -> (r: [Provider; 2])
        ensures
            r@ == seq![Provider::Codex, Provider::Cursor],
    {
        let r = [Provider::Codex, Provider::Cursor];
        assert(r@ =~= seq![Provider::Codex, Provider::Cursor]);
        r
    }

    /// The lower-case identifier.
    pub fn as_str(self) -> (r: &'static str)
        ensures
            r@ == provider_name(self),
    {
        match self {
            Provider::Codex => "codex",
            Provider::Cursor => "cursor",
        }
    }

    /// The user-facing name.
    pub fn display_name(self) -> (r: &'static str)
        ensures
            r@ == (match self {
                Provider::Codex => "Codex"@,
                Provider::Cursor => "Cursor"@,
            }),
    {
        match self {
            Provider::Codex => "Codex",
            Provider::Cursor => "Cursor",
        }
    }

    /// The hook events that the installer registers for this provider.
    pub fn hook_events(self) -> (r: Vec<&'static str>)
        ensures
            strs_view(r@) == (match self {
                Provider::Codex => codex_hook_events(),
                Provider::Cursor => cursor_hook_events(),
            }),
    {
        let r: Vec<&'static str> = match self {
            Provider::Codex => vec![
                "SessionStart",
                "UserPromptSubmit",
                "PreToolUse",
                "PostToolUse",
                "Stop",
                "PermissionRequest",
                "SessionEnd",
            ],
            Provider::Cursor => vec![
                "beforeSubmitPrompt",
                "preToolUse",
                "beforeShellExecution",
                "afterShellExecution",
                "beforeMCPExecution",
                "afterMCPExecution",
                "afterAgentThought",
                "stop",
                "sessionEnd",
            ],
        };
        assert(strs_view(r@) =~= (match self {
            Provider::Codex => codex_hook_events(),
            Provider::Cursor => cursor_hook_events(),
        }));
        r
    }

    /// The macOS bundle identifiers of the provider's application.
    pub fn macos_bundle_ids(self) -> (r: Vec<&'static str>)
        ensures
            strs_view(r@) == (match self {
                Provider::Codex => seq!["com.openai.codex"@],
                Provider::Cursor => seq!["com.todesktop.230313mzl4w4u92"@],
            }),
    {
        let r: Vec<&'static str> = match self {
            Provider::Codex => vec!["com.openai.codex"],
            Provider::Cursor => vec!["com.todesktop.230313mzl4w4u92"],
        };
        assert(strs_view(r@) =~= (match self {
            Provider::Codex => seq!["com.openai.codex"@],
            Provider::Cursor => seq!["com.todesktop.230313mzl4w4u92"@],
        }));
        r
    }

    /// The lower-case Windows process names of the provider's application.
    pub fn windows_process_names(self) -> (r: Vec<&'static str>)
        ensures
            strs_view(r@) == process_names(self),
    {
        let r: Vec<&'static str> = match self {
            Provider::Codex => vec!["chatgpt.exe", "codex.exe"],
            Provider::Cursor => vec!["cursor.exe"],
        };
        assert(strs_view(r@) =~= process_names(self));
        r
    }
}

/// One conversation's state as reported by a provider hook.
#[derive(Debug)]
pub struct NormalizedActivity {
    pub provider: Provider,
    pub activity_id: String,
    pub conversation_id: Option<String>,
    pub generation_id: Option<String>,
    pub workspace_roots: Vec<String>,
    pub state: LightState,
    pub event: String,
}

/// The mathematical content of a `NormalizedActivity`.
pub struct ActivityView {
    pub provider: Provider,
    pub activity_id: Seq<char>,
    pub conversation_id: Option<Seq<char>>,
    pub generation_id: Option<Seq<char>>,
    pub workspace_roots: Seq<Seq<char>>,
    pub state: LightState,
    pub event: Seq<char>,
}

impl View for NormalizedActivity {
    type V = ActivityView;

    open spec fn view(&self) -> ActivityView {
        ActivityView {
            provider: self.provider,
            activity_id: self.activity_id@,
            conversation_id: self.conversation_id.deep_view(),
            generation_id: self.generation_id.deep_view(),
            workspace_roots: self.workspace_roots.deep_view(),
            state: self.state,
            event: self.event@,
        }
    }
}

/// What a hook event asks the activity store to do.
#[derive(Debug)]
#[allow(inconsistent_fields)]
pub enum HookAction {
    /// Create or replace the conversation's activity.
    Upsert(NormalizedActivity),
    /// Refresh an existing activity without changing its state.
    Touch {
        provider: Provider,
        activity_id: String,
        generation_id: Option<String>,
        workspace_roots: Vec<String>,
        event: String,
    },
    /// Update an existing activity's state. Never creates a new conversation,
    /// so a late tool-completion event cannot revive a finished turn.
    SetExisting {
        provider: Provider,
        activity_id: String,
        generation_id: Option<String>,
        workspace_roots: Vec<String>,
        state: LightState,
        event: String,
    },
    /// Remove every activity of the conversation.
    RemoveConversation { provider: Provider, conversation_id: String, event: String },
    /// Nothing to do.
    Ignore { event: Option<String>, reason: &'static str },
}

/// The mathematical content of a `HookAction`.
#[allow(inconsistent_fields)]
pub enum HookActionView {
    Upsert(ActivityView),
    Touch {
        provider: Provider,
        activity_id: Seq<char>,
        generation_id: Option<Seq<char>>,
        workspace_roots: Seq<Seq<char>>,
        event: Seq<char>,
    },
    SetExisting {
        provider: Provider,
        activity_id: Seq<char>,
        generation_id: Option<Seq<char>>,
        workspace_roots: Seq<Seq<char>>,
        state: LightState,
        event: Seq<char>,
    },
    RemoveConversation { provider: Provider, conversation_id: Seq<char>, event: Seq<char> },
    Ignore { event: Option<Seq<char>>, reason: Seq<char> },
}

impl View for HookAction {
    type V = HookActionView;

    open spec fn view(&self) -> HookActionView {
        match self {
            HookAction::Upsert(a) => HookActionView::Upsert(a@),
            HookAction::Touch { provider, activity_id, generation_id, workspace_roots, event } =>
                HookActionView::Touch {
                provider: *provider,
                activity_id: activity_id@,
                generation_id: generation_id.deep_view(),
                workspace_roots: workspace_roots.deep_view(),
                event: event@,
            },
            HookAction::SetExisting {
                provider,
                activity_id,
                generation_id,
                workspace_roots,
                state,
                event,
            } => HookActionView::SetExisting {
                provider: *provider,
                activity_id: activity_id@,
                generation_id: generation_id.deep_view(),
                workspace_roots: workspace_roots.deep_view(),
                state: *state,
                event: event@,
            },
            HookAction::RemoveConversation { provider, conversation_id, event } =>
                HookActionView::RemoveConversation {
                provider: *provider,
                conversation_id: conversation_id@,
                event: event@,
            },
            HookAction::Ignore { event, reason } => HookActionView::Ignore {
                event: event.deep_view(),
                reason: reason@,
            },
        }
    }
}

/// The first present identifier, kept only when it is not blank.
pub open spec fn spec_activity_id(
    conversation_id: Option<Seq<char>>,
    session_id: Option<Seq<char>>,
    generation_id: Option<Seq<char>>,
    workspace: Option<Seq<char>>,
) -> Option<Seq<char>> {
    let first = if conversation_id is Some {
        conversation_id
    } else if session_id is Some {
        session_id
    } else if generation_id is Some {
        generation_id
    } else {
        workspace
    };
    match first {
        Some(v) => if trim(v).len() == 0 {
            None
        } else {
            Some(v)
        },
        None => None,
    }
}

/// The identifier of an activity: the conversation id, else the session id,
/// else the generation id, else the workspace; `None` when that first present
/// value is blank or none is present.
pub fn activity_id(
    conversation_id: Option<&str>,
    session_id: Option<&str>,
    generation_id: Option<&str>,
    workspace: Option<&str>,
) -> (r: Option<String>)
    ensures
        r.deep_view() == spec_activity_id(
            conversation_id.deep_view(),
            session_id.deep_view(),
            generation_id.deep_view(),
            workspace.deep_view(),
        ),
{
    let first = if conversation_id.is_some() {
        conversation_id
    } else if session_id.is_some() {
        session_id
    } else if generation_id.is_some() {
        generation_id
    } else {
        workspace
    };
    match first {
        Some(v) => {
            if is_blank(v) {
                None
            } else {
                Some(v.to_string())
            }
        },
        None => None,
    }
}

/// The borrowed form of an optional string.
pub fn opt_str(s: &Option<String>) -> (r: Option<&str>)
    ensures
        r.deep_view() == s.deep_view(),
{
    match s {
        Some(v) => Some(v.as_str()),
        None => None,
    }
}

/// Whether the optional string is present and equal to `lit`.
pub fn opt_is(s: &Option<String>, lit: &str) -> (r: bool)
    ensures
        r == (s.deep_view() == Some(lit@)),
{
    match s {
        Some(v) => str_equal(v.as_str(), lit),
        None => false,
    }
}

// ---------------------------------------------------------------- Codex

/// The fields of a Codex hook payload that the normalization reads.
#[derive(Debug)]
pub struct CodexHookPayload {
    pub hook_event_name: Option<String>,
    pub session_id: Option<String>,
    pub cwd: Option<String>,
}

/// The state that a Codex hook event reports, if the event is supported.
pub open spec fn codex_event_state(event: Seq<char>) -> Option<LightState> {
    if event == "SessionStart"@ || event == "UserPromptSubmit"@ || event == "PreToolUse"@ || event
        == "PostToolUse"@ {
        Some(LightState::Working)
    } else if event == "PermissionRequest"@ {
        Some(LightState::Waiting)
    } else if event == "Stop"@ || event == "SessionEnd"@ {
        Some(LightState::Done)
    } else {
        None
    }
}

/// The optional value as a list of zero or one element.
pub open spec fn opt_to_seq(v: Option<Seq<char>>) -> Seq<Seq<char>> {
    match v {
        Some(x) => seq![x],
        None => Seq::empty(),
    }
}

/// How a Codex hook payload is normalized.
pub open spec fn spec_codex_normalize(
    event: Option<Seq<char>>,
    session_id: Option<Seq<char>>,
    cwd: Option<Seq<char>>,
) -> HookActionView {
    match event {
        None => HookActionView::Ignore { event: None, reason: "missing hook_event_name"@ },
        Some(e) => match codex_event_state(e) {
            None => HookActionView::Ignore { event: Some(e), reason: "unsupported Codex event"@ },
            Some(state) => match spec_activity_id(None, session_id, None, cwd) {
                None => HookActionView::Ignore {
                    event: Some(e),
                    reason: "missing session_id and cwd"@,
                },
                Some(id) => HookActionView::Upsert(
                    ActivityView {
                        provider: Provider::Codex,
                        activity_id: id,
                        conversation_id: session_id,
                        generation_id: None,
                        workspace_roots: opt_to_seq(cwd),
                        state,
                        event: e,
                    },
                ),
            },
        },
    }
}

/// The Codex hook adapter.
pub struct CodexProvider;

impl CodexProvider {
    /// The provider this adapter serves.
    pub fn provider(&self) -> (r: Provider)
        ensures
            r == Provider::Codex,
    {
        Provider::Codex
    }

    /// Turns a Codex hook payload into an activity operation.
    pub fn normalize(&self, payload: CodexHookPayload) -> (r: HookAction)
        ensures
            r@ == spec_codex_normalize(
                payload.hook_event_name.deep_view(),
                payload.session_id.deep_view(),
                payload.cwd.deep_view(),
            ),
    {
        let ghost sid = payload.session_id.deep_view();
        let ghost cwd = payload.cwd.deep_view();
        let event = match payload.hook_event_name {
            Some(e) => e,
            None => {
                return HookAction::Ignore { event: None, reason: "missing hook_event_name" };
            },
        };
        let ev = event.as_str();
        let state = if str_equal(ev, "SessionStart") || str_equal(ev, "UserPromptSubmit")
            || str_equal(ev, "PreToolUse") || str_equal(ev, "PostToolUse") {
            LightState::Working
        } else if str_equal(ev, "PermissionRequest") {
            LightState::Waiting
        } else if str_equal(ev, "Stop") || str_equal(ev, "SessionEnd") {
            LightState::Done
        } else {
            return HookAction::Ignore { event: Some(event), reason: "unsupported Codex event" };
        };
        let id = activity_id(None, opt_str(&payload.session_id), None, opt_str(&payload.cwd));
        let activity_id = match id {
            Some(id) => id,
            None => {
                return HookAction::Ignore { event: Some(event), reason: "missing session_id and cwd" };
            },
        };
        let mut roots: Vec<String> = Vec::new();
        match payload.cwd {
            Some(c) => roots.push(c),
            None => {},
        }
        assert(roots.deep_view() =~= opt_to_seq(cwd));
        HookAction::Upsert(
            NormalizedActivity {
                provider: self.provider(),
                activity_id,
                conversation_id: payload.session_id,
                generation_id: None,
                workspace_roots: roots,
                state,
                event,
            },
        )
    }
}

// ---------------------------------------------------------------- Cursor

/// The fields of a Cursor hook payload that the normalization reads.
#[derive(Debug)]
pub struct CursorHookPayload {
    pub hook_event_name: Option<String>,
    pub conversation_id: Option<String>,
    pub session_id: Option<String>,
    pub generation_id: Option<String>,
    pub workspace_roots: Vec<String>,
    pub cwd: Option<String>,
    pub status: Option<String>,
    pub reason: Option<String>,
    pub approval_required: Option<bool>,
    pub permission: Option<String>,
}

/// The conversation of a Cursor payload: its conversation id, else its
/// session id.
pub open spec fn cursor_conversation(p: CursorHookPayload) -> Option<Seq<char>> {
    if p.conversation_id is Some {
        p.conversation_id.deep_view()
    } else {
        p.session_id.deep_view()
    }
}

/// The workspace that identifies a Cursor payload when nothing else does: the
/// first workspace root, else the working directory.
pub open spec fn cursor_workspace(p: CursorHookPayload) -> Option<Seq<char>> {
    if p.workspace_roots@.len() > 0 {
        Some(p.workspace_roots@[0]@)
    } else {
        p.cwd.deep_view()
    }
}

/// The activity identifier of a Cursor payload.
pub open spec fn cursor_activity_id(p: CursorHookPayload) -> Option<Seq<char>> {
    spec_activity_id(
        p.conversation_id.deep_view(),
        p.session_id.deep_view(),
        p.generation_id.deep_view(),
        cursor_workspace(p),
    )
}

/// Whether a permission value asks for approval: "ask", "prompt" or
/// "required", ignoring ASCII case.
pub open spec fn permission_asks(v: Seq<char>) -> bool {
    let l = crate::text::ascii_lower_seq(v);
    l == "ask"@ || l == "prompt"@ || l == "required"@
}

/// Whether a Cursor payload explicitly requests approval.
pub open spec fn cursor_approval_requested(p: CursorHookPayload) -> bool {
    p.approval_required == Some(true) || match p.permission.deep_view() {
        Some(v) => permission_asks(v),
        None => false,
    }
}

/// The workspace roots of a Cursor payload, falling back to its working
/// directory.
pub open spec fn cursor_roots(p: CursorHookPayload) -> Seq<Seq<char>> {
    if p.workspace_roots@.len() == 0 {
        opt_to_seq(p.cwd.deep_view())
    } else {
        p.workspace_roots.deep_view()
    }
}

/// Cursor events that only refresh an existing activity.
pub open spec fn cursor_heartbeat_event(e: Seq<char>) -> bool {
    e == "preToolUse"@ || e == "beforeShellExecution"@ || e == "beforeMCPExecution"@ || e
        == "afterAgentThought"@
}

/// Cursor events that return an existing activity to working.
pub open spec fn cursor_completion_event(e: Seq<char>) -> bool {
    e == "afterShellExecution"@ || e == "afterMCPExecution"@
}

/// The state that a Cursor start or stop event reports.
pub open spec fn cursor_event_state(e: Seq<char>, status: Option<Seq<char>>) -> Option<LightState> {
    if e == "beforeSubmitPrompt"@ {
        Some(LightState::Working)
    } else if e == "stop"@ {
        if status == Some("error"@) {
            Some(LightState::Waiting)
        } else {
            Some(LightState::Done)
        }
    } else {
        None
    }
}

/// The event label recorded for a Cursor start or stop: the event name,
/// followed by ":" and the reason when a non-empty reason is given.
pub open spec fn cursor_event_label(e: Seq<char>, reason: Option<Seq<char>>) -> Seq<char> {
    match reason {
        Some(r) => if r.len() > 0 {
            e + ":"@ + r
        } else {
            e
        },
        None => e,
    }
}

/// How a Cursor hook payload is normalized.
pub open spec fn spec_cursor_normalize(p: CursorHookPayload) -> HookActionView {
    match p.hook_event_name.deep_view() {
        None => HookActionView::Ignore { event: None, reason: "missing hook_event_name"@ },
        Some(e) => if e == "sessionEnd"@ {
            match cursor_conversation(p) {
                None => HookActionView::Ignore {
                    event: Some(e),
                    reason: "Cursor sessionEnd missing conversation id"@,
                },
                Some(c) => HookActionView::RemoveConversation {
                    provider: Provider::Cursor,
                    conversation_id: c,
                    event: e,
                },
            }
        } else {
            match cursor_activity_id(p) {
                None => HookActionView::Ignore {
                    event: Some(e),
                    reason: "Cursor event missing activity id"@,
                },
                Some(id) => if e == "permissionRequest"@ || e == "PermissionRequest"@
                    || cursor_approval_requested(p) {
                    HookActionView::Upsert(
                        ActivityView {
                            provider: Provider::Cursor,
                            activity_id: id,
                            conversation_id: cursor_conversation(p),
                            generation_id: p.generation_id.deep_view(),
                            workspace_roots: cursor_roots(p),
                            state: LightState::Waiting,
                            event: e,
                        },
                    )
                } else if cursor_heartbeat_event(e) {
                    HookActionView::Touch {
                        provider: Provider::Cursor,
                        activity_id: id,
                        generation_id: p.generation_id.deep_view(),
                        workspace_roots: cursor_roots(p),
                        event: e,
                    }
                } else if cursor_completion_event(e) {
                    HookActionView::SetExisting {
                        provider: Provider::Cursor,
                        activity_id: id,
                        generation_id: p.generation_id.deep_view(),
                        workspace_roots: cursor_roots(p),
                        state: LightState::Working,
                        event: e,
                    }
                } else {
                    match cursor_event_state(e, p.status.deep_view()) {
                        None => HookActionView::Ignore {
                            event: Some(e),
                            reason: "unsupported Cursor event"@,
                        },
                        Some(state) => HookActionView::Upsert(
                            ActivityView {
                                provider: Provider::Cursor,
                                activity_id: id,
                                conversation_id: cursor_conversation(p),
                                generation_id: p.generation_id.deep_view(),
                                workspace_roots: cursor_roots(p),
                                state,
                                event: cursor_event_label(e, p.reason.deep_view()),
                            },
                        ),
                    }
                }
            }
        },
    }
}

impl CursorHookPayload {
    /// The activity identifier of the payload.
    pub fn activity_id(&self) -> (r: Option<String>)
        ensures
            r.deep_view() == cursor_activity_id(*self),
    {
        let workspace: Option<&str> = if self.workspace_roots.len() > 0 {
            Some(self.workspace_roots[0].as_str())
        } else {
            opt_str(&self.cwd)
        };
        activity_id(
            opt_str(&self.conversation_id),
            opt_str(&self.session_id),
            opt_str(&self.generation_id),
            workspace,
        )
    }

    /// The conversation of the payload.
    pub fn conversation_id(&self) -> (r: Option<String>)
        ensures
            r.deep_view() == cursor_conversation(*self),
    {
        if self.conversation_id.is_some() {
            copy_opt_string(&self.conversation_id)
        } else {
            copy_opt_string(&self.session_id)
        }
    }

    /// Whether the payload explicitly requests approval.
    pub fn approval_requested(&self) -> (r: bool)
        ensures
            r == cursor_approval_requested(*self),
    {
        let explicit = match self.approval_required {
            Some(b) => b,
            None => false,
        };
        if explicit {
            return true;
        }
        match &self.permission {
            Some(v) => {
                let lower = crate::text::lower_ascii_chars(&chars_of(v.as_str()));
                let ask = chars_of("ask");
                let prompt = chars_of("prompt");
                let required = chars_of("required");
                crate::text::seq_equal(&lower, &ask) || crate::text::seq_equal(&lower, &prompt)
                    || crate::text::seq_equal(&lower, &required)
            },
            None => false,
        }
    }

    /// The workspace roots, falling back to the working directory.
    pub fn normalized_workspace_roots(&self) -> (r: Vec<String>)
        ensures
            r.deep_view() == cursor_roots(*self),
    {
        if self.workspace_roots.len() == 0 {
            let mut r: Vec<String> = Vec::new();
            match &self.cwd {
                Some(c) => r.push(c.clone()),
                None => {},
            }
            assert(r.deep_view() =~= opt_to_seq(self.cwd.deep_view()));
            r
        } else {
            copy_strings(&self.workspace_roots)
        }
    }
}

/// The Cursor hook adapter.
pub struct CursorProvider;

impl CursorProvider {
    /// The provider this adapter serves.
    pub fn provider(&self) -> (r: Provider)
        ensures
            r == Provider::Cursor,
    {
        Provider::Cursor
    }

    /// Turns a Cursor hook payload into an activity operation.
    pub fn normalize(&self, payload: CursorHookPayload) -> (r: HookAction)
        ensures
            r@ == spec_cursor_normalize(payload),
    {
        let event = match &payload.hook_event_name {
            Some(e) => e.clone(),
            None => {
                return HookAction::Ignore { event: None, reason: "missing hook_event_name" };
            },
        };
        let ev = event.as_str();
        if str_equal(ev, "sessionEnd") {
            return match payload.conversation_id() {
                Some(conversation_id) => HookAction::RemoveConversation {
                    provider: self.provider(),
                    conversation_id,
                    event,
                },
                None => HookAction::Ignore {
                    event: Some(event),
                    reason: "Cursor sessionEnd missing conversation id",
                },
            };
        }
        let activity_id = match payload.activity_id() {
            Some(id) => id,
            None => {
                return HookAction::Ignore {
                    event: Some(event),
                    reason: "Cursor event missing activity id",
                };
            },
        };
        if str_equal(ev, "permissionRequest") || str_equal(ev, "PermissionRequest")
            || payload.approval_requested() {
            return HookAction::Upsert(
                NormalizedActivity {
                    provider: self.provider(),
                    activity_id,
                    conversation_id: payload.conversation_id(),
                    generation_id: copy_opt_string(&payload.generation_id),
                    workspace_roots: payload.normalized_workspace_roots(),
                    state: LightState::Waiting,
                    event,
                },
            );
        }
        if str_equal(ev, "preToolUse") || str_equal(ev, "beforeShellExecution") || str_equal(
            ev,
            "beforeMCPExecution",
        ) || str_equal(ev, "afterAgentThought") {
            return HookAction::Touch {
                provider: self.provider(),
                activity_id,
                generation_id: copy_opt_string(&payload.generation_id),
                workspace_roots: payload.normalized_workspace_roots(),
                event,
            };
        }
        if str_equal(ev, "afterShellExecution") || str_equal(ev, "afterMCPExecution") {
            return HookAction::SetExisting {
                provider: self.provider(),
                activity_id,
                generation_id: copy_opt_string(&payload.generation_id),
                workspace_roots: payload.normalized_workspace_roots(),
                state: LightState::Working,
                event,
            };
        }
        let state = if str_equal(ev, "beforeSubmitPrompt") {
            LightState::Working
        } else if str_equal(ev, "stop") {
            if opt_is(&payload.status, "error") {
                LightState::Waiting
            } else {
                LightState::Done
            }
        } else {
            return HookAction::Ignore { event: Some(event), reason: "unsupported Cursor event" };
        };
        let label = match &payload.reason {
            Some(reason) => {
                if !reason.as_str().is_empty() {
                    let mut l = event.clone();
                    l.push_str(":");
                    l.push_str(reason.as_str());
                    l
                } else {
                    event.clone()
                }
            },
            None => event.clone(),
        };
        HookAction::Upsert(
            NormalizedActivity {
                provider: self.provider(),
                activity_id,
                conversation_id: payload.conversation_id(),
                generation_id: copy_opt_string(&payload.generation_id),
                workspace_roots: payload.normalized_workspace_roots(),
                state,
                event: label,
            },
        )
    }
}

/// A hook payload of one of the providers.
#[derive(Debug)]
pub enum HookPayload {
    Codex(CodexHookPayload),
    Cursor(CursorHookPayload),
}

/// Turns a provider's hook payload into an activity operation.
pub fn normalize_payload(payload: HookPayload) -> (r: HookAction)
    ensures
        match payload {
            HookPayload::Codex(p) => r@ == spec_codex_normalize(
                p.hook_event_name.deep_view(),
                p.session_id.deep_view(),
                p.cwd.deep_view(),
            ),
            HookPayload::Cursor(p) => r@ == spec_cursor_normalize(p),
        },
{
    match payload {
        HookPayload::Codex(p) => CodexProvider.normalize(p),
        HookPayload::Cursor(p) => CursorProvider.normalize(p),
    }
}

// ------------------------------------------------------------------ laws

/// Codex events map to states: `SessionStart`, `UserPromptSubmit`,
/// `PreToolUse` and `PostToolUse` mean working, `PermissionRequest` means
/// waiting, `Stop` and `SessionEnd` mean done; each records the session under
/// its (non-blank) session id. Every other event is ignored.
pub proof fn law_codex_event_states(e: Seq<char>, session_id: Seq<char>, cwd: Option<Seq<char>>)
    requires
        trim(session_id).len() > 0,
    ensures
        ({
            let r = spec_codex_normalize(Some(e), Some(session_id), cwd);
            &&& (e == "SessionStart"@ || e == "UserPromptSubmit"@ || e == "PreToolUse"@ || e
                == "PostToolUse"@) ==> (r matches HookActionView::Upsert(a) && a.provider
                == Provider::Codex && a.activity_id == session_id && a.state == LightState::Working)
            &&& e == "PermissionRequest"@ ==> (r matches HookActionView::Upsert(a) && a.provider
                == Provider::Codex && a.activity_id == session_id && a.state == LightState::Waiting)
            &&& (e == "Stop"@ || e == "SessionEnd"@) ==> (r matches HookActionView::Upsert(a)
                && a.provider == Provider::Codex && a.activity_id == session_id && a.state
                == LightState::Done)
            &&& !(e == "SessionStart"@ || e == "UserPromptSubmit"@ || e == "PreToolUse"@ || e
                == "PostToolUse"@ || e == "PermissionRequest"@ || e == "Stop"@ || e
                == "SessionEnd"@) ==> r is Ignore
        }),
{
    reveal_strlit("SessionStart");
    reveal_strlit("UserPromptSubmit");
    reveal_strlit("PreToolUse");
    reveal_strlit("PostToolUse");
    reveal_strlit("PermissionRequest");
    reveal_strlit("Stop");
    reveal_strlit("SessionEnd");
    // The event names are distinct.
    assert("SessionStart"@.len() != "UserPromptSubmit"@.len());
    assert("SessionStart"@.len() != "PreToolUse"@.len());
    assert("SessionStart"@.len() != "PostToolUse"@.len());
    assert("SessionStart"@.len() != "PermissionRequest"@.len());
    assert("SessionStart"@.len() != "Stop"@.len());
    assert("SessionStart"@.len() != "SessionEnd"@.len());
    assert("UserPromptSubmit"@.len() != "PreToolUse"@.len());
    assert("UserPromptSubmit"@.len() != "PostToolUse"@.len());
    assert("UserPromptSubmit"@.len() != "PermissionRequest"@.len());
    assert("UserPromptSubmit"@.len() != "Stop"@.len());
    assert("UserPromptSubmit"@.len() != "SessionEnd"@.len());
    assert("PreToolUse"@.len() != "PostToolUse"@.len());
    assert("PreToolUse"@.len() != "PermissionRequest"@.len());
    assert("PreToolUse"@.len() != "Stop"@.len());
    assert("PreToolUse"@[0] != "SessionEnd"@[0]);
    assert("PostToolUse"@.len() != "PermissionRequest"@.len());
    assert("PostToolUse"@.len() != "Stop"@.len());
    assert("PostToolUse"@.len() != "SessionEnd"@.len());
    assert("PermissionRequest"@.len() != "Stop"@.len());
    assert("PermissionRequest"@.len() != "SessionEnd"@.len());
    assert("Stop"@.len() != "SessionEnd"@.len());
}

/// Cursor tool events of a conversation (with a non-blank conversation id
/// and no approval asked): `afterShellExecution` and `afterMCPExecution`
/// return an existing activity to working; `preToolUse`,
/// `beforeShellExecution`, `beforeMCPExecution` and `afterAgentThought` only
/// refresh it. No other event does either.
pub proof fn law_cursor_tool_events(p: CursorHookPayload, e: Seq<char>, c: Seq<char>)
    requires
        p.hook_event_name.deep_view() == Some(e),
        p.conversation_id.deep_view() == Some(c),
        trim(c).len() > 0,
        p.approval_required != Some(true),
        p.permission is None,
    ensures
        ({
            let r = spec_cursor_normalize(p);
            &&& (e == "afterShellExecution"@ || e == "afterMCPExecution"@) ==> (r matches HookActionView::SetExisting {
                provider,
                activity_id,
                state,
                ..
            } && provider == Provider::Cursor && activity_id == c && state == LightState::Working)
            &&& (e == "preToolUse"@ || e == "beforeShellExecution"@ || e == "beforeMCPExecution"@
                || e == "afterAgentThought"@) ==> (r matches HookActionView::Touch {
                provider,
                activity_id,
                ..
            } && provider == Provider::Cursor && activity_id == c)
            &&& r is SetExisting ==> (e == "afterShellExecution"@ || e == "afterMCPExecution"@)
            &&& r is Touch ==> (e == "preToolUse"@ || e == "beforeShellExecution"@ || e
                == "beforeMCPExecution"@ || e == "afterAgentThought"@)
        }),
{
    reveal_strlit("sessionEnd");
    reveal_strlit("permissionRequest");
    reveal_strlit("PermissionRequest");
    reveal_strlit("preToolUse");
    reveal_strlit("beforeShellExecution");
    reveal_strlit("beforeMCPExecution");
    reveal_strlit("afterAgentThought");
    reveal_strlit("afterShellExecution");
    reveal_strlit("afterMCPExecution");
    reveal_strlit("beforeSubmitPrompt");
    reveal_strlit("stop");
    // The event names are distinct.
    assert("sessionEnd"@.len() != "permissionRequest"@.len());
    assert("sessionEnd"@.len() != "PermissionRequest"@.len());
    assert("sessionEnd"@[0] != "preToolUse"@[0]);
    assert("sessionEnd"@.len() != "beforeShellExecution"@.len());
    assert("sessionEnd"@.len() != "beforeMCPExecution"@.len());
    assert("sessionEnd"@.len() != "afterAgentThought"@.len());
    assert("sessionEnd"@.len() != "afterShellExecution"@.len());
    assert("sessionEnd"@.len() != "afterMCPExecution"@.len());
    assert("sessionEnd"@.len() != "beforeSubmitPrompt"@.len());
    assert("sessionEnd"@.len() != "stop"@.len());
    assert("permissionRequest"@[0] != "PermissionRequest"@[0]);
    assert("permissionRequest"@.len() != "preToolUse"@.len());
    assert("permissionRequest"@.len() != "beforeShellExecution"@.len());
    assert("permissionRequest"@.len() != "beforeMCPExecution"@.len());
    assert("permissionRequest"@[0] != "afterAgentThought"@[0]);
    assert("permissionRequest"@.len() != "afterShellExecution"@.len());
    assert("permissionRequest"@[0] != "afterMCPExecution"@[0]);
    assert("permissionRequest"@.len() != "beforeSubmitPrompt"@.len());
    assert("permissionRequest"@.len() != "stop"@.len());
    assert("PermissionRequest"@.len() != "preToolUse"@.len());
    assert("PermissionRequest"@.len() != "beforeShellExecution"@.len());
    assert("PermissionRequest"@.len() != "beforeMCPExecution"@.len());
    assert("PermissionRequest"@[0] != "afterAgentThought"@[0]);
    assert("PermissionRequest"@.len() != "afterShellExecution"@.len());
    assert("PermissionRequest"@[0] != "afterMCPExecution"@[0]);
    assert("PermissionRequest"@.len() != "beforeSubmitPrompt"@.len());
    assert("PermissionRequest"@.len() != "stop"@.len());
    assert("preToolUse"@.len() != "beforeShellExecution"@.len());
    assert("preToolUse"@.len() != "beforeMCPExecution"@.len());
    assert("preToolUse"@.len() != "afterAgentThought"@.len());
    assert("preToolUse"@.len() != "afterShellExecution"@.len());
    assert("preToolUse"@.len() != "afterMCPExecution"@.len());
    assert("preToolUse"@.len() != "beforeSubmitPrompt"@.len());
    assert("preToolUse"@.len() != "stop"@.len());
    assert("beforeShellExecution"@.len() != "beforeMCPExecution"@.len());
    assert("beforeShellExecution"@.len() != "afterAgentThought"@.len());
    assert("beforeShellExecution"@.len() != "afterShellExecution"@.len());
    assert("beforeShellExecution"@.len() != "afterMCPExecution"@.len());
    assert("beforeShellExecution"@.len() != "beforeSubmitPrompt"@.len());
    assert("beforeShellExecution"@.len() != "stop"@.len());
    assert("beforeMCPExecution"@.len() != "afterAgentThought"@.len());
    assert("beforeMCPExecution"@.len() != "afterShellExecution"@.len());
    assert("beforeMCPExecution"@.len() != "afterMCPExecution"@.len());
    assert("beforeMCPExecution"@[6] != "beforeSubmitPrompt"@[6]);
    assert("beforeMCPExecution"@.len() != "stop"@.len());
    assert("afterAgentThought"@.len() != "afterShellExecution"@.len());
    assert("afterAgentThought"@[5] != "afterMCPExecution"@[5]);
    assert("afterAgentThought"@.len() != "beforeSubmitPrompt"@.len());
    assert("afterAgentThought"@.len() != "stop"@.len());
    assert("afterShellExecution"@.len() != "afterMCPExecution"@.len());
    assert("afterShellExecution"@.len() != "beforeSubmitPrompt"@.len());
    assert("afterShellExecution"@.len() != "stop"@.len());
    assert("afterMCPExecution"@.len() != "beforeSubmitPrompt"@.len());
    assert("afterMCPExecution"@.len() != "stop"@.len());
    assert("beforeSubmitPrompt"@.len() != "stop"@.len());
}

/// Cursor turn events of a conversation (with a non-blank conversation id
/// and no approval asked): `beforeSubmitPrompt` records it as working,
/// `stop` as done (waiting when the status is `error`), a permission request
/// as waiting, and `sessionEnd` removes the conversation. Events that are
/// neither these nor tool events are ignored.
pub proof fn law_cursor_turn_events(p: CursorHookPayload, e: Seq<char>, c: Seq<char>)
    requires
        p.hook_event_name.deep_view() == Some(e),
        p.conversation_id.deep_view() == Some(c),
        trim(c).len() > 0,
        p.approval_required != Some(true),
        p.permission is None,
    ensures
        ({
            let r = spec_cursor_normalize(p);
            &&& e == "beforeSubmitPrompt"@ ==> (r matches HookActionView::Upsert(a) && a.provider
                == Provider::Cursor && a.activity_id == c && a.conversation_id == Some(c)
                && a.state == LightState::Working)
            &&& e == "stop"@ && p.status.deep_view() == Some("error"@) ==> (r matches HookActionView::Upsert(a)
                && a.activity_id == c && a.state == LightState::Waiting)
            &&& e == "stop"@ && p.status.deep_view() != Some("error"@) ==> (r matches HookActionView::Upsert(a)
                && a.activity_id == c && a.state == LightState::Done)
            &&& (e == "permissionRequest"@ || e == "PermissionRequest"@) ==> (r matches HookActionView::Upsert(a)
                && a.activity_id == c && a.state == LightState::Waiting)
            &&& e == "sessionEnd"@ ==> r == HookActionView::RemoveConversation {
                provider: Provider::Cursor,
                conversation_id: c,
                event: e,
            }
            &&& !(e == "beforeSubmitPrompt"@ || e == "stop"@ || e == "permissionRequest"@ || e
                == "PermissionRequest"@ || e == "sessionEnd"@ || e == "preToolUse"@ || e
                == "beforeShellExecution"@ || e == "beforeMCPExecution"@ || e
                == "afterAgentThought"@ || e == "afterShellExecution"@ || e
                == "afterMCPExecution"@) ==> r is Ignore
        }),
{
    reveal_strlit("sessionEnd");
    reveal_strlit("permissionRequest");
    reveal_strlit("PermissionRequest");
    reveal_strlit("preToolUse");
    reveal_strlit("beforeShellExecution");
    reveal_strlit("beforeMCPExecution");
    reveal_strlit("afterAgentThought");
    reveal_strlit("afterShellExecution");
    reveal_strlit("afterMCPExecution");
    reveal_strlit("beforeSubmitPrompt");
    reveal_strlit("stop");
    // The event names are distinct.
    assert("sessionEnd"@.len() != "permissionRequest"@.len());
    assert("sessionEnd"@.len() != "PermissionRequest"@.len());
    assert("sessionEnd"@[0] != "preToolUse"@[0]);
    assert("sessionEnd"@.len() != "beforeShellExecution"@.len());
    assert("sessionEnd"@.len() != "beforeMCPExecution"@.len());
    assert("sessionEnd"@.len() != "afterAgentThought"@.len());
    assert("sessionEnd"@.len() != "afterShellExecution"@.len());
    assert("sessionEnd"@.len() != "afterMCPExecution"@.len());
    assert("sessionEnd"@.len() != "beforeSubmitPrompt"@.len());
    assert("sessionEnd"@.len() != "stop"@.len());
    assert("permissionRequest"@[0] != "PermissionRequest"@[0]);
    assert("permissionRequest"@.len() != "preToolUse"@.len());
    assert("permissionRequest"@.len() != "beforeShellExecution"@.len());
    assert("permissionRequest"@.len() != "beforeMCPExecution"@.len());
    assert("permissionRequest"@[0] != "afterAgentThought"@[0]);
    assert("permissionRequest"@.len() != "afterShellExecution"@.len());
    assert("permissionRequest"@[0] != "afterMCPExecution"@[0]);
    assert("permissionRequest"@.len() != "beforeSubmitPrompt"@.len());
    assert("permissionRequest"@.len() != "stop"@.len());
    assert("PermissionRequest"@.len() != "preToolUse"@.len());
    assert("PermissionRequest"@.len() != "beforeShellExecution"@.len());
    assert("PermissionRequest"@.len() != "beforeMCPExecution"@.len());
    assert("PermissionRequest"@[0] != "afterAgentThought"@[0]);
    assert("PermissionRequest"@.len() != "afterShellExecution"@.len());
    assert("PermissionRequest"@[0] != "afterMCPExecution"@[0]);
    assert("PermissionRequest"@.len() != "beforeSubmitPrompt"@.len());
    assert("PermissionRequest"@.len() != "stop"@.len());
    assert("preToolUse"@.len() != "beforeShellExecution"@.len());
    assert("preToolUse"@.len() != "beforeMCPExecution"@.len());
    assert("preToolUse"@.len() != "afterAgentThought"@.len());
    assert("preToolUse"@.len() != "afterShellExecution"@.len());
    assert("preToolUse"@.len() != "afterMCPExecution"@.len());
    assert("preToolUse"@.len() != "beforeSubmitPrompt"@.len());
    assert("preToolUse"@.len() != "stop"@.len());
    assert("beforeShellExecution"@.len() != "beforeMCPExecution"@.len());
    assert("beforeShellExecution"@.len() != "afterAgentThought"@.len());
    assert("beforeShellExecution"@.len() != "afterShellExecution"@.len());
    assert("beforeShellExecution"@.len() != "afterMCPExecution"@.len());
    assert("beforeShellExecution"@.len() != "beforeSubmitPrompt"@.len());
    assert("beforeShellExecution"@.len() != "stop"@.len());
    assert("beforeMCPExecution"@.len() != "afterAgentThought"@.len());
    assert("beforeMCPExecution"@.len() != "afterShellExecution"@.len());
    assert("beforeMCPExecution"@.len() != "afterMCPExecution"@.len());
    assert("beforeMCPExecution"@[6] != "beforeSubmitPrompt"@[6]);
    assert("beforeMCPExecution"@.len() != "stop"@.len());
    assert("afterAgentThought"@.len() != "afterShellExecution"@.len());
    assert("afterAgentThought"@[5] != "afterMCPExecution"@[5]);
    assert("afterAgentThought"@.len() != "beforeSubmitPrompt"@.len());
    assert("afterAgentThought"@.len() != "stop"@.len());
    assert("afterShellExecution"@.len() != "afterMCPExecution"@.len());
    assert("afterShellExecution"@.len() != "beforeSubmitPrompt"@.len());
    assert("afterShellExecution"@.len() != "stop"@.len());
    assert("afterMCPExecution"@.len() != "beforeSubmitPrompt"@.len());
    assert("afterMCPExecution"@.len() != "stop"@.len());
    assert("beforeSubmitPrompt"@.len() != "stop"@.len());
}

/// A Cursor event that asks for approval (other than the end of a session)
/// makes its conversation wait.
pub proof fn law_cursor_approval_waits(p: CursorHookPayload, e: Seq<char>, c: Seq<char>)
    requires
        p.hook_event_name.deep_view() == Some(e),
        e != "sessionEnd"@,
        p.conversation_id.deep_view() == Some(c),
        trim(c).len() > 0,
        p.approval_required == Some(true),
    ensures
        spec_cursor_normalize(p) matches HookActionView::Upsert(a) && a.provider == Provider::Cursor
            && a.activity_id == c && a.state == LightState::Waiting,
{
}

/// A Cursor event whose permission is `ask`, `prompt` or `required` (in any
/// ASCII case) asks for approval: its conversation waits.
pub proof fn law_cursor_permission_waits(p: CursorHookPayload, e: Seq<char>, c: Seq<char>, v: Seq<char>)
    requires
        p.hook_event_name.deep_view() == Some(e),
        e != "sessionEnd"@,
        p.conversation_id.deep_view() == Some(c),
        trim(c).len() > 0,
        p.permission.deep_view() == Some(v),
        crate::text::ascii_lower_seq(v) == "ask"@ || crate::text::ascii_lower_seq(v) == "prompt"@
            || crate::text::ascii_lower_seq(v) == "required"@,
    ensures
        spec_cursor_normalize(p) matches HookActionView::Upsert(a) && a.provider == Provider::Cursor
            && a.activity_id == c && a.state == LightState::Waiting,
{
}

} // verus!
