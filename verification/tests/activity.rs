use harbor_light::activity::{
    activity_file_name, activity_path, apply_hook_action, conversation_matches, effective_state,
    fnv1a64, is_activity_file_name, listed_under, merge_with_existing, resolve_display_state,
    resolve_display_state_at, ActivitySnapshot, ProviderResets, StoreOp,
};
use harbor_light::paths::{FsPath, Paths};
use harbor_light::providers::{HookAction, Provider};
use harbor_light::sessions::SessionSnapshot;
use harbor_light::status::{DisplayState, LightState, StatusSnapshot};
use harbor_light::time::{now, Timestamp};

fn activity(provider: Provider, id: &str, state: LightState) -> ActivitySnapshot {
    ActivitySnapshot {
        provider,
        activity_id: id.into(),
        conversation_id: Some(id.into()),
        generation_id: None,
        workspace_roots: vec![format!("/{id}")],
        state,
        updated_at: now(),
        source: "hook".into(),
        event: "test".into(),
    }
}

/// The activity files of a home directory, kept in memory.
struct Store {
    paths: Paths,
    files: Vec<(FsPath, ActivitySnapshot)>,
}

impl Store {
    fn new() -> Self {
        Store { paths: Paths { home: "/home/test".into(), codex_home: None }, files: Vec::new() }
    }

    fn position(&self, path: &FsPath) -> Option<usize> {
        self.files.iter().position(|(p, _)| p.base == path.base && p.parts == path.parts)
    }

    fn write(&mut self, snapshot: ActivitySnapshot) {
        let path = activity_path(&self.paths, snapshot.provider, &snapshot.activity_id);
        let existing = self.position(&path).map(|i| self.files.remove(i).1);
        let merged = merge_with_existing(snapshot, existing);
        self.files.push((path, merged));
    }

    fn remove_conversation(&mut self, provider: Provider, conversation_id: &str) -> usize {
        let dir = self.paths.provider_activities_dir(provider);
        let before = self.files.len();
        self.files.retain(|(p, s)| {
            let in_dir = p.base == dir.base && p.parts.starts_with(&dir.parts);
            !(in_dir && conversation_matches(s, conversation_id))
        });
        before - self.files.len()
    }

    fn read(&self) -> Vec<ActivitySnapshot> {
        let mut out = Vec::new();
        for provider in Provider::all() {
            let dir = self.paths.provider_activities_dir(provider);
            for (p, s) in &self.files {
                let in_dir = p.base == dir.base && p.parts.len() == dir.parts.len() + 1 && p.parts.starts_with(&dir.parts);
                if in_dir && is_activity_file_name(p.parts.last().unwrap()) && listed_under(s, provider) {
                    out.push(s.copy());
                }
            }
        }
        out
    }
}

#[test]
fn stores_each_provider_and_conversation_separately() {
    let mut store = Store::new();
    store.write(activity(Provider::Codex, "codex-a", LightState::Working));
    store.write(activity(Provider::Cursor, "cursor-a", LightState::Done));
    store.write(activity(Provider::Cursor, "cursor-b", LightState::Waiting));
    let loaded = store.read();
    assert_eq!(loaded.len(), 3);
    assert_eq!(
        resolve_display_state(None, &loaded, &vec![], &ProviderResets::new()),
        DisplayState::waiting_and_working()
    );
}

#[test]
fn completing_one_conversation_does_not_hide_another_worker() {
    let activities = vec![
        activity(Provider::Codex, "codex-a", LightState::Working),
        activity(Provider::Cursor, "cursor-a", LightState::Done),
    ];
    assert_eq!(
        resolve_display_state(None, &activities, &vec![], &ProviderResets::new()),
        DisplayState::working()
    );
}

#[test]
fn terminal_event_preserves_existing_workspace_metadata() {
    let mut store = Store::new();
    store.write(activity(Provider::Cursor, "cursor-a", LightState::Working));
    let mut done = activity(Provider::Cursor, "cursor-a", LightState::Done);
    done.workspace_roots.clear();
    done.generation_id = None;
    store.write(done);
    let loaded = store.read();
    assert_eq!(loaded.len(), 1);
    assert_eq!(loaded[0].workspace_roots, vec!["/cursor-a"]);
    assert_eq!(loaded[0].state, LightState::Done);
}

#[test]
fn provider_reset_only_clears_that_provider() {
    let mut codex = activity(Provider::Codex, "codex-a", LightState::Working);
    let mut cursor = activity(Provider::Cursor, "cursor-a", LightState::Working);
    let reset = now();
    codex.updated_at = reset.plus_secs(-1);
    cursor.updated_at = reset.plus_secs(1);
    let mut resets = ProviderResets::new();
    resets.insert(Provider::Codex, reset);
    assert_eq!(
        resolve_display_state(None, &vec![codex, cursor], &vec![], &resets),
        DisplayState::working()
    );
}

#[test]
fn waiting_and_working_conversations_light_both_lamps() {
    let activities = vec![
        activity(Provider::Codex, "codex-waiting", LightState::Waiting),
        activity(Provider::Cursor, "cursor-working", LightState::Working),
    ];
    assert_eq!(
        resolve_display_state(None, &activities, &vec![], &ProviderResets::new()),
        DisplayState::waiting_and_working()
    );
}

#[test]
fn same_codex_conversation_does_not_manufacture_yellow_fallback() {
    let waiting = activity(Provider::Codex, "same", LightState::Waiting);
    let sessions = vec![SessionSnapshot {
        path: "rollout-same.jsonl".into(),
        session_id: Some("same".into()),
        state: LightState::Working,
        updated_at: now(),
    }];
    assert_eq!(
        resolve_display_state(None, &vec![waiting], &sessions, &ProviderResets::new()),
        DisplayState::waiting()
    );
}

#[test]
fn active_conversations_hide_completed_lamp() {
    let activities = vec![
        activity(Provider::Codex, "done", LightState::Done),
        activity(Provider::Cursor, "working", LightState::Working),
    ];
    assert_eq!(
        resolve_display_state(None, &activities, &vec![], &ProviderResets::new()),
        DisplayState::working()
    );
}

#[test]
fn remove_conversation_is_scoped_to_provider() {
    let mut store = Store::new();
    store.write(activity(Provider::Codex, "same", LightState::Working));
    store.write(activity(Provider::Cursor, "same", LightState::Working));
    assert_eq!(store.remove_conversation(Provider::Cursor, "same"), 1);
    let loaded = store.read();
    assert_eq!(loaded.len(), 1);
    assert_eq!(loaded[0].provider, Provider::Codex);
}

#[test]
fn touch_does_not_manufacture_activity() {
    let action = HookAction::Touch {
        provider: Provider::Cursor,
        activity_id: "missing".into(),
        generation_id: None,
        workspace_roots: vec![],
        event: "preToolUse".into(),
    };
    let (op, touched) = apply_hook_action(action, None, now());
    assert!(touched.is_none());
    assert!(matches!(op, StoreOp::Keep));
}

#[test]
fn fnv_hash_and_file_names() {
    assert_eq!(fnv1a64(b""), 0xcbf29ce484222325);
    assert_eq!(fnv1a64(b"a"), 0xaf63dc4c8601ec8c);
    assert_eq!(activity_file_name("a"), "af63dc4c8601ec8c.json");
    let p = activity_path(&Paths { home: "/h".into(), codex_home: None }, Provider::Codex, "a");
    assert_eq!(p.base, "/h");
    assert_eq!(p.parts, vec![".harbor-light", "activities", "codex", "af63dc4c8601ec8c.json"]);
    assert!(is_activity_file_name("x.json"));
    assert!(!is_activity_file_name(".json"));
    assert!(!is_activity_file_name("x.json.tmp-1-2"));
    assert!(!is_activity_file_name("x.JSON"));
}

#[test]
fn effective_states_expire() {
    let t = Timestamp { secs: 1_000_000, nanos: 0 };
    assert_eq!(effective_state(LightState::Working, t.plus_secs(-1800), None, t), LightState::Idle);
    assert_eq!(effective_state(LightState::Working, t.plus_secs(-1799), None, t), LightState::Working);
    assert_eq!(effective_state(LightState::Waiting, t, Some(t), t), LightState::Idle);
    assert_eq!(effective_state(LightState::Waiting, t.plus_secs(1), Some(t), t.plus_secs(2)), LightState::Waiting);
    assert_eq!(effective_state(LightState::Done, t.plus_secs(-3), None, t), LightState::Idle);
    assert_eq!(effective_state(LightState::Done, t.plus_secs(-2), None, t), LightState::Done);
}

#[test]
fn legacy_record_counts_while_young() {
    let t = Timestamp { secs: 5_000_000, nanos: 0 };
    let legacy = StatusSnapshot::new_at(LightState::Waiting, "hook", None, None, t.plus_secs(-10));
    assert_eq!(
        resolve_display_state_at(Some(&legacy), &vec![], &vec![], &ProviderResets::new(), t),
        DisplayState::waiting()
    );
    let old = StatusSnapshot::new_at(LightState::Waiting, "hook", None, None, t.plus_secs(-7200));
    assert_eq!(
        resolve_display_state_at(Some(&old), &vec![], &vec![], &ProviderResets::new(), t),
        DisplayState::idle()
    );
    assert_eq!(
        resolve_display_state_at(None, &vec![], &vec![], &ProviderResets::new(), t),
        DisplayState::idle()
    );
}

#[test]
fn activity_recorded_before_its_reset_changes_nothing() {
    let t = Timestamp { secs: 5_000_000, nanos: 0 };
    let done = || {
        let mut d = activity(Provider::Codex, "codex-done", LightState::Done);
        d.updated_at = t.plus_secs(-1);
        d
    };
    let mut stale = activity(Provider::Cursor, "cursor-stale", LightState::Waiting);
    stale.updated_at = t.plus_secs(-5);
    let mut resets = ProviderResets::new();
    resets.insert(Provider::Cursor, t.plus_secs(-5));
    let without = resolve_display_state_at(None, &vec![done()], &vec![], &resets, t);
    let with = resolve_display_state_at(None, &vec![stale, done()], &vec![], &resets, t);
    assert_eq!(without, DisplayState::done());
    assert_eq!(with, without);
}
