//! The store of independently tracked conversations, and the resolution of
//! all sources into the lamps shown together.
use vstd::prelude::*;
use vstd::string::StringSliceAdditionalSpecFns;

use crate::paths::{located, FsPath, Paths};
use crate::providers::{provider_name, ActivityView, HookAction, NormalizedActivity, Provider};
use crate::sessions::{is_active, SessionSnapshot, LEGACY_MAX_AGE_SECS, WORKING_IDLE_AFTER_SECS};
use crate::status::{
    apply_done_timeout_at, done_timeout, priority_of, DisplayState, LightState, StatusSnapshot,
};
use crate::text::{chars_of, copy_opt_string, copy_strings, seq_equal, str_equal};
use crate::time::{nanos_between, nanos_since, not_after, now, Timestamp, NANOS_PER_SEC};

verus! {

/// One independently tracked agent conversation.
#[derive(Debug)]
pub struct ActivitySnapshot {
    pub provider: Provider,
    pub activity_id: String,
    pub conversation_id: Option<String>,
    pub generation_id: Option<String>,
    pub workspace_roots: Vec<String>,
    pub state: LightState,
    pub updated_at: Timestamp,
    pub source: String,
    pub event: String,
}

/// The mathematical content of an `ActivitySnapshot`.
pub struct SnapshotView {
    pub provider: Provider,
    pub activity_id: Seq<char>,
    pub conversation_id: Option<Seq<char>>,
    pub generation_id: Option<Seq<char>>,
    pub workspace_roots: Seq<Seq<char>>,
    pub state: LightState,
    pub updated_at: Timestamp,
    pub source: Seq<char>,
    pub event: Seq<char>,
}

impl View for ActivitySnapshot {
    type V = SnapshotView;

    open spec fn view(&self) -> SnapshotView {
        SnapshotView {
            provider: self.provider,
            activity_id: self.activity_id@,
            conversation_id: self.conversation_id.deep_view(),
            generation_id: self.generation_id.deep_view(),
            workspace_roots: self.workspace_roots.deep_view(),
            state: self.state,
            updated_at: self.updated_at,
            source: self.source@,
            event: self.event@,
        }
    }
}

impl ActivitySnapshot {
    /// A copy of the snapshot.
    pub fn copy(&self) -> (r: ActivitySnapshot)
        ensures
            r@ == self@,
    {
        ActivitySnapshot {
            provider: self.provider,
            activity_id: self.activity_id.clone(),
            conversation_id: copy_opt_string(&self.conversation_id),
            generation_id: copy_opt_string(&self.generation_id),
            workspace_roots: copy_strings(&self.workspace_roots),
            state: self.state,
            updated_at: self.updated_at,
            source: self.source.clone(),
            event: self.event.clone(),
        }
    }
}

/// The snapshot recorded for a normalized hook activity at time `now`.
pub open spec fn snapshot_of(a: ActivityView, now: Timestamp) -> SnapshotView {
    SnapshotView {
        provider: a.provider,
        activity_id: a.activity_id,
        conversation_id: a.conversation_id,
        generation_id: a.generation_id,
        workspace_roots: a.workspace_roots,
        state: a.state,
        updated_at: now,
        source: "hook"@,
        event: a.event,
    }
}

/// The snapshot of a hook activity, stamped with the given time.
pub fn snapshot_from_activity(activity: NormalizedActivity, now: Timestamp) -> (r: ActivitySnapshot)
    ensures
        r@ == snapshot_of(activity@, now),
{
    ActivitySnapshot {
        provider: activity.provider,
        activity_id: activity.activity_id,
        conversation_id: activity.conversation_id,
        generation_id: activity.generation_id,
        workspace_roots: activity.workspace_roots,
        state: activity.state,
        updated_at: now,
        source: "hook".to_string(),
        event: activity.event,
    }
}

/// A new snapshot written over a stored one keeps the stored conversation
/// id, generation id and workspace roots where it has none of its own.
pub open spec fn merged(new: SnapshotView, existing: Option<SnapshotView>) -> SnapshotView {
    match existing {
        None => new,
        Some(e) => SnapshotView {
            conversation_id: if new.conversation_id is None {
                e.conversation_id
            } else {
                new.conversation_id
            },
            generation_id: if new.generation_id is None {
                e.generation_id
            } else {
                new.generation_id
            },
            workspace_roots: if new.workspace_roots.len() == 0 {
                e.workspace_roots
            } else {
                new.workspace_roots
            },
            ..new
        },
    }
}

/// The view of an optional snapshot.
pub open spec fn opt_view(s: Option<ActivitySnapshot>) -> Option<SnapshotView> {
    match s {
        Some(x) => Some(x@),
        None => None,
    }
}

/// The snapshot to store when `snapshot` is written where `existing` is
/// stored: terminal events that carry no metadata keep the stored metadata.
pub fn merge_with_existing(snapshot: ActivitySnapshot, existing: Option<ActivitySnapshot>) -> (r:
    ActivitySnapshot)
    ensures
        r@ == merged(snapshot@, opt_view(existing)),
{
    let mut merged = snapshot;
    match existing {
        Some(e) => {
            if merged.conversation_id.is_none() {
                merged.conversation_id = e.conversation_id;
            }
            if merged.generation_id.is_none() {
                merged.generation_id = e.generation_id;
            }
            if merged.workspace_roots.len() == 0 {
                merged.workspace_roots = e.workspace_roots;
            }
        },
        None => {},
    }
    merged
}

/// A stored snapshot refreshed by a later event at time `now`: the time and
/// event are replaced, the state when one is given, the generation id and
/// workspace roots when new ones are given.
pub open spec fn touched(
    s: SnapshotView,
    generation_id: Option<Seq<char>>,
    workspace_roots: Seq<Seq<char>>,
    state: Option<LightState>,
    event: Seq<char>,
    now: Timestamp,
) -> SnapshotView {
    SnapshotView {
        updated_at: now,
        event,
        state: match state {
            Some(st) => st,
            None => s.state,
        },
        generation_id: if generation_id is Some {
            generation_id
        } else {
            s.generation_id
        },
        workspace_roots: if workspace_roots.len() > 0 {
            workspace_roots
        } else {
            s.workspace_roots
        },
        ..s
    }
}

/// Refreshes a stored snapshot with a later event.
pub fn touch_snapshot(
    existing: ActivitySnapshot,
    generation_id: Option<String>,
    workspace_roots: Vec<String>,
    state: Option<LightState>,
    event: String,
    now: Timestamp,
) -> (r: ActivitySnapshot)
    ensures
        r@ == touched(
            existing@,
            generation_id.deep_view(),
            workspace_roots.deep_view(),
            state,
            event@,
            now,
        ),
{
    let mut snapshot = existing;
    snapshot.updated_at = now;
    snapshot.event = event;
    match state {
        Some(st) => {
            snapshot.state = st;
        },
        None => {},
    }
    if generation_id.is_some() {
        snapshot.generation_id = generation_id;
    }
    if workspace_roots.len() > 0 {
        snapshot.workspace_roots = workspace_roots;
    }
    snapshot
}

/// A change to the activity store.
#[derive(Debug)]
pub enum StoreOp {
    /// Store this snapshot under its provider and activity id, replacing
    /// what is there.
    Write(ActivitySnapshot),
    /// Remove every stored activity of the provider that belongs to the
    /// conversation (see `conversation_matches`).
    RemoveConversation { provider: Provider, conversation_id: String },
    /// Leave the store unchanged.
    Keep,
}

/// The stored activity that a hook action reads: its provider and activity id.
pub open spec fn action_target(a: HookAction) -> Option<(Provider, Seq<char>)> {
    match a {
        HookAction::Upsert(x) => Some((x.provider, x.activity_id@)),
        HookAction::Touch { provider, activity_id, .. } => Some((provider, activity_id@)),
        HookAction::SetExisting { provider, activity_id, .. } => Some((provider, activity_id@)),
        _ => None,
    }
}

/// The stored activity that a hook action reads, if any.
pub fn hook_action_target(action: &HookAction) -> (r: Option<(Provider, String)>)
    ensures
        match r {
            Some((p, id)) => action_target(*action) == Some((p, id@)),
            None => action_target(*action) is None,
        },
{
    match action {
        HookAction::Upsert(a) => Some((a.provider, a.activity_id.clone())),
        HookAction::Touch { provider, activity_id, .. } => Some((*provider, activity_id.clone())),
        HookAction::SetExisting { provider, activity_id, .. } => Some(
            (*provider, activity_id.clone()),
        ),
        _ => None,
    }
}

/// The view of a store operation.
pub enum StoreOpView {
    Write(SnapshotView),
    RemoveConversation { provider: Provider, conversation_id: Seq<char> },
    Keep,
}

impl View for StoreOp {
    type V = StoreOpView;

    open spec fn view(&self) -> StoreOpView {
        match self {
            StoreOp::Write(s) => StoreOpView::Write(s@),
            StoreOp::RemoveConversation { provider, conversation_id } =>
                StoreOpView::RemoveConversation {
                provider: *provider,
                conversation_id: conversation_id@,
            },
            StoreOp::Keep => StoreOpView::Keep,
        }
    }
}

/// What applying a hook action at time `now` does, given the activity
/// currently stored under its target: the store change, and the snapshot
/// that the action reports.
///
/// An upsert stores the new snapshot merged with the stored one and reports
/// the new snapshot. A touch or set-existing refreshes the stored activity
/// and reports it; with nothing stored it changes nothing, so a late event
/// cannot revive a finished conversation. A conversation removal removes it.
pub open spec fn hook_action_effect(
    a: HookAction,
    existing: Option<SnapshotView>,
    now: Timestamp,
) -> (StoreOpView, Option<SnapshotView>) {
    match a {
        HookAction::Upsert(x) => {
            let s = snapshot_of(x@, now);
            (StoreOpView::Write(merged(s, existing)), Some(s))
        },
        HookAction::Touch { generation_id, workspace_roots, event, .. } => match existing {
            None => (StoreOpView::Keep, None),
            Some(e) => {
                let t = touched(
                    e,
                    generation_id.deep_view(),
                    workspace_roots.deep_view(),
                    None,
                    event@,
                    now,
                );
                (StoreOpView::Write(t), Some(t))
            },
        },
        HookAction::SetExisting { generation_id, workspace_roots, state, event, .. } =>
            match existing {
            None => (StoreOpView::Keep, None),
            Some(e) => {
                let t = touched(
                    e,
                    generation_id.deep_view(),
                    workspace_roots.deep_view(),
                    Some(state),
                    event@,
                    now,
                );
                (StoreOpView::Write(t), Some(t))
            },
        },
        HookAction::RemoveConversation { provider, conversation_id, .. } => (
            StoreOpView::RemoveConversation { provider, conversation_id: conversation_id@ },
            None,
        ),
        HookAction::Ignore { .. } => (StoreOpView::Keep, None),
    }
}

/// Applies a hook action at time `now` to the activity stored under its
/// target (`existing`, as read from the store).
pub fn apply_hook_action(action: HookAction, existing: Option<ActivitySnapshot>, now: Timestamp) -> (r:
    (StoreOp, Option<ActivitySnapshot>))
    ensures
        (r.0@, opt_view(r.1)) == hook_action_effect(action, opt_view(existing), now),
{
    match action {
        HookAction::Upsert(activity) => {
            let snapshot = snapshot_from_activity(activity, now);
            let to_store = merge_with_existing(snapshot.copy(), existing);
            (StoreOp::Write(to_store), Some(snapshot))
        },
        HookAction::Touch { provider, activity_id, generation_id, workspace_roots, event } => {
            match existing {
                None => (StoreOp::Keep, None),
                Some(e) => {
                    let t = touch_snapshot(e, generation_id, workspace_roots, None, event, now);
                    (StoreOp::Write(t.copy()), Some(t))
                },
            }
        },
        HookAction::SetExisting {
            provider,
            activity_id,
            generation_id,
            workspace_roots,
            state,
            event,
        } => {
            match existing {
                None => (StoreOp::Keep, None),
                Some(e) => {
                    let t = touch_snapshot(
                        e,
                        generation_id,
                        workspace_roots,
                        Some(state),
                        event,
                        now,
                    );
                    (StoreOp::Write(t.copy()), Some(t))
                },
            }
        },
        HookAction::RemoveConversation { provider, conversation_id, event } => {
            (StoreOp::RemoveConversation { provider, conversation_id }, None)
        },
        HookAction::Ignore { event, reason } => (StoreOp::Keep, None),
    }
}

/// Whether a stored activity belongs to the conversation: its conversation
/// id or its activity id is the conversation id.
pub fn conversation_matches(snapshot: &ActivitySnapshot, conversation_id: &str) -> (r: bool)
    ensures
        r == (snapshot.conversation_id.deep_view() == Some(conversation_id@)
            || snapshot.activity_id@ == conversation_id@),
{
    let by_conversation = match &snapshot.conversation_id {
        Some(c) => str_equal(c.as_str(), conversation_id),
        None => false,
    };
    by_conversation || str_equal(snapshot.activity_id.as_str(), conversation_id)
}

/// Whether an activity read from a provider's directory is listed: one that
/// names another provider does not cross provider boundaries.
pub fn listed_under(snapshot: &ActivitySnapshot, provider: Provider) -> (r: bool)
    ensures
        r == (snapshot.provider == provider),
{
    snapshot.provider == provider
}

// ------------------------------------------------------------- file names

/// The FNV-1a offset basis for 64-bit hashes.
pub const FNV_OFFSET: u64 = 0xcbf29ce484222325;

/// The FNV-1a prime for 64-bit hashes.
pub const FNV_PRIME: u64 = 0x100000001b3;

/// One FNV-1a step: xor the byte in, then multiply modulo 2^64.
pub open spec fn fnv_step(h: u64, b: u8) -> u64 {
    (((h ^ (b as u64)) as nat * FNV_PRIME as nat) % 0x1_0000_0000_0000_0000) as u64
}

/// The 64-bit FNV-1a hash of a byte sequence.
pub open spec fn fnv_hash(bytes: Seq<u8>) -> u64
    decreases bytes.len(),
{
    if bytes.len() == 0 {
        FNV_OFFSET
    } else {
        fnv_step(fnv_hash(bytes.drop_last()), bytes.last())
    }
}

/// The 64-bit FNV-1a hash of a byte sequence.
pub fn fnv1a64(bytes: &[u8]) -> (r: u64)
    ensures
        r == fnv_hash(bytes@),
{
    let mut hash: u64 = FNV_OFFSET;
    let mut i: usize = 0;
    while i < bytes.len()
        invariant
            i <= bytes@.len(),
            hash == fnv_hash(bytes@.take(i as int)),
        decreases bytes.len() - i,
    {
        proof {
            assert(bytes@.take(i + 1).drop_last() =~= bytes@.take(i as int));
        }
        hash = (hash ^ (bytes[i] as u64)).wrapping_mul(FNV_PRIME);
        i = i + 1;
    }
    proof {
        assert(bytes@.take(i as int) =~= bytes@);
    }
    hash
}

/// The lower-case hexadecimal digit of a nibble.
pub open spec fn hex_digit(n: u64) -> char {
    if n < 10 {
        (('0' as u64) + n) as char
    } else {
        (('a' as u64) + n - 10) as char
    }
}

/// The 16-digit, zero-padded, lower-case hexadecimal form of a 64-bit value.
pub open spec fn hex16(h: u64) -> Seq<char> {
    Seq::new(16, |i: int| hex_digit((h >> ((60 - 4 * i) as u64)) & 15))
}

fn hex_digit_of(n: u64) -> (r: char)
    requires
        n < 16,
    ensures
        r == hex_digit(n),
{
    let digits: [char; 16] = [
        '0',
        '1',
        '2',
        '3',
        '4',
        '5',
        '6',
        '7',
        '8',
        '9',
        'a',
        'b',
        'c',
        'd',
        'e',
        'f',
    ];
    let r = digits[n as usize];
    assert(r == hex_digit(n)) by {
        assert(n == 0 || n == 1 || n == 2 || n == 3 || n == 4 || n == 5 || n == 6 || n == 7 || n
            == 8 || n == 9 || n == 10 || n == 11 || n == 12 || n == 13 || n == 14 || n == 15);
    }
    r
}

/// The file name under which an activity is stored: the FNV-1a hash of its
/// id's UTF-8 bytes as 16 hexadecimal digits, then ".json".
pub open spec fn activity_file_name_of(activity_id: &str) -> Seq<char> {
    hex16(fnv_hash(activity_id.spec_bytes())) + ".json"@
}

/// The file name under which an activity is stored.
pub fn activity_file_name(activity_id: &str) -> (r: String)
    ensures
        r@ == activity_file_name_of(activity_id),
{
    let hash = fnv1a64(activity_id.as_bytes());
    let mut name = String::new();
    let mut i: u64 = 0;
    while i < 16
        invariant
            i <= 16,
            name@ == hex16(hash).take(i as int),
        decreases 16 - i,
    {
        let shift: u64 = 60 - 4 * i;
        let n = (hash >> shift) & 15;
        assert(n < 16) by (bit_vector)
            requires
                n == (hash >> shift) & 15,
        ;
        name.push(hex_digit_of(n));
        proof {
            assert(name@ =~= hex16(hash).take(i + 1));
        }
        i = i + 1;
    }
    name.push_str(".json");
    proof {
        assert(hex16(hash).take(16) =~= hex16(hash));
    }
    name
}

/// Where an activity is stored.
pub fn activity_path(paths: &Paths, provider: Provider, activity_id: &str) -> (r: FsPath)
    ensures
        located(
            r,
            paths.home@,
            seq![
                ".harbor-light"@,
                "activities"@,
                provider_name(provider),
                activity_file_name_of(activity_id),
            ],
        ),
{
    let name = activity_file_name(activity_id);
    let r = paths.provider_activities_dir(provider).join(name.as_str());
    assert(r.spec_parts() =~= seq![
        ".harbor-light"@,
        "activities"@,
        provider_name(provider),
        activity_file_name_of(activity_id),
    ]);
    r
}

// ------------------------------------------------------------ resolution

/// Whether a file name is that of a stored activity: its extension is
/// `json` (a dot that is not the first character, then `json`).
pub open spec fn is_activity_file_name_spec(name: Seq<char>) -> bool {
    &&& name.len() > 5
    &&& name[name.len() - 5] == '.'
    &&& name.skip(name.len() - 4) == "json"@
}

/// Whether a file in an activity directory holds an activity.
pub fn is_activity_file_name(name: &str) -> (r: bool)
    ensures
        r == is_activity_file_name_spec(name@),
{
    let v = crate::text::chars_of(name);
    if v.len() <= 5 || v[v.len() - 5] != '.' {
        return false;
    }
    let r = crate::text::ends_with(&v, &crate::text::chars_of("json"));
    proof {
        reveal_strlit("json");
        assert(("json"@).len() == 4);
    }
    r
}

/// When each provider's application was last seen to quit; active states
/// recorded at or before that time are stale.
#[derive(Debug, Clone, Copy)]
pub struct ProviderResets {
    pub codex: Option<Timestamp>,
    pub cursor: Option<Timestamp>,
}

impl ProviderResets {
    /// The reset time of a provider.
    pub open spec fn at(self, p: Provider) -> Option<Timestamp> {
        match p {
            Provider::Codex => self.codex,
            Provider::Cursor => self.cursor,
        }
    }

    /// No reset known for any provider.
    pub fn new() -> (r: ProviderResets)
        ensures
            forall|p: Provider| r.at(p) is None,
    {
        ProviderResets { codex: None, cursor: None }
    }

    /// The reset time of a provider.
    pub fn get(&self, p: Provider) -> (r: Option<Timestamp>)
        ensures
            r == self.at(p),
    {
        match p {
            Provider::Codex => self.codex,
            Provider::Cursor => self.cursor,
        }
    }

    /// Records a reset of a provider.
    pub fn insert(&mut self, p: Provider, at: Timestamp)
        ensures
            final(self).at(p) == Some(at),
            forall|q: Provider| q != p ==> final(self).at(q) == old(self).at(q),
    {
        match p {
            Provider::Codex => {
                self.codex = Some(at);
            },
            Provider::Cursor => {
                self.cursor = Some(at);
            },
        }
    }
}

/// The state a record shows at time `now`: an active state recorded at or
/// before its provider's reset is idle, an active state older than
/// `WORKING_IDLE_AFTER_SECS` is idle, and a done state collapses to idle after
/// `DONE_IDLE_AFTER_SECS`.
pub open spec fn effective(
    state: LightState,
    updated_at: Timestamp,
    reset: Option<Timestamp>,
    now: Timestamp,
) -> LightState {
    if is_active(state) && reset is Some && updated_at.precedes_eq(reset->0) {
        LightState::Idle
    } else if is_active(state) && nanos_since(now, updated_at) >= WORKING_IDLE_AFTER_SECS
        * NANOS_PER_SEC {
        LightState::Idle
    } else {
        done_timeout(state, Some(updated_at), now)
    }
}

/// `effective` at time `now`.
pub fn effective_state(
    state: LightState,
    updated_at: Timestamp,
    reset_at: Option<Timestamp>,
    now: Timestamp,
) -> (r: LightState)
    ensures
        r == effective(state, updated_at, reset_at, now),
{
    let active = state == LightState::Working || state == LightState::Waiting;
    let before_reset = match reset_at {
        Some(reset) => not_after(&updated_at, &reset),
        None => false,
    };
    if active && before_reset {
        return LightState::Idle;
    }
    if active && nanos_between(&updated_at, &now) >= WORKING_IDLE_AFTER_SECS * NANOS_PER_SEC {
        return LightState::Idle;
    }
    apply_done_timeout_at(state, Some(updated_at), now)
}

/// One source of a conversation state: the conversation's identity, the
/// precedence of the kind of source (hook activity 3, legacy record 2,
/// rollout log 1) and the state it shows.
pub struct Source {
    pub id: Seq<char>,
    pub precedence: nat,
    pub state: LightState,
}

/// Recording a source: an idle source is skipped so that it cannot mask a
/// fresher lower-precedence one; otherwise a source replaces the state of its
/// conversation when it has higher precedence, or the same precedence and a
/// more urgent state.
pub open spec fn insert_source_spec(
    m: Map<Seq<char>, (nat, LightState)>,
    s: Source,
) -> Map<Seq<char>, (nat, LightState)> {
    if s.state == LightState::Idle {
        m
    } else if m.contains_key(s.id) {
        let cur = m[s.id];
        if cur.0 > s.precedence {
            m
        } else if cur.0 == s.precedence {
            if priority_of(s.state) > priority_of(cur.1) {
                m.insert(s.id, (cur.0, s.state))
            } else {
                m
            }
        } else {
            m.insert(s.id, (s.precedence, s.state))
        }
    } else {
        m.insert(s.id, (s.precedence, s.state))
    }
}

/// The state per conversation after recording the sources in order.
pub open spec fn source_map(srcs: Seq<Source>) -> Map<Seq<char>, (nat, LightState)>
    decreases srcs.len(),
{
    if srcs.len() == 0 {
        Map::empty()
    } else {
        insert_source_spec(source_map(srcs.drop_last()), srcs.last())
    }
}

/// Whether some conversation of the map shows the state.
pub open spec fn map_shows(m: Map<Seq<char>, (nat, LightState)>, st: LightState) -> bool {
    exists|k: Seq<char>| #[trigger] m.contains_key(k) && m[k].1 == st
}

/// The source of a hook activity.
pub open spec fn activity_source(a: ActivitySnapshot, resets: ProviderResets, now: Timestamp) -> Source {
    Source {
        id: provider_name(a.provider) + ":"@ + a.activity_id@,
        precedence: 3,
        state: effective(a.state, a.updated_at, resets.at(a.provider), now),
    }
}

/// The source of a Codex rollout session: identified by its session id, or
/// by its file when it has none.
pub open spec fn session_source(s: SessionSnapshot, reset: Option<Timestamp>, now: Timestamp) -> Source {
    Source {
        id: match s.session_id.deep_view() {
            Some(id) => "codex:"@ + id,
            None => "codex-rollout:"@ + s.path@,
        },
        precedence: 1,
        state: effective(s.state, s.updated_at, reset, now),
    }
}

/// The source of the legacy record, which counts while it is younger than
/// `LEGACY_MAX_AGE_SECS`.
pub open spec fn legacy_sources(legacy: Option<StatusSnapshot>, reset: Option<Timestamp>, now: Timestamp) -> Seq<
    Source,
> {
    match legacy {
        Some(l) => if nanos_since(now, l.updated_at) < LEGACY_MAX_AGE_SECS * NANOS_PER_SEC {
            seq![
                Source {
                    id: match l.session_id.deep_view() {
                        Some(id) => "codex:"@ + id,
                        None => "codex-legacy"@,
                    },
                    precedence: 2,
                    state: effective(l.state, l.updated_at, reset, now),
                },
            ]
        } else {
            Seq::empty()
        },
        None => Seq::empty(),
    }
}

/// Every source, in the order they are recorded: hook activities, rollout
/// sessions, then the legacy record.
pub open spec fn all_sources(
    legacy: Option<StatusSnapshot>,
    activities: Seq<ActivitySnapshot>,
    sessions: Seq<SessionSnapshot>,
    resets: ProviderResets,
    now: Timestamp,
) -> Seq<Source> {
    activities.map_values(|a: ActivitySnapshot| activity_source(a, resets, now)) + sessions.map_values(
        |s: SessionSnapshot| session_source(s, resets.at(Provider::Codex), now),
    ) + legacy_sources(legacy, resets.at(Provider::Codex), now)
}

/// The lamps for the state per conversation: red when one waits, yellow
/// when one works, green only when none waits or works and one is done.
pub open spec fn shows_lamps(d: DisplayState, m: Map<Seq<char>, (nat, LightState)>) -> bool {
    d.has_lamps(
        map_shows(m, LightState::Waiting),
        map_shows(m, LightState::Working),
        !map_shows(m, LightState::Waiting) && !map_shows(m, LightState::Working) && map_shows(
            m,
            LightState::Done,
        ),
    )
}

struct SourceEntry {
    identity: Vec<char>,
    precedence: u8,
    state: LightState,
}

spec fn entries_map(e: Seq<SourceEntry>) -> Map<Seq<char>, (nat, LightState)>
    decreases e.len(),
{
    if e.len() == 0 {
        Map::empty()
    } else {
        entries_map(e.drop_last()).insert(
            e.last().identity@,
            (e.last().precedence as nat, e.last().state),
        )
    }
}

spec fn unique_ids(e: Seq<SourceEntry>) -> bool {
    forall|i: int, j: int|
        0 <= i < e.len() && 0 <= j < e.len() && i != j ==> #[trigger] e[i].identity@
            != #[trigger] e[j].identity@
}

proof fn lemma_unique_drop_last(e: Seq<SourceEntry>)
    requires
        unique_ids(e),
        e.len() > 0,
    ensures
        unique_ids(e.drop_last()),
{
    let d = e.drop_last();
    assert forall|i: int, j: int|
        0 <= i < d.len() && 0 <= j < d.len() && i != j implies #[trigger] d[i].identity@
        != #[trigger] d[j].identity@ by {
        assert(d[i] == e[i] && d[j] == e[j]);
    }
}

proof fn lemma_entries_map_at(e: Seq<SourceEntry>, i: int)
    requires
        unique_ids(e),
        0 <= i < e.len(),
    ensures
        entries_map(e).contains_key(e[i].identity@),
        entries_map(e)[e[i].identity@] == (e[i].precedence as nat, e[i].state),
    decreases e.len(),
{
    let d = e.drop_last();
    if i < e.len() - 1 {
        lemma_unique_drop_last(e);
        lemma_entries_map_at(d, i);
        assert(d[i] == e[i]);
        assert(e[i].identity@ != e[e.len() - 1].identity@);
    }
}

proof fn lemma_entries_map_key(e: Seq<SourceEntry>, k: Seq<char>)
    requires
        unique_ids(e),
        entries_map(e).contains_key(k),
    ensures
        exists|i: int| 0 <= i < e.len() && #[trigger] e[i].identity@ == k,
    decreases e.len(),
{
    let d = e.drop_last();
    if k == e.last().identity@ {
        assert(e[e.len() - 1].identity@ == k);
    } else {
        lemma_unique_drop_last(e);
        lemma_entries_map_key(d, k);
        let i = choose|i: int| 0 <= i < d.len() && #[trigger] d[i].identity@ == k;
        assert(e[i] == d[i]);
    }
}

proof fn lemma_entries_map_update(e: Seq<SourceEntry>, i: int, x: SourceEntry)
    requires
        unique_ids(e),
        0 <= i < e.len(),
        e[i].identity@ == x.identity@,
    ensures
        unique_ids(e.update(i, x)),
        entries_map(e.update(i, x)) == entries_map(e).insert(
            x.identity@,
            (x.precedence as nat, x.state),
        ),
{
    let u = e.update(i, x);
    assert(unique_ids(u)) by {
        assert forall|a: int, b: int|
            0 <= a < u.len() && 0 <= b < u.len() && a != b implies #[trigger] u[a].identity@
            != #[trigger] u[b].identity@ by {
            assert(u[a].identity@ == e[a].identity@);
            assert(u[b].identity@ == e[b].identity@);
        }
    }
    let lhs = entries_map(u);
    let rhs = entries_map(e).insert(x.identity@, (x.precedence as nat, x.state));
    assert forall|k: Seq<char>| lhs.contains_key(k) <==> rhs.contains_key(k) by {
        if lhs.contains_key(k) {
            lemma_entries_map_key(u, k);
            let j = choose|j: int| 0 <= j < u.len() && #[trigger] u[j].identity@ == k;
            assert(e[j].identity@ == k);
            lemma_entries_map_at(e, j);
        }
        if rhs.contains_key(k) && k != x.identity@ {
            lemma_entries_map_key(e, k);
            let j = choose|j: int| 0 <= j < e.len() && #[trigger] e[j].identity@ == k;
            assert(u[j].identity@ == k);
            lemma_entries_map_at(u, j);
        }
        if k == x.identity@ {
            assert(u[i].identity@ == k);
            lemma_entries_map_at(u, i);
        }
    }
    assert forall|k: Seq<char>| lhs.contains_key(k) implies lhs[k] == rhs[k] by {
        lemma_entries_map_key(u, k);
        let j = choose|j: int| 0 <= j < u.len() && #[trigger] u[j].identity@ == k;
        lemma_entries_map_at(u, j);
        if j == i {
        } else {
            assert(u[j] == e[j]);
            lemma_entries_map_at(e, j);
        }
    }
    assert(lhs =~= rhs);
}

proof fn lemma_entries_shows(e: Seq<SourceEntry>, st: LightState)
    requires
        unique_ids(e),
    ensures
        map_shows(entries_map(e), st) <==> exists|i: int| 0 <= i < e.len() && #[trigger] e[i].state
            == st,
{
    let m = entries_map(e);
    if map_shows(m, st) {
        let k = choose|k: Seq<char>| #[trigger] m.contains_key(k) && m[k].1 == st;
        lemma_entries_map_key(e, k);
        let i = choose|i: int| 0 <= i < e.len() && #[trigger] e[i].identity@ == k;
        lemma_entries_map_at(e, i);
        assert(m[e[i].identity@] == (e[i].precedence as nat, e[i].state));
        assert(e[i].state == st);
    }
    if exists|i: int| 0 <= i < e.len() && #[trigger] e[i].state == st {
        let i = choose|i: int| 0 <= i < e.len() && #[trigger] e[i].state == st;
        lemma_entries_map_at(e, i);
        assert(m.contains_key(e[i].identity@));
        assert(m[e[i].identity@].1 == st);
    }
}

/// The position of the entry with the given identity.
fn find_entry(entries: &Vec<SourceEntry>, identity: &Vec<char>) -> (r: Option<usize>)
    ensures
        match r {
            Some(i) => i < entries@.len() && entries@[i as int].identity@ == identity@,
            None => forall|j: int|
                0 <= j < entries@.len() ==> (#[trigger] entries@[j]).identity@ != identity@,
        },
{
    let mut i: usize = 0;
    while i < entries.len()
        invariant
            i <= entries@.len(),
            forall|j: int| 0 <= j < i ==> (#[trigger] entries@[j]).identity@ != identity@,
        decreases entries.len() - i,
    {
        if seq_equal(&entries[i].identity, identity) {
            return Some(i);
        }
        i = i + 1;
    }
    None
}

/// Records one source in the entries.
fn insert_source(entries: &mut Vec<SourceEntry>, identity: Vec<char>, precedence: u8, state: LightState)
    requires
        unique_ids(old(entries)@),
    ensures
        unique_ids(final(entries)@),
        entries_map(final(entries)@) == insert_source_spec(
            entries_map(old(entries)@),
            Source { id: identity@, precedence: precedence as nat, state },
        ),
        ({
            let m = entries_map(old(entries)@);
            let r = entries_map(final(entries)@);
            let k = identity@;
            let p = precedence as nat;
            &&& state == LightState::Idle ==> r == m
            &&& state != LightState::Idle && !m.contains_key(k) ==> r == m.insert(k, (p, state))
            &&& state != LightState::Idle && m.contains_key(k) && m[k].0 > p ==> r == m
            &&& state != LightState::Idle && m.contains_key(k) && m[k].0 == p ==> r == m.insert(
                k,
                (
                    p,
                    if priority_of(state) > priority_of(m[k].1) {
                        state
                    } else {
                        m[k].1
                    },
                ),
            )
            &&& state != LightState::Idle && m.contains_key(k) && m[k].0 < p ==> r == m.insert(
                k,
                (p, state),
            )
            &&& forall|j: Seq<char>| j != k ==> (#[trigger] r.contains_key(j) == m.contains_key(j)
                && (m.contains_key(j) ==> r[j] == m[j]))
        }),
{
    proof {
        law_source_precedence(
            entries_map(entries@),
            Source { id: identity@, precedence: precedence as nat, state },
        );
    }
    if state == LightState::Idle {
        return;
    }
    let found = find_entry(entries, &identity);
    let i: usize = match found {
        Some(i) => i,
        None => entries.len(),
    };
    if i < entries.len() {
        let cur_precedence = entries[i].precedence;
        let cur_state = entries[i].state;
        proof {
            lemma_entries_map_at(entries@, i as int);
        }
        assert(entries_map(entries@)[identity@] == (cur_precedence as nat, cur_state));
        if cur_precedence > precedence {
            return;
        }
        let new_precedence = if cur_precedence == precedence {
            if state.priority() > cur_state.priority() {
                cur_precedence
            } else {
                return;
            }
        } else {
            precedence
        };
        let entry = SourceEntry { identity, precedence: new_precedence, state };
        proof {
            lemma_entries_map_update(entries@, i as int, entry);
        }
        entries.set(i, entry);
    } else {
        proof {
            if entries_map(entries@).contains_key(identity@) {
                lemma_entries_map_key(entries@, identity@);
                let j = choose|j: int| 0 <= j < entries@.len() && #[trigger] entries@[j].identity@
                    == identity@;
                assert(entries@[j].identity@ != identity@);
            }
        }
        let ghost before = entries@;
        entries.push(SourceEntry { identity, precedence, state });
        proof {
            assert(entries@.drop_last() =~= before);
            assert forall|a: int, b: int|
                0 <= a < entries@.len() && 0 <= b < entries@.len() && a != b implies #[trigger] entries@[a].identity@
                != #[trigger] entries@[b].identity@ by {
                if a < before.len() && b < before.len() {
                    assert(entries@[a] == before[a] && entries@[b] == before[b]);
                } else if a < before.len() {
                    assert(entries@[a] == before[a]);
                } else {
                    assert(entries@[b] == before[b]);
                }
            }
        }
    }
}

/// The characters of `prefix` followed by those of `rest`.
fn joined_identity(prefix: &str, rest: &str) -> (r: Vec<char>)
    ensures
        r@ == prefix@ + rest@,
{
    let mut v = chars_of(prefix);
    let w = chars_of(rest);
    let mut i: usize = 0;
    let ghost start = v@;
    while i < w.len()
        invariant
            i <= w@.len(),
            v@ == start + w@.take(i as int),
        decreases w.len() - i,
    {
        v.push(w[i]);
        i = i + 1;
        assert(v@ =~= start + w@.take(i as int));
    }
    assert(w@.take(i as int) =~= w@);
    v
}

/// Resolves every source at time `now` into the lamps shown together: hook
/// activities of every provider, the Codex rollout sessions and the legacy
/// record.
///
/// Hook activities are authoritative for their conversation: a rollout
/// session or legacy record of the same Codex conversation cannot add a lamp
/// of its own.
pub fn resolve_display_state_at(
    legacy: Option<&StatusSnapshot>,
    activities: &Vec<ActivitySnapshot>,
    codex_sessions: &Vec<SessionSnapshot>,
    resets: &ProviderResets,
    now: Timestamp,
) -> (r: DisplayState)
    ensures
        shows_lamps(
            r,
            source_map(
                all_sources(
                    crate::sessions::opt_snapshot(legacy),
                    activities@,
                    codex_sessions@,
                    *resets,
                    now,
                ),
            ),
        ),
{
    let ghost act_srcs = activities@.map_values(
        |a: ActivitySnapshot| activity_source(a, *resets, now),
    );
    let ghost ses_srcs = codex_sessions@.map_values(
        |s: SessionSnapshot| session_source(s, resets.at(Provider::Codex), now),
    );
    let mut entries: Vec<SourceEntry> = Vec::new();
    let mut i: usize = 0;
    while i < activities.len()
        invariant
            i <= activities@.len(),
            unique_ids(entries@),
            act_srcs == activities@.map_values(
                |a: ActivitySnapshot| activity_source(a, *resets, now),
            ),
            entries_map(entries@) == source_map(act_srcs.take(i as int)),
        decreases activities.len() - i,
    {
        let a = &activities[i];
        let mut prefix = a.provider.as_str().to_string();
        prefix.push_str(":");
        let identity = joined_identity(prefix.as_str(), a.activity_id.as_str());
        let state = effective_state(a.state, a.updated_at, resets.get(a.provider), now);
        proof {
            assert(act_srcs.take(i + 1).drop_last() =~= act_srcs.take(i as int));
            assert(act_srcs.take(i + 1).last() == activity_source(*a, *resets, now));
        }
        insert_source(&mut entries, identity, 3, state);
        i = i + 1;
    }
    proof {
        assert(act_srcs.take(i as int) =~= act_srcs);
    }
    let codex_reset = resets.get(Provider::Codex);
    let mut j: usize = 0;
    while j < codex_sessions.len()
        invariant
            j <= codex_sessions@.len(),
            unique_ids(entries@),
            codex_reset == resets.at(Provider::Codex),
            ses_srcs == codex_sessions@.map_values(
                |s: SessionSnapshot| session_source(s, resets.at(Provider::Codex), now),
            ),
            entries_map(entries@) == source_map(act_srcs + ses_srcs.take(j as int)),
        decreases codex_sessions.len() - j,
    {
        let s = &codex_sessions[j];
        let identity = match &s.session_id {
            Some(id) => joined_identity("codex:", id.as_str()),
            None => joined_identity("codex-rollout:", s.path.as_str()),
        };
        let state = effective_state(s.state, s.updated_at, codex_reset, now);
        proof {
            assert((act_srcs + ses_srcs.take(j + 1)).drop_last() =~= act_srcs + ses_srcs.take(
                j as int,
            ));
            assert((act_srcs + ses_srcs.take(j + 1)).last() == session_source(
                *s,
                resets.at(Provider::Codex),
                now,
            ));
        }
        insert_source(&mut entries, identity, 1, state);
        j = j + 1;
    }
    proof {
        assert(ses_srcs.take(j as int) =~= ses_srcs);
    }
    let ghost lg = crate::sessions::opt_snapshot(legacy);
    match legacy {
        Some(l) => {
            if l.age_at(now) < LEGACY_MAX_AGE_SECS * NANOS_PER_SEC {
                let identity = match &l.session_id {
                    Some(id) => joined_identity("codex:", id.as_str()),
                    None => chars_of("codex-legacy"),
                };
                let state = effective_state(l.state, l.updated_at, codex_reset, now);
                proof {
                    let all = act_srcs + ses_srcs + legacy_sources(lg, codex_reset, now);
                    assert(all.drop_last() =~= act_srcs + ses_srcs);
                }
                insert_source(&mut entries, identity, 2, state);
            } else {
                proof {
                    assert(act_srcs + ses_srcs + legacy_sources(lg, codex_reset, now) =~= act_srcs
                        + ses_srcs);
                }
            }
        },
        None => {
            proof {
                assert(act_srcs + ses_srcs + legacy_sources(lg, codex_reset, now) =~= act_srcs
                    + ses_srcs);
            }
        },
    }
    let mut states: Vec<LightState> = Vec::new();
    let mut k: usize = 0;
    while k < entries.len()
        invariant
            k <= entries@.len(),
            states@.len() == k,
            forall|x: int| 0 <= x < k ==> states@[x] == (#[trigger] entries@[x]).state,
        decreases entries.len() - k,
    {
        states.push(entries[k].state);
        k = k + 1;
    }
    let r = DisplayState::from_states(states.as_slice());
    proof {
        let e = entries@;
        lemma_entries_shows(e, LightState::Waiting);
        lemma_entries_shows(e, LightState::Working);
        lemma_entries_shows(e, LightState::Done);
        assert forall|st: LightState| states@.contains(st) <==> exists|x: int|
            0 <= x < e.len() && #[trigger] e[x].state == st by {
            if states@.contains(st) {
                let x = choose|x: int| 0 <= x < states@.len() && states@[x] == st;
                assert(e[x].state == st);
            }
            if exists|x: int| 0 <= x < e.len() && #[trigger] e[x].state == st {
                let x = choose|x: int| 0 <= x < e.len() && #[trigger] e[x].state == st;
                assert(states@[x] == st);
            }
        }
    }
    r
}

/// Resolves every source into the lamps shown together. Reads the clock.
pub fn resolve_display_state(
    legacy: Option<&StatusSnapshot>,
    activities: &Vec<ActivitySnapshot>,
    codex_sessions: &Vec<SessionSnapshot>,
    resets: &ProviderResets,
) -> (r: DisplayState)
    ensures
        exists|t: Timestamp|
            shows_lamps(
                r,
                source_map(
                    #[trigger] all_sources(
                        crate::sessions::opt_snapshot(legacy),
                        activities@,
                        codex_sessions@,
                        *resets,
                        t,
                    ),
                ),
            ),
{
    let t = now();
    resolve_display_state_at(legacy, activities, codex_sessions, resets, t)
}

// ------------------------------------------------------------------ laws

/// Every recorded precedence is at most 3.
pub open spec fn precedences_bounded(m: Map<Seq<char>, (nat, LightState)>) -> bool {
    forall|k: Seq<char>| #[trigger] m.contains_key(k) ==> m[k].0 <= 3
}

proof fn lemma_precedences_bounded(srcs: Seq<Source>)
    requires
        forall|j: int| 0 <= j < srcs.len() ==> (#[trigger] srcs[j]).precedence <= 3,
    ensures
        precedences_bounded(source_map(srcs)),
    decreases srcs.len(),
{
    if srcs.len() > 0 {
        let d = srcs.drop_last();
        assert forall|j: int| 0 <= j < d.len() implies (#[trigger] d[j]).precedence <= 3 by {
            assert(d[j] == srcs[j]);
        }
        lemma_precedences_bounded(d);
        assert(srcs[srcs.len() - 1] == srcs.last());
    }
}

/// A non-idle source of the highest precedence stays recorded at that
/// precedence with a state at least as urgent as its own.
proof fn lemma_top_source_kept(srcs: Seq<Source>, i: int)
    requires
        forall|j: int| 0 <= j < srcs.len() ==> (#[trigger] srcs[j]).precedence <= 3,
        0 <= i < srcs.len(),
        srcs[i].precedence == 3,
        srcs[i].state != LightState::Idle,
    ensures
        source_map(srcs).contains_key(srcs[i].id),
        source_map(srcs)[srcs[i].id].0 == 3,
        priority_of(source_map(srcs)[srcs[i].id].1) >= priority_of(srcs[i].state),
    decreases srcs.len(),
{
    let d = srcs.drop_last();
    assert forall|j: int| 0 <= j < d.len() implies (#[trigger] d[j]).precedence <= 3 by {
        assert(d[j] == srcs[j]);
    }
    lemma_precedences_bounded(d);
    let m = source_map(d);
    if i == srcs.len() - 1 {
        assert(srcs.last() == srcs[i]);
        if m.contains_key(srcs[i].id) {
            assert(m[srcs[i].id].0 <= 3);
        }
    } else {
        assert(d[i] == srcs[i]);
        lemma_top_source_kept(d, i);
        let l = srcs.last();
        assert(srcs[srcs.len() - 1] == l);
        assert(l.precedence <= 3);
    }
}

/// The sources from hook activities come first, one per activity.
proof fn lemma_activity_source_index(
    legacy: Option<StatusSnapshot>,
    activities: Seq<ActivitySnapshot>,
    sessions: Seq<SessionSnapshot>,
    resets: ProviderResets,
    now: Timestamp,
    i: int,
)
    requires
        0 <= i < activities.len(),
    ensures
        all_sources(legacy, activities, sessions, resets, now)[i] == activity_source(
            activities[i],
            resets,
            now,
        ),
        i < all_sources(legacy, activities, sessions, resets, now).len(),
        forall|j: int|
            0 <= j < all_sources(legacy, activities, sessions, resets, now).len() ==> (#[trigger] all_sources(
                legacy,
                activities,
                sessions,
                resets,
                now,
            )[j]).precedence <= 3,
{
    let a = activities.map_values(|x: ActivitySnapshot| activity_source(x, resets, now));
    let b = sessions.map_values(
        |x: SessionSnapshot| session_source(x, resets.at(Provider::Codex), now),
    );
    let c = legacy_sources(legacy, resets.at(Provider::Codex), now);
    let all = a + b + c;
    assert(all[i] == a[i]);
    assert forall|j: int| 0 <= j < all.len() implies (#[trigger] all[j]).precedence <= 3 by {
        if j < a.len() {
            assert(all[j] == a[j]);
        } else if j < a.len() + b.len() {
            assert(all[j] == b[j - a.len()]);
        } else {
            assert(all[j] == c[j - a.len() - b.len()]);
        }
    }
}

/// A hook activity that is waiting lights the red lamp, whatever else is
/// recorded.
pub proof fn law_waiting_activity_lights_red(
    legacy: Option<StatusSnapshot>,
    activities: Seq<ActivitySnapshot>,
    sessions: Seq<SessionSnapshot>,
    resets: ProviderResets,
    now: Timestamp,
    i: int,
    d: DisplayState,
)
    requires
        0 <= i < activities.len(),
        effective(
            activities[i].state,
            activities[i].updated_at,
            resets.at(activities[i].provider),
            now,
        ) == LightState::Waiting,
        shows_lamps(d, source_map(all_sources(legacy, activities, sessions, resets, now))),
    ensures
        d.red(),
{
    let all = all_sources(legacy, activities, sessions, resets, now);
    lemma_activity_source_index(legacy, activities, sessions, resets, now, i);
    lemma_top_source_kept(all, i);
    let m = source_map(all);
    let id = all[i].id;
    assert(m.contains_key(id) && m[id].1 == LightState::Waiting);
    assert(map_shows(m, LightState::Waiting));
    DisplayState::lemma_lamps(
        d,
        map_shows(m, LightState::Waiting),
        map_shows(m, LightState::Working),
        !map_shows(m, LightState::Waiting) && !map_shows(m, LightState::Working) && map_shows(
            m,
            LightState::Done,
        ),
    );
}

/// A hook activity that is still working or waiting keeps a red or yellow
/// lamp lit and the green lamp dark: completing one conversation does not
/// hide another that is active.
pub proof fn law_active_activity_hides_done(
    legacy: Option<StatusSnapshot>,
    activities: Seq<ActivitySnapshot>,
    sessions: Seq<SessionSnapshot>,
    resets: ProviderResets,
    now: Timestamp,
    i: int,
    d: DisplayState,
)
    requires
        0 <= i < activities.len(),
        is_active(
            effective(
                activities[i].state,
                activities[i].updated_at,
                resets.at(activities[i].provider),
                now,
            ),
        ),
        shows_lamps(d, source_map(all_sources(legacy, activities, sessions, resets, now))),
    ensures
        d.red() || d.yellow(),
        !d.green(),
{
    let all = all_sources(legacy, activities, sessions, resets, now);
    lemma_activity_source_index(legacy, activities, sessions, resets, now, i);
    lemma_top_source_kept(all, i);
    let m = source_map(all);
    let id = all[i].id;
    assert(m.contains_key(id));
    assert(m[id].1 == LightState::Waiting || m[id].1 == LightState::Working);
    assert(map_shows(m, LightState::Waiting) || map_shows(m, LightState::Working));
    DisplayState::lemma_lamps(
        d,
        map_shows(m, LightState::Waiting),
        map_shows(m, LightState::Working),
        !map_shows(m, LightState::Waiting) && !map_shows(m, LightState::Working) && map_shows(
            m,
            LightState::Done,
        ),
    );
}

/// A hook activity is authoritative for its conversation: its entry keeps
/// the precedence of hook activities, so a rollout session or legacy record
/// of the same conversation cannot replace its state.
pub proof fn law_hook_activity_is_authoritative(
    legacy: Option<StatusSnapshot>,
    activities: Seq<ActivitySnapshot>,
    sessions: Seq<SessionSnapshot>,
    resets: ProviderResets,
    now: Timestamp,
    i: int,
)
    requires
        0 <= i < activities.len(),
        effective(
            activities[i].state,
            activities[i].updated_at,
            resets.at(activities[i].provider),
            now,
        ) != LightState::Idle,
    ensures
        ({
            let m = source_map(all_sources(legacy, activities, sessions, resets, now));
            let id = provider_name(activities[i].provider) + ":"@ + activities[i].activity_id@;
            &&& m.contains_key(id)
            &&& m[id].0 == 3
            &&& priority_of(m[id].1) >= priority_of(
                effective(
                    activities[i].state,
                    activities[i].updated_at,
                    resets.at(activities[i].provider),
                    now,
                ),
            )
        }),
{
    let all = all_sources(legacy, activities, sessions, resets, now);
    lemma_activity_source_index(legacy, activities, sessions, resets, now, i);
    lemma_top_source_kept(all, i);
}

/// With no activity, session or legacy record, no lamp is lit.
pub proof fn law_nothing_recorded_is_idle(resets: ProviderResets, now: Timestamp, d: DisplayState)
    requires
        shows_lamps(
            d,
            source_map(all_sources(None, Seq::empty(), Seq::empty(), resets, now)),
        ),
    ensures
        !d.red() && !d.yellow() && !d.green(),
{
    let all = all_sources(None, Seq::empty(), Seq::empty(), resets, now);
    assert(all =~= Seq::<Source>::empty());
    let m = source_map(all);
    assert(m =~= Map::<Seq<char>, (nat, LightState)>::empty());
    DisplayState::lemma_lamps(d, false, false, false);
}

/// A reset of one provider's application changes only the states that its
/// own records show: every source of another provider (and, for a reset of
/// Cursor, every rollout session and the legacy record, which are Codex's)
/// shows what it showed before.
pub proof fn law_reset_is_scoped_to_its_provider(
    legacy: Option<StatusSnapshot>,
    activities: Seq<ActivitySnapshot>,
    sessions: Seq<SessionSnapshot>,
    before: ProviderResets,
    after: ProviderResets,
    p: Provider,
    now: Timestamp,
    i: int,
)
    requires
        forall|q: Provider| q != p ==> after.at(q) == before.at(q),
        0 <= i < all_sources(legacy, activities, sessions, before, now).len(),
        i < activities.len() ==> activities[i].provider != p,
        i >= activities.len() ==> p != Provider::Codex,
    ensures
        all_sources(legacy, activities, sessions, after, now).len() == all_sources(
            legacy,
            activities,
            sessions,
            before,
            now,
        ).len(),
        all_sources(legacy, activities, sessions, after, now)[i] == all_sources(
            legacy,
            activities,
            sessions,
            before,
            now,
        )[i],
{
    let a1 = activities.map_values(|a: ActivitySnapshot| activity_source(a, after, now));
    let a0 = activities.map_values(|a: ActivitySnapshot| activity_source(a, before, now));
    let s1 = sessions.map_values(|x: SessionSnapshot| session_source(x, after.at(Provider::Codex), now));
    let s0 = sessions.map_values(|x: SessionSnapshot| session_source(x, before.at(Provider::Codex), now));
    let l1 = legacy_sources(legacy, after.at(Provider::Codex), now);
    let l0 = legacy_sources(legacy, before.at(Provider::Codex), now);
    assert(all_sources(legacy, activities, sessions, after, now) == a1 + s1 + l1);
    assert(all_sources(legacy, activities, sessions, before, now) == a0 + s0 + l0);
    if i < activities.len() {
        assert(after.at(activities[i].provider) == before.at(activities[i].provider));
        assert((a1 + s1 + l1)[i] == a1[i]);
        assert((a0 + s0 + l0)[i] == a0[i]);
    } else {
        assert(after.at(Provider::Codex) == before.at(Provider::Codex));
        assert(s1 =~= s0);
        assert(l1 == l0);
        if i < activities.len() + sessions.len() {
            assert((a1 + s1 + l1)[i] == s1[i - activities.len()]);
            assert((a0 + s0 + l0)[i] == s0[i - activities.len()]);
        } else {
            assert((a1 + s1 + l1)[i] == l1[i - activities.len() - sessions.len()]);
            assert((a0 + s0 + l0)[i] == l0[i - activities.len() - sessions.len()]);
        }
    }
}

/// Recording an idle source changes nothing, wherever it stands among the
/// sources.
proof fn lemma_idle_source_changes_nothing(p: Seq<Source>, x: Source, q: Seq<Source>)
    requires
        x.state == LightState::Idle,
    ensures
        source_map(p.push(x) + q) == source_map(p + q),
    decreases q.len(),
{
    if q.len() == 0 {
        assert(p.push(x) + q =~= p.push(x));
        assert(p + q =~= p);
        assert(p.push(x).drop_last() =~= p);
    } else {
        lemma_idle_source_changes_nothing(p, x, q.drop_last());
        assert((p.push(x) + q).drop_last() =~= p.push(x) + q.drop_last());
        assert((p + q).drop_last() =~= p + q.drop_last());
        assert((p.push(x) + q).last() == q.last());
        assert((p + q).last() == q.last());
    }
}

/// Two display states that show the lamps of the same conversation states
/// are the same.
proof fn lemma_same_map_same_lamps(
    d1: DisplayState,
    d2: DisplayState,
    m: Map<Seq<char>, (nat, LightState)>,
)
    requires
        shows_lamps(d1, m),
        shows_lamps(d2, m),
    ensures
        d1 == d2,
{
    DisplayState::lemma_bits_determine(d1, d2);
}

/// A hook activity that is still working or waiting but was recorded at or
/// before its provider's reset changes nothing: the lamps are those shown
/// without it, wherever it stands among the activities.
pub proof fn law_activity_before_reset_changes_nothing(
    legacy: Option<StatusSnapshot>,
    activities: Seq<ActivitySnapshot>,
    sessions: Seq<SessionSnapshot>,
    resets: ProviderResets,
    now: Timestamp,
    i: int,
    x: ActivitySnapshot,
    reset: Timestamp,
    with_x: DisplayState,
    without_x: DisplayState,
)
    requires
        0 <= i <= activities.len(),
        is_active(x.state),
        resets.at(x.provider) == Some(reset),
        x.updated_at.precedes_eq(reset),
        shows_lamps(
            with_x,
            source_map(all_sources(legacy, activities.insert(i, x), sessions, resets, now)),
        ),
        shows_lamps(
            without_x,
            source_map(all_sources(legacy, activities, sessions, resets, now)),
        ),
    ensures
        source_map(all_sources(legacy, activities.insert(i, x), sessions, resets, now)) == source_map(
            all_sources(legacy, activities, sessions, resets, now),
        ),
        with_x == without_x,
{
    let f = |a: ActivitySnapshot| activity_source(a, resets, now);
    let a0 = activities.map_values(f);
    let a1 = activities.insert(i, x).map_values(f);
    let rest = sessions.map_values(
        |y: SessionSnapshot| session_source(y, resets.at(Provider::Codex), now),
    ) + legacy_sources(legacy, resets.at(Provider::Codex), now);
    let src = activity_source(x, resets, now);
    assert(src.state == LightState::Idle);
    let p = a0.take(i);
    let q = a0.skip(i) + rest;
    assert(a1 =~= p.push(src) + a0.skip(i)) by {
        assert forall|j: int| 0 <= j < a1.len() implies a1[j] == (p.push(src) + a0.skip(i))[j] by {
            if j < i {
                assert(activities.insert(i, x)[j] == activities[j]);
            } else if j == i {
                assert(activities.insert(i, x)[j] == x);
            } else {
                assert(activities.insert(i, x)[j] == activities[j - 1]);
            }
        }
    }
    assert(all_sources(legacy, activities.insert(i, x), sessions, resets, now) =~= p.push(src) + q);
    assert(all_sources(legacy, activities, sessions, resets, now) =~= p + q);
    lemma_idle_source_changes_nothing(p, src, q);
    lemma_same_map_same_lamps(
        with_x,
        without_x,
        source_map(all_sources(legacy, activities, sessions, resets, now)),
    );
}

/// A legacy record at least `LEGACY_MAX_AGE_SECS` old is ignored: the lamps
/// are those shown without it.
pub proof fn law_old_legacy_record_is_ignored(
    l: StatusSnapshot,
    activities: Seq<ActivitySnapshot>,
    sessions: Seq<SessionSnapshot>,
    resets: ProviderResets,
    now: Timestamp,
    with_l: DisplayState,
    without_l: DisplayState,
)
    requires
        nanos_since(now, l.updated_at) >= LEGACY_MAX_AGE_SECS * NANOS_PER_SEC,
        shows_lamps(with_l, source_map(all_sources(Some(l), activities, sessions, resets, now))),
        shows_lamps(without_l, source_map(all_sources(None, activities, sessions, resets, now))),
    ensures
        all_sources(Some(l), activities, sessions, resets, now) == all_sources(
            None,
            activities,
            sessions,
            resets,
            now,
        ),
        with_l == without_l,
{
    assert(all_sources(Some(l), activities, sessions, resets, now) =~= all_sources(
        None,
        activities,
        sessions,
        resets,
        now,
    ));
    lemma_same_map_same_lamps(
        with_l,
        without_l,
        source_map(all_sources(None, activities, sessions, resets, now)),
    );
}

/// How one source is recorded: an idle source changes nothing; a source of
/// a conversation not yet recorded is recorded as it is; a recorded state of
/// higher precedence is kept; one of the same precedence gives way only to a
/// more urgent state; one of lower precedence is replaced. No other
/// conversation changes.
pub proof fn law_source_precedence(m: Map<Seq<char>, (nat, LightState)>, s: Source)
    ensures
        ({
            let r = insert_source_spec(m, s);
            &&& s.state == LightState::Idle ==> r == m
            &&& s.state != LightState::Idle && !m.contains_key(s.id) ==> r == m.insert(
                s.id,
                (s.precedence, s.state),
            )
            &&& s.state != LightState::Idle && m.contains_key(s.id) && m[s.id].0 > s.precedence
                ==> r == m
            &&& s.state != LightState::Idle && m.contains_key(s.id) && m[s.id].0 == s.precedence
                ==> r == m.insert(
                s.id,
                (
                    s.precedence,
                    if priority_of(s.state) > priority_of(m[s.id].1) {
                        s.state
                    } else {
                        m[s.id].1
                    },
                ),
            )
            &&& s.state != LightState::Idle && m.contains_key(s.id) && m[s.id].0 < s.precedence
                ==> r == m.insert(s.id, (s.precedence, s.state))
            &&& forall|k: Seq<char>| k != s.id ==> (#[trigger] r.contains_key(k) == m.contains_key(k)
                && (m.contains_key(k) ==> r[k] == m[k]))
        }),
{
    if s.state != LightState::Idle && m.contains_key(s.id) && m[s.id].0 == s.precedence
        && priority_of(s.state) <= priority_of(m[s.id].1) {
        assert(m.insert(s.id, (s.precedence, m[s.id].1)) =~= m);
    }
}

/// A touch or a state update that finds the stored activity refreshes its
/// lease: the snapshot it writes, which is also the one it reports, is dated
/// at the time of the action and records the action's event. It stays the
/// same conversation of the same provider; a touch keeps the state, an
/// update sets the given state. Without a stored activity nothing changes.
pub proof fn law_touch_refreshes_lease(a: HookAction, existing: Option<SnapshotView>, now: Timestamp)
    requires
        a is Touch || a is SetExisting,
    ensures
        ({
            let (op, reported) = hook_action_effect(a, existing, now);
            match existing {
                None => op == StoreOpView::Keep && reported is None,
                Some(e) => op matches StoreOpView::Write(w) && {
                    &&& reported == Some(w)
                    &&& w.updated_at == now
                    &&& w.provider == e.provider
                    &&& w.activity_id == e.activity_id
                    &&& w.conversation_id == e.conversation_id
                    &&& w.source == e.source
                    &&& (a matches HookAction::Touch { event, .. } ==> w.state == e.state
                        && w.event == event@)
                    &&& (a matches HookAction::SetExisting { state, event, .. } ==> w.state
                        == state && w.event == event@)
                },
            }
        }),
{
}

/// How long a record keeps its state: a working or waiting record counts
/// for 30 minutes after it was written unless its provider was reset at or
/// after that time, then it is idle; a done record shows for 3 seconds,
/// then it is idle; an idle record stays idle.
pub proof fn law_record_lifetimes(
    state: LightState,
    updated_at: Timestamp,
    reset: Option<Timestamp>,
    now: Timestamp,
)
    ensures
        ({
            let r = effective(state, updated_at, reset, now);
            let age = nanos_since(now, updated_at);
            let before_reset = reset matches Some(t) && updated_at.precedes_eq(t);
            &&& (state == LightState::Working || state == LightState::Waiting) ==> (r == (if before_reset
                || age >= 1800 * 1_000_000_000 {
                LightState::Idle
            } else {
                state
            }))
            &&& state == LightState::Done ==> r == (if age >= 3 * 1_000_000_000 {
                LightState::Idle
            } else {
                LightState::Done
            })
            &&& state == LightState::Idle ==> r == LightState::Idle
        }),
{
}

} // verus!
