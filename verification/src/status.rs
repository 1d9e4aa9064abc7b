//! Light states, the set of lamps shown at once, and the legacy status record.
use vstd::prelude::*;

use crate::text::copy_opt_string;
use crate::time::{now, nanos_between, nanos_since, Timestamp, NANOS_PER_SEC};

verus! {

/// How long a `done` state stays green before it collapses to idle (seconds).
pub const DONE_IDLE_AFTER_SECS: i128 = 3;

/// The state of one conversation, from least to most urgent.
#[derive(Debug, Clone, Copy, PartialEq, Eq, Hash, Structural)]
pub enum LightState {
    Idle,
    Done,
    Working,
    Waiting,
}

/// The rank of a state: idle 0, done 1, working 2, waiting 3.
pub open spec fn priority_of(state: LightState) -> nat {
    match state {
        LightState::Idle => 0,
        LightState::Done => 1,
        LightState::Working => 2,
        LightState::Waiting => 3,
    }
}

/// The lower-case name of a state.
pub open spec fn state_name(state: LightState) -> Seq<char> {
    match state {
        LightState::Idle => "idle"@,
        LightState::Done => "done"@,
        LightState::Working => "working"@,
        LightState::Waiting => "waiting"@,
    }
}

impl LightState {
    /// The lower-case name of the state.
    pub fn as_str(self) -> (r: &'static str)
        ensures
            r@ == state_name(self),
    {
        match self {
            LightState::Idle => "idle",
            LightState::Working => "working",
            LightState::Waiting => "waiting",
            LightState::Done => "done",
        }
    }

    /// The rank of the state; a higher rank is more urgent.
    pub fn priority(self) -> (r: u8)
        ensures
            r == priority_of(self),
    {
        match self {
            LightState::Idle => 0,
            LightState::Done => 1,
            LightState::Working => 2,
            LightState::Waiting => 3,
        }
    }
}

/// The lamps that should be visible at the same time, as a bit set:
/// red 1, yellow 2, green 4.
///
/// Conversation state remains a single `LightState`, but the window may need to
/// show both waiting and working when different conversations are in those
/// states. Green is exclusive: completed work is only surfaced when there are
/// no active conversations.
#[derive(Debug, Clone, Copy, PartialEq, Eq, Default, Structural)]
pub struct DisplayState(u8);

impl DisplayState {
    /// No lamp lit.
    pub fn idle() -> (r: DisplayState)
        ensures
            r.has_lamps(false, false, false),
    {
        DisplayState(0)
    }

    /// Only the green lamp.
    pub fn done() -> (r: DisplayState)
        ensures
            r.has_lamps(false, false, true),
    {
        DisplayState(4)
    }

    /// Only the yellow lamp.
    pub fn working() -> (r: DisplayState)
        ensures
            r.has_lamps(false, true, false),
    {
        DisplayState(2)
    }

    /// Only the red lamp.
    pub fn waiting() -> (r: DisplayState)
        ensures
            r.has_lamps(true, false, false),
    {
        DisplayState(1)
    }

    /// The red and yellow lamps together.
    pub fn waiting_and_working() -> (r: DisplayState)
        ensures
            r.has_lamps(true, true, false),
    {
        DisplayState(3)
    }

    /// The bit set.
    pub closed spec fn bits(self) -> u8 {
        self.0
    }

    /// Whether the red (waiting) lamp is lit.
    pub open spec fn red(self) -> bool {
        self.bits() & 1 != 0
    }

    /// Whether the yellow (working) lamp is lit.
    pub open spec fn yellow(self) -> bool {
        self.bits() & 2 != 0
    }

    /// Whether the green (done) lamp is lit.
    pub open spec fn green(self) -> bool {
        self.bits() & 4 != 0
    }

    /// Only the three lamp bits may be set.
    pub open spec fn wf(self) -> bool {
        self.bits() < 8
    }

    /// The value whose lamps are exactly the given ones.
    pub open spec fn has_lamps(self, red: bool, yellow: bool, green: bool) -> bool {
        self.bits() == (if red {
            1u8
        } else {
            0u8
        }) + (if yellow {
            2u8
        } else {
            0u8
        }) + (if green {
            4u8
        } else {
            0u8
        })
    }

    /// Two values with the same bits are the same value.
    pub proof fn lemma_bits_determine(a: DisplayState, b: DisplayState)
        requires
            a.bits() == b.bits(),
        ensures
            a == b,
    {
    }

    /// The lamps read from the bits agree with `has_lamps`.
    pub proof fn lemma_lamps(d: DisplayState, red: bool, yellow: bool, green: bool)
        requires
            d.has_lamps(red, yellow, green),
        ensures
            d.wf(),
            d.red() == red,
            d.yellow() == yellow,
            d.green() == green,
    {
        let b = d.bits();
        assert(b == 0 || b == 1 || b == 2 || b == 3 || b == 4 || b == 5 || b == 6 || b == 7);
        assert(b == 0 ==> (b & 1 == 0 && b & 2 == 0 && b & 4 == 0)) by (bit_vector);
        assert(b == 1 ==> (b & 1 != 0 && b & 2 == 0 && b & 4 == 0)) by (bit_vector);
        assert(b == 2 ==> (b & 1 == 0 && b & 2 != 0 && b & 4 == 0)) by (bit_vector);
        assert(b == 3 ==> (b & 1 != 0 && b & 2 != 0 && b & 4 == 0)) by (bit_vector);
        assert(b == 4 ==> (b & 1 == 0 && b & 2 == 0 && b & 4 != 0)) by (bit_vector);
        assert(b == 5 ==> (b & 1 != 0 && b & 2 == 0 && b & 4 != 0)) by (bit_vector);
        assert(b == 6 ==> (b & 1 == 0 && b & 2 != 0 && b & 4 != 0)) by (bit_vector);
        assert(b == 7 ==> (b & 1 != 0 && b & 2 != 0 && b & 4 != 0)) by (bit_vector);
    }

    /// A well-formed value is described by its three lamps.
    pub proof fn lemma_wf_has_lamps(d: DisplayState)
        requires
            d.wf(),
        ensures
            d.has_lamps(d.red(), d.yellow(), d.green()),
    {
        let b = d.bits();
        assert(b < 8 ==> b == (if b & 1 != 0 {
            1u8
        } else {
            0u8
        }) + (if b & 2 != 0 {
            2u8
        } else {
            0u8
        }) + (if b & 4 != 0 {
            4u8
        } else {
            0u8
        })) by (bit_vector);
    }

    /// The lamps for a set of conversation states: red when any conversation
    /// waits, yellow when any works, and green only when none waits or works
    /// and at least one is done.
    pub fn from_states(states: &[LightState]) -> (r: DisplayState)
        ensures
            r.has_lamps(
                states@.contains(LightState::Waiting),
                states@.contains(LightState::Working),
                !states@.contains(LightState::Waiting) && !states@.contains(LightState::Working)
                    && states@.contains(LightState::Done),
            ),
    {
        let mut waiting = false;
        let mut working = false;
        let mut done = false;
        let mut i: usize = 0;
        while i < states.len()
            invariant
                i <= states@.len(),
                waiting == states@.take(i as int).contains(LightState::Waiting),
                working == states@.take(i as int).contains(LightState::Working),
                done == states@.take(i as int).contains(LightState::Done),
            decreases states.len() - i,
        {
            let s = states[i];
            proof {
                let t = states@.take(i as int);
                let t1 = states@.take(i + 1);
                assert(t1 =~= t.push(s));
                assert forall|x: LightState| t1.contains(x) <==> (t.contains(x) || x == s) by {
                    if t1.contains(x) {
                        let k = choose|k: int| 0 <= k < t1.len() && t1[k] == x;
                        if k < t.len() {
                            assert(t[k] == x);
                        }
                    }
                    if t.contains(x) {
                        let k = choose|k: int| 0 <= k < t.len() && t[k] == x;
                        assert(t1[k] == x);
                    }
                    if x == s {
                        assert(t1[i as int] == x);
                    }
                }
            }
            waiting = waiting || s == LightState::Waiting;
            working = working || s == LightState::Working;
            done = done || s == LightState::Done;
            i = i + 1;
        }
        proof {
            assert(states@.take(i as int) =~= states@);
        }
        let bits: u8 = if waiting || working {
            (if waiting {
                1u8
            } else {
                0u8
            }) + (if working {
                2u8
            } else {
                0u8
            })
        } else if done {
            4u8
        } else {
            0u8
        };
        DisplayState(bits)
    }

    /// Whether the red lamp is lit.
    pub fn red_active(self) -> (r: bool)
        ensures
            r == self.red(),
    {
        self.0 & 1 != 0
    }

    /// Whether the yellow lamp is lit.
    pub fn yellow_active(self) -> (r: bool)
        ensures
            r == self.yellow(),
    {
        self.0 & 2 != 0
    }

    /// Whether the green lamp is lit.
    pub fn green_active(self) -> (r: bool)
        ensures
            r == self.green(),
    {
        self.0 & 4 != 0
    }

    /// Whether no lamp is lit.
    pub fn is_idle(self) -> (r: bool)
        ensures
            r == (self.bits() == 0),
            self.wf() ==> (r == (!self.red() && !self.yellow() && !self.green())),
    {
        proof {
            let b = self.bits();
            assert(b < 8 ==> ((b == 0) == (b & 1 == 0 && b & 2 == 0 && b & 4 == 0))) by (bit_vector);
        }
        self.0 == 0
    }

    /// The bit set as a byte.
    pub fn as_u8(self) -> (r: u8)
        ensures
            r == self.bits(),
    {
        self.0
    }

    /// The value whose bits are the lamp bits of `value` (others dropped).
    pub fn from_u8(value: u8) -> (r: DisplayState)
        ensures
            r.bits() == value & 7,
            r.wf(),
    {
        proof {
            assert(value & 7 < 8) by (bit_vector);
        }
        DisplayState(value & 7)
    }

    /// The Chinese label shown in menus and tool tips.
    pub fn label_zh(self) -> (r: &'static str)
        ensures
            r@ == display_label(self.bits()),
    {
        match self.0 {
            1 => "等待确认",
            2 => "工作中",
            4 => "已完成",
            3 => "等待确认 + 工作中",
            _ => "空闲",
        }
    }
}

/// The label for a lamp bit set: one label per combination that can be shown,
/// "idle" for any other.
pub open spec fn display_label(bits: u8) -> Seq<char> {
    if bits == 1 {
        "等待确认"@
    } else if bits == 2 {
        "工作中"@
    } else if bits == 4 {
        "已完成"@
    } else if bits == 3 {
        "等待确认 + 工作中"@
    } else {
        "空闲"@
    }
}

/// Storing a display state as a byte and reading it back gives it back:
/// the state read from `as_u8(d)` by `from_u8` is `d`.
pub proof fn law_display_state_byte_roundtrip(d: DisplayState, read: DisplayState)
    requires
        d.wf(),
        read.bits() == d.bits() & 7,
    ensures
        read == d,
{
    let b = d.bits();
    assert(b < 8 ==> b & 7 == b) by (bit_vector);
    DisplayState::lemma_bits_determine(read, d);
}

/// A display state never shows green together with red or yellow.
pub proof fn law_green_is_exclusive(states: Seq<LightState>, d: DisplayState)
    requires
        d.has_lamps(
            states.contains(LightState::Waiting),
            states.contains(LightState::Working),
            !states.contains(LightState::Waiting) && !states.contains(LightState::Working)
                && states.contains(LightState::Done),
        ),
    ensures
        d.green() ==> !d.red() && !d.yellow(),
        d.wf(),
{
    DisplayState::lemma_lamps(
        d,
        states.contains(LightState::Waiting),
        states.contains(LightState::Working),
        !states.contains(LightState::Waiting) && !states.contains(LightState::Working)
            && states.contains(LightState::Done),
    );
}

/// The most urgent state of a sequence (`Idle` for none).
pub open spec fn max_state(states: Seq<LightState>) -> LightState
    decreases states.len(),
{
    if states.len() == 0 {
        LightState::Idle
    } else {
        let rest = max_state(states.drop_last());
        if priority_of(states.last()) >= priority_of(rest) {
            states.last()
        } else {
            rest
        }
    }
}

/// The most urgent state is at least as urgent as every state of the sequence,
/// and is one of them unless the sequence is empty.
pub proof fn lemma_max_state(states: Seq<LightState>)
    ensures
        forall|i: int| 0 <= i < states.len() ==> priority_of(#[trigger] states[i]) <= priority_of(
            max_state(states),
        ),
        states.len() > 0 ==> states.contains(max_state(states)),
        states.len() == 0 ==> max_state(states) == LightState::Idle,
    decreases states.len(),
{
    if states.len() > 0 {
        let d = states.drop_last();
        lemma_max_state(d);
        assert forall|i: int| 0 <= i < states.len() implies priority_of(#[trigger] states[i])
            <= priority_of(max_state(states)) by {
            if i < states.len() - 1 {
                assert(states[i] == d[i]);
            }
        }
        if priority_of(states.last()) >= priority_of(max_state(d)) {
            assert(states[states.len() - 1] == states.last());
        } else {
            let k = choose|k: int| 0 <= k < d.len() && d[k] == max_state(d);
            assert(states[k] == d[k]);
        }
    }
}

/// The most urgent of the given states; `Idle` when there are none.
pub fn aggregate_states(states: &[LightState]) -> (r: LightState)
    ensures
        r == max_state(states@),
        forall|i: int| 0 <= i < states@.len() ==> priority_of(#[trigger] states@[i])
            <= priority_of(r),
        states@.len() > 0 ==> states@.contains(r),
        states@.len() == 0 ==> r == LightState::Idle,
{
    let mut best = LightState::Idle;
    let mut i: usize = 0;
    while i < states.len()
        invariant
            i <= states@.len(),
            best == max_state(states@.take(i as int)),
        decreases states.len() - i,
    {
        proof {
            assert(states@.take(i + 1).drop_last() =~= states@.take(i as int));
        }
        if states[i].priority() >= best.priority() {
            best = states[i];
        }
        i = i + 1;
    }
    proof {
        assert(states@.take(i as int) =~= states@);
        lemma_max_state(states@);
    }
    best
}

/// The `done`-to-idle collapse at time `now`: a `done` state recorded at
/// `since` becomes idle once at least `DONE_IDLE_AFTER_SECS` have passed;
/// every other state is unchanged.
pub open spec fn done_timeout(state: LightState, since: Option<Timestamp>, now: Timestamp) -> LightState {
    if state != LightState::Done {
        state
    } else {
        match since {
            Some(ts) => if nanos_since(now, ts) >= DONE_IDLE_AFTER_SECS * NANOS_PER_SEC {
                LightState::Idle
            } else {
                LightState::Done
            },
            None => LightState::Done,
        }
    }
}

/// `done_timeout` evaluated at the given time.
pub fn apply_done_timeout_at(state: LightState, since: Option<Timestamp>, now: Timestamp) -> (r:
    LightState)
    ensures
        r == done_timeout(state, since, now),
{
    if state != LightState::Done {
        return state;
    }
    match since {
        Some(ts) => {
            if nanos_between(&ts, &now) >= DONE_IDLE_AFTER_SECS * NANOS_PER_SEC {
                LightState::Idle
            } else {
                LightState::Done
            }
        },
        None => LightState::Done,
    }
}

/// If the state is `done` and has been for long enough, collapse it to `idle`
/// so the light does not stay green forever. Reads the clock.
pub fn apply_done_timeout(state: LightState, since: Option<Timestamp>) -> (r: LightState)
    ensures
        exists|t: Timestamp| r == done_timeout(state, since, t),
        state != LightState::Done ==> r == state,
{
    let t = now();
    apply_done_timeout_at(state, since, t)
}

/// The legacy single-conversation status record.
#[derive(Debug)]
pub struct StatusSnapshot {
    pub state: LightState,
    pub updated_at: Timestamp,
    pub source: String,
    pub event: Option<String>,
    pub session_id: Option<String>,
}

impl StatusSnapshot {
    /// A record stamped with the given time.
    pub fn new_at(
        state: LightState,
        source: &str,
        event: Option<String>,
        session_id: Option<String>,
        now: Timestamp,
    ) -> (r: StatusSnapshot)
        ensures
            r.state == state,
            r.updated_at == now,
            r.source@ == source@,
            r.event == event,
            r.session_id == session_id,
    {
        StatusSnapshot { state, updated_at: now, source: source.to_string(), event, session_id }
    }

    /// A record stamped with the current time.
    pub fn new(state: LightState, source: &str, event: Option<String>, session_id: Option<String>) -> (r:
        StatusSnapshot)
        ensures
            r.state == state,
            r.source@ == source@,
            r.event == event,
            r.session_id == session_id,
    {
        let t = now();
        StatusSnapshot::new_at(state, source, event, session_id, t)
    }

    /// Nanoseconds since the record was written, at time `now`.
    pub fn age_at(&self, now: Timestamp) -> (r: i128)
        ensures
            r == nanos_since(now, self.updated_at),
    {
        nanos_between(&self.updated_at, &now)
    }

    /// Nanoseconds since the record was written. Reads the clock.
    pub fn age(&self) -> (r: i128)
        ensures
            exists|t: Timestamp| r == #[trigger] nanos_since(t, self.updated_at),
    {
        let t = now();
        self.age_at(t)
    }

    /// A copy of the record.
    pub fn copy(&self) -> (r: StatusSnapshot)
        ensures
            r.state == self.state,
            r.updated_at == self.updated_at,
            r.source@ == self.source@,
            r.event.deep_view() == self.event.deep_view(),
            r.session_id.deep_view() == self.session_id.deep_view(),
    {
        StatusSnapshot {
            state: self.state,
            updated_at: self.updated_at,
            source: self.source.clone(),
            event: copy_opt_string(&self.event),
            session_id: copy_opt_string(&self.session_id),
        }
    }
}

} // verus!
