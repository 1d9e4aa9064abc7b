//! What the status window decides: its size at a display's DPI, which lamps
//! pulse and how, when it refreshes and redraws, which provider an
//! application belongs to, and the UTF-16 text it hands to Windows.
use vstd::prelude::*;

use crate::providers::{process_names, strs_view, Provider};
use crate::status::{display_label, DisplayState};

verus! {

/// The window's width at 96 DPI.
pub const LOGICAL_WIDTH: i32 = 128;

/// The window's height at 96 DPI.
pub const LOGICAL_HEIGHT: i32 = 38;

/// `value * dpi / 96`, rounded half up for non-negative products and
/// truncated toward zero as Rust's integer division does.
pub open spec fn scaled(value: int, dpi: int) -> int {
    let p = value * dpi + 48;
    if p >= 0 {
        p / 96
    } else {
        -((-p) / 96)
    }
}

/// A length at 96 DPI converted to a display's DPI, as the `i32` that the
/// 64-bit result is cast to.
pub fn scale(value: i32, dpi: u32) -> (r: i32)
    ensures
        r == scaled(value as int, dpi as int) as i32,
        i32::MIN <= scaled(value as int, dpi as int) <= i32::MAX ==> r == scaled(value as int, dpi as int),
{
    assert(-0x8000_0000 * 0xffff_ffff <= value * dpi <= 0x7fff_ffff * 0xffff_ffff) by (nonlinear_arith)
        requires
            -0x8000_0000 <= value <= 0x7fff_ffff,
            0 <= dpi <= 0xffff_ffff,
    ;
    let p: i64 = (value as i64) * (dpi as i64) + 48;
    let q: i64 = if p >= 0 {
        p / 96
    } else {
        -((-p) / 96)
    };
    q as i32
}

/// The window's size at a display's DPI.
pub fn scaled_size(dpi: u32) -> (r: (i32, i32))
    ensures
        r.0 == scaled(LOGICAL_WIDTH as int, dpi as int) as i32,
        r.1 == scaled(LOGICAL_HEIGHT as int, dpi as int) as i32,
{
    (scale(LOGICAL_WIDTH, dpi), scale(LOGICAL_HEIGHT, dpi))
}

/// At 96 DPI every non-negative length keeps its logical size.
pub proof fn law_scale_at_96_dpi_keeps_lengths(value: int)
    requires
        value >= 0,
    ensures
        scaled(value, 96) == value,
{
    assert((value * 96 + 48) / 96 == value) by (nonlinear_arith)
        requires
            value >= 0,
    ;
}

/// A colour of the Windows renderer.
#[derive(Debug, Clone, Copy, PartialEq, Eq, Structural)]
pub struct Rgb {
    pub red: u8,
    pub green: u8,
    pub blue: u8,
}

/// A colour from its three channels.
pub fn rgb(red: u8, green: u8, blue: u8) -> (r: Rgb)
    ensures
        r == (Rgb { red, green, blue }),
{
    Rgb { red, green, blue }
}

/// Whether one of a provider's Windows processes is running, given the
/// lower-case names of the running processes.
pub fn provider_is_running(provider: Provider, processes: &Vec<String>) -> (r: bool)
    ensures
        r == exists|i: int, j: int|
            0 <= i < process_names(provider).len() && 0 <= j < processes@.len() && #[trigger] processes@[j]@
                == #[trigger] process_names(provider)[i],
{
    let names = provider.windows_process_names();
    let ghost nv = strs_view(names@);
    let mut i: usize = 0;
    while i < names.len()
        invariant
            i <= names@.len(),
            nv == strs_view(names@),
            nv == process_names(provider),
            forall|a: int, j: int|
                0 <= a < i && 0 <= j < processes@.len() ==> #[trigger] processes@[j]@ != #[trigger] nv[a],
        decreases names.len() - i,
    {
        let mut j: usize = 0;
        while j < processes.len()
            invariant
                i < names@.len(),
                j <= processes@.len(),
                nv == strs_view(names@),
                nv == process_names(provider),
                forall|a: int, b: int|
                    0 <= a < i && 0 <= b < processes@.len() ==> #[trigger] processes@[b]@ != #[trigger] nv[a],
                forall|b: int| 0 <= b < j ==> #[trigger] processes@[b]@ != nv[i as int],
            decreases processes.len() - j,
        {
            if crate::text::str_equal(processes[j].as_str(), names[i]) {
                assert(processes@[j as int]@ == process_names(provider)[i as int]);
                return true;
            }
            j = j + 1;
        }
        i = i + 1;
    }
    false
}

/// The provider whose macOS application has the bundle identifier.
pub fn provider_for_bundle_id(bundle_id: &str) -> (r: Option<Provider>)
    ensures
        r == (if bundle_id@ == "com.openai.codex"@ {
            Some(Provider::Codex)
        } else if bundle_id@ == "com.todesktop.230313mzl4w4u92"@ {
            Some(Provider::Cursor)
        } else {
            None::<Provider>
        }),
{
    if crate::text::str_equal(bundle_id, "com.openai.codex") {
        Some(Provider::Codex)
    } else if crate::text::str_equal(bundle_id, "com.todesktop.230313mzl4w4u92") {
        Some(Provider::Cursor)
    } else {
        None
    }
}

// ------------------------------------------------------------------ lamps

/// How a lamp moves.
#[derive(Debug, Clone, Copy, PartialEq, Eq, Structural)]
pub enum Motion {
    /// Lit or dark, without animation.
    Still,
    /// A quick pulse, for attention.
    FastPulse,
    /// A slow breathing pulse, for work in progress.
    SlowPulse,
    /// One pop when it lights up.
    Pop,
}

/// How the three lamps move.
#[derive(Debug, Clone, Copy, PartialEq, Eq, Structural)]
pub struct LampMotion {
    pub red: Motion,
    pub yellow: Motion,
    pub green: Motion,
}

/// How the lamps of a display state move: a lit red lamp pulses quickly; a
/// lit yellow lamp breathes slowly, or pulses quickly in step with the red
/// lamp when both are lit, so that they read as one alert; a lit green lamp
/// pops. Dark lamps, and all lamps when motion is reduced, stay still.
pub fn lamp_motion(state: DisplayState, reduce_motion: bool) -> (r: LampMotion)
    ensures
        r.red == (if state.red() && !reduce_motion {
            Motion::FastPulse
        } else {
            Motion::Still
        }),
        r.yellow == (if state.yellow() && !reduce_motion {
            if state.red() {
                Motion::FastPulse
            } else {
                Motion::SlowPulse
            }
        } else {
            Motion::Still
        }),
        r.green == (if state.green() && !reduce_motion {
            Motion::Pop
        } else {
            Motion::Still
        }),
{
    let red = state.red_active();
    let yellow = state.yellow_active();
    let green = state.green_active();
    if reduce_motion {
        return LampMotion { red: Motion::Still, yellow: Motion::Still, green: Motion::Still };
    }
    LampMotion {
        red: if red {
            Motion::FastPulse
        } else {
            Motion::Still
        },
        yellow: if yellow {
            if red {
                Motion::FastPulse
            } else {
                Motion::SlowPulse
            }
        } else {
            Motion::Still
        },
        green: if green {
            Motion::Pop
        } else {
            Motion::Still
        },
    }
}

/// When the red and yellow lamps are both lit they pulse the same way: a
/// waiting conversation beside another active one is one alert.
pub proof fn law_red_and_yellow_pulse_together(state: DisplayState, reduce_motion: bool, m: LampMotion)
    requires
        state.red(),
        state.yellow(),
        m.red == (if state.red() && !reduce_motion {
            Motion::FastPulse
        } else {
            Motion::Still
        }),
        m.yellow == (if state.yellow() && !reduce_motion {
            if state.red() {
                Motion::FastPulse
            } else {
                Motion::SlowPulse
            }
        } else {
            Motion::Still
        }),
    ensures
        m.red == m.yellow,
{
}

// ------------------------------------------------------------ menu texts

/// The menu-bar title for a lamp bit set: one emoji per lit lamp, a white
/// circle when none is lit or for a combination that is never shown.
pub open spec fn menu_bar_emoji(bits: u8) -> Seq<char> {
    if bits == 0 {
        "⚪"@
    } else if bits == 2 {
        "🟡"@
    } else if bits == 1 {
        "🔴"@
    } else if bits == 3 {
        "🔴🟡"@
    } else if bits == 4 {
        "🟢"@
    } else {
        "⚪"@
    }
}

/// The macOS menu-bar title of a display state.
pub fn menu_bar_title(state: DisplayState) -> (r: &'static str)
    ensures
        r@ == menu_bar_emoji(state.bits()),
{
    let b = state.as_u8();
    if b == 0 {
        "⚪"
    } else if b == 2 {
        "🟡"
    } else if b == 1 {
        "🔴"
    } else if b == 3 {
        "🔴🟡"
    } else if b == 4 {
        "🟢"
    } else {
        "⚪"
    }
}

/// The status line at the top of the menus: `状态：` and the state's label.
pub fn status_menu_title(state: DisplayState) -> (r: String)
    ensures
        r@ == "状态："@ + display_label(state.bits()),
{
    let mut r = "状态：".to_string();
    r.push_str(state.label_zh());
    r
}

/// The Windows tray tool tip: `Harbor Light：` and the state's label.
pub fn tray_tip(state: DisplayState) -> (r: String)
    ensures
        r@ == "Harbor Light："@ + display_label(state.bits()),
{
    let mut r = "Harbor Light：".to_string();
    r.push_str(state.label_zh());
    r
}

// ------------------------------------------------------- window placement

/// The distance, in pixels, between the window and the work area's edges.
pub const EDGE_MARGIN: i32 = 24;

/// A window position on the Windows desktop.
#[derive(Debug, Clone, Copy, PartialEq, Eq, Structural)]
pub struct SavedPosition {
    pub x: i32,
    pub y: i32,
}

/// A rectangle on the Windows desktop.
#[derive(Debug, Clone, Copy, PartialEq, Eq, Structural)]
pub struct Rect {
    pub left: i32,
    pub top: i32,
    pub right: i32,
    pub bottom: i32,
}

/// Where the Windows window goes by default: near the top right corner of
/// the work area, or at (200, 80) when the work area is unknown.
pub fn default_position(work_area: Option<Rect>, width: i32) -> (r: SavedPosition)
    requires
        work_area matches Some(w) ==> i32::MIN <= w.right - width <= i32::MAX && i32::MIN <= w.right
            - width - EDGE_MARGIN <= i32::MAX && w.top + EDGE_MARGIN <= i32::MAX,
    ensures
        r == (match work_area {
            Some(w) => SavedPosition {
                x: (w.right - width - EDGE_MARGIN) as i32,
                y: (w.top + EDGE_MARGIN) as i32,
            },
            None => SavedPosition { x: 200, y: 80 },
        }),
{
    match work_area {
        Some(w) => SavedPosition { x: w.right - width - EDGE_MARGIN, y: w.top + EDGE_MARGIN },
        None => SavedPosition { x: 200, y: 80 },
    }
}

/// Half of an integer, rounded toward zero as Rust's integer division does.
pub open spec fn half(v: int) -> int {
    if v >= 0 {
        v / 2
    } else {
        -((-v) / 2)
    }
}

/// Half of an `i32`, rounded toward zero.
fn half_i64(v: i64) -> (r: i64)
    requires
        -0x1_0000_0000 <= v <= 0x1_0000_0000,
    ensures
        r == half(v as int),
{
    if v >= 0 {
        v / 2
    } else {
        -((-v) / 2)
    }
}

/// The centre of a window at a saved position, the point that must lie on a
/// monitor for the position to be kept.
pub fn position_center(position: SavedPosition, width: i32, height: i32) -> (r: (i32, i32))
    requires
        i32::MIN <= position.x + half(width as int) <= i32::MAX,
        i32::MIN <= position.y + half(height as int) <= i32::MAX,
    ensures
        r.0 == position.x + half(width as int),
        r.1 == position.y + half(height as int),
{
    let x = position.x as i64 + half_i64(width as i64);
    let y = position.y as i64 + half_i64(height as i64);
    (x as i32, y as i32)
}

/// The centre of a window rectangle.
pub fn rect_center(rect: Rect) -> (r: (i32, i32))
    requires
        i32::MIN <= rect.left + rect.right <= i32::MAX,
        i32::MIN <= rect.top + rect.bottom <= i32::MAX,
    ensures
        r.0 == half(rect.left + rect.right),
        r.1 == half(rect.top + rect.bottom),
{
    let x = half_i64(rect.left as i64 + rect.right as i64);
    let y = half_i64(rect.top as i64 + rect.bottom as i64);
    (x as i32, y as i32)
}

// ------------------------------------------------------------- refreshing

/// The number of polling ticks after which the macOS app rescans although
/// no file changed.
pub const POLL_TICKS: u8 = 14;

/// The macOS polling counter after one timer tick, and whether that tick
/// forces a full refresh.
pub fn poll_tick(ticks: u8) -> (r: (u8, bool))
    ensures
        r.0 == (ticks as int + 1) % (POLL_TICKS as int),
        r.1 == (r.0 == 0),
{
    let next: u8 = ((ticks as u16 + 1) % (POLL_TICKS as u16)) as u8;
    (next, next == 0)
}

/// Whether the macOS app reads the state again: when a file changed, when
/// the refresh is forced, or while the green lamp or no lamp shows, since
/// those change with time alone (a finished conversation fades to idle).
pub fn should_reevaluate(dirty: bool, force: bool, displayed: DisplayState) -> (r: bool)
    ensures
        r == (dirty || force || displayed.green() || displayed.bits() == 0),
{
    if !dirty && !force {
        if !displayed.green_active() && !displayed.is_idle() {
            return false;
        }
    }
    true
}

/// Whether the macOS app redraws: when the state changed or a file changed.
pub fn should_redraw(next: DisplayState, previous: DisplayState, dirty: bool) -> (r: bool)
    ensures
        r == (next != previous || dirty),
{
    let same = next.as_u8() == previous.as_u8();
    proof {
        if same {
            DisplayState::lemma_bits_determine(next, previous);
        }
    }
    !(same && !dirty)
}

/// What the Windows window does on a timer tick.
#[derive(Debug, Clone, Copy, PartialEq, Eq, Structural)]
pub enum TimerAction {
    /// Read the state, keep the window on screen, and draw.
    Refresh,
    /// Draw the next animation frame.
    Redraw,
    /// Nothing.
    Wait,
}

/// The number of timer ticks between two state reads on Windows.
pub const REFRESH_TICKS: u32 = 20;

/// The Windows timer counter after one tick, and what the window does: it
/// reads the state every `REFRESH_TICKS` ticks and otherwise draws the next
/// frame while a lamp is lit.
pub fn timer_tick(tick: u32, displayed: DisplayState) -> (r: (u32, TimerAction))
    ensures
        r.0 == (if tick == u32::MAX {
            0
        } else {
            tick + 1
        }),
        r.1 == (if r.0 % REFRESH_TICKS == 0 {
            TimerAction::Refresh
        } else if displayed.bits() != 0 {
            TimerAction::Redraw
        } else {
            TimerAction::Wait
        }),
{
    let next = tick.wrapping_add(1);
    let action = if next % REFRESH_TICKS == 0 {
        TimerAction::Refresh
    } else if !displayed.is_idle() {
        TimerAction::Redraw
    } else {
        TimerAction::Wait
    };
    (next, action)
}

/// Whether a provider's application stopped between two process scans, so
/// that its activities are cleared.
pub fn provider_stopped(was_running: bool, running: bool) -> (r: bool)
    ensures
        r == (was_running && !running),
{
    was_running && !running
}

// ------------------------------------------------------------------ UTF-16

/// The UTF-16 code units of a character.
pub open spec fn utf16_of(c: char) -> Seq<u16> {
    let v = c as u32 as int;
    if v < 0x10000 {
        seq![v as u16]
    } else {
        let u = v - 0x10000;
        seq![(0xD800 + u / 0x400) as u16, (0xDC00 + u % 0x400) as u16]
    }
}

/// The UTF-16 code units of a string.
pub open spec fn utf16(s: Seq<char>) -> Seq<u16>
    decreases s.len(),
{
    if s.len() == 0 {
        Seq::empty()
    } else {
        utf16(s.drop_last()) + utf16_of(s.last())
    }
}

/// The UTF-16 code units of a character.
fn encode_char(c: char) -> (r: Vec<u16>)
    ensures
        r@ == utf16_of(c),
{
    let v: u32 = c as u32;
    let mut r: Vec<u16> = Vec::new();
    if v < 0x10000 {
        r.push(v as u16);
    } else {
        let u = v - 0x10000;
        r.push((0xD800 + u / 0x400) as u16);
        r.push((0xDC00 + u % 0x400) as u16);
    }
    assert(r@ =~= utf16_of(c));
    r
}

/// The UTF-16 code units of a string.
pub fn utf16_units(text: &str) -> (r: Vec<u16>)
    ensures
        r@ == utf16(text@),
{
    let mut r: Vec<u16> = Vec::new();
    let mut k: usize = 0;
    let chars = crate::text::chars_of(text);
    while k < chars.len()
        invariant
            k <= chars@.len(),
            chars@ == text@,
            r@ == utf16(chars@.take(k as int)),
        decreases chars.len() - k,
    {
        let units = encode_char(chars[k]);
        let mut j: usize = 0;
        let ghost before = r@;
        while j < units.len()
            invariant
                j <= units@.len(),
                r@ == before + units@.take(j as int),
            decreases units.len() - j,
        {
            r.push(units[j]);
            j = j + 1;
            assert(r@ =~= before + units@.take(j as int));
        }
        proof {
            assert(chars@.take(k + 1).drop_last() =~= chars@.take(k as int));
            assert(units@.take(j as int) =~= units@);
        }
        k = k + 1;
    }
    assert(chars@.take(k as int) =~= chars@);
    r
}

/// A NUL-terminated UTF-16 string for the Windows API.
pub fn wide(text: &str) -> (r: Vec<u16>)
    ensures
        r@ == utf16(text@).push(0),
{
    let mut r = utf16_units(text);
    r.push(0);
    r
}

/// A fixed-size UTF-16 buffer for the Windows API holding as much of the
/// text as fits before a terminating NUL, then zeros.
pub fn copy_wide<const N: usize>(target: &mut [u16; N], text: &str)
    ensures
        final(target)@.len() == N,
        forall|i: int|
            0 <= i < N ==> #[trigger] final(target)@[i] == (if i < N - 1 && i < utf16(text@).len() {
                utf16(text@)[i]
            } else {
                0u16
            }),
{
    let units = utf16_units(text);
    let mut i: usize = 0;
    while i < N
        invariant
            i <= N,
            target@.len() == N,
            units@ == utf16(text@),
            forall|x: int|
                0 <= x < i ==> #[trigger] target@[x] == (if x < N - 1 && x < units@.len() {
                    units@[x]
                } else {
                    0u16
                }),
        decreases N - i,
    {
        let v: u16 = if i + 1 < N && i < units.len() {
            units[i]
        } else {
            0
        };
        target[i] = v;
        i = i + 1;
    }
}

} // verus!
