use harbor_light::status::{aggregate_states, apply_done_timeout, DisplayState, LightState, StatusSnapshot};
use harbor_light::time::now;

#[test]
fn aggregate_priority() {
    assert_eq!(
        aggregate_states(&[LightState::Idle, LightState::Done, LightState::Working]),
        LightState::Working
    );
    assert_eq!(
        aggregate_states(&[LightState::Working, LightState::Waiting]),
        LightState::Waiting
    );
    assert_eq!(aggregate_states(&[]), LightState::Idle);
}

#[test]
fn display_state_preserves_waiting_and_working_together() {
    let display = DisplayState::from_states(&[LightState::Waiting, LightState::Working]);
    assert_eq!(display, DisplayState::waiting_and_working());
    assert!(display.red_active());
    assert!(display.yellow_active());
    assert!(!display.green_active());
}

#[test]
fn active_lamps_suppress_completed_lamp() {
    assert_eq!(
        DisplayState::from_states(&[LightState::Done, LightState::Working]),
        DisplayState::working()
    );
    assert_eq!(
        DisplayState::from_states(&[LightState::Done, LightState::Waiting]),
        DisplayState::waiting()
    );
    assert_eq!(DisplayState::from_states(&[LightState::Done]), DisplayState::done());
}

#[test]
fn done_collapses_after_timeout() {
    let old = now().plus_secs(-4);
    assert_eq!(apply_done_timeout(LightState::Done, Some(old)), LightState::Idle);
    assert_eq!(apply_done_timeout(LightState::Done, Some(now())), LightState::Done);
    assert_eq!(apply_done_timeout(LightState::Working, Some(old)), LightState::Working);
}

#[test]
fn display_state_survives_a_byte_roundtrip() {
    for d in [
        DisplayState::idle(),
        DisplayState::done(),
        DisplayState::working(),
        DisplayState::waiting(),
        DisplayState::waiting_and_working(),
    ] {
        assert_eq!(DisplayState::from_u8(d.as_u8()), d);
    }
    assert_eq!(DisplayState::from_u8(0xff).as_u8(), 7);
}

#[test]
fn display_state_bytes_and_labels() {
    assert_eq!(DisplayState::idle().as_u8(), 0);
    assert_eq!(DisplayState::waiting().as_u8(), 1);
    assert_eq!(DisplayState::working().as_u8(), 2);
    assert_eq!(DisplayState::waiting_and_working().as_u8(), 3);
    assert_eq!(DisplayState::done().as_u8(), 4);
    assert_eq!(DisplayState::idle().label_zh(), "空闲");
    assert_eq!(DisplayState::waiting().label_zh(), "等待确认");
    assert_eq!(DisplayState::working().label_zh(), "工作中");
    assert_eq!(DisplayState::done().label_zh(), "已完成");
    assert_eq!(DisplayState::waiting_and_working().label_zh(), "等待确认 + 工作中");
    assert_eq!(DisplayState::from_u8(6).label_zh(), "空闲");
    assert!(DisplayState::idle().is_idle());
    assert!(!DisplayState::done().is_idle());
}

#[test]
fn green_lamp_only_without_active_states() {
    assert_eq!(DisplayState::from_states(&[]), DisplayState::idle());
    assert_eq!(DisplayState::from_states(&[LightState::Idle]), DisplayState::idle());
    let d = DisplayState::from_states(&[LightState::Done, LightState::Done, LightState::Idle]);
    assert!(d.green_active() && !d.red_active() && !d.yellow_active());
    let d = DisplayState::from_states(&[LightState::Waiting, LightState::Done]);
    assert!(!d.green_active());
}

#[test]
fn light_state_names_and_priorities() {
    assert_eq!(LightState::Idle.as_str(), "idle");
    assert_eq!(LightState::Working.as_str(), "working");
    assert_eq!(LightState::Waiting.as_str(), "waiting");
    assert_eq!(LightState::Done.as_str(), "done");
    assert!(LightState::Waiting.priority() > LightState::Working.priority());
    assert!(LightState::Working.priority() > LightState::Done.priority());
    assert!(LightState::Done.priority() > LightState::Idle.priority());
}

#[test]
fn status_snapshot_records_its_fields_and_age() {
    let t = now();
    let s = StatusSnapshot::new_at(LightState::Working, "hook", Some("UserPromptSubmit".to_string()), Some("abc".to_string()), t);
    assert_eq!(s.state, LightState::Working);
    assert_eq!(s.source, "hook");
    assert_eq!(s.event.as_deref(), Some("UserPromptSubmit"));
    assert_eq!(s.session_id.as_deref(), Some("abc"));
    assert_eq!(s.age_at(t.plus_secs(2)), 2_000_000_000);
}
