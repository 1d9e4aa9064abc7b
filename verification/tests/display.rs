use harbor_light::display::{
    copy_wide, default_position, lamp_motion, menu_bar_title, poll_tick, position_center,
    provider_for_bundle_id, provider_is_running, rect_center, rgb, scale, scaled_size,
    should_reevaluate, should_redraw, status_menu_title, timer_tick, tray_tip, utf16_units, wide,
    Motion, Rect, SavedPosition, TimerAction,
};
use harbor_light::providers::Provider;
use harbor_light::status::DisplayState;

#[test]
fn dpi_scaling_keeps_logical_size() {
    assert_eq!(scaled_size(96), (128, 38));
    assert_eq!(scaled_size(144), (192, 57));
    assert_eq!(scaled_size(192), (256, 76));
}

#[test]
fn scale_rounds_half_up_and_truncates_negative_values() {
    assert_eq!(scale(8, 96), 8);
    assert_eq!(scale(1, 144), 2);
    assert_eq!(scale(39, 120), 49);
    assert_eq!(scale(-100, 96), -99);
}

#[test]
fn rgb_holds_its_channels() {
    let c = rgb(56, 255, 107);
    assert_eq!((c.red, c.green, c.blue), (56, 255, 107));
}

#[test]
fn windows_processes_identify_providers() {
    let running = vec!["explorer.exe".to_string(), "codex.exe".to_string()];
    assert!(provider_is_running(Provider::Codex, &running));
    assert!(!provider_is_running(Provider::Cursor, &running));
    let running = vec!["cursor.exe".to_string()];
    assert!(provider_is_running(Provider::Cursor, &running));
    assert!(!provider_is_running(Provider::Codex, &vec![]));
}

#[test]
fn bundle_ids_identify_providers() {
    assert_eq!(provider_for_bundle_id("com.openai.codex"), Some(Provider::Codex));
    assert_eq!(provider_for_bundle_id("com.todesktop.230313mzl4w4u92"), Some(Provider::Cursor));
    assert_eq!(provider_for_bundle_id("com.apple.finder"), None);
}

#[test]
fn waiting_and_working_pulse_together() {
    let m = lamp_motion(DisplayState::waiting_and_working(), false);
    assert_eq!(m.red, Motion::FastPulse);
    assert_eq!(m.yellow, Motion::FastPulse);
    assert_eq!(m.green, Motion::Still);
    let m = lamp_motion(DisplayState::working(), false);
    assert_eq!(m.yellow, Motion::SlowPulse);
    assert_eq!(m.red, Motion::Still);
    let m = lamp_motion(DisplayState::done(), false);
    assert_eq!(m.green, Motion::Pop);
    let m = lamp_motion(DisplayState::waiting_and_working(), true);
    assert_eq!((m.red, m.yellow, m.green), (Motion::Still, Motion::Still, Motion::Still));
}

#[test]
fn polling_forces_a_refresh_every_fourteen_ticks() {
    assert_eq!(poll_tick(0), (1, false));
    assert_eq!(poll_tick(12), (13, false));
    assert_eq!(poll_tick(13), (0, true));
}

#[test]
fn refresh_and_redraw_decisions() {
    assert!(!should_reevaluate(false, false, DisplayState::working()));
    assert!(should_reevaluate(false, false, DisplayState::done()));
    assert!(should_reevaluate(false, false, DisplayState::idle()));
    assert!(should_reevaluate(true, false, DisplayState::working()));
    assert!(should_reevaluate(false, true, DisplayState::waiting()));
    assert!(!should_redraw(DisplayState::working(), DisplayState::working(), false));
    assert!(should_redraw(DisplayState::working(), DisplayState::working(), true));
    assert!(should_redraw(DisplayState::done(), DisplayState::working(), false));
}

#[test]
fn windows_timer_refreshes_every_twenty_ticks() {
    assert_eq!(timer_tick(18, DisplayState::idle()), (19, TimerAction::Wait));
    assert_eq!(timer_tick(18, DisplayState::working()), (19, TimerAction::Redraw));
    assert_eq!(timer_tick(19, DisplayState::idle()), (20, TimerAction::Refresh));
    assert_eq!(timer_tick(u32::MAX, DisplayState::idle()), (0, TimerAction::Refresh));
}

#[test]
fn menu_texts_follow_the_state() {
    assert_eq!(menu_bar_title(DisplayState::idle()), "⚪");
    assert_eq!(menu_bar_title(DisplayState::working()), "🟡");
    assert_eq!(menu_bar_title(DisplayState::waiting()), "🔴");
    assert_eq!(menu_bar_title(DisplayState::waiting_and_working()), "🔴🟡");
    assert_eq!(menu_bar_title(DisplayState::done()), "🟢");
    assert_eq!(menu_bar_title(DisplayState::from_u8(5)), "⚪");
    assert_eq!(status_menu_title(DisplayState::working()), "状态：工作中");
    assert_eq!(tray_tip(DisplayState::idle()), "Harbor Light：空闲");
}

#[test]
fn wide_strings_are_nul_terminated_utf16() {
    assert_eq!(wide("Hi"), vec![72, 105, 0]);
    assert_eq!(wide("灯"), vec![0x706f, 0]);
    assert_eq!(wide("😀"), vec![0xd83d, 0xde00, 0]);
    assert_eq!(utf16_units("a😀b"), "a😀b".encode_utf16().collect::<Vec<u16>>());
}

#[test]
fn copy_wide_truncates_and_zero_fills() {
    let mut buf = [7u16; 4];
    copy_wide(&mut buf, "abcdef");
    assert_eq!(buf, [97, 98, 99, 0]);
    let mut buf = [7u16; 6];
    copy_wide(&mut buf, "ab");
    assert_eq!(buf, [97, 98, 0, 0, 0, 0]);
}

#[test]
fn default_position_hugs_the_work_area_corner() {
    let work = Rect { left: 0, top: 0, right: 1920, bottom: 1040 };
    assert_eq!(default_position(Some(work), 128), SavedPosition { x: 1768, y: 24 });
    assert_eq!(default_position(None, 128), SavedPosition { x: 200, y: 80 });
    assert_eq!(position_center(SavedPosition { x: 10, y: 20 }, 128, 38), (74, 39));
    assert_eq!(rect_center(Rect { left: -2560, top: 0, right: -2431, bottom: 39 }), (-2495, 19));
}
