use autoclicker::app::AutoClickerApp;
use autoclicker::app::clamp_interval_ms;
use autoclicker::app::cps_tenths_for_interval;
use autoclicker::app::interval_for_cps_tenths;
use autoclicker::settings::Action;
use autoclicker::settings::MouseButton;
use autoclicker::settings::Settings;

#[test]
fn interval_500_ms_shows_two_cps() {
    // 500 ms per click is 2.0 clicks per second, i.e. 20 tenths
    assert_eq!(cps_tenths_for_interval(500), 20);
}

#[test]
fn ten_cps_gives_interval_100_ms() {
    // 10 cps is 100 tenths; the stored interval becomes 100 ms
    assert_eq!(interval_for_cps_tenths(100), 100);
}

#[test]
fn cps_and_interval_stay_linked() {
    assert_eq!(cps_tenths_for_interval(1000), 10);  // 1.0 cps
    assert_eq!(cps_tenths_for_interval(100), 100);  // 10.0 cps
    assert_eq!(cps_tenths_for_interval(60), 167);  // about 16.7 cps
    assert_eq!(cps_tenths_for_interval(1), 10000);  // 1000.0 cps
    assert_eq!(cps_tenths_for_interval(10000), 1);  // 0.1 cps
    assert_eq!(interval_for_cps_tenths(20), 500);  // 2.0 cps
    assert_eq!(interval_for_cps_tenths(1), 10000);
    assert_eq!(interval_for_cps_tenths(10000), 1);
}

#[test]
fn cps_edits_are_clamped() {
    // below 0.1 cps and above 1000.0 cps clamp to the range ends
    assert_eq!(interval_for_cps_tenths(0), 10000);
    assert_eq!(interval_for_cps_tenths(2000000), 1);
}

#[test]
fn interval_edits_are_clamped() {
    assert_eq!(clamp_interval_ms(0), 1);
    assert_eq!(clamp_interval_ms(1), 1);
    assert_eq!(clamp_interval_ms(60), 60);
    assert_eq!(clamp_interval_ms(10000), 10000);
    assert_eq!(clamp_interval_ms(20000), 10000);
}

#[test]
fn new_app_starts_clean() {
    let app = AutoClickerApp::new();
    assert_eq!(app.settings, Settings::default());
    assert!(!app.recording_hotkey);
    assert!(!app.recording_action_key);
    assert!(app.last_save_error.is_none());
}

#[test]
fn save_failure_keeps_edit_and_surfaces_error() {
    let mut app = AutoClickerApp::new();
    let mut edited = app.settings.clone();
    edited.action = Action::Mouse(MouseButton::Right);
    edited.interval_ms = 250;
    app.apply_edit(edited.clone());
    // the save fails: the edit stays in memory and the error is shown
    let wake = app.record_save_result(Some(String::from("disk full")));
    assert!(!wake);
    assert_eq!(app.settings, edited);
    let msg = app.last_save_error.clone().expect("failed save must leave an error");
    assert!(!msg.is_empty());
    // the next successful save clears the error and wakes the action loop
    let wake2 = app.record_save_result(None);
    assert!(wake2);
    assert!(app.last_save_error.is_none());
    assert_eq!(app.settings, edited);
}

#[test]
fn app_over_loaded_settings() {
    let mut s = Settings::default();
    s.interval_ms = 75;
    let app = AutoClickerApp::with_settings(s.clone());
    assert_eq!(app.settings, s);
    assert!(app.last_save_error.is_none());
}
