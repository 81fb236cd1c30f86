use netwatch::config::Config;
use netwatch::models::{daemon_status_from, detail_windows, detail_windows_at, history_entry};
use netwatch::time::{valid_timestamp, TimeRange, MAX_UTC_TIMESTAMP, MIN_UTC_TIMESTAMP};
use netwatch::tui::{App, Key, KeyInput, Page};

const NOW: i64 = 1_700_000_000;

#[test]
fn timestamps_in_the_calendar_range() {
    assert!(valid_timestamp(NOW));
    assert!(valid_timestamp(MIN_UTC_TIMESTAMP));
    assert!(valid_timestamp(MAX_UTC_TIMESTAMP));
    assert!(!valid_timestamp(MIN_UTC_TIMESTAMP - 1));
    assert!(!valid_timestamp(MAX_UTC_TIMESTAMP + 1));
    assert!(!valid_timestamp(i64::MAX));
}

#[test]
fn ranges_defined_near_the_calendar_edges() {
    assert!(TimeRange::Today.defined_at(NOW));
    assert!(TimeRange::PreviousMonth.defined_at(NOW));
    assert!(!TimeRange::Today.defined_at(i64::MIN));
    assert!(!TimeRange::Yesterday.defined_at(MIN_UTC_TIMESTAMP + 100));
    assert!(TimeRange::Today.defined_at(MIN_UTC_TIMESTAMP + 100));
    assert!(!TimeRange::Last7Days.defined_at(MIN_UTC_TIMESTAMP + 86_400));
    assert!(!TimeRange::PreviousMonth.defined_at(MIN_UTC_TIMESTAMP + 86_400));
    assert!(TimeRange::Custom { start: 0, end: 1 }.defined_at(NOW));
}

#[test]
fn detail_windows_only_where_defined() {
    let w = detail_windows_at(NOW).unwrap();
    assert_eq!(w, detail_windows(NOW));
    assert_eq!(detail_windows_at(MIN_UTC_TIMESTAMP + 86_400), None);
    assert_eq!(detail_windows_at(i64::MAX), None);
}

#[test]
fn history_entries_from_sums() {
    let e = history_entry("2024-03-01".to_string(), 100, -5, 7, 9);
    assert_eq!(e.date, "2024-03-01");
    assert_eq!((e.download, e.upload, e.total, e.peak_download, e.peak_upload), (100, 0, 100, 7, 9));
    let e = history_entry("d".to_string(), i64::MAX, i64::MAX, -1, 0);
    assert_eq!(e.total, 2 * (i64::MAX as u64));
}

#[test]
fn daemon_status_from_stored_values() {
    let s = daemon_status_from(Some("42"), Some("1000"), Some("1"), 1005);
    assert!(s.running);
    assert_eq!(s.pid, Some(42));
    assert_eq!(s.last_heartbeat, Some(1000));
    assert_eq!(s.sample_interval, Some(1));
    // Three intervals plus ten seconds of grace.
    assert!(daemon_status_from(None, Some("1000"), Some("1"), 1013).running);
    assert!(!daemon_status_from(None, Some("1000"), Some("1"), 1014).running);
    assert!(daemon_status_from(None, Some("1000"), Some("10"), 1040).running);
    assert!(!daemon_status_from(None, Some("1000"), None, 1014).running);
    let s = daemon_status_from(Some("x"), None, Some(" 5\n"), 0);
    assert!(!s.running);
    assert_eq!(s.pid, None);
    assert_eq!(s.sample_interval, Some(5));
    assert_eq!(daemon_status_from(Some("9223372036854775808"), None, None, 0).pid, None);
}

fn press(key: Key) -> KeyInput {
    KeyInput { key, press: true, control: false }
}

#[test]
fn keys_checked_before_handling() {
    let mut app = App::new(Config::default(), Page::History);
    assert!(app.key_in_range(press(Key::Down)));
    assert!(app.key_in_range(press(Key::Left)));
    app.history_range_idx = i32::MAX as usize;
    assert!(!app.key_in_range(press(Key::Right)));
    assert!(app.key_in_range(press(Key::Left)));
    app.history_range_idx = usize::MAX;
    assert!(!app.key_in_range(press(Key::Tab)));
    assert!(app.key_in_range(KeyInput { key: Key::Tab, press: false, control: false }));
    let mut s = App::new(Config::default(), Page::Settings);
    s.settings_selection = 4;
    assert!(s.key_in_range(press(Key::Right)));
    s.temp_config.history_days = i32::MAX as u32;
    assert!(!s.key_in_range(press(Key::Right)));
    assert!(s.key_in_range(press(Key::Left)));
}

#[test]
fn refresh_checked_before_planning() {
    let mut app = App::new(Config::default(), Page::Home);
    assert!(app.refresh_defined_at(NOW));
    app.history_range_idx = 1;
    assert!(!app.refresh_defined_at(MIN_UTC_TIMESTAMP));
    assert!(!app.refresh_defined_at(i64::MAX));
}

#[test]
fn calendar_edges() {
    // A leap day: its month and year start where the calendar says.
    let t = 1_709_208_000; // 2024-02-29 12:00:00
    assert_eq!(TimeRange::Today.bounds(t), (1_709_164_800, t));
    assert_eq!(TimeRange::CurrentMonth.bounds(t), (1_706_745_600, t));
    assert_eq!(TimeRange::ThisYear.bounds(t), (1_704_067_200, t));
    // 2000 is a leap year, 1900 is not: February has 29 and 28 days.
    assert_eq!(TimeRange::PreviousMonth.bounds(951_886_800), (949_363_200, 951_868_800));
    assert_eq!(TimeRange::PreviousMonth.bounds(-2_203_887_600), (-2_206_310_400, -2_203_891_200));
    // The earliest instant is the first of its month and year.
    assert_eq!(TimeRange::ThisYear.bounds(MIN_UTC_TIMESTAMP + 100), (MIN_UTC_TIMESTAMP, MIN_UTC_TIMESTAMP + 100));
    assert_eq!(TimeRange::CurrentMonth.bounds(MAX_UTC_TIMESTAMP).0, MAX_UTC_TIMESTAMP - 86_399 - 30 * 86_400);
}
