use netwatch::config::{Config, Units};
use netwatch::daemon::names_removed;
use netwatch::models::{
    anomaly_message, database_size, day_bounds, detail_windows, integrity_ok, interface_stats_from,
    latest_rates_from, mac_for, nonnegative_count, rate_or_zero, removal_message,
    retention_cutoffs, speeds_from, stored_counters, DaemonStatus, InterfaceRow, InterfaceStats,
    RangeSum, SumSource, Totals,
};
use netwatch::time::TimeRange;
use netwatch::tui::{
    key_action, App, Key, KeyAction, KeyInput, Page, RefreshData, RunOptions, SettingsAction,
};
use netwatch::types::AlertKind;
use netwatch::widgets::sparkline_text;

const NOW: i64 = 1_700_000_000;

fn stats(id: i64, name: &str) -> InterfaceStats {
    InterfaceStats {
        id,
        name: name.to_string(),
        mac: None,
        operstate: "UP".to_string(),
        download: 0,
        upload: 0,
        rx_rate: 0,
        tx_rate: 0,
    }
}

fn press(key: Key) -> KeyInput {
    KeyInput { key, press: true, control: false }
}

#[test]
fn new_app_starts_clean() {
    let app = App::new(Config::default(), Page::Live);
    assert_eq!(app.page, Page::Live);
    assert_eq!(app.previous_page, Page::Home);
    assert_eq!(app.selection, 0);
    assert!(!app.should_quit);
    assert_eq!(app.totals, Totals::default());
    assert_eq!(app.daemon_status, DaemonStatus { running: false, pid: None, last_heartbeat: None, sample_interval: None });
    assert_eq!(RunOptions::default().initial_page, Page::Home);
}

#[test]
fn settings_cursor_and_values() {
    let mut app = App::new(Config::default(), Page::Home);
    app.enter_settings();
    assert_eq!(app.page, Page::Settings);
    assert_eq!(app.previous_page, Page::Home);
    app.move_settings_selection(-1);
    assert_eq!(app.settings_selection, 0);
    app.adjust_setting(1);
    assert_eq!(app.temp_config.units, Units::Bytes);
    app.adjust_setting(-1);
    assert_eq!(app.temp_config.units, Units::Auto);
    app.adjust_setting(-1);
    assert_eq!(app.temp_config.units, Units::Bits);
    app.adjust_setting(5);
    assert_eq!(app.temp_config.units, Units::Bits);
    app.move_settings_selection(1);
    app.adjust_setting(1);
    assert!(!app.temp_config.skip_loopback);
    app.move_settings_selection(1);
    app.adjust_setting(-1);
    assert_eq!(app.temp_config.sample_interval, 1);
    app.adjust_setting(100);
    assert_eq!(app.temp_config.sample_interval, 60);
    app.move_settings_selection(1);
    app.adjust_setting(1);
    assert_eq!(app.temp_config.batch_write_interval, 6);
    app.move_settings_selection(1);
    app.adjust_setting(1);
    assert_eq!(app.temp_config.history_days, 395);
    app.adjust_setting(-20);
    assert_eq!(app.temp_config.history_days, 30);
    app.move_settings_selection(10);
    assert_eq!(app.settings_selection, 6);
    // The settings in force are untouched until saved.
    assert_eq!(app.config.units, Units::Auto);
}

#[test]
fn settings_save_and_cancel() {
    let mut app = App::new(Config::default(), Page::Graph);
    app.enter_settings();
    app.adjust_setting(1);
    app.move_settings_selection(5);
    assert_eq!(app.handle_settings_enter(), SettingsAction::Save);
    assert_eq!(app.page, Page::Settings);
    app.commit_settings();
    assert_eq!(app.page, Page::Graph);
    assert_eq!(app.config.units, Units::Bytes);

    app.enter_settings();
    app.adjust_setting(1);
    app.move_settings_selection(6);
    assert_eq!(app.handle_settings_enter(), SettingsAction::Cancel);
    assert_eq!(app.page, Page::Graph);
    assert_eq!(app.config.units, Units::Bytes);
    app.move_settings_selection(-3);
    assert_eq!(app.handle_settings_enter(), SettingsAction::Stay);
}

fn app_with_interfaces() -> App {
    let mut app = App::new(Config::default(), Page::Interfaces);
    app.apply_refresh(RefreshData {
        totals: Totals::default(),
        speeds: Totals::default(),
        interfaces: vec![stats(7, "eth0"), stats(9, "WLAN0"), stats(11, "docker0")],
        daemon_status: DaemonStatus { running: true, pid: Some(1), last_heartbeat: Some(5), sample_interval: Some(1) },
        db_size: 4096,
        alert_count: 2,
        interface_detail: None,
        history: vec![],
        graph_points: vec![],
    });
    app
}

#[test]
fn refresh_resets_filter() {
    let app = app_with_interfaces();
    assert_eq!(app.filtered_interfaces, vec![0, 1, 2]);
    assert_eq!(app.db_size, 4096);
    assert_eq!(app.alert_count, 2);
    assert!(app.daemon_status.running);
}

#[test]
fn refresh_plan_follows_ranges() {
    let mut app = App::new(Config::default(), Page::History);
    app.history_range_idx = 1;
    app.graph_resolution_idx = 2;
    app.selected_interface_id = Some(3);
    let plan = app.refresh_plan(NOW);
    assert_eq!(plan.history, TimeRange::Yesterday.bounds(NOW));
    assert_eq!(plan.graph, TimeRange::Last30Days.bounds(NOW));
    assert_eq!(plan.detail, Some(3));
}

#[test]
fn selection_moves_within_the_list() {
    let mut app = app_with_interfaces();
    app.move_selection(-1);
    assert_eq!(app.selection, 0);
    app.move_selection(5);
    assert_eq!(app.selection, 2);
    app.page = Page::Home;
    app.move_selection(-1);
    assert_eq!(app.selection, 2);
}

#[test]
fn enter_opens_interface_detail() {
    let mut app = app_with_interfaces();
    app.move_selection(1);
    app.handle_enter();
    assert_eq!(app.selected_interface_id, Some(9));
    assert_eq!(app.page, Page::InterfaceDetail);
    assert_eq!(app.previous_page, Page::Interfaces);
    let mut other = app_with_interfaces();
    other.page = Page::History;
    other.handle_enter();
    assert_eq!(other.page, Page::History);
    assert_eq!(other.selected_interface_id, None);
}

#[test]
fn search_filters_case_insensitively() {
    let mut app = app_with_interfaces();
    app.selection = 2;
    app.search_query = "wlan".to_string();
    app.apply_search();
    assert_eq!(app.filtered_interfaces, vec![1]);
    assert_eq!(app.selection, 0);
    app.search_query = "0".to_string();
    app.apply_search();
    assert_eq!(app.filtered_interfaces, vec![0, 1, 2]);
    app.search_query = "xyz".to_string();
    app.apply_search();
    assert!(app.filtered_interfaces.is_empty());
    app.selection = 1;
    app.search_query.clear();
    app.apply_search();
    assert_eq!(app.filtered_interfaces, vec![0, 1, 2]);
    assert_eq!(app.selection, 1);
}

#[test]
fn ranges_and_labels() {
    let mut app = App::new(Config::default(), Page::History);
    app.adjust_range(10);
    assert_eq!(app.history_range_idx, 6);
    assert_eq!(app.history_range_label(), "This Year");
    assert_eq!(app.current_history_range(), TimeRange::ThisYear);
    app.next_history_range();
    assert_eq!(app.history_range_idx, 0);
    assert_eq!(app.history_range_label(), "Today");
    for _ in 0..7 {
        app.next_history_range();
    }
    assert_eq!(app.history_range_idx, 0);
    app.page = Page::Graph;
    app.adjust_range(2);
    assert_eq!(app.graph_resolution_idx, 2);
    assert_eq!(app.graph_resolution_label(), "Week");
    assert_eq!(app.graph_range(), TimeRange::Last30Days);
    app.adjust_range(-9);
    assert_eq!(app.graph_resolution_label(), "Hour");
    assert_eq!(app.graph_range(), TimeRange::Today);
}

#[test]
fn keys_drive_the_monitor() {
    let mut app = app_with_interfaces();
    app.page = Page::Home;
    let o = app.handle_key(press(Key::Char('h')));
    assert!(o.refresh);
    assert_eq!(app.page, Page::History);
    app.handle_key(press(Key::Tab));
    assert_eq!(app.history_range_idx, 1);
    app.handle_key(press(Key::Char('?')));
    assert!(app.show_help);
    app.handle_key(press(Key::Char('/')));
    assert_eq!(app.page, Page::Search);
    assert_eq!(app.previous_page, Page::History);
    app.handle_key(press(Key::Char('w')));
    app.handle_key(press(Key::Char('q')));
    assert!(!app.should_quit);
    assert_eq!(app.search_query, "wq");
    app.handle_key(press(Key::Backspace));
    assert_eq!(app.search_query, "w");
    assert_eq!(app.filtered_interfaces, vec![1]);
    // On the search page every character is typed, shortcuts included.
    app.handle_key(press(Key::Char('i')));
    app.handle_key(press(Key::Char('?')));
    assert_eq!(app.page, Page::Search);
    assert_eq!(app.search_query, "wi?");
    assert!(app.filtered_interfaces.is_empty());
    // Esc leaves the search for the page it came from.
    app.handle_key(press(Key::Esc));
    assert_eq!(app.page, Page::History);
    assert!(!app.should_quit);
    app.handle_key(press(Key::Char('i')));
    assert_eq!(app.page, Page::Interfaces);
    let released = KeyInput { key: Key::Char('q'), press: false, control: false };
    app.handle_key(released);
    assert!(!app.should_quit);
    // Esc on the interface list goes back home; there it quits.
    let o = app.handle_key(press(Key::Esc));
    assert!(o.refresh);
    assert_eq!(app.page, Page::Home);
    assert!(!app.should_quit);
    app.handle_key(press(Key::Esc));
    assert!(app.should_quit);
}

#[test]
fn detail_page_goes_back_on_esc_and_q() {
    let mut app = app_with_interfaces();
    app.handle_key(press(Key::Enter));
    assert_eq!(app.page, Page::InterfaceDetail);
    let o = app.handle_key(press(Key::Esc));
    assert!(o.refresh);
    assert_eq!(app.page, Page::Interfaces);
    assert!(!app.should_quit);
    app.handle_key(press(Key::Enter));
    app.handle_key(press(Key::Char('q')));
    assert_eq!(app.page, Page::Interfaces);
    assert!(!app.should_quit);
    app.handle_key(press(Key::Char('q')));
    assert!(app.should_quit);
}

#[test]
fn keys_leave_the_rest_of_the_state_alone() {
    let mut app = app_with_interfaces();
    app.page = Page::History;
    app.handle_key(press(Key::Right));
    assert_eq!(app.history_range_idx, 1);
    assert_eq!(app.graph_resolution_idx, 0);
    app.handle_key(press(Key::Left));
    app.handle_key(press(Key::Left));
    assert_eq!(app.history_range_idx, 0);
    app.page = Page::Home;
    app.handle_key(press(Key::Right));
    assert_eq!((app.history_range_idx, app.graph_resolution_idx), (0, 0));
    assert_eq!(app.filtered_interfaces, vec![0, 1, 2]);
}

#[test]
fn settings_keys_and_control_c() {
    let mut app = App::new(Config::default(), Page::Live);
    app.handle_key(press(Key::Char('s')));
    assert_eq!(app.page, Page::Settings);
    app.handle_key(press(Key::Right));
    assert_eq!(app.temp_config.units, Units::Bytes);
    for _ in 0..5 {
        app.handle_key(press(Key::Down));
    }
    let o = app.handle_key(press(Key::Enter));
    assert!(o.save_settings);
    assert!(o.refresh);
    app.commit_settings();
    assert_eq!(app.page, Page::Live);
    assert_eq!(app.config.units, Units::Bytes);
    app.handle_key(press(Key::Char('s')));
    app.handle_key(press(Key::Char('q')));
    assert_eq!(app.page, Page::Live);
    assert!(!app.should_quit);
    app.handle_key(KeyInput { key: Key::Char('c'), press: true, control: true });
    assert!(app.should_quit);
    assert_eq!(key_action(Page::Settings, Key::Tab), KeyAction::Nothing);
    assert_eq!(key_action(Page::Search, Key::Char('x')), KeyAction::Type('x'));
    assert_eq!(key_action(Page::Home, Key::Char('x')), KeyAction::Nothing);
    assert_eq!(key_action(Page::Search, Key::Char('q')), KeyAction::Type('q'));
    assert_eq!(key_action(Page::Search, Key::Esc), KeyAction::Back);
    assert_eq!(key_action(Page::Settings, Key::Esc), KeyAction::Back);
    assert_eq!(key_action(Page::InterfaceDetail, Key::Char('q')), KeyAction::Show(Page::Interfaces));
    assert_eq!(key_action(Page::Interfaces, Key::Esc), KeyAction::Show(Page::Home));
    assert_eq!(key_action(Page::Interfaces, Key::Char('q')), KeyAction::Quit);
}

#[test]
fn range_sum_reads_the_finest_table_with_data() {
    let mut s = RangeSum::new(0, 3600);
    assert_eq!(s.next_source(), Some(SumSource::Raw));
    s.record(0, 0);
    assert_eq!(s.next_source(), Some(SumSource::Minute));
    s.record(10, 0);
    assert_eq!(s.next_source(), None);
    assert_eq!((s.download(), s.upload()), (10, 0));
    let t = s.totals(&Totals { download: 1, upload: 1, rx_rate: 5, tx_rate: 6 });
    assert_eq!(t, Totals { download: 10, upload: 0, rx_rate: 5, tx_rate: 6 });

    let mut long = RangeSum::new(0, 86401);
    assert_eq!(long.next_source(), Some(SumSource::Minute));
    long.record(0, 0);
    long.record(0, 0);
    assert_eq!(long.next_source(), Some(SumSource::Daily));
    long.record(0, 0);
    assert_eq!(long.next_source(), None);
}

#[test]
fn stored_values_read_back() {
    assert_eq!(nonnegative_count(-5), 0);
    assert_eq!(nonnegative_count(5), 5);
    assert_eq!(rate_or_zero(None), 0);
    assert_eq!(rate_or_zero(Some(-1)), 0);
    assert_eq!(speeds_from(Some((10, -2))), Totals { download: 0, upload: 0, rx_rate: 10, tx_rate: 0 });
    assert_eq!(speeds_from(None), Totals::default());
    assert_eq!(latest_rates_from(Some((Some(3), None))), (3, 0));
    assert_eq!(latest_rates_from(None), (0, 0));
    assert_eq!(stored_counters(u64::MAX, 1, 2, 3), (-1, 1, 2, 3));
    assert_eq!(database_size(10, 4096), 40960);
    assert!(integrity_ok("ok"));
    assert!(!integrity_ok("row 3 missing"));
}

#[test]
fn interface_stats_line() {
    let row = InterfaceRow { id: 4, name: "eth0".into(), mac: Some("aa".into()), first_seen: 1, last_seen: 100 };
    let t = Totals { download: 7, upload: 8, rx_rate: 0, tx_rate: 0 };
    let s = interface_stats_from(&row, 100, &t, (1, 2));
    assert_eq!((s.id, s.operstate.as_str(), s.download, s.upload, s.rx_rate, s.tx_rate), (4, "UP", 7, 8, 1, 2));
    let s = interface_stats_from(&row, 101, &t, (1, 2));
    assert_eq!(s.operstate, "DOWN");
}

#[test]
fn time_windows() {
    assert_eq!(day_bounds(NOW), (1_699_920_000, NOW));
    let w = detail_windows(NOW);
    assert_eq!(w.today_start, 1_699_920_000);
    assert_eq!(w.yesterday_start, 1_699_833_600);
    assert_eq!(w.week_start, NOW - 604_800);
    assert_eq!(w.last_week_start, NOW - 1_209_600);
    assert_eq!(w.month_start, 1_698_796_800);
    assert_eq!(w.prev_month_start, 1_696_118_400);
    assert_eq!(w.year_start, 1_672_531_200);
    assert_eq!(retention_cutoffs(NOW, 365), (NOW - 365 * 86_400, NOW - 2_592_000));
    assert_eq!(retention_cutoffs(NOW, 1), (NOW - 86_400, NOW - 2_592_000));
    assert_eq!(retention_cutoffs(NOW, 0), (NOW, NOW - 2_592_000));
}

#[test]
fn alert_messages() {
    assert_eq!(removal_message("eth0"), "Interface 'eth0' disappeared");
    assert_eq!(anomaly_message("eth0", AlertKind::ClockJump), "Anomaly on eth0: ClockJump");
    assert_eq!(
        anomaly_message("wlan0", AlertKind::CounterOverflow),
        format!("Anomaly on {}: {:?}", "wlan0", AlertKind::CounterOverflow)
    );
}

#[test]
fn mac_lookup_takes_first_entry() {
    let macs = vec![
        ("eth0".to_string(), None),
        ("wlan0".to_string(), Some("m1".to_string())),
        ("eth0".to_string(), Some("m2".to_string())),
    ];
    assert_eq!(mac_for(&macs, &"wlan0".to_string()), Some("m1".to_string()));
    assert_eq!(mac_for(&macs, &"eth0".to_string()), None);
    assert_eq!(mac_for(&macs, &"lo".to_string()), None);
}

#[test]
fn removed_interfaces() {
    let known = vec!["eth0".to_string(), "wlan0".to_string(), "usb0".to_string()];
    let current = vec!["wlan0".to_string()];
    assert_eq!(names_removed(&known, &current), vec!["eth0".to_string(), "usb0".to_string()]);
    assert!(names_removed(&current, &known).is_empty());
}

#[test]
fn sparkline_rows() {
    assert_eq!(sparkline_text(&[1, 2], "t", 1, 5), None);
    let s = sparkline_text(&[0, 4, 2, 4], "rx", 2, 4).unwrap();
    assert_eq!(s, "rx (max 4 B)\n █ █\n ███\n");
    let s = sparkline_text(&[0], "z", 2, 2).unwrap();
    assert_eq!(s, "z (max 1 B)\n  \n  \n");
}
