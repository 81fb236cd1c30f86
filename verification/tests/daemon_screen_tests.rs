use netwatch::collector::{parse_counter, SysfsCollector, SysfsReading};
use netwatch::config::{Config, Units};
use netwatch::daemon::{names_removed, DaemonState};
use netwatch::error::NetWatchError;
use netwatch::models::{HistoryEntry, InterfaceDetail, InterfaceStats};
use netwatch::screens::{
    detail_lines, footer_keys, header_alerts, header_padding, header_title, history_row,
    interface_counts, interface_row, live_row, row_shade, settings_lines, status_mark,
    top_by_download, top_line, RowShade,
};
use netwatch::tui::Page;
use netwatch::types::{AlertKind, InterfaceSnapshot, OperState};

fn snap(name: &str, mac: Option<&str>, rx: u64, tx: u64, ts: i64) -> InterfaceSnapshot {
    InterfaceSnapshot {
        name: name.to_string(),
        mac: mac.map(String::from),
        rx_bytes: rx,
        tx_bytes: tx,
        operstate: OperState::Up,
        timestamp: ts,
    }
}

fn stats(name: &str, state: &str, download: u64, rx: u64, tx: u64) -> InterfaceStats {
    InterfaceStats {
        id: 1,
        name: name.to_string(),
        mac: None,
        operstate: state.to_string(),
        download,
        upload: 7,
        rx_rate: rx,
        tx_rate: tx,
    }
}

#[test]
fn removed_names_keep_order() {
    let known = vec!["a".to_string(), "b".to_string(), "c".to_string()];
    let current = vec!["b".to_string(), "d".to_string()];
    assert_eq!(names_removed(&known, &current), vec!["a".to_string(), "c".to_string()]);
    assert!(names_removed(&[], &current).is_empty());
}

#[test]
fn daemon_first_sampling_queues_and_raises_nothing() {
    let mut st = DaemonState::new();
    let ev = st.on_sample(&[snap("eth0", Some("aa:bb"), 100, 50, 1000), snap("wlan0", None, 10, 10, 1000)]);
    assert!(ev.removed.is_empty());
    assert!(ev.alerts.is_empty());
    let (samples, macs) = st.take_pending();
    assert_eq!(samples.len(), 2);
    assert_eq!((samples[0].rx_rate, samples[0].tx_rate), (0, 0));
    assert_eq!(macs, vec![("eth0".to_string(), Some("aa:bb".to_string())), ("wlan0".to_string(), None)]);
    let (samples, macs) = st.take_pending();
    assert!(samples.is_empty() && macs.is_empty());
}

#[test]
fn daemon_second_sampling_rates_removals_and_alerts() {
    let mut st = DaemonState::new();
    st.on_sample(&[snap("eth0", None, 100, 50, 1000), snap("wlan0", None, 10, 10, 1000)]);
    st.take_pending();
    let ev = st.on_sample(&[snap("eth0", None, 40, 250, 1010)]);
    assert_eq!(ev.removed, vec!["wlan0".to_string()]);
    assert_eq!(ev.alerts.len(), 1);
    assert_eq!(ev.alerts[0].ts, 1010);
    assert_eq!(ev.alerts[0].kind, AlertKind::CounterOverflow);
    assert_eq!(ev.alerts[0].message, "Anomaly on eth0: CounterOverflow");
    let (samples, _) = st.take_pending();
    assert_eq!(samples.len(), 1);
    // rx went down: the new value counts; tx: 200 bytes over 10 s.
    assert_eq!((samples[0].rx_rate, samples[0].tx_rate), (4, 20));
}

#[test]
fn daemon_clock_jump_alert() {
    let mut st = DaemonState::new();
    st.on_sample(&[snap("eth0", None, 100, 50, 1000)]);
    let ev = st.on_sample(&[snap("eth0", None, 200, 60, 900)]);
    assert_eq!(ev.alerts.len(), 1);
    assert_eq!(ev.alerts[0].kind, AlertKind::ClockJump);
    assert_eq!(ev.alerts[0].message, "Anomaly on eth0: ClockJump");
    let (samples, _) = st.take_pending();
    assert_eq!(samples.len(), 2);
    assert_eq!((samples[1].rx_rate, samples[1].tx_rate), (0, 0));
}

fn reading(name: &str, rx: Result<&str, &str>, tx: Result<&str, &str>) -> SysfsReading {
    SysfsReading {
        name: name.to_string(),
        rx_bytes: rx.map(String::from).map_err(String::from),
        tx_bytes: tx.map(String::from).map_err(String::from),
        address: Some(" 00:11:22:33:44:55\n".to_string()),
        operstate: Some("up\n".to_string()),
    }
}

#[test]
fn sysfs_readings_become_snapshots() {
    let c = Config::default();
    let col = SysfsCollector::new(&c, "/");
    let rs = vec![
        reading("eth0", Ok("1234\n"), Ok(" 99 ")),
        reading("lo", Err("boom"), Err("boom")),
        reading("docker0", Ok("x"), Ok("x")),
    ];
    let v = col.snapshots_from(&rs, 77).unwrap();
    assert_eq!(v.len(), 1);
    assert_eq!(v[0].name, "eth0");
    assert_eq!((v[0].rx_bytes, v[0].tx_bytes), (1234, 99));
    assert_eq!(v[0].mac.as_deref(), Some("00:11:22:33:44:55"));
    assert_eq!(v[0].operstate, OperState::Up);
    assert_eq!(v[0].timestamp, 77);
}

#[test]
fn sysfs_errors_name_the_interface() {
    let c = Config::default();
    let col = SysfsCollector::new(&c, "/");
    let rs = vec![reading("eth0", Ok("12"), Ok("abc"))];
    match col.snapshots_from(&rs, 0) {
        Err(NetWatchError::Collection(m)) => assert_eq!(m, "invalid tx_bytes for eth0"),
        _ => panic!("expected a collection error"),
    }
    let rs = vec![reading("eth0", Err("failed to read x"), Ok("1"))];
    match col.snapshots_from(&rs, 0) {
        Err(NetWatchError::Collection(m)) => assert_eq!(m, "failed to read x"),
        _ => panic!("expected a collection error"),
    }
    let mut bad = Config::default();
    bad.ignore = vec!["[".to_string()];
    let col = SysfsCollector::new(&bad, "/");
    assert!(matches!(col.snapshots_from(&[reading("eth0", Ok("1"), Ok("1"))], 0), Err(NetWatchError::Config(_))));
}

#[test]
fn counters_are_trimmed_decimal() {
    assert_eq!(parse_counter(" 42\n"), Some(42));
    assert_eq!(parse_counter("18446744073709551615"), Some(u64::MAX));
    assert_eq!(parse_counter("18446744073709551616"), None);
    assert_eq!(parse_counter(""), None);
    assert_eq!(parse_counter("-1"), None);
}

#[test]
fn footer_and_header_texts() {
    assert_eq!(footer_keys(Page::Live), " F1:Help │ Tab:Switch │ q:Quit ");
    assert_eq!(footer_keys(Page::Search), " Type to filter │ Esc:Back ");
    assert_eq!(header_alerts(0), "");
    assert_eq!(header_alerts(3), " [3 alerts]");
    assert_eq!(header_title(12), " NetWatch [12 alerts]");
    assert_eq!(header_title(0), " NetWatch");
    assert_eq!(header_padding(100, 0, 15), 100 - (12 + 26 + 15) - 4);
    assert_eq!(header_padding(10, 0, 15), 0);
    assert_eq!(header_padding(55, 0, 15), 0);
}

#[test]
fn home_counts_and_ranking() {
    let v = vec![
        stats("a", "UP", 5, 0, 0),
        stats("b", "DOWN", 9, 0, 0),
        stats("c", "UP", 9, 0, 0),
        stats("d", "up", 1, 0, 0),
        stats("e", "UP", 7, 0, 0),
        stats("f", "UP", 2, 0, 0),
    ];
    assert_eq!(interface_counts(&v), (4, 2));
    assert_eq!(top_by_download(&v, 5), vec![1, 2, 4, 0, 5]);
    assert_eq!(top_by_download(&v, 2), vec![1, 2]);
    assert_eq!(top_by_download(&[], 5), Vec::<usize>::new());
    assert_eq!(top_line("eth0", 2048, Units::Auto), "  eth0        2.00 KB");
    assert_eq!(top_line("averyverylongname", 5, Units::Auto), "  averyverylongname  5 B");
    assert_eq!(top_line("eth0", 3_145_728, Units::Bytes), "  eth0        3.00 MB");
}

#[test]
fn table_cells() {
    let s = stats("eth0", "UP", 1024, 3000, 1000);
    assert_eq!(interface_row(&s, true, Units::Auto), vec!["▶ eth0", "1.00 KB", "7 B", "2.92 KB/s"]);
    assert_eq!(interface_row(&s, false, Units::Auto)[0], "  eth0");
    assert_eq!(live_row(&s, false, Units::Bytes), vec!["  eth0", "3000 B/s", "1000 B/s", "3000 B/s", "2000 B/s"]);
    assert_eq!(live_row(&s, false, Units::Auto), vec!["  eth0", "2.92 KB/s", "1000 B/s", "2.92 KB/s", "1.95 KB/s"]);
    let e = HistoryEntry { date: "2024-01-02".to_string(), download: 1, upload: 2, total: 3, peak_download: 4, peak_upload: 5 };
    assert_eq!(history_row(&e, false, Units::Auto), vec!["  2024-01-02", "1 B", "2 B", "3 B", "4 B", "5 B"]);
    assert_eq!(row_shade(2, 2), RowShade::Selected);
    assert_eq!(row_shade(3, 0), RowShade::Odd);
    assert_eq!(row_shade(4, 0), RowShade::Plain);
    assert_eq!(status_mark("UP"), "●");
    assert_eq!(status_mark("DOWN"), "○");
}

#[test]
fn detail_page_lines() {
    let d = InterfaceDetail {
        name: "eth0".to_string(),
        current_rx_rate: 1,
        current_tx_rate: 2,
        peak_rx_rate: 3,
        peak_tx_rate: 4,
        avg_rx_rate: 5,
        avg_tx_rate: 6,
        today_download: 7,
        today_upload: 8,
        yesterday_download: 9,
        yesterday_upload: 10,
        this_week_download: 11,
        this_week_upload: 12,
        last_week_download: 13,
        last_week_upload: 14,
        this_month_download: 15,
        this_month_upload: 16,
        last_month_download: 17,
        last_month_upload: 18,
        this_year_download: 19,
        this_year_upload: 20,
        total_download: 2048,
        total_upload: 22,
    };
    let l = detail_lines(&d, Units::Bytes);
    assert_eq!(l.len(), 13);
    assert_eq!(l[0], "Interface: eth0");
    assert_eq!(l[1], "Current Speed: ↓ 1 B/s  ↑ 2 B/s");
    assert_eq!(l[4], "");
    assert_eq!(l[5], "Today: ↓ 0.00 MB  ↑ 0.00 MB");
    assert_eq!(l[12], "Total Since Installed: ↓ 0.00 MB  ↑ 0.00 MB");
    let l = detail_lines(&d, Units::Auto);
    assert_eq!(l[1], "Current Speed: ↓ 1 B/s  ↑ 2 B/s");
    assert_eq!(l[5], "Today: ↓ 7 B  ↑ 8 B");
    assert_eq!(l[12], "Total Since Installed: ↓ 2.00 KB  ↑ 22 B");
    let l = detail_lines(&d, Units::Bits);
    assert_eq!(l[12], "Total Since Installed: ↓ 16.38 Kb  ↑ 176 b");
}

#[test]
fn settings_page_lines() {
    let c = Config::default();
    let l = settings_lines(&c, 1);
    assert_eq!(l.len(), 7);
    assert_eq!(l[0], format!("   {:<35} : {}", "Display Units", "Auto"));
    assert_eq!(l[1], format!(" > {:<35} : {}", "Ignore Loopback Interface", "Yes"));
    assert_eq!(l[2], format!("   {:<35} : {}", "Sample Interval (Seconds)", "1s"));
    assert_eq!(l[3], format!("   {:<35} : {}", "Database Write Batching (Seconds)", "5s"));
    assert_eq!(l[4], format!("   {:<35} : {}", "Data Retention (Days)", "365 days"));
    assert_eq!(l[5], "   Save & Apply Settings");
    assert_eq!(l[6], "   Cancel & Discard Changes");
    assert_eq!(settings_lines(&c, 6)[6], " > Cancel & Discard Changes");
}

#[test]
fn snapshot_parts_are_kept() {
    let s = netwatch::collector::snapshot_from_parts("eth0", Some("aa"), 1, 2, OperState::Down, 1_700_000_000);
    assert_eq!(s.name, "eth0");
    assert_eq!(s.mac.as_deref(), Some("aa"));
    assert_eq!((s.rx_bytes, s.tx_bytes), (1, 2));
    assert_eq!(s.operstate, OperState::Down);
    assert_eq!(s.timestamp, 1_700_000_000);
    let s = netwatch::collector::snapshot_from_parts("lo", None, 0, 0, OperState::Up, -5);
    assert!(s.mac.is_none());
}

#[test]
fn stat_lines_pad_labels() {
    assert_eq!(netwatch::screens::stat_text("Rate", "5 B/s"), format!("{:<16} {}", "Rate", "5 B/s"));
}

#[test]
fn a_name_listed_twice_is_removed_once() {
    let mut st = DaemonState::new();
    st.on_sample(&[snap("eth0", None, 1, 1, 10), snap("eth0", None, 2, 2, 10), snap("wlan0", None, 1, 1, 10)]);
    let ev = st.on_sample(&[snap("wlan0", None, 2, 2, 11)]);
    assert_eq!(ev.removed, vec!["eth0".to_string()]);
}
