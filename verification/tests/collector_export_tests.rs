use netwatch::collector::{snapshots_from_proc, sort_rows_by_name, SysfsCollector};
use netwatch::config::{Config, Units};
use netwatch::error::NetWatchError;
use netwatch::export::{custom_range, export_csv, export_markdown, parse_range_flag, RangeFlagError};
use netwatch::models::HistoryEntry;
use netwatch::time::TimeRange;
use netwatch::types::OperState;

const PROC: &str = "Inter-|   Receive                                                |  Transmit\n face |bytes    packets errs drop fifo frame compressed multicast|bytes    packets errs drop fifo colls carrier compressed\n  wlan0: 9000 10 0 0 0 0 0 0 7000 8 0 0 0 0 0 0\n    lo: 500 5 0 0 0 0 0 0 500 5 0 0 0 0 0 0\n  eth0: 1234 12 0 0 0 0 0 0 5678 9 0 0 0 0 0 0\ndocker0: 1 1 0 0 0 0 0 0 1 1 0 0 0 0 0 0\n";

#[test]
fn proc_net_dev_is_parsed_filtered_and_sorted() {
    let c = Config::default();
    let v = snapshots_from_proc(&c, PROC, 42).unwrap();
    let names: Vec<&str> = v.iter().map(|s| s.name.as_str()).collect();
    assert_eq!(names, vec!["eth0", "wlan0"]);
    assert_eq!((v[0].rx_bytes, v[0].tx_bytes), (1234, 5678));
    assert_eq!((v[1].rx_bytes, v[1].tx_bytes), (9000, 7000));
    assert!(v.iter().all(|s| s.mac.is_none() && s.operstate == OperState::Unknown && s.timestamp == 42));
}

#[test]
fn proc_net_dev_keeps_loopback_when_asked() {
    let mut c = Config::default();
    c.skip_loopback = false;
    c.ignore.clear();
    let v = snapshots_from_proc(&c, PROC, 0).unwrap();
    let names: Vec<&str> = v.iter().map(|s| s.name.as_str()).collect();
    assert_eq!(names, vec!["docker0", "eth0", "lo", "wlan0"]);
}

#[test]
fn proc_net_dev_header_only_and_short_lines() {
    let c = Config::default();
    assert!(snapshots_from_proc(&c, "", 0).unwrap().is_empty());
    assert!(snapshots_from_proc(&c, "a\nb\n", 0).unwrap().is_empty());
    // Fewer than sixteen counters: skipped. Blank lines: skipped.
    let text = "h1\nh2\n\n   \neth0: 1 2 3\r\n";
    assert!(snapshots_from_proc(&c, text, 0).unwrap().is_empty());
    // CRLF endings are accepted.
    let text = "h1\r\nh2\r\neth1: 7 0 0 0 0 0 0 0 8 0 0 0 0 0 0 0\r\n";
    let v = snapshots_from_proc(&c, text, 0).unwrap();
    assert_eq!((v[0].name.as_str(), v[0].rx_bytes, v[0].tx_bytes), ("eth1", 7, 8));
}

#[test]
fn proc_net_dev_errors() {
    let c = Config::default();
    match snapshots_from_proc(&c, "h1\nh2\neth0 1 2 3\n", 0) {
        Err(NetWatchError::Collection(m)) => assert_eq!(m, "invalid /proc/net/dev line"),
        other => panic!("unexpected {:?}", other),
    }
    match snapshots_from_proc(&c, "h1\nh2\n eth0 : x 0 0 0 0 0 0 0 8 0 0 0 0 0 0 0\n", 0) {
        Err(NetWatchError::Collection(m)) => assert_eq!(m, "invalid rx_bytes for eth0"),
        other => panic!("unexpected {:?}", other),
    }
    match snapshots_from_proc(&c, "h1\nh2\neth0: 1 0 0 0 0 0 0 0 -8 0 0 0 0 0 0 0\n", 0) {
        Err(NetWatchError::Collection(m)) => assert_eq!(m, "invalid tx_bytes for eth0"),
        other => panic!("unexpected {:?}", other),
    }
    // A counter beyond u64 does not parse; a leading '+' does.
    match snapshots_from_proc(&c, "h1\nh2\neth0: 18446744073709551616 0 0 0 0 0 0 0 8 0 0 0 0 0 0 0\n", 0) {
        Err(NetWatchError::Collection(m)) => assert_eq!(m, "invalid rx_bytes for eth0"),
        other => panic!("unexpected {:?}", other),
    }
    let v = snapshots_from_proc(&c, "h1\nh2\neth0: +18446744073709551615 0 0 0 0 0 0 0 8 0 0 0 0 0 0 0\n", 0).unwrap();
    assert_eq!(v[0].rx_bytes, u64::MAX);
}

#[test]
fn proc_net_dev_bad_pattern_is_reported() {
    let mut c = Config::default();
    c.ignore = vec!["***".to_string()];
    assert!(matches!(snapshots_from_proc(&c, PROC, 0), Err(NetWatchError::Config(_))));
}

#[test]
fn sorting_is_stable_by_name() {
    let v = vec![
        ("b".to_string(), 1, 0),
        ("a".to_string(), 2, 0),
        ("b".to_string(), 3, 0),
        ("ab".to_string(), 4, 0),
    ];
    let s = sort_rows_by_name(v);
    let got: Vec<(&str, u64)> = s.iter().map(|r| (r.0.as_str(), r.1)).collect();
    assert_eq!(got, vec![("a", 2), ("ab", 4), ("b", 1), ("b", 3)]);
}

#[test]
fn sysfs_collector_keeps_its_settings() {
    let c = Config::default();
    let s = SysfsCollector::new(&c, "/tmp/root");
    assert_eq!(s.root, "/tmp/root");
    assert_eq!(s.config.sample_interval, 1);
}

fn history() -> Vec<HistoryEntry> {
    vec![
        HistoryEntry { date: "2024-01-01".into(), download: 2048, upload: 1024, total: 3072, peak_download: 100, peak_upload: 50 },
        HistoryEntry { date: "2024-01-02".into(), download: 0, upload: 1, total: 1, peak_download: 0, peak_upload: 1 },
    ]
}

#[test]
fn csv_export() {
    let out = export_csv(&history(), Units::Bits);
    assert_eq!(
        out,
        "date,download,upload,total,peak_download,peak_upload\n2024-01-01,2048,1024,3072,100,50\n2024-01-02,0,1,1,0,1\n"
    );
    assert_eq!(export_csv(&[], Units::Auto), "date,download,upload,total,peak_download,peak_upload\n");
}

#[test]
fn markdown_export() {
    let out = export_markdown(&history()[..1], Units::Auto, &TimeRange::Today);
    assert_eq!(
        out,
        "# NetWatch Export\n\nRange: `Today`\n\n| Date | Download | Upload | Total | Peak DL | Peak UL |\n|------|----------|--------|-------|---------|---------|\n| 2024-01-01 | 2.00 KB | 1.00 KB | 3.00 KB | 100 B | 50 B |\n"
    );
    let out = export_markdown(&[], Units::Auto, &TimeRange::Custom { start: -5, end: 7 });
    assert!(out.contains("Range: `Custom { start: -5, end: 7 }`"));
    assert_eq!(out, format!("# NetWatch Export\n\nRange: `{:?}`\n\n| Date | Download | Upload | Total | Peak DL | Peak UL |\n|------|----------|--------|-------|---------|---------|\n", TimeRange::Custom { start: -5, end: 7 }));
}

#[test]
fn range_flags() {
    assert_eq!(parse_range_flag(true, true, Some("x")).unwrap(), TimeRange::Today);
    assert_eq!(parse_range_flag(false, true, Some("x")).unwrap(), TimeRange::CurrentMonth);
    assert_eq!(parse_range_flag(false, false, None).unwrap(), TimeRange::Last30Days);
    assert_eq!(
        parse_range_flag(false, false, Some("2024-01-01:2024-01-31")).unwrap(),
        TimeRange::Custom { start: 1_704_067_200, end: 1_706_745_599 }
    );
    match parse_range_flag(false, false, Some("2024-01-01:2024-01-01")).unwrap() {
        TimeRange::Custom { start, end } => assert_eq!(end - start, 86399),
        other => panic!("unexpected {:?}", other),
    }
}

#[test]
fn range_flag_errors() {
    assert!(matches!(parse_range_flag(false, false, Some("2024-01-01")), Err(RangeFlagError::Shape)));
    assert!(matches!(parse_range_flag(false, false, Some("a:b:c")), Err(RangeFlagError::Shape)));
    assert!(matches!(parse_range_flag(false, false, Some("2024-13-01:2024-01-02")), Err(RangeFlagError::Date(_))));
    assert!(matches!(parse_range_flag(false, false, Some("2024-01-01:tomorrow")), Err(RangeFlagError::Date(_))));
}

#[test]
fn custom_range_from_parsed_dates() {
    assert_eq!(custom_range(Ok(10), Ok(20)).unwrap(), TimeRange::Custom { start: 10, end: 20 });
    let bad = chrono::NaiveDate::parse_from_str("x", "%Y-%m-%d").unwrap_err();
    assert!(matches!(custom_range(Err(bad), Ok(1)), Err(RangeFlagError::Date(_))));
    assert!(matches!(custom_range(Ok(1), Err(bad)), Err(RangeFlagError::Date(_))));
}
