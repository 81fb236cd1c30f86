use netwatch::config::{Config, Units};
use netwatch::error::NetWatchError;
use netwatch::time::{TimeRange, MAX_UTC_TIMESTAMP, MIN_UTC_TIMESTAMP};
use netwatch::types::{AlertKind, OperState};

const NOW: i64 = 1_700_000_000; // 2023-11-14 22:13:20 UTC

#[test]
fn oper_state_reads_any_case_and_whitespace() {
    assert_eq!(OperState::from_str("up"), OperState::Up);
    assert_eq!(OperState::from_str("  UP\n"), OperState::Up);
    assert_eq!(OperState::from_str("Down"), OperState::Down);
    assert_eq!(OperState::from_str("dormant"), OperState::Unknown);
    assert_eq!(OperState::from_str(""), OperState::Unknown);
    assert_eq!(OperState::from_str("u p"), OperState::Unknown);
}

#[test]
fn oper_state_round_trip() {
    for s in [OperState::Up, OperState::Down, OperState::Unknown] {
        assert_eq!(OperState::from_str(s.as_str()), s);
    }
    assert_eq!(OperState::Up.as_str(), "UP");
    assert_eq!(OperState::Down.as_str(), "DOWN");
    assert_eq!(OperState::Unknown.as_str(), "UNKNOWN");
}

#[test]
fn alert_kind_names() {
    assert_eq!(AlertKind::DatabaseCorruption.as_str(), "database_corruption");
    assert_eq!(AlertKind::InterfaceRemoved.as_str(), "interface_removed");
    assert_eq!(AlertKind::CounterOverflow.as_str(), "counter_overflow");
    assert_eq!(AlertKind::ClockJump.as_str(), "clock_jump");
}

#[test]
fn bounds_of_day_ranges() {
    assert_eq!(TimeRange::Today.bounds(NOW), (1_699_920_000, NOW));
    assert_eq!(TimeRange::Yesterday.bounds(NOW), (1_699_833_600, 1_699_920_000));
    assert_eq!(TimeRange::Last7Days.bounds(NOW), (NOW - 7 * 86400, NOW));
    assert_eq!(TimeRange::Last30Days.bounds(NOW), (NOW - 30 * 86400, NOW));
}

#[test]
fn bounds_of_calendar_ranges() {
    assert_eq!(TimeRange::CurrentMonth.bounds(NOW), (1_698_796_800, NOW));
    assert_eq!(TimeRange::PreviousMonth.bounds(NOW), (1_696_118_400, 1_698_796_800));
    assert_eq!(TimeRange::ThisYear.bounds(NOW), (1_672_531_200, NOW));
    // March 2024 follows a leap February.
    assert_eq!(TimeRange::PreviousMonth.bounds(1_709_251_200), (1_706_745_600, 1_709_251_200));
}

#[test]
fn bounds_of_custom_ranges() {
    let r = TimeRange::Custom { start: 10, end: 20 };
    assert_eq!(r.bounds(NOW), (10, 20));
    let r = TimeRange::Custom { start: i64::MAX, end: i64::MIN };
    assert_eq!(r.bounds(NOW), (NOW, NOW));
    let r = TimeRange::Custom { start: MIN_UTC_TIMESTAMP, end: MAX_UTC_TIMESTAMP };
    assert_eq!(r.bounds(NOW), (MIN_UTC_TIMESTAMP, MAX_UTC_TIMESTAMP));
    let r = TimeRange::Custom { start: MIN_UTC_TIMESTAMP - 1, end: MAX_UTC_TIMESTAMP + 1 };
    assert_eq!(r.bounds(NOW), (NOW, NOW));
}

#[test]
fn bounds_are_ordered() {
    for r in [
        TimeRange::Today,
        TimeRange::Yesterday,
        TimeRange::Last7Days,
        TimeRange::Last30Days,
        TimeRange::CurrentMonth,
        TimeRange::PreviousMonth,
        TimeRange::ThisYear,
    ] {
        for now in [0i64, 86399, 1_700_000_000, -1] {
            let (s, e) = r.bounds(now);
            assert!(s <= e && e <= now);
        }
    }
}

#[test]
fn default_config_matches_documented_defaults() {
    let c = Config::default();
    assert_eq!(c.sample_interval, 1);
    assert_eq!(c.database, "~/.local/share/netwatch/netwatch.db");
    assert_eq!(c.ignore, vec!["docker*".to_string(), "virbr*".to_string(), "veth*".to_string()]);
    assert_eq!(c.theme, "default");
    assert_eq!(c.units, Units::Auto);
    assert_eq!(c.history_days, 365);
    assert_eq!(c.batch_write_interval, 5);
    assert!(c.skip_loopback);
    assert_eq!(Units::default(), Units::Auto);
}

#[test]
fn ignore_patterns_and_loopback() {
    let c = Config::default();
    assert!(c.should_ignore("docker0").unwrap());
    assert!(c.should_ignore("veth12ab").unwrap());
    assert!(c.should_ignore("lo").unwrap());
    assert!(!c.should_ignore("eth0").unwrap());
    assert!(!c.should_ignore("lo0").unwrap());
    let mut c2 = Config::default();
    c2.skip_loopback = false;
    assert!(!c2.should_ignore("lo").unwrap());
}

#[test]
fn invalid_ignore_pattern_is_a_config_error() {
    let mut c = Config::default();
    c.ignore = vec!["a***".to_string()];
    match c.should_ignore("eth0") {
        Err(NetWatchError::Config(m)) => assert!(!m.is_empty()),
        other => panic!("unexpected {:?}", other),
    }
    // The loopback rule is checked before the patterns.
    assert!(c.should_ignore("lo").unwrap());
}

#[test]
fn database_path_expands_home() {
    let c = Config::default();
    assert_eq!(c.database_path_in("/home/u"), "/home/u/.local/share/netwatch/netwatch.db");
    let mut c2 = Config::default();
    c2.database = "/var/lib/nw.db".to_string();
    assert_eq!(c2.database_path_in("/home/u"), "/var/lib/nw.db");
}

#[test]
fn config_clone_keeps_every_setting() {
    let mut c = Config::default();
    c.units = Units::Bits;
    c.ignore.push("wg*".to_string());
    let d = c.clone();
    assert_eq!(d.units, Units::Bits);
    assert_eq!(d.ignore, c.ignore);
    assert_eq!(d.database, c.database);
}
