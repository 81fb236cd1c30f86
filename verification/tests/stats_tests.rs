use netwatch::config::Units;
use netwatch::stats::{
    compute_rate, compute_samples, format_bits, format_bytes, format_rate, format_size,
    PreviousSample, PreviousSamples,
};
use netwatch::types::{AlertKind, InterfaceSnapshot, OperState};

fn snap(name: &str, rx: u64, tx: u64, ts: i64) -> InterfaceSnapshot {
    InterfaceSnapshot {
        name: name.to_string(),
        mac: None,
        rx_bytes: rx,
        tx_bytes: tx,
        operstate: OperState::Up,
        timestamp: ts,
    }
}

#[test]
fn first_reading_has_no_rate() {
    let r = compute_rate(None, &snap("eth0", 5000, 7000, 100));
    assert_eq!((r.rx_rate, r.tx_rate, r.anomaly), (0, 0, None));
}

#[test]
fn rate_is_delta_over_elapsed_seconds() {
    let p = PreviousSample { ts: 100, rx_bytes: 1000, tx_bytes: 500 };
    let r = compute_rate(Some(&p), &snap("eth0", 2000, 800, 110));
    assert_eq!((r.rx_rate, r.tx_rate, r.anomaly), (100, 30, None));
}

#[test]
fn same_second_divides_by_one() {
    let p = PreviousSample { ts: 100, rx_bytes: 1000, tx_bytes: 500 };
    let r = compute_rate(Some(&p), &snap("eth0", 1300, 600, 100));
    assert_eq!((r.rx_rate, r.tx_rate, r.anomaly), (300, 100, None));
}

#[test]
fn clock_going_back_is_a_clock_jump() {
    let p = PreviousSample { ts: 100, rx_bytes: 1000, tx_bytes: 500 };
    let r = compute_rate(Some(&p), &snap("eth0", 9000, 9000, 99));
    assert_eq!((r.rx_rate, r.tx_rate, r.anomaly), (0, 0, Some(AlertKind::ClockJump)));
}

#[test]
fn counter_reset_counts_new_value_as_overflow() {
    let p = PreviousSample { ts: 100, rx_bytes: 1000, tx_bytes: 500 };
    let r = compute_rate(Some(&p), &snap("eth0", 200, 700, 102));
    assert_eq!((r.rx_rate, r.tx_rate, r.anomaly), (100, 100, Some(AlertKind::CounterOverflow)));
    let r = compute_rate(Some(&p), &snap("eth0", 1200, 100, 102));
    assert_eq!((r.rx_rate, r.tx_rate, r.anomaly), (100, 50, Some(AlertKind::CounterOverflow)));
}

#[test]
fn previous_sample_default_is_zero() {
    assert_eq!(PreviousSample::default(), PreviousSample { ts: 0, rx_bytes: 0, tx_bytes: 0 });
}

#[test]
fn previous_samples_map_insert_and_get() {
    let mut m = PreviousSamples::new();
    let a = "eth0".to_string();
    assert_eq!(m.get(&a), None);
    m.insert(a.clone(), PreviousSample { ts: 1, rx_bytes: 2, tx_bytes: 3 });
    m.insert("wlan0".to_string(), PreviousSample { ts: 4, rx_bytes: 5, tx_bytes: 6 });
    m.insert(a.clone(), PreviousSample { ts: 7, rx_bytes: 8, tx_bytes: 9 });
    assert_eq!(m.get(&a), Some(PreviousSample { ts: 7, rx_bytes: 8, tx_bytes: 9 }));
    assert_eq!(
        m.get(&"wlan0".to_string()),
        Some(PreviousSample { ts: 4, rx_bytes: 5, tx_bytes: 6 })
    );
}

#[test]
fn samples_use_and_update_previous_readings() {
    let mut prev = PreviousSamples::new();
    let first = compute_samples(&[snap("eth0", 1000, 100, 10), snap("wlan0", 50, 5, 10)], &mut prev);
    assert_eq!(first.len(), 2);
    assert_eq!((first[0].rx_rate, first[0].anomaly), (0, None));
    assert_eq!(first[1].interface, "wlan0");
    let second = compute_samples(&[snap("eth0", 3000, 300, 20)], &mut prev);
    assert_eq!((second[0].rx_rate, second[0].tx_rate), (200, 20));
    assert_eq!(second[0].ts, 20);
    assert_eq!(second[0].rx_bytes, 3000);
    assert_eq!(
        prev.get(&"eth0".to_string()),
        Some(PreviousSample { ts: 20, rx_bytes: 3000, tx_bytes: 300 })
    );
    assert_eq!(
        prev.get(&"wlan0".to_string()),
        Some(PreviousSample { ts: 10, rx_bytes: 50, tx_bytes: 5 })
    );
}

#[test]
fn repeated_interface_in_one_batch_uses_the_earlier_entry() {
    let mut prev = PreviousSamples::new();
    let out = compute_samples(&[snap("eth0", 100, 0, 1), snap("eth0", 400, 0, 4)], &mut prev);
    assert_eq!(out[1].rx_rate, 100);
    assert_eq!(
        prev.get(&"eth0".to_string()),
        Some(PreviousSample { ts: 4, rx_bytes: 400, tx_bytes: 0 })
    );
}

#[test]
fn sizes_in_binary_units() {
    assert_eq!(format_size(0), "0 B");
    assert_eq!(format_size(1023), "1023 B");
    assert_eq!(format_size(1024), "1.00 KB");
    assert_eq!(format_size(1536), "1.50 KB");
    assert_eq!(format_size(5 * 1024 * 1024 + 1024 * 1024 / 4), "5.25 MB");
    assert_eq!(format_size(u64::MAX), "15.99 EB");
}

#[test]
fn bits_in_decimal_units() {
    assert_eq!(format_bits(999), "999 b");
    assert_eq!(format_bits(1000), "1.00 Kb");
    assert_eq!(format_bits(2_500_000), "2.50 Mb");
}

#[test]
fn bytes_in_chosen_units() {
    assert_eq!(format_bytes(1000, Units::Bits), "8.00 Kb");
    // Bytes always shows megabytes; automatic units pick the unit.
    assert_eq!(format_bytes(1536, Units::Bytes), "0.00 MB");
    assert_eq!(format_bytes(1_572_864, Units::Bytes), "1.50 MB");
    assert_eq!(format_bytes(5 * 1024 * 1024 * 1024, Units::Bytes), "5120.00 MB");
    assert_eq!(format_bytes(5 * 1024 * 1024 * 1024, Units::Auto), "5.00 GB");
    assert_eq!(format_rate(2048, Units::Bytes), "2048 B/s");
    assert_eq!(format_rate(2048, Units::Bits), "16.38 Kb/s");
    assert_eq!(format_bytes(1536, Units::Auto), "1.50 KB");
    // Eight times the value saturates.
    assert_eq!(format_bytes(u64::MAX, Units::Bits), format_bits(u64::MAX));
    assert_eq!(format_rate(2048, Units::Auto), "2.00 KB/s");
}
