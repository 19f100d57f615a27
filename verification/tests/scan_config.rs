use trouble_host::scan::{Duration, PhySet, ScanConfig};

#[test]
fn default_config_scans_actively_on_1m_every_second() {
    let config = ScanConfig::default();
    assert!(config.active);
    assert!(config.filter_accept_list.is_empty());
    assert_eq!(config.phys, PhySet::M1);
    assert_eq!(config.interval, Duration::from_secs(1));
    assert_eq!(config.interval.as_micros(), 1_000_000);
    assert_eq!(config.window.as_secs(), 1);
    assert_eq!(config.timeout.as_micros(), 0);
}

#[test]
fn phy_sets_are_bit_masks() {
    assert_eq!(PhySet::M1.bits(), 1);
    assert_eq!(PhySet::M2.bits(), 2);
    assert_eq!(PhySet::M1M2.bits(), 3);
    assert_eq!(PhySet::Coded.bits(), 4);
    assert_eq!(PhySet::M1Coded.bits(), 5);
    assert_eq!(PhySet::M2Coded.bits(), 6);
    assert_eq!(PhySet::M1M2Coded.bits(), 7);
}

#[test]
fn durations_count_microseconds() {
    assert_eq!(Duration::from_secs(3).as_micros(), 3_000_000);
    assert_eq!(Duration::from_micros(2_999_999).as_secs(), 2);
    assert_eq!(Duration::from_secs(Duration::MAX_SECS).as_secs(), Duration::MAX_SECS);
}
