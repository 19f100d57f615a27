use trouble_host::scan::{AdvertisingReport, ExtAdvertisingReport, ReportError, ScanReport};

fn standard(event_kind: u8, addr: [u8; 6], data: &[u8], rssi: u8) -> Vec<u8> {
    let mut v = vec![event_kind, 1];
    v.extend_from_slice(&addr);
    v.push(data.len() as u8);
    v.extend_from_slice(data);
    v.push(rssi);
    v
}

fn extended(secondary_phy: u8, data: &[u8]) -> Vec<u8> {
    let mut v = vec![0x13, 0x00, 1, 1, 2, 3, 4, 5, 6, 1, secondary_phy, 7, 0xF4, 0xC4, 0x20, 0x03, 0];
    v.extend_from_slice(&[9, 8, 7, 6, 5, 4]);
    v.push(data.len() as u8);
    v.extend_from_slice(data);
    v
}

#[test]
fn standard_batch_yields_each_report_then_none() {
    let mut bytes = standard(0, [1, 2, 3, 4, 5, 6], &[0xAA, 0xBB], 0xC4);
    bytes.extend_from_slice(&standard(4, [6, 5, 4, 3, 2, 1], &[], 0x10));
    let report = ScanReport::new(2, &bytes);
    let mut it = report.iter();
    assert_eq!(it.len(), 2);
    assert_eq!(it.size_hint(), (2, Some(2)));
    assert_eq!(
        it.next(),
        Some(Ok(AdvertisingReport {
            event_kind: 0,
            addr_kind: 1,
            addr: [1, 2, 3, 4, 5, 6],
            data: &[0xAA, 0xBB],
            rssi: -60,
        }))
    );
    assert_eq!(it.len(), 1);
    assert_eq!(
        it.next(),
        Some(Ok(AdvertisingReport {
            event_kind: 4,
            addr_kind: 1,
            addr: [6, 5, 4, 3, 2, 1],
            data: &[],
            rssi: 16,
        }))
    );
    assert_eq!(it.len(), 0);
    assert_eq!(it.next(), None);
    assert_eq!(it.next(), None);
}

#[test]
fn extended_batch_yields_each_report_then_none() {
    let mut bytes = extended(0, &[1, 2, 3]);
    bytes.extend_from_slice(&extended(2, &[]));
    let report = ScanReport::new(2, &bytes);
    let mut it = report.iter_ext();
    assert_eq!(it.len(), 2);
    assert_eq!(
        it.next(),
        Some(Ok(ExtAdvertisingReport {
            event_kind: 0x0013,
            addr_kind: 1,
            addr: [1, 2, 3, 4, 5, 6],
            primary_adv_phy: 1,
            secondary_adv_phy: None,
            adv_sid: 7,
            tx_power: -12,
            rssi: -60,
            adv_interval: 0x0320,
            direct_addr_kind: 0,
            direct_addr: [9, 8, 7, 6, 5, 4],
            data: &[1, 2, 3],
        }))
    );
    assert_eq!(it.len(), 1);
    let second = it.next().unwrap().unwrap();
    assert_eq!(second.secondary_adv_phy, Some(2));
    assert_eq!(second.data, &[] as &[u8]);
    assert_eq!(it.len(), 0);
    assert_eq!(it.next(), None);
}

#[test]
fn ten_bytes_ending_in_a_phy_are_too_short() {
    let bytes = extended(0, &[]);
    let report = ScanReport::new(1, &bytes[..10]);
    let mut it = report.iter_ext();
    assert_eq!(it.next(), Some(Err(ReportError::InvalidSize)));
    assert_eq!(it.next(), None);
}

#[test]
fn count_is_only_an_upper_bound() {
    let bytes = standard(1, [1; 6], &[5], 0);
    let report = ScanReport::new(3, &bytes);
    let mut it = report.iter();
    assert_eq!(it.len(), 3);
    assert!(matches!(it.next(), Some(Ok(_))));
    assert_eq!(it.len(), 2);
    assert_eq!(it.next(), Some(Err(ReportError::InvalidSize)));
    assert_eq!(it.len(), 0);
    assert_eq!(it.size_hint(), (0, Some(0)));
    assert_eq!(it.next(), None);
    assert_eq!(it.next(), None);
}

#[test]
fn reports_behind_the_declared_count_are_not_read() {
    let mut bytes = standard(1, [1; 6], &[5], 0);
    bytes.extend_from_slice(&standard(2, [2; 6], &[], 0));
    let report = ScanReport::new(1, &bytes);
    let mut it = report.iter();
    assert!(matches!(it.next(), Some(Ok(_))));
    assert_eq!(it.next(), None);
    let none = ScanReport::new(0, &bytes);
    assert_eq!(none.iter().next(), None);
    assert_eq!(none.iter_ext().next(), None);
}

#[test]
fn corrupt_standard_report_ends_the_pass() {
    let mut bytes = standard(0, [1; 6], &[1, 2], 0);
    bytes.extend_from_slice(&standard(5, [2; 6], &[], 0));
    bytes.extend_from_slice(&standard(0, [3; 6], &[], 0));
    let report = ScanReport::new(3, &bytes);
    let mut it = report.iter();
    assert!(matches!(it.next(), Some(Ok(_))));
    assert_eq!(it.next(), Some(Err(ReportError::InvalidValue)));
    assert_eq!(it.len(), 0);
    assert_eq!(it.next(), None);
    assert_eq!(it.next(), None);
}

#[test]
fn standard_report_cut_short_at_any_place_is_an_error() {
    let bytes = standard(3, [1, 2, 3, 4, 5, 6], &[7, 8, 9], 0x80);
    for n in 0..bytes.len() {
        let report = ScanReport::new(1, &bytes[..n]);
        let mut it = report.iter();
        assert_eq!(it.next(), Some(Err(ReportError::InvalidSize)));
        assert_eq!(it.next(), None);
    }
    let report = ScanReport::new(1, &bytes);
    assert_eq!(report.iter().next().unwrap().unwrap().rssi, -128);
}

#[test]
fn extended_report_cut_short_at_any_place_is_an_error() {
    let bytes = extended(3, &[7, 8, 9]);
    for n in 0..bytes.len() {
        let report = ScanReport::new(1, &bytes[..n]);
        let mut it = report.iter_ext();
        assert_eq!(it.next(), Some(Err(ReportError::InvalidSize)));
        assert_eq!(it.len(), 0);
        assert_eq!(it.next(), None);
    }
}

#[test]
fn extended_report_with_an_unknown_phy_is_an_error() {
    let mut bytes = extended(1, &[]);
    bytes[9] = 0;
    assert_eq!(ScanReport::new(1, &bytes).iter_ext().next(), Some(Err(ReportError::InvalidValue)));
    bytes[9] = 5;
    assert_eq!(ScanReport::new(1, &bytes).iter_ext().next(), Some(Err(ReportError::InvalidValue)));
    // ten bytes that end in no PHY hold a wrong value
    assert_eq!(
        ScanReport::new(1, &bytes[..10]).iter_ext().next(),
        Some(Err(ReportError::InvalidValue))
    );
    bytes[9] = 4;
    bytes[10] = 5;
    assert_eq!(ScanReport::new(1, &bytes).iter_ext().next(), Some(Err(ReportError::InvalidValue)));
    bytes[10] = 4;
    assert_eq!(
        ScanReport::new(1, &bytes).iter_ext().next().unwrap().unwrap().secondary_adv_phy,
        Some(4)
    );
}

#[test]
fn corrupt_extended_report_ends_the_pass() {
    let mut bytes = extended(0, &[1]);
    let mut bad = extended(0, &[]);
    bad[9] = 9;
    bytes.extend_from_slice(&bad);
    bytes.extend_from_slice(&extended(0, &[]));
    let report = ScanReport::new(3, &bytes);
    let mut it = report.iter_ext();
    assert_eq!(it.len(), 3);
    assert!(matches!(it.next(), Some(Ok(_))));
    assert_eq!(it.len(), 2);
    assert_eq!(it.next(), Some(Err(ReportError::InvalidValue)));
    assert_eq!(it.len(), 0);
    assert_eq!(it.next(), None);
    assert_eq!(it.next(), None);
}

#[test]
fn each_pass_starts_at_the_front() {
    let mut bytes = standard(0, [1; 6], &[1, 2], 0);
    bytes.extend_from_slice(&standard(1, [2; 6], &[], 0));
    let report = ScanReport::new(2, &bytes);
    let mut first = report.iter();
    assert!(first.next().is_some());
    assert!(first.next().is_some());
    assert_eq!(first.next(), None);
    let mut second = report.iter();
    assert_eq!(second.len(), 2);
    assert_eq!(second.next().unwrap().unwrap().addr, [1; 6]);
    assert_eq!(second.next().unwrap().unwrap().addr, [2; 6]);
}

#[test]
fn a_batch_holds_up_to_255_bytes() {
    let mut bytes = Vec::new();
    for _ in 0..15 {
        bytes.extend_from_slice(&standard(0, [1; 6], &[0; 7], 0));
    }
    assert_eq!(bytes.len(), 255);
    let report = ScanReport::new(15, &bytes);
    let mut it = report.iter();
    let mut n = 0;
    while let Some(item) = it.next() {
        assert_eq!(item.unwrap().data, &[0; 7]);
        n += 1;
    }
    assert_eq!(n, 15);
}
