//! Scan configuration and the decoding of batched advertising reports.
//!
//! A batch is a count of reports and a buffer of at most 255 bytes. The
//! reports lie back to back in the buffer; each one says how long it is. The
//! count is an upper bound only: the buffer may end, or stop making sense,
//! before that many reports were read.

use crate::wire::from_le16;
use bt_hci::param::{AddrKind, BdAddr, LeAdvReport, LeExtAdvReport};
use bt_hci::{FromHciBytes, FromHciBytesError};
use vstd::prelude::*;

verus! {

/// `heapless::Vec`: a vector of fixed capacity that lives where its owner
/// does.
#[verifier::external_type_specification]
#[verifier::external_body]
#[verifier::reject_recursive_types(T)]
pub struct ExHeaplessVec<T, const N: usize>(heapless::Vec<T, N>);

/// `bt_hci::param::AddrKind`: the kind of a device address. The
/// configuration carries it and never looks into it.
#[verifier::external_type_specification]
#[verifier::external_body]
pub struct ExAddrKind(AddrKind);

/// `bt_hci::param::BdAddr`: a device address, carried likewise.
#[verifier::external_type_specification]
#[verifier::external_body]
pub struct ExBdAddr(BdAddr);

/// A span of time in whole microseconds.
#[derive(Clone, Copy, Debug, PartialEq, Eq, Structural)]
pub struct Duration {
    micros: u64,
}

impl Duration {
    /// The largest number of seconds that a `Duration` can express.
    pub const MAX_SECS: u64 = 18_446_744_073_709;

    /// The span in microseconds.
    pub closed spec fn micros(&self) -> nat {
        self.micros as nat
    }

    /// The span of `micros` microseconds.
    pub fn from_micros(micros: u64) -> (d: Self)
        ensures
            d.micros() == micros,
    {
        Duration { micros }
    }

    /// The span of `secs` seconds.
    pub fn from_secs(secs: u64) -> (d: Self)
        requires
            secs <= Self::MAX_SECS,
        ensures
            d.micros() == secs * 1_000_000,
    {
        Duration { micros: secs * 1_000_000 }
    }

    /// The span in microseconds.
    pub fn as_micros(&self) -> (micros: u64)
        ensures
            micros == self.micros(),
    {
        self.micros
    }

    /// Whole seconds, rounding down.
    pub fn as_secs(&self) -> (secs: u64)
        ensures
            secs == self.micros() / 1_000_000,
    {
        self.micros / 1_000_000
    }
}

/// PHYs to scan on.
#[derive(Clone, Copy, Debug, PartialEq, Eq, Structural)]
pub enum PhySet {
    /// 1Mbps phy
    M1,
    /// 2Mbps phy
    M2,
    /// 1Mbps + 2Mbps phys
    M1M2,
    /// Coded phy (125kbps, S=8)
    Coded,
    /// 1Mbps and Coded phys
    M1Coded,
    /// 2Mbps and Coded phys
    M2Coded,
    /// 1Mbps, 2Mbps and Coded phys
    M1M2Coded,
}

impl PhySet {
    /// The set as a bit mask: bit 0 for 1Mbps, bit 1 for 2Mbps, bit 2 for
    /// Coded.
    pub open spec fn mask(&self) -> u8 {
        match self {
            PhySet::M1 => 1,
            PhySet::M2 => 2,
            PhySet::M1M2 => 3,
            PhySet::Coded => 4,
            PhySet::M1Coded => 5,
            PhySet::M2Coded => 6,
            PhySet::M1M2Coded => 7,
        }
    }

    /// The set as a bit mask.
    pub fn bits(&self) -> (b: u8)
        ensures
            b == self.mask(),
    {
        match self {
            PhySet::M1 => 1,
            PhySet::M2 => 2,
            PhySet::M1M2 => 3,
            PhySet::Coded => 4,
            PhySet::M1Coded => 5,
            PhySet::M2Coded => 6,
            PhySet::M1M2Coded => 7,
        }
    }
}

/// Scanner configuration.
pub struct ScanConfig<'d> {
    /// Active scanning.
    pub active: bool,
    /// List of addresses to accept.
    pub filter_accept_list: &'d [(AddrKind, &'d BdAddr)],
    /// PHYs to scan on.
    pub phys: PhySet,
    /// Scan interval.
    pub interval: Duration,
    /// Scan window.
    pub window: Duration,
    /// Scan timeout.
    pub timeout: Duration,
}

impl Default for ScanConfig<'_> {
    /// Active scanning of every address on the 1Mbps PHY, with an interval
    /// and a window of one second and no timeout.
    fn default() -> (c: Self)
        ensures
            c.active,
            c.filter_accept_list@.len() == 0,
            c.phys == PhySet::M1,
            c.interval.micros() == 1_000_000,
            c.window.micros() == 1_000_000,
            c.timeout.micros() == 0,
    {
        Self {
            active: true,
            filter_accept_list: &[],
            phys: PhySet::M1,
            interval: Duration::from_secs(1),
            window: Duration::from_secs(1),
            timeout: Duration::from_secs(0),
        }
    }
}

/// Why a report could not be read.
#[derive(Clone, Copy, Debug, PartialEq, Eq, Structural)]
pub enum ReportError {
    /// The bytes end before the report does.
    InvalidSize,
    /// A field holds a value that the format does not know.
    InvalidValue,
}

/// One advertising report of the standard format, borrowed from the batch.
#[derive(Clone, Copy, Debug, PartialEq, Eq)]
pub struct AdvertisingReport<'a> {
    pub event_kind: u8,
    pub addr_kind: u8,
    pub addr: [u8; 6],
    pub data: &'a [u8],
    pub rssi: i8,
}

/// What a standard report holds, as the contracts speak of it.
pub struct AdvertisingReportView {
    pub event_kind: u8,
    pub addr_kind: u8,
    pub addr: Seq<u8>,
    pub data: Seq<u8>,
    pub rssi: i8,
}

impl View for AdvertisingReport<'_> {
    type V = AdvertisingReportView;

    open spec fn view(&self) -> AdvertisingReportView {
        AdvertisingReportView {
            event_kind: self.event_kind,
            addr_kind: self.addr_kind,
            addr: self.addr@,
            data: self.data@,
            rssi: self.rssi,
        }
    }
}

/// One advertising report of the extended format, borrowed from the batch.
#[derive(Clone, Copy, Debug, PartialEq, Eq)]
pub struct ExtAdvertisingReport<'a> {
    pub event_kind: u16,
    pub addr_kind: u8,
    pub addr: [u8; 6],
    pub primary_adv_phy: u8,
    pub secondary_adv_phy: Option<u8>,
    pub adv_sid: u8,
    pub tx_power: i8,
    pub rssi: i8,
    pub adv_interval: u16,
    pub direct_addr_kind: u8,
    pub direct_addr: [u8; 6],
    pub data: &'a [u8],
}

/// What an extended report holds, as the contracts speak of it.
pub struct ExtAdvertisingReportView {
    pub event_kind: u16,
    pub addr_kind: u8,
    pub addr: Seq<u8>,
    pub primary_adv_phy: u8,
    pub secondary_adv_phy: Option<u8>,
    pub adv_sid: u8,
    pub tx_power: i8,
    pub rssi: i8,
    pub adv_interval: u16,
    pub direct_addr_kind: u8,
    pub direct_addr: Seq<u8>,
    pub data: Seq<u8>,
}

impl View for ExtAdvertisingReport<'_> {
    type V = ExtAdvertisingReportView;

    open spec fn view(&self) -> ExtAdvertisingReportView {
        ExtAdvertisingReportView {
            event_kind: self.event_kind,
            addr_kind: self.addr_kind,
            addr: self.addr@,
            primary_adv_phy: self.primary_adv_phy,
            secondary_adv_phy: self.secondary_adv_phy,
            adv_sid: self.adv_sid,
            tx_power: self.tx_power,
            rssi: self.rssi,
            adv_interval: self.adv_interval,
            direct_addr_kind: self.direct_addr_kind,
            direct_addr: self.direct_addr@,
            data: self.data@,
        }
    }
}

/// The byte `b` read as a signed number in two's complement.
pub open spec fn signed(b: u8) -> i8 {
    if b < 128 {
        b as i8
    } else {
        (b as int - 256) as i8
    }
}

/// The largest event kind of the standard format.
pub const MAX_EVENT_KIND: u8 = 4;

/// Whether `b` names a PHY.
pub open spec fn is_phy(b: u8) -> bool {
    1 <= b <= 4
}

/// The standard report at the front of `s` and its length in bytes.
///
/// Layout: event kind (1 byte, at most 4), address kind (1), address (6),
/// data length `n` (1), data (`n`), RSSI (1, signed).
pub open spec fn adv_report_decoding(s: Seq<u8>) -> Result<(AdvertisingReportView, nat), ReportError> {
    if s.len() < 1 {
        Err(ReportError::InvalidSize)
    } else if s[0] > MAX_EVENT_KIND {
        Err(ReportError::InvalidValue)
    } else if s.len() < 9 || s.len() < 10 + s[8] {
        Err(ReportError::InvalidSize)
    } else {
        Ok(
            (
                AdvertisingReportView {
                    event_kind: s[0],
                    addr_kind: s[1],
                    addr: s.subrange(2, 8),
                    data: s.subrange(9, 9 + s[8]),
                    rssi: signed(s[9 + s[8]]),
                },
                (10 + s[8]) as nat,
            ),
        )
    }
}

/// The extended report at the front of `s` and its length in bytes.
///
/// Layout: event kind (2 bytes, little-endian), address kind (1), address
/// (6), primary PHY (1, a PHY), secondary PHY (1, a PHY or 0 for none),
/// advertising set id (1), TX power (1, signed), RSSI (1, signed), interval
/// (2, little-endian), direct address kind (1), direct address (6), data
/// length `n` (1), data (`n`).
pub open spec fn ext_report_decoding(s: Seq<u8>) -> Result<
    (ExtAdvertisingReportView, nat),
    ReportError,
> {
    if s.len() < 10 {
        Err(ReportError::InvalidSize)
    } else if !is_phy(s[9]) {
        Err(ReportError::InvalidValue)
    } else if s.len() == 10 {
        Err(ReportError::InvalidSize)
    } else if s[10] != 0 && !is_phy(s[10]) {
        Err(ReportError::InvalidValue)
    } else if s.len() < 24 || s.len() < 24 + s[23] {
        Err(ReportError::InvalidSize)
    } else {
        Ok(
            (
                ExtAdvertisingReportView {
                    event_kind: from_le16(s[0], s[1]),
                    addr_kind: s[2],
                    addr: s.subrange(3, 9),
                    primary_adv_phy: s[9],
                    secondary_adv_phy: if s[10] == 0 {
                        None
                    } else {
                        Some(s[10])
                    },
                    adv_sid: s[11],
                    tx_power: signed(s[12]),
                    rssi: signed(s[13]),
                    adv_interval: from_le16(s[14], s[15]),
                    direct_addr_kind: s[16],
                    direct_addr: s.subrange(17, 23),
                    data: s.subrange(24, 24 + s[23]),
                },
                (24 + s[23]) as nat,
            ),
        )
    }
}

/// Whether `r` is what reading a standard report from `data` gives: the
/// report and the bytes behind it, or the error.
pub open spec fn is_adv_parse(
    r: Result<(AdvertisingReport<'_>, &[u8]), ReportError>,
    data: Seq<u8>,
) -> bool {
    match adv_report_decoding(data) {
        Ok((report, used)) => r is Ok && r->Ok_0.0@ == report && r->Ok_0.1@ == data.skip(
            used as int,
        ),
        Err(e) => r is Err && r->Err_0 == e,
    }
}

/// Whether `r` is what reading an extended report from `data` gives.
pub open spec fn is_ext_parse(
    r: Result<(ExtAdvertisingReport<'_>, &[u8]), ReportError>,
    data: Seq<u8>,
) -> bool {
    match ext_report_decoding(data) {
        Ok((report, used)) => r is Ok && r->Ok_0.0@ == report && r->Ok_0.1@ == data.skip(
            used as int,
        ),
        Err(e) => r is Err && r->Err_0 == e,
    }
}

/// `LeAdvReport::from_hci_bytes`: reads the fields of one standard report in
/// order from the front of `data` and hands out the bytes behind it. It fails
/// with `InvalidSize` where the bytes end too early and with `InvalidValue`
/// on an event kind above 4.
#[verifier::external_body]
fn parse_adv_report<'a>(data: &'a [u8]) -> (r: Result<(AdvertisingReport<'a>, &'a [u8]), ReportError>)
    ensures
        is_adv_parse(r, data@),
{
    match LeAdvReport::from_hci_bytes(data) {
        Ok((r, rest)) => Ok((
            AdvertisingReport {
                event_kind: r.event_kind as u8,
                addr_kind: r.addr_kind.0,
                addr: r.addr.0,
                data: r.data,
                rssi: r.rssi,
            },
            rest,
        )),
        Err(FromHciBytesError::InvalidSize) => Err(ReportError::InvalidSize),
        Err(FromHciBytesError::InvalidValue) => Err(ReportError::InvalidValue),
    }
}

/// `LeExtAdvReport::from_hci_bytes`: reads the fields of one extended report
/// in order from the front of `data` and hands out the bytes behind it. It
/// fails with `InvalidSize` where the bytes end too early and with
/// `InvalidValue` on a PHY that is not one. It indexes past the end of ten
/// bytes that end in a primary PHY, so those are left out.
#[verifier::external_body]
fn parse_ext_adv_report<'a>(data: &'a [u8]) -> (r: Result<
    (ExtAdvertisingReport<'a>, &'a [u8]),
    ReportError,
>)
    requires
        !(data@.len() == 10 && is_phy(data@[9])),
    ensures
        is_ext_parse(r, data@),
{
    match LeExtAdvReport::from_hci_bytes(data) {
        Ok((r, rest)) => Ok((
            ExtAdvertisingReport {
                event_kind: u16::from_le_bytes(r.event_kind.into_inner()),
                addr_kind: r.addr_kind.0, addr: r.addr.0,
                primary_adv_phy: r.primary_adv_phy as u8,
                secondary_adv_phy: r.secondary_adv_phy.map(|p| p as u8),
                adv_sid: r.adv_sid, tx_power: r.tx_power, rssi: r.rssi,
                adv_interval: r.adv_interval.as_u16(),
                direct_addr_kind: r.direct_addr_kind.0, direct_addr: r.direct_addr.0,
                data: r.data,
            }, rest)),
        Err(FromHciBytesError::InvalidSize) => Err(ReportError::InvalidSize),
        Err(FromHciBytesError::InvalidValue) => Err(ReportError::InvalidValue),
    }
}

/// The bytes that a report buffer holds, in order.
pub uninterp spec fn stored_bytes(buffer: heapless::Vec<u8, 255>) -> Seq<u8>;

/// `heapless::Vec::from_slice`: a buffer that holds a copy of `bytes` when
/// they fit into its 255 places, and an error when they do not.
#[verifier::external_body]
fn buffer_from_slice(bytes: &[u8]) -> (r: Result<heapless::Vec<u8, 255>, ()>)
    ensures
        bytes@.len() <= 255 ==> r is Ok && stored_bytes(r->Ok_0) == bytes@,
        bytes@.len() > 255 ==> r is Err,
{
    heapless::Vec::from_slice(bytes)
}

/// `heapless::Vec::as_slice`: the bytes that the buffer holds.
#[verifier::external_body]
fn buffer_as_slice<'a>(buffer: &'a heapless::Vec<u8, 255>) -> (s: &'a [u8])
    ensures
        s@ == stored_bytes(*buffer),
{
    buffer.as_slice()
}

/// What is left of a batch: how many reports are still declared, and the
/// bytes that were not read yet.
pub struct Batch {
    pub remaining: nat,
    pub bytes: Seq<u8>,
}

/// The two report formats.
pub enum ReportFormat {
    Standard,
    Extended,
}

/// What reading one report of the given format from the front of `s` comes
/// to: the number of bytes that the report takes, or the error.
pub open spec fn outcome(format: ReportFormat, s: Seq<u8>) -> Result<nat, ReportError> {
    match format {
        ReportFormat::Standard => match adv_report_decoding(s) {
            Ok((_, used)) => Ok(used),
            Err(e) => Err(e),
        },
        ReportFormat::Extended => match ext_report_decoding(s) {
            Ok((_, used)) => Ok(used),
            Err(e) => Err(e),
        },
    }
}

/// The batch after one step of an iterator. With no report left nothing
/// changes. A report that was read leaves the batch; a failure leaves the
/// bytes where they are and declares that no report is left.
pub open spec fn step(format: ReportFormat, b: Batch) -> Batch {
    if b.remaining == 0 {
        b
    } else {
        match outcome(format, b.bytes) {
            Ok(used) => Batch {
                remaining: (b.remaining - 1) as nat,
                bytes: b.bytes.skip(used as int),
            },
            Err(_) => Batch { remaining: 0, bytes: b.bytes },
        }
    }
}

/// What one step of an iterator yields: nothing when no report is left, else
/// the outcome of reading one.
pub open spec fn yielded(format: ReportFormat, b: Batch) -> Option<Result<nat, ReportError>> {
    if b.remaining == 0 {
        None
    } else {
        Some(outcome(format, b.bytes))
    }
}

/// The batch after `k` steps.
pub open spec fn after(format: ReportFormat, b: Batch, k: nat) -> Batch
    decreases k,
{
    if k == 0 {
        b
    } else {
        step(format, after(format, b, (k - 1) as nat))
    }
}

/// A batch of reports as the controller delivered it.
pub struct ScanReport {
    num_reports: u8,
    reports: heapless::Vec<u8, 255>,
}

impl View for ScanReport {
    type V = Batch;

    closed spec fn view(&self) -> Batch {
        Batch { remaining: self.num_reports as nat, bytes: stored_bytes(self.reports) }
    }
}

impl ScanReport {
    /// A batch that declares `num_reports` reports in a copy of `reports`.
    pub fn new(num_reports: u8, reports: &[u8]) -> (r: Self)
        requires
            reports@.len() <= 255,
        ensures
            r@ == (Batch { remaining: num_reports as nat, bytes: reports@ }),
    {
        Self { num_reports, reports: buffer_from_slice(reports).unwrap() }
    }

    /// Iterate over the scan reports.
    pub fn iter(&self) -> (it: ScanReportIter<'_>)
        ensures
            it@ == self@,
    {
        ScanReportIter { len: self.num_reports as usize, bytes: buffer_as_slice(&self.reports) }
    }

    /// Iterate over the extended scan reports.
    pub fn iter_ext(&self) -> (it: ExtScanReportIter<'_>)
        ensures
            it@ == self@,
    {
        ExtScanReportIter { len: self.num_reports as usize, bytes: buffer_as_slice(&self.reports) }
    }
}

/// Iterator over scan reports.
pub struct ScanReportIter<'a> {
    len: usize,
    bytes: &'a [u8],
}

impl View for ScanReportIter<'_> {
    type V = Batch;

    closed spec fn view(&self) -> Batch {
        Batch { remaining: self.len as nat, bytes: self.bytes@ }
    }
}

/// Whether `item` is what a step on the batch `b` hands out.
pub open spec fn is_adv_item(
    item: Option<Result<AdvertisingReport<'_>, ReportError>>,
    b: Batch,
) -> bool {
    if b.remaining == 0 {
        item is None
    } else {
        match adv_report_decoding(b.bytes) {
            Ok((report, _)) => item is Some && item->Some_0 is Ok && item->Some_0->Ok_0@ == report,
            Err(e) => item == Some(Err::<AdvertisingReport<'_>, ReportError>(e)),
        }
    }
}

/// Whether `item` is what a step on the batch `b` hands out.
pub open spec fn is_ext_item(
    item: Option<Result<ExtAdvertisingReport<'_>, ReportError>>,
    b: Batch,
) -> bool {
    if b.remaining == 0 {
        item is None
    } else {
        match ext_report_decoding(b.bytes) {
            Ok((report, _)) => item is Some && item->Some_0 is Ok && item->Some_0->Ok_0@ == report,
            Err(e) => item == Some(Err::<ExtAdvertisingReport<'_>, ReportError>(e)),
        }
    }
}

impl<'a> ScanReportIter<'a> {
    /// Reads the next report. After a failure, and after the last declared
    /// report, every call returns `None`.
    pub fn next(&mut self) -> (item: Option<Result<AdvertisingReport<'a>, ReportError>>)
        ensures
            is_adv_item(item, old(self)@),
            final(self)@ == step(ReportFormat::Standard, old(self)@),
    {
        if self.len == 0 {
            None
        } else {
            match parse_adv_report(self.bytes) {
                Ok((report, rest)) => {
                    self.bytes = rest;
                    self.len -= 1;
                    Some(Ok(report))
                },
                Err(err) => {
                    self.len = 0;
                    Some(Err(err))
                },
            }
        }
    }

    /// The lower and the upper bound of the number of items still to come.
    pub fn size_hint(&self) -> (r: (usize, Option<usize>))
        ensures
            r.0 == self@.remaining,
            r.1 == Some(r.0),
    {
        (self.len, Some(self.len))
    }

    /// The number of items still to come.
    pub fn len(&self) -> (n: usize)
        ensures
            n == self@.remaining,
    {
        self.len
    }
}

/// Iterator over extended scan reports.
pub struct ExtScanReportIter<'a> {
    len: usize,
    bytes: &'a [u8],
}

impl View for ExtScanReportIter<'_> {
    type V = Batch;

    closed spec fn view(&self) -> Batch {
        Batch { remaining: self.len as nat, bytes: self.bytes@ }
    }
}

impl<'a> ExtScanReportIter<'a> {
    /// Reads the next report. After a failure, and after the last declared
    /// report, every call returns `None`.
    pub fn next(&mut self) -> (item: Option<Result<ExtAdvertisingReport<'a>, ReportError>>)
        ensures
            is_ext_item(item, old(self)@),
            final(self)@ == step(ReportFormat::Extended, old(self)@),
    {
        if self.len == 0 {
            None
        } else if self.bytes.len() == 10 && 1 <= self.bytes[9] && self.bytes[9] <= 4 {
            // The bytes end where the secondary PHY should stand.
            self.len = 0;
            Some(Err(ReportError::InvalidSize))
        } else {
            match parse_ext_adv_report(self.bytes) {
                Ok((report, rest)) => {
                    self.bytes = rest;
                    self.len -= 1;
                    Some(Ok(report))
                },
                Err(err) => {
                    self.len = 0;
                    Some(Err(err))
                },
            }
        }
    }

    /// The lower and the upper bound of the number of items still to come.
    pub fn size_hint(&self) -> (r: (usize, Option<usize>))
        ensures
            r.0 == self@.remaining,
            r.1 == Some(r.0),
    {
        (self.len, Some(self.len))
    }

    /// The number of items still to come.
    pub fn len(&self) -> (n: usize)
        ensures
            n == self@.remaining,
    {
        self.len
    }
}

} // verus!
