//! The ATT codec: requests are decoded from bytes, responses are encoded to
//! bytes. Every PDU starts with its opcode; the fields follow without
//! padding, 16-bit values least significant byte first.

use crate::l2cap::CapacityError;
use crate::wire::{from_le16, le16, read_le16, splice, write_bytes, write_le16};
use vstd::prelude::*;

verus! {

/// The largest ATT PDU that the server sends.
pub const ATT_MTU: usize = 23;

/// Opcode of the error response.
pub const ATT_ERROR_RSP: u8 = 0x01;

/// Opcode of the exchange-MTU request.
pub const ATT_EXCHANGE_MTU_REQ: u8 = 0x02;

/// Opcode of the exchange-MTU response.
pub const ATT_EXCHANGE_MTU_RSP: u8 = 0x03;

/// Opcode of the find-information request.
pub const ATT_FIND_INFORMATION_REQ: u8 = 0x04;

/// Opcode of the find-information response.
pub const ATT_FIND_INFORMATION_RSP: u8 = 0x05;

/// Opcode of the read request.
pub const ATT_READ_REQ: u8 = 0x0A;

/// Opcode of the read response.
pub const ATT_READ_RSP: u8 = 0x0B;

/// Opcode of the write request.
pub const ATT_WRITE_REQ: u8 = 0x12;

/// Opcode of the write response.
pub const ATT_WRITE_RSP: u8 = 0x13;

/// Opcode of the write command, which gets no response.
pub const ATT_WRITE_CMD: u8 = 0x52;

/// The format byte of a find-information response whose UUIDs have 16 bits.
pub const FORMAT_UUID16: u8 = 1;

/// The format byte of a find-information response whose UUIDs have 128 bits.
pub const FORMAT_UUID128: u8 = 2;

/// The type of an attribute: a 16-bit UUID, or the 16 bytes of a 128-bit one
/// in the order in which they travel.
#[derive(Clone, Copy, Debug, PartialEq, Eq)]
pub enum Uuid {
    Uuid16(u16),
    Uuid128([u8; 16]),
}

impl Uuid {
    /// The bytes of the UUID as they travel.
    pub open spec fn wire(&self) -> Seq<u8> {
        match self {
            Uuid::Uuid16(v) => le16(*v),
            Uuid::Uuid128(bytes) => bytes@,
        }
    }

    /// The format byte that announces UUIDs of this length.
    pub open spec fn format(&self) -> u8 {
        match self {
            Uuid::Uuid16(_) => FORMAT_UUID16,
            Uuid::Uuid128(_) => FORMAT_UUID128,
        }
    }

    /// The format byte that announces UUIDs of this length.
    pub fn format_byte(&self) -> (f: u8)
        ensures
            f == self.format(),
    {
        match self {
            Uuid::Uuid16(_) => FORMAT_UUID16,
            Uuid::Uuid128(_) => FORMAT_UUID128,
        }
    }

    /// The number of bytes of the UUID as it travels: 2 or 16.
    pub fn len(&self) -> (n: usize)
        ensures
            n == self.wire().len(),
            n == 2 || n == 16,
    {
        match self {
            Uuid::Uuid16(_) => 2,
            Uuid::Uuid128(_) => 16,
        }
    }

    /// Writes the UUID at `at` and leaves every other byte as it was.
    pub fn write(&self, dest: &mut [u8], at: usize)
        requires
            at + self.wire().len() <= old(dest)@.len(),
        ensures
            final(dest)@ == splice(old(dest)@, at as int, self.wire()),
    {
        match self {
            Uuid::Uuid16(v) => write_le16(dest, at, *v),
            Uuid::Uuid128(bytes) => write_bytes(dest, at, bytes.as_slice()),
        }
    }
}

/// A request or command that a peer sent.
#[derive(Clone, Copy, Debug, PartialEq, Eq)]
pub enum Att<'d> {
    ExchangeMtu { mtu: u16 },
    FindInformation { start_handle: u16, end_handle: u16 },
    ReadReq { handle: u16 },
    WriteReq { handle: u16, data: &'d [u8] },
    WriteCmd { handle: u16, data: &'d [u8] },
}

/// What a request holds, as the contracts speak of it: the data of a write is a
/// sequence of bytes.
pub enum AttView {
    ExchangeMtu { mtu: u16 },
    FindInformation { start_handle: u16, end_handle: u16 },
    ReadReq { handle: u16 },
    WriteReq { handle: u16, data: Seq<u8> },
    WriteCmd { handle: u16, data: Seq<u8> },
}

impl AttView {
    /// The opcode that the request travels under.
    pub open spec fn opcode(&self) -> u8 {
        match self {
            AttView::ExchangeMtu { .. } => ATT_EXCHANGE_MTU_REQ,
            AttView::FindInformation { .. } => ATT_FIND_INFORMATION_REQ,
            AttView::ReadReq { .. } => ATT_READ_REQ,
            AttView::WriteReq { .. } => ATT_WRITE_REQ,
            AttView::WriteCmd { .. } => ATT_WRITE_CMD,
        }
    }

    /// The handle that an error response to the request names: the handle
    /// that the request is about, the start of its range, or zero where it
    /// names none.
    pub open spec fn handle(&self) -> u16 {
        match self {
            AttView::ExchangeMtu { .. } => 0,
            AttView::FindInformation { start_handle, .. } => *start_handle,
            AttView::ReadReq { handle } => *handle,
            AttView::WriteReq { handle, .. } => *handle,
            AttView::WriteCmd { handle, .. } => *handle,
        }
    }
}

impl View for Att<'_> {
    type V = AttView;

    open spec fn view(&self) -> AttView {
        match self {
            Att::ExchangeMtu { mtu } => AttView::ExchangeMtu { mtu: *mtu },
            Att::FindInformation { start_handle, end_handle } => AttView::FindInformation {
                start_handle: *start_handle,
                end_handle: *end_handle,
            },
            Att::ReadReq { handle } => AttView::ReadReq { handle: *handle },
            Att::WriteReq { handle, data } => AttView::WriteReq { handle: *handle, data: data@ },
            Att::WriteCmd { handle, data } => AttView::WriteCmd { handle: *handle, data: data@ },
        }
    }
}

/// Why bytes could not be decoded.
#[derive(Clone, Copy, Debug, PartialEq, Eq, Structural)]
pub enum AttDecodeError {
    /// The opcode is not one of a request that the server knows, or the
    /// bytes end before the fields that the opcode requires.
    MalformedPdu,
}

/// The least number of bytes of a PDU with the given opcode, the opcode
/// included; `None` for an opcode that is not one of a known request.
pub open spec fn min_request_len(opcode: u8) -> Option<nat> {
    if opcode == ATT_EXCHANGE_MTU_REQ {
        Some(3)
    } else if opcode == ATT_FIND_INFORMATION_REQ {
        Some(5)
    } else if opcode == ATT_READ_REQ {
        Some(3)
    } else if opcode == ATT_WRITE_REQ {
        Some(3)
    } else if opcode == ATT_WRITE_CMD {
        Some(3)
    } else {
        None
    }
}

/// Whether `s` starts with the opcode of a known request and is long enough
/// for it.
pub open spec fn is_request(s: Seq<u8>) -> bool {
    s.len() >= 1 && min_request_len(s[0]) is Some && s.len() >= min_request_len(s[0])->Some_0
}

/// The request that the bytes `s` stand for.
pub open spec fn request(s: Seq<u8>) -> AttView
    recommends
        is_request(s),
{
    if s[0] == ATT_EXCHANGE_MTU_REQ {
        AttView::ExchangeMtu { mtu: from_le16(s[1], s[2]) }
    } else if s[0] == ATT_FIND_INFORMATION_REQ {
        AttView::FindInformation {
            start_handle: from_le16(s[1], s[2]),
            end_handle: from_le16(s[3], s[4]),
        }
    } else if s[0] == ATT_READ_REQ {
        AttView::ReadReq { handle: from_le16(s[1], s[2]) }
    } else if s[0] == ATT_WRITE_REQ {
        AttView::WriteReq { handle: from_le16(s[1], s[2]), data: s.skip(3) }
    } else {
        AttView::WriteCmd { handle: from_le16(s[1], s[2]), data: s.skip(3) }
    }
}

impl<'d> Att<'d> {
    /// The opcode that the request travels under.
    pub fn opcode(&self) -> (opcode: u8)
        ensures
            opcode == self@.opcode(),
    {
        match self {
            Att::ExchangeMtu { .. } => ATT_EXCHANGE_MTU_REQ,
            Att::FindInformation { .. } => ATT_FIND_INFORMATION_REQ,
            Att::ReadReq { .. } => ATT_READ_REQ,
            Att::WriteReq { .. } => ATT_WRITE_REQ,
            Att::WriteCmd { .. } => ATT_WRITE_CMD,
        }
    }

    /// The handle that an error response to the request names.
    pub fn handle(&self) -> (handle: u16)
        ensures
            handle == self@.handle(),
    {
        match self {
            Att::ExchangeMtu { .. } => 0,
            Att::FindInformation { start_handle, .. } => *start_handle,
            Att::ReadReq { handle } => *handle,
            Att::WriteReq { handle, .. } => *handle,
            Att::WriteCmd { handle, .. } => *handle,
        }
    }

    /// Decodes one request; the data of a write is borrowed from `packet`.
    /// Bytes that are too short for their opcode, or whose opcode is not
    /// known, give an error, whatever else they hold.
    pub fn decode(packet: &'d [u8]) -> (r: Result<Att<'d>, AttDecodeError>)
        ensures
            r is Ok <==> is_request(packet@),
            r is Ok ==> r->Ok_0@ == request(packet@) && r->Ok_0@.opcode() == packet@[0],
    {
        if packet.len() < 1 {
            return Err(AttDecodeError::MalformedPdu);
        }
        let opcode = packet[0];
        if opcode == ATT_EXCHANGE_MTU_REQ {
            if packet.len() < 3 {
                return Err(AttDecodeError::MalformedPdu);
            }
            Ok(Att::ExchangeMtu { mtu: read_le16(packet, 1) })
        } else if opcode == ATT_FIND_INFORMATION_REQ {
            if packet.len() < 5 {
                return Err(AttDecodeError::MalformedPdu);
            }
            Ok(
                Att::FindInformation {
                    start_handle: read_le16(packet, 1),
                    end_handle: read_le16(packet, 3),
                },
            )
        } else if opcode == ATT_READ_REQ {
            if packet.len() < 3 {
                return Err(AttDecodeError::MalformedPdu);
            }
            Ok(Att::ReadReq { handle: read_le16(packet, 1) })
        } else if opcode == ATT_WRITE_REQ || opcode == ATT_WRITE_CMD {
            if packet.len() < 3 {
                return Err(AttDecodeError::MalformedPdu);
            }
            let handle = read_le16(packet, 1);
            let data = vstd::slice::slice_subrange(packet, 3, packet.len());
            if opcode == ATT_WRITE_REQ {
                Ok(Att::WriteReq { handle, data })
            } else {
                Ok(Att::WriteCmd { handle, data })
            }
        } else {
            Err(AttDecodeError::MalformedPdu)
        }
    }
}

/// Why the server refuses a request that was decoded.
#[derive(Clone, Copy, Debug, PartialEq, Eq, Structural)]
pub enum AttError {
    /// No attribute has the handle, or the handle range is empty or starts
    /// at zero.
    InvalidHandle,
    /// The attribute cannot be read.
    ReadNotPermitted,
    /// The attribute cannot be written.
    WriteNotPermitted,
    /// No attribute lies in the handle range.
    AttributeNotFound,
    /// The value to write is longer than the attribute's value.
    InvalidAttributeValueLength,
}

impl AttError {
    /// The code that stands for this error in an error response.
    pub open spec fn wire_code(&self) -> u8 {
        match self {
            AttError::InvalidHandle => 0x01,
            AttError::ReadNotPermitted => 0x02,
            AttError::WriteNotPermitted => 0x03,
            AttError::AttributeNotFound => 0x0A,
            AttError::InvalidAttributeValueLength => 0x0D,
        }
    }

    /// The code that stands for this error in an error response.
    pub fn code(&self) -> (c: u8)
        ensures
            c == self.wire_code(),
    {
        match self {
            AttError::InvalidHandle => 0x01,
            AttError::ReadNotPermitted => 0x02,
            AttError::WriteNotPermitted => 0x03,
            AttError::AttributeNotFound => 0x0A,
            AttError::InvalidAttributeValueLength => 0x0D,
        }
    }
}

/// A response that the server sends.
#[derive(Debug, PartialEq, Eq)]
pub enum AttRsp<'d> {
    /// The request with opcode `request` about `handle` was refused.
    Error { request: u8, handle: u16, error: AttError },
    ExchangeMtu { mtu: u16 },
    /// Handles with the types of their attributes.
    FindInformation { entries: Vec<(u16, Uuid)> },
    /// The value that was read, borrowed from the attribute.
    Read { value: &'d [u8] },
    Write,
}

/// What a response holds, as the contracts speak of it.
pub enum AttRspView {
    Error { request: u8, handle: u16, error: AttError },
    ExchangeMtu { mtu: u16 },
    FindInformation { entries: Seq<(u16, Uuid)> },
    Read { value: Seq<u8> },
    Write,
}

/// The entries of a find-information response as they travel: each handle
/// followed by the UUID.
pub open spec fn entries_wire(entries: Seq<(u16, Uuid)>) -> Seq<u8>
    decreases entries.len(),
{
    if entries.len() == 0 {
        Seq::<u8>::empty()
    } else {
        entries_wire(entries.drop_last()) + le16(entries.last().0) + entries.last().1.wire()
    }
}

/// The format byte of a find-information response with the given entries:
/// that of the first entry's UUID.
pub open spec fn entries_format(entries: Seq<(u16, Uuid)>) -> u8 {
    if entries.len() == 0 {
        FORMAT_UUID16
    } else {
        entries[0].1.format()
    }
}

impl AttRspView {
    /// The bytes of the response: the opcode, then the fields.
    pub open spec fn wire(&self) -> Seq<u8> {
        match self {
            AttRspView::Error { request, handle, error } => seq![ATT_ERROR_RSP, *request] + le16(
                *handle,
            ) + seq![error.wire_code()],
            AttRspView::ExchangeMtu { mtu } => seq![ATT_EXCHANGE_MTU_RSP] + le16(*mtu),
            AttRspView::FindInformation { entries } => seq![
                ATT_FIND_INFORMATION_RSP,
                entries_format(*entries),
            ] + entries_wire(*entries),
            AttRspView::Read { value } => seq![ATT_READ_RSP] + *value,
            AttRspView::Write => seq![ATT_WRITE_RSP],
        }
    }
}

impl View for AttRsp<'_> {
    type V = AttRspView;

    open spec fn view(&self) -> AttRspView {
        match self {
            AttRsp::Error { request, handle, error } => AttRspView::Error {
                request: *request,
                handle: *handle,
                error: *error,
            },
            AttRsp::ExchangeMtu { mtu } => AttRspView::ExchangeMtu { mtu: *mtu },
            AttRsp::FindInformation { entries } => AttRspView::FindInformation {
                entries: entries@,
            },
            AttRsp::Read { value } => AttRspView::Read { value: value@ },
            AttRsp::Write => AttRspView::Write,
        }
    }
}

/// The entries up to any point take no more bytes than all of them.
pub proof fn lemma_entries_wire_prefix(entries: Seq<(u16, Uuid)>, i: int)
    requires
        0 <= i <= entries.len(),
    ensures
        entries_wire(entries.take(i)).len() <= entries_wire(entries).len(),
    decreases entries.len() - i,
{
    if i < entries.len() {
        lemma_entries_wire_prefix(entries, i + 1);
        assert(entries.take(i + 1).drop_last() =~= entries.take(i));
    } else {
        assert(entries.take(i) =~= entries);
    }
}

impl<'d> AttRsp<'d> {
    /// Writes the response at the start of `dest` and returns its length;
    /// the bytes behind it stay as they were. A destination that cannot hold
    /// the whole response is left untouched.
    pub fn encode(&self, dest: &mut [u8]) -> (r: Result<usize, CapacityError>)
        ensures
            self@.wire().len() <= old(dest)@.len() ==> r == Ok::<usize, CapacityError>(
                self@.wire().len() as usize,
            ) && final(dest)@ == self@.wire() + old(dest)@.skip(self@.wire().len() as int),
            self@.wire().len() > old(dest)@.len() ==> r is Err && final(dest)@ == old(dest)@,
    {
        match self {
            AttRsp::Error { request, handle, error } => {
                if dest.len() < 5 {
                    return Err(CapacityError);
                }
                dest[0] = ATT_ERROR_RSP;
                dest[1] = *request;
                write_le16(dest, 2, *handle);
                dest[4] = error.code();
                assert(dest@ =~= self@.wire() + old(dest)@.skip(5));
                Ok(5)
            },
            AttRsp::ExchangeMtu { mtu } => {
                if dest.len() < 3 {
                    return Err(CapacityError);
                }
                dest[0] = ATT_EXCHANGE_MTU_RSP;
                write_le16(dest, 1, *mtu);
                assert(dest@ =~= self@.wire() + old(dest)@.skip(3));
                Ok(3)
            },
            AttRsp::FindInformation { entries } => {
                let n = entries.len();
                if dest.len() < 2 {
                    return Err(CapacityError);
                }
                // The length of the whole response, as far as it fits.
                let mut total: usize = 2;
                let mut i: usize = 0;
                while i < n
                    invariant
                        i <= n,
                        n == entries@.len(),
                        self@.wire().len() == 2 + entries_wire(entries@).len(),
                        total == 2 + entries_wire(entries@.take(i as int)).len(),
                        total <= dest.len(),
                        dest@ == old(dest)@,
                    decreases n - i,
                {
                    let entry_len = 2 + entries[i].1.len();
                    proof {
                        assert(entries@.take(i + 1).drop_last() =~= entries@.take(i as int));
                        assert(entries@.take(i + 1).last() == entries@[i as int]);
                        assert(entries_wire(entries@.take(i + 1)).len() == entries_wire(
                            entries@.take(i as int),
                        ).len() + entry_len);
                        lemma_entries_wire_prefix(entries@, i + 1);
                    }
                    if dest.len() - total < entry_len {
                        return Err(CapacityError);
                    }
                    total += entry_len;
                    i += 1;
                }
                assert(entries@.take(n as int) =~= entries@);
                dest[0] = ATT_FIND_INFORMATION_RSP;
                dest[1] = if n == 0 {
                    FORMAT_UUID16
                } else {
                    entries[0].1.format_byte()
                };
                let mut at: usize = 2;
                let mut i: usize = 0;
                while i < n
                    invariant
                        i <= n,
                        n == entries@.len(),
                        total == 2 + entries_wire(entries@).len(),
                        total <= dest.len(),
                        dest@.len() == old(dest)@.len(),
                        at == 2 + entries_wire(entries@.take(i as int)).len(),
                        dest@.take(at as int) == seq![
                            ATT_FIND_INFORMATION_RSP,
                            entries_format(entries@),
                        ] + entries_wire(entries@.take(i as int)),
                        dest@.skip(total as int) == old(dest)@.skip(total as int),
                    decreases n - i,
                {
                    proof {
                        assert(entries@.take(i + 1).drop_last() =~= entries@.take(i as int));
                        lemma_entries_wire_prefix(entries@, i + 1);
                    }
                    let ghost before = dest@;
                    write_le16(dest, at, entries[i].0);
                    entries[i].1.write(dest, at + 2);
                    let entry_len = 2 + entries[i].1.len();
                    proof {
                        let grown = seq![ATT_FIND_INFORMATION_RSP, entries_format(entries@)]
                            + entries_wire(entries@.take(i + 1));
                        assert(dest@.take(at + entry_len) =~= grown) by {
                            assert forall|j: int| 0 <= j < at + entry_len implies dest@[j]
                                == grown[j] by {
                                if j < at {
                                    assert(dest@[j] == before.take(at as int)[j]);
                                }
                            }
                        }
                        assert(dest@.skip(total as int) =~= old(dest)@.skip(total as int)) by {
                            assert forall|j: int| 0 <= j < dest@.len() - total implies dest@.skip(
                                total as int,
                            )[j] == old(dest)@.skip(total as int)[j] by {
                                assert(before.skip(total as int)[j] == before[total + j]);
                            }
                        }
                    }
                    at += entry_len;
                    i += 1;
                }
                proof {
                    assert(entries@.take(n as int) =~= entries@);
                    assert(dest@ =~= dest@.take(total as int) + dest@.skip(total as int));
                }
                Ok(total)
            },
            AttRsp::Read { value } => {
                if dest.len() < 1 || dest.len() - 1 < value.len() {
                    return Err(CapacityError);
                }
                dest[0] = ATT_READ_RSP;
                write_bytes(dest, 1, value);
                assert(dest@ =~= self@.wire() + old(dest)@.skip(1 + value@.len() as int));
                Ok(1 + value.len())
            },
            AttRsp::Write => {
                if dest.len() < 1 {
                    return Err(CapacityError);
                }
                dest[0] = ATT_WRITE_RSP;
                assert(dest@ =~= self@.wire() + old(dest)@.skip(1));
                Ok(1)
            },
        }
    }
}

} // verus!
