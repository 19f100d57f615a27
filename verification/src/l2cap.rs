//! L2CAP basic frames: a 16-bit little-endian payload length, a 16-bit
//! little-endian channel id, then the payload.

use crate::wire::{
    from_le16, le16, lemma_from_le16_round_trip, lemma_le16_round_trip, read_le16, write_bytes,
    write_le16,
};
use vstd::prelude::*;

verus! {

/// Length of the basic frame header in bytes.
pub const L2CAP_HEADER_LEN: usize = 4;

/// The fixed channel that carries ATT traffic.
pub const L2CAP_CID_ATT: u16 = 4;

/// The largest payload whose length the 16-bit length field can express.
pub const L2CAP_MAX_PAYLOAD: usize = 0xFFFF;

/// The destination cannot hold what was to be written, or the payload is
/// longer than the length field can express.
#[derive(Clone, Copy, Debug, PartialEq, Eq, Structural)]
pub struct CapacityError;

/// The bytes are not exactly one basic frame.
#[derive(Clone, Copy, Debug, PartialEq, Eq, Structural)]
pub struct MalformedFrame;

/// The frame that carries `payload` on `channel`.
pub open spec fn frame(channel: u16, payload: Seq<u8>) -> Seq<u8>
    recommends
        payload.len() <= L2CAP_MAX_PAYLOAD,
{
    le16(payload.len() as u16) + le16(channel) + payload
}

/// Whether `bytes` is exactly one frame: a header whose length field equals
/// the number of bytes that follow it.
pub open spec fn is_frame(bytes: Seq<u8>) -> bool {
    bytes.len() >= L2CAP_HEADER_LEN && bytes.len() == L2CAP_HEADER_LEN + from_le16(
        bytes[0],
        bytes[1],
    )
}

/// The channel and the payload of the frame `bytes`, if it is one.
pub open spec fn unframe(bytes: Seq<u8>) -> Option<(u16, Seq<u8>)> {
    if is_frame(bytes) {
        Some((from_le16(bytes[2], bytes[3]), bytes.skip(L2CAP_HEADER_LEN as int)))
    } else {
        None
    }
}

/// A payload together with the channel it travels on.
#[derive(Clone, Copy, Debug, PartialEq, Eq)]
pub struct L2capPacket<'d> {
    pub channel: u16,
    pub payload: &'d [u8],
}

impl<'d> L2capPacket<'d> {
    /// Whether the frame of this packet can be written into `capacity` bytes.
    pub open spec fn fits(&self, capacity: nat) -> bool {
        self.payload@.len() <= L2CAP_MAX_PAYLOAD && L2CAP_HEADER_LEN + self.payload@.len()
            <= capacity
    }

    /// Writes the frame at the start of `dest` and returns its length; the
    /// bytes behind the frame stay as they were, and the frame decodes to
    /// this packet. A destination that cannot hold the whole frame is left
    /// untouched.
    pub fn encode(&self, dest: &mut [u8]) -> (r: Result<usize, CapacityError>)
        ensures
            self.fits(old(dest)@.len()) ==> r == Ok::<usize, CapacityError>(
                (L2CAP_HEADER_LEN + self.payload@.len()) as usize,
            ),
            self.fits(old(dest)@.len()) ==> final(dest)@ == frame(self.channel, self.payload@)
                + old(dest)@.skip(L2CAP_HEADER_LEN + self.payload@.len()),
            self.fits(old(dest)@.len()) ==> unframe(
                final(dest)@.take(L2CAP_HEADER_LEN + self.payload@.len()),
            ) == Some((self.channel, self.payload@)),
            !self.fits(old(dest)@.len()) ==> r is Err && final(dest)@ == old(dest)@,
    {
        let n = self.payload.len();
        if n > L2CAP_MAX_PAYLOAD || dest.len() < L2CAP_HEADER_LEN || dest.len() - L2CAP_HEADER_LEN
            < n {
            return Err(CapacityError);
        }
        write_le16(dest, 0, n as u16);
        write_le16(dest, 2, self.channel);
        write_bytes(dest, L2CAP_HEADER_LEN, self.payload);
        proof {
            let f = frame(self.channel, self.payload@);
            assert(dest@ =~= f + old(dest)@.skip(L2CAP_HEADER_LEN + n));
            assert(dest@.take(L2CAP_HEADER_LEN + n) =~= f);
            lemma_decode_inverts_encode(self.channel, self.payload@);
        }
        Ok(L2CAP_HEADER_LEN + n)
    }

    /// Reads the frame that `bytes` consists of; the payload is borrowed from
    /// them. Fails unless `bytes` is exactly one frame.
    pub fn decode(bytes: &'d [u8]) -> (r: Result<L2capPacket<'d>, MalformedFrame>)
        ensures
            r is Ok <==> unframe(bytes@) is Some,
            r is Ok ==> unframe(bytes@) == Some((r->Ok_0.channel, r->Ok_0.payload@)),
    {
        if bytes.len() < L2CAP_HEADER_LEN {
            return Err(MalformedFrame);
        }
        let length = read_le16(bytes, 0);
        if bytes.len() - L2CAP_HEADER_LEN != length as usize {
            return Err(MalformedFrame);
        }
        let channel = read_le16(bytes, 2);
        let payload = vstd::slice::slice_subrange(bytes, L2CAP_HEADER_LEN, bytes.len());
        Ok(L2capPacket { channel, payload })
    }
}

/// Decoding inverts encoding: the frame of a payload that the length field
/// can express decodes to the channel and the payload it was made of.
pub proof fn lemma_decode_inverts_encode(channel: u16, payload: Seq<u8>)
    requires
        payload.len() <= L2CAP_MAX_PAYLOAD,
    ensures
        unframe(frame(channel, payload)) == Some((channel, payload)),
{
    let f = frame(channel, payload);
    lemma_le16_round_trip(payload.len() as u16);
    lemma_le16_round_trip(channel);
    assert(f.skip(L2CAP_HEADER_LEN as int) =~= payload);
}

/// Encoding inverts decoding: bytes that decode are the frame of what they
/// decode to, so no two byte strings decode to the same packet.
pub proof fn lemma_encode_inverts_decode(bytes: Seq<u8>)
    requires
        unframe(bytes) is Some,
    ensures
        unframe(bytes)->Some_0.1.len() <= L2CAP_MAX_PAYLOAD,
        frame(unframe(bytes)->Some_0.0, unframe(bytes)->Some_0.1) == bytes,
{
    lemma_from_le16_round_trip(bytes[0], bytes[1]);
    lemma_from_le16_round_trip(bytes[2], bytes[3]);
    let (channel, payload) = unframe(bytes)->Some_0;
    assert(payload.len() as u16 == from_le16(bytes[0], bytes[1]));
    assert(frame(channel, payload) =~= bytes);
}

} // verus!
