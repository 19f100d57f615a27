//! The unit of data that moves between the queues and the server: a buffer
//! of fixed capacity, of which the first bytes are in use.

use crate::att::ATT_MTU;
use crate::l2cap::L2CAP_HEADER_LEN;
use vstd::prelude::*;

verus! {

/// The capacity of every PDU buffer: one frame header and one ATT PDU of
/// the largest size.
pub const PDU_CAPACITY: usize = L2CAP_HEADER_LEN + ATT_MTU;

/// An owned buffer together with the number of its bytes that are in use.
/// It has one owner at a time; who receives it gets the buffer too and may
/// write the answer into it.
#[derive(Debug, PartialEq, Eq)]
pub struct Pdu {
    packet: [u8; PDU_CAPACITY],
    len: usize,
}

impl View for Pdu {
    type V = Seq<u8>;

    /// The bytes in use: the first ones of the buffer.
    open spec fn view(&self) -> Seq<u8> {
        self.buffer().take(self.used() as int)
    }
}

impl Pdu {
    #[verifier::type_invariant]
    spec fn inv(self) -> bool {
        self.len <= PDU_CAPACITY
    }

    /// All bytes of the buffer, in use or not.
    pub closed spec fn buffer(&self) -> Seq<u8> {
        self.packet@
    }

    /// The number of bytes in use.
    pub closed spec fn used(&self) -> nat {
        self.len as nat
    }

    /// The PDU that uses the first `len` bytes of `packet`.
    pub fn new(packet: [u8; PDU_CAPACITY], len: usize) -> (pdu: Self)
        requires
            len <= PDU_CAPACITY,
        ensures
            pdu.buffer() == packet@,
            pdu.used() == len,
    {
        Pdu { packet, len }
    }

    /// A PDU that holds a copy of `bytes`, if they fit into a buffer.
    pub fn from_slice(bytes: &[u8]) -> (r: Option<Self>)
        ensures
            r is Some <==> bytes@.len() <= PDU_CAPACITY,
            r is Some ==> r->Some_0@ == bytes@ && r->Some_0.used() == bytes@.len(),
    {
        if bytes.len() > PDU_CAPACITY {
            return None;
        }
        let mut packet = [0u8; PDU_CAPACITY];
        crate::wire::write_bytes(&mut packet, 0, bytes);
        assert(packet@.take(bytes@.len() as int) =~= bytes@);
        Some(Pdu { packet, len: bytes.len() })
    }

    /// The bytes in use.
    pub fn as_ref(&self) -> (bytes: &[u8])
        ensures
            bytes@ == self@,
    {
        proof {
            use_type_invariant(self);
        }
        vstd::slice::slice_subrange(self.packet.as_slice(), 0, self.len)
    }

    /// The number of bytes in use.
    pub fn len(&self) -> (n: usize)
        ensures
            n == self.used(),
            n == self@.len(),
            n <= PDU_CAPACITY,
    {
        proof {
            use_type_invariant(self);
        }
        self.len
    }

    /// Gives up the buffer, with whatever it holds.
    pub fn into_packet(self) -> (packet: [u8; PDU_CAPACITY])
        ensures
            packet@ == self.buffer(),
            self.used() <= PDU_CAPACITY,
    {
        proof {
            use_type_invariant(&self);
        }
        self.packet
    }
}

} // verus!
