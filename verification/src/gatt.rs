//! The GATT server: one step per inbound PDU. Who runs the server takes a
//! pair of connection and PDU from the inbound queue, hands it to `next`,
//! and puts what comes back on the outbound queue before it takes the next
//! pair.

use crate::att::{is_request, request, Att, AttDecodeError, AttError, AttView, ATT_MTU};
use crate::attribute::{
    find, lemma_lookup_found, lemma_lookup_sound, lookup, table_of, well_formed, Attribute,
    AttributeView,
};
use crate::attribute_server::{response, table_after, write_target, written, AttributeServer};
use crate::l2cap::{frame, L2capPacket, L2CAP_CID_ATT};
use crate::pdu::Pdu;
use bt_hci::param::ConnHandle;
use vstd::prelude::*;

verus! {

/// `bt_hci::param::ConnHandle`: the controller's name for a link. The server
/// hands it on and never looks into it.
#[verifier::external_type_specification]
#[verifier::external_body]
pub struct ExConnHandle(ConnHandle);

/// The link that a PDU came in on.
#[derive(Clone, Copy, Debug, PartialEq, Eq)]
pub struct Connection {
    pub handle: ConnHandle,
}

/// What the application is told of.
#[derive(Clone, Copy, Debug, PartialEq, Eq)]
pub enum GattEvent<'a> {
    /// A peer wrote the attribute; the attribute is shown as it is after
    /// the write.
    Write(Connection, &'a Attribute),
}

/// Why an inbound PDU was dropped.
#[derive(Clone, Copy, Debug, PartialEq, Eq, Structural)]
pub enum GattFault {
    /// The bytes are no request.
    Decode(AttDecodeError),
    /// The server refused the request with the given opcode. An error
    /// response to it would name `handle`.
    Process { opcode: u8, handle: u16, error: AttError },
}

/// What one step of the server comes to.
#[derive(Debug, PartialEq, Eq)]
pub struct GattStep<'a> {
    /// What is to be put on the outbound queue.
    pub outbound: Option<(ConnHandle, Pdu)>,
    /// What the application is to be told.
    pub event: Option<GattEvent<'a>>,
    /// What is to be reported to whoever keeps the log.
    pub fault: Option<GattFault>,
}

/// The bytes that answer the inbound bytes when the server holds `table`:
/// the frame, on the ATT channel, of the response to the request that the
/// bytes stand for. Bytes that are no request get no answer, nor does a
/// request that gets no response or is refused.
pub open spec fn reply(table: Seq<AttributeView>, inbound: Seq<u8>) -> Option<Seq<u8>> {
    if !is_request(inbound) {
        None
    } else {
        match response(table, request(inbound)) {
            Ok(Some(rsp)) => Some(frame(L2CAP_CID_ATT, rsp.wire())),
            _ => None,
        }
    }
}

/// The table after the server has dealt with the inbound bytes.
pub open spec fn table_after_pdu(table: Seq<AttributeView>, inbound: Seq<u8>) -> Seq<AttributeView> {
    if is_request(inbound) {
        table_after(table, request(inbound))
    } else {
        table
    }
}

/// Why the inbound bytes are dropped, if they are: they are no request, or
/// the server refuses the request.
pub open spec fn fault(table: Seq<AttributeView>, inbound: Seq<u8>) -> Option<GattFault> {
    if !is_request(inbound) {
        Some(GattFault::Decode(AttDecodeError::MalformedPdu))
    } else {
        match response(table, request(inbound)) {
            Err(error) => Some(
                GattFault::Process {
                    opcode: request(inbound).opcode(),
                    handle: request(inbound).handle(),
                    error,
                },
            ),
            Ok(_) => None,
        }
    }
}

/// The place of the attribute that the inbound bytes write to, if they are
/// a write that is not refused.
pub open spec fn written_place(table: Seq<AttributeView>, inbound: Seq<u8>) -> Option<int> {
    if !is_request(inbound) {
        None
    } else {
        match request(inbound) {
            AttView::WriteReq { handle, data } => match write_target(table, handle, data.len()) {
                Ok(i) => Some(i),
                Err(_) => None,
            },
            AttView::WriteCmd { handle, data } => match write_target(table, handle, data.len()) {
                Ok(i) => Some(i),
                Err(_) => None,
            },
            _ => None,
        }
    }
}

/// A write leaves every handle where it is.
pub proof fn lemma_written_keeps_places(
    table: Seq<AttributeView>,
    i: int,
    data: Seq<u8>,
    handle: u16,
)
    requires
        0 <= i < table.len(),
    ensures
        lookup(written(table, i, data), handle) == lookup(table, handle),
{
    let after = written(table, i, data);
    lemma_lookup_sound(table, handle);
    match lookup(table, handle) {
        Some(k) => {
            assert forall|j: int| 0 <= j < k implies (#[trigger] after[j]).handle != handle by {
                assert(table[j].handle != handle);
            }
            lemma_lookup_found(after, handle, k);
        },
        None => {
            assert forall|j: int| 0 <= j < after.len() implies (#[trigger] after[j]).handle
                != handle by {
                assert(table[j].handle != handle);
            }
        },
    }
}

/// Whether `step` is what the step on `handle` and `inbound` comes to for
/// a server that held `before` and holds `after`.
pub open spec fn is_step(
    step: GattStep<'_>,
    handle: ConnHandle,
    inbound: Seq<u8>,
    before: Seq<AttributeView>,
    after: Seq<AttributeView>,
) -> bool {
    &&& match reply(before, inbound) {
        Some(bytes) => step.outbound is Some && step.outbound->Some_0.0 == handle
            && step.outbound->Some_0.1@ == bytes,
        None => step.outbound is None,
    }
    &&& match written_place(before, inbound) {
        Some(i) => step.event is Some && step.event->Some_0->Write_0.handle == handle
            && step.event->Some_0->Write_1@ == after[i],
        None => step.event is None,
    }
    &&& step.fault == fault(before, inbound)
}

/// A GATT server over a table of attributes.
pub struct GattServer {
    server: AttributeServer,
}

impl View for GattServer {
    type V = Seq<AttributeView>;

    /// The table as it is now.
    closed spec fn view(&self) -> Seq<AttributeView> {
        self.server@
    }
}

impl GattServer {
    /// A server that holds the given attributes. Their handles are not zero,
    /// and no two are equal.
    pub fn new(attributes: Vec<Attribute>) -> (server: Self)
        requires
            well_formed(table_of(attributes@)),
        ensures
            server@ == table_of(attributes@),
    {
        Self { server: AttributeServer::new(attributes) }
    }

    /// The attributes as they are now.
    pub fn attributes(&self) -> (attributes: &[Attribute])
        ensures
            table_of(attributes@) == self@,
            well_formed(self@),
    {
        self.server.attributes()
    }

    /// Deals with one inbound PDU. Bytes that are no request, and a request
    /// that the server refuses, change nothing and send nothing: the peer
    /// gets no error response. The step says why they were dropped, so that
    /// who runs the server can log it. A response is framed for the ATT channel
    /// in the buffer that the request came in and goes back to the
    /// connection it came from; behind the frame the buffer holds what it
    /// held. A write that is not refused is made known, with the attribute
    /// as it is afterwards.
    pub fn next<'s>(&'s mut self, handle: ConnHandle, pdu: Pdu) -> (step: GattStep<'s>)
        ensures
            final(self)@ == table_after_pdu(old(self)@, pdu@),
            is_step(step, handle, pdu@, old(self)@, final(self)@),
            step.outbound is Some ==> step.outbound->Some_0.1.buffer().skip(
                step.outbound->Some_0.1.used() as int,
            ) == pdu.buffer().skip(step.outbound->Some_0.1.used() as int),
    {
        let ghost before = self@;
        let mut payload = [0u8; ATT_MTU];
        let mut len: Option<usize> = None;
        let mut target: Option<u16> = None;
        let mut fault: Option<GattFault> = None;
        match Att::decode(pdu.as_ref()) {
            Ok(att) => match self.server.process(att) {
                Ok(rsp) => {
                    target = match att {
                        Att::WriteReq { handle, .. } => Some(handle),
                        Att::WriteCmd { handle, .. } => Some(handle),
                        _ => None,
                    };
                    if let Some(rsp) = rsp {
                        let n = rsp.encode(&mut payload).unwrap();
                        assert(payload@.take(n as int) =~= rsp@.wire());
                        len = Some(n);
                    }
                },
                Err(error) => {
                    fault = Some(
                        GattFault::Process { opcode: att.opcode(), handle: att.handle(), error },
                    );
                },
            },
            Err(e) => {
                fault = Some(GattFault::Decode(e));
            },
        }
        let outbound = match len {
            Some(len) => {
                let mut data = pdu.into_packet();
                let payload = vstd::slice::slice_subrange(payload.as_slice(), 0, len);
                let packet = L2capPacket { channel: L2CAP_CID_ATT, payload };
                let len = packet.encode(&mut data).unwrap();
                assert(data@.take(len as int) =~= frame(L2CAP_CID_ATT, payload@));
                assert(data@.skip(len as int) =~= pdu.buffer().skip(len as int));
                Some((handle, Pdu::new(data, len)))
            },
            None => None,
        };
        let event = match target {
            Some(target) => {
                let attributes = self.server.attributes();
                proof {
                    let place = written_place(before, pdu@)->Some_0;
                    lemma_lookup_sound(before, target);
                    lemma_written_keeps_places(before, place, written_data(pdu@), target);
                }
                match find(attributes, target) {
                    Some(i) => Some(GattEvent::Write(Connection { handle }, &attributes[i])),
                    None => None,
                }
            },
            None => None,
        };
        GattStep { outbound, event, fault }
    }
}

/// The data of the write that the inbound bytes stand for.
pub open spec fn written_data(inbound: Seq<u8>) -> Seq<u8> {
    match request(inbound) {
        AttView::WriteReq { data, .. } => data,
        AttView::WriteCmd { data, .. } => data,
        _ => Seq::empty(),
    }
}

} // verus!
