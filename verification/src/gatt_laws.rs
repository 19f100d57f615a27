//! What holds of every run of the GATT server over a sequence of inbound
//! PDUs.

use crate::attribute::{well_formed, AttributeView};
use crate::attribute_server::lemma_table_after_well_formed;
use crate::att::request;
use crate::gatt::{fault, reply, table_after_pdu, written_place};
use bt_hci::param::ConnHandle;
use vstd::prelude::*;

verus! {

/// A PDU that is dropped sends nothing, tells the application nothing and
/// leaves the table as it is.
pub proof fn lemma_dropped_pdu_changes_nothing(table: Seq<AttributeView>, inbound: Seq<u8>)
    requires
        fault(table, inbound) is Some,
    ensures
        reply(table, inbound) is None,
        written_place(table, inbound) is None,
        table_after_pdu(table, inbound) == table,
{
}

/// Whatever comes in, the table keeps its length and stays well formed.
pub proof fn lemma_step_keeps_table_well_formed(table: Seq<AttributeView>, inbound: Seq<u8>)
    requires
        well_formed(table),
    ensures
        well_formed(table_after_pdu(table, inbound)),
        table_after_pdu(table, inbound).len() == table.len(),
{
    lemma_table_after_well_formed(table, request(inbound));
}

/// The table after the server has dealt with all of `inbound`, in order.
pub open spec fn table_after_all(
    table: Seq<AttributeView>,
    inbound: Seq<(ConnHandle, Seq<u8>)>,
) -> Seq<AttributeView>
    decreases inbound.len(),
{
    if inbound.len() == 0 {
        table
    } else {
        table_after_pdu(table_after_all(table, inbound.drop_last()), inbound.last().1)
    }
}

/// The answer to the pair at place `i` of `inbound`, given when the server
/// has dealt with the pairs before it.
pub open spec fn reply_at(
    table: Seq<AttributeView>,
    inbound: Seq<(ConnHandle, Seq<u8>)>,
    i: int,
) -> Option<Seq<u8>>
    recommends
        0 <= i < inbound.len(),
{
    reply(table_after_all(table, inbound.take(i)), inbound[i].1)
}

/// What the server puts on the outbound queue while it deals with all of
/// `inbound`, in order.
pub open spec fn outbound(
    table: Seq<AttributeView>,
    inbound: Seq<(ConnHandle, Seq<u8>)>,
) -> Seq<(ConnHandle, Seq<u8>)>
    decreases inbound.len(),
{
    if inbound.len() == 0 {
        Seq::empty()
    } else {
        match reply(table_after_all(table, inbound.drop_last()), inbound.last().1) {
            Some(bytes) => outbound(table, inbound.drop_last()).push((inbound.last().0, bytes)),
            None => outbound(table, inbound.drop_last()),
        }
    }
}

/// The places of the pairs of `inbound` that get an answer, in order.
pub open spec fn answered(
    table: Seq<AttributeView>,
    inbound: Seq<(ConnHandle, Seq<u8>)>,
) -> Seq<int>
    decreases inbound.len(),
{
    if inbound.len() == 0 {
        Seq::empty()
    } else {
        match reply(table_after_all(table, inbound.drop_last()), inbound.last().1) {
            Some(_) => answered(table, inbound.drop_last()).push(inbound.len() - 1),
            None => answered(table, inbound.drop_last()),
        }
    }
}

/// The server puts one pair on the outbound queue for each inbound pair
/// that gets an answer, and nothing else: the `j`-th outbound pair is the
/// answer to the `j`-th inbound pair that gets one, and goes to the
/// connection that this one came from. So the answers leave in the order in
/// which their requests came, and an inbound pair that is malformed or
/// refused sends nothing.
pub proof fn lemma_outbound_follows_inbound(
    table: Seq<AttributeView>,
    inbound: Seq<(ConnHandle, Seq<u8>)>,
)
    ensures
        outbound(table, inbound).len() == answered(table, inbound).len(),
        forall|j: int|
            0 <= j < answered(table, inbound).len() ==> 0 <= (#[trigger] answered(
                table,
                inbound,
            )[j]) < inbound.len(),
        forall|j: int, k: int|
            0 <= j < k < answered(table, inbound).len() ==> (#[trigger] answered(table, inbound)[j])
                < (#[trigger] answered(table, inbound)[k]),
        forall|i: int|
            0 <= i < inbound.len() ==> (reply_at(table, inbound, i) is Some <==> answered(
                table,
                inbound,
            ).contains(i)),
        forall|j: int|
            0 <= j < outbound(table, inbound).len() ==> (#[trigger] outbound(table, inbound)[j])
                == (
                inbound[answered(table, inbound)[j]].0,
                reply_at(table, inbound, answered(table, inbound)[j])->Some_0,
            ),
    decreases inbound.len(),
{
    if inbound.len() > 0 {
        let front = inbound.drop_last();
        let last = inbound.len() - 1;
        lemma_outbound_follows_inbound(table, front);
        let at = answered(table, inbound);
        let at_front = answered(table, front);
        assert(inbound.take(last) =~= front);
        assert forall|i: int| 0 <= i < last implies reply_at(table, inbound, i) == reply_at(
            table,
            front,
            i,
        ) by {
            assert(inbound.take(i) =~= front.take(i));
        }
        assert forall|i: int| 0 <= i < inbound.len() implies (reply_at(table, inbound, i) is Some
            <==> at.contains(i)) by {
            if i < last {
                if at_front.contains(i) {
                    let j = choose|j: int| 0 <= j < at_front.len() && at_front[j] == i;
                    assert(at[j] == i);
                }
                if at.contains(i) {
                    let j = choose|j: int| 0 <= j < at.len() && at[j] == i;
                    assert(at_front[j] == i);
                }
            } else {
                if reply_at(table, inbound, i) is Some {
                    assert(at[at.len() - 1] == i);
                }
            }
        }
        assert forall|j: int| 0 <= j < outbound(table, inbound).len() implies (
        #[trigger] outbound(table, inbound)[j]) == (
            inbound[at[j]].0,
            reply_at(table, inbound, at[j])->Some_0,
        ) by {
            if j < at_front.len() {
                assert(outbound(table, inbound)[j] == outbound(table, front)[j]);
                assert(at[j] == at_front[j]);
            }
        }
    }
}

} // verus!
