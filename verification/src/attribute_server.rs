//! The attribute server: what each request does to the table and which
//! response it gets.

use crate::att::{
    entries_wire, Att, AttError, AttRsp, AttRspView, AttView, Uuid, ATT_MTU, FORMAT_UUID16,
};
use crate::attribute::{find, lookup, table_of, well_formed, Attribute, AttributeView};
use crate::wire::{splice, write_bytes};
use vstd::prelude::*;

verus! {

/// The largest number of value bytes in a read response.
pub const MAX_READ_LEN: usize = ATT_MTU - 1;

/// The part of an attribute's value that a read response carries: all of it,
/// or as much as fits.
pub open spec fn read_value(value: Seq<u8>) -> Seq<u8> {
    if value.len() <= MAX_READ_LEN {
        value
    } else {
        value.take(MAX_READ_LEN as int)
    }
}

/// The place of the attribute that a write of `len` bytes to `handle` goes
/// to, or why the write is refused.
pub open spec fn write_target(table: Seq<AttributeView>, handle: u16, len: nat) -> Result<
    int,
    AttError,
> {
    match lookup(table, handle) {
        None => Err(AttError::InvalidHandle),
        Some(i) => if !table[i].permissions.writable {
            Err(AttError::WriteNotPermitted)
        } else if len > table[i].value.len() {
            Err(AttError::InvalidAttributeValueLength)
        } else {
            Ok(i)
        },
    }
}

/// The table after `data` was written over the first bytes of the value at
/// place `i`.
pub open spec fn written(table: Seq<AttributeView>, i: int, data: Seq<u8>) -> Seq<AttributeView> {
    table.update(
        i,
        AttributeView {
            handle: table[i].handle,
            type_uuid: table[i].type_uuid,
            permissions: table[i].permissions,
            value: splice(table[i].value, 0, data),
        },
    )
}

/// The attributes whose handles lie between `start` and `end`, in the order
/// of the table.
pub open spec fn in_range(table: Seq<AttributeView>, start: u16, end: u16) -> Seq<AttributeView>
    decreases table.len(),
{
    if table.len() == 0 {
        table
    } else if start <= table.last().handle <= end {
        in_range(table.drop_last(), start, end).push(table.last())
    } else {
        in_range(table.drop_last(), start, end)
    }
}

/// How many attributes at the front of `found` have a UUID of the given
/// format.
pub open spec fn uniform_run(found: Seq<AttributeView>, format: u8) -> nat
    decreases found.len(),
{
    if found.len() == 0 || found[0].type_uuid.format() != format {
        0
    } else {
        1 + uniform_run(found.skip(1), format)
    }
}

/// How many entries with UUIDs of the given format one find-information
/// response holds.
pub open spec fn batch_capacity(format: u8) -> nat {
    if format == FORMAT_UUID16 {
        5
    } else {
        1
    }
}

/// The entries of the response to a find-information request: the
/// attributes in range from the first one on, as long as their UUIDs have
/// the format of the first and as many as one response holds.
pub open spec fn find_information_batch(table: Seq<AttributeView>, start: u16, end: u16) -> Seq<
    (u16, Uuid),
> {
    let found = in_range(table, start, end);
    if found.len() == 0 {
        Seq::empty()
    } else {
        let format = found[0].type_uuid.format();
        let run = uniform_run(found, format);
        let n = if run <= batch_capacity(format) {
            run
        } else {
            batch_capacity(format)
        };
        Seq::new(n, |i: int| (found[i].handle, found[i].type_uuid))
    }
}

/// What the server answers to `att` when it holds `table`.
pub open spec fn response(table: Seq<AttributeView>, att: AttView) -> Result<
    Option<AttRspView>,
    AttError,
> {
    match att {
        AttView::ExchangeMtu { mtu } => Ok(Some(AttRspView::ExchangeMtu { mtu: ATT_MTU as u16 })),
        AttView::FindInformation { start_handle, end_handle } => {
            if start_handle == 0 || start_handle > end_handle {
                Err(AttError::InvalidHandle)
            } else if find_information_batch(table, start_handle, end_handle).len() == 0 {
                Err(AttError::AttributeNotFound)
            } else {
                Ok(
                    Some(
                        AttRspView::FindInformation {
                            entries: find_information_batch(table, start_handle, end_handle),
                        },
                    ),
                )
            }
        },
        AttView::ReadReq { handle } => match lookup(table, handle) {
            None => Err(AttError::InvalidHandle),
            Some(i) => if !table[i].permissions.readable {
                Err(AttError::ReadNotPermitted)
            } else {
                Ok(Some(AttRspView::Read { value: read_value(table[i].value) }))
            },
        },
        AttView::WriteReq { handle, data } => match write_target(table, handle, data.len()) {
            Err(e) => Err(e),
            Ok(_) => Ok(Some(AttRspView::Write)),
        },
        AttView::WriteCmd { handle, data } => match write_target(table, handle, data.len()) {
            Err(e) => Err(e),
            Ok(_) => Ok(None),
        },
    }
}

/// The table after the server has dealt with `att`: a write that is not
/// refused changes one value, nothing else changes anything.
pub open spec fn table_after(table: Seq<AttributeView>, att: AttView) -> Seq<AttributeView> {
    match att {
        AttView::WriteReq { handle, data } => match write_target(table, handle, data.len()) {
            Err(_) => table,
            Ok(i) => written(table, i, data),
        },
        AttView::WriteCmd { handle, data } => match write_target(table, handle, data.len()) {
            Err(_) => table,
            Ok(i) => written(table, i, data),
        },
        _ => table,
    }
}

/// What a result of `process` stands for.
pub open spec fn outcome_view(r: Result<Option<AttRsp<'_>>, AttError>) -> Result<
    Option<AttRspView>,
    AttError,
> {
    match r {
        Ok(Some(rsp)) => Ok(Some(rsp@)),
        Ok(None) => Ok(None),
        Err(e) => Err(e),
    }
}

/// A write keeps the handles, so it keeps the table well formed.
pub proof fn lemma_written_well_formed(table: Seq<AttributeView>, i: int, data: Seq<u8>)
    requires
        well_formed(table),
        0 <= i < table.len(),
    ensures
        well_formed(written(table, i, data)),
{
    let after = written(table, i, data);
    assert forall|a: int| 0 <= a < after.len() implies (#[trigger] after[a]).handle != 0 by {
        assert(table[a].handle != 0);
    }
    assert forall|a: int, b: int| 0 <= a < b < after.len() implies (#[trigger] after[a]).handle != (
    #[trigger] after[b]).handle by {
        assert(table[a].handle != table[b].handle);
    }
}

/// Whatever the request, the table keeps its length and stays well formed.
pub proof fn lemma_table_after_well_formed(table: Seq<AttributeView>, att: AttView)
    requires
        well_formed(table),
    ensures
        well_formed(table_after(table, att)),
        table_after(table, att).len() == table.len(),
{
    match att {
        AttView::WriteReq { handle, data } => {
            crate::attribute::lemma_lookup_sound(table, handle);
            if let Ok(i) = write_target(table, handle, data.len()) {
                lemma_written_well_formed(table, i, data);
            }
        },
        AttView::WriteCmd { handle, data } => {
            crate::attribute::lemma_lookup_sound(table, handle);
            if let Ok(i) = write_target(table, handle, data.len()) {
                lemma_written_well_formed(table, i, data);
            }
        },
        _ => {},
    }
}

/// The attributes in range of two tables put together are those of the one
/// followed by those of the other.
pub proof fn lemma_in_range_add(a: Seq<AttributeView>, b: Seq<AttributeView>, start: u16, end: u16)
    ensures
        in_range(a + b, start, end) == in_range(a, start, end) + in_range(b, start, end),
    decreases b.len(),
{
    if b.len() == 0 {
        assert(a + b =~= a);
        assert(in_range(a, start, end) + in_range(b, start, end) =~= in_range(a, start, end));
    } else {
        assert((a + b).drop_last() =~= a + b.drop_last());
        lemma_in_range_add(a, b.drop_last(), start, end);
        assert(in_range(a + b, start, end) =~= in_range(a, start, end) + in_range(b, start, end));
    }
}

/// Behind attributes whose UUIDs all have the given format, the run goes on
/// as it would from there.
pub proof fn lemma_uniform_run_add(x: Seq<AttributeView>, y: Seq<AttributeView>, format: u8)
    requires
        forall|j: int| 0 <= j < x.len() ==> (#[trigger] x[j]).type_uuid.format() == format,
    ensures
        uniform_run(x + y, format) == x.len() + uniform_run(y, format),
    decreases x.len(),
{
    if x.len() == 0 {
        assert(x + y =~= y);
    } else {
        assert((x + y).skip(1) =~= x.skip(1) + y);
        assert forall|j: int| 0 <= j < x.skip(1).len() implies (#[trigger] x.skip(1)[j]).type_uuid.format()
            == format by {
            assert(x.skip(1)[j] == x[j + 1]);
        }
        lemma_uniform_run_add(x.skip(1), y, format);
        assert((x + y)[0] == x[0]);
    }
}

/// The bytes that entries take when their UUIDs all have one format: as
/// many times the bytes of one entry as there are entries.
pub proof fn lemma_uniform_entries_wire_len(entries: Seq<(u16, Uuid)>, format: u8)
    requires
        forall|j: int| 0 <= j < entries.len() ==> (#[trigger] entries[j]).1.format() == format,
    ensures
        format == FORMAT_UUID16 ==> entries_wire(entries).len() == 4 * entries.len(),
        format != FORMAT_UUID16 ==> entries_wire(entries).len() == 18 * entries.len(),
    decreases entries.len(),
{
    if entries.len() > 0 {
        assert forall|j: int| 0 <= j < entries.drop_last().len() implies (
        #[trigger] entries.drop_last()[j]).1.format() == format by {
            assert(entries.drop_last()[j] == entries[j]);
        }
        lemma_uniform_entries_wire_len(entries.drop_last(), format);
        assert(entries.last() == entries[entries.len() - 1]);
    }
}

/// The run of a format in found attributes is no longer than they are, and
/// every attribute in it has the format.
pub proof fn lemma_uniform_run_bound(found: Seq<AttributeView>, format: u8)
    ensures
        uniform_run(found, format) <= found.len(),
        forall|j: int|
            0 <= j < uniform_run(found, format) ==> (#[trigger] found[j]).type_uuid.format() == format,
    decreases found.len(),
{
    if found.len() > 0 && found[0].type_uuid.format() == format {
        lemma_uniform_run_bound(found.skip(1), format);
        assert forall|j: int| 0 <= j < uniform_run(found, format) implies (
        #[trigger] found[j]).type_uuid.format() == format by {
            if j > 0 {
                assert(found.skip(1)[j - 1] == found[j]);
            }
        }
    }
}

/// Every response fits into one PDU of `ATT_MTU` bytes.
pub proof fn lemma_response_fits(table: Seq<AttributeView>, att: AttView)
    ensures
        response(table, att) matches Ok(Some(rsp)) ==> rsp.wire().len() <= ATT_MTU,
{
    match att {
        AttView::FindInformation { start_handle, end_handle } => {
            let found = in_range(table, start_handle, end_handle);
            let batch = find_information_batch(table, start_handle, end_handle);
            if found.len() > 0 {
                let format = found[0].type_uuid.format();
                lemma_uniform_run_bound(found, format);
                lemma_uniform_entries_wire_len(batch, format);
            }
        },
        _ => {},
    }
}

/// The attribute table and the rules by which requests read and change it.
/// The table is well formed as long as the server holds it.
pub struct AttributeServer {
    attributes: Vec<Attribute>,
}

impl View for AttributeServer {
    type V = Seq<AttributeView>;

    closed spec fn view(&self) -> Seq<AttributeView> {
        table_of(self.attributes@)
    }
}

impl AttributeServer {
    #[verifier::type_invariant]
    spec fn inv(self) -> bool {
        well_formed(table_of(self.attributes@))
    }

    /// A server that holds the given attributes. Their handles are not zero,
    /// and no two are equal.
    pub fn new(attributes: Vec<Attribute>) -> (server: Self)
        requires
            well_formed(table_of(attributes@)),
        ensures
            server@ == table_of(attributes@),
    {
        AttributeServer { attributes }
    }

    /// The attributes as they are now.
    pub fn attributes(&self) -> (attributes: &[Attribute])
        ensures
            table_of(attributes@) == self@,
            well_formed(self@),
    {
        proof {
            use_type_invariant(self);
        }
        self.attributes.as_slice()
    }

    /// Hands the attributes back.
    pub fn into_attributes(self) -> (attributes: Vec<Attribute>)
        ensures
            table_of(attributes@) == self@,
            well_formed(self@),
    {
        proof {
            use_type_invariant(&self);
        }
        self.attributes
    }

    /// Reads the value of the attribute with the given handle, as far as it
    /// fits into one response.
    fn read(&self, handle: u16) -> (r: Result<&[u8], AttError>)
        ensures
            r is Ok <==> response(self@, AttView::ReadReq { handle }) is Ok,
            r is Ok ==> response(self@, AttView::ReadReq { handle }) == Ok::<
                Option<AttRspView>,
                AttError,
            >(Some(AttRspView::Read { value: r->Ok_0@ })),
            r is Err ==> response(self@, AttView::ReadReq { handle }) == Err::<
                Option<AttRspView>,
                AttError,
            >(r->Err_0),
    {
        match find(self.attributes.as_slice(), handle) {
            None => Err(AttError::InvalidHandle),
            Some(i) => {
                let attribute = &self.attributes[i];
                if !attribute.permissions.readable {
                    Err(AttError::ReadNotPermitted)
                } else {
                    let value = attribute.value.as_slice();
                    let n = if value.len() <= MAX_READ_LEN {
                        value.len()
                    } else {
                        MAX_READ_LEN
                    };
                    let part = vstd::slice::slice_subrange(value, 0, n);
                    assert(part@ =~= read_value(self@[i as int].value));
                    Ok(part)
                }
            },
        }
    }

    /// Writes `data` over the first bytes of the value of the attribute with
    /// the given handle. A write that is refused changes nothing.
    fn write(&mut self, handle: u16, data: &[u8]) -> (r: Result<(), AttError>)
        ensures
            r is Ok <==> write_target(old(self)@, handle, data@.len()) is Ok,
            r is Err ==> write_target(old(self)@, handle, data@.len()) == Err::<int, AttError>(
                r->Err_0,
            ) && final(self)@ == old(self)@,
            r is Ok ==> final(self)@ == written(
                old(self)@,
                write_target(old(self)@, handle, data@.len())->Ok_0,
                data@,
            ),
    {
        proof {
            use_type_invariant(&*self);
        }
        match find(self.attributes.as_slice(), handle) {
            None => Err(AttError::InvalidHandle),
            Some(i) => {
                if !self.attributes[i].permissions.writable {
                    Err(AttError::WriteNotPermitted)
                } else if data.len() > self.attributes[i].value.len() {
                    Err(AttError::InvalidAttributeValueLength)
                } else {
                    let ghost before = table_of(self.attributes@);
                    // The table leaves the server while one of its values changes.
                    let mut attributes = Vec::new();
                    core::mem::swap(&mut self.attributes, &mut attributes);
                    write_bytes(attributes[i].value.as_mut_slice(), 0, data);
                    proof {
                        assert(table_of(attributes@) =~= written(before, i as int, data@));
                        lemma_written_well_formed(before, i as int, data@);
                    }
                    self.attributes = attributes;
                    Ok(())
                }
            },
        }
    }

    /// Collects the entries of the response to a find-information request.
    fn find_information(&self, start: u16, end: u16) -> (entries: Vec<(u16, Uuid)>)
        ensures
            entries@ == find_information_batch(self@, start, end),
    {
        let ghost table = self@;
        let mut entries: Vec<(u16, Uuid)> = Vec::new();
        let n = self.attributes.len();
        let mut i: usize = 0;
        while i < n
            invariant
                i <= n,
                n == table.len(),
                table == table_of(self.attributes@),
                entries@.len() == in_range(table.take(i as int), start, end).len(),
                forall|j: int|
                    0 <= j < entries@.len() ==> (#[trigger] entries@[j]) == (
                        in_range(table.take(i as int), start, end)[j].handle,
                        in_range(table.take(i as int), start, end)[j].type_uuid,
                    ),
                forall|j: int|
                    0 <= j < entries@.len() ==> (#[trigger] in_range(
                        table.take(i as int),
                        start,
                        end,
                    )[j]).type_uuid.format() == in_range(table.take(i as int), start, end)[0].type_uuid.format(),
                entries@.len() > 0 ==> entries@.len() <= batch_capacity(
                    in_range(table.take(i as int), start, end)[0].type_uuid.format(),
                ),
            decreases n - i,
        {
            let ghost found = in_range(table.take(i as int), start, end);
            proof {
                assert(table.take(i + 1).drop_last() =~= table.take(i as int));
                assert(table.take(i + 1).last() == table[i as int]);
            }
            let attribute = &self.attributes[i];
            if start <= attribute.handle && attribute.handle <= end {
                if entries.len() > 0 {
                    let format = entries[0].1.format_byte();
                    let capacity: usize = if format == FORMAT_UUID16 {
                        5
                    } else {
                        1
                    };
                    if attribute.type_uuid.format_byte() != format || entries.len() >= capacity {
                        proof {
                            let rest = seq![table[i as int]] + in_range(
                                table.skip(i + 1),
                                start,
                                end,
                            );
                            assert(table =~= table.take(i + 1) + table.skip(i + 1));
                            lemma_in_range_add(table.take(i + 1), table.skip(i + 1), start, end);
                            assert(in_range(table, start, end) =~= found + rest);
                            lemma_uniform_run_add(found, rest, format);
                            assert(rest.skip(1) =~= in_range(table.skip(i + 1), start, end));
                            lemma_uniform_run_bound(rest.skip(1), format);
                            assert(entries@ =~= find_information_batch(table, start, end));
                        }
                        return entries;
                    }
                }
                entries.push((attribute.handle, attribute.type_uuid));
            }
            i += 1;
        }
        proof {
            let found = in_range(table, start, end);
            assert(table.take(n as int) =~= table);
            if found.len() > 0 {
                lemma_uniform_run_add(found, Seq::empty(), found[0].type_uuid.format());
                assert(found + Seq::<AttributeView>::empty() =~= found);
            }
            assert(entries@ =~= find_information_batch(table, start, end));
        }
        entries
    }

    /// Deals with one request: checks it against the table, changes the
    /// table where the request is a write that is not refused, and hands out
    /// the response, if the request gets one. The value of a read response is
    /// borrowed from the table.
    pub fn process<'s>(&'s mut self, att: Att<'_>) -> (r: Result<Option<AttRsp<'s>>, AttError>)
        ensures
            outcome_view(r) == response(old(self)@, att@),
            final(self)@ == table_after(old(self)@, att@),
            r matches Ok(Some(rsp)) ==> rsp@.wire().len() <= ATT_MTU,
    {
        proof {
            lemma_response_fits(self@, att@);
        }
        match att {
            Att::ExchangeMtu { mtu } => Ok(Some(AttRsp::ExchangeMtu { mtu: ATT_MTU as u16 })),
            Att::FindInformation { start_handle, end_handle } => {
                if start_handle == 0 || start_handle > end_handle {
                    Err(AttError::InvalidHandle)
                } else {
                    let entries = self.find_information(start_handle, end_handle);
                    if entries.len() == 0 {
                        Err(AttError::AttributeNotFound)
                    } else {
                        Ok(Some(AttRsp::FindInformation { entries }))
                    }
                }
            },
            Att::ReadReq { handle } => match self.read(handle) {
                Ok(value) => Ok(Some(AttRsp::Read { value })),
                Err(e) => Err(e),
            },
            Att::WriteReq { handle, data } => match self.write(handle, data) {
                Ok(()) => Ok(Some(AttRsp::Write)),
                Err(e) => Err(e),
            },
            Att::WriteCmd { handle, data } => match self.write(handle, data) {
                Ok(()) => Ok(None),
                Err(e) => Err(e),
            },
        }
    }
}

} // verus!
