//! Attributes and the table that holds them.

use crate::att::Uuid;
use vstd::prelude::*;

verus! {

/// What a peer may do with an attribute's value.
#[derive(Clone, Copy, Debug, PartialEq, Eq, Structural)]
pub struct Permissions {
    pub readable: bool,
    pub writable: bool,
}

/// One entry of the GATT database. The value has a fixed length: a write
/// replaces its first bytes and never changes how many there are.
#[derive(Clone, Debug, PartialEq, Eq)]
pub struct Attribute {
    pub handle: u16,
    pub type_uuid: Uuid,
    pub permissions: Permissions,
    pub value: Vec<u8>,
}

/// What an attribute holds, as the contracts speak of it.
pub struct AttributeView {
    pub handle: u16,
    pub type_uuid: Uuid,
    pub permissions: Permissions,
    pub value: Seq<u8>,
}

impl View for Attribute {
    type V = AttributeView;

    open spec fn view(&self) -> AttributeView {
        AttributeView {
            handle: self.handle,
            type_uuid: self.type_uuid,
            permissions: self.permissions,
            value: self.value@,
        }
    }
}

/// The table that a sequence of attributes stands for.
pub open spec fn table_of(attributes: Seq<Attribute>) -> Seq<AttributeView> {
    Seq::new(attributes.len(), |i: int| attributes[i]@)
}

/// Whether no handle of the table is zero and none occurs twice.
pub open spec fn well_formed(table: Seq<AttributeView>) -> bool {
    &&& forall|i: int| 0 <= i < table.len() ==> (#[trigger] table[i]).handle != 0
    &&& forall|i: int, j: int|
        0 <= i < j < table.len() ==> (#[trigger] table[i]).handle != (#[trigger] table[j]).handle
}

/// Whether `i` is the first place of the table that holds `handle`.
pub open spec fn is_first(table: Seq<AttributeView>, handle: u16, i: int) -> bool {
    &&& 0 <= i < table.len()
    &&& table[i].handle == handle
    &&& forall|j: int| 0 <= j < i ==> (#[trigger] table[j]).handle != handle
}

/// The first place of the table that holds `handle`; in a well-formed table
/// it is the only one.
pub open spec fn lookup(table: Seq<AttributeView>, handle: u16) -> Option<int> {
    if exists|i: int| is_first(table, handle, i) {
        Some(choose|i: int| is_first(table, handle, i))
    } else {
        None
    }
}

/// The first place that holds a handle is what `lookup` gives.
pub proof fn lemma_lookup_found(table: Seq<AttributeView>, handle: u16, i: int)
    requires
        is_first(table, handle, i),
    ensures
        lookup(table, handle) == Some(i),
{
    let found = choose|k: int| is_first(table, handle, k);
    assert(is_first(table, handle, found));
    if found < i {
        assert(table[found].handle != handle);
    } else if i < found {
        assert(table[i].handle != handle);
    }
}

/// A handle that no place holds is not found.
pub proof fn lemma_lookup_absent(table: Seq<AttributeView>, handle: u16)
    requires
        forall|j: int| 0 <= j < table.len() ==> (#[trigger] table[j]).handle != handle,
    ensures
        lookup(table, handle) is None,
{
}

/// What `lookup` finds holds the handle; what it does not find is nowhere.
pub proof fn lemma_lookup_sound(table: Seq<AttributeView>, handle: u16)
    ensures
        lookup(table, handle) is Some ==> is_first(table, handle, lookup(table, handle)->Some_0),
        lookup(table, handle) is None ==> forall|j: int|
            0 <= j < table.len() ==> (#[trigger] table[j]).handle != handle,
{
    if lookup(table, handle) is None {
        assert forall|j: int| 0 <= j < table.len() implies (#[trigger] table[j]).handle
            != handle by {
            if table[j].handle == handle {
                lemma_some_place_is_first(table, handle, j);
            }
        }
    }
}

proof fn lemma_some_place_is_first(table: Seq<AttributeView>, handle: u16, j: int)
    requires
        0 <= j < table.len(),
        table[j].handle == handle,
    ensures
        exists|i: int| is_first(table, handle, i),
    decreases j,
{
    if forall|k: int| 0 <= k < j ==> (#[trigger] table[k]).handle != handle {
        assert(is_first(table, handle, j));
    } else {
        let k = choose|k: int| 0 <= k < j && (#[trigger] table[k]).handle == handle;
        lemma_some_place_is_first(table, handle, k);
    }
}

/// Finds the place of the attribute with the given handle.
pub fn find(attributes: &[Attribute], handle: u16) -> (r: Option<usize>)
    ensures
        r is Some <==> lookup(table_of(attributes@), handle) is Some,
        r is Some ==> lookup(table_of(attributes@), handle) == Some(r->Some_0 as int),
{
    let ghost table = table_of(attributes@);
    let mut i: usize = 0;
    while i < attributes.len()
        invariant
            i <= attributes@.len(),
            table == table_of(attributes@),
            forall|j: int| 0 <= j < i ==> (#[trigger] table[j]).handle != handle,
        decreases attributes@.len() - i,
    {
        if attributes[i].handle == handle {
            proof {
                lemma_lookup_found(table, handle, i as int);
            }
            return Some(i);
        }
        i += 1;
    }
    proof {
        lemma_lookup_absent(table, handle);
    }
    None
}

/// Whether no handle is zero and none occurs twice.
pub fn is_well_formed(attributes: &[Attribute]) -> (ok: bool)
    ensures
        ok == well_formed(table_of(attributes@)),
{
    let ghost table = table_of(attributes@);
    let n = attributes.len();
    let mut i: usize = 0;
    while i < n
        invariant
            i <= n,
            n == attributes@.len(),
            table == table_of(attributes@),
            forall|a: int| 0 <= a < i ==> (#[trigger] table[a]).handle != 0,
            forall|a: int, b: int|
                0 <= a < b < n && a < i ==> (#[trigger] table[a]).handle != (
                #[trigger] table[b]).handle,
        decreases n - i,
    {
        if attributes[i].handle == 0 {
            assert(table[i as int].handle == 0);
            return false;
        }
        let mut j: usize = i + 1;
        while j < n
            invariant
                i < j <= n,
                n == attributes@.len(),
                table == table_of(attributes@),
                forall|b: int| i < b < j ==> table[i as int].handle != (#[trigger] table[b]).handle,
            decreases n - j,
        {
            if attributes[j].handle == attributes[i].handle {
                assert(table[i as int].handle == table[j as int].handle);
                return false;
            }
            j += 1;
        }
        i += 1;
    }
    true
}

} // verus!
