//! Little-endian fields and byte strings inside a buffer.

use vstd::prelude::*;

verus! {

/// The two bytes of `v`, least significant first.
pub open spec fn le16(v: u16) -> Seq<u8> {
    seq![(v % 256) as u8, (v / 256) as u8]
}

/// The 16-bit value whose little-endian bytes are `lo`, `hi`.
pub open spec fn from_le16(lo: u8, hi: u8) -> u16 {
    (lo as int + 256 * (hi as int)) as u16
}

/// `s` with the bytes from `at` on replaced by `part`, as far as `part`
/// goes.
pub open spec fn splice(s: Seq<u8>, at: int, part: Seq<u8>) -> Seq<u8>
    recommends
        0 <= at,
        at + part.len() <= s.len(),
{
    s.take(at) + part + s.skip(at + part.len())
}

/// Reads a little-endian 16-bit value at `at`.
pub fn read_le16(bytes: &[u8], at: usize) -> (v: u16)
    requires
        at + 2 <= bytes@.len(),
    ensures
        v == from_le16(bytes@[at as int], bytes@[at + 1]),
{
    let lo: u16 = bytes[at] as u16;
    let hi: u16 = bytes[at + 1] as u16;
    lo + 256 * hi
}

/// Writes `v` at `at`, least significant byte first, and leaves every other
/// byte as it was.
pub fn write_le16(dest: &mut [u8], at: usize, v: u16)
    requires
        at + 2 <= old(dest)@.len(),
    ensures
        final(dest)@ == splice(old(dest)@, at as int, le16(v)),
{
    dest[at] = (v % 256) as u8;
    dest[at + 1] = (v / 256) as u8;
    assert(dest@ =~= splice(old(dest)@, at as int, le16(v)));
}

/// Copies `src` to `dest` from `at` on and leaves every other byte as it
/// was.
pub fn write_bytes(dest: &mut [u8], at: usize, src: &[u8])
    requires
        at + src@.len() <= old(dest)@.len(),
    ensures
        final(dest)@ == splice(old(dest)@, at as int, src@),
{
    let n = src.len();
    let mut i: usize = 0;
    while i < n
        invariant
            i <= n,
            n == src@.len(),
            at + n <= dest.len(),
            dest@.len() == old(dest)@.len(),
            forall|j: int| 0 <= j < at ==> dest@[j] == old(dest)@[j],
            forall|j: int| 0 <= j < i ==> dest@[at + j] == src@[j],
            forall|j: int| at + i <= j < dest@.len() ==> dest@[j] == old(dest)@[j],
        decreases n - i,
    {
        dest[at + i] = src[i];
        i += 1;
    }
    assert(dest@ =~= splice(old(dest)@, at as int, src@));
}

/// Reading the two bytes of a value gives the value back.
pub proof fn lemma_le16_round_trip(v: u16)
    ensures
        le16(v).len() == 2,
        from_le16(le16(v)[0], le16(v)[1]) == v,
{
}

/// Writing the value of two bytes gives the bytes back.
pub proof fn lemma_from_le16_round_trip(lo: u8, hi: u8)
    ensures
        le16(from_le16(lo, hi)) == seq![lo, hi],
{
    assert(le16(from_le16(lo, hi)) =~= seq![lo, hi]);
}

} // verus!
