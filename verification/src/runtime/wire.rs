//! Little-endian fields of the records that probes share with user space.
use vstd::prelude::*;
use crate::events::{lossy_utf8, opt_string_view, utf8_lossy};

verus! {

pub open spec fn le16(s: Seq<u8>, at: int) -> u16 {
    (s[at] as u16) | ((s[at + 1] as u16) << 8u16)
}

pub open spec fn le32(s: Seq<u8>, at: int) -> u32 {
    (s[at] as u32) | ((s[at + 1] as u32) << 8u32) | ((s[at + 2] as u32) << 16u32) | ((s[at + 3] as u32)
        << 24u32)
}

pub open spec fn le64(s: Seq<u8>, at: int) -> u64 {
    (s[at] as u64) | ((s[at + 1] as u64) << 8u64) | ((s[at + 2] as u64) << 16u64) | ((s[at + 3] as u64)
        << 24u64) | ((s[at + 4] as u64) << 32u64) | ((s[at + 5] as u64) << 40u64) | ((s[at + 6] as u64)
        << 48u64) | ((s[at + 7] as u64) << 56u64)
}

/// The little-endian bytes of a 16-bit value.
pub open spec fn bytes16(x: u16) -> Seq<u8> {
    seq![(x & 0xff) as u8, ((x >> 8u16) & 0xff) as u8]
}

pub open spec fn bytes32(x: u32) -> Seq<u8> {
    seq![
        (x & 0xff) as u8,
        ((x >> 8u32) & 0xff) as u8,
        ((x >> 16u32) & 0xff) as u8,
        ((x >> 24u32) & 0xff) as u8,
    ]
}

pub open spec fn bytes64(x: u64) -> Seq<u8> {
    seq![
        (x & 0xff) as u8,
        ((x >> 8u64) & 0xff) as u8,
        ((x >> 16u64) & 0xff) as u8,
        ((x >> 24u64) & 0xff) as u8,
        ((x >> 32u64) & 0xff) as u8,
        ((x >> 40u64) & 0xff) as u8,
        ((x >> 48u64) & 0xff) as u8,
        ((x >> 56u64) & 0xff) as u8,
    ]
}

pub fn read_le16(data: &[u8], at: usize) -> (r: u16)
    requires
        at + 2 <= data@.len(),
    ensures
        r == le16(data@, at as int),
{
    (data[at] as u16) | ((data[at + 1] as u16) << 8u16)
}

pub fn read_le32(data: &[u8], at: usize) -> (r: u32)
    requires
        at + 4 <= data@.len(),
    ensures
        r == le32(data@, at as int),
{
    (data[at] as u32) | ((data[at + 1] as u32) << 8u32) | ((data[at + 2] as u32) << 16u32) | ((data[at
        + 3] as u32) << 24u32)
}

pub fn read_le64(data: &[u8], at: usize) -> (r: u64)
    requires
        at + 8 <= data@.len(),
    ensures
        r == le64(data@, at as int),
{
    (data[at] as u64) | ((data[at + 1] as u64) << 8u64) | ((data[at + 2] as u64) << 16u64) | ((data[at
        + 3] as u64) << 24u64) | ((data[at + 4] as u64) << 32u64) | ((data[at + 5] as u64) << 40u64)
        | ((data[at + 6] as u64) << 48u64) | ((data[at + 7] as u64) << 56u64)
}

pub fn push_le16(out: &mut Vec<u8>, x: u16)
    ensures
        final(out)@ == old(out)@ + bytes16(x),
{
    out.push((x & 0xff) as u8);
    out.push(((x >> 8u16) & 0xff) as u8);
    assert(out@ =~= old(out)@ + bytes16(x));
}

pub fn push_le32(out: &mut Vec<u8>, x: u32)
    ensures
        final(out)@ == old(out)@ + bytes32(x),
{
    out.push((x & 0xff) as u8);
    out.push(((x >> 8u32) & 0xff) as u8);
    out.push(((x >> 16u32) & 0xff) as u8);
    out.push(((x >> 24u32) & 0xff) as u8);
    assert(out@ =~= old(out)@ + bytes32(x));
}

pub fn push_le64(out: &mut Vec<u8>, x: u64)
    ensures
        final(out)@ == old(out)@ + bytes64(x),
{
    out.push((x & 0xff) as u8);
    out.push(((x >> 8u64) & 0xff) as u8);
    out.push(((x >> 16u64) & 0xff) as u8);
    out.push(((x >> 24u64) & 0xff) as u8);
    out.push(((x >> 32u64) & 0xff) as u8);
    out.push(((x >> 40u64) & 0xff) as u8);
    out.push(((x >> 48u64) & 0xff) as u8);
    out.push(((x >> 56u64) & 0xff) as u8);
    assert(out@ =~= old(out)@ + bytes64(x));
}

pub fn push_bytes(out: &mut Vec<u8>, bytes: &[u8])
    ensures
        final(out)@ == old(out)@ + bytes@,
{
    let mut i: usize = 0;
    while i < bytes.len()
        invariant
            i <= bytes@.len(),
            out@ == old(out)@ + bytes@.subrange(0, i as int),
        decreases bytes@.len() - i,
    {
        out.push(bytes[i]);
        assert(bytes@.subrange(0, i + 1) =~= bytes@.subrange(0, i as int).push(bytes@[i as int]));
        i += 1;
    }
    assert(bytes@.subrange(0, bytes@.len() as int) =~= bytes@);
}

/// Reading back the bytes of a value gives the value.
pub proof fn lemma_round_trip16(x: u16)
    ensures
        le16(bytes16(x), 0) == x,
{
    let b = bytes16(x);
    assert(b[0] == (x & 0xff) as u8 && b[1] == ((x >> 8u16) & 0xff) as u8);
    assert(((((x & 0xff) as u8) as u16) | (((((x >> 8u16) & 0xff) as u8) as u16) << 8u16)) == x) by (bit_vector);
}

pub proof fn lemma_round_trip32(x: u32)
    ensures
        le32(bytes32(x), 0) == x,
{
    let b = bytes32(x);
    assert(b[0] == (x & 0xff) as u8 && b[1] == ((x >> 8u32) & 0xff) as u8 && b[2] == ((x >> 16u32)
        & 0xff) as u8 && b[3] == ((x >> 24u32) & 0xff) as u8);
    assert(((((x & 0xff) as u8) as u32) | (((((x >> 8u32) & 0xff) as u8) as u32) << 8u32) | (((((x
        >> 16u32) & 0xff) as u8) as u32) << 16u32) | (((((x >> 24u32) & 0xff) as u8) as u32) << 24u32))
        == x) by (bit_vector);
}

pub proof fn lemma_round_trip64(x: u64)
    ensures
        le64(bytes64(x), 0) == x,
{
    let b = bytes64(x);
    assert(b[0] == (x & 0xff) as u8 && b[1] == ((x >> 8u64) & 0xff) as u8 && b[2] == ((x >> 16u64)
        & 0xff) as u8 && b[3] == ((x >> 24u64) & 0xff) as u8 && b[4] == ((x >> 32u64) & 0xff) as u8
        && b[5] == ((x >> 40u64) & 0xff) as u8 && b[6] == ((x >> 48u64) & 0xff) as u8 && b[7] == ((x
        >> 56u64) & 0xff) as u8);
    assert(((((x & 0xff) as u8) as u64) | (((((x >> 8u64) & 0xff) as u8) as u64) << 8u64) | (((((x
        >> 16u64) & 0xff) as u8) as u64) << 16u64) | (((((x >> 24u64) & 0xff) as u8) as u64) << 24u64)
        | (((((x >> 32u64) & 0xff) as u8) as u64) << 32u64) | (((((x >> 40u64) & 0xff) as u8) as u64)
        << 40u64) | (((((x >> 48u64) & 0xff) as u8) as u64) << 48u64) | (((((x >> 56u64) & 0xff) as u8)
        as u64) << 56u64)) == x) by (bit_vector);
}


/// The position of the first NUL byte, or the length when there is none.
pub open spec fn nul_at(b: Seq<u8>) -> int
    decreases b.len(),
{
    if b.len() == 0 || b[0] == 0 {
        0
    } else {
        1 + nul_at(b.drop_first())
    }
}

proof fn lemma_nul_at(b: Seq<u8>)
    ensures
        0 <= nul_at(b) <= b.len(),
        forall|i: int| 0 <= i < nul_at(b) ==> b[i] != 0,
        nul_at(b) < b.len() ==> b[nul_at(b)] == 0,
    decreases b.len(),
{
    if b.len() > 0 && b[0] != 0 {
        lemma_nul_at(b.drop_first());
        assert forall|i: int| 0 <= i < nul_at(b) implies b[i] != 0 by {
            if i > 0 {
                assert(b[i] == b.drop_first()[i - 1]);
            }
        }
    }
}

/// A NUL-terminated text field: its bytes up to the first NUL, decoded
/// lossily; absent when empty.
pub open spec fn c_text(b: Seq<u8>) -> Option<Seq<char>> {
    if nul_at(b) == 0 {
        None
    } else {
        Some(lossy_utf8(b.subrange(0, nul_at(b))))
    }
}

pub fn c_string(b: &[u8]) -> (r: Option<String>)
    ensures
        opt_string_view(r) == c_text(b@),
{
    let mut i: usize = 0;
    proof {
        lemma_nul_at(b@);
    }
    while i < b.len() && b[i] != 0
        invariant
            i <= b@.len(),
            forall|j: int| 0 <= j < i ==> b@[j] != 0,
            0 <= nul_at(b@) <= b@.len(),
            forall|j: int| 0 <= j < nul_at(b@) ==> b@[j] != 0,
            nul_at(b@) < b@.len() ==> b@[nul_at(b@)] == 0,
        decreases b@.len() - i,
    {
        i += 1;
    }
    assert(i == nul_at(b@));
    if i == 0 {
        return None;
    }
    Some(utf8_lossy(vstd::slice::slice_subrange(b, 0, i)))
}

} // verus!
