//! Little-endian integer fields inside a byte buffer.
//!
//! The BMP format stores every multi-byte field little-endian.  The spec
//! functions here say what a field at a given offset means as a number,
//! and the exec functions read and append such fields, verified against
//! vstd's byte-conversion specifications.

use vstd::prelude::*;
use vstd::bytes::{
    spec_u16_from_le_bytes, spec_u16_to_le_bytes, spec_u32_from_le_bytes, spec_u32_to_le_bytes,
    u16_from_le_bytes, u16_to_le_bytes, u32_from_le_bytes, u32_to_le_bytes,
    lemma_auto_spec_u16_to_from_le_bytes, lemma_auto_spec_u32_to_from_le_bytes,
};
use vstd::slice::slice_subrange;

verus! {

/// The unsigned 16-bit little-endian field at byte offset `i`.
pub open spec fn le16_at(b: Seq<u8>, i: int) -> u16
    recommends
        0 <= i,
        i + 2 <= b.len(),
{
    spec_u16_from_le_bytes(b.subrange(i, i + 2))
}

/// The unsigned 32-bit little-endian field at byte offset `i`.
pub open spec fn le32_at(b: Seq<u8>, i: int) -> u32
    recommends
        0 <= i,
        i + 4 <= b.len(),
{
    spec_u32_from_le_bytes(b.subrange(i, i + 4))
}

/// The two's-complement value of an unsigned 32-bit word.
pub open spec fn signed32(v: u32) -> int {
    if v < 0x8000_0000 {
        v as int
    } else {
        v - 0x1_0000_0000
    }
}

/// The unsigned 32-bit word that stores a signed value in two's
/// complement.
pub open spec fn unsigned32(v: i32) -> u32 {
    if v >= 0 {
        v as u32
    } else {
        (v + 0x1_0000_0000) as u32
    }
}

/// The signed 32-bit little-endian field at byte offset `i`.
pub open spec fn sle32_at(b: Seq<u8>, i: int) -> int
    recommends
        0 <= i,
        i + 4 <= b.len(),
{
    signed32(le32_at(b, i))
}

/// Storing a signed value and reading it back as two's complement is the
/// identity, and vice versa.
pub proof fn lemma_signed32_roundtrip()
    ensures
        forall|v: i32| signed32(#[trigger] unsigned32(v)) == v as int,
        forall|w: u32| #[trigger] unsigned32((signed32(w) as i32)) == w,
        forall|w: u32| i32::MIN <= #[trigger] signed32(w) <= i32::MAX,
{
}

/// Reads the unsigned 16-bit little-endian field at offset `i`.
pub fn read_u16_at(b: &Vec<u8>, i: usize) -> (v: u16)
    requires
        i + 2 <= b@.len(),
    ensures
        v == le16_at(b@, i as int),
{
    let n: usize = b.len();
    proof {
        assert(i + 2 <= n);
    }
    let s = slice_subrange(b.as_slice(), i, i + 2);
    u16_from_le_bytes(s)
}

/// Reads the unsigned 32-bit little-endian field at offset `i`.
pub fn read_u32_at(b: &Vec<u8>, i: usize) -> (v: u32)
    requires
        i + 4 <= b@.len(),
    ensures
        v == le32_at(b@, i as int),
{
    let n: usize = b.len();
    proof {
        assert(i + 4 <= n);
    }
    let s = slice_subrange(b.as_slice(), i, i + 4);
    u32_from_le_bytes(s)
}

/// Reads the signed 32-bit little-endian field at offset `i`.
pub fn read_i32_at(b: &Vec<u8>, i: usize) -> (v: i32)
    requires
        i + 4 <= b@.len(),
    ensures
        v as int == sle32_at(b@, i as int),
{
    let w = read_u32_at(b, i);
    if w >= 0x8000_0000 {
        -((0xFFFF_FFFFu32 - w) as i32) - 1
    } else {
        w as i32
    }
}

/// Appends the two little-endian bytes of an unsigned 16-bit value.
pub fn push_u16_le(out: &mut Vec<u8>, v: u16)
    ensures
        final(out)@ == old(out)@ + spec_u16_to_le_bytes(v),
{
    let mut bs = u16_to_le_bytes(v);
    out.append(&mut bs);
}

/// Appends the four little-endian bytes of an unsigned 32-bit value.
pub fn push_u32_le(out: &mut Vec<u8>, v: u32)
    ensures
        final(out)@ == old(out)@ + spec_u32_to_le_bytes(v),
{
    let mut bs = u32_to_le_bytes(v);
    out.append(&mut bs);
}

/// Appends the four little-endian bytes of a signed 32-bit value in
/// two's complement.
pub fn push_i32_le(out: &mut Vec<u8>, v: i32)
    ensures
        final(out)@ == old(out)@ + spec_u32_to_le_bytes(unsigned32(v)),
{
    let w: u32 = if v >= 0 {
        v as u32
    } else {
        0xFFFF_FFFFu32 - ((-(v + 1)) as u32)
    };
    proof {
        assert(w == unsigned32(v));
    }
    push_u32_le(out, w);
}

/// A 16-bit field read back from where its bytes were stored gives the
/// stored value.
pub proof fn lemma_le16_of_stored(b: Seq<u8>, i: int, v: u16)
    requires
        0 <= i,
        i + 2 <= b.len(),
        b.subrange(i, i + 2) == spec_u16_to_le_bytes(v),
    ensures
        le16_at(b, i) == v,
{
    lemma_auto_spec_u16_to_from_le_bytes();
    assert(spec_u16_to_le_bytes(v).len() == 2);
    assert(spec_u16_from_le_bytes(spec_u16_to_le_bytes(v)) == v);
}

/// A 32-bit field read back from where its bytes were stored gives the
/// stored value.
pub proof fn lemma_le32_of_stored(b: Seq<u8>, i: int, v: u32)
    requires
        0 <= i,
        i + 4 <= b.len(),
        b.subrange(i, i + 4) == spec_u32_to_le_bytes(v),
    ensures
        le32_at(b, i) == v,
{
    lemma_auto_spec_u32_to_from_le_bytes();
    assert(spec_u32_to_le_bytes(v).len() == 4);
    assert(spec_u32_from_le_bytes(spec_u32_to_le_bytes(v)) == v);
}

} // verus!
