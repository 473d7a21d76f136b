//! Little- and big-endian 32-bit fields over byte sequences, and the
//! four-character codes (FourCC) that the container format uses as tags.
//! A tag is modelled as the big-endian `u32` made of its four ASCII bytes,
//! which keeps every 4-byte comparison a single integer equality.

use vstd::pervasive::VecAdditionalExecFns;
use vstd::prelude::*;

verus! {

/// "RIFF": the container tag expected at byte offset 0.
pub const RIFF_TAG: u32 = 0x5249_4646;

/// "AVI ": the container-kind tag expected at byte offset 8.
pub const AVI_TAG: u32 = 0x4156_4920;

/// "LIST": one of the two optional top-level chunk markers.
pub const LIST_TAG: u32 = 0x4C49_5354;

/// "JUNK": the other optional top-level chunk (padding) marker.
pub const JUNK_TAG: u32 = 0x4A55_4E4B;

/// "movi": first four body bytes of the list chunk holding the frame payloads.
pub const MOVI_TAG: u32 = 0x6D6F_7669;

/// "idx1": the frame-index tag that terminates the top-level walk.
pub const IDX1_TAG: u32 = 0x6964_7831;

/// The value of four bytes read as a little-endian 32-bit integer.
pub open spec fn le32_bytes(b0: u8, b1: u8, b2: u8, b3: u8) -> u32 {
    (b0 + b1 * 0x100 + b2 * 0x1_0000 + b3 * 0x100_0000) as u32
}

/// The value of four bytes read as a big-endian 32-bit integer.
pub open spec fn be32_bytes(b0: u8, b1: u8, b2: u8, b3: u8) -> u32 {
    (b0 * 0x100_0000 + b1 * 0x1_0000 + b2 * 0x100 + b3) as u32
}

/// The little-endian 32-bit value stored at position `p` of `b`.
pub open spec fn le32_at(b: Seq<u8>, p: int) -> u32 {
    le32_bytes(b[p], b[p + 1], b[p + 2], b[p + 3])
}

/// The big-endian 32-bit value stored at position `p` of `b`.
pub open spec fn be32_at(b: Seq<u8>, p: int) -> u32 {
    be32_bytes(b[p], b[p + 1], b[p + 2], b[p + 3])
}

/// The four bytes that store `v` little-endian.
pub open spec fn le_bytes(v: u32) -> Seq<u8> {
    seq![
        (v % 0x100) as u8,
        ((v / 0x100) % 0x100) as u8,
        ((v / 0x1_0000) % 0x100) as u8,
        ((v / 0x100_0000) % 0x100) as u8,
    ]
}

/// The four bytes that store `v` big-endian.
pub open spec fn be_bytes(v: u32) -> Seq<u8> {
    seq![
        ((v / 0x100_0000) % 0x100) as u8,
        ((v / 0x1_0000) % 0x100) as u8,
        ((v / 0x100) % 0x100) as u8,
        (v % 0x100) as u8,
    ]
}

/// Reading back the four little-endian bytes of `v` yields `v`.
pub proof fn lemma_le_round_trip(v: u32)
    ensures
        le32_bytes(
            (v % 0x100) as u8,
            ((v / 0x100) % 0x100) as u8,
            ((v / 0x1_0000) % 0x100) as u8,
            ((v / 0x100_0000) % 0x100) as u8,
        ) == v,
{
    assert(le32_bytes(
        (v % 0x100) as u8,
        ((v / 0x100) % 0x100) as u8,
        ((v / 0x1_0000) % 0x100) as u8,
        ((v / 0x100_0000) % 0x100) as u8,
    ) == v) by (bit_vector);
}

/// Reading back the four big-endian bytes of `v` yields `v`.
pub proof fn lemma_be_round_trip(v: u32)
    ensures
        be32_bytes(
            ((v / 0x100_0000) % 0x100) as u8,
            ((v / 0x1_0000) % 0x100) as u8,
            ((v / 0x100) % 0x100) as u8,
            (v % 0x100) as u8,
        ) == v,
{
    assert(be32_bytes(
        ((v / 0x100_0000) % 0x100) as u8,
        ((v / 0x1_0000) % 0x100) as u8,
        ((v / 0x100) % 0x100) as u8,
        (v % 0x100) as u8,
    ) == v) by (bit_vector);
}

/// Reads the little-endian 32-bit field at `p`.
pub fn read_le32(b: &[u8], p: usize) -> (r: u32)
    requires
        p + 4 <= b@.len(),
    ensures
        r == le32_at(b@, p as int),
{
    let b0 = b[p] as u32;
    let b1 = b[p + 1] as u32;
    let b2 = b[p + 2] as u32;
    let b3 = b[p + 3] as u32;
    b0 + b1 * 0x100 + b2 * 0x1_0000 + b3 * 0x100_0000
}

/// Reads the big-endian 32-bit field at `p`.
pub fn read_be32(b: &[u8], p: usize) -> (r: u32)
    requires
        p + 4 <= b@.len(),
    ensures
        r == be32_at(b@, p as int),
{
    let b0 = b[p] as u32;
    let b1 = b[p + 1] as u32;
    let b2 = b[p + 2] as u32;
    let b3 = b[p + 3] as u32;
    b0 * 0x100_0000 + b1 * 0x1_0000 + b2 * 0x100 + b3
}

/// Appends the four little-endian bytes of `v`.
pub fn push_le32(out: &mut Vec<u8>, v: u32)
    ensures
        final(out)@ == old(out)@ + le_bytes(v),
{
    out.push((v % 0x100) as u8);
    out.push(((v / 0x100) % 0x100) as u8);
    out.push(((v / 0x1_0000) % 0x100) as u8);
    out.push(((v / 0x100_0000) % 0x100) as u8);
    proof {
        assert(out@ =~= old(out)@ + le_bytes(v));
    }
}

/// `s` with the four bytes at `p` replaced by `v`, little-endian.
pub open spec fn patch4(s: Seq<u8>, p: int, v: u32) -> Seq<u8> {
    s.update(p, le_bytes(v)[0]).update(p + 1, le_bytes(v)[1]).update(p + 2, le_bytes(v)[2]).update(
        p + 3,
        le_bytes(v)[3],
    )
}

/// Overwrites the four bytes at `p` with `v`, little-endian.
pub fn set_le32(b: &mut Vec<u8>, p: usize, v: u32)
    requires
        p + 4 <= old(b)@.len(),
    ensures
        final(b)@ == patch4(old(b)@, p as int, v),
{
    let len: usize = b.len();
    proof {
        assert(p + 4 <= len);
    }
    b.set(p, (v % 0x100) as u8);
    b.set(p + 1, ((v / 0x100) % 0x100) as u8);
    b.set(p + 2, ((v / 0x1_0000) % 0x100) as u8);
    b.set(p + 3, ((v / 0x100_0000) % 0x100) as u8);
}

/// Appends the four big-endian bytes of `v`.
pub fn push_be32(out: &mut Vec<u8>, v: u32)
    ensures
        final(out)@ == old(out)@ + be_bytes(v),
{
    out.push(((v / 0x100_0000) % 0x100) as u8);
    out.push(((v / 0x1_0000) % 0x100) as u8);
    out.push(((v / 0x100) % 0x100) as u8);
    out.push((v % 0x100) as u8);
    proof {
        assert(out@ =~= old(out)@ + be_bytes(v));
    }
}

} // verus!
