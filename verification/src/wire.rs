//! Byte-level primitives of the wire format: 4-byte big-endian integer
//! fields and the CRC-32 checksum.
//!
//! The PNG chunk grammar stores every multi-byte integer as 4 bytes, most
//! significant first.  `be_val` and `be_bytes` are the two directions of that
//! encoding as spec functions, with lemmas showing they are mutually inverse.
//! The checksum itself is computed by the `crc` crate; its value is named by
//! the uninterpreted function `crc32_of` and every contract of the library
//! speaks of the checksum through that name.

use vstd::prelude::*;
use byteorder::ByteOrder;

verus! {

/// The value of a 4-byte big-endian unsigned integer field.
#[verifier::opaque]
pub open spec fn be_val(b: Seq<u8>) -> u32
    recommends
        b.len() == 4,
{
    (b[0] * 0x100_0000 + b[1] * 0x1_0000 + b[2] * 0x100 + b[3]) as u32
}

/// The 4 big-endian bytes of a 32-bit value.
#[verifier::opaque]
pub open spec fn be_bytes(x: u32) -> Seq<u8> {
    seq![
        (x / 0x100_0000) as u8,
        ((x / 0x1_0000) % 0x100) as u8,
        ((x / 0x100) % 0x100) as u8,
        (x % 0x100) as u8,
    ]
}

/// A 4-byte field is 4 bytes long.
pub proof fn lemma_be_bytes_len(x: u32)
    ensures
        be_bytes(x).len() == 4,
{
    reveal(be_bytes);
}

/// Encoding a value and reading it back yields the value.
pub proof fn lemma_be_val_of_be_bytes(x: u32)
    ensures
        be_bytes(x).len() == 4,
        be_val(be_bytes(x)) == x,
{
    reveal(be_val);
    reveal(be_bytes);
    assert(((x / 0x100_0000) as u8) * 0x100_0000 + (((x / 0x1_0000) % 0x100) as u8)
        * 0x1_0000 + (((x / 0x100) % 0x100) as u8) * 0x100 + ((x % 0x100) as u8) == x)
        by (bit_vector);
}

/// Reading 4 bytes and re-encoding the value yields the same bytes: the
/// encoding is a bijection between 32-bit values and 4-byte fields.
pub proof fn lemma_be_bytes_of_be_val(b: Seq<u8>)
    requires
        b.len() == 4,
    ensures
        be_bytes(be_val(b)) == b,
{
    reveal(be_val);
    reveal(be_bytes);
    let b0 = b[0];
    let b1 = b[1];
    let b2 = b[2];
    let b3 = b[3];
    let x: u32 = (b0 * 0x100_0000 + b1 * 0x1_0000 + b2 * 0x100 + b3) as u32;
    assert((x / 0x100_0000) as u8 == b0 && ((x / 0x1_0000) % 0x100) as u8 == b1 && ((x
        / 0x100) % 0x100) as u8 == b2 && (x % 0x100) as u8 == b3) by (bit_vector)
        requires
            x == b0 * 0x100_0000 + b1 * 0x1_0000 + b2 * 0x100 + b3,
    ;
    assert(be_bytes(be_val(b)) =~= b);
}

/// Distinct 4-byte fields decode to distinct values.
pub proof fn lemma_be_val_injective(b: Seq<u8>, c: Seq<u8>)
    requires
        b.len() == 4,
        c.len() == 4,
        b != c,
    ensures
        be_val(b) != be_val(c),
{
    if be_val(b) == be_val(c) {
        lemma_be_bytes_of_be_val(b);
        lemma_be_bytes_of_be_val(c);
    }
}

/// Relies on `byteorder::BigEndian::read_u32`: it returns the big-endian
/// value of the first 4 bytes of the slice (and panics on a shorter slice,
/// which the precondition rules out).
#[verifier::external_body]
pub(crate) fn read_be_u32(b: &[u8]) -> (r: u32)
    requires
        b@.len() == 4,
    ensures
        r == be_val(b@),
{
    byteorder::BigEndian::read_u32(b)
}

/// Appends the 4 big-endian bytes of `x` to `v`.
pub(crate) fn push_be_u32(v: &mut Vec<u8>, x: u32)
    ensures
        final(v)@ == old(v)@ + be_bytes(x),
{
    v.push((x / 0x100_0000) as u8);
    v.push(((x / 0x1_0000) % 0x100) as u8);
    v.push(((x / 0x100) % 0x100) as u8);
    v.push((x % 0x100) as u8);
    proof {
        reveal(be_bytes);
        assert(v@ =~= old(v)@ + be_bytes(x));
    }
}

/// The byte with bit `k` flipped.
pub open spec fn flip_bit(b: u8, k: int) -> u8 {
    b ^ (1u8 << (k as u8))
}

/// Flipping a bit inside a byte changes the byte.
pub proof fn lemma_flip_bit_changes(b: u8, k: int)
    requires
        0 <= k < 8,
    ensures
        flip_bit(b, k) != b,
{
    let kk = k as u8;
    assert((b ^ (1u8 << kk)) != b) by (bit_vector)
        requires
            kk < 8,
    ;
}

/// What `crc::crc32::checksum_ieee` returns on a byte sequence: the CRC-32
/// checksum with the IEEE polynomial, reflected input and output, initial
/// value and final XOR of all ones.  The checksum is a function of the bytes
/// alone, so it is introduced only as a name; the contracts of the library
/// relate checksums to each other through it, never to a concrete value.
pub uninterp spec fn crc32_of(b: Seq<u8>) -> u32;

/// Relies on `crc::crc32::checksum_ieee`: the standard CRC-32 checksum of
/// the bytes, depending on the bytes alone.
#[verifier::external_body]
pub(crate) fn crc32(b: &[u8]) -> (r: u32)
    ensures
        r == crc32_of(b@),
{
    crc::crc32::checksum_ieee(b)
}

} // verus!
