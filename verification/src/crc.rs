use vstd::prelude::*;

verus! {

/// The CRC-32 register after `k` of the eight shifts of one byte: each shift
/// moves the register right by one bit and, where the bit shifted out was
/// set, adds the reflected IEEE polynomial `0xEDB8_8320`.
pub open spec fn crc_shifts(c: u32, k: nat) -> u32
    decreases k,
{
    if k == 0 {
        c
    } else {
        let c1 = crc_shifts(c, (k - 1) as nat);
        if c1 & 1 == 1 {
            (c1 >> 1) ^ 0xEDB8_8320u32
        } else {
            c1 >> 1
        }
    }
}

/// The CRC-32 register after `bytes`, from the initial `0xffff_ffff`: each
/// byte is added into the low bits and shifted through eight times.
pub open spec fn crc_register(bytes: Seq<u8>) -> u32
    decreases bytes.len(),
{
    if bytes.len() == 0 {
        0xffff_ffffu32
    } else {
        crc_shifts(crc_register(bytes.drop_last()) ^ (bytes.last() as u32), 8)
    }
}

/// The CRC-32 (IEEE 802.3, reflected, init and final xor `0xffff_ffff`) of a
/// byte sequence.
#[verifier::opaque]
pub open spec fn crc32_ieee_of(bytes: Seq<u8>) -> u32 {
    crc_register(bytes) ^ 0xffff_ffffu32
}

/// Calls `crc32fast::hash`, which computes the IEEE CRC-32 of the bytes
/// handed in (the crate's documented purpose); the contract states that
/// checksum bit by bit.
#[verifier::external_body]
pub(crate) fn crc32(bytes: &[u8]) -> (r: u32)
    ensures
        r == crc32_ieee_of(bytes@),
{
    crc32fast::hash(bytes)
}

} // verus!
