//! The checksum that goes with a payload.

use vstd::prelude::*;

verus! {

/// The CRC-32C (Castagnoli) checksum of the given bytes.
pub uninterp spec fn crc32c_of(data: Seq<u8>) -> u32;

/// Calls `crc32c::crc32c`. The result is taken to be a function of the
/// bytes alone: the crate computes the same checksum with or without
/// hardware support. Nothing is claimed of its value.
#[verifier::external_body]
fn crc32c_checksum(data: &[u8]) -> (crc: u32)
    ensures
        crc == crc32c_of(data@),
{
    crc32c::crc32c(data)
}

/// A checksum as the store's payload field holds it: the same number, in
/// a signed field that is wide enough for every checksum.
pub fn checksum_field(crc: u32) -> (field: i64)
    ensures
        field == crc,
{
    crc as i64
}

/// The checksum field for a payload of the given bytes.
pub fn payload_checksum(data: &[u8]) -> (field: i64)
    ensures
        field == crc32c_of(data@),
{
    checksum_field(crc32c_checksum(data))
}

} // verus!
