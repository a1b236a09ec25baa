//! Payload integrity: a 16-bit cyclic redundancy check (the IBM-3740
//! variant) over the data bytes of a payload. The sender appends it
//! big-endian; the receiver recomputes it and compares.

use vstd::prelude::*;

verus! {

/// The CRC-16/IBM-3740 checksum of a byte sequence. It is a pure function
/// of the bytes alone; the algorithm itself lives in the `crc` crate and is
/// not restated here.
pub uninterp spec fn crc16_of(data: Seq<u8>) -> u16;

/// Relies on `crc::Crc::<u16>::checksum` with the `CRC_16_IBM_3740`
/// algorithm of the crate's catalog: a checksum computed from the input
/// bytes alone, the same on sender and receiver.
#[verifier::external_body]
pub(crate) fn calculate_crc16(data: &[u8]) -> (r: u16)
    ensures
        r == crc16_of(data@),
{
    crc::Crc::<u16>::new(&crc::CRC_16_IBM_3740).checksum(data)
}

} // verus!
