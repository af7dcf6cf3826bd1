//! The CRC-32 integrity checksum of chunk records.
//!
//! The container format checks every record with CRC-32 in its reflected
//! ISO-HDLC variant (polynomial 0x04C11DB7 reflected, initial value
//! 0xFFFFFFFF, final XOR 0xFFFFFFFF), computed over the record's type tag
//! followed by its payload.  The computation itself is done by the `crc`
//! crate; the library only relies on it being a pure function of the
//! input bytes, named `crc32_of` below.

use vstd::prelude::*;

verus! {

/// The CRC-32 (reflected ISO-HDLC) checksum of a byte sequence.
pub uninterp spec fn crc32_of(bytes: Seq<u8>) -> u32;

/// Relies on `crc::Crc::<u32>::new(&crc::CRC_32_ISO_HDLC)` and its
/// `checksum` method: the returned checksum is a function of the input
/// bytes alone.
#[verifier::external_body]
pub(crate) fn crc32(data: &[u8]) -> (r: u32)
    ensures
        r == crc32_of(data@),
{
    let hasher = crc::Crc::<u32>::new(&crc::CRC_32_ISO_HDLC);
    hasher.checksum(data)
}

} // verus!
