//! Header codec: the fixed twelve-byte image envelope.

use vstd::prelude::*;
use vstd::bytes::spec_u16_to_le_bytes;
use vstd::bytes::spec_u32_to_le_bytes;
use vstd::bytes::lemma_auto_spec_u16_to_from_le_bytes;
use vstd::bytes::lemma_auto_spec_u32_to_from_le_bytes;
use crate::wire::push_u16_le;
use crate::wire::push_u32_le;

verus! {

/// The fixed four-byte signature "R-Pi" that every image starts with.
pub open spec fn spec_signature() -> Seq<u8> {
    seq![0x52u8, 0x2Du8, 0x50u8, 0x69u8]
}

/// The image header.  The atom count and total length are a derived cache
/// over the atom set: serialization recomputes them from the live atoms, so
/// a stale header can never reach the wire.
#[derive(Clone, Copy, Debug, PartialEq, Eq, Structural)]
pub struct EepromHeader {
    /// Format version; zero is invalid.
    pub version: u8,
    /// Preserved but not validated.
    pub reserved: u8,
    /// Number of atom records that follow the header.
    pub numatoms: u16,
    /// Byte length of header, records and the CRC-32 trailer together.
    pub eeplen: u32,
}

impl EepromHeader {
    /// A fresh version-1 header with an empty atom set.
    pub fn new() -> (r: EepromHeader)
        ensures
            r == (EepromHeader { version: 1, reserved: 0, numatoms: 0, eeplen: 0 }),
    {
        EepromHeader { version: 1, reserved: 0, numatoms: 0, eeplen: 0 }
    }
}

/// The twelve header bytes: signature, version, reserved byte, atom count
/// and total length, multi-byte fields little-endian.
pub open spec fn header_bytes(version: u8, reserved: u8, numatoms: u16, eeplen: u32) -> Seq<u8> {
    spec_signature() + seq![version, reserved] + spec_u16_to_le_bytes(numatoms)
        + spec_u32_to_le_bytes(eeplen)
}

pub proof fn lemma_header_bytes_len(version: u8, reserved: u8, numatoms: u16, eeplen: u32)
    ensures
        header_bytes(version, reserved, numatoms, eeplen).len() == 12,
{
    lemma_auto_spec_u16_to_from_le_bytes();
    lemma_auto_spec_u32_to_from_le_bytes();
}

/// Append the twelve header bytes to `out`.
pub fn write_header(out: &mut Vec<u8>, version: u8, reserved: u8, numatoms: u16, eeplen: u32)
    ensures
        final(out)@ == old(out)@ + header_bytes(version, reserved, numatoms, eeplen),
{
    out.push(0x52);
    out.push(0x2D);
    out.push(0x50);
    out.push(0x69);
    out.push(version);
    out.push(reserved);
    push_u16_le(out, numatoms);
    push_u32_le(out, eeplen);
    proof {
        assert(out@ =~= old(out)@ + header_bytes(version, reserved, numatoms, eeplen));
    }
}

} // verus!
