//! Little-endian words, the integer encoding of every PTP/IP header field.

use byteorder::{ByteOrder, LittleEndian};
use vstd::prelude::*;

verus! {

/// The number that the first four bytes of `bytes` spell, least significant
/// byte first.
pub open spec fn u32_from_le(bytes: Seq<u8>) -> int
    recommends
        bytes.len() >= 4,
{
    bytes[0] as int + 0x100 * (bytes[1] as int) + 0x1_0000 * (bytes[2] as int) + 0x100_0000 * (
    bytes[3] as int)
}

/// The four bytes that spell `value`, least significant byte first.
pub open spec fn u32_to_le(value: u32) -> Seq<u8> {
    seq![
        (value % 0x100) as u8,
        (value / 0x100 % 0x100) as u8,
        (value / 0x1_0000 % 0x100) as u8,
        (value / 0x100_0000) as u8,
    ]
}

/// Reading back the bytes of a word gives the word.
pub proof fn lemma_u32_le_round_trip(value: u32)
    ensures
        u32_to_le(value).len() == 4,
        u32_from_le(u32_to_le(value)) == value,
{
}

/// `byteorder::LittleEndian::read_u32`: the trusted contract says that it
/// returns the word spelled by the first four bytes of `buf`, least
/// significant first. It panics on a shorter buffer, which `requires` rules
/// out.
#[verifier::external_body]
pub(crate) fn read_u32_le(buf: &[u8]) -> (value: u32)
    requires
        buf@.len() >= 4,
    ensures
        value == u32_from_le(buf@),
{
    LittleEndian::read_u32(buf)
}

/// Appends the four bytes of `value` to `out`, least significant first.
pub fn push_u32_le(out: &mut Vec<u8>, value: u32)
    ensures
        final(out)@ == old(out)@ + u32_to_le(value),
{
    out.push((value % 0x100) as u8);
    out.push((value / 0x100 % 0x100) as u8);
    out.push((value / 0x1_0000 % 0x100) as u8);
    out.push((value / 0x100_0000) as u8);
    assert(out@ =~= old(out)@ + u32_to_le(value));
}

} // verus!
