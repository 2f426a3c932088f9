//! Decoding of raw trace records into branch events.
//!
//! A trace is a fixed-size opaque header followed by 8-byte little-endian
//! records. Each record, read as a 64-bit word, encodes the branch outcome
//! in the sign bit, a retired-instruction delta in the 15 bits below it, and
//! the branch address in the low 48 bits, sign-extended.

use vstd::prelude::*;

verus! {

/// Bytes of the opaque header that precedes the records of a trace.
pub const HEADER_BYTES: usize = 1024;

/// Bytes of one trace record.
pub const RECORD_BYTES: usize = 8;

/// One decoded branch event.
#[derive(Clone, Copy, PartialEq, Eq, Structural, Debug)]
pub struct BranchEvent {
    /// Instruction address of the branch; its least-significant bit is zero
    /// by construction of the trace, and the upper 16 bits replicate bit 47.
    pub addr: u64,
    /// Whether the branch was taken.
    pub taken: bool,
    /// Instructions retired since the previous branch event (15 bits).
    pub delta: u16,
}

/// The 64-bit word held by 8 little-endian record bytes.
pub open spec fn spec_record_word(b: Seq<u8>) -> u64
    recommends
        b.len() == 8,
{
    (b[0] as u64) | ((b[1] as u64) << 8) | ((b[2] as u64) << 16) | ((b[3] as u64) << 24)
        | ((b[4] as u64) << 32) | ((b[5] as u64) << 40) | ((b[6] as u64) << 48)
        | ((b[7] as u64) << 56)
}

/// The taken flag of a record word: its sign bit.
pub open spec fn spec_taken(e: u64) -> bool {
    (e >> 63) & 1 == 1
}

/// The address of a record word: its low 48 bits, sign-extended.
pub open spec fn spec_addr(e: u64) -> u64 {
    if (e >> 47) & 1 == 1 {
        (e & 0xFFFF_FFFF_FFFF) | 0xFFFF_0000_0000_0000
    } else {
        e & 0xFFFF_FFFF_FFFF
    }
}

/// The retired-instruction delta of a record word: bits 48..63.
pub open spec fn spec_delta(e: u64) -> u64 {
    (e >> 48) & 0x7FFF
}

/// The event encoded by 8 record bytes.
pub open spec fn spec_event(b: Seq<u8>) -> BranchEvent
    recommends
        b.len() == 8,
{
    BranchEvent {
        addr: spec_addr(spec_record_word(b)),
        taken: spec_taken(spec_record_word(b)),
        delta: spec_delta(spec_record_word(b)) as u16,
    }
}

/// Decode one 8-byte little-endian record into a branch event.
pub fn decode_event(bytes: &[u8; 8]) -> (ev: BranchEvent)
    ensures
        ev == spec_event(bytes@),
{
    let e: u64 = (bytes[0] as u64) | ((bytes[1] as u64) << 8) | ((bytes[2] as u64) << 16)
        | ((bytes[3] as u64) << 24) | ((bytes[4] as u64) << 32) | ((bytes[5] as u64) << 40)
        | ((bytes[6] as u64) << 48) | ((bytes[7] as u64) << 56);
    let taken: bool = (e >> 63) & 1 == 1;
    let addr: u64 = if (e >> 47) & 1 == 1 {
        (e & 0xFFFF_FFFF_FFFF) | 0xFFFF_0000_0000_0000
    } else {
        e & 0xFFFF_FFFF_FFFF
    };
    let delta64: u64 = (e >> 48) & 0x7FFF;
    assert(delta64 < 0x8000) by (bit_vector)
        requires
            delta64 == (e >> 48) & 0x7FFF,
    ;
    let delta: u16 = delta64 as u16;
    BranchEvent { addr, taken, delta }
}

} // verus!
