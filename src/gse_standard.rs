//! Constants of the GSE standard: packet and label type bits, field sizes
//! and the protocol-type ranges.
use vstd::prelude::*;

verus! {

// start and end bits
pub const COMPLETE_PKT: u16 = 0xC000;
pub const FIRST_PKT: u16 = 0x8000;
pub const INTERMEDIATE_PKT: u16 = 0x0000;
pub const END_PKT: u16 = 0x4000;
pub const START_END_MASK: u16 = 0xC000;

// label type bits
pub const LABEL_6_B: u16 = 0;
pub const LABEL_3_B: u16 = 0x1000;
pub const LABEL_BROADCAST: u16 = 0x2000;
pub const LABEL_REUSE: u16 = 0x3000;
pub const LABEL_TYPE_MASK: u16 = 0x3000;

pub const LABEL_6_B_LEN: usize = 6;
pub const LABEL_3_B_LEN: usize = 3;
pub const LABEL_BROADCAST_LEN: usize = 0;
pub const LABEL_REUSE_LEN: usize = 0;

// field sizes
pub const FIXED_HEADER_LEN: usize = 2;
pub const PROTOCOL_LEN: usize = 2;
pub const FRAG_ID_LEN: usize = 1;
pub const TOTAL_LENGTH_LEN: usize = 2;
pub const FIRST_FRAG_LEN: usize = FIXED_HEADER_LEN + FRAG_ID_LEN + TOTAL_LENGTH_LEN + PROTOCOL_LEN;
pub const GSE_LEN_MAX: usize = 0xFFF;

pub const GSE_LEN_MASK: u16 = 0x0FFF;

pub const TOTAL_LEN_MAX: usize = 0xFFFF;

pub const CRC_LEN: usize = 4;
pub const CRC_INIT: u32 = 0xFFFFFFFF;

// protocol types from 1536 up are user traffic; below, the value is the id of
// a header extension
pub const SECOND_RANGE_PTYPE: u16 = 0x600;
// below 256: mandatory header extensions
pub const MAX_MANDATORY_VAL_PTYPE: u16 = 0x100;
// bits of an extension id that hold H-LEN
pub const H_LEN_MASK: u16 = 0x0700;

// final mandatory extensions of DVB-RCS2 signalling
pub const NCR_PROTOCOL_ID: u16 = 0x0081;
pub const INTERNAL_SIGNALING_PROTOCOL_ID: u16 = 0x0082;

} // verus!
