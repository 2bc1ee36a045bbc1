//! The four kinds of GSE packet.
use vstd::prelude::*;

verus! {

/// Kind of a GSE packet, from its start (S) and end (E) bits:
/// complete S=1 E=1, first fragment S=1 E=0, intermediate fragment S=0 E=0,
/// end fragment S=0 E=1.
#[derive(PartialEq, Eq, Debug, Copy, Clone, Structural)]
pub enum PktType {
    CompletePkt,
    FirstFragPkt,
    IntermediateFragPkt,
    EndFragPkt,
}

} // verus!
