//! GSE decapsulation: packets read one at a time from a buffer, fragments
//! reassembled by fragment id, label reuse resolved, header extensions read
//! and the CRC of reassembled PDUs checked.
use vstd::prelude::*;
use crate::crc::{gse_crc, lemma_one_byte_change_detected, CrcCalculator, DefaultCrc};
use crate::gse_encap::{complete_bytes, encap_plan, end_bytes, first_bytes, intermediate_bytes, EncapStatus, Encapsulator};
use crate::gse_standard::{
    GSE_LEN_MAX,
    CRC_LEN, FIXED_HEADER_LEN, FRAG_ID_LEN, GSE_LEN_MASK, LABEL_TYPE_MASK, PROTOCOL_LEN,
    SECOND_RANGE_PTYPE, START_END_MASK, TOTAL_LENGTH_LEN, COMPLETE_PKT, FIRST_PKT, END_PKT,
    LABEL_6_B, LABEL_3_B, LABEL_BROADCAST,
};
use crate::header_extension::{
    chain_outcome, ext_mid, ext_views, is_chain_link, iterate_over_extension_header,
    lemma_chain_round_trip, Extension, MandatoryHeaderExtensionManager,
};
use crate::label::{Label, LabelType};
use crate::pkt_type::PktType;
use vstd::slice::slice_subrange;
use crate::header_extension::ChainRead;
use crate::utils::{be16, be32, header_word, lemma_header_round_trip, lemma_read_be16, lemma_read_be32, parse_header_word, read_be16, read_be32, read_u16_be, read_u32_be, write_bytes};

pub use self::gse_decap_memory::{DecapMemoryError, GseDecapMemory, SimpleGseMemory};
use self::gse_decap_memory::{count_some, lemma_count_update, memory_ok, place, StoredFrag};
pub use crate::header_extension::{ExtensionHeaderError, IterateOverExtensionHeaderStatus};

pub mod gse_decap_memory;

verus! {

/// Metadata of a decapsulated PDU: its length, its protocol type, its label
/// (Label-Reuse resolved) and its header extensions.
#[derive(Debug, PartialEq, Eq, Clone)]
pub struct DecapMetadata {
    pub pdu_len: usize,
    pub protocol_type: u16,
    pub label: Label,
    pub extensions: Vec<Extension>,
}

impl DecapMetadata {
    pub fn new(pdu_len: usize, protocol_type: u16, label: Label, extensions: Vec<Extension>) -> (r: Self)
        ensures
            r == (DecapMetadata { pdu_len, protocol_type, label, extensions }),
    {
        Self { pdu_len, protocol_type, label, extensions }
    }

    pub fn pdu_len(&self) -> (r: usize)
        ensures
            r == self.pdu_len,
    {
        self.pdu_len
    }

    pub fn protocol_type(&self) -> (r: u16)
        ensures
            r == self.protocol_type,
    {
        self.protocol_type
    }

    pub fn label(&self) -> (r: Label)
        ensures
            r == self.label,
    {
        self.label
    }

    pub fn extensions(&self) -> (r: &Vec<Extension>)
        ensures
            *r == self.extensions,
    {
        &self.extensions
    }
}

/// Outcome of decapsulating one packet: a whole PDU, a fragment stored for
/// reassembly, or padding up to the end of the buffer.
#[derive(Debug, PartialEq, Eq)]
pub enum DecapStatus {
    CompletedPkt(Box<[u8]>, DecapMetadata),
    FragmentedPkt(DecapMetadata),
    Padding,
}

impl DecapStatus {
    pub fn to_str(&self) -> (r: &'static str)
        ensures
            self is CompletedPkt ==> r@ == "Fully decapsulated packet"@,
            self is FragmentedPkt ==> r@ == "Partially decapsulated packet"@,
            self is Padding ==> r@ == "Padding detected"@,
    {
        match self {
            Self::CompletedPkt(_, _) => "Fully decapsulated packet",
            Self::FragmentedPkt(_) => "Partially decapsulated packet",
            Self::Padding => "Padding detected",
        }
    }
}

/// Why a packet could not be decapsulated.
#[derive(PartialEq, Eq, Debug)]
pub enum DecapError {
    ErrorSizeBuffer,
    ErrorTotalLength,
    ErrorGseLength,
    ErrorSizePduBuffer,
    ErrorProtocolType,
    ErrorMemory(DecapMemoryError),
    ErrorCrc,
    ErrorInvalidLabel,
    ErrorNoLabelSaved,
    ErrorLabelBroadcastSaved,
    ErrorLabelReUseSaved,
    ErrorUnkownMandatoryHeader,
}

impl DecapError {
    pub fn to_str(&self) -> (r: &'static str)
        ensures
            self is ErrorSizeBuffer ==> r@ == "Buffer is too small"@,
            self is ErrorSizePduBuffer ==> r@ == "Pdu buffer is smaller than pdu received"@,
            self is ErrorProtocolType ==> r@ == "Extension header are not implemented"@,
            self is ErrorMemory ==> r@ == "Internal Memory Error"@,
            self is ErrorCrc ==> r@ == "Crc Error"@,
            self is ErrorInvalidLabel ==> r@ == "Label 6B [0, 0, 0, 0, 0, 0] shall not be used"@,
            self is ErrorNoLabelSaved ==> r@ == "A Reused label is used, but no label has been used in the same bbframe"@,
            self is ErrorLabelBroadcastSaved ==> r@ == "A Reused label is used, but the last label received is a label broadcast"@,
            self is ErrorLabelReUseSaved ==> r@ == "A Reused label is used, but the last label saved is a label re use"@,
            self is ErrorUnkownMandatoryHeader ==> r@ == "Header contains an unknow Mandatory Header. Can not proceed the packet"@,
            self is ErrorTotalLength ==> r@ == "Total length in header doesn't correspond to the total length of the defragmented packet"@,
            self is ErrorGseLength ==> r@ == "Pdu buffer is smaller than pdu received"@,
    {
        match self {
            Self::ErrorSizeBuffer => "Buffer is too small",
            Self::ErrorSizePduBuffer => "Pdu buffer is smaller than pdu received",
            Self::ErrorProtocolType => "Extension header are not implemented",
            Self::ErrorMemory(_) => "Internal Memory Error",
            Self::ErrorCrc => "Crc Error",
            Self::ErrorInvalidLabel => "Label 6B [0, 0, 0, 0, 0, 0] shall not be used",
            Self::ErrorNoLabelSaved => "A Reused label is used, but no label has been used in the same bbframe",
            Self::ErrorLabelBroadcastSaved => "A Reused label is used, but the last label received is a label broadcast",
            Self::ErrorLabelReUseSaved => "A Reused label is used, but the last label saved is a label re use",
            Self::ErrorUnkownMandatoryHeader => "Header contains an unknow Mandatory Header. Can not proceed the packet",
            Self::ErrorTotalLength => "Total length in header doesn't correspond to the total length of the defragmented packet",
            Self::ErrorGseLength => "Pdu buffer is smaller than pdu received",
        }
    }
}

/// A reassembly in progress: what the first fragment said, and how many PDU
/// bytes have been received.
#[derive(Debug, PartialEq, Eq, Clone)]
pub struct DecapContext {
    pub label: Label,
    pub protocol_type: u16,
    pub frag_id: u8,
    pub total_len: u16,
    pub pdu_len: u16,
    /// The first fragment carried Label-Reuse: the total length and the CRC
    /// then leave the label out.
    pub from_label_reuse: bool,
    pub extensions_header: Vec<Extension>,
}

impl DecapContext {
    pub fn new(
        label: Label,
        protocol_type: u16,
        frag_id: u8,
        total_len: u16,
        pdu_len: u16,
        from_label_reuse: bool,
        extensions_header: Vec<Extension>,
    ) -> (r: Self)
        ensures
            r == (DecapContext { label, protocol_type, frag_id, total_len, pdu_len, from_label_reuse, extensions_header }),
    {
        Self { label, protocol_type, frag_id, total_len, pdu_len, from_label_reuse, extensions_header }
    }
}

/// A header word read: `None` for padding, else GSE-Length, packet type and
/// label type.
pub fn read_gse_header(buffer: u16) -> (r: Option<(usize, PktType, LabelType)>)
    ensures
        r == parse_header_word(buffer),
{
    let se = buffer & START_END_MASK;
    let pkt_type = if se == COMPLETE_PKT {
        PktType::CompletePkt
    } else if se == FIRST_PKT {
        PktType::FirstFragPkt
    } else if se == END_PKT {
        PktType::EndFragPkt
    } else {
        PktType::IntermediateFragPkt
    };
    let lt = buffer & LABEL_TYPE_MASK;
    let label_type = if lt == LABEL_6_B {
        LabelType::SixBytesLabel
    } else if lt == LABEL_3_B {
        LabelType::ThreeBytesLabel
    } else if lt == LABEL_BROADCAST {
        LabelType::Broadcast
    } else {
        LabelType::ReUse
    };
    if let (PktType::IntermediateFragPkt, LabelType::SixBytesLabel) = (&pkt_type, &label_type) {
        return None;
    }
    Some(((buffer & GSE_LEN_MASK) as usize, pkt_type, label_type))
}

/// The label that a packet stands for, given its label type, the label on
/// the wire and the last label; with the last label after it. Label-Reuse
/// takes the last label, which must be a six- or three-byte one.
pub open spec fn resolve_label(lt: LabelType, wire: Label, last: Option<Label>) -> Result<(Label, Option<Label>), DecapError> {
    match lt {
        LabelType::ReUse => match last {
            Some(Label::Broadcast) => Err(DecapError::ErrorLabelBroadcastSaved),
            Some(Label::ReUse) => Err(DecapError::ErrorLabelReUseSaved),
            None => Err(DecapError::ErrorNoLabelSaved),
            Some(l) => Ok((l, last)),
        },
        LabelType::Broadcast => Ok((Label::Broadcast, None)),
        _ => Ok((wire, Some(wire))),
    }
}

/// The chain read after the label, or none when the protocol-type field
/// holds a protocol type.
pub open spec fn chain_after_label<M: MandatoryHeaderExtensionManager>(m: M, rest: Seq<u8>, ptype: u16) -> Result<ChainRead, ExtensionHeaderError> {
    if ptype < SECOND_RANGE_PTYPE {
        chain_outcome(m, rest, ptype)
    } else {
        Ok(ChainRead { extensions: Seq::empty(), protocol_type: ptype, len: 0 })
    }
}

/// The decapsulation error for a chain that cannot be read, with the bytes
/// to skip.
pub open spec fn chain_error(e: ExtensionHeaderError, buffer_len: nat, pkt_len: nat) -> (DecapError, usize) {
    match e {
        ExtensionHeaderError::BufferTooSmall => (DecapError::ErrorSizePduBuffer, buffer_len as usize),
        ExtensionHeaderError::UnknownMandatoryHeader => (DecapError::ErrorUnkownMandatoryHeader, pkt_len as usize),
    }
}

/// Label reuse is transparent: when the encapsulator and the decapsulator
/// agree on the last label, the label that the encapsulator puts on the wire
/// for `next` (Label-Reuse or not) is resolved by the decapsulator to `next`
/// itself, and both agree on the last label afterwards. With reuse off, the
/// wire label is `next`, resolved to `next` as well; so the labels received
/// are the same with reuse on or off.
pub proof fn lemma_label_reuse_transparent<C: CrcCalculator>(enc: Encapsulator<C>, dec_last: Option<Label>, next: Label)
    requires
        enc.wf(),
        enc.re_use_activated ==> enc.last_label == dec_last,
        next.is_explicit() || next == Label::Broadcast,
    ensures
        ({
            let (wire, after) = enc.reuse_step(next);
            &&& after.wf()
            &&& resolve_label(wire.spec_type(), wire, dec_last) is Ok
            &&& resolve_label(wire.spec_type(), wire, dec_last)->Ok_0.0 == next
            &&& enc.re_use_activated ==> resolve_label(wire.spec_type(), wire, dec_last)->Ok_0.1 == after.last_label
            &&& !enc.re_use_activated ==> wire == next
        }),
{
}

/// The encapsulator after sending the first `i` labels of `labels` from `e`.
pub open spec fn sender_after<C: CrcCalculator>(e: Encapsulator<C>, labels: Seq<Label>, i: nat) -> Encapsulator<C>
    decreases i,
{
    if i == 0 {
        e
    } else {
        sender_after(e, labels, (i - 1) as nat).reuse_step(labels[i - 1]).1
    }
}

/// What a decapsulator whose last label was `last` receives from the wire
/// labels of the first `i` sends of `labels` from `e`: the labels resolved,
/// and its last label after them.
pub open spec fn receiver_after<C: CrcCalculator>(e: Encapsulator<C>, labels: Seq<Label>, last: Option<Label>, i: nat) -> (Seq<Label>, Option<Label>)
    decreases i,
{
    if i == 0 {
        (Seq::empty(), last)
    } else {
        let (got, l) = receiver_after(e, labels, last, (i - 1) as nat);
        let wire = sender_after(e, labels, (i - 1) as nat).reuse_step(labels[i - 1]).0;
        match resolve_label(wire.spec_type(), wire, l) {
            Ok((x, nl)) => (got.push(x), nl),
            Err(_) => (got, None),
        }
    }
}

/// Label reuse over a sequence: when the encapsulator and the decapsulator
/// start agreeing on the last label, the decapsulator receives exactly the
/// labels given to the encapsulator (six-byte, three-byte or broadcast),
/// whether reuse is on or off.
pub proof fn lemma_label_sequence_received<C: CrcCalculator>(e: Encapsulator<C>, labels: Seq<Label>, last: Option<Label>, i: nat)
    requires
        e.wf(),
        e.re_use_activated ==> e.last_label == last,
        !e.re_use_activated ==> (last is None || last->Some_0.is_explicit()),
        i <= labels.len(),
        forall|k: int| 0 <= k < labels.len() ==> (#[trigger] labels[k]).is_explicit() || labels[k] == Label::Broadcast,
    ensures
        receiver_after(e, labels, last, i).0 == labels.subrange(0, i as int),
        sender_after(e, labels, i).wf(),
        sender_after(e, labels, i).re_use_activated == e.re_use_activated,
        e.re_use_activated ==> receiver_after(e, labels, last, i).1 == sender_after(e, labels, i).last_label,
        !e.re_use_activated ==> (receiver_after(e, labels, last, i).1 is None || receiver_after(e, labels, last, i).1->Some_0.is_explicit()),
    decreases i,
{
    if i > 0 {
        let j = (i - 1) as nat;
        lemma_label_sequence_received(e, labels, last, j);
        let s = sender_after(e, labels, j);
        let (got, l) = receiver_after(e, labels, last, j);
        assert(labels[j as int].is_explicit() || labels[j as int] == Label::Broadcast);
        lemma_label_reuse_transparent(s, l, labels[j as int]);
        assert(labels.subrange(0, j as int).push(labels[j as int]) =~= labels.subrange(0, i as int));
    }
}

/// A complete packet as encapsulation writes it reads back: decapsulating
/// the bytes of a complete packet with label `lbl`, protocol type `ptype`
/// (not an extension id), header extensions `e` (none of them final, all
/// known to the registry with their data lengths; written as `encap_ext`
/// writes them) and PDU `pdu` gives that PDU, that protocol type, those
/// extensions, and the label, Label-Reuse being resolved to the last label;
/// provided the memory has a free buffer large enough.
pub proof fn lemma_complete_round_trip<T: GseDecapMemory, C: CrcCalculator, M: MandatoryHeaderExtensionManager>(
    old: Decapsulator<T, C, M>,
    new: Decapsulator<T, C, M>,
    lbl: Label,
    ptype: u16,
    e: Seq<(u16, Seq<u8>)>,
    pdu: Seq<u8>,
    b: Seq<u8>,
    r: Result<(DecapStatus, usize), (DecapError, usize)>,
)
    requires
        !lbl.is_zero_label(),
        lbl == Label::ReUse ==> old.last_label is Some && old.last_label->Some_0.is_explicit(),
        ptype >= SECOND_RANGE_PTYPE,
        forall|i: int| 0 <= i < e.len() ==> is_chain_link(old.mandatory_extension_manager, #[trigger] e[i]),
        ({
            let (slot, mid) = ext_layout(e, ptype);
            let bytes = complete_bytes(lbl, slot, mid, pdu);
            &&& 2 + lbl.spec_len() + mid.len() + pdu.len() <= GSE_LEN_MAX
            &&& bytes.len() <= b.len()
            &&& b.subrange(0, bytes.len() as int) == bytes
        }),
        old.memory.pool().len() > 0,
        pdu.len() <= old.memory.pool().last().len(),
        Decapsulator::decap_post(old, new, b, r),
    ensures
        match r {
            Ok((DecapStatus::CompletedPkt(buf, meta), len)) => {
                &&& len == 4 + lbl.spec_len() + ext_layout(e, ptype).1.len() + pdu.len()
                &&& buf@.subrange(0, pdu.len() as int) == pdu
                &&& meta.pdu_len == pdu.len()
                &&& meta.protocol_type == ptype
                &&& ext_views(meta.extensions@) == e
                &&& meta.label == resolved(lbl, old.last_label)
            },
            _ => false,
        },
{
    let (slot, mid) = ext_layout(e, ptype);
    let l = lbl.spec_len() as int;
    let n = pdu.len() as int;
    let mlen = mid.len() as int;
    let gse = 2 + l + mlen + n;
    let lt = lbl.spec_type();
    let bytes = complete_bytes(lbl, slot, mid, pdu);
    let hw = header_word(PktType::CompletePkt, lt, gse as u16);
    assert(bytes =~= be16(hw) + be16(slot) + lbl.bytes() + mid + pdu);
    assert(b.subrange(0, 2) =~= bytes.subrange(0, 2));
    assert(bytes.subrange(0, 2) =~= be16(hw));
    lemma_read_be16(hw, b, 0);
    lemma_header_round_trip(PktType::CompletePkt, lt, gse as u16);
    assert(b.subrange(2, 4) =~= bytes.subrange(2, 4));
    assert(bytes.subrange(2, 4) =~= be16(slot));
    lemma_read_be16(slot, b, 2);
    assert(b.subrange(4, 4 + l) =~= bytes.subrange(4, 4 + l));
    assert(bytes.subrange(4, 4 + l) =~= lbl.bytes());
    lbl.lemma_from_own_bytes();
    assert(b.subrange(4 + l, gse + 2) =~= bytes.subrange(4 + l, gse + 2));
    assert(bytes.subrange(4 + l, gse + 2) =~= mid + pdu);
    if e.len() > 0 {
        assert(mid + pdu =~= ext_mid(e) + be16(ptype) + pdu);
        lemma_chain_round_trip(old.mandatory_extension_manager, e, ptype, pdu);
    }
    assert(b.subrange(gse + 2 - n, gse + 2) =~= bytes.subrange(4 + l + mlen, 4 + l + mlen + n));
    assert(bytes.subrange(4 + l + mlen, 4 + l + mlen + n) =~= pdu);
}

/// Where `encap_ext` puts extensions `e` and protocol type `ptype` (not an
/// extension id): the value of the protocol-type field, and the bytes after
/// the label. Without extensions, the protocol type and nothing.
pub open spec fn ext_layout(e: Seq<(u16, Seq<u8>)>, ptype: u16) -> (u16, Seq<u8>) {
    if e.len() == 0 {
        (ptype, Seq::empty())
    } else {
        (e[0].0, ext_mid(e) + be16(ptype))
    }
}

/// A reassembly of `pdu` is in progress for `frag_id`, from a first fragment
/// with label `wire` on the wire (standing for `lbl`) and protocol type
/// `ptype`, and its buffer holds the first `a` bytes of `pdu`.
pub open spec fn holds_prefix<T: GseDecapMemory, C: CrcCalculator, M: MandatoryHeaderExtensionManager>(
    d: Decapsulator<T, C, M>,
    frag_id: u8,
    wire: Label,
    lbl: Label,
    ptype: u16,
    pdu: Seq<u8>,
    a: int,
) -> bool {
    match stored(d.memory, frag_id) {
        Some((ctx, bytes)) => {
            &&& ctx.label == lbl
            &&& ctx.protocol_type == ptype
            &&& ctx.total_len == total_of(pdu, wire)
            &&& ctx.from_label_reuse == (wire == Label::ReUse)
            &&& ctx.pdu_len == a
            &&& bytes.len() >= pdu.len()
            &&& bytes.subrange(0, a) == pdu.subrange(0, a)
        },
        None => false,
    }
}

/// One call of `decap` on `b` took the decapsulator from `d` to `d2`, with
/// result `r`.
#[verifier::opaque]
pub open spec fn decap_step<T: GseDecapMemory, C: CrcCalculator, M: MandatoryHeaderExtensionManager>(
    d: Decapsulator<T, C, M>,
    d2: Decapsulator<T, C, M>,
    b: Seq<u8>,
    r: Result<(DecapStatus, usize), (DecapError, usize)>,
) -> bool {
    &&& Decapsulator::decap_post(d, d2, b, r)
    &&& d2.crc_calculator == d.crc_calculator
    &&& d.wf()
    &&& d2.wf()
}

proof fn lemma_crc_kept<T: GseDecapMemory, C: CrcCalculator, M: MandatoryHeaderExtensionManager>(
    d: Decapsulator<T, C, M>,
    d2: Decapsulator<T, C, M>,
    b: Seq<u8>,
    r: Result<(DecapStatus, usize), (DecapError, usize)>,
)
    requires
        decap_step(d, d2, b, r),
    ensures
        d2.crc_calculator == d.crc_calculator,
{
    reveal(decap_step);
}

/// The label that wire label `wire` stands for, given the last label.
pub open spec fn resolved(wire: Label, last: Option<Label>) -> Label {
    if wire == Label::ReUse {
        last->Some_0
    } else {
        wire
    }
}

/// The total length of `pdu` sent with label `lbl`.
pub open spec fn total_of(pdu: Seq<u8>, lbl: Label) -> u16 {
    (pdu.len() + 2 + lbl.spec_len()) as u16
}

proof fn lemma_first_step<T: GseDecapMemory, C: CrcCalculator, M: MandatoryHeaderExtensionManager>(
    d0: Decapsulator<T, C, M>,
    d1: Decapsulator<T, C, M>,
    lbl: Label,
    ptype: u16,
    frag_id: u8,
    pdu: Seq<u8>,
    k: int,
    b1: Seq<u8>,
    r1: Result<(DecapStatus, usize), (DecapError, usize)>,
)
    requires
        lbl == Label::ReUse ==> d0.last_label is Some && d0.last_label->Some_0.is_explicit(),
        !lbl.is_zero_label(),
        ptype >= SECOND_RANGE_PTYPE,
        0 <= k <= pdu.len(),
        5 + lbl.spec_len() + k <= GSE_LEN_MAX,
        pdu.len() + 2 + lbl.spec_len() <= 0xFFFF,
        ({
            let f = first_bytes(lbl, frag_id, total_of(pdu, lbl), ptype, Seq::empty(), pdu.subrange(0, k));
            f.len() <= b1.len() && b1.subrange(0, f.len() as int) == f
        }),
        frag_buffer(d0.memory, frag_id) is Some,
        pdu.len() <= frag_buffer(d0.memory, frag_id)->Some_0.len(),
        decap_step(d0, d1, b1, r1),
    ensures
        r1 is Ok && r1->Ok_0.0 is FragmentedPkt,
        holds_prefix(d1, frag_id, lbl, resolved(lbl, d0.last_label), ptype, pdu, k),
{
    reveal(decap_step);
    let l = lbl.spec_len() as int;
    let lt = lbl.spec_type();
    let total = total_of(pdu, lbl);
    let part = pdu.subrange(0, k);
    let f = first_bytes(lbl, frag_id, total, ptype, Seq::empty(), part);
    let g1 = 5 + l + k;
    let hw1 = header_word(PktType::FirstFragPkt, lt, g1 as u16);
    assert(f =~= be16(hw1) + seq![frag_id] + be16(total) + be16(ptype) + lbl.bytes() + part);
    assert(b1.subrange(0, 2) =~= be16(hw1));
    lemma_read_be16(hw1, b1, 0);
    lemma_header_round_trip(PktType::FirstFragPkt, lt, g1 as u16);
    assert(b1[2] == f[2]);
    assert(b1.subrange(3, 5) =~= f.subrange(3, 5));
    assert(f.subrange(3, 5) =~= be16(total));
    lemma_read_be16(total, b1, 3);
    assert(b1.subrange(5, 7) =~= f.subrange(5, 7));
    assert(f.subrange(5, 7) =~= be16(ptype));
    lemma_read_be16(ptype, b1, 5);
    assert(b1.subrange(7, 7 + l) =~= f.subrange(7, 7 + l));
    assert(f.subrange(7, 7 + l) =~= lbl.bytes());
    lbl.lemma_from_own_bytes();
    assert(b1.subrange(g1 + 2 - k, g1 + 2) =~= f.subrange(7 + l, 7 + l + k));
    assert(f.subrange(7 + l, 7 + l + k) =~= part);
}

proof fn lemma_intermediate_step<T: GseDecapMemory, C: CrcCalculator, M: MandatoryHeaderExtensionManager>(
    d: Decapsulator<T, C, M>,
    d2: Decapsulator<T, C, M>,
    wire: Label,
    lbl: Label,
    ptype: u16,
    frag_id: u8,
    pdu: Seq<u8>,
    a: int,
    c: int,
    b: Seq<u8>,
    r: Result<(DecapStatus, usize), (DecapError, usize)>,
)
    requires
        0 <= a <= c <= pdu.len(),
        1 + c - a <= GSE_LEN_MAX,
        pdu.len() <= 0xFFFF,
        holds_prefix(d, frag_id, wire, lbl, ptype, pdu, a),
        ({
            let m = intermediate_bytes(frag_id, pdu.subrange(a, c));
            m.len() <= b.len() && b.subrange(0, m.len() as int) == m
        }),
        decap_step(d, d2, b, r),
    ensures
        r is Ok && r->Ok_0.0 is FragmentedPkt,
        holds_prefix(d2, frag_id, wire, lbl, ptype, pdu, c),
{
    reveal(decap_step);
    let part = pdu.subrange(a, c);
    let m = intermediate_bytes(frag_id, part);
    let g = 1 + c - a;
    let hw = header_word(PktType::IntermediateFragPkt, LabelType::ReUse, g as u16);
    assert(m =~= be16(hw) + seq![frag_id] + part);
    assert(b.subrange(0, 2) =~= be16(hw));
    lemma_read_be16(hw, b, 0);
    lemma_header_round_trip(PktType::IntermediateFragPkt, LabelType::ReUse, g as u16);
    assert(b[2] == m[2]);
    assert(b.subrange(3, g + 2) =~= m.subrange(3, g + 2));
    assert(m.subrange(3, g + 2) =~= part);
    let (ctx, bytes) = stored(d.memory, frag_id)->Some_0;
    let nbytes = bytes.subrange(0, a) + b.subrange(3, g + 2) + bytes.subrange(c, bytes.len() as int);
    assert(nbytes.subrange(0, c) =~= pdu.subrange(0, c));
}

proof fn lemma_end_step<T: GseDecapMemory, C: CrcCalculator, M: MandatoryHeaderExtensionManager>(
    d: Decapsulator<T, C, M>,
    d2: Decapsulator<T, C, M>,
    wire: Label,
    lbl: Label,
    ptype: u16,
    frag_id: u8,
    pdu: Seq<u8>,
    a: int,
    b: Seq<u8>,
    r: Result<(DecapStatus, usize), (DecapError, usize)>,
)
    requires
        lbl.is_explicit() || lbl == Label::Broadcast,
        wire != Label::ReUse ==> wire == lbl,
        0 <= a <= pdu.len(),
        5 + pdu.len() - a <= GSE_LEN_MAX,
        pdu.len() + 2 + wire.spec_len() <= 0xFFFF,
        holds_prefix(d, frag_id, wire, lbl, ptype, pdu, a),
        ({
            let crc = d.crc_calculator.spec_crc32(pdu, ptype, total_of(pdu, wire), wire.bytes());
            let e = end_bytes(frag_id, pdu.subrange(a, pdu.len() as int), crc);
            e.len() <= b.len() && b.subrange(0, e.len() as int) == e
        }),
        decap_step(d, d2, b, r),
    ensures
        match r {
            Ok((DecapStatus::CompletedPkt(buf, meta), len)) => {
                &&& len == 7 + pdu.len() - a
                &&& buf@.subrange(0, pdu.len() as int) == pdu
                &&& meta.pdu_len == pdu.len()
                &&& meta.protocol_type == ptype
                &&& meta.label == lbl
            },
            _ => false,
        },
{
    reveal(decap_step);
    let n = pdu.len() as int;
    let total = total_of(pdu, wire);
    let rest = pdu.subrange(a, n);
    let crc = d.crc_calculator.spec_crc32(pdu, ptype, total, wire.bytes());
    let e = end_bytes(frag_id, rest, crc);
    let g2 = 5 + n - a;
    let hw2 = header_word(PktType::EndFragPkt, LabelType::ReUse, g2 as u16);
    assert(e =~= be16(hw2) + seq![frag_id] + rest + be32(crc));
    assert(b.subrange(0, 2) =~= be16(hw2));
    lemma_read_be16(hw2, b, 0);
    lemma_header_round_trip(PktType::EndFragPkt, LabelType::ReUse, g2 as u16);
    assert(b[2] == e[2]);
    assert(b.subrange(3, 3 + n - a) =~= e.subrange(3, 3 + n - a));
    assert(e.subrange(3, 3 + n - a) =~= rest);
    assert(b.subrange(3 + n - a, 7 + n - a) =~= e.subrange(3 + n - a, 7 + n - a));
    assert(e.subrange(3 + n - a, 7 + n - a) =~= be32(crc));
    lemma_read_be32(crc, b, 3 + n - a);
    let (ctx, bytes) = stored(d.memory, frag_id)->Some_0;
    assert(bytes.subrange(0, a) + rest =~= pdu);
    if wire == Label::Broadcast || wire == Label::ReUse {
        assert(wire.bytes() =~= Seq::<u8>::empty());
    }
}

/// A PDU sent as fragments, as encapsulation writes them, reads back.
/// `bs` are the packets: a first fragment with the first `cuts[0]` bytes
/// of `pdu` (label `lbl`, protocol type `ptype`, fragment id `frag_id` and
/// the total length), intermediate fragments each with the bytes from one
/// cut to the next, and an end fragment with the rest and the CRC. `ds` are
/// the decapsulator's states and `rs` the results of decapsulating each
/// packet in turn. The last result is the whole PDU with its protocol type
/// and label (the last label when `lbl` is Label-Reuse); provided the memory
/// can start a reassembly for that id with a buffer large enough.
/// Intermediate fragments may carry no byte.
pub proof fn lemma_fragmented_round_trip<T: GseDecapMemory, C: CrcCalculator, M: MandatoryHeaderExtensionManager>(
    ds: Seq<Decapsulator<T, C, M>>,
    bs: Seq<Seq<u8>>,
    rs: Seq<Result<(DecapStatus, usize), (DecapError, usize)>>,
    cuts: Seq<int>,
    lbl: Label,
    ptype: u16,
    frag_id: u8,
    pdu: Seq<u8>,
)
    requires
        bs.len() >= 2,
        ds.len() == bs.len() + 1,
        rs.len() == bs.len(),
        cuts.len() == bs.len() - 1,
        lbl == Label::ReUse ==> ds[0].last_label is Some && ds[0].last_label->Some_0.is_explicit(),
        !lbl.is_zero_label(),
        ptype >= SECOND_RANGE_PTYPE,
        pdu.len() + 2 + lbl.spec_len() <= 0xFFFF,
        0 <= cuts[0],
        forall|i: int| 0 <= i < cuts.len() - 1 ==> #[trigger] cuts[i] <= cuts[i + 1],
        cuts.last() <= pdu.len(),
        5 + lbl.spec_len() + cuts[0] <= GSE_LEN_MAX,
        forall|i: int| 0 <= i < cuts.len() - 1 ==> 1 + cuts[i + 1] - #[trigger] cuts[i] <= GSE_LEN_MAX,
        5 + pdu.len() - cuts.last() <= GSE_LEN_MAX,
        ({
            let f = first_bytes(lbl, frag_id, total_of(pdu, lbl), ptype, Seq::empty(), pdu.subrange(0, cuts[0]));
            f.len() <= bs[0].len() && bs[0].subrange(0, f.len() as int) == f
        }),
        forall|i: int| 0 < i < bs.len() - 1 ==> {
            let m = intermediate_bytes(frag_id, pdu.subrange(cuts[i - 1], cuts[i]));
            m.len() <= (#[trigger] bs[i]).len() && bs[i].subrange(0, m.len() as int) == m
        },
        ({
            let crc = ds[0].crc_calculator.spec_crc32(pdu, ptype, total_of(pdu, lbl), lbl.bytes());
            let e = end_bytes(frag_id, pdu.subrange(cuts.last(), pdu.len() as int), crc);
            e.len() <= bs.last().len() && bs.last().subrange(0, e.len() as int) == e
        }),
        frag_buffer(ds[0].memory, frag_id) is Some,
        pdu.len() <= frag_buffer(ds[0].memory, frag_id)->Some_0.len(),
        forall|i: int| 0 <= i < bs.len() ==> decap_step(#[trigger] ds[i], ds[i + 1], bs[i], rs[i]),
    ensures
        forall|i: int| 0 <= i < bs.len() - 1 ==> (#[trigger] rs[i]) is Ok && rs[i]->Ok_0.0 is FragmentedPkt,
        match rs.last() {
            Ok((DecapStatus::CompletedPkt(buf, meta), _)) => {
                &&& buf@.subrange(0, pdu.len() as int) == pdu
                &&& meta.pdu_len == pdu.len()
                &&& meta.protocol_type == ptype
                &&& meta.label == resolved(lbl, ds[0].last_label)
            },
            _ => false,
        },
{
    let last = bs.len() - 1;
    assert(decap_step(ds[0], ds[1], bs[0], rs[0]));
    lemma_cuts_bounded(cuts, 0, pdu.len() as int);
    lemma_first_step(ds[0], ds[1], lbl, ptype, frag_id, pdu, cuts[0], bs[0], rs[0]);
    lemma_prefix_after(ds, bs, rs, cuts, lbl, ptype, frag_id, pdu, last);
    lemma_cuts_nonneg(cuts, last - 1);
    assert(decap_step(ds[last], ds[last + 1], bs[last], rs[last]));
    lemma_end_step(ds[last], ds[last + 1], lbl, resolved(lbl, ds[0].last_label), ptype, frag_id, pdu, cuts[last - 1], bs[last], rs[last]);
}

proof fn lemma_prefix_after<T: GseDecapMemory, C: CrcCalculator, M: MandatoryHeaderExtensionManager>(
    ds: Seq<Decapsulator<T, C, M>>,
    bs: Seq<Seq<u8>>,
    rs: Seq<Result<(DecapStatus, usize), (DecapError, usize)>>,
    cuts: Seq<int>,
    lbl: Label,
    ptype: u16,
    frag_id: u8,
    pdu: Seq<u8>,
    i: int,
)
    requires
        bs.len() >= 2,
        ds.len() == bs.len() + 1,
        rs.len() == bs.len(),
        cuts.len() == bs.len() - 1,
        1 <= i <= bs.len() - 1,
        pdu.len() + 2 + lbl.spec_len() <= 0xFFFF,
        0 <= cuts[0],
        forall|j: int| 0 <= j < cuts.len() - 1 ==> #[trigger] cuts[j] <= cuts[j + 1],
        cuts.last() <= pdu.len(),
        forall|j: int| 0 <= j < cuts.len() - 1 ==> 1 + cuts[j + 1] - #[trigger] cuts[j] <= GSE_LEN_MAX,
        forall|j: int| 0 < j < bs.len() - 1 ==> {
            let m = intermediate_bytes(frag_id, pdu.subrange(cuts[j - 1], cuts[j]));
            m.len() <= (#[trigger] bs[j]).len() && bs[j].subrange(0, m.len() as int) == m
        },
        forall|j: int| 0 <= j < bs.len() ==> decap_step(#[trigger] ds[j], ds[j + 1], bs[j], rs[j]),
        holds_prefix(ds[1], frag_id, lbl, resolved(lbl, ds[0].last_label), ptype, pdu, cuts[0]),
        rs[0] is Ok && rs[0]->Ok_0.0 is FragmentedPkt,
    ensures
        holds_prefix(ds[i], frag_id, lbl, resolved(lbl, ds[0].last_label), ptype, pdu, cuts[i - 1]),
        ds[i].crc_calculator == ds[0].crc_calculator,
        forall|j: int| 0 <= j < i ==> (#[trigger] rs[j]) is Ok && rs[j]->Ok_0.0 is FragmentedPkt,
    decreases i,
{
    assert(decap_step(ds[0], ds[1], bs[0], rs[0]));
    lemma_crc_kept(ds[0], ds[1], bs[0], rs[0]);
    if i > 1 {
        lemma_prefix_after(ds, bs, rs, cuts, lbl, ptype, frag_id, pdu, i - 1);
        let k = i - 1;
        assert(cuts[k - 1] <= cuts[k]);
        lemma_cuts_nonneg(cuts, k - 1);
        lemma_cuts_bounded(cuts, k, pdu.len() as int);
        assert(decap_step(ds[k], ds[k + 1], bs[k], rs[k]));
        lemma_crc_kept(ds[k], ds[k + 1], bs[k], rs[k]);
        lemma_intermediate_step(ds[k], ds[k + 1], lbl, resolved(lbl, ds[0].last_label), ptype, frag_id, pdu, cuts[k - 1], cuts[k], bs[k], rs[k]);
    }
}

proof fn lemma_cuts_nonneg(cuts: Seq<int>, j: int)
    requires
        0 <= j < cuts.len(),
        0 <= cuts[0],
        forall|i: int| 0 <= i < cuts.len() - 1 ==> #[trigger] cuts[i] <= cuts[i + 1],
    ensures
        0 <= cuts[j],
    decreases j,
{
    if j > 0 {
        lemma_cuts_nonneg(cuts, j - 1);
        assert(cuts[j - 1] <= cuts[j]);
    }
}

proof fn lemma_cuts_bounded(cuts: Seq<int>, j: int, n: int)
    requires
        0 <= j < cuts.len(),
        cuts.last() <= n,
        forall|i: int| 0 <= i < cuts.len() - 1 ==> #[trigger] cuts[i] <= cuts[i + 1],
    ensures
        cuts[j] <= n,
    decreases cuts.len() - j,
{
    if j < cuts.len() - 1 {
        lemma_cuts_bounded(cuts, j + 1, n);
        assert(cuts[j] <= cuts[j + 1]);
    }
}

/// `b` starts with a whole packet of type `t` whose header reads as
/// GSE-Length `gse` and label type `lt`.
pub open spec fn packet_of(b: Seq<u8>, t: PktType, gse: nat, lt: LabelType) -> bool {
    &&& b.len() >= 2
    &&& gse <= 0xFFF
    &&& parse_header_word(read_be16(b, 0)) == Some((gse as usize, t, lt))
    &&& b.len() >= gse + 2
}

/// A first fragment that is stored leaves its reassembly in the place of
/// its fragment id, with the buffer that `new_frag` handed out, and every
/// other place as it was.
proof fn lemma_first_stored<T: GseDecapMemory, C: CrcCalculator, M: MandatoryHeaderExtensionManager>(
    d: Decapsulator<T, C, M>,
    d2: Decapsulator<T, C, M>,
    b: Seq<u8>,
    r: Result<(DecapStatus, usize), (DecapError, usize)>,
    gse: nat,
    lt: LabelType,
)
    requires
        decap_step(d, d2, b, r),
        packet_of(b, PktType::FirstFragPkt, gse, lt),
        r is Ok,
    ensures
        d.memory.max_frag_id() > 0,
        d2.memory.max_frag_id() == d.memory.max_frag_id(),
        0 <= place(b[2], d.memory.max_frag_id()) < d.memory.slots().len(),
        d2.memory.slots().len() == d.memory.slots().len(),
        d2.memory.slots()[place(b[2], d.memory.max_frag_id())] is Some,
        d2.memory.slots()[place(b[2], d.memory.max_frag_id())]->Some_0.0.frag_id == b[2],
        d2.memory.pool() == after_new_frag(d.memory, b[2]).0,
        forall|i: int| 0 <= i < d.memory.slots().len() && i != place(b[2], d.memory.max_frag_id())
            ==> #[trigger] d2.memory.slots()[i] == d.memory.slots()[i],
{
    reveal(decap_step);
    let p = place(b[2], d.memory.max_frag_id());
    let (pool1, slots1) = after_new_frag(d.memory, b[2]);
    assert(d2.memory.slots() == slots1.update(p, d2.memory.slots()[p]));
    assert forall|i: int| 0 <= i < d.memory.slots().len() && i != p implies #[trigger] d2.memory.slots()[i] == d.memory.slots()[i] by {
        assert(d2.memory.slots()[i] == slots1[i]);
    }
}

/// A second first fragment with the same fragment id evicts the first: its
/// reassembly takes the place, reusing the buffer of the one it replaces,
/// so the free pool is not touched, and no other place changes.
pub proof fn lemma_same_id_evicts<T: GseDecapMemory, C: CrcCalculator, M: MandatoryHeaderExtensionManager>(
    d0: Decapsulator<T, C, M>,
    d1: Decapsulator<T, C, M>,
    d2: Decapsulator<T, C, M>,
    b1: Seq<u8>,
    b2: Seq<u8>,
    r1: Result<(DecapStatus, usize), (DecapError, usize)>,
    r2: Result<(DecapStatus, usize), (DecapError, usize)>,
    gse1: nat,
    gse2: nat,
    lt1: LabelType,
    lt2: LabelType,
)
    requires
        decap_step(d0, d1, b1, r1),
        decap_step(d1, d2, b2, r2),
        packet_of(b1, PktType::FirstFragPkt, gse1, lt1),
        packet_of(b2, PktType::FirstFragPkt, gse2, lt2),
        b1[2] == b2[2],
        r1 is Ok,
        r2 is Ok,
    ensures
        d2.memory.pool() == d1.memory.pool(),
        stored(d2.memory, b2[2]) is Some,
        forall|i: int| 0 <= i < d1.memory.slots().len() && i != place(b2[2], d1.memory.max_frag_id())
            ==> #[trigger] d2.memory.slots()[i] == d1.memory.slots()[i],
{
    lemma_first_stored(d0, d1, b1, r1, gse1, lt1);
    lemma_first_stored(d1, d2, b2, r2, gse2, lt2);
}

/// An end fragment of a reassembly whose place was taken by another
/// fragment id (one that aliases it) is refused with `UndefinedId`, and the
/// memory and the last label are left as they were.
pub proof fn lemma_alias_end_undefined<T: GseDecapMemory, C: CrcCalculator, M: MandatoryHeaderExtensionManager>(
    d1: Decapsulator<T, C, M>,
    d2: Decapsulator<T, C, M>,
    d3: Decapsulator<T, C, M>,
    b2: Seq<u8>,
    b3: Seq<u8>,
    r2: Result<(DecapStatus, usize), (DecapError, usize)>,
    r3: Result<(DecapStatus, usize), (DecapError, usize)>,
    gse2: nat,
    gse3: nat,
    lt2: LabelType,
    lt3: LabelType,
)
    requires
        decap_step(d1, d2, b2, r2),
        decap_step(d2, d3, b3, r3),
        packet_of(b2, PktType::FirstFragPkt, gse2, lt2),
        packet_of(b3, PktType::EndFragPkt, gse3, lt3),
        gse3 >= 5,
        r2 is Ok,
        b3[2] != b2[2],
        place(b3[2], d1.memory.max_frag_id()) == place(b2[2], d1.memory.max_frag_id()),
    ensures
        r3 == Err::<(DecapStatus, usize), (DecapError, usize)>(
            (DecapError::ErrorMemory(DecapMemoryError::UndefinedId), (gse3 + 2) as usize),
        ),
        same_model(d2.memory, d3.memory),
        d3.last_label == d2.last_label,
{
    lemma_first_stored(d1, d2, b2, r2, gse2, lt2);
    assert(stored(d2.memory, b3[2]) is None);
    reveal(decap_step);
}

/// The CRC that a first fragment hands on is the one that the end of the
/// reassembly checks: for a reassembly that holds what the first fragment
/// carried (label, protocol type, total length, and whether the label was
/// Label-Reuse) and whose PDU is the one encapsulated, the CRC computed at
/// the end fragment equals the CRC in the fragmentation context.
pub proof fn lemma_crc_closure<C: CrcCalculator>(
    crc: C,
    pdu: Seq<u8>,
    frag_id: u8,
    ptype: u16,
    lbl: Label,
    buf_len: nat,
    ctx: DecapContext,
)
    requires
        encap_plan(crc, pdu, frag_id, ptype, ptype, lbl, Seq::empty(), buf_len) is Ok,
        encap_plan(crc, pdu, frag_id, ptype, ptype, lbl, Seq::empty(), buf_len)->Ok_0.0 is FragmentedPkt,
        ctx.from_label_reuse == (lbl == Label::ReUse),
        !ctx.from_label_reuse ==> ctx.label == lbl,
        ctx.protocol_type == ptype,
        ctx.total_len == (pdu.len() + 2 + lbl.spec_len()) as u16,
    ensures
        ({
            let crc_label = if ctx.from_label_reuse { Seq::empty() } else { ctx.label.bytes() };
            crc.spec_crc32(pdu, ctx.protocol_type, ctx.total_len, crc_label)
                == encap_plan(crc, pdu, frag_id, ptype, ptype, lbl, Seq::empty(), buf_len)->Ok_0.0->FragmentedPkt_1.crc
        }),
{
    if lbl == Label::ReUse {
        assert(lbl.bytes() =~= Seq::<u8>::empty());
    }
}

/// An altered byte is caught: when an end fragment completes a reassembly
/// whose PDU differs in exactly one byte from the PDU that the carried CRC
/// was computed on (with the reassembly's protocol type, total length and
/// label), decapsulation with the GSE CRC-32 fails with `ErrorCrc`.
pub proof fn lemma_altered_byte_fails_crc<T: GseDecapMemory, M: MandatoryHeaderExtensionManager>(
    d: Decapsulator<T, DefaultCrc, M>,
    d2: Decapsulator<T, DefaultCrc, M>,
    b: Seq<u8>,
    r: Result<(DecapStatus, usize), (DecapError, usize)>,
    sent: Seq<u8>,
    k: int,
)
    requires
        b.len() >= 2,
        parse_header_word(read_be16(b, 0)) is Some,
        parse_header_word(read_be16(b, 0))->Some_0.1 == PktType::EndFragPkt,
        ({
            let g = parse_header_word(read_be16(b, 0))->Some_0.0 as int;
            let frag_id = b[2];
            let n = g - 5;
            &&& g >= 5
            &&& b.len() >= g + 2
            &&& stored(d.memory, frag_id) is Some
            &&& ({
                let (ctx, bytes) = stored(d.memory, frag_id)->Some_0;
                let got = bytes.subrange(0, ctx.pdu_len as int) + b.subrange(3, 3 + n);
                let label_len = if ctx.from_label_reuse { 0 } else { ctx.label.spec_len() };
                let crc_label = if ctx.from_label_reuse { Seq::empty() } else { ctx.label.bytes() };
                &&& ctx.pdu_len + n <= bytes.len()
                &&& ctx.total_len == (ctx.pdu_len + n + 2 + label_len) as u16
                &&& read_be32(b, 3 + n) == gse_crc(sent, ctx.protocol_type, ctx.total_len, crc_label)
                &&& sent.len() == got.len()
                &&& 0 <= k < sent.len()
                &&& sent[k] != got[k]
                &&& forall|j: int| 0 <= j < sent.len() && j != k ==> sent[j] == got[j]
            })
        }),
        Decapsulator::decap_post(d, d2, b, r),
    ensures
        r is Err && r->Err_0.0 == DecapError::ErrorCrc,
{
    let g = parse_header_word(read_be16(b, 0))->Some_0.0 as int;
    let frag_id = b[2];
    let n = g - 5;
    let (ctx, bytes) = stored(d.memory, frag_id)->Some_0;
    let got = bytes.subrange(0, ctx.pdu_len as int) + b.subrange(3, 3 + n);
    let crc_label = if ctx.from_label_reuse { Seq::empty() } else { ctx.label.bytes() };
    lemma_one_byte_change_detected(got, sent, k, ctx.protocol_type, ctx.total_len, crc_label);
}

/// What a packet is known by before decapsulation: its label, or its
/// fragment id.
#[derive(Debug, PartialEq, Eq)]
pub enum LabelorFragId {
    Lbl(Label),
    FragId(u8),
}

/// Why `get_label_or_frag_id` gives nothing.
#[derive(Debug, PartialEq, Eq, Clone, Copy, Structural)]
pub enum GetLabelorFragIdError {
    /// The packet carries Label-Reuse: its label depends on earlier ones.
    ErrLabelReuse,
    ErrSizeBuffer,
    /// The header is padding.
    ErrHeaderRead,
    ErrorUnkownMandatoryHeader,
}

impl GetLabelorFragIdError {
    pub fn to_str(&self) -> (r: &'static str)
        ensures
            self is ErrLabelReuse ==> r@ == "Last Label can not be retrieved"@,
            self is ErrSizeBuffer ==> r@ == "Packet too small for gse packet"@,
            self is ErrHeaderRead ==> r@ == "Can not read header"@,
            self is ErrorUnkownMandatoryHeader ==> r@ == "Header contains unknown Mandatory Header Extension "@,
    {
        match self {
            Self::ErrLabelReuse => "Last Label can not be retrieved",
            Self::ErrSizeBuffer => "Packet too small for gse packet",
            Self::ErrHeaderRead => "Can not read header",
            Self::ErrorUnkownMandatoryHeader => "Header contains unknown Mandatory Header Extension ",
        }
    }
}

/// The label or fragment id of the packet at the start of `b`.
pub open spec fn label_or_frag_id(b: Seq<u8>) -> Result<LabelorFragId, GetLabelorFragIdError> {
    if b.len() < 2 {
        Err(GetLabelorFragIdError::ErrSizeBuffer)
    } else {
        match parse_header_word(read_be16(b, 0)) {
            None => Err(GetLabelorFragIdError::ErrHeaderRead),
            Some((_, pt, lt)) => if pt == PktType::IntermediateFragPkt || pt == PktType::EndFragPkt {
                if b.len() < 3 {
                    Err(GetLabelorFragIdError::ErrSizeBuffer)
                } else {
                    Ok(LabelorFragId::FragId(b[2]))
                }
            } else if lt == LabelType::Broadcast {
                Ok(LabelorFragId::Lbl(Label::Broadcast))
            } else if lt == LabelType::ReUse {
                Err(GetLabelorFragIdError::ErrLabelReuse)
            } else {
                let offset: int = if pt == PktType::FirstFragPkt { 7 } else { 4 };
                if b.len() < offset + lt.spec_len() {
                    Err(GetLabelorFragIdError::ErrSizeBuffer)
                } else {
                    Ok(LabelorFragId::Lbl(Label::from_bytes(lt, b.subrange(offset, offset + lt.spec_len()))))
                }
            },
        }
    }
}

/// The decapsulator: the memory for PDUs and reassemblies, the CRC
/// calculator, the last label of the baseband frame, and the registry of
/// known mandatory extensions.
pub struct Decapsulator<T: GseDecapMemory, C: CrcCalculator, MHEM: MandatoryHeaderExtensionManager> {
    pub memory: T,
    pub crc_calculator: C,
    pub last_label: Option<Label>,
    pub mandatory_extension_manager: MHEM,
}

/// Copies the extensions.
fn copy_extensions(v: &Vec<Extension>) -> (r: Vec<Extension>)
    ensures
        ext_views(r@) == ext_views(v@),
        (forall|i: int| 0 <= i < v@.len() ==> (#[trigger] v@[i]).wf()) ==> (forall|i: int| 0 <= i < r@.len() ==> (#[trigger] r@[i]).wf()),
{
    let mut r: Vec<Extension> = Vec::new();
    let mut i: usize = 0;
    while i < v.len()
        invariant
            i <= v@.len(),
            r@.len() == i,
            forall|k: int| 0 <= k < i ==> (#[trigger] r@[k])@ == v@[k]@,
            forall|k: int| 0 <= k < i ==> v@[k].wf() ==> (#[trigger] r@[k]).wf(),
        decreases v.len() - i,
    {
        r.push(v[i].duplicate());
        i = i + 1;
    }
    assert(ext_views(r@) =~= ext_views(v@));
    r
}

/// The memory's model holds its invariant.
pub open spec fn mem_ok<T: GseDecapMemory>(m: T) -> bool {
    &&& m.wf()
    &&& memory_ok(m.max_frag_id(), m.min_size(), m.pool(), m.slots())
}

/// The reassembly that `take_frag(frag_id)` would hand out, if any.
pub open spec fn stored<T: GseDecapMemory>(m: T, frag_id: u8) -> Option<StoredFrag> {
    if m.max_frag_id() == 0 {
        None
    } else {
        match m.slots()[place(frag_id, m.max_frag_id())] {
            Some((c, b)) => if c.frag_id == frag_id {
                Some((c, b))
            } else {
                None
            },
            None => None,
        }
    }
}

/// The buffer that `new_frag` for `frag_id` would hand out, if any: the
/// buffer of the reassembly in its place, else the last free buffer.
pub open spec fn frag_buffer<T: GseDecapMemory>(m: T, frag_id: u8) -> Option<Seq<u8>> {
    if m.max_frag_id() == 0 {
        None
    } else {
        match m.slots()[place(frag_id, m.max_frag_id())] {
            Some((_, b)) => Some(b),
            None => if m.pool().len() > 0 {
                Some(m.pool().last())
            } else {
                None
            },
        }
    }
}

/// The pool and places after `new_frag` for `frag_id` succeeded.
pub open spec fn after_new_frag<T: GseDecapMemory>(m: T, frag_id: u8) -> (Seq<Seq<u8>>, Seq<Option<StoredFrag>>) {
    let p = place(frag_id, m.max_frag_id());
    if m.slots()[p] is Some {
        (m.pool(), m.slots().update(p, None))
    } else {
        (m.pool().drop_last(), m.slots())
    }
}

/// Two memories with the same model.
pub open spec fn same_model<T: GseDecapMemory>(a: T, b: T) -> bool {
    &&& b.max_frag_id() == a.max_frag_id()
    &&& b.min_size() == a.min_size()
    &&& b.pool() == a.pool()
    &&& b.slots() == a.slots()
}

/// `b` has the places and sizes of `a`, with pool `pool` and places `slots`.
pub open spec fn model_is<T: GseDecapMemory>(a: T, b: T, pool: Seq<Seq<u8>>, slots: Seq<Option<StoredFrag>>) -> bool {
    &&& b.max_frag_id() == a.max_frag_id()
    &&& b.min_size() == a.min_size()
    &&& b.pool() == pool
    &&& b.slots() == slots
}

proof fn lemma_pool_last<T: GseDecapMemory>(m: T)
    requires
        mem_ok(m),
        m.pool().len() > 0,
    ensures
        m.pool().last().len() >= m.min_size(),
        m.pool().drop_last().len() + count_some(m.slots()) < m.max_frag_id() + 2,
        m.pool().drop_last().push(m.pool().last()) == m.pool(),
{
    assert(m.pool()[m.pool().len() - 1].len() >= m.min_size());
    assert(m.pool().drop_last().push(m.pool().last()) =~= m.pool());
}

proof fn lemma_slot_taken<T: GseDecapMemory>(m: T, p: int)
    requires
        mem_ok(m),
        0 <= p < m.slots().len(),
        m.slots()[p] is Some,
    ensures
        m.slots()[p]->Some_0.1.len() >= m.min_size(),
        m.pool().len() + count_some(m.slots().update(p, None)) < m.max_frag_id() + 2,
{
    lemma_count_update(m.slots(), p, None);
}

impl<T: GseDecapMemory, C: CrcCalculator, MHEM: MandatoryHeaderExtensionManager> Decapsulator<T, C, MHEM> {
    /// The memory is well formed.
    pub open spec fn wf(&self) -> bool {
        mem_ok(self.memory)
    }

    pub fn new(memory: T, crc_calculator: C, mandatory_extension_manager: MHEM) -> (r: Decapsulator<T, C, MHEM>)
        ensures
            r.memory == memory,
            r.crc_calculator == crc_calculator,
            r.mandatory_extension_manager == mandatory_extension_manager,
            r.last_label is None,
    {
        Decapsulator { last_label: None, memory, crc_calculator, mandatory_extension_manager }
    }

    /// Takes the last buffer of the memory's free pool.
    pub fn new_pdu(&mut self) -> (r: Result<Box<[u8]>, DecapMemoryError>)
        requires
            old(self).wf(),
        ensures
            final(self).wf(),
            final(self).last_label == old(self).last_label,
            final(self).crc_calculator == old(self).crc_calculator,
            final(self).mandatory_extension_manager == old(self).mandatory_extension_manager,
            final(self).memory.max_frag_id() == old(self).memory.max_frag_id(),
            final(self).memory.min_size() == old(self).memory.min_size(),
            final(self).memory.slots() == old(self).memory.slots(),
            if old(self).memory.pool().len() == 0 {
                r == Err::<Box<[u8]>, DecapMemoryError>(DecapMemoryError::StorageUnderflow)
                    && final(self).memory.pool() == old(self).memory.pool()
            } else {
                r is Ok && r->Ok_0@ == old(self).memory.pool().last()
                    && final(self).memory.pool() == old(self).memory.pool().drop_last()
            },
    {
        self.memory.new_pdu()
    }

    /// Gives a buffer to the memory's free pool, unless the memory holds as
    /// many buffers as it may or the buffer is too small.
    pub fn provision_storage(&mut self, storage: Box<[u8]>) -> (r: Result<(), DecapMemoryError>)
        requires
            old(self).wf(),
        ensures
            final(self).wf(),
            final(self).last_label == old(self).last_label,
            final(self).crc_calculator == old(self).crc_calculator,
            final(self).mandatory_extension_manager == old(self).mandatory_extension_manager,
            final(self).memory.max_frag_id() == old(self).memory.max_frag_id(),
            final(self).memory.min_size() == old(self).memory.min_size(),
            final(self).memory.slots() == old(self).memory.slots(),
            if old(self).memory.pool().len() + count_some(old(self).memory.slots()) >= old(self).memory.max_frag_id() + 2 {
                r == Err::<(), DecapMemoryError>(DecapMemoryError::StorageOverflow(storage))
                    && final(self).memory.pool() == old(self).memory.pool()
            } else if storage@.len() < old(self).memory.min_size() {
                r == Err::<(), DecapMemoryError>(DecapMemoryError::BufferTooSmall(storage))
                    && final(self).memory.pool() == old(self).memory.pool()
            } else {
                r is Ok && final(self).memory.pool() == old(self).memory.pool().push(storage@)
            },
    {
        self.memory.provision_storage(storage)
    }

    /// Forgets the last label; to be called at every new baseband frame.
    pub fn reset_last_label(&mut self)
        ensures
            final(self).last_label is None,
            final(self).memory == old(self).memory,
            final(self).crc_calculator == old(self).crc_calculator,
            final(self).mandatory_extension_manager == old(self).mandatory_extension_manager,
    {
        self.last_label = None;
    }

    /// What decapsulating a complete packet does: `b` is the buffer, `lt`
    /// the label type and `gse` the GSE-Length of its header. The label is
    /// resolved before a buffer is taken from the pool; a buffer taken is
    /// given back on failure.
    pub open spec fn complete_post(
        old: Self,
        new: Self,
        b: Seq<u8>,
        lt: LabelType,
        gse: nat,
        r: Result<(DecapStatus, usize), (DecapError, usize)>,
    ) -> bool {
        let l = lt.spec_len() as int;
        let pkt_len = gse + 2;
        let blen = b.len();
        let fail = |e: DecapError, skip: nat|
            r == Err::<(DecapStatus, usize), (DecapError, usize)>((e, skip as usize)) && new.last_label is None
                && same_model(old.memory, new.memory);
        if gse < l + 2 {
            fail(DecapError::ErrorGseLength, blen)
        } else {
            let wire = Label::from_bytes(lt, b.subrange(4, 4 + l));
            if wire.is_zero_label() {
                fail(DecapError::ErrorInvalidLabel, pkt_len)
            } else {
                match chain_after_label(old.mandatory_extension_manager, b.subrange(4 + l, pkt_len as int), read_be16(b, 2)) {
                    Err(e) => r == Err::<(DecapStatus, usize), (DecapError, usize)>(chain_error(e, blen, pkt_len))
                        && new.last_label is None && same_model(old.memory, new.memory),
                    Ok(c) => {
                        let n = gse - l - 2 - c.len;
                        match resolve_label(lt, wire, old.last_label) {
                            Err(e) => fail(e, pkt_len),
                            Ok((lbl, last)) => if old.memory.pool().len() == 0 {
                                fail(DecapError::ErrorMemory(DecapMemoryError::StorageUnderflow), pkt_len)
                            } else if old.memory.pool().last().len() < n {
                                fail(DecapError::ErrorSizePduBuffer, pkt_len)
                            } else {
                                match r {
                                    Ok((DecapStatus::CompletedPkt(buf, meta), len)) => {
                                        &&& len == pkt_len
                                        &&& buf@.len() == old.memory.pool().last().len()
                                        &&& buf@.subrange(0, n) == b.subrange(pkt_len - n, pkt_len as int)
                                        &&& meta.pdu_len == n
                                        &&& meta.protocol_type == c.protocol_type
                                        &&& meta.label == lbl
                                        &&& ext_views(meta.extensions@) == c.extensions
                                        &&& new.last_label == last
                                        &&& model_is(old.memory, new.memory, old.memory.pool().drop_last(), old.memory.slots())
                                    },
                                    _ => false,
                                }
                            },
                        }
                    },
                }
            }
        }
    }

    fn decap_complete(&mut self, buffer: &[u8], label_type: LabelType, pkt_len: usize, gse_len: usize) -> (r: Result<(DecapStatus, usize), (DecapError, usize)>)
        requires
            old(self).wf(),
            pkt_len == gse_len + 2,
            pkt_len <= buffer@.len(),
            gse_len <= 0xFFF,
        ensures
            final(self).wf(),
            final(self).crc_calculator == old(self).crc_calculator,
            final(self).mandatory_extension_manager == old(self).mandatory_extension_manager,
            Self::complete_post(*old(self), *final(self), buffer@, label_type, gse_len as nat, r),
    {
        let buffer_len = buffer.len();
        let label_len = label_type.len();
        if gse_len < label_len + PROTOCOL_LEN {
            // the start of the next packet is unknown: the rest of the buffer is dropped
            self.last_label = None;
            return Err((DecapError::ErrorGseLength, buffer_len));
        }
        let first_field = read_u16_be(buffer, FIXED_HEADER_LEN);
        let offset = FIXED_HEADER_LEN + PROTOCOL_LEN;
        let label = Label::new(&label_type, slice_subrange(buffer, offset, offset + label_len));
        if label.is_zero() {
            self.last_label = None;
            return Err((DecapError::ErrorInvalidLabel, pkt_len));
        }
        let offset = offset + label_len;
        let mut protocol_type = first_field;
        let mut extensions: Vec<Extension> = Vec::new();
        let mut header_ext_len: usize = 0;
        if first_field < SECOND_RANGE_PTYPE {
            match iterate_over_extension_header(slice_subrange(buffer, offset, pkt_len), &self.mandatory_extension_manager, first_field) {
                Err(ExtensionHeaderError::BufferTooSmall) => {
                    self.last_label = None;
                    return Err((DecapError::ErrorSizePduBuffer, buffer_len));
                },
                Err(ExtensionHeaderError::UnknownMandatoryHeader) => {
                    self.last_label = None;
                    return Err((DecapError::ErrorUnkownMandatoryHeader, pkt_len));
                },
                Ok(status) => {
                    protocol_type = status.protocol_type;
                    header_ext_len = status.header_ext_len;
                    extensions = status.extensions;
                },
            }
        } else {
            assert(ext_views(extensions@) =~= Seq::<(u16, Seq<u8>)>::empty());
        }
        let pdu_len = gse_len - label_len - PROTOCOL_LEN - header_ext_len;
        let current_label = match self.apply_label(&label_type, label) {
            Err(e) => {
                return Err((e, pkt_len));
            },
            Ok(l) => l,
        };
        let mut pdu_buffer = match self.memory.new_pdu() {
            Ok(pdu) => pdu,
            Err(err) => {
                self.last_label = None;
                return Err((DecapError::ErrorMemory(err), pkt_len));
            },
        };
        proof {
            lemma_pool_last(old(self).memory);
        }
        if pdu_buffer.len() < pdu_len {
            self.last_label = None;
            let _ = self.memory.provision_storage(pdu_buffer);
            return Err((DecapError::ErrorSizePduBuffer, pkt_len));
        }
        write_bytes(&mut pdu_buffer, 0, slice_subrange(buffer, pkt_len - pdu_len, pkt_len));
        proof {
            assert(pdu_buffer@.subrange(0, pdu_len as int) =~= buffer@.subrange(pkt_len - pdu_len, pkt_len as int));
        }
        let metadata = DecapMetadata { pdu_len, protocol_type, label: current_label, extensions };
        Ok((DecapStatus::CompletedPkt(pdu_buffer, metadata), pkt_len))
    }

    /// What decapsulating a first fragment does. The buffer that receives
    /// the fragment is the one `new_frag` hands out (see `frag_buffer`); it
    /// goes to the free pool if it is too small.
    pub open spec fn first_post(
        old: Self,
        new: Self,
        b: Seq<u8>,
        lt: LabelType,
        gse: nat,
        r: Result<(DecapStatus, usize), (DecapError, usize)>,
    ) -> bool {
        let l = lt.spec_len() as int;
        let pkt_len = gse + 2;
        let blen = b.len();
        let fail = |e: DecapError, skip: nat|
            r == Err::<(DecapStatus, usize), (DecapError, usize)>((e, skip as usize)) && new.last_label is None
                && same_model(old.memory, new.memory);
        if gse < l + 5 {
            fail(DecapError::ErrorGseLength, blen)
        } else {
            let frag_id = b[2];
            let total = read_be16(b, 3);
            let wire = Label::from_bytes(lt, b.subrange(7, 7 + l));
            if wire.is_zero_label() {
                fail(DecapError::ErrorInvalidLabel, pkt_len)
            } else {
                match resolve_label(lt, wire, old.last_label) {
                    Err(e) => fail(e, pkt_len),
                    Ok((lbl, last)) => match chain_after_label(old.mandatory_extension_manager, b.subrange(7 + l, pkt_len as int), read_be16(b, 5)) {
                        Err(e) => r == Err::<(DecapStatus, usize), (DecapError, usize)>(chain_error(e, blen, pkt_len))
                            && new.last_label is None && same_model(old.memory, new.memory),
                        Ok(c) => {
                            let n = gse - l - 5 - c.len;
                            let p = place(frag_id, old.memory.max_frag_id());
                            let (pool1, slots1) = after_new_frag(old.memory, frag_id);
                            if total <= n {
                                fail(DecapError::ErrorTotalLength, pkt_len)
                            } else {
                                match frag_buffer(old.memory, frag_id) {
                                    None => fail(DecapError::ErrorMemory(DecapMemoryError::StorageUnderflow), pkt_len),
                                    Some(fb) => if fb.len() < n {
                                        &&& r == Err::<(DecapStatus, usize), (DecapError, usize)>((DecapError::ErrorSizePduBuffer, pkt_len as usize))
                                        &&& new.last_label is None
                                        &&& model_is(old.memory, new.memory, pool1.push(fb), slots1)
                                    } else {
                                        match (r, new.memory.slots()[p]) {
                                            (Ok((DecapStatus::FragmentedPkt(meta), len)), Some((ctx, bytes))) => {
                                                &&& len == pkt_len
                                                &&& meta.pdu_len == 0
                                                &&& meta.protocol_type == c.protocol_type
                                                &&& meta.label == lbl
                                                &&& ext_views(meta.extensions@) == c.extensions
                                                &&& new.last_label == last
                                                &&& ctx.label == lbl
                                                &&& ctx.protocol_type == c.protocol_type
                                                &&& ctx.frag_id == frag_id
                                                &&& ctx.total_len == total
                                                &&& ctx.pdu_len == n
                                                &&& ctx.from_label_reuse == (lt == LabelType::ReUse)
                                                &&& ext_views(ctx.extensions_header@) == c.extensions
                                                &&& bytes.len() == fb.len()
                                                &&& bytes.subrange(0, n) == b.subrange(pkt_len - n, pkt_len as int)
                                                &&& model_is(old.memory, new.memory, pool1, slots1.update(p, Some((ctx, bytes))))
                                            },
                                            _ => false,
                                        }
                                    },
                                }
                            }
                        },
                    },
                }
            }
        }
    }

    fn decap_first(&mut self, buffer: &[u8], label_type: LabelType, pkt_len: usize, gse_len: usize) -> (r: Result<(DecapStatus, usize), (DecapError, usize)>)
        requires
            old(self).wf(),
            pkt_len == gse_len + 2,
            pkt_len <= buffer@.len(),
            gse_len <= 0xFFF,
        ensures
            final(self).wf(),
            final(self).crc_calculator == old(self).crc_calculator,
            final(self).mandatory_extension_manager == old(self).mandatory_extension_manager,
            Self::first_post(*old(self), *final(self), buffer@, label_type, gse_len as nat, r),
    {
        let buffer_len = buffer.len();
        let label_len = label_type.len();
        if gse_len < label_len + PROTOCOL_LEN + FRAG_ID_LEN + TOTAL_LENGTH_LEN {
            // the start of the next packet is unknown: the rest of the buffer is dropped
            self.last_label = None;
            return Err((DecapError::ErrorGseLength, buffer_len));
        }
        let frag_id = buffer[FIXED_HEADER_LEN];
        let total_len = read_u16_be(buffer, FIXED_HEADER_LEN + FRAG_ID_LEN);
        let offset = FIXED_HEADER_LEN + FRAG_ID_LEN + TOTAL_LENGTH_LEN;
        let first_field = read_u16_be(buffer, offset);
        let offset = offset + PROTOCOL_LEN;
        let label = Label::new(&label_type, slice_subrange(buffer, offset, offset + label_len));
        if label.is_zero() {
            self.last_label = None;
            return Err((DecapError::ErrorInvalidLabel, pkt_len));
        }
        let current_label = match self.apply_label(&label_type, label) {
            Err(e) => {
                return Err((e, pkt_len));
            },
            Ok(l) => l,
        };
        let offset = offset + label_len;
        let mut protocol_type = first_field;
        let mut extensions: Vec<Extension> = Vec::new();
        let mut header_ext_len: usize = 0;
        if first_field < SECOND_RANGE_PTYPE {
            match iterate_over_extension_header(slice_subrange(buffer, offset, pkt_len), &self.mandatory_extension_manager, first_field) {
                Err(ExtensionHeaderError::BufferTooSmall) => {
                    self.last_label = None;
                    return Err((DecapError::ErrorSizePduBuffer, buffer_len));
                },
                Err(ExtensionHeaderError::UnknownMandatoryHeader) => {
                    self.last_label = None;
                    return Err((DecapError::ErrorUnkownMandatoryHeader, pkt_len));
                },
                Ok(status) => {
                    protocol_type = status.protocol_type;
                    header_ext_len = status.header_ext_len;
                    extensions = status.extensions;
                },
            }
        } else {
            assert(ext_views(extensions@) =~= Seq::<(u16, Seq<u8>)>::empty());
        }
        let pdu_len = gse_len - (FRAG_ID_LEN + TOTAL_LENGTH_LEN + label_len + header_ext_len + PROTOCOL_LEN);
        if (total_len as usize) <= pdu_len {
            self.last_label = None;
            return Err((DecapError::ErrorTotalLength, pkt_len));
        }
        let from_label_reuse = match label_type {
            LabelType::ReUse => true,
            _ => false,
        };
        let decap_context = DecapContext::new(
            current_label,
            protocol_type,
            frag_id,
            total_len,
            pdu_len as u16,
            from_label_reuse,
            copy_extensions(&extensions),
        );
        let ghost p = place(frag_id, old(self).memory.max_frag_id());
        let (decap_context, mut pdu_buffer) = match self.memory.new_frag(decap_context) {
            Ok(ok) => ok,
            Err(err) => {
                self.last_label = None;
                return Err((DecapError::ErrorMemory(err), pkt_len));
            },
        };
        proof {
            if old(self).memory.slots()[p] is Some {
                lemma_slot_taken(old(self).memory, p);
            } else {
                lemma_pool_last(old(self).memory);
            }
        }
        if pdu_buffer.len() < pdu_len {
            self.last_label = None;
            let _ = self.memory.provision_storage(pdu_buffer);
            return Err((DecapError::ErrorSizePduBuffer, pkt_len));
        }
        write_bytes(&mut pdu_buffer, 0, slice_subrange(buffer, pkt_len - pdu_len, pkt_len));
        proof {
            assert(pdu_buffer@.subrange(0, pdu_len as int) =~= buffer@.subrange(pkt_len - pdu_len, pkt_len as int));
        }
        let metadata = DecapMetadata {
            pdu_len: 0,
            protocol_type: decap_context.protocol_type,
            label: decap_context.label,
            extensions,
        };
        match self.memory.save_frag((decap_context, pdu_buffer)) {
            Ok(_) => Ok((DecapStatus::FragmentedPkt(metadata), pkt_len)),
            Err(err) => Err((DecapError::ErrorMemory(err), pkt_len)),
        }
    }

    /// What decapsulating an intermediate fragment does: its bytes are
    /// appended to the reassembly of its fragment id, whose buffer goes to
    /// the free pool if they do not fit.
    pub open spec fn intermediate_post(
        old: Self,
        new: Self,
        b: Seq<u8>,
        gse: nat,
        r: Result<(DecapStatus, usize), (DecapError, usize)>,
    ) -> bool {
        let pkt_len = gse + 2;
        if gse < 1 {
            r == Err::<(DecapStatus, usize), (DecapError, usize)>((DecapError::ErrorGseLength, b.len() as usize))
                && new.last_label is None && same_model(old.memory, new.memory)
        } else {
            let frag_id = b[2];
            let n = gse - 1;
            let p = place(frag_id, old.memory.max_frag_id());
            &&& new.last_label == old.last_label
            &&& match stored(old.memory, frag_id) {
                None => r == Err::<(DecapStatus, usize), (DecapError, usize)>(
                    (DecapError::ErrorMemory(DecapMemoryError::UndefinedId), pkt_len as usize),
                ) && same_model(old.memory, new.memory),
                Some((ctx, bytes)) => if ctx.pdu_len + n > bytes.len() || ctx.pdu_len + n > 0xFFFF {
                    &&& r == Err::<(DecapStatus, usize), (DecapError, usize)>((DecapError::ErrorSizePduBuffer, pkt_len as usize))
                    &&& model_is(old.memory, new.memory, old.memory.pool().push(bytes), old.memory.slots().update(p, None))
                } else {
                    let nctx = DecapContext { pdu_len: (ctx.pdu_len + n) as u16, ..ctx };
                    let nbytes = bytes.subrange(0, ctx.pdu_len as int) + b.subrange(3, pkt_len as int)
                        + bytes.subrange(ctx.pdu_len + n, bytes.len() as int);
                    &&& model_is(old.memory, new.memory, old.memory.pool(), old.memory.slots().update(p, Some((nctx, nbytes))))
                    &&& match r {
                        Ok((DecapStatus::FragmentedPkt(meta), len)) => {
                            &&& len == pkt_len
                            &&& meta.pdu_len == 0
                            &&& meta.protocol_type == ctx.protocol_type
                            &&& meta.label == ctx.label
                            &&& ext_views(meta.extensions@) == ext_views(ctx.extensions_header@)
                        },
                        _ => false,
                    }
                },
            }
        }
    }

    fn decap_intermediate(&mut self, buffer: &[u8], pkt_len: usize, gse_len: usize) -> (r: Result<(DecapStatus, usize), (DecapError, usize)>)
        requires
            old(self).wf(),
            pkt_len == gse_len + 2,
            pkt_len <= buffer@.len(),
            gse_len <= 0xFFF,
        ensures
            final(self).wf(),
            final(self).crc_calculator == old(self).crc_calculator,
            final(self).mandatory_extension_manager == old(self).mandatory_extension_manager,
            Self::intermediate_post(*old(self), *final(self), buffer@, gse_len as nat, r),
    {
        let buffer_len = buffer.len();
        if gse_len < FRAG_ID_LEN {
            self.last_label = None;
            return Err((DecapError::ErrorGseLength, buffer_len));
        }
        let frag_id = buffer[FIXED_HEADER_LEN];
        let pdu_len = gse_len - FRAG_ID_LEN;
        let ghost p = place(frag_id, old(self).memory.max_frag_id());
        let (mut decap_context, mut pdu) = match self.memory.take_frag(frag_id) {
            Ok(ok) => ok,
            Err(err) => {
                return Err((DecapError::ErrorMemory(err), pkt_len));
            },
        };
        proof {
            lemma_slot_taken(old(self).memory, p);
        }
        let done = decap_context.pdu_len as usize;
        if done > pdu.len() || pdu.len() - done < pdu_len || done + pdu_len > 0xFFFF {
            let _ = self.memory.provision_storage(pdu);
            return Err((DecapError::ErrorSizePduBuffer, pkt_len));
        }
        let ghost before = pdu@;
        write_bytes(&mut pdu, done, slice_subrange(buffer, FIXED_HEADER_LEN + FRAG_ID_LEN, pkt_len));
        decap_context.pdu_len = (done + pdu_len) as u16;
        let metadata = DecapMetadata {
            pdu_len: 0,
            protocol_type: decap_context.protocol_type,
            label: decap_context.label,
            extensions: copy_extensions(&decap_context.extensions_header),
        };
        let ghost saved = (decap_context, pdu@);
        proof {
            assert(old(self).memory.slots().update(p, None).update(p, Some(saved)) =~= old(self).memory.slots().update(p, Some(saved)));
        }
        match self.memory.save_frag((decap_context, pdu)) {
            Err(err) => Err((DecapError::ErrorMemory(err), pkt_len)),
            Ok(()) => Ok((DecapStatus::FragmentedPkt(metadata), pkt_len)),
        }
    }

    /// What decapsulating an end fragment does: the PDU is what was stored
    /// followed by this fragment's bytes, and it is handed out when its
    /// length agrees with the total length and its CRC with the one carried.
    /// On any of these errors the reassembly is dropped and its buffer goes
    /// to the free pool.
    pub open spec fn end_post(
        old: Self,
        new: Self,
        b: Seq<u8>,
        gse: nat,
        r: Result<(DecapStatus, usize), (DecapError, usize)>,
    ) -> bool {
        let pkt_len = gse + 2;
        if gse < 5 {
            r == Err::<(DecapStatus, usize), (DecapError, usize)>((DecapError::ErrorGseLength, b.len() as usize))
                && new.last_label is None && same_model(old.memory, new.memory)
        } else {
            let frag_id = b[2];
            let n = gse - 5;
            let err = |e: DecapError| r == Err::<(DecapStatus, usize), (DecapError, usize)>((e, pkt_len as usize));
            let p = place(frag_id, old.memory.max_frag_id());
            &&& new.last_label == old.last_label
            &&& match stored(old.memory, frag_id) {
                None => err(DecapError::ErrorMemory(DecapMemoryError::UndefinedId)) && same_model(old.memory, new.memory),
                Some((ctx, bytes)) => {
                    let a = ctx.pdu_len as int;
                    let len = a + n;
                    let written = bytes.subrange(0, a) + b.subrange(3, 3 + n) + bytes.subrange(len, bytes.len() as int);
                    let pdu = bytes.subrange(0, a) + b.subrange(3, 3 + n);
                    let label_len = if ctx.from_label_reuse { 0 } else { ctx.label.spec_len() };
                    let crc_label = if ctx.from_label_reuse { Seq::empty() } else { ctx.label.bytes() };
                    let dropped = old.memory.slots().update(p, None);
                    if len > bytes.len() {
                        err(DecapError::ErrorSizePduBuffer) && model_is(old.memory, new.memory, old.memory.pool().push(bytes), dropped)
                    } else if ctx.total_len != (len + 2 + label_len) as u16 {
                        err(DecapError::ErrorTotalLength) && model_is(old.memory, new.memory, old.memory.pool().push(written), dropped)
                    } else if old.crc_calculator.spec_crc32(pdu, ctx.protocol_type, ctx.total_len, crc_label) != read_be32(b, 3 + n) {
                        err(DecapError::ErrorCrc) && model_is(old.memory, new.memory, old.memory.pool().push(written), dropped)
                    } else {
                        &&& model_is(old.memory, new.memory, old.memory.pool(), dropped)
                        &&& match r {
                            Ok((DecapStatus::CompletedPkt(buf, meta), rlen)) => {
                                &&& rlen == pkt_len
                                &&& buf@ == written
                                &&& buf@.subrange(0, len) == pdu
                                &&& meta.pdu_len == len
                                &&& meta.protocol_type == ctx.protocol_type
                                &&& meta.label == ctx.label
                                &&& meta.extensions == ctx.extensions_header
                            },
                            _ => false,
                        }
                    }
                },
            }
        }
    }

    fn decap_end(&mut self, buffer: &[u8], pkt_len: usize, gse_len: usize) -> (r: Result<(DecapStatus, usize), (DecapError, usize)>)
        requires
            old(self).wf(),
            pkt_len == gse_len + 2,
            pkt_len <= buffer@.len(),
            gse_len <= 0xFFF,
        ensures
            final(self).wf(),
            final(self).crc_calculator == old(self).crc_calculator,
            final(self).mandatory_extension_manager == old(self).mandatory_extension_manager,
            Self::end_post(*old(self), *final(self), buffer@, gse_len as nat, r),
    {
        let buffer_len = buffer.len();
        if gse_len < FRAG_ID_LEN + CRC_LEN {
            self.last_label = None;
            return Err((DecapError::ErrorGseLength, buffer_len));
        }
        let frag_id = buffer[FIXED_HEADER_LEN];
        let pdu_len = gse_len - (FRAG_ID_LEN + CRC_LEN);
        let ghost p = place(frag_id, old(self).memory.max_frag_id());
        let (decap_context, mut pdu) = match self.memory.take_frag(frag_id) {
            Ok(ok) => ok,
            Err(err) => {
                return Err((DecapError::ErrorMemory(err), pkt_len));
            },
        };
        proof {
            lemma_slot_taken(old(self).memory, p);
        }
        let done = decap_context.pdu_len as usize;
        if done > pdu.len() || pdu.len() - done < pdu_len {
            let _ = self.memory.provision_storage(pdu);
            return Err((DecapError::ErrorSizePduBuffer, pkt_len));
        }
        let offset = FIXED_HEADER_LEN + FRAG_ID_LEN;
        write_bytes(&mut pdu, done, slice_subrange(buffer, offset, offset + pdu_len));
        let received_crc = read_u32_be(buffer, offset + pdu_len);
        let total_pdu_len = done + pdu_len;
        let first_label_len: usize = if decap_context.from_label_reuse {
            0
        } else {
            decap_context.label.len()
        };
        let total_len_received = (total_pdu_len + PROTOCOL_LEN + first_label_len) as u16;
        if decap_context.total_len != total_len_received {
            let _ = self.memory.provision_storage(pdu);
            return Err((DecapError::ErrorTotalLength, pkt_len));
        }
        proof {
            assert(pdu@.subrange(0, total_pdu_len as int) =~= stored(old(self).memory, frag_id)->Some_0.1.subrange(0, done as int)
                + buffer@.subrange(3, 3 + pdu_len));
        }
        let no_label: [u8; 0] = [];
        let calculated_crc = if decap_context.from_label_reuse {
            self.crc_calculator.calculate_crc32(
                slice_subrange(&pdu, 0, total_pdu_len),
                decap_context.protocol_type,
                decap_context.total_len,
                no_label.as_slice(),
            )
        } else {
            self.crc_calculator.calculate_crc32(
                slice_subrange(&pdu, 0, total_pdu_len),
                decap_context.protocol_type,
                decap_context.total_len,
                decap_context.label.get_bytes(),
            )
        };
        proof {
            assert(no_label@ =~= Seq::<u8>::empty());
        }
        if calculated_crc != received_crc {
            let _ = self.memory.provision_storage(pdu);
            return Err((DecapError::ErrorCrc, pkt_len));
        }
        let metadata = DecapMetadata {
            pdu_len: total_pdu_len,
            protocol_type: decap_context.protocol_type,
            label: decap_context.label,
            extensions: decap_context.extensions_header,
        };
        Ok((DecapStatus::CompletedPkt(pdu, metadata), pkt_len))
    }

    /// Decapsulates the packet at the start of `buffer`. On success, gives
    /// what came of it and the packet's length; on failure, the error and
    /// how many bytes to skip: the packet, or the whole buffer when the next
    /// packet cannot be found. The last label is forgotten on every error
    /// that touches it or the header.
    pub fn decap(&mut self, buffer: &[u8]) -> (r: Result<(DecapStatus, usize), (DecapError, usize)>)
        requires
            old(self).wf(),
        ensures
            final(self).wf(),
            final(self).crc_calculator == old(self).crc_calculator,
            final(self).mandatory_extension_manager == old(self).mandatory_extension_manager,
            Self::decap_post(*old(self), *final(self), buffer@, r),
    {
        let buffer_len = buffer.len();
        if buffer_len < FIXED_HEADER_LEN {
            self.last_label = None;
            return Err((DecapError::ErrorSizeBuffer, buffer_len));
        }
        let (gse_len, pkt_type, label_type) = match read_gse_header(read_u16_be(buffer, 0)) {
            Some(header) => header,
            None => {
                self.last_label = None;
                return Ok((DecapStatus::Padding, buffer_len));
            },
        };
        assert(gse_len <= 0xFFF) by {
            let w = read_be16(buffer@, 0);
            assert(w & 0x0FFFu16 <= 0xFFFu16) by (bit_vector);
        }
        let pkt_len = gse_len + FIXED_HEADER_LEN;
        if buffer_len < pkt_len {
            self.last_label = None;
            return Err((DecapError::ErrorSizeBuffer, buffer_len));
        }
        match pkt_type {
            PktType::CompletePkt => self.decap_complete(buffer, label_type, pkt_len, gse_len),
            PktType::FirstFragPkt => self.decap_first(buffer, label_type, pkt_len, gse_len),
            PktType::IntermediateFragPkt => self.decap_intermediate(buffer, pkt_len, gse_len),
            PktType::EndFragPkt => self.decap_end(buffer, pkt_len, gse_len),
        }
    }

    /// What `decap` does with `b`.
    pub open spec fn decap_post(old: Self, new: Self, b: Seq<u8>, r: Result<(DecapStatus, usize), (DecapError, usize)>) -> bool {
        if b.len() < 2 {
            r == Err::<(DecapStatus, usize), (DecapError, usize)>((DecapError::ErrorSizeBuffer, b.len() as usize))
                && new.last_label is None && new.memory == old.memory
        } else {
            match parse_header_word(read_be16(b, 0)) {
                None => r == Ok::<(DecapStatus, usize), (DecapError, usize)>((DecapStatus::Padding, b.len() as usize))
                    && new.last_label is None && new.memory == old.memory,
                Some((gse, pt, lt)) => if b.len() < gse + 2 {
                    r == Err::<(DecapStatus, usize), (DecapError, usize)>((DecapError::ErrorSizeBuffer, b.len() as usize))
                        && new.last_label is None && new.memory == old.memory
                } else {
                    match pt {
                        PktType::CompletePkt => Self::complete_post(old, new, b, lt, gse as nat, r),
                        PktType::FirstFragPkt => Self::first_post(old, new, b, lt, gse as nat, r),
                        PktType::IntermediateFragPkt => Self::intermediate_post(old, new, b, gse as nat, r),
                        PktType::EndFragPkt => Self::end_post(old, new, b, gse as nat, r),
                    }
                },
            }
        }
    }

    /// The label of the packet at the start of `buffer` (complete packet or
    /// first fragment), or its fragment id (intermediate or end fragment),
    /// without changing any state.
    pub fn get_label_or_frag_id(&self, buffer: &[u8]) -> (r: Result<LabelorFragId, GetLabelorFragIdError>)
        ensures
            r == label_or_frag_id(buffer@),
    {
        if buffer.len() < FIXED_HEADER_LEN {
            return Err(GetLabelorFragIdError::ErrSizeBuffer);
        }
        let header = match read_gse_header(read_u16_be(buffer, 0)) {
            Some(h) => h,
            None => {
                return Err(GetLabelorFragIdError::ErrHeaderRead);
            },
        };
        let (_, pkt_type, label_type) = header;
        let label_len = label_type.len();
        match pkt_type {
            PktType::IntermediateFragPkt | PktType::EndFragPkt => {
                if buffer.len() < FIXED_HEADER_LEN + FRAG_ID_LEN {
                    return Err(GetLabelorFragIdError::ErrSizeBuffer);
                }
                return Ok(LabelorFragId::FragId(buffer[FIXED_HEADER_LEN]));
            },
            _ => {},
        }
        match label_type {
            LabelType::Broadcast => {
                return Ok(LabelorFragId::Lbl(Label::Broadcast));
            },
            LabelType::ReUse => {
                return Err(GetLabelorFragIdError::ErrLabelReuse);
            },
            _ => {},
        }
        let mut offset: usize = FIXED_HEADER_LEN;
        match pkt_type {
            PktType::FirstFragPkt => {
                offset = offset + TOTAL_LENGTH_LEN + FRAG_ID_LEN;
            },
            _ => {},
        }
        offset = offset + PROTOCOL_LEN;
        if buffer.len() < offset + label_len {
            return Err(GetLabelorFragIdError::ErrSizeBuffer);
        }
        Ok(LabelorFragId::Lbl(Label::new(&label_type, slice_subrange(buffer, offset, offset + label_len))))
    }

    /// Applies the label of a complete packet or first fragment to the last
    /// label, as `resolve_label` says.
    fn apply_label(&mut self, label_type: &LabelType, label: Label) -> (r: Result<Label, DecapError>)
        ensures
            final(self).memory == old(self).memory,
            final(self).crc_calculator == old(self).crc_calculator,
            final(self).mandatory_extension_manager == old(self).mandatory_extension_manager,
            match resolve_label(*label_type, label, old(self).last_label) {
                Ok((l, last)) => r == Ok::<Label, DecapError>(l) && final(self).last_label == last,
                Err(e) => r == Err::<Label, DecapError>(e) && final(self).last_label is None,
            },
    {
        match label_type {
            LabelType::ReUse => match self.last_label {
                Some(Label::Broadcast) => {
                    self.last_label = None;
                    Err(DecapError::ErrorLabelBroadcastSaved)
                },
                Some(Label::ReUse) => {
                    self.last_label = None;
                    Err(DecapError::ErrorLabelReUseSaved)
                },
                None => {
                    self.last_label = None;
                    Err(DecapError::ErrorNoLabelSaved)
                },
                Some(l) => Ok(l),
            },
            LabelType::Broadcast => {
                self.last_label = None;
                Ok(Label::Broadcast)
            },
            _ => {
                self.last_label = Some(label);
                Ok(label)
            },
        }
    }
}

} // verus!
