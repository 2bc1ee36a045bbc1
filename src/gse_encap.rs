//! GSE encapsulation: a PDU and its metadata written as one complete packet,
//! or as a first fragment followed by intermediate and end fragments.
//!
//! The encapsulator can replace a label by the Label-Reuse form when it equals
//! the last label sent in the same baseband frame; the caller resets the last
//! label at every new baseband frame.
use vstd::prelude::*;
use vstd::slice::slice_subrange;
use crate::crc::{CrcCalculator, DefaultCrc};
use crate::gse_standard::{
    COMPLETE_PKT, CRC_LEN, END_PKT, FIRST_PKT, FIXED_HEADER_LEN, FRAG_ID_LEN, GSE_LEN_MASK,
    GSE_LEN_MAX, INTERMEDIATE_PKT, LABEL_3_B, LABEL_6_B, LABEL_BROADCAST, LABEL_REUSE,
    MAX_MANDATORY_VAL_PTYPE, PROTOCOL_LEN, SECOND_RANGE_PTYPE, TOTAL_LENGTH_LEN, TOTAL_LEN_MAX,
};
use crate::header_extension::{Extension, ExtensionData, ext_mid, ext_views};
use crate::label::{Label, LabelType};
use crate::pkt_type::PktType;
use crate::utils::{be16, be32, header_word, push_be16, push_be32, push_bytes, write_start};

verus! {

/// Protocol type and label of a PDU to encapsulate.
#[derive(PartialEq, Eq, Debug, Clone, Copy)]
pub struct EncapMetadata {
    pub protocol_type: u16,
    pub label: Label,
}

impl EncapMetadata {
    pub fn new(protocol_type: u16, label: Label) -> (r: Self)
        ensures
            r.protocol_type == protocol_type,
            r.label == label,
    {
        Self { protocol_type, label }
    }
}

/// What the encapsulator needs to go on with a fragmented PDU: its fragment
/// id, the CRC of the whole PDU, and how many PDU bytes have been written.
#[derive(PartialEq, Eq, Debug, Clone, Copy, Structural)]
pub struct ContextFrag {
    pub frag_id: u8,
    pub crc: u32,
    pub len_pdu_frag: u16,
}

impl ContextFrag {
    pub fn new(frag_id: u8, crc: u32, len_pdu_frag: u16) -> (r: Self)
        ensures
            r == (ContextFrag { frag_id, crc, len_pdu_frag }),
    {
        Self { frag_id, crc, len_pdu_frag }
    }

    pub fn frag_id(&self) -> (r: u8)
        ensures
            r == self.frag_id,
    {
        self.frag_id
    }

    pub fn crc(&self) -> (r: u32)
        ensures
            r == self.crc,
    {
        self.crc
    }

    pub fn len_pdu_frag(&self) -> (r: u16)
        ensures
            r == self.len_pdu_frag,
    {
        self.len_pdu_frag
    }
}

/// Outcome of one encapsulation call: the length of the packet written, and
/// for a fragment the context to go on with.
#[derive(PartialEq, Eq, Debug, Clone, Copy, Structural)]
pub enum EncapStatus {
    CompletedPkt(u16),
    FragmentedPkt(u16, ContextFrag),
}

impl EncapStatus {
    pub fn to_str(&self) -> (r: &'static str)
        ensures
            self is CompletedPkt ==> r@ == "Fully encapsulated packet"@,
            self is FragmentedPkt ==> r@ == "Partially encapsulated packet"@,
    {
        match self {
            Self::CompletedPkt(_) => "Fully encapsulated packet",
            Self::FragmentedPkt(_, _) => "Partially encapsulated packet",
        }
    }
}

/// Why a PDU could not be encapsulated.
#[derive(PartialEq, Eq, Debug, Clone, Copy, Structural)]
pub enum EncapError {
    /// The buffer cannot hold the smallest packet.
    ErrorSizeBuffer,
    /// The PDU is too large for the 16-bit total length, or the context says
    /// more bytes were written than the PDU holds.
    ErrorPduLength,
    /// The protocol type lies in the range of extension ids.
    ErrorProtocolType,
    /// The six-byte label of all zeros, which only padding may hold.
    ErrorInvalidLabel,
    /// `encap_ext` was given no extension.
    ErrorNoExtensionFound,
    /// The protocol type names a final mandatory extension other than the
    /// last extension given.
    ErrorFinalMandatoryExtensionHeader,
}

impl EncapError {
    pub fn to_str(&self) -> (r: &'static str)
        ensures
            self is ErrorSizeBuffer ==> r@ == "Too small buffer"@,
            self is ErrorPduLength ==> r@ == "Too large pdu to be stocked in total_length"@,
            self is ErrorProtocolType ==> r@ == "Extension header are not implemented"@,
            self is ErrorInvalidLabel ==> r@ == "Label 6B [0, 0, 0, 0, 0, 0] shall not be used"@,
            self is ErrorNoExtensionFound ==> r@ == "Use of encap_ext without header extension to add"@,
            self is ErrorFinalMandatoryExtensionHeader ==> r@ == "in encap_ext, if protocol type corresponds to mandatory header extension, it should be equal to the id of the last extension that must be a mandatory header extension"@,
    {
        match self {
            Self::ErrorSizeBuffer => "Too small buffer",
            Self::ErrorPduLength => "Too large pdu to be stocked in total_length",
            Self::ErrorProtocolType => "Extension header are not implemented",
            Self::ErrorInvalidLabel => "Label 6B [0, 0, 0, 0, 0, 0] shall not be used",
            Self::ErrorNoExtensionFound => "Use of encap_ext without header extension to add",
            Self::ErrorFinalMandatoryExtensionHeader => "in encap_ext, if protocol type corresponds to mandatory header extension, it should be equal to the id of the last extension that must be a mandatory header extension",
        }
    }
}

/// What an encapsulation call would do, without doing it: the packet type,
/// the number of PDU bytes the packet would carry, and its length.
#[derive(PartialEq, Eq, Debug, Clone, Copy, Structural)]
pub struct EncapPreview {
    pub pkt_type: PktType,
    pub pdu_len: usize,
    pub pkt_len: u16,
}

impl EncapPreview {
    pub fn pkt_type(&self) -> (r: PktType)
        ensures
            r == self.pkt_type,
    {
        self.pkt_type
    }

    pub fn pdu_len(&self) -> (r: usize)
        ensures
            r == self.pdu_len,
    {
        self.pdu_len
    }

    pub fn pkt_len(&self) -> (r: u16)
        ensures
            r == self.pkt_len,
    {
        self.pkt_len
    }
}

/// Smallest of three numbers.
pub open spec fn min3(a: int, b: int, c: int) -> int {
    if a <= b && a <= c {
        a
    } else if b <= c {
        b
    } else {
        c
    }
}

/// Bytes of a complete packet: header, protocol-type field, label, the
/// extension bytes that follow the label, and the PDU.
pub open spec fn complete_bytes(lbl: Label, slot: u16, mid: Seq<u8>, pdu: Seq<u8>) -> Seq<u8> {
    be16(header_word(PktType::CompletePkt, lbl.spec_type(), (2 + lbl.spec_len() + mid.len() + pdu.len()) as u16))
        + be16(slot) + lbl.bytes() + mid + pdu
}

/// Bytes of a first fragment carrying `part` of the PDU.
pub open spec fn first_bytes(lbl: Label, frag_id: u8, total: u16, slot: u16, mid: Seq<u8>, part: Seq<u8>) -> Seq<u8> {
    be16(header_word(PktType::FirstFragPkt, lbl.spec_type(), (5 + lbl.spec_len() + mid.len() + part.len()) as u16))
        + seq![frag_id] + be16(total) + be16(slot) + lbl.bytes() + mid + part
}

/// What encapsulating `pdu` with label `lbl` (after label reuse) gives for a
/// buffer of `buf_len` bytes: the status and the bytes written. `slot` is
/// the value of the protocol-type field, `ptype` the protocol type that the
/// CRC covers, and `mid` the extension bytes after the label.
pub open spec fn encap_plan<C: CrcCalculator>(
    crc: C,
    pdu: Seq<u8>,
    frag_id: u8,
    slot: u16,
    ptype: u16,
    lbl: Label,
    mid: Seq<u8>,
    buf_len: nat,
) -> Result<(EncapStatus, Seq<u8>), EncapError> {
    let l = lbl.spec_len();
    let n = pdu.len();
    let m = mid.len();
    let gse = 2 + l + m + n;
    if buf_len >= gse + 2 && gse <= GSE_LEN_MAX {
        Ok((EncapStatus::CompletedPkt((gse + 2) as u16), complete_bytes(lbl, slot, mid, pdu)))
    } else if buf_len < 7 + l + m || 5 + l + m > GSE_LEN_MAX {
        Err(EncapError::ErrorSizeBuffer)
    } else if n + 2 + l > TOTAL_LEN_MAX {
        Err(EncapError::ErrorPduLength)
    } else {
        let k = min3(buf_len - (7 + l + m), n as int, GSE_LEN_MAX - (5 + l + m));
        let total = (n + 2 + l) as u16;
        Ok((
            EncapStatus::FragmentedPkt(
                (7 + l + m + k) as u16,
                ContextFrag {
                    frag_id,
                    crc: crc.spec_crc32(pdu, ptype, total, lbl.bytes()),
                    len_pdu_frag: k as u16,
                },
            ),
            first_bytes(lbl, frag_id, total, slot, mid, pdu.subrange(0, k)),
        ))
    }
}

/// The packet type and the length of the packet that `encap_plan` writes,
/// with the number of PDU bytes it carries.
pub open spec fn plan_preview(r: Result<(EncapStatus, Seq<u8>), EncapError>, pdu_len: nat) -> Result<EncapPreview, EncapError> {
    match r {
        Ok((EncapStatus::CompletedPkt(len), _)) => Ok(
            EncapPreview { pkt_type: PktType::CompletePkt, pdu_len: pdu_len as usize, pkt_len: len },
        ),
        Ok((EncapStatus::FragmentedPkt(len, ctx), _)) => Ok(
            EncapPreview { pkt_type: PktType::FirstFragPkt, pdu_len: ctx.len_pdu_frag as usize, pkt_len: len },
        ),
        Err(e) => Err(e),
    }
}

/// Bytes of an end fragment carrying the rest of the PDU and the CRC.
pub open spec fn end_bytes(frag_id: u8, rest: Seq<u8>, crc: u32) -> Seq<u8> {
    be16(header_word(PktType::EndFragPkt, LabelType::ReUse, (5 + rest.len()) as u16)) + seq![frag_id] + rest + be32(crc)
}

/// Bytes of an intermediate fragment carrying `part` of the PDU.
pub open spec fn intermediate_bytes(frag_id: u8, part: Seq<u8>) -> Seq<u8> {
    be16(header_word(PktType::IntermediateFragPkt, LabelType::ReUse, (1 + part.len()) as u16)) + seq![frag_id] + part
}

/// What continuing a fragmented PDU gives for a buffer of `buf_len` bytes:
/// an end fragment when the rest and the CRC fit, else an intermediate one.
pub open spec fn frag_plan(pdu: Seq<u8>, ctx: ContextFrag, buf_len: nat) -> Result<(EncapStatus, Seq<u8>), EncapError> {
    let done = ctx.len_pdu_frag as int;
    if pdu.len() > TOTAL_LEN_MAX || done > pdu.len() {
        Err(EncapError::ErrorPduLength)
    } else {
        let rest = pdu.len() - done;
        if buf_len >= 7 + rest && 5 + rest <= GSE_LEN_MAX {
            Ok((EncapStatus::CompletedPkt((7 + rest) as u16), end_bytes(ctx.frag_id, pdu.subrange(done, pdu.len() as int), ctx.crc)))
        } else if buf_len > 3 {
            let k = min3(buf_len - 3, rest, GSE_LEN_MAX - 1);
            Ok((
                EncapStatus::FragmentedPkt(
                    (3 + k) as u16,
                    ContextFrag { frag_id: ctx.frag_id, crc: ctx.crc, len_pdu_frag: (done + k) as u16 },
                ),
                intermediate_bytes(ctx.frag_id, pdu.subrange(done, done + k)),
            ))
        } else {
            Err(EncapError::ErrorSizeBuffer)
        }
    }
}

/// The packet type and length of the packet that `frag_plan` writes, with
/// the number of PDU bytes it carries.
pub open spec fn frag_plan_preview(pdu_len: nat, ctx: ContextFrag, buf_len: nat) -> Result<EncapPreview, EncapError> {
    let done = ctx.len_pdu_frag as int;
    if pdu_len > TOTAL_LEN_MAX || done > pdu_len {
        Err(EncapError::ErrorPduLength)
    } else {
        let rest = pdu_len - done;
        if buf_len >= 7 + rest && 5 + rest <= GSE_LEN_MAX {
            Ok(EncapPreview { pkt_type: PktType::EndFragPkt, pdu_len: rest as usize, pkt_len: (7 + rest) as u16 })
        } else if buf_len > 3 {
            let k = min3(buf_len - 3, rest, GSE_LEN_MAX - 1);
            Ok(EncapPreview { pkt_type: PktType::IntermediateFragPkt, pdu_len: k as usize, pkt_len: (3 + k) as u16 })
        } else {
            Err(EncapError::ErrorSizeBuffer)
        }
    }
}

/// `buf` after `bytes` were written at its start.
pub open spec fn written(old_buf: Seq<u8>, bytes: Seq<u8>) -> Seq<u8> {
    bytes + old_buf.subrange(bytes.len() as int, old_buf.len() as int)
}

/// The encapsulator: a CRC calculator and the label-reuse state.
///
/// With reuse on, a six- or three-byte label equal to `last_label` goes out
/// as Label-Reuse; `re_max_consecutive` (0: no limit) bounds how many reuses
/// follow each other before the full label is sent again.
#[derive(Debug, PartialEq, Eq, Clone)]
pub struct Encapsulator<C: CrcCalculator> {
    pub crc_calculator: C,
    pub re_use_activated: bool,
    pub re_max_consecutive: u8,
    pub re_current_consecutive: u8,
    pub last_label: Option<Label>,
}

impl<C: CrcCalculator> Encapsulator<C> {
    /// The label sent for `next`, and the state after it.
    pub open spec fn reuse_step(self, next: Label) -> (Label, Self) {
        if !self.re_use_activated {
            (next, self)
        } else if self.last_label == Some(next) && self.re_max_consecutive == 0 {
            (Label::ReUse, self)
        } else if self.last_label == Some(next) && self.re_current_consecutive < self.re_max_consecutive {
            (Label::ReUse, Encapsulator { re_current_consecutive: (self.re_current_consecutive + 1) as u8, ..self })
        } else {
            let counted = Encapsulator { re_current_consecutive: 0, ..self };
            let last = if next == Label::Broadcast {
                None
            } else if next == Label::ReUse {
                counted.last_label
            } else {
                Some(next)
            };
            (next, Encapsulator { last_label: last, ..counted })
        }
    }

    /// The last label is never Broadcast nor Label-Reuse.
    pub open spec fn wf(self) -> bool {
        match self.last_label {
            Some(l) => l.is_explicit(),
            None => true,
        }
    }

    pub fn new(crc_calculator: C) -> (r: Encapsulator<C>)
        ensures
            r.crc_calculator == crc_calculator,
            r.last_label is None,
            r.re_use_activated,
            r.re_max_consecutive == 0,
            r.re_current_consecutive == 0,
    {
        Encapsulator {
            last_label: None,
            crc_calculator,
            re_use_activated: true,
            re_max_consecutive: 0,
            re_current_consecutive: 0,
        }
    }

    pub fn set_crc_calculator(&mut self, calculator: C)
        ensures
            *final(self) == (Encapsulator { crc_calculator: calculator, ..*old(self) }),
    {
        self.crc_calculator = calculator;
    }

    pub fn get_crc_calculator(&self) -> (r: &C)
        ensures
            *r == self.crc_calculator,
    {
        &self.crc_calculator
    }

    /// Forgets the last label; to be called at every new baseband frame.
    pub fn reset_last_label(&mut self)
        ensures
            *final(self) == (Encapsulator { last_label: None, ..*old(self) }),
    {
        self.last_label = None;
    }

    pub fn disable_re_use_label(&mut self)
        ensures
            *final(self) == (Encapsulator { re_use_activated: false, re_max_consecutive: 0, re_current_consecutive: 0, ..*old(self) }),
    {
        self.re_use_activated = false;
        self.re_max_consecutive = 0;
        self.re_current_consecutive = 0;
    }

    pub fn enable_re_use_label(&mut self)
        ensures
            *final(self) == (Encapsulator { re_use_activated: true, re_max_consecutive: 0, re_current_consecutive: 0, ..*old(self) }),
    {
        self.re_use_activated = true;
        self.re_max_consecutive = 0;
        self.re_current_consecutive = 0;
    }

    pub fn enable_re_use_label_with_max_consecutive(&mut self, max_consecutive: u8)
        ensures
            *final(self) == (Encapsulator { re_use_activated: true, re_max_consecutive: max_consecutive, re_current_consecutive: 0, ..*old(self) }),
    {
        self.re_use_activated = true;
        self.re_max_consecutive = max_consecutive;
        self.re_current_consecutive = 0;
    }

    pub fn is_enabled_re_use_label(&self) -> (r: bool)
        ensures
            r == self.re_use_activated,
    {
        self.re_use_activated
    }

    /// Applies label reuse to `next_label`: the label to send, with the
    /// last label and the reuse counter updated.
    pub fn check_label_re_use(&mut self, next_label: Label) -> (r: Label)
        ensures
            (r, *final(self)) == old(self).reuse_step(next_label),
    {
        if self.re_use_activated {
            let same = match &self.last_label {
                Some(l) => l.same_as(&next_label),
                None => false,
            };
            if same {
                if self.re_max_consecutive == 0u8 {
                    return Label::ReUse;
                } else if self.re_current_consecutive < self.re_max_consecutive {
                    self.re_current_consecutive = self.re_current_consecutive + 1;
                    return Label::ReUse;
                }
            }
            // a full label starts a new window of reuses
            self.re_current_consecutive = 0;
            match next_label {
                Label::Broadcast => {
                    self.last_label = None;
                },
                Label::ReUse => {},
                _ => {
                    self.last_label = Some(next_label);
                },
            }
        }
        next_label
    }
}

/// The encapsulator after sending label `l` `i` times from `e`.
pub open spec fn after_sends<C: CrcCalculator>(e: Encapsulator<C>, l: Label, i: nat) -> Encapsulator<C>
    decreases i,
{
    if i == 0 {
        e
    } else {
        after_sends(e, l, (i - 1) as nat).reuse_step(l).1
    }
}

/// The reuse window: right after a full label `l` went out (the counter at
/// 0 and `l` the last label) with a limit of `k` > 0, the next `k` sends of
/// `l` go out as Label-Reuse, the one after as `l` again, after which the
/// encapsulator is as it was after the first: a new window starts.
pub proof fn lemma_reuse_window<C: CrcCalculator>(e: Encapsulator<C>, l: Label, i: nat)
    requires
        e.re_use_activated,
        e.re_max_consecutive > 0,
        e.re_current_consecutive == 0,
        e.last_label == Some(l),
        l.is_explicit(),
        i <= e.re_max_consecutive,
    ensures
        after_sends(e, l, i) == (Encapsulator { re_current_consecutive: i as u8, ..e }),
        i < e.re_max_consecutive ==> after_sends(e, l, i).reuse_step(l).0 == Label::ReUse,
        i == e.re_max_consecutive ==> after_sends(e, l, i).reuse_step(l) == (l, e),
    decreases i,
{
    if i > 0 {
        lemma_reuse_window(e, l, (i - 1) as nat);
    }
}

/// The fixed header word for a packet type, a label type and a GSE-Length
/// (of which the low 12 bits are kept).
pub fn generate_gse_header(pkt_type: &PktType, label_type: &LabelType, gse_len: u16) -> (r: u16)
    ensures
        r == header_word(*pkt_type, *label_type, gse_len),
{
    let start_end_bits: u16 = match pkt_type {
        PktType::CompletePkt => COMPLETE_PKT,
        PktType::FirstFragPkt => FIRST_PKT,
        PktType::IntermediateFragPkt => INTERMEDIATE_PKT,
        PktType::EndFragPkt => END_PKT,
    };
    let label_type_u16: u16 = match label_type {
        LabelType::SixBytesLabel => LABEL_6_B,
        LabelType::ThreeBytesLabel => LABEL_3_B,
        LabelType::Broadcast => LABEL_BROADCAST,
        LabelType::ReUse => LABEL_REUSE,
    };
    start_end_bits | label_type_u16 | (gse_len & GSE_LEN_MASK)
}




fn min3_exec(a: usize, b: usize, c: usize) -> (r: usize)
    ensures
        r == min3(a as int, b as int, c as int),
{
    if a <= b && a <= c {
        a
    } else if b <= c {
        b
    } else {
        c
    }
}

impl<C: CrcCalculator> Encapsulator<C> {
    /// Writes a complete packet or a first fragment, as `encap_plan` says.
    fn write_packet(
        &self,
        pdu: &[u8],
        frag_id: u8,
        slot: u16,
        protocol_type: u16,
        label: &Label,
        mid: &[u8],
        buffer: &mut [u8],
    ) -> (r: Result<EncapStatus, EncapError>)
        ensures
            match (r, encap_plan(self.crc_calculator, pdu@, frag_id, slot, protocol_type, *label, mid@, old(buffer)@.len())) {
                (Ok(s), Ok((t, bytes))) => s == t && final(buffer)@ == written(old(buffer)@, bytes),
                (Err(e), Err(f)) => e == f && final(buffer)@ == old(buffer)@,
                _ => false,
            },
    {
        let label_len = label.len();
        let pdu_len = pdu.len();
        let mid_len = mid.len();
        let buffer_len = buffer.len();
        if mid_len > GSE_LEN_MAX {
            return Err(EncapError::ErrorSizeBuffer);
        }
        let head = PROTOCOL_LEN + label_len + mid_len;
        // a complete packet, if all of it fits in the buffer and in GSE-Length
        if head <= GSE_LEN_MAX && pdu_len <= GSE_LEN_MAX - head && buffer_len >= FIXED_HEADER_LEN + head
            && buffer_len - (FIXED_HEADER_LEN + head) >= pdu_len {
            let gse_len = (head + pdu_len) as u16;
            let mut pkt: Vec<u8> = Vec::new();
            push_be16(&mut pkt, generate_gse_header(&PktType::CompletePkt, &label.get_type(), gse_len));
            push_be16(&mut pkt, slot);
            push_bytes(&mut pkt, label.get_bytes());
            push_bytes(&mut pkt, mid);
            push_bytes(&mut pkt, pdu);
            proof {
                assert(pkt@ =~= complete_bytes(*label, slot, mid@, pdu@));
            }
            write_start(buffer, &pkt);
            return Ok(EncapStatus::CompletedPkt(gse_len + FIXED_HEADER_LEN as u16));
        }
        // else a first fragment
        let first_head = FIXED_HEADER_LEN + FRAG_ID_LEN + TOTAL_LENGTH_LEN + head;
        if buffer_len < first_head || first_head - FIXED_HEADER_LEN > GSE_LEN_MAX {
            return Err(EncapError::ErrorSizeBuffer);
        }
        if pdu_len > TOTAL_LEN_MAX - PROTOCOL_LEN - label_len {
            return Err(EncapError::ErrorPduLength);
        }
        let part_len = min3_exec(buffer_len - first_head, pdu_len, GSE_LEN_MAX - (first_head - FIXED_HEADER_LEN));
        let total_len = (pdu_len + PROTOCOL_LEN + label_len) as u16;
        let gse_len = (first_head - FIXED_HEADER_LEN + part_len) as u16;
        let crc = self.crc_calculator.calculate_crc32(pdu, protocol_type, total_len, label.get_bytes());
        let mut pkt: Vec<u8> = Vec::new();
        push_be16(&mut pkt, generate_gse_header(&PktType::FirstFragPkt, &label.get_type(), gse_len));
        pkt.push(frag_id);
        push_be16(&mut pkt, total_len);
        push_be16(&mut pkt, slot);
        push_bytes(&mut pkt, label.get_bytes());
        push_bytes(&mut pkt, mid);
        push_bytes(&mut pkt, slice_subrange(pdu, 0, part_len));
        proof {
            assert(pkt@ =~= first_bytes(*label, frag_id, total_len, slot, mid@, pdu@.subrange(0, part_len as int)));
        }
        write_start(buffer, &pkt);
        Ok(EncapStatus::FragmentedPkt(
            (first_head + part_len) as u16,
            ContextFrag { frag_id, crc, len_pdu_frag: part_len as u16 },
        ))
    }

    /// Encapsulates `pdu` at the start of `buffer`: a complete packet when
    /// it fits, else a first fragment whose context goes to `encap_frag`.
    /// Label reuse is applied first, and its state kept whatever follows.
    pub fn encap(&mut self, pdu: &[u8], frag_id: u8, metadata: EncapMetadata, buffer: &mut [u8]) -> (r: Result<EncapStatus, EncapError>)
        ensures
            metadata.label.is_zero_label() ==> r == Err::<EncapStatus, EncapError>(EncapError::ErrorInvalidLabel)
                && *final(self) == *old(self) && final(buffer)@ == old(buffer)@,
            !metadata.label.is_zero_label() && MAX_MANDATORY_VAL_PTYPE <= metadata.protocol_type < SECOND_RANGE_PTYPE
                ==> r == Err::<EncapStatus, EncapError>(EncapError::ErrorProtocolType) && *final(self) == *old(self)
                && final(buffer)@ == old(buffer)@,
            !metadata.label.is_zero_label() && !(MAX_MANDATORY_VAL_PTYPE <= metadata.protocol_type < SECOND_RANGE_PTYPE) ==> {
                let (lbl, next) = old(self).reuse_step(metadata.label);
                &&& *final(self) == next
                &&& match encap_plan(old(self).crc_calculator, pdu@, frag_id, metadata.protocol_type, metadata.protocol_type, lbl, Seq::empty(), old(buffer)@.len()) {
                    Ok((s, bytes)) => r == Ok::<EncapStatus, EncapError>(s) && final(buffer)@ == written(old(buffer)@, bytes),
                    Err(e) => r == Err::<EncapStatus, EncapError>(e) && final(buffer)@ == old(buffer)@,
                }
            },
    {
        let protocol_type = metadata.protocol_type;
        if metadata.label.is_zero() {
            return Err(EncapError::ErrorInvalidLabel);
        }
        if MAX_MANDATORY_VAL_PTYPE <= protocol_type && protocol_type < SECOND_RANGE_PTYPE {
            return Err(EncapError::ErrorProtocolType);
        }
        let label = self.check_label_re_use(metadata.label);
        let no_ext: [u8; 0] = [];
        assert(no_ext@ =~= Seq::<u8>::empty());
        self.write_packet(pdu, frag_id, protocol_type, protocol_type, &label, no_ext.as_slice(), buffer)
    }

    /// Encapsulates the rest of a fragmented PDU: an end fragment with the
    /// CRC when the rest fits, else an intermediate fragment with the next
    /// context.
    pub fn encap_frag(&self, pdu: &[u8], context: &ContextFrag, buffer: &mut [u8]) -> (r: Result<EncapStatus, EncapError>)
        ensures
            match frag_plan(pdu@, *context, old(buffer)@.len()) {
                Ok((s, bytes)) => r == Ok::<EncapStatus, EncapError>(s) && final(buffer)@ == written(old(buffer)@, bytes),
                Err(e) => r == Err::<EncapStatus, EncapError>(e) && final(buffer)@ == old(buffer)@,
            },
    {
        let len_pdu_frag = context.len_pdu_frag as usize;
        let frag_id = context.frag_id;
        let buffer_len = buffer.len();
        let pdu_len = pdu.len();
        if pdu_len > TOTAL_LEN_MAX || len_pdu_frag > pdu_len {
            return Err(EncapError::ErrorPduLength);
        }
        let rest = pdu_len - len_pdu_frag;
        let end_head = FIXED_HEADER_LEN + FRAG_ID_LEN + CRC_LEN;
        if rest <= GSE_LEN_MAX - (FRAG_ID_LEN + CRC_LEN) && buffer_len >= end_head && buffer_len - end_head >= rest {
            let mut pkt: Vec<u8> = Vec::new();
            push_be16(&mut pkt, generate_gse_header(&PktType::EndFragPkt, &LabelType::ReUse, (FRAG_ID_LEN + rest + CRC_LEN) as u16));
            pkt.push(frag_id);
            push_bytes(&mut pkt, slice_subrange(pdu, len_pdu_frag, pdu_len));
            push_be32(&mut pkt, context.crc);
            proof {
                assert(pkt@ =~= end_bytes(frag_id, pdu@.subrange(len_pdu_frag as int, pdu_len as int), context.crc));
            }
            write_start(buffer, &pkt);
            return Ok(EncapStatus::CompletedPkt((end_head + rest) as u16));
        }
        if buffer_len <= FIXED_HEADER_LEN + FRAG_ID_LEN {
            return Err(EncapError::ErrorSizeBuffer);
        }
        let part_len = min3_exec(buffer_len - (FIXED_HEADER_LEN + FRAG_ID_LEN), rest, GSE_LEN_MAX - FRAG_ID_LEN);
        let mut pkt: Vec<u8> = Vec::new();
        push_be16(&mut pkt, generate_gse_header(&PktType::IntermediateFragPkt, &LabelType::ReUse, (FRAG_ID_LEN + part_len) as u16));
        pkt.push(frag_id);
        push_bytes(&mut pkt, slice_subrange(pdu, len_pdu_frag, len_pdu_frag + part_len));
        proof {
            assert(pkt@ =~= intermediate_bytes(frag_id, pdu@.subrange(len_pdu_frag as int, len_pdu_frag + part_len)));
        }
        write_start(buffer, &pkt);
        Ok(EncapStatus::FragmentedPkt(
            (FIXED_HEADER_LEN + FRAG_ID_LEN + part_len) as u16,
            ContextFrag { frag_id, crc: context.crc, len_pdu_frag: (len_pdu_frag + part_len) as u16 },
        ))
    }

    /// Encapsulates `pdu` as `encap` does, with the extension chain
    /// `extensions` between the label and the PDU: the first id stands in
    /// the protocol-type field, each further id before its data, and the
    /// protocol type at the end, unless it is below 256, in which case the
    /// last extension is the final mandatory one and takes its place.
    pub fn encap_ext(
        &mut self,
        pdu: &[u8],
        frag_id: u8,
        metadata: EncapMetadata,
        buffer: &mut [u8],
        extensions: Vec<Extension>,
    ) -> (r: Result<EncapStatus, EncapError>)
        ensures
            ({
                let ptype = metadata.protocol_type;
                let exts = extensions@;
                let fin = ptype < MAX_MANDATORY_VAL_PTYPE;
                let unchanged = *final(self) == *old(self) && final(buffer)@ == old(buffer)@;
                if exts.len() == 0 {
                    r == Err::<EncapStatus, EncapError>(EncapError::ErrorNoExtensionFound) && unchanged
                } else if fin && exts.last().id != ptype && exts.last().data is MandatoryData {
                    r == Err::<EncapStatus, EncapError>(EncapError::ErrorFinalMandatoryExtensionHeader) && unchanged
                } else if !fin && ptype < SECOND_RANGE_PTYPE {
                    r == Err::<EncapStatus, EncapError>(EncapError::ErrorProtocolType) && unchanged
                } else if metadata.label.is_zero_label() {
                    r == Err::<EncapStatus, EncapError>(EncapError::ErrorInvalidLabel) && unchanged
                } else {
                    let (lbl, next) = old(self).reuse_step(metadata.label);
                    let mid = ext_mid(ext_views(exts)) + (if fin { Seq::empty() } else { be16(ptype) });
                    &&& *final(self) == next
                    &&& match encap_plan(old(self).crc_calculator, pdu@, frag_id, exts[0].id, ptype, lbl, mid, old(buffer)@.len()) {
                        Ok((s, bytes)) => r == Ok::<EncapStatus, EncapError>(s) && final(buffer)@ == written(old(buffer)@, bytes),
                        Err(e) => r == Err::<EncapStatus, EncapError>(e) && final(buffer)@ == old(buffer)@,
                    }
                }
            }),
    {
        let n_ext = extensions.len();
        if n_ext == 0 {
            return Err(EncapError::ErrorNoExtensionFound);
        }
        let protocol_type = metadata.protocol_type;
        let last = &extensions[n_ext - 1];
        let is_there_final_mandatory_extension = protocol_type < MAX_MANDATORY_VAL_PTYPE;
        if is_there_final_mandatory_extension {
            // the final mandatory extension takes the place of the protocol type
            let last_is_mandatory = match &last.data {
                ExtensionData::MandatoryData(_) => true,
                _ => false,
            };
            if last.id != protocol_type && last_is_mandatory {
                return Err(EncapError::ErrorFinalMandatoryExtensionHeader);
            }
        } else if protocol_type < SECOND_RANGE_PTYPE {
            return Err(EncapError::ErrorProtocolType);
        }
        if metadata.label.is_zero() {
            return Err(EncapError::ErrorInvalidLabel);
        }
        // the extension bytes that follow the label
        let ghost views = ext_views(extensions@);
        let mut mid: Vec<u8> = Vec::new();
        let mut i: usize = 0;
        while i < n_ext
            invariant
                n_ext == extensions@.len(),
                views == ext_views(extensions@),
                i <= n_ext,
                mid@ == ext_mid(views.subrange(0, i as int)),
            decreases n_ext - i,
        {
            proof {
                assert(views.subrange(0, i + 1).drop_last() =~= views.subrange(0, i as int));
            }
            if i > 0 {
                push_be16(&mut mid, extensions[i].id);
            }
            extensions[i].data.append_to(&mut mid);
            proof {
                if i == 0 {
                    assert(ext_mid(views.subrange(0, 1)) == views[0].1);
                    assert(mid@ =~= ext_mid(views.subrange(0, 1)));
                }
            }
            i = i + 1;
        }
        assert(views.subrange(0, n_ext as int) =~= views);
        if !is_there_final_mandatory_extension {
            push_be16(&mut mid, protocol_type);
        } else {
            assert(mid@ + Seq::<u8>::empty() =~= mid@);
        }
        let label = self.check_label_re_use(metadata.label);
        self.write_packet(pdu, frag_id, extensions[0].id, protocol_type, &label, mid.as_slice(), buffer)
    }
}

/// What `encap` would do with a buffer as long as `buffer`, label reuse
/// aside: the packet type, the PDU bytes the packet would carry and its
/// length. Nothing is written.
pub fn encap_preview(pdu: &[u8], metadata: EncapMetadata, buffer: &[u8]) -> (r: Result<EncapPreview, EncapError>)
    ensures
        r == (if metadata.label.is_zero_label() {
            Err(EncapError::ErrorInvalidLabel)
        } else if MAX_MANDATORY_VAL_PTYPE <= metadata.protocol_type < SECOND_RANGE_PTYPE {
            Err(EncapError::ErrorProtocolType)
        } else {
            plan_preview(
                encap_plan(DefaultCrc, pdu@, 0, metadata.protocol_type, metadata.protocol_type, metadata.label, Seq::empty(), buffer@.len()),
                pdu@.len(),
            )
        }),
{
    let label = metadata.label;
    let protocol_type = metadata.protocol_type;
    if label.is_zero() {
        return Err(EncapError::ErrorInvalidLabel);
    }
    if MAX_MANDATORY_VAL_PTYPE <= protocol_type && protocol_type < SECOND_RANGE_PTYPE {
        return Err(EncapError::ErrorProtocolType);
    }
    let label_len = label.len();
    let pdu_len = pdu.len();
    let buffer_len = buffer.len();
    let head = PROTOCOL_LEN + label_len;
    if pdu_len <= GSE_LEN_MAX - head && buffer_len >= FIXED_HEADER_LEN + head && buffer_len - (FIXED_HEADER_LEN + head) >= pdu_len {
        return Ok(EncapPreview {
            pkt_type: PktType::CompletePkt,
            pdu_len,
            pkt_len: (FIXED_HEADER_LEN + head + pdu_len) as u16,
        });
    }
    let first_head = FIXED_HEADER_LEN + FRAG_ID_LEN + TOTAL_LENGTH_LEN + head;
    if buffer_len < first_head {
        return Err(EncapError::ErrorSizeBuffer);
    }
    if pdu_len > TOTAL_LEN_MAX - PROTOCOL_LEN - label_len {
        return Err(EncapError::ErrorPduLength);
    }
    let part_len = min3_exec(buffer_len - first_head, pdu_len, GSE_LEN_MAX - (first_head - FIXED_HEADER_LEN));
    Ok(EncapPreview { pkt_type: PktType::FirstFragPkt, pdu_len: part_len, pkt_len: (first_head + part_len) as u16 })
}

/// What `encap_frag` would do with a buffer as long as `buffer`: the packet
/// type, the PDU bytes the packet would carry and its length. Nothing is
/// written.
pub fn encap_frag_preview(pdu: &[u8], context: &ContextFrag, buffer: &[u8]) -> (r: Result<EncapPreview, EncapError>)
    ensures
        r == frag_plan_preview(pdu@.len(), *context, buffer@.len()),
{
    let len_pdu_frag = context.len_pdu_frag as usize;
    let buffer_len = buffer.len();
    let pdu_len = pdu.len();
    if pdu_len > TOTAL_LEN_MAX || len_pdu_frag > pdu_len {
        return Err(EncapError::ErrorPduLength);
    }
    let rest = pdu_len - len_pdu_frag;
    let end_head = FIXED_HEADER_LEN + FRAG_ID_LEN + CRC_LEN;
    if rest <= GSE_LEN_MAX - (FRAG_ID_LEN + CRC_LEN) && buffer_len >= end_head && buffer_len - end_head >= rest {
        return Ok(EncapPreview { pkt_type: PktType::EndFragPkt, pdu_len: rest, pkt_len: (end_head + rest) as u16 });
    }
    if buffer_len <= FIXED_HEADER_LEN + FRAG_ID_LEN {
        return Err(EncapError::ErrorSizeBuffer);
    }
    let part_len = min3_exec(buffer_len - (FIXED_HEADER_LEN + FRAG_ID_LEN), rest, GSE_LEN_MAX - FRAG_ID_LEN);
    Ok(EncapPreview {
        pkt_type: PktType::IntermediateFragPkt,
        pdu_len: part_len,
        pkt_len: (FIXED_HEADER_LEN + FRAG_ID_LEN + part_len) as u16,
    })
}

} // verus!
