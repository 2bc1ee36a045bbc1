//! Tools for writing and reading GSE packets: big-endian fields, and the four
//! packet layouts as values that can be written to and read from a buffer.
use vstd::prelude::*;
use vstd::slice::SliceAdditionalExecFns;
use crate::gse_standard::{
    COMPLETE_PKT, END_PKT, FIRST_PKT, GSE_LEN_MASK, INTERMEDIATE_PKT, LABEL_3_B, LABEL_6_B,
    LABEL_BROADCAST, LABEL_REUSE, LABEL_TYPE_MASK, START_END_MASK,
};
use vstd::slice::slice_subrange;
use crate::gse_decap::read_gse_header;
use crate::gse_encap::generate_gse_header;
use crate::label::{Label, LabelType};
use crate::pkt_type::PktType;

verus! {

/// Big-endian bytes of a 16-bit value.
pub open spec fn be16(x: u16) -> Seq<u8> {
    seq![(x / 256) as u8, (x % 256) as u8]
}

/// Big-endian bytes of a 32-bit value.
pub open spec fn be32(x: u32) -> Seq<u8> {
    seq![(x / 0x100_0000) as u8, ((x / 0x1_0000) % 256) as u8, ((x / 256) % 256) as u8, (x % 256) as u8]
}

/// The big-endian value of the two bytes of `s` at `i`.
pub open spec fn read_be16(s: Seq<u8>, i: int) -> u16 {
    (s[i] as int * 256 + s[i + 1] as int) as u16
}

/// The big-endian value of the four bytes of `s` at `i`.
pub open spec fn read_be32(s: Seq<u8>, i: int) -> u32 {
    (s[i] as int * 0x100_0000 + s[i + 1] as int * 0x1_0000 + s[i + 2] as int * 256 + s[i + 3] as int) as u32
}

pub proof fn lemma_read_be16(x: u16, s: Seq<u8>, i: int)
    requires
        0 <= i,
        i + 2 <= s.len(),
        s.subrange(i, i + 2) == be16(x),
    ensures
        read_be16(s, i) == x,
{
    assert(s[i] == s.subrange(i, i + 2)[0]);
    assert(s[i + 1] == s.subrange(i, i + 2)[1]);
}


pub proof fn lemma_read_be32(x: u32, s: Seq<u8>, i: int)
    requires
        0 <= i,
        i + 4 <= s.len(),
        s.subrange(i, i + 4) == be32(x),
    ensures
        read_be32(s, i) == x,
{
    assert(s[i] == s.subrange(i, i + 4)[0]);
    assert(s[i + 1] == s.subrange(i, i + 4)[1]);
    assert(s[i + 2] == s.subrange(i, i + 4)[2]);
    assert(s[i + 3] == s.subrange(i, i + 4)[3]);
}

pub fn be16_bytes(x: u16) -> (r: [u8; 2])
    ensures
        r@ == be16(x),
{
    let r = [(x / 256) as u8, (x % 256) as u8];
    assert(r@ =~= be16(x));
    r
}

/// Reads a big-endian 16-bit value at `i`.
pub fn read_u16_be(buf: &[u8], i: usize) -> (r: u16)
    requires
        i + 2 <= buf@.len(),
    ensures
        r == read_be16(buf@, i as int),
{
    (buf[i] as u16) * 256 + (buf[i + 1] as u16)
}

/// Reads a big-endian 32-bit value at `i`.
pub fn read_u32_be(buf: &[u8], i: usize) -> (r: u32)
    requires
        i + 4 <= buf@.len(),
    ensures
        r == read_be32(buf@, i as int),
{
    (buf[i] as u32) * 0x100_0000 + (buf[i + 1] as u32) * 0x1_0000 + (buf[i + 2] as u32) * 256 + (buf[i + 3] as u32)
}



/// Copies `src` into `buf` at `i`.
pub fn write_bytes(buf: &mut [u8], i: usize, src: &[u8])
    requires
        i + src@.len() <= old(buf)@.len(),
    ensures
        final(buf)@ == old(buf)@.subrange(0, i as int) + src@ + old(buf)@.subrange(i + src@.len(), old(buf)@.len() as int),
{
    let _n = buf.len();
    let mut k: usize = 0;
    while k < src.len()
        invariant
            old(buf)@.len() <= usize::MAX,
            k <= src@.len(),
            i + src@.len() <= old(buf)@.len(),
            buf@.len() == old(buf)@.len(),
            buf@ == old(buf)@.subrange(0, i as int) + src@.subrange(0, k as int) + old(buf)@.subrange(i + k, old(buf)@.len() as int),
        decreases src.len() - k,
    {
        buf.set(i + k, src[k]);
        k = k + 1;
        assert(buf@ =~= old(buf)@.subrange(0, i as int) + src@.subrange(0, k as int) + old(buf)@.subrange(i + k, old(buf)@.len() as int));
    }
    assert(src@.subrange(0, src@.len() as int) =~= src@);
}

/// The start and end bits of a packet type, in place in the header word.
pub open spec fn pkt_bits(p: PktType) -> u16 {
    match p {
        PktType::CompletePkt => COMPLETE_PKT,
        PktType::FirstFragPkt => FIRST_PKT,
        PktType::IntermediateFragPkt => INTERMEDIATE_PKT,
        PktType::EndFragPkt => END_PKT,
    }
}

/// The label-type bits, in place in the header word.
pub open spec fn label_bits(l: LabelType) -> u16 {
    match l {
        LabelType::SixBytesLabel => LABEL_6_B,
        LabelType::ThreeBytesLabel => LABEL_3_B,
        LabelType::Broadcast => LABEL_BROADCAST,
        LabelType::ReUse => LABEL_REUSE,
    }
}

/// The fixed header word: S E (2 bits) | LT (2 bits) | GSE-Length (12 bits).
pub open spec fn header_word(p: PktType, l: LabelType, gse_len: u16) -> u16 {
    pkt_bits(p) | label_bits(l) | (gse_len & GSE_LEN_MASK)
}

/// The packet type that the start and end bits of `w` give.
pub open spec fn pkt_of_word(w: u16) -> PktType {
    let b = w & START_END_MASK;
    if b == COMPLETE_PKT {
        PktType::CompletePkt
    } else if b == FIRST_PKT {
        PktType::FirstFragPkt
    } else if b == END_PKT {
        PktType::EndFragPkt
    } else {
        PktType::IntermediateFragPkt
    }
}

/// The label type that the label-type bits of `w` give.
pub open spec fn label_of_word(w: u16) -> LabelType {
    let b = w & LABEL_TYPE_MASK;
    if b == LABEL_6_B {
        LabelType::SixBytesLabel
    } else if b == LABEL_3_B {
        LabelType::ThreeBytesLabel
    } else if b == LABEL_BROADCAST {
        LabelType::Broadcast
    } else {
        LabelType::ReUse
    }
}

/// A header word read: `None` for padding (an intermediate fragment with a
/// six-byte label), else GSE-Length, packet type and label type.
pub open spec fn parse_header_word(w: u16) -> Option<(usize, PktType, LabelType)> {
    if pkt_of_word(w) == PktType::IntermediateFragPkt && label_of_word(w) == LabelType::SixBytesLabel {
        None
    } else {
        Some(((w & GSE_LEN_MASK) as usize, pkt_of_word(w), label_of_word(w)))
    }
}

proof fn lemma_header_fields(a: u16, b: u16, len: u16)
    requires
        a & 0x3FFFu16 == 0,
        b & 0xCFFFu16 == 0,
    ensures
        (a | b | (len & 0xFFFu16)) & 0xC000u16 == a,
        (a | b | (len & 0xFFFu16)) & 0x3000u16 == b,
        (a | b | (len & 0xFFFu16)) & 0x0FFFu16 == len & 0xFFFu16,
{
    assert((a | b | (len & 0xFFFu16)) & 0xC000u16 == a) by (bit_vector)
        requires a & 0x3FFFu16 == 0, b & 0xCFFFu16 == 0;
    assert((a | b | (len & 0xFFFu16)) & 0x3000u16 == b) by (bit_vector)
        requires a & 0x3FFFu16 == 0, b & 0xCFFFu16 == 0;
    assert((a | b | (len & 0xFFFu16)) & 0x0FFFu16 == len & 0xFFFu16) by (bit_vector)
        requires a & 0x3FFFu16 == 0, b & 0xCFFFu16 == 0;
}

/// Reading a header word gives back what was written into it: the packet
/// type, the label type and the GSE-Length (below 4096), for every pair
/// but an intermediate fragment with a six-byte label, which reads as
/// padding.
pub proof fn lemma_header_round_trip(p: PktType, l: LabelType, gse_len: u16)
    requires
        gse_len <= 0xFFF,
    ensures
        !(p == PktType::IntermediateFragPkt && l == LabelType::SixBytesLabel) ==> parse_header_word(header_word(p, l, gse_len)) == Some(
            (gse_len as usize, p, l),
        ),
        (p == PktType::IntermediateFragPkt && l == LabelType::SixBytesLabel) ==> parse_header_word(header_word(p, l, gse_len)) is None,
{
    let a = pkt_bits(p);
    let b = label_bits(l);
    assert(a & 0x3FFFu16 == 0 && b & 0xCFFFu16 == 0) by (bit_vector)
        requires
            a == 0xC000u16 || a == 0x8000u16 || a == 0x4000u16 || a == 0u16,
            b == 0x3000u16 || b == 0x2000u16 || b == 0x1000u16 || b == 0u16;
    lemma_header_fields(a, b, gse_len);
    assert(gse_len & 0xFFFu16 == gse_len) by (bit_vector)
        requires gse_len <= 0xFFFu16;
}

/// The bytes of a big-endian 16-bit field read back give the field.
pub proof fn lemma_be16_of_read(b: Seq<u8>, i: int)
    requires
        0 <= i,
        i + 2 <= b.len(),
    ensures
        be16(read_be16(b, i)) == b.subrange(i, i + 2),
{
    let x = read_be16(b, i);
    assert(x as int == b[i] as int * 256 + b[i + 1] as int);
    assert(be16(x) =~= b.subrange(i, i + 2));
}

/// A header word that reads as a packet is the word of what it reads as.
pub proof fn lemma_header_word_of_read(w: u16)
    requires
        parse_header_word(w) is Some,
    ensures
        header_word(parse_header_word(w)->Some_0.1, parse_header_word(w)->Some_0.2, parse_header_word(w)->Some_0.0 as u16) == w,
{
    let se = w & 0xC000u16;
    let lt = w & 0x3000u16;
    assert(se == 0u16 || se == 0x4000u16 || se == 0x8000u16 || se == 0xC000u16) by (bit_vector)
        requires se == w & 0xC000u16;
    assert(lt == 0u16 || lt == 0x1000u16 || lt == 0x2000u16 || lt == 0x3000u16) by (bit_vector)
        requires lt == w & 0x3000u16;
    assert(pkt_bits(pkt_of_word(w)) == se);
    assert(label_bits(label_of_word(w)) == lt);
    assert((w & 0x0FFFu16) & 0x0FFFu16 == w & 0x0FFFu16) by (bit_vector);
    assert(w == (w & 0xC000u16) | (w & 0x3000u16) | ((w & 0x0FFFu16) & 0x0FFFu16)) by (bit_vector);
}

/// Writes `pkt` at the start of `buffer`.
pub fn write_start(buffer: &mut [u8], pkt: &Vec<u8>)
    requires
        pkt@.len() <= old(buffer)@.len(),
    ensures
        final(buffer)@ == pkt@ + old(buffer)@.subrange(pkt@.len() as int, old(buffer)@.len() as int),
{
    write_bytes(buffer, 0, pkt.as_slice());
    assert(old(buffer)@.subrange(0, 0) + pkt@ =~= pkt@);
}

pub fn push_bytes(out: &mut Vec<u8>, s: &[u8])
    ensures
        final(out)@ == old(out)@ + s@,
{
    let mut i: usize = 0;
    while i < s.len()
        invariant
            i <= s@.len(),
            out@ == old(out)@ + s@.subrange(0, i as int),
        decreases s.len() - i,
    {
        out.push(s[i]);
        i = i + 1;
        assert(out@ =~= old(out)@ + s@.subrange(0, i as int));
    }
    assert(s@.subrange(0, s@.len() as int) =~= s@);
}

pub fn push_be16(out: &mut Vec<u8>, x: u16)
    ensures
        final(out)@ == old(out)@ + be16(x),
{
    out.push((x / 256) as u8);
    out.push((x % 256) as u8);
    assert(out@ =~= old(out)@ + be16(x));
}

pub fn push_be32(out: &mut Vec<u8>, x: u32)
    ensures
        final(out)@ == old(out)@ + be32(x),
{
    out.push((x / 0x100_0000) as u8);
    out.push(((x / 0x1_0000) % 256) as u8);
    out.push(((x / 256) % 256) as u8);
    out.push((x % 256) as u8);
    assert(out@ =~= old(out)@ + be32(x));
}


/// The packet type and label type of the header at the start of `b`, with
/// its GSE-Length, if `b` holds a whole packet of type `t` whose fields fit.
pub open spec fn packet_frame(b: Seq<u8>, t: PktType) -> Option<(nat, LabelType)> {
    if b.len() < 2 {
        None
    } else {
        match parse_header_word(read_be16(b, 0)) {
            Some((g, pt, lt)) => {
                let min: nat = match t {
                    PktType::CompletePkt => 2 + lt.spec_len(),
                    PktType::FirstFragPkt => 5 + lt.spec_len(),
                    PktType::IntermediateFragPkt => 1,
                    PktType::EndFragPkt => 5,
                };
                if pt == t && b.len() >= g + 2 && g >= min {
                    Some((g as nat, lt))
                } else {
                    None
                }
            },
            None => None,
        }
    }
}

/// A packet that can be written to a buffer and read back from one.
pub trait Serialisable<'a>: Sized {
    /// The bytes of the packet.
    spec fn spec_bytes(&self) -> Seq<u8>;

    /// Whether `buffer` starts with a whole packet of this kind.
    spec fn spec_parses(buffer: Seq<u8>) -> bool;

    /// Writes the packet at the start of `buffer`.
    fn generate(&self, buffer: &mut [u8])
        requires
            self.spec_bytes().len() <= old(buffer)@.len(),
        ensures
            final(buffer)@ == self.spec_bytes() + old(buffer)@.subrange(self.spec_bytes().len() as int, old(buffer)@.len() as int),
    ;

    /// Whether `p` is what reading the start of `buffer` gives.
    spec fn spec_parsed(buffer: Seq<u8>, p: Self) -> bool;

    /// Reads the packet at the start of `buffer`.
    fn parse(buffer: &'a [u8]) -> (r: Result<Self, &'static str>)
        ensures
            r is Ok <==> Self::spec_parses(buffer@),
            r is Ok ==> Self::spec_parsed(buffer@, r->Ok_0),
    ;
}

/// A complete packet: GSE-Length, protocol type, label and PDU.
#[derive(PartialEq, Eq, Debug)]
pub struct GseCompletePacket<'a> {
    pub gse_len: u16,
    pub protocol_type: u16,
    pub label: Label,
    pub pdu: &'a [u8],
}

impl<'a> GseCompletePacket<'a> {
    pub fn new(gse_len: u16, protocol_type: u16, label: Label, pdu: &'a [u8]) -> (r: Self)
        ensures
            r.gse_len == gse_len,
            r.protocol_type == protocol_type,
            r.label == label,
            r.pdu@ == pdu@,
    {
        Self { gse_len, protocol_type, label, pdu }
    }
}

impl<'a> Serialisable<'a> for GseCompletePacket<'a> {
    open spec fn spec_bytes(&self) -> Seq<u8> {
        be16(header_word(PktType::CompletePkt, self.label.spec_type(), self.gse_len)) + be16(self.protocol_type)
            + self.label.bytes() + self.pdu@
    }

    open spec fn spec_parses(buffer: Seq<u8>) -> bool {
        packet_frame(buffer, PktType::CompletePkt) is Some
    }

    /// The packet is the first `gse_len + 2` bytes of the buffer.
    open spec fn spec_parsed(buffer: Seq<u8>, p: Self) -> bool {
        &&& packet_frame(buffer, PktType::CompletePkt) == Some((p.gse_len as nat, p.label.spec_type()))
        &&& p.spec_bytes() == buffer.subrange(0, p.gse_len + 2)
    }

    fn generate(&self, buffer: &mut [u8]) {
        let mut pkt: Vec<u8> = Vec::new();
        push_be16(&mut pkt, generate_gse_header(&PktType::CompletePkt, &self.label.get_type(), self.gse_len));
        push_be16(&mut pkt, self.protocol_type);
        push_bytes(&mut pkt, self.label.get_bytes());
        push_bytes(&mut pkt, self.pdu);
        assert(pkt@ =~= self.spec_bytes());
        write_start(buffer, &pkt);
    }

    fn parse(buffer: &'a [u8]) -> (r: Result<GseCompletePacket<'a>, &'static str>) {
        if buffer.len() < 2 {
            return Err("Buffer too small");
        }
        let w = read_u16_be(buffer, 0);
        let (gse_len, pkt_type, label_type) = match read_gse_header(w) {
            Some(h) => h,
            None => {
                return Err("Wrong PktType");
            },
        };
        match pkt_type {
            PktType::CompletePkt => {},
            _ => {
                return Err("Wrong PktType");
            },
        }
        let label_len = label_type.len();
        if buffer.len() < gse_len + 2 || gse_len < 2 + label_len {
            return Err("Buffer too small");
        }
        let protocol_type = read_u16_be(buffer, 2);
        let label = Label::new(&label_type, slice_subrange(buffer, 4, 4 + label_len));
        let pdu = slice_subrange(buffer, 4 + label_len, gse_len + 2);
        let r = GseCompletePacket::new(gse_len as u16, protocol_type, label, pdu);
        proof {
            lemma_header_word_of_read(w);
            lemma_be16_of_read(buffer@, 0);
            lemma_be16_of_read(buffer@, 2);
            assert(r.spec_bytes() =~= buffer@.subrange(0, gse_len + 2));
        }
        Ok(r)
    }
}

/// A first fragment: GSE-Length, fragment id, total length, protocol type,
/// label and the first part of the PDU.
#[derive(PartialEq, Eq, Debug)]
pub struct GseFirstFragPacket<'a> {
    pub gse_len: u16,
    pub frag_id: u8,
    pub total_length: u16,
    pub protocol_type: u16,
    pub label: Label,
    pub pdu: &'a [u8],
}

impl<'a> GseFirstFragPacket<'a> {
    pub fn new(gse_len: u16, frag_id: u8, total_length: u16, protocol_type: u16, label: Label, pdu: &'a [u8]) -> (r: Self)
        ensures
            r.gse_len == gse_len,
            r.frag_id == frag_id,
            r.total_length == total_length,
            r.protocol_type == protocol_type,
            r.label == label,
            r.pdu@ == pdu@,
    {
        Self { gse_len, frag_id, total_length, protocol_type, label, pdu }
    }
}

impl<'a> Serialisable<'a> for GseFirstFragPacket<'a> {
    open spec fn spec_bytes(&self) -> Seq<u8> {
        be16(header_word(PktType::FirstFragPkt, self.label.spec_type(), self.gse_len)) + seq![self.frag_id]
            + be16(self.total_length) + be16(self.protocol_type) + self.label.bytes() + self.pdu@
    }

    open spec fn spec_parses(buffer: Seq<u8>) -> bool {
        packet_frame(buffer, PktType::FirstFragPkt) is Some
    }

    /// The packet is the first `gse_len + 2` bytes of the buffer.
    open spec fn spec_parsed(buffer: Seq<u8>, p: Self) -> bool {
        &&& packet_frame(buffer, PktType::FirstFragPkt) == Some((p.gse_len as nat, p.label.spec_type()))
        &&& p.spec_bytes() == buffer.subrange(0, p.gse_len + 2)
    }

    fn generate(&self, buffer: &mut [u8]) {
        let mut pkt: Vec<u8> = Vec::new();
        push_be16(&mut pkt, generate_gse_header(&PktType::FirstFragPkt, &self.label.get_type(), self.gse_len));
        pkt.push(self.frag_id);
        push_be16(&mut pkt, self.total_length);
        push_be16(&mut pkt, self.protocol_type);
        push_bytes(&mut pkt, self.label.get_bytes());
        push_bytes(&mut pkt, self.pdu);
        assert(pkt@ =~= self.spec_bytes());
        write_start(buffer, &pkt);
    }

    fn parse(buffer: &'a [u8]) -> (r: Result<GseFirstFragPacket<'a>, &'static str>) {
        if buffer.len() < 2 {
            return Err("Buffer too small");
        }
        let w = read_u16_be(buffer, 0);
        let (gse_len, pkt_type, label_type) = match read_gse_header(w) {
            Some(h) => h,
            None => {
                return Err("Wrong PktType");
            },
        };
        match pkt_type {
            PktType::FirstFragPkt => {},
            _ => {
                return Err("Wrong PktType");
            },
        }
        let label_len = label_type.len();
        if buffer.len() < gse_len + 2 || gse_len < 5 + label_len {
            return Err("Buffer too small");
        }
        let frag_id = buffer[2];
        let total_length = read_u16_be(buffer, 3);
        let protocol_type = read_u16_be(buffer, 5);
        let label = Label::new(&label_type, slice_subrange(buffer, 7, 7 + label_len));
        let pdu = slice_subrange(buffer, 7 + label_len, gse_len + 2);
        let r = GseFirstFragPacket::new(gse_len as u16, frag_id, total_length, protocol_type, label, pdu);
        proof {
            lemma_header_word_of_read(w);
            lemma_be16_of_read(buffer@, 0);
            lemma_be16_of_read(buffer@, 3);
            lemma_be16_of_read(buffer@, 5);
            assert(r.spec_bytes() =~= buffer@.subrange(0, gse_len + 2));
        }
        Ok(r)
    }
}

/// An intermediate fragment: GSE-Length, fragment id and a part of the PDU.
#[derive(PartialEq, Eq, Debug)]
pub struct GseIntermediatePacket<'a> {
    pub gse_len: u16,
    pub frag_id: u8,
    pub pdu: &'a [u8],
}

impl<'a> GseIntermediatePacket<'a> {
    pub fn new(gse_len: u16, frag_id: u8, pdu: &'a [u8]) -> (r: Self)
        ensures
            r.gse_len == gse_len,
            r.frag_id == frag_id,
            r.pdu@ == pdu@,
    {
        Self { gse_len, frag_id, pdu }
    }
}

impl<'a> Serialisable<'a> for GseIntermediatePacket<'a> {
    open spec fn spec_bytes(&self) -> Seq<u8> {
        be16(header_word(PktType::IntermediateFragPkt, LabelType::ReUse, self.gse_len)) + seq![self.frag_id] + self.pdu@
    }

    open spec fn spec_parses(buffer: Seq<u8>) -> bool {
        packet_frame(buffer, PktType::IntermediateFragPkt) is Some
    }

    /// The label-type bits of an intermediate fragment are not read.
    open spec fn spec_parsed(buffer: Seq<u8>, p: Self) -> bool {
        &&& packet_frame(buffer, PktType::IntermediateFragPkt) == Some((p.gse_len as nat, label_of_word(read_be16(buffer, 0))))
        &&& p.spec_bytes().subrange(2, p.spec_bytes().len() as int) == buffer.subrange(2, p.gse_len + 2)
    }

    fn generate(&self, buffer: &mut [u8]) {
        let mut pkt: Vec<u8> = Vec::new();
        push_be16(&mut pkt, generate_gse_header(&PktType::IntermediateFragPkt, &LabelType::ReUse, self.gse_len));
        pkt.push(self.frag_id);
        push_bytes(&mut pkt, self.pdu);
        assert(pkt@ =~= self.spec_bytes());
        write_start(buffer, &pkt);
    }

    fn parse(buffer: &'a [u8]) -> (r: Result<GseIntermediatePacket<'a>, &'static str>) {
        if buffer.len() < 2 {
            return Err("Buffer too small");
        }
        let w = read_u16_be(buffer, 0);
        let (gse_len, pkt_type, label_type) = match read_gse_header(w) {
            Some(h) => h,
            None => {
                return Err("Wrong PktType");
            },
        };
        match pkt_type {
            PktType::IntermediateFragPkt => {},
            _ => {
                return Err("Wrong PktType");
            },
        }
        if buffer.len() < gse_len + 2 || gse_len < 1 {
            return Err("Buffer too small");
        }
        let frag_id = buffer[2];
        let pdu = slice_subrange(buffer, 3, gse_len + 2);
        let r = GseIntermediatePacket::new(gse_len as u16, frag_id, pdu);
        proof {
            assert(r.spec_bytes().subrange(2, r.spec_bytes().len() as int) =~= buffer@.subrange(2, gse_len + 2));
        }
        Ok(r)
    }
}

/// An end fragment: GSE-Length, fragment id, the last part of the PDU and
/// the CRC.
#[derive(PartialEq, Eq, Debug)]
pub struct GseEndFragPacket<'a> {
    pub gse_len: u16,
    pub frag_id: u8,
    pub pdu: &'a [u8],
    pub crc: u32,
}

impl<'a> GseEndFragPacket<'a> {
    pub fn new(gse_len: u16, frag_id: u8, pdu: &'a [u8], crc: u32) -> (r: Self)
        ensures
            r.gse_len == gse_len,
            r.frag_id == frag_id,
            r.pdu@ == pdu@,
            r.crc == crc,
    {
        Self { gse_len, frag_id, pdu, crc }
    }
}

impl<'a> Serialisable<'a> for GseEndFragPacket<'a> {
    open spec fn spec_bytes(&self) -> Seq<u8> {
        be16(header_word(PktType::EndFragPkt, LabelType::ReUse, self.gse_len)) + seq![self.frag_id] + self.pdu@ + be32(self.crc)
    }

    open spec fn spec_parses(buffer: Seq<u8>) -> bool {
        packet_frame(buffer, PktType::EndFragPkt) is Some
    }

    /// The label-type bits of an end fragment are not read.
    open spec fn spec_parsed(buffer: Seq<u8>, p: Self) -> bool {
        &&& packet_frame(buffer, PktType::EndFragPkt) == Some((p.gse_len as nat, label_of_word(read_be16(buffer, 0))))
        &&& p.spec_bytes().subrange(2, p.spec_bytes().len() as int) == buffer.subrange(2, p.gse_len + 2)
    }

    fn generate(&self, buffer: &mut [u8]) {
        let mut pkt: Vec<u8> = Vec::new();
        push_be16(&mut pkt, generate_gse_header(&PktType::EndFragPkt, &LabelType::ReUse, self.gse_len));
        pkt.push(self.frag_id);
        push_bytes(&mut pkt, self.pdu);
        push_be32(&mut pkt, self.crc);
        assert(pkt@ =~= self.spec_bytes());
        write_start(buffer, &pkt);
    }

    fn parse(buffer: &'a [u8]) -> (r: Result<GseEndFragPacket<'a>, &'static str>) {
        if buffer.len() < 2 {
            return Err("Buffer too small");
        }
        let w = read_u16_be(buffer, 0);
        let (gse_len, pkt_type, label_type) = match read_gse_header(w) {
            Some(h) => h,
            None => {
                return Err("Wrong PktType");
            },
        };
        match pkt_type {
            PktType::EndFragPkt => {},
            _ => {
                return Err("Wrong PktType");
            },
        }
        if buffer.len() < gse_len + 2 || gse_len < 5 {
            return Err("Buffer too small");
        }
        let frag_id = buffer[2];
        let pdu = slice_subrange(buffer, 3, gse_len - 2);
        let crc = read_u32_be(buffer, gse_len - 2);
        let r = GseEndFragPacket::new(gse_len as u16, frag_id, pdu, crc);
        proof {
            lemma_be32_of_read(buffer@, gse_len - 2);
            assert(r.spec_bytes().subrange(2, r.spec_bytes().len() as int) =~= buffer@.subrange(2, gse_len + 2));
        }
        Ok(r)
    }
}

/// The bytes of a big-endian 32-bit field read back give the field.
pub proof fn lemma_be32_of_read(b: Seq<u8>, i: int)
    requires
        0 <= i,
        i + 4 <= b.len(),
    ensures
        be32(read_be32(b, i)) == b.subrange(i, i + 4),
{
    let x = read_be32(b, i);
    let (b0, b1, b2, b3) = (b[i] as int, b[i + 1] as int, b[i + 2] as int, b[i + 3] as int);
    assert(x as int == b0 * 0x100_0000 + b1 * 0x1_0000 + b2 * 256 + b3);
    assert(x as int / 0x100_0000 == b0) by (nonlinear_arith)
        requires x as int == b0 * 0x100_0000 + b1 * 0x1_0000 + b2 * 256 + b3, 0 <= b0 < 256, 0 <= b1 < 256, 0 <= b2 < 256, 0 <= b3 < 256;
    assert((x as int / 0x1_0000) % 256 == b1) by (nonlinear_arith)
        requires x as int == b0 * 0x100_0000 + b1 * 0x1_0000 + b2 * 256 + b3, 0 <= b0 < 256, 0 <= b1 < 256, 0 <= b2 < 256, 0 <= b3 < 256;
    assert((x as int / 256) % 256 == b2) by (nonlinear_arith)
        requires x as int == b0 * 0x100_0000 + b1 * 0x1_0000 + b2 * 256 + b3, 0 <= b0 < 256, 0 <= b1 < 256, 0 <= b2 < 256, 0 <= b3 < 256;
    assert(x as int % 256 == b3) by (nonlinear_arith)
        requires x as int == b0 * 0x100_0000 + b1 * 0x1_0000 + b2 * 256 + b3, 0 <= b0 < 256, 0 <= b1 < 256, 0 <= b2 < 256, 0 <= b3 < 256;
    assert(be32(x) =~= b.subrange(i, i + 4));
}

} // verus!
