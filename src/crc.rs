//! CRC-32 of a reassembled PDU, as carried by the last fragment.
//!
//! `CrcCalculator` is the interface the encapsulator and decapsulator use;
//! `DefaultCrc` computes the GSE CRC-32: polynomial 0x04C11DB7, initial value
//! 0xFFFFFFFF, no final XOR, most significant bit first, over
//! `total_length ++ protocol_type ++ label ++ pdu` (both integers big-endian).
use vstd::prelude::*;
use crate::gse_standard::CRC_INIT;
use crate::utils::{be16, be16_bytes};

verus! {

pub const CRC_POLY: u32 = 0x04C11DB7;

/// Computation of the CRC of a PDU together with the header fields it covers.
pub trait CrcCalculator {
    /// The CRC of `pdu` with `protocol_type`, `total_length` and `label`.
    spec fn spec_crc32(&self, pdu: Seq<u8>, protocol_type: u16, total_length: u16, label: Seq<u8>) -> u32;

    /// Computes the CRC of `pdu` with `protocol_type`, `total_length` and `label`.
    fn calculate_crc32(&self, pdu: &[u8], protocol_type: u16, total_length: u16, label: &[u8]) -> (r: u32)
        ensures
            r == self.spec_crc32(pdu@, protocol_type, total_length, label@),
    ;
}

/// One shift of the CRC register.
pub open spec fn crc_shift(c: u32) -> u32 {
    if c & 0x8000_0000u32 != 0 {
        ((c << 1u32) ^ CRC_POLY) as u32
    } else {
        (c << 1u32) as u32
    }
}

/// `n` shifts of the CRC register.
pub open spec fn crc_shifts(c: u32, n: nat) -> u32
    decreases n,
{
    if n == 0 {
        c
    } else {
        crc_shift(crc_shifts(c, (n - 1) as nat))
    }
}

/// The register after one more byte.
pub open spec fn crc_byte(c: u32, b: u8) -> u32 {
    crc_shifts(c ^ ((b as u32) << 24u32), 8)
}

/// The register after the bytes of `data`, starting from `c`.
pub open spec fn crc_of(c: u32, data: Seq<u8>) -> u32
    decreases data.len(),
{
    if data.len() == 0 {
        c
    } else {
        crc_byte(crc_of(c, data.drop_last()), data.last())
    }
}

/// The GSE CRC-32 of a PDU and the header fields it covers.
pub open spec fn gse_crc(pdu: Seq<u8>, protocol_type: u16, total_length: u16, label: Seq<u8>) -> u32 {
    crc_of(CRC_INIT, be16(total_length) + be16(protocol_type) + label + pdu)
}

proof fn lemma_crc_of_concat(c: u32, a: Seq<u8>, b: Seq<u8>)
    ensures
        crc_of(c, a + b) == crc_of(crc_of(c, a), b),
    decreases b.len(),
{
    if b.len() == 0 {
        assert(a + b =~= a);
    } else {
        assert((a + b).drop_last() =~= a + b.drop_last());
        assert((a + b).last() == b.last());
        lemma_crc_of_concat(c, a, b.drop_last());
    }
}

fn crc32_byte(c: u32, b: u8) -> (r: u32)
    ensures
        r == crc_byte(c, b),
{
    let mut reg: u32 = c ^ ((b as u32) << 24u32);
    let ghost start = reg;
    let mut k: usize = 0;
    while k < 8
        invariant
            k <= 8,
            start == c ^ ((b as u32) << 24u32),
            reg == crc_shifts(start, k as nat),
        decreases 8 - k,
    {
        if reg & 0x8000_0000u32 != 0 {
            reg = (reg << 1u32) ^ CRC_POLY;
        } else {
            reg = reg << 1u32;
        }
        k = k + 1;
    }
    reg
}

/// Continues the CRC register `crc` over `data`.
pub fn crc32(data: &[u8], crc: u32) -> (r: u32)
    ensures
        r == crc_of(crc, data@),
{
    let mut acc: u32 = crc;
    let mut i: usize = 0;
    while i < data.len()
        invariant
            i <= data@.len(),
            acc == crc_of(crc, data@.subrange(0, i as int)),
        decreases data.len() - i,
    {
        proof {
            assert(data@.subrange(0, i + 1).drop_last() =~= data@.subrange(0, i as int));
        }
        acc = crc32_byte(acc, data[i]);
        i = i + 1;
    }
    proof {
        assert(data@.subrange(0, data@.len() as int) =~= data@);
    }
    acc
}

/// The bytes of `a` and `b` combined by exclusive or.
pub open spec fn xor_bytes(a: Seq<u8>, b: Seq<u8>) -> Seq<u8> {
    Seq::new(a.len(), |i: int| a[i] ^ b[i])
}

proof fn lemma_shift_xor(a: u32, b: u32)
    ensures
        crc_shift(a ^ b) == crc_shift(a) ^ crc_shift(b),
{
    let p = CRC_POLY;
    assert(p == 0x04C11DB7u32);
    if a & 0x8000_0000u32 != 0 && b & 0x8000_0000u32 != 0 {
        assert((a ^ b) & 0x8000_0000u32 == 0 && (a ^ b) << 1u32 == ((a << 1u32) ^ 0x04C11DB7u32) ^ ((b << 1u32) ^ 0x04C11DB7u32)) by (bit_vector)
            requires a & 0x8000_0000u32 != 0 && b & 0x8000_0000u32 != 0;
    } else if a & 0x8000_0000u32 != 0 {
        assert((a ^ b) & 0x8000_0000u32 != 0 && ((a ^ b) << 1u32) ^ 0x04C11DB7u32 == ((a << 1u32) ^ 0x04C11DB7u32) ^ (b << 1u32)) by (bit_vector)
            requires a & 0x8000_0000u32 != 0 && b & 0x8000_0000u32 == 0;
    } else if b & 0x8000_0000u32 != 0 {
        assert((a ^ b) & 0x8000_0000u32 != 0 && ((a ^ b) << 1u32) ^ 0x04C11DB7u32 == (a << 1u32) ^ ((b << 1u32) ^ 0x04C11DB7u32)) by (bit_vector)
            requires a & 0x8000_0000u32 == 0 && b & 0x8000_0000u32 != 0;
    } else {
        assert((a ^ b) & 0x8000_0000u32 == 0 && (a ^ b) << 1u32 == (a << 1u32) ^ (b << 1u32)) by (bit_vector)
            requires a & 0x8000_0000u32 == 0 && b & 0x8000_0000u32 == 0;
    }
}

proof fn lemma_shifts_xor(a: u32, b: u32, n: nat)
    ensures
        crc_shifts(a ^ b, n) == crc_shifts(a, n) ^ crc_shifts(b, n),
    decreases n,
{
    if n > 0 {
        lemma_shifts_xor(a, b, (n - 1) as nat);
        lemma_shift_xor(crc_shifts(a, (n - 1) as nat), crc_shifts(b, (n - 1) as nat));
    }
}

proof fn lemma_byte_xor(c1: u32, x1: u8, c2: u32, x2: u8)
    ensures
        crc_byte(c1 ^ c2, x1 ^ x2) == crc_byte(c1, x1) ^ crc_byte(c2, x2),
{
    assert((c1 ^ c2) ^ (((x1 ^ x2) as u32) << 24u32) == (c1 ^ ((x1 as u32) << 24u32)) ^ (c2 ^ ((x2 as u32) << 24u32))) by (bit_vector);
    lemma_shifts_xor(c1 ^ ((x1 as u32) << 24u32), c2 ^ ((x2 as u32) << 24u32), 8);
}

/// The CRC register is affine: running it on two inputs of one length and
/// combining the results by exclusive or is running it on the combined
/// registers and inputs.
proof fn lemma_crc_of_xor(c1: u32, d1: Seq<u8>, c2: u32, d2: Seq<u8>)
    requires
        d1.len() == d2.len(),
    ensures
        crc_of(c1 ^ c2, xor_bytes(d1, d2)) == crc_of(c1, d1) ^ crc_of(c2, d2),
    decreases d1.len(),
{
    let x = xor_bytes(d1, d2);
    if d1.len() > 0 {
        assert(x.drop_last() =~= xor_bytes(d1.drop_last(), d2.drop_last()));
        lemma_crc_of_xor(c1, d1.drop_last(), c2, d2.drop_last());
        lemma_byte_xor(crc_of(c1, d1.drop_last()), d1.last(), crc_of(c2, d2.drop_last()), d2.last());
    }
}

proof fn lemma_shifts_nonzero(c: u32, n: nat)
    requires
        c != 0,
    ensures
        crc_shifts(c, n) != 0,
    decreases n,
{
    if n > 0 {
        lemma_shifts_nonzero(c, (n - 1) as nat);
        let d = crc_shifts(c, (n - 1) as nat);
        assert(((d << 1u32) ^ 0x04C11DB7u32) != 0 && (d & 0x8000_0000u32 == 0 ==> d << 1u32 != 0)) by (bit_vector)
            requires d != 0;
    }
}

proof fn lemma_shifts_zero(n: nat)
    ensures
        crc_shifts(0, n) == 0,
    decreases n,
{
    if n > 0 {
        lemma_shifts_zero((n - 1) as nat);
        assert(0u32 & 0x8000_0000u32 == 0 && 0u32 << 1u32 == 0) by (bit_vector);
    }
}

/// From a zero register, zero bytes leave it zero; from a nonzero one, they
/// leave it nonzero.
proof fn lemma_zero_bytes(c: u32, d: Seq<u8>)
    requires
        forall|i: int| 0 <= i < d.len() ==> d[i] == 0,
    ensures
        (c == 0) == (crc_of(c, d) == 0),
    decreases d.len(),
{
    if d.len() > 0 {
        lemma_zero_bytes(c, d.drop_last());
        let r = crc_of(c, d.drop_last());
        assert(r ^ ((0u8 as u32) << 24u32) == r) by (bit_vector);
        if r == 0 {
            lemma_shifts_zero(8);
        } else {
            lemma_shifts_nonzero(r, 8);
        }
    }
}

/// A change of one PDU byte changes the GSE CRC-32: two PDUs of one length
/// that differ in exactly one byte have different CRCs, with the same
/// protocol type, total length and label.
pub proof fn lemma_one_byte_change_detected(p1: Seq<u8>, p2: Seq<u8>, k: int, protocol_type: u16, total_length: u16, label: Seq<u8>)
    requires
        p1.len() == p2.len(),
        0 <= k < p1.len(),
        p1[k] != p2[k],
        forall|j: int| 0 <= j < p1.len() && j != k ==> p1[j] == p2[j],
    ensures
        gse_crc(p1, protocol_type, total_length, label) != gse_crc(p2, protocol_type, total_length, label),
{
    let pre = be16(total_length) + be16(protocol_type) + label;
    let d1 = pre + p1;
    let d2 = pre + p2;
    let e = xor_bytes(d1, d2);
    let at = pre.len() + k;
    lemma_crc_of_xor(CRC_INIT, d1, CRC_INIT, d2);
    assert(CRC_INIT ^ CRC_INIT == 0u32) by (bit_vector);
    let head = e.subrange(0, at);
    let tail = e.subrange(at + 1, e.len() as int);
    assert forall|i: int| 0 <= i < head.len() implies head[i] == 0 by {
        assert(head[i] == d1[i] ^ d2[i]);
        assert(d1[i] == d2[i]);
        let v = d1[i];
        assert(v ^ v == 0u8) by (bit_vector);
    }
    assert forall|i: int| 0 <= i < tail.len() implies tail[i] == 0 by {
        assert(tail[i] == d1[at + 1 + i] ^ d2[at + 1 + i]);
        assert(d1[at + 1 + i] == d2[at + 1 + i]);
        let v = d1[at + 1 + i];
        assert(v ^ v == 0u8) by (bit_vector);
    }
    let x = e[at];
    assert(x == p1[k] ^ p2[k]);
    let (a, b) = (p1[k], p2[k]);
    assert(a != b ==> a ^ b != 0u8) by (bit_vector);
    lemma_zero_bytes(0, head);
    let upto = e.subrange(0, at + 1);
    assert(upto.drop_last() =~= head);
    assert(((0u32 ^ ((x as u32) << 24u32)) != 0u32)) by (bit_vector)
        requires x != 0u8;
    lemma_shifts_nonzero(0u32 ^ ((x as u32) << 24u32), 8);
    assert(crc_of(0, upto) != 0);
    assert(e =~= upto + tail);
    lemma_crc_of_concat(0, upto, tail);
    lemma_zero_bytes(crc_of(0, upto), tail);
    assert(crc_of(0, e) != 0);
    let g1 = crc_of(CRC_INIT, d1);
    let g2 = crc_of(CRC_INIT, d2);
    assert(g1 ^ g2 != 0u32 ==> g1 != g2) by (bit_vector);
}

/// The CRC-32 that GSE specifies.
#[derive(Debug, PartialEq, Eq, Clone)]
pub struct DefaultCrc;

impl CrcCalculator for DefaultCrc {
    open spec fn spec_crc32(&self, pdu: Seq<u8>, protocol_type: u16, total_length: u16, label: Seq<u8>) -> u32 {
        gse_crc(pdu, protocol_type, total_length, label)
    }

    fn calculate_crc32(&self, pdu: &[u8], protocol_type: u16, total_length: u16, label: &[u8]) -> (r: u32) {
        let tl = be16_bytes(total_length);
        let pt = be16_bytes(protocol_type);
        let mut crc = crc32(tl.as_slice(), CRC_INIT);
        crc = crc32(pt.as_slice(), crc);
        crc = crc32(label, crc);
        crc = crc32(pdu, crc);
        proof {
            let a = be16(total_length);
            let b = be16(protocol_type);
            lemma_crc_of_concat(CRC_INIT, a, b);
            lemma_crc_of_concat(CRC_INIT, a + b, label@);
            lemma_crc_of_concat(CRC_INIT, a + b + label@, pdu@);
        }
        crc
    }
}

} // verus!
