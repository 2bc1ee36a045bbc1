use dvb_gse_rust::crc::{CrcCalculator, DefaultCrc};
use dvb_gse_rust::gse_decap::{
    DecapError, DecapMemoryError, DecapMetadata, DecapStatus, Decapsulator, GseDecapMemory,
    SimpleGseMemory,
};
use dvb_gse_rust::gse_encap::{ContextFrag, EncapMetadata, EncapStatus, Encapsulator};
use dvb_gse_rust::header_extension::SimpleMandatoryExtensionHeaderManager;
use dvb_gse_rust::label::Label;
use dvb_gse_rust::utils::{GseCompletePacket, GseEndFragPacket, GseFirstFragPacket, GseIntermediatePacket, Serialisable};

type Decap = Decapsulator<SimpleGseMemory, DefaultCrc, SimpleMandatoryExtensionHeaderManager>;

fn decapsulator(max_frag_id: usize, max_pdu_size: usize, buffers: usize) -> Decap {
    let mut memory = SimpleGseMemory::new(max_frag_id, max_pdu_size, 0, 0);
    for _ in 0..buffers {
        memory.provision_storage(vec![0; max_pdu_size].into_boxed_slice()).unwrap();
    }
    Decapsulator::new(memory, DefaultCrc {}, SimpleMandatoryExtensionHeaderManager {})
}

const PDU: &[u8; 26] = b"abcdefghijklmnopqrstuvwxyz";

#[test]
fn complete_packet_of_alphabet() {
    let label = Label::SixBytesLabel(*b"012345");
    let metadata = EncapMetadata::new(0xFFFF, label);
    let mut buffer = [0u8; 1000];
    let mut encapsulator = Encapsulator::new(DefaultCrc {});
    let status = encapsulator.encap(PDU, 1, metadata, &mut buffer);
    assert_eq!(status, Ok(EncapStatus::CompletedPkt(36)));

    let mut decap = decapsulator(1, 26, 1);
    let (status, len) = decap.decap(&buffer).unwrap();
    assert_eq!(len, 36);
    assert_eq!(
        status,
        DecapStatus::CompletedPkt(Box::new(*PDU), DecapMetadata::new(26, 0xFFFF, label, vec![]))
    );
}

#[test]
fn alphabet_in_three_fragments() {
    let label = Label::SixBytesLabel(*b"012345");
    let metadata = EncapMetadata::new(0xFFFF, label);
    let mut encapsulator = Encapsulator::new(DefaultCrc {});
    let mut first = [0u8; 20];
    let mut second = [0u8; 20];
    let mut third = [0u8; 9];
    let crc = DefaultCrc {}.calculate_crc32(PDU, 0xFFFF, 34, b"012345");

    let s1 = encapsulator.encap(PDU, 1, metadata, &mut first).unwrap();
    assert_eq!(s1, EncapStatus::FragmentedPkt(20, ContextFrag::new(1, crc, 7)));
    let ctx1 = match s1 {
        EncapStatus::FragmentedPkt(_, ctx) => ctx,
        _ => unreachable!(),
    };
    let s2 = encapsulator.encap_frag(PDU, &ctx1, &mut second).unwrap();
    assert_eq!(s2, EncapStatus::FragmentedPkt(20, ContextFrag::new(1, crc, 24)));
    let ctx2 = match s2 {
        EncapStatus::FragmentedPkt(_, ctx) => ctx,
        _ => unreachable!(),
    };
    let s3 = encapsulator.encap_frag(PDU, &ctx2, &mut third).unwrap();
    assert_eq!(s3, EncapStatus::CompletedPkt(9));

    let mut decap = decapsulator(2, 26, 2);
    let (d1, l1) = decap.decap(&first).unwrap();
    assert_eq!(l1, 20);
    assert!(matches!(d1, DecapStatus::FragmentedPkt(_)));
    let (d2, l2) = decap.decap(&second).unwrap();
    assert_eq!(l2, 20);
    assert!(matches!(d2, DecapStatus::FragmentedPkt(_)));
    let (d3, l3) = decap.decap(&third).unwrap();
    assert_eq!(l3, 9);
    match d3 {
        DecapStatus::CompletedPkt(pdu, metadata) => {
            assert_eq!(&pdu[..metadata.pdu_len()], &PDU[..]);
            assert_eq!(metadata.label(), label);
            assert_eq!(metadata.protocol_type(), 0xFFFF);
        }
        other => panic!("expected a complete pdu, got {:?}", other),
    }
}

#[test]
fn first_fragment_with_short_total_length() {
    // the fragment carries 26 PDU bytes but announces a total length of 20
    let packet = GseFirstFragPacket::new(5 + 6 + 26, 3, 20, 0xFFFF, Label::SixBytesLabel(*b"012345"), PDU);
    let mut buffer = [0u8; 2 + 5 + 6 + 26];
    packet.generate(&mut buffer);
    let mut decap = decapsulator(4, 100, 4);
    let r = decap.decap(&buffer);
    assert_eq!(r, Err((DecapError::ErrorTotalLength, buffer.len())));
}

#[test]
fn end_fragment_with_wrong_crc() {
    let label = Label::SixBytesLabel(*b"012345");
    let mut decap = decapsulator(4, 100, 4);
    let total = (26 + 2 + 6) as u16;
    let first = GseFirstFragPacket::new(5 + 6 + 10, 7, total, 0xFFFF, label, &PDU[..10]);
    let mut b1 = [0u8; 2 + 5 + 6 + 10];
    first.generate(&mut b1);
    assert!(matches!(decap.decap(&b1), Ok((DecapStatus::FragmentedPkt(_), _))));
    assert_eq!(decap.memory.free_len(), 3);

    let end = GseEndFragPacket::new(1 + 16 + 4, 7, &PDU[10..], 0);
    let mut b2 = [0u8; 2 + 1 + 16 + 4];
    end.generate(&mut b2);
    assert_eq!(decap.decap(&b2), Err((DecapError::ErrorCrc, b2.len())));
    // the reassembly buffer went back to the pool
    assert_eq!(decap.memory.free_len(), 4);
}

#[test]
fn broadcast_then_label_reuse() {
    let mut decap = decapsulator(1, 100, 2);
    decap.last_label = Some(Label::ThreeBytesLabel(*b"abc"));
    let broadcast = GseCompletePacket::new(2 + 26, 0xFFFF, Label::Broadcast, PDU);
    let mut b1 = [0u8; 2 + 2 + 26];
    broadcast.generate(&mut b1);
    assert!(matches!(decap.decap(&b1), Ok((DecapStatus::CompletedPkt(_, _), 30))));
    assert_eq!(decap.last_label, None);

    let reuse = GseCompletePacket::new(2 + 26, 0xFFFF, Label::ReUse, PDU);
    let mut b2 = [0u8; 2 + 2 + 26];
    reuse.generate(&mut b2);
    assert_eq!(decap.decap(&b2), Err((DecapError::ErrorNoLabelSaved, 30)));
}

#[test]
fn second_first_fragment_with_same_id_evicts() {
    let label = Label::ThreeBytesLabel(*b"xyz");
    let total = (26 + 2 + 3) as u16;
    let mut decap = decapsulator(4, 100, 4);

    // an abandoned reassembly of id 42 ...
    let old_first = GseFirstFragPacket::new(5 + 3 + 4, 42, total, 0xFFFF, label, b"AAAA");
    let mut b0 = [0u8; 2 + 5 + 3 + 4];
    old_first.generate(&mut b0);
    assert!(matches!(decap.decap(&b0), Ok((DecapStatus::FragmentedPkt(_), _))));
    assert_eq!(decap.memory.free_len(), 3);

    // ... is replaced by a new one, which reuses its buffer
    let first = GseFirstFragPacket::new(5 + 3 + 10, 42, total, 0xFFFF, label, &PDU[..10]);
    let mut b1 = [0u8; 2 + 5 + 3 + 10];
    first.generate(&mut b1);
    assert!(matches!(decap.decap(&b1), Ok((DecapStatus::FragmentedPkt(_), _))));
    assert_eq!(decap.memory.free_len(), 3);

    let middle = GseIntermediatePacket::new(1 + 10, 42, &PDU[10..20]);
    let mut b2 = [0u8; 2 + 1 + 10];
    middle.generate(&mut b2);
    assert!(matches!(decap.decap(&b2), Ok((DecapStatus::FragmentedPkt(_), _))));

    let crc = DefaultCrc {}.calculate_crc32(PDU, 0xFFFF, total, b"xyz");
    let end = GseEndFragPacket::new(1 + 6 + 4, 42, &PDU[20..], crc);
    let mut b3 = [0u8; 2 + 1 + 6 + 4];
    end.generate(&mut b3);
    match decap.decap(&b3) {
        Ok((DecapStatus::CompletedPkt(pdu, metadata), _)) => assert_eq!(&pdu[..metadata.pdu_len()], &PDU[..]),
        other => panic!("expected the new reassembly to complete, got {:?}", other),
    }
}

#[test]
fn aliasing_fragment_id_makes_end_undefined() {
    // with 4 places, ids 2 and 6 share a place: the second reassembly takes it
    let label = Label::ThreeBytesLabel(*b"xyz");
    let total = (26 + 2 + 3) as u16;
    let mut decap = decapsulator(4, 100, 4);
    for id in [2u8, 6u8] {
        let first = GseFirstFragPacket::new(5 + 3 + 10, id, total, 0xFFFF, label, &PDU[..10]);
        let mut b = [0u8; 2 + 5 + 3 + 10];
        first.generate(&mut b);
        assert!(matches!(decap.decap(&b), Ok((DecapStatus::FragmentedPkt(_), _))));
    }
    let end = GseEndFragPacket::new(1 + 16 + 4, 2, &PDU[10..], 0);
    let mut b = [0u8; 2 + 1 + 16 + 4];
    end.generate(&mut b);
    assert_eq!(
        decap.decap(&b),
        Err((DecapError::ErrorMemory(DecapMemoryError::UndefinedId), b.len()))
    );
}
