use nata::datalink::pcapfile::{
    capture_from_block, is_gzip_magic, is_pcapng_magic, parse_capture, record_length,
    CaptureBlock, CaptureBlockError, CaptureInterface, CapturePacket, LINKTYPE_ETHERNET,
};
use nata::layer::{Layer, LayerKind};
use nata::packet::PacketParser;
use pcap_file::pcapng::blocks::enhanced_packet::EnhancedPacketBlock;
use pcap_file::pcapng::blocks::interface_description::InterfaceDescriptionBlock;
use pcap_file::pcapng::blocks::packet::PacketBlock;
use pcap_file::pcapng::blocks::simple_packet::SimplePacketBlock;
use pcap_file::pcapng::{PcapNgReader, PcapNgWriter};
use pcap_file::DataLink;
use std::borrow::Cow;
use std::time::Duration;

fn interfaces() -> Vec<CaptureInterface> {
    vec![
        CaptureInterface { link_type: LINKTYPE_ETHERNET, snaplen: 4 },
        CaptureInterface { link_type: 101, snaplen: 0 },
    ]
}

#[test]
fn test_enhanced_packet_takes_interface_link_type() {
    let block = CaptureBlock::EnhancedPacket { interface_id: 1, original_len: 9, data: vec![1, 2, 3] };
    let packet = capture_from_block(block, &interfaces()).unwrap().unwrap();
    assert_eq!(CapturePacket { link_type: 101, original_len: 9, data: vec![1, 2, 3] }, packet);
}

#[test]
fn test_packet_block_takes_interface_link_type() {
    let block = CaptureBlock::Packet { interface_id: 0, original_len: 3, data: vec![1, 2, 3] };
    let packet = capture_from_block(block, &interfaces()).unwrap().unwrap();
    assert_eq!(LINKTYPE_ETHERNET, packet.link_type);
    assert_eq!(vec![1, 2, 3], packet.data);
}

#[test]
fn test_missing_interface() {
    let block = CaptureBlock::EnhancedPacket { interface_id: 2, original_len: 1, data: vec![1] };
    assert_eq!(Err(CaptureBlockError::MissingInterface(2)), capture_from_block(block, &interfaces()));
    let block = CaptureBlock::Packet { interface_id: 7, original_len: 1, data: vec![1] };
    assert_eq!(Err(CaptureBlockError::MissingInterface(7)), capture_from_block(block, &interfaces()));
}

#[test]
fn test_simple_packet_is_cut_to_snaplen() {
    let block = CaptureBlock::SimplePacket { original_len: 6, data: vec![1, 2, 3, 4, 5, 6, 0, 0] };
    let packet = capture_from_block(block, &interfaces()).unwrap().unwrap();
    assert_eq!(CapturePacket { link_type: LINKTYPE_ETHERNET, original_len: 6, data: vec![1, 2, 3, 4] }, packet);
}

#[test]
fn test_simple_packet_errors() {
    let block = CaptureBlock::SimplePacket { original_len: 6, data: vec![1, 2] };
    assert_eq!(Err(CaptureBlockError::ShorterThanCaptured(4)), capture_from_block(block, &interfaces()));
    let block = CaptureBlock::SimplePacket { original_len: 1, data: vec![1] };
    assert_eq!(Err(CaptureBlockError::NoInterfaceDescription), capture_from_block(block, &[]));
}

#[test]
fn test_simple_packet_without_snaplen_keeps_original_length() {
    let ifaces = [CaptureInterface { link_type: LINKTYPE_ETHERNET, snaplen: 0 }];
    let block = CaptureBlock::SimplePacket { original_len: 3, data: vec![9, 8, 7, 6] };
    let packet = capture_from_block(block, &ifaces).unwrap().unwrap();
    assert_eq!(vec![9, 8, 7], packet.data);
}

#[test]
fn test_other_block_has_no_packet() {
    assert_eq!(Ok(None), capture_from_block(CaptureBlock::Other, &[]));
}

#[test]
fn test_parse_capture_by_link_type() {
    let mut data = vec![2, 0, 0, 0, 0, 2, 2, 0, 0, 0, 0, 1, 0x08, 0x00];
    data.extend_from_slice(b"xyz");
    let ether = CapturePacket { link_type: LINKTYPE_ETHERNET, original_len: 17, data: data.clone() };
    let packet = parse_capture(&PacketParser::new(), &ether).unwrap();
    assert_eq!("Ether / Raw", packet.summary());

    let other = CapturePacket { link_type: 101, original_len: 17, data: data.clone() };
    let packet = parse_capture(&PacketParser::new(), &other).unwrap();
    assert_eq!("Raw", packet.summary());
    assert_eq!(1, packet.as_ref().len());
    match packet.get(LayerKind::Raw) {
        Some(Layer::Raw(r)) => assert_eq!(data, r.payload().to_vec()),
        _ => panic!("no raw layer"),
    }
}

#[test]
fn test_magic_numbers() {
    assert!(is_gzip_magic(&[0x1f, 0x8b]));
    assert!(!is_gzip_magic(&[0x1f]));
    assert!(!is_gzip_magic(&[0x1f, 0x8c]));
    assert!(is_pcapng_magic(&[0x0a, 0x0d, 0x0d, 0x0a]));
    assert!(!is_pcapng_magic(&[0xd4, 0xc3, 0xb2, 0xa1]));
}

#[test]
fn test_record_length() {
    assert_eq!(Some(3), record_length(&[1, 2, 3]));
    assert_eq!(Some(0), record_length(&[]));
}

/// The block, as the capture logic sees it.
fn capture_block(block: pcap_file::pcapng::Block<'_>) -> CaptureBlock {
    match block {
        pcap_file::pcapng::Block::EnhancedPacket(p) => CaptureBlock::EnhancedPacket {
            interface_id: p.interface_id,
            original_len: p.original_len,
            data: p.data.into_owned(),
        },
        pcap_file::pcapng::Block::Packet(p) => CaptureBlock::Packet {
            interface_id: p.interface_id,
            original_len: p.original_len,
            data: p.data.into_owned(),
        },
        pcap_file::pcapng::Block::SimplePacket(p) => CaptureBlock::SimplePacket {
            original_len: p.original_len,
            data: p.data.into_owned(),
        },
        _ => CaptureBlock::Other,
    }
}

#[test]
fn reads_all_pcapng_packet_block_types() {
    let data = vec![0u8; 14];
    let mut writer = PcapNgWriter::new(Vec::new()).unwrap();
    writer
        .write_pcapng_block(InterfaceDescriptionBlock::new(DataLink::ETHERNET, 65_535))
        .unwrap();
    writer
        .write_pcapng_block(EnhancedPacketBlock {
            interface_id: 0,
            timestamp: Duration::ZERO,
            original_len: data.len() as u32,
            data: Cow::Owned(data.clone()),
            options: vec![],
        })
        .unwrap();
    writer
        .write_pcapng_block(PacketBlock {
            interface_id: 0,
            drop_count: 0,
            timestamp: 0,
            captured_len: data.len() as u32,
            original_len: data.len() as u32,
            data: Cow::Owned(data.clone()),
            options: vec![],
        })
        .unwrap();
    writer
        .write_pcapng_block(SimplePacketBlock {
            original_len: data.len() as u32,
            data: Cow::Owned(data.clone()),
        })
        .unwrap();

    let bytes = writer.into_inner();
    assert!(is_pcapng_magic(&bytes[..4]));
    let mut reader = PcapNgReader::new(std::io::Cursor::new(bytes)).unwrap();
    let mut packets = Vec::new();
    while let Some(block) = reader.next_block() {
        let block = capture_block(block.unwrap());
        let interfaces: Vec<CaptureInterface> = reader
            .interfaces()
            .iter()
            .map(|i| CaptureInterface { link_type: u32::from(i.linktype), snaplen: i.snaplen })
            .collect();
        if let Some(packet) = capture_from_block(block, &interfaces).unwrap() {
            packets.push(packet);
        }
    }

    assert_eq!(packets.len(), 3);
    assert!(packets.iter().all(|packet| packet.link_type == LINKTYPE_ETHERNET));
    assert!(packets.iter().all(|packet| packet.original_len == data.len() as u32));
    assert!(packets.iter().all(|packet| packet.data == data));
}
