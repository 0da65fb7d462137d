use nata::datalink::pcapdata::{read_pcap_packets, PcapReadError};
use nata::layer::{Layer, LayerKind};
use nata::packet::PacketParser;
use pcap_file::pcap::{PcapHeader, PcapPacket, PcapWriter};
use pcap_file::DataLink;
use std::time::Duration;

fn ethernet_frame(n: u8) -> Vec<u8> {
    let mut frame = vec![0x00, 0x11, 0x22, 0x33, 0x44, 0x55, 0x66, 0x77, 0x88, 0x99, 0xaa, 0xbb];
    frame.extend_from_slice(&[0x08, 0x00]);
    frame.extend_from_slice(&[0x45, 0x00, n, 0xff]);
    frame
}

fn capture(datalink: DataLink, packets: &[(Duration, Vec<u8>)]) -> Vec<u8> {
    let header = PcapHeader { datalink, ..Default::default() };
    let mut writer = PcapWriter::with_header(Vec::new(), header).unwrap();
    for (timestamp, data) in packets {
        let orig_len = data.len() as u32;
        writer.write_packet(&PcapPacket::new(*timestamp, orig_len, data)).unwrap();
    }
    writer.into_writer()
}

#[test]
fn formats_each_packet_as_debug_output() {
    let packets: Vec<(Duration, Vec<u8>)> =
        (0..14u8).map(|n| (Duration::from_secs(1_600_000_000 + n as u64), ethernet_frame(n))).collect();
    let bytes = capture(DataLink::ETHERNET, &packets);
    let read = read_pcap_packets(&PacketParser::new(), &bytes).unwrap();

    assert_eq!(read.link_type, 1);
    assert_eq!(read.entries.len(), 14);
    assert!(format!("{:#?}", read.entries[0].packet).contains("Ether"));
    for (entry, (timestamp, data)) in read.entries.iter().zip(&packets) {
        assert_eq!(entry.record.data, *data);
        assert_eq!(entry.record.ts_secs, timestamp.as_secs());
        assert_eq!(entry.record.orig_len as usize, data.len());
        assert!(matches!(entry.packet.get(LayerKind::Ether), Some(Layer::Ether(_))));
        assert_eq!(entry.unparsed, 0);
    }
}

#[test]
fn test_pcap_keeps_record_timestamps() {
    let bytes = capture(
        DataLink::ETHERNET,
        &[(Duration::new(7, 123_000), ethernet_frame(1)), (Duration::new(9, 0), ethernet_frame(2))],
    );
    let read = read_pcap_packets(&PacketParser::new(), &bytes).unwrap();
    assert_eq!(read.entries.len(), 2);
    assert_eq!((read.entries[0].record.ts_secs, read.entries[0].record.ts_nanos), (7, 123_000));
    assert_eq!((read.entries[1].record.ts_secs, read.entries[1].record.ts_nanos), (9, 0));
}

#[test]
fn test_pcap_other_link_type_is_raw() {
    let bytes = capture(DataLink::RAW, &[(Duration::from_secs(1), vec![1, 2, 3])]);
    let read = read_pcap_packets(&PacketParser::new(), &bytes).unwrap();
    assert_eq!(read.link_type, u32::from(DataLink::RAW));
    assert_eq!(read.entries.len(), 1);
    match read.entries[0].packet.get(LayerKind::Raw) {
        Some(Layer::Raw(raw)) => assert_eq!(raw.payload().to_vec(), vec![1, 2, 3]),
        other => panic!("expected a raw layer, got {other:?}"),
    }
}

#[test]
fn test_pcap_without_records() {
    let bytes = capture(DataLink::ETHERNET, &[]);
    let read = read_pcap_packets(&PacketParser::new(), &bytes).unwrap();
    assert_eq!(read.entries.len(), 0);
}

#[test]
fn test_pcap_invalid_header() {
    assert!(matches!(
        read_pcap_packets(&PacketParser::new(), &[0u8; 10]),
        Err(PcapReadError::Header(_))
    ));
    assert!(matches!(
        read_pcap_packets(&PacketParser::new(), &[0u8; 24]),
        Err(PcapReadError::Header(_))
    ));
}

#[test]
fn test_pcap_truncated_record() {
    let mut bytes = capture(DataLink::ETHERNET, &[(Duration::from_secs(1), ethernet_frame(1))]);
    bytes.truncate(bytes.len() - 3);
    assert!(matches!(
        read_pcap_packets(&PacketParser::new(), &bytes),
        Err(PcapReadError::Record(1, _))
    ));

    let mut bytes = capture(
        DataLink::ETHERNET,
        &[(Duration::from_secs(1), ethernet_frame(1)), (Duration::from_secs(2), ethernet_frame(2))],
    );
    bytes.truncate(bytes.len() - 1);
    assert!(matches!(
        read_pcap_packets(&PacketParser::new(), &bytes),
        Err(PcapReadError::Record(2, _))
    ));
}

#[test]
fn test_pcap_record_that_does_not_parse() {
    let bytes = capture(
        DataLink::ETHERNET,
        &[(Duration::from_secs(1), ethernet_frame(1)), (Duration::from_secs(2), vec![1, 2, 3])],
    );
    assert!(matches!(
        read_pcap_packets(&PacketParser::new(), &bytes),
        Err(PcapReadError::Decode(2, _))
    ));
}

#[test]
fn test_pcap_little_endian_header_and_records() {
    let header = PcapHeader {
        datalink: DataLink::RAW,
        endianness: pcap_file::Endianness::Little,
        ts_resolution: pcap_file::TsResolution::NanoSecond,
        ..Default::default()
    };
    let mut writer = PcapWriter::with_header(Vec::new(), header).unwrap();
    writer.write_packet(&PcapPacket::new(Duration::new(3, 7), 2, &[0x60, 0x00])).unwrap();
    let bytes = writer.into_writer();
    assert_eq!(&bytes[0..4], &[0x4d, 0x3c, 0xb2, 0xa1]);
    let read = read_pcap_packets(&PacketParser::new(), &bytes).unwrap();
    assert_eq!(read.link_type, 101);
    assert_eq!(read.entries.len(), 1);
    assert_eq!((read.entries[0].record.ts_secs, read.entries[0].record.ts_nanos), (3, 7));
    assert_eq!(read.entries[0].record.data, vec![0x60, 0x00]);
}
