use nata::layer::checksum::checksum;
use nata::layer::tcp::options::{SAckData, TcpOption, TimestampData};
use nata::layer::tcp::{IpPseudoFields, Tcp, TcpFlags};
use nata::layer::{Layer, LayerError, PacketLayer};

fn hex(s: &str) -> Vec<u8> {
    (0..s.len())
        .step_by(2)
        .map(|i| u8::from_str_radix(&s[i..i + 2], 16).unwrap())
        .collect()
}

/// The pseudo header fields of an IPv4 header from 127.0.0.1 to 127.0.0.1 carrying TCP.
fn loopback_v4() -> IpPseudoFields {
    IpPseudoFields::V4 { src: 0x7f00_0001, dst: 0x7f00_0001, protocol: 6 }
}

fn flags_with(ack: u8, push: u8) -> TcpFlags {
    let mut f = TcpFlags::default();
    f.ack = ack;
    f.push = push;
    f
}

fn check_rw(input: &[u8], expected: Tcp) {
    let (rest, ret_read) = <Tcp as PacketLayer>::parse(input).unwrap();
    assert!(rest.is_empty());
    assert_eq!(expected, ret_read);

    let ret_write = PacketLayer::to_bytes(&ret_read).unwrap();
    assert_eq!(input.to_vec(), ret_write);
}

#[test]
fn test_tcp_rw_plain_header() {
    check_rw(
        &hex("0d2c005038affe14114c618c501825bca9580000"),
        Tcp {
            sport: 3372,
            dport: 80,
            seq: 951057940,
            ack: 290218380,
            offset: 5,
            flags: flags_with(1, 1),
            window: 9660,
            checksum: 0xa958,
            urgptr: 0,
            options: Vec::new(),
        },
    );
}

#[test]
fn test_tcp_rw_with_options() {
    check_rw(
        &hex("c213005086eebc64e4d6bb98b01000c49afc00000101080ad3845879407337de0101050ae4d6c0f0e4d6cba0"),
        Tcp {
            sport: 49683,
            dport: 80,
            seq: 2263792740,
            ack: 3839277976,
            offset: 11,
            flags: flags_with(1, 0),
            window: 196,
            checksum: 0x9afc,
            urgptr: 0,
            options: vec![
                TcpOption::NOP,
                TcpOption::NOP,
                TcpOption::Timestamp {
                    length: 10,
                    value: TimestampData { start: 3548665977, end: 1081292766 },
                },
                TcpOption::NOP,
                TcpOption::NOP,
                TcpOption::SAck {
                    length: 10,
                    value: vec![SAckData { begin: 3839279344, end: 3839282080 }],
                },
            ],
        },
    );
}

#[test]
fn test_tcp_rw_invalid_offset() {
    let input = hex("0d2c005038affe14114c618c101825bca9580000");
    assert_eq!(Err(LayerError::InvalidTcpOffset), <Tcp as PacketLayer>::parse(&input).map(|_| ()));
}

#[test]
fn test_tcp_rw_incomplete_options() {
    let input = hex("ffffffffffffffffffffffffffffffffffffffff");
    assert_eq!(Err(LayerError::Incomplete(8)), <Tcp as PacketLayer>::parse(&input).map(|_| ()));
}

#[test]
fn test_tcp_short_input() {
    assert_eq!(Err(LayerError::Incomplete(16)), <Tcp as PacketLayer>::parse(&[0u8; 3]).map(|_| ()));
    assert_eq!(Err(LayerError::Incomplete(32)), <Tcp as PacketLayer>::parse(&[0u8; 8]).map(|_| ()));
    assert_eq!(Err(LayerError::Incomplete(4)), <Tcp as PacketLayer>::parse(&[0u8; 12]).map(|_| ()));
}

#[test]
fn test_tcp_default() {
    assert_eq!(
        Tcp {
            sport: 0,
            dport: 0,
            seq: 0,
            ack: 0,
            offset: 5,
            flags: TcpFlags::default(),
            window: 0,
            checksum: 0,
            urgptr: 0,
            options: Vec::new(),
        },
        Tcp::default()
    )
}

#[test]
fn test_tcp_finalize_offset() {
    let mut tcp = Tcp::default();
    assert_eq!(5, tcp.offset);
    tcp.finalize(&[], &[]).unwrap();
    assert_eq!(5, tcp.offset);

    // Extend the tcp options by 32 bits
    tcp.options.push(TcpOption::NOP);
    tcp.options.push(TcpOption::NOP);
    tcp.options.push(TcpOption::NOP);
    tcp.options.push(TcpOption::NOP);

    tcp.finalize(&[], &[]).unwrap();
    assert_eq!(6, tcp.offset);
}

#[test]
fn test_tcp_finalize_offset_unaligned() {
    let mut tcp = Tcp::default();
    assert!(tcp.options.is_empty());

    // Already aligned
    tcp.finalize(&[], &[]).unwrap();
    assert!(tcp.options.is_empty());

    // Extend the tcp options to be unaligned
    tcp.options.push(TcpOption::NOP);
    tcp.options.push(TcpOption::NOP);
    assert_eq!(vec![TcpOption::NOP; 2], tcp.options);

    tcp.finalize(&[], &[]).unwrap();

    // Verify that it's aligned with EOL
    assert_eq!(
        vec![TcpOption::NOP, TcpOption::NOP, TcpOption::EOL, TcpOption::EOL],
        tcp.options
    );
}

#[test]
fn test_tcp_finalize_checksum_v4() {
    let expected_checksum = 0xB11A;
    let payload = [0u8; 200];

    let mut tcp = Tcp::default();
    tcp.finalize_for(Some(loopback_v4()), Some(&payload)).unwrap();

    assert_eq!(expected_checksum, tcp.checksum);
}

#[test]
fn test_tcp_finalize_checksum_v6() {
    let expected_checksum = 0xB0E6;
    let payload = [0u8; 200];
    // An IPv6 header from ::ffff:127.0.0.1 to itself, next header 58.
    let loopback = 0xffff_7f00_0001u128;
    let ipv6 = IpPseudoFields::V6 { src: loopback, dst: loopback, next_header: 58 };

    let mut tcp = Tcp::default();
    tcp.finalize_for(Some(ipv6), Some(&payload)).unwrap();

    assert_eq!(expected_checksum, tcp.checksum);
}

#[test]
fn test_tcp_finalize() {
    let mut tcp = Tcp::default();
    assert_eq!(0, tcp.checksum);
    assert_eq!(5, tcp.offset);

    tcp.options.push(TcpOption::NOP);
    tcp.finalize_for(Some(loopback_v4()), Some(&[0u8; 100])).unwrap();

    // Only these fields should change during a finalize
    let mut expected_tcp = Tcp::default();
    expected_tcp.checksum = 0xB07A;
    expected_tcp.offset = 6;
    expected_tcp.options = vec![TcpOption::NOP, TcpOption::EOL, TcpOption::EOL, TcpOption::EOL];

    assert_eq!(expected_tcp, tcp);
}

#[test]
fn test_tcp_finalize_checksum_verifies() {
    // The checksum over the pseudo header, the finalized header and the payload is zero.
    let payload = b"some payload bytes";
    let mut tcp = Tcp::new(1234, 80);
    tcp.finalize_for(Some(loopback_v4()), Some(payload)).unwrap();
    let header = PacketLayer::to_bytes(&tcp).unwrap();
    let tcp_len = (header.len() + payload.len()) as u16;
    let mut data = vec![127, 0, 0, 1, 127, 0, 0, 1, 0, 6];
    data.extend_from_slice(&tcp_len.to_be_bytes());
    data.extend_from_slice(&header);
    data.extend_from_slice(payload);
    assert_eq!(0, checksum(&data));
}

#[test]
fn test_tcp_finalize_v6_pseudo_header() {
    let payload = [1u8, 2, 3];
    let mut tcp = Tcp::new(1, 2);
    tcp.finalize_for(
        Some(IpPseudoFields::V6 { src: 1, dst: 2, next_header: 6 }),
        Some(&payload),
    )
    .unwrap();
    let header = PacketLayer::to_bytes(&tcp).unwrap();
    let mut data = Vec::new();
    data.extend_from_slice(&1u128.to_be_bytes());
    data.extend_from_slice(&2u128.to_be_bytes());
    data.extend_from_slice(&((header.len() + payload.len()) as u32).to_be_bytes());
    data.extend_from_slice(&[0, 0, 0, 6]);
    data.extend_from_slice(&header);
    data.extend_from_slice(&payload);
    assert_eq!(0, checksum(&data));
}

#[test]
fn test_tcp_finalize_without_network_keeps_checksum() {
    let mut tcp = Tcp::default();
    tcp.checksum = 0x1234;
    tcp.finalize(&[Layer::Raw(nata::layer::raw::Raw::new(b"below"))], &[]).unwrap();
    assert_eq!(0x1234, tcp.checksum);
    assert_eq!(5, tcp.offset);
}

#[test]
fn test_tcp_flags_builders() {
    let f = TcpFlags::new().syn().ack();
    assert_eq!(1, f.syn);
    assert_eq!(1, f.ack);
    assert_eq!(0, f.fin);
    assert_eq!(TcpFlags::syn_ack(), f);
    let g = TcpFlags::new().push().fin().reset();
    assert_eq!((1, 1, 1), (g.push, g.fin, g.reset));
    assert_eq!(0, g.syn);
}

#[test]
fn test_tcp_builders() {
    let t = Tcp::new(10, 20).seq(5).ack(6).flags(TcpFlags::syn_ack()).window(7);
    assert_eq!((10, 20, 5, 6, 7), (t.sport, t.dport, t.seq, t.ack, t.window));
    assert_eq!(TcpFlags::syn_ack(), t.flags);
    let u = t.sport(11).dport(21);
    assert_eq!((11, 21), (u.sport, u.dport));
    assert_eq!("Tcp", u.name());
}

#[test]
fn test_tcp_to_bytes_rejects_wide_fields() {
    let mut t = Tcp::default();
    t.flags.syn = 2;
    assert_eq!(Err(LayerError::FieldOverflow), PacketLayer::to_bytes(&t));
}

#[test]
fn test_tcp_option_length_errors() {
    // offset 6: one option word; a selective acknowledgment option whose length byte is 1.
    let mut input = hex("0d2c005038affe14114c618c601825bca9580000");
    input.extend_from_slice(&[5, 1, 0, 0]);
    assert_eq!(Err(LayerError::InvalidOptionLength), <Tcp as PacketLayer>::parse(&input).map(|_| ()));
    // an option that runs past the header end.
    let mut over = hex("0d2c005038affe14114c618c601825bca9580000");
    over.extend_from_slice(&[8, 10, 0, 0, 0, 0, 0, 0, 0, 0]);
    assert_eq!(Err(LayerError::OptionOverrun), <Tcp as PacketLayer>::parse(&over).map(|_| ()));
}

#[test]
fn test_checksum_of_known_words() {
    assert_eq!(0xffff, checksum(&[]));
    assert_eq!(!0x0102u16, checksum(&[1, 2]));
    // An odd trailing byte is padded with zero.
    assert_eq!(!0x0300u16, checksum(&[3]));
    assert_eq!(!(0x0102u16 + 0x0304), checksum(&[1, 2, 3, 4]));
}

#[test]
fn test_checksum_written_into_zero_word_checks() {
    let mut data = vec![0x45, 0x00, 0x00, 0x1c, 0x12, 0x34, 0x00, 0x00, 0x40, 0x11, 0, 0, 10, 0, 0, 1, 10, 0, 0, 2, 0xff];
    let c = checksum(&data);
    data[10] = (c >> 8) as u8;
    data[11] = (c & 0xff) as u8;
    assert_eq!(0, checksum(&data));
}

#[test]
fn test_tcp_flags_text() {
    assert_eq!("SA", TcpFlags::syn_ack().to_string());
    assert_eq!("PAF", TcpFlags::new().fin().ack().push().to_string());
    assert_eq!("R", TcpFlags::new().reset().to_string());
    assert_eq!("", TcpFlags::new().to_string());
}
