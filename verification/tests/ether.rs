use nata::layer::ether::{Ether, EtherType, MacAddress};
use nata::layer::{LayerError, PacketLayer};

#[test]
fn test_macaddress_rw() {
    let input = [0xAA, 0xFF, 0xFF, 0xFF, 0xFF, 0xBB];
    let expected = MacAddress([0xAA, 0xFF, 0xFF, 0xFF, 0xFF, 0xBB]);
    let read = MacAddress::new(input);
    assert_eq!(expected, read);
    assert_eq!(input, read.octets());
    assert_eq!(expected, MacAddress::from(input));
}

#[test]
fn test_macaddress_default() {
    assert_eq!(MacAddress([0x00u8; 6]), MacAddress::default())
}

#[test]
fn test_macaddress_text() {
    let address = "02:00:00:00:00:01".parse::<MacAddress>().unwrap();
    assert_eq!(MacAddress::new([2, 0, 0, 0, 0, 1]), address);
    assert_eq!("02:00:00:00:00:01", address.to_string());
    assert!("02:00:00:00:00".parse::<MacAddress>().is_err());
}

#[test]
fn test_macaddress_text_forms() {
    assert_eq!(
        Ok(MacAddress::new([0xab, 0xcd, 0xef, 0x0a, 0x0b, 0x0c])),
        MacAddress::parse_str("AB:cd:Ef:a:b:0c")
    );
    assert!(MacAddress::parse_str("+2:0:0:0:0:1").is_err());
    assert!("02:00:00:00:+0:01".parse::<MacAddress>().is_err());
    assert!(MacAddress::parse_str("02:00:00:00:zz:01").is_err());
    assert!(MacAddress::parse_str("02:00:00:00:00:01:07").is_err());
    assert!(MacAddress::parse_str("02:00::00:00:01").is_err());
    assert!(MacAddress::parse_str("002:00:00:00:00:01").is_err());
    assert!(MacAddress::parse_str("0g:00:00:00:00:01").is_err());
    assert!(MacAddress::parse_str("+:00:00:00:00:01").is_err());
    assert!(MacAddress::parse_str("").is_err());
    let m = MacAddress::new([0xff, 0x10, 0x01, 0x00, 0x9a, 0xbc]);
    assert_eq!("ff:10:01:00:9a:bc", m.to_string());
    assert_eq!(Ok(m), MacAddress::parse_str(&m.to_string()));
}

fn header(ether_type: [u8; 2]) -> Vec<u8> {
    let mut v = vec![1, 2, 3, 4, 5, 6, 7, 8, 9, 10, 11, 12];
    v.extend_from_slice(&ether_type);
    v
}

#[test]
fn test_ether_rw() {
    let mut input = header([0x86, 0xdd]);
    input.extend_from_slice(b"rest");
    let (rest, e) = Ether::parse(&input).unwrap();
    assert_eq!(b"rest", rest);
    assert_eq!(MacAddress::new([1, 2, 3, 4, 5, 6]), e.dst);
    assert_eq!(MacAddress::new([7, 8, 9, 10, 11, 12]), e.src);
    assert_eq!(EtherType::IPv6, e.ether_type);
    assert_eq!(header([0x86, 0xdd]), e.to_bytes().unwrap());
    assert_eq!("Ether", e.name());
    assert_eq!(Ok(14), e.length());
}

#[test]
fn test_ether_types() {
    let (_, v4) = Ether::parse(&header([0x08, 0x00])).unwrap();
    assert_eq!(EtherType::IPv4, v4.ether_type);
    let (_, other) = Ether::parse(&header([0x08, 0x06])).unwrap();
    assert_eq!(EtherType::Unknown(0x0806), other.ether_type);
    assert_eq!(header([0x08, 0x06]), other.to_bytes().unwrap());
}

#[test]
fn test_ether_short_input() {
    assert_eq!(Err(LayerError::Incomplete(8)), Ether::parse(&[0u8; 5]).map(|_| ()));
    assert_eq!(Err(LayerError::Incomplete(16)), Ether::parse(&[0u8; 13]).map(|_| ()));
}

#[test]
fn test_ether_new_and_default() {
    let src = MacAddress::new([2, 0, 0, 0, 0, 1]);
    let dst = MacAddress::new([2, 0, 0, 0, 0, 2]);
    let e = Ether::new(src, dst);
    assert_eq!(src, e.src);
    assert_eq!(dst, e.dst);
    assert_eq!(EtherType::IPv4, e.ether_type);
    let d = Ether::default();
    assert_eq!(MacAddress::default(), d.src);
    assert_eq!(MacAddress::default(), d.dst);
    assert_eq!(EtherType::IPv4, d.ether_type);
}

#[test]
fn test_ether_doc_example() {
    let data: &[u8] = &[0xfe, 0xff, 0x20, 0x00, 0x01, 0x00, 0x00, 0x00, 0x01, 0x00, 0x00, 0x00, 0x08, 0x00];

    let (_rest, ether) = Ether::parse(data).unwrap();

    assert_eq!(
        Ether {
            src: MacAddress([0x00, 0x00, 0x01, 0x00, 0x00, 0x00]),
            dst: MacAddress([0xfe, 0xff, 0x20, 0x00, 0x01, 0x00]),
            ether_type: EtherType::IPv4,
        },
        ether
    );

    let ether_bytes = ether.to_bytes().unwrap();
    assert_eq!(data, ether_bytes.as_slice());
}

#[test]
fn test_ether_type_values() {
    assert_eq!(0x0800, EtherType::IPv4.value());
    assert_eq!(0x86dd, EtherType::IPv6.value());
    assert_eq!(0x0806, EtherType::Unknown(0x0806).value());
}
