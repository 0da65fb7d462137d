use nata::layer::ether::{Ether, EtherType, MacAddress};
use nata::layer::raw::Raw;
use nata::layer::tcp::options::TcpOption;
use nata::layer::tcp::Tcp;
use nata::layer::{layers_to_bytes, Layer, LayerError, LayerKind};
use nata::packet::parser::BindCondition;
use nata::packet::{IntoPacket, Packet, PacketError, PacketParser};

fn raw(bytes: &[u8]) -> Layer {
    Layer::Raw(Raw::new(bytes))
}

fn ether_header() -> Vec<u8> {
    vec![
        0x02, 0, 0, 0, 0, 0x02, // destination
        0x02, 0, 0, 0, 0, 0x01, // source
        0x08, 0x00, // IPv4
    ]
}

fn tcp_header() -> Vec<u8> {
    vec![
        0x9c, 0x40, 0x00, 0x35, // ports 40000 -> 53
        0, 0, 0, 1, // seq
        0, 0, 0, 0, // ack
        0x50, 0x02, // offset 5, SYN
        0x10, 0x00, // window
        0, 0, // checksum
        0, 0, // urgent pointer
    ]
}

#[test]
fn test_packet_owned_layers() {
    let mut packet = Packet::from_layer(Raw::new(b"layer0"));
    packet.push(Raw::new(b"layer1"));
    assert_eq!(2, packet.as_ref().len());
}

#[test]
fn test_packet_bytes() {
    let layers: Vec<Layer> = vec![raw(b"layer0"), raw(b"layer1"), raw(b"layer2")];
    let packet = Packet::from_layers(layers);
    assert_eq!(b"layer0layer1layer2".to_vec(), packet.into_bytes().unwrap());
}

#[test]
fn test_packet_finalize_lengths() {
    // test a range on lengths for the packet finalize function
    for i in 0..5 {
        let layers: Vec<Layer> = (0..i).map(|_| raw(b"layer0")).collect();
        let mut packet = Packet::from_layers(layers);
        packet.finalize().unwrap();
    }
}

#[test]
fn test_packet_finalize() {
    let mut tcp = Tcp::new(40000, 53);
    tcp.options.push(TcpOption::NOP);
    let mut packet = Packet::from_layers(vec![
        Layer::Ether(Ether::default()),
        Layer::Tcp(tcp),
        raw(b"hello"),
    ]);
    packet.finalize().unwrap();

    let finalized = match packet.get(LayerKind::Tcp) {
        Some(Layer::Tcp(t)) => t.clone(),
        _ => panic!("no tcp layer"),
    };
    assert_eq!(6, finalized.offset);
    assert_eq!(
        vec![TcpOption::NOP, TcpOption::EOL, TcpOption::EOL, TcpOption::EOL],
        finalized.options
    );
    assert_eq!(3, packet.as_ref().len());
    // Finalizing again changes nothing.
    let once = packet.serialize().unwrap();
    packet.finalize().unwrap();
    assert_eq!(once, packet.serialize().unwrap());
}

#[test]
fn test_packet_parser_bind_layer() {
    let mut pb = PacketParser::without_bindings();
    assert_eq!(0, pb.bound_kind_count());

    pb.bind_layer(LayerKind::Ether, BindCondition::Always, LayerKind::Tcp);
    assert_eq!(1, pb.bound_kind_count());
    assert_eq!(1, pb.binding_count(LayerKind::Ether));

    pb.bind_layer(LayerKind::Ether, BindCondition::Always, LayerKind::Tcp);
    assert_eq!(1, pb.bound_kind_count());
    assert_eq!(2, pb.binding_count(LayerKind::Ether));
    assert_eq!(0, pb.binding_count(LayerKind::Tcp));
}

#[test]
fn test_packet_parser_bind_layer_rest() {
    let mut pb = PacketParser::without_bindings();
    assert_eq!(0, pb.bound_kind_count());

    pb.bind_layer(LayerKind::Ether, BindCondition::Always, LayerKind::Tcp);
    assert_eq!(1, pb.bound_kind_count());

    // No bytes remain after the first layer, so no binding is consulted.
    let input = ether_header();
    let (rest, packet) = pb.parse_partial(LayerKind::Ether, &input).unwrap();
    assert!(rest.is_empty());
    assert_eq!("Ether", packet.summary());
}

#[test]
fn test_packet_parser_none() {
    let mut pb = PacketParser::without_bindings();
    assert_eq!(0, pb.bound_kind_count());

    {
        pb.bind_layer(LayerKind::Ether, BindCondition::Never, LayerKind::Tcp);

        let mut input = ether_header();
        input.extend_from_slice(&tcp_header());
        let (rest, packet) = pb.parse_partial(LayerKind::Ether, &input).unwrap();
        let mut layers = packet.as_ref().iter();
        assert_eq!(tcp_header(), rest.to_vec());
        assert_eq!(LayerKind::Ether, layers.next().unwrap().kind());
        assert!(layers.next().is_none());
    }

    {
        pb.bind_layer(LayerKind::Ether, BindCondition::Always, LayerKind::Tcp);

        let mut input = ether_header();
        input.extend_from_slice(&tcp_header());
        let (rest, packet) = pb.parse_partial(LayerKind::Ether, &input).unwrap();
        let mut layers = packet.as_ref().iter();
        assert!(rest.is_empty());
        assert_eq!(LayerKind::Ether, layers.next().unwrap().kind());
        assert_eq!(LayerKind::Tcp, layers.next().unwrap().kind());
        assert!(layers.next().is_none());
    }
}

#[test]
fn test_packet_binding_order() {
    let mut pb = PacketParser::without_bindings();
    assert_eq!(0, pb.bound_kind_count());
    let mut input = ether_header();
    input.extend_from_slice(&tcp_header());

    {
        pb.bind_layer(LayerKind::Ether, BindCondition::Always, LayerKind::Tcp);

        let (rest, packet) = pb.parse_partial(LayerKind::Ether, &input).unwrap();
        assert!(rest.is_empty());
        assert_eq!("Ether / Tcp", packet.summary());
    }

    {
        // The binding added last is tried first.
        pb.bind_layer(LayerKind::Ether, BindCondition::Always, LayerKind::Raw);

        let (rest, packet) = pb.parse_partial(LayerKind::Ether, &input).unwrap();
        assert!(rest.is_empty());
        assert_eq!("Ether / Raw", packet.summary());
        match packet.get(LayerKind::Raw) {
            Some(Layer::Raw(r)) => assert_eq!(tcp_header(), r.payload().to_vec()),
            _ => panic!("no raw layer"),
        }
    }

    {
        // A binding whose condition fails is passed over.
        pb.bind_layer(
            LayerKind::Ether,
            BindCondition::EtherType(EtherType::IPv6),
            LayerKind::Tcp,
        );
        let (_rest, packet) = pb.parse_partial(LayerKind::Ether, &input).unwrap();
        assert_eq!("Ether / Raw", packet.summary());
    }
}

#[test]
fn test_packet_builder_and_typed_access() {
    let mut packet = Packet::builder()
        .layer(Ether::new(
            MacAddress::new([0x02, 0, 0, 0, 0, 1]),
            MacAddress::new([0x02, 0, 0, 0, 0, 2]),
        ))
        .layer(Tcp::new(40_000, 53))
        .payload(b"hello")
        .build()
        .unwrap();

    assert!(packet.has(LayerKind::Ether));
    match packet.get(LayerKind::Tcp) {
        Some(Layer::Tcp(t)) => assert_eq!(40_000, t.sport),
        _ => panic!("no tcp layer"),
    }
    match packet.get(LayerKind::Raw) {
        Some(Layer::Raw(r)) => assert_eq!(b"hello", r.payload()),
        _ => panic!("no raw layer"),
    }

    if let Some(Layer::Tcp(t)) = packet.get_mut(LayerKind::Tcp) {
        t.window = 42;
    }
    match packet.get(LayerKind::Tcp) {
        Some(Layer::Tcp(t)) => assert_eq!(42, t.window),
        _ => panic!("no tcp layer"),
    }

    let packet_ref = packet.as_ref();
    assert_eq!(3, packet_ref.len());
    assert!(packet_ref.has(LayerKind::Raw));
    assert!(!packet_ref.is_empty());
    assert_eq!("Ether / Tcp / Raw", packet_ref.summary());

    let bytes = packet.bytes().unwrap();
    let parsed = PacketParser::without_bindings()
        .bind(LayerKind::Ether, LayerKind::Tcp, BindCondition::Always)
        .bind(LayerKind::Tcp, LayerKind::Raw, BindCondition::Always)
        .parse(LayerKind::Ether, &bytes)
        .unwrap();
    match parsed.get(LayerKind::Raw) {
        Some(Layer::Raw(r)) => assert_eq!(b"hello", r.payload()),
        _ => panic!("no raw layer"),
    }
}

#[test]
fn test_packet_slash_composition() {
    let mut packet = Ether::new(MacAddress::default(), MacAddress::default()).into_packet()
        / Tcp::new(1, 2)
        / Raw::new(b"payload");

    assert_eq!("Ether / Tcp / Raw", packet.summary());
    assert!(!packet.bytes().unwrap().is_empty());
}

#[test]
fn test_packet_push_chains() {
    let mut packet = Packet::new();
    packet.push(Tcp::new(1, 2)).push(Raw::new(b"payload"));
    assert_eq!("Tcp / Raw", packet.summary());
}

#[test]
fn test_parser_typed_binding_and_strict_parse() {
    let parser = PacketParser::without_bindings().bind(
        LayerKind::Ether,
        LayerKind::Tcp,
        BindCondition::Always,
    );
    let mut input = ether_header();
    input.extend_from_slice(&tcp_header());
    let packet = parser.parse(LayerKind::Ether, &input).unwrap();
    assert_eq!("Ether / Tcp", packet.summary());

    let mut tail = ether_header();
    tail.extend_from_slice(b"tail");
    let error = PacketParser::without_bindings()
        .parse(LayerKind::Ether, &tail)
        .unwrap_err();
    assert_eq!(PacketError::TrailingData(4), error);
}

#[test]
fn test_default_parser_reads_ether_then_raw() {
    let mut input = ether_header();
    input.extend_from_slice(b"data");
    let packet = nata::parse(&input).unwrap();
    assert_eq!("Ether / Raw", packet.summary());
    let (rest, partial) = nata::parse_partial(&input).unwrap();
    assert!(rest.is_empty());
    assert_eq!(2, partial.as_ref().len());
    // The parsed layers serialize back to the input.
    assert_eq!(input, packet.into_bytes().unwrap());
}

#[test]
fn test_parse_error_of_short_input() {
    let short = [0u8; 10];
    assert_eq!(
        PacketError::Layer(LayerError::Incomplete(8)),
        nata::parse(&short).unwrap_err()
    );
}

#[test]
fn test_packet_get_all_and_first() {
    let packet = Packet::from_layers(vec![raw(b"a"), Layer::Tcp(Tcp::default()), raw(b"b")]);
    let all = packet.get_all(LayerKind::Raw);
    assert_eq!(2, all.len());
    match all[0] {
        Layer::Raw(r) => assert_eq!(b"a", r.payload()),
        _ => panic!("not raw"),
    }
    match packet.get(LayerKind::Raw) {
        Some(Layer::Raw(r)) => assert_eq!(b"a", r.payload()),
        _ => panic!("not raw"),
    }
    assert!(packet.get(LayerKind::Ether).is_none());
    assert!(!packet.has(LayerKind::Ether));
    assert_eq!(3, packet.iter().count());
    assert_eq!(2, packet.as_ref().get_all(LayerKind::Raw).len());
    assert!(packet.as_ref().get(LayerKind::Tcp).is_some());
}

#[test]
fn test_empty_packet() {
    let packet = Packet::new();
    assert!(packet.as_ref().is_empty());
    assert_eq!("", packet.summary());
    assert_eq!(Vec::<u8>::new(), packet.into_bytes().unwrap());
    let builder = Packet::builder().build().unwrap();
    assert_eq!(0, builder.as_ref().len());
}

#[test]
fn test_layers_to_bytes_reports_the_failing_layer() {
    let mut bad = Tcp::default();
    bad.offset = 16;
    let layers = vec![raw(b"ok"), Layer::Tcp(bad)];
    assert_eq!(Err(LayerError::FieldOverflow), layers_to_bytes(&layers));
    assert_eq!(
        PacketError::Layer(LayerError::FieldOverflow),
        Packet::from_layers(layers).serialize().unwrap_err()
    );
}

#[test]
fn test_parser_default_is_new() {
    let parser = PacketParser::default();
    assert_eq!(2, parser.bound_kind_count());
    assert_eq!(1, parser.binding_count(LayerKind::Ether));
    assert_eq!(1, parser.binding_count(LayerKind::Tcp));
    assert_eq!(0, parser.binding_count(LayerKind::Raw));
}

#[test]
fn test_bytes_finalizes_then_serializes() {
    // A header with one option: finalizing pads it and sets the data offset.
    let mut tcp = Tcp::new(1, 2);
    tcp.options.push(TcpOption::NOP);
    let mut packet = Packet::from_layers(vec![Layer::Tcp(tcp)]);
    let bytes = packet.bytes().unwrap();
    assert_eq!(24, bytes.len());
    assert_eq!(0x60, bytes[12] & 0xf0);
    assert_eq!(vec![1, 0, 0, 0], bytes[20..].to_vec());
    // Parsing the bytes gives the finalized header back.
    let parsed = PacketParser::without_bindings().parse(LayerKind::Tcp, &bytes).unwrap();
    assert_eq!(bytes, parsed.into_bytes().unwrap());
}

#[test]
fn test_tcp_port_bindings() {
    let mut input = tcp_header();
    input.extend_from_slice(b"query");
    let by_port = PacketParser::without_bindings().bind(
        LayerKind::Tcp,
        LayerKind::Raw,
        BindCondition::DstPort(53),
    );
    assert_eq!("Tcp / Raw", by_port.parse(LayerKind::Tcp, &input).unwrap().summary());
    let other_port = PacketParser::without_bindings().bind(
        LayerKind::Tcp,
        LayerKind::Raw,
        BindCondition::SrcPort(53),
    );
    assert_eq!(
        PacketError::TrailingData(5),
        other_port.parse(LayerKind::Tcp, &input).unwrap_err()
    );
}

#[test]
fn test_packet_text_is_summary() {
    let packet = Packet::from_layers(vec![Layer::Ether(Ether::default()), raw(b"x")]);
    assert_eq!("Ether / Raw", packet.to_string());
    assert_eq!("Ether / Raw", packet.as_ref().to_string());
}

#[test]
fn test_push_slash_and_from_layer_append_alike() {
    let pushed = {
        let mut p = Packet::new();
        p.push(Tcp::new(1, 2)).push(Raw::new(b"x"));
        p
    };
    let slashed = Packet::from_layer(Tcp::new(1, 2)) / Raw::new(b"x");
    assert_eq!(pushed.layers(), slashed.layers());
    assert_eq!(Packet::from_layer(Raw::new(b"x")).layers(), &[raw(b"x")][..]);
}

#[test]
fn test_ref_and_packet_lookups_agree() {
    let packet = Packet::from_layers(vec![raw(b"a"), Layer::Tcp(Tcp::default()), raw(b"b")]);
    let view = packet.as_ref();
    assert_eq!(packet.get(LayerKind::Raw), view.get(LayerKind::Raw));
    assert_eq!(packet.get_all(LayerKind::Raw).first().copied(), packet.get(LayerKind::Raw));
    assert_eq!(view.has(LayerKind::Ether), view.get(LayerKind::Ether).is_some());
    assert_eq!(view.is_empty(), view.len() == 0);
    assert_eq!(view.iter().count(), view.len());
}
