use nata::datalink::pcapfile::{CapturePacket, LINKTYPE_ETHERNET};
use nata::layer::tcp::TcpFlags;
use nata::layer::LayerError;
use nata::packet::PacketError;
use nata::tshark::diff::json_value_diff;
use nata::tshark::readable::{capture_diff_entries, readable_diff, DiffHeading, ReadableEntry};
use nata::tshark::fields::{is_ignored_tshark_field, tcp_flags};
use nata::tshark::json::{
    flatten_tshark_fields, json_field_value, normalize_tshark_json, normalize_tshark_output, FieldMap,
    FlattenErrorKind, Json, NormalizeError, TsharkOutputError,
};
use nata::tshark::render::{decimal_text, hex_text_of, render_json, RenderError};
use nata::tshark::suite::{
    case_outcome, check_capture_name, observe, parse_expectations, select_captures,
    suite_exit_code, tally, CaptureNameError, CaseOutcome, ExpectationsError, ExpectedStatus,
    Observed, SelectError,
};
use std::collections::BTreeMap;

fn s(v: &str) -> Json {
    Json::Str(v.to_string())
}

fn obj(members: Vec<(&str, Json)>) -> Json {
    Json::Object(members.into_iter().map(|(k, v)| (k.to_string(), v)).collect())
}

/// The map a field map stands for.
fn as_map(f: &FieldMap) -> BTreeMap<String, Vec<String>> {
    let mut m = BTreeMap::new();
    for (k, v) in &f.entries {
        m.insert(k.clone(), v.clone());
    }
    m
}

fn map_of(pairs: &[(&str, &[&str])]) -> BTreeMap<String, Vec<String>> {
    pairs
        .iter()
        .map(|(k, vs)| (k.to_string(), vs.iter().map(|v| v.to_string()).collect()))
        .collect()
}

fn field_map(pairs: &[(&str, &[&str])]) -> FieldMap {
    let mut f = FieldMap::new();
    for (k, vs) in pairs {
        f.insert(k.to_string(), vs.iter().map(|v| v.to_string()).collect());
    }
    f
}

#[test]
fn tcp_flags_match_tshark_bit_values() {
    let mut flags = TcpFlags::default();
    flags.syn = 1;
    flags.ack = 1;

    assert_eq!(0x0012, tcp_flags(&flags));
}

#[test]
fn tcp_flags_every_bit() {
    let mut flags = TcpFlags::default();
    flags.reserved = 7;
    flags.nonce = 1;
    flags.crw = 1;
    flags.ecn = 1;
    flags.urgent = 1;
    flags.ack = 1;
    flags.push = 1;
    flags.reset = 1;
    flags.syn = 1;
    flags.fin = 1;
    assert_eq!(0x0fff, tcp_flags(&flags));
    assert_eq!(0x0001, tcp_flags(&TcpFlags::new().fin()));
}

#[test]
fn ignored_fields() {
    assert!(is_ignored_tshark_field("ip.flags_tree"));
    assert!(is_ignored_tshark_field("frame.time"));
    assert!(is_ignored_tshark_field("frame.time_epoch"));
    assert!(is_ignored_tshark_field("_ws.expert"));
    assert!(is_ignored_tshark_field("eth.addr_resolved"));
    assert!(is_ignored_tshark_field("ip.addr"));
    assert!(is_ignored_tshark_field("tcp.flags.syn"));
    assert!(!is_ignored_tshark_field("tcp.flags"));
    assert!(!is_ignored_tshark_field("ip.addresses"));
    assert!(!is_ignored_tshark_field("frame.number"));
    assert!(!is_ignored_tshark_field("ip.src"));
    assert!(!is_ignored_tshark_field("_tre"));
}

#[test]
fn expectations_are_parsed_in_order() {
    let text = "# captures\n\n  a.pcap pass\nb.pcapng\txfail\r\n   # skipped comment\nc.pcap skip\n";
    let es = parse_expectations(text).unwrap();
    assert_eq!(
        vec![
            ("a.pcap".to_string(), ExpectedStatus::Pass),
            ("b.pcapng".to_string(), ExpectedStatus::Xfail),
            ("c.pcap".to_string(), ExpectedStatus::Skip),
        ],
        es
    );
    assert_eq!(Vec::<(String, ExpectedStatus)>::new(), parse_expectations("").unwrap());
}

#[test]
fn expectations_errors() {
    assert_eq!(Err(ExpectationsError::InvalidLine(2)), parse_expectations("a pass\nb pass extra\n"));
    assert_eq!(Err(ExpectationsError::InvalidLine(1)), parse_expectations("lonely"));
    assert_eq!(
        Err(ExpectationsError::InvalidStatus("maybe".to_string(), 3)),
        parse_expectations("a pass\n\nb maybe\n")
    );
    assert_eq!(
        Err(ExpectationsError::Duplicate("a".to_string())),
        parse_expectations("a pass\na skip\n")
    );
}

#[test]
fn selection_of_captures() {
    let es = vec![
        ("a".to_string(), ExpectedStatus::Pass),
        ("b".to_string(), ExpectedStatus::Skip),
    ];
    assert_eq!(es, select_captures(&es, None).unwrap());
    assert_eq!(vec![("b".to_string(), ExpectedStatus::Skip)], select_captures(&es, Some("b")).unwrap());
    assert_eq!(Err(SelectError::UnknownCapture("c".to_string())), select_captures(&es, Some("c")));
    assert_eq!(Err(SelectError::NoCaptures), select_captures(&[], None));
}

#[test]
fn outcomes_and_exit_code() {
    let pass = observe(Ok(()), Ok(()), true);
    assert_eq!(Observed::Pass, pass);
    assert_eq!(Observed::Mismatch, observe(Ok(()), Ok(()), false));
    assert_eq!(Observed::NataFailed("n".to_string()), observe(Err("n".to_string()), Err("t".to_string()), true));
    assert_eq!(Observed::TsharkFailed("t".to_string()), observe(Ok(()), Err("t".to_string()), true));

    assert_eq!(CaseOutcome::Pass, case_outcome(ExpectedStatus::Pass, &pass));
    assert_eq!(CaseOutcome::Fail, case_outcome(ExpectedStatus::Pass, &Observed::Mismatch));
    assert_eq!(CaseOutcome::Xpass, case_outcome(ExpectedStatus::Xfail, &pass));
    assert_eq!(CaseOutcome::Xfail, case_outcome(ExpectedStatus::Xfail, &Observed::Mismatch));
    assert_eq!(CaseOutcome::Skip, case_outcome(ExpectedStatus::Skip, &pass));

    let counts = tally(&[CaseOutcome::Pass, CaseOutcome::Xfail, CaseOutcome::Skip, CaseOutcome::Pass]);
    assert_eq!((2, 1, 1, 0, 0, 0), (counts.pass, counts.xfail, counts.skip, counts.fail, counts.xpass, counts.unclassified));
    assert_eq!(0, suite_exit_code(&counts));
    assert_eq!(1, suite_exit_code(&tally(&[CaseOutcome::Pass, CaseOutcome::Fail])));
    assert_eq!(1, suite_exit_code(&tally(&[CaseOutcome::Xpass])));
}

#[test]
fn capture_names() {
    assert_eq!(Ok(()), check_capture_name("dir/file.pcap", false));
    assert_eq!(Err(CaptureNameError::Invalid), check_capture_name("", false));
    assert_eq!(Err(CaptureNameError::Invalid), check_capture_name("/etc/passwd", false));
    assert_eq!(Err(CaptureNameError::Escapes), check_capture_name("../secret.pcap", false));
    assert_eq!(Err(CaptureNameError::Escapes), check_capture_name("a/../../b", false));
    assert_eq!(Ok(()), check_capture_name("a..b/c..", false));
    assert_eq!(Err(CaptureNameError::Escapes), check_capture_name("file.pcap", true));
}

#[test]
fn normalized_tshark_json_flattens_layers_and_applies_ignore_list() {
    let input = Json::Array(vec![obj(vec![
        ("_index", s("packets-2026-09-04")),
        (
            "_source",
            obj(vec![(
                "layers",
                obj(vec![
                    (
                        "frame",
                        obj(vec![
                            ("frame.number", s("1")),
                            ("frame.len", s("60")),
                            ("frame.time", s("not comparable")),
                        ]),
                    ),
                    (
                        "ip",
                        obj(vec![
                            ("ip.src", s("192.0.2.1")),
                            ("ip.new_field", s("visible")),
                            ("ip.flags_tree", obj(vec![("ip.flags.df", s("1"))])),
                        ]),
                    ),
                    (
                        "tcp",
                        Json::Array(vec![
                            obj(vec![("tcp.srcport", s("1234"))]),
                            obj(vec![("tcp.dstport", s("5678"))]),
                        ]),
                    ),
                    ("http", obj(vec![("http.request.method", s("GET"))])),
                ]),
            )]),
        ),
    ])]);

    let packets = normalize_tshark_json(&input).unwrap();
    assert_eq!(1, packets.len());
    assert_eq!(
        map_of(&[
            ("frame.number", &["1"]),
            ("frame.len", &["60"]),
            ("ip.new_field", &["visible"]),
            ("ip.src", &["192.0.2.1"]),
            ("tcp.dstport", &["5678"]),
            ("tcp.srcport", &["1234"]),
        ]),
        as_map(&packets[0])
    );
}

#[test]
fn normalize_errors() {
    assert!(matches!(normalize_tshark_json(&s("x")), Err(NormalizeError::RootNotArray)));
    let no_layers = Json::Array(vec![obj(vec![("_source", obj(vec![]))])]);
    assert!(matches!(normalize_tshark_json(&no_layers), Err(NormalizeError::NoLayers(1))));
    let bad = Json::Array(vec![obj(vec![(
        "_source",
        obj(vec![("layers", obj(vec![("eth", obj(vec![("eth.x", Json::Array(vec![s("a"), obj(vec![])]))]))]))]),
    )])]);
    match normalize_tshark_json(&bad) {
        Err(NormalizeError::Flatten { packet, layer, error }) => {
            assert_eq!((1, 0), (packet, layer));
            assert_eq!(FlattenErrorKind::NotScalar, error.kind);
            assert_eq!(vec![0, 1], error.path);
        },
        other => panic!("unexpected {:?}", other),
    }
}

#[test]
fn flatten_scalars_and_trees() {
    let mut fields = FieldMap::new();
    let tree = obj(vec![
        ("a", Json::Number("12".to_string())),
        ("b", Json::Bool(true)),
        ("c", Json::Null),
        ("d", Json::Array(vec![s("x"), s("y")])),
        ("e", Json::Array(vec![])),
        ("a", s("later")),
    ]);
    flatten_tshark_fields(&tree, &mut fields).unwrap();
    assert_eq!(
        map_of(&[("a", &["later"]), ("b", &["true"]), ("c", &["null"]), ("d", &["x", "y"])]),
        as_map(&fields)
    );
    let err = flatten_tshark_fields(&s("scalar"), &mut FieldMap::new()).unwrap_err();
    assert_eq!(FlattenErrorKind::NotAnObject, err.kind);
    assert!(err.path.is_empty());
    assert_eq!(Some("false".to_string()), json_field_value(&Json::Bool(false)));
    assert_eq!(None, json_field_value(&Json::Array(vec![])));
}

#[test]
fn json_diff_reports_packet_field_changes() {
    let nata = vec![field_map(&[("frame.number", &["1"]), ("ip.src", &["192.0.2.1"])])];
    let tshark = vec![field_map(&[
        ("frame.number", &["1"]),
        ("ip.src", &["192.0.2.2"]),
        ("ip.dst", &["192.0.2.3"]),
    ])];

    let diff = json_value_diff(&nata, &tshark);
    assert!(diff.packet_count.is_none());
    assert_eq!(1, diff.packets.len());
    let (packet, fields) = &diff.packets[0];
    assert_eq!(1, *packet);
    let listed: Vec<(String, Option<Vec<String>>, Option<Vec<String>>)> = fields
        .iter()
        .map(|d| (d.field.clone(), d.nata.clone(), d.tshark.clone()))
        .collect();
    let expected = vec![
        ("ip.dst".to_string(), None, Some(vec!["192.0.2.3".to_string()])),
        (
            "ip.src".to_string(),
            Some(vec!["192.0.2.1".to_string()]),
            Some(vec!["192.0.2.2".to_string()]),
        ),
    ];
    assert_eq!(expected, listed);
}

#[test]
fn json_diff_swapped_sides_swap_values() {
    let a = vec![field_map(&[("b", &["1"]), ("a", &["2"]), ("c", &["3"])])];
    let b = vec![field_map(&[("c", &["4"]), ("a", &["2"]), ("d", &["5"])])];
    let ab = json_value_diff(&a, &b);
    let ba = json_value_diff(&b, &a);
    let fields_ab: Vec<(String, Option<Vec<String>>, Option<Vec<String>>)> =
        ab.packets[0].1.iter().map(|d| (d.field.clone(), d.nata.clone(), d.tshark.clone())).collect();
    let fields_ba: Vec<(String, Option<Vec<String>>, Option<Vec<String>>)> =
        ba.packets[0].1.iter().map(|d| (d.field.clone(), d.tshark.clone(), d.nata.clone())).collect();
    assert_eq!(fields_ab, fields_ba);
    let names: Vec<&str> = ab.packets[0].1.iter().map(|d| d.field.as_str()).collect();
    assert_eq!(vec!["b", "c", "d"], names);
}

#[test]
fn readable_diff_of_field_and_count_changes() {
    let nata = vec![field_map(&[("frame.number", &["1"]), ("ip.src", &["192.0.2.1"])])];
    let tshark = vec![
        field_map(&[("frame.number", &["1"]), ("ip.src", &["192.0.2.2"]), ("ip.dst", &["192.0.2.3"])]),
        FieldMap::new(),
    ];
    let entries = capture_diff_entries(&json_value_diff(&nata, &tshark));
    assert_eq!(3, entries.len());
    assert_eq!("1", entries[0].nata);
    assert_eq!("2", entries[0].tshark);
    assert_eq!("null", entries[1].nata);
    assert_eq!("[\"192.0.2.3\"]", entries[1].tshark);

    let plain = readable_diff("Readable JSON diff: x", &entries, false);
    assert_eq!(
        "=== Readable JSON diff: x ===\n\
         @@ packet count @@\n\
         - Nata  : 1\n\
         + TShark: 2\n\
         @@ packet 1, field ip.dst @@\n\
         - Nata  : null\n\
         + TShark: [\"192.0.2.3\"]\n\
         @@ packet 1, field ip.src @@\n\
         - Nata  : [\"192.0.2.1\"]\n\
         + TShark: [\"192.0.2.2\"]\n",
        plain
    );

    let colored = readable_diff("t", &entries[..1], true);
    assert_eq!(
        "=== t ===\n@@ packet count @@\n\x1b[31m- Nata  : 1\x1b[0m\n\x1b[32m+ TShark: 2\x1b[0m\n",
        colored
    );
}

#[test]
fn readable_values_use_json_escapes() {
    let nata = vec![field_map(&[("f", &["a\"b\\c", "tab\tnl\ncr\r\u{8}\u{c}\u{1}\u{1f}", "\u{e9}"])])];
    let tshark = vec![FieldMap::new()];
    let entries = capture_diff_entries(&json_value_diff(&nata, &tshark));
    assert_eq!(1, entries.len());
    assert_eq!(
        "[\"a\\\"b\\\\c\",\"tab\\tnl\\ncr\\r\\b\\f\\u0001\\u001f\",\"\u{e9}\"]",
        entries[0].nata
    );
    assert_eq!("null", entries[0].tshark);
    assert_eq!("[]", {
        let empty = vec![field_map(&[("g", &[])])];
        capture_diff_entries(&json_value_diff(&empty, &vec![FieldMap::new()]))[0].nata.clone()
    });
}

#[test]
fn readable_diff_with_a_label() {
    let entries = vec![ReadableEntry {
        heading: DiffHeading::Label("result".to_string()),
        nata: "{\"error\":\"boom\"}".to_string(),
        tshark: "[]".to_string(),
    }];
    assert_eq!(
        "=== r ===\n@@ result @@\n- Nata  : {\"error\":\"boom\"}\n+ TShark: []\n",
        readable_diff("r", &entries, false)
    );
    assert_eq!("=== empty ===\n", readable_diff("empty", &[], false));
}

#[test]
fn tshark_output_bytes_are_parsed_then_normalized() {
    assert!(matches!(normalize_tshark_output(b"not json"), Err(TsharkOutputError::Json)));
    let maps = normalize_tshark_output(
        br#"[{"_source": {"layers": {"frame": {"frame.number": "1"}}}}]"#,
    )
    .unwrap();
    assert_eq!(1, maps.len());
    assert_eq!(map_of(&[("frame.number", &["1"])]), as_map(&maps[0]));
    assert!(matches!(
        normalize_tshark_output(b"{}"),
        Err(TsharkOutputError::Normalize(_))
    ));
}

#[test]
fn json_diff_reports_packet_count_changes() {
    let diff = json_value_diff(&vec![], &vec![FieldMap::new(), FieldMap::new()]);
    assert_eq!(Some((0, 2)), diff.packet_count);
    assert!(diff.packets.is_empty());
}

#[test]
fn json_diff_of_equal_renderings_is_empty() {
    let a = vec![field_map(&[("x", &["1"]), ("y", &["2", "3"])])];
    let b = vec![field_map(&[("y", &["2", "3"]), ("x", &["0"]), ("x", &["1"])])];
    let diff = json_value_diff(&a, &b);
    assert!(diff.packet_count.is_none());
    assert!(diff.packets[0].1.is_empty());
}

#[test]
fn number_texts() {
    assert_eq!("0", decimal_text(0));
    assert_eq!("40000", decimal_text(40000));
    assert_eq!("18446744073709551615", decimal_text(u64::MAX));
    assert_eq!("0x0800", hex_text_of(0x800, 4));
    assert_eq!("0x0012", hex_text_of(0x12, 4));
    assert_eq!("0x12345", hex_text_of(0x12345, 4));
    assert_eq!("0x0", hex_text_of(0, 0));
}

#[test]
fn render_ethernet_tcp_capture() {
    let mut data = vec![2, 0, 0, 0, 0, 2, 2, 0, 0, 0, 0, 1, 0x08, 0x00];
    data.extend_from_slice(&[
        0x9c, 0x40, 0x00, 0x35, 0, 0, 0, 1, 0, 0, 0, 0, 0x50, 0x12, 0x10, 0x00, 0xab, 0xcd, 0, 0,
    ]);
    let capture = CapturePacket { link_type: LINKTYPE_ETHERNET, original_len: 60, data };
    let fields = render_json(&[capture]).unwrap();
    assert_eq!(1, fields.len());
    let m = as_map(&fields[0]);
    let expected = map_of(&[
        ("frame.number", &["1"]),
        ("frame.len", &["60"]),
        ("frame.cap_len", &["34"]),
        ("eth.src", &["02:00:00:00:00:01"]),
        ("eth.dst", &["02:00:00:00:00:02"]),
        ("eth.type", &["0x0800"]),
        ("tcp.srcport", &["40000"]),
        ("tcp.dstport", &["53"]),
        ("tcp.seq", &["1"]),
        ("tcp.ack", &["0"]),
        ("tcp.hdr_len", &["20"]),
        ("tcp.flags", &["0x0012"]),
        ("tcp.window_size_value", &["4096"]),
        ("tcp.checksum", &["0xabcd"]),
        ("tcp.urgent_pointer", &["0"]),
    ]);
    // The default bindings read an Ethernet header followed by raw data.
    let ether_only: BTreeMap<String, Vec<String>> = expected
        .iter()
        .filter(|(k, _)| !k.starts_with("tcp."))
        .map(|(k, v)| (k.clone(), v.clone()))
        .collect();
    assert_eq!(ether_only, m);
}

#[test]
fn render_errors() {
    let other = CapturePacket { link_type: 101, original_len: 1, data: vec![0x45] };
    assert_eq!(Err(RenderError::UnsupportedLinkType(101)), render_json(&[other]).map(|_| ()));
    let empty = CapturePacket { link_type: 101, original_len: 0, data: vec![] };
    assert_eq!(Err(RenderError::EmptyRawPacket), render_json(&[empty]).map(|_| ()));
    let version = CapturePacket { link_type: 101, original_len: 1, data: vec![0x55] };
    assert_eq!(Err(RenderError::UnsupportedRawIpVersion(5)), render_json(&[version]).map(|_| ()));
    let ipv6 = CapturePacket { link_type: 229, original_len: 1, data: vec![0x60] };
    assert_eq!(Err(RenderError::UnsupportedLinkType(229)), render_json(&[ipv6]).map(|_| ()));
    let short = CapturePacket { link_type: LINKTYPE_ETHERNET, original_len: 3, data: vec![1, 2, 3] };
    assert_eq!(
        Err(RenderError::Parse(PacketError::Layer(LayerError::Incomplete(8)))),
        render_json(&[short]).map(|_| ())
    );
}
