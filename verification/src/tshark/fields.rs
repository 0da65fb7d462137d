//! The projections and filters that compare parsed packets with TShark's JSON output.
use crate::layer::tcp::{flags_byte, TcpFlags};
use crate::text::{chars_end_with, chars_eq, chars_of, chars_start_with, ends_with, starts_with};
use vstd::prelude::*;

verus! {

/// Every control bit holds one bit, and the reserved field three.
pub open spec fn flags_in_range(f: TcpFlags) -> bool {
    &&& f.reserved < 8
    &&& f.nonce < 2
    &&& f.crw < 2
    &&& f.ecn < 2
    &&& f.urgent < 2
    &&& f.ack < 2
    &&& f.push < 2
    &&& f.reset < 2
    &&& f.syn < 2
    &&& f.fin < 2
}

/// TShark's `tcp.flags` value: the reserved field from bit 9 up, then the nonce, CWR, ECN-Echo,
/// URG, ACK, PSH, RST, SYN and FIN bits from bit 8 down to bit 0.
pub open spec fn tshark_tcp_flags(f: TcpFlags) -> u16 {
    ((f.reserved as u16) << 9u16) | ((f.nonce as u16) << 8u16) | ((f.crw as u16) << 7u16) | ((
    f.ecn as u16) << 6u16) | ((f.urgent as u16) << 5u16) | ((f.ack as u16) << 4u16) | ((
    f.push as u16) << 3u16) | ((f.reset as u16) << 2u16) | ((f.syn as u16) << 1u16) | (f.fin as u16)
}

/// TShark's `tcp.flags` value of a set of control bits. For bits in range it is the twelve low
/// bits of bytes 12 and 13 of the header.
pub fn tcp_flags(flags: &TcpFlags) -> (r: u16)
    ensures
        r == tshark_tcp_flags(*flags),
        flags_in_range(*flags) ==> r == (flags.reserved * 2 + flags.nonce) * 256 + flags_byte(
            *flags,
        ),
{
    let r = ((flags.reserved as u16) << 9u16) | ((flags.nonce as u16) << 8u16) | ((
    flags.crw as u16) << 7u16) | ((flags.ecn as u16) << 6u16) | ((flags.urgent as u16) << 5u16) | (
    (flags.ack as u16) << 4u16) | ((flags.push as u16) << 3u16) | ((flags.reset as u16) << 2u16)
        | ((flags.syn as u16) << 1u16) | (flags.fin as u16);
    proof {
        let (a, b, c, d, e, f, g, h, i, j) = (
            flags.reserved,
            flags.nonce,
            flags.crw,
            flags.ecn,
            flags.urgent,
            flags.ack,
            flags.push,
            flags.reset,
            flags.syn,
            flags.fin,
        );
        if flags_in_range(*flags) {
            assert((((a as u16) << 9u16) | ((b as u16) << 8u16) | ((c as u16) << 7u16) | ((
            d as u16) << 6u16) | ((e as u16) << 5u16) | ((f as u16) << 4u16) | ((g as u16) << 3u16)
                | ((h as u16) << 2u16) | ((i as u16) << 1u16) | (j as u16)) == (a * 2 + b) * 256 + ((
            c * 128 + d * 64 + e * 32 + f * 16 + g * 8 + h * 4 + i * 2 + j) as u8)) by (bit_vector)
                requires
                    a < 8,
                    b < 2,
                    c < 2,
                    d < 2,
                    e < 2,
                    f < 2,
                    g < 2,
                    h < 2,
                    i < 2,
                    j < 2,
            ;
        }
    }
    r
}

/// The field-name patterns of TShark output left out of the comparison: a pattern ending in
/// `*` stands for every name that begins with the rest of it, any other for itself. These are
/// capture metadata, derived values and dissector details that parsed packets do not hold.
pub open spec fn ignore_patterns() -> Seq<&'static str> {
    seq![
        "_ws*",
        "data*",
        "frame.section_number",
        "frame.interface_id*",
        "frame.interface_description",
        "frame.encap_type",
        "frame.time*",
        "frame.offset_shift",
        "frame.marked",
        "frame.ignored",
        "frame.protocols",
        "frame.p2p_dir",
        "frame.packet_flags*",
        "eth.addr*",
        "eth.dst.*",
        "eth.dst_resolved",
        "eth.ig",
        "eth.len",
        "eth.lg",
        "eth.padding*",
        "eth.src.*",
        "eth.src_resolved",
        "eth.trailer",
        "ip.addr",
        "ip.checksum.status",
        "ip.dsfield.*",
        "ip.dst_host",
        "ip.flags.*",
        "ip.host",
        "ip.opt*",
        "ip.src_host",
        "ip.ttl.lncb",
        "ipv6.dst_host",
        "ipv6.dst_slaac_mac",
        "ipv6.dstopts*",
        "ipv6.hopopts*",
        "ipv6.opt*",
        "ipv6.addr",
        "ipv6.host",
        "ipv6.slaac_mac",
        "ipv6.src_host",
        "ipv6.src_slaac_mac",
        "ipv6.tclass.*",
        "tcp.ack_raw",
        "tcp.analysis*",
        "tcp.checksum.status",
        "tcp.completeness*",
        "tcp.connection*",
        "tcp.flags.*",
        "tcp.len",
        "tcp.nxtseq",
        "tcp.option*",
        "tcp.options*",
        "tcp.payload",
        "tcp.port",
        "tcp.pdu.size",
        "tcp.reassembled_in",
        "tcp.reset_cause",
        "tcp.segment_data",
        "tcp.seq_raw",
        "tcp.stream",
        "tcp.time*",
        "tcp.window_size",
        "tcp.window_size_scalefactor",
        "udp.checksum.status",
        "udp.payload",
        "udp.port",
        "udp.pdu.size",
        "udp.stream",
        "udp.time*",
        "icmp.checksum.status",
        "icmp.data_time*",
        "icmp.ident_le",
        "icmp.resp_to",
        "icmp.resptime",
        "icmp.seq_le",
        "icmp.unused",
    ]
}

fn ignore_pattern_list() -> (r: Vec<&'static str>)
    ensures
        r@ == ignore_patterns(),
{
    let r = vec![
        "_ws*",
        "data*",
        "frame.section_number",
        "frame.interface_id*",
        "frame.interface_description",
        "frame.encap_type",
        "frame.time*",
        "frame.offset_shift",
        "frame.marked",
        "frame.ignored",
        "frame.protocols",
        "frame.p2p_dir",
        "frame.packet_flags*",
        "eth.addr*",
        "eth.dst.*",
        "eth.dst_resolved",
        "eth.ig",
        "eth.len",
        "eth.lg",
        "eth.padding*",
        "eth.src.*",
        "eth.src_resolved",
        "eth.trailer",
        "ip.addr",
        "ip.checksum.status",
        "ip.dsfield.*",
        "ip.dst_host",
        "ip.flags.*",
        "ip.host",
        "ip.opt*",
        "ip.src_host",
        "ip.ttl.lncb",
        "ipv6.dst_host",
        "ipv6.dst_slaac_mac",
        "ipv6.dstopts*",
        "ipv6.hopopts*",
        "ipv6.opt*",
        "ipv6.addr",
        "ipv6.host",
        "ipv6.slaac_mac",
        "ipv6.src_host",
        "ipv6.src_slaac_mac",
        "ipv6.tclass.*",
        "tcp.ack_raw",
        "tcp.analysis*",
        "tcp.checksum.status",
        "tcp.completeness*",
        "tcp.connection*",
        "tcp.flags.*",
        "tcp.len",
        "tcp.nxtseq",
        "tcp.option*",
        "tcp.options*",
        "tcp.payload",
        "tcp.port",
        "tcp.pdu.size",
        "tcp.reassembled_in",
        "tcp.reset_cause",
        "tcp.segment_data",
        "tcp.seq_raw",
        "tcp.stream",
        "tcp.time*",
        "tcp.window_size",
        "tcp.window_size_scalefactor",
        "udp.checksum.status",
        "udp.payload",
        "udp.port",
        "udp.pdu.size",
        "udp.stream",
        "udp.time*",
        "icmp.checksum.status",
        "icmp.data_time*",
        "icmp.ident_le",
        "icmp.resp_to",
        "icmp.resptime",
        "icmp.seq_le",
        "icmp.unused",
    ];
    assert(r@ =~= ignore_patterns());
    r
}

/// Whether a field name matches a pattern: a pattern ending in `*` matches the names that begin
/// with the rest of it, any other pattern only itself.
pub open spec fn pattern_matches(name: Seq<char>, pattern: Seq<char>) -> bool {
    if pattern.len() > 0 && pattern.last() == '*' {
        starts_with(name, pattern.drop_last())
    } else {
        name == pattern
    }
}

/// Whether TShark field `name` is left out of the comparison: the names of subtrees (ending in
/// `_tree`) and the names that an ignore pattern matches.
pub open spec fn ignored_field(name: Seq<char>) -> bool {
    ||| ends_with(name, "_tree"@)
    ||| exists|i: int| 0 <= i < ignore_patterns().len() && #[trigger] pattern_matches(name, ignore_patterns()[i]@)
}

proof fn lemma_ignored_part0(name: Seq<char>)
    ensures
        starts_with(name, "_ws"@) ==> ignored_field(name),
        starts_with(name, "data"@) ==> ignored_field(name),
        name == "frame.section_number"@ ==> ignored_field(name),
        starts_with(name, "frame.interface_id"@) ==> ignored_field(name),
        name == "frame.interface_description"@ ==> ignored_field(name),
        name == "frame.encap_type"@ ==> ignored_field(name),
        starts_with(name, "frame.time"@) ==> ignored_field(name),
        name == "frame.offset_shift"@ ==> ignored_field(name),
        name == "frame.marked"@ ==> ignored_field(name),
        name == "frame.ignored"@ ==> ignored_field(name),
{
    if starts_with(name, "_ws"@) {
        reveal_strlit("_ws*");
        reveal_strlit("_ws");
        assert("_ws*"@.drop_last() =~= "_ws"@);
        assert(pattern_matches(name, ignore_patterns()[0]@));
    }
    if starts_with(name, "data"@) {
        reveal_strlit("data*");
        reveal_strlit("data");
        assert("data*"@.drop_last() =~= "data"@);
        assert(pattern_matches(name, ignore_patterns()[1]@));
    }
    if name == "frame.section_number"@ {
        reveal_strlit("frame.section_number");
        assert(pattern_matches(name, ignore_patterns()[2]@));
    }
    if starts_with(name, "frame.interface_id"@) {
        reveal_strlit("frame.interface_id*");
        reveal_strlit("frame.interface_id");
        assert("frame.interface_id*"@.drop_last() =~= "frame.interface_id"@);
        assert(pattern_matches(name, ignore_patterns()[3]@));
    }
    if name == "frame.interface_description"@ {
        reveal_strlit("frame.interface_description");
        assert(pattern_matches(name, ignore_patterns()[4]@));
    }
    if name == "frame.encap_type"@ {
        reveal_strlit("frame.encap_type");
        assert(pattern_matches(name, ignore_patterns()[5]@));
    }
    if starts_with(name, "frame.time"@) {
        reveal_strlit("frame.time*");
        reveal_strlit("frame.time");
        assert("frame.time*"@.drop_last() =~= "frame.time"@);
        assert(pattern_matches(name, ignore_patterns()[6]@));
    }
    if name == "frame.offset_shift"@ {
        reveal_strlit("frame.offset_shift");
        assert(pattern_matches(name, ignore_patterns()[7]@));
    }
    if name == "frame.marked"@ {
        reveal_strlit("frame.marked");
        assert(pattern_matches(name, ignore_patterns()[8]@));
    }
    if name == "frame.ignored"@ {
        reveal_strlit("frame.ignored");
        assert(pattern_matches(name, ignore_patterns()[9]@));
    }
}

proof fn lemma_ignored_part1(name: Seq<char>)
    ensures
        name == "frame.protocols"@ ==> ignored_field(name),
        name == "frame.p2p_dir"@ ==> ignored_field(name),
        starts_with(name, "frame.packet_flags"@) ==> ignored_field(name),
        starts_with(name, "eth.addr"@) ==> ignored_field(name),
        starts_with(name, "eth.dst."@) ==> ignored_field(name),
        name == "eth.dst_resolved"@ ==> ignored_field(name),
        name == "eth.ig"@ ==> ignored_field(name),
        name == "eth.len"@ ==> ignored_field(name),
        name == "eth.lg"@ ==> ignored_field(name),
        starts_with(name, "eth.padding"@) ==> ignored_field(name),
{
    if name == "frame.protocols"@ {
        reveal_strlit("frame.protocols");
        assert(pattern_matches(name, ignore_patterns()[10]@));
    }
    if name == "frame.p2p_dir"@ {
        reveal_strlit("frame.p2p_dir");
        assert(pattern_matches(name, ignore_patterns()[11]@));
    }
    if starts_with(name, "frame.packet_flags"@) {
        reveal_strlit("frame.packet_flags*");
        reveal_strlit("frame.packet_flags");
        assert("frame.packet_flags*"@.drop_last() =~= "frame.packet_flags"@);
        assert(pattern_matches(name, ignore_patterns()[12]@));
    }
    if starts_with(name, "eth.addr"@) {
        reveal_strlit("eth.addr*");
        reveal_strlit("eth.addr");
        assert("eth.addr*"@.drop_last() =~= "eth.addr"@);
        assert(pattern_matches(name, ignore_patterns()[13]@));
    }
    if starts_with(name, "eth.dst."@) {
        reveal_strlit("eth.dst.*");
        reveal_strlit("eth.dst.");
        assert("eth.dst.*"@.drop_last() =~= "eth.dst."@);
        assert(pattern_matches(name, ignore_patterns()[14]@));
    }
    if name == "eth.dst_resolved"@ {
        reveal_strlit("eth.dst_resolved");
        assert(pattern_matches(name, ignore_patterns()[15]@));
    }
    if name == "eth.ig"@ {
        reveal_strlit("eth.ig");
        assert(pattern_matches(name, ignore_patterns()[16]@));
    }
    if name == "eth.len"@ {
        reveal_strlit("eth.len");
        assert(pattern_matches(name, ignore_patterns()[17]@));
    }
    if name == "eth.lg"@ {
        reveal_strlit("eth.lg");
        assert(pattern_matches(name, ignore_patterns()[18]@));
    }
    if starts_with(name, "eth.padding"@) {
        reveal_strlit("eth.padding*");
        reveal_strlit("eth.padding");
        assert("eth.padding*"@.drop_last() =~= "eth.padding"@);
        assert(pattern_matches(name, ignore_patterns()[19]@));
    }
}

proof fn lemma_ignored_part2(name: Seq<char>)
    ensures
        starts_with(name, "eth.src."@) ==> ignored_field(name),
        name == "eth.src_resolved"@ ==> ignored_field(name),
        name == "eth.trailer"@ ==> ignored_field(name),
        name == "ip.addr"@ ==> ignored_field(name),
        name == "ip.checksum.status"@ ==> ignored_field(name),
        starts_with(name, "ip.dsfield."@) ==> ignored_field(name),
        name == "ip.dst_host"@ ==> ignored_field(name),
        starts_with(name, "ip.flags."@) ==> ignored_field(name),
        name == "ip.host"@ ==> ignored_field(name),
        starts_with(name, "ip.opt"@) ==> ignored_field(name),
{
    if starts_with(name, "eth.src."@) {
        reveal_strlit("eth.src.*");
        reveal_strlit("eth.src.");
        assert("eth.src.*"@.drop_last() =~= "eth.src."@);
        assert(pattern_matches(name, ignore_patterns()[20]@));
    }
    if name == "eth.src_resolved"@ {
        reveal_strlit("eth.src_resolved");
        assert(pattern_matches(name, ignore_patterns()[21]@));
    }
    if name == "eth.trailer"@ {
        reveal_strlit("eth.trailer");
        assert(pattern_matches(name, ignore_patterns()[22]@));
    }
    if name == "ip.addr"@ {
        reveal_strlit("ip.addr");
        assert(pattern_matches(name, ignore_patterns()[23]@));
    }
    if name == "ip.checksum.status"@ {
        reveal_strlit("ip.checksum.status");
        assert(pattern_matches(name, ignore_patterns()[24]@));
    }
    if starts_with(name, "ip.dsfield."@) {
        reveal_strlit("ip.dsfield.*");
        reveal_strlit("ip.dsfield.");
        assert("ip.dsfield.*"@.drop_last() =~= "ip.dsfield."@);
        assert(pattern_matches(name, ignore_patterns()[25]@));
    }
    if name == "ip.dst_host"@ {
        reveal_strlit("ip.dst_host");
        assert(pattern_matches(name, ignore_patterns()[26]@));
    }
    if starts_with(name, "ip.flags."@) {
        reveal_strlit("ip.flags.*");
        reveal_strlit("ip.flags.");
        assert("ip.flags.*"@.drop_last() =~= "ip.flags."@);
        assert(pattern_matches(name, ignore_patterns()[27]@));
    }
    if name == "ip.host"@ {
        reveal_strlit("ip.host");
        assert(pattern_matches(name, ignore_patterns()[28]@));
    }
    if starts_with(name, "ip.opt"@) {
        reveal_strlit("ip.opt*");
        reveal_strlit("ip.opt");
        assert("ip.opt*"@.drop_last() =~= "ip.opt"@);
        assert(pattern_matches(name, ignore_patterns()[29]@));
    }
}

proof fn lemma_ignored_part3(name: Seq<char>)
    ensures
        name == "ip.src_host"@ ==> ignored_field(name),
        name == "ip.ttl.lncb"@ ==> ignored_field(name),
        name == "ipv6.dst_host"@ ==> ignored_field(name),
        name == "ipv6.dst_slaac_mac"@ ==> ignored_field(name),
        starts_with(name, "ipv6.dstopts"@) ==> ignored_field(name),
        starts_with(name, "ipv6.hopopts"@) ==> ignored_field(name),
        starts_with(name, "ipv6.opt"@) ==> ignored_field(name),
        name == "ipv6.addr"@ ==> ignored_field(name),
        name == "ipv6.host"@ ==> ignored_field(name),
        name == "ipv6.slaac_mac"@ ==> ignored_field(name),
{
    if name == "ip.src_host"@ {
        reveal_strlit("ip.src_host");
        assert(pattern_matches(name, ignore_patterns()[30]@));
    }
    if name == "ip.ttl.lncb"@ {
        reveal_strlit("ip.ttl.lncb");
        assert(pattern_matches(name, ignore_patterns()[31]@));
    }
    if name == "ipv6.dst_host"@ {
        reveal_strlit("ipv6.dst_host");
        assert(pattern_matches(name, ignore_patterns()[32]@));
    }
    if name == "ipv6.dst_slaac_mac"@ {
        reveal_strlit("ipv6.dst_slaac_mac");
        assert(pattern_matches(name, ignore_patterns()[33]@));
    }
    if starts_with(name, "ipv6.dstopts"@) {
        reveal_strlit("ipv6.dstopts*");
        reveal_strlit("ipv6.dstopts");
        assert("ipv6.dstopts*"@.drop_last() =~= "ipv6.dstopts"@);
        assert(pattern_matches(name, ignore_patterns()[34]@));
    }
    if starts_with(name, "ipv6.hopopts"@) {
        reveal_strlit("ipv6.hopopts*");
        reveal_strlit("ipv6.hopopts");
        assert("ipv6.hopopts*"@.drop_last() =~= "ipv6.hopopts"@);
        assert(pattern_matches(name, ignore_patterns()[35]@));
    }
    if starts_with(name, "ipv6.opt"@) {
        reveal_strlit("ipv6.opt*");
        reveal_strlit("ipv6.opt");
        assert("ipv6.opt*"@.drop_last() =~= "ipv6.opt"@);
        assert(pattern_matches(name, ignore_patterns()[36]@));
    }
    if name == "ipv6.addr"@ {
        reveal_strlit("ipv6.addr");
        assert(pattern_matches(name, ignore_patterns()[37]@));
    }
    if name == "ipv6.host"@ {
        reveal_strlit("ipv6.host");
        assert(pattern_matches(name, ignore_patterns()[38]@));
    }
    if name == "ipv6.slaac_mac"@ {
        reveal_strlit("ipv6.slaac_mac");
        assert(pattern_matches(name, ignore_patterns()[39]@));
    }
}

proof fn lemma_ignored_part4(name: Seq<char>)
    ensures
        name == "ipv6.src_host"@ ==> ignored_field(name),
        name == "ipv6.src_slaac_mac"@ ==> ignored_field(name),
        starts_with(name, "ipv6.tclass."@) ==> ignored_field(name),
        name == "tcp.ack_raw"@ ==> ignored_field(name),
        starts_with(name, "tcp.analysis"@) ==> ignored_field(name),
        name == "tcp.checksum.status"@ ==> ignored_field(name),
        starts_with(name, "tcp.completeness"@) ==> ignored_field(name),
        starts_with(name, "tcp.connection"@) ==> ignored_field(name),
        starts_with(name, "tcp.flags."@) ==> ignored_field(name),
        name == "tcp.len"@ ==> ignored_field(name),
{
    if name == "ipv6.src_host"@ {
        reveal_strlit("ipv6.src_host");
        assert(pattern_matches(name, ignore_patterns()[40]@));
    }
    if name == "ipv6.src_slaac_mac"@ {
        reveal_strlit("ipv6.src_slaac_mac");
        assert(pattern_matches(name, ignore_patterns()[41]@));
    }
    if starts_with(name, "ipv6.tclass."@) {
        reveal_strlit("ipv6.tclass.*");
        reveal_strlit("ipv6.tclass.");
        assert("ipv6.tclass.*"@.drop_last() =~= "ipv6.tclass."@);
        assert(pattern_matches(name, ignore_patterns()[42]@));
    }
    if name == "tcp.ack_raw"@ {
        reveal_strlit("tcp.ack_raw");
        assert(pattern_matches(name, ignore_patterns()[43]@));
    }
    if starts_with(name, "tcp.analysis"@) {
        reveal_strlit("tcp.analysis*");
        reveal_strlit("tcp.analysis");
        assert("tcp.analysis*"@.drop_last() =~= "tcp.analysis"@);
        assert(pattern_matches(name, ignore_patterns()[44]@));
    }
    if name == "tcp.checksum.status"@ {
        reveal_strlit("tcp.checksum.status");
        assert(pattern_matches(name, ignore_patterns()[45]@));
    }
    if starts_with(name, "tcp.completeness"@) {
        reveal_strlit("tcp.completeness*");
        reveal_strlit("tcp.completeness");
        assert("tcp.completeness*"@.drop_last() =~= "tcp.completeness"@);
        assert(pattern_matches(name, ignore_patterns()[46]@));
    }
    if starts_with(name, "tcp.connection"@) {
        reveal_strlit("tcp.connection*");
        reveal_strlit("tcp.connection");
        assert("tcp.connection*"@.drop_last() =~= "tcp.connection"@);
        assert(pattern_matches(name, ignore_patterns()[47]@));
    }
    if starts_with(name, "tcp.flags."@) {
        reveal_strlit("tcp.flags.*");
        reveal_strlit("tcp.flags.");
        assert("tcp.flags.*"@.drop_last() =~= "tcp.flags."@);
        assert(pattern_matches(name, ignore_patterns()[48]@));
    }
    if name == "tcp.len"@ {
        reveal_strlit("tcp.len");
        assert(pattern_matches(name, ignore_patterns()[49]@));
    }
}

proof fn lemma_ignored_part5(name: Seq<char>)
    ensures
        name == "tcp.nxtseq"@ ==> ignored_field(name),
        starts_with(name, "tcp.option"@) ==> ignored_field(name),
        starts_with(name, "tcp.options"@) ==> ignored_field(name),
        name == "tcp.payload"@ ==> ignored_field(name),
        name == "tcp.port"@ ==> ignored_field(name),
        name == "tcp.pdu.size"@ ==> ignored_field(name),
        name == "tcp.reassembled_in"@ ==> ignored_field(name),
        name == "tcp.reset_cause"@ ==> ignored_field(name),
        name == "tcp.segment_data"@ ==> ignored_field(name),
        name == "tcp.seq_raw"@ ==> ignored_field(name),
{
    if name == "tcp.nxtseq"@ {
        reveal_strlit("tcp.nxtseq");
        assert(pattern_matches(name, ignore_patterns()[50]@));
    }
    if starts_with(name, "tcp.option"@) {
        reveal_strlit("tcp.option*");
        reveal_strlit("tcp.option");
        assert("tcp.option*"@.drop_last() =~= "tcp.option"@);
        assert(pattern_matches(name, ignore_patterns()[51]@));
    }
    if starts_with(name, "tcp.options"@) {
        reveal_strlit("tcp.options*");
        reveal_strlit("tcp.options");
        assert("tcp.options*"@.drop_last() =~= "tcp.options"@);
        assert(pattern_matches(name, ignore_patterns()[52]@));
    }
    if name == "tcp.payload"@ {
        reveal_strlit("tcp.payload");
        assert(pattern_matches(name, ignore_patterns()[53]@));
    }
    if name == "tcp.port"@ {
        reveal_strlit("tcp.port");
        assert(pattern_matches(name, ignore_patterns()[54]@));
    }
    if name == "tcp.pdu.size"@ {
        reveal_strlit("tcp.pdu.size");
        assert(pattern_matches(name, ignore_patterns()[55]@));
    }
    if name == "tcp.reassembled_in"@ {
        reveal_strlit("tcp.reassembled_in");
        assert(pattern_matches(name, ignore_patterns()[56]@));
    }
    if name == "tcp.reset_cause"@ {
        reveal_strlit("tcp.reset_cause");
        assert(pattern_matches(name, ignore_patterns()[57]@));
    }
    if name == "tcp.segment_data"@ {
        reveal_strlit("tcp.segment_data");
        assert(pattern_matches(name, ignore_patterns()[58]@));
    }
    if name == "tcp.seq_raw"@ {
        reveal_strlit("tcp.seq_raw");
        assert(pattern_matches(name, ignore_patterns()[59]@));
    }
}

proof fn lemma_ignored_part6(name: Seq<char>)
    ensures
        name == "tcp.stream"@ ==> ignored_field(name),
        starts_with(name, "tcp.time"@) ==> ignored_field(name),
        name == "tcp.window_size"@ ==> ignored_field(name),
        name == "tcp.window_size_scalefactor"@ ==> ignored_field(name),
        name == "udp.checksum.status"@ ==> ignored_field(name),
        name == "udp.payload"@ ==> ignored_field(name),
        name == "udp.port"@ ==> ignored_field(name),
        name == "udp.pdu.size"@ ==> ignored_field(name),
        name == "udp.stream"@ ==> ignored_field(name),
        starts_with(name, "udp.time"@) ==> ignored_field(name),
{
    if name == "tcp.stream"@ {
        reveal_strlit("tcp.stream");
        assert(pattern_matches(name, ignore_patterns()[60]@));
    }
    if starts_with(name, "tcp.time"@) {
        reveal_strlit("tcp.time*");
        reveal_strlit("tcp.time");
        assert("tcp.time*"@.drop_last() =~= "tcp.time"@);
        assert(pattern_matches(name, ignore_patterns()[61]@));
    }
    if name == "tcp.window_size"@ {
        reveal_strlit("tcp.window_size");
        assert(pattern_matches(name, ignore_patterns()[62]@));
    }
    if name == "tcp.window_size_scalefactor"@ {
        reveal_strlit("tcp.window_size_scalefactor");
        assert(pattern_matches(name, ignore_patterns()[63]@));
    }
    if name == "udp.checksum.status"@ {
        reveal_strlit("udp.checksum.status");
        assert(pattern_matches(name, ignore_patterns()[64]@));
    }
    if name == "udp.payload"@ {
        reveal_strlit("udp.payload");
        assert(pattern_matches(name, ignore_patterns()[65]@));
    }
    if name == "udp.port"@ {
        reveal_strlit("udp.port");
        assert(pattern_matches(name, ignore_patterns()[66]@));
    }
    if name == "udp.pdu.size"@ {
        reveal_strlit("udp.pdu.size");
        assert(pattern_matches(name, ignore_patterns()[67]@));
    }
    if name == "udp.stream"@ {
        reveal_strlit("udp.stream");
        assert(pattern_matches(name, ignore_patterns()[68]@));
    }
    if starts_with(name, "udp.time"@) {
        reveal_strlit("udp.time*");
        reveal_strlit("udp.time");
        assert("udp.time*"@.drop_last() =~= "udp.time"@);
        assert(pattern_matches(name, ignore_patterns()[69]@));
    }
}

proof fn lemma_ignored_part7(name: Seq<char>)
    ensures
        name == "icmp.checksum.status"@ ==> ignored_field(name),
        starts_with(name, "icmp.data_time"@) ==> ignored_field(name),
        name == "icmp.ident_le"@ ==> ignored_field(name),
        name == "icmp.resp_to"@ ==> ignored_field(name),
        name == "icmp.resptime"@ ==> ignored_field(name),
        name == "icmp.seq_le"@ ==> ignored_field(name),
        name == "icmp.unused"@ ==> ignored_field(name),
{
    if name == "icmp.checksum.status"@ {
        reveal_strlit("icmp.checksum.status");
        assert(pattern_matches(name, ignore_patterns()[70]@));
    }
    if starts_with(name, "icmp.data_time"@) {
        reveal_strlit("icmp.data_time*");
        reveal_strlit("icmp.data_time");
        assert("icmp.data_time*"@.drop_last() =~= "icmp.data_time"@);
        assert(pattern_matches(name, ignore_patterns()[71]@));
    }
    if name == "icmp.ident_le"@ {
        reveal_strlit("icmp.ident_le");
        assert(pattern_matches(name, ignore_patterns()[72]@));
    }
    if name == "icmp.resp_to"@ {
        reveal_strlit("icmp.resp_to");
        assert(pattern_matches(name, ignore_patterns()[73]@));
    }
    if name == "icmp.resptime"@ {
        reveal_strlit("icmp.resptime");
        assert(pattern_matches(name, ignore_patterns()[74]@));
    }
    if name == "icmp.seq_le"@ {
        reveal_strlit("icmp.seq_le");
        assert(pattern_matches(name, ignore_patterns()[75]@));
    }
    if name == "icmp.unused"@ {
        reveal_strlit("icmp.unused");
        assert(pattern_matches(name, ignore_patterns()[76]@));
    }
}

/// The fields left out of the comparison include every name that one of these patterns
/// matches: capture metadata, derived and resolved values, and dissector details. A pattern
/// ending in `*` stands for every name that begins with the rest of it.
pub proof fn lemma_ignored_fields(name: Seq<char>)
    ensures
        ends_with(name, "_tree"@) ==> ignored_field(name),
        starts_with(name, "_ws"@) ==> ignored_field(name),
        starts_with(name, "data"@) ==> ignored_field(name),
        name == "frame.section_number"@ ==> ignored_field(name),
        starts_with(name, "frame.interface_id"@) ==> ignored_field(name),
        name == "frame.interface_description"@ ==> ignored_field(name),
        name == "frame.encap_type"@ ==> ignored_field(name),
        starts_with(name, "frame.time"@) ==> ignored_field(name),
        name == "frame.offset_shift"@ ==> ignored_field(name),
        name == "frame.marked"@ ==> ignored_field(name),
        name == "frame.ignored"@ ==> ignored_field(name),
        name == "frame.protocols"@ ==> ignored_field(name),
        name == "frame.p2p_dir"@ ==> ignored_field(name),
        starts_with(name, "frame.packet_flags"@) ==> ignored_field(name),
        starts_with(name, "eth.addr"@) ==> ignored_field(name),
        starts_with(name, "eth.dst."@) ==> ignored_field(name),
        name == "eth.dst_resolved"@ ==> ignored_field(name),
        name == "eth.ig"@ ==> ignored_field(name),
        name == "eth.len"@ ==> ignored_field(name),
        name == "eth.lg"@ ==> ignored_field(name),
        starts_with(name, "eth.padding"@) ==> ignored_field(name),
        starts_with(name, "eth.src."@) ==> ignored_field(name),
        name == "eth.src_resolved"@ ==> ignored_field(name),
        name == "eth.trailer"@ ==> ignored_field(name),
        name == "ip.addr"@ ==> ignored_field(name),
        name == "ip.checksum.status"@ ==> ignored_field(name),
        starts_with(name, "ip.dsfield."@) ==> ignored_field(name),
        name == "ip.dst_host"@ ==> ignored_field(name),
        starts_with(name, "ip.flags."@) ==> ignored_field(name),
        name == "ip.host"@ ==> ignored_field(name),
        starts_with(name, "ip.opt"@) ==> ignored_field(name),
        name == "ip.src_host"@ ==> ignored_field(name),
        name == "ip.ttl.lncb"@ ==> ignored_field(name),
        name == "ipv6.dst_host"@ ==> ignored_field(name),
        name == "ipv6.dst_slaac_mac"@ ==> ignored_field(name),
        starts_with(name, "ipv6.dstopts"@) ==> ignored_field(name),
        starts_with(name, "ipv6.hopopts"@) ==> ignored_field(name),
        starts_with(name, "ipv6.opt"@) ==> ignored_field(name),
        name == "ipv6.addr"@ ==> ignored_field(name),
        name == "ipv6.host"@ ==> ignored_field(name),
        name == "ipv6.slaac_mac"@ ==> ignored_field(name),
        name == "ipv6.src_host"@ ==> ignored_field(name),
        name == "ipv6.src_slaac_mac"@ ==> ignored_field(name),
        starts_with(name, "ipv6.tclass."@) ==> ignored_field(name),
        name == "tcp.ack_raw"@ ==> ignored_field(name),
        starts_with(name, "tcp.analysis"@) ==> ignored_field(name),
        name == "tcp.checksum.status"@ ==> ignored_field(name),
        starts_with(name, "tcp.completeness"@) ==> ignored_field(name),
        starts_with(name, "tcp.connection"@) ==> ignored_field(name),
        starts_with(name, "tcp.flags."@) ==> ignored_field(name),
        name == "tcp.len"@ ==> ignored_field(name),
        name == "tcp.nxtseq"@ ==> ignored_field(name),
        starts_with(name, "tcp.option"@) ==> ignored_field(name),
        starts_with(name, "tcp.options"@) ==> ignored_field(name),
        name == "tcp.payload"@ ==> ignored_field(name),
        name == "tcp.port"@ ==> ignored_field(name),
        name == "tcp.pdu.size"@ ==> ignored_field(name),
        name == "tcp.reassembled_in"@ ==> ignored_field(name),
        name == "tcp.reset_cause"@ ==> ignored_field(name),
        name == "tcp.segment_data"@ ==> ignored_field(name),
        name == "tcp.seq_raw"@ ==> ignored_field(name),
        name == "tcp.stream"@ ==> ignored_field(name),
        starts_with(name, "tcp.time"@) ==> ignored_field(name),
        name == "tcp.window_size"@ ==> ignored_field(name),
        name == "tcp.window_size_scalefactor"@ ==> ignored_field(name),
        name == "udp.checksum.status"@ ==> ignored_field(name),
        name == "udp.payload"@ ==> ignored_field(name),
        name == "udp.port"@ ==> ignored_field(name),
        name == "udp.pdu.size"@ ==> ignored_field(name),
        name == "udp.stream"@ ==> ignored_field(name),
        starts_with(name, "udp.time"@) ==> ignored_field(name),
        name == "icmp.checksum.status"@ ==> ignored_field(name),
        starts_with(name, "icmp.data_time"@) ==> ignored_field(name),
        name == "icmp.ident_le"@ ==> ignored_field(name),
        name == "icmp.resp_to"@ ==> ignored_field(name),
        name == "icmp.resptime"@ ==> ignored_field(name),
        name == "icmp.seq_le"@ ==> ignored_field(name),
        name == "icmp.unused"@ ==> ignored_field(name),
{
    lemma_ignored_part0(name);
    lemma_ignored_part1(name);
    lemma_ignored_part2(name);
    lemma_ignored_part3(name);
    lemma_ignored_part4(name);
    lemma_ignored_part5(name);
    lemma_ignored_part6(name);
    lemma_ignored_part7(name);
}

/// Whether TShark field `name` is left out of the comparison.
pub fn is_ignored_tshark_field(name: &str) -> (r: bool)
    ensures
        r == ignored_field(name@),
{
    let n = chars_of(name);
    let tree = chars_of("_tree");
    if chars_end_with(&n, &tree) {
        return true;
    }
    let ps = ignore_pattern_list();
    let mut i: usize = 0;
    while i < ps.len()
        invariant
            ps@ == ignore_patterns(),
            n@ == name@,
            i <= ps@.len(),
            forall|j: int| 0 <= j < i ==> !#[trigger] pattern_matches(name@, ps@[j]@),
        decreases ps@.len() - i,
    {
        let p = chars_of(ps[i]);
        let m = if p.len() > 0 && p[p.len() - 1] == '*' {
            proof {
                assert(p@.drop_last() =~= p@.subrange(0, p@.len() - 1));
            }
            chars_start_with(&n, &p, 1)
        } else {
            chars_eq(&n, &p)
        };
        assert(m == pattern_matches(name@, ps@[i as int]@));
        if m {
            return true;
        }
        i = i + 1;
    }
    false
}

} // verus!
