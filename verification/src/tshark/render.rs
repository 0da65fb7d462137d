//! Parsed packets as field maps in TShark's terms.
use crate::datalink::pcapfile::{CapturePacket, LINKTYPE_ETHERNET};
use crate::layer::ether::{ether_type_value, mac_text};
use crate::layer::tcp::{fixed_header_bytes, spec_parse_tcp, tcp_bytes, tcp_wf, SpecTcp};
use crate::layer::{Layer, LayerKind, SpecLayer};
use crate::packet::parser::{default_bindings, lemma_layer_parse_progress, parse_chain, spec_parse_partial, Binding};
use crate::layer::spec_layer_parse;
use crate::datalink::pcapfile::SpecCapturePacket;
use crate::packet::{Packet, PacketError, PacketParser};
use crate::text::string_of;
use crate::tshark::fields::{tcp_flags, tshark_tcp_flags};
use crate::tshark::json::{FieldMap, FieldValues};
use vstd::prelude::*;

verus! {

/// The lower-case digits of base 16, of which base 10 uses the first ten.
pub open spec fn digit_chars() -> Seq<char> {
    seq!['0', '1', '2', '3', '4', '5', '6', '7', '8', '9', 'a', 'b', 'c', 'd', 'e', 'f']
}

/// The digits of `n` in base `base` (2 to 16), most significant first, without leading zeros.
pub open spec fn digits(n: nat, base: nat) -> Seq<char>
    decreases n,
{
    if n < base || base < 2 {
        seq![digit_chars()[n as int]]
    } else {
        proof {
            assert(n / base < n) by (nonlinear_arith)
                requires
                    base >= 2,
                    n >= base,
            ;
        }
        digits(n / base, base).push(digit_chars()[(n % base) as int])
    }
}

/// `s` preceded by as many zeros as bring it to `width` characters.
pub open spec fn zero_padded(s: Seq<char>, width: nat) -> Seq<char> {
    if s.len() < width {
        Seq::new((width - s.len()) as nat, |i: int| '0') + s
    } else {
        s
    }
}

/// The decimal text of `n`.
pub open spec fn decimal(n: nat) -> Seq<char> {
    digits(n, 10)
}

/// `0x` and the lower-case hexadecimal digits of `n`, zero-padded to `width` digits.
pub open spec fn hex_text(n: nat, width: nat) -> Seq<char> {
    "0x"@ + zero_padded(digits(n, 16), width)
}

fn push_digits(n: u64, base: u64, out: &mut Vec<char>)
    requires
        2 <= base <= 16,
    ensures
        final(out)@ == old(out)@ + digits(n as nat, base as nat),
    decreases n,
{
    let table = ['0', '1', '2', '3', '4', '5', '6', '7', '8', '9', 'a', 'b', 'c', 'd', 'e', 'f'];
    assert(table@ =~= digit_chars());
    if n >= base {
        assert(n / base < n) by (nonlinear_arith)
            requires
                base >= 2,
                n >= base,
        ;
        push_digits(n / base, base, out);
        let d = (n % base) as usize;
        let ghost before = out@;
        out.push(table[d]);
        assert(out@ =~= old(out)@ + digits(n as nat, base as nat));
    } else {
        out.push(table[n as usize]);
        assert(out@ =~= old(out)@ + digits(n as nat, base as nat));
    }
}

/// The decimal text of `n`.
pub fn decimal_text(n: u64) -> (r: String)
    ensures
        r@ == decimal(n as nat),
{
    let mut out: Vec<char> = Vec::new();
    push_digits(n, 10, &mut out);
    assert(out@ =~= decimal(n as nat));
    string_of(&out)
}

/// `0x` and the lower-case hexadecimal digits of `n`, zero-padded to `width` digits.
pub fn hex_text_of(n: u64, width: usize) -> (r: String)
    ensures
        r@ == hex_text(n as nat, width as nat),
{
    let mut ds: Vec<char> = Vec::new();
    push_digits(n, 16, &mut ds);
    assert(ds@ =~= digits(n as nat, 16));
    let mut out: Vec<char> = vec!['0', 'x'];
    let ghost prefix = out@;
    proof {
        reveal_strlit("0x");
        assert(prefix =~= "0x"@);
    }
    let mut k: usize = ds.len();
    while k < width
        invariant
            ds.len() <= k <= width || (k == ds.len() && k >= width),
            out@ == prefix + Seq::new((k - ds.len()) as nat, |i: int| '0'),
        decreases width - k,
    {
        let ghost before = out@;
        out.push('0');
        k = k + 1;
        assert(out@ =~= prefix + Seq::new((k - ds.len()) as nat, |i: int| '0'));
    }
    let ghost zeros = out@;
    let mut i: usize = 0;
    while i < ds.len()
        invariant
            i <= ds@.len(),
            out@ == zeros + ds@.take(i as int),
        decreases ds@.len() - i,
    {
        out.push(ds[i]);
        i = i + 1;
        assert(out@ =~= zeros + ds@.take(i as int));
    }
    assert(ds@.take(ds@.len() as int) =~= ds@);
    proof {
        if ds@.len() < width {
            assert(zeros =~= prefix + Seq::new((width - ds@.len()) as nat, |i: int| '0'));
        } else {
            assert(zeros =~= prefix + Seq::<char>::empty());
        }
        assert(out@ =~= hex_text(n as nat, width as nat));
    }
    string_of(&out)
}

/// A field that TShark gives one value.
pub open spec fn with_field(m: Map<Seq<char>, FieldValues>, name: Seq<char>, value: Seq<char>) -> Map<
    Seq<char>,
    FieldValues,
> {
    m.insert(name, seq![value])
}

/// The fields that TShark reports for a layer, set in `m`.
pub open spec fn layer_fields(l: SpecLayer, m: Map<Seq<char>, FieldValues>) -> Map<Seq<char>, FieldValues> {
    match l {
        SpecLayer::Ether(e) => with_field(
            with_field(with_field(m, "eth.src"@, mac_text(e.src)), "eth.dst"@, mac_text(e.dst)),
            "eth.type"@,
            hex_text(ether_type_value(e.ether_type) as nat, 4),
        ),
        SpecLayer::Tcp(t) => with_field(
            with_field(
                with_field(
                    with_field(
                        with_field(
                            with_field(
                                with_field(
                                    with_field(
                                        with_field(m, "tcp.srcport"@, decimal(t.sport as nat)),
                                        "tcp.dstport"@,
                                        decimal(t.dport as nat),
                                    ),
                                    "tcp.seq"@,
                                    decimal(t.seq as nat),
                                ),
                                "tcp.ack"@,
                                decimal(t.ack as nat),
                            ),
                            "tcp.hdr_len"@,
                            decimal((t.offset * 4) as nat),
                        ),
                        "tcp.flags"@,
                        hex_text(tshark_tcp_flags(t.flags) as nat, 4),
                    ),
                    "tcp.window_size_value"@,
                    decimal(t.window as nat),
                ),
                "tcp.checksum"@,
                hex_text(t.checksum as nat, 4),
            ),
            "tcp.urgent_pointer"@,
            decimal(t.urgptr as nat),
        ),
        SpecLayer::Raw(_) => m,
    }
}

/// The fields of the layers, set layer after layer.
pub open spec fn layers_fields(ls: Seq<SpecLayer>, m: Map<Seq<char>, FieldValues>) -> Map<
    Seq<char>,
    FieldValues,
>
    decreases ls.len(),
{
    if ls.len() == 0 {
        m
    } else {
        layer_fields(ls.last(), layers_fields(ls.drop_last(), m))
    }
}

/// The fields of packet `number` (counted from one) of a capture: the frame's number, original
/// length and captured length, then the fields of each layer.
pub open spec fn spec_packet_fields(ls: Seq<SpecLayer>, original_len: nat, cap_len: nat, number: nat) -> Map<
    Seq<char>,
    FieldValues,
> {
    layers_fields(
        ls,
        with_field(
            with_field(
                with_field(Map::empty(), "frame.number"@, decimal(number)),
                "frame.len"@,
                decimal(original_len),
            ),
            "frame.cap_len"@,
            decimal(cap_len),
        ),
    )
}

/// The TCP data offsets of the layers, in words, fit the field's four bits.
pub open spec fn offsets_fit(ls: Seq<SpecLayer>) -> bool {
    forall|i: int| 0 <= i < ls.len() ==> (#[trigger] ls[i] matches SpecLayer::Tcp(t) ==> t.offset < 64)
}

fn set_text(fields: &mut FieldMap, name: &str, value: String)
    ensures
        final(fields)@ == with_field(old(fields)@, name@, value@),
{
    let v = vec![value];
    assert(crate::tshark::json::texts_view(v@) =~= seq![value@]);
    fields.insert(name.to_owned(), v);
}

fn set_layer_fields(layer: &Layer, fields: &mut FieldMap)
    requires
        layer@ matches SpecLayer::Tcp(t) ==> t.offset < 64,
    ensures
        final(fields)@ == layer_fields(layer@, old(fields)@),
{
    match layer {
        Layer::Ether(e) => {
            set_text(fields, "eth.src", e.src.to_string());
            set_text(fields, "eth.dst", e.dst.to_string());
            set_text(fields, "eth.type", hex_text_of(e.ether_type.value() as u64, 4));
        },
        Layer::Tcp(t) => {
            set_text(fields, "tcp.srcport", decimal_text(t.sport as u64));
            set_text(fields, "tcp.dstport", decimal_text(t.dport as u64));
            set_text(fields, "tcp.seq", decimal_text(t.seq as u64));
            set_text(fields, "tcp.ack", decimal_text(t.ack as u64));
            set_text(fields, "tcp.hdr_len", decimal_text((t.offset * 4) as u64));
            set_text(fields, "tcp.flags", hex_text_of(tcp_flags(&t.flags) as u64, 4));
            set_text(fields, "tcp.window_size_value", decimal_text(t.window as u64));
            set_text(fields, "tcp.checksum", hex_text_of(t.checksum as u64, 4));
            set_text(fields, "tcp.urgent_pointer", decimal_text(t.urgptr as u64));
        },
        Layer::Raw(_) => {},
    }
}

/// The fields of packet `number` (counted from one) of a capture, as TShark reports them: the
/// frame's number, original length and captured length, then the fields of each layer.
pub fn packet_fields(packet: &Packet, capture: &CapturePacket, number: usize) -> (r: FieldMap)
    requires
        offsets_fit(packet@),
    ensures
        r@ == spec_packet_fields(packet@, capture.original_len as nat, capture.data@.len(), number as nat),
{
    let mut fields = FieldMap::new();
    set_text(&mut fields, "frame.number", decimal_text(number as u64));
    set_text(&mut fields, "frame.len", decimal_text(capture.original_len as u64));
    set_text(&mut fields, "frame.cap_len", decimal_text(capture.data.len() as u64));
    let ghost m0 = fields@;
    let layers = packet.layers();
    let ghost ls = packet@;
    let mut i: usize = 0;
    while i < layers.len()
        invariant
            ls == packet@,
            ls == crate::layer::layers_view(layers@),
            offsets_fit(ls),
            i <= layers@.len(),
            fields@ == layers_fields(ls.take(i as int), m0),
        decreases layers@.len() - i,
    {
        proof {
            assert(ls.take(i + 1).drop_last() =~= ls.take(i as int));
            assert(ls.take(i + 1).last() == ls[i as int]);
            assert(ls[i as int] == layers@[i as int]@);
        }
        set_layer_fields(&layers[i], &mut fields);
        i = i + 1;
    }
    assert(ls.take(layers@.len() as int) =~= ls);
    fields
}

/// A layer parsed from bytes has a data offset that fits its four bits.
proof fn lemma_parsed_layer_fits(k: LayerKind, s: Seq<u8>)
    requires
        spec_layer_parse(k, s) is Ok,
    ensures
        spec_layer_parse(k, s)->Ok_0.0 matches SpecLayer::Tcp(t) ==> t.offset < 16,
{
}

proof fn lemma_chain_fits(table: Map<u64, Seq<Binding>>, cur: SpecLayer, rest: Seq<u8>)
    requires
        cur matches SpecLayer::Tcp(t) ==> t.offset < 16,
        parse_chain(table, cur, rest) is Ok,
    ensures
        offsets_fit(parse_chain(table, cur, rest)->Ok_0.0),
    decreases rest.len(),
{
    let ls = parse_chain(table, cur, rest)->Ok_0.0;
    if rest.len() == 0 {
        assert(ls =~= seq![cur]);
    } else {
        match crate::packet::parser::next_kind(
            crate::packet::parser::bindings_for(table, crate::layer::kind_of(cur)),
            cur,
            rest,
        ) {
            None => {
                assert(ls =~= seq![cur]);
            },
            Some(k) => {
                let (l, n) = spec_layer_parse(k, rest)->Ok_0;
                lemma_layer_parse_progress(k, rest);
                lemma_parsed_layer_fits(k, rest);
                lemma_chain_fits(table, l, rest.skip(n as int));
                let tail = parse_chain(table, l, rest.skip(n as int))->Ok_0.0;
                assert(ls =~= seq![cur] + tail);
                assert forall|i: int| 0 <= i < ls.len() implies (#[trigger] ls[i] matches SpecLayer::Tcp(
                    t,
                ) ==> t.offset < 64) by {
                    if i > 0 {
                        assert(ls[i] == tail[i - 1]);
                    }
                }
            },
        }
    }
}

/// The layers of a parsed packet have data offsets that fit their four bits.
proof fn lemma_parsed_packet_fits(table: Map<u64, Seq<Binding>>, first: LayerKind, input: Seq<u8>)
    requires
        spec_parse_partial(table, first, input) is Ok,
    ensures
        offsets_fit(spec_parse_partial(table, first, input)->Ok_0.0),
{
    let (l, n) = spec_layer_parse(first, input)->Ok_0;
    lemma_parsed_layer_fits(first, input);
    lemma_chain_fits(table, l, input.skip(n as int));
}

/// Why a capture could not be rendered as field maps.
#[derive(Debug, Clone, PartialEq, Eq)]
pub enum RenderError {
    /// The capture's link type has no layer to parse from.
    UnsupportedLinkType(u32),
    /// A packet of a raw IP capture holds no bytes.
    EmptyRawPacket,
    /// A packet of a raw IP capture has an IP version other than 4 or 6.
    UnsupportedRawIpVersion(u8),
    /// A packet could not be parsed.
    Parse(PacketError),
}

/// The link type number of raw IP captures, whose packets start with an IP header.
pub const LINKTYPE_RAW: u32 = 101;

/// Why a packet of a link type other than Ethernet is refused: a raw IP packet that is empty,
/// or whose first four bits give an IP version other than 4 or 6, has an error of its own;
/// every other packet is of a link type without a layer to parse it from.
pub open spec fn refusal(c: SpecCapturePacket) -> RenderError {
    if c.link_type == LINKTYPE_RAW && c.data.len() == 0 {
        RenderError::EmptyRawPacket
    } else if c.link_type == LINKTYPE_RAW && c.data[0] / 16 != 4 && c.data[0] / 16 != 6 {
        RenderError::UnsupportedRawIpVersion((c.data[0] / 16) as u8)
    } else {
        RenderError::UnsupportedLinkType(c.link_type)
    }
}

/// The field map of packet `number` (counted from one) of a capture: Ethernet packets are
/// parsed with the default bindings; other link types are refused.
pub open spec fn capture_fields(c: SpecCapturePacket, number: nat) -> Result<
    Map<Seq<char>, FieldValues>,
    RenderError,
> {
    if c.link_type == LINKTYPE_ETHERNET {
        match spec_parse_partial(default_bindings(), LayerKind::Ether, c.data) {
            Ok((ls, _)) => Ok(spec_packet_fields(ls, c.original_len as nat, c.data.len(), number)),
            Err(e) => Err(RenderError::Parse(e)),
        }
    } else {
        Err(refusal(c))
    }
}

/// The field maps of the packets of a capture, in order; the first failure.
pub open spec fn captures_fields(cs: Seq<SpecCapturePacket>) -> Result<
    Seq<Map<Seq<char>, FieldValues>>,
    RenderError,
>
    decreases cs.len(),
{
    if cs.len() == 0 {
        Ok(Seq::empty())
    } else {
        match captures_fields(cs.drop_last()) {
            Err(e) => Err(e),
            Ok(ms) => match capture_fields(cs.last(), cs.len() as nat) {
                Err(e) => Err(e),
                Ok(m) => Ok(ms.push(m)),
            },
        }
    }
}

proof fn lemma_captures_error(cs: Seq<SpecCapturePacket>, k: int)
    requires
        0 <= k <= cs.len(),
        captures_fields(cs.take(k)) is Err,
    ensures
        captures_fields(cs) == captures_fields(cs.take(k)),
    decreases cs.len() - k,
{
    if k < cs.len() {
        assert(cs.take(k + 1).drop_last() =~= cs.take(k));
        lemma_captures_error(cs, k + 1);
    } else {
        assert(cs.take(k) =~= cs);
    }
}

/// The views of captured packets.
pub open spec fn captures_view(cs: Seq<CapturePacket>) -> Seq<SpecCapturePacket> {
    cs.map_values(|c: CapturePacket| c@)
}

fn refused(c: &CapturePacket) -> (r: RenderError)
    ensures
        r == refusal(c@),
{
    if c.link_type == LINKTYPE_RAW && c.data.len() == 0 {
        RenderError::EmptyRawPacket
    } else if c.link_type == LINKTYPE_RAW && c.data[0] / 16 != 4 && c.data[0] / 16 != 6 {
        RenderError::UnsupportedRawIpVersion(c.data[0] / 16)
    } else {
        RenderError::UnsupportedLinkType(c.link_type)
    }
}

/// Render the packets of a capture as field maps, as TShark reports them.
pub fn render_json(captures: &[CapturePacket]) -> (r: Result<Vec<FieldMap>, RenderError>)
    ensures
        match r {
            Ok(fs) => captures_fields(captures_view(captures@)) == Ok::<
                Seq<Map<Seq<char>, FieldValues>>,
                RenderError,
            >(crate::tshark::json::field_maps_view(fs@)),
            Err(e) => captures_fields(captures_view(captures@)) == Err::<
                Seq<Map<Seq<char>, FieldValues>>,
                RenderError,
            >(e),
        },
{
    let parser = PacketParser::new();
    let ghost cs = captures_view(captures@);
    let mut out: Vec<FieldMap> = Vec::new();
    let mut i: usize = 0;
    assert(cs.take(0) =~= Seq::<SpecCapturePacket>::empty());
    assert(crate::tshark::json::field_maps_view(out@) =~= Seq::<Map<Seq<char>, FieldValues>>::empty());
    while i < captures.len()
        invariant
            i <= captures@.len(),
            cs == captures_view(captures@),
            parser.bindings() == default_bindings(),
            captures_fields(cs.take(i as int)) == Ok::<
                Seq<Map<Seq<char>, FieldValues>>,
                RenderError,
            >(crate::tshark::json::field_maps_view(out@)),
        decreases captures@.len() - i,
    {
        proof {
            assert(cs.take(i + 1).drop_last() =~= cs.take(i as int));
            assert(cs.take(i + 1).last() == cs[i as int]);
        }
        let capture = &captures[i];
        if capture.link_type != LINKTYPE_ETHERNET {
            proof {
                lemma_captures_error(cs, i + 1);
            }
            return Err(refused(capture));
        }
        let packet = match parser.parse_partial(LayerKind::Ether, capture.data.as_slice()) {
            Ok((_rest, p)) => p,
            Err(e) => {
                proof {
                    lemma_captures_error(cs, i + 1);
                }
                return Err(RenderError::Parse(e));
            },
        };
        proof {
            lemma_parsed_packet_fits(default_bindings(), LayerKind::Ether, capture.data@);
        }
        let fields = packet_fields(&packet, capture, i + 1);
        let ghost prev = out@;
        out.push(fields);
        assert(crate::tshark::json::field_maps_view(out@) =~= crate::tshark::json::field_maps_view(
            prev,
        ).push(fields@));
        i = i + 1;
    }
    assert(cs.take(captures@.len() as int) =~= cs);
    Ok(out)
}

/// The header length that a TCP layer reports is the number of bytes its header occupies: for
/// a header read from bytes, the bytes the parse took; for a well-formed header, the length of
/// its wire bytes; in any case four bytes per word of the data offset.
pub proof fn lemma_tcp_hdr_len_is_header_bytes(t: SpecTcp, m: Map<Seq<char>, FieldValues>, s: Seq<u8>)
    ensures
        layer_fields(SpecLayer::Tcp(t), m).contains_key("tcp.hdr_len"@),
        layer_fields(SpecLayer::Tcp(t), m)["tcp.hdr_len"@] == seq![decimal(4 * t.offset as nat)],
        tcp_wf(t) ==> layer_fields(SpecLayer::Tcp(t), m)["tcp.hdr_len"@] == seq![
            decimal(tcp_bytes(t).len()),
        ],
        spec_parse_tcp(s) matches Ok((u, n)) ==> (u == t ==> layer_fields(SpecLayer::Tcp(t), m)[
            "tcp.hdr_len"@
        ] == seq![decimal(n)]),
{
    reveal_strlit("tcp.hdr_len");
    reveal_strlit("tcp.flags");
    reveal_strlit("tcp.window_size_value");
    reveal_strlit("tcp.checksum");
    reveal_strlit("tcp.urgent_pointer");
    assert("tcp.hdr_len"@[4] == 'h' && "tcp.flags"@[4] == 'f');
    assert("tcp.hdr_len"@ != "tcp.flags"@);
    assert("tcp.hdr_len"@ != "tcp.window_size_value"@ && "tcp.hdr_len"@[4]
        != "tcp.window_size_value"@[4]);
    assert("tcp.hdr_len"@ != "tcp.checksum"@ && "tcp.hdr_len"@[4] != "tcp.checksum"@[4]);
    assert("tcp.hdr_len"@ != "tcp.urgent_pointer"@);
    assert((t.offset * 4) as nat == 4 * t.offset as nat);
    if tcp_wf(t) {
        assert(fixed_header_bytes(t).len() == 20);
    }
}

} // verus!
