//! TCP layer (RFC 9293).
//!
//! ```text
//!  0                   1                   2                   3
//!  0 1 2 3 4 5 6 7 8 9 0 1 2 3 4 5 6 7 8 9 0 1 2 3 4 5 6 7 8 9 0 1
//! +-+-+-+-+-+-+-+-+-+-+-+-+-+-+-+-+-+-+-+-+-+-+-+-+-+-+-+-+-+-+-+-+
//! |          Source Port          |       Destination Port        |
//! +-+-+-+-+-+-+-+-+-+-+-+-+-+-+-+-+-+-+-+-+-+-+-+-+-+-+-+-+-+-+-+-+
//! |                        Sequence Number                        |
//! +-+-+-+-+-+-+-+-+-+-+-+-+-+-+-+-+-+-+-+-+-+-+-+-+-+-+-+-+-+-+-+-+
//! |                    Acknowledgment Number                      |
//! +-+-+-+-+-+-+-+-+-+-+-+-+-+-+-+-+-+-+-+-+-+-+-+-+-+-+-+-+-+-+-+-+
//! |  Data |     |N|C|E|U|A|P|R|S|F|                               |
//! | Offset| Res |S|W|C|R|C|S|S|Y|I|            Window             |
//! |       |     | |R|E|G|K|H|T|N|N|                               |
//! +-+-+-+-+-+-+-+-+-+-+-+-+-+-+-+-+-+-+-+-+-+-+-+-+-+-+-+-+-+-+-+-+
//! |           Checksum            |         Urgent Pointer        |
//! +-+-+-+-+-+-+-+-+-+-+-+-+-+-+-+-+-+-+-+-+-+-+-+-+-+-+-+-+-+-+-+-+
//! |                    Options                    |    Padding    |
//! +-+-+-+-+-+-+-+-+-+-+-+-+-+-+-+-+-+-+-+-+-+-+-+-+-+-+-+-+-+-+-+-+
//! ```
pub mod options;

pub use options::{SAckData, TcpOption, TimestampData};

use crate::layer::bytes::{
    be16, be32, get_u16, get_u32, lemma_be16_get_u16, lemma_be32_get_u32, lemma_get_u16_be16,
    lemma_get_u32_be32, push_u16, push_u32, read_u16, read_u32,
};
use crate::layer::bytes::{be128, be64, push_u128};
use crate::layer::checksum::{checksum, internet_checksum, lemma_checksum_fills_zero_word, with_word};
use crate::layer::{layers_to_bytes, spec_layers_bytes, Layer, LayerError, PacketLayer, SpecLayer};
use options::{
    lemma_options_bytes_parse, lemma_parse_options_bytes, options_bytes, options_view,
    options_wf, parse_options, parse_options_at, write_options, SpecTcpOption, lemma_options_bytes_append,
    option_bytes,
};
use vstd::prelude::*;

verus! {

/// The TCP control bits, each held in a byte of its own.
#[derive(Debug, Clone, Copy, PartialEq, Eq, Structural)]
pub struct TcpFlags {
    pub reserved: u8,
    pub nonce: u8,
    /// Congestion Window Reduced (CWR)
    pub crw: u8,
    /// ECN-Echo
    pub ecn: u8,
    pub urgent: u8,
    pub ack: u8,
    pub push: u8,
    pub reset: u8,
    pub syn: u8,
    pub fin: u8,
}

/// Flags with every bit cleared.
pub open spec fn no_flags() -> TcpFlags {
    TcpFlags {
        reserved: 0,
        nonce: 0,
        crw: 0,
        ecn: 0,
        urgent: 0,
        ack: 0,
        push: 0,
        reset: 0,
        syn: 0,
        fin: 0,
    }
}

impl Default for TcpFlags {
    fn default() -> (r: Self)
        ensures
            r == no_flags(),
    {
        TcpFlags::new()
    }
}

impl TcpFlags {
    /// Construct flags with all bits cleared.
    pub fn new() -> (r: Self)
        ensures
            r == no_flags(),
    {
        TcpFlags {
            reserved: 0,
            nonce: 0,
            crw: 0,
            ecn: 0,
            urgent: 0,
            ack: 0,
            push: 0,
            reset: 0,
            syn: 0,
            fin: 0,
        }
    }

    /// Set the SYN flag.
    pub fn syn(self) -> (r: Self)
        ensures
            r == (TcpFlags { syn: 1, ..self }),
    {
        TcpFlags { syn: 1, ..self }
    }

    /// Set the ACK flag.
    pub fn ack(self) -> (r: Self)
        ensures
            r == (TcpFlags { ack: 1, ..self }),
    {
        TcpFlags { ack: 1, ..self }
    }

    /// Set the PSH flag.
    pub fn push(self) -> (r: Self)
        ensures
            r == (TcpFlags { push: 1, ..self }),
    {
        TcpFlags { push: 1, ..self }
    }

    /// Set the FIN flag.
    pub fn fin(self) -> (r: Self)
        ensures
            r == (TcpFlags { fin: 1, ..self }),
    {
        TcpFlags { fin: 1, ..self }
    }

    /// Set the RST flag.
    pub fn reset(self) -> (r: Self)
        ensures
            r == (TcpFlags { reset: 1, ..self }),
    {
        TcpFlags { reset: 1, ..self }
    }

    /// Construct SYN+ACK flags.
    pub fn syn_ack() -> (r: Self)
        ensures
            r == (TcpFlags { syn: 1, ack: 1, ..no_flags() }),
    {
        TcpFlags::new().syn().ack()
    }

    /// The flags as letters: `S`, `P`, `A`, `F` and `R` for each of SYN, PSH, ACK, FIN and RST
    /// that is set, in that order.
    pub fn to_string(&self) -> (r: String)
        ensures
            r@ == flags_text(*self),
    {
        proof {
            reveal_strlit("S");
            reveal_strlit("P");
            reveal_strlit("A");
            reveal_strlit("F");
            reveal_strlit("R");
        }
        let mut out = String::new();
        if self.syn == 1 {
            out.append("S");
        }
        if self.push == 1 {
            out.append("P");
        }
        if self.ack == 1 {
            out.append("A");
        }
        if self.fin == 1 {
            out.append("F");
        }
        if self.reset == 1 {
            out.append("R");
        }
        assert(out@ =~= flags_text(*self));
        out
    }
}

/// The letter of a flag when it is set.
pub open spec fn flag_letter(bit: u8, letter: char) -> Seq<char> {
    if bit == 1 {
        seq![letter]
    } else {
        Seq::empty()
    }
}

/// The flags as letters: SYN, PSH, ACK, FIN and RST, in that order, each when set.
pub open spec fn flags_text(f: TcpFlags) -> Seq<char> {
    flag_letter(f.syn, 'S') + flag_letter(f.push, 'P') + flag_letter(f.ack, 'A') + flag_letter(
        f.fin,
        'F',
    ) + flag_letter(f.reset, 'R')
}

/// A TCP header with its options.
#[derive(Debug, Clone, PartialEq)]
pub struct Tcp {
    pub sport: u16,
    pub dport: u16,
    pub seq: u32,
    pub ack: u32,
    /// Size of the TCP header in 32-bit words.
    pub offset: u8,
    pub flags: TcpFlags,
    pub window: u16,
    pub checksum: u16,
    pub urgptr: u16,
    pub options: Vec<TcpOption>,
}

/// The mathematical value of a [`Tcp`] header.
pub struct SpecTcp {
    pub sport: u16,
    pub dport: u16,
    pub seq: u32,
    pub ack: u32,
    pub offset: u8,
    pub flags: TcpFlags,
    pub window: u16,
    pub checksum: u16,
    pub urgptr: u16,
    pub options: Seq<SpecTcpOption>,
}

impl View for Tcp {
    type V = SpecTcp;

    open spec fn view(&self) -> SpecTcp {
        SpecTcp {
            sport: self.sport,
            dport: self.dport,
            seq: self.seq,
            ack: self.ack,
            offset: self.offset,
            flags: self.flags,
            window: self.window,
            checksum: self.checksum,
            urgptr: self.urgptr,
            options: options_view(self.options@),
        }
    }
}

/// The header every field of which is zero, but for a data offset of five words.
pub open spec fn default_tcp() -> SpecTcp {
    SpecTcp {
        sport: 0,
        dport: 0,
        seq: 0,
        ack: 0,
        offset: 5,
        flags: no_flags(),
        window: 0,
        checksum: 0,
        urgptr: 0,
        options: Seq::empty(),
    }
}

/// Every bit field holds a value that fits its width on the wire.
pub open spec fn fields_fit(t: SpecTcp) -> bool {
    &&& t.offset < 16
    &&& t.flags.reserved < 8
    &&& t.flags.nonce < 2
    &&& t.flags.crw < 2
    &&& t.flags.ecn < 2
    &&& t.flags.urgent < 2
    &&& t.flags.ack < 2
    &&& t.flags.push < 2
    &&& t.flags.reset < 2
    &&& t.flags.syn < 2
    &&& t.flags.fin < 2
}

/// Byte 12 of the header: data offset, reserved bits and the nonce bit.
pub open spec fn offset_byte(offset: u8, f: TcpFlags) -> u8 {
    (offset * 16 + f.reserved * 2 + f.nonce) as u8
}

/// Byte 13 of the header: the eight remaining control bits.
pub open spec fn flags_byte(f: TcpFlags) -> u8 {
    (f.crw * 128 + f.ecn * 64 + f.urgent * 32 + f.ack * 16 + f.push * 8 + f.reset * 4 + f.syn * 2
        + f.fin) as u8
}

/// Control bits decoded from bytes 12 and 13 of a header.
pub open spec fn decode_flags(b12: u8, b13: u8) -> TcpFlags {
    TcpFlags {
        reserved: ((b12 / 2) % 8) as u8,
        nonce: (b12 % 2) as u8,
        crw: (b13 / 128) as u8,
        ecn: ((b13 / 64) % 2) as u8,
        urgent: ((b13 / 32) % 2) as u8,
        ack: ((b13 / 16) % 2) as u8,
        push: ((b13 / 8) % 2) as u8,
        reset: ((b13 / 4) % 2) as u8,
        syn: ((b13 / 2) % 2) as u8,
        fin: (b13 % 2) as u8,
    }
}

/// The 20 bytes of the fixed header.
pub open spec fn fixed_header_bytes(t: SpecTcp) -> Seq<u8> {
    be16(t.sport) + be16(t.dport) + be32(t.seq) + be32(t.ack) + seq![
        offset_byte(t.offset, t.flags),
        flags_byte(t.flags),
    ] + be16(t.window) + be16(t.checksum) + be16(t.urgptr)
}

/// The wire bytes of a header: the fixed part, then the options as they are.
pub open spec fn tcp_bytes(t: SpecTcp) -> Seq<u8> {
    fixed_header_bytes(t) + options_bytes(t.options)
}

/// Serialization: the wire bytes, or an error when a bit field is too wide.
pub open spec fn spec_tcp_to_bytes(t: SpecTcp) -> Result<Seq<u8>, LayerError> {
    if fields_fit(t) {
        Ok(tcp_bytes(t))
    } else {
        Err(LayerError::FieldOverflow)
    }
}

/// Size in bits of the first fixed-header field that does not fit in `len` bytes.
pub open spec fn missing_field_bits(len: nat) -> usize {
    if len < 4 {
        16
    } else if len < 12 {
        32
    } else if len == 12 {
        4
    } else if len == 13 {
        1
    } else {
        16
    }
}

/// Length in bytes of the options announced by a data offset of at least five.
pub open spec fn options_len(offset: u8) -> nat {
    ((offset - 5) * 4) as nat
}

/// Parse a TCP header from the front of `s`: the header and the number of bytes it occupies.
pub open spec fn spec_parse_tcp(s: Seq<u8>) -> Result<(SpecTcp, nat), LayerError> {
    if s.len() < 20 {
        Err(LayerError::Incomplete(missing_field_bits(s.len())))
    } else {
        let offset = (s[12] / 16) as u8;
        if offset < 5 {
            Err(LayerError::InvalidTcpOffset)
        } else {
            match parse_options(s.skip(20), options_len(offset)) {
                Err(e) => Err(e),
                Ok(os) => Ok(
                    (
                        SpecTcp {
                            sport: get_u16(s, 0),
                            dport: get_u16(s, 2),
                            seq: get_u32(s, 4),
                            ack: get_u32(s, 8),
                            offset,
                            flags: decode_flags(s[12], s[13]),
                            window: get_u16(s, 14),
                            checksum: get_u16(s, 16),
                            urgptr: get_u16(s, 18),
                            options: os,
                        },
                        20 + options_len(offset),
                    ),
                ),
            }
        }
    }
}

/// A header whose data offset agrees with its options, so that its bytes parse back to it.
pub open spec fn tcp_wf(t: SpecTcp) -> bool {
    &&& fields_fit(t)
    &&& t.offset >= 5
    &&& options_wf(t.options)
    &&& options_bytes(t.options).len() == options_len(t.offset)
}

proof fn lemma_control_bytes_roundtrip(offset: u8, f: TcpFlags)
    requires
        fields_fit(SpecTcp { offset, flags: f, ..default_tcp() }),
    ensures
        offset_byte(offset, f) / 16 == offset,
        decode_flags(offset_byte(offset, f), flags_byte(f)) == f,
{
    let b12 = offset_byte(offset, f);
    let b13 = flags_byte(f);
    let (o, r, n) = (offset, f.reserved, f.nonce);
    let (c, e, u, a, p, s, y, i) = (f.crw, f.ecn, f.urgent, f.ack, f.push, f.reset, f.syn, f.fin);
    assert(b12 == o * 16 + r * 2 + n);
    assert(b13 == c * 128 + e * 64 + u * 32 + a * 16 + p * 8 + s * 4 + y * 2 + i);
    assert((o * 16 + r * 2 + n) / 16 == o && ((o * 16 + r * 2 + n) / 2) % 8 == r && (o * 16 + r
        * 2 + n) % 2 == n) by (bit_vector)
        requires
            o < 16,
            r < 8,
            n < 2,
    ;
    assert({
        let b = c * 128 + e * 64 + u * 32 + a * 16 + p * 8 + s * 4 + y * 2 + i;
        &&& b / 128 == c
        &&& (b / 64) % 2 == e
        &&& (b / 32) % 2 == u
        &&& (b / 16) % 2 == a
        &&& (b / 8) % 2 == p
        &&& (b / 4) % 2 == s
        &&& (b / 2) % 2 == y
        &&& b % 2 == i
    }) by (bit_vector)
        requires
            c < 2,
            e < 2,
            u < 2,
            a < 2,
            p < 2,
            s < 2,
            y < 2,
            i < 2,
    ;
}

proof fn lemma_control_bytes_reencode(b12: u8, b13: u8)
    ensures
        offset_byte((b12 / 16) as u8, decode_flags(b12, b13)) == b12,
        flags_byte(decode_flags(b12, b13)) == b13,
        fields_fit(SpecTcp { offset: (b12 / 16) as u8, flags: decode_flags(b12, b13), ..default_tcp() }),
{
    assert((b12 / 16) * 16 + ((b12 / 2) % 8) * 2 + b12 % 2 == b12) by (bit_vector);
    assert((b13 / 128) * 128 + ((b13 / 64) % 2) * 64 + ((b13 / 32) % 2) * 32 + ((b13 / 16) % 2)
        * 16 + ((b13 / 8) % 2) * 8 + ((b13 / 4) % 2) * 4 + ((b13 / 2) % 2) * 2 + b13 % 2 == b13)
        by (bit_vector);
    assert(b13 / 128 < 2) by (bit_vector);
}

/// Symmetric serialization: a well-formed header, followed by anything, parses back to itself
/// from the front of its bytes.
pub proof fn lemma_tcp_serialize_parse(t: SpecTcp, rest: Seq<u8>)
    requires
        tcp_wf(t),
    ensures
        spec_tcp_to_bytes(t) is Ok,
        spec_parse_tcp(spec_tcp_to_bytes(t)->Ok_0 + rest) == Ok::<(SpecTcp, nat), LayerError>(
            (t, spec_tcp_to_bytes(t)->Ok_0.len()),
        ),
{
    let fixed = fixed_header_bytes(t);
    let ob = options_bytes(t.options);
    let s = tcp_bytes(t) + rest;
    assert(fixed.len() == 20);
    assert(s =~= fixed + (ob + rest));
    assert(s.subrange(0, 2) =~= be16(t.sport));
    assert(s.subrange(2, 4) =~= be16(t.dport));
    assert(s.subrange(4, 8) =~= be32(t.seq));
    assert(s.subrange(8, 12) =~= be32(t.ack));
    assert(s.subrange(14, 16) =~= be16(t.window));
    assert(s.subrange(16, 18) =~= be16(t.checksum));
    assert(s.subrange(18, 20) =~= be16(t.urgptr));
    lemma_get_u16_be16(t.sport, s, 0);
    lemma_get_u16_be16(t.dport, s, 2);
    lemma_get_u32_be32(t.seq, s, 4);
    lemma_get_u32_be32(t.ack, s, 8);
    lemma_get_u16_be16(t.window, s, 14);
    lemma_get_u16_be16(t.checksum, s, 16);
    lemma_get_u16_be16(t.urgptr, s, 18);
    assert(s[12] == offset_byte(t.offset, t.flags));
    assert(s[13] == flags_byte(t.flags));
    lemma_control_bytes_roundtrip(t.offset, t.flags);
    assert(s.skip(20) =~= ob + rest);
    lemma_parse_options_bytes(t.options, rest);
}

/// Symmetric serialization: a parsed header serializes to exactly the bytes it was parsed from.
pub proof fn lemma_tcp_parse_serialize(s: Seq<u8>)
    requires
        spec_parse_tcp(s) is Ok,
    ensures
        ({
            let (t, n) = spec_parse_tcp(s)->Ok_0;
            &&& tcp_wf(t)
            &&& n <= s.len()
            &&& spec_tcp_to_bytes(t) == Ok::<Seq<u8>, LayerError>(s.subrange(0, n as int))
        }),
{
    let (t, n) = spec_parse_tcp(s)->Ok_0;
    let l = options_len(t.offset);
    lemma_options_bytes_parse(s.skip(20), l);
    lemma_control_bytes_reencode(s[12], s[13]);
    lemma_be16_get_u16(s, 0);
    lemma_be16_get_u16(s, 2);
    lemma_be32_get_u32(s, 4);
    lemma_be32_get_u32(s, 8);
    lemma_be16_get_u16(s, 14);
    lemma_be16_get_u16(s, 16);
    lemma_be16_get_u16(s, 18);
    assert(fixed_header_bytes(t) =~= s.subrange(0, 20));
    assert(tcp_bytes(t) =~= s.subrange(0, n as int));
}

impl Default for Tcp {
    fn default() -> (r: Self)
        ensures
            r@ == default_tcp(),
    {
        let r = Tcp {
            sport: 0,
            dport: 0,
            seq: 0,
            ack: 0,
            offset: 5,
            flags: TcpFlags::new(),
            window: 0,
            checksum: 0,
            urgptr: 0,
            options: Vec::new(),
        };
        assert(r@.options =~= Seq::<SpecTcpOption>::empty());
        r
    }
}

impl Tcp {
    /// Construct a TCP header with the supplied ports and a full receive window.
    pub fn new(sport: u16, dport: u16) -> (r: Self)
        ensures
            r@ == (SpecTcp { sport, dport, window: 65535, ..default_tcp() }),
    {
        let d = Tcp::default();
        Tcp { sport, dport, window: 65535, ..d }
    }

    /// Set the source port.
    pub fn sport(self, sport: u16) -> (r: Self)
        ensures
            r@ == (SpecTcp { sport, ..self@ }),
    {
        Tcp { sport, ..self }
    }

    /// Set the destination port.
    pub fn dport(self, dport: u16) -> (r: Self)
        ensures
            r@ == (SpecTcp { dport, ..self@ }),
    {
        Tcp { dport, ..self }
    }

    /// Set the sequence number.
    pub fn seq(self, seq: u32) -> (r: Self)
        ensures
            r@ == (SpecTcp { seq, ..self@ }),
    {
        Tcp { seq, ..self }
    }

    /// Set the acknowledgment number.
    pub fn ack(self, ack: u32) -> (r: Self)
        ensures
            r@ == (SpecTcp { ack, ..self@ }),
    {
        Tcp { ack, ..self }
    }

    /// Set the TCP flags.
    pub fn flags(self, flags: TcpFlags) -> (r: Self)
        ensures
            r@ == (SpecTcp { flags, ..self@ }),
    {
        Tcp { flags, ..self }
    }

    /// Set the receive window.
    pub fn window(self, window: u16) -> (r: Self)
        ensures
            r@ == (SpecTcp { window, ..self@ }),
    {
        Tcp { window, ..self }
    }
}

impl PacketLayer for Tcp {
    open spec fn spec_parse(input: Seq<u8>) -> Result<(SpecTcp, nat), LayerError> {
        spec_parse_tcp(input)
    }

    open spec fn spec_to_bytes(v: SpecTcp) -> Result<Seq<u8>, LayerError> {
        spec_tcp_to_bytes(v)
    }

    open spec fn spec_finalize(v: SpecTcp, prev: Seq<SpecLayer>, next: Seq<SpecLayer>) -> (
        SpecTcp,
        Result<(), LayerError>,
    ) {
        // No layer of this crate is an IPv4 or IPv6 header, so no pseudo header applies.
        let payload = if prev.len() > 0 {
            Some(spec_layers_bytes(next))
        } else {
            None
        };
        spec_finalize(v, None, payload)
    }

    open spec fn spec_name() -> Seq<char> {
        "Tcp"@
    }

    /// Parse a TCP header from the front of `input`; returns the bytes after it and the header.
    fn parse(input: &[u8]) -> (r: Result<(&[u8], Tcp), LayerError>) {
        let len = input.len();
        if len < 20 {
            let bits: usize = if len < 4 {
                16
            } else if len < 12 {
                32
            } else if len == 12 {
                4
            } else if len == 13 {
                1
            } else {
                16
            };
            return Err(LayerError::Incomplete(bits));
        }
        let b12 = input[12];
        let b13 = input[13];
        let offset = b12 / 16;
        if offset < 5 {
            return Err(LayerError::InvalidTcpOffset);
        }
        let olen = ((offset - 5) as usize) * 4;
        let options = match parse_options_at(input, 20, olen) {
            Ok(v) => v,
            Err(e) => return Err(e),
        };
        proof {
            lemma_options_bytes_parse(input@.skip(20), olen as nat);
        }
        let flags = TcpFlags {
            reserved: (b12 / 2) % 8,
            nonce: b12 % 2,
            crw: b13 / 128,
            ecn: (b13 / 64) % 2,
            urgent: (b13 / 32) % 2,
            ack: (b13 / 16) % 2,
            push: (b13 / 8) % 2,
            reset: (b13 / 4) % 2,
            syn: (b13 / 2) % 2,
            fin: b13 % 2,
        };
        let tcp = Tcp {
            sport: read_u16(input, 0),
            dport: read_u16(input, 2),
            seq: read_u32(input, 4),
            ack: read_u32(input, 8),
            offset,
            flags,
            window: read_u16(input, 14),
            checksum: read_u16(input, 16),
            urgptr: read_u16(input, 18),
            options,
        };
        let end = 20 + olen;
        let rest = vstd::slice::slice_subrange(input, end, len);
        assert(rest@ =~= input@.skip(end as int));
        Ok((rest, tcp))
    }

    /// Serialize the header: the fixed part, then the options as they are.
    fn to_bytes(&self) -> (r: Result<Vec<u8>, LayerError>) {
        let f = self.flags;
        if !(self.offset < 16 && f.reserved < 8 && f.nonce < 2 && f.crw < 2 && f.ecn < 2
            && f.urgent < 2 && f.ack < 2 && f.push < 2 && f.reset < 2 && f.syn < 2 && f.fin < 2) {
            return Err(LayerError::FieldOverflow);
        }
        let mut out: Vec<u8> = Vec::new();
        push_u16(&mut out, self.sport);
        push_u16(&mut out, self.dport);
        push_u32(&mut out, self.seq);
        push_u32(&mut out, self.ack);
        out.push(self.offset * 16 + f.reserved * 2 + f.nonce);
        out.push(
            f.crw * 128 + f.ecn * 64 + f.urgent * 32 + f.ack * 16 + f.push * 8 + f.reset * 4
                + f.syn * 2 + f.fin,
        );
        push_u16(&mut out, self.window);
        push_u16(&mut out, self.checksum);
        push_u16(&mut out, self.urgptr);
        assert(out@ =~= fixed_header_bytes(self@));
        write_options(&self.options, &mut out);
        Ok(out)
    }

    fn finalize(&mut self, prev: &[Layer], next: &[Layer]) -> (r: Result<(), LayerError>) {
        if prev.len() > 0 {
            let payload = layers_to_bytes(next);
            match &payload {
                Ok(b) => self.finalize_core(None, Some(Ok(b.as_slice()))),
                Err(e) => self.finalize_core(None, Some(Err(*e))),
            }
        } else {
            self.finalize_core(None, None)
        }
    }

    fn name(&self) -> (r: &'static str) {
        proof {
            reveal_strlit("Tcp");
        }
        "Tcp"
    }
}

/// The fields of the network-layer header below a TCP segment that enter the TCP checksum.
#[derive(Debug, Clone, Copy, PartialEq, Eq, Structural)]
pub enum IpPseudoFields {
    /// IPv4 source, destination and protocol.
    V4 { src: u32, dst: u32, protocol: u8 },
    /// IPv6 source, destination and next header.
    V6 { src: u128, dst: u128, next_header: u8 },
}

/// Number of end-of-list options that bring a header of `len` bytes to a 32-bit boundary.
pub open spec fn pad_len(len: nat) -> nat {
    ((4 - len % 4) % 4) as nat
}

/// `n` end-of-list options.
pub open spec fn eol_padding(n: nat) -> Seq<SpecTcpOption> {
    Seq::new(n, |i: int| SpecTcpOption::EOL)
}

/// The header with its options padded with end-of-list options to a 32-bit boundary.
pub open spec fn padded(t: SpecTcp) -> SpecTcp {
    SpecTcp { options: t.options + eol_padding(pad_len(tcp_bytes(t).len())), ..t }
}

/// The header bytes with the checksum field cleared, as the checksum covers them.
pub open spec fn checksum_header_bytes(t: SpecTcp) -> Seq<u8> {
    tcp_bytes(t).update(16, 0).update(17, 0)
}

/// The pseudo header that the checksum of a segment of `tcp_length` bytes covers.
pub open spec fn pseudo_header(ip: IpPseudoFields, tcp_length: nat) -> Result<Seq<u8>, LayerError> {
    match ip {
        IpPseudoFields::V4 { src, dst, protocol } => if tcp_length > 0xffff {
            Err(LayerError::LengthOverflow)
        } else {
            Ok(be32(src) + be32(dst) + seq![0u8, protocol] + be16(tcp_length as u16))
        },
        IpPseudoFields::V6 { src, dst, next_header } => if tcp_length > 0xffff_ffff {
            Err(LayerError::LengthOverflow)
        } else {
            Ok(
                be128(src) + be128(dst) + be32(tcp_length as u32) + seq![
                    0u8,
                    0u8,
                    0u8,
                    next_header,
                ],
            )
        },
    }
}

/// Finalizing a header: what it becomes, and whether finalizing succeeded.
///
/// The options are padded to a 32-bit boundary; when there is a layer below (`payload` is
/// `Some`, holding the bytes of the layers above or the error met serializing them) and that
/// layer is IPv4 or IPv6 (`network`), the checksum is recomputed over pseudo header, header and
/// payload; last, the data offset is set to the header length in 32-bit words.
pub open spec fn spec_finalize(
    t: SpecTcp,
    network: Option<IpPseudoFields>,
    payload: Option<Result<Seq<u8>, LayerError>>,
) -> (SpecTcp, Result<(), LayerError>) {
    if !fields_fit(t) {
        (t, Err(LayerError::FieldOverflow))
    } else {
        let t1 = padded(t);
        let header = checksum_header_bytes(t1);
        let hl = header.len();
        let checked: Result<SpecTcp, LayerError> = match payload {
            None => Ok(t1),
            Some(Err(e)) => Err(e),
            Some(Ok(p)) => if hl + p.len() > usize::MAX {
                Err(LayerError::LengthOverflow)
            } else {
                match network {
                    None => Ok(t1),
                    Some(ip) => match pseudo_header(ip, hl + p.len()) {
                        Err(e) => Err(e),
                        Ok(ph) => Ok(SpecTcp { checksum: internet_checksum(ph + header + p), ..t1 }),
                    },
                }
            },
        };
        match checked {
            Err(e) => (t1, Err(e)),
            Ok(t2) => if hl / 4 > 255 {
                (t2, Err(LayerError::OffsetOverflow))
            } else {
                (SpecTcp { offset: (hl / 4) as u8, ..t2 }, Ok(()))
            },
        }
    }
}

proof fn lemma_eol_padding_bytes(n: nat)
    ensures
        options_bytes(eol_padding(n)).len() == n,
    decreases n,
{
    if n > 0 {
        assert(eol_padding(n).drop_first() =~= eol_padding((n - 1) as nat));
        lemma_eol_padding_bytes((n - 1) as nat);
    }
}

/// Finalizing leaves the header length a multiple of four bytes, given by the data offset.
pub proof fn lemma_finalize_aligns(
    t: SpecTcp,
    network: Option<IpPseudoFields>,
    payload: Option<Result<Seq<u8>, LayerError>>,
)
    requires
        spec_finalize(t, network, payload).1 is Ok,
    ensures
        ({
            let t2 = spec_finalize(t, network, payload).0;
            &&& tcp_bytes(t2).len() % 4 == 0
            &&& tcp_bytes(t2).len() == 4 * t2.offset
        }),
{
    let t1 = padded(t);
    let pad = pad_len(tcp_bytes(t).len());
    lemma_options_bytes_append(t.options, eol_padding(pad));
    lemma_eol_padding_bytes(pad);
    assert(tcp_bytes(t1).len() == tcp_bytes(t).len() + pad);
    assert(tcp_bytes(t1).len() % 4 == 0);
}

/// Finalizing is idempotent when no IPv4 or IPv6 layer is below: finalizing again a finalized
/// header whose data offset fits its four bits gives it back, whatever the bytes of the layers
/// above (as long as header and payload lengths add up within `usize`).
pub proof fn lemma_finalize_idempotent(
    t: SpecTcp,
    payload: Option<Result<Seq<u8>, LayerError>>,
    later: Option<Seq<u8>>,
)
    requires
        spec_finalize(t, None, payload).1 is Ok,
        spec_finalize(t, None, payload).0.offset < 16,
        later matches Some(b) ==> tcp_bytes(spec_finalize(t, None, payload).0).len() + b.len()
            <= usize::MAX,
    ensures
        ({
            let t2 = spec_finalize(t, None, payload).0;
            let p = match later {
                Some(b) => Some(Ok::<Seq<u8>, LayerError>(b)),
                None => None,
            };
            spec_finalize(t2, None, p) == (t2, Ok::<(), LayerError>(()))
        }),
{
    let t2 = spec_finalize(t, None, payload).0;
    lemma_finalize_aligns(t, None, payload);
    assert(eol_padding(pad_len(tcp_bytes(t2).len())) =~= Seq::<SpecTcpOption>::empty());
    assert(t2.options + Seq::<SpecTcpOption>::empty() =~= t2.options);
    assert(padded(t2) == t2);
    assert(checksum_header_bytes(t2).len() == tcp_bytes(t2).len());
    assert(tcp_bytes(t2).len() / 4 == t2.offset);
    assert(fields_fit(t2));
}

fn pseudo_header_bytes(ip: IpPseudoFields, tcp_length: usize) -> (r: Result<Vec<u8>, LayerError>)
    ensures
        match r {
            Ok(b) => pseudo_header(ip, tcp_length as nat) == Ok::<Seq<u8>, LayerError>(b@),
            Err(e) => pseudo_header(ip, tcp_length as nat) == Err::<Seq<u8>, LayerError>(e),
        },
{
    let mut out: Vec<u8> = Vec::new();
    match ip {
        IpPseudoFields::V4 { src, dst, protocol } => {
            if tcp_length > 0xffff {
                return Err(LayerError::LengthOverflow);
            }
            push_u32(&mut out, src);
            push_u32(&mut out, dst);
            out.push(0);
            out.push(protocol);
            push_u16(&mut out, tcp_length as u16);
            assert(out@ =~= be32(src) + be32(dst) + seq![0u8, protocol] + be16(tcp_length as u16));
        },
        IpPseudoFields::V6 { src, dst, next_header } => {
            if tcp_length > 0xffff_ffff {
                return Err(LayerError::LengthOverflow);
            }
            push_u128(&mut out, src);
            push_u128(&mut out, dst);
            push_u32(&mut out, tcp_length as u32);
            out.push(0);
            out.push(0);
            out.push(0);
            out.push(next_header);
            assert(out@ =~= be128(src) + be128(dst) + be32(tcp_length as u32) + seq![
                0u8,
                0u8,
                0u8,
                next_header,
            ]);
        },
    }
    Ok(out)
}

/// With a data offset already that of the padded header, the checksum that finalizing over an
/// IPv4 or IPv6 layer sets makes the segment check: the checksum over the pseudo header, the
/// finalized header and the payload is zero.
pub proof fn lemma_finalize_checksum_verifies(t: SpecTcp, ip: IpPseudoFields, payload: Seq<u8>)
    requires
        spec_finalize(t, Some(ip), Some(Ok(payload))).1 is Ok,
        t.offset * 4 == tcp_bytes(padded(t)).len(),
    ensures
        ({
            let t2 = spec_finalize(t, Some(ip), Some(Ok(payload))).0;
            let len = tcp_bytes(t2).len() + payload.len();
            &&& pseudo_header(ip, len) is Ok
            &&& internet_checksum(pseudo_header(ip, len)->Ok_0 + tcp_bytes(t2) + payload) == 0
        }),
{
    let t1 = padded(t);
    let header = checksum_header_bytes(t1);
    let hl = header.len();
    let ph = pseudo_header(ip, hl + payload.len())->Ok_0;
    let data = ph + header + payload;
    let c = internet_checksum(data);
    let t2 = spec_finalize(t, Some(ip), Some(Ok(payload))).0;
    assert(t2 == SpecTcp { checksum: c, ..t1 });
    lemma_header_with_checksum(t1, c);
    lemma_word_in_segment(ph, header, payload, tcp_bytes(t2), c);
}

/// Writing a checksum into the header bytes gives the bytes of the header with that checksum.
proof fn lemma_header_with_checksum(t1: SpecTcp, c: u16)
    ensures
        tcp_bytes(SpecTcp { checksum: c, ..t1 }) =~= checksum_header_bytes(t1).update(
            16,
            (c / 256) as u8,
        ).update(17, (c % 256) as u8),
{
}

/// The checksum word of a segment sits at an even offset, so writing the checksum of the
/// segment there makes it check.
proof fn lemma_word_in_segment(ph: Seq<u8>, header: Seq<u8>, payload: Seq<u8>, filled: Seq<u8>, c: u16)
    requires
        ph.len() == 12 || ph.len() == 40,
        header.len() >= 20,
        header[16] == 0 && header[17] == 0,
        c == internet_checksum(ph + header + payload),
        filled == header.update(16, (c / 256) as u8).update(17, (c % 256) as u8),
    ensures
        internet_checksum(ph + filled + payload) == 0,
{
    let data = ph + header + payload;
    let k: int = (ph.len() + 16) as int / 2;
    assert(2 * k == ph.len() + 16);
    assert(data[2 * k] == 0 && data[2 * k + 1] == 0);
    lemma_checksum_fills_zero_word(data, k);
    assert(with_word(data, k, c) =~= ph + filled + payload);
}

impl Tcp {
    /// Finalize the header: pad the options to a 32-bit boundary, recompute the checksum when
    /// the layer below is IPv4 or IPv6, and set the data offset.
    ///
    /// `payload` is `Some` exactly when there is a layer below, and then holds the bytes of the
    /// layers above; `network` describes the layer below when it is IPv4 or IPv6.
    pub fn finalize_for(
        &mut self,
        network: Option<IpPseudoFields>,
        payload: Option<&[u8]>,
    ) -> (r: Result<(), LayerError>)
        ensures
            ({
                let p = match payload {
                    Some(p) => Some(Ok::<Seq<u8>, LayerError>(p@)),
                    None => None,
                };
                let (t, res) = spec_finalize(old(self)@, network, p);
                final(self)@ == t && r == res
            }),
    {
        let p = match payload {
            Some(p) => Some(Ok(p)),
            None => None,
        };
        self.finalize_core(network, p)
    }

    pub(crate) fn finalize_core(
        &mut self,
        network: Option<IpPseudoFields>,
        payload: Option<Result<&[u8], LayerError>>,
    ) -> (r: Result<(), LayerError>)
        ensures
            ({
                let p = match payload {
                    Some(Ok(p)) => Some(Ok::<Seq<u8>, LayerError>(p@)),
                    Some(Err(e)) => Some(Err::<Seq<u8>, LayerError>(e)),
                    None => None,
                };
                let (t, res) = spec_finalize(old(self)@, network, p);
                final(self)@ == t && r == res
            }),
    {
        let first = match self.to_bytes() {
            Ok(b) => b,
            Err(e) => return Err(e),
        };
        let pad = (4 - first.len() % 4) % 4;
        let ghost start = self.options@;
        let mut i: usize = 0;
        while i < pad
            invariant
                i <= pad,
                self.options@.len() == start.len() + i,
                options_view(self.options@) =~= options_view(start) + eol_padding(i as nat),
                self@ == (SpecTcp { options: options_view(self.options@), ..old(self)@ }),
            decreases pad - i,
        {
            let ghost before = self.options@;
            self.options.push(TcpOption::EOL);
            i = i + 1;
            assert(options_view(self.options@) =~= options_view(before).push(SpecTcpOption::EOL));
            assert(options_view(self.options@) =~= options_view(start) + eol_padding(i as nat));
        }
        assert(self@ == padded(old(self)@));
        let mut header = match self.to_bytes() {
            Ok(b) => b,
            Err(e) => return Err(e),
        };
        proof {
            lemma_options_bytes_append(old(self)@.options, eol_padding(pad as nat));
            lemma_eol_padding_bytes(pad as nat);
        }
        header.set(16, 0);
        header.set(17, 0);
        let hl = header.len();
        assert(header@ == checksum_header_bytes(self@));
        match payload {
            None => {},
            Some(Err(e)) => return Err(e),
            Some(Ok(payload)) => {
                let tcp_length = match hl.checked_add(payload.len()) {
                    Some(v) => v,
                    None => return Err(LayerError::LengthOverflow),
                };
                if let Some(ip) = network {
                    let mut data = match pseudo_header_bytes(ip, tcp_length) {
                        Ok(b) => b,
                        Err(e) => return Err(e),
                    };
                    let ghost ph = data@;
                    let mut h2 = header;
                    data.append(&mut h2);
                    let mut tail = vstd::slice::slice_to_vec(payload);
                    data.append(&mut tail);
                    self.checksum = checksum(data.as_slice());
                    assert(data@ == ph + checksum_header_bytes(padded(old(self)@)) + payload@);
                }
            },
        }
        if hl / 4 > 255 {
            return Err(LayerError::OffsetOverflow);
        }
        self.offset = (hl / 4) as u8;
        Ok(())
    }
}

} // verus!
