//! Ethernet II layer.
use crate::layer::bytes::{be16, get_u16, lemma_be16_get_u16, lemma_get_u16_be16, push_u16, read_u16};
use crate::layer::{Layer, LayerError, PacketLayer, SpecLayer};
use crate::text::{lemma_split_char_append, lemma_split_char_nonempty, lemma_split_char_plain, split_char};
use vstd::prelude::*;

verus! {

/// An Ethernet MAC address.
#[derive(Debug, Clone, Copy, PartialEq, Eq)]
pub struct MacAddress(pub [u8; 6]);

/// A MAC address could not be read from text.
#[derive(Debug, Clone, Copy, PartialEq, Eq, Structural)]
pub struct MacAddressParseError;

impl Default for MacAddress {
    fn default() -> (r: Self)
        ensures
            r.0@ == seq![0u8, 0u8, 0u8, 0u8, 0u8, 0u8],
    {
        let r = MacAddress([0u8; 6]);
        assert(r.0@ =~= seq![0u8, 0u8, 0u8, 0u8, 0u8, 0u8]);
        r
    }
}

impl MacAddress {
    /// Construct a MAC address from its six octets.
    pub fn new(octets: [u8; 6]) -> (r: Self)
        ensures
            r.0 == octets,
    {
        MacAddress(octets)
    }

    /// Return the address as six octets.
    pub fn octets(&self) -> (r: [u8; 6])
        ensures
            r == self.0,
    {
        self.0
    }
}

/// The value of a hexadecimal digit.
pub open spec fn hex_value(c: char) -> Option<u8> {
    if '0' <= c && c <= '9' {
        Some((c as u32 - '0' as u32) as u8)
    } else if 'a' <= c && c <= 'f' {
        Some((c as u32 - 'a' as u32 + 10) as u8)
    } else if 'A' <= c && c <= 'F' {
        Some((c as u32 - 'A' as u32 + 10) as u8)
    } else {
        None
    }
}

/// The octet written by one colon-separated piece of a MAC address: one or two hexadecimal
/// digits.
pub open spec fn piece_value(p: Seq<char>) -> Option<u8> {
    if p.len() == 1 {
        hex_value(p[0])
    } else if p.len() == 2 {
        match (hex_value(p[0]), hex_value(p[1])) {
            (Some(h), Some(l)) => Some((h * 16 + l) as u8),
            _ => None,
        }
    } else {
        None
    }
}

/// Reading a MAC address from text: six colon-separated pieces, each a valid octet.
pub open spec fn spec_parse_mac(s: Seq<char>) -> Option<MacAddress> {
    let p = split_char(s, ':');
    if p.len() == 6 && (forall|i: int| 0 <= i < 6 ==> (#[trigger] piece_value(p[i])) is Some) {
        Some(
            MacAddress(
                [
                    piece_value(p[0])->Some_0,
                    piece_value(p[1])->Some_0,
                    piece_value(p[2])->Some_0,
                    piece_value(p[3])->Some_0,
                    piece_value(p[4])->Some_0,
                    piece_value(p[5])->Some_0,
                ],
            ),
        )
    } else {
        None
    }
}

/// The lower-case hexadecimal digit of a value below 16.
pub open spec fn hex_char(n: u8) -> char {
    if n < 10 {
        (n + '0' as u32) as char
    } else {
        (n - 10 + 'a' as u32) as char
    }
}

/// Two lower-case hexadecimal digits of an octet.
pub open spec fn octet_text(b: u8) -> Seq<char> {
    seq![hex_char(b / 16), hex_char(b % 16)]
}

/// The text of a MAC address: six two-digit octets separated by colons.
pub open spec fn mac_text(m: MacAddress) -> Seq<char> {
    octet_text(m.0[0]) + seq![':'] + octet_text(m.0[1]) + seq![':'] + octet_text(m.0[2]) + seq![':']
        + octet_text(m.0[3]) + seq![':'] + octet_text(m.0[4]) + seq![':'] + octet_text(m.0[5])
}

proof fn lemma_octet_text(b: u8)
    ensures
        piece_value(octet_text(b)) == Some(b),
        octet_text(b)[0] != ':' && octet_text(b)[1] != ':',
        octet_text(b).len() == 2,
{
    let h = (b / 16) as u8;
    let l = (b % 16) as u8;
    assert(h < 16 && l < 16);
    assert(hex_value(hex_char(h)) == Some(h));
    assert(hex_value(hex_char(l)) == Some(l));
}

/// Reading back the text of a MAC address gives the address.
pub proof fn lemma_mac_text_roundtrip(m: MacAddress)
    ensures
        spec_parse_mac(mac_text(m)) == Some(m),
{
    let o = m.0;
    lemma_octet_text(o[0]);
    lemma_octet_text(o[1]);
    lemma_octet_text(o[2]);
    lemma_octet_text(o[3]);
    lemma_octet_text(o[4]);
    lemma_octet_text(o[5]);
    let t0 = octet_text(o[0]);
    let t1 = t0 + seq![':'] + octet_text(o[1]);
    let t2 = t1 + seq![':'] + octet_text(o[2]);
    let t3 = t2 + seq![':'] + octet_text(o[3]);
    let t4 = t3 + seq![':'] + octet_text(o[4]);
    let t5 = t4 + seq![':'] + octet_text(o[5]);
    assert(t5 =~= mac_text(m));
    lemma_split_char_plain(t0, ':');
    lemma_split_char_append(t0, octet_text(o[1]), ':');
    lemma_split_char_append(t1, octet_text(o[2]), ':');
    lemma_split_char_append(t2, octet_text(o[3]), ':');
    lemma_split_char_append(t3, octet_text(o[4]), ':');
    lemma_split_char_append(t4, octet_text(o[5]), ':');
    let p = split_char(t5, ':');
    assert(p =~= seq![
        octet_text(o[0]),
        octet_text(o[1]),
        octet_text(o[2]),
        octet_text(o[3]),
        octet_text(o[4]),
        octet_text(o[5]),
    ]);
    assert(spec_parse_mac(t5)->Some_0.0 =~= o);
}

fn hex_value_of(c: char) -> (r: Option<u8>)
    ensures
        r == hex_value(c),
{
    if '0' <= c && c <= '9' {
        Some((c as u32 - '0' as u32) as u8)
    } else if 'a' <= c && c <= 'f' {
        Some((c as u32 - 'a' as u32 + 10) as u8)
    } else if 'A' <= c && c <= 'F' {
        Some((c as u32 - 'A' as u32 + 10) as u8)
    } else {
        None
    }
}

fn piece_value_of(p: &Vec<char>) -> (r: Option<u8>)
    ensures
        r == piece_value(p@),
{
    if p.len() == 1 {
        hex_value_of(p[0])
    } else if p.len() == 2 {
        match (hex_value_of(p[0]), hex_value_of(p[1])) {
            (Some(h), Some(l)) => Some(h * 16 + l),
            _ => None,
        }
    } else {
        None
    }
}

fn hex_digit_str(n: u8) -> (r: &'static str)
    requires
        n < 16,
    ensures
        r@ == seq![hex_char(n)],
{
    proof {
        reveal_strlit("0");
        reveal_strlit("1");
        reveal_strlit("2");
        reveal_strlit("3");
        reveal_strlit("4");
        reveal_strlit("5");
        reveal_strlit("6");
        reveal_strlit("7");
        reveal_strlit("8");
        reveal_strlit("9");
        reveal_strlit("a");
        reveal_strlit("b");
        reveal_strlit("c");
        reveal_strlit("d");
        reveal_strlit("e");
        reveal_strlit("f");
    }
    let r = match n {
        0 => "0",
        1 => "1",
        2 => "2",
        3 => "3",
        4 => "4",
        5 => "5",
        6 => "6",
        7 => "7",
        8 => "8",
        9 => "9",
        10 => "a",
        11 => "b",
        12 => "c",
        13 => "d",
        14 => "e",
        _ => "f",
    };
    assert(r@ =~= seq![hex_char(n)]);
    r
}

impl MacAddress {
    /// Read a MAC address from six colon-separated hexadecimal octets.
    pub fn parse_str(value: &str) -> (r: Result<MacAddress, MacAddressParseError>)
        ensures
            match r {
                Ok(m) => spec_parse_mac(value@) == Some(m),
                Err(_) => spec_parse_mac(value@) is None,
            },
    {
        let n = value.unicode_len();
        let mut done: Vec<Vec<char>> = Vec::new();
        let mut current: Vec<char> = Vec::new();
        let mut i: usize = 0;
        while i < n
            invariant
                n == value@.len(),
                i <= n,
                done@.map_values(|p: Vec<char>| p@).push(current@) == split_char(
                    value@.take(i as int),
                    ':',
                ),
            decreases n - i,
        {
            let c = value.get_char(i);
            let ghost before = done@.map_values(|p: Vec<char>| p@).push(current@);
            proof {
                assert(value@.take(i + 1).drop_last() =~= value@.take(i as int));
                lemma_split_char_nonempty(value@.take(i as int), ':');
            }
            if c == ':' {
                let finished = current;
                done.push(finished);
                current = Vec::new();
                assert(done@.map_values(|p: Vec<char>| p@).push(current@) =~= before.push(
                    Seq::empty(),
                ));
            } else {
                let ghost old_cur = current@;
                current.push(c);
                assert(done@.map_values(|p: Vec<char>| p@).push(current@) =~= before.update(
                    before.len() - 1,
                    before.last().push(c),
                ));
            }
            i = i + 1;
        }
        assert(value@.take(n as int) =~= value@);
        done.push(current);
        let ghost pieces = done@.map_values(|p: Vec<char>| p@);
        assert(pieces =~= split_char(value@, ':'));
        if done.len() != 6 {
            return Err(MacAddressParseError);
        }
        let mut octets = [0u8; 6];
        let mut k: usize = 0;
        while k < 6
            invariant
                k <= 6,
                done@.len() == 6,
                pieces == done@.map_values(|p: Vec<char>| p@),
                pieces == split_char(value@, ':'),
                forall|j: int| 0 <= j < k ==> piece_value(#[trigger] pieces[j]) == Some(octets[j]),
            decreases 6 - k,
        {
            match piece_value_of(&done[k]) {
                Some(v) => {
                    assert(pieces[k as int] == done@[k as int]@);
                    octets[k] = v;
                },
                None => {
                    assert(pieces[k as int] == done@[k as int]@);
                    assert(piece_value(pieces[k as int]) is None);
                    return Err(MacAddressParseError);
                },
            }
            k = k + 1;
        }
        let m = MacAddress(octets);
        assert(spec_parse_mac(value@)->Some_0.0 =~= m.0);
        Ok(m)
    }

    /// The address as text: six two-digit lower-case hexadecimal octets separated by colons.
    pub fn to_string(&self) -> (r: String)
        ensures
            r@ == mac_text(*self),
    {
        let mut out = String::new();
        let mut k: usize = 0;
        while k < 6
            invariant
                k <= 6,
                k == 0 ==> out@ == Seq::<char>::empty(),
                k > 0 ==> out@ == mac_text_prefix(*self, k as int),
            decreases 6 - k,
        {
            let ghost before = out@;
            proof {
                reveal_strlit(":");
            }
            if k != 0 {
                out.append(":");
            }
            let b = self.0[k];
            let hi = hex_digit_str(b / 16);
            let lo = hex_digit_str(b % 16);
            out.append(hi);
            out.append(lo);
            proof {
                assert(octet_text(b) =~= hi@ + lo@);
                if k == 0 {
                    assert(out@ =~= octet_text(self.0[0]));
                } else {
                    assert(out@ =~= before + seq![':'] + octet_text(self.0[k as int]));
                }
            }
            k = k + 1;
        }
        assert(mac_text_prefix(*self, 6) =~= mac_text(*self)) by {
            reveal_with_fuel(mac_text_prefix, 6);
        }
        out
    }
}

/// The text of the first `k` octets of an address.
pub open spec fn mac_text_prefix(m: MacAddress, k: int) -> Seq<char>
    decreases k,
{
    if k <= 1 {
        octet_text(m.0[0])
    } else {
        mac_text_prefix(m, k - 1) + seq![':'] + octet_text(m.0[k - 1])
    }
}

impl core::str::FromStr for MacAddress {
    type Err = MacAddressParseError;

    fn from_str(value: &str) -> (r: Result<MacAddress, MacAddressParseError>)
        ensures
            match r {
                Ok(m) => spec_parse_mac(value@) == Some(m),
                Err(_) => spec_parse_mac(value@) is None,
            },
    {
        MacAddress::parse_str(value)
    }
}

impl From<[u8; 6]> for MacAddress {
    fn from(octets: [u8; 6]) -> (r: MacAddress) {
        MacAddress::new(octets)
    }
}

impl vstd::std_specs::convert::FromSpecImpl<[u8; 6]> for MacAddress {
    open spec fn obeys_from_spec() -> bool {
        true
    }

    open spec fn from_spec(v: [u8; 6]) -> MacAddress {
        MacAddress(v)
    }
}

/// The protocol carried by an Ethernet frame.
#[derive(Debug, Clone, Copy, PartialEq, Eq, Structural)]
pub enum EtherType {
    /// Internet Protocol version 4 (0x0800).
    IPv4,
    /// Internet Protocol version 6 (0x86DD).
    IPv6,
    /// Any other value.
    Unknown(u16),
}

/// The 16-bit value of an ether type on the wire.
pub open spec fn ether_type_value(t: EtherType) -> u16 {
    match t {
        EtherType::IPv4 => 0x0800,
        EtherType::IPv6 => 0x86dd,
        EtherType::Unknown(v) => v,
    }
}

impl EtherType {
    /// The 16-bit wire value of the ether type.
    pub fn value(&self) -> (r: u16)
        ensures
            r == ether_type_value(*self),
    {
        match self {
            EtherType::IPv4 => 0x0800,
            EtherType::IPv6 => 0x86dd,
            EtherType::Unknown(v) => *v,
        }
    }
}

/// The ether type that a 16-bit wire value denotes.
pub open spec fn ether_type_of(v: u16) -> EtherType {
    if v == 0x0800 {
        EtherType::IPv4
    } else if v == 0x86dd {
        EtherType::IPv6
    } else {
        EtherType::Unknown(v)
    }
}

/// An Ethernet II header: destination, source and ether type.
#[derive(Debug, Clone, Copy, PartialEq, Eq)]
pub struct Ether {
    pub dst: MacAddress,
    pub src: MacAddress,
    pub ether_type: EtherType,
}

/// The wire bytes of an Ethernet header.
pub open spec fn ether_bytes(e: Ether) -> Seq<u8> {
    e.dst.0@ + e.src.0@ + be16(ether_type_value(e.ether_type))
}

/// An Ethernet header whose ether type is written in its canonical form.
pub open spec fn ether_wf(e: Ether) -> bool {
    match e.ether_type {
        EtherType::Unknown(v) => v != 0x0800 && v != 0x86dd,
        _ => true,
    }
}

/// The six bytes at offset `i` of `s`, as an address.
pub open spec fn mac_at(s: Seq<u8>, i: int) -> MacAddress {
    MacAddress([s[i], s[i + 1], s[i + 2], s[i + 3], s[i + 4], s[i + 5]])
}

/// Parse an Ethernet header from the front of `s`.
pub open spec fn spec_parse_ether(s: Seq<u8>) -> Result<(Ether, nat), LayerError> {
    if s.len() < 12 {
        Err(LayerError::Incomplete(8))
    } else if s.len() < 14 {
        Err(LayerError::Incomplete(16))
    } else {
        Ok(
            (
                Ether {
                    dst: mac_at(s, 0),
                    src: mac_at(s, 6),
                    ether_type: ether_type_of(get_u16(s, 12)),
                },
                14,
            ),
        )
    }
}

proof fn lemma_mac_at(m: MacAddress, s: Seq<u8>, i: int)
    requires
        0 <= i,
        i + 6 <= s.len(),
        s.subrange(i, i + 6) == m.0@,
    ensures
        mac_at(s, i) == m,
{
    assert(s.subrange(i, i + 6)[0] == s[i]);
    assert(s.subrange(i, i + 6)[5] == s[i + 5]);
    assert(mac_at(s, i).0 =~= m.0);
}

/// Symmetric serialization: a well-formed header, followed by anything, parses back to itself.
pub proof fn lemma_ether_serialize_parse(e: Ether, rest: Seq<u8>)
    requires
        ether_wf(e),
    ensures
        spec_parse_ether(ether_bytes(e) + rest) == Ok::<(Ether, nat), LayerError>((e, 14)),
{
    let s = ether_bytes(e) + rest;
    assert(s.subrange(0, 6) =~= e.dst.0@);
    assert(s.subrange(6, 12) =~= e.src.0@);
    assert(s.subrange(12, 14) =~= be16(ether_type_value(e.ether_type)));
    lemma_mac_at(e.dst, s, 0);
    lemma_mac_at(e.src, s, 6);
    lemma_get_u16_be16(ether_type_value(e.ether_type), s, 12);
}

/// Symmetric serialization: a parsed header serializes to the bytes it was parsed from.
pub proof fn lemma_ether_parse_serialize(s: Seq<u8>)
    requires
        spec_parse_ether(s) is Ok,
    ensures
        ether_wf(spec_parse_ether(s)->Ok_0.0),
        ether_bytes(spec_parse_ether(s)->Ok_0.0) == s.subrange(0, 14),
{
    let e = spec_parse_ether(s)->Ok_0.0;
    lemma_be16_get_u16(s, 12);
    assert(ether_type_value(e.ether_type) == get_u16(s, 12));
    assert(ether_bytes(e) =~= s.subrange(0, 14));
}

impl Default for Ether {
    fn default() -> (r: Self)
        ensures
            r.dst.0@ == seq![0u8, 0u8, 0u8, 0u8, 0u8, 0u8],
            r.src.0@ == seq![0u8, 0u8, 0u8, 0u8, 0u8, 0u8],
            r.ether_type == EtherType::IPv4,
    {
        Ether { dst: MacAddress::default(), src: MacAddress::default(), ether_type: EtherType::IPv4 }
    }
}

fn read_mac(s: &[u8], i: usize) -> (r: MacAddress)
    requires
        i + 6 <= s.len(),
    ensures
        r == mac_at(s@, i as int),
{
    MacAddress([s[i], s[i + 1], s[i + 2], s[i + 3], s[i + 4], s[i + 5]])
}

fn push_mac(out: &mut Vec<u8>, m: &MacAddress)
    ensures
        final(out)@ == old(out)@ + m.0@,
{
    let mut i: usize = 0;
    let ghost head = out@;
    while i < 6
        invariant
            i <= 6,
            out@ == head + m.0@.take(i as int),
        decreases 6 - i,
    {
        out.push(m.0[i]);
        i = i + 1;
        assert(out@ =~= head + m.0@.take(i as int));
    }
    assert(m.0@.take(6) =~= m.0@);
}

impl Ether {
    /// Construct an IPv4 Ethernet header from source and destination addresses.
    pub fn new(src: MacAddress, dst: MacAddress) -> (r: Self)
        ensures
            r == (Ether { dst, src, ether_type: EtherType::IPv4 }),
    {
        Ether { dst, src, ether_type: EtherType::IPv4 }
    }
}


impl View for Ether {
    type V = Ether;

    open spec fn view(&self) -> Ether {
        *self
    }
}

impl PacketLayer for Ether {
    open spec fn spec_parse(input: Seq<u8>) -> Result<(Ether, nat), LayerError> {
        spec_parse_ether(input)
    }

    open spec fn spec_to_bytes(v: Ether) -> Result<Seq<u8>, LayerError> {
        Ok(ether_bytes(v))
    }

    open spec fn spec_finalize(v: Ether, prev: Seq<SpecLayer>, next: Seq<SpecLayer>) -> (
        Ether,
        Result<(), LayerError>,
    ) {
        (v, Ok(()))
    }

    open spec fn spec_name() -> Seq<char> {
        "Ether"@
    }

    /// Parse an Ethernet header from the front of `input`; returns the bytes after it and the
    /// header.
    fn parse(input: &[u8]) -> (r: Result<(&[u8], Ether), LayerError>)
    {
        let len = input.len();
        if len < 12 {
            return Err(LayerError::Incomplete(8));
        }
        if len < 14 {
            return Err(LayerError::Incomplete(16));
        }
        let dst = read_mac(input, 0);
        let src = read_mac(input, 6);
        let v = read_u16(input, 12);
        let ether_type = if v == 0x0800 {
            EtherType::IPv4
        } else if v == 0x86dd {
            EtherType::IPv6
        } else {
            EtherType::Unknown(v)
        };
        let rest = vstd::slice::slice_subrange(input, 14, len);
        assert(rest@ =~= input@.skip(14));
        Ok((rest, Ether { dst, src, ether_type }))
    }

    /// Serialize the header.
    fn to_bytes(&self) -> (r: Result<Vec<u8>, LayerError>)
    {
        let mut out: Vec<u8> = Vec::new();
        push_mac(&mut out, &self.dst);
        push_mac(&mut out, &self.src);
        let v: u16 = match self.ether_type {
            EtherType::IPv4 => 0x0800,
            EtherType::IPv6 => 0x86dd,
            EtherType::Unknown(v) => v,
        };
        push_u16(&mut out, v);
        Ok(out)
    }

    /// Nothing in an Ethernet header depends on the other layers.
    fn finalize(&mut self, prev: &[Layer], next: &[Layer]) -> (r: Result<(), LayerError>) {
        Ok(())
    }

    fn name(&self) -> (r: &'static str) {
        proof {
            reveal_strlit("Ether");
        }
        "Ether"
    }
}

} // verus!
