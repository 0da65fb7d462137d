//! Nata: parsing, inspecting, constructing and writing network packets.
//!
//! A [`packet::Packet`] is an ordered collection of protocol layers. Layers are parsed from
//! bytes and serialized back to the same bytes; a [`packet::PacketParser`] decides which layer
//! follows which through layer bindings.
//!
//! [`datalink`] reads and writes packets over interfaces and capture files; [`tshark`] holds
//! the logic of comparing parsed packets with TShark's JSON output.
pub mod layer;
pub mod packet;
pub mod datalink;
pub mod text;
pub mod tshark;

use layer::LayerKind;
use packet::parser::{default_bindings, spec_parse, spec_parse_partial};
use packet::{Packet, PacketError, PacketParser};
use vstd::prelude::*;

verus! {

/// Parse an Ethernet packet with the default layer bindings; the whole input must be used.
pub fn parse(input: &[u8]) -> (r: Result<Packet, PacketError>)
    ensures
        match r {
            Ok(p) => spec_parse(default_bindings(), LayerKind::Ether, input@) == Ok::<
                Seq<layer::SpecLayer>,
                PacketError,
            >(p@),
            Err(e) => spec_parse(default_bindings(), LayerKind::Ether, input@) == Err::<
                Seq<layer::SpecLayer>,
                PacketError,
            >(e),
        },
{
    PacketParser::new().parse(LayerKind::Ether, input)
}

/// Parse an Ethernet packet with the default layer bindings, returning any unparsed trailing
/// bytes.
pub fn parse_partial(input: &[u8]) -> (r: Result<(&[u8], Packet), PacketError>)
    ensures
        match r {
            Ok((rest, p)) => spec_parse_partial(default_bindings(), LayerKind::Ether, input@)
                == Ok::<(Seq<layer::SpecLayer>, Seq<u8>), PacketError>((p@, rest@)),
            Err(e) => spec_parse_partial(default_bindings(), LayerKind::Ether, input@) == Err::<
                (Seq<layer::SpecLayer>, Seq<u8>),
                PacketError,
            >(e),
        },
{
    PacketParser::new().parse_partial(LayerKind::Ether, input)
}

} // verus!
