//! Decisions taken while reading and writing capture files (PCAP and PCAPNG).
//!
//! The file reading itself is done by the caller; this module decides, for each block a
//! capture yields, which packet record it stands for, and how a record is parsed.
use crate::layer::LayerKind;
use crate::layer::SpecLayer;
use crate::packet::parser::{spec_parse_partial, Binding};
use crate::packet::{Packet, PacketError, PacketParser};
use vstd::prelude::*;

verus! {

/// The link type number of Ethernet captures.
pub const LINKTYPE_ETHERNET: u32 = 1;

/// A packet record read from a capture.
#[derive(Debug, Clone, PartialEq, Eq)]
pub struct CapturePacket {
    /// The link-layer type of the packet.
    pub link_type: u32,
    /// The original packet length before capture truncation.
    pub original_len: u32,
    /// The captured packet bytes.
    pub data: Vec<u8>,
}

/// The mathematical value of a [`CapturePacket`].
pub struct SpecCapturePacket {
    pub link_type: u32,
    pub original_len: u32,
    pub data: Seq<u8>,
}

impl View for CapturePacket {
    type V = SpecCapturePacket;

    open spec fn view(&self) -> SpecCapturePacket {
        SpecCapturePacket { link_type: self.link_type, original_len: self.original_len, data: self.data@ }
    }
}

/// What packet records read of an interface described in a PCAPNG capture.
#[derive(Debug, Clone, Copy, PartialEq, Eq, Structural)]
pub struct CaptureInterface {
    /// The link-layer type of the interface.
    pub link_type: u32,
    /// The most bytes captured of a packet; zero for no limit.
    pub snaplen: u32,
}

/// A PCAPNG block, as far as reading packet records depends on it.
#[derive(Debug, Clone, PartialEq, Eq)]
pub enum CaptureBlock {
    /// An enhanced packet block.
    EnhancedPacket { interface_id: u32, original_len: u32, data: Vec<u8> },
    /// An obsolete packet block.
    Packet { interface_id: u16, original_len: u32, data: Vec<u8> },
    /// A simple packet block, which belongs to the first interface.
    SimplePacket { original_len: u32, data: Vec<u8> },
    /// Any block that holds no packet.
    Other,
}

/// Why a block could not be read as a packet record.
#[derive(Debug, Clone, Copy, PartialEq, Eq, Structural)]
pub enum CaptureBlockError {
    /// The packet refers to an interface that no description block announced.
    MissingInterface(u32),
    /// A simple packet appears before any interface description.
    NoInterfaceDescription,
    /// A simple packet holds fewer bytes than its captured length.
    ShorterThanCaptured(u32),
}

/// The number of bytes captured of a simple packet.
pub open spec fn captured_len(snaplen: u32, original_len: u32) -> u32 {
    if snaplen == 0 {
        original_len
    } else if snaplen < original_len {
        snaplen
    } else {
        original_len
    }
}

/// The packet record that a block stands for, `None` for a block that holds no packet.
pub open spec fn spec_capture_from_block(b: CaptureBlock, interfaces: Seq<CaptureInterface>) -> Result<
    Option<SpecCapturePacket>,
    CaptureBlockError,
> {
    match b {
        CaptureBlock::EnhancedPacket { interface_id, original_len, data } => if interface_id
            < interfaces.len() {
            Ok(
                Some(
                    SpecCapturePacket {
                        link_type: interfaces[interface_id as int].link_type,
                        original_len,
                        data: data@,
                    },
                ),
            )
        } else {
            Err(CaptureBlockError::MissingInterface(interface_id))
        },
        CaptureBlock::Packet { interface_id, original_len, data } => if interface_id
            < interfaces.len() {
            Ok(
                Some(
                    SpecCapturePacket {
                        link_type: interfaces[interface_id as int].link_type,
                        original_len,
                        data: data@,
                    },
                ),
            )
        } else {
            Err(CaptureBlockError::MissingInterface(interface_id as u32))
        },
        CaptureBlock::SimplePacket { original_len, data } => if interfaces.len() == 0 {
            Err(CaptureBlockError::NoInterfaceDescription)
        } else {
            let c = captured_len(interfaces[0].snaplen, original_len);
            if data@.len() < c {
                Err(CaptureBlockError::ShorterThanCaptured(c))
            } else {
                Ok(
                    Some(
                        SpecCapturePacket {
                            link_type: interfaces[0].link_type,
                            original_len,
                            data: data@.take(c as int),
                        },
                    ),
                )
            }
        },
        CaptureBlock::Other => Ok(None),
    }
}

/// A packet block (enhanced or obsolete) that names an announced interface stands for a record
/// with that interface's link type, its own original length and all of its data; the other
/// interfaces play no part. One that names an unannounced interface is refused.
pub proof fn lemma_packet_block_takes_its_interface(
    b: CaptureBlock,
    interfaces: Seq<CaptureInterface>,
    others: Seq<CaptureInterface>,
)
    requires
        b is EnhancedPacket || b is Packet,
    ensures
        ({
            let (id, original_len, data) = match b {
                CaptureBlock::EnhancedPacket { interface_id, original_len, data } => (
                    interface_id as int,
                    original_len,
                    data@,
                ),
                CaptureBlock::Packet { interface_id, original_len, data } => (
                    interface_id as int,
                    original_len,
                    data@,
                ),
                _ => (0, 0, Seq::empty()),
            };
            &&& id < interfaces.len() ==> (spec_capture_from_block(b, interfaces) matches Ok(Some(c))
                && c.link_type == interfaces[id].link_type && c.original_len == original_len
                && c.data == data)
            &&& id >= interfaces.len() ==> spec_capture_from_block(b, interfaces) == Err::<
                Option<SpecCapturePacket>,
                CaptureBlockError,
            >(CaptureBlockError::MissingInterface(id as u32))
            &&& id < interfaces.len() && id < others.len() && others[id] == interfaces[id]
                ==> spec_capture_from_block(b, others) == spec_capture_from_block(b, interfaces)
        }),
{
}

/// The packet record that a PCAPNG block stands for, or `None` for a block that holds no packet.
pub fn capture_from_block(block: CaptureBlock, interfaces: &[CaptureInterface]) -> (r: Result<
    Option<CapturePacket>,
    CaptureBlockError,
>)
    ensures
        match r {
            Ok(Some(p)) => spec_capture_from_block(block, interfaces@) == Ok::<
                Option<SpecCapturePacket>,
                CaptureBlockError,
            >(Some(p@)),
            Ok(None) => spec_capture_from_block(block, interfaces@) == Ok::<
                Option<SpecCapturePacket>,
                CaptureBlockError,
            >(None),
            Err(e) => spec_capture_from_block(block, interfaces@) == Err::<
                Option<SpecCapturePacket>,
                CaptureBlockError,
            >(e),
        },
{
    match block {
        CaptureBlock::EnhancedPacket { interface_id, original_len, data } => {
            if (interface_id as usize) < interfaces.len() {
                let link_type = interfaces[interface_id as usize].link_type;
                Ok(Some(CapturePacket { link_type, original_len, data }))
            } else {
                Err(CaptureBlockError::MissingInterface(interface_id))
            }
        },
        CaptureBlock::Packet { interface_id, original_len, data } => {
            if (interface_id as usize) < interfaces.len() {
                let link_type = interfaces[interface_id as usize].link_type;
                Ok(Some(CapturePacket { link_type, original_len, data }))
            } else {
                Err(CaptureBlockError::MissingInterface(interface_id as u32))
            }
        },
        CaptureBlock::SimplePacket { original_len, data } => {
            if interfaces.len() == 0 {
                return Err(CaptureBlockError::NoInterfaceDescription);
            }
            let interface = interfaces[0];
            let captured = if interface.snaplen == 0 {
                original_len
            } else if interface.snaplen < original_len {
                interface.snaplen
            } else {
                original_len
            };
            if data.len() < captured as usize {
                return Err(CaptureBlockError::ShorterThanCaptured(captured));
            }
            let mut data = data;
            data.truncate(captured as usize);
            Ok(Some(CapturePacket { link_type: interface.link_type, original_len, data }))
        },
        CaptureBlock::Other => Ok(None),
    }
}

/// The protocol of the first layer of a record with link type `link_type`: Ethernet for
/// Ethernet captures, raw data for any other link type.
pub open spec fn first_layer_kind(link_type: u32) -> LayerKind {
    if link_type == LINKTYPE_ETHERNET {
        LayerKind::Ether
    } else {
        LayerKind::Raw
    }
}

/// A record of a link type other than Ethernet parses, whatever the bindings, as a single raw
/// layer holding all of its bytes.
pub proof fn lemma_other_link_type_is_raw(table: Map<u64, Seq<Binding>>, c: SpecCapturePacket)
    requires
        c.link_type != LINKTYPE_ETHERNET,
    ensures
        spec_parse_partial(table, first_layer_kind(c.link_type), c.data) == Ok::<
            (Seq<SpecLayer>, Seq<u8>),
            PacketError,
        >((seq![SpecLayer::Raw(c.data)], Seq::empty())),
{
    assert(c.data.skip(c.data.len() as int) =~= Seq::<u8>::empty());
}

/// Parse a packet record: from an Ethernet layer for Ethernet captures, as raw data otherwise.
/// Bytes left over after the last layer are dropped.
pub fn parse_capture(parser: &PacketParser, capture: &CapturePacket) -> (r: Result<
    Packet,
    PacketError,
>)
    ensures
        match r {
            Ok(p) => spec_parse_partial(
                parser.bindings(),
                first_layer_kind(capture.link_type),
                capture.data@,
            ) matches Ok((ls, _)) && p@ == ls,
            Err(e) => spec_parse_partial(
                parser.bindings(),
                first_layer_kind(capture.link_type),
                capture.data@,
            ) == Err::<(Seq<crate::layer::SpecLayer>, Seq<u8>), PacketError>(e),
        },
{
    let kind = if capture.link_type == LINKTYPE_ETHERNET {
        LayerKind::Ether
    } else {
        LayerKind::Raw
    };
    match parser.parse_partial(kind, capture.data.as_slice()) {
        Ok((_rest, packet)) => Ok(packet),
        Err(e) => Err(e),
    }
}

/// Whether the first bytes of a file are the gzip magic number.
pub fn is_gzip_magic(prefix: &[u8]) -> (r: bool)
    ensures
        r == (prefix@ == seq![0x1fu8, 0x8bu8]),
{
    let r = prefix.len() == 2 && prefix[0] == 0x1f && prefix[1] == 0x8b;
    proof {
        if prefix@.len() == 2 {
            assert(r ==> prefix@ =~= seq![0x1fu8, 0x8bu8]);
        }
    }
    r
}

/// Whether the first bytes of a capture are the PCAPNG section header block type.
pub fn is_pcapng_magic(prefix: &[u8]) -> (r: bool)
    ensures
        r == (prefix@ == seq![0x0au8, 0x0du8, 0x0du8, 0x0au8]),
{
    let r = prefix.len() == 4 && prefix[0] == 0x0a && prefix[1] == 0x0d && prefix[2] == 0x0d
        && prefix[3] == 0x0a;
    proof {
        if prefix@.len() == 4 {
            assert(r ==> prefix@ =~= seq![0x0au8, 0x0du8, 0x0du8, 0x0au8]);
        }
    }
    r
}

/// The length field of a capture record holding `data`, when it fits the 32-bit field.
pub fn record_length(data: &[u8]) -> (r: Option<u32>)
    ensures
        match r {
            Some(n) => n == data@.len(),
            None => data@.len() > u32::MAX,
        },
{
    if data.len() <= 0xffff_ffff {
        Some(data.len() as u32)
    } else {
        None
    }
}

} // verus!
