//! Reading a whole legacy PCAP capture held in memory: its records, each parsed into a packet.
//!
//! The file header and the record headers are read by `pcap-file`; this module walks the
//! records and decides how each one is parsed.
use crate::datalink::pcapfile::{first_layer_kind, LINKTYPE_ETHERNET};
use crate::layer::bytes::get_u32;
use crate::layer::{LayerKind, SpecLayer};
use crate::packet::parser::{spec_parse_partial, Binding};
use crate::packet::{Packet, PacketError, PacketParser};
use pcap_file::pcap::{PcapHeader, PcapParser};
use pcap_file::PcapError;
use vstd::prelude::*;

verus! {

/// An error of `pcap-file`.
#[verifier::external_type_specification]
#[verifier::external_body]
pub struct ExPcapError(pcap_file::PcapError);

/// The file header of a legacy PCAP capture, as `pcap-file` reads it.
#[verifier::external_type_specification]
#[verifier::external_body]
pub struct ExPcapHeader(pcap_file::pcap::PcapHeader);

/// A packet record of a legacy PCAP capture.
#[derive(Debug, Clone)]
pub struct PcapRecord {
    /// The whole seconds of the record's timestamp.
    pub ts_secs: u64,
    /// The nanoseconds of the record's timestamp past the whole seconds.
    pub ts_nanos: u32,
    /// The length of the packet on the wire.
    pub orig_len: u32,
    /// The captured bytes.
    pub data: Vec<u8>,
}

/// The mathematical value of a [`PcapRecord`].
pub struct SpecPcapRecord {
    pub ts_secs: u64,
    pub ts_nanos: u32,
    pub orig_len: u32,
    pub data: Seq<u8>,
}

impl View for PcapRecord {
    type V = SpecPcapRecord;

    open spec fn view(&self) -> SpecPcapRecord {
        SpecPcapRecord {
            ts_secs: self.ts_secs,
            ts_nanos: self.ts_nanos,
            orig_len: self.orig_len,
            data: self.data@,
        }
    }
}

/// The 32-bit little-endian value at offset `i` of `s`.
pub open spec fn get_u32_le(s: Seq<u8>, i: int) -> u32 {
    (s[i + 3] as int * 0x100_0000 + s[i + 2] as int * 0x1_0000 + s[i + 1] as int * 0x100
        + s[i] as int) as u32
}

/// What `PcapParser::new` of `pcap-file` reads of the first bytes of `file`: the number of
/// bytes after the 24-byte file header and the header's link type, if the header is valid.
/// The first four bytes, read big-endian, are the magic number: `a1b2c3d4` or `a1b23c4d` for a
/// big-endian file, `d4c3b2a1` or `4d3cb2a1` for a little-endian one; any other number is
/// refused. The link type is the 32-bit number at offset 20, in the file's byte order.
pub open spec fn pcap_header(file: Seq<u8>) -> Option<(usize, u32)> {
    if file.len() < 24 {
        None
    } else {
        let magic = get_u32(file, 0);
        if magic == 0xA1B2_C3D4 || magic == 0xA1B2_3C4D {
            Some(((file.len() - 24) as usize, get_u32(file, 20)))
        } else if magic == 0xD4C3_B2A1 || magic == 0x4D3C_B2A1 {
            Some(((file.len() - 24) as usize, get_u32_le(file, 20)))
        } else {
            None
        }
    }
}

/// What `PcapParser::next_packet` of `pcap-file`, with the parser made of the header of
/// `file`, reads of `rest`: the number of bytes after the record and the record, if the
/// bytes start with a valid record.
pub uninterp spec fn pcap_record(file: Seq<u8>, rest: Seq<u8>) -> Option<(usize, SpecPcapRecord)>;

/// `PcapParser::new` of `pcap-file` on `file`: on success, the number of bytes after the file
/// header, the header's link type and the header itself. What is claimed: the call succeeds
/// exactly where [`pcap_header`] gives a header, with the bytes left and the link type that it
/// gives (the link type goes through `DataLink` and back unchanged), and no more bytes are left
/// than were given. Which error comes back is not stated.
#[verifier::external_body]
fn read_pcap_header(file: &[u8]) -> (r: Result<(usize, u32, PcapHeader), PcapError>)
    ensures
        match r {
            Ok((left, link, _)) => pcap_header(file@) == Some((left, link)),
            Err(_) => pcap_header(file@) is None,
        },
        r matches Ok((left, _, _)) ==> left <= file.len(),
{
    match PcapParser::new(file) {
        Ok((rest, parser)) => Ok((rest.len(), u32::from(parser.header().datalink), parser.header())),
        Err(e) => Err(e),
    }
}

/// `PcapParser::next_packet` of `pcap-file` on `rest`, with the parser that `PcapParser::new`
/// makes of `file`: on success, the number of bytes after the record and the record. What is
/// claimed: the outcome is the named [`pcap_record`] of the two byte sequences; a record takes
/// its sixteen-byte header and then its data, which is copied out. Which error comes back is
/// not stated.
#[verifier::external_body]
fn read_pcap_record(file: &[u8], rest: &[u8]) -> (r: Result<(usize, PcapRecord), PcapError>)
    ensures
        match r {
            Ok((left, rec)) => pcap_record(file@, rest@) == Some((left, rec@)),
            Err(_) => pcap_record(file@, rest@) is None,
        },
        r matches Ok((left, rec)) ==> left + 16 <= rest.len() && rec.data@ == rest@.subrange(
            16,
            rest.len() - left,
        ),
{
    let (_, parser) = PcapParser::new(file)?;
    let (left, packet) = parser.next_packet(rest)?;
    Ok(
        (
            left.len(),
            PcapRecord {
                ts_secs: packet.timestamp.as_secs(),
                ts_nanos: packet.timestamp.subsec_nanos(),
                orig_len: packet.orig_len,
                data: packet.data.to_vec(),
            },
        ),
    )
}

/// A record of a capture and the packet parsed from it.
#[derive(Debug, Clone)]
pub struct PcapEntry {
    /// The record.
    pub record: PcapRecord,
    /// The packet parsed from the record's data.
    pub packet: Packet,
    /// The number of bytes of the record's data left over after the packet's last layer.
    pub unparsed: usize,
}

/// The mathematical value of a [`PcapEntry`].
pub struct SpecPcapEntry {
    pub record: SpecPcapRecord,
    pub layers: Seq<SpecLayer>,
    pub unparsed: nat,
}

impl View for PcapEntry {
    type V = SpecPcapEntry;

    open spec fn view(&self) -> SpecPcapEntry {
        SpecPcapEntry { record: self.record@, layers: self.packet@, unparsed: self.unparsed as nat }
    }
}

/// A legacy PCAP capture read from memory: its file header and its records in order.
#[derive(Debug)]
pub struct PcapCapture {
    /// The file header.
    pub header: PcapHeader,
    /// The link type that the file header gives.
    pub link_type: u32,
    /// The records, each with its packet.
    pub entries: Vec<PcapEntry>,
}

/// Why a legacy PCAP capture could not be read.
#[derive(Debug)]
pub enum PcapReadError {
    /// The file header is not valid.
    Header(PcapError),
    /// Record `n` (counted from one) could not be read.
    Record(usize, PcapError),
    /// The data of record `n` (counted from one) could not be parsed into a packet.
    Decode(usize, PacketError),
}

/// Where reading a capture stops, as far as the reader decides it.
pub enum PcapFailure {
    Header,
    Record(nat),
    Decode(nat, PacketError),
}

/// What a reading error tells of where reading stopped.
pub open spec fn failure_of(e: PcapReadError) -> PcapFailure {
    match e {
        PcapReadError::Header(_) => PcapFailure::Header,
        PcapReadError::Record(n, _) => PcapFailure::Record(n as nat),
        PcapReadError::Decode(n, e) => PcapFailure::Decode(n as nat, e),
    }
}

/// The records read from `rest` (what follows `done` records of `file`), each parsed from
/// the first layer of link type `link`, up to the end of the bytes or the first failure.
pub open spec fn pcap_entries(
    table: Map<u64, Seq<Binding>>,
    file: Seq<u8>,
    link: u32,
    rest: Seq<u8>,
    done: nat,
) -> Result<Seq<SpecPcapEntry>, PcapFailure>
    decreases rest.len(),
{
    if rest.len() == 0 {
        Ok(Seq::empty())
    } else {
        match pcap_record(file, rest) {
            None => Err(PcapFailure::Record(done + 1)),
            Some((left, rec)) => match spec_parse_partial(table, first_layer_kind(link), rec.data) {
                Err(e) => Err(PcapFailure::Decode(done + 1, e)),
                Ok((ls, unparsed)) => {
                    let entry = SpecPcapEntry { record: rec, layers: ls, unparsed: unparsed.len() };
                    // A record takes at least its header, so fewer bytes are always left.
                    if left < rest.len() {
                        match pcap_entries(table, file, link, rest.skip(rest.len() - left), done + 1) {
                            Ok(es) => Ok(seq![entry] + es),
                            Err(f) => Err(f),
                        }
                    } else {
                        Err(PcapFailure::Record(done + 1))
                    }
                },
            },
        }
    }
}

/// A capture file read whole: its header's link type and its entries, or where reading
/// stopped.
pub open spec fn spec_read_pcap(table: Map<u64, Seq<Binding>>, file: Seq<u8>) -> Result<
    (u32, Seq<SpecPcapEntry>),
    PcapFailure,
> {
    match pcap_header(file) {
        None => Err(PcapFailure::Header),
        Some((left, link)) => if left <= file.len() {
            match pcap_entries(table, file, link, file.skip(file.len() - left), 0) {
                Ok(es) => Ok((link, es)),
                Err(f) => Err(f),
            }
        } else {
            Err(PcapFailure::Header)
        },
    }
}

/// `entries` put in front of what reading the rest gives.
pub open spec fn after_entries(
    entries: Seq<SpecPcapEntry>,
    r: Result<Seq<SpecPcapEntry>, PcapFailure>,
) -> Result<Seq<SpecPcapEntry>, PcapFailure> {
    match r {
        Ok(es) => Ok(entries + es),
        Err(f) => Err(f),
    }
}

/// The values of entries.
pub open spec fn entries_view(es: Seq<PcapEntry>) -> Seq<SpecPcapEntry> {
    es.map_values(|e: PcapEntry| e@)
}

/// One record read and parsed moves its entry in front of what reading the rest gives.
proof fn lemma_entries_step(
    table: Map<u64, Seq<Binding>>,
    file: Seq<u8>,
    link: u32,
    rest: Seq<u8>,
    n: nat,
    left: usize,
    before: Seq<SpecPcapEntry>,
    ev: SpecPcapEntry,
)
    requires
        rest.len() > 0,
        left + 16 <= rest.len(),
        pcap_record(file, rest) == Some((left, ev.record)),
        spec_parse_partial(table, first_layer_kind(link), ev.record.data) matches Ok((ls, u)) && ls
            == ev.layers && u.len() == ev.unparsed,
    ensures
        after_entries(before, pcap_entries(table, file, link, rest, n)) == after_entries(
            before.push(ev),
            pcap_entries(table, file, link, rest.skip(rest.len() - left), n + 1),
        ),
{
    let tail = pcap_entries(table, file, link, rest.skip(rest.len() - left), n + 1);
    match spec_parse_partial(table, first_layer_kind(link), ev.record.data) {
        Ok((ls, u)) => {
            assert(SpecPcapEntry { record: ev.record, layers: ls, unparsed: u.len() } == ev);
        },
        Err(_) => {},
    }
    match tail {
        Ok(es) => {
            assert(before + (seq![ev] + es) =~= before.push(ev) + es);
        },
        Err(_) => {},
    }
}

/// Where a record cannot be read or parsed, reading stops there, whatever came before.
proof fn lemma_entries_stop(
    table: Map<u64, Seq<Binding>>,
    file: Seq<u8>,
    link: u32,
    rest: Seq<u8>,
    n: nat,
    before: Seq<SpecPcapEntry>,
)
    requires
        rest.len() > 0,
    ensures
        pcap_record(file, rest) is None ==> after_entries(before, pcap_entries(table, file, link, rest, n))
            == Err::<Seq<SpecPcapEntry>, PcapFailure>(PcapFailure::Record(n + 1)),
        pcap_record(file, rest) matches Some((_, rec)) ==> (spec_parse_partial(
            table,
            first_layer_kind(link),
            rec.data,
        ) matches Err(e) ==> after_entries(before, pcap_entries(table, file, link, rest, n))
            == Err::<Seq<SpecPcapEntry>, PcapFailure>(PcapFailure::Decode(n + 1, e))),
{
}

/// Read a legacy PCAP capture held in memory: its file header, then record after record up
/// to the end of the bytes, each parsed into a packet from an Ethernet layer for Ethernet
/// captures and as raw data otherwise. Reading stops at the first record that cannot be read
/// or parsed.
pub fn read_pcap_packets(parser: &PacketParser, input: &[u8]) -> (r: Result<PcapCapture, PcapReadError>)
    ensures
        match r {
            Ok(c) => spec_read_pcap(parser.bindings(), input@) == Ok::<
                (u32, Seq<SpecPcapEntry>),
                PcapFailure,
            >((c.link_type, entries_view(c.entries@))),
            Err(e) => spec_read_pcap(parser.bindings(), input@) == Err::<
                (u32, Seq<SpecPcapEntry>),
                PcapFailure,
            >(failure_of(e)),
        },
{
    let ghost table = parser.bindings();
    let (left, link_type, header) = match read_pcap_header(input) {
        Ok(v) => v,
        Err(e) => return Err(PcapReadError::Header(e)),
    };
    let kind = if link_type == LINKTYPE_ETHERNET {
        LayerKind::Ether
    } else {
        LayerKind::Raw
    };
    let mut off: usize = input.len() - left;
    let mut entries: Vec<PcapEntry> = Vec::new();
    let ghost start = off;
    while off < input.len()
        invariant
            table == parser.bindings(),
            pcap_header(input@) == Some((left, link_type)),
            left <= input@.len(),
            start == input@.len() - left,
            kind == first_layer_kind(link_type),
            start <= off <= input@.len(),
            entries@.len() <= off,
            pcap_entries(table, input@, link_type, input@.skip(start as int), 0) == after_entries(
                entries_view(entries@),
                pcap_entries(table, input@, link_type, input@.skip(off as int), entries@.len() as nat),
            ),
        decreases input@.len() - off,
    {
        let rest = vstd::slice::slice_subrange(input, off, input.len());
        assert(rest@ == input@.skip(off as int));
        let n = entries.len();
        let (rest_left, record) = match read_pcap_record(input, rest) {
            Ok(v) => v,
            Err(e) => {
                proof {
                    lemma_entries_stop(table, input@, link_type, rest@, n as nat, entries_view(entries@));
                }
                return Err(PcapReadError::Record(n + 1, e));
            },
        };
        let (unparsed, packet) = match parser.parse_partial(kind, record.data.as_slice()) {
            Ok((u, p)) => (u.len(), p),
            Err(e) => {
                proof {
                    lemma_entries_stop(table, input@, link_type, rest@, n as nat, entries_view(entries@));
                }
                return Err(PcapReadError::Decode(n + 1, e));
            },
        };
        let ghost before = entries_view(entries@);
        let entry = PcapEntry { record, packet, unparsed };
        let ghost ev = entry@;
        entries.push(entry);
        proof {
            lemma_entries_step(table, input@, link_type, rest@, n as nat, rest_left, before, ev);
            assert(entries_view(entries@) =~= before.push(ev));
            assert(rest@.skip(rest@.len() - rest_left) =~= input@.skip(input@.len() - rest_left));
        }
        off = input.len() - rest_left;
    }
    proof {
        assert(input@.skip(off as int).len() == 0);
        assert(entries_view(entries@) + Seq::<SpecPcapEntry>::empty() =~= entries_view(entries@));
    }
    Ok(PcapCapture { header, link_type, entries })
}

} // verus!
