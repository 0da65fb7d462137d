//! Reading and writing packets over an interface.
//!
//! An interface pairs a packet reader with a packet writer. Backends (a live network
//! interface, a capture file, ...) provide the reader and writer; this module holds what they
//! share.
pub mod pcapdata;
pub mod pcapfile;

use crate::layer::ether::MacAddress;
use crate::packet::parser::Binding;
use crate::packet::{Packet, PacketError, PacketParser};
use vstd::prelude::*;

verus! {

/// Why a packet could not be read or written.
#[derive(Debug, Clone, PartialEq, Eq)]
pub enum DataLinkError {
    /// A finite source such as a capture file has no more packets.
    Eof,
    /// The backend had no buffer to write into.
    BufferError,
    /// No network interface has the requested name.
    InterfaceNotFound,
    /// The network interface is not an Ethernet interface.
    UnhandledInterfaceType,
    /// An I/O operation failed; the operating system's message.
    IoError(String),
    /// A capture file could not be read or written.
    PcapError(String),
    /// A packet could not be parsed or serialized.
    PacketError(PacketError),
}

/// The outcome of a read, with the end of a finite source turned into a normal end of stream.
pub open spec fn spec_end_of_stream(r: Result<Packet, DataLinkError>) -> Result<
    Option<Packet>,
    DataLinkError,
> {
    match r {
        Ok(p) => Ok(Some(p)),
        Err(DataLinkError::Eof) => Ok(None),
        Err(e) => Err(e),
    }
}

/// Turn the outcome of a read into the outcome of reading the next packet of a stream.
pub fn end_of_stream(r: Result<Packet, DataLinkError>) -> (o: Result<Option<Packet>, DataLinkError>)
    ensures
        o == spec_end_of_stream(r),
{
    match r {
        Ok(packet) => Ok(Some(packet)),
        Err(DataLinkError::Eof) => Ok(None),
        Err(error) => Err(error),
    }
}

/// The item a fallible packet iteration yields for the outcome of reading the next packet.
pub open spec fn spec_stream_item(r: Result<Option<Packet>, DataLinkError>) -> Option<
    Result<Packet, DataLinkError>,
> {
    match r {
        Ok(Some(p)) => Some(Ok(p)),
        Ok(None) => None,
        Err(e) => Some(Err(e)),
    }
}

/// A packet stream yields each packet read, ends where the source ends, and yields any other
/// failure as an error item.
pub proof fn lemma_stream_item_of_read(r: Result<Packet, DataLinkError>)
    ensures
        spec_stream_item(spec_end_of_stream(r)) == match r {
            Ok(p) => Some(Ok::<Packet, DataLinkError>(p)),
            Err(DataLinkError::Eof) => None,
            Err(e) => Some(Err(e)),
        },
{
}

/// Turn the outcome of reading the next packet into an iteration item.
pub fn stream_item(r: Result<Option<Packet>, DataLinkError>) -> (o: Option<
    Result<Packet, DataLinkError>,
>)
    ensures
        o == spec_stream_item(r),
{
    match r {
        Ok(Some(packet)) => Some(Ok(packet)),
        Ok(None) => None,
        Err(error) => Some(Err(error)),
    }
}

/// Packet read on an interface.
pub trait PacketRead {
    /// Whether a read that finds the reader as `self` may leave it as `after` and return `r`.
    /// A reader that says nothing of its reads allows any outcome.
    open spec fn read_post(&self, after: &Self, r: &Result<Packet, DataLinkError>) -> bool {
        true
    }

    /// Read one packet.
    ///
    /// Implementations use [`DataLinkError::Eof`] to signal the normal end of a finite source
    /// such as a capture file.
    fn read(&mut self) -> (r: Result<Packet, DataLinkError>)
        ensures
            old(self).read_post(final(self), &r),
    ;

    /// Read the next packet, treating end-of-file as a normal end of stream: the outcome is
    /// [`end_of_stream`] of what [`PacketRead::read`] returns.
    fn next_packet(&mut self) -> (r: Result<Option<Packet>, DataLinkError>)
        ensures
            exists|x: Result<Packet, DataLinkError>|
                old(self).read_post(final(self), &x) && r == spec_end_of_stream(x),
    {
        let x = self.read();
        end_of_stream(x)
    }
}

/// Packet write on an interface.
pub trait PacketWrite {
    /// Whether writing `packet` to the writer found as `self` may leave it as `after` and
    /// return `r`. A writer that says nothing of its writes allows any outcome.
    open spec fn write_post(&self, after: &Self, packet: &Packet, r: &Result<(), DataLinkError>) -> bool {
        true
    }

    /// Write one packet.
    fn write(&mut self, packet: Packet) -> (r: Result<(), DataLinkError>)
        ensures
            old(self).write_post(final(self), &packet, &r),
    ;

    /// Send a packet: the same as [`PacketWrite::write`].
    fn send(&mut self, packet: Packet) -> (r: Result<(), DataLinkError>)
        ensures
            old(self).write_post(final(self), &packet, &r),
    {
        self.write(packet)
    }
}

/// A fallible packet iteration over a reader.
pub struct PacketTryIter<'a, R: PacketRead> {
    reader: &'a mut R,
}

impl<'a, R: PacketRead> PacketTryIter<'a, R> {
    /// The reader being iterated over, as it now is.
    pub closed spec fn reader_state(&self) -> R {
        *self.reader
    }

    /// The next packet, the error met reading it, or `None` at the end of the stream; the
    /// item is [`stream_item`] of what [`PacketRead::next_packet`] returns.
    pub fn next(&mut self) -> (r: Option<Result<Packet, DataLinkError>>)
        ensures
            exists|x: Result<Packet, DataLinkError>|
                old(self).reader_state().read_post(&final(self).reader_state(), &x) && r
                    == spec_stream_item(spec_end_of_stream(x)),
    {
        let ghost before = self.reader_state();
        let np = self.reader.next_packet();
        let ghost x = choose|x: Result<Packet, DataLinkError>|
            before.read_post(&self.reader_state(), &x) && np == spec_end_of_stream(x);
        let r = stream_item(np);
        assert(before.read_post(&self.reader_state(), &x) && r == spec_stream_item(
            spec_end_of_stream(x),
        ));
        r
    }
}

/// Fallible packet iteration.
pub trait PacketReadExt: PacketRead + Sized {
    /// Iterate over packets while preserving read and parse errors.
    fn try_iter(&mut self) -> (r: PacketTryIter<'_, Self>)
        ensures
            r.reader_state() == *old(self),
    {
        PacketTryIter { reader: self }
    }
}

impl<T: PacketRead> PacketReadExt for T {
}

/// What is known of an interface besides its reader and writer.
#[derive(Debug, Default, Clone, Copy, PartialEq, Eq)]
pub struct InterfaceMetadata {
    pub mac_address: Option<MacAddress>,
}

/// A packet interface: a reader, a writer and their metadata.
pub struct Interface<R: PacketRead, W: PacketWrite> {
    reader: R,
    writer: W,
    metadata: InterfaceMetadata,
}

/// A read and write interface.
pub trait PacketInterface {
    /// Packet reader.
    type Reader: PacketRead;

    /// Packet writer.
    type Writer: PacketWrite;

    /// Whether opening the interface named `name` may give `r`. A backend that says nothing
    /// of what it opens allows any outcome.
    open spec fn init_post(
        name: Seq<char>,
        r: &Result<Interface<Self::Reader, Self::Writer>, DataLinkError>,
    ) -> bool {
        true
    }

    /// Whether opening the interface named `name`, parsing with a parser holding `bindings`,
    /// may give `r`. A backend that says nothing of what it opens allows any outcome.
    open spec fn init_with_parser_post(
        name: Seq<char>,
        bindings: Map<u64, Seq<Binding>>,
        r: &Result<Interface<Self::Reader, Self::Writer>, DataLinkError>,
    ) -> bool {
        true
    }

    /// Open the interface named `name` (a network interface, a capture file, ...).
    fn init(name: &str) -> (r: Result<Interface<Self::Reader, Self::Writer>, DataLinkError>)
        ensures
            Self::init_post(name@, &r),
    ;

    /// Open the interface named `name`, parsing packets with `packet_parser`.
    fn init_with_parser(name: &str, packet_parser: PacketParser) -> (r: Result<
        Interface<Self::Reader, Self::Writer>,
        DataLinkError,
    >)
        ensures
            Self::init_with_parser_post(name@, packet_parser.bindings(), &r),
    ;
}

/// A read-only interface.
pub trait PacketInterfaceRead {
    /// Packet reader.
    type Reader: PacketRead;

    /// Whether opening the interface named `name` may give `r`. A backend that says nothing
    /// of what it opens allows any outcome.
    open spec fn init_post(name: Seq<char>, r: &Result<InterfaceReader<Self::Reader>, DataLinkError>) -> bool {
        true
    }

    /// Whether opening the interface named `name`, parsing with a parser holding `bindings`,
    /// may give `r`. A backend that says nothing of what it opens allows any outcome.
    open spec fn init_with_parser_post(
        name: Seq<char>,
        bindings: Map<u64, Seq<Binding>>,
        r: &Result<InterfaceReader<Self::Reader>, DataLinkError>,
    ) -> bool {
        true
    }

    /// Open the interface named `name`.
    fn init(name: &str) -> (r: Result<InterfaceReader<Self::Reader>, DataLinkError>)
        ensures
            Self::init_post(name@, &r),
    ;

    /// Open the interface named `name`, parsing packets with `packet_parser`.
    fn init_with_parser(name: &str, packet_parser: PacketParser) -> (r: Result<
        InterfaceReader<Self::Reader>,
        DataLinkError,
    >)
        ensures
            Self::init_with_parser_post(name@, packet_parser.bindings(), &r),
    ;
}

/// A write-only interface.
pub trait PacketInterfaceWrite {
    /// Packet writer.
    type Writer: PacketWrite;

    /// Whether opening the interface named `name` may give `r`. A backend that says nothing
    /// of what it opens allows any outcome.
    open spec fn init_post(name: Seq<char>, r: &Result<InterfaceWriter<Self::Writer>, DataLinkError>) -> bool {
        true
    }

    /// Open the interface named `name`.
    fn init(name: &str) -> (r: Result<InterfaceWriter<Self::Writer>, DataLinkError>)
        ensures
            Self::init_post(name@, &r),
    ;
}

impl<R: PacketRead, W: PacketWrite> Interface<R, W> {
    /// The metadata of the interface.
    pub closed spec fn meta(&self) -> InterfaceMetadata {
        self.metadata
    }

    /// The reader of the interface.
    pub closed spec fn reader_of(&self) -> R {
        self.reader
    }

    /// The writer of the interface.
    pub closed spec fn writer_of(&self) -> W {
        self.writer
    }

    /// Assemble an interface from a reader, a writer and the interface's MAC address.
    pub fn from_parts(reader: R, writer: W, mac_address: Option<MacAddress>) -> (r: Self)
        ensures
            r.reader_of() == reader,
            r.writer_of() == writer,
            r.meta().mac_address == mac_address,
    {
        Interface { reader, writer, metadata: InterfaceMetadata { mac_address } }
    }

    /// Open an interface with backend `T`.
    pub fn init<T: PacketInterface<Reader = R, Writer = W>>(name: &str) -> (r: Result<
        Interface<R, W>,
        DataLinkError,
    >)
        ensures
            T::init_post(name@, &r),
    {
        T::init(name)
    }

    /// Open an interface with backend `T`, parsing packets with `packet_parser`.
    pub fn init_with_parser<T: PacketInterface>(name: &str, packet_parser: PacketParser) -> (r:
        Result<Interface<T::Reader, T::Writer>, DataLinkError>)
        ensures
            T::init_with_parser_post(name@, packet_parser.bindings(), &r),
    {
        T::init_with_parser(name, packet_parser)
    }

    /// Split the interface into a reader and a writer that borrow it.
    pub fn split(&mut self) -> (r: (InterfaceReaderRef<'_, R>, InterfaceWriterRef<'_, W>))
        ensures
            r.0.meta() == old(self).meta(),
            r.1.meta() == old(self).meta(),
            r.0.reader_of() == old(self).reader_of(),
            r.1.writer_of() == old(self).writer_of(),
    {
        (
            InterfaceReaderRef { reader: &mut self.reader, metadata: &self.metadata },
            InterfaceWriterRef { writer: &mut self.writer, metadata: &self.metadata },
        )
    }

    /// Split the interface into an owned reader and writer.
    pub fn into_split(self) -> (r: (InterfaceReader<R>, InterfaceWriter<W>))
        ensures
            r.0.reader_of() == self.reader_of(),
            r.0.meta() == self.meta(),
            r.1.writer_of() == self.writer_of(),
            r.1.meta() == self.meta(),
    {
        (
            InterfaceReader { reader: self.reader, metadata: self.metadata },
            InterfaceWriter { writer: self.writer, metadata: self.metadata },
        )
    }

    /// The MAC address of the interface, when known.
    pub fn mac_address(&self) -> (r: Option<&MacAddress>)
        ensures
            match r {
                Some(m) => self.meta().mac_address == Some(*m),
                None => self.meta().mac_address is None,
            },
    {
        self.metadata.mac_address.as_ref()
    }
}

impl<R: PacketRead, W: PacketWrite> PacketWrite for Interface<R, W> {
    /// A write goes to the interface's writer; the reader and metadata stay.
    open spec fn write_post(&self, after: &Self, packet: &Packet, r: &Result<(), DataLinkError>) -> bool {
        &&& self.writer_of().write_post(&after.writer_of(), packet, r)
        &&& after.reader_of() == self.reader_of()
        &&& after.meta() == self.meta()
    }

    fn write(&mut self, packet: Packet) -> Result<(), DataLinkError> {
        self.writer.write(packet)
    }
}

impl<R: PacketRead, W: PacketWrite> PacketRead for Interface<R, W> {
    /// A read comes from the interface's reader; the writer and metadata stay.
    open spec fn read_post(&self, after: &Self, r: &Result<Packet, DataLinkError>) -> bool {
        &&& self.reader_of().read_post(&after.reader_of(), r)
        &&& after.writer_of() == self.writer_of()
        &&& after.meta() == self.meta()
    }

    fn read(&mut self) -> Result<Packet, DataLinkError> {
        self.reader.read()
    }
}

/// A reader that borrows an interface.
pub struct InterfaceReaderRef<'a, T: PacketRead> {
    reader: &'a mut T,
    metadata: &'a InterfaceMetadata,
}

impl<'a, T: PacketRead> InterfaceReaderRef<'a, T> {
    /// The metadata of the interface.
    pub closed spec fn meta(&self) -> InterfaceMetadata {
        *self.metadata
    }

    /// The borrowed reader.
    pub closed spec fn reader_of(&self) -> T {
        *self.reader
    }

    /// The MAC address of the interface, when known.
    pub fn mac_address(&self) -> (r: Option<&MacAddress>)
        ensures
            match r {
                Some(m) => self.meta().mac_address == Some(*m),
                None => self.meta().mac_address is None,
            },
    {
        self.metadata.mac_address.as_ref()
    }
}

impl<'a, T: PacketRead> PacketRead for InterfaceReaderRef<'a, T> {
    /// A read comes from the borrowed reader; the metadata stays.
    open spec fn read_post(&self, after: &Self, r: &Result<Packet, DataLinkError>) -> bool {
        &&& self.reader_of().read_post(&after.reader_of(), r)
        &&& after.meta() == self.meta()
    }

    fn read(&mut self) -> Result<Packet, DataLinkError> {
        self.reader.read()
    }
}

/// A writer that borrows an interface.
pub struct InterfaceWriterRef<'a, T: PacketWrite> {
    writer: &'a mut T,
    metadata: &'a InterfaceMetadata,
}

impl<'a, T: PacketWrite> InterfaceWriterRef<'a, T> {
    /// The metadata of the interface.
    pub closed spec fn meta(&self) -> InterfaceMetadata {
        *self.metadata
    }

    /// The borrowed writer.
    pub closed spec fn writer_of(&self) -> T {
        *self.writer
    }

    /// The MAC address of the interface, when known.
    pub fn mac_address(&self) -> (r: Option<&MacAddress>)
        ensures
            match r {
                Some(m) => self.meta().mac_address == Some(*m),
                None => self.meta().mac_address is None,
            },
    {
        self.metadata.mac_address.as_ref()
    }
}

impl<'a, T: PacketWrite> PacketWrite for InterfaceWriterRef<'a, T> {
    /// A write goes to the borrowed writer; the metadata stays.
    open spec fn write_post(&self, after: &Self, packet: &Packet, r: &Result<(), DataLinkError>) -> bool {
        &&& self.writer_of().write_post(&after.writer_of(), packet, r)
        &&& after.meta() == self.meta()
    }

    fn write(&mut self, packet: Packet) -> Result<(), DataLinkError> {
        self.writer.write(packet)
    }
}

/// A read-only interface.
pub struct InterfaceReader<R: PacketRead> {
    reader: R,
    metadata: InterfaceMetadata,
}

impl<R: PacketRead> InterfaceReader<R> {
    /// The metadata of the interface.
    pub closed spec fn meta(&self) -> InterfaceMetadata {
        self.metadata
    }

    /// The reader of the interface.
    pub closed spec fn reader_of(&self) -> R {
        self.reader
    }

    /// Assemble a read-only interface from a reader and the interface's MAC address.
    pub fn from_parts(reader: R, mac_address: Option<MacAddress>) -> (r: Self)
        ensures
            r.reader_of() == reader,
            r.meta().mac_address == mac_address,
    {
        InterfaceReader { reader, metadata: InterfaceMetadata { mac_address } }
    }

    /// Open a read-only interface with backend `T`.
    pub fn init<T: PacketInterfaceRead<Reader = R>>(name: &str) -> (r: Result<
        InterfaceReader<R>,
        DataLinkError,
    >)
        ensures
            T::init_post(name@, &r),
    {
        T::init(name)
    }

    /// Open a read-only interface with backend `T`, parsing packets with `packet_parser`.
    pub fn init_with_parser<T: PacketInterfaceRead<Reader = R>>(
        name: &str,
        packet_parser: PacketParser,
    ) -> (r: Result<InterfaceReader<R>, DataLinkError>)
        ensures
            T::init_with_parser_post(name@, packet_parser.bindings(), &r),
    {
        T::init_with_parser(name, packet_parser)
    }

    /// The MAC address of the interface, when known.
    pub fn mac_address(&self) -> (r: Option<&MacAddress>)
        ensures
            match r {
                Some(m) => self.meta().mac_address == Some(*m),
                None => self.meta().mac_address is None,
            },
    {
        self.metadata.mac_address.as_ref()
    }
}

impl<R: PacketRead> PacketRead for InterfaceReader<R> {
    /// A read comes from the interface's reader; the metadata stays.
    open spec fn read_post(&self, after: &Self, r: &Result<Packet, DataLinkError>) -> bool {
        &&& self.reader_of().read_post(&after.reader_of(), r)
        &&& after.meta() == self.meta()
    }

    fn read(&mut self) -> Result<Packet, DataLinkError> {
        self.reader.read()
    }
}

/// A write-only interface.
pub struct InterfaceWriter<W: PacketWrite> {
    writer: W,
    metadata: InterfaceMetadata,
}

impl<W: PacketWrite> InterfaceWriter<W> {
    /// The metadata of the interface.
    pub closed spec fn meta(&self) -> InterfaceMetadata {
        self.metadata
    }

    /// The writer of the interface.
    pub closed spec fn writer_of(&self) -> W {
        self.writer
    }

    /// Assemble a write-only interface from a writer and the interface's MAC address.
    pub fn from_parts(writer: W, mac_address: Option<MacAddress>) -> (r: Self)
        ensures
            r.writer_of() == writer,
            r.meta().mac_address == mac_address,
    {
        InterfaceWriter { writer, metadata: InterfaceMetadata { mac_address } }
    }

    /// Open a write-only interface with backend `T`.
    pub fn init<T: PacketInterfaceWrite<Writer = W>>(name: &str) -> (r: Result<
        InterfaceWriter<W>,
        DataLinkError,
    >)
        ensures
            T::init_post(name@, &r),
    {
        T::init(name)
    }

    /// The MAC address of the interface, when known.
    pub fn mac_address(&self) -> (r: Option<&MacAddress>)
        ensures
            match r {
                Some(m) => self.meta().mac_address == Some(*m),
                None => self.meta().mac_address is None,
            },
    {
        self.metadata.mac_address.as_ref()
    }
}

impl<W: PacketWrite> PacketWrite for InterfaceWriter<W> {
    /// A write goes to the interface's writer; the metadata stays.
    open spec fn write_post(&self, after: &Self, packet: &Packet, r: &Result<(), DataLinkError>) -> bool {
        &&& self.writer_of().write_post(&after.writer_of(), packet, r)
        &&& after.meta() == self.meta()
    }

    fn write(&mut self, packet: Packet) -> Result<(), DataLinkError> {
        self.writer.write(packet)
    }
}

} // verus!
