use nata::datalink::{
    end_of_stream, stream_item, DataLinkError, Interface, InterfaceReader, InterfaceWriter,
    PacketInterface, PacketInterfaceRead, PacketInterfaceWrite, PacketRead, PacketReadExt,
    PacketWrite,
};
use nata::layer::ether::MacAddress;
use nata::packet::{Packet, PacketParser};
use std::cell::Cell;
use std::rc::Rc;

struct DummyInterface;

struct DummyReader {
    #[allow(dead_code)]
    packet_parser: PacketParser,
}

struct DummyWriter {
    write_count: Rc<Cell<usize>>,
}

impl PacketInterface for DummyInterface {
    type Reader = DummyReader;
    type Writer = DummyWriter;

    fn init(name: &str) -> Result<Interface<DummyReader, DummyWriter>, DataLinkError> {
        <DummyInterface as PacketInterface>::init_with_parser(name, PacketParser::new())
    }

    fn init_with_parser(
        _name: &str,
        packet_parser: PacketParser,
    ) -> Result<Interface<DummyReader, DummyWriter>, DataLinkError> {
        Ok(Interface::from_parts(
            DummyReader { packet_parser },
            DummyWriter { write_count: Rc::new(Cell::new(0)) },
            None,
        ))
    }
}

impl PacketInterfaceRead for DummyInterface {
    type Reader = DummyReader;

    fn init(name: &str) -> Result<InterfaceReader<DummyReader>, DataLinkError> {
        <DummyInterface as PacketInterfaceRead>::init_with_parser(name, PacketParser::new())
    }

    fn init_with_parser(
        name: &str,
        packet_parser: PacketParser,
    ) -> Result<InterfaceReader<DummyReader>, DataLinkError> {
        let (reader, _writer) =
            <DummyInterface as PacketInterface>::init_with_parser(name, packet_parser)?
                .into_split();
        Ok(reader)
    }
}

impl PacketInterfaceWrite for DummyInterface {
    type Writer = DummyWriter;

    fn init(name: &str) -> Result<InterfaceWriter<DummyWriter>, DataLinkError> {
        let (_reader, writer) = <DummyInterface as PacketInterface>::init(name)?.into_split();
        Ok(writer)
    }
}

impl PacketRead for DummyReader {
    fn read(&mut self) -> Result<Packet, DataLinkError> {
        Ok(Packet::new())
    }
}

impl PacketWrite for DummyWriter {
    fn write(&mut self, _packet: Packet) -> Result<(), DataLinkError> {
        self.write_count.set(self.write_count.get() + 1);
        Ok(())
    }
}

/// A writer whose count stays visible after it is moved into an interface.
fn counting_writer() -> (DummyWriter, Rc<Cell<usize>>) {
    let count = Rc::new(Cell::new(0));
    (DummyWriter { write_count: count.clone() }, count)
}

#[test]
fn test_interface_default() {
    let (writer, count) = counting_writer();
    let mut interface = Interface::from_parts(
        DummyReader { packet_parser: PacketParser::new() },
        writer,
        None,
    );
    let pkt = interface.read().unwrap();
    interface.write(pkt).unwrap();

    assert_eq!(1, count.get());
}

#[test]
fn test_interface_init_through_backend() {
    let mut interface = Interface::init::<DummyInterface>("test").unwrap();
    let pkt = interface.read().unwrap();
    interface.write(pkt).unwrap();
    assert!(interface.mac_address().is_none());
}

#[test]
fn test_interface_reader() {
    let mut interface = InterfaceReader::init::<DummyInterface>("test").unwrap();
    let _pkt = interface.read().unwrap();
}

#[test]
fn test_interface_writer() {
    let (writer, count) = counting_writer();
    let mut interface = InterfaceWriter::from_parts(writer, None);
    let pkt = Packet::new();
    interface.write(pkt).unwrap();

    assert_eq!(1, count.get());
    let mut from_backend = InterfaceWriter::init::<DummyInterface>("test").unwrap();
    from_backend.write(Packet::new()).unwrap();
}

#[test]
fn test_interface_split_ref() {
    let (writer, count) = counting_writer();
    let mut interface = Interface::from_parts(
        DummyReader { packet_parser: PacketParser::new() },
        writer,
        None,
    );
    let (mut reader, mut writer) = interface.split();

    let pkt = reader.read().unwrap();
    writer.write(pkt).unwrap();

    assert_eq!(1, count.get());
}

#[test]
fn test_interface_split_owned() {
    let (writer, count) = counting_writer();
    let interface = Interface::from_parts(
        DummyReader { packet_parser: PacketParser::new() },
        writer,
        None,
    );
    let (mut reader, mut writer) = interface.into_split();

    let pkt = reader.read().unwrap();
    writer.write(pkt).unwrap();

    assert_eq!(1, count.get());
}

#[test]
fn test_interface_try_iter() {
    let mut interface = Interface::init::<DummyInterface>("test").unwrap();
    assert!(matches!(interface.try_iter().next(), Some(Ok(_))));
}

#[test]
fn test_interface_reader_try_iter() {
    let mut interface = InterfaceReader::init::<DummyInterface>("test").unwrap();
    assert!(matches!(interface.try_iter().next(), Some(Ok(_))));
}

#[test]
fn test_interface_reader_ref_try_iter() {
    let mut interface = Interface::init::<DummyInterface>("test").unwrap();
    let (mut reader, _writer) = interface.split();
    assert!(matches!(reader.try_iter().next(), Some(Ok(_))));
}

#[test]
fn test_interface_mac_address_is_shared_by_halves() {
    let mac = MacAddress::new([2, 0, 0, 0, 0, 1]);
    let (writer, _count) = counting_writer();
    let mut interface = Interface::from_parts(
        DummyReader { packet_parser: PacketParser::new() },
        writer,
        Some(mac),
    );
    assert_eq!(Some(&mac), interface.mac_address());
    {
        let (reader, writer) = interface.split();
        assert_eq!(Some(&mac), reader.mac_address());
        assert_eq!(Some(&mac), writer.mac_address());
    }
    let (reader, writer) = interface.into_split();
    assert_eq!(Some(&mac), reader.mac_address());
    assert_eq!(Some(&mac), writer.mac_address());
}

struct EofReader {
    yielded: bool,
}

impl PacketRead for EofReader {
    fn read(&mut self) -> Result<Packet, DataLinkError> {
        if self.yielded {
            Err(DataLinkError::Eof)
        } else {
            self.yielded = true;
            Ok(Packet::new())
        }
    }
}

struct ErrorReader;

impl PacketRead for ErrorReader {
    fn read(&mut self) -> Result<Packet, DataLinkError> {
        Err(DataLinkError::BufferError)
    }
}

#[test]
fn test_packet_try_iter_stops_at_eof() {
    let mut reader = EofReader { yielded: false };
    let mut packets = reader.try_iter();

    assert!(matches!(packets.next(), Some(Ok(_))));
    assert!(packets.next().is_none());
}

#[test]
fn test_packet_try_iter_preserves_errors() {
    let mut reader = ErrorReader;
    let mut packets = reader.try_iter();

    assert!(matches!(
        packets.next(),
        Some(Err(DataLinkError::BufferError))
    ));
}

#[test]
fn test_next_packet_turns_eof_into_none() {
    let mut reader = EofReader { yielded: false };
    assert!(matches!(reader.next_packet(), Ok(Some(_))));
    assert!(matches!(reader.next_packet(), Ok(None)));
    let mut failing = ErrorReader;
    assert_eq!(Err(DataLinkError::BufferError), failing.next_packet().map(|_| ()));
}

#[test]
fn test_end_of_stream_and_stream_item() {
    assert!(matches!(end_of_stream(Err(DataLinkError::Eof)), Ok(None)));
    assert!(matches!(
        end_of_stream(Err(DataLinkError::InterfaceNotFound)),
        Err(DataLinkError::InterfaceNotFound)
    ));
    assert!(matches!(end_of_stream(Ok(Packet::new())), Ok(Some(_))));
    assert!(stream_item(Ok(None)).is_none());
    assert!(matches!(stream_item(Ok(Some(Packet::new()))), Some(Ok(_))));
    assert!(matches!(
        stream_item(Err(DataLinkError::UnhandledInterfaceType)),
        Some(Err(DataLinkError::UnhandledInterfaceType))
    ));
}

#[test]
fn test_send_writes_the_packet() {
    let (mut writer, count) = counting_writer();
    writer.send(Packet::new()).unwrap();
    writer.send(Packet::new()).unwrap();
    assert_eq!(2, count.get());
}
