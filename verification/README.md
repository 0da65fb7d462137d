# nata

Parsing, inspecting, constructing and writing network packets, with the packet logic verified
by Verus.

A packet is an ordered list of protocol layers (Ethernet, TCP, raw payload). Layers parse from
bytes and serialize back to the same bytes; a parser chooses the next layer through bindings;
finalizing a packet pads TCP options, sets the data offset and recomputes checksums.

The set of layers is closed: a `Layer` is one of the protocols above, and bindings choose the
next layer by a fixed set of conditions. New protocols are added to the crate itself, not
plugged in from outside.

Layout:

- `src/layer`: the layers, their wire formats, the internet checksum.
- `src/packet`: packets, the builder, the binding-driven parser.
- `src/datalink`: reading and writing packets over interfaces, the decisions taken while
  reading capture files, and reading a whole legacy PCAP capture held in memory.
- `src/tshark`: comparing parsed packets with TShark's JSON output (field projections, the
  flattening of TShark's protocol trees, differences sorted by field name, their readable
  form, suite scoring).
- `src/text.rs`: text helpers shared by the above.
- `app/`: the `nata-tshark` command-line program, the capture-file I/O and a `Debug` dump of
  every packet of a PCAP capture.
- `tests/`: tests of the library.
