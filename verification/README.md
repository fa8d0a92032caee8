# odx_desktop

The core of ODX Desktop, a tool that converts ODX/PDX diagnostic data into
MDD files, builds UDS requests from them and sends those requests over DoIP.
The library is written in Verus: its functions carry contracts that Verus
proves, resting on a few small trusted wrappers around std and lzma-rs calls
whose contracts are stated from their documentation.

Layout:

- `src/text.rs`: trimming, case folding, hexadecimal and decimal text, hex
  frame parsing, logical addresses, safe folder names.
- `src/flatbuf.rs`, `src/protobuf.rs`: bounds-checked FlatBuffer and
  protobuf readers.
- `src/uds.rs`, `src/decode.rs`, `src/service.rs`: the UDS service model and
  its decoding from an MDD FlatBuffer (parameters, data object properties,
  fixed values, guidance hints).
- `src/mdd.rs`: the MDD container (header, protobuf chunk, LZMA payload with
  a size limit) and the walk over ECU variants with deduplication.
- `src/builder.rs`: builder summaries, ECU and family selection, and the
  cache of decoded MDD files.
- `src/frames.rs`: frame writers that plan the `.bin` files of a request or
  a sequence.
- `src/doip.rs`: request preparation and the decisions of a DoIP exchange.
- `src/workspace.rs`: the diagnostic source library and conversions.
- `src/dtc.rs`: trouble code definitions found in an MDD's JSON rendering.
- `app/`: the desktop shell (Tauri commands, files, dialogs, the ODX
  converter, the DoIP socket), which hands plain values to the library.
- `tests/`: tests of the library on concrete inputs, MDD files included.
