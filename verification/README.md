# elastic_stream

Verified core of an elastic stream storage service, written in Verus.

`src/` holds the logic, each function with a contract that Verus proves:

- `frame`, `frame_check`, `frame_laws`: the RPC frame format (encoding, checking, decoding,
  flags) and the round-trip law relating them; `be`, `crc32`, `cursor`, `casts` are the
  byte-level pieces they rest on.
- `aligned_buf`, `aligned_buf_writer`: the write-ahead-log buffer writer that reserves
  aligned memory and spreads writes over it.
- `index_codec`, `range`, `object`, `range_manager`, `stream_manager`: keys and values of
  the record index, range and object metadata, and the registries of ranges and streams.
- `session`, `worker`, `tracing`, `buffers`: the decisions of the client session, of the
  range-server worker loop and of the tracing reporter.

`app/` holds what Verus does not see: adapters to `bytes` buffers and `std::io::Cursor`, a
client session and a worker accept loop over Tokio TCP that follow the library's decisions,
the tracing report service (minitrace, Jaeger) and the JNI entry points of the client.
