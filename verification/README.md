# iotdb-client

A client for [Apache IoTDB](https://iotdb.apache.org/) whose logic is verified
with Verus. It supports both data models of IoTDB:

- **Tree model**: `Session` / `SessionPool`, for device and timeseries paths
  (`root.sg.d1.s1`)
- **Table model**: `TableSession` / `TableSessionPool`, for the relational SQL
  dialect

## Layout

| Path | Contents |
| --- | --- |
| `src/data/` | `Tablet`, `Value`, `TSDataType`, record and TsBlock formats, bitmaps |
| `src/client/` | sessions, result sets, pools, redirect hints |
| `src/connection/` | endpoints, connection and TLS settings, connect budget, TLS setup |
| `src/protocol.rs` | the RPC messages as plain values |
| `src/order.rs`, `wire.rs`, `text.rs`, `chars.rs`, `time.rs` | ordering, byte order, text and time |
| `app/` | sockets, TLS, Thrift, threads: what drives the library |
| `tests/` | tests of the library |

## How it fits together

The library holds no socket and never waits. A session builds requests and takes
in answers; a pool says which session to hand out, open or close, and how long to
wait; a walk says which endpoint to try next; a TLS setup says which file to read
next. `app/` performs these steps and reports back what came of them.

Each function states in its contract what it returns for every input. What holds
across functions is stated by the proof functions whose names begin with `law_`:
that an encoded TsBlock decodes to itself, that a tablet's buffers read back to
its cells, that rows are sent in stable timestamp order, that a pool never loses
count of its sessions, and so on.

Floating-point cells are held by their IEEE 754 bit patterns (`Float32`,
`Float64`); `app/` converts them to `f32` and `f64`.

What is taken on trust stands in small functions marked
`#[verifier::external_body]` next to the code that needs them: PEM parsing, root
certificates and server names of rustls, UTF-8 decoding, `Debug` texts and the
clock of the standard library, appending to a `String`, and the text of a Thrift
error.
