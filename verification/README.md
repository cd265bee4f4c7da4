# jasonrpc

JSON-RPC 2.0, with the rules of the protocol proved in [Verus](https://github.com/verus-lang/verus).

The library does no I/O. It takes bytes and hands out bytes, and where something must be waited
for (a read, a handler, a dial, a response over HTTP) it says what is to be done next and is told
what became of it. Params, results and error data are kept as their JSON text and are never
encoded again.

## Layout

| Module | Holds |
|--------|-------|
| `json`, `object`, `numeral` | JSON texts: values, strings, arrays, the members of objects, numerals |
| `protocol` | `Version`, `Id`, `Error`, `Request`, `Response` and their exact JSON |
| `server` | `Router`: which handlers a message runs, and what is sent back |
| `client` | ids of calls, encoding of calls, matching of responses; `client::multiplex` shares a connection, `client::uds` dials again, `client::http` exchanges over HTTP |
| `transport` | framings (`Newline`, `Netstring`), and in `transport::io` readers and writers of whole messages |
| `integration` | serving over HTTP and over WebSocket |
| `error`, `span` | failures of transports and clients; lengths of time |

What holds across functions is stated and proved in `protocol_laws`, `server_laws`, `client_laws`
and `transport_laws`.

`serde_json` reads and writes the single values, `memchr` finds the ends of lines, `itoa` writes
numerals, and `http` checks URIs, headers and statuses. What the proofs rely on of each of their
functions stands at the item that calls it, above `external_body` or in `assume_specification`.

`app/` is the ordinary Rust around the library: typed calls through serde, handlers, Tokio streams,
Hyper, Tower and WebSocket connections. `tests/` runs the library on concrete messages.
