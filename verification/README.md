# spdystream

The accepting side of SPDY/3.1: frames, their header blocks, streams,
connections, and the HTTP/1.1 upgrade that leads to them.

The library under `src/` decides and keeps state. It does no input or output:
a host hands it what was read, and sends what it returns. Its functions carry
contracts that Verus proves, and the laws that relate them are the public proof
functions whose names start with `law_`.

- `wire`, `codec`: numbers and frames as octets
- `headers`, `header_block`: header fields and how a frame carries them
- `zlib`, `dictionary`, `framer`: the compressed streams of header blocks
- `stream`, `connection`: the state of a stream and of a connection
- `server`: the upgrade request
- `error`, `text`, `frame`, `payload`: what the others speak of

`app/` is a tokio host for the library. `tests/` runs the library without one.
