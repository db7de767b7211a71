# yggdrasil links

The link layer of a mesh node as a verified library: peers and listeners, the
handshake and its rules, throttling, reconnecting, and Tor Pluggable Transports
(PT spec v1). Written in Rust with [Verus](https://github.com/verus-lang/verus)
contracts.

- `src/` is the library. It makes no system calls: a caller does the I/O, hands
  over what came of it and gets back what to do next. Each module's laws stand
  at its end as public proof functions.
- `app/` runs the library over tokio: sockets, TLS, subprocesses and tasks. The
  node itself (`Core`) and its WebSocket and QUIC transports come in through
  the traits of `app/host.rs`.
- `tests/` runs the library on concrete values.

## What is trusted

The library calls a few functions that Verus does not read. Each stands behind
a small function, or a specification, whose doc comment says what is believed
of it:

| Where | What is called |
|---|---|
| `src/link_url.rs` | `url::Url::parse` and the getters of `Url` |
| `src/options.rs` | `hex::decode`, `str::parse::<u8>` |
| `src/dial.rs` | `rustls::pki_types::{ServerName, IpAddr}::try_from` |
| `src/percent.rs` | `String::from_utf8_lossy` |
| `src/text.rs` | `String::push` |

## Times

The library has no clock. Moments are nanoseconds since one that the caller
fixes once (`app/convert.rs` does), durations are whole seconds.
