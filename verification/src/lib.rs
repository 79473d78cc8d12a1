//! A verified engine for a single-process server that upgrades HTTP
//! connections to full-duplex message exchange: the binary frame codec, the
//! handshake processor, the per-connection state machine, and the dispatch
//! table of live connections. Sockets, the readiness poller and the header
//! tokenizer stay with the embedding process, which feeds bytes and events
//! in and performs the I/O the library decides on.

pub mod connection;
pub mod frame;
pub mod handshake;
pub mod server;
