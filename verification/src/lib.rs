//! A rotating SOCKS5 forward proxy library.
//!
//! The crate holds the protocol core of the proxy: the SOCKS5 address codec,
//! the inbound (server-role) and outbound (client-role) handshake engines,
//! the upstream-list parser, and the hot-swappable upstream pool.  All byte
//! framing follows RFC 1928, with RFC 1929 username/password sub-negotiation
//! on the outbound side.  Network I/O stays outside the library: the engines
//! work on plain byte buffers, and the callers move the bytes.

pub mod addr;
pub mod codec;
pub mod errors;
pub mod inbound;
pub mod list;
pub mod outbound;
pub mod pool;
pub mod proxy;
pub mod session;
