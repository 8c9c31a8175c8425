//! Outbound handshake engine: the client role of the SOCKS5 exchange.
//!
//! Talking to an upstream proxy, the service sends a no-auth greeting,
//! checks the method-selection reply, optionally sends an RFC 1929
//! username/password sub-negotiation, and finally sends a CONNECT request
//! for the target the inbound client asked for.  This module builds and
//! checks those byte frames; the caller moves them over the socket.
//!
//! The credential frame is fire-and-forget by design: the upstream's
//! sub-negotiation status reply is drained, not validated, before the
//! CONNECT request goes out.

use crate::codec::SocksAddrType;
use crate::errors::ClientError;
use crate::errors::ClientErrorView;
use crate::inbound::spec_be16;
use crate::proxy::ProxyAuth;
use vstd::prelude::*;

verus! {

/// The greeting this client sends to an upstream proxy: version 5, one
/// method offered, method 0 (no authentication).
pub fn outbound_greeting() -> (r: Vec<u8>)
    ensures
        r@ == seq![5u8, 1u8, 0u8],
{
    let mut buf: Vec<u8> = Vec::new();
    buf.push(5);
    buf.push(1);
    buf.push(0);
    proof {
        assert(buf@ =~= seq![5u8, 1u8, 0u8]);
    }
    buf
}

/// Checks the upstream's method-selection reply: at least two bytes must
/// have come back and the first must be version 5.
pub fn check_method_reply(reply: &[u8]) -> (r: Result<(), ClientError>)
    ensures
        r is Ok <==> (reply@.len() >= 2 && reply@[0] == 5),
        r matches Err(e) ==> e@ == ClientErrorView::HandShake("Invalid proxy response"@),
{
    if reply.len() < 2 || reply[0] != 5 {
        Err(ClientError::HandShake("Invalid proxy response".to_owned()))
    } else {
        Ok(())
    }
}

/// The RFC 1929 sub-negotiation frame: version 1, then the length-prefixed
/// username and the length-prefixed password.
///
/// Each credential must fit its one-byte length prefix.
pub fn auth_request(auth: &ProxyAuth) -> (r: Vec<u8>)
    requires
        auth@.username.len() <= 255,
        auth@.password.len() <= 255,
    ensures
        r@ == seq![1u8, auth@.username.len() as u8] + auth@.username + seq![
            auth@.password.len() as u8,
        ] + auth@.password,
{
    let mut buf: Vec<u8> = Vec::new();
    buf.push(1);
    let user = auth.username.as_str().as_bytes();
    buf.push(user.len() as u8);
    buf.extend_from_slice(user);
    let pass = auth.password.as_str().as_bytes();
    buf.push(pass.len() as u8);
    buf.extend_from_slice(pass);
    proof {
        assert(buf@ =~= seq![1u8, auth@.username.len() as u8] + auth@.username + seq![
            auth@.password.len() as u8,
        ] + auth@.password);
    }
    buf
}

/// The two big-endian bytes of a port.
pub open spec fn port_bytes(port: u16) -> Seq<u8> {
    seq![(port as int / 256) as u8, (port as int % 256) as u8]
}

/// Splitting a port into its two big-endian bytes and reading them back
/// yields the port.
pub proof fn lemma_port_round_trip(port: u16)
    ensures
        spec_be16(port_bytes(port)[0], port_bytes(port)[1]) == port,
{
}

/// The CONNECT request frame for one target: the fixed header `05 01 00`,
/// the encoded target address, and the big-endian port.
pub fn connect_request(addr: &SocksAddrType, port: u16) -> (r: Vec<u8>)
    requires
        addr@.wf(),
    ensures
        r@ == seq![5u8, 1u8, 0u8] + addr@.encoded() + port_bytes(port),
{
    let mut buf = addr.to_bytes();
    buf.push((port / 256) as u8);
    buf.push((port % 256) as u8);
    proof {
        assert(buf@ =~= seq![5u8, 1u8, 0u8] + addr@.encoded() + port_bytes(port));
    }
    buf
}

} // verus!
