//! Inbound handshake engine: the server role of the SOCKS5 exchange.
//!
//! The engine is a pure function of the bytes received so far from the
//! arriving client.  The caller reads from the socket, feeds the whole
//! buffer in, and acts on the outcome: wait for more bytes, send the fixed
//! `05 00` method reply after the greeting, or abandon the connection on a
//! protocol violation.  The exchange has two stages: a greeting (version,
//! method count, that many method bytes, all methods ignored because only
//! unauthenticated clients are served), then a CONNECT request (version,
//! command, reserved byte, target address, big-endian port).
//!
//! The exchange ends with the target in hand: by design no CONNECT
//! success or failure reply is sent back to the inbound client before
//! relaying, and a client whose target cannot be reached simply sees its
//! connection close.

use crate::codec::AddrDecodeView;
use crate::codec::SocksAddrType;
use crate::codec::SocksAddrView;
use crate::codec::lemma_decode_done_bounds;
use crate::codec::spec_decode_address;
use crate::codec::try_decode_address;
use crate::codec::AddrDecode;
use crate::errors::ClientError;
use crate::errors::ClientErrorView;
use vstd::prelude::*;

verus! {

/// Outcome of reading the client greeting from the front of a buffer.
#[derive(Clone, Debug, PartialEq, Eq)]
pub enum GreetingStatus {
    /// The buffer is a proper prefix of a greeting.
    NeedMore,
    /// The greeting can never become valid, whatever bytes follow.
    Fail(ClientError),
    /// A valid greeting occupied this many bytes.
    Consumed(usize),
}

/// The mathematical model of a [`GreetingStatus`].
pub enum GreetingView {
    NeedMore,
    Fail(ClientErrorView),
    Consumed(int),
}

impl View for GreetingStatus {
    type V = GreetingView;

    open spec fn view(&self) -> GreetingView {
        match self {
            GreetingStatus::NeedMore => GreetingView::NeedMore,
            GreetingStatus::Fail(e) => GreetingView::Fail(e@),
            GreetingStatus::Consumed(n) => GreetingView::Consumed(*n as int),
        }
    }
}

/// What the greeting stage yields on any byte sequence: the version byte
/// must be 5, the method count must not be zero, and the count's worth of
/// method bytes must have arrived.
pub open spec fn spec_parse_greeting(s: Seq<u8>) -> GreetingView {
    if s.len() < 2 {
        GreetingView::NeedMore
    } else if s[0] != 5 {
        GreetingView::Fail(ClientErrorView::HandShake("Unexpected socks version"@))
    } else if s[1] == 0 {
        GreetingView::Fail(
            ClientErrorView::HandShake("Got empty list of supported authentication methods"@),
        )
    } else if s.len() < 2 + s[1] {
        GreetingView::NeedMore
    } else {
        GreetingView::Consumed(2 + s[1])
    }
}

/// Reads the client greeting from the front of `input`.
pub fn parse_greeting(input: &[u8]) -> (r: GreetingStatus)
    ensures
        r@ == spec_parse_greeting(input@),
{
    if input.len() < 2 {
        return GreetingStatus::NeedMore;
    }
    if input[0] != 5 {
        return GreetingStatus::Fail(
            ClientError::HandShake("Unexpected socks version".to_owned()),
        );
    }
    let n = input[1] as usize;
    if n == 0 {
        return GreetingStatus::Fail(
            ClientError::HandShake(
                "Got empty list of supported authentication methods".to_owned(),
            ),
        );
    }
    if input.len() < 2 + n {
        GreetingStatus::NeedMore
    } else {
        GreetingStatus::Consumed(2 + n)
    }
}

/// The only method reply this server sends after a valid greeting:
/// version 5, method 0 (no authentication).
pub fn greeting_reply() -> (r: Vec<u8>)
    ensures
        r@ == seq![5u8, 0u8],
{
    let mut reply: Vec<u8> = Vec::new();
    reply.push(5);
    reply.push(0);
    proof {
        assert(reply@ =~= seq![5u8, 0u8]);
    }
    reply
}

/// Outcome of reading the CONNECT request from the front of a buffer.
#[derive(Clone, Debug, PartialEq, Eq)]
pub enum RequestStatus {
    /// The buffer is a proper prefix of a request.
    NeedMore,
    /// The request can never become valid, whatever bytes follow.
    Fail(ClientError),
    /// A valid request: the target address, the target port, and the number
    /// of bytes the request occupied.
    Done { addr: SocksAddrType, port: u16, consumed: usize },
}

/// The mathematical model of a [`RequestStatus`].
pub enum RequestView {
    NeedMore,
    Fail(ClientErrorView),
    Done { addr: SocksAddrView, port: u16, consumed: int },
}

impl View for RequestStatus {
    type V = RequestView;

    open spec fn view(&self) -> RequestView {
        match self {
            RequestStatus::NeedMore => RequestView::NeedMore,
            RequestStatus::Fail(e) => RequestView::Fail(e@),
            RequestStatus::Done { addr, port, consumed } => RequestView::Done {
                addr: addr@,
                port: *port,
                consumed: *consumed as int,
            },
        }
    }
}

/// The value of two bytes read as a big-endian 16-bit integer.
pub open spec fn spec_be16(hi: u8, lo: u8) -> u16 {
    ((hi as int) * 256 + (lo as int)) as u16
}

/// What the request stage yields on any byte sequence: a four-byte header
/// (version 5, command 1 for CONNECT, reserved byte 0, address tag), the
/// encoded target address, and a two-byte big-endian port.
pub open spec fn spec_parse_request(s: Seq<u8>) -> RequestView {
    if s.len() < 4 {
        RequestView::NeedMore
    } else if s[0] != 5 {
        RequestView::Fail(ClientErrorView::HandShake("Unexpected socks version"@))
    } else if s[1] != 1 {
        RequestView::Fail(
            ClientErrorView::HandShake("Only tcp/ip stream connections are supported"@),
        )
    } else if s[2] != 0 {
        RequestView::Fail(ClientErrorView::HandShake("Reserved field is not zero"@))
    } else {
        match spec_decode_address(s.skip(3)) {
            AddrDecodeView::NeedMore => RequestView::NeedMore,
            AddrDecodeView::Invalid => RequestView::Fail(
                ClientErrorView::HandShake("Unsupported address type"@),
            ),
            AddrDecodeView::Done(addr, n) => {
                if s.len() < 3 + n + 2 {
                    RequestView::NeedMore
                } else {
                    RequestView::Done {
                        addr,
                        port: spec_be16(s[3 + n], s[3 + n + 1]),
                        consumed: 3 + n + 2,
                    }
                }
            },
        }
    }
}

/// A completed request consumed between 8 bytes and the whole buffer, and
/// its target address is well-formed.
pub proof fn lemma_request_done_bounds(s: Seq<u8>)
    requires
        spec_parse_request(s) is Done,
    ensures
        spec_parse_request(s) matches RequestView::Done { addr, consumed, .. } ==> {
            &&& addr.wf()
            &&& 8 <= consumed <= s.len()
        },
{
    if spec_parse_request(s) is Done {
        lemma_decode_done_bounds(s.skip(3));
    }
}

/// Reads the CONNECT request from the front of `input`.
pub fn parse_request(input: &[u8]) -> (r: RequestStatus)
    ensures
        r@ == spec_parse_request(input@),
{
    if input.len() < 4 {
        return RequestStatus::NeedMore;
    }
    if input[0] != 5 {
        return RequestStatus::Fail(
            ClientError::HandShake("Unexpected socks version".to_owned()),
        );
    }
    if input[1] != 1 {
        return RequestStatus::Fail(
            ClientError::HandShake("Only tcp/ip stream connections are supported".to_owned()),
        );
    }
    if input[2] != 0 {
        return RequestStatus::Fail(
            ClientError::HandShake("Reserved field is not zero".to_owned()),
        );
    }
    let rest = &input[3..input.len()];
    proof {
        assert(rest@ =~= input@.skip(3));
    }
    match try_decode_address(rest) {
        AddrDecode::NeedMore => RequestStatus::NeedMore,
        AddrDecode::Invalid => RequestStatus::Fail(
            ClientError::HandShake("Unsupported address type".to_owned()),
        ),
        AddrDecode::Done(addr, n) => {
            proof {
                lemma_decode_done_bounds(input@.skip(3));
            }
            if input.len() < 3 + n + 2 {
                RequestStatus::NeedMore
            } else {
                let hi = input[3 + n];
                let lo = input[3 + n + 1];
                let port: u16 = (hi as u16) * 256 + (lo as u16);
                RequestStatus::Done { addr, port, consumed: 3 + n + 2 }
            }
        },
    }
}

/// What the whole inbound exchange yields: the greeting, then the request
/// on the bytes that follow it, with the consumed counts added up.
pub open spec fn spec_handshake_target(s: Seq<u8>) -> RequestView {
    match spec_parse_greeting(s) {
        GreetingView::NeedMore => RequestView::NeedMore,
        GreetingView::Fail(e) => RequestView::Fail(e),
        GreetingView::Consumed(g) => match spec_parse_request(s.skip(g)) {
            RequestView::NeedMore => RequestView::NeedMore,
            RequestView::Fail(e) => RequestView::Fail(e),
            RequestView::Done { addr, port, consumed } => RequestView::Done {
                addr,
                port,
                consumed: g + consumed,
            },
        },
    }
}

/// A target yielded by the whole exchange is well-formed, and the exchange
/// consumed no more than the buffer holds.
pub proof fn lemma_handshake_target_done_bounds(s: Seq<u8>)
    requires
        spec_handshake_target(s) is Done,
    ensures
        spec_handshake_target(s) matches RequestView::Done { addr, consumed, .. } ==> {
            &&& addr.wf()
            &&& 10 <= consumed <= s.len()
        },
{
    match spec_parse_greeting(s) {
        GreetingView::Consumed(g) => lemma_request_done_bounds(s.skip(g)),
        _ => (),
    }
}

/// Runs the whole inbound exchange on the bytes received so far: greeting
/// first, then the CONNECT request on the remainder.
///
/// The caller still sends [`greeting_reply`] between the two stages; this
/// function only finds the target the client asked for.
pub fn handshake_target(input: &[u8]) -> (r: RequestStatus)
    ensures
        r@ == spec_handshake_target(input@),
{
    match parse_greeting(input) {
        GreetingStatus::NeedMore => RequestStatus::NeedMore,
        GreetingStatus::Fail(e) => RequestStatus::Fail(e),
        GreetingStatus::Consumed(g) => {
            let rest = &input[g..input.len()];
            proof {
                assert(rest@ =~= input@.skip(g as int));
            }
            match parse_request(rest) {
                RequestStatus::NeedMore => RequestStatus::NeedMore,
                RequestStatus::Fail(e) => RequestStatus::Fail(e),
                RequestStatus::Done { addr, port, consumed } => {
                    proof {
                        lemma_request_done_bounds(input@.skip(g as int));
                    }
                    RequestStatus::Done { addr, port, consumed: g + consumed }
                },
            }
        },
    }
}

} // verus!
