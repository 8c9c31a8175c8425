//! Upstream descriptors: the address of one upstream SOCKS5 proxy and its
//! optional credential pair, and the parsing of one descriptor line of the
//! upstream list: `host:port` or `[host]:port`, optionally followed by
//! `|username:password`.

use crate::addr::spec_find;
use crate::addr::find_byte;
use crate::addr::lemma_spec_find;
use crate::addr::spec_parse_socket_address;
use vstd::prelude::*;
use vstd::utf8::encode_utf8;
use vstd::utf8::valid_utf8;

verus! {

/// A username/password credential pair for RFC 1929 sub-negotiation.
#[derive(Clone, Debug, PartialEq, Eq)]
pub struct ProxyAuth {
    pub username: String,
    pub password: String,
}

/// The mathematical model of a [`ProxyAuth`]: the UTF-8 bytes of each
/// field, the form in which the credentials travel on the wire.
pub struct ProxyAuthView {
    pub username: Seq<u8>,
    pub password: Seq<u8>,
}

impl View for ProxyAuth {
    type V = ProxyAuthView;

    open spec fn view(&self) -> ProxyAuthView {
        ProxyAuthView {
            username: encode_utf8(self.username@),
            password: encode_utf8(self.password@),
        }
    }
}

/// The host part of an upstream address: a literal IPv4 or IPv6 address.
#[derive(Clone, Copy, Debug, PartialEq, Eq)]
pub enum HostAddr {
    V4([u8; 4]),
    V6([u16; 8]),
}

/// The mathematical model of a [`HostAddr`]: the four octets or the eight
/// hextets as sequences.
pub enum HostView {
    V4(Seq<u8>),
    V6(Seq<u16>),
}

impl View for HostAddr {
    type V = HostView;

    open spec fn view(&self) -> HostView {
        match self {
            HostAddr::V4(o) => HostView::V4(o@),
            HostAddr::V6(h) => HostView::V6(h@),
        }
    }
}

/// An upstream network address: host and port.
#[derive(Clone, Copy, Debug, PartialEq, Eq)]
pub struct SocketAddress {
    pub ip: HostAddr,
    pub port: u16,
}

/// The mathematical model of a [`SocketAddress`].
pub struct SocketAddressView {
    pub ip: HostView,
    pub port: u16,
}

impl View for SocketAddress {
    type V = SocketAddressView;

    open spec fn view(&self) -> SocketAddressView {
        SocketAddressView { ip: self.ip@, port: self.port }
    }
}

impl SocketAddress {
    /// True of an IPv4 address.
    pub fn is_ipv4(&self) -> (r: bool)
        ensures
            r == (self.ip is V4),
    {
        match self.ip {
            HostAddr::V4(_) => true,
            HostAddr::V6(_) => false,
        }
    }

    /// True of an IPv6 address.
    pub fn is_ipv6(&self) -> (r: bool)
        ensures
            r == (self.ip is V6),
    {
        match self.ip {
            HostAddr::V4(_) => false,
            HostAddr::V6(_) => true,
        }
    }

    /// The port.
    pub fn port(&self) -> (r: u16)
        ensures
            r == self.port,
    {
        self.port
    }
}

/// One upstream proxy: its network address and, optionally, the credential
/// pair to present to it.
#[derive(Clone, Debug, PartialEq, Eq)]
pub struct Proxy {
    pub addr: SocketAddress,
    pub auth: Option<ProxyAuth>,
}

/// The mathematical model of a [`Proxy`].
pub struct ProxyView {
    pub addr: SocketAddressView,
    pub auth: Option<ProxyAuthView>,
}

impl View for Proxy {
    type V = ProxyView;

    open spec fn view(&self) -> ProxyView {
        ProxyView {
            addr: self.addr@,
            auth: match self.auth {
                Option::None => Option::None,
                Option::Some(a) => Option::Some(a@),
            },
        }
    }
}

/// Relies on alloc's `String::from_utf8`: it succeeds exactly on valid
/// UTF-8 input, and the string it returns holds exactly the input bytes.
#[verifier::external_body]
fn bytes_to_string(v: Vec<u8>) -> (r: Option<String>)
    ensures
        match r {
            Some(t) => valid_utf8(v@) && encode_utf8(t@) == v@,
            None => !valid_utf8(v@),
        },
{
    match String::from_utf8(v) {
        Ok(t) => Some(t),
        Err(_) => None,
    }
}

/// True exactly of valid UTF-8 byte sequences.
pub fn is_valid_utf8(b: &[u8]) -> (r: bool)
    ensures
        r == valid_utf8(b@),
{
    let mut v: Vec<u8> = Vec::new();
    v.extend_from_slice(b);
    proof {
        assert(v@ =~= b@);
    }
    bytes_to_string(v).is_some()
}

/// The descriptor named by one upstream-list line, if the line follows the
/// grammar: an address, optionally `|` and a `username:password` pair.
/// The credential segment ends at the next `|` or the line end, and within
/// it the password runs from the first colon to the next colon or to the
/// segment's end; whatever follows is ignored.
pub open spec fn spec_parse_proxy(s: Seq<u8>) -> Option<ProxyView> {
    match spec_find(s, 0, 0x7C) {
        None => match spec_parse_socket_address(s) {
            None => None,
            Some(a) => Some(ProxyView { addr: a, auth: None }),
        },
        Some(i) => match spec_parse_socket_address(s.subrange(0, i)) {
            None => None,
            Some(a) => {
                let creds_end = match spec_find(s, i + 1, 0x7C) {
                    None => s.len() as int,
                    Some(e) => e,
                };
                let creds = s.subrange(i + 1, creds_end);
                match spec_find(creds, 0, 0x3A) {
                    None => None,
                    Some(j) => {
                        let user = creds.subrange(0, j);
                        let pass = match spec_find(creds, j + 1, 0x3A) {
                            None => creds.subrange(j + 1, creds.len() as int),
                            Some(k) => creds.subrange(j + 1, k),
                        };
                        if valid_utf8(user) && valid_utf8(pass) {
                            Some(
                                ProxyView {
                                    addr: a,
                                    auth: Some(
                                        ProxyAuthView { username: user, password: pass },
                                    ),
                                },
                            )
                        } else {
                            None
                        }
                    },
                }
            },
        },
    }
}

impl Proxy {
    /// Reads one upstream-list line, succeeding exactly on the lines of
    /// the grammar.
    pub fn try_from(line: &[u8]) -> (r: Result<Proxy, ()>)
        ensures
            match r {
                Ok(p) => spec_parse_proxy(line@) == Some(p@),
                Err(()) => spec_parse_proxy(line@) is None,
            },
    {
        let n = line.len();
        match find_byte(line, 0, 0x7C) {
            None => {
                match SocketAddress::parse(line) {
                    None => Err(()),
                    Some(addr) => Ok(Proxy { addr, auth: None }),
                }
            },
            Some(i) => {
                proof {
                    lemma_spec_find(line@, 0, 0x7C);
                }
                let addr_part = &line[0..i];
                let creds_end = match find_byte(line, i + 1, 0x7C) {
                    None => n,
                    Some(e) => {
                        proof {
                            lemma_spec_find(line@, i + 1, 0x7C);
                        }
                        e
                    },
                };
                let creds = &line[i + 1..creds_end];
                proof {
                    assert(addr_part@ =~= line@.subrange(0, i as int));
                    assert(creds@ =~= line@.subrange(i + 1, creds_end as int));
                }
                let addr = match SocketAddress::parse(addr_part) {
                    None => {
                        return Err(());
                    },
                    Some(a) => a,
                };
                let m = creds.len();
                let j = match find_byte(creds, 0, 0x3A) {
                    None => {
                        return Err(());
                    },
                    Some(j) => j,
                };
                proof {
                    lemma_spec_find(creds@, 0, 0x3A);
                }
                let mut user_bytes: Vec<u8> = Vec::new();
                user_bytes.extend_from_slice(&creds[0..j]);
                let mut pass_bytes: Vec<u8> = Vec::new();
                match find_byte(creds, j + 1, 0x3A) {
                    None => {
                        pass_bytes.extend_from_slice(&creds[j + 1..m]);
                        proof {
                            assert(pass_bytes@ =~= creds@.subrange(j + 1, creds@.len() as int));
                        }
                    },
                    Some(k) => {
                        proof {
                            lemma_spec_find(creds@, j + 1, 0x3A);
                        }
                        pass_bytes.extend_from_slice(&creds[j + 1..k]);
                        proof {
                            assert(pass_bytes@ =~= creds@.subrange(j + 1, k as int));
                        }
                    },
                }
                proof {
                    assert(user_bytes@ =~= creds@.subrange(0, j as int));
                }
                let username = match bytes_to_string(user_bytes) {
                    None => {
                        return Err(());
                    },
                    Some(t) => t,
                };
                let password = match bytes_to_string(pass_bytes) {
                    None => {
                        return Err(());
                    },
                    Some(t) => t,
                };
                Ok(Proxy { addr, auth: Some(ProxyAuth { username, password }) })
            },
        }
    }
}

} // verus!
