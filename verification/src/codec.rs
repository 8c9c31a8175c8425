//! SOCKS5 address codec.
//!
//! RFC 1928 carries a target address as one tag byte followed by a payload:
//! tag 1 is an IPv4 address (4 bytes), tag 3 a domain name (one length byte,
//! then that many bytes), tag 4 an IPv6 address (16 bytes).  This module
//! holds the address value, its wire encoding and decoding, and the textual
//! rendering used for logging.

use crate::errors::ClientError;
use vstd::prelude::*;

verus! {

/// Wire tag for an IPv4 address.
pub const ATYP_IPV4: u8 = 1;

/// Wire tag for a domain name.
pub const ATYP_DOMAIN: u8 = 3;

/// Wire tag for an IPv6 address.
pub const ATYP_IPV6: u8 = 4;

/// A SOCKS5 target address as carried on the wire.
///
/// The payload bytes are owned; a well-formed value (see
/// [`SocksAddrView::wf`]) has exactly 4 bytes for `Ipv4`, 1 to 255 bytes for
/// `Domain`, and exactly 16 bytes for `Ipv6`.
#[derive(Clone, Debug, PartialEq, Eq)]
pub enum SocksAddrType {
    Ipv4(Vec<u8>),
    Domain(Vec<u8>),
    Ipv6(Vec<u8>),
}

/// The mathematical model of a [`SocksAddrType`]: the same three variants
/// over byte sequences.
pub enum SocksAddrView {
    Ipv4(Seq<u8>),
    Domain(Seq<u8>),
    Ipv6(Seq<u8>),
}

impl View for SocksAddrType {
    type V = SocksAddrView;

    open spec fn view(&self) -> SocksAddrView {
        match self {
            SocksAddrType::Ipv4(b) => SocksAddrView::Ipv4(b@),
            SocksAddrType::Domain(b) => SocksAddrView::Domain(b@),
            SocksAddrType::Ipv6(b) => SocksAddrView::Ipv6(b@),
        }
    }
}

impl SocksAddrView {
    /// Payload lengths allowed by the wire format: fixed for the two IP
    /// forms, 1 to 255 (one length-prefix byte, never empty) for a domain.
    pub open spec fn wf(self) -> bool {
        match self {
            SocksAddrView::Ipv4(b) => b.len() == 4,
            SocksAddrView::Domain(b) => 1 <= b.len() <= 255,
            SocksAddrView::Ipv6(b) => b.len() == 16,
        }
    }

    /// The wire encoding: tag byte, then (for a domain) the length byte,
    /// then the payload.
    pub open spec fn encoded(self) -> Seq<u8> {
        match self {
            SocksAddrView::Ipv4(b) => seq![ATYP_IPV4] + b,
            SocksAddrView::Domain(b) => seq![ATYP_DOMAIN, b.len() as u8] + b,
            SocksAddrView::Ipv6(b) => seq![ATYP_IPV6] + b,
        }
    }
}

/// Outcome of reading one address from the front of a byte buffer.
#[derive(Clone, Debug, PartialEq, Eq)]
pub enum AddrDecode {
    /// The buffer holds a proper prefix of an address; more bytes may
    /// complete it.
    NeedMore,
    /// The buffer can never start with an address: unknown tag byte, or a
    /// domain length byte of zero.
    Invalid,
    /// An address and the number of bytes it occupied.
    Done(SocksAddrType, usize),
}

/// The mathematical model of an [`AddrDecode`].
pub enum AddrDecodeView {
    NeedMore,
    Invalid,
    Done(SocksAddrView, int),
}

impl View for AddrDecode {
    type V = AddrDecodeView;

    open spec fn view(&self) -> AddrDecodeView {
        match self {
            AddrDecode::NeedMore => AddrDecodeView::NeedMore,
            AddrDecode::Invalid => AddrDecodeView::Invalid,
            AddrDecode::Done(a, n) => AddrDecodeView::Done(a@, *n as int),
        }
    }
}

/// What decoding yields on any byte sequence: the unique address encoded at
/// the front of `s`, the demand for more bytes while `s` is still a prefix
/// of one, or a rejection that no extension of `s` can cure.
pub open spec fn spec_decode_address(s: Seq<u8>) -> AddrDecodeView {
    if s.len() < 1 {
        AddrDecodeView::NeedMore
    } else if s[0] == ATYP_IPV4 {
        if s.len() < 5 {
            AddrDecodeView::NeedMore
        } else {
            AddrDecodeView::Done(SocksAddrView::Ipv4(s.subrange(1, 5)), 5)
        }
    } else if s[0] == ATYP_DOMAIN {
        if s.len() < 2 {
            AddrDecodeView::NeedMore
        } else if s[1] == 0 {
            AddrDecodeView::Invalid
        } else if s.len() < 2 + s[1] {
            AddrDecodeView::NeedMore
        } else {
            AddrDecodeView::Done(
                SocksAddrView::Domain(s.subrange(2, 2 + s[1])),
                2 + s[1],
            )
        }
    } else if s[0] == ATYP_IPV6 {
        if s.len() < 17 {
            AddrDecodeView::NeedMore
        } else {
            AddrDecodeView::Done(SocksAddrView::Ipv6(s.subrange(1, 17)), 17)
        }
    } else {
        AddrDecodeView::Invalid
    }
}

/// Reads one address from the front of `bytes`, reporting whether the buffer
/// is complete, incomplete, or unacceptable.
pub fn try_decode_address(bytes: &[u8]) -> (r: AddrDecode)
    ensures
        r@ == spec_decode_address(bytes@),
{
    if bytes.len() < 1 {
        return AddrDecode::NeedMore;
    }
    let tag = bytes[0];
    if tag == ATYP_IPV4 {
        if bytes.len() < 5 {
            AddrDecode::NeedMore
        } else {
            let mut payload: Vec<u8> = Vec::new();
            payload.extend_from_slice(&bytes[1..5]);
            proof {
                assert(payload@ =~= bytes@.subrange(1, 5));
            }
            AddrDecode::Done(SocksAddrType::Ipv4(payload), 5)
        }
    } else if tag == ATYP_DOMAIN {
        if bytes.len() < 2 {
            AddrDecode::NeedMore
        } else {
            let n = bytes[1] as usize;
            if n == 0 {
                AddrDecode::Invalid
            } else if bytes.len() < 2 + n {
                AddrDecode::NeedMore
            } else {
                let mut payload: Vec<u8> = Vec::new();
                payload.extend_from_slice(&bytes[2..2 + n]);
                proof {
                    assert(payload@ =~= bytes@.subrange(2, 2 + bytes@[1]));
                }
                AddrDecode::Done(SocksAddrType::Domain(payload), 2 + n)
            }
        }
    } else if tag == ATYP_IPV6 {
        if bytes.len() < 17 {
            AddrDecode::NeedMore
        } else {
            let mut payload: Vec<u8> = Vec::new();
            payload.extend_from_slice(&bytes[1..17]);
            proof {
                assert(payload@ =~= bytes@.subrange(1, 17));
            }
            AddrDecode::Done(SocksAddrType::Ipv6(payload), 17)
        }
    } else {
        AddrDecode::Invalid
    }
}

/// Reads one address from the front of `bytes`, as a `Result`.
///
/// Succeeds exactly when `bytes` starts with a complete well-formed address;
/// a truncated buffer and a rejected one both come back as a handshake
/// error, as they do when the bytes arrive from a socket.
pub fn decode_address(bytes: &[u8]) -> (r: Result<(SocksAddrType, usize), ClientError>)
    ensures
        match r {
            Ok((a, n)) => spec_decode_address(bytes@) == AddrDecodeView::Done(a@, n as int),
            Err(e) => match spec_decode_address(bytes@) {
                AddrDecodeView::NeedMore => e@ == crate::errors::ClientErrorView::HandShake(
                    "Failed to read handshake"@,
                ),
                AddrDecodeView::Invalid => e@ == crate::errors::ClientErrorView::HandShake(
                    "Unsupported address type"@,
                ),
                AddrDecodeView::Done(_, _) => false,
            },
        },
        spec_decode_address(bytes@) is Done ==> r is Ok,
{
    match try_decode_address(bytes) {
        AddrDecode::Done(a, n) => Ok((a, n)),
        AddrDecode::NeedMore => Err(
            ClientError::HandShake("Failed to read handshake".to_owned()),
        ),
        AddrDecode::Invalid => Err(
            ClientError::HandShake("Unsupported address type".to_owned()),
        ),
    }
}

impl SocksAddrType {
    /// The wire encoding of this address: tag byte, optional length byte,
    /// payload.
    pub fn encode_address(&self) -> (r: Vec<u8>)
        requires
            self@.wf(),
        ensures
            r@ == self@.encoded(),
    {
        let mut buf: Vec<u8> = Vec::new();
        match self {
            SocksAddrType::Ipv4(addr) => {
                buf.push(ATYP_IPV4);
                buf.extend_from_slice(addr.as_slice());
            },
            SocksAddrType::Domain(domain) => {
                buf.push(ATYP_DOMAIN);
                buf.push(domain.len() as u8);
                buf.extend_from_slice(domain.as_slice());
            },
            SocksAddrType::Ipv6(addr) => {
                buf.push(ATYP_IPV6);
                buf.extend_from_slice(addr.as_slice());
            },
        }
        proof {
            assert(buf@ =~= self@.encoded());
        }
        buf
    }

    /// The full CONNECT request frame for this target: the fixed header
    /// `05 01 00` (version 5, command CONNECT, reserved 0) followed by the
    /// encoded address.
    pub fn to_bytes(&self) -> (r: Vec<u8>)
        requires
            self@.wf(),
        ensures
            r@ == seq![5u8, 1u8, 0u8] + self@.encoded(),
    {
        let mut buf: Vec<u8> = Vec::new();
        buf.push(5);
        buf.push(1);
        buf.push(0);
        let mut encoded = self.encode_address();
        buf.append(&mut encoded);
        proof {
            assert(buf@ =~= seq![5u8, 1u8, 0u8] + self@.encoded());
        }
        buf
    }

    /// The wire encoding of this address, refusing any address the wire
    /// format cannot carry: it succeeds exactly on the well-formed ones,
    /// so a domain of 0 bytes, or of 256 or more (which no single length
    /// byte can state), is rejected rather than framed with a wrong
    /// length.
    pub fn try_encode_address(&self) -> (r: Result<Vec<u8>, ClientError>)
        ensures
            self@.wf() <==> r is Ok,
            r matches Ok(b) ==> b@ == self@.encoded(),
            r matches Err(e) ==> e@ == crate::errors::ClientErrorView::HandShake(
                "Unsupported address type"@,
            ),
    {
        let ok = match self {
            SocksAddrType::Ipv4(b) => b.len() == 4,
            SocksAddrType::Domain(b) => 1 <= b.len() && b.len() <= 255,
            SocksAddrType::Ipv6(b) => b.len() == 16,
        };
        if ok {
            Ok(self.encode_address())
        } else {
            Err(ClientError::HandShake("Unsupported address type".to_owned()))
        }
    }

    /// Builds a domain-name address, rejecting lengths the wire format
    /// cannot carry: a domain must have 1 to 255 bytes.
    pub fn new_domain(name: Vec<u8>) -> (r: Result<SocksAddrType, ClientError>)
        ensures
            1 <= name@.len() <= 255 ==> r == Ok::<SocksAddrType, ClientError>(
                SocksAddrType::Domain(name),
            ),
            !(1 <= name@.len() <= 255) ==> (r matches Err(e) && e is HandShake),
    {
        if name.len() == 0 || name.len() > 255 {
            Err(ClientError::HandShake("Unsupported address type".to_owned()))
        } else {
            Ok(SocksAddrType::Domain(name))
        }
    }
}

/// The decimal rendering of a byte value: one, two or three ASCII digits,
/// no leading zeros.
pub open spec fn dec_digits(n: int) -> Seq<u8> {
    if n < 10 {
        seq![(0x30 + n) as u8]
    } else if n < 100 {
        seq![(0x30 + n / 10) as u8, (0x30 + n % 10) as u8]
    } else {
        seq![(0x30 + n / 100) as u8, (0x30 + (n / 10) % 10) as u8, (0x30 + n % 10) as u8]
    }
}

/// The uppercase hexadecimal digit for a value below 16.
pub open spec fn hex_digit(n: int) -> u8 {
    if n < 10 {
        (0x30 + n) as u8
    } else {
        (0x37 + n) as u8
    }
}

/// A byte as two uppercase hexadecimal digits.
pub open spec fn hex_byte(b: u8) -> Seq<u8> {
    seq![hex_digit(b as int / 16), hex_digit(b as int % 16)]
}

/// One hextet group of an IPv6 rendering: the two bytes at positions `2 * i`
/// and `2 * i + 1`, four hexadecimal digits in all.
pub open spec fn v6_group(b: Seq<u8>, i: int) -> Seq<u8> {
    hex_byte(b[2 * i]) + hex_byte(b[2 * i + 1])
}

/// True of the ASCII codes that an uppercase hexadecimal digit can be.
pub open spec fn is_hex_ascii(c: u8) -> bool {
    (0x30 <= c <= 0x39) || (0x41 <= c <= 0x46)
}

impl SocksAddrView {
    /// The textual rendering: dotted quad for IPv4, the raw bytes for a
    /// domain name, and for IPv6 a bracketed list of 8 colon-separated
    /// four-digit hexadecimal groups.
    pub open spec fn rendered(self) -> Seq<u8> {
        match self {
            SocksAddrView::Ipv4(b) => dec_digits(b[0] as int) + seq![0x2Eu8] + dec_digits(
                b[1] as int,
            ) + seq![0x2Eu8] + dec_digits(b[2] as int) + seq![0x2Eu8] + dec_digits(b[3] as int),
            SocksAddrView::Domain(b) => b,
            SocksAddrView::Ipv6(b) => seq![0x5Bu8] + v6_group(b, 0) + seq![0x3Au8] + v6_group(b, 1)
                + seq![0x3Au8] + v6_group(b, 2) + seq![0x3Au8] + v6_group(b, 3) + seq![0x3Au8]
                + v6_group(b, 4) + seq![0x3Au8] + v6_group(b, 5) + seq![0x3Au8] + v6_group(b, 6)
                + seq![0x3Au8] + v6_group(b, 7) + seq![0x5Du8],
        }
    }
}

/// Appends the decimal rendering of `n`.
fn push_dec(buf: &mut Vec<u8>, n: u8)
    ensures
        final(buf)@ == old(buf)@ + dec_digits(n as int),
{
    if n >= 100 {
        buf.push(0x30 + n / 100);
    }
    if n >= 10 {
        buf.push(0x30 + (n / 10) % 10);
    }
    buf.push(0x30 + n % 10);
    proof {
        assert(buf@ =~= old(buf)@ + dec_digits(n as int));
    }
}

/// Appends the two uppercase hexadecimal digits of `b`.
fn push_hex_byte(buf: &mut Vec<u8>, b: u8)
    ensures
        final(buf)@ == old(buf)@ + hex_byte(b),
{
    let hi = b / 16;
    let lo = b % 16;
    buf.push(if hi < 10 { 0x30 + hi } else { 0x37 + hi });
    buf.push(if lo < 10 { 0x30 + lo } else { 0x37 + lo });
    proof {
        assert(buf@ =~= old(buf)@ + hex_byte(b));
    }
}

impl SocksAddrType {
    /// The textual rendering of the address, as the bytes of an ASCII string
    /// for the two IP forms and the raw name bytes for a domain.
    #[verifier::rlimit(30)]
    pub fn display_bytes(&self) -> (r: Vec<u8>)
        requires
            self@.wf(),
        ensures
            r@ == self@.rendered(),
    {
        let mut buf: Vec<u8> = Vec::new();
        match self {
            SocksAddrType::Ipv4(b) => {
                push_dec(&mut buf, b[0]);
                buf.push(0x2E);
                push_dec(&mut buf, b[1]);
                buf.push(0x2E);
                push_dec(&mut buf, b[2]);
                buf.push(0x2E);
                push_dec(&mut buf, b[3]);
                proof {
                    assert(buf@ =~= self@.rendered());
                }
            },
            SocksAddrType::Domain(b) => {
                buf.extend_from_slice(b.as_slice());
                proof {
                    assert(buf@ =~= self@.rendered());
                }
            },
            SocksAddrType::Ipv6(b) => {
                buf.push(0x5B);
                push_hex_byte(&mut buf, b[0]);
                push_hex_byte(&mut buf, b[1]);
                buf.push(0x3A);
                push_hex_byte(&mut buf, b[2]);
                push_hex_byte(&mut buf, b[3]);
                buf.push(0x3A);
                push_hex_byte(&mut buf, b[4]);
                push_hex_byte(&mut buf, b[5]);
                buf.push(0x3A);
                push_hex_byte(&mut buf, b[6]);
                push_hex_byte(&mut buf, b[7]);
                buf.push(0x3A);
                push_hex_byte(&mut buf, b[8]);
                push_hex_byte(&mut buf, b[9]);
                buf.push(0x3A);
                push_hex_byte(&mut buf, b[10]);
                push_hex_byte(&mut buf, b[11]);
                buf.push(0x3A);
                push_hex_byte(&mut buf, b[12]);
                push_hex_byte(&mut buf, b[13]);
                buf.push(0x3A);
                push_hex_byte(&mut buf, b[14]);
                push_hex_byte(&mut buf, b[15]);
                buf.push(0x5D);
                proof {
                    assert(buf@ =~= self@.rendered());
                }
            },
        }
        buf
    }
}

/// Decoding inverts encoding: any well-formed address comes back unchanged
/// from its own wire bytes, with every byte consumed.
pub proof fn lemma_address_round_trip(a: SocksAddrView)
    requires
        a.wf(),
    ensures
        spec_decode_address(a.encoded()) == AddrDecodeView::Done(a, a.encoded().len() as int),
{
    let s = a.encoded();
    match a {
        SocksAddrView::Ipv4(b) => {
            assert(s.subrange(1, 5) =~= b);
        },
        SocksAddrView::Domain(b) => {
            assert(s[1] == b.len() as u8);
            assert(s.subrange(2, 2 + s[1]) =~= b);
        },
        SocksAddrView::Ipv6(b) => {
            assert(s.subrange(1, 17) =~= b);
        },
    }
}

/// A domain length byte of zero is rejected outright, whatever follows.
pub proof fn lemma_zero_length_domain_rejected(s: Seq<u8>)
    requires
        s.len() >= 2,
        s[0] == ATYP_DOMAIN,
        s[1] == 0,
    ensures
        spec_decode_address(s) == AddrDecodeView::Invalid,
{
}

/// A completed decode consumed between 3 bytes (the shortest domain form)
/// and the whole buffer, and the address it produced is well-formed.
pub proof fn lemma_decode_done_bounds(s: Seq<u8>)
    requires
        spec_decode_address(s) is Done,
    ensures
        spec_decode_address(s) matches AddrDecodeView::Done(a, n) ==> {
            &&& a.wf()
            &&& 3 <= n <= s.len()
        },
{
}

/// The rendering of an IPv6 address is exactly 8 colon-separated hextet
/// groups in brackets: 41 bytes, a bracket at each end, a colon at every
/// fifth position in between, and hexadecimal digits everywhere else.
pub proof fn lemma_ipv6_display_shape(b: Seq<u8>)
    requires
        b.len() == 16,
    ensures
        SocksAddrView::Ipv6(b).rendered().len() == 41,
        SocksAddrView::Ipv6(b).rendered()[0] == 0x5Bu8,
        SocksAddrView::Ipv6(b).rendered()[40] == 0x5Du8,
        forall|i: int|
            1 <= i <= 39 && i % 5 == 0 ==> #[trigger] SocksAddrView::Ipv6(b).rendered()[i]
                == 0x3Au8,
        forall|i: int|
            1 <= i <= 39 && i % 5 != 0 ==> is_hex_ascii(
                #[trigger] SocksAddrView::Ipv6(b).rendered()[i],
            ),
{
    let r = SocksAddrView::Ipv6(b).rendered();
    assert forall|j: int| 0 <= j < 16 implies {
        &&& is_hex_ascii(hex_byte(b[j])[0])
        &&& is_hex_ascii(hex_byte(b[j])[1])
    } by {
        assert(0 <= b[j] as int / 16 < 16);
        assert(0 <= b[j] as int % 16 < 16);
    }
    assert(r.len() == 41);
    assert forall|i: int| 1 <= i <= 39 && i % 5 == 0 implies r[i] == 0x3Au8 by {
        assert(r[5] == 0x3Au8);
        assert(r[10] == 0x3Au8);
        assert(r[15] == 0x3Au8);
        assert(r[20] == 0x3Au8);
        assert(r[25] == 0x3Au8);
        assert(r[30] == 0x3Au8);
        assert(r[35] == 0x3Au8);
    }
    assert forall|i: int| 1 <= i <= 39 && i % 5 != 0 implies is_hex_ascii(r[i]) by {
        let k = (i - 1) / 5;
        let off = (i - 1) % 5;
        assert(r[i] == v6_group(b, k)[off]);
    }
}

} // verus!
