//! Textual parsing of upstream addresses.
//!
//! The upstream list names each proxy as `host:port` for an IPv4 host or
//! `[host]:port` for an IPv6 host.  This module defines that grammar as
//! specification functions and parses it in verified code: decimal octets
//! of at most three digits, a decimal port up to 65535, and the usual IPv6
//! hextet notation with at most one `::` run standing for the missing zero
//! groups and an optional dotted-quad tail for the last two hextets.
//! Leading zeros in octets and ports are accepted.  Zone suffixes are not
//! part of the grammar: a descriptor names a host and port only, and has
//! no field a scope identifier could fill.

use crate::proxy::HostAddr;
use crate::proxy::HostView;
use crate::proxy::SocketAddress;
use crate::proxy::SocketAddressView;
use vstd::prelude::*;

verus! {

/// True of an ASCII decimal digit.
pub open spec fn is_digit(c: u8) -> bool {
    0x30 <= c <= 0x39
}

/// True of an ASCII hexadecimal digit, either case.
pub open spec fn is_hex(c: u8) -> bool {
    is_digit(c) || (0x41 <= c <= 0x46) || (0x61 <= c <= 0x66)
}

/// The value of one hexadecimal digit.
pub open spec fn hex_digit_value(c: u8) -> int {
    if is_digit(c) {
        c - 0x30
    } else if c <= 0x46 {
        c - 0x37
    } else {
        c - 0x57
    }
}

/// True when every byte of `s` is a decimal digit.
pub open spec fn all_digits(s: Seq<u8>) -> bool {
    forall|i: int| 0 <= i < s.len() ==> is_digit(#[trigger] s[i])
}

/// True when every byte of `s` is a hexadecimal digit.
pub open spec fn all_hex(s: Seq<u8>) -> bool {
    forall|i: int| 0 <= i < s.len() ==> is_hex(#[trigger] s[i])
}

/// The value of `s` read as a decimal numeral.
pub open spec fn dec_value(s: Seq<u8>) -> int
    decreases s.len(),
{
    if s.len() == 0 {
        0
    } else {
        dec_value(s.drop_last()) * 10 + (s.last() - 0x30)
    }
}

/// The value of `s` read as a hexadecimal numeral.
pub open spec fn hex_value(s: Seq<u8>) -> int
    decreases s.len(),
{
    if s.len() == 0 {
        0
    } else {
        hex_value(s.drop_last()) * 16 + hex_digit_value(s.last())
    }
}

/// The first position at or after `from` where `s` holds the byte `b`.
pub open spec fn spec_find(s: Seq<u8>, from: int, b: u8) -> Option<int>
    decreases s.len() - from,
{
    if from < 0 || from >= s.len() {
        None
    } else if s[from] == b {
        Some(from)
    } else {
        spec_find(s, from + 1, b)
    }
}

/// What a successful or failed find means, spelled out: the found position
/// carries `b`, and nothing before it does.
pub proof fn lemma_spec_find(s: Seq<u8>, from: int, b: u8)
    requires
        0 <= from,
    ensures
        match spec_find(s, from, b) {
            Some(i) => {
                &&& from <= i < s.len()
                &&& s[i] == b
                &&& forall|k: int| from <= k < i ==> s[k] != b
            },
            None => forall|k: int| from <= k < s.len() ==> s[k] != b,
        },
    decreases s.len() - from,
{
    if from < s.len() && s[from] != b {
        lemma_spec_find(s, from + 1, b);
    }
}

/// Finds the first occurrence of `b` in `s` at or after `from`.
pub fn find_byte(s: &[u8], from: usize, b: u8) -> (r: Option<usize>)
    ensures
        match r {
            Some(i) => spec_find(s@, from as int, b) == Some(i as int),
            None => spec_find(s@, from as int, b) is None,
        },
{
    let mut i = from;
    while i < s.len()
        invariant
            from <= i,
            spec_find(s@, from as int, b) == spec_find(s@, i as int, b),
        decreases s@.len() - i,
    {
        if s[i] == b {
            return Some(i);
        }
        i = i + 1;
    }
    None
}

/// A decimal numeral is never negative.
pub proof fn lemma_dec_value_nonneg(s: Seq<u8>)
    requires
        all_digits(s),
    ensures
        dec_value(s) >= 0,
    decreases s.len(),
{
    if s.len() > 0 {
        lemma_dec_value_nonneg(s.drop_last());
    }
}

/// Bounds of short decimal numerals.
pub proof fn lemma_dec_value_bound(s: Seq<u8>)
    requires
        all_digits(s),
    ensures
        dec_value(s) >= 0,
        s.len() <= 3 ==> dec_value(s) < 1000,
        s.len() <= 2 ==> dec_value(s) < 100,
        s.len() <= 1 ==> dec_value(s) < 10,
    decreases s.len(),
{
    if s.len() > 0 {
        lemma_dec_value_bound(s.drop_last());
    }
}

/// A decimal numeral is at least the value of any of its prefixes.
pub proof fn lemma_dec_value_prefix(s: Seq<u8>, i: int)
    requires
        all_digits(s),
        0 <= i <= s.len(),
    ensures
        dec_value(s) >= dec_value(s.take(i)),
    decreases s.len() - i,
{
    if i < s.len() {
        assert(s.take(i + 1).drop_last() =~= s.take(i));
        assert(all_digits(s.take(i + 1)));
        lemma_dec_value_nonneg(s.take(i));
        lemma_dec_value_prefix(s, i + 1);
    } else {
        assert(s.take(i) =~= s);
    }
}

/// Bounds of short hexadecimal numerals.
pub proof fn lemma_hex_value_bound(s: Seq<u8>)
    requires
        all_hex(s),
    ensures
        hex_value(s) >= 0,
        s.len() <= 4 ==> hex_value(s) < 0x10000,
        s.len() <= 3 ==> hex_value(s) < 0x1000,
        s.len() <= 2 ==> hex_value(s) < 0x100,
        s.len() <= 1 ==> hex_value(s) < 0x10,
    decreases s.len(),
{
    if s.len() > 0 {
        lemma_hex_value_bound(s.drop_last());
    }
}

/// An IPv4 octet: one to three decimal digits valuing at most 255.
pub open spec fn valid_octet(s: Seq<u8>) -> bool {
    1 <= s.len() <= 3 && all_digits(s) && dec_value(s) <= 255
}

/// Reads one IPv4 octet, succeeding exactly on the valid ones.
pub fn parse_octet(s: &[u8]) -> (r: Option<u8>)
    ensures
        match r {
            Some(v) => valid_octet(s@) && v == dec_value(s@),
            None => !valid_octet(s@),
        },
{
    if s.len() == 0 || s.len() > 3 {
        return None;
    }
    let mut acc: u32 = 0;
    let mut i: usize = 0;
    while i < s.len()
        invariant
            i <= s.len() <= 3,
            all_digits(s@.take(i as int)),
            acc == dec_value(s@.take(i as int)),
            acc < 1000,
        decreases s@.len() - i,
    {
        let c = s[i];
        if c < 0x30 || c > 0x39 {
            return None;
        }
        proof {
            assert(s@.take(i + 1).drop_last() =~= s@.take(i as int));
            lemma_dec_value_bound(s@.take(i as int));
        }
        acc = acc * 10 + ((c - 0x30) as u32);
        i = i + 1;
    }
    proof {
        assert(s@.take(s@.len() as int) =~= s@);
    }
    if acc > 255 {
        None
    } else {
        Some(acc as u8)
    }
}

/// A port numeral: at least one decimal digit, value at most 65535.
pub open spec fn valid_port(s: Seq<u8>) -> bool {
    s.len() >= 1 && all_digits(s) && dec_value(s) <= 65535
}

/// Reads a port, succeeding exactly on the valid ones.
pub fn parse_port(s: &[u8]) -> (r: Option<u16>)
    ensures
        match r {
            Some(v) => valid_port(s@) && v == dec_value(s@),
            None => !valid_port(s@),
        },
{
    if s.len() == 0 {
        return None;
    }
    let mut acc: u32 = 0;
    let mut i: usize = 0;
    while i < s.len()
        invariant
            i <= s.len(),
            all_digits(s@.take(i as int)),
            acc == dec_value(s@.take(i as int)),
            acc <= 65535,
        decreases s@.len() - i,
    {
        let c = s[i];
        if c < 0x30 || c > 0x39 {
            return None;
        }
        proof {
            assert(s@.take(i + 1).drop_last() =~= s@.take(i as int));
        }
        acc = acc * 10 + ((c - 0x30) as u32);
        if acc > 65535 {
            proof {
                if all_digits(s@) {
                    lemma_dec_value_prefix(s@, i + 1);
                }
            }
            return None;
        }
        i = i + 1;
    }
    proof {
        assert(s@.take(s@.len() as int) =~= s@);
    }
    Some(acc as u16)
}

/// The four octet values of a dotted-quad IPv4 text, if `s` is one: three
/// dots, four valid octets between them.
pub open spec fn spec_parse_v4(s: Seq<u8>) -> Option<Seq<u8>> {
    match spec_find(s, 0, 0x2E) {
        None => None,
        Some(i) => match spec_find(s, i + 1, 0x2E) {
            None => None,
            Some(j) => match spec_find(s, j + 1, 0x2E) {
                None => None,
                Some(k) => {
                    let o1 = s.subrange(0, i);
                    let o2 = s.subrange(i + 1, j);
                    let o3 = s.subrange(j + 1, k);
                    let o4 = s.subrange(k + 1, s.len() as int);
                    if valid_octet(o1) && valid_octet(o2) && valid_octet(o3) && valid_octet(o4) {
                        Some(
                            seq![
                                dec_value(o1) as u8,
                                dec_value(o2) as u8,
                                dec_value(o3) as u8,
                                dec_value(o4) as u8,
                            ],
                        )
                    } else {
                        None
                    }
                },
            },
        },
    }
}

/// Reads a dotted-quad IPv4 text, succeeding exactly on the valid ones.
pub fn parse_v4(s: &[u8]) -> (r: Option<[u8; 4]>)
    ensures
        match r {
            Some(h) => spec_parse_v4(s@) == Some(h@),
            None => spec_parse_v4(s@) is None,
        },
{
    let n = s.len();
    let i = match find_byte(s, 0, 0x2E) {
        None => {
            return None;
        },
        Some(i) => i,
    };
    proof {
        lemma_spec_find(s@, 0, 0x2E);
    }
    let j = match find_byte(s, i + 1, 0x2E) {
        None => {
            return None;
        },
        Some(j) => j,
    };
    proof {
        lemma_spec_find(s@, i + 1, 0x2E);
    }
    let k = match find_byte(s, j + 1, 0x2E) {
        None => {
            return None;
        },
        Some(k) => k,
    };
    proof {
        lemma_spec_find(s@, j + 1, 0x2E);
    }
    let o1 = match parse_octet(&s[0..i]) {
        None => {
            return None;
        },
        Some(v) => v,
    };
    let o2 = match parse_octet(&s[i + 1..j]) {
        None => {
            return None;
        },
        Some(v) => v,
    };
    let o3 = match parse_octet(&s[j + 1..k]) {
        None => {
            return None;
        },
        Some(v) => v,
    };
    let o4 = match parse_octet(&s[k + 1..n]) {
        None => {
            return None;
        },
        Some(v) => v,
    };
    let h = [o1, o2, o3, o4];
    proof {
        assert(h@ =~= spec_parse_v4(s@).unwrap());
    }
    Some(h)
}

/// An IPv6 hextet group: one to four hexadecimal digits.
pub open spec fn valid_group(s: Seq<u8>) -> bool {
    1 <= s.len() <= 4 && all_hex(s)
}

/// Reads one hextet group, succeeding exactly on the valid ones.
pub fn parse_group(s: &[u8]) -> (r: Option<u16>)
    ensures
        match r {
            Some(v) => valid_group(s@) && v == hex_value(s@),
            None => !valid_group(s@),
        },
{
    if s.len() == 0 || s.len() > 4 {
        return None;
    }
    let mut acc: u32 = 0;
    let mut i: usize = 0;
    while i < s.len()
        invariant
            i <= s.len() <= 4,
            all_hex(s@.take(i as int)),
            acc == hex_value(s@.take(i as int)),
            acc < 0x10000,
        decreases s@.len() - i,
    {
        let c = s[i];
        let d: u32 = if c >= 0x30 && c <= 0x39 {
            (c - 0x30) as u32
        } else if c >= 0x41 && c <= 0x46 {
            (c - 0x37) as u32
        } else if c >= 0x61 && c <= 0x66 {
            (c - 0x57) as u32
        } else {
            return None;
        };
        proof {
            assert(s@.take(i + 1).drop_last() =~= s@.take(i as int));
            lemma_hex_value_bound(s@.take(i as int));
        }
        acc = acc * 16 + d;
        i = i + 1;
    }
    proof {
        assert(s@.take(s@.len() as int) =~= s@);
        lemma_hex_value_bound(s@);
    }
    Some(acc as u16)
}

/// The two hextets a dotted-quad tail of an IPv6 text stands for, if the
/// segment is a dotted quad: its four octets read pairwise, big-endian.
pub open spec fn spec_v4_tail(g: Seq<u8>) -> Option<Seq<u16>> {
    match spec_parse_v4(g) {
        None => None,
        Some(o) => Some(
            seq![
                ((o[0] as int) * 256 + (o[1] as int)) as u16,
                ((o[2] as int) * 256 + (o[3] as int)) as u16,
            ],
        ),
    }
}

/// The hextet values of the colon-separated groups of `s` starting at
/// `from`.  Every group must be valid; when `v4_tail` is set, the final
/// segment may instead be a dotted quad standing for the last two hextets.
pub open spec fn spec_groups_from(s: Seq<u8>, from: int, v4_tail: bool) -> Option<Seq<u16>>
    decreases s.len() - from,
{
    if from < 0 || from > s.len() {
        None
    } else {
        match spec_find(s, from, 0x3A) {
            None => {
                let g = s.subrange(from, s.len() as int);
                if valid_group(g) {
                    Some(seq![(hex_value(g) as u16)])
                } else if v4_tail {
                    spec_v4_tail(g)
                } else {
                    None
                }
            },
            Some(i) => {
                let g = s.subrange(from, i);
                if valid_group(g) {
                    proof {
                        lemma_spec_find(s, from, 0x3A);
                    }
                    match spec_groups_from(s, i + 1, v4_tail) {
                        None => None,
                        Some(rest) => Some(seq![(hex_value(g) as u16)] + rest),
                    }
                } else {
                    None
                }
            },
        }
    }
}

/// Reads the colon-separated hextet groups of `s` from `from` to the end.
pub fn parse_groups(s: &[u8], from: usize, v4_tail: bool) -> (r: Option<Vec<u16>>)
    requires
        from <= s@.len(),
    ensures
        match r {
            Some(v) => spec_groups_from(s@, from as int, v4_tail) == Some(v@),
            None => spec_groups_from(s@, from as int, v4_tail) is None,
        },
    decreases s@.len() - from,
{
    let n = s.len();
    match find_byte(s, from, 0x3A) {
        None => {
            match parse_group(&s[from..n]) {
                None => {
                    if v4_tail {
                        match parse_v4(&s[from..n]) {
                            None => None,
                            Some(o) => {
                                let hi: u16 = (o[0] as u16) * 256 + (o[1] as u16);
                                let lo: u16 = (o[2] as u16) * 256 + (o[3] as u16);
                                let mut out: Vec<u16> = Vec::new();
                                out.push(hi);
                                out.push(lo);
                                proof {
                                    assert(out@ =~= spec_v4_tail(
                                        s@.subrange(from as int, s@.len() as int),
                                    ).unwrap());
                                }
                                Some(out)
                            },
                        }
                    } else {
                        None
                    }
                },
                Some(v) => {
                    let mut out: Vec<u16> = Vec::new();
                    out.push(v);
                    proof {
                        assert(out@ =~= seq![
                            (hex_value(s@.subrange(from as int, s@.len() as int)) as u16),
                        ]);
                    }
                    Some(out)
                },
            }
        },
        Some(i) => {
            proof {
                lemma_spec_find(s@, from as int, 0x3A);
            }
            match parse_group(&s[from..i]) {
                None => None,
                Some(v) => {
                    match parse_groups(s, i + 1, v4_tail) {
                        None => None,
                        Some(mut rest) => {
                            let ghost tail = rest@;
                            rest.insert(0, v);
                            proof {
                                assert(rest@ =~= seq![
                                    (hex_value(s@.subrange(from as int, i as int)) as u16),
                                ] + tail);
                            }
                            Some(rest)
                        },
                    }
                },
            }
        },
    }
}

/// The first position at or after `from` where `s` holds two colons in a
/// row.
pub open spec fn spec_find_dc(s: Seq<u8>, from: int) -> Option<int>
    decreases s.len() - from,
{
    if from < 0 || from + 1 >= s.len() {
        None
    } else if s[from] == 0x3A && s[from + 1] == 0x3A {
        Some(from)
    } else {
        spec_find_dc(s, from + 1)
    }
}

/// What a successful or failed search for `::` means, spelled out.
pub proof fn lemma_spec_find_dc(s: Seq<u8>, from: int)
    requires
        0 <= from,
    ensures
        match spec_find_dc(s, from) {
            Some(i) => {
                &&& from <= i
                &&& i + 1 < s.len()
                &&& s[i] == 0x3A
                &&& s[i + 1] == 0x3A
                &&& forall|k: int| from <= k < i ==> !(#[trigger] s[k] == 0x3A && s[k + 1] == 0x3A)
            },
            None => forall|k: int|
                from <= k && k + 1 < s.len() ==> !(#[trigger] s[k] == 0x3A && s[k + 1] == 0x3A),
        },
    decreases s.len() - from,
{
    if from + 1 < s.len() && !(s[from] == 0x3A && s[from + 1] == 0x3A) {
        lemma_spec_find_dc(s, from + 1);
    }
}

/// Finds the first `::` in `s`.
pub fn find_dc(s: &[u8]) -> (r: Option<usize>)
    ensures
        match r {
            Some(i) => spec_find_dc(s@, 0) == Some(i as int),
            None => spec_find_dc(s@, 0) is None,
        },
{
    let n = s.len();
    if n == 0 {
        return None;
    }
    let mut i: usize = 0;
    while i < n - 1
        invariant
            i <= s@.len(),
            n == s@.len(),
            n >= 1,
            spec_find_dc(s@, 0) == spec_find_dc(s@, i as int),
        decreases s@.len() - i,
    {
        if s[i] == 0x3A && s[i + 1] == 0x3A {
            return Some(i);
        }
        i = i + 1;
    }
    None
}

/// The eight hextets of an IPv6 text: either eight explicit groups, or at
/// most seven groups around one `::` run standing for the missing zeros.
pub open spec fn spec_parse_v6(s: Seq<u8>) -> Option<Seq<u16>> {
    match spec_find_dc(s, 0) {
        None => match spec_groups_from(s, 0, true) {
            None => None,
            Some(g) => if g.len() == 8 {
                Some(g)
            } else {
                None
            },
        },
        Some(i) => {
            let left = s.subrange(0, i);
            let right = s.subrange(i + 2, s.len() as int);
            let lg = if left.len() == 0 {
                Some(Seq::<u16>::empty())
            } else {
                spec_groups_from(left, 0, false)
            };
            let rg = if right.len() == 0 {
                Some(Seq::<u16>::empty())
            } else {
                spec_groups_from(right, 0, true)
            };
            match lg {
                None => None,
                Some(l) => match rg {
                    None => None,
                    Some(q) => if l.len() + q.len() <= 7 {
                        Some(l + Seq::new((8 - l.len() - q.len()) as nat, |k: int| 0u16) + q)
                    } else {
                        None
                    },
                },
            }
        },
    }
}

/// Reads an IPv6 text, succeeding exactly on the valid ones.
pub fn parse_v6(s: &[u8]) -> (r: Option<[u16; 8]>)
    ensures
        match r {
            Some(h) => spec_parse_v6(s@) == Some(h@),
            None => spec_parse_v6(s@) is None,
        },
{
    let n = s.len();
    let groups: Vec<u16> = match find_dc(s) {
        None => {
            match parse_groups(s, 0, true) {
                None => {
                    return None;
                },
                Some(g) => {
                    if g.len() != 8 {
                        return None;
                    }
                    g
                },
            }
        },
        Some(i) => {
            proof {
                lemma_spec_find_dc(s@, 0);
            }
            let left = &s[0..i];
            let right = &s[i + 2..n];
            proof {
                assert(left@ =~= s@.subrange(0, i as int));
                assert(right@ =~= s@.subrange(i + 2, s@.len() as int));
            }
            let lg: Vec<u16> = if left.len() == 0 {
                Vec::new()
            } else {
                match parse_groups(left, 0, false) {
                    None => {
                        return None;
                    },
                    Some(g) => g,
                }
            };
            let rg: Vec<u16> = if right.len() == 0 {
                Vec::new()
            } else {
                match parse_groups(right, 0, true) {
                    None => {
                        return None;
                    },
                    Some(g) => g,
                }
            };
            if lg.len() > 7 {
                return None;
            }
            if rg.len() > 7 - lg.len() {
                return None;
            }
            let fill = 8 - lg.len() - rg.len();
            let ghost lview = lg@;
            let ghost rview = rg@;
            let mut out = lg;
            let mut z: usize = 0;
            while z < fill
                invariant
                    z <= fill,
                    out@ == lview + Seq::new(z as nat, |k: int| 0u16),
                decreases fill - z,
            {
                out.push(0);
                proof {
                    assert(out@ =~= lview + Seq::new((z + 1) as nat, |k: int| 0u16));
                }
                z = z + 1;
            }
            let mut tail = rg;
            out.append(&mut tail);
            proof {
                assert(out@ =~= lview + Seq::new((8 - lview.len() - rview.len()) as nat, |k: int| 0u16)
                    + rview);
            }
            out
        },
    };
    let h = [groups[0], groups[1], groups[2], groups[3], groups[4], groups[5], groups[6], groups[7]];
    proof {
        assert(h@ =~= groups@);
    }
    Some(h)
}

/// The shortest decimal rendering of a value: most significant digit
/// first, no leading zeros.
pub open spec fn dec_rep(n: int) -> Seq<u8>
    decreases n,
{
    if n < 10 {
        seq![(0x30 + if n >= 0 { n } else { 0 }) as u8]
    } else {
        dec_rep(n / 10) + seq![(0x30 + n % 10) as u8]
    }
}

/// The shortest lowercase hexadecimal rendering of a value.
pub open spec fn hex_rep(n: int) -> Seq<u8>
    decreases n,
{
    if n < 16 {
        seq![lower_hex_digit(if n >= 0 { n } else { 0 })]
    } else {
        hex_rep(n / 16) + seq![lower_hex_digit(n % 16)]
    }
}

/// The lowercase hexadecimal digit for a value below 16.
pub open spec fn lower_hex_digit(n: int) -> u8 {
    if n < 10 {
        (0x30 + n) as u8
    } else {
        (0x57 + n) as u8
    }
}

/// Appends the decimal rendering of `n`.
fn push_dec_rep(buf: &mut Vec<u8>, n: u16)
    ensures
        final(buf)@ == old(buf)@ + dec_rep(n as int),
    decreases n,
{
    if n < 10 {
        buf.push(0x30 + n as u8);
        proof {
            assert(buf@ =~= old(buf)@ + dec_rep(n as int));
        }
    } else {
        push_dec_rep(buf, n / 10);
        buf.push(0x30 + (n % 10) as u8);
        proof {
            assert(buf@ =~= old(buf)@ + dec_rep(n as int));
        }
    }
}

/// Appends the lowercase hexadecimal rendering of `n`.
fn push_hex_rep(buf: &mut Vec<u8>, n: u16)
    ensures
        final(buf)@ == old(buf)@ + hex_rep(n as int),
    decreases n,
{
    if n < 16 {
        let d = n as u8;
        buf.push(if d < 10 { 0x30 + d } else { 0x57 + d });
        proof {
            assert(buf@ =~= old(buf)@ + hex_rep(n as int));
        }
    } else {
        push_hex_rep(buf, n / 16);
        let d = (n % 16) as u8;
        buf.push(if d < 10 { 0x30 + d } else { 0x57 + d });
        proof {
            assert(buf@ =~= old(buf)@ + hex_rep(n as int));
        }
    }
}

/// The length of the run of zero hextets starting at `i`.
pub open spec fn zero_run_len(h: Seq<u16>, i: int) -> int
    decreases h.len() - i,
{
    if i < 0 || i >= h.len() || h[i] != 0 {
        0
    } else {
        1 + zero_run_len(h, i + 1)
    }
}

/// The leftmost longest run of at least two zero hextets at or after
/// `from`: its start and length, or nothing when no such run exists.  A
/// strictly longer later run displaces an earlier one; an equally long one
/// does not.
pub open spec fn best_zero_run_from(h: Seq<u16>, from: int) -> Option<(int, int)>
    decreases h.len() - from,
{
    if from < 0 || from >= h.len() {
        None
    } else {
        let cur = zero_run_len(h, from);
        let rest = best_zero_run_from(h, from + 1);
        if cur >= 2 {
            match rest {
                Some(r) => if r.1 > cur {
                    Some(r)
                } else {
                    Some((from, cur))
                },
                None => Some((from, cur)),
            }
        } else {
            rest
        }
    }
}

/// The hextets from `from` (inclusive) to `to` (exclusive), lowercase,
/// joined with colons.
pub open spec fn hex_groups_text(h: Seq<u16>, from: int, to: int) -> Seq<u8>
    decreases to - from,
{
    if from >= to {
        Seq::empty()
    } else if from + 1 >= to {
        hex_rep(h[from] as int)
    } else {
        hex_rep(h[from] as int) + seq![0x3Au8] + hex_groups_text(h, from + 1, to)
    }
}

/// The dotted-quad text of two hextets read as four octets.
pub open spec fn quad_text(g: int, h: int) -> Seq<u8> {
    dec_rep(g / 256) + seq![0x2Eu8] + dec_rep(g % 256) + seq![0x2Eu8] + dec_rep(h / 256) + seq![
        0x2Eu8,
    ] + dec_rep(h % 256)
}

/// Eight hextets as lowercase groups joined with colons, with the
/// leftmost longest run of two or more zero groups collapsed to `::`.
pub open spec fn v6_groups_text(h: Seq<u16>) -> Seq<u8> {
    match best_zero_run_from(h, 0) {
        None => hex_groups_text(h, 0, h.len() as int),
        Some(r) => hex_groups_text(h, 0, r.0) + seq![0x3Au8, 0x3Au8] + hex_groups_text(
            h,
            r.0 + r.1,
            h.len() as int,
        ),
    }
}

/// The usual textual form of eight hextets: an IPv4-compatible address
/// (six zero groups, other than the all-zero and loopback addresses)
/// shows its last two hextets as a dotted quad after `::`; an IPv4-mapped
/// address (five zero groups then `ffff`) likewise after `::ffff:`; every
/// other address is colon-grouped with zero compression.
pub open spec fn v6_text(h: Seq<u16>) -> Seq<u8> {
    if h.len() == 8 && h[0] == 0 && h[1] == 0 && h[2] == 0 && h[3] == 0 && h[4] == 0 && (h[5]
        == 0xffff || (h[5] == 0 && !(h[6] == 0 && (h[7] == 0 || h[7] == 1)))) {
        if h[5] == 0xffff {
            seq![0x3Au8, 0x3Au8] + hex_rep(0xffff) + seq![0x3Au8] + quad_text(
                h[6] as int,
                h[7] as int,
            )
        } else {
            seq![0x3Au8, 0x3Au8] + quad_text(h[6] as int, h[7] as int)
        }
    } else {
        v6_groups_text(h)
    }
}

/// Appends the dotted-quad text of two hextets.
fn push_quad_text(buf: &mut Vec<u8>, g: u16, h: u16)
    ensures
        final(buf)@ == old(buf)@ + quad_text(g as int, h as int),
{
    push_dec_rep(buf, g / 256);
    buf.push(0x2E);
    push_dec_rep(buf, g % 256);
    buf.push(0x2E);
    push_dec_rep(buf, h / 256);
    buf.push(0x2E);
    push_dec_rep(buf, h % 256);
    proof {
        assert(buf@ =~= old(buf)@ + quad_text(g as int, h as int));
    }
}

/// The run of zero hextets starting at `i`.
fn run_len(h: &[u16; 8], i: usize) -> (r: usize)
    requires
        i <= 8,
    ensures
        r == zero_run_len(h@, i as int),
        r <= 8 - i,
    decreases 8 - i,
{
    if i >= 8 || h[i] != 0 {
        0
    } else {
        1 + run_len(h, i + 1)
    }
}

/// Finds the leftmost longest run of at least two zero hextets at or
/// after `from`.
fn best_run_from(h: &[u16; 8], from: usize) -> (r: Option<(usize, usize)>)
    requires
        from <= 8,
    ensures
        match r {
            Some(p) => {
                &&& best_zero_run_from(h@, from as int) == Some((p.0 as int, p.1 as int))
                &&& from <= p.0
                &&& 2 <= p.1
                &&& p.0 + p.1 <= 8
            },
            None => best_zero_run_from(h@, from as int) is None,
        },
    decreases 8 - from,
{
    if from >= 8 {
        return None;
    }
    let cur = run_len(h, from);
    let rest = best_run_from(h, from + 1);
    if cur >= 2 {
        match rest {
            Some(p) => if p.1 > cur {
                Some(p)
            } else {
                Some((from, cur))
            },
            None => Some((from, cur)),
        }
    } else {
        rest
    }
}

/// Appends the hextets from `from` to `to`, joined with colons.
fn push_groups_text(buf: &mut Vec<u8>, h: &[u16; 8], from: usize, to: usize)
    requires
        from <= to <= 8,
    ensures
        final(buf)@ == old(buf)@ + hex_groups_text(h@, from as int, to as int),
    decreases to - from,
{
    if from >= to {
        proof {
            assert(buf@ =~= old(buf)@ + hex_groups_text(h@, from as int, to as int));
        }
        return ;
    }
    push_hex_rep(buf, h[from]);
    if from + 1 < to {
        buf.push(0x3A);
        push_groups_text(buf, h, from + 1, to);
    }
    proof {
        assert(buf@ =~= old(buf)@ + hex_groups_text(h@, from as int, to as int));
    }
}

impl SocketAddressView {
    /// The textual rendering: `a.b.c.d:port` for IPv4; for IPv6 the
    /// bracketed compressed hextet form (see [`v6_text`]) followed by the
    /// port.
    pub open spec fn rendered(self) -> Seq<u8> {
        match self.ip {
            HostView::V4(o) => dec_rep(o[0] as int) + seq![0x2Eu8] + dec_rep(o[1] as int) + seq![
                0x2Eu8,
            ] + dec_rep(o[2] as int) + seq![0x2Eu8] + dec_rep(o[3] as int) + seq![0x3Au8] + dec_rep(
                self.port as int,
            ),
            HostView::V6(h) => seq![0x5Bu8] + v6_text(h) + seq![0x5Du8, 0x3Au8] + dec_rep(
                self.port as int,
            ),
        }
    }
}

impl SocketAddress {
    /// The textual rendering of the address, as the bytes of an ASCII
    /// string.
    pub fn display_bytes(&self) -> (r: Vec<u8>)
        ensures
            r@ == self@.rendered(),
    {
        let mut buf: Vec<u8> = Vec::new();
        match &self.ip {
            HostAddr::V4(o) => {
                push_dec_rep(&mut buf, o[0] as u16);
                buf.push(0x2E);
                push_dec_rep(&mut buf, o[1] as u16);
                buf.push(0x2E);
                push_dec_rep(&mut buf, o[2] as u16);
                buf.push(0x2E);
                push_dec_rep(&mut buf, o[3] as u16);
                buf.push(0x3A);
                push_dec_rep(&mut buf, self.port);
                proof {
                    assert(buf@ =~= self@.rendered());
                }
            },
            HostAddr::V6(h) => {
                buf.push(0x5B);
                if h[0] == 0 && h[1] == 0 && h[2] == 0 && h[3] == 0 && h[4] == 0 && (h[5] == 0xffff
                    || (h[5] == 0 && !(h[6] == 0 && (h[7] == 0 || h[7] == 1)))) {
                    buf.push(0x3A);
                    buf.push(0x3A);
                    if h[5] == 0xffff {
                        push_hex_rep(&mut buf, 0xffff);
                        buf.push(0x3A);
                    }
                    push_quad_text(&mut buf, h[6], h[7]);
                } else {
                    match best_run_from(h, 0) {
                        None => {
                            push_groups_text(&mut buf, h, 0, 8);
                        },
                        Some(p) => {
                            push_groups_text(&mut buf, h, 0, p.0);
                            buf.push(0x3A);
                            buf.push(0x3A);
                            push_groups_text(&mut buf, h, p.0 + p.1, 8);
                        },
                    }
                }
                buf.push(0x5D);
                buf.push(0x3A);
                push_dec_rep(&mut buf, self.port);
                proof {
                    assert(buf@ =~= self@.rendered());
                }
            },
        }
        buf
    }
}

/// The address named by a `host:port` or `[host]:port` text: a bracketed
/// IPv6 host, or an IPv4 host split from the port at the first colon.
pub open spec fn spec_parse_socket_address(s: Seq<u8>) -> Option<SocketAddressView> {
    if s.len() == 0 {
        None
    } else if s[0] == 0x5B {
        match spec_find(s, 1, 0x5D) {
            None => None,
            Some(j) => {
                if j + 1 < s.len() && s[j + 1] == 0x3A {
                    match spec_parse_v6(s.subrange(1, j)) {
                        None => None,
                        Some(h) => match spec_parse_port_seq(s.subrange(j + 2, s.len() as int)) {
                            None => None,
                            Some(p) => Some(
                                SocketAddressView { ip: HostView::V6(h), port: p },
                            ),
                        },
                    }
                } else {
                    None
                }
            },
        }
    } else {
        match spec_find(s, 0, 0x3A) {
            None => None,
            Some(i) => match spec_parse_v4(s.subrange(0, i)) {
                None => None,
                Some(h) => match spec_parse_port_seq(s.subrange(i + 1, s.len() as int)) {
                    None => None,
                    Some(p) => Some(SocketAddressView { ip: HostView::V4(h), port: p }),
                },
            },
        }
    }
}

/// The port named by a digit sequence, if it is a valid one.
pub open spec fn spec_parse_port_seq(s: Seq<u8>) -> Option<u16> {
    if valid_port(s) {
        Some(dec_value(s) as u16)
    } else {
        None
    }
}

impl SocketAddress {
    /// Reads a `host:port` or `[host]:port` text, succeeding exactly on
    /// the texts of the grammar.
    pub fn parse(s: &[u8]) -> (r: Option<SocketAddress>)
        ensures
            match r {
                Some(a) => spec_parse_socket_address(s@) == Some(a@),
                None => spec_parse_socket_address(s@) is None,
            },
    {
        let n = s.len();
        if n == 0 {
            return None;
        }
        if s[0] == 0x5B {
            let j = match find_byte(s, 1, 0x5D) {
                None => {
                    return None;
                },
                Some(j) => j,
            };
            proof {
                lemma_spec_find(s@, 1, 0x5D);
            }
            if j + 1 >= n || s[j + 1] != 0x3A {
                return None;
            }
            let host_part = &s[1..j];
            let port_part = &s[j + 2..n];
            proof {
                assert(host_part@ =~= s@.subrange(1, j as int));
                assert(port_part@ =~= s@.subrange(j + 2, s@.len() as int));
            }
            let h = match parse_v6(host_part) {
                None => {
                    return None;
                },
                Some(h) => h,
            };
            let p = match parse_port(port_part) {
                None => {
                    return None;
                },
                Some(p) => p,
            };
            Some(SocketAddress { ip: HostAddr::V6(h), port: p })
        } else {
            let i = match find_byte(s, 0, 0x3A) {
                None => {
                    return None;
                },
                Some(i) => i,
            };
            proof {
                lemma_spec_find(s@, 0, 0x3A);
            }
            let host_part = &s[0..i];
            let port_part = &s[i + 1..n];
            proof {
                assert(host_part@ =~= s@.subrange(0, i as int));
                assert(port_part@ =~= s@.subrange(i + 1, s@.len() as int));
            }
            let h = match parse_v4(host_part) {
                None => {
                    return None;
                },
                Some(h) => h,
            };
            let p = match parse_port(port_part) {
                None => {
                    return None;
                },
                Some(p) => p,
            };
            Some(SocketAddress { ip: HostAddr::V4(h), port: p })
        }
    }
}

} // verus!
