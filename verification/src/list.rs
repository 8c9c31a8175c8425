//! Loading the upstream list from its textual form.
//!
//! The list is a sequence of lines.  A line is blank, a comment starting
//! with `#`, or one upstream descriptor; descriptor lines that do not
//! follow the grammar are skipped.  Text that is not valid UTF-8 is
//! rejected as a whole, as a line reader over the same bytes would reject
//! it, so a bad file never replaces a loaded list.

use crate::addr::find_byte;
use crate::addr::lemma_spec_find;
use crate::addr::spec_find;
use crate::errors::ServerError;
use crate::errors::ServerErrorView;
use crate::proxy::is_valid_utf8;
use crate::proxy::spec_parse_proxy;
use crate::proxy::Proxy;
use crate::proxy::ProxyView;
use vstd::prelude::*;
use vstd::utf8::valid_utf8;

verus! {

/// A line with its trailing carriage return removed, if it has one.
pub open spec fn strip_cr(l: Seq<u8>) -> Seq<u8> {
    if l.len() > 0 && l.last() == 0x0D {
        l.drop_last()
    } else {
        l
    }
}

/// The descriptors one line contributes: none for a blank line, a comment,
/// or a line outside the grammar; one for a descriptor line.
pub open spec fn spec_line_proxies(l: Seq<u8>) -> Seq<ProxyView> {
    let t = strip_cr(l);
    if t.len() == 0 || t[0] == 0x23 {
        Seq::empty()
    } else {
        match spec_parse_proxy(t) {
            Some(p) => seq![p],
            None => Seq::empty(),
        }
    }
}

/// The descriptors of the text from `from` on, line by line, newline
/// separated.
pub open spec fn spec_proxies_from(s: Seq<u8>, from: int) -> Seq<ProxyView>
    decreases s.len() - from,
{
    if from < 0 || from > s.len() {
        Seq::empty()
    } else {
        match spec_find(s, from, 0x0A) {
            None => spec_line_proxies(s.subrange(from, s.len() as int)),
            Some(i) => {
                proof {
                    lemma_spec_find(s, from, 0x0A);
                }
                spec_line_proxies(s.subrange(from, i)) + spec_proxies_from(s, i + 1)
            },
        }
    }
}

/// Reads one line of the list, yielding its descriptor if it has one.
fn parse_line(line: &[u8]) -> (r: Option<Proxy>)
    ensures
        match r {
            Some(p) => spec_line_proxies(line@) == seq![p@],
            None => spec_line_proxies(line@) == Seq::<ProxyView>::empty(),
        },
{
    let n = line.len();
    let t: &[u8] = if n > 0 && line[n - 1] == 0x0D {
        &line[0..n - 1]
    } else {
        &line[0..n]
    };
    proof {
        assert(t@ =~= strip_cr(line@));
    }
    if t.len() == 0 {
        return None;
    }
    if t[0] == 0x23 {
        return None;
    }
    match Proxy::try_from(t) {
        Ok(p) => Some(p),
        Err(()) => None,
    }
}

/// Loads the descriptors of a whole list text.
///
/// Succeeds exactly on valid UTF-8 input, and then yields every descriptor
/// line in order, skipping blank lines, comments, and lines outside the
/// grammar.
pub fn load_proxies_from_bytes(text: &[u8]) -> (r: Result<Vec<Proxy>, ServerError>)
    ensures
        match r {
            Ok(v) => valid_utf8(text@) && v@.map_values(|p: Proxy| p@) == spec_proxies_from(
                text@,
                0,
            ),
            Err(e) => !valid_utf8(text@) && e@ == ServerErrorView::Parser("read proxy error"@),
        },
{
    if !is_valid_utf8(text) {
        return Err(ServerError::Parser("read proxy error".to_owned()));
    }
    let n = text.len();
    let mut out: Vec<Proxy> = Vec::new();
    let mut pos: usize = 0;
    loop
        invariant_except_break
            pos <= n,
            n == text@.len(),
            spec_proxies_from(text@, 0) == out@.map_values(|p: Proxy| p@) + spec_proxies_from(
                text@,
                pos as int,
            ),
        ensures
            out@.map_values(|p: Proxy| p@) == spec_proxies_from(text@, 0),
        decreases n - pos,
    {
        match find_byte(text, pos, 0x0A) {
            None => {
                let line = &text[pos..n];
                proof {
                    assert(line@ =~= text@.subrange(pos as int, text@.len() as int));
                }
                let ghost before = out@;
                match parse_line(line) {
                    Some(p) => {
                        out.push(p);
                        proof {
                            assert(out@.map_values(|q: Proxy| q@) =~= before.map_values(
                                |q: Proxy| q@,
                            ) + seq![p@]);
                        }
                    },
                    None => (),
                }
                proof {
                    assert(out@.map_values(|q: Proxy| q@) =~= spec_proxies_from(text@, 0));
                }
                break;
            },
            Some(i) => {
                proof {
                    lemma_spec_find(text@, pos as int, 0x0A);
                }
                let line = &text[pos..i];
                proof {
                    assert(line@ =~= text@.subrange(pos as int, i as int));
                }
                let ghost before = out@;
                match parse_line(line) {
                    Some(p) => {
                        out.push(p);
                        proof {
                            assert(out@.map_values(|q: Proxy| q@) =~= before.map_values(
                                |q: Proxy| q@,
                            ) + seq![p@]);
                        }
                    },
                    None => (),
                }
                proof {
                    assert(out@.map_values(|q: Proxy| q@) + spec_proxies_from(text@, i + 1)
                        =~= spec_proxies_from(text@, 0));
                }
                pos = i + 1;
            },
        }
    }
    Ok(out)
}

} // verus!
