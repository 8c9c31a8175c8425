//! The upstream pool: the process-wide list of upstream descriptors.
//!
//! The pool publishes one whole list at a time and is never edited in
//! place: a reload builds a fresh list and swaps it in atomically, while
//! readers that already hold a snapshot keep it.  The published reference
//! lives in an `arc_swap::ArcSwap`, whose load and store are the lock-free
//! atomic operations this design asks for; a reader therefore sees either
//! the list published before a swap or the one published after it, never a
//! mixture.

use crate::errors::ServerError;
use crate::errors::ServerErrorView;
use crate::list::load_proxies_from_bytes;
use crate::list::spec_proxies_from;
use crate::proxy::Proxy;
use crate::proxy::ProxyView;
use vstd::prelude::*;
use vstd::utf8::valid_utf8;

verus! {

/// The pool.  The one field holds the swappable reference to the current
/// list; the struct is opaque to the verifier and is reached only through
/// the contracts below.
#[verifier::external_body]
pub struct ProxyPool {
    inner: arc_swap::ArcSwap<Vec<Proxy>>,
}

/// The list of descriptors the pool currently publishes.
pub uninterp spec fn pool_list(p: ProxyPool) -> Seq<Proxy>;

impl ProxyPool {
    /// Relies on `arc_swap::ArcSwapAny::new`: the value the pool is built
    /// from is the value it publishes.
    #[verifier::external_body]
    pub fn new(list: Vec<Proxy>) -> (p: ProxyPool)
        ensures
            pool_list(p) == list@,
    {
        ProxyPool { inner: arc_swap::ArcSwap::from_pointee(list) }
    }

    /// Relies on `arc_swap::ArcSwapAny::load_full`: it returns the
    /// currently published reference, whole, even while another thread
    /// stores a replacement.
    #[verifier::external_body]
    pub fn load(&self) -> (snapshot: Vec<Proxy>)
        ensures
            snapshot@ == pool_list(*self),
    {
        self.inner.load_full().as_ref().clone()
    }

    /// Relies on `arc_swap::ArcSwapAny::store`: it atomically replaces the
    /// published reference, and later loads yield the new one.
    #[verifier::external_body]
    pub fn reload(&mut self, list: Vec<Proxy>)
        ensures
            pool_list(*final(self)) == list@,
    {
        self.inner.store(std::sync::Arc::new(list));
    }

    /// Reloads the pool from a new list text.
    ///
    /// On success the pool publishes exactly the descriptors of the text
    /// and the count is returned.  A text that does not load leaves the
    /// published list unchanged: last-good-configuration semantics.
    pub fn reload_from_bytes(&mut self, text: &[u8]) -> (r: Result<usize, ServerError>)
        ensures
            match r {
                Ok(count) => {
                    &&& valid_utf8(text@)
                    &&& pool_list(*final(self)).map_values(|q: Proxy| q@) == spec_proxies_from(
                        text@,
                        0,
                    )
                    &&& count == pool_list(*final(self)).len()
                },
                Err(e) => {
                    &&& !valid_utf8(text@)
                    &&& pool_list(*final(self)) == pool_list(*old(self))
                    &&& e@ == ServerErrorView::Parser("read proxy error"@)
                },
            },
    {
        match load_proxies_from_bytes(text) {
            Ok(list) => {
                let count = list.len();
                self.reload(list);
                Ok(count)
            },
            Err(e) => Err(e),
        }
    }

    /// The upstream a new connection should use: the first descriptor of
    /// the snapshot, if the snapshot has any.
    ///
    /// Always-first is the current selection policy; a rotating policy
    /// would replace only this function.
    pub fn select_upstream(snapshot: &Vec<Proxy>) -> (r: Option<&Proxy>)
        ensures
            match r {
                Some(p) => snapshot@.len() > 0 && *p == snapshot@[0],
                None => snapshot@.len() == 0,
            },
    {
        if snapshot.len() > 0 {
            Some(&snapshot[0])
        } else {
            None
        }
    }
}

} // verus!
