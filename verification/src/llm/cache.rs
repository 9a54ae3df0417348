//! Response-cache wrapper: a client paired with the store that holds its
//! cached responses.
use vstd::prelude::*;

verus! {

/// A client wrapper that caches `complete` responses in a key-value store.
pub struct CacheClient<C, S> {
    inner: C,
    store: S,
}

impl<C, S> CacheClient<C, S> {
    /// The wrapped client.
    pub closed spec fn inner_spec(&self) -> C {
        self.inner
    }

    /// The response store.
    pub closed spec fn store_spec(&self) -> S {
        self.store
    }

    /// Wrap `inner` with a response cache backed by `store`.
    pub fn new(inner: C, store: S) -> (c: CacheClient<C, S>)
        ensures
            c.inner_spec() == inner,
            c.store_spec() == store,
    {
        CacheClient { inner, store }
    }

    /// Access the underlying (uncached) client.
    pub fn inner(&self) -> (c: &C)
        ensures
            *c == self.inner_spec(),
    {
        &self.inner
    }

    /// Access the response store.
    pub fn store(&self) -> (s: &S)
        ensures
            *s == self.store_spec(),
    {
        &self.store
    }
}

} // verus!
