//! Middleware wrapper: a client paired with the hooks observing its calls.
use vstd::prelude::*;

verus! {

/// A default no-op middleware.
#[derive(Debug, Clone, Copy)]
pub struct NoopMiddleware;

/// A client wrapper that runs middleware hooks around each request.
pub struct MiddlewareClient<C, M> {
    inner: C,
    middleware: M,
}

impl<C, M> MiddlewareClient<C, M> {
    /// The wrapped client.
    pub closed spec fn inner_spec(&self) -> C {
        self.inner
    }

    /// The middleware.
    pub closed spec fn middleware_spec(&self) -> M {
        self.middleware
    }

    /// Create a new middleware-wrapped client.
    pub fn new(inner: C, middleware: M) -> (c: MiddlewareClient<C, M>)
        ensures
            c.inner_spec() == inner,
            c.middleware_spec() == middleware,
    {
        MiddlewareClient { inner, middleware }
    }

    /// Access the underlying client.
    pub fn inner(&self) -> (c: &C)
        ensures
            *c == self.inner_spec(),
    {
        &self.inner
    }

    /// Access the middleware.
    pub fn middleware(&self) -> (m: &M)
        ensures
            *m == self.middleware_spec(),
    {
        &self.middleware
    }
}

} // verus!
