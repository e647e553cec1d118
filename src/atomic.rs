//! A baseline context that records into one shared atomic counter.

use vstd::prelude::*;
use std::sync::Arc;
use std::sync::atomic::{AtomicU64, Ordering};

verus! {

/// The context of one worker thread: the shared counter once connected.
pub struct AtomicContext {
    inner: Option<Arc<AtomicU64>>,
}

impl AtomicContext {
    /// Whether the context was connected to a counter.
    pub closed spec fn connected(&self) -> bool {
        self.inner.is_some()
    }

    /// Whether the context was connected.
    pub fn is_connected(&self) -> (r: bool)
        ensures
            r == self.connected(),
    {
        self.inner.is_some()
    }

    /// A context that is not connected yet.
    pub fn new() -> (r: Self)
        ensures
            !r.connected(),
    {
        AtomicContext { inner: None }
    }

    /// Binds the context to the shared counter.
    pub fn connect(&mut self, v: Arc<AtomicU64>)
        ensures
            final(self).connected(),
    {
        self.inner = Some(v);
    }

    /// Raises the shared counter by one.
    pub fn increment(&self)
        requires
            self.connected(),
    {
        match &self.inner {
            Some(c) => {
                c.fetch_add(1, Ordering::Relaxed);
            },
            None => {},
        }
    }
}

} // verus!
