//! Bounded memory of recently seen messages, for forwarding.
use vstd::prelude::*;

use crate::window::{entry_of, newest, without, Window};

verus! {

/// How many messages are kept.
pub const DEFAULT_CAPACITY: usize = 200;

/// The last messages the channel saw, by message id.
pub struct RecentMessages<M> {
    pub inner: Window<M>,
}

impl<M> RecentMessages<M> {
    pub open spec fn wf(&self) -> bool {
        self.inner.wf()
    }

    /// A window of the default capacity.
    pub fn new() -> (r: Self)
        ensures
            r.wf(),
            r.inner.capacity == DEFAULT_CAPACITY,
            r.inner.entries@.len() == 0,
    {
        RecentMessages { inner: Window::with_capacity(DEFAULT_CAPACITY) }
    }

    /// A window of that capacity; zero counts as one.
    pub fn with_capacity(capacity: usize) -> (r: Self)
        requires
            capacity < usize::MAX,
        ensures
            r.wf(),
            r.inner.capacity == if capacity == 0 {
                1
            } else {
                capacity
            },
            r.inner.entries@.len() == 0,
    {
        RecentMessages { inner: Window::with_capacity(capacity) }
    }

    /// Remembers a message as the newest, evicting the oldest once the window
    /// is full; a message without id is ignored.
    pub fn remember(&mut self, id: String, message: M)
        requires
            old(self).wf(),
        ensures
            final(self).wf(),
            final(self).inner.capacity == old(self).inner.capacity,
            final(self).inner.entries@ == if id@.len() == 0 {
                old(self).inner.entries@
            } else {
                newest(
                    without(old(self).inner.entries@, id@).push((id, message)),
                    old(self).inner.capacity as int,
                )
            },
    {
        if id.as_str().is_empty() {
            return;
        }
        self.inner.remember(id, message);
    }

    /// The message under an id, if it is still inside the window.
    pub fn get(&self, id: &str) -> (r: Option<&M>)
        ensures
            match r {
                Some(m) => entry_of(self.inner.entries@, id@) is Some && *m
                    == self.inner.entries@[entry_of(self.inner.entries@, id@)->0].1,
                None => entry_of(self.inner.entries@, id@) is None,
            },
    {
        self.inner.get(id)
    }

    pub fn len(&self) -> (n: usize)
        ensures
            n == self.inner.entries@.len(),
    {
        self.inner.len()
    }
}

} // verus!
