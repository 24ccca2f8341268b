use std::sync::atomic::{AtomicUsize, Ordering};
use std::sync::Arc;
use super::maybe_dynamic::DEFAULT_CACHE_TIME;
use crate::sharing::share;
use vstd::prelude::*;
use vstd::wrapping::usize_specs::wrapping_add;

verus! {

/// A count in a cell that its clones share and any thread may write.
///
/// Each handle keeps the value it read last and reads the cell again only
/// on every `num_calls_to_cache_for`-th call of `get`.
#[derive(Debug)]
pub struct DynamicUsize {
    pub value: Arc<AtomicUsize>,
    pub cache: usize,
    pub num_calls_to_cache_for: usize,
    pub num_calls: usize,
}

impl DynamicUsize {
    /// The handles that can be used: a handle reads the cell at least every call.
    pub open spec fn wf(&self) -> bool {
        self.num_calls_to_cache_for > 0
    }

    /// `get` on `self` may return `value` and leave the handle as `after`:
    /// between two reads of the cell it returns the cached value; the call
    /// is counted, the count wrapping round.
    pub open spec fn may_get(&self, after: &Self, value: usize) -> bool {
        &&& after.value == self.value
        &&& after.num_calls_to_cache_for == self.num_calls_to_cache_for
        &&& after.num_calls == wrapping_add(self.num_calls, 1)
        &&& after.cache == value
        &&& self.num_calls % self.num_calls_to_cache_for != 0 ==> value == self.cache
    }

    /// `set(new_value)` on `self` leaves the handle as `after`.
    pub open spec fn may_set(&self, after: &Self, new_value: usize) -> bool {
        &&& after.value == self.value
        &&& after.num_calls_to_cache_for == self.num_calls_to_cache_for
        &&& after.num_calls == self.num_calls
        &&& after.cache == new_value
    }

    /// `add(amount)` on `self` may return `previous`, what the cell held
    /// before, and leave the handle as `after`: its cache holds what the
    /// cell holds after the addition, `previous + amount`, wrapping round.
    pub open spec fn may_add(&self, after: &Self, amount: usize, previous: usize) -> bool {
        &&& after.value == self.value
        &&& after.num_calls_to_cache_for == self.num_calls_to_cache_for
        &&& after.num_calls == self.num_calls
        &&& after.cache == wrapping_add(previous, amount)
    }

    /// `set_cache_time(cache_time)` on `self` gives `after`.
    pub open spec fn with_cache_time(&self, after: &Self, cache_time: usize) -> bool {
        &&& after.value == self.value
        &&& after.num_calls_to_cache_for == cache_time + 1
        &&& after.num_calls == self.num_calls
        &&& after.cache == self.cache
    }

    /// A new cell that holds `initial_value`, with the default cache time.
    pub fn new(initial_value: usize) -> (control: Self)
        ensures
            control.wf(),
            control.cache == initial_value,
            control.num_calls_to_cache_for == DEFAULT_CACHE_TIME + 1,
            control.num_calls == 0,
    {
        let value = Arc::new(AtomicUsize::new(initial_value));
        let cache = initial_value;
        let cache_time = DEFAULT_CACHE_TIME;
        let num_calls_to_cache_for = cache_time + 1;
        Self { value, cache, num_calls_to_cache_for, num_calls: 0 }
    }

    /// The handle, reading the cell again after every `cache_time` cached calls.
    pub fn set_cache_time(self, cache_time: usize) -> (after: Self)
        requires
            cache_time < usize::MAX,
        ensures
            after.wf(),
            self.with_cache_time(&after, cache_time),
    {
        let mut after = self;
        after.num_calls_to_cache_for = cache_time + 1;
        after
    }

    /// Whether the next `get` reads the cell: every
    /// `num_calls_to_cache_for`-th call does, starting with the first.
    pub fn is_due(&self) -> (due: bool)
        requires
            self.wf(),
        ensures
            due == (self.num_calls % self.num_calls_to_cache_for == 0),
    {
        self.num_calls % self.num_calls_to_cache_for == 0
    }

    /// What `get` does once the cell is read, or left alone: a value that
    /// was read is cached and returned, else the cached value is returned.
    /// The call is counted, the count wrapping round.
    pub fn take(&mut self, read: Option<usize>) -> (value: usize)
        ensures
            value == match read {
                Some(fresh) => fresh,
                None => old(self).cache,
            },
            final(self).cache == value,
            final(self).value == old(self).value,
            final(self).num_calls_to_cache_for == old(self).num_calls_to_cache_for,
            final(self).num_calls == wrapping_add(old(self).num_calls, 1),
    {
        match read {
            Some(fresh) => {
                self.cache = fresh;
            },
            None => {},
        }
        self.num_calls = self.num_calls.wrapping_add(1);
        self.cache
    }

    /// The value: read from the cell where a read is due, and taken from
    /// the cache in between.
    pub fn get(&mut self) -> (value: usize)
        requires
            old(self).wf(),
        ensures
            final(self).wf(),
            old(self).may_get(final(self), value),
    {
        let read = if self.is_due() {
            Some(self.value.load(Ordering::Relaxed))
        } else {
            None
        };
        self.take(read)
    }

    /// Stores `new_value` in the cell and in this handle's cache.
    pub fn set(&mut self, new_value: usize)
        ensures
            old(self).may_set(final(self), new_value),
    {
        self.value.store(new_value, Ordering::Relaxed);
        self.cache = new_value;
    }

    /// Adds `amount` to the cell, wrapping round, and returns what the cell
    /// held before. This handle's cache holds the sum afterwards, so that
    /// its next read finds the place moved on.
    pub fn add(&mut self, amount: usize) -> (previous: usize)
        ensures
            old(self).may_add(final(self), amount, previous),
    {
        let previous = self.value.fetch_add(amount, Ordering::Relaxed);
        self.cache = previous.wrapping_add(amount);
        previous
    }
}

impl Clone for DynamicUsize {
    /// Another handle to the same cell, which starts as this handle is and
    /// from then on counts its own calls and keeps its own cache.
    fn clone(&self) -> (handle: Self)
        ensures
            handle == *self,
    {
        Self {
            value: share(&self.value),
            cache: self.cache,
            num_calls_to_cache_for: self.num_calls_to_cache_for,
            num_calls: self.num_calls,
        }
    }
}

impl Default for DynamicUsize {
    fn default() -> (control: Self)
        ensures
            control.wf(),
            control.cache == 0,
            control.num_calls_to_cache_for == DEFAULT_CACHE_TIME + 1,
            control.num_calls == 0,
    {
        Self::new(0)
    }
}

} // verus!
