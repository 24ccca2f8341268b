use super::dynamic_bool::DynamicBool;
use super::dynamic_usize::DynamicUsize;
use vstd::pervasive::unreached;
use vstd::prelude::*;

verus! {

/// For how many calls a shared cell's value is kept before the cell is read
/// again, unless another time is set: about 10 ms of audio at 44100 Hz.
pub const DEFAULT_CACHE_TIME: usize = 441;

/// A parameter that is either a plain value or a cell shared between threads.
///
/// What a control does is described by relations between its state before
/// and after a call: a plain value is read as it is, while a read of a shared
/// cell may return whatever another thread stored there.
pub trait MaybeDynamic<T>: Clone + Default {
    /// The states in which the control may be used.
    open spec fn ready(&self) -> bool {
        true
    }

    /// Whether this kind of control is a shared cell.
    open spec fn dynamic() -> bool {
        false
    }

    /// `get` on `self` may return `value` and leave the control as `after`.
    /// Of a control that says nothing else, a read may return anything.
    open spec fn reads(&self, after: &Self, value: T) -> bool {
        true
    }

    /// `set(new_value)` on `self` may leave the control as `after`.
    open spec fn writes(&self, after: &Self, new_value: T) -> bool {
        true
    }

    /// Whether `amount` can be added to the control.
    open spec fn can_add(&self, amount: T) -> bool {
        true
    }

    /// `add(amount)` on `self` may return `result` and leave the control as `after`.
    open spec fn adds(&self, after: &Self, amount: T, result: T) -> bool {
        true
    }

    /// `set_cache_time(cache_time)` on `self` gives `after`.
    open spec fn recaches(&self, after: &Self, cache_time: usize) -> bool {
        true
    }

    /// The current value.
    fn get(&mut self) -> (value: T)
        requires
            old(self).ready(),
        ensures
            final(self).ready(),
            old(self).reads(final(self), value),
    ;

    /// Replaces the value.
    fn set(&mut self, new_value: T)
        requires
            old(self).ready(),
        ensures
            final(self).ready(),
            old(self).writes(final(self), new_value),
    ;

    /// Adds `amount` to the value.
    fn add(&mut self, amount: T) -> (result: T)
        requires
            old(self).ready(),
            old(self).can_add(amount),
        ensures
            final(self).ready(),
            old(self).adds(final(self), amount, result),
    ;

    /// Whether this kind of control is a shared cell.
    fn is_dynamic() -> (answer: bool)
        ensures
            answer == Self::dynamic(),
    ;

    /// Whether this kind of control is a plain value.
    fn is_static() -> (answer: bool)
        ensures
            answer == !Self::dynamic(),
    {
        !Self::is_dynamic()
    }

    /// For how many calls a shared cell's value is kept before the cell is
    /// read again, unless another time is set.
    fn default_cache_time() -> (calls: usize)
        ensures
            calls == DEFAULT_CACHE_TIME,
    {
        DEFAULT_CACHE_TIME
    }

    /// The control with another cache time. Only a shared cell has one.
    fn set_cache_time(self, cache_time: usize) -> (after: Self)
        requires
            Self::dynamic(),
            self.ready(),
            cache_time < usize::MAX,
        ensures
            after.ready(),
            self.recaches(&after, cache_time),
    ;
}

impl MaybeDynamic<usize> for usize {
    open spec fn ready(&self) -> bool {
        true
    }

    open spec fn dynamic() -> bool {
        false
    }

    open spec fn reads(&self, after: &Self, value: usize) -> bool {
        value == *self && *after == *self
    }

    open spec fn writes(&self, after: &Self, new_value: usize) -> bool {
        *after == new_value
    }

    open spec fn can_add(&self, amount: usize) -> bool {
        *self + amount <= usize::MAX
    }

    open spec fn adds(&self, after: &Self, amount: usize, result: usize) -> bool {
        *after == *self + amount && result == *after
    }

    open spec fn recaches(&self, after: &Self, cache_time: usize) -> bool {
        *after == *self
    }

    fn get(&mut self) -> (value: usize) {
        *self
    }

    fn set(&mut self, new_value: usize) {
        *self = new_value;
    }

    fn add(&mut self, amount: usize) -> (result: usize) {
        *self += amount;
        *self
    }

    fn is_dynamic() -> (answer: bool) {
        false
    }

    /// A plain value has no cache time: this is never called.
    fn set_cache_time(self, _cache_time: usize) -> (after: Self) {
        unreached()
    }
}

impl MaybeDynamic<usize> for DynamicUsize {
    open spec fn ready(&self) -> bool {
        self.num_calls_to_cache_for > 0
    }

    open spec fn dynamic() -> bool {
        true
    }

    open spec fn reads(&self, after: &Self, value: usize) -> bool {
        self.may_get(after, value)
    }

    open spec fn writes(&self, after: &Self, new_value: usize) -> bool {
        self.may_set(after, new_value)
    }

    open spec fn can_add(&self, amount: usize) -> bool {
        true
    }

    open spec fn adds(&self, after: &Self, amount: usize, result: usize) -> bool {
        self.may_add(after, amount, result)
    }

    open spec fn recaches(&self, after: &Self, cache_time: usize) -> bool {
        self.with_cache_time(after, cache_time)
    }

    fn get(&mut self) -> (value: usize) {
        DynamicUsize::get(self)
    }

    fn set(&mut self, new_value: usize) {
        DynamicUsize::set(self, new_value);
    }

    fn add(&mut self, amount: usize) -> (result: usize) {
        DynamicUsize::add(self, amount)
    }

    fn is_dynamic() -> (answer: bool) {
        true
    }

    fn set_cache_time(self, cache_time: usize) -> (after: Self) {
        DynamicUsize::set_cache_time(self, cache_time)
    }
}

impl MaybeDynamic<bool> for bool {
    open spec fn ready(&self) -> bool {
        true
    }

    open spec fn dynamic() -> bool {
        false
    }

    open spec fn reads(&self, after: &Self, value: bool) -> bool {
        value == *self && *after == *self
    }

    open spec fn writes(&self, after: &Self, new_value: bool) -> bool {
        *after == new_value
    }

    open spec fn can_add(&self, amount: bool) -> bool {
        false
    }

    open spec fn adds(&self, after: &Self, amount: bool, result: bool) -> bool {
        *after == *self && result == *self
    }

    open spec fn recaches(&self, after: &Self, cache_time: usize) -> bool {
        *after == *self
    }

    fn get(&mut self) -> (value: bool) {
        *self
    }

    fn set(&mut self, new_value: bool) {
        *self = new_value;
    }

    /// Nothing can be added to a flag: this is never called.
    fn add(&mut self, _amount: bool) -> (result: bool) {
        unreached()
    }

    fn is_dynamic() -> (answer: bool) {
        false
    }

    /// A plain value has no cache time: this is never called.
    fn set_cache_time(self, _cache_time: usize) -> (after: Self) {
        unreached()
    }
}

impl MaybeDynamic<bool> for DynamicBool {
    open spec fn ready(&self) -> bool {
        self.num_calls_to_cache_for > 0
    }

    open spec fn dynamic() -> bool {
        true
    }

    open spec fn reads(&self, after: &Self, value: bool) -> bool {
        self.may_get(after, value)
    }

    open spec fn writes(&self, after: &Self, new_value: bool) -> bool {
        self.may_set(after, new_value)
    }

    open spec fn can_add(&self, amount: bool) -> bool {
        false
    }

    open spec fn adds(&self, after: &Self, amount: bool, result: bool) -> bool {
        *after == *self && result == self.cache
    }

    open spec fn recaches(&self, after: &Self, cache_time: usize) -> bool {
        self.with_cache_time(after, cache_time)
    }

    fn get(&mut self) -> (value: bool) {
        DynamicBool::get(self)
    }

    fn set(&mut self, new_value: bool) {
        DynamicBool::set(self, new_value);
    }

    /// Nothing can be added to a flag: this is never called.
    fn add(&mut self, _amount: bool) -> (result: bool) {
        unreached()
    }

    fn is_dynamic() -> (answer: bool) {
        true
    }

    fn set_cache_time(self, cache_time: usize) -> (after: Self) {
        DynamicBool::set_cache_time(self, cache_time)
    }
}

} // verus!
