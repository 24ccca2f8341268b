use super::maybe_dynamic::MaybeDynamic;
use vstd::pervasive::unreached;
use vstd::prelude::*;
use vstd::std_specs::ops::AddSpec;

verus! {

/// A parameter that never changes by itself: a plain value of any type.
#[derive(Clone, Copy, Debug)]
pub struct Fixed<T>(pub T);

impl<T: Copy + Default> Default for Fixed<T> {
    fn default() -> (fixed: Self)
        ensures
            call_ensures(T::default, (), fixed.0),
    {
        Fixed(T::default())
    }
}

impl<T: Copy + Default + core::ops::Add<Output = T>> MaybeDynamic<T> for Fixed<T> {
    open spec fn ready(&self) -> bool {
        true
    }

    open spec fn dynamic() -> bool {
        false
    }

    open spec fn reads(&self, after: &Self, value: T) -> bool {
        value == self.0 && *after == *self
    }

    open spec fn writes(&self, after: &Self, new_value: T) -> bool {
        after.0 == new_value
    }

    open spec fn can_add(&self, amount: T) -> bool {
        self.0.add_req(amount)
    }

    open spec fn adds(&self, after: &Self, amount: T, result: T) -> bool {
        &&& result == after.0
        &&& T::obeys_add_spec() ==> after.0 == self.0.add_spec(amount)
    }

    open spec fn recaches(&self, after: &Self, cache_time: usize) -> bool {
        *after == *self
    }

    fn get(&mut self) -> (value: T) {
        self.0
    }

    fn set(&mut self, new_value: T) {
        self.0 = new_value;
    }

    fn add(&mut self, amount: T) -> (result: T) {
        self.0 = self.0 + amount;
        self.0
    }

    fn is_dynamic() -> (answer: bool) {
        false
    }

    /// A plain value has no cache time: this is never called.
    fn set_cache_time(self, _cache_time: usize) -> (after: Self) {
        unreached()
    }
}

} // verus!
