use vstd::prelude::*;

verus! {

/// A value that is released on request rather than when its owner goes away.
///
/// After `free` the value is gone; reading it is then refused.
pub struct ManualFree<T> {
    value: Option<T>,
}

impl<T> ManualFree<T> {
    /// Whether the value has been freed.
    pub closed spec fn spec_is_freed(self) -> bool {
        self.value is None
    }

    /// The value held; meaningful while it has not been freed.
    pub closed spec fn spec_value(self) -> T {
        self.value->0
    }

    /// Wraps the given value.
    pub fn new(x: T) -> (r: Self)
        ensures
            !r.spec_is_freed(),
            r.spec_value() == x,
    {
        Self { value: Some(x) }
    }

    /// Drops the value. Freeing an already freed value does nothing.
    pub fn free(&mut self)
        ensures
            final(self).spec_is_freed(),
            old(self).spec_is_freed() ==> *final(self) == *old(self),
    {
        self.value = None;
    }

    /// Returns whether the value has been freed.
    pub fn is_freed(&self) -> (r: bool)
        ensures
            r == self.spec_is_freed(),
    {
        self.value.is_none()
    }

    /// Borrows the value; it must not have been freed.
    pub fn deref(&self) -> (r: &T)
        requires
            !self.spec_is_freed(),
        ensures
            *r == self.spec_value(),
    {
        self.value.as_ref().unwrap()
    }

    /// Mutably borrows the value; it must not have been freed.
    pub fn deref_mut(&mut self) -> (r: &mut T)
        requires
            !old(self).spec_is_freed(),
        ensures
            *r == old(self).spec_value(),
            !final(self).spec_is_freed(),
            final(self).spec_value() == *final(r),
    {
        self.value.as_mut().unwrap()
    }
}

} // verus!
