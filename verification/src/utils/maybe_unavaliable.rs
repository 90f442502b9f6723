use vstd::prelude::*;

verus! {

/// Represents a value that is not checked at first, and upon being checked it might be available
/// or unavailable.
pub enum MaybeUnavailable<T> {
    NotChecked,
    Unavailable,
    Available(T),
}

impl<T> MaybeUnavailable<T> {
    /// The value held, if any.
    pub open spec fn spec_available(self) -> Option<T> {
        match self {
            MaybeUnavailable::Available(x) => Some(x),
            _ => None,
        }
    }

    /// The state left behind by `take`: `NotChecked` in place of an available value, and
    /// the same state otherwise.
    pub open spec fn spec_after_take(self) -> Self {
        match self {
            MaybeUnavailable::Available(_) => MaybeUnavailable::NotChecked,
            other => other,
        }
    }

    /// `Available(x)` for `Some(x)` and `Unavailable` for `None`.
    pub open spec fn spec_from_check_result(x: Option<T>) -> Self {
        match x {
            Some(v) => MaybeUnavailable::Available(v),
            None => MaybeUnavailable::Unavailable,
        }
    }

    /// Resets this value to the not checked state.
    pub fn reset(&mut self)
        ensures
            *final(self) == MaybeUnavailable::<T>::NotChecked,
    {
        *self = MaybeUnavailable::NotChecked;
    }

    /// If the value is available, returns it, otherwise returns `None`.
    pub fn available(self) -> (r: Option<T>)
        ensures
            r == self.spec_available(),
    {
        match self {
            MaybeUnavailable::Available(x) => Some(x),
            _ => None,
        }
    }

    /// Takes a value out of the `MaybeUnavailable`, leaving `NotChecked` in its place if it was
    /// `Available` and retains the value otherwise.
    pub fn take(&mut self) -> (r: Option<T>)
        ensures
            r == old(self).spec_available(),
            *final(self) == old(self).spec_after_take(),
    {
        let new_value = match self {
            MaybeUnavailable::NotChecked => MaybeUnavailable::NotChecked,
            MaybeUnavailable::Unavailable => MaybeUnavailable::Unavailable,
            MaybeUnavailable::Available(_) => MaybeUnavailable::NotChecked,
        };
        let mut previous = new_value;
        std::mem::swap(self, &mut previous);
        previous.available()
    }

    /// Moves the value `v` out of the `MaybeUnavailable<T>` if it is `Available(v)`.
    ///
    /// The value must be `Available`; the other states hold nothing to move out.
    pub fn unwrap(self) -> (r: T)
        requires
            self is Available,
        ensures
            r == self->0,
    {
        match self {
            MaybeUnavailable::Available(x) => x,
            MaybeUnavailable::NotChecked => unreached(),
            MaybeUnavailable::Unavailable => unreached(),
        }
    }

    /// Returns `true` if the value is `NotChecked`.
    pub fn is_not_checked(&self) -> (r: bool)
        ensures
            r == (*self is NotChecked),
    {
        match self {
            MaybeUnavailable::NotChecked => true,
            _ => false,
        }
    }

    /// Returns `true` if the value is `Available`.
    pub fn is_available(&self) -> (r: bool)
        ensures
            r == (*self is Available),
    {
        match self {
            MaybeUnavailable::Available(_) => true,
            _ => false,
        }
    }

    /// Converts from `MaybeUnavailable<T>` to `MaybeUnavailable<&mut T>`.
    pub fn as_mut(&mut self) -> (r: MaybeUnavailable<&mut T>)
        ensures
            (r is NotChecked) == (*old(self) is NotChecked),
            (r is Unavailable) == (*old(self) is Unavailable),
            (r is Available) == (*old(self) is Available),
            r is Available ==> *r->0 == old(self)->0
                && *final(self) == MaybeUnavailable::Available(*final(r->0)),
            !(r is Available) ==> *final(self) == *old(self),
    {
        match self {
            MaybeUnavailable::NotChecked => MaybeUnavailable::NotChecked,
            MaybeUnavailable::Unavailable => MaybeUnavailable::Unavailable,
            MaybeUnavailable::Available(x) => MaybeUnavailable::Available(x),
        }
    }

    /// Returns `Available(x)` if passed `Some(x)` and `Unavailable` otherwise.
    pub fn from_check_result(x: Option<T>) -> (r: Self)
        ensures
            r == Self::spec_from_check_result(x),
    {
        match x {
            Some(x) => MaybeUnavailable::Available(x),
            None => MaybeUnavailable::Unavailable,
        }
    }
}

/// Checking a result and reading it back gives the result itself: a value found by the check
/// is available, and a failed check makes nothing available.
pub proof fn lemma_check_result_round_trip<T>(x: Option<T>)
    ensures
        MaybeUnavailable::<T>::spec_from_check_result(x).spec_available() == x,
        (MaybeUnavailable::<T>::spec_from_check_result(x) is Available) == (x is Some),
{
}

/// After `take` nothing is available any more, and a second `take` changes nothing; a state
/// that held no value is not changed by `take` at all.
pub proof fn lemma_take_leaves_nothing<T>(m: MaybeUnavailable<T>)
    ensures
        m.spec_after_take().spec_available() is None,
        m.spec_after_take().spec_after_take() == m.spec_after_take(),
        !(m is Available) ==> m.spec_after_take() == m,
{
}

} // verus!
