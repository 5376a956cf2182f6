//! A cell that is written once.
use vstd::prelude::*;

verus! {

/// A cell that is empty until it is set, and keeps its value from then on.
pub struct Once<T> {
    cell: Option<T>,
}

impl<T> Once<T> {
    /// The value, if it was set.
    pub closed spec fn value(&self) -> Option<T> {
        self.cell
    }

    /// An empty cell.
    pub fn new() -> (r: Self)
        ensures
            r.value() is None,
    {
        Once { cell: None }
    }

    /// Store the value. A second value is handed back, and the first kept.
    pub fn set(&mut self, value: T) -> (r: Result<(), T>)
        ensures
            old(self).value() is None ==> r is Ok && final(self).value() == Some(value),
            old(self).value() is Some ==> r == Err::<(), T>(value) && final(self).value() == old(
                self,
            ).value(),
    {
        if self.cell.is_some() {
            return Err(value);
        }
        self.cell = Some(value);
        Ok(())
    }

    /// The value, if it was set.
    pub fn get(&self) -> (r: Option<&T>)
        ensures
            r is Some == self.value() is Some,
            r is Some ==> *r->0 == self.value()->0,
    {
        self.cell.as_ref()
    }
}

impl<T> Default for Once<T> {
    fn default() -> (r: Self)
        ensures
            r.value() is None,
    {
        Self::new()
    }
}

/// The first value that is set is the one that is read from then on; a second
/// one is handed back.
pub proof fn law_first_value_stays<T>(
    cell: Once<T>,
    c0: &mut Once<T>,
    c1: &mut Once<T>,
    a: T,
    b: T,
    before: Option<&T>,
    s0: Result<(), T>,
    s1: Result<(), T>,
    after: Option<&T>,
)
    requires
        call_ensures(Once::<T>::new, (), cell),
        call_ensures(Once::<T>::get, (&cell,), before),
        *old(c0) == cell,
        call_ensures(Once::<T>::set, (c0, a), s0),
        *old(c1) == *final(c0),
        call_ensures(Once::<T>::set, (c1, b), s1),
        call_ensures(Once::<T>::get, (&*final(c1),), after),
    ensures
        before is None,
        s0 is Ok,
        s1 == Err::<(), T>(b),
        after == Some(&a),
{
}

} // verus!
