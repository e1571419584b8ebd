//! A pair of values, one for the deterministic VM and one for the
//! non-deterministic one.

use vstd::prelude::*;

verus! {

/// One value per kind of VM.
#[derive(Debug, Clone)]
pub struct DetNondet<T> {
    pub det: T,
    pub non_det: T,
}

impl<T> DetNondet<T> {
    /// The value for the deterministic VM when `is_det`, else the other.
    pub fn get(&self, is_det: bool) -> (r: &T)
        ensures
            *r == if is_det { self.det } else { self.non_det },
    {
        if is_det {
            &self.det
        } else {
            &self.non_det
        }
    }

    /// Access to the value for the deterministic VM when `is_det`, else to
    /// the other; the other value stays as it was.
    pub fn get_mut(&mut self, is_det: bool) -> (r: &mut T)
        ensures
            *r == if is_det { old(self).det } else { old(self).non_det },
            is_det ==> final(self).det == *final(r) && final(self).non_det == old(self).non_det,
            !is_det ==> final(self).non_det == *final(r) && final(self).det == old(self).det,
    {
        if is_det {
            &mut self.det
        } else {
            &mut self.non_det
        }
    }
}

} // verus!
