//! The admission controller: a pool of permits that bounds how many
//! connections are handled at once.

use vstd::prelude::*;

verus! {

/// A fixed number of permits, each either free or held by one connection.
pub struct AdmissionController {
    capacity: usize,
    held: usize,
}

impl AdmissionController {
    #[verifier::type_invariant]
    spec fn within_capacity(&self) -> bool {
        self.held <= self.capacity
    }

    /// The number of permits in the pool.
    pub closed spec fn capacity(&self) -> nat {
        self.capacity as nat
    }

    /// The number of permits that are held.
    pub closed spec fn outstanding(&self) -> nat {
        self.held as nat
    }

    /// A pool of `capacity` permits, all free.
    pub fn new(capacity: usize) -> (out: Self)
        ensures
            out.capacity() == capacity,
            out.outstanding() == 0,
    {
        AdmissionController { capacity, held: 0 }
    }

    /// The number of free permits. Never more permits are held than the
    /// pool has.
    pub fn available(&self) -> (n: usize)
        ensures
            n == self.capacity() - self.outstanding(),
            self.outstanding() <= self.capacity(),
    {
        proof {
            use_type_invariant(self);
        }
        self.capacity - self.held
    }

    /// The number of permits that are held.
    pub fn in_use(&self) -> (n: usize)
        ensures
            n == self.outstanding(),
            self.outstanding() <= self.capacity(),
    {
        proof {
            use_type_invariant(self);
        }
        self.held
    }

    /// Takes a permit if one is free, and says whether it did.
    pub fn try_acquire(&mut self) -> (granted: bool)
        ensures
            granted == (old(self).outstanding() < old(self).capacity()),
            final(self).capacity() == old(self).capacity(),
            final(self).outstanding() == old(self).outstanding() + (if granted {
                1nat
            } else {
                0nat
            }),
            final(self).outstanding() <= final(self).capacity(),
    {
        proof {
            use_type_invariant(&*self);
        }
        if self.held < self.capacity {
            self.held = self.held + 1;
            true
        } else {
            false
        }
    }

    /// Gives back a permit that was taken before.
    pub fn release(&mut self)
        requires
            old(self).outstanding() > 0,
        ensures
            final(self).capacity() == old(self).capacity(),
            final(self).outstanding() == old(self).outstanding() - 1,
    {
        proof {
            use_type_invariant(&*self);
        }
        self.held = self.held - 1;
    }
}

} // verus!
