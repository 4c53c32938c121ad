//! A second, fair-minded draft of the latch mutex.
//!
//! The queued wait list this draft reached for never materialised; what it
//! implements is the plain latch contract, the same one as the spinlock at
//! the crate root.  The fair, queue-based protocol itself lives in
//! [`crate::mcs_lock`].

use vstd::pervasive::unreached;
use vstd::prelude::*;

verus! {

/// A latch mutex guarding a value of type `T`.
pub struct MutexFair<T> {
    pin: bool,
    inner: Option<T>,
}

/// Exclusive access to the value guarded by a [`MutexFair`].
///
/// The guard owns the protected value; it is released exactly once, by
/// [`MutexFair::unlock`] consuming it.  Return a guard only to the lock that
/// issued it.
pub struct MutexFairGuard<T> {
    value: T,
}

impl<T> View for MutexFairGuard<T> {
    type V = T;

    closed spec fn view(&self) -> T {
        self.value
    }
}

impl<T> MutexFairGuard<T> {
    /// Read the protected value.
    pub fn get(&self) -> (r: &T)
        ensures
            *r == self@,
    {
        &self.value
    }

    /// Overwrite the protected value.
    pub fn set(&mut self, v: T)
        ensures
            final(self)@ == v,
    {
        self.value = v;
    }
}

impl<T> MutexFair<T> {
    /// The latch is set exactly while the value is out in a guard.
    pub closed spec fn wf(&self) -> bool {
        self.pin <==> self.inner is None
    }

    /// Whether the lock is currently held.
    pub closed spec fn held(&self) -> bool {
        self.pin
    }

    /// The value resting in the lock; `None` while a guard holds it.
    pub closed spec fn stored(&self) -> Option<T> {
        self.inner
    }

    /// Construct an unheld lock wrapping `inner`.
    pub fn new(inner: T) -> (m: Self)
        ensures
            m.wf(),
            !m.held(),
            m.stored() == Some(inner),
    {
        MutexFair { pin: false, inner: Some(inner) }
    }

    /// One compare-exchange attempt on the latch: grants exactly when the
    /// lock was free, and otherwise leaves everything unchanged.
    pub fn try_lock(&mut self) -> (g: Option<MutexFairGuard<T>>)
        requires
            old(self).wf(),
        ensures
            final(self).wf(),
            g is Some <==> !old(self).held(),
            g matches Some(gg) ==> {
                &&& final(self).held()
                &&& final(self).stored() is None
                &&& Some(gg@) == old(self).stored()
            },
            g is None ==> *final(self) == *old(self),
    {
        if self.pin {
            None
        } else {
            self.pin = true;
            let v = self.inner.take();
            match v {
                Some(value) => Some(MutexFairGuard { value }),
                None => None,
            }
        }
    }

    /// Acquire the free lock.  Under contention the caller retries
    /// [`MutexFair::try_lock`] instead, yielding between attempts.
    pub fn lock(&mut self) -> (g: MutexFairGuard<T>)
        requires
            old(self).wf(),
            !old(self).held(),
        ensures
            final(self).wf(),
            final(self).held(),
            final(self).stored() is None,
            Some(g@) == old(self).stored(),
    {
        self.pin = true;
        let v = self.inner.take();
        match v {
            Some(value) => MutexFairGuard { value },
            None => unreached(),
        }
    }

    /// Acquire the free lock; same acquisition step as [`MutexFair::lock`],
    /// without the driver yielding between retries.
    pub fn lock_spin(&mut self) -> (g: MutexFairGuard<T>)
        requires
            old(self).wf(),
            !old(self).held(),
        ensures
            final(self).wf(),
            final(self).held(),
            final(self).stored() is None,
            Some(g@) == old(self).stored(),
    {
        self.lock()
    }

    /// Release the lock, returning the guarded value to it.
    pub fn unlock(&mut self, g: MutexFairGuard<T>)
        requires
            old(self).wf(),
            old(self).held(),
        ensures
            final(self).wf(),
            !final(self).held(),
            final(self).stored() == Some(g@),
    {
        let MutexFairGuard { value } = g;
        self.pin = false;
        self.inner = Some(value);
    }
}

} // verus!
