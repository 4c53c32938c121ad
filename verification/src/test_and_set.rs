//! A test-and-set spinlock, kept as a module of its own.
//!
//! The primitive is the same one as at the crate root: a single boolean
//! latch, acquired by one compare-exchange attempt at a time, with the
//! protected value handed out by ownership while a guard is alive.

use vstd::pervasive::unreached;
use vstd::prelude::*;

verus! {

/// A test-and-set spinlock guarding a value of type `T`.
///
/// The latch is the whole control state: `try_lock` is the compare-exchange
/// on it, and a contending caller retries that step, since the busy wait
/// itself has no sequential form.
pub struct Mutex<T> {
    pin: bool,
    inner: Option<T>,
}

/// Exclusive access to the value guarded by a [`Mutex`].
///
/// The guard owns the protected value; it is released exactly once, by
/// [`Mutex::unlock`] consuming it.  Return a guard only to the lock that
/// issued it.
pub struct MutexGuard<T> {
    value: T,
}

impl<T> View for MutexGuard<T> {
    type V = T;

    closed spec fn view(&self) -> T {
        self.value
    }
}

impl<T> MutexGuard<T> {
    /// Read the protected value.
    pub fn get(&self) -> (r: &T)
        ensures
            *r == self@,
    {
        &self.value
    }

    /// Overwrite the protected value.
    pub fn set(&mut self, v: T)
        ensures
            final(self)@ == v,
    {
        self.value = v;
    }
}

impl<T> Mutex<T> {
    /// The latch is set exactly while the value is out in a guard.
    pub closed spec fn wf(&self) -> bool {
        self.pin <==> self.inner is None
    }

    /// Whether the lock is currently held.
    pub closed spec fn held(&self) -> bool {
        self.pin
    }

    /// The value resting in the lock; `None` while a guard holds it.
    pub closed spec fn stored(&self) -> Option<T> {
        self.inner
    }

    /// Construct an unheld lock wrapping `inner`.
    pub fn new(inner: T) -> (m: Self)
        ensures
            m.wf(),
            !m.held(),
            m.stored() == Some(inner),
    {
        Mutex { pin: false, inner: Some(inner) }
    }

    /// One compare-exchange attempt on the latch: grants exactly when the
    /// lock was free, and otherwise leaves everything unchanged.
    pub fn try_lock(&mut self) -> (g: Option<MutexGuard<T>>)
        requires
            old(self).wf(),
        ensures
            final(self).wf(),
            g is Some <==> !old(self).held(),
            g matches Some(gg) ==> {
                &&& final(self).held()
                &&& final(self).stored() is None
                &&& Some(gg@) == old(self).stored()
            },
            g is None ==> *final(self) == *old(self),
    {
        if self.pin {
            None
        } else {
            self.pin = true;
            let v = self.inner.take();
            match v {
                Some(value) => Some(MutexGuard { value }),
                None => None,
            }
        }
    }

    /// Acquire the free lock.  Under contention the caller retries
    /// [`Mutex::try_lock`] instead, yielding between attempts.
    pub fn lock(&mut self) -> (g: MutexGuard<T>)
        requires
            old(self).wf(),
            !old(self).held(),
        ensures
            final(self).wf(),
            final(self).held(),
            final(self).stored() is None,
            Some(g@) == old(self).stored(),
    {
        self.pin = true;
        let v = self.inner.take();
        match v {
            Some(value) => MutexGuard { value },
            None => unreached(),
        }
    }

    /// Acquire the free lock; same acquisition step as [`Mutex::lock`], the
    /// difference between the two being only the retry strategy of the
    /// driver, which the model does not represent.
    pub fn lock_spin(&mut self) -> (g: MutexGuard<T>)
        requires
            old(self).wf(),
            !old(self).held(),
        ensures
            final(self).wf(),
            final(self).held(),
            final(self).stored() is None,
            Some(g@) == old(self).stored(),
    {
        self.lock()
    }

    /// Release the lock, returning the guarded value to it.
    pub fn unlock(&mut self, g: MutexGuard<T>)
        requires
            old(self).wf(),
            old(self).held(),
        ensures
            final(self).wf(),
            !final(self).held(),
            final(self).stored() == Some(g@),
    {
        let MutexGuard { value } = g;
        self.pin = false;
        self.inner = Some(value);
    }
}

} // verus!
