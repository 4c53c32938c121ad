//! A reader/writer shell over the latch contract.
//!
//! The reader/writer distinction is out of scope for this crate: both kinds
//! of guard take the lock exclusively, so the latch counts no further than
//! zero or one.  What is verified is the shared shape of every lock here:
//! the value is out in exactly one guard while the latch is raised.

use vstd::pervasive::unreached;
use vstd::prelude::*;

verus! {

/// A lock guarding a value of type `T`, acquired for reading or for writing.
pub struct RwLock<T> {
    latch: u64,
    inner: Option<T>,
}

/// Read access to the value guarded by a [`RwLock`].
///
/// The guard owns the protected value; it is released exactly once, by
/// [`RwLock::release_read`] consuming it.  Return a guard only to the lock
/// that issued it.
pub struct RwLockReadGuard<T> {
    value: T,
}

/// Write access to the value guarded by a [`RwLock`].
///
/// The guard owns the protected value; it is released exactly once, by
/// [`RwLock::release_write`] consuming it.  Return a guard only to the lock
/// that issued it.
pub struct RwLockWriteGuard<T> {
    value: T,
}

impl<T> View for RwLockReadGuard<T> {
    type V = T;

    closed spec fn view(&self) -> T {
        self.value
    }
}

impl<T> View for RwLockWriteGuard<T> {
    type V = T;

    closed spec fn view(&self) -> T {
        self.value
    }
}

impl<T> RwLockReadGuard<T> {
    /// Read the protected value.
    pub fn get(&self) -> (r: &T)
        ensures
            *r == self@,
    {
        &self.value
    }
}

impl<T> RwLockWriteGuard<T> {
    /// Read the protected value.
    pub fn get(&self) -> (r: &T)
        ensures
            *r == self@,
    {
        &self.value
    }

    /// Overwrite the protected value.
    pub fn set(&mut self, v: T)
        ensures
            final(self)@ == v,
    {
        self.value = v;
    }
}

impl<T> RwLock<T> {
    /// The latch counts the outstanding guards: zero or one, and the value
    /// rests in the lock exactly while it is zero.
    pub closed spec fn wf(&self) -> bool {
        &&& self.latch <= 1
        &&& self.latch == 0 <==> self.inner is Some
    }

    /// Whether the lock is currently held, by a reader or by a writer.
    pub closed spec fn held(&self) -> bool {
        self.latch != 0
    }

    /// The value resting in the lock; `None` while a guard holds it.
    pub closed spec fn stored(&self) -> Option<T> {
        self.inner
    }

    /// Construct an unheld lock wrapping `inner`.
    pub fn new(inner: T) -> (m: Self)
        ensures
            m.wf(),
            !m.held(),
            m.stored() == Some(inner),
    {
        RwLock { latch: 0, inner: Some(inner) }
    }

    /// Acquire the free lock for reading.  Under contention the caller
    /// retries once the holder has released.
    pub fn read(&mut self) -> (g: RwLockReadGuard<T>)
        requires
            old(self).wf(),
            !old(self).held(),
        ensures
            final(self).wf(),
            final(self).held(),
            final(self).stored() is None,
            Some(g@) == old(self).stored(),
    {
        self.latch = 1;
        let v = self.inner.take();
        match v {
            Some(value) => RwLockReadGuard { value },
            None => unreached(),
        }
    }

    /// Acquire the free lock for writing.  Under contention the caller
    /// retries once the holder has released.
    pub fn write(&mut self) -> (g: RwLockWriteGuard<T>)
        requires
            old(self).wf(),
            !old(self).held(),
        ensures
            final(self).wf(),
            final(self).held(),
            final(self).stored() is None,
            Some(g@) == old(self).stored(),
    {
        self.latch = 1;
        let v = self.inner.take();
        match v {
            Some(value) => RwLockWriteGuard { value },
            None => unreached(),
        }
    }

    /// Release a read guard, returning the guarded value to the lock.
    pub fn release_read(&mut self, g: RwLockReadGuard<T>)
        requires
            old(self).wf(),
            old(self).held(),
        ensures
            final(self).wf(),
            !final(self).held(),
            final(self).stored() == Some(g@),
    {
        let RwLockReadGuard { value } = g;
        self.latch = 0;
        self.inner = Some(value);
    }

    /// Release a write guard, returning the guarded value to the lock.
    pub fn release_write(&mut self, g: RwLockWriteGuard<T>)
        requires
            old(self).wf(),
            old(self).held(),
        ensures
            final(self).wf(),
            !final(self).held(),
            final(self).stored() == Some(g@),
    {
        let RwLockWriteGuard { value } = g;
        self.latch = 0;
        self.inner = Some(value);
    }
}

} // verus!
