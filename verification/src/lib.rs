//! Userspace mutual-exclusion primitives, modelled and verified.
//!
//! The crate holds a family of locks that guard a single protected value:
//!
//! - [`Mutex`] (crate root): a plain test-and-set spinlock,
//! - [`test_and_set::Mutex`]: the same primitive as an independent module,
//! - [`mutex_queued::MutexFair`]: a second draft of the same latch contract,
//! - [`rwlock::RwLock`]: a reader/writer shell over the same latch contract,
//! - [`mcs_lock::MCSLock`]: the core of the crate, a fair FIFO queue lock in
//!   the Mellor-Crummey-Scott style.
//!
//! Every lock is a state machine over plain data.  Each public method is one
//! atomic step of the protocol, with a contract that pins down exactly how the
//! step moves the state, so that a driver that interleaves steps of many
//! threads in any order stays inside the verified transitions.  The waiting
//! loops themselves (spin, yield, or an OS-level park) cannot be expressed in
//! verified code, because a loop that only terminates when *another* thread
//! acts has no termination measure; the driver that owns the threads runs
//! them, and each retry is one call of a step function here.

use vstd::pervasive::unreached;
use vstd::prelude::*;

pub mod mcs_lock;
pub mod mutex_queued;
pub mod rwlock;
pub mod test_and_set;

verus! {

/// A test-and-set spinlock guarding a value of type `T`.
///
/// The model keeps the latch as a plain boolean and hands the protected value
/// out by ownership: while a [`MutexGuard`] is alive the value is inside the
/// guard and `stored()` is `None`, so no second guard can be built.  The
/// atomic compare-exchange of the latch is the step [`Mutex::try_lock`]; a
/// blocking acquire is that step retried by the caller until it grants.
pub struct Mutex<T> {
    latch: bool,
    inner: Option<T>,
}

/// Exclusive access to the value guarded by a [`Mutex`].
///
/// The guard owns the protected value for its whole lifetime: reading and
/// writing go through [`MutexGuard::get`] and [`MutexGuard::set`], and the
/// value returns to the lock only when [`Mutex::unlock`] consumes the guard.
/// Because the guard is consumed by value, it can release at most once, and
/// it cannot be copied or cloned, so no duplicate release is possible.
/// Return a guard only to the lock that issued it.
pub struct MutexGuard<T> {
    value: T,
}

impl<T> View for MutexGuard<T> {
    type V = T;

    closed spec fn view(&self) -> T {
        self.value
    }
}

impl<T> MutexGuard<T> {
    /// Read the protected value.
    pub fn get(&self) -> (r: &T)
        ensures
            *r == self@,
    {
        &self.value
    }

    /// Overwrite the protected value.
    pub fn set(&mut self, v: T)
        ensures
            final(self)@ == v,
    {
        self.value = v;
    }
}

impl<T> Mutex<T> {
    /// The latch is set exactly while the value is out in a guard.
    pub closed spec fn wf(&self) -> bool {
        self.latch <==> self.inner is None
    }

    /// Whether the lock is currently held (a guard is outstanding).
    pub closed spec fn held(&self) -> bool {
        self.latch
    }

    /// The value resting in the lock; `None` while a guard holds it.
    pub closed spec fn stored(&self) -> Option<T> {
        self.inner
    }

    /// Construct an unheld lock wrapping `inner`.
    pub fn new(inner: T) -> (m: Self)
        ensures
            m.wf(),
            !m.held(),
            m.stored() == Some(inner),
    {
        Mutex { latch: false, inner: Some(inner) }
    }

    /// One compare-exchange attempt on the latch: succeeds, and hands out the
    /// guard, exactly when the lock was free.  This is the body of a blocking
    /// acquire loop; a contending caller retries it.
    pub fn try_lock(&mut self) -> (g: Option<MutexGuard<T>>)
        requires
            old(self).wf(),
        ensures
            final(self).wf(),
            g is Some <==> !old(self).held(),
            g matches Some(gg) ==> {
                &&& final(self).held()
                &&& final(self).stored() is None
                &&& Some(gg@) == old(self).stored()
            },
            g is None ==> *final(self) == *old(self),
    {
        if self.latch {
            None
        } else {
            self.latch = true;
            let v = self.inner.take();
            match v {
                Some(value) => Some(MutexGuard { value }),
                None => None,
            }
        }
    }

    /// Acquire the free lock.  With a single caller this always succeeds at
    /// once; under contention the wait is the caller retrying
    /// [`Mutex::try_lock`], since a blocking wait has no sequential form.
    pub fn lock(&mut self) -> (g: MutexGuard<T>)
        requires
            old(self).wf(),
            !old(self).held(),
        ensures
            final(self).wf(),
            final(self).held(),
            final(self).stored() is None,
            Some(g@) == old(self).stored(),
    {
        self.latch = true;
        let v = self.inner.take();
        match v {
            Some(value) => MutexGuard { value },
            None => unreached(),
        }
    }

    /// Acquire the free lock without yielding between retries.  The model
    /// does not represent the wait strategy, only the acquisition itself, so
    /// the contract is that of [`Mutex::lock`].
    pub fn lock_spin(&mut self) -> (g: MutexGuard<T>)
        requires
            old(self).wf(),
            !old(self).held(),
        ensures
            final(self).wf(),
            final(self).held(),
            final(self).stored() is None,
            Some(g@) == old(self).stored(),
    {
        self.lock()
    }

    /// Release the lock, returning the guarded value to it.  Consuming the
    /// guard by value makes a second release of the same guard impossible.
    pub fn unlock(&mut self, g: MutexGuard<T>)
        requires
            old(self).wf(),
            old(self).held(),
        ensures
            final(self).wf(),
            !final(self).held(),
            final(self).stored() == Some(g@),
    {
        let MutexGuard { value } = g;
        self.latch = false;
        self.inner = Some(value);
    }
}

/// Mutual exclusion for the spinlock: the protected value is away in a guard
/// exactly while the lock is held, so a second guard can never be built while
/// one is alive ([`Mutex::try_lock`] grants if and only if the lock was
/// free).
pub proof fn lemma_mutex_exclusion<T>(m: Mutex<T>)
    requires
        m.wf(),
    ensures
        m.held() <==> m.stored() is None,
{
}

} // verus!
