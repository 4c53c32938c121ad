//! A fair, FIFO, queue-based lock in the Mellor-Crummey-Scott style.
//!
//! Waiting threads form a singly linked queue.  A thread joins by swapping
//! itself in as the `tail`; the previous tail is its predecessor.  The
//! predecessor learns of its successor only once the successor *publishes*
//! the link into the predecessor's `next` slot — and between the tail swap
//! and that store lies the one real race of the protocol: the successor is
//! reachable through `tail` but not yet through `next`.  Release must
//! tolerate that window without losing the successor and without waking it
//! twice.
//!
//! The module verifies the protocol as a state machine over plain data.  One
//! [`MCSLock`] holds the whole shared state: the tail, the per-thread wait
//! nodes of the registry, and the protected value.  Each public method is a
//! single atomic step of the protocol — the tail swap, the link store, one
//! read of the wait flag, one release attempt — with a contract that pins
//! down its exact effect, so a driver may interleave the steps of its
//! threads in any order and stays inside the verified transitions.  Ghost
//! state records each thread's position in the protocol and the full arrival
//! and grant histories, which is what the fairness statement is about.
//!
//! What cannot stand here is the waiting itself: a spin loop, a yield, or an
//! OS-level park only terminates because *another* thread acts, so it has no
//! sequential form.  The driver that owns the threads runs those loops; each
//! recheck is one call of [`MCSLock::lock_poll`] or
//! [`MCSLock::unlock_step`].

use vstd::pervasive::unreached;
use vstd::pervasive::VecAdditionalExecFns;
use vstd::prelude::*;

verus! {

/// The per-thread wait record of the queue.
///
/// `next` is the link to the node that enqueued after this one, written by
/// that successor, not by the owner.  `locked` is the flag the owner waits
/// on: `true` means "still waiting", and the predecessor clears it to grant
/// the lock.
struct QueueNode {
    next: Option<usize>,
    locked: bool,
}

/// Where one thread stands in the acquisition protocol (ghost).
pub enum Phase {
    /// Not taking part: the thread is not in the queue.
    Idle,
    /// Has swapped itself in as the tail behind thread `pred`, but has not
    /// yet published the link into `pred`'s `next` slot.  This is the race
    /// window the release protocol must tolerate.
    Entered { pred: int },
    /// Published and waiting on its own `locked` flag.
    Waiting,
    /// Holds the lock: a guard for this thread is outstanding.
    Holding,
    /// Has given the value back and is running the release protocol.
    Releasing,
}

/// Exclusive access to the value guarded by an [`MCSLock`].
///
/// The guard owns the protected value for its whole lifetime; the value
/// returns to the lock only when release consumes the guard, so releasing
/// twice is impossible.  Return a guard only to the lock that issued it.
pub struct Guard<T> {
    me: usize,
    value: T,
}

impl<T> View for Guard<T> {
    type V = T;

    closed spec fn view(&self) -> T {
        self.value
    }
}

impl<T> Guard<T> {
    /// The thread this guard was granted to.
    pub closed spec fn thread(&self) -> int {
        self.me as int
    }

    /// The thread this guard was granted to.
    pub fn holder(&self) -> (t: usize)
        ensures
            t as int == self.thread(),
    {
        self.me
    }

    /// Read the protected value.
    pub fn get(&self) -> (r: &T)
        ensures
            *r == self@,
    {
        &self.value
    }

    /// Overwrite the protected value.
    pub fn set(&mut self, v: T)
        ensures
            final(self)@ == v,
            final(self).thread() == old(self).thread(),
    {
        self.value = v;
    }
}

/// What one tail swap produced: immediate acquisition, or a place in line.
pub enum LockAttempt<T> {
    /// The queue was empty: the caller acquired the lock at once.
    Acquired(Guard<T>),
    /// The caller stands in line behind the named predecessor.  It must
    /// publish the link ([`MCSLock::lock_publish`]) and then wait on its own
    /// flag ([`MCSLock::lock_poll`]).
    Queued(usize),
}

/// A fair FIFO queue lock guarding a value of type `T`.
///
/// The concrete fields mirror the shared memory of the protocol: the atomic
/// `tail`, one wait node per registered thread, and the protected value,
/// which rests in the lock exactly while no guard is outstanding.  The ghost
/// fields carry the proof: each thread's protocol phase, the queue in
/// enqueue order (head first), and the arrival and grant histories.
pub struct MCSLock<T> {
    tail: Option<usize>,
    nodes: Vec<QueueNode>,
    inner: Option<T>,
    phases: Ghost<Seq<Phase>>,
    order: Ghost<Seq<int>>,
    arrivals: Ghost<Seq<int>>,
    grants: Ghost<Seq<int>>,
}

impl<T> MCSLock<T> {
    /// How many threads have registered a wait node.
    pub closed spec fn num_threads(&self) -> nat {
        self.nodes@.len()
    }

    /// The protocol phase of thread `t`.
    pub closed spec fn phase(&self, t: int) -> Phase {
        self.phases@[t]
    }

    /// The waiting-or-running threads in enqueue order, head first.  The
    /// head is the thread that holds the lock or is next to be granted it;
    /// the last element is the one the tail reference names.
    pub closed spec fn queue(&self) -> Seq<int> {
        self.order@
    }

    /// Every thread that ever swapped itself into the queue, in swap order.
    pub closed spec fn arrived(&self) -> Seq<int> {
        self.arrivals@
    }

    /// Every thread that was ever granted the lock, in grant order.
    pub closed spec fn granted(&self) -> Seq<int> {
        self.grants@
    }

    /// The value resting in the lock; `None` while a guard holds it.
    pub closed spec fn stored(&self) -> Option<T> {
        self.inner
    }

    /// Whether thread `t` currently holds the lock.
    pub open spec fn holds_lock(&self, t: int) -> bool {
        self.phase(t) is Holding
    }

    /// The head of the queue has been granted the lock (it holds it, or is
    /// already releasing it).
    spec fn head_granted(&self) -> bool {
        &&& self.order@.len() > 0
        &&& (self.phases@[self.order@[0]] is Holding || self.phases@[self.order@[0]] is Releasing)
    }

    /// The queued threads that still wait for their grant.
    spec fn pending(&self) -> Seq<int> {
        if self.head_granted() {
            self.order@.skip(1)
        } else {
            self.order@
        }
    }

    /// The queue holds valid, pairwise distinct thread ids, and the tail
    /// reference names its last node, or nothing.
    #[verifier::opaque]
    spec fn wf_queue(&self) -> bool {
        let q = self.order@;
        let n = self.nodes@.len() as int;
        &&& self.phases@.len() == n
        &&& forall|i: int| 0 <= i < q.len() ==> 0 <= #[trigger] q[i] < n
        &&& forall|i: int, j: int| #![trigger q[i], q[j]] 0 <= i < j < q.len() ==> q[i] != q[j]
        &&& self.tail == (if q.len() == 0 {
            None
        } else {
            Some(q[q.len() - 1] as usize)
        })
    }

    /// A thread is out of the queue exactly while it is idle, and the head
    /// of the queue is past the race window: woken, holding, or releasing.
    #[verifier::opaque]
    spec fn wf_phases(&self) -> bool {
        let q = self.order@;
        let n = self.nodes@.len() as int;
        &&& forall|t: int| 0 <= t < n ==> ((#[trigger] self.phases@[t]) is Idle <==> !q.contains(t))
        &&& q.len() > 0 ==> (self.phases@[q[0]] is Waiting || self.phases@[q[0]] is Holding
            || self.phases@[q[0]] is Releasing)
        &&& q.len() > 0 && self.phases@[q[0]] is Waiting ==> !self.nodes@[q[0]].locked
    }

    /// Every thread behind the head still waits on its own raised flag and,
    /// while unpublished, names its true predecessor; a link slot is set
    /// exactly once its successor published it, and the last node has none.
    #[verifier::opaque]
    spec fn wf_links(&self) -> bool {
        let q = self.order@;
        &&& forall|i: int| 1 <= i < q.len() ==> (self.nodes@[#[trigger] q[i]].locked && (
            self.phases@[q[i]] is Waiting || self.phases@[q[i]] == (Phase::Entered {
                pred: q[i - 1],
            })))
        &&& forall|i: int| 0 <= i < q.len() - 1 ==> self.nodes@[#[trigger] q[i]].next == (
        if self.phases@[q[i + 1]] is Waiting {
            Some(q[i + 1] as usize)
        } else {
            None
        })
        &&& q.len() > 0 ==> self.nodes@[q[q.len() - 1]].next is None
    }

    /// The value is out exactly while the head holds the lock, and every
    /// arrival was granted already or still stands in line, in order.
    #[verifier::opaque]
    spec fn wf_value(&self) -> bool {
        let q = self.order@;
        &&& self.inner is None <==> (q.len() > 0 && self.phases@[q[0]] is Holding)
        &&& self.arrivals@ == self.grants@ + self.pending()
    }

    /// The protocol invariant: every reachable state satisfies it, and every
    /// step keeps it.
    pub closed spec fn wf(&self) -> bool {
        &&& self.wf_queue()
        &&& self.wf_phases()
        &&& self.wf_links()
        &&& self.wf_value()
    }

    /// Construct an unheld lock wrapping `inner`, with an empty registry.
    pub fn new(inner: T) -> (s: Self)
        ensures
            s.wf(),
            s.num_threads() == 0,
            s.queue() == Seq::<int>::empty(),
            s.arrived() == Seq::<int>::empty(),
            s.granted() == Seq::<int>::empty(),
            s.stored() == Some(inner),
    {
        let s = MCSLock {
            tail: None,
            nodes: Vec::new(),
            inner: Some(inner),
            phases: Ghost(Seq::empty()),
            order: Ghost(Seq::empty()),
            arrivals: Ghost(Seq::empty()),
            grants: Ghost(Seq::empty()),
        };
        proof {
            reveal(MCSLock::wf_queue);
            reveal(MCSLock::wf_phases);
            reveal(MCSLock::wf_links);
            reveal(MCSLock::wf_value);
            assert(s.arrivals@ =~= s.grants@ + s.pending());
        }
        s
    }

    /// Register the calling thread, handing it its wait node: the lazy,
    /// once-per-thread half of the registry.  The returned id names the
    /// thread in every later step.
    pub fn register(&mut self) -> (me: usize)
        requires
            old(self).wf(),
        ensures
            final(self).wf(),
            me as int == old(self).num_threads(),
            final(self).num_threads() == old(self).num_threads() + 1,
            final(self).queue() == old(self).queue(),
            final(self).arrived() == old(self).arrived(),
            final(self).granted() == old(self).granted(),
            final(self).stored() == old(self).stored(),
            final(self).phase(me as int) is Idle,
            forall|t: int|
                0 <= t < old(self).num_threads() ==> final(self).phase(t) == old(self).phase(t),
    {
        let me = self.nodes.len();
        self.nodes.push(QueueNode { next: None, locked: false });
        self.phases = Ghost(self.phases@.push(Phase::Idle));
        proof {
            reveal(MCSLock::wf_queue);
            reveal(MCSLock::wf_phases);
            reveal(MCSLock::wf_links);
            reveal(MCSLock::wf_value);
            let q = self.order@;
            assert forall|t: int|
                0 <= t < self.nodes@.len() implies ((#[trigger] self.phases@[t]) is Idle
                <==> !q.contains(t)) by {
                if t == me as int {
                    assert(forall|i: int| 0 <= i < q.len() ==> #[trigger] q[i] < me as int);
                    assert(!q.contains(t));
                }
            }
        }
        me
    }

    /// A thread that is not idle stands somewhere in the queue.
    proof fn position_of(&self, t: int) -> (i: int)
        requires
            self.wf(),
            0 <= t < self.num_threads(),
            !(self.phase(t) is Idle),
        ensures
            0 <= i < self.queue().len(),
            self.queue()[i] == t,
    {
        reveal(MCSLock::wf_queue);
        reveal(MCSLock::wf_phases);
        reveal(MCSLock::wf_links);
        reveal(MCSLock::wf_value);
        assert(self.order@.contains(t));
        choose|i: int| 0 <= i < self.order@.len() && self.order@[i] == t
    }

    /// A thread that was granted the lock stands at the head of the queue.
    proof fn lemma_granted_is_head(&self, t: int)
        requires
            self.wf(),
            0 <= t < self.num_threads(),
            self.phase(t) is Holding || self.phase(t) is Releasing,
        ensures
            self.queue().len() > 0,
            self.queue()[0] == t,
            self.queue().len() >= 2 ==> (0 <= self.queue()[1] < self.num_threads()
                && self.queue()[1] != t),
    {
        reveal(MCSLock::wf_queue);
        reveal(MCSLock::wf_phases);
        reveal(MCSLock::wf_links);
        reveal(MCSLock::wf_value);
        let i = self.position_of(t);
        assert(i == 0);
    }

    /// An unpublished thread stands at position `i >= 1`, right behind the
    /// predecessor its phase names, whose link slot is still empty.
    proof fn lemma_entered_position(&self, t: int, p: int) -> (i: int)
        requires
            self.wf(),
            0 <= t < self.num_threads(),
            self.phase(t) == (Phase::Entered { pred: p }),
        ensures
            1 <= i < self.queue().len(),
            self.queue()[i] == t,
            self.queue()[i - 1] == p,
            0 <= p < self.num_threads(),
            self.nodes@[p].next is None,
            p != t,
    {
        reveal(MCSLock::wf_queue);
        reveal(MCSLock::wf_phases);
        reveal(MCSLock::wf_links);
        reveal(MCSLock::wf_value);
        let i = self.position_of(t);
        assert(i >= 1);
        i
    }

    /// A waiting thread's flag is down exactly when it stands at the head.
    proof fn lemma_waiting_flag(&self, t: int)
        requires
            self.wf(),
            0 <= t < self.num_threads(),
            self.phase(t) is Waiting,
        ensures
            self.queue().len() > 0,
            !self.nodes@[t].locked <==> self.queue()[0] == t,
    {
        reveal(MCSLock::wf_queue);
        reveal(MCSLock::wf_phases);
        reveal(MCSLock::wf_links);
        reveal(MCSLock::wf_value);
        let i = self.position_of(t);
        if i != 0 {
            assert(self.nodes@[t].locked);
            if self.queue()[0] == t {
                assert(self.queue()[0] == self.queue()[i]);
                assert(false);
            }
        }
    }

    /// Joining an empty queue keeps the invariant: the joiner becomes the
    /// sole, already-granted head.
    proof fn lemma_enqueue_granted(pre: Self, post: Self, me: int)
        requires
            pre.wf(),
            0 <= me < pre.nodes@.len(),
            pre.phases@[me] is Idle,
            pre.order@.len() == 0,
            post.nodes@ == pre.nodes@.update(
                me,
                (QueueNode { next: None, locked: pre.nodes@[me].locked }),
            ),
            post.phases@ == pre.phases@.update(me, Phase::Holding),
            post.order@ == pre.order@.push(me),
            post.arrivals@ == pre.arrivals@.push(me),
            post.grants@ == pre.grants@.push(me),
            post.inner is None,
            post.tail == Some(me as usize),
        ensures
            post.wf(),
    {
        reveal(MCSLock::wf_queue);
        reveal(MCSLock::wf_phases);
        reveal(MCSLock::wf_links);
        reveal(MCSLock::wf_value);
        let q = post.order@;
        assert(q =~= seq![me]);
        assert(post.wf_queue()) by {
            assert(q[0] == me);
        }
        assert(post.wf_phases()) by {
            assert forall|t: int|
                0 <= t < post.nodes@.len() implies ((#[trigger] post.phases@[t]) is Idle
                <==> !q.contains(t)) by {
                if t == me {
                    assert(q[0] == t);
                } else {
                    assert(forall|i: int| 0 <= i < q.len() ==> #[trigger] q[i] == me);
                    assert(!q.contains(t));
                    assert(!pre.order@.contains(t));
                }
            }
            assert(post.phases@[q[0]] is Holding);
        }
        assert(post.wf_links()) by {
            assert(post.nodes@[q[0]].next is None);
        }
        assert(post.wf_value()) by {
            assert(post.head_granted());
            assert(post.pending() =~= Seq::<int>::empty());
            assert(pre.pending() =~= pre.order@);
            assert(post.arrivals@ =~= post.grants@ + post.pending());
        }
    }

    /// Joining a non-empty queue keeps the invariant: the joiner becomes the
    /// new, unpublished tail behind the old one.
    proof fn lemma_enqueue_queued(pre: Self, post: Self, me: int, p: int)
        requires
            pre.wf(),
            0 <= me < pre.nodes@.len(),
            pre.phases@[me] is Idle,
            pre.order@.len() > 0,
            p == pre.order@[pre.order@.len() - 1],
            post.nodes@ == pre.nodes@.update(me, (QueueNode { next: None, locked: true })),
            post.phases@ == pre.phases@.update(me, (Phase::Entered { pred: p })),
            post.order@ == pre.order@.push(me),
            post.arrivals@ == pre.arrivals@.push(me),
            post.grants@ == pre.grants@,
            post.inner == pre.inner,
            post.tail == Some(me as usize),
        ensures
            post.wf(),
    {
        reveal(MCSLock::wf_queue);
        reveal(MCSLock::wf_phases);
        reveal(MCSLock::wf_links);
        reveal(MCSLock::wf_value);
        let q0 = pre.order@;
        let q = post.order@;
        assert(q[q.len() - 1] == me);
        assert(forall|i: int| 0 <= i < q0.len() ==> #[trigger] q[i] == q0[i]);
        assert(0 <= p < pre.nodes@.len());
        assert(!q0.contains(me));
        assert(p != me);
        assert(post.wf_queue());
        assert(post.wf_phases()) by {
            assert forall|t: int|
                0 <= t < post.nodes@.len() implies ((#[trigger] post.phases@[t]) is Idle
                <==> !q.contains(t)) by {
                if t == me {
                    assert(q[q.len() - 1] == t);
                } else {
                    if q.contains(t) {
                        let i = choose|i: int| 0 <= i < q.len() && q[i] == t;
                        assert(q0[i] == t);
                        assert(q0.contains(t));
                    }
                    if q0.contains(t) {
                        let i = choose|i: int| 0 <= i < q0.len() && q0[i] == t;
                        assert(q[i] == t);
                    }
                }
            }
            assert(q[0] == q0[0]);
        }
        assert(post.wf_links()) by {
            assert(q[q.len() - 2] == q0[q0.len() - 1]);
            assert(post.phases@[q[q.len() - 1]] == (Phase::Entered { pred: q[q.len() - 2] }));
            assert(post.nodes@[q[q.len() - 1]].next is None);
            assert(post.nodes@[q[q.len() - 2]].next == pre.nodes@[q0[q0.len() - 1]].next);
        }
        assert(post.wf_value()) by {
            assert(q[0] == q0[0]);
            assert(post.head_granted() == pre.head_granted());
            assert(post.pending() =~= pre.pending().push(me));
            assert(post.arrivals@ =~= post.grants@ + post.pending());
        }
    }

    /// One atomic swap of the tail: the caller joins the queue, and either
    /// acquires at once — exactly when the queue was empty — or learns its
    /// predecessor, behind which it must publish its link.  The stale `next`
    /// of the caller's node is cleared first, so a leftover link from an
    /// earlier acquisition cannot be mistaken for a successor.
    #[verifier::rlimit(100)]
    #[verifier::spinoff_prover]
    pub fn lock_enqueue(&mut self, me: usize) -> (r: LockAttempt<T>)
        requires
            old(self).wf(),
            (me as int) < old(self).num_threads(),
            old(self).phase(me as int) is Idle,
        ensures
            final(self).wf(),
            final(self).num_threads() == old(self).num_threads(),
            final(self).queue() == old(self).queue().push(me as int),
            final(self).arrived() == old(self).arrived().push(me as int),
            r is Acquired <==> old(self).queue().len() == 0,
            r matches LockAttempt::Acquired(g) ==> {
                &&& g.thread() == me as int
                &&& Some(g@) == old(self).stored()
                &&& final(self).stored() is None
                &&& final(self).phase(me as int) is Holding
                &&& final(self).granted() == old(self).granted().push(me as int)
            },
            r matches LockAttempt::Queued(pred) ==> {
                &&& old(self).queue().len() > 0
                &&& pred as int == old(self).queue().last()
                &&& final(self).phase(me as int) == (Phase::Entered { pred: pred as int })
                &&& final(self).stored() == old(self).stored()
                &&& final(self).granted() == old(self).granted()
            },
            forall|t: int|
                0 <= t < old(self).num_threads() && t != me as int ==> final(self).phase(t)
                    == old(self).phase(t),
    {
        proof {
            assert(old(self).phases@.len() == old(self).nodes@.len()) by {
                reveal(MCSLock::wf_queue);
            }
        }
        // reset the stale link from any earlier acquisition (the registry's
        // per-call duty), then swap ourselves in as the tail
        let stale_locked = self.nodes[me].locked;
        self.nodes.set(me, QueueNode { next: None, locked: stale_locked });
        let pred = self.tail;
        self.tail = Some(me);
        self.order = Ghost(self.order@.push(me as int));
        self.arrivals = Ghost(self.arrivals@.push(me as int));
        match pred {
            None => {
                // the queue was empty: first in line, acquire at once
                self.phases = Ghost(self.phases@.update(me as int, Phase::Holding));
                self.grants = Ghost(self.grants@.push(me as int));
                let v = self.inner.take();
                proof {
                    assert(old(self).order@.len() == 0) by {
                        reveal(MCSLock::wf_queue);
                    }
                    Self::lemma_enqueue_granted(*old(self), *self, me as int);
                    assert(v is Some) by {
                        reveal(MCSLock::wf_value);
                    }
                }
                match v {
                    Some(value) => LockAttempt::Acquired(Guard { me, value }),
                    None => unreached(),
                }
            },
            Some(p) => {
                // someone is ahead: raise our own flag, and report the
                // predecessor so the caller can publish the link
                self.nodes.set(me, QueueNode { next: None, locked: true });
                self.phases = Ghost(
                    self.phases@.update(me as int, Phase::Entered { pred: p as int }),
                );
                proof {
                    assert(self.nodes@ =~= old(self).nodes@.update(
                        me as int,
                        (QueueNode { next: None, locked: true }),
                    ));
                    assert(old(self).order@.len() > 0 && old(self).order@[old(self).order@.len()
                        - 1] == p as int) by {
                        reveal(MCSLock::wf_queue);
                        assert(old(self).tail == Some(p));
                        assert(old(self).order@.len() > 0);
                        assert(old(self).nodes.len() == old(self).nodes@.len());
                        assert(0 <= old(self).order@[old(self).order@.len() - 1]
                            < old(self).nodes@.len());
                    }
                    Self::lemma_enqueue_queued(*old(self), *self, me as int, p as int);
                }
                LockAttempt::Queued(p)
            },
        }
    }
}

impl<T> MCSLock<T> {
    /// Publishing the link keeps the invariant: the unpublished thread turns
    /// waiting, and its predecessor's slot now names it.
    proof fn lemma_publish(pre: Self, post: Self, me: int, p: int)
        requires
            pre.wf(),
            0 <= me < pre.nodes@.len(),
            pre.phases@[me] == (Phase::Entered { pred: p }),
            0 <= p < pre.nodes@.len(),
            post.nodes@ == pre.nodes@.update(
                p,
                (QueueNode { next: Some(me as usize), locked: pre.nodes@[p].locked }),
            ),
            post.phases@ == pre.phases@.update(me, Phase::Waiting),
            post.order@ == pre.order@,
            post.arrivals@ == pre.arrivals@,
            post.grants@ == pre.grants@,
            post.inner == pre.inner,
            post.tail == pre.tail,
        ensures
            post.wf(),
    {
        reveal(MCSLock::wf_queue);
        reveal(MCSLock::wf_phases);
        reveal(MCSLock::wf_links);
        reveal(MCSLock::wf_value);
        let q = pre.order@;
        let i = pre.lemma_entered_position(me, p);
        assert(post.wf_queue());
        assert(post.wf_phases()) by {
            assert(q[0] != me) by {
                if q[0] == me {
                    assert(q[0] == q[i]);
                }
            }
            assert(q.len() > 0 && q[0] != p || q[0] == p);
        }
        assert(post.wf_links()) by {
            assert forall|j: int| 0 <= j < q.len() - 1 implies post.nodes@[#[trigger] q[j]].next
                == (if post.phases@[q[j + 1]] is Waiting {
                Some(q[j + 1] as usize)
            } else {
                None
            }) by {
                if j == i - 1 {
                    assert(post.nodes@[p].next == Some(me as usize));
                    assert(pre.nodes.len() == pre.nodes@.len());
                } else {
                    assert(q[j] != p) by {
                        if q[j] == p {
                            assert(q[j] == q[i - 1]);
                        }
                    }
                    assert(q[j + 1] != me) by {
                        if q[j + 1] == me {
                            assert(q[j + 1] == q[i]);
                        }
                    }
                }
            }
            assert(q[q.len() - 1] != p) by {
                if q[q.len() - 1] == p {
                    assert(q[q.len() - 1] == q[i - 1]);
                }
            }
        }
        assert(post.wf_value()) by {
            assert(q[0] != me) by {
                if q[0] == me {
                    assert(q[0] == q[i]);
                }
            }
            assert(post.head_granted() == pre.head_granted());
            assert(post.pending() == pre.pending());
        }
    }

    /// Store the link into the predecessor's `next` slot, making the caller
    /// visible to the release protocol.  This closes the race window the
    /// caller opened with its tail swap: from here on, a releasing
    /// predecessor finds and wakes it.
    pub fn lock_publish(&mut self, me: usize, pred: usize)
        requires
            old(self).wf(),
            (me as int) < old(self).num_threads(),
            old(self).phase(me as int) == (Phase::Entered { pred: pred as int }),
        ensures
            final(self).wf(),
            final(self).phase(me as int) is Waiting,
            final(self).num_threads() == old(self).num_threads(),
            final(self).queue() == old(self).queue(),
            final(self).arrived() == old(self).arrived(),
            final(self).granted() == old(self).granted(),
            final(self).stored() == old(self).stored(),
            forall|t: int|
                0 <= t < old(self).num_threads() && t != me as int ==> final(self).phase(t)
                    == old(self).phase(t),
    {
        proof {
            let i = old(self).lemma_entered_position(me as int, pred as int);
            assert(old(self).phases@.len() == old(self).nodes@.len()) by {
                reveal(MCSLock::wf_queue);
            }
        }
        let pred_locked = self.nodes[pred].locked;
        self.nodes.set(pred, QueueNode { next: Some(me), locked: pred_locked });
        self.phases = Ghost(self.phases@.update(me as int, Phase::Waiting));
        proof {
            Self::lemma_publish(*old(self), *self, me as int, pred as int);
        }
    }

    /// Granting the waiting head keeps the invariant.
    proof fn lemma_grant(pre: Self, post: Self, me: int)
        requires
            pre.wf(),
            0 <= me < pre.nodes@.len(),
            pre.phases@[me] is Waiting,
            pre.order@.len() > 0,
            pre.order@[0] == me,
            post.nodes@ == pre.nodes@,
            post.phases@ == pre.phases@.update(me, Phase::Holding),
            post.order@ == pre.order@,
            post.arrivals@ == pre.arrivals@,
            post.grants@ == pre.grants@.push(me),
            post.inner is None,
            post.tail == pre.tail,
        ensures
            post.wf(),
    {
        reveal(MCSLock::wf_queue);
        reveal(MCSLock::wf_phases);
        reveal(MCSLock::wf_links);
        reveal(MCSLock::wf_value);
        let q = pre.order@;
        assert(post.wf_queue());
        assert(post.wf_phases());
        assert(post.wf_links()) by {
            assert forall|j: int| 1 <= j < q.len() implies (post.nodes@[#[trigger] q[j]].locked && (
                post.phases@[q[j]] is Waiting || post.phases@[q[j]] == (Phase::Entered {
                    pred: q[j - 1],
                }))) by {
                assert(q[j] != me) by {
                    if q[j] == me {
                        assert(q[j] == q[0]);
                    }
                }
            }
            assert forall|j: int| 0 <= j < q.len() - 1 implies post.nodes@[#[trigger] q[j]].next
                == (if post.phases@[q[j + 1]] is Waiting {
                Some(q[j + 1] as usize)
            } else {
                None
            }) by {
                assert(q[j + 1] != me) by {
                    if q[j + 1] == me {
                        assert(q[j + 1] == q[0]);
                    }
                }
            }
        }
        assert(post.wf_value()) by {
            assert(!pre.head_granted());
            assert(post.head_granted());
            assert(pre.pending() == q);
            assert(post.pending() == q.skip(1));
            assert(post.arrivals@ =~= post.grants@ + post.pending()) by {
                assert(pre.arrivals@ == pre.grants@ + q);
                assert(pre.grants@.push(me) + q.skip(1) =~= pre.grants@ + q);
            }
        }
    }

    /// One read of the caller's own wait flag: the flag is down — and the
    /// lock granted — exactly when the caller has reached the head of the
    /// queue.  Otherwise nothing changes and the caller polls again, or
    /// parks until its predecessor's wake and then polls again.
    pub fn lock_poll(&mut self, me: usize) -> (g: Option<Guard<T>>)
        requires
            old(self).wf(),
            (me as int) < old(self).num_threads(),
            old(self).phase(me as int) is Waiting,
        ensures
            final(self).wf(),
            g is Some <==> (old(self).queue().len() > 0 && old(self).queue()[0] == me as int),
            g matches Some(gg) ==> {
                &&& gg.thread() == me as int
                &&& Some(gg@) == old(self).stored()
                &&& final(self).stored() is None
                &&& final(self).phase(me as int) is Holding
                &&& final(self).granted() == old(self).granted().push(me as int)
                &&& final(self).queue() == old(self).queue()
                &&& final(self).arrived() == old(self).arrived()
                &&& final(self).num_threads() == old(self).num_threads()
                &&& forall|t: int|
                    0 <= t < old(self).num_threads() && t != me as int ==> final(self).phase(t)
                        == old(self).phase(t)
            },
            g is None ==> *final(self) == *old(self),
    {
        proof {
            old(self).lemma_waiting_flag(me as int);
            assert(old(self).phases@.len() == old(self).nodes@.len()) by {
                reveal(MCSLock::wf_queue);
            }
        }
        if self.nodes[me].locked {
            None
        } else {
            self.phases = Ghost(self.phases@.update(me as int, Phase::Holding));
            self.grants = Ghost(self.grants@.push(me as int));
            let v = self.inner.take();
            proof {
                Self::lemma_grant(*old(self), *self, me as int);
                assert(v is Some) by {
                    reveal(MCSLock::wf_phases);
                    reveal(MCSLock::wf_value);
                }
            }
            match v {
                Some(value) => Some(Guard { me, value }),
                None => unreached(),
            }
        }
    }

    /// Starting a release keeps the invariant: the holder turns releasing as
    /// the value comes back to rest in the lock.
    proof fn lemma_release_start(pre: Self, post: Self, me: int)
        requires
            pre.wf(),
            0 <= me < pre.nodes@.len(),
            pre.phases@[me] is Holding,
            pre.order@.len() > 0,
            pre.order@[0] == me,
            post.nodes@ == pre.nodes@,
            post.phases@ == pre.phases@.update(me, Phase::Releasing),
            post.order@ == pre.order@,
            post.arrivals@ == pre.arrivals@,
            post.grants@ == pre.grants@,
            post.inner is Some,
            post.tail == pre.tail,
        ensures
            post.wf(),
    {
        reveal(MCSLock::wf_queue);
        reveal(MCSLock::wf_phases);
        reveal(MCSLock::wf_links);
        reveal(MCSLock::wf_value);
        let q = pre.order@;
        assert(post.wf_queue());
        assert(post.wf_phases());
        assert(post.wf_links()) by {
            assert forall|j: int| 1 <= j < q.len() implies (post.nodes@[#[trigger] q[j]].locked && (
                post.phases@[q[j]] is Waiting || post.phases@[q[j]] == (Phase::Entered {
                    pred: q[j - 1],
                }))) by {
                assert(q[j] != me) by {
                    if q[j] == me {
                        assert(q[j] == q[0]);
                    }
                }
            }
            assert forall|j: int| 0 <= j < q.len() - 1 implies post.nodes@[#[trigger] q[j]].next
                == (if post.phases@[q[j + 1]] is Waiting {
                Some(q[j + 1] as usize)
            } else {
                None
            }) by {
                assert(q[j + 1] != me) by {
                    if q[j + 1] == me {
                        assert(q[j + 1] == q[0]);
                    }
                }
            }
        }
        assert(post.wf_value()) by {
            assert(pre.head_granted() && post.head_granted());
            assert(post.pending() == pre.pending());
        }
    }

    /// Give the value back and start the release protocol.  The guard is
    /// consumed: this is the only way it releases, and it cannot happen
    /// twice.  The release completes through [`MCSLock::unlock_step`].
    pub fn unlock_start(&mut self, g: Guard<T>)
        requires
            old(self).wf(),
            g.thread() < old(self).num_threads(),
            old(self).holds_lock(g.thread()),
        ensures
            final(self).wf(),
            final(self).phase(g.thread()) is Releasing,
            final(self).stored() == Some(g@),
            final(self).num_threads() == old(self).num_threads(),
            final(self).queue() == old(self).queue(),
            final(self).arrived() == old(self).arrived(),
            final(self).granted() == old(self).granted(),
            forall|t: int|
                0 <= t < old(self).num_threads() && t != g.thread() ==> final(self).phase(t)
                    == old(self).phase(t),
    {
        proof {
            old(self).lemma_granted_is_head(g.thread());
            assert(old(self).phases@.len() == old(self).nodes@.len()) by {
                reveal(MCSLock::wf_queue);
            }
        }
        let Guard { me, value } = g;
        self.inner = Some(value);
        self.phases = Ghost(self.phases@.update(me as int, Phase::Releasing));
        proof {
            Self::lemma_release_start(*old(self), *self, me as int);
        }
    }

    /// What a releasing thread can read off the shared state: it is the
    /// head, and its `next` slot is set exactly when a successor stands
    /// published behind it, while the tail names it exactly when it is
    /// alone in the queue.
    proof fn lemma_releasing_facts(&self, me: int)
        requires
            self.wf(),
            0 <= me < self.num_threads(),
            self.phase(me) is Releasing,
        ensures
            self.queue().len() > 0,
            self.queue()[0] == me,
            self.queue().len() >= 2 ==> 0 <= self.queue()[1] < self.num_threads(),
            self.queue().len() >= 2 && self.phase(self.queue()[1]) is Waiting ==> self.nodes@[me].next
                == Some(self.queue()[1] as usize),
            self.queue().len() >= 2 && !(self.phase(self.queue()[1]) is Waiting)
                ==> self.nodes@[me].next is None,
            self.queue().len() == 1 ==> self.nodes@[me].next is None,
            self.tail == Some(me as usize) <==> self.queue().len() == 1,
    {
        reveal(MCSLock::wf_queue);
        reveal(MCSLock::wf_phases);
        reveal(MCSLock::wf_links);
        self.lemma_granted_is_head(me);
        let q = self.order@;
        assert(self.nodes.len() == self.nodes@.len());
        if q.len() >= 2 {
            assert(q[q.len() - 1] != me) by {
                if q[q.len() - 1] == me {
                    assert(q[q.len() - 1] == q[0]);
                }
            }
            assert(self.tail != Some(me as usize));
        }
    }

    /// Completing a release by waking the published successor keeps the
    /// invariant: the head leaves the queue and the successor, its flag now
    /// down, becomes the new head.
    proof fn lemma_release_wake(pre: Self, post: Self, me: int, s: int)
        requires
            pre.wf(),
            0 <= me < pre.nodes@.len(),
            pre.order@.len() >= 2,
            pre.order@[0] == me,
            pre.order@[1] == s,
            pre.phases@[me] is Releasing,
            pre.phases@[s] is Waiting,
            0 <= s < pre.nodes@.len(),
            post.nodes@ == pre.nodes@.update(
                s,
                (QueueNode { next: pre.nodes@[s].next, locked: false }),
            ),
            post.phases@ == pre.phases@.update(me, Phase::Idle),
            post.order@ == pre.order@.skip(1),
            post.arrivals@ == pre.arrivals@,
            post.grants@ == pre.grants@,
            post.inner == pre.inner,
            post.tail == pre.tail,
        ensures
            post.wf(),
    {
        reveal(MCSLock::wf_queue);
        reveal(MCSLock::wf_phases);
        reveal(MCSLock::wf_links);
        reveal(MCSLock::wf_value);
        let q = pre.order@;
        let q2 = post.order@;
        assert(forall|i: int| 0 <= i < q2.len() ==> #[trigger] q2[i] == q[i + 1]);
        assert(s != me);
        assert(post.wf_queue()) by {
            assert(q2[q2.len() - 1] == q[q.len() - 1]);
        }
        assert(post.wf_phases()) by {
            assert forall|t: int|
                0 <= t < post.nodes@.len() implies ((#[trigger] post.phases@[t]) is Idle
                <==> !q2.contains(t)) by {
                if t == me {
                    assert(forall|i: int| 0 <= i < q2.len() ==> #[trigger] q2[i] != me);
                } else {
                    if q2.contains(t) {
                        let i = choose|i: int| 0 <= i < q2.len() && q2[i] == t;
                        assert(q[i + 1] == t);
                        assert(q.contains(t));
                    }
                    if q.contains(t) {
                        let i = choose|i: int| 0 <= i < q.len() && q[i] == t;
                        assert(i != 0);
                        assert(q2[i - 1] == t);
                        assert(q2.contains(t));
                    }
                }
            }
            assert(q2[0] == s);
            assert(!post.nodes@[s].locked);
        }
        assert(post.wf_links()) by {
            assert forall|j: int| 1 <= j < q2.len() implies (post.nodes@[#[trigger] q2[j]].locked
                && (post.phases@[q2[j]] is Waiting || post.phases@[q2[j]] == (Phase::Entered {
                    pred: q2[j - 1],
                }))) by {
                assert(q2[j] == q[j + 1]);
                assert(q2[j - 1] == q[j]);
                assert(q2[j] != s) by {
                    if q2[j] == s {
                        assert(q[j + 1] == q[1]);
                    }
                }
                assert(q2[j] != me) by {
                    if q2[j] == me {
                        assert(q[j + 1] == q[0]);
                    }
                }
            }
            assert forall|j: int| 0 <= j < q2.len() - 1 implies post.nodes@[#[trigger] q2[j]].next
                == (if post.phases@[q2[j + 1]] is Waiting {
                Some(q2[j + 1] as usize)
            } else {
                None
            }) by {
                assert(q2[j] == q[j + 1]);
                assert(q2[j + 1] == q[j + 2]);
                assert(post.nodes@[q2[j]].next == pre.nodes@[q[j + 1]].next);
                assert(q2[j + 1] != me) by {
                    if q2[j + 1] == me {
                        assert(q[j + 2] == q[0]);
                    }
                }
            }
            assert(q2[q2.len() - 1] == q[q.len() - 1]);
            assert(post.nodes@[q2[q2.len() - 1]].next is None);
        }
        assert(post.wf_value()) by {
            assert(pre.head_granted());
            assert(q2[0] == s);
            assert(!post.head_granted());
            assert(post.pending() == q2);
            assert(pre.pending() == q.skip(1));
            assert(post.arrivals@ == post.grants@ + post.pending());
        }
    }

    /// Completing a release of a queue of one by clearing the tail keeps the
    /// invariant: the queue empties.
    proof fn lemma_release_empty(pre: Self, post: Self, me: int)
        requires
            pre.wf(),
            0 <= me < pre.nodes@.len(),
            pre.order@.len() == 1,
            pre.order@[0] == me,
            pre.phases@[me] is Releasing,
            post.nodes@ == pre.nodes@,
            post.phases@ == pre.phases@.update(me, Phase::Idle),
            post.order@ == pre.order@.skip(1),
            post.arrivals@ == pre.arrivals@,
            post.grants@ == pre.grants@,
            post.inner == pre.inner,
            post.tail is None,
        ensures
            post.wf(),
    {
        reveal(MCSLock::wf_queue);
        reveal(MCSLock::wf_phases);
        reveal(MCSLock::wf_links);
        reveal(MCSLock::wf_value);
        let q2 = post.order@;
        assert(q2.len() == 0);
        assert(post.wf_queue());
        assert(post.wf_phases()) by {
            assert forall|t: int|
                0 <= t < post.nodes@.len() implies ((#[trigger] post.phases@[t]) is Idle
                <==> !q2.contains(t)) by {
                assert(!q2.contains(t));
                if t != me {
                    assert(pre.order@.contains(t) ==> (exists|i: int|
                        0 <= i < pre.order@.len() && pre.order@[i] == t));
                    if pre.order@.contains(t) {
                        let i = choose|i: int| 0 <= i < pre.order@.len() && pre.order@[i] == t;
                        assert(pre.order@[0] == me);
                        assert(false);
                    }
                }
            }
        }
        assert(post.wf_links());
        assert(post.wf_value()) by {
            assert(pre.pending() =~= Seq::<int>::empty());
            assert(post.pending() =~= Seq::<int>::empty());
            assert(post.arrivals@ =~= post.grants@ + post.pending());
        }
    }

    /// One iteration of the release protocol, for the thread that called
    /// [`MCSLock::unlock_start`].  If the successor's link is visible, the
    /// successor's flag is cleared — its wake, delivered exactly once — and
    /// release completes.  Otherwise the tail is compared against the
    /// releaser: if it still names the releaser there is provably no
    /// successor and the tail is cleared, completing release; if it names
    /// someone else, a successor has swapped itself in but not yet published
    /// (the race window), so nothing changes and the caller must try again —
    /// the successor is never abandoned.
    pub fn unlock_step(&mut self, me: usize) -> (done: bool)
        requires
            old(self).wf(),
            (me as int) < old(self).num_threads(),
            old(self).phase(me as int) is Releasing,
        ensures
            final(self).wf(),
            done <==> (old(self).queue().len() == 1 || old(self).phase(
                old(self).queue()[1],
            ) is Waiting),
            done ==> {
                &&& final(self).queue() == old(self).queue().skip(1)
                &&& final(self).phase(me as int) is Idle
                &&& final(self).num_threads() == old(self).num_threads()
                &&& final(self).arrived() == old(self).arrived()
                &&& final(self).granted() == old(self).granted()
                &&& final(self).stored() == old(self).stored()
                &&& forall|t: int|
                    0 <= t < old(self).num_threads() && t != me as int ==> final(self).phase(t)
                        == old(self).phase(t)
            },
            !done ==> *final(self) == *old(self),
    {
        proof {
            old(self).lemma_releasing_facts(me as int);
            assert(old(self).phases@.len() == old(self).nodes@.len()) by {
                reveal(MCSLock::wf_queue);
            }
            assert(old(self).nodes.len() == old(self).nodes@.len());
        }
        let next = self.nodes[me].next;
        match next {
            Some(s) => {
                // the successor stands published: clear its flag, waking it
                let s_next = self.nodes[s].next;
                self.nodes.set(s, QueueNode { next: s_next, locked: false });
                self.phases = Ghost(self.phases@.update(me as int, Phase::Idle));
                self.order = Ghost(self.order@.skip(1));
                proof {
                    Self::lemma_release_wake(*old(self), *self, me as int, s as int);
                }
                true
            },
            None => {
                // no link yet: release completes only if nobody swapped in
                let tail_is_me = match self.tail {
                    Some(t) => t == me,
                    None => false,
                };
                if tail_is_me {
                    self.tail = None;
                    self.phases = Ghost(self.phases@.update(me as int, Phase::Idle));
                    self.order = Ghost(self.order@.skip(1));
                    proof {
                        Self::lemma_release_empty(*old(self), *self, me as int);
                    }
                    true
                } else {
                    // a successor holds the tail but has not yet published:
                    // report no progress so the caller retries
                    false
                }
            },
        }
    }
}

impl<T> MCSLock<T> {
    /// Acquire the lock when nobody is queued: the tail swap finds no
    /// predecessor, so the caller is granted access at once, with no
    /// spinning and no blocking.  Under contention the wait cannot be
    /// expressed sequentially; the caller then drives the protocol itself:
    /// [`MCSLock::lock_enqueue`], [`MCSLock::lock_publish`], then
    /// [`MCSLock::lock_poll`] until granted.
    pub fn lock(&mut self, me: usize) -> (g: Guard<T>)
        requires
            old(self).wf(),
            (me as int) < old(self).num_threads(),
            old(self).phase(me as int) is Idle,
            old(self).queue().len() == 0,
        ensures
            final(self).wf(),
            g.thread() == me as int,
            Some(g@) == old(self).stored(),
            final(self).stored() is None,
            final(self).phase(me as int) is Holding,
            final(self).queue() == old(self).queue().push(me as int),
            final(self).arrived() == old(self).arrived().push(me as int),
            final(self).granted() == old(self).granted().push(me as int),
            final(self).num_threads() == old(self).num_threads(),
            forall|t: int|
                0 <= t < old(self).num_threads() && t != me as int ==> final(self).phase(t)
                    == old(self).phase(t),
    {
        match self.lock_enqueue(me) {
            LockAttempt::Acquired(g) => g,
            LockAttempt::Queued(_) => unreached(),
        }
    }

    /// Release the lock when the successor, if any, has already published
    /// its link: give the value back, then complete the one release step
    /// that is then guaranteed to succeed.  Inside the race window — a
    /// successor at the tail that has not yet published — the caller drives
    /// the release itself: [`MCSLock::unlock_start`], then
    /// [`MCSLock::unlock_step`] until it reports completion.
    pub fn unlock(&mut self, g: Guard<T>)
        requires
            old(self).wf(),
            g.thread() < old(self).num_threads(),
            old(self).holds_lock(g.thread()),
            old(self).queue().len() == 1 || old(self).phase(old(self).queue()[1]) is Waiting,
        ensures
            final(self).wf(),
            final(self).queue() == old(self).queue().skip(1),
            final(self).phase(g.thread()) is Idle,
            final(self).stored() == Some(g@),
            final(self).arrived() == old(self).arrived(),
            final(self).granted() == old(self).granted(),
            final(self).num_threads() == old(self).num_threads(),
            forall|t: int|
                0 <= t < old(self).num_threads() && t != g.thread() ==> final(self).phase(t)
                    == old(self).phase(t),
    {
        let me = g.holder();
        proof {
            old(self).lemma_granted_is_head(g.thread());
        }
        self.unlock_start(g);
        let done = self.unlock_step(me);
        proof {
            assert(done);
        }
    }
}

/// Mutual exclusion: no two threads hold the lock at once.  Two guards from
/// one lock cannot be alive together — a guard exists exactly for a thread
/// in the holding phase, and while one is out the protected value is away
/// from the lock, so no step can build a second one.
pub proof fn lemma_mutual_exclusion<T>(l: &MCSLock<T>, t1: int, t2: int)
    requires
        l.wf(),
        0 <= t1 < l.num_threads(),
        0 <= t2 < l.num_threads(),
        l.holds_lock(t1),
        l.holds_lock(t2),
    ensures
        t1 == t2,
        l.stored() is None,
{
    l.lemma_granted_is_head(t1);
    l.lemma_granted_is_head(t2);
    reveal(MCSLock::wf_value);
}

/// FIFO fairness: the lock is granted in arrival order.  At every reachable
/// state, the grant history is exactly the prefix of the arrival history of
/// that length — the thread whose tail swap came earlier is granted
/// earlier, without exception.
pub proof fn lemma_fifo<T>(l: &MCSLock<T>)
    requires
        l.wf(),
    ensures
        l.granted().len() <= l.arrived().len(),
        l.granted() == l.arrived().take(l.granted().len() as int),
{
    reveal(MCSLock::wf_value);
    assert(l.arrived().take(l.granted().len() as int) =~= l.granted());
}

/// No lost wakeup: the head of a non-empty queue is never stranded.  It is
/// waiting with its wake already delivered, holding the lock, or releasing
/// it — never still unpublished and never idle — so when it is waiting, its
/// very next poll is granted ([`MCSLock::lock_poll`] grants exactly at the
/// head), and the queue always drains.
pub proof fn lemma_no_lost_wakeup<T>(l: &MCSLock<T>)
    requires
        l.wf(),
        l.queue().len() > 0,
    ensures
        l.phase(l.queue()[0]) is Waiting || l.phase(l.queue()[0]) is Holding || l.phase(
            l.queue()[0],
        ) is Releasing,
{
    reveal(MCSLock::wf_phases);
}

/// Single-thread baseline: with exactly one registered thread, standing
/// idle, the queue is empty — so by [`MCSLock::lock_enqueue`]'s contract its
/// every acquisition is granted immediately, with no spinning and no
/// blocking.
pub proof fn lemma_single_thread_immediate<T>(l: &MCSLock<T>)
    requires
        l.wf(),
        l.num_threads() == 1,
        l.phase(0) is Idle,
    ensures
        l.queue().len() == 0,
{
    reveal(MCSLock::wf_queue);
    reveal(MCSLock::wf_phases);
    if l.queue().len() > 0 {
        assert(l.queue()[0] == 0);
        assert(l.queue().contains(0));
        assert(false);
    }
}

} // verus!
