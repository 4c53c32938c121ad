//! The MCS queue lock, driven step by step as a scheduler of simulated
//! threads would drive it: every interleaving of the step calls stays inside
//! the verified transitions, and these tests pick the interesting ones.

use kitchen_sync::mcs_lock::Guard;
use kitchen_sync::mcs_lock::LockAttempt;
use kitchen_sync::mcs_lock::MCSLock;

#[test]
fn single_thread_always_immediate() {
    // with exactly one thread, every acquisition is granted at once
    let mut l = MCSLock::new(50u64);
    let me = l.register();
    for _ in 0..4 {
        let mut g = l.lock(me);
        let v = *g.get();
        g.set(v * 2);
        l.unlock(g);
    }
    let g = l.lock(me);
    assert_eq!(*g.get(), 800);
    assert_eq!(g.holder(), me);
    l.unlock(g);
}

#[test]
fn enqueue_grants_exactly_on_empty_queue() {
    let mut l = MCSLock::new(9u8);
    let t0 = l.register();
    let t1 = l.register();
    // empty queue: immediate acquisition
    let g = match l.lock_enqueue(t0) {
        LockAttempt::Acquired(g) => g,
        LockAttempt::Queued(_) => panic!("empty queue must grant at once"),
    };
    // non-empty queue: a place in line behind the holder
    match l.lock_enqueue(t1) {
        LockAttempt::Acquired(_) => panic!("non-empty queue must queue the caller"),
        LockAttempt::Queued(pred) => assert_eq!(pred, t0),
    }
    l.lock_publish(t1, t0);
    l.unlock(g);
    let g1 = l.lock_poll(t1).expect("woken head must be granted");
    assert_eq!(*g1.get(), 9);
    l.unlock(g1);
}

#[test]
fn fifo_three_threads_granted_in_enqueue_order() {
    let mut l = MCSLock::new(0u64);
    let t0 = l.register();
    let t1 = l.register();
    let t2 = l.register();
    let g0 = match l.lock_enqueue(t0) {
        LockAttempt::Acquired(g) => g,
        LockAttempt::Queued(_) => panic!("first in line"),
    };
    let p1 = match l.lock_enqueue(t1) {
        LockAttempt::Acquired(_) => panic!("queued behind t0"),
        LockAttempt::Queued(p) => p,
    };
    l.lock_publish(t1, p1);
    let p2 = match l.lock_enqueue(t2) {
        LockAttempt::Acquired(_) => panic!("queued behind t1"),
        LockAttempt::Queued(p) => p,
    };
    assert_eq!(p2, t1);
    l.lock_publish(t2, p2);
    // the lock changes hands in enqueue order, never out of it
    assert!(l.lock_poll(t2).is_none());
    assert!(l.lock_poll(t1).is_none());
    l.unlock(g0);
    assert!(l.lock_poll(t2).is_none(), "t2 must not overtake t1");
    let g1 = l.lock_poll(t1).expect("t1 is next in line");
    l.unlock(g1);
    let g2 = l.lock_poll(t2).expect("t2 comes last");
    l.unlock(g2);
}

#[test]
fn release_waits_out_the_publish_race() {
    let mut l = MCSLock::new(0u32);
    let t0 = l.register();
    let t1 = l.register();
    let g0 = match l.lock_enqueue(t0) {
        LockAttempt::Acquired(g) => g,
        LockAttempt::Queued(_) => panic!("first in line"),
    };
    // t1 swaps itself in as the tail but does not publish the link yet:
    // the releasing t0 must neither complete nor abandon it
    let p1 = match l.lock_enqueue(t1) {
        LockAttempt::Acquired(_) => panic!("queued behind t0"),
        LockAttempt::Queued(p) => p,
    };
    l.unlock_start(g0);
    assert!(!l.unlock_step(t0), "release cannot complete inside the window");
    assert!(!l.unlock_step(t0), "retrying inside the window changes nothing");
    // the successor publishes; the very next release attempt hands over
    l.lock_publish(t1, p1);
    assert!(l.unlock_step(t0), "release completes once the link is visible");
    // exactly one wake: the successor is granted on its next poll
    let g1 = l.lock_poll(t1).expect("the woken successor acquires");
    l.unlock(g1);
}

#[test]
fn release_hands_over_promptly() {
    let mut l = MCSLock::new(false);
    let t0 = l.register();
    let t1 = l.register();
    let g0 = l.lock(t0);
    let p = match l.lock_enqueue(t1) {
        LockAttempt::Acquired(_) => panic!("queued behind t0"),
        LockAttempt::Queued(p) => p,
    };
    l.lock_publish(t1, p);
    assert!(l.lock_poll(t1).is_none(), "still held by t0");
    l.unlock(g0);
    // after any release, the next waiter succeeds on its first recheck
    assert!(l.lock_poll(t1).is_some());
}

#[test]
fn node_reuse_clears_stale_link() {
    // after releasing with a successor, a node keeps a stale next link;
    // reusing it for a fresh acquisition must not resurrect that link
    let mut l = MCSLock::new(0i64);
    let t0 = l.register();
    let t1 = l.register();
    let g0 = l.lock(t0);
    let p = match l.lock_enqueue(t1) {
        LockAttempt::Acquired(_) => panic!("queued behind t0"),
        LockAttempt::Queued(p) => p,
    };
    l.lock_publish(t1, p);
    l.unlock(g0);
    let g1 = l.lock_poll(t1).expect("t1 next in line");
    // t0's node now carries the stale link to t1; t0 re-enqueues behind t1
    let p0 = match l.lock_enqueue(t0) {
        LockAttempt::Acquired(_) => panic!("queued behind t1"),
        LockAttempt::Queued(p) => p,
    };
    assert_eq!(p0, t1);
    l.lock_publish(t0, p0);
    l.unlock(g1);
    let g0 = l.lock_poll(t0).expect("t0 next in line");
    l.unlock(g0);
    // and one more uncontended round for each node
    let g = l.lock(t1);
    l.unlock(g);
    let g = l.lock(t0);
    l.unlock(g);
}

#[test]
fn register_while_held_joins_the_line() {
    // the registry grows lazily: a thread may register, and queue up, while
    // the lock is held and others already wait
    let mut l = MCSLock::new(1u64);
    let t0 = l.register();
    let g0 = l.lock(t0);
    let t1 = l.register();
    let p1 = match l.lock_enqueue(t1) {
        LockAttempt::Acquired(_) => panic!("queued behind t0"),
        LockAttempt::Queued(p) => p,
    };
    l.lock_publish(t1, p1);
    let t2 = l.register();
    let p2 = match l.lock_enqueue(t2) {
        LockAttempt::Acquired(_) => panic!("queued behind t1"),
        LockAttempt::Queued(p) => p,
    };
    assert_eq!(p2, t1);
    l.lock_publish(t2, p2);
    l.unlock(g0);
    let g1 = l.lock_poll(t1).expect("t1 next in line");
    l.unlock(g1);
    let g2 = l.lock_poll(t2).expect("t2 last in line");
    assert_eq!(*g2.get(), 1);
    l.unlock(g2);
}

enum Sim {
    Done,
    Idle,
    Publish(usize),
    Waiting,
    Holding(Guard<u64>),
    Releasing,
}

#[test]
fn stress_counter_has_no_duplicates_gaps_or_overtaking() {
    // many simulated threads, interleaved round-robin one protocol step at
    // a time, each repeatedly locking, recording the counter, incrementing
    // it, and releasing; the recorded values must be exactly 0..total with
    // no duplicates and no gaps, and grants must follow arrival order
    const THREADS: usize = 8;
    const ROUNDS: usize = 60;
    let mut l = MCSLock::new(0u64);
    let mut ids = Vec::new();
    for _ in 0..THREADS {
        ids.push(l.register());
    }
    let mut sim: Vec<Sim> = (0..THREADS).map(|_| Sim::Idle).collect();
    let mut remaining = [ROUNDS; THREADS];
    let mut observed: Vec<u64> = Vec::new();
    let mut arrival_log: Vec<usize> = Vec::new();
    let mut grant_log: Vec<usize> = Vec::new();
    let mut active = THREADS;
    let mut turn: usize = 0;
    let mut fuel: usize = 0;
    while active > 0 {
        fuel += 1;
        assert!(fuel < 1_000_000, "the protocol must keep making progress");
        let t = turn % THREADS;
        turn += 1;
        let cur = std::mem::replace(&mut sim[t], Sim::Done);
        sim[t] = match cur {
            Sim::Done => Sim::Done,
            Sim::Idle => {
                if remaining[t] == 0 {
                    active -= 1;
                    Sim::Done
                } else {
                    arrival_log.push(t);
                    match l.lock_enqueue(ids[t]) {
                        LockAttempt::Acquired(g) => {
                            grant_log.push(t);
                            Sim::Holding(g)
                        }
                        LockAttempt::Queued(pred) => Sim::Publish(pred),
                    }
                }
            }
            Sim::Publish(pred) => {
                l.lock_publish(ids[t], pred);
                Sim::Waiting
            }
            Sim::Waiting => match l.lock_poll(ids[t]) {
                Some(g) => {
                    grant_log.push(t);
                    Sim::Holding(g)
                }
                None => Sim::Waiting,
            },
            Sim::Holding(mut g) => {
                let v = *g.get();
                observed.push(v);
                g.set(v + 1);
                l.unlock_start(g);
                Sim::Releasing
            }
            Sim::Releasing => {
                if l.unlock_step(ids[t]) {
                    remaining[t] -= 1;
                    Sim::Idle
                } else {
                    Sim::Releasing
                }
            }
        };
    }
    let total = (THREADS * ROUNDS) as u64;
    assert_eq!(observed.len() as u64, total);
    let expected: Vec<u64> = (0..total).collect();
    assert_eq!(observed, expected);
    assert_eq!(grant_log, arrival_log);
    let g = l.lock(ids[0]);
    assert_eq!(*g.get(), total);
    l.unlock(g);
}
