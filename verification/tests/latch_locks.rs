//! The latch-based locks: acquisition, exclusion, release, and value flow.

use kitchen_sync::mutex_queued::MutexFair;
use kitchen_sync::rwlock::RwLock;
use kitchen_sync::Mutex;

#[test]
fn spinlock_new_then_lock_returns_value() {
    let mut m = Mutex::new(50u64);
    let g = m.lock();
    assert_eq!(*g.get(), 50);
    m.unlock(g);
}

#[test]
fn spinlock_try_lock_grants_only_when_free() {
    let mut m = Mutex::new(1u32);
    let g = m.try_lock();
    assert!(g.is_some());
    // while the guard is out, a second attempt must fail
    assert!(m.try_lock().is_none());
    assert!(m.try_lock().is_none());
    m.unlock(g.unwrap());
    // after release, an attempt succeeds again
    let g2 = m.try_lock();
    assert!(g2.is_some());
    assert_eq!(*g2.unwrap().get(), 1);
}

#[test]
fn spinlock_four_workers_double_value() {
    // four workers in turn double the shared value: 50 -> 800
    let mut m = Mutex::new(50u64);
    for _ in 0..4 {
        let mut g = m.lock();
        let v = *g.get();
        g.set(v * 2);
        m.unlock(g);
    }
    let g = m.lock();
    assert_eq!(*g.get(), 800);
    m.unlock(g);
}

#[test]
fn spinlock_lock_spin_roundtrip() {
    let mut m = Mutex::new(7i32);
    let mut g = m.lock_spin();
    g.set(-7);
    m.unlock(g);
    let g = m.lock_spin();
    assert_eq!(*g.get(), -7);
    m.unlock(g);
}

#[test]
fn spinlock_guard_set_overwrites() {
    let mut m = Mutex::new(String::from("before"));
    let mut g = m.lock();
    g.set(String::from("after"));
    m.unlock(g);
    let g = m.try_lock().unwrap();
    assert_eq!(g.get().as_str(), "after");
    m.unlock(g);
}

#[test]
fn test_and_set_mutex_matches_root_mutex() {
    let mut m = kitchen_sync::test_and_set::Mutex::new(50u64);
    for _ in 0..4 {
        let mut g = m.lock();
        let v = *g.get();
        g.set(v * 2);
        m.unlock(g);
    }
    assert!(m.try_lock().is_some());
    let mut m2 = kitchen_sync::test_and_set::Mutex::new(0u8);
    let g = m2.try_lock().unwrap();
    assert!(m2.try_lock().is_none());
    m2.unlock(g);
    let g = m2.lock_spin();
    assert_eq!(*g.get(), 0);
    m2.unlock(g);
}

#[test]
fn mutex_fair_latch_contract() {
    let mut m = MutexFair::new(50u64);
    for _ in 0..4 {
        let mut g = m.lock();
        let v = *g.get();
        g.set(v * 2);
        m.unlock(g);
    }
    let g = m.lock();
    assert_eq!(*g.get(), 800);
    m.unlock(g);
    let g = m.try_lock().unwrap();
    assert!(m.try_lock().is_none());
    m.unlock(g);
    let g = m.lock_spin();
    assert_eq!(*g.get(), 800);
    m.unlock(g);
}

#[test]
fn rwlock_write_then_read() {
    let mut l = RwLock::new(50u64);
    let mut w = l.write();
    let v = *w.get();
    w.set(v + 1);
    l.release_write(w);
    let r = l.read();
    assert_eq!(*r.get(), 51);
    l.release_read(r);
}

#[test]
fn rwlock_guards_serialize() {
    let mut l = RwLock::new(3u32);
    let r = l.read();
    assert_eq!(*r.get(), 3);
    l.release_read(r);
    let w = l.write();
    assert_eq!(*w.get(), 3);
    l.release_write(w);
    let r = l.read();
    assert_eq!(*r.get(), 3);
    l.release_read(r);
}
